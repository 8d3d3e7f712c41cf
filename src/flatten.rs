//! Flattening of a configuration tree into canonical command lines.
use vstd::prelude::*;
use crate::tree::{ConfigTree, NodeKind};

verus! {

/// Whether nodes of this kind stand for a command line of their own.
pub open spec fn kind_rendered(k: NodeKind) -> bool {
    match k {
        NodeKind::Container | NodeKind::Leaf | NodeKind::LeafList | NodeKind::List => true,
        _ => false,
    }
}

/// Whether node `i` gets a line of its own.
pub open spec fn shown(t: &ConfigTree, i: int, with_defaults: bool) -> bool {
    kind_rendered(t.kind_of(i)) && (with_defaults || !t.default_of(i))
}

/// Number of List nodes among `p` and its ancestors below the root (`p` is
/// -1 for none). The root is never counted, whatever its kind.
pub open spec fn list_ancestors(t: &ConfigTree, p: int) -> nat
    decreases p + 1,
{
    if 0 < p < t.len() {
        (if t.kind_of(p) == NodeKind::List { 1nat } else { 0nat }) + list_ancestors(t, t.up(p))
    } else {
        0
    }
}

/// Indentation of node `i`: one unit per strict List ancestor.
pub open spec fn indent_of(t: &ConfigTree, i: int) -> nat {
    list_ancestors(t, t.up(i))
}

/// `n` spaces.
pub open spec fn spaces(n: nat) -> Seq<char> {
    Seq::new(n, |_j: int| ' ')
}

/// Values of the key children of `i`, from its `k`-th child on.
pub open spec fn keys_from(t: &ConfigTree, i: int, k: int) -> Seq<Seq<char>>
    decreases t.children_of(i).len() - k,
{
    if 0 <= k < t.children_of(i).len() {
        let c = t.children_of(i)[k] as int;
        let rest = keys_from(t, i, k + 1);
        if t.kind_of(c) == NodeKind::ListKeyLeaf && t.value_of(c) is Some {
            seq![t.value_of(c)->0].add(rest)
        } else {
            rest
        }
    } else {
        Seq::empty()
    }
}

/// What node `i` contributes to a command line: its name, then its key values
/// where it is a List, or else its value where it has one.
pub open spec fn node_tokens(t: &ConfigTree, i: int) -> Seq<Seq<char>> {
    let tail = if t.kind_of(i) == NodeKind::List {
        keys_from(t, i, 0)
    } else {
        match t.value_of(i) {
            Some(v) => seq![v],
            None => Seq::empty(),
        }
    };
    seq![t.name_of(i)].add(tail)
}

/// Tokens of the ancestors that lead to a node whose parent is `p`, from the
/// nearest List ancestor (excluded) or the root (excluded) down.
pub open spec fn prefix_tokens(t: &ConfigTree, p: int) -> Seq<Seq<char>>
    decreases p + 1,
{
    if 0 < p < t.len() && t.kind_of(p) != NodeKind::List {
        prefix_tokens(t, t.up(p)).add(node_tokens(t, p))
    } else {
        Seq::empty()
    }
}

/// Tokens of the command line of node `i`, top-down.
pub open spec fn line_tokens(t: &ConfigTree, i: int) -> Seq<Seq<char>> {
    prefix_tokens(t, t.up(i)).add(node_tokens(t, i))
}

/// Tokens separated by single spaces.
pub open spec fn join(s: Seq<Seq<char>>) -> Seq<char>
    decreases s.len(),
{
    if s.len() == 0 {
        Seq::empty()
    } else if s.len() == 1 {
        s[0]
    } else {
        join(s.drop_last()).add(seq![' ']).add(s.last())
    }
}

/// The command line of node `i`, indentation included.
pub open spec fn command_line(t: &ConfigTree, i: int) -> Seq<char> {
    spaces(indent_of(t, i)).add(join(line_tokens(t, i)))
}

/// The separator line that opens a List entry.
pub open spec fn separator_line(t: &ConfigTree, i: int) -> Seq<char> {
    spaces(indent_of(t, i)).push('!')
}

/// Lines that node `i` itself contributes.
pub open spec fn node_lines(t: &ConfigTree, i: int, with_defaults: bool) -> Seq<Seq<char>> {
    if shown(t, i, with_defaults) {
        if t.kind_of(i) == NodeKind::List {
            seq![separator_line(t, i), command_line(t, i)]
        } else {
            seq![command_line(t, i)]
        }
    } else {
        Seq::empty()
    }
}

/// Lines of the subtree rooted at `i`, in document order.
pub open spec fn subtree_lines(t: &ConfigTree, i: int, with_defaults: bool) -> Seq<Seq<char>>
    decreases t.len() - i, t.children_of(i).len() + 1,
{
    if 0 <= i < t.len() {
        node_lines(t, i, with_defaults).add(children_lines(t, i, 0, with_defaults))
    } else {
        Seq::empty()
    }
}

/// Lines of the subtrees of the children of `i`, from the `k`-th on.
pub open spec fn children_lines(t: &ConfigTree, i: int, k: int, with_defaults: bool) -> Seq<
    Seq<char>,
>
    decreases t.len() - i, t.children_of(i).len() - k,
{
    if 0 <= i < t.len() && 0 <= k < t.children_of(i).len() {
        let c = t.children_of(i)[k] as int;
        if i < c < t.len() {
            subtree_lines(t, c, with_defaults).add(children_lines(t, i, k + 1, with_defaults))
        } else {
            Seq::empty()
        }
    } else {
        Seq::empty()
    }
}

/// All lines of the flattened tree: those below the root, then the end marker.
pub open spec fn config_lines(t: &ConfigTree, with_defaults: bool) -> Seq<Seq<char>> {
    children_lines(t, 0, 0, with_defaults).push(seq!['!'])
}

/// Lines, each ended by a newline.
pub open spec fn text_of(lines: Seq<Seq<char>>) -> Seq<char>
    decreases lines.len(),
{
    if lines.len() == 0 {
        Seq::empty()
    } else {
        text_of(lines.drop_last()).add(lines.last()).push('\n')
    }
}

/// The flattened configuration as text.
pub open spec fn config_text(t: &ConfigTree, with_defaults: bool) -> Seq<char> {
    text_of(config_lines(t, with_defaults))
}

/// The text of two runs of lines is the text of the first, then of the second.
pub proof fn lemma_text_of_add(a: Seq<Seq<char>>, b: Seq<Seq<char>>)
    ensures
        text_of(a.add(b)) == text_of(a).add(text_of(b)),
    decreases b.len(),
{
    if b.len() == 0 {
        assert(a.add(b) =~= a);
        assert(text_of(b) =~= Seq::<char>::empty());
    } else {
        lemma_text_of_add(a, b.drop_last());
        assert(a.add(b).drop_last() =~= a.add(b.drop_last()));
    }
}

/// The text of one line is that line and a newline.
pub proof fn lemma_text_of_one(x: Seq<char>)
    ensures
        text_of(seq![x]) == x.push('\n'),
{
    assert(seq![x].drop_last() =~= Seq::<Seq<char>>::empty());
    assert(text_of(Seq::<Seq<char>>::empty()) == Seq::<char>::empty());
    assert(Seq::<char>::empty().add(x) =~= x);
}


proof fn lemma_subtree_silent(t: &ConfigTree, i: int, d: bool)
    requires
        t.wf(),
        0 < i < t.len(),
        forall|j: int| 0 < j < t.len() ==> !shown(t, j, d),
    ensures
        subtree_lines(t, i, d) == Seq::<Seq<char>>::empty(),
    decreases t.len() - i, t.children_of(i).len() + 1,
{
    lemma_children_silent(t, i, 0, d);
    assert(node_lines(t, i, d) =~= Seq::<Seq<char>>::empty());
    assert(subtree_lines(t, i, d) =~= Seq::<Seq<char>>::empty());
}

proof fn lemma_children_silent(t: &ConfigTree, i: int, k: int, d: bool)
    requires
        t.wf(),
        0 <= i < t.len(),
        0 <= k,
        forall|j: int| 0 < j < t.len() ==> !shown(t, j, d),
    ensures
        children_lines(t, i, k, d) == Seq::<Seq<char>>::empty(),
    decreases t.len() - i, t.children_of(i).len() - k,
{
    if k < t.children_of(i).len() {
        let c = t.children_of(i)[k] as int;
        lemma_subtree_silent(t, c, d);
        lemma_children_silent(t, i, k + 1, d);
        assert(children_lines(t, i, k, d) =~= Seq::<Seq<char>>::empty());
    }
}

/// Where no node below the root is rendered, the flattened text is the end
/// marker alone: the single line "!".
pub proof fn lemma_empty_tree_text(t: &ConfigTree, with_defaults: bool)
    requires
        t.wf(),
        forall|j: int| 0 < j < t.len() ==> !shown(t, j, with_defaults),
    ensures
        config_text(t, with_defaults) == seq!['!', '\n'],
{
    lemma_children_silent(t, 0, 0, with_defaults);
    assert(config_lines(t, with_defaults) =~= seq![seq!['!']]);
    lemma_text_of_one(seq!['!']);
    assert(seq!['!'].push('\n') =~= seq!['!', '\n']);
}

/// A Leaf holding a default value is rendered exactly when defaults are
/// included, and its line is the same either way.
pub proof fn lemma_default_leaf(t: &ConfigTree, i: int)
    requires
        t.wf(),
        0 < i < t.len(),
        t.kind_of(i) == NodeKind::Leaf,
        t.default_of(i),
    ensures
        node_lines(t, i, false) == Seq::<Seq<char>>::empty(),
        node_lines(t, i, true) == seq![command_line(t, i)],
        t.value_of(i) is Some ==> line_tokens(t, i).last() == t.value_of(i)->0,
{
    let toks = node_tokens(t, i);
    assert(line_tokens(t, i).last() == toks.last());
}

/// Each rendered List entry opens with a separator line, "!" after the
/// entry's indentation, immediately followed by the entry's own command line
/// at the same indentation.
pub proof fn lemma_list_entry_lines(t: &ConfigTree, i: int, with_defaults: bool)
    requires
        t.wf(),
        0 < i < t.len(),
        t.kind_of(i) == NodeKind::List,
        shown(t, i, with_defaults),
    ensures
        subtree_lines(t, i, with_defaults).len() >= 2,
        subtree_lines(t, i, with_defaults)[0] == spaces(indent_of(t, i)).push('!'),
        subtree_lines(t, i, with_defaults)[1] == spaces(indent_of(t, i)).add(
            join(line_tokens(t, i)),
        ),
{
}

proof fn lemma_no_keys_from(t: &ConfigTree, i: int, k: int)
    requires
        0 <= k,
        forall|j: int|
            k <= j < t.children_of(i).len() ==> t.kind_of(#[trigger] t.children_of(i)[j] as int)
                != NodeKind::ListKeyLeaf,
    ensures
        keys_from(t, i, k) == Seq::<Seq<char>>::empty(),
    decreases t.children_of(i).len() - k,
{
    if k < t.children_of(i).len() {
        lemma_no_keys_from(t, i, k + 1);
    }
}

/// A List entry whose key children are `a` then `b`, with any other children
/// after them, is named by its list name followed by the value of `a`, then
/// the value of `b`.
pub proof fn lemma_key_order(t: &ConfigTree, i: int, a: int, b: int)
    requires
        t.wf(),
        0 < i < t.len(),
        t.kind_of(i) == NodeKind::List,
        t.children_of(i).len() >= 2,
        t.children_of(i)[0] == a,
        t.children_of(i)[1] == b,
        t.kind_of(a) == NodeKind::ListKeyLeaf,
        t.kind_of(b) == NodeKind::ListKeyLeaf,
        t.value_of(a) is Some,
        t.value_of(b) is Some,
        forall|j: int|
            2 <= j < t.children_of(i).len() ==> t.kind_of(#[trigger] t.children_of(i)[j] as int)
                != NodeKind::ListKeyLeaf,
    ensures
        node_tokens(t, i) == seq![t.name_of(i), t.value_of(a)->0, t.value_of(b)->0],
{
    lemma_no_keys_from(t, i, 2);
    assert(keys_from(t, i, 1) =~= seq![t.value_of(b)->0]);
    assert(keys_from(t, i, 0) =~= seq![t.value_of(a)->0, t.value_of(b)->0]);
    assert(node_tokens(t, i) =~= seq![t.name_of(i), t.value_of(a)->0, t.value_of(b)->0]);
}


proof fn lemma_same_list_ancestors(t1: &ConfigTree, t2: &ConfigTree, p: int)
    requires
        t1.same_as(t2),
    ensures
        list_ancestors(t1, p) == list_ancestors(t2, p),
    decreases p + 1,
{
    if 0 <= p < t1.len() {
        assert(t1.name_of(p) == t2.name_of(p));
        lemma_same_list_ancestors(t1, t2, t1.up(p));
    }
}

proof fn lemma_same_keys_from(t1: &ConfigTree, t2: &ConfigTree, i: int, k: int)
    requires
        t1.wf(),
        t1.same_as(t2),
        0 <= i < t1.len(),
        0 <= k,
    ensures
        keys_from(t1, i, k) == keys_from(t2, i, k),
    decreases t1.children_of(i).len() - k,
{
    assert(t1.name_of(i) == t2.name_of(i));
    if k < t1.children_of(i).len() {
        let c = t1.children_of(i)[k] as int;
        assert(t1.name_of(c) == t2.name_of(c));
        lemma_same_keys_from(t1, t2, i, k + 1);
    }
}

proof fn lemma_same_node_tokens(t1: &ConfigTree, t2: &ConfigTree, i: int)
    requires
        t1.wf(),
        t1.same_as(t2),
        0 <= i < t1.len(),
    ensures
        node_tokens(t1, i) == node_tokens(t2, i),
{
    assert(t1.name_of(i) == t2.name_of(i));
    lemma_same_keys_from(t1, t2, i, 0);
}

proof fn lemma_same_prefix_tokens(t1: &ConfigTree, t2: &ConfigTree, p: int)
    requires
        t1.wf(),
        t1.same_as(t2),
    ensures
        prefix_tokens(t1, p) == prefix_tokens(t2, p),
    decreases p + 1,
{
    if 0 < p < t1.len() {
        assert(t1.name_of(p) == t2.name_of(p));
        if t1.kind_of(p) != NodeKind::List {
            lemma_same_prefix_tokens(t1, t2, t1.up(p));
            lemma_same_node_tokens(t1, t2, p);
        }
    }
}

proof fn lemma_same_node_lines(t1: &ConfigTree, t2: &ConfigTree, i: int, d: bool)
    requires
        t1.wf(),
        t1.same_as(t2),
        0 <= i < t1.len(),
    ensures
        node_lines(t1, i, d) == node_lines(t2, i, d),
{
    assert(t1.name_of(i) == t2.name_of(i));
    lemma_same_list_ancestors(t1, t2, t1.up(i));
    lemma_same_prefix_tokens(t1, t2, t1.up(i));
    lemma_same_node_tokens(t1, t2, i);
}

proof fn lemma_same_subtree(t1: &ConfigTree, t2: &ConfigTree, i: int, d: bool)
    requires
        t1.wf(),
        t1.same_as(t2),
        0 <= i < t1.len(),
    ensures
        subtree_lines(t1, i, d) == subtree_lines(t2, i, d),
    decreases t1.len() - i, t1.children_of(i).len() + 1,
{
    lemma_same_node_lines(t1, t2, i, d);
    lemma_same_children(t1, t2, i, 0, d);
}

proof fn lemma_same_children(t1: &ConfigTree, t2: &ConfigTree, i: int, k: int, d: bool)
    requires
        t1.wf(),
        t1.same_as(t2),
        0 <= i < t1.len(),
        0 <= k,
    ensures
        children_lines(t1, i, k, d) == children_lines(t2, i, k, d),
    decreases t1.len() - i, t1.children_of(i).len() - k,
{
    assert(t1.name_of(i) == t2.name_of(i));
    if k < t1.children_of(i).len() {
        let c = t1.children_of(i)[k] as int;
        lemma_same_subtree(t1, t2, c, d);
        lemma_same_children(t1, t2, i, k + 1, d);
    }
}

/// Flattening reads nothing but the tree's nodes and the flag: flattening a
/// tree twice, or a tree and a copy of it, gives byte-identical text.
pub proof fn lemma_flatten_idempotent(t1: &ConfigTree, t2: &ConfigTree, with_defaults: bool)
    requires
        t1.wf(),
        t1.same_as(t2),
    ensures
        config_text(t1, with_defaults) == config_text(t2, with_defaults),
{
    lemma_same_children(t1, t2, 0, 0, with_defaults);
}

/// Number of times `x` occurs in `lines`.
pub open spec fn count_line(lines: Seq<Seq<char>>, x: Seq<char>) -> nat
    decreases lines.len(),
{
    if lines.len() == 0 {
        0
    } else {
        count_line(lines.drop_last(), x) + if lines.last() == x { 1nat } else { 0nat }
    }
}

proof fn lemma_count_add(a: Seq<Seq<char>>, b: Seq<Seq<char>>, x: Seq<char>)
    ensures
        count_line(a.add(b), x) == count_line(a, x) + count_line(b, x),
    decreases b.len(),
{
    if b.len() == 0 {
        assert(a.add(b) =~= a);
    } else {
        lemma_count_add(a, b.drop_last(), x);
        assert(a.add(b).drop_last() =~= a.add(b.drop_last()));
    }
}

proof fn lemma_count_two(l0: Seq<char>, l1: Seq<char>, x: Seq<char>)
    ensures
        count_line(seq![l0, l1], x) == (if l0 == x { 1nat } else { 0nat }) + (if l1 == x {
            1nat
        } else {
            0nat
        }),
{
    assert(seq![l0, l1].drop_last() =~= seq![l0]);
    assert(seq![l0, l1].last() == l1);
    lemma_count_one(l0, x);
}

proof fn lemma_count_one(l0: Seq<char>, x: Seq<char>)
    ensures
        count_line(seq![l0], x) == (if l0 == x { 1nat } else { 0nat }),
{
    assert(seq![l0].drop_last() =~= Seq::<Seq<char>>::empty());
    assert(count_line(Seq::<Seq<char>>::empty(), x) == 0);
    assert(seq![l0].last() == l0);
}

/// A line indented deeper than `k` is not the separator at indentation `k`.
proof fn lemma_deeper_not_separator(n: nat, k: nat, rest: Seq<char>)
    requires
        n > k,
    ensures
        spaces(n).add(rest) != spaces(k).push('!'),
{
    assert(spaces(n).add(rest)[k as int] == ' ');
    assert(spaces(k).push('!')[k as int] == '!');
}

proof fn lemma_deep_subtree(t: &ConfigTree, d: int, k: nat, with_defaults: bool)
    requires
        t.wf(),
        0 < d < t.len(),
        list_ancestors(t, t.up(d)) > k,
    ensures
        count_line(subtree_lines(t, d, with_defaults), spaces(k).push('!')) == 0,
    decreases t.len() - d, t.children_of(d).len() + 1,
{
    let sep = spaces(k).push('!');
    let n = indent_of(t, d);
    lemma_deeper_not_separator(n, k, join(line_tokens(t, d)));
    lemma_deeper_not_separator(n, k, seq!['!']);
    assert(spaces(n).add(seq!['!']) =~= separator_line(t, d));
    lemma_count_one(command_line(t, d), sep);
    lemma_count_two(separator_line(t, d), command_line(t, d), sep);
    assert(count_line(node_lines(t, d, with_defaults), sep) == 0) by {
        if !shown(t, d, with_defaults) {
            assert(node_lines(t, d, with_defaults) =~= Seq::<Seq<char>>::empty());
        }
    }
    lemma_deep_children(t, d, 0, k, with_defaults);
    lemma_count_add(node_lines(t, d, with_defaults), children_lines(t, d, 0, with_defaults), sep);
}

proof fn lemma_deep_children(t: &ConfigTree, d: int, j: int, k: nat, with_defaults: bool)
    requires
        t.wf(),
        0 < d < t.len(),
        0 <= j,
        list_ancestors(t, d) > k,
    ensures
        count_line(children_lines(t, d, j, with_defaults), spaces(k).push('!')) == 0,
    decreases t.len() - d, t.children_of(d).len() - j,
{
    let sep = spaces(k).push('!');
    if j < t.children_of(d).len() {
        let c = t.children_of(d)[j] as int;
        assert(t.up(c) == d);
        lemma_deep_subtree(t, c, k, with_defaults);
        lemma_deep_children(t, d, j + 1, k, with_defaults);
        lemma_count_add(
            subtree_lines(t, c, with_defaults),
            children_lines(t, d, j + 1, with_defaults),
            sep,
        );
    } else {
        assert(children_lines(t, d, j, with_defaults) =~= Seq::<Seq<char>>::empty());
    }
}

proof fn lemma_entries_from(t: &ConfigTree, p: int, j: int, with_defaults: bool)
    requires
        t.wf(),
        0 <= p < t.len(),
        0 <= j <= t.children_of(p).len(),
        forall|i: int|
            0 <= i < t.children_of(p).len() ==> {
                let c = #[trigger] t.children_of(p)[i] as int;
                &&& t.kind_of(c) == NodeKind::List
                &&& shown(t, c, with_defaults)
                &&& join(line_tokens(t, c)) != seq!['!']
            },
    ensures
        count_line(children_lines(t, p, j, with_defaults), spaces(list_ancestors(t, p)).push('!'))
            == t.children_of(p).len() - j,
    decreases t.children_of(p).len() - j,
{
    let k = list_ancestors(t, p);
    let sep = spaces(k).push('!');
    if j < t.children_of(p).len() {
        let c = t.children_of(p)[j] as int;
        assert(t.up(c) == p);
        lemma_entries_from(t, p, j + 1, with_defaults);
        assert(command_line(t, c) != sep) by {
            if command_line(t, c) == sep {
                let line = command_line(t, c);
                assert(line.subrange(k as int, line.len() as int) =~= join(line_tokens(t, c)));
                assert(sep.subrange(k as int, sep.len() as int) =~= seq!['!']);
            }
        }
        lemma_count_two(separator_line(t, c), command_line(t, c), sep);
        lemma_deep_children(t, c, 0, k, with_defaults);
        lemma_count_add(node_lines(t, c, with_defaults), children_lines(t, c, 0, with_defaults), sep);
        lemma_count_add(
            subtree_lines(t, c, with_defaults),
            children_lines(t, p, j + 1, with_defaults),
            sep,
        );
    } else {
        assert(children_lines(t, p, j, with_defaults) =~= Seq::<Seq<char>>::empty());
    }
}

/// A kept List entry contributes exactly one separator at its own
/// indentation, whatever else lies beside it or below it: its own, first,
/// followed at once by its command line. (An entry whose own line would read
/// "!" is left out: it could not be told from a separator.)
pub proof fn lemma_entry_separator(t: &ConfigTree, c: int, with_defaults: bool)
    requires
        t.wf(),
        0 < c < t.len(),
        t.kind_of(c) == NodeKind::List,
        shown(t, c, with_defaults),
        join(line_tokens(t, c)) != seq!['!'],
    ensures
        count_line(subtree_lines(t, c, with_defaults), spaces(indent_of(t, c)).push('!')) == 1,
        subtree_lines(t, c, with_defaults)[0] == spaces(indent_of(t, c)).push('!'),
        subtree_lines(t, c, with_defaults)[1] == command_line(t, c),
{
    let k = indent_of(t, c);
    let sep = spaces(k).push('!');
    assert(command_line(t, c) != sep) by {
        if command_line(t, c) == sep {
            let line = command_line(t, c);
            assert(line.subrange(k as int, line.len() as int) =~= join(line_tokens(t, c)));
            assert(sep.subrange(k as int, sep.len() as int) =~= seq!['!']);
        }
    }
    lemma_count_two(separator_line(t, c), command_line(t, c), sep);
    lemma_deep_children(t, c, 0, k, with_defaults);
    lemma_count_add(node_lines(t, c, with_defaults), children_lines(t, c, 0, with_defaults), sep);
}

/// Sibling List entries under one parent, each rendered: the parent's child
/// lines hold exactly one separator at the entries' indentation per entry.
/// (An entry whose own line would read "!" is left out: it could not be told
/// from a separator.)
pub proof fn lemma_list_separators(t: &ConfigTree, p: int, with_defaults: bool)
    requires
        t.wf(),
        0 <= p < t.len(),
        forall|i: int|
            0 <= i < t.children_of(p).len() ==> {
                let c = #[trigger] t.children_of(p)[i] as int;
                &&& t.kind_of(c) == NodeKind::List
                &&& shown(t, c, with_defaults)
                &&& join(line_tokens(t, c)) != seq!['!']
            },
    ensures
        forall|i: int|
            0 <= i < t.children_of(p).len() ==> indent_of(t, #[trigger] t.children_of(p)[i] as int)
                == list_ancestors(t, p),
        count_line(children_lines(t, p, 0, with_defaults), spaces(list_ancestors(t, p)).push('!'))
            == t.children_of(p).len(),
{
    lemma_entries_from(t, p, 0, with_defaults);
    assert forall|i: int| 0 <= i < t.children_of(p).len() implies indent_of(
        t,
        #[trigger] t.children_of(p)[i] as int,
    ) == list_ancestors(t, p) by {
        assert(t.up(t.children_of(p)[i] as int) == p);
    }
}

/// Nodes of the subtree rooted at `i`, in document order.
pub open spec fn doc_nodes(t: &ConfigTree, i: int) -> Seq<int>
    decreases t.len() - i, t.children_of(i).len() + 1,
{
    if 0 <= i < t.len() {
        seq![i].add(doc_nodes_children(t, i, 0))
    } else {
        Seq::empty()
    }
}

/// Nodes of the subtrees of the children of `i`, from the `k`-th on.
pub open spec fn doc_nodes_children(t: &ConfigTree, i: int, k: int) -> Seq<int>
    decreases t.len() - i, t.children_of(i).len() - k,
{
    if 0 <= i < t.len() && 0 <= k < t.children_of(i).len() {
        let c = t.children_of(i)[k] as int;
        if i < c < t.len() {
            doc_nodes(t, c).add(doc_nodes_children(t, i, k + 1))
        } else {
            Seq::empty()
        }
    } else {
        Seq::empty()
    }
}

/// The lines of the given nodes, one node after the other.
pub open spec fn lines_of_nodes(t: &ConfigTree, ns: Seq<int>, with_defaults: bool) -> Seq<
    Seq<char>,
>
    decreases ns.len(),
{
    if ns.len() == 0 {
        Seq::empty()
    } else {
        lines_of_nodes(t, ns.drop_last(), with_defaults).add(
            node_lines(t, ns.last(), with_defaults),
        )
    }
}

proof fn lemma_lines_of_nodes_add(t: &ConfigTree, a: Seq<int>, b: Seq<int>, d: bool)
    ensures
        lines_of_nodes(t, a.add(b), d) == lines_of_nodes(t, a, d).add(lines_of_nodes(t, b, d)),
    decreases b.len(),
{
    if b.len() == 0 {
        assert(a.add(b) =~= a);
        assert(lines_of_nodes(t, a, d).add(Seq::<Seq<char>>::empty()) =~= lines_of_nodes(t, a, d));
    } else {
        lemma_lines_of_nodes_add(t, a, b.drop_last(), d);
        assert(a.add(b).drop_last() =~= a.add(b.drop_last()));
        assert(a.add(b).last() == b.last());
        assert(lines_of_nodes(t, a, d).add(lines_of_nodes(t, b.drop_last(), d)).add(
            node_lines(t, b.last(), d),
        ) =~= lines_of_nodes(t, a, d).add(lines_of_nodes(t, b, d)));
    }
}

proof fn lemma_subtree_doc(t: &ConfigTree, i: int, d: bool)
    requires
        t.wf(),
        0 <= i < t.len(),
    ensures
        subtree_lines(t, i, d) == lines_of_nodes(t, doc_nodes(t, i), d),
    decreases t.len() - i, t.children_of(i).len() + 1,
{
    lemma_children_doc(t, i, 0, d);
    lemma_lines_of_nodes_add(t, seq![i], doc_nodes_children(t, i, 0), d);
    assert(seq![i].drop_last() =~= Seq::<int>::empty());
    assert(seq![i].last() == i);
    assert(lines_of_nodes(t, Seq::<int>::empty(), d) == Seq::<Seq<char>>::empty());
    assert(Seq::<Seq<char>>::empty().add(node_lines(t, i, d)) =~= node_lines(t, i, d));
    assert(lines_of_nodes(t, seq![i], d) =~= node_lines(t, i, d));
}

proof fn lemma_children_doc(t: &ConfigTree, i: int, k: int, d: bool)
    requires
        t.wf(),
        0 <= i < t.len(),
        0 <= k,
    ensures
        children_lines(t, i, k, d) == lines_of_nodes(t, doc_nodes_children(t, i, k), d),
    decreases t.len() - i, t.children_of(i).len() - k,
{
    if k < t.children_of(i).len() {
        let c = t.children_of(i)[k] as int;
        lemma_subtree_doc(t, c, d);
        lemma_children_doc(t, i, k + 1, d);
        lemma_lines_of_nodes_add(t, doc_nodes(t, c), doc_nodes_children(t, i, k + 1), d);
    } else {
        assert(lines_of_nodes(t, Seq::<int>::empty(), d) =~= Seq::<Seq<char>>::empty());
    }
}

/// Defaults only remove lines. Both texts are the lines of the same nodes in
/// the same document order, then the end marker; without defaults, a node
/// holding a default value contributes no line, and every other node
/// contributes exactly the lines it has with defaults.
pub proof fn lemma_defaults_filter(t: &ConfigTree)
    requires
        t.wf(),
    ensures
        config_lines(t, true) == lines_of_nodes(t, doc_nodes_children(t, 0, 0), true).push(
            seq!['!'],
        ),
        config_lines(t, false) == lines_of_nodes(t, doc_nodes_children(t, 0, 0), false).push(
            seq!['!'],
        ),
        forall|n: int|
            #![trigger node_lines(t, n, false)]
            0 < n < t.len() ==> node_lines(t, n, false) == if t.default_of(n) {
                Seq::<Seq<char>>::empty()
            } else {
                node_lines(t, n, true)
            },
{
    lemma_children_doc(t, 0, 0, true);
    lemma_children_doc(t, 0, 0, false);
}

/// The character sequences of a run of strings.
pub open spec fn views(v: Seq<String>) -> Seq<Seq<char>> {
    v.map_values(|s: String| s@)
}

fn push_view(v: &mut Vec<String>, s: String)
    ensures
        views(final(v)@) == views(old(v)@).push(s@),
{
    v.push(s);
    assert(views(v@) =~= views(old(v)@).push(s@));
}

fn count_list_ancestors(t: &ConfigTree, p: Option<usize>) -> (r: usize)
    requires
        t.wf(),
        p is Some ==> (p->0 as int) < t.len(),
    ensures
        r as nat == list_ancestors(t, if p is Some { p->0 as int } else { -1 }),
    decreases if p is Some { p->0 as int + 1 } else { 0 },
{
    match p {
        None => 0,
        Some(0) => 0,
        Some(q) => {
            let above = t.nodes[q].parent;
            let n = count_list_ancestors(t, above);
            assert(t.up(q as int) == if above is Some { above->0 as int } else { -1 });
            let total = t.nodes.len();
            proof {
                lemma_list_ancestors_bound(t, t.up(q as int));
            }
            assert(n <= q && q < total);
            if t.nodes[q].kind == NodeKind::List {
                n + 1
            } else {
                n
            }
        },
    }
}

proof fn lemma_list_ancestors_bound(t: &ConfigTree, p: int)
    ensures
        list_ancestors(t, p) <= if p < 0 { 0 } else { p + 1 },
    decreases p + 1,
{
    if 0 <= p < t.len() {
        lemma_list_ancestors_bound(t, t.up(p));
    }
}

fn push_node_tokens(t: &ConfigTree, i: usize, tokens: &mut Vec<String>)
    requires
        t.wf(),
        i < t.nodes@.len(),
    ensures
        views(final(tokens)@) == views(old(tokens)@).add(node_tokens(t, i as int)),
{
    let ghost start = views(tokens@);
    push_view(tokens, t.nodes[i].name.clone());
    if t.nodes[i].kind == NodeKind::List {
        let n = t.nodes[i].children.len();
        let mut k: usize = 0;
        while k < n
            invariant
                t.wf(),
                i < t.nodes@.len(),
                n == t.children_of(i as int).len(),
                k <= n,
                views(tokens@).add(keys_from(t, i as int, k as int)) == start.push(
                    t.name_of(i as int),
                ).add(keys_from(t, i as int, 0)),
            decreases n - k,
        {
            let c = t.nodes[i].children[k];
            assert(t.children_of(i as int)[k as int] == c);
            let ghost before = views(tokens@);
            if t.nodes[c].kind == NodeKind::ListKeyLeaf {
                match &t.nodes[c].value {
                    Some(v) => {
                        push_view(tokens, v.clone());
                        assert(seq![v@].add(keys_from(t, i as int, k + 1)) == keys_from(
                            t,
                            i as int,
                            k as int,
                        ));
                        assert(before.push(v@).add(keys_from(t, i as int, k + 1)) =~= before.add(
                            keys_from(t, i as int, k as int),
                        ));
                    },
                    None => {},
                }
            }
            k = k + 1;
        }
        assert(keys_from(t, i as int, n as int) =~= Seq::<Seq<char>>::empty());
        assert(views(tokens@) =~= views(tokens@).add(keys_from(t, i as int, n as int)));
        assert(start.add(node_tokens(t, i as int)) =~= start.push(t.name_of(i as int)).add(
            keys_from(t, i as int, 0),
        ));
    } else {
        match &t.nodes[i].value {
            Some(v) => {
                push_view(tokens, v.clone());
            },
            None => {},
        }
        assert(start.add(node_tokens(t, i as int)) =~= views(tokens@));
    }
}

fn push_prefix_tokens(t: &ConfigTree, p: Option<usize>, tokens: &mut Vec<String>)
    requires
        t.wf(),
        p is Some ==> (p->0 as int) < t.len(),
    ensures
        views(final(tokens)@) == views(old(tokens)@).add(
            prefix_tokens(t, if p is Some { p->0 as int } else { -1 }),
        ),
    decreases if p is Some { p->0 as int + 1 } else { 0 },
{
    match p {
        None => {
            assert(views(tokens@) =~= views(tokens@).add(Seq::<Seq<char>>::empty()));
        },
        Some(q) => {
            if q == 0 || t.nodes[q].kind == NodeKind::List {
                assert(views(tokens@) =~= views(tokens@).add(Seq::<Seq<char>>::empty()));
            } else {
                let ghost start = views(tokens@);
                push_prefix_tokens(t, t.nodes[q].parent, tokens);
                push_node_tokens(t, q, tokens);
                assert(start.add(prefix_tokens(t, t.up(q as int))).add(node_tokens(t, q as int))
                    =~= start.add(prefix_tokens(t, q as int)));
            }
        },
    }
}

fn append_spaces(out: &mut String, n: usize)
    ensures
        final(out)@ == old(out)@.add(spaces(n as nat)),
{
    let mut k: usize = 0;
    while k < n
        invariant
            k <= n,
            out@ == old(out)@.add(spaces(k as nat)),
        decreases n - k,
    {
        out.append(" ");
        proof {
            reveal_strlit(" ");
        }
        assert(old(out)@.add(spaces(k as nat)).add(" "@) =~= old(out)@.add(spaces((k + 1) as nat)));
        k = k + 1;
    }
}

fn append_joined(out: &mut String, tokens: &Vec<String>)
    ensures
        final(out)@ == old(out)@.add(join(views(tokens@))),
{
    let n = tokens.len();
    let mut k: usize = 0;
    while k < n
        invariant
            n == tokens@.len(),
            k <= n,
            out@ == old(out)@.add(join(views(tokens@).take(k as int))),
        decreases n - k,
    {
        let ghost prev = views(tokens@).take(k as int);
        let ghost next = views(tokens@).take(k + 1);
        assert(next.drop_last() =~= prev);
        if k > 0 {
            out.append(" ");
            proof {
                reveal_strlit(" ");
            }
        }
        out.append(tokens[k].as_str());
        assert(next.last() == tokens@[k as int]@);
        if k == 0 {
            assert(join(next) == next[0]);
        }
        assert(out@ =~= old(out)@.add(join(next)));
        k = k + 1;
    }
    assert(views(tokens@).take(n as int) =~= views(tokens@));
}

fn append_newline(out: &mut String)
    ensures
        final(out)@ == old(out)@.push('\n'),
{
    out.append("\n");
    proof {
        reveal_strlit("\n");
    }
    assert(out@ =~= old(out)@.push('\n'));
}

/// Appends the lines of node `i` itself.
fn emit_node(t: &ConfigTree, i: usize, with_defaults: bool, out: &mut String)
    requires
        t.wf(),
        0 < i < t.nodes@.len(),
    ensures
        final(out)@ == old(out)@.add(text_of(node_lines(t, i as int, with_defaults))),
{
    let kind = t.nodes[i].kind;
    let rendered = match kind {
        NodeKind::Container | NodeKind::Leaf | NodeKind::LeafList | NodeKind::List => true,
        _ => false,
    };
    if !rendered || (!with_defaults && t.nodes[i].is_default) {
        assert(text_of(node_lines(t, i as int, with_defaults)) =~= Seq::<char>::empty());
        assert(out@ =~= old(out)@.add(Seq::<char>::empty()));
        return;
    }
    let indent = count_list_ancestors(t, t.nodes[i].parent);
    assert(indent as nat == indent_of(t, i as int));
    proof {
        lemma_text_of_one(separator_line(t, i as int));
        lemma_text_of_one(command_line(t, i as int));
    }
    let mut tokens: Vec<String> = Vec::new();
    push_prefix_tokens(t, t.nodes[i].parent, &mut tokens);
    push_node_tokens(t, i, &mut tokens);
    assert(views(tokens@) =~= line_tokens(t, i as int));
    let ghost start = out@;
    if kind == NodeKind::List {
        append_spaces(out, indent);
        out.append("!");
        proof {
            reveal_strlit("!");
        }
        append_newline(out);
        assert(out@ =~= start.add(text_of(seq![separator_line(t, i as int)])));
    }
    let ghost mid = out@;
    append_spaces(out, indent);
    append_joined(out, &tokens);
    append_newline(out);
    assert(out@ =~= mid.add(text_of(seq![command_line(t, i as int)])));
    if kind == NodeKind::List {
        proof {
            lemma_text_of_add(seq![separator_line(t, i as int)], seq![command_line(t, i as int)]);
        }
        assert(seq![separator_line(t, i as int)].add(seq![command_line(t, i as int)]) =~= node_lines(
            t,
            i as int,
            with_defaults,
        ));
    } else {
        assert(seq![command_line(t, i as int)] =~= node_lines(t, i as int, with_defaults));
    }
}

fn emit_subtree(t: &ConfigTree, i: usize, with_defaults: bool, out: &mut String)
    requires
        t.wf(),
        0 < i < t.nodes@.len(),
    ensures
        final(out)@ == old(out)@.add(text_of(subtree_lines(t, i as int, with_defaults))),
    decreases t.len() - i, t.children_of(i as int).len() + 1,
{
    emit_node(t, i, with_defaults, out);
    emit_children(t, i, 0, with_defaults, out);
    proof {
        lemma_text_of_add(
            node_lines(t, i as int, with_defaults),
            children_lines(t, i as int, 0, with_defaults),
        );
    }
    assert(out@ =~= old(out)@.add(text_of(subtree_lines(t, i as int, with_defaults))));
}

fn emit_children(t: &ConfigTree, i: usize, k: usize, with_defaults: bool, out: &mut String)
    requires
        t.wf(),
        i < t.nodes@.len(),
        k <= t.children_of(i as int).len(),
    ensures
        final(out)@ == old(out)@.add(text_of(children_lines(t, i as int, k as int, with_defaults))),
    decreases t.len() - i, t.children_of(i as int).len() - k,
{
    if k == t.nodes[i].children.len() {
        assert(text_of(children_lines(t, i as int, k as int, with_defaults)) =~= Seq::<char>::empty());
        assert(out@ =~= old(out)@.add(Seq::<char>::empty()));
        return;
    }
    let c = t.nodes[i].children[k];
    assert(t.children_of(i as int)[k as int] == c);
    emit_subtree(t, c, with_defaults, out);
    emit_children(t, i, k + 1, with_defaults, out);
    proof {
        lemma_text_of_add(
            subtree_lines(t, c as int, with_defaults),
            children_lines(t, i as int, k + 1, with_defaults),
        );
    }
    assert(out@ =~= old(out)@.add(text_of(children_lines(t, i as int, k as int, with_defaults))));
}

/// Renders the configuration as command lines: in document order, one line
/// per rendered node, a `!` line before each List entry, and a final `!`.
pub fn cmd_show_config_cmds(config: &ConfigTree, with_defaults: bool) -> (r: String)
    requires
        config.wf(),
    ensures
        r@ == config_text(config, with_defaults),
{
    let mut output = String::new();
    emit_children(config, 0, 0, with_defaults, &mut output);
    output.append("!");
    proof {
        reveal_strlit("!");
    }
    append_newline(&mut output);
    let ghost body = children_lines(config, 0, 0, with_defaults);
    assert(config_lines(config, with_defaults).drop_last() =~= body);
    assert(output@ =~= config_text(config, with_defaults));
    output
}

} // verus!
