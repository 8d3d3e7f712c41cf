//! Command-token trie and the listing of the commands reachable from a root.
use vstd::prelude::*;
use crate::flatten::views;

verus! {

/// Kind of a command token.
#[derive(Clone, Copy, Debug, PartialEq, Eq, Structural)]
pub enum TokenKind {
    /// A placeholder that the operator replaces with a value.
    Word,
    /// A literal that the operator types as it stands.
    Keyword,
    /// A token that only gives structure to the trie.
    Other,
}

/// One token of the command trie.
pub struct Token {
    pub name: String,
    pub kind: TokenKind,
    /// Whether the path that ends here is a complete command.
    pub has_action: bool,
    pub parent: Option<usize>,
    /// Children in the order in which they were registered.
    pub children: Vec<usize>,
}

/// The command trie, with the roots of the command sets of each mode.
pub struct Commands {
    pub tokens: Vec<Token>,
    pub exec_root: usize,
    pub config_dflt_internal: usize,
    pub config_root_internal: usize,
    pub config_root_yang: usize,
}

/// What `str::to_uppercase` returns.
pub uninterp spec fn upper_of(s: Seq<char>) -> Seq<char>;

/// Relies on `str::to_uppercase`: the upper-case form of a string, a function
/// of its characters alone.
#[verifier::external_body]
fn to_upper(s: &str) -> (r: String)
    ensures
        r@ == upper_of(s@),
{
    s.to_uppercase()
}

/// How a token reads in a listed command, given its name and the upper-case
/// form of its name: keywords upper-cased, every other token as it is.
pub fn token_text(kind: TokenKind, name: &str, upper: &str) -> (r: String)
    ensures
        r@ == if kind == TokenKind::Keyword { upper@ } else { name@ },
{
    match kind {
        TokenKind::Keyword => upper.to_owned(),
        _ => name.to_owned(),
    }
}

impl Commands {
    pub open spec fn len(&self) -> int {
        self.tokens@.len() as int
    }

    pub open spec fn children_of(&self, i: int) -> Seq<usize> {
        self.tokens@[i].children@
    }

    pub open spec fn is_root(&self, r: usize) -> bool {
        r < self.tokens@.len()
    }

    /// `rank` gives every token a number above those of its children: the
    /// links hold no cycle, whatever order the indexes were assigned in.
    pub open spec fn ranked_by(&self, rank: Seq<nat>) -> bool {
        &&& rank.len() == self.len()
        &&& forall|i: int, k: int|
            0 <= i < self.len() && 0 <= k < self.children_of(i).len() ==> rank[
                #[trigger] self.children_of(i)[k] as int
            ] < rank[i]
    }

    /// A ranking of the tokens, where one exists.
    pub open spec fn rank(&self) -> Seq<nat> {
        choose|rank: Seq<nat>| self.ranked_by(rank)
    }

    pub open spec fn wf(&self) -> bool {
        &&& self.is_root(self.exec_root)
        &&& self.is_root(self.config_dflt_internal)
        &&& self.is_root(self.config_root_internal)
        &&& self.is_root(self.config_root_yang)
        &&& forall|i: int, k: int|
            0 <= i < self.len() && 0 <= k < self.children_of(i).len() ==> {
                let c = #[trigger] self.children_of(i)[k] as int;
                &&& 0 <= c < self.len()
                &&& self.tokens@[c].parent == Some(i as usize)
            }
        &&& exists|rank: Seq<nat>| self.ranked_by(rank)
    }

    /// A trie that holds the four roots and nothing else.
    pub fn new() -> (r: Commands)
        ensures
            r.wf(),
            r.len() == 4,
            forall|i: int| 0 <= i < 4 ==> (#[trigger] r.children_of(i)).len() == 0,
    {
        let mut tokens: Vec<Token> = Vec::new();
        let mut k: usize = 0;
        while k < 4
            invariant
                k <= 4,
                tokens@.len() == k,
                forall|i: int| 0 <= i < k ==> (#[trigger] tokens@[i]).children@.len() == 0,
            decreases 4 - k,
        {
            tokens.push(
                Token {
                    name: String::new(),
                    kind: TokenKind::Other,
                    has_action: false,
                    parent: None,
                    children: Vec::new(),
                },
            );
            k = k + 1;
        }
        let r = Commands {
            tokens,
            exec_root: 0,
            config_dflt_internal: 1,
            config_root_internal: 2,
            config_root_yang: 3,
        };
        assert(r.ranked_by(seq![0nat, 0nat, 0nat, 0nat]));
        r
    }

    /// Tests that the trie is well formed with every child registered after
    /// its parent, the order in which `add_token` builds it.
    pub fn check_ordered(&self) -> (r: bool)
        ensures
            r ==> self.wf(),
    {
        let n = self.tokens.len();
        if self.exec_root >= n || self.config_dflt_internal >= n || self.config_root_internal >= n
            || self.config_root_yang >= n {
            return false;
        }
        let mut i: usize = 0;
        while i < n
            invariant
                n == self.tokens@.len(),
                i <= n,
                forall|j: int, k: int|
                    0 <= j < i && 0 <= k < self.children_of(j).len() ==> {
                        let c = #[trigger] self.children_of(j)[k] as int;
                        &&& j < c < self.len()
                        &&& self.tokens@[c].parent == Some(j as usize)
                    },
            decreases n - i,
        {
            let m = self.tokens[i].children.len();
            let mut k: usize = 0;
            while k < m
                invariant
                    n == self.tokens@.len(),
                    i < n,
                    m == self.children_of(i as int).len(),
                    k <= m,
                    forall|kk: int|
                        0 <= kk < k ==> {
                            let c = #[trigger] self.children_of(i as int)[kk] as int;
                            &&& i < c < self.len()
                            &&& self.tokens@[c].parent == Some(i)
                        },
                decreases m - k,
            {
                let c = self.tokens[i].children[k];
                assert(self.children_of(i as int)[k as int] == c);
                if c <= i || c >= n {
                    return false;
                }
                match self.tokens[c].parent {
                    Some(p) => {
                        if p != i {
                            return false;
                        }
                    },
                    None => {
                        return false;
                    },
                }
                k = k + 1;
            }
            i = i + 1;
        }
        let ghost rank = Seq::new(n as nat, |j: int| (n - j) as nat);
        assert(self.ranked_by(rank));
        true
    }

    /// Registers a token as the last child of `parent` and returns its index.
    pub fn add_token(&mut self, parent: usize, name: String, kind: TokenKind, has_action: bool) -> (id:
        usize)
        requires
            old(self).wf(),
            parent < old(self).tokens@.len(),
            old(self).tokens@.len() < usize::MAX,
        ensures
            final(self).wf(),
            id as int == old(self).len(),
            final(self).len() == old(self).len() + 1,
            final(self).tokens@[id as int].name@ == name@,
            final(self).tokens@[id as int].kind == kind,
            final(self).tokens@[id as int].has_action == has_action,
            final(self).tokens@[id as int].parent == Some(parent),
            final(self).children_of(id as int).len() == 0,
            final(self).children_of(parent as int) == old(self).children_of(parent as int).push(id),
            forall|j: int|
                0 <= j < old(self).len() && j != parent ==> #[trigger] final(self).tokens@[j] == old(
                    self,
                ).tokens@[j],
            final(self).tokens@[parent as int].name == old(self).tokens@[parent as int].name,
            final(self).tokens@[parent as int].kind == old(self).tokens@[parent as int].kind,
            final(self).tokens@[parent as int].has_action == old(
                self,
            ).tokens@[parent as int].has_action,
            final(self).exec_root == old(self).exec_root,
            final(self).config_dflt_internal == old(self).config_dflt_internal,
            final(self).config_root_internal == old(self).config_root_internal,
            final(self).config_root_yang == old(self).config_root_yang,
    {
        let id = self.tokens.len();
        let token = Token { name, kind, has_action, parent: Some(parent), children: Vec::new() };
        let mut slot = Token {
            name: String::new(),
            kind: TokenKind::Other,
            has_action: false,
            parent: None,
            children: Vec::new(),
        };
        self.tokens.set_and_swap(parent, &mut slot);
        slot.children.push(id);
        self.tokens.set_and_swap(parent, &mut slot);
        self.tokens.push(token);
        proof {
            let s = *self;
            let before = old(self).rank();
            assert(old(self).ranked_by(before));
            let after = Seq::new(s.len() as nat, |j: int| if j < id { before[j] + 1 } else { 0nat });
            assert forall|i: int, k: int|
                0 <= i < s.len() && 0 <= k < s.children_of(i).len() implies {
                let c = #[trigger] s.children_of(i)[k] as int;
                &&& 0 <= c < s.len()
                &&& s.tokens@[c].parent == Some(i as usize)
                &&& after[c] < after[i]
            } by {
                if i == parent as int && k == s.children_of(i).len() - 1 {
                } else {
                    assert(old(self).children_of(i)[k] == s.children_of(i)[k]);
                }
            }
            assert(s.ranked_by(after));
        }
        id
    }
}

/// How token `i` reads in a listed command.
pub open spec fn rendered(t: &Commands, i: int) -> Seq<char> {
    let tok = t.tokens@[i];
    if tok.kind == TokenKind::Keyword {
        upper_of(tok.name@)
    } else {
        tok.name@
    }
}

/// Commands of the subtree rooted at `i`, where `prefix` is the text of the
/// tokens on the way to it: each is the rendered path with a space after each
/// token.
pub open spec fn command_lines(t: &Commands, i: int, prefix: Seq<char>) -> Seq<Seq<char>>
    decreases t.rank()[i], t.children_of(i).len() + 1,
{
    if 0 <= i < t.len() {
        let here = prefix.add(rendered(t, i)).push(' ');
        let own = if t.tokens@[i].has_action { seq![here] } else { Seq::empty() };
        own.add(child_command_lines(t, i, 0, here))
    } else {
        Seq::empty()
    }
}

/// Commands of the subtrees of the children of `i`, from the `k`-th on.
pub open spec fn child_command_lines(t: &Commands, i: int, k: int, prefix: Seq<char>) -> Seq<
    Seq<char>,
>
    decreases t.rank()[i], t.children_of(i).len() - k,
{
    if 0 <= i < t.len() && 0 <= k < t.children_of(i).len() {
        let c = t.children_of(i)[k] as int;
        if 0 <= c < t.len() && t.rank()[c] < t.rank()[i] {
            command_lines(t, c, prefix).add(child_command_lines(t, i, k + 1, prefix))
        } else {
            Seq::empty()
        }
    } else {
        Seq::empty()
    }
}

/// The commands below `root`, root excluded, in registration order.
pub open spec fn root_command_lines(t: &Commands, root: int) -> Seq<Seq<char>> {
    child_command_lines(t, root, 0, Seq::empty())
}


/// Listing follows registration order, not the alphabet: below a root whose
/// children are `x` then `y`, both complete commands with nothing below them,
/// the listing is exactly the line of `x`, then the line of `y`.
pub proof fn lemma_listing_order(t: &Commands, root: int, x: usize, y: usize)
    requires
        t.wf(),
        0 <= root < t.len(),
        t.children_of(root) == seq![x, y],
        t.tokens@[x as int].has_action,
        t.tokens@[y as int].has_action,
        t.children_of(x as int).len() == 0,
        t.children_of(y as int).len() == 0,
    ensures
        root_command_lines(t, root) == seq![
            rendered(t, x as int).push(' '),
            rendered(t, y as int).push(' '),
        ],
{
    let e = Seq::<char>::empty();
    let (x, y) = (x as int, y as int);
    assert(t.children_of(root)[0] == x);
    assert(t.children_of(root)[1] == y);
    assert(e.add(rendered(t, x)) =~= rendered(t, x));
    assert(e.add(rendered(t, y)) =~= rendered(t, y));
    assert(child_command_lines(t, x, 0, rendered(t, x).push(' ')) =~= Seq::<Seq<char>>::empty());
    assert(child_command_lines(t, y, 0, rendered(t, y).push(' ')) =~= Seq::<Seq<char>>::empty());
    assert(command_lines(t, x, e) =~= seq![rendered(t, x).push(' ')]);
    assert(command_lines(t, y, e) =~= seq![rendered(t, y).push(' ')]);
    assert(child_command_lines(t, root, 2, e) =~= Seq::<Seq<char>>::empty());
    assert(child_command_lines(t, root, 1, e) =~= seq![rendered(t, y).push(' ')]);
    assert(root_command_lines(t, root) =~= seq![
        rendered(t, x).push(' '),
        rendered(t, y).push(' '),
    ]);
}

fn list_subtree(t: &Commands, i: usize, prefix: &String, out: &mut Vec<String>)
    requires
        t.wf(),
        i < t.tokens@.len(),
    ensures
        views(final(out)@) == views(old(out)@).add(command_lines(t, i as int, prefix@)),
    decreases t.rank()[i as int], t.children_of(i as int).len() + 1,
{
    let name = t.tokens[i].name.as_str();
    let upper = to_upper(name);
    let text = token_text(t.tokens[i].kind, name, upper.as_str());
    let mut here = prefix.clone();
    here.append(text.as_str());
    here.append(" ");
    proof {
        reveal_strlit(" ");
    }
    let ghost here_v = prefix@.add(rendered(t, i as int)).push(' ');
    assert(here@ =~= here_v);
    let ghost start = views(out@);
    let ghost own = if t.tokens@[i as int].has_action { seq![here_v] } else { Seq::empty() };
    if t.tokens[i].has_action {
        out.push(here.clone());
        assert(views(out@) =~= start.add(own));
    } else {
        assert(views(out@) =~= start.add(own));
    }
    list_children(t, i, 0, &here, out);
    assert(views(out@) =~= start.add(own.add(child_command_lines(t, i as int, 0, here_v))));
}

fn list_children(t: &Commands, i: usize, k: usize, prefix: &String, out: &mut Vec<String>)
    requires
        t.wf(),
        i < t.tokens@.len(),
        k <= t.children_of(i as int).len(),
    ensures
        views(final(out)@) == views(old(out)@).add(
            child_command_lines(t, i as int, k as int, prefix@),
        ),
    decreases t.rank()[i as int], t.children_of(i as int).len() - k,
{
    if k == t.tokens[i].children.len() {
        assert(views(out@) =~= views(out@).add(child_command_lines(t, i as int, k as int, prefix@)));
        return;
    }
    let c = t.tokens[i].children[k];
    assert(t.children_of(i as int)[k as int] == c);
    let ghost start = views(out@);
    list_subtree(t, c, prefix, out);
    list_children(t, i, k + 1, prefix, out);
    assert(views(out@) =~= start.add(child_command_lines(t, i as int, k as int, prefix@)));
}

/// Lists the complete commands below `top_token_id`, one line each: the
/// tokens of its path joined by spaces, with a space after the last.
pub fn cmd_list_root(commands: &Commands, top_token_id: usize) -> (r: Vec<String>)
    requires
        commands.wf(),
        top_token_id < commands.tokens@.len(),
    ensures
        views(r@) == root_command_lines(commands, top_token_id as int),
{
    let mut out: Vec<String> = Vec::new();
    let prefix = String::new();
    list_children(commands, top_token_id, 0, &prefix, &mut out);
    assert(views(out@) =~= root_command_lines(commands, top_token_id as int));
    out
}

} // verus!
