//! Schema-typed configuration tree, stored as an arena of nodes that refer to
//! one another by index.
use vstd::prelude::*;

verus! {

/// Structural category of a configuration node, as given by its schema.
#[derive(Clone, Copy, Debug, PartialEq, Eq, Structural)]
pub enum NodeKind {
    Container,
    NonPresenceContainer,
    Leaf,
    ListKeyLeaf,
    LeafList,
    List,
    Other,
}

/// One node of a configuration tree.
pub struct ConfigNode {
    pub name: String,
    pub kind: NodeKind,
    /// Canonical scalar value, present on leaves and leaf-list entries.
    pub value: Option<String>,
    /// Whether the value comes from the schema default rather than the user.
    pub is_default: bool,
    pub parent: Option<usize>,
    /// Children in schema order.
    pub children: Vec<usize>,
}

/// A configuration tree. Node 0 is the root: it has no parent and is never
/// itself rendered. Every other node is allocated after its parent.
pub struct ConfigTree {
    pub nodes: Vec<ConfigNode>,
}

/// Index of the root node of every tree.
pub const ROOT: usize = 0;

impl ConfigTree {
    pub open spec fn len(&self) -> int {
        self.nodes@.len() as int
    }

    pub open spec fn name_of(&self, i: int) -> Seq<char> {
        self.nodes@[i].name@
    }

    pub open spec fn kind_of(&self, i: int) -> NodeKind {
        self.nodes@[i].kind
    }

    pub open spec fn value_of(&self, i: int) -> Option<Seq<char>> {
        match self.nodes@[i].value {
            Some(v) => Some(v@),
            None => None,
        }
    }

    pub open spec fn default_of(&self, i: int) -> bool {
        self.nodes@[i].is_default
    }

    pub open spec fn children_of(&self, i: int) -> Seq<usize> {
        self.nodes@[i].children@
    }

    /// The parent's index, or -1 where there is none.
    pub open spec fn up(&self, i: int) -> int {
        match self.nodes@[i].parent {
            Some(p) => if (p as int) < i { p as int } else { -1 },
            None => -1,
        }
    }

    pub open spec fn wf(&self) -> bool {
        &&& self.nodes@.len() > 0
        &&& self.nodes@[0].parent is None
        &&& forall|i: int|
            0 < i < self.len() ==> {
                &&& (#[trigger] self.nodes@[i]).parent is Some
                &&& (self.nodes@[i].parent->0 as int) < i
            }
        &&& forall|i: int, k: int|
            0 <= i < self.len() && 0 <= k < self.children_of(i).len() ==> {
                let c = #[trigger] self.children_of(i)[k] as int;
                &&& i < c < self.len()
                &&& self.nodes@[c].parent == Some(i as usize)
            }
    }

    /// A tree that holds only its root.
    pub fn new() -> (r: ConfigTree)
        ensures
            r.wf(),
            r.len() == 1,
            r.children_of(0).len() == 0,
    {
        let root = ConfigNode {
            name: String::new(),
            kind: NodeKind::Other,
            value: None,
            is_default: false,
            parent: None,
            children: Vec::new(),
        };
        let mut nodes = Vec::new();
        nodes.push(root);
        ConfigTree { nodes }
    }

    /// Appends a new node as the last child of `parent` and returns its index.
    pub fn add_node(
        &mut self,
        parent: usize,
        name: String,
        kind: NodeKind,
        value: Option<String>,
        is_default: bool,
    ) -> (id: usize)
        requires
            old(self).wf(),
            parent < old(self).nodes@.len(),
            old(self).nodes@.len() < usize::MAX,
        ensures
            final(self).wf(),
            id as int == old(self).len(),
            final(self).len() == old(self).len() + 1,
            final(self).name_of(id as int) == name@,
            final(self).kind_of(id as int) == kind,
            final(self).nodes@[id as int].value == value,
            final(self).default_of(id as int) == is_default,
            final(self).nodes@[id as int].parent == Some(parent),
            final(self).children_of(id as int).len() == 0,
            final(self).children_of(parent as int) == old(self).children_of(parent as int).push(id),
            forall|j: int|
                0 <= j < old(self).len() && j != parent ==> #[trigger] final(self).nodes@[j] == old(
                    self,
                ).nodes@[j],
            final(self).nodes@[parent as int].name == old(self).nodes@[parent as int].name,
            final(self).nodes@[parent as int].kind == old(self).nodes@[parent as int].kind,
            final(self).nodes@[parent as int].value == old(self).nodes@[parent as int].value,
            final(self).nodes@[parent as int].is_default == old(
                self,
            ).nodes@[parent as int].is_default,
            final(self).nodes@[parent as int].parent == old(self).nodes@[parent as int].parent,
    {
        let id = self.nodes.len();
        let node = ConfigNode { name, kind, value, is_default, parent: Some(parent), children: Vec::new() };
        let mut slot = ConfigNode {
            name: String::new(),
            kind: NodeKind::Other,
            value: None,
            is_default: false,
            parent: None,
            children: Vec::new(),
        };
        self.nodes.set_and_swap(parent, &mut slot);
        slot.children.push(id);
        self.nodes.set_and_swap(parent, &mut slot);
        self.nodes.push(node);
        proof {
            let s = *self;
            assert forall|i: int, k: int|
                0 <= i < s.len() && 0 <= k < s.children_of(i).len() implies {
                let c = #[trigger] s.children_of(i)[k] as int;
                &&& i < c < s.len()
                &&& s.nodes@[c].parent == Some(i as usize)
            } by {
                if i == parent as int && k == s.children_of(i).len() - 1 {
                } else {
                    assert(old(self).children_of(i)[k] == s.children_of(i)[k]);
                }
            }
        }
        id
    }

    /// Tests well-formedness.
    pub fn check_wf(&self) -> (r: bool)
        ensures
            r == self.wf(),
    {
        let n = self.nodes.len();
        if n == 0 || self.nodes[0].parent.is_some() {
            return false;
        }
        let mut i: usize = 0;
        while i < n
            invariant
                n == self.nodes@.len(),
                0 < n,
                i <= n,
                self.nodes@[0].parent is None,
                forall|j: int|
                    0 < j < i ==> {
                        &&& (#[trigger] self.nodes@[j]).parent is Some
                        &&& (self.nodes@[j].parent->0 as int) < j
                    },
                forall|j: int, k: int|
                    0 <= j < i && 0 <= k < self.children_of(j).len() ==> {
                        let c = #[trigger] self.children_of(j)[k] as int;
                        &&& j < c < self.len()
                        &&& self.nodes@[c].parent == Some(j as usize)
                    },
            decreases n - i,
        {
            if i > 0 {
                match self.nodes[i].parent {
                    Some(p) => {
                        if p >= i {
                            return false;
                        }
                    },
                    None => {
                        return false;
                    },
                }
            }
            let m = self.nodes[i].children.len();
            let mut k: usize = 0;
            while k < m
                invariant
                    n == self.nodes@.len(),
                    i < n,
                    m == self.children_of(i as int).len(),
                    k <= m,
                    forall|kk: int|
                        0 <= kk < k ==> {
                            let c = #[trigger] self.children_of(i as int)[kk] as int;
                            &&& i < c < self.len()
                            &&& self.nodes@[c].parent == Some(i)
                        },
                decreases m - k,
            {
                let c = self.nodes[i].children[k];
                assert(self.children_of(i as int)[k as int] == c);
                if c <= i || c >= n {
                    return false;
                }
                match self.nodes[c].parent {
                    Some(p) => {
                        if p != i {
                            return false;
                        }
                    },
                    None => {
                        return false;
                    },
                }
                k = k + 1;
            }
            i = i + 1;
        }
        true
    }

    /// The value of the first child of `i` named `name`, if that child has one.
    pub open spec fn child_opt_value_spec(&self, i: int, name: Seq<char>) -> Option<Seq<char>> {
        self.child_value_from(i, name, 0)
    }

    pub open spec fn child_value_from(&self, i: int, name: Seq<char>, k: int) -> Option<Seq<char>>
        decreases self.children_of(i).len() - k,
    {
        if 0 <= k < self.children_of(i).len() {
            let c = self.children_of(i)[k] as int;
            if self.name_of(c) == name {
                self.value_of(c)
            } else {
                self.child_value_from(i, name, k + 1)
            }
        } else {
            None
        }
    }

    /// Looks up the first child of node `i` named `name` and returns its value.
    pub fn child_opt_value_at(&self, i: usize, name: &str) -> (r: Option<String>)
        requires
            self.wf(),
            i < self.nodes@.len(),
        ensures
            match r {
                Some(v) => self.child_opt_value_spec(i as int, name@) == Some(v@),
                None => self.child_opt_value_spec(i as int, name@) is None,
            },
    {
        let key = name.to_owned();
        let n = self.nodes[i].children.len();
        let mut k: usize = 0;
        while k < n
            invariant
                self.wf(),
                i < self.nodes@.len(),
                n == self.children_of(i as int).len(),
                k <= n,
                key@ == name@,
                self.child_opt_value_spec(i as int, name@) == self.child_value_from(
                    i as int,
                    name@,
                    k as int,
                ),
            decreases n - k,
        {
            let c = self.nodes[i].children[k];
            assert(self.children_of(i as int)[k as int] == c);
            if self.nodes[c].name == key {
                return match &self.nodes[c].value {
                    Some(v) => Some(v.clone()),
                    None => None,
                };
            }
            k = k + 1;
        }
        None
    }
}

impl ConfigTree {
    /// Whether two trees hold the same nodes, field for field.
    pub open spec fn same_as(&self, other: &ConfigTree) -> bool {
        &&& self.len() == other.len()
        &&& forall|i: int|
            0 <= i < self.len() ==> {
                &&& #[trigger] self.name_of(i) == other.name_of(i)
                &&& self.kind_of(i) == other.kind_of(i)
                &&& self.value_of(i) == other.value_of(i)
                &&& self.default_of(i) == other.default_of(i)
                &&& self.nodes@[i].parent == other.nodes@[i].parent
                &&& self.children_of(i) == other.children_of(i)
            }
    }

    /// A copy of the tree.
    pub fn duplicate(&self) -> (r: ConfigTree)
        requires
            self.wf(),
        ensures
            r.wf(),
            r.same_as(self),
    {
        let n = self.nodes.len();
        let mut nodes: Vec<ConfigNode> = Vec::new();
        let mut i: usize = 0;
        while i < n
            invariant
                n == self.nodes@.len(),
                i <= n,
                nodes@.len() == i,
                forall|j: int|
                    0 <= j < i ==> {
                        &&& (#[trigger] nodes@[j]).name@ == self.name_of(j)
                        &&& nodes@[j].kind == self.kind_of(j)
                        &&& nodes@[j].value == self.nodes@[j].value
                        &&& nodes@[j].is_default == self.default_of(j)
                        &&& nodes@[j].parent == self.nodes@[j].parent
                        &&& nodes@[j].children@ == self.children_of(j)
                    },
            decreases n - i,
        {
            let src = &self.nodes[i];
            let m = src.children.len();
            let mut children: Vec<usize> = Vec::new();
            let mut k: usize = 0;
            while k < m
                invariant
                    m == src.children@.len(),
                    k <= m,
                    children@ == src.children@.take(k as int),
                decreases m - k,
            {
                children.push(src.children[k]);
                assert(children@ =~= src.children@.take(k + 1));
                k = k + 1;
            }
            assert(children@ =~= src.children@);
            let value = match &src.value {
                Some(v) => Some(v.clone()),
                None => None,
            };
            nodes.push(
                ConfigNode {
                    name: src.name.clone(),
                    kind: src.kind,
                    value,
                    is_default: src.is_default,
                    parent: src.parent,
                    children,
                },
            );
            i = i + 1;
        }
        let r = ConfigTree { nodes };
        assert(r.same_as(self));
        r
    }
}

/// A node of a configuration tree, seen with the tree it belongs to.
pub struct ConfigNodeRef<'a> {
    pub tree: &'a ConfigTree,
    pub id: usize,
}

/// Lookups of a node's children by name.
pub trait DataNodeRefExt {
    spec fn valid(&self) -> bool;

    /// Value of the first child with the given name, where it has one.
    spec fn child_value_spec(&self, name: Seq<char>) -> Option<Seq<char>>;

    /// The child's value, or "-" where there is none.
    fn child_value(&self, name: &str) -> (r: String)
        requires
            self.valid(),
        ensures
            r@ == match self.child_value_spec(name@) {
                Some(v) => v,
                None => seq!['-'],
            },
    ;

    fn child_opt_value(&self, name: &str) -> (r: Option<String>)
        requires
            self.valid(),
        ensures
            match r {
                Some(v) => self.child_value_spec(name@) == Some(v@),
                None => self.child_value_spec(name@) is None,
            },
    ;
}

impl<'a> DataNodeRefExt for ConfigNodeRef<'a> {
    open spec fn valid(&self) -> bool {
        self.tree.wf() && self.id < self.tree.nodes@.len()
    }

    open spec fn child_value_spec(&self, name: Seq<char>) -> Option<Seq<char>> {
        self.tree.child_opt_value_spec(self.id as int, name)
    }

    fn child_value(&self, name: &str) -> (r: String) {
        match self.child_opt_value(name) {
            Some(v) => v,
            None => {
                let dash = "-".to_owned();
                proof {
                    reveal_strlit("-");
                }
                assert(dash@ =~= seq!['-']);
                dash
            },
        }
    }

    fn child_opt_value(&self, name: &str) -> (r: Option<String>) {
        self.tree.child_opt_value_at(self.id, name)
    }
}

} // verus!
