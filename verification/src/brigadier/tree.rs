//! The nodes of the command tree. They live in one table and name each
//! other by their place in it; place 0 is the root.

use crate::brigadier::arguments::ArgumentType;
use vstd::prelude::*;

verus! {

/// What a node matches.
#[derive(Clone, Copy, Debug, PartialEq, Eq, Structural)]
pub enum NodeKind {
    /// The root, which matches nothing itself.
    Root,
    /// A fixed word: the node's name.
    Literal,
    /// An argument of the given type.
    Argument(ArgumentType),
}

/// One node of the command tree.
#[derive(Debug, PartialEq, Eq)]
pub struct CommandNode {
    pub kind: NodeKind,
    pub name: Vec<char>,
    /// The children, in the order of their names.
    pub children: Vec<usize>,
    /// The action to run where the input ends at this node.
    pub command: Option<u32>,
    /// What a source must meet to use this node.
    pub requirement: Option<u32>,
    /// The node at which parsing goes on after this one.
    pub redirect: Option<usize>,
    /// Who suggests values for this argument, where its type's own
    /// suggestions are not to be used.
    pub suggests: Option<u32>,
}

/// The mathematical value of a `CommandNode`.
pub struct NodeView {
    pub kind: NodeKind,
    pub name: Seq<char>,
    pub children: Seq<usize>,
    pub command: Option<u32>,
    pub requirement: Option<u32>,
    pub redirect: Option<usize>,
    pub suggests: Option<u32>,
}

impl View for CommandNode {
    type V = NodeView;

    open spec fn view(&self) -> NodeView {
        NodeView {
            kind: self.kind,
            name: self.name@,
            children: self.children@,
            command: self.command,
            requirement: self.requirement,
            redirect: self.redirect,
            suggests: self.suggests,
        }
    }
}

/// The values of the nodes of a table.
pub open spec fn tree_view(nodes: Seq<CommandNode>) -> Seq<NodeView> {
    Seq::new(nodes.len(), |i: int| nodes[i]@)
}

/// Whether `a` comes before `b` in the order of names: the order of
/// dictionaries, by the characters' code points.
pub open spec fn name_less(a: Seq<char>, b: Seq<char>) -> bool
    decreases a.len(),
{
    if b.len() == 0 {
        false
    } else if a.len() == 0 {
        true
    } else if a[0] != b[0] {
        (a[0] as u32) < (b[0] as u32)
    } else {
        name_less(a.skip(1), b.skip(1))
    }
}

/// How one name stands to another in the order of names.
#[derive(Clone, Copy, Debug, PartialEq, Eq, Structural)]
pub enum NameOrder {
    Before,
    Same,
    After,
}

/// How `a` stands to `b` in the order of names.
pub open spec fn spec_name_order(a: Seq<char>, b: Seq<char>) -> NameOrder {
    if a == b {
        NameOrder::Same
    } else if name_less(a, b) {
        NameOrder::Before
    } else {
        NameOrder::After
    }
}

/// Of two different names one comes before the other, and not both.
pub proof fn lemma_name_order_total(a: Seq<char>, b: Seq<char>)
    ensures
        a == b ==> !name_less(a, b) && !name_less(b, a),
        a != b ==> (name_less(a, b) <==> !name_less(b, a)),
    decreases a.len(),
{
    if a.len() == 0 || b.len() == 0 {
        if a.len() == 0 && b.len() == 0 {
            assert(a =~= b);
        }
    } else if a[0] == b[0] {
        lemma_name_order_total(a.skip(1), b.skip(1));
        if a.skip(1) == b.skip(1) {
            assert(a =~= seq![a[0]] + a.skip(1));
            assert(b =~= seq![b[0]] + b.skip(1));
        }
        if a == b {
            assert(a.skip(1) == b.skip(1));
        }
    } else {
        vstd::utf8::char_u32_cast(a[0], a[0] as u32);
        vstd::utf8::char_u32_cast(b[0], b[0] as u32);
    }
}

/// The order of names is transitive.
pub proof fn lemma_name_less_transitive(a: Seq<char>, b: Seq<char>, c: Seq<char>)
    requires
        name_less(a, b),
        name_less(b, c),
    ensures
        name_less(a, c),
    decreases a.len(),
{
    if a.len() > 0 && b.len() > 0 && c.len() > 0 {
        if a[0] == b[0] && b[0] == c[0] {
            lemma_name_less_transitive(a.skip(1), b.skip(1), c.skip(1));
        }
    }
}

/// Compares two names.
pub fn name_order(a: &Vec<char>, b: &Vec<char>) -> (r: NameOrder)
    ensures
        r == spec_name_order(a@, b@),
{
    let mut i: usize = 0;
    proof {
        assert(a@.skip(0) =~= a@);
        assert(b@.skip(0) =~= b@);
    }
    while i < a.len() && i < b.len()
        invariant
            i <= a.len(),
            i <= b.len(),
            a@.take(i as int) == b@.take(i as int),
            name_less(a@, b@) == name_less(a@.skip(i as int), b@.skip(i as int)),
            name_less(b@, a@) == name_less(b@.skip(i as int), a@.skip(i as int)),
        decreases a.len() - i,
    {
        let x = a[i];
        let y = b[i];
        proof {
            assert(a@.skip(i as int)[0] == x);
            assert(b@.skip(i as int)[0] == y);
        }
        if x != y {
            proof {
                assert(a@ != b@);
            }
            if (x as u32) < (y as u32) {
                return NameOrder::Before;
            } else {
                proof {
                    assert(x as u32 != y as u32) by {
                        vstd::utf8::char_u32_cast(x, x as u32);
                        vstd::utf8::char_u32_cast(y, y as u32);
                    }
                }
                return NameOrder::After;
            }
        }
        proof {
            assert(a@.skip(i as int).skip(1) =~= a@.skip(i + 1));
            assert(b@.skip(i as int).skip(1) =~= b@.skip(i + 1));
            assert(a@.take(i + 1) =~= a@.take(i as int).push(x));
            assert(b@.take(i + 1) =~= b@.take(i as int).push(y));
        }
        i = i + 1;
    }
    proof {
        assert(a@.take(a.len() as int) =~= a@);
        assert(b@.take(b.len() as int) =~= b@);
    }
    if a.len() == b.len() {
        NameOrder::Same
    } else if i == a.len() {
        proof {
            assert(a@.skip(i as int).len() == 0);
            assert(a@ != b@);
        }
        NameOrder::Before
    } else {
        proof {
            assert(b@.skip(i as int).len() == 0);
            assert(a@ != b@);
        }
        NameOrder::After
    }
}

/// Whether a table of nodes is a command tree: it has a root at place 0
/// and no other; every child stands after its parent and inside the
/// table; the children of a node are in the strict order of their names;
/// and every redirect points inside the table.
pub open spec fn well_formed(tree: Seq<NodeView>) -> bool {
    &&& tree.len() >= 1
    &&& tree[0].kind == NodeKind::Root
    &&& forall|i: int| 0 < i < tree.len() ==> (#[trigger] tree[i]).kind != NodeKind::Root
    &&& forall|i: int, k: int|
        0 <= i < tree.len() && 0 <= k < tree[i].children.len() ==> i < (
        #[trigger] tree[i].children[k]) < tree.len()
    &&& forall|i: int, j: int, k: int|
        0 <= i < tree.len() && 0 <= j < k < tree[i].children.len() ==> name_less(
            tree[#[trigger] tree[i].children[j] as int].name,
            tree[#[trigger] tree[i].children[k] as int].name,
        )
    &&& forall|i: int|
        0 <= i < tree.len() ==> ((#[trigger] tree[i]).redirect matches Some(t) ==> t
            < tree.len())
}

/// A description of a node to add to the tree.
#[derive(Debug, PartialEq, Eq)]
pub struct ArgumentBuilder {
    pub kind: NodeKind,
    pub name: Vec<char>,
    pub command: Option<u32>,
    pub requirement: Option<u32>,
    pub redirect: Option<usize>,
    pub suggests: Option<u32>,
}

impl View for ArgumentBuilder {
    type V = NodeView;

    open spec fn view(&self) -> NodeView {
        NodeView {
            kind: self.kind,
            name: self.name@,
            children: Seq::empty(),
            command: self.command,
            requirement: self.requirement,
            redirect: self.redirect,
            suggests: self.suggests,
        }
    }
}

/// The characters of `name`.
pub fn name_chars(name: &str) -> (v: Vec<char>)
    ensures
        v@ == name@,
{
    let mut v: Vec<char> = Vec::new();
    for c in iter: name.chars()
        invariant
            v@ == iter.seq().take(iter.index()),
    {
        v.push(c);
    }
    v
}

/// A node that matches the word `name`.
pub fn literal(name: &str) -> (b: ArgumentBuilder)
    ensures
        b.kind == NodeKind::Literal,
        b.name@ == name@,
        b.command is None,
        b.requirement is None,
        b.redirect is None,
        b.suggests is None,
{
    ArgumentBuilder {
        kind: NodeKind::Literal,
        name: name_chars(name),
        command: None,
        requirement: None,
        redirect: None,
        suggests: None,
    }
}

/// A node that reads an argument of type `kind` and keeps it under `name`.
pub fn argument(name: &str, kind: ArgumentType) -> (b: ArgumentBuilder)
    ensures
        b.kind == NodeKind::Argument(kind),
        b.name@ == name@,
        b.command is None,
        b.requirement is None,
        b.redirect is None,
        b.suggests is None,
{
    ArgumentBuilder {
        kind: NodeKind::Argument(kind),
        name: name_chars(name),
        command: None,
        requirement: None,
        redirect: None,
        suggests: None,
    }
}

impl ArgumentBuilder {
    /// The same node, with `command` to run where the input ends at it.
    pub fn executes(self, command: u32) -> (b: ArgumentBuilder)
        ensures
            b == (ArgumentBuilder { command: Some(command), ..self }),
    {
        ArgumentBuilder { command: Some(command), ..self }
    }

    /// The same node, open only to a source that meets `requirement`.
    pub fn requiring(self, requirement: u32) -> (b: ArgumentBuilder)
        ensures
            b == (ArgumentBuilder { requirement: Some(requirement), ..self }),
    {
        ArgumentBuilder { requirement: Some(requirement), ..self }
    }

    /// The same node, with `provider` to suggest its values.
    pub fn suggests(self, provider: u32) -> (b: ArgumentBuilder)
        ensures
            b == (ArgumentBuilder { suggests: Some(provider), ..self }),
    {
        ArgumentBuilder { suggests: Some(provider), ..self }
    }

    /// The same node, after which parsing goes on at `target`.
    pub fn redirect(self, target: usize) -> (b: ArgumentBuilder)
        ensures
            b == (ArgumentBuilder { redirect: Some(target), ..self }),
    {
        ArgumentBuilder { redirect: Some(target), ..self }
    }
}

} // verus!
