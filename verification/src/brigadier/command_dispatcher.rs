//! The dispatcher: the command tree, the parser over it, and the execution
//! of what was parsed.

use crate::brigadier::arguments::ArgumentValue;
use crate::brigadier::context::{last_argument, CommandContext, ContextView, ParsedArgument};
use crate::brigadier::errors::{BuiltInError, CommandSyntaxError, StringRange};
use crate::brigadier::parse_results::{
    answers_for, answers_of, best_index, can_give, can_use, carries_out, lemma_best_index,
    picked, potentials_view, relevant_nodes, spec_execute, spec_parse,
    spec_parse_children, spec_parse_node, spec_parse_nodes, spec_plan, strictly_better, word_end,
    CommandSource, ParseResults, ParseResultsView, Potential,
};
use crate::brigadier::string_reader::{token_text, StringReader};
use crate::brigadier::text::{chars_to_string, optional_text};
use crate::brigadier::tree::{
    lemma_name_less_transitive, lemma_name_order_total, name_less, name_order, tree_view,
    well_formed, name_chars, ArgumentBuilder, CommandNode, NameOrder, NodeKind, NodeView,
};
use vstd::prelude::*;

verus! {

/// The root of an empty tree.
pub open spec fn root_node() -> NodeView {
    NodeView {
        kind: NodeKind::Root,
        name: Seq::empty(),
        children: Seq::empty(),
        command: None,
        requirement: None,
        redirect: None,
        suggests: None,
    }
}

/// The place among the children `kids`, from `k` on, of the first whose
/// name does not come before `name`.
pub open spec fn slot_from(tree: Seq<NodeView>, kids: Seq<usize>, name: Seq<char>, k: int) -> int
    decreases kids.len() - k,
{
    if k < 0 || k >= kids.len() || !name_less(tree[kids[k] as int].name, name) {
        k
    } else {
        slot_from(tree, kids, name, k + 1)
    }
}

/// Whether a node described by `kind` and `redirect` can be added below
/// `parent`: both are in the tree, the node is no root, and the table has
/// room.
pub open spec fn can_add(
    tree: Seq<NodeView>,
    parent: usize,
    kind: NodeKind,
    redirect: Option<usize>,
) -> bool {
    &&& parent < tree.len() < usize::MAX
    &&& kind != NodeKind::Root
    &&& redirect matches Some(t) ==> t < tree.len()
}

/// The tree after a node was added below `parent`, and the place of that
/// node. Where `parent` has a child of that name already, the child takes
/// the new command, if there is one, and is otherwise left as it was.
/// Else the new node goes to the end of the table and among the children
/// of `parent` at the place of its name.
pub open spec fn spec_add_child(tree: Seq<NodeView>, parent: usize, added: NodeView) -> (
    Seq<NodeView>,
    usize,
) {
    let kids = tree[parent as int].children;
    let p = slot_from(tree, kids, added.name, 0);
    if p < kids.len() && tree[kids[p] as int].name == added.name {
        let id = kids[p];
        let old = tree[id as int];
        (
            tree.update(
                id as int,
                NodeView {
                    command: if added.command is Some {
                        added.command
                    } else {
                        old.command
                    },
                    ..old
                },
            ),
            id,
        )
    } else {
        let id = tree.len() as usize;
        (
            tree.push(NodeView { children: Seq::empty(), ..added }).update(
                parent as int,
                NodeView { children: kids.insert(p, id), ..tree[parent as int] },
            ),
            id,
        )
    }
}

/// The place of the child of `parent` named `name`, if it has one.
pub open spec fn spec_child(tree: Seq<NodeView>, parent: int, name: Seq<char>) -> Option<usize> {
    let kids = tree[parent].children;
    let p = slot_from(tree, kids, name, 0);
    if 0 <= parent < tree.len() && p < kids.len() && tree[kids[p] as int].name == name {
        Some(kids[p])
    } else {
        None
    }
}

/// The slot found is among the children or just after them; every child
/// before it has a name that comes before `name`, and the child at it has
/// not.
pub proof fn lemma_slot_from(tree: Seq<NodeView>, kids: Seq<usize>, name: Seq<char>, k: int)
    requires
        0 <= k <= kids.len(),
    ensures
        k <= slot_from(tree, kids, name, k) <= kids.len(),
        forall|j: int|
            k <= j < slot_from(tree, kids, name, k) ==> name_less(
                tree[#[trigger] kids[j] as int].name,
                name,
            ),
        slot_from(tree, kids, name, k) < kids.len() ==> !name_less(
            tree[kids[slot_from(tree, kids, name, k)] as int].name,
            name,
        ),
    decreases kids.len() - k,
{
    if k < kids.len() && name_less(tree[kids[k] as int].name, name) {
        lemma_slot_from(tree, kids, name, k + 1);
    }
}

/// Adding a node keeps the table a command tree.
pub proof fn lemma_add_child_well_formed(tree: Seq<NodeView>, parent: usize, added: NodeView)
    requires
        well_formed(tree),
        can_add(tree, parent, added.kind, added.redirect),
    ensures
        well_formed(spec_add_child(tree, parent, added).0),
        spec_add_child(tree, parent, added).0.len() >= tree.len(),
        spec_add_child(tree, parent, added).1 < spec_add_child(tree, parent, added).0.len(),
{
    let kids = tree[parent as int].children;
    let p = slot_from(tree, kids, added.name, 0);
    lemma_slot_from(tree, kids, added.name, 0);
    let (after, id) = spec_add_child(tree, parent, added);
    if p < kids.len() && tree[kids[p] as int].name == added.name {
        assert forall|i: int, j: int, k: int|
            0 <= i < after.len() && 0 <= j < k < after[i].children.len() implies name_less(
            after[#[trigger] after[i].children[j] as int].name,
            after[#[trigger] after[i].children[k] as int].name,
        ) by {
            assert(after[i].children == tree[i].children);
            assert(name_less(
                tree[tree[i].children[j] as int].name,
                tree[tree[i].children[k] as int].name,
            ));
        }
        assert forall|i: int, k: int|
            0 <= i < after.len() && 0 <= k < after[i].children.len() implies i < (
        #[trigger] after[i].children[k]) < after.len() by {
            assert(after[i].children == tree[i].children);
            assert(i < tree[i].children[k] < tree.len());
        }
    } else {
        let grown = kids.insert(p, id);
        assert forall|i: int, k: int|
            0 <= i < after.len() && 0 <= k < after[i].children.len() implies i < (
        #[trigger] after[i].children[k]) < after.len() by {
            if i == parent {
                if k < p {
                    assert(grown[k] == kids[k]);
                } else if k > p {
                    assert(grown[k] == kids[k - 1]);
                }
            } else if i < tree.len() {
                assert(after[i].children == tree[i].children);
                assert(i < tree[i].children[k] < tree.len());
            }
        }
        assert forall|i: int, j: int, k: int|
            0 <= i < after.len() && 0 <= j < k < after[i].children.len() implies name_less(
            after[#[trigger] after[i].children[j] as int].name,
            after[#[trigger] after[i].children[k] as int].name,
        ) by {
            if i == parent {
                let a = grown[j];
                let b = grown[k];
                if k < p {
                    assert(a == kids[j] && b == kids[k]);
                    assert(name_less(tree[kids[j] as int].name, tree[kids[k] as int].name));
                } else if k == p {
                    assert(a == kids[j]);
                    assert(name_less(tree[kids[j] as int].name, added.name));
                } else if j < p {
                    assert(a == kids[j] && b == kids[k - 1]);
                    assert(name_less(tree[kids[j] as int].name, tree[kids[k - 1] as int].name));
                } else if j == p {
                    assert(b == kids[k - 1]);
                    let at = tree[kids[p] as int].name;
                    lemma_name_order_total(at, added.name);
                    assert(name_less(added.name, at));
                    if k - 1 > p {
                        assert(name_less(tree[kids[p] as int].name, tree[kids[k - 1] as int].name));
                        lemma_name_less_transitive(added.name, at, tree[kids[k - 1] as int].name);
                    }
                } else {
                    assert(a == kids[j - 1] && b == kids[k - 1]);
                    assert(name_less(
                        tree[kids[j - 1] as int].name,
                        tree[kids[k - 1] as int].name,
                    ));
                }
                assert(a < tree.len() ==> after[a as int].name == tree[a as int].name);
                assert(b < tree.len() ==> after[b as int].name == tree[b as int].name);
                assert(kids.len() > 0 ==> kids[0] < tree.len());
                assert(forall|m: int| 0 <= m < kids.len() ==> (#[trigger] kids[m]) < tree.len()) by {
                    assert forall|m: int| 0 <= m < kids.len() implies (#[trigger] kids[m])
                        < tree.len() by {
                        assert(parent < tree[parent as int].children[m] < tree.len());
                    }
                }
            } else if i < tree.len() {
                assert(after[i].children == tree[i].children);
                let a = tree[i].children[j];
                let b = tree[i].children[k];
                assert(i < tree[i].children[j] < tree.len());
                assert(i < tree[i].children[k] < tree.len());
                assert(name_less(tree[a as int].name, tree[b as int].name));
                assert(after[a as int].name == tree[a as int].name);
                assert(after[b as int].name == tree[b as int].name);
            }
        }
        assert forall|i: int| 0 <= i < after.len() implies ((#[trigger] after[i]).redirect matches Some(
            t,
        ) ==> t < after.len()) by {
            if i < tree.len() {
                assert(after[i].redirect == tree[i].redirect);
            }
        }
        assert forall|i: int| 0 < i < after.len() implies (#[trigger] after[i]).kind
            != NodeKind::Root by {
            if i < tree.len() {
                assert(after[i].kind == tree[i].kind);
            }
        }
    }
}

/// The command tree and its dispatcher.
pub struct CommandDispatcher {
    nodes: Vec<CommandNode>,
}

impl Default for CommandDispatcher {
    /// A dispatcher whose tree is a root without children.
    fn default() -> (r: Self)
        ensures
            r.tree() == seq![root_node()],
            well_formed(r.tree()),
    {
        CommandDispatcher::new()
    }
}

impl CommandDispatcher {
    #[verifier::type_invariant]
    spec fn is_tree(self) -> bool {
        well_formed(tree_view(self.nodes@))
    }

    /// The nodes of the tree, by their places.
    pub closed spec fn tree(&self) -> Seq<NodeView> {
        tree_view(self.nodes@)
    }

    /// A dispatcher whose tree is a root without children.
    pub fn new() -> (r: Self)
        ensures
            r.tree() == seq![root_node()],
            well_formed(r.tree()),
    {
        let mut nodes: Vec<CommandNode> = Vec::new();
        nodes.push(
            CommandNode {
                kind: NodeKind::Root,
                name: Vec::new(),
                children: Vec::new(),
                command: None,
                requirement: None,
                redirect: None,
                suggests: None,
            },
        );
        proof {
            assert(tree_view(nodes@) =~= seq![root_node()]);
        }
        CommandDispatcher { nodes }
    }

    /// The place of the root.
    pub fn root(&self) -> (id: usize)
        ensures
            id == 0,
            id < self.tree().len(),
            well_formed(self.tree()),
    {
        proof {
            use_type_invariant(self);
        }
        0
    }

    /// The number of nodes.
    pub fn len(&self) -> (n: usize)
        ensures
            n == self.tree().len(),
            n >= 1,
    {
        proof {
            use_type_invariant(self);
        }
        self.nodes.len()
    }

    /// The node at place `id`.
    pub fn node(&self, id: usize) -> (r: Option<&CommandNode>)
        ensures
            well_formed(self.tree()),
            match r {
                Some(n) => id < self.tree().len() && n@ == self.tree()[id as int],
                None => id >= self.tree().len(),
            },
    {
        proof {
            use_type_invariant(self);
        }
        if id < self.nodes.len() {
            Some(&self.nodes[id])
        } else {
            None
        }
    }

    /// The slot of `name` among the children of `parent`.
    fn slot(&self, parent: usize, name: &Vec<char>) -> (r: (usize, bool))
        requires
            parent < self.tree().len(),
        ensures
            r.0 == slot_from(self.tree(), self.tree()[parent as int].children, name@, 0),
            r.0 <= self.tree()[parent as int].children.len(),
            r.1 == (r.0 < self.tree()[parent as int].children.len()
                && self.tree()[self.tree()[parent as int].children[r.0 as int] as int].name
                == name@),
    {
        proof {
            use_type_invariant(self);
        }
        let ghost tree = self.tree();
        let kids = &self.nodes[parent].children;
        let mut k: usize = 0;
        while k < kids.len()
            invariant
                tree == tree_view(self.nodes@),
                well_formed(tree),
                parent < tree.len(),
                kids@ == tree[parent as int].children,
                k <= kids.len(),
                slot_from(tree, kids@, name@, 0) == slot_from(tree, kids@, name@, k as int),
            decreases kids.len() - k,
        {
            let child = kids[k];
            proof {
                assert(tree[parent as int].children[k as int] == child);
                assert(child < tree.len());
                assert(tree[child as int].name == self.nodes[child as int].name@);
                lemma_name_order_total(self.nodes[child as int].name@, name@);
            }
            match name_order(&self.nodes[child].name, name) {
                NameOrder::Before => {
                    k = k + 1;
                },
                NameOrder::Same => {
                    return (k, true);
                },
                NameOrder::After => {
                    return (k, false);
                },
            }
        }
        (k, false)
    }

    /// Adds a node to the root. See `add_child`.
    pub fn register(&mut self, node: ArgumentBuilder) -> (r: Option<usize>)
        ensures
            well_formed(final(self).tree()),
            match r {
                Some(id) => can_add(old(self).tree(), 0, node.kind, node.redirect) && (
                    final(self).tree(),
                    id,
                ) == spec_add_child(old(self).tree(), 0, node@),
                None => !can_add(old(self).tree(), 0, node.kind, node.redirect)
                    && final(self).tree() == old(self).tree(),
            },
    {
        self.add_child(0, node)
    }

    /// Adds a node below `parent` and gives its place. Where `parent` has a
    /// child of that name already, that child is the one given: it takes
    /// the new node's command, if there is one. A root cannot be added,
    /// nor a node below a parent or with a redirect outside the tree: then
    /// the tree stays as it is.
    pub fn add_child(&mut self, parent: usize, node: ArgumentBuilder) -> (r: Option<usize>)
        ensures
            well_formed(final(self).tree()),
            match r {
                Some(id) => can_add(old(self).tree(), parent, node.kind, node.redirect) && (
                    final(self).tree(),
                    id,
                ) == spec_add_child(old(self).tree(), parent, node@),
                None => !can_add(old(self).tree(), parent, node.kind, node.redirect)
                    && final(self).tree() == old(self).tree(),
            },
    {
        proof {
            use_type_invariant(&*self);
        }
        let len = self.nodes.len();
        let is_root = match node.kind {
            NodeKind::Root => true,
            _ => false,
        };
        let bad_redirect = match node.redirect {
            Some(t) => t >= len,
            None => false,
        };
        if parent >= len || is_root || bad_redirect || len == usize::MAX {
            return None;
        }
        let (p, same) = self.slot(parent, &node.name);
        let mut taken = CommandDispatcher::new();
        std::mem::swap(self, &mut taken);
        let (grown, id) = taken.with_child(parent, node, p, same);
        *self = grown;
        proof {
            use_type_invariant(&*self);
        }
        Some(id)
    }

    /// This tree with `node` added below `parent`, at the slot `p`.
    fn with_child(self, parent: usize, node: ArgumentBuilder, p: usize, same: bool) -> (r: (
        Self,
        usize,
    ))
        requires
            can_add(self.tree(), parent, node.kind, node.redirect),
            p == slot_from(self.tree(), self.tree()[parent as int].children, node.name@, 0),
            same == (p < self.tree()[parent as int].children.len()
                && self.tree()[self.tree()[parent as int].children[p as int] as int].name
                == node.name@),
        ensures
            (r.0.tree(), r.1) == spec_add_child(self.tree(), parent, node@),
    {
        proof {
            use_type_invariant(&self);
            lemma_add_child_well_formed(self.tree(), parent, node@);
            lemma_slot_from(self.tree(), self.tree()[parent as int].children, node.name@, 0);
        }
        let ghost before = self.tree();
        let CommandDispatcher { mut nodes } = self;
        if same {
            let id = nodes[parent].children[p];
            assert(before[parent as int].children[p as int] == id);
            assert(id < nodes.len());
            if node.command.is_some() {
                nodes[id].command = node.command;
            }
            proof {
                assert(tree_view(nodes@) =~= spec_add_child(before, parent, node@).0);
            }
            (CommandDispatcher { nodes }, id)
        } else {
            let id = nodes.len();
            nodes.push(
                CommandNode {
                    kind: node.kind,
                    name: node.name,
                    children: Vec::new(),
                    command: node.command,
                    requirement: node.requirement,
                    redirect: node.redirect,
                    suggests: node.suggests,
                },
            );
            nodes[parent].children.insert(p, id);
            proof {
                assert(tree_view(nodes@) =~= spec_add_child(before, parent, node@).0);
            }
            (CommandDispatcher { nodes }, id)
        }
    }

    /// The children of `node` that the input at the reader's cursor can
    /// concern: first the literals whose name is the input's next word,
    /// then the arguments.
    pub fn get_relevant_nodes(&self, node: usize, reader: &StringReader) -> (r: Vec<usize>)
        requires
            node < self.tree().len(),
        ensures
            r@ == relevant_nodes(self.tree(), node as int, reader.text(), reader.position()),
    {
        proof {
            use_type_invariant(self);
        }
        let ghost tree = self.tree();
        let ghost text = reader.text();
        let chars = reader.chars();
        let start = reader.cursor();
        let mut end = start;
        while end < chars.len() && chars[end] != ' '
            invariant
                chars@ == text,
                start <= end <= chars.len(),
                word_end(text, start as int) == word_end(text, end as int),
            decreases chars.len() - end,
        {
            end = end + 1;
        }
        let ghost word = text.subrange(start as int, end as int);
        let kids = &self.nodes[node].children;
        let mut out: Vec<usize> = Vec::new();
        let mut k: usize = 0;
        proof {
            assert(kids@.take(0) =~= Seq::<usize>::empty());
        }
        while k < kids.len()
            invariant
                tree == tree_view(self.nodes@),
                well_formed(tree),
                node < tree.len(),
                kids@ == tree[node as int].children,
                chars@ == text,
                start <= end <= chars.len(),
                word == text.subrange(start as int, end as int),
                k <= kids.len(),
                out@ == picked(tree, kids@.take(k as int), word, true),
            decreases kids.len() - k,
        {
            let child = kids[k];
            proof {
                assert(tree[node as int].children[k as int] == child);
                assert(child < tree.len());
                assert(kids@.take(k + 1).drop_last() =~= kids@.take(k as int));
                assert(kids@.take(k + 1).last() == child);
                assert(tree[child as int] == self.nodes[child as int]@);
            }
            let is_literal = match self.nodes[child].kind {
                NodeKind::Literal => true,
                _ => false,
            };
            if is_literal && matches_at(&self.nodes[child].name, chars, start, end) {
                out.push(child);
            }
            k = k + 1;
        }
        proof {
            assert(kids@.take(kids.len() as int) =~= kids@);
            assert(kids@.take(0) =~= Seq::<usize>::empty());
        }
        let ghost literals = out@;
        k = 0;
        while k < kids.len()
            invariant
                tree == tree_view(self.nodes@),
                well_formed(tree),
                node < tree.len(),
                kids@ == tree[node as int].children,
                k <= kids.len(),
                out@ == literals + picked(tree, kids@.take(k as int), word, false),
            decreases kids.len() - k,
        {
            let child = kids[k];
            proof {
                assert(tree[node as int].children[k as int] == child);
                assert(child < tree.len());
                assert(kids@.take(k + 1).drop_last() =~= kids@.take(k as int));
                assert(kids@.take(k + 1).last() == child);
                assert(tree[child as int] == self.nodes[child as int]@);
            }
            let is_argument = match self.nodes[child].kind {
                NodeKind::Argument(_) => true,
                _ => false,
            };
            if is_argument {
                let ghost before = picked(tree, kids@.take(k as int), word, false);
                out.push(child);
                proof {
                    assert(out@ =~= literals + before.push(child));
                }
            }
            k = k + 1;
        }
        proof {
            assert(kids@.take(kids.len() as int) =~= kids@);
        }
        out
    }

    /// Whether `source` can use `node`: what it answers for the node's
    /// requirement, and true for a node without one.
    pub fn can_use<S: CommandSource>(&self, node: usize, source: &S) -> (b: bool)
        requires
            node < self.tree().len(),
        ensures
            answers_for(source, self.tree(), node as int, b),
    {
        match self.nodes[node].requirement {
            Some(r) => source.allows(r),
            None => true,
        }
    }

    /// What `source` answers for every node of the tree.
    pub fn answers<S: CommandSource>(&self, source: &S) -> (r: Vec<bool>)
        ensures
            answers_of(source, self.tree(), r@),
    {
        let mut out: Vec<bool> = Vec::new();
        let mut i: usize = 0;
        while i < self.nodes.len()
            invariant
                i <= self.nodes.len(),
                out@.len() == i,
                forall|node: int|
                    0 <= node < i ==> answers_for(source, self.tree(), node, #[trigger] out@[node]),
            decreases self.nodes.len() - i,
        {
            let b = self.can_use(i, source);
            out.push(b);
            i = i + 1;
        }
        out
    }

    /// Parses `node` at the reader's cursor and records it in `context`.
    /// A failure leaves the context as it was.
    pub fn parse_node(
        &self,
        node: usize,
        reader: &mut StringReader,
        context: &mut CommandContext,
    ) -> (r: Result<(), CommandSyntaxError>)
        requires
            node < self.tree().len(),
        ensures
            final(reader).text() == old(reader).text(),
            match spec_parse_node(
                self.tree(),
                node as int,
                old(reader).text(),
                old(reader).position(),
                old(context)@,
            ) {
                Ok((parsed, after)) => r is Ok && final(context)@ == parsed
                    && final(reader).position() == after
                    && old(reader).position() <= after <= old(reader).text().len(),
                Err(e) => r == Err::<(), CommandSyntaxError>(e) && final(context)@ == old(context)@,
            },
    {
        let start = reader.cursor();
        let total = reader.total_length();
        match self.nodes[node].kind {
            NodeKind::Root => Ok(()),
            NodeKind::Literal => {
                let name = &self.nodes[node].name;
                if name.len() <= total - start {
                    let end = start + name.len();
                    if matches_at(name, reader.chars(), start, end) && (end == total
                        || reader.chars()[end] == ' ') {
                        reader.set_cursor(end);
                        context.with_node(node, StringRange { start, end });
                        return Ok(());
                    }
                }
                Err(
                    CommandSyntaxError {
                        kind: BuiltInError::LiteralIncorrect { node },
                        cursor: start,
                    },
                )
            },
            NodeKind::Argument(kind) => {
                match kind.parse(reader) {
                    Ok(value) => {
                        let range = StringRange { start, end: reader.cursor() };
                        context.with_argument(ParsedArgument { node, range, value });
                        context.with_node(node, range);
                        Ok(())
                    },
                    Err(e) => Err(e),
                }
            },
        }
    }

    /// Parses below `node` from the reader's cursor on, `context_so_far`
    /// being what was gathered before. The reader's cursor is left
    /// anywhere.
    fn parse_nodes(
        &self,
        allowed: &Vec<bool>,
        node: usize,
        reader: &mut StringReader,
        context_so_far: CommandContext,
    ) -> (r: Potential)
        requires
            node < self.tree().len(),
        ensures
            final(reader).text() == old(reader).text(),
            r@ == spec_parse_nodes(
                self.tree(),
                allowed@,
                old(reader).text(),
                node as int,
                old(reader).position(),
                context_so_far@,
            ),
            r.cursor <= old(reader).text().len(),
        decreases old(reader).text().len() - old(reader).position(),
    {
        proof {
            use_type_invariant(self);
        }
        let ghost tree = self.tree();
        let ghost text = reader.text();
        let ghost expected = spec_parse_nodes(
            tree,
            allowed@,
            text,
            node as int,
            reader.position(),
            context_so_far@,
        );
        let cursor = reader.cursor();
        let total = reader.total_length();
        let relevant = self.get_relevant_nodes(node, reader);
        let mut errors: Vec<(usize, CommandSyntaxError)> = Vec::new();
        let mut potentials: Vec<Potential> = Vec::new();
        let mut i: usize = 0;
        proof {
            assert(potentials_view(potentials@) =~= Seq::<ParseResultsView>::empty());
        }
        while i < relevant.len()
            invariant
                tree == self.tree(),
                well_formed(tree),
                reader.text() == text,
                text == old(reader).text(),
                cursor == old(reader).position(),
                expected == spec_parse_nodes(
                    tree,
                    allowed@,
                    text,
                    node as int,
                    cursor as int,
                    context_so_far@,
                ),
                total == text.len(),
                cursor <= total,
                node < tree.len(),
                i <= relevant.len(),
                forall|j: int|
                    0 <= j < potentials@.len() ==> (#[trigger] potentials@[j]).cursor <= total,
                spec_parse_children(
                    tree,
                    allowed@,
                    text,
                    relevant@,
                    i as int,
                    cursor as int,
                    context_so_far@,
                    errors@,
                    potentials_view(potentials@),
                ) == expected,
            decreases relevant.len() - i,
        {
            let child = relevant[i];
            let ghost views = potentials_view(potentials@);
            i = i + 1;
            if child >= self.nodes.len() || child >= allowed.len() || !allowed[child] {
                continue ;
            }
            let mut context = context_so_far.clone();
            reader.set_cursor(cursor);
            match self.parse_node(child, reader, &mut context) {
                Err(e) => {
                    errors.push((child, e));
                    continue ;
                },
                Ok(()) => {},
            }
            let after = reader.cursor();
            if after < total && reader.peek() != ' ' {
                errors.push(
                    (
                        child,
                        CommandSyntaxError {
                            kind: BuiltInError::DispatcherExpectedArgumentSeparator,
                            cursor: after,
                        },
                    ),
                );
                continue ;
            }
            proof {
                assert(tree[child as int] == self.nodes[child as int]@);
            }
            context.with_action(self.nodes[child].command);
            match self.nodes[child].redirect {
                Some(target) => {
                    if after < total {
                        reader.skip();
                        let child_context = CommandContext::new(target, after + 1);
                        let below = self.parse_nodes(allowed, target, reader, child_context);
                        let Potential { context: below_context, cursor: below_cursor, exceptions } =
                            below;
                        context.with_child(below_context);
                        return Potential { context, cursor: below_cursor, exceptions };
                    }
                },
                None => {
                    if total - after >= 2 {
                        reader.skip();
                        let below = self.parse_nodes(allowed, child, reader, context);
                        potentials.push(below);
                        proof {
                            assert(potentials_view(potentials@) =~= views.push(below@));
                        }
                        continue ;
                    }
                },
            }
            let here = Potential { context, cursor: after, exceptions: Vec::new() };
            potentials.push(here);
            proof {
                assert(potentials_view(potentials@) =~= views.push(here@));
            }
        }
        if potentials.len() > 0 {
            let best = best_potential(&potentials, total);
            let ghost views = potentials_view(potentials@);
            let chosen = potentials.swap_remove(best);
            proof {
                assert(chosen@ == views[best as int]);
            }
            chosen
        } else {
            Potential { context: context_so_far, cursor, exceptions: errors }
        }
    }

    /// Parses `command` against the whole tree, `allowed` saying of every
    /// node whether it can be used.
    pub fn parse_allowed(&self, command: StringReader, allowed: &Vec<bool>) -> (r: ParseResults)
        ensures
            r.reader.text() == command.text(),
            r.reader.position() <= command.text().len(),
            r@ == spec_parse_nodes(
                self.tree(),
                allowed@,
                command.text(),
                0,
                command.position(),
                ContextView::new(0, command.position() as usize),
            ),
            command.position() == 0 ==> r@ == spec_parse(self.tree(), allowed@, command.text()),
    {
        proof {
            use_type_invariant(self);
        }
        let mut reader = command;
        let context = CommandContext::new(0, reader.cursor());
        let found = self.parse_nodes(allowed, 0, &mut reader, context);
        let Potential { context, cursor, exceptions } = found;
        reader.set_cursor(cursor);
        ParseResults { context, reader, exceptions }
    }

    /// Parses `command` for `source` against the whole tree: the source is
    /// asked of every node whether it can use it, and the parse is the one
    /// that these answers give.
    pub fn parse<S: CommandSource>(&self, command: StringReader, source: &S) -> (r: ParseResults)
        ensures
            r.reader.text() == command.text(),
            exists|allowed: Seq<bool>| #[trigger]
                answers_of(source, self.tree(), allowed) && r@ == spec_parse_nodes(
                    self.tree(),
                    allowed,
                    command.text(),
                    0,
                    command.position(),
                    ContextView::new(0, command.position() as usize),
                ),
    {
        let allowed = self.answers(source);
        self.parse_allowed(command, &allowed)
    }

    /// Executes what was parsed, for `source`. With input left over, the
    /// result is the one error that the parse met, or `UnknownCommand`
    /// where nothing was parsed, or `UnknownArgument`. Else the actions of
    /// the context chain run in the order of the chain, and the number of
    /// the last is the result; where the chain holds no action, the result
    /// is `UnknownCommand`.
    pub fn execute_parsed<S: CommandSource>(&self, parse: ParseResults, source: &S) -> (r: Result<
        i32,
        CommandSyntaxError,
    >)
        ensures
            carries_out(spec_plan(parse@, parse.reader.text()), parse.reader.text(), source, r),
    {
        let cursor = parse.reader.cursor();
        if parse.reader.can_read() {
            if parse.exceptions.len() == 1 {
                return Err(parse.exceptions[0].1);
            } else if parse.context.range.is_empty() {
                return Err(
                    CommandSyntaxError { kind: BuiltInError::DispatcherUnknownCommand, cursor },
                );
            } else {
                return Err(
                    CommandSyntaxError { kind: BuiltInError::DispatcherUnknownArgument, cursor },
                );
            }
        }
        match run_actions(&parse.context, &parse.reader, source) {
            Some(v) => Ok(v),
            None => Err(
                CommandSyntaxError { kind: BuiltInError::DispatcherUnknownCommand, cursor },
            ),
        }
    }

    /// Parses `input` and executes it for `source`.
    pub fn execute<S: CommandSource>(&self, input: &str, source: &S) -> (r: Result<
        i32,
        CommandSyntaxError,
    >)
        ensures
            exists|allowed: Seq<bool>| #[trigger]
                answers_of(source, self.tree(), allowed) && carries_out(
                    spec_execute(self.tree(), allowed, input@),
                    input@,
                    source,
                    r,
                ),
    {
        let reader = StringReader::new(input);
        let parse = self.parse(reader, source);
        self.execute_parsed(parse, source)
    }

    /// The text of the argument that the parse read last for node `node`,
    /// if it read one and it is a text: what the input holds in the
    /// argument's span, with the escapes of a quoted string taken out.
    pub fn argument_text(context: &CommandContext, input: &StringReader, node: usize) -> (r: Option<
        String,
    >)
        ensures
            optional_text(r) == spec_argument_text(context@.arguments, input.text(), node),
    {
        match context.argument(node) {
            Some(found) => match found.value {
                ArgumentValue::Text { range, quoted } => Some(
                    chars_to_string(&input.token_chars(range, quoted)),
                ),
                _ => None,
            },
            None => None,
        }
    }

    /// The child of `parent` named `name`, if it has one.
    pub fn child(&self, parent: usize, name: &str) -> (r: Option<usize>)
        ensures
            r == spec_child(self.tree(), parent as int, name@),
            r matches Some(c) ==> c < self.tree().len(),
    {
        proof {
            use_type_invariant(self);
        }
        if parent >= self.nodes.len() {
            return None;
        }
        let chars = name_chars(name);
        let (p, same) = self.slot(parent, &chars);
        if same {
            let c = self.nodes[parent].children[p];
            proof {
                assert(self.tree()[parent as int].children[p as int] == c);
            }
            Some(c)
        } else {
            None
        }
    }

    /// The node reached from the root by the names of `path`, if every one
    /// of them names a child of the node before.
    pub fn find_node(&self, path: &[&str]) -> (r: Option<usize>)
        ensures
            r == spec_find_node(self.tree(), 0, path_names(path@)),
            r matches Some(n) ==> n < self.tree().len(),
    {
        proof {
            use_type_invariant(self);
        }
        let ghost names = path_names(path@);
        let mut node: usize = 0;
        let mut i: usize = 0;
        proof {
            assert(names.skip(0) =~= names);
        }
        while i < path.len()
            invariant
                names == path_names(path@),
                i <= path.len(),
                node < self.tree().len(),
                spec_find_node(self.tree(), 0, names) == spec_find_node(
                    self.tree(),
                    node as int,
                    names.skip(i as int),
                ),
            decreases path.len() - i,
        {
            proof {
                assert(names.skip(i as int)[0] == path@[i as int]@);
                assert(names.skip(i as int).skip(1) =~= names.skip(i + 1));
            }
            match self.child(node, path[i]) {
                Some(c) => {
                    node = c;
                },
                None => {
                    return None;
                },
            }
            i = i + 1;
        }
        Some(node)
    }
}

/// The text of the argument read last for node `node`, where it is a
/// text.
pub open spec fn spec_argument_text(
    arguments: Seq<ParsedArgument>,
    text: Seq<char>,
    node: usize,
) -> Option<Seq<char>> {
    match last_argument(arguments, node) {
        Some(found) => match found.value {
            ArgumentValue::Text { range, quoted } => Some(token_text(text, range, quoted)),
            _ => None,
        },
        None => None,
    }
}

/// The names that the strings of `path` spell.
pub open spec fn path_names(path: Seq<&str>) -> Seq<Seq<char>> {
    Seq::new(path.len(), |i: int| path[i]@)
}

/// The node reached from `node` by the names of `path`.
pub open spec fn spec_find_node(tree: Seq<NodeView>, node: int, path: Seq<Seq<char>>) -> Option<
    usize,
>
    decreases path.len(),
{
    if path.len() == 0 {
        Some(node as usize)
    } else {
        match spec_child(tree, node, path[0]) {
            Some(c) => spec_find_node(tree, c as int, path.skip(1)),
            None => None,
        }
    }
}

/// Runs the actions of the chain that starts at `context`, in the order of
/// the chain, on the input `input` read to its end. The result is the
/// number that the last action gave; nothing where the chain holds no
/// action.
pub fn run_actions<S: CommandSource>(context: &CommandContext, input: &StringReader, source: &S) -> (r:
    Option<i32>)
    requires
        input.position() == input.text().len(),
    ensures
        match r {
            Some(value) => context@.actions().len() > 0 && can_give(
                source,
                context@.actions().last().0,
                context@.actions().last().1,
                input.text(),
                value,
            ),
            None => context@.actions().len() == 0,
        },
    decreases context,
{
    let own = match context.command {
        Some(action) => {
            let value = source.run(action, context, input);
            proof {
                let ran = *context;
                let read = *input;
                assert(call_ensures(S::run, (source, action, &ran, &read), value));
                assert(can_give(source, action, context@, input.text(), value));
            }
            Some(value)
        },
        None => None,
    };
    match &context.child {
        Some(child) => {
            let below = run_actions(child, input, source);
            match below {
                Some(value) => Some(value),
                None => own,
            }
        },
        None => own,
    }
}

/// What executing comes to is a function of the tree, of the input and of
/// what the source answers: equal trees, equal inputs and equal answers
/// give the same error, or the same actions to run in the same contexts.
pub proof fn lemma_execute_deterministic(
    first: Seq<NodeView>,
    second: Seq<NodeView>,
    allowed: Seq<bool>,
    again_allowed: Seq<bool>,
    input: Seq<char>,
    again: Seq<char>,
)
    requires
        first == second,
        allowed == again_allowed,
        input == again,
    ensures
        spec_execute(first, allowed, input) == spec_execute(second, again_allowed, again),
{
}

/// Where the children of a node gave potentials, the result of the parse
/// is one of them, and none of its siblings is strictly better.
pub proof fn lemma_parse_chooses_best(
    tree: Seq<NodeView>,
    allowed: Seq<bool>,
    text: Seq<char>,
    relevant: Seq<usize>,
    cursor: int,
    context: ContextView,
    errors: Seq<(usize, CommandSyntaxError)>,
    potentials: Seq<ParseResultsView>,
)
    requires
        potentials.len() > 0,
    ensures
        ({
            let chosen = spec_parse_children(
                tree,
                allowed,
                text,
                relevant,
                relevant.len() as int,
                cursor,
                context,
                errors,
                potentials,
            );
            &&& potentials.contains(chosen)
            &&& forall|j: int|
                0 <= j < potentials.len() ==> !strictly_better(
                    #[trigger] potentials[j],
                    chosen,
                    text.len() as int,
                )
        }),
{
    lemma_best_index(potentials, text.len() as int);
}

/// Whether the characters of `chars` from `start` to `end` are `name`.
pub fn matches_at(name: &Vec<char>, chars: &Vec<char>, start: usize, end: usize) -> (b: bool)
    requires
        start <= end <= chars.len(),
    ensures
        b == (chars@.subrange(start as int, end as int) == name@),
{
    let ghost part = chars@.subrange(start as int, end as int);
    if end - start != name.len() {
        return false;
    }
    let mut k: usize = 0;
    while k < name.len()
        invariant
            start <= end <= chars.len(),
            end - start == name.len(),
            part == chars@.subrange(start as int, end as int),
            k <= name.len(),
            forall|j: int| 0 <= j < k ==> part[j] == name@[j],
        decreases name.len() - k,
    {
        if chars[start + k] != name[k] {
            proof {
                assert(part[k as int] != name@[k as int]);
            }
            return false;
        }
        k = k + 1;
    }
    proof {
        assert(part =~= name@);
    }
    true
}

/// Whether `a` is strictly better than `b` as the end of a parse of `len`
/// characters.
pub fn is_strictly_better(a: &Potential, b: &Potential, len: usize) -> (r: bool)
    ensures
        r == strictly_better(a@, b@, len as int),
{
    let a_left = a.cursor < len;
    let b_left = b.cursor < len;
    if !a_left && b_left {
        true
    } else if a_left && !b_left {
        false
    } else {
        a.exceptions.len() == 0 && b.exceptions.len() > 0
    }
}

/// The place of the potential to choose: the first that none is strictly
/// better than.
pub fn best_potential(potentials: &Vec<Potential>, len: usize) -> (best: usize)
    requires
        potentials.len() > 0,
    ensures
        best == best_index(potentials_view(potentials@), len as int),
        best < potentials.len(),
        forall|j: int|
            0 <= j < potentials.len() ==> !strictly_better(
                (#[trigger] potentials@[j])@,
                potentials@[best as int]@,
                len as int,
            ),
{
    let ghost views = potentials_view(potentials@);
    let mut best: usize = 0;
    let mut k: usize = 1;
    proof {
        assert(views.take(1).len() == 1);
    }
    while k < potentials.len()
        invariant
            views == potentials_view(potentials@),
            1 <= k <= potentials.len(),
            best < k,
            best == best_index(views.take(k as int), len as int),
        decreases potentials.len() - k,
    {
        proof {
            assert(views.take(k + 1).drop_last() =~= views.take(k as int));
            assert(views.take(k + 1).last() == potentials@[k as int]@);
            assert(views.take(k + 1)[best as int] == potentials@[best as int]@);
        }
        if is_strictly_better(&potentials[k], &potentials[best], len) {
            best = k;
        }
        k = k + 1;
    }
    proof {
        assert(views.take(potentials.len() as int) =~= views);
        lemma_best_index(views, len as int);
        assert forall|j: int| 0 <= j < potentials.len() implies !strictly_better(
            (#[trigger] potentials@[j])@,
            potentials@[best as int]@,
            len as int,
        ) by {
            assert(views[j] == potentials@[j]@);
        }
    }
    best
}

} // verus!
