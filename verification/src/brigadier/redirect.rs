//! A redirect that leads back to the root: after it the input goes on as
//! if it began anew, so that a command can be given over and over in one
//! line.

use crate::brigadier::context::{ContextView, ParsedNode};
use crate::brigadier::errors::{CommandSyntaxError, StringRange};
use crate::brigadier::parse_results::{
    answers_of, best_index, literal_end, picked, relevant_nodes, spec_execute, spec_parse,
    spec_parse_children, spec_parse_node, spec_parse_nodes, word_end, CommandSource,
    ParseResultsView,
};
use crate::brigadier::tree::{well_formed, NodeKind, NodeView};
use vstd::prelude::*;

verus! {

/// A tree of three nodes: the root; below it the literal `a`, with the
/// action `action`; below that the literal `b`, without an action, which
/// redirects to the root.
pub open spec fn looping_tree(action: u32) -> Seq<NodeView> {
    seq![
        NodeView {
            kind: NodeKind::Root,
            name: Seq::empty(),
            children: seq![1usize],
            command: None,
            requirement: None,
            redirect: None,
            suggests: None,
        },
        NodeView {
            kind: NodeKind::Literal,
            name: seq!['a'],
            children: seq![2usize],
            command: Some(action),
            requirement: None,
            redirect: None,
            suggests: None,
        },
        NodeView {
            kind: NodeKind::Literal,
            name: seq!['b'],
            children: Seq::empty(),
            command: None,
            requirement: None,
            redirect: Some(0usize),
            suggests: None,
        },
    ]
}

/// The input `a b a b`.
pub open spec fn looping_input() -> Seq<char> {
    seq!['a', ' ', 'b', ' ', 'a', ' ', 'b']
}

/// The context of a parse that began at `start`, passed `a` there and `b`
/// two places on, and goes on in `child`.
pub open spec fn looped_context(
    action: u32,
    start: usize,
    child: Option<Box<ContextView>>,
) -> ContextView {
    ContextView {
        root: 0,
        nodes: seq![
            ParsedNode {
                node: 1,
                range: StringRange { start, end: (start + 1) as usize },
            },
            ParsedNode {
                node: 2,
                range: StringRange { start: (start + 2) as usize, end: (start + 3) as usize },
            },
        ],
        arguments: Seq::empty(),
        command: Some(action),
        range: StringRange { start, end: (start + 3) as usize },
        child,
    }
}

/// What the parse of `a b a b` gathers in the looping tree: a context for
/// the first `a b`, continued in one for the second.
pub open spec fn looped_twice(action: u32) -> ContextView {
    looped_context(action, 0, Some(Box::new(looped_context(action, 4, None))))
}

/// The children that the input concerns: below the root `a`, where an `a`
/// stands, and below `a` the `b`, where a `b` stands.
proof fn lemma_looping_relevant(action: u32)
    ensures
        relevant_nodes(looping_tree(action), 0, looping_input(), 0) == seq![1usize],
        relevant_nodes(looping_tree(action), 1, looping_input(), 2) == seq![2usize],
        relevant_nodes(looping_tree(action), 0, looping_input(), 4) == seq![1usize],
        relevant_nodes(looping_tree(action), 1, looping_input(), 6) == seq![2usize],
{
    let tree = looping_tree(action);
    let text = looping_input();
    reveal_with_fuel(word_end, 3);
    reveal_with_fuel(picked, 3);
    assert(text.subrange(0, 1) =~= seq!['a']);
    assert(text.subrange(2, 3) =~= seq!['b']);
    assert(text.subrange(4, 5) =~= seq!['a']);
    assert(text.subrange(6, 7) =~= seq!['b']);
    assert(seq!['a'] != seq!['b']) by {
        assert(seq!['a'][0] != seq!['b'][0]);
    }
    assert(seq![1usize].drop_last() =~= Seq::<usize>::empty());
    assert(seq![2usize].drop_last() =~= Seq::<usize>::empty());
    assert(picked(tree, seq![1usize], seq!['a'], true) =~= seq![1usize]);
    assert(picked(tree, seq![1usize], seq!['a'], false) =~= Seq::<usize>::empty());
    assert(picked(tree, seq![2usize], seq!['b'], true) =~= seq![2usize]);
    assert(picked(tree, seq![2usize], seq!['b'], false) =~= Seq::<usize>::empty());
    assert(relevant_nodes(tree, 0, text, 0) =~= seq![1usize]);
    assert(relevant_nodes(tree, 1, text, 2) =~= seq![2usize]);
    assert(relevant_nodes(tree, 0, text, 4) =~= seq![1usize]);
    assert(relevant_nodes(tree, 1, text, 6) =~= seq![2usize]);
}

/// Where the literals of the input end.
proof fn lemma_looping_literals(action: u32)
    ensures
        literal_end(seq!['a'], looping_input(), 0) == Some(1int),
        literal_end(seq!['b'], looping_input(), 2) == Some(3int),
        literal_end(seq!['a'], looping_input(), 4) == Some(5int),
        literal_end(seq!['b'], looping_input(), 6) == Some(7int),
{
    let text = looping_input();
    assert(text.subrange(0, 1) =~= seq!['a']);
    assert(text.subrange(2, 3) =~= seq!['b']);
    assert(text.subrange(4, 5) =~= seq!['a']);
    assert(text.subrange(6, 7) =~= seq!['b']);
}

/// Below `a`, a `b` at the end of the input is taken, and the parse ends
/// there.
proof fn lemma_last_word(action: u32, allowed: Seq<bool>, context: ContextView)
    requires
        allowed == seq![true, true, true],
    ensures
        spec_parse_nodes(looping_tree(action), allowed, looping_input(), 1, 6, context) == (
        ParseResultsView {
            context: context.with_node(2, StringRange { start: 6, end: 7 }),
            cursor: 7,
            exceptions: Seq::empty(),
        }),
{
    let tree = looping_tree(action);
    let text = looping_input();
    lemma_looping_relevant(action);
    lemma_looping_literals(action);
    reveal_with_fuel(spec_parse_children, 3);
    reveal_with_fuel(best_index, 2);
    let found = context.with_node(2, StringRange { start: 6, end: 7 });
    assert(spec_parse_node(tree, 2, text, 6, context) == Ok::<
        (ContextView, int),
        CommandSyntaxError,
    >((found, 7int)));
    let here = ParseResultsView { context: found, cursor: 7, exceptions: Seq::empty() };
    let none = Seq::<(usize, CommandSyntaxError)>::empty();
    let potentials = Seq::<ParseResultsView>::empty().push(here);
    let relevant = seq![2usize];
    let rest =
        spec_parse_children(tree, allowed, text, relevant, 1, 6, context, none, potentials);
    assert(best_index(potentials, 7) == 0);
    assert(rest == potentials[0]);
    assert(found.with_action(None) == found);
    let all = spec_parse_children(
        tree,
        allowed,
        text,
        relevant,
        0,
        6,
        context,
        none,
        Seq::<ParseResultsView>::empty(),
    );
    assert(all == rest);
}

/// Below the root, `a b` at the end of the input is taken whole.
proof fn lemma_last_command(action: u32, allowed: Seq<bool>)
    requires
        allowed == seq![true, true, true],
    ensures
        spec_parse_nodes(
            looping_tree(action),
            allowed,
            looping_input(),
            0,
            4,
            ContextView::new(0, 4),
        ) == (ParseResultsView {
            context: looped_context(action, 4, None),
            cursor: 7,
            exceptions: Seq::empty(),
        }),
{
    let tree = looping_tree(action);
    let text = looping_input();
    lemma_looping_relevant(action);
    lemma_looping_literals(action);
    reveal_with_fuel(spec_parse_children, 3);
    reveal_with_fuel(best_index, 2);
    let start = ContextView::new(0, 4);
    let parsed = start.with_node(1, StringRange { start: 4, end: 5 });
    assert(spec_parse_node(tree, 1, text, 4, start) == Ok::<
        (ContextView, int),
        CommandSyntaxError,
    >((parsed, 5int)));
    let found = parsed.with_action(Some(action));
    lemma_last_word(action, allowed, found);
    let below = spec_parse_nodes(tree, allowed, text, 1, 6, found);
    assert(below.context.nodes =~= looped_context(action, 4, None).nodes);
    assert(below.context == looped_context(action, 4, None));
    let none = Seq::<(usize, CommandSyntaxError)>::empty();
    let potentials = Seq::<ParseResultsView>::empty().push(below);
    let relevant = seq![1usize];
    let rest =
        spec_parse_children(tree, allowed, text, relevant, 1, 4, start, none, potentials);
    assert(best_index(potentials, 7) == 0);
    assert(rest == potentials[0]);
    let all = spec_parse_children(
        tree,
        allowed,
        text,
        relevant,
        0,
        4,
        start,
        none,
        Seq::<ParseResultsView>::empty(),
    );
    assert(all == rest);
}

/// Below `a`, the `b` in the middle of the input is taken, and the parse
/// goes on at the root in a new context.
proof fn lemma_middle_word(action: u32, allowed: Seq<bool>, context: ContextView)
    requires
        allowed == seq![true, true, true],
    ensures
        spec_parse_nodes(looping_tree(action), allowed, looping_input(), 1, 2, context) == (
        ParseResultsView {
            context: context.with_node(2, StringRange { start: 2, end: 3 }).with_child(
                looped_context(action, 4, None),
            ),
            cursor: 7,
            exceptions: Seq::empty(),
        }),
{
    let tree = looping_tree(action);
    let text = looping_input();
    lemma_looping_relevant(action);
    lemma_looping_literals(action);
    lemma_last_command(action, allowed);
    reveal_with_fuel(spec_parse_children, 2);
    let found = context.with_node(2, StringRange { start: 2, end: 3 });
    assert(spec_parse_node(tree, 2, text, 2, context) == Ok::<
        (ContextView, int),
        CommandSyntaxError,
    >((found, 3int)));
}

/// In the looping tree the whole of `a b a b` is parsed: the first `a b`
/// in one context, and after the redirect the second in another.
pub proof fn lemma_looping_parse(action: u32, allowed: Seq<bool>)
    requires
        allowed == seq![true, true, true],
    ensures
        spec_parse(looping_tree(action), allowed, looping_input()) == (ParseResultsView {
            context: looped_twice(action),
            cursor: 7,
            exceptions: Seq::empty(),
        }),
{
    let tree = looping_tree(action);
    let text = looping_input();
    lemma_looping_relevant(action);
    lemma_looping_literals(action);
    reveal_with_fuel(spec_parse_children, 3);
    reveal_with_fuel(best_index, 2);
    let start = ContextView::new(0, 0);
    let parsed = start.with_node(1, StringRange { start: 0, end: 1 });
    assert(spec_parse_node(tree, 1, text, 0, start) == Ok::<
        (ContextView, int),
        CommandSyntaxError,
    >((parsed, 1int)));
    let found = parsed.with_action(Some(action));
    lemma_middle_word(action, allowed, found);
    let below = spec_parse_nodes(tree, allowed, text, 1, 2, found);
    assert(below.context.nodes =~= looped_twice(action).nodes);
    assert(below.context == looped_twice(action));
    let none = Seq::<(usize, CommandSyntaxError)>::empty();
    let potentials = Seq::<ParseResultsView>::empty().push(below);
    let relevant = seq![1usize];
    let rest =
        spec_parse_children(tree, allowed, text, relevant, 1, 0, start, none, potentials);
    assert(best_index(potentials, 7) == 0);
    assert(rest == potentials[0]);
    let all = spec_parse_children(
        tree,
        allowed,
        text,
        relevant,
        0,
        0,
        start,
        none,
        Seq::<ParseResultsView>::empty(),
    );
    assert(all == rest);
}

/// A command can be given again after a redirect to the root. In the tree
/// where `a` has an action and its child `b` redirects to the root,
/// executing `a b a b` takes the whole input and succeeds, whatever the
/// source: the action of `a` is to run twice, once in the context of each
/// `a b`, and the result is what the second run gives.
pub proof fn lemma_redirect_to_root_repeats<S: CommandSource>(
    source: &S,
    action: u32,
    allowed: Seq<bool>,
)
    requires
        answers_of(source, looping_tree(action), allowed),
    ensures
        well_formed(looping_tree(action)),
        spec_parse(looping_tree(action), allowed, looping_input()).cursor == looping_input().len(),
        spec_execute(looping_tree(action), allowed, looping_input()) == Ok::<
            Seq<(u32, ContextView)>,
            CommandSyntaxError,
        >(seq![(action, looped_twice(action)), (action, looped_context(action, 4, None))]),
{
    let tree = looping_tree(action);
    assert(allowed =~= seq![true, true, true]) by {
        assert(allowed[0] && allowed[1] && allowed[2]);
    }
    lemma_looping_parse(action, allowed);
    reveal_with_fuel(ContextView::actions, 3);
    let whole = looped_twice(action);
    let second = looped_context(action, 4, None);
    assert(second.actions() =~= seq![(action, second)]);
    assert(whole.actions() =~= seq![(action, whole), (action, second)]);
    assert(well_formed(tree)) by {
        assert(tree[0].children =~= seq![1usize]);
        assert(tree[1].children =~= seq![2usize]);
        assert(tree[2].children =~= Seq::<usize>::empty());
    }
}

} // verus!
