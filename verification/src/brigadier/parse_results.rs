//! What a parse gives, and what parsing means: the spec functions that the
//! dispatcher's parser is proved against.

use crate::brigadier::arguments::spec_parse_argument;
use crate::brigadier::context::{CommandContext, ContextView, ParsedArgument};
use crate::brigadier::errors::{BuiltInError, CommandSyntaxError, StringRange};
use crate::brigadier::string_reader::StringReader;
use crate::brigadier::tree::{NodeKind, NodeView};
use vstd::prelude::*;

verus! {

/// The one who gives a command. The tree names requirements and actions by
/// number; the source says which requirements it meets and what each action
/// does.
pub trait CommandSource {
    /// Whether this source meets `requirement`.
    fn allows(&self, requirement: u32) -> bool;

    /// Runs action `command` for this source and gives its result.
    fn run(&self, command: u32, context: &CommandContext, input: &StringReader) -> i32;

    /// The values that provider `provider` suggests to this source for the
    /// argument that begins at `start` in `input`.
    fn suggest(&self, provider: u32, input: &Vec<char>, start: usize) -> Vec<Vec<char>>;
}

/// Whether `usable` is what `source` answers for node `node`: true for a
/// node without a requirement, else an answer that the source can give for
/// the node's requirement.
pub open spec fn answers_for<S: CommandSource>(
    source: &S,
    tree: Seq<NodeView>,
    node: int,
    usable: bool,
) -> bool {
    match tree[node].requirement {
        Some(r) => call_ensures(S::allows, (source, r), usable),
        None => usable,
    }
}

/// Whether `allowed` says of every node of the tree what `source` answers
/// for it.
pub open spec fn answers_of<S: CommandSource>(
    source: &S,
    tree: Seq<NodeView>,
    allowed: Seq<bool>,
) -> bool {
    &&& allowed.len() == tree.len()
    &&& forall|node: int|
        0 <= node < tree.len() ==> answers_for(source, tree, node, #[trigger] allowed[node])
}

/// The mathematical value of a parse's result: the context gathered, the
/// place the reader reached, and the errors met at the last node, each with
/// the child that gave it.
pub struct ParseResultsView {
    pub context: ContextView,
    pub cursor: int,
    pub exceptions: Seq<(usize, CommandSyntaxError)>,
}

/// The result of a parse.
#[derive(Debug, PartialEq, Eq)]
pub struct ParseResults {
    pub context: CommandContext,
    pub reader: StringReader,
    pub exceptions: Vec<(usize, CommandSyntaxError)>,
}

impl View for ParseResults {
    type V = ParseResultsView;

    open spec fn view(&self) -> ParseResultsView {
        ParseResultsView {
            context: self.context@,
            cursor: self.reader.position(),
            exceptions: self.exceptions@,
        }
    }
}

/// One way the parse can end, found while the children of a node are
/// tried.
pub struct Potential {
    pub context: CommandContext,
    pub cursor: usize,
    pub exceptions: Vec<(usize, CommandSyntaxError)>,
}

impl View for Potential {
    type V = ParseResultsView;

    open spec fn view(&self) -> ParseResultsView {
        ParseResultsView {
            context: self.context@,
            cursor: self.cursor as int,
            exceptions: self.exceptions@,
        }
    }
}

/// The values of a list of potentials.
pub open spec fn potentials_view(list: Seq<Potential>) -> Seq<ParseResultsView> {
    Seq::new(list.len(), |i: int| list[i]@)
}

/// The first place at or after `from` where `text` ends or holds a space.
pub open spec fn word_end(text: Seq<char>, from: int) -> int
    decreases text.len() - from,
{
    if from < 0 || from >= text.len() || text[from] == ' ' {
        from
    } else {
        word_end(text, from + 1)
    }
}

/// Whether child `child` is picked: in the round of literals, a literal
/// whose name is `word`; in the round of arguments, any argument.
pub open spec fn is_picked(tree: Seq<NodeView>, child: usize, word: Seq<char>, literals: bool) -> bool {
    child < tree.len() && if literals {
        tree[child as int].kind == NodeKind::Literal && tree[child as int].name == word
    } else {
        tree[child as int].kind is Argument
    }
}

/// The children among `kids` that are picked, in their order.
pub open spec fn picked(tree: Seq<NodeView>, kids: Seq<usize>, word: Seq<char>, literals: bool) -> Seq<
    usize,
>
    decreases kids.len(),
{
    if kids.len() == 0 {
        Seq::empty()
    } else {
        let before = picked(tree, kids.drop_last(), word, literals);
        if is_picked(tree, kids.last(), word, literals) {
            before.push(kids.last())
        } else {
            before
        }
    }
}

/// The children of `node` that the input at `cursor` can concern: first
/// the literals whose name is the input's next word, then the arguments.
pub open spec fn relevant_nodes(tree: Seq<NodeView>, node: int, text: Seq<char>, cursor: int) -> Seq<
    usize,
> {
    let word = text.subrange(cursor, word_end(text, cursor));
    picked(tree, tree[node].children, word, true) + picked(
        tree,
        tree[node].children,
        word,
        false,
    )
}

/// Whether `node` can be used, `allowed` saying so of every node.
pub open spec fn can_use(tree: Seq<NodeView>, node: int, allowed: Seq<bool>) -> bool {
    0 <= node < allowed.len() && allowed[node]
}

/// The place where the literal `name` ends if it stands at `cursor` and is
/// followed by a space or by the end of the input.
pub open spec fn literal_end(name: Seq<char>, text: Seq<char>, cursor: int) -> Option<int> {
    let end = cursor + name.len();
    if end <= text.len() && text.subrange(cursor, end) == name && (end == text.len() || text[end]
        == ' ') {
        Some(end)
    } else {
        None
    }
}

/// Parses `node` at `cursor`: gives the context with the node, and its
/// argument if it is one, and the cursor after it.
pub open spec fn spec_parse_node(
    tree: Seq<NodeView>,
    node: int,
    text: Seq<char>,
    cursor: int,
    context: ContextView,
) -> Result<(ContextView, int), CommandSyntaxError> {
    match tree[node].kind {
        NodeKind::Root => Ok((context, cursor)),
        NodeKind::Literal => match literal_end(tree[node].name, text, cursor) {
            Some(end) => Ok(
                (
                    context.with_node(
                        node as usize,
                        StringRange { start: cursor as usize, end: end as usize },
                    ),
                    end,
                ),
            ),
            None => Err(
                CommandSyntaxError {
                    kind: BuiltInError::LiteralIncorrect { node: node as usize },
                    cursor: cursor as usize,
                },
            ),
        },
        NodeKind::Argument(kind) => match spec_parse_argument(kind, text, cursor) {
            Ok((value, end)) => {
                let range = StringRange { start: cursor as usize, end: end as usize };
                Ok(
                    (
                        context.with_argument(
                            ParsedArgument { node: node as usize, range, value },
                        ).with_node(node as usize, range),
                        end,
                    ),
                )
            },
            Err(e) => Err(e),
        },
    }
}

/// Whether `a` is strictly better than `b`: it left no input where `b` left
/// some, or, both or neither having left input, it met no error where `b`
/// met some.
pub open spec fn strictly_better(a: ParseResultsView, b: ParseResultsView, len: int) -> bool {
    let a_left = a.cursor < len;
    let b_left = b.cursor < len;
    if !a_left && b_left {
        true
    } else if a_left && !b_left {
        false
    } else {
        a.exceptions.len() == 0 && b.exceptions.len() > 0
    }
}

/// The place in `list` of the first potential that none is strictly better
/// than.
pub open spec fn best_index(list: Seq<ParseResultsView>, len: int) -> int
    decreases list.len(),
{
    if list.len() <= 1 {
        0
    } else {
        let before = best_index(list.drop_last(), len);
        if strictly_better(list.last(), list[before], len) {
            list.len() - 1
        } else {
            before
        }
    }
}

/// The potential chosen has no strictly better sibling, and it is strictly
/// better than every sibling found before it.
pub proof fn lemma_best_index(list: Seq<ParseResultsView>, len: int)
    requires
        list.len() > 0,
    ensures
        0 <= best_index(list, len) < list.len(),
        forall|j: int|
            0 <= j < list.len() ==> !strictly_better(
                #[trigger] list[j],
                list[best_index(list, len)],
                len,
            ),
        forall|j: int|
            0 <= j < best_index(list, len) ==> strictly_better(
                list[best_index(list, len)],
                #[trigger] list[j],
                len,
            ),
    decreases list.len(),
{
    if list.len() > 1 {
        let front = list.drop_last();
        lemma_best_index(front, len);
        let before = best_index(front, len);
        assert(front[before] == list[before]);
        assert forall|j: int| 0 <= j < list.len() implies !strictly_better(
            #[trigger] list[j],
            list[best_index(list, len)],
            len,
        ) by {
            if j < list.len() - 1 {
                assert(front[j] == list[j]);
            }
        }
        assert forall|j: int| 0 <= j < best_index(list, len) implies strictly_better(
            list[best_index(list, len)],
            #[trigger] list[j],
            len,
        ) by {
            assert(front[j] == list[j]);
        }
    }
}

/// The result of parsing below `node` from `cursor` on, `context` being
/// what was gathered before.
pub open spec fn spec_parse_nodes(
    tree: Seq<NodeView>,
    allowed: Seq<bool>,
    text: Seq<char>,
    node: int,
    cursor: int,
    context: ContextView,
) -> ParseResultsView
    decreases text.len() - cursor, 1int, 0int,
{
    if 0 <= cursor <= text.len() {
        spec_parse_children(
            tree,
            allowed,
            text,
            relevant_nodes(tree, node, text, cursor),
            0,
            cursor,
            context,
            Seq::empty(),
            Seq::empty(),
        )
    } else {
        ParseResultsView { context, cursor, exceptions: Seq::empty() }
    }
}

/// The result of trying the children `relevant` from the `i`-th on, after
/// the earlier ones gave `errors` and `potentials`.
///
/// A child that the source cannot use is passed over. A child that fails
/// to parse, or is followed by something other than a space, gives an
/// error. A child that parses with input left after it has the parse go on
/// below it, and that gives a potential; below a redirecting child the
/// parse goes on at the redirect's target in a new context, and what that
/// gives is the result at once. A child that parses at the end of the input
/// gives a potential. When all children are tried, the result is the best
/// potential, or, without any, the context as it was with the errors.
pub open spec fn spec_parse_children(
    tree: Seq<NodeView>,
    allowed: Seq<bool>,
    text: Seq<char>,
    relevant: Seq<usize>,
    i: int,
    cursor: int,
    context: ContextView,
    errors: Seq<(usize, CommandSyntaxError)>,
    potentials: Seq<ParseResultsView>,
) -> ParseResultsView
    decreases text.len() - cursor, 0int, relevant.len() - i,
{
    if i < 0 || i >= relevant.len() || cursor < 0 || cursor > text.len() {
        if potentials.len() > 0 {
            potentials[best_index(potentials, text.len() as int)]
        } else {
            ParseResultsView { context, cursor, exceptions: errors }
        }
    } else {
        let child = relevant[i];
        let skip = spec_parse_children(
            tree,
            allowed,
            text,
            relevant,
            i + 1,
            cursor,
            context,
            errors,
            potentials,
        );
        if child >= tree.len() || !can_use(tree, child as int, allowed) {
            skip
        } else {
            match spec_parse_node(tree, child as int, text, cursor, context) {
                Err(e) => spec_parse_children(
                    tree,
                    allowed,
                    text,
                    relevant,
                    i + 1,
                    cursor,
                    context,
                    errors.push((child, e)),
                    potentials,
                ),
                Ok((parsed, after)) => if after < cursor || after > text.len() {
                    skip
                } else if after < text.len() && text[after] != ' ' {
                    spec_parse_children(
                        tree,
                        allowed,
                        text,
                        relevant,
                        i + 1,
                        cursor,
                        context,
                        errors.push(
                            (
                                child,
                                CommandSyntaxError {
                                    kind: BuiltInError::DispatcherExpectedArgumentSeparator,
                                    cursor: after as usize,
                                },
                            ),
                        ),
                        potentials,
                    )
                } else {
                    let found = parsed.with_action(tree[child as int].command);
                    let here = ParseResultsView {
                        context: found,
                        cursor: after,
                        exceptions: Seq::empty(),
                    };
                    match tree[child as int].redirect {
                        Some(target) => if after + 1 <= text.len() {
                            let below = spec_parse_nodes(
                                tree,
                                allowed,
                                text,
                                target as int,
                                after + 1,
                                ContextView::new(target, (after + 1) as usize),
                            );
                            ParseResultsView {
                                context: found.with_child(below.context),
                                cursor: below.cursor,
                                exceptions: below.exceptions,
                            }
                        } else {
                            spec_parse_children(
                                tree,
                                allowed,
                                text,
                                relevant,
                                i + 1,
                                cursor,
                                context,
                                errors,
                                potentials.push(here),
                            )
                        },
                        None => if after + 2 <= text.len() {
                            let below = spec_parse_nodes(
                                tree,
                                allowed,
                                text,
                                child as int,
                                after + 1,
                                found,
                            );
                            spec_parse_children(
                                tree,
                                allowed,
                                text,
                                relevant,
                                i + 1,
                                cursor,
                                context,
                                errors,
                                potentials.push(below),
                            )
                        } else {
                            spec_parse_children(
                                tree,
                                allowed,
                                text,
                                relevant,
                                i + 1,
                                cursor,
                                context,
                                errors,
                                potentials.push(here),
                            )
                        },
                    }
                },
            }
        }
    }
}

/// The result of parsing `text` from its start against the whole tree.
pub open spec fn spec_parse(tree: Seq<NodeView>, allowed: Seq<bool>, text: Seq<char>) -> ParseResultsView {
    spec_parse_nodes(tree, allowed, text, 0, 0, ContextView::new(0, 0))
}

/// What is to be done with a parse: an error, or the actions to run in
/// their order, each with the context to run it in. There is at least one
/// action.
pub type Plan = Result<Seq<(u32, ContextView)>, CommandSyntaxError>;

/// What executing a parse comes to. With input left over it is an error:
/// the one error met, where there is exactly one; else `UnknownCommand`
/// where nothing was parsed and `UnknownArgument` where something was.
/// With all input taken, the actions of the context chain are to run in
/// the order of the chain; where the chain holds no action, the error is
/// `UnknownCommand`.
pub open spec fn spec_plan(parse: ParseResultsView, text: Seq<char>) -> Plan {
    if parse.cursor < text.len() {
        if parse.exceptions.len() == 1 {
            Err(parse.exceptions[0].1)
        } else if parse.context.range.start == parse.context.range.end {
            Err(
                CommandSyntaxError {
                    kind: BuiltInError::DispatcherUnknownCommand,
                    cursor: parse.cursor as usize,
                },
            )
        } else {
            Err(
                CommandSyntaxError {
                    kind: BuiltInError::DispatcherUnknownArgument,
                    cursor: parse.cursor as usize,
                },
            )
        }
    } else {
        if parse.context.actions().len() > 0 {
            Ok(parse.context.actions())
        } else {
            Err(
                CommandSyntaxError {
                    kind: BuiltInError::DispatcherUnknownCommand,
                    cursor: parse.cursor as usize,
                },
            )
        }
    }
}

/// Whether `value` is a number that action `command` of `source` can give
/// when it is run in a context of the value `context`, on the input `text`
/// read to its end.
pub open spec fn can_give<S: CommandSource>(
    source: &S,
    command: u32,
    context: ContextView,
    text: Seq<char>,
    value: i32,
) -> bool {
    exists|ran: CommandContext, input: StringReader|
        ran@ == context && input.text() == text && input.position() == text.len()
            && #[trigger] call_ensures(S::run, (source, command, &ran, &input), value)
}

/// Whether `result` is what executing the plan can give for `source`: the
/// plan's error, or a number that the last of the plan's actions can give.
pub open spec fn carries_out<S: CommandSource>(
    plan: Plan,
    text: Seq<char>,
    source: &S,
    result: Result<i32, CommandSyntaxError>,
) -> bool {
    match plan {
        Err(e) => result == Err::<i32, CommandSyntaxError>(e),
        Ok(actions) => match result {
            Ok(value) => actions.len() > 0 && can_give(
                source,
                actions.last().0,
                actions.last().1,
                text,
                value,
            ),
            Err(_) => false,
        },
    }
}

/// What executing `text` comes to for a source that `allowed` describes.
pub open spec fn spec_execute(tree: Seq<NodeView>, allowed: Seq<bool>, text: Seq<char>) -> Plan {
    spec_plan(spec_parse(tree, allowed, text), text)
}

} // verus!
