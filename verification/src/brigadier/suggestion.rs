//! Suggestions for completing a command at a cursor.

use crate::brigadier::arguments::ArgumentType;
use crate::brigadier::command_dispatcher::CommandDispatcher;
use crate::brigadier::context::{CommandContext, ContextView, ParsedNode};
use crate::brigadier::errors::StringRange;
use crate::brigadier::parse_results::{CommandSource, ParseResults};
use crate::brigadier::text::{
    append_chars, chars_to_string, copy_chars, lines_view, same_chars,
};
use crate::brigadier::tree::{name_chars, NodeKind, NodeView};
use vstd::prelude::*;

verus! {

/// A text that could stand in the span `range` of the input.
#[derive(Debug, PartialEq, Eq)]
pub struct Suggestion {
    pub range: StringRange,
    pub text: Vec<char>,
}

/// The mathematical value of a `Suggestion`.
pub struct SuggestionView {
    pub range: StringRange,
    pub text: Seq<char>,
}

impl View for Suggestion {
    type V = SuggestionView;

    open spec fn view(&self) -> SuggestionView {
        SuggestionView { range: self.range, text: self.text@ }
    }
}

impl Clone for Suggestion {
    fn clone(&self) -> (r: Self)
        ensures
            r@ == self@,
    {
        Suggestion { range: self.range, text: copy_chars(&self.text) }
    }
}

impl Suggestion {
    /// The suggested text as a string.
    pub fn text(&self) -> (s: String)
        ensures
            s@ == self.text@,
    {
        chars_to_string(&self.text)
    }
}

/// Suggestions that all stand in one span of the input.
#[derive(Debug, PartialEq, Eq)]
pub struct Suggestions {
    pub range: StringRange,
    pub suggestions: Vec<Suggestion>,
}

/// The mathematical value of `Suggestions`.
pub struct SuggestionsView {
    pub range: StringRange,
    pub suggestions: Seq<SuggestionView>,
}

/// The values of a list of suggestions.
pub open spec fn suggestion_views(list: Seq<Suggestion>) -> Seq<SuggestionView> {
    Seq::new(list.len(), |i: int| list[i]@)
}

impl View for Suggestions {
    type V = SuggestionsView;

    open spec fn view(&self) -> SuggestionsView {
        SuggestionsView { range: self.range, suggestions: suggestion_views(self.suggestions@) }
    }
}

/// The values of a list of `Suggestions`.
pub open spec fn suggestions_views(list: Seq<Suggestions>) -> Seq<SuggestionsView> {
    Seq::new(list.len(), |i: int| list[i]@)
}

/// No suggestions.
pub open spec fn no_suggestions() -> SuggestionsView {
    SuggestionsView { range: StringRange { start: 0, end: 0 }, suggestions: Seq::empty() }
}

/// The part of `text` from `start` to `end`, or nothing where that is no
/// part of it.
pub open spec fn part(text: Seq<char>, start: int, end: int) -> Seq<char> {
    if 0 <= start <= end <= text.len() {
        text.subrange(start, end)
    } else {
        Seq::empty()
    }
}

/// The suggestion widened to the span `range` of `command`: the characters
/// of the command that the wider span adds stand before and after the
/// text.
pub open spec fn expanded(s: SuggestionView, command: Seq<char>, range: StringRange) -> SuggestionView {
    if s.range == range {
        s
    } else {
        SuggestionView {
            range,
            text: part(command, range.start as int, s.range.start as int) + s.text + part(
                command,
                s.range.end as int,
                range.end as int,
            ),
        }
    }
}

/// All the suggestions of the first `n` of `list`, one list after the
/// other.
pub open spec fn gathered(list: Seq<SuggestionsView>, n: int) -> Seq<SuggestionView>
    decreases n,
{
    if n <= 0 {
        Seq::empty()
    } else {
        gathered(list, n - 1) + list[n - 1].suggestions
    }
}

/// The least start among the spans of the first `n` suggestions, or
/// `start` where they all start later.
pub open spec fn least_start(all: Seq<SuggestionView>, n: int, start: usize) -> usize
    decreases n,
{
    if n <= 0 {
        start
    } else {
        let before = least_start(all, n - 1, start);
        if all[n - 1].range.start < before {
            all[n - 1].range.start
        } else {
            before
        }
    }
}

/// The greatest end among the spans of the first `n` suggestions, or `end`
/// where they all end earlier.
pub open spec fn greatest_end(all: Seq<SuggestionView>, n: int, end: usize) -> usize
    decreases n,
{
    if n <= 0 {
        end
    } else {
        let before = greatest_end(all, n - 1, end);
        if all[n - 1].range.end > before {
            all[n - 1].range.end
        } else {
            before
        }
    }
}

/// Whether one of `list` has the text `text`.
pub open spec fn has_text(list: Seq<SuggestionView>, text: Seq<char>) -> bool {
    exists|i: int| 0 <= i < list.len() && (#[trigger] list[i]).text == text
}

/// The first `n` suggestions widened to `range`, each text once: of
/// suggestions with the same text the first stays.
pub open spec fn widened(all: Seq<SuggestionView>, n: int, command: Seq<char>, range: StringRange) -> Seq<
    SuggestionView,
>
    decreases n,
{
    if n <= 0 {
        Seq::empty()
    } else {
        let before = widened(all, n - 1, command, range);
        let next = expanded(all[n - 1], command, range);
        if has_text(before, next.text) {
            before
        } else {
            before.push(next)
        }
    }
}

/// The suggestions `all` as one: in the span that covers all their spans,
/// each widened to it, each text once. None where there are none.
pub open spec fn spec_create(command: Seq<char>, all: Seq<SuggestionView>) -> SuggestionsView {
    if all.len() == 0 {
        no_suggestions()
    } else {
        let range = StringRange {
            start: least_start(all, all.len() as int, usize::MAX),
            end: greatest_end(all, all.len() as int, 0),
        };
        SuggestionsView { range, suggestions: widened(all, all.len() as int, command, range) }
    }
}

/// Several sets of suggestions as one: none of none, the one of one, and of
/// more the union of their spans with every suggestion widened to it and
/// every text once.
pub open spec fn spec_merge(command: Seq<char>, input: Seq<SuggestionsView>) -> SuggestionsView {
    if input.len() == 0 {
        no_suggestions()
    } else if input.len() == 1 {
        input[0]
    } else {
        spec_create(command, gathered(input, input.len() as int))
    }
}

/// Where the completion of the input at a cursor goes on from: the node
/// whose children can come next and the place where what comes next
/// begins.
#[derive(Clone, Copy, Debug, PartialEq, Eq, Structural)]
pub struct SuggestionContext {
    pub parent: usize,
    pub start_pos: usize,
}

/// One more than `n`, but for the greatest number.
pub open spec fn after(n: usize) -> usize {
    if n < usize::MAX {
        (n + 1) as usize
    } else {
        n
    }
}

/// The suggestion context among the nodes from the `i`-th on, `previous`
/// being the node before them: the node before the first whose span holds
/// the cursor, with that span's start; or the last node, with the start of
/// the context's span.
pub open spec fn context_among(
    nodes: Seq<ParsedNode>,
    i: int,
    previous: usize,
    cursor: usize,
    start: usize,
) -> SuggestionContext
    decreases nodes.len() - i,
{
    if i < 0 || i >= nodes.len() {
        SuggestionContext { parent: previous, start_pos: start }
    } else if nodes[i].range.start <= cursor <= nodes[i].range.end {
        SuggestionContext { parent: previous, start_pos: nodes[i].range.start }
    } else {
        context_among(nodes, i + 1, nodes[i].node, cursor, start)
    }
}

/// The suggestion context of a parse at `cursor`. Where the cursor is
/// beyond the span of the context, it is looked for in the context that a
/// redirect continued in; without one, the last node passed is the parent
/// and what comes next begins one place after it; without any node, the
/// root is the parent. Else the parent is the node before the one whose
/// span holds the cursor.
pub open spec fn spec_find_suggestion_context(context: ContextView, cursor: usize) -> SuggestionContext
    decreases context,
{
    if context.range.end < cursor {
        match context.child {
            Some(child) => spec_find_suggestion_context(*child, cursor),
            None => if context.nodes.len() > 0 {
                SuggestionContext {
                    parent: context.nodes.last().node,
                    start_pos: after(context.nodes.last().range.end),
                }
            } else {
                SuggestionContext { parent: context.root, start_pos: context.range.start }
            },
        }
    } else {
        context_among(context.nodes, 0, context.root, cursor, context.range.start)
    }
}

/// What `std` makes of a text put in lower case: the characters of
/// `str::to_lowercase`.
pub uninterp spec fn lowercase_of(text: Seq<char>) -> Seq<char>;

/// Puts a string in lower case with `str::to_lowercase`. The claim is only
/// that the outcome is the named function of the input.
#[verifier::external_body]
fn lowercase_string(text: &String) -> (r: String)
    ensures
        r@ == lowercase_of(text@),
{
    text.to_lowercase()
}

/// Puts characters in lower case.
fn to_lowercase(chars: &Vec<char>) -> (r: Vec<char>)
    ensures
        r@ == lowercase_of(chars@),
{
    let lower = lowercase_string(&chars_to_string(chars));
    name_chars(lower.as_str())
}

/// Whether `text` begins with `prefix`.
pub open spec fn starts_with(text: Seq<char>, prefix: Seq<char>) -> bool {
    prefix.len() <= text.len() && text.take(prefix.len() as int) == prefix
}

/// The characters of `text` from `start` on, or none where it is shorter.
pub open spec fn from(text: Seq<char>, start: int) -> Seq<char> {
    if 0 <= start <= text.len() {
        text.skip(start)
    } else {
        Seq::empty()
    }
}

/// The suggestion of `candidate`: one, in the span from `start` to the end
/// of the input, where what the input holds there, put in lower case, is
/// how the candidate begins in lower case, and is not the candidate
/// already; else none.
pub open spec fn offer(
    candidate: Seq<char>,
    candidate_lower: Seq<char>,
    input: Seq<char>,
    lower: Seq<char>,
    start: usize,
) -> Seq<SuggestionView> {
    if starts_with(candidate_lower, from(lower, start as int)) && candidate != from(
        input,
        start as int,
    ) {
        seq![
            SuggestionView {
                range: StringRange { start, end: input.len() as usize },
                text: candidate,
            },
        ]
    } else {
        Seq::empty()
    }
}

/// The word `true`.
pub open spec fn word_true() -> Seq<char> {
    seq!['t', 'r', 'u', 'e']
}

/// The word `false`.
pub open spec fn word_false() -> Seq<char> {
    seq!['f', 'a', 'l', 's', 'e']
}

/// What the values of a provider come to, the first `n` of them: each is
/// suggested in the span from `start` to the end of the input, but for one
/// that the input holds there already.
pub open spec fn provided_offers(
    values: Seq<Seq<char>>,
    n: int,
    input: Seq<char>,
    start: usize,
) -> Seq<SuggestionView>
    decreases n,
{
    if n <= 0 {
        Seq::empty()
    } else {
        let before = provided_offers(values, n - 1, input, start);
        if values[n - 1] != from(input, start as int) {
            before.push(
                SuggestionView {
                    range: StringRange { start, end: input.len() as usize },
                    text: values[n - 1],
                },
            )
        } else {
            before
        }
    }
}

/// The provider that suggests for node `node`, if it is an argument that
/// has one.
pub open spec fn provider_of(tree: Seq<NodeView>, node: int) -> Option<u32> {
    if 0 <= node < tree.len() && tree[node].kind is Argument {
        tree[node].suggests
    } else {
        None
    }
}

/// What node `node` suggests for the input `input`, whose lower case is
/// `lower`, from `start` on: the values that its provider gave, where it
/// has one; else a literal suggests its name, a boolean argument the two
/// words it can be, any other node nothing.
pub open spec fn node_suggestions(
    tree: Seq<NodeView>,
    node: int,
    input: Seq<char>,
    lower: Seq<char>,
    start: usize,
    provided: Option<Seq<Seq<char>>>,
) -> SuggestionsView {
    let all = match provided {
        Some(values) => provided_offers(values, values.len() as int, input, start),
        None => match tree[node].kind {
            NodeKind::Literal => offer(
                tree[node].name,
                lowercase_of(tree[node].name),
                input,
                lower,
                start,
            ),
            NodeKind::Argument(ArgumentType::Bool) => offer(
                word_false(),
                word_false(),
                input,
                lower,
                start,
            ) + offer(word_true(), word_true(), input, lower, start),
            _ => Seq::empty(),
        },
    };
    spec_create(input, all)
}

/// What the children `kids` from the `k`-th on suggest, child by child,
/// `provided` holding for each child what its provider gave.
pub open spec fn children_suggestions(
    tree: Seq<NodeView>,
    kids: Seq<usize>,
    k: int,
    input: Seq<char>,
    lower: Seq<char>,
    start: usize,
    provided: Seq<Option<Seq<Seq<char>>>>,
) -> Seq<SuggestionsView>
    decreases kids.len() - k,
{
    if k < 0 || k >= kids.len() {
        Seq::empty()
    } else {
        seq![
            node_suggestions(
                tree,
                kids[k] as int,
                input,
                lower,
                start,
                if k < provided.len() {
                    provided[k]
                } else {
                    None
                },
            ),
        ] + children_suggestions(tree, kids, k + 1, input, lower, start, provided)
    }
}

/// What is asked when a command is to be completed at a cursor: the node
/// whose children can come next, the input up to the cursor, and the place
/// in it where what comes next begins.
pub struct RequestView {
    pub parent: usize,
    pub input: Seq<char>,
    pub start: usize,
}

/// What is asked when `text` is to be completed at `cursor`, after a parse
/// that gathered `context`.
pub open spec fn spec_request(context: ContextView, text: Seq<char>, cursor: usize) -> RequestView {
    let found = spec_find_suggestion_context(context, cursor);
    RequestView {
        parent: found.parent,
        input: part(text, 0, cursor as int),
        start: if found.start_pos < cursor {
            found.start_pos
        } else {
            cursor
        },
    }
}

/// The suggestions that answer a request: what the children of the
/// request's parent suggest, merged over the whole input `text`.
pub open spec fn spec_suggestions_for(
    tree: Seq<NodeView>,
    text: Seq<char>,
    request: RequestView,
    provided: Seq<Option<Seq<Seq<char>>>>,
) -> SuggestionsView {
    if request.parent < tree.len() {
        spec_merge(
            text,
            children_suggestions(
                tree,
                tree[request.parent as int].children,
                0,
                request.input,
                lowercase_of(request.input),
                request.start,
                provided,
            ),
        )
    } else {
        no_suggestions()
    }
}

/// The suggestions for completing `text` at `cursor`, after a parse that
/// gathered `context`: what the children of the suggestion context's
/// parent suggest for the input up to the cursor, merged over the whole
/// input.
pub open spec fn spec_completion_suggestions(
    tree: Seq<NodeView>,
    context: ContextView,
    text: Seq<char>,
    cursor: usize,
    provided: Seq<Option<Seq<Seq<char>>>>,
) -> SuggestionsView {
    spec_suggestions_for(tree, text, spec_request(context, text, cursor), provided)
}

/// Whether `provided` is what `source` gives for a node whose provider is
/// `provider`: nothing for a node without one, else values that the
/// provider can give for the input and the start.
pub open spec fn provides_for<S: CommandSource>(
    source: &S,
    provider: Option<u32>,
    input: Seq<char>,
    start: usize,
    provided: Option<Seq<Seq<char>>>,
) -> bool {
    match provider {
        Some(p) => match provided {
            Some(values) => exists|given: Vec<char>, got: Vec<Vec<char>>|
                given@ == input && lines_view(got@) == values && #[trigger] call_ensures(
                    S::suggest,
                    (source, p, &given, start),
                    got,
                ),
            None => false,
        },
        None => provided is None,
    }
}

/// Whether `provided` holds, for each child of the request's parent, what
/// `source` gives for it.
pub open spec fn provided_by<S: CommandSource>(
    source: &S,
    tree: Seq<NodeView>,
    request: RequestView,
    provided: Seq<Option<Seq<Seq<char>>>>,
) -> bool {
    if request.parent < tree.len() {
        let kids = tree[request.parent as int].children;
        &&& provided.len() == kids.len()
        &&& forall|k: int|
            0 <= k < kids.len() ==> provides_for(
                source,
                provider_of(tree, kids[k] as int),
                request.input,
                request.start,
                #[trigger] provided[k],
            )
    } else {
        provided.len() == 0
    }
}

/// The values of what providers gave.
pub open spec fn provided_view(provided: Seq<Option<Vec<Vec<char>>>>) -> Seq<
    Option<Seq<Seq<char>>>,
> {
    Seq::new(
        provided.len(),
        |k: int|
            match provided[k] {
                Some(values) => Some(lines_view(values@)),
                None => None,
            },
    )
}

/// What is asked when a command is to be completed at a cursor.
#[derive(Debug, PartialEq, Eq)]
pub struct SuggestionRequest {
    /// The node whose children can come next.
    pub parent: usize,
    /// The input up to the cursor.
    pub input: Vec<char>,
    /// The place in the input where what comes next begins.
    pub start: usize,
}

impl View for SuggestionRequest {
    type V = RequestView;

    open spec fn view(&self) -> RequestView {
        RequestView { parent: self.parent, input: self.input@, start: self.start }
    }
}

/// Appends to `out` the part of `text` from `start` to `end`.
fn append_part(out: &mut Vec<char>, text: &Vec<char>, start: usize, end: usize)
    ensures
        final(out)@ == old(out)@ + part(text@, start as int, end as int),
{
    if start <= end && end <= text.len() {
        let mut i = start;
        while i < end
            invariant
                start <= i <= end <= text.len(),
                out@ == old(out)@ + text@.subrange(start as int, i as int),
            decreases end - i,
        {
            out.push(text[i]);
            proof {
                assert(out@ =~= old(out)@ + text@.subrange(start as int, i + 1));
            }
            i = i + 1;
        }
    } else {
        proof {
            assert(out@ =~= old(out)@ + Seq::<char>::empty());
        }
    }
}

/// Whether `text` begins with `prefix`.
fn begins_with(text: &Vec<char>, prefix: &Vec<char>) -> (b: bool)
    ensures
        b == starts_with(text@, prefix@),
{
    if prefix.len() > text.len() {
        return false;
    }
    let mut i: usize = 0;
    while i < prefix.len()
        invariant
            prefix.len() <= text.len(),
            i <= prefix.len(),
            forall|j: int| 0 <= j < i ==> text@[j] == prefix@[j],
        decreases prefix.len() - i,
    {
        if text[i] != prefix[i] {
            proof {
                assert(text@.take(prefix.len() as int)[i as int] != prefix@[i as int]);
            }
            return false;
        }
        i = i + 1;
    }
    proof {
        assert(text@.take(prefix.len() as int) =~= prefix@);
    }
    true
}

/// The characters of `text` from `start` on.
fn rest_of(text: &Vec<char>, start: usize) -> (r: Vec<char>)
    ensures
        r@ == from(text@, start as int),
{
    let mut out: Vec<char> = Vec::new();
    append_part(&mut out, text, start, text.len());
    proof {
        if start <= text.len() {
            assert(text@.subrange(start as int, text.len() as int) =~= text@.skip(start as int));
        }
        assert(out@ =~= from(text@, start as int));
    }
    out
}

impl Suggestion {
    /// This suggestion widened to the span `range` of `command`.
    pub fn expand(&self, command: &Vec<char>, range: StringRange) -> (r: Suggestion)
        ensures
            r@ == expanded(self@, command@, range),
    {
        if self.range.start == range.start && self.range.end == range.end {
            return self.clone();
        }
        let mut text: Vec<char> = Vec::new();
        append_part(&mut text, command, range.start, self.range.start);
        append_chars(&mut text, &self.text);
        append_part(&mut text, command, self.range.end, range.end);
        proof {
            assert(text@ =~= expanded(self@, command@, range).text);
        }
        Suggestion { range, text }
    }
}

impl Suggestions {
    /// No suggestions.
    pub fn none() -> (r: Suggestions)
        ensures
            r@ == no_suggestions(),
    {
        let r = Suggestions { range: StringRange { start: 0, end: 0 }, suggestions: Vec::new() };
        proof {
            assert(suggestion_views(r.suggestions@) =~= Seq::<SuggestionView>::empty());
        }
        r
    }

    /// Whether there are none.
    pub fn is_empty(&self) -> (b: bool)
        ensures
            b == (self@.suggestions.len() == 0),
    {
        self.suggestions.len() == 0
    }

    /// The suggestions `all` as one: in the span that covers all their
    /// spans, each widened to it, each text once, in the order in which
    /// the texts came first.
    pub fn create(command: &Vec<char>, all: &Vec<Suggestion>) -> (r: Suggestions)
        ensures
            r@ == spec_create(command@, suggestion_views(all@)),
    {
        let ghost views = suggestion_views(all@);
        if all.len() == 0 {
            return Suggestions::none();
        }
        let mut start: usize = usize::MAX;
        let mut end: usize = 0;
        let mut i: usize = 0;
        while i < all.len()
            invariant
                views == suggestion_views(all@),
                i <= all.len(),
                start == least_start(views, i as int, usize::MAX),
                end == greatest_end(views, i as int, 0),
            decreases all.len() - i,
        {
            proof {
                assert(views[i as int] == all@[i as int]@);
            }
            if all[i].range.start < start {
                start = all[i].range.start;
            }
            if all[i].range.end > end {
                end = all[i].range.end;
            }
            i = i + 1;
        }
        let range = StringRange { start, end };
        let mut out: Vec<Suggestion> = Vec::new();
        i = 0;
        proof {
            assert(suggestion_views(out@) =~= Seq::<SuggestionView>::empty());
        }
        while i < all.len()
            invariant
                views == suggestion_views(all@),
                i <= all.len(),
                suggestion_views(out@) == widened(views, i as int, command@, range),
            decreases all.len() - i,
        {
            proof {
                assert(views[i as int] == all@[i as int]@);
            }
            let next = all[i].expand(command, range);
            let ghost before = suggestion_views(out@);
            let mut seen = false;
            let mut k: usize = 0;
            while k < out.len()
                invariant
                    before == suggestion_views(out@),
                    k <= out.len(),
                    seen ==> has_text(before, next.text@),
                    !seen ==> forall|j: int| 0 <= j < k ==> (#[trigger] before[j]).text != next.text@,
                decreases out.len() - k,
            {
                proof {
                    assert(before[k as int] == out@[k as int]@);
                }
                if same_chars(&out[k].text, &next.text) {
                    seen = true;
                }
                k = k + 1;
            }
            if !seen {
                out.push(next);
                proof {
                    assert(suggestion_views(out@) =~= before.push(next@));
                }
            }
            i = i + 1;
        }
        Suggestions { range, suggestions: out }
    }

    /// Several sets of suggestions as one.
    pub fn merge(command: &Vec<char>, input: Vec<Suggestions>) -> (r: Suggestions)
        ensures
            r@ == spec_merge(command@, suggestions_views(input@)),
    {
        let ghost views = suggestions_views(input@);
        let mut input = input;
        if input.len() == 0 {
            return Suggestions::none();
        }
        if input.len() == 1 {
            let only = input.pop().unwrap();
            proof {
                assert(only@ == views[0]);
            }
            return only;
        }
        let mut all: Vec<Suggestion> = Vec::new();
        let mut i: usize = 0;
        proof {
            assert(suggestion_views(all@) =~= gathered(views, 0));
        }
        while i < input.len()
            invariant
                views == suggestions_views(input@),
                i <= input.len(),
                suggestion_views(all@) == gathered(views, i as int),
            decreases input.len() - i,
        {
            let ghost before = suggestion_views(all@);
            let list = &input[i].suggestions;
            proof {
                assert(views[i as int] == input@[i as int]@);
            }
            let mut k: usize = 0;
            while k < list.len()
                invariant
                    k <= list.len(),
                    suggestion_views(all@) == before + suggestion_views(list@).take(k as int),
                decreases list.len() - k,
            {
                let ghost so_far = suggestion_views(all@);
                let copy = list[k].clone();
                all.push(copy);
                proof {
                    assert(suggestion_views(all@) =~= so_far.push(copy@));
                    assert(suggestion_views(list@).take(k + 1) =~= suggestion_views(list@).take(
                        k as int,
                    ).push(list@[k as int]@));
                    assert(suggestion_views(all@) =~= before + suggestion_views(list@).take(
                        k + 1,
                    ));
                }
                k = k + 1;
            }
            proof {
                assert(suggestion_views(list@).take(list.len() as int) =~= suggestion_views(list@));
            }
            i = i + 1;
        }
        Suggestions::create(command, &all)
    }
}

impl CommandContext {
    /// Where the completion of the input at `cursor` goes on from.
    pub fn find_suggestion_context(&self, cursor: usize) -> (r: SuggestionContext)
        ensures
            r == spec_find_suggestion_context(self@, cursor),
        decreases self,
    {
        if self.range.end < cursor {
            match &self.child {
                Some(child) => child.find_suggestion_context(cursor),
                None => {
                    if self.nodes.len() > 0 {
                        let last = self.nodes[self.nodes.len() - 1];
                        SuggestionContext {
                            parent: last.node,
                            start_pos: if last.range.end < usize::MAX {
                                last.range.end + 1
                            } else {
                                last.range.end
                            },
                        }
                    } else {
                        SuggestionContext { parent: self.root, start_pos: self.range.start }
                    }
                },
            }
        } else {
            let mut previous = self.root;
            let mut i: usize = 0;
            while i < self.nodes.len()
                invariant
                    i <= self.nodes.len(),
                    self.range.end >= cursor,
                    context_among(self.nodes@, 0, self.root, cursor, self.range.start)
                        == context_among(self.nodes@, i as int, previous, cursor, self.range.start),
                decreases self.nodes.len() - i,
            {
                let node = self.nodes[i];
                if node.range.start <= cursor && cursor <= node.range.end {
                    return SuggestionContext { parent: previous, start_pos: node.range.start };
                }
                previous = node.node;
                i = i + 1;
            }
            SuggestionContext { parent: previous, start_pos: self.range.start }
        }
    }
}

/// The suggestion of `candidate`, if it fits what the input holds from
/// `start` on.
fn offer_candidate(
    out: &mut Vec<Suggestion>,
    candidate: Vec<char>,
    candidate_lower: &Vec<char>,
    input: &Vec<char>,
    lower: &Vec<char>,
    start: usize,
)
    ensures
        suggestion_views(final(out)@) == suggestion_views(old(out)@) + offer(
            candidate@,
            candidate_lower@,
            input@,
            lower@,
            start,
        ),
{
    let remaining = rest_of(input, start);
    let remaining_lower = rest_of(lower, start);
    let ghost before = suggestion_views(out@);
    if begins_with(candidate_lower, &remaining_lower) && !same_chars(&candidate, &remaining) {
        let s = Suggestion { range: StringRange { start, end: input.len() }, text: candidate };
        out.push(s);
        proof {
            assert(suggestion_views(out@) =~= before + seq![s@]);
        }
    } else {
        proof {
            assert(before + Seq::<SuggestionView>::empty() =~= before);
        }
    }
}

impl CommandDispatcher {
    /// What node `node` suggests for `input`, whose lower case is `lower`,
    /// from `start` on, `provided` being what its provider gave, if it has
    /// one.
    pub fn list_suggestions(
        &self,
        node: usize,
        input: &Vec<char>,
        lower: &Vec<char>,
        start: usize,
        provided: &Option<Vec<Vec<char>>>,
    ) -> (r: Suggestions)
        requires
            node < self.tree().len(),
        ensures
            r@ == node_suggestions(
                self.tree(),
                node as int,
                input@,
                lower@,
                start,
                match provided {
                    Some(values) => Some(lines_view(values@)),
                    None => None,
                },
            ),
    {
        let mut all: Vec<Suggestion> = Vec::new();
        proof {
            assert(suggestion_views(all@) =~= Seq::<SuggestionView>::empty());
        }
        let n = match self.node(node) {
            Some(n) => n,
            None => { return Suggestions::none(); },
        };
        match provided {
            Some(values) => {
                let remaining = rest_of(input, start);
                let ghost texts = lines_view(values@);
                let mut i: usize = 0;
                while i < values.len()
                    invariant
                        i <= values.len(),
                        texts == lines_view(values@),
                        remaining@ == from(input@, start as int),
                        suggestion_views(all@) == provided_offers(texts, i as int, input@, start),
                    decreases values.len() - i,
                {
                    proof {
                        assert(texts[i as int] == values@[i as int]@);
                    }
                    if !same_chars(&values[i], &remaining) {
                        let ghost before = suggestion_views(all@);
                        let s = Suggestion {
                            range: StringRange { start, end: input.len() },
                            text: copy_chars(&values[i]),
                        };
                        all.push(s);
                        proof {
                            assert(suggestion_views(all@) =~= before.push(s@));
                        }
                    }
                    i = i + 1;
                }
            },
            None => {
                match n.kind {
                    NodeKind::Literal => {
                        let name_lower = to_lowercase(&n.name);
                        offer_candidate(
                            &mut all,
                            copy_chars(&n.name),
                            &name_lower,
                            input,
                            lower,
                            start,
                        );
                        proof {
                            assert(suggestion_views(all@) =~= offer(
                                n.name@,
                                lowercase_of(n.name@),
                                input@,
                                lower@,
                                start,
                            ));
                        }
                    },
                    NodeKind::Argument(ArgumentType::Bool) => {
                        let mut no: Vec<char> = Vec::new();
                        no.push('f');
                        no.push('a');
                        no.push('l');
                        no.push('s');
                        no.push('e');
                        let mut yes: Vec<char> = Vec::new();
                        yes.push('t');
                        yes.push('r');
                        yes.push('u');
                        yes.push('e');
                        proof {
                            assert(no@ =~= word_false());
                            assert(yes@ =~= word_true());
                        }
                        let no_lower = copy_chars(&no);
                        let yes_lower = copy_chars(&yes);
                        offer_candidate(&mut all, no, &no_lower, input, lower, start);
                        offer_candidate(&mut all, yes, &yes_lower, input, lower, start);
                        proof {
                            assert(suggestion_views(all@) =~= offer(
                                word_false(),
                                word_false(),
                                input@,
                                lower@,
                                start,
                            ) + offer(word_true(), word_true(), input@, lower@, start));
                        }
                    },
                    _ => {},
                }
            },
        }
        Suggestions::create(input, &all)
    }

    /// What is asked when the parsed input is to be completed at `cursor`.
    pub fn suggestion_request(&self, parse: &ParseResults, cursor: usize) -> (r: SuggestionRequest)
        ensures
            r@ == spec_request(parse.context@, parse.reader.text(), cursor),
    {
        let found = parse.context.find_suggestion_context(cursor);
        let start = if found.start_pos < cursor {
            found.start_pos
        } else {
            cursor
        };
        let mut input: Vec<char> = Vec::new();
        append_part(&mut input, parse.reader.chars(), 0, cursor);
        proof {
            assert(input@ =~= part(parse.reader.text(), 0, cursor as int));
        }
        SuggestionRequest { parent: found.parent, input, start }
    }

    /// Asks the providers of the children of the request's parent for
    /// their values: for each child what its provider gives, and nothing
    /// for a child without one.
    pub fn ask_providers<S: CommandSource>(&self, request: &SuggestionRequest, source: &S) -> (r:
        Vec<Option<Vec<Vec<char>>>>)
        ensures
            provided_by(source, self.tree(), request@, provided_view(r@)),
    {
        let ghost tree = self.tree();
        let mut out: Vec<Option<Vec<Vec<char>>>> = Vec::new();
        let parent = match self.node(request.parent) {
            Some(n) => n,
            None => { return out; },
        };
        let kids = &parent.children;
        let mut k: usize = 0;
        while k < kids.len()
            invariant
                tree == self.tree(),
                crate::brigadier::tree::well_formed(tree),
                request.parent < tree.len(),
                kids@ == tree[request.parent as int].children,
                k <= kids.len(),
                out@.len() == k,
                forall|j: int|
                    0 <= j < k ==> provides_for(
                        source,
                        provider_of(tree, kids@[j] as int),
                        request.input@,
                        request.start,
                        #[trigger] provided_view(out@)[j],
                    ),
            decreases kids.len() - k,
        {
            let child = kids[k];
            proof {
                assert(tree[request.parent as int].children[k as int] == child);
                assert(child < tree.len());
            }
            let ghost before = provided_view(out@);
            let wanted = match self.node(child) {
                Some(n) => match n.kind {
                    NodeKind::Argument(_) => n.suggests,
                    _ => None,
                },
                None => None,
            };
            let given = match wanted {
                Some(provider) => {
                    let got = source.suggest(provider, &request.input, request.start);
                    proof {
                        let input = request.input;
                        assert(call_ensures(
                            S::suggest,
                            (source, provider, &input, request.start),
                            got,
                        ));
                        assert(provides_for(
                            source,
                            Some(provider),
                            request.input@,
                            request.start,
                            Some(lines_view(got@)),
                        ));
                    }
                    Some(got)
                },
                None => None,
            };
            out.push(given);
            proof {
                assert(provided_view(out@) =~= before.push(
                    match given {
                        Some(values) => Some(lines_view(values@)),
                        None => None,
                    },
                ));
            }
            k = k + 1;
        }
        out
    }

    /// The suggestions that answer a request, `provided` holding for each
    /// child of the request's parent what its provider gave: what the
    /// children suggest, merged over the whole input.
    pub fn suggestions_for(
        &self,
        full_input: &Vec<char>,
        request: &SuggestionRequest,
        provided: &Vec<Option<Vec<Vec<char>>>>,
    ) -> (r: Suggestions)
        ensures
            r@ == spec_suggestions_for(self.tree(), full_input@, request@, provided_view(provided@)),
    {
        let ghost tree = self.tree();
        let ghost given = provided_view(provided@);
        let lower = to_lowercase(&request.input);
        let parent = match self.node(request.parent) {
            Some(n) => n,
            None => { return Suggestions::none(); },
        };
        let kids = &parent.children;
        let mut all_suggestions: Vec<Suggestions> = Vec::new();
        let mut k: usize = kids.len();
        proof {
            assert(suggestions_views(all_suggestions@) =~= children_suggestions(
                tree,
                kids@,
                k as int,
                request.input@,
                lower@,
                request.start,
                given,
            ));
        }
        while k > 0
            invariant
                tree == self.tree(),
                given == provided_view(provided@),
                request.parent < tree.len(),
                kids@ == tree[request.parent as int].children,
                crate::brigadier::tree::well_formed(tree),
                k <= kids.len(),
                suggestions_views(all_suggestions@) == children_suggestions(
                    tree,
                    kids@,
                    k as int,
                    request.input@,
                    lower@,
                    request.start,
                    given,
                ),
            decreases k,
        {
            k = k - 1;
            let child = kids[k];
            proof {
                assert(tree[request.parent as int].children[k as int] == child);
                assert(child < tree.len());
            }
            let ghost before = suggestions_views(all_suggestions@);
            let nothing: Option<Vec<Vec<char>>> = None;
            let suggestions = if k < provided.len() {
                self.list_suggestions(child, &request.input, &lower, request.start, &provided[k])
            } else {
                self.list_suggestions(child, &request.input, &lower, request.start, &nothing)
            };
            all_suggestions.insert(0, suggestions);
            proof {
                assert(suggestions_views(all_suggestions@) =~= seq![suggestions@] + before);
            }
        }
        Suggestions::merge(full_input, all_suggestions)
    }

    /// The suggestions for completing the parsed input at its end.
    pub fn get_completion_suggestions<S: CommandSource>(
        &self,
        parse: &ParseResults,
        source: &S,
    ) -> (r: Suggestions)
        ensures
            exists|provided: Seq<Option<Seq<Seq<char>>>>| #[trigger]
                provided_by(
                    source,
                    self.tree(),
                    spec_request(
                        parse.context@,
                        parse.reader.text(),
                        parse.reader.text().len() as usize,
                    ),
                    provided,
                ) && r@ == spec_completion_suggestions(
                    self.tree(),
                    parse.context@,
                    parse.reader.text(),
                    parse.reader.text().len() as usize,
                    provided,
                ),
    {
        let cursor = parse.reader.total_length();
        self.get_completion_suggestions_with_cursor(parse, cursor, source)
    }

    /// The suggestions for completing the parsed input at `cursor`: what
    /// the children of the suggestion context's parent suggest for the
    /// input up to the cursor, merged over the whole input. The providers
    /// of those children are asked through `source`.
    pub fn get_completion_suggestions_with_cursor<S: CommandSource>(
        &self,
        parse: &ParseResults,
        cursor: usize,
        source: &S,
    ) -> (r: Suggestions)
        ensures
            exists|provided: Seq<Option<Seq<Seq<char>>>>| #[trigger]
                provided_by(
                    source,
                    self.tree(),
                    spec_request(parse.context@, parse.reader.text(), cursor),
                    provided,
                ) && r@ == spec_completion_suggestions(
                    self.tree(),
                    parse.context@,
                    parse.reader.text(),
                    cursor,
                    provided,
                ),
    {
        let request = self.suggestion_request(parse, cursor);
        let provided = self.ask_providers(&request, source);
        self.suggestions_for(parse.reader.chars(), &request, &provided)
    }
}

} // verus!
