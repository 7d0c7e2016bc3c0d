//! What can go wrong while a command is read or dispatched.

use vstd::prelude::*;

verus! {

/// A span of the input, from `start` up to but not including `end`, counted
/// in characters.
#[derive(Clone, Copy, Debug, PartialEq, Eq, Structural)]
pub struct StringRange {
    pub start: usize,
    pub end: usize,
}

impl StringRange {
    /// The empty span at `pos`.
    pub fn at(pos: usize) -> (r: StringRange)
        ensures
            r == (StringRange { start: pos, end: pos }),
    {
        StringRange { start: pos, end: pos }
    }

    /// The span from `start` to `end`.
    pub fn between(start: usize, end: usize) -> (r: StringRange)
        ensures
            r == (StringRange { start, end }),
    {
        StringRange { start, end }
    }

    /// The smallest span that covers both `a` and `b`.
    pub open spec fn spec_encompassing(a: StringRange, b: StringRange) -> StringRange {
        StringRange {
            start: if a.start <= b.start {
                a.start
            } else {
                b.start
            },
            end: if a.end >= b.end {
                a.end
            } else {
                b.end
            },
        }
    }

    /// The smallest span that covers both `a` and `b`.
    pub fn encompassing(a: &StringRange, b: &StringRange) -> (r: StringRange)
        ensures
            r == Self::spec_encompassing(*a, *b),
    {
        StringRange {
            start: if a.start <= b.start {
                a.start
            } else {
                b.start
            },
            end: if a.end >= b.end {
                a.end
            } else {
                b.end
            },
        }
    }

    /// Whether the span holds no character.
    pub fn is_empty(&self) -> (b: bool)
        ensures
            b == (self.start == self.end),
    {
        self.start == self.end
    }

    /// The number of characters in the span; 0 where it ends before it
    /// starts.
    pub fn length(&self) -> (n: usize)
        ensures
            n == if self.end >= self.start {
                self.end - self.start
            } else {
                0
            },
    {
        if self.end >= self.start {
            self.end - self.start
        } else {
            0
        }
    }
}

/// The kinds of error of the reader and of the dispatcher.
#[allow(inconsistent_fields)]
#[derive(Clone, Copy, Debug, PartialEq, Eq, Structural)]
pub enum BuiltInError {
    /// A quoted string was expected to start here.
    ReaderExpectedStartOfQuote,
    /// The input ended inside a quoted string.
    ReaderExpectedEndOfQuote,
    /// A backslash in a quoted string was followed by `character`, which
    /// cannot be escaped.
    ReaderInvalidEscape { character: char },
    /// The text at `value` is neither `true` nor `false`.
    ReaderInvalidBool { value: StringRange },
    /// A boolean was expected, and nothing was there.
    ReaderExpectedBool,
    /// The text at `value` is not a 32-bit integer.
    ReaderInvalidInt { value: StringRange },
    /// An integer was expected, and nothing was there.
    ReaderExpectedInt,
    /// The text at `value` is not a 64-bit integer.
    ReaderInvalidLong { value: StringRange },
    /// A long integer was expected, and nothing was there.
    ReaderExpectedLong,
    /// The character `symbol` was expected.
    ReaderExpectedSymbol { symbol: char },
    /// An integer argument was below its minimum.
    IntegerTooSmall { found: i32, min: i32 },
    /// An integer argument was above its maximum.
    IntegerTooBig { found: i32, max: i32 },
    /// A long argument was below its minimum.
    LongTooSmall { found: i64, min: i64 },
    /// A long argument was above its maximum.
    LongTooBig { found: i64, max: i64 },
    /// The literal of node `node` was expected.
    LiteralIncorrect { node: usize },
    /// No command matched the input.
    DispatcherUnknownCommand,
    /// A command matched, and the input went on with something unknown.
    DispatcherUnknownArgument,
    /// An argument was followed by something other than a space.
    DispatcherExpectedArgumentSeparator,
}

/// An error with the place in the input where it was found.
#[derive(Clone, Copy, Debug, PartialEq, Eq, Structural)]
pub struct CommandSyntaxError {
    pub kind: BuiltInError,
    pub cursor: usize,
}

impl BuiltInError {
    /// This kind of error, found at `cursor`.
    pub fn create_at(self, cursor: usize) -> (e: CommandSyntaxError)
        ensures
            e == (CommandSyntaxError { kind: self, cursor }),
    {
        CommandSyntaxError { kind: self, cursor }
    }
}


/// How many characters before the cursor an error's excerpt shows.
pub const CONTEXT_AMOUNT: usize = 10;

/// The mark that ends an error's excerpt.
pub open spec fn here_mark() -> Seq<char> {
    seq!['<', '-', '-', '[', 'H', 'E', 'R', 'E', ']']
}

/// The excerpt of `input` that shows where an error at `cursor` was found:
/// the ten characters before the cursor, after three dots where more come
/// before them, and the mark. A cursor beyond the input counts as its end.
pub open spec fn spec_context(input: Seq<char>, cursor: usize) -> Seq<char> {
    let end = if cursor <= input.len() {
        cursor as int
    } else {
        input.len() as int
    };
    let start = if end > CONTEXT_AMOUNT {
        end - CONTEXT_AMOUNT
    } else {
        0
    };
    (if end > CONTEXT_AMOUNT {
        seq!['.', '.', '.']
    } else {
        Seq::empty()
    }) + input.subrange(start, end) + here_mark()
}

impl CommandSyntaxError {
    /// The excerpt of `input` that shows where the error was found.
    pub fn context(&self, input: &Vec<char>) -> (r: Vec<char>)
        ensures
            r@ == spec_context(input@, self.cursor),
    {
        let end = if self.cursor <= input.len() {
            self.cursor
        } else {
            input.len()
        };
        let start = if end > CONTEXT_AMOUNT {
            end - CONTEXT_AMOUNT
        } else {
            0
        };
        let mut out: Vec<char> = Vec::new();
        if end > CONTEXT_AMOUNT {
            out.push('.');
            out.push('.');
            out.push('.');
        }
        let ghost head = out@;
        let mut i = start;
        while i < end
            invariant
                start <= i <= end <= input.len(),
                out@ == head + input@.subrange(start as int, i as int),
            decreases end - i,
        {
            out.push(input[i]);
            proof {
                assert(out@ =~= head + input@.subrange(start as int, i + 1));
            }
            i = i + 1;
        }
        let ghost body = out@;
        out.push('<');
        out.push('-');
        out.push('-');
        out.push('[');
        out.push('H');
        out.push('E');
        out.push('R');
        out.push('E');
        out.push(']');
        proof {
            assert(out@ =~= body + here_mark());
            assert(out@ =~= spec_context(input@, self.cursor));
        }
        out
    }
}

} // verus!
