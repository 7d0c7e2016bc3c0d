//! The argument types that a node can ask for, and their parsers.

use crate::brigadier::errors::{BuiltInError, CommandSyntaxError, StringRange};
use crate::brigadier::string_reader::{
    lemma_read_until_bounds, lemma_scan_end, spec_read_boolean, spec_read_number,
    spec_read_string, spec_read_unquoted, ReadOutcome, StringReader,
};
use vstd::prelude::*;

verus! {

/// The grammar of one argument.
#[allow(inconsistent_fields)]
#[derive(Clone, Copy, Debug, PartialEq, Eq, Structural)]
pub enum ArgumentType {
    /// `true` or `false`.
    Bool,
    /// A 32-bit integer from `min` to `max`.
    Integer { min: i32, max: i32 },
    /// A 64-bit integer from `min` to `max`.
    Long { min: i64, max: i64 },
    /// One unquoted word.
    Word,
    /// One word, or a phrase in quotes.
    QuotablePhrase,
    /// All the rest of the input.
    GreedyPhrase,
}

/// What an argument was parsed to. A text is kept as the span of the input
/// that holds it, and whether that span was quoted.
#[derive(Clone, Copy, Debug, PartialEq, Eq, Structural)]
pub enum ArgumentValue {
    Bool(bool),
    Integer(i32),
    Long(i64),
    Text { range: StringRange, quoted: bool },
}

/// Parses an argument of type `kind` at `cursor`. A value out of its
/// bounds is an error found where the argument began.
pub open spec fn spec_parse_argument(kind: ArgumentType, text: Seq<char>, cursor: int) -> ReadOutcome<
    ArgumentValue,
> {
    match kind {
        ArgumentType::Bool => match spec_read_boolean(text, cursor) {
            Ok((v, end)) => Ok((ArgumentValue::Bool(v), end)),
            Err(e) => Err(e),
        },
        ArgumentType::Integer { min, max } => match spec_read_number(text, cursor, false) {
            Ok((v, end)) => if v < min {
                Err(
                    CommandSyntaxError {
                        kind: BuiltInError::IntegerTooSmall { found: v as i32, min },
                        cursor: cursor as usize,
                    },
                )
            } else if v > max {
                Err(
                    CommandSyntaxError {
                        kind: BuiltInError::IntegerTooBig { found: v as i32, max },
                        cursor: cursor as usize,
                    },
                )
            } else {
                Ok((ArgumentValue::Integer(v as i32), end))
            },
            Err(e) => Err(e),
        },
        ArgumentType::Long { min, max } => match spec_read_number(text, cursor, true) {
            Ok((v, end)) => if v < min {
                Err(
                    CommandSyntaxError {
                        kind: BuiltInError::LongTooSmall { found: v as i64, min },
                        cursor: cursor as usize,
                    },
                )
            } else if v > max {
                Err(
                    CommandSyntaxError {
                        kind: BuiltInError::LongTooBig { found: v as i64, max },
                        cursor: cursor as usize,
                    },
                )
            } else {
                Ok((ArgumentValue::Long(v as i64), end))
            },
            Err(e) => Err(e),
        },
        ArgumentType::Word => {
            let (range, end) = spec_read_unquoted(text, cursor);
            Ok((ArgumentValue::Text { range, quoted: false }, end))
        },
        ArgumentType::QuotablePhrase => match spec_read_string(text, cursor) {
            Ok(((range, quoted), end)) => Ok((ArgumentValue::Text { range, quoted }, end)),
            Err(e) => Err(e),
        },
        ArgumentType::GreedyPhrase => Ok(
            (
                ArgumentValue::Text {
                    range: StringRange { start: cursor as usize, end: text.len() as usize },
                    quoted: false,
                },
                text.len() as int,
            ),
        ),
    }
}

/// A parsed argument ends inside the text, at or after the place where it
/// began.
pub proof fn lemma_parse_argument_bounds(kind: ArgumentType, text: Seq<char>, cursor: int)
    requires
        0 <= cursor <= text.len() <= usize::MAX,
    ensures
        spec_parse_argument(kind, text, cursor) matches Ok((_, end)) ==> cursor <= end
            <= text.len(),
{
    lemma_scan_end(text, cursor, true);
    lemma_scan_end(text, cursor, false);
    if cursor < text.len() {
        lemma_read_until_bounds(text, cursor + 1, text[cursor], false);
    }
}

impl ArgumentType {
    /// Any 32-bit integer.
    pub fn integer() -> (t: ArgumentType)
        ensures
            t == (ArgumentType::Integer { min: i32::MIN, max: i32::MAX }),
    {
        ArgumentType::Integer { min: i32::MIN, max: i32::MAX }
    }

    /// Any 64-bit integer.
    pub fn long() -> (t: ArgumentType)
        ensures
            t == (ArgumentType::Long { min: i64::MIN, max: i64::MAX }),
    {
        ArgumentType::Long { min: i64::MIN, max: i64::MAX }
    }

    /// Reads one argument of this type. On success the cursor stands after
    /// the argument; after a failure it stands where the error says.
    pub fn parse(&self, reader: &mut StringReader) -> (r: Result<ArgumentValue, CommandSyntaxError>)
        ensures
            final(reader).text() == old(reader).text(),
            match spec_parse_argument(*self, old(reader).text(), old(reader).position()) {
                Ok((v, end)) => r == Ok::<ArgumentValue, CommandSyntaxError>(v)
                    && final(reader).position() == end
                    && old(reader).position() <= end <= old(reader).text().len(),
                Err(e) => r == Err::<ArgumentValue, CommandSyntaxError>(e)
                    && final(reader).position() == e.cursor,
            },
    {
        let start = reader.cursor();
        let total = reader.total_length();
        proof {
            lemma_parse_argument_bounds(*self, reader.text(), reader.position());
        }
        match *self {
            ArgumentType::Bool => match reader.read_boolean() {
                Ok(v) => Ok(ArgumentValue::Bool(v)),
                Err(e) => Err(e),
            },
            ArgumentType::Integer { min, max } => match reader.read_int() {
                Ok(v) => {
                    if v < min {
                        reader.set_cursor(start);
                        Err(
                            CommandSyntaxError {
                                kind: BuiltInError::IntegerTooSmall { found: v, min },
                                cursor: start,
                            },
                        )
                    } else if v > max {
                        reader.set_cursor(start);
                        Err(
                            CommandSyntaxError {
                                kind: BuiltInError::IntegerTooBig { found: v, max },
                                cursor: start,
                            },
                        )
                    } else {
                        Ok(ArgumentValue::Integer(v))
                    }
                },
                Err(e) => Err(e),
            },
            ArgumentType::Long { min, max } => match reader.read_long() {
                Ok(v) => {
                    if v < min {
                        reader.set_cursor(start);
                        Err(
                            CommandSyntaxError {
                                kind: BuiltInError::LongTooSmall { found: v, min },
                                cursor: start,
                            },
                        )
                    } else if v > max {
                        reader.set_cursor(start);
                        Err(
                            CommandSyntaxError {
                                kind: BuiltInError::LongTooBig { found: v, max },
                                cursor: start,
                            },
                        )
                    } else {
                        Ok(ArgumentValue::Long(v))
                    }
                },
                Err(e) => Err(e),
            },
            ArgumentType::Word => {
                let range = reader.read_unquoted_token();
                Ok(ArgumentValue::Text { range, quoted: false })
            },
            ArgumentType::QuotablePhrase => match reader.read_string_token() {
                Ok((range, quoted)) => Ok(ArgumentValue::Text { range, quoted }),
                Err(e) => Err(e),
            },
            ArgumentType::GreedyPhrase => {
                reader.set_cursor(total);
                Ok(ArgumentValue::Text { range: StringRange { start, end: total }, quoted: false })
            },
        }
    }
}

} // verus!
