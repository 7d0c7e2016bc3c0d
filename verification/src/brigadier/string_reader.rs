//! A cursor over the characters of a command, with the readers of the
//! token kinds that arguments are made of.

use crate::brigadier::errors::{BuiltInError, CommandSyntaxError, StringRange};
use crate::brigadier::text::chars_to_string;
use vstd::prelude::*;

verus! {

/// Whether `c` may stand in a number.
pub open spec fn spec_is_allowed_number(c: char) -> bool {
    ('0' <= c && c <= '9') || c == '.' || c == '-'
}

/// Whether `c` may stand in a string that is not quoted.
pub open spec fn spec_is_allowed_in_unquoted_string(c: char) -> bool {
    ('0' <= c && c <= '9') || ('A' <= c && c <= 'Z') || ('a' <= c && c <= 'z') || c == '_' || c
        == '-' || c == '.' || c == '+'
}

/// Whether `c` opens a quoted string.
pub open spec fn spec_is_quoted_string_start(c: char) -> bool {
    c == '"' || c == '\''
}

/// Whether `c` is a decimal digit.
pub open spec fn is_digit(c: char) -> bool {
    '0' <= c && c <= '9'
}

/// Whether `c` may stand in a token: in a number where `number` is set,
/// else in an unquoted string.
pub open spec fn allowed_in_token(number: bool, c: char) -> bool {
    if number {
        spec_is_allowed_number(c)
    } else {
        spec_is_allowed_in_unquoted_string(c)
    }
}

/// The first place at or after `from` where `text` ends or holds a
/// character that may not stand in the token.
pub open spec fn scan_end(text: Seq<char>, from: int, number: bool) -> int
    decreases text.len() - from,
{
    if from < 0 || from >= text.len() || !allowed_in_token(number, text[from]) {
        from
    } else {
        scan_end(text, from + 1, number)
    }
}

/// The scan stops inside the text, at or after its start, and every
/// character it passed is allowed.
pub proof fn lemma_scan_end(text: Seq<char>, from: int, number: bool)
    requires
        0 <= from <= text.len(),
    ensures
        from <= scan_end(text, from, number) <= text.len(),
        forall|i: int|
            from <= i < scan_end(text, from, number) ==> allowed_in_token(
                number,
                #[trigger] text[i],
            ),
        scan_end(text, from, number) < text.len() ==> !allowed_in_token(
            number,
            text[scan_end(text, from, number)],
        ),
    decreases text.len() - from,
{
    if from < text.len() && allowed_in_token(number, text[from]) {
        lemma_scan_end(text, from + 1, number);
    }
}

/// The number that the decimal digits of `digits` spell.
pub open spec fn digits_value(digits: Seq<char>) -> nat
    decreases digits.len(),
{
    if digits.len() == 0 {
        0
    } else {
        digits_value(digits.drop_last()) * 10 + (digits.last() as u32 - '0' as u32) as nat
    }
}

/// Whether `digits` is one decimal digit or more, and nothing else.
pub open spec fn all_digits(digits: Seq<char>) -> bool {
    digits.len() > 0 && forall|i: int| 0 <= i < digits.len() ==> is_digit(#[trigger] digits[i])
}

/// The integer that `token` spells: an optional minus sign, then decimal
/// digits. Nothing where it is anything else.
pub open spec fn decimal_value(token: Seq<char>) -> Option<int> {
    if token.len() > 0 && token[0] == '-' {
        if all_digits(token.skip(1)) {
            Some(-(digits_value(token.skip(1)) as int))
        } else {
            None
        }
    } else if all_digits(token) {
        Some(digits_value(token) as int)
    } else {
        None
    }
}

/// What a read gives: the value and the cursor after it, or the error. An
/// error's own cursor says where the reader stands after the failure.
pub type ReadOutcome<T> = Result<(T, int), CommandSyntaxError>;

/// The error for a token at `value` that is not a number of the width
/// read.
pub open spec fn invalid_number(long: bool, value: StringRange) -> BuiltInError {
    if long {
        BuiltInError::ReaderInvalidLong { value }
    } else {
        BuiltInError::ReaderInvalidInt { value }
    }
}

/// The error for a number that is not there.
pub open spec fn expected_number(long: bool) -> BuiltInError {
    if long {
        BuiltInError::ReaderExpectedLong
    } else {
        BuiltInError::ReaderExpectedInt
    }
}

/// The least value of the width read.
pub open spec fn number_min(long: bool) -> int {
    if long {
        i64::MIN as int
    } else {
        i32::MIN as int
    }
}

/// The greatest value of the width read.
pub open spec fn number_max(long: bool) -> int {
    if long {
        i64::MAX as int
    } else {
        i32::MAX as int
    }
}

/// Reads a number token at `cursor`: of 64 bits where `long` is set, else
/// of 32. A failed read leaves the cursor where it was.
pub open spec fn spec_read_number(text: Seq<char>, cursor: int, long: bool) -> ReadOutcome<int> {
    let end = scan_end(text, cursor, true);
    let range = StringRange { start: cursor as usize, end: end as usize };
    if end == cursor {
        Err(CommandSyntaxError { kind: expected_number(long), cursor: cursor as usize })
    } else {
        match decimal_value(text.subrange(cursor, end)) {
            Some(v) => if number_min(long) <= v <= number_max(long) {
                Ok((v, end))
            } else {
                Err(CommandSyntaxError { kind: invalid_number(long, range), cursor: cursor as usize })
            },
            None => Err(
                CommandSyntaxError { kind: invalid_number(long, range), cursor: cursor as usize },
            ),
        }
    }
}

/// Reads a 32-bit integer at `cursor`.
pub open spec fn spec_read_int(text: Seq<char>, cursor: int) -> ReadOutcome<int> {
    spec_read_number(text, cursor, false)
}

/// Reads a 64-bit integer at `cursor`.
pub open spec fn spec_read_long(text: Seq<char>, cursor: int) -> ReadOutcome<int> {
    spec_read_number(text, cursor, true)
}

/// Reads an unquoted string at `cursor`: the span of its characters.
pub open spec fn spec_read_unquoted(text: Seq<char>, cursor: int) -> (StringRange, int) {
    let end = scan_end(text, cursor, false);
    (StringRange { start: cursor as usize, end: end as usize }, end)
}

/// Reads on from `cursor` inside a string quoted by `terminator`, `escaped`
/// saying whether a backslash came just before, up to the closing quote.
/// Gives the cursor after the quote.
pub open spec fn spec_read_until(
    text: Seq<char>,
    cursor: int,
    terminator: char,
    escaped: bool,
) -> Result<int, CommandSyntaxError>
    decreases text.len() - cursor,
{
    if cursor < 0 || cursor >= text.len() {
        Err(
            CommandSyntaxError {
                kind: BuiltInError::ReaderExpectedEndOfQuote,
                cursor: text.len() as usize,
            },
        )
    } else {
        let c = text[cursor];
        if escaped {
            if c == terminator || c == '\\' {
                spec_read_until(text, cursor + 1, terminator, false)
            } else {
                Err(
                    CommandSyntaxError {
                        kind: BuiltInError::ReaderInvalidEscape { character: c },
                        cursor: cursor as usize,
                    },
                )
            }
        } else if c == '\\' {
            spec_read_until(text, cursor + 1, terminator, true)
        } else if c == terminator {
            Ok(cursor + 1)
        } else {
            spec_read_until(text, cursor + 1, terminator, false)
        }
    }
}

/// The characters that a quoted string's inside stands for: each
/// backslash is dropped and the character after it kept.
pub open spec fn unescaped(inside: Seq<char>) -> Seq<char>
    decreases inside.len(),
{
    if inside.len() == 0 {
        Seq::empty()
    } else if inside[0] == '\\' && inside.len() >= 2 {
        seq![inside[1]] + unescaped(inside.skip(2))
    } else if inside[0] == '\\' {
        Seq::empty()
    } else {
        seq![inside[0]] + unescaped(inside.skip(1))
    }
}

/// Reads a string at `cursor`, quoted or not: the span of its characters,
/// without the quotes, and whether it was quoted.
pub open spec fn spec_read_string(text: Seq<char>, cursor: int) -> ReadOutcome<
    (StringRange, bool),
> {
    if cursor >= text.len() {
        Ok(((StringRange { start: cursor as usize, end: cursor as usize }, false), cursor))
    } else if spec_is_quoted_string_start(text[cursor]) {
        match spec_read_until(text, cursor + 1, text[cursor], false) {
            Ok(after) => Ok(
                (
                    (StringRange { start: (cursor + 1) as usize, end: (after - 1) as usize }, true),
                    after,
                ),
            ),
            Err(e) => Err(e),
        }
    } else {
        let (range, end) = spec_read_unquoted(text, cursor);
        Ok(((range, false), end))
    }
}

/// The text of a string token: the characters of its span, unescaped where
/// it was quoted.
pub open spec fn token_text(text: Seq<char>, range: StringRange, quoted: bool) -> Seq<char> {
    if range.start <= range.end <= text.len() {
        if quoted {
            unescaped(text.subrange(range.start as int, range.end as int))
        } else {
            text.subrange(range.start as int, range.end as int)
        }
    } else {
        Seq::empty()
    }
}

/// Reads a boolean at `cursor`: the word `true` or `false`, quoted or not.
pub open spec fn spec_read_boolean(text: Seq<char>, cursor: int) -> ReadOutcome<bool> {
    match spec_read_string(text, cursor) {
        Ok(((range, quoted), end)) => {
            let word = token_text(text, range, quoted);
            if word.len() == 0 {
                Err(
                    CommandSyntaxError { kind: BuiltInError::ReaderExpectedBool, cursor: end as usize },
                )
            } else if word == seq!['t', 'r', 'u', 'e'] {
                Ok((true, end))
            } else if word == seq!['f', 'a', 'l', 's', 'e'] {
                Ok((false, end))
            } else {
                Err(
                    CommandSyntaxError {
                        kind: BuiltInError::ReaderInvalidBool {
                            value: StringRange { start: cursor as usize, end: end as usize },
                        },
                        cursor: cursor as usize,
                    },
                )
            }
        },
        Err(e) => Err(e),
    }
}

/// The closing quote is found after the place the search began, inside the
/// text.
pub proof fn lemma_read_until_bounds(text: Seq<char>, cursor: int, terminator: char, escaped: bool)
    requires
        0 <= cursor <= text.len() <= usize::MAX,
    ensures
        match spec_read_until(text, cursor, terminator, escaped) {
            Ok(after) => cursor < after <= text.len(),
            Err(e) => cursor <= e.cursor <= text.len(),
        },
    decreases text.len() - cursor,
{
    if cursor < text.len() {
        let c = text[cursor];
        if escaped {
            if c == terminator || c == '\\' {
                lemma_read_until_bounds(text, cursor + 1, terminator, false);
            }
        } else if c == '\\' {
            lemma_read_until_bounds(text, cursor + 1, terminator, true);
        } else if c == terminator {
        } else {
            lemma_read_until_bounds(text, cursor + 1, terminator, false);
        }
    }
}


/// Appending a digit multiplies the value by ten and adds the digit.
pub proof fn lemma_digits_value_push(digits: Seq<char>, c: char)
    requires
        is_digit(c),
    ensures
        digits_value(digits.push(c)) == digits_value(digits) * 10 + (c as u32 - '0' as u32),
{
    assert(digits.push(c).drop_last() =~= digits);
}

/// A command's characters and a cursor into them.
#[derive(Debug, PartialEq, Eq)]
pub struct StringReader {
    string: Vec<char>,
    cursor: usize,
}

impl Clone for StringReader {
    fn clone(&self) -> (r: Self)
        ensures
            r.text() == self.text(),
            r.position() == self.position(),
    {
        proof {
            use_type_invariant(self);
        }
        let string = self.string.clone();
        assert(string@ =~= self.string@);
        StringReader { string, cursor: self.cursor }
    }
}

impl StringReader {
    #[verifier::type_invariant]
    spec fn in_bounds(self) -> bool {
        self.cursor <= self.string@.len()
    }

    /// The characters of the whole input.
    pub closed spec fn text(&self) -> Seq<char> {
        self.string@
    }

    /// The place of the cursor, counted in characters.
    pub closed spec fn position(&self) -> int {
        self.cursor as int
    }

    /// A reader at the start of `input`.
    pub fn new(input: &str) -> (r: Self)
        ensures
            r.text() == input@,
            r.position() == 0,
    {
        let mut string: Vec<char> = Vec::new();
        for c in iter: input.chars()
            invariant
                string@ == iter.seq().take(iter.index()),
        {
            string.push(c);
        }
        StringReader { string, cursor: 0 }
    }

    /// A reader at the start of `chars`.
    pub fn from_chars(chars: Vec<char>) -> (r: Self)
        ensures
            r.text() == chars@,
            r.position() == 0,
    {
        StringReader { string: chars, cursor: 0 }
    }

    /// The characters of the whole input.
    pub fn chars(&self) -> (v: &Vec<char>)
        ensures
            v@ == self.text(),
    {
        &self.string
    }

    /// The place of the cursor.
    pub fn cursor(&self) -> (c: usize)
        ensures
            c == self.position(),
            c <= self.text().len(),
    {
        proof {
            use_type_invariant(self);
        }
        self.cursor
    }

    /// Moves the cursor to `cursor`, or to the end where that is beyond it.
    pub fn set_cursor(&mut self, cursor: usize)
        ensures
            final(self).text() == old(self).text(),
            final(self).position() == if cursor <= old(self).text().len() {
                cursor as int
            } else {
                old(self).text().len() as int
            },
    {
        if cursor <= self.string.len() {
            self.cursor = cursor;
        } else {
            self.cursor = self.string.len();
        }
    }

    /// The number of characters of the whole input.
    pub fn total_length(&self) -> (n: usize)
        ensures
            n == self.text().len(),
    {
        self.string.len()
    }

    /// The number of characters from the cursor on.
    pub fn remaining_length(&self) -> (n: usize)
        ensures
            n == self.text().len() - self.position(),
    {
        proof {
            use_type_invariant(self);
        }
        self.string.len() - self.cursor
    }

    /// Whether `length` characters or more are left.
    pub fn can_read_length(&self, length: usize) -> (b: bool)
        ensures
            b == (self.position() + length <= self.text().len()),
    {
        proof {
            use_type_invariant(self);
        }
        length <= self.string.len() - self.cursor
    }

    /// Whether a character is left.
    pub fn can_read(&self) -> (b: bool)
        ensures
            b == (self.position() < self.text().len()),
    {
        self.can_read_length(1)
    }

    /// The character at the cursor.
    pub fn peek(&self) -> (c: char)
        requires
            self.position() < self.text().len(),
        ensures
            c == self.text()[self.position()],
    {
        self.string[self.cursor]
    }

    /// Takes the character at the cursor.
    pub fn read(&mut self) -> (c: char)
        requires
            old(self).position() < old(self).text().len(),
        ensures
            c == old(self).text()[old(self).position()],
            final(self).text() == old(self).text(),
            final(self).position() == old(self).position() + 1,
    {
        let total = self.string.len();
        assert(self.cursor < total);
        let c = self.string[self.cursor];
        self.cursor = self.cursor + 1;
        c
    }

    /// Passes over the character at the cursor.
    pub fn skip(&mut self)
        requires
            old(self).position() < old(self).text().len(),
        ensures
            final(self).text() == old(self).text(),
            final(self).position() == old(self).position() + 1,
    {
        let total = self.string.len();
        assert(self.cursor < total);
        self.cursor = self.cursor + 1;
    }

    /// Whether `c` may stand in a number.
    pub fn is_allowed_number(c: char) -> (b: bool)
        ensures
            b == spec_is_allowed_number(c),
    {
        (c >= '0' && c <= '9') || c == '.' || c == '-'
    }

    /// Whether `c` opens a quoted string.
    pub fn is_quoted_string_start(c: char) -> (b: bool)
        ensures
            b == spec_is_quoted_string_start(c),
    {
        c == '"' || c == '\''
    }

    /// Whether `c` may stand in a string that is not quoted.
    pub fn is_allowed_in_unquoted_string(c: char) -> (b: bool)
        ensures
            b == spec_is_allowed_in_unquoted_string(c),
    {
        (c >= '0' && c <= '9') || (c >= 'A' && c <= 'Z') || (c >= 'a' && c <= 'z') || c == '_'
            || c == '-' || c == '.' || c == '+'
    }

    /// Whether `c` may stand in a token: in a number where `number` is
    /// set, else in an unquoted string.
    pub fn is_allowed_in_token(number: bool, c: char) -> (b: bool)
        ensures
            b == allowed_in_token(number, c),
    {
        if number {
            Self::is_allowed_number(c)
        } else {
            Self::is_allowed_in_unquoted_string(c)
        }
    }

    /// The end of the token that starts at the cursor.
    fn scan(&self, number: bool) -> (end: usize)
        ensures
            end == scan_end(self.text(), self.position(), number),
            self.position() <= end <= self.text().len(),
    {
        proof {
            use_type_invariant(self);
        }
        let len = self.string.len();
        let mut end = self.cursor;
        while end < len && Self::is_allowed_in_token(number, self.string[end])
            invariant
                len == self.string@.len(),
                self.cursor <= end <= len,
                scan_end(self.string@, self.cursor as int, number) == scan_end(
                    self.string@,
                    end as int,
                    number,
                ),
            decreases len - end,
        {
            end = end + 1;
        }
        end
    }

    /// Reads a number: of 64 bits where `long` is set, else of 32.
    #[verifier::loop_isolation(false)]
    fn read_number(&mut self, long: bool) -> (r: Result<i64, CommandSyntaxError>)
        ensures
            final(self).text() == old(self).text(),
            match spec_read_number(old(self).text(), old(self).position(), long) {
                Ok((v, end)) => r == Ok::<i64, CommandSyntaxError>(v as i64)
                    && final(self).position() == end && number_min(long) <= v <= number_max(long),
                Err(e) => r == Err::<i64, CommandSyntaxError>(e)
                    && final(self).position() == old(self).position(),
            },
    {
        proof {
            use_type_invariant(&*self);
            lemma_scan_end(self.string@, self.cursor as int, true);
        }
        let start = self.cursor;
        let end = self.scan(true);
        let ghost text = self.string@;
        let ghost token = text.subrange(start as int, end as int);
        let range = StringRange { start, end };
        let invalid = CommandSyntaxError {
            kind: if long {
                BuiltInError::ReaderInvalidLong { value: range }
            } else {
                BuiltInError::ReaderInvalidInt { value: range }
            },
            cursor: start,
        };
        if end == start {
            return Err(
                CommandSyntaxError {
                    kind: if long {
                        BuiltInError::ReaderExpectedLong
                    } else {
                        BuiltInError::ReaderExpectedInt
                    },
                    cursor: start,
                },
            );
        }
        let negative = self.string[start] == '-';
        let first = if negative {
            start + 1
        } else {
            start
        };
        let ghost digits = text.subrange(first as int, end as int);
        proof {
            assert(token[0] == text[start as int]);
            if negative {
                assert(token.skip(1) =~= digits);
            } else {
                assert(token =~= digits);
            }
        }
        if first == end {
            return Err(invalid);
        }
        let limit: u128 = 0x8000_0000_0000_0000;
        let mut acc: u128 = 0;
        let mut overflow = false;
        let mut i = first;
        proof {
            assert(text.subrange(first as int, first as int) =~= Seq::<char>::empty());
        }
        while i < end
            invariant
                text == self.string@,
                first <= i <= end <= text.len(),
                digits == text.subrange(first as int, end as int),
                limit == 0x8000_0000_0000_0000,
                forall|j: int| first <= j < i ==> is_digit(#[trigger] text[j]),
                !overflow ==> acc == digits_value(text.subrange(first as int, i as int)) && acc
                    <= limit,
                overflow ==> digits_value(text.subrange(first as int, i as int)) > limit,
            decreases end - i,
        {
            let c = self.string[i];
            if !(c >= '0' && c <= '9') {
                proof {
                    assert(digits[i - first] == c);
                    assert(!all_digits(digits));
                }
                return Err(invalid);
            }
            proof {
                let before = text.subrange(first as int, i as int);
                lemma_digits_value_push(before, c);
                assert(before.push(c) =~= text.subrange(first as int, i + 1));
            }
            if !overflow {
                acc = acc * 10 + (c as u32 - '0' as u32) as u128;
                if acc > limit {
                    overflow = true;
                }
            }
            i = i + 1;
        }
        proof {
            assert(all_digits(digits)) by {
                assert forall|j: int| 0 <= j < digits.len() implies is_digit(
                    #[trigger] digits[j],
                ) by {
                    assert(digits[j] == text[first + j]);
                }
            }
        }
        if overflow {
            return Err(invalid);
        }
        let value: i128 = if negative {
            -(acc as i128)
        } else {
            acc as i128
        };
        let (min, max): (i128, i128) = if long {
            (-0x8000_0000_0000_0000, 0x7fff_ffff_ffff_ffff)
        } else {
            (-0x8000_0000, 0x7fff_ffff)
        };
        if value < min || value > max {
            return Err(invalid);
        }
        self.cursor = end;
        Ok(value as i64)
    }

    /// Reads a 32-bit integer: an optional minus sign and decimal digits.
    /// Nothing there is `ReaderExpectedInt`; anything else that is not such
    /// an integer is `ReaderInvalidInt`.
    pub fn read_int(&mut self) -> (r: Result<i32, CommandSyntaxError>)
        ensures
            final(self).text() == old(self).text(),
            match spec_read_int(old(self).text(), old(self).position()) {
                Ok((v, end)) => r == Ok::<i32, CommandSyntaxError>(v as i32)
                    && final(self).position() == end && i32::MIN <= v <= i32::MAX,
                Err(e) => r == Err::<i32, CommandSyntaxError>(e)
                    && final(self).position() == old(self).position(),
            },
    {
        match self.read_number(false) {
            Ok(v) => Ok(v as i32),
            Err(e) => Err(e),
        }
    }

    /// Reads a 64-bit integer: an optional minus sign and decimal digits.
    pub fn read_long(&mut self) -> (r: Result<i64, CommandSyntaxError>)
        ensures
            final(self).text() == old(self).text(),
            match spec_read_long(old(self).text(), old(self).position()) {
                Ok((v, end)) => r == Ok::<i64, CommandSyntaxError>(v as i64)
                    && final(self).position() == end && i64::MIN <= v <= i64::MAX,
                Err(e) => r == Err::<i64, CommandSyntaxError>(e)
                    && final(self).position() == old(self).position(),
            },
    {
        self.read_number(true)
    }

    /// Reads an unquoted string and gives its span.
    pub fn read_unquoted_token(&mut self) -> (range: StringRange)
        ensures
            final(self).text() == old(self).text(),
            (range, final(self).position()) == spec_read_unquoted(
                old(self).text(),
                old(self).position(),
            ),
            old(self).position() == range.start <= range.end == final(self).position(),
    {
        let start = self.cursor;
        let end = self.scan(false);
        self.cursor = end;
        StringRange { start, end }
    }

    /// Reads on to the closing `terminator` of a quoted string whose opening
    /// quote was just passed, and gives the span of its inside. On a
    /// failure the cursor stays where the failure was met.
    pub fn read_token_until(&mut self, terminator: char) -> (r: Result<
        StringRange,
        CommandSyntaxError,
    >)
        ensures
            final(self).text() == old(self).text(),
            match spec_read_until(old(self).text(), old(self).position(), terminator, false) {
                Ok(after) => r == Ok::<StringRange, CommandSyntaxError>(
                    StringRange { start: old(self).position() as usize, end: (after - 1) as usize },
                ) && final(self).position() == after && old(self).position() < after,
                Err(e) => r == Err::<StringRange, CommandSyntaxError>(e) && final(self).position()
                    == e.cursor,
            },
    {
        proof {
            use_type_invariant(&*self);
        }
        let start = self.cursor;
        let len = self.string.len();
        let mut escaped = false;
        let mut i = start;
        while i < len
            invariant
                len == self.string@.len(),
                *self == *old(self),
                start == self.cursor,
                start <= i <= len,
                spec_read_until(self.string@, start as int, terminator, false) == spec_read_until(
                    self.string@,
                    i as int,
                    terminator,
                    escaped,
                ),
            decreases len - i,
        {
            let c = self.string[i];
            if escaped {
                if c == terminator || c == '\\' {
                    escaped = false;
                } else {
                    self.cursor = i;
                    return Err(
                        CommandSyntaxError {
                            kind: BuiltInError::ReaderInvalidEscape { character: c },
                            cursor: i,
                        },
                    );
                }
            } else if c == '\\' {
                escaped = true;
            } else if c == terminator {
                self.cursor = i + 1;
                return Ok(StringRange { start, end: i });
            }
            i = i + 1;
        }
        self.cursor = len;
        Err(CommandSyntaxError { kind: BuiltInError::ReaderExpectedEndOfQuote, cursor: len })
    }

    /// Reads a string, quoted or not, and gives the span of its characters
    /// and whether it was quoted. At the end of the input the string is
    /// empty.
    pub fn read_string_token(&mut self) -> (r: Result<(StringRange, bool), CommandSyntaxError>)
        ensures
            final(self).text() == old(self).text(),
            match spec_read_string(old(self).text(), old(self).position()) {
                Ok((token, end)) => r == Ok::<(StringRange, bool), CommandSyntaxError>(token)
                    && final(self).position() == end && old(self).position() <= token.0.start
                    <= token.0.end <= end,
                Err(e) => r == Err::<(StringRange, bool), CommandSyntaxError>(e)
                    && final(self).position() == e.cursor,
            },
    {
        proof {
            use_type_invariant(&*self);
        }
        let total = self.string.len();
        if self.cursor >= total {
            return Ok((StringRange { start: self.cursor, end: self.cursor }, false));
        }
        let next = self.peek();
        if Self::is_quoted_string_start(next) {
            self.skip();
            proof {
                lemma_read_until_bounds(self.string@, self.cursor as int, next, false);
            }
            match self.read_token_until(next) {
                Ok(range) => Ok((range, true)),
                Err(e) => Err(e),
            }
        } else {
            let range = self.read_unquoted_token();
            Ok((range, false))
        }
    }

    /// The characters that a string token stands for.
    pub fn token_chars(&self, range: StringRange, quoted: bool) -> (v: Vec<char>)
        ensures
            v@ == token_text(self.text(), range, quoted),
    {
        let mut out: Vec<char> = Vec::new();
        if !(range.start <= range.end && range.end <= self.string.len()) {
            return out;
        }
        let ghost inside = self.string@.subrange(range.start as int, range.end as int);
        let mut i = range.start;
        proof {
            assert(inside.skip(0) =~= inside);
        }
        while i < range.end
            invariant
                range.start <= i <= range.end <= self.string@.len(),
                inside == self.string@.subrange(range.start as int, range.end as int),
                quoted ==> unescaped(inside) == out@ + unescaped(inside.skip(i - range.start)),
                !quoted ==> out@ == inside.take(i - range.start),
            decreases range.end - i,
        {
            let c = self.string[i];
            let ghost at = inside.skip(i - range.start);
            proof {
                assert(at[0] == c);
            }
            if quoted && c == '\\' {
                if i + 1 < range.end {
                    let d = self.string[i + 1];
                    proof {
                        assert(at[1] == d);
                        assert(at.skip(2) =~= inside.skip(i + 2 - range.start));
                        assert(out@.push(d) + unescaped(at.skip(2)) =~= out@ + (seq![d]
                            + unescaped(at.skip(2))));
                    }
                    out.push(d);
                    i = i + 2;
                } else {
                    proof {
                        assert(unescaped(at) =~= Seq::<char>::empty());
                        assert(inside.skip(i + 1 - range.start) =~= Seq::<char>::empty());
                    }
                    i = i + 1;
                }
            } else {
                proof {
                    assert(at.skip(1) =~= inside.skip(i + 1 - range.start));
                    assert(out@.push(c) + unescaped(at.skip(1)) =~= out@ + (seq![c] + unescaped(
                        at.skip(1),
                    )));
                    assert(inside.take(i - range.start).push(c) =~= inside.take(
                        i + 1 - range.start,
                    ));
                }
                out.push(c);
                i = i + 1;
            }
        }
        proof {
            assert(inside.take(range.end - range.start) =~= inside);
            assert(inside.skip(range.end - range.start) =~= Seq::<char>::empty());
            assert(out@ + Seq::<char>::empty() =~= out@);
        }
        out
    }

    /// Reads a boolean: the word `true` or `false`. Nothing there is
    /// `ReaderExpectedBool`; another word is `ReaderInvalidBool`, and the
    /// cursor goes back to where the word began.
    pub fn read_boolean(&mut self) -> (r: Result<bool, CommandSyntaxError>)
        ensures
            final(self).text() == old(self).text(),
            match spec_read_boolean(old(self).text(), old(self).position()) {
                Ok((v, end)) => r == Ok::<bool, CommandSyntaxError>(v) && final(self).position()
                    == end && old(self).position() <= end,
                Err(e) => r == Err::<bool, CommandSyntaxError>(e) && final(self).position()
                    == e.cursor,
            },
    {
        let start = self.cursor;
        let (range, quoted) = match self.read_string_token() {
            Ok(t) => t,
            Err(e) => { return Err(e); },
        };
        let end = self.cursor;
        let word = self.token_chars(range, quoted);
        if word.len() == 0 {
            return Err(CommandSyntaxError { kind: BuiltInError::ReaderExpectedBool, cursor: end });
        }
        if word.len() == 4 && word[0] == 't' && word[1] == 'r' && word[2] == 'u' && word[3]
            == 'e' {
            proof {
                assert(word@ =~= seq!['t', 'r', 'u', 'e']);
            }
            return Ok(true);
        }
        if word.len() == 5 && word[0] == 'f' && word[1] == 'a' && word[2] == 'l' && word[3] == 's'
            && word[4] == 'e' {
            proof {
                assert(word@ =~= seq!['f', 'a', 'l', 's', 'e']);
            }
            return Ok(false);
        }
        proof {
            let t = seq!['t', 'r', 'u', 'e'];
            let f = seq!['f', 'a', 'l', 's', 'e'];
            if word@ == t {
                assert(t[0] == 't' && t[1] == 'r' && t[2] == 'u' && t[3] == 'e');
            }
            if word@ == f {
                assert(f[0] == 'f' && f[1] == 'a' && f[2] == 'l' && f[3] == 's' && f[4] == 'e');
            }
        }
        self.cursor = start;
        Err(
            CommandSyntaxError {
                kind: BuiltInError::ReaderInvalidBool { value: StringRange { start, end } },
                cursor: start,
            },
        )
    }

    /// Takes the character `c`, which must be next.
    pub fn expect(&mut self, c: char) -> (r: Result<(), CommandSyntaxError>)
        ensures
            final(self).text() == old(self).text(),
            r is Ok <==> old(self).position() < old(self).text().len()
                && old(self).text()[old(self).position()] == c,
            r is Ok ==> final(self).position() == old(self).position() + 1,
            r matches Err(e) ==> final(self).position() == old(self).position() && e == (
                CommandSyntaxError {
                    kind: BuiltInError::ReaderExpectedSymbol { symbol: c },
                    cursor: old(self).position() as usize,
                }
            ),
    {
        proof {
            use_type_invariant(&*self);
        }
        if !self.can_read() || self.peek() != c {
            return Err(
                CommandSyntaxError {
                    kind: BuiltInError::ReaderExpectedSymbol { symbol: c },
                    cursor: self.cursor,
                },
            );
        }
        self.skip();
        Ok(())
    }

    /// The whole input as a string.
    pub fn string(&self) -> (r: String)
        ensures
            r@ == self.text(),
    {
        chars_to_string(&self.string)
    }

    /// The part of the input before the cursor.
    pub fn get_read(&self) -> (r: String)
        ensures
            r@ == self.text().take(self.position()),
    {
        proof {
            use_type_invariant(self);
        }
        let read = self.token_chars(StringRange { start: 0, end: self.cursor }, false);
        proof {
            assert(self.string@.subrange(0, self.cursor as int) =~= self.string@.take(
                self.cursor as int,
            ));
        }
        chars_to_string(&read)
    }

    /// The part of the input from the cursor on.
    pub fn remaining(&self) -> (r: String)
        ensures
            r@ == self.text().skip(self.position()),
    {
        proof {
            use_type_invariant(self);
        }
        let rest = self.token_chars(
            StringRange { start: self.cursor, end: self.string.len() },
            false,
        );
        proof {
            assert(self.string@.subrange(self.cursor as int, self.string@.len() as int)
                =~= self.string@.skip(self.cursor as int));
        }
        chars_to_string(&rest)
    }

    /// Reads an unquoted string.
    pub fn read_unquoted_string(&mut self) -> (r: String)
        ensures
            final(self).text() == old(self).text(),
            final(self).position() == spec_read_unquoted(
                old(self).text(),
                old(self).position(),
            ).1,
            r@ == token_text(
                old(self).text(),
                spec_read_unquoted(old(self).text(), old(self).position()).0,
                false,
            ),
    {
        let range = self.read_unquoted_token();
        chars_to_string(&self.token_chars(range, false))
    }

    /// Reads a string, quoted or not: what it stands for, with the escapes
    /// of a quoted string taken out.
    pub fn read_string(&mut self) -> (r: Result<String, CommandSyntaxError>)
        ensures
            final(self).text() == old(self).text(),
            match spec_read_string(old(self).text(), old(self).position()) {
                Ok(((range, quoted), end)) => r matches Ok(s) && s@ == token_text(
                    old(self).text(),
                    range,
                    quoted,
                ) && final(self).position() == end,
                Err(e) => r matches Err(got) && got == e && final(self).position() == e.cursor,
            },
    {
        match self.read_string_token() {
            Ok((range, quoted)) => Ok(chars_to_string(&self.token_chars(range, quoted))),
            Err(e) => Err(e),
        }
    }
}

} // verus!
