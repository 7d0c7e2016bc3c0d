//! The address of a server as a user writes it: a host, or a host and a
//! port with a colon between them.

use crate::brigadier::string_reader::{all_digits, digits_value, is_digit, lemma_digits_value_push};
use crate::brigadier::text::chars_to_string;
use crate::brigadier::tree::name_chars;
use vstd::prelude::*;

verus! {

/// The port that a server listens on where its address names none.
pub const DEFAULT_PORT: u16 = 25565;

/// The place of the last colon in `text`, or -1 where it has none.
pub open spec fn last_colon(text: Seq<char>) -> int
    decreases text.len(),
{
    if text.len() == 0 {
        -1
    } else if text.last() == ':' {
        text.len() - 1
    } else {
        last_colon(text.drop_last())
    }
}

/// The port that `digits` spells: one decimal digit or more, with a value
/// that a port can have. Nothing where it is anything else.
pub open spec fn spec_port(digits: Seq<char>) -> Option<u16> {
    if all_digits(digits) && digits_value(digits) <= u16::MAX {
        Some(digits_value(digits) as u16)
    } else {
        None
    }
}

/// The host and the port that `text` names. Without a colon the whole
/// text is the host and the port is the default one; else the host is what
/// stands before the last colon and the port what stands after it. Nothing
/// where the host is empty or the port is no port.
pub open spec fn spec_address(text: Seq<char>) -> Option<(Seq<char>, u16)> {
    let colon = last_colon(text);
    if text.len() == 0 {
        None
    } else if colon < 0 {
        Some((text, DEFAULT_PORT))
    } else if colon == 0 {
        None
    } else {
        match spec_port(text.skip(colon + 1)) {
            Some(port) => Some((text.take(colon), port)),
            None => None,
        }
    }
}

/// The characters of the host, and the port, of an address that was read.
pub open spec fn address_view(address: Option<(String, u16)>) -> Option<(Seq<char>, u16)> {
    match address {
        Some((host, port)) => Some((host@, port)),
        None => None,
    }
}

/// The place of the last colon among `chars`, or the length of `chars`
/// where there is none.
fn find_last_colon(chars: &Vec<char>) -> (at: usize)
    ensures
        at <= chars.len(),
        at < chars.len() ==> last_colon(chars@) == at,
        at == chars.len() ==> last_colon(chars@) == -1,
{
    let mut i: usize = chars.len();
    proof {
        assert(chars@.take(i as int) =~= chars@);
    }
    while i > 0
        invariant
            i <= chars.len(),
            last_colon(chars@) == last_colon(chars@.take(i as int)),
        decreases i,
    {
        proof {
            assert(chars@.take(i as int).drop_last() =~= chars@.take(i - 1));
        }
        i = i - 1;
        if chars[i] == ':' {
            return i;
        }
    }
    chars.len()
}

/// Reads the port that the characters of `chars` from `from` on spell.
fn read_port(chars: &Vec<char>, from: usize) -> (r: Option<u16>)
    requires
        from <= chars.len(),
    ensures
        r == spec_port(chars@.skip(from as int)),
{
    let ghost digits = chars@.skip(from as int);
    if from == chars.len() {
        return None;
    }
    let mut acc: u32 = 0;
    let mut too_great = false;
    let mut i: usize = from;
    proof {
        assert(digits.take(0) =~= Seq::<char>::empty());
    }
    while i < chars.len()
        invariant
            from <= i <= chars.len(),
            digits == chars@.skip(from as int),
            forall|j: int| 0 <= j < i - from ==> is_digit(#[trigger] digits[j]),
            !too_great ==> acc == digits_value(digits.take(i - from)) && acc <= u16::MAX,
            too_great ==> digits_value(digits.take(i - from)) > u16::MAX,
        decreases chars.len() - i,
    {
        let c = chars[i];
        if !(c >= '0' && c <= '9') {
            proof {
                assert(digits[i - from] == c);
            }
            return None;
        }
        proof {
            let before = digits.take(i - from);
            lemma_digits_value_push(before, c);
            assert(before.push(c) =~= digits.take(i + 1 - from));
        }
        if !too_great {
            acc = acc * 10 + (c as u32 - '0' as u32);
            if acc > 0xffff {
                too_great = true;
            }
        }
        i = i + 1;
    }
    proof {
        assert(digits.take(i - from) =~= digits);
    }
    if too_great {
        None
    } else {
        Some(acc as u16)
    }
}

/// Reads an address: `host`, or `host:port`. An address that names no
/// port has the port 25565. Nothing where the text or the host is empty, or
/// where what follows the last colon is no port.
pub fn parse_address(text: &str) -> (r: Option<(String, u16)>)
    ensures
        address_view(r) == spec_address(text@),
{
    let chars = name_chars(text);
    if chars.len() == 0 {
        return None;
    }
    let colon = find_last_colon(&chars);
    if colon == chars.len() {
        return Some((chars_to_string(&chars), DEFAULT_PORT));
    }
    if colon == 0 {
        return None;
    }
    match read_port(&chars, colon + 1) {
        Some(port) => {
            let mut host: Vec<char> = Vec::new();
            let mut i: usize = 0;
            while i < colon
                invariant
                    i <= colon < chars.len(),
                    host@ == chars@.take(i as int),
                decreases colon - i,
            {
                host.push(chars[i]);
                proof {
                    assert(host@ =~= chars@.take(i + 1));
                }
                i = i + 1;
            }
            Some((chars_to_string(&host), port))
        },
        None => None,
    }
}

} // verus!
