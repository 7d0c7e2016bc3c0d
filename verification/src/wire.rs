//! The wire forms built on the integers: booleans, blobs, strings, UUIDs,
//! optional values and sequences.

use crate::buf::{
    be_bytes, lemma_be_bytes_len, lemma_parse_be_roundtrip, lemma_varint_roundtrip, parse_be,
    parse_varint, pow256, varint_bytes, write_be, write_varint, ByteReader, Parsed, ReadError,
};
use vstd::prelude::*;
use vstd::string::StrSliceExecFns;
use vstd::utf8::{decode_utf8, encode_utf8, valid_utf8};

verus! {

/// The most characters a string on the wire may have where no tighter
/// limit is given.
pub const MAX_STRING_LENGTH: usize = 32767;

/// The wire form of a boolean: one byte, 1 or 0.
pub open spec fn bool_bytes(b: bool) -> Seq<u8> {
    seq![if b { 1u8 } else { 0u8 }]
}

/// Reads a boolean; a byte other than 0 and 1 is malformed.
pub open spec fn parse_bool(s: Seq<u8>) -> Parsed<bool> {
    if s.len() == 0 {
        Err(ReadError::ShortRead)
    } else if s[0] == 0 {
        Ok((false, 1))
    } else if s[0] == 1 {
        Ok((true, 1))
    } else {
        Err(ReadError::Malformed)
    }
}

/// The wire form of an unsigned integer of `n` bytes.
pub open spec fn uint_bytes(v: nat, n: nat) -> Seq<u8> {
    be_bytes(v, n)
}

/// The wire form of a blob: its length as a variable-length integer, then
/// its bytes.
pub open spec fn blob_bytes(b: Seq<u8>) -> Seq<u8> {
    varint_bytes(b.len() as i32) + b
}

/// Reads a length-prefixed blob. A negative length is malformed.
pub open spec fn parse_blob(s: Seq<u8>) -> Parsed<Seq<u8>> {
    match parse_varint(s) {
        Ok((len, n)) => if len < 0 {
            Err(ReadError::Malformed)
        } else if s.len() - n < len {
            Err(ReadError::ShortRead)
        } else {
            Ok((s.subrange(n, n + len), n + len))
        },
        Err(e) => Err(e),
    }
}

/// The wire form of a string: its UTF-8 bytes as a blob.
pub open spec fn string_bytes(chars: Seq<char>) -> Seq<u8> {
    blob_bytes(encode_utf8(chars))
}

/// Reads a string of at most `max_chars` characters. Bytes that are not
/// UTF-8, and a string over the limit, are malformed.
pub open spec fn parse_string(s: Seq<u8>, max_chars: nat) -> Parsed<Seq<char>> {
    match parse_blob(s) {
        Ok((bytes, n)) => if !valid_utf8(bytes) {
            Err(ReadError::Malformed)
        } else if decode_utf8(bytes).len() > max_chars {
            Err(ReadError::Malformed)
        } else {
            Ok((decode_utf8(bytes), n))
        },
        Err(e) => Err(e),
    }
}

/// The wire form of a UUID: its high 64 bits, then its low 64 bits, each
/// big-endian.
pub open spec fn uuid_bytes(u: u128) -> Seq<u8> {
    be_bytes((u / 0x1_0000_0000_0000_0000) as nat, 8) + be_bytes(
        (u % 0x1_0000_0000_0000_0000) as nat,
        8,
    )
}

/// Reads a UUID.
pub open spec fn parse_uuid(s: Seq<u8>) -> Parsed<u128> {
    match parse_be(s, 8) {
        Ok((hi, _)) => match parse_be(s.skip(8), 8) {
            Ok((lo, _)) => Ok(((hi * 0x1_0000_0000_0000_0000 + lo) as u128, 16)),
            Err(e) => Err(e),
        },
        Err(e) => Err(e),
    }
}

/// The wire form of an optional value: a boolean, then the value if there
/// is one.
pub open spec fn option_bytes<T>(v: Option<T>, encode: spec_fn(T) -> Seq<u8>) -> Seq<u8> {
    match v {
        Some(x) => bool_bytes(true) + encode(x),
        None => bool_bytes(false),
    }
}

/// Reads an optional value whose payload `parse` reads.
pub open spec fn parse_option<T>(s: Seq<u8>, parse: spec_fn(Seq<u8>) -> Parsed<T>) -> Parsed<
    Option<T>,
> {
    match parse_bool(s) {
        Ok((present, _)) => if present {
            match parse(s.skip(1)) {
                Ok((x, n)) => Ok((Some(x), n + 1)),
                Err(e) => Err(e),
            }
        } else {
            Ok((None, 1))
        },
        Err(e) => Err(e),
    }
}

/// The encodings of the items of `items`, one after the other.
pub open spec fn items_bytes<T>(items: Seq<T>, encode: spec_fn(T) -> Seq<u8>) -> Seq<u8>
    decreases items.len(),
{
    if items.len() == 0 {
        Seq::empty()
    } else {
        encode(items[0]) + items_bytes(items.skip(1), encode)
    }
}

/// Reads `count` items, one after the other.
pub open spec fn parse_items<T>(
    s: Seq<u8>,
    count: nat,
    parse: spec_fn(Seq<u8>) -> Parsed<T>,
) -> Parsed<Seq<T>>
    decreases count,
{
    if count == 0 {
        Ok((Seq::empty(), 0))
    } else {
        match parse(s) {
            Ok((x, n)) => if n < 0 || n > s.len() {
                Err(ReadError::Malformed)
            } else {
                match parse_items(s.skip(n), (count - 1) as nat, parse) {
                    Ok((rest, m)) => Ok((seq![x] + rest, n + m)),
                    Err(e) => Err(e),
                }
            },
            Err(e) => Err(e),
        }
    }
}

/// The wire form of a sequence: its length as a variable-length integer,
/// then its items.
pub open spec fn sequence_bytes<T>(items: Seq<T>, encode: spec_fn(T) -> Seq<u8>) -> Seq<u8> {
    varint_bytes(items.len() as i32) + items_bytes(items, encode)
}

/// Reads a length-prefixed sequence. A negative length is malformed.
pub open spec fn parse_sequence<T>(s: Seq<u8>, parse: spec_fn(Seq<u8>) -> Parsed<T>) -> Parsed<
    Seq<T>,
> {
    match parse_varint(s) {
        Ok((len, n)) => if len < 0 {
            Err(ReadError::Malformed)
        } else {
            match parse_items(s.skip(n), len as nat, parse) {
                Ok((items, m)) => Ok((items, n + m)),
                Err(e) => Err(e),
            }
        },
        Err(e) => Err(e),
    }
}

/// `parse` reads back what `encode` wrote for `x`, whatever follows it.
pub open spec fn reads_back<T>(
    x: T,
    encode: spec_fn(T) -> Seq<u8>,
    parse: spec_fn(Seq<u8>) -> Parsed<T>,
) -> bool {
    forall|rest: Seq<u8>| #[trigger]
        parse(encode(x) + rest) == Ok::<(T, int), ReadError>((x, encode(x).len() as int))
}

/// A boolean is read back as written.
pub proof fn lemma_bool_roundtrip(b: bool, rest: Seq<u8>)
    ensures
        parse_bool(bool_bytes(b) + rest) == Ok::<(bool, int), ReadError>((b, 1)),
{
}

/// A blob short enough for its length to be written is read back as
/// written.
pub proof fn lemma_blob_roundtrip(b: Seq<u8>, rest: Seq<u8>)
    requires
        b.len() <= i32::MAX,
    ensures
        parse_blob(blob_bytes(b) + rest) == Ok::<(Seq<u8>, int), ReadError>(
            (b, blob_bytes(b).len() as int),
        ),
{
    let len = b.len() as i32;
    let s = blob_bytes(b) + rest;
    lemma_varint_roundtrip(len, b + rest);
    assert(s =~= varint_bytes(len) + (b + rest));
    let n = varint_bytes(len).len() as int;
    assert(s.subrange(n, n + len) =~= b);
}

/// A string within the limit is read back as written.
pub proof fn lemma_string_roundtrip(chars: Seq<char>, max_chars: nat, rest: Seq<u8>)
    requires
        chars.len() <= max_chars,
        encode_utf8(chars).len() <= i32::MAX,
    ensures
        parse_string(string_bytes(chars) + rest, max_chars) == Ok::<(Seq<char>, int), ReadError>(
            (chars, string_bytes(chars).len() as int),
        ),
{
    lemma_blob_roundtrip(encode_utf8(chars), rest);
    vstd::utf8::encode_utf8_valid_utf8(chars);
    vstd::utf8::encode_utf8_decode_utf8(chars);
}

/// A UUID is read back as written.
pub proof fn lemma_uuid_roundtrip(u: u128, rest: Seq<u8>)
    ensures
        parse_uuid(uuid_bytes(u) + rest) == Ok::<(u128, int), ReadError>((u, 16)),
        uuid_bytes(u).len() == 16,
{
    let hi = (u / 0x1_0000_0000_0000_0000) as nat;
    let lo = (u % 0x1_0000_0000_0000_0000) as nat;
    let s = uuid_bytes(u) + rest;
    lemma_pow256_8();
    lemma_be_bytes_len(hi, 8);
    lemma_be_bytes_len(lo, 8);
    lemma_parse_be_roundtrip(hi, 8, be_bytes(lo, 8) + rest);
    lemma_parse_be_roundtrip(lo, 8, rest);
    assert(s =~= be_bytes(hi, 8) + (be_bytes(lo, 8) + rest));
    assert(s.skip(8) =~= be_bytes(lo, 8) + rest);
}

/// 256 to the eighth is two to the 64th.
pub proof fn lemma_pow256_8()
    ensures
        pow256(1) == 0x100,
        pow256(2) == 0x1_0000,
        pow256(4) == 0x1_0000_0000,
        pow256(8) == 0x1_0000_0000_0000_0000,
{
    reveal_with_fuel(pow256, 9);
}

/// An optional value is read back as written where its payload is.
pub proof fn lemma_option_roundtrip<T>(
    v: Option<T>,
    encode: spec_fn(T) -> Seq<u8>,
    parse: spec_fn(Seq<u8>) -> Parsed<T>,
    rest: Seq<u8>,
)
    requires
        v matches Some(x) ==> reads_back(x, encode, parse),
    ensures
        parse_option(option_bytes(v, encode) + rest, parse) == Ok::<(Option<T>, int), ReadError>(
            (v, option_bytes(v, encode).len() as int),
        ),
{
    let s = option_bytes(v, encode) + rest;
    match v {
        Some(x) => {
            assert(s.skip(1) =~= encode(x) + rest);
            assert(parse(encode(x) + rest) == Ok::<(T, int), ReadError>(
                (x, encode(x).len() as int),
            ));
        },
        None => {},
    }
}

/// Items are read back as written where each of them is.
pub proof fn lemma_items_roundtrip<T>(
    items: Seq<T>,
    encode: spec_fn(T) -> Seq<u8>,
    parse: spec_fn(Seq<u8>) -> Parsed<T>,
    rest: Seq<u8>,
)
    requires
        forall|i: int| 0 <= i < items.len() ==> reads_back(#[trigger] items[i], encode, parse),
    ensures
        parse_items(items_bytes(items, encode) + rest, items.len(), parse) == Ok::<
            (Seq<T>, int),
            ReadError,
        >((items, items_bytes(items, encode).len() as int)),
    decreases items.len(),
{
    if items.len() > 0 {
        let x = items[0];
        let tail = items.skip(1);
        let s = items_bytes(items, encode) + rest;
        let after = items_bytes(tail, encode) + rest;
        assert(reads_back(x, encode, parse));
        assert(s =~= encode(x) + after);
        assert(parse(encode(x) + after) == Ok::<(T, int), ReadError>(
            (x, encode(x).len() as int),
        ));
        assert(s.skip(encode(x).len() as int) =~= after);
        assert forall|i: int| 0 <= i < tail.len() implies reads_back(
            #[trigger] tail[i],
            encode,
            parse,
        ) by {
            assert(tail[i] == items[i + 1]);
        }
        lemma_items_roundtrip(tail, encode, parse, rest);
        assert(seq![x] + tail =~= items);
    } else {
        assert(items =~= Seq::<T>::empty());
    }
}

/// A sequence short enough for its length to be written is read back as
/// written where each of its items is.
pub proof fn lemma_sequence_roundtrip<T>(
    items: Seq<T>,
    encode: spec_fn(T) -> Seq<u8>,
    parse: spec_fn(Seq<u8>) -> Parsed<T>,
    rest: Seq<u8>,
)
    requires
        items.len() <= i32::MAX,
        forall|i: int| 0 <= i < items.len() ==> reads_back(#[trigger] items[i], encode, parse),
    ensures
        parse_sequence(sequence_bytes(items, encode) + rest, parse) == Ok::<
            (Seq<T>, int),
            ReadError,
        >((items, sequence_bytes(items, encode).len() as int)),
{
    let len = items.len() as i32;
    let body = items_bytes(items, encode);
    let s = sequence_bytes(items, encode) + rest;
    lemma_varint_roundtrip(len, body + rest);
    assert(s =~= varint_bytes(len) + (body + rest));
    assert(s.skip(varint_bytes(len).len() as int) =~= body + rest);
    lemma_items_roundtrip(items, encode, parse, rest);
}


/// The error type of the writers, opaque to the proofs.
#[verifier::external_type_specification]
#[verifier::external_body]
pub struct ExIoError(std::io::Error);

/// Makes the error that `std::io::Error::from` gives for the kind
/// `InvalidInput`. Nothing is claimed of the value.
#[verifier::external_body]
pub(crate) fn invalid_input_error() -> (e: std::io::Error) {
    std::io::Error::from(std::io::ErrorKind::InvalidInput)
}

/// Appends a blob. A blob too long for its length to be written is
/// refused, and nothing is written.
pub fn write_blob(buf: &mut Vec<u8>, b: &[u8]) -> (r: Result<(), std::io::Error>)
    ensures
        r is Ok <==> b@.len() <= i32::MAX,
        r is Ok ==> final(buf)@ == old(buf)@ + blob_bytes(b@),
        r is Err ==> final(buf)@ == old(buf)@,
{
    if b.len() > 0x7fff_ffff {
        return Err(invalid_input_error());
    }
    write_varint(buf, b.len() as i32);
    buf.extend_from_slice(b);
    proof {
        assert(buf@ =~= old(buf)@ + blob_bytes(b@));
    }
    Ok(())
}


/// Turns bytes into a `String` with `String::from_utf8`: the text that the
/// bytes encode where they are UTF-8, and nothing where they are not.
#[verifier::external_body]
pub(crate) fn string_from_utf8(bytes: Vec<u8>) -> (r: Option<String>)
    ensures
        r is Some <==> valid_utf8(bytes@),
        r matches Some(s) ==> s@ == decode_utf8(bytes@),
{
    String::from_utf8(bytes).ok()
}

/// Appends a string. A string whose UTF-8 form is too long for its length
/// to be written is refused, and nothing is written.
pub fn write_string(buf: &mut Vec<u8>, s: &str) -> (r: Result<(), std::io::Error>)
    ensures
        r is Ok <==> encode_utf8(s@).len() <= i32::MAX,
        r is Ok ==> final(buf)@ == old(buf)@ + string_bytes(s@),
        r is Err ==> final(buf)@ == old(buf)@,
{
    write_blob(buf, s.as_bytes())
}

/// Appends a boolean.
pub fn write_bool(buf: &mut Vec<u8>, b: bool)
    ensures
        final(buf)@ == old(buf)@ + bool_bytes(b),
{
    buf.push(if b { 1u8 } else { 0u8 });
    proof {
        assert(buf@ =~= old(buf)@ + bool_bytes(b));
    }
}

/// Appends one byte.
pub fn write_u8(buf: &mut Vec<u8>, v: u8)
    ensures
        final(buf)@ == old(buf)@ + uint_bytes(v as nat, 1),
{
    write_be(buf, v as u128, 1);
}

/// Appends a 16-bit unsigned integer.
pub fn write_u16(buf: &mut Vec<u8>, v: u16)
    ensures
        final(buf)@ == old(buf)@ + uint_bytes(v as nat, 2),
{
    write_be(buf, v as u128, 2);
}

/// Appends a 32-bit unsigned integer.
pub fn write_u32(buf: &mut Vec<u8>, v: u32)
    ensures
        final(buf)@ == old(buf)@ + uint_bytes(v as nat, 4),
{
    write_be(buf, v as u128, 4);
}

/// Appends a 64-bit unsigned integer.
pub fn write_u64(buf: &mut Vec<u8>, v: u64)
    ensures
        final(buf)@ == old(buf)@ + uint_bytes(v as nat, 8),
{
    write_be(buf, v as u128, 8);
}

/// Appends a UUID.
pub fn write_uuid(buf: &mut Vec<u8>, u: u128)
    ensures
        final(buf)@ == old(buf)@ + uuid_bytes(u),
{
    write_be(buf, u / 0x1_0000_0000_0000_0000, 8);
    write_be(buf, u % 0x1_0000_0000_0000_0000, 8);
    proof {
        assert(buf@ =~= old(buf)@ + uuid_bytes(u));
    }
}

/// Reads a boolean.
pub fn read_bool(reader: &mut ByteReader) -> (r: Result<bool, ReadError>)
    ensures
        final(reader).source() == old(reader).source(),
        match parse_bool(old(reader).remaining()) {
            Ok((v, n)) => r == Ok::<bool, ReadError>(v) && n <= old(reader).remaining().len()
                && final(reader).remaining() == old(reader).remaining().skip(n),
            Err(e) => r == Err::<bool, ReadError>(e) && *final(reader) == *old(reader),
        },
{
    if reader.remaining_len() == 0 {
        return Err(ReadError::ShortRead);
    }
    let first = reader.peek();
    if first > 1 {
        return Err(ReadError::Malformed);
    }
    reader.advance(1);
    Ok(first == 1)
}

/// Reads one byte.
pub fn read_u8(reader: &mut ByteReader) -> (r: Result<u8, ReadError>)
    ensures
        final(reader).source() == old(reader).source(),
        match parse_be(old(reader).remaining(), 1) {
            Ok((v, n)) => r == Ok::<u8, ReadError>(v as u8) && v <= u8::MAX && n == 1
                && final(reader).remaining() == old(reader).remaining().skip(n),
            Err(e) => r == Err::<u8, ReadError>(e) && *final(reader) == *old(reader),
        },
{
    proof {
        lemma_pow256_8();
    }
    match reader.read_be(1) {
        Ok(v) => Ok(v as u8),
        Err(e) => Err(e),
    }
}

/// Reads a 16-bit unsigned integer.
pub fn read_u16(reader: &mut ByteReader) -> (r: Result<u16, ReadError>)
    ensures
        final(reader).source() == old(reader).source(),
        match parse_be(old(reader).remaining(), 2) {
            Ok((v, n)) => r == Ok::<u16, ReadError>(v as u16) && v <= u16::MAX && n == 2
                && final(reader).remaining() == old(reader).remaining().skip(n),
            Err(e) => r == Err::<u16, ReadError>(e) && *final(reader) == *old(reader),
        },
{
    proof {
        lemma_pow256_8();
    }
    match reader.read_be(2) {
        Ok(v) => Ok(v as u16),
        Err(e) => Err(e),
    }
}

/// Reads a 32-bit unsigned integer.
pub fn read_u32(reader: &mut ByteReader) -> (r: Result<u32, ReadError>)
    ensures
        final(reader).source() == old(reader).source(),
        match parse_be(old(reader).remaining(), 4) {
            Ok((v, n)) => r == Ok::<u32, ReadError>(v as u32) && v <= u32::MAX && n == 4
                && final(reader).remaining() == old(reader).remaining().skip(n),
            Err(e) => r == Err::<u32, ReadError>(e) && *final(reader) == *old(reader),
        },
{
    proof {
        lemma_pow256_8();
    }
    match reader.read_be(4) {
        Ok(v) => Ok(v as u32),
        Err(e) => Err(e),
    }
}

/// Reads a 64-bit unsigned integer.
pub fn read_u64(reader: &mut ByteReader) -> (r: Result<u64, ReadError>)
    ensures
        final(reader).source() == old(reader).source(),
        match parse_be(old(reader).remaining(), 8) {
            Ok((v, n)) => r == Ok::<u64, ReadError>(v as u64) && v <= u64::MAX && n == 8
                && final(reader).remaining() == old(reader).remaining().skip(n),
            Err(e) => r == Err::<u64, ReadError>(e) && *final(reader) == *old(reader),
        },
{
    proof {
        lemma_pow256_8();
    }
    match reader.read_be(8) {
        Ok(v) => Ok(v as u64),
        Err(e) => Err(e),
    }
}

/// Reads a UUID.
pub fn read_uuid(reader: &mut ByteReader) -> (r: Result<u128, ReadError>)
    ensures
        final(reader).source() == old(reader).source(),
        match parse_uuid(old(reader).remaining()) {
            Ok((v, n)) => r == Ok::<u128, ReadError>(v) && n == 16
                && n <= old(reader).remaining().len()
                && final(reader).remaining() == old(reader).remaining().skip(n),
            Err(e) => r == Err::<u128, ReadError>(e) && *final(reader) == *old(reader),
        },
{
    proof {
        lemma_pow256_8();
    }
    let ghost s = reader.remaining();
    if reader.remaining_len() < 16 {
        proof {
            if s.len() >= 8 {
                assert(s.skip(8).len() < 8);
            }
        }
        return Err(ReadError::ShortRead);
    }
    let hi = match reader.read_be(8) {
        Ok(v) => v,
        Err(e) => { return Err(e); },
    };
    let lo = match reader.read_be(8) {
        Ok(v) => v,
        Err(e) => { return Err(e); },
    };
    proof {
        assert(s.skip(8).skip(8) =~= s.skip(16));
    }
    Ok(hi * 0x1_0000_0000_0000_0000 + lo)
}

/// Reads a length-prefixed blob.
pub fn read_blob(reader: &mut ByteReader) -> (r: Result<Vec<u8>, ReadError>)
    ensures
        final(reader).source() == old(reader).source(),
        match parse_blob(old(reader).remaining()) {
            Ok((v, n)) => r matches Ok(got) && got@ == v && 0 < n <= old(reader).remaining().len()
                && final(reader).remaining() == old(reader).remaining().skip(n),
            Err(e) => r matches Err(got) && got == e && *final(reader) == *old(reader),
        },
{
    let ghost s = reader.remaining();
    let mut probe = *reader;
    let len = match probe.read_varint() {
        Ok(v) => v,
        Err(e) => { return Err(e); },
    };
    if len < 0 {
        return Err(ReadError::Malformed);
    }
    let ghost n = parse_varint(s).unwrap().1;
    match probe.read_bytes(len as usize) {
        Ok(v) => {
            proof {
                assert(s.skip(n).take(len as int) =~= s.subrange(n, n + len));
                assert(s.skip(n).skip(len as int) =~= s.skip(n + len));
            }
            *reader = probe;
            Ok(v)
        },
        Err(e) => Err(e),
    }
}

/// Reads a string of at most `max_chars` characters.
pub fn read_string(reader: &mut ByteReader, max_chars: usize) -> (r: Result<String, ReadError>)
    ensures
        final(reader).source() == old(reader).source(),
        match parse_string(old(reader).remaining(), max_chars as nat) {
            Ok((v, n)) => r matches Ok(got) && got@ == v && 0 < n <= old(reader).remaining().len()
                && final(reader).remaining() == old(reader).remaining().skip(n),
            Err(e) => r matches Err(got) && got == e && *final(reader) == *old(reader),
        },
{
    let mut probe = *reader;
    let bytes = match read_blob(&mut probe) {
        Ok(v) => v,
        Err(e) => { return Err(e); },
    };
    match string_from_utf8(bytes) {
        Some(text) => {
            if text.as_str().unicode_len() > max_chars {
                Err(ReadError::Malformed)
            } else {
                *reader = probe;
                Ok(text)
            }
        },
        None => Err(ReadError::Malformed),
    }
}

} // verus!
