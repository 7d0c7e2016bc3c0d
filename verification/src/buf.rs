//! Reading and writing of primitives in the wire format: variable-length
//! integers, big-endian fixed-width integers, booleans, length-prefixed
//! strings and blobs, UUIDs and optional values.
//!
//! Every format has a pair of spec functions: `*_bytes` gives the encoding of
//! a value and `parse_*` reads a value from the front of a byte sequence. The
//! executable writers and readers are proved against these, and the
//! round-trip laws relate the two.

use vstd::prelude::*;

verus! {

/// Why a read failed.
#[derive(Clone, Copy, Debug, PartialEq, Eq, Structural)]
pub enum ReadError {
    /// The input ended before the value was complete.
    ShortRead,
    /// A variable-length integer went on past its maximum number of bytes.
    VarintTooLong,
    /// The bytes do not form a value of the expected type.
    Malformed,
    /// A frame announced more bytes than a frame may hold.
    FrameTooLarge,
    /// The packet id is not in the table of the current protocol state.
    UnexpectedPacket,
}

/// The result of parsing a `T` from the front of a byte sequence: the value
/// and the number of bytes it took.
pub type Parsed<T> = Result<(T, int), ReadError>;

/// The most bytes a 32-bit variable-length integer may take.
pub const VARINT_MAX_BYTES: usize = 5;

/// The most bytes a 64-bit variable-length integer may take.
pub const VARLONG_MAX_BYTES: usize = 10;

/// The little-endian base-128 digits of `v`, each but the last with its top
/// bit set.
pub open spec fn varint_digits(v: nat) -> Seq<u8>
    decreases v,
{
    if v < 128 {
        seq![v as u8]
    } else {
        seq![(v % 128 + 128) as u8] + varint_digits(v / 128)
    }
}

/// The two's complement bit pattern of `v`, as a number below `modulus`.
pub open spec fn unsigned_of(v: int, modulus: int) -> nat {
    if v < 0 {
        (v + modulus) as nat
    } else {
        v as nat
    }
}

/// The signed value whose two's complement bit pattern is the low bits of
/// `u`.
pub open spec fn signed_of(u: nat, modulus: int) -> int {
    let low = u as int % modulus;
    if 2 * low >= modulus {
        low - modulus
    } else {
        low
    }
}

/// Two to the power 32.
pub open spec fn modulus_32() -> int {
    0x1_0000_0000
}

/// Two to the power 64.
pub open spec fn modulus_64() -> int {
    0x1_0000_0000_0000_0000
}

/// The wire form of a 32-bit variable-length integer: the digits of the
/// value's two's complement bit pattern.
pub open spec fn varint_bytes(v: i32) -> Seq<u8> {
    varint_digits(unsigned_of(v as int, modulus_32()))
}

/// The wire form of a 64-bit variable-length integer.
pub open spec fn varlong_bytes(v: i64) -> Seq<u8> {
    varint_digits(unsigned_of(v as int, modulus_64()))
}

/// Reads base-128 digits from the front of `s`, at most `max` of them.
/// The value is the sum of the digits' low seven bits, each weighted by its
/// place; it is not yet truncated to a machine width.
pub open spec fn parse_digits(s: Seq<u8>, max: nat) -> Parsed<nat>
    decreases max,
{
    if max == 0 {
        Err(ReadError::VarintTooLong)
    } else if s.len() == 0 {
        Err(ReadError::ShortRead)
    } else if s[0] < 128 {
        Ok((s[0] as nat, 1))
    } else {
        match parse_digits(s.skip(1), (max - 1) as nat) {
            Ok((rest, n)) => Ok((((s[0] - 128) + 128 * rest) as nat, n + 1)),
            Err(e) => Err(e),
        }
    }
}

/// Reads a 32-bit variable-length integer from the front of `s`. Bits of
/// the fifth byte beyond the 32nd are dropped.
pub open spec fn parse_varint(s: Seq<u8>) -> Parsed<i32> {
    match parse_digits(s, 5) {
        Ok((v, n)) => Ok((signed_of(v, modulus_32()) as i32, n)),
        Err(e) => Err(e),
    }
}

/// Reads a 64-bit variable-length integer from the front of `s`. Bits of
/// the tenth byte beyond the 64th are dropped.
pub open spec fn parse_varlong(s: Seq<u8>) -> Parsed<i64> {
    match parse_digits(s, 10) {
        Ok((v, n)) => Ok((signed_of(v, modulus_64()) as i64, n)),
        Err(e) => Err(e),
    }
}

/// The number of binary digits of `v`: 0 for 0, else one more than the
/// position of its highest set bit.
pub open spec fn bit_length(v: nat) -> nat
    decreases v,
{
    if v == 0 {
        0
    } else {
        1 + bit_length(v / 2)
    }
}

/// Seven binary digits are stripped by one division by 128.
pub proof fn lemma_bit_length_shift7(v: nat)
    requires
        v >= 128,
    ensures
        bit_length(v) == 7 + bit_length(v / 128),
{
    reveal_with_fuel(bit_length, 8);
    assert(v / 2 / 2 / 2 / 2 / 2 / 2 / 2 == v / 128);
    assert(v / 2 >= 64 && v / 2 / 2 >= 32 && v / 2 / 2 / 2 >= 16);
}

/// A value below 128 has at most seven binary digits.
pub proof fn lemma_bit_length_small(v: nat)
    requires
        v < 128,
    ensures
        bit_length(v) <= 7,
{
    reveal_with_fuel(bit_length, 9);
}

/// The encoding of `v` has one byte per started group of seven binary
/// digits, and at least one.
pub proof fn lemma_varint_digits_len(v: nat)
    ensures
        varint_digits(v).len() == if v == 0 {
            1
        } else {
            (bit_length(v) + 6) / 7
        },
    decreases v,
{
    if v < 128 {
        lemma_bit_length_small(v);
        if v > 0 {
            assert(bit_length(v) >= 1);
        }
    } else {
        lemma_varint_digits_len(v / 128);
        lemma_bit_length_shift7(v);
        assert(v / 128 > 0);
    }
}

/// A variable-length integer that fits its width parses back to itself,
/// whatever follows it.
pub proof fn lemma_parse_digits_roundtrip(v: nat, rest: Seq<u8>, max: nat)
    requires
        varint_digits(v).len() <= max,
    ensures
        parse_digits(varint_digits(v) + rest, max) == Ok::<(nat, int), ReadError>(
            (v, varint_digits(v).len() as int),
        ),
    decreases v,
{
    let s = varint_digits(v) + rest;
    if v < 128 {
        assert(s[0] == v as u8);
    } else {
        let tail = varint_digits(v / 128);
        assert(s[0] == (v % 128 + 128) as u8);
        assert(s.skip(1) =~= tail + rest);
        lemma_parse_digits_roundtrip(v / 128, rest, (max - 1) as nat);
    }
}

/// Dividing by 128 takes one byte off the encoding of a value of two or
/// more bytes.
pub proof fn lemma_varint_digits_step(v: nat)
    ensures
        v >= 128 ==> varint_digits(v).len() == 1 + varint_digits(v / 128).len(),
        v < 128 ==> varint_digits(v).len() == 1,
{
}

/// No 32-bit value needs more than five bytes, and none of 64 bits more
/// than ten.
pub proof fn lemma_varint_fits(v: nat)
    ensures
        v < 0x1_0000_0000 ==> varint_digits(v).len() <= 5,
        v >= 0x1000_0000 ==> varint_digits(v).len() >= 5,
        v < 0x1_0000_0000_0000_0000 ==> varint_digits(v).len() <= 10,
{
    let v1 = v / 128;
    let v2 = v1 / 128;
    let v3 = v2 / 128;
    let v4 = v3 / 128;
    let v5 = v4 / 128;
    let v6 = v5 / 128;
    let v7 = v6 / 128;
    let v8 = v7 / 128;
    let v9 = v8 / 128;
    lemma_varint_digits_step(v);
    lemma_varint_digits_step(v1);
    lemma_varint_digits_step(v2);
    lemma_varint_digits_step(v3);
    lemma_varint_digits_step(v4);
    lemma_varint_digits_step(v5);
    lemma_varint_digits_step(v6);
    lemma_varint_digits_step(v7);
    lemma_varint_digits_step(v8);
    lemma_varint_digits_step(v9);
}

/// Encoding a 32-bit integer and decoding it again gives the integer back
/// and takes exactly the bytes that were written. For a value that is not
/// negative this is one byte per started group of seven binary digits, and
/// one byte for zero.
pub proof fn lemma_varint_roundtrip(v: i32, rest: Seq<u8>)
    ensures
        parse_varint(varint_bytes(v) + rest) == Ok::<(i32, int), ReadError>(
            (v, varint_bytes(v).len() as int),
        ),
        1 <= varint_bytes(v).len() <= 5,
        v > 0 ==> varint_bytes(v).len() == (bit_length(v as nat) + 6) / 7,
        v == 0 ==> varint_bytes(v).len() == 1,
        v < 0 ==> varint_bytes(v).len() == 5,
{
    let u = unsigned_of(v as int, modulus_32());
    lemma_varint_fits(u);
    lemma_parse_digits_roundtrip(u, rest, 5);
    lemma_varint_digits_len(u);
}

/// Encoding a 64-bit integer and decoding it again gives the integer back
/// and takes exactly the bytes that were written.
pub proof fn lemma_varlong_roundtrip(v: i64, rest: Seq<u8>)
    ensures
        parse_varlong(varlong_bytes(v) + rest) == Ok::<(i64, int), ReadError>(
            (v, varlong_bytes(v).len() as int),
        ),
        1 <= varlong_bytes(v).len() <= 10,
{
    let u = unsigned_of(v as int, modulus_64());
    lemma_varint_fits(u);
    lemma_parse_digits_roundtrip(u, rest, 10);
}

/// Appends the 32-bit variable-length form of `value` to `buf`.
pub fn write_varint(buf: &mut Vec<u8>, value: i32)
    ensures
        final(buf)@ == old(buf)@ + varint_bytes(value),
{
    let bits: u64 = if value < 0 {
        (value as i64 + 0x1_0000_0000) as u64
    } else {
        value as u64
    };
    write_digits(buf, bits);
}

/// Appends the 64-bit variable-length form of `value` to `buf`.
pub fn write_varlong(buf: &mut Vec<u8>, value: i64)
    ensures
        final(buf)@ == old(buf)@ + varlong_bytes(value),
{
    let bits: u64 = if value < 0 {
        (value as i128 + 0x1_0000_0000_0000_0000) as u64
    } else {
        value as u64
    };
    write_digits(buf, bits);
}

/// Appends the base-128 digits of `value` to `buf`.
pub fn write_digits(buf: &mut Vec<u8>, value: u64)
    ensures
        final(buf)@ == old(buf)@ + varint_digits(value as nat),
{
    let mut v: u64 = value;
    while v >= 128
        invariant
            buf@ + varint_digits(v as nat) == old(buf)@ + varint_digits(value as nat),
        decreases v,
    {
        let ghost before = buf@;
        buf.push((v % 128 + 128) as u8);
        proof {
            let d = seq![(v % 128 + 128) as u8];
            assert(varint_digits(v as nat) == d + varint_digits((v / 128) as nat));
            assert(buf@ =~= before + d);
            assert(buf@ + varint_digits((v / 128) as nat) =~= before + varint_digits(v as nat));
        }
        v = v / 128;
    }
    let ghost before = buf@;
    buf.push(v as u8);
    proof {
        assert(buf@ =~= before + varint_digits(v as nat));
    }
}


/// 128 to the power `i`.
pub open spec fn pow128(i: nat) -> nat
    decreases i,
{
    if i == 0 {
        1
    } else {
        128 * pow128((i - 1) as nat)
    }
}

/// 256 to the power `i`.
pub open spec fn pow256(i: nat) -> nat
    decreases i,
{
    if i == 0 {
        1
    } else {
        256 * pow256((i - 1) as nat)
    }
}

/// What a parse of the digits after the first `i` means for the whole,
/// when those first digits came to `acc` and the next place weighs `mult`.
pub open spec fn after_digits(acc: nat, mult: nat, i: int, inner: Parsed<nat>) -> Parsed<nat> {
    match inner {
        Ok((rest, n)) => Ok(((acc + mult * rest) as nat, n + i)),
        Err(e) => Err(e),
    }
}

/// The powers of 128 that ten digits can weigh.
pub proof fn lemma_pow128_values()
    ensures
        pow128(0) == 1,
        pow128(1) == 0x80,
        pow128(2) == 0x4000,
        pow128(3) == 0x20_0000,
        pow128(4) == 0x1000_0000,
        pow128(5) == 0x8_0000_0000,
        pow128(6) == 0x400_0000_0000,
        pow128(7) == 0x2_0000_0000_0000,
        pow128(8) == 0x100_0000_0000_0000,
        pow128(9) == 0x8000_0000_0000_0000,
        pow128(10) == 0x40_0000_0000_0000_0000,
{
    reveal_with_fuel(pow128, 11);
}

/// The powers of 256 that sixteen bytes can weigh.
pub proof fn lemma_pow256_values()
    ensures
        pow256(0) == 1,
        pow256(1) == 0x100,
        pow256(2) == 0x1_0000,
        pow256(3) == 0x100_0000,
        pow256(4) == 0x1_0000_0000,
        pow256(5) == 0x100_0000_0000,
        pow256(6) == 0x1_0000_0000_0000,
        pow256(7) == 0x100_0000_0000_0000,
        pow256(8) == 0x1_0000_0000_0000_0000,
        pow256(16) == 0x1_0000_0000_0000_0000_0000_0000_0000_0000,
{
    reveal_with_fuel(pow256, 9);
    assert(pow256(9) == 256 * pow256(8));
    assert(pow256(10) == 256 * pow256(9));
    assert(pow256(11) == 256 * pow256(10));
    assert(pow256(12) == 256 * pow256(11));
    assert(pow256(13) == 256 * pow256(12));
    assert(pow256(14) == 256 * pow256(13));
    assert(pow256(15) == 256 * pow256(14));
    assert(pow256(16) == 256 * pow256(15));
}

proof fn lemma_pow256_monotonic(i: nat, j: nat)
    requires
        i <= j,
    ensures
        0 < pow256(i) <= pow256(j),
    decreases j,
{
    if j == 0 {
    } else if i == j {
        lemma_pow256_monotonic((i - 1) as nat, (j - 1) as nat);
    } else {
        lemma_pow256_monotonic(i, (j - 1) as nat);
    }
}

proof fn lemma_pow128_monotonic(i: nat, j: nat)
    requires
        i <= j,
    ensures
        0 < pow128(i) <= pow128(j),
    decreases j,
{
    if j == 0 {
    } else if i == j {
        lemma_pow128_monotonic((i - 1) as nat, (j - 1) as nat);
    } else {
        lemma_pow128_monotonic(i, (j - 1) as nat);
    }
}

/// The big-endian form of `v` in `n` bytes; higher bytes of `v` are
/// dropped.
pub open spec fn be_bytes(v: nat, n: nat) -> Seq<u8>
    decreases n,
{
    if n == 0 {
        Seq::empty()
    } else {
        be_bytes(v / 256, (n - 1) as nat).push((v % 256) as u8)
    }
}

/// The number that the bytes of `s` spell in big-endian order.
pub open spec fn be_value(s: Seq<u8>) -> nat
    decreases s.len(),
{
    if s.len() == 0 {
        0
    } else {
        be_value(s.drop_last()) * 256 + s.last() as nat
    }
}

/// Reads `n` bytes from the front of `s` as one big-endian number.
pub open spec fn parse_be(s: Seq<u8>, n: nat) -> Parsed<nat> {
    if s.len() < n {
        Err(ReadError::ShortRead)
    } else {
        Ok((be_value(s.take(n as int)), n as int))
    }
}

/// The big-endian form has the length asked for.
pub proof fn lemma_be_bytes_len(v: nat, n: nat)
    ensures
        be_bytes(v, n).len() == n,
    decreases n,
{
    if n > 0 {
        lemma_be_bytes_len(v / 256, (n - 1) as nat);
    }
}

/// A number spelt by `n` bytes is below 256 to the `n`.
pub proof fn lemma_be_value_bound(s: Seq<u8>)
    ensures
        be_value(s) < pow256(s.len()),
    decreases s.len(),
{
    if s.len() > 0 {
        lemma_be_value_bound(s.drop_last());
        let a = be_value(s.drop_last());
        let p = pow256((s.len() - 1) as nat);
        assert(a * 256 + 255 < 256 * p) by (nonlinear_arith)
            requires
                a < p,
        ;
    }
}

/// A number that fits `n` bytes is read back from its big-endian form.
pub proof fn lemma_be_roundtrip(v: nat, n: nat)
    requires
        v < pow256(n),
    ensures
        be_value(be_bytes(v, n)) == v,
    decreases n,
{
    if n > 0 {
        let s = be_bytes(v, n);
        assert(s.drop_last() =~= be_bytes(v / 256, (n - 1) as nat));
        assert(v / 256 < pow256((n - 1) as nat)) by (nonlinear_arith)
            requires
                v < 256 * pow256((n - 1) as nat),
        ;
        lemma_be_roundtrip(v / 256, (n - 1) as nat);
    }
}

/// A number that fits `n` bytes parses back from its big-endian form,
/// whatever follows it.
pub proof fn lemma_parse_be_roundtrip(v: nat, n: nat, rest: Seq<u8>)
    requires
        v < pow256(n),
    ensures
        parse_be(be_bytes(v, n) + rest, n) == Ok::<(nat, int), ReadError>((v, n as int)),
{
    lemma_be_bytes_len(v, n);
    lemma_be_roundtrip(v, n);
    assert((be_bytes(v, n) + rest).take(n as int) =~= be_bytes(v, n));
}

/// Appends the low `n` bytes of `v` in big-endian order.
pub fn write_be(buf: &mut Vec<u8>, v: u128, n: usize)
    ensures
        final(buf)@ == old(buf)@ + be_bytes(v as nat, n as nat),
    decreases n,
{
    if n > 0 {
        write_be(buf, v / 256, n - 1);
        buf.push((v % 256) as u8);
        proof {
            assert(buf@ =~= old(buf)@ + be_bytes(v as nat, n as nat));
        }
    } else {
        proof {
            assert(buf@ =~= old(buf)@ + be_bytes(v as nat, n as nat));
        }
    }
}

/// A cursor over a byte slice. Each successful read takes the bytes of one
/// value from the front of what remains; a failed read takes nothing.
#[derive(Clone, Copy)]
pub struct ByteReader<'a> {
    buf: &'a [u8],
    pos: usize,
}

impl<'a> ByteReader<'a> {
    #[verifier::type_invariant]
    spec fn in_bounds(self) -> bool {
        self.pos <= self.buf@.len()
    }

    /// The bytes not yet read.
    pub closed spec fn remaining(&self) -> Seq<u8> {
        self.buf@.skip(self.pos as int)
    }

    /// All the bytes of the underlying slice.
    pub closed spec fn source(&self) -> Seq<u8> {
        self.buf@
    }

    /// A reader positioned at the start of `buf`.
    pub fn new(buf: &'a [u8]) -> (r: Self)
        ensures
            r.remaining() == buf@,
            r.source() == buf@,
    {
        let r = ByteReader { buf, pos: 0 };
        proof {
            assert(buf@.skip(0) =~= buf@);
        }
        r
    }

    /// The number of bytes not yet read.
    pub fn remaining_len(&self) -> (n: usize)
        ensures
            n == self.remaining().len(),
    {
        proof {
            use_type_invariant(self);
        }
        self.buf.len() - self.pos
    }

    /// Reads base-128 digits, at most `max` of them, into one number.
    pub fn read_digits(&mut self, max: usize) -> (r: Result<u128, ReadError>)
        requires
            max <= 10,
        ensures
            final(self).source() == old(self).source(),
            match parse_digits(old(self).remaining(), max as nat) {
                Ok((v, n)) => r == Ok::<u128, ReadError>(v as u128) && v < pow128(max as nat)
                    && 0 < n <= old(self).remaining().len()
                        && final(self).remaining() == old(self).remaining().skip(n),
                Err(e) => r == Err::<u128, ReadError>(e) && *final(self) == *old(self),
            },
    {
        proof {
            use_type_invariant(&*self);
            lemma_pow128_values();
        }
        let ghost s = self.remaining();
        let len = self.buf.len();
        let start = self.pos;
        let mut acc: u128 = 0;
        let mut mult: u128 = 1;
        let mut i: usize = 0;
        proof {
            assert(s.skip(0) =~= s);
        }
        while i < max
            invariant
                *self == *old(self),
                s == self.buf@.skip(self.pos as int),
                start == self.pos,
                len == self.buf@.len(),
                i <= max <= 10,
                start + i <= len,
                mult == pow128(i as nat),
                acc < mult,
                parse_digits(s, max as nat) == after_digits(
                    acc as nat,
                    mult as nat,
                    i as int,
                    parse_digits(s.skip(i as int), (max - i) as nat),
                ),
            decreases max - i,
        {
            proof {
                lemma_pow128_monotonic(i as nat, 9);
                lemma_pow128_monotonic((i + 1) as nat, max as nat);
                lemma_pow128_values();
            }
            if start + i >= len {
                return Err(ReadError::ShortRead);
            }
            let b = self.buf[start + i];
            let ghost si = s.skip(i as int);
            proof {
                assert(si[0] == b);
                assert(si.skip(1) =~= s.skip(i + 1));
                assert(mult * b <= mult * 255) by (nonlinear_arith)
                    requires
                        b <= 255,
                        mult >= 0,
                ;
            }
            if b < 128 {
                proof {
                    assert(mult * b <= mult * 127) by (nonlinear_arith)
                        requires
                            b <= 127,
                            mult >= 0,
                    ;
                    assert(acc + mult * b < pow128((i + 1) as nat));
                    assert(s.skip(i + 1) =~= self.buf@.skip(self.pos + i + 1));
                }
                let v = acc + mult * (b as u128);
                self.pos = start + i + 1;
                return Ok(v);
            }
            proof {
                let inner = parse_digits(s.skip(i + 1), (max - i - 1) as nat);
                let d = (b - 128) as nat;
                assert(mult * d <= mult * 127) by (nonlinear_arith)
                    requires
                        d <= 127,
                        mult >= 0,
                ;
                match inner {
                    Ok((rest, n)) => {
                        assert(acc + mult * (d + 128 * rest) == (acc + mult * d) + (mult * 128)
                            * rest) by (nonlinear_arith);
                    },
                    Err(e) => {},
                }
            }
            acc = acc + mult * ((b - 128) as u128);
            mult = mult * 128;
            i = i + 1;
        }
        Err(ReadError::VarintTooLong)
    }

    /// Reads a 32-bit variable-length integer.
    pub fn read_varint(&mut self) -> (r: Result<i32, ReadError>)
        ensures
            final(self).source() == old(self).source(),
            match parse_varint(old(self).remaining()) {
                Ok((v, n)) => r == Ok::<i32, ReadError>(v) && 0 < n <= old(self).remaining().len()
                    && final(self).remaining() == old(self).remaining().skip(n),
                Err(e) => r == Err::<i32, ReadError>(e) && *final(self) == *old(self),
            },
    {
        proof {
            lemma_pow128_values();
        }
        match self.read_digits(VARINT_MAX_BYTES) {
            Ok(v) => {
                let low: u64 = (v % 0x1_0000_0000) as u64;
                if low >= 0x8000_0000 {
                    Ok((low as i64 - 0x1_0000_0000) as i32)
                } else {
                    Ok(low as i32)
                }
            },
            Err(e) => Err(e),
        }
    }

    /// Reads a 64-bit variable-length integer.
    pub fn read_varlong(&mut self) -> (r: Result<i64, ReadError>)
        ensures
            final(self).source() == old(self).source(),
            match parse_varlong(old(self).remaining()) {
                Ok((v, n)) => r == Ok::<i64, ReadError>(v) && 0 < n <= old(self).remaining().len()
                    && final(self).remaining() == old(self).remaining().skip(n),
                Err(e) => r == Err::<i64, ReadError>(e) && *final(self) == *old(self),
            },
    {
        proof {
            lemma_pow128_values();
        }
        match self.read_digits(VARLONG_MAX_BYTES) {
            Ok(v) => {
                let low: u128 = v % 0x1_0000_0000_0000_0000;
                if low >= 0x8000_0000_0000_0000 {
                    Ok((low as i128 - 0x1_0000_0000_0000_0000) as i64)
                } else {
                    Ok(low as i64)
                }
            },
            Err(e) => Err(e),
        }
    }

    /// Reads `n` bytes as one big-endian number.
    pub fn read_be(&mut self, n: usize) -> (r: Result<u128, ReadError>)
        requires
            n <= 16,
        ensures
            final(self).source() == old(self).source(),
            match parse_be(old(self).remaining(), n as nat) {
                Ok((v, k)) => r == Ok::<u128, ReadError>(v as u128) && v < pow256(n as nat) && k
                    == n && final(self).remaining() == old(self).remaining().skip(k),
                Err(e) => r == Err::<u128, ReadError>(e) && *final(self) == *old(self),
            },
    {
        proof {
            use_type_invariant(&*self);
            lemma_pow256_values();
        }
        let ghost s = self.remaining();
        let len = self.buf.len();
        let start = self.pos;
        if len - start < n {
            return Err(ReadError::ShortRead);
        }
        let mut acc: u128 = 0;
        let mut i: usize = 0;
        proof {
            assert(s.take(0) =~= Seq::<u8>::empty());
        }
        while i < n
            invariant
                *self == *old(self),
                s == self.buf@.skip(self.pos as int),
                start == self.pos,
                len == self.buf@.len(),
                i <= n <= 16,
                start + n <= len,
                acc == be_value(s.take(i as int)),
                acc < pow256(i as nat),
            decreases n - i,
        {
            let b = self.buf[start + i];
            proof {
                let t = s.take(i + 1);
                assert(t.drop_last() =~= s.take(i as int));
                assert(t.last() == b);
                lemma_be_value_bound(t);
                lemma_pow256_monotonic((i + 1) as nat, 16);
                lemma_pow256_values();
            }
            acc = acc * 256 + b as u128;
            i = i + 1;
        }
        proof {
            assert(s.skip(n as int) =~= self.buf@.skip(self.pos + n));
        }
        self.pos = start + n;
        Ok(acc)
    }

    /// Reads exactly `n` raw bytes.
    pub fn read_bytes(&mut self, n: usize) -> (r: Result<Vec<u8>, ReadError>)
        ensures
            final(self).source() == old(self).source(),
            match r {
                Ok(v) => n <= old(self).remaining().len() && v@ == old(self).remaining().take(
                    n as int,
                ) && final(self).remaining() == old(self).remaining().skip(n as int),
                Err(e) => e == ReadError::ShortRead && n > old(self).remaining().len()
                    && *final(self) == *old(self),
            },
    {
        proof {
            use_type_invariant(&*self);
        }
        let len = self.buf.len();
        let start = self.pos;
        if len - start < n {
            return Err(ReadError::ShortRead);
        }
        let part = vstd::slice::slice_subrange(self.buf, start, start + n);
        let v = vstd::slice::slice_to_vec(part);
        proof {
            assert(part@ =~= self.buf@.skip(start as int).take(n as int));
            assert(self.buf@.skip(start as int).skip(n as int) =~= self.buf@.skip(start + n));
        }
        self.pos = start + n;
        Ok(v)
    }

    /// Reads all the bytes that remain.
    pub fn read_rest(&mut self) -> (v: Vec<u8>)
        ensures
            final(self).source() == old(self).source(),
            v@ == old(self).remaining(),
            final(self).remaining() == Seq::<u8>::empty(),
    {
        let n = self.remaining_len();
        let ghost s = self.remaining();
        match self.read_bytes(n) {
            Ok(v) => {
                proof {
                    assert(s.take(n as int) =~= s);
                    assert(s.skip(n as int) =~= Seq::<u8>::empty());
                }
                v
            },
            Err(_) => Vec::new(),
        }
    }

    /// The next byte, without taking it.
    pub fn peek(&self) -> (b: u8)
        requires
            self.remaining().len() > 0,
        ensures
            b == self.remaining()[0],
    {
        proof {
            use_type_invariant(self);
        }
        self.buf[self.pos]
    }

    /// Passes over `n` bytes.
    pub fn advance(&mut self, n: usize)
        requires
            n <= old(self).remaining().len(),
        ensures
            final(self).source() == old(self).source(),
            final(self).remaining() == old(self).remaining().skip(n as int),
    {
        proof {
            use_type_invariant(&*self);
            assert(self.buf@.skip(self.pos as int).skip(n as int) =~= self.buf@.skip(
                self.pos + n,
            ));
        }
        let total = self.buf.len();
        assert(self.pos + n <= total);
        self.pos = self.pos + n;
    }
}

} // verus!
