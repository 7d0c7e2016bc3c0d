//! Packets of the game state. Floating-point fields are kept as their
//! IEEE-754 bit patterns, which is how they travel.

use crate::buf::{
    be_bytes, lemma_be_bytes_len, lemma_parse_be_roundtrip, lemma_parse_digits_roundtrip,
    lemma_varint_fits, parse_be, parse_digits, varint_digits, write_be, write_digits,
    ByteReader, Parsed, ReadError,
};
use crate::buf::{varint_bytes, write_varint};
use crate::client::{ChatVisibility, ClientInformation, HumanoidArm, ServerboundClientInformation};
use crate::buf::{lemma_varint_roundtrip, parse_varint};
use crate::packets::login::MAX_REASON_LENGTH;
use crate::wire::{
    bool_bytes, lemma_bool_roundtrip, lemma_string_roundtrip, parse_bool, parse_string,
    read_bool, read_string, read_u32, read_u64, read_u8, string_bytes, write_bool, write_string,
};
use crate::write::ProtocolPacket;
use vstd::prelude::*;
use vstd::utf8::encode_utf8;

verus! {

/// The server sets up the world border.
#[derive(Clone, Copy, Debug, PartialEq, Eq, Structural)]
pub struct ClientboundInitializeBorderPacket {
    /// The bits of the 64-bit float.
    pub new_center_x: u64,
    /// The bits of the 64-bit float.
    pub new_center_z: u64,
    /// The bits of the 64-bit float.
    pub old_size: u64,
    /// The bits of the 64-bit float.
    pub new_size: u64,
    pub lerp_time: u64,
    pub new_absolute_max_size: u32,
    pub warning_blocks: u32,
    pub warning_time: u32,
}

/// The client tells the server how many chunks it can take per tick.
#[derive(Clone, Copy, Debug, PartialEq, Eq, Structural)]
pub struct ServerboundChunkBatchReceivedPacket {
    /// The bits of the 32-bit float.
    pub desired_chunks_per_tick: u32,
}

/// The server asks whether the client is alive.
#[derive(Clone, Copy, Debug, PartialEq, Eq, Structural)]
pub struct ClientboundKeepAlive {
    pub id: u64,
}

/// The client says that it is alive.
#[derive(Clone, Copy, Debug, PartialEq, Eq, Structural)]
pub struct ServerboundKeepAlive {
    pub id: u64,
}

/// The answer that keeps the connection alive: the id that the server
/// sent.
pub fn keep_alive_reply(asked: ClientboundKeepAlive) -> (r: ServerboundKeepAlive)
    ensures
        r.id == asked.id,
{
    ServerboundKeepAlive { id: asked.id }
}

/// The wire form of the border packet's fields: the four floats, eight
/// bytes each, then the four numbers in variable length.
pub open spec fn border_bytes(p: ClientboundInitializeBorderPacket) -> Seq<u8> {
    be_bytes(p.new_center_x as nat, 8) + be_bytes(p.new_center_z as nat, 8) + be_bytes(
        p.old_size as nat,
        8,
    ) + be_bytes(p.new_size as nat, 8) + varint_digits(p.lerp_time as nat) + varint_digits(
        p.new_absolute_max_size as nat,
    ) + varint_digits(p.warning_blocks as nat) + varint_digits(p.warning_time as nat)
}

/// Reads an unsigned number of `bytes` bytes in variable length: bits
/// beyond its width are dropped.
pub open spec fn parse_unsigned(s: Seq<u8>, max: nat, modulus: int) -> Parsed<nat> {
    match parse_digits(s, max) {
        Ok((v, n)) => Ok(((v as int % modulus) as nat, n)),
        Err(e) => Err(e),
    }
}

/// Reads four numbers of eight bytes each.
pub open spec fn parse_four(s: Seq<u8>) -> Parsed<(nat, nat, nat, nat)> {
    if s.len() < 32 {
        Err(ReadError::ShortRead)
    } else {
        Ok(
            (
                (
                    crate::buf::be_value(s.subrange(0, 8)),
                    crate::buf::be_value(s.subrange(8, 16)),
                    crate::buf::be_value(s.subrange(16, 24)),
                    crate::buf::be_value(s.subrange(24, 32)),
                ),
                32,
            ),
        )
    }
}

/// Reads the four numbers of variable length that end the border packet:
/// one of 64 bits and three of 32.
pub open spec fn parse_tail(s: Seq<u8>) -> Parsed<(nat, nat, nat, nat)> {
    match parse_unsigned(s, 10, 0x1_0000_0000_0000_0000) {
        Ok((lerp, n1)) => match parse_unsigned(s.skip(n1), 5, 0x1_0000_0000) {
            Ok((max_size, n2)) => match parse_unsigned(s.skip(n1 + n2), 5, 0x1_0000_0000) {
                Ok((blocks, n3)) => match parse_unsigned(
                    s.skip(n1 + n2 + n3),
                    5,
                    0x1_0000_0000,
                ) {
                    Ok((time, n4)) => Ok(((lerp, max_size, blocks, time), n1 + n2 + n3 + n4)),
                    Err(e) => Err(e),
                },
                Err(e) => Err(e),
            },
            Err(e) => Err(e),
        },
        Err(e) => Err(e),
    }
}

/// Reads the fields of the border packet.
pub open spec fn parse_border(s: Seq<u8>) -> Parsed<ClientboundInitializeBorderPacket> {
    match parse_four(s) {
        Ok((floats, _)) => match parse_tail(s.skip(32)) {
            Ok((numbers, n)) => Ok(
                (
                    ClientboundInitializeBorderPacket {
                        new_center_x: floats.0 as u64,
                        new_center_z: floats.1 as u64,
                        old_size: floats.2 as u64,
                        new_size: floats.3 as u64,
                        lerp_time: numbers.0 as u64,
                        new_absolute_max_size: numbers.1 as u32,
                        warning_blocks: numbers.2 as u32,
                        warning_time: numbers.3 as u32,
                    },
                    32 + n,
                ),
            ),
            Err(e) => Err(e),
        },
        Err(e) => Err(e),
    }
}

/// An unsigned number within its width is read back from its variable
/// length form.
pub proof fn lemma_unsigned_roundtrip(v: nat, max: nat, modulus: int, rest: Seq<u8>)
    requires
        v < modulus,
        (max == 5 && modulus == 0x1_0000_0000) || (max == 10 && modulus
            == 0x1_0000_0000_0000_0000),
    ensures
        parse_unsigned(varint_digits(v) + rest, max, modulus) == Ok::<(nat, int), ReadError>(
            (v, varint_digits(v).len() as int),
        ),
{
    lemma_varint_fits(v);
    lemma_parse_digits_roundtrip(v, rest, max);
    assert(v as int % modulus == v) by (nonlinear_arith)
        requires
            0 <= v < modulus,
    ;
}

/// The wire form of the four floats.
pub open spec fn four_bytes(a: nat, b: nat, c: nat, d: nat) -> Seq<u8> {
    be_bytes(a, 8) + be_bytes(b, 8) + be_bytes(c, 8) + be_bytes(d, 8)
}

/// The wire form of the four numbers of variable length.
pub open spec fn tail_bytes(a: nat, b: nat, c: nat, d: nat) -> Seq<u8> {
    varint_digits(a) + varint_digits(b) + varint_digits(c) + varint_digits(d)
}

/// Four numbers of 64 bits are read back as written.
#[verifier::rlimit(50)]
pub proof fn lemma_four_roundtrip(a: nat, b: nat, c: nat, d: nat, rest: Seq<u8>)
    requires
        a < 0x1_0000_0000_0000_0000,
        b < 0x1_0000_0000_0000_0000,
        c < 0x1_0000_0000_0000_0000,
        d < 0x1_0000_0000_0000_0000,
    ensures
        parse_four(four_bytes(a, b, c, d) + rest) == Ok::<((nat, nat, nat, nat), int), ReadError>(
            ((a, b, c, d), 32),
        ),
        four_bytes(a, b, c, d).len() == 32,
        (four_bytes(a, b, c, d) + rest).skip(32) == rest,
{
    let s = four_bytes(a, b, c, d) + rest;
    crate::wire::lemma_pow256_8();
    lemma_be_bytes_len(a, 8);
    lemma_be_bytes_len(b, 8);
    lemma_be_bytes_len(c, 8);
    lemma_be_bytes_len(d, 8);
    crate::buf::lemma_be_roundtrip(a, 8);
    crate::buf::lemma_be_roundtrip(b, 8);
    crate::buf::lemma_be_roundtrip(c, 8);
    crate::buf::lemma_be_roundtrip(d, 8);
    assert(s.subrange(0, 8) =~= be_bytes(a, 8));
    assert(s.subrange(8, 16) =~= be_bytes(b, 8));
    assert(s.subrange(16, 24) =~= be_bytes(c, 8));
    assert(s.subrange(24, 32) =~= be_bytes(d, 8));
    assert(s.skip(32) =~= rest);
}

/// Two numbers of variable length, one after the other, are read one
/// after the other.
proof fn lemma_unsigned_then(v: nat, max: nat, modulus: int, after: Seq<u8>, all: Seq<u8>)
    requires
        v < modulus,
        (max == 5 && modulus == 0x1_0000_0000) || (max == 10 && modulus
            == 0x1_0000_0000_0000_0000),
        all == varint_digits(v) + after,
    ensures
        parse_unsigned(all, max, modulus) == Ok::<(nat, int), ReadError>(
            (v, varint_digits(v).len() as int),
        ),
        all.skip(varint_digits(v).len() as int) == after,
        varint_digits(v).len() <= all.len(),
{
    lemma_unsigned_roundtrip(v, max, modulus, after);
    assert(all.skip(varint_digits(v).len() as int) =~= after);
}

/// The four numbers of variable length are read back as written.
#[verifier::rlimit(50)]
pub proof fn lemma_tail_roundtrip(a: nat, b: nat, c: nat, d: nat, rest: Seq<u8>)
    requires
        a < 0x1_0000_0000_0000_0000,
        b < 0x1_0000_0000,
        c < 0x1_0000_0000,
        d < 0x1_0000_0000,
    ensures
        parse_tail(tail_bytes(a, b, c, d) + rest) == Ok::<((nat, nat, nat, nat), int), ReadError>(
            ((a, b, c, d), tail_bytes(a, b, c, d).len() as int),
        ),
{
    let e = varint_digits(a);
    let f = varint_digits(b);
    let g = varint_digits(c);
    let h = varint_digits(d);
    let s = tail_bytes(a, b, c, d) + rest;
    let after_first = f + (g + (h + rest));
    let after_second = g + (h + rest);
    let after_third = h + rest;
    assert(s =~= e + after_first);
    lemma_unsigned_then(a, 10, 0x1_0000_0000_0000_0000, after_first, s);
    let n1 = e.len() as int;
    lemma_unsigned_then(b, 5, 0x1_0000_0000, after_second, after_first);
    let n2 = f.len() as int;
    lemma_unsigned_then(c, 5, 0x1_0000_0000, after_third, after_second);
    let n3 = g.len() as int;
    lemma_unsigned_then(d, 5, 0x1_0000_0000, rest, after_third);
    let n4 = h.len() as int;
    assert(s.skip(n1) == after_first);
    assert(s.skip(n1 + n2) =~= after_first.skip(n2));
    assert(s.skip(n1 + n2 + n3) =~= after_second.skip(n3));
    assert(tail_bytes(a, b, c, d).len() == n1 + n2 + n3 + n4);
}

/// The border packet is read back as written, whatever follows it.
pub proof fn lemma_border_roundtrip(p: ClientboundInitializeBorderPacket, rest: Seq<u8>)
    ensures
        parse_border(border_bytes(p) + rest) == Ok::<
            (ClientboundInitializeBorderPacket, int),
            ReadError,
        >((p, border_bytes(p).len() as int)),
{
    let floats = four_bytes(
        p.new_center_x as nat,
        p.new_center_z as nat,
        p.old_size as nat,
        p.new_size as nat,
    );
    let numbers = tail_bytes(
        p.lerp_time as nat,
        p.new_absolute_max_size as nat,
        p.warning_blocks as nat,
        p.warning_time as nat,
    );
    let s = border_bytes(p) + rest;
    assert(border_bytes(p) =~= floats + numbers);
    assert(s =~= floats + (numbers + rest));
    lemma_four_roundtrip(
        p.new_center_x as nat,
        p.new_center_z as nat,
        p.old_size as nat,
        p.new_size as nat,
        numbers + rest,
    );
    lemma_tail_roundtrip(
        p.lerp_time as nat,
        p.new_absolute_max_size as nat,
        p.warning_blocks as nat,
        p.warning_time as nat,
        rest,
    );
}

/// Reads an unsigned number in variable length: of 64 bits where `long` is
/// set, else of 32.
fn read_unsigned(reader: &mut ByteReader, long: bool) -> (r: Result<u64, ReadError>)
    ensures
        final(reader).source() == old(reader).source(),
        match parse_unsigned(
            old(reader).remaining(),
            if long {
                10
            } else {
                5
            },
            if long {
                0x1_0000_0000_0000_0000
            } else {
                0x1_0000_0000
            },
        ) {
            Ok((v, n)) => r == Ok::<u64, ReadError>(v as u64)
                && 0 < n <= old(reader).remaining().len()
                && final(reader).remaining() == old(reader).remaining().skip(n)
                && (long || v < 0x1_0000_0000),
            Err(e) => r == Err::<u64, ReadError>(e),
        },
{
    proof {
        crate::buf::lemma_pow128_values();
    }
    if long {
        match reader.read_digits(10) {
            Ok(v) => Ok((v % 0x1_0000_0000_0000_0000) as u64),
            Err(e) => Err(e),
        }
    } else {
        match reader.read_digits(5) {
            Ok(v) => Ok((v % 0x1_0000_0000) as u64),
            Err(e) => Err(e),
        }
    }
}

/// Reads four numbers of eight bytes each.
#[verifier::rlimit(50)]
fn read_four(reader: &mut ByteReader) -> (r: Result<(u64, u64, u64, u64), ReadError>)
    ensures
        final(reader).source() == old(reader).source(),
        match parse_four(old(reader).remaining()) {
            Ok((v, n)) => r == Ok::<(u64, u64, u64, u64), ReadError>(
                (v.0 as u64, v.1 as u64, v.2 as u64, v.3 as u64),
            ) && final(reader).remaining() == old(reader).remaining().skip(32)
                && old(reader).remaining().len() >= 32,
            Err(e) => r == Err::<(u64, u64, u64, u64), ReadError>(e),
        },
{
    proof {
        crate::wire::lemma_pow256_8();
    }
    let ghost s = reader.remaining();
    if reader.remaining_len() < 32 {
        return Err(ReadError::ShortRead);
    }
    let a = match reader.read_be(8) {
        Ok(v) => v as u64,
        Err(e) => { return Err(e); },
    };
    let b = match reader.read_be(8) {
        Ok(v) => v as u64,
        Err(e) => { return Err(e); },
    };
    let c = match reader.read_be(8) {
        Ok(v) => v as u64,
        Err(e) => { return Err(e); },
    };
    let d = match reader.read_be(8) {
        Ok(v) => v as u64,
        Err(e) => { return Err(e); },
    };
    proof {
        assert(s.take(8) =~= s.subrange(0, 8));
        assert(s.skip(8).take(8) =~= s.subrange(8, 16));
        assert(s.skip(8).skip(8).take(8) =~= s.subrange(16, 24));
        assert(s.skip(8).skip(8).skip(8).take(8) =~= s.subrange(24, 32));
        assert(s.skip(8).skip(8).skip(8).skip(8) =~= s.skip(32));
    }
    Ok((a, b, c, d))
}

/// Reads the four numbers of variable length that end the border packet.
#[verifier::rlimit(50)]
fn read_tail(reader: &mut ByteReader) -> (r: Result<(u64, u32, u32, u32), ReadError>)
    ensures
        final(reader).source() == old(reader).source(),
        match parse_tail(old(reader).remaining()) {
            Ok((v, n)) => r == Ok::<(u64, u32, u32, u32), ReadError>(
                (v.0 as u64, v.1 as u32, v.2 as u32, v.3 as u32),
            ) && 0 <= n <= old(reader).remaining().len()
                && final(reader).remaining() == old(reader).remaining().skip(n),
            Err(e) => r == Err::<(u64, u32, u32, u32), ReadError>(e),
        },
{
    let ghost s = reader.remaining();
    let a = match read_unsigned(reader, true) {
        Ok(v) => v,
        Err(e) => { return Err(e); },
    };
    let ghost n1 = parse_unsigned(s, 10, 0x1_0000_0000_0000_0000).unwrap().1;
    let b = match read_unsigned(reader, false) {
        Ok(v) => v as u32,
        Err(e) => { return Err(e); },
    };
    let ghost n2 = parse_unsigned(s.skip(n1), 5, 0x1_0000_0000).unwrap().1;
    proof {
        assert(s.skip(n1).skip(n2) =~= s.skip(n1 + n2));
    }
    let c = match read_unsigned(reader, false) {
        Ok(v) => v as u32,
        Err(e) => { return Err(e); },
    };
    let ghost n3 = parse_unsigned(s.skip(n1 + n2), 5, 0x1_0000_0000).unwrap().1;
    proof {
        assert(s.skip(n1 + n2).skip(n3) =~= s.skip(n1 + n2 + n3));
    }
    let d = match read_unsigned(reader, false) {
        Ok(v) => v as u32,
        Err(e) => { return Err(e); },
    };
    let ghost n4 = parse_unsigned(s.skip(n1 + n2 + n3), 5, 0x1_0000_0000).unwrap().1;
    proof {
        assert(s.skip(n1 + n2 + n3).skip(n4) =~= s.skip(n1 + n2 + n3 + n4));
    }
    Ok((a, b, c, d))
}

impl ClientboundInitializeBorderPacket {
    /// Reads the packet's fields.
    pub fn read(reader: &mut ByteReader) -> (r: Result<Self, ReadError>)
        ensures
            final(reader).source() == old(reader).source(),
            match parse_border(old(reader).remaining()) {
                Ok((v, n)) => r == Ok::<Self, ReadError>(v)
                    && 0 <= n <= old(reader).remaining().len()
                    && final(reader).remaining() == old(reader).remaining().skip(n),
                Err(e) => r == Err::<Self, ReadError>(e),
            },
    {
        let ghost s = reader.remaining();
        let floats = match read_four(reader) {
            Ok(v) => v,
            Err(e) => { return Err(e); },
        };
        let numbers = match read_tail(reader) {
            Ok(v) => v,
            Err(e) => { return Err(e); },
        };
        proof {
            let n = parse_tail(s.skip(32)).unwrap().1;
            assert(s.skip(32).skip(n) =~= s.skip(32 + n));
        }
        Ok(
            ClientboundInitializeBorderPacket {
                new_center_x: floats.0,
                new_center_z: floats.1,
                old_size: floats.2,
                new_size: floats.3,
                lerp_time: numbers.0,
                new_absolute_max_size: numbers.1,
                warning_blocks: numbers.2,
                warning_time: numbers.3,
            },
        )
    }
}

impl ProtocolPacket for ClientboundInitializeBorderPacket {
    open spec fn spec_id(&self) -> i32 {
        0x26
    }

    open spec fn body(&self) -> Seq<u8> {
        border_bytes(*self)
    }

    open spec fn writable(&self) -> bool {
        true
    }

    fn id(&self) -> (id: i32) {
        0x26
    }

    fn write(&self, buf: &mut Vec<u8>) -> (r: Result<(), std::io::Error>) {
        write_four(buf, self.new_center_x, self.new_center_z, self.old_size, self.new_size);
        let ghost mid = buf@;
        write_tail(
            buf,
            self.lerp_time,
            self.new_absolute_max_size,
            self.warning_blocks,
            self.warning_time,
        );
        proof {
            let floats = four_bytes(
                self.new_center_x as nat,
                self.new_center_z as nat,
                self.old_size as nat,
                self.new_size as nat,
            );
            let numbers = tail_bytes(
                self.lerp_time as nat,
                self.new_absolute_max_size as nat,
                self.warning_blocks as nat,
                self.warning_time as nat,
            );
            assert(border_bytes(*self) =~= floats + numbers);
            assert(old(buf)@ + floats + numbers =~= old(buf)@ + (floats + numbers));
        }
        Ok(())
    }
}

/// Appends four numbers of eight bytes each.
fn write_four(buf: &mut Vec<u8>, a: u64, b: u64, c: u64, d: u64)
    ensures
        final(buf)@ == old(buf)@ + four_bytes(a as nat, b as nat, c as nat, d as nat),
{
    write_be(buf, a as u128, 8);
    let ghost one = buf@;
    write_be(buf, b as u128, 8);
    let ghost two = buf@;
    write_be(buf, c as u128, 8);
    let ghost three = buf@;
    write_be(buf, d as u128, 8);
    proof {
        let start = old(buf)@;
        let first = be_bytes(a as nat, 8);
        let second = first + be_bytes(b as nat, 8);
        let third = second + be_bytes(c as nat, 8);
        assert(two =~= start + second);
        assert(three =~= start + third);
        assert(buf@ =~= start + (third + be_bytes(d as nat, 8)));
    }
}

/// Appends the four numbers of variable length that end the border
/// packet.
fn write_tail(buf: &mut Vec<u8>, a: u64, b: u32, c: u32, d: u32)
    ensures
        final(buf)@ == old(buf)@ + tail_bytes(a as nat, b as nat, c as nat, d as nat),
{
    write_digits(buf, a);
    let ghost one = buf@;
    write_digits(buf, b as u64);
    let ghost two = buf@;
    write_digits(buf, c as u64);
    let ghost three = buf@;
    write_digits(buf, d as u64);
    proof {
        let start = old(buf)@;
        let first = varint_digits(a as nat);
        let second = first + varint_digits(b as nat);
        let third = second + varint_digits(c as nat);
        assert(two =~= start + second);
        assert(three =~= start + third);
        assert(buf@ =~= start + (third + varint_digits(d as nat)));
    }
}

impl ProtocolPacket for ServerboundChunkBatchReceivedPacket {
    open spec fn spec_id(&self) -> i32 {
        0x0a
    }

    open spec fn body(&self) -> Seq<u8> {
        be_bytes(self.desired_chunks_per_tick as nat, 4)
    }

    open spec fn writable(&self) -> bool {
        true
    }

    fn id(&self) -> (id: i32) {
        0x0a
    }

    fn write(&self, buf: &mut Vec<u8>) -> (r: Result<(), std::io::Error>) {
        write_be(buf, self.desired_chunks_per_tick as u128, 4);
        Ok(())
    }
}

impl ProtocolPacket for ServerboundKeepAlive {
    open spec fn spec_id(&self) -> i32 {
        0x1a
    }

    open spec fn body(&self) -> Seq<u8> {
        be_bytes(self.id as nat, 8)
    }

    open spec fn writable(&self) -> bool {
        true
    }

    fn id(&self) -> (id: i32) {
        0x1a
    }

    fn write(&self, buf: &mut Vec<u8>) -> (r: Result<(), std::io::Error>) {
        write_be(buf, self.id as u128, 8);
        Ok(())
    }
}


/// The number that stands for a chat visibility on the wire.
pub open spec fn chat_visibility_id(v: ChatVisibility) -> i32 {
    match v {
        ChatVisibility::Full => 0,
        ChatVisibility::System => 1,
        ChatVisibility::Hidden => 2,
    }
}

/// The number that stands for a hand on the wire.
pub open spec fn arm_id(arm: HumanoidArm) -> i32 {
    match arm {
        HumanoidArm::Left => 0,
        HumanoidArm::Right => 1,
    }
}

/// The wire form of the client's options: the language, the view
/// distance, the chat visibility, whether chat has colors, the skin
/// parts, the main hand, whether text is filtered, and whether the client
/// may be listed.
pub open spec fn information_bytes(i: InformationView) -> Seq<u8> {
    information_head(i) + information_tail(i)
}

impl ProtocolPacket for ServerboundClientInformation {
    open spec fn spec_id(&self) -> i32 {
        0x0c
    }

    open spec fn body(&self) -> Seq<u8> {
        information_bytes(self.information@)
    }

    open spec fn writable(&self) -> bool {
        encode_utf8(self.information.language@).len() <= i32::MAX
    }

    fn id(&self) -> (id: i32) {
        0x0c
    }

    fn write(&self, buf: &mut Vec<u8>) -> (r: Result<(), std::io::Error>) {
        match write_information_head(buf, &self.information) {
            Ok(()) => {},
            Err(e) => { return Err(e); },
        }
        let ghost mid = buf@;
        write_information_tail(buf, &self.information);
        proof {
            let head = information_head(self.information@);
            let tail = information_tail(self.information@);
            assert(buf@ == mid + tail);
            assert(old(buf)@ + head + tail =~= old(buf)@ + (head + tail));
        }
        Ok(())
    }
}

/// Appends the first four of the client's options.
#[verifier::rlimit(50)]
fn write_information_head(buf: &mut Vec<u8>, i: &ClientInformation) -> (r: Result<
    (),
    std::io::Error,
>)
    ensures
        r is Ok <==> encode_utf8(i.language@).len() <= i32::MAX,
        r is Ok ==> final(buf)@ == old(buf)@ + information_head(i@),
        old(buf)@.is_prefix_of(final(buf)@),
{
    match write_string(buf, i.language.as_str()) {
        Ok(()) => {},
        Err(e) => { return Err(e); },
    }
    let ghost wrote_language = buf@;
    write_be(buf, i.view_distance as u128, 1);
    let ghost wrote_distance = buf@;
    write_varint(
        buf,
        match i.chat_visibility {
            ChatVisibility::Full => 0,
            ChatVisibility::System => 1,
            ChatVisibility::Hidden => 2,
        },
    );
    let ghost wrote_visibility = buf@;
    write_bool(buf, i.chat_colors);
    proof {
        let start = old(buf)@;
        let with_language = string_bytes(i.language@);
        let with_distance = with_language + be_bytes(i.view_distance as nat, 1);
        let with_visibility = with_distance + varint_bytes(chat_visibility_id(i.chat_visibility));
        let whole = with_visibility + bool_bytes(i.chat_colors);
        assert(wrote_language == start + with_language);
        assert(wrote_distance =~= start + with_distance);
        assert(wrote_visibility =~= start + with_visibility);
        assert(buf@ =~= start + whole);
        assert(whole == information_head(i@));
    }
    Ok(())
}

/// Appends the last four of the client's options.
#[verifier::rlimit(50)]
fn write_information_tail(buf: &mut Vec<u8>, i: &ClientInformation)
    ensures
        final(buf)@ == old(buf)@ + information_tail(i@),
{
    write_be(buf, i.model_customisation as u128, 1);
    let ghost wrote_skin = buf@;
    write_varint(
        buf,
        match i.main_hand {
            HumanoidArm::Left => 0,
            HumanoidArm::Right => 1,
        },
    );
    let ghost wrote_hand = buf@;
    write_bool(buf, i.text_filtering_enabled);
    let ghost wrote_filtering = buf@;
    write_bool(buf, i.allows_listing);
    proof {
        let start = old(buf)@;
        let with_skin = be_bytes(i.model_customisation as nat, 1);
        let with_hand = with_skin + varint_bytes(arm_id(i.main_hand));
        let with_filtering = with_hand + bool_bytes(i.text_filtering_enabled);
        let whole = with_filtering + bool_bytes(i.allows_listing);
        assert(wrote_skin == start + with_skin);
        assert(wrote_hand =~= start + with_hand);
        assert(wrote_filtering =~= start + with_filtering);
        assert(buf@ =~= start + whole);
        assert(whole == information_tail(i@));
    }
}

/// The most characters of a language's name.
pub const MAX_LANGUAGE_LENGTH: usize = 16;

/// The mathematical value of the client's options.
pub struct InformationView {
    pub language: Seq<char>,
    pub view_distance: u8,
    pub chat_visibility: ChatVisibility,
    pub chat_colors: bool,
    pub model_customisation: u8,
    pub main_hand: HumanoidArm,
    pub text_filtering_enabled: bool,
    pub allows_listing: bool,
}

impl View for ClientInformation {
    type V = InformationView;

    open spec fn view(&self) -> InformationView {
        InformationView {
            language: self.language@,
            view_distance: self.view_distance,
            chat_visibility: self.chat_visibility,
            chat_colors: self.chat_colors,
            model_customisation: self.model_customisation,
            main_hand: self.main_hand,
            text_filtering_enabled: self.text_filtering_enabled,
            allows_listing: self.allows_listing,
        }
    }
}

/// The first four of the client's options on the wire: the language, the
/// view distance, the chat visibility and whether chat has colors.
pub open spec fn information_head(i: InformationView) -> Seq<u8> {
    string_bytes(i.language) + be_bytes(i.view_distance as nat, 1) + varint_bytes(
        chat_visibility_id(i.chat_visibility),
    ) + bool_bytes(i.chat_colors)
}

/// The last four of the client's options on the wire: the skin parts, the
/// main hand, whether text is filtered, and whether the client may be
/// listed.
pub open spec fn information_tail(i: InformationView) -> Seq<u8> {
    be_bytes(i.model_customisation as nat, 1) + varint_bytes(arm_id(i.main_hand)) + bool_bytes(
        i.text_filtering_enabled,
    ) + bool_bytes(i.allows_listing)
}

/// The chat visibility that a number stands for.
pub open spec fn chat_visibility_of(id: i32) -> Option<ChatVisibility> {
    if id == 0 {
        Some(ChatVisibility::Full)
    } else if id == 1 {
        Some(ChatVisibility::System)
    } else if id == 2 {
        Some(ChatVisibility::Hidden)
    } else {
        None
    }
}

/// The hand that a number stands for.
pub open spec fn arm_of(id: i32) -> Option<HumanoidArm> {
    if id == 0 {
        Some(HumanoidArm::Left)
    } else if id == 1 {
        Some(HumanoidArm::Right)
    } else {
        None
    }
}

/// Reads the first four of the client's options.
pub open spec fn parse_information_head(s: Seq<u8>) -> Parsed<(Seq<char>, u8, ChatVisibility, bool)> {
    match parse_string(s, MAX_LANGUAGE_LENGTH as nat) {
        Ok((language, n1)) => match parse_be(s.skip(n1), 1) {
            Ok((distance, _)) => match parse_varint(s.skip(n1 + 1)) {
                Ok((visibility, n3)) => match chat_visibility_of(visibility) {
                    Some(chat_visibility) => match parse_bool(s.skip(n1 + 1 + n3)) {
                        Ok((colors, _)) => Ok(
                            ((language, distance as u8, chat_visibility, colors), n1 + 1 + n3 + 1),
                        ),
                        Err(e) => Err(e),
                    },
                    None => Err(ReadError::Malformed),
                },
                Err(e) => Err(e),
            },
            Err(e) => Err(e),
        },
        Err(e) => Err(e),
    }
}

/// Reads the last four of the client's options.
pub open spec fn parse_information_tail(s: Seq<u8>) -> Parsed<(u8, HumanoidArm, bool, bool)> {
    match parse_be(s, 1) {
        Ok((skin, _)) => match parse_varint(s.skip(1)) {
            Ok((hand, n2)) => match arm_of(hand) {
                Some(main_hand) => match parse_bool(s.skip(1 + n2)) {
                    Ok((filtering, _)) => match parse_bool(s.skip(1 + n2 + 1)) {
                        Ok((listing, _)) => Ok(
                            ((skin as u8, main_hand, filtering, listing), 1 + n2 + 2),
                        ),
                        Err(e) => Err(e),
                    },
                    Err(e) => Err(e),
                },
                None => Err(ReadError::Malformed),
            },
            Err(e) => Err(e),
        },
        Err(e) => Err(e),
    }
}

/// Reads the client's options.
pub open spec fn parse_information(s: Seq<u8>) -> Parsed<InformationView> {
    match parse_information_head(s) {
        Ok((head, n)) => match parse_information_tail(s.skip(n)) {
            Ok((tail, m)) => Ok(
                (
                    InformationView {
                        language: head.0,
                        view_distance: head.1,
                        chat_visibility: head.2,
                        chat_colors: head.3,
                        model_customisation: tail.0,
                        main_hand: tail.1,
                        text_filtering_enabled: tail.2,
                        allows_listing: tail.3,
                    },
                    n + m,
                ),
            ),
            Err(e) => Err(e),
        },
        Err(e) => Err(e),
    }
}

/// The first four options are read back as written.
#[verifier::rlimit(50)]
pub proof fn lemma_information_head_roundtrip(i: InformationView, rest: Seq<u8>)
    requires
        i.language.len() <= MAX_LANGUAGE_LENGTH,
        encode_utf8(i.language).len() <= i32::MAX,
    ensures
        parse_information_head(information_head(i) + rest) == Ok::<
            ((Seq<char>, u8, ChatVisibility, bool), int),
            ReadError,
        >(
            (
                (i.language, i.view_distance, i.chat_visibility, i.chat_colors),
                information_head(i).len() as int,
            ),
        ),
        (information_head(i) + rest).skip(information_head(i).len() as int) == rest,
{
    let a = string_bytes(i.language);
    let b = be_bytes(i.view_distance as nat, 1);
    let c = varint_bytes(chat_visibility_id(i.chat_visibility));
    let d = bool_bytes(i.chat_colors);
    let s = information_head(i) + rest;
    let after_a = b + (c + (d + rest));
    let after_b = c + (d + rest);
    let after_c = d + rest;
    crate::wire::lemma_pow256_8();
    lemma_be_bytes_len(i.view_distance as nat, 1);
    assert(s =~= a + after_a);
    lemma_string_roundtrip(i.language, MAX_LANGUAGE_LENGTH as nat, after_a);
    let n1 = a.len() as int;
    assert(s.skip(n1) =~= after_a);
    lemma_parse_be_roundtrip(i.view_distance as nat, 1, after_b);
    assert(s.skip(n1 + 1) =~= after_b);
    lemma_varint_roundtrip(chat_visibility_id(i.chat_visibility), after_c);
    let n3 = c.len() as int;
    assert(s.skip(n1 + 1 + n3) =~= after_c);
    lemma_bool_roundtrip(i.chat_colors, rest);
    assert(information_head(i).len() == n1 + 1 + n3 + 1);
    assert(s.skip(n1 + 1 + n3 + 1) =~= rest);
}

/// The last four options are read back as written.
#[verifier::rlimit(50)]
pub proof fn lemma_information_tail_roundtrip(i: InformationView, rest: Seq<u8>)
    ensures
        parse_information_tail(information_tail(i) + rest) == Ok::<
            ((u8, HumanoidArm, bool, bool), int),
            ReadError,
        >(
            (
                (i.model_customisation, i.main_hand, i.text_filtering_enabled, i.allows_listing),
                information_tail(i).len() as int,
            ),
        ),
{
    let a = be_bytes(i.model_customisation as nat, 1);
    let b = varint_bytes(arm_id(i.main_hand));
    let c = bool_bytes(i.text_filtering_enabled);
    let d = bool_bytes(i.allows_listing);
    let s = information_tail(i) + rest;
    let after_a = b + (c + (d + rest));
    let after_b = c + (d + rest);
    let after_c = d + rest;
    crate::wire::lemma_pow256_8();
    lemma_be_bytes_len(i.model_customisation as nat, 1);
    assert(s =~= a + after_a);
    lemma_parse_be_roundtrip(i.model_customisation as nat, 1, after_a);
    assert(s.skip(1) =~= after_a);
    lemma_varint_roundtrip(arm_id(i.main_hand), after_b);
    let n2 = b.len() as int;
    assert(s.skip(1 + n2) =~= after_b);
    lemma_bool_roundtrip(i.text_filtering_enabled, after_c);
    assert(s.skip(1 + n2 + 1) =~= after_c);
    lemma_bool_roundtrip(i.allows_listing, rest);
    assert(information_tail(i).len() == 1 + n2 + 2);
}

/// The client's options are read back as written, where the language's
/// name is within its limit.
pub proof fn lemma_information_roundtrip(i: InformationView, rest: Seq<u8>)
    requires
        i.language.len() <= MAX_LANGUAGE_LENGTH,
        encode_utf8(i.language).len() <= i32::MAX,
    ensures
        parse_information(information_head(i) + information_tail(i) + rest) == Ok::<
            (InformationView, int),
            ReadError,
        >((i, (information_head(i) + information_tail(i)).len() as int)),
{
    let s = information_head(i) + information_tail(i) + rest;
    assert(s =~= information_head(i) + (information_tail(i) + rest));
    lemma_information_head_roundtrip(i, information_tail(i) + rest);
    lemma_information_tail_roundtrip(i, rest);
}

/// Reads the first four of the client's options.
#[verifier::rlimit(50)]
fn read_information_head(reader: &mut ByteReader) -> (r: Result<
    (String, u8, ChatVisibility, bool),
    ReadError,
>)
    ensures
        final(reader).source() == old(reader).source(),
        match parse_information_head(old(reader).remaining()) {
            Ok((v, n)) => r matches Ok(got) && (got.0@, got.1, got.2, got.3) == v && 0 <= n
                <= old(reader).remaining().len()
                    && final(reader).remaining() == old(reader).remaining().skip(n),
            Err(e) => r matches Err(got) && got == e,
        },
{
    let ghost s = reader.remaining();
    let language = match read_string(reader, MAX_LANGUAGE_LENGTH) {
        Ok(v) => v,
        Err(e) => { return Err(e); },
    };
    let ghost n1 = parse_string(s, MAX_LANGUAGE_LENGTH as nat).unwrap().1;
    let distance = match read_u8(reader) {
        Ok(v) => v,
        Err(e) => { return Err(e); },
    };
    proof {
        assert(s.skip(n1).skip(1) =~= s.skip(n1 + 1));
    }
    let visibility = match reader.read_varint() {
        Ok(v) => v,
        Err(e) => { return Err(e); },
    };
    let ghost n3 = parse_varint(s.skip(n1 + 1)).unwrap().1;
    proof {
        assert(s.skip(n1 + 1).skip(n3) =~= s.skip(n1 + 1 + n3));
    }
    let chat_visibility = if visibility == 0 {
        ChatVisibility::Full
    } else if visibility == 1 {
        ChatVisibility::System
    } else if visibility == 2 {
        ChatVisibility::Hidden
    } else {
        return Err(ReadError::Malformed);
    };
    let colors = match read_bool(reader) {
        Ok(v) => v,
        Err(e) => { return Err(e); },
    };
    proof {
        assert(s.skip(n1 + 1 + n3).skip(1) =~= s.skip(n1 + 1 + n3 + 1));
    }
    Ok((language, distance, chat_visibility, colors))
}

/// Reads the last four of the client's options.
#[verifier::rlimit(50)]
fn read_information_tail(reader: &mut ByteReader) -> (r: Result<
    (u8, HumanoidArm, bool, bool),
    ReadError,
>)
    ensures
        final(reader).source() == old(reader).source(),
        match parse_information_tail(old(reader).remaining()) {
            Ok((v, n)) => r == Ok::<(u8, HumanoidArm, bool, bool), ReadError>(v)
                && 0 <= n <= old(reader).remaining().len()
                && final(reader).remaining() == old(reader).remaining().skip(n),
            Err(e) => r == Err::<(u8, HumanoidArm, bool, bool), ReadError>(e),
        },
{
    let ghost s = reader.remaining();
    let skin = match read_u8(reader) {
        Ok(v) => v,
        Err(e) => { return Err(e); },
    };
    let hand = match reader.read_varint() {
        Ok(v) => v,
        Err(e) => { return Err(e); },
    };
    let ghost n2 = parse_varint(s.skip(1)).unwrap().1;
    proof {
        assert(s.skip(1).skip(n2) =~= s.skip(1 + n2));
    }
    let main_hand = if hand == 0 {
        HumanoidArm::Left
    } else if hand == 1 {
        HumanoidArm::Right
    } else {
        return Err(ReadError::Malformed);
    };
    let filtering = match read_bool(reader) {
        Ok(v) => v,
        Err(e) => { return Err(e); },
    };
    proof {
        assert(s.skip(1 + n2).skip(1) =~= s.skip(1 + n2 + 1));
    }
    let listing = match read_bool(reader) {
        Ok(v) => v,
        Err(e) => { return Err(e); },
    };
    proof {
        assert(s.skip(1 + n2 + 1).skip(1) =~= s.skip(1 + n2 + 2));
    }
    Ok((skin, main_hand, filtering, listing))
}

impl ServerboundClientInformation {
    /// Reads the packet's fields.
    pub fn read(reader: &mut ByteReader) -> (r: Result<ServerboundClientInformation, ReadError>)
        ensures
            final(reader).source() == old(reader).source(),
            match parse_information(old(reader).remaining()) {
                Ok((v, n)) => r matches Ok(p) && p.information@ == v
                    && 0 <= n <= old(reader).remaining().len()
                    && final(reader).remaining() == old(reader).remaining().skip(n),
                Err(e) => r matches Err(got) && got == e,
            },
    {
        let ghost s = reader.remaining();
        let head = match read_information_head(reader) {
            Ok(v) => v,
            Err(e) => { return Err(e); },
        };
        let ghost n = parse_information_head(s).unwrap().1;
        let tail = match read_information_tail(reader) {
            Ok(v) => v,
            Err(e) => { return Err(e); },
        };
        proof {
            let m = parse_information_tail(s.skip(n)).unwrap().1;
            assert(s.skip(n).skip(m) =~= s.skip(n + m));
        }
        Ok(
            ServerboundClientInformation {
                information: ClientInformation {
                    language: head.0,
                    view_distance: head.1,
                    chat_visibility: head.2,
                    chat_colors: head.3,
                    model_customisation: tail.0,
                    main_hand: tail.1,
                    text_filtering_enabled: tail.2,
                    allows_listing: tail.3,
                },
            },
        )
    }
}

impl ServerboundChunkBatchReceivedPacket {
    /// Reads the packet's fields: the four bytes of the float.
    pub fn read(reader: &mut ByteReader) -> (r: Result<Self, ReadError>)
        ensures
            final(reader).source() == old(reader).source(),
            match parse_be(old(reader).remaining(), 4) {
                Ok((v, n)) => r == Ok::<Self, ReadError>(
                    ServerboundChunkBatchReceivedPacket { desired_chunks_per_tick: v as u32 },
                ) && final(reader).remaining() == old(reader).remaining().skip(4),
                Err(e) => r == Err::<Self, ReadError>(e),
            },
    {
        match read_u32(reader) {
            Ok(v) => Ok(ServerboundChunkBatchReceivedPacket { desired_chunks_per_tick: v }),
            Err(e) => Err(e),
        }
    }
}

impl ServerboundKeepAlive {
    /// Reads the packet's fields: the eight bytes of the id.
    pub fn read(reader: &mut ByteReader) -> (r: Result<Self, ReadError>)
        ensures
            final(reader).source() == old(reader).source(),
            match parse_be(old(reader).remaining(), 8) {
                Ok((v, n)) => r == Ok::<Self, ReadError>(ServerboundKeepAlive { id: v as u64 })
                    && final(reader).remaining() == old(reader).remaining().skip(8),
                Err(e) => r == Err::<Self, ReadError>(e),
            },
    {
        match read_u64(reader) {
            Ok(v) => Ok(ServerboundKeepAlive { id: v }),
            Err(e) => Err(e),
        }
    }
}

impl ClientboundKeepAlive {
    /// Reads the packet's fields: the eight bytes of the id.
    pub fn read(reader: &mut ByteReader) -> (r: Result<Self, ReadError>)
        ensures
            final(reader).source() == old(reader).source(),
            match parse_be(old(reader).remaining(), 8) {
                Ok((v, n)) => r == Ok::<Self, ReadError>(ClientboundKeepAlive { id: v as u64 })
                    && final(reader).remaining() == old(reader).remaining().skip(8),
                Err(e) => r == Err::<Self, ReadError>(e),
            },
    {
        match read_u64(reader) {
            Ok(v) => Ok(ClientboundKeepAlive { id: v }),
            Err(e) => Err(e),
        }
    }
}

/// A number of `n` bytes is read back from its wire form: this is the
/// round trip of the packets that are one such number.
pub proof fn lemma_number_packet_roundtrip(v: nat, n: nat, rest: Seq<u8>)
    requires
        (n == 4 && v <= u32::MAX) || (n == 8 && v <= u64::MAX),
    ensures
        parse_be(be_bytes(v, n) + rest, n) == Ok::<(nat, int), ReadError>((v, n as int)),
{
    crate::wire::lemma_pow256_8();
    lemma_parse_be_roundtrip(v, n, rest);
}


/// The server has sent a batch of chunks.
#[derive(Clone, Copy, Debug, PartialEq, Eq, Structural)]
pub struct ClientboundChunkBatchFinished {
    pub batch_size: i32,
}

/// A packet of the game state, from the server.
#[derive(Clone, Debug, PartialEq, Eq)]
pub enum GamePacket {
    ChunkBatchFinished(ClientboundChunkBatchFinished),
    /// The server begins a batch of chunks.
    ChunkBatchStart,
    /// The server closes the connection.
    Disconnect { reason: String },
    InitializeBorder(ClientboundInitializeBorderPacket),
    KeepAlive(ClientboundKeepAlive),
    /// The server asks the client to be configured anew.
    StartConfiguration,
}

/// The mathematical value of a `GamePacket`.
pub enum GamePacketView {
    ChunkBatchFinished(ClientboundChunkBatchFinished),
    ChunkBatchStart,
    Disconnect { reason: Seq<char> },
    InitializeBorder(ClientboundInitializeBorderPacket),
    KeepAlive(ClientboundKeepAlive),
    StartConfiguration,
}

impl View for GamePacket {
    type V = GamePacketView;

    open spec fn view(&self) -> GamePacketView {
        match self {
            GamePacket::ChunkBatchFinished(p) => GamePacketView::ChunkBatchFinished(*p),
            GamePacket::ChunkBatchStart => GamePacketView::ChunkBatchStart,
            GamePacket::Disconnect { reason } => GamePacketView::Disconnect { reason: reason@ },
            GamePacket::InitializeBorder(p) => GamePacketView::InitializeBorder(*p),
            GamePacket::KeepAlive(p) => GamePacketView::KeepAlive(*p),
            GamePacket::StartConfiguration => GamePacketView::StartConfiguration,
        }
    }
}

/// The id under which a packet goes over the wire.
pub open spec fn game_packet_id(p: GamePacketView) -> i32 {
    match p {
        GamePacketView::ChunkBatchFinished(_) => 0x0c,
        GamePacketView::ChunkBatchStart => 0x0d,
        GamePacketView::Disconnect { .. } => 0x1d,
        GamePacketView::InitializeBorder(_) => 0x26,
        GamePacketView::KeepAlive(_) => 0x27,
        GamePacketView::StartConfiguration => 0x70,
    }
}

/// The wire form of a packet's fields.
pub open spec fn game_body_bytes(p: GamePacketView) -> Seq<u8> {
    match p {
        GamePacketView::ChunkBatchFinished(p) => varint_bytes(p.batch_size),
        GamePacketView::ChunkBatchStart => Seq::empty(),
        GamePacketView::Disconnect { reason } => string_bytes(reason),
        GamePacketView::InitializeBorder(p) => border_bytes(p),
        GamePacketView::KeepAlive(p) => be_bytes(p.id as nat, 8),
        GamePacketView::StartConfiguration => Seq::empty(),
    }
}

/// The wire form of a packet: its id, then its fields.
pub open spec fn game_packet_bytes(p: GamePacketView) -> Seq<u8> {
    varint_bytes(game_packet_id(p)) + game_body_bytes(p)
}

/// Whether a packet can be written and read back.
pub open spec fn game_packet_fits(p: GamePacketView) -> bool {
    p matches GamePacketView::Disconnect { reason } ==> reason.len() <= MAX_REASON_LENGTH
        && encode_utf8(reason).len() <= i32::MAX
}

/// Reads the fields of the packet with id `id` from the front of `s`. An id
/// that the state does not know is `UnexpectedPacket`.
pub open spec fn parse_game_body(id: i32, s: Seq<u8>) -> Parsed<GamePacketView> {
    if id == 0x0c {
        match parse_varint(s) {
            Ok((batch_size, n)) => Ok(
                (GamePacketView::ChunkBatchFinished(ClientboundChunkBatchFinished { batch_size }), n),
            ),
            Err(e) => Err(e),
        }
    } else if id == 0x0d {
        Ok((GamePacketView::ChunkBatchStart, 0))
    } else if id == 0x1d {
        match parse_string(s, MAX_REASON_LENGTH as nat) {
            Ok((reason, n)) => Ok((GamePacketView::Disconnect { reason }, n)),
            Err(e) => Err(e),
        }
    } else if id == 0x26 {
        match parse_border(s) {
            Ok((p, n)) => Ok((GamePacketView::InitializeBorder(p), n)),
            Err(e) => Err(e),
        }
    } else if id == 0x27 {
        match parse_be(s, 8) {
            Ok((id, n)) => Ok((GamePacketView::KeepAlive(ClientboundKeepAlive { id: id as u64 }), n)),
            Err(e) => Err(e),
        }
    } else if id == 0x70 {
        Ok((GamePacketView::StartConfiguration, 0))
    } else {
        Err(ReadError::UnexpectedPacket)
    }
}

/// Reads one packet from the bytes of a frame: the id, then the fields,
/// which must take all the bytes that are left.
pub open spec fn parse_game_packet(s: Seq<u8>) -> Result<GamePacketView, ReadError> {
    match parse_varint(s) {
        Ok((id, n)) => match parse_game_body(id, s.skip(n)) {
            Ok((p, m)) => if n + m == s.len() {
                Ok(p)
            } else {
                Err(ReadError::Malformed)
            },
            Err(e) => Err(e),
        },
        Err(e) => Err(e),
    }
}

/// Every packet of the game state that can be written is read back as
/// written.
#[verifier::rlimit(50)]
pub proof fn lemma_game_packet_roundtrip(p: GamePacketView)
    requires
        game_packet_fits(p),
    ensures
        parse_game_packet(game_packet_bytes(p)) == Ok::<GamePacketView, ReadError>(p),
{
    let id = game_packet_id(p);
    let body = game_body_bytes(p);
    let s = game_packet_bytes(p);
    let empty = Seq::<u8>::empty();
    lemma_varint_roundtrip(id, body);
    assert(s.skip(varint_bytes(id).len() as int) =~= body);
    assert(body + empty =~= body);
    crate::wire::lemma_pow256_8();
    match p {
        GamePacketView::ChunkBatchFinished(p) => {
            lemma_varint_roundtrip(p.batch_size, empty);
        },
        GamePacketView::ChunkBatchStart => {},
        GamePacketView::Disconnect { reason } => {
            lemma_string_roundtrip(reason, MAX_REASON_LENGTH as nat, empty);
        },
        GamePacketView::InitializeBorder(p) => {
            lemma_border_roundtrip(p, empty);
        },
        GamePacketView::KeepAlive(p) => {
            lemma_parse_be_roundtrip(p.id as nat, 8, empty);
            lemma_be_bytes_len(p.id as nat, 8);
        },
        GamePacketView::StartConfiguration => {},
    }
}

impl GamePacket {
    /// Reads the fields of the packet with id `id`.
    #[verifier::rlimit(50)]
    pub fn read(id: i32, reader: &mut ByteReader) -> (r: Result<GamePacket, ReadError>)
        ensures
            final(reader).source() == old(reader).source(),
            match parse_game_body(id, old(reader).remaining()) {
                Ok((v, n)) => r matches Ok(p) && p@ == v && 0 <= n <= old(reader).remaining().len()
                    && final(reader).remaining() == old(reader).remaining().skip(n),
                Err(e) => r matches Err(got) && got == e,
            },
    {
        let ghost s = reader.remaining();
        if id == 0x0c {
            match reader.read_varint() {
                Ok(batch_size) => Ok(
                    GamePacket::ChunkBatchFinished(ClientboundChunkBatchFinished { batch_size }),
                ),
                Err(e) => Err(e),
            }
        } else if id == 0x0d {
            proof {
                assert(s.skip(0) =~= s);
            }
            Ok(GamePacket::ChunkBatchStart)
        } else if id == 0x1d {
            match read_string(reader, MAX_REASON_LENGTH) {
                Ok(reason) => Ok(GamePacket::Disconnect { reason }),
                Err(e) => Err(e),
            }
        } else if id == 0x26 {
            match ClientboundInitializeBorderPacket::read(reader) {
                Ok(p) => Ok(GamePacket::InitializeBorder(p)),
                Err(e) => Err(e),
            }
        } else if id == 0x27 {
            match ClientboundKeepAlive::read(reader) {
                Ok(p) => Ok(GamePacket::KeepAlive(p)),
                Err(e) => Err(e),
            }
        } else if id == 0x70 {
            proof {
                assert(s.skip(0) =~= s);
            }
            Ok(GamePacket::StartConfiguration)
        } else {
            Err(ReadError::UnexpectedPacket)
        }
    }
}

/// Reads one packet of the game state from the bytes of a frame.
pub fn read_game_packet(frame: &[u8]) -> (r: Result<GamePacket, ReadError>)
    ensures
        match parse_game_packet(frame@) {
            Ok(v) => r matches Ok(p) && p@ == v,
            Err(e) => r matches Err(got) && got == e,
        },
{
    let mut reader = ByteReader::new(frame);
    let id = match reader.read_varint() {
        Ok(v) => v,
        Err(e) => { return Err(e); },
    };
    let packet = match GamePacket::read(id, &mut reader) {
        Ok(p) => p,
        Err(e) => { return Err(e); },
    };
    if reader.remaining_len() != 0 {
        return Err(ReadError::Malformed);
    }
    Ok(packet)
}

impl ProtocolPacket for GamePacket {
    open spec fn spec_id(&self) -> i32 {
        game_packet_id(self@)
    }

    open spec fn body(&self) -> Seq<u8> {
        game_body_bytes(self@)
    }

    open spec fn writable(&self) -> bool {
        self@ matches GamePacketView::Disconnect { reason } ==> encode_utf8(reason).len()
            <= i32::MAX
    }

    fn id(&self) -> (id: i32) {
        match self {
            GamePacket::ChunkBatchFinished(_) => 0x0c,
            GamePacket::ChunkBatchStart => 0x0d,
            GamePacket::Disconnect { .. } => 0x1d,
            GamePacket::InitializeBorder(_) => 0x26,
            GamePacket::KeepAlive(_) => 0x27,
            GamePacket::StartConfiguration => 0x70,
        }
    }

    fn write(&self, buf: &mut Vec<u8>) -> (r: Result<(), std::io::Error>) {
        match self {
            GamePacket::ChunkBatchFinished(p) => {
                write_varint(buf, p.batch_size);
                Ok(())
            },
            GamePacket::ChunkBatchStart => {
                proof {
                    assert(buf@ =~= old(buf)@ + Seq::<u8>::empty());
                }
                Ok(())
            },
            GamePacket::Disconnect { reason } => write_string(buf, reason.as_str()),
            GamePacket::InitializeBorder(p) => p.write(buf),
            GamePacket::KeepAlive(p) => {
                write_be(buf, p.id as u128, 8);
                Ok(())
            },
            GamePacket::StartConfiguration => {
                proof {
                    assert(buf@ =~= old(buf)@ + Seq::<u8>::empty());
                }
                Ok(())
            },
        }
    }
}

/// A packet of the game state, from the client.
#[derive(Clone, Debug, PartialEq, Eq)]
pub enum ServerboundGamePacket {
    ChunkBatchReceived(ServerboundChunkBatchReceivedPacket),
    ClientInformation(ServerboundClientInformation),
    /// The client is ready to be configured anew.
    ConfigurationAcknowledged,
    KeepAlive(ServerboundKeepAlive),
}

/// The mathematical value of a `ServerboundGamePacket`.
pub enum ServerboundGameView {
    ChunkBatchReceived(ServerboundChunkBatchReceivedPacket),
    ClientInformation(InformationView),
    ConfigurationAcknowledged,
    KeepAlive(ServerboundKeepAlive),
}

impl View for ServerboundGamePacket {
    type V = ServerboundGameView;

    open spec fn view(&self) -> ServerboundGameView {
        match self {
            ServerboundGamePacket::ChunkBatchReceived(
                p,
            ) => ServerboundGameView::ChunkBatchReceived(*p),
            ServerboundGamePacket::ClientInformation(
                p,
            ) => ServerboundGameView::ClientInformation(p.information@),
            ServerboundGamePacket::ConfigurationAcknowledged => ServerboundGameView::ConfigurationAcknowledged,
            ServerboundGamePacket::KeepAlive(p) => ServerboundGameView::KeepAlive(*p),
        }
    }
}

/// The id under which a packet goes to the server.
pub open spec fn serverbound_game_id(p: ServerboundGameView) -> i32 {
    match p {
        ServerboundGameView::ChunkBatchReceived(_) => 0x0a,
        ServerboundGameView::ClientInformation(_) => 0x0c,
        ServerboundGameView::ConfigurationAcknowledged => 0x0e,
        ServerboundGameView::KeepAlive(_) => 0x1a,
    }
}

/// The wire form of a packet's fields.
pub open spec fn serverbound_game_body(p: ServerboundGameView) -> Seq<u8> {
    match p {
        ServerboundGameView::ChunkBatchReceived(p) => be_bytes(p.desired_chunks_per_tick as nat, 4),
        ServerboundGameView::ClientInformation(i) => information_bytes(i),
        ServerboundGameView::ConfigurationAcknowledged => Seq::empty(),
        ServerboundGameView::KeepAlive(p) => be_bytes(p.id as nat, 8),
    }
}

/// Reads the fields of the packet with id `id` from the front of `s`.
pub open spec fn parse_serverbound_game_body(id: i32, s: Seq<u8>) -> Parsed<ServerboundGameView> {
    if id == 0x0a {
        match parse_be(s, 4) {
            Ok((v, n)) => Ok(
                (
                    ServerboundGameView::ChunkBatchReceived(
                        ServerboundChunkBatchReceivedPacket { desired_chunks_per_tick: v as u32 },
                    ),
                    n,
                ),
            ),
            Err(e) => Err(e),
        }
    } else if id == 0x0c {
        match parse_information(s) {
            Ok((i, n)) => Ok((ServerboundGameView::ClientInformation(i), n)),
            Err(e) => Err(e),
        }
    } else if id == 0x0e {
        Ok((ServerboundGameView::ConfigurationAcknowledged, 0))
    } else if id == 0x1a {
        match parse_be(s, 8) {
            Ok((v, n)) => Ok(
                (ServerboundGameView::KeepAlive(ServerboundKeepAlive { id: v as u64 }), n),
            ),
            Err(e) => Err(e),
        }
    } else {
        Err(ReadError::UnexpectedPacket)
    }
}

/// Reads one packet that a client sent in the game state from the bytes of
/// a frame.
pub open spec fn parse_serverbound_game_packet(s: Seq<u8>) -> Result<ServerboundGameView, ReadError> {
    match parse_varint(s) {
        Ok((id, n)) => match parse_serverbound_game_body(id, s.skip(n)) {
            Ok((p, m)) => if n + m == s.len() {
                Ok(p)
            } else {
                Err(ReadError::Malformed)
            },
            Err(e) => Err(e),
        },
        Err(e) => Err(e),
    }
}

/// Whether a packet can be written and read back.
pub open spec fn serverbound_game_fits(p: ServerboundGameView) -> bool {
    p matches ServerboundGameView::ClientInformation(i) ==> i.language.len() <= MAX_LANGUAGE_LENGTH
        && encode_utf8(i.language).len() <= i32::MAX
}

/// Every packet of the game state that the client can write is read back
/// as written.
#[verifier::rlimit(50)]
pub proof fn lemma_serverbound_game_roundtrip(p: ServerboundGameView)
    requires
        serverbound_game_fits(p),
    ensures
        parse_serverbound_game_packet(
            varint_bytes(serverbound_game_id(p)) + serverbound_game_body(p),
        ) == Ok::<ServerboundGameView, ReadError>(p),
{
    let id = serverbound_game_id(p);
    let body = serverbound_game_body(p);
    let s = varint_bytes(id) + body;
    let empty = Seq::<u8>::empty();
    lemma_varint_roundtrip(id, body);
    assert(s.skip(varint_bytes(id).len() as int) =~= body);
    assert(body + empty =~= body);
    crate::wire::lemma_pow256_8();
    match p {
        ServerboundGameView::ChunkBatchReceived(p) => {
            lemma_parse_be_roundtrip(p.desired_chunks_per_tick as nat, 4, empty);
            lemma_be_bytes_len(p.desired_chunks_per_tick as nat, 4);
        },
        ServerboundGameView::ClientInformation(i) => {
            lemma_information_roundtrip(i, empty);
            assert(information_bytes(i) + empty =~= information_bytes(i));
        },
        ServerboundGameView::ConfigurationAcknowledged => {},
        ServerboundGameView::KeepAlive(p) => {
            lemma_parse_be_roundtrip(p.id as nat, 8, empty);
            lemma_be_bytes_len(p.id as nat, 8);
        },
    }
}

impl ServerboundGamePacket {
    /// Reads the fields of the packet with id `id`.
    #[verifier::rlimit(50)]
    pub fn read(id: i32, reader: &mut ByteReader) -> (r: Result<ServerboundGamePacket, ReadError>)
        ensures
            final(reader).source() == old(reader).source(),
            match parse_serverbound_game_body(id, old(reader).remaining()) {
                Ok((v, n)) => r matches Ok(p) && p@ == v && 0 <= n <= old(reader).remaining().len()
                    && final(reader).remaining() == old(reader).remaining().skip(n),
                Err(e) => r matches Err(got) && got == e,
            },
    {
        let ghost s = reader.remaining();
        if id == 0x0a {
            match ServerboundChunkBatchReceivedPacket::read(reader) {
                Ok(p) => Ok(ServerboundGamePacket::ChunkBatchReceived(p)),
                Err(e) => Err(e),
            }
        } else if id == 0x0c {
            match ServerboundClientInformation::read(reader) {
                Ok(p) => Ok(ServerboundGamePacket::ClientInformation(p)),
                Err(e) => Err(e),
            }
        } else if id == 0x0e {
            proof {
                assert(s.skip(0) =~= s);
            }
            Ok(ServerboundGamePacket::ConfigurationAcknowledged)
        } else if id == 0x1a {
            match ServerboundKeepAlive::read(reader) {
                Ok(p) => Ok(ServerboundGamePacket::KeepAlive(p)),
                Err(e) => Err(e),
            }
        } else {
            Err(ReadError::UnexpectedPacket)
        }
    }
}

impl ProtocolPacket for ServerboundGamePacket {
    open spec fn spec_id(&self) -> i32 {
        serverbound_game_id(self@)
    }

    open spec fn body(&self) -> Seq<u8> {
        serverbound_game_body(self@)
    }

    open spec fn writable(&self) -> bool {
        self@ matches ServerboundGameView::ClientInformation(i) ==> encode_utf8(i.language).len()
            <= i32::MAX
    }

    fn id(&self) -> (id: i32) {
        match self {
            ServerboundGamePacket::ChunkBatchReceived(_) => 0x0a,
            ServerboundGamePacket::ClientInformation(_) => 0x0c,
            ServerboundGamePacket::ConfigurationAcknowledged => 0x0e,
            ServerboundGamePacket::KeepAlive(_) => 0x1a,
        }
    }

    fn write(&self, buf: &mut Vec<u8>) -> (r: Result<(), std::io::Error>) {
        match self {
            ServerboundGamePacket::ChunkBatchReceived(p) => p.write(buf),
            ServerboundGamePacket::ClientInformation(p) => p.write(buf),
            ServerboundGamePacket::ConfigurationAcknowledged => {
                proof {
                    assert(buf@ =~= old(buf)@ + Seq::<u8>::empty());
                }
                Ok(())
            },
            ServerboundGamePacket::KeepAlive(p) => p.write(buf),
        }
    }
}

} // verus!
