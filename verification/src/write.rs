//! The writing of a packet as a frame.

use crate::buf::{varint_bytes, write_varint};
use crate::frame::{frame_bytes, write_frame, MAX_FRAME_LENGTH};
use crate::packets::login::{
    login_body_bytes, login_packet_id, login_packet_writable, LoginPacket,
};
use vstd::prelude::*;

verus! {

/// A packet that can go over the wire: it has an id and fields that it can
/// write.
pub trait ProtocolPacket {
    /// The id under which the packet goes over the wire.
    spec fn spec_id(&self) -> i32;

    /// The wire form of the packet's fields.
    spec fn body(&self) -> Seq<u8>;

    /// Whether the lengths among the packet's fields can be written.
    spec fn writable(&self) -> bool;

    /// The id under which the packet goes over the wire.
    fn id(&self) -> (id: i32)
        ensures
            id == self.spec_id(),
    ;

    /// Appends the packet's fields to `buf`.
    fn write(&self, buf: &mut Vec<u8>) -> (r: Result<(), std::io::Error>)
        ensures
            r is Ok <==> self.writable(),
            r is Ok ==> final(buf)@ == old(buf)@ + self.body(),
            old(buf)@.is_prefix_of(final(buf)@),
    ;
}

impl ProtocolPacket for LoginPacket {
    open spec fn spec_id(&self) -> i32 {
        login_packet_id(self@)
    }

    open spec fn body(&self) -> Seq<u8> {
        login_body_bytes(self@)
    }

    open spec fn writable(&self) -> bool {
        login_packet_writable(self@)
    }

    fn id(&self) -> (id: i32) {
        LoginPacket::id(self)
    }

    fn write(&self, buf: &mut Vec<u8>) -> (r: Result<(), std::io::Error>) {
        LoginPacket::write(self, buf)
    }
}

/// The bytes that a packet's frame carries: the id, then the fields.
pub open spec fn packet_bytes<P: ProtocolPacket>(packet: &P) -> Seq<u8> {
    varint_bytes(packet.spec_id()) + packet.body()
}

/// The bytes that a packet's frame carries: the id, then the fields.
/// It fails where the packet cannot be written.
pub fn packet_payload<P: ProtocolPacket>(packet: &P) -> (r: Result<Vec<u8>, std::io::Error>)
    ensures
        r is Ok <==> packet.writable(),
        r matches Ok(bytes) ==> bytes@ == packet_bytes(packet),
{
    let mut id_and_data: Vec<u8> = Vec::new();
    write_varint(&mut id_and_data, packet.id());
    match packet.write(&mut id_and_data) {
        Ok(()) => {},
        Err(e) => { return Err(e); },
    }
    proof {
        assert(id_and_data@ =~= packet_bytes(packet));
    }
    Ok(id_and_data)
}

/// Appends to `out` the frame of `packet`: the length of what follows, the
/// packet's id, and its fields. Where the packet cannot be written, or is
/// too long for a frame, nothing is appended.
pub fn write_packet<P: ProtocolPacket>(packet: &P, out: &mut Vec<u8>) -> (r: Result<
    (),
    std::io::Error,
>)
    ensures
        r is Ok <==> packet.writable() && packet_bytes(packet).len() <= MAX_FRAME_LENGTH,
        r is Ok ==> final(out)@ == old(out)@ + frame_bytes(packet_bytes(packet)),
        r is Err ==> final(out)@ == old(out)@,
{
    let id_and_data = match packet_payload(packet) {
        Ok(bytes) => bytes,
        Err(e) => { return Err(e); },
    };
    write_frame(out, id_and_data.as_slice())
}

} // verus!
