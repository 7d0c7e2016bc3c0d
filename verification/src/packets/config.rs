//! The packets of the configuration state.

use crate::buf::{
    be_bytes, lemma_parse_be_roundtrip, lemma_varint_roundtrip, parse_be, parse_varint,
    varint_bytes, write_be, ByteReader, Parsed, ReadError,
};
use crate::packets::login::MAX_REASON_LENGTH;
use crate::wire::{
    lemma_pow256_8, lemma_string_roundtrip, parse_string, read_string, read_u64, string_bytes,
    write_string,
};
use crate::write::ProtocolPacket;
use vstd::prelude::*;
use vstd::utf8::encode_utf8;

verus! {

/// A packet of the configuration state, from the server.
#[derive(Clone, Debug, PartialEq, Eq)]
pub enum ConfigPacket {
    /// The server closes the connection.
    Disconnect { reason: String },
    /// The server has sent all of the configuration.
    FinishConfiguration,
    /// The server asks whether the client is alive.
    KeepAlive { id: u64 },
}

/// The mathematical value of a `ConfigPacket`.
pub enum ConfigPacketView {
    Disconnect { reason: Seq<char> },
    FinishConfiguration,
    KeepAlive { id: u64 },
}

impl View for ConfigPacket {
    type V = ConfigPacketView;

    open spec fn view(&self) -> ConfigPacketView {
        match self {
            ConfigPacket::Disconnect { reason } => ConfigPacketView::Disconnect { reason: reason@ },
            ConfigPacket::FinishConfiguration => ConfigPacketView::FinishConfiguration,
            ConfigPacket::KeepAlive { id } => ConfigPacketView::KeepAlive { id: *id },
        }
    }
}

/// A packet of the configuration state, from the client.
#[derive(Clone, Copy, Debug, PartialEq, Eq, Structural)]
pub enum ServerboundConfigPacket {
    /// The client has taken all of the configuration.
    FinishConfiguration,
    /// The client says that it is alive.
    KeepAlive { id: u64 },
}

/// The id under which a packet goes over the wire.
pub open spec fn config_packet_id(p: ConfigPacketView) -> i32 {
    match p {
        ConfigPacketView::Disconnect { .. } => 2,
        ConfigPacketView::FinishConfiguration => 3,
        ConfigPacketView::KeepAlive { .. } => 4,
    }
}

/// The wire form of a packet's fields.
pub open spec fn config_body_bytes(p: ConfigPacketView) -> Seq<u8> {
    match p {
        ConfigPacketView::Disconnect { reason } => string_bytes(reason),
        ConfigPacketView::FinishConfiguration => Seq::empty(),
        ConfigPacketView::KeepAlive { id } => be_bytes(id as nat, 8),
    }
}

/// The wire form of a packet: its id, then its fields.
pub open spec fn config_packet_bytes(p: ConfigPacketView) -> Seq<u8> {
    varint_bytes(config_packet_id(p)) + config_body_bytes(p)
}

/// Whether a packet can be written and read back.
pub open spec fn config_packet_fits(p: ConfigPacketView) -> bool {
    p matches ConfigPacketView::Disconnect { reason } ==> reason.len() <= MAX_REASON_LENGTH
        && encode_utf8(reason).len() <= i32::MAX
}

/// Reads the fields of the packet with id `id` from the front of `s`. An id
/// that the state does not know is `UnexpectedPacket`.
pub open spec fn parse_config_body(id: i32, s: Seq<u8>) -> Parsed<ConfigPacketView> {
    if id == 2 {
        match parse_string(s, MAX_REASON_LENGTH as nat) {
            Ok((reason, n)) => Ok((ConfigPacketView::Disconnect { reason }, n)),
            Err(e) => Err(e),
        }
    } else if id == 3 {
        Ok((ConfigPacketView::FinishConfiguration, 0))
    } else if id == 4 {
        match parse_be(s, 8) {
            Ok((id, n)) => Ok((ConfigPacketView::KeepAlive { id: id as u64 }, n)),
            Err(e) => Err(e),
        }
    } else {
        Err(ReadError::UnexpectedPacket)
    }
}

/// Reads one packet from the bytes of a frame: the id, then the fields,
/// which must take all the bytes that are left.
pub open spec fn parse_config_packet(s: Seq<u8>) -> Result<ConfigPacketView, ReadError> {
    match parse_varint(s) {
        Ok((id, n)) => match parse_config_body(id, s.skip(n)) {
            Ok((p, m)) => if n + m == s.len() {
                Ok(p)
            } else {
                Err(ReadError::Malformed)
            },
            Err(e) => Err(e),
        },
        Err(e) => Err(e),
    }
}

/// Every packet of the configuration state that can be written is read
/// back as written.
#[verifier::rlimit(50)]
pub proof fn lemma_config_packet_roundtrip(p: ConfigPacketView)
    requires
        config_packet_fits(p),
    ensures
        parse_config_packet(config_packet_bytes(p)) == Ok::<ConfigPacketView, ReadError>(p),
{
    let id = config_packet_id(p);
    let body = config_body_bytes(p);
    let s = config_packet_bytes(p);
    let empty = Seq::<u8>::empty();
    lemma_varint_roundtrip(id, body);
    assert(s.skip(varint_bytes(id).len() as int) =~= body);
    assert(body + empty =~= body);
    lemma_pow256_8();
    match p {
        ConfigPacketView::Disconnect { reason } => {
            lemma_string_roundtrip(reason, MAX_REASON_LENGTH as nat, empty);
        },
        ConfigPacketView::FinishConfiguration => {},
        ConfigPacketView::KeepAlive { id } => {
            lemma_parse_be_roundtrip(id as nat, 8, empty);
            crate::buf::lemma_be_bytes_len(id as nat, 8);
        },
    }
}

impl ConfigPacket {
    /// Reads the fields of the packet with id `id`.
    #[verifier::rlimit(50)]
    pub fn read(id: i32, reader: &mut ByteReader) -> (r: Result<ConfigPacket, ReadError>)
        ensures
            final(reader).source() == old(reader).source(),
            match parse_config_body(id, old(reader).remaining()) {
                Ok((v, n)) => r matches Ok(p) && p@ == v && 0 <= n <= old(reader).remaining().len()
                    && final(reader).remaining() == old(reader).remaining().skip(n),
                Err(e) => r matches Err(got) && got == e,
            },
    {
        let ghost s = reader.remaining();
        if id == 2 {
            match read_string(reader, MAX_REASON_LENGTH) {
                Ok(reason) => Ok(ConfigPacket::Disconnect { reason }),
                Err(e) => Err(e),
            }
        } else if id == 3 {
            proof {
                assert(s.skip(0) =~= s);
            }
            Ok(ConfigPacket::FinishConfiguration)
        } else if id == 4 {
            match read_u64(reader) {
                Ok(id) => Ok(ConfigPacket::KeepAlive { id }),
                Err(e) => Err(e),
            }
        } else {
            Err(ReadError::UnexpectedPacket)
        }
    }
}

/// Reads one packet of the configuration state from the bytes of a frame.
pub fn read_config_packet(frame: &[u8]) -> (r: Result<ConfigPacket, ReadError>)
    ensures
        match parse_config_packet(frame@) {
            Ok(v) => r matches Ok(p) && p@ == v,
            Err(e) => r matches Err(got) && got == e,
        },
{
    let mut reader = ByteReader::new(frame);
    let id = match reader.read_varint() {
        Ok(v) => v,
        Err(e) => { return Err(e); },
    };
    let packet = match ConfigPacket::read(id, &mut reader) {
        Ok(p) => p,
        Err(e) => { return Err(e); },
    };
    if reader.remaining_len() != 0 {
        return Err(ReadError::Malformed);
    }
    Ok(packet)
}

impl ProtocolPacket for ConfigPacket {
    open spec fn spec_id(&self) -> i32 {
        config_packet_id(self@)
    }

    open spec fn body(&self) -> Seq<u8> {
        config_body_bytes(self@)
    }

    open spec fn writable(&self) -> bool {
        self@ matches ConfigPacketView::Disconnect { reason } ==> encode_utf8(reason).len()
            <= i32::MAX
    }

    fn id(&self) -> (id: i32) {
        match self {
            ConfigPacket::Disconnect { .. } => 2,
            ConfigPacket::FinishConfiguration => 3,
            ConfigPacket::KeepAlive { .. } => 4,
        }
    }

    fn write(&self, buf: &mut Vec<u8>) -> (r: Result<(), std::io::Error>) {
        match self {
            ConfigPacket::Disconnect { reason } => write_string(buf, reason.as_str()),
            ConfigPacket::FinishConfiguration => {
                proof {
                    assert(buf@ =~= old(buf)@ + config_body_bytes(self@));
                }
                Ok(())
            },
            ConfigPacket::KeepAlive { id } => {
                write_be(buf, *id as u128, 8);
                Ok(())
            },
        }
    }
}

impl ProtocolPacket for ServerboundConfigPacket {
    open spec fn spec_id(&self) -> i32 {
        match self {
            ServerboundConfigPacket::FinishConfiguration => 3,
            ServerboundConfigPacket::KeepAlive { .. } => 4,
        }
    }

    open spec fn body(&self) -> Seq<u8> {
        match self {
            ServerboundConfigPacket::FinishConfiguration => Seq::empty(),
            ServerboundConfigPacket::KeepAlive { id } => be_bytes(*id as nat, 8),
        }
    }

    open spec fn writable(&self) -> bool {
        true
    }

    fn id(&self) -> (id: i32) {
        match self {
            ServerboundConfigPacket::FinishConfiguration => 3,
            ServerboundConfigPacket::KeepAlive { .. } => 4,
        }
    }

    fn write(&self, buf: &mut Vec<u8>) -> (r: Result<(), std::io::Error>) {
        match self {
            ServerboundConfigPacket::FinishConfiguration => {
                proof {
                    assert(buf@ =~= old(buf)@ + Seq::<u8>::empty());
                }
                Ok(())
            },
            ServerboundConfigPacket::KeepAlive { id } => {
                write_be(buf, *id as u128, 8);
                Ok(())
            },
        }
    }
}

/// The packets that the client sends in the configuration state carry the
/// same ids and fields as the server's of the same names, and are read
/// back by the same rules.
pub proof fn lemma_serverbound_config_roundtrip(p: ServerboundConfigPacket)
    ensures
        parse_config_packet(varint_bytes(p.spec_id()) + p.body()) == Ok::<
            ConfigPacketView,
            ReadError,
        >(
            match p {
                ServerboundConfigPacket::FinishConfiguration => ConfigPacketView::FinishConfiguration,
                ServerboundConfigPacket::KeepAlive { id } => ConfigPacketView::KeepAlive { id },
            },
        ),
{
    match p {
        ServerboundConfigPacket::FinishConfiguration => {
            lemma_config_packet_roundtrip(ConfigPacketView::FinishConfiguration);
        },
        ServerboundConfigPacket::KeepAlive { id } => {
            lemma_config_packet_roundtrip(ConfigPacketView::KeepAlive { id });
        },
    }
}

} // verus!
