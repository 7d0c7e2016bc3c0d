//! The packets that the client sends while it shakes hands and logs in.

use crate::buf::{
    lemma_be_bytes_len, lemma_parse_be_roundtrip, lemma_varint_roundtrip, parse_be, parse_varint,
    varint_bytes, write_varint, ByteReader, Parsed, ReadError,
};
use crate::packets::login::MAX_NAME_LENGTH;
use crate::wire::{
    blob_bytes, bool_bytes, lemma_blob_roundtrip, lemma_bool_roundtrip, lemma_pow256_8,
    lemma_string_roundtrip, lemma_uuid_roundtrip, parse_blob, parse_bool, parse_string,
    parse_uuid, read_blob, read_bool, read_string, read_u16, read_uuid, string_bytes,
    uint_bytes, uuid_bytes, write_blob, write_bool, write_string, write_u16, write_uuid,
    MAX_STRING_LENGTH,
};
use crate::write::ProtocolPacket;
use vstd::prelude::*;
use vstd::utf8::encode_utf8;

verus! {

/// What the client announces in its first packet that it is going to do.
#[derive(Clone, Copy, Debug, PartialEq, Eq, Structural)]
pub enum ClientIntention {
    Status,
    Login,
}

impl ClientIntention {
    /// The number that stands for the intention on the wire.
    pub fn id(self) -> (id: i32)
        ensures
            id == match self {
                ClientIntention::Status => 1i32,
                ClientIntention::Login => 2i32,
            },
    {
        match self {
            ClientIntention::Status => 1,
            ClientIntention::Login => 2,
        }
    }
}

/// The first packet of a connection.
#[derive(Clone, Debug, PartialEq, Eq)]
pub struct ServerboundIntention {
    pub protocol_version: i32,
    pub hostname: String,
    pub port: u16,
    pub intention: ClientIntention,
}

/// A packet of the login state, from the client.
#[derive(Clone, Debug, PartialEq, Eq)]
pub enum ServerboundLoginPacket {
    Hello { name: String, profile_id: u128 },
    Key { key_bytes: Vec<u8>, encrypted_challenge: Vec<u8> },
    CustomQueryAnswer { transaction_id: i32, data: Option<Vec<u8>> },
    LoginAcknowledged,
    CookieResponse { key: String, payload: Option<Vec<u8>> },
}

/// The most characters of a host name.
pub const MAX_HOSTNAME_LENGTH: usize = 255;

/// The mathematical value of a `ServerboundIntention`.
pub struct IntentionView {
    pub protocol_version: i32,
    pub hostname: Seq<char>,
    pub port: u16,
    pub intention: ClientIntention,
}

impl View for ServerboundIntention {
    type V = IntentionView;

    open spec fn view(&self) -> IntentionView {
        IntentionView {
            protocol_version: self.protocol_version,
            hostname: self.hostname@,
            port: self.port,
            intention: self.intention,
        }
    }
}

/// The mathematical value of a `ServerboundLoginPacket`.
pub enum ServerboundLoginView {
    Hello { name: Seq<char>, profile_id: u128 },
    Key { key_bytes: Seq<u8>, encrypted_challenge: Seq<u8> },
    CustomQueryAnswer { transaction_id: i32, data: Option<Seq<u8>> },
    LoginAcknowledged,
    CookieResponse { key: Seq<char>, payload: Option<Seq<u8>> },
}

/// The bytes of an optional byte vector.
pub open spec fn optional_bytes(v: Option<Vec<u8>>) -> Option<Seq<u8>> {
    match v {
        Some(b) => Some(b@),
        None => None,
    }
}

impl View for ServerboundLoginPacket {
    type V = ServerboundLoginView;

    open spec fn view(&self) -> ServerboundLoginView {
        match self {
            ServerboundLoginPacket::Hello { name, profile_id } => ServerboundLoginView::Hello {
                name: name@,
                profile_id: *profile_id,
            },
            ServerboundLoginPacket::Key {
                key_bytes,
                encrypted_challenge,
            } => ServerboundLoginView::Key {
                key_bytes: key_bytes@,
                encrypted_challenge: encrypted_challenge@,
            },
            ServerboundLoginPacket::CustomQueryAnswer {
                transaction_id,
                data,
            } => ServerboundLoginView::CustomQueryAnswer {
                transaction_id: *transaction_id,
                data: optional_bytes(*data),
            },
            ServerboundLoginPacket::LoginAcknowledged => ServerboundLoginView::LoginAcknowledged,
            ServerboundLoginPacket::CookieResponse {
                key,
                payload,
            } => ServerboundLoginView::CookieResponse {
                key: key@,
                payload: optional_bytes(*payload),
            },
        }
    }
}

/// The number that stands for an intention on the wire.
pub open spec fn intention_id(intention: ClientIntention) -> i32 {
    match intention {
        ClientIntention::Status => 1,
        ClientIntention::Login => 2,
    }
}

/// The wire form of the fields of the first packet: the protocol version,
/// the host name, the port, and the intention.
pub open spec fn intention_body(p: IntentionView) -> Seq<u8> {
    varint_bytes(p.protocol_version) + string_bytes(p.hostname) + uint_bytes(p.port as nat, 2)
        + varint_bytes(intention_id(p.intention))
}

/// Reads the fields of the first packet. An intention other than the two
/// is malformed.
pub open spec fn parse_intention(s: Seq<u8>) -> Parsed<IntentionView> {
    match parse_varint(s) {
        Ok((protocol_version, n1)) => match parse_string(s.skip(n1), MAX_HOSTNAME_LENGTH as nat) {
            Ok((hostname, n2)) => match parse_be(s.skip(n1).skip(n2), 2) {
                Ok((port, _)) => match parse_varint(s.skip(n1).skip(n2).skip(2)) {
                    Ok((intention, n4)) => if intention == 1 {
                        Ok(
                            (
                                IntentionView {
                                    protocol_version,
                                    hostname,
                                    port: port as u16,
                                    intention: ClientIntention::Status,
                                },
                                n1 + n2 + 2 + n4,
                            ),
                        )
                    } else if intention == 2 {
                        Ok(
                            (
                                IntentionView {
                                    protocol_version,
                                    hostname,
                                    port: port as u16,
                                    intention: ClientIntention::Login,
                                },
                                n1 + n2 + 2 + n4,
                            ),
                        )
                    } else {
                        Err(ReadError::Malformed)
                    },
                    Err(e) => Err(e),
                },
                Err(e) => Err(e),
            },
            Err(e) => Err(e),
        },
        Err(e) => Err(e),
    }
}

/// The first packet is read back as written, where its host name is within
/// the limit.
#[verifier::rlimit(50)]
pub proof fn lemma_intention_roundtrip(p: IntentionView, rest: Seq<u8>)
    requires
        p.hostname.len() <= MAX_HOSTNAME_LENGTH,
        encode_utf8(p.hostname).len() <= i32::MAX,
    ensures
        parse_intention(intention_body(p) + rest) == Ok::<(IntentionView, int), ReadError>(
            (p, intention_body(p).len() as int),
        ),
{
    let a = varint_bytes(p.protocol_version);
    let b = string_bytes(p.hostname);
    let c = uint_bytes(p.port as nat, 2);
    let d = varint_bytes(intention_id(p.intention));
    let s = intention_body(p) + rest;
    let after_a = b + (c + (d + rest));
    let after_b = c + (d + rest);
    let after_c = d + rest;
    lemma_pow256_8();
    lemma_be_bytes_len(p.port as nat, 2);
    assert(s =~= a + after_a);
    lemma_varint_roundtrip(p.protocol_version, after_a);
    assert(s.skip(a.len() as int) =~= after_a);
    lemma_string_roundtrip(p.hostname, MAX_HOSTNAME_LENGTH as nat, after_b);
    assert(after_a.skip(b.len() as int) =~= after_b);
    lemma_parse_be_roundtrip(p.port as nat, 2, after_c);
    assert(after_b.skip(2) =~= after_c);
    lemma_varint_roundtrip(intention_id(p.intention), rest);
    assert(intention_body(p).len() == a.len() + b.len() + 2 + d.len());
}

/// The wire form of an optional blob whose length the frame gives: a
/// boolean, then the bytes if there are any to come.
pub open spec fn optional_rest(data: Option<Seq<u8>>) -> Seq<u8> {
    match data {
        Some(b) => bool_bytes(true) + b,
        None => bool_bytes(false),
    }
}

/// Reads an optional blob that goes on to the end of the frame.
pub open spec fn parse_optional_rest(s: Seq<u8>) -> Parsed<Option<Seq<u8>>> {
    match parse_bool(s) {
        Ok((present, _)) => if present {
            Ok((Some(s.skip(1)), s.len() as int))
        } else {
            Ok((None, 1))
        },
        Err(e) => Err(e),
    }
}

/// The wire form of an optional blob with its length: a boolean, then the
/// blob if there is one.
pub open spec fn optional_blob(data: Option<Seq<u8>>) -> Seq<u8> {
    match data {
        Some(b) => bool_bytes(true) + blob_bytes(b),
        None => bool_bytes(false),
    }
}

/// Reads an optional blob with its length.
pub open spec fn parse_optional_blob(s: Seq<u8>) -> Parsed<Option<Seq<u8>>> {
    match parse_bool(s) {
        Ok((present, _)) => if present {
            match parse_blob(s.skip(1)) {
                Ok((b, n)) => Ok((Some(b), n + 1)),
                Err(e) => Err(e),
            }
        } else {
            Ok((None, 1))
        },
        Err(e) => Err(e),
    }
}

/// The id under which a packet of the login state goes to the server.
pub open spec fn serverbound_login_id(p: ServerboundLoginView) -> i32 {
    match p {
        ServerboundLoginView::Hello { .. } => 0,
        ServerboundLoginView::Key { .. } => 1,
        ServerboundLoginView::CustomQueryAnswer { .. } => 2,
        ServerboundLoginView::LoginAcknowledged => 3,
        ServerboundLoginView::CookieResponse { .. } => 4,
    }
}

/// The wire form of the fields of a packet of the login state that goes to
/// the server.
pub open spec fn serverbound_login_body(p: ServerboundLoginView) -> Seq<u8> {
    match p {
        ServerboundLoginView::Hello { name, profile_id } => string_bytes(name) + uuid_bytes(
            profile_id,
        ),
        ServerboundLoginView::Key { key_bytes, encrypted_challenge } => blob_bytes(key_bytes)
            + blob_bytes(encrypted_challenge),
        ServerboundLoginView::CustomQueryAnswer { transaction_id, data } => varint_bytes(
            transaction_id,
        ) + optional_rest(data),
        ServerboundLoginView::LoginAcknowledged => Seq::empty(),
        ServerboundLoginView::CookieResponse { key, payload } => string_bytes(key)
            + optional_blob(payload),
    }
}

/// Whether the lengths among the fields of a packet can be written.
pub open spec fn serverbound_login_writable(p: ServerboundLoginView) -> bool {
    match p {
        ServerboundLoginView::Hello { name, profile_id } => encode_utf8(name).len() <= i32::MAX,
        ServerboundLoginView::Key { key_bytes, encrypted_challenge } => key_bytes.len()
            <= i32::MAX && encrypted_challenge.len() <= i32::MAX,
        ServerboundLoginView::CustomQueryAnswer { transaction_id, data } => true,
        ServerboundLoginView::LoginAcknowledged => true,
        ServerboundLoginView::CookieResponse { key, payload } => encode_utf8(key).len()
            <= i32::MAX && (payload matches Some(b) ==> b.len() <= i32::MAX),
    }
}

/// Whether a packet can be written and read back: its strings are within
/// their limits and its lengths can be written.
pub open spec fn serverbound_login_fits(p: ServerboundLoginView) -> bool {
    &&& serverbound_login_writable(p)
    &&& p matches ServerboundLoginView::Hello { name, .. } ==> name.len() <= MAX_NAME_LENGTH
    &&& p matches ServerboundLoginView::CookieResponse { key, .. } ==> key.len()
        <= MAX_STRING_LENGTH
}

/// Reads the fields of the packet with id `id` from the front of `s`. An id
/// that the state does not know is `UnexpectedPacket`.
pub open spec fn parse_serverbound_login_body(id: i32, s: Seq<u8>) -> Parsed<
    ServerboundLoginView,
> {
    if id == 0 {
        match parse_string(s, MAX_NAME_LENGTH as nat) {
            Ok((name, n1)) => match parse_uuid(s.skip(n1)) {
                Ok((profile_id, n2)) => Ok(
                    (ServerboundLoginView::Hello { name, profile_id }, n1 + n2),
                ),
                Err(e) => Err(e),
            },
            Err(e) => Err(e),
        }
    } else if id == 1 {
        match parse_blob(s) {
            Ok((key_bytes, n1)) => match parse_blob(s.skip(n1)) {
                Ok((encrypted_challenge, n2)) => Ok(
                    (ServerboundLoginView::Key { key_bytes, encrypted_challenge }, n1 + n2),
                ),
                Err(e) => Err(e),
            },
            Err(e) => Err(e),
        }
    } else if id == 2 {
        match parse_varint(s) {
            Ok((transaction_id, n1)) => match parse_optional_rest(s.skip(n1)) {
                Ok((data, n2)) => Ok(
                    (ServerboundLoginView::CustomQueryAnswer { transaction_id, data }, n1 + n2),
                ),
                Err(e) => Err(e),
            },
            Err(e) => Err(e),
        }
    } else if id == 3 {
        Ok((ServerboundLoginView::LoginAcknowledged, 0))
    } else if id == 4 {
        match parse_string(s, MAX_STRING_LENGTH as nat) {
            Ok((key, n1)) => match parse_optional_blob(s.skip(n1)) {
                Ok((payload, n2)) => Ok(
                    (ServerboundLoginView::CookieResponse { key, payload }, n1 + n2),
                ),
                Err(e) => Err(e),
            },
            Err(e) => Err(e),
        }
    } else {
        Err(ReadError::UnexpectedPacket)
    }
}

/// Reads one packet from the bytes of a frame: the id, then the fields,
/// which must take all the bytes that are left.
pub open spec fn parse_serverbound_login_packet(s: Seq<u8>) -> Result<
    ServerboundLoginView,
    ReadError,
> {
    match parse_varint(s) {
        Ok((id, n)) => match parse_serverbound_login_body(id, s.skip(n)) {
            Ok((p, m)) => if n + m == s.len() {
                Ok(p)
            } else {
                Err(ReadError::Malformed)
            },
            Err(e) => Err(e),
        },
        Err(e) => Err(e),
    }
}

/// The wire form of a packet of the login state that goes to the server:
/// its id, then its fields.
pub open spec fn serverbound_login_bytes(p: ServerboundLoginView) -> Seq<u8> {
    varint_bytes(serverbound_login_id(p)) + serverbound_login_body(p)
}

/// Every packet of the login state that the client can write is read back
/// as written: decoding the encoding gives the packet.
#[verifier::rlimit(50)]
pub proof fn lemma_serverbound_login_roundtrip(p: ServerboundLoginView)
    requires
        serverbound_login_fits(p),
    ensures
        parse_serverbound_login_packet(serverbound_login_bytes(p)) == Ok::<
            ServerboundLoginView,
            ReadError,
        >(p),
{
    let id = serverbound_login_id(p);
    let body = serverbound_login_body(p);
    let s = serverbound_login_bytes(p);
    let empty = Seq::<u8>::empty();
    lemma_varint_roundtrip(id, body);
    let n = varint_bytes(id).len() as int;
    assert(s.skip(n) =~= body);
    assert(body + empty =~= body);
    match p {
        ServerboundLoginView::Hello { name, profile_id } => {
            let a = string_bytes(name);
            let b = uuid_bytes(profile_id);
            lemma_string_roundtrip(name, MAX_NAME_LENGTH as nat, b);
            assert(body.skip(a.len() as int) =~= b + empty);
            lemma_uuid_roundtrip(profile_id, empty);
        },
        ServerboundLoginView::Key { key_bytes, encrypted_challenge } => {
            let a = blob_bytes(key_bytes);
            let b = blob_bytes(encrypted_challenge);
            lemma_blob_roundtrip(key_bytes, b);
            assert(body.skip(a.len() as int) =~= b + empty);
            lemma_blob_roundtrip(encrypted_challenge, empty);
        },
        ServerboundLoginView::CustomQueryAnswer { transaction_id, data } => {
            let a = varint_bytes(transaction_id);
            let b = optional_rest(data);
            lemma_varint_roundtrip(transaction_id, b);
            assert(body.skip(a.len() as int) =~= b);
            match data {
                Some(bytes) => {
                    lemma_bool_roundtrip(true, bytes);
                    assert(b.skip(1) =~= bytes);
                },
                None => {
                    lemma_bool_roundtrip(false, empty);
                    assert(b + empty =~= b);
                },
            }
        },
        ServerboundLoginView::LoginAcknowledged => {},
        ServerboundLoginView::CookieResponse { key, payload } => {
            let a = string_bytes(key);
            let b = optional_blob(payload);
            lemma_string_roundtrip(key, MAX_STRING_LENGTH as nat, b);
            assert(body.skip(a.len() as int) =~= b);
            match payload {
                Some(bytes) => {
                    lemma_bool_roundtrip(true, blob_bytes(bytes));
                    assert(b.skip(1) =~= blob_bytes(bytes) + empty);
                    lemma_blob_roundtrip(bytes, empty);
                },
                None => {
                    lemma_bool_roundtrip(false, empty);
                    assert(b + empty =~= b);
                },
            }
        },
    }
}

impl ProtocolPacket for ServerboundIntention {
    open spec fn spec_id(&self) -> i32 {
        0
    }

    open spec fn body(&self) -> Seq<u8> {
        intention_body(self@)
    }

    open spec fn writable(&self) -> bool {
        encode_utf8(self.hostname@).len() <= i32::MAX
    }

    fn id(&self) -> (id: i32) {
        0
    }

    fn write(&self, buf: &mut Vec<u8>) -> (r: Result<(), std::io::Error>) {
        write_varint(buf, self.protocol_version);
        match write_string(buf, self.hostname.as_str()) {
            Ok(()) => {},
            Err(e) => { return Err(e); },
        }
        write_u16(buf, self.port);
        write_varint(buf, self.intention.id());
        proof {
            assert(buf@ =~= old(buf)@ + intention_body(self@));
        }
        Ok(())
    }
}

impl ProtocolPacket for ServerboundLoginPacket {
    open spec fn spec_id(&self) -> i32 {
        serverbound_login_id(self@)
    }

    open spec fn body(&self) -> Seq<u8> {
        serverbound_login_body(self@)
    }

    open spec fn writable(&self) -> bool {
        serverbound_login_writable(self@)
    }

    fn id(&self) -> (id: i32) {
        match self {
            ServerboundLoginPacket::Hello { .. } => 0,
            ServerboundLoginPacket::Key { .. } => 1,
            ServerboundLoginPacket::CustomQueryAnswer { .. } => 2,
            ServerboundLoginPacket::LoginAcknowledged => 3,
            ServerboundLoginPacket::CookieResponse { .. } => 4,
        }
    }

    fn write(&self, buf: &mut Vec<u8>) -> (r: Result<(), std::io::Error>) {
        match self {
            ServerboundLoginPacket::Hello { name, profile_id } => {
                match write_string(buf, name.as_str()) {
                    Ok(()) => {},
                    Err(e) => { return Err(e); },
                }
                write_uuid(buf, *profile_id);
                proof {
                    assert(buf@ =~= old(buf)@ + serverbound_login_body(self@));
                }
                Ok(())
            },
            ServerboundLoginPacket::Key { key_bytes, encrypted_challenge } => {
                match write_blob(buf, key_bytes.as_slice()) {
                    Ok(()) => {},
                    Err(e) => { return Err(e); },
                }
                match write_blob(buf, encrypted_challenge.as_slice()) {
                    Ok(()) => {},
                    Err(e) => { return Err(e); },
                }
                proof {
                    assert(buf@ =~= old(buf)@ + serverbound_login_body(self@));
                }
                Ok(())
            },
            ServerboundLoginPacket::CustomQueryAnswer { transaction_id, data } => {
                write_varint(buf, *transaction_id);
                match data {
                    Some(b) => {
                        write_bool(buf, true);
                        let ghost mid = buf@;
                        buf.extend_from_slice(b.as_slice());
                        proof {
                            assert(buf@ =~= mid + b@);
                        }
                    },
                    None => {
                        write_bool(buf, false);
                    },
                }
                proof {
                    assert(buf@ =~= old(buf)@ + serverbound_login_body(self@));
                }
                Ok(())
            },
            ServerboundLoginPacket::LoginAcknowledged => {
                proof {
                    assert(buf@ =~= old(buf)@ + serverbound_login_body(self@));
                }
                Ok(())
            },
            ServerboundLoginPacket::CookieResponse { key, payload } => {
                match write_string(buf, key.as_str()) {
                    Ok(()) => {},
                    Err(e) => { return Err(e); },
                }
                match payload {
                    Some(b) => {
                        write_bool(buf, true);
                        match write_blob(buf, b.as_slice()) {
                            Ok(()) => {},
                            Err(e) => { return Err(e); },
                        }
                    },
                    None => {
                        write_bool(buf, false);
                    },
                }
                proof {
                    assert(buf@ =~= old(buf)@ + serverbound_login_body(self@));
                }
                Ok(())
            },
        }
    }
}

impl ServerboundIntention {
    /// Reads the fields of the first packet.
    #[verifier::rlimit(50)]
    pub fn read(reader: &mut ByteReader) -> (r: Result<ServerboundIntention, ReadError>)
        ensures
            final(reader).source() == old(reader).source(),
            match parse_intention(old(reader).remaining()) {
                Ok((v, n)) => r matches Ok(p) && p@ == v && 0 <= n <= old(reader).remaining().len()
                    && final(reader).remaining() == old(reader).remaining().skip(n),
                Err(e) => r matches Err(got) && got == e,
            },
    {
        let ghost s = reader.remaining();
        let protocol_version = match reader.read_varint() {
            Ok(v) => v,
            Err(e) => { return Err(e); },
        };
        let ghost n1 = parse_varint(s).unwrap().1;
        let hostname = match read_string(reader, MAX_HOSTNAME_LENGTH) {
            Ok(v) => v,
            Err(e) => { return Err(e); },
        };
        let ghost n2 = parse_string(s.skip(n1), MAX_HOSTNAME_LENGTH as nat).unwrap().1;
        let port = match read_u16(reader) {
            Ok(v) => v,
            Err(e) => { return Err(e); },
        };
        let number = match reader.read_varint() {
            Ok(v) => v,
            Err(e) => { return Err(e); },
        };
        let ghost n4 = parse_varint(s.skip(n1).skip(n2).skip(2)).unwrap().1;
        proof {
            assert(s.skip(n1).skip(n2).skip(2).skip(n4) =~= s.skip(n1 + n2 + 2 + n4));
        }
        let intention = if number == 1 {
            ClientIntention::Status
        } else if number == 2 {
            ClientIntention::Login
        } else {
            return Err(ReadError::Malformed);
        };
        Ok(ServerboundIntention { protocol_version, hostname, port, intention })
    }
}

/// Reads an optional blob with its length.
#[verifier::rlimit(50)]
fn read_optional_blob(reader: &mut ByteReader) -> (r: Result<Option<Vec<u8>>, ReadError>)
    ensures
        final(reader).source() == old(reader).source(),
        match parse_optional_blob(old(reader).remaining()) {
            Ok((v, n)) => r matches Ok(got) && optional_bytes(got) == v
                && 0 < n <= old(reader).remaining().len()
                && final(reader).remaining() == old(reader).remaining().skip(n),
            Err(e) => r matches Err(got) && got == e,
        },
{
    let ghost s = reader.remaining();
    let present = match read_bool(reader) {
        Ok(v) => v,
        Err(e) => { return Err(e); },
    };
    if present {
        match read_blob(reader) {
            Ok(b) => {
                proof {
                    let n = parse_blob(s.skip(1)).unwrap().1;
                    assert(s.skip(1).skip(n) =~= s.skip(n + 1));
                }
                Ok(Some(b))
            },
            Err(e) => Err(e),
        }
    } else {
        Ok(None)
    }
}

impl ServerboundLoginPacket {
    /// Reads the fields of the packet with id `id`.
    #[verifier::rlimit(50)]
    pub fn read(id: i32, reader: &mut ByteReader) -> (r: Result<ServerboundLoginPacket, ReadError>)
        ensures
            final(reader).source() == old(reader).source(),
            match parse_serverbound_login_body(id, old(reader).remaining()) {
                Ok((v, n)) => r matches Ok(p) && p@ == v && 0 <= n <= old(reader).remaining().len()
                    && final(reader).remaining() == old(reader).remaining().skip(n),
                Err(e) => r matches Err(got) && got == e,
            },
    {
        let ghost s = reader.remaining();
        if id == 0 {
            let name = match read_string(reader, MAX_NAME_LENGTH) {
                Ok(v) => v,
                Err(e) => { return Err(e); },
            };
            let ghost n1 = parse_string(s, MAX_NAME_LENGTH as nat).unwrap().1;
            let profile_id = match read_uuid(reader) {
                Ok(v) => v,
                Err(e) => { return Err(e); },
            };
            proof {
                assert(s.skip(n1).skip(16) =~= s.skip(n1 + 16));
            }
            Ok(ServerboundLoginPacket::Hello { name, profile_id })
        } else if id == 1 {
            let key_bytes = match read_blob(reader) {
                Ok(v) => v,
                Err(e) => { return Err(e); },
            };
            let ghost n1 = parse_blob(s).unwrap().1;
            let encrypted_challenge = match read_blob(reader) {
                Ok(v) => v,
                Err(e) => { return Err(e); },
            };
            proof {
                let n2 = parse_blob(s.skip(n1)).unwrap().1;
                assert(s.skip(n1).skip(n2) =~= s.skip(n1 + n2));
            }
            Ok(ServerboundLoginPacket::Key { key_bytes, encrypted_challenge })
        } else if id == 2 {
            let transaction_id = match reader.read_varint() {
                Ok(v) => v,
                Err(e) => { return Err(e); },
            };
            let ghost n1 = parse_varint(s).unwrap().1;
            let present = match read_bool(reader) {
                Ok(v) => v,
                Err(e) => { return Err(e); },
            };
            let data = if present {
                let rest = reader.read_rest();
                proof {
                    assert(s.skip(n1).skip(1).skip(s.len() - n1 - 1) =~= Seq::<u8>::empty());
                    assert(s.skip(n1 + (s.len() - n1)) =~= Seq::<u8>::empty());
                }
                Some(rest)
            } else {
                proof {
                    assert(s.skip(n1).skip(1) =~= s.skip(n1 + 1));
                }
                None
            };
            Ok(ServerboundLoginPacket::CustomQueryAnswer { transaction_id, data })
        } else if id == 3 {
            proof {
                assert(s.skip(0) =~= s);
            }
            Ok(ServerboundLoginPacket::LoginAcknowledged)
        } else if id == 4 {
            let key = match read_string(reader, MAX_STRING_LENGTH) {
                Ok(v) => v,
                Err(e) => { return Err(e); },
            };
            let ghost n1 = parse_string(s, MAX_STRING_LENGTH as nat).unwrap().1;
            let payload = match read_optional_blob(reader) {
                Ok(v) => v,
                Err(e) => { return Err(e); },
            };
            proof {
                let n2 = parse_optional_blob(s.skip(n1)).unwrap().1;
                assert(s.skip(n1).skip(n2) =~= s.skip(n1 + n2));
            }
            Ok(ServerboundLoginPacket::CookieResponse { key, payload })
        } else {
            Err(ReadError::UnexpectedPacket)
        }
    }
}

/// Reads one packet of the login state that a client sent from the bytes
/// of a frame.
#[verifier::rlimit(50)]
pub fn read_serverbound_login_packet(frame: &[u8]) -> (r: Result<
    ServerboundLoginPacket,
    ReadError,
>)
    ensures
        match parse_serverbound_login_packet(frame@) {
            Ok(v) => r matches Ok(p) && p@ == v,
            Err(e) => r matches Err(got) && got == e,
        },
{
    let mut reader = ByteReader::new(frame);
    let id = match reader.read_varint() {
        Ok(v) => v,
        Err(e) => { return Err(e); },
    };
    let packet = match ServerboundLoginPacket::read(id, &mut reader) {
        Ok(p) => p,
        Err(e) => { return Err(e); },
    };
    if reader.remaining_len() != 0 {
        return Err(ReadError::Malformed);
    }
    Ok(packet)
}

} // verus!
