//! The packets that the server sends in the login state.

use crate::buf::{
    lemma_varint_roundtrip, parse_varint, varint_bytes, write_varint, ByteReader, Parsed,
    ReadError,
};
use crate::game_profile::{
    distinct_names, lemma_index_of_name, with_entries, with_entry, GameProfile, GameProfileView,
    ProfilePropertyValue, PropertyEntry, PropertyMap, PropertyValueView,
};
use crate::wire::{
    bool_bytes, blob_bytes, lemma_blob_roundtrip, lemma_bool_roundtrip, lemma_option_roundtrip,
    lemma_sequence_roundtrip, lemma_string_roundtrip, lemma_uuid_roundtrip, option_bytes,
    parse_blob, parse_bool, parse_option, parse_sequence, parse_string, parse_uuid, read_blob,
    read_bool, read_string, read_uuid, reads_back, sequence_bytes, string_bytes, uuid_bytes,
    write_blob, write_bool, write_string, write_uuid, MAX_STRING_LENGTH,
};
use vstd::prelude::*;
use vstd::utf8::encode_utf8;

verus! {

/// The most characters of a server id.
pub const MAX_SERVER_ID_LENGTH: usize = 20;

/// The most characters of a player's name.
pub const MAX_NAME_LENGTH: usize = 16;

/// The most characters of a reason for a disconnect.
pub const MAX_REASON_LENGTH: usize = 262144;

/// The server asks for encryption.
#[derive(Debug, Clone, PartialEq, Eq)]
pub struct ClientboundHello {
    pub server_id: String,
    pub public_key: Vec<u8>,
    pub challenge: Vec<u8>,
    pub should_authenticate: bool,
}

/// The server sets the compression threshold.
#[derive(Debug, Clone, Hash, PartialEq, Eq)]
pub struct ClientboundLoginCompressionPacket {
    pub compression_threshold: i32,
}

/// The server accepts the login and names the profile.
#[derive(Debug, Clone, PartialEq, Eq)]
pub struct ClientboundLoginFinished {
    pub game_profile: GameProfile,
}

/// The server refuses the login.
#[derive(Debug, Clone, PartialEq, Eq)]
pub struct ClientboundLoginDisconnect {
    pub reason: String,
}

/// The server asks a question of its own kind.
#[derive(Debug, Clone, PartialEq, Eq)]
pub struct ClientboundCustomQuery {
    pub transaction_id: i32,
    pub identifier: String,
    pub data: Vec<u8>,
}

/// The server asks for a cookie.
#[derive(Debug, Clone, PartialEq, Eq)]
pub struct ClientboundCookieRequest {
    pub key: String,
}

/// A packet of the login state, from the server.
#[derive(Debug, Clone, PartialEq, Eq)]
pub enum LoginPacket {
    LoginDisconnect(ClientboundLoginDisconnect),
    Hello(ClientboundHello),
    LoginFinished(ClientboundLoginFinished),
    LoginCompression(ClientboundLoginCompressionPacket),
    CustomQuery(ClientboundCustomQuery),
    CookieRequest(ClientboundCookieRequest),
}

/// The mathematical value of a `LoginPacket`.
pub enum LoginPacketView {
    LoginDisconnect { reason: Seq<char> },
    Hello {
        server_id: Seq<char>,
        public_key: Seq<u8>,
        challenge: Seq<u8>,
        should_authenticate: bool,
    },
    LoginFinished { game_profile: GameProfileView },
    LoginCompression { compression_threshold: i32 },
    CustomQuery { transaction_id: i32, identifier: Seq<char>, data: Seq<u8> },
    CookieRequest { key: Seq<char> },
}

impl View for LoginPacket {
    type V = LoginPacketView;

    open spec fn view(&self) -> LoginPacketView {
        match self {
            LoginPacket::LoginDisconnect(p) => LoginPacketView::LoginDisconnect {
                reason: p.reason@,
            },
            LoginPacket::Hello(p) => LoginPacketView::Hello {
                server_id: p.server_id@,
                public_key: p.public_key@,
                challenge: p.challenge@,
                should_authenticate: p.should_authenticate,
            },
            LoginPacket::LoginFinished(p) => LoginPacketView::LoginFinished {
                game_profile: p.game_profile@,
            },
            LoginPacket::LoginCompression(p) => LoginPacketView::LoginCompression {
                compression_threshold: p.compression_threshold,
            },
            LoginPacket::CustomQuery(p) => LoginPacketView::CustomQuery {
                transaction_id: p.transaction_id,
                identifier: p.identifier@,
                data: p.data@,
            },
            LoginPacket::CookieRequest(p) => LoginPacketView::CookieRequest { key: p.key@ },
        }
    }
}

/// The id under which a packet goes over the wire.
pub open spec fn login_packet_id(p: LoginPacketView) -> i32 {
    match p {
        LoginPacketView::LoginDisconnect { .. } => 0,
        LoginPacketView::Hello { .. } => 1,
        LoginPacketView::LoginFinished { .. } => 2,
        LoginPacketView::LoginCompression { .. } => 3,
        LoginPacketView::CustomQuery { .. } => 4,
        LoginPacketView::CookieRequest { .. } => 5,
    }
}

/// The encoder of a string.
pub open spec fn text_encoder() -> spec_fn(Seq<char>) -> Seq<u8> {
    |s: Seq<char>| string_bytes(s)
}

/// The parser of a string of ordinary length.
pub open spec fn text_parser() -> spec_fn(Seq<u8>) -> Parsed<Seq<char>> {
    |s: Seq<u8>| parse_string(s, MAX_STRING_LENGTH as nat)
}

/// Whether a string of ordinary length can be written.
pub open spec fn text_fits(s: Seq<char>) -> bool {
    s.len() <= MAX_STRING_LENGTH && encode_utf8(s).len() <= i32::MAX
}

/// The wire form of a property: its name, its value, and its signature if
/// it has one.
pub open spec fn property_bytes(e: PropertyEntry) -> Seq<u8> {
    string_bytes(e.0) + string_bytes(e.1.value) + option_bytes(e.1.signature, text_encoder())
}

/// Reads a property.
pub open spec fn parse_property(s: Seq<u8>) -> Parsed<PropertyEntry> {
    match parse_string(s, MAX_STRING_LENGTH as nat) {
        Ok((name, n1)) => match parse_string(s.skip(n1), MAX_STRING_LENGTH as nat) {
            Ok((value, n2)) => match parse_option(s.skip(n1).skip(n2), text_parser()) {
                Ok((signature, n3)) => Ok(
                    ((name, PropertyValueView { value, signature }), n1 + n2 + n3),
                ),
                Err(e) => Err(e),
            },
            Err(e) => Err(e),
        },
        Err(e) => Err(e),
    }
}

/// The encoder of a property.
pub open spec fn property_encoder() -> spec_fn(PropertyEntry) -> Seq<u8> {
    |e: PropertyEntry| property_bytes(e)
}

/// The parser of a property.
pub open spec fn property_parser() -> spec_fn(Seq<u8>) -> Parsed<PropertyEntry> {
    |s: Seq<u8>| parse_property(s)
}

/// Whether a property can be written.
pub open spec fn property_fits(e: PropertyEntry) -> bool {
    &&& text_fits(e.0)
    &&& text_fits(e.1.value)
    &&& e.1.signature matches Some(s) ==> text_fits(s)
}

/// The wire form of a profile: UUID, name, and the properties as a
/// sequence.
pub open spec fn profile_bytes(p: GameProfileView) -> Seq<u8> {
    uuid_bytes(p.uuid) + string_bytes(p.name) + sequence_bytes(p.properties, property_encoder())
}

/// Reads a profile. Of properties listed under one name the last stands.
pub open spec fn parse_profile(s: Seq<u8>) -> Parsed<GameProfileView> {
    match parse_uuid(s) {
        Ok((uuid, n1)) => match parse_string(s.skip(n1), MAX_NAME_LENGTH as nat) {
            Ok((name, n2)) => match parse_sequence(s.skip(n1).skip(n2), property_parser()) {
                Ok((listed, n3)) => Ok(
                    (
                        GameProfileView {
                            uuid,
                            name,
                            properties: with_entries(Seq::empty(), listed),
                        },
                        n1 + n2 + n3,
                    ),
                ),
                Err(e) => Err(e),
            },
            Err(e) => Err(e),
        },
        Err(e) => Err(e),
    }
}

/// Whether a profile can be written and read back.
pub open spec fn profile_fits(p: GameProfileView) -> bool {
    &&& p.name.len() <= MAX_NAME_LENGTH
    &&& encode_utf8(p.name).len() <= i32::MAX
    &&& p.properties.len() <= i32::MAX
    &&& distinct_names(p.properties)
    &&& forall|i: int| 0 <= i < p.properties.len() ==> property_fits(#[trigger] p.properties[i])
}

/// The wire form of a packet's fields, after its id.
pub open spec fn login_body_bytes(p: LoginPacketView) -> Seq<u8> {
    match p {
        LoginPacketView::LoginDisconnect { reason } => string_bytes(reason),
        LoginPacketView::Hello { server_id, public_key, challenge, should_authenticate } => {
            string_bytes(server_id) + blob_bytes(public_key) + blob_bytes(challenge) + bool_bytes(
                should_authenticate,
            )
        },
        LoginPacketView::LoginFinished { game_profile } => profile_bytes(game_profile),
        LoginPacketView::LoginCompression { compression_threshold } => varint_bytes(
            compression_threshold,
        ),
        LoginPacketView::CustomQuery { transaction_id, identifier, data } => varint_bytes(
            transaction_id,
        ) + string_bytes(identifier) + data,
        LoginPacketView::CookieRequest { key } => string_bytes(key),
    }
}

/// The wire form of a packet: its id, then its fields.
pub open spec fn login_packet_bytes(p: LoginPacketView) -> Seq<u8> {
    varint_bytes(login_packet_id(p)) + login_body_bytes(p)
}

/// Whether a packet can be written and read back: its strings are within
/// their limits and its lengths can be written.
pub open spec fn login_packet_fits(p: LoginPacketView) -> bool {
    match p {
        LoginPacketView::LoginDisconnect { reason } => reason.len() <= MAX_REASON_LENGTH
            && encode_utf8(reason).len() <= i32::MAX,
        LoginPacketView::Hello { server_id, public_key, challenge, should_authenticate } => {
            &&& server_id.len() <= MAX_SERVER_ID_LENGTH
            &&& encode_utf8(server_id).len() <= i32::MAX
            &&& public_key.len() <= i32::MAX
            &&& challenge.len() <= i32::MAX
        },
        LoginPacketView::LoginFinished { game_profile } => profile_fits(game_profile),
        LoginPacketView::LoginCompression { compression_threshold } => true,
        LoginPacketView::CustomQuery { transaction_id, identifier, data } => text_fits(identifier),
        LoginPacketView::CookieRequest { key } => text_fits(key),
    }
}

/// Reads the fields of the packet with id `id` from the front of `s`. An id
/// that the state does not know is `UnexpectedPacket`.
pub open spec fn parse_login_body(id: i32, s: Seq<u8>) -> Parsed<LoginPacketView> {
    if id == 0 {
        match parse_string(s, MAX_REASON_LENGTH as nat) {
            Ok((reason, n)) => Ok((LoginPacketView::LoginDisconnect { reason }, n)),
            Err(e) => Err(e),
        }
    } else if id == 1 {
        match parse_string(s, MAX_SERVER_ID_LENGTH as nat) {
            Ok((server_id, n1)) => match parse_blob(s.skip(n1)) {
                Ok((public_key, n2)) => match parse_blob(s.skip(n1).skip(n2)) {
                    Ok((challenge, n3)) => match parse_bool(s.skip(n1).skip(n2).skip(n3)) {
                        Ok((should_authenticate, n4)) => Ok(
                            (
                                LoginPacketView::Hello {
                                    server_id,
                                    public_key,
                                    challenge,
                                    should_authenticate,
                                },
                                n1 + n2 + n3 + n4,
                            ),
                        ),
                        Err(e) => Err(e),
                    },
                    Err(e) => Err(e),
                },
                Err(e) => Err(e),
            },
            Err(e) => Err(e),
        }
    } else if id == 2 {
        match parse_profile(s) {
            Ok((game_profile, n)) => Ok((LoginPacketView::LoginFinished { game_profile }, n)),
            Err(e) => Err(e),
        }
    } else if id == 3 {
        match parse_varint(s) {
            Ok((compression_threshold, n)) => Ok(
                (LoginPacketView::LoginCompression { compression_threshold }, n),
            ),
            Err(e) => Err(e),
        }
    } else if id == 4 {
        match parse_varint(s) {
            Ok((transaction_id, n1)) => match parse_string(s.skip(n1), MAX_STRING_LENGTH as nat) {
                Ok((identifier, n2)) => Ok(
                    (
                        LoginPacketView::CustomQuery {
                            transaction_id,
                            identifier,
                            data: s.skip(n1).skip(n2),
                        },
                        s.len() as int,
                    ),
                ),
                Err(e) => Err(e),
            },
            Err(e) => Err(e),
        }
    } else if id == 5 {
        match parse_string(s, MAX_STRING_LENGTH as nat) {
            Ok((key, n)) => Ok((LoginPacketView::CookieRequest { key }, n)),
            Err(e) => Err(e),
        }
    } else {
        Err(ReadError::UnexpectedPacket)
    }
}

/// Reads one packet from the bytes of a frame: the id, then the fields,
/// which must take all the bytes that are left.
pub open spec fn parse_login_packet(s: Seq<u8>) -> Result<LoginPacketView, ReadError> {
    match parse_varint(s) {
        Ok((id, n)) => match parse_login_body(id, s.skip(n)) {
            Ok((p, m)) => if n + m == s.len() {
                Ok(p)
            } else {
                Err(ReadError::Malformed)
            },
            Err(e) => Err(e),
        },
        Err(e) => Err(e),
    }
}

/// A property that can be written is read back as written.
#[verifier::rlimit(50)]
pub proof fn lemma_property_roundtrip(e: PropertyEntry, rest: Seq<u8>)
    requires
        property_fits(e),
    ensures
        parse_property(property_bytes(e) + rest) == Ok::<(PropertyEntry, int), ReadError>(
            (e, property_bytes(e).len() as int),
        ),
{
    let name = string_bytes(e.0);
    let value = string_bytes(e.1.value);
    let signature = option_bytes(e.1.signature, text_encoder());
    let s = property_bytes(e) + rest;
    assert(s =~= name + (value + signature + rest));
    lemma_string_roundtrip(e.0, MAX_STRING_LENGTH as nat, value + signature + rest);
    assert(s.skip(name.len() as int) =~= value + (signature + rest));
    lemma_string_roundtrip(e.1.value, MAX_STRING_LENGTH as nat, signature + rest);
    assert(s.skip(name.len() as int).skip(value.len() as int) =~= signature + rest);
    match e.1.signature {
        Some(text) => {
            assert forall|after: Seq<u8>| #[trigger]
                text_parser()(text_encoder()(text) + after) == Ok::<(Seq<char>, int), ReadError>(
                    (text, text_encoder()(text).len() as int),
                ) by {
                lemma_string_roundtrip(text, MAX_STRING_LENGTH as nat, after);
            }
            assert(reads_back(text, text_encoder(), text_parser()));
        },
        None => {},
    }
    lemma_option_roundtrip(e.1.signature, text_encoder(), text_parser(), rest);
}

/// Listing properties of distinct names one by one gives the list itself.
pub proof fn lemma_with_entries_distinct(start: Seq<PropertyEntry>, listed: Seq<PropertyEntry>)
    requires
        distinct_names(start + listed),
    ensures
        with_entries(start, listed) == start + listed,
    decreases listed.len(),
{
    if listed.len() == 0 {
        assert(start + listed =~= start);
    } else {
        let all = start + listed;
        let first = listed[0];
        lemma_index_of_name(start, first.0);
        let i = crate::game_profile::index_of_name(start, first.0);
        if i < start.len() {
            assert(all[i] == start[i]);
            assert(all[start.len() as int] == first);
            assert(false);
        }
        let next = with_entry(start, first.0, first.1);
        assert(next =~= start.push(first));
        assert(next + listed.skip(1) =~= all);
        lemma_with_entries_distinct(next, listed.skip(1));
    }
}

/// A profile that can be written is read back as written.
#[verifier::rlimit(50)]
pub proof fn lemma_profile_roundtrip(p: GameProfileView, rest: Seq<u8>)
    requires
        profile_fits(p),
    ensures
        parse_profile(profile_bytes(p) + rest) == Ok::<(GameProfileView, int), ReadError>(
            (p, profile_bytes(p).len() as int),
        ),
{
    let uuid = uuid_bytes(p.uuid);
    let name = string_bytes(p.name);
    let list = sequence_bytes(p.properties, property_encoder());
    let s = profile_bytes(p) + rest;
    assert(s =~= uuid + (name + list + rest));
    lemma_uuid_roundtrip(p.uuid, name + list + rest);
    assert(s.skip(16) =~= name + (list + rest));
    lemma_string_roundtrip(p.name, MAX_NAME_LENGTH as nat, list + rest);
    assert(s.skip(16).skip(name.len() as int) =~= list + rest);
    assert forall|i: int| 0 <= i < p.properties.len() implies reads_back(
        #[trigger] p.properties[i],
        property_encoder(),
        property_parser(),
    ) by {
        let e = p.properties[i];
        assert forall|after: Seq<u8>| #[trigger]
            property_parser()(property_encoder()(e) + after) == Ok::<
                (PropertyEntry, int),
                ReadError,
            >((e, property_encoder()(e).len() as int)) by {
            lemma_property_roundtrip(e, after);
        }
    }
    lemma_sequence_roundtrip(p.properties, property_encoder(), property_parser(), rest);
    assert(Seq::<PropertyEntry>::empty() + p.properties =~= p.properties);
    lemma_with_entries_distinct(Seq::empty(), p.properties);
}

/// Every packet of the login state that can be written is read back as
/// written: decoding the encoding gives the packet.
#[verifier::rlimit(50)]
pub proof fn lemma_login_packet_roundtrip(p: LoginPacketView)
    requires
        login_packet_fits(p),
    ensures
        parse_login_packet(login_packet_bytes(p)) == Ok::<LoginPacketView, ReadError>(p),
{
    let id = login_packet_id(p);
    let body = login_body_bytes(p);
    let s = login_packet_bytes(p);
    let empty = Seq::<u8>::empty();
    lemma_varint_roundtrip(id, body);
    let n = varint_bytes(id).len() as int;
    assert(s.skip(n) =~= body);
    assert(body + empty =~= body);
    match p {
        LoginPacketView::LoginDisconnect { reason } => {
            lemma_string_roundtrip(reason, MAX_REASON_LENGTH as nat, empty);
        },
        LoginPacketView::Hello { server_id, public_key, challenge, should_authenticate } => {
            let a = string_bytes(server_id);
            let b = blob_bytes(public_key);
            let c = blob_bytes(challenge);
            let d = bool_bytes(should_authenticate);
            assert(body =~= a + (b + c + d));
            lemma_string_roundtrip(server_id, MAX_SERVER_ID_LENGTH as nat, b + c + d);
            assert(body.skip(a.len() as int) =~= b + (c + d));
            lemma_blob_roundtrip(public_key, c + d);
            assert(body.skip(a.len() as int).skip(b.len() as int) =~= c + d);
            lemma_blob_roundtrip(challenge, d);
            assert(body.skip(a.len() as int).skip(b.len() as int).skip(c.len() as int) =~= d
                + empty);
            lemma_bool_roundtrip(should_authenticate, empty);
        },
        LoginPacketView::LoginFinished { game_profile } => {
            lemma_profile_roundtrip(game_profile, empty);
        },
        LoginPacketView::LoginCompression { compression_threshold } => {
            lemma_varint_roundtrip(compression_threshold, empty);
        },
        LoginPacketView::CustomQuery { transaction_id, identifier, data } => {
            let a = varint_bytes(transaction_id);
            let b = string_bytes(identifier);
            assert(body =~= a + (b + data));
            lemma_varint_roundtrip(transaction_id, b + data);
            assert(body.skip(a.len() as int) =~= b + data);
            lemma_string_roundtrip(identifier, MAX_STRING_LENGTH as nat, data);
            assert(body.skip(a.len() as int).skip(b.len() as int) =~= data);
        },
        LoginPacketView::CookieRequest { key } => {
            lemma_string_roundtrip(key, MAX_STRING_LENGTH as nat, empty);
        },
    }
}


impl ClientboundLoginCompressionPacket {
    /// This packet as a packet of the login state.
    pub fn get(self) -> (p: LoginPacket)
        ensures
            p == LoginPacket::LoginCompression(self),
    {
        LoginPacket::LoginCompression(self)
    }

    /// Appends the packet's fields to `buf`: the threshold as a
    /// variable-length integer. It never fails.
    pub fn write(&self, buf: &mut Vec<u8>) -> (r: Result<(), std::io::Error>)
        ensures
            r is Ok,
            final(buf)@ == old(buf)@ + varint_bytes(self.compression_threshold),
    {
        write_varint(buf, self.compression_threshold);
        Ok(())
    }

    /// Reads the packet's fields.
    pub fn read(reader: &mut ByteReader) -> (r: Result<LoginPacket, ReadError>)
        ensures
            final(reader).source() == old(reader).source(),
            match parse_login_body(3, old(reader).remaining()) {
                Ok((v, n)) => r matches Ok(p) && p@ == v && 0 <= n <= old(reader).remaining().len()
                    && final(reader).remaining() == old(reader).remaining().skip(n),
                Err(e) => r matches Err(got) && got == e,
            },
    {
        match reader.read_varint() {
            Ok(compression_threshold) => Ok(
                ClientboundLoginCompressionPacket { compression_threshold }.get(),
            ),
            Err(e) => Err(e),
        }
    }
}

/// Appends a property to `buf`.
#[verifier::rlimit(50)]
fn write_property(buf: &mut Vec<u8>, name: &String, value: &ProfilePropertyValue) -> (r: Result<
    (),
    std::io::Error,
>)
    ensures
        r is Ok <==> encode_utf8(name@).len() <= i32::MAX && encode_utf8(value@.value).len()
            <= i32::MAX && (value@.signature matches Some(s) ==> encode_utf8(s).len() <= i32::MAX),
        r is Ok ==> final(buf)@ == old(buf)@ + property_bytes((name@, value@)),
        old(buf)@.is_prefix_of(final(buf)@),
{
    match write_string(buf, name.as_str()) {
        Ok(()) => {},
        Err(e) => { return Err(e); },
    }
    match write_string(buf, value.value.as_str()) {
        Ok(()) => {},
        Err(e) => { return Err(e); },
    }
    let ghost mid = buf@;
    match &value.signature {
        Some(s) => {
            write_bool(buf, true);
            match write_string(buf, s.as_str()) {
                Ok(()) => {},
                Err(e) => { return Err(e); },
            }
            proof {
                assert(buf@ =~= mid + option_bytes(value@.signature, text_encoder()));
            }
        },
        None => {
            write_bool(buf, false);
        },
    }
    proof {
        assert(buf@ =~= old(buf)@ + property_bytes((name@, value@)));
    }
    Ok(())
}

/// Whether the lengths of a property can be written.
pub open spec fn property_writable(e: PropertyEntry) -> bool {
    &&& encode_utf8(e.0).len() <= i32::MAX
    &&& encode_utf8(e.1.value).len() <= i32::MAX
    &&& e.1.signature matches Some(s) ==> encode_utf8(s).len() <= i32::MAX
}

/// Whether the lengths of a profile can be written.
pub open spec fn profile_writable(p: GameProfileView) -> bool {
    &&& encode_utf8(p.name).len() <= i32::MAX
    &&& p.properties.len() <= i32::MAX
    &&& forall|i: int|
        0 <= i < p.properties.len() ==> property_writable(#[trigger] p.properties[i])
}

/// Whether the lengths of a packet can be written.
pub open spec fn login_packet_writable(p: LoginPacketView) -> bool {
    match p {
        LoginPacketView::LoginDisconnect { reason } => encode_utf8(reason).len() <= i32::MAX,
        LoginPacketView::Hello { server_id, public_key, challenge, should_authenticate } => {
            &&& encode_utf8(server_id).len() <= i32::MAX
            &&& public_key.len() <= i32::MAX
            &&& challenge.len() <= i32::MAX
        },
        LoginPacketView::LoginFinished { game_profile } => profile_writable(game_profile),
        LoginPacketView::LoginCompression { compression_threshold } => true,
        LoginPacketView::CustomQuery { transaction_id, identifier, data } => encode_utf8(
            identifier,
        ).len() <= i32::MAX,
        LoginPacketView::CookieRequest { key } => encode_utf8(key).len() <= i32::MAX,
    }
}

/// The encodings of the first `k` items are a prefix of the encodings of
/// all.
pub proof fn lemma_items_bytes_push<T>(items: Seq<T>, x: T, encode: spec_fn(T) -> Seq<u8>)
    ensures
        crate::wire::items_bytes(items.push(x), encode) == crate::wire::items_bytes(items, encode)
            + encode(x),
    decreases items.len(),
{
    let all = items.push(x);
    if items.len() == 0 {
        assert(all.skip(1) =~= Seq::<T>::empty());
        assert(all[0] == x);
        assert(crate::wire::items_bytes(all.skip(1), encode) =~= Seq::<u8>::empty());
        assert(crate::wire::items_bytes(all, encode) =~= encode(x));
        assert(crate::wire::items_bytes(items, encode) + encode(x) =~= encode(x));
    } else {
        assert(all.skip(1) =~= items.skip(1).push(x));
        lemma_items_bytes_push(items.skip(1), x, encode);
        assert(all[0] == items[0]);
        assert(crate::wire::items_bytes(all, encode) =~= crate::wire::items_bytes(items, encode)
            + encode(x));
    }
}

/// Appends a profile to `buf`.
#[verifier::loop_isolation(false)]
#[verifier::rlimit(50)]
pub fn write_profile(buf: &mut Vec<u8>, profile: &GameProfile) -> (r: Result<(), std::io::Error>)
    ensures
        r is Ok <==> profile_writable(profile@),
        r is Ok ==> final(buf)@ == old(buf)@ + profile_bytes(profile@),
        old(buf)@.is_prefix_of(final(buf)@),
{
    write_uuid(buf, profile.uuid);
    match write_string(buf, profile.name.as_str()) {
        Ok(()) => {},
        Err(e) => { return Err(e); },
    }
    let n = profile.properties.len();
    let ghost entries = profile@.properties;
    if n > 0x7fff_ffff {
        return Err(crate::wire::invalid_input_error());
    }
    write_varint(buf, n as i32);
    let ghost head = buf@;
    let mut i: usize = 0;
    proof {
        assert(entries.take(0) =~= Seq::<PropertyEntry>::empty());
        assert(head + crate::wire::items_bytes(entries.take(0), property_encoder()) =~= head);
    }
    while i < n
        invariant
            n == entries.len(),
            entries == profile@.properties,
            i <= n,
            old(buf)@.is_prefix_of(head),
            buf@ == head + crate::wire::items_bytes(entries.take(i as int), property_encoder()),
            forall|j: int| 0 <= j < i ==> property_writable(#[trigger] entries[j]),
        decreases n - i,
    {
        match profile.properties.entry(i) {
            Some(p) => {
                proof {
                    lemma_items_bytes_push(entries.take(i as int), entries[i as int], property_encoder());
                    assert(entries.take(i + 1) =~= entries.take(i as int).push(entries[i as int]));
                }
                let ghost before = buf@;
                match write_property(buf, &p.name, &p.value) {
                    Ok(()) => {},
                    Err(e) => {
                        proof {
                            assert(!property_writable(entries[i as int]));
                            assert(head.is_prefix_of(before));
                        }
                        return Err(e);
                    },
                }
                proof {
                    assert(buf@ =~= head + crate::wire::items_bytes(
                        entries.take(i + 1),
                        property_encoder(),
                    ));
                }
            },
            None => {},
        }
        i = i + 1;
    }
    proof {
        assert(entries.take(n as int) =~= entries);
        assert(buf@ =~= old(buf)@ + profile_bytes(profile@));
    }
    Ok(())
}

/// Reads a property.
#[verifier::rlimit(50)]
fn read_property(reader: &mut ByteReader) -> (r: Result<(String, ProfilePropertyValue), ReadError>)
    ensures
        final(reader).source() == old(reader).source(),
        match parse_property(old(reader).remaining()) {
            Ok((v, n)) => r matches Ok(got) && (got.0@, got.1@) == v
                && 0 < n <= old(reader).remaining().len()
                && final(reader).remaining() == old(reader).remaining().skip(n),
            Err(e) => r matches Err(got) && got == e && *final(reader) == *old(reader),
        },
{
    let ghost s = reader.remaining();
    let mut probe = *reader;
    let name = match read_string(&mut probe, MAX_STRING_LENGTH) {
        Ok(v) => v,
        Err(e) => { return Err(e); },
    };
    let ghost n1 = parse_string(s, MAX_STRING_LENGTH as nat).unwrap().1;
    let value = match read_string(&mut probe, MAX_STRING_LENGTH) {
        Ok(v) => v,
        Err(e) => { return Err(e); },
    };
    let ghost n2 = parse_string(s.skip(n1), MAX_STRING_LENGTH as nat).unwrap().1;
    let present = match read_bool(&mut probe) {
        Ok(v) => v,
        Err(e) => { return Err(e); },
    };
    let signature = if present {
        match read_string(&mut probe, MAX_STRING_LENGTH) {
            Ok(v) => Some(v),
            Err(e) => { return Err(e); },
        }
    } else {
        None
    };
    proof {
        let n3 = parse_option(s.skip(n1).skip(n2), text_parser()).unwrap().1;
        assert(s.skip(n1).skip(n2).skip(n3) =~= s.skip(n1 + n2 + n3));
        if present {
            assert(s.skip(n1).skip(n2).skip(1).skip(n3 - 1) =~= s.skip(n1).skip(n2).skip(n3));
        }
    }
    *reader = probe;
    Ok((name, ProfilePropertyValue { value, signature }))
}

/// Whether reading the `i` properties `read` from the first `taken` bytes
/// of `items` agrees with reading all `count` properties: what the rest
/// gives decides the whole.
pub open spec fn properties_so_far(
    items: Seq<u8>,
    count: int,
    taken: int,
    i: int,
    read: Seq<PropertyEntry>,
) -> bool {
    &&& 0 <= i <= count
    &&& 0 <= taken <= items.len()
    &&& read.len() == i
    &&& match crate::wire::parse_items(items.skip(taken), (count - i) as nat, property_parser()) {
        Ok((rest, m)) => crate::wire::parse_items(items, count as nat, property_parser()) == Ok::<
            (Seq<PropertyEntry>, int),
            ReadError,
        >((read + rest, taken + m)),
        Err(e) => crate::wire::parse_items(items, count as nat, property_parser()) == Err::<
            (Seq<PropertyEntry>, int),
            ReadError,
        >(e),
    }
}

/// Before anything is read, nothing is decided.
pub proof fn lemma_properties_start(items: Seq<u8>, count: int)
    requires
        count >= 0,
    ensures
        properties_so_far(items, count, 0, 0, Seq::empty()),
{
    assert(items.skip(0) =~= items);
    match crate::wire::parse_items(items, count as nat, property_parser()) {
        Ok((rest, m)) => {
            assert(Seq::<PropertyEntry>::empty() + rest =~= rest);
        },
        Err(_) => {},
    }
}

/// One property more was read.
pub proof fn lemma_properties_step(
    items: Seq<u8>,
    count: int,
    taken: int,
    i: int,
    read: Seq<PropertyEntry>,
    e: PropertyEntry,
    n: int,
)
    requires
        properties_so_far(items, count, taken, i, read),
        i < count,
        parse_property(items.skip(taken)) == Ok::<(PropertyEntry, int), ReadError>((e, n)),
        0 <= n <= items.len() - taken,
    ensures
        properties_so_far(items, count, taken + n, i + 1, read.push(e)),
{
    let at = items.skip(taken);
    assert(at.skip(n) =~= items.skip(taken + n));
    assert(property_parser()(at) == parse_property(at));
    match crate::wire::parse_items(at.skip(n), (count - i - 1) as nat, property_parser()) {
        Ok((rest, m)) => {
            assert(read + (seq![e] + rest) =~= read.push(e) + rest);
        },
        Err(_) => {},
    }
}

/// A property that cannot be read fails the whole list.
pub proof fn lemma_properties_fail(
    items: Seq<u8>,
    count: int,
    taken: int,
    i: int,
    read: Seq<PropertyEntry>,
    e: ReadError,
)
    requires
        properties_so_far(items, count, taken, i, read),
        i < count,
        parse_property(items.skip(taken)) == Err::<(PropertyEntry, int), ReadError>(e),
    ensures
        crate::wire::parse_items(items, count as nat, property_parser()) == Err::<
            (Seq<PropertyEntry>, int),
            ReadError,
        >(e),
{
    let at = items.skip(taken);
    assert(property_parser()(at) == parse_property(at));
}

/// When all properties are read, the list is what was read.
pub proof fn lemma_properties_done(
    items: Seq<u8>,
    count: int,
    taken: int,
    read: Seq<PropertyEntry>,
)
    requires
        properties_so_far(items, count, taken, count, read),
    ensures
        crate::wire::parse_items(items, count as nat, property_parser()) == Ok::<
            (Seq<PropertyEntry>, int),
            ReadError,
        >((read, taken)),
{
    assert(read + Seq::<PropertyEntry>::empty() =~= read);
}

/// Reads `count` properties into a mapping.
#[verifier::rlimit(50)]
fn read_properties(reader: &mut ByteReader, count: i32) -> (r: Result<PropertyMap, ReadError>)
    requires
        count >= 0,
    ensures
        final(reader).source() == old(reader).source(),
        match crate::wire::parse_items(old(reader).remaining(), count as nat, property_parser()) {
            Ok((v, n)) => r matches Ok(got) && got.entries() == with_entries(Seq::empty(), v) && 0
                <= n <= old(reader).remaining().len()
                    && final(reader).remaining() == old(reader).remaining().skip(n),
            Err(e) => r matches Err(got) && got == e,
        },
{
    let ghost items = reader.remaining();
    let mut properties = PropertyMap::new();
    let mut i: i32 = 0;
    let ghost mut taken: int = 0;
    let ghost mut read: Seq<PropertyEntry> = Seq::empty();
    proof {
        assert(items.skip(0) =~= items);
        lemma_properties_start(items, count as int);
    }
    while i < count
        invariant
            reader.source() == old(reader).source(),
            items == old(reader).remaining(),
            reader.remaining() == items.skip(taken),
            properties.entries() == with_entries(Seq::empty(), read),
            properties_so_far(items, count as int, taken, i as int, read),
        decreases count - i,
    {
        let ghost at = items.skip(taken);
        let (key, value) = match read_property(reader) {
            Ok(v) => v,
            Err(e) => {
                proof {
                    lemma_properties_fail(items, count as int, taken, i as int, read, e);
                }
                return Err(e);
            },
        };
        proof {
            let n = parse_property(at).unwrap().1;
            let e = (key@, value@);
            assert(at.skip(n) =~= items.skip(taken + n));
            lemma_properties_step(items, count as int, taken, i as int, read, e, n);
            lemma_with_entries_push(Seq::empty(), read, e);
            read = read.push(e);
            taken = taken + n;
        }
        properties.insert(key, value);
        i = i + 1;
    }
    proof {
        lemma_properties_done(items, count as int, taken, read);
    }
    Ok(properties)
}

/// Reads a profile.
#[verifier::rlimit(50)]
pub fn read_profile(reader: &mut ByteReader) -> (r: Result<GameProfile, ReadError>)
    ensures
        final(reader).source() == old(reader).source(),
        match parse_profile(old(reader).remaining()) {
            Ok((v, n)) => r matches Ok(got) && got@ == v && 0 < n <= old(reader).remaining().len()
                && final(reader).remaining() == old(reader).remaining().skip(n),
            Err(e) => r matches Err(got) && got == e && *final(reader) == *old(reader),
        },
{
    let ghost s = reader.remaining();
    let mut probe = *reader;
    let uuid = match read_uuid(&mut probe) {
        Ok(v) => v,
        Err(e) => { return Err(e); },
    };
    let name = match read_string(&mut probe, MAX_NAME_LENGTH) {
        Ok(v) => v,
        Err(e) => { return Err(e); },
    };
    let ghost n2 = parse_string(s.skip(16), MAX_NAME_LENGTH as nat).unwrap().1;
    let ghost list = probe.remaining();
    let count = match probe.read_varint() {
        Ok(v) => v,
        Err(e) => { return Err(e); },
    };
    if count < 0 {
        return Err(ReadError::Malformed);
    }
    let ghost n3 = parse_varint(list).unwrap().1;
    let ghost items = probe.remaining();
    let properties = match read_properties(&mut probe, count) {
        Ok(v) => v,
        Err(e) => { return Err(e); },
    };
    proof {
        let n4 = crate::wire::parse_items(items, count as nat, property_parser()).unwrap().1;
        assert(list == s.skip(16).skip(n2));
        assert(items == list.skip(n3));
        assert(s.skip(16).skip(n2).skip(n3).skip(n4) =~= s.skip(16 + n2 + n3 + n4));
    }
    *reader = probe;
    Ok(GameProfile { uuid, name, properties: std::sync::Arc::new(properties) })
}

/// Listing one more property after a list is setting it after the list was
/// set.
pub proof fn lemma_with_entries_push(
    start: Seq<PropertyEntry>,
    listed: Seq<PropertyEntry>,
    e: PropertyEntry,
)
    ensures
        with_entries(start, listed.push(e)) == with_entry(with_entries(start, listed), e.0, e.1),
    decreases listed.len(),
{
    let all = listed.push(e);
    if listed.len() == 0 {
        assert(all.skip(1) =~= Seq::<PropertyEntry>::empty());
        assert(all[0] == e);
        let next = with_entry(start, e.0, e.1);
        assert(with_entries(next, all.skip(1)) == next);
        assert(with_entries(start, all) == with_entries(next, all.skip(1)));
    } else {
        assert(all.skip(1) =~= listed.skip(1).push(e));
        assert(all[0] == listed[0]);
        let next = with_entry(start, listed[0].0, listed[0].1);
        lemma_with_entries_push(next, listed.skip(1), e);
        assert(with_entries(start, all) == with_entries(next, all.skip(1)));
    }
}

impl LoginPacket {
    /// The id under which this packet goes over the wire.
    pub fn id(&self) -> (id: i32)
        ensures
            id == login_packet_id(self@),
    {
        match self {
            LoginPacket::LoginDisconnect(_) => 0,
            LoginPacket::Hello(_) => 1,
            LoginPacket::LoginFinished(_) => 2,
            LoginPacket::LoginCompression(_) => 3,
            LoginPacket::CustomQuery(_) => 4,
            LoginPacket::CookieRequest(_) => 5,
        }
    }

    /// Appends the packet's fields to `buf`. It fails where a length cannot
    /// be written; what was written before the failure stays.
    #[verifier::rlimit(50)]
    pub fn write(&self, buf: &mut Vec<u8>) -> (r: Result<(), std::io::Error>)
        ensures
            r is Ok <==> login_packet_writable(self@),
            r is Ok ==> final(buf)@ == old(buf)@ + login_body_bytes(self@),
            old(buf)@.is_prefix_of(final(buf)@),
    {
        match self {
            LoginPacket::LoginDisconnect(p) => write_string(buf, p.reason.as_str()),
            LoginPacket::Hello(p) => {
                match write_string(buf, p.server_id.as_str()) {
                    Ok(()) => {},
                    Err(e) => { return Err(e); },
                }
                match write_blob(buf, p.public_key.as_slice()) {
                    Ok(()) => {},
                    Err(e) => { return Err(e); },
                }
                match write_blob(buf, p.challenge.as_slice()) {
                    Ok(()) => {},
                    Err(e) => { return Err(e); },
                }
                write_bool(buf, p.should_authenticate);
                proof {
                    assert(buf@ =~= old(buf)@ + login_body_bytes(self@));
                }
                Ok(())
            },
            LoginPacket::LoginFinished(p) => write_profile(buf, &p.game_profile),
            LoginPacket::LoginCompression(p) => p.write(buf),
            LoginPacket::CustomQuery(p) => {
                write_varint(buf, p.transaction_id);
                match write_string(buf, p.identifier.as_str()) {
                    Ok(()) => {},
                    Err(e) => { return Err(e); },
                }
                let ghost mid = buf@;
                buf.extend_from_slice(p.data.as_slice());
                proof {
                    assert(buf@ =~= mid + p.data@);
                    assert(buf@ =~= old(buf)@ + login_body_bytes(self@));
                }
                Ok(())
            },
            LoginPacket::CookieRequest(p) => write_string(buf, p.key.as_str()),
        }
    }

    /// Reads the fields of the packet with id `id`.
    #[verifier::rlimit(50)]
    pub fn read(id: i32, reader: &mut ByteReader) -> (r: Result<LoginPacket, ReadError>)
        ensures
            final(reader).source() == old(reader).source(),
            match parse_login_body(id, old(reader).remaining()) {
                Ok((v, n)) => r matches Ok(p) && p@ == v && 0 <= n <= old(reader).remaining().len()
                    && final(reader).remaining() == old(reader).remaining().skip(n),
                Err(e) => r matches Err(got) && got == e,
            },
    {
        let ghost s = reader.remaining();
        if id == 0 {
            match read_string(reader, MAX_REASON_LENGTH) {
                Ok(reason) => Ok(LoginPacket::LoginDisconnect(ClientboundLoginDisconnect { reason })),
                Err(e) => Err(e),
            }
        } else if id == 1 {
            let server_id = match read_string(reader, MAX_SERVER_ID_LENGTH) {
                Ok(v) => v,
                Err(e) => { return Err(e); },
            };
            let ghost n1 = parse_string(s, MAX_SERVER_ID_LENGTH as nat).unwrap().1;
            let public_key = match read_blob(reader) {
                Ok(v) => v,
                Err(e) => { return Err(e); },
            };
            let ghost n2 = parse_blob(s.skip(n1)).unwrap().1;
            let challenge = match read_blob(reader) {
                Ok(v) => v,
                Err(e) => { return Err(e); },
            };
            let ghost n3 = parse_blob(s.skip(n1).skip(n2)).unwrap().1;
            let should_authenticate = match read_bool(reader) {
                Ok(v) => v,
                Err(e) => { return Err(e); },
            };
            proof {
                assert(s.skip(n1).skip(n2).skip(n3).skip(1) =~= s.skip(n1 + n2 + n3 + 1));
            }
            Ok(
                LoginPacket::Hello(
                    ClientboundHello { server_id, public_key, challenge, should_authenticate },
                ),
            )
        } else if id == 2 {
            match read_profile(reader) {
                Ok(game_profile) => Ok(
                    LoginPacket::LoginFinished(ClientboundLoginFinished { game_profile }),
                ),
                Err(e) => Err(e),
            }
        } else if id == 3 {
            ClientboundLoginCompressionPacket::read(reader)
        } else if id == 4 {
            let transaction_id = match reader.read_varint() {
                Ok(v) => v,
                Err(e) => { return Err(e); },
            };
            let identifier = match read_string(reader, MAX_STRING_LENGTH) {
                Ok(v) => v,
                Err(e) => { return Err(e); },
            };
            let data = reader.read_rest();
            proof {
                assert(s.skip(s.len() as int) =~= Seq::<u8>::empty());
            }
            Ok(
                LoginPacket::CustomQuery(
                    ClientboundCustomQuery { transaction_id, identifier, data },
                ),
            )
        } else if id == 5 {
            match read_string(reader, MAX_STRING_LENGTH) {
                Ok(key) => Ok(LoginPacket::CookieRequest(ClientboundCookieRequest { key })),
                Err(e) => Err(e),
            }
        } else {
            Err(ReadError::UnexpectedPacket)
        }
    }
}

/// Reads one packet of the login state from the bytes of a frame.
#[verifier::rlimit(50)]
pub fn read_login_packet(frame: &[u8]) -> (r: Result<LoginPacket, ReadError>)
    ensures
        match parse_login_packet(frame@) {
            Ok(v) => r matches Ok(p) && p@ == v,
            Err(e) => r matches Err(got) && got == e,
        },
{
    let mut reader = ByteReader::new(frame);
    let id = match reader.read_varint() {
        Ok(v) => v,
        Err(e) => { return Err(e); },
    };
    let packet = match LoginPacket::read(id, &mut reader) {
        Ok(p) => p,
        Err(e) => { return Err(e); },
    };
    if reader.remaining_len() != 0 {
        return Err(ReadError::Malformed);
    }
    Ok(packet)
}

} // verus!
