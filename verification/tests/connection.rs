use azalea::buf::{write_varint, ByteReader, ReadError};
use azalea::frame::{compress, compress_with, decompress, decompress_with};
use azalea::game_profile::{GameProfile, ProfilePropertyValue, PropertyMap};
use azalea::indexing::{EntityIdIndex, EntityUuidIndex};
use azalea::packets::login::{
    read_login_packet, read_profile, write_profile, ClientboundCookieRequest,
    ClientboundCustomQuery, ClientboundHello, ClientboundLoginDisconnect,
    ClientboundLoginFinished, LoginPacket,
};
use azalea::client::{
    ChatVisibility, ClientInformation, HumanoidArm, ServerboundClientInformation,
};
use azalea::packets::game::{
    ClientboundKeepAlive, ServerboundChunkBatchReceivedPacket, ServerboundKeepAlive,
};
use azalea::packets::serverbound::{
    read_serverbound_login_packet, ClientIntention, ServerboundIntention,
    ServerboundLoginPacket,
};
use azalea::raw_connection::{threshold_of, ReadHalf, WriteHalf};
use azalea::wire::{
    read_blob, read_bool, read_string, read_u16, read_u32, read_u64, read_u8, read_uuid,
    write_blob, write_bool, write_string, write_u16, write_u32, write_u64, write_u8, write_uuid,
};
use azalea::write::{write_packet, ProtocolPacket};
use std::sync::Arc;

fn profile() -> GameProfile {
    let mut map = PropertyMap::new();
    map.insert(
        "textures".to_string(),
        ProfilePropertyValue { value: "abc".to_string(), signature: Some("sig".to_string()) },
    );
    map.insert("cape".to_string(), ProfilePropertyValue { value: "d".to_string(), signature: None });
    GameProfile {
        uuid: 0xf1a2b3c4_d5e6_f7a8_b9c0_d1e2f3a4b5c6,
        name: "Notch".to_string(),
        properties: Arc::new(map),
    }
}

fn login_packets() -> Vec<LoginPacket> {
    vec![
        LoginPacket::LoginDisconnect(ClientboundLoginDisconnect { reason: "bye".to_string() }),
        LoginPacket::Hello(ClientboundHello {
            server_id: "srv".to_string(),
            public_key: vec![1, 2, 3, 4],
            challenge: vec![],
            should_authenticate: true,
        }),
        LoginPacket::LoginFinished(ClientboundLoginFinished { game_profile: profile() }),
        LoginPacket::LoginCompression(
            azalea::packets::login::ClientboundLoginCompressionPacket {
                compression_threshold: -1,
            },
        ),
        LoginPacket::CustomQuery(ClientboundCustomQuery {
            transaction_id: 300,
            identifier: "minecraft:brand".to_string(),
            data: vec![0, 255, 7],
        }),
        LoginPacket::CookieRequest(ClientboundCookieRequest { key: "a:b".to_string() }),
    ]
}

#[test]
fn every_login_packet_is_read_back_as_written() {
    for (id, packet) in login_packets().into_iter().enumerate() {
        assert_eq!(ProtocolPacket::id(&packet), id as i32);
        let mut bytes = Vec::new();
        write_varint(&mut bytes, packet.id());
        packet.write(&mut bytes).unwrap();
        assert_eq!(read_login_packet(&bytes), Ok(packet));
    }
}

#[test]
fn malformed_login_packets_are_refused() {
    assert_eq!(read_login_packet(&[]), Err(ReadError::ShortRead));
    assert_eq!(read_login_packet(&[6]), Err(ReadError::UnexpectedPacket));
    // A server id of 21 characters is one too many.
    let mut bytes = vec![1u8, 21];
    bytes.extend_from_slice(&[b'a'; 21]);
    bytes.extend_from_slice(&[0, 0, 1]);
    assert_eq!(read_login_packet(&bytes), Err(ReadError::Malformed));
    // Bytes left over after the fields.
    assert_eq!(read_login_packet(&[5, 1, b'k', 0]), Err(ReadError::Malformed));
    // A string that is not UTF-8.
    assert_eq!(read_login_packet(&[5, 1, 0xff]), Err(ReadError::Malformed));
    // A boolean that is neither 0 nor 1.
    assert_eq!(read_login_packet(&[1, 0, 0, 0, 2]), Err(ReadError::Malformed));
    assert_eq!(read_login_packet(&[1, 0, 0, 0]), Err(ReadError::ShortRead));
}

#[test]
fn profile_wire_form() {
    let mut bytes = Vec::new();
    write_profile(&mut bytes, &GameProfile::new(1, "ab".to_string())).unwrap();
    let mut expected = vec![0u8; 15];
    expected.extend_from_slice(&[1, 2, b'a', b'b', 0]);
    assert_eq!(bytes, expected);
    let mut reader = ByteReader::new(&bytes);
    assert_eq!(read_profile(&mut reader), Ok(GameProfile::new(1, "ab".to_string())));
    assert_eq!(reader.remaining_len(), 0);
}

#[test]
fn primitives_roundtrip() {
    let mut buf = Vec::new();
    write_bool(&mut buf, true);
    write_u8(&mut buf, 0xab);
    write_u16(&mut buf, 0x1234);
    write_u32(&mut buf, 0xdead_beef);
    write_u64(&mut buf, 0x0102_0304_0506_0708);
    write_uuid(&mut buf, 0x0011_2233_4455_6677_8899_aabb_ccdd_eeff);
    write_string(&mut buf, "héllo").unwrap();
    write_blob(&mut buf, &[1, 2, 3]).unwrap();
    assert_eq!(&buf[..8], &[1, 0xab, 0x12, 0x34, 0xde, 0xad, 0xbe, 0xef]);
    assert_eq!(&buf[8..16], &[1, 2, 3, 4, 5, 6, 7, 8]);
    assert_eq!(&buf[16..32], &[0, 0x11, 0x22, 0x33, 0x44, 0x55, 0x66, 0x77, 0x88, 0x99, 0xaa, 0xbb, 0xcc, 0xdd, 0xee, 0xff]);
    assert_eq!(buf[32], 6);
    let mut reader = ByteReader::new(&buf);
    assert_eq!(read_bool(&mut reader), Ok(true));
    assert_eq!(read_u8(&mut reader), Ok(0xab));
    assert_eq!(read_u16(&mut reader), Ok(0x1234));
    assert_eq!(read_u32(&mut reader), Ok(0xdead_beef));
    assert_eq!(read_u64(&mut reader), Ok(0x0102_0304_0506_0708));
    assert_eq!(read_uuid(&mut reader), Ok(0x0011_2233_4455_6677_8899_aabb_ccdd_eeff));
    let mut probe = reader;
    assert_eq!(read_string(&mut probe, 4), Err(ReadError::Malformed));
    assert_eq!(read_string(&mut reader, 5), Ok("héllo".to_string()));
    assert_eq!(read_blob(&mut reader), Ok(vec![1, 2, 3]));
    assert_eq!(read_u8(&mut reader), Err(ReadError::ShortRead));
    assert_eq!(reader.read_bytes(1), Err(ReadError::ShortRead));
    assert_eq!(reader.read_rest(), Vec::<u8>::new());
    let negative = [0xff, 0xff, 0xff, 0xff, 0x0f];
    assert_eq!(read_blob(&mut ByteReader::new(&negative)), Err(ReadError::Malformed));
    let mut one = ByteReader::new(&[7, 8]);
    assert_eq!(one.peek(), 7);
    one.advance(1);
    assert_eq!(one.read_be(1), Ok(8));
    assert_eq!(ByteReader::new(&[0x80, 0x01]).read_digits(5), Ok(128));
}

#[test]
fn serverbound_packets_wire_form() {
    let intention = ServerboundIntention {
        protocol_version: 769,
        hostname: "mc".to_string(),
        port: 25565,
        intention: ClientIntention::Login,
    };
    let mut out = Vec::new();
    write_packet(&intention, &mut out).unwrap();
    assert_eq!(out, vec![9, 0, 0x81, 0x06, 2, b'm', b'c', 0x63, 0xdd, 2]);
    let frame = |packet: ServerboundLoginPacket| {
        let mut out = Vec::new();
        write_packet(&packet, &mut out).unwrap();
        out
    };
    assert_eq!(frame(ServerboundLoginPacket::LoginAcknowledged), vec![1, 3]);
    assert_eq!(
        frame(ServerboundLoginPacket::Key { key_bytes: vec![7], encrypted_challenge: vec![8, 9] }),
        vec![6, 1, 1, 7, 2, 8, 9]
    );
    assert_eq!(
        frame(ServerboundLoginPacket::CustomQueryAnswer { transaction_id: 5, data: None }),
        vec![3, 2, 5, 0]
    );
    assert_eq!(
        frame(ServerboundLoginPacket::CustomQueryAnswer { transaction_id: 5, data: Some(vec![1]) }),
        vec![4, 2, 5, 1, 1]
    );
    assert_eq!(
        frame(ServerboundLoginPacket::CookieResponse { key: "k".to_string(), payload: Some(vec![1]) }),
        vec![6, 4, 1, b'k', 1, 1, 1]
    );
    let hello = frame(ServerboundLoginPacket::Hello { name: "bot".to_string(), profile_id: 1 });
    assert_eq!(hello.len(), 1 + 1 + 4 + 16);
    assert_eq!(hello[21], 1);
}

#[test]
fn serverbound_packets_are_read_back_as_written() {
    let packets = vec![
        ServerboundLoginPacket::Hello { name: "bot".to_string(), profile_id: 77 },
        ServerboundLoginPacket::Key { key_bytes: vec![1, 2], encrypted_challenge: vec![] },
        ServerboundLoginPacket::CustomQueryAnswer { transaction_id: -3, data: None },
        ServerboundLoginPacket::CustomQueryAnswer { transaction_id: 9, data: Some(vec![7, 8]) },
        ServerboundLoginPacket::CustomQueryAnswer { transaction_id: 9, data: Some(vec![]) },
        ServerboundLoginPacket::LoginAcknowledged,
        ServerboundLoginPacket::CookieResponse { key: "a:b".to_string(), payload: None },
        ServerboundLoginPacket::CookieResponse { key: "a:b".to_string(), payload: Some(vec![5]) },
    ];
    for packet in packets {
        let bytes = azalea::write::packet_payload(&packet).unwrap();
        assert_eq!(read_serverbound_login_packet(&bytes), Ok(packet));
    }
    assert_eq!(read_serverbound_login_packet(&[5]), Err(ReadError::UnexpectedPacket));
    assert_eq!(read_serverbound_login_packet(&[3, 0]), Err(ReadError::Malformed));
    let name = "a".repeat(17);
    let long = ServerboundLoginPacket::Hello { name, profile_id: 0 };
    let bytes = azalea::write::packet_payload(&long).unwrap();
    assert_eq!(read_serverbound_login_packet(&bytes), Err(ReadError::Malformed));

    let intention = ServerboundIntention {
        protocol_version: 770,
        hostname: "play.example.org".to_string(),
        port: 25565,
        intention: ClientIntention::Status,
    };
    let mut bytes = Vec::new();
    intention.write(&mut bytes).unwrap();
    let mut reader = ByteReader::new(&bytes);
    assert_eq!(ServerboundIntention::read(&mut reader), Ok(intention));
    assert_eq!(reader.remaining_len(), 0);
    let last = bytes.len() - 1;
    bytes[last] = 3;
    assert_eq!(
        ServerboundIntention::read(&mut ByteReader::new(&bytes)),
        Err(ReadError::Malformed)
    );
}

#[test]
fn game_packets_are_read_back_as_written() {
    let information = ServerboundClientInformation {
        information: ClientInformation {
            language: "fr_fr".to_string(),
            view_distance: 12,
            chat_visibility: ChatVisibility::System,
            chat_colors: true,
            model_customisation: 0x55,
            main_hand: HumanoidArm::Left,
            text_filtering_enabled: false,
            allows_listing: true,
        },
    };
    let mut bytes = Vec::new();
    information.write(&mut bytes).unwrap();
    let mut reader = ByteReader::new(&bytes);
    assert_eq!(ServerboundClientInformation::read(&mut reader), Ok(information));
    assert_eq!(reader.remaining_len(), 0);
    bytes[7] = 3;
    assert_eq!(
        ServerboundClientInformation::read(&mut ByteReader::new(&bytes)),
        Err(ReadError::Malformed)
    );
    let batch = ServerboundChunkBatchReceivedPacket { desired_chunks_per_tick: 0x4020_0000 };
    let mut bytes = Vec::new();
    batch.write(&mut bytes).unwrap();
    assert_eq!(ServerboundChunkBatchReceivedPacket::read(&mut ByteReader::new(&bytes)), Ok(batch));
    let alive = ServerboundKeepAlive { id: u64::MAX - 1 };
    let mut bytes = Vec::new();
    alive.write(&mut bytes).unwrap();
    assert_eq!(ServerboundKeepAlive::read(&mut ByteReader::new(&bytes)), Ok(alive));
    assert_eq!(
        ClientboundKeepAlive::read(&mut ByteReader::new(&bytes)),
        Ok(ClientboundKeepAlive { id: u64::MAX - 1 })
    );
    assert_eq!(
        ClientboundKeepAlive::read(&mut ByteReader::new(&bytes[1..])),
        Err(ReadError::ShortRead)
    );
}

#[test]
fn compression_depends_on_what_zlib_gives() {
    assert_eq!(compress_with(&[1, 2], 1, Some(vec![9, 9, 9])), Some(vec![2, 9, 9, 9]));
    assert_eq!(compress_with(&[1, 2], 1, None), None);
    assert_eq!(compress_with(&[1, 2], 3, None), Some(vec![0, 1, 2]));
    assert_eq!(decompress_with(0, vec![1, 2], None), Ok(vec![1, 2]));
    assert_eq!(decompress_with(2, vec![7], Some(vec![1, 2])), Ok(vec![1, 2]));
    assert_eq!(decompress_with(3, vec![7], Some(vec![1, 2])), Err(ReadError::Malformed));
    assert_eq!(decompress_with(3, vec![7], None), Err(ReadError::Malformed));
    assert_eq!(decompress_with(-1, vec![7], None), Err(ReadError::Malformed));
    // A stream that inflates to more than it announces, or is cut short, is refused.
    let body = compress(&[5u8; 500], 0).unwrap();
    let mut lying = vec![0xf3, 0x03];
    lying.extend_from_slice(&body[2..]);
    assert_eq!(decompress(&lying), Err(ReadError::Malformed));
    assert_eq!(decompress(&body[..body.len() - 4]), Err(ReadError::Malformed));
    assert_eq!(decompress(&[]), Err(ReadError::ShortRead));
    // The edge of the threshold.
    assert_eq!(compress(&[1u8; 255], 256).unwrap()[0], 0);
    assert_eq!(&compress(&[1u8; 256], 256).unwrap()[..2], &[0x80, 0x02]);
}

#[test]
fn halves_talk_to_each_other() {
    let mut writer = WriteHalf::new();
    let mut reader = ReadHalf::new();
    let first: Vec<u8> = vec![3, 0x80, 0x02];
    let big: Vec<u8> = (0..1000).map(|i| (i % 11) as u8).collect();
    let mut wire = writer.encode(&first).unwrap();
    assert_eq!(wire, vec![3, 3, 0x80, 0x02]);
    writer.set_compression_threshold(256);
    reader.set_compression_threshold(256);
    wire.extend_from_slice(&writer.encode(&first).unwrap());
    assert_eq!(&wire[4..], &[4, 0, 3, 0x80, 0x02]);
    // The first packet was written before the threshold was set, and is read so.
    let mut early = ReadHalf::new();
    early.receive(wire[..4].to_vec());
    assert_eq!(early.next_packet(), Ok(Some(first.clone())));
    assert_eq!(early.next_packet(), Ok(None));
    reader.receive(wire[4..6].to_vec());
    assert_eq!(reader.next_packet(), Ok(None));
    reader.receive(wire[6..].to_vec());
    assert_eq!(reader.next_packet(), Ok(Some(first.clone())));
    let key = [3u8; 16];
    writer.set_encryption_key(key);
    reader.set_encryption_key(key);
    let encrypted = writer.encode(&big).unwrap();
    let more = writer.encode(&first).unwrap();
    assert_ne!(&more[..], &[4, 0, 3, 0x80, 0x02]);
    for chunk in encrypted.chunks(7) {
        assert_eq!(reader.next_packet(), Ok(None));
        reader.receive(chunk.to_vec());
    }
    reader.receive(more);
    assert_eq!(reader.next_packet(), Ok(Some(big)));
    assert_eq!(reader.next_packet(), Ok(Some(first)));
    assert_eq!(reader.next_packet(), Ok(None));
    assert!(reader.buffer.is_empty());
    assert_eq!(threshold_of(-1), None);
    assert_eq!(threshold_of(0), Some(0));
}

#[test]
fn key_applies_to_bytes_that_wait() {
    let key = [5u8; 16];
    let mut writer = WriteHalf::new();
    writer.set_encryption_key(key);
    let wire = writer.encode(&[1, 2, 3]).unwrap();
    let mut reader = ReadHalf::new();
    reader.receive(wire);
    reader.set_encryption_key(key);
    assert_eq!(reader.next_packet(), Ok(Some(vec![1, 2, 3])));
}

#[test]
fn frames_that_are_too_large_or_broken() {
    let mut reader = ReadHalf::new();
    let mut bytes = Vec::new();
    write_varint(&mut bytes, 2097152);
    reader.receive(bytes);
    assert_eq!(reader.next_packet(), Err(ReadError::FrameTooLarge));
    let mut reader = ReadHalf::new();
    reader.receive(vec![0x80, 0x80, 0x80, 0x80, 0x80, 0x00]);
    assert_eq!(reader.next_packet(), Err(ReadError::VarintTooLong));
    let mut reader = ReadHalf::new();
    reader.set_compression_threshold(0);
    reader.receive(vec![3, 5, 1, 2, 9]);
    assert_eq!(reader.next_packet(), Err(ReadError::Malformed));
    assert_eq!(reader.buffer, vec![9]);
    let mut writer = WriteHalf::new();
    assert_eq!(writer.encode(&vec![0u8; 2097152]), None);
    assert!(writer.encode(&vec![0u8; 2097151]).is_some());
}

#[test]
fn entity_indexes() {
    let mut by_uuid = EntityUuidIndex::new();
    assert_eq!(by_uuid.get(1), None);
    by_uuid.insert(1, 100);
    assert_eq!(by_uuid.get(1), Some(100));
    assert!(by_uuid.contains_key(1));
    assert!(!by_uuid.contains_key(3));
    by_uuid.insert(2, 300);
    assert_eq!(by_uuid.remove(1), Some(100));
    assert_eq!(by_uuid.remove(1), None);
    assert_eq!(by_uuid.get(2), Some(300));

    let mut by_id = EntityIdIndex::new();
    by_id.insert(5, 50);
    by_id.insert(6, 60);
    assert_eq!(by_id.get_by_minecraft_entity(5), Some(50));
    assert_eq!(by_id.get_by_ecs_entity(60), Some(6));
    // A new pairing takes the place of both old ones.
    by_id.insert(5, 60);
    assert_eq!(by_id.get_by_minecraft_entity(5), Some(60));
    assert_eq!(by_id.get_by_minecraft_entity(6), None);
    assert_eq!(by_id.get_by_ecs_entity(50), None);
    assert_eq!(by_id.get_by_ecs_entity(60), Some(5));
    assert_eq!(by_id.remove(5), Some(60));
    assert_eq!(by_id.remove(5), None);
    assert_eq!(by_id.get_by_ecs_entity(60), None);
}
