use azalea::buf::{write_varint, write_varlong, ByteReader, ReadError};
use azalea::frame::{compress, decompress, read_frame, write_frame};
use azalea::packets::login::{
    read_login_packet, ClientboundLoginCompressionPacket, LoginPacket,
};
use azalea::packets::game::{
    keep_alive_reply, ClientboundInitializeBorderPacket, ClientboundKeepAlive,
    ServerboundChunkBatchReceivedPacket, ServerboundKeepAlive,
};
use azalea::write::{packet_payload, write_packet, ProtocolPacket};

#[test]
fn varint_300_roundtrip() {
    let mut buf = Vec::new();
    write_varint(&mut buf, 300);
    assert_eq!(buf, vec![0xAC, 0x02]);
    let mut reader = ByteReader::new(&buf);
    assert_eq!(reader.read_varint(), Ok(300));
    assert_eq!(reader.remaining_len(), 0);
}

#[test]
fn varint_lengths() {
    for (value, len) in [(0, 1), (1, 1), (127, 1), (128, 2), (16383, 2), (16384, 3), (i32::MAX, 5), (-1, 5)] {
        let mut buf = Vec::new();
        write_varint(&mut buf, value);
        assert_eq!(buf.len(), len);
        let mut reader = ByteReader::new(&buf);
        assert_eq!(reader.read_varint(), Ok(value));
    }
}

#[test]
fn varint_too_long_is_rejected() {
    let buf = vec![0x80, 0x80, 0x80, 0x80, 0x80, 0x01];
    let mut reader = ByteReader::new(&buf);
    assert_eq!(reader.read_varint(), Err(ReadError::VarintTooLong));
    let short = vec![0x80];
    let mut reader = ByteReader::new(&short);
    assert_eq!(reader.read_varint(), Err(ReadError::ShortRead));
}

#[test]
fn varlong_roundtrip() {
    for value in [0i64, -1, i64::MAX, i64::MIN, 1 << 40] {
        let mut buf = Vec::new();
        write_varlong(&mut buf, value);
        let mut reader = ByteReader::new(&buf);
        assert_eq!(reader.read_varlong(), Ok(value));
    }
}

#[test]
fn frame_compression_threshold() {
    let small = vec![7u8; 100];
    let body = compress(&small, 256).unwrap();
    let mut expected = vec![0u8];
    expected.extend_from_slice(&small);
    assert_eq!(body, expected);
    assert_eq!(decompress(&body), Ok(small));

    let large: Vec<u8> = (0..300).map(|i| (i % 7) as u8).collect();
    let body = compress(&large, 256).unwrap();
    assert_eq!(&body[..2], &[0xAC, 0x02]);
    assert_ne!(&body[2..], &large[..]);
    assert_eq!(decompress(&body), Ok(large));
}

#[test]
fn frame_too_large_is_rejected() {
    let mut bytes = Vec::new();
    write_varint(&mut bytes, 2097152);
    let mut reader = ByteReader::new(&bytes);
    assert_eq!(read_frame(&mut reader), Err(ReadError::FrameTooLarge));
    let mut out = Vec::new();
    assert!(write_frame(&mut out, &vec![0u8; 2097152]).is_err());
    assert!(out.is_empty());
}

#[test]
fn login_compression_packet_frame() {
    let packet = ClientboundLoginCompressionPacket { compression_threshold: 256 }.get();
    let mut out = Vec::new();
    write_packet(&packet, &mut out).unwrap();
    assert_eq!(out, vec![3, 3, 0x80, 0x02]);
    let mut reader = ByteReader::new(&out);
    let body = read_frame(&mut reader).unwrap();
    assert_eq!(read_login_packet(&body), Ok(packet));
    assert_eq!(read_login_packet(&[9]), Err(ReadError::UnexpectedPacket));
    assert!(matches!(read_login_packet(&[3, 1, 1]), Err(ReadError::Malformed)));
    let _ = LoginPacket::read(3, &mut ByteReader::new(&[5]));
}

#[test]
fn border_packet_roundtrip() {
    let packet = ClientboundInitializeBorderPacket {
        new_center_x: 1.5f64.to_bits(),
        new_center_z: (-2.25f64).to_bits(),
        old_size: 100.0f64.to_bits(),
        new_size: 50.0f64.to_bits(),
        lerp_time: u64::MAX,
        new_absolute_max_size: 29999984,
        warning_blocks: 5,
        warning_time: u32::MAX,
    };
    let mut bytes = Vec::new();
    packet.write(&mut bytes).unwrap();
    assert_eq!(&bytes[..8], &1.5f64.to_be_bytes());
    assert_eq!(bytes.len(), 32 + 10 + 4 + 1 + 5);
    let mut reader = ByteReader::new(&bytes);
    assert_eq!(ClientboundInitializeBorderPacket::read(&mut reader), Ok(packet));
    assert_eq!(reader.remaining_len(), 0);
    assert_eq!(
        ClientboundInitializeBorderPacket::read(&mut ByteReader::new(&bytes[..40])),
        Err(ReadError::ShortRead)
    );
    assert_eq!(
        packet_payload(&ServerboundChunkBatchReceivedPacket {
            desired_chunks_per_tick: 2.5f32.to_bits()
        })
        .unwrap(),
        vec![0x0a, 0x40, 0x20, 0, 0]
    );
    let reply = keep_alive_reply(ClientboundKeepAlive { id: 0x0102 });
    assert_eq!(reply, ServerboundKeepAlive { id: 0x0102 });
    assert_eq!(packet_payload(&reply).unwrap(), vec![0x1a, 0, 0, 0, 0, 0, 0, 1, 2]);
}
