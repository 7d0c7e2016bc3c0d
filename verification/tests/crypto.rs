use azalea::crypto::Aes128Cfb;
use cfb8::cipher::{AsyncStreamCipher, KeyIvInit};

fn blob(len: usize) -> Vec<u8> {
    let mut state: u32 = 0x1234_5678;
    (0..len)
        .map(|_| {
            state = state.wrapping_mul(1664525).wrapping_add(1013904223);
            (state >> 24) as u8
        })
        .collect()
}

#[test]
fn encrypt_then_decrypt_gives_the_blob_back() {
    let key = [7u8, 1, 2, 3, 4, 5, 6, 7, 8, 9, 10, 11, 12, 13, 14, 15];
    let plain = blob(4096);
    let mut data = plain.clone();
    Aes128Cfb::new(key).encrypt(&mut data);
    assert_ne!(data, plain);
    Aes128Cfb::new(key).decrypt(&mut data);
    assert_eq!(data, plain);
}

#[test]
fn encryption_agrees_with_the_cfb8_crate() {
    let key = [0x42u8; 16];
    let plain = blob(300);
    let mut ours = plain.clone();
    Aes128Cfb::new(key).encrypt(&mut ours);
    let mut theirs = plain.clone();
    cfb8::Encryptor::<aes::Aes128>::new(&key.into(), &key.into()).encrypt(&mut theirs);
    assert_eq!(ours, theirs);
    cfb8::Decryptor::<aes::Aes128>::new(&key.into(), &key.into()).decrypt(&mut theirs);
    assert_eq!(theirs, plain);
}

#[test]
fn encrypting_in_pieces_is_encrypting_whole() {
    let key = [9u8; 16];
    let plain = blob(100);
    let mut whole = plain.clone();
    Aes128Cfb::new(key).encrypt(&mut whole);
    let mut cipher = Aes128Cfb::new(key);
    let mut first = plain[..37].to_vec();
    let mut second = plain[37..].to_vec();
    cipher.encrypt(&mut first);
    cipher.encrypt(&mut second);
    first.extend_from_slice(&second);
    assert_eq!(first, whole);
}

#[test]
fn first_byte_is_mixed_with_the_encrypted_key() {
    // AES-128 of the all-zero block under the all-zero key starts with 0x66.
    let mut data = vec![0u8];
    Aes128Cfb::new([0u8; 16]).encrypt(&mut data);
    assert_eq!(data, vec![0x66]);
}
