//! The stream cipher of an encrypted connection: AES-128 in 8-bit cipher
//! feedback mode, keyed by the shared secret, which is its first register
//! too.

use aes::cipher::{BlockEncrypt, KeyInit};
use vstd::prelude::*;

verus! {

/// What AES-128 under `key` makes of the 16-byte block `block`.
pub uninterp spec fn aes128_block(key: Seq<u8>, block: Seq<u8>) -> Seq<u8>;

/// Encrypts one block with `aes::Aes128`, made from the key by
/// `KeyInit::new`, through `BlockEncrypt::encrypt_block`. The claim is only
/// that the outcome is the named function of the key and the block.
#[verifier::external_body]
fn aes128_encrypt_block(key: &[u8; 16], block: &[u8; 16]) -> (out: [u8; 16])
    ensures
        out@ == aes128_block(key@, block@),
{
    let cipher = aes::Aes128::new(&(*key).into());
    let mut encrypted: aes::Block = (*block).into();
    cipher.encrypt_block(&mut encrypted);
    encrypted.into()
}

/// The byte that the cipher mixes into the next byte of the stream: the
/// first byte of the encrypted register.
pub open spec fn key_byte(key: Seq<u8>, register: Seq<u8>) -> u8 {
    aes128_block(key, register)[0]
}

/// The register after the byte `sent` went over the wire: its first byte
/// is dropped and `sent` is its last.
pub open spec fn shifted(register: Seq<u8>, sent: u8) -> Seq<u8> {
    register.skip(1).push(sent)
}

/// What encrypting `data` gives, starting from `register`: the encrypted
/// bytes, and the register after them. Each byte is mixed with the key
/// byte of the register, and what comes out goes into the register.
pub open spec fn cfb8_encrypted(key: Seq<u8>, register: Seq<u8>, data: Seq<u8>) -> (Seq<u8>, Seq<u8>)
    decreases data.len(),
{
    if data.len() == 0 {
        (Seq::empty(), register)
    } else {
        let sent = data[0] ^ key_byte(key, register);
        let (rest, last) = cfb8_encrypted(key, shifted(register, sent), data.skip(1));
        (seq![sent] + rest, last)
    }
}

/// What decrypting `data` gives, starting from `register`: the decrypted
/// bytes, and the register after them. Each byte is mixed with the key
/// byte of the register, and what came in goes into the register.
pub open spec fn cfb8_decrypted(key: Seq<u8>, register: Seq<u8>, data: Seq<u8>) -> (Seq<u8>, Seq<u8>)
    decreases data.len(),
{
    if data.len() == 0 {
        (Seq::empty(), register)
    } else {
        let plain = data[0] ^ key_byte(key, register);
        let (rest, last) = cfb8_decrypted(key, shifted(register, data[0]), data.skip(1));
        (seq![plain] + rest, last)
    }
}

/// Decrypting what was encrypted gives the data back, and leaves both
/// sides with the same register, whatever the key, the register they
/// started from, and the data.
pub proof fn lemma_cfb8_roundtrip(key: Seq<u8>, register: Seq<u8>, data: Seq<u8>)
    ensures
        cfb8_decrypted(key, register, cfb8_encrypted(key, register, data).0) == (
            data,
            cfb8_encrypted(key, register, data).1,
        ),
        cfb8_encrypted(key, register, data).0.len() == data.len(),
    decreases data.len(),
{
    if data.len() == 0 {
        assert(data =~= Seq::<u8>::empty());
    } else {
        let k = key_byte(key, register);
        let p = data[0];
        let sent = p ^ k;
        assert((p ^ k) ^ k == p) by (bit_vector);
        let (rest, last) = cfb8_encrypted(key, shifted(register, sent), data.skip(1));
        lemma_cfb8_roundtrip(key, shifted(register, sent), data.skip(1));
        let encrypted = seq![sent] + rest;
        assert(encrypted[0] == sent);
        assert(encrypted.skip(1) =~= rest);
        assert(seq![p] + data.skip(1) =~= data);
    }
}

/// Encrypting a stream in pieces is encrypting it whole.
pub proof fn lemma_cfb8_encrypted_in_pieces(
    key: Seq<u8>,
    register: Seq<u8>,
    first: Seq<u8>,
    second: Seq<u8>,
)
    ensures
        ({
            let (a, mid) = cfb8_encrypted(key, register, first);
            let (b, last) = cfb8_encrypted(key, mid, second);
            cfb8_encrypted(key, register, first + second) == (a + b, last)
        }),
    decreases first.len(),
{
    if first.len() == 0 {
        assert(first + second =~= second);
        let (b, last) = cfb8_encrypted(key, register, second);
        assert(Seq::<u8>::empty() + b =~= b);
    } else {
        let all = first + second;
        let sent = first[0] ^ key_byte(key, register);
        assert(all[0] == first[0]);
        assert(all.skip(1) =~= first.skip(1) + second);
        lemma_cfb8_encrypted_in_pieces(key, shifted(register, sent), first.skip(1), second);
        let (a1, mid) = cfb8_encrypted(key, shifted(register, sent), first.skip(1));
        let (b, last) = cfb8_encrypted(key, mid, second);
        assert(seq![sent] + (a1 + b) =~= (seq![sent] + a1) + b);
    }
}

/// Decrypting a stream in pieces is decrypting it whole.
pub proof fn lemma_cfb8_decrypted_in_pieces(
    key: Seq<u8>,
    register: Seq<u8>,
    first: Seq<u8>,
    second: Seq<u8>,
)
    ensures
        ({
            let (a, mid) = cfb8_decrypted(key, register, first);
            let (b, last) = cfb8_decrypted(key, mid, second);
            cfb8_decrypted(key, register, first + second) == (a + b, last)
        }),
    decreases first.len(),
{
    if first.len() == 0 {
        assert(first + second =~= second);
        let (b, last) = cfb8_decrypted(key, register, second);
        assert(Seq::<u8>::empty() + b =~= b);
    } else {
        let all = first + second;
        let plain = first[0] ^ key_byte(key, register);
        assert(all[0] == first[0]);
        assert(all.skip(1) =~= first.skip(1) + second);
        lemma_cfb8_decrypted_in_pieces(key, shifted(register, first[0]), first.skip(1), second);
        let (a1, mid) = cfb8_decrypted(key, shifted(register, first[0]), first.skip(1));
        let (b, last) = cfb8_decrypted(key, mid, second);
        assert(seq![plain] + (a1 + b) =~= (seq![plain] + a1) + b);
    }
}

/// One direction of an encrypted connection: the key and the register,
/// which holds the last 16 bytes that went over the wire.
#[derive(Clone, Copy, Debug, PartialEq, Eq)]
pub struct Aes128Cfb {
    key: [u8; 16],
    register: [u8; 16],
}

impl Aes128Cfb {
    /// The key.
    pub closed spec fn key(&self) -> Seq<u8> {
        self.key@
    }

    /// The register.
    pub closed spec fn register(&self) -> Seq<u8> {
        self.register@
    }

    /// A cipher keyed by `key`, with the key as its first register.
    pub fn new(key: [u8; 16]) -> (r: Aes128Cfb)
        ensures
            r.key() == key@,
            r.register() == key@,
    {
        Aes128Cfb { key, register: key }
    }

    /// The register after `sent` went over the wire.
    fn shift(&mut self, sent: u8)
        ensures
            final(self).key() == old(self).key(),
            final(self).register() == shifted(old(self).register(), sent),
    {
        let r = self.register;
        let next = [
            r[1],
            r[2],
            r[3],
            r[4],
            r[5],
            r[6],
            r[7],
            r[8],
            r[9],
            r[10],
            r[11],
            r[12],
            r[13],
            r[14],
            r[15],
            sent,
        ];
        proof {
            assert(next@ =~= shifted(r@, sent));
        }
        self.register = next;
    }

    /// Encrypts `data` where it stands.
    pub fn encrypt(&mut self, data: &mut Vec<u8>)
        ensures
            final(self).key() == old(self).key(),
            (final(data)@, final(self).register()) == cfb8_encrypted(
                old(self).key(),
                old(self).register(),
                old(data)@,
            ),
    {
        let ghost key = self.key@;
        let ghost start = self.register@;
        let ghost plain = data@;
        let mut i: usize = 0;
        proof {
            assert(plain.take(0) =~= Seq::<u8>::empty());
            assert(data@.take(0) =~= Seq::<u8>::empty());
        }
        while i < data.len()
            invariant
                self.key@ == key,
                i <= data.len(),
                data@.len() == plain.len(),
                data@.skip(i as int) == plain.skip(i as int),
                (data@.take(i as int), self.register@) == cfb8_encrypted(
                    key,
                    start,
                    plain.take(i as int),
                ),
            decreases data.len() - i,
        {
            let ghost before = data@;
            let ghost register = self.register@;
            let byte = data[i];
            let block = aes128_encrypt_block(&self.key, &self.register);
            let sent = byte ^ block[0];
            proof {
                assert(byte == plain[i as int]) by {
                    assert(data@.skip(i as int)[0] == plain.skip(i as int)[0]);
                }
                let one = seq![byte];
                assert(one.skip(1) =~= Seq::<u8>::empty());
                assert(sent == byte ^ key_byte(key, register));
                assert(cfb8_encrypted(key, shifted(register, sent), one.skip(1)) == (
                    Seq::<u8>::empty(),
                    shifted(register, sent),
                ));
                assert(cfb8_encrypted(key, register, one).0 =~= seq![sent]);
                assert(cfb8_encrypted(key, register, one).1 == shifted(register, sent));
                lemma_cfb8_encrypted_in_pieces(key, start, plain.take(i as int), one);
                assert(plain.take(i as int) + one =~= plain.take(i + 1));
            }
            data[i] = sent;
            self.shift(sent);
            proof {
                assert(data@.take(i + 1) =~= before.take(i as int) + seq![sent]);
                assert(data@.skip(i + 1) =~= before.skip(i as int).skip(1));
                assert(plain.skip(i + 1) =~= plain.skip(i as int).skip(1));
            }
            i = i + 1;
        }
        proof {
            assert(data@.take(data.len() as int) =~= data@);
            assert(plain.take(plain.len() as int) =~= plain);
        }
    }

    /// Decrypts `data` where it stands.
    pub fn decrypt(&mut self, data: &mut Vec<u8>)
        ensures
            final(self).key() == old(self).key(),
            (final(data)@, final(self).register()) == cfb8_decrypted(
                old(self).key(),
                old(self).register(),
                old(data)@,
            ),
    {
        let ghost key = self.key@;
        let ghost start = self.register@;
        let ghost cipher = data@;
        let mut i: usize = 0;
        proof {
            assert(cipher.take(0) =~= Seq::<u8>::empty());
            assert(data@.take(0) =~= Seq::<u8>::empty());
        }
        while i < data.len()
            invariant
                self.key@ == key,
                i <= data.len(),
                data@.len() == cipher.len(),
                data@.skip(i as int) == cipher.skip(i as int),
                (data@.take(i as int), self.register@) == cfb8_decrypted(
                    key,
                    start,
                    cipher.take(i as int),
                ),
            decreases data.len() - i,
        {
            let ghost before = data@;
            let ghost register = self.register@;
            let byte = data[i];
            let block = aes128_encrypt_block(&self.key, &self.register);
            let plain = byte ^ block[0];
            proof {
                assert(byte == cipher[i as int]) by {
                    assert(data@.skip(i as int)[0] == cipher.skip(i as int)[0]);
                }
                let one = seq![byte];
                assert(one.skip(1) =~= Seq::<u8>::empty());
                assert(cfb8_decrypted(key, shifted(register, byte), one.skip(1)) == (
                    Seq::<u8>::empty(),
                    shifted(register, byte),
                ));
                assert(cfb8_decrypted(key, register, one).0 =~= seq![plain]);
                assert(cfb8_decrypted(key, register, one).1 == shifted(register, byte));
                lemma_cfb8_decrypted_in_pieces(key, start, cipher.take(i as int), one);
                assert(cipher.take(i as int) + one =~= cipher.take(i + 1));
            }
            data[i] = plain;
            self.shift(byte);
            proof {
                assert(data@.take(i + 1) =~= before.take(i as int) + seq![plain]);
                assert(data@.skip(i + 1) =~= before.skip(i as int).skip(1));
                assert(cipher.skip(i + 1) =~= cipher.skip(i as int).skip(1));
            }
            i = i + 1;
        }
        proof {
            assert(data@.take(data.len() as int) =~= data@);
            assert(cipher.take(cipher.len() as int) =~= cipher);
        }
    }
}

} // verus!
