//! The two halves of a connection below the packets: what goes out is
//! framed, after compression where a threshold is set, and encrypted where
//! a key is set; what comes in goes the other way.

use crate::buf::{lemma_varint_roundtrip, parse_varint, varint_bytes, ByteReader, ReadError};
use crate::crypto::{cfb8_decrypted, cfb8_encrypted, Aes128Cfb};
use crate::frame::{
    compress, compressed_body, decompress, frame_bytes, lemma_below_threshold_is_raw, parse_frame,
    read_frame, spec_decompress, write_frame, zlib_deflated, MAX_FRAME_LENGTH,
};
use vstd::prelude::*;

verus! {

/// The threshold that a number sent by the server stands for: none where
/// it is negative.
pub open spec fn spec_threshold(sent: i32) -> Option<u32> {
    if sent < 0 {
        None
    } else {
        Some(sent as u32)
    }
}

/// The threshold that a number sent by the server stands for.
pub fn threshold_of(sent: i32) -> (r: Option<u32>)
    ensures
        r == spec_threshold(sent),
{
    if sent < 0 {
        None
    } else {
        Some(sent as u32)
    }
}

/// The body of the frame that carries `payload` under `threshold`: the
/// payload itself without a threshold, else what compression makes of it.
pub open spec fn body_of(payload: Seq<u8>, threshold: Option<u32>) -> Option<Seq<u8>> {
    match threshold {
        None => Some(payload),
        Some(t) => compressed_body(payload, t as int, zlib_deflated(payload)),
    }
}

/// The frame that carries `payload` under `threshold`, before encryption.
/// Nothing where the body cannot be built or is too long for a frame.
pub open spec fn framed(payload: Seq<u8>, threshold: Option<u32>) -> Option<Seq<u8>> {
    match body_of(payload, threshold) {
        Some(body) => if body.len() <= MAX_FRAME_LENGTH {
            Some(frame_bytes(body))
        } else {
            None
        },
        None => None,
    }
}

/// Under a threshold, a payload shorter than the threshold is framed as it
/// is after a zero: the frame's body begins with the length zero and goes
/// on with the payload, and reading the body gives the payload back.
pub proof fn lemma_frame_below_threshold(payload: Seq<u8>, threshold: u32)
    requires
        payload.len() < threshold,
        payload.len() < MAX_FRAME_LENGTH,
    ensures
        body_of(payload, Some(threshold)) == Some(varint_bytes(0) + payload),
        framed(payload, Some(threshold)) == Some(frame_bytes(varint_bytes(0) + payload)),
        parse_varint(varint_bytes(0) + payload) matches Ok((announced, _)) && announced == 0,
        spec_decompress(varint_bytes(0) + payload) == Ok::<Seq<u8>, ReadError>(payload),
{
    lemma_below_threshold_is_raw(payload, threshold as int, zlib_deflated(payload));
    lemma_varint_roundtrip(0, payload);
    assert(varint_bytes(0).len() == 1);
}

/// The half of a connection that writes.
#[derive(Clone, Debug)]
pub struct WriteHalf {
    pub compression_threshold: Option<u32>,
    pub cipher: Option<Aes128Cfb>,
}

impl WriteHalf {
    /// A half without compression and without encryption.
    pub fn new() -> (r: WriteHalf)
        ensures
            r.compression_threshold is None,
            r.cipher is None,
    {
        WriteHalf { compression_threshold: None, cipher: None }
    }

    /// Sets the compression threshold as the server sent it: a negative
    /// number turns compression off.
    pub fn set_compression_threshold(&mut self, sent: i32)
        ensures
            final(self).compression_threshold == spec_threshold(sent),
            final(self).cipher == old(self).cipher,
    {
        self.compression_threshold = threshold_of(sent);
    }

    /// Turns encryption on, keyed by `key`.
    pub fn set_encryption_key(&mut self, key: [u8; 16])
        ensures
            final(self).compression_threshold == old(self).compression_threshold,
            final(self).cipher matches Some(c) && c.key() == key@ && c.register() == key@,
    {
        self.cipher = Some(Aes128Cfb::new(key));
    }

    /// The bytes to put on the wire for a packet whose id and fields are
    /// `payload`: its frame, encrypted where a key is set. Nothing, and no
    /// change, where the frame cannot be built.
    pub fn encode(&mut self, payload: &[u8]) -> (r: Option<Vec<u8>>)
        ensures
            final(self).compression_threshold == old(self).compression_threshold,
            match framed(payload@, old(self).compression_threshold) {
                Some(frame) => match old(self).cipher {
                    Some(c) => r matches Some(bytes) && final(self).cipher matches Some(after)
                        && after.key() == c.key() && (bytes@, after.register())
                        == cfb8_encrypted(c.key(), c.register(), frame),
                    None => r matches Some(bytes) && bytes@ == frame && final(self).cipher
                        is None,
                },
                None => r is None && final(self).cipher == old(self).cipher,
            },
    {
        let body = match self.compression_threshold {
            None => vstd::slice::slice_to_vec(payload),
            Some(t) => match compress(payload, t) {
                Some(b) => b,
                None => { return None; },
            },
        };
        let mut out: Vec<u8> = Vec::new();
        match write_frame(&mut out, body.as_slice()) {
            Ok(()) => {},
            Err(_) => { return None; },
        }
        proof {
            assert(out@ =~= frame_bytes(body@));
        }
        match self.cipher {
            Some(c) => {
                let mut cipher = c;
                cipher.encrypt(&mut out);
                self.cipher = Some(cipher);
            },
            None => {},
        }
        Some(out)
    }
}

/// What reading the next packet from decrypted bytes gives: nothing yet
/// where the frame is not complete; else the payload and the number of
/// bytes that the frame took, or the error.
pub open spec fn spec_next_packet(buffer: Seq<u8>, threshold: Option<u32>) -> Result<
    Option<(Seq<u8>, int)>,
    ReadError,
> {
    match parse_frame(buffer) {
        Ok((body, n)) => match threshold {
            None => Ok(Some((body, n))),
            Some(_) => match spec_decompress(body) {
                Ok(payload) => Ok(Some((payload, n))),
                Err(e) => Err(e),
            },
        },
        Err(ReadError::ShortRead) => Ok(None),
        Err(e) => Err(e),
    }
}

/// The half of a connection that reads.
#[derive(Clone, Debug)]
pub struct ReadHalf {
    pub compression_threshold: Option<u32>,
    pub cipher: Option<Aes128Cfb>,
    /// The bytes that came in and were decrypted, and are not yet read as
    /// packets.
    pub buffer: Vec<u8>,
}

impl ReadHalf {
    /// A half without compression and without encryption, and with nothing
    /// received.
    pub fn new() -> (r: ReadHalf)
        ensures
            r.compression_threshold is None,
            r.cipher is None,
            r.buffer@ == Seq::<u8>::empty(),
    {
        ReadHalf { compression_threshold: None, cipher: None, buffer: Vec::new() }
    }

    /// Sets the compression threshold as the server sent it.
    pub fn set_compression_threshold(&mut self, sent: i32)
        ensures
            final(self).compression_threshold == spec_threshold(sent),
            final(self).cipher == old(self).cipher,
            final(self).buffer == old(self).buffer,
    {
        self.compression_threshold = threshold_of(sent);
    }

    /// Turns encryption on, keyed by `key`. Bytes that came in before and
    /// are not yet read as packets are the first that the key applies to:
    /// no bytes that were taken as they came stay behind the switch.
    pub fn set_encryption_key(&mut self, key: [u8; 16])
        ensures
            final(self).compression_threshold == old(self).compression_threshold,
            final(self).cipher matches Some(c) && c.key() == key@ && (
                final(self).buffer@,
                c.register(),
            ) == cfb8_decrypted(key@, key@, old(self).buffer@),
    {
        let mut cipher = Aes128Cfb::new(key);
        cipher.decrypt(&mut self.buffer);
        self.cipher = Some(cipher);
    }

    /// Takes bytes as they came from the wire: they are decrypted, where a
    /// key is set, and kept until they are read as packets.
    pub fn receive(&mut self, bytes: Vec<u8>)
        ensures
            final(self).compression_threshold == old(self).compression_threshold,
            match old(self).cipher {
                Some(c) => final(self).cipher matches Some(after) && after.key() == c.key() && (
                    final(self).buffer@,
                    after.register(),
                ) == (
                    old(self).buffer@ + cfb8_decrypted(c.key(), c.register(), bytes@).0,
                    cfb8_decrypted(c.key(), c.register(), bytes@).1,
                ),
                None => final(self).cipher is None && final(self).buffer@ == old(self).buffer@
                    + bytes@,
            },
    {
        let mut bytes = bytes;
        match self.cipher {
            Some(c) => {
                let mut cipher = c;
                cipher.decrypt(&mut bytes);
                self.cipher = Some(cipher);
            },
            None => {},
        }
        self.buffer.append(&mut bytes);
    }

    /// Reads the next packet from what was received: its id and fields.
    /// Nothing, and no change, where the frame is not yet complete. After
    /// a packet, and after an error in what the frame holds, the frame's
    /// bytes are gone from what is kept; after an error in the frame's
    /// length, nothing is.
    pub fn next_packet(&mut self) -> (r: Result<Option<Vec<u8>>, ReadError>)
        ensures
            final(self).compression_threshold == old(self).compression_threshold,
            final(self).cipher == old(self).cipher,
            match spec_next_packet(old(self).buffer@, old(self).compression_threshold) {
                Ok(Some((payload, n))) => r matches Ok(Some(got)) && got@ == payload
                    && final(self).buffer@ == old(self).buffer@.skip(n),
                Ok(None) => r matches Ok(None) && final(self).buffer@ == old(self).buffer@,
                Err(e) => r matches Err(got) && got == e,
            },
            r is Err ==> (match parse_frame(old(self).buffer@) {
                Ok((_, n)) => final(self).buffer@ == old(self).buffer@.skip(n),
                Err(_) => final(self).buffer@ == old(self).buffer@,
            }),
    {
        let mut reader = ByteReader::new(self.buffer.as_slice());
        let body = match read_frame(&mut reader) {
            Ok(b) => b,
            Err(e) => {
                match e {
                    ReadError::ShortRead => { return Ok(None); },
                    _ => { return Err(e); },
                }
            },
        };
        let left = reader.read_rest();
        self.buffer = left;
        match self.compression_threshold {
            None => Ok(Some(body)),
            Some(_) => match decompress(body.as_slice()) {
                Ok(payload) => Ok(Some(payload)),
                Err(e) => Err(e),
            },
        }
    }
}

} // verus!
