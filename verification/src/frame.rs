//! The framed transport: every packet travels as a length and a body, and,
//! once the server has set a compression threshold, the body says whether
//! it was deflated.

use crate::buf::{
    lemma_varint_roundtrip, parse_varint, varint_bytes, write_varint, ByteReader, Parsed,
    ReadError,
};
use crate::wire::invalid_input_error;
use vstd::prelude::*;

verus! {

/// The most bytes that a frame's body may have: two to the 21st less one.
pub const MAX_FRAME_LENGTH: usize = 2097151;

/// A frame: the length of the body as a variable-length integer, then the
/// body.
pub open spec fn frame_bytes(body: Seq<u8>) -> Seq<u8> {
    varint_bytes(body.len() as i32) + body
}

/// Reads one frame from the front of `s`. A length that is negative is
/// malformed; one over the limit is `FrameTooLarge`.
pub open spec fn parse_frame(s: Seq<u8>) -> Parsed<Seq<u8>> {
    match parse_varint(s) {
        Ok((len, n)) => if len < 0 {
            Err(ReadError::Malformed)
        } else if len > MAX_FRAME_LENGTH {
            Err(ReadError::FrameTooLarge)
        } else if s.len() - n < len {
            Err(ReadError::ShortRead)
        } else {
            Ok((s.subrange(n, n + len), n + len))
        },
        Err(e) => Err(e),
    }
}

/// A body within the limit is read back from its frame, whatever follows.
pub proof fn lemma_frame_roundtrip(body: Seq<u8>, rest: Seq<u8>)
    requires
        body.len() <= MAX_FRAME_LENGTH,
    ensures
        parse_frame(frame_bytes(body) + rest) == Ok::<(Seq<u8>, int), ReadError>(
            (body, frame_bytes(body).len() as int),
        ),
{
    let len = body.len() as i32;
    let s = frame_bytes(body) + rest;
    lemma_varint_roundtrip(len, body + rest);
    assert(s =~= varint_bytes(len) + (body + rest));
    let n = varint_bytes(len).len() as int;
    assert(s.subrange(n, n + len) =~= body);
}

/// Appends the frame of `body` to `out`. A body over the limit is refused,
/// and nothing is written.
pub fn write_frame(out: &mut Vec<u8>, body: &[u8]) -> (r: Result<(), std::io::Error>)
    ensures
        r is Ok <==> body@.len() <= MAX_FRAME_LENGTH,
        r is Ok ==> final(out)@ == old(out)@ + frame_bytes(body@),
        r is Err ==> final(out)@ == old(out)@,
{
    if body.len() > MAX_FRAME_LENGTH {
        return Err(invalid_input_error());
    }
    write_varint(out, body.len() as i32);
    out.extend_from_slice(body);
    proof {
        assert(out@ =~= old(out)@ + frame_bytes(body@));
    }
    Ok(())
}

/// Reads one frame and gives its body.
pub fn read_frame(reader: &mut ByteReader) -> (r: Result<Vec<u8>, ReadError>)
    ensures
        final(reader).source() == old(reader).source(),
        match parse_frame(old(reader).remaining()) {
            Ok((body, n)) => r matches Ok(got) && got@ == body
                && 0 < n <= old(reader).remaining().len()
                && final(reader).remaining() == old(reader).remaining().skip(n),
            Err(e) => r matches Err(got) && got == e && *final(reader) == *old(reader),
        },
{
    let ghost s = reader.remaining();
    let mut probe = *reader;
    let len = match probe.read_varint() {
        Ok(v) => v,
        Err(e) => { return Err(e); },
    };
    if len < 0 {
        return Err(ReadError::Malformed);
    }
    if len as usize > MAX_FRAME_LENGTH {
        return Err(ReadError::FrameTooLarge);
    }
    let ghost n = parse_varint(s).unwrap().1;
    match probe.read_bytes(len as usize) {
        Ok(body) => {
            proof {
                assert(s.skip(n).take(len as int) =~= s.subrange(n, n + len));
                assert(s.skip(n).skip(len as int) =~= s.skip(n + len));
            }
            *reader = probe;
            Ok(body)
        },
        Err(e) => Err(e),
    }
}

/// What zlib makes of `data` at the default level of compression: the
/// deflated bytes, or nothing where the encoder failed.
pub uninterp spec fn zlib_deflated(data: Seq<u8>) -> Option<Seq<u8>>;

/// What zlib makes of the deflated `data`: the bytes that come out,
/// `limit` of them at most, or nothing where the stream is corrupt or
/// incomplete.
pub uninterp spec fn zlib_inflated(data: Seq<u8>, limit: nat) -> Option<Seq<u8>>;

/// The bytes of an optional byte vector.
pub open spec fn option_bytes_view(v: Option<Vec<u8>>) -> Option<Seq<u8>> {
    match v {
        Some(b) => Some(b@),
        None => None,
    }
}

/// Deflates `data` with `flate2::read::ZlibEncoder` at the default level,
/// read to its end. The claim is only that the outcome is the named
/// function of the input.
#[verifier::external_body]
fn zlib_compress(data: &[u8]) -> (r: Option<Vec<u8>>)
    ensures
        option_bytes_view(r) == zlib_deflated(data@),
{
    let mut encoder = flate2::read::ZlibEncoder::new(data, flate2::Compression::default());
    let mut out = Vec::new();
    match std::io::Read::read_to_end(&mut encoder, &mut out) {
        Ok(_) => Some(out),
        Err(_) => None,
    }
}

/// Inflates `data` with `flate2::read::ZlibDecoder`, reading `limit` bytes
/// at most. The claim is only that the outcome is the named function of
/// the input and the limit.
#[verifier::external_body]
fn zlib_decompress(data: &[u8], limit: u64) -> (r: Option<Vec<u8>>)
    ensures
        option_bytes_view(r) == zlib_inflated(data@, limit as nat),
{
    let decoder = flate2::read::ZlibDecoder::new(data);
    let mut out = Vec::new();
    match std::io::Read::read_to_end(&mut std::io::Read::take(decoder, limit), &mut out) {
        Ok(_) => Some(out),
        Err(_) => None,
    }
}

/// The body of a frame under the compression threshold `threshold`, given
/// what zlib makes of the payload. A payload shorter than the threshold
/// goes raw after a zero; any other goes deflated after its true length.
/// Nothing where the payload is too long for its length to be written, or
/// had to be deflated and could not be.
pub open spec fn compressed_body(payload: Seq<u8>, threshold: int, deflated: Option<Seq<u8>>) -> Option<
    Seq<u8>,
> {
    if payload.len() > i32::MAX {
        None
    } else if payload.len() < threshold {
        Some(varint_bytes(0) + payload)
    } else {
        match deflated {
            Some(d) => Some(varint_bytes(payload.len() as i32) + d),
            None => None,
        }
    }
}

/// Builds the body of a frame under the threshold `threshold` from the
/// payload and from what zlib made of it.
pub fn compress_with(payload: &[u8], threshold: u32, deflated: Option<Vec<u8>>) -> (r: Option<
    Vec<u8>,
>)
    ensures
        option_bytes_view(r) == compressed_body(
            payload@,
            threshold as int,
            option_bytes_view(deflated),
        ),
{
    let mut out: Vec<u8> = Vec::new();
    if payload.len() > 0x7fff_ffff {
        None
    } else if payload.len() < threshold as usize {
        write_varint(&mut out, 0);
        out.extend_from_slice(payload);
        proof {
            assert(out@ =~= varint_bytes(0) + payload@);
        }
        Some(out)
    } else {
        match deflated {
            Some(d) => {
                write_varint(&mut out, payload.len() as i32);
                out.extend_from_slice(d.as_slice());
                proof {
                    assert(out@ =~= varint_bytes(payload@.len() as i32) + d@);
                }
                Some(out)
            },
            None => None,
        }
    }
}

/// Builds the body of a frame for `payload` under the compression
/// threshold `threshold`: the payload as it is after a zero where it is
/// shorter than the threshold, else its true length and what zlib makes of
/// it. Nothing where the payload is too long for its length to be written
/// or zlib failed.
pub fn compress(payload: &[u8], threshold: u32) -> (r: Option<Vec<u8>>)
    ensures
        option_bytes_view(r) == compressed_body(
            payload@,
            threshold as int,
            zlib_deflated(payload@),
        ),
{
    if payload.len() > 0x7fff_ffff || payload.len() < threshold as usize {
        compress_with(payload, threshold, None)
    } else {
        let deflated = zlib_compress(payload);
        compress_with(payload, threshold, deflated)
    }
}

/// The bytes of a result that holds a byte vector.
pub open spec fn result_bytes_view(r: Result<Vec<u8>, ReadError>) -> Result<Seq<u8>, ReadError> {
    match r {
        Ok(v) => Ok(v@),
        Err(e) => Err(e),
    }
}

/// The payload of a body that announces `len` bytes before `rest`, given
/// what zlib makes of `rest`. A length of zero means that the rest is the
/// payload; any other length means that the rest is deflated and inflates
/// to exactly that many bytes.
pub open spec fn payload_of(len: i32, rest: Seq<u8>, inflated: Option<Seq<u8>>) -> Result<
    Seq<u8>,
    ReadError,
> {
    if len < 0 {
        Err(ReadError::Malformed)
    } else if len == 0 {
        Ok(rest)
    } else {
        match inflated {
            Some(data) => if data.len() == len {
                Ok(data)
            } else {
                Err(ReadError::Malformed)
            },
            None => Err(ReadError::Malformed),
        }
    }
}

/// The payload of a frame's body that was written under a compression
/// threshold. The rest of a body that announces `len` bytes is inflated
/// with room for one byte more, so that a stream that holds more than it
/// announced is told from one that holds exactly that.
pub open spec fn spec_decompress(body: Seq<u8>) -> Result<Seq<u8>, ReadError> {
    match parse_varint(body) {
        Ok((len, n)) => payload_of(
            len,
            body.skip(n),
            if len > 0 {
                zlib_inflated(body.skip(n), (len + 1) as nat)
            } else {
                None
            },
        ),
        Err(e) => Err(e),
    }
}

/// Gives the payload of a body that announces `len` bytes before `rest`,
/// from what zlib made of the rest.
pub fn decompress_with(len: i32, rest: Vec<u8>, inflated: Option<Vec<u8>>) -> (r: Result<
    Vec<u8>,
    ReadError,
>)
    ensures
        result_bytes_view(r) == payload_of(len, rest@, option_bytes_view(inflated)),
{
    if len < 0 {
        Err(ReadError::Malformed)
    } else if len == 0 {
        Ok(rest)
    } else {
        match inflated {
            Some(data) => {
                if data.len() == len as usize {
                    Ok(data)
                } else {
                    Err(ReadError::Malformed)
                }
            },
            None => Err(ReadError::Malformed),
        }
    }
}

/// Gives the payload of a frame's body that was written under a
/// compression threshold.
pub fn decompress(body: &[u8]) -> (r: Result<Vec<u8>, ReadError>)
    ensures
        result_bytes_view(r) == spec_decompress(body@),
{
    let mut reader = ByteReader::new(body);
    let len = match reader.read_varint() {
        Ok(v) => v,
        Err(e) => { return Err(e); },
    };
    let rest = reader.read_rest();
    let inflated = if len > 0 {
        zlib_decompress(rest.as_slice(), len as u64 + 1)
    } else {
        None
    };
    decompress_with(len, rest, inflated)
}

/// A payload shorter than the threshold travels raw: its body announces
/// the length zero, and reading the body gives the payload back.
pub proof fn lemma_below_threshold_is_raw(payload: Seq<u8>, threshold: int, deflated: Option<Seq<u8>>)
    requires
        payload.len() < threshold,
        payload.len() <= i32::MAX,
    ensures
        compressed_body(payload, threshold, deflated) == Some(varint_bytes(0) + payload),
        parse_varint(varint_bytes(0) + payload) matches Ok((len, _)) && len == 0,
        spec_decompress(varint_bytes(0) + payload) == Ok::<Seq<u8>, ReadError>(payload),
{
    let body = varint_bytes(0) + payload;
    lemma_varint_roundtrip(0, payload);
    assert(body.skip(varint_bytes(0).len() as int) =~= payload);
}

} // verus!
