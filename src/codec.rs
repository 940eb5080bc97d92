//! The WebSocket framing codec: masked client frames in, unmasked text
//! frames out (RFC 6455, short payload form only).
use vstd::prelude::*;
use vstd::utf8::*;
use vstd::string::*;

verus! {

broadcast use {encode_utf8_decode_utf8, encode_utf8_valid_utf8};

/// First byte of every frame this server sends: FIN set, text opcode.
pub const TEXT_FRAME_HEADER: u8 = 0x81;

/// Largest payload that fits the short length form of a frame.
pub const MAX_SHORT_PAYLOAD: usize = 125;

/// Why a received frame could not be turned into text.
#[derive(PartialEq, Eq, Structural, Clone, Copy, Debug)]
pub enum FrameError {
    /// Fewer bytes arrived than the frame header announces.
    TooShort,
    /// The frame uses one of the extended payload lengths (126 or 127).
    ExtendedLength,
    /// The unmasked payload is not valid UTF-8.
    InvalidText,
}

/// The MASK bit of the second header byte.
pub open spec fn is_masked(frame: Seq<u8>) -> bool {
    frame[1] & 0x80u8 != 0
}

/// The 7-bit payload length of the second header byte.
pub open spec fn declared_len(frame: Seq<u8>) -> int {
    (frame[1] & 0x7fu8) as int
}

/// Offset of the payload: after the masking key when there is one.
pub open spec fn payload_start(frame: Seq<u8>) -> int {
    if is_masked(frame) { 6 } else { 2 }
}

/// Byte `i` of the payload XORed with byte `i mod 4` of the masking key.
pub open spec fn unmask(masked: Seq<u8>, key: Seq<u8>) -> Seq<u8> {
    Seq::new(masked.len(), |i: int| masked[i] ^ key[i % 4])
}

/// The payload bytes carried by `frame`, or why there are none.
pub open spec fn frame_payload(frame: Seq<u8>) -> Result<Seq<u8>, FrameError> {
    if frame.len() < 2 {
        Err(FrameError::TooShort)
    } else if declared_len(frame) > 125 {
        Err(FrameError::ExtendedLength)
    } else if frame.len() < payload_start(frame) + declared_len(frame) {
        Err(FrameError::TooShort)
    } else if is_masked(frame) {
        Ok(unmask(frame.subrange(6, 6 + declared_len(frame)), frame.subrange(2, 6)))
    } else {
        Ok(frame.subrange(2, 2 + declared_len(frame)))
    }
}

/// The text carried by `frame`, or why there is none.
pub open spec fn frame_text(frame: Seq<u8>) -> Result<Seq<char>, FrameError> {
    match frame_payload(frame) {
        Ok(p) => if valid_utf8(p) {
            Ok(decode_utf8(p))
        } else {
            Err(FrameError::InvalidText)
        },
        Err(e) => Err(e),
    }
}

/// Bytes of an unmasked, single-fragment text frame carrying `payload`.
pub open spec fn text_frame(payload: Seq<u8>) -> Seq<u8> {
    seq![TEXT_FRAME_HEADER, payload.len() as u8] + payload
}

/// Relies on std::str::from_utf8: it accepts exactly the valid UTF-8
/// sequences, and the text it returns is made of those same bytes.
#[verifier::external_body]
pub(crate) fn text_from_utf8(bytes: &[u8]) -> (r: Option<String>)
    ensures
        r is Some <==> valid_utf8(bytes@),
        r matches Some(s) ==> s@ == decode_utf8(bytes@),
{
    std::str::from_utf8(bytes).ok().map(|s| s.to_string())
}

/// Decodes the first `size` bytes of `content` as one frame from a client
/// and returns its text.
pub fn parse_websocket_frame(content: &[u8], size: usize) -> (r: Result<String, FrameError>)
    requires
        size <= content@.len(),
    ensures
        match r {
            Ok(s) => frame_text(content@.subrange(0, size as int)) == Ok::<Seq<char>, FrameError>(s@),
            Err(e) => frame_text(content@.subrange(0, size as int)) == Err::<Seq<char>, FrameError>(e),
        },
{
    let ghost frame = content@.subrange(0, size as int);
    if size < 2 {
        return Err(FrameError::TooShort);
    }
    let masked: bool = content[1] & 0x80u8 != 0;
    let len: usize = (content[1] & 0x7fu8) as usize;
    assert(masked == is_masked(frame));
    assert(len == declared_len(frame));
    if len > MAX_SHORT_PAYLOAD {
        return Err(FrameError::ExtendedLength);
    }
    let start: usize = if masked { 6 } else { 2 };
    if size < start + len {
        return Err(FrameError::TooShort);
    }
    let mut payload: Vec<u8> = Vec::new();
    let mut i: usize = 0;
    while i < len
        invariant
            start == payload_start(frame),
            start + len <= size <= content@.len(),
            frame == content@.subrange(0, size as int),
            masked == is_masked(frame),
            i <= len,
            payload@ == (if masked {
                unmask(content@.subrange(6, 6 + i), content@.subrange(2, 6))
            } else {
                content@.subrange(2, 2 + i)
            }),
        decreases len - i,
    {
        let b: u8 = if masked { content[6 + i] ^ content[2 + i % 4] } else { content[2 + i] };
        payload.push(b);
        i = i + 1;
        if masked {
            assert(payload@ =~= unmask(content@.subrange(6, 6 + i), content@.subrange(2, 6)));
        } else {
            assert(payload@ =~= content@.subrange(2, 2 + i));
        }
    }
    if masked {
        assert(frame.subrange(6, 6 + len) =~= content@.subrange(6, 6 + len));
        assert(frame.subrange(2, 6) =~= content@.subrange(2, 6));
    } else {
        assert(frame.subrange(2, 2 + len) =~= content@.subrange(2, 2 + len));
    }
    assert(frame_payload(frame) == Ok::<Seq<u8>, FrameError>(payload@));
    match text_from_utf8(payload.as_slice()) {
        Some(s) => Ok(s),
        None => Err(FrameError::InvalidText),
    }
}

/// Decodes a frame held in a read buffer of which `size` bytes were filled.
pub fn parse_frame(content: [u8; 4096], size: usize) -> (r: Result<String, FrameError>)
    requires
        size <= 4096,
    ensures
        match r {
            Ok(s) => frame_text(content@.subrange(0, size as int)) == Ok::<Seq<char>, FrameError>(s@),
            Err(e) => frame_text(content@.subrange(0, size as int)) == Err::<Seq<char>, FrameError>(e),
        },
{
    parse_websocket_frame(content.as_slice(), size)
}

/// Builds the unmasked text frame that carries `content` to a client. Text
/// longer than the short length form allows would need an extended length,
/// which this server does not send.
pub fn build_websocket_frame(content: &str) -> (r: Result<Vec<u8>, FrameError>)
    ensures
        content.spec_bytes().len() <= 125 ==> (r matches Ok(f) && f@ == text_frame(content.spec_bytes())),
        content.spec_bytes().len() > 125 ==> r == Err::<Vec<u8>, FrameError>(FrameError::ExtendedLength),
{
    let bytes: &[u8] = content.as_bytes();
    let n: usize = bytes.len();
    if n > MAX_SHORT_PAYLOAD {
        return Err(FrameError::ExtendedLength);
    }
    let mut result: Vec<u8> = Vec::new();
    result.push(TEXT_FRAME_HEADER);
    result.push(n as u8);
    let mut i: usize = 0;
    while i < n
        invariant
            n == bytes@.len(),
            bytes@ == content.spec_bytes(),
            i <= n,
            result@ == seq![TEXT_FRAME_HEADER, n as u8] + bytes@.subrange(0, i as int),
        decreases n - i,
    {
        result.push(bytes[i]);
        i = i + 1;
        assert(result@ =~= seq![TEXT_FRAME_HEADER, n as u8] + bytes@.subrange(0, i as int));
    }
    assert(bytes@.subrange(0, n as int) =~= bytes@);
    Ok(result)
}

/// A text frame built by this server decodes to the payload it was built
/// from: header bits and length round-trip for every short payload.
pub proof fn lemma_text_frame_payload(payload: Seq<u8>)
    requires
        payload.len() <= 125,
    ensures
        frame_payload(text_frame(payload)) == Ok::<Seq<u8>, FrameError>(payload),
{
    let f = text_frame(payload);
    let n = payload.len() as u8;
    assert(f[1] == n);
    assert(n <= 125 ==> n & 0x80u8 == 0 && n & 0x7fu8 == n) by (bit_vector);
    assert(f.subrange(2, 2 + payload.len() as int) =~= payload);
}

/// Decoding a client frame, re-encoding its text as a server frame and
/// decoding that again gives back the same text.
pub proof fn lemma_frame_round_trip(frame: Seq<u8>)
    requires
        frame_text(frame) is Ok,
    ensures
        encode_utf8(frame_text(frame)->Ok_0).len() <= 125,
        frame_text(text_frame(encode_utf8(frame_text(frame)->Ok_0))) == frame_text(frame),
{
    let p = frame_payload(frame)->Ok_0;
    let t = decode_utf8(p);
    decode_utf8_encode_utf8(p);
    assert(encode_utf8(t) == p);
    assert(p.len() <= 125);
    lemma_text_frame_payload(p);
}

/// Bytes of the frame a client sends for `payload`, masked with `key`.
pub open spec fn masked_text_frame(payload: Seq<u8>, key: Seq<u8>) -> Seq<u8> {
    seq![TEXT_FRAME_HEADER, (payload.len() as u8) | 0x80u8] + key + unmask(payload, key)
}

/// A masked frame decodes to the payload it was masked from: masking twice
/// with the same key gives the bytes back.
pub proof fn lemma_masked_frame_payload(payload: Seq<u8>, key: Seq<u8>)
    requires
        payload.len() <= 125,
        key.len() == 4,
    ensures
        frame_payload(masked_text_frame(payload, key)) == Ok::<Seq<u8>, FrameError>(payload),
{
    let f = masked_text_frame(payload, key);
    let n = payload.len() as u8;
    assert(f[1] == n | 0x80u8);
    assert(n <= 125 ==> (n | 0x80u8) & 0x80u8 != 0 && (n | 0x80u8) & 0x7fu8 == n) by (bit_vector);
    assert(f.subrange(2, 6) =~= key);
    let masked = f.subrange(6, 6 + payload.len() as int);
    assert(masked =~= unmask(payload, key));
    assert forall|i: int| 0 <= i < payload.len() implies #[trigger] unmask(masked, key)[i] == payload[i] by {
        let a = payload[i];
        let b = key[i % 4];
        assert((a ^ b) ^ b == a) by (bit_vector);
    }
    assert(unmask(masked, key) =~= payload);
}

/// Decoding a client frame, re-encoding its text as a server frame, masking
/// that frame with any key and decoding it again gives back the same text.
pub proof fn lemma_frame_round_trip_masked(frame: Seq<u8>, key: Seq<u8>)
    requires
        frame_text(frame) is Ok,
        key.len() == 4,
    ensures
        frame_text(masked_text_frame(encode_utf8(frame_text(frame)->Ok_0), key)) == frame_text(frame),
{
    let p = frame_payload(frame)->Ok_0;
    decode_utf8_encode_utf8(p);
    lemma_masked_frame_payload(p, key);
}

} // verus!
