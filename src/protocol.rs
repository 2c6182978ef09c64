use vstd::prelude::*;

verus! {

/// Protocol version spoken by this implementation.
pub const V0: u8 = 0;

/// Frame kind of a request frame.
pub const FORM_REQUEST: u8 = 0;

/// Frame kind of a response frame.
pub const FORM_RESPONSE: u8 = 1;

/// Size of the encoded header in bytes.
pub const HEADER_LENGTH: u8 = 6;

/// Largest payload a single frame can carry: the length field is 16 bits wide.
pub const MAX_PAYLOAD: usize = 65535;

/// A value that can travel over a channel: requests and responses are both messages.
/// Equality decides when two requests are the same exchange.
pub trait Message: PartialEq + Sized {
}

impl<M: PartialEq + Sized> Message for M {
}

/// The errors of the framing layer and of a dispatch cycle.
#[derive(PartialEq, Eq, Structural, Clone, Copy, Debug)]
pub enum FrameError {
    /// Fewer than six header bytes, or an unknown protocol version.
    MalformedHeader,
    /// The payload does not decode as the expected message type.
    MalformedPayload,
    /// The transport could not be established or was lost.
    ConnectionError,
    /// The peer broke the protocol: wrong frame kind, or a length that disagrees with the bytes.
    ProtocolViolation,
    /// The payload is longer than the 16-bit length field can describe.
    PayloadTooLarge,
}

/// The fixed six-byte header that precedes every payload on the wire.
#[derive(PartialEq, Eq, Structural, Clone, Copy, Debug)]
pub struct Header {
    pub version: u8,
    pub form: u8,
    pub length: u16,
    pub reserved: u16,
}

/// The six bytes of a header: version, kind, length and reserved, each integer little-endian.
pub open spec fn header_bytes(h: Header) -> Seq<u8> {
    seq![
        h.version,
        h.form,
        (h.length % 256) as u8,
        (h.length / 256) as u8,
        (h.reserved % 256) as u8,
        (h.reserved / 256) as u8,
    ]
}

/// A little-endian 16-bit integer from two bytes.
pub open spec fn le_u16(lo: u8, hi: u8) -> u16 {
    (lo as int + hi as int * 256) as u16
}

/// What decoding the leading bytes of `b` as a header yields.
pub open spec fn parse_header(b: Seq<u8>) -> Result<Header, FrameError> {
    if b.len() < 6 || b[0] != V0 {
        Err(FrameError::MalformedHeader)
    } else {
        Ok(Header { version: b[0], form: b[1], length: le_u16(b[2], b[3]), reserved: le_u16(b[4], b[5]) })
    }
}

/// The bytes of a whole frame: the header followed by the payload.
pub open spec fn frame_bytes(h: Header, payload: Seq<u8>) -> Seq<u8> {
    header_bytes(h) + payload
}

/// What decoding a whole frame yields: its header, and the payload, which must be exactly
/// as long as the header says.
pub open spec fn parse_frame(b: Seq<u8>) -> Result<(Header, Seq<u8>), FrameError> {
    match parse_header(b) {
        Err(e) => Err(e),
        Ok(h) => if b.len() - 6 == h.length as int {
            Ok((h, b.subrange(6, b.len() as int)))
        } else {
            Err(FrameError::ProtocolViolation)
        },
    }
}

/// The header of a request frame of protocol version zero carrying `len` payload bytes.
pub open spec fn request_header(len: nat) -> Header {
    Header { version: V0, form: FORM_REQUEST, length: len as u16, reserved: 0 }
}

impl Header {
    pub fn new(version: u8, form: u8, length: u16, reserved: u16) -> (r: Header)
        ensures
            r == (Header { version, form, length, reserved }),
    {
        Header { version, form, length, reserved }
    }

    /// Encodes the header as its six wire bytes.
    pub fn to_bytes(&self) -> (r: Vec<u8>)
        ensures
            r@ == header_bytes(*self),
    {
        let mut out: Vec<u8> = Vec::with_capacity(6);
        out.push(self.version);
        out.push(self.form);
        out.push((self.length % 256) as u8);
        out.push((self.length / 256) as u8);
        out.push((self.reserved % 256) as u8);
        out.push((self.reserved / 256) as u8);
        assert(out@ =~= header_bytes(*self));
        out
    }

    /// Decodes a header from the first six bytes of `buffer`; bytes past the sixth are ignored.
    pub fn from_bytes(buffer: &[u8]) -> (r: Result<Header, FrameError>)
        ensures
            r == parse_header(buffer@),
    {
        if buffer.len() < 6 || buffer[0] != V0 {
            return Err(FrameError::MalformedHeader);
        }
        let length = buffer[2] as u16 + buffer[3] as u16 * 256;
        let reserved = buffer[4] as u16 + buffer[5] as u16 * 256;
        Ok(Header { version: buffer[0], form: buffer[1], length, reserved })
    }
}

/// Writes a header followed by its payload; the header's length must match the payload.
pub fn encode_frame(header: &Header, payload: &[u8]) -> (r: Result<Vec<u8>, FrameError>)
    ensures
        header.length as int == payload@.len() ==> r == Ok::<Vec<u8>, FrameError>(r->Ok_0)
            && r->Ok_0@ == frame_bytes(*header, payload@),
        header.length as int != payload@.len() ==> r == Err::<Vec<u8>, FrameError>(
            FrameError::ProtocolViolation,
        ),
{
    if header.length as usize != payload.len() {
        return Err(FrameError::ProtocolViolation);
    }
    let mut out = header.to_bytes();
    let mut i: usize = 0;
    while i < payload.len()
        invariant
            i <= payload@.len(),
            out@ == header_bytes(*header) + payload@.subrange(0, i as int),
        decreases payload@.len() - i,
    {
        out.push(payload[i]);
        i = i + 1;
        assert(out@ =~= header_bytes(*header) + payload@.subrange(0, i as int));
    }
    assert(payload@.subrange(0, payload@.len() as int) =~= payload@);
    Ok(out)
}

/// Frames `payload` as a request of protocol version zero. A payload longer than the
/// length field can hold is refused before any header is built.
pub fn frame_request(payload: &[u8]) -> (r: Result<Vec<u8>, FrameError>)
    ensures
        payload@.len() <= MAX_PAYLOAD ==> r == Ok::<Vec<u8>, FrameError>(r->Ok_0)
            && r->Ok_0@ == frame_bytes(request_header(payload@.len()), payload@),
        payload@.len() > MAX_PAYLOAD ==> r == Err::<Vec<u8>, FrameError>(
            FrameError::PayloadTooLarge,
        ),
{
    if payload.len() > MAX_PAYLOAD {
        return Err(FrameError::PayloadTooLarge);
    }
    let header = Header::new(V0, FORM_REQUEST, payload.len() as u16, 0);
    encode_frame(&header, payload)
}

/// Splits a whole frame into its header and payload. The payload must be exactly as long
/// as the header's length field says.
pub fn decode_frame(bytes: &[u8]) -> (r: Result<(Header, Vec<u8>), FrameError>)
    ensures
        match r {
            Ok((h, p)) => parse_frame(bytes@) == Ok::<(Header, Seq<u8>), FrameError>((h, p@)),
            Err(e) => parse_frame(bytes@) == Err::<(Header, Seq<u8>), FrameError>(e),
        },
{
    let header = match Header::from_bytes(bytes) {
        Ok(h) => h,
        Err(e) => return Err(e),
    };
    if bytes.len() - 6 != header.length as usize {
        return Err(FrameError::ProtocolViolation);
    }
    let mut payload: Vec<u8> = Vec::new();
    let mut i: usize = 6;
    while i < bytes.len()
        invariant
            6 <= i <= bytes@.len(),
            payload@ == bytes@.subrange(6, i as int),
        decreases bytes@.len() - i,
    {
        payload.push(bytes[i]);
        i = i + 1;
        assert(payload@ =~= bytes@.subrange(6, i as int));
    }
    Ok((header, payload))
}

/// Decoding an encoded header gives the header back, for every header of the known version.
pub proof fn lemma_header_round_trip(h: Header)
    requires
        h.version == V0,
    ensures
        parse_header(header_bytes(h)) == Ok::<Header, FrameError>(h),
{
    let b = header_bytes(h);
    assert(le_u16(b[2], b[3]) == h.length);
    assert(le_u16(b[4], b[5]) == h.reserved);
}

/// A buffer shorter than a header never decodes.
pub proof fn lemma_short_buffer_rejected(b: Seq<u8>)
    requires
        b.len() < 6,
    ensures
        parse_header(b) == Err::<Header, FrameError>(FrameError::MalformedHeader),
{
}

/// A frame decodes back to the header and payload it was written from, whenever the
/// header is of the known version and its length field is the payload's length.
pub proof fn lemma_frame_round_trip(h: Header, payload: Seq<u8>)
    requires
        h.version == V0,
        h.length as int == payload.len(),
    ensures
        parse_frame(frame_bytes(h, payload)) == Ok::<(Header, Seq<u8>), FrameError>((h, payload)),
{
    lemma_header_round_trip(h);
    let b = frame_bytes(h, payload);
    assert(b.subrange(0, 6) =~= header_bytes(h));
    assert(parse_header(b) == parse_header(header_bytes(h)));
    assert(b.subrange(6, b.len() as int) =~= payload);
}

/// Every successfully decoded frame carries exactly as many payload bytes as its
/// length field says.
pub proof fn lemma_decoded_length_exact(b: Seq<u8>)
    requires
        parse_frame(b) is Ok,
    ensures
        parse_frame(b)->Ok_0.0.length as int == parse_frame(b)->Ok_0.1.len(),
{
}

} // verus!
