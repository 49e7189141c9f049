//! Wire protocol for shared memory ring buffers.
//!
//! Two layers:
//!
//! 1. **`Frame`** (generic): extensible frame format with arbitrary key-value
//!    headers and a raw payload. Designed for the gRPC data plane.
//!
//! 2. **`Message`** (simple): fixed-format message for simple use cases.
//!
//! ## Frame wire format
//!
//! ```text
//! ┌─────────────────────────────────────────────────────┐
//! │ version:    u8     (currently 1)                     │
//! │ flags:      u8     (bit 0 = END_STREAM, etc.)        │
//! │ stream_id:  u32 LE (for multiplexing)                │
//! │ header_len: u32 LE (total bytes of headers section)  │
//! │ payload_len:u32 LE (total bytes of payload)          │
//! ├─ headers (header_len bytes) ─────────────────────────┤
//! │  repeated:                                           │
//! │    key_len: u16 LE                                   │
//! │    key:     [u8; key_len]                            │
//! │    val_len: u16 LE                                   │
//! │    val:     [u8; val_len]                            │
//! ├─ payload (payload_len bytes) ────────────────────────┤
//! │  raw bytes, NOT serialized, no protobuf              │
//! └─────────────────────────────────────────────────────┘
//! ```
//!
//! Fixed overhead: 14 bytes. Headers are optional (header_len = 0).

pub mod flags;

use crate::text;
use crate::wire;
use vstd::prelude::*;
use vstd::string::*;
use vstd::utf8::*;

verus! {

/// Why bytes are not a frame or a message.
#[derive(Debug)]
pub enum ProtocolError {
    /// Fewer bytes than the format or a length field asks for.
    TooShort { need: usize, have: usize },
    /// The type byte of a message is none of those known.
    UnknownType(u8),
    /// The version byte of a frame is not `FRAME_VERSION`.
    UnsupportedVersion(u8),
    /// A header runs past the end of the headers section.
    HeaderTruncated,
    /// Any other reason, in words.
    Decode(String),
}

pub const FRAME_VERSION: u8 = 1;

/// version + flags + stream_id + header_len + payload_len
pub const FRAME_HEADER_SIZE: usize = 14;

/// request_id + type + payload_len
pub const MESSAGE_HEADER_SIZE: usize = 13;

/// A generic frame with extensible key-value headers and a raw payload.
///
/// Headers are arbitrary byte key-value pairs; use them for:
/// - `:method`, `:path` (gRPC-style routing)
/// - `content-type`, `x-request-id`
/// - Any custom metadata
///
/// Payload is raw bytes, no serialization imposed. The caller decides
/// the format (protobuf, flatbuffers, raw tensor, JPEG, whatever).
#[derive(Debug, Clone)]
pub struct Frame {
    pub version: u8,
    pub flags: u8,
    pub stream_id: u32,
    pub headers: Vec<(Vec<u8>, Vec<u8>)>,
    pub payload: Vec<u8>,
}

/// What a frame consists of.
#[verifier::ext_equal]
pub struct FrameView {
    pub version: u8,
    pub flags: u8,
    pub stream_id: u32,
    pub headers: Seq<(Seq<u8>, Seq<u8>)>,
    pub payload: Seq<u8>,
}

/// The byte strings of a list of headers.
pub open spec fn headers_view(headers: Seq<(Vec<u8>, Vec<u8>)>) -> Seq<(Seq<u8>, Seq<u8>)> {
    Seq::new(headers.len(), |i: int| (headers[i].0@, headers[i].1@))
}

impl View for Frame {
    type V = FrameView;

    open spec fn view(&self) -> FrameView {
        FrameView {
            version: self.version,
            flags: self.flags,
            stream_id: self.stream_id,
            headers: headers_view(self.headers@),
            payload: self.payload@,
        }
    }
}

/// A header on the wire: key length, key, value length, value.
pub open spec fn encode_header(key: Seq<u8>, value: Seq<u8>) -> Seq<u8> {
    wire::le16(wire::low16(key.len())) + key + wire::le16(wire::low16(value.len())) + value
}

/// The headers section on the wire, the first header first.
pub open spec fn encode_headers(headers: Seq<(Seq<u8>, Seq<u8>)>) -> Seq<u8>
    decreases headers.len(),
{
    if headers.len() == 0 {
        Seq::empty()
    } else {
        encode_header(headers[0].0, headers[0].1) + encode_headers(headers.drop_first())
    }
}

/// The value of the first header with the given key.
pub open spec fn find_header(headers: Seq<(Seq<u8>, Seq<u8>)>, key: Seq<u8>) -> Option<Seq<u8>>
    decreases headers.len(),
{
    if headers.len() == 0 {
        None
    } else if headers[0].0 == key {
        Some(headers[0].1)
    } else {
        find_header(headers.drop_first(), key)
    }
}

/// The headers in a headers section. Fewer than four bytes at its end cannot be a header
/// and are passed over. Nothing is found if a header runs past the end.
pub open spec fn parse_headers(data: Seq<u8>) -> Option<Seq<(Seq<u8>, Seq<u8>)>>
    decreases data.len(),
{
    if data.len() < 4 {
        Some(Seq::empty())
    } else {
        let k = wire::from_le16(data) as int;
        let v = wire::from_le16(data.skip(2 + k)) as int;
        if data.len() < 2 + k + 2 || data.len() < 2 + k + 2 + v {
            None
        } else {
            match parse_headers(data.skip(4 + k + v)) {
                Some(rest) => Some(
                    seq![(data.subrange(2, 2 + k), data.subrange(4 + k, 4 + k + v))] + rest,
                ),
                None => None,
            }
        }
    }
}

/// `n`, or the largest machine word where `n` is above it.
pub open spec fn saturated(n: nat) -> usize {
    if n <= usize::MAX {
        n as usize
    } else {
        usize::MAX
    }
}

impl FrameView {
    /// A frame on the wire.
    pub open spec fn encoded(self) -> Seq<u8> {
        seq![self.version, self.flags] + wire::le32(self.stream_id) + wire::le32(
            wire::low32(encode_headers(self.headers).len()),
        ) + wire::le32(wire::low32(self.payload.len())) + encode_headers(self.headers)
            + self.payload
    }

    /// Whether every length of this frame fits its field on the wire, and the version is
    /// the one in use.
    pub open spec fn transmissible(self) -> bool {
        &&& self.version == FRAME_VERSION
        &&& self.payload.len() < 0x1_0000_0000
        &&& encode_headers(self.headers).len() < 0x1_0000_0000
        &&& forall|i: int|
            0 <= i < self.headers.len() ==> (#[trigger] self.headers[i]).0.len() < 0x1_0000
                && self.headers[i].1.len() < 0x1_0000
    }
}

/// The frame at the front of `data`, or why there is none.
pub open spec fn decoded_frame(data: Seq<u8>) -> Result<FrameView, ProtocolError> {
    if data.len() < FRAME_HEADER_SIZE {
        Err(ProtocolError::TooShort { need: FRAME_HEADER_SIZE, have: data.len() as usize })
    } else if data[0] != FRAME_VERSION {
        Err(ProtocolError::UnsupportedVersion(data[0]))
    } else {
        let h = wire::from_le32(data.skip(6)) as int;
        let p = wire::from_le32(data.skip(10)) as int;
        if data.len() < FRAME_HEADER_SIZE + h + p {
            Err(
                ProtocolError::TooShort {
                    need: saturated((FRAME_HEADER_SIZE + h + p) as nat),
                    have: data.len() as usize,
                },
            )
        } else {
            match parse_headers(data.subrange(14, 14 + h)) {
                None => Err(ProtocolError::HeaderTruncated),
                Some(headers) => Ok(
                    FrameView {
                        version: data[0],
                        flags: data[1],
                        stream_id: wire::from_le32(data.skip(2)),
                        headers,
                        payload: data.subrange(14 + h, 14 + h + p),
                    },
                ),
            }
        }
    }
}

/// Whether a result of decoding a frame is the one that `expected` says.
pub open spec fn frame_result(
    result: Result<Frame, ProtocolError>,
    expected: Result<FrameView, ProtocolError>,
) -> bool {
    match (result, expected) {
        (Ok(frame), Ok(view)) => frame@ == view,
        (Err(e), Err(f)) => e == f,
        _ => false,
    }
}

impl Frame {
    pub fn new(stream_id: u32) -> (frame: Frame)
        ensures
            frame@ == (FrameView {
                version: FRAME_VERSION,
                flags: 0,
                stream_id,
                headers: Seq::empty(),
                payload: Seq::empty(),
            }),
    {
        let frame = Frame {
            version: FRAME_VERSION,
            flags: 0,
            stream_id,
            headers: Vec::new(),
            payload: Vec::new(),
        };
        assert(frame@.headers =~= Seq::empty());
        frame
    }

    /// Adds a header (key and value as bytes): the bytes that the two are converted into.
    pub fn header<K: Into<Vec<u8>>, V: Into<Vec<u8>>>(self, key: K, value: V) -> (frame: Frame)
        ensures
            exists|k: Vec<u8>, v: Vec<u8>| #[trigger]
                call_ensures(K::into, (key,), k) && #[trigger] call_ensures(V::into, (value,), v)
                    && frame@ == (FrameView { headers: self@.headers.push((k@, v@)), ..self@ }),
    {
        let k: Vec<u8> = key.into();
        let v: Vec<u8> = value.into();
        let mut frame = self;
        frame.headers.push((k, v));
        assert(frame@.headers =~= self@.headers.push((k@, v@)));
        frame
    }

    /// Adds a string header.
    pub fn header_str(self, key: &str, value: &str) -> (frame: Frame)
        ensures
            frame@ == (FrameView {
                headers: self@.headers.push((encode_utf8(key@), encode_utf8(value@))),
                ..self@
            }),
    {
        self.header(text::text_bytes(key), text::text_bytes(value))
    }

    /// Sets the payload (raw bytes, no serialization).
    pub fn payload(self, data: Vec<u8>) -> (frame: Frame)
        ensures
            frame@ == (FrameView { payload: data@, ..self@ }),
    {
        let mut frame = self;
        frame.payload = data;
        frame
    }

    /// Sets the flags.
    pub fn flags(self, flags: u8) -> (frame: Frame)
        ensures
            frame@ == (FrameView { flags, ..self@ }),
    {
        let mut frame = self;
        frame.flags = flags;
        frame
    }

    /// The value of the first header with the given key.
    pub fn get_header(&self, key: &[u8]) -> (value: Option<&[u8]>)
        ensures
            match value {
                Some(v) => find_header(self@.headers, key@) == Some(v@),
                None => find_header(self@.headers, key@) is None,
            },
    {
        let mut i: usize = 0;
        assert(self@.headers.skip(0) =~= self@.headers);
        while i < self.headers.len()
            invariant
                i <= self.headers@.len(),
                find_header(self@.headers, key@) == find_header(
                    self@.headers.skip(i as int),
                    key@,
                ),
            decreases self.headers@.len() - i,
        {
            let ghost rest = self@.headers.skip(i as int);
            assert(rest[0] == self@.headers[i as int]);
            assert(rest.drop_first() =~= self@.headers.skip(i + 1));
            if wire::same_bytes(self.headers[i].0.as_slice(), key) {
                return Some(self.headers[i].1.as_slice());
            }
            i += 1;
        }
        None
    }

    /// A header as a UTF-8 string.
    pub fn get_header_str(&self, key: &str) -> (value: Option<&str>)
        ensures
            match value {
                Some(v) => find_header(self@.headers, encode_utf8(key@)) matches Some(bytes)
                    && text::utf8_text(bytes) == Some(v@),
                None => match find_header(self@.headers, encode_utf8(key@)) {
                    Some(bytes) => text::utf8_text(bytes) is None,
                    None => true,
                },
            },
    {
        match self.get_header(key.as_bytes()) {
            Some(bytes) => text::utf8_str(bytes),
            None => None,
        }
    }

    pub fn is_end_stream(&self) -> (set: bool)
        ensures
            set == (self.flags % 2 == 1),
    {
        let f: u8 = self.flags;
        assert((f & 0x01 != 0) == (f % 2 == 1)) by (bit_vector);
        self.flags & flags::END_STREAM != 0
    }

    pub fn is_error(&self) -> (set: bool)
        ensures
            set == (self.flags / 4 % 2 == 1),
    {
        let f: u8 = self.flags;
        assert((f & 0x04 != 0) == (f / 4 % 2 == 1)) by (bit_vector);
        self.flags & flags::ERROR != 0
    }

    pub fn is_control(&self) -> (set: bool)
        ensures
            set == (self.flags / 8 % 2 == 1),
    {
        let f: u8 = self.flags;
        assert((f & 0x08 != 0) == (f / 8 % 2 == 1)) by (bit_vector);
        self.flags & flags::CONTROL != 0
    }

    /// Total encoded size in bytes.
    pub fn encoded_size(&self) -> (size: usize)
        requires
            self@.encoded().len() <= usize::MAX,
        ensures
            size == self@.encoded().len(),
    {
        let mut headers_size: usize = 0;
        let mut i: usize = 0;
        assert(self@.headers.skip(0) =~= self@.headers);
        while i < self.headers.len()
            invariant
                i <= self.headers@.len(),
                self@.encoded().len() <= usize::MAX,
                headers_size + encode_headers(self@.headers.skip(i as int)).len()
                    == encode_headers(self@.headers).len(),
            decreases self.headers@.len() - i,
        {
            let ghost rest = self@.headers.skip(i as int);
            assert(rest[0] == self@.headers[i as int]);
            assert(rest.drop_first() =~= self@.headers.skip(i + 1));
            headers_size = headers_size + (2 + self.headers[i].0.len() + 2 + self.headers[i].1.len());
            i += 1;
        }
        FRAME_HEADER_SIZE + headers_size + self.payload.len()
    }

    /// Encodes into a byte buffer. A length that does not fit its field is cut down to
    /// the field's low bits.
    pub fn encode(&self) -> (buf: Vec<u8>)
        ensures
            buf@ == self@.encoded(),
    {
        let ghost hs = self@.headers;
        let mut headers_size: u32 = 0;
        let mut i: usize = 0;
        assert(hs.take(0) =~= Seq::empty());
        while i < self.headers.len()
            invariant
                i <= self.headers@.len(),
                hs == self@.headers,
                headers_size == wire::low32(encode_headers(hs.take(i as int)).len()),
            decreases self.headers@.len() - i,
        {
            let key_len: u32 = wire::truncate_u32(self.headers[i].0.len());
            let val_len: u32 = wire::truncate_u32(self.headers[i].1.len());
            proof {
                let (key, value) = hs[i as int];
                lemma_encode_headers_push(hs.take(i as int), hs[i as int]);
                assert(hs.take(i + 1) =~= hs.take(i as int).push(hs[i as int]));
                assert(encode_header(key, value).len() == 4 + key.len() + value.len());
                lemma_low32_sum(
                    encode_headers(hs.take(i as int)).len(),
                    key.len(),
                    value.len(),
                );
            }
            headers_size =
            ((headers_size as u64 + 4 + key_len as u64 + val_len as u64) % 4294967296) as u32;
            i += 1;
        }
        assert(hs.take(i as int) =~= hs);

        let mut buf: Vec<u8> = Vec::new();

        // Fixed header
        buf.push(self.version);
        buf.push(self.flags);
        assert(buf@ =~= seq![self.version, self.flags]);
        wire::put_u32(&mut buf, self.stream_id);
        wire::put_u32(&mut buf, headers_size);
        wire::put_u32(&mut buf, wire::truncate_u32(self.payload.len()));

        // Headers (TLV)
        let ghost fixed = buf@;
        assert(fixed + encode_headers(hs.take(0)) =~= fixed);
        let mut j: usize = 0;
        while j < self.headers.len()
            invariant
                j <= self.headers@.len(),
                hs == self@.headers,
                buf@ == fixed + encode_headers(hs.take(j as int)),
            decreases self.headers@.len() - j,
        {
            proof {
                lemma_encode_headers_push(hs.take(j as int), hs[j as int]);
                assert(hs.take(j + 1) =~= hs.take(j as int).push(hs[j as int]));
            }
            wire::put_u16(&mut buf, wire::truncate_u16(self.headers[j].0.len()));
            wire::put_bytes(&mut buf, self.headers[j].0.as_slice());
            wire::put_u16(&mut buf, wire::truncate_u16(self.headers[j].1.len()));
            wire::put_bytes(&mut buf, self.headers[j].1.as_slice());
            assert(buf@ =~= fixed + encode_headers(hs.take(j + 1)));
            j += 1;
        }
        assert(hs.take(j as int) =~= hs);

        // Payload
        wire::put_bytes(&mut buf, self.payload.as_slice());
        assert(buf@ =~= self@.encoded());
        buf
    }

    /// Decodes from a byte buffer. Bytes after the frame are passed over.
    pub fn decode(data: &[u8]) -> (result: Result<Frame, ProtocolError>)
        ensures
            frame_result(result, decoded_frame(data@)),
            match decoded_frame(data@) {
                Ok(view) => result matches Ok(frame) && frame@ == view,
                Err(e) => result matches Err(f) && f == e,
            },
    {
        assert(data@.len() == data.len());
        if data.len() < FRAME_HEADER_SIZE {
            return Err(ProtocolError::TooShort { need: FRAME_HEADER_SIZE, have: data.len() });
        }
        let version: u8 = data[0];
        if version != FRAME_VERSION {
            return Err(ProtocolError::UnsupportedVersion(version));
        }
        let flags: u8 = data[1];
        let stream_id: u32 = wire::get_u32(data, 2);
        let header_len: u32 = wire::get_u32(data, 6);
        let payload_len: u32 = wire::get_u32(data, 10);

        let total_needed: u64 = FRAME_HEADER_SIZE as u64 + header_len as u64 + payload_len as u64;
        if (data.len() as u64) < total_needed {
            return Err(ProtocolError::TooShort { need: saturate(total_needed), have: data.len() });
        }
        // Parse headers

        let payload_start: usize = FRAME_HEADER_SIZE + header_len as usize;
        let headers = match decode_headers(&data[FRAME_HEADER_SIZE..payload_start]) {
            Ok(headers) => headers,
            Err(e) => {
                return Err(e);
            },
        };

        // Payload
        let payload = vstd::slice::slice_to_vec(
            &data[payload_start..payload_start + payload_len as usize],
        );

        Ok(Frame { version, flags, stream_id, headers, payload })
    }
}

/// `n` as a machine word, or the largest one where it does not fit.
fn saturate(n: u64) -> (word: usize)
    ensures
        word == saturated(n as nat),
{
    if n <= usize::MAX as u64 {
        n as usize
    } else {
        usize::MAX
    }
}

/// The headers in a headers section.
fn decode_headers(data: &[u8]) -> (result: Result<Vec<(Vec<u8>, Vec<u8>)>, ProtocolError>)
    ensures
        match result {
            Ok(headers) => parse_headers(data@) == Some(headers_view(headers@)),
            Err(e) => parse_headers(data@) is None && e == ProtocolError::HeaderTruncated,
        },
{
    let mut headers: Vec<(Vec<u8>, Vec<u8>)> = Vec::new();
    let mut at: usize = 0;
    assert(data@.len() == data.len());
    assert(data@.skip(0) =~= data@);
    assert(headers_view(headers@) =~= Seq::empty());
    proof {
        if parse_headers(data@) is Some {
            assert(Seq::empty() + parse_headers(data@).unwrap() =~= parse_headers(data@).unwrap());
        }
    }
    while data.len() - at >= 4
        invariant
            at <= data@.len() <= usize::MAX,
            data@.len() == data.len(),
            parse_headers(data@) == match parse_headers(data@.skip(at as int)) {
                Some(rest) => Some(headers_view(headers@) + rest),
                None => None,
            },
        decreases data@.len() - at,
    {
        let ghost rest = data@.skip(at as int);
        let key_len: usize = wire::get_u16(data, at) as usize;
        if data.len() - at - 2 < key_len {
            return Err(ProtocolError::HeaderTruncated);
        }
        if data.len() - at - 2 - key_len < 2 {
            return Err(ProtocolError::HeaderTruncated);
        }
        let key_start: usize = at + 2;
        let key = vstd::slice::slice_to_vec(&data[key_start..key_start + key_len]);
        assert(rest.skip(2 + key_len) =~= data@.skip(key_start + key_len));
        let val_len: usize = wire::get_u16(data, key_start + key_len) as usize;
        if data.len() - at - 4 - key_len < val_len {
            return Err(ProtocolError::HeaderTruncated);
        }
        let val_start: usize = at + 4 + key_len;
        let val = vstd::slice::slice_to_vec(&data[val_start..val_start + val_len]);
        proof {
            assert(key@ =~= rest.subrange(2, 2 + key_len));
            assert(val@ =~= rest.subrange(4 + key_len, 4 + key_len + val_len));
            assert(rest.skip(4 + key_len + val_len) =~= data@.skip(val_start + val_len));
        }
        let ghost old_headers = headers_view(headers@);
        headers.push((key, val));
        assert(headers_view(headers@) =~= old_headers + seq![(key@, val@)]);
        at = val_start + val_len;
        proof {
            if parse_headers(data@.skip(at as int)) is Some {
                let tail = parse_headers(data@.skip(at as int)).unwrap();
                assert(old_headers + (seq![(key@, val@)] + tail) =~= headers_view(headers@) + tail);
            }
        }
    }
    assert(headers_view(headers@) + Seq::empty() =~= headers_view(headers@));
    Ok(headers)
}

/// The low bits of a sum are those of the sum of the low bits.
proof fn lemma_low32_sum(a: nat, k: nat, v: nat)
    ensures
        wire::low32(a + 4 + k + v) == (wire::low32(a) + 4 + wire::low32(k) + wire::low32(v))
            % 4294967296,
{
}

/// The headers section of a list of headers and one more is that of the list, then the
/// one more.
proof fn lemma_encode_headers_push(headers: Seq<(Seq<u8>, Seq<u8>)>, header: (Seq<u8>, Seq<u8>))
    ensures
        encode_headers(headers.push(header)) == encode_headers(headers) + encode_header(
            header.0,
            header.1,
        ),
    decreases headers.len(),
{
    if headers.len() == 0 {
        assert(headers.push(header).drop_first() =~= Seq::empty());
        assert(encode_headers(Seq::empty()) =~= Seq::empty());
        assert(encode_headers(headers.push(header)) =~= encode_headers(headers) + encode_header(
            header.0,
            header.1,
        ));
    } else {
        lemma_encode_headers_push(headers.drop_first(), header);
        assert(headers.push(header).drop_first() =~= headers.drop_first().push(header));
        assert(encode_headers(headers.push(header)) =~= encode_headers(headers) + encode_header(
            header.0,
            header.1,
        ));
    }
}

// ─── Message (simple) ────────────────────────────────────────────────────────

/// What a message is about.
#[derive(Debug, Clone, Copy, PartialEq, Eq, Structural)]
pub enum MessageType {
    Request,
    Response,
    Error,
    Shutdown,
}

#[derive(Debug, Clone)]
pub struct Message {
    pub request_id: u64,
    pub msg_type: MessageType,
    pub payload: Vec<u8>,
}

/// What a message consists of.
#[verifier::ext_equal]
pub struct MessageView {
    pub request_id: u64,
    pub msg_type: MessageType,
    pub payload: Seq<u8>,
}

impl View for Message {
    type V = MessageView;

    open spec fn view(&self) -> MessageView {
        MessageView {
            request_id: self.request_id,
            msg_type: self.msg_type,
            payload: self.payload@,
        }
    }
}

/// The byte that stands for a message type.
pub open spec fn type_byte(msg_type: MessageType) -> u8 {
    match msg_type {
        MessageType::Request => 0x01,
        MessageType::Response => 0x02,
        MessageType::Error => 0x03,
        MessageType::Shutdown => 0xFF,
    }
}

/// The message type that a byte stands for.
pub open spec fn type_of_byte(byte: u8) -> Option<MessageType> {
    if byte == 0x01 {
        Some(MessageType::Request)
    } else if byte == 0x02 {
        Some(MessageType::Response)
    } else if byte == 0x03 {
        Some(MessageType::Error)
    } else if byte == 0xFF {
        Some(MessageType::Shutdown)
    } else {
        None
    }
}

impl MessageView {
    /// A message on the wire: request id, type, payload length, payload.
    pub open spec fn encoded(self) -> Seq<u8> {
        wire::le64(self.request_id) + seq![type_byte(self.msg_type)] + wire::le32(
            wire::low32(self.payload.len()),
        ) + self.payload
    }
}

/// The message at the front of `data`, or why there is none.
pub open spec fn decoded_message(data: Seq<u8>) -> Result<MessageView, ProtocolError> {
    if data.len() < MESSAGE_HEADER_SIZE {
        Err(ProtocolError::TooShort { need: MESSAGE_HEADER_SIZE, have: data.len() as usize })
    } else {
        let p = wire::from_le32(data.skip(9)) as int;
        if data.len() < MESSAGE_HEADER_SIZE + p {
            Err(
                ProtocolError::TooShort {
                    need: saturated((MESSAGE_HEADER_SIZE + p) as nat),
                    have: data.len() as usize,
                },
            )
        } else {
            match type_of_byte(data[8]) {
                None => Err(ProtocolError::UnknownType(data[8])),
                Some(msg_type) => Ok(
                    MessageView {
                        request_id: wire::from_le64(data),
                        msg_type,
                        payload: data.subrange(13, 13 + p),
                    },
                ),
            }
        }
    }
}

/// Whether a result of decoding a message is the one that `expected` says.
pub open spec fn message_result(
    result: Result<Message, ProtocolError>,
    expected: Result<MessageView, ProtocolError>,
) -> bool {
    match (result, expected) {
        (Ok(message), Ok(view)) => message@ == view,
        (Err(e), Err(f)) => e == f,
        _ => false,
    }
}

impl Message {
    pub fn request(id: u64, payload: Vec<u8>) -> (message: Message)
        ensures
            message@ == (MessageView {
                request_id: id,
                msg_type: MessageType::Request,
                payload: payload@,
            }),
    {
        Message { request_id: id, msg_type: MessageType::Request, payload }
    }

    pub fn response(id: u64, payload: Vec<u8>) -> (message: Message)
        ensures
            message@ == (MessageView {
                request_id: id,
                msg_type: MessageType::Response,
                payload: payload@,
            }),
    {
        Message { request_id: id, msg_type: MessageType::Response, payload }
    }

    pub fn error(id: u64, msg: &str) -> (message: Message)
        ensures
            message@ == (MessageView {
                request_id: id,
                msg_type: MessageType::Error,
                payload: encode_utf8(msg@),
            }),
    {
        Message { request_id: id, msg_type: MessageType::Error, payload: text::text_bytes(msg) }
    }

    pub fn shutdown() -> (message: Message)
        ensures
            message@ == (MessageView {
                request_id: 0,
                msg_type: MessageType::Shutdown,
                payload: Seq::empty(),
            }),
    {
        Message { request_id: 0, msg_type: MessageType::Shutdown, payload: Vec::new() }
    }

    /// Encodes into a byte buffer. A payload length that does not fit four bytes is cut
    /// down to its low bits.
    pub fn encode(&self) -> (buf: Vec<u8>)
        ensures
            buf@ == self@.encoded(),
    {
        let type_byte: u8 = match self.msg_type {
            MessageType::Request => 0x01,
            MessageType::Response => 0x02,
            MessageType::Error => 0x03,
            MessageType::Shutdown => 0xFF,
        };
        let mut buf: Vec<u8> = Vec::new();
        wire::put_u64(&mut buf, self.request_id);
        buf.push(type_byte);
        wire::put_u32(&mut buf, wire::truncate_u32(self.payload.len()));
        wire::put_bytes(&mut buf, self.payload.as_slice());
        assert(buf@ =~= self@.encoded());
        buf
    }

    /// Decodes from a byte buffer. Bytes after the message are passed over.
    pub fn decode(data: &[u8]) -> (result: Result<Message, ProtocolError>)
        ensures
            message_result(result, decoded_message(data@)),
            match decoded_message(data@) {
                Ok(view) => result matches Ok(message) && message@ == view,
                Err(e) => result matches Err(f) && f == e,
            },
    {
        assert(data@.len() == data.len());
        if data.len() < MESSAGE_HEADER_SIZE {
            return Err(ProtocolError::TooShort { need: MESSAGE_HEADER_SIZE, have: data.len() });
        }
        assert(data@.skip(0) =~= data@);
        let request_id: u64 = wire::get_u64(data, 0);
        let type_byte: u8 = data[8];
        let payload_len: u32 = wire::get_u32(data, 9);
        let total_needed: u64 = MESSAGE_HEADER_SIZE as u64 + payload_len as u64;
        if (data.len() as u64) < total_needed {
            return Err(ProtocolError::TooShort { need: saturate(total_needed), have: data.len() });
        }
        let msg_type = match type_byte {
            0x01 => MessageType::Request,
            0x02 => MessageType::Response,
            0x03 => MessageType::Error,
            0xFF => MessageType::Shutdown,
            other => {
                return Err(ProtocolError::UnknownType(other));
            },
        };
        let payload = vstd::slice::slice_to_vec(
            &data[MESSAGE_HEADER_SIZE..MESSAGE_HEADER_SIZE + payload_len as usize],
        );
        Ok(Message { request_id, msg_type, payload })
    }
}

// ─── Conversions between Frame and Message ───────────────────────────────────

/// The word for a message type in a frame's `:type` header.
pub open spec fn type_word(msg_type: MessageType) -> Seq<char> {
    match msg_type {
        MessageType::Request => "request"@,
        MessageType::Response => "response"@,
        MessageType::Error => "error"@,
        MessageType::Shutdown => "shutdown"@,
    }
}

/// The flags of the frame for a message of a given type.
pub open spec fn type_flags(msg_type: MessageType) -> u8 {
    match msg_type {
        MessageType::Shutdown => 0x09,
        MessageType::Error => 0x04,
        _ => 0,
    }
}

/// The frame for a message: stream 0, the type and the request id as headers, the same
/// payload.
pub open spec fn frame_of_message(msg: MessageView) -> FrameView {
    FrameView {
        version: FRAME_VERSION,
        flags: type_flags(msg.msg_type),
        stream_id: 0,
        headers: seq![
            (encode_utf8(":type"@), encode_utf8(type_word(msg.msg_type))),
            (encode_utf8("request-id"@), wire::le64(msg.request_id)),
        ],
        payload: msg.payload,
    }
}

impl vstd::std_specs::convert::FromSpecImpl<Message> for Frame {
    open spec fn obeys_from_spec() -> bool {
        false
    }

    open spec fn from_spec(msg: Message) -> Frame {
        arbitrary()
    }
}

impl From<Message> for Frame {
    fn from(msg: Message) -> (frame: Frame)
        ensures
            frame@ == frame_of_message(msg@),
    {
        let flags: u8 = match msg.msg_type {
            MessageType::Shutdown => {
                assert(0x08u8 | 0x01u8 == 0x09u8) by (bit_vector);
                flags::CONTROL | flags::END_STREAM
            },
            MessageType::Error => flags::ERROR,
            _ => 0,
        };
        let type_str: &str = match msg.msg_type {
            MessageType::Request => "request",
            MessageType::Response => "response",
            MessageType::Error => "error",
            MessageType::Shutdown => "shutdown",
        };
        let mut id: Vec<u8> = Vec::new();
        wire::put_u64(&mut id, msg.request_id);
        assert(id@ =~= wire::le64(msg.request_id));
        let frame = Frame::new(0).flags(flags).header_str(":type", type_str).header(
            "request-id",
            id,
        ).payload(msg.payload);
        assert(frame@.headers =~= frame_of_message(msg@).headers);
        frame
    }
}

/// The words for an error.
pub open spec fn error_text(error: ProtocolError) -> Seq<char> {
    match error {
        ProtocolError::TooShort { need, have } => "message too short: need "@ + text::decimal(
            need as nat,
        ) + " bytes, have "@ + text::decimal(have as nat),
        ProtocolError::UnknownType(byte) => "unknown message type: "@ + text::decimal(byte as nat),
        ProtocolError::UnsupportedVersion(version) => "unsupported frame version: "@
            + text::decimal(version as nat),
        ProtocolError::HeaderTruncated => "header section truncated"@,
        ProtocolError::Decode(reason) => "decode error: "@ + reason@,
    }
}

impl ProtocolError {
    /// The error in words.
    pub fn message(&self) -> (words: String)
        ensures
            words@ == error_text(*self),
    {
        match self {
            ProtocolError::TooShort { need, have } => {
                let mut words = "message too short: need ".to_owned();
                words.append(text::decimal_text(*need as u64).as_str());
                words.append(" bytes, have ");
                words.append(text::decimal_text(*have as u64).as_str());
                words
            },
            ProtocolError::UnknownType(byte) => {
                let mut words = "unknown message type: ".to_owned();
                words.append(text::decimal_text(*byte as u64).as_str());
                words
            },
            ProtocolError::UnsupportedVersion(version) => {
                let mut words = "unsupported frame version: ".to_owned();
                words.append(text::decimal_text(*version as u64).as_str());
                words
            },
            ProtocolError::HeaderTruncated => "header section truncated".to_owned(),
            ProtocolError::Decode(reason) => {
                let mut words = "decode error: ".to_owned();
                words.append(reason.as_str());
                words
            },
        }
    }
}

// ─── Laws ────────────────────────────────────────────────────────────────────

/// What is parsed of a header and what follows it.
proof fn lemma_parse_parts(kl: Seq<u8>, key: Seq<u8>, vl: Seq<u8>, value: Seq<u8>, rest: Seq<u8>)
    requires
        kl.len() == 2,
        vl.len() == 2,
        wire::from_le16(kl) == key.len(),
        wire::from_le16(vl) == value.len(),
    ensures
        parse_headers((kl + key + vl + value) + rest) == match parse_headers(rest) {
            Some(others) => Some(seq![(key, value)] + others),
            None => None,
        },
{
    let s = (kl + key + vl + value) + rest;
    let k = key.len() as int;
    let v = value.len() as int;
    assert(s[0] == kl[0] && s[1] == kl[1]);
    assert(s.skip(2 + k)[0] == vl[0] && s.skip(2 + k)[1] == vl[1]);
    assert(s.subrange(2, 2 + k) =~= key);
    assert(s.subrange(4 + k, 4 + k + v) =~= value);
    assert(s.skip(4 + k + v) =~= rest);
}

/// What is decoded of the parts of a frame and what follows it.
proof fn lemma_decode_parts(
    front: Seq<u8>,
    id: Seq<u8>,
    hl: Seq<u8>,
    pl: Seq<u8>,
    hs: Seq<u8>,
    payload: Seq<u8>,
    rest: Seq<u8>,
)
    requires
        front.len() == 2,
        id.len() == 4,
        hl.len() == 4,
        pl.len() == 4,
        front[0] == FRAME_VERSION,
        wire::from_le32(hl) == hs.len(),
        wire::from_le32(pl) == payload.len(),
        parse_headers(hs) is Some,
    ensures
        decoded_frame((front + id + hl + pl + hs + payload) + rest) == Ok::<
            FrameView,
            ProtocolError,
        >(
            FrameView {
                version: front[0],
                flags: front[1],
                stream_id: wire::from_le32(id),
                headers: parse_headers(hs).unwrap(),
                payload,
            },
        ),
{
    let s = (front + id + hl + pl + hs + payload) + rest;
    let h = hs.len() as int;
    let p = payload.len() as int;
    assert(s[0] == front[0] && s[1] == front[1]);
    assert(s.skip(2).take(4) =~= id);
    assert(s.skip(6).take(4) =~= hl);
    assert(s.skip(10).take(4) =~= pl);
    lemma_from_le32_front(s.skip(2));
    lemma_from_le32_front(s.skip(6));
    lemma_from_le32_front(s.skip(10));
    assert(s.subrange(14, 14 + h) =~= hs);
    assert(s.subrange(14 + h, 14 + h + p) =~= payload);
}

/// A number is read from the first four bytes alone.
proof fn lemma_from_le32_front(s: Seq<u8>)
    requires
        s.len() >= 4,
    ensures
        wire::from_le32(s) == wire::from_le32(s.take(4)),
{
}

/// Headers read back as they were written, while no key and no value is longer than its
/// length field can say.
pub proof fn law_headers_round_trip(headers: Seq<(Seq<u8>, Seq<u8>)>)
    requires
        forall|i: int|
            0 <= i < headers.len() ==> (#[trigger] headers[i]).0.len() < 0x1_0000
                && headers[i].1.len() < 0x1_0000,
    ensures
        parse_headers(encode_headers(headers)) == Some(headers),
    decreases headers.len(),
{
    if headers.len() > 0 {
        let (key, value) = headers[0];
        let others = headers.drop_first();
        assert forall|i: int| 0 <= i < others.len() implies (#[trigger] others[i]).0.len()
            < 0x1_0000 && others[i].1.len() < 0x1_0000 by {
            assert(others[i] == headers[i + 1]);
        }
        law_headers_round_trip(others);
        lemma_parse_one(key, value, encode_headers(others));
        assert(seq![(key, value)] + others =~= headers);
    } else {
        assert(headers =~= Seq::empty());
    }
}

/// A headers section that starts with a given header.
proof fn lemma_parse_one(key: Seq<u8>, value: Seq<u8>, rest: Seq<u8>)
    requires
        key.len() < 0x1_0000,
        value.len() < 0x1_0000,
    ensures
        parse_headers(encode_header(key, value) + rest) == match parse_headers(rest) {
            Some(others) => Some(seq![(key, value)] + others),
            None => None,
        },
{
    let k = wire::low16(key.len());
    let v = wire::low16(value.len());
    wire::law_u16_round_trip(k, rest);
    wire::law_u16_round_trip(v, rest);
    lemma_parse_parts(wire::le16(k), key, wire::le16(v), value, rest);
}

/// A frame decodes to itself after it was encoded, whatever bytes follow it, while every
/// length fits its field and the version is the one in use.
#[verifier::rlimit(40)]
#[verifier::spinoff_prover]
pub proof fn law_frame_round_trip(frame: FrameView, rest: Seq<u8>)
    requires
        frame.transmissible(),
    ensures
        decoded_frame(frame.encoded() + rest) == Ok::<FrameView, ProtocolError>(frame),
{
    let hs = encode_headers(frame.headers);
    let h = wire::low32(hs.len());
    let p = wire::low32(frame.payload.len());
    law_headers_round_trip(frame.headers);
    wire::law_u32_round_trip(frame.stream_id, rest);
    wire::law_u32_round_trip(h, rest);
    wire::law_u32_round_trip(p, rest);
    lemma_decode_parts(
        seq![frame.version, frame.flags],
        wire::le32(frame.stream_id),
        wire::le32(h),
        wire::le32(p),
        hs,
        frame.payload,
        rest,
    );
}

/// A frame takes fourteen bytes more than its headers and its payload, and a header takes
/// four bytes more than its key and its value.
pub proof fn law_frame_overhead(frame: FrameView)
    ensures
        frame.encoded().len() == FRAME_HEADER_SIZE + headers_size(frame.headers)
            + frame.payload.len(),
{
    lemma_headers_size(frame.headers);
}

/// The bytes that a list of headers takes: four more than each key and value have.
pub open spec fn headers_size(headers: Seq<(Seq<u8>, Seq<u8>)>) -> nat
    decreases headers.len(),
{
    if headers.len() == 0 {
        0
    } else {
        2 + headers[0].0.len() + 2 + headers[0].1.len() + headers_size(headers.drop_first())
    }
}

proof fn lemma_headers_size(headers: Seq<(Seq<u8>, Seq<u8>)>)
    ensures
        encode_headers(headers).len() == headers_size(headers),
    decreases headers.len(),
{
    if headers.len() > 0 {
        lemma_headers_size(headers.drop_first());
    }
}

/// A header that is added is found under its key, unless one with that key was there
/// before: then the earlier one stays. Other keys are not affected.
pub proof fn law_header_lookup(
    headers: Seq<(Seq<u8>, Seq<u8>)>,
    key: Seq<u8>,
    value: Seq<u8>,
    other: Seq<u8>,
)
    ensures
        find_header(headers.push((key, value)), key) == match find_header(headers, key) {
            Some(earlier) => Some(earlier),
            None => Some(value),
        },
        other != key ==> find_header(headers.push((key, value)), other) == find_header(
            headers,
            other,
        ),
    decreases headers.len(),
{
    let more = headers.push((key, value));
    if headers.len() == 0 {
        assert(more.drop_first() =~= Seq::empty());
        assert(find_header(Seq::empty(), other) is None);
    } else {
        law_header_lookup(headers.drop_first(), key, value, other);
        assert(more.drop_first() =~= headers.drop_first().push((key, value)));
    }
}

/// A message decodes to itself after it was encoded, whatever bytes follow it, while its
/// payload length fits four bytes.
#[verifier::rlimit(40)]
#[verifier::spinoff_prover]
pub proof fn law_message_round_trip(message: MessageView, rest: Seq<u8>)
    requires
        message.payload.len() < 0x1_0000_0000,
    ensures
        decoded_message(message.encoded() + rest) == Ok::<MessageView, ProtocolError>(message),
{
    let p = wire::low32(message.payload.len());
    wire::law_u64_round_trip(message.request_id, rest);
    wire::law_u32_round_trip(p, rest);
    lemma_decode_message_parts(
        wire::le64(message.request_id),
        type_byte(message.msg_type),
        wire::le32(p),
        message.payload,
        rest,
    );
}

/// What is decoded of the parts of a message and what follows it.
proof fn lemma_decode_message_parts(
    id: Seq<u8>,
    type_code: u8,
    pl: Seq<u8>,
    payload: Seq<u8>,
    rest: Seq<u8>,
)
    requires
        id.len() == 8,
        pl.len() == 4,
        type_of_byte(type_code) is Some,
        wire::from_le32(pl) == payload.len(),
    ensures
        decoded_message((id + seq![type_code] + pl + payload) + rest) == Ok::<
            MessageView,
            ProtocolError,
        >(
            MessageView {
                request_id: wire::from_le64(id),
                msg_type: type_of_byte(type_code).unwrap(),
                payload,
            },
        ),
{
    let s = (id + seq![type_code] + pl + payload) + rest;
    let p = payload.len() as int;
    assert(s.take(4) =~= id.take(4));
    assert(s.skip(4).take(4) =~= id.skip(4));
    assert(id.skip(4).take(4) =~= id.skip(4));
    assert(s.skip(9).take(4) =~= pl);
    lemma_from_le32_front(s);
    lemma_from_le32_front(id);
    lemma_from_le32_front(s.skip(4));
    lemma_from_le32_front(s.skip(9));
    assert(s[8] == type_code);
    assert(s.subrange(13, 13 + p) =~= payload);
}

/// The frame for a message carries the message: its type word and its request id are
/// found under their headers, the payload is the same, and the flags mark an error frame
/// for an error, a control frame that ends the stream for a shutdown, and nothing else.
pub proof fn law_message_frame(msg: MessageView)
    ensures
        find_header(frame_of_message(msg).headers, encode_utf8(":type"@)) == Some(
            encode_utf8(type_word(msg.msg_type)),
        ),
        find_header(frame_of_message(msg).headers, encode_utf8("request-id"@)) == Some(
            wire::le64(msg.request_id),
        ),
        wire::from_le64(wire::le64(msg.request_id)) == msg.request_id,
        frame_of_message(msg).payload == msg.payload,
        (frame_of_message(msg).flags / 4 % 2 == 1) == (msg.msg_type is Error),
        (frame_of_message(msg).flags / 8 % 2 == 1) == (msg.msg_type is Shutdown),
        (frame_of_message(msg).flags % 2 == 1) == (msg.msg_type is Shutdown),
{
    let hs = frame_of_message(msg).headers;
    reveal_strlit(":type");
    reveal_strlit("request-id");
    text::law_utf8_round_trip(":type"@);
    text::law_utf8_round_trip("request-id"@);
    assert(":type"@.len() != "request-id"@.len());
    assert(find_header(hs, encode_utf8(":type"@)) == Some(hs[0].1));
    assert(encode_utf8(":type"@) != encode_utf8("request-id"@));
    assert(hs.drop_first()[0] == hs[1]);
    assert(find_header(hs.drop_first(), encode_utf8("request-id"@)) == Some(hs[1].1));
    wire::law_u64_round_trip(msg.request_id, Seq::empty());
    assert(wire::le64(msg.request_id) + Seq::empty() =~= wire::le64(msg.request_id));
}

// ─── What frames and messages are ────────────────────────────────────────────

/// What a frame and a message consist of are their fields.
pub proof fn law_fields(frame: Frame, message: Message, i: int)
    ensures
        frame@.version == frame.version,
        frame@.flags == frame.flags,
        frame@.stream_id == frame.stream_id,
        frame@.payload == frame.payload@,
        frame@.headers.len() == frame.headers@.len(),
        0 <= i < frame.headers@.len() ==> frame@.headers[i].0 == frame.headers@[i].0@
            && frame@.headers[i].1 == frame.headers@[i].1@,
        message@.request_id == message.request_id,
        message@.msg_type == message.msg_type,
        message@.payload == message.payload@,
{
}

/// The headers section on the wire: nothing for no headers, and for one more header the length
/// of its key in two bytes, the key, the length of its value in two bytes, and the value.
pub proof fn law_headers_on_the_wire(
    headers: Seq<(Seq<u8>, Seq<u8>)>,
    key: Seq<u8>,
    value: Seq<u8>,
)
    ensures
        encode_headers(Seq::empty()) == Seq::<u8>::empty(),
        encode_headers(headers.push((key, value))) == encode_headers(headers) + wire::le16(
            wire::low16(key.len()),
        ) + key + wire::le16(wire::low16(value.len())) + value,
{
    lemma_encode_headers_push(headers, (key, value));
    assert(encode_headers(headers) + encode_header(key, value) =~= encode_headers(headers)
        + wire::le16(wire::low16(key.len())) + key + wire::le16(wire::low16(value.len())) + value);
}

/// A frame on the wire: the version and the flags in a byte each, the stream id, the length of
/// the headers section and the length of the payload in four bytes each, the headers section,
/// and the payload.
pub proof fn law_frame_on_the_wire(frame: FrameView)
    ensures
        ({
            let bytes = frame.encoded();
            let hs = encode_headers(frame.headers);
            &&& bytes.len() == 14 + hs.len() + frame.payload.len()
            &&& bytes[0] == frame.version
            &&& bytes[1] == frame.flags
            &&& bytes.subrange(2, 6) == wire::le32(frame.stream_id)
            &&& bytes.subrange(6, 10) == wire::le32(wire::low32(hs.len()))
            &&& bytes.subrange(10, 14) == wire::le32(wire::low32(frame.payload.len()))
            &&& bytes.subrange(14, 14 + hs.len() as int) == hs
            &&& bytes.skip(14 + hs.len() as int) == frame.payload
        }),
{
    let hs = encode_headers(frame.headers);
    lemma_frame_parts(
        seq![frame.version, frame.flags],
        wire::le32(frame.stream_id),
        wire::le32(wire::low32(hs.len())),
        wire::le32(wire::low32(frame.payload.len())),
        hs,
        frame.payload,
    );
}

/// The parts of a frame in its bytes.
proof fn lemma_frame_parts(
    front: Seq<u8>,
    id: Seq<u8>,
    hl: Seq<u8>,
    pl: Seq<u8>,
    hs: Seq<u8>,
    payload: Seq<u8>,
)
    requires
        front.len() == 2,
        id.len() == 4,
        hl.len() == 4,
        pl.len() == 4,
    ensures
        ({
            let bytes = front + id + hl + pl + hs + payload;
            &&& bytes.len() == 14 + hs.len() + payload.len()
            &&& bytes[0] == front[0]
            &&& bytes[1] == front[1]
            &&& bytes.subrange(2, 6) == id
            &&& bytes.subrange(6, 10) == hl
            &&& bytes.subrange(10, 14) == pl
            &&& bytes.subrange(14, 14 + hs.len() as int) == hs
            &&& bytes.skip(14 + hs.len() as int) == payload
        }),
{
    let bytes = front + id + hl + pl + hs + payload;
    assert(bytes.subrange(2, 6) =~= id);
    assert(bytes.subrange(6, 10) =~= hl);
    assert(bytes.subrange(10, 14) =~= pl);
    assert(bytes.subrange(14, 14 + hs.len() as int) =~= hs);
    assert(bytes.skip(14 + hs.len() as int) =~= payload);
}

/// A headers section holds exactly the headers that it is the encoding of, up to three more
/// bytes at its end, and none if it is not the encoding of any.
pub proof fn law_headers_are_those_written(data: Seq<u8>, headers: Seq<(Seq<u8>, Seq<u8>)>, tail: Seq<u8>)
    ensures
        parse_headers(data) == Some(headers) ==> {
            &&& forall|i: int|
                0 <= i < headers.len() ==> (#[trigger] headers[i]).0.len() < 0x1_0000
                    && headers[i].1.len() < 0x1_0000
            &&& encode_headers(headers).len() <= data.len() < encode_headers(headers).len() + 4
            &&& data.take(encode_headers(headers).len() as int) == encode_headers(headers)
        },
        (tail.len() < 4 && forall|i: int|
            0 <= i < headers.len() ==> (#[trigger] headers[i]).0.len() < 0x1_0000
                && headers[i].1.len() < 0x1_0000) ==> parse_headers(encode_headers(headers) + tail)
            == Some(headers),
{
    if parse_headers(data) == Some(headers) {
        lemma_parsed_is_written(data, headers);
    }
    if tail.len() < 4 && (forall|i: int|
        0 <= i < headers.len() ==> (#[trigger] headers[i]).0.len() < 0x1_0000
            && headers[i].1.len() < 0x1_0000) {
        lemma_written_is_parsed(headers, tail);
    }
}

proof fn lemma_regrouped(a: Seq<u8>, b: Seq<u8>, c: Seq<u8>)
    ensures
        a + b + c == a + (b + c),
{
    assert(a + b + c =~= a + (b + c));
}

#[verifier::spinoff_prover]
proof fn lemma_written_is_parsed(headers: Seq<(Seq<u8>, Seq<u8>)>, tail: Seq<u8>)
    requires
        tail.len() < 4,
        forall|i: int|
            0 <= i < headers.len() ==> (#[trigger] headers[i]).0.len() < 0x1_0000
                && headers[i].1.len() < 0x1_0000,
    ensures
        parse_headers(encode_headers(headers) + tail) == Some(headers),
    decreases headers.len(),
{
    if headers.len() > 0 {
        let (key, value) = headers[0];
        let others = headers.drop_first();
        assert forall|i: int| 0 <= i < others.len() implies (#[trigger] others[i]).0.len()
            < 0x1_0000 && others[i].1.len() < 0x1_0000 by {
            assert(others[i] == headers[i + 1]);
        }
        lemma_written_is_parsed(others, tail);
        lemma_parse_one(key, value, encode_headers(others) + tail);
        assert(encode_headers(headers) == encode_header(key, value) + encode_headers(others));
        lemma_regrouped(encode_header(key, value), encode_headers(others), tail);
        assert(seq![(key, value)] + others =~= headers);
    } else {
        assert(encode_headers(headers) + tail =~= tail);
        assert(headers =~= Seq::empty());
    }
}

proof fn lemma_parsed_is_written(data: Seq<u8>, headers: Seq<(Seq<u8>, Seq<u8>)>)
    requires
        parse_headers(data) == Some(headers),
    ensures
        forall|i: int|
            0 <= i < headers.len() ==> (#[trigger] headers[i]).0.len() < 0x1_0000
                && headers[i].1.len() < 0x1_0000,
        encode_headers(headers).len() <= data.len() < encode_headers(headers).len() + 4,
        data.take(encode_headers(headers).len() as int) == encode_headers(headers),
    decreases data.len(),
{
    if data.len() < 4 {
        assert(headers =~= Seq::empty());
        assert(data.take(0) =~= Seq::empty());
    } else {
        let k = wire::from_le16(data) as int;
        let v = wire::from_le16(data.skip(2 + k)) as int;
        let rest = data.skip(4 + k + v);
        let others = parse_headers(rest).unwrap();
        let key = data.subrange(2, 2 + k);
        let value = data.subrange(4 + k, 4 + k + v);
        assert(headers == seq![(key, value)] + others);
        lemma_parsed_is_written(rest, others);
        assert(headers.drop_first() =~= others);
        assert forall|i: int| 0 <= i < headers.len() implies (#[trigger] headers[i]).0.len()
            < 0x1_0000 && headers[i].1.len() < 0x1_0000 by {
            if i > 0 {
                assert(headers[i] == others[i - 1]);
            }
        }
        lemma_le16_of(data);
        lemma_le16_of(data.skip(2 + k));
        wire::law_length_fields(key.len());
        wire::law_length_fields(value.len());
        lemma_header_parts(data, key, value, wire::le16(k as u16), wire::le16(v as u16));
        let n = encode_headers(others).len() as int;
        assert(encode_headers(headers) == encode_header(key, value) + encode_headers(others));
        assert(data.take(4 + k + v + n) =~= data.take(4 + k + v) + rest.take(n));
    }
}

/// The bytes of the number that two bytes denote are those two.
proof fn lemma_le16_of(bytes: Seq<u8>)
    requires
        bytes.len() >= 2,
    ensures
        wire::le16(wire::from_le16(bytes)) == bytes.take(2),
{
    let (a, b) = (bytes[0] as int, bytes[1] as int);
    let n = wire::from_le16(bytes) as int;
    assert(n == a + 256 * b);
    assert(n % 256 == a && n / 256 == b);
    assert(wire::le16(n as u16) =~= bytes.take(2));
}

/// The front of a headers section is its parts in order.
proof fn lemma_header_parts(
    data: Seq<u8>,
    key: Seq<u8>,
    value: Seq<u8>,
    kl: Seq<u8>,
    vl: Seq<u8>,
)
    requires
        data.len() >= 4 + key.len() + value.len(),
        kl == data.take(2),
        key == data.subrange(2, 2 + key.len() as int),
        vl == data.skip(2 + key.len() as int).take(2),
        value == data.subrange(4 + key.len() as int, 4 + key.len() as int + value.len() as int),
    ensures
        data.take(4 + key.len() as int + value.len() as int) == kl + key + vl + value,
{
    assert(data.take(4 + key.len() as int + value.len() as int) =~= kl + key + vl + value);
}

/// When bytes are a frame, and which: there are fourteen bytes, the first is the version in use,
/// what the two length fields announce is there, and the headers section is one. The fields of
/// the frame are then what stands in their places.
pub proof fn law_frame_of_bytes(data: Seq<u8>)
    ensures
        ({
            let h = data[6] + 0x100 * data[7] + 0x1_0000 * data[8] + 0x100_0000 * data[9];
            let p = data[10] + 0x100 * data[11] + 0x1_0000 * data[12] + 0x100_0000 * data[13];
            let id = data[2] + 0x100 * data[3] + 0x1_0000 * data[4] + 0x100_0000 * data[5];
            &&& data.len() < 14 ==> decoded_frame(data) == Err::<FrameView, ProtocolError>(
                ProtocolError::TooShort { need: 14, have: data.len() as usize },
            )
            &&& data.len() >= 14 && data[0] != 1 ==> decoded_frame(data) == Err::<
                FrameView,
                ProtocolError,
            >(ProtocolError::UnsupportedVersion(data[0]))
            &&& data.len() >= 14 && data[0] == 1 && data.len() < 14 + h + p ==> {
                &&& decoded_frame(data) matches Err(ProtocolError::TooShort { need, have })
                &&& have == data.len() as usize
                &&& 14 + h + p <= usize::MAX ==> need == 14 + h + p
                &&& 14 + h + p > usize::MAX ==> need == usize::MAX
            }
            &&& data.len() >= 14 + h + p && data[0] == 1 ==> match parse_headers(
                data.subrange(14, 14 + h),
            ) {
                None => decoded_frame(data) == Err::<FrameView, ProtocolError>(
                    ProtocolError::HeaderTruncated,
                ),
                Some(headers) => {
                    &&& decoded_frame(data) matches Ok(frame)
                    &&& frame.version == 1
                    &&& frame.flags == data[1]
                    &&& frame.stream_id == id
                    &&& frame.headers == headers
                    &&& frame.payload == data.subrange(14 + h, 14 + h + p)
                },
            }
        }),
{
    if data.len() >= 14 {
        wire::law_four_bytes(0, data.skip(2));
        wire::law_four_bytes(0, data.skip(6));
        wire::law_four_bytes(0, data.skip(10));
    }
}

/// The bytes for the types of message, each of which stands for its type, and no other byte
/// for any.
pub proof fn law_type_bytes(msg_type: MessageType, byte: u8)
    ensures
        type_byte(MessageType::Request) == 1,
        type_byte(MessageType::Response) == 2,
        type_byte(MessageType::Error) == 3,
        type_byte(MessageType::Shutdown) == 255,
        type_of_byte(byte) == Some(msg_type) <==> type_byte(msg_type) == byte,
        type_of_byte(byte) is None <==> byte == 0 || 4 <= byte <= 254,
{
}

/// A message on the wire: the id in eight bytes, the byte for the type, the length of the
/// payload in four bytes, and the payload.
#[verifier::rlimit(40)]
#[verifier::spinoff_prover]
pub proof fn law_message_on_the_wire(message: MessageView)
    ensures
        ({
            let bytes = message.encoded();
            &&& bytes.len() == 13 + message.payload.len()
            &&& bytes.take(8) == wire::le64(message.request_id)
            &&& bytes[8] == type_byte(message.msg_type)
            &&& bytes.subrange(9, 13) == wire::le32(wire::low32(message.payload.len()))
            &&& bytes.skip(13) == message.payload
        }),
{
    lemma_message_parts(
        wire::le64(message.request_id),
        type_byte(message.msg_type),
        wire::le32(wire::low32(message.payload.len())),
        message.payload,
    );
}

proof fn lemma_message_parts(id: Seq<u8>, type_code: u8, pl: Seq<u8>, payload: Seq<u8>)
    requires
        id.len() == 8,
        pl.len() == 4,
    ensures
        ({
            let bytes = id + seq![type_code] + pl + payload;
            &&& bytes.len() == 13 + payload.len()
            &&& bytes.take(8) == id
            &&& bytes[8] == type_code
            &&& bytes.subrange(9, 13) == pl
            &&& bytes.skip(13) == payload
        }),
{
    let bytes = id + seq![type_code] + pl + payload;
    assert(bytes.take(8) =~= id);
    assert(bytes.subrange(9, 13) =~= pl);
    assert(bytes.skip(13) =~= payload);
}

/// When bytes are a message, and which: there are thirteen bytes, what the length field announces
/// is there, and the ninth byte stands for a type.
pub proof fn law_message_of_bytes(data: Seq<u8>)
    ensures
        ({
            let p = data[9] + 0x100 * data[10] + 0x1_0000 * data[11] + 0x100_0000 * data[12];
            &&& data.len() < 13 ==> decoded_message(data) == Err::<MessageView, ProtocolError>(
                ProtocolError::TooShort { need: 13, have: data.len() as usize },
            )
            &&& 13 <= data.len() < 13 + p ==> {
                &&& decoded_message(data) matches Err(ProtocolError::TooShort { need, have })
                &&& have == data.len() as usize
                &&& 13 + p <= usize::MAX ==> need == 13 + p
                &&& 13 + p > usize::MAX ==> need == usize::MAX
            }
            &&& data.len() >= 13 + p ==> if data[8] == 0 || 4 <= data[8] <= 254 {
                decoded_message(data) == Err::<MessageView, ProtocolError>(
                    ProtocolError::UnknownType(data[8]),
                )
            } else {
                &&& decoded_message(data) matches Ok(message)
                &&& message.payload == data.subrange(13, 13 + p)
                &&& message.msg_type is Request <==> data[8] == 1
                &&& message.msg_type is Response <==> data[8] == 2
                &&& message.msg_type is Error <==> data[8] == 3
                &&& message.msg_type is Shutdown <==> data[8] == 255
                &&& message.request_id == data[0] + 0x100 * data[1] + 0x1_0000 * data[2]
                    + 0x100_0000 * data[3] + 0x1_0000_0000 * data[4] + 0x100_0000_0000 * data[5]
                    + 0x1_0000_0000_0000 * data[6] + 0x100_0000_0000_0000 * data[7]
            }
        }),
{
    if data.len() >= 13 {
        wire::law_four_bytes(0, data.skip(9));
        wire::law_eight_bytes(0, data);
    }
}

/// Looking a header up: none among no headers, and the value of the first header if that has the
/// key, what the others give otherwise.
pub proof fn law_header_search(
    headers: Seq<(Seq<u8>, Seq<u8>)>,
    first: Seq<u8>,
    value: Seq<u8>,
    key: Seq<u8>,
)
    ensures
        find_header(Seq::empty(), key) is None,
        find_header(seq![(first, value)] + headers, key) == if first == key {
            Some(value)
        } else {
            find_header(headers, key)
        },
{
    let all = seq![(first, value)] + headers;
    assert(all.drop_first() =~= headers);
}

/// The frame for a message, written out: the word for its type and its id in eight bytes as
/// headers, and its payload.
pub proof fn law_frame_for_message(msg: MessageView)
    ensures
        ({
            let frame = frame_of_message(msg);
            let word = match msg.msg_type {
                MessageType::Request => "request"@,
                MessageType::Response => "response"@,
                MessageType::Error => "error"@,
                MessageType::Shutdown => "shutdown"@,
            };
            &&& frame.version == 1
            &&& frame.stream_id == 0
            &&& frame.payload == msg.payload
            &&& frame.headers == seq![
                (encode_utf8(":type"@), encode_utf8(word)),
                (encode_utf8("request-id"@), wire::le64(msg.request_id)),
            ]
            &&& frame.flags == match msg.msg_type {
                MessageType::Shutdown => 9u8,
                MessageType::Error => 4u8,
                _ => 0u8,
            }
        }),
{
}

/// The words for each error, with the numbers that it is about in decimal notation.
pub proof fn law_error_words(need: usize, have: usize, byte: u8, reason: String)
    ensures
        error_text(ProtocolError::TooShort { need, have }) == "message too short: need "@
            + text::decimal(need as nat) + " bytes, have "@ + text::decimal(have as nat),
        error_text(ProtocolError::UnknownType(byte)) == "unknown message type: "@ + text::decimal(
            byte as nat,
        ),
        error_text(ProtocolError::UnsupportedVersion(byte)) == "unsupported frame version: "@
            + text::decimal(byte as nat),
        error_text(ProtocolError::HeaderTruncated) == "header section truncated"@,
        error_text(ProtocolError::Decode(reason)) == "decode error: "@ + reason@,
{
}

/// A frame survives the wire exactly if its version is the one in use and each length fits
/// its field.
pub proof fn law_transmissible_frames(frame: FrameView)
    ensures
        frame.transmissible() <==> {
            &&& frame.version == 1
            &&& frame.payload.len() < 0x1_0000_0000
            &&& encode_headers(frame.headers).len() < 0x1_0000_0000
            &&& forall|i: int|
                0 <= i < frame.headers.len() ==> (#[trigger] frame.headers[i]).0.len() < 0x1_0000
                    && frame.headers[i].1.len() < 0x1_0000
        },
{
}

// ─── What the operations do ──────────────────────────────────────────────────

/// Sizes, versions and flags on the wire.
pub proof fn law_wire_numbers()
    ensures
        FRAME_VERSION == 1,
        FRAME_HEADER_SIZE == 14,
        MESSAGE_HEADER_SIZE == 13,
        flags::END_STREAM == 1,
        flags::COMPRESSED == 2,
        flags::ERROR == 4,
        flags::CONTROL == 8,
{
}

/// A message that was encoded is decoded unchanged, whatever follows it, while its payload is
/// shorter than 2^32 bytes.
pub proof fn law_message_decodes(
    message: Message,
    bytes: Vec<u8>,
    data: &[u8],
    rest: Seq<u8>,
    result: Result<Message, ProtocolError>,
)
    requires
        call_ensures(Message::encode, (&message,), bytes),
        call_ensures(Message::decode, (data,), result),
        data@ == bytes@ + rest,
        message.payload@.len() < 0x1_0000_0000,
    ensures
        bytes@.len() == 13 + message.payload@.len(),
        result matches Ok(m) && m.request_id == message.request_id && m.msg_type
            == message.msg_type && m.payload@ == message.payload@,
{
    law_message_round_trip(message@, rest);
    law_message_on_the_wire(message@);
}

/// A frame that was encoded is decoded unchanged, whatever follows it, while its version is the one
/// in use and its lengths fit their fields.
pub proof fn law_frame_decodes(
    frame: Frame,
    bytes: Vec<u8>,
    data: &[u8],
    rest: Seq<u8>,
    result: Result<Frame, ProtocolError>,
    i: int,
)
    requires
        call_ensures(Frame::encode, (&frame,), bytes),
        call_ensures(Frame::decode, (data,), result),
        data@ == bytes@ + rest,
        frame@.transmissible(),
    ensures
        result matches Ok(f) && {
            &&& f.version == frame.version
            &&& f.flags == frame.flags
            &&& f.stream_id == frame.stream_id
            &&& f.payload@ == frame.payload@
            &&& f.headers@.len() == frame.headers@.len()
            &&& 0 <= i < frame.headers@.len() ==> f.headers@[i].0@ == frame.headers@[i].0@
                && f.headers@[i].1@ == frame.headers@[i].1@
        },
{
    law_frame_round_trip(frame@, rest);
    let f = result->Ok_0;
    let hs = headers_view(frame.headers@);
    let found = headers_view(f.headers@);
    assert(found == hs);
    assert(hs.len() == frame.headers@.len());
    assert(found.len() == f.headers@.len());
    if 0 <= i < frame.headers@.len() {
        assert(hs[i] == found[i]);
    }
}

/// A new frame has the version in use, its stream id and nothing else; setting a part of a frame
/// leaves the other parts as they are.
pub proof fn law_frame_parts(
    stream_id: u32,
    new: Frame,
    frame: Frame,
    data: Vec<u8>,
    bits: u8,
    key: &str,
    value: &str,
    with_payload: Frame,
    with_flags: Frame,
    with_header: Frame,
)
    requires
        call_ensures(Frame::new, (stream_id,), new),
        call_ensures(Frame::payload, (frame, data), with_payload),
        call_ensures(Frame::flags, (frame, bits), with_flags),
        call_ensures(Frame::header_str, (frame, key, value), with_header),
    ensures
        new@ == (FrameView {
            version: 1,
            flags: 0,
            stream_id,
            headers: Seq::empty(),
            payload: Seq::empty(),
        }),
        with_payload@ == (FrameView {
            version: frame.version,
            flags: frame.flags,
            stream_id: frame.stream_id,
            headers: frame@.headers,
            payload: data@,
        }),
        with_flags@ == (FrameView {
            version: frame.version,
            flags: bits,
            stream_id: frame.stream_id,
            headers: frame@.headers,
            payload: frame.payload@,
        }),
        with_header@ == (FrameView {
            version: frame.version,
            flags: frame.flags,
            stream_id: frame.stream_id,
            headers: frame@.headers.push((encode_utf8(key@), encode_utf8(value@))),
            payload: frame.payload@,
        }),
{
}

/// The flags of a frame are read bit by bit: the lowest ends the stream, the third marks an error
/// and the fourth a control frame.
pub proof fn law_frame_flags(frame: Frame, end: bool, error: bool, control: bool)
    requires
        call_ensures(Frame::is_end_stream, (&frame,), end),
        call_ensures(Frame::is_error, (&frame,), error),
        call_ensures(Frame::is_control, (&frame,), control),
    ensures
        end <==> frame.flags & flags::END_STREAM != 0,
        error <==> frame.flags & flags::ERROR != 0,
        control <==> frame.flags & flags::CONTROL != 0,
{
    let f = frame.flags;
    assert((f & 0x01u8 != 0) == (f % 2 == 1)) by (bit_vector);
    assert((f & 0x04u8 != 0) == (f / 4 % 2 == 1)) by (bit_vector);
    assert((f & 0x08u8 != 0) == (f / 8 % 2 == 1)) by (bit_vector);
}

/// Looking up a header gives the value of the first header with the key, and nothing if there is
/// none.
pub proof fn law_get_header(frame: Frame, key: &[u8], found: Option<&[u8]>, i: int)
    requires
        call_ensures(Frame::get_header, (&frame, key), found),
    ensures
        found is None ==> 0 <= i < frame.headers@.len() ==> frame.headers@[i].0@ != key@,
        0 <= i < frame.headers@.len() && frame.headers@[i].0@ == key@ && (forall|j: int|
            0 <= j < i ==> (#[trigger] frame.headers@[j]).0@ != key@) ==> (found matches Some(v)
            && v@ == frame.headers@[i].1@),
{
    let hs = frame@.headers;
    lemma_found_header(hs, key@, i);
    if 0 <= i < frame.headers@.len() {
        assert(hs[i] == (frame.headers@[i].0@, frame.headers@[i].1@));
        assert forall|j: int| 0 <= j < i && frame.headers@[j].0@ != key@ implies (
        #[trigger] hs[j]).0 != key@ by {}
        if forall|j: int| 0 <= j < i ==> (#[trigger] frame.headers@[j]).0@ != key@ {
            assert forall|j: int| 0 <= j < i implies (#[trigger] hs[j]).0 != key@ by {
                assert(frame.headers@[j].0@ != key@);
            }
        }
    }
}

proof fn lemma_found_header(headers: Seq<(Seq<u8>, Seq<u8>)>, key: Seq<u8>, i: int)
    ensures
        find_header(headers, key) is None && 0 <= i < headers.len() ==> headers[i].0 != key,
        0 <= i < headers.len() && headers[i].0 == key && (forall|j: int|
            0 <= j < i ==> (#[trigger] headers[j]).0 != key) ==> find_header(headers, key) == Some(
            headers[i].1,
        ),
    decreases headers.len(),
{
    if headers.len() > 0 {
        let rest = headers.drop_first();
        lemma_found_header(rest, key, i - 1);
        if 0 < i < headers.len() {
            assert(rest[i - 1] == headers[i]);
            if forall|j: int| 0 <= j < i ==> (#[trigger] headers[j]).0 != key {
                assert(headers[0].0 != key);
                assert forall|j: int| 0 <= j < i - 1 implies (#[trigger] rest[j]).0 != key by {
                    assert(headers[j + 1].0 != key);
                }
            }
        }
    }
}

/// Messages have the id, the type and the payload that they are made with.
pub proof fn law_messages(
    id: u64,
    payload: Vec<u8>,
    words: &str,
    request: Message,
    response: Message,
    error: Message,
    shutdown: Message,
)
    requires
        call_ensures(Message::request, (id, payload), request),
        call_ensures(Message::response, (id, payload), response),
        call_ensures(Message::error, (id, words), error),
        call_ensures(Message::shutdown, (), shutdown),
    ensures
        request.request_id == id && request.msg_type is Request && request.payload@ == payload@,
        response.request_id == id && response.msg_type is Response && response.payload@
            == payload@,
        error.request_id == id && error.msg_type is Error && error.payload@ == encode_utf8(words@),
        shutdown.request_id == 0 && shutdown.msg_type is Shutdown && shutdown.payload@.len() == 0,
{
}

/// Looking up a header as text gives the text that its bytes encode.
pub proof fn law_get_header_str(
    frame: Frame,
    key: &str,
    bytes: &[u8],
    found: Option<&[u8]>,
    value: Option<&str>,
    t: Seq<char>,
)
    requires
        call_ensures(Frame::get_header_str, (&frame, key), value),
        call_ensures(Frame::get_header, (&frame, bytes), found),
        bytes@ == encode_utf8(key@),
    ensures
        found is None ==> value is None,
        found matches Some(v) ==> v@ == encode_utf8(t) ==> (value matches Some(s) && s@ == t),
        found matches Some(v) ==> !valid_utf8(v@) ==> value is None,
{
    text::law_utf8_round_trip(t);
}

/// The size of a frame is the length of its encoding: fourteen bytes, four for each header beside
/// its key and its value, and the payload.
pub proof fn law_encoded_size(frame: Frame, size: usize, bytes: Vec<u8>)
    requires
        call_ensures(Frame::encoded_size, (&frame,), size),
        call_ensures(Frame::encode, (&frame,), bytes),
    ensures
        size == bytes@.len(),
        size == 14 + headers_size(frame@.headers) + frame.payload@.len(),
{
    law_frame_overhead(frame@);
}

/// A message that became a frame keeps its payload, and the frame says its type and its id; the
/// frame for an error is marked as one, and the frame for a shutdown as control and as the last.
pub proof fn law_frame_from_message(
    msg: Message,
    frame: Frame,
    end: bool,
    error: bool,
    control: bool,
)
    requires
        call_ensures(<Frame as From<Message>>::from, (msg,), frame),
        call_ensures(Frame::is_end_stream, (&frame,), end),
        call_ensures(Frame::is_error, (&frame,), error),
        call_ensures(Frame::is_control, (&frame,), control),
    ensures
        frame.version == 1,
        frame.stream_id == 0,
        frame.payload@ == msg.payload@,
        error <==> msg.msg_type is Error,
        end <==> msg.msg_type is Shutdown,
        control <==> msg.msg_type is Shutdown,
        frame@.headers.len() == 2,
        frame@.headers[0].0 == encode_utf8(":type"@),
        msg.msg_type is Request ==> frame@.headers[0].1 == encode_utf8("request"@),
        msg.msg_type is Response ==> frame@.headers[0].1 == encode_utf8("response"@),
        msg.msg_type is Error ==> frame@.headers[0].1 == encode_utf8("error"@),
        msg.msg_type is Shutdown ==> frame@.headers[0].1 == encode_utf8("shutdown"@),
        frame@.headers[1].0 == encode_utf8("request-id"@),
        frame@.headers[1].1.len() == 8,
        wire::from_le64(frame@.headers[1].1) == msg.request_id,
{
    law_frame_for_message(msg@);
    wire::law_u64_round_trip(msg.request_id, Seq::empty());
}

/// Each protocol error in words.
pub proof fn law_protocol_messages(error: ProtocolError, words: String)
    requires
        call_ensures(ProtocolError::message, (&error,), words),
    ensures
        error matches ProtocolError::TooShort { need, have } ==> words@
            == "message too short: need "@ + text::decimal(need as nat) + " bytes, have "@
            + text::decimal(have as nat),
        error matches ProtocolError::UnknownType(byte) ==> words@ == "unknown message type: "@
            + text::decimal(byte as nat),
        error matches ProtocolError::UnsupportedVersion(version) ==> words@
            == "unsupported frame version: "@ + text::decimal(version as nat),
        error is HeaderTruncated ==> words@ == "header section truncated"@,
        error matches ProtocolError::Decode(reason) ==> words@ == "decode error: "@ + reason@,
{
}

/// A result of decoding is the one that is expected if it consists of the same, or is the same error.
pub proof fn law_results(
    frame: Frame,
    frame_view: FrameView,
    message: Message,
    message_view: MessageView,
    e: ProtocolError,
    f: ProtocolError,
)
    ensures
        frame_result(Ok(frame), Ok(frame_view)) <==> frame@ == frame_view,
        frame_result(Err(e), Err(f)) <==> e == f,
        !frame_result(Ok(frame), Err(f)),
        !frame_result(Err(e), Ok(frame_view)),
        message_result(Ok(message), Ok(message_view)) <==> message@ == message_view,
        message_result(Err(e), Err(f)) <==> e == f,
        !message_result(Ok(message), Err(f)),
        !message_result(Err(e), Ok(message_view)),
{
}

/// Bytes that are no message are refused with the reason: too few for the front of a message or for
/// its payload, or a type that there is not.
pub proof fn law_message_is_refused(data: &[u8], result: Result<Message, ProtocolError>)
    requires
        call_ensures(Message::decode, (data,), result),
    ensures
        data@.len() < 13 ==> result == Err::<Message, ProtocolError>(
            ProtocolError::TooShort { need: 13, have: data@.len() as usize },
        ),
        data@.len() >= 13 && data@.len() < 13 + wire::from_le32(data@.skip(9)) ==> (
        result matches Err(ProtocolError::TooShort { need, have }) && have == data@.len()),
        data@.len() >= 13 && data@.len() >= 13 + wire::from_le32(data@.skip(9)) && data@[8] != 1
            && data@[8] != 2 && data@[8] != 3 && data@[8] != 255 ==> result == Err::<
            Message,
            ProtocolError,
        >(ProtocolError::UnknownType(data@[8])),
{
    assert(data@.len() == data.len());
}

/// Bytes that are no frame are refused with the reason: too few for the front of a frame or for the
/// rest of it, or a version that is not in use.
pub proof fn law_frame_is_refused(data: &[u8], result: Result<Frame, ProtocolError>)
    requires
        call_ensures(Frame::decode, (data,), result),
    ensures
        data@.len() < 14 ==> result == Err::<Frame, ProtocolError>(
            ProtocolError::TooShort { need: 14, have: data@.len() as usize },
        ),
        data@.len() >= 14 && data@[0] != 1 ==> result == Err::<Frame, ProtocolError>(
            ProtocolError::UnsupportedVersion(data@[0]),
        ),
        data@.len() >= 14 && data@[0] == 1 && data@.len() < 14 + wire::from_le32(data@.skip(6))
            + wire::from_le32(data@.skip(10)) ==> (result matches Err(
            ProtocolError::TooShort { need, have },
        ) && have == data@.len()),
{
    assert(data@.len() == data.len());
}

} // verus!
