//! Big-endian Kafka wire primitives: frames, headers, strings, bytes, and the
//! compact encodings of the flexible API versions.

use bytes::{Bytes, BytesMut};
use vstd::prelude::*;
use vstd::utf8::*;

use crate::buffer::{
    advance, buf_len, buf_slice, buf_split_to, bytes_slice, freeze, get_i16, get_i32, get_u8,
    new_buf, put_i16, put_i32, put_slice, put_u16, put_u32, put_u8, remaining, take_bytes, Contents,
};
use crate::error::{protocol, Error, Result};
use crate::text;
use crate::wire;
use crate::wire::{Out, Parsed, Src};

verus! {

/// Appends a length field of two bytes, of which the low-order bits are kept.
pub(crate) fn put_len16(dst: &mut BytesMut, n: usize)
    ensures
        final(dst)@ == old(dst)@.i16(n as int),
{
    put_u16(dst, (n % 65536) as u16);
    proof {
        wire::lemma_be_mod16(n as int);
    }
}

/// Appends a length field of four bytes, of which the low-order bits are kept.
pub(crate) fn put_len32(dst: &mut BytesMut, n: usize)
    ensures
        final(dst)@ == old(dst)@.i32(n as int),
{
    put_u32(dst, (n as u64 % 0x1_0000_0000) as u32);
    proof {
        wire::lemma_be_mod32(n as int);
    }
}

/// Write a non-null Kafka string (two bytes of length and the UTF-8 bytes).
pub fn put_string(dst: &mut BytesMut, s: &str)
    ensures
        final(dst)@ == old(dst)@.string(s@),
{
    let b = s.as_bytes();
    put_len16(dst, b.len());
    put_slice(dst, b);
}

/// Write a nullable Kafka string (`-1` length for null).
pub fn put_nullable_string(dst: &mut BytesMut, s: Option<&str>)
    ensures
        final(dst)@ == old(dst)@.nullable(s.deep_view()),
{
    match s {
        None => put_i16(dst, -1),
        Some(v) => put_string(dst, v),
    }
}

/// Reads the next `n` bytes as UTF-8; `what` begins the text of the error.
fn take_utf8(src: &mut Bytes, n: usize, what: &str) -> (r: Result<String>)
    requires
        n <= old(src)@.left(),
    ensures
        crate::error::agrees(r, old(src)@.utf8(n as int, what@).value),
        final(src)@ == old(src)@.utf8(n as int, what@).rest,
{
    let b = take_bytes(src, n);
    match text::string_from_utf8(b) {
        Ok(s) => Ok(s),
        Err(t) => Err(Error::Protocol(text::concat(what, t.as_str()))),
    }
}

/// Read a non-null Kafka string.
pub fn get_string(src: &mut Bytes) -> (r: Result<String>)
    ensures
        crate::error::agrees(r, old(src)@.string().value),
        final(src)@ == old(src)@.string().rest,
{
    if remaining(src) < 2 {
        return Err(protocol("truncated kafka string len"));
    }
    let len: i16 = get_i16(src);
    if len < 0 {
        return Err(protocol("unexpected null kafka string"));
    }
    let len: usize = len as usize;
    if remaining(src) < len {
        return Err(protocol("truncated kafka string body"));
    }
    take_utf8(src, len, "kafka string utf8: ")
}

/// Read a nullable Kafka string.
pub fn get_nullable_string(src: &mut Bytes) -> (r: Result<Option<String>>)
    ensures
        crate::error::agrees(r, old(src)@.nullable().value),
        final(src)@ == old(src)@.nullable().rest,
{
    if remaining(src) < 2 {
        return Err(protocol("truncated kafka nullable string len"));
    }
    let len: i16 = get_i16(src);
    if len < 0 {
        return Ok(None);
    }
    let len: usize = len as usize;
    if remaining(src) < len {
        return Err(protocol("truncated kafka nullable string body"));
    }
    match take_utf8(src, len, "kafka string utf8: ") {
        Ok(s) => Ok(Some(s)),
        Err(e) => Err(e),
    }
}

/// What a nullable byte field that was read holds.
pub open spec fn blob_view(b: Option<Bytes>) -> Option<Seq<u8>> {
    match b {
        None => None,
        Some(v) => Some(v@.bytes),
    }
}

/// The outcome `r` of reading a nullable byte field is the one that `want` describes.
pub open spec fn blob_agrees(
    r: Result<Option<Bytes>>,
    want: core::result::Result<Option<Seq<u8>>, Seq<char>>,
) -> bool {
    match (r, want) {
        (Ok(v), Ok(w)) => blob_view(v) == w,
        (Err(e), Err(m)) => e.is_protocol(m),
        _ => false,
    }
}

/// Read nullable Kafka bytes (four bytes of length; `-1` = null).
pub fn get_bytes(src: &mut Bytes) -> (r: Result<Option<Bytes>>)
    ensures
        blob_agrees(r, old(src)@.blob().value),
        final(src)@ == old(src)@.blob().rest,
{
    if remaining(src) < 4 {
        return Err(protocol("truncated kafka bytes len"));
    }
    let len: i32 = get_i32(src);
    if len < 0 {
        return Ok(None);
    }
    let len: usize = len as usize;
    if remaining(src) < len {
        return Err(protocol("truncated kafka bytes body"));
    }
    Ok(Some(take_bytes(src, len)))
}

/// Write nullable Kafka bytes.
pub fn put_bytes(dst: &mut BytesMut, b: Option<&[u8]>)
    ensures
        final(dst)@ == old(dst)@.blob(match b {
            None => None,
            Some(v) => Some(v@),
        }),
{
    match b {
        None => put_i32(dst, -1),
        Some(v) => {
            put_len32(dst, v.len());
            put_slice(dst, v);
        },
    }
}

fn read_uvarint_upto(src: &mut Bytes, most: u8) -> (r: Result<u64>)
    requires
        1 <= most <= 5,
    ensures
        match (r, wire::uvarint_at(old(src)@, most as nat).value) {
            (Ok(v), Ok(w)) => v == w && v < (if most == 1 {
                0x80int
            } else if most == 2 {
                0x4000
            } else if most == 3 {
                0x20_0000
            } else if most == 4 {
                0x1000_0000
            } else {
                0x8_0000_0000
            }),
            (Err(e), Err(m)) => e.is_protocol(m),
            _ => false,
        },
        final(src)@ == wire::uvarint_at(old(src)@, most as nat).rest,
    decreases most,
{
    if remaining(src) < 1 {
        return Err(protocol("truncated unsigned varint"));
    }
    let b: u8 = get_u8(src);
    if b < 128 {
        return Ok(b as u64);
    }
    if most == 1 {
        return Err(protocol("unsigned varint too long"));
    }
    match read_uvarint_upto(src, most - 1) {
        Ok(v) => Ok((b - 128) as u64 + 128 * v),
        Err(e) => Err(e),
    }
}

/// Read an unsigned varint (seven bits to the byte, no zig-zag).
pub fn read_unsigned_varint(src: &mut Bytes) -> (r: Result<u32>)
    ensures
        match (r, old(src)@.uvarint().value) {
            (Ok(v), Ok(w)) => v == w,
            (Err(e), Err(m)) => e.is_protocol(m),
            _ => false,
        },
        final(src)@ == old(src)@.uvarint().rest,
{
    match read_uvarint_upto(src, 5) {
        Ok(v) => Ok((v % 0x1_0000_0000) as u32),
        Err(e) => Err(e),
    }
}

/// Write an unsigned varint.
pub fn put_unsigned_varint(dst: &mut BytesMut, value: u32)
    ensures
        final(dst)@ == old(dst)@.uvarint(value as nat),
    decreases value,
{
    let ghost start = dst@.bytes;
    if value < 128 {
        put_u8(dst, value as u8);
        proof {
            wire::lemma_be_byte(value as int);
        }
    } else {
        put_u8(dst, (value % 128 + 128) as u8);
        proof {
            wire::lemma_be_byte((value % 128 + 128) as int);
        }
        put_unsigned_varint(dst, value / 128);
        assert(dst@.bytes =~= start + wire::uvarint(value as nat));
    }
}

fn read_varint_upto(src: &mut Bytes, most: u8) -> (r: Result<u64>)
    requires
        most <= 5,
    ensures
        match (r, wire::varint_at(old(src)@, most as nat).value) {
            (Ok(v), Ok(w)) => v == w && v < (if most <= 1 {
                0x80int
            } else if most == 2 {
                0x4000
            } else if most == 3 {
                0x20_0000
            } else if most == 4 {
                0x1000_0000
            } else {
                0x8_0000_0000
            }),
            (Err(e), Err(m)) => e.is_protocol(m),
            _ => false,
        },
        final(src)@ == wire::varint_at(old(src)@, most as nat).rest,
    decreases most,
{
    if remaining(src) < 1 {
        return Err(protocol("truncated varint"));
    }
    let b: u8 = get_u8(src);
    if most == 0 {
        return Err(protocol("varint too long"));
    }
    if b < 128 {
        return Ok(b as u64);
    }
    match read_varint_upto(src, most - 1) {
        Ok(v) => Ok((b - 128) as u64 + 128 * v),
        Err(e) => Err(e),
    }
}

/// Read a zig-zag varint: a signed number of 32 bits.
pub fn read_varint(src: &mut Bytes) -> (r: Result<i32>)
    ensures
        match (r, old(src)@.varint().value) {
            (Ok(v), Ok(w)) => v == w,
            (Err(e), Err(m)) => e.is_protocol(m),
            _ => false,
        },
        final(src)@ == old(src)@.varint().rest,
{
    match read_varint_upto(src, 5) {
        Ok(v) => {
            let u: u64 = v % 0x1_0000_0000;
            if u % 2 == 0 {
                Ok((u / 2) as i32)
            } else {
                Ok((-((u / 2) as i64) - 1) as i32)
            }
        },
        Err(e) => Err(e),
    }
}

/// Write a zig-zag varint.
pub fn write_varint(dst: &mut BytesMut, n: i32)
    ensures
        final(dst)@ == old(dst)@.varint(n as int),
{
    let value: u32 = if n >= 0 {
        ((n as i64) * 2) as u32
    } else {
        ((-(n as i64)) * 2 - 1) as u32
    };
    put_unsigned_varint(dst, value);
}

/// Write compact array length (`uvarint(n+1)`; `0` = null).
pub fn put_compact_array_len(dst: &mut BytesMut, n: usize)
    ensures
        final(dst)@ == old(dst)@.compact_len(n as nat),
{
    let m: u32 = (n as u64 % 0x1_0000_0000) as u32;
    let len: u32 = if m == 0xffff_ffff {
        m
    } else {
        m + 1
    };
    put_unsigned_varint(dst, len);
}

/// Read compact array length. Returns `None` for null array.
pub fn get_compact_array_len(src: &mut Bytes) -> (r: Result<Option<usize>>)
    ensures
        crate::error::agrees(r, old(src)@.compact_len().value),
        final(src)@ == old(src)@.compact_len().rest,
{
    match read_unsigned_varint(src) {
        Err(e) => Err(e),
        Ok(n) => if n == 0 {
            Ok(None)
        } else {
            Ok(Some((n - 1) as usize))
        },
    }
}

/// Write a compact (non-null) string: `uvarint(len+1) + bytes`.
pub fn put_compact_string(dst: &mut BytesMut, s: &str)
    ensures
        final(dst)@ == old(dst)@.compact(s@),
{
    let b = s.as_bytes();
    put_compact_array_len(dst, b.len());
    put_slice(dst, b);
}

/// Write a compact nullable string (`uvarint(0)` = null).
pub fn put_compact_nullable_string(dst: &mut BytesMut, s: Option<&str>)
    ensures
        final(dst)@ == old(dst)@.compact_nullable(s.deep_view()),
{
    match s {
        None => put_unsigned_varint(dst, 0),
        Some(v) => put_compact_string(dst, v),
    }
}

/// Write compact nullable bytes / records.
pub fn put_compact_bytes(dst: &mut BytesMut, b: Option<&[u8]>)
    ensures
        final(dst)@ == old(dst)@.compact_blob(match b {
            None => None,
            Some(v) => Some(v@),
        }),
{
    match b {
        None => put_unsigned_varint(dst, 0),
        Some(v) => {
            put_compact_array_len(dst, v.len());
            put_slice(dst, v);
        },
    }
}

/// Read compact nullable bytes / records (`uvarint(0)` = null; else `uvarint(len+1)+bytes`).
pub fn get_compact_bytes(src: &mut Bytes) -> (r: Result<Option<Bytes>>)
    ensures
        blob_agrees(r, old(src)@.compact_blob().value),
        final(src)@ == old(src)@.compact_blob().rest,
{
    match read_unsigned_varint(src) {
        Err(e) => Err(e),
        Ok(n) => {
            if n == 0 {
                return Ok(None);
            }
            let len: usize = (n - 1) as usize;
            if remaining(src) < len {
                return Err(protocol("truncated compact bytes body"));
            }
            Ok(Some(take_bytes(src, len)))
        },
    }
}

/// Read a compact (non-null) string.
pub fn get_compact_string(src: &mut Bytes) -> (r: Result<String>)
    ensures
        crate::error::agrees(r, old(src)@.compact().value),
        final(src)@ == old(src)@.compact().rest,
{
    match read_unsigned_varint(src) {
        Err(e) => Err(e),
        Ok(n) => {
            if n == 0 {
                return Err(protocol("unexpected null compact string"));
            }
            let len: usize = (n - 1) as usize;
            if remaining(src) < len {
                return Err(protocol("truncated compact string body"));
            }
            take_utf8(src, len, "compact string utf8: ")
        },
    }
}

/// Read a compact nullable string.
pub fn get_compact_nullable_string(src: &mut Bytes) -> (r: Result<Option<String>>)
    ensures
        crate::error::agrees(r, old(src)@.compact_nullable().value),
        final(src)@ == old(src)@.compact_nullable().rest,
{
    match read_unsigned_varint(src) {
        Err(e) => Err(e),
        Ok(n) => {
            if n == 0 {
                return Ok(None);
            }
            let len: usize = (n - 1) as usize;
            if remaining(src) < len {
                return Err(protocol("truncated compact nullable string"));
            }
            match take_utf8(src, len, "compact string utf8: ") {
                Ok(s) => Ok(Some(s)),
                Err(e) => Err(e),
            }
        },
    }
}

/// Write an empty TAG_BUFFER (`uvarint(0)`).
pub fn put_empty_tag_buffer(dst: &mut BytesMut)
    ensures
        final(dst)@ == old(dst)@.tags(),
{
    put_unsigned_varint(dst, 0);
}

/// Skip a TAG_BUFFER (any number of tagged fields).
pub fn skip_tag_buffer(src: &mut Bytes) -> (r: Result<()>)
    ensures
        crate::error::agrees(r, old(src)@.tags().value),
        final(src)@ == old(src)@.tags().rest,
{
    let ghost start = src@;
    let n: u32 = match read_unsigned_varint(src) {
        Err(e) => return Err(e),
        Ok(n) => n,
    };
    let mut i: u32 = 0;
    while i < n
        invariant
            i <= n,
            start == old(src)@,
            start.uvarint().value is Ok,
            wire::tags_at(src@, (n - i) as nat) == start.tags(),
        decreases n - i,
    {
        let _tag: u32 = match read_unsigned_varint(src) {
            Err(e) => return Err(e),
            Ok(t) => t,
        };
        let len: usize = match read_unsigned_varint(src) {
            Err(e) => return Err(e),
            Ok(k) => k as usize,
        };
        if remaining(src) < len {
            return Err(protocol("truncated tagged field body"));
        }
        advance(src, len);
        i += 1;
    }
    Ok(())
}

/// The largest frame that is accepted, in bytes.
pub const MAX_FRAME: usize = 16777216;

/// What the front of a stream of frames holds: the body of a whole frame, or
/// nothing yet, or a length that is refused.
pub open spec fn frame_at(b: Seq<u8>) -> core::result::Result<Option<Seq<u8>>, Seq<char>> {
    let size = wire::be_int(b.take(4));
    if b.len() < 4 {
        Ok(None)
    } else if size < 0 {
        Err("negative kafka frame size "@ + text::decimal(size))
    } else if size > MAX_FRAME {
        Err("kafka frame too large: "@ + text::decimal(size))
    } else if b.len() < 4 + size {
        Ok(None)
    } else {
        Ok(Some(b.subrange(4, 4 + size)))
    }
}

fn frame_size(b: &[u8]) -> (size: i64)
    requires
        b@.len() >= 4,
    ensures
        size == wire::be_int(b@.take(4)),
{
    let u: i64 = ((b[0] as i64 * 256 + b[1] as i64) * 256 + b[2] as i64) * 256 + b[3] as i64;
    proof {
        let s = b@.take(4);
        assert(s[0] == b@[0] && s[1] == b@[1] && s[2] == b@[2] && s[3] == b@[3]);
        wire::lemma_be_int4(s);
    }
    if b[0] < 128 {
        u
    } else {
        u - 0x1_0000_0000
    }
}

/// Read a full Kafka request frame (size-prefixed) from a buffer.
///
/// Returns `None` if more bytes are needed. On success, returns the request
/// body (header + payload) without the 4-byte size prefix, and takes the frame
/// off the buffer; otherwise the buffer stays as it is.
pub fn try_decode_request(buf: &mut BytesMut) -> (r: Result<Option<Bytes>>)
    ensures
        blob_agrees(r, frame_at(old(buf)@.bytes)),
        match frame_at(old(buf)@.bytes) {
            Ok(Some(body)) => final(buf)@.bytes == old(buf)@.bytes.skip(4 + body.len() as int),
            _ => final(buf)@ == old(buf)@,
        },
{
    if buf_len(buf) < 4 {
        return Ok(None);
    }
    let size: i64 = frame_size(buf_slice(buf));
    if size < 0 {
        return Err(Error::Protocol(text::concat_decimal("negative kafka frame size ", size)));
    }
    if size > MAX_FRAME as i64 {
        return Err(Error::Protocol(text::concat_decimal("kafka frame too large: ", size)));
    }
    let size: usize = size as usize;
    if buf_len(buf) < 4 + size {
        return Ok(None);
    }
    let ghost start = buf@.bytes;
    let _prefix = buf_split_to(buf, 4);
    let body = freeze(buf_split_to(buf, size));
    assert(body@.bytes =~= start.subrange(4, 4 + size));
    assert(buf@.bytes =~= start.skip(4 + size));
    Ok(Some(body))
}

/// A body with its size in front.
pub open spec fn frame_out(body: Seq<u8>) -> Seq<u8> {
    Out::new().i32(body.len() as int).raw(body).bytes
}

/// Encode a response body with a 4-byte big-endian size prefix.
pub fn encode_response_frame(body: &[u8]) -> (out: BytesMut)
    ensures
        out@.bytes == frame_out(body@),
{
    let mut out = new_buf();
    put_len32(&mut out, body.len());
    put_slice(&mut out, body);
    out
}

/// Parsed request header (v0/v1 non-flexible).
#[derive(Debug)]
pub struct RequestHeader {
    /// Kafka API key.
    pub api_key: i16,
    /// Requested API version.
    pub api_version: i16,
    /// Correlation id echoed in the response.
    pub correlation_id: i32,
    /// Optional client id string.
    pub client_id: Option<String>,
}

/// What a [`RequestHeader`] says.
#[verifier::ext_equal]
pub struct HeaderView {
    pub api_key: i16,
    pub api_version: i16,
    pub correlation_id: i32,
    pub client_id: Option<Seq<char>>,
}

impl DeepView for RequestHeader {
    type V = HeaderView;

    open spec fn deep_view(&self) -> HeaderView {
        HeaderView {
            api_key: self.api_key,
            api_version: self.api_version,
            correlation_id: self.correlation_id,
            client_id: self.client_id.deep_view(),
        }
    }
}

/// A request header.
pub open spec fn header_at(b: Src) -> Parsed<HeaderView> {
    if b.left() < 8 {
        wire::fail("truncated kafka request header"@, b)
    } else {
        let p = b.skip(8).nullable();
        match p.value {
            Err(m) => wire::fail(m, p.rest),
            Ok(client_id) => wire::done(
                HeaderView {
                    api_key: b.i16() as i16,
                    api_version: b.skip(2).i16() as i16,
                    correlation_id: b.skip(4).i32() as i32,
                    client_id,
                },
                p.rest,
            ),
        }
    }
}

/// Decode request header from the start of a request body.
pub fn decode_request_header(src: &mut Bytes) -> (r: Result<RequestHeader>)
    ensures
        crate::error::agrees(r, header_at(old(src)@).value),
        final(src)@ == header_at(old(src)@).rest,
{
    let ghost b = src@;
    if remaining(src) < 8 {
        return Err(protocol("truncated kafka request header"));
    }
    let api_key: i16 = get_i16(src);
    let api_version: i16 = get_i16(src);
    assert(src@ =~= b.skip(4));
    let correlation_id: i32 = get_i32(src);
    assert(src@ =~= b.skip(8));
    match get_nullable_string(src) {
        Err(e) => Err(e),
        Ok(client_id) => Ok(RequestHeader { api_key, api_version, correlation_id, client_id }),
    }
}

/// Write response header v0 (correlation_id only).
pub fn put_response_header(dst: &mut BytesMut, correlation_id: i32)
    ensures
        final(dst)@ == old(dst)@.i32(correlation_id as int),
{
    put_i32(dst, correlation_id);
}

/// Write response header v1 (flexible): correlation_id + empty TAG_BUFFER.
///
/// Used for flexible API responses **except** ApiVersions (always header v0).
pub fn put_response_header_v1(dst: &mut BytesMut, correlation_id: i32)
    ensures
        final(dst)@ == old(dst)@.i32(correlation_id as int).tags(),
{
    put_i32(dst, correlation_id);
    put_empty_tag_buffer(dst);
}

/// A request: the header, an empty tag buffer in the flexible form, and the body.
pub open spec fn request_out(h: HeaderView, flexible: bool, body: Seq<u8>) -> Seq<u8> {
    Out::new().i16(h.api_key as int).i16(h.api_version as int).i32(
        h.correlation_id as int,
    ).nullable(h.client_id).end(flexible).raw(body).bytes
}

fn put_request(
    api_key: i16,
    api_version: i16,
    correlation_id: i32,
    client_id: Option<&str>,
    flexible: bool,
    body: &[u8],
) -> (out: BytesMut)
    ensures
        out@.bytes == frame_out(
            request_out(
                (HeaderView {
                    api_key,
                    api_version,
                    correlation_id,
                    client_id: client_id.deep_view(),
                }),
                flexible,
                body@,
            ),
        ),
{
    let mut inner = new_buf();
    put_i16(&mut inner, api_key);
    put_i16(&mut inner, api_version);
    put_i32(&mut inner, correlation_id);
    put_nullable_string(&mut inner, client_id);
    if flexible {
        put_empty_tag_buffer(&mut inner);
    }
    put_slice(&mut inner, body);
    encode_response_frame(buf_slice(&inner))
}

/// Build a size-prefixed Kafka request (classic header).
pub fn encode_request(
    api_key: i16,
    api_version: i16,
    correlation_id: i32,
    client_id: Option<&str>,
    body: &[u8],
) -> (out: BytesMut)
    ensures
        out@.bytes == frame_out(
            request_out(
                (HeaderView {
                    api_key,
                    api_version,
                    correlation_id,
                    client_id: client_id.deep_view(),
                }),
                false,
                body@,
            ),
        ),
{
    put_request(api_key, api_version, correlation_id, client_id, false, body)
}

/// Build a size-prefixed flexible request (RequestHeader v2 + body).
///
/// ClientId stays classic nullable string; header ends with an empty TAG_BUFFER.
pub fn encode_request_flexible(
    api_key: i16,
    api_version: i16,
    correlation_id: i32,
    client_id: Option<&str>,
    body: &[u8],
) -> (out: BytesMut)
    ensures
        out@.bytes == frame_out(
            request_out(
                (HeaderView {
                    api_key,
                    api_version,
                    correlation_id,
                    client_id: client_id.deep_view(),
                }),
                true,
                body@,
            ),
        ),
{
    put_request(api_key, api_version, correlation_id, client_id, true, body)
}

/// Appends a string, compact in the flexible versions.
pub(crate) fn put_text(dst: &mut BytesMut, flexible: bool, s: &str)
    ensures
        final(dst)@ == old(dst)@.text(flexible, s@),
{
    if flexible {
        put_compact_string(dst, s);
    } else {
        put_string(dst, s);
    }
}

/// Appends a nullable string, compact in the flexible versions.
pub(crate) fn put_opt_text(dst: &mut BytesMut, flexible: bool, s: Option<&str>)
    ensures
        final(dst)@ == old(dst)@.opt_text(flexible, s.deep_view()),
{
    if flexible {
        put_compact_nullable_string(dst, s);
    } else {
        put_nullable_string(dst, s);
    }
}

/// Appends the number of elements of an array, compact in the flexible versions.
pub(crate) fn put_array_len(dst: &mut BytesMut, flexible: bool, n: usize)
    ensures
        final(dst)@ == old(dst)@.array_len(flexible, n as nat),
{
    if flexible {
        put_compact_array_len(dst, n);
    } else {
        put_len32(dst, n);
    }
}

/// Appends an empty tag buffer in the flexible versions.
pub(crate) fn put_end(dst: &mut BytesMut, flexible: bool)
    ensures
        final(dst)@ == old(dst)@.end(flexible),
{
    if flexible {
        put_empty_tag_buffer(dst);
    }
}

/// Appends a topic id: its sixteen bytes as they are.
pub fn put_uuid(dst: &mut BytesMut, uuid: &[u8; 16])
    ensures
        final(dst)@ == old(dst)@.raw(uuid@),
{
    put_slice(dst, uuid.as_slice());
}

/// A topic id.
pub open spec fn uuid_at(b: Src) -> Parsed<Seq<u8>> {
    if b.left() < 16 {
        wire::fail("truncated kafka uuid"@, b)
    } else {
        wire::done(b.take(16), b.skip(16))
    }
}

/// Reads a topic id.
pub fn get_uuid(src: &mut Bytes) -> (r: Result<[u8; 16]>)
    ensures
        match (r, uuid_at(old(src)@).value) {
            (Ok(u), Ok(w)) => u@ == w,
            (Err(e), Err(m)) => e.is_protocol(m),
            _ => false,
        },
        final(src)@ == uuid_at(old(src)@).rest,
{
    if remaining(src) < 16 {
        return Err(protocol("truncated kafka uuid"));
    }
    let head = take_bytes(src, 16);
    let s = bytes_slice(&head);
    let u: [u8; 16] = [
        s[0],
        s[1],
        s[2],
        s[3],
        s[4],
        s[5],
        s[6],
        s[7],
        s[8],
        s[9],
        s[10],
        s[11],
        s[12],
        s[13],
        s[14],
        s[15],
    ];
    assert(u@ =~= s@);
    Ok(u)
}

/// A string, compact in the flexible versions.
pub open spec fn text_at(b: Src, flexible: bool) -> Parsed<Seq<char>> {
    if flexible {
        b.compact()
    } else {
        b.string()
    }
}

/// Reads a string, compact in the flexible versions.
pub fn read_string(src: &mut Bytes, flexible: bool) -> (r: Result<String>)
    ensures
        crate::error::agrees(r, text_at(old(src)@, flexible).value),
        final(src)@ == text_at(old(src)@, flexible).rest,
{
    if flexible {
        get_compact_string(src)
    } else {
        get_string(src)
    }
}

/// A nullable string, compact in the flexible versions.
pub open spec fn opt_text_at(b: Src, flexible: bool) -> Parsed<Option<Seq<char>>> {
    if flexible {
        b.compact_nullable()
    } else {
        b.nullable()
    }
}

/// Reads a nullable string, compact in the flexible versions.
pub fn read_nullable_string(src: &mut Bytes, flexible: bool) -> (r: Result<Option<String>>)
    ensures
        crate::error::agrees(r, opt_text_at(old(src)@, flexible).value),
        final(src)@ == opt_text_at(old(src)@, flexible).rest,
{
    if flexible {
        get_compact_nullable_string(src)
    } else {
        get_nullable_string(src)
    }
}

} // verus!
