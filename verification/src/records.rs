//! Record sets: MessageSet (magic 0 and 1) and RecordBatch (magic 2).

use bytes::{Bytes, BytesMut};
use vstd::prelude::*;
use vstd::utf8::*;

use crate::buffer::{
    advance, buf_len, buf_slice, bytes_from_vec, bytes_slice, copy_bytes, get_i16, get_i32, get_i64,
    get_i8, get_u32, new_buf, no_bytes, put_i16, put_i32, put_i64, put_i8, put_slice, put_u32,
    put_u64, remaining, take_bytes, Contents,
};
use crate::codec::{get_bytes, put_bytes, put_len32, read_varint, write_varint};
use crate::compress;
use crate::compress::CompressionCodec;
use crate::error::{protocol, Error, Result};
use crate::model::{Message, MessageView, Record, RecordView};
use crate::text;
use crate::wire;
use crate::wire::{Out, Parsed, Src};

verus! {

/// The CRC-32 (IEEE) of `data`, as `crc32fast` computes it.
pub uninterp spec fn crc32_ieee(data: Seq<u8>) -> u32;

/// The CRC-32C of `data`, as `crc32c` computes it.
pub uninterp spec fn crc32_castagnoli(data: Seq<u8>) -> u32;

/// `crc32fast::Hasher`: the checksum of the whole slice.
#[verifier::external_body]
fn ieee(data: &[u8]) -> (crc: u32)
    ensures
        crc == crc32_ieee(data@),
{
    let mut h = crc32fast::Hasher::new();
    h.update(data);
    h.finalize()
}

/// `crc32c::crc32c`: the checksum of the whole slice.
#[verifier::external_body]
fn castagnoli(data: &[u8]) -> (crc: u32)
    ensures
        crc == crc32_castagnoli(data@),
{
    crc32c::crc32c(data)
}

/// How deep compressed message sets may be nested.
pub const MAX_MESSAGE_SET_COMPRESSION_DEPTH: u8 = 3;

/// What one message of a message set yields: itself, or, where it is compressed,
/// what the message set inside it holds.
pub open spec fn message_at(s: Seq<u8>, depth: nat) -> core::result::Result<
    Seq<MessageView>,
    Seq<char>,
>
    decreases 4 - depth, 0nat, 1nat,
{
    if s.len() < 6 {
        Err("truncated kafka message"@)
    } else {
        let crc = wire::be_uint(s.take(4)) as u32;
        let computed = crc32_ieee(s.skip(4));
        let m = Src::of(s.skip(4));
        let magic = m.i8();
        let attributes = m.skip(1).i8();
        let body = m.skip(2);
        if computed != crc {
            Err(
                "kafka message crc mismatch: got "@ + text::hexadecimal(crc as nat) + " want "@
                    + text::hexadecimal(computed as nat),
            )
        } else if magic == 1 && body.left() < 8 {
            Err("truncated kafka message timestamp"@)
        } else if magic != 0 && magic != 1 {
            Err("unsupported kafka message magic "@ + text::decimal(magic))
        } else {
            let timestamp_ms = if magic == 1 {
                Some(body.i64() as i64)
            } else {
                None
            };
            let key = (if magic == 1 {
                body.skip(8)
            } else {
                body
            }).blob();
            match key.value {
                Err(t) => Err(t),
                Ok(k) => match key.rest.blob().value {
                    Err(t) => Err(t),
                    Ok(v) => {
                        let value = match v {
                            Some(v) => v,
                            None => Seq::empty(),
                        };
                        let bits = (attributes as i8 & 7) as i16;
                        match compress::codec_of(bits) {
                            None => Err(compress::unknown_codec(bits)),
                            Some(codec) => if codec == CompressionCodec::Uncompressed {
                                Ok(
                                    seq![
                                        MessageView {
                                            key: k,
                                            value,
                                            timestamp_ms,
                                            headers: Seq::empty(),
                                        },
                                    ],
                                )
                            } else if depth >= 3 {
                                Err("message set compression nesting too deep"@)
                            } else {
                                match compress::plain(codec, value) {
                                    Err(t) => Err(t),
                                    Ok(p) => message_set(Src::of(p), depth + 1),
                                }
                            },
                        }
                    },
                },
            }
        }
    }
}

/// The messages of a message set, in order. A partial message at the end is
/// passed over.
pub open spec fn message_set(b: Src, depth: nat) -> core::result::Result<
    Seq<MessageView>,
    Seq<char>,
>
    decreases 4 - depth, b.left(), 2nat,
{
    if b.left() < 12 {
        Ok(Seq::empty())
    } else {
        let size = b.skip(8).i32();
        let r = b.skip(12);
        if size < 0 {
            Err("negative message size"@)
        } else if r.left() < size {
            Ok(Seq::empty())
        } else {
            match message_at(r.take(size), depth) {
                Err(t) => Err(t),
                Ok(ms) => match message_set(r.skip(size), depth) {
                    Err(t) => Err(t),
                    Ok(tail) => Ok(ms + tail),
                },
            }
        }
    }
}

/// `message_set` with `seen` in front.
pub open spec fn with_seen(
    seen: Seq<MessageView>,
    r: core::result::Result<Seq<MessageView>, Seq<char>>,
) -> core::result::Result<Seq<MessageView>, Seq<char>> {
    match r {
        Ok(tail) => Ok(seen + tail),
        Err(t) => Err(t),
    }
}

/// Decode a Kafka MessageSet (magic 0 or 1) into Volant messages.
///
/// A message whose attributes name a codec is a wrapper: its value is a
/// compressed nested MessageSet.
pub fn decode_message_set(data: &[u8]) -> (r: Result<Vec<Message>>)
    ensures
        crate::error::agrees(r, message_set(Src::of(data@), 0)),
{
    decode_message_set_depth(copy_bytes(data), 0)
}

fn crc_mismatch(what: &str, crc: u32, computed: u32) -> (s: String)
    ensures
        s@ == what@ + text::hexadecimal(crc as nat) + " want "@ + text::hexadecimal(
            computed as nat,
        ),
{
    let mut s = what.to_owned();
    text::push_hex(&mut s, crc);
    let mut t = text::concat(s.as_str(), " want ");
    text::push_hex(&mut t, computed);
    t
}

fn decode_message_set_depth(data: Bytes, depth: u8) -> (r: Result<Vec<Message>>)
    requires
        depth <= 3,
    ensures
        crate::error::agrees(r, message_set(data@, depth as nat)),
    decreases 4 - depth, 1nat,
{
    let mut src = data;
    let mut out: Vec<Message> = Vec::new();
    let ghost whole = message_set(src@, depth as nat);
    proof {
        assert(out.deep_view() =~= Seq::empty());
        if let Ok(t) = whole {
            assert(Seq::<MessageView>::empty() + t =~= t);
        }
    }
    while remaining(&src) >= 12
        invariant_except_break
            whole == with_seen(out.deep_view(), message_set(src@, depth as nat)),
        invariant
            depth <= 3,
            whole == message_set(data@, depth as nat),
        ensures
            whole == Ok::<Seq<MessageView>, Seq<char>>(out.deep_view()),
        decreases src@.left(),
    {
        let ghost here = src@;
        let ghost seen = out.deep_view();
        advance(&mut src, 8);
        let msg_size: i32 = get_i32(&mut src);
        assert(here.skip(8).skip(4) =~= here.skip(12));
        if msg_size < 0 {
            return Err(protocol("negative message size"));
        }
        let msg_size: usize = msg_size as usize;
        if remaining(&src) < msg_size {
            assert(seen + Seq::<MessageView>::empty() =~= seen);
            break;
        }
        let msg = take_bytes(&mut src, msg_size);
        match decode_message(msg, depth) {
            Err(e) => return Err(e),
            Ok(ms) => {
                let mut ms = ms;
                proof {
                    if let Ok(t) = message_set(src@, depth as nat) {
                        assert((seen + ms.deep_view()) + t =~= seen + (ms.deep_view() + t));
                    }
                }
                let ghost got = ms.deep_view();
                out.append(&mut ms);
                assert(out.deep_view() =~= seen + got);
            },
        }
    }
    Ok(out)
}

fn decode_message(msg: Bytes, depth: u8) -> (r: Result<Vec<Message>>)
    requires
        depth <= 3,
    ensures
        crate::error::agrees(r, message_at(msg@.bytes, depth as nat)),
    decreases 4 - depth, 0nat,
{
    let ghost s = msg@.bytes;
    let mut m = msg;
    if remaining(&m) < 6 {
        return Err(protocol("truncated kafka message"));
    }
    let crc: u32 = get_u32(&mut m);
    let computed: u32 = ieee(bytes_slice(&m));
    if computed != crc {
        return Err(
            Error::Protocol(crc_mismatch("kafka message crc mismatch: got ", crc, computed)),
        );
    }
    let magic: i8 = get_i8(&mut m);
    let attributes: i8 = get_i8(&mut m);
    assert(Src::of(s.skip(4)).skip(1).skip(1) =~= Src::of(s.skip(4)).skip(2));
    let timestamp_ms: Option<i64> = if magic == 1 {
        if remaining(&m) < 8 {
            return Err(protocol("truncated kafka message timestamp"));
        }
        Some(get_i64(&mut m))
    } else if magic == 0 {
        None
    } else {
        return Err(
            Error::Protocol(text::concat_decimal("unsupported kafka message magic ", magic as i64)),
        );
    };
    let key = match get_bytes(&mut m) {
        Err(e) => return Err(e),
        Ok(k) => k,
    };
    let value = match get_bytes(&mut m) {
        Err(e) => return Err(e),
        Ok(v) => match v {
            Some(b) => b,
            None => no_bytes(),
        },
    };
    let codec = match CompressionCodec::from_attributes((attributes & 7) as i16) {
        Err(e) => return Err(e),
        Ok(c) => c,
    };
    if codec != CompressionCodec::Uncompressed {
        if depth >= MAX_MESSAGE_SET_COMPRESSION_DEPTH {
            return Err(protocol("message set compression nesting too deep"));
        }
        return match compress::decompress(codec, bytes_slice(&value)) {
            Err(e) => Err(e),
            Ok(p) => decode_message_set_depth(bytes_from_vec(p), depth + 1),
        };
    }
    let message = Message { key, value, timestamp_ms, headers: Vec::new() };
    let mut out: Vec<Message> = Vec::new();
    out.push(message);
    assert(message.deep_view().headers =~= Seq::empty());
    assert(out.deep_view() =~= seq![message.deep_view()]);
    Ok(out)
}

/// Producer identity fields from a RecordBatch header.
///
/// Kafka uses `-1` for all three when the batch is non-idempotent.
#[derive(Debug, Clone, Copy, PartialEq, Eq, Structural)]
pub struct RecordBatchProducer {
    /// Kafka producer id (`-1` = none).
    pub producer_id: i64,
    /// Producer epoch (`-1` = none).
    pub producer_epoch: i16,
    /// Base sequence of the first record (`-1` = none).
    pub base_sequence: i32,
}

impl RecordBatchProducer {
    /// Non-idempotent marker (all fields `-1`).
    pub open spec fn spec_none() -> RecordBatchProducer {
        RecordBatchProducer { producer_id: -1i64 as i64, producer_epoch: -1i16 as i16, base_sequence: -1i32 as i32 }
    }

    /// Non-idempotent marker (all fields `-1`).
    #[verifier::when_used_as_spec(spec_none)]
    pub fn none() -> (p: RecordBatchProducer)
        ensures
            p == RecordBatchProducer::spec_none(),
    {
        RecordBatchProducer { producer_id: -1, producer_epoch: -1, base_sequence: -1 }
    }

    /// Whether this batch carries idempotent produce fields.
    pub fn is_idempotent(self) -> (b: bool)
        ensures
            b == (self.producer_id >= 0 && self.base_sequence >= 0),
    {
        self.producer_id >= 0 && self.base_sequence >= 0
    }
}

/// One decoded RecordBatch (messages + producer meta).
#[derive(Debug)]
pub struct DecodedRecordBatch {
    /// Producer id / epoch / base sequence from the batch header.
    pub producer: RecordBatchProducer,
    /// Records in this batch.
    pub messages: Vec<Message>,
}

/// What a [`DecodedRecordBatch`] says.
#[verifier::ext_equal]
pub struct BatchView {
    pub producer: RecordBatchProducer,
    pub messages: Seq<MessageView>,
}

impl DeepView for DecodedRecordBatch {
    type V = BatchView;

    open spec fn deep_view(&self) -> BatchView {
        BatchView { producer: self.producer, messages: self.messages.deep_view() }
    }
}

/// The next `n` bytes.
pub open spec fn exact_at(b: Src, n: int) -> Parsed<Seq<u8>> {
    if b.left() < n {
        wire::fail("truncated bytes in record"@, b)
    } else {
        wire::done(b.take(n), b.skip(n))
    }
}

/// A field of a record: its length as a varint, then its bytes. A negative
/// length stands for no field.
pub open spec fn field_at(b: Src) -> Parsed<Option<Seq<u8>>> {
    let n = b.varint();
    match n.value {
        Err(t) => wire::fail(t, n.rest),
        Ok(len) => if len < 0 {
            wire::done(None, n.rest)
        } else {
            wire::some(exact_at(n.rest, len))
        },
    }
}

/// The bytes of a field; no field counts as an empty one.
pub open spec fn or_empty(f: Option<Seq<u8>>) -> Seq<u8> {
    match f {
        Some(v) => v,
        None => Seq::empty(),
    }
}

/// A record header: name and value.
pub open spec fn header_at(b: Src) -> Parsed<(Seq<char>, Seq<u8>)> {
    let n = b.varint();
    match n.value {
        Err(t) => wire::fail(t, n.rest),
        Ok(len) => if len < 0 {
            wire::fail("negative header key len"@, n.rest)
        } else if n.rest.left() < len {
            wire::fail("truncated bytes in record"@, n.rest)
        } else {
            let name = n.rest.utf8(len, "header key utf8: "@);
            match name.value {
                Err(t) => wire::fail(t, name.rest),
                Ok(k) => {
                    let v = field_at(name.rest);
                    match v.value {
                        Err(t) => wire::fail(t, v.rest),
                        Ok(f) => wire::done((k, or_empty(f)), v.rest),
                    }
                },
            }
        },
    }
}

/// The headers of a record: their number as a varint, then they.
pub open spec fn headers_at(b: Src) -> Parsed<Seq<(Seq<char>, Seq<u8>)>> {
    let n = b.varint();
    match n.value {
        Err(t) => wire::fail(t, n.rest),
        Ok(count) => if count < 0 {
            wire::fail("negative header count"@, n.rest)
        } else {
            wire::all_of(n.rest, count as nat, |c: Src| header_at(c))
        },
    }
}

/// `a + b`, kept within the range of a 64-bit number.
pub open spec fn saturating_sum(a: int, b: int) -> i64 {
    if a + b > i64::MAX {
        i64::MAX
    } else if a + b < i64::MIN {
        i64::MIN
    } else {
        (a + b) as i64
    }
}

/// Key, value and headers of a record, whose time is known by now.
pub open spec fn record_fields_at(b: Src, timestamp_ms: i64) -> Parsed<MessageView> {
    let key = field_at(b);
    match key.value {
        Err(t) => wire::fail(t, key.rest),
        Ok(k) => {
            let value = field_at(key.rest);
            match value.value {
                Err(t) => wire::fail(t, value.rest),
                Ok(v) => {
                    let headers = headers_at(value.rest);
                    match headers.value {
                        Err(t) => wire::fail(t, headers.rest),
                        Ok(h) => wire::done(
                            MessageView {
                                key: k,
                                value: or_empty(v),
                                timestamp_ms: Some(timestamp_ms),
                                headers: h,
                            },
                            headers.rest,
                        ),
                    }
                },
            }
        },
    }
}

/// A record of a batch whose first record was made at `first_timestamp`. The
/// length in front of it is held against what is left and not used otherwise.
#[verifier::opaque]
pub open spec fn record_at(b: Src, first_timestamp: i64) -> Parsed<MessageView> {
    let n = b.varint();
    match n.value {
        Err(t) => wire::fail(t, n.rest),
        Ok(length) => if length < 0 {
            wire::fail("negative record length"@, n.rest)
        } else if n.rest.left() < length || n.rest.left() == 0 {
            wire::fail("truncated record body"@, n.rest)
        } else {
            let delta = n.rest.skip(1).varint();
            match delta.value {
                Err(t) => wire::fail(t, delta.rest),
                Ok(d) => {
                    let offset = delta.rest.varint();
                    match offset.value {
                        Err(t) => wire::fail(t, offset.rest),
                        Ok(_) => record_fields_at(
                            offset.rest,
                            saturating_sum(first_timestamp as int, d),
                        ),
                    }
                },
            }
        },
    }
}

/// A record batch, from the leader epoch on.
pub open spec fn batch_at(s: Seq<u8>) -> core::result::Result<BatchView, Seq<char>> {
    let b = Src::of(s);
    let magic = b.skip(4).i8();
    let crc = b.skip(5).u32() as u32;
    let p = b.skip(9);
    let computed = crc32_castagnoli(p.bytes);
    let attributes = p.i16() as i16;
    let first_timestamp = p.skip(6).i64() as i64;
    let count = p.skip(36).i32();
    if s.len() < 49 {
        Err("truncated record batch header"@)
    } else if magic != 2 {
        Err("expected record batch magic 2, got "@ + text::decimal(magic))
    } else if computed != crc {
        Err(
            "record batch crc32c mismatch: got "@ + text::hexadecimal(crc as nat) + " want "@
                + text::hexadecimal(computed as nat),
        )
    } else {
        match compress::codec_of(attributes) {
            None => Err(compress::unknown_codec(attributes)),
            Some(codec) => if count < 0 {
                Err("negative records count"@)
            } else {
                match compress::plain(codec, p.skip(40).bytes) {
                    Err(t) => Err(t),
                    Ok(data) => match wire::all_of(
                        Src::of(data),
                        count as nat,
                        |c: Src| record_at(c, first_timestamp),
                    ).value {
                        Err(t) => Err(t),
                        Ok(messages) => Ok(
                            BatchView {
                                producer: RecordBatchProducer {
                                    producer_id: p.skip(22).i64() as i64,
                                    producer_epoch: p.skip(30).i16() as i16,
                                    base_sequence: p.skip(32).i32() as i32,
                                },
                                messages,
                            },
                        ),
                    },
                }
            },
        }
    }
}

/// Contiguous record batches. A partial batch at the end is passed over.
pub open spec fn batches_at(b: Src) -> core::result::Result<Seq<BatchView>, Seq<char>>
    decreases b.left(),
{
    if b.left() < 61 {
        Ok(Seq::empty())
    } else {
        let n = b.skip(8).i32();
        let r = b.skip(12);
        if n < 0 {
            Err("negative record batch length"@)
        } else if r.left() < n {
            Ok(Seq::empty())
        } else {
            match batch_at(r.take(n)) {
                Err(t) => Err(t),
                Ok(one) => match batches_at(r.skip(n)) {
                    Err(t) => Err(t),
                    Ok(tail) => Ok(seq![one] + tail),
                },
            }
        }
    }
}

/// The messages of all the batches, in order.
pub open spec fn all_messages(batches: Seq<BatchView>) -> Seq<MessageView>
    decreases batches.len(),
{
    if batches.len() == 0 {
        Seq::empty()
    } else {
        all_messages(batches.drop_last()) + batches.last().messages
    }
}

/// The outcome `r` of reading bytes is the one that `want` describes.
pub open spec fn bytes_agree(r: Result<Bytes>, want: core::result::Result<Seq<u8>, Seq<char>>) -> bool {
    match (r, want) {
        (Ok(v), Ok(w)) => v@.bytes == w,
        (Err(e), Err(m)) => e.is_protocol(m),
        _ => false,
    }
}

fn read_exact(src: &mut Bytes, len: usize) -> (r: Result<Bytes>)
    ensures
        bytes_agree(r, exact_at(old(src)@, len as int).value),
        final(src)@ == exact_at(old(src)@, len as int).rest,
{
    if remaining(src) < len {
        return Err(protocol("truncated bytes in record"));
    }
    Ok(take_bytes(src, len))
}

fn read_field(src: &mut Bytes) -> (r: Result<Option<Bytes>>)
    ensures
        crate::codec::blob_agrees(r, field_at(old(src)@).value),
        final(src)@ == field_at(old(src)@).rest,
{
    let len: i32 = match read_varint(src) {
        Err(e) => return Err(e),
        Ok(n) => n,
    };
    if len < 0 {
        return Ok(None);
    }
    match read_exact(src, len as usize) {
        Err(e) => Err(e),
        Ok(b) => Ok(Some(b)),
    }
}

fn field_or_empty(f: Option<Bytes>) -> (b: Bytes)
    ensures
        b@.bytes == or_empty(crate::codec::blob_view(f)),
{
    match f {
        Some(b) => b,
        None => no_bytes(),
    }
}

fn read_header(src: &mut Bytes) -> (r: Result<(String, Bytes)>)
    ensures
        match (r, header_at(old(src)@).value) {
            (Ok(h), Ok(w)) => h.0@ == w.0 && h.1@.bytes == w.1,
            (Err(e), Err(m)) => e.is_protocol(m),
            _ => false,
        },
        final(src)@ == header_at(old(src)@).rest,
{
    let hk_len: i32 = match read_varint(src) {
        Err(e) => return Err(e),
        Ok(n) => n,
    };
    if hk_len < 0 {
        return Err(protocol("negative header key len"));
    }
    let hk = match read_exact(src, hk_len as usize) {
        Err(e) => return Err(e),
        Ok(b) => b,
    };
    let hk = match text::string_from_utf8(hk) {
        Err(t) => return Err(Error::Protocol(text::concat("header key utf8: ", t.as_str()))),
        Ok(s) => s,
    };
    match read_field(src) {
        Err(e) => Err(e),
        Ok(f) => Ok((hk, field_or_empty(f))),
    }
}

fn read_headers(src: &mut Bytes) -> (r: Result<Vec<(String, Bytes)>>)
    ensures
        match (r, headers_at(old(src)@).value) {
            (Ok(h), Ok(w)) => crate::model::headers_view(h@) == w,
            (Err(e), Err(m)) => e.is_protocol(m),
            _ => false,
        },
        final(src)@ == headers_at(old(src)@).rest,
{
    let header_count: i32 = match read_varint(src) {
        Err(e) => return Err(e),
        Ok(n) => n,
    };
    if header_count < 0 {
        return Err(protocol("negative header count"));
    }
    let ghost f = |c: Src| header_at(c);
    let ghost whole = wire::all_of(src@, header_count as nat, f);
    let mut headers: Vec<(String, Bytes)> = Vec::new();
    let mut i: i32 = 0;
    proof {
        assert(crate::model::headers_view(headers@) =~= Seq::empty());
        wire::lemma_all_start(src@, header_count as nat, f);
    }
    while i < header_count
        invariant
            0 <= i <= header_count,
            f == |c: Src| header_at(c),
            whole == headers_at(old(src)@),
            whole == wire::all_after(
                crate::model::headers_view(headers@),
                wire::all_of(src@, (header_count - i) as nat, f),
            ),
        decreases header_count - i,
    {
        let ghost here = src@;
        let ghost seen = crate::model::headers_view(headers@);
        match read_header(src) {
            Err(e) => return Err(e),
            Ok(h) => {
                proof {
                    wire::lemma_all_step(
                        seen,
                        here,
                        (header_count - i) as nat,
                        f,
                        (h.0@, h.1@.bytes),
                    );
                }
                headers.push(h);
                assert(crate::model::headers_view(headers@) =~= seen.push((h.0@, h.1@.bytes)));
            },
        }
        i += 1;
    }
    proof {
        wire::lemma_all_done(crate::model::headers_view(headers@), src@, f);
    }
    Ok(headers)
}

fn saturating_add(a: i64, b: i32) -> (c: i64)
    ensures
        c == saturating_sum(a as int, b as int),
{
    match a.checked_add(b as i64) {
        Some(c) => c,
        None => if b > 0 {
            i64::MAX
        } else {
            i64::MIN
        },
    }
}

fn decode_default_record(src: &mut Bytes, first_timestamp: i64) -> (r: Result<Message>)
    ensures
        crate::error::agrees(r, record_at(old(src)@, first_timestamp).value),
        final(src)@ == record_at(old(src)@, first_timestamp).rest,
{
    reveal(record_at);
    let length: i32 = match read_varint(src) {
        Err(e) => return Err(e),
        Ok(n) => n,
    };
    if length < 0 {
        return Err(protocol("negative record length"));
    }
    if remaining(src) < length as usize || remaining(src) == 0 {
        return Err(protocol("truncated record body"));
    }
    advance(src, 1);
    let timestamp_delta: i32 = match read_varint(src) {
        Err(e) => return Err(e),
        Ok(n) => n,
    };
    let _offset_delta: i32 = match read_varint(src) {
        Err(e) => return Err(e),
        Ok(n) => n,
    };
    let key = match read_field(src) {
        Err(e) => return Err(e),
        Ok(k) => k,
    };
    let value = match read_field(src) {
        Err(e) => return Err(e),
        Ok(v) => field_or_empty(v),
    };
    let headers = match read_headers(src) {
        Err(e) => return Err(e),
        Ok(h) => h,
    };
    Ok(
        Message {
            key,
            value,
            timestamp_ms: Some(saturating_add(first_timestamp, timestamp_delta)),
            headers,
        },
    )
}

fn decode_one_record_batch(body: Bytes) -> (r: Result<DecodedRecordBatch>)
    ensures
        crate::error::agrees(r, batch_at(body@.bytes)),
{
    let ghost b = body@;
    let ghost p = b.skip(9);
    let mut src = body;
    if remaining(&src) < 49 {
        return Err(protocol("truncated record batch header"));
    }
    advance(&mut src, 4);
    let magic: i8 = get_i8(&mut src);
    assert(src@ =~= b.skip(5));
    if magic != 2 {
        return Err(
            Error::Protocol(
                text::concat_decimal("expected record batch magic 2, got ", magic as i64),
            ),
        );
    }
    let crc: u32 = get_u32(&mut src);
    assert(src@ =~= p);
    let computed: u32 = castagnoli(bytes_slice(&src));
    if computed != crc {
        return Err(
            Error::Protocol(crc_mismatch("record batch crc32c mismatch: got ", crc, computed)),
        );
    }
    let attributes: i16 = get_i16(&mut src);
    let codec = match CompressionCodec::from_attributes(attributes) {
        Err(e) => return Err(e),
        Ok(c) => c,
    };
    advance(&mut src, 4);
    assert(src@ =~= p.skip(6));
    let first_timestamp: i64 = get_i64(&mut src);
    advance(&mut src, 8);
    assert(src@ =~= p.skip(22));
    let producer_id: i64 = get_i64(&mut src);
    assert(src@ =~= p.skip(30));
    let producer_epoch: i16 = get_i16(&mut src);
    assert(src@ =~= p.skip(32));
    let base_sequence: i32 = get_i32(&mut src);
    assert(src@ =~= p.skip(36));
    let records_count: i32 = get_i32(&mut src);
    assert(src@ =~= p.skip(40));
    if records_count < 0 {
        return Err(protocol("negative records count"));
    }
    let mut rec_src: Bytes = if codec == CompressionCodec::Uncompressed {
        src
    } else {
        match compress::decompress(codec, bytes_slice(&src)) {
            Err(e) => return Err(e),
            Ok(v) => bytes_from_vec(v),
        }
    };
    let ghost f = |c: Src| record_at(c, first_timestamp);
    let ghost whole = wire::all_of(rec_src@, records_count as nat, f);
    assert(compress::plain(codec, p.skip(40).bytes) == compress::intact(rec_src@.bytes));
    assert(rec_src@ == Src::of(rec_src@.bytes));
    let mut messages: Vec<Message> = Vec::new();
    let mut i: i32 = 0;
    proof {
        assert(messages.deep_view() =~= Seq::empty());
        wire::lemma_all_start(rec_src@, records_count as nat, f);
    }
    let ghost outcome = batch_at(b.bytes);
    assert(match (outcome, whole.value) {
        (Ok(v), Ok(ms)) => v.messages == ms && v.producer == (RecordBatchProducer {
            producer_id,
            producer_epoch,
            base_sequence,
        }),
        (Err(s), Err(t)) => s == t,
        _ => false,
    });
    while i < records_count
        invariant
            0 <= i <= records_count,
            f == |c: Src| record_at(c, first_timestamp),
            outcome == batch_at(body@.bytes),
            match (outcome, whole.value) {
                (Ok(v), Ok(ms)) => v.messages == ms && v.producer == (RecordBatchProducer {
                    producer_id,
                    producer_epoch,
                    base_sequence,
                }),
                (Err(s), Err(t)) => s == t,
                _ => false,
            },
            whole == wire::all_after(
                messages.deep_view(),
                wire::all_of(rec_src@, (records_count - i) as nat, f),
            ),
        decreases records_count - i,
    {
        let ghost here = rec_src@;
        let ghost seen = messages.deep_view();
        match decode_default_record(&mut rec_src, first_timestamp) {
            Err(e) => return Err(e),
            Ok(m) => {
                proof {
                    wire::lemma_all_step(
                        seen,
                        here,
                        (records_count - i) as nat,
                        f,
                        m.deep_view(),
                    );
                }
                messages.push(m);
                assert(messages.deep_view() =~= seen.push(m.deep_view()));
            },
        }
        i += 1;
    }
    proof {
        wire::lemma_all_done(messages.deep_view(), rec_src@, f);
    }
    Ok(
        DecodedRecordBatch {
            producer: RecordBatchProducer { producer_id, producer_epoch, base_sequence },
            messages,
        },
    )
}

/// Decode contiguous RecordBatches with producer metadata.
pub fn decode_record_batches_detailed(data: &[u8]) -> (r: Result<Vec<DecodedRecordBatch>>)
    ensures
        crate::error::agrees(r, batches_at(Src::of(data@))),
{
    let mut src = copy_bytes(data);
    let mut out: Vec<DecodedRecordBatch> = Vec::new();
    let ghost whole = batches_at(src@);
    assert(src@ == Src::of(data@));
    proof {
        assert(out.deep_view() =~= Seq::empty());
        if let Ok(t) = whole {
            assert(Seq::<BatchView>::empty() + t =~= t);
        }
    }
    while remaining(&src) >= 61
        invariant_except_break
            match batches_at(src@) {
                Ok(t) => whole == Ok::<Seq<BatchView>, Seq<char>>(out.deep_view() + t),
                Err(t) => whole == Err::<Seq<BatchView>, Seq<char>>(t),
            },
        invariant
            whole == batches_at(Src::of(data@)),
        ensures
            whole == Ok::<Seq<BatchView>, Seq<char>>(out.deep_view()),
        decreases src@.left(),
    {
        let ghost here = src@;
        let ghost seen = out.deep_view();
        advance(&mut src, 8);
        let batch_length: i32 = get_i32(&mut src);
        assert(here.skip(8).skip(4) =~= here.skip(12));
        if batch_length < 0 {
            return Err(protocol("negative record batch length"));
        }
        let batch_length: usize = batch_length as usize;
        if remaining(&src) < batch_length {
            assert(seen + Seq::<BatchView>::empty() =~= seen);
            break;
        }
        let body = take_bytes(&mut src, batch_length);
        match decode_one_record_batch(body) {
            Err(e) => return Err(e),
            Ok(one) => {
                proof {
                    if let Ok(t) = batches_at(src@) {
                        assert(seen.push(one.deep_view()) + t =~= seen + (seq![one.deep_view()]
                            + t));
                    }
                }
                out.push(one);
                assert(out.deep_view() =~= seen.push(one.deep_view()));
            },
        }
        proof {
            assert(src@.left() < here.left());
            if src@.left() < 61 {
                assert(out.deep_view() + Seq::<BatchView>::empty() =~= out.deep_view());
            }
        }
    }
    Ok(out)
}

/// Takes the messages out of the batches, in order.
fn flatten(batches: Vec<DecodedRecordBatch>) -> (out: Vec<Message>)
    ensures
        out.deep_view() == all_messages(batches.deep_view()),
{
    let ghost all = batches.deep_view();
    let mut left = batches;
    let mut out: Vec<Message> = Vec::new();
    // The batches are taken from the back, so what was collected goes behind.
    proof {
        assert(out.deep_view() =~= Seq::empty());
        assert(all_messages(all) + Seq::<MessageView>::empty() =~= all_messages(all));
    }
    while left.len() > 0
        invariant
            all == batches.deep_view(),
            all_messages(all) == all_messages(left.deep_view()) + out.deep_view(),
        decreases left.len(),
    {
        let ghost before = left.deep_view();
        let ghost tail = out.deep_view();
        match left.pop() {
            Some(b) => {
                let mut front = b.messages;
                let ghost got = front.deep_view();
                front.append(&mut out);
                out = front;
                proof {
                    assert(left.deep_view() =~= before.drop_last());
                    assert(before.last().messages == got);
                    assert(out.deep_view() =~= got + tail);
                    assert(all_messages(before.drop_last()) + (got + tail) =~= (all_messages(
                        before.drop_last(),
                    ) + got) + tail);
                }
            },
            None => {},
        }
    }
    assert(Seq::<MessageView>::empty() + out.deep_view() =~= out.deep_view());
    out
}

/// The outcome with the batches run together.
pub open spec fn flat(
    r: core::result::Result<Seq<BatchView>, Seq<char>>,
) -> core::result::Result<Seq<MessageView>, Seq<char>> {
    match r {
        Ok(b) => Ok(all_messages(b)),
        Err(t) => Err(t),
    }
}

/// Decode one or more contiguous RecordBatches (magic 2).
pub fn decode_record_batches(data: &[u8]) -> (r: Result<Vec<Message>>)
    ensures
        crate::error::agrees(r, flat(batches_at(Src::of(data@)))),
{
    match decode_record_batches_detailed(data) {
        Err(e) => Err(e),
        Ok(b) => Ok(flatten(b)),
    }
}

/// The batches of a record set, whose magic byte at offset 16 says which of the
/// two formats it is in. A message set counts as one batch without a producer.
pub open spec fn record_set(data: Seq<u8>) -> core::result::Result<Seq<BatchView>, Seq<char>> {
    let magic = wire::be_int(data.skip(16).take(1));
    if data.len() == 0 {
        Ok(Seq::empty())
    } else if data.len() < 17 {
        Err("kafka records too short"@)
    } else if magic == 0 || magic == 1 {
        match message_set(Src::of(data), 0) {
            Err(t) => Err(t),
            Ok(messages) => Ok(
                seq![BatchView { producer: RecordBatchProducer::spec_none(), messages }],
            ),
        }
    } else if magic == 2 {
        batches_at(Src::of(data))
    } else {
        Err("unsupported kafka records magic "@ + text::decimal(magic))
    }
}

/// Decode a produce record set into per-batch units.
///
/// MessageSet payloads yield a single batch without a producer.
pub fn decode_produce_batches(data: &[u8]) -> (r: Result<Vec<DecodedRecordBatch>>)
    ensures
        crate::error::agrees(r, record_set(data@)),
{
    if data.len() == 0 {
        let out: Vec<DecodedRecordBatch> = Vec::new();
        assert(out.deep_view() =~= Seq::empty());
        return Ok(out);
    }
    if data.len() < 17 {
        return Err(protocol("kafka records too short"));
    }
    let mut at = copy_bytes(data);
    advance(&mut at, 16);
    let magic: i8 = get_i8(&mut at);
    if magic == 0 || magic == 1 {
        match decode_message_set(data) {
            Err(e) => Err(e),
            Ok(messages) => {
                let mut out: Vec<DecodedRecordBatch> = Vec::new();
                let batch = DecodedRecordBatch { producer: RecordBatchProducer::none(), messages };
                out.push(batch);
                assert(out.deep_view() =~= seq![batch.deep_view()]);
                Ok(out)
            },
        }
    } else if magic == 2 {
        decode_record_batches_detailed(data)
    } else {
        Err(
            Error::Protocol(
                text::concat_decimal("unsupported kafka records magic ", magic as i64),
            ),
        )
    }
}

/// Decode a produce record set, auto-detecting MessageSet vs RecordBatch.
///
/// Magic byte lives at offset 16 in both formats.
pub fn decode_records(data: &[u8]) -> (r: Result<Vec<Message>>)
    ensures
        crate::error::agrees(r, flat(record_set(data@))),
{
    match decode_produce_batches(data) {
        Err(e) => Err(e),
        Ok(b) => Ok(flatten(b)),
    }
}

/// A message of a message set, from the magic byte on.
pub open spec fn message_body(
    attributes: int,
    timestamp_ms: int,
    key: Option<Seq<u8>>,
    value: Seq<u8>,
) -> Seq<u8> {
    Out::new().byte(1).byte(attributes).i64(timestamp_ms).blob(key).blob(Some(value)).bytes
}

/// A message of a message set, with its offset, its length and its checksum.
pub open spec fn message_out(o: Out, offset: int, body: Seq<u8>) -> Out {
    o.i64(offset).i32((4 + body.len()) as int).i32(crc32_ieee(body) as int).raw(body)
}

/// A record as a message of a message set.
pub open spec fn record_message_out(o: Out, r: RecordView) -> Out {
    message_out(o, r.offset as int, message_body(0, r.timestamp_ms as int, r.key, r.value))
}

/// Records as an uncompressed message set.
pub open spec fn message_set_out(records: Seq<RecordView>) -> Seq<u8> {
    Out::new().each(records, |o: Out, r: RecordView| record_message_out(o, r)).bytes
}

fn put_message(
    out: &mut BytesMut,
    offset: u64,
    attributes: u8,
    timestamp_ms: i64,
    key: Option<&[u8]>,
    value: &[u8],
)
    requires
        attributes < 128,
    ensures
        final(out)@ == message_out(
            old(out)@,
            offset as int,
            message_body(
                attributes as int,
                timestamp_ms as int,
                match key {
                    None => None,
                    Some(k) => Some(k@),
                },
                value@,
            ),
        ),
{
    let mut msg = new_buf();
    put_i8(&mut msg, 1);
    put_i8(&mut msg, attributes as i8);
    put_i64(&mut msg, timestamp_ms);
    put_bytes(&mut msg, key);
    put_bytes(&mut msg, Some(value));
    let crc: u32 = ieee(buf_slice(&msg));
    put_u64(out, offset);
    put_len32(out, 4 + buf_len(&msg));
    put_u32(out, crc);
    put_slice(out, buf_slice(&msg));
}

/// Encode records as a Kafka MessageSet (magic 1, uncompressed).
pub fn encode_message_set(records: &[Record]) -> (out: BytesMut)
    ensures
        out@.bytes == message_set_out(records.deep_view()),
{
    let mut out = new_buf();
    let ghost f = |o: Out, r: RecordView| record_message_out(o, r);
    let ghost rs = records.deep_view();
    let mut i: usize = 0;
    proof {
        wire::lemma_each_all(Out::new(), rs, f);
    }
    while i < records.len()
        invariant
            i <= records@.len(),
            rs == records.deep_view(),
            f == |o: Out, r: RecordView| record_message_out(o, r),
            out@ == Out::new().each(rs.take(i as int), f),
        decreases records@.len() - i,
    {
        let r = &records[i];
        let key: Option<&[u8]> = match &r.key {
            None => None,
            Some(k) => Some(bytes_slice(k)),
        };
        put_message(&mut out, r.offset.raw(), 0, r.timestamp_ms, key, bytes_slice(&r.value));
        proof {
            assert(rs[i as int] == r.deep_view());
            wire::lemma_each_step(Out::new(), rs, i as int, f);
        }
        i += 1;
    }
    proof {
        wire::lemma_each_all(Out::new(), rs, f);
    }
    out
}

/// The latest time among `records` and `start`.
pub open spec fn latest(records: Seq<RecordView>, start: i64) -> i64
    decreases records.len(),
{
    if records.len() == 0 {
        start
    } else {
        let before = latest(records.drop_last(), start);
        if records.last().timestamp_ms > before {
            records.last().timestamp_ms
        } else {
            before
        }
    }
}

fn max_timestamp(records: &[Record]) -> (t: i64)
    requires
        records@.len() > 0,
    ensures
        t == latest(records.deep_view(), records.deep_view()[0].timestamp_ms),
{
    let ghost rs = records.deep_view();
    let start: i64 = records[0].timestamp_ms;
    let mut t: i64 = start;
    let mut i: usize = 0;
    while i < records.len()
        invariant
            i <= records@.len(),
            rs == records.deep_view(),
            t == latest(rs.take(i as int), start),
        decreases records@.len() - i,
    {
        assert(rs.take(i + 1).drop_last() =~= rs.take(i as int));
        assert(rs[i as int].timestamp_ms == records@[i as int].timestamp_ms);
        if records[i].timestamp_ms > t {
            t = records[i].timestamp_ms;
        }
        i += 1;
    }
    assert(rs.take(rs.len() as int) =~= rs);
    t
}

/// The codec that a compressed message set uses: it never had zstd.
pub open spec fn message_set_codec(codec: CompressionCodec) -> CompressionCodec {
    if codec == CompressionCodec::Zstd {
        CompressionCodec::Lz4
    } else {
        codec
    }
}

/// Records as a message that wraps a message set, which `data` is with `codec` applied.
pub open spec fn wrapper_out(
    records: Seq<RecordView>,
    codec: CompressionCodec,
    data: Seq<u8>,
) -> Seq<u8> {
    message_out(
        Out::new(),
        records.last().offset as int,
        message_body(
            codec.number(),
            latest(records, records[0].timestamp_ms) as int,
            None,
            data,
        ),
    ).bytes
}

/// Whether `r` can come of encoding records as a message set that is compressed with
/// `codec`.
pub open spec fn is_message_set(
    records: Seq<RecordView>,
    codec: CompressionCodec,
    r: core::result::Result<Seq<u8>, Seq<char>>,
) -> bool {
    if records.len() == 0 {
        r == compress::intact(Seq::empty())
    } else if codec == CompressionCodec::Uncompressed {
        r == compress::intact(message_set_out(records))
    } else {
        let c = message_set_codec(codec);
        exists|data: core::result::Result<Seq<u8>, Seq<char>>|
            {
                &&& #[trigger] compress::packs(c, message_set_out(records), data)
                &&& match data {
                    Ok(d) => r == compress::intact(wrapper_out(records, c, d)),
                    Err(t) => r == data,
                }
            }
    }
}

/// What an outcome says: the bytes, or the text of the error.
pub open spec fn outcome(r: Result<BytesMut>) -> core::result::Result<Seq<u8>, Seq<char>> {
    match r {
        Ok(b) => Ok(b@.bytes),
        Err(e) => Err(e.text()),
    }
}

/// Wraps a message set that is already compressed with `codec`, if that succeeded.
pub fn wrap_message_set(
    records: &[Record],
    codec: CompressionCodec,
    compressed: Result<Vec<u8>>,
) -> (r: Result<BytesMut>)
    requires
        records@.len() > 0,
    ensures
        match (r, compressed) {
            (Ok(b), Ok(c)) => b@.bytes == wrapper_out(records.deep_view(), codec, c@),
            (Err(e), Err(f)) => e == f,
            _ => false,
        },
{
    let data = match compressed {
        Err(e) => return Err(e),
        Ok(c) => c,
    };
    let last_offset: u64 = records[records.len() - 1].offset.raw();
    let max_ts: i64 = max_timestamp(records);
    let mut out = new_buf();
    put_message(&mut out, last_offset, codec.as_u8(), max_ts, None, data.as_slice());
    Ok(out)
}

/// Encode a compressed MessageSet wrapper.
///
/// Classic MessageSet has no zstd; [`CompressionCodec::Zstd`] is mapped to lz4.
/// [`CompressionCodec::Uncompressed`] delegates to [`encode_message_set`].
pub fn encode_message_set_compressed(records: &[Record], codec: CompressionCodec) -> (r: Result<
    BytesMut,
>)
    ensures
        is_message_set(records.deep_view(), codec, outcome(r)),
        r matches Err(e) ==> e is Protocol,
{
    if records.len() == 0 {
        return Ok(new_buf());
    }
    if codec == CompressionCodec::Uncompressed {
        return Ok(encode_message_set(records));
    }
    let codec = if codec == CompressionCodec::Zstd {
        CompressionCodec::Lz4
    } else {
        codec
    };
    let inner = encode_message_set(records);
    let compressed = compress::compress(codec, buf_slice(&inner));
    assert(compress::packs(
        codec,
        message_set_out(records.deep_view()),
        compress::outcome(compressed),
    ));
    wrap_message_set(records, codec, compressed)
}

/// A length as it goes into a varint: its low-order 32 bits.
pub open spec fn len32(n: nat) -> int {
    n as i32 as int
}

/// A field of a record.
pub open spec fn field_out(o: Out, f: Option<Seq<u8>>) -> Out {
    match f {
        None => o.varint(-1),
        Some(v) => o.varint(len32(v.len())).raw(v),
    }
}

/// A header of a record.
pub open spec fn header_out(o: Out, h: (Seq<char>, Seq<u8>)) -> Out {
    field_out(field_out(o, Some(encode_utf8(h.0))), Some(h.1))
}

/// The headers of a record.
pub open spec fn headers_out(o: Out, headers: Seq<(Seq<char>, Seq<u8>)>) -> Out {
    o.varint(len32(headers.len())).each(
        headers,
        |o: Out, h: (Seq<char>, Seq<u8>)| header_out(o, h),
    )
}

/// A record of a batch, after its length.
pub open spec fn record_body(r: RecordView, first_timestamp: i64, offset_delta: int) -> Seq<u8> {
    let o = Out::new().byte(0).varint((r.timestamp_ms - first_timestamp) as i64 as i32 as int)
        .varint(offset_delta);
    headers_out(field_out(field_out(o, r.key), Some(r.value)), r.headers).bytes
}

/// A record of a batch.
pub open spec fn record_out(
    o: Out,
    r: RecordView,
    first_timestamp: i64,
    offset_delta: int,
) -> Out {
    let body = record_body(r, first_timestamp, offset_delta);
    o.varint(len32(body.len())).raw(body)
}

/// The records of a batch, in order.
pub open spec fn records_out(records: Seq<RecordView>, first_timestamp: i64) -> Out
    decreases records.len(),
{
    if records.len() == 0 {
        Out::new()
    } else {
        record_out(
            records_out(records.drop_last(), first_timestamp),
            records.last(),
            first_timestamp,
            len32((records.len() - 1) as nat),
        )
    }
}

/// The offset of the last of `n` records behind the first, as the header has it.
pub open spec fn last_offset_delta(n: nat) -> int {
    if n as i32 == i32::MIN {
        i32::MIN as int
    } else {
        n as i32 - 1
    }
}

/// A record batch, from the attributes on.
pub open spec fn batch_body(
    records: Seq<RecordView>,
    codec: CompressionCodec,
    producer: RecordBatchProducer,
    payload: Seq<u8>,
) -> Seq<u8> {
    let first = records[0].timestamp_ms;
    Out::new().i16(codec.number()).i32(last_offset_delta(records.len())).i64(first as int).i64(
        latest(records, first) as int,
    ).i64(producer.producer_id as int).i16(producer.producer_epoch as int).i32(
        producer.base_sequence as int,
    ).i32(records.len() as int).raw(payload).bytes
}

/// A record batch whose records, compressed or not, are `payload`.
pub open spec fn batch_out(
    records: Seq<RecordView>,
    codec: CompressionCodec,
    producer: RecordBatchProducer,
    payload: Seq<u8>,
) -> Seq<u8> {
    let body = batch_body(records, codec, producer, payload);
    Out::new().i64(records[0].offset as int).i32((9 + body.len()) as int).i32(-1).byte(2).i32(
        crc32_castagnoli(body) as int,
    ).raw(body).bytes
}

/// Whether `r` can come of encoding records as one record batch that is compressed with
/// `codec`; no records are no batch.
pub open spec fn is_record_batch(
    records: Seq<RecordView>,
    codec: CompressionCodec,
    producer: RecordBatchProducer,
    r: core::result::Result<Seq<u8>, Seq<char>>,
) -> bool {
    if records.len() == 0 {
        r == compress::intact(Seq::empty())
    } else {
        let plain = records_out(records, records[0].timestamp_ms).bytes;
        exists|payload: core::result::Result<Seq<u8>, Seq<char>>|
            {
                &&& #[trigger] compress::packs(codec, plain, payload)
                &&& match payload {
                    Ok(p) => r == compress::intact(batch_out(records, codec, producer, p)),
                    Err(t) => r == payload,
                }
            }
    }
}

/// Records as one record batch without compression; no records are no batch.
pub open spec fn plain_batch_out(
    records: Seq<RecordView>,
    producer: RecordBatchProducer,
) -> Seq<u8> {
    if records.len() == 0 {
        Seq::empty()
    } else {
        batch_out(
            records,
            CompressionCodec::Uncompressed,
            producer,
            records_out(records, records[0].timestamp_ms).bytes,
        )
    }
}

/// Whether the time of every record lies within 64 bits of the time of the first.
pub open spec fn times_comparable(records: Seq<RecordView>) -> bool {
    forall|i: int|
        0 <= i < records.len() ==> i64::MIN <= (#[trigger] records[i]).timestamp_ms
            - records[0].timestamp_ms <= i64::MAX
}

fn put_field(dst: &mut BytesMut, f: &[u8])
    ensures
        final(dst)@ == field_out(old(dst)@, Some(f@)),
{
    write_varint(dst, f.len() as i32);
    put_slice(dst, f);
}

fn put_headers(dst: &mut BytesMut, headers: &Vec<(String, Bytes)>)
    ensures
        final(dst)@ == headers_out(old(dst)@, crate::model::headers_view(headers@)),
{
    let ghost hs = crate::model::headers_view(headers@);
    let ghost f = |o: Out, h: (Seq<char>, Seq<u8>)| header_out(o, h);
    write_varint(dst, headers.len() as i32);
    let ghost o = dst@;
    let mut i: usize = 0;
    proof {
        wire::lemma_each_all(o, hs, f);
    }
    while i < headers.len()
        invariant
            i <= headers@.len(),
            hs == crate::model::headers_view(headers@),
            f == |o: Out, h: (Seq<char>, Seq<u8>)| header_out(o, h),
            dst@ == o.each(hs.take(i as int), f),
        decreases headers@.len() - i,
    {
        put_field(dst, headers[i].0.as_str().as_bytes());
        put_field(dst, bytes_slice(&headers[i].1));
        proof {
            wire::lemma_each_step(o, hs, i as int, f);
        }
        i += 1;
    }
    proof {
        wire::lemma_each_all(o, hs, f);
    }
}

fn encode_default_record(dst: &mut BytesMut, r: &Record, first_timestamp: i64, offset_delta: i32)
    requires
        i64::MIN <= r.timestamp_ms - first_timestamp <= i64::MAX,
    ensures
        final(dst)@ == record_out(
            old(dst)@,
            r.deep_view(),
            first_timestamp,
            offset_delta as int,
        ),
{
    let mut body = new_buf();
    put_i8(&mut body, 0);
    write_varint(&mut body, (r.timestamp_ms - first_timestamp) as i32);
    write_varint(&mut body, offset_delta);
    match &r.key {
        None => write_varint(&mut body, -1),
        Some(k) => put_field(&mut body, bytes_slice(k)),
    }
    put_field(&mut body, bytes_slice(&r.value));
    put_headers(&mut body, &r.headers);
    write_varint(dst, buf_len(&body) as i32);
    put_slice(dst, buf_slice(&body));
}

/// Frames records that are already encoded and compressed with `codec`, if that succeeded,
/// as one record batch.
pub fn seal_record_batch(
    records: &[Record],
    codec: CompressionCodec,
    producer: RecordBatchProducer,
    compressed: Result<Vec<u8>>,
) -> (r: Result<BytesMut>)
    requires
        records@.len() > 0,
    ensures
        match (r, compressed) {
            (Ok(b), Ok(p)) => b@.bytes == batch_out(records.deep_view(), codec, producer, p@),
            (Err(e), Err(f)) => e == f,
            _ => false,
        },
{
    let payload = match compressed {
        Err(e) => return Err(e),
        Ok(p) => p,
    };
    let base_offset: u64 = records[0].offset.raw();
    let first_timestamp: i64 = records[0].timestamp_ms;
    let max_ts: i64 = max_timestamp(records);
    let n: i32 = records.len() as i32;
    let last_delta: i32 = if n == i32::MIN {
        n
    } else {
        n - 1
    };
    let mut body = new_buf();
    put_i16(&mut body, codec.as_u8() as i16);
    put_i32(&mut body, last_delta);
    put_i64(&mut body, first_timestamp);
    put_i64(&mut body, max_ts);
    put_i64(&mut body, producer.producer_id);
    put_i16(&mut body, producer.producer_epoch);
    put_i32(&mut body, producer.base_sequence);
    put_len32(&mut body, records.len());
    put_slice(&mut body, payload.as_slice());
    let crc: u32 = castagnoli(buf_slice(&body));
    let mut out = new_buf();
    put_u64(&mut out, base_offset);
    put_len32(&mut out, 9 + buf_len(&body));
    put_i32(&mut out, -1);
    put_i8(&mut out, 2);
    put_u32(&mut out, crc);
    put_slice(&mut out, buf_slice(&body));
    Ok(out)
}

fn encode_record_batch_with_options(
    records: &[Record],
    codec: CompressionCodec,
    producer: RecordBatchProducer,
) -> (r: Result<BytesMut>)
    requires
        times_comparable(records.deep_view()),
    ensures
        is_record_batch(records.deep_view(), codec, producer, outcome(r)),
        r matches Err(e) ==> e is Protocol,
{
    if records.len() == 0 {
        return Ok(new_buf());
    }
    let ghost rs = records.deep_view();
    let first_timestamp: i64 = records[0].timestamp_ms;
    let mut records_buf = new_buf();
    let mut i: usize = 0;
    assert(rs.take(0).len() == 0);
    while i < records.len()
        invariant
            i <= records@.len(),
            rs == records.deep_view(),
            times_comparable(rs),
            rs.len() > 0,
            first_timestamp == rs[0].timestamp_ms,
            records_buf@ == records_out(rs.take(i as int), first_timestamp),
        decreases records@.len() - i,
    {
        assert(rs.take(i + 1).drop_last() =~= rs.take(i as int));
        assert(rs[i as int] == records@[i as int].deep_view());
        encode_default_record(&mut records_buf, &records[i], first_timestamp, i as i32);
        i += 1;
    }
    assert(rs.take(rs.len() as int) =~= rs);
    let compressed = compress::compress(codec, buf_slice(&records_buf));
    assert(compress::packs(
        codec,
        records_out(rs, rs[0].timestamp_ms).bytes,
        compress::outcome(compressed),
    ));
    seal_record_batch(records, codec, producer, compressed)
}

/// Encode records as a single Kafka RecordBatch (magic 2, no compression).
pub fn encode_record_batch(records: &[Record]) -> (out: BytesMut)
    requires
        times_comparable(records.deep_view()),
    ensures
        out@.bytes == plain_batch_out(records.deep_view(), RecordBatchProducer::spec_none()),
{
    match encode_record_batch_with_options(
        records,
        CompressionCodec::Uncompressed,
        RecordBatchProducer::none(),
    ) {
        Ok(out) => out,
        Err(_) => new_buf(),
    }
}

/// Encode records as a RecordBatch with the given compression codec.
pub fn encode_record_batch_compressed(records: &[Record], codec: CompressionCodec) -> (r: Result<
    BytesMut,
>)
    requires
        times_comparable(records.deep_view()),
    ensures
        is_record_batch(
            records.deep_view(),
            codec,
            RecordBatchProducer::spec_none(),
            outcome(r),
        ),
        r matches Err(e) ==> e is Protocol,
{
    encode_record_batch_with_options(records, codec, RecordBatchProducer::none())
}

/// Encode an idempotent RecordBatch.
pub fn encode_record_batch_idempotent(
    records: &[Record],
    producer_id: i64,
    producer_epoch: i16,
    base_sequence: i32,
) -> (out: BytesMut)
    requires
        times_comparable(records.deep_view()),
    ensures
        out@.bytes == plain_batch_out(
            records.deep_view(),
            (RecordBatchProducer { producer_id, producer_epoch, base_sequence }),
        ),
{
    match encode_record_batch_with_options(
        records,
        CompressionCodec::Uncompressed,
        RecordBatchProducer { producer_id, producer_epoch, base_sequence },
    ) {
        Ok(out) => out,
        Err(_) => new_buf(),
    }
}

} // verus!
