//! What is written is read back: the laws that tie the encoders to the decoders.

use vstd::prelude::*;
use vstd::utf8::*;

use crate::codec;
use crate::codec::HeaderView;
use crate::compress;
use crate::compress::CompressionCodec;
use crate::consumer_protocol;
use crate::consumer_protocol::TopicParts;
use crate::model::{MessageView, RecordView};
use crate::records;
use crate::records::{BatchView, RecordBatchProducer};
use crate::text;
use crate::wire;
use crate::wire::{Out, Parsed, Src};

verus! {

/// A 16-bit number is read back.
pub proof fn law_i16(v: i16, rest: Seq<u8>)
    ensures
        Src::of(wire::be16(v as int) + rest).left() >= 2,
        Src::of(wire::be16(v as int) + rest).i16() == v,
        Src::of(wire::be16(v as int) + rest).skip(2) == Src::of(rest),
{
    wire::lemma_be_len(2, v as int);
    wire::lemma_split_cat(wire::be16(v as int), rest);
    wire::lemma_fits(v as int);
    wire::lemma_be_int(2, v as int);
}

/// A 32-bit number is read back.
pub proof fn law_i32(v: i32, rest: Seq<u8>)
    ensures
        Src::of(wire::be32(v as int) + rest).left() >= 4,
        Src::of(wire::be32(v as int) + rest).i32() == v,
        Src::of(wire::be32(v as int) + rest).skip(4) == Src::of(rest),
{
    wire::lemma_be_len(4, v as int);
    wire::lemma_split_cat(wire::be32(v as int), rest);
    wire::lemma_fits(v as int);
    wire::lemma_be_int(4, v as int);
}

/// A 32-bit number without a sign is read back.
pub proof fn law_u32(v: u32, rest: Seq<u8>)
    ensures
        Src::of(wire::be32(v as int) + rest).left() >= 4,
        Src::of(wire::be32(v as int) + rest).u32() == v,
        Src::of(wire::be32(v as int) + rest).skip(4) == Src::of(rest),
{
    wire::lemma_be_len(4, v as int);
    wire::lemma_split_cat(wire::be32(v as int), rest);
    wire::lemma_fits(v as int);
    wire::lemma_be_uint(4, v as int);
}

/// A 64-bit number is read back.
pub proof fn law_i64(v: i64, rest: Seq<u8>)
    ensures
        Src::of(wire::be64(v as int) + rest).left() >= 8,
        Src::of(wire::be64(v as int) + rest).i64() == v,
        Src::of(wire::be64(v as int) + rest).skip(8) == Src::of(rest),
{
    wire::lemma_be_len(8, v as int);
    wire::lemma_split_cat(wire::be64(v as int), rest);
    wire::lemma_fits(v as int);
    wire::lemma_be_int(8, v as int);
}

/// An 8-bit number is read back.
pub proof fn law_i8(v: i8, rest: Seq<u8>)
    ensures
        Src::of(wire::be8(v as int) + rest).left() >= 1,
        Src::of(wire::be8(v as int) + rest).i8() == v,
        Src::of(wire::be8(v as int) + rest).skip(1) == Src::of(rest),
{
    wire::lemma_be_len(1, v as int);
    wire::lemma_split_cat(wire::be8(v as int), rest);
    wire::lemma_fits(v as int);
    wire::lemma_be_int(1, v as int);
}

/// Whether `v` takes at most `most` bytes as a varint.
pub open spec fn fits_varint(v: nat, most: nat) -> bool
    decreases most,
{
    if most == 0 {
        false
    } else {
        v < 128 || fits_varint(v / 128, (most - 1) as nat)
    }
}

proof fn lemma_u32_fits_varint(v: nat)
    requires
        v <= u32::MAX,
    ensures
        fits_varint(v, 5),
{
    reveal_with_fuel(fits_varint, 6);
}

proof fn lemma_uvarint_at(v: nat, most: nat, rest: Seq<u8>)
    requires
        fits_varint(v, most),
    ensures
        wire::uvarint_at(Src::of(wire::uvarint(v) + rest), most) == wire::done(
            v,
            Src::of(rest),
        ),
        wire::varint_at(Src::of(wire::uvarint(v) + rest), most) == wire::done(
            v,
            Src::of(rest),
        ),
    decreases most,
{
    let b = Src::of(wire::uvarint(v) + rest);
    if v < 128 {
        assert(b.skip(1).bytes =~= rest);
    } else {
        let tail = wire::uvarint(v / 128) + rest;
        assert(b.bytes =~= seq![(v % 128 + 128) as u8] + tail);
        assert(b.skip(1).bytes =~= tail);
        lemma_uvarint_at(v / 128, (most - 1) as nat, rest);
        assert(b.u8() - 128 + 128 * (v / 128) == v);
    }
}

/// An unsigned varint is read back.
pub proof fn law_uvarint(v: u32, rest: Seq<u8>)
    ensures
        Src::of(wire::uvarint(v as nat) + rest).uvarint() == wire::done(
            v as nat,
            Src::of(rest),
        ),
{
    lemma_u32_fits_varint(v as nat);
    lemma_uvarint_at(v as nat, 5, rest);
}

/// Zig-zag counts every number once.
pub proof fn law_zigzag(v: int)
    ensures
        wire::unzigzag(wire::zigzag(v)) == v,
        i32::MIN <= v <= i32::MAX ==> wire::zigzag(v) <= u32::MAX,
{
}

/// A signed varint is read back.
pub proof fn law_varint(v: i32, rest: Seq<u8>)
    ensures
        Src::of(wire::uvarint(wire::zigzag(v as int)) + rest).varint() == wire::done(
            v as int,
            Src::of(rest),
        ),
{
    law_zigzag(v as int);
    lemma_u32_fits_varint(wire::zigzag(v as int));
    lemma_uvarint_at(wire::zigzag(v as int), 5, rest);
}

/// UTF-8 text is read back.
proof fn lemma_utf8(s: Seq<char>, rest: Seq<u8>, what: Seq<char>)
    ensures
        Src::of(encode_utf8(s) + rest).utf8(encode_utf8(s).len() as int, what) == wire::done(
            s,
            Src::of(rest),
        ),
{
    wire::lemma_split_cat(encode_utf8(s), rest);
    encode_utf8_valid_utf8(s);
    encode_utf8_decode_utf8(s);
}

/// A string of at most 32767 bytes is read back.
pub proof fn law_string(s: Seq<char>, rest: Seq<u8>)
    requires
        encode_utf8(s).len() <= i16::MAX,
    ensures
        Src::of(Out::new().string(s).bytes + rest).string() == wire::done(
            s,
            Src::of(rest),
        ),
        Src::of(Out::new().string(s).bytes + rest).nullable() == wire::done(
            Some(s),
            Src::of(rest),
        ),
{
    let e = encode_utf8(s);
    let n = e.len() as i16;
    assert(Out::new().string(s).bytes + rest =~= wire::be16(n as int) + (e + rest));
    law_i16(n, e + rest);
    lemma_utf8(s, rest, "kafka string utf8: "@);
}

/// A nullable string of at most 32767 bytes is read back.
pub proof fn law_nullable(s: Option<Seq<char>>, rest: Seq<u8>)
    requires
        s matches Some(v) ==> encode_utf8(v).len() <= i16::MAX,
    ensures
        Src::of(Out::new().nullable(s).bytes + rest).nullable() == wire::done(
            s,
            Src::of(rest),
        ),
{
    match s {
        Some(v) => law_string(v, rest),
        None => {
            assert(Out::new().nullable(s).bytes =~= wire::be16(-1));
            law_i16((-1int) as i16, rest);
        },
    }
}

/// Nullable bytes of at most `i32::MAX` bytes are read back.
pub proof fn law_blob(b: Option<Seq<u8>>, rest: Seq<u8>)
    requires
        b matches Some(v) ==> v.len() <= i32::MAX,
    ensures
        Src::of(Out::new().blob(b).bytes + rest).blob() == wire::done(
            b,
            Src::of(rest),
        ),
{
    match b {
        Some(v) => {
            let n = v.len() as i32;
            assert(Out::new().blob(b).bytes + rest =~= wire::be32(n as int) + (v + rest));
            law_i32(n, v + rest);
            wire::lemma_split_cat(v, rest);
        },
        None => {
            assert(Out::new().blob(b).bytes =~= wire::be32(-1));
            law_i32((-1int) as i32, rest);
        },
    }
}

/// The length of a compact array is read back where it is less than `u32::MAX`.
pub proof fn law_compact_len(n: nat, rest: Seq<u8>)
    requires
        n < u32::MAX,
    ensures
        Src::of(Out::new().compact_len(n).bytes + rest).compact_len() == wire::done(
            Some(n as usize),
            Src::of(rest),
        ),
{
    assert(Out::new().compact_len(n).bytes =~= wire::uvarint(n + 1));
    law_uvarint((n + 1) as u32, rest);
}

/// A compact string of less than `u32::MAX` bytes is read back.
pub proof fn law_compact(s: Seq<char>, rest: Seq<u8>)
    requires
        encode_utf8(s).len() < u32::MAX,
    ensures
        Src::of(Out::new().compact(s).bytes + rest).compact() == wire::done(
            s,
            Src::of(rest),
        ),
        Src::of(Out::new().compact(s).bytes + rest).compact_nullable() == wire::done(
            Some(s),
            Src::of(rest),
        ),
{
    let e = encode_utf8(s);
    let n = (e.len() + 1) as u32;
    assert(Out::new().compact(s).bytes + rest =~= wire::uvarint(n as nat) + (e + rest));
    law_uvarint(n, e + rest);
    lemma_utf8(s, rest, "compact string utf8: "@);
}

/// A compact nullable string of less than `u32::MAX` bytes is read back.
pub proof fn law_compact_nullable(s: Option<Seq<char>>, rest: Seq<u8>)
    requires
        s matches Some(v) ==> encode_utf8(v).len() < u32::MAX,
    ensures
        Src::of(Out::new().compact_nullable(s).bytes + rest).compact_nullable()
            == wire::done(s, Src::of(rest)),
{
    match s {
        Some(v) => law_compact(v, rest),
        None => {
            assert(Out::new().compact_nullable(s).bytes =~= wire::uvarint(0));
            law_uvarint(0, rest);
        },
    }
}

/// Compact nullable bytes of less than `u32::MAX` bytes are read back.
pub proof fn law_compact_blob(b: Option<Seq<u8>>, rest: Seq<u8>)
    requires
        b matches Some(v) ==> v.len() < u32::MAX,
    ensures
        Src::of(Out::new().compact_blob(b).bytes + rest).compact_blob() == wire::done(
            b,
            Src::of(rest),
        ),
{
    match b {
        Some(v) => {
            let n = (v.len() + 1) as u32;
            assert(Out::new().compact_blob(b).bytes + rest =~= wire::uvarint(n as nat) + (v
                + rest));
            law_uvarint(n, v + rest);
            wire::lemma_split_cat(v, rest);
        },
        None => {
            assert(Out::new().compact_blob(b).bytes =~= wire::uvarint(0));
            law_uvarint(0, rest);
        },
    }
}

/// An empty tag buffer is passed over.
pub proof fn law_tags(rest: Seq<u8>)
    ensures
        Src::of(Out::new().tags().bytes + rest).tags() == wire::done(
            (),
            Src::of(rest),
        ),
{
    assert(Out::new().tags().bytes =~= wire::uvarint(0));
    law_uvarint(0, rest);
}

/// Reading `n + m` elements is reading `n` and then `m`.
proof fn lemma_all_split<T>(b: Src, n: nat, m: nat, f: spec_fn(Src) -> Parsed<T>)
    requires
        wire::all_of(b, n, f).value is Ok,
    ensures
        wire::all_of(b, n + m, f) == wire::all_after(
            wire::all_of(b, n, f).value->Ok_0,
            wire::all_of(wire::all_of(b, n, f).rest, m, f),
        ),
    decreases n,
{
    if n == 0 {
        wire::lemma_all_start(b, m, f);
    } else {
        let p = f(b);
        lemma_all_split(p.rest, (n - 1) as nat, m, f);
        let v = p.value->Ok_0;
        let vs = wire::all_of(p.rest, (n - 1) as nat, f).value->Ok_0;
        let q = wire::all_of(wire::all_of(b, n, f).rest, m, f);
        if let Ok(w) = q.value {
            assert(seq![v] + (vs + w) =~= (seq![v] + vs) + w);
        }
        assert((n + m - 1) as nat == (n - 1) as nat + m);
    }
}

/// Reading one element more.
proof fn lemma_all_snoc<T>(
    b: Src,
    n: nat,
    f: spec_fn(Src) -> Parsed<T>,
    vs: Seq<T>,
    r: Src,
    v: T,
    rest: Src,
)
    requires
        wire::all_of(b, n, f) == wire::done(vs, r),
        f(r) == wire::done(v, rest),
    ensures
        wire::all_of(b, n + 1, f) == wire::done(vs.push(v), rest),
{
    lemma_all_split(b, n, 1, f);
    assert(wire::all_of(rest, 0, f) == wire::done(Seq::<T>::empty(), rest));
    assert(seq![v] + Seq::<T>::empty() =~= seq![v]);
    assert(wire::all_of(r, 1, f) == wire::done(seq![v], rest));
    assert(vs + seq![v] =~= vs.push(v));
}

/// Whether the writer `g` of an element only appends, and the reader `f` reads
/// back what it appends.
pub open spec fn inverse<T>(x: T, g: spec_fn(Out, T) -> Out, f: spec_fn(Src) -> Parsed<T>) -> bool {
    &&& forall|o: Out| (#[trigger] g(o, x)).bytes == o.bytes + g(Out::new(), x).bytes
    &&& forall|rest: Seq<u8>|
        f(#[trigger] Src::of(g(Out::new(), x).bytes + rest)) == wire::done(
            x,
            Src::of(rest),
        )
}

/// Elements that are written one after the other are read back, if each is.
pub proof fn law_each<T>(
    items: Seq<T>,
    g: spec_fn(Out, T) -> Out,
    f: spec_fn(Src) -> Parsed<T>,
    rest: Seq<u8>,
)
    requires
        forall|i: int| 0 <= i < items.len() ==> inverse(#[trigger] items[i], g, f),
    ensures
        wire::all_of(
            Src::of(Out::new().each(items, g).bytes + rest),
            items.len(),
            f,
        ) == wire::done(items, Src::of(rest)),
    decreases items.len(),
{
    let b = Src::of(Out::new().each(items, g).bytes + rest);
    if items.len() == 0 {
        assert(b.bytes =~= rest);
        assert(items =~= Seq::empty());
    } else {
        let init = items.drop_last();
        let x = items.last();
        assert(inverse(items[items.len() - 1], g, f));
        assert forall|i: int| 0 <= i < init.len() implies inverse(#[trigger] init[i], g, f) by {
            assert(init[i] == items[i]);
        }
        let o = Out::new().each(init, g);
        let one = g(Out::new(), x).bytes;
        law_each(init, g, f, one + rest);
        assert(g(o, x).bytes == o.bytes + one);
        assert(b.bytes =~= o.bytes + (one + rest));
        let r = Src::of(one + rest);
        assert(f(r) == wire::done(x, Src::of(rest)));
        lemma_all_snoc(b, init.len(), f, init, r, x, Src::of(rest));
        assert(init.push(x) =~= items);
    }
}

/// Writers only append.
proof fn lemma_each_appends<T>(o: Out, items: Seq<T>, g: spec_fn(Out, T) -> Out)
    requires
        forall|i: int, o: Out|
            #![trigger g(o, items[i])]
            0 <= i < items.len() ==> g(o, items[i]).bytes == o.bytes + g(
                Out::new(),
                items[i],
            ).bytes,
    ensures
        o.each(items, g).bytes == o.bytes + Out::new().each(items, g).bytes,
    decreases items.len(),
{
    if items.len() == 0 {
        assert(o.bytes + Seq::<u8>::empty() =~= o.bytes);
    } else {
        let init = items.drop_last();
        assert forall|i: int, o: Out|
            #![trigger g(o, init[i])]
            0 <= i < init.len() implies g(o, init[i]).bytes == o.bytes + g(
            Out::new(),
            init[i],
        ).bytes by {
            assert(init[i] == items[i]);
        }
        lemma_each_appends(o, init, g);
        let last = items.len() - 1;
        let a = o.each(init, g);
        let c = Out::new().each(init, g);
        assert(g(a, items[last]).bytes == a.bytes + g(Out::new(), items[last]).bytes);
        assert(g(c, items[last]).bytes == c.bytes + g(Out::new(), items[last]).bytes);
        assert(o.each(items, g).bytes =~= o.bytes + Out::new().each(items, g).bytes);
    }
}

/// A record as the message that a message set carries: it has no headers there.
pub open spec fn plain_message(r: RecordView) -> MessageView {
    MessageView {
        key: r.key,
        value: r.value,
        timestamp_ms: Some(r.timestamp_ms),
        headers: Seq::empty(),
    }
}

/// A record as a message.
pub open spec fn whole_message(r: RecordView) -> MessageView {
    MessageView {
        key: r.key,
        value: r.value,
        timestamp_ms: Some(r.timestamp_ms),
        headers: r.headers,
    }
}

/// What one message yields, given its parts.
pub open spec fn message_yield(
    codec: CompressionCodec,
    timestamp_ms: i64,
    key: Option<Seq<u8>>,
    value: Seq<u8>,
    depth: nat,
) -> core::result::Result<Seq<MessageView>, Seq<char>> {
    if codec == CompressionCodec::Uncompressed {
        Ok(
            seq![
                MessageView {
                    key,
                    value,
                    timestamp_ms: Some(timestamp_ms),
                    headers: Seq::empty(),
                },
            ],
        )
    } else if depth >= 3 {
        Err("message set compression nesting too deep"@)
    } else {
        match compress::plain(codec, value) {
            Err(t) => Err(t),
            Ok(p) => records::message_set(Src::of(p), depth + 1),
        }
    }
}

/// Nothing in front changes nothing.
proof fn lemma_cat_empty(a: Seq<u8>)
    ensures
        Seq::<u8>::empty() + a == a,
        a + Seq::<u8>::empty() == a,
{
    assert(Seq::<u8>::empty() + a =~= a);
    assert(a + Seq::<u8>::empty() =~= a);
}

/// What is appended goes in front of what follows.
proof fn lemma_raw(o: Out, x: Seq<u8>, rest: Seq<u8>)
    ensures
        o.raw(x).bytes + rest == o.bytes + (x + rest),
{
    assert(o.raw(x).bytes + rest =~= o.bytes + (x + rest));
}

/// Writing nullable bytes only appends.
proof fn lemma_blob_appends(o: Out, b: Option<Seq<u8>>)
    ensures
        o.blob(b).bytes == o.bytes + Out::new().blob(b).bytes,
{
    assert(o.blob(b).bytes =~= o.bytes + Out::new().blob(b).bytes);
}

proof fn lemma_message_layout(a: int, ts: int, key: Option<Seq<u8>>, value: Seq<u8>)
    ensures
        records::message_body(a, ts, key, value) == wire::be8(1) + (wire::be8(a) + (wire::be64(ts)
            + (Out::new().blob(key).bytes + Out::new().blob(Some(value)).bytes))),
{
    let kb = Out::new().blob(key).bytes;
    let vb = Out::new().blob(Some(value)).bytes;
    let o1 = Out::new().byte(1);
    let o2 = o1.byte(a);
    let o3 = o2.i64(ts);
    lemma_blob_appends(o3, key);
    lemma_blob_appends(o3.blob(key), Some(value));
    lemma_raw(o3, kb, vb);
    lemma_raw(o2, wire::be64(ts), kb + vb);
    lemma_raw(o1, wire::be8(a), wire::be64(ts) + (kb + vb));
    lemma_cat_empty(wire::be8(1));
}

proof fn lemma_message_parts(a: i8, ts: i64, key: Option<Seq<u8>>, value: Seq<u8>)
    requires
        key matches Some(k) ==> k.len() <= i32::MAX,
        value.len() <= i32::MAX,
    ensures
        ({
            let m = Src::of(records::message_body(a as int, ts as int, key, value));
            let vb = Src::of(Out::new().blob(Some(value)).bytes);
            &&& m.left() >= 10
            &&& m.i8() == 1
            &&& m.skip(1).i8() == a
            &&& m.skip(2).left() >= 8
            &&& m.skip(2).i64() == ts
            &&& m.skip(2).skip(8).blob() == wire::done(key, vb)
            &&& vb.blob() == wire::done(Some(value), Src::of(Seq::empty()))
        }),
{
    let kb = Out::new().blob(key).bytes;
    let vb = Out::new().blob(Some(value)).bytes;
    let tail = kb + vb;
    let timed = wire::be64(ts as int) + tail;
    let rest = wire::be8(a as int) + timed;
    lemma_message_layout(a as int, ts as int, key, value);
    law_i8(1, rest);
    law_i8(a, timed);
    law_i64(ts, tail);
    law_blob(key, vb);
    lemma_cat_empty(vb);
    law_blob(Some(value), Seq::empty());
    let m = Src::of(records::message_body(a as int, ts as int, key, value));
    assert(m == Src::of(wire::be8(1) + rest));
    assert(m.skip(2) =~= m.skip(1).skip(1));
}

proof fn lemma_codec_bits(codec: CompressionCodec)
    ensures
        compress::codec_of((codec.number() as i8 & 7) as i16) == Some(codec),
        compress::codec_of(codec.number() as i16) == Some(codec),
{
    assert(0i8 & 7 == 0 && 1i8 & 7 == 1 && 2i8 & 7 == 2 && 3i8 & 7 == 3 && 4i8 & 7 == 4)
        by (bit_vector);
    assert(0i16 & 7 == 0 && 1i16 & 7 == 1 && 2i16 & 7 == 2 && 3i16 & 7 == 3 && 4i16 & 7 == 4)
        by (bit_vector);
}

#[verifier::spinoff_prover]
#[verifier::rlimit(60)]
proof fn lemma_message_at(
    codec: CompressionCodec,
    timestamp_ms: i64,
    key: Option<Seq<u8>>,
    value: Seq<u8>,
    depth: nat,
)
    requires
        key matches Some(k) ==> k.len() <= i32::MAX,
        value.len() <= i32::MAX,
    ensures
        ({
            let body = records::message_body(codec.number(), timestamp_ms as int, key, value);
            records::message_at(wire::be32(records::crc32_ieee(body) as int) + body, depth)
                == message_yield(codec, timestamp_ms, key, value, depth)
        }),
{
    let a = codec.number();
    let body = records::message_body(a, timestamp_ms as int, key, value);
    let crc = records::crc32_ieee(body);
    let s = wire::be32(crc as int) + body;
    law_u32(crc, body);
    wire::lemma_be_len(4, crc as int);
    assert(s.skip(4) == body) by {
        wire::lemma_split_cat(wire::be32(crc as int), body);
    }
    lemma_message_parts(a as i8, timestamp_ms, key, value);
    lemma_codec_bits(codec);
}

proof fn lemma_message_set_step(offset: u64, body: Seq<u8>, depth: nat, rest: Seq<u8>)
    requires
        body.len() + 4 <= i32::MAX,
    ensures
        ({
            let one = wire::be32(records::crc32_ieee(body) as int) + body;
            let set = records::message_out(Out::new(), offset as int, body).bytes + rest;
            records::message_set(Src::of(set), depth) == match records::message_at(one, depth) {
                Err(t) => Err(t),
                Ok(ms) => records::with_seen(ms, records::message_set(Src::of(rest), depth)),
            }
        }),
{
    let one = wire::be32(records::crc32_ieee(body) as int) + body;
    let set = records::message_out(Out::new(), offset as int, body).bytes + rest;
    let n = (4 + body.len()) as i32;
    wire::lemma_be_len(8, offset as int);
    wire::lemma_be_len(4, n as int);
    wire::lemma_be_len(4, records::crc32_ieee(body) as int);
    let sized = wire::be32(n as int) + (one + rest);
    assert(set =~= wire::be64(offset as int) + sized);
    wire::lemma_split_cat(wire::be64(offset as int), sized);
    let b = Src::of(set);
    law_i32(n, one + rest);
    assert(b.skip(12) =~= b.skip(8).skip(4));
    wire::lemma_split_cat(one, rest);
    assert(one.len() == n);
}

/// Whether a record fits a message set.
pub open spec fn fits_message_set(r: RecordView) -> bool {
    records::message_body(0, r.timestamp_ms as int, r.key, r.value).len() + 4 <= i32::MAX
}

proof fn lemma_record_message(r: RecordView)
    requires
        fits_message_set(r),
    ensures
        r.key matches Some(k) ==> k.len() <= i32::MAX,
        r.value.len() <= i32::MAX,
{
    lemma_message_layout(0, r.timestamp_ms as int, r.key, r.value);
}

proof fn lemma_message_out_appends(o: Out, offset: int, body: Seq<u8>)
    ensures
        records::message_out(o, offset, body).bytes == o.bytes + records::message_out(
            Out::new(),
            offset,
            body,
        ).bytes,
{
    let len = wire::be32((4 + body.len()) as int);
    let crc = wire::be32(records::crc32_ieee(body) as int);
    lemma_raw(o.i64(offset).i32((4 + body.len()) as int), crc, body);
    lemma_raw(o.i64(offset), len, crc + body);
    lemma_raw(o, wire::be64(offset), len + (crc + body));
    let n = Out::new();
    lemma_raw(n.i64(offset).i32((4 + body.len()) as int), crc, body);
    lemma_raw(n.i64(offset), len, crc + body);
    lemma_cat_empty(wire::be64(offset));
}

/// A record that is written as a message is read back.
#[verifier::spinoff_prover]
#[verifier::rlimit(60)]
proof fn lemma_set_one(r: RecordView, depth: nat, rest: Seq<u8>)
    requires
        fits_message_set(r),
    ensures
        records::message_set(
            Src::of(records::record_message_out(Out::new(), r).bytes + rest),
            depth,
        ) == records::with_seen(
            seq![plain_message(r)],
            records::message_set(Src::of(rest), depth),
        ),
{
    lemma_record_message(r);
    let body = records::message_body(0, r.timestamp_ms as int, r.key, r.value);
    lemma_message_at(CompressionCodec::Uncompressed, r.timestamp_ms, r.key, r.value, depth);
    lemma_message_set_step(r.offset, body, depth, rest);
}

/// The last record of a message set comes last.
proof fn lemma_set_snoc(rs: Seq<RecordView>)
    requires
        rs.len() > 0,
    ensures
        records::message_set_out(rs) == records::message_set_out(rs.drop_last())
            + records::record_message_out(Out::new(), rs.last()).bytes,
{
    let f = |o: Out, r: RecordView| records::record_message_out(o, r);
    let o = Out::new().each(rs.drop_last(), f);
    let r = rs.last();
    lemma_message_out_appends(
        o,
        r.offset as int,
        records::message_body(0, r.timestamp_ms as int, r.key, r.value),
    );
}

/// Records that are written as an uncompressed message set are read back, in
/// order, without their headers and with whatever follows them.
#[verifier::spinoff_prover]
#[verifier::rlimit(60)]
pub proof fn law_message_set(rs: Seq<RecordView>, depth: nat, rest: Seq<u8>)
    requires
        forall|i: int| 0 <= i < rs.len() ==> fits_message_set(#[trigger] rs[i]),
    ensures
        records::message_set(Src::of(records::message_set_out(rs) + rest), depth)
            == records::with_seen(
            rs.map_values(|r: RecordView| plain_message(r)),
            records::message_set(Src::of(rest), depth),
        ),
    decreases rs.len(),
{
    let view = |r: RecordView| plain_message(r);
    let after = records::message_set(Src::of(rest), depth);
    if rs.len() == 0 {
        assert(records::message_set_out(rs) + rest =~= rest);
        if let Ok(t) = after {
            assert(rs.map_values(view) + t =~= t);
        }
    } else {
        let init = rs.drop_last();
        let r = rs.last();
        assert(fits_message_set(rs[rs.len() - 1]));
        assert forall|i: int| 0 <= i < init.len() implies fits_message_set(#[trigger] init[i]) by {
            assert(init[i] == rs[i]);
        }
        let one = records::record_message_out(Out::new(), r).bytes;
        law_message_set(init, depth, one + rest);
        lemma_set_snoc(rs);
        wire::lemma_cat_assoc(records::message_set_out(init), one, rest);
        lemma_set_one(r, depth, rest);
        if let Ok(t) = after {
            assert(init.map_values(view) + (seq![plain_message(r)] + t) =~= rs.map_values(view)
                + t);
        }
    }
}

/// Records that are written as a message set, compressed or not, are read back,
/// in order and without their headers, where every length fits its field.
#[verifier::spinoff_prover]
#[verifier::rlimit(60)]
pub proof fn law_compressed_message_set(
    rs: Seq<RecordView>,
    codec: CompressionCodec,
    out: Seq<u8>,
)
    requires
        forall|i: int| 0 <= i < rs.len() ==> fits_message_set(#[trigger] rs[i]),
        records::is_message_set(rs, codec, compress::intact(out)),
        codec != CompressionCodec::Uncompressed ==> out.len() <= i32::MAX + 12,
    ensures
        records::message_set(Src::of(out), 0) == (core::result::Result::<
            Seq<MessageView>,
            Seq<char>,
        >::Ok(rs.map_values(|r: RecordView| plain_message(r)))),
        rs.len() > 0 ==> out.len() > 17 && out[16] == 1,
        rs.len() > 0 && codec != CompressionCodec::Uncompressed ==> out[17]
            == records::message_set_codec(codec).number(),
        records::flat(records::record_set(out)) == (core::result::Result::<
            Seq<MessageView>,
            Seq<char>,
        >::Ok(rs.map_values(|r: RecordView| plain_message(r)))),
{
    let view = |r: RecordView| plain_message(r);
    let none = Seq::<u8>::empty();
    let plain = records::message_set_out(rs);
    assert(rs.map_values(view) + Seq::<MessageView>::empty() =~= rs.map_values(view));
    assert(plain + none =~= plain);
    if rs.len() == 0 {
        assert(rs.map_values(view) =~= Seq::empty());
        assert(records::all_messages(Seq::<BatchView>::empty()) =~= Seq::empty());
    } else if codec == CompressionCodec::Uncompressed {
        law_message_set(rs, 0, none);
        lemma_set_magic(rs);
        lemma_flat_set(out, rs.map_values(view));
    } else {
        law_message_set(rs, 1, none);
        let c = records::message_set_codec(codec);
        let packed = choose|data: core::result::Result<Seq<u8>, Seq<char>>|
            {
                &&& #[trigger] compress::packs(c, plain, data)
                &&& match data {
                    Ok(d) => compress::intact(out) == compress::intact(
                        records::wrapper_out(rs, c, d),
                    ),
                    Err(t) => compress::intact(out) == data,
                }
            };
        let data = packed->Ok_0;
        let ts = records::latest(rs, rs[0].timestamp_ms);
        let key: Option<Seq<u8>> = None;
        let body = records::message_body(c.number(), ts as int, key, data);
        wire::lemma_be_len(1, 1);
        wire::lemma_be_len(1, c.number());
        wire::lemma_be_len(8, ts as int);
        wire::lemma_be_len(4, -1);
        wire::lemma_be_len(4, data.len() as int);
        assert(body.len() == 1 + 1 + 8 + 4 + 4 + data.len());
        wire::lemma_be_len(8, rs.last().offset as int);
        wire::lemma_be_len(4, (body.len() + 4) as int);
        wire::lemma_be_len(4, records::crc32_ieee(body) as int);
        assert(out.len() == 8 + 4 + 4 + body.len());
        lemma_message_at(c, ts, key, data, 0);
        lemma_message_set_step(rs.last().offset, body, 0, none);
        assert(out + none =~= out);
        lemma_message_magic(rs.last().offset, c.number(), ts as int, key, data, none);
        lemma_flat_set(out, rs.map_values(view));
    }
}

/// A message of a message set as a consumer sees it: its offset, and what it holds.
#[verifier::opaque]
pub open spec fn entry_at(b: Src) -> Parsed<(int, MessageView)> {
    let n = b.skip(8).i32();
    if b.left() < 12 || n < 0 || b.left() < 12 + n {
        wire::fail(Seq::empty(), b)
    } else {
        match records::message_at(b.skip(12).take(n), 3) {
            Ok(ms) => if ms.len() == 1 {
                wire::done((b.i64(), ms[0]), b.skip(12).skip(n))
            } else {
                wire::fail(Seq::empty(), b)
            },
            Err(t) => wire::fail(t, b),
        }
    }
}

#[verifier::spinoff_prover]
#[verifier::rlimit(60)]
proof fn lemma_entry(r: RecordView, rest: Seq<u8>)
    requires
        fits_message_set(r),
        r.offset <= i64::MAX,
    ensures
        entry_at(Src::of(records::record_message_out(Out::new(), r).bytes + rest)) == wire::done(
            (r.offset as int, plain_message(r)),
            Src::of(rest),
        ),
{
    reveal(entry_at);
    lemma_record_message(r);
    lemma_message_at(CompressionCodec::Uncompressed, r.timestamp_ms, r.key, r.value, 3);
    let body = records::message_body(0, r.timestamp_ms as int, r.key, r.value);
    lemma_message_front(r.offset, body, rest);
}

proof fn lemma_message_front(offset: u64, body: Seq<u8>, rest: Seq<u8>)
    requires
        body.len() + 4 <= i32::MAX,
        offset <= i64::MAX,
    ensures
        ({
            let one = wire::be32(records::crc32_ieee(body) as int) + body;
            let b = Src::of(records::message_out(Out::new(), offset as int, body).bytes + rest);
            &&& b.left() == 16 + body.len() + rest.len()
            &&& b.i64() == offset
            &&& b.skip(8).i32() == 4 + body.len()
            &&& b.skip(12).take(4 + body.len() as int) == one
            &&& b.skip(12).skip(4 + body.len() as int) == Src::of(rest)
        }),
{
    let one = wire::be32(records::crc32_ieee(body) as int) + body;
    let set = records::message_out(Out::new(), offset as int, body).bytes + rest;
    let n = (4 + body.len()) as i32;
    wire::lemma_be_len(8, offset as int);
    wire::lemma_be_len(4, n as int);
    wire::lemma_be_len(4, records::crc32_ieee(body) as int);
    let sized = wire::be32(n as int) + (one + rest);
    assert(set =~= wire::be64(offset as int) + sized);
    wire::lemma_split_cat(wire::be64(offset as int), sized);
    law_i64(offset as i64, sized);
    let b = Src::of(set);
    law_i32(n, one + rest);
    assert(b.skip(12) =~= b.skip(8).skip(4));
    wire::lemma_split_cat(one, rest);
}

/// A consumer sees the records of a message set at their own offsets, in order.
#[verifier::spinoff_prover]
#[verifier::rlimit(60)]
pub proof fn law_message_offsets(rs: Seq<RecordView>, rest: Seq<u8>)
    requires
        forall|i: int|
            0 <= i < rs.len() ==> fits_message_set(#[trigger] rs[i]) && rs[i].offset <= i64::MAX,
    ensures
        wire::all_of(
            Src::of(records::message_set_out(rs) + rest),
            rs.len(),
            |c: Src| entry_at(c),
        ) == wire::done(
            Seq::new(rs.len(), |i: int| (rs[i].offset as int, plain_message(rs[i]))),
            Src::of(rest),
        ),
    decreases rs.len(),
{
    let f = |c: Src| entry_at(c);
    let all = Seq::new(rs.len(), |i: int| (rs[i].offset as int, plain_message(rs[i])));
    let b = Src::of(records::message_set_out(rs) + rest);
    if rs.len() == 0 {
        assert(b.bytes =~= rest);
        assert(all =~= Seq::empty());
    } else {
        let init = rs.drop_last();
        let r = rs[rs.len() - 1];
        assert forall|i: int| 0 <= i < init.len() implies fits_message_set(#[trigger] init[i])
            && init[i].offset <= i64::MAX by {
            assert(init[i] == rs[i]);
        }
        assert(fits_message_set(rs[rs.len() - 1]));
        let one = records::record_message_out(Out::new(), r).bytes;
        law_message_offsets(init, one + rest);
        lemma_set_snoc(rs);
        wire::lemma_cat_assoc(records::message_set_out(init), one, rest);
        lemma_entry(r, rest);
        let seen = Seq::new(init.len(), |i: int| (init[i].offset as int, plain_message(init[i])));
        lemma_all_snoc(
            b,
            init.len(),
            f,
            seen,
            Src::of(one + rest),
            (r.offset as int, plain_message(r)),
            Src::of(rest),
        );
        assert(seen.push((r.offset as int, plain_message(r))) =~= all);
    }
}

/// A message that wraps a message set has the offset of the last record, and the time of the
/// latest.
#[verifier::spinoff_prover]
#[verifier::rlimit(60)]
pub proof fn law_wrapper(rs: Seq<RecordView>, codec: CompressionCodec, data: Seq<u8>)
    requires
        rs.len() > 0,
        rs.last().offset <= i64::MAX,
        data.len() <= i32::MAX - 32,
    ensures
        ({
            let b = Src::of(records::wrapper_out(rs, codec, data));
            &&& b.left() >= 26
            &&& b.i64() == rs.last().offset
            &&& b.skip(8).i32() == b.left() - 12
            &&& forall|i: int|
                0 <= i < rs.len() ==> (#[trigger] rs[i]).timestamp_ms <= b.skip(18).i64()
            &&& exists|i: int|
                0 <= i < rs.len() && (#[trigger] rs[i]).timestamp_ms == b.skip(18).i64()
        }),
{
    let ts = records::latest(rs, rs[0].timestamp_ms);
    let key: Option<Seq<u8>> = None;
    let body = records::message_body(codec.number(), ts as int, key, data);
    let none = Seq::<u8>::empty();
    let out = records::wrapper_out(rs, codec, data);
    lemma_message_layout(codec.number(), ts as int, key, data);
    wire::lemma_be_len(1, 1);
    wire::lemma_be_len(1, codec.number());
    wire::lemma_be_len(8, ts as int);
    wire::lemma_be_len(4, -1);
    wire::lemma_be_len(4, data.len() as int);
    wire::lemma_be_len(4, records::crc32_ieee(body) as int);
    assert(body.len() == 1 + 1 + 8 + 4 + 4 + data.len());
    lemma_message_front(rs.last().offset, body, none);
    lemma_cat_empty(out);
    let b = Src::of(out);
    let one = wire::be32(records::crc32_ieee(body) as int) + body;
    assert(b.skip(12).bytes =~= one);
    let tail = Out::new().blob(key).bytes + Out::new().blob(Some(data)).bytes;
    assert(b.skip(18).bytes =~= wire::be64(ts as int) + tail) by {
        assert(one.skip(6) =~= wire::be64(ts as int) + tail);
        assert(b.bytes.skip(18) =~= one.skip(6));
    }
    law_i64(ts, tail);
    lemma_latest(rs, rs[0].timestamp_ms);
    assert(rs[0].timestamp_ms == rs[0].timestamp_ms);
}

/// The format of a message stands at offset 16, and its codec behind it.
proof fn lemma_message_magic(
    offset: u64,
    attributes: int,
    timestamp_ms: int,
    key: Option<Seq<u8>>,
    value: Seq<u8>,
    rest: Seq<u8>,
)
    requires
        0 <= attributes < 128,
    ensures
        ({
            let body = records::message_body(attributes, timestamp_ms, key, value);
            let out = records::message_out(Out::new(), offset as int, body).bytes + rest;
            out.len() > 17 && out[16] == 1 && out[17] == attributes
        }),
{
    let body = records::message_body(attributes, timestamp_ms, key, value);
    lemma_message_layout(attributes, timestamp_ms, key, value);
    wire::lemma_be_len(1, 1);
    wire::lemma_be_len(1, attributes);
    wire::lemma_be_byte(1);
    wire::lemma_be_byte(attributes);
    assert(body.len() >= 2 && body[0] == 1 && body[1] == attributes);
    wire::lemma_be_len(8, offset as int);
    wire::lemma_be_len(4, (4 + body.len()) as int);
    wire::lemma_be_len(4, records::crc32_ieee(body) as int);
    let out = records::message_out(Out::new(), offset as int, body).bytes + rest;
    assert(out[16] == body[0] && out[17] == body[1]);
}

proof fn lemma_set_magic(rs: Seq<RecordView>)
    requires
        rs.len() > 0,
    ensures
        records::message_set_out(rs).len() > 17,
        records::message_set_out(rs)[16] == 1,
    decreases rs.len(),
{
    lemma_set_snoc(rs);
    let r = rs.last();
    let none = Seq::<u8>::empty();
    if rs.len() > 1 {
        lemma_set_magic(rs.drop_last());
    } else {
        assert(records::message_set_out(rs.drop_last()) =~= none);
        lemma_message_magic(r.offset, 0, r.timestamp_ms as int, r.key, r.value, none);
    }
}

/// A message set is read as one.
proof fn lemma_flat_set(out: Seq<u8>, messages: Seq<MessageView>)
    requires
        out.len() > 17,
        out[16] == 1,
        records::message_set(Src::of(out), 0) == (core::result::Result::<
            Seq<MessageView>,
            Seq<char>,
        >::Ok(messages)),
    ensures
        records::flat(records::record_set(out)) == (core::result::Result::<
            Seq<MessageView>,
            Seq<char>,
        >::Ok(messages)),
{
    lemma_magic(out, 1);
    lemma_one_batch(
        BatchView { producer: RecordBatchProducer::spec_none(), messages },
    );
}

proof fn lemma_magic(out: Seq<u8>, magic: u8)
    requires
        out.len() >= 17,
        out[16] == magic,
        magic < 128,
    ensures
        wire::be_int(out.skip(16).take(1)) == magic,
{
    assert(out.skip(16).take(1)[0] == magic);
}

/// One batch run together is its messages.
proof fn lemma_one_batch(b: BatchView)
    ensures
        records::all_messages(seq![b]) == b.messages,
{
    let one = seq![b];
    assert(one.drop_last() =~= Seq::empty());
    reveal_with_fuel(records::all_messages, 2);
    assert(records::all_messages(one) =~= b.messages);
}

proof fn lemma_len32(n: nat)
    requires
        n <= i32::MAX,
    ensures
        records::len32(n) == n,
{
}

/// A field of a record is read back.
proof fn lemma_field(f: Option<Seq<u8>>, rest: Seq<u8>)
    requires
        f matches Some(v) ==> v.len() <= i32::MAX,
    ensures
        records::field_at(Src::of(records::field_out(Out::new(), f).bytes + rest)) == wire::done(
            f,
            Src::of(rest),
        ),
{
    let b = records::field_out(Out::new(), f).bytes + rest;
    match f {
        None => {
            assert(b =~= wire::uvarint(wire::zigzag(-1)) + rest);
            law_varint((-1int) as i32, rest);
        },
        Some(v) => {
            lemma_len32(v.len());
            assert(b =~= wire::uvarint(wire::zigzag(v.len() as int)) + (v + rest));
            law_varint(v.len() as i32, v + rest);
            wire::lemma_split_cat(v, rest);
        },
    }
}

/// Writing a field only appends.
proof fn lemma_field_appends(o: Out, f: Option<Seq<u8>>)
    ensures
        records::field_out(o, f).bytes == o.bytes + records::field_out(Out::new(), f).bytes,
{
    assert(records::field_out(o, f).bytes =~= o.bytes + records::field_out(Out::new(), f).bytes);
}

/// Whether a header's name and value fit their length fields.
pub open spec fn fits_header(h: (Seq<char>, Seq<u8>)) -> bool {
    encode_utf8(h.0).len() <= i32::MAX && h.1.len() <= i32::MAX
}

/// A header of a record is read back.
proof fn lemma_header(h: (Seq<char>, Seq<u8>))
    requires
        fits_header(h),
    ensures
        inverse(
            h,
            |o: Out, h: (Seq<char>, Seq<u8>)| records::header_out(o, h),
            |c: Src| records::header_at(c),
        ),
{
    let g = |o: Out, h: (Seq<char>, Seq<u8>)| records::header_out(o, h);
    let f = |c: Src| records::header_at(c);
    let name = encode_utf8(h.0);
    let nb = records::field_out(Out::new(), Some(name)).bytes;
    let vb = records::field_out(Out::new(), Some(h.1)).bytes;
    assert forall|o: Out| (#[trigger] g(o, h)).bytes == o.bytes + g(Out::new(), h).bytes by {
        lemma_field_appends(o, Some(name));
        lemma_field_appends(records::field_out(o, Some(name)), Some(h.1));
        lemma_field_appends(records::field_out(Out::new(), Some(name)), Some(h.1));
        assert(g(o, h).bytes =~= o.bytes + g(Out::new(), h).bytes);
    }
    assert forall|rest: Seq<u8>|
        f(#[trigger] Src::of(g(Out::new(), h).bytes + rest)) == wire::done(h, Src::of(rest)) by {
        lemma_field_appends(records::field_out(Out::new(), Some(name)), Some(h.1));
        let b = g(Out::new(), h).bytes + rest;
        lemma_len32(name.len());
        assert(b =~= wire::uvarint(wire::zigzag(name.len() as int)) + (name + (vb + rest)));
        law_varint(name.len() as i32, name + (vb + rest));
        lemma_utf8(h.0, vb + rest, "header key utf8: "@);
        lemma_field(Some(h.1), rest);
    }
}

/// The headers of a record are read back.
proof fn lemma_headers(hs: Seq<(Seq<char>, Seq<u8>)>, rest: Seq<u8>)
    requires
        hs.len() <= i32::MAX,
        forall|i: int| 0 <= i < hs.len() ==> fits_header(#[trigger] hs[i]),
    ensures
        records::headers_at(Src::of(records::headers_out(Out::new(), hs).bytes + rest))
            == wire::done(hs, Src::of(rest)),
        forall|o: Out|
            (#[trigger] records::headers_out(o, hs)).bytes == o.bytes + records::headers_out(
                Out::new(),
                hs,
            ).bytes,
{
    let g = |o: Out, h: (Seq<char>, Seq<u8>)| records::header_out(o, h);
    let f = |c: Src| records::header_at(c);
    assert forall|i: int| 0 <= i < hs.len() implies inverse(#[trigger] hs[i], g, f) by {
        lemma_header(hs[i]);
    }
    let n = wire::uvarint(wire::zigzag(hs.len() as int));
    let all = Out::new().each(hs, g).bytes;
    lemma_len32(hs.len());
    assert forall|o: Out|
        (#[trigger] records::headers_out(o, hs)).bytes == (o.bytes + n) + all by {
        lemma_each_appends(o.varint(hs.len() as int), hs, g);
    }
    assert forall|o: Out|
        (#[trigger] records::headers_out(o, hs)).bytes == o.bytes + records::headers_out(
            Out::new(),
            hs,
        ).bytes by {
        assert(records::headers_out(o, hs).bytes == (o.bytes + n) + all);
        assert(records::headers_out(Out::new(), hs).bytes == (Out::new().bytes + n) + all);
        assert((o.bytes + n) + all =~= o.bytes + ((Seq::<u8>::empty() + n) + all));
    }
    assert(records::headers_out(Out::new(), hs).bytes == (Out::new().bytes + n) + all);
    assert(records::headers_out(Out::new(), hs).bytes + rest =~= n + (all + rest));
    law_varint(hs.len() as i32, all + rest);
    law_each(hs, g, f, rest);
}

/// Whether a record fits a batch: its body has a length of 31 bits, and its time lies within
/// 32 bits of the first.
pub open spec fn fits_batch(r: RecordView, first_timestamp: i64, offset_delta: int) -> bool {
    &&& i32::MIN <= r.timestamp_ms - first_timestamp <= i32::MAX
    &&& records::record_body(r, first_timestamp, offset_delta).len() <= i32::MAX
}

proof fn lemma_field_len(o: Out, f: Option<Seq<u8>>)
    ensures
        records::field_out(o, f).bytes.len() > o.bytes.len(),
        f matches Some(v) ==> records::field_out(o, f).bytes.len() > o.bytes.len() + v.len(),
{
}

/// Headers take at least the room of their parts.
proof fn lemma_headers_len(o: Out, hs: Seq<(Seq<char>, Seq<u8>)>)
    ensures
        ({
            let n = o.each(
                hs,
                |o: Out, h: (Seq<char>, Seq<u8>)| records::header_out(o, h),
            ).bytes.len();
            &&& n >= o.bytes.len() + hs.len()
            &&& forall|i: int|
                0 <= i < hs.len() ==> encode_utf8((#[trigger] hs[i]).0).len() <= n && hs[i].1.len()
                    <= n
        }),
    decreases hs.len(),
{
    let f = |o: Out, h: (Seq<char>, Seq<u8>)| records::header_out(o, h);
    if hs.len() > 0 {
        let init = hs.drop_last();
        let h = hs.last();
        lemma_headers_len(o, init);
        let a = o.each(init, f);
        let name = encode_utf8(h.0);
        lemma_field_len(a, Some(name));
        lemma_field_len(records::field_out(a, Some(name)), Some(h.1));
        assert(o.each(hs, f) == records::header_out(a, h));
        let n = o.each(hs, f).bytes.len();
        assert forall|i: int| 0 <= i < hs.len() implies encode_utf8((#[trigger] hs[i]).0).len()
            <= n && hs[i].1.len() <= n by {
            if i < init.len() {
                assert(hs[i] == init[i]);
            }
        }
    }
}

/// The parts of a record that fits fit their length fields.
proof fn lemma_fits_batch(r: RecordView, first_timestamp: i64, offset_delta: int)
    requires
        fits_batch(r, first_timestamp, offset_delta),
    ensures
        r.key matches Some(k) ==> k.len() <= i32::MAX,
        r.value.len() <= i32::MAX,
        r.headers.len() <= i32::MAX,
        forall|i: int| 0 <= i < r.headers.len() ==> fits_header(#[trigger] r.headers[i]),
{
    let o = Out::new().byte(0).varint((r.timestamp_ms - first_timestamp) as i64 as i32 as int)
        .varint(offset_delta);
    let a = records::field_out(o, r.key);
    let b = records::field_out(a, Some(r.value));
    lemma_field_len(o, r.key);
    lemma_field_len(a, Some(r.value));
    let c = b.varint(records::len32(r.headers.len()));
    assert(c.bytes.len() >= b.bytes.len());
    lemma_headers_len(c, r.headers);
}

/// How far behind the first record of its batch a record lies, as it says itself: behind its
/// length, its attributes and its time.
pub open spec fn offset_delta_at(b: Src) -> Parsed<int> {
    b.varint().rest.skip(1).varint().rest.varint()
}

/// A record as a consumer sees it: its offset, with `base` for that of the first record of its
/// batch, and what it holds. It is as long as it says, and has no attributes.
pub open spec fn seen_at(b: Src, base: int, first_timestamp: i64) -> Parsed<(int, MessageView)> {
    let n = b.varint();
    let p = records::record_at(b, first_timestamp);
    match (p.value, offset_delta_at(b).value) {
        (Ok(m), Ok(d)) => if n.value == Ok::<int, Seq<char>>(n.rest.left() - p.rest.left())
            && n.rest.u8() == 0 {
            wire::done((base + d, m), p.rest)
        } else {
            wire::fail(Seq::empty(), p.rest)
        },
        _ => wire::fail(Seq::empty(), p.rest),
    }
}

/// A record of a batch is read back.
#[verifier::spinoff_prover]
#[verifier::rlimit(40)]
proof fn lemma_record(r: RecordView, first_timestamp: i64, offset_delta: i32, rest: Seq<u8>)
    requires
        fits_batch(r, first_timestamp, offset_delta as int),
    ensures
        records::record_at(
            Src::of(
                records::record_out(Out::new(), r, first_timestamp, offset_delta as int).bytes
                    + rest,
            ),
            first_timestamp,
        ) == wire::done(whole_message(r), Src::of(rest)),
        ({
            let b = Src::of(
                records::record_out(Out::new(), r, first_timestamp, offset_delta as int).bytes
                    + rest,
            );
            &&& offset_delta_at(b).value == Ok::<int, Seq<char>>(offset_delta as int)
            &&& b.varint().value == Ok::<int, Seq<char>>(b.varint().rest.left() - rest.len())
            &&& b.varint().rest.u8() == 0
        }),
        forall|o: Out|
            (#[trigger] records::record_out(o, r, first_timestamp, offset_delta as int)).bytes
                == o.bytes + records::record_out(
                Out::new(),
                r,
                first_timestamp,
                offset_delta as int,
            ).bytes,
{
    reveal(records::record_at);
    lemma_fits_batch(r, first_timestamp, offset_delta as int);
    let d = (r.timestamp_ms - first_timestamp) as i32;
    let body = records::record_body(r, first_timestamp, offset_delta as int);
    let kb = records::field_out(Out::new(), r.key).bytes;
    let vb = records::field_out(Out::new(), Some(r.value)).bytes;
    let hb = records::headers_out(Out::new(), r.headers).bytes;
    let fields = kb + (vb + (hb + rest));
    let od = wire::uvarint(wire::zigzag(offset_delta as int));
    let td = wire::uvarint(wire::zigzag(d as int));
    let o3 = Out::new().byte(0).varint(d as int).varint(offset_delta as int);
    let o4 = records::field_out(o3, r.key);
    let o5 = records::field_out(o4, Some(r.value));
    lemma_headers(r.headers, rest);
    lemma_field_appends(o3, r.key);
    lemma_field_appends(o4, Some(r.value));
    assert(records::headers_out(o5, r.headers).bytes == o5.bytes + hb);
    assert(body == records::headers_out(o5, r.headers).bytes);
    wire::lemma_be_len(1, 0);
    assert(body + rest == wire::be8(0) + (td + (od + fields)) && body.len() >= 1) by {
        lemma_raw(o5, hb, rest);
        lemma_raw(o4, vb, hb + rest);
        lemma_raw(o3, kb, vb + (hb + rest));
        lemma_raw(Out::new().byte(0).varint(d as int), od, fields);
        lemma_raw(Out::new().byte(0), td, od + fields);
        lemma_cat_empty(wire::be8(0));
    }
    lemma_len32(body.len());
    let b = records::record_out(
        Out::new(),
        r,
        first_timestamp,
        offset_delta as int,
    ).bytes + rest;
    let lb = wire::uvarint(wire::zigzag(body.len() as int));
    assert(b == lb + (body + rest)) by {
        lemma_raw(Out::new().varint(body.len() as int), body, rest);
        lemma_cat_empty(lb);
    }
    law_varint(body.len() as i32, body + rest);
    wire::lemma_be_byte(0);
    assert((body + rest)[0] == wire::be8(0)[0]);
    wire::lemma_split_cat(wire::be8(0), td + (od + fields));
    law_varint(d, od + fields);
    law_varint(offset_delta, fields);
    lemma_field(r.key, vb + (hb + rest));
    lemma_field(Some(r.value), hb + rest);
    assert(records::saturating_sum(first_timestamp as int, d as int) == r.timestamp_ms);
    assert forall|o: Out|
        (#[trigger] records::record_out(o, r, first_timestamp, offset_delta as int)).bytes
            == o.bytes + records::record_out(
            Out::new(),
            r,
            first_timestamp,
            offset_delta as int,
        ).bytes by {
        lemma_raw(o, lb, body);
        lemma_cat_empty(lb);
    }
}

/// Whether all the records fit one batch.
pub open spec fn all_fit_batch(rs: Seq<RecordView>, first_timestamp: i64) -> bool {
    &&& rs.len() <= i32::MAX
    &&& forall|i: int| 0 <= i < rs.len() ==> fits_batch(#[trigger] rs[i], first_timestamp, i)
}

/// The records of a batch are read back, in order.
proof fn lemma_records(rs: Seq<RecordView>, first_timestamp: i64, rest: Seq<u8>)
    requires
        all_fit_batch(rs, first_timestamp),
    ensures
        wire::all_of(
            Src::of(records::records_out(rs, first_timestamp).bytes + rest),
            rs.len(),
            |c: Src| records::record_at(c, first_timestamp),
        ) == wire::done(rs.map_values(|r: RecordView| whole_message(r)), Src::of(rest)),
    decreases rs.len(),
{
    let f = |c: Src| records::record_at(c, first_timestamp);
    let view = |r: RecordView| whole_message(r);
    let b = Src::of(records::records_out(rs, first_timestamp).bytes + rest);
    if rs.len() == 0 {
        assert(b.bytes =~= rest);
        assert(rs.map_values(view) =~= Seq::empty());
    } else {
        let init = rs.drop_last();
        let last = rs.len() - 1;
        let r = rs[last];
        assert forall|i: int| 0 <= i < init.len() implies fits_batch(
            #[trigger] init[i],
            first_timestamp,
            i,
        ) by {
            assert(init[i] == rs[i]);
        }
        assert(fits_batch(rs[last], first_timestamp, last));
        lemma_len32(last as nat);
        lemma_record(r, first_timestamp, last as i32, rest);
        let one = records::record_out(Out::new(), r, first_timestamp, last).bytes;
        let o = records::records_out(init, first_timestamp);
        assert(records::record_out(o, r, first_timestamp, last).bytes == o.bytes + one);
        lemma_records(init, first_timestamp, one + rest);
        assert(b.bytes =~= o.bytes + (one + rest));
        let at = Src::of(one + rest);
        lemma_all_snoc(
            b,
            init.len(),
            f,
            init.map_values(view),
            at,
            whole_message(r),
            Src::of(rest),
        );
        assert(init.map_values(view).push(whole_message(r)) =~= rs.map_values(view));
    }
}

/// A consumer sees the records of a batch at the offsets that follow its first one, in order.
#[verifier::spinoff_prover]
#[verifier::rlimit(60)]
pub proof fn law_offsets(rs: Seq<RecordView>, base: int, first_timestamp: i64, rest: Seq<u8>)
    requires
        all_fit_batch(rs, first_timestamp),
    ensures
        wire::all_of(
            Src::of(records::records_out(rs, first_timestamp).bytes + rest),
            rs.len(),
            |c: Src| seen_at(c, base, first_timestamp),
        ) == wire::done(
            Seq::new(rs.len(), |i: int| (base + i, whole_message(rs[i]))),
            Src::of(rest),
        ),
    decreases rs.len(),
{
    let f = |c: Src| seen_at(c, base, first_timestamp);
    let all = Seq::new(rs.len(), |i: int| (base + i, whole_message(rs[i])));
    let b = Src::of(records::records_out(rs, first_timestamp).bytes + rest);
    if rs.len() == 0 {
        assert(b.bytes =~= rest);
        assert(all =~= Seq::empty());
    } else {
        let init = rs.drop_last();
        let last = rs.len() - 1;
        let r = rs[last];
        assert forall|i: int| 0 <= i < init.len() implies fits_batch(
            #[trigger] init[i],
            first_timestamp,
            i,
        ) by {
            assert(init[i] == rs[i]);
        }
        assert(fits_batch(rs[last], first_timestamp, last));
        lemma_len32(last as nat);
        lemma_record(r, first_timestamp, last as i32, rest);
        let one = records::record_out(Out::new(), r, first_timestamp, last).bytes;
        let o = records::records_out(init, first_timestamp);
        assert(records::record_out(o, r, first_timestamp, last).bytes == o.bytes + one);
        law_offsets(init, base, first_timestamp, one + rest);
        assert(b.bytes =~= o.bytes + (one + rest));
        let at = Src::of(one + rest);
        let seen = Seq::new(init.len(), |i: int| (base + i, whole_message(init[i])));
        lemma_all_snoc(
            b,
            init.len(),
            f,
            seen,
            at,
            (base + last, whole_message(r)),
            Src::of(rest),
        );
        assert(seen.push((base + last, whole_message(r))) =~= all);
    }
}

proof fn lemma_batch_body_layout(
    rs: Seq<RecordView>,
    codec: CompressionCodec,
    producer: RecordBatchProducer,
    payload: Seq<u8>,
)
    ensures
        records::batch_body(rs, codec, producer, payload) == wire::be16(codec.number()) + (
        wire::be32(records::last_offset_delta(rs.len())) + (wire::be64(
            rs[0].timestamp_ms as int,
        ) + (wire::be64(records::latest(rs, rs[0].timestamp_ms) as int) + (wire::be64(
            producer.producer_id as int,
        ) + (wire::be16(producer.producer_epoch as int) + (wire::be32(
            producer.base_sequence as int,
        ) + (wire::be32(rs.len() as int) + payload))))))),
{
    let x0 = wire::be16(codec.number());
    let x1 = wire::be32(records::last_offset_delta(rs.len()));
    let x2 = wire::be64(rs[0].timestamp_ms as int);
    let x3 = wire::be64(records::latest(rs, rs[0].timestamp_ms) as int);
    let x4 = wire::be64(producer.producer_id as int);
    let x5 = wire::be16(producer.producer_epoch as int);
    let x6 = wire::be32(producer.base_sequence as int);
    let x7 = wire::be32(rs.len() as int);
    let o1 = Out::new().raw(x0);
    let o2 = o1.raw(x1);
    let o3 = o2.raw(x2);
    let o4 = o3.raw(x3);
    let o5 = o4.raw(x4);
    let o6 = o5.raw(x5);
    let o7 = o6.raw(x6);
    let b7 = x7 + payload;
    let b6 = x6 + b7;
    let b5 = x5 + b6;
    let b4 = x4 + b5;
    let b3 = x3 + b4;
    let b2 = x2 + b3;
    lemma_raw(o7, x7, payload);
    lemma_raw(o6, x6, b7);
    lemma_raw(o5, x5, b6);
    lemma_raw(o4, x4, b5);
    lemma_raw(o3, x3, b4);
    lemma_raw(o2, x2, b3);
    lemma_raw(o1, x1, b2);
    lemma_cat_empty(x0);
}

/// The header fields of a batch are found where they were written.
proof fn lemma_batch_body(
    rs: Seq<RecordView>,
    codec: CompressionCodec,
    producer: RecordBatchProducer,
    payload: Seq<u8>,
)
    requires
        0 < rs.len() <= i32::MAX,
    ensures
        ({
            let p = Src::of(records::batch_body(rs, codec, producer, payload));
            &&& p.left() == 40 + payload.len()
            &&& p.i16() == codec.number()
            &&& p.skip(2).i32() == rs.len() - 1
            &&& p.skip(6).i64() == rs[0].timestamp_ms
            &&& p.skip(14).i64() == records::latest(rs, rs[0].timestamp_ms)
            &&& p.skip(22).i64() == producer.producer_id
            &&& p.skip(30).i16() == producer.producer_epoch
            &&& p.skip(32).i32() == producer.base_sequence
            &&& p.skip(36).i32() == rs.len()
            &&& p.skip(40).bytes == payload
        }),
{
    let first = rs[0].timestamp_ms;
    let c = codec.number();
    let lod = records::last_offset_delta(rs.len());
    let max = records::latest(rs, first);
    let b7 = wire::be32(rs.len() as int) + payload;
    let b6 = wire::be32(producer.base_sequence as int) + b7;
    let b5 = wire::be16(producer.producer_epoch as int) + b6;
    let b4 = wire::be64(producer.producer_id as int) + b5;
    let b3 = wire::be64(max as int) + b4;
    let b2 = wire::be64(first as int) + b3;
    let b1 = wire::be32(lod) + b2;
    lemma_batch_body_layout(rs, codec, producer, payload);
    wire::lemma_be_len(2, c);
    wire::lemma_be_len(4, lod);
    wire::lemma_be_len(8, first as int);
    wire::lemma_be_len(8, max as int);
    wire::lemma_be_len(8, producer.producer_id as int);
    wire::lemma_be_len(2, producer.producer_epoch as int);
    wire::lemma_be_len(4, producer.base_sequence as int);
    wire::lemma_be_len(4, rs.len() as int);
    law_i16(c as i16, b1);
    law_i32(lod as i32, b2);
    law_i64(first, b3);
    law_i64(max, b4);
    law_i64(producer.producer_id, b5);
    law_i16(producer.producer_epoch, b6);
    law_i32(producer.base_sequence, b7);
    law_i32(rs.len() as i32, payload);
    let ps = Src::of(records::batch_body(rs, codec, producer, payload));
    assert(ps.skip(2) == Src::of(b1));
    assert(ps.skip(6) =~= ps.skip(2).skip(4));
    assert(ps.skip(14) =~= ps.skip(6).skip(8));
    assert(ps.skip(22) =~= ps.skip(14).skip(8));
    assert(ps.skip(30) =~= ps.skip(22).skip(8));
    assert(ps.skip(32) =~= ps.skip(30).skip(2));
    assert(ps.skip(36) =~= ps.skip(32).skip(4));
    assert(ps.skip(40) =~= ps.skip(36).skip(4));
}

/// The fields in front of the body of a batch are found where they were written.
proof fn lemma_batch_front(offset: u64, body: Seq<u8>)
    requires
        body.len() + 9 <= i32::MAX,
    ensures
        ({
            let crc = records::crc32_castagnoli(body);
            let s = wire::be32(-1) + (wire::be8(2) + (wire::be32(crc as int) + body));
            let out = Out::new().i64(offset as int).i32((9 + body.len()) as int).i32(-1).byte(
                2,
            ).i32(crc as int).raw(body).bytes;
            let b = Src::of(out);
            &&& out.len() == 21 + body.len()
            &&& offset <= i64::MAX ==> b.i64() == offset
            &&& b.skip(8).i32() == s.len()
            &&& b.skip(12).bytes == s
            &&& s.len() == 9 + body.len()
            &&& Src::of(s).i32() == -1
            &&& Src::of(s).skip(4).i8() == 2
            &&& Src::of(s).skip(5).u32() == crc
            &&& Src::of(s).skip(9).bytes == body
        }),
{
    let crc = records::crc32_castagnoli(body);
    let n = (9 + body.len()) as i32;
    let s2 = wire::be32(crc as int) + body;
    let s1 = wire::be8(2) + s2;
    let s = wire::be32(-1) + s1;
    let w = wire::be32(n as int) + s;
    let out = Out::new().i64(offset as int).i32(n as int).i32(-1).byte(2).i32(crc as int).raw(
        body,
    ).bytes;
    assert(out == wire::be64(offset as int) + w) by {
        let o1 = Out::new().i64(offset as int);
        let o2 = o1.i32(n as int);
        let o3 = o2.i32(-1);
        let o4 = o3.byte(2);
        lemma_raw(o4, wire::be32(crc as int), body);
        lemma_raw(o3, wire::be8(2), s2);
        lemma_raw(o2, wire::be32(-1), s1);
        lemma_raw(o1, wire::be32(n as int), s);
        lemma_cat_empty(wire::be64(offset as int));
    }
    wire::lemma_be_len(4, -1);
    wire::lemma_be_len(1, 2);
    wire::lemma_be_len(4, crc as int);
    wire::lemma_be_len(8, offset as int);
    wire::lemma_be_len(4, n as int);
    law_i32((-1int) as i32, s1);
    if offset <= i64::MAX {
        law_i64(offset as i64, w);
    }
    law_i8(2, s2);
    law_u32(crc, body);
    let ss = Src::of(s);
    assert(ss.skip(5) =~= ss.skip(4).skip(1));
    assert(ss.skip(9) =~= ss.skip(5).skip(4));
    wire::lemma_split_cat(wire::be64(offset as int), w);
    law_i32(n, s);
    let os = Src::of(out);
    assert(os.skip(12) =~= os.skip(8).skip(4));
}

/// A batch is read back from the leader epoch on.
proof fn lemma_batch_at(
    s: Seq<u8>,
    rs: Seq<RecordView>,
    codec: CompressionCodec,
    producer: RecordBatchProducer,
    payload: Seq<u8>,
)
    requires
        rs.len() > 0,
        all_fit_batch(rs, rs[0].timestamp_ms),
        compress::plain(codec, payload) == compress::intact(
            records::records_out(rs, rs[0].timestamp_ms).bytes,
        ),
        Src::of(s).skip(4).i8() == 2,
        Src::of(s).skip(5).u32() == records::crc32_castagnoli(
            records::batch_body(rs, codec, producer, payload),
        ),
        Src::of(s).skip(9).bytes == records::batch_body(rs, codec, producer, payload),
        s.len() == 49 + payload.len(),
    ensures
        records::batch_at(s) == (core::result::Result::<BatchView, Seq<char>>::Ok(
            BatchView { producer, messages: rs.map_values(|r: RecordView| whole_message(r)) },
        )),
{
    let first = rs[0].timestamp_ms;
    let plain = records::records_out(rs, first).bytes;
    let p = Src::of(s).skip(9);
    lemma_batch_body(rs, codec, producer, payload);
    assert(p == Src::of(records::batch_body(rs, codec, producer, payload)));
    assert(p.i16() == codec.number());
    assert(p.skip(6).i64() as i64 == first);
    assert(p.skip(36).i32() == rs.len());
    assert(p.skip(40).bytes == payload);
    lemma_codec_bits(codec);
    lemma_cat_empty(plain);
    lemma_records(rs, first, Seq::empty());
    let f = |c: Src| records::record_at(c, first);
    assert(wire::all_of(Src::of(plain), rs.len(), f).value == Ok::<Seq<MessageView>, Seq<char>>(
        rs.map_values(|r: RecordView| whole_message(r)),
    ));
}

/// A single batch, with its offset and length in front, is read back.
proof fn lemma_batches_one(out: Seq<u8>, s: Seq<u8>, one: BatchView)
    requires
        out.len() == 12 + s.len(),
        s.len() >= 49,
        Src::of(out).skip(8).i32() == s.len(),
        Src::of(out).skip(12).bytes == s,
        records::batch_at(s) == (core::result::Result::<BatchView, Seq<char>>::Ok(one)),
    ensures
        records::batches_at(Src::of(out)) == (core::result::Result::<
            Seq<BatchView>,
            Seq<char>,
        >::Ok(seq![one])),
{
    let r = Src::of(out).skip(12);
    assert(r.take(s.len() as int) =~= s);
    assert(r.skip(s.len() as int).left() == 0);
    assert(records::batches_at(r.skip(s.len() as int)) == Ok::<Seq<BatchView>, Seq<char>>(
        Seq::empty(),
    ));
    assert(seq![one] + Seq::<BatchView>::empty() =~= seq![one]);
}

/// A batch without compression is a record batch like any other.
pub proof fn law_plain_batch(rs: Seq<RecordView>, producer: RecordBatchProducer)
    ensures
        records::is_record_batch(
            rs,
            CompressionCodec::Uncompressed,
            producer,
            compress::intact(records::plain_batch_out(rs, producer)),
        ),
{
    if rs.len() > 0 {
        let plain = records::records_out(rs, rs[0].timestamp_ms).bytes;
        assert(compress::packs(CompressionCodec::Uncompressed, plain, compress::intact(plain)));
    }
}

/// Records that are written as a record batch, compressed or not, are read back,
/// in order and with their headers and the producer, where every length fits its field.
#[verifier::spinoff_prover]
#[verifier::rlimit(60)]
pub proof fn law_record_batch(
    rs: Seq<RecordView>,
    codec: CompressionCodec,
    producer: RecordBatchProducer,
    out: Seq<u8>,
)
    requires
        rs.len() > 0,
        all_fit_batch(rs, rs[0].timestamp_ms),
        records::is_record_batch(rs, codec, producer, compress::intact(out)),
        out.len() <= i32::MAX + 12,
    ensures
        records::batches_at(Src::of(out)) == (core::result::Result::<
            Seq<BatchView>,
            Seq<char>,
        >::Ok(
            seq![
                (BatchView {
                    producer,
                    messages: rs.map_values(|r: RecordView| whole_message(r)),
                }),
            ],
        )),
        out.len() > 16 && out[16] == 2,
        records::flat(records::record_set(out)) == (core::result::Result::<
            Seq<MessageView>,
            Seq<char>,
        >::Ok(rs.map_values(|r: RecordView| whole_message(r)))),
{
    let first = rs[0].timestamp_ms;
    let plain = records::records_out(rs, first).bytes;
    let packed = choose|payload: core::result::Result<Seq<u8>, Seq<char>>|
        {
            &&& #[trigger] compress::packs(codec, plain, payload)
            &&& match payload {
                Ok(p) => compress::intact(out) == compress::intact(
                    records::batch_out(rs, codec, producer, p),
                ),
                Err(t) => compress::intact(out) == payload,
            }
        };
    let payload = packed->Ok_0;
    let p = records::batch_body(rs, codec, producer, payload);
    let crc = records::crc32_castagnoli(p);
    let s = wire::be32(-1) + (wire::be8(2) + (wire::be32(crc as int) + p));
    assert(p.len() == 40 + payload.len()) by {
        lemma_batch_body(rs, codec, producer, payload);
    }
    wire::lemma_be_len(8, rs[0].offset as int);
    wire::lemma_be_len(4, (9 + p.len()) as int);
    wire::lemma_be_len(4, -1);
    wire::lemma_be_len(1, 2);
    wire::lemma_be_len(4, crc as int);
    assert(out.len() == 8 + 4 + 4 + 1 + 4 + p.len());
    lemma_batch_front(rs[0].offset, p);
    lemma_batch_at(s, rs, codec, producer, payload);
    let one = BatchView { producer, messages: rs.map_values(|r: RecordView| whole_message(r)) };
    lemma_batches_one(out, s, one);
    assert(out[16] == 2) by {
        wire::lemma_be_byte(2);
        assert(out.skip(12) =~= s);
        assert(s[4] == wire::be8(2)[0]);
        assert(out.skip(12)[4] == out[16]);
    }
    lemma_magic(out, 2);
    lemma_one_batch(one);
}

/// No record is later than the latest, and one is as late.
proof fn lemma_latest(rs: Seq<RecordView>, start: i64)
    ensures
        records::latest(rs, start) >= start,
        forall|i: int|
            0 <= i < rs.len() ==> (#[trigger] rs[i]).timestamp_ms <= records::latest(rs, start),
        records::latest(rs, start) == start || exists|i: int|
            0 <= i < rs.len() && (#[trigger] rs[i]).timestamp_ms == records::latest(rs, start),
    decreases rs.len(),
{
    if rs.len() > 0 {
        let init = rs.drop_last();
        lemma_latest(init, start);
        let m = records::latest(rs, start);
        assert forall|i: int| 0 <= i < rs.len() implies (#[trigger] rs[i]).timestamp_ms <= m by {
            if i < init.len() {
                assert(init[i] == rs[i]);
            }
        }
        if m != start {
            if records::latest(init, start) == m {
                let i = choose|i: int|
                    0 <= i < init.len() && (#[trigger] init[i]).timestamp_ms == m;
                assert(rs[i].timestamp_ms == m);
            } else {
                assert(rs[rs.len() - 1].timestamp_ms == m);
            }
        }
    }
}

/// What a consumer finds in a record batch: in front the offset of the first record, the
/// length of the rest, no leader epoch, the version of the format and the checksum of what
/// follows it; then the codec, the offset of the last record behind the first, the times of
/// the first and of the latest record, the producer, and the number of records; and then the
/// records themselves, compressed, each at its offset.
#[verifier::spinoff_prover]
#[verifier::rlimit(60)]
pub proof fn law_seen_batch(
    rs: Seq<RecordView>,
    codec: CompressionCodec,
    producer: RecordBatchProducer,
    out: Seq<u8>,
)
    requires
        rs.len() > 0,
        all_fit_batch(rs, rs[0].timestamp_ms),
        records::is_record_batch(rs, codec, producer, compress::intact(out)),
        out.len() <= i32::MAX + 12,
        rs[0].offset <= i64::MAX,
    ensures
        ({
            let b = Src::of(out);
            let first = rs[0].timestamp_ms;
            let max = b.skip(35).i64();
            &&& b.left() >= 61
            &&& b.i64() == rs[0].offset
            &&& b.skip(8).i32() == b.left() - 12
            &&& b.skip(12).i32() == -1
            &&& b.skip(16).i8() == 2
            &&& b.skip(17).u32() == records::crc32_castagnoli(b.skip(21).bytes)
            &&& b.skip(21).i16() == codec.number()
            &&& b.skip(23).i32() == rs.len() - 1
            &&& b.skip(27).i64() == first
            &&& forall|i: int| 0 <= i < rs.len() ==> (#[trigger] rs[i]).timestamp_ms <= max
            &&& exists|i: int| 0 <= i < rs.len() && (#[trigger] rs[i]).timestamp_ms == max
            &&& b.skip(43).i64() == producer.producer_id
            &&& b.skip(51).i16() == producer.producer_epoch
            &&& b.skip(53).i32() == producer.base_sequence
            &&& b.skip(57).i32() == rs.len()
            &&& match compress::plain(codec, b.skip(61).bytes) {
                Ok(data) => wire::all_of(
                    Src::of(data),
                    rs.len(),
                    |c: Src| seen_at(c, b.i64(), first),
                ) == wire::done(
                    Seq::new(rs.len(), |i: int| (rs[0].offset + i, whole_message(rs[i]))),
                    Src::of(Seq::empty()),
                ),
                Err(_) => false,
            }
        }),
{
    let first = rs[0].timestamp_ms;
    let plain = records::records_out(rs, first).bytes;
    let packed = choose|payload: core::result::Result<Seq<u8>, Seq<char>>|
        {
            &&& #[trigger] compress::packs(codec, plain, payload)
            &&& match payload {
                Ok(p) => compress::intact(out) == compress::intact(
                    records::batch_out(rs, codec, producer, p),
                ),
                Err(t) => compress::intact(out) == payload,
            }
        };
    let payload = packed->Ok_0;
    let p = records::batch_body(rs, codec, producer, payload);
    let crc = records::crc32_castagnoli(p);
    let s = wire::be32(-1) + (wire::be8(2) + (wire::be32(crc as int) + p));
    lemma_batch_body(rs, codec, producer, payload);
    wire::lemma_be_len(8, rs[0].offset as int);
    wire::lemma_be_len(4, (9 + p.len()) as int);
    wire::lemma_be_len(4, -1);
    wire::lemma_be_len(1, 2);
    wire::lemma_be_len(4, crc as int);
    assert(out.len() == 8 + 4 + 4 + 1 + 4 + p.len());
    lemma_batch_front(rs[0].offset, p);
    let b = Src::of(out);
    let c = Src::of(s);
    let d = Src::of(p);
    assert(b.skip(12) == c);
    assert(b.skip(16) =~= c.skip(4));
    assert(b.skip(17) =~= c.skip(5));
    assert(b.skip(21) =~= c.skip(9));
    assert(b.skip(21) == d);
    assert(b.skip(23) =~= d.skip(2));
    assert(b.skip(27) =~= d.skip(6));
    assert(b.skip(35) =~= d.skip(14));
    assert(b.skip(43) =~= d.skip(22));
    assert(b.skip(51) =~= d.skip(30));
    assert(b.skip(53) =~= d.skip(32));
    assert(b.skip(57) =~= d.skip(36));
    assert(b.skip(61) =~= d.skip(40));
    lemma_latest(rs, first);
    assert(rs[0].timestamp_ms == first);
    lemma_cat_empty(plain);
    law_offsets(rs, rs[0].offset as int, first, Seq::empty());
    assert(compress::plain(codec, payload) == compress::intact(plain));
}

/// A frame of an accepted size is taken off the stream, whatever follows it.
pub proof fn law_frame(body: Seq<u8>, rest: Seq<u8>)
    requires
        body.len() <= codec::MAX_FRAME,
    ensures
        codec::frame_at(codec::frame_out(body) + rest) == (core::result::Result::<
            Option<Seq<u8>>,
            Seq<char>,
        >::Ok(Some(body))),
        (codec::frame_out(body) + rest).skip(4 + body.len() as int) == rest,
{
    let n = wire::be32(body.len() as int);
    let b = codec::frame_out(body) + rest;
    lemma_cat_empty(n);
    lemma_raw(Out::new().i32(body.len() as int), body, rest);
    assert(b == n + (body + rest));
    law_i32(body.len() as i32, body + rest);
    wire::lemma_be_len(4, body.len() as int);
    wire::lemma_split_cat(n, body + rest);
    assert(b.take(4) == n);
    assert(b.subrange(4, 4 + body.len() as int) =~= body);
    assert(b.skip(4 + body.len() as int) =~= rest);
}

/// A request header is read back, and the body is left, behind an empty tag
/// buffer in the flexible form.
pub proof fn law_request(h: HeaderView, flexible: bool, body: Seq<u8>)
    requires
        h.client_id matches Some(c) ==> encode_utf8(c).len() <= i16::MAX,
    ensures
        codec::header_at(Src::of(codec::request_out(h, flexible, body))) == wire::done(
            h,
            Src::of(
                if flexible {
                    Out::new().tags().bytes + body
                } else {
                    body
                },
            ),
        ),
{
    let x0 = wire::be16(h.api_key as int);
    let x1 = wire::be16(h.api_version as int);
    let x2 = wire::be32(h.correlation_id as int);
    let x3 = Out::new().nullable(h.client_id).bytes;
    let x4 = Out::new().tags().bytes;
    let rest = if flexible {
        x4 + body
    } else {
        body
    };
    let o1 = Out::new().i16(h.api_key as int);
    let o2 = o1.i16(h.api_version as int);
    let o3 = o2.i32(h.correlation_id as int);
    let o4 = o3.nullable(h.client_id);
    assert(o4.bytes =~= o3.bytes + x3);
    lemma_cat_empty(wire::uvarint(0));
    if flexible {
        lemma_raw(o4, wire::uvarint(0), body);
    }
    assert(codec::request_out(h, flexible, body) == o4.bytes + rest);
    lemma_raw(o3, x3, rest);
    lemma_raw(o2, x2, x3 + rest);
    lemma_raw(o1, x1, x2 + (x3 + rest));
    lemma_cat_empty(x0);
    law_i16(h.api_key, x1 + (x2 + (x3 + rest)));
    law_i16(h.api_version, x2 + (x3 + rest));
    law_i32(h.correlation_id, x3 + rest);
    law_nullable(h.client_id, rest);
    let b = Src::of(codec::request_out(h, flexible, body));
    assert(b.skip(4) =~= b.skip(2).skip(2));
    assert(b.skip(8) =~= b.skip(4).skip(4));
}

/// A string in an array is read back.
proof fn lemma_string_inverse(s: Seq<char>)
    requires
        encode_utf8(s).len() <= i16::MAX,
    ensures
        inverse(s, |o: Out, t: Seq<char>| o.string(t), |c: Src| c.string()),
{
    let g = |o: Out, t: Seq<char>| o.string(t);
    let f = |c: Src| c.string();
    assert forall|o: Out| (#[trigger] g(o, s)).bytes == o.bytes + g(Out::new(), s).bytes by {
        assert(o.string(s).bytes =~= o.bytes + Out::new().string(s).bytes);
    }
    assert forall|rest: Seq<u8>|
        f(#[trigger] Src::of(g(Out::new(), s).bytes + rest)) == wire::done(s, Src::of(rest)) by {
        law_string(s, rest);
    }
}

/// The topics of a subscription are read back.
pub proof fn law_subscription(topics: Seq<Seq<char>>)
    requires
        topics.len() <= i32::MAX,
        forall|i: int|
            0 <= i < topics.len() ==> encode_utf8(#[trigger] topics[i]).len() <= i16::MAX,
    ensures
        consumer_protocol::subscription_at(consumer_protocol::subscription_out(topics))
            == (core::result::Result::<Seq<Seq<char>>, Seq<char>>::Ok(topics)),
{
    let g = |o: Out, t: Seq<char>| o.string(t);
    let f = |c: Src| c.string();
    assert forall|i: int| 0 <= i < topics.len() implies inverse(#[trigger] topics[i], g, f) by {
        lemma_string_inverse(topics[i]);
    }
    let x0 = wire::be16(0);
    let x1 = wire::be32(topics.len() as int);
    let all = Out::new().each(topics, g).bytes;
    let end = Out::new().blob(Some(Seq::empty())).bytes;
    let o2 = Out::new().i16(0).i32(topics.len() as int);
    lemma_each_appends(o2, topics, g);
    lemma_blob_appends(o2.each(topics, g), Some(Seq::empty()));
    lemma_raw(o2, all, end);
    lemma_raw(Out::new().i16(0), x1, all + end);
    lemma_cat_empty(x0);
    let data = consumer_protocol::subscription_out(topics);
    assert(data == x0 + (x1 + (all + end)));
    wire::lemma_be_len(2, 0);
    wire::lemma_split_cat(x0, x1 + (all + end));
    law_i32(topics.len() as i32, all + end);
    let b = Src::of(data);
    assert(b.skip(6) =~= b.skip(2).skip(4));
    law_each(topics, g, f, end);
}

/// A partition number in an array is read back.
proof fn lemma_part_inverse(p: u32)
    ensures
        inverse(
            p,
            |o: Out, p: u32| o.i32(p as int),
            |c: Src| consumer_protocol::part_at(c),
        ),
{
    let g = |o: Out, p: u32| o.i32(p as int);
    let f = |c: Src| consumer_protocol::part_at(c);
    lemma_cat_empty(wire::be32(p as int));
    assert forall|rest: Seq<u8>|
        f(#[trigger] Src::of(g(Out::new(), p).bytes + rest)) == wire::done(p, Src::of(rest)) by {
        law_u32(p, rest);
    }
}

/// Whether a topic and its partitions fit their length fields.
pub open spec fn fits_topic_parts(t: TopicParts) -> bool {
    encode_utf8(t.0).len() <= i16::MAX && t.1.len() <= i32::MAX
}

/// A topic with its partitions is read back.
proof fn lemma_topic_parts_inverse(t: TopicParts)
    requires
        fits_topic_parts(t),
    ensures
        inverse(
            t,
            |o: Out, t: TopicParts| consumer_protocol::topic_parts_out(o, t),
            |c: Src| consumer_protocol::topic_parts_at(c),
        ),
{
    let g = |o: Out, t: TopicParts| consumer_protocol::topic_parts_out(o, t);
    let f = |c: Src| consumer_protocol::topic_parts_at(c);
    let gp = |o: Out, p: u32| o.i32(p as int);
    let fp = |c: Src| consumer_protocol::part_at(c);
    assert forall|i: int| 0 <= i < t.1.len() implies inverse(#[trigger] t.1[i], gp, fp) by {
        lemma_part_inverse(t.1[i]);
    }
    let name = Out::new().string(t.0).bytes;
    let n = wire::be32(t.1.len() as int);
    let all = Out::new().each(t.1, gp).bytes;
    assert forall|o: Out| (#[trigger] g(o, t)).bytes == o.bytes + (name + (n + all)) by {
        let o2 = o.string(t.0);
        let o3 = o2.i32(t.1.len() as int);
        lemma_each_appends(o3, t.1, gp);
        assert(o2.bytes =~= o.bytes + name);
        lemma_raw(o2, n, all);
        lemma_raw(o, name, n + all);
    }
    assert(g(Out::new(), t).bytes == Out::new().bytes + (name + (n + all)));
    lemma_cat_empty(name + (n + all));
    assert forall|rest: Seq<u8>|
        f(#[trigger] Src::of(g(Out::new(), t).bytes + rest)) == wire::done(t, Src::of(rest)) by {
        wire::lemma_cat_assoc(name, n + all, rest);
        wire::lemma_cat_assoc(n, all, rest);
        law_string(t.0, n + (all + rest));
        law_i32(t.1.len() as i32, all + rest);
        law_each(t.1, gp, fp, rest);
    }
}

/// The partitions of an assignment are read back, topic by topic.
pub proof fn law_assignment(groups: Seq<TopicParts>)
    requires
        groups.len() <= i32::MAX,
        forall|i: int| 0 <= i < groups.len() ==> fits_topic_parts(#[trigger] groups[i]),
    ensures
        consumer_protocol::assignment_at(consumer_protocol::assignment_out(groups))
            == (core::result::Result::<Seq<(Seq<char>, u32)>, Seq<char>>::Ok(
            consumer_protocol::all_pairs(groups),
        )),
{
    let g = |o: Out, t: TopicParts| consumer_protocol::topic_parts_out(o, t);
    let f = |c: Src| consumer_protocol::topic_parts_at(c);
    assert forall|i: int| 0 <= i < groups.len() implies inverse(#[trigger] groups[i], g, f) by {
        lemma_topic_parts_inverse(groups[i]);
    }
    let x0 = wire::be16(0);
    let x1 = wire::be32(groups.len() as int);
    let all = Out::new().each(groups, g).bytes;
    let end = Out::new().blob(Some(Seq::empty())).bytes;
    let o2 = Out::new().i16(0).i32(groups.len() as int);
    lemma_each_appends(o2, groups, g);
    lemma_blob_appends(o2.each(groups, g), Some(Seq::empty()));
    lemma_raw(o2, all, end);
    lemma_raw(Out::new().i16(0), x1, all + end);
    lemma_cat_empty(x0);
    let data = consumer_protocol::assignment_out(groups);
    assert(data == x0 + (x1 + (all + end)));
    wire::lemma_be_len(2, 0);
    wire::lemma_split_cat(x0, x1 + (all + end));
    law_i32(groups.len() as i32, all + end);
    let b = Src::of(data);
    assert(b.skip(6) =~= b.skip(2).skip(4));
    law_each(groups, g, f, end);
}

proof fn lemma_all_pairs_cons(t: TopicParts, groups: Seq<TopicParts>)
    ensures
        consumer_protocol::all_pairs(seq![t] + groups) == consumer_protocol::pairs(t)
            + consumer_protocol::all_pairs(groups),
    decreases groups.len(),
{
    let s = seq![t] + groups;
    if groups.len() == 0 {
        assert(s.drop_last() =~= Seq::empty());
        assert(s.last() == t);
        assert(consumer_protocol::all_pairs(Seq::<TopicParts>::empty()) =~= Seq::empty());
        assert(consumer_protocol::all_pairs(s) =~= consumer_protocol::pairs(t)
            + consumer_protocol::all_pairs(groups));
    } else {
        lemma_all_pairs_cons(t, groups.drop_last());
        assert(s.drop_last() =~= seq![t] + groups.drop_last());
        assert(s.last() == groups.last());
        assert(consumer_protocol::all_pairs(s) == consumer_protocol::all_pairs(s.drop_last())
            + consumer_protocol::pairs(s.last()));
        assert(consumer_protocol::all_pairs(s) =~= consumer_protocol::pairs(t)
            + consumer_protocol::all_pairs(groups));
    }
}

proof fn lemma_add_part(groups: Seq<TopicParts>, topic: Seq<char>, part: u32)
    ensures
        consumer_protocol::all_pairs(
            consumer_protocol::add_part(groups, topic, part),
        ).to_multiset() == consumer_protocol::all_pairs(groups).to_multiset().insert(
            (topic, part),
        ),
    decreases groups.len(),
{
    broadcast use vstd::seq_lib::group_to_multiset_ensures;

    let pair = (topic, part);
    let old = consumer_protocol::all_pairs(groups);
    let added = consumer_protocol::add_part(groups, topic, part);
    let fresh = (topic, seq![part]);
    assert(consumer_protocol::pairs(fresh) =~= seq![pair]);
    vstd::seq_lib::lemma_multiset_commutative(seq![pair], old);
    assert(seq![pair].to_multiset() =~= vstd::multiset::Multiset::singleton(pair)) by {
        assert(seq![pair] =~= Seq::empty().push(pair));
    }
    if groups.len() == 0 {
        lemma_all_pairs_cons(fresh, Seq::empty());
        assert(seq![fresh] + Seq::<TopicParts>::empty() =~= added);
        assert(consumer_protocol::all_pairs(added).to_multiset() =~= old.to_multiset().insert(
            pair,
        ));
    } else {
        let tail = groups.skip(1);
        assert(groups =~= seq![groups[0]] + tail);
        lemma_all_pairs_cons(groups[0], tail);
        let ps = consumer_protocol::pairs(groups[0]);
        let rest = consumer_protocol::all_pairs(tail);
        vstd::seq_lib::lemma_multiset_commutative(ps, rest);
        if groups[0].0 == topic {
            let more = (topic, groups[0].1.push(part));
            lemma_all_pairs_cons(more, tail);
            assert(consumer_protocol::pairs(more) =~= ps.push(pair));
            vstd::seq_lib::lemma_multiset_commutative(ps.push(pair), rest);
            assert(consumer_protocol::all_pairs(added).to_multiset() =~= old.to_multiset().insert(
                pair,
            ));
        } else if text::before(topic, groups[0].0) {
            lemma_all_pairs_cons(fresh, groups);
            assert(consumer_protocol::all_pairs(added).to_multiset() =~= old.to_multiset().insert(
                pair,
            ));
        } else {
            let sub = consumer_protocol::add_part(tail, topic, part);
            lemma_add_part(tail, topic, part);
            lemma_all_pairs_cons(groups[0], sub);
            vstd::seq_lib::lemma_multiset_commutative(ps, consumer_protocol::all_pairs(sub));
            assert(consumer_protocol::all_pairs(added).to_multiset() =~= old.to_multiset().insert(
                pair,
            ));
        }
    }
}

/// Putting an assignment in order by topic loses nothing and adds nothing.
pub proof fn law_by_topic_keeps(assignment: Seq<(Seq<char>, u32)>)
    ensures
        consumer_protocol::all_pairs(consumer_protocol::by_topic(assignment)).to_multiset()
            == assignment.to_multiset(),
    decreases assignment.len(),
{
    broadcast use vstd::seq_lib::group_to_multiset_ensures;

    if assignment.len() > 0 {
        let init = assignment.drop_last();
        law_by_topic_keeps(init);
        lemma_add_part(
            consumer_protocol::by_topic(init),
            assignment.last().0,
            assignment.last().1,
        );
        assert(assignment =~= init.push(assignment.last()));
    } else {
        assert(assignment =~= Seq::empty());
    }
}

/// Whether the topics come in order and each comes once.
pub open spec fn in_order(groups: Seq<TopicParts>) -> bool {
    forall|i: int, j: int|
        0 <= i < j < groups.len() ==> text::before(#[trigger] groups[i].0, #[trigger] groups[j].0)
}

proof fn lemma_add_part_order(groups: Seq<TopicParts>, topic: Seq<char>, part: u32)
    requires
        in_order(groups),
    ensures
        in_order(consumer_protocol::add_part(groups, topic, part)),
        forall|i: int|
            0 <= i < consumer_protocol::add_part(groups, topic, part).len() ==> {
                let t = (#[trigger] consumer_protocol::add_part(groups, topic, part)[i]).0;
                t == topic || exists|j: int| 0 <= j < groups.len() && (#[trigger] groups[j]).0 == t
            },
    decreases groups.len(),
{
    let added = consumer_protocol::add_part(groups, topic, part);
    if groups.len() > 0 {
        let tail = groups.skip(1);
        assert(forall|j: int| 0 <= j < tail.len() ==> #[trigger] tail[j] == groups[j + 1]);
        if groups[0].0 == topic {
            assert forall|i: int, j: int| 0 <= i < j < added.len() implies text::before(
                #[trigger] added[i].0,
                #[trigger] added[j].0,
            ) by {
                assert(added[i].0 == groups[i].0 && added[j].0 == groups[j].0);
            }
            assert(forall|i: int| 0 <= i < added.len() ==> (#[trigger] added[i]).0 == groups[i].0);
        } else if text::before(topic, groups[0].0) {
            assert forall|i: int, j: int| 0 <= i < j < added.len() implies text::before(
                #[trigger] added[i].0,
                #[trigger] added[j].0,
            ) by {
                assert(added[j] == groups[j - 1]);
                if i > 0 {
                    assert(added[i] == groups[i - 1]);
                } else if j > 1 {
                    assert(text::before(groups[0].0, groups[j - 1].0));
                    text::law_before(topic, groups[0].0, groups[j - 1].0);
                }
            }
            assert(forall|i: int|
                1 <= i < added.len() ==> #[trigger] added[i] == groups[i - 1]);
        } else {
            assert(in_order(tail));
            lemma_add_part_order(tail, topic, part);
            let sub = consumer_protocol::add_part(tail, topic, part);
            assert(added == seq![groups[0]] + sub);
            text::law_before(groups[0].0, topic, topic);
            assert forall|i: int, j: int| 0 <= i < j < added.len() implies text::before(
                #[trigger] added[i].0,
                #[trigger] added[j].0,
            ) by {
                assert(added[j] == sub[j - 1]);
                if i > 0 {
                    assert(added[i] == sub[i - 1]);
                } else if sub[j - 1].0 != topic {
                    let k = choose|k: int|
                        0 <= k < tail.len() && (#[trigger] tail[k]).0 == sub[j - 1].0;
                    assert(tail[k] == groups[k + 1]);
                    assert(text::before(groups[0].0, groups[k + 1].0));
                }
            }
            assert forall|i: int| 0 <= i < added.len() implies {
                let t = (#[trigger] added[i]).0;
                t == topic || exists|j: int| 0 <= j < groups.len() && (#[trigger] groups[j]).0 == t
            } by {
                if i > 0 {
                    assert(added[i] == sub[i - 1]);
                    if sub[i - 1].0 != topic {
                        let k = choose|k: int|
                            0 <= k < tail.len() && (#[trigger] tail[k]).0 == sub[i - 1].0;
                        assert(tail[k] == groups[k + 1]);
                    }
                }
            }
        }
    }
}

/// An assignment by topic has the topics in order, each of them once.
pub proof fn law_by_topic_order(assignment: Seq<(Seq<char>, u32)>)
    ensures
        in_order(consumer_protocol::by_topic(assignment)),
    decreases assignment.len(),
{
    if assignment.len() > 0 {
        law_by_topic_order(assignment.drop_last());
        lemma_add_part_order(
            consumer_protocol::by_topic(assignment.drop_last()),
            assignment.last().0,
            assignment.last().1,
        );
    }
}

/// The pairs of one topic, in order.
pub open spec fn of_topic(a: Seq<(Seq<char>, u32)>, topic: Seq<char>) -> Seq<(Seq<char>, u32)>
    decreases a.len(),
{
    if a.len() == 0 {
        Seq::empty()
    } else if a.last().0 == topic {
        of_topic(a.drop_last(), topic).push(a.last())
    } else {
        of_topic(a.drop_last(), topic)
    }
}

proof fn lemma_of_topic_cat(
    a: Seq<(Seq<char>, u32)>,
    b: Seq<(Seq<char>, u32)>,
    topic: Seq<char>,
)
    ensures
        of_topic(a + b, topic) == of_topic(a, topic) + of_topic(b, topic),
    decreases b.len(),
{
    if b.len() == 0 {
        assert(a + b =~= a);
        assert(of_topic(a, topic) + Seq::<(Seq<char>, u32)>::empty() =~= of_topic(a, topic));
    } else {
        lemma_of_topic_cat(a, b.drop_last(), topic);
        assert((a + b).drop_last() =~= a + b.drop_last());
        assert((a + b).last() == b.last());
        assert(of_topic(a + b, topic) =~= of_topic(a, topic) + of_topic(b, topic));
    }
}

/// Pairs of one topic are all of it or none.
proof fn lemma_of_topic_same(a: Seq<(Seq<char>, u32)>, name: Seq<char>, topic: Seq<char>)
    requires
        forall|i: int| 0 <= i < a.len() ==> (#[trigger] a[i]).0 == name,
    ensures
        of_topic(a, topic) == (if name == topic {
            a
        } else {
            Seq::empty()
        }),
    decreases a.len(),
{
    if a.len() > 0 {
        let init = a.drop_last();
        assert forall|i: int| 0 <= i < init.len() implies (#[trigger] init[i]).0 == name by {
            assert(init[i] == a[i]);
        }
        lemma_of_topic_same(init, name, topic);
        assert(a[a.len() - 1].0 == name);
        if name == topic {
            assert(init.push(a.last()) =~= a);
        }
    } else if name == topic {
        assert(a =~= Seq::empty());
    }
}

proof fn lemma_of_topic_groups(t: TopicParts, groups: Seq<TopicParts>, topic: Seq<char>)
    ensures
        of_topic(consumer_protocol::all_pairs(seq![t] + groups), topic) == (if t.0 == topic {
            consumer_protocol::pairs(t)
        } else {
            Seq::empty()
        }) + of_topic(consumer_protocol::all_pairs(groups), topic),
{
    let ps = consumer_protocol::pairs(t);
    lemma_all_pairs_cons(t, groups);
    lemma_of_topic_cat(ps, consumer_protocol::all_pairs(groups), topic);
    lemma_of_topic_same(ps, t.0, topic);
}

/// Where no group is of the topic, no pair is.
proof fn lemma_of_topic_none(groups: Seq<TopicParts>, topic: Seq<char>)
    requires
        forall|i: int| 0 <= i < groups.len() ==> (#[trigger] groups[i]).0 != topic,
    ensures
        of_topic(consumer_protocol::all_pairs(groups), topic).len() == 0,
    decreases groups.len(),
{
    if groups.len() > 0 {
        let tail = groups.skip(1);
        assert(groups =~= seq![groups[0]] + tail);
        assert forall|i: int| 0 <= i < tail.len() implies (#[trigger] tail[i]).0 != topic by {
            assert(tail[i] == groups[i + 1]);
        }
        lemma_of_topic_none(tail, topic);
        lemma_of_topic_groups(groups[0], tail, topic);
    }
}

/// A partition that is added to its group comes last among the partitions of its topic, and
/// leaves those of the others as they are.
proof fn lemma_add_part_stable(
    groups: Seq<TopicParts>,
    name: Seq<char>,
    part: u32,
    topic: Seq<char>,
)
    requires
        in_order(groups),
    ensures
        of_topic(
            consumer_protocol::all_pairs(consumer_protocol::add_part(groups, name, part)),
            topic,
        ) == (if name == topic {
            of_topic(consumer_protocol::all_pairs(groups), topic).push((name, part))
        } else {
            of_topic(consumer_protocol::all_pairs(groups), topic)
        }),
    decreases groups.len(),
{
    let pair = (name, part);
    let old = of_topic(consumer_protocol::all_pairs(groups), topic);
    let added = consumer_protocol::add_part(groups, name, part);
    let new = of_topic(consumer_protocol::all_pairs(added), topic);
    let fresh = (name, seq![part]);
    let want = if name == topic {
        old.push(pair)
    } else {
        old
    };
    assert(consumer_protocol::pairs(fresh) =~= seq![pair]);
    if groups.len() == 0 {
        lemma_of_topic_groups(fresh, groups, topic);
        assert(seq![fresh] + groups =~= added);
        assert(new =~= want);
    } else {
        let tail = groups.skip(1);
        assert(groups =~= seq![groups[0]] + tail);
        assert(forall|j: int| 0 <= j < tail.len() ==> #[trigger] tail[j] == groups[j + 1]);
        lemma_of_topic_groups(groups[0], tail, topic);
        if groups[0].0 == name {
            let more = (name, groups[0].1.push(part));
            lemma_of_topic_groups(more, tail, topic);
            assert(consumer_protocol::pairs(more) =~= consumer_protocol::pairs(groups[0]).push(
                pair,
            ));
            assert forall|i: int| 0 <= i < tail.len() implies (#[trigger] tail[i]).0 != name by {
                assert(text::before(groups[0].0, groups[i + 1].0));
                text::law_before(name, name, name);
            }
            if name == topic {
                lemma_of_topic_none(tail, topic);
            }
            assert(new =~= want);
        } else if text::before(name, groups[0].0) {
            lemma_of_topic_groups(fresh, groups, topic);
            if name == topic {
                assert forall|i: int| 0 <= i < groups.len() implies (#[trigger] groups[i]).0
                    != topic by {
                    text::law_before(name, groups[0].0, groups[i].0);
                    text::law_before(name, name, name);
                    if i > 0 {
                        assert(text::before(groups[0].0, groups[i].0));
                    }
                }
                lemma_of_topic_none(groups, topic);
            }
            assert(new =~= want);
        } else {
            assert(in_order(tail));
            lemma_add_part_stable(tail, name, part, topic);
            lemma_of_topic_groups(
                groups[0],
                consumer_protocol::add_part(tail, name, part),
                topic,
            );
            assert(new =~= want);
        }
    }
}

/// Putting an assignment in order by topic keeps the order of the partitions of each topic.
pub proof fn law_by_topic_stable(assignment: Seq<(Seq<char>, u32)>, topic: Seq<char>)
    ensures
        of_topic(
            consumer_protocol::all_pairs(consumer_protocol::by_topic(assignment)),
            topic,
        ) == of_topic(assignment, topic),
    decreases assignment.len(),
{
    if assignment.len() > 0 {
        let init = assignment.drop_last();
        law_by_topic_stable(init, topic);
        law_by_topic_order(init);
        lemma_add_part_stable(
            consumer_protocol::by_topic(init),
            assignment.last().0,
            assignment.last().1,
            topic,
        );
    }
}

/// Whether the topics of the pairs come in order.
pub open spec fn topics_ascend(v: Seq<(Seq<char>, u32)>) -> bool {
    forall|i: int, j: int|
        0 <= i < j < v.len() ==> (#[trigger] v[i]).0 == (#[trigger] v[j]).0 || text::before(
            v[i].0,
            v[j].0,
        )
}

proof fn lemma_pairs_ascend(groups: Seq<TopicParts>)
    requires
        in_order(groups),
    ensures
        topics_ascend(consumer_protocol::all_pairs(groups)),
        forall|i: int|
            0 <= i < consumer_protocol::all_pairs(groups).len() ==> exists|k: int|
                0 <= k < groups.len() && (#[trigger] groups[k]).0 == (
                #[trigger] consumer_protocol::all_pairs(groups)[i]).0,
    decreases groups.len(),
{
    if groups.len() > 0 {
        let init = groups.drop_last();
        let last = groups.last();
        assert(in_order(init)) by {
            assert forall|i: int, j: int| 0 <= i < j < init.len() implies text::before(
                #[trigger] init[i].0,
                #[trigger] init[j].0,
            ) by {
                assert(init[i] == groups[i] && init[j] == groups[j]);
            }
        }
        lemma_pairs_ascend(init);
        let a = consumer_protocol::all_pairs(init);
        let b = consumer_protocol::pairs(last);
        let v = consumer_protocol::all_pairs(groups);
        assert(v == a + b);
        assert forall|i: int| 0 <= i < v.len() implies exists|k: int|
            0 <= k < groups.len() && (#[trigger] groups[k]).0 == (#[trigger] v[i]).0 by {
            if i < a.len() {
                assert(v[i] == a[i]);
                let k = choose|k: int| 0 <= k < init.len() && (#[trigger] init[k]).0 == a[i].0;
                assert(groups[k] == init[k]);
            } else {
                assert(v[i] == b[i - a.len()]);
                assert(groups[groups.len() - 1].0 == v[i].0);
            }
        }
        assert forall|i: int, j: int| 0 <= i < j < v.len() implies (#[trigger] v[i]).0 == (
        #[trigger] v[j]).0 || text::before(v[i].0, v[j].0) by {
            if j < a.len() {
                assert(v[i] == a[i] && v[j] == a[j]);
            } else {
                assert(v[j] == b[j - a.len()]);
                if i < a.len() {
                    assert(v[i] == a[i]);
                    let k = choose|k: int| 0 <= k < init.len() && (#[trigger] init[k]).0 == a[i].0;
                    assert(init[k] == groups[k]);
                    assert(text::before(groups[k].0, groups[groups.len() - 1].0));
                } else {
                    assert(v[i] == b[i - a.len()]);
                }
            }
        }
    }
}

/// The topic of every group is that of a pair.
proof fn lemma_group_names(assignment: Seq<(Seq<char>, u32)>)
    ensures
        forall|k: int|
            0 <= k < consumer_protocol::by_topic(assignment).len() ==> exists|i: int|
                0 <= i < assignment.len() && (#[trigger] assignment[i]).0 == (
                #[trigger] consumer_protocol::by_topic(assignment)[k]).0,
    decreases assignment.len(),
{
    if assignment.len() > 0 {
        let init = assignment.drop_last();
        let last = assignment.last();
        let before = consumer_protocol::by_topic(init);
        let groups = consumer_protocol::by_topic(assignment);
        lemma_group_names(init);
        law_by_topic_order(init);
        lemma_add_part_order(before, last.0, last.1);
        assert forall|k: int| 0 <= k < groups.len() implies exists|i: int|
            0 <= i < assignment.len() && (#[trigger] assignment[i]).0 == (#[trigger] groups[k]).0 by {
            if groups[k].0 == last.0 {
                assert(assignment[assignment.len() - 1].0 == groups[k].0);
            } else {
                let j = choose|j: int| 0 <= j < before.len() && (#[trigger] before[j]).0
                    == groups[k].0;
                let i = choose|i: int| 0 <= i < init.len() && (#[trigger] init[i]).0
                    == before[j].0;
                assert(assignment[i] == init[i]);
            }
        }
    }
}

/// An assignment that is written is read back sorted by topic: nothing is lost or added,
/// the topics come in order, and the partitions of each topic come as they were given.
pub proof fn law_assigned(assignment: Seq<(Seq<char>, u32)>)
    requires
        forall|i: int|
            0 <= i < assignment.len() ==> encode_utf8((#[trigger] assignment[i]).0).len()
                <= i16::MAX,
        consumer_protocol::by_topic(assignment).len() <= i32::MAX,
        forall|k: int|
            0 <= k < consumer_protocol::by_topic(assignment).len() ==> (
            #[trigger] consumer_protocol::by_topic(assignment)[k]).1.len() <= i32::MAX,
    ensures
        ({
            let out = consumer_protocol::assignment_out(consumer_protocol::by_topic(assignment));
            &&& consumer_protocol::assignment_at(out) matches Ok(v)
            &&& v.to_multiset() == assignment.to_multiset()
            &&& topics_ascend(v)
            &&& forall|topic: Seq<char>| #[trigger]
                of_topic(v, topic) == of_topic(assignment, topic)
        }),
{
    let groups = consumer_protocol::by_topic(assignment);
    lemma_group_names(assignment);
    assert forall|k: int| 0 <= k < groups.len() implies fits_topic_parts(#[trigger] groups[k]) by {
        let i = choose|i: int| 0 <= i < assignment.len() && (#[trigger] assignment[i]).0
            == groups[k].0;
        assert(encode_utf8(assignment[i].0).len() <= i16::MAX);
    }
    law_assignment(groups);
    law_by_topic_keeps(assignment);
    law_by_topic_order(assignment);
    lemma_pairs_ascend(groups);
    assert forall|topic: Seq<char>| #[trigger]
        of_topic(consumer_protocol::all_pairs(groups), topic) == of_topic(assignment, topic) by {
        law_by_topic_stable(assignment, topic);
    }
}

/// Numbers stand with their most significant byte first, in two's complement.
pub proof fn law_number_bytes(v: int)
    ensures
        wire::be8(v) == seq![(v % 256) as u8],
        wire::be16(v) == seq![(v / 256 % 256) as u8, (v % 256) as u8],
        wire::be32(v) == wire::be16(v / 0x1_0000) + wire::be16(v),
        wire::be64(v) == wire::be32(v / 0x1_0000_0000) + wire::be32(v),
{
    reveal_with_fuel(wire::be, 9);
    assert(wire::be8(v) =~= seq![(v % 256) as u8]);
    assert(wire::be16(v) =~= seq![(v / 256 % 256) as u8, (v % 256) as u8]);
    assert(v / 256 / 256 == v / 0x1_0000);
    assert(v / 0x1_0000 / 256 == v / 0x100_0000);
    assert(v / 0x100_0000 / 256 == v / 0x1_0000_0000);
    assert(wire::be32(v) =~= wire::be16(v / 0x1_0000) + wire::be16(v));
    let w = v / 0x1_0000_0000;
    assert(wire::be64(v) =~= wire::be32(w) + wire::be32(v));
}

/// A variable-length number stands in groups of seven bits, the least significant first, and
/// every byte but the last has its highest bit set; signs are folded in by zig-zag.
pub proof fn law_varint_bytes(v: nat, w: int)
    ensures
        v < 128 ==> wire::uvarint(v) == seq![v as u8],
        v >= 128 ==> wire::uvarint(v) == seq![(v % 128 + 128) as u8] + wire::uvarint(v / 128),
        w >= 0 ==> wire::zigzag(w) == 2 * w,
        w < 0 ==> wire::zigzag(w) == -2 * w - 1,
{
}

/// Strings and bytes stand behind their lengths: of two bytes or four in the classic form, where
/// null is -1, and one more than the length in the compact form, where null is 0.
pub proof fn law_text_bytes(o: Out, s: Seq<char>, b: Seq<u8>)
    requires
        encode_utf8(s).len() <= i16::MAX,
        b.len() <= i32::MAX,
    ensures
        o.string(s).bytes == o.bytes + wire::be16(encode_utf8(s).len() as int) + encode_utf8(s),
        o.nullable(None).bytes == o.bytes + seq![255u8, 255u8],
        o.blob(Some(b)).bytes == o.bytes + wire::be32(b.len() as int) + b,
        o.blob(None).bytes == o.bytes + seq![255u8, 255u8, 255u8, 255u8],
        o.compact(s).bytes == o.bytes + wire::uvarint(encode_utf8(s).len() + 1) + encode_utf8(s),
        o.compact_nullable(None).bytes == o.bytes + seq![0u8],
        o.compact_blob(Some(b)).bytes == o.bytes + wire::uvarint(b.len() + 1) + b,
        o.compact_blob(None).bytes == o.bytes + seq![0u8],
        o.tags().bytes == o.bytes + seq![0u8],
        o.array_len(true, b.len()).bytes == o.bytes + wire::uvarint(b.len() + 1),
        o.array_len(false, b.len()).bytes == o.bytes + wire::be32(b.len() as int),
{
    law_number_bytes(-1);
    assert(wire::be32(-1) =~= seq![255u8, 255u8, 255u8, 255u8]);
}

/// A field of a record: its length and its bytes, or the length -1.
pub open spec fn field_bytes(f: Option<Seq<u8>>) -> Seq<u8> {
    match f {
        Some(v) => wire::uvarint((2 * v.len()) as nat) + v,
        None => seq![1u8],
    }
}

/// The headers of a record, one behind the other: the name, and the value.
pub open spec fn headers_bytes(hs: Seq<(Seq<char>, Seq<u8>)>) -> Seq<u8>
    decreases hs.len(),
{
    if hs.len() == 0 {
        Seq::empty()
    } else {
        headers_bytes(hs.drop_last()) + (field_bytes(Some(encode_utf8(hs.last().0))) + field_bytes(
            Some(hs.last().1),
        ))
    }
}

proof fn lemma_field_bytes(o: Out, f: Option<Seq<u8>>)
    requires
        f matches Some(v) ==> v.len() <= i32::MAX,
    ensures
        records::field_out(o, f).bytes == o.bytes + field_bytes(f),
{
    match f {
        Some(v) => {
            lemma_len32(v.len());
            assert(records::field_out(o, f).bytes =~= o.bytes + (wire::uvarint(
                (2 * v.len()) as nat,
            ) + v));
        },
        None => {
            assert(wire::uvarint(wire::zigzag(-1)) =~= seq![1u8]);
        },
    }
}

proof fn lemma_headers_bytes(o: Out, hs: Seq<(Seq<char>, Seq<u8>)>)
    requires
        forall|i: int| 0 <= i < hs.len() ==> fits_header(#[trigger] hs[i]),
    ensures
        o.each(hs, |o: Out, h: (Seq<char>, Seq<u8>)| records::header_out(o, h)).bytes == o.bytes
            + headers_bytes(hs),
    decreases hs.len(),
{
    let g = |o: Out, h: (Seq<char>, Seq<u8>)| records::header_out(o, h);
    if hs.len() == 0 {
        lemma_cat_empty(o.bytes);
    } else {
        let init = hs.drop_last();
        let h = hs[hs.len() - 1];
        assert(fits_header(hs[hs.len() - 1]));
        assert forall|i: int| 0 <= i < init.len() implies fits_header(#[trigger] init[i]) by {
            assert(init[i] == hs[i]);
        }
        lemma_headers_bytes(o, init);
        let a = o.each(init, g);
        let name = encode_utf8(h.0);
        lemma_field_bytes(a, Some(name));
        lemma_field_bytes(records::field_out(a, Some(name)), Some(h.1));
        assert(o.each(hs, g).bytes =~= o.bytes + headers_bytes(hs));
    }
}

/// A record stands in a batch as the format has it: no attributes, how long after the first it
/// was made, how far behind the first it lies, its key, its value, the number of its headers, and
/// the headers.
#[verifier::spinoff_prover]
#[verifier::rlimit(60)]
pub proof fn law_record_bytes(r: RecordView, first_timestamp: i64, offset_delta: int)
    requires
        fits_batch(r, first_timestamp, offset_delta),
    ensures
        records::record_body(r, first_timestamp, offset_delta) == seq![0u8] + wire::uvarint(
            wire::zigzag(r.timestamp_ms - first_timestamp),
        ) + wire::uvarint(wire::zigzag(offset_delta)) + field_bytes(r.key) + field_bytes(
            Some(r.value),
        ) + wire::uvarint((2 * r.headers.len()) as nat) + headers_bytes(r.headers),
{
    lemma_fits_batch(r, first_timestamp, offset_delta);
    law_number_bytes(0);
    let d = r.timestamp_ms - first_timestamp;
    let o = Out::new().byte(0).varint(d).varint(offset_delta);
    let a = records::field_out(o, r.key);
    let b = records::field_out(a, Some(r.value));
    lemma_field_bytes(o, r.key);
    lemma_field_bytes(a, Some(r.value));
    lemma_len32(r.headers.len());
    let c = b.varint(records::len32(r.headers.len()));
    lemma_headers_bytes(c, r.headers);
    assert(o.bytes =~= seq![0u8] + wire::uvarint(wire::zigzag(d)) + wire::uvarint(
        wire::zigzag(offset_delta),
    ));
}

/// A message stands in a message set as the format has it: the version, the attributes, the
/// time, the key, and the value.
pub proof fn law_message_bytes(attributes: int, ts: int, key: Option<Seq<u8>>, value: Seq<u8>)
    ensures
        records::message_body(attributes, ts, key, value) == seq![1u8] + seq![
            (attributes % 256) as u8,
        ] + wire::be64(ts) + (match key {
            Some(k) => wire::be32(k.len() as int) + k,
            None => seq![255u8, 255u8, 255u8, 255u8],
        }) + wire::be32(value.len() as int) + value,
{
    law_number_bytes(1);
    law_number_bytes(attributes);
    law_number_bytes(-1);
    assert(wire::be32(-1) =~= seq![255u8, 255u8, 255u8, 255u8]);
    lemma_message_layout(attributes, ts, key, value);
    assert(records::message_body(attributes, ts, key, value) =~= seq![1u8] + seq![
        (attributes % 256) as u8,
    ] + wire::be64(ts) + (match key {
        Some(k) => wire::be32(k.len() as int) + k,
        None => seq![255u8, 255u8, 255u8, 255u8],
    }) + wire::be32(value.len() as int) + value);
}

} // verus!
