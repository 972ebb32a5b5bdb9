//! Record compression codecs.

use std::io::{Read, Write};

use flate2::read::GzDecoder;
use flate2::write::GzEncoder;
use flate2::Compression;
use vstd::prelude::*;
use vstd::slice::*;

use crate::error::{Error, Result};
use crate::text;
use crate::wire;
use crate::wire::{Out, Src};

verus! {

/// Compression codec in the attributes bits 0–2 of a record batch.
#[derive(Debug, Clone, Copy, PartialEq, Eq, Structural)]
pub enum CompressionCodec {
    /// No compression.
    Uncompressed,
    /// GZIP.
    Gzip,
    /// Snappy (Xerial framed preferred).
    Snappy,
    /// LZ4.
    Lz4,
    /// Zstd.
    Zstd,
}

/// The codec that the low three bits of `attributes` name, if any.
pub open spec fn codec_of(attributes: i16) -> Option<CompressionCodec> {
    let bits = attributes & 7;
    if bits == 0 {
        Some(CompressionCodec::Uncompressed)
    } else if bits == 1 {
        Some(CompressionCodec::Gzip)
    } else if bits == 2 {
        Some(CompressionCodec::Snappy)
    } else if bits == 3 {
        Some(CompressionCodec::Lz4)
    } else if bits == 4 {
        Some(CompressionCodec::Zstd)
    } else {
        None
    }
}

/// The text of the error for attributes that name no codec.
pub open spec fn unknown_codec(attributes: i16) -> Seq<char> {
    "unsupported record batch compression codec "@ + text::decimal((attributes & 7) as int)
}

impl CompressionCodec {
    /// The number of the codec.
    pub open spec fn number(self) -> int {
        match self {
            CompressionCodec::Uncompressed => 0,
            CompressionCodec::Gzip => 1,
            CompressionCodec::Snappy => 2,
            CompressionCodec::Lz4 => 3,
            CompressionCodec::Zstd => 4,
        }
    }

    /// Parse from attributes low 3 bits.
    pub fn from_attributes(attributes: i16) -> (r: Result<CompressionCodec>)
        ensures
            match (r, codec_of(attributes)) {
                (Ok(c), Some(d)) => c == d,
                (Err(e), None) => e.is_protocol(unknown_codec(attributes)),
                _ => false,
            },
    {
        match attributes & 7 {
            0 => Ok(CompressionCodec::Uncompressed),
            1 => Ok(CompressionCodec::Gzip),
            2 => Ok(CompressionCodec::Snappy),
            3 => Ok(CompressionCodec::Lz4),
            4 => Ok(CompressionCodec::Zstd),
            other => Err(
                Error::Protocol(
                    text::concat_decimal(
                        "unsupported record batch compression codec ",
                        other as i64,
                    ),
                ),
            ),
        }
    }

    /// Attributes low bits value.
    pub fn as_u8(self) -> (n: u8)
        ensures
            n == self.number(),
    {
        match self {
            CompressionCodec::Uncompressed => 0,
            CompressionCodec::Gzip => 1,
            CompressionCodec::Snappy => 2,
            CompressionCodec::Lz4 => 3,
            CompressionCodec::Zstd => 4,
        }
    }
}

/// The number of a codec names that codec, whatever the higher attribute bits are.
pub proof fn law_codec_number(c: CompressionCodec, attributes: i16)
    requires
        attributes & 7 == c.number(),
    ensures
        codec_of(attributes) == Some(c),
        codec_of(c.number() as i16) == Some(c),
{
    assert(0i16 & 7 == 0 && 1i16 & 7 == 1 && 2i16 & 7 == 2 && 3i16 & 7 == 3 && 4i16 & 7 == 4)
        by (bit_vector);
}

/// What `flate2::read::GzDecoder` reads from a gzip stream, or the text of its error.
pub uninterp spec fn gunzip(data: Seq<u8>) -> core::result::Result<Seq<u8>, Seq<char>>;

/// What `snap::raw::Decoder::decompress_vec` gives, or the text of its error.
pub uninterp spec fn unsnap(data: Seq<u8>) -> core::result::Result<Seq<u8>, Seq<char>>;

/// What `lz4_flex::frame::FrameDecoder` reads from a frame, if it is one.
pub uninterp spec fn lz4_unframe(data: Seq<u8>) -> Option<Seq<u8>>;

/// What `lz4_flex::block::decompress_size_prepended` gives, if it succeeds.
pub uninterp spec fn lz4_unblock_sized(data: Seq<u8>) -> Option<Seq<u8>>;

/// What `lz4_flex::block::decompress` gives for an output of at most `max` bytes,
/// if it succeeds.
pub uninterp spec fn lz4_unblock(data: Seq<u8>, max: usize) -> Option<Seq<u8>>;

/// What `zstd::stream::decode_all` gives, or the text of its error.
pub uninterp spec fn unzstd(data: Seq<u8>) -> core::result::Result<Seq<u8>, Seq<char>>;

/// What `flate2::write::GzEncoder` writes at the fast level, or the text of its error: the
/// outer one where it comes of writing `data`, the inner one where it comes of ending the
/// stream.
pub uninterp spec fn gzipped(data: Seq<u8>) -> core::result::Result<
    core::result::Result<Seq<u8>, Seq<char>>,
    Seq<char>,
>;

/// What `snap::raw::Encoder::compress_vec` gives, or the text of its error.
pub uninterp spec fn snapped(data: Seq<u8>) -> core::result::Result<Seq<u8>, Seq<char>>;

/// What `zstd::stream::encode_all` gives at level 1, or the text of its error.
pub uninterp spec fn zstded(data: Seq<u8>) -> core::result::Result<Seq<u8>, Seq<char>>;

/// Decoding succeeds and gives `data`.
pub open spec fn intact(data: Seq<u8>) -> core::result::Result<Seq<u8>, Seq<char>> {
    Ok(data)
}

/// The outcome `r` of an outside call is the named one: the bytes, or the error text.
pub open spec fn same(
    r: core::result::Result<Vec<u8>, String>,
    want: core::result::Result<Seq<u8>, Seq<char>>,
) -> bool {
    match (r, want) {
        (Ok(v), Ok(w)) => v@ == w,
        (Err(t), Err(w)) => t@ == w,
        _ => false,
    }
}

/// The outcome of writing a stream and then ending it. An outer error comes of the
/// writing, an inner one of the end.
pub type Streamed<T, E> = core::result::Result<core::result::Result<T, E>, E>;

/// The outcome `r` of an outside encoder is the named one.
pub open spec fn same_stream(
    r: Streamed<Vec<u8>, String>,
    want: Streamed<Seq<u8>, Seq<char>>,
) -> bool {
    match (r, want) {
        (Ok(x), Ok(w)) => same(x, w),
        (Err(t), Err(w)) => t@ == w,
        _ => false,
    }
}

/// The optional outcome `r` of an outside call is the named one.
pub open spec fn same_option(r: Option<Vec<u8>>, want: Option<Seq<u8>>) -> bool {
    match (r, want) {
        (Some(v), Some(w)) => v@ == w,
        (None, None) => true,
        _ => false,
    }
}

/// `flate2::read::GzDecoder`: reads the whole gzip stream in `data`.
#[verifier::external_body]
fn gzip_read(data: &[u8]) -> (r: core::result::Result<Vec<u8>, String>)
    ensures
        same(r, gunzip(data@)),
{
    let mut out = Vec::new();
    GzDecoder::new(data).read_to_end(&mut out).map(|_| out).map_err(|e| e.to_string())
}

/// `flate2::write::GzEncoder` at the fast level: a gzip stream from which the
/// decoder reads `data` back.
#[verifier::external_body]
fn gzip_write(data: &[u8]) -> (r: Streamed<Vec<u8>, String>)
    ensures
        same_stream(r, gzipped(data@)),
        r matches Ok(Ok(v)) ==> gunzip(v@) == intact(data@),
{
    let mut enc = GzEncoder::new(Vec::new(), Compression::fast());
    enc.write_all(data).map_err(|e| e.to_string())?;
    Ok(enc.finish().map_err(|e| e.to_string()))
}

/// The size that a raw Snappy block announces in front, if it announces any: a varint of
/// at most five bytes.
pub open spec fn snap_size(data: Seq<u8>) -> Option<nat> {
    match wire::uvarint_at(Src::of(data), 5).value {
        Ok(n) => Some(n),
        Err(_) => None,
    }
}

/// Whether a vector can hold what a raw Snappy block announces. More than 32 bits of it is
/// an error of the block.
pub open spec fn snap_fits(data: Seq<u8>) -> bool {
    match snap_size(data) {
        Some(n) => n <= isize::MAX || n > u32::MAX,
        None => true,
    }
}

/// `snap::raw::Decoder::decompress_vec`: decodes one raw Snappy block. It allocates the
/// size that the block announces: more than a vector can hold makes it panic.
#[verifier::external_body]
fn snap_decode(data: &[u8]) -> (r: core::result::Result<Vec<u8>, String>)
    requires
        snap_fits(data@),
    ensures
        same(r, unsnap(data@)),
{
    snap::raw::Decoder::new().decompress_vec(data).map_err(|e| e.to_string())
}

/// Whether a vector can hold the largest raw Snappy block that `n` bytes can make. More
/// than 32 bits of it is an error of the encoder.
pub open spec fn snap_room(n: nat) -> bool {
    let most = 32 + n + n / 6;
    most <= isize::MAX || most > u32::MAX
}

/// `snap::raw::Encoder::compress_vec`: one raw Snappy block of less than 2^32
/// bytes, which announces the size of `data` and from which the decoder gives `data` back.
/// Larger input is an error. It allocates the largest block that there can be: more than a
/// vector can hold makes it panic.
#[verifier::external_body]
fn snap_encode(data: &[u8]) -> (r: core::result::Result<Vec<u8>, String>)
    requires
        snap_room(data@.len()),
    ensures
        same(r, snapped(data@)),
        r matches Ok(v) ==> v@.len() <= u32::MAX && unsnap(v@) == intact(data@) && snap_fits(v@),
{
    snap::raw::Encoder::new().compress_vec(data).map_err(|e| e.to_string())
}

/// `lz4_flex::frame::FrameDecoder`: reads the whole LZ4 frame in `data`.
#[verifier::external_body]
fn lz4_frame_read(data: &[u8]) -> (r: Option<Vec<u8>>)
    ensures
        same_option(r, lz4_unframe(data@)),
{
    let mut out = Vec::new();
    lz4_flex::frame::FrameDecoder::new(data).read_to_end(&mut out).ok().map(|_| out)
}

/// `lz4_flex::frame::FrameEncoder`: an LZ4 frame from which the decoder reads
/// `data` back. It always comes out: the vector that is written to takes every byte, and
/// the encoder gives its blocks room enough and announces no size. Which of the frames that
/// hold `data` it is depends on the machine's word size and byte order, by which the
/// encoder looks for repetitions.
#[verifier::external_body]
fn lz4_frame_write(data: &[u8]) -> (r: Streamed<Vec<u8>, String>)
    ensures
        match r {
            Ok(Ok(v)) => lz4_unframe(v@) == Some(data@),
            _ => false,
        },
{
    let mut enc = lz4_flex::frame::FrameEncoder::new(Vec::new());
    enc.write_all(data).map_err(|e| e.to_string())?;
    Ok(enc.finish().map_err(|e| e.to_string()))
}

/// `lz4_flex::block::decompress_size_prepended`: decodes a block that begins with
/// its uncompressed size, in four bytes. It allocates that size: more than a vector can hold
/// makes it panic. Where a length in the block exceeds 32 bits, its sum overflows, which can
/// be a panic too.
#[verifier::external_body]
fn lz4_block_sized(data: &[u8]) -> (r: Option<Vec<u8>>)
    requires
        data@.len() >= 4 ==> lz4_size(data@) <= isize::MAX && lengths_fit(data@.skip(4)),
    ensures
        same_option(r, lz4_unblock_sized(data@)),
{
    lz4_flex::block::decompress_size_prepended(data).ok()
}

/// `lz4_flex::block::decompress`: decodes a bare block into at most `max` bytes,
/// which it allocates: more than a vector can hold makes it panic. A block that needs more
/// than `max` is an error. Where a length in the block exceeds 32 bits, its sum overflows,
/// which can be a panic too.
#[verifier::external_body]
fn lz4_block(data: &[u8], max: usize) -> (r: Option<Vec<u8>>)
    requires
        max <= isize::MAX,
        lengths_fit(data@),
    ensures
        same_option(r, lz4_unblock(data@, max)),
{
    lz4_flex::block::decompress(data, max).ok()
}

/// `zstd::stream::decode_all`: decodes the zstd stream in `data`.
#[verifier::external_body]
fn zstd_read(data: &[u8]) -> (r: core::result::Result<Vec<u8>, String>)
    ensures
        same(r, unzstd(data@)),
{
    zstd::stream::decode_all(data).map_err(|e| e.to_string())
}

/// `zstd::stream::encode_all` at level 1: a zstd stream from which the decoder
/// gives `data` back.
#[verifier::external_body]
fn zstd_write(data: &[u8]) -> (r: core::result::Result<Vec<u8>, String>)
    ensures
        same(r, zstded(data@)),
        r matches Ok(v) ==> unzstd(v@) == intact(data@),
{
    zstd::stream::encode_all(data, 1).map_err(|e| e.to_string())
}

/// The outcome with `what` in front of the text of an error.
pub open spec fn prefixed(
    what: Seq<char>,
    r: core::result::Result<Seq<u8>, Seq<char>>,
) -> core::result::Result<Seq<u8>, Seq<char>> {
    match r {
        Ok(v) => Ok(v),
        Err(t) => Err(what + t),
    }
}

/// The first eight bytes of a Xerial Snappy stream.
pub open spec fn xerial_magic() -> Seq<u8> {
    seq![0x82u8, 0x53u8, 0x4eu8, 0x41u8, 0x50u8, 0x50u8, 0x59u8, 0u8]
}

/// What a raw Snappy block holds. One that announces more than a vector can hold is refused.
pub open spec fn snap_plain(data: Seq<u8>) -> core::result::Result<Seq<u8>, Seq<char>> {
    if snap_fits(data) {
        unsnap(data)
    } else {
        Err("block too large"@)
    }
}

/// The blocks of a Xerial stream, each with its length in front, decoded and
/// joined. Fewer than four bytes at the end are passed over.
pub open spec fn xerial_blocks(b: Src) -> core::result::Result<Seq<u8>, Seq<char>>
    decreases b.left(),
{
    if b.left() < 4 {
        Ok(Seq::empty())
    } else {
        let n = b.u32();
        let r = b.skip(4);
        if n < 0 || r.left() < n {
            Err("truncated xerial snappy block"@)
        } else {
            match snap_plain(r.take(n)) {
                Err(t) => Err("snappy xerial block: "@ + t),
                Ok(piece) => match xerial_blocks(r.skip(n)) {
                    Err(t) => Err(t),
                    Ok(tail) => Ok(piece + tail),
                },
            }
        }
    }
}

/// What Snappy data holds: a Xerial stream where it begins like one, else one raw block.
pub open spec fn snappy_plain(data: Seq<u8>) -> core::result::Result<Seq<u8>, Seq<char>> {
    if data.len() >= 8 && data.take(8) == xerial_magic() {
        if data.len() < 16 {
            Err("truncated xerial snappy header"@)
        } else {
            xerial_blocks(Src::of(data.skip(16)))
        }
    } else {
        prefixed("snappy raw decompress: "@, snap_plain(data))
    }
}

/// The size in front of an LZ4 block: four bytes, least significant first.
pub open spec fn lz4_size(data: Seq<u8>) -> int {
    data[0] + 0x100 * data[1] + 0x1_0000 * data[2] + 0x100_0000 * data[3]
}

/// The place behind a length in an LZ4 block that begins at `at`: it goes on for as long as
/// its bytes are 255.
pub open spec fn length_end(data: Seq<u8>, at: int) -> int
    decreases data.len() - at,
{
    if at >= data.len() {
        at
    } else if data[at] == 255 {
        length_end(data, at + 1)
    } else {
        at + 1
    }
}

/// The length in an LZ4 block that begins at `at`: the sum of its bytes.
pub open spec fn length_sum(data: Seq<u8>, at: int) -> int
    decreases data.len() - at,
{
    if at >= data.len() {
        0
    } else if data[at] == 255 {
        255 + length_sum(data, at + 1)
    } else {
        data[at] as int
    }
}

/// Whether the length that begins at `at` fits 32 bits, and a vector with what the token
/// adds to it.
pub open spec fn length_fits(data: Seq<u8>, at: int) -> bool {
    length_sum(data, at) <= u32::MAX && length_sum(data, at) + 19 <= isize::MAX
}

/// A length ends behind its beginning.
pub proof fn lemma_length(data: Seq<u8>, at: int)
    ensures
        length_end(data, at) >= at,
        length_sum(data, at) >= 0,
        at <= data.len() ==> length_end(data, at) <= data.len(),
    decreases data.len() - at,
{
    if at < data.len() && data[at] == 255 {
        lemma_length(data, at + 1);
    }
}

/// Whether all the lengths fit in an LZ4 block from the token at `at` on. Behind a token
/// come a length where its upper half is 15, the literals, two bytes, and a length where
/// its lower half is 15.
pub open spec fn lengths_fit_from(data: Seq<u8>, at: int) -> bool
    decreases data.len() - at,
{
    if at >= data.len() {
        true
    } else {
        let long = data[at] / 16 == 15;
        let literals = if long {
            length_end(data, at + 1)
        } else {
            at + 1
        };
        let n = if long {
            15 + length_sum(data, at + 1)
        } else {
            data[at] as int / 16
        };
        let next = literals + n + 2;
        proof {
            lemma_length(data, at + 1);
            lemma_length(data, next);
        }
        &&& long ==> length_fits(data, at + 1)
        &&& next <= data.len() ==> if data[at] % 16 == 15 {
            length_fits(data, next) && lengths_fit_from(data, length_end(data, next))
        } else {
            lengths_fit_from(data, next)
        }
    }
}

/// Whether all the lengths in an LZ4 block fit.
pub open spec fn lengths_fit(data: Seq<u8>) -> bool {
    lengths_fit_from(data, 0)
}

/// The output size that the `k`-th attempt at a bare LZ4 block allows.
pub open spec fn lz4_guess(len: nat, k: int) -> int {
    let mult = if k == 0 {
        4int
    } else if k == 1 {
        8
    } else if k == 2 {
        16
    } else if k == 3 {
        32
    } else {
        64
    };
    if len * mult < 1024 {
        1024
    } else {
        len * mult
    }
}

/// What an LZ4 block with its size in front holds. One whose size exceeds a vector, or whose
/// lengths exceed 32 bits, holds nothing.
pub open spec fn lz4_sized(data: Seq<u8>) -> Option<Seq<u8>> {
    if data.len() >= 4 && (lz4_size(data) > isize::MAX || !lengths_fit(data.skip(4))) {
        None
    } else {
        lz4_unblock_sized(data)
    }
}

/// The first of the attempts `k`, `k + 1`, ... 4 at a bare LZ4 block that succeeds.
/// A size that no vector can have is not tried.
pub open spec fn lz4_guesses(data: Seq<u8>, k: int) -> Option<Seq<u8>>
    decreases 5 - k,
{
    if k >= 5 {
        None
    } else {
        let max = lz4_guess(data.len(), k);
        if max <= isize::MAX && lz4_unblock(data, max as usize) is Some {
            lz4_unblock(data, max as usize)
        } else {
            lz4_guesses(data, k + 1)
        }
    }
}

/// What LZ4 data holds: a frame, else a block with its size in front, else a bare block.
pub open spec fn lz4_plain(data: Seq<u8>) -> core::result::Result<Seq<u8>, Seq<char>> {
    if let Some(v) = lz4_unframe(data) {
        Ok(v)
    } else if let Some(v) = lz4_sized(data) {
        Ok(v)
    } else if !lengths_fit(data) {
        Err("lz4 decompress failed"@)
    } else if let Some(v) = lz4_guesses(data, 0) {
        Ok(v)
    } else {
        Err("lz4 decompress failed"@)
    }
}

/// What data that was compressed with `codec` holds.
pub open spec fn plain(codec: CompressionCodec, data: Seq<u8>) -> core::result::Result<
    Seq<u8>,
    Seq<char>,
> {
    match codec {
        CompressionCodec::Uncompressed => Ok(data),
        CompressionCodec::Gzip => prefixed("gzip decompress: "@, gunzip(data)),
        CompressionCodec::Snappy => snappy_plain(data),
        CompressionCodec::Lz4 => lz4_plain(data),
        CompressionCodec::Zstd => prefixed("zstd decompress: "@, unzstd(data)),
    }
}

/// The outcome of an encoder with a text in front of that of an error: `write` where it
/// comes of the writing, `end` where it comes of the end.
pub open spec fn staged(
    write: Seq<char>,
    end: Seq<char>,
    r: Streamed<Seq<u8>, Seq<char>>,
) -> core::result::Result<Seq<u8>, Seq<char>> {
    match r {
        Ok(x) => prefixed(end, x),
        Err(t) => Err(write + t),
    }
}

/// What Snappy makes of `data`: a Xerial stream of one block. Where a vector may be too
/// small for the block, it is refused.
pub open spec fn snappy_packed(data: Seq<u8>) -> core::result::Result<Seq<u8>, Seq<char>> {
    if !snap_room(data.len()) {
        Err("snappy compress: block too large"@)
    } else {
        match snapped(data) {
            Ok(block) => Ok(xerial_stream(block)),
            Err(t) => Err("snappy compress: "@ + t),
        }
    }
}

/// Whether `r` can come of compressing `data` with `codec`. What comes out holds `data`.
/// LZ4 always succeeds, and which frame comes out stays open; with any other codec there
/// is one outcome only.
pub open spec fn packs(
    codec: CompressionCodec,
    data: Seq<u8>,
    r: core::result::Result<Seq<u8>, Seq<char>>,
) -> bool {
    &&& r matches Ok(v) ==> plain(codec, v) == intact(data)
    &&& match codec {
        CompressionCodec::Uncompressed => r == intact(data),
        CompressionCodec::Gzip => r == staged(
            "gzip compress: "@,
            "gzip finish: "@,
            gzipped(data),
        ),
        CompressionCodec::Snappy => r == snappy_packed(data),
        CompressionCodec::Lz4 => r is Ok,
        CompressionCodec::Zstd => r == prefixed("zstd compress: "@, zstded(data)),
    }
}

/// What an outcome says: the bytes, or the text of the error.
pub open spec fn outcome(r: Result<Vec<u8>>) -> core::result::Result<Seq<u8>, Seq<char>> {
    match r {
        Ok(v) => Ok(v@),
        Err(e) => Err(e.text()),
    }
}

/// The outcome `r` is the one that `want` describes.
pub open spec fn vec_agrees(
    r: Result<Vec<u8>>,
    want: core::result::Result<Seq<u8>, Seq<char>>,
) -> bool {
    match (r, want) {
        (Ok(v), Ok(w)) => v@ == w,
        (Err(e), Err(m)) => e.is_protocol(m),
        _ => false,
    }
}

fn with_prefix(what: &str, r: core::result::Result<Vec<u8>, String>) -> (s: Result<Vec<u8>>)
    ensures
        match (s, r) {
            (Ok(v), Ok(w)) => v == w,
            (Err(e), Err(t)) => e.is_protocol(what@ + t@),
            _ => false,
        },
{
    match r {
        Ok(v) => Ok(v),
        Err(t) => Err(Error::Protocol(text::concat(what, t.as_str()))),
    }
}

/// What an encoder's outcome says.
pub open spec fn stream_view(r: Streamed<Vec<u8>, String>) -> Streamed<Seq<u8>, Seq<char>> {
    match r {
        Ok(Ok(v)) => Ok(Ok(v@)),
        Ok(Err(t)) => Ok(Err(t@)),
        Err(t) => Err(t@),
    }
}

/// The outcome of an encoder, as this crate reports it: with a text in front of that of an
/// error that says where it comes from.
pub fn stream_outcome(write: &str, end: &str, r: Streamed<Vec<u8>, String>) -> (s: Result<Vec<u8>>)
    ensures
        vec_agrees(s, staged(write@, end@, stream_view(r))),
{
    match r {
        Ok(x) => with_prefix(end, x),
        Err(t) => Err(Error::Protocol(text::concat(write, t.as_str()))),
    }
}

/// Decompress a records payload.
pub fn decompress(codec: CompressionCodec, data: &[u8]) -> (r: Result<Vec<u8>>)
    ensures
        vec_agrees(r, plain(codec, data@)),
{
    match codec {
        CompressionCodec::Uncompressed => Ok(slice_to_vec(data)),
        CompressionCodec::Gzip => with_prefix("gzip decompress: ", gzip_read(data)),
        CompressionCodec::Snappy => snappy_decompress(data),
        CompressionCodec::Lz4 => lz4_decompress(data),
        CompressionCodec::Zstd => with_prefix("zstd decompress: ", zstd_read(data)),
    }
}

/// Compress a records payload: what comes out holds `data`.
pub fn compress(codec: CompressionCodec, data: &[u8]) -> (r: Result<Vec<u8>>)
    ensures
        packs(codec, data@, outcome(r)),
        r matches Err(e) ==> e is Protocol,
{
    match codec {
        CompressionCodec::Uncompressed => Ok(slice_to_vec(data)),
        CompressionCodec::Gzip => stream_outcome(
            "gzip compress: ",
            "gzip finish: ",
            gzip_write(data),
        ),
        CompressionCodec::Snappy => snappy_compress(data),
        CompressionCodec::Lz4 => stream_outcome(
            "lz4 compress: ",
            "lz4 finish: ",
            lz4_frame_write(data),
        ),
        CompressionCodec::Zstd => with_prefix("zstd compress: ", zstd_write(data)),
    }
}

fn has_xerial_magic(data: &[u8]) -> (b: bool)
    ensures
        b == (data@.len() >= 8 && data@.take(8) == xerial_magic()),
{
    if data.len() < 8 {
        return false;
    }
    let b = data[0] == 0x82 && data[1] == 0x53 && data[2] == 0x4e && data[3] == 0x41 && data[4]
        == 0x50 && data[5] == 0x50 && data[6] == 0x59 && data[7] == 0;
    proof {
        if b {
            assert(data@.take(8) =~= xerial_magic());
        } else {
            let t = data@.take(8);
            assert(t[0] == data@[0] && t[1] == data@[1] && t[2] == data@[2] && t[3] == data@[3]
                && t[4] == data@[4] && t[5] == data@[5] && t[6] == data@[6] && t[7] == data@[7]);
        }
    }
    b
}

/// The size that a raw Snappy block announces from `at` on, in at most `most` bytes.
fn announced(data: &[u8], at: usize, most: u8) -> (n: Option<u64>)
    requires
        at <= data@.len(),
        most <= 5,
    ensures
        match wire::uvarint_at(Src::of(data@.skip(at as int)), most as nat).value {
            Ok(v) => n == Some(v as u64) && v < (if most == 5 {
                0x8_0000_0000nat
            } else if most == 4 {
                0x1000_0000
            } else if most == 3 {
                0x20_0000
            } else if most == 2 {
                0x4000
            } else {
                0x80
            }),
            Err(_) => n is None,
        },
    decreases most,
{
    let ghost b = Src::of(data@.skip(at as int));
    if at >= data.len() || most == 0 {
        return None;
    }
    assert(b.u8() == data@[at as int]) by {
        reveal_with_fuel(wire::be_uint, 2);
        assert(b.bytes.take(1)[0] == data@[at as int]);
        assert(b.bytes.take(1).drop_last() =~= Seq::empty());
    }
    if data[at] < 128 {
        return Some(data[at] as u64);
    }
    if most == 1 {
        return None;
    }
    assert(b.skip(1).bytes =~= data@.skip(at + 1));
    match announced(data, at + 1, most - 1) {
        Some(v) => Some((data[at] - 128) as u64 + 128 * v),
        None => None,
    }
}

fn snap_decompress(data: &[u8]) -> (r: core::result::Result<Vec<u8>, String>)
    ensures
        same(r, snap_plain(data@)),
{
    assert(data@.skip(0) =~= data@);
    if let Some(n) = announced(data, 0, 5) {
        if n > isize::MAX as u64 && n <= u32::MAX as u64 {
            return Err("block too large".to_owned());
        }
    }
    snap_decode(data)
}

fn snappy_decompress(data: &[u8]) -> (r: Result<Vec<u8>>)
    ensures
        vec_agrees(r, snappy_plain(data@)),
{
    if has_xerial_magic(data) {
        return snappy_decompress_xerial(data);
    }
    with_prefix("snappy raw decompress: ", snap_decompress(data))
}

fn snappy_decompress_xerial(data: &[u8]) -> (r: Result<Vec<u8>>)
    ensures
        vec_agrees(
            r,
            if data@.len() < 16 {
                Err("truncated xerial snappy header"@)
            } else {
                xerial_blocks(Src::of(data@.skip(16)))
            },
        ),
{
    if data.len() < 16 {
        return Err(Error::Protocol("truncated xerial snappy header".to_owned()));
    }
    let ghost whole = xerial_blocks(Src::of(data@.skip(16)));
    let mut off: usize = 16;
    let mut out: Vec<u8> = Vec::new();
    proof {
        if let Ok(t) = whole {
            assert(Seq::<u8>::empty() + t =~= t);
        }
    }
    while data.len() - off >= 4
        invariant
            16 <= off <= data@.len(),
            whole == xerial_blocks(Src::of(data@.skip(16))),
            match (whole, xerial_blocks(Src::of(data@.skip(off as int)))) {
                (Ok(w), Ok(t)) => w == out@ + t,
                (Err(m), Err(n)) => m == n,
                _ => false,
            },
        decreases data@.len() - off,
    {
        let ghost here = Src::of(data@.skip(off as int));
        let comp_len: usize = (((data[off] as u32 * 256 + data[off + 1] as u32) * 256 + data[off
            + 2] as u32) as u64 * 256 + data[off + 3] as u64) as usize;
        proof {
            let s = here.bytes.take(4);
            assert(s[0] == data@[off as int] && s[1] == data@[off + 1] && s[2] == data@[off + 2]
                && s[3] == data@[off + 3]);
            wire::lemma_be_uint4(s);
        }
        off = off + 4;
        assert(here.skip(4).bytes =~= data@.skip(off as int));
        if data.len() - off < comp_len {
            return Err(Error::Protocol("truncated xerial snappy block".to_owned()));
        }
        let block = slice_subrange(data, off, off + comp_len);
        assert(block@ =~= here.skip(4).take(comp_len as int));
        off = off + comp_len;
        assert(here.skip(4).skip(comp_len as int).bytes =~= data@.skip(off as int));
        let mut piece: Vec<u8> = match snap_decompress(block) {
            Ok(p) => p,
            Err(t) => return Err(
                Error::Protocol(text::concat("snappy xerial block: ", t.as_str())),
            ),
        };
        proof {
            if let Ok(t) = xerial_blocks(Src::of(data@.skip(off as int))) {
                assert((out@ + piece@) + t =~= out@ + (piece@ + t));
            }
        }
        out.append(&mut piece);
    }
    assert(out@ + Seq::<u8>::empty() =~= out@);
    Ok(out)
}

fn push_be32(out: &mut Vec<u8>, v: u32)
    ensures
        final(out)@ == old(out)@ + wire::be32(v as int),
{
    out.push((v / 0x100_0000) as u8);
    out.push((v / 0x1_0000 % 256) as u8);
    out.push((v / 0x100 % 256) as u8);
    out.push((v % 256) as u8);
    proof {
        wire::lemma_be4(v as int);
        assert(out@ =~= old(out)@ + wire::be32(v as int));
    }
}

/// A Xerial stream of one block.
pub open spec fn xerial_stream(block: Seq<u8>) -> Seq<u8> {
    Out::new().raw(xerial_magic()).i32(1).i32(1).i32(block.len() as int).raw(block).bytes
}

fn snappy_compress(data: &[u8]) -> (r: Result<Vec<u8>>)
    ensures
        vec_agrees(r, snappy_packed(data@)),
        r matches Ok(v) ==> snappy_plain(v@) == intact(data@),
{
    let n: u128 = data.len() as u128;
    let most: u128 = 32 + n + n / 6;
    if most > isize::MAX as u128 && most <= u32::MAX as u128 {
        return Err(Error::Protocol("snappy compress: block too large".to_owned()));
    }
    let mut compressed: Vec<u8> = match snap_encode(data) {
        Ok(c) => c,
        Err(t) => return Err(Error::Protocol(text::concat("snappy compress: ", t.as_str()))),
    };
    let ghost block = compressed@;
    let mut out: Vec<u8> = vec![0x82, 0x53, 0x4e, 0x41, 0x50, 0x50, 0x59, 0];
    assert(out@ =~= Out::new().raw(xerial_magic()).bytes);
    push_be32(&mut out, 1);
    push_be32(&mut out, 1);
    push_be32(&mut out, compressed.len() as u32);
    out.append(&mut compressed);
    assert(out@ == xerial_stream(block));
    proof {
        lemma_xerial_stream(block);
    }
    Ok(out)
}

/// A Xerial stream of one block holds what the block holds.
proof fn lemma_xerial_stream(block: Seq<u8>)
    requires
        block.len() <= u32::MAX,
        snap_fits(block),
        unsnap(block) is Ok,
    ensures
        snappy_plain(xerial_stream(block)) == unsnap(block),
{
    let s = xerial_stream(block);
    let len = block.len() as int;
    wire::lemma_be_len(4, 1);
    wire::lemma_be_len(4, len);
    assert(s.take(8) =~= xerial_magic());
    let b = Src::of(s.skip(16));
    assert(b.bytes =~= wire::be32(len) + block);
    wire::lemma_split_cat(wire::be32(len), block);
    wire::lemma_fits(len);
    wire::lemma_be_uint(4, len);
    assert(b.u32() == len);
    assert(b.skip(4).bytes =~= block);
    assert(b.skip(4).take(len) =~= block);
    let rest = b.skip(4).skip(len);
    assert(xerial_blocks(rest) == Ok::<Seq<u8>, Seq<char>>(Seq::empty()));
    assert(unsnap(block)->Ok_0 + Seq::<u8>::empty() =~= unsnap(block)->Ok_0);
}

/// The end and the sum of the length that begins at `at`, where it fits.
fn read_length(data: &[u8], at: usize) -> (r: Option<(usize, usize)>)
    requires
        at <= data@.len(),
    ensures
        match r {
            Some(l) => length_fits(data@, at as int) && l.0 == length_end(data@, at as int) && l.1
                == length_sum(data@, at as int),
            None => !length_fits(data@, at as int),
        },
{
    let mut i: usize = at;
    let mut sum: u64 = 0;
    while i < data.len() && data[i] == 255
        invariant
            at <= i <= data@.len(),
            sum <= u32::MAX,
            sum + length_sum(data@, i as int) == length_sum(data@, at as int),
            length_end(data@, i as int) == length_end(data@, at as int),
        decreases data@.len() - i,
    {
        sum += 255;
        i += 1;
        if sum > u32::MAX as u64 {
            proof {
                lemma_length(data@, i as int);
            }
            return None;
        }
    }
    if i < data.len() {
        sum += data[i] as u64;
        i += 1;
    }
    if sum > u32::MAX as u64 || sum + 19 > isize::MAX as u64 {
        None
    } else {
        Some((i, sum as usize))
    }
}

fn lz4_lengths_fit(data: &[u8]) -> (b: bool)
    ensures
        b == lengths_fit(data@),
{
    let mut at: usize = 0;
    while at < data.len()
        invariant
            at <= data@.len(),
            lengths_fit(data@) == lengths_fit_from(data@, at as int),
        decreases data@.len() - at,
    {
        let token: u8 = data[at];
        let mut literals: usize = at + 1;
        let mut n: usize = token as usize / 16;
        proof {
            lemma_length(data@, at + 1);
        }
        if token / 16 == 15 {
            match read_length(data, at + 1) {
                None => return false,
                Some((end, sum)) => {
                    literals = end;
                    n = 15 + sum;
                },
            }
        }
        if n > data.len() - literals || data.len() - literals - n < 2 {
            return true;
        }
        let next: usize = literals + n + 2;
        proof {
            lemma_length(data@, next as int);
        }
        if token % 16 == 15 {
            match read_length(data, next) {
                None => return false,
                Some((end, _)) => {
                    at = end;
                },
            }
        } else {
            at = next;
        }
    }
    true
}

fn lz4_sized_decompress(data: &[u8]) -> (r: Option<Vec<u8>>)
    ensures
        same_option(r, lz4_sized(data@)),
{
    if data.len() >= 4 {
        let size: u64 = data[0] as u64 + 0x100 * data[1] as u64 + 0x1_0000 * data[2] as u64
            + 0x100_0000 * data[3] as u64;
        let block = slice_subrange(data, 4, data.len());
        assert(block@ =~= data@.skip(4));
        if size > isize::MAX as u64 || !lz4_lengths_fit(block) {
            return None;
        }
    }
    lz4_block_sized(data)
}

fn lz4_decompress(data: &[u8]) -> (r: Result<Vec<u8>>)
    ensures
        vec_agrees(r, lz4_plain(data@)),
{
    if let Some(out) = lz4_frame_read(data) {
        return Ok(out);
    }
    if let Some(out) = lz4_sized_decompress(data) {
        return Ok(out);
    }
    if !lz4_lengths_fit(data) {
        return Err(Error::Protocol("lz4 decompress failed".to_owned()));
    }
    let mut k: usize = 0;
    let mut mult: usize = 4;
    while k < 5
        invariant
            k <= 5,
            k == 0 ==> mult == 4,
            k == 1 ==> mult == 8,
            k == 2 ==> mult == 16,
            k == 3 ==> mult == 32,
            k == 4 ==> mult == 64,
            mult <= 128,
            lz4_unframe(data@) is None,
            lz4_sized(data@) is None,
            lengths_fit(data@),
            lz4_guesses(data@, 0) == lz4_guesses(data@, k as int),
        decreases 5 - k,
    {
        let fits = data.len() <= isize::MAX as usize / mult;
        assert(fits == (data@.len() * mult <= isize::MAX)) by {
            if mult == 4 {
            } else if mult == 8 {
            } else if mult == 16 {
            } else if mult == 32 {
            } else {
            }
        }
        if fits {
            assert(data@.len() * mult <= usize::MAX);
            let size: usize = data.len() * mult;
            let max: usize = if size < 1024 {
                1024
            } else {
                size
            };
            if let Some(out) = lz4_block(data, max) {
                return Ok(out);
            }
        }
        k = k + 1;
        mult = mult * 2;
    }
    Err(Error::Protocol("lz4 decompress failed".to_owned()))
}

} // verus!
