//! Byte buffers of the `bytes` crate: what a [`BytesMut`] holds and what is left
//! in a [`Bytes`], and the calls that write to the one and read from the other.

use bytes::{Buf, BufMut, Bytes, BytesMut};
use vstd::prelude::*;

use crate::wire::{Out, Src};

verus! {

#[verifier::external_type_specification]
#[verifier::external_body]
pub struct ExBytes(bytes::Bytes);

#[verifier::external_type_specification]
#[verifier::external_body]
pub struct ExBytesMut(bytes::BytesMut);

/// The bytes that a [`Bytes`] still holds, in order: what is left to be read.
pub uninterp spec fn unread(b: Bytes) -> Seq<u8>;

/// The bytes that a [`BytesMut`] holds, in order.
pub uninterp spec fn written(b: BytesMut) -> Seq<u8>;

/// What a buffer stands for: the input that is left in a [`Bytes`], the output
/// that a [`BytesMut`] holds.
pub trait Contents {
    type V;

    spec fn view(&self) -> Self::V;
}

impl Contents for Bytes {
    type V = Src;

    open spec fn view(&self) -> Src {
        Src { bytes: unread(*self) }
    }
}

impl Contents for BytesMut {
    type V = Out;

    open spec fn view(&self) -> Out {
        Out { bytes: written(*self) }
    }
}

/// A `BytesMut` with nothing in it (`bytes::BytesMut::new`).
#[verifier::external_body]
pub(crate) fn new_buf() -> (b: BytesMut)
    ensures
        b@ == Out::new(),
{
    BytesMut::new()
}

/// `BytesMut::len`: how many bytes the buffer holds. It holds them in one
/// allocation, which has no more than `isize::MAX` bytes.
#[verifier::external_body]
pub(crate) fn buf_len(b: &BytesMut) -> (n: usize)
    ensures
        n == written(*b).len(),
        n <= isize::MAX,
{
    b.len()
}

/// `BytesMut::deref`: the bytes that the buffer holds, as a slice.
#[verifier::external_body]
pub(crate) fn buf_slice(b: &BytesMut) -> (s: &[u8])
    ensures
        s@ == written(*b),
{
    b.as_ref()
}

/// `BytesMut::split_to`: takes the first `at` bytes off the buffer and hands
/// them out. It panics where the buffer holds fewer.
#[verifier::external_body]
pub(crate) fn buf_split_to(b: &mut BytesMut, at: usize) -> (head: BytesMut)
    requires
        at <= old(b)@.bytes.len(),
    ensures
        head@.bytes == old(b)@.bytes.take(at as int),
        final(b)@.bytes == old(b)@.bytes.skip(at as int),
{
    b.split_to(at)
}

/// `BytesMut::freeze`: the same bytes, ready to be read.
#[verifier::external_body]
pub(crate) fn freeze(b: BytesMut) -> (r: Bytes)
    ensures
        r@.bytes == b@.bytes,
{
    b.freeze()
}

/// `BytesMut::extend_from_slice`: appends the slice.
#[verifier::external_body]
pub(crate) fn put_slice(dst: &mut BytesMut, s: &[u8])
    ensures
        final(dst)@ == old(dst)@.raw(s@),
{
    dst.extend_from_slice(s)
}

/// `BufMut::put_u8`: appends one byte.
#[verifier::external_body]
pub(crate) fn put_u8(dst: &mut BytesMut, v: u8)
    ensures
        final(dst)@ == old(dst)@.byte(v as int),
{
    dst.put_u8(v)
}

/// `BufMut::put_i8`: appends one byte.
#[verifier::external_body]
pub(crate) fn put_i8(dst: &mut BytesMut, v: i8)
    ensures
        final(dst)@ == old(dst)@.byte(v as int),
{
    dst.put_i8(v)
}

/// `BufMut::put_i16`: appends two bytes, most significant first.
#[verifier::external_body]
pub(crate) fn put_i16(dst: &mut BytesMut, v: i16)
    ensures
        final(dst)@ == old(dst)@.i16(v as int),
{
    dst.put_i16(v)
}

/// `BufMut::put_i32`: appends four bytes, most significant first.
#[verifier::external_body]
pub(crate) fn put_i32(dst: &mut BytesMut, v: i32)
    ensures
        final(dst)@ == old(dst)@.i32(v as int),
{
    dst.put_i32(v)
}

/// `BufMut::put_u32`: appends four bytes, most significant first.
#[verifier::external_body]
pub(crate) fn put_u32(dst: &mut BytesMut, v: u32)
    ensures
        final(dst)@ == old(dst)@.i32(v as int),
{
    dst.put_u32(v)
}

/// `BufMut::put_u16`: appends two bytes, most significant first.
#[verifier::external_body]
pub(crate) fn put_u16(dst: &mut BytesMut, v: u16)
    ensures
        final(dst)@ == old(dst)@.i16(v as int),
{
    dst.put_u16(v)
}

/// `BufMut::put_u64`: appends eight bytes, most significant first.
#[verifier::external_body]
pub(crate) fn put_u64(dst: &mut BytesMut, v: u64)
    ensures
        final(dst)@ == old(dst)@.i64(v as int),
{
    dst.put_u64(v)
}

/// `BufMut::put_i64`: appends eight bytes, most significant first.
#[verifier::external_body]
pub(crate) fn put_i64(dst: &mut BytesMut, v: i64)
    ensures
        final(dst)@ == old(dst)@.i64(v as int),
{
    dst.put_i64(v)
}

/// `Bytes::new`: nothing to read.
#[verifier::external_body]
pub(crate) fn no_bytes() -> (b: Bytes)
    ensures
        b@.bytes == Seq::<u8>::empty(),
{
    Bytes::new()
}

/// `Bytes::copy_from_slice`: the bytes of the slice.
#[verifier::external_body]
pub(crate) fn copy_bytes(s: &[u8]) -> (b: Bytes)
    ensures
        b@.bytes == s@,
{
    Bytes::copy_from_slice(s)
}

/// `Bytes::from(Vec<u8>)`: the bytes of the vector.
#[verifier::external_body]
pub(crate) fn bytes_from_vec(v: Vec<u8>) -> (b: Bytes)
    ensures
        b@.bytes == v@,
{
    Bytes::from(v)
}

/// `Bytes::deref`: the bytes that are left, as a slice.
#[verifier::external_body]
pub(crate) fn bytes_slice(b: &Bytes) -> (s: &[u8])
    ensures
        s@ == unread(*b),
{
    b.as_ref()
}

/// `Buf::remaining`: how many bytes are left. They lie in one allocation, which
/// has no more than `isize::MAX` bytes.
#[verifier::external_body]
pub(crate) fn remaining(src: &Bytes) -> (n: usize)
    ensures
        n == unread(*src).len(),
        n <= isize::MAX,
{
    src.remaining()
}

/// `Bytes::split_to`: reads the next `at` bytes. It panics where fewer are left.
#[verifier::external_body]
pub(crate) fn take_bytes(src: &mut Bytes, at: usize) -> (head: Bytes)
    requires
        at <= old(src)@.left(),
    ensures
        head@.bytes == old(src)@.take(at as int),
        final(src)@ == old(src)@.skip(at as int),
{
    src.split_to(at)
}

/// `Buf::advance`: skips the next `n` bytes. It panics where fewer are left.
#[verifier::external_body]
pub(crate) fn advance(src: &mut Bytes, n: usize)
    requires
        n <= old(src)@.left(),
    ensures
        final(src)@ == old(src)@.skip(n as int),
{
    src.advance(n)
}

/// `Buf::get_u8`: reads one byte. It panics where none is left.
#[verifier::external_body]
pub(crate) fn get_u8(src: &mut Bytes) -> (v: u8)
    requires
        old(src)@.left() >= 1,
    ensures
        v == old(src)@.u8(),
        final(src)@ == old(src)@.skip(1),
{
    src.get_u8()
}

/// `Buf::get_i8`: reads one byte as a signed number. It panics where none is left.
#[verifier::external_body]
pub(crate) fn get_i8(src: &mut Bytes) -> (v: i8)
    requires
        old(src)@.left() >= 1,
    ensures
        v == old(src)@.i8(),
        final(src)@ == old(src)@.skip(1),
{
    src.get_i8()
}

/// `Buf::get_i16`: reads a big-endian two-byte number. It panics where fewer
/// than two bytes are left.
#[verifier::external_body]
pub(crate) fn get_i16(src: &mut Bytes) -> (v: i16)
    requires
        old(src)@.left() >= 2,
    ensures
        v == old(src)@.i16(),
        final(src)@ == old(src)@.skip(2),
{
    src.get_i16()
}

/// `Buf::get_i32`: reads a big-endian four-byte number. It panics where fewer
/// than four bytes are left.
#[verifier::external_body]
pub(crate) fn get_i32(src: &mut Bytes) -> (v: i32)
    requires
        old(src)@.left() >= 4,
    ensures
        v == old(src)@.i32(),
        final(src)@ == old(src)@.skip(4),
{
    src.get_i32()
}

/// `Buf::get_u32`: reads a big-endian four-byte number without a sign. It panics
/// where fewer than four bytes are left.
#[verifier::external_body]
pub(crate) fn get_u32(src: &mut Bytes) -> (v: u32)
    requires
        old(src)@.left() >= 4,
    ensures
        v == old(src)@.u32(),
        final(src)@ == old(src)@.skip(4),
{
    src.get_u32()
}

/// `Buf::get_i64`: reads a big-endian eight-byte number. It panics where fewer
/// than eight bytes are left.
#[verifier::external_body]
pub(crate) fn get_i64(src: &mut Bytes) -> (v: i64)
    requires
        old(src)@.left() >= 8,
    ensures
        v == old(src)@.i64(),
        final(src)@ == old(src)@.skip(8),
{
    src.get_i64()
}

} // verus!
