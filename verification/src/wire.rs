//! The byte layouts of the protocol, as specification: what each kind of field
//! looks like when it is written, and what is found where one is read.

use vstd::prelude::*;
use vstd::utf8::*;

verus! {

/// The `n` low-order bytes of `v` in two's complement, most significant first.
pub open spec fn be(n: nat, v: int) -> Seq<u8>
    decreases n,
{
    if n == 0 {
        Seq::empty()
    } else {
        be((n - 1) as nat, v / 256).push((v % 256) as u8)
    }
}

/// One byte.
pub open spec fn be8(v: int) -> Seq<u8> {
    be(1, v)
}

/// Two bytes, most significant first.
pub open spec fn be16(v: int) -> Seq<u8> {
    be(2, v)
}

/// Four bytes, most significant first.
pub open spec fn be32(v: int) -> Seq<u8> {
    be(4, v)
}

/// Eight bytes, most significant first.
pub open spec fn be64(v: int) -> Seq<u8> {
    be(8, v)
}

/// The unsigned number whose big-endian bytes are `s`.
pub open spec fn be_uint(s: Seq<u8>) -> int
    decreases s.len(),
{
    if s.len() == 0 {
        0
    } else {
        be_uint(s.drop_last()) * 256 + s.last()
    }
}

/// The signed number whose big-endian two's complement bytes are `s`.
pub open spec fn be_int(s: Seq<u8>) -> int
    decreases s.len(),
{
    if s.len() == 0 {
        0
    } else if s.len() == 1 {
        if s[0] < 128 {
            s[0] as int
        } else {
            s[0] - 256
        }
    } else {
        be_int(s.drop_last()) * 256 + s.last()
    }
}

/// Output under construction.
#[verifier::ext_equal]
pub struct Out {
    pub bytes: Seq<u8>,
}

/// Input that is left to be read.
#[verifier::ext_equal]
pub struct Src {
    pub bytes: Seq<u8>,
}

impl Out {
    /// Nothing written yet.
    pub open spec fn new() -> Out {
        Out { bytes: Seq::empty() }
    }

    /// The bytes `s` as they are.
    pub open spec fn raw(self, s: Seq<u8>) -> Out {
        Out { bytes: self.bytes + s }
    }

    /// One byte: the low-order eight bits of `v`.
    pub open spec fn byte(self, v: int) -> Out {
        self.raw(be8(v))
    }

    /// Two bytes, most significant first.
    pub open spec fn i16(self, v: int) -> Out {
        self.raw(be16(v))
    }

    /// Four bytes, most significant first.
    pub open spec fn i32(self, v: int) -> Out {
        self.raw(be32(v))
    }

    /// Eight bytes, most significant first.
    pub open spec fn i64(self, v: int) -> Out {
        self.raw(be64(v))
    }

    /// A string: its length in bytes (two bytes) and its UTF-8 encoding.
    pub open spec fn string(self, s: Seq<char>) -> Out {
        self.i16(encode_utf8(s).len() as int).raw(encode_utf8(s))
    }

    /// A string that may be null; null has the length -1.
    pub open spec fn nullable(self, s: Option<Seq<char>>) -> Out {
        match s {
            None => self.i16(-1),
            Some(v) => self.string(v),
        }
    }

    /// Bytes that may be null: their number (four bytes; -1 for null), then they.
    pub open spec fn blob(self, b: Option<Seq<u8>>) -> Out {
        match b {
            None => self.i32(-1),
            Some(v) => self.i32(v.len() as int).raw(v),
        }
    }

    /// An unsigned varint.
    pub open spec fn uvarint(self, v: nat) -> Out {
        self.raw(uvarint(v))
    }

    /// A signed varint, zig-zag encoded.
    pub open spec fn varint(self, v: int) -> Out {
        self.raw(uvarint(zigzag(v)))
    }

    /// The length field of a compact string, bytes or array: one more than the length.
    pub open spec fn compact_len(self, n: nat) -> Out {
        self.uvarint(compact_len(n))
    }

    /// A compact string.
    pub open spec fn compact(self, s: Seq<char>) -> Out {
        self.compact_len(encode_utf8(s).len()).raw(encode_utf8(s))
    }

    /// A compact string that may be null.
    pub open spec fn compact_nullable(self, s: Option<Seq<char>>) -> Out {
        match s {
            None => self.uvarint(0),
            Some(v) => self.compact(v),
        }
    }

    /// Compact bytes that may be null.
    pub open spec fn compact_blob(self, b: Option<Seq<u8>>) -> Out {
        match b {
            None => self.uvarint(0),
            Some(v) => self.compact_len(v.len()).raw(v),
        }
    }

    /// An empty tag buffer.
    pub open spec fn tags(self) -> Out {
        self.uvarint(0)
    }

    /// A string, compact in the flexible versions.
    pub open spec fn text(self, flexible: bool, s: Seq<char>) -> Out {
        if flexible {
            self.compact(s)
        } else {
            self.string(s)
        }
    }

    /// A string that may be null, compact in the flexible versions.
    pub open spec fn opt_text(self, flexible: bool, s: Option<Seq<char>>) -> Out {
        if flexible {
            self.compact_nullable(s)
        } else {
            self.nullable(s)
        }
    }

    /// The number of elements of an array, compact in the flexible versions.
    pub open spec fn array_len(self, flexible: bool, n: nat) -> Out {
        if flexible {
            self.compact_len(n)
        } else {
            self.i32(n as int)
        }
    }

    /// An empty tag buffer in the flexible versions, nothing in the others.
    pub open spec fn end(self, flexible: bool) -> Out {
        if flexible {
            self.tags()
        } else {
            self
        }
    }

    /// Every element of `items` in order, each written by `f`.
    pub open spec fn each<T>(self, items: Seq<T>, f: spec_fn(Out, T) -> Out) -> Out
        decreases items.len(),
    {
        if items.len() == 0 {
            self
        } else {
            f(self.each(items.drop_last(), f), items.last())
        }
    }
}

/// The first `i + 1` elements are the first `i`, and then the one at `i`.
pub proof fn lemma_each_step<T>(o: Out, items: Seq<T>, i: int, f: spec_fn(Out, T) -> Out)
    requires
        0 <= i < items.len(),
    ensures
        o.each(items.take(i + 1), f) == f(o.each(items.take(i), f), items[i]),
{
    assert(items.take(i + 1).drop_last() =~= items.take(i));
}

/// All the elements are all the elements.
pub proof fn lemma_each_all<T>(o: Out, items: Seq<T>, f: spec_fn(Out, T) -> Out)
    ensures
        o.each(items.take(items.len() as int), f) == o.each(items, f),
        o.each(items.take(0), f) == o,
{
    assert(items.take(items.len() as int) =~= items);
    assert(items.take(0).len() == 0);
}

/// An unsigned varint: seven bits to the byte, the least significant first, with
/// the high bit set on every byte but the last.
pub open spec fn uvarint(v: nat) -> Seq<u8>
    decreases v,
{
    if v < 128 {
        seq![v as u8]
    } else {
        seq![(v % 128 + 128) as u8] + uvarint(v / 128)
    }
}

/// The numbers 0, -1, 1, -2, 2, ... counted from zero.
pub open spec fn zigzag(v: int) -> nat {
    if v >= 0 {
        (2 * v) as nat
    } else {
        (-2 * v - 1) as nat
    }
}

/// The number that `zigzag` counts as `u`.
pub open spec fn unzigzag(u: nat) -> int {
    if u % 2 == 0 {
        u as int / 2
    } else {
        -(u as int / 2) - 1
    }
}

/// The value of a compact length field for the length `n`: one more than `n`, in
/// 32 bits, where what does not fit stays at the largest value.
pub open spec fn compact_len(n: nat) -> nat {
    let m = n % 0x1_0000_0000;
    if m == 0xffff_ffff {
        0xffff_ffff
    } else {
        m + 1
    }
}

/// Reads an unsigned varint of at most `most` bytes.
pub open spec fn uvarint_at(b: Src, most: nat) -> Parsed<nat>
    decreases most,
{
    if b.left() == 0 || most == 0 {
        fail("truncated unsigned varint"@, b)
    } else if b.u8() < 128 {
        done(b.u8() as nat, b.skip(1))
    } else if most == 1 {
        fail("unsigned varint too long"@, b.skip(1))
    } else {
        let p = uvarint_at(b.skip(1), (most - 1) as nat);
        match p.value {
            Ok(v) => done((b.u8() - 128 + 128 * v) as nat, p.rest),
            Err(m) => fail(m, p.rest),
        }
    }
}

/// Reads a varint of at most `most` bytes; whatever follows those bytes is refused.
pub open spec fn varint_at(b: Src, most: nat) -> Parsed<nat>
    decreases most,
{
    if b.left() == 0 {
        fail("truncated varint"@, b)
    } else if most == 0 {
        fail("varint too long"@, b.skip(1))
    } else if b.u8() < 128 {
        done(b.u8() as nat, b.skip(1))
    } else {
        let p = varint_at(b.skip(1), (most - 1) as nat);
        match p.value {
            Ok(v) => done((b.u8() - 128 + 128 * v) as nat, p.rest),
            Err(m) => fail(m, p.rest),
        }
    }
}

/// Skips `n` tagged fields.
pub open spec fn tags_at(b: Src, n: nat) -> Parsed<()>
    decreases n,
{
    if n == 0 {
        done((), b)
    } else {
        let tag = b.uvarint();
        match tag.value {
            Err(m) => fail(m, tag.rest),
            Ok(_) => {
                let len = tag.rest.uvarint();
                match len.value {
                    Err(m) => fail(m, len.rest),
                    Ok(k) => if len.rest.left() < k {
                        fail("truncated tagged field body"@, len.rest)
                    } else {
                        tags_at(len.rest.skip(k as int), (n - 1) as nat)
                    },
                }
            },
        }
    }
}

impl Src {
    /// The bytes `s`, all of them still to be read.
    pub open spec fn of(s: Seq<u8>) -> Src {
        Src { bytes: s }
    }

    /// How many bytes are left.
    pub open spec fn left(self) -> nat {
        self.bytes.len()
    }

    /// What is left after `n` bytes.
    pub open spec fn skip(self, n: int) -> Src {
        Src { bytes: self.bytes.skip(n) }
    }

    /// The next `n` bytes.
    pub open spec fn take(self, n: int) -> Seq<u8> {
        self.bytes.take(n)
    }

    /// The next byte.
    pub open spec fn u8(self) -> u8 {
        self.bytes[0]
    }

    /// The next byte as a signed number.
    pub open spec fn i8(self) -> int {
        be_int(self.bytes.take(1))
    }

    /// The next two bytes as a signed number.
    pub open spec fn i16(self) -> int {
        be_int(self.bytes.take(2))
    }

    /// The next four bytes as a signed number.
    pub open spec fn i32(self) -> int {
        be_int(self.bytes.take(4))
    }

    /// The next four bytes as an unsigned number.
    pub open spec fn u32(self) -> int {
        be_uint(self.bytes.take(4))
    }

    /// The next eight bytes as a signed number.
    pub open spec fn i64(self) -> int {
        be_int(self.bytes.take(8))
    }

    /// The next `n` bytes as UTF-8; `what` begins the text of the error.
    pub open spec fn utf8(self, n: int, what: Seq<char>) -> Parsed<Seq<char>> {
        let s = self.take(n);
        if valid_utf8(s) {
            done(decode_utf8(s), self.skip(n))
        } else {
            fail(what + crate::text::utf8_error_text(s), self.skip(n))
        }
    }

    /// A string that is not null.
    pub open spec fn string(self) -> Parsed<Seq<char>> {
        if self.left() < 2 {
            fail("truncated kafka string len"@, self)
        } else {
            let n = self.i16();
            let r = self.skip(2);
            if n < 0 {
                fail("unexpected null kafka string"@, r)
            } else if r.left() < n {
                fail("truncated kafka string body"@, r)
            } else {
                r.utf8(n, "kafka string utf8: "@)
            }
        }
    }

    /// A string that may be null.
    pub open spec fn nullable(self) -> Parsed<Option<Seq<char>>> {
        if self.left() < 2 {
            fail("truncated kafka nullable string len"@, self)
        } else {
            let n = self.i16();
            let r = self.skip(2);
            if n < 0 {
                done(None, r)
            } else if r.left() < n {
                fail("truncated kafka nullable string body"@, r)
            } else {
                some(r.utf8(n, "kafka string utf8: "@))
            }
        }
    }

    /// Bytes that may be null.
    pub open spec fn blob(self) -> Parsed<Option<Seq<u8>>> {
        if self.left() < 4 {
            fail("truncated kafka bytes len"@, self)
        } else {
            let n = self.i32();
            let r = self.skip(4);
            if n < 0 {
                done(None, r)
            } else if r.left() < n {
                fail("truncated kafka bytes body"@, r)
            } else {
                done(Some(r.take(n)), r.skip(n))
            }
        }
    }

    /// An unsigned varint of at most five bytes, of which 32 bits are kept.
    pub open spec fn uvarint(self) -> Parsed<nat> {
        let p = uvarint_at(self, 5);
        match p.value {
            Ok(v) => done(v % 0x1_0000_0000, p.rest),
            Err(m) => fail(m, p.rest),
        }
    }

    /// A signed varint of at most five bytes, of which 32 bits are kept.
    pub open spec fn varint(self) -> Parsed<int> {
        let p = varint_at(self, 5);
        match p.value {
            Ok(v) => done(unzigzag(v % 0x1_0000_0000), p.rest),
            Err(m) => fail(m, p.rest),
        }
    }

    /// Compact bytes that may be null.
    pub open spec fn compact_blob(self) -> Parsed<Option<Seq<u8>>> {
        let p = self.uvarint();
        match p.value {
            Err(m) => fail(m, p.rest),
            Ok(n) => if n == 0 {
                done(None, p.rest)
            } else if p.rest.left() < n - 1 {
                fail("truncated compact bytes body"@, p.rest)
            } else {
                done(Some(p.rest.take(n - 1)), p.rest.skip(n - 1))
            },
        }
    }

    /// A compact string that is not null.
    pub open spec fn compact(self) -> Parsed<Seq<char>> {
        let p = self.uvarint();
        match p.value {
            Err(m) => fail(m, p.rest),
            Ok(n) => if n == 0 {
                fail("unexpected null compact string"@, p.rest)
            } else if p.rest.left() < n - 1 {
                fail("truncated compact string body"@, p.rest)
            } else {
                p.rest.utf8(n - 1, "compact string utf8: "@)
            },
        }
    }

    /// A compact string that may be null.
    pub open spec fn compact_nullable(self) -> Parsed<Option<Seq<char>>> {
        let p = self.uvarint();
        match p.value {
            Err(m) => fail(m, p.rest),
            Ok(n) => if n == 0 {
                done(None, p.rest)
            } else if p.rest.left() < n - 1 {
                fail("truncated compact nullable string"@, p.rest)
            } else {
                some(p.rest.utf8(n - 1, "compact string utf8: "@))
            },
        }
    }

    /// The length of a compact array; a null array has none.
    pub open spec fn compact_len(self) -> Parsed<Option<usize>> {
        let p = self.uvarint();
        match p.value {
            Err(m) => fail(m, p.rest),
            Ok(n) => done(
                if n == 0 {
                    None
                } else {
                    Some((n - 1) as usize)
                },
                p.rest,
            ),
        }
    }

    /// A tag buffer, which is passed over.
    pub open spec fn tags(self) -> Parsed<()> {
        let p = self.uvarint();
        match p.value {
            Err(m) => fail(m, p.rest),
            Ok(n) => tags_at(p.rest, n),
        }
    }
}

/// The same outcome, with the value wrapped.
pub open spec fn some<T>(p: Parsed<T>) -> Parsed<Option<T>> {
    match p.value {
        Ok(v) => done(Some(v), p.rest),
        Err(m) => fail(m, p.rest),
    }
}

/// The outcome of reading a value: the value, or the text of the protocol error,
/// and the bytes that are left either way.
#[verifier::ext_equal]
pub struct Parsed<T> {
    pub value: core::result::Result<T, Seq<char>>,
    pub rest: Src,
}

/// A value was read and `rest` is left.
pub open spec fn done<T>(v: T, rest: Src) -> Parsed<T> {
    Parsed { value: Ok(v), rest }
}

/// Reading failed with the text `msg`, with `rest` left.
pub open spec fn fail<T>(msg: Seq<char>, rest: Src) -> Parsed<T> {
    Parsed { value: Err(msg), rest }
}

/// What one round of a loop over array elements does: the element that it
/// yields, if any, whether the loop goes on, and the bytes that are left.
#[verifier::ext_equal]
pub struct Step<T> {
    pub item: Option<T>,
    pub more: bool,
    pub rest: Src,
}

/// The element was read in full.
pub open spec fn keep<T>(v: T, rest: Src) -> Step<T> {
    Step { item: Some(v), more: true, rest }
}

/// The array ends early: nothing more is read.
pub open spec fn stop<T>(rest: Src) -> Step<T> {
    Step { item: None, more: false, rest }
}

/// Nothing is yielded, and the loop goes on.
pub open spec fn pass<T>(rest: Src) -> Step<T> {
    Step { item: None, more: true, rest }
}

/// The elements that a loop of at most `n` rounds yields, and the bytes left
/// after it. A round that does not ask for more ends the loop.
pub open spec fn rounds<T>(b: Src, n: nat, f: spec_fn(Src) -> Step<T>) -> (
    Seq<T>,
    Src,
)
    decreases n,
{
    if n == 0 {
        (Seq::empty(), b)
    } else {
        let s = f(b);
        let head = match s.item {
            Some(v) => seq![v],
            None => Seq::empty(),
        };
        if s.more {
            let tail = rounds(s.rest, (n - 1) as nat, f);
            (head + tail.0, tail.1)
        } else {
            (head, s.rest)
        }
    }
}

/// `rounds` with `seen` in front of what it yields.
pub open spec fn after<T>(seen: Seq<T>, more: (Seq<T>, Src)) -> (Seq<T>, Src) {
    (seen + more.0, more.1)
}

/// One round yields an element and goes on.
pub proof fn lemma_round_keep<T>(
    seen: Seq<T>,
    b: Src,
    n: nat,
    f: spec_fn(Src) -> Step<T>,
    v: T,
    rest: Src,
)
    requires
        n > 0,
        f(b) == keep(v, rest),
    ensures
        after(seen, rounds(b, n, f)) == after(seen.push(v), rounds(rest, (n - 1) as nat, f)),
{
    let tail = rounds(rest, (n - 1) as nat, f);
    assert(seen + (seq![v] + tail.0) =~= seen.push(v) + tail.0);
}

/// One round yields nothing and ends the loop.
pub proof fn lemma_round_stop<T>(
    seen: Seq<T>,
    b: Src,
    n: nat,
    f: spec_fn(Src) -> Step<T>,
    rest: Src,
)
    requires
        n > 0,
        f(b) == stop::<T>(rest),
    ensures
        after(seen, rounds(b, n, f)) == (seen, rest),
{
    assert(seen + Seq::<T>::empty() =~= seen);
}

/// One round yields nothing and goes on.
pub proof fn lemma_round_pass<T>(
    seen: Seq<T>,
    b: Src,
    n: nat,
    f: spec_fn(Src) -> Step<T>,
    rest: Src,
)
    requires
        n > 0,
        f(b) == pass::<T>(rest),
    ensures
        after(seen, rounds(b, n, f)) == after(seen, rounds(rest, (n - 1) as nat, f)),
{
    let tail = rounds(rest, (n - 1) as nat, f);
    assert(Seq::<T>::empty() + tail.0 =~= tail.0);
}

/// One round yields an element and ends the loop.
pub proof fn lemma_round_last<T>(
    seen: Seq<T>,
    b: Src,
    n: nat,
    f: spec_fn(Src) -> Step<T>,
    v: T,
    rest: Src,
)
    requires
        n > 0,
        f(b) == (Step { item: Some(v), more: false, rest }),
    ensures
        after(seen, rounds(b, n, f)) == (seen.push(v), rest),
{
    assert(seen + seq![v] =~= seen.push(v));
}

/// No round is left.
pub proof fn lemma_rounds_none<T>(seen: Seq<T>, b: Src, f: spec_fn(Src) -> Step<T>)
    ensures
        after(seen, rounds(b, 0, f)) == (seen, b),
{
    assert(seen + Seq::<T>::empty() =~= seen);
}

/// The loop has yielded nothing yet.
pub proof fn lemma_rounds_start<T>(b: Src, n: nat, f: spec_fn(Src) -> Step<T>)
    ensures
        after(Seq::empty(), rounds(b, n, f)) == rounds(b, n, f),
{
    assert(Seq::empty() + rounds(b, n, f).0 =~= rounds(b, n, f).0);
}

/// `n` elements read in a row, where the first failure is the failure of the whole.
pub open spec fn all_of<T>(b: Src, n: nat, f: spec_fn(Src) -> Parsed<T>) -> Parsed<Seq<T>>
    decreases n,
{
    if n == 0 {
        done(Seq::empty(), b)
    } else {
        let p = f(b);
        match p.value {
            Err(m) => fail(m, p.rest),
            Ok(v) => {
                let q = all_of(p.rest, (n - 1) as nat, f);
                match q.value {
                    Err(m) => fail(m, q.rest),
                    Ok(vs) => done(seq![v] + vs, q.rest),
                }
            },
        }
    }
}

/// `all_of` with `seen` in front of what it yields.
pub open spec fn all_after<T>(seen: Seq<T>, p: Parsed<Seq<T>>) -> Parsed<Seq<T>> {
    match p.value {
        Err(m) => fail(m, p.rest),
        Ok(vs) => done(seen + vs, p.rest),
    }
}

/// The next element is read.
pub proof fn lemma_all_step<T>(
    seen: Seq<T>,
    b: Src,
    n: nat,
    f: spec_fn(Src) -> Parsed<T>,
    v: T,
)
    requires
        n > 0,
        f(b).value == Ok::<T, Seq<char>>(v),
    ensures
        all_after(seen, all_of(b, n, f)) == all_after(
            seen.push(v),
            all_of(f(b).rest, (n - 1) as nat, f),
        ),
{
    let q = all_of(f(b).rest, (n - 1) as nat, f);
    if let Ok(vs) = q.value {
        assert(seen + (seq![v] + vs) =~= seen.push(v) + vs);
    }
}

/// Nothing has been read yet.
pub proof fn lemma_all_start<T>(b: Src, n: nat, f: spec_fn(Src) -> Parsed<T>)
    ensures
        all_after(Seq::empty(), all_of(b, n, f)) == all_of(b, n, f),
{
    if let Ok(vs) = all_of(b, n, f).value {
        assert(Seq::empty() + vs =~= vs);
    }
}

/// Everything has been read.
pub proof fn lemma_all_done<T>(seen: Seq<T>, b: Src, f: spec_fn(Src) -> Parsed<T>)
    ensures
        all_after(seen, all_of(b, 0, f)) == done(seen, b),
{
    assert(seen + Seq::<T>::empty() =~= seen);
}

/// `be(n, v)` is `n` bytes long.
pub proof fn lemma_be_len(n: nat, v: int)
    ensures
        be(n, v).len() == n,
    decreases n,
{
    if n > 0 {
        lemma_be_len((n - 1) as nat, v / 256);
    }
}

/// One byte depends on the low-order eight bits only.
proof fn lemma_be_mod8(v: int)
    ensures
        be(1, v % 256) == be(1, v),
{
    reveal_with_fuel(be, 2);
}

/// Two bytes depend on the low-order sixteen bits only.
pub proof fn lemma_be_mod16(v: int)
    ensures
        be16(v % 65536) == be16(v),
{
    lemma_be_mod8(v / 256);
    assert((v % 65536) / 256 == (v / 256) % 256);
    assert((v % 65536) % 256 == v % 256);
}

/// Three bytes depend on the low-order 24 bits only.
proof fn lemma_be_mod24(v: int)
    ensures
        be(3, v % 0x100_0000) == be(3, v),
{
    let q = v / 0x100_0000;
    let d = (v % 0x100_0000) / 256;
    lemma_be_mod16(v / 256);
    assert(v / 256 == 65536 * q + d);
    assert((v / 256) % 65536 == d);
    assert((v % 0x100_0000) % 256 == v % 256);
}

/// Four bytes depend on the low-order 32 bits only.
pub proof fn lemma_be_mod32(v: int)
    ensures
        be32(v % 0x1_0000_0000) == be32(v),
{
    lemma_be_mod24(v / 256);
    assert((v % 0x1_0000_0000) / 256 == (v / 256) % 0x100_0000);
    assert((v % 0x1_0000_0000) % 256 == v % 256);
}

/// Four bytes, each spelt out.
pub proof fn lemma_be4(v: int)
    requires
        0 <= v <= u32::MAX,
    ensures
        be32(v) == seq![
            (v / 0x100_0000) as u8,
            (v / 0x1_0000 % 256) as u8,
            (v / 0x100 % 256) as u8,
            (v % 256) as u8,
        ],
{
    assert(be(0, v / 0x1_0000_0000) =~= Seq::<u8>::empty());
    assert(v / 256 / 256 == v / 0x1_0000);
    assert(v / 0x1_0000 / 256 == v / 0x100_0000);
    assert(v / 0x100_0000 % 256 == v / 0x100_0000);
    assert(be(1, v / 0x100_0000) =~= seq![(v / 0x100_0000) as u8]);
    assert(be(2, v / 0x1_0000) =~= seq![
        (v / 0x100_0000) as u8,
        (v / 0x1_0000 % 256) as u8,
    ]);
    assert(be(3, v / 0x100) =~= seq![
        (v / 0x100_0000) as u8,
        (v / 0x1_0000 % 256) as u8,
        (v / 0x100 % 256) as u8,
    ]);
    assert(be32(v) =~= seq![
        (v / 0x100_0000) as u8,
        (v / 0x1_0000 % 256) as u8,
        (v / 0x100 % 256) as u8,
        (v % 256) as u8,
    ]);
}

/// The unsigned number that four bytes write.
pub proof fn lemma_be_uint4(s: Seq<u8>)
    requires
        s.len() == 4,
    ensures
        be_uint(s) == ((s[0] * 256 + s[1]) * 256 + s[2]) * 256 + s[3],
{
    reveal_with_fuel(be_uint, 5);
}

/// The signed number that four bytes write.
pub proof fn lemma_be_int4(s: Seq<u8>)
    requires
        s.len() == 4,
    ensures
        be_int(s) == ((s[0] * 256 + s[1]) * 256 + s[2]) * 256 + s[3] - (if s[0] < 128 {
            0int
        } else {
            0x1_0000_0000
        }),
{
    reveal_with_fuel(be_int, 5);
}

/// A byte is written as itself.
pub proof fn lemma_be_byte(v: int)
    ensures
        0 <= v < 256 ==> be8(v) == seq![v as u8],
{
    reveal_with_fuel(be, 2);
    assert(be8(v) =~= seq![(v % 256) as u8]);
}

/// Concatenation is associative.
pub proof fn lemma_cat_assoc(a: Seq<u8>, b: Seq<u8>, c: Seq<u8>)
    ensures
        (a + b) + c == a + (b + c),
{
    assert((a + b) + c =~= a + (b + c));
}

/// Whether `v` fits a signed number of `n` bytes.
pub open spec fn fits_int(n: nat, v: int) -> bool
    decreases n,
{
    if n <= 1 {
        -128 <= v < 128
    } else {
        fits_int((n - 1) as nat, v / 256)
    }
}

/// Whether `v` fits an unsigned number of `n` bytes.
pub open spec fn fits_uint(n: nat, v: int) -> bool
    decreases n,
{
    if n == 0 {
        v == 0
    } else {
        fits_uint((n - 1) as nat, v / 256)
    }
}

/// A signed number that fits `n` bytes is read back from the bytes written for it.
pub proof fn lemma_be_int(n: nat, v: int)
    requires
        n >= 1,
        fits_int(n, v),
    ensures
        be_int(be(n, v)) == v,
    decreases n,
{
    lemma_be_len(n, v);
    let s = be(n, v);
    if n == 1 {
        assert(be(0, v / 256) =~= Seq::<u8>::empty());
        assert(s =~= seq![(v % 256) as u8]);
    } else {
        lemma_be_int((n - 1) as nat, v / 256);
        assert(s.drop_last() =~= be((n - 1) as nat, v / 256));
    }
}

/// An unsigned number that fits `n` bytes is read back from the bytes written for it.
pub proof fn lemma_be_uint(n: nat, v: int)
    requires
        fits_uint(n, v),
    ensures
        be_uint(be(n, v)) == v,
    decreases n,
{
    lemma_be_len(n, v);
    if n > 0 {
        lemma_be_uint((n - 1) as nat, v / 256);
        assert(be(n, v).drop_last() =~= be((n - 1) as nat, v / 256));
    }
}

/// The ranges of the machine integers, as `fits_int` and `fits_uint` put them.
pub proof fn lemma_fits(v: int)
    ensures
        i8::MIN <= v <= i8::MAX ==> fits_int(1, v),
        i16::MIN <= v <= i16::MAX ==> fits_int(2, v),
        i32::MIN <= v <= i32::MAX ==> fits_int(4, v),
        i64::MIN <= v <= i64::MAX ==> fits_int(8, v),
        0 <= v <= u32::MAX ==> fits_uint(4, v),
{
    reveal_with_fuel(fits_int, 9);
    reveal_with_fuel(fits_uint, 9);
}

/// What is written at the front is read back there, and the rest is left.
pub proof fn lemma_split_cat(a: Seq<u8>, b: Seq<u8>)
    ensures
        (a + b).take(a.len() as int) == a,
        (a + b).skip(a.len() as int) == b,
{
    assert((a + b).take(a.len() as int) =~= a);
    assert((a + b).skip(a.len() as int) =~= b);
}

} // verus!
