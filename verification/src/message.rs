//! Arrays in requests and responses: what one element is, and the loops over them.
//!
//! A request array is read leniently: where an element cannot be read the array ends
//! there, with what was read so far.

use bytes::{Bytes, BytesMut};
use vstd::prelude::*;

use crate::buffer::{get_i32, get_i64, get_u8, put_i32, remaining, Contents};
use crate::codec;
use crate::codec::{
    get_compact_array_len, put_array_len, put_end, put_text, read_string, skip_tag_buffer,
};
use crate::error::{protocol, Result};
use crate::topic_id;
use crate::topic_id::{write_wire_id, TopicWireId};
use crate::wire;
use crate::wire::{Out, Parsed, Src, Step};

verus! {

/// What reading one element of an array came to.
#[derive(Debug)]
pub enum Read<T> {
    /// An element; the array goes on.
    Item(T),
    /// An element, after which the array ends.
    Last(T),
    /// No element; the array goes on.
    Pass,
    /// The array ends.
    End,
}

/// The step that `r` stands for, with `rest` left.
pub open spec fn step_of<T: DeepView>(r: Read<T>, rest: Src) -> Step<T::V> {
    match r {
        Read::Item(v) => wire::keep(v.deep_view(), rest),
        Read::Last(v) => Step { item: Some(v.deep_view()), more: false, rest },
        Read::Pass => wire::pass(rest),
        Read::End => wire::stop(rest),
    }
}

/// An element of a request array.
pub trait Element: DeepView + Sized {
    /// What is found where an element is read.
    spec fn at(b: Src, version: i16, flexible: bool) -> Step<Self::V>;

    /// Reads an element.
    fn read(src: &mut Bytes, version: i16, flexible: bool) -> (r: Read<Self>)
        ensures
            step_of(r, final(src)@) == Self::at(old(src)@, version, flexible),
    ;
}

/// How the elements of an array are read.
pub open spec fn element<E: Element>(version: i16, flexible: bool) -> spec_fn(Src) -> Step<E::V> {
    |b: Src| E::at(b, version, flexible)
}

/// Up to `n` elements and what is left after them.
pub open spec fn list_at<E: Element>(b: Src, n: nat, version: i16, flexible: bool) -> (
    Seq<E::V>,
    Src,
) {
    wire::rounds(b, n, element::<E>(version, flexible))
}

/// Reads up to `n` elements.
pub fn read_list<E: Element>(src: &mut Bytes, n: usize, version: i16, flexible: bool) -> (v: Vec<E>)
    ensures
        (v.deep_view(), final(src)@) == list_at::<E>(old(src)@, n as nat, version, flexible),
{
    let ghost f = element::<E>(version, flexible);
    let mut v: Vec<E> = Vec::new();
    let mut i: usize = 0;
    let ghost whole = wire::rounds(src@, n as nat, f);
    proof {
        wire::lemma_rounds_start(src@, n as nat, f);
        assert(v.deep_view() =~= Seq::empty());
    }
    while i < n
        invariant
            i <= n,
            f == element::<E>(version, flexible),
            whole == list_at::<E>(old(src)@, n as nat, version, flexible),
            whole == wire::after(v.deep_view(), wire::rounds(src@, (n - i) as nat, f)),
        decreases n - i,
    {
        let ghost here = src@;
        let ghost seen = v.deep_view();
        match E::read(src, version, flexible) {
            Read::Item(e) => {
                proof {
                    wire::lemma_round_keep(seen, here, (n - i) as nat, f, e.deep_view(), src@);
                }
                v.push(e);
                assert(v.deep_view() =~= seen.push(e.deep_view()));
            },
            Read::Last(e) => {
                proof {
                    wire::lemma_round_last(seen, here, (n - i) as nat, f, e.deep_view(), src@);
                }
                v.push(e);
                assert(v.deep_view() =~= seen.push(e.deep_view()));
                return v;
            },
            Read::Pass => {
                proof {
                    wire::lemma_round_pass(seen, here, (n - i) as nat, f, src@);
                }
            },
            Read::End => {
                proof {
                    wire::lemma_round_stop(seen, here, (n - i) as nat, f, src@);
                }
                return v;
            },
        }
        i += 1;
    }
    proof {
        wire::lemma_rounds_none(v.deep_view(), src@, f);
    }
    v
}

/// The number of elements of an array, compact in the flexible versions. A null
/// compact array has none; a negative number counts as zero.
pub open spec fn count_at(b: Src, flexible: bool) -> Parsed<Option<usize>> {
    if flexible {
        b.compact_len()
    } else if b.left() < 4 {
        wire::fail("truncated"@, b)
    } else {
        wire::done(
            Some(
                if b.i32() < 0 {
                    0usize
                } else {
                    b.i32() as usize
                },
            ),
            b.skip(4),
        )
    }
}

/// Reads the number of elements of an array.
pub(crate) fn read_count(src: &mut Bytes, flexible: bool) -> (r: Result<Option<usize>>)
    ensures
        crate::error::agrees(r, count_at(old(src)@, flexible).value),
        final(src)@ == count_at(old(src)@, flexible).rest,
{
    if flexible {
        return get_compact_array_len(src);
    }
    if remaining(src) < 4 {
        return Err(protocol("truncated"));
    }
    let n: i32 = get_i32(src);
    if n < 0 {
        Ok(Some(0))
    } else {
        Ok(Some(n as usize))
    }
}

/// An array that counts as empty where it is null or cannot be counted.
pub open spec fn loose_list_at<E: Element>(b: Src, version: i16, flexible: bool) -> (
    Seq<E::V>,
    Src,
) {
    let c = count_at(b, flexible);
    match c.value {
        Ok(n) => list_at::<E>(c.rest, or_zero(n), version, flexible),
        Err(_) => (Seq::empty(), c.rest),
    }
}

/// Reads an array that counts as empty where it is null or cannot be counted.
pub fn read_loose_list<E: Element>(src: &mut Bytes, version: i16, flexible: bool) -> (v: Vec<E>)
    ensures
        (v.deep_view(), final(src)@) == loose_list_at::<E>(old(src)@, version, flexible),
{
    match read_count(src, flexible) {
        Ok(n) => {
            let n: usize = match n {
                Some(k) => k,
                None => 0,
            };
            read_list::<E>(src, n, version, flexible)
        },
        Err(_) => {
            let v: Vec<E> = Vec::new();
            assert(v.deep_view() =~= Seq::empty());
            v
        },
    }
}

/// A flag that is not set where nothing is left.
pub open spec fn flag_at(b: Src) -> bool {
    b.left() >= 1 && b.u8() != 0
}

/// Reads a flag that is not set where nothing is left.
pub(crate) fn read_flag(src: &mut Bytes) -> (f: bool)
    ensures
        f == flag_at(old(src)@),
        final(src)@ == (if old(src)@.left() >= 1 {
            old(src)@.skip(1)
        } else {
            old(src)@
        }),
{
    if remaining(src) >= 1 {
        get_u8(src) != 0
    } else {
        false
    }
}

/// The number of elements, where a null array has zero.
pub open spec fn or_zero(n: Option<usize>) -> nat {
    match n {
        Some(k) => k as nat,
        None => 0,
    }
}

/// What is left after a tag buffer, where the version has one.
pub open spec fn after_tags(b: Src, flexible: bool) -> Src {
    if flexible {
        b.tags().rest
    } else {
        b
    }
}

/// Passes over a tag buffer, where the version has one.
pub(crate) fn drop_tags(src: &mut Bytes, flexible: bool)
    ensures
        final(src)@ == after_tags(old(src)@, flexible),
{
    if flexible {
        let _ = skip_tag_buffer(src);
    }
}

impl Element for i32 {
    open spec fn at(b: Src, version: i16, flexible: bool) -> Step<i32> {
        if b.left() < 4 {
            wire::stop(b)
        } else {
            wire::keep(b.i32() as i32, b.skip(4))
        }
    }

    fn read(src: &mut Bytes, version: i16, flexible: bool) -> (r: Read<i32>) {
        if remaining(src) < 4 {
            return Read::End;
        }
        Read::Item(get_i32(src))
    }
}

impl Element for i64 {
    open spec fn at(b: Src, version: i16, flexible: bool) -> Step<i64> {
        if b.left() < 8 {
            wire::stop(b)
        } else {
            wire::keep(b.i64() as i64, b.skip(8))
        }
    }

    fn read(src: &mut Bytes, version: i16, flexible: bool) -> (r: Read<i64>) {
        if remaining(src) < 8 {
            return Read::End;
        }
        Read::Item(get_i64(src))
    }
}

/// A string in an array that goes on behind one that cannot be read.
#[derive(Debug)]
pub struct LooseString {
    pub text: String,
}

impl DeepView for LooseString {
    type V = Seq<char>;

    open spec fn deep_view(&self) -> Seq<char> {
        self.text@
    }
}

impl Element for LooseString {
    open spec fn at(b: Src, version: i16, flexible: bool) -> Step<Seq<char>> {
        let p = codec::text_at(b, flexible);
        match p.value {
            Ok(s) => wire::keep(s, p.rest),
            Err(_) => wire::pass(p.rest),
        }
    }

    fn read(src: &mut Bytes, version: i16, flexible: bool) -> (r: Read<LooseString>) {
        match read_string(src, flexible) {
            Ok(s) => Read::Item(LooseString { text: s }),
            Err(_) => Read::Pass,
        }
    }
}

impl Element for String {
    open spec fn at(b: Src, version: i16, flexible: bool) -> Step<Seq<char>> {
        let p = codec::text_at(b, flexible);
        match p.value {
            Ok(s) => wire::keep(s, p.rest),
            Err(_) => wire::stop(p.rest),
        }
    }

    fn read(src: &mut Bytes, version: i16, flexible: bool) -> (r: Read<String>) {
        match read_string(src, flexible) {
            Ok(s) => Read::Item(s),
            Err(_) => Read::End,
        }
    }
}

/// A topic of a request, with the partitions that are asked about.
#[derive(Debug)]
pub struct TopicIn<P> {
    pub name: String,
    pub parts: Vec<P>,
}

/// What a [`TopicIn`] says.
#[verifier::ext_equal]
pub struct TopicInView<P> {
    pub name: Seq<char>,
    pub parts: Seq<P>,
}

impl<P: DeepView> DeepView for TopicIn<P> {
    type V = TopicInView<P::V>;

    open spec fn deep_view(&self) -> TopicInView<P::V> {
        TopicInView { name: self.name@, parts: self.parts.deep_view() }
    }
}

/// A topic with its partitions. Where a classic request ends after the name, the
/// topic has no partitions and is the last one.
impl<P: Element> Element for TopicIn<P> {
    open spec fn at(b: Src, version: i16, flexible: bool) -> Step<TopicInView<P::V>> {
        let p = codec::text_at(b, flexible);
        match p.value {
            Err(_) => wire::stop(p.rest),
            Ok(name) => {
                let c = count_at(p.rest, flexible);
                match c.value {
                    Err(_) => if flexible {
                        wire::stop(c.rest)
                    } else {
                        Step {
                            item: Some(TopicInView { name, parts: Seq::empty() }),
                            more: false,
                            rest: c.rest,
                        }
                    },
                    Ok(n) => {
                        let l = list_at::<P>(c.rest, or_zero(n), version, flexible);
                        wire::keep(
                            TopicInView { name, parts: l.0 },
                            after_tags(l.1, flexible),
                        )
                    },
                }
            },
        }
    }

    fn read(src: &mut Bytes, version: i16, flexible: bool) -> (r: Read<TopicIn<P>>) {
        let name = match read_string(src, flexible) {
            Err(_) => return Read::End,
            Ok(s) => s,
        };
        match read_count(src, flexible) {
            Err(_) => {
                if flexible {
                    return Read::End;
                }
                let parts: Vec<P> = Vec::new();
                assert(parts.deep_view() =~= Seq::empty());
                Read::Last(TopicIn { name, parts })
            },
            Ok(n) => {
                let n: usize = match n {
                    Some(k) => k,
                    None => 0,
                };
                let parts = read_list::<P>(src, n, version, flexible);
                drop_tags(src, flexible);
                Read::Item(TopicIn { name, parts })
            },
        }
    }
}

/// A topic of a request, with the partitions that are asked about, where a request that
/// ends after the name ends before the topic.
#[derive(Debug)]
pub struct WholeTopic<P> {
    pub name: String,
    pub parts: Vec<P>,
}

impl<P: DeepView> DeepView for WholeTopic<P> {
    type V = TopicInView<P::V>;

    open spec fn deep_view(&self) -> TopicInView<P::V> {
        TopicInView { name: self.name@, parts: self.parts.deep_view() }
    }
}

impl<P: Element> Element for WholeTopic<P> {
    open spec fn at(b: Src, version: i16, flexible: bool) -> Step<TopicInView<P::V>> {
        let p = codec::text_at(b, flexible);
        match p.value {
            Err(_) => wire::stop(p.rest),
            Ok(name) => {
                let c = count_at(p.rest, flexible);
                match c.value {
                    Err(_) => wire::stop(c.rest),
                    Ok(n) => {
                        let l = list_at::<P>(c.rest, or_zero(n), version, flexible);
                        wire::keep(
                            TopicInView { name, parts: l.0 },
                            after_tags(l.1, flexible),
                        )
                    },
                }
            },
        }
    }

    fn read(src: &mut Bytes, version: i16, flexible: bool) -> (r: Read<WholeTopic<P>>) {
        let name = match read_string(src, flexible) {
            Err(_) => return Read::End,
            Ok(s) => s,
        };
        match read_count(src, flexible) {
            Err(_) => Read::End,
            Ok(n) => {
                let n: usize = match n {
                    Some(k) => k,
                    None => 0,
                };
                let parts = read_list::<P>(src, n, version, flexible);
                drop_tags(src, flexible);
                Read::Item(WholeTopic { name, parts })
            },
        }
    }
}

/// A topic of a request, whose partitions are none where they cannot be counted.
#[derive(Debug)]
pub struct LooseTopic<P> {
    pub name: String,
    pub parts: Vec<P>,
}

impl<P: DeepView> DeepView for LooseTopic<P> {
    type V = TopicInView<P::V>;

    open spec fn deep_view(&self) -> TopicInView<P::V> {
        TopicInView { name: self.name@, parts: self.parts.deep_view() }
    }
}

impl<P: Element> Element for LooseTopic<P> {
    open spec fn at(b: Src, version: i16, flexible: bool) -> Step<TopicInView<P::V>> {
        let p = codec::text_at(b, flexible);
        match p.value {
            Err(_) => wire::stop(p.rest),
            Ok(name) => {
                let l = loose_list_at::<P>(p.rest, version, flexible);
                wire::keep(TopicInView { name, parts: l.0 }, after_tags(l.1, flexible))
            },
        }
    }

    fn read(src: &mut Bytes, version: i16, flexible: bool) -> (r: Read<LooseTopic<P>>) {
        match read_string(src, flexible) {
            Err(_) => Read::End,
            Ok(name) => {
                let parts = read_loose_list::<P>(src, version, flexible);
                drop_tags(src, flexible);
                Read::Item(LooseTopic { name, parts })
            },
        }
    }
}

/// An element of a response array.
pub trait Row {
    /// The element behind `o`.
    spec fn row(&self, o: Out, version: i16, flexible: bool) -> Out;

    /// Writes the element.
    fn put(&self, out: &mut BytesMut, version: i16, flexible: bool)
        ensures
            final(out)@ == self.row(old(out)@, version, flexible),
    ;
}

/// The elements `rows` behind `o`.
pub open spec fn each_row<R: Row>(o: Out, rows: Seq<R>, version: i16, flexible: bool) -> Out {
    o.each(rows, |o: Out, r: R| r.row(o, version, flexible))
}

/// The array `rows` behind `o`: their number, then they.
pub open spec fn rows_out<R: Row>(o: Out, rows: Seq<R>, version: i16, flexible: bool) -> Out {
    each_row(o.array_len(flexible, rows.len()), rows, version, flexible)
}

/// Writes the elements one after the other.
pub fn put_each<R: Row>(out: &mut BytesMut, rows: &[R], version: i16, flexible: bool)
    ensures
        final(out)@ == each_row(old(out)@, rows@, version, flexible),
{
    let ghost f = |o: Out, r: R| r.row(o, version, flexible);
    let ghost start = out@;
    let mut i: usize = 0;
    proof {
        wire::lemma_each_all(start, rows@, f);
    }
    while i < rows.len()
        invariant
            i <= rows@.len(),
            f == |o: Out, r: R| r.row(o, version, flexible),
            out@ == start.each(rows@.take(i as int), f),
        decreases rows@.len() - i,
    {
        rows[i].put(out, version, flexible);
        proof {
            wire::lemma_each_step(start, rows@, i as int, f);
        }
        i += 1;
    }
    proof {
        wire::lemma_each_all(start, rows@, f);
    }
}

/// Writes an array.
pub fn put_rows<R: Row>(out: &mut BytesMut, rows: &[R], version: i16, flexible: bool)
    ensures
        final(out)@ == rows_out(old(out)@, rows@, version, flexible),
{
    put_array_len(out, flexible, rows.len());
    put_each(out, rows, version, flexible);
}

impl Row for i32 {
    open spec fn row(&self, o: Out, version: i16, flexible: bool) -> Out {
        o.i32(*self as int)
    }

    fn put(&self, out: &mut BytesMut, version: i16, flexible: bool) {
        put_i32(out, *self);
    }
}

impl Row for String {
    open spec fn row(&self, o: Out, version: i16, flexible: bool) -> Out {
        o.text(flexible, self@)
    }

    fn put(&self, out: &mut BytesMut, version: i16, flexible: bool) {
        put_text(out, flexible, self.as_str());
    }
}

/// A topic of a response, under its name, with a row for each partition.
#[derive(Debug)]
pub struct TopicOut<R> {
    pub name: String,
    pub rows: Vec<R>,
}

impl<R: Row> Row for TopicOut<R> {
    open spec fn row(&self, o: Out, version: i16, flexible: bool) -> Out {
        rows_out(o.text(flexible, self.name@), self.rows@, version, flexible).end(flexible)
    }

    fn put(&self, out: &mut BytesMut, version: i16, flexible: bool) {
        put_text(out, flexible, self.name.as_str());
        put_rows(out, self.rows.as_slice(), version, flexible);
        put_end(out, flexible);
    }
}

/// A topic of a response, under the name or TopicId that the request gave, with a row
/// for each partition.
#[derive(Debug)]
pub struct WireTopicOut<R> {
    pub wire: TopicWireId,
    pub rows: Vec<R>,
}

impl<R: Row> Row for WireTopicOut<R> {
    open spec fn row(&self, o: Out, version: i16, flexible: bool) -> Out {
        rows_out(
            topic_id::wire_id_out(o, flexible, self.wire.deep_view()),
            self.rows@,
            version,
            flexible,
        ).end(flexible)
    }

    fn put(&self, out: &mut BytesMut, version: i16, flexible: bool) {
        write_wire_id(out, flexible, &self.wire);
        put_rows(out, self.rows.as_slice(), version, flexible);
        put_end(out, flexible);
    }
}

} // verus!
