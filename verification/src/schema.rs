//! Layouts of the protocol: the kinds of the fields of a message in their order, and what a
//! peer finds that reads a message by its layout.

use vstd::prelude::*;
use vstd::utf8::*;

use crate::message;
use crate::message::Row;
use crate::roundtrip;
use crate::wire;
use crate::wire::{Out, Src};

verus! {

/// The kind of a field. The flag of the kinds that have one: the field has the compact form
/// of the flexible versions.
pub enum Kind {
    Int8,
    Int16,
    Int32,
    Int64,
    /// A number of 64 bits without a sign.
    Nat64,
    /// A string that is not null.
    Text(bool),
    /// A string that may be null.
    OptText(bool),
    /// Bytes that may be null.
    Blob(bool),
    /// Sixteen bytes as they are.
    Uuid,
    /// A tag buffer.
    Tags,
    /// An array, whose elements have these fields.
    List(bool, Seq<Kind>),
}

/// What a field holds.
#[verifier::ext_equal]
pub enum Value {
    Int(int),
    Text(Seq<char>),
    OptText(Option<Seq<char>>),
    Blob(Option<Seq<u8>>),
    Uuid(Seq<u8>),
    /// Each tag with its bytes.
    Tags(Seq<(nat, Seq<u8>)>),
    List(Seq<Seq<Value>>),
    /// No array.
    Null,
}

/// `n` tags with their bytes.
pub open spec fn tags_found(b: Src, n: nat) -> Option<(Seq<(nat, Seq<u8>)>, Src)>
    decreases n,
{
    if n == 0 {
        Some((Seq::empty(), b))
    } else {
        match tags_found(b, (n - 1) as nat) {
            None => None,
            Some((ts, r)) => {
                let tag = r.uvarint();
                let len = tag.rest.uvarint();
                match (tag.value, len.value) {
                    (Ok(t), Ok(k)) => if len.rest.left() < k {
                        None
                    } else {
                        Some((ts.push((t, len.rest.take(k as int))), len.rest.skip(k as int)))
                    },
                    _ => None,
                }
            },
        }
    }
}

/// What is found where a field is read, and what is left.
pub open spec fn field_found(k: Kind, b: Src) -> Option<(Value, Src)>
    decreases k, 2nat, 0nat,
{
    match k {
        Kind::Int8 => if b.left() < 1 {
            None
        } else {
            Some((Value::Int(b.i8()), b.skip(1)))
        },
        Kind::Int16 => if b.left() < 2 {
            None
        } else {
            Some((Value::Int(b.i16()), b.skip(2)))
        },
        Kind::Int32 => if b.left() < 4 {
            None
        } else {
            Some((Value::Int(b.i32()), b.skip(4)))
        },
        Kind::Int64 => if b.left() < 8 {
            None
        } else {
            Some((Value::Int(b.i64()), b.skip(8)))
        },
        Kind::Nat64 => if b.left() < 8 {
            None
        } else {
            Some((Value::Int(wire::be_uint(b.take(8))), b.skip(8)))
        },
        Kind::Text(flexible) => {
            let p = if flexible {
                b.compact()
            } else {
                b.string()
            };
            match p.value {
                Ok(s) => Some((Value::Text(s), p.rest)),
                Err(_) => None,
            }
        },
        Kind::OptText(flexible) => {
            let p = if flexible {
                b.compact_nullable()
            } else {
                b.nullable()
            };
            match p.value {
                Ok(s) => Some((Value::OptText(s), p.rest)),
                Err(_) => None,
            }
        },
        Kind::Blob(flexible) => {
            let p = if flexible {
                b.compact_blob()
            } else {
                b.blob()
            };
            match p.value {
                Ok(s) => Some((Value::Blob(s), p.rest)),
                Err(_) => None,
            }
        },
        Kind::Uuid => if b.left() < 16 {
            None
        } else {
            Some((Value::Uuid(b.take(16)), b.skip(16)))
        },
        Kind::Tags => {
            let p = b.uvarint();
            match p.value {
                Ok(n) => match tags_found(p.rest, n) {
                    Some((ts, r)) => Some((Value::Tags(ts), r)),
                    None => None,
                },
                Err(_) => None,
            }
        },
        Kind::List(flexible, fields) => {
            let p = b.uvarint();
            let (n, r) = if flexible {
                match p.value {
                    Ok(n) => (Some(n - 1), p.rest),
                    Err(_) => (None, p.rest),
                }
            } else if b.left() < 4 {
                (None, b)
            } else {
                (Some(b.i32()), b.skip(4))
            };
            match n {
                None => None,
                Some(n) => if n < 0 {
                    Some((Value::Null, r))
                } else {
                    match rows_found(fields, n as nat, r) {
                        Some((rows, r)) => Some((Value::List(rows), r)),
                        None => None,
                    }
                },
            }
        },
    }
}

/// What is found where `n` elements with these fields are read, and what is left.
pub open spec fn rows_found(fields: Seq<Kind>, n: nat, b: Src) -> Option<(Seq<Seq<Value>>, Src)>
    decreases fields, 1nat, n,
{
    if n == 0 {
        Some((Seq::empty(), b))
    } else {
        match rows_found(fields, (n - 1) as nat, b) {
            None => None,
            Some((rows, r)) => match found(fields, r) {
                None => None,
                Some((row, r)) => Some((rows.push(row), r)),
            },
        }
    }
}

/// What is found where these fields are read one after the other, and what is left.
pub open spec fn found(fields: Seq<Kind>, b: Src) -> Option<(Seq<Value>, Src)>
    decreases fields, 0nat, 0nat,
{
    if fields.len() == 0 {
        Some((Seq::empty(), b))
    } else {
        match found(fields.drop_last(), b) {
            None => None,
            Some((vs, r)) => match field_found(fields.last(), r) {
                None => None,
                Some((v, r)) => Some((vs.push(v), r)),
            },
        }
    }
}

/// The bytes of tags.
pub open spec fn tags_bytes(ts: Seq<(nat, Seq<u8>)>) -> Seq<u8>
    decreases ts.len(),
{
    if ts.len() == 0 {
        Seq::empty()
    } else {
        tags_bytes(ts.drop_last()) + (wire::uvarint(ts.last().0) + (wire::uvarint(
            ts.last().1.len(),
        ) + ts.last().1))
    }
}

/// The bytes of a field.
pub open spec fn field_bytes(k: Kind, v: Value) -> Seq<u8>
    decreases k, 2nat, 0nat,
{
    match (k, v) {
        (Kind::Int8, Value::Int(x)) => wire::be8(x),
        (Kind::Int16, Value::Int(x)) => wire::be16(x),
        (Kind::Int32, Value::Int(x)) => wire::be32(x),
        (Kind::Int64, Value::Int(x)) => wire::be64(x),
        (Kind::Nat64, Value::Int(x)) => wire::be64(x),
        (Kind::Text(flexible), Value::Text(s)) => Out::new().text(flexible, s).bytes,
        (Kind::OptText(flexible), Value::OptText(s)) => Out::new().opt_text(flexible, s).bytes,
        (Kind::Blob(flexible), Value::Blob(s)) => if flexible {
            Out::new().compact_blob(s).bytes
        } else {
            Out::new().blob(s).bytes
        },
        (Kind::Uuid, Value::Uuid(u)) => u,
        (Kind::Tags, Value::Tags(ts)) => wire::uvarint(ts.len()) + tags_bytes(ts),
        (Kind::List(flexible, fields), Value::List(rows)) => Out::new().array_len(
            flexible,
            rows.len(),
        ).bytes + rows_bytes(fields, rows),
        (Kind::List(flexible, _), Value::Null) => if flexible {
            wire::uvarint(0)
        } else {
            wire::be32(-1)
        },
        _ => Seq::empty(),
    }
}

/// The bytes of elements.
pub open spec fn rows_bytes(fields: Seq<Kind>, rows: Seq<Seq<Value>>) -> Seq<u8>
    decreases fields, 1nat, rows.len(),
{
    if rows.len() == 0 {
        Seq::empty()
    } else {
        rows_bytes(fields, rows.drop_last()) + bytes_of(fields, rows.last())
    }
}

/// The bytes of fields.
pub open spec fn bytes_of(fields: Seq<Kind>, vs: Seq<Value>) -> Seq<u8>
    decreases fields, 0nat, 0nat,
{
    if fields.len() == 0 {
        Seq::empty()
    } else {
        bytes_of(fields.drop_last(), vs.drop_last()) + field_bytes(fields.last(), vs.last())
    }
}

/// Whether each tag and its bytes fit their fields.
pub open spec fn tags_fit(ts: Seq<(nat, Seq<u8>)>) -> bool {
    &&& ts.len() <= u32::MAX
    &&& forall|i: int|
        0 <= i < ts.len() ==> (#[trigger] ts[i]).0 <= u32::MAX && ts[i].1.len() <= u32::MAX
}

/// Whether a value fits a field of its kind: the numbers their width, and the lengths and
/// counts the fields that hold them.
pub open spec fn field_fits(k: Kind, v: Value) -> bool
    decreases k, 2nat, 0nat,
{
    match (k, v) {
        (Kind::Int8, Value::Int(x)) => i8::MIN <= x <= i8::MAX,
        (Kind::Int16, Value::Int(x)) => i16::MIN <= x <= i16::MAX,
        (Kind::Int32, Value::Int(x)) => i32::MIN <= x <= i32::MAX,
        (Kind::Int64, Value::Int(x)) => i64::MIN <= x <= i64::MAX,
        (Kind::Nat64, Value::Int(x)) => 0 <= x <= u64::MAX,
        (Kind::Text(flexible), Value::Text(s)) => text_fits(flexible, s),
        (Kind::OptText(flexible), Value::OptText(s)) => s matches Some(t) ==> text_fits(
            flexible,
            t,
        ),
        (Kind::Blob(flexible), Value::Blob(s)) => s matches Some(t) ==> if flexible {
            t.len() < u32::MAX
        } else {
            t.len() <= i32::MAX
        },
        (Kind::Uuid, Value::Uuid(u)) => u.len() == 16,
        (Kind::Tags, Value::Tags(ts)) => tags_fit(ts),
        (Kind::List(flexible, fields), Value::List(rows)) => {
            &&& if flexible {
                rows.len() < u32::MAX
            } else {
                rows.len() <= i32::MAX
            }
            &&& rows_fit(fields, rows)
        },
        (Kind::List(_, _), Value::Null) => true,
        _ => false,
    }
}

/// Whether the length of a string fits its field.
pub open spec fn text_fits(flexible: bool, s: Seq<char>) -> bool {
    if flexible {
        encode_utf8(s).len() < u32::MAX
    } else {
        encode_utf8(s).len() <= i16::MAX
    }
}

/// Whether elements fit their fields.
pub open spec fn rows_fit(fields: Seq<Kind>, rows: Seq<Seq<Value>>) -> bool
    decreases fields, 1nat, rows.len(),
{
    rows.len() == 0 || (rows_fit(fields, rows.drop_last()) && fit(fields, rows.last()))
}

/// Whether values fit these fields.
pub open spec fn fit(fields: Seq<Kind>, vs: Seq<Value>) -> bool
    decreases fields, 0nat, 0nat,
{
    if fields.len() == 0 {
        vs.len() == 0
    } else {
        vs.len() == fields.len() && fit(fields.drop_last(), vs.drop_last()) && field_fits(
            fields.last(),
            vs.last(),
        )
    }
}

/// Whether a peer that knows the layout `fields` finds the values `vs` in what `r` has behind
/// `o`, and nothing besides.
pub open spec fn reads(o: Out, r: Out, fields: Seq<Kind>, vs: Seq<Value>) -> bool {
    &&& r.bytes.len() >= o.bytes.len()
    &&& r.bytes.take(o.bytes.len() as int) == o.bytes
    &&& forall|rest: Seq<u8>|
        found(fields, #[trigger] Src::of(r.bytes.skip(o.bytes.len() as int) + rest)) == Some(
            (vs, Src::of(rest)),
        )
}

proof fn lemma_tags_found(ts: Seq<(nat, Seq<u8>)>, rest: Seq<u8>)
    requires
        tags_fit(ts),
    ensures
        tags_found(Src::of(tags_bytes(ts) + rest), ts.len()) == Some((ts, Src::of(rest))),
    decreases ts.len(),
{
    if ts.len() == 0 {
        assert(tags_bytes(ts) + rest =~= rest);
        assert(ts =~= Seq::empty());
    } else {
        let init = ts.drop_last();
        let (t, d) = ts[ts.len() - 1];
        let one = wire::uvarint(t) + (wire::uvarint(d.len()) + d);
        assert forall|i: int| 0 <= i < init.len() implies (#[trigger] init[i]).0 <= u32::MAX
            && init[i].1.len() <= u32::MAX by {
            assert(init[i] == ts[i]);
        }
        assert(tags_bytes(ts) + rest =~= tags_bytes(init) + (one + rest));
        lemma_tags_found(init, one + rest);
        assert(one + rest =~= wire::uvarint(t) + (wire::uvarint(d.len()) + (d + rest)));
        roundtrip::law_uvarint(t as u32, wire::uvarint(d.len()) + (d + rest));
        roundtrip::law_uvarint(d.len() as u32, d + rest);
        wire::lemma_split_cat(d, rest);
        assert(init.push((t, d)) =~= ts);
    }
}

proof fn lemma_field_found(k: Kind, v: Value, rest: Seq<u8>)
    requires
        field_fits(k, v),
    ensures
        field_found(k, Src::of(field_bytes(k, v) + rest)) == Some((v, Src::of(rest))),
    decreases k, 2nat, 0nat,
{
    match (k, v) {
        (Kind::Int8, Value::Int(x)) => {
            roundtrip::law_i8(x as i8, rest);
        },
        (Kind::Int16, Value::Int(x)) => {
            roundtrip::law_i16(x as i16, rest);
        },
        (Kind::Int32, Value::Int(x)) => {
            roundtrip::law_i32(x as i32, rest);
        },
        (Kind::Int64, Value::Int(x)) => {
            roundtrip::law_i64(x as i64, rest);
        },
        (Kind::Nat64, Value::Int(x)) => {
            wire::lemma_be_len(8, x);
            wire::lemma_split_cat(wire::be64(x), rest);
            reveal_with_fuel(wire::fits_uint, 9);
            wire::lemma_be_uint(8, x);
        },
        (Kind::Text(flexible), Value::Text(s)) => if flexible {
            roundtrip::law_compact(s, rest);
        } else {
            roundtrip::law_string(s, rest);
        },
        (Kind::OptText(flexible), Value::OptText(s)) => if flexible {
            roundtrip::law_compact_nullable(s, rest);
        } else {
            roundtrip::law_nullable(s, rest);
        },
        (Kind::Blob(flexible), Value::Blob(s)) => if flexible {
            roundtrip::law_compact_blob(s, rest);
        } else {
            roundtrip::law_blob(s, rest);
        },
        (Kind::Uuid, Value::Uuid(u)) => {
            wire::lemma_split_cat(u, rest);
        },
        (Kind::Tags, Value::Tags(ts)) => {
            assert(field_bytes(k, v) + rest =~= wire::uvarint(ts.len()) + (tags_bytes(ts) + rest));
            roundtrip::law_uvarint(ts.len() as u32, tags_bytes(ts) + rest);
            lemma_tags_found(ts, rest);
        },
        (Kind::List(flexible, fields), Value::List(rows)) => {
            let n = rows.len();
            let tail = rows_bytes(fields, rows) + rest;
            assert(field_bytes(k, v) + rest =~= Out::new().array_len(flexible, n).bytes + tail);
            if flexible {
                assert(Out::new().array_len(flexible, n).bytes =~= wire::uvarint(n + 1));
                roundtrip::law_uvarint((n + 1) as u32, tail);
            } else {
                assert(Out::new().array_len(flexible, n).bytes =~= wire::be32(n as int));
                roundtrip::law_i32(n as i32, tail);
            }
            lemma_rows_found(fields, rows, rest);
        },
        (Kind::List(flexible, _), Value::Null) => if flexible {
            roundtrip::law_uvarint(0, rest);
        } else {
            roundtrip::law_i32((-1int) as i32, rest);
        },
        _ => {},
    }
}

proof fn lemma_rows_found(fields: Seq<Kind>, rows: Seq<Seq<Value>>, rest: Seq<u8>)
    requires
        rows_fit(fields, rows),
    ensures
        rows_found(fields, rows.len(), Src::of(rows_bytes(fields, rows) + rest)) == Some(
            (rows, Src::of(rest)),
        ),
    decreases fields, 1nat, rows.len(),
{
    if rows.len() == 0 {
        assert(rows_bytes(fields, rows) + rest =~= rest);
        assert(rows =~= Seq::empty());
    } else {
        let init = rows.drop_last();
        let one = bytes_of(fields, rows.last());
        assert(rows_bytes(fields, rows) + rest =~= rows_bytes(fields, init) + (one + rest));
        lemma_rows_found(fields, init, one + rest);
        lemma_found(fields, rows.last(), rest);
        assert(init.push(rows.last()) =~= rows);
    }
}

proof fn lemma_found(fields: Seq<Kind>, vs: Seq<Value>, rest: Seq<u8>)
    requires
        fit(fields, vs),
    ensures
        found(fields, Src::of(bytes_of(fields, vs) + rest)) == Some((vs, Src::of(rest))),
    decreases fields, 0nat, 0nat,
{
    if fields.len() == 0 {
        assert(bytes_of(fields, vs) + rest =~= rest);
        assert(vs =~= Seq::empty());
    } else {
        let one = field_bytes(fields.last(), vs.last());
        assert(bytes_of(fields, vs) + rest =~= bytes_of(fields.drop_last(), vs.drop_last()) + (one
            + rest));
        lemma_found(fields.drop_last(), vs.drop_last(), one + rest);
        lemma_field_found(fields.last(), vs.last(), rest);
        assert(vs.drop_last().push(vs.last()) =~= vs);
    }
}

/// Fields that fit are found by a peer that knows their layout.
pub proof fn law_reads(o: Out, fields: Seq<Kind>, vs: Seq<Value>)
    requires
        fit(fields, vs),
    ensures
        reads(o, o.raw(bytes_of(fields, vs)), fields, vs),
{
    let b = bytes_of(fields, vs);
    wire::lemma_split_cat(o.bytes, b);
    assert forall|rest: Seq<u8>|
        found(fields, #[trigger] Src::of((o.bytes + b).skip(o.bytes.len() as int) + rest)) == Some(
            (vs, Src::of(rest)),
        ) by {
        lemma_found(fields, vs, rest);
    }
}

/// A message as its fields: of what kind they are, and what they hold.
#[verifier::ext_equal]
pub struct Told {
    pub kinds: Seq<Kind>,
    pub values: Seq<Value>,
}

impl Told {
    /// No fields.
    pub open spec fn new() -> Told {
        Told { kinds: Seq::empty(), values: Seq::empty() }
    }

    /// One field more.
    pub open spec fn field(self, k: Kind, v: Value) -> Told {
        Told { kinds: self.kinds.push(k), values: self.values.push(v) }
    }

    /// A number of 8 bits.
    pub open spec fn i8(self, v: int) -> Told {
        self.field(Kind::Int8, Value::Int(v))
    }

    /// A number of 16 bits.
    pub open spec fn i16(self, v: int) -> Told {
        self.field(Kind::Int16, Value::Int(v))
    }

    /// A number of 32 bits.
    pub open spec fn i32(self, v: int) -> Told {
        self.field(Kind::Int32, Value::Int(v))
    }

    /// A number of 64 bits.
    pub open spec fn i64(self, v: int) -> Told {
        self.field(Kind::Int64, Value::Int(v))
    }

    /// A number of 64 bits without a sign.
    pub open spec fn nat64(self, v: int) -> Told {
        self.field(Kind::Nat64, Value::Int(v))
    }

    /// A string.
    pub open spec fn text(self, flexible: bool, s: Seq<char>) -> Told {
        self.field(Kind::Text(flexible), Value::Text(s))
    }

    /// A string that may be null.
    pub open spec fn opt_text(self, flexible: bool, s: Option<Seq<char>>) -> Told {
        self.field(Kind::OptText(flexible), Value::OptText(s))
    }

    /// Bytes that may be null.
    pub open spec fn blob(self, flexible: bool, b: Option<Seq<u8>>) -> Told {
        self.field(Kind::Blob(flexible), Value::Blob(b))
    }

    /// The identifier of a topic.
    pub open spec fn uuid(self, u: Seq<u8>) -> Told {
        self.field(Kind::Uuid, Value::Uuid(u))
    }

    /// A tag buffer.
    pub open spec fn tags(self, ts: Seq<(nat, Seq<u8>)>) -> Told {
        self.field(Kind::Tags, Value::Tags(ts))
    }

    /// An empty tag buffer in the flexible versions.
    pub open spec fn end(self, flexible: bool) -> Told {
        if flexible {
            self.tags(Seq::empty())
        } else {
            self
        }
    }

    /// An array, of whose elements `f` tells. All are laid out alike.
    pub open spec fn list<T>(self, flexible: bool, items: Seq<T>, f: spec_fn(T) -> Told) -> Told {
        self.field(Kind::List(flexible, kinds_of(items, f)), Value::List(values_of(items, f)))
    }

    /// An array that may be null.
    pub open spec fn opt_list<T>(
        self,
        flexible: bool,
        items: Option<Seq<T>>,
        f: spec_fn(T) -> Told,
    ) -> Told {
        match items {
            Some(items) => self.list(flexible, items, f),
            None => self.field(Kind::List(flexible, f(arbitrary()).kinds), Value::Null),
        }
    }

    /// An array without elements, which would be laid out like `t`.
    pub open spec fn no_list(self, flexible: bool, t: Told) -> Told {
        self.field(Kind::List(flexible, t.kinds), Value::List(Seq::empty()))
    }

    /// The bytes of the fields.
    pub open spec fn bytes(self) -> Seq<u8> {
        bytes_of(self.kinds, self.values)
    }

    /// Whether what the fields hold fits them.
    pub open spec fn fits(self) -> bool {
        fit(self.kinds, self.values)
    }
}

/// How the elements of an array are laid out.
pub open spec fn kinds_of<T>(items: Seq<T>, f: spec_fn(T) -> Told) -> Seq<Kind> {
    if items.len() == 0 {
        f(arbitrary()).kinds
    } else {
        f(items[0]).kinds
    }
}

/// What the elements of an array hold.
pub open spec fn values_of<T>(items: Seq<T>, f: spec_fn(T) -> Told) -> Seq<Seq<Value>> {
    items.map_values(|x: T| f(x).values)
}

/// `o` with the fields of `t` behind it.
pub open spec fn said(o: Out, t: Told) -> Out {
    o.raw(t.bytes())
}

/// Whether a peer that knows the layout of `t` finds in what `r` has behind `o` what `t`
/// holds, and nothing besides, where that fits the fields.
pub open spec fn tells(o: Out, r: Out, t: Told) -> bool {
    t.fits() ==> reads(o, r, t.kinds, t.values)
}

/// Whether `r` is `o` with the fields of `t` behind it, so that a peer finds in it what `t`
/// holds.
pub open spec fn lays_out(o: Out, r: Out, t: Told) -> bool {
    r == said(o, t) && tells(o, r, t)
}

/// What consists of the fields of `t` tells a peer what `t` holds.
pub broadcast proof fn law_tells(o: Out, r: Out, t: Told)
    requires
        r == said(o, t),
    ensures
        #[trigger] tells(o, r, t),
{
    if t.fits() {
        law_reads(o, t.kinds, t.values);
    }
}

/// The fields of a message, one after the other.
pub broadcast proof fn lemma_field(o: Out, t: Told, k: Kind, v: Value)
    requires
        t.kinds.len() == t.values.len(),
    ensures
        #[trigger] said(o, t.field(k, v)) == said(o, t).raw(field_bytes(k, v)),
{
    assert(t.kinds.push(k).drop_last() =~= t.kinds);
    assert(t.values.push(v).drop_last() =~= t.values);
    assert(o.bytes + (t.bytes() + field_bytes(k, v)) =~= (o.bytes + t.bytes()) + field_bytes(k, v));
}

/// No fields.
pub broadcast proof fn lemma_no_fields(o: Out)
    ensures
        #[trigger] said(o, Told::new()) == o,
{
    assert(said(o, Told::new()) =~= o);
}

/// A field is written behind what is there.
pub broadcast proof fn lemma_text(o: Out, flexible: bool, s: Seq<char>)
    ensures
        #[trigger] o.text(flexible, s) == o.raw(
            field_bytes(Kind::Text(flexible), Value::Text(s)),
        ),
{
    assert(o.text(flexible, s) =~= o.raw(Out::new().text(flexible, s).bytes));
}

/// A field is written behind what is there.
pub broadcast proof fn lemma_string(o: Out, s: Seq<char>)
    ensures
        #[trigger] o.string(s) == o.raw(field_bytes(Kind::Text(false), Value::Text(s))),
{
    assert(o.string(s) =~= o.raw(Out::new().text(false, s).bytes));
}

/// A field is written behind what is there.
pub broadcast proof fn lemma_compact(o: Out, s: Seq<char>)
    ensures
        #[trigger] o.compact(s) == o.raw(field_bytes(Kind::Text(true), Value::Text(s))),
{
    assert(o.compact(s) =~= o.raw(Out::new().text(true, s).bytes));
}

/// A field is written behind what is there.
pub broadcast proof fn lemma_opt_text(o: Out, flexible: bool, s: Option<Seq<char>>)
    ensures
        #[trigger] o.opt_text(flexible, s) == o.raw(
            field_bytes(Kind::OptText(flexible), Value::OptText(s)),
        ),
{
    assert(o.opt_text(flexible, s) =~= o.raw(Out::new().opt_text(flexible, s).bytes));
}

/// A field is written behind what is there.
pub broadcast proof fn lemma_nullable(o: Out, s: Option<Seq<char>>)
    ensures
        #[trigger] o.nullable(s) == o.raw(field_bytes(Kind::OptText(false), Value::OptText(s))),
{
    assert(o.nullable(s) =~= o.raw(Out::new().opt_text(false, s).bytes));
}

/// A field is written behind what is there.
pub broadcast proof fn lemma_compact_nullable(o: Out, s: Option<Seq<char>>)
    ensures
        #[trigger] o.compact_nullable(s) == o.raw(
            field_bytes(Kind::OptText(true), Value::OptText(s)),
        ),
{
    assert(o.compact_nullable(s) =~= o.raw(Out::new().opt_text(true, s).bytes));
}

/// A field is written behind what is there.
pub broadcast proof fn lemma_blob(o: Out, b: Option<Seq<u8>>)
    ensures
        #[trigger] o.blob(b) == o.raw(field_bytes(Kind::Blob(false), Value::Blob(b))),
{
    assert(o.blob(b) =~= o.raw(Out::new().blob(b).bytes));
}

/// A field is written behind what is there.
pub broadcast proof fn lemma_compact_blob(o: Out, b: Option<Seq<u8>>)
    ensures
        #[trigger] o.compact_blob(b) == o.raw(field_bytes(Kind::Blob(true), Value::Blob(b))),
{
    assert(o.compact_blob(b) =~= o.raw(Out::new().compact_blob(b).bytes));
}

/// An empty tag buffer is written behind what is there.
pub broadcast proof fn lemma_tags(o: Out)
    ensures
        #[trigger] o.tags() == o.raw(field_bytes(Kind::Tags, Value::Tags(Seq::empty()))),
{
    let none = Seq::<(nat, Seq<u8>)>::empty();
    assert(tags_bytes(none) =~= Seq::empty());
    assert(o.tags() =~= o.raw(wire::uvarint(0) + tags_bytes(none)));
}

/// An array without elements is written as their number.
pub broadcast proof fn lemma_no_list(o: Out, flexible: bool, fields: Seq<Kind>)
    ensures
        #[trigger] o.raw(field_bytes(Kind::List(flexible, fields), Value::List(Seq::empty())))
            == o.array_len(flexible, 0),
{
    assert(rows_bytes(fields, Seq::empty()) =~= Seq::empty());
    assert(o.raw(
        field_bytes(Kind::List(flexible, fields), Value::List(Seq::empty())),
    ) =~= o.array_len(flexible, 0));
}

/// What is known of the fields that an output is made of.
pub broadcast group group_fields {
    lemma_field,
    lemma_no_fields,
    lemma_text,
    lemma_string,
    lemma_compact,
    lemma_opt_text,
    lemma_nullable,
    lemma_compact_nullable,
    lemma_blob,
    lemma_compact_blob,
    lemma_tags,
    lemma_no_list,
}

proof fn lemma_rows<T>(
    o: Out,
    items: Seq<T>,
    g: spec_fn(Out, T) -> Out,
    fields: Seq<Kind>,
    rows: Seq<Seq<Value>>,
)
    requires
        rows.len() == items.len(),
        forall|i: int, o: Out|
            #![trigger g(o, items[i])]
            0 <= i < items.len() ==> g(o, items[i]) == o.raw(bytes_of(fields, rows[i])),
    ensures
        o.each(items, g) == o.raw(rows_bytes(fields, rows)),
    decreases items.len(),
{
    if items.len() == 0 {
        assert(o.raw(rows_bytes(fields, rows)) =~= o);
    } else {
        let init = items.drop_last();
        assert forall|i: int, o: Out|
            #![trigger g(o, init[i])]
            0 <= i < init.len() implies g(o, init[i]) == o.raw(
            bytes_of(fields, rows.drop_last()[i]),
        ) by {
            assert(init[i] == items[i]);
            assert(rows.drop_last()[i] == rows[i]);
        }
        lemma_rows(o, init, g, fields, rows.drop_last());
        let a = o.each(init, g);
        assert(g(a, items[items.len() - 1]) == a.raw(bytes_of(fields, rows[items.len() - 1])));
        assert(o.each(items, g) =~= o.raw(rows_bytes(fields, rows)));
    }
}

/// An array is written behind what is there: the number of its elements, and the elements,
/// each with the fields that `f` tells of.
pub proof fn lemma_each<T>(
    flexible: bool,
    items: Seq<T>,
    g: spec_fn(Out, T) -> Out,
    f: spec_fn(T) -> Told,
)
    requires
        forall|i: int, o: Out|
            #![trigger g(o, items[i])]
            0 <= i < items.len() ==> g(o, items[i]) == said(o, f(items[i])),
        forall|i: int| 0 <= i < items.len() ==> f(#[trigger] items[i]).kinds == f(items[0]).kinds,
    ensures
        forall|o: Out|
            (#[trigger] o.array_len(flexible, items.len())).each(items, g) == o.raw(
                field_bytes(
                    Kind::List(flexible, kinds_of(items, f)),
                    Value::List(values_of(items, f)),
                ),
            ),
{
    let fields = kinds_of(items, f);
    let vs = values_of(items, f);
    assert forall|i: int, o: Out| #![trigger g(o, items[i])] 0 <= i < items.len() implies g(
        o,
        items[i],
    ) == o.raw(bytes_of(fields, vs[i])) by {
        assert(f(items[i]).kinds == f(items[0]).kinds);
        assert(vs[i] == f(items[i]).values);
    }
    assert forall|o: Out| (#[trigger] o.array_len(flexible, items.len())).each(items, g) == o.raw(
        field_bytes(Kind::List(flexible, fields), Value::List(vs)),
    ) by {
        let head = o.array_len(flexible, items.len());
        lemma_rows(head, items, g, fields, vs);
        assert(head.raw(rows_bytes(fields, vs)) =~= o.raw(
            field_bytes(Kind::List(flexible, fields), Value::List(vs)),
        ));
    }
}

/// An array is written behind what is there: the number of its elements, and the elements,
/// each with the fields that `f` tells of.
pub proof fn lemma_list<R: Row>(
    items: Seq<R>,
    version: i16,
    flexible: bool,
    f: spec_fn(R) -> Told,
)
    requires
        forall|i: int, o: Out|
            #![trigger items[i].row(o, version, flexible)]
            0 <= i < items.len() ==> items[i].row(o, version, flexible) == said(o, f(items[i])),
        forall|i: int| 0 <= i < items.len() ==> f(#[trigger] items[i]).kinds == f(items[0]).kinds,
    ensures
        forall|o: Out| #[trigger]
            message::rows_out(o, items, version, flexible) == o.raw(
                field_bytes(
                    Kind::List(flexible, kinds_of(items, f)),
                    Value::List(values_of(items, f)),
                ),
            ),
{
    let g = |o: Out, r: R| r.row(o, version, flexible);
    lemma_each(flexible, items, g, f);
    assert forall|o: Out| #[trigger] message::rows_out(o, items, version, flexible) == o.raw(
        field_bytes(Kind::List(flexible, kinds_of(items, f)), Value::List(values_of(items, f))),
    ) by {
        assert(o.array_len(flexible, items.len()).each(items, g) == o.raw(
            field_bytes(Kind::List(flexible, kinds_of(items, f)), Value::List(values_of(items, f))),
        ));
    }
}

/// A field in front of what is left to be read.
pub open spec fn field_then(k: Kind, v: Value, r: Src) -> Src {
    Src::of(field_bytes(k, v) + r.bytes)
}

/// The fields of a message in front of what is left to be read.
pub open spec fn sent(t: Told, r: Src) -> Src {
    Src::of(t.bytes() + r.bytes)
}

/// The last field of a message stands behind the others.
pub broadcast proof fn lemma_sent(t: Told, k: Kind, v: Value, r: Src)
    requires
        t.kinds.len() == t.values.len(),
    ensures
        #[trigger] sent(t.field(k, v), r) == sent(t, field_then(k, v, r)),
{
    assert(t.kinds.push(k).drop_last() =~= t.kinds);
    assert(t.values.push(v).drop_last() =~= t.values);
    assert((t.bytes() + field_bytes(k, v)) + r.bytes =~= t.bytes() + (field_bytes(k, v) + r.bytes));
}

/// A message without fields is nothing.
pub broadcast proof fn lemma_sent_nothing(r: Src)
    ensures
        #[trigger] sent(Told::new(), r) == r,
{
    assert(sent(Told::new(), r).bytes =~= r.bytes);
}

/// A message fits where all its fields do.
pub broadcast proof fn lemma_fits(t: Told, k: Kind, v: Value)
    requires
        t.kinds.len() == t.values.len(),
    ensures
        #[trigger] t.field(k, v).fits() == (t.fits() && field_fits(k, v)),
{
    assert(t.kinds.push(k).drop_last() =~= t.kinds);
    assert(t.values.push(v).drop_last() =~= t.values);
}

/// Numbers are read as they were sent.
pub broadcast proof fn lemma_sent_i8(v: int, r: Src)
    ensures
        ({
            let b = #[trigger] field_then(Kind::Int8, Value::Int(v), r);
            &&& b.left() == 1 + r.left()
            &&& b.skip(1) == r
            &&& i8::MIN <= v <= i8::MAX ==> b.i8() == v
            &&& 0 <= v <= u8::MAX ==> b.u8() == v
            &&& v == 0 ==> b.uvarint() == wire::done(0nat, r)
        }),
{
    wire::lemma_be_len(1, v);
    wire::lemma_split_cat(wire::be8(v), r.bytes);
    wire::lemma_be_byte(v);
    if v == 0 {
        assert(wire::be8(0) =~= wire::uvarint(0));
        roundtrip::law_uvarint(0, r.bytes);
    }
    if i8::MIN <= v <= i8::MAX {
        roundtrip::law_i8(v as i8, r.bytes);
    }
}

/// Numbers are read as they were sent.
pub broadcast proof fn lemma_sent_i16(v: int, r: Src)
    ensures
        ({
            let b = #[trigger] field_then(Kind::Int16, Value::Int(v), r);
            &&& b.left() == 2 + r.left()
            &&& b.skip(2) == r
            &&& i16::MIN <= v <= i16::MAX ==> b.i16() == v
        }),
{
    wire::lemma_be_len(2, v);
    wire::lemma_split_cat(wire::be16(v), r.bytes);
    if i16::MIN <= v <= i16::MAX {
        roundtrip::law_i16(v as i16, r.bytes);
    }
}

/// Numbers are read as they were sent.
pub broadcast proof fn lemma_sent_i32(v: int, r: Src)
    ensures
        ({
            let b = #[trigger] field_then(Kind::Int32, Value::Int(v), r);
            &&& b.left() == 4 + r.left()
            &&& b.skip(4) == r
            &&& i32::MIN <= v <= i32::MAX ==> b.i32() == v
        }),
{
    wire::lemma_be_len(4, v);
    wire::lemma_split_cat(wire::be32(v), r.bytes);
    if i32::MIN <= v <= i32::MAX {
        roundtrip::law_i32(v as i32, r.bytes);
    }
}

/// Numbers are read as they were sent.
pub broadcast proof fn lemma_sent_i64(v: int, r: Src)
    ensures
        ({
            let b = #[trigger] field_then(Kind::Int64, Value::Int(v), r);
            &&& b.left() == 8 + r.left()
            &&& b.skip(8) == r
            &&& i64::MIN <= v <= i64::MAX ==> b.i64() == v
        }),
{
    wire::lemma_be_len(8, v);
    wire::lemma_split_cat(wire::be64(v), r.bytes);
    if i64::MIN <= v <= i64::MAX {
        roundtrip::law_i64(v as i64, r.bytes);
    }
}

/// Strings are read as they were sent.
pub broadcast proof fn lemma_sent_text(flexible: bool, s: Seq<char>, r: Src)
    requires
        text_fits(flexible, s),
    ensures
        ({
            let b = #[trigger] field_then(Kind::Text(flexible), Value::Text(s), r);
            &&& flexible ==> b.compact() == wire::done(s, r) && b.compact_nullable() == wire::done(
                Some(s),
                r,
            )
            &&& !flexible ==> b.string() == wire::done(s, r) && b.nullable() == wire::done(
                Some(s),
                r,
            )
        }),
{
    if flexible {
        roundtrip::law_compact(s, r.bytes);
    } else {
        roundtrip::law_string(s, r.bytes);
    }
}

/// Strings are read as they were sent.
pub broadcast proof fn lemma_sent_opt_text(flexible: bool, s: Option<Seq<char>>, r: Src)
    requires
        field_fits(Kind::OptText(flexible), Value::OptText(s)),
    ensures
        ({
            let b = #[trigger] field_then(Kind::OptText(flexible), Value::OptText(s), r);
            &&& flexible ==> b.compact_nullable() == wire::done(s, r)
            &&& !flexible ==> b.nullable() == wire::done(s, r)
        }),
{
    if flexible {
        roundtrip::law_compact_nullable(s, r.bytes);
    } else {
        roundtrip::law_nullable(s, r.bytes);
    }
}

/// Bytes are read as they were sent.
pub broadcast proof fn lemma_sent_blob(flexible: bool, d: Option<Seq<u8>>, r: Src)
    requires
        field_fits(Kind::Blob(flexible), Value::Blob(d)),
    ensures
        ({
            let b = #[trigger] field_then(Kind::Blob(flexible), Value::Blob(d), r);
            &&& flexible ==> b.compact_blob() == wire::done(d, r)
            &&& !flexible ==> b.blob() == wire::done(d, r)
        }),
{
    if flexible {
        roundtrip::law_compact_blob(d, r.bytes);
    } else {
        roundtrip::law_blob(d, r.bytes);
    }
}

/// Identifiers are read as they were sent.
pub broadcast proof fn lemma_sent_uuid(u: Seq<u8>, r: Src)
    requires
        u.len() == 16,
    ensures
        ({
            let b = #[trigger] field_then(Kind::Uuid, Value::Uuid(u), r);
            &&& b.left() == 16 + r.left()
            &&& b.take(16) == u
            &&& b.skip(16) == r
        }),
{
    wire::lemma_split_cat(u, r.bytes);
}

proof fn lemma_tags_passed(ts: Seq<(nat, Seq<u8>)>, n: nat, rest: Seq<u8>)
    requires
        tags_fit(ts),
        n <= ts.len(),
    ensures
        wire::tags_at(Src::of(tags_bytes(ts.skip(n as int)) + rest), (ts.len() - n) as nat)
            == wire::done((), Src::of(rest)),
    decreases ts.len() - n,
{
    let left = ts.skip(n as int);
    if n == ts.len() {
        assert(tags_bytes(left) + rest =~= rest);
    } else {
        let (t, d) = ts[n as int];
        let one = wire::uvarint(t) + (wire::uvarint(d.len()) + d);
        lemma_tags_front(left);
        assert(left.skip(1) =~= ts.skip(n as int + 1));
        assert(left[0] == ts[n as int]);
        let tail = tags_bytes(ts.skip(n as int + 1)) + rest;
        assert(
            tags_bytes(left) + rest =~= wire::uvarint(t) + (wire::uvarint(d.len()) + (d + tail))
        );
        roundtrip::law_uvarint(t as u32, wire::uvarint(d.len()) + (d + tail));
        roundtrip::law_uvarint(d.len() as u32, d + tail);
        wire::lemma_split_cat(d, tail);
        lemma_tags_passed(ts, n + 1, rest);
    }
}

proof fn lemma_tags_front(ts: Seq<(nat, Seq<u8>)>)
    requires
        ts.len() > 0,
    ensures
        tags_bytes(ts) == (wire::uvarint(ts[0].0) + (wire::uvarint(ts[0].1.len()) + ts[0].1))
            + tags_bytes(ts.skip(1)),
    decreases ts.len(),
{
    let one = wire::uvarint(ts[0].0) + (wire::uvarint(ts[0].1.len()) + ts[0].1);
    if ts.len() == 1 {
        assert(tags_bytes(ts.drop_last()) =~= Seq::empty());
        assert(tags_bytes(ts.skip(1)) =~= Seq::empty());
        assert(tags_bytes(ts) =~= one + tags_bytes(ts.skip(1)));
    } else {
        lemma_tags_front(ts.drop_last());
        assert(ts.drop_last().skip(1) =~= ts.skip(1).drop_last());
        assert(tags_bytes(ts) =~= one + tags_bytes(ts.skip(1)));
    }
}

/// Tag buffers are passed over.
pub broadcast proof fn lemma_sent_tags(ts: Seq<(nat, Seq<u8>)>, r: Src)
    requires
        tags_fit(ts),
    ensures
        (#[trigger] field_then(Kind::Tags, Value::Tags(ts), r)).tags() == wire::done((), r),
{
    let b = field_then(Kind::Tags, Value::Tags(ts), r);
    assert(b.bytes =~= wire::uvarint(ts.len()) + (tags_bytes(ts) + r.bytes));
    roundtrip::law_uvarint(ts.len() as u32, tags_bytes(ts) + r.bytes);
    assert(ts.skip(0) =~= ts);
    lemma_tags_passed(ts, 0, r.bytes);
}

/// An array that is not there is found not to be.
pub broadcast proof fn lemma_sent_null(flexible: bool, fields: Seq<Kind>, r: Src)
    ensures
        ({
            let b = #[trigger] field_then(Kind::List(flexible, fields), Value::Null, r);
            &&& flexible ==> b.uvarint() == wire::done(0nat, r)
            &&& !flexible ==> b.left() == 4 + r.left() && b.i32() == -1 && b.skip(4) == r
        }),
{
    if flexible {
        roundtrip::law_uvarint(0, r.bytes);
    } else {
        wire::lemma_be_len(4, -1);
        roundtrip::law_i32((-1int) as i32, r.bytes);
    }
}

/// What is known of the fields of a request.
pub broadcast group group_sent {
    lemma_sent_null,
    lemma_sent,
    lemma_sent_nothing,
    lemma_fits,
    lemma_sent_i8,
    lemma_sent_i16,
    lemma_sent_i32,
    lemma_sent_i64,
    lemma_sent_text,
    lemma_sent_opt_text,
    lemma_sent_blob,
    lemma_sent_uuid,
    lemma_sent_tags,
}

proof fn lemma_row_fits<T>(items: Seq<T>, f: spec_fn(T) -> Told, i: int)
    requires
        rows_fit(kinds_of(items, f), values_of(items, f)),
        0 <= i < items.len(),
    ensures
        fit(kinds_of(items, f), f(items[i]).values),
{
    lemma_rows_fit(kinds_of(items, f), values_of(items, f), i);
}

proof fn lemma_rows_fit(fields: Seq<Kind>, rows: Seq<Seq<Value>>, i: int)
    requires
        rows_fit(fields, rows),
        0 <= i < rows.len(),
    ensures
        fit(fields, rows[i]),
    decreases rows.len(),
{
    if i < rows.len() - 1 {
        lemma_rows_fit(fields, rows.drop_last(), i);
    }
}

proof fn lemma_rows_front(fields: Seq<Kind>, rows: Seq<Seq<Value>>)
    requires
        rows.len() > 0,
    ensures
        rows_bytes(fields, rows) == bytes_of(fields, rows[0]) + rows_bytes(fields, rows.skip(1)),
    decreases rows.len(),
{
    let one = bytes_of(fields, rows[0]);
    if rows.len() == 1 {
        assert(rows_bytes(fields, rows.drop_last()) =~= Seq::empty());
        assert(rows_bytes(fields, rows.skip(1)) =~= Seq::empty());
        assert(rows_bytes(fields, rows) =~= one + rows_bytes(fields, rows.skip(1)));
    } else {
        lemma_rows_front(fields, rows.drop_last());
        assert(rows.drop_last().skip(1) =~= rows.skip(1).drop_last());
        assert(rows_bytes(fields, rows) =~= one + rows_bytes(fields, rows.skip(1)));
    }
}

proof fn lemma_rows_sent<V>(
    fields: Seq<Kind>,
    rows: Seq<Seq<Value>>,
    step: spec_fn(Src) -> wire::Step<V>,
    views: Seq<V>,
    n: nat,
    r: Src,
)
    requires
        views.len() == rows.len(),
        n <= rows.len(),
        forall|i: int, r: Src|
            #![trigger step(Src::of(bytes_of(fields, rows[i]) + r.bytes))]
            0 <= i < rows.len() ==> step(Src::of(bytes_of(fields, rows[i]) + r.bytes))
                == wire::keep(views[i], r),
    ensures
        wire::rounds(
            Src::of(rows_bytes(fields, rows.skip(n as int)) + r.bytes),
            (rows.len() - n) as nat,
            step,
        ) == (views.skip(n as int), r),
    decreases rows.len() - n,
{
    let left = rows.skip(n as int);
    let b = Src::of(rows_bytes(fields, left) + r.bytes);
    if n == rows.len() {
        assert(b.bytes =~= r.bytes);
        assert(views.skip(n as int) =~= Seq::empty());
    } else {
        lemma_rows_front(fields, left);
        assert(left[0] == rows[n as int]);
        assert(left.skip(1) =~= rows.skip(n as int + 1));
        let next = Src::of(rows_bytes(fields, rows.skip(n as int + 1)) + r.bytes);
        assert(b.bytes =~= bytes_of(fields, rows[n as int]) + next.bytes);
        assert(step(Src::of(bytes_of(fields, rows[n as int]) + next.bytes)) == wire::keep(
            views[n as int],
            next,
        ));
        lemma_rows_sent(fields, rows, step, views, n + 1, r);
        assert(seq![views[n as int]] + views.skip(n as int + 1) =~= views.skip(n as int));
    }
}

/// Whether an element that is sent as `t`, where that fits, is taken as `v`, and what stands
/// behind it is left.
pub open spec fn taken<E: message::Element>(
    t: Told,
    version: i16,
    flexible: bool,
    v: E::V,
) -> bool {
    t.fits() ==> forall|r: Src| #[trigger] E::at(sent(t, r), version, flexible) == wire::keep(v, r)
}

/// Whether an array that is sent as `f` tells of its elements is taken as what `view` says of
/// them, and what stands behind it is left.
pub open spec fn list_taken<T, E: message::Element>(
    items: Seq<T>,
    f: spec_fn(T) -> Told,
    view: spec_fn(T) -> E::V,
    version: i16,
    flexible: bool,
) -> bool {
    forall|r: Src|
        ({
            let b = #[trigger] field_then(
                Kind::List(flexible, kinds_of(items, f)),
                Value::List(values_of(items, f)),
                r,
            );
            let c = message::count_at(b, flexible);
            &&& b.left() >= (if flexible { 1int } else { 4 })
            &&& c.value == Ok::<Option<usize>, Seq<char>>(Some(items.len() as usize))
            &&& flexible ==> c == b.compact_len()
            &&& message::or_zero(Some(items.len() as usize)) == items.len()
            &&& !flexible ==> b.i32() == items.len() && c.rest == b.skip(4)
            &&& message::loose_list_at::<E>(b, version, flexible) == (items.map_values(view), r)
            &&& message::list_at::<E>(c.rest, items.len(), version, flexible) == (
                items.map_values(view),
                r,
            )
        })
}

/// The elements of an array are taken as they were sent, if each is.
pub proof fn lemma_sent_list<T, E: message::Element>(
    items: Seq<T>,
    f: spec_fn(T) -> Told,
    view: spec_fn(T) -> E::V,
    version: i16,
    flexible: bool,
)
    requires
        field_fits(Kind::List(flexible, kinds_of(items, f)), Value::List(values_of(items, f))),
        forall|i: int|
            0 <= i < items.len() ==> taken::<E>(
                f(#[trigger] items[i]),
                version,
                flexible,
                view(items[i]),
            ),
        forall|i: int| 0 <= i < items.len() ==> f(#[trigger] items[i]).kinds == f(items[0]).kinds,
    ensures
        list_taken::<T, E>(items, f, view, version, flexible),
{
    let fields = kinds_of(items, f);
    let vs = values_of(items, f);
    let step = message::element::<E>(version, flexible);
    let views = items.map_values(view);
    assert forall|i: int, r: Src|
        #![trigger step(Src::of(bytes_of(fields, vs[i]) + r.bytes))]
        0 <= i < vs.len() implies step(Src::of(bytes_of(fields, vs[i]) + r.bytes)) == wire::keep(
        views[i],
        r,
    ) by {
        assert(f(items[i]).kinds == f(items[0]).kinds);
        lemma_row_fits(items, f, i);
        assert(taken::<E>(f(items[i]), version, flexible, view(items[i])));
        assert(E::at(sent(f(items[i]), r), version, flexible) == wire::keep(view(items[i]), r));
    }
    assert forall|r: Src|
        ({
            let b = #[trigger] field_then(Kind::List(flexible, fields), Value::List(vs), r);
            let c = message::count_at(b, flexible);
            &&& b.left() >= (if flexible { 1int } else { 4 })
            &&& c.value == Ok::<Option<usize>, Seq<char>>(Some(items.len() as usize))
            &&& flexible ==> c == b.compact_len()
            &&& message::or_zero(Some(items.len() as usize)) == items.len()
            &&& !flexible ==> b.i32() == items.len() && c.rest == b.skip(4)
            &&& message::loose_list_at::<E>(b, version, flexible) == (views, r)
            &&& message::list_at::<E>(c.rest, items.len(), version, flexible) == (views, r)
        }) by {
        let b = field_then(Kind::List(flexible, fields), Value::List(vs), r);
        let n = items.len();
        let tail = rows_bytes(fields, vs) + r.bytes;
        assert(b.bytes =~= Out::new().array_len(flexible, n).bytes + tail);
        if flexible {
            roundtrip::law_compact_len(n, tail);
            assert(b.left() >= 1) by {
                if b.left() == 0 {
                    assert(b.uvarint().value is Err);
                }
            }
        } else {
            assert(Out::new().array_len(flexible, n).bytes =~= wire::be32(n as int));
            roundtrip::law_i32(n as i32, tail);
        }
        assert(vs.skip(0) =~= vs);
        assert(views.skip(0) =~= views);
        lemma_rows_sent(fields, vs, step, views, 0, r);
    }
}

} // verus!
