//! Text: UTF-8 decoding, comparison and the decimal and hexadecimal writing of numbers.

use bytes::Bytes;
use vstd::prelude::*;
use vstd::string::*;
use vstd::utf8::*;

use crate::buffer::Contents;

verus! {

/// `str::eq`: two strings are equal where their characters are.
pub assume_specification[ <str as PartialEq>::eq ](a: &str, b: &str) -> (r: bool)
    ensures
        r == (a@ == b@),
;

/// Whether two strings are equal.
pub fn same(a: &str, b: &str) -> (r: bool)
    ensures
        r == (a@ == b@),
{
    <str as PartialEq>::eq(a, b)
}

/// `str::strip_prefix`: what follows `prefix` in `s`, where `s` begins with it.
#[verifier::external_body]
pub(crate) fn strip_prefix(s: &str, prefix: &str) -> (r: Option<String>)
    ensures
        match r {
            Some(t) => s@ == prefix@ + t@,
            None => !prefix@.is_prefix_of(s@),
        },
{
    s.strip_prefix(prefix).map(|t| t.to_string())
}

/// Whether `s` begins with `prefix`.
pub fn starts_with(s: &str, prefix: &str) -> (b: bool)
    ensures
        b == prefix@.is_prefix_of(s@),
{
    match strip_prefix(s, prefix) {
        Some(t) => {
            assert((prefix@ + t@).take(prefix@.len() as int) =~= prefix@);
            true
        },
        None => false,
    }
}

/// Whether `part` stands somewhere in `s`.
pub open spec fn holds(s: Seq<char>, part: Seq<char>) -> bool {
    exists|i: int|
        0 <= i <= s.len() - part.len() && #[trigger] s.subrange(i, i + part.len()) == part
}

/// `str::contains`: whether `part` is a slice of `s`.
#[verifier::external_body]
pub(crate) fn contains(s: &str, part: &str) -> (b: bool)
    ensures
        b == holds(s@, part@),
{
    s.contains(part)
}

/// `str::split_once`: what stands before and after the first `mark` in `s`.
#[verifier::external_body]
pub(crate) fn split_once(s: &str, mark: &str) -> (r: Option<(String, String)>)
    requires
        mark@.len() > 0,
    ensures
        match r {
            Some(p) => s@ == p.0@ + mark@ + p.1@ && forall|i: int|
                0 <= i < p.0@.len() ==> #[trigger] s@.subrange(i, i + mark@.len()) != mark@,
            None => !holds(s@, mark@),
        },
{
    s.split_once(mark).map(|p| (p.0.to_string(), p.1.to_string()))
}

/// `s` with `new` in the place of every `mark`, from the first on.
pub open spec fn replaced(s: Seq<char>, mark: Seq<char>, new: Seq<char>) -> Seq<char>
    decreases s.len(),
{
    if mark.len() == 0 || s.len() == 0 {
        s
    } else if mark.is_prefix_of(s) {
        new + replaced(s.skip(mark.len() as int), mark, new)
    } else {
        seq![s[0]] + replaced(s.skip(1), mark, new)
    }
}

proof fn lemma_replaced_first(a: Seq<char>, mark: Seq<char>, b: Seq<char>, new: Seq<char>)
    requires
        mark.len() > 0,
        forall|i: int|
            0 <= i < a.len() ==> #[trigger] (a + mark + b).subrange(i, i + mark.len()) != mark,
    ensures
        replaced(a + mark + b, mark, new) == a + new + replaced(b, mark, new),
    decreases a.len(),
{
    let s = a + mark + b;
    if a.len() == 0 {
        assert(s =~= mark + b);
        assert(s.take(mark.len() as int) =~= mark);
        assert(mark.is_prefix_of(s));
        assert(s.skip(mark.len() as int) =~= b);
        assert(a + new + replaced(b, mark, new) =~= new + replaced(b, mark, new));
    } else {
        let rest = a.skip(1);
        assert(s.subrange(0, 0int + mark.len()) != mark);
        assert(!mark.is_prefix_of(s));
        assert(s.skip(1) =~= rest + mark + b);
        assert forall|i: int| 0 <= i < rest.len() implies #[trigger] (rest + mark + b).subrange(
            i,
            i + mark.len(),
        ) != mark by {
            assert((rest + mark + b).subrange(i, i + mark.len()) =~= s.subrange(
                i + 1,
                i + 1 + mark.len(),
            ));
        }
        lemma_replaced_first(rest, mark, b, new);
        assert(a + new + replaced(b, mark, new) =~= seq![s[0]] + (rest + new + replaced(
            b,
            mark,
            new,
        )));
    }
}

proof fn lemma_replaced_none(s: Seq<char>, mark: Seq<char>, new: Seq<char>)
    requires
        !holds(s, mark),
    ensures
        replaced(s, mark, new) == s,
    decreases s.len(),
{
    if mark.len() > 0 && s.len() > 0 {
        if mark.is_prefix_of(s) {
            assert(s.subrange(0, 0int + mark.len()) == mark);
        }
        let rest = s.skip(1);
        if holds(rest, mark) {
            let i = choose|i: int|
                0 <= i <= rest.len() - mark.len() && #[trigger] rest.subrange(i, i + mark.len())
                    == mark;
            assert(s.subrange(i + 1, i + 1 + mark.len()) =~= rest.subrange(i, i + mark.len()));
        }
        lemma_replaced_none(rest, mark, new);
        assert(seq![s[0]] + rest =~= s);
    }
}

/// `s` with `new` in the place of every `mark`.
pub fn replace(s: &str, mark: &str, new: &str) -> (r: String)
    requires
        mark@.len() > 0,
    ensures
        r@ == replaced(s@, mark@, new@),
{
    let mut done = "".to_owned();
    let mut left = s.to_owned();
    proof {
        reveal_strlit("");
        assert(""@ + replaced(s@, mark@, new@) =~= replaced(s@, mark@, new@));
    }
    loop
        invariant_except_break
            replaced(s@, mark@, new@) == done@ + replaced(left@, mark@, new@),
        invariant
            mark@.len() > 0,
        ensures
            replaced(s@, mark@, new@) == done@,
        decreases left@.len(),
    {
        match split_once(left.as_str(), mark) {
            None => {
                proof {
                    lemma_replaced_none(left@, mark@, new@);
                }
                done.append(left.as_str());
                break;
            },
            Some((a, b)) => {
                proof {
                    lemma_replaced_first(a@, mark@, b@, new@);
                }
                let ghost before = done@;
                done.append(a.as_str());
                done.append(new);
                assert(before + (a@ + new@ + replaced(b@, mark@, new@)) =~= done@ + replaced(
                    b@,
                    mark@,
                    new@,
                ));
                left = b;
            },
        }
    }
    done
}

/// The pieces of `s` between the places where it holds `sep`.
pub open spec fn fields<T>(s: Seq<T>, sep: T) -> Seq<Seq<T>>
    decreases s.len(),
{
    if s.len() == 0 {
        seq![Seq::empty()]
    } else {
        let rest = fields(s.skip(1), sep);
        if s[0] == sep {
            seq![Seq::empty()] + rest
        } else {
            seq![seq![s[0]] + rest[0]] + rest.skip(1)
        }
    }
}

pub(crate) proof fn lemma_fields<T>(a: Seq<T>, sep: T, b: Seq<T>)
    requires
        !a.contains(sep),
    ensures
        fields(a + seq![sep] + b, sep) == seq![a] + fields(b, sep),
        fields(a, sep) == seq![a],
    decreases a.len(),
{
    let s = a + seq![sep] + b;
    if a.len() == 0 {
        assert(s.skip(1) =~= b);
        assert(a =~= Seq::empty());
    } else {
        let rest = a.skip(1);
        assert(!rest.contains(sep)) by {
            if rest.contains(sep) {
                let i = choose|i: int| 0 <= i < rest.len() && rest[i] == sep;
                assert(a[i + 1] == sep);
            }
        }
        lemma_fields(rest, sep, b);
        assert(s.skip(1) =~= rest + seq![sep] + b);
        assert(a[0] != sep);
        assert(seq![s[0]] + rest =~= a);
        assert((seq![rest] + fields(b, sep)).skip(1) =~= fields(b, sep));
        assert(fields(s, sep) =~= seq![a] + fields(b, sep));
        assert(seq![rest].skip(1) =~= Seq::empty());
        assert(fields(a, sep) =~= seq![a]);
    }
}

/// The pieces of `b` between the places where it holds the byte `sep`.
pub fn split_bytes(b: &[u8], sep: u8) -> (r: Vec<Vec<u8>>)
    ensures
        r.deep_view() == fields(b@, sep),
{
    let mut r: Vec<Vec<u8>> = Vec::new();
    let mut piece: Vec<u8> = Vec::new();
    let mut i: usize = 0;
    proof {
        assert(piece@ + b@.skip(0) =~= b@);
        assert(r.deep_view() + fields(b@, sep) =~= fields(b@, sep));
    }
    while i < b.len()
        invariant
            i <= b@.len(),
            !piece@.contains(sep),
            fields(b@, sep) == r.deep_view() + fields(piece@ + b@.skip(i as int), sep),
        decreases b@.len() - i,
    {
        let ghost tail = b@.skip(i as int);
        assert(tail =~= seq![b@[i as int]] + b@.skip(i + 1));
        if b[i] == sep {
            let ghost seen = r.deep_view();
            proof {
                assert(piece@ + tail =~= piece@ + seq![sep] + b@.skip(i + 1));
                lemma_fields(piece@, sep, b@.skip(i + 1));
            }
            let ghost p = piece@;
            assert(piece.deep_view() =~= p);
            r.push(piece);
            proof {
                assert(r.deep_view() =~= seen.push(p));
                assert(seen + (seq![p] + fields(b@.skip(i + 1), sep)) =~= seen.push(p) + fields(
                    b@.skip(i + 1),
                    sep,
                ));
            }
            piece = Vec::new();
            assert(piece@ + b@.skip(i + 1) =~= b@.skip(i + 1));
        } else {
            let ghost p = piece@;
            piece.push(b[i]);
            proof {
                assert(p + tail =~= piece@ + b@.skip(i + 1));
                if piece@.contains(sep) {
                    let k = choose|k: int| 0 <= k < piece@.len() && piece@[k] == sep;
                    assert(k < p.len());
                    assert(p[k] == sep);
                }
            }
        }
        i += 1;
    }
    let ghost seen = r.deep_view();
    let ghost p = piece@;
    proof {
        assert(p + b@.skip(i as int) =~= p);
        lemma_fields(p, sep, Seq::empty());
    }
    assert(piece.deep_view() =~= p);
    r.push(piece);
    assert(r.deep_view() =~= seen.push(p));
    assert(seen + seq![p] =~= seen.push(p));
    r
}

/// The pieces of `s` between its commas.
pub fn split_commas(s: &str) -> (r: Vec<String>)
    ensures
        r.deep_view() == fields(s@, ','),
{
    let mut r: Vec<String> = Vec::new();
    let mut left = s.to_owned();
    proof {
        reveal_strlit(",");
        assert(","@ =~= seq![',']);
        assert(r.deep_view() + fields(s@, ',') =~= fields(s@, ','));
    }
    loop
        invariant_except_break
            fields(s@, ',') == r.deep_view() + fields(left@, ','),
        invariant
            ","@ == seq![','],
        ensures
            fields(s@, ',') == r.deep_view(),
        decreases left@.len(),
    {
        let ghost seen = r.deep_view();
        match split_once(left.as_str(), ",") {
            None => {
                proof {
                    if left@.contains(',') {
                        let k = choose|k: int| 0 <= k < left@.len() && left@[k] == ',';
                        assert(left@.subrange(k, k + ","@.len()) =~= ","@);
                    }
                    lemma_fields(left@, ',', Seq::empty());
                }
                let ghost p = left@;
                r.push(left);
                assert(r.deep_view() =~= seen.push(p));
                assert(seen + seq![p] =~= seen.push(p));
                break;
            },
            Some((a, b)) => {
                proof {
                    if a@.contains(',') {
                        let k = choose|k: int| 0 <= k < a@.len() && a@[k] == ',';
                        assert(left@.subrange(k, k + ","@.len()) =~= ","@);
                    }
                    lemma_fields(a@, ',', b@);
                }
                let ghost p = a@;
                r.push(a);
                assert(r.deep_view() =~= seen.push(p));
                assert(seen + (seq![p] + fields(b@, ',')) =~= seen.push(p) + fields(b@, ','));
                left = b;
            },
        }
    }
    r
}

/// The outcome `r` is the one that `want` describes: the value with the view that
/// `want` holds, or the text that `want` holds.
pub open spec fn agrees<T: DeepView>(
    r: core::result::Result<T, String>,
    want: core::result::Result<T::V, Seq<char>>,
) -> bool {
    match (r, want) {
        (Ok(v), Ok(w)) => v.deep_view() == w,
        (Err(e), Err(m)) => e@ == m,
        _ => false,
    }
}

/// The text of the error that `String::from_utf8` gives for bytes that are not UTF-8.
pub uninterp spec fn utf8_error_text(bytes: Seq<u8>) -> Seq<char>;

/// `String::from_utf8`: the characters that the bytes encode, or, where they are
/// not UTF-8, the text of the error.
#[verifier::external_body]
pub(crate) fn string_from_utf8(b: Bytes) -> (r: core::result::Result<String, String>)
    ensures
        match r {
            Ok(s) => valid_utf8(b@.bytes) && s@ == decode_utf8(b@.bytes),
            Err(t) => !valid_utf8(b@.bytes) && t@ == utf8_error_text(b@.bytes),
        },
{
    String::from_utf8(b.to_vec()).map_err(|e| e.to_string())
}

/// The digit `d` in bases up to sixteen.
pub open spec fn digit(d: int) -> char {
    if d < 10 {
        (48 + d) as char
    } else {
        (87 + d) as char
    }
}

/// The digits of `v` in the given base, without leading zeros.
pub open spec fn digits(v: nat, base: nat) -> Seq<char>
    decreases v,
{
    if base < 2 || v < base {
        seq![digit(v as int)]
    } else {
        proof {
            assert(v / base < v) by (nonlinear_arith)
                requires
                    v >= base,
                    base >= 2,
            ;
        }
        digits(v / base, base).push(digit((v % base) as int))
    }
}

/// The decimal writing of a number, with a minus sign where it is negative.
pub open spec fn decimal(v: int) -> Seq<char> {
    if v < 0 {
        seq!['-'] + digits((-v) as nat, 10)
    } else {
        digits(v as nat, 10)
    }
}

/// The hexadecimal writing of a number, with the prefix `0x`.
pub open spec fn hexadecimal(v: nat) -> Seq<char> {
    "0x"@ + digits(v, 16)
}

pub(crate) fn digit_str(d: u8) -> (s: &'static str)
    requires
        d < 16,
    ensures
        s@ == seq![digit(d as int)],
{
    proof {
        reveal_strlit("0");
        reveal_strlit("1");
        reveal_strlit("2");
        reveal_strlit("3");
        reveal_strlit("4");
        reveal_strlit("5");
        reveal_strlit("6");
        reveal_strlit("7");
        reveal_strlit("8");
        reveal_strlit("9");
        reveal_strlit("a");
        reveal_strlit("b");
        reveal_strlit("c");
        reveal_strlit("d");
        reveal_strlit("e");
        reveal_strlit("f");
    }
    match d {
        0 => "0",
        1 => "1",
        2 => "2",
        3 => "3",
        4 => "4",
        5 => "5",
        6 => "6",
        7 => "7",
        8 => "8",
        9 => "9",
        10 => "a",
        11 => "b",
        12 => "c",
        13 => "d",
        14 => "e",
        _ => "f",
    }
}

fn push_digits(s: &mut String, v: u64, base: u64)
    requires
        2 <= base <= 16,
    ensures
        final(s)@ == old(s)@ + digits(v as nat, base as nat),
    decreases v,
{
    assert(v % base < base) by (nonlinear_arith)
        requires
            base >= 2,
    ;
    if v >= base {
        assert(v / base < v) by (nonlinear_arith)
            requires
                v >= base,
                base >= 2,
        ;
        push_digits(s, v / base, base);
    } else {
        assert(v % base == v) by (nonlinear_arith)
            requires
                v < base,
        ;
    }
    s.append(digit_str((v % base) as u8));
    assert(s@ =~= old(s)@ + digits(v as nat, base as nat));
}

/// Appends the decimal writing of `v`.
pub fn push_decimal(s: &mut String, v: i64)
    ensures
        final(s)@ == old(s)@ + decimal(v as int),
{
    if v < 0 {
        s.append("-");
        proof {
            reveal_strlit("-");
            assert("-"@ =~= seq!['-']);
        }
        let m: u64 = if v == i64::MIN {
            9223372036854775808
        } else {
            (-v) as u64
        };
        push_digits(s, m, 10);
        assert(s@ =~= old(s)@ + decimal(v as int));
    } else {
        push_digits(s, v as u64, 10);
    }
}

/// Appends the hexadecimal writing of `v`, with the prefix `0x`.
pub fn push_hex(s: &mut String, v: u32)
    ensures
        final(s)@ == old(s)@ + hexadecimal(v as nat),
{
    s.append("0x");
    push_digits(s, v as u64, 16);
    assert(s@ =~= old(s)@ + hexadecimal(v as nat));
}

/// The text `a` followed by the text `b`.
pub fn concat(a: &str, b: &str) -> (s: String)
    ensures
        s@ == a@ + b@,
{
    let mut s = a.to_owned();
    s.append(b);
    s
}

/// The text `a` followed by the decimal writing of `v`.
pub fn concat_decimal(a: &str, v: i64) -> (s: String)
    ensures
        s@ == a@ + decimal(v as int),
{
    let mut s = a.to_owned();
    push_decimal(&mut s, v);
    s
}

/// Whether `a` comes before `b` when their bytes are compared one by one.
pub open spec fn bytes_before(a: Seq<u8>, b: Seq<u8>) -> bool
    decreases a.len(),
{
    if b.len() == 0 {
        false
    } else if a.len() == 0 {
        true
    } else if a[0] == b[0] {
        bytes_before(a.skip(1), b.skip(1))
    } else {
        a[0] < b[0]
    }
}

/// Whether the string `a` comes before the string `b` in the order of their bytes.
pub open spec fn before(a: Seq<char>, b: Seq<char>) -> bool {
    bytes_before(encode_utf8(a), encode_utf8(b))
}

/// Whether the string `a` comes before the string `b` in the order of their bytes.
pub fn str_before(a: &str, b: &str) -> (r: bool)
    ensures
        r == before(a@, b@),
{
    let x = a.as_bytes();
    let y = b.as_bytes();
    let mut i: usize = 0;
    assert(x@.skip(0) =~= x@ && y@.skip(0) =~= y@);
    while i < x.len() && i < y.len()
        invariant
            i <= x@.len(),
            i <= y@.len(),
            x@ == encode_utf8(a@),
            y@ == encode_utf8(b@),
            bytes_before(x@, y@) == bytes_before(x@.skip(i as int), y@.skip(i as int)),
        decreases x@.len() - i,
    {
        assert(x@.skip(i as int).skip(1) =~= x@.skip(i + 1));
        assert(y@.skip(i as int).skip(1) =~= y@.skip(i + 1));
        if x[i] != y[i] {
            return x[i] < y[i];
        }
        i += 1;
    }
    i < y.len()
}

/// An ASCII letter as a small one, any other byte as it is.
pub open spec fn small(b: u8) -> u8 {
    if 65 <= b <= 90 {
        (b + 32) as u8
    } else {
        b
    }
}

/// Whether two strings are the same but for the case of ASCII letters.
pub open spec fn alike(a: Seq<char>, b: Seq<char>) -> bool {
    encode_utf8(a).map_values(|x: u8| small(x)) == encode_utf8(b).map_values(|x: u8| small(x))
}

fn make_small(b: u8) -> (r: u8)
    ensures
        r == small(b),
{
    if 65 <= b && b <= 90 {
        b + 32
    } else {
        b
    }
}

/// Whether two strings are the same but for the case of ASCII letters.
pub fn same_but_case(a: &str, b: &str) -> (r: bool)
    ensures
        r == alike(a@, b@),
{
    let x = a.as_bytes();
    let y = b.as_bytes();
    let ghost p = x@.map_values(|x: u8| small(x));
    let ghost q = y@.map_values(|x: u8| small(x));
    if x.len() != y.len() {
        assert(p.len() != q.len());
        return false;
    }
    let mut i: usize = 0;
    while i < x.len()
        invariant
            i <= x@.len(),
            x@.len() == y@.len(),
            x@ == encode_utf8(a@),
            y@ == encode_utf8(b@),
            p == x@.map_values(|x: u8| small(x)),
            q == y@.map_values(|x: u8| small(x)),
            forall|j: int| 0 <= j < i ==> p[j] == q[j],
        decreases x@.len() - i,
    {
        if make_small(x[i]) != make_small(y[i]) {
            assert(p[i as int] != q[i as int]);
            return false;
        }
        i += 1;
    }
    assert(p =~= q);
    true
}

proof fn lemma_bytes_before(a: Seq<u8>, b: Seq<u8>, c: Seq<u8>)
    ensures
        !bytes_before(a, a),
        bytes_before(a, b) ==> !bytes_before(b, a),
        bytes_before(a, b) && bytes_before(b, c) ==> bytes_before(a, c),
        a != b ==> bytes_before(a, b) || bytes_before(b, a),
    decreases a.len() + b.len() + c.len(),
{
    if a.len() > 0 && b.len() > 0 && c.len() > 0 {
        lemma_bytes_before(a.skip(1), b.skip(1), c.skip(1));
        if a[0] == b[0] && a.skip(1) == b.skip(1) {
            assert(a =~= seq![a[0]] + a.skip(1));
            assert(b =~= seq![b[0]] + b.skip(1));
        }
    } else if a.len() > 0 && b.len() > 0 {
        lemma_bytes_before(a.skip(1), b.skip(1), c);
        if a[0] == b[0] && a.skip(1) == b.skip(1) {
            assert(a =~= seq![a[0]] + a.skip(1));
            assert(b =~= seq![b[0]] + b.skip(1));
        }
    } else if a.len() > 0 {
        lemma_bytes_before(a.skip(1), b, c);
    } else if b.len() == 0 {
        assert(a =~= b);
    }
}

/// Strings are in a strict total order.
pub proof fn law_before(a: Seq<char>, b: Seq<char>, c: Seq<char>)
    ensures
        !before(a, a),
        before(a, b) ==> !before(b, a),
        before(a, b) && before(b, c) ==> before(a, c),
        a != b ==> before(a, b) || before(b, a),
{
    lemma_bytes_before(encode_utf8(a), encode_utf8(b), encode_utf8(c));
    if encode_utf8(a) == encode_utf8(b) {
        encode_utf8_decode_utf8(a);
        encode_utf8_decode_utf8(b);
    }
}

/// The number that decimal digits stand for.
pub open spec fn number_of(s: Seq<char>) -> int
    decreases s.len(),
{
    if s.len() == 0 {
        0
    } else {
        number_of(s.drop_last()) * 10 + (s.last() as u32 as int - 48)
    }
}

/// A number is written in decimal digits that stand for it.
pub proof fn law_decimal(v: nat)
    ensures
        number_of(decimal(v as int)) == v,
        decimal(v as int).len() > 0,
        forall|i: int|
            0 <= i < decimal(v as int).len() ==> '0' <= #[trigger] decimal(v as int)[i] <= '9',
    decreases v,
{
    let d = digits(v, 10);
    if v < 10 {
        assert(d.drop_last() =~= Seq::empty());
        assert(number_of(d.drop_last()) == 0);
        assert(d.last() == (48 + v) as char);
        assert(d.last() as u32 as int == 48 + v);
    } else {
        law_decimal(v / 10);
        let init = digits(v / 10, 10);
        let last = digit((v % 10) as int);
        assert(d == init.push(last));
        assert(d.drop_last() =~= init);
        assert(last as u32 as int == 48 + v % 10);
        assert forall|i: int| 0 <= i < d.len() implies '0' <= #[trigger] d[i] <= '9' by {
            if i < init.len() {
                assert(d[i] == decimal((v / 10) as int)[i]);
            }
        }
    }
}

} // verus!
