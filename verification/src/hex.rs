//! Sixteen bytes as text: two hexadecimal digits each.

use vstd::prelude::*;
use vstd::string::*;
use vstd::utf8::*;

use crate::text;

verus! {

/// The digits of the bytes `b`, two for each.
pub open spec fn hex_of(b: Seq<u8>) -> Seq<char>
    decreases b.len(),
{
    if b.len() == 0 {
        Seq::empty()
    } else {
        hex_of(b.drop_last()).push(text::digit(b.last() as int / 16)).push(
            text::digit(b.last() as int % 16),
        )
    }
}

/// The value of the digit with the code `c`, in lower or upper case.
pub open spec fn digit_value(c: u8) -> Option<u8> {
    if 48 <= c <= 57 {
        Some((c - 48) as u8)
    } else if 97 <= c <= 102 {
        Some((c - 87) as u8)
    } else if 65 <= c <= 70 {
        Some((c - 55) as u8)
    } else {
        None
    }
}

/// Whether every byte of `b` is the code of a digit.
pub open spec fn all_digits(b: Seq<u8>) -> bool {
    forall|i: int| 0 <= i < b.len() ==> digit_value(#[trigger] b[i]) is Some
}

/// The sixteen bytes that 32 digits stand for.
pub open spec fn unhex(b: Seq<u8>) -> Option<Seq<u8>> {
    if b.len() == 32 && all_digits(b) {
        Some(
            Seq::new(
                16,
                |i: int|
                    (digit_value(b[2 * i])->Some_0 * 16 + digit_value(b[2 * i + 1])->Some_0) as u8,
            ),
        )
    } else {
        None
    }
}

/// The digits of sixteen bytes.
pub fn encode(bytes: &[u8; 16]) -> (s: String)
    ensures
        s@ == hex_of(bytes@),
{
    let mut s = String::new();
    let mut i: usize = 0;
    assert(bytes@.take(0).len() == 0);
    while i < 16
        invariant
            i <= 16,
            s@ == hex_of(bytes@.take(i as int)),
        decreases 16 - i,
    {
        let ghost before = s@;
        let ghost t = bytes@.take(i + 1);
        assert(t.drop_last() =~= bytes@.take(i as int));
        assert(t.last() == bytes@[i as int]);
        s.append(text::digit_str(bytes[i] / 16));
        s.append(text::digit_str(bytes[i] % 16));
        assert(s@ =~= hex_of(t));
        i += 1;
    }
    assert(bytes@.take(16) =~= bytes@);
    s
}

/// The value of the digit with the code `c`.
fn from_hex(c: u8) -> (r: Option<u8>)
    ensures
        r == digit_value(c),
        r matches Some(v) ==> v < 16,
{
    if 48 <= c && c <= 57 {
        Some(c - 48)
    } else if 97 <= c && c <= 102 {
        Some(c - 87)
    } else if 65 <= c && c <= 70 {
        Some(c - 55)
    } else {
        None
    }
}

/// The sixteen bytes that 32 digits stand for; anything else stands for none.
pub fn decode_16(s: &str) -> (r: Option<[u8; 16]>)
    ensures
        match (r, unhex(encode_utf8(s@))) {
            (Some(u), Some(w)) => u@ == w,
            (None, None) => true,
            _ => false,
        },
{
    let bytes = s.as_bytes();
    if bytes.len() != 32 {
        return None;
    }
    let mut out: [u8; 16] = [0, 0, 0, 0, 0, 0, 0, 0, 0, 0, 0, 0, 0, 0, 0, 0];
    let mut i: usize = 0;
    while i < 16
        invariant
            i <= 16,
            bytes@ == encode_utf8(s@),
            bytes@.len() == 32,
            forall|j: int| 0 <= j < 2 * i ==> digit_value(#[trigger] bytes@[j]) is Some,
            forall|j: int|
                0 <= j < i ==> #[trigger] out@[j] == (digit_value(bytes@[2 * j])->Some_0 * 16
                    + digit_value(bytes@[2 * j + 1])->Some_0) as u8,
        decreases 16 - i,
    {
        let hi: u8 = match from_hex(bytes[i * 2]) {
            Some(v) => v,
            None => return None,
        };
        let lo: u8 = match from_hex(bytes[i * 2 + 1]) {
            Some(v) => v,
            None => return None,
        };
        out[i] = hi * 16 + lo;
        i += 1;
    }
    assert(out@ =~= unhex(bytes@)->Some_0);
    Some(out)
}

proof fn lemma_digit(d: int)
    requires
        0 <= d < 16,
    ensures
        digit_value(text::digit(d) as u8) == Some(d as u8),
        (text::digit(d) as u32) < 128,
{
}

proof fn lemma_hex_of(b: Seq<u8>)
    ensures
        hex_of(b).len() == 2 * b.len(),
        forall|i: int|
            0 <= i < b.len() ==> #[trigger] hex_of(b)[2 * i] == text::digit(b[i] as int / 16)
                && hex_of(b)[2 * i + 1] == text::digit(b[i] as int % 16),
        is_ascii_chars(hex_of(b)),
    decreases b.len(),
{
    if b.len() > 0 {
        let init = b.drop_last();
        lemma_hex_of(init);
        lemma_digit(b.last() as int / 16);
        lemma_digit(b.last() as int % 16);
        let h = hex_of(b);
        assert forall|i: int| 0 <= i < b.len() implies #[trigger] h[2 * i] == text::digit(
            b[i] as int / 16,
        ) && h[2 * i + 1] == text::digit(b[i] as int % 16) by {
            if i < b.len() - 1 {
                assert(init[i] == b[i]);
                assert(h[2 * i] == hex_of(init)[2 * i]);
                assert(h[2 * i + 1] == hex_of(init)[2 * i + 1]);
            }
        }
        assert(is_ascii_chars(h));
    }
}

/// A character in lower case, where it is one of the letters of ASCII.
pub open spec fn lower(c: char) -> char {
    if 'A' <= c && c <= 'Z' {
        (c as u8 + 32) as char
    } else {
        c
    }
}

/// Text whose bytes are those of ASCII characters is made of these characters.
proof fn lemma_ascii(s: Seq<char>)
    requires
        forall|i: int| 0 <= i < encode_utf8(s).len() ==> #[trigger] encode_utf8(s)[i] < 128,
    ensures
        s == Seq::new(encode_utf8(s).len(), |i: int| encode_utf8(s)[i] as char),
{
    let b = encode_utf8(s);
    let t = Seq::new(b.len(), |i: int| b[i] as char);
    assert forall|i: int| 0 <= i < t.len() implies '\0' <= #[trigger] t[i] <= '\u{7f}' by {
        assert(b[i] < 128);
    }
    is_ascii_chars_encode_utf8(t);
    assert(encode_utf8(t) =~= b) by {
        assert forall|i: int| 0 <= i < b.len() implies encode_utf8(t)[i] == b[i] by {
            assert(b[i] < 128);
            assert(t[i] as u8 == b[i]);
        }
    }
    encode_utf8_decode_utf8(s);
    encode_utf8_decode_utf8(t);
}

/// What was read from digits is written as the same digits, in lower case.
pub proof fn law_unhex(s: Seq<char>, u: Seq<u8>)
    requires
        unhex(encode_utf8(s)) == Some(u),
    ensures
        hex_of(u) == s.map_values(|c: char| lower(c)),
{
    let b = encode_utf8(s);
    assert forall|i: int| 0 <= i < b.len() implies #[trigger] b[i] < 128 by {
        assert(digit_value(b[i]) is Some);
    }
    lemma_ascii(s);
    lemma_hex_of(u);
    let h = hex_of(u);
    let l = s.map_values(|c: char| lower(c));
    assert forall|i: int| 0 <= i < 32 implies h[i] == l[i] by {
        let k = i / 2;
        assert(digit_value(b[2 * k]) is Some && digit_value(b[2 * k + 1]) is Some);
        let x = digit_value(b[2 * k])->Some_0;
        let y = digit_value(b[2 * k + 1])->Some_0;
        assert(u[k] == x * 16 + y);
        assert(u[k] as int / 16 == x && u[k] as int % 16 == y);
        assert(h[2 * k] == text::digit(u[k] as int / 16));
        assert(s[i] == b[i] as char);
        assert(i == 2 * k || i == 2 * k + 1);
    }
    assert(h =~= l);
}

/// What is written as digits is read back.
pub proof fn law_hex(u: Seq<u8>)
    requires
        u.len() == 16,
    ensures
        unhex(encode_utf8(hex_of(u))) == Some(u),
{
    lemma_hex_of(u);
    let h = hex_of(u);
    is_ascii_chars_encode_utf8(h);
    let b = encode_utf8(h);
    assert forall|i: int| 0 <= i < b.len() implies digit_value(#[trigger] b[i]) is Some by {
        let k = i / 2;
        assert(h[2 * k] == text::digit(u[k] as int / 16));
        lemma_digit(u[k] as int / 16);
        lemma_digit(u[k] as int % 16);
        assert(i == 2 * k || i == 2 * k + 1);
    }
    let w = unhex(b)->Some_0;
    assert forall|i: int| 0 <= i < 16 implies w[i] == u[i] by {
        assert(h[2 * i] == text::digit(u[i] as int / 16));
        lemma_digit(u[i] as int / 16);
        lemma_digit(u[i] as int % 16);
    }
    assert(w =~= u);
}

} // verus!
