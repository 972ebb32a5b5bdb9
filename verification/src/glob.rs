//! Patterns in which `*` stands for any sequence of bytes.

use vstd::prelude::*;
use vstd::utf8::encode_utf8;

verus! {

/// The byte `*`.
pub const STAR: u8 = 42;

/// Whether the pattern `p` matches the whole of `s`: `*` matches any sequence, every
/// other byte matches itself.
pub open spec fn glob(p: Seq<u8>, s: Seq<u8>) -> bool
    decreases p.len() + s.len(),
{
    if p.len() == 0 {
        s.len() == 0
    } else if p[0] == STAR {
        glob(p.skip(1), s) || (s.len() > 0 && glob(p, s.skip(1)))
    } else {
        s.len() > 0 && p[0] == s[0] && glob(p.skip(1), s.skip(1))
    }
}

/// Whether the pattern `p` matches the whole of `s`, character by character: `*` matches
/// any sequence of characters, every other character matches itself.
pub open spec fn char_glob(p: Seq<char>, s: Seq<char>) -> bool
    decreases p.len() + s.len(),
{
    if p.len() == 0 {
        s.len() == 0
    } else if p[0] == '*' {
        char_glob(p.skip(1), s) || (s.len() > 0 && char_glob(p, s.skip(1)))
    } else {
        s.len() > 0 && p[0] == s[0] && char_glob(p.skip(1), s.skip(1))
    }
}

/// Whether `p` holds no `*`.
pub open spec fn literal(p: Seq<u8>) -> bool {
    forall|i: int| 0 <= i < p.len() ==> #[trigger] p[i] != STAR
}

/// A star swallows what is in front.
proof fn lemma_star_swallows(p: Seq<u8>, s: Seq<u8>, k: int)
    requires
        p.len() > 0,
        p[0] == STAR,
        0 <= k <= s.len(),
        glob(p, s.skip(k)),
    ensures
        glob(p, s),
    decreases k,
{
    if k > 0 {
        assert(s.skip(1).skip(k - 1) =~= s.skip(k));
        lemma_star_swallows(p, s.skip(1), k - 1);
    } else {
        assert(s.skip(0) =~= s);
    }
}

/// What a star matched.
proof fn lemma_star_end(p: Seq<u8>, s: Seq<u8>) -> (k: int)
    requires
        p.len() > 0,
        p[0] == STAR,
        glob(p, s),
    ensures
        0 <= k <= s.len(),
        glob(p.skip(1), s.skip(k)),
    decreases s.len(),
{
    if glob(p.skip(1), s) {
        assert(s.skip(0) =~= s);
        0
    } else {
        let k = lemma_star_end(p, s.skip(1));
        assert(s.skip(1).skip(k) =~= s.skip(k + 1));
        k + 1
    }
}

/// A pattern that begins with bytes that stand for themselves.
proof fn lemma_literal(l: Seq<u8>, p: Seq<u8>, s: Seq<u8>)
    requires
        literal(l),
    ensures
        glob(l + p, s) <==> (s.len() >= l.len() && s.take(l.len() as int) == l && glob(
            p,
            s.skip(l.len() as int),
        )),
    decreases l.len(),
{
    if l.len() == 0 {
        assert(l + p =~= p);
        assert(s.skip(0) =~= s);
        assert(s.take(0) =~= l);
    } else {
        let q = l + p;
        assert(q[0] == l[0]);
        assert(q.skip(1) =~= l.skip(1) + p);
        assert(literal(l.skip(1))) by {
            assert forall|i: int| 0 <= i < l.skip(1).len() implies #[trigger] l.skip(1)[i]
                != STAR by {
                assert(l.skip(1)[i] == l[i + 1]);
            }
        }
        lemma_literal(l.skip(1), p, s.skip(1));
        if s.len() > 0 {
            if s.len() >= l.len() {
                assert(s.skip(1).skip(l.len() - 1) =~= s.skip(l.len() as int));
                let t = s.take(l.len() as int);
                let u = s.skip(1).take(l.len() - 1);
                assert(t.skip(1) =~= u);
                if t == l {
                    assert(s[0] == t[0]);
                    assert(u =~= l.skip(1));
                }
                if s[0] == l[0] && u == l.skip(1) {
                    assert forall|i: int| 0 <= i < l.len() implies t[i] == l[i] by {
                        if i > 0 {
                            assert(t[i] == u[i - 1]);
                            assert(l.skip(1)[i - 1] == l[i]);
                        }
                    }
                    assert(t =~= l);
                }
            }
        }
    }
}

/// A star, then bytes that stand for themselves and lie in front, then another star:
/// it is enough to go on behind them.
proof fn lemma_next_star(l: Seq<u8>, r: Seq<u8>, t: Seq<u8>)
    requires
        literal(l),
        r.len() > 0,
        r[0] == STAR,
        t.len() >= l.len(),
        t.take(l.len() as int) == l,
    ensures
        glob(seq![STAR] + (l + r), t) <==> glob(r, t.skip(l.len() as int)),
{
    let p = seq![STAR] + (l + r);
    assert(p.skip(1) =~= l + r);
    let n = l.len() as int;
    if glob(r, t.skip(n)) {
        lemma_literal(l, r, t);
        assert(glob(p.skip(1), t));
    }
    if glob(p, t) {
        let k = lemma_star_end(p, t);
        lemma_literal(l, r, t.skip(k));
        assert(t.skip(k).skip(n) =~= t.skip(n).skip(k));
        lemma_star_swallows(r, t.skip(n), k);
    }
}

/// A star, then bytes that stand for themselves and lie in front, then something that
/// does not match: the star takes one byte more.
proof fn lemma_star_moves(l: Seq<u8>, r: Seq<u8>, t: Seq<u8>)
    requires
        literal(l),
        t.len() > l.len(),
        t.take(l.len() as int) == l,
        r.len() == 0 || (r[0] != STAR && r[0] != t[l.len() as int]),
    ensures
        glob(seq![STAR] + (l + r), t) <==> glob(seq![STAR] + (l + r), t.skip(1)),
{
    let p = seq![STAR] + (l + r);
    assert(p.skip(1) =~= l + r);
    lemma_literal(l, r, t);
    assert(t.skip(l.len() as int)[0] == t[l.len() as int]);
    assert(!glob(r, t.skip(l.len() as int)));
}

/// A star, then bytes that stand for themselves and are all that is left.
proof fn lemma_star_last(l: Seq<u8>, r: Seq<u8>, t: Seq<u8>)
    requires
        literal(l),
        t == l,
    ensures
        glob(seq![STAR] + (l + r), t) <==> glob(r, Seq::empty()),
{
    let p = seq![STAR] + (l + r);
    assert(p.skip(1) =~= l + r);
    let n = l.len() as int;
    lemma_literal(l, r, t);
    assert(t.take(n) =~= l);
    assert(t.skip(n) =~= Seq::<u8>::empty());
    if glob(p, t) {
        let k = lemma_star_end(p, t);
        lemma_literal(l, r, t.skip(k));
        assert(t.skip(k).len() == t.len() - k);
        assert(k == 0);
        assert(t.skip(0) =~= t);
    }
}

/// Whether the pattern `pat` matches the whole of `s`.
pub fn matches(pat: &[u8], s: &[u8]) -> (b: bool)
    ensures
        b == glob(pat@, s@),
{
    let mut pi: usize = 0;
    let mut si: usize = 0;
    let mut starred = false;
    let mut star_pi: usize = 0;
    let mut star_si: usize = 0;
    let ghost p = pat@;
    let ghost t = s@;
    proof {
        assert(p.skip(0) =~= p);
        assert(t.skip(0) =~= t);
    }
    while si < s.len()
        invariant
            p == pat@,
            t == s@,
            pi <= p.len(),
            si <= t.len(),
            star_si <= si,
            !starred ==> star_si == 0,
            !starred ==> glob(p, t) == glob(p.skip(pi as int), t.skip(si as int)),
            starred ==> {
                &&& star_pi < pi
                &&& p[star_pi as int] == STAR
                &&& pi - star_pi - 1 == si - star_si
                &&& literal(p.subrange(star_pi + 1, pi as int))
                &&& p.subrange(star_pi + 1, pi as int) == t.subrange(star_si as int, si as int)
                &&& glob(p, t) == glob(p.skip(star_pi as int), t.skip(star_si as int))
            },
        decreases
                (if starred {
                    p.len() - star_pi
                } else {
                    p.len() as int + 1
                }),
                t.len() - star_si,
                t.len() - si,
    {
        let ghost l = p.subrange(star_pi + 1, pi as int);
        let ghost r = p.skip(pi as int);
        let ghost u = t.skip(star_si as int);
        proof {
            if starred {
                assert(p.skip(star_pi as int) =~= seq![STAR] + (l + r));
                assert(u.take(l.len() as int) =~= l);
                assert(u.skip(l.len() as int) =~= t.skip(si as int));
                assert(u[l.len() as int] == t[si as int]);
            }
        }
        if pi < pat.len() && pat[pi] == STAR {
            proof {
                assert(r[0] == STAR);
                if starred {
                    lemma_next_star(l, r, u);
                }
                assert(p.subrange(pi + 1, pi + 1) =~= Seq::<u8>::empty());
                assert(t.subrange(si as int, si as int) =~= Seq::<u8>::empty());
            }
            starred = true;
            star_pi = pi;
            star_si = si;
            pi = pi + 1;
        } else if pi < pat.len() && pat[pi] == s[si] {
            proof {
                if starred {
                    let l2 = p.subrange(star_pi + 1, pi + 1);
                    assert(l2 =~= l.push(p[pi as int]));
                    assert(literal(l2)) by {
                        assert forall|i: int| 0 <= i < l2.len() implies #[trigger] l2[i]
                            != STAR by {
                            if i < l.len() {
                                assert(l2[i] == l[i]);
                            }
                        }
                    }
                    assert(t.subrange(star_si as int, si + 1) =~= t.subrange(
                        star_si as int,
                        si as int,
                    ).push(t[si as int]));
                } else {
                    assert(r[0] == p[pi as int]);
                    assert(t.skip(si as int)[0] == t[si as int]);
                    assert(r.skip(1) =~= p.skip(pi + 1));
                    assert(t.skip(si as int).skip(1) =~= t.skip(si + 1));
                }
            }
            pi = pi + 1;
            si = si + 1;
        } else if starred {
            proof {
                if pi < p.len() {
                    assert(r[0] == p[pi as int]);
                }
                lemma_star_moves(l, r, u);
                assert(u.skip(1) =~= t.skip(star_si + 1));
                assert(p.subrange(star_pi + 1, star_pi + 1) =~= Seq::<u8>::empty());
                assert(t.subrange(star_si + 1, star_si + 1) =~= Seq::<u8>::empty());
            }
            pi = star_pi + 1;
            star_si = star_si + 1;
            si = star_si;
        } else {
            proof {
                if pi < p.len() {
                    assert(r[0] == p[pi as int]);
                    assert(t.skip(si as int)[0] == t[si as int]);
                }
            }
            return false;
        }
    }
    proof {
        let l = p.subrange(star_pi + 1, pi as int);
        let r = p.skip(pi as int);
        assert(t.skip(si as int) =~= Seq::<u8>::empty());
        if starred {
            let u = t.skip(star_si as int);
            assert(p.skip(star_pi as int) =~= seq![STAR] + (l + r));
            assert(u =~= l);
            lemma_star_last(l, r, u);
        }
        assert(glob(p, t) == glob(r, Seq::empty()));
    }
    while pi < pat.len() && pat[pi] == STAR
        invariant
            p == pat@,
            pi <= p.len(),
            glob(p, t) == glob(p.skip(pi as int), Seq::empty()),
        decreases p.len() - pi,
    {
        proof {
            let r = p.skip(pi as int);
            assert(r[0] == STAR);
            assert(r.skip(1) =~= p.skip(pi + 1));
        }
        pi = pi + 1;
    }
    proof {
        let r = p.skip(pi as int);
        if pi < p.len() {
            assert(r[0] == p[pi as int]);
        }
    }
    pi == pat.len()
}

/// A star alone matches everything; a pattern without a star matches itself only.
pub proof fn law_glob(p: Seq<u8>, s: Seq<u8>)
    ensures
        glob(seq![STAR], s),
        literal(p) ==> (glob(p, s) <==> p == s),
{
    let star = seq![STAR];
    assert(glob(star.skip(1), s.skip(s.len() as int)));
    assert(star.skip(1).len() == 0);
    assert(glob(star, s.skip(s.len() as int)));
    lemma_star_swallows(star, s, s.len() as int);
    if literal(p) {
        lemma_literal(p, Seq::empty(), s);
        assert(p + Seq::<u8>::empty() =~= p);
        if s.len() == p.len() {
            assert(s.take(p.len() as int) =~= s);
        }
    }
}

/// A star between two patterns matches anything between what they match.
pub proof fn law_glob_star(p: Seq<u8>, a: Seq<u8>, m: Seq<u8>, q: Seq<u8>, b: Seq<u8>)
    requires
        literal(p),
        p == a,
        glob(q, b),
    ensures
        glob(p + (seq![STAR] + q), a + (m + b)),
{
    let s = a + (m + b);
    let sq = seq![STAR] + q;
    lemma_literal(p, sq, s);
    assert(s.take(p.len() as int) =~= p);
    assert(s.skip(p.len() as int) =~= m + b);
    assert(sq.skip(1) =~= q);
    assert((m + b).skip(m.len() as int) =~= b);
    assert(glob(sq, b));
    lemma_star_swallows(sq, m + b, m.len() as int);
}

/// Whether a byte continues a character that began before it.
spec fn continues(b: u8) -> bool {
    0x80 <= b <= 0xbf
}

/// The bytes of one character.
spec fn char_bytes(c: char) -> Seq<u8> {
    vstd::utf8::encode_scalar(c as u32)
}

/// The bytes of a character of one byte are that byte; those of every other lie above the
/// characters of one byte, and only the first does not continue another.
proof fn lemma_char_bytes(c: char)
    ensures
        1 <= char_bytes(c).len() <= 4,
        !continues(char_bytes(c)[0]),
        forall|i: int| 1 <= i < char_bytes(c).len() ==> continues(#[trigger] char_bytes(c)[i]),
        c == '*' ==> char_bytes(c) == seq![STAR],
        c != '*' ==> literal(char_bytes(c)),
{
    let one = seq![c];
    assert(one.drop_first() =~= Seq::<char>::empty());
    assert(encode_utf8(one.drop_first()) =~= Seq::<u8>::empty());
    assert(encode_utf8(one) =~= char_bytes(c));
    vstd::utf8::encode_utf8_first_scalar(one);
    vstd::utf8::char_is_scalar(c);
    let v = c as u32;
    let b = char_bytes(c);
    assert(vstd::utf8::valid_first_scalar(b));
    assert(v < 0x80 ==> (v & 0x7f) == v) by (bit_vector);
    if v < 0x80 {
        assert(b[0] as u32 == v);
        assert(b =~= seq![v as u8]);
        if c != '*' {
            vstd::utf8::char_u32_cast(c, v);
            vstd::utf8::char_u32_cast('*', 42u32);
            assert(v != 42);
        }
    }
}

/// Two characters that begin two texts, when the bytes of the first lie in front of the
/// bytes of the second text.
proof fn lemma_first_char(c: char, s: Seq<char>)
    requires
        s.len() > 0,
        encode_utf8(s).len() >= char_bytes(c).len(),
        encode_utf8(s).take(char_bytes(c).len() as int) == char_bytes(c),
    ensures
        c == s[0],
{
    let one = seq![c];
    let b = char_bytes(c);
    let t = encode_utf8(s);
    let n = b.len() as int;
    assert(one.drop_first() =~= Seq::<char>::empty());
    assert(encode_utf8(one.drop_first()) =~= Seq::<u8>::empty());
    assert(encode_utf8(one) =~= b);
    vstd::utf8::encode_utf8_first_scalar(one);
    vstd::utf8::encode_utf8_first_scalar(s);
    lemma_char_bytes(c);
    assert forall|i: int| 0 <= i < n implies t[i] == b[i] by {
        assert(t.take(n)[i] == t[i]);
    }
    assert(vstd::utf8::decode_first_scalar(t) == vstd::utf8::decode_first_scalar(b));
    vstd::utf8::char_u32_cast(c, c as u32);
    vstd::utf8::char_u32_cast(s[0], c as u32);
}

/// The bytes of a text that is not empty.
proof fn lemma_text_bytes(s: Seq<char>)
    requires
        s.len() > 0,
    ensures
        encode_utf8(s) == char_bytes(s[0]) + encode_utf8(s.skip(1)),
        encode_utf8(s).skip(char_bytes(s[0]).len() as int) == encode_utf8(s.skip(1)),
        encode_utf8(s).take(char_bytes(s[0]).len() as int) == char_bytes(s[0]),
        encode_utf8(s).len() > 0,
        encode_utf8(s)[0] == char_bytes(s[0])[0],
{
    assert(s.drop_first() =~= s.skip(1));
    let b = char_bytes(s[0]);
    let r = encode_utf8(s.skip(1));
    lemma_char_bytes(s[0]);
    assert((b + r).skip(b.len() as int) =~= r);
    assert((b + r).take(b.len() as int) =~= b);
}

/// A pattern of whole characters that matches a text from within a character matches what
/// follows that character.
proof fn lemma_from_within(p: Seq<char>, c: Seq<u8>, rest: Seq<u8>)
    requires
        forall|i: int| 0 <= i < c.len() ==> continues(#[trigger] c[i]),
        glob(encode_utf8(p), c + rest),
    ensures
        glob(encode_utf8(p), rest),
    decreases p.len(),
{
    let t = c + rest;
    if c.len() == 0 {
        assert(t =~= rest);
    } else if p.len() > 0 {
        lemma_text_bytes(p);
        lemma_char_bytes(p[0]);
        let b = encode_utf8(p);
        if p[0] == '*' {
            assert(b.skip(1) == encode_utf8(p.skip(1)));
            let k = lemma_star_end(b, t);
            if k >= c.len() {
                assert(t.skip(k) =~= rest.skip(k - c.len()));
                assert(glob(b, rest.skip(k - c.len())));
                lemma_star_swallows(b, rest, k - c.len());
            } else {
                let d = c.skip(k);
                assert(t.skip(k) =~= d + rest);
                assert forall|i: int| 0 <= i < d.len() implies continues(#[trigger] d[i]) by {
                    assert(d[i] == c[i + k]);
                }
                lemma_from_within(p.skip(1), d, rest);
                assert(glob(b, rest));
            }
        } else {
            assert(char_bytes(p[0])[0] != STAR);
            assert(t[0] == c[0]);
        }
    }
}

/// A pattern matches the bytes of a text exactly when it matches its characters: a star
/// never parts a character.
pub proof fn law_glob_chars(p: Seq<char>, s: Seq<char>)
    ensures
        glob(encode_utf8(p), encode_utf8(s)) <==> char_glob(p, s),
    decreases p.len() + s.len(),
{
    let b = encode_utf8(p);
    let t = encode_utf8(s);
    if s.len() > 0 {
        lemma_text_bytes(s);
        lemma_char_bytes(s[0]);
    }
    if p.len() > 0 {
        lemma_text_bytes(p);
        lemma_char_bytes(p[0]);
        let b1 = encode_utf8(p.skip(1));
        if p[0] == '*' {
            assert(b.skip(1) == b1);
            law_glob_chars(p.skip(1), s);
            if s.len() > 0 {
                let w = char_bytes(s[0]).len() as int;
                let t1 = encode_utf8(s.skip(1));
                law_glob_chars(p, s.skip(1));
                if glob(b, t1) {
                    lemma_star_swallows(b, t, w);
                }
                if glob(b, t) {
                    let k = lemma_star_end(b, t);
                    if k == 0 {
                        assert(t.skip(0) =~= t);
                    } else if k >= w {
                        assert(t.skip(k) =~= t1.skip(k - w));
                        assert(glob(b, t1.skip(k - w)));
                        lemma_star_swallows(b, t1, k - w);
                    } else {
                        let d = char_bytes(s[0]).skip(k);
                        assert(t.skip(k) =~= d + t1);
                        assert forall|i: int| 0 <= i < d.len() implies continues(
                            #[trigger] d[i],
                        ) by {
                            assert(d[i] == char_bytes(s[0])[i + k]);
                        }
                        lemma_from_within(p.skip(1), d, t1);
                        assert(glob(b, t1));
                    }
                }
            }
        } else {
            let c = char_bytes(p[0]);
            lemma_literal(c, b1, t);
            if s.len() > 0 {
                law_glob_chars(p.skip(1), s.skip(1));
                if t.len() >= c.len() && t.take(c.len() as int) == c {
                    lemma_first_char(p[0], s);
                }
            }
        }
    }
}

} // verus!
