//! Maps that keep their entries in the order of the keys.

use vstd::prelude::*;

use crate::text;

verus! {

/// Something that entries can be found by: values of it are in a strict total order.
pub trait Key: DeepView + Sized {
    /// Whether `a` comes before `b`.
    spec fn precedes(a: Self::V, b: Self::V) -> bool;

    /// The order is strict and total.
    proof fn order(a: Self::V, b: Self::V, c: Self::V)
        ensures
            !Self::precedes(a, a),
            Self::precedes(a, b) ==> !Self::precedes(b, a),
            Self::precedes(a, b) && Self::precedes(b, c) ==> Self::precedes(a, c),
            a != b ==> Self::precedes(a, b) || Self::precedes(b, a),
    ;

    /// Whether `self` comes before `other`.
    fn is_before(&self, other: &Self) -> (r: bool)
        ensures
            r == Self::precedes(self.deep_view(), other.deep_view()),
    ;
}

/// Something of which a second copy can be made.
pub trait Duplicate: DeepView + Sized {
    /// A copy that says the same.
    fn duplicate(&self) -> (r: Self)
        ensures
            r.deep_view() == self.deep_view(),
    ;
}

impl Duplicate for i32 {
    fn duplicate(&self) -> (r: i32) {
        *self
    }
}

impl Duplicate for String {
    fn duplicate(&self) -> (r: String) {
        self.clone()
    }
}

impl Key for i32 {
    open spec fn precedes(a: i32, b: i32) -> bool {
        a < b
    }

    proof fn order(a: i32, b: i32, c: i32) {
    }

    fn is_before(&self, other: &i32) -> (r: bool) {
        *self < *other
    }
}

impl Key for String {
    open spec fn precedes(a: Seq<char>, b: Seq<char>) -> bool {
        text::before(a, b)
    }

    proof fn order(a: Seq<char>, b: Seq<char>, c: Seq<char>) {
        text::law_before(a, b, c);
    }

    fn is_before(&self, other: &String) -> (r: bool) {
        text::str_before(self.as_str(), other.as_str())
    }
}

/// Whether the keys of `e` come in order, each of them once.
pub open spec fn sorted<K: Key, W>(e: Seq<(K::V, W)>) -> bool {
    forall|i: int, j: int|
        0 <= i < j < e.len() ==> K::precedes(#[trigger] e[i].0, #[trigger] e[j].0)
}

/// The map that the entries `e` stand for.
pub open spec fn map_of<A, B>(e: Seq<(A, B)>) -> Map<A, B>
    decreases e.len(),
{
    if e.len() == 0 {
        Map::empty()
    } else {
        map_of(e.drop_last()).insert(e.last().0, e.last().1)
    }
}

/// A map whose entries lie in the order of their keys.
#[derive(Debug)]
pub struct SortedMap<K: Key, W: DeepView> {
    entries: Vec<(K, W)>,
}

impl<K: Key, W: DeepView> DeepView for SortedMap<K, W> {
    type V = Map<K::V, W::V>;

    open spec fn deep_view(&self) -> Map<K::V, W::V> {
        map_of(self.pairs())
    }
}

pub proof fn lemma_map_of<K: Key, W>(e: Seq<(K::V, W)>)
    requires
        sorted::<K, W>(e),
    ensures
        map_of(e).dom().finite(),
        map_of(e).dom().len() == e.len(),
        forall|i: int|
            0 <= i < e.len() ==> map_of(e).dom().contains((#[trigger] e[i]).0) && map_of(e)[e[i].0]
                == e[i].1,
        forall|k: K::V|
            #[trigger] map_of(e).dom().contains(k) ==> exists|i: int|
                0 <= i < e.len() && (#[trigger] e[i]).0 == k,
    decreases e.len(),
{
    if e.len() > 0 {
        let init = e.drop_last();
        let last = e.len() - 1;
        assert forall|i: int, j: int| 0 <= i < j < init.len() implies K::precedes(
            #[trigger] init[i].0,
            #[trigger] init[j].0,
        ) by {
            assert(init[i] == e[i] && init[j] == e[j]);
        }
        lemma_map_of::<K, W>(init);
        assert(!map_of(init).dom().contains(e[last].0)) by {
            if map_of(init).dom().contains(e[last].0) {
                let i = choose|i: int| 0 <= i < init.len() && (#[trigger] init[i]).0 == e[last].0;
                assert(init[i] == e[i]);
                assert(K::precedes(e[i].0, e[last].0));
                K::order(e[last].0, e[last].0, e[last].0);
            }
        }
        assert forall|i: int| 0 <= i < e.len() implies map_of(e).dom().contains(
            (#[trigger] e[i]).0,
        ) && map_of(e)[e[i].0] == e[i].1 by {
            if i < last {
                assert(init[i] == e[i]);
            }
        }
        assert forall|k: K::V| #[trigger] map_of(e).dom().contains(k) implies exists|i: int|
            0 <= i < e.len() && (#[trigger] e[i]).0 == k by {
            if k != e[last].0 {
                let i = choose|i: int| 0 <= i < init.len() && (#[trigger] init[i]).0 == k;
                assert(init[i] == e[i]);
            }
        }
    }
}

/// The first `i + 1` entries are the first `i` and one with a key of its own.
pub proof fn lemma_prefix<K: Key, W>(e: Seq<(K::V, W)>, i: int)
    requires
        sorted::<K, W>(e),
        0 <= i < e.len(),
    ensures
        map_of(e.take(i + 1)) == map_of(e.take(i)).insert(e[i].0, e[i].1),
        !map_of(e.take(i)).dom().contains(e[i].0),
{
    let t = e.take(i);
    assert(e.take(i + 1).drop_last() =~= t);
    assert forall|a: int, b: int| 0 <= a < b < t.len() implies K::precedes(
        #[trigger] t[a].0,
        #[trigger] t[b].0,
    ) by {
        assert(t[a] == e[a] && t[b] == e[b]);
    }
    lemma_map_of::<K, W>(t);
    if map_of(t).dom().contains(e[i].0) {
        let a = choose|a: int| 0 <= a < t.len() && (#[trigger] t[a]).0 == e[i].0;
        assert(t[a] == e[a]);
        assert(K::precedes(e[a].0, e[i].0));
        K::order(e[i].0, e[i].0, e[i].0);
    }
}

/// Two sorted lists of entries that stand for maps which agree are told apart by nothing.
proof fn lemma_same_map<K: Key, W>(e: Seq<(K::V, W)>, m: Map<K::V, W>)
    requires
        sorted::<K, W>(e),
        forall|i: int| 0 <= i < e.len() ==> m.dom().contains((#[trigger] e[i]).0) && m[e[i].0]
            == e[i].1,
        forall|k: K::V|
            #[trigger] m.dom().contains(k) ==> exists|i: int|
                0 <= i < e.len() && (#[trigger] e[i]).0 == k,
    ensures
        map_of(e) == m,
{
    lemma_map_of::<K, W>(e);
    assert forall|k: K::V| map_of(e).dom().contains(k) implies #[trigger] m.dom().contains(k)
        && map_of(e)[k] == m[k] by {
        let i = choose|i: int| 0 <= i < e.len() && (#[trigger] e[i]).0 == k;
        assert(m.dom().contains(e[i].0));
    }
    assert forall|k: K::V| m.dom().contains(k) implies #[trigger] map_of(e).dom().contains(k) by {
        let i = choose|i: int| 0 <= i < e.len() && (#[trigger] e[i]).0 == k;
        assert(map_of(e).dom().contains(e[i].0));
    }
    assert(map_of(e) =~= m);
}

impl<K: Key, W: DeepView> SortedMap<K, W> {
    #[verifier::type_invariant]
    spec fn keys_sorted(&self) -> bool {
        sorted::<K, W::V>(self.pairs())
    }

    /// The entries in the order of their keys.
    pub closed spec fn pairs(&self) -> Seq<(K::V, W::V)> {
        self.entries.deep_view()
    }

    /// A map without entries.
    pub fn new() -> (m: SortedMap<K, W>)
        ensures
            m.deep_view() == Map::<K::V, W::V>::empty(),
            m.pairs().len() == 0,
    {
        let m = SortedMap { entries: Vec::new() };
        m
    }

    /// How many entries the map has.
    pub fn len(&self) -> (n: usize)
        ensures
            n == self.deep_view().dom().len(),
            n == self.pairs().len(),
            self.deep_view().dom().finite(),
            sorted::<K, W::V>(self.pairs()),
    {
        proof {
            use_type_invariant(self);
            lemma_map_of::<K, W::V>(self.pairs());
        }
        self.entries.len()
    }

    /// The entry at `i` in the order of the keys.
    pub fn at(&self, i: usize) -> (e: (&K, &W))
        requires
            i < self.pairs().len(),
        ensures
            (e.0.deep_view(), e.1.deep_view()) == self.pairs()[i as int],
            self.deep_view().dom().contains(e.0.deep_view()),
            self.deep_view()[e.0.deep_view()] == e.1.deep_view(),
    {
        proof {
            use_type_invariant(self);
            lemma_map_of::<K, W::V>(self.pairs());
        }
        let e = &self.entries[i];
        assert(self.pairs()[i as int] == (e.0.deep_view(), e.1.deep_view()));
        (&e.0, &e.1)
    }

    /// What the order of the entries says about the map.
    pub proof fn lemma_pairs(m: &SortedMap<K, W>)
        requires
            sorted::<K, W::V>(m.pairs()),
        ensures
            m.deep_view().dom().finite(),
            m.deep_view().dom().len() == m.pairs().len(),
            forall|i: int|
                0 <= i < m.pairs().len() ==> m.deep_view().dom().contains(
                    (#[trigger] m.pairs()[i]).0,
                ) && m.deep_view()[m.pairs()[i].0] == m.pairs()[i].1,
            forall|k: K::V|
                #[trigger] m.deep_view().dom().contains(k) ==> exists|i: int|
                    0 <= i < m.pairs().len() && (#[trigger] m.pairs()[i]).0 == k,
    {
        lemma_map_of::<K, W::V>(m.pairs());
    }

    /// Where the entry of `k` is, or where it would go.
    fn find(&self, k: &K) -> (r: (usize, bool))
        ensures
            r.0 <= self.pairs().len(),
            forall|i: int|
                0 <= i < r.0 ==> K::precedes((#[trigger] self.pairs()[i]).0, k.deep_view()),
            r.1 ==> r.0 < self.pairs().len() && self.pairs()[r.0 as int].0 == k.deep_view(),
            !r.1 ==> forall|i: int|
                r.0 <= i < self.pairs().len() ==> K::precedes(
                    k.deep_view(),
                    (#[trigger] self.pairs()[i]).0,
                ),
            r.1 == self.deep_view().dom().contains(k.deep_view()),
    {
        proof {
            use_type_invariant(self);
            lemma_map_of::<K, W::V>(self.pairs());
        }
        let ghost p = self.pairs();
        let ghost kv = k.deep_view();
        let mut i: usize = 0;
        while i < self.entries.len() && self.entries[i].0.is_before(k)
            invariant
                i <= self.entries@.len(),
                p == self.pairs(),
                kv == k.deep_view(),
                forall|j: int| 0 <= j < i ==> K::precedes((#[trigger] p[j]).0, kv),
            decreases self.entries@.len() - i,
        {
            assert(p[i as int].0 == self.entries@[i as int].0.deep_view());
            i += 1;
        }
        if i < self.entries.len() && !k.is_before(&self.entries[i].0) {
            proof {
                assert(p[i as int].0 == self.entries@[i as int].0.deep_view());
                K::order(kv, p[i as int].0, kv);
            }
            (i, true)
        } else {
            proof {
                assert forall|j: int| i <= j < p.len() implies K::precedes(
                    kv,
                    (#[trigger] p[j]).0,
                ) by {
                    assert(p[i as int].0 == self.entries@[i as int].0.deep_view());
                    if j > i {
                        assert(K::precedes(p[i as int].0, p[j].0));
                        K::order(kv, p[i as int].0, p[j].0);
                    }
                }
                if self.deep_view().dom().contains(kv) {
                    let j = choose|j: int| 0 <= j < p.len() && (#[trigger] p[j]).0 == kv;
                    K::order(kv, kv, kv);
                    assert(K::precedes(p[j].0, kv) || K::precedes(kv, p[j].0));
                }
            }
            (i, false)
        }
    }

    /// Whether there is an entry for `k`.
    pub fn contains_key(&self, k: &K) -> (r: bool)
        ensures
            r == self.deep_view().dom().contains(k.deep_view()),
    {
        self.find(k).1
    }

    /// The value for `k`, if there is one.
    pub fn get(&self, k: &K) -> (r: Option<&W>)
        ensures
            match r {
                Some(v) => self.deep_view().dom().contains(k.deep_view())
                    && self.deep_view()[k.deep_view()] == v.deep_view(),
                None => !self.deep_view().dom().contains(k.deep_view()),
            },
    {
        proof {
            use_type_invariant(self);
            lemma_map_of::<K, W::V>(self.pairs());
        }
        let (i, found) = self.find(k);
        if found {
            assert(self.pairs()[i as int] == (
                self.entries@[i as int].0.deep_view(),
                self.entries@[i as int].1.deep_view(),
            ));
            Some(&self.entries[i].1)
        } else {
            None
        }
    }

    /// Sets the value for `k`.
    pub fn insert(&mut self, k: K, v: W)
        ensures
            final(self).deep_view() == old(self).deep_view().insert(k.deep_view(), v.deep_view()),
    {
        let ghost p = self.pairs();
        let ghost kv = k.deep_view();
        let ghost wv = v.deep_view();
        proof {
            use_type_invariant(&*self);
            lemma_map_of::<K, W::V>(p);
        }
        let (i, found) = self.find(&k);
        let mut e: Vec<(K, W)> = Vec::new();
        core::mem::swap(&mut e, &mut self.entries);
        assert(e.deep_view() == p);
        if found {
            let _old = e.remove(i);
        }
        e.insert(i, (k, v));
        let ghost q = e.deep_view();
        proof {
            let skip: int = if found {
                1
            } else {
                0
            };
            assert(q =~= p.take(i as int) + seq![(kv, wv)] + p.skip(i + skip));
            assert forall|a: int, b: int| 0 <= a < b < q.len() implies K::precedes(
                #[trigger] q[a].0,
                #[trigger] q[b].0,
            ) by {
                if a < i {
                    assert(q[a] == p[a]);
                }
                if b > i {
                    assert(q[b] == p[b - 1 + skip]);
                }
                if a > i {
                    assert(q[a] == p[a - 1 + skip]);
                }
                if b < i {
                    assert(q[b] == p[b]);
                }
                if found {
                    assert(p[i as int].0 == kv);
                }
            }
            let m = map_of(p).insert(kv, wv);
            assert forall|a: int| 0 <= a < q.len() implies m.dom().contains((#[trigger] q[a]).0)
                && m[q[a].0] == q[a].1 by {
                if a < i {
                    assert(q[a] == p[a]);
                    assert(K::precedes(q[a].0, q[i as int].0));
                    K::order(kv, kv, kv);
                } else if a > i {
                    assert(q[a] == p[a - 1 + skip]);
                    assert(K::precedes(q[i as int].0, q[a].0));
                    K::order(kv, kv, kv);
                }
            }
            assert forall|x: K::V| #[trigger] m.dom().contains(x) implies exists|a: int|
                0 <= a < q.len() && (#[trigger] q[a]).0 == x by {
                if x == kv {
                    assert(q[i as int].0 == kv);
                } else {
                    let a = choose|a: int| 0 <= a < p.len() && (#[trigger] p[a]).0 == x;
                    if a < i {
                        assert(q[a] == p[a]);
                    } else {
                        assert(q[a + 1 - skip] == p[a]);
                    }
                }
            }
            lemma_same_map::<K, W::V>(q, m);
        }
        self.entries = e;
    }

    /// Takes the entry at `i` in the order of the keys out.
    pub fn remove_at(&mut self, i: usize) -> (e: (K, W))
        requires
            i < old(self).pairs().len(),
        ensures
            (e.0.deep_view(), e.1.deep_view()) == old(self).pairs()[i as int],
            final(self).pairs() == old(self).pairs().remove(i as int),
            final(self).deep_view() == old(self).deep_view().remove(e.0.deep_view()),
            old(self).deep_view().dom().contains(e.0.deep_view()),
            old(self).deep_view()[e.0.deep_view()] == e.1.deep_view(),
    {
        let ghost p = self.pairs();
        let ghost kv = p[i as int].0;
        proof {
            use_type_invariant(&*self);
            lemma_map_of::<K, W::V>(p);
        }
        let mut e: Vec<(K, W)> = Vec::new();
        core::mem::swap(&mut e, &mut self.entries);
        assert(e.deep_view() == p);
        assert(p[i as int] == (e@[i as int].0.deep_view(), e@[i as int].1.deep_view()));
        let out = e.remove(i);
        let ghost q = e.deep_view();
        proof {
            assert(q =~= p.remove(i as int));
            assert forall|a: int, b: int| 0 <= a < b < q.len() implies K::precedes(
                #[trigger] q[a].0,
                #[trigger] q[b].0,
            ) by {
                let a2 = if a < i {
                    a
                } else {
                    a + 1
                };
                let b2 = if b < i {
                    b
                } else {
                    b + 1
                };
                assert(q[a] == p[a2] && q[b] == p[b2]);
            }
            let m = map_of(p).remove(kv);
            assert forall|a: int| 0 <= a < q.len() implies m.dom().contains((#[trigger] q[a]).0)
                && m[q[a].0] == q[a].1 by {
                let a2 = if a < i {
                    a
                } else {
                    a + 1
                };
                assert(q[a] == p[a2]);
                if a2 < i {
                    assert(K::precedes(p[a2].0, p[i as int].0));
                } else {
                    assert(K::precedes(p[i as int].0, p[a2].0));
                }
                K::order(kv, kv, kv);
            }
            assert forall|x: K::V| #[trigger] m.dom().contains(x) implies exists|a: int|
                0 <= a < q.len() && (#[trigger] q[a]).0 == x by {
                let a = choose|a: int| 0 <= a < p.len() && (#[trigger] p[a]).0 == x;
                if a < i {
                    assert(q[a] == p[a]);
                } else {
                    assert(q[a - 1] == p[a]);
                }
            }
            lemma_same_map::<K, W::V>(q, m);
        }
        self.entries = e;
        out
    }

    /// Takes the entry of `k` out.
    pub fn remove(&mut self, k: &K) -> (r: Option<W>)
        ensures
            final(self).deep_view() == old(self).deep_view().remove(k.deep_view()),
            match r {
                Some(v) => old(self).deep_view().dom().contains(k.deep_view())
                    && old(self).deep_view()[k.deep_view()] == v.deep_view(),
                None => !old(self).deep_view().dom().contains(k.deep_view()),
            },
    {
        let (i, found) = self.find(k);
        if found {
            let (_key, v) = self.remove_at(i);
            Some(v)
        } else {
            assert(self.deep_view().remove(k.deep_view()) =~= self.deep_view());
            None
        }
    }
}

impl<K: Key + Duplicate, W: Duplicate> Duplicate for SortedMap<K, W> {
    fn duplicate(&self) -> (r: SortedMap<K, W>) {
        proof {
            use_type_invariant(self);
        }
        let ghost p = self.pairs();
        let mut e: Vec<(K, W)> = Vec::new();
        let mut i: usize = 0;
        assert(e.deep_view() =~= p.take(0));
        while i < self.entries.len()
            invariant
                i <= self.entries@.len(),
                p == self.pairs(),
                e.deep_view() == p.take(i as int),
            decreases self.entries@.len() - i,
        {
            let ghost before = e.deep_view();
            assert(p[i as int] == (
                self.entries@[i as int].0.deep_view(),
                self.entries@[i as int].1.deep_view(),
            ));
            e.push((self.entries[i].0.duplicate(), self.entries[i].1.duplicate()));
            assert(e.deep_view() =~= before.push(p[i as int]));
            assert(p.take(i + 1) =~= before.push(p[i as int]));
            i += 1;
        }
        assert(p.take(p.len() as int) =~= p);
        SortedMap { entries: e }
    }
}

} // verus!
