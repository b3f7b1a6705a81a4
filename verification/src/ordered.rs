//! Tables that keep their entries in the order of their keys.
use vstd::prelude::*;

use crate::text;

verus! {

/// A type whose values are strictly and totally ordered.
pub trait Key: DeepView + Sized {
    /// Whether `a` comes before `b`.
    spec fn before(a: <Self as DeepView>::V, b: <Self as DeepView>::V) -> bool;

    proof fn irreflexive(a: <Self as DeepView>::V)
        ensures
            !Self::before(a, a),
    ;

    proof fn transitive(
        a: <Self as DeepView>::V,
        b: <Self as DeepView>::V,
        c: <Self as DeepView>::V,
    )
        requires
            Self::before(a, b),
            Self::before(b, c),
        ensures
            Self::before(a, c),
    ;

    proof fn total(a: <Self as DeepView>::V, b: <Self as DeepView>::V)
        ensures
            a == b || Self::before(a, b) || Self::before(b, a),
    ;

    /// Whether this key comes before the other.
    fn precedes(&self, other: &Self) -> (r: bool)
        ensures
            r == Self::before(self.deep_view(), other.deep_view()),
    ;
}

impl Key for String {
    open spec fn before(a: Seq<char>, b: Seq<char>) -> bool {
        text::text_before(a, b)
    }

    proof fn irreflexive(a: Seq<char>) {
        text::lemma_text_irreflexive(a);
    }

    proof fn transitive(a: Seq<char>, b: Seq<char>, c: Seq<char>) {
        text::lemma_text_transitive(a, b, c);
    }

    proof fn total(a: Seq<char>, b: Seq<char>) {
        text::lemma_text_total(a, b);
    }

    fn precedes(&self, other: &Self) -> (r: bool) {
        text::precedes(self.as_str(), other.as_str())
    }
}

/// Whether every element comes before all those behind it.
pub open spec fn increasing<K: Key>(s: Seq<<K as DeepView>::V>) -> bool {
    forall|i: int, j: int| 0 <= i < j < s.len() ==> K::before(#[trigger] s[i], #[trigger] s[j])
}

/// The keys of a set in increasing order.
pub open spec fn listing<K: Key>(keys: Set<<K as DeepView>::V>) -> Seq<<K as DeepView>::V> {
    choose|s: Seq<<K as DeepView>::V>| increasing::<K>(s) && s.to_set() == keys
}

/// The values of a map in increasing order of their keys.
pub open spec fn in_order<K: Key, B>(m: Map<<K as DeepView>::V, B>) -> Seq<B> {
    listing::<K>(m.dom()).map_values(|k: <K as DeepView>::V| m[k])
}

proof fn lemma_increasing_equal<K: Key>(a: Seq<<K as DeepView>::V>, b: Seq<<K as DeepView>::V>)
    requires
        increasing::<K>(a),
        increasing::<K>(b),
        a.to_set() == b.to_set(),
    ensures
        a == b,
    decreases a.len(),
{
    if a.len() == 0 {
        if b.len() > 0 {
            assert(b.to_set().contains(b[0]));
            assert(a.to_set().contains(b[0]));
        }
        assert(a == b);
    } else {
        assert(a.to_set().contains(a[0]));
        assert(b.to_set().contains(a[0]));
        let j = b.index_of(a[0]);
        assert(b.to_set().contains(b[0]));
        assert(a.to_set().contains(b[0]));
        let i = a.index_of(b[0]);
        if i > 0 && j > 0 {
            K::transitive(a[0], a[i], b[j]);
            K::irreflexive(a[0]);
        }
        assert(a[0] == b[0]);
        let x = a.drop_first();
        let y = b.drop_first();
        assert forall|k: <K as DeepView>::V| x.to_set().contains(k) implies y.to_set().contains(
            k,
        ) by {
            let p = x.index_of(k);
            assert(a[p + 1] == k);
            assert(a.to_set().contains(k));
            assert(b.to_set().contains(k));
            let q = b.index_of(k);
            if q == 0 {
                assert(K::before(a[0], a[p + 1]));
                K::irreflexive(k);
            }
            assert(y[q - 1] == k);
        }
        assert forall|k: <K as DeepView>::V| y.to_set().contains(k) implies x.to_set().contains(
            k,
        ) by {
            let p = y.index_of(k);
            assert(b[p + 1] == k);
            assert(b.to_set().contains(k));
            assert(a.to_set().contains(k));
            let q = a.index_of(k);
            if q == 0 {
                assert(K::before(b[0], b[p + 1]));
                K::irreflexive(k);
            }
            assert(x[q - 1] == k);
        }
        assert(x.to_set() =~= y.to_set());
        lemma_increasing_equal::<K>(x, y);
        assert(a == seq![a[0]] + x);
        assert(b == seq![b[0]] + y);
    }
}

/// An increasing sequence is the listing of the set of its elements.
pub proof fn lemma_listing<K: Key>(s: Seq<<K as DeepView>::V>)
    requires
        increasing::<K>(s),
    ensures
        listing::<K>(s.to_set()) == s,
{
    lemma_increasing_equal::<K>(listing::<K>(s.to_set()), s);
}

proof fn lemma_place<K: Key>(s: Seq<<K as DeepView>::V>, k: <K as DeepView>::V) -> (at: int)
    requires
        increasing::<K>(s),
        !s.contains(k),
    ensures
        0 <= at <= s.len(),
        increasing::<K>(s.insert(at, k)),
        forall|i: int| 0 <= i < at ==> K::before(#[trigger] s[i], k),
        forall|i: int| at <= i < s.len() ==> K::before(k, #[trigger] s[i]),
    decreases s.len(),
{
    if s.len() == 0 {
        0
    } else {
        let last = s[s.len() - 1];
        K::total(last, k);
        let at = if K::before(last, k) {
            assert forall|i: int| 0 <= i < s.len() implies K::before(#[trigger] s[i], k) by {
                if i < s.len() - 1 {
                    K::transitive(s[i], last, k);
                }
            }
            s.len() as int
        } else {
            let init = s.drop_last();
            assert(!init.contains(k)) by {
                if init.contains(k) {
                    let i = init.index_of(k);
                    assert(s[i] == k);
                }
            }
            let at = lemma_place::<K>(init, k);
            assert forall|i: int| 0 <= i < at implies K::before(#[trigger] s[i], k) by {
                assert(init[i] == s[i]);
            }
            assert forall|i: int| at <= i < s.len() implies K::before(k, #[trigger] s[i]) by {
                if i < s.len() - 1 {
                    assert(init[i] == s[i]);
                }
            }
            at
        };
        let t = s.insert(at, k);
        assert forall|i: int, j: int| 0 <= i < j < t.len() implies K::before(
            #[trigger] t[i],
            #[trigger] t[j],
        ) by {
            if i == at {
                assert(t[j] == s[j - 1]);
            } else if j == at {
                assert(t[i] == s[i]);
            } else {
                let p = if i < at { i } else { i - 1 };
                let q = if j < at { j } else { j - 1 };
                assert(t[i] == s[p] && t[j] == s[q]);
            }
        }
        at
    }
}

/// Every finite set of keys has a listing: increasing, and with exactly its keys.
pub proof fn lemma_listing_of_finite<K: Key>(keys: Set<<K as DeepView>::V>)
    requires
        keys.finite(),
    ensures
        increasing::<K>(listing::<K>(keys)),
        listing::<K>(keys).to_set() == keys,
    decreases keys.len(),
{
    if keys.len() == 0 {
        let s = Seq::<<K as DeepView>::V>::empty();
        assert(s.to_set() =~= keys);
        assert(increasing::<K>(s));
    } else {
        let k = keys.choose();
        let rest = keys.remove(k);
        lemma_listing_of_finite::<K>(rest);
        let s = listing::<K>(rest);
        assert(!s.contains(k)) by {
            assert(s.to_set().contains(k) == rest.contains(k));
        }
        let at = lemma_place::<K>(s, k);
        let t = s.insert(at, k);
        assert forall|x: <K as DeepView>::V| #[trigger] t.to_set().contains(x) == keys.contains(
            x,
        ) by {
            if t.contains(x) {
                let i = t.index_of(x);
                if i != at {
                    let p = if i < at { i } else { i - 1 };
                    assert(s[p] == x);
                    assert(s.to_set().contains(x));
                }
            }
            if keys.contains(x) {
                if x == k {
                    assert(t[at] == x);
                } else {
                    assert(s.to_set().contains(x));
                    let p = s.index_of(x);
                    let i = if p < at { p } else { p + 1 };
                    assert(t[i] == x);
                }
            }
        }
        assert(t.to_set() =~= keys);
    }
}

/// The values of a finite map, in order, are exactly its values.
pub proof fn lemma_in_order<K: Key, B>(m: Map<<K as DeepView>::V, B>)
    requires
        m.dom().finite(),
    ensures
        listing::<K>(m.dom()).len() == in_order::<K, B>(m).len(),
        listing::<K>(m.dom()).no_duplicates(),
        forall|k: <K as DeepView>::V|
            m.contains_key(k) <==> #[trigger] listing::<K>(m.dom()).contains(k),
        forall|i: int|
            0 <= i < in_order::<K, B>(m).len() ==> #[trigger] in_order::<K, B>(m)[i] == m[listing::<
                K,
            >(m.dom())[i]] && m.contains_key(listing::<K>(m.dom())[i]),
{
    lemma_listing_of_finite::<K>(m.dom());
    let ks = listing::<K>(m.dom());
    assert forall|k: <K as DeepView>::V| m.contains_key(k) <==> #[trigger] ks.contains(k) by {
        assert(ks.to_set().contains(k) == m.dom().contains(k));
    }
    assert(ks.no_duplicates()) by {
        assert forall|i: int, j: int|
            0 <= i < ks.len() && 0 <= j < ks.len() && i != j implies ks[i] != ks[j] by {
            if i < j {
                K::irreflexive(ks[i]);
            } else {
                K::irreflexive(ks[j]);
            }
        }
    }
    assert forall|i: int| 0 <= i < in_order::<K, B>(m).len() implies #[trigger] in_order::<K, B>(
        m,
    )[i] == m[ks[i]] && m.contains_key(ks[i]) by {
        assert(ks.contains(ks[i]));
    }
}

proof fn lemma_increasing_filter<K: Key>(
    s: Seq<<K as DeepView>::V>,
    p: spec_fn(<K as DeepView>::V) -> bool,
)
    requires
        increasing::<K>(s),
    ensures
        increasing::<K>(s.filter(p)),
        forall|k: <K as DeepView>::V| #[trigger]
            s.filter(p).contains(k) <==> s.contains(k) && p(k),
    decreases s.len(),
{
    reveal(Seq::filter);
    if s.len() > 0 {
        let init = s.drop_last();
        let last = s[s.len() - 1];
        let kept = init.filter(p);
        assert forall|i: int, j: int| 0 <= i < j < init.len() implies K::before(
            #[trigger] init[i],
            #[trigger] init[j],
        ) by {
            assert(init[i] == s[i] && init[j] == s[j]);
        }
        lemma_increasing_filter::<K>(init, p);
        let all = s.filter(p);
        assert forall|i: int, j: int| 0 <= i < j < all.len() implies K::before(
            #[trigger] all[i],
            #[trigger] all[j],
        ) by {
            if j < kept.len() {
                assert(all[i] == kept[i] && all[j] == kept[j]);
            } else {
                assert(kept.contains(kept[i]));
                let k = init.index_of(kept[i]);
                assert(s[k] == kept[i]);
                assert(K::before(s[k], s[s.len() - 1]));
            }
        }
        assert forall|k: <K as DeepView>::V| #[trigger]
            all.contains(k) <==> s.contains(k) && p(k) by {
            if all.contains(k) {
                let i = all.index_of(k);
                if i < kept.len() {
                    assert(kept.contains(kept[i]));
                    let m = init.index_of(k);
                    assert(s[m] == k);
                } else {
                    assert(s[s.len() - 1] == k);
                }
            }
            if s.contains(k) && p(k) {
                let m = s.index_of(k);
                if m < init.len() {
                    assert(init[m] == k);
                    assert(kept.contains(k));
                    let i = kept.index_of(k);
                    assert(all[i] == k);
                } else {
                    assert(all[all.len() - 1] == k);
                }
            }
        }
    }
}

/// The keys of a set that pass a test, in their order, are the keys of that part of the set in
/// theirs.
pub proof fn lemma_listing_filter<K: Key>(
    keys: Set<<K as DeepView>::V>,
    p: spec_fn(<K as DeepView>::V) -> bool,
)
    requires
        keys.finite(),
    ensures
        listing::<K>(keys).filter(p) == listing::<K>(keys.filter(p)),
{
    let ks = listing::<K>(keys);
    lemma_listing_of_finite::<K>(keys);
    lemma_increasing_filter::<K>(ks, p);
    lemma_listing::<K>(ks.filter(p));
    assert forall|k: <K as DeepView>::V| #[trigger]
        ks.filter(p).to_set().contains(k) <==> keys.filter(p).contains(k) by {
        assert(ks.to_set().contains(k) <==> ks.contains(k));
    }
    assert(ks.filter(p).to_set() =~= keys.filter(p));
}

proof fn lemma_map_filter<A, B>(s: Seq<A>, f: spec_fn(A) -> B, p: spec_fn(B) -> bool)
    ensures
        s.map_values(f).filter(p) == s.filter(|a: A| p(f(a))).map_values(f),
    decreases s.len(),
{
    reveal(Seq::filter);
    if s.len() > 0 {
        let init = s.drop_last();
        lemma_map_filter(init, f, p);
        assert(s.map_values(f).drop_last() == init.map_values(f));
        assert(s.map_values(f).last() == f(s.last()));
        assert(s.filter(|a: A| p(f(a))).map_values(f) =~= s.map_values(f).filter(p));
    }
}

/// The values of a map that pass a test, in the order of their keys, are the values of that part of
/// the map in their order.
pub proof fn lemma_in_order_filter<K: Key, B>(
    m: Map<<K as DeepView>::V, B>,
    p: spec_fn(B) -> bool,
)
    requires
        m.dom().finite(),
    ensures
        in_order::<K, B>(m).filter(p) == in_order::<K, B>(
            m.restrict(Set::new(|k: <K as DeepView>::V| m.contains_key(k) && p(m[k]))),
        ),
{
    let ks = listing::<K>(m.dom());
    let f = |k: <K as DeepView>::V| m[k];
    let q = |k: <K as DeepView>::V| p(f(k));
    let part = m.restrict(Set::new(|k: <K as DeepView>::V| m.contains_key(k) && p(m[k])));
    lemma_listing_of_finite::<K>(m.dom());
    lemma_map_filter(ks, f, p);
    lemma_increasing_filter::<K>(ks, q);
    lemma_listing::<K>(ks.filter(q));
    assert forall|k: <K as DeepView>::V| #[trigger]
        ks.filter(q).to_set().contains(k) <==> part.dom().contains(k) by {
        assert(ks.to_set().contains(k) <==> ks.contains(k));
    }
    assert(ks.filter(q).to_set() =~= part.dom());
    let g = |k: <K as DeepView>::V| part[k];
    assert forall|i: int| 0 <= i < ks.filter(q).len() implies f(#[trigger] ks.filter(q)[i]) == g(
        ks.filter(q)[i],
    ) by {
        assert(ks.filter(q).contains(ks.filter(q)[i]));
        assert(ks.to_set().contains(ks.filter(q)[i]));
    }
    assert(ks.filter(q).map_values(f) =~= ks.filter(q).map_values(g));
}

/// The map that holds the given pairs; of two pairs with one key the later counts.
pub open spec fn map_of<A, B>(s: Seq<(A, B)>) -> Map<A, B>
    decreases s.len(),
{
    if s.len() == 0 {
        Map::empty()
    } else {
        map_of(s.drop_last()).insert(s.last().0, s.last().1)
    }
}

/// The keys of a sequence of pairs.
pub open spec fn keys_of<A, B>(s: Seq<(A, B)>) -> Seq<A> {
    s.map_values(|e: (A, B)| e.0)
}

proof fn lemma_map_of<A, B>(s: Seq<(A, B)>)
    ensures
        map_of(s).dom() == keys_of(s).to_set(),
        keys_of(s).no_duplicates() ==> forall|i: int|
            0 <= i < s.len() ==> map_of(s)[(#[trigger] s[i]).0] == s[i].1,
    decreases s.len(),
{
    let ks = keys_of(s);
    if s.len() == 0 {
        assert(map_of(s).dom() =~= ks.to_set());
    } else {
        let init = s.drop_last();
        lemma_map_of(init);
        assert(keys_of(init) == ks.drop_last());
        assert forall|k: A| map_of(s).dom().contains(k) implies ks.to_set().contains(k) by {
            if k == s.last().0 {
                assert(ks[s.len() - 1] == k);
            } else {
                assert(keys_of(init).to_set().contains(k));
                let i = keys_of(init).index_of(k);
                assert(ks[i] == k);
            }
        }
        assert forall|k: A| ks.to_set().contains(k) implies map_of(s).dom().contains(k) by {
            let i = ks.index_of(k);
            if i < s.len() - 1 {
                assert(keys_of(init)[i] == k);
                assert(keys_of(init).to_set().contains(k));
            }
        }
        assert(map_of(s).dom() =~= ks.to_set());
        if ks.no_duplicates() {
            assert forall|i: int| 0 <= i < s.len() implies map_of(s)[(#[trigger] s[i]).0]
                == s[i].1 by {
                if i < s.len() - 1 {
                    assert(init[i] == s[i]);
                    assert(ks[i] != ks[s.len() - 1]);
                }
            }
        }
    }
}

/// A finite map whose entries are held in increasing order of their keys.
#[derive(Debug)]
pub struct Table<K: Key, V: DeepView> {
    entries: Vec<(K, V)>,
}

impl<K: Key, V: DeepView> View for Table<K, V> {
    type V = Map<<K as DeepView>::V, <V as DeepView>::V>;

    closed spec fn view(&self) -> Map<<K as DeepView>::V, <V as DeepView>::V> {
        map_of(self.entries.deep_view())
    }
}

impl<K: Key, V: DeepView> Table<K, V> {
    #[verifier::type_invariant]
    spec fn ordered(self) -> bool {
        increasing::<K>(keys_of(self.entries.deep_view()))
    }

    proof fn lemma_contents(s: Seq<(<K as DeepView>::V, <V as DeepView>::V)>)
        requires
            increasing::<K>(keys_of(s)),
        ensures
            listing::<K>(map_of(s).dom()) == keys_of(s),
            map_of(s).dom() == keys_of(s).to_set(),
            forall|i: int|
                0 <= i < s.len() ==> map_of(s).contains_key((#[trigger] s[i]).0) && map_of(s)[s[i].0]
                    == s[i].1,
    {
        let ks = keys_of(s);
        lemma_map_of(s);
        lemma_listing::<K>(ks);
        assert(ks.no_duplicates()) by {
            assert forall|i: int, j: int|
                0 <= i < ks.len() && 0 <= j < ks.len() && i != j implies ks[i] != ks[j] by {
                if i < j {
                    K::irreflexive(ks[i]);
                } else {
                    K::irreflexive(ks[j]);
                }
            }
        }
        assert forall|i: int| 0 <= i < s.len() implies map_of(s).contains_key((#[trigger] s[i]).0)
            && map_of(s)[s[i].0] == s[i].1 by {
            assert(ks[i] == s[i].0);
            assert(ks.to_set().contains(ks[i]));
        }
    }

    /// A table without entries.
    pub fn new() -> (r: Self)
        ensures
            r@ == Map::<<K as DeepView>::V, <V as DeepView>::V>::empty(),
    {
        Table { entries: Vec::new() }
    }

    /// The number of entries.
    pub fn len(&self) -> (r: usize)
        ensures
            r == listing::<K>(self@.dom()).len(),
            r == in_order::<K, <V as DeepView>::V>(self@).len(),
            increasing::<K>(listing::<K>(self@.dom())),
            listing::<K>(self@.dom()).to_set() == self@.dom(),
    {
        proof {
            use_type_invariant(self);
            Self::lemma_contents(self.entries.deep_view());
        }
        self.entries.len()
    }

    /// The key of the entry at a position in the order of keys.
    pub fn key_at(&self, i: usize) -> (r: &K)
        requires
            i < listing::<K>(self@.dom()).len(),
        ensures
            r.deep_view() == listing::<K>(self@.dom())[i as int],
    {
        proof {
            use_type_invariant(self);
            Self::lemma_contents(self.entries.deep_view());
        }
        &self.entries[i].0
    }

    /// The value of the entry at a position in the order of keys.
    pub fn value_at(&self, i: usize) -> (r: &V)
        requires
            i < in_order::<K, <V as DeepView>::V>(self@).len(),
        ensures
            r.deep_view() == in_order::<K, <V as DeepView>::V>(self@)[i as int],
    {
        proof {
            use_type_invariant(self);
            let s = self.entries.deep_view();
            Self::lemma_contents(s);
            assert(s[i as int].1 == self.entries@[i as int].1.deep_view());
        }
        &self.entries[i].1
    }

    /// The first position whose key does not come before `key`.
    fn position(&self, key: &K) -> (r: usize)
        ensures
            r <= self.entries@.len(),
            forall|i: int|
                0 <= i < r ==> K::before(
                    (#[trigger] self.entries.deep_view()[i]).0,
                    key.deep_view(),
                ),
            forall|i: int|
                r <= i < self.entries@.len() ==> !K::before(
                    (#[trigger] self.entries.deep_view()[i]).0,
                    key.deep_view(),
                ),
    {
        proof {
            use_type_invariant(self);
        }
        let ghost s = self.entries.deep_view();
        let ghost k = key.deep_view();
        let mut low: usize = 0;
        let mut high: usize = self.entries.len();
        while low < high
            invariant
                s == self.entries.deep_view(),
                k == key.deep_view(),
                increasing::<K>(keys_of(s)),
                low <= high <= s.len(),
                forall|i: int| 0 <= i < low ==> K::before((#[trigger] s[i]).0, k),
                forall|i: int| high <= i < s.len() ==> !K::before((#[trigger] s[i]).0, k),
            decreases high - low,
        {
            let middle: usize = low + (high - low) / 2;
            let ghost ks = keys_of(s);
            if self.entries[middle].0.precedes(key) {
                assert forall|i: int| 0 <= i < middle + 1 implies K::before(
                    (#[trigger] s[i]).0,
                    k,
                ) by {
                    if i < middle {
                        assert(K::before(ks[i], ks[middle as int]));
                        K::transitive(s[i].0, s[middle as int].0, k);
                    }
                }
                low = middle + 1;
            } else {
                assert forall|i: int| middle <= i < s.len() implies !K::before(
                    (#[trigger] s[i]).0,
                    k,
                ) by {
                    if middle < i && K::before(s[i].0, k) {
                        assert(K::before(ks[middle as int], ks[i]));
                        K::transitive(s[middle as int].0, s[i].0, k);
                    }
                }
                high = middle;
            }
        }
        low
    }

    /// The value kept under a key.
    pub fn get(&self, key: &K) -> (r: Option<&V>)
        ensures
            r is Some <==> self@.contains_key(key.deep_view()),
            r matches Some(v) ==> v.deep_view() == self@[key.deep_view()],
    {
        let at = self.position(key);
        let ghost s = self.entries.deep_view();
        let ghost k = key.deep_view();
        let ghost ks = keys_of(s);
        proof {
            use_type_invariant(self);
            Self::lemma_contents(s);
        }
        if at < self.entries.len() && !key.precedes(&self.entries[at].0) {
            proof {
                K::total(s[at as int].0, k);
            }
            Some(&self.entries[at].1)
        } else {
            proof {
                if self@.contains_key(k) {
                    assert(ks.to_set().contains(k));
                    let i = ks.index_of(k);
                    assert(s[i].0 == k);
                    K::irreflexive(k);
                    if i > at {
                        assert(K::before(ks[at as int], ks[i]));
                    }
                }
            }
            None
        }
    }

    /// Whether a key has an entry.
    pub fn contains(&self, key: &K) -> (r: bool)
        ensures
            r == self@.contains_key(key.deep_view()),
    {
        self.get(key).is_some()
    }

    /// Puts a value under a key, in place of the one that was there.
    pub fn insert(&mut self, key: K, value: V)
        ensures
            final(self)@ == old(self)@.insert(key.deep_view(), value.deep_view()),
    {
        let at = self.position(&key);
        let ghost k = key.deep_view();
        let ghost v = value.deep_view();
        let ghost s = self.entries.deep_view();
        let ghost ks = keys_of(s);
        proof {
            use_type_invariant(&*self);
            Self::lemma_contents(s);
        }
        let mut entries: Vec<(K, V)> = Vec::new();
        std::mem::swap(&mut entries, &mut self.entries);
        if at < entries.len() && !key.precedes(&entries[at].0) {
            proof {
                K::total(s[at as int].0, k);
            }
            entries[at] = (key, value);
            let ghost t = entries.deep_view();
            proof {
                assert(t == s.update(at as int, (k, v)));
                assert(keys_of(t) == ks);
                Self::lemma_contents(t);
                assert(map_of(t).dom() =~= map_of(s).insert(k, v).dom()) by {
                    assert(ks[at as int] == k);
                }
                assert forall|x: <K as DeepView>::V| map_of(t).contains_key(x) implies map_of(t)[x]
                    == map_of(s).insert(k, v)[x] by {
                    let i = ks.index_of(x);
                    assert(t[i].0 == x && s[i].0 == x);
                    if i != at {
                        assert(t[i] == s[i]);
                        if x == k {
                            assert(ks[i] == ks[at as int]);
                            K::irreflexive(k);
                        }
                    }
                }
                assert(map_of(t) =~= map_of(s).insert(k, v));
            }
        } else {
            entries.insert(at, (key, value));
            let ghost t = entries.deep_view();
            proof {
                assert(t == s.insert(at as int, (k, v)));
                let kt = keys_of(t);
                assert(kt == ks.insert(at as int, k));
                assert(increasing::<K>(kt)) by {
                    assert forall|i: int, j: int| 0 <= i < j < kt.len() implies K::before(
                        #[trigger] kt[i],
                        #[trigger] kt[j],
                    ) by {
                        if j == at {
                            assert(kt[i] == s[i].0);
                        } else if i == at {
                            assert(kt[j] == ks[j - 1]);
                            assert(K::before(k, ks[at as int])) by {
                                assert(ks[at as int] == s[at as int].0);
                            }
                            if j - 1 > at {
                                K::transitive(k, ks[at as int], ks[j - 1]);
                            }
                        } else {
                            let p = if i < at { i } else { i - 1 };
                            let q = if j < at { j } else { j - 1 };
                            assert(kt[i] == ks[p] && kt[j] == ks[q]);
                        }
                    }
                }
                Self::lemma_contents(t);
                let m = map_of(s).insert(k, v);
                assert forall|x: <K as DeepView>::V| map_of(t).dom().contains(x) implies m.dom().contains(
                    x,
                ) && map_of(t)[x] == m[x] by {
                    let i = kt.index_of(x);
                    assert(t[i].0 == x);
                    if i != at {
                        let p = if i < at { i } else { i - 1 };
                        assert(t[i] == s[p]);
                        if x == k {
                            K::irreflexive(k);
                            if i < at {
                                assert(K::before(kt[i], kt[at as int]));
                            } else {
                                assert(K::before(kt[at as int], kt[i]));
                            }
                        }
                    }
                }
                assert forall|x: <K as DeepView>::V| m.dom().contains(x) implies map_of(t).dom().contains(
                    x,
                ) by {
                    if x == k {
                        assert(kt[at as int] == k);
                    } else {
                        assert(ks.to_set().contains(x));
                        let p = ks.index_of(x);
                        let i = if p < at { p } else { p + 1 };
                        assert(kt[i] == x);
                    }
                }
                assert(map_of(t) =~= m);
            }
        }
        self.entries = entries;
    }

    /// Takes the entry of a key out, where there is one.
    pub fn remove(&mut self, key: &K)
        ensures
            final(self)@ == old(self)@.remove(key.deep_view()),
    {
        let at = self.position(key);
        let ghost k = key.deep_view();
        let ghost s = self.entries.deep_view();
        let ghost ks = keys_of(s);
        proof {
            use_type_invariant(&*self);
            Self::lemma_contents(s);
        }
        let mut entries: Vec<(K, V)> = Vec::new();
        std::mem::swap(&mut entries, &mut self.entries);
        if at < entries.len() && !key.precedes(&entries[at].0) {
            proof {
                K::total(s[at as int].0, k);
            }
            let _ = entries.remove(at);
            let ghost t = entries.deep_view();
            proof {
                assert(t == s.remove(at as int));
                let kt = keys_of(t);
                assert(kt == ks.remove(at as int));
                assert(increasing::<K>(kt)) by {
                    assert forall|i: int, j: int| 0 <= i < j < kt.len() implies K::before(
                        #[trigger] kt[i],
                        #[trigger] kt[j],
                    ) by {
                        let p = if i < at { i } else { i + 1 };
                        let q = if j < at { j } else { j + 1 };
                        assert(kt[i] == ks[p] && kt[j] == ks[q]);
                    }
                }
                Self::lemma_contents(t);
                let m = map_of(s).remove(k);
                assert forall|x: <K as DeepView>::V| #[trigger] map_of(t).dom().contains(
                    x,
                ) implies m.dom().contains(x) && map_of(t)[x] == m[x] by {
                    let i = kt.index_of(x);
                    let p = if i < at { i } else { i + 1 };
                    assert(t[i].0 == x);
                    assert(t[i] == s[p]);
                    assert(ks[p] == x && ks[at as int] == k);
                    if x == k {
                        K::irreflexive(k);
                    }
                }
                assert forall|x: <K as DeepView>::V| #[trigger] m.dom().contains(
                    x,
                ) implies map_of(t).dom().contains(x) by {
                    assert(ks.to_set().contains(x));
                    let p = ks.index_of(x);
                    assert(ks[at as int] == k);
                    let i = if p < at { p } else { p - 1 };
                    assert(kt[i] == x);
                }
                assert(map_of(t).dom() =~= m.dom());
                assert(map_of(t) =~= m);
            }
        } else {
            proof {
                if map_of(s).contains_key(k) {
                    assert(ks.to_set().contains(k));
                    let i = ks.index_of(k);
                    assert(s[i].0 == k);
                    K::irreflexive(k);
                    if i > at {
                        assert(K::before(ks[at as int], ks[i]));
                    }
                }
                assert(map_of(s).remove(k) =~= map_of(s));
            }
        }
        self.entries = entries;
    }
}

} // verus!
