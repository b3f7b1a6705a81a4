//! Equality by value, stable sorting and removal of repeats.
use vstd::prelude::*;

use crate::text;

verus! {

/// A type whose values can be told apart by what they stand for.
pub trait Equal: DeepView {
    /// Whether two values stand for the same thing.
    fn equals(&self, other: &Self) -> (r: bool)
        ensures
            r == (self.deep_view() == other.deep_view()),
    ;
}

impl Equal for String {
    fn equals(&self, other: &Self) -> (r: bool) {
        text::same(self.as_str(), other.as_str())
    }
}

impl<T: Equal> Equal for Option<T> {
    fn equals(&self, other: &Self) -> (r: bool) {
        match (self, other) {
            (Some(a), Some(b)) => a.equals(b),
            (None, None) => true,
            _ => false,
        }
    }
}

/// A type whose values are ranked; distinct values may share a rank.
pub trait Ranked: DeepView + Sized {
    /// Whether `a` ranks strictly ahead of `b`.
    spec fn ahead(a: <Self as DeepView>::V, b: <Self as DeepView>::V) -> bool;

    proof fn asymmetric(a: <Self as DeepView>::V, b: <Self as DeepView>::V)
        requires
            Self::ahead(a, b),
        ensures
            !Self::ahead(b, a),
    ;

    proof fn comparable(
        a: <Self as DeepView>::V,
        b: <Self as DeepView>::V,
        c: <Self as DeepView>::V,
    )
        requires
            Self::ahead(a, b),
        ensures
            Self::ahead(a, c) || Self::ahead(c, b),
    ;

    /// Whether this value ranks strictly ahead of the other.
    fn ahead_of(&self, other: &Self) -> (r: bool)
        ensures
            r == Self::ahead(self.deep_view(), other.deep_view()),
    ;
}

/// A ranked sequence with one more element, put behind all that it does not rank ahead of.
pub open spec fn placed<T: Ranked>(
    s: Seq<<T as DeepView>::V>,
    x: <T as DeepView>::V,
) -> Seq<<T as DeepView>::V>
    decreases s.len(),
{
    if s.len() == 0 || !T::ahead(x, s.last()) {
        s.push(x)
    } else {
        placed::<T>(s.drop_last(), x).push(s.last())
    }
}

/// The elements in the order of their ranks; those that share a rank keep their order.
pub open spec fn ranked<T: Ranked>(s: Seq<<T as DeepView>::V>) -> Seq<<T as DeepView>::V>
    decreases s.len(),
{
    if s.len() == 0 {
        s
    } else {
        placed::<T>(ranked::<T>(s.drop_last()), s.last())
    }
}

/// Whether two values share a rank.
pub open spec fn level<T: Ranked>(a: <T as DeepView>::V, b: <T as DeepView>::V) -> bool {
    !T::ahead(a, b) && !T::ahead(b, a)
}

/// The values that share a rank with `c`.
pub open spec fn sharing<T: Ranked>(c: <T as DeepView>::V) -> spec_fn(<T as DeepView>::V) -> bool {
    |y: <T as DeepView>::V| level::<T>(c, y)
}

/// Whether no element ranks ahead of one before it.
pub open spec fn in_rank_order<T: Ranked>(s: Seq<<T as DeepView>::V>) -> bool {
    forall|i: int, j: int|
        0 <= i < j < s.len() ==> !T::ahead(#[trigger] s[j], #[trigger] s[i])
}

proof fn lemma_placed_at<T: Ranked>(
    s: Seq<<T as DeepView>::V>,
    x: <T as DeepView>::V,
    at: int,
)
    requires
        0 <= at <= s.len(),
        at == 0 || !T::ahead(x, s[at - 1]),
        forall|j: int| at <= j < s.len() ==> T::ahead(x, #[trigger] s[j]),
    ensures
        placed::<T>(s, x) == s.insert(at, x),
    decreases s.len(),
{
    if at == s.len() {
        assert(s.insert(at, x) == s.push(x));
    } else {
        assert(T::ahead(x, s[s.len() - 1]));
        lemma_placed_at::<T>(s.drop_last(), x, at);
        assert(s.insert(at, x) == s.drop_last().insert(at, x).push(s.last()));
    }
}

proof fn lemma_placed<T: Ranked>(s: Seq<<T as DeepView>::V>, x: <T as DeepView>::V)
    requires
        in_rank_order::<T>(s),
    ensures
        in_rank_order::<T>(placed::<T>(s, x)),
        placed::<T>(s, x).to_multiset() == s.push(x).to_multiset(),
        forall|i: int|
            0 <= i < placed::<T>(s, x).len() ==> (#[trigger] placed::<T>(s, x)[i] == x
                || s.contains(placed::<T>(s, x)[i])),
    decreases s.len(),
{
    let t = placed::<T>(s, x);
    if s.len() == 0 || !T::ahead(x, s.last()) {
        assert forall|i: int, j: int| 0 <= i < j < t.len() implies !T::ahead(
            #[trigger] t[j],
            #[trigger] t[i],
        ) by {
            if j == t.len() - 1 && T::ahead(x, t[i]) && i < s.len() - 1 {
                T::comparable(x, t[i], s.last());
                assert(!T::ahead(s[s.len() - 1], s[i]));
            }
        }
        assert forall|i: int| 0 <= i < t.len() implies #[trigger] t[i] == x || s.contains(t[i]) by {
            if i < s.len() {
                assert(t[i] == s[i]);
            }
        }
    } else {
        let u = s.drop_last();
        let last = s.last();
        assert(in_rank_order::<T>(u));
        lemma_placed::<T>(u, x);
        let v = placed::<T>(u, x);
        assert forall|i: int, j: int| 0 <= i < j < t.len() implies !T::ahead(
            #[trigger] t[j],
            #[trigger] t[i],
        ) by {
            if j < v.len() {
                assert(t[i] == v[i] && t[j] == v[j]);
            } else {
                assert(t[i] == v[i] && t[j] == last);
                if v[i] == x {
                    T::asymmetric(x, last);
                } else {
                    let k = u.index_of(v[i]);
                    assert(u[k] == s[k]);
                    assert(!T::ahead(s[s.len() - 1], s[k]));
                }
            }
        }
        assert forall|i: int| 0 <= i < t.len() implies #[trigger] t[i] == x || s.contains(t[i]) by {
            if i < v.len() {
                assert(t[i] == v[i]);
                if v[i] != x {
                    let k = u.index_of(v[i]);
                    assert(s[k] == v[i]);
                }
            } else {
                assert(s[s.len() - 1] == t[i]);
            }
        }
        vstd::seq_lib::to_multiset_build(v, last);
        vstd::seq_lib::to_multiset_build(u, x);
        vstd::seq_lib::to_multiset_build(u, last);
        vstd::seq_lib::to_multiset_build(s, x);
        assert(s == u.push(last));
        assert(t.to_multiset() =~= s.push(x).to_multiset());
    }
}

proof fn lemma_placed_filter<T: Ranked>(
    s: Seq<<T as DeepView>::V>,
    x: <T as DeepView>::V,
    c: <T as DeepView>::V,
)
    ensures
        placed::<T>(s, x).filter(sharing::<T>(c)) == s.push(x).filter(sharing::<T>(c)),
    decreases s.len(),
{
    reveal_with_fuel(Seq::filter, 3);
    let p = sharing::<T>(c);
    if s.len() == 0 || !T::ahead(x, s.last()) {
    } else {
        let u = s.drop_last();
        let last = s.last();
        let v = placed::<T>(u, x);
        lemma_placed_filter::<T>(u, x, c);
        assert(v.push(last).drop_last() == v);
        assert(u.push(x).drop_last() == u);
        assert(s.push(x).drop_last() == s);
        if level::<T>(c, x) && level::<T>(c, last) {
            T::comparable(x, last, c);
        }
        assert(v.filter(p) == u.push(x).filter(p));
    }
}

/// Ranking arranges: the result holds the same elements, none behind one that it ranks ahead of,
/// and those that share a rank stand in the order they came in.
pub proof fn ranking_arranges<T: Ranked>(s: Seq<<T as DeepView>::V>, c: <T as DeepView>::V)
    ensures
        in_rank_order::<T>(ranked::<T>(s)),
        ranked::<T>(s).to_multiset() == s.to_multiset(),
        ranked::<T>(s).filter(sharing::<T>(c)) == s.filter(sharing::<T>(c)),
    decreases s.len(),
{
    if s.len() > 0 {
        let u = s.drop_last();
        let r = ranked::<T>(u);
        let x = s.last();
        let p = sharing::<T>(c);
        ranking_arranges::<T>(u, c);
        lemma_placed::<T>(r, x);
        vstd::seq_lib::to_multiset_build(r, x);
        vstd::seq_lib::to_multiset_build(u, x);
        assert(s == u.push(x));
        lemma_placed_filter::<T>(r, x, c);
        reveal(Seq::filter);
        assert(r.push(x).drop_last() == r);
        assert(r.filter(p) == u.filter(p));
    }
}

proof fn lemma_filter_of_last<A>(s: Seq<A>, p: spec_fn(A) -> bool)
    requires
        s.len() > 0,
    ensures
        s.filter(p) == if p(s.last()) {
            s.drop_last().filter(p).push(s.last())
        } else {
            s.drop_last().filter(p)
        },
{
    reveal(Seq::filter);
}

proof fn lemma_placed_among<T: Ranked>(
    s: Seq<<T as DeepView>::V>,
    x: <T as DeepView>::V,
    p: spec_fn(<T as DeepView>::V) -> bool,
)
    requires
        in_rank_order::<T>(s),
    ensures
        placed::<T>(s, x).filter(p) == if p(x) {
            placed::<T>(s.filter(p), x)
        } else {
            s.filter(p)
        },
    decreases s.len(),
{
    let kept = s.filter(p);
    if s.len() == 0 {
        lemma_filter_of_last(s.push(x), p);
        assert(s.push(x).drop_last() == s);
        reveal(Seq::filter);
    } else if !T::ahead(x, s.last()) {
        lemma_filter_of_last(s.push(x), p);
        assert(s.push(x).drop_last() == s);
        if kept.len() > 0 && T::ahead(x, kept.last()) {
            s.lemma_filter_contains_rev(p, kept.last());
            let k = s.index_of(kept.last());
            T::comparable(x, s[k], s.last());
            assert(!T::ahead(s[s.len() - 1], s[k]));
        }
    } else {
        let u = s.drop_last();
        assert(in_rank_order::<T>(u));
        lemma_placed_among::<T>(u, x, p);
        let v = placed::<T>(u, x);
        lemma_filter_of_last(v.push(s.last()), p);
        assert(v.push(s.last()).drop_last() == v);
        lemma_filter_of_last(s, p);
        if p(s.last()) {
            assert(kept.drop_last() == u.filter(p));
        }
    }
}

/// Ranking some of the elements gives what is left of them all, ranked.
pub proof fn ranking_keeps_selection<T: Ranked>(
    s: Seq<<T as DeepView>::V>,
    p: spec_fn(<T as DeepView>::V) -> bool,
)
    ensures
        ranked::<T>(s.filter(p)) == ranked::<T>(s).filter(p),
    decreases s.len(),
{
    if s.len() == 0 {
        reveal(Seq::filter);
    } else {
        let u = s.drop_last();
        ranking_keeps_selection::<T>(u, p);
        ranking_arranges::<T>(u, s.last());
        lemma_placed_among::<T>(ranked::<T>(u), s.last(), p);
        lemma_filter_of_last(s, p);
        if p(s.last()) {
            assert(s.filter(p).drop_last() == u.filter(p));
        }
    }
}

/// A flat-map whose function keeps some of what another gives is the other's result, filtered.
pub proof fn lemma_flat_map_narrower<A, B>(
    s: Seq<A>,
    f: spec_fn(A) -> Seq<B>,
    g: spec_fn(A) -> Seq<B>,
    p: spec_fn(B) -> bool,
)
    requires
        forall|i: int| 0 <= i < s.len() ==> g(#[trigger] s[i]) == f(s[i]).filter(p),
    ensures
        s.flat_map(g) == s.flat_map(f).filter(p),
    decreases s.len(),
{
    if s.len() == 0 {
        reveal(Seq::filter);
        assert(s.flat_map(f) == Seq::<B>::empty());
        assert(s.flat_map(g) == Seq::<B>::empty());
    } else {
        let n = s.len() - 1;
        let rest = s.drop_last();
        assert(s.take(n) == rest);
        assert(s.take(n + 1) == s);
        s.lemma_flat_map_take_append(f, n);
        s.lemma_flat_map_take_append(g, n);
        assert forall|i: int| 0 <= i < rest.len() implies g(#[trigger] rest[i]) == f(rest[i]).filter(
            p,
        ) by {
            assert(rest[i] == s[i]);
        }
        lemma_flat_map_narrower(rest, f, g, p);
        Seq::filter_distributes_over_add(rest.flat_map(f), f(s[n]), p);
    }
}

/// A filter that all elements pass keeps them all.
pub proof fn lemma_filter_all<A>(s: Seq<A>, p: spec_fn(A) -> bool)
    requires
        forall|i: int| 0 <= i < s.len() ==> p(#[trigger] s[i]),
    ensures
        s.filter(p) == s,
    decreases s.len(),
{
    reveal(Seq::filter);
    if s.len() > 0 {
        let init = s.drop_last();
        assert forall|i: int| 0 <= i < init.len() implies p(#[trigger] init[i]) by {
            assert(init[i] == s[i]);
        }
        lemma_filter_all(init, p);
        assert(p(s[s.len() - 1]));
        assert(s == init.push(s.last()));
    }
}

/// A filter that no element passes keeps none.
pub proof fn lemma_filter_none<A>(s: Seq<A>, p: spec_fn(A) -> bool)
    requires
        forall|i: int| 0 <= i < s.len() ==> !p(#[trigger] s[i]),
    ensures
        s.filter(p) == Seq::<A>::empty(),
{
    let kept = s.filter(p);
    if kept.len() > 0 {
        s.lemma_filter_pred(p, 0);
        assert(kept.contains(kept[0]));
        s.lemma_filter_contains_rev(p, kept[0]);
        let k = s.index_of(kept[0]);
        assert(!p(s[k]));
    }
    assert(kept =~= Seq::<A>::empty());
}

/// A narrower filter after a wider one keeps what it keeps alone.
pub proof fn lemma_filter_narrower<A>(s: Seq<A>, p: spec_fn(A) -> bool, q: spec_fn(A) -> bool)
    requires
        forall|a: A| #[trigger] q(a) ==> p(a),
    ensures
        s.filter(p).filter(q) == s.filter(q),
    decreases s.len(),
{
    if s.len() == 0 {
        reveal(Seq::filter);
    } else {
        let init = s.drop_last();
        lemma_filter_narrower(init, p, q);
        lemma_filter_of_last(s, p);
        lemma_filter_of_last(s, q);
        if p(s.last()) {
            lemma_filter_of_last(s.filter(p), q);
            assert(s.filter(p).drop_last() =~= init.filter(p));
        }
    }
}

/// Elements that a flat-map gives nothing for can be left out.
pub proof fn lemma_flat_map_without<A, B>(
    s: Seq<A>,
    f: spec_fn(A) -> Seq<B>,
    p: spec_fn(A) -> bool,
)
    requires
        forall|i: int| 0 <= i < s.len() && !p(#[trigger] s[i]) ==> f(s[i]).len() == 0,
    ensures
        s.filter(p).flat_map(f) == s.flat_map(f),
    decreases s.len(),
{
    if s.len() == 0 {
        reveal(Seq::filter);
    } else {
        let n = s.len() - 1;
        let rest = s.drop_last();
        assert(s.take(n) == rest);
        assert(s.take(n + 1) == s);
        s.lemma_flat_map_take_append(f, n);
        assert forall|i: int| 0 <= i < rest.len() && !p(#[trigger] rest[i]) implies f(rest[i]).len()
            == 0 by {
            assert(rest[i] == s[i]);
        }
        lemma_flat_map_without(rest, f, p);
        lemma_filter_of_last(s, p);
        if p(s[n]) {
            rest.filter(p).lemma_flat_map_push(f, s[n]);
        } else {
            assert(rest.flat_map(f) + f(s[n]) =~= rest.flat_map(f));
        }
    }
}

/// What a filter-map gives comes from the elements in their order.
pub proof fn lemma_filter_map_sources<A, B>(
    s: Seq<A>,
    f: spec_fn(A) -> Option<B>,
    i: int,
    j: int,
) -> (at: (int, int))
    requires
        0 <= i < j < s.filter_map(f).len(),
    ensures
        0 <= at.0 < at.1 < s.len(),
        f(s[at.0]) == Some(s.filter_map(f)[i]),
        f(s[at.1]) == Some(s.filter_map(f)[j]),
    decreases s.len(),
{
    let rest = s.drop_last();
    let n = s.len() - 1;
    let before = rest.filter_map(f);
    let all = s.filter_map(f);
    assert(s.last() == s[n]);
    if j < before.len() {
        assert(all[i] == before[i] && all[j] == before[j]);
        lemma_filter_map_sources(rest, f, i, j)
    } else {
        assert(f(s[n]) is Some);
        assert(all == before + seq![f(s[n])->0]);
        assert(all[i] == before[i]);
        assert(before.contains(before[i]));
        rest.lemma_filter_map_contains(f, before[i]);
        let a = choose|a: A| #[trigger] rest.contains(a) && f(a) == Some(before[i]);
        let k = rest.index_of(a);
        assert(s[k] == a);
        (k, n)
    }
}

/// Sorts by rank; elements that share a rank keep their order.
pub fn sort<T: Ranked>(items: Vec<T>) -> (r: Vec<T>)
    ensures
        r.deep_view() == ranked::<T>(items.deep_view()),
{
    let ghost all = items.deep_view();
    let mut items = items;
    let mut done: usize = 0;
    assert(all.take(0) == Seq::<<T as DeepView>::V>::empty());
    assert(items.deep_view() == ranked::<T>(all.take(0)) + all.skip(0));
    while done < items.len()
        invariant
            done <= items.len(),
            items.len() == all.len(),
            ranked::<T>(all.take(done as int)).len() == done,
            items.deep_view() == ranked::<T>(all.take(done as int)) + all.skip(done as int),
        decreases items.len() - done,
    {
        let ghost head = ranked::<T>(all.take(done as int));
        let ghost x = all[done as int];
        let ghost before = items.deep_view();
        assert(before[done as int] == x);
        assert forall|j: int| 0 <= j < done implies (#[trigger] items@[j]).deep_view() == head[j] by {
            assert(before[j] == head[j]);
        }
        let mut at: usize = done;
        while at > 0 && items[done].ahead_of(&items[at - 1])
            invariant
                at <= done < items.len(),
                head.len() == done,
                items.deep_view() == before,
                before == head + all.skip(done as int),
                before[done as int] == x,
                items@[done as int].deep_view() == x,
                forall|j: int| 0 <= j < done ==> (#[trigger] items@[j]).deep_view() == head[j],
                forall|j: int| at <= j < head.len() ==> T::ahead(x, #[trigger] head[j]),
            ensures
                at <= done < items.len(),
                at == 0 || !T::ahead(x, head[at - 1]),
                forall|j: int| at <= j < head.len() ==> T::ahead(x, #[trigger] head[j]),
            decreases at,
        {
            at = at - 1;
        }
        proof {
            lemma_placed_at::<T>(head, x, at as int);
            assert(all.take(done + 1).drop_last() == all.take(done as int));
            assert(all.take(done + 1).last() == x);
        }
        let item = items.remove(done);
        items.insert(at, item);
        assert(items.deep_view() == before.remove(done as int).insert(at as int, x));
        assert(items.deep_view() == head.insert(at as int, x) + all.skip(done + 1));
        done = done + 1;
    }
    assert(all.take(done as int) == all);
    items
}

/// The sequence without each element that equals the one before it.
pub open spec fn without_repeats<A>(s: Seq<A>) -> Seq<A>
    decreases s.len(),
{
    if s.len() < 2 {
        s
    } else if s.last() == s[s.len() - 2] {
        without_repeats(s.drop_last())
    } else {
        without_repeats(s.drop_last()).push(s.last())
    }
}

proof fn lemma_without_repeats_last<A>(s: Seq<A>)
    requires
        s.len() > 0,
    ensures
        0 < without_repeats(s).len() <= s.len(),
        without_repeats(s).last() == s.last(),
    decreases s.len(),
{
    if s.len() >= 2 {
        lemma_without_repeats_last(s.drop_last());
    }
}

/// Leaving out repeats loses no element, leaves no two equal ones side by side, and keeps the order.
pub proof fn repeats_are_left_out<A>(s: Seq<A>)
    ensures
        forall|a: A| #[trigger] without_repeats(s).contains(a) <==> s.contains(a),
        forall|i: int|
            0 < i < without_repeats(s).len() ==> #[trigger] without_repeats(s)[i]
                != without_repeats(s)[i - 1],
    decreases s.len(),
{
    if s.len() < 2 {
    } else {
        let init = s.drop_last();
        let n = s.len() - 1;
        let before = without_repeats(init);
        let out = without_repeats(s);
        repeats_are_left_out(init);
        lemma_without_repeats_last(init);
        assert(init.last() == s[n - 1]);
        assert forall|a: A| #[trigger] out.contains(a) implies s.contains(a) by {
            let k = out.index_of(a);
            if k < before.len() {
                assert(before[k] == a);
                assert(before.contains(a));
                assert(init.contains(a));
                let m = init.index_of(a);
                assert(s[m] == a);
            } else {
                assert(s[n] == a);
            }
        }
        assert forall|a: A| s.contains(a) implies #[trigger] out.contains(a) by {
            let m = s.index_of(a);
            if m < n {
                assert(init[m] == a);
                assert(init.contains(a));
                assert(before.contains(a));
                let k = before.index_of(a);
                assert(out[k] == a);
            } else if s[n] == s[n - 1] {
                assert(init[n - 1] == a);
                assert(init.contains(a));
                assert(before.contains(a));
            } else {
                assert(out[out.len() - 1] == a);
            }
        }
        assert forall|i: int| 0 < i < out.len() implies #[trigger] out[i] != out[i - 1] by {
            if i < before.len() {
                assert(before[i] != before[i - 1]);
            }
        }
    }
}

/// Elements that stand apart after repeats were left out come from places in the same order.
pub proof fn lemma_without_repeats_sources<A>(s: Seq<A>, i: int, j: int) -> (at: (int, int))
    requires
        0 <= i < j < without_repeats(s).len(),
    ensures
        0 <= at.0 < at.1 < s.len(),
        s[at.0] == without_repeats(s)[i],
        s[at.1] == without_repeats(s)[j],
    decreases s.len(),
{
    if s.len() < 2 {
        (i, j)
    } else {
        let init = s.drop_last();
        let n = s.len() - 1;
        let before = without_repeats(init);
        let out = without_repeats(s);
        if j < before.len() {
            let at = lemma_without_repeats_sources(init, i, j);
            assert(out[i] == before[i] && out[j] == before[j]);
            at
        } else {
            repeats_are_left_out(init);
            assert(out[i] == before[i]);
            assert(before.contains(before[i]));
            let k = init.index_of(before[i]);
            assert(s[k] == before[i]);
            (k, n)
        }
    }
}

/// Removes each element that equals the one before it.
pub fn dedup<T: Equal>(items: Vec<T>) -> (r: Vec<T>)
    ensures
        r.deep_view() == without_repeats(items.deep_view()),
{
    let ghost all = items.deep_view();
    let mut items = items;
    if items.len() == 0 {
        return items;
    }
    let ghost mut seen: int = 1;
    let mut kept: usize = 1;
    assert(items.deep_view() == without_repeats(all.take(1)) + all.skip(1));
    while kept < items.len()
        invariant
            0 < kept <= items.len(),
            1 <= seen <= all.len(),
            items.len() - kept == all.len() - seen,
            without_repeats(all.take(seen)).len() == kept,
            items.deep_view() == without_repeats(all.take(seen)) + all.skip(seen),
        decreases items.len() - kept,
    {
        let ghost head = without_repeats(all.take(seen));
        let ghost before = items.deep_view();
        proof {
            lemma_without_repeats_last(all.take(seen));
            assert(before[kept as int] == all[seen]);
            assert(before[kept - 1] == head[kept - 1]);
            assert(all.take(seen).last() == all[seen - 1]);
            assert(all.take(seen + 1).drop_last() == all.take(seen));
            assert(all.take(seen + 1)[seen - 1] == all[seen - 1]);
        }
        if items[kept].equals(&items[kept - 1]) {
            let _ = items.remove(kept);
            assert(items.deep_view() == before.remove(kept as int));
            assert(items.deep_view() == head + all.skip(seen + 1));
        } else {
            assert(items.deep_view() == head.push(all[seen]) + all.skip(seen + 1));
            kept = kept + 1;
        }
        proof {
            seen = seen + 1;
        }
    }
    assert(all.take(seen) == all);
    assert(items.deep_view() == without_repeats(all));
    items
}

/// The elements of a prefix that pass a filter, when the prefix grows by one.
pub proof fn lemma_filter_take<A>(s: Seq<A>, p: spec_fn(A) -> bool, i: int)
    requires
        0 <= i < s.len(),
    ensures
        s.take(i + 1).filter(p) == (if p(s[i]) {
            s.take(i).filter(p).push(s[i])
        } else {
            s.take(i).filter(p)
        }),
{
    reveal(Seq::filter);
    assert(s.take(i + 1).drop_last() == s.take(i));
}

/// What a filter-map keeps of an element is in its result.
pub proof fn lemma_filter_map_has<A, B>(s: Seq<A>, f: spec_fn(A) -> Option<B>, i: int)
    requires
        0 <= i < s.len(),
        f(s[i]) is Some,
    ensures
        s.filter_map(f).contains(f(s[i])->0),
    decreases s.len(),
{
    let b = f(s[i])->0;
    let rest = s.drop_last();
    if i == s.len() - 1 {
        let out = rest.filter_map(f) + seq![b];
        assert(s.filter_map(f) == out);
        assert(out[out.len() - 1] == b);
    } else {
        lemma_filter_map_has(rest, f, i);
        let k = rest.filter_map(f).index_of(b);
        assert(s.filter_map(f)[k] == b);
    }
}

/// What a flat-map holds, it has from some element, and it has all that each element gives.
pub proof fn lemma_flat_map_contains<A, B>(s: Seq<A>, f: spec_fn(A) -> Seq<B>, b: B)
    ensures
        s.flat_map(f).contains(b) <==> exists|i: int|
            0 <= i < s.len() && f(#[trigger] s[i]).contains(b),
    decreases s.len(),
{
    if s.len() == 0 {
        assert(s.flat_map(f).len() == 0);
    } else {
        let n = s.len() - 1;
        let rest = s.drop_last();
        assert(s.take(n) == rest);
        assert(s.take(n + 1) == s);
        s.lemma_flat_map_take_append(f, n);
        lemma_flat_map_contains(rest, f, b);
        let left = rest.flat_map(f);
        let right = f(s[n]);
        assert(s.flat_map(f) == left + right);
        if left.contains(b) {
            let k = left.index_of(b);
            assert((left + right)[k] == b);
            let i = choose|i: int| 0 <= i < rest.len() && f(#[trigger] rest[i]).contains(b);
            assert(s[i] == rest[i]);
        }
        if right.contains(b) {
            let k = right.index_of(b);
            assert((left + right)[left.len() + k] == b);
        }
        if exists|i: int| 0 <= i < s.len() && f(#[trigger] s[i]).contains(b) {
            let i = choose|i: int| 0 <= i < s.len() && f(#[trigger] s[i]).contains(b);
            if i < n {
                assert(rest[i] == s[i]);
            }
        }
        if (left + right).contains(b) {
            let k = (left + right).index_of(b);
            if k < left.len() {
                assert(left[k] == b);
            } else {
                assert(right[k - left.len()] == b);
            }
        }
    }
}

} // verus!
