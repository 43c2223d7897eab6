//! Stable sorting by an order that the element type defines on its view.

use vstd::prelude::*;

use crate::text::views;

verus! {

/// A type whose values are listed in a fixed order. Two values may rank the
/// same without being equal; a sort then leaves them as they came.
pub trait Ranked: View + Sized {
    spec fn leq(a: Self::V, b: Self::V) -> bool;

    proof fn leq_total(a: Self::V, b: Self::V)
        ensures
            Self::leq(a, b) || Self::leq(b, a),
    ;

    proof fn leq_transitive(a: Self::V, b: Self::V, c: Self::V)
        requires
            Self::leq(a, b),
            Self::leq(b, c),
        ensures
            Self::leq(a, c),
    ;

    fn le(&self, other: &Self) -> (r: bool)
        ensures
            r == Self::leq(self@, other@),
    ;
}

impl<'a, T: Ranked> Ranked for &'a T {
    open spec fn leq(a: T::V, b: T::V) -> bool {
        T::leq(a, b)
    }

    proof fn leq_total(a: T::V, b: T::V) {
        T::leq_total(a, b);
    }

    proof fn leq_transitive(a: T::V, b: T::V, c: T::V) {
        T::leq_transitive(a, b, c);
    }

    fn le(&self, other: &Self) -> (r: bool) {
        (**self).le(*other)
    }
}

/// `x` put into `s` behind everything at the end of it that does not rank
/// after `x`.
pub open spec fn inserted<T: Ranked>(s: Seq<T::V>, x: T::V) -> Seq<T::V>
    decreases s.len(),
{
    if s.len() == 0 || T::leq(s.last(), x) {
        s.push(x)
    } else {
        inserted::<T>(s.drop_last(), x).push(s.last())
    }
}

/// The elements of `s` in order, those of one rank as they stand in `s`.
pub open spec fn in_order<T: Ranked>(s: Seq<T::V>) -> Seq<T::V>
    decreases s.len(),
{
    if s.len() == 0 {
        Seq::empty()
    } else {
        inserted::<T>(in_order::<T>(s.drop_last()), s.last())
    }
}

pub open spec fn is_ordered<T: Ranked>(s: Seq<T::V>) -> bool {
    forall|i: int, j: int| 0 <= i <= j < s.len() ==> T::leq(#[trigger] s[i], #[trigger] s[j])
}

/// Of two elements in order, the earlier one does not rank after the later one.
pub proof fn lemma_ordered_at<T: Ranked>(s: Seq<T::V>, i: int, j: int)
    requires
        is_ordered::<T>(s),
        0 <= i <= j < s.len(),
    ensures
        T::leq(s[i], s[j]),
{
}

/// The front of what is in order is in order.
pub proof fn lemma_front_ordered<T: Ranked>(s: Seq<T::V>)
    requires
        is_ordered::<T>(s),
        s.len() > 0,
    ensures
        is_ordered::<T>(s.drop_last()),
{
    let front = s.drop_last();
    assert forall|i: int, j: int| 0 <= i <= j < front.len() implies T::leq(
        #[trigger] front[i],
        #[trigger] front[j],
    ) by {
        lemma_ordered_at::<T>(s, i, j);
        assert(front[i] == s[i] && front[j] == s[j]);
    }
}

/// No two elements are related, in either order.
pub open spec fn are_apart<A>(s: Seq<A>, related: spec_fn(A, A) -> bool) -> bool {
    forall|i: int, j: int|
        0 <= i < s.len() && 0 <= j < s.len() && i != j ==> !related(
            #[trigger] s[i],
            #[trigger] s[j],
        )
}

proof fn lemma_inserted_apart<T: Ranked>(
    s: Seq<T::V>,
    x: T::V,
    related: spec_fn(T::V, T::V) -> bool,
)
    requires
        are_apart(s, related),
        forall|i: int| 0 <= i < s.len() ==> !related(x, #[trigger] s[i]) && !related(s[i], x),
    ensures
        are_apart(inserted::<T>(s, x), related),
    decreases s.len(),
{
    let r = inserted::<T>(s, x);
    if s.len() == 0 || T::leq(s.last(), x) {
        assert forall|i: int, j: int|
            0 <= i < r.len() && 0 <= j < r.len() && i != j implies !related(
            #[trigger] r[i],
            #[trigger] r[j],
        ) by {
            if i < s.len() {
                assert(r[i] == s[i]);
            }
            if j < s.len() {
                assert(r[j] == s[j]);
            }
        }
    } else {
        let front = s.drop_last();
        let put = inserted::<T>(front, x);
        let last = s.len() - 1;
        assert forall|i: int, j: int|
            0 <= i < front.len() && 0 <= j < front.len() && i != j implies !related(
            #[trigger] front[i],
            #[trigger] front[j],
        ) by {
            assert(!related(s[i], s[j]));
        }
        assert forall|i: int| 0 <= i < front.len() implies !related(x, #[trigger] front[i])
            && !related(front[i], x) by {
            assert(!related(x, s[i]) && !related(s[i], x));
        }
        lemma_inserted_apart::<T>(front, x, related);
        assert forall|i: int| 0 <= i < put.len() implies !related(#[trigger] put[i], s[last])
            && !related(s[last], put[i]) by {
            lemma_inserted_origin::<T>(front, x, i);
            if put[i] != x {
                let k = choose|k: int| 0 <= k < front.len() && front[k] == put[i];
                assert(!related(s[k], s[last]) && !related(s[last], s[k]));
            }
        }
        assert forall|i: int, j: int|
            0 <= i < r.len() && 0 <= j < r.len() && i != j implies !related(
            #[trigger] r[i],
            #[trigger] r[j],
        ) by {
            if i < put.len() {
                assert(r[i] == put[i]);
            }
            if j < put.len() {
                assert(r[j] == put[j]);
            }
        }
    }
}

/// Sorting relates nothing that was unrelated.
pub proof fn lemma_in_order_apart<T: Ranked>(
    s: Seq<T::V>,
    related: spec_fn(T::V, T::V) -> bool,
)
    requires
        are_apart(s, related),
    ensures
        are_apart(in_order::<T>(s), related),
    decreases s.len(),
{
    if s.len() > 0 {
        let front = s.drop_last();
        let sorted = in_order::<T>(front);
        let last = s.len() - 1;
        assert forall|i: int, j: int|
            0 <= i < front.len() && 0 <= j < front.len() && i != j implies !related(
            #[trigger] front[i],
            #[trigger] front[j],
        ) by {
            assert(!related(s[i], s[j]));
        }
        lemma_in_order_apart::<T>(front, related);
        lemma_in_order::<T>(front);
        assert forall|i: int| 0 <= i < sorted.len() implies !related(
            s.last(),
            #[trigger] sorted[i],
        ) && !related(sorted[i], s.last()) by {
            assert(sorted.contains(sorted[i]));
            assert(front.contains(sorted[i]));
            let k = choose|k: int| 0 <= k < front.len() && front[k] == sorted[i];
            assert(!related(s[last], s[k]) && !related(s[k], s[last]));
        }
        lemma_inserted_apart::<T>(sorted, s.last(), related);
    }
}

proof fn lemma_inserted<T: Ranked>(s: Seq<T::V>, x: T::V)
    ensures
        inserted::<T>(s, x).len() == s.len() + 1,
        inserted::<T>(s, x).to_multiset() == s.to_multiset().insert(x),
        is_ordered::<T>(s) ==> is_ordered::<T>(inserted::<T>(s, x)),
    decreases s.len(),
{
    broadcast use vstd::seq_lib::to_multiset_build;

    T::leq_total(x, x);
    if s.len() == 0 {
        assert(is_ordered::<T>(inserted::<T>(s, x)));
    } else if T::leq(s.last(), x) {
        let r = s.push(x);
        if is_ordered::<T>(s) {
            assert forall|i: int, j: int| 0 <= i <= j < r.len() implies T::leq(
                #[trigger] r[i],
                #[trigger] r[j],
            ) by {
                if j == s.len() && i < s.len() {
                    assert(T::leq(s[i], s[s.len() - 1]));
                    T::leq_transitive(s[i], s.last(), x);
                }
            }
        }
    } else {
        let front = s.drop_last();
        let put = inserted::<T>(front, x);
        let r = put.push(s.last());
        lemma_inserted::<T>(front, x);
        assert(front.push(s.last()) =~= s);
        assert(r.to_multiset() =~= s.to_multiset().insert(x));
        if is_ordered::<T>(s) {
            T::leq_total(s.last(), x);
            assert(is_ordered::<T>(front));
            assert forall|i: int, j: int| 0 <= i <= j < r.len() implies T::leq(
                #[trigger] r[i],
                #[trigger] r[j],
            ) by {
                if j == put.len() {
                    if i == j {
                        T::leq_total(s.last(), s.last());
                    } else {
                        assert(put.to_multiset().count(put[i]) > 0) by {
                            put.to_multiset_ensures();
                            assert(put.contains(put[i]));
                        }
                        if put[i] != x {
                            front.to_multiset_ensures();
                            assert(front.contains(put[i]));
                            let k = choose|k: int| 0 <= k < front.len() && front[k] == put[i];
                            assert(T::leq(s[k], s[s.len() - 1]));
                        }
                    }
                }
            }
        }
    }
}

/// A sort loses nothing, adds nothing, and leaves the elements in order.
pub proof fn lemma_in_order<T: Ranked>(s: Seq<T::V>)
    ensures
        in_order::<T>(s).len() == s.len(),
        in_order::<T>(s).to_multiset() == s.to_multiset(),
        is_ordered::<T>(in_order::<T>(s)),
        forall|x: T::V| in_order::<T>(s).contains(x) <==> #[trigger] s.contains(x),
    decreases s.len(),
{
    broadcast use vstd::seq_lib::to_multiset_build;

    if s.len() > 0 {
        let front = s.drop_last();
        lemma_in_order::<T>(front);
        lemma_inserted::<T>(in_order::<T>(front), s.last());
        assert(front.push(s.last()) =~= s);
    }
    let r = in_order::<T>(s);
    r.to_multiset_ensures();
    s.to_multiset_ensures();
    assert forall|x: T::V| r.contains(x) <==> #[trigger] s.contains(x) by {
        assert(r.contains(x) <==> r.to_multiset().count(x) > 0);
        assert(s.contains(x) <==> s.to_multiset().count(x) > 0);
    }
}

/// The first of the elements for which `p` holds.
pub open spec fn first_where<A>(s: Seq<A>, p: spec_fn(A) -> bool) -> Option<A>
    decreases s.len(),
{
    if s.len() == 0 {
        None
    } else if p(s[0]) {
        Some(s[0])
    } else {
        first_where(s.drop_first(), p)
    }
}

/// `first_where` on a longer sequence.
pub proof fn lemma_first_where_push<A>(s: Seq<A>, x: A, p: spec_fn(A) -> bool)
    ensures
        first_where(s.push(x), p) == (match first_where(s, p) {
            Some(a) => Some(a),
            None => if p(x) {
                Some(x)
            } else {
                None
            },
        }),
        first_where(s, p) is None <==> forall|i: int| 0 <= i < s.len() ==> !p(#[trigger] s[i]),
    decreases s.len(),
{
    let longer = s.push(x);
    if s.len() == 0 {
        assert(longer.drop_first() =~= Seq::empty());
        assert(first_where(longer.drop_first(), p) is None);
    } else {
        let rest = s.drop_first();
        lemma_first_where_push(rest, x, p);
        assert(longer.drop_first() =~= rest.push(x));
        if first_where(s, p) is None {
            assert forall|i: int| 0 <= i < s.len() implies !p(#[trigger] s[i]) by {
                if i > 0 {
                    assert(s[i] == rest[i - 1]);
                }
            }
        } else if !p(s[0]) {
            let j = choose|j: int| 0 <= j < rest.len() && p(#[trigger] rest[j]);
            assert(s[j + 1] == rest[j]);
        }
    }
}

proof fn lemma_inserted_keeps_first<T: Ranked>(s: Seq<T::V>, x: T::V, p: spec_fn(T::V) -> bool)
    requires
        forall|a: T::V, b: T::V| p(a) && p(b) ==> #[trigger] T::leq(a, b),
    ensures
        first_where(inserted::<T>(s, x), p) == first_where(s.push(x), p),
    decreases s.len(),
{
    lemma_first_where_push(s, x, p);
    if s.len() > 0 && !T::leq(s.last(), x) {
        let front = s.drop_last();
        assert(front.push(s.last()) =~= s);
        lemma_inserted_keeps_first::<T>(front, x, p);
        lemma_first_where_push(front, x, p);
        lemma_first_where_push(front, s.last(), p);
        lemma_first_where_push(inserted::<T>(front, x), s.last(), p);
    }
}

/// Among elements that rank the same, the first one stays the first.
pub proof fn lemma_in_order_keeps_first<T: Ranked>(s: Seq<T::V>, p: spec_fn(T::V) -> bool)
    requires
        forall|a: T::V, b: T::V| p(a) && p(b) ==> #[trigger] T::leq(a, b),
    ensures
        first_where(in_order::<T>(s), p) == first_where(s, p),
    decreases s.len(),
{
    if s.len() > 0 {
        let front = s.drop_last();
        assert(front.push(s.last()) =~= s);
        lemma_in_order_keeps_first::<T>(front, p);
        lemma_inserted_keeps_first::<T>(in_order::<T>(front), s.last(), p);
        lemma_first_where_push(front, s.last(), p);
        lemma_first_where_push(in_order::<T>(front), s.last(), p);
    }
}

/// Sorting what is in order changes nothing.
pub proof fn lemma_in_order_again<T: Ranked>(s: Seq<T::V>)
    requires
        is_ordered::<T>(s),
    ensures
        in_order::<T>(s) == s,
    decreases s.len(),
{
    if s.len() == 0 {
        assert(in_order::<T>(s) =~= s);
    } else {
        let front = s.drop_last();
        assert forall|i: int, j: int| 0 <= i <= j < front.len() implies T::leq(
            #[trigger] front[i],
            #[trigger] front[j],
        ) by {
            assert(T::leq(s[i], s[j]));
        }
        lemma_in_order_again::<T>(front);
        if front.len() > 0 {
            assert(T::leq(s[front.len() - 1], s[front.len() as int]));
        }
        assert(front.push(s.last()) =~= s);
    }
}

/// No element comes after one that it has to precede.
pub open spec fn keeps_precedence<A>(s: Seq<A>, precedes: spec_fn(A, A) -> bool) -> bool {
    forall|i: int, j: int| 0 <= i < j < s.len() ==> !precedes(#[trigger] s[j], #[trigger] s[i])
}

proof fn lemma_inserted_origin<T: Ranked>(s: Seq<T::V>, x: T::V, i: int)
    requires
        0 <= i < inserted::<T>(s, x).len(),
    ensures
        inserted::<T>(s, x)[i] == x || s.contains(inserted::<T>(s, x)[i]),
    decreases s.len(),
{
    let r = inserted::<T>(s, x);
    if s.len() == 0 || T::leq(s.last(), x) {
        if i < s.len() {
            assert(s[i] == r[i]);
        }
    } else {
        let put = inserted::<T>(s.drop_last(), x);
        if i < put.len() {
            lemma_inserted_origin::<T>(s.drop_last(), x, i);
            if put[i] != x {
                let front = s.drop_last();
                let k = choose|k: int| 0 <= k < front.len() && front[k] == put[i];
                assert(s[k] == r[i]);
            }
        } else {
            assert(s[s.len() - 1] == r[i]);
        }
    }
}

proof fn lemma_inserted_keeps_precedence<T: Ranked>(
    s: Seq<T::V>,
    x: T::V,
    precedes: spec_fn(T::V, T::V) -> bool,
)
    requires
        forall|a: T::V, b: T::V| #[trigger] precedes(a, b) ==> T::leq(a, b),
        keeps_precedence(s, precedes),
        forall|i: int| 0 <= i < s.len() ==> !precedes(x, #[trigger] s[i]),
    ensures
        keeps_precedence(inserted::<T>(s, x), precedes),
    decreases s.len(),
{
    let r = inserted::<T>(s, x);
    if s.len() == 0 || T::leq(s.last(), x) {
        assert forall|i: int, j: int| 0 <= i < j < r.len() implies !precedes(
            #[trigger] r[j],
            #[trigger] r[i],
        ) by {
            assert(r[i] == s[i]);
            if j < s.len() {
                assert(r[j] == s[j]);
            }
        }
    } else {
        let front = s.drop_last();
        let put = inserted::<T>(front, x);
        assert forall|i: int, j: int| 0 <= i < j < front.len() implies !precedes(
            #[trigger] front[j],
            #[trigger] front[i],
        ) by {
            assert(!precedes(s[j], s[i]));
        }
        assert forall|i: int| 0 <= i < front.len() implies !precedes(x, #[trigger] front[i]) by {
            assert(!precedes(x, s[i]));
        }
        lemma_inserted_keeps_precedence::<T>(front, x, precedes);
        assert forall|i: int, j: int| 0 <= i < j < r.len() implies !precedes(
            #[trigger] r[j],
            #[trigger] r[i],
        ) by {
            assert(r[i] == put[i]);
            if j < put.len() {
                assert(r[j] == put[j]);
            } else {
                lemma_inserted_origin::<T>(front, x, i);
                if put[i] == x {
                    assert(!precedes(s.last(), x));
                } else {
                    let k = choose|k: int| 0 <= k < front.len() && front[k] == put[i];
                    assert(!precedes(s[s.len() - 1], s[k]));
                }
            }
        }
    }
}

/// A sort leaves what has to precede in front, if it never ranks after.
pub proof fn lemma_in_order_keeps_precedence<T: Ranked>(
    s: Seq<T::V>,
    precedes: spec_fn(T::V, T::V) -> bool,
)
    requires
        forall|a: T::V, b: T::V| #[trigger] precedes(a, b) ==> T::leq(a, b),
        keeps_precedence(s, precedes),
    ensures
        keeps_precedence(in_order::<T>(s), precedes),
    decreases s.len(),
{
    if s.len() > 0 {
        let front = s.drop_last();
        let sorted = in_order::<T>(front);
        assert forall|i: int, j: int| 0 <= i < j < front.len() implies !precedes(
            #[trigger] front[j],
            #[trigger] front[i],
        ) by {
            assert(!precedes(s[j], s[i]));
        }
        lemma_in_order_keeps_precedence::<T>(front, precedes);
        lemma_in_order::<T>(front);
        assert forall|i: int| 0 <= i < sorted.len() implies !precedes(
            s.last(),
            #[trigger] sorted[i],
        ) by {
            assert(sorted.contains(sorted[i]));
            assert(front.contains(sorted[i]));
            let k = choose|k: int| 0 <= k < front.len() && front[k] == sorted[i];
            assert(!precedes(s[s.len() - 1], s[k]));
        }
        lemma_inserted_keeps_precedence::<T>(sorted, s.last(), precedes);
    }
}

proof fn lemma_inserted_at<T: Ranked>(s: Seq<T::V>, x: T::V, k: int)
    requires
        0 <= k <= s.len(),
        k > 0 ==> T::leq(s[k - 1], x),
        forall|i: int| k <= i < s.len() ==> !T::leq(#[trigger] s[i], x),
    ensures
        inserted::<T>(s, x) == s.insert(k, x),
    decreases s.len(),
{
    if s.len() == k {
        assert(s.insert(k, x) =~= s.push(x));
    } else {
        assert(!T::leq(s[s.len() - 1], x));
        lemma_inserted_at::<T>(s.drop_last(), x, k);
        assert(s.insert(k, x) =~= s.drop_last().insert(k, x).push(s.last()));
    }
}

/// Puts `x` into `v` behind everything that does not rank after it.
pub fn insert_in_order<T: Ranked>(v: &mut Vec<T>, x: T)
    ensures
        views(final(v)@) == inserted::<T>(views(old(v)@), x@),
{
    let ghost seen = views(v@);
    let mut k = v.len();
    while k > 0 && !v[k - 1].le(&x)
        invariant
            k <= v.len(),
            seen == views(v@),
            forall|i: int| k <= i < v.len() ==> !T::leq(#[trigger] seen[i], x@),
        decreases k,
    {
        k = k - 1;
    }
    proof {
        lemma_inserted_at::<T>(seen, x@, k as int);
    }
    v.insert(k, x);
    assert(views(v@) =~= seen.insert(k as int, x@));
}

pub fn sort<T: Ranked>(v: Vec<T>) -> (r: Vec<T>)
    ensures
        views(r@) == in_order::<T>(views(v@)),
{
    let ghost all = views(v@);
    let mut out: Vec<T> = Vec::new();
    assert(views(out@) =~= in_order::<T>(all.take(0)));
    for x in it: v
        invariant
            it.seq() == v@,
            all == views(v@),
            views(out@) == in_order::<T>(all.take(it.index() as int)),
    {
        assert(all.take(it.index() + 1).drop_last() =~= all.take(it.index() as int));
        insert_in_order(&mut out, x);
    }
    assert(all.take(v.len() as int) =~= all);
    out
}

} // verus!
