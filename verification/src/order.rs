//! Stable sorting by a strict order, stated as repeated insertion.

use vstd::prelude::*;

verus! {

/// Where `x` goes in `s`: behind every element that it does not come before,
/// counted from the end.
pub open spec fn slot<A>(s: Seq<A>, x: A, lt: spec_fn(A, A) -> bool) -> int
    decreases s.len(),
{
    if s.len() > 0 && lt(x, s.last()) {
        slot(s.drop_last(), x, lt)
    } else {
        s.len() as int
    }
}

/// The stable sort of `s` by `lt`: elements are taken in order and each is
/// put behind those already placed that it does not come before.
pub open spec fn stable_sort<A>(s: Seq<A>, lt: spec_fn(A, A) -> bool) -> Seq<A>
    decreases s.len(),
{
    if s.len() == 0 {
        s
    } else {
        let placed = stable_sort(s.drop_last(), lt);
        placed.insert(slot(placed, s.last(), lt), s.last())
    }
}

/// No element comes before an earlier one.
pub open spec fn is_sorted<A>(s: Seq<A>, lt: spec_fn(A, A) -> bool) -> bool {
    forall|i: int, j: int| 0 <= i < j < s.len() ==> !#[trigger] lt(s[j], s[i])
}

/// Every element comes before the later ones.
pub open spec fn rises<A>(s: Seq<A>, lt: spec_fn(A, A) -> bool) -> bool {
    forall|i: int, j: int| 0 <= i < j < s.len() ==> #[trigger] lt(s[i], s[j])
}

/// A strict weak order.
pub open spec fn is_order<A>(lt: spec_fn(A, A) -> bool) -> bool {
    &&& forall|a: A| !#[trigger] lt(a, a)
    &&& forall|a: A, b: A, c: A| #[trigger] lt(a, b) && #[trigger] lt(b, c) ==> lt(a, c)
    &&& forall|a: A, b: A, c: A| !#[trigger] lt(a, b) && !#[trigger] lt(b, c) ==> !lt(a, c)
}

/// By one order, and by another where that one does not tell apart.
pub open spec fn by_both<A>(
    f: spec_fn(A, A) -> bool,
    g: spec_fn(A, A) -> bool,
) -> spec_fn(A, A) -> bool {
    |a: A, b: A| f(a, b) || (!f(b, a) && g(a, b))
}

/// Ordering by both of two strict weak orders is one too.
pub proof fn by_both_is_order<A>(f: spec_fn(A, A) -> bool, g: spec_fn(A, A) -> bool)
    requires
        is_order(f),
        is_order(g),
    ensures
        is_order(by_both(f, g)),
{
    let h = by_both(f, g);
    assert forall|a: A| !#[trigger] h(a, a) by {
        assert(!f(a, a) && !g(a, a));
    }
    assert forall|a: A, b: A, c: A| #[trigger] h(a, b) && #[trigger] h(b, c) implies h(a, c) by {
        if f(a, b) {
            if !f(b, c) && !f(a, c) {
                assert(!f(c, b));
                assert(!f(a, b));
            }
        } else if f(b, c) {
            if !f(a, c) {
                assert(!f(b, a));
                assert(!f(b, c));
            }
        } else {
            assert(!f(c, b) && !f(b, a));
            assert(!f(c, a));
            assert(g(a, b) && g(b, c));
        }
    }
    assert forall|a: A, b: A, c: A| !#[trigger] h(a, b) && !#[trigger] h(b, c) implies !h(
        a,
        c,
    ) by {
        assert(!f(a, b) && !f(b, c));
        assert(!f(a, c));
        if !f(c, a) {
            if f(b, a) {
                assert(!f(b, c) && !f(c, a));
                assert(false);
            }
            if f(c, b) {
                assert(!f(c, a) && !f(a, b));
                assert(false);
            }
            assert(!g(a, b) && !g(b, c));
        }
    }
}

/// Ordering by a key.
pub open spec fn by_key<A, B>(key: spec_fn(A) -> B, lt: spec_fn(B, B) -> bool) -> spec_fn(
    A,
    A,
) -> bool {
    |a: A, b: A| lt(key(a), key(b))
}

/// Ordering by a key is as strict and weak as the order of the keys.
pub proof fn by_key_is_order<A, B>(key: spec_fn(A) -> B, lt: spec_fn(B, B) -> bool)
    requires
        is_order(lt),
    ensures
        is_order(by_key(key, lt)),
{
    let h = by_key(key, lt);
    assert forall|a: A| !#[trigger] h(a, a) by {
        assert(!lt(key(a), key(a)));
    }
    assert forall|a: A, b: A, c: A| #[trigger] h(a, b) && #[trigger] h(b, c) implies h(a, c) by {
        assert(lt(key(a), key(b)) && lt(key(b), key(c)));
    }
    assert forall|a: A, b: A, c: A| !#[trigger] h(a, b) && !#[trigger] h(b, c) implies !h(
        a,
        c,
    ) by {
        assert(!lt(key(a), key(b)) && !lt(key(b), key(c)));
    }
}

/// A rule that tells which of two values comes first.
pub trait Order<T> {
    spec fn lt(&self, a: T, b: T) -> bool;

    fn before(&self, a: &T, b: &T) -> (r: bool)
        ensures
            r == self.lt(*a, *b),
    ;
}

/// An [`Order`] as a function.
pub open spec fn order_of<T, O: Order<T>>(o: O) -> spec_fn(T, T) -> bool {
    |a: T, b: T| o.lt(a, b)
}

pub proof fn slot_bounds<A>(s: Seq<A>, x: A, lt: spec_fn(A, A) -> bool)
    ensures
        0 <= slot(s, x, lt) <= s.len(),
    decreases s.len(),
{
    if s.len() > 0 && lt(x, s.last()) {
        slot_bounds(s.drop_last(), x, lt);
    }
}

/// Sort a vector stably.
pub fn sort_by<T, O: Order<T>>(items: Vec<T>, o: &O) -> (r: Vec<T>)
    ensures
        r@ == stable_sort(items@, order_of(*o)),
{
    let ghost all = items@;
    let mut rest = items;
    let mut out: Vec<T> = Vec::new();
    let ghost mut done: int = 0;
    assert(all.take(0) =~= Seq::<T>::empty());
    while rest.len() > 0
        invariant
            0 <= done <= all.len(),
            rest@ == all.skip(done),
            out@ == stable_sort(all.take(done), order_of(*o)),
        decreases rest.len(),
    {
        let x = rest.remove(0);
        let mut at: usize = out.len();
        assert(out@.take(at as int) =~= out@);
        while at > 0 && o.before(&x, &out[at - 1])
            invariant
                at <= out.len(),
                slot(out@, x, order_of(*o)) == slot(out@.take(at as int), x, order_of(*o)),
            decreases at,
        {
            assert(out@.take(at as int).drop_last() =~= out@.take(at - 1));
            assert(out@.take(at as int).last() == out@[at - 1]);
            at = at - 1;
        }
        assert(at > 0 ==> out@.take(at as int).last() == out@[at - 1]);
        assert(slot(out@, x, order_of(*o)) == at);
        proof {
            assert(all.take(done + 1).drop_last() =~= all.take(done));
            assert(all.take(done + 1).last() == x);
        }
        out.insert(at, x);
        proof {
            assert(all.skip(done).remove(0) =~= all.skip(done + 1));
            done = done + 1;
        }
    }
    assert(all.take(done) =~= all);
    out
}

/// Sorting keeps every element, as often as it occurs.
pub proof fn stable_sort_keeps<A>(s: Seq<A>, lt: spec_fn(A, A) -> bool)
    ensures
        stable_sort(s, lt).len() == s.len(),
        stable_sort(s, lt).to_multiset() == s.to_multiset(),
    decreases s.len(),
{
    if s.len() > 0 {
        let placed = stable_sort(s.drop_last(), lt);
        stable_sort_keeps(s.drop_last(), lt);
        slot_bounds(placed, s.last(), lt);
        let at = slot(placed, s.last(), lt);
        vstd::seq_lib::to_multiset_insert(placed, at, s.last());
        vstd::seq_lib::to_multiset_build(s.drop_last(), s.last());
        assert(s.drop_last().push(s.last()) =~= s);
        assert(stable_sort(s, lt).to_multiset() =~= s.to_multiset());
    }
}

/// Sorting sorts.
pub proof fn stable_sort_sorts<A>(s: Seq<A>, lt: spec_fn(A, A) -> bool)
    requires
        is_order(lt),
    ensures
        is_sorted(stable_sort(s, lt), lt),
    decreases s.len(),
{
    if s.len() > 0 {
        let placed = stable_sort(s.drop_last(), lt);
        stable_sort_sorts(s.drop_last(), lt);
        insert_keeps_sorted(placed, s.last(), lt);
    }
}

pub proof fn slot_splits<A>(s: Seq<A>, x: A, lt: spec_fn(A, A) -> bool)
    ensures
        0 <= slot(s, x, lt) <= s.len(),
        slot(s, x, lt) > 0 ==> !lt(x, s[slot(s, x, lt) - 1]),
        forall|i: int| slot(s, x, lt) <= i < s.len() ==> #[trigger] lt(x, s[i]),
    decreases s.len(),
{
    if s.len() > 0 && lt(x, s.last()) {
        slot_splits(s.drop_last(), x, lt);
        assert forall|i: int| slot(s, x, lt) <= i < s.len() implies #[trigger] lt(x, s[i]) by {
            if i < s.len() - 1 {
                assert(s.drop_last()[i] == s[i]);
                assert(lt(x, s.drop_last()[i]));
            }
        }
    }
}

proof fn insert_keeps_sorted<A>(s: Seq<A>, x: A, lt: spec_fn(A, A) -> bool)
    requires
        is_order(lt),
        is_sorted(s, lt),
    ensures
        is_sorted(s.insert(slot(s, x, lt), x), lt),
{
    slot_splits(s, x, lt);
    let at = slot(s, x, lt);
    let t = s.insert(at, x);
    assert forall|i: int, j: int| 0 <= i < j < t.len() implies !#[trigger] lt(t[j], t[i]) by {
        if i < at && at < j {
            assert(t[i] == s[i] && t[j] == s[j - 1]);
            assert(!lt(s[j - 1], s[i]));
        } else if i < at && j == at {
            if i < at - 1 {
                assert(!lt(s[at - 1], s[i]));
                assert(!lt(x, s[at - 1]));
            }
        } else if i == at {
            assert(t[j] == s[j - 1]);
            assert(lt(x, s[j - 1]));
            if lt(s[j - 1], x) {
                assert(lt(x, x));
            }
        } else if i > at {
            assert(!lt(s[j - 1], s[i - 1]));
        } else {
            assert(!lt(s[j], s[i]));
        }
    }
}

/// The sum of a measure over a sequence.
pub open spec fn sum_of<A>(s: Seq<A>, f: spec_fn(A) -> int) -> int
    decreases s.len(),
{
    if s.len() == 0 {
        0
    } else {
        sum_of(s.drop_last(), f) + f(s.last())
    }
}

pub proof fn sum_of_insert<A>(s: Seq<A>, f: spec_fn(A) -> int, at: int, x: A)
    requires
        0 <= at <= s.len(),
    ensures
        sum_of(s.insert(at, x), f) == sum_of(s, f) + f(x),
    decreases s.len(),
{
    let t = s.insert(at, x);
    if at == s.len() {
        assert(t.drop_last() =~= s);
    } else {
        sum_of_insert(s.drop_last(), f, at, x);
        assert(t.drop_last() =~= s.drop_last().insert(at, x));
        assert(t.last() == s.last());
    }
}

pub proof fn sum_of_update<A>(s: Seq<A>, f: spec_fn(A) -> int, at: int, x: A)
    requires
        0 <= at < s.len(),
    ensures
        sum_of(s.update(at, x), f) == sum_of(s, f) - f(s[at]) + f(x),
    decreases s.len(),
{
    let t = s.update(at, x);
    if at == s.len() - 1 {
        assert(t.drop_last() =~= s.drop_last());
    } else {
        sum_of_update(s.drop_last(), f, at, x);
        assert(t.drop_last() =~= s.drop_last().update(at, x));
    }
}

/// What sorting gives are elements of what was sorted.
pub proof fn stable_sort_elements<A>(s: Seq<A>, lt: spec_fn(A, A) -> bool)
    ensures
        forall|x: A| #[trigger] stable_sort(s, lt).contains(x) <==> s.contains(x),
{
    stable_sort_keeps(s, lt);
    assert forall|x: A| #[trigger] stable_sort(s, lt).contains(x) <==> s.contains(x) by {
        vstd::seq_lib::to_multiset_contains(s, x);
        vstd::seq_lib::to_multiset_contains(stable_sort(s, lt), x);
    }
}

/// Sorting commutes with a mapping that the order does not see.
pub proof fn stable_sort_maps<A, B>(
    s: Seq<A>,
    f: spec_fn(A) -> B,
    lt: spec_fn(A, A) -> bool,
    lt_image: spec_fn(B, B) -> bool,
)
    requires
        forall|a: A, b: A| s.contains(a) && s.contains(b) ==> #[trigger] lt(a, b) == lt_image(f(a), f(b)),
    ensures
        stable_sort(s, lt).map_values(f) == stable_sort(s.map_values(f), lt_image),
    decreases s.len(),
{
    if s.len() == 0 {
        assert(s.map_values(f) =~= Seq::<B>::empty());
        assert(stable_sort(s, lt).map_values(f) =~= Seq::<B>::empty());
    } else {
        let front = s.drop_last();
        let placed = stable_sort(front, lt);
        assert forall|a: A| front.contains(a) implies s.contains(a) by {
            let i = choose|i: int| 0 <= i < front.len() && front[i] == a;
            assert(s[i] == a);
        }
        assert(s.contains(s.last()));
        stable_sort_elements(front, lt);
        stable_sort_maps(front, f, lt, lt_image);
        slot_maps(placed, s.last(), f, lt, lt_image);
        slot_bounds(placed, s.last(), lt);
        assert(s.map_values(f).drop_last() =~= front.map_values(f));
        assert(s.map_values(f).last() == f(s.last()));
        let at = slot(placed, s.last(), lt);
        assert(placed.insert(at, s.last()).map_values(f) =~= placed.map_values(f).insert(
            at,
            f(s.last()),
        ));
    }
}

proof fn slot_maps<A, B>(
    s: Seq<A>,
    x: A,
    f: spec_fn(A) -> B,
    lt: spec_fn(A, A) -> bool,
    lt_image: spec_fn(B, B) -> bool,
)
    requires
        forall|a: A| s.contains(a) ==> #[trigger] lt(x, a) == lt_image(f(x), f(a)),
    ensures
        slot(s, x, lt) == slot(s.map_values(f), f(x), lt_image),
    decreases s.len(),
{
    if s.len() > 0 {
        assert(s.contains(s.last()));
        assert(s.map_values(f).last() == f(s.last()));
        assert(s.map_values(f).drop_last() =~= s.drop_last().map_values(f));
        assert(lt(x, s.last()) == lt_image(f(x), f(s.last())));
        assert forall|a: A| s.drop_last().contains(a) implies s.contains(a) by {
            let i = choose|i: int| 0 <= i < s.drop_last().len() && s.drop_last()[i] == a;
            assert(s[i] == a);
        }
        slot_maps(s.drop_last(), x, f, lt, lt_image);
    }
}

/// Whether the order tells any two different elements of `s` apart.
pub open spec fn tells_apart<A>(s: Seq<A>, lt: spec_fn(A, A) -> bool) -> bool {
    forall|a: A, b: A|
        s.contains(a) && s.contains(b) && a != b ==> #[trigger] lt(a, b) || lt(b, a)
}

proof fn sorted_are_equal<A>(s: Seq<A>, t: Seq<A>, lt: spec_fn(A, A) -> bool)
    requires
        is_sorted(s, lt),
        is_sorted(t, lt),
        s.to_multiset() == t.to_multiset(),
        tells_apart(s, lt),
    ensures
        s == t,
    decreases s.len(),
{
    s.to_multiset_ensures();
    t.to_multiset_ensures();
    assert(s.len() == t.len());
    if s.len() == 0 {
        assert(s =~= t);
    } else {
        let x = s.last();
        let y = t.last();
        assert(s.contains(x));
        assert(t.contains(y));
        vstd::seq_lib::to_multiset_contains(s, x);
        vstd::seq_lib::to_multiset_contains(t, x);
        vstd::seq_lib::to_multiset_contains(t, y);
        vstd::seq_lib::to_multiset_contains(s, y);
        let i = choose|i: int| 0 <= i < s.len() && s[i] == y;
        let j = choose|j: int| 0 <= j < t.len() && t[j] == x;
        if x != y {
            assert(i < s.len() - 1);
            assert(j < t.len() - 1);
            assert(!lt(s[s.len() - 1], s[i]));
            assert(!lt(t[t.len() - 1], t[j]));
            assert(false);
        }
        let a = s.drop_last();
        let b = t.drop_last();
        assert(a.push(x) =~= s);
        assert(b.push(x) =~= t);
        vstd::seq_lib::to_multiset_build(a, x);
        vstd::seq_lib::to_multiset_build(b, x);
        assert(a.to_multiset() =~= s.to_multiset().remove(x));
        assert(b.to_multiset() =~= t.to_multiset().remove(x));
        assert forall|k: int, l: int| 0 <= k < l < a.len() implies !#[trigger] lt(a[l], a[k]) by {
            assert(!lt(s[l], s[k]));
        }
        assert forall|k: int, l: int| 0 <= k < l < b.len() implies !#[trigger] lt(b[l], b[k]) by {
            assert(!lt(t[l], t[k]));
        }
        assert forall|p: A, q: A| a.contains(p) && a.contains(q) && p != q implies #[trigger] lt(p, q)
            || lt(q, p) by {
            let k = choose|k: int| 0 <= k < a.len() && a[k] == p;
            let l = choose|l: int| 0 <= l < a.len() && a[l] == q;
            assert(s[k] == p && s[l] == q);
            assert(s.contains(p) && s.contains(q));
        }
        sorted_are_equal(a, b, lt);
    }
}

/// Sorting forgets the order that its elements came in, where the order tells
/// them apart.
pub proof fn stable_sort_forgets_order<A>(s: Seq<A>, t: Seq<A>, lt: spec_fn(A, A) -> bool)
    requires
        is_order(lt),
        tells_apart(s, lt),
        s.to_multiset() == t.to_multiset(),
    ensures
        stable_sort(s, lt) == stable_sort(t, lt),
{
    stable_sort_keeps(s, lt);
    stable_sort_keeps(t, lt);
    stable_sort_sorts(s, lt);
    stable_sort_sorts(t, lt);
    stable_sort_elements(s, lt);
    assert forall|p: A, q: A|
        stable_sort(s, lt).contains(p) && stable_sort(s, lt).contains(q) && p != q implies
        #[trigger] lt(p, q) || lt(q, p) by {
        assert(s.contains(p) && s.contains(q));
    }
    sorted_are_equal(stable_sort(s, lt), stable_sort(t, lt), lt);
}

/// Different elements that the order tells apart come out strictly rising.
pub proof fn stable_sort_rises<A>(s: Seq<A>, lt: spec_fn(A, A) -> bool)
    requires
        is_order(lt),
        tells_apart(s, lt),
        s.no_duplicates(),
    ensures
        rises(stable_sort(s, lt), lt),
{
    let sorted = stable_sort(s, lt);
    stable_sort_keeps(s, lt);
    stable_sort_sorts(s, lt);
    stable_sort_elements(s, lt);
    s.lemma_multiset_has_no_duplicates();
    sorted.lemma_multiset_has_no_duplicates_conv();
    assert forall|i: int, j: int| 0 <= i < j < sorted.len() implies #[trigger] lt(
        sorted[i],
        sorted[j],
    ) by {
        assert(sorted.contains(sorted[i]) && sorted.contains(sorted[j]));
        assert(s.contains(sorted[i]) && s.contains(sorted[j]));
        assert(!lt(sorted[j], sorted[i]));
        assert(sorted[i] != sorted[j]);
    }
}

/// Whether `a` comes before `b`, or neither does and `a` is the smaller.
pub open spec fn before_or_smaller(lt: spec_fn(usize, usize) -> bool, a: usize, b: usize) -> bool {
    lt(a, b) || (!lt(b, a) && a < b)
}

/// Sorting is stable: of ascending numbers between which the order does not
/// tell, the smaller stays in front.
pub proof fn stable_sort_keeps_ties(s: Seq<usize>, lt: spec_fn(usize, usize) -> bool)
    requires
        is_order(lt),
        forall|i: int, j: int| 0 <= i < j < s.len() ==> #[trigger] s[i] < #[trigger] s[j],
    ensures
        forall|i: int, j: int|
            0 <= i < j < s.len() ==> #[trigger] before_or_smaller(
                lt,
                stable_sort(s, lt)[i],
                stable_sort(s, lt)[j],
            ),
        forall|i: int|
            0 <= i < s.len() ==> s.len() > 0 && #[trigger] stable_sort(s, lt)[i] <= s.last(),
    decreases s.len(),
{
    if s.len() > 0 {
        let front = s.drop_last();
        let x = s.last();
        let placed = stable_sort(front, lt);
        let sorted = stable_sort(s, lt);
        assert forall|i: int, j: int| 0 <= i < j < front.len() implies #[trigger] front[i]
            < #[trigger] front[j] by {
            assert(s[i] < s[j]);
        }
        stable_sort_keeps_ties(front, lt);
        stable_sort_keeps(front, lt);
        stable_sort_keeps(s, lt);
        slot_splits(placed, x, lt);
        let at = slot(placed, x, lt);
        assert(sorted == placed.insert(at, x));
        assert forall|i: int| 0 <= i < placed.len() implies #[trigger] placed[i] < x by {
            assert(placed[i] <= front.last());
            assert(s[s.len() - 2] < s[s.len() - 1]);
        }
        assert forall|i: int, j: int| 0 <= i < j < s.len() implies #[trigger] before_or_smaller(
            lt,
            sorted[i],
            sorted[j],
        ) by {
            if j < at {
                assert(before_or_smaller(lt, placed[i], placed[j]));
            } else if j == at {
                let last = placed[at - 1];
                assert(!lt(x, last));
                if i < at - 1 {
                    assert(before_or_smaller(lt, placed[i], placed[at - 1]));
                    assert(!lt(last, placed[i])) by {
                        if lt(last, placed[i]) && lt(placed[i], last) {
                            assert(lt(last, last));
                        }
                    }
                    assert(!lt(x, placed[i]));
                }
                assert(placed[i] < x);
            } else if i < at {
                assert(before_or_smaller(lt, placed[i], placed[j - 1]));
            } else if i == at {
                assert(lt(x, placed[j - 1]));
            } else {
                assert(before_or_smaller(lt, placed[i - 1], placed[j - 1]));
            }
        }
    }
}

/// What is sorted stays as it is.
pub proof fn sorted_stays<A>(s: Seq<A>, lt: spec_fn(A, A) -> bool)
    requires
        is_sorted(s, lt),
    ensures
        stable_sort(s, lt) == s,
    decreases s.len(),
{
    if s.len() > 0 {
        let front = s.drop_last();
        assert forall|i: int, j: int| 0 <= i < j < front.len() implies !#[trigger] lt(
            front[j],
            front[i],
        ) by {
            assert(!lt(s[j], s[i]));
        }
        sorted_stays(front, lt);
        if front.len() > 0 {
            assert(!lt(s[s.len() - 1], s[s.len() - 2]));
        }
        assert(front.insert(front.len() as int, s.last()) =~= s);
    }
}

/// Sums forget the order of their terms.
pub proof fn sum_of_forgets_order<A>(s: Seq<A>, t: Seq<A>, f: spec_fn(A) -> int)
    requires
        s.to_multiset() == t.to_multiset(),
    ensures
        sum_of(s, f) == sum_of(t, f),
    decreases s.len(),
{
    s.to_multiset_ensures();
    t.to_multiset_ensures();
    assert(s.len() == t.len());
    if s.len() > 0 {
        let x = s.last();
        assert(s.contains(x));
        vstd::seq_lib::to_multiset_contains(s, x);
        vstd::seq_lib::to_multiset_contains(t, x);
        let j = choose|j: int| 0 <= j < t.len() && t[j] == x;
        let a = s.drop_last();
        let b = t.remove(j);
        assert(a.push(x) =~= s);
        vstd::seq_lib::to_multiset_build(a, x);
        assert(b.insert(j, x) =~= t);
        vstd::seq_lib::to_multiset_insert(b, j, x);
        assert(a.to_multiset() =~= s.to_multiset().remove(x));
        assert(b.to_multiset() =~= t.to_multiset().remove(x));
        sum_of_forgets_order(a, b, f);
        sum_of_insert(b, f, j, x);
    }
}

/// Mapping keeps two sequences rearrangements of each other.
pub proof fn map_forgets_order<A, B>(s: Seq<A>, t: Seq<A>, f: spec_fn(A) -> B)
    requires
        s.to_multiset() == t.to_multiset(),
    ensures
        s.map_values(f).to_multiset() == t.map_values(f).to_multiset(),
    decreases s.len(),
{
    s.to_multiset_ensures();
    t.to_multiset_ensures();
    assert(s.len() == t.len());
    if s.len() == 0 {
        assert(s.map_values(f) =~= t.map_values(f));
    } else {
        let x = s.last();
        assert(s.contains(x));
        vstd::seq_lib::to_multiset_contains(s, x);
        vstd::seq_lib::to_multiset_contains(t, x);
        let j = choose|j: int| 0 <= j < t.len() && t[j] == x;
        let a = s.drop_last();
        let b = t.remove(j);
        assert(a.push(x) =~= s);
        vstd::seq_lib::to_multiset_build(a, x);
        assert(b.insert(j, x) =~= t);
        vstd::seq_lib::to_multiset_insert(b, j, x);
        assert(a.to_multiset() =~= s.to_multiset().remove(x));
        assert(b.to_multiset() =~= t.to_multiset().remove(x));
        map_forgets_order(a, b, f);
        assert(s.map_values(f) =~= a.map_values(f).push(f(x)));
        assert(t.map_values(f) =~= b.map_values(f).insert(j, f(x)));
        vstd::seq_lib::to_multiset_build(a.map_values(f), f(x));
        vstd::seq_lib::to_multiset_insert(b.map_values(f), j, f(x));
    }
}

/// What a function gives for each element, in a row.
pub open spec fn flat<A, B>(s: Seq<A>, f: spec_fn(A) -> Seq<B>) -> Seq<B>
    decreases s.len(),
{
    if s.len() == 0 {
        Seq::empty()
    } else {
        flat(s.drop_last(), f) + f(s.last())
    }
}

proof fn flat_insert<A, B>(s: Seq<A>, f: spec_fn(A) -> Seq<B>, at: int, x: A)
    requires
        0 <= at <= s.len(),
    ensures
        flat(s.insert(at, x), f).to_multiset() == flat(s, f).to_multiset().add(f(x).to_multiset()),
    decreases s.len(),
{
    let t = s.insert(at, x);
    if at == s.len() {
        assert(t.drop_last() =~= s);
        vstd::seq_lib::lemma_multiset_commutative(flat(s, f), f(x));
    } else {
        let y = s.last();
        let shorter = s.drop_last();
        assert(t.drop_last() =~= shorter.insert(at, x));
        assert(t.last() == y);
        flat_insert(shorter, f, at, x);
        vstd::seq_lib::lemma_multiset_commutative(flat(shorter.insert(at, x), f), f(y));
        vstd::seq_lib::lemma_multiset_commutative(flat(shorter, f), f(y));
        assert(flat(t, f).to_multiset() =~= flat(s, f).to_multiset().add(f(x).to_multiset()));
    }
}

/// What a function gives for each element is the same, but for its order,
/// whatever order the elements come in.
pub proof fn flat_forgets_order<A, B>(s: Seq<A>, t: Seq<A>, f: spec_fn(A) -> Seq<B>)
    requires
        s.to_multiset() == t.to_multiset(),
    ensures
        flat(s, f).to_multiset() == flat(t, f).to_multiset(),
    decreases s.len(),
{
    s.to_multiset_ensures();
    t.to_multiset_ensures();
    assert(s.len() == t.len());
    if s.len() > 0 {
        let x = s.last();
        assert(s.contains(x));
        vstd::seq_lib::to_multiset_contains(s, x);
        vstd::seq_lib::to_multiset_contains(t, x);
        let j = choose|j: int| 0 <= j < t.len() && t[j] == x;
        let a = s.drop_last();
        let b = t.remove(j);
        assert(a.push(x) =~= s);
        assert(a.insert(a.len() as int, x) =~= s);
        vstd::seq_lib::to_multiset_build(a, x);
        assert(b.insert(j, x) =~= t);
        vstd::seq_lib::to_multiset_insert(b, j, x);
        assert(a.to_multiset() =~= s.to_multiset().remove(x));
        assert(b.to_multiset() =~= t.to_multiset().remove(x));
        flat_forgets_order(a, b, f);
        flat_insert(a, f, a.len() as int, x);
        flat_insert(b, f, j, x);
    }
}

/// A filtered sequence holds what is in the sequence and passes.
pub proof fn filtered_are_held<A>(s: Seq<A>, keep: spec_fn(A) -> bool)
    ensures
        forall|x: A| #[trigger] s.filter(keep).contains(x) <==> s.contains(x) && keep(x),
    decreases s.len(),
{
    reveal(Seq::filter);
    if s.len() > 0 {
        let t = s.drop_last();
        filtered_are_held(t, keep);
        assert(s =~= t.push(s.last()));
        assert forall|x: A| #[trigger] s.filter(keep).contains(x) <==> s.contains(x) && keep(
            x,
        ) by {
            assert(t.filter(keep).contains(x) <==> t.contains(x) && keep(x));
            if s.contains(x) {
                let i = choose|i: int| 0 <= i < s.len() && s[i] == x;
                if i < t.len() {
                    assert(t[i] == x);
                }
            }
            if t.contains(x) {
                let i = choose|i: int| 0 <= i < t.len() && t[i] == x;
                assert(s[i] == x);
            }
            let f = s.filter(keep);
            let g = t.filter(keep);
            if g.contains(x) {
                let i = choose|i: int| 0 <= i < g.len() && g[i] == x;
                assert(f[i] == x);
            }
            if keep(s.last()) {
                assert(f == g.push(s.last()));
                assert(f[f.len() - 1] == s.last());
            } else {
                assert(f == g);
            }
            assert(s[s.len() - 1] == s.last());
        }
    }
}

} // verus!
