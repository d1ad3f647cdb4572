//! What the outcome of a run means for sales, returns, and reps.

use vstd::prelude::*;

use crate::commission::bands;
use crate::commission::bands::SliceView;
use crate::commission::config;
use crate::commission::config::{Band, BandMode, PlanConfig, PlanVersion};
use crate::commission::engine;
use crate::commission::engine::{EntryView, SummaryView, WinnerView};
use crate::commission::input::{TxnKind, TxnView};
use crate::commission::laws;
use crate::commission::split;
use crate::num;
use crate::order;
use crate::text;

verus! {

// ---- rounding ----

/// Whether `r` is the integer nearest to `n / d`, the greater one where two
/// are as near.
pub open spec fn is_nearest(n: int, d: int, r: int) -> bool {
    2 * n - d < 2 * (r * d) <= 2 * n + d
}

/// Rounding gives the nearest integer, halves up.
pub proof fn rounding_gives_the_nearest(n: int, d: int)
    requires
        0 <= n,
        0 < d,
    ensures
        is_nearest(n, d, bands::rounded(n, d)),
{
    let q = n / d;
    let m = n % d;
    assert(n == q * d + m && 0 <= m < d) by (nonlinear_arith)
        requires
            q == n / d,
            m == n % d,
            d > 0,
    ;
    assert((q + 1) * d == q * d + d) by (nonlinear_arith);
}

/// Whether `q` is `a / b` without its fraction.
pub open spec fn is_whole_part(a: int, b: int, q: int) -> bool {
    if a >= 0 {
        q * b <= a < (q + 1) * b
    } else {
        (q - 1) * b < a <= q * b
    }
}

proof fn quotient_is_whole_part(a: int, b: int)
    requires
        b > 0,
    ensures
        is_whole_part(a, b, num::quotient(a, b)),
        a >= 0 ==> is_whole_part(a, b, a / b),
{
    let q = num::quotient(a, b);
    if a >= 0 {
        assert(q * b <= a < (q + 1) * b) by (nonlinear_arith)
            requires
                q == a / b,
                b > 0,
        ;
    } else {
        let y = -a;
        let k = y / b;
        assert(k * b <= y < (k + 1) * b) by (nonlinear_arith)
            requires
                k == y / b,
                b > 0,
        ;
        assert((q - 1) * b == -((k + 1) * b)) by (nonlinear_arith)
            requires
                q == -k,
        ;
        assert(q * b == -(k * b)) by (nonlinear_arith)
            requires
                q == -k,
        ;
    }
}

// ---- splits ----

/// The sum of weights.
pub open spec fn weight_of_all(weights: Seq<u32>) -> int {
    order::sum_of(weights, |w: u32| w as int)
}

proof fn whole_is_sum(weights: Seq<u32>, n: int)
    requires
        0 <= n <= weights.len(),
    ensures
        split::weight_total(weights, n) == weight_of_all(weights.take(n)),
    decreases n,
{
    if n > 0 {
        whole_is_sum(weights, n - 1);
        assert(weights.take(n).drop_last() =~= weights.take(n - 1));
        assert(weights.take(n).last() == weights[n - 1]);
    } else {
        assert(weights.take(n) =~= Seq::<u32>::empty());
    }
}

/// A split sums to the amount, and every share is the part of the amount that
/// its weight is of all weights, but for less than a cent.
pub proof fn shares_follow_the_weights(amount: int, weights: Seq<u32>, i: int)
    requires
        0 <= i < weights.len() <= usize::MAX,
        0 <= amount,
        forall|k: int| 0 <= k < weights.len() ==> (#[trigger] weights[k]) > 0,
        split::split(amount, weights) is Ok,
    ensures
        ({
            let shares = split::split(amount, weights)->Ok_0;
            let all = weight_of_all(weights);
            &&& shares.len() == weights.len()
            &&& order::sum_of(shares, |x: int| x) == amount
            &&& 0 <= shares[i] <= amount
            &&& amount * weights[i] - all < shares[i] * all < amount * weights[i] + all
            &&& shares[i] * all == amount * weights[i] || shares[i] == (amount * weights[i]) / all
                || shares[i] == (amount * weights[i]) / all + 1
        }),
{
    let shares = split::split(amount, weights)->Ok_0;
    split::shares_sum_exactly(amount, weights);
    whole_is_sum(weights, weights.len() as int);
    assert(weights.take(weights.len() as int) =~= weights);
    total_is_sum(shares);
    let all = split::whole(weights);
    assert(all > 0) by {
        whole_positive(weights, weights.len() as int);
    }
    let p = amount * weights[i];
    let f = p / all;
    let x = shares[i];
    assert(f * all <= p < f * all + all) by (nonlinear_arith)
        requires
            f == p / all,
            all > 0,
    ;
    assert(p - all < x * all <= p + all) by (nonlinear_arith)
        requires
            f * all <= p < f * all + all,
            f <= x <= f + 1,
            all > 0,
    ;
    if p % all == 0 {
        exact_shares_are_kept(amount, weights, i);
        assert(f * all == p) by (nonlinear_arith)
            requires
                f == p / all,
                p % all == 0,
                all > 0,
        ;
    } else {
        assert(f * all < p) by (nonlinear_arith)
            requires
                f == p / all,
                p % all != 0,
                all > 0,
                f * all <= p,
        ;
        assert(x * all < p + all) by (nonlinear_arith)
            requires
                f * all < p,
                f <= x <= f + 1,
                all > 0,
        ;
    }
}

proof fn whole_positive(weights: Seq<u32>, n: int)
    requires
        0 < n <= weights.len(),
        forall|k: int| 0 <= k < weights.len() ==> (#[trigger] weights[k]) > 0,
    ensures
        split::weight_total(weights, n) > 0,
    decreases n,
{
    if n > 1 {
        whole_positive(weights, n - 1);
    } else {
        assert(split::weight_total(weights, 0) == 0);
    }
    assert(weights[n - 1] > 0);
}

proof fn total_is_sum(s: Seq<int>)
    ensures
        split::total(s) == order::sum_of(s, |x: int| x),
    decreases s.len(),
{
    if s.len() > 0 {
        total_is_sum(s.drop_last());
    }
}

proof fn bumped_places(s: Seq<int>, places: Seq<usize>, n: int, i: int)
    requires
        0 <= n <= places.len(),
        places.no_duplicates(),
        forall|k: int| 0 <= k < places.len() ==> (#[trigger] places[k]) < s.len(),
        0 <= i < s.len(),
    ensures
        split::bumped(s, places, n).len() == s.len(),
        split::bumped(s, places, n)[i] == s[i] + (if exists|k: int|
            0 <= k < n && #[trigger] places[k] == i {
            1int
        } else {
            0
        }),
    decreases n,
{
    if n > 0 {
        bumped_places(s, places, n - 1, i);
        let t = split::bumped(s, places, n - 1);
        if places[n - 1] == i {
            assert forall|k: int| 0 <= k < n - 1 implies #[trigger] places[k] != i by {
                assert(places[k] != places[n - 1]);
            }
            assert(places[n - 1] == i);
        } else if exists|k: int| 0 <= k < n - 1 && #[trigger] places[k] == i {
            let k = choose|k: int| 0 <= k < n - 1 && #[trigger] places[k] == i;
            assert(places[k] == i);
        }
    }
}

/// What rounding down leaves of a share.
pub open spec fn rest_of(amount: int, weights: Seq<u32>, i: int) -> int {
    (amount * weights[i]) % weight_of_all(weights)
}

/// Where the places of remainders stand.
proof fn places_rise(amount: int, weights: Seq<u32>)
    requires
        weights.len() <= usize::MAX,
    ensures
        ({
            let places = split::by_remainder(amount, weights);
            &&& places.len() == weights.len()
            &&& places.no_duplicates()
            &&& forall|k: int| 0 <= k < places.len() ==> (#[trigger] places[k]) < weights.len()
            &&& forall|i: int, j: int|
                0 <= i < j < places.len() ==> {
                    let a = #[trigger] places[i] as int;
                    let b = #[trigger] places[j] as int;
                    ||| split::remainder(amount, weights, a) > split::remainder(amount, weights, b)
                    ||| split::remainder(amount, weights, a) == split::remainder(
                        amount,
                        weights,
                        b,
                    ) && a < b
                }
        }),
{
    let n = weights.len();
    let all = Seq::new(n, |i: int| i as usize);
    let lt = |a: usize, b: usize|
        a < weights.len() && b < weights.len() && split::remainder(amount, weights, a as int)
            > split::remainder(amount, weights, b as int);
    let total = |a: usize, b: usize|
        if a < weights.len() && b < weights.len() {
            split::remainder(amount, weights, a as int) > split::remainder(
                amount,
                weights,
                b as int,
            )
        } else {
            a < weights.len()
        };
    assert(order::is_order(total));
    let places = split::by_remainder(amount, weights);
    sorts_agree(all, lt, total);
    assert(places == order::stable_sort(all, total));
    order::stable_sort_keeps(all, total);
    order::stable_sort_elements(all, total);
    order::stable_sort_keeps_ties(all, total);
    assert(all.no_duplicates());
    all.lemma_multiset_has_no_duplicates();
    places.lemma_multiset_has_no_duplicates_conv();
    assert forall|k: int| 0 <= k < places.len() implies (#[trigger] places[k])
        < weights.len() by {
        assert(places.contains(places[k]));
        let j = choose|j: int| 0 <= j < all.len() && all[j] == places[k];
    }
    assert forall|i: int, j: int| 0 <= i < j < places.len() implies {
        let a = #[trigger] places[i] as int;
        let b = #[trigger] places[j] as int;
        ||| split::remainder(amount, weights, a) > split::remainder(amount, weights, b)
        ||| split::remainder(amount, weights, a) == split::remainder(amount, weights, b) && a < b
    } by {
        assert(order::before_or_smaller(total, places[i], places[j]));
    }
}

/// Orders that agree on what is sorted sort alike.
proof fn sorts_agree(
    s: Seq<usize>,
    f: spec_fn(usize, usize) -> bool,
    g: spec_fn(usize, usize) -> bool,
)
    requires
        forall|a: usize, b: usize| s.contains(a) && s.contains(b) ==> #[trigger] f(a, b) == g(a, b),
    ensures
        order::stable_sort(s, f) == order::stable_sort(s, g),
{
    let id = |a: usize| a;
    order::stable_sort_maps(s, id, f, g);
    assert(s.map_values(id) =~= s);
    assert(order::stable_sort(s, f).map_values(id) =~= order::stable_sort(s, f));
}

proof fn exact_shares_are_kept(amount: int, weights: Seq<u32>, i: int)
    requires
        0 <= i < weights.len() <= usize::MAX,
        0 <= amount,
        forall|k: int| 0 <= k < weights.len() ==> (#[trigger] weights[k]) > 0,
        split::remainder(amount, weights, i) == 0,
    ensures
        split::shares(amount, weights)[i] == split::floor_share(amount, weights, i),
{
    let f = split::floor_shares(amount, weights);
    let places = split::by_remainder(amount, weights);
    let left = split::leftover(amount, weights);
    split::leftover_is_small(amount, weights);
    places_rise(amount, weights);
    bumped_places(f, places, left, i);
    if exists|k: int| 0 <= k < left && #[trigger] places[k] == i {
        let k = choose|k: int| 0 <= k < left && #[trigger] places[k] == i;
        rest_is_few(amount, weights, k);
    }
}

/// The cents left over are fewer than the shares that leave something.
proof fn rest_is_few(amount: int, weights: Seq<u32>, k: int)
    requires
        0 <= k < weights.len() <= usize::MAX,
        0 <= amount,
        forall|j: int| 0 <= j < weights.len() ==> (#[trigger] weights[j]) > 0,
        split::remainder(
            amount,
            weights,
            split::by_remainder(amount, weights)[k] as int,
        ) == 0,
    ensures
        split::leftover(amount, weights) <= k,
{
    let places = split::by_remainder(amount, weights);
    let n = weights.len() as int;
    let w = split::whole(weights);
    places_rise(amount, weights);
    whole_positive(weights, n);
    let f = |p: usize| split::remainder(amount, weights, p as int);
    let all = Seq::new(weights.len(), |i: int| i as usize);
    remainders_sum(amount, weights, n);
    assert(all.take(n) =~= all);
    let lt = |a: usize, b: usize|
        a < weights.len() && b < weights.len() && split::remainder(amount, weights, a as int)
            > split::remainder(amount, weights, b as int);
    order::stable_sort_keeps(all, lt);
    order::sum_of_forgets_order(places, all, f);
    assert forall|i: int| k <= i < n implies f(#[trigger] places[i]) == 0 by {
        if i > k {
            assert(places[k] != places[i]);
        }
        assert(split::remainder(amount, weights, places[i] as int) >= 0);
    }
    assert forall|i: int| 0 <= i < n implies 0 <= f(#[trigger] places[i]) < w by {}
    few_sum(places, f, w, k, n);
    assert(places.take(n) =~= places);
    let left = split::leftover(amount, weights);
    if left > k {
        assert(w * left >= w * (k + 1)) by (nonlinear_arith)
            requires
                left >= k + 1,
                w > 0,
        ;
        assert(w * (k + 1) == w * k + w) by (nonlinear_arith);
        assert(k * w == w * k) by (nonlinear_arith);
    }
}

proof fn few_sum(places: Seq<usize>, f: spec_fn(usize) -> int, w: int, k: int, n: int)
    requires
        0 <= k,
        0 <= n <= places.len(),
        w > 0,
        forall|i: int| 0 <= i < n ==> 0 <= f(#[trigger] places[i]) < w,
        forall|i: int| k <= i < n ==> f(#[trigger] places[i]) == 0,
    ensures
        order::sum_of(places.take(n), f) <= k * w,
        k > 0 && n > 0 ==> order::sum_of(places.take(n), f) < k * w,
        order::sum_of(places.take(n), f) <= n * w,
        n > 0 ==> order::sum_of(places.take(n), f) < n * w,
    decreases n,
{
    if n > 0 {
        few_sum(places, f, w, k, n - 1);
        assert(places.take(n).drop_last() =~= places.take(n - 1));
        assert(places.take(n).last() == places[n - 1]);
        assert(n * w == (n - 1) * w + w) by (nonlinear_arith);
        if k >= n {
            assert(n * w <= k * w) by (nonlinear_arith)
                requires
                    n <= k,
                    w > 0,
            ;
        } else {
            assert(f(places[n - 1]) == 0);
            if n == 1 {
                assert(places.take(0) =~= Seq::<usize>::empty());
                assert(0 < k * w || k == 0) by (nonlinear_arith)
                    requires
                        k >= 0,
                        w > 0,
                ;
            }
        }
    } else {
        assert(places.take(0) =~= Seq::<usize>::empty());
        assert(0 <= k * w) by (nonlinear_arith)
            requires
                k >= 0,
                w > 0,
        ;
    }
}

proof fn remainders_sum(amount: int, weights: Seq<u32>, n: int)
    requires
        0 <= n <= weights.len() <= usize::MAX,
        0 < weights.len(),
        forall|j: int| 0 <= j < weights.len() ==> (#[trigger] weights[j]) > 0,
    ensures
        ({
            let all = Seq::new(weights.len(), |i: int| i as usize);
            let f = |p: usize| split::remainder(amount, weights, p as int);
            &&& order::sum_of(all.take(n), f) == amount * split::weight_total(weights, n)
                - split::whole(weights) * split::total(
                split::floor_shares(amount, weights).take(n),
            )
            &&& n == weights.len() ==> order::sum_of(all.take(n), f) == split::whole(weights)
                * split::leftover(amount, weights)
        }),
    decreases n,
{
    let all = Seq::new(weights.len(), |i: int| i as usize);
    let f = |p: usize| split::remainder(amount, weights, p as int);
    let floors = split::floor_shares(amount, weights);
    let w = split::whole(weights);
    whole_positive(weights, weights.len() as int);
    if n > 0 {
        remainders_sum(amount, weights, n - 1);
        assert(all.take(n).drop_last() =~= all.take(n - 1));
        assert(all.take(n).last() == all[n - 1]);
        assert(floors.take(n).drop_last() =~= floors.take(n - 1));
        assert(floors.take(n).last() == floors[n - 1]);
        let p = amount * weights[n - 1];
        let q = floors[n - 1];
        assert(p == w * q + p % w) by (nonlinear_arith)
            requires
                q == p / w,
                w > 0,
        ;
        let before = split::total(floors.take(n - 1));
        assert(w * (before + q) == w * before + w * q) by (nonlinear_arith);
        let t = split::weight_total(weights, n - 1);
        assert(amount * (t + weights[n - 1]) == amount * t + amount * weights[n - 1])
            by (nonlinear_arith);
    } else {
        assert(all.take(0) =~= Seq::<usize>::empty());
        assert(floors.take(0) =~= Seq::<int>::empty());
        assert(amount * 0 == 0);
        assert(w * 0 == 0);
    }
    if n == weights.len() {
        assert(floors.take(n) =~= floors);
        let total = split::total(floors);
        assert(amount * w - w * total == w * (amount - total)) by (nonlinear_arith);
    }
}

/// The cents that rounding down leaves go to the shares that it takes the
/// most from, and of those from which it takes as much to the first: where a
/// share is rounded up and another down, the first had more to lose, or as
/// much and stands before the other.
pub proof fn left_over_cents_go_to_the_largest_rests(
    amount: int,
    weights: Seq<u32>,
    i: int,
    j: int,
)
    requires
        0 <= i < weights.len() <= usize::MAX,
        0 <= j < weights.len(),
        0 <= amount,
        forall|k: int| 0 <= k < weights.len() ==> (#[trigger] weights[k]) > 0,
        split::split(amount, weights) is Ok,
        split::split(amount, weights)->Ok_0[i] * weight_of_all(weights) > amount * weights[i],
        split::split(amount, weights)->Ok_0[j] == (amount * weights[j]) / weight_of_all(weights),
    ensures
        rest_of(amount, weights, i) > rest_of(amount, weights, j) || (rest_of(amount, weights, i)
            == rest_of(amount, weights, j) && i < j),
{
    let all = split::whole(weights);
    whole_is_sum(weights, weights.len() as int);
    assert(weights.take(weights.len() as int) =~= weights);
    whole_positive(weights, weights.len() as int);
    let f = split::floor_shares(amount, weights);
    let places = split::by_remainder(amount, weights);
    let left = split::leftover(amount, weights);
    split::leftover_is_small(amount, weights);
    places_rise(amount, weights);
    bumped_places(f, places, left, i);
    bumped_places(f, places, left, j);
    let p = amount * weights[i];
    let q = p / all;
    assert(q * all <= p) by (nonlinear_arith)
        requires
            q == p / all,
            all > 0,
    ;
    let k = choose|k: int| 0 <= k < left && #[trigger] places[k] == i;
    assert(places[k] == i);
    place_exists(places, weights.len(), j);
    let l = choose|l: int| 0 <= l < places.len() && #[trigger] places[l] == j;
    assert(l >= left);
    assert(places[k] != places[l]);
}

proof fn place_exists(places: Seq<usize>, n: nat, j: int)
    requires
        places.len() == n,
        places.no_duplicates(),
        forall|k: int| 0 <= k < places.len() ==> (#[trigger] places[k]) < n,
        0 <= j < n <= usize::MAX,
    ensures
        exists|l: int| 0 <= l < places.len() && #[trigger] places[l] == j,
{
    let set = places.to_set();
    let whole = Set::new(|x: usize| x < n);
    let all = Seq::new(n, |i: int| i as usize);
    assert(all.no_duplicates());
    all.unique_seq_to_set();
    places.unique_seq_to_set();
    assert(all.to_set() =~= whole) by {
        assert forall|x: usize| whole.contains(x) implies all.to_set().contains(x) by {
            assert(all[x as int] == x);
        }
    }
    assert(set.subset_of(whole));
    vstd::set_lib::lemma_subset_equality(set, whole);
    assert(set.contains(j as usize));
}

// ---- bands ----

/// The revenue that counts under a version: all of it, or what the windfall
/// cap allows of quota.
pub open spec fn counted(v: PlanVersion, revenue: int) -> int {
    match v.windfall_cap_ppm {
        Some(cap) => {
            let most = (cap * v.quota_cents) / 1_000_000;
            if revenue <= most {
                revenue
            } else {
                most
            }
        },
        None => revenue,
    }
}

/// The part of revenue that lies below the upper bound of band `i`; nothing
/// lies below the first.
pub open spec fn below(v: PlanVersion, revenue: int, i: int) -> int {
    if i < 0 {
        0
    } else {
        match v.bands@[i].up_to_ppm {
            Some(up) => {
                let bound = (up * v.quota_cents) / 1_000_000;
                if bound <= revenue {
                    bound
                } else {
                    revenue
                }
            },
            None => revenue,
        }
    }
}

/// Whether bands ascend, all but the last have bounds, and quota is positive.
pub open spec fn bands_ascend(v: PlanVersion) -> bool {
    let b = v.bands@;
    &&& v.quota_cents > 0
    &&& b.len() > 0
    &&& forall|i: int|
        0 <= i < b.len() - 1 ==> (#[trigger] b[i]).up_to_ppm is Some && b[i].up_to_ppm->0 > 0
    &&& forall|i: int, j: int|
        0 <= i < j < b.len() && (#[trigger] b[j]).up_to_ppm is Some ==> (
        #[trigger] b[i]).up_to_ppm is Some && b[i].up_to_ppm->0 < b[j].up_to_ppm->0
}

proof fn scaled_rises(a: int, b: int, q: int)
    requires
        0 <= a <= b,
        0 <= q,
    ensures
        0 <= (a * q) / 1_000_000 <= (b * q) / 1_000_000,
{
    let x = a * q;
    let y = b * q;
    assert(0 <= x <= y) by (nonlinear_arith)
        requires
            x == a * q,
            y == b * q,
            0 <= a <= b,
            0 <= q,
    ;
}

proof fn below_rises(v: PlanVersion, basis: int, i: int)
    requires
        bands_ascend(v),
        0 < basis,
        0 <= i < v.bands.len(),
    ensures
        0 <= below(v, basis, i - 1) <= below(v, basis, i) <= basis,
{
    match v.bands@[i].up_to_ppm {
        Some(up) => {
            scaled_rises(0, up as int, v.quota_cents as int);
            assert(0 * v.quota_cents == 0);
            if i > 0 {
                assert(v.bands@[i - 1].up_to_ppm is Some);
                scaled_rises(
                    v.bands@[i - 1].up_to_ppm->0 as int,
                    up as int,
                    v.quota_cents as int,
                );
            }
        },
        None => {
            if i > 0 {
                assert(v.bands@[i - 1].up_to_ppm is Some);
                scaled_rises(0, v.bands@[i - 1].up_to_ppm->0 as int, v.quota_cents as int);
                assert(0 * v.quota_cents == 0);
            }
        },
    }
}

/// Whether a slice is what its band pays: the revenue between the bounds of
/// the band, at the rate of the band.
pub open spec fn is_paid(v: PlanVersion, basis: int, x: SliceView) -> bool {
    &&& 0 <= x.band_index < v.bands.len()
    &&& x.up_to_ppm == v.bands@[x.band_index].up_to_ppm
    &&& x.rate_bps == v.bands@[x.band_index].rate_bps
    &&& x.slice_cents > 0
    &&& x.slice_cents == below(v, basis, x.band_index) - below(v, basis, x.band_index - 1)
    &&& is_nearest(x.slice_cents * x.rate_bps, 10_000, x.commission_cents)
}

proof fn marginal_slices(v: PlanVersion, basis: int, n: int)
    requires
        bands_ascend(v),
        0 < basis,
        0 <= n <= v.bands.len(),
        bands::marginal_parts(v, basis, n) is Ok,
    ensures
        ({
            let m = bands::marginal_parts(v, basis, n)->Ok_0;
            let s = m.parts.slices;
            &&& m.taken == below(v, basis, n - 1)
            &&& m.parts.total == order::sum_of(s, |x: SliceView| x.commission_cents)
            &&& forall|k: int|
                0 <= k < s.len() ==> is_paid(v, basis, #[trigger] s[k]) && s[k].band_index < n
            &&& forall|k: int, l: int|
                0 <= k < l < s.len() ==> (#[trigger] s[k]).band_index < (
                #[trigger] s[l]).band_index
            &&& forall|i: int|
                0 <= i < n && #[trigger] below(v, basis, i) > below(v, basis, i - 1) ==> exists|
                    k: int,
                |
                    0 <= k < s.len() && (#[trigger] s[k]).band_index == i
        }),
    decreases n,
{
    if n > 0 {
        marginal_slices(v, basis, n - 1);
        below_rises(v, basis, n - 1);
        let before = bands::marginal_parts(v, basis, n - 1)->Ok_0;
        let m = bands::marginal_parts(v, basis, n)->Ok_0;
        let bound = bands::reach_of(v, basis, n - 1)->Ok_0;
        assert(bound == below(v, basis, n - 1));
        let s = m.parts.slices;
        let t = before.parts.slices;
        if bound > before.taken {
            let slice = bound - before.taken;
            let rate = v.bands@[n - 1].rate_bps as int;
            assert(0 <= slice * rate) by (nonlinear_arith)
                requires
                    slice > 0,
                    rate >= 0,
            ;
            rounding_gives_the_nearest(slice * rate, 10_000);
            assert(s.drop_last() =~= t);
            assert(s[t.len() as int].band_index == n - 1);
        }
        assert forall|i: int|
            0 <= i < n && #[trigger] below(v, basis, i) > below(v, basis, i - 1) implies exists|
            k: int,
        |
            0 <= k < s.len() && (#[trigger] s[k]).band_index == i by {
            if i < n - 1 {
                let k = choose|k: int| 0 <= k < t.len() && (#[trigger] t[k]).band_index == i;
                assert(s[k].band_index == i);
            } else {
                assert(s[t.len() as int].band_index == i);
            }
        }
    }
}

/// Under marginal bands, each band pays its rate on the counted revenue that
/// lies between its bounds, rounded to the cent, and the commission is the
/// sum of what they pay.
pub proof fn marginal_bands_pay_their_slices(v: PlanVersion, revenue: int)
    requires
        v.band_mode == BandMode::Marginal,
        bands_ascend(v),
        bands::parts_of(v, revenue) is Ok,
    ensures
        ({
            let p = bands::parts_of(v, revenue)->Ok_0;
            let s = p.slices;
            let basis = counted(v, revenue);
            if revenue <= 0 || basis <= 0 {
                p.total == 0 && s.len() == 0
            } else {
                &&& p.total == order::sum_of(s, |x: SliceView| x.commission_cents)
                &&& forall|k: int| 0 <= k < s.len() ==> is_paid(v, basis, #[trigger] s[k])
                &&& forall|k: int, l: int|
                    0 <= k < l < s.len() ==> (#[trigger] s[k]).band_index < (
                    #[trigger] s[l]).band_index
                &&& forall|i: int|
                    0 <= i < v.bands.len() && #[trigger] below(v, basis, i) > below(
                        v,
                        basis,
                        i - 1,
                    ) ==> exists|k: int| 0 <= k < s.len() && (#[trigger] s[k]).band_index == i
            }
        }),
{
    if revenue > 0 && counted(v, revenue) > 0 {
        marginal_slices(v, counted(v, revenue), v.bands.len() as int);
    }
}

/// Whether an attainment falls in band `i`: below its bound, and not below
/// that of the band before.
pub open spec fn falls_in(bands: Seq<Band>, attainment: int, i: int) -> bool {
    &&& 0 <= i < bands.len()
    &&& bands[i].up_to_ppm is None || attainment < bands[i].up_to_ppm->0
    &&& forall|j: int|
        0 <= j < i ==> (#[trigger] bands[j]).up_to_ppm is Some && bands[j].up_to_ppm->0
            <= attainment
}

proof fn landing_falls(bands: Seq<Band>, attainment: int, from: int)
    requires
        0 <= from < bands.len(),
        bands[bands.len() - 1].up_to_ppm is None,
        forall|j: int|
            0 <= j < from ==> (#[trigger] bands[j]).up_to_ppm is Some && bands[j].up_to_ppm->0
                <= attainment,
    ensures
        falls_in(bands, attainment, bands::landing_band(bands, attainment, from)),
    decreases bands.len() - from,
{
    if bands[from].up_to_ppm is Some && attainment >= bands[from].up_to_ppm->0 {
        landing_falls(bands, attainment, from + 1);
    }
}

/// Under cliff bands, all of the counted revenue is paid at the rate of the
/// band in which the attainment falls, the attainment being the revenue in
/// millionths of quota, at most the windfall cap.
pub proof fn cliff_bands_pay_all_at_one_rate(v: PlanVersion, revenue: int)
    requires
        v.band_mode == BandMode::Cliff,
        v.quota_cents > 0,
        v.bands.len() > 0,
        v.bands@[v.bands.len() - 1].up_to_ppm is None,
        bands::parts_of(v, revenue) is Ok,
    ensures
        ({
            let p = bands::parts_of(v, revenue)->Ok_0;
            let basis = counted(v, revenue);
            let reached = (revenue * 1_000_000) / (v.quota_cents as int);
            let attainment = if v.windfall_cap_ppm is Some && v.windfall_cap_ppm->0 < reached {
                v.windfall_cap_ppm->0 as int
            } else {
                reached
            };
            if revenue <= 0 || basis <= 0 {
                p.total == 0 && p.slices.len() == 0
            } else {
                &&& p.slices.len() == 1
                &&& falls_in(v.bands@, attainment, p.slices[0].band_index)
                &&& p.slices[0].slice_cents == basis
                &&& p.slices[0].rate_bps == v.bands@[p.slices[0].band_index].rate_bps
                &&& is_nearest(basis * p.slices[0].rate_bps, 10_000, p.total)
                &&& p.slices[0].commission_cents == p.total
            }
        }),
{
    if revenue > 0 && counted(v, revenue) > 0 {
        let basis = counted(v, revenue);
        let reached = (revenue * 1_000_000) / (v.quota_cents as int);
        let attainment = if v.windfall_cap_ppm is Some && v.windfall_cap_ppm->0 < reached {
            v.windfall_cap_ppm->0 as int
        } else {
            reached
        };
        landing_falls(v.bands@, attainment, 0);
        let i = bands::landing_band(v.bands@, attainment, 0);
        let rate = v.bands@[i].rate_bps as int;
        assert(0 <= basis * rate) by (nonlinear_arith)
            requires
                basis > 0,
                rate >= 0,
        ;
        rounding_gives_the_nearest(basis * rate, 10_000);
    }
}

// ---- roll-ups ----

/// Whether a roll-up is what a version makes of what its rep was credited:
/// the commission on the gross credit, the commission on what returns leave
/// of it, and the difference, which the returns take back.
pub open spec fn is_rolled_up(v: PlanVersion, r: SummaryView) -> bool {
    let kept = if r.net_credited_cents > 0 {
        r.net_credited_cents
    } else {
        0
    };
    &&& r.plan_version == v.version
    &&& r.band_mode == v.band_mode
    &&& r.windfall_cap_ppm == v.windfall_cap_ppm
    &&& r.net_credited_cents == r.gross_credited_cents - r.returned_cents
    &&& bands::parts_of(v, r.gross_credited_cents) matches Ok(gross) && r.gross_commission_cents
        == gross.total
    &&& bands::parts_of(v, kept) matches Ok(net) && r.net_commission_cents == net.total
        && r.net_band_slices == net.slices
    &&& r.clawback_commission_cents == r.gross_commission_cents - r.net_commission_cents
    &&& is_whole_part(r.net_credited_cents * 1_000_000, v.quota_cents as int, r.attainment_ppm)
    &&& r.windfall_cap_applied <==> v.windfall_cap_ppm is Some && r.attainment_ppm
        > v.windfall_cap_ppm->0
}

proof fn summaries_roll_up(versions: Seq<PlanVersion>, entries: Seq<EntryView>, n: int)
    requires
        0 <= n <= entries.len(),
        engine::rollup(versions, entries, n) is Ok,
        forall|i: int| 0 <= i < versions.len() ==> (#[trigger] versions[i]).quota_cents > 0,
        forall|i: int|
            0 <= i < entries.len() ==> 0 <= (#[trigger] entries[i]).version < versions.len(),
    ensures
        ({
            let r = engine::rollup(versions, entries, n)->Ok_0;
            &&& r.summaries.len() == n
            &&& forall|i: int|
                0 <= i < n ==> is_rolled_up(
                    versions[entries[i].version],
                    #[trigger] r.summaries[i],
                ) && r.summaries[i].rep_id == entries[i].rep && r.summaries[i].gross_credited_cents
                    == entries[i].gross && r.summaries[i].returned_cents == entries[i].returned
        }),
    decreases n,
{
    if n > 0 {
        summaries_roll_up(versions, entries, n - 1);
        let e = entries[n - 1];
        let v = versions[e.version];
        quotient_is_whole_part((e.gross - e.returned) * 1_000_000, v.quota_cents as int);
    }
}

proof fn quotas_are_positive(p: PlanConfig)
    requires
        config::plan_error(p) is None,
    ensures
        forall|i: int|
            0 <= i < p.versions.len() ==> (#[trigger] p.versions@[i]).quota_cents > 0,
{
    assert forall|i: int| 0 <= i < p.versions.len() implies (
    #[trigger] p.versions@[i]).quota_cents > 0 by {
        laws::placed(p.versions@, 0, i);
    }
}

/// The sorted entries of a run.
pub open spec fn entries_of(versions: Seq<PlanVersion>, s: Seq<TxnView>) -> Seq<EntryView> {
    let x = engine::in_order(s);
    order::stable_sort(
        engine::after_returns(versions, x, x.len() as int)->Ok_0.entries,
        |a: EntryView, b: EntryView| engine::entry_lt(a, b),
    )
}

pub(crate) proof fn summaries_are_of_entries(p: PlanConfig, s: Seq<TxnView>)
    requires
        config::plan_error(p) is None,
        engine::outcome(p.versions@, s) is Ok,
    ensures
        ({
            let versions = p.versions@;
            let entries = entries_of(versions, s);
            let r = engine::rollup(versions, entries, entries.len() as int);
            let all = engine::outcome(versions, s)->Ok_0.rep_summaries;
            &&& r is Ok
            &&& laws::is_kept(entries, versions.len() as int)
            &&& r->Ok_0.summaries.len() == entries.len()
            &&& all.to_multiset() == r->Ok_0.summaries.to_multiset()
            &&& forall|x: SummaryView| #[trigger]
                all.contains(x) <==> r->Ok_0.summaries.contains(x)
            &&& forall|i: int|
                0 <= i < entries.len() ==> is_rolled_up(
                    versions[entries[i].version],
                    #[trigger] r->Ok_0.summaries[i],
                ) && r->Ok_0.summaries[i].rep_id == entries[i].rep
                    && r->Ok_0.summaries[i].gross_credited_cents == entries[i].gross
                    && r->Ok_0.summaries[i].returned_cents == entries[i].returned
        }),
{
    let versions = p.versions@;
    let x = engine::in_order(s);
    let st = engine::after_returns(versions, x, x.len() as int)->Ok_0;
    let entries = entries_of(versions, s);
    laws::returns_keep(versions, x, x.len() as int);
    laws::entries_stay_kept(st.entries, versions.len() as int);
    quotas_are_positive(p);
    summaries_roll_up(versions, entries, entries.len() as int);
    let r = engine::rollup(versions, entries, entries.len() as int)->Ok_0;
    let lt = |a: SummaryView, b: SummaryView| engine::summary_lt(a, b);
    order::stable_sort_keeps(r.summaries, lt);
    order::stable_sort_elements(r.summaries, lt);
}

/// Every roll-up is what a version of the plan makes of what its rep was
/// credited, and the version is told by its number.
pub proof fn rollups_pay_by_their_version(p: PlanConfig, s: Seq<TxnView>, k: int)
    requires
        config::plan_error(p) is None,
        engine::outcome(p.versions@, s) is Ok,
        0 <= k < engine::outcome(p.versions@, s)->Ok_0.rep_summaries.len(),
    ensures
        exists|i: int|
            0 <= i < p.versions.len() && is_rolled_up(
                #[trigger] p.versions@[i],
                engine::outcome(p.versions@, s)->Ok_0.rep_summaries[k],
            ),
{
    let versions = p.versions@;
    let entries = entries_of(versions, s);
    let all = engine::outcome(versions, s)->Ok_0.rep_summaries;
    summaries_are_of_entries(p, s);
    let r = engine::rollup(versions, entries, entries.len() as int)->Ok_0.summaries;
    assert(all.contains(all[k]));
    assert(r.contains(all[k]));
    let j = choose|j: int| 0 <= j < r.len() && r[j] == all[k];
    assert(is_rolled_up(versions[entries[j].version], r[j]));
    assert(is_rolled_up(p.versions@[entries[j].version], all[k]));
}

// ---- sales alone ----

/// The sales among the first `n` transactions.
pub open spec fn sales_of(s: Seq<TxnView>, n: int) -> Seq<TxnView>
    decreases n,
{
    if n <= 0 {
        Seq::empty()
    } else if s[n - 1].kind == TxnKind::Sale {
        sales_of(s, n - 1).push(s[n - 1])
    } else {
        sales_of(s, n - 1)
    }
}

proof fn sales_held(s: Seq<TxnView>, n: int)
    requires
        0 <= n <= s.len(),
        laws::ids_differ(s),
    ensures
        forall|t: TxnView| #[trigger]
            sales_of(s, n).contains(t) <==> t.kind == TxnKind::Sale && s.take(n).contains(t),
        sales_of(s, n).no_duplicates(),
        forall|i: int|
            0 <= i < sales_of(s, n).len() ==> (#[trigger] sales_of(s, n)[i]).kind == TxnKind::Sale,
        laws::ids_differ(sales_of(s, n)),
    decreases n,
{
    let now = sales_of(s, n);
    if n > 0 {
        sales_held(s, n - 1);
        let before = sales_of(s, n - 1);
        let x = s[n - 1];
        let front = s.take(n - 1);
        let all = s.take(n);
        assert(all =~= front.push(x));
        assert forall|t: TxnView| #[trigger] front.contains(t) implies t.transaction_id
            != x.transaction_id by {
            let k = choose|k: int| 0 <= k < front.len() && front[k] == t;
            assert(s[k].transaction_id != s[n - 1].transaction_id);
        }
        assert forall|t: TxnView| #[trigger] now.contains(t) <==> t.kind == TxnKind::Sale
            && all.contains(t) by {
            assert(before.contains(t) <==> t.kind == TxnKind::Sale && front.contains(t));
            if now.contains(t) {
                let k = choose|k: int| 0 <= k < now.len() && now[k] == t;
                if k < before.len() {
                    assert(before[k] == t);
                    let j = choose|j: int| 0 <= j < front.len() && front[j] == t;
                    assert(all[j] == t);
                } else {
                    assert(all[n - 1] == t);
                }
            }
            if all.contains(t) && t.kind == TxnKind::Sale {
                let k = choose|k: int| 0 <= k < all.len() && all[k] == t;
                if k < n - 1 {
                    assert(front[k] == t);
                    let j = choose|j: int| 0 <= j < before.len() && before[j] == t;
                    assert(now[j] == t);
                } else {
                    assert(now[now.len() - 1] == t);
                }
            }
        }
        assert forall|i: int| 0 <= i < before.len() implies (#[trigger] before[i]).transaction_id
            != x.transaction_id by {
            assert(before.contains(before[i]));
        }
    }
}

proof fn sales_sorted(s: Seq<TxnView>, n: int, lt: spec_fn(TxnView, TxnView) -> bool)
    requires
        0 <= n <= s.len(),
        order::is_sorted(s, lt),
        laws::ids_differ(s),
    ensures
        order::is_sorted(sales_of(s, n), lt),
    decreases n,
{
    if n > 0 {
        sales_sorted(s, n - 1, lt);
        sales_held(s, n - 1);
        let before = sales_of(s, n - 1);
        let now = sales_of(s, n);
        assert forall|i: int, j: int| 0 <= i < j < now.len() implies !#[trigger] lt(
            now[j],
            now[i],
        ) by {
            if j < before.len() {
                assert(!lt(before[j], before[i]));
            } else {
                let front = s.take(n - 1);
                assert(before.contains(before[i]));
                let k = choose|k: int| 0 <= k < front.len() && front[k] == before[i];
                assert(!lt(s[n - 1], s[k]));
            }
        }
    }
}

proof fn order_of_txns()
    ensures
        order::is_order(|a: TxnView, b: TxnView| engine::txn_lt(a, b)),
{
    let letters = |a: Seq<char>, b: Seq<char>| text::text_lt(a, b);
    let days = |a: int, b: int| a < b;
    let by_day = order::by_key(|x: TxnView| x.day, days);
    let by_id = order::by_key(|x: TxnView| x.transaction_id, letters);
    text::text_order();
    assert(order::is_order(days));
    order::by_key_is_order(|x: TxnView| x.day, days);
    order::by_key_is_order(|x: TxnView| x.transaction_id, letters);
    order::by_both_is_order(by_day, by_id);
    let lt = |a: TxnView, b: TxnView| engine::txn_lt(a, b);
    assert(lt =~= order::by_both(by_day, by_id));
}

pub(crate) proof fn in_order_facts(s: Seq<TxnView>)
    requires
        laws::ids_differ(s),
    ensures
        engine::in_order(s).len() == s.len(),
        laws::ids_differ(engine::in_order(s)),
        order::is_sorted(
            engine::in_order(s),
            |a: TxnView, b: TxnView| engine::txn_lt(a, b),
        ),
        forall|t: TxnView| #[trigger] engine::in_order(s).contains(t) <==> s.contains(t),
{
    let lt = |a: TxnView, b: TxnView| engine::txn_lt(a, b);
    let x = engine::in_order(s);
    order_of_txns();
    order::stable_sort_keeps(s, lt);
    order::stable_sort_sorts(s, lt);
    order::stable_sort_elements(s, lt);
    assert(s.no_duplicates());
    s.lemma_multiset_has_no_duplicates();
    x.lemma_multiset_has_no_duplicates_conv();
    assert forall|i: int, j: int| 0 <= i < j < x.len() implies (#[trigger] x[i]).transaction_id != (
    #[trigger] x[j]).transaction_id by {
        assert(x.contains(x[i]) && x.contains(x[j]));
        let a = choose|a: int| 0 <= a < s.len() && s[a] == x[i];
        let b = choose|b: int| 0 <= b < s.len() && s[b] == x[j];
        assert(x[i] != x[j]);
        if a < b {
            assert(s[a].transaction_id != s[b].transaction_id);
        } else {
            assert(s[b].transaction_id != s[a].transaction_id);
        }
    }
}

proof fn sales_in_order(s: Seq<TxnView>)
    requires
        laws::ids_differ(s),
    ensures
        engine::in_order(sales_of(s, s.len() as int)) == sales_of(
            engine::in_order(s),
            s.len() as int,
        ),
{
    let lt = |a: TxnView, b: TxnView| engine::txn_lt(a, b);
    let n = s.len() as int;
    let x = engine::in_order(s);
    let a = sales_of(x, n);
    let b = sales_of(s, n);
    in_order_facts(s);
    order_of_txns();
    sales_held(x, n);
    sales_held(s, n);
    assert(x.take(n) =~= x);
    assert(s.take(n) =~= s);
    sales_sorted(x, n, lt);
    order::sorted_stays(a, lt);
    same_parts(a, b);
    assert forall|p: TxnView, q: TxnView|
        a.contains(p) && a.contains(q) && p != q implies #[trigger] lt(p, q) || lt(q, p) by {
        let i = choose|i: int| 0 <= i < a.len() && a[i] == p;
        let j = choose|j: int| 0 <= j < a.len() && a[j] == q;
        if i < j {
            assert(a[i].transaction_id != a[j].transaction_id);
        } else {
            assert(a[j].transaction_id != a[i].transaction_id);
        }
        text::text_lt_total(p.transaction_id, q.transaction_id);
    }
    order::stable_sort_forgets_order(a, b, lt);
}

proof fn same_parts<A>(s: Seq<A>, t: Seq<A>)
    requires
        s.no_duplicates(),
        t.no_duplicates(),
        forall|x: A| #[trigger] s.contains(x) <==> t.contains(x),
    ensures
        s.to_multiset() == t.to_multiset(),
{
    s.lemma_multiset_has_no_duplicates();
    t.lemma_multiset_has_no_duplicates();
    assert forall|x: A| #[trigger] s.to_multiset().count(x) == t.to_multiset().count(x) by {
        vstd::seq_lib::to_multiset_contains(s, x);
        vstd::seq_lib::to_multiset_contains(t, x);
    }
    assert(s.to_multiset() =~= t.to_multiset());
}

proof fn sales_prefix(versions: Seq<PlanVersion>, s: Seq<TxnView>, t: TxnView, n: int)
    requires
        0 <= n <= s.len(),
    ensures
        engine::after_sales(versions, s.push(t), n) == engine::after_sales(versions, s, n),
    decreases n,
{
    if n > 0 {
        sales_prefix(versions, s, t, n - 1);
    }
}

proof fn sales_decide_sales(versions: Seq<PlanVersion>, x: Seq<TxnView>, n: int)
    requires
        0 <= n <= x.len(),
    ensures
        engine::after_sales(versions, x, n) == engine::after_sales(
            versions,
            sales_of(x, n),
            sales_of(x, n).len() as int,
        ),
    decreases n,
{
    if n > 0 {
        sales_decide_sales(versions, x, n - 1);
        let before = sales_of(x, n - 1);
        if x[n - 1].kind == TxnKind::Sale {
            sales_prefix(versions, before, x[n - 1], before.len() as int);
        }
    }
}

proof fn no_returns(versions: Seq<PlanVersion>, y: Seq<TxnView>, n: int)
    requires
        0 <= n <= y.len(),
        forall|i: int| 0 <= i < y.len() ==> (#[trigger] y[i]).kind == TxnKind::Sale,
    ensures
        engine::after_returns(versions, y, n) == engine::after_sales(
            versions,
            y,
            y.len() as int,
        ),
    decreases n,
{
    if n > 0 {
        no_returns(versions, y, n - 1);
    }
}

/// What a rep was credited under a version, before returns.
spec fn gross_at(entries: Seq<EntryView>, rep: Seq<char>, version: int) -> int {
    let i = engine::entry_at(entries, rep, version, 0);
    if i < entries.len() {
        entries[i].gross
    } else {
        0
    }
}

proof fn entry_stands(entries: Seq<EntryView>, k: int, versions: int)
    requires
        laws::is_kept(entries, versions),
        0 <= k < entries.len(),
    ensures
        engine::entry_at(entries, entries[k].rep, entries[k].version, 0) == k,
{
    laws::entry_found(entries, entries[k].rep, entries[k].version, 0);
    let i = engine::entry_at(entries, entries[k].rep, entries[k].version, 0);
    if i < k {
        assert(entries[i].rep != entries[k].rep || entries[i].version != entries[k].version);
    } else if i > k && i < entries.len() {
        assert(entries[k].rep != entries[i].rep || entries[k].version != entries[i].version);
    }
}

/// Taking back changes no gross credit.
proof fn back_keeps_gross(
    entries: Seq<EntryView>,
    rep: Seq<char>,
    version: int,
    returned: int,
    other: Seq<char>,
    number: int,
    versions: int,
)
    requires
        laws::is_kept(entries, versions),
        0 <= version < versions,
    ensures
        gross_at(engine::credited(entries, rep, version, 0, returned), other, number) == gross_at(
            entries,
            other,
            number,
        ),
        laws::is_kept(engine::credited(entries, rep, version, 0, returned), versions),
{
    let now = engine::credited(entries, rep, version, 0, returned);
    laws::entry_found(entries, rep, version, 0);
    laws::entry_found(entries, other, number, 0);
    laws::entry_found(now, other, number, 0);
    let i = engine::entry_at(entries, other, number, 0);
    let j = engine::entry_at(now, other, number, 0);
    if i < entries.len() {
        assert(now[i].rep == other && now[i].version == number);
        if j < i {
            assert(now[j].rep != now[i].rep || now[j].version != now[i].version);
        } else if i < j && j < now.len() {
            assert(now[i].rep != now[j].rep || now[i].version != now[j].version);
        }
    } else if j < now.len() {
        if j < entries.len() {
            assert(entries[j].rep == other && entries[j].version == number);
        }
    }
}

proof fn backs_keep_gross(
    entries: Seq<EntryView>,
    version: int,
    ws: Seq<WinnerView>,
    shares: Seq<int>,
    n: int,
    other: Seq<char>,
    number: int,
    versions: int,
)
    requires
        laws::is_kept(entries, versions),
        0 <= version < versions,
    ensures
        gross_at(
            engine::entries_after(entries, TxnKind::Return, version, ws, shares, n),
            other,
            number,
        ) == gross_at(entries, other, number),
        laws::is_kept(
            engine::entries_after(entries, TxnKind::Return, version, ws, shares, n),
            versions,
        ),
    decreases n,
{
    if n > 0 {
        backs_keep_gross(entries, version, ws, shares, n - 1, other, number, versions);
        back_keeps_gross(
            engine::entries_after(entries, TxnKind::Return, version, ws, shares, n - 1),
            ws[n - 1].rep,
            version,
            shares[n - 1],
            other,
            number,
            versions,
        );
    }
}

proof fn returns_keep_gross(
    versions: Seq<PlanVersion>,
    x: Seq<TxnView>,
    n: int,
    rep: Seq<char>,
    number: int,
)
    requires
        engine::after_returns(versions, x, n) is Ok,
    ensures
        engine::after_sales(versions, x, x.len() as int) is Ok,
        gross_at(engine::after_returns(versions, x, n)->Ok_0.entries, rep, number) == gross_at(
            engine::after_sales(versions, x, x.len() as int)->Ok_0.entries,
            rep,
            number,
        ),
    decreases n,
{
    if n > 0 {
        returns_keep_gross(versions, x, n - 1, rep, number);
        laws::returns_keep(versions, x, n - 1);
        let st = engine::after_returns(versions, x, n - 1)->Ok_0;
        let t = x[n - 1];
        if t.kind == TxnKind::Return && t.original is Some && !text::is_blank(t.original->0) {
            let m = st.resolved.len() as int;
            let at = engine::resolved_at(st.resolved, t.original->0, m);
            laws::resolved_found(st.resolved, t.original->0, m);
            if at is Some && st.resolved[at->0].winners.len() > 0 {
                let sale = st.resolved[at->0];
                let shares = engine::split_for(
                    versions[sale.version],
                    sale.winners,
                    t.amount_cents,
                )->Ok_0;
                backs_keep_gross(
                    st.entries,
                    sale.version,
                    sale.winners,
                    shares,
                    sale.winners.len() as int,
                    rep,
                    number,
                    versions.len() as int,
                );
            }
        }
    }
}

pub(crate) proof fn numbers_tell(p: PlanConfig, i: int, j: int)
    requires
        config::plan_error(p) is None,
        0 <= i < p.versions.len(),
        0 <= j < p.versions.len(),
        p.versions@[i].version == p.versions@[j].version,
    ensures
        i == j,
{
    if i < j {
        laws::placed(p.versions@, 0, j);
        assert(!config::number_seen(p.versions@, j, p.versions@[j].version));
    } else if j < i {
        laws::placed(p.versions@, 0, i);
        assert(!config::number_seen(p.versions@, i, p.versions@[i].version));
    }
}

/// The gross credit of a roll-up, found in the entries of its run.
proof fn gross_of_summary(p: PlanConfig, s: Seq<TxnView>, k: int) -> (i: int)
    requires
        config::plan_error(p) is None,
        engine::outcome(p.versions@, s) is Ok,
        0 <= k < engine::outcome(p.versions@, s)->Ok_0.rep_summaries.len(),
    ensures
        0 <= i < p.versions.len(),
        is_rolled_up(p.versions@[i], engine::outcome(p.versions@, s)->Ok_0.rep_summaries[k]),
        ({
            let x = engine::in_order(s);
            let r = engine::outcome(p.versions@, s)->Ok_0.rep_summaries[k];
            r.gross_credited_cents == gross_at(
                engine::after_sales(p.versions@, x, x.len() as int)->Ok_0.entries,
                r.rep_id,
                i,
            )
        }),
{
    let versions = p.versions@;
    let x = engine::in_order(s);
    let n = x.len() as int;
    let entries = entries_of(versions, s);
    let all = engine::outcome(versions, s)->Ok_0.rep_summaries;
    summaries_are_of_entries(p, s);
    let r = engine::rollup(versions, entries, entries.len() as int)->Ok_0.summaries;
    assert(all.contains(all[k]));
    assert(r.contains(all[k]));
    let j = choose|j: int| 0 <= j < r.len() && r[j] == all[k];
    assert(is_rolled_up(versions[entries[j].version], r[j]));
    let st = engine::after_returns(versions, x, n)->Ok_0;
    laws::returns_keep(versions, x, n);
    order::stable_sort_elements(
        st.entries,
        |a: EntryView, b: EntryView| engine::entry_lt(a, b),
    );
    assert(entries.contains(entries[j]));
    assert(st.entries.contains(entries[j]));
    let m = choose|m: int| 0 <= m < st.entries.len() && st.entries[m] == entries[j];
    entry_stands(st.entries, m, versions.len() as int);
    returns_keep_gross(versions, x, n, entries[j].rep, entries[j].version);
    entries[j].version
}

/// Returns leave the gross alone: the roll-up of a rep under a version has
/// the same gross credit and the same gross commission with and without the
/// returns of the file.
pub proof fn returns_leave_the_gross_alone(p: PlanConfig, s: Seq<TxnView>, k: int, l: int)
    requires
        config::plan_error(p) is None,
        laws::ids_differ(s),
        engine::outcome(p.versions@, s) is Ok,
        engine::outcome(p.versions@, sales_of(s, s.len() as int)) is Ok,
        0 <= k < engine::outcome(p.versions@, s)->Ok_0.rep_summaries.len(),
        0 <= l < engine::outcome(
            p.versions@,
            sales_of(s, s.len() as int),
        )->Ok_0.rep_summaries.len(),
        ({
            let a = engine::outcome(p.versions@, s)->Ok_0.rep_summaries[k];
            let b = engine::outcome(
                p.versions@,
                sales_of(s, s.len() as int),
            )->Ok_0.rep_summaries[l];
            a.rep_id == b.rep_id && a.plan_version == b.plan_version
        }),
    ensures
        ({
            let a = engine::outcome(p.versions@, s)->Ok_0.rep_summaries[k];
            let b = engine::outcome(
                p.versions@,
                sales_of(s, s.len() as int),
            )->Ok_0.rep_summaries[l];
            &&& a.gross_credited_cents == b.gross_credited_cents
            &&& a.gross_commission_cents == b.gross_commission_cents
        }),
{
    let versions = p.versions@;
    let n = s.len() as int;
    let x = engine::in_order(s);
    let t = sales_of(s, n);
    let y = engine::in_order(t);
    in_order_facts(s);
    sales_in_order(s);
    sales_held(x, n);
    assert(y == sales_of(x, n));
    sales_decide_sales(versions, x, n);
    let i = gross_of_summary(p, s, k);
    let j = gross_of_summary(p, t, l);
    numbers_tell(p, i, j);
}

} // verus!
