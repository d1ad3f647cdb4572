//! Splitting an amount across weights to the cent.

use vstd::prelude::*;

use crate::commission::engine::{EngineError, EngineFault};
use crate::order;
use crate::order::Order;

verus! {

pub open spec fn fits(i: int) -> bool {
    i128::MIN <= i <= i128::MAX
}

/// The sum of the first `n` weights.
pub open spec fn weight_total(weights: Seq<u32>, n: int) -> int
    decreases n,
{
    if n <= 0 {
        0
    } else {
        weight_total(weights, n - 1) + weights[n - 1]
    }
}

/// The whole of the weights.
pub open spec fn whole(weights: Seq<u32>) -> int {
    weight_total(weights, weights.len() as int)
}

/// Whole cents of the `i`-th proportional share.
pub open spec fn floor_share(amount: int, weights: Seq<u32>, i: int) -> int {
    (amount * weights[i]) / whole(weights)
}

/// What rounding down takes from the `i`-th proportional share, over the
/// whole of the weights.
pub open spec fn remainder(amount: int, weights: Seq<u32>, i: int) -> int {
    (amount * weights[i]) % whole(weights)
}

/// The shares rounded down.
pub open spec fn floor_shares(amount: int, weights: Seq<u32>) -> Seq<int> {
    Seq::new(weights.len(), |i: int| floor_share(amount, weights, i))
}

pub open spec fn total(s: Seq<int>) -> int
    decreases s.len(),
{
    if s.len() == 0 {
        0
    } else {
        total(s.drop_last()) + s.last()
    }
}

/// The cents that rounding down leaves.
pub open spec fn leftover(amount: int, weights: Seq<u32>) -> int {
    amount - total(floor_shares(amount, weights))
}

/// Places by remainder, the largest first, equal ones in order.
pub open spec fn by_remainder(amount: int, weights: Seq<u32>) -> Seq<usize> {
    order::stable_sort(
        Seq::new(weights.len(), |i: int| i as usize),
        |a: usize, b: usize|
            a < weights.len() && b < weights.len() && remainder(amount, weights, a as int)
                > remainder(amount, weights, b as int),
    )
}

/// `s` with one more at each of the first `n` places of `places`.
pub open spec fn bumped(s: Seq<int>, places: Seq<usize>, n: int) -> Seq<int>
    decreases n,
{
    if n <= 0 {
        s
    } else {
        let t = bumped(s, places, n - 1);
        t.update(places[n - 1] as int, t[places[n - 1] as int] + 1)
    }
}

/// The split by largest remainders: every share rounded down, and the cents
/// left over to the largest remainders.
pub open spec fn shares(amount: int, weights: Seq<u32>) -> Seq<int> {
    bumped(
        floor_shares(amount, weights),
        by_remainder(amount, weights),
        leftover(amount, weights),
    )
}

/// The split, or the refusal where a product is out of range.
pub open spec fn split(amount: int, weights: Seq<u32>) -> Result<Seq<int>, EngineFault> {
    if forall|i: int| 0 <= i < weights.len() ==> fits(amount * #[trigger] weights[i]) {
        Ok(shares(amount, weights))
    } else {
        Err(EngineFault::ArithmeticOverflow { what: "split share"@ })
    }
}

proof fn weight_total_positive(weights: Seq<u32>, n: int)
    requires
        0 <= n <= weights.len(),
        forall|i: int| 0 <= i < weights.len() ==> (#[trigger] weights[i]) > 0,
    ensures
        n <= weight_total(weights, n) <= n * 0xffff_ffff,
    decreases n,
{
    if n > 0 {
        weight_total_positive(weights, n - 1);
    }
}

/// The part of the amount that the first `n` shares account for, rounding
/// included.
proof fn floors_account(amount: int, weights: Seq<u32>, n: int)
    requires
        0 <= n <= weights.len(),
        0 < weights.len(),
        0 <= amount,
        forall|i: int| 0 <= i < weights.len() ==> (#[trigger] weights[i]) > 0,
    ensures
        amount * weight_total(weights, n) - whole(weights) * total(
            floor_shares(amount, weights).take(n),
        ) >= 0,
        n > 0 ==> amount * weight_total(weights, n) - whole(weights) * total(
            floor_shares(amount, weights).take(n),
        ) < n * whole(weights),
        total(floor_shares(amount, weights).take(n)) >= 0,
    decreases n,
{
    let w = whole(weights);
    weight_total_positive(weights, weights.len() as int);
    let f = floor_shares(amount, weights);
    if n == 0 {
        assert(f.take(0) =~= Seq::<int>::empty());
        assert(amount * 0 == 0);
        assert(w * 0 == 0);
    } else {
        floors_account(amount, weights, n - 1);
        assert(f.take(n).drop_last() =~= f.take(n - 1));
        let before = total(f.take(n - 1));
        let q = floor_share(amount, weights, n - 1);
        let p = amount * weights[n - 1];
        assert(0 <= p) by (nonlinear_arith)
            requires
                p == amount * weights[n - 1],
                amount >= 0,
        ;
        assert(0 <= p - w * q < w && q >= 0) by (nonlinear_arith)
            requires
                q == p / w,
                w > 0,
                p >= 0,
        ;
        let sum = weight_total(weights, n - 1);
        assert(amount * (sum + weights[n - 1]) == amount * sum + p) by (nonlinear_arith)
            requires
                p == amount * weights[n - 1],
        ;
        assert(w * (before + q) == w * before + w * q) by (nonlinear_arith);
        assert(n * w == (n - 1) * w + w) by (nonlinear_arith);
        if n - 1 == 0 {
            assert(f.take(0) =~= Seq::<int>::empty());
            assert(amount * 0 == 0);
            assert(w * 0 == 0);
        }
    }
}

/// Rounding down leaves fewer cents than there are shares.
pub proof fn leftover_is_small(amount: int, weights: Seq<u32>)
    requires
        0 < weights.len(),
        0 <= amount,
        forall|i: int| 0 <= i < weights.len() ==> (#[trigger] weights[i]) > 0,
    ensures
        0 <= leftover(amount, weights) < weights.len(),
{
    let n = weights.len() as int;
    let w = whole(weights);
    let f = floor_shares(amount, weights);
    floors_account(amount, weights, n);
    weight_total_positive(weights, n);
    assert(f.take(n) =~= f);
    let left = leftover(amount, weights);
    assert(amount * w - w * total(f) == w * left) by (nonlinear_arith)
        requires
            left == amount - total(f),
    ;
    assert(0 <= left < n) by (nonlinear_arith)
        requires
            0 <= w * left < n * w,
            w > 0,
    ;
}

proof fn total_update(s: Seq<int>, i: int, x: int)
    requires
        0 <= i < s.len(),
    ensures
        total(s.update(i, x)) == total(s) - s[i] + x,
    decreases s.len(),
{
    let t = s.update(i, x);
    if i == s.len() - 1 {
        assert(t.drop_last() =~= s.drop_last());
    } else {
        total_update(s.drop_last(), i, x);
        assert(t.drop_last() =~= s.drop_last().update(i, x));
    }
}

proof fn places_distinct(amount: int, weights: Seq<u32>)
    requires
        weights.len() <= usize::MAX,
    ensures
        by_remainder(amount, weights).len() == weights.len(),
        by_remainder(amount, weights).no_duplicates(),
        forall|k: int|
            0 <= k < weights.len() ==> (#[trigger] by_remainder(amount, weights)[k])
                < weights.len(),
{
    let all = Seq::new(weights.len(), |i: int| i as usize);
    let lt = |a: usize, b: usize|
        a < weights.len() && b < weights.len() && remainder(amount, weights, a as int) > remainder(
            amount,
            weights,
            b as int,
        );
    let sorted = order::stable_sort(all, lt);
    order::stable_sort_keeps(all, lt);
    order::stable_sort_elements(all, lt);
    assert(all.no_duplicates());
    all.lemma_multiset_has_no_duplicates();
    sorted.lemma_multiset_has_no_duplicates_conv();
    assert forall|k: int| 0 <= k < weights.len() implies (#[trigger] sorted[k]) < weights.len() by {
        assert(sorted.contains(sorted[k]));
        let j = choose|j: int| 0 <= j < all.len() && all[j] == sorted[k];
    }
}

proof fn bumped_total(s: Seq<int>, places: Seq<usize>, n: int)
    requires
        0 <= n <= places.len(),
        places.no_duplicates(),
        forall|k: int| 0 <= k < places.len() ==> (#[trigger] places[k]) < s.len(),
    ensures
        bumped(s, places, n).len() == s.len(),
        total(bumped(s, places, n)) == total(s) + n,
        forall|i: int|
            0 <= i < s.len() ==> s[i] <= #[trigger] bumped(s, places, n)[i] <= s[i] + 1,
        forall|i: int|
            0 <= i < s.len() && (forall|k: int| 0 <= k < n ==> #[trigger] places[k] != i)
                ==> #[trigger] bumped(s, places, n)[i] == s[i],
    decreases n,
{
    if n > 0 {
        bumped_total(s, places, n - 1);
        let t = bumped(s, places, n - 1);
        let p = places[n - 1] as int;
        total_update(t, p, t[p] + 1);
        assert forall|k: int| 0 <= k < n - 1 implies #[trigger] places[k] != p by {
            assert(places[k] != places[n - 1]);
        }
        assert(t[p] == s[p]);
        let u = bumped(s, places, n);
        assert forall|i: int| 0 <= i < s.len() implies s[i] <= #[trigger] u[i] <= s[i] + 1 by {
            assert(s[i] <= t[i] <= s[i] + 1);
        }
        assert forall|i: int|
            0 <= i < s.len() && (forall|k: int| 0 <= k < n ==> #[trigger] places[k] != i) implies
            #[trigger] u[i] == s[i] by {
            assert(places[n - 1] != i);
            assert forall|k: int| 0 <= k < n - 1 implies #[trigger] places[k] != i by {}
            assert(t[i] == s[i]);
        }
    }
}

/// A split sums to exactly the amount, and every share is its proportional
/// part rounded down or the cent above.
pub proof fn shares_sum_exactly(amount: int, weights: Seq<u32>)
    requires
        0 < weights.len() <= usize::MAX,
        0 <= amount,
        forall|i: int| 0 <= i < weights.len() ==> (#[trigger] weights[i]) > 0,
    ensures
        shares(amount, weights).len() == weights.len(),
        total(shares(amount, weights)) == amount,
        forall|i: int|
            0 <= i < weights.len() ==> floor_share(amount, weights, i) <= #[trigger] shares(
                amount,
                weights,
            )[i] <= floor_share(amount, weights, i) + 1,
        forall|i: int| 0 <= i < weights.len() ==> 0 <= #[trigger] shares(amount, weights)[i] <= amount,
{
    leftover_is_small(amount, weights);
    places_distinct(amount, weights);
    let f = floor_shares(amount, weights);
    let s = shares(amount, weights);
    bumped_total(f, by_remainder(amount, weights), leftover(amount, weights));
    assert forall|i: int| 0 <= i < weights.len() implies 0 <= #[trigger] s[i] by {
        weight_total_positive(weights, weights.len() as int);
        let w = whole(weights);
        let p = amount * weights[i];
        assert(p >= 0) by (nonlinear_arith)
            requires
                p == amount * weights[i],
                amount >= 0,
        ;
        assert(p / w >= 0) by (nonlinear_arith)
            requires
                p >= 0,
                w > 0,
        ;
        assert(s[i] >= f[i]);
    }
    assert forall|i: int| 0 <= i < weights.len() implies #[trigger] s[i] <= amount by {
        nonnegative_part(s, i);
    }
}

proof fn nonnegative_part(s: Seq<int>, i: int)
    requires
        0 <= i < s.len(),
        forall|k: int| 0 <= k < s.len() ==> 0 <= #[trigger] s[k],
    ensures
        0 <= s[i] <= total(s),
    decreases s.len(),
{
    nonnegative_total(s.drop_last());
    if i < s.len() - 1 {
        assert forall|k: int| 0 <= k < s.drop_last().len() implies 0 <= #[trigger] s.drop_last()[k] by {
            assert(s[k] >= 0);
        }
        nonnegative_part(s.drop_last(), i);
    }
    assert(s[s.len() - 1] >= 0);
}

proof fn nonnegative_total(s: Seq<int>)
    requires
        forall|k: int| 0 <= k < s.len() ==> 0 <= #[trigger] s[k],
    ensures
        0 <= total(s),
    decreases s.len(),
{
    if s.len() > 0 {
        assert forall|k: int| 0 <= k < s.drop_last().len() implies 0 <= #[trigger] s.drop_last()[k] by {
            assert(s[k] >= 0);
        }
        nonnegative_total(s.drop_last());
        assert(s[s.len() - 1] >= 0);
    }
}

struct ByRemainder<'a> {
    remainders: &'a Vec<i128>,
}

impl<'a> Order<usize> for ByRemainder<'a> {
    closed spec fn lt(&self, a: usize, b: usize) -> bool {
        a < self.remainders.len() && b < self.remainders.len() && self.remainders@[a as int]
            > self.remainders@[b as int]
    }

    fn before(&self, a: &usize, b: &usize) -> (r: bool) {
        *a < self.remainders.len() && *b < self.remainders.len() && self.remainders[*a]
            > self.remainders[*b]
    }
}

/// What a vector of amounts holds.
pub open spec fn amounts(s: Seq<i128>) -> Seq<int> {
    s.map_values(|x: i128| x as int)
}

/// Multiply, or refuse where the product is out of range.
pub fn checked_mul(a: i128, b: i128, what: &'static str) -> (r: Result<i128, EngineError>)
    ensures
        (match r {
            Ok(p) => p == a * b,
            Err(e) => !fits(a * b) && e@ == (EngineFault::ArithmeticOverflow { what: what@ }),
        }),
{
    match a.checked_mul(b) {
        Some(p) => Ok(p),
        None => Err(EngineError::ArithmeticOverflow { what }),
    }
}

/// Split an amount across weights by largest remainders. Ties go to the
/// earlier weight.
pub fn largest_remainder(amount: i128, weights: &[u32]) -> (r: Result<Vec<i128>, EngineError>)
    requires
        0 < weights.len(),
        0 <= amount,
        forall|i: int| 0 <= i < weights.len() ==> (#[trigger] weights@[i]) > 0,
    ensures
        (match r {
            Ok(v) => split(amount as int, weights@) == Ok::<Seq<int>, EngineFault>(amounts(v@)),
            Err(e) => split(amount as int, weights@) == Err::<Seq<int>, EngineFault>(e@),
        }),
{
    let ghost a = amount as int;
    let ghost ws = weights@;
    let n: usize = weights.len();
    let mut sum: i128 = 0;
    let mut i: usize = 0;
    while i < n
        invariant
            i <= n == weights.len(),
            ws == weights@,
            sum == weight_total(ws, i as int),
            0 <= sum <= i * 0xffff_ffff,
        decreases n - i,
    {
        sum = sum + weights[i] as i128;
        i = i + 1;
    }
    proof {
        weight_total_positive(ws, n as int);
        leftover_is_small(a, ws);
        places_distinct(a, ws);
        shares_sum_exactly(a, ws);
    }
    let mut floors: Vec<i128> = Vec::new();
    let mut remainders: Vec<i128> = Vec::new();
    let mut places: Vec<usize> = Vec::new();
    let mut left: i128 = amount;
    let mut k: usize = 0;
    assert(floor_shares(a, ws).take(0) =~= Seq::<int>::empty());
    while k < n
        invariant
            k <= n == weights.len(),
            a == amount >= 0,
            ws == weights@,
            sum == whole(ws),
            sum > 0,
            forall|j: int| 0 <= j < ws.len() ==> (#[trigger] ws[j]) > 0,
            forall|j: int| 0 <= j < k ==> fits(a * #[trigger] ws[j]),
            floors.len() == k,
            remainders.len() == k,
            places.len() == k,
            forall|j: int| 0 <= j < k ==> #[trigger] floors@[j] == floor_share(a, ws, j),
            forall|j: int| 0 <= j < k ==> #[trigger] remainders@[j] == remainder(a, ws, j),
            forall|j: int| 0 <= j < k ==> #[trigger] places@[j] == j as usize,
            left == a - total(floor_shares(a, ws).take(k as int)),
            0 <= left <= a,
        decreases n - k,
    {
        let w: u32 = weights[k];
        let product: i128 = match checked_mul(amount, w as i128, "split share") {
            Ok(p) => p,
            Err(e) => {
                assert(!fits(a * ws[k as int]));
                return Err(e);
            },
        };
        assert(product >= 0) by (nonlinear_arith)
            requires
                product == amount * w,
                amount >= 0,
        ;
        proof {
            let f = floor_shares(a, ws);
            assert(f.take(k + 1).drop_last() =~= f.take(k as int));
            floors_account(a, ws, k + 1);
            floors_bounded(a, ws, k + 1);
            assert(product / sum >= 0) by (nonlinear_arith)
                requires
                    product >= 0,
                    sum > 0,
            ;
        }
        floors.push(product / sum);
        remainders.push(product % sum);
        places.push(k);
        left = left - product / sum;
        k = k + 1;
    }
    assert(floor_shares(a, ws).take(k as int) =~= floor_shares(a, ws));
    assert(amounts(floors@) =~= floor_shares(a, ws));
    let rule = ByRemainder { remainders: &remainders };
    assert(places@ =~= Seq::new(ws.len(), |j: int| j as usize));
    let sorted = order::sort_by(places, &rule);
    proof {
        let lt = |x: usize, y: usize|
            x < ws.len() && y < ws.len() && remainder(a, ws, x as int) > remainder(a, ws, y as int);
        assert(order::order_of(rule) =~= lt);
        assert(sorted@ =~= by_remainder(a, ws));
    }
    let mut out = floors;
    let mut taken: usize = 0;
    while (taken as i128) < left
        invariant
            0 <= taken <= left < n,
            n == ws.len(),
            left == leftover(a, ws),
            sorted@ == by_remainder(a, ws),
            sorted.len() == n,
            sorted@.no_duplicates(),
            forall|j: int| 0 <= j < n ==> (#[trigger] sorted@[j]) < n,
            out.len() == n,
            amounts(out@) == bumped(floor_shares(a, ws), sorted@, taken as int),
            a <= i128::MAX,
            forall|j: int|
                0 <= j < n ==> floor_share(a, ws, j) <= #[trigger] shares(a, ws)[j] <= a,
        decreases left - taken,
    {
        let at: usize = sorted[taken];
        proof {
            let f = floor_shares(a, ws);
            bumped_total(f, sorted@, taken as int);
            bumped_total(f, sorted@, taken + 1);
            bumped_grows(f, sorted@, taken + 1, left as int);
            let t = bumped(f, sorted@, taken as int);
            assert(amounts(out@)[at as int] == t[at as int]);
            assert(bumped(f, sorted@, taken + 1)[at as int] == t[at as int] + 1);
            assert(shares(a, ws)[at as int] >= t[at as int] + 1);
        }
        let ghost was = out@;
        let share: i128 = out[at];
        out.set(at, share + 1);
        assert(amounts(out@) =~= amounts(was).update(at as int, share + 1));
        taken = taken + 1;
    }
    Ok(out)
}

proof fn bumped_grows(s: Seq<int>, places: Seq<usize>, m: int, n: int)
    requires
        0 <= m <= n <= places.len(),
        forall|k: int| 0 <= k < places.len() ==> (#[trigger] places[k]) < s.len(),
    ensures
        bumped(s, places, m).len() == s.len(),
        bumped(s, places, n).len() == s.len(),
        forall|i: int|
            0 <= i < s.len() ==> #[trigger] bumped(s, places, m)[i] <= bumped(s, places, n)[i],
    decreases n,
{
    if m < n {
        bumped_grows(s, places, m, n - 1);
    } else {
        bumped_len(s, places, n);
    }
}

proof fn bumped_len(s: Seq<int>, places: Seq<usize>, n: int)
    requires
        n <= places.len(),
        forall|k: int| 0 <= k < places.len() ==> (#[trigger] places[k]) < s.len(),
    ensures
        bumped(s, places, n).len() == s.len(),
    decreases n,
{
    if n > 0 {
        bumped_len(s, places, n - 1);
        assert(places[n - 1] < s.len());
    }
}

proof fn floors_bounded(amount: int, weights: Seq<u32>, n: int)
    requires
        0 <= n <= weights.len(),
        0 < weights.len(),
        0 <= amount,
        forall|i: int| 0 <= i < weights.len() ==> (#[trigger] weights[i]) > 0,
    ensures
        0 <= total(floor_shares(amount, weights).take(n)) <= amount,
{
    let w = whole(weights);
    let t = total(floor_shares(amount, weights).take(n));
    floors_account(amount, weights, n);
    weight_total_positive(weights, weights.len() as int);
    weight_total_grows(weights, n);
    let part = weight_total(weights, n);
    assert(t <= amount) by (nonlinear_arith)
        requires
            amount * part - w * t >= 0,
            part <= w,
            amount >= 0,
            w > 0,
    ;
}

proof fn weight_total_grows(weights: Seq<u32>, n: int)
    requires
        0 <= n <= weights.len(),
    ensures
        weight_total(weights, n) <= whole(weights),
    decreases weights.len() - n,
{
    if n < weights.len() {
        weight_total_grows(weights, n + 1);
    }
}

} // verus!
