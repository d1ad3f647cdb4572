//! What the outcome of a test means for the covenants and the financials that
//! it was made on.

use vstd::prelude::*;

use crate::covenant::config;
use crate::covenant::config::{Basis, CovenantConfig, CovenantKind, CovenantRule, EquityCure};
use crate::covenant::engine;
use crate::covenant::engine::{EvaluationView, MeasureView, ResultView, Totals};
use crate::covenant::input::{Financials, PeriodFinancials};
use crate::covenant::laws;
use crate::covenant::pack;
use crate::covenant::pack::{EnvelopeView, SealError, SealOutcome};
use crate::num;
use crate::order;
use crate::spine;
use crate::spine::{FindingView, LockState, Severity, SignoffDecision, SignoffView};
use crate::text;

verus! {

// ---- quotients ----

/// Whether `q` is `a / b` in millionths, without the digits behind them.
pub open spec fn is_ratio(a: int, b: int, q: int) -> bool {
    if a >= 0 {
        q * b <= a * 1_000_000 < (q + 1) * b
    } else {
        (q - 1) * b < a * 1_000_000 <= q * b
    }
}

/// A ratio over a positive denominator is told in millionths, cut behind
/// them.
pub proof fn ratios_are_cut_at_millionths(a: int, b: int)
    requires
        b > 0,
        engine::ratio_of(a, b) is Some,
    ensures
        engine::ratio_of(a, b) matches Some(MeasureView::Ratio(q)) && is_ratio(a, b, q),
{
    let x = a * 1_000_000;
    let q = num::quotient(x, b);
    if a >= 0 {
        assert(q == x / b);
        assert(q * b <= x < (q + 1) * b) by (nonlinear_arith)
            requires
                q == x / b,
                b > 0,
        ;
    } else {
        let y = -x;
        let k = y / b;
        assert(q == -k);
        assert(k * b <= y < (k + 1) * b) by (nonlinear_arith)
            requires
                k == y / b,
                b > 0,
        ;
        assert((q - 1) * b == -((k + 1) * b)) by (nonlinear_arith)
            requires
                q == -k,
        ;
        assert(q * b == -(k * b)) by (nonlinear_arith)
            requires
                q == -k,
        ;
    }
}

// ---- windows ----

/// Whether a period ends by the day of measurement.
pub open spec fn is_past(fin: Financials, i: int) -> bool {
    0 <= i < fin.periods.len() && fin.periods@[i].period_end.day() <= fin.measurement_date.day()
}

/// Whether places are those of the latest periods that end by the day of
/// measurement, the latest first.
pub open spec fn is_window(fin: Financials, w: Seq<int>) -> bool {
    &&& w.len() > 0
    &&& forall|k: int| 0 <= k < w.len() ==> is_past(fin, #[trigger] w[k])
    &&& forall|k: int, l: int|
        0 <= k < l < w.len() ==> fin.periods@[#[trigger] w[k]].period_end.day()
            > fin.periods@[#[trigger] w[l]].period_end.day()
    &&& forall|i: int| #[trigger]
        is_past(fin, i) && fin.periods@[i].period_end.day()
            > fin.periods@[w.last()].period_end.day() ==> w.contains(i)
}

/// Whether no two periods have the same id or the same end.
pub open spec fn periods_differ(fin: Financials) -> bool {
    forall|i: int, j: int|
        0 <= i < j < fin.periods.len() ==> (#[trigger] fin.periods@[i]).period_end.day() != (
        #[trigger] fin.periods@[j]).period_end.day() && fin.periods@[i].period_id@
            != fin.periods@[j].period_id@
}

/// How many quarters a basis takes.
pub open spec fn quarters(b: Basis) -> nat {
    match b {
        Basis::Quarterly => 1,
        Basis::Ltm => 4,
    }
}

/// An amount summed over the quarter, or over the four quarters, at places.
pub open spec fn sum_over(
    fin: Financials,
    w: Seq<int>,
    amount: spec_fn(PeriodFinancials) -> int,
) -> int {
    let s = fin.periods@;
    if w.len() == 1 {
        amount(s[w[0]])
    } else {
        amount(s[w[0]]) + amount(s[w[1]]) + amount(s[w[2]]) + amount(s[w[3]])
    }
}

proof fn sorted_facts(fin: Financials)
    requires
        periods_differ(fin),
    ensures
        ({
            let s = engine::in_order(fin.periods@);
            &&& s.len() == fin.periods.len()
            &&& forall|i: int, j: int|
                0 <= i < j < s.len() ==> (#[trigger] s[i]).period_end.day() < (
                #[trigger] s[j]).period_end.day()
            &&& forall|p: PeriodFinancials| #[trigger]
                s.contains(p) <==> fin.periods@.contains(p)
        }),
{
    let lt = |a: PeriodFinancials, b: PeriodFinancials| engine::end_lt(a, b);
    let all = fin.periods@;
    let s = engine::in_order(all);
    assert(order::is_order(lt));
    order::stable_sort_keeps(all, lt);
    order::stable_sort_elements(all, lt);
    assert forall|a: PeriodFinancials, b: PeriodFinancials|
        all.contains(a) && all.contains(b) && a != b implies #[trigger] lt(a, b) || lt(b, a) by {
        let i = choose|i: int| 0 <= i < all.len() && all[i] == a;
        let j = choose|j: int| 0 <= j < all.len() && all[j] == b;
        if i < j {
            assert(all[i].period_end.day() != all[j].period_end.day());
        } else {
            assert(all[j].period_end.day() != all[i].period_end.day());
        }
    }
    assert(all.no_duplicates()) by {
        assert forall|i: int, j: int|
            0 <= i < all.len() && 0 <= j < all.len() && i != j implies all[i] != all[j] by {
            if i < j {
                assert(all[i].period_end.day() != all[j].period_end.day());
            } else {
                assert(all[j].period_end.day() != all[i].period_end.day());
            }
        }
    }
    order::stable_sort_rises(all, lt);
    assert forall|i: int, j: int| 0 <= i < j < s.len() implies (#[trigger] s[i]).period_end.day()
        < (#[trigger] s[j]).period_end.day() by {
        assert(lt(s[i], s[j]));
    }
}

proof fn nothing_repeats(fin: Financials, i: int)
    requires
        periods_differ(fin),
        0 <= i,
    ensures
        engine::repeat_error(engine::in_order(fin.periods@), i) is None,
    decreases engine::in_order(fin.periods@).len() - i,
{
    let s = engine::in_order(fin.periods@);
    sorted_facts(fin);
    if i < s.len() {
        nothing_repeats(fin, i + 1);
        if engine::id_recurs(s, i) {
            let k = choose|k: int| 0 <= k < i && (#[trigger] s[k]).period_id@ == s[i].period_id@;
            assert(s[k].period_end.day() < s[i].period_end.day());
            assert(s.contains(s[k]) && s.contains(s[i]));
            let a = choose|a: int| 0 <= a < fin.periods.len() && fin.periods@[a] == s[k];
            let b = choose|b: int| 0 <= b < fin.periods.len() && fin.periods@[b] == s[i];
            if a < b {
                assert(fin.periods@[a].period_id@ != fin.periods@[b].period_id@);
            } else {
                assert(fin.periods@[b].period_id@ != fin.periods@[a].period_id@);
            }
        }
        if engine::end_recurs(s, i) {
            let k = choose|k: int|
                0 <= k < i && (#[trigger] s[k]).period_end.day() == s[i].period_end.day();
            assert(s[k].period_end.day() < s[i].period_end.day());
        }
    }
}

proof fn last_facts(s: Seq<PeriodFinancials>, day: int, n: int)
    requires
        0 <= n <= s.len(),
    ensures
        (match engine::last_until(s, day, n) {
            Some(k) => 0 <= k < n && s[k].period_end.day() <= day && forall|j: int|
                k < j < n ==> (#[trigger] s[j]).period_end.day() > day,
            None => forall|j: int| 0 <= j < n ==> (#[trigger] s[j]).period_end.day() > day,
        }),
    decreases n,
{
    if n > 0 {
        last_facts(s, day, n - 1);
    }
}

/// The windows end where the sorted periods end by the day.
proof fn window_places(fin: Financials, w: Seq<int>, current: int, k: int)
    requires
        periods_differ(fin),
        is_window(fin, w),
        engine::last_until(
            engine::in_order(fin.periods@),
            fin.measurement_date.day(),
            fin.periods.len() as int,
        ) == Some(current),
        0 <= k < w.len(),
    ensures
        0 <= current - k,
        current < fin.periods.len(),
        engine::in_order(fin.periods@)[current - k] == fin.periods@[w[k]],
    decreases k,
{
    let s = engine::in_order(fin.periods@);
    let all = fin.periods@;
    let day = fin.measurement_date.day();
    sorted_facts(fin);
    last_facts(s, day, s.len() as int);
    let x = all[w[k]];
    assert(is_past(fin, w[k]));
    assert(all.contains(x));
    assert(s.contains(x));
    let q = choose|q: int| 0 <= q < s.len() && s[q] == x;
    assert(q <= current);
    if k > 0 {
        window_places(fin, w, current, k - 1);
        assert(all[w[k - 1]].period_end.day() > all[w[k]].period_end.day());
        assert(q < current - k + 1) by {
            if q > current - k + 1 {
                assert(s[current - k + 1].period_end.day() < s[q].period_end.day());
            }
        }
    }
    if q < current - k {
        let y = s[current - k];
        assert(s[q].period_end.day() < s[current - k].period_end.day());
        assert(s.contains(y));
        assert(all.contains(y));
        let j = choose|j: int| 0 <= j < all.len() && all[j] == y;
        assert(y.period_end.day() <= day) by {
            if k > 0 {
                assert(s[current - k].period_end.day() < s[current].period_end.day());
            }
        }
        assert(is_past(fin, j));
        if k < w.len() - 1 {
            assert(all[w[k]].period_end.day() > all[w[w.len() - 1]].period_end.day());
        }
        assert(w.contains(j));
        let t = choose|t: int| 0 <= t < w.len() && w[t] == j;
        if t > k {
            assert(all[w[k]].period_end.day() > all[w[t]].period_end.day());
        } else if t < k {
            window_places(fin, w, current, t);
            assert(s[current - t] == s[current - k]);
            assert(s[current - k].period_end.day() < s[current - t].period_end.day());
        }
    }
}

proof fn some_period_is_past(fin: Financials, w: Seq<int>)
    requires
        periods_differ(fin),
        is_window(fin, w),
    ensures
        engine::last_until(
            engine::in_order(fin.periods@),
            fin.measurement_date.day(),
            fin.periods.len() as int,
        ) is Some,
{
    let s = engine::in_order(fin.periods@);
    sorted_facts(fin);
    last_facts(s, fin.measurement_date.day(), s.len() as int);
    assert(is_past(fin, w[0]));
    assert(fin.periods@.contains(fin.periods@[w[0]]));
    assert(s.contains(fin.periods@[w[0]]));
    let q = choose|q: int| 0 <= q < s.len() && s[q] == fin.periods@[w[0]];
    assert(s[q].period_end.day() <= fin.measurement_date.day());
}

proof fn flows_sum(x: Seq<PeriodFinancials>, f: engine::Flow)
    requires
        x.len() == 1 || x.len() == 4,
        engine::flow_sum(x, f, x.len() as int) is Some,
    ensures
        x.len() == 1 ==> engine::flow_sum(x, f, 1)->0 == engine::flow_of(x[0], f),
        x.len() == 4 ==> engine::flow_sum(x, f, 4)->0 == engine::flow_of(x[0], f)
            + engine::flow_of(x[1], f) + engine::flow_of(x[2], f) + engine::flow_of(x[3], f),
{
    reveal_with_fuel(engine::flow_sum, 5);
}

/// The totals of a window: what flows is summed over it, what stands is the
/// balance of its latest quarter.
proof fn totals_are(fin: Financials, w: Seq<int>, current: int, t: Totals)
    requires
        periods_differ(fin),
        is_window(fin, w),
        w.len() == 1 || w.len() == 4,
        engine::last_until(
            engine::in_order(fin.periods@),
            fin.measurement_date.day(),
            fin.periods.len() as int,
        ) == Some(current),
        engine::totals_of(
            engine::in_order(fin.periods@).subrange(current + 1 - w.len(), current + 1),
        ) == Some(t),
    ensures
        t.debt == fin.periods@[w[0]].total_debt_cents.0,
        t.current_assets == fin.periods@[w[0]].current_assets_cents.0,
        t.current_liabilities == fin.periods@[w[0]].current_liabilities_cents.0,
        t.ebitda == sum_over(fin, w, |p: PeriodFinancials| p.ebitda_cents.0 as int),
        t.interest == sum_over(fin, w, |p: PeriodFinancials| p.interest_expense_cents.0 as int),
        t.rent == sum_over(fin, w, |p: PeriodFinancials| p.rent_expense_cents.0 as int),
        t.maturities == sum_over(
            fin,
            w,
            |p: PeriodFinancials| p.current_maturities_cents.0 as int,
        ),
{
    let s = engine::in_order(fin.periods@);
    sorted_facts(fin);
    window_places(fin, w, current, 0);
    window_places(fin, w, current, w.len() - 1);
    let x = s.subrange(current + 1 - w.len(), current + 1);
    if w.len() == 4 {
        window_places(fin, w, current, 1);
        window_places(fin, w, current, 2);
        assert(x[0] == s[current - 3] && x[1] == s[current - 2] && x[2] == s[current - 1] && x[3]
            == s[current]);
    } else {
        assert(x[0] == s[current]);
    }
    flows_sum(x, engine::Flow::Ebitda);
    flows_sum(x, engine::Flow::Interest);
    flows_sum(x, engine::Flow::Rent);
    flows_sum(x, engine::Flow::Maturities);
}

// ---- cures ----

/// Whether a half-open window of days holds a day.
pub open spec fn holds(from: int, to: Option<int>, day: int) -> bool {
    from <= day && (to is Some ==> day < to->0)
}

pub open spec fn end_of(d: Option<crate::date::Date>) -> Option<int> {
    match d {
        Some(d) => Some(d.day()),
        None => None,
    }
}

/// What the cures in force on a day give of an amount.
pub open spec fn cured_by(
    cures: Seq<EquityCure>,
    day: int,
    amount: spec_fn(EquityCure) -> int,
) -> int
    decreases cures.len(),
{
    if cures.len() == 0 {
        0
    } else {
        let c = cures.last();
        cured_by(cures.drop_last(), day, amount) + (if holds(
            c.effective_from.day(),
            end_of(c.effective_to),
            day,
        ) {
            amount(c)
        } else {
            0
        })
    }
}

proof fn cures_sum(t: Totals, cures: Seq<EquityCure>, day: int, n: int)
    requires
        0 <= n <= cures.len(),
        engine::cured(t, cures, day, n) is Some,
    ensures
        ({
            let r = engine::cured(t, cures, day, n)->0;
            &&& r.ebitda == t.ebitda + cured_by(
                cures.take(n),
                day,
                |c: EquityCure| c.add_to_ebitda_cents.0 as int,
            )
            &&& r.debt == t.debt - cured_by(
                cures.take(n),
                day,
                |c: EquityCure| c.reduce_debt_cents.0 as int,
            )
            &&& r.interest == t.interest
            &&& r.rent == t.rent
            &&& r.maturities == t.maturities
            &&& r.current_assets == t.current_assets
            &&& r.current_liabilities == t.current_liabilities
        }),
    decreases n,
{
    if n > 0 {
        cures_sum(t, cures, day, n - 1);
        assert(cures.take(n).drop_last() =~= cures.take(n - 1));
        assert(cures.take(n).last() == cures[n - 1]);
    }
}

// ---- what a covenant adds ----

/// Whether a covenant has a result.
pub open spec fn has_result(e: EvaluationView, id: Seq<char>) -> bool {
    exists|k: int| 0 <= k < e.results.len() && (#[trigger] e.results[k]).covenant_id == id
}

/// Whether a result is the one of a covenant.
pub open spec fn is_result(e: EvaluationView, id: Seq<char>, r: ResultView) -> bool {
    e.results.contains(r) && r.covenant_id == id
}

/// Whether a rule finds a subject with a severity.
pub open spec fn is_found(
    s: Seq<FindingView>,
    subject: Seq<char>,
    rule: Seq<char>,
    severity: Severity,
) -> bool {
    exists|k: int|
        0 <= k < s.len() && (#[trigger] s[k]).subject == subject && s[k].rule_id == rule
            && s[k].severity == severity
}

proof fn covenants_hold(
    config: CovenantConfig,
    s: Seq<PeriodFinancials>,
    current: int,
    day: int,
    n: int,
    k: int,
)
    requires
        0 <= k < n <= config::first_ids(config.covenants@, config.covenants.len() as int).len(),
        engine::covenants_upto(config, s, current, day, n) is Some,
    ensures
        ({
            let ids = config::first_ids(config.covenants@, config.covenants.len() as int);
            let e = engine::covenants_upto(config, s, current, day, n)->0;
            let own = engine::covenant_entry(config, s, current, day, ids[k]);
            &&& own is Some
            &&& laws::is_about(own->0, ids[k])
            &&& forall|r: ResultView| #[trigger]
                is_result(e, ids[k], r) <==> own->0.results.contains(r)
            &&& forall|f: FindingView|
                f.subject == ids[k] ==> (#[trigger] e.findings.contains(f)
                    <==> own->0.findings.contains(f))
        }),
    decreases n,
{
    let rules = config.covenants@;
    let ids = config::first_ids(rules, rules.len() as int);
    let id = ids[k];
    let before = engine::covenants_upto(config, s, current, day, n - 1)->0;
    let last = engine::covenant_entry(config, s, current, day, ids[n - 1])->0;
    let e = engine::covenants_upto(config, s, current, day, n)->0;
    laws::first_ids_hold(rules, rules.len() as int);
    laws::entry_is_about(config, s, current, day, ids[n - 1]);
    assert(e.findings == before.findings + last.findings);
    assert(e.results == before.results + last.results);
    let a = before.findings.len() as int;
    let b = before.results.len() as int;
    if k < n - 1 {
        covenants_hold(config, s, current, day, n - 1, k);
        assert(laws::first_place(rules, ids[k], 0) < laws::first_place(rules, ids[n - 1], 0));
        let own = engine::covenant_entry(config, s, current, day, id)->0;
        assert forall|r: ResultView| #[trigger] is_result(e, id, r) <==> own.results.contains(r) by {
            assert(is_result(before, id, r) <==> own.results.contains(r));
            if is_result(e, id, r) {
                let j = choose|j: int| 0 <= j < e.results.len() && e.results[j] == r;
                if j < b {
                    assert(before.results[j] == r);
                } else {
                    assert(last.results[j - b] == r);
                }
            }
            if is_result(before, id, r) {
                let j = choose|j: int| 0 <= j < before.results.len() && before.results[j] == r;
                assert(e.results[j] == r);
            }
        }
        assert forall|f: FindingView| f.subject == id implies (#[trigger] e.findings.contains(f)
            <==> own.findings.contains(f)) by {
            assert(before.findings.contains(f) <==> own.findings.contains(f));
            if e.findings.contains(f) {
                let j = choose|j: int| 0 <= j < e.findings.len() && e.findings[j] == f;
                if j < a {
                    assert(before.findings[j] == f);
                } else {
                    assert(last.findings[j - a] == f);
                }
            }
            if before.findings.contains(f) {
                let j = choose|j: int| 0 <= j < before.findings.len() && before.findings[j] == f;
                assert(e.findings[j] == f);
            }
        }
    } else {
        nothing_before(config, s, current, day, n - 1, id);
        assert forall|r: ResultView| #[trigger] is_result(e, id, r) <==> last.results.contains(
            r,
        ) by {
            if is_result(e, id, r) {
                let j = choose|j: int| 0 <= j < e.results.len() && e.results[j] == r;
                if j < b {
                    assert(before.results[j].covenant_id != id);
                } else {
                    assert(last.results[j - b] == r);
                }
            }
            if last.results.contains(r) {
                let j = choose|j: int| 0 <= j < last.results.len() && last.results[j] == r;
                assert(e.results[b + j] == r);
            }
        }
        assert forall|f: FindingView| f.subject == id implies (#[trigger] e.findings.contains(f)
            <==> last.findings.contains(f)) by {
            if e.findings.contains(f) {
                let j = choose|j: int| 0 <= j < e.findings.len() && e.findings[j] == f;
                if j < a {
                    assert(before.findings[j].subject != id);
                } else {
                    assert(last.findings[j - a] == f);
                }
            }
            if last.findings.contains(f) {
                let j = choose|j: int| 0 <= j < last.findings.len() && last.findings[j] == f;
                assert(e.findings[a + j] == f);
            }
        }
    }
}

proof fn nothing_before(
    config: CovenantConfig,
    s: Seq<PeriodFinancials>,
    current: int,
    day: int,
    n: int,
    id: Seq<char>,
)
    requires
        0 <= n < config::first_ids(config.covenants@, config.covenants.len() as int).len(),
        config::first_ids(config.covenants@, config.covenants.len() as int)[n] == id
            || (exists|m: int|
            n <= m < config::first_ids(config.covenants@, config.covenants.len() as int).len()
                && #[trigger] config::first_ids(
                config.covenants@,
                config.covenants.len() as int,
            )[m] == id),
        engine::covenants_upto(config, s, current, day, n) is Some,
    ensures
        ({
            let e = engine::covenants_upto(config, s, current, day, n)->0;
            &&& forall|j: int| 0 <= j < e.findings.len() ==> (#[trigger] e.findings[j]).subject != id
            &&& forall|j: int|
                0 <= j < e.results.len() ==> (#[trigger] e.results[j]).covenant_id != id
        }),
    decreases n,
{
    if n > 0 {
        let rules = config.covenants@;
        let ids = config::first_ids(rules, rules.len() as int);
        let m = choose|m: int| n <= m < ids.len() && #[trigger] ids[m] == id;
        assert(ids[m] == id);
        nothing_before(config, s, current, day, n - 1, id);
        laws::first_ids_hold(rules, rules.len() as int);
        laws::entry_is_about(config, s, current, day, ids[n - 1]);
        assert(laws::first_place(rules, ids[n - 1], 0) < laws::first_place(rules, ids[m], 0));
    }
}

/// Whether rule `k` is in force on a day, and no other rule of its covenant
/// is.
pub open spec fn is_in_force_alone(config: CovenantConfig, day: int, k: int) -> bool {
    let s = config.covenants@;
    &&& 0 <= k < s.len()
    &&& holds(s[k].effective_from.day(), end_of(s[k].effective_to), day)
    &&& forall|j: int|
        0 <= j < s.len() && j != k && (#[trigger] s[j]).id@ == s[k].id@ ==> !holds(
            s[j].effective_from.day(),
            end_of(s[j].effective_to),
            day,
        )
}

/// The places of the rules in force are ascending, and all of them.
proof fn versions_hold(s: Seq<CovenantRule>, id: Seq<char>, day: int, n: int)
    requires
        0 <= n <= s.len(),
    ensures
        ({
            let v = config::versions_on(s, id, day, n);
            &&& forall|k: int|
                0 <= k < n && (#[trigger] s[k]).id@ == id && holds(
                    s[k].effective_from.day(),
                    end_of(s[k].effective_to),
                    day,
                ) ==> v.contains(k)
            &&& forall|i: int|
                0 <= i < v.len() ==> 0 <= #[trigger] v[i] < n && s[v[i]].id@ == id && holds(
                    s[v[i]].effective_from.day(),
                    end_of(s[v[i]].effective_to),
                    day,
                )
            &&& forall|i: int, j: int| 0 <= i < j < v.len() ==> #[trigger] v[i] < #[trigger] v[j]
        }),
    decreases n,
{
    if n > 0 {
        versions_hold(s, id, day, n - 1);
        let before = config::versions_on(s, id, day, n - 1);
        let v = config::versions_on(s, id, day, n);
        assert forall|k: int|
            0 <= k < n && (#[trigger] s[k]).id@ == id && holds(
                s[k].effective_from.day(),
                end_of(s[k].effective_to),
                day,
            ) implies v.contains(k) by {
            if k < n - 1 {
                assert(before.contains(k));
                let i = choose|i: int| 0 <= i < before.len() && before[i] == k;
                assert(v[i] == k);
            } else {
                assert(v[v.len() - 1] == k);
            }
        }
    }
}

proof fn alone_is_one(config: CovenantConfig, day: int, k: int)
    requires
        is_in_force_alone(config, day, k),
    ensures
        config::versions_on(
            config.covenants@,
            config.covenants@[k].id@,
            day,
            config.covenants.len() as int,
        ) == seq![k],
{
    let s = config.covenants@;
    let id = s[k].id@;
    let v = config::versions_on(s, id, day, s.len() as int);
    versions_hold(s, id, day, s.len() as int);
    assert(v.contains(k));
    assert forall|i: int| 0 <= i < v.len() implies v[i] == k by {
        assert(s[v[i]].id@ == id);
    }
    if v.len() > 1 {
        assert(v[0] < v[1]);
    }
    assert(v =~= seq![k]);
}

/// The entry of a covenant in an evaluation that tests something.
proof fn entry_found(config: CovenantConfig, fin: Financials, w: Seq<int>, k: int) -> (current: int)
    requires
        periods_differ(fin),
        is_window(fin, w),
        0 <= k < config.covenants.len(),
        engine::evaluation(config, fin) is Some,
    ensures
        engine::last_until(
            engine::in_order(fin.periods@),
            fin.measurement_date.day(),
            fin.periods.len() as int,
        ) == Some(current),
        ({
            let id = config.covenants@[k].id@;
            let e = engine::evaluation(config, fin)->0;
            let own = engine::covenant_entry(
                config,
                engine::in_order(fin.periods@),
                current,
                fin.measurement_date.day(),
                id,
            );
            &&& own is Some
            &&& laws::is_about(own->0, id)
            &&& forall|r: ResultView| #[trigger] is_result(e, id, r) <==> own->0.results.contains(r)
            &&& forall|f: FindingView|
                f.subject == id ==> (#[trigger] e.findings.contains(f)
                    <==> own->0.findings.contains(f))
        }),
{
    let s = engine::in_order(fin.periods@);
    let day = fin.measurement_date.day();
    let rules = config.covenants@;
    let ids = config::first_ids(rules, rules.len() as int);
    sorted_facts(fin);
    nothing_repeats(fin, 0);
    some_period_is_past(fin, w);
    let current = engine::last_until(s, day, s.len() as int)->0;
    laws::first_ids_hold(rules, rules.len() as int);
    assert(ids.contains(rules[k].id@));
    let n = choose|n: int| 0 <= n < ids.len() && ids[n] == rules[k].id@;
    covenants_hold(config, s, current, day, ids.len() as int, n);
    current
}

/// The result of a test against a rule.
pub open spec fn is_measured(
    rule: CovenantRule,
    r: ResultView,
    dividend: int,
    divisor: int,
) -> bool {
    &&& r.ratio is Some
    &&& is_ratio(dividend, divisor, r.ratio->0)
    &&& r.headroom == Some(
        if rule.kind == CovenantKind::MaxLeverage {
            rule.threshold.0 - r.ratio->0
        } else {
            r.ratio->0 - rule.threshold.0
        },
    )
    &&& r.passed <==> (if rule.kind == CovenantKind::MaxLeverage {
        r.ratio->0 <= rule.threshold.0
    } else {
        r.ratio->0 >= rule.threshold.0
    })
}

/// A result without a ratio.
pub open spec fn is_unmeasured(r: ResultView, passed: bool) -> bool {
    r.ratio is None && r.headroom is None && r.passed == passed
}

/// A covenant with one version in force is tested on the latest quarter, or
/// on the latest four, that end by the day of measurement. Leverage is the
/// debt at the end of the window over its earnings; interest coverage its
/// earnings over its interest; the current ratio the assets over the
/// liabilities at its end; and fixed-charge coverage its earnings and rent
/// over its interest, rent, and maturities. The cures in force add to
/// earnings and take from debt. Earnings that are not positive fail every
/// test on them, and a divisor that is not positive passes.
pub proof fn covenants_are_tested_on_their_window(
    config: CovenantConfig,
    fin: Financials,
    w: Seq<int>,
    k: int,
    r: ResultView,
)
    requires
        periods_differ(fin),
        is_window(fin, w),
        is_in_force_alone(config, fin.measurement_date.day(), k),
        w.len() == quarters(config.covenants@[k].basis),
        engine::evaluation(config, fin) is Some,
        is_result(engine::evaluation(config, fin)->0, config.covenants@[k].id@, r),
    ensures
        ({
            let rule = config.covenants@[k];
            let day = fin.measurement_date.day();
            let latest = fin.periods@[w[0]];
            let ebitda = sum_over(fin, w, |p: PeriodFinancials| p.ebitda_cents.0 as int)
                + cured_by(
                config.equity_cures@,
                day,
                |c: EquityCure| c.add_to_ebitda_cents.0 as int,
            );
            let debt = latest.total_debt_cents.0 - cured_by(
                config.equity_cures@,
                day,
                |c: EquityCure| c.reduce_debt_cents.0 as int,
            );
            let interest = sum_over(
                fin,
                w,
                |p: PeriodFinancials| p.interest_expense_cents.0 as int,
            );
            let rent = sum_over(fin, w, |p: PeriodFinancials| p.rent_expense_cents.0 as int);
            let maturities = sum_over(
                fin,
                w,
                |p: PeriodFinancials| p.current_maturities_cents.0 as int,
            );
            &&& r.kind == rule.kind
            &&& r.basis == rule.basis
            &&& r.threshold == rule.threshold.0
            &&& match rule.kind {
                CovenantKind::MaxLeverage => if ebitda <= 0 {
                    is_unmeasured(r, false)
                } else {
                    is_measured(rule, r, debt, ebitda)
                },
                CovenantKind::MinInterestCoverage => if ebitda <= 0 {
                    is_unmeasured(r, false)
                } else if interest <= 0 {
                    is_unmeasured(r, true)
                } else {
                    is_measured(rule, r, ebitda, interest)
                },
                CovenantKind::MinCurrentRatio => if latest.current_liabilities_cents.0 <= 0 {
                    is_unmeasured(r, true)
                } else {
                    is_measured(
                        rule,
                        r,
                        latest.current_assets_cents.0 as int,
                        latest.current_liabilities_cents.0 as int,
                    )
                },
                CovenantKind::MinFixedChargeCoverage => if ebitda <= 0 {
                    is_unmeasured(r, false)
                } else if interest + rent + maturities <= 0 {
                    is_unmeasured(r, true)
                } else {
                    is_measured(rule, r, ebitda + rent, interest + rent + maturities)
                },
            }
        }),
{
    let rule = config.covenants@[k];
    let day = fin.measurement_date.day();
    let s = engine::in_order(fin.periods@);
    let current = entry_found(config, fin, w, k);
    reveal(engine::covenant_entry);
    alone_is_one(config, day, k);
    sorted_facts(fin);
    window_places(fin, w, current, w.len() - 1);
    let n = config.equity_cures.len() as int;
    let raw = engine::totals_of(s.subrange(current + 1 - w.len(), current + 1))->0;
    totals_are(fin, w, current, raw);
    cures_sum(raw, config.equity_cures@, day, n);
    assert(config.equity_cures@.take(n) =~= config.equity_cures@);
    let t = engine::cured(raw, config.equity_cures@, day, n)->0;
    let m = engine::measured(rule.kind, t)->0;
    let own = engine::covenant_entry(config, s, current, day, rule.id@)->0;
    assert(own.results.contains(r));
    assert(own == engine::verdict_of(rule, config, s, current, m)->0);
    assert(own.results.len() == 1 && own.results[0] == r);
    match rule.kind {
        CovenantKind::MaxLeverage => {
            if t.ebitda > 0 {
                ratios_are_cut_at_millionths(t.debt, t.ebitda);
            }
        },
        CovenantKind::MinInterestCoverage => {
            if t.ebitda > 0 && t.interest > 0 {
                ratios_are_cut_at_millionths(t.ebitda, t.interest);
            }
        },
        CovenantKind::MinCurrentRatio => {
            if t.current_liabilities > 0 {
                ratios_are_cut_at_millionths(t.current_assets, t.current_liabilities);
            }
        },
        CovenantKind::MinFixedChargeCoverage => {
            if t.ebitda > 0 && t.interest + t.rent + t.maturities > 0 {
                ratios_are_cut_at_millionths(t.ebitda + t.rent, t.interest + t.rent + t.maturities);
            }
        },
    }
}

/// The debt of earlier quarters does not matter for leverage: two financials
/// that agree in the debt of the latest quarter and in the earnings of the
/// window have the same leverage.
pub proof fn leverage_reads_the_latest_debt(
    config: CovenantConfig,
    a: Financials,
    b: Financials,
    w: Seq<int>,
    k: int,
    r: ResultView,
    q: ResultView,
)
    requires
        periods_differ(a),
        periods_differ(b),
        is_window(a, w),
        is_window(b, w),
        a.measurement_date.day() == b.measurement_date.day(),
        is_in_force_alone(config, a.measurement_date.day(), k),
        config.covenants@[k].kind == CovenantKind::MaxLeverage,
        w.len() == quarters(config.covenants@[k].basis),
        engine::evaluation(config, a) is Some,
        engine::evaluation(config, b) is Some,
        is_result(engine::evaluation(config, a)->0, config.covenants@[k].id@, r),
        is_result(engine::evaluation(config, b)->0, config.covenants@[k].id@, q),
        a.periods@[w[0]].total_debt_cents.0 == b.periods@[w[0]].total_debt_cents.0,
        forall|i: int|
            0 <= i < w.len() ==> a.periods@[#[trigger] w[i]].ebitda_cents.0
                == b.periods@[w[i]].ebitda_cents.0,
    ensures
        r.ratio == q.ratio,
        r.passed == q.passed,
{
    covenants_are_tested_on_their_window(config, a, w, k, r);
    covenants_are_tested_on_their_window(config, b, w, k, q);
    let rule = config.covenants@[k];
    let day = a.measurement_date.day();
    let f = |p: PeriodFinancials| p.ebitda_cents.0 as int;
    let ebitda = sum_over(a, w, f) + cured_by(
        config.equity_cures@,
        day,
        |c: EquityCure| c.add_to_ebitda_cents.0 as int,
    );
    assert(sum_over(a, w, f) == sum_over(b, w, f));
    if ebitda > 0 {
        let debt = a.periods@[w[0]].total_debt_cents.0 - cured_by(
            config.equity_cures@,
            day,
            |c: EquityCure| c.reduce_debt_cents.0 as int,
        );
        ratio_is_one(debt, ebitda, r.ratio->0, q.ratio->0);
    }
}

proof fn ratio_is_one(a: int, b: int, p: int, q: int)
    requires
        b > 0,
        is_ratio(a, b, p),
        is_ratio(a, b, q),
    ensures
        p == q,
{
    if p < q {
        assert((p + 1) * b <= q * b) by (nonlinear_arith)
            requires
                p + 1 <= q,
                b > 0,
        ;
        assert(p * b <= (q - 1) * b) by (nonlinear_arith)
            requires
                p <= q - 1,
                b > 0,
        ;
    } else if q < p {
        assert((q + 1) * b <= p * b) by (nonlinear_arith)
            requires
                q + 1 <= p,
                b > 0,
        ;
        assert(q * b <= (p - 1) * b) by (nonlinear_arith)
            requires
                q <= p - 1,
                b > 0,
        ;
    }
}

proof fn rule_names()
    ensures
        "covenant-test"@.len() == 13,
        "covenant-projection"@.len() == 19,
        "ltm-history-insufficient"@.len() == 24,
        "ambiguous-covenant-versions"@.len() == 27,
{
    reveal_strlit("covenant-test");
    reveal_strlit("covenant-projection");
    reveal_strlit("ltm-history-insufficient");
    reveal_strlit("ambiguous-covenant-versions");
}

proof fn found_in_entry(
    e: EvaluationView,
    own: Seq<FindingView>,
    id: Seq<char>,
    rule: Seq<char>,
    severity: Severity,
)
    requires
        forall|f: FindingView|
            f.subject == id ==> (#[trigger] e.findings.contains(f) <==> own.contains(f)),
    ensures
        is_found(e.findings, id, rule, severity) <==> is_found(own, id, rule, severity),
{
    if is_found(e.findings, id, rule, severity) {
        let k = choose|k: int|
            0 <= k < e.findings.len() && (#[trigger] e.findings[k]).subject == id
                && e.findings[k].rule_id == rule && e.findings[k].severity == severity;
        assert(e.findings.contains(e.findings[k]));
        let j = choose|j: int| 0 <= j < own.len() && own[j] == e.findings[k];
        assert(own[j].subject == id);
    }
    if is_found(own, id, rule, severity) {
        let k = choose|k: int|
            0 <= k < own.len() && (#[trigger] own[k]).subject == id && own[k].rule_id == rule
                && own[k].severity == severity;
        assert(own.contains(own[k]));
        assert(e.findings.contains(own[k]));
        let j = choose|j: int| 0 <= j < e.findings.len() && e.findings[j] == own[k];
        assert(e.findings[j].subject == id);
    }
}

/// A covenant that is tested has a breach exactly where it does not pass, a
/// warning exactly where it passes without a ratio, and an entry for the
/// record exactly where it passes with one. A breach is projected for none
/// but a covenant that passes with a ratio.
pub proof fn results_are_reported(
    config: CovenantConfig,
    fin: Financials,
    w: Seq<int>,
    k: int,
    r: ResultView,
)
    requires
        periods_differ(fin),
        is_window(fin, w),
        is_in_force_alone(config, fin.measurement_date.day(), k),
        w.len() == quarters(config.covenants@[k].basis),
        engine::evaluation(config, fin) is Some,
        is_result(engine::evaluation(config, fin)->0, config.covenants@[k].id@, r),
    ensures
        ({
            let found = engine::evaluation(config, fin)->0.findings;
            let id = config.covenants@[k].id@;
            &&& is_found(found, id, "covenant-test"@, Severity::Breach) <==> !r.passed
            &&& is_found(found, id, "covenant-test"@, Severity::Warn) <==> r.passed && r.ratio
                is None
            &&& is_found(found, id, "covenant-test"@, Severity::Info) <==> r.passed && r.ratio
                is Some
            &&& is_found(found, id, "covenant-projection"@, Severity::Warn) ==> r.passed && r.ratio
                is Some
            &&& !is_found(found, id, "covenant-projection"@, Severity::Breach)
        }),
{
    rule_names();
    let rule = config.covenants@[k];
    let id = rule.id@;
    let day = fin.measurement_date.day();
    let s = engine::in_order(fin.periods@);
    let e = engine::evaluation(config, fin)->0;
    let current = entry_found(config, fin, w, k);
    reveal(engine::covenant_entry);
    alone_is_one(config, day, k);
    sorted_facts(fin);
    window_places(fin, w, current, w.len() - 1);
    let own = engine::covenant_entry(config, s, current, day, id)->0;
    assert(own.results.contains(r));
    assert(own.results[0] == r);
    let f = own.findings;
    found_in_entry(e, f, id, "covenant-test"@, Severity::Breach);
    found_in_entry(e, f, id, "covenant-test"@, Severity::Warn);
    found_in_entry(e, f, id, "covenant-test"@, Severity::Info);
    found_in_entry(e, f, id, "covenant-projection"@, Severity::Warn);
    found_in_entry(e, f, id, "covenant-projection"@, Severity::Breach);
    assert(f[0].subject == id && f[0].rule_id == "covenant-test"@);
    assert forall|j: int| 1 <= j < f.len() implies (#[trigger] f[j]).rule_id
        == "covenant-projection"@ && f[j].severity != Severity::Breach by {}
}

/// A covenant on four quarters with fewer that end by the day of measurement
/// has no result, and a breach says so.
pub proof fn short_histories_are_breaches(
    config: CovenantConfig,
    fin: Financials,
    w: Seq<int>,
    k: int,
)
    requires
        periods_differ(fin),
        is_window(fin, w),
        w.len() < 4,
        forall|i: int| #[trigger] is_past(fin, i) ==> w.contains(i),
        is_in_force_alone(config, fin.measurement_date.day(), k),
        config.covenants@[k].basis == Basis::Ltm,
        engine::evaluation(config, fin) is Some,
    ensures
        !has_result(engine::evaluation(config, fin)->0, config.covenants@[k].id@),
        is_found(
            engine::evaluation(config, fin)->0.findings,
            config.covenants@[k].id@,
            "ltm-history-insufficient"@,
            Severity::Breach,
        ),
{
    let rule = config.covenants@[k];
    let id = rule.id@;
    let day = fin.measurement_date.day();
    let s = engine::in_order(fin.periods@);
    let e = engine::evaluation(config, fin)->0;
    let current = entry_found(config, fin, w, k);
    reveal(engine::covenant_entry);
    alone_is_one(config, day, k);
    sorted_facts(fin);
    last_facts(s, day, s.len() as int);
    window_places(fin, w, current, w.len() - 1);
    if current + 1 > w.len() {
        let y = s[current - w.len()];
        assert(y.period_end.day() < s[current].period_end.day());
        assert(s.contains(y));
        let j = choose|j: int| 0 <= j < fin.periods.len() && fin.periods@[j] == y;
        assert(is_past(fin, j));
        let t = choose|t: int| 0 <= t < w.len() && w[t] == j;
        window_places(fin, w, current, t);
        assert(s[current - w.len()].period_end.day() < s[current - t].period_end.day());
    }
    let own = engine::covenant_entry(config, s, current, day, id)->0;
    found_in_entry(e, own.findings, id, "ltm-history-insufficient"@, Severity::Breach);
    assert(own.findings[0].subject == id);
    if has_result(e, id) {
        let n = choose|n: int|
            0 <= n < e.results.len() && (#[trigger] e.results[n]).covenant_id == id;
        assert(e.results.contains(e.results[n]));
        assert(is_result(e, id, e.results[n]));
    }
}

/// A covenant without a version in force has no result and no breach; one
/// with two versions in force has no result, and a breach says so.
pub proof fn one_version_must_be_in_force(
    config: CovenantConfig,
    fin: Financials,
    w: Seq<int>,
    k: int,
)
    requires
        periods_differ(fin),
        is_window(fin, w),
        0 <= k < config.covenants.len(),
        engine::evaluation(config, fin) is Some,
    ensures
        ({
            let e = engine::evaluation(config, fin)->0;
            let s = config.covenants@;
            let id = s[k].id@;
            let day = fin.measurement_date.day();
            &&& (forall|j: int|
                0 <= j < s.len() && (#[trigger] s[j]).id@ == id ==> !holds(
                    s[j].effective_from.day(),
                    end_of(s[j].effective_to),
                    day,
                )) ==> !has_result(e, id) && is_found(
                e.findings,
                id,
                "covenant-test"@,
                Severity::Info,
            )
            &&& (exists|i: int, j: int|
                0 <= i < j < s.len() && (#[trigger] s[i]).id@ == id && (#[trigger] s[j]).id@ == id
                    && holds(s[i].effective_from.day(), end_of(s[i].effective_to), day) && holds(
                    s[j].effective_from.day(),
                    end_of(s[j].effective_to),
                    day,
                )) ==> !has_result(e, id) && is_found(
                e.findings,
                id,
                "ambiguous-covenant-versions"@,
                Severity::Breach,
            )
        }),
{
    let s = config.covenants@;
    let id = s[k].id@;
    let day = fin.measurement_date.day();
    let e = engine::evaluation(config, fin)->0;
    let current = entry_found(config, fin, w, k);
    reveal(engine::covenant_entry);
    let v = config::versions_on(s, id, day, s.len() as int);
    versions_hold(s, id, day, s.len() as int);
    let own = engine::covenant_entry(config, engine::in_order(fin.periods@), current, day, id)->0;
    found_in_entry(e, own.findings, id, "covenant-test"@, Severity::Info);
    found_in_entry(e, own.findings, id, "ambiguous-covenant-versions"@, Severity::Breach);
    assert(own.findings[0].subject == id);
    if has_result(e, id) {
        let n = choose|n: int|
            0 <= n < e.results.len() && (#[trigger] e.results[n]).covenant_id == id;
        assert(e.results.contains(e.results[n]));
        assert(is_result(e, id, e.results[n]));
        assert(own.results.len() > 0);
        assert(v.len() == 1);
        assert(s[v[0]].id@ == id);
    }
    if exists|i: int, j: int|
        0 <= i < j < s.len() && (#[trigger] s[i]).id@ == id && (#[trigger] s[j]).id@ == id && holds(
            s[i].effective_from.day(),
            end_of(s[i].effective_to),
            day,
        ) && holds(s[j].effective_from.day(), end_of(s[j].effective_to), day) {
        let (i, j) = choose|i: int, j: int|
            0 <= i < j < s.len() && (#[trigger] s[i]).id@ == id && (#[trigger] s[j]).id@ == id
                && holds(s[i].effective_from.day(), end_of(s[i].effective_to), day) && holds(
                s[j].effective_from.day(),
                end_of(s[j].effective_to),
                day,
            );
        assert(v.contains(i) && v.contains(j));
        let a = choose|a: int| 0 <= a < v.len() && v[a] == i;
        let b = choose|b: int| 0 <= b < v.len() && v[b] == j;
        assert(a != b);
    }
    if forall|j: int|
        0 <= j < s.len() && (#[trigger] s[j]).id@ == id ==> !holds(
            s[j].effective_from.day(),
            end_of(s[j].effective_to),
            day,
        ) {
        if v.len() > 0 {
            assert(s[v[0]].id@ == id);
        }
    }
}

// ---- trends ----

/// The differences of a point to the points before it, each weighted with
/// the quarters between them.
pub open spec fn rises_to(y: Seq<int>, m: int, i: int) -> int
    decreases i,
{
    if i <= 0 {
        0
    } else {
        rises_to(y, m, i - 1) + (m - (i - 1)) * (y[m] - y[i - 1])
    }
}

/// The differences between all points, weighted with the quarters between
/// them.
pub open spec fn rises(y: Seq<int>, n: int) -> int
    decreases n,
{
    if n <= 0 {
        0
    } else {
        rises(y, n - 1) + rises_to(y, n - 1, n - 1)
    }
}

/// The squares of the quarters between all of `n` points.
pub open spec fn runs_to(m: int, i: int) -> int
    decreases i,
{
    if i <= 0 {
        0
    } else {
        runs_to(m, i - 1) + (m - (i - 1)) * (m - (i - 1))
    }
}

pub open spec fn runs(n: int) -> int
    decreases n,
{
    if n <= 0 {
        0
    } else {
        runs(n - 1) + runs_to(n - 1, n - 1)
    }
}

proof fn rises_to_sums(y: Seq<int>, m: int, i: int)
    requires
        0 <= i <= m < y.len(),
        engine::sums_of(y, m) is Some,
    ensures
        engine::sums_of(y, i) is Some,
        ({
            let b = engine::sums_of(y, i)->0;
            &&& rises_to(y, m, i) == (m * i - b.x) * y[m] - m * b.y + b.xy
            &&& runs_to(m, i) == m * m * i - 2 * m * b.x + b.xx
        }),
    decreases i,
{
    sums_stop(y, i, m);
    if i > 0 {
        rises_to_sums(y, m, i - 1);
        let b = engine::sums_of(y, i - 1)->0;
        let now = engine::sums_of(y, i)->0;
        let x = i - 1;
        let v = y[x];
        let t = y[m];
        assert((m * x - b.x) * t - m * b.y + b.xy + (m - x) * (t - v) == (m * i - now.x) * t - m
            * now.y + now.xy) by (nonlinear_arith)
            requires
                now.x == b.x + x,
                now.y == b.y + v,
                now.xy == b.xy + x * v,
                i == x + 1,
        ;
        assert(m * m * x - 2 * m * b.x + b.xx + (m - x) * (m - x) == m * m * i - 2 * m * now.x
            + now.xx) by (nonlinear_arith)
            requires
                now.x == b.x + x,
                now.xx == b.xx + x * x,
                i == x + 1,
        ;
    } else {
        assert(m * 0 == 0 && m * m * 0 == 0 && 0 * y[m] == 0 && 2 * m * 0 == 0);
    }
}

proof fn sums_stop(y: Seq<int>, i: int, n: int)
    requires
        0 <= i <= n,
        engine::sums_of(y, n) is Some,
    ensures
        engine::sums_of(y, i) is Some,
    decreases n - i,
{
    if i < n {
        sums_stop(y, i, n - 1);
    }
}

proof fn rises_sum(y: Seq<int>, n: int)
    requires
        0 <= n <= y.len(),
        engine::sums_of(y, n) is Some,
    ensures
        ({
            let b = engine::sums_of(y, n)->0;
            &&& rises(y, n) == n * b.xy - b.x * b.y
            &&& runs(n) == n * b.xx - b.x * b.x
        }),
    decreases n,
{
    if n > 0 {
        let m = n - 1;
        rises_sum(y, m);
        rises_to_sums(y, m, m);
        let b = engine::sums_of(y, m)->0;
        let now = engine::sums_of(y, n)->0;
        let v = y[m];
        let mv = m * v;
        assert(n * now.xy == m * b.xy + m * mv + b.xy + mv) by (nonlinear_arith)
            requires
                now.xy == b.xy + mv,
                n == m + 1,
        ;
        assert(now.x * now.y == b.x * b.y + b.x * v + m * b.y + mv) by (nonlinear_arith)
            requires
                now.x == b.x + m,
                now.y == b.y + v,
                mv == m * v,
        ;
        assert((m * m - b.x) * v == m * mv - b.x * v) by (nonlinear_arith)
            requires
                mv == m * v,
        ;
        assert(m * b.xx - b.x * b.x + (m * m * m - 2 * m * b.x + b.xx) == n * now.xx - now.x
            * now.x) by (nonlinear_arith)
            requires
                now.x == b.x + m,
                now.xx == b.xx + m * m,
                n == m + 1,
        ;
    }
}

/// Whether `q` is `a / b` without its fraction.
pub open spec fn is_whole_part(a: int, b: int, q: int) -> bool {
    if a >= 0 {
        q * b <= a < (q + 1) * b
    } else {
        (q - 1) * b < a <= q * b
    }
}

proof fn quotient_is_whole_part(a: int, b: int)
    requires
        b > 0,
    ensures
        is_whole_part(a, b, num::quotient(a, b)),
{
    let q = num::quotient(a, b);
    if a >= 0 {
        assert(q * b <= a < (q + 1) * b) by (nonlinear_arith)
            requires
                q == a / b,
                b > 0,
        ;
    } else {
        let y = -a;
        let k = y / b;
        assert(k * b <= y < (k + 1) * b) by (nonlinear_arith)
            requires
                k == y / b,
                b > 0,
        ;
        assert((q - 1) * b == -((k + 1) * b)) by (nonlinear_arith)
            requires
                q == -k,
        ;
        assert(q * b == -(k * b)) by (nonlinear_arith)
            requires
                q == -k,
        ;
    }
}

proof fn runs_positive(m: int, i: int)
    requires
        0 <= i <= m,
    ensures
        runs_to(m, i) >= i,
    decreases i,
{
    if i > 0 {
        runs_positive(m, i - 1);
        let d = m - (i - 1);
        assert(d * d >= 1) by (nonlinear_arith)
            requires
                d >= 1,
        ;
    }
}

proof fn all_runs_positive(n: int)
    requires
        n >= 2,
    ensures
        runs(n) > 0,
    decreases n,
{
    runs_positive(n - 1, n - 1);
    if n > 2 {
        all_runs_positive(n - 1);
    } else {
        runs_positive(0, 0);
        assert(runs(1) == runs(0) + runs_to(0, 0));
    }
}

/// The slope of a trend is the average of the slopes between all its points,
/// each weighted with the square of the quarters between them; of fewer than
/// two points there is none.
pub proof fn slopes_average_all_differences(y: Seq<int>)
    requires
        engine::slope_of(y) is Some,
    ensures
        (match engine::slope_of(y)->0 {
            Some(slope) => y.len() >= 2 && runs(y.len() as int) > 0 && is_whole_part(
                rises(y, y.len() as int),
                runs(y.len() as int),
                slope,
            ),
            None => y.len() < 2,
        }),
{
    let n = y.len() as int;
    if n >= 2 {
        rises_sum(y, n);
        all_runs_positive(n);
        quotient_is_whole_part(rises(y, n), runs(n));
    }
}

/// A projection reads the raw history: cures and other covenants do not
/// change it.
pub proof fn projections_ignore_cures(
    rule: CovenantRule,
    a: CovenantConfig,
    b: CovenantConfig,
    s: Seq<PeriodFinancials>,
    current: int,
)
    requires
        a.projection == b.projection,
    ensures
        engine::projected(rule, a, s, current) == engine::projected(rule, b, s, current),
{
}

/// What is measured, without cures, on the `width` periods before place `end`.
pub open spec fn measured_at(
    kind: CovenantKind,
    s: Seq<PeriodFinancials>,
    width: int,
    end: int,
) -> Option<MeasureView> {
    match engine::totals_of(s.subrange(end - width, end)) {
        Some(t) => engine::measured(kind, t),
        None => None,
    }
}

/// A trend has a point for every window of the history, in their order: where
/// every window has a ratio, the point of each is its ratio.
pub proof fn trends_read_every_window(
    kind: CovenantKind,
    s: Seq<PeriodFinancials>,
    width: int,
    n: int,
    ratio: spec_fn(int) -> int,
)
    requires
        0 < width <= n + 1,
        n <= s.len(),
        forall|end: int|
            width <= end <= n ==> #[trigger] measured_at(kind, s, width, end) == Some(
                MeasureView::Ratio(ratio(end)),
            ),
    ensures
        (match engine::series_of(kind, s, width, n) {
            Some(y) => {
                &&& y.len() == n + 1 - width
                &&& forall|i: int| 0 <= i < y.len() ==> #[trigger] y[i] == ratio(i + width)
            },
            None => false,
        }),
    decreases n,
{
    if n >= width && n > 0 {
        assert(measured_at(kind, s, width, n) == Some(MeasureView::Ratio(ratio(n))));
        trends_read_every_window(kind, s, width, n - 1, ratio);
    }
}

/// Whether a ratio of the trend breaks a rule in a quarter to come.
pub open spec fn breaks(rule: CovenantRule, ratio: int) -> bool {
    if rule.kind == CovenantKind::MaxLeverage {
        ratio > rule.threshold.0
    } else {
        ratio < rule.threshold.0
    }
}

proof fn crossings(rule: CovenantRule, last: int, slope: int, k: int, horizon: int)
    requires
        1 <= k,
        engine::crossing(
            last,
            slope,
            rule.kind.caps(),
            rule.threshold.0 as int,
            k,
            horizon,
        ) is Some,
    ensures
        engine::crossing(last, slope, rule.kind.caps(), rule.threshold.0 as int, k, horizon)->0
            is Some <==> exists|j: int| k <= j <= horizon && #[trigger] breaks(
            rule,
            last + slope * j,
        ),
    decreases horizon + 1 - k,
{
    if k <= horizon {
        if breaks(rule, last + slope * k) {
        } else {
            crossings(rule, last, slope, k + 1, horizon);
            if exists|j: int| k <= j <= horizon && #[trigger] breaks(rule, last + slope * j) {
                let j = choose|j: int|
                    k <= j <= horizon && #[trigger] breaks(rule, last + slope * j);
                assert(k + 1 <= j);
            }
        }
    }
}

/// A breach is projected exactly where there are enough points, and the trend
/// from the last of them breaks the rule in some quarter of the horizon.
pub proof fn breaches_are_projected_by_the_trend(
    rule: CovenantRule,
    config: CovenantConfig,
    s: Seq<PeriodFinancials>,
    current: int,
    slope: int,
)
    requires
        engine::projected(rule, config, s, current) is Some,
        engine::series_of(
            rule.kind,
            s,
            quarters(rule.basis) as int,
            current + 1,
        ) is Some,
        ({
            let y = engine::series_of(
                rule.kind,
                s,
                quarters(rule.basis) as int,
                current + 1,
            )->0;
            y.len() >= config.projection.min_history_points && engine::slope_of(y) == Some(
                Some(slope),
            )
        }),
    ensures
        ({
            let y = engine::series_of(
                rule.kind,
                s,
                quarters(rule.basis) as int,
                current + 1,
            )->0;
            is_found(
                engine::projected(rule, config, s, current)->0,
                rule.id@,
                "covenant-projection"@,
                Severity::Warn,
            ) <==> exists|k: int|
                1 <= k <= config.projection.horizon_quarters && #[trigger] breaks(
                    rule,
                    y.last() + slope * k,
                )
        }),
{
    let y = engine::series_of(rule.kind, s, quarters(rule.basis) as int, current + 1)->0;
    assert(engine::width_of(rule.basis) == quarters(rule.basis));
    crossings(rule, y.last(), slope, 1, config.projection.horizon_quarters as int);
    let f = engine::projected(rule, config, s, current)->0;
    if f.len() > 0 {
        assert(f[0].subject == rule.id@);
    }
}

/// Where there are too few points, the projection is skipped, and said to be.
pub proof fn short_trends_are_skipped(
    rule: CovenantRule,
    config: CovenantConfig,
    s: Seq<PeriodFinancials>,
    current: int,
)
    requires
        engine::series_of(
            rule.kind,
            s,
            quarters(rule.basis) as int,
            current + 1,
        ) matches Some(y) && y.len() < config.projection.min_history_points,
    ensures
        engine::projected(rule, config, s, current) matches Some(f) && f.len() == 1 && f[0].rule_id
            == "covenant-projection"@ && f[0].severity == Severity::Info,
{
    assert(engine::width_of(rule.basis) == quarters(rule.basis));
}

// ---- validation ----

/// Whether a rule holds together.
pub open spec fn rule_holds(r: CovenantRule) -> bool {
    &&& !text::is_blank(r.id@)
    &&& r.threshold.0 >= 0
    &&& r.effective_to is Some ==> r.effective_from.day() <= r.effective_to->0.day()
}

/// Whether a cure holds together.
pub open spec fn cure_holds(c: EquityCure) -> bool {
    c.effective_to is Some ==> c.effective_from.day() <= c.effective_to->0.day()
}

proof fn rules_pass(s: Seq<CovenantRule>, from: int)
    requires
        0 <= from <= s.len(),
    ensures
        config::rules_error(s, from) is None <==> forall|i: int|
            from <= i < s.len() ==> rule_holds(#[trigger] s[i]),
    decreases s.len() - from,
{
    if from < s.len() {
        rules_pass(s, from + 1);
    }
}

proof fn cures_pass(s: Seq<EquityCure>, from: int)
    requires
        0 <= from <= s.len(),
    ensures
        config::cures_error(s, from) is None <==> forall|i: int|
            from <= i < s.len() ==> cure_holds(#[trigger] s[i]),
    decreases s.len() - from,
{
    if from < s.len() {
        cures_pass(s, from + 1);
    }
}

/// A configuration validates exactly where every rule is named, asks for no
/// negative threshold, and does not end before it starts, no cure does, and
/// the projection looks ahead on two points or more.
pub proof fn valid_configurations_hold_together(c: CovenantConfig)
    ensures
        config::config_error(c) is None <==> (forall|i: int|
            0 <= i < c.covenants.len() ==> rule_holds(#[trigger] c.covenants@[i])) && (forall|
            i: int,
        |
            0 <= i < c.equity_cures.len() ==> cure_holds(#[trigger] c.equity_cures@[i]))
            && c.projection.horizon_quarters >= 1 && c.projection.min_history_points >= 2,
{
    rules_pass(c.covenants@, 0);
    cures_pass(c.equity_cures@, 0);
}

/// Financials with a period id or an end that occurs twice, or without a
/// period that ends by the day of measurement, are one breach, and nothing is
/// tested.
pub proof fn faulty_financials_are_a_breach(config: CovenantConfig, fin: Financials, i: int, j: int)
    requires
        (0 <= i < j < fin.periods.len() && (fin.periods@[i].period_id@ == fin.periods@[j].period_id@
            || fin.periods@[i].period_end.day() == fin.periods@[j].period_end.day())) || (forall|
            k: int,
        |
            !#[trigger] is_past(fin, k)),
    ensures
        ({
            let r = engine::evaluation(config, fin);
            &&& r is Some
            &&& r->0.results.len() == 0
            &&& r->0.findings.len() == 1
            &&& r->0.findings[0].rule_id == "input-data-error"@
            &&& r->0.findings[0].severity == Severity::Breach
            &&& r->0.findings[0].requires_signoff
        }),
{
    let lt = |a: PeriodFinancials, b: PeriodFinancials| engine::end_lt(a, b);
    let all = fin.periods@;
    let s = engine::in_order(all);
    let day = fin.measurement_date.day();
    order::stable_sort_keeps(all, lt);
    order::stable_sort_elements(all, lt);
    last_facts(s, day, s.len() as int);
    if engine::repeat_error(s, 0) is None {
        if forall|k: int| !#[trigger] is_past(fin, k) {
            if engine::last_until(s, day, s.len() as int) is Some {
                let k = engine::last_until(s, day, s.len() as int)->0;
                assert(s.contains(s[k]));
                let a = choose|a: int| 0 <= a < all.len() && all[a] == s[k];
                assert(is_past(fin, a));
            }
        } else {
            repeats_survive(all, s, i, j);
        }
    }
}

proof fn repeats_survive(
    all: Seq<PeriodFinancials>,
    s: Seq<PeriodFinancials>,
    i: int,
    j: int,
)
    requires
        s.to_multiset() == all.to_multiset(),
        engine::repeat_error(s, 0) is None,
        0 <= i < j < all.len(),
    ensures
        all[i].period_id@ != all[j].period_id@,
        all[i].period_end.day() != all[j].period_end.day(),
{
    assert forall|a: int, b: int| 0 <= a < b < s.len() implies (#[trigger] s[a]).period_id@ != (
    #[trigger] s[b]).period_id@ && s[a].period_end.day() != s[b].period_end.day() by {
        no_repeat(s, 0, a, b);
    }
    assert(s.no_duplicates());
    s.lemma_multiset_has_no_duplicates();
    all.lemma_multiset_has_no_duplicates_conv();
    vstd::seq_lib::to_multiset_contains(all, all[i]);
    vstd::seq_lib::to_multiset_contains(s, all[i]);
    vstd::seq_lib::to_multiset_contains(all, all[j]);
    vstd::seq_lib::to_multiset_contains(s, all[j]);
    assert(all.contains(all[i]) && all.contains(all[j]));
    let a = choose|a: int| 0 <= a < s.len() && s[a] == all[i];
    let b = choose|b: int| 0 <= b < s.len() && s[b] == all[j];
    assert(all[i] != all[j]);
    if a < b {
        assert(s[a].period_id@ != s[b].period_id@);
    } else {
        assert(s[b].period_id@ != s[a].period_id@);
    }
}

proof fn no_repeat(s: Seq<PeriodFinancials>, from: int, a: int, b: int)
    requires
        0 <= from,
        engine::repeat_error(s, from) is None,
        0 <= a < b < s.len(),
        from <= b,
    ensures
        s[a].period_id@ != s[b].period_id@,
        s[a].period_end.day() != s[b].period_end.day(),
    decreases b - from,
{
    if from < b {
        no_repeat(s, from + 1, a, b);
    } else {
        assert(!engine::id_recurs(s, b) && !engine::end_recurs(s, b));
        if s[a].period_id@ == s[b].period_id@ {
            assert(engine::id_recurs(s, b));
        }
        if s[a].period_end.day() == s[b].period_end.day() {
            assert(engine::end_recurs(s, b));
        }
    }
}

// ---- packs ----

/// Whether a receipt approves in a name that is neither blank nor the
/// engine's.
pub open spec fn is_human(x: SignoffView) -> bool {
    &&& x.decision == SignoffDecision::Approve
    &&& !text::all_white(x.actor)
    &&& !text::same_ignoring_case(text::trimmed(x.actor), "covenant-spine"@)
}

/// Whether two people approve.
pub open spec fn two_people(s: Seq<SignoffView>) -> bool {
    exists|i: int, j: int|
        {
            &&& 0 <= i < s.len()
            &&& 0 <= j < s.len()
            &&& is_human(#[trigger] s[i])
            &&& is_human(#[trigger] s[j])
            &&& !text::same_ignoring_case(text::trimmed(s[i].actor), text::trimmed(s[j].actor))
        }
}

proof fn four_eyes_judged(s: Seq<SignoffView>)
    ensures
        spine::four_eyes(pack::human_receipts(s)) <==> two_people(s),
{
    let keep = |x: SignoffView|
        !text::same_ignoring_case(text::trimmed(x.actor), "covenant-spine"@);
    let f = s.filter(keep);
    order::filtered_are_held(s, keep);
    assert(pack::human_receipts(s) == f);
    spine::laws::four_eyes_are_two_people(f);
    if spine::four_eyes(f) {
        let (i, j) = choose|i: int, j: int|
            0 <= i < f.len() && 0 <= j < f.len() && #[trigger] spine::laws::are_two_people(
                f[i],
                f[j],
            );
        assert(f.contains(f[i]) && f.contains(f[j]));
        let a = choose|a: int| 0 <= a < s.len() && s[a] == f[i];
        let b = choose|b: int| 0 <= b < s.len() && s[b] == f[j];
        assert(is_human(s[a]) && is_human(s[b]));
    }
    if two_people(s) {
        let (i, j) = choose|i: int, j: int|
            {
                &&& 0 <= i < s.len()
                &&& 0 <= j < s.len()
                &&& is_human(#[trigger] s[i])
                &&& is_human(#[trigger] s[j])
                &&& !text::same_ignoring_case(text::trimmed(s[i].actor), text::trimmed(s[j].actor))
            };
        assert(s.contains(s[i]) && s.contains(s[j]));
        assert(f.contains(s[i]) && f.contains(s[j]));
        let a = choose|a: int| 0 <= a < f.len() && f[a] == s[i];
        let b = choose|b: int| 0 <= b < f.len() && f[b] == s[j];
        assert(spine::laws::are_two_people(f[a], f[b]));
    }
}

/// An envelope that is not signed yet is signed exactly when every finding is
/// resolved and, where one is a breach, two people approve. Until then it
/// awaits receipts; a signed one stays as it is.
pub proof fn envelopes_are_sealed_by_people(
    before: EnvelopeView,
    after: EnvelopeView,
    r: Result<SealOutcome, SealError>,
)
    requires
        pack::sealing(before, after, r),
    ensures
        before.lock_state == LockState::Signed ==> after == before && r is Err,
        before.lock_state != LockState::Signed ==> {
            let passes = spine::all_resolved(before.pack) && ((exists|k: int|
                0 <= k < before.pack.findings.len() && (
                #[trigger] before.pack.findings[k]).severity == Severity::Breach) ==> two_people(
                before.pack.signoffs,
            ));
            &&& after.lock_state == LockState::Signed <==> passes
            &&& r == Ok::<SealOutcome, SealError>(SealOutcome::Signed) <==> passes
            &&& !passes ==> after.lock_state == LockState::AwaitingSignoff && after.pack
                == before.pack
            &&& passes ==> after.pack == (spine::PackView {
                body_hash: after.pack.body_hash,
                ..before.pack
            }) && spine::seal_intact(after.pack)
        },
{
    four_eyes_judged(before.pack.signoffs);
    if before.lock_state != LockState::Signed && pack::is_sealable(before.pack) {
        assert(spine::body_text(after.pack) == spine::body_text(before.pack));
    }
}

// ---- what can be computed ----

/// A ratio is told exactly where a million times its dividend can be held.
pub proof fn ratios_are_told_where_they_fit(a: int, b: int)
    ensures
        engine::ratio_of(a, b) is Some <==> i128::MIN <= a * 1_000_000 <= i128::MAX,
{
}

proof fn sums_are_held(y: Seq<int>, n: int)
    requires
        0 <= n <= y.len(),
        y.len() <= 10_000,
        forall|i: int|
            0 <= i < y.len() ==> -10_000_000_000_000_000_000_000_000 <= #[trigger] y[i]
                <= 10_000_000_000_000_000_000_000_000,
    ensures
        engine::sums_of(y, n) is Some,
        ({
            let s = engine::sums_of(y, n)->0;
            &&& 0 <= s.x <= n * 10_000
            &&& 0 <= s.xx <= n * 100_000_000
            &&& -(n * 10_000_000_000_000_000_000_000_000) <= s.y <= n
                * 10_000_000_000_000_000_000_000_000
            &&& -(n * 100_000_000_000_000_000_000_000_000_000) <= s.xy <= n
                * 100_000_000_000_000_000_000_000_000_000
        }),
    decreases n,
{
    if n > 0 {
        sums_are_held(y, n - 1);
        let x = n - 1;
        let v = y[n - 1];
        assert(0 <= x * x <= 100_000_000) by (nonlinear_arith)
            requires
                0 <= x <= 10_000,
        ;
        assert(-100_000_000_000_000_000_000_000_000_000 <= x * v
            <= 100_000_000_000_000_000_000_000_000_000) by (nonlinear_arith)
            requires
                0 <= x <= 10_000,
                -10_000_000_000_000_000_000_000_000 <= v <= 10_000_000_000_000_000_000_000_000,
        ;
    }
}

/// A trend of up to ten thousand quarters, with ratios of up to ten to the
/// twenty-fifth millionths, has a slope that can be told.
pub proof fn slopes_are_told(y: Seq<int>)
    requires
        y.len() <= 10_000,
        forall|i: int|
            0 <= i < y.len() ==> -10_000_000_000_000_000_000_000_000 <= #[trigger] y[i]
                <= 10_000_000_000_000_000_000_000_000,
    ensures
        engine::slope_of(y) is Some,
{
    let n = y.len() as int;
    sums_are_held(y, n);
    let s = engine::sums_of(y, n)->0;
    assert(0 <= n * s.xx <= 10_000_000_000_000_000) by (nonlinear_arith)
        requires
            0 <= n <= 10_000,
            0 <= s.xx <= n * 100_000_000,
    ;
    assert(0 <= s.x * s.x <= 10_000_000_000_000_000) by (nonlinear_arith)
        requires
            0 <= s.x <= 100_000_000,
    ;
    assert(-10_000_000_000_000_000_000_000_000_000_000_000_000 <= n * s.xy
        <= 10_000_000_000_000_000_000_000_000_000_000_000_000) by (nonlinear_arith)
        requires
            0 <= n <= 10_000,
            -1_000_000_000_000_000_000_000_000_000_000_000 <= s.xy
                <= 1_000_000_000_000_000_000_000_000_000_000_000,
    ;
    assert(-10_000_000_000_000_000_000_000_000_000_000_000_000 <= s.x * s.y
        <= 10_000_000_000_000_000_000_000_000_000_000_000_000) by (nonlinear_arith)
        requires
            0 <= s.x <= 100_000_000,
            -100_000_000_000_000_000_000_000_000_000 <= s.y <= 100_000_000_000_000_000_000_000_000_000,
    ;
    let den = n * s.xx - s.x * s.x;
    let num = n * s.xy - s.x * s.y;
    if n >= 2 && den != 0 {
        num::quotients_round_toward_zero(num, den);
        let q = num::quotient(num, den);
        assert(-20_000_000_000_000_000_000_000_000_000_000_000_000 <= q
            <= 20_000_000_000_000_000_000_000_000_000_000_000_000) by {
            let rest = num - q * den;
            let most = 20_000_000_000_000_000_000_000_000_000_000_000_000int;
            assert(-most <= num <= most);
            assert(-most <= q <= most) by (nonlinear_arith)
                requires
                    -most <= num <= most,
                    den != 0,
                    num >= 0 ==> 0 <= num - q * den,
                    num <= 0 ==> num - q * den <= 0,
                    den > 0 ==> -den < num - q * den < den,
                    den < 0 ==> den < num - q * den < -den,
            ;
        }
    }
}

/// Whether an amount is at most ten to the twenty-fourth cents, either way.
pub open spec fn is_modest(i: int) -> bool {
    -1_000_000_000_000_000_000_000_000 <= i <= 1_000_000_000_000_000_000_000_000
}

/// Whether all amounts of a period are modest.
pub open spec fn are_modest(p: PeriodFinancials) -> bool {
    &&& is_modest(p.ebitda_cents.0 as int)
    &&& is_modest(p.interest_expense_cents.0 as int)
    &&& is_modest(p.rent_expense_cents.0 as int)
    &&& is_modest(p.current_maturities_cents.0 as int)
    &&& is_modest(p.total_debt_cents.0 as int)
    &&& is_modest(p.current_assets_cents.0 as int)
    &&& is_modest(p.current_liabilities_cents.0 as int)
}

proof fn flows_are_summed(w: Seq<PeriodFinancials>, f: engine::Flow, n: int)
    requires
        0 <= n <= w.len() <= 10_000,
        forall|i: int| 0 <= i < w.len() ==> are_modest(#[trigger] w[i]),
    ensures
        engine::flow_sum(w, f, n) is Some,
        -(n * 1_000_000_000_000_000_000_000_000) <= engine::flow_sum(w, f, n)->0 <= n
            * 1_000_000_000_000_000_000_000_000,
    decreases n,
{
    if n > 0 {
        flows_are_summed(w, f, n - 1);
        assert(are_modest(w[n - 1]));
    }
}

proof fn cures_are_applied(t: Totals, cures: Seq<EquityCure>, day: int, n: int)
    requires
        0 <= n <= cures.len() <= 10_000,
        forall|i: int|
            0 <= i < cures.len() ==> is_modest((#[trigger] cures[i]).add_to_ebitda_cents.0 as int)
                && is_modest(cures[i].reduce_debt_cents.0 as int),
        -10_000_000_000_000_000_000_000_000_000 <= t.ebitda
            <= 10_000_000_000_000_000_000_000_000_000,
        -10_000_000_000_000_000_000_000_000_000 <= t.debt <= 10_000_000_000_000_000_000_000_000_000,
    ensures
        engine::cured(t, cures, day, n) is Some,
        ({
            let c = engine::cured(t, cures, day, n)->0;
            let most = 10_000_000_000_000_000_000_000_000_000 + n
                * 1_000_000_000_000_000_000_000_000;
            &&& -most <= c.ebitda <= most
            &&& -most <= c.debt <= most
            &&& c == Totals { ebitda: c.ebitda, debt: c.debt, ..t }
        }),
    decreases n,
{
    if n > 0 {
        cures_are_applied(t, cures, day, n - 1);
        assert(is_modest(cures[n - 1].add_to_ebitda_cents.0 as int));
    }
}

/// On up to ten thousand quarters and cures with modest amounts, every
/// covenant can be measured.
pub proof fn modest_windows_are_measured(
    kind: CovenantKind,
    w: Seq<PeriodFinancials>,
    cures: Seq<EquityCure>,
    day: int,
)
    requires
        0 < w.len() <= 10_000,
        forall|i: int| 0 <= i < w.len() ==> are_modest(#[trigger] w[i]),
        cures.len() <= 10_000,
        forall|i: int|
            0 <= i < cures.len() ==> is_modest((#[trigger] cures[i]).add_to_ebitda_cents.0 as int)
                && is_modest(cures[i].reduce_debt_cents.0 as int),
    ensures
        engine::totals_of(w) is Some,
        engine::cured(engine::totals_of(w)->0, cures, day, cures.len() as int) is Some,
        engine::measured(
            kind,
            engine::cured(engine::totals_of(w)->0, cures, day, cures.len() as int)->0,
        ) is Some,
{
    let n = w.len() as int;
    flows_are_summed(w, engine::Flow::Ebitda, n);
    flows_are_summed(w, engine::Flow::Interest, n);
    flows_are_summed(w, engine::Flow::Rent, n);
    flows_are_summed(w, engine::Flow::Maturities, n);
    assert(are_modest(w[n - 1]));
    let t = engine::totals_of(w)->0;
    cures_are_applied(t, cures, day, cures.len() as int);
}

} // verus!
