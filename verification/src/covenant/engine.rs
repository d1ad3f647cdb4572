//! Covenant tests at a measurement date.

use vstd::prelude::*;
use vstd::string::StringExecFns;

use crate::covenant::config;
use crate::covenant::config::{
    Basis, CovenantConfig, CovenantKind, CovenantRule, EquityCure, LTM_QUARTERS,
};
use crate::covenant::input::{Financials, PeriodFinancials};
use crate::covenant::units;
use crate::covenant::units::{Ratio, RATIO_SCALE};
use crate::date;
use crate::date::Date;
use crate::num;
use crate::order;
use crate::order::Order;
use crate::spine;
use crate::spine::{Finding, FindingView, Severity};
use crate::text;

verus! {

/// The outcome of one covenant's test.
#[derive(Debug, Clone, PartialEq, Eq)]
pub struct CovenantResult {
    pub covenant_id: String,
    pub kind: CovenantKind,
    pub basis: Basis,
    /// None where no ratio can be computed.
    pub ratio: Option<Ratio>,
    pub threshold: Ratio,
    /// Positive while compliant, zero at the threshold, negative in breach.
    pub headroom: Option<Ratio>,
    pub passed: bool,
}

/// What a [`CovenantResult`] says.
#[verifier::ext_equal]
pub struct ResultView {
    pub covenant_id: Seq<char>,
    pub kind: CovenantKind,
    pub basis: Basis,
    pub ratio: Option<int>,
    pub threshold: int,
    pub headroom: Option<int>,
    pub passed: bool,
}

pub open spec fn scaled_of(r: Option<Ratio>) -> Option<int> {
    match r {
        Some(r) => Some(r.0 as int),
        None => None,
    }
}

impl View for CovenantResult {
    type V = ResultView;

    open spec fn view(&self) -> ResultView {
        ResultView {
            covenant_id: self.covenant_id@,
            kind: self.kind,
            basis: self.basis,
            ratio: scaled_of(self.ratio),
            threshold: self.threshold.0 as int,
            headroom: scaled_of(self.headroom),
            passed: self.passed,
        }
    }
}

pub open spec fn results_view(s: Seq<CovenantResult>) -> Seq<ResultView> {
    s.map_values(|r: CovenantResult| r@)
}

/// The findings of a test run, and the results behind them.
#[derive(Debug, Clone)]
pub struct Evaluation {
    pub findings: Vec<Finding>,
    pub results: Vec<CovenantResult>,
}

/// What an [`Evaluation`] says.
#[verifier::ext_equal]
pub struct EvaluationView {
    pub findings: Seq<FindingView>,
    pub results: Seq<ResultView>,
}

impl View for Evaluation {
    type V = EvaluationView;

    open spec fn view(&self) -> EvaluationView {
        EvaluationView {
            findings: spine::findings_view(self.findings@),
            results: results_view(self.results@),
        }
    }
}

impl Default for Evaluation {
    fn default() -> (r: Self)
        ensures
            r.findings.len() == 0,
            r.results.len() == 0,
    {
        Evaluation { findings: Vec::new(), results: Vec::new() }
    }
}

/// An integer, where it fits in `i128`.
pub open spec fn checked(i: int) -> Option<int> {
    if units::in_i128(i) {
        Some(i)
    } else {
        None
    }
}

// ---- periods ----

pub open spec fn end_lt(a: PeriodFinancials, b: PeriodFinancials) -> bool {
    a.period_end.day() < b.period_end.day()
}

/// The periods in the order of their ends.
pub open spec fn in_order(s: Seq<PeriodFinancials>) -> Seq<PeriodFinancials> {
    order::stable_sort(s, |a: PeriodFinancials, b: PeriodFinancials| end_lt(a, b))
}

pub open spec fn id_recurs(s: Seq<PeriodFinancials>, i: int) -> bool {
    exists|k: int| 0 <= k < i && (#[trigger] s[k]).period_id@ == s[i].period_id@
}

pub open spec fn end_recurs(s: Seq<PeriodFinancials>, i: int) -> bool {
    exists|k: int| 0 <= k < i && (#[trigger] s[k]).period_end.day() == s[i].period_end.day()
}

/// The first period that repeats an id or an end.
pub open spec fn repeat_error(s: Seq<PeriodFinancials>, i: int) -> Option<Seq<char>>
    decreases s.len() - i,
{
    if 0 <= i < s.len() {
        if id_recurs(s, i) {
            Some("duplicate period_id "@ + s[i].period_id@)
        } else if end_recurs(s, i) {
            Some("duplicate period_end "@ + date::date_text(s[i].period_end.day()))
        } else {
            repeat_error(s, i + 1)
        }
    } else {
        None
    }
}

/// The last of the first `n` periods that ends by a day.
pub open spec fn last_until(s: Seq<PeriodFinancials>, day: int, n: int) -> Option<int>
    decreases n,
{
    if n <= 0 {
        None
    } else if s[n - 1].period_end.day() <= day {
        Some(n - 1)
    } else {
        last_until(s, day, n - 1)
    }
}

/// What references refer to.
pub open spec fn held(v: Seq<&PeriodFinancials>) -> Seq<PeriodFinancials> {
    v.map_values(|p: &PeriodFinancials| *p)
}

pub struct EndOrder {}

impl<'a> Order<&'a PeriodFinancials> for EndOrder {
    open spec fn lt(&self, a: &'a PeriodFinancials, b: &'a PeriodFinancials) -> bool {
        end_lt(*a, *b)
    }

    fn before(&self, a: &&'a PeriodFinancials, b: &&'a PeriodFinancials) -> (r: bool) {
        a.period_end.day_number() < b.period_end.day_number()
    }
}

fn prepare_periods(periods: &Vec<PeriodFinancials>) -> (r: Result<Vec<&PeriodFinancials>, String>)
    ensures
        (match r {
            Ok(v) => held(v@) == in_order(periods@) && repeat_error(in_order(periods@), 0) is None,
            Err(e) => repeat_error(in_order(periods@), 0) == Some(e@),
        }),
{
    let mut refs: Vec<&PeriodFinancials> = Vec::new();
    let mut i: usize = 0;
    while i < periods.len()
        invariant
            i <= periods.len(),
            refs.len() == i,
            forall|k: int| 0 <= k < i ==> *(#[trigger] refs@[k]) == periods@[k],
        decreases periods.len() - i,
    {
        refs.push(&periods[i]);
        i = i + 1;
    }
    let ghost given = refs@;
    let rule = EndOrder {  };
    let sorted = order::sort_by(refs, &rule);
    let ghost s = in_order(periods@);
    proof {
        assert(held(given) =~= periods@);
        order::stable_sort_maps(
            given,
            |p: &PeriodFinancials| *p,
            order::order_of(rule),
            |a: PeriodFinancials, b: PeriodFinancials| end_lt(a, b),
        );
        assert(held(sorted@) == s);
    }
    let mut i: usize = 0;
    while i < sorted.len()
        invariant
            i <= sorted.len(),
            held(sorted@) == s,
            s == in_order(periods@),
            repeat_error(s, 0) == repeat_error(s, i as int),
        decreases sorted.len() - i,
    {
        let p = sorted[i];
        assert(s[i as int] == *sorted@[i as int]);
        let mut same_id = false;
        let mut same_end = false;
        let mut k: usize = 0;
        while k < i
            invariant
                k <= i < sorted.len(),
                held(sorted@) == s,
                s[i as int] == *p,
                same_id == (exists|j: int|
                    0 <= j < k && (#[trigger] s[j]).period_id@ == s[i as int].period_id@),
                same_end == (exists|j: int|
                    0 <= j < k && (#[trigger] s[j]).period_end.day()
                        == s[i as int].period_end.day()),
            decreases i - k,
        {
            let q = sorted[k];
            assert(s[k as int] == *sorted@[k as int]);
            if text::same_text(q.period_id.as_str(), p.period_id.as_str()) {
                same_id = true;
            }
            if q.period_end.day_number() == p.period_end.day_number() {
                same_end = true;
            }
            k = k + 1;
        }
        assert(same_id == id_recurs(s, i as int));
        assert(same_end == end_recurs(s, i as int));
        if same_id {
            let mut message = String::from_str("duplicate period_id ");
            message.append(p.period_id.as_str());
            return Err(message);
        }
        if same_end {
            let mut message = String::from_str("duplicate period_end ");
            message.append(p.period_end.text().as_str());
            return Err(message);
        }
        i = i + 1;
    }
    Ok(sorted)
}

// ---- windows ----

/// An amount that a window sums.
#[derive(Clone, Copy)]
pub enum Flow {
    Ebitda,
    Interest,
    Rent,
    Maturities,
}

pub open spec fn flow_of(p: PeriodFinancials, f: Flow) -> int {
    match f {
        Flow::Ebitda => p.ebitda_cents.0 as int,
        Flow::Interest => p.interest_expense_cents.0 as int,
        Flow::Rent => p.rent_expense_cents.0 as int,
        Flow::Maturities => p.current_maturities_cents.0 as int,
    }
}

/// The sum of an amount over the first `n` periods of a window, where every
/// sum on the way fits.
pub open spec fn flow_sum(w: Seq<PeriodFinancials>, f: Flow, n: int) -> Option<int>
    decreases n,
{
    if n <= 0 {
        Some(0)
    } else {
        match flow_sum(w, f, n - 1) {
            Some(before) => checked(before + flow_of(w[n - 1], f)),
            None => None,
        }
    }
}

/// What a window comes to: amounts summed over it, balances at its end.
pub struct Totals {
    pub debt: int,
    pub ebitda: int,
    pub interest: int,
    pub current_assets: int,
    pub current_liabilities: int,
    pub rent: int,
    pub maturities: int,
}

#[derive(Clone, Copy)]
struct WindowTotals {
    debt: i128,
    ebitda: i128,
    interest: i128,
    current_assets: i128,
    current_liabilities: i128,
    rent: i128,
    maturities: i128,
}

impl View for WindowTotals {
    type V = Totals;

    closed spec fn view(&self) -> Totals {
        Totals {
            debt: self.debt as int,
            ebitda: self.ebitda as int,
            interest: self.interest as int,
            current_assets: self.current_assets as int,
            current_liabilities: self.current_liabilities as int,
            rent: self.rent as int,
            maturities: self.maturities as int,
        }
    }
}

pub open spec fn totals_of(w: Seq<PeriodFinancials>) -> Option<Totals> {
    let n = w.len() as int;
    match (
        flow_sum(w, Flow::Ebitda, n),
        flow_sum(w, Flow::Interest, n),
        flow_sum(w, Flow::Rent, n),
        flow_sum(w, Flow::Maturities, n),
    ) {
        (Some(ebitda), Some(interest), Some(rent), Some(maturities)) => Some(
            Totals {
                debt: w.last().total_debt_cents.0 as int,
                ebitda,
                interest,
                current_assets: w.last().current_assets_cents.0 as int,
                current_liabilities: w.last().current_liabilities_cents.0 as int,
                rent,
                maturities,
            },
        ),
        _ => None,
    }
}

fn flow_amount(p: &PeriodFinancials, f: Flow) -> (r: i128)
    ensures
        r == flow_of(*p, f),
{
    match f {
        Flow::Ebitda => p.ebitda_cents.get(),
        Flow::Interest => p.interest_expense_cents.get(),
        Flow::Rent => p.rent_expense_cents.get(),
        Flow::Maturities => p.current_maturities_cents.get(),
    }
}

proof fn flow_sum_stops(w: Seq<PeriodFinancials>, f: Flow, m: int, n: int)
    requires
        0 <= m <= n,
        flow_sum(w, f, m) is None,
    ensures
        flow_sum(w, f, n) is None,
    decreases n - m,
{
    if m < n {
        flow_sum_stops(w, f, m, n - 1);
    }
}

fn sum_field(periods: &Vec<&PeriodFinancials>, from: usize, to: usize, f: Flow) -> (r: Option<i128>)
    requires
        from <= to <= periods.len(),
    ensures
        ({
            let w = held(periods@).subrange(from as int, to as int);
            match r {
                Some(total) => flow_sum(w, f, w.len() as int) == Some(total as int),
                None => flow_sum(w, f, w.len() as int) is None,
            }
        }),
{
    let ghost w = held(periods@).subrange(from as int, to as int);
    let mut total: i128 = 0;
    let mut i: usize = from;
    while i < to
        invariant
            from <= i <= to <= periods.len(),
            w == held(periods@).subrange(from as int, to as int),
            flow_sum(w, f, i - from) == Some(total as int),
        decreases to - i,
    {
        assert(w[i - from] == *periods@[i as int]);
        match total.checked_add(flow_amount(periods[i], f)) {
            Some(sum) => {
                total = sum;
            },
            None => {
                proof {
                    flow_sum_stops(w, f, i - from + 1, w.len() as int);
                }
                return None;
            },
        }
        i = i + 1;
    }
    Some(total)
}

fn totals_for_window(periods: &Vec<&PeriodFinancials>, from: usize, to: usize) -> (r: Option<
    WindowTotals,
>)
    requires
        from < to <= periods.len(),
    ensures
        ({
            let w = held(periods@).subrange(from as int, to as int);
            match r {
                Some(t) => totals_of(w) == Some(t@),
                None => totals_of(w) is None,
            }
        }),
{
    let ebitda = sum_field(periods, from, to, Flow::Ebitda);
    let interest = sum_field(periods, from, to, Flow::Interest);
    let rent = sum_field(periods, from, to, Flow::Rent);
    let maturities = sum_field(periods, from, to, Flow::Maturities);
    let last = periods[to - 1];
    assert(held(periods@).subrange(from as int, to as int).last() == *last);
    match (ebitda, interest, rent, maturities) {
        (Some(ebitda), Some(interest), Some(rent), Some(maturities)) => Some(
            WindowTotals {
                debt: last.total_debt_cents.get(),
                ebitda,
                interest,
                current_assets: last.current_assets_cents.get(),
                current_liabilities: last.current_liabilities_cents.get(),
                rent,
                maturities,
            },
        ),
        _ => None,
    }
}

/// Totals after the first `n` cures, of which those in force apply in order.
pub open spec fn cured(t: Totals, cures: Seq<EquityCure>, day: int, n: int) -> Option<Totals>
    decreases n,
{
    if n <= 0 {
        Some(t)
    } else {
        match cured(t, cures, day, n - 1) {
            None => None,
            Some(before) => if cures[n - 1].holds_on(day) {
                match (
                    checked(before.ebitda + cures[n - 1].add_to_ebitda_cents.0),
                    checked(before.debt - cures[n - 1].reduce_debt_cents.0),
                ) {
                    (Some(ebitda), Some(debt)) => Some(Totals { ebitda, debt, ..before }),
                    _ => None,
                }
            } else {
                Some(before)
            },
        }
    }
}

proof fn cured_stops(t: Totals, cures: Seq<EquityCure>, day: int, m: int, n: int)
    requires
        0 <= m <= n,
        cured(t, cures, day, m) is None,
    ensures
        cured(t, cures, day, n) is None,
    decreases n - m,
{
    if m < n {
        cured_stops(t, cures, day, m, n - 1);
    }
}

fn apply_cures(totals: WindowTotals, cures: &Vec<EquityCure>, date: Date) -> (r: Option<
    WindowTotals,
>)
    ensures
        (match r {
            Some(t) => cured(totals@, cures@, date.day(), cures.len() as int) == Some(t@),
            None => cured(totals@, cures@, date.day(), cures.len() as int) is None,
        }),
{
    let mut now = totals;
    let mut i: usize = 0;
    while i < cures.len()
        invariant
            i <= cures.len(),
            cured(totals@, cures@, date.day(), i as int) == Some(now@),
        decreases cures.len() - i,
    {
        let cure = &cures[i];
        if cure.is_in_force(date) {
            let ebitda = now.ebitda.checked_add(cure.add_to_ebitda_cents.get());
            let debt = now.debt.checked_sub(cure.reduce_debt_cents.get());
            match (ebitda, debt) {
                (Some(ebitda), Some(debt)) => {
                    now = WindowTotals { ebitda, debt, ..now };
                },
                _ => {
                    proof {
                        cured_stops(totals@, cures@, date.day(), i + 1, cures.len() as int);
                    }
                    return None;
                },
            }
        }
        i = i + 1;
    }
    Some(now)
}

// ---- measurement ----

/// The outcome of a measurement.
pub enum MeasureView {
    Ratio(int),
    /// The test makes no sense on earnings that are not positive.
    AutomaticBreach(Seq<char>),
    /// There is nothing to divide by.
    VacuousPass(Seq<char>),
}

enum Measurement {
    Ratio(Ratio),
    AutomaticBreach(String),
    VacuousPass(String),
}

impl View for Measurement {
    type V = MeasureView;

    closed spec fn view(&self) -> MeasureView {
        match self {
            Measurement::Ratio(r) => MeasureView::Ratio(r.0 as int),
            Measurement::AutomaticBreach(reason) => MeasureView::AutomaticBreach(reason@),
            Measurement::VacuousPass(reason) => MeasureView::VacuousPass(reason@),
        }
    }
}

/// A quotient in millionths, where the dividend fits.
pub open spec fn ratio_of(num: int, den: int) -> Option<MeasureView> {
    match checked(num * RATIO_SCALE) {
        Some(scaled) => Some(MeasureView::Ratio(num::quotient(scaled, den))),
        None => None,
    }
}

/// What a covenant measures on the totals of its window. None where an
/// intermediate result does not fit.
pub open spec fn measured(kind: CovenantKind, t: Totals) -> Option<MeasureView> {
    match kind {
        CovenantKind::MaxLeverage => if t.ebitda <= 0 {
            Some(MeasureView::AutomaticBreach("non-positive EBITDA under leverage covenant"@))
        } else {
            ratio_of(t.debt, t.ebitda)
        },
        CovenantKind::MinInterestCoverage => if t.ebitda <= 0 {
            Some(MeasureView::AutomaticBreach("non-positive EBITDA under coverage covenant"@))
        } else if t.interest <= 0 {
            Some(
                MeasureView::VacuousPass(
                    "non-positive interest expense; no coverage test is computable"@,
                ),
            )
        } else {
            ratio_of(t.ebitda, t.interest)
        },
        CovenantKind::MinCurrentRatio => if t.current_liabilities <= 0 {
            Some(
                MeasureView::VacuousPass(
                    "non-positive current liabilities; no ratio test is computable"@,
                ),
            )
        } else {
            ratio_of(t.current_assets, t.current_liabilities)
        },
        CovenantKind::MinFixedChargeCoverage => if t.ebitda <= 0 {
            Some(MeasureView::AutomaticBreach("non-positive EBITDA under coverage covenant"@))
        } else {
            match checked(t.interest + t.rent) {
                None => None,
                Some(partial) => match checked(partial + t.maturities) {
                    None => None,
                    Some(charges) => if charges <= 0 {
                        Some(
                            MeasureView::VacuousPass(
                                "non-positive fixed charges; no coverage test is computable"@,
                            ),
                        )
                    } else {
                        match checked(t.ebitda + t.rent) {
                            None => None,
                            Some(cover) => ratio_of(cover, charges),
                        }
                    },
                },
            }
        },
    }
}

fn scaled_ratio(num: i128, den: i128) -> (r: Option<Measurement>)
    requires
        den > 0,
    ensures
        (match r {
            Some(m) => ratio_of(num as int, den as int) == Some(m@),
            None => ratio_of(num as int, den as int) is None,
        }),
{
    match num.checked_mul(RATIO_SCALE) {
        None => None,
        Some(_) => {
            match Ratio::scaled_div(num, den) {
                Some(ratio) => Some(Measurement::Ratio(ratio)),
                None => None,
            }
        },
    }
}

fn measure(kind: CovenantKind, t: &WindowTotals) -> (r: Option<Measurement>)
    ensures
        (match r {
            Some(m) => measured(kind, t@) == Some(m@),
            None => measured(kind, t@) is None,
        }),
{
    match kind {
        CovenantKind::MaxLeverage => {
            if t.ebitda <= 0 {
                return Some(
                    Measurement::AutomaticBreach(
                        String::from_str("non-positive EBITDA under leverage covenant"),
                    ),
                );
            }
            scaled_ratio(t.debt, t.ebitda)
        },
        CovenantKind::MinInterestCoverage => {
            if t.ebitda <= 0 {
                return Some(
                    Measurement::AutomaticBreach(
                        String::from_str("non-positive EBITDA under coverage covenant"),
                    ),
                );
            }
            if t.interest <= 0 {
                return Some(
                    Measurement::VacuousPass(
                        String::from_str(
                            "non-positive interest expense; no coverage test is computable",
                        ),
                    ),
                );
            }
            scaled_ratio(t.ebitda, t.interest)
        },
        CovenantKind::MinCurrentRatio => {
            if t.current_liabilities <= 0 {
                return Some(
                    Measurement::VacuousPass(
                        String::from_str(
                            "non-positive current liabilities; no ratio test is computable",
                        ),
                    ),
                );
            }
            scaled_ratio(t.current_assets, t.current_liabilities)
        },
        CovenantKind::MinFixedChargeCoverage => {
            if t.ebitda <= 0 {
                return Some(
                    Measurement::AutomaticBreach(
                        String::from_str("non-positive EBITDA under coverage covenant"),
                    ),
                );
            }
            let partial: i128 = match t.interest.checked_add(t.rent) {
                Some(partial) => partial,
                None => return None,
            };
            let charges: i128 = match partial.checked_add(t.maturities) {
                Some(charges) => charges,
                None => return None,
            };
            if charges <= 0 {
                return Some(
                    Measurement::VacuousPass(
                        String::from_str(
                            "non-positive fixed charges; no coverage test is computable",
                        ),
                    ),
                );
            }
            match t.ebitda.checked_add(t.rent) {
                Some(cover) => scaled_ratio(cover, charges),
                None => None,
            }
        },
    }
}

// ---- projection ----

/// How many quarters a basis spans.
pub open spec fn width_of(b: Basis) -> int {
    match b {
        Basis::Quarterly => 1,
        Basis::Ltm => LTM_QUARTERS as int,
    }
}

/// The ratios of the windows of `width` quarters that end among the first
/// `n` periods. Windows without a ratio are left out.
pub open spec fn series_of(kind: CovenantKind, s: Seq<PeriodFinancials>, width: int, n: int) -> Option<
    Seq<int>,
>
    decreases n,
{
    if n < width || n <= 0 {
        Some(Seq::empty())
    } else {
        match (series_of(kind, s, width, n - 1), totals_of(s.subrange(n - width, n))) {
            (Some(before), Some(t)) => match measured(kind, t) {
                Some(MeasureView::Ratio(r)) => Some(before.push(r)),
                Some(_) => Some(before),
                None => None,
            },
            _ => None,
        }
    }
}

proof fn series_stops(kind: CovenantKind, s: Seq<PeriodFinancials>, width: int, m: int, n: int)
    requires
        m <= n,
        series_of(kind, s, width, m) is None,
    ensures
        series_of(kind, s, width, n) is None,
    decreases n - m,
{
    if m < n {
        series_stops(kind, s, width, m, n - 1);
    }
}

pub open spec fn ratios(s: Seq<Ratio>) -> Seq<int> {
    s.map_values(|r: Ratio| r.0 as int)
}

fn trend_series(
    kind: CovenantKind,
    periods: &Vec<&PeriodFinancials>,
    width: usize,
    count: usize,
) -> (r: Option<Vec<Ratio>>)
    requires
        0 < width,
        count <= periods.len(),
    ensures
        (match r {
            Some(v) => series_of(kind, held(periods@), width as int, count as int) == Some(
                ratios(v@),
            ),
            None => series_of(kind, held(periods@), width as int, count as int) is None,
        }),
{
    let ghost s = held(periods@);
    let mut series: Vec<Ratio> = Vec::new();
    let mut n: usize = 0;
    assert(ratios(series@) =~= Seq::<int>::empty());
    while n < count
        invariant
            n <= count <= periods.len(),
            0 < width,
            s == held(periods@),
            series_of(kind, s, width as int, n as int) == Some(ratios(series@)),
        decreases count - n,
    {
        n = n + 1;
        if n >= width {
            match totals_for_window(periods, n - width, n) {
                None => {
                    proof {
                        series_stops(kind, s, width as int, n as int, count as int);
                    }
                    return None;
                },
                Some(t) => {
                    match measure(kind, &t) {
                        None => {
                            proof {
                                series_stops(kind, s, width as int, n as int, count as int);
                            }
                            return None;
                        },
                        Some(Measurement::Ratio(ratio)) => {
                            let ghost was = series@;
                            series.push(ratio);
                            assert(ratios(series@) =~= ratios(was).push(ratio.0 as int));
                        },
                        Some(_) => {},
                    }
                },
            }
        }
    }
    Some(series)
}

/// The sums of a least-squares fit.
pub struct Sums {
    pub x: int,
    pub xx: int,
    pub xy: int,
    pub y: int,
}

/// The sums over the first `n` points, where all of them fit.
pub open spec fn sums_of(series: Seq<int>, n: int) -> Option<Sums>
    decreases n,
{
    if n <= 0 {
        Some(Sums { x: 0, xx: 0, xy: 0, y: 0 })
    } else {
        match sums_of(series, n - 1) {
            None => None,
            Some(b) => {
                let x = n - 1;
                let y = series[n - 1];
                let now = Sums { x: b.x + x, xx: b.xx + x * x, xy: b.xy + x * y, y: b.y + y };
                if units::in_i128(now.x) && units::in_i128(x * x) && units::in_i128(now.xx)
                    && units::in_i128(x * y) && units::in_i128(now.xy) && units::in_i128(now.y) {
                    Some(now)
                } else {
                    None
                }
            },
        }
    }
}

proof fn sums_stop(series: Seq<int>, m: int, n: int)
    requires
        0 <= m <= n,
        sums_of(series, m) is None,
    ensures
        sums_of(series, n) is None,
    decreases n - m,
{
    if m < n {
        sums_stop(series, m, n - 1);
    }
}

/// The slope of the least-squares line through the points, in millionths
/// per quarter, rounded toward zero. The outer option is empty where an
/// intermediate result does not fit; the inner one where fewer than two
/// points leave the slope open.
pub open spec fn slope_of(series: Seq<int>) -> Option<Option<int>> {
    let n = series.len() as int;
    if n < 2 {
        Some(None)
    } else {
        match sums_of(series, n) {
            None => None,
            Some(s) => {
                let den = n * s.xx - s.x * s.x;
                let num = n * s.xy - s.x * s.y;
                if !(units::in_i128(n * s.xx) && units::in_i128(s.x * s.x) && units::in_i128(den)) {
                    None
                } else if den == 0 {
                    Some(None)
                } else if !(units::in_i128(n * s.xy) && units::in_i128(s.x * s.y) && units::in_i128(
                    num,
                ) && units::in_i128(num::quotient(num, den))) {
                    None
                } else {
                    Some(Some(num::quotient(num, den)))
                }
            },
        }
    }
}

fn sums_for(series: &[Ratio]) -> (r: Option<(i128, i128, i128, i128)>)
    ensures
        (match r {
            Some((x, xx, xy, y)) => sums_of(ratios(series@), series.len() as int) == Some(
                Sums { x: x as int, xx: xx as int, xy: xy as int, y: y as int },
            ),
            None => sums_of(ratios(series@), series.len() as int) is None,
        }),
{
    let ghost points = ratios(series@);
    let ghost n = series.len() as int;
    let mut sx: i128 = 0;
    let mut sxx: i128 = 0;
    let mut sxy: i128 = 0;
    let mut sy: i128 = 0;
    let mut i: usize = 0;
    while i < series.len()
        invariant
            i <= series.len(),
            n == series.len(),
            points == ratios(series@),
            sums_of(points, i as int) == Some(
                Sums { x: sx as int, xx: sxx as int, xy: sxy as int, y: sy as int },
            ),
        decreases series.len() - i,
    {
        let x: i128 = i as i128;
        let y: i128 = series[i].scaled();
        assert(points[i as int] == y);
        let square = x.checked_mul(x);
        let product = x.checked_mul(y);
        let (square, product) = match (square, product) {
            (Some(square), Some(product)) => (square, product),
            _ => {
                proof {
                    sums_stop(points, i + 1, n);
                }
                return None;
            },
        };
        match (
            sx.checked_add(x),
            sxx.checked_add(square),
            sxy.checked_add(product),
            sy.checked_add(y),
        ) {
            (Some(a), Some(b), Some(c), Some(d)) => {
                sx = a;
                sxx = b;
                sxy = c;
                sy = d;
            },
            _ => {
                proof {
                    sums_stop(points, i + 1, n);
                }
                return None;
            },
        }
        i = i + 1;
    }
    Some((sx, sxx, sxy, sy))
}

/// The least-squares slope of a series. None where an intermediate result
/// does not fit.
pub fn try_ols_slope(series: &[Ratio]) -> (r: Option<Option<Ratio>>)
    ensures
        (match r {
            Some(slope) => slope_of(ratios(series@)) == Some(scaled_of(slope)),
            None => slope_of(ratios(series@)) is None,
        }),
{
    assert(ratios(series@).len() == series.len());
    if series.len() < 2 {
        return Some(None);
    }
    let n: i128 = series.len() as i128;
    let (sx, sxx, sxy, sy) = match sums_for(series) {
        Some(sums) => sums,
        None => return None,
    };
    let den: i128 = match (n.checked_mul(sxx), sx.checked_mul(sx)) {
        (Some(a), Some(b)) => match a.checked_sub(b) {
            Some(den) => den,
            None => return None,
        },
        _ => return None,
    };
    if den == 0 {
        return Some(None);
    }
    let num: i128 = match (n.checked_mul(sxy), sx.checked_mul(sy)) {
        (Some(a), Some(b)) => match a.checked_sub(b) {
            Some(num) => num,
            None => return None,
        },
        _ => return None,
    };
    if num == i128::MIN && den == -1 {
        return None;
    }
    Some(Some(Ratio(num::divide(num, den))))
}

/// The least-squares slope of a series, in millionths per quarter; none for
/// fewer than two points.
pub fn ols_slope(series: &[Ratio]) -> (r: Option<Ratio>)
    requires
        slope_of(ratios(series@)) is Some,
    ensures
        slope_of(ratios(series@)) == Some(scaled_of(r)),
{
    match try_ols_slope(series) {
        Some(slope) => slope,
        None => None,
    }
}

/// Whether a ratio lies strictly beyond the threshold.
pub open spec fn is_beyond(caps: bool, ratio: int, threshold: int) -> bool {
    if caps {
        ratio > threshold
    } else {
        ratio < threshold
    }
}

/// The first quarter, from `k` on and within the horizon, in which the trend
/// lies beyond the threshold, with the ratio projected there.
pub open spec fn crossing(
    last: int,
    slope: int,
    caps: bool,
    threshold: int,
    k: int,
    horizon: int,
) -> Option<Option<(int, int)>>
    decreases horizon + 1 - k,
{
    if k > horizon {
        Some(None)
    } else if !units::in_i128(slope * k) || !units::in_i128(last + slope * k) {
        None
    } else if is_beyond(caps, last + slope * k, threshold) {
        Some(Some((k, last + slope * k)))
    } else {
        crossing(last, slope, caps, threshold, k + 1, horizon)
    }
}

pub open spec fn bound_name(caps: bool) -> Seq<char> {
    if caps {
        "max"@
    } else {
        "min"@
    }
}

/// What the projection of a covenant says.
pub open spec fn projected(
    rule: CovenantRule,
    config: CovenantConfig,
    s: Seq<PeriodFinancials>,
    current: int,
) -> Option<Seq<FindingView>> {
    let horizon = config.projection.horizon_quarters;
    match series_of(rule.kind, s, width_of(rule.basis), current + 1) {
        None => None,
        Some(series) => if series.len() < config.projection.min_history_points {
            Some(
                seq![
                    spine::note_of(
                        "covenant-projection"@,
                        Severity::Info,
                        rule.id@,
                        "projection skipped: "@ + text::decimal(series.len())
                            + " computable ratio points, "@ + text::decimal(
                            config.projection.min_history_points as nat,
                        ) + " required"@,
                    ),
                ],
            )
        } else {
            match slope_of(series) {
                None => None,
                Some(None) => Some(Seq::empty()),
                Some(Some(slope)) => match crossing(
                    series.last(),
                    slope,
                    rule.kind.caps(),
                    rule.threshold.0 as int,
                    1,
                    horizon as int,
                ) {
                    None => None,
                    Some(None) => Some(Seq::empty()),
                    Some(Some((k, ratio))) => Some(
                        seq![
                            spine::note_of(
                                "covenant-projection"@,
                                Severity::Warn,
                                rule.id@,
                                "projected breach in quarter +"@ + text::decimal(k as nat)
                                    + " of horizon "@ + text::decimal(horizon as nat)
                                    + ": projected ratio "@ + units::ratio_text(ratio)
                                    + "x against "@ + bound_name(rule.kind.caps()) + " "@
                                    + units::ratio_text(rule.threshold.0 as int) + "x"@,
                            ),
                        ],
                    ),
                },
            }
        },
    }
}

fn project(
    rule: &CovenantRule,
    config: &CovenantConfig,
    periods: &Vec<&PeriodFinancials>,
    current: usize,
) -> (r: Option<Vec<Finding>>)
    requires
        current < periods.len(),
    ensures
        (match r {
            Some(v) => projected(*rule, *config, held(periods@), current as int) == Some(
                spine::findings_view(v@),
            ),
            None => projected(*rule, *config, held(periods@), current as int) is None,
        }),
{
    let horizon: u32 = config.projection.horizon_quarters;
    let width: usize = match rule.basis {
        Basis::Quarterly => 1,
        Basis::Ltm => LTM_QUARTERS,
    };
    let series = match trend_series(rule.kind, periods, width, current + 1) {
        Some(series) => series,
        None => return None,
    };
    let ghost points = ratios(series@);
    let mut findings: Vec<Finding> = Vec::new();
    assert(points.len() == series.len());
    if (series.len() as u64) < config.projection.min_history_points as u64 {
        let mut message = String::from_str("projection skipped: ");
        message.append(text::count_text(series.len()).as_str());
        message.append(" computable ratio points, ");
        message.append(
            text::unsigned_text(config.projection.min_history_points as u128).as_str(),
        );
        message.append(" required");
        findings.push(
            Finding::note("covenant-projection", Severity::Info, rule.id.as_str(), message),
        );
        assert(spine::findings_view(findings@) =~= projected(
            *rule,
            *config,
            held(periods@),
            current as int,
        )->0);
        return Some(findings);
    }
    assert(spine::findings_view(findings@) =~= Seq::<FindingView>::empty());
    let slope: i128 = match try_ols_slope(series.as_slice()) {
        None => return None,
        Some(None) => return Some(findings),
        Some(Some(slope)) => slope.scaled(),
    };
    let last: i128 = series[series.len() - 1].scaled();
    let caps = rule.kind.is_maximum();
    let threshold: i128 = rule.threshold.scaled();
    assert(points.last() == last);
    let mut k: u64 = 1;
    while k <= horizon as u64
        invariant
            1 <= k <= horizon + 1,
            horizon == config.projection.horizon_quarters,
            caps == rule.kind.caps(),
            threshold == rule.threshold.0,
            points == ratios(series@),
            points.len() >= config.projection.min_history_points,
            series_of(rule.kind, held(periods@), width_of(rule.basis), current + 1) == Some(points),
            slope_of(points) == Some(Some(slope as int)),
            points.last() == last,
            spine::findings_view(findings@) == Seq::<FindingView>::empty(),
            crossing(last as int, slope as int, caps, threshold as int, 1, horizon as int)
                == crossing(
                last as int,
                slope as int,
                caps,
                threshold as int,
                k as int,
                horizon as int,
            ),
        decreases horizon + 1 - k,
    {
        let step: i128 = match slope.checked_mul(k as i128) {
            Some(step) => step,
            None => return None,
        };
        let ratio: i128 = match last.checked_add(step) {
            Some(ratio) => ratio,
            None => return None,
        };
        let beyond = if caps {
            ratio > threshold
        } else {
            ratio < threshold
        };
        if beyond {
            let mut message = String::from_str("projected breach in quarter +");
            message.append(text::unsigned_text(k as u128).as_str());
            message.append(" of horizon ");
            message.append(text::unsigned_text(horizon as u128).as_str());
            message.append(": projected ratio ");
            message.append(Ratio(ratio).to_decimal_string().as_str());
            message.append("x against ");
            message.append(if caps { "max" } else { "min" });
            message.append(" ");
            message.append(rule.threshold.to_decimal_string().as_str());
            message.append("x");
            findings.push(
                Finding::note("covenant-projection", Severity::Warn, rule.id.as_str(), message),
            );
            assert(spine::findings_view(findings@) =~= projected(
                *rule,
                *config,
                held(periods@),
                current as int,
            )->0);
            return Some(findings);
        }
        k = k + 1;
    }
    Some(findings)
}

// ---- covenants ----

/// Where a test stands: its basis and its period.
pub open spec fn basis_note(rule: CovenantRule, p: PeriodFinancials) -> Seq<char> {
    "basis "@ + rule.basis.name() + ", period "@ + p.period_id@
}

/// A ratio with an explicit sign when positive.
pub open spec fn headroom_text(value: int) -> Seq<char> {
    if value > 0 {
        "+"@ + units::ratio_text(value)
    } else {
        units::ratio_text(value)
    }
}

fn signed(r: Ratio) -> (s: String)
    ensures
        s@ == headroom_text(r.0 as int),
{
    if r.scaled() > 0 {
        let mut out = String::from_str("+");
        out.append(r.to_decimal_string().as_str());
        out
    } else {
        r.to_decimal_string()
    }
}

pub open spec fn result_of(
    rule: CovenantRule,
    ratio: Option<int>,
    headroom: Option<int>,
    passed: bool,
) -> ResultView {
    ResultView {
        covenant_id: rule.id@,
        kind: rule.kind,
        basis: rule.basis,
        ratio,
        threshold: rule.threshold.0 as int,
        headroom,
        passed,
    }
}

fn make_result(rule: &CovenantRule, ratio: Option<Ratio>, headroom: Option<Ratio>, passed: bool)
    -> (r: CovenantResult)
    ensures
        r@ == result_of(*rule, scaled_of(ratio), scaled_of(headroom), passed),
{
    CovenantResult {
        covenant_id: rule.id.clone(),
        kind: rule.kind,
        basis: rule.basis,
        ratio,
        threshold: rule.threshold,
        headroom,
        passed,
    }
}

/// How far a ratio is on the compliant side of the threshold.
pub open spec fn headroom_of(rule: CovenantRule, ratio: int) -> int {
    if rule.kind.caps() {
        rule.threshold.0 - ratio
    } else {
        ratio - rule.threshold.0
    }
}

/// The line on a measured ratio.
pub open spec fn ratio_line(rule: CovenantRule, ratio: int, note: Seq<char>) -> Seq<char> {
    rule.kind.name() + " ratio "@ + units::ratio_text(ratio) + "x "@ + (if headroom_of(rule, ratio)
        >= 0 {
        "within"@
    } else {
        "exceeds"@
    }) + " "@ + bound_name(rule.kind.caps()) + " "@ + units::ratio_text(rule.threshold.0 as int)
        + "x; headroom "@ + headroom_text(headroom_of(rule, ratio)) + "x ("@ + note + ")"@
}

/// What a test on totals adds to an evaluation.
pub open spec fn verdict_of(
    rule: CovenantRule,
    config: CovenantConfig,
    s: Seq<PeriodFinancials>,
    current: int,
    m: MeasureView,
) -> Option<EvaluationView> {
    let note = basis_note(rule, s[current]);
    match m {
        MeasureView::AutomaticBreach(reason) => Some(
            EvaluationView {
                findings: seq![
                    spine::breach_of(
                        "covenant-test"@,
                        rule.id@,
                        "automatic breach: "@ + reason + " ("@ + note + ")"@,
                    ),
                ],
                results: seq![result_of(rule, None, None, false)],
            },
        ),
        MeasureView::VacuousPass(reason) => Some(
            EvaluationView {
                findings: seq![
                    spine::note_of(
                        "covenant-test"@,
                        Severity::Warn,
                        rule.id@,
                        "vacuous pass: "@ + reason + " ("@ + note + ")"@,
                    ),
                ],
                results: seq![result_of(rule, None, None, true)],
            },
        ),
        MeasureView::Ratio(ratio) => {
            let headroom = headroom_of(rule, ratio);
            let line = ratio_line(rule, ratio, note);
            if !units::in_i128(headroom) {
                None
            } else if headroom < 0 {
                Some(
                    EvaluationView {
                        findings: seq![spine::breach_of("covenant-test"@, rule.id@, line)],
                        results: seq![result_of(rule, Some(ratio), Some(headroom), false)],
                    },
                )
            } else {
                match projected(rule, config, s, current) {
                    None => None,
                    Some(more) => Some(
                        EvaluationView {
                            findings: seq![
                                spine::note_of("covenant-test"@, Severity::Info, rule.id@, line),
                            ] + more,
                            results: seq![result_of(rule, Some(ratio), Some(headroom), true)],
                        },
                    ),
                }
            }
        },
    }
}

/// What the test of a covenant version adds to an evaluation. None where an
/// intermediate result does not fit.
pub open spec fn tested(
    rule: CovenantRule,
    config: CovenantConfig,
    s: Seq<PeriodFinancials>,
    current: int,
    day: int,
) -> Option<EvaluationView> {
    let width = width_of(rule.basis);
    if current + 1 < width {
        Some(
            EvaluationView {
                findings: seq![
                    spine::breach_of(
                        "ltm-history-insufficient"@,
                        rule.id@,
                        "LTM basis needs "@ + text::decimal(LTM_QUARTERS as nat)
                            + " quarterly periods; only "@ + text::decimal((current + 1) as nat)
                            + " end on or before the measurement date"@,
                    ),
                ],
                results: Seq::empty(),
            },
        )
    } else {
        match totals_of(s.subrange(current + 1 - width, current + 1)) {
            None => None,
            Some(raw) => match cured(
                raw,
                config.equity_cures@,
                day,
                config.equity_cures.len() as int,
            ) {
                None => None,
                Some(t) => match measured(rule.kind, t) {
                    None => None,
                    Some(m) => verdict_of(rule, config, s, current, m),
                },
            },
        }
    }
}

fn note_text(rule: &CovenantRule, p: &PeriodFinancials) -> (r: String)
    ensures
        r@ == basis_note(*rule, *p),
{
    let mut out = String::from_str("basis ");
    out.append(rule.basis.label());
    out.append(", period ");
    out.append(p.period_id.as_str());
    out
}

fn judge(
    rule: &CovenantRule,
    config: &CovenantConfig,
    periods: &Vec<&PeriodFinancials>,
    current: usize,
    m: Measurement,
) -> (r: Option<Evaluation>)
    requires
        current < periods.len(),
    ensures
        (match r {
            Some(e) => verdict_of(*rule, *config, held(periods@), current as int, m@) == Some(e@),
            None => verdict_of(*rule, *config, held(periods@), current as int, m@) is None,
        }),
{
    let ghost s = held(periods@);
    let note = note_text(rule, periods[current]);
    assert(note@ == basis_note(*rule, s[current as int]));
    let id = rule.id.as_str();
    let mut findings: Vec<Finding> = Vec::new();
    let mut results: Vec<CovenantResult> = Vec::new();
    match m {
        Measurement::AutomaticBreach(reason) => {
            let mut message = String::from_str("automatic breach: ");
            message.append(reason.as_str());
            message.append(" (");
            message.append(note.as_str());
            message.append(")");
            findings.push(Finding::breach("covenant-test", id, message));
            results.push(make_result(rule, None, None, false));
        },
        Measurement::VacuousPass(reason) => {
            let mut message = String::from_str("vacuous pass: ");
            message.append(reason.as_str());
            message.append(" (");
            message.append(note.as_str());
            message.append(")");
            findings.push(Finding::note("covenant-test", Severity::Warn, id, message));
            results.push(make_result(rule, None, None, true));
        },
        Measurement::Ratio(ratio) => {
            let caps = rule.kind.is_maximum();
            let difference = if caps {
                rule.threshold.scaled().checked_sub(ratio.scaled())
            } else {
                ratio.scaled().checked_sub(rule.threshold.scaled())
            };
            let headroom = match difference {
                Some(value) => Ratio(value),
                None => return None,
            };
            let passed = headroom.scaled() >= 0;
            let mut message = String::from_str(rule.kind.label());
            message.append(" ratio ");
            message.append(ratio.to_decimal_string().as_str());
            message.append("x ");
            message.append(if passed { "within" } else { "exceeds" });
            message.append(" ");
            message.append(if caps { "max" } else { "min" });
            message.append(" ");
            message.append(rule.threshold.to_decimal_string().as_str());
            message.append("x; headroom ");
            message.append(signed(headroom).as_str());
            message.append("x (");
            message.append(note.as_str());
            message.append(")");
            assert(message@ == ratio_line(*rule, ratio.0 as int, note@));
            results.push(make_result(rule, Some(ratio), Some(headroom), passed));
            if passed {
                let mut more = match project(rule, config, periods, current) {
                    Some(more) => more,
                    None => return None,
                };
                let ghost added = more@;
                findings.push(Finding::note("covenant-test", Severity::Info, id, message));
                let ghost first = findings@;
                findings.append(&mut more);
                proof {
                    assert(findings@ =~= first + added);
                    assert(spine::findings_view(findings@) =~= spine::findings_view(first)
                        + spine::findings_view(added));
                    assert(spine::findings_view(first) =~= seq![
                        spine::note_of("covenant-test"@, Severity::Info, rule.id@, message@),
                    ]);
                }
            } else {
                findings.push(Finding::breach("covenant-test", id, message));
            }
        },
    }
    proof {
        let v = verdict_of(*rule, *config, s, current as int, m@)->0;
        assert(spine::findings_view(findings@) =~= v.findings);
        assert(results_view(results@) =~= v.results);
    }
    Some(Evaluation { findings, results })
}

fn evaluate_rule(
    rule: &CovenantRule,
    config: &CovenantConfig,
    periods: &Vec<&PeriodFinancials>,
    current: usize,
    date: Date,
) -> (r: Option<Evaluation>)
    requires
        current < periods.len(),
    ensures
        (match r {
            Some(e) => tested(*rule, *config, held(periods@), current as int, date.day()) == Some(
                e@,
            ),
            None => tested(*rule, *config, held(periods@), current as int, date.day()) is None,
        }),
{
    let width: usize = match rule.basis {
        Basis::Quarterly => 1,
        Basis::Ltm => LTM_QUARTERS,
    };
    if current + 1 < width {
        let mut message = String::from_str("LTM basis needs ");
        message.append(text::count_text(LTM_QUARTERS).as_str());
        message.append(" quarterly periods; only ");
        message.append(text::count_text(current + 1).as_str());
        message.append(" end on or before the measurement date");
        let mut findings: Vec<Finding> = Vec::new();
        findings.push(Finding::breach("ltm-history-insufficient", rule.id.as_str(), message));
        let results: Vec<CovenantResult> = Vec::new();
        proof {
            let v = tested(*rule, *config, held(periods@), current as int, date.day())->0;
            assert(spine::findings_view(findings@) =~= v.findings);
            assert(results_view(results@) =~= v.results);
        }
        return Some(Evaluation { findings, results });
    }
    match totals_for_window(periods, current + 1 - width, current + 1) {
        None => None,
        Some(raw) => {
            match apply_cures(raw, &config.equity_cures, date) {
                None => None,
                Some(t) => {
                    match measure(rule.kind, &t) {
                        None => None,
                        Some(m) => judge(rule, config, periods, current, m),
                    }
                },
            }
        },
    }
}

/// What one covenant adds to an evaluation: exactly one of its versions must
/// be in force.
#[verifier::opaque]
pub open spec fn covenant_entry(
    config: CovenantConfig,
    s: Seq<PeriodFinancials>,
    current: int,
    day: int,
    id: Seq<char>,
) -> Option<EvaluationView> {
    let versions = config::versions_on(config.covenants@, id, day, config.covenants.len() as int);
    if versions.len() == 0 {
        Some(
            EvaluationView {
                findings: seq![
                    spine::note_of(
                        "covenant-test"@,
                        Severity::Info,
                        id,
                        "no version in force at measurement date "@ + date::date_text(day),
                    ),
                ],
                results: Seq::empty(),
            },
        )
    } else if versions.len() == 1 {
        tested(config.covenants@[versions[0]], config, s, current, day)
    } else {
        Some(
            EvaluationView {
                findings: seq![
                    spine::breach_of(
                        "ambiguous-covenant-versions"@,
                        id,
                        text::decimal(versions.len())
                            + " versions of the covenant are in force at "@ + date::date_text(day)
                            + "; exactly one is required"@,
                    ),
                ],
                results: Seq::empty(),
            },
        )
    }
}

/// What the first `n` covenants come to, in the order in which they first
/// occur.
pub open spec fn covenants_upto(
    config: CovenantConfig,
    s: Seq<PeriodFinancials>,
    current: int,
    day: int,
    n: int,
) -> Option<EvaluationView>
    decreases n,
{
    if n <= 0 {
        Some(EvaluationView { findings: Seq::empty(), results: Seq::empty() })
    } else {
        let ids = config::first_ids(config.covenants@, config.covenants.len() as int);
        match (
            covenants_upto(config, s, current, day, n - 1),
            covenant_entry(config, s, current, day, ids[n - 1]),
        ) {
            (Some(before), Some(entry)) => Some(followed_by(before, entry)),
            _ => None,
        }
    }
}

/// An evaluation that stops at faulty financials.
pub open spec fn faulty(message: Seq<char>) -> EvaluationView {
    EvaluationView {
        findings: seq![spine::breach_of("input-data-error"@, "financials"@, message)],
        results: Seq::empty(),
    }
}

/// The evaluation of covenants on financials. None where an intermediate
/// result does not fit.
pub open spec fn evaluation(config: CovenantConfig, fin: Financials) -> Option<EvaluationView> {
    let s = in_order(fin.periods@);
    let day = fin.measurement_date.day();
    match repeat_error(s, 0) {
        Some(message) => Some(faulty(message)),
        None => match last_until(s, day, s.len() as int) {
            None => Some(
                faulty(
                    "no period ends on or before the measurement date "@ + date::date_text(day),
                ),
            ),
            Some(current) => covenants_upto(
                config,
                s,
                current,
                day,
                config::first_ids(config.covenants@, config.covenants.len() as int).len() as int,
            ),
        },
    }
}

proof fn covenants_stop(
    config: CovenantConfig,
    s: Seq<PeriodFinancials>,
    current: int,
    day: int,
    m: int,
    n: int,
)
    requires
        0 <= m <= n,
        covenants_upto(config, s, current, day, m) is None,
    ensures
        covenants_upto(config, s, current, day, n) is None,
    decreases n - m,
{
    if m < n {
        covenants_stop(config, s, current, day, m, n - 1);
    }
}

fn faulty_evaluation(message: String) -> (r: Evaluation)
    ensures
        r@ == faulty(message@),
{
    let mut findings: Vec<Finding> = Vec::new();
    findings.push(Finding::breach("input-data-error", "financials", message));
    let results: Vec<CovenantResult> = Vec::new();
    proof {
        assert(spine::findings_view(findings@) =~= faulty(message@).findings);
        assert(results_view(results@) =~= faulty(message@).results);
    }
    Evaluation { findings, results }
}

fn evaluate_covenant(
    config: &CovenantConfig,
    periods: &Vec<&PeriodFinancials>,
    current: usize,
    date: Date,
    id: &str,
) -> (r: Option<Evaluation>)
    requires
        current < periods.len(),
    ensures
        (match r {
            Some(e) => covenant_entry(*config, held(periods@), current as int, date.day(), id@)
                == Some(e@),
            None => covenant_entry(*config, held(periods@), current as int, date.day(), id@)
                is None,
        }),
{
    proof {
        reveal(covenant_entry);
    }
    let versions = config::versions_in_force(&config.covenants, id, date);
    assert(config::places(versions@).len() == versions.len());
    if versions.len() == 1 {
        assert(config::places(versions@)[0] == versions@[0]);
        return evaluate_rule(&config.covenants[versions[0]], config, periods, current, date);
    }
    let mut findings: Vec<Finding> = Vec::new();
    if versions.len() == 0 {
        let mut message = String::from_str("no version in force at measurement date ");
        message.append(date.text().as_str());
        findings.push(Finding::note("covenant-test", Severity::Info, id, message));
    } else {
        let mut message = text::count_text(versions.len());
        message.append(" versions of the covenant are in force at ");
        message.append(date.text().as_str());
        message.append("; exactly one is required");
        findings.push(Finding::breach("ambiguous-covenant-versions", id, message));
    }
    let results: Vec<CovenantResult> = Vec::new();
    proof {
        let v = covenant_entry(*config, held(periods@), current as int, date.day(), id@)->0;
        assert(spine::findings_view(findings@) =~= v.findings);
        assert(results_view(results@) =~= v.results);
    }
    Some(Evaluation { findings, results })
}

/// One evaluation behind another.
pub open spec fn followed_by(a: EvaluationView, b: EvaluationView) -> EvaluationView {
    EvaluationView { findings: a.findings + b.findings, results: a.results + b.results }
}

fn extend(first: Evaluation, second: Evaluation) -> (r: Evaluation)
    ensures
        r@ == followed_by(first@, second@),
{
    let Evaluation { mut findings, mut results } = first;
    let Evaluation { findings: mut more, results: mut outcomes } = second;
    findings.append(&mut more);
    results.append(&mut outcomes);
    proof {
        assert(spine::findings_view(findings@) =~= spine::findings_view(first.findings@)
            + spine::findings_view(second.findings@));
        assert(results_view(results@) =~= results_view(first.results@) + results_view(
            second.results@,
        ));
    }
    Evaluation { findings, results }
}

/// Test every covenant on the financials. None where an intermediate result
/// does not fit.
pub fn try_evaluate(config: &CovenantConfig, fin: &Financials) -> (r: Option<Evaluation>)
    ensures
        (match r {
            Some(e) => evaluation(*config, *fin) == Some(e@),
            None => evaluation(*config, *fin) is None,
        }),
{
    let date = fin.measurement_date;
    let periods = match prepare_periods(&fin.periods) {
        Ok(periods) => periods,
        Err(message) => return Some(faulty_evaluation(message)),
    };
    let ghost s = in_order(fin.periods@);
    assert(s.len() == periods.len());
    let mut n: usize = periods.len();
    while n > 0 && periods[n - 1].period_end.day_number() > date.day_number()
        invariant
            n <= periods.len() == s.len(),
            s == held(periods@),
            date == fin.measurement_date,
            last_until(s, date.day(), s.len() as int) == last_until(s, date.day(), n as int),
        decreases n,
    {
        assert(s[n - 1] == *periods@[n - 1]);
        n = n - 1;
    }
    if n == 0 {
        let mut message = String::from_str("no period ends on or before the measurement date ");
        message.append(date.text().as_str());
        return Some(faulty_evaluation(message));
    }
    let current: usize = n - 1;
    assert(s[current as int] == *periods@[current as int]);
    let ids = config::covenant_ids(&config.covenants);
    let ghost all = config::first_ids(config.covenants@, config.covenants.len() as int);
    assert(all.len() == ids.len());
    let mut so_far = Evaluation::default();
    let mut i: usize = 0;
    proof {
        assert(spine::findings_view(so_far.findings@) =~= Seq::<FindingView>::empty());
        assert(results_view(so_far.results@) =~= Seq::<ResultView>::empty());
    }
    while i < ids.len()
        invariant
            i <= ids.len() == all.len(),
            current < periods.len(),
            s == held(periods@),
            s == in_order(fin.periods@),
            date == fin.measurement_date,
            repeat_error(s, 0) is None,
            last_until(s, date.day(), s.len() as int) == Some(current as int),
            all == text::texts(ids@),
            all == config::first_ids(config.covenants@, config.covenants.len() as int),
            covenants_upto(*config, s, current as int, date.day(), i as int) == Some(so_far@),
        decreases ids.len() - i,
    {
        assert(all[i as int] == ids@[i as int]@);
        match evaluate_covenant(config, &periods, current, date, ids[i].as_str()) {
            None => {
                proof {
                    covenants_stop(
                        *config,
                        s,
                        current as int,
                        date.day(),
                        i + 1,
                        all.len() as int,
                    );
                }
                return None;
            },
            Some(entry) => {
                so_far = extend(so_far, entry);
            },
        }
        i = i + 1;
    }
    Some(so_far)
}

/// Test every covenant on the financials, at the measurement date. Covenants
/// come in the order in which the configuration first names them.
pub fn evaluate(config: &CovenantConfig, fin: &Financials) -> (r: Evaluation)
    requires
        evaluation(*config, *fin) is Some,
    ensures
        evaluation(*config, *fin) == Some(r@),
{
    match try_evaluate(config, fin) {
        Some(e) => e,
        None => Evaluation { findings: Vec::new(), results: Vec::new() },
    }
}

} // verus!
