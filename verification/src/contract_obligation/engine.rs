//! Deadlines, renewal windows, and service credits at a clock that the
//! caller supplies.

use vstd::prelude::*;
use vstd::string::StrSliceExecFns;
use vstd::string::StringExecFns;

use crate::contract_obligation::model;
use crate::contract_obligation::model::{
    AnchorEvent, Calendar, ConfigError, ConfigRefusal, DateSpec, ObligationRecord, ObligationType,
    PolicyParams, RegisterInputs, RollMode, SlaMeasurement, SlaTier, MAX_DATE, MIN_CLOCK,
};
use crate::contract_obligation::rule_ids;
use crate::date;
use crate::date::Date;
use crate::num;
use crate::order;
use crate::order::Order;
use crate::spine;
use crate::spine::{Finding, FindingView, Severity};
use crate::text;

verus! {

/// Which deadline a resolution describes.
#[derive(Debug, Clone, Copy, PartialEq, Eq, Structural)]
pub enum ResolutionKind {
    Due,
    OptOut,
    Sla,
}

/// The dates of one obligation at the clock.
#[derive(Debug, Clone, PartialEq, Eq)]
pub struct DeadlineResolution {
    pub obligation_id: String,
    pub kind: ResolutionKind,
    pub counterparty: String,
    /// The date that a dependent date was computed from.
    pub base_date: Option<Date>,
    /// The effective date; none while it is not fixed or does not apply.
    pub due_date: Option<Date>,
    /// Days from the clock to the effective date, negative when past.
    pub days_remaining: Option<i64>,
    /// Whether rolling moved the date.
    pub roll_applied: bool,
    /// The tier of the latest measurement.
    pub tier_min_uptime_bp: Option<u64>,
    /// The credit for the latest measurement, in cents.
    pub credit_cents: Option<i128>,
}

/// What a [`DeadlineResolution`] says.
#[verifier::ext_equal]
pub struct ResolutionView {
    pub obligation_id: Seq<char>,
    pub kind: ResolutionKind,
    pub counterparty: Seq<char>,
    pub base: Option<int>,
    pub due: Option<int>,
    pub days_remaining: Option<int>,
    pub roll_applied: bool,
    pub tier_min_uptime_bp: Option<u64>,
    pub credit_cents: Option<int>,
}

pub open spec fn day_of(d: Option<Date>) -> Option<int> {
    match d {
        Some(d) => Some(d.day()),
        None => None,
    }
}

impl View for DeadlineResolution {
    type V = ResolutionView;

    open spec fn view(&self) -> ResolutionView {
        ResolutionView {
            obligation_id: self.obligation_id@,
            kind: self.kind,
            counterparty: self.counterparty@,
            base: day_of(self.base_date),
            due: day_of(self.due_date),
            days_remaining: match self.days_remaining {
                Some(n) => Some(n as int),
                None => None,
            },
            roll_applied: self.roll_applied,
            tier_min_uptime_bp: self.tier_min_uptime_bp,
            credit_cents: match self.credit_cents {
                Some(n) => Some(n as int),
                None => None,
            },
        }
    }
}

pub open spec fn resolutions_view(s: Seq<DeadlineResolution>) -> Seq<ResolutionView> {
    s.map_values(|r: DeadlineResolution| r@)
}

/// The register at one clock: findings, and the dates behind them.
#[derive(Debug, Clone)]
pub struct Evaluation {
    pub findings: Vec<Finding>,
    pub resolutions: Vec<DeadlineResolution>,
}

/// What an [`Evaluation`] says.
#[verifier::ext_equal]
pub struct EvaluationView {
    pub findings: Seq<FindingView>,
    pub resolutions: Seq<ResolutionView>,
}

impl View for Evaluation {
    type V = EvaluationView;

    open spec fn view(&self) -> EvaluationView {
        EvaluationView {
            findings: spine::findings_view(self.findings@),
            resolutions: resolutions_view(self.resolutions@),
        }
    }
}

/// Why there is no evaluation.
#[derive(Debug, Clone, PartialEq, Eq)]
pub enum Fault {
    /// The register or the policy is refused.
    Config(ConfigError),
    /// A computed date lies outside the calendar.
    OffCalendar,
}

/// What a [`Fault`] says.
pub enum FaultView {
    Config(ConfigRefusal),
    OffCalendar,
}

impl View for Fault {
    type V = FaultView;

    open spec fn view(&self) -> FaultView {
        match self {
            Fault::Config(e) => FaultView::Config(e@),
            Fault::OffCalendar => FaultView::OffCalendar,
        }
    }
}

// ---- date arithmetic ----

/// The day `n` months after a day, at most the last of its month; nothing
/// where the calendar ends before it.
pub open spec fn months_later(day: int, n: int) -> Option<int> {
    let (y, m, d) = date::civil_of(day);
    let total = y * 12 + (m - 1) + n;
    let y2 = total / 12;
    let m2 = total % 12 + 1;
    let last = date::days_in_month(y2, m2);
    if date::MIN_YEAR <= y2 <= date::MAX_YEAR {
        Some(date::civil_day(y2, m2, if d < last { d } else { last }))
    } else {
        None
    }
}

fn months_after(d: Date, n: u32) -> (r: Option<Date>)
    ensures
        day_of(r) == months_later(d.day(), n as int),
{
    let (y, m, day) = d.ymd();
    // Years are counted from 262 144 years before year 0, so that the count
    // of months is not negative.
    let total: i64 = (y as i64 + 262_144) * 12 + (m as i64 - 1) + n as i64;
    let y2: i64 = total / 12 - 262_144;
    let m2: u32 = (total % 12) as u32 + 1;
    if y2 > date::MAX_YEAR as i64 {
        return None;
    }
    let last: u32 = date::month_length(y2 as i32, m2);
    Date::from_ymd_opt(y2 as i32, m2, if day < last { day } else { last })
}

/// Add months. The day is clamped to the last of the target month, so that
/// January 31 and one month make February 28, or 29 in a leap year.
pub fn add_months(d: Date, n: u32) -> (r: Date)
    requires
        months_later(d.day(), n as int) is Some,
    ensures
        months_later(d.day(), n as int) == Some(r.day()),
{
    match months_after(d, n) {
        Some(r) => r,
        None => d,
    }
}

/// The name of a day's weekday.
pub open spec fn weekday_name(day: int) -> Seq<char> {
    let w = (day - 1) % 7;
    if w == 0 {
        "mon"@
    } else if w == 1 {
        "tue"@
    } else if w == 2 {
        "wed"@
    } else if w == 3 {
        "thu"@
    } else if w == 4 {
        "fri"@
    } else if w == 5 {
        "sat"@
    } else {
        "sun"@
    }
}

fn weekday_label(d: Date) -> (r: &'static str)
    ensures
        r@ == weekday_name(d.day()),
{
    let w: u32 = d.weekday();
    if w == 0 {
        "mon"
    } else if w == 1 {
        "tue"
    } else if w == 2 {
        "wed"
    } else if w == 3 {
        "thu"
    } else if w == 4 {
        "fri"
    } else if w == 5 {
        "sat"
    } else {
        "sun"
    }
}

pub open spec fn is_weekend(day: int, cal: Calendar) -> bool {
    exists|i: int|
        0 <= i < cal.weekend.len() && text::same_ignoring_case(
            (#[trigger] cal.weekend@[i])@,
            weekday_name(day),
        )
}

pub open spec fn is_holiday(day: int, cal: Calendar) -> bool {
    exists|i: int| 0 <= i < cal.holidays.len() && (#[trigger] cal.holidays@[i]).day() == day
}

/// Whether a day is neither on the weekend nor a holiday.
pub open spec fn is_business(day: int, cal: Calendar) -> bool {
    !is_weekend(day, cal) && !is_holiday(day, cal)
}

fn is_business_day(d: Date, cal: &Calendar) -> (r: bool)
    ensures
        r == is_business(d.day(), *cal),
{
    let name = weekday_label(d);
    let mut i: usize = 0;
    while i < cal.weekend.len()
        invariant
            i <= cal.weekend.len(),
            name@ == weekday_name(d.day()),
            forall|k: int|
                0 <= k < i ==> !text::same_ignoring_case((#[trigger] cal.weekend@[k])@, name@),
        decreases cal.weekend.len() - i,
    {
        if text::eq_ignoring_case(cal.weekend[i].as_str(), name) {
            return false;
        }
        i = i + 1;
    }
    let number: i32 = d.day_number();
    let mut i: usize = 0;
    while i < cal.holidays.len()
        invariant
            i <= cal.holidays.len(),
            number == d.day(),
            !is_weekend(d.day(), *cal),
            forall|k: int| 0 <= k < i ==> (#[trigger] cal.holidays@[k]).day() != d.day(),
        decreases cal.holidays.len() - i,
    {
        if cal.holidays[i].day_number() == number {
            return false;
        }
        i = i + 1;
    }
    true
}

/// The first business day on or after `day`, at most `reach` days later.
pub open spec fn next_business(day: int, cal: Calendar, reach: int) -> Option<int>
    decreases reach,
{
    if day > date::MAX_DAY {
        None
    } else if is_business(day, cal) {
        Some(day)
    } else if reach <= 0 {
        None
    } else {
        next_business(day + 1, cal, reach - 1)
    }
}

/// The refusal where a calendar has no business day within a year.
pub open spec fn no_business_day(jurisdiction: Seq<char>, day: int) -> ConfigRefusal {
    ConfigRefusal::NoBusinessDay { jurisdiction, from: date::date_text(day) }
}

fn roll_forward(d: Date, cal: &Calendar, jurisdiction: &str) -> (r: Result<Date, ConfigError>)
    ensures
        (match r {
            Ok(x) => next_business(d.day(), *cal, 366) == Some(x.day()),
            Err(e) => next_business(d.day(), *cal, 366) is None && e@ == no_business_day(
                jurisdiction@,
                d.day(),
            ),
        }),
{
    let start: i32 = d.day_number();
    let mut passed: i32 = 0;
    while passed <= 366
        invariant
            0 <= passed <= 367,
            start == d.day(),
            date::MIN_DAY <= start <= date::MAX_DAY,
            passed <= 366 ==> next_business(d.day(), *cal, 366) == next_business(
                d.day() + passed,
                *cal,
                366 - passed,
            ),
            passed == 367 ==> next_business(d.day(), *cal, 366) is None,
        decreases 367 - passed,
    {
        match Date::from_day_number(start as i64 + passed as i64) {
            Some(x) => {
                if is_business_day(x, cal) {
                    return Ok(x);
                }
            },
            None => {
                return Err(
                    ConfigError::NoBusinessDay {
                        jurisdiction: String::from_str(jurisdiction),
                        from: d.text(),
                    },
                );
            },
        }
        passed = passed + 1;
    }
    Err(ConfigError::NoBusinessDay { jurisdiction: String::from_str(jurisdiction), from: d.text() })
}

/// A computed day after rolling, and whether rolling moved it. Only the
/// forward mode rolls, and only for an obligation that names a calendar.
pub open spec fn roll_of(day: int, jurisdiction: Option<String>, p: PolicyParams) -> Result<
    (int, bool),
    ConfigRefusal,
> {
    match jurisdiction {
        Some(j) if p.business_day_roll == RollMode::Forward => match p.calendars.lookup(j@) {
            Some(cal) => match next_business(day, cal, 366) {
                Some(x) => Ok((x, x != day)),
                None => Err(no_business_day(j@, day)),
            },
            None => Err(
                ConfigRefusal::InvalidCalendar {
                    jurisdiction: j@,
                    reason: "obligation references calendar "@ + j@
                        + " which is not defined in params"@,
                },
            ),
        },
        _ => Ok((day, false)),
    }
}

fn roll_computed(d: Date, jurisdiction: &Option<String>, params: &PolicyParams) -> (r: Result<
    (Date, bool),
    ConfigError,
>)
    ensures
        (match r {
            Ok((x, moved)) => roll_of(d.day(), *jurisdiction, *params) == Ok::<
                (int, bool),
                ConfigRefusal,
            >((x.day(), moved)),
            Err(e) => roll_of(d.day(), *jurisdiction, *params) == Err::<
                (int, bool),
                ConfigRefusal,
            >(e@),
        }),
{
    if params.business_day_roll == RollMode::Raw {
        return Ok((d, false));
    }
    match jurisdiction {
        None => Ok((d, false)),
        Some(j) => {
            match params.calendars.get(j.as_str()) {
                Some(cal) => {
                    match roll_forward(d, cal, j.as_str()) {
                        Ok(x) => {
                            let moved = x.day_number() != d.day_number();
                            Ok((x, moved))
                        },
                        Err(e) => Err(e),
                    }
                },
                None => {
                    let mut reason = String::from_str("obligation references calendar ");
                    reason.append(j.as_str());
                    reason.append(" which is not defined in params");
                    Err(ConfigError::InvalidCalendar { jurisdiction: j.clone(), reason })
                },
            }
        },
    }
}

// ---- due dates ----

/// The due date of an obligation.
#[derive(Debug, Clone, Copy, PartialEq, Eq, Structural)]
pub struct DueComputation {
    /// The anchor's date, from which the due date was computed.
    pub base_date: Option<Date>,
    /// The effective date, after offsets and rolling.
    pub due_date: Option<Date>,
    pub roll_applied: bool,
}

/// What a [`DueComputation`] says.
pub struct DueView {
    pub base: Option<int>,
    pub due: Option<int>,
    pub rolled: bool,
}

impl View for DueComputation {
    type V = DueView;

    open spec fn view(&self) -> DueView {
        DueView {
            base: day_of(self.base_date),
            due: day_of(self.due_date),
            rolled: self.roll_applied,
        }
    }
}

pub open spec fn unfixed() -> DueView {
    DueView { base: None, due: None, rolled: false }
}

/// The anchor's day shifted by months, then days, then rolled.
pub open spec fn shifted(
    base: int,
    months: int,
    days: int,
    jurisdiction: Option<String>,
    p: PolicyParams,
) -> Result<DueView, FaultView> {
    match months_later(base, months) {
        None => Err(FaultView::OffCalendar),
        Some(day) => if day + days > date::MAX_DAY {
            Err(FaultView::OffCalendar)
        } else {
            match roll_of(day + days, jurisdiction, p) {
                Ok((due, rolled)) => Ok(DueView { base: Some(base), due: Some(due), rolled }),
                Err(e) => Err(FaultView::Config(e)),
            }
        },
    }
}

/// The due date of record `i`. It is not fixed where the record has no due
/// date, or where the chain of anchors ends in an event that has not
/// occurred. `chain` holds the obligations that wait for this one.
pub open spec fn due_of(
    s: Seq<ObligationRecord>,
    p: PolicyParams,
    i: int,
    chain: Seq<Seq<char>>,
) -> Result<DueView, FaultView>
    decreases s.len() - chain.len(),
    when model::is_path(s, chain) && 0 <= i < s.len()
{
    match s[i].due {
        None => Ok(unfixed()),
        Some(DateSpec::Explicit { date }) => Ok(
            DueView { base: Some(date.day()), due: Some(date.day()), rolled: false },
        ),
        Some(DateSpec::Dependent { anchor_id, anchor_event, offset_days, offset_months }) => {
            if chain.contains(s[i].id@) {
                Err(
                    FaultView::Config(
                        ConfigRefusal::InvalidAnchor {
                            id: s[i].id@,
                            anchor_id: anchor_id@,
                            reason: "dependency cycle: "@ + text::joined(chain, " -> "@),
                        },
                    ),
                )
            } else {
                match model::latest_of(s, s.len() as int, anchor_id@) {
                    None => Err(
                        FaultView::Config(
                            ConfigRefusal::InvalidAnchor {
                                id: s[i].id@,
                                anchor_id: anchor_id@,
                                reason: "anchor obligation not found in the register"@,
                            },
                        ),
                    ),
                    Some(k) => {
                        proof {
                            model::path_grows(s, chain, i);
                        }
                        match anchor_event {
                            AnchorEvent::Completed => shifted_if_fixed(
                                day_of(s[k].completed_on),
                                s[i],
                                p,
                            ),
                            AnchorEvent::Due => match due_of(s, p, k, chain.push(s[i].id@)) {
                                Ok(anchor) => shifted_if_fixed(anchor.due, s[i], p),
                                Err(e) => Err(e),
                            },
                        }
                    },
                }
            }
        },
    }
}

/// The due date of a dependent record, given the anchor's day.
pub open spec fn shifted_if_fixed(base: Option<int>, r: ObligationRecord, p: PolicyParams) -> Result<
    DueView,
    FaultView,
> {
    match (base, r.due) {
        (Some(day), Some(DateSpec::Dependent { offset_days, offset_months, .. })) => shifted(
            day,
            offset_months as int,
            offset_days as int,
            r.jurisdiction,
            p,
        ),
        _ => Ok(unfixed()),
    }
}

fn shift(
    base: Option<Date>,
    months: u32,
    days: u32,
    record: &ObligationRecord,
    params: &PolicyParams,
) -> (r: Result<DueComputation, Fault>)
    requires
        record.due matches Some(DateSpec::Dependent { offset_days, offset_months, .. })
            && offset_days == days && offset_months == months,
    ensures
        (match r {
            Ok(c) => shifted_if_fixed(day_of(base), *record, *params) == Ok::<DueView, FaultView>(
                c@,
            ),
            Err(e) => shifted_if_fixed(day_of(base), *record, *params) == Err::<
                DueView,
                FaultView,
            >(e@),
        }),
{
    match base {
        None => Ok(DueComputation { base_date: None, due_date: None, roll_applied: false }),
        Some(from) => {
            match months_after(from, months) {
                None => Err(Fault::OffCalendar),
                Some(day) => {
                    match Date::from_day_number(day.day_number() as i64 + days as i64) {
                        None => Err(Fault::OffCalendar),
                        Some(raw) => {
                            match roll_computed(raw, &record.jurisdiction, params) {
                                Ok((due, moved)) => Ok(
                                    DueComputation {
                                        base_date: Some(from),
                                        due_date: Some(due),
                                        roll_applied: moved,
                                    },
                                ),
                                Err(e) => Err(Fault::Config(e)),
                            }
                        },
                    }
                },
            }
        },
    }
}

fn due_computation_of(
    s: &Vec<ObligationRecord>,
    params: &PolicyParams,
    i: usize,
    chain: &Vec<String>,
) -> (r: Result<DueComputation, Fault>)
    requires
        i < s.len(),
        model::is_path(s@, text::texts(chain@)),
    ensures
        (match r {
            Ok(c) => due_of(s@, *params, i as int, text::texts(chain@)) == Ok::<DueView, FaultView>(
                c@,
            ),
            Err(e) => due_of(s@, *params, i as int, text::texts(chain@)) == Err::<
                DueView,
                FaultView,
            >(e@),
        }),
    decreases s.len() - chain.len(),
{
    let record = &s[i];
    match &record.due {
        None => Ok(DueComputation { base_date: None, due_date: None, roll_applied: false }),
        Some(DateSpec::Explicit { date }) => Ok(
            DueComputation { base_date: Some(*date), due_date: Some(*date), roll_applied: false },
        ),
        Some(DateSpec::Dependent { anchor_id, anchor_event, offset_days, offset_months }) => {
            if text::holds_text(chain, record.id.as_str()) {
                let mut reason = String::from_str("dependency cycle: ");
                reason.append(text::join(chain, " -> ").as_str());
                return Err(
                    Fault::Config(
                        ConfigError::InvalidAnchor {
                            id: record.id.clone(),
                            anchor_id: anchor_id.clone(),
                            reason,
                        },
                    ),
                );
            }
            let k = match model::latest(s, s.len(), anchor_id.as_str()) {
                Some(k) => k,
                None => {
                    return Err(
                        Fault::Config(
                            ConfigError::InvalidAnchor {
                                id: record.id.clone(),
                                anchor_id: anchor_id.clone(),
                                reason: String::from_str(
                                    "anchor obligation not found in the register",
                                ),
                            },
                        ),
                    );
                },
            };
            let base = match anchor_event {
                AnchorEvent::Completed => s[k].completed_on,
                AnchorEvent::Due => {
                    let mut longer = text::copy_texts(chain);
                    longer.push(record.id.clone());
                    proof {
                        model::path_grows(s@, text::texts(chain@), i as int);
                        assert(text::texts(longer@) =~= text::texts(chain@).push(s@[i as int].id@));
                        assert(text::texts(chain@).len() == chain.len());
                        assert(text::texts(longer@).len() == longer.len());
                    }
                    match due_computation_of(s, params, k, &longer) {
                        Ok(anchor) => anchor.due_date,
                        Err(e) => return Err(e),
                    }
                },
            };
            shift(base, *offset_months, *offset_days, record, params)
        },
    }
}

/// What one obligation adds to an evaluation.
#[verifier::ext_equal]
pub struct EntryView {
    pub findings: Seq<FindingView>,
    pub resolution: ResolutionView,
}

pub struct Entry {
    pub findings: Vec<Finding>,
    pub resolution: DeadlineResolution,
}

impl View for Entry {
    type V = EntryView;

    open spec fn view(&self) -> EntryView {
        EntryView {
            findings: spine::findings_view(self.findings@),
            resolution: self.resolution@,
        }
    }
}

pub open spec fn event_name(e: AnchorEvent) -> Seq<char> {
    match e {
        AnchorEvent::Due => "Due"@,
        AnchorEvent::Completed => "Completed"@,
    }
}

/// Whether an obligation is satisfied by the clock.
pub open spec fn is_satisfied(r: ObligationRecord, clock: int) -> bool {
    r.satisfied_on is Some && r.satisfied_on->0.day() <= clock
}

/// What is to be said of an obligation with the due date `c`.
pub open spec fn due_finding(r: ObligationRecord, c: DueView, clock: int, p: PolicyParams) -> Seq<
    FindingView,
> {
    match c.due {
        None => match r.due {
            Some(DateSpec::Dependent { anchor_id, anchor_event, .. }) => seq![
                spine::note_of(
                    rule_ids::DEPENDENT_PENDING@,
                    Severity::Info,
                    r.id@,
                    "dependent due date not yet fixed: anchor "@ + anchor_id@ + " event "@
                        + event_name(anchor_event) + " has not occurred"@,
                ),
            ],
            _ => Seq::empty(),
        },
        Some(due) => if is_satisfied(r, clock) {
            seq![
                spine::note_of(
                    rule_ids::DUE_MET@,
                    Severity::Info,
                    r.id@,
                    "satisfied on "@ + date::date_text(r.satisfied_on->0.day()) + "; due "@
                        + date::date_text(due),
                ),
            ]
        } else if clock > due {
            seq![
                spine::breach_of(
                    rule_ids::DUE_OVERDUE@,
                    r.id@,
                    "obligation overdue since "@ + date::date_text(due) + " ("@
                        + text::signed_decimal(clock - due) + " days past)"@,
                ),
            ]
        } else if due - clock <= p.warn_days_before_due {
            seq![
                spine::note_of(
                    rule_ids::DUE_UPCOMING@,
                    Severity::Warn,
                    r.id@,
                    "due "@ + date::date_text(due) + ", "@ + text::signed_decimal(due - clock)
                        + " days remaining"@,
                ),
            ]
        } else {
            Seq::empty()
        },
    }
}

pub open spec fn due_resolution(r: ObligationRecord, c: DueView, clock: int) -> ResolutionView {
    ResolutionView {
        obligation_id: r.id@,
        kind: ResolutionKind::Due,
        counterparty: r.counterparty@,
        base: c.base,
        due: c.due,
        days_remaining: match c.due {
            Some(due) => Some(due - clock),
            None => None,
        },
        roll_applied: c.rolled,
        tier_min_uptime_bp: None,
        credit_cents: None,
    }
}

/// What record `i`, an obligation with a due date, adds to an evaluation.
pub open spec fn due_entry(
    s: Seq<ObligationRecord>,
    p: PolicyParams,
    clock: int,
    i: int,
) -> Result<EntryView, FaultView> {
    match due_of(s, p, i, Seq::empty()) {
        Ok(c) => Ok(
            EntryView {
                findings: due_finding(s[i], c, clock, p),
                resolution: due_resolution(s[i], c, clock),
            },
        ),
        Err(e) => Err(e),
    }
}

fn evaluate_due(
    s: &Vec<ObligationRecord>,
    params: &PolicyParams,
    clock: Date,
    i: usize,
) -> (r: Result<Entry, Fault>)
    requires
        i < s.len(),
    ensures
        (match r {
            Ok(entry) => due_entry(s@, *params, clock.day(), i as int) == Ok::<
                EntryView,
                FaultView,
            >(entry@),
            Err(e) => due_entry(s@, *params, clock.day(), i as int) == Err::<EntryView, FaultView>(
                e@,
            ),
        }),
{
    let record = &s[i];
    let chain: Vec<String> = Vec::new();
    assert(text::texts(chain@) =~= Seq::<Seq<char>>::empty());
    let comp = match due_computation_of(s, params, i, &chain) {
        Ok(comp) => comp,
        Err(e) => return Err(e),
    };
    let mut findings: Vec<Finding> = Vec::new();
    let mut days_remaining: Option<i64> = None;
    match comp.due_date {
        None => {
            if let Some(DateSpec::Dependent { anchor_id, anchor_event, .. }) = &record.due {
                let mut message = String::from_str("dependent due date not yet fixed: anchor ");
                message.append(anchor_id.as_str());
                message.append(" event ");
                message.append(
                    match anchor_event {
                        AnchorEvent::Due => "Due",
                        AnchorEvent::Completed => "Completed",
                    },
                );
                message.append(" has not occurred");
                findings.push(
                    Finding::note(
                        rule_ids::DEPENDENT_PENDING,
                        Severity::Info,
                        record.id.as_str(),
                        message,
                    ),
                );
            }
        },
        Some(due) => {
            let days: i64 = due.day_number() as i64 - clock.day_number() as i64;
            days_remaining = Some(days);
            let satisfied = match record.satisfied_on {
                Some(on) => on.day_number() <= clock.day_number(),
                None => false,
            };
            if satisfied {
                if let Some(on) = record.satisfied_on {
                    let mut message = String::from_str("satisfied on ");
                    message.append(on.text().as_str());
                    message.append("; due ");
                    message.append(due.text().as_str());
                    findings.push(
                        Finding::note(
                            rule_ids::DUE_MET,
                            Severity::Info,
                            record.id.as_str(),
                            message,
                        ),
                    );
                }
            } else if clock.day_number() > due.day_number() {
                let mut message = String::from_str("obligation overdue since ");
                message.append(due.text().as_str());
                message.append(" (");
                message.append(text::signed_text(-days as i128).as_str());
                message.append(" days past)");
                findings.push(Finding::breach(rule_ids::DUE_OVERDUE, record.id.as_str(), message));
            } else if days <= params.warn_days_before_due as i64 {
                let mut message = String::from_str("due ");
                message.append(due.text().as_str());
                message.append(", ");
                message.append(text::signed_text(days as i128).as_str());
                message.append(" days remaining");
                findings.push(
                    Finding::note(
                        rule_ids::DUE_UPCOMING,
                        Severity::Warn,
                        record.id.as_str(),
                        message,
                    ),
                );
            }
        },
    }
    let resolution = DeadlineResolution {
        obligation_id: record.id.clone(),
        kind: ResolutionKind::Due,
        counterparty: record.counterparty.clone(),
        base_date: comp.base_date,
        due_date: comp.due_date,
        days_remaining,
        roll_applied: comp.roll_applied,
        tier_min_uptime_bp: None,
        credit_cents: None,
    };
    proof {
        assert(spine::findings_view(findings@) =~= due_finding(
            *record,
            comp@,
            clock.day(),
            *params,
        ));
    }
    Ok(Entry { findings, resolution })
}

// ---- renewals ----

/// What is to be said of a renewal whose opt-out deadline is `deadline`.
pub open spec fn renewal_finding(
    r: ObligationRecord,
    deadline: int,
    clock: int,
    p: PolicyParams,
) -> Seq<FindingView> {
    let terms = r.renewal->0;
    let renewal = date::date_text(terms.renewal_date.day());
    if terms.opted_out {
        seq![
            spine::note_of(
                rule_ids::OPTOUT_EXERCISED@,
                Severity::Info,
                r.id@,
                "opt-out recorded; term ends "@ + renewal,
            ),
        ]
    } else if clock >= terms.renewal_date.day() {
        if terms.auto_renew {
            seq![
                spine::breach_of(
                    rule_ids::AUTO_RENEWED@,
                    r.id@,
                    "contract auto-renewed on "@ + renewal,
                ),
            ]
        } else {
            seq![
                spine::note_of(
                    rule_ids::TERM_ENDED@,
                    Severity::Info,
                    r.id@,
                    "term ended on "@ + renewal + " without renewal"@,
                ),
            ]
        }
    } else if clock > deadline {
        if terms.auto_renew {
            seq![
                spine::breach_of(
                    rule_ids::OPTOUT_PASSED@,
                    r.id@,
                    "opt-out window closed "@ + date::date_text(deadline)
                        + "; contract auto-renews on "@ + renewal,
                ),
            ]
        } else {
            Seq::empty()
        }
    } else if deadline - clock <= p.warn_days_before_optout {
        seq![
            spine::note_of(
                rule_ids::OPTOUT_CLOSING@,
                Severity::Warn,
                r.id@,
                "opt-out deadline "@ + date::date_text(deadline) + ", "@ + text::signed_decimal(
                    deadline - clock,
                ) + " days remaining; renewal "@ + renewal,
            ),
        ]
    } else {
        seq![
            spine::note_of(
                rule_ids::OPTOUT_OPEN@,
                Severity::Info,
                r.id@,
                "opt-out window open until "@ + date::date_text(deadline) + ", "@
                    + text::signed_decimal(deadline - clock) + " days remaining; renewal "@
                    + renewal,
            ),
        ]
    }
}

/// What a renewal adds to an evaluation.
pub open spec fn renewal_entry(r: ObligationRecord, p: PolicyParams, clock: int) -> Result<
    EntryView,
    FaultView,
> {
    let terms = r.renewal->0;
    let raw = terms.renewal_date.day() - terms.notice_days;
    if raw < date::MIN_DAY {
        Err(FaultView::OffCalendar)
    } else {
        match roll_of(raw, r.jurisdiction, p) {
            Ok((deadline, moved)) => Ok(
                EntryView {
                    findings: renewal_finding(r, deadline, clock, p),
                    resolution: ResolutionView {
                        obligation_id: r.id@,
                        kind: ResolutionKind::OptOut,
                        counterparty: r.counterparty@,
                        base: Some(terms.renewal_date.day()),
                        due: Some(deadline),
                        days_remaining: Some(deadline - clock),
                        roll_applied: moved,
                        tier_min_uptime_bp: None,
                        credit_cents: None,
                    },
                },
            ),
            Err(e) => Err(FaultView::Config(e)),
        }
    }
}

fn renewal_findings(
    record: &ObligationRecord,
    renewal: model::RenewalTerms,
    deadline: Date,
    clock: Date,
    params: &PolicyParams,
) -> (r: Vec<Finding>)
    requires
        record.renewal == Some(renewal),
    ensures
        spine::findings_view(r@) == renewal_finding(
            *record,
            deadline.day(),
            clock.day(),
            *params,
        ),
{
    let id = record.id.as_str();
    let mut findings: Vec<Finding> = Vec::new();
    let days: i64 = deadline.day_number() as i64 - clock.day_number() as i64;
    let on = renewal.renewal_date.text();
    if renewal.opted_out {
        let mut message = String::from_str("opt-out recorded; term ends ");
        message.append(on.as_str());
        findings.push(Finding::note(rule_ids::OPTOUT_EXERCISED, Severity::Info, id, message));
    } else if clock.day_number() >= renewal.renewal_date.day_number() {
        if renewal.auto_renew {
            let mut message = String::from_str("contract auto-renewed on ");
            message.append(on.as_str());
            findings.push(Finding::breach(rule_ids::AUTO_RENEWED, id, message));
        } else {
            let mut message = String::from_str("term ended on ");
            message.append(on.as_str());
            message.append(" without renewal");
            findings.push(Finding::note(rule_ids::TERM_ENDED, Severity::Info, id, message));
        }
    } else if clock.day_number() > deadline.day_number() {
        // Without auto-renewal a missed opt-out costs nothing: the term ends.
        if renewal.auto_renew {
            let mut message = String::from_str("opt-out window closed ");
            message.append(deadline.text().as_str());
            message.append("; contract auto-renews on ");
            message.append(on.as_str());
            findings.push(Finding::breach(rule_ids::OPTOUT_PASSED, id, message));
        }
    } else if days <= params.warn_days_before_optout as i64 {
        let mut message = String::from_str("opt-out deadline ");
        message.append(deadline.text().as_str());
        message.append(", ");
        message.append(text::signed_text(days as i128).as_str());
        message.append(" days remaining; renewal ");
        message.append(on.as_str());
        findings.push(Finding::note(rule_ids::OPTOUT_CLOSING, Severity::Warn, id, message));
    } else {
        let mut message = String::from_str("opt-out window open until ");
        message.append(deadline.text().as_str());
        message.append(", ");
        message.append(text::signed_text(days as i128).as_str());
        message.append(" days remaining; renewal ");
        message.append(on.as_str());
        findings.push(Finding::note(rule_ids::OPTOUT_OPEN, Severity::Info, id, message));
    }
    proof {
        assert(spine::findings_view(findings@) =~= renewal_finding(
            *record,
            deadline.day(),
            clock.day(),
            *params,
        ));
    }
    findings
}

fn evaluate_renewal(
    record: &ObligationRecord,
    renewal: model::RenewalTerms,
    params: &PolicyParams,
    clock: Date,
) -> (r: Result<Entry, Fault>)
    requires
        record.renewal == Some(renewal),
    ensures
        (match r {
            Ok(entry) => renewal_entry(*record, *params, clock.day()) == Ok::<
                EntryView,
                FaultView,
            >(entry@),
            Err(e) => renewal_entry(*record, *params, clock.day()) == Err::<EntryView, FaultView>(
                e@,
            ),
        }),
{
    let raw = match Date::from_day_number(
        renewal.renewal_date.day_number() as i64 - renewal.notice_days as i64,
    ) {
        Some(raw) => raw,
        None => return Err(Fault::OffCalendar),
    };
    match roll_computed(raw, &record.jurisdiction, params) {
        Err(e) => Err(Fault::Config(e)),
        Ok((deadline, moved)) => {
            let findings = renewal_findings(record, renewal, deadline, clock, params);
            let days: i64 = deadline.day_number() as i64 - clock.day_number() as i64;
            let resolution = DeadlineResolution {
                obligation_id: record.id.clone(),
                kind: ResolutionKind::OptOut,
                counterparty: record.counterparty.clone(),
                base_date: Some(renewal.renewal_date),
                due_date: Some(deadline),
                days_remaining: Some(days),
                roll_applied: moved,
                tier_min_uptime_bp: None,
                credit_cents: None,
            };
            Ok(Entry { findings, resolution })
        },
    }
}

// ---- service levels ----

/// The first tier, from place `i` on, whose threshold an uptime meets.
pub open spec fn tier_of(uptime: u64, tiers: Seq<SlaTier>, i: int) -> Option<SlaTier>
    decreases tiers.len() - i,
{
    if 0 <= i < tiers.len() {
        if tiers[i].min_uptime_bp <= uptime {
            Some(tiers[i])
        } else {
            tier_of(uptime, tiers, i + 1)
        }
    } else {
        None
    }
}

/// The tier of a measured uptime: the first whose threshold it meets. None
/// means that it lies below every tier.
pub fn tier_for(achieved_uptime_bp: u64, tiers: &[SlaTier]) -> (r: Option<SlaTier>)
    ensures
        r == tier_of(achieved_uptime_bp, tiers@, 0),
{
    let mut i: usize = 0;
    while i < tiers.len()
        invariant
            i <= tiers.len(),
            tier_of(achieved_uptime_bp, tiers@, 0) == tier_of(
                achieved_uptime_bp,
                tiers@,
                i as int,
            ),
        decreases tiers.len() - i,
    {
        if tiers[i].min_uptime_bp <= achieved_uptime_bp {
            return Some(tiers[i]);
        }
        i = i + 1;
    }
    None
}

/// The credit on charges, in cents, without fractions of a cent.
pub open spec fn credit_of(charges: int, credit_bp: int) -> int {
    num::quotient(charges * credit_bp, 10_000)
}

/// The service credit on a period's charges.
pub fn credit_cents(charges_cents: i128, credit_bp: u64) -> (r: i128)
    requires
        i128::MIN <= charges_cents * credit_bp <= i128::MAX,
    ensures
        r == credit_of(charges_cents as int, credit_bp as int),
{
    num::divide(charges_cents * (credit_bp as i128), 10_000)
}

/// Whether one measured period is reported before another.
pub open spec fn period_lt(a: SlaMeasurement, b: SlaMeasurement) -> bool {
    a.period_end.day() < b.period_end.day() || (a.period_end.day() == b.period_end.day()
        && a.period_start.day() < b.period_start.day())
}

/// The measured periods in the order of their ends, then of their starts.
pub open spec fn periods_of(r: ObligationRecord) -> Seq<SlaMeasurement> {
    order::stable_sort(r.sla_measurements@, |a: SlaMeasurement, b: SlaMeasurement| period_lt(a, b))
}

/// Whether no measured period ends within the window before the clock.
pub open spec fn is_stale(periods: Seq<SlaMeasurement>, window_days: int, clock: int) -> bool {
    periods.len() == 0 || periods.last().period_end.day() < clock - window_days
}

pub open spec fn period_text(m: SlaMeasurement) -> Seq<char> {
    "period "@ + date::date_text(m.period_start.day()) + ".."@ + date::date_text(
        m.period_end.day(),
    ) + " achieved "@ + text::decimal(m.achieved_uptime_bp as nat)
}

/// What is to be said of a measured period.
pub open spec fn period_finding(m: SlaMeasurement, id: Seq<char>, tiers: Seq<SlaTier>) -> Option<
    FindingView,
> {
    match tier_of(m.achieved_uptime_bp, tiers, 0) {
        None => Some(
            spine::breach_of(
                rule_ids::SLA_BREACH@,
                id,
                period_text(m) + " bp, below every configured tier floor"@,
            ),
        ),
        Some(tier) => if tier.credit_bp > 0 {
            Some(
                spine::note_of(
                    rule_ids::SLA_CREDIT_DUE@,
                    Severity::Warn,
                    id,
                    period_text(m) + " bp: service credit of "@ + text::signed_decimal(
                        credit_of(m.charges_cents as int, tier.credit_bp as int),
                    ) + " cents due ("@ + text::decimal(tier.credit_bp as nat) + " bp of "@
                        + text::signed_decimal(m.charges_cents as int) + " cents charges)"@,
                ),
            )
        } else {
            None
        },
    }
}

/// What is to be said of those of the first `n` periods that land in a tier,
/// or of those that land in none.
pub open spec fn period_findings(
    periods: Seq<SlaMeasurement>,
    id: Seq<char>,
    tiers: Seq<SlaTier>,
    in_tier: bool,
    n: int,
) -> Seq<FindingView>
    decreases n,
{
    if n <= 0 {
        Seq::empty()
    } else {
        let before = period_findings(periods, id, tiers, in_tier, n - 1);
        match period_finding(periods[n - 1], id, tiers) {
            Some(f) if (tier_of(periods[n - 1].achieved_uptime_bp, tiers, 0) is Some)
                == in_tier => before.push(f),
            _ => before,
        }
    }
}

/// Tier and credit of the last of the first `n` periods that ends with the
/// latest and lands in a tier.
pub open spec fn snapshot(periods: Seq<SlaMeasurement>, tiers: Seq<SlaTier>, n: int) -> Option<
    (SlaTier, int),
>
    decreases n,
{
    if n <= 0 {
        None
    } else {
        let m = periods[n - 1];
        match tier_of(m.achieved_uptime_bp, tiers, 0) {
            Some(tier) if m.period_end.day() == periods.last().period_end.day() => Some(
                (tier, credit_of(m.charges_cents as int, tier.credit_bp as int)),
            ),
            _ => snapshot(periods, tiers, n - 1),
        }
    }
}

/// The warning where no period is recent enough.
pub open spec fn stale_findings(r: ObligationRecord, clock: int) -> Seq<FindingView> {
    if is_stale(periods_of(r), r.sla->0.window_days as int, clock) {
        seq![
            spine::note_of(
                rule_ids::SLA_STALE@,
                Severity::Warn,
                r.id@,
                "no SLA measurement within the last "@ + text::decimal(
                    r.sla->0.window_days as nat,
                ) + " days of the clock"@,
            ),
        ]
    } else {
        Seq::empty()
    }
}

/// What a service-level obligation adds to an evaluation: the credits due,
/// the breaches, and whether the measurements are stale.
pub open spec fn sla_entry(r: ObligationRecord, p: PolicyParams, clock: int) -> EntryView {
    let periods = periods_of(r);
    let tiers = p.sla_credit_tiers@;
    let last = snapshot(periods, tiers, periods.len() as int);
    EntryView {
        findings: period_findings(periods, r.id@, tiers, true, periods.len() as int)
            + period_findings(periods, r.id@, tiers, false, periods.len() as int)
            + stale_findings(r, clock),
        resolution: ResolutionView {
            obligation_id: r.id@,
            kind: ResolutionKind::Sla,
            counterparty: r.counterparty@,
            base: None,
            due: None,
            days_remaining: None,
            roll_applied: false,
            tier_min_uptime_bp: match last {
                Some((tier, _)) => Some(tier.min_uptime_bp),
                None => None,
            },
            credit_cents: match last {
                Some((_, credit)) => Some(credit),
                None => None,
            },
        },
    }
}

pub struct PeriodOrder {}

impl Order<SlaMeasurement> for PeriodOrder {
    open spec fn lt(&self, a: SlaMeasurement, b: SlaMeasurement) -> bool {
        period_lt(a, b)
    }

    fn before(&self, a: &SlaMeasurement, b: &SlaMeasurement) -> (r: bool) {
        let x: i32 = a.period_end.day_number();
        let y: i32 = b.period_end.day_number();
        x < y || (x == y && a.period_start.day_number() < b.period_start.day_number())
    }
}

fn periods_in_order(record: &ObligationRecord) -> (r: Vec<SlaMeasurement>)
    ensures
        r@ == periods_of(*record),
{
    let mut copy: Vec<SlaMeasurement> = Vec::new();
    let mut i: usize = 0;
    while i < record.sla_measurements.len()
        invariant
            i <= record.sla_measurements.len(),
            copy@ == record.sla_measurements@.take(i as int),
        decreases record.sla_measurements.len() - i,
    {
        copy.push(record.sla_measurements[i]);
        proof {
            assert(record.sla_measurements@.take(i + 1) =~= record.sla_measurements@.take(
                i as int,
            ).push(record.sla_measurements@[i as int]));
        }
        i = i + 1;
    }
    assert(copy@ =~= record.sla_measurements@);
    let rule = PeriodOrder {  };
    assert(order::order_of(rule) =~= |a: SlaMeasurement, b: SlaMeasurement| period_lt(a, b));
    order::sort_by(copy, &rule)
}

/// Charges and credit rates that validation admits.
pub open spec fn charges_bounded(s: Seq<SlaMeasurement>) -> bool {
    forall|i: int|
        0 <= i < s.len() ==> 0 <= (#[trigger] s[i]).charges_cents <= model::MAX_MONEY_CENTS
}

pub open spec fn rates_bounded(tiers: Seq<SlaTier>) -> bool {
    forall|i: int| 0 <= i < tiers.len() ==> (#[trigger] tiers[i]).credit_bp <= model::MAX_CREDIT_BP
}

proof fn tier_is_listed(uptime: u64, tiers: Seq<SlaTier>, i: int)
    requires
        0 <= i,
        tier_of(uptime, tiers, i) is Some,
    ensures
        exists|k: int| i <= k < tiers.len() && #[trigger] tiers[k] == tier_of(uptime, tiers, i)->0,
    decreases tiers.len() - i,
{
    if i < tiers.len() && tiers[i].min_uptime_bp > uptime {
        tier_is_listed(uptime, tiers, i + 1);
    }
}

fn period_line(m: SlaMeasurement) -> (r: String)
    ensures
        r@ == period_text(m),
{
    let mut out = String::from_str("period ");
    out.append(m.period_start.text().as_str());
    out.append("..");
    out.append(m.period_end.text().as_str());
    out.append(" achieved ");
    out.append(text::unsigned_text(m.achieved_uptime_bp as u128).as_str());
    out
}

fn evaluate_period(m: SlaMeasurement, id: &str, tiers: &Vec<SlaTier>) -> (r: (
    Option<Finding>,
    Option<(SlaTier, i128)>,
))
    requires
        0 <= m.charges_cents <= model::MAX_MONEY_CENTS,
        rates_bounded(tiers@),
    ensures
        (match r.0 {
            Some(f) => period_finding(m, id@, tiers@) == Some(f@),
            None => period_finding(m, id@, tiers@) is None,
        }),
        (match r.1 {
            Some((tier, credit)) => tier_of(m.achieved_uptime_bp, tiers@, 0) == Some(tier)
                && credit == credit_of(m.charges_cents as int, tier.credit_bp as int),
            None => tier_of(m.achieved_uptime_bp, tiers@, 0) is None,
        }),
{
    match tier_for(m.achieved_uptime_bp, tiers.as_slice()) {
        None => {
            let mut message = period_line(m);
            message.append(" bp, below every configured tier floor");
            (Some(Finding::breach(rule_ids::SLA_BREACH, id, message)), None)
        },
        Some(tier) => {
            proof {
                tier_is_listed(m.achieved_uptime_bp, tiers@, 0);
                let charges = m.charges_cents as int;
                let bp = tier.credit_bp as int;
                assert(0 <= charges * bp <= 1_000_000_000_000_000 * 10_000) by (nonlinear_arith)
                    requires
                        0 <= charges <= 1_000_000_000_000_000,
                        0 <= bp <= 10_000,
                ;
            }
            let credit: i128 = credit_cents(m.charges_cents, tier.credit_bp);
            if tier.credit_bp > 0 {
                let mut message = period_line(m);
                message.append(" bp: service credit of ");
                message.append(text::signed_text(credit).as_str());
                message.append(" cents due (");
                message.append(text::unsigned_text(tier.credit_bp as u128).as_str());
                message.append(" bp of ");
                message.append(text::signed_text(m.charges_cents).as_str());
                message.append(" cents charges)");
                (
                    Some(Finding::note(rule_ids::SLA_CREDIT_DUE, Severity::Warn, id, message)),
                    Some((tier, credit)),
                )
            } else {
                (None, Some((tier, credit)))
            }
        },
    }
}

fn evaluate_sla(
    record: &ObligationRecord,
    window_days: u32,
    params: &PolicyParams,
    clock: Date,
) -> (r: Entry)
    requires
        record.sla is Some,
        record.sla->0.window_days == window_days,
        charges_bounded(record.sla_measurements@),
        rates_bounded(params.sla_credit_tiers@),
    ensures
        r@ == sla_entry(*record, *params, clock.day()),
{
    let id = record.id.as_str();
    let tiers = &params.sla_credit_tiers;
    let periods = periods_in_order(record);
    let ghost all = periods@;
    proof {
        order::stable_sort_elements(
            record.sla_measurements@,
            |a: SlaMeasurement, b: SlaMeasurement| period_lt(a, b),
        );
        assert(charges_bounded(all)) by {
            assert forall|i: int| 0 <= i < all.len() implies 0 <= (
            #[trigger] all[i]).charges_cents <= model::MAX_MONEY_CENTS by {
                assert(all.contains(all[i]));
                let s = record.sla_measurements@;
                assert(s.contains(all[i]));
                let k = choose|k: int| 0 <= k < s.len() && s[k] == all[i];
                assert(0 <= s[k].charges_cents <= model::MAX_MONEY_CENTS);
            }
        }
    }
    let mut findings: Vec<Finding> = Vec::new();
    let mut breaches: Vec<Finding> = Vec::new();
    let mut last: Option<(SlaTier, i128)> = None;
    let mut i: usize = 0;
    proof {
        assert(spine::findings_view(findings@) =~= Seq::<FindingView>::empty());
        assert(spine::findings_view(breaches@) =~= Seq::<FindingView>::empty());
    }
    while i < periods.len()
        invariant
            i <= periods.len(),
            all == periods@,
            charges_bounded(all),
            rates_bounded(tiers@),
            spine::findings_view(findings@) == period_findings(all, id@, tiers@, true, i as int),
            spine::findings_view(breaches@) == period_findings(all, id@, tiers@, false, i as int),
            (match last {
                Some((tier, credit)) => snapshot(all, tiers@, i as int) == Some(
                    (tier, credit as int),
                ),
                None => snapshot(all, tiers@, i as int) is None,
            }),
        decreases periods.len() - i,
    {
        let m = periods[i];
        let (finding, landed) = evaluate_period(m, id, tiers);
        let in_tier = landed.is_some();
        if let Some(pair) = landed {
            if m.period_end.day_number() == periods[periods.len() - 1].period_end.day_number() {
                last = Some(pair);
            }
        }
        let ghost credited = findings@;
        let ghost breached = breaches@;
        if let Some(f) = finding {
            if in_tier {
                findings.push(f);
                assert(spine::findings_view(findings@) =~= spine::findings_view(credited).push(f@));
            } else {
                breaches.push(f);
                assert(spine::findings_view(breaches@) =~= spine::findings_view(breached).push(f@));
            }
        }
        i = i + 1;
    }
    let ghost credited = findings@;
    let ghost breached = breaches@;
    findings.append(&mut breaches);
    proof {
        assert(spine::findings_view(findings@) =~= spine::findings_view(credited)
            + spine::findings_view(breached));
    }
    let ghost told = findings@;
    let stale = if periods.len() == 0 {
        true
    } else {
        (periods[periods.len() - 1].period_end.day_number() as i64) < clock.day_number() as i64
            - window_days as i64
    };
    if stale {
        let mut message = String::from_str("no SLA measurement within the last ");
        message.append(text::unsigned_text(window_days as u128).as_str());
        message.append(" days of the clock");
        findings.push(Finding::note(rule_ids::SLA_STALE, Severity::Warn, id, message));
    }
    proof {
        assert(spine::findings_view(findings@) =~= spine::findings_view(told) + stale_findings(
            *record,
            clock.day(),
        ));
    }
    let resolution = DeadlineResolution {
        obligation_id: record.id.clone(),
        kind: ResolutionKind::Sla,
        counterparty: record.counterparty.clone(),
        base_date: None,
        due_date: None,
        days_remaining: None,
        roll_applied: false,
        tier_min_uptime_bp: match last {
            Some((tier, _)) => Some(tier.min_uptime_bp),
            None => None,
        },
        credit_cents: match last {
            Some((_, credit)) => Some(credit),
            None => None,
        },
    };
    Entry { findings, resolution }
}

// ---- the register ----

/// What the correction of an obligation is reported as.
pub open spec fn correction_findings(r: ObligationRecord) -> Seq<FindingView> {
    match r.supersedes {
        Some(v) => seq![
            spine::note_of(
                rule_ids::REGISTER_CORRECTION@,
                Severity::Info,
                r.id@,
                "append-only correction: version "@ + text::decimal(r.version as nat)
                    + " supersedes version "@ + text::decimal(v as nat)
                    + "; findings are computed against the latest version"@,
            ),
        ],
        None => Seq::empty(),
    }
}

/// What record `i` adds to an evaluation, by its type.
pub open spec fn entry_of(
    s: Seq<ObligationRecord>,
    p: PolicyParams,
    clock: int,
    i: int,
) -> Result<EntryView, FaultView> {
    match s[i].obligation_type {
        ObligationType::Sla => Ok(sla_entry(s[i], p, clock)),
        ObligationType::RenewalOptOut => renewal_entry(s[i], p, clock),
        _ => due_entry(s, p, clock, i),
    }
}

/// The evaluation of the first `n` obligations in the order of their ids,
/// each in its latest version.
pub open spec fn evaluated(
    s: Seq<ObligationRecord>,
    p: PolicyParams,
    clock: int,
    n: int,
) -> Result<EvaluationView, FaultView>
    decreases n,
{
    if n <= 0 {
        Ok(EvaluationView { findings: Seq::empty(), resolutions: Seq::empty() })
    } else {
        match evaluated(s, p, clock, n - 1) {
            Err(e) => Err(e),
            Ok(before) => {
                let i = model::latest_of(s, s.len() as int, model::ids_of(s)[n - 1])->0;
                match entry_of(s, p, clock, i) {
                    Err(e) => Err(e),
                    Ok(entry) => Ok(
                        EvaluationView {
                            findings: before.findings + correction_findings(s[i]) + entry.findings,
                            resolutions: before.resolutions.push(entry.resolution),
                        },
                    ),
                }
            },
        }
    }
}

/// The evaluation of a register at a clock, or why there is none.
pub open spec fn evaluation(s: Seq<ObligationRecord>, p: PolicyParams, clock: int) -> Result<
    EvaluationView,
    FaultView,
> {
    if clock < MIN_CLOCK || clock > MAX_DATE {
        Err(
            FaultView::Config(
                ConfigRefusal::InvalidParams(
                    "clock "@ + date::date_text(clock) + " outside the valid window "@
                        + date::date_text(MIN_CLOCK as int) + ".."@ + date::date_text(
                        MAX_DATE as int,
                    ),
                ),
            ),
        )
    } else {
        match model::register_error(s, p) {
            Some(e) => Err(FaultView::Config(e)),
            None => evaluated(s, p, clock, model::ids_of(s).len() as int),
        }
    }
}

/// What stops an evaluation stops it for good.
proof fn evaluated_stops(s: Seq<ObligationRecord>, p: PolicyParams, clock: int, m: int, n: int)
    requires
        0 <= m <= n,
        evaluated(s, p, clock, m) is Err,
    ensures
        evaluated(s, p, clock, n) == evaluated(s, p, clock, m),
    decreases n - m,
{
    if m < n {
        evaluated_stops(s, p, clock, m, n - 1);
    }
}

/// Every record of a valid register is valid on its own.
pub proof fn valid_records(s: Seq<ObligationRecord>, from: int, i: int)
    requires
        0 <= from <= i < s.len(),
        model::records_error(s, from) is None,
    ensures
        model::record_error(s[i]) is None,
        model::lineage_error(s, i) is None,
    decreases i - from,
{
    if from < i {
        valid_records(s, from + 1, i);
    }
}

proof fn valid_measurements(s: Seq<SlaMeasurement>, id: Seq<char>, from: int)
    requires
        0 <= from <= s.len(),
        model::measurements_error(s, id, from) is None,
    ensures
        forall|i: int|
            from <= i < s.len() ==> 0 <= (#[trigger] s[i]).charges_cents <= model::MAX_MONEY_CENTS,
    decreases s.len() - from,
{
    if from < s.len() {
        valid_measurements(s, id, from + 1);
        assert(model::measurement_error(s[from], id) is None);
        assert(0 <= s[from].charges_cents <= model::MAX_MONEY_CENTS);
    }
}

proof fn valid_tiers(s: Seq<SlaTier>, from: int)
    requires
        0 <= from <= s.len(),
        model::tier_bounds_errors(s, from) is None,
    ensures
        forall|i: int|
            from <= i < s.len() ==> (#[trigger] s[i]).credit_bp <= model::MAX_CREDIT_BP,
    decreases s.len() - from,
{
    if from < s.len() {
        valid_tiers(s, from + 1);
    }
}

/// Every id of the register's list is the id of a record.
pub proof fn listed_ids_exist(s: Seq<ObligationRecord>, k: int)
    requires
        0 <= k < model::ids_of(s).len(),
    ensures
        model::has_id(s, model::ids_of(s)[k]),
{
    let ids = s.map_values(|r: ObligationRecord| r.id@);
    text::ascending_holds(ids, k);
    let x = model::ids_of(s)[k];
    let j = choose|j: int| 0 <= j < ids.len() && ids[j] == x;
    assert(s[j].id@ == x);
}

fn evaluate_record(
    s: &Vec<ObligationRecord>,
    params: &PolicyParams,
    clock: Date,
    i: usize,
) -> (r: Result<Entry, Fault>)
    requires
        i < s.len(),
        model::record_error(s@[i as int]) is None,
        model::params_error(*params) is None,
    ensures
        (match r {
            Ok(entry) => entry_of(s@, *params, clock.day(), i as int) == Ok::<
                EntryView,
                FaultView,
            >(entry@),
            Err(e) => entry_of(s@, *params, clock.day(), i as int) == Err::<EntryView, FaultView>(
                e@,
            ),
        }),
{
    let record = &s[i];
    match record.obligation_type {
        ObligationType::Sla => {
            proof {
                valid_measurements(record.sla_measurements@, record.id@, 0);
                valid_tiers(params.sla_credit_tiers@, 0);
                assert(model::type_error(*record) is None);
            }
            match record.sla {
                Some(terms) => Ok(evaluate_sla(record, terms.window_days, params, clock)),
                None => Err(Fault::OffCalendar),
            }
        },
        ObligationType::RenewalOptOut => {
            assert(model::type_error(*record) is None);
            match record.renewal {
                Some(terms) => evaluate_renewal(record, terms, params, clock),
                None => Err(Fault::OffCalendar),
            }
        },
        _ => evaluate_due(s, params, clock, i),
    }
}

fn correction_notes(record: &ObligationRecord) -> (r: Vec<Finding>)
    ensures
        spine::findings_view(r@) == correction_findings(*record),
{
    let mut findings: Vec<Finding> = Vec::new();
    if let Some(v) = record.supersedes {
        let mut message = String::from_str("append-only correction: version ");
        message.append(text::unsigned_text(record.version as u128).as_str());
        message.append(" supersedes version ");
        message.append(text::unsigned_text(v as u128).as_str());
        message.append("; findings are computed against the latest version");
        findings.push(
            Finding::note(
                rule_ids::REGISTER_CORRECTION,
                Severity::Info,
                record.id.as_str(),
                message,
            ),
        );
    }
    assert(spine::findings_view(findings@) =~= correction_findings(*record));
    findings
}

/// Evaluate the register at a clock. Says so where a computed date lies
/// outside the calendar.
pub fn try_evaluate(inputs: &RegisterInputs, params: &PolicyParams, clock: Date) -> (r: Result<
    Evaluation,
    Fault,
>)
    ensures
        (match r {
            Ok(e) => evaluation(inputs.obligations@, *params, clock.day()) == Ok::<
                EvaluationView,
                FaultView,
            >(e@),
            Err(e) => evaluation(inputs.obligations@, *params, clock.day()) == Err::<
                EvaluationView,
                FaultView,
            >(e@),
        }),
{
    let number: i32 = clock.day_number();
    if number < MIN_CLOCK || number > MAX_DATE {
        let mut reason = String::from_str("clock ");
        reason.append(clock.text().as_str());
        reason.append(" outside the valid window ");
        reason.append(model::day_text(MIN_CLOCK).as_str());
        reason.append("..");
        reason.append(model::day_text(MAX_DATE).as_str());
        return Err(Fault::Config(ConfigError::InvalidParams(reason)));
    }
    match model::validate(inputs, params) {
        Ok(()) => {},
        Err(e) => return Err(Fault::Config(e)),
    }
    let s = &inputs.obligations;
    let ids = model::register_ids(s);
    let ghost all = model::ids_of(s@);
    let mut findings: Vec<Finding> = Vec::new();
    let mut resolutions: Vec<DeadlineResolution> = Vec::new();
    let mut n: usize = 0;
    proof {
        assert(spine::findings_view(findings@) =~= Seq::<FindingView>::empty());
        assert(resolutions_view(resolutions@) =~= Seq::<ResolutionView>::empty());
        assert(all.len() == ids.len());
    }
    while n < ids.len()
        invariant
            n <= ids.len(),
            s@ == inputs.obligations@,
            all == model::ids_of(s@),
            all == text::texts(ids@),
            all.len() == ids.len(),
            model::register_error(s@, *params) is None,
            MIN_CLOCK <= clock.day() <= MAX_DATE,
            evaluated(s@, *params, clock.day(), n as int) == Ok::<EvaluationView, FaultView>(
                EvaluationView {
                    findings: spine::findings_view(findings@),
                    resolutions: resolutions_view(resolutions@),
                },
            ),
        decreases ids.len() - n,
    {
        proof {
            listed_ids_exist(s@, n as int);
            assert(all[n as int] == ids@[n as int]@);
        }
        let i = match model::latest(s, s.len(), ids[n].as_str()) {
            Some(i) => i,
            None => {
                proof {
                    let k = choose|k: int| 0 <= k < s.len() && (#[trigger] s@[k]).id@ == all[n as int];
                    assert(s@[k].id@ != ids@[n as int]@);
                }
                return Err(Fault::OffCalendar);
            },
        };
        proof {
            valid_records(s@, 0, i as int);
        }
        match evaluate_record(s, params, clock, i) {
            Err(e) => {
                proof {
                    evaluated_stops(s@, *params, clock.day(), n + 1, all.len() as int);
                }
                return Err(e);
            },
            Ok(entry) => {
                let ghost was = findings@;
                let ghost before = resolutions@;
                let mut notes = correction_notes(&s[i]);
                let ghost corrections = notes@;
                let Entry { findings: mut more, resolution } = entry;
                let ghost added = more@;
                findings.append(&mut notes);
                findings.append(&mut more);
                resolutions.push(resolution);
                proof {
                    assert(findings@ =~= was + corrections + added);
                    assert(spine::findings_view(findings@) =~= spine::findings_view(was)
                        + spine::findings_view(corrections) + spine::findings_view(added));
                    assert(resolutions_view(resolutions@) =~= resolutions_view(before).push(
                        resolution@,
                    ));
                }
            },
        }
        n = n + 1;
    }
    Ok(Evaluation { findings, resolutions })
}

/// Evaluate the register at a clock. A register or a policy that does not
/// validate gives an error and no findings. Obligations come in the order of
/// their ids, each in its latest version.
pub fn evaluate(inputs: &RegisterInputs, params: &PolicyParams, clock: Date) -> (r: Result<
    Evaluation,
    ConfigError,
>)
    requires
        evaluation(inputs.obligations@, *params, clock.day()) != Err::<EvaluationView, FaultView>(
            FaultView::OffCalendar,
        ),
    ensures
        (match r {
            Ok(e) => evaluation(inputs.obligations@, *params, clock.day()) == Ok::<
                EvaluationView,
                FaultView,
            >(e@),
            Err(e) => evaluation(inputs.obligations@, *params, clock.day()) == Err::<
                EvaluationView,
                FaultView,
            >(FaultView::Config(e@)),
        }),
{
    match try_evaluate(inputs, params, clock) {
        Ok(e) => Ok(e),
        Err(Fault::Config(e)) => Err(e),
        Err(Fault::OffCalendar) => Err(ConfigError::InvalidParams(String::new())),
    }
}

} // verus!
