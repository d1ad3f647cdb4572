//! The obligation register, the policy, and their validation.

use vstd::prelude::*;
use vstd::string::StrSliceExecFns;
use vstd::string::StringExecFns;

use crate::date;
use crate::date::Date;
use crate::table::Table;
use crate::text;

verus! {

/// The last day that a date of the register or the policy may name:
/// 2999-12-31, as a day number.
pub const MAX_DATE: i32 = 1_095_362;

/// The first day that the clock may show: 1970-01-01, as a day number.
pub const MIN_CLOCK: i32 = 719_163;

/// Largest amount of money, in cents.
pub const MAX_MONEY_CENTS: i128 = 1_000_000_000_000_000;

/// Largest number of days in a window, a notice period, or an offset.
pub const MAX_DAY_SPAN: u32 = 3_660;

/// Largest number of months in an offset.
pub const MAX_MONTH_OFFSET: u32 = 120;

/// Full uptime, in basis points.
pub const MAX_UPTIME_BP: u64 = 10_000;

/// Credit of the whole charge, in basis points.
pub const MAX_CREDIT_BP: u64 = 10_000;

/// Why a register or a policy is refused.
#[derive(Debug, Clone, PartialEq, Eq)]
pub enum ConfigError {
    InvalidParams(String),
    InvalidRegister(String),
    InvalidObligation { id: String, reason: String },
    InvalidAnchor { id: String, anchor_id: String, reason: String },
    InvalidCalendar { jurisdiction: String, reason: String },
    NoBusinessDay { jurisdiction: String, from: String },
}

/// What a [`ConfigError`] says.
pub enum ConfigRefusal {
    InvalidParams(Seq<char>),
    InvalidRegister(Seq<char>),
    InvalidObligation { id: Seq<char>, reason: Seq<char> },
    InvalidAnchor { id: Seq<char>, anchor_id: Seq<char>, reason: Seq<char> },
    InvalidCalendar { jurisdiction: Seq<char>, reason: Seq<char> },
    NoBusinessDay { jurisdiction: Seq<char>, from: Seq<char> },
}

impl View for ConfigError {
    type V = ConfigRefusal;

    open spec fn view(&self) -> ConfigRefusal {
        match self {
            ConfigError::InvalidParams(reason) => ConfigRefusal::InvalidParams(reason@),
            ConfigError::InvalidRegister(reason) => ConfigRefusal::InvalidRegister(reason@),
            ConfigError::InvalidObligation { id, reason } => ConfigRefusal::InvalidObligation {
                id: id@,
                reason: reason@,
            },
            ConfigError::InvalidAnchor { id, anchor_id, reason } => ConfigRefusal::InvalidAnchor {
                id: id@,
                anchor_id: anchor_id@,
                reason: reason@,
            },
            ConfigError::InvalidCalendar { jurisdiction, reason } => {
                ConfigRefusal::InvalidCalendar { jurisdiction: jurisdiction@, reason: reason@ }
            },
            ConfigError::NoBusinessDay { jurisdiction, from } => ConfigRefusal::NoBusinessDay {
                jurisdiction: jurisdiction@,
                from: from@,
            },
        }
    }
}

/// A refusal as a line of text.
pub open spec fn refusal_text(e: ConfigRefusal) -> Seq<char> {
    match e {
        ConfigRefusal::InvalidParams(reason) => "params: "@ + reason,
        ConfigRefusal::InvalidRegister(reason) => "register: "@ + reason,
        ConfigRefusal::InvalidObligation { id, reason } => "obligation "@ + id + ": "@ + reason,
        ConfigRefusal::InvalidAnchor { id, anchor_id, reason } => "obligation "@ + id
            + ": anchor "@ + anchor_id + ": "@ + reason,
        ConfigRefusal::InvalidCalendar { jurisdiction, reason } => "calendar "@ + jurisdiction
            + ": "@ + reason,
        ConfigRefusal::NoBusinessDay { jurisdiction, from } => "no business day on or after "@
            + from + " within one year in calendar "@ + jurisdiction,
    }
}

impl ConfigError {
    /// The error as a line of text.
    pub fn message(&self) -> (r: String)
        ensures
            r@ == refusal_text(self@),
    {
        match self {
            ConfigError::InvalidParams(reason) => {
                let mut out = String::from_str("params: ");
                out.append(reason.as_str());
                out
            },
            ConfigError::InvalidRegister(reason) => {
                let mut out = String::from_str("register: ");
                out.append(reason.as_str());
                out
            },
            ConfigError::InvalidObligation { id, reason } => {
                let mut out = String::from_str("obligation ");
                out.append(id.as_str());
                out.append(": ");
                out.append(reason.as_str());
                out
            },
            ConfigError::InvalidAnchor { id, anchor_id, reason } => {
                let mut out = String::from_str("obligation ");
                out.append(id.as_str());
                out.append(": anchor ");
                out.append(anchor_id.as_str());
                out.append(": ");
                out.append(reason.as_str());
                out
            },
            ConfigError::InvalidCalendar { jurisdiction, reason } => {
                let mut out = String::from_str("calendar ");
                out.append(jurisdiction.as_str());
                out.append(": ");
                out.append(reason.as_str());
                out
            },
            ConfigError::NoBusinessDay { jurisdiction, from } => {
                let mut out = String::from_str("no business day on or after ");
                out.append(from.as_str());
                out.append(" within one year in calendar ");
                out.append(jurisdiction.as_str());
                out
            },
        }
    }
}

/// What an obligation obliges to.
#[derive(Debug, Clone, Copy, PartialEq, Eq, Structural)]
pub enum ObligationType {
    Payment,
    Delivery,
    Sla,
    TerminationForConvenience,
    Indemnity,
    RenewalOptOut,
}

/// The event on an anchor obligation that starts a dependent clock.
#[derive(Debug, Clone, Copy, PartialEq, Eq, Structural)]
pub enum AnchorEvent {
    /// The anchor's computed due date.
    Due,
    /// The day on which the anchor was completed; pending until recorded.
    Completed,
}

/// Where a due date comes from.
#[derive(Debug, Clone, PartialEq, Eq)]
pub enum DateSpec {
    /// A date that the contract states; never rolled.
    Explicit { date: Date },
    /// The anchor's date, shifted by months (clamped to the month's end),
    /// by days, and rolled to a business day.
    Dependent {
        anchor_id: String,
        anchor_event: AnchorEvent,
        offset_days: u32,
        offset_months: u32,
    },
}

/// Renewal terms. The opt-out deadline is `notice_days` before the renewal.
#[derive(Debug, Clone, Copy, PartialEq, Eq, Structural)]
pub struct RenewalTerms {
    pub renewal_date: Date,
    pub notice_days: u32,
    pub auto_renew: bool,
    pub opted_out: bool,
}

/// Service-level terms.
#[derive(Debug, Clone, Copy, PartialEq, Eq, Structural)]
pub struct SlaTerms {
    /// Length of a measurement period in days.
    pub window_days: u32,
}

/// One measured period: uptime in basis points, charges in cents.
#[derive(Debug, Clone, Copy, PartialEq, Eq, Structural)]
pub struct SlaMeasurement {
    pub period_start: Date,
    pub period_end: Date,
    pub achieved_uptime_bp: u64,
    pub charges_cents: i128,
}

/// One version of an obligation. The register is append-only: a correction
/// is a further record that names the version it supersedes.
#[derive(Debug, Clone, PartialEq, Eq)]
pub struct ObligationRecord {
    pub id: String,
    pub version: u64,
    /// The version that this record corrects.
    pub supersedes: Option<u64>,
    pub counterparty: String,
    pub obligation_type: ObligationType,
    /// The calendar by which computed dates roll.
    pub jurisdiction: Option<String>,
    pub due: Option<DateSpec>,
    /// Exposure in cents.
    pub amount_cents: Option<i128>,
    pub satisfied_on: Option<Date>,
    /// When the obligation was completed, for records anchored to it.
    pub completed_on: Option<Date>,
    pub renewal: Option<RenewalTerms>,
    pub sla: Option<SlaTerms>,
    pub sla_measurements: Vec<SlaMeasurement>,
}

/// What a [`DateSpec`] says.
#[verifier::ext_equal]
pub enum DateSpecView {
    Explicit { date: Date },
    Dependent {
        anchor_id: Seq<char>,
        anchor_event: AnchorEvent,
        offset_days: u32,
        offset_months: u32,
    },
}

impl View for DateSpec {
    type V = DateSpecView;

    open spec fn view(&self) -> DateSpecView {
        match self {
            DateSpec::Explicit { date } => DateSpecView::Explicit { date: *date },
            DateSpec::Dependent { anchor_id, anchor_event, offset_days, offset_months } =>
                DateSpecView::Dependent {
                anchor_id: anchor_id@,
                anchor_event: *anchor_event,
                offset_days: *offset_days,
                offset_months: *offset_months,
            },
        }
    }
}

/// What an [`ObligationRecord`] says.
#[verifier::ext_equal]
pub struct RecordView {
    pub id: Seq<char>,
    pub version: u64,
    pub supersedes: Option<u64>,
    pub counterparty: Seq<char>,
    pub obligation_type: ObligationType,
    pub jurisdiction: Option<Seq<char>>,
    pub due: Option<DateSpecView>,
    pub amount_cents: Option<i128>,
    pub satisfied_on: Option<Date>,
    pub completed_on: Option<Date>,
    pub renewal: Option<RenewalTerms>,
    pub sla: Option<SlaTerms>,
    pub sla_measurements: Seq<SlaMeasurement>,
}

impl View for ObligationRecord {
    type V = RecordView;

    open spec fn view(&self) -> RecordView {
        RecordView {
            id: self.id@,
            version: self.version,
            supersedes: self.supersedes,
            counterparty: self.counterparty@,
            obligation_type: self.obligation_type,
            jurisdiction: match self.jurisdiction {
                Some(j) => Some(j@),
                None => None,
            },
            due: match self.due {
                Some(d) => Some(d@),
                None => None,
            },
            amount_cents: self.amount_cents,
            satisfied_on: self.satisfied_on,
            completed_on: self.completed_on,
            renewal: self.renewal,
            sla: self.sla,
            sla_measurements: self.sla_measurements@,
        }
    }
}

/// The register.
#[derive(Debug, Clone, PartialEq, Eq)]
pub struct RegisterInputs {
    pub obligations: Vec<ObligationRecord>,
}

/// Whether computed dates roll to business days.
#[derive(Debug, Clone, Copy, PartialEq, Eq, Structural)]
pub enum RollMode {
    /// Computed dates stand as computed.
    Raw,
    /// A computed date on a weekend or holiday moves to the next business
    /// day.
    Forward,
}

/// A jurisdiction's calendar: weekend day names and holidays.
#[derive(Debug, Clone, PartialEq, Eq)]
pub struct Calendar {
    pub weekend: Vec<String>,
    pub holidays: Vec<Date>,
}

/// One tier of service credits.
#[derive(Debug, Clone, Copy, PartialEq, Eq, Structural)]
pub struct SlaTier {
    /// Least uptime that lands in the tier.
    pub min_uptime_bp: u64,
    /// Credit in basis points of the period's charges.
    pub credit_bp: u64,
}

/// The policy: warn windows, roll mode, calendars, and credit tiers.
#[derive(Debug, Clone, PartialEq, Eq)]
pub struct PolicyParams {
    pub warn_days_before_due: u32,
    pub warn_days_before_optout: u32,
    pub business_day_roll: RollMode,
    pub calendars: Table<Calendar>,
    pub sla_credit_tiers: Vec<SlaTier>,
}

/// The first of two complaints, if any.
pub open spec fn either(a: Option<ConfigRefusal>, b: Option<ConfigRefusal>) -> Option<
    ConfigRefusal,
> {
    if a is Some {
        a
    } else {
        b
    }
}

pub open spec fn bad_params(reason: Seq<char>) -> Option<ConfigRefusal> {
    Some(ConfigRefusal::InvalidParams(reason))
}

pub open spec fn bad_register(reason: Seq<char>) -> Option<ConfigRefusal> {
    Some(ConfigRefusal::InvalidRegister(reason))
}

pub open spec fn bad_obligation(id: Seq<char>, reason: Seq<char>) -> Option<ConfigRefusal> {
    Some(ConfigRefusal::InvalidObligation { id, reason })
}

pub open spec fn bad_calendar(jurisdiction: Seq<char>, reason: Seq<char>) -> Option<ConfigRefusal> {
    Some(ConfigRefusal::InvalidCalendar { jurisdiction, reason })
}

fn obligation_error(id: &str, reason: String) -> (r: ConfigError)
    ensures
        Some(r@) == bad_obligation(id@, reason@),
{
    ConfigError::InvalidObligation { id: String::from_str(id), reason }
}

/// The text of a day number.
pub fn day_text(day: i32) -> (r: String)
    requires
        date::MIN_DAY <= day <= date::MAX_DAY,
    ensures
        r@ == date::date_text(day as int),
{
    match Date::from_day_number(day as i64) {
        Some(d) => d.text(),
        None => String::new(),
    }
}

pub open spec fn date_error(day: int, what: Seq<char>, id: Seq<char>) -> Option<ConfigRefusal> {
    if day > MAX_DATE {
        bad_obligation(
            id,
            what + " "@ + date::date_text(day) + " after the valid window end "@ + date::date_text(
                MAX_DATE as int,
            ),
        )
    } else {
        None
    }
}

fn check_date(d: Date, what: &str, id: &str) -> (r: Result<(), ConfigError>)
    ensures
        (match r {
            Ok(()) => date_error(d.day(), what@, id@) is None,
            Err(e) => date_error(d.day(), what@, id@) == Some(e@),
        }),
{
    if d.day_number() > MAX_DATE {
        let mut reason = String::from_str(what);
        reason.append(" ");
        reason.append(d.text().as_str());
        reason.append(" after the valid window end ");
        reason.append(day_text(MAX_DATE).as_str());
        return Err(obligation_error(id, reason));
    }
    Ok(())
}

pub open spec fn money_error(v: int, what: Seq<char>, id: Seq<char>) -> Option<ConfigRefusal> {
    if 0 <= v <= MAX_MONEY_CENTS {
        None
    } else {
        bad_obligation(
            id,
            what + " "@ + text::signed_decimal(v) + " outside the valid range 0..="@
                + text::signed_decimal(MAX_MONEY_CENTS as int),
        )
    }
}

fn check_money(v: i128, what: &str, id: &str) -> (r: Result<(), ConfigError>)
    ensures
        (match r {
            Ok(()) => money_error(v as int, what@, id@) is None,
            Err(e) => money_error(v as int, what@, id@) == Some(e@),
        }),
{
    if v < 0 || v > MAX_MONEY_CENTS {
        let mut reason = String::from_str(what);
        reason.append(" ");
        reason.append(text::signed_text(v).as_str());
        reason.append(" outside the valid range 0..=");
        reason.append(text::signed_text(MAX_MONEY_CENTS).as_str());
        return Err(obligation_error(id, reason));
    }
    Ok(())
}

pub open spec fn span_error(v: u32, what: Seq<char>, id: Seq<char>) -> Option<ConfigRefusal> {
    if v > MAX_DAY_SPAN {
        bad_obligation(
            id,
            what + " "@ + text::decimal(v as nat) + " exceeds the maximum "@ + text::decimal(
                MAX_DAY_SPAN as nat,
            ) + " days"@,
        )
    } else {
        None
    }
}

fn check_day_span(v: u32, what: &str, id: &str) -> (r: Result<(), ConfigError>)
    ensures
        (match r {
            Ok(()) => span_error(v, what@, id@) is None,
            Err(e) => span_error(v, what@, id@) == Some(e@),
        }),
{
    if v > MAX_DAY_SPAN {
        let mut reason = String::from_str(what);
        reason.append(" ");
        reason.append(text::unsigned_text(v as u128).as_str());
        reason.append(" exceeds the maximum ");
        reason.append(text::unsigned_text(MAX_DAY_SPAN as u128).as_str());
        reason.append(" days");
        return Err(obligation_error(id, reason));
    }
    Ok(())
}

// ---- the policy ----

/// Whether no tier stands above one with a higher threshold.
pub open spec fn tiers_descend(s: Seq<SlaTier>) -> bool {
    forall|i: int, j: int|
        0 <= i < j < s.len() ==> (#[trigger] s[i]).min_uptime_bp >= (
        #[trigger] s[j]).min_uptime_bp
}

pub open spec fn tier_bounds_error(t: SlaTier) -> Option<ConfigRefusal> {
    if t.min_uptime_bp > MAX_UPTIME_BP {
        bad_params(
            "tier min_uptime_bp "@ + text::decimal(t.min_uptime_bp as nat) + " exceeds "@
                + text::decimal(MAX_UPTIME_BP as nat),
        )
    } else if t.credit_bp > MAX_CREDIT_BP {
        bad_params(
            "tier credit_bp "@ + text::decimal(t.credit_bp as nat) + " exceeds "@ + text::decimal(
                MAX_CREDIT_BP as nat,
            ),
        )
    } else {
        None
    }
}

pub open spec fn tier_bounds_errors(s: Seq<SlaTier>, i: int) -> Option<ConfigRefusal>
    decreases s.len() - i,
{
    if 0 <= i < s.len() {
        either(tier_bounds_error(s[i]), tier_bounds_errors(s, i + 1))
    } else {
        None
    }
}

/// Whether a later tier has the threshold of tier `i`.
pub open spec fn threshold_recurs(s: Seq<SlaTier>, i: int) -> bool {
    exists|j: int| i < j < s.len() && (#[trigger] s[j]).min_uptime_bp == s[i].min_uptime_bp
}

pub open spec fn tier_repeats_error(s: Seq<SlaTier>, i: int) -> Option<ConfigRefusal>
    decreases s.len() - i,
{
    if 0 <= i < s.len() {
        if threshold_recurs(s, i) {
            bad_params(
                "sla_credit_tiers contains duplicate min_uptime_bp "@ + text::decimal(
                    s[i].min_uptime_bp as nat,
                ),
            )
        } else {
            tier_repeats_error(s, i + 1)
        }
    } else {
        None
    }
}

pub open spec fn is_weekday_name(s: Seq<char>) -> bool {
    s == "mon"@ || s == "tue"@ || s == "wed"@ || s == "thu"@ || s == "fri"@ || s == "sat"@ || s
        == "sun"@
}

pub open spec fn weekend_error(jurisdiction: Seq<char>, names: Seq<String>, i: int) -> Option<
    ConfigRefusal,
>
    decreases names.len() - i,
{
    if 0 <= i < names.len() {
        if is_weekday_name(names[i]@) {
            weekend_error(jurisdiction, names, i + 1)
        } else {
            bad_calendar(
                jurisdiction,
                "unknown weekend day name '"@ + names[i]@ + "' (expected mon..sun)"@,
            )
        }
    } else {
        None
    }
}

pub open spec fn holidays_error(jurisdiction: Seq<char>, days: Seq<Date>, i: int) -> Option<
    ConfigRefusal,
>
    decreases days.len() - i,
{
    if 0 <= i < days.len() {
        if days[i].day() > MAX_DATE {
            bad_calendar(
                jurisdiction,
                "holiday "@ + date::date_text(days[i].day()) + " after the valid date window"@,
            )
        } else {
            holidays_error(jurisdiction, days, i + 1)
        }
    } else {
        None
    }
}

pub open spec fn calendars_error(t: Table<Calendar>, i: int) -> Option<ConfigRefusal>
    decreases t.keys().len() - i,
{
    if 0 <= i < t.keys().len() {
        either(
            weekend_error(t.keys()[i], t.values()[i].weekend@, 0),
            either(
                holidays_error(t.keys()[i], t.values()[i].holidays@, 0),
                calendars_error(t, i + 1),
            ),
        )
    } else {
        None
    }
}

/// What is wrong with a policy, if anything.
pub open spec fn params_error(p: PolicyParams) -> Option<ConfigRefusal> {
    let tiers = p.sla_credit_tiers@;
    if p.warn_days_before_due > MAX_DAY_SPAN || p.warn_days_before_optout > MAX_DAY_SPAN {
        bad_params("warn windows exceed the maximum day span"@)
    } else if tiers.len() == 0 {
        bad_params(
            "sla_credit_tiers must not be empty: with no tiers every measured period would be a breach, which is a config error, not a policy"@,
        )
    } else if !tiers_descend(tiers) {
        bad_params("sla_credit_tiers must be strictly descending by min_uptime_bp"@)
    } else {
        either(
            tier_bounds_errors(tiers, 0),
            either(tier_repeats_error(tiers, 0), calendars_error(p.calendars, 0)),
        )
    }
}

fn descending(tiers: &Vec<SlaTier>) -> (r: bool)
    ensures
        r == tiers_descend(tiers@),
{
    let mut i: usize = 1;
    while i < tiers.len()
        invariant
            1 <= i,
            i <= tiers.len() || tiers.len() == 0,
            forall|a: int, b: int|
                0 <= a < b < i && b < tiers.len() ==> (#[trigger] tiers@[a]).min_uptime_bp >= (
                #[trigger] tiers@[b]).min_uptime_bp,
        decreases tiers.len() - i,
    {
        if tiers[i - 1].min_uptime_bp < tiers[i].min_uptime_bp {
            return false;
        }
        assert forall|a: int, b: int| 0 <= a < b < i + 1 && b < tiers.len() implies (
        #[trigger] tiers@[a]).min_uptime_bp >= (#[trigger] tiers@[b]).min_uptime_bp by {
            if b == i && a < i - 1 {
                assert(tiers@[a].min_uptime_bp >= tiers@[i - 1].min_uptime_bp);
            }
        }
        i = i + 1;
    }
    true
}

fn check_tier_bounds(tiers: &Vec<SlaTier>) -> (r: Result<(), ConfigError>)
    ensures
        (match r {
            Ok(()) => tier_bounds_errors(tiers@, 0) is None,
            Err(e) => tier_bounds_errors(tiers@, 0) == Some(e@),
        }),
{
    let mut i: usize = 0;
    while i < tiers.len()
        invariant
            i <= tiers.len(),
            tier_bounds_errors(tiers@, 0) == tier_bounds_errors(tiers@, i as int),
        decreases tiers.len() - i,
    {
        let t = tiers[i];
        if t.min_uptime_bp > MAX_UPTIME_BP {
            let mut reason = String::from_str("tier min_uptime_bp ");
            reason.append(text::unsigned_text(t.min_uptime_bp as u128).as_str());
            reason.append(" exceeds ");
            reason.append(text::unsigned_text(MAX_UPTIME_BP as u128).as_str());
            return Err(ConfigError::InvalidParams(reason));
        }
        if t.credit_bp > MAX_CREDIT_BP {
            let mut reason = String::from_str("tier credit_bp ");
            reason.append(text::unsigned_text(t.credit_bp as u128).as_str());
            reason.append(" exceeds ");
            reason.append(text::unsigned_text(MAX_CREDIT_BP as u128).as_str());
            return Err(ConfigError::InvalidParams(reason));
        }
        i = i + 1;
    }
    Ok(())
}

fn check_tier_repeats(tiers: &Vec<SlaTier>) -> (r: Result<(), ConfigError>)
    ensures
        (match r {
            Ok(()) => tier_repeats_error(tiers@, 0) is None,
            Err(e) => tier_repeats_error(tiers@, 0) == Some(e@),
        }),
{
    let mut i: usize = 0;
    while i < tiers.len()
        invariant
            i <= tiers.len(),
            tier_repeats_error(tiers@, 0) == tier_repeats_error(tiers@, i as int),
        decreases tiers.len() - i,
    {
        let mut j: usize = i + 1;
        while j < tiers.len()
            invariant
                i < j <= tiers.len(),
                tier_repeats_error(tiers@, 0) == tier_repeats_error(tiers@, i as int),
                forall|k: int|
                    i < k < j ==> (#[trigger] tiers@[k]).min_uptime_bp != tiers@[i as int].min_uptime_bp,
            decreases tiers.len() - j,
        {
            if tiers[i].min_uptime_bp == tiers[j].min_uptime_bp {
                assert(threshold_recurs(tiers@, i as int));
                let mut reason = String::from_str(
                    "sla_credit_tiers contains duplicate min_uptime_bp ",
                );
                reason.append(text::unsigned_text(tiers[i].min_uptime_bp as u128).as_str());
                return Err(ConfigError::InvalidParams(reason));
            }
            j = j + 1;
        }
        assert(!threshold_recurs(tiers@, i as int));
        i = i + 1;
    }
    Ok(())
}

fn weekday_known(name: &str) -> (r: bool)
    ensures
        r == is_weekday_name(name@),
{
    text::same_text(name, "mon") || text::same_text(name, "tue") || text::same_text(name, "wed")
        || text::same_text(name, "thu") || text::same_text(name, "fri") || text::same_text(
        name,
        "sat",
    ) || text::same_text(name, "sun")
}

fn check_calendar(jurisdiction: &str, cal: &Calendar) -> (r: Result<(), ConfigError>)
    ensures
        ({
            let wrong = either(
                weekend_error(jurisdiction@, cal.weekend@, 0),
                holidays_error(jurisdiction@, cal.holidays@, 0),
            );
            match r {
                Ok(()) => wrong is None,
                Err(e) => wrong == Some(e@),
            }
        }),
{
    let mut i: usize = 0;
    while i < cal.weekend.len()
        invariant
            i <= cal.weekend.len(),
            weekend_error(jurisdiction@, cal.weekend@, 0) == weekend_error(
                jurisdiction@,
                cal.weekend@,
                i as int,
            ),
        decreases cal.weekend.len() - i,
    {
        let name = &cal.weekend[i];
        if !weekday_known(name.as_str()) {
            let mut reason = String::from_str("unknown weekend day name '");
            reason.append(name.as_str());
            reason.append("' (expected mon..sun)");
            return Err(
                ConfigError::InvalidCalendar { jurisdiction: String::from_str(jurisdiction), reason },
            );
        }
        i = i + 1;
    }
    let mut i: usize = 0;
    while i < cal.holidays.len()
        invariant
            i <= cal.holidays.len(),
            weekend_error(jurisdiction@, cal.weekend@, 0) is None,
            holidays_error(jurisdiction@, cal.holidays@, 0) == holidays_error(
                jurisdiction@,
                cal.holidays@,
                i as int,
            ),
        decreases cal.holidays.len() - i,
    {
        let day = cal.holidays[i];
        if day.day_number() > MAX_DATE {
            let mut reason = String::from_str("holiday ");
            reason.append(day.text().as_str());
            reason.append(" after the valid date window");
            return Err(
                ConfigError::InvalidCalendar { jurisdiction: String::from_str(jurisdiction), reason },
            );
        }
        i = i + 1;
    }
    Ok(())
}

/// Refuse a policy that is out of bounds or ambiguous.
pub fn validate_params(params: &PolicyParams) -> (r: Result<(), ConfigError>)
    ensures
        (match r {
            Ok(()) => params_error(*params) is None,
            Err(e) => params_error(*params) == Some(e@),
        }),
{
    if params.warn_days_before_due > MAX_DAY_SPAN || params.warn_days_before_optout > MAX_DAY_SPAN {
        return Err(
            ConfigError::InvalidParams(
                String::from_str("warn windows exceed the maximum day span"),
            ),
        );
    }
    if params.sla_credit_tiers.len() == 0 {
        return Err(
            ConfigError::InvalidParams(
                String::from_str(
                    "sla_credit_tiers must not be empty: with no tiers every measured period would be a breach, which is a config error, not a policy",
                ),
            ),
        );
    }
    if !descending(&params.sla_credit_tiers) {
        return Err(
            ConfigError::InvalidParams(
                String::from_str("sla_credit_tiers must be strictly descending by min_uptime_bp"),
            ),
        );
    }
    match check_tier_bounds(&params.sla_credit_tiers) {
        Ok(()) => {},
        Err(e) => return Err(e),
    }
    match check_tier_repeats(&params.sla_credit_tiers) {
        Ok(()) => {},
        Err(e) => return Err(e),
    }
    let count: usize = params.calendars.len();
    let mut i: usize = 0;
    while i < count
        invariant
            i <= count,
            count == params.calendars.keys().len(),
            params_error(*params) == calendars_error(params.calendars, i as int),
        decreases count - i,
    {
        match check_calendar(params.calendars.key(i), params.calendars.value(i)) {
            Ok(()) => {},
            Err(e) => return Err(e),
        }
        i = i + 1;
    }
    Ok(())
}

// ---- one record ----

pub open spec fn head_error(r: ObligationRecord) -> Option<ConfigRefusal> {
    let id = r.id@;
    if text::is_blank(id) {
        bad_obligation(id, "obligation id must not be empty"@)
    } else if text::is_blank(r.counterparty@) {
        bad_obligation(id, "counterparty must not be empty"@)
    } else if r.version == 0 {
        bad_obligation(id, "version must be at least 1"@)
    } else if r.supersedes is Some && r.supersedes->0 >= r.version {
        bad_obligation(
            id,
            "supersedes "@ + text::decimal(r.supersedes->0 as nat)
                + " must be below this record's version "@ + text::decimal(r.version as nat),
        )
    } else if r.amount_cents is Some {
        money_error(r.amount_cents->0 as int, "amount_cents"@, id)
    } else {
        None
    }
}

/// Whether the terms fit the obligation's type.
pub open spec fn type_error(r: ObligationRecord) -> Option<ConfigRefusal> {
    let id = r.id@;
    match r.obligation_type {
        ObligationType::Sla => if r.sla is None {
            bad_obligation(id, "sla obligations must carry an sla terms block"@)
        } else if r.due is Some {
            bad_obligation(id, "sla obligations must not carry a due date spec"@)
        } else {
            None
        },
        ObligationType::RenewalOptOut => if r.renewal is None {
            bad_obligation(id, "renewal_opt_out obligations must carry a renewal terms block"@)
        } else if r.due is Some {
            bad_obligation(id, "renewal_opt_out obligations must not carry a due date spec"@)
        } else {
            None
        },
        _ => if r.renewal is Some || r.sla is Some {
            bad_obligation(
                id,
                "only sla / renewal_opt_out obligations carry sla or renewal terms"@,
            )
        } else if r.sla_measurements.len() > 0 {
            bad_obligation(id, "sla_measurements are only valid on sla obligations"@)
        } else {
            None
        },
    }
}

pub open spec fn terms_error(r: ObligationRecord) -> Option<ConfigRefusal> {
    let id = r.id@;
    either(
        if r.renewal is Some {
            either(
                date_error(r.renewal->0.renewal_date.day(), "renewal_date"@, id),
                span_error(r.renewal->0.notice_days, "notice_days"@, id),
            )
        } else {
            None
        },
        if r.sla is Some {
            span_error(r.sla->0.window_days, "sla window_days"@, id)
        } else {
            None
        },
    )
}

pub open spec fn measurement_error(m: SlaMeasurement, id: Seq<char>) -> Option<ConfigRefusal> {
    either(
        date_error(m.period_start.day(), "measurement period_start"@, id),
        either(
            date_error(m.period_end.day(), "measurement period_end"@, id),
            if m.period_end.day() < m.period_start.day() {
                bad_obligation(
                    id,
                    "measurement period "@ + date::date_text(m.period_start.day()) + ".."@
                        + date::date_text(m.period_end.day()) + " ends before it starts"@,
                )
            } else if m.achieved_uptime_bp > MAX_UPTIME_BP {
                bad_obligation(
                    id,
                    "achieved_uptime_bp "@ + text::decimal(m.achieved_uptime_bp as nat)
                        + " exceeds "@ + text::decimal(MAX_UPTIME_BP as nat),
                )
            } else {
                money_error(m.charges_cents as int, "measurement charges_cents"@, id)
            },
        ),
    )
}

pub open spec fn measurements_error(s: Seq<SlaMeasurement>, id: Seq<char>, i: int) -> Option<
    ConfigRefusal,
>
    decreases s.len() - i,
{
    if 0 <= i < s.len() {
        either(measurement_error(s[i], id), measurements_error(s, id, i + 1))
    } else {
        None
    }
}

pub open spec fn due_error(r: ObligationRecord) -> Option<ConfigRefusal> {
    let id = r.id@;
    match r.due {
        Some(DateSpec::Explicit { date }) => date_error(date.day(), "explicit due date"@, id),
        Some(DateSpec::Dependent { offset_days, offset_months, .. }) => either(
            span_error(offset_days, "dependent offset_days"@, id),
            if offset_months > MAX_MONTH_OFFSET {
                bad_obligation(
                    id,
                    "dependent offset_months "@ + text::decimal(offset_months as nat)
                        + " exceeds the maximum "@ + text::decimal(MAX_MONTH_OFFSET as nat),
                )
            } else {
                None
            },
        ),
        None => None,
    }
}

pub open spec fn marks_error(r: ObligationRecord) -> Option<ConfigRefusal> {
    let id = r.id@;
    either(
        if r.satisfied_on is Some {
            date_error(r.satisfied_on->0.day(), "satisfied_on"@, id)
        } else {
            None
        },
        if r.completed_on is Some {
            date_error(r.completed_on->0.day(), "completed_on"@, id)
        } else {
            None
        },
    )
}

/// What is wrong with a record on its own, if anything.
pub open spec fn record_error(r: ObligationRecord) -> Option<ConfigRefusal> {
    either(
        head_error(r),
        either(
            type_error(r),
            either(
                terms_error(r),
                either(
                    measurements_error(r.sla_measurements@, r.id@, 0),
                    either(due_error(r), marks_error(r)),
                ),
            ),
        ),
    )
}

fn check_head(record: &ObligationRecord) -> (r: Result<(), ConfigError>)
    ensures
        (match r {
            Ok(()) => head_error(*record) is None,
            Err(e) => head_error(*record) == Some(e@),
        }),
{
    let id = record.id.as_str();
    if text::blank(id) {
        return Err(obligation_error(id, String::from_str("obligation id must not be empty")));
    }
    if text::blank(record.counterparty.as_str()) {
        return Err(obligation_error(id, String::from_str("counterparty must not be empty")));
    }
    if record.version == 0 {
        return Err(obligation_error(id, String::from_str("version must be at least 1")));
    }
    if let Some(v) = record.supersedes {
        if v >= record.version {
            let mut reason = String::from_str("supersedes ");
            reason.append(text::unsigned_text(v as u128).as_str());
            reason.append(" must be below this record's version ");
            reason.append(text::unsigned_text(record.version as u128).as_str());
            return Err(obligation_error(id, reason));
        }
    }
    match record.amount_cents {
        Some(amount) => check_money(amount, "amount_cents", id),
        None => Ok(()),
    }
}

fn check_type(record: &ObligationRecord) -> (r: Result<(), ConfigError>)
    ensures
        (match r {
            Ok(()) => type_error(*record) is None,
            Err(e) => type_error(*record) == Some(e@),
        }),
{
    let id = record.id.as_str();
    match record.obligation_type {
        ObligationType::Sla => {
            if record.sla.is_none() {
                return Err(
                    obligation_error(
                        id,
                        String::from_str("sla obligations must carry an sla terms block"),
                    ),
                );
            }
            if record.due.is_some() {
                return Err(
                    obligation_error(
                        id,
                        String::from_str("sla obligations must not carry a due date spec"),
                    ),
                );
            }
        },
        ObligationType::RenewalOptOut => {
            if record.renewal.is_none() {
                return Err(
                    obligation_error(
                        id,
                        String::from_str(
                            "renewal_opt_out obligations must carry a renewal terms block",
                        ),
                    ),
                );
            }
            if record.due.is_some() {
                return Err(
                    obligation_error(
                        id,
                        String::from_str(
                            "renewal_opt_out obligations must not carry a due date spec",
                        ),
                    ),
                );
            }
        },
        _ => {
            if record.renewal.is_some() || record.sla.is_some() {
                return Err(
                    obligation_error(
                        id,
                        String::from_str(
                            "only sla / renewal_opt_out obligations carry sla or renewal terms",
                        ),
                    ),
                );
            }
            if record.sla_measurements.len() > 0 {
                return Err(
                    obligation_error(
                        id,
                        String::from_str("sla_measurements are only valid on sla obligations"),
                    ),
                );
            }
        },
    }
    Ok(())
}

fn check_terms(record: &ObligationRecord) -> (r: Result<(), ConfigError>)
    ensures
        (match r {
            Ok(()) => terms_error(*record) is None,
            Err(e) => terms_error(*record) == Some(e@),
        }),
{
    let id = record.id.as_str();
    if let Some(renewal) = record.renewal {
        match check_date(renewal.renewal_date, "renewal_date", id) {
            Ok(()) => {},
            Err(e) => return Err(e),
        }
        match check_day_span(renewal.notice_days, "notice_days", id) {
            Ok(()) => {},
            Err(e) => return Err(e),
        }
    }
    if let Some(sla) = record.sla {
        match check_day_span(sla.window_days, "sla window_days", id) {
            Ok(()) => {},
            Err(e) => return Err(e),
        }
    }
    Ok(())
}

fn check_measurement(m: SlaMeasurement, id: &str) -> (r: Result<(), ConfigError>)
    ensures
        (match r {
            Ok(()) => measurement_error(m, id@) is None,
            Err(e) => measurement_error(m, id@) == Some(e@),
        }),
{
    match check_date(m.period_start, "measurement period_start", id) {
        Ok(()) => {},
        Err(e) => return Err(e),
    }
    match check_date(m.period_end, "measurement period_end", id) {
        Ok(()) => {},
        Err(e) => return Err(e),
    }
    if m.period_end.day_number() < m.period_start.day_number() {
        let mut reason = String::from_str("measurement period ");
        reason.append(m.period_start.text().as_str());
        reason.append("..");
        reason.append(m.period_end.text().as_str());
        reason.append(" ends before it starts");
        return Err(obligation_error(id, reason));
    }
    if m.achieved_uptime_bp > MAX_UPTIME_BP {
        let mut reason = String::from_str("achieved_uptime_bp ");
        reason.append(text::unsigned_text(m.achieved_uptime_bp as u128).as_str());
        reason.append(" exceeds ");
        reason.append(text::unsigned_text(MAX_UPTIME_BP as u128).as_str());
        return Err(obligation_error(id, reason));
    }
    check_money(m.charges_cents, "measurement charges_cents", id)
}

fn check_measurements(measurements: &Vec<SlaMeasurement>, id: &str) -> (r: Result<(), ConfigError>)
    ensures
        (match r {
            Ok(()) => measurements_error(measurements@, id@, 0) is None,
            Err(e) => measurements_error(measurements@, id@, 0) == Some(e@),
        }),
{
    let mut i: usize = 0;
    while i < measurements.len()
        invariant
            i <= measurements.len(),
            measurements_error(measurements@, id@, 0) == measurements_error(
                measurements@,
                id@,
                i as int,
            ),
        decreases measurements.len() - i,
    {
        match check_measurement(measurements[i], id) {
            Ok(()) => {},
            Err(e) => return Err(e),
        }
        i = i + 1;
    }
    Ok(())
}

fn check_due(record: &ObligationRecord) -> (r: Result<(), ConfigError>)
    ensures
        (match r {
            Ok(()) => due_error(*record) is None,
            Err(e) => due_error(*record) == Some(e@),
        }),
{
    let id = record.id.as_str();
    match &record.due {
        Some(DateSpec::Explicit { date }) => check_date(*date, "explicit due date", id),
        Some(DateSpec::Dependent { offset_days, offset_months, .. }) => {
            match check_day_span(*offset_days, "dependent offset_days", id) {
                Ok(()) => {},
                Err(e) => return Err(e),
            }
            if *offset_months > MAX_MONTH_OFFSET {
                let mut reason = String::from_str("dependent offset_months ");
                reason.append(text::unsigned_text(*offset_months as u128).as_str());
                reason.append(" exceeds the maximum ");
                reason.append(text::unsigned_text(MAX_MONTH_OFFSET as u128).as_str());
                return Err(obligation_error(id, reason));
            }
            Ok(())
        },
        None => Ok(()),
    }
}

fn check_marks(record: &ObligationRecord) -> (r: Result<(), ConfigError>)
    ensures
        (match r {
            Ok(()) => marks_error(*record) is None,
            Err(e) => marks_error(*record) == Some(e@),
        }),
{
    let id = record.id.as_str();
    if let Some(day) = record.satisfied_on {
        match check_date(day, "satisfied_on", id) {
            Ok(()) => {},
            Err(e) => return Err(e),
        }
    }
    match record.completed_on {
        Some(day) => check_date(day, "completed_on", id),
        None => Ok(()),
    }
}

/// Refuse a record that is out of bounds or whose terms do not fit its type.
pub fn validate_record(record: &ObligationRecord) -> (r: Result<(), ConfigError>)
    ensures
        (match r {
            Ok(()) => record_error(*record) is None,
            Err(e) => record_error(*record) == Some(e@),
        }),
{
    match check_head(record) {
        Ok(()) => {},
        Err(e) => return Err(e),
    }
    match check_type(record) {
        Ok(()) => {},
        Err(e) => return Err(e),
    }
    match check_terms(record) {
        Ok(()) => {},
        Err(e) => return Err(e),
    }
    match check_measurements(&record.sla_measurements, record.id.as_str()) {
        Ok(()) => {},
        Err(e) => return Err(e),
    }
    match check_due(record) {
        Ok(()) => {},
        Err(e) => return Err(e),
    }
    check_marks(record)
}

// ---- the register ----

/// Whether one of the first `n` records is version `version` of `id`.
pub open spec fn is_recorded(
    s: Seq<ObligationRecord>,
    n: int,
    id: Seq<char>,
    version: u64,
) -> bool {
    exists|k: int| 0 <= k < n && (#[trigger] s[k]).id@ == id && s[k].version == version
}

/// The place of the last of the first `n` records of `id`.
pub open spec fn latest_of(s: Seq<ObligationRecord>, n: int, id: Seq<char>) -> Option<int>
    decreases n,
{
    if n <= 0 {
        None
    } else if s[n - 1].id@ == id {
        Some(n - 1)
    } else {
        latest_of(s, n - 1, id)
    }
}

/// Whether record `i` continues the versions of its obligation: the first
/// supersedes none, and every other the one before it.
pub open spec fn lineage_error(s: Seq<ObligationRecord>, i: int) -> Option<ConfigRefusal> {
    let r = s[i];
    if is_recorded(s, i, r.id@, r.version) {
        bad_register(
            "duplicate record for obligation "@ + r.id@ + " version "@ + text::decimal(
                r.version as nat,
            ),
        )
    } else {
        match latest_of(s, i, r.id@) {
            Some(k) => if r.supersedes != Some(s[k].version) {
                bad_register(
                    "correction for obligation "@ + r.id@ + " to version "@ + text::decimal(
                        r.version as nat,
                    ) + " must supersede the prior version "@ + text::decimal(s[k].version as nat),
                )
            } else {
                None
            },
            None => if r.supersedes is Some {
                bad_register(
                    "first record for obligation "@ + r.id@
                        + " must not claim to supersede a version"@,
                )
            } else {
                None
            },
        }
    }
}

pub open spec fn records_error(s: Seq<ObligationRecord>, i: int) -> Option<ConfigRefusal>
    decreases s.len() - i,
{
    if 0 <= i < s.len() {
        either(record_error(s[i]), either(lineage_error(s, i), records_error(s, i + 1)))
    } else {
        None
    }
}

/// The anchor of a record with a dependent date.
pub open spec fn anchor_of(r: ObligationRecord) -> Option<Seq<char>> {
    match r.due {
        Some(DateSpec::Dependent { anchor_id, .. }) => Some(anchor_id@),
        _ => None,
    }
}

/// Whether some record is a version of `id`.
pub open spec fn has_id(s: Seq<ObligationRecord>, id: Seq<char>) -> bool {
    exists|k: int| 0 <= k < s.len() && (#[trigger] s[k]).id@ == id
}

pub open spec fn anchors_error(s: Seq<ObligationRecord>, i: int) -> Option<ConfigRefusal>
    decreases s.len() - i,
{
    if 0 <= i < s.len() {
        if anchor_of(s[i]) is Some && !has_id(s, anchor_of(s[i])->0) {
            Some(
                ConfigRefusal::InvalidAnchor {
                    id: s[i].id@,
                    anchor_id: anchor_of(s[i])->0,
                    reason: "anchor obligation not found in the register"@,
                },
            )
        } else {
            anchors_error(s, i + 1)
        }
    } else {
        None
    }
}

/// The ids of the register, each once, in ascending order.
pub open spec fn ids_of(s: Seq<ObligationRecord>) -> Seq<Seq<char>> {
    text::ascending(s.map_values(|r: ObligationRecord| r.id@))
}

/// Different ids of the register, one after the other.
pub open spec fn is_path(s: Seq<ObligationRecord>, path: Seq<Seq<char>>) -> bool {
    &&& path.no_duplicates()
    &&& forall|i: int| 0 <= i < path.len() ==> has_id(s, #[trigger] path[i])
}

/// A path is no longer than the register.
pub proof fn path_is_short(s: Seq<ObligationRecord>, path: Seq<Seq<char>>)
    requires
        is_path(s, path),
    ensures
        path.len() <= s.len(),
{
    let ids = s.map_values(|r: ObligationRecord| r.id@);
    assert(path.to_set().subset_of(ids.to_set())) by {
        assert forall|x: Seq<char>| path.to_set().contains(x) implies ids.to_set().contains(x) by {
            let i = choose|i: int| 0 <= i < path.len() && path[i] == x;
            assert(has_id(s, path[i]));
            let k = choose|k: int| 0 <= k < s.len() && (#[trigger] s[k]).id@ == path[i];
            assert(ids[k] == x);
        }
    }
    path.unique_seq_to_set();
    ids.lemma_cardinality_of_set();
    vstd::set_lib::lemma_len_subset(path.to_set(), ids.to_set());
}

/// A path grows by any id of the register that it does not hold.
pub proof fn path_grows(s: Seq<ObligationRecord>, path: Seq<Seq<char>>, i: int)
    requires
        is_path(s, path),
        0 <= i < s.len(),
        !path.contains(s[i].id@),
    ensures
        is_path(s, path.push(s[i].id@)),
        path.len() < s.len(),
{
    let longer = path.push(s[i].id@);
    assert forall|j: int| 0 <= j < longer.len() implies has_id(s, #[trigger] longer[j]) by {
        if j < path.len() {
            assert(has_id(s, path[j]));
        }
    }
    assert(longer.no_duplicates()) by {
        assert forall|a: int, b: int|
            0 <= a < longer.len() && 0 <= b < longer.len() && a != b implies longer[a]
            != longer[b] by {
            if a == path.len() {
                assert(path.contains(path[b]));
            } else if b == path.len() {
                assert(path.contains(path[a]));
            }
        }
    }
    path_is_short(s, longer);
}

/// The first way, in register order and depth first, in which the anchors of
/// `node` lead back to `node` or to an id of `stack`.
pub open spec fn cycle_from(
    s: Seq<ObligationRecord>,
    node: Seq<char>,
    stack: Seq<Seq<char>>,
    i: int,
) -> Option<ConfigRefusal>
    decreases s.len() - stack.len(), s.len() - i,
    when is_path(s, stack) && !stack.contains(node)
{
    if 0 <= i < s.len() {
        if s[i].id@ == node && anchor_of(s[i]) is Some {
            let next = anchor_of(s[i])->0;
            let path = stack.push(node);
            if path.contains(next) {
                Some(
                    ConfigRefusal::InvalidAnchor {
                        id: next,
                        anchor_id: next,
                        reason: "dependency cycle through "@ + text::joined(path, " -> "@),
                    },
                )
            } else {
                proof {
                    path_grows(s, stack, i);
                }
                either(cycle_from(s, next, path, 0), cycle_from(s, node, stack, i + 1))
            }
        } else {
            cycle_from(s, node, stack, i + 1)
        }
    } else {
        None
    }
}

/// Whether some version of obligation `a` is anchored on `b`.
pub open spec fn is_anchored(s: Seq<ObligationRecord>, a: Seq<char>, b: Seq<char>) -> bool {
    exists|i: int| 0 <= i < s.len() && (#[trigger] s[i]).id@ == a && anchor_of(s[i]) == Some(b)
}

/// Whether `walk` goes from anchor to anchor.
pub open spec fn is_walk(s: Seq<ObligationRecord>, walk: Seq<Seq<char>>) -> bool {
    forall|k: int| 1 <= k < walk.len() ==> is_anchored(s, walk[k - 1], #[trigger] walk[k])
}

/// Whether a walk from `start` comes to the same obligation twice.
pub open spec fn has_cycle(s: Seq<ObligationRecord>, start: Seq<char>) -> bool {
    exists|walk: Seq<Seq<char>>| #[trigger]
        is_walk(s, walk) && walk.len() > 0 && walk[0] == start && !walk.no_duplicates()
}

/// Where no way leads back, none does from any anchor of `node`.
pub proof fn no_cycle_step(
    s: Seq<ObligationRecord>,
    node: Seq<char>,
    stack: Seq<Seq<char>>,
    from: int,
    i: int,
)
    requires
        is_path(s, stack),
        !stack.contains(node),
        cycle_from(s, node, stack, from) is None,
        0 <= from <= i < s.len(),
        s[i].id@ == node,
        anchor_of(s[i]) is Some,
    ensures
        !stack.push(node).contains(anchor_of(s[i])->0),
        cycle_from(s, anchor_of(s[i])->0, stack.push(node), 0) is None,
    decreases i - from,
{
    if from < i {
        if s[from].id@ == node && anchor_of(s[from]) is Some {
            path_grows(s, stack, from);
        }
        no_cycle_step(s, node, stack, from + 1, i);
    } else {
        path_grows(s, stack, i);
    }
}

/// Where no way leads back, no walk comes back either.
proof fn no_walk_returns(
    s: Seq<ObligationRecord>,
    stack: Seq<Seq<char>>,
    walk: Seq<Seq<char>>,
)
    requires
        is_path(s, stack),
        walk.len() > 0,
        !stack.contains(walk[0]),
        is_walk(s, walk),
        cycle_from(s, walk[0], stack, 0) is None,
    ensures
        (stack + walk).no_duplicates(),
    decreases walk.len(),
{
    let path = stack.push(walk[0]);
    if walk.len() == 1 {
        assert(stack + walk =~= path);
        assert forall|a: int, b: int|
            0 <= a < path.len() && 0 <= b < path.len() && a != b implies path[a] != path[b] by {
            if a == stack.len() {
                assert(stack.contains(stack[b]));
            } else if b == stack.len() {
                assert(stack.contains(stack[a]));
            }
        }
    } else {
        let rest = walk.skip(1);
        assert(is_anchored(s, walk[1 - 1], walk[1]));
        let i = choose|i: int|
            0 <= i < s.len() && (#[trigger] s[i]).id@ == walk[0] && anchor_of(s[i]) == Some(
                walk[1],
            );
        no_cycle_step(s, walk[0], stack, 0, i);
        path_grows(s, stack, i);
        assert forall|k: int| 1 <= k < rest.len() implies is_anchored(
            s,
            rest[k - 1],
            #[trigger] rest[k],
        ) by {
            assert(is_anchored(s, walk[k + 1 - 1], walk[k + 1]));
        }
        no_walk_returns(s, path, rest);
        assert(path + rest =~= stack + walk);
    }
}

/// A way back is a walk that comes back.
proof fn returning_walk(
    s: Seq<ObligationRecord>,
    node: Seq<char>,
    stack: Seq<Seq<char>>,
    i: int,
) -> (walk: Seq<Seq<char>>)
    requires
        is_path(s, stack),
        !stack.contains(node),
        0 <= i,
        cycle_from(s, node, stack, i) is Some,
    ensures
        is_walk(s, walk),
        walk.len() > 0,
        walk[0] == node,
        !(stack + walk).no_duplicates(),
    decreases s.len() - stack.len(), s.len() - i,
{
    let path = stack.push(node);
    if s[i].id@ == node && anchor_of(s[i]) is Some {
        let next = anchor_of(s[i])->0;
        assert(is_anchored(s, node, next));
        if path.contains(next) {
            let walk = seq![node, next];
            let k = choose|k: int| 0 <= k < path.len() && path[k] == next;
            let whole = stack + walk;
            assert(whole[k] == whole[whole.len() - 1]);
            walk
        } else {
            path_grows(s, stack, i);
            if cycle_from(s, next, path, 0) is Some {
                let rest = returning_walk(s, next, path, 0);
                let walk = seq![node] + rest;
                assert forall|k: int| 1 <= k < walk.len() implies is_anchored(
                    s,
                    walk[k - 1],
                    #[trigger] walk[k],
                ) by {
                    if k > 1 {
                        assert(is_anchored(s, rest[k - 1 - 1], rest[k - 1]));
                    }
                }
                assert(stack + walk =~= path + rest);
                walk
            } else {
                returning_walk(s, node, stack, i + 1)
            }
        }
    } else {
        returning_walk(s, node, stack, i + 1)
    }
}

/// A way back is found from `start` exactly where a walk from it comes to the
/// same obligation twice.
pub proof fn cycles_are_found(s: Seq<ObligationRecord>, start: Seq<char>)
    ensures
        cycle_from(s, start, Seq::empty(), 0) is Some <==> has_cycle(s, start),
{
    let none = Seq::<Seq<char>>::empty();
    if cycle_from(s, start, none, 0) is Some {
        let walk = returning_walk(s, start, none, 0);
        assert(none + walk =~= walk);
    } else {
        assert forall|walk: Seq<Seq<char>>| #[trigger]
            is_walk(s, walk) && walk.len() > 0 && walk[0]
                == start implies walk.no_duplicates() by {
            no_walk_returns(s, none, walk);
            assert(none + walk =~= walk);
        }
    }
}

pub open spec fn cycles_error(
    s: Seq<ObligationRecord>,
    ids: Seq<Seq<char>>,
    i: int,
) -> Option<ConfigRefusal>
    decreases ids.len() - i,
{
    if 0 <= i < ids.len() {
        either(cycle_from(s, ids[i], Seq::empty(), 0), cycles_error(s, ids, i + 1))
    } else {
        None
    }
}

pub open spec fn jurisdictions_error(
    s: Seq<ObligationRecord>,
    calendars: Table<Calendar>,
    i: int,
) -> Option<ConfigRefusal>
    decreases s.len() - i,
{
    if 0 <= i < s.len() {
        if s[i].jurisdiction is Some && !calendars.keys().contains(s[i].jurisdiction->0@) {
            bad_calendar(
                s[i].jurisdiction->0@,
                "obligation "@ + s[i].id@
                    + " references a calendar that is not defined in params"@,
            )
        } else {
            jurisdictions_error(s, calendars, i + 1)
        }
    } else {
        None
    }
}

/// What is wrong with a register under a policy, if anything.
pub open spec fn register_error(s: Seq<ObligationRecord>, p: PolicyParams) -> Option<
    ConfigRefusal,
> {
    either(
        params_error(p),
        either(
            records_error(s, 0),
            either(
                anchors_error(s, 0),
                either(cycles_error(s, ids_of(s), 0), jurisdictions_error(s, p.calendars, 0)),
            ),
        ),
    )
}

fn recorded(s: &Vec<ObligationRecord>, n: usize, id: &str, version: u64) -> (r: bool)
    requires
        n <= s.len(),
    ensures
        r == is_recorded(s@, n as int, id@, version),
{
    let mut k: usize = 0;
    while k < n
        invariant
            k <= n <= s.len(),
            forall|j: int|
                0 <= j < k ==> !((#[trigger] s@[j]).id@ == id@ && s@[j].version == version),
        decreases n - k,
    {
        if s[k].version == version && text::same_text(s[k].id.as_str(), id) {
            return true;
        }
        k = k + 1;
    }
    false
}

/// The place of the last of the first `n` records of `id`.
pub fn latest(s: &Vec<ObligationRecord>, n: usize, id: &str) -> (r: Option<usize>)
    requires
        n <= s.len(),
    ensures
        (match r {
            Some(k) => latest_of(s@, n as int, id@) == Some(k as int) && k < n && s@[k as int].id@
                == id@,
            None => latest_of(s@, n as int, id@) is None && forall|k: int|
                0 <= k < n ==> (#[trigger] s@[k]).id@ != id@,
        }),
{
    let mut k: usize = n;
    while k > 0
        invariant
            k <= n <= s.len(),
            latest_of(s@, n as int, id@) == latest_of(s@, k as int, id@),
            forall|j: int| k <= j < n ==> (#[trigger] s@[j]).id@ != id@,
        decreases k,
    {
        if text::same_text(s[k - 1].id.as_str(), id) {
            return Some(k - 1);
        }
        k = k - 1;
    }
    None
}

fn check_lineage(s: &Vec<ObligationRecord>, i: usize) -> (r: Result<(), ConfigError>)
    requires
        i < s.len(),
    ensures
        (match r {
            Ok(()) => lineage_error(s@, i as int) is None,
            Err(e) => lineage_error(s@, i as int) == Some(e@),
        }),
{
    let record = &s[i];
    let id = record.id.as_str();
    if recorded(s, i, id, record.version) {
        let mut reason = String::from_str("duplicate record for obligation ");
        reason.append(id);
        reason.append(" version ");
        reason.append(text::unsigned_text(record.version as u128).as_str());
        return Err(ConfigError::InvalidRegister(reason));
    }
    match latest(s, i, id) {
        Some(k) => {
            let prior: u64 = s[k].version;
            let follows = match record.supersedes {
                Some(v) => v == prior,
                None => false,
            };
            if !follows {
                let mut reason = String::from_str("correction for obligation ");
                reason.append(id);
                reason.append(" to version ");
                reason.append(text::unsigned_text(record.version as u128).as_str());
                reason.append(" must supersede the prior version ");
                reason.append(text::unsigned_text(prior as u128).as_str());
                return Err(ConfigError::InvalidRegister(reason));
            }
        },
        None => {
            if record.supersedes.is_some() {
                let mut reason = String::from_str("first record for obligation ");
                reason.append(id);
                reason.append(" must not claim to supersede a version");
                return Err(ConfigError::InvalidRegister(reason));
            }
        },
    }
    Ok(())
}

fn check_records(s: &Vec<ObligationRecord>) -> (r: Result<(), ConfigError>)
    ensures
        (match r {
            Ok(()) => records_error(s@, 0) is None,
            Err(e) => records_error(s@, 0) == Some(e@),
        }),
{
    let mut i: usize = 0;
    while i < s.len()
        invariant
            i <= s.len(),
            records_error(s@, 0) == records_error(s@, i as int),
        decreases s.len() - i,
    {
        match validate_record(&s[i]) {
            Ok(()) => {},
            Err(e) => return Err(e),
        }
        match check_lineage(s, i) {
            Ok(()) => {},
            Err(e) => return Err(e),
        }
        i = i + 1;
    }
    Ok(())
}

fn check_anchors(s: &Vec<ObligationRecord>) -> (r: Result<(), ConfigError>)
    ensures
        (match r {
            Ok(()) => anchors_error(s@, 0) is None,
            Err(e) => anchors_error(s@, 0) == Some(e@),
        }),
{
    let mut i: usize = 0;
    while i < s.len()
        invariant
            i <= s.len(),
            anchors_error(s@, 0) == anchors_error(s@, i as int),
        decreases s.len() - i,
    {
        if let Some(DateSpec::Dependent { anchor_id, .. }) = &s[i].due {
            if latest(s, s.len(), anchor_id.as_str()).is_none() {
                return Err(
                    ConfigError::InvalidAnchor {
                        id: s[i].id.clone(),
                        anchor_id: anchor_id.clone(),
                        reason: String::from_str("anchor obligation not found in the register"),
                    },
                );
            }
        }
        i = i + 1;
    }
    Ok(())
}

fn find_cycle(s: &Vec<ObligationRecord>, node: &str, stack: &Vec<String>) -> (r: Result<
    (),
    ConfigError,
>)
    requires
        is_path(s@, text::texts(stack@)),
        !text::texts(stack@).contains(node@),
    ensures
        (match r {
            Ok(()) => cycle_from(s@, node@, text::texts(stack@), 0) is None,
            Err(e) => cycle_from(s@, node@, text::texts(stack@), 0) == Some(e@),
        }),
    decreases s.len() - stack.len(),
{
    let ghost held = text::texts(stack@);
    let mut path = text::copy_texts(stack);
    let ghost was = path@;
    path.push(String::from_str(node));
    assert(text::texts(path@) =~= held.push(node@));
    let mut i: usize = 0;
    while i < s.len()
        invariant
            i <= s.len(),
            held == text::texts(stack@),
            held.len() == stack.len(),
            is_path(s@, held),
            !held.contains(node@),
            text::texts(path@) == held.push(node@),
            path.len() == stack.len() + 1,
            cycle_from(s@, node@, held, 0) == cycle_from(s@, node@, held, i as int),
        decreases s.len() - i,
    {
        if text::same_text(s[i].id.as_str(), node) {
            if let Some(DateSpec::Dependent { anchor_id, .. }) = &s[i].due {
                let next = anchor_id.as_str();
                if text::holds_text(&path, next) {
                    let mut reason = String::from_str("dependency cycle through ");
                    reason.append(text::join(&path, " -> ").as_str());
                    return Err(
                        ConfigError::InvalidAnchor {
                            id: anchor_id.clone(),
                            anchor_id: anchor_id.clone(),
                            reason,
                        },
                    );
                }
                proof {
                    path_grows(s@, held, i as int);
                }
                match find_cycle(s, next, &path) {
                    Ok(()) => {},
                    Err(e) => return Err(e),
                }
            }
        }
        i = i + 1;
    }
    Ok(())
}

/// Refuse a register in which the anchors of `start` lead back to an
/// obligation on the way.
pub fn detect_cycle(s: &Vec<ObligationRecord>, start: &str) -> (r: Result<(), ConfigError>)
    ensures
        r is Ok <==> !has_cycle(s@, start@),
        (match r {
            Ok(()) => cycle_from(s@, start@, Seq::empty(), 0) is None,
            Err(e) => cycle_from(s@, start@, Seq::empty(), 0) == Some(e@),
        }),
{
    let stack: Vec<String> = Vec::new();
    proof {
        assert(text::texts(stack@) =~= Seq::<Seq<char>>::empty());
        cycles_are_found(s@, start@);
    }
    find_cycle(s, start, &stack)
}

/// The ids of the register, each once, in ascending order.
pub fn register_ids(s: &Vec<ObligationRecord>) -> (r: Vec<String>)
    ensures
        text::texts(r@) == ids_of(s@),
{
    let mut ids: Vec<String> = Vec::new();
    let mut i: usize = 0;
    while i < s.len()
        invariant
            i <= s.len(),
            ids.len() == i,
            forall|k: int| 0 <= k < i ==> (#[trigger] ids@[k])@ == s@[k].id@,
        decreases s.len() - i,
    {
        ids.push(s[i].id.clone());
        i = i + 1;
    }
    assert(text::texts(ids@) =~= s@.map_values(|r: ObligationRecord| r.id@));
    text::sorted_unique(ids)
}

fn check_cycles(s: &Vec<ObligationRecord>) -> (r: Result<(), ConfigError>)
    ensures
        (match r {
            Ok(()) => cycles_error(s@, ids_of(s@), 0) is None,
            Err(e) => cycles_error(s@, ids_of(s@), 0) == Some(e@),
        }),
{
    let ids = register_ids(s);
    let ghost all = ids_of(s@);
    let mut i: usize = 0;
    while i < ids.len()
        invariant
            i <= ids.len(),
            all == text::texts(ids@),
            all == ids_of(s@),
            cycles_error(s@, all, 0) == cycles_error(s@, all, i as int),
        decreases ids.len() - i,
    {
        assert(all[i as int] == ids@[i as int]@);
        match detect_cycle(s, ids[i].as_str()) {
            Ok(()) => {},
            Err(e) => return Err(e),
        }
        i = i + 1;
    }
    Ok(())
}

fn check_jurisdictions(s: &Vec<ObligationRecord>, calendars: &Table<Calendar>) -> (r: Result<
    (),
    ConfigError,
>)
    ensures
        (match r {
            Ok(()) => jurisdictions_error(s@, *calendars, 0) is None,
            Err(e) => jurisdictions_error(s@, *calendars, 0) == Some(e@),
        }),
{
    let mut i: usize = 0;
    while i < s.len()
        invariant
            i <= s.len(),
            jurisdictions_error(s@, *calendars, 0) == jurisdictions_error(
                s@,
                *calendars,
                i as int,
            ),
        decreases s.len() - i,
    {
        if let Some(j) = &s[i].jurisdiction {
            if !calendars.contains_key(j.as_str()) {
                let mut reason = String::from_str("obligation ");
                reason.append(s[i].id.as_str());
                reason.append(" references a calendar that is not defined in params");
                return Err(ConfigError::InvalidCalendar { jurisdiction: j.clone(), reason });
            }
        }
        i = i + 1;
    }
    Ok(())
}

/// Refuse a register that does not hold together under the policy: bounds,
/// version lineage, anchors, dependency cycles, calendar references.
pub fn validate(inputs: &RegisterInputs, params: &PolicyParams) -> (r: Result<(), ConfigError>)
    ensures
        (match r {
            Ok(()) => register_error(inputs.obligations@, *params) is None,
            Err(e) => register_error(inputs.obligations@, *params) == Some(e@),
        }),
{
    match validate_params(params) {
        Ok(()) => {},
        Err(e) => return Err(e),
    }
    match check_records(&inputs.obligations) {
        Ok(()) => {},
        Err(e) => return Err(e),
    }
    match check_anchors(&inputs.obligations) {
        Ok(()) => {},
        Err(e) => return Err(e),
    }
    match check_cycles(&inputs.obligations) {
        Ok(()) => {},
        Err(e) => return Err(e),
    }
    check_jurisdictions(&inputs.obligations, &params.calendars)
}

} // verus!
