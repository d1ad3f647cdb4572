//! The rules on a population of actions, at a clock that the caller
//! supplies.

use vstd::prelude::*;
use vstd::string::StrSliceExecFns;
use vstd::string::StringExecFns;

use crate::capa::config;
use crate::capa::config::{CapaConfig, ConfigError, ConfigRefusal};
use crate::capa::model::{CapaRecord, Status};
use crate::instant;
use crate::instant::{Instant, Moment};
use crate::spine;
use crate::spine::{Finding, FindingView, Severity};
use crate::text;

verus! {

pub const RULE_CONTAINMENT_OVERDUE: &'static str = "CONTAINMENT_OVERDUE";

pub const RULE_CONTAINMENT_LATE: &'static str = "CONTAINMENT_LATE";

pub const RULE_CLOSURE_BLOCKED: &'static str = "CLOSURE_BLOCKED";

pub const RULE_EFFECTIVENESS_OVERDUE: &'static str = "EFFECTIVENESS_OVERDUE";

pub const RULE_AGING_WARN: &'static str = "AGING_WARN";

pub const RULE_AGING_BREACH: &'static str = "AGING_BREACH";

pub const RULE_DUPLICATE_DESCRIPTION: &'static str = "DUPLICATE_DESCRIPTION";

pub const RULE_BROKEN_REOPEN_LINK: &'static str = "BROKEN_REOPEN_LINK";

pub open spec fn severity_name(s: Severity) -> Seq<char> {
    match s {
        Severity::Breach => "BREACH"@,
        Severity::Warn => "WARN"@,
        Severity::Info => "INFO"@,
    }
}

/// The severity in capitals.
pub fn severity_label(severity: Severity) -> (r: &'static str)
    ensures
        r@ == severity_name(severity),
{
    match severity {
        Severity::Breach => "BREACH",
        Severity::Warn => "WARN",
        Severity::Info => "INFO",
    }
}

// ---- descriptions ----

/// A description in lower case, with one space between words.
pub open spec fn normalized(d: Seq<char>) -> Seq<char> {
    text::lowered(text::joined(text::words(d), " "@))
}

/// The digest of a normalized description.
pub open spec fn digest_of(d: Seq<char>) -> Seq<char> {
    spine::sha256_text(vstd::utf8::encode_utf8(normalized(d)))
}

/// A description in lower case, with one space between words.
pub fn normalize_description(description: &str) -> (r: String)
    ensures
        r@ == normalized(description@),
{
    let words = text::split_words(description);
    text::lower_of(text::join(&words, " ").as_str())
}

/// The digest of a normalized description.
pub fn description_hash(description: &str) -> (r: String)
    ensures
        r@ == digest_of(description@),
{
    spine::sha256_hex(normalize_description(description).as_str().as_bytes())
}

/// The smallest id among the first `n` records whose description has a
/// digest.
pub open spec fn first_carrier(s: Seq<CapaRecord>, digest: Seq<char>, n: int) -> Option<Seq<char>>
    decreases n,
{
    if n <= 0 {
        None
    } else {
        let before = first_carrier(s, digest, n - 1);
        let id = s[n - 1].id@;
        if digest_of(s[n - 1].description@) != digest {
            before
        } else {
            match before {
                None => Some(id),
                Some(first) => if text::text_lt(id, first) {
                    Some(id)
                } else {
                    before
                },
            }
        }
    }
}

/// The record that record `i` may repeat: the one with the smallest id among
/// those whose descriptions normalize alike, unless that is the record
/// itself.
pub open spec fn repeated_by(s: Seq<CapaRecord>, i: int) -> Option<Seq<char>> {
    match first_carrier(s, digest_of(s[i].description@), s.len() as int) {
        Some(first) if first != s[i].id@ => Some(first),
        _ => None,
    }
}

pub open spec fn digests(s: Seq<CapaRecord>) -> Seq<Seq<char>> {
    s.map_values(|r: CapaRecord| digest_of(r.description@))
}

fn all_digests(capas: &[CapaRecord]) -> (r: Vec<String>)
    ensures
        text::texts(r@) == digests(capas@),
{
    let mut out: Vec<String> = Vec::new();
    let mut i: usize = 0;
    while i < capas.len()
        invariant
            i <= capas.len(),
            out.len() == i,
            forall|k: int| 0 <= k < i ==> (#[trigger] out@[k])@ == digest_of(capas@[k].description@),
        decreases capas.len() - i,
    {
        out.push(description_hash(capas[i].description.as_str()));
        i = i + 1;
    }
    assert(text::texts(out@) =~= digests(capas@));
    out
}

fn duplicate_for(capas: &[CapaRecord], hashes: &Vec<String>, i: usize) -> (r: Option<String>)
    requires
        i < capas.len(),
        text::texts(hashes@) == digests(capas@),
    ensures
        (match r {
            Some(other) => repeated_by(capas@, i as int) == Some(other@),
            None => repeated_by(capas@, i as int) is None,
        }),
{
    let ghost s = capas@;
    let ghost digest = digest_of(s[i as int].description@);
    proof {
        assert(digests(s).len() == capas.len());
        assert(text::texts(hashes@).len() == hashes.len());
        assert(digests(s)[i as int] == digest);
        assert(text::texts(hashes@)[i as int] == hashes@[i as int]@);
    }
    let mut first: usize = i;
    let mut found = false;
    let mut n: usize = 0;
    while n < capas.len()
        invariant
            n <= capas.len() == hashes.len(),
            i < capas.len(),
            first < capas.len(),
            s == capas@,
            text::texts(hashes@) == digests(s),
            hashes@[i as int]@ == digest,
            found ==> first_carrier(s, digest, n as int) == Some(s[first as int].id@),
            !found ==> first_carrier(s, digest, n as int) is None,
        decreases capas.len() - n,
    {
        proof {
            assert(digests(s)[n as int] == digest_of(s[n as int].description@));
            assert(text::texts(hashes@)[n as int] == hashes@[n as int]@);
        }
        if text::same_text(hashes[n].as_str(), hashes[i].as_str()) {
            if !found || text::text_before(capas[n].id.as_str(), capas[first].id.as_str()) {
                first = n;
                found = true;
            }
        }
        n = n + 1;
    }
    if found && !text::same_text(capas[first].id.as_str(), capas[i].id.as_str()) {
        Some(capas[first].id.clone())
    } else {
        None
    }
}

// ---- evaluation ----

/// The evaluation of one action.
#[derive(Debug, Clone, PartialEq, Eq)]
pub struct CapaEvaluation {
    pub capa_id: String,
    /// The severity that the matrix gives.
    pub severity: Severity,
    pub containment_required: bool,
    /// Hours within which containment is due.
    pub containment_hours: Option<u64>,
    pub containment_due: Option<Instant>,
    pub containment_recorded_at: Option<Instant>,
    /// Whether the action ages as an open one: its closure was not requested
    /// or is not honored.
    pub treated_as_open: bool,
    /// When the effectiveness check of an honored closure is due.
    pub effectiveness_due: Option<Instant>,
    /// The record that this one may repeat.
    pub duplicate_of: Option<String>,
    pub parent_id: Option<String>,
    /// Whether the reopened cycle is another record of the population.
    pub parent_present: bool,
    /// The findings, in the order of the rules.
    pub findings: Vec<Finding>,
}

/// What a [`CapaEvaluation`] says.
#[verifier::ext_equal]
pub struct EvaluationView {
    pub capa_id: Seq<char>,
    pub severity: Severity,
    pub containment_required: bool,
    pub containment_hours: Option<u64>,
    pub containment_due: Option<Moment>,
    pub containment_recorded_at: Option<Moment>,
    pub treated_as_open: bool,
    pub effectiveness_due: Option<Moment>,
    pub duplicate_of: Option<Seq<char>>,
    pub parent_id: Option<Seq<char>>,
    pub parent_present: bool,
    pub findings: Seq<FindingView>,
}

pub open spec fn moment_of(i: Option<Instant>) -> Option<Moment> {
    match i {
        Some(i) => Some(i@),
        None => None,
    }
}

pub open spec fn text_of(s: Option<String>) -> Option<Seq<char>> {
    match s {
        Some(s) => Some(s@),
        None => None,
    }
}

impl View for CapaEvaluation {
    type V = EvaluationView;

    open spec fn view(&self) -> EvaluationView {
        EvaluationView {
            capa_id: self.capa_id@,
            severity: self.severity,
            containment_required: self.containment_required,
            containment_hours: self.containment_hours,
            containment_due: moment_of(self.containment_due),
            containment_recorded_at: moment_of(self.containment_recorded_at),
            treated_as_open: self.treated_as_open,
            effectiveness_due: moment_of(self.effectiveness_due),
            duplicate_of: text_of(self.duplicate_of),
            parent_id: text_of(self.parent_id),
            parent_present: self.parent_present,
            findings: spine::findings_view(self.findings@),
        }
    }
}

pub open spec fn evaluations_view(s: Seq<CapaEvaluation>) -> Seq<EvaluationView> {
    s.map_values(|e: CapaEvaluation| e@)
}

/// Why there is no evaluation.
#[derive(Debug, Clone, PartialEq, Eq)]
pub enum Fault {
    /// The tables or the population are refused.
    Config(ConfigError),
    /// A due instant lies outside the calendar.
    OffCalendar,
}

/// What a [`Fault`] says.
pub enum FaultView {
    Config(ConfigRefusal),
    OffCalendar,
}

impl View for Fault {
    type V = FaultView;

    open spec fn view(&self) -> FaultView {
        match self {
            Fault::Config(e) => FaultView::Config(e@),
            Fault::OffCalendar => FaultView::OffCalendar,
        }
    }
}

/// Whether a root cause is recorded.
pub open spec fn has_root_cause(r: CapaRecord) -> bool {
    r.root_cause is Some && !text::is_blank(r.root_cause->0@)
}

/// Whether an action ages as an open one. A closure is honored only with a
/// root cause and a closing date.
pub open spec fn is_open(r: CapaRecord) -> bool {
    r.status == Status::Open || !has_root_cause(r) || r.closed_at is None
}

pub open spec fn is_checked(r: CapaRecord) -> bool {
    r.effectiveness_check is Some && r.effectiveness_check->0.completed
}

/// Whether an action is over: its closure is honored and its effectiveness
/// check completed.
pub open spec fn is_over(r: CapaRecord) -> bool {
    !is_open(r) && is_checked(r)
}

/// The instants at which an action becomes overdue.
pub struct Dues {
    pub containment: Option<Moment>,
    pub effectiveness: Option<Moment>,
    /// Warning and breach of an open action.
    pub aging: Option<(Moment, Moment)>,
}

pub open spec fn hours_later(m: Moment, hours: u64) -> Option<Moment> {
    instant::later(m, hours * 3_600)
}

pub open spec fn days_later(m: Moment, days: u64) -> Option<Moment> {
    instant::later(m, days * 86_400)
}

/// A due instant that need not be computed, or lies in the calendar.
pub open spec fn is_held(needed: bool, due: Option<Moment>) -> bool {
    needed ==> due is Some
}

/// The dues of an action, where all of them lie in the calendar.
pub open spec fn dues_of(r: CapaRecord, c: CapaConfig, severity: Severity) -> Option<Dues> {
    let window = config::window_of(c.containment_hours, severity);
    let containment = match window {
        Some(hours) => hours_later(r.opened_at@, hours),
        None => None,
    };
    let effectiveness = if is_open(r) {
        None
    } else {
        days_later(r.closed_at->0@, c.effectiveness_window_days)
    };
    let warn = days_later(r.opened_at@, c.aging.warn_after_days);
    let breach = days_later(r.opened_at@, c.aging.breach_after_days);
    if is_held(window is Some, containment) && is_held(!is_open(r), effectiveness)
        && is_held(is_open(r), warn) && is_held(is_open(r), breach) {
        Some(
            Dues {
                containment,
                effectiveness,
                aging: if is_open(r) {
                    Some((warn->0, breach->0))
                } else {
                    None
                },
            },
        )
    } else {
        None
    }
}

/// Containment: overdue strictly past the due instant; late where recorded
/// after it. An action that is over is past containment.
pub open spec fn containment_findings(
    r: CapaRecord,
    c: CapaConfig,
    severity: Severity,
    d: Dues,
    as_of: Moment,
) -> Seq<FindingView> {
    match (config::window_of(c.containment_hours, severity), d.containment) {
        (Some(hours), Some(due)) if !is_over(r) => match r.containment_recorded_at {
            None => if instant::is_after(as_of, due) {
                seq![
                    spine::breach_of(
                        RULE_CONTAINMENT_OVERDUE@,
                        r.id@,
                        "containment not recorded; "@ + spine::severity_mark(severity)
                            + " severity requires containment within "@ + text::decimal(
                            hours as nat,
                        ) + "h of opening (due "@ + instant::moment_text(due) + ")"@,
                    ),
                ]
            } else {
                Seq::empty()
            },
            Some(recorded) => if instant::is_after(recorded@, due) {
                seq![
                    spine::note_of(
                        RULE_CONTAINMENT_LATE@,
                        Severity::Warn,
                        r.id@,
                        "containment recorded at "@ + instant::moment_text(recorded@)
                            + ", past the "@ + text::decimal(hours as nat) + "h window (due "@
                            + instant::moment_text(due) + ")"@,
                    ),
                ]
            } else {
                Seq::empty()
            },
        },
        _ => Seq::empty(),
    }
}

/// Closure: refused without a root cause or a closing date.
pub open spec fn closure_findings(r: CapaRecord) -> Seq<FindingView> {
    if r.status == Status::Open {
        Seq::empty()
    } else if !has_root_cause(r) {
        seq![
            spine::breach_of(
                RULE_CLOSURE_BLOCKED@,
                r.id@,
                "closure refused: root cause not recorded — the closure is not honored and the CAPA ages as open"@,
            ),
        ]
    } else if r.closed_at is None {
        seq![
            spine::breach_of(
                RULE_CLOSURE_BLOCKED@,
                r.id@,
                "closure refused: closed_at missing — a closure without its effective date is not honored"@,
            ),
        ]
    } else {
        Seq::empty()
    }
}

/// Effectiveness: the check of an honored closure is overdue strictly past
/// its due instant.
pub open spec fn effectiveness_findings(
    r: CapaRecord,
    c: CapaConfig,
    d: Dues,
    as_of: Moment,
) -> Seq<FindingView> {
    match d.effectiveness {
        Some(due) if !is_open(r) && !is_checked(r) && instant::is_after(as_of, due) => seq![
            spine::breach_of(
                RULE_EFFECTIVENESS_OVERDUE@,
                r.id@,
                "effectiveness check incomplete past its due date "@ + instant::moment_text(due)
                    + " ("@ + text::decimal(c.effectiveness_window_days as nat)
                    + " days after closure) — closure cannot finalize while unresolved"@,
            ),
        ],
        _ => Seq::empty(),
    }
}

pub open spec fn age_text(r: CapaRecord, as_of: Moment) -> Seq<char> {
    "CAPA open "@ + text::signed_decimal(instant::days_between(as_of, r.opened_at@))
        + " days as of "@ + instant::moment_text(as_of) + ", past the "@
}

/// Aging of an open action: a breach takes the place of the warning, and the
/// thresholds themselves are not past.
pub open spec fn aging_findings(r: CapaRecord, c: CapaConfig, d: Dues, as_of: Moment) -> Seq<
    FindingView,
> {
    match d.aging {
        Some((warn, breach)) => if instant::is_after(as_of, breach) {
            seq![
                spine::breach_of(
                    RULE_AGING_BREACH@,
                    r.id@,
                    age_text(r, as_of) + text::decimal(c.aging.breach_after_days as nat)
                        + " day aging limit"@,
                ),
            ]
        } else if instant::is_after(as_of, warn) {
            seq![
                spine::note_of(
                    RULE_AGING_WARN@,
                    Severity::Warn,
                    r.id@,
                    age_text(r, as_of) + text::decimal(c.aging.warn_after_days as nat)
                        + " day aging review threshold"@,
                ),
            ]
        } else {
            Seq::empty()
        },
        None => Seq::empty(),
    }
}

/// Whether record `i` reopens another record of the population.
pub open spec fn has_parent(s: Seq<CapaRecord>, i: int) -> bool {
    s[i].parent_id is Some && s[i].parent_id->0@ != s[i].id@ && exists|k: int|
        0 <= k < s.len() && (#[trigger] s[k]).id@ == s[i].parent_id->0@
}

/// Linkage: a reopened cycle names another record of the population.
pub open spec fn linkage_findings(s: Seq<CapaRecord>, i: int) -> Seq<FindingView> {
    match s[i].parent_id {
        Some(parent) if !has_parent(s, i) => seq![
            spine::breach_of(
                RULE_BROKEN_REOPEN_LINK@,
                s[i].id@,
                "reopen linkage broken: parent cycle "@ + parent@
                    + " is not present in the population"@,
            ),
        ],
        _ => Seq::empty(),
    }
}

/// Whether a finding of a rule is among findings.
pub open spec fn has_rule(s: Seq<FindingView>, rule_id: Seq<char>) -> bool {
    exists|k: int| 0 <= k < s.len() && (#[trigger] s[k]).rule_id == rule_id
}

/// Repetition: a possible duplicate is worth a warning, except where the
/// record's containment is overdue, and except for a reopened cycle, which
/// repeats its parent by nature.
pub open spec fn repetition_findings(s: Seq<CapaRecord>, i: int, others: Seq<FindingView>) -> Seq<
    FindingView,
> {
    match repeated_by(s, i) {
        Some(other) if !has_rule(others, RULE_CONTAINMENT_OVERDUE@) && text_of(s[i].parent_id)
            != Some(other) => seq![
            spine::note_of(
                RULE_DUPLICATE_DESCRIPTION@,
                Severity::Warn,
                s[i].id@,
                "description normalizes to the same hash as CAPA "@ + other
                    + " — possible duplicate cycle"@,
            ),
        ],
        _ => Seq::empty(),
    }
}

/// The findings on record `i` before repetition is looked at.
pub open spec fn rule_findings(
    s: Seq<CapaRecord>,
    c: CapaConfig,
    severity: Severity,
    d: Dues,
    as_of: Moment,
    i: int,
) -> Seq<FindingView> {
    containment_findings(s[i], c, severity, d, as_of) + closure_findings(s[i])
        + effectiveness_findings(s[i], c, d, as_of) + aging_findings(s[i], c, d, as_of)
        + linkage_findings(s, i)
}

/// The evaluation of record `i` with its severity and dues.
pub open spec fn evaluation_with(
    s: Seq<CapaRecord>,
    c: CapaConfig,
    severity: Severity,
    d: Dues,
    as_of: Moment,
    i: int,
) -> EvaluationView {
    let hours = config::window_of(c.containment_hours, severity);
    let found = rule_findings(s, c, severity, d, as_of, i);
    EvaluationView {
        capa_id: s[i].id@,
        severity,
        containment_required: hours is Some,
        containment_hours: hours,
        containment_due: d.containment,
        containment_recorded_at: moment_of(s[i].containment_recorded_at),
        treated_as_open: is_open(s[i]),
        effectiveness_due: d.effectiveness,
        duplicate_of: repeated_by(s, i),
        parent_id: text_of(s[i].parent_id),
        parent_present: has_parent(s, i),
        findings: found + repetition_findings(s, i, found),
    }
}

/// The evaluation of record `i`.
#[verifier::opaque]
pub open spec fn evaluation_of(s: Seq<CapaRecord>, c: CapaConfig, as_of: Moment, i: int) -> Result<
    EvaluationView,
    FaultView,
> {
    match config::severity_at(c.severity_matrix@, s[i].category, s[i].detectability, 0) {
        None => Err(
            FaultView::Config(
                ConfigRefusal::MissingMatrixCell(s[i].category.name(), s[i].detectability.name()),
            ),
        ),
        Some(severity) => match dues_of(s[i], c, severity) {
            None => Err(FaultView::OffCalendar),
            Some(d) => Ok(evaluation_with(s, c, severity, d, as_of, i)),
        },
    }
}

/// The evaluations of the first `n` records, or what stops them.
pub open spec fn evaluations_upto(s: Seq<CapaRecord>, c: CapaConfig, as_of: Moment, n: int) -> Result<
    Seq<EvaluationView>,
    FaultView,
>
    decreases n,
{
    if n <= 0 {
        Ok(Seq::empty())
    } else {
        match evaluations_upto(s, c, as_of, n - 1) {
            Err(e) => Err(e),
            Ok(before) => match evaluation_of(s, c, as_of, n - 1) {
                Err(e) => Err(e),
                Ok(e) => Ok(before.push(e)),
            },
        }
    }
}

pub open spec fn id_seen(s: Seq<CapaRecord>, i: int) -> bool {
    exists|k: int| 0 <= k < i && (#[trigger] s[k]).id@ == s[i].id@
}

/// The first id, from place `i` on, that occurred before.
pub open spec fn repeated_id(s: Seq<CapaRecord>, i: int) -> Option<Seq<char>>
    decreases s.len() - i,
{
    if 0 <= i < s.len() {
        if id_seen(s, i) {
            Some(s[i].id@)
        } else {
            repeated_id(s, i + 1)
        }
    } else {
        None
    }
}

/// The evaluation of a population, or why there is none.
pub open spec fn evaluation(s: Seq<CapaRecord>, c: CapaConfig, as_of: Moment) -> Result<
    Seq<EvaluationView>,
    FaultView,
> {
    match repeated_id(s, 0) {
        Some(id) => Err(FaultView::Config(ConfigRefusal::DuplicateCapaId(id))),
        None => evaluations_upto(s, c, as_of, s.len() as int),
    }
}

proof fn evaluations_stop(s: Seq<CapaRecord>, c: CapaConfig, as_of: Moment, m: int, n: int)
    requires
        0 <= m <= n,
        evaluations_upto(s, c, as_of, m) is Err,
    ensures
        evaluations_upto(s, c, as_of, n) == evaluations_upto(s, c, as_of, m),
    decreases n - m,
{
    if m < n {
        evaluations_stop(s, c, as_of, m, n - 1);
    }
}

struct DueInstants {
    containment: Option<Instant>,
    effectiveness: Option<Instant>,
    aging: Option<(Instant, Instant)>,
}

impl View for DueInstants {
    type V = Dues;

    closed spec fn view(&self) -> Dues {
        Dues {
            containment: moment_of(self.containment),
            effectiveness: moment_of(self.effectiveness),
            aging: match self.aging {
                Some((warn, breach)) => Some((warn@, breach@)),
                None => None,
            },
        }
    }
}

/// Whether a root cause is recorded.
pub fn root_cause_recorded(record: &CapaRecord) -> (r: bool)
    ensures
        r == has_root_cause(*record),
{
    match &record.root_cause {
        Some(cause) => !text::blank(cause.as_str()),
        None => false,
    }
}

fn open_now(record: &CapaRecord) -> (r: bool)
    ensures
        r == is_open(*record),
{
    record.status == Status::Open || !root_cause_recorded(record) || record.closed_at.is_none()
}

/// Whether the effectiveness check is completed.
pub fn checked(record: &CapaRecord) -> (r: bool)
    ensures
        r == is_checked(*record),
{
    match record.effectiveness_check {
        Some(check) => check.completed,
        None => false,
    }
}

fn dues_for(record: &CapaRecord, config: &CapaConfig, severity: Severity) -> (r: Option<
    DueInstants,
>)
    ensures
        (match r {
            Some(d) => dues_of(*record, *config, severity) == Some(d@),
            None => dues_of(*record, *config, severity) is None,
        }),
{
    let mut containment: Option<Instant> = None;
    if let Some(hours) = config.containment_hours_for(severity) {
        match record.opened_at.plus_seconds(hours as u128 * 3_600) {
            Some(due) => {
                containment = Some(due);
            },
            None => return None,
        }
    }
    let open = open_now(record);
    let mut effectiveness: Option<Instant> = None;
    if let Some(closed) = record.closed_at {
        if !open {
            match closed.plus_seconds(config.effectiveness_window_days as u128 * 86_400) {
                Some(due) => {
                    effectiveness = Some(due);
                },
                None => return None,
            }
        }
    }
    let mut aging: Option<(Instant, Instant)> = None;
    if open {
        let warn = record.opened_at.plus_seconds(config.aging.warn_after_days as u128 * 86_400);
        let breach = record.opened_at.plus_seconds(config.aging.breach_after_days as u128 * 86_400);
        match (warn, breach) {
            (Some(warn), Some(breach)) => {
                aging = Some((warn, breach));
            },
            _ => return None,
        }
    }
    Some(DueInstants { containment, effectiveness, aging })
}

fn find_containment(
    record: &CapaRecord,
    config: &CapaConfig,
    severity: Severity,
    dues: &DueInstants,
    as_of: Instant,
) -> (r: Vec<Finding>)
    ensures
        spine::findings_view(r@) == containment_findings(
            *record,
            *config,
            severity,
            dues@,
            as_of@,
        ),
{
    let id = record.id.as_str();
    let mut findings: Vec<Finding> = Vec::new();
    let over = !open_now(record) && checked(record);
    if let (Some(hours), Some(due)) = (config.containment_hours_for(severity), dues.containment) {
        if !over {
            match record.containment_recorded_at {
                None => {
                    if as_of.after(due) {
                        let mut message = String::from_str("containment not recorded; ");
                        message.append(spine::severity_label(severity));
                        message.append(" severity requires containment within ");
                        message.append(text::unsigned_text(hours as u128).as_str());
                        message.append("h of opening (due ");
                        message.append(due.text().as_str());
                        message.append(")");
                        findings.push(Finding::breach(RULE_CONTAINMENT_OVERDUE, id, message));
                    }
                },
                Some(recorded) => {
                    if recorded.after(due) {
                        let mut message = String::from_str("containment recorded at ");
                        message.append(recorded.text().as_str());
                        message.append(", past the ");
                        message.append(text::unsigned_text(hours as u128).as_str());
                        message.append("h window (due ");
                        message.append(due.text().as_str());
                        message.append(")");
                        findings.push(
                            Finding::note(RULE_CONTAINMENT_LATE, Severity::Warn, id, message),
                        );
                    }
                },
            }
        }
    }
    assert(spine::findings_view(findings@) =~= containment_findings(
        *record,
        *config,
        severity,
        dues@,
        as_of@,
    ));
    findings
}

fn find_closure(record: &CapaRecord) -> (r: Vec<Finding>)
    ensures
        spine::findings_view(r@) == closure_findings(*record),
{
    let id = record.id.as_str();
    let mut findings: Vec<Finding> = Vec::new();
    if record.status == Status::Closed {
        if !root_cause_recorded(record) {
            findings.push(
                Finding::breach(
                    RULE_CLOSURE_BLOCKED,
                    id,
                    String::from_str(
                        "closure refused: root cause not recorded — the closure is not honored and the CAPA ages as open",
                    ),
                ),
            );
        } else if record.closed_at.is_none() {
            findings.push(
                Finding::breach(
                    RULE_CLOSURE_BLOCKED,
                    id,
                    String::from_str(
                        "closure refused: closed_at missing — a closure without its effective date is not honored",
                    ),
                ),
            );
        }
    }
    assert(spine::findings_view(findings@) =~= closure_findings(*record));
    findings
}

fn find_effectiveness(
    record: &CapaRecord,
    config: &CapaConfig,
    dues: &DueInstants,
    as_of: Instant,
) -> (r: Vec<Finding>)
    ensures
        spine::findings_view(r@) == effectiveness_findings(*record, *config, dues@, as_of@),
{
    let mut findings: Vec<Finding> = Vec::new();
    if let Some(due) = dues.effectiveness {
        if !open_now(record) && !checked(record) && as_of.after(due) {
            let mut message = String::from_str(
                "effectiveness check incomplete past its due date ",
            );
            message.append(due.text().as_str());
            message.append(" (");
            message.append(text::unsigned_text(config.effectiveness_window_days as u128).as_str());
            message.append(" days after closure) — closure cannot finalize while unresolved");
            findings.push(
                Finding::breach(RULE_EFFECTIVENESS_OVERDUE, record.id.as_str(), message),
            );
        }
    }
    assert(spine::findings_view(findings@) =~= effectiveness_findings(
        *record,
        *config,
        dues@,
        as_of@,
    ));
    findings
}

fn age_line(record: &CapaRecord, as_of: Instant) -> (r: String)
    ensures
        r@ == age_text(*record, as_of@),
{
    let mut out = String::from_str("CAPA open ");
    out.append(text::signed_text(as_of.days_since(record.opened_at)).as_str());
    out.append(" days as of ");
    out.append(as_of.text().as_str());
    out.append(", past the ");
    out
}

fn find_aging(record: &CapaRecord, config: &CapaConfig, dues: &DueInstants, as_of: Instant) -> (r:
    Vec<Finding>)
    ensures
        spine::findings_view(r@) == aging_findings(*record, *config, dues@, as_of@),
{
    let id = record.id.as_str();
    let mut findings: Vec<Finding> = Vec::new();
    if let Some((warn, breach)) = dues.aging {
        if as_of.after(breach) {
            let mut message = age_line(record, as_of);
            message.append(text::unsigned_text(config.aging.breach_after_days as u128).as_str());
            message.append(" day aging limit");
            findings.push(Finding::breach(RULE_AGING_BREACH, id, message));
        } else if as_of.after(warn) {
            let mut message = age_line(record, as_of);
            message.append(text::unsigned_text(config.aging.warn_after_days as u128).as_str());
            message.append(" day aging review threshold");
            findings.push(Finding::note(RULE_AGING_WARN, Severity::Warn, id, message));
        }
    }
    assert(spine::findings_view(findings@) =~= aging_findings(*record, *config, dues@, as_of@));
    findings
}

fn parent_found(capas: &[CapaRecord], i: usize) -> (r: bool)
    requires
        i < capas.len(),
    ensures
        r == has_parent(capas@, i as int),
{
    match &capas[i].parent_id {
        None => false,
        Some(parent) => {
            if text::same_text(parent.as_str(), capas[i].id.as_str()) {
                return false;
            }
            let mut k: usize = 0;
            while k < capas.len()
                invariant
                    k <= capas.len(),
                    i < capas.len(),
                    capas@[i as int].parent_id == Some(*parent),
                    parent@ != capas@[i as int].id@,
                    forall|j: int| 0 <= j < k ==> (#[trigger] capas@[j]).id@ != parent@,
                decreases capas.len() - k,
            {
                if text::same_text(capas[k].id.as_str(), parent.as_str()) {
                    return true;
                }
                k = k + 1;
            }
            false
        },
    }
}

fn find_linkage(capas: &[CapaRecord], i: usize, parent_present: bool) -> (r: Vec<Finding>)
    requires
        i < capas.len(),
        parent_present == has_parent(capas@, i as int),
    ensures
        spine::findings_view(r@) == linkage_findings(capas@, i as int),
{
    let mut findings: Vec<Finding> = Vec::new();
    if let Some(parent) = &capas[i].parent_id {
        if !parent_present {
            let mut message = String::from_str("reopen linkage broken: parent cycle ");
            message.append(parent.as_str());
            message.append(" is not present in the population");
            findings.push(
                Finding::breach(RULE_BROKEN_REOPEN_LINK, capas[i].id.as_str(), message),
            );
        }
    }
    assert(spine::findings_view(findings@) =~= linkage_findings(capas@, i as int));
    findings
}

fn found_by(findings: &Vec<Finding>, rule_id: &str) -> (r: bool)
    ensures
        r == has_rule(spine::findings_view(findings@), rule_id@),
{
    let ghost all = spine::findings_view(findings@);
    let mut k: usize = 0;
    while k < findings.len()
        invariant
            k <= findings.len(),
            all == spine::findings_view(findings@),
            forall|j: int| 0 <= j < k ==> (#[trigger] all[j]).rule_id != rule_id@,
        decreases findings.len() - k,
    {
        assert(all[k as int] == findings@[k as int]@);
        if text::same_text(findings[k].rule_id.as_str(), rule_id) {
            return true;
        }
        k = k + 1;
    }
    false
}

fn find_repetition(
    capas: &[CapaRecord],
    i: usize,
    duplicate_of: &Option<String>,
    others: &Vec<Finding>,
) -> (r: Vec<Finding>)
    requires
        i < capas.len(),
        text_of(*duplicate_of) == repeated_by(capas@, i as int),
    ensures
        spine::findings_view(r@) == repetition_findings(
            capas@,
            i as int,
            spine::findings_view(others@),
        ),
{
    let mut findings: Vec<Finding> = Vec::new();
    if let Some(other) = duplicate_of {
        let reopened = match &capas[i].parent_id {
            Some(parent) => text::same_text(parent.as_str(), other.as_str()),
            None => false,
        };
        if !found_by(others, RULE_CONTAINMENT_OVERDUE) && !reopened {
            let mut message = String::from_str("description normalizes to the same hash as CAPA ");
            message.append(other.as_str());
            message.append(" — possible duplicate cycle");
            findings.push(
                Finding::note(
                    RULE_DUPLICATE_DESCRIPTION,
                    Severity::Warn,
                    capas[i].id.as_str(),
                    message,
                ),
            );
        }
    }
    assert(spine::findings_view(findings@) =~= repetition_findings(
        capas@,
        i as int,
        spine::findings_view(others@),
    ));
    findings
}

fn evaluate_one(
    capas: &[CapaRecord],
    hashes: &Vec<String>,
    config: &CapaConfig,
    as_of: Instant,
    i: usize,
) -> (r: Result<CapaEvaluation, Fault>)
    requires
        i < capas.len(),
        text::texts(hashes@) == digests(capas@),
    ensures
        (match r {
            Ok(e) => evaluation_of(capas@, *config, as_of@, i as int) == Ok::<
                EvaluationView,
                FaultView,
            >(e@),
            Err(e) => evaluation_of(capas@, *config, as_of@, i as int) == Err::<
                EvaluationView,
                FaultView,
            >(e@),
        }),
{
    proof {
        reveal(evaluation_of);
    }
    let capa = &capas[i];
    let severity = match config.severity_for(capa.category, capa.detectability) {
        Some(severity) => severity,
        None => {
            return Err(
                Fault::Config(
                    ConfigError::MissingMatrixCell(
                        String::from_str(capa.category.label()),
                        String::from_str(capa.detectability.label()),
                    ),
                ),
            );
        },
    };
    let dues = match dues_for(capa, config, severity) {
        Some(dues) => dues,
        None => return Err(Fault::OffCalendar),
    };
    let containment_hours = config.containment_hours_for(severity);
    let parent_present = parent_found(capas, i);
    let duplicate_of = duplicate_for(capas, hashes, i);
    let mut findings = find_containment(capa, config, severity, &dues, as_of);
    spine::extend_findings(&mut findings, find_closure(capa));
    spine::extend_findings(&mut findings, find_effectiveness(capa, config, &dues, as_of));
    spine::extend_findings(&mut findings, find_aging(capa, config, &dues, as_of));
    spine::extend_findings(&mut findings, find_linkage(capas, i, parent_present));
    let repetition = find_repetition(capas, i, &duplicate_of, &findings);
    spine::extend_findings(&mut findings, repetition);
    Ok(
        CapaEvaluation {
            capa_id: capa.id.clone(),
            severity,
            containment_required: containment_hours.is_some(),
            containment_hours,
            containment_due: dues.containment,
            containment_recorded_at: capa.containment_recorded_at,
            treated_as_open: open_now(capa),
            effectiveness_due: dues.effectiveness,
            duplicate_of,
            parent_id: match &capa.parent_id {
                Some(parent) => Some(parent.clone()),
                None => None,
            },
            parent_present,
            findings,
        },
    )
}

fn find_repeated_id(capas: &[CapaRecord]) -> (r: Option<usize>)
    ensures
        (match r {
            Some(i) => i < capas.len() && repeated_id(capas@, 0) == Some(capas@[i as int].id@),
            None => repeated_id(capas@, 0) is None,
        }),
{
    let mut i: usize = 0;
    while i < capas.len()
        invariant
            i <= capas.len(),
            repeated_id(capas@, 0) == repeated_id(capas@, i as int),
        decreases capas.len() - i,
    {
        let mut k: usize = 0;
        while k < i
            invariant
                k <= i < capas.len(),
                repeated_id(capas@, 0) == repeated_id(capas@, i as int),
                forall|j: int| 0 <= j < k ==> (#[trigger] capas@[j]).id@ != capas@[i as int].id@,
            decreases i - k,
        {
            if text::same_text(capas[k].id.as_str(), capas[i].id.as_str()) {
                assert(id_seen(capas@, i as int));
                return Some(i);
            }
            k = k + 1;
        }
        assert(!id_seen(capas@, i as int));
        i = i + 1;
    }
    None
}

/// Evaluate a population. Says so where a due instant lies outside the
/// calendar.
pub fn try_evaluate(capas: &[CapaRecord], config: &CapaConfig, as_of: Instant) -> (r: Result<
    Vec<CapaEvaluation>,
    Fault,
>)
    ensures
        (match r {
            Ok(v) => evaluation(capas@, *config, as_of@) == Ok::<Seq<EvaluationView>, FaultView>(
                evaluations_view(v@),
            ),
            Err(e) => evaluation(capas@, *config, as_of@) == Err::<
                Seq<EvaluationView>,
                FaultView,
            >(e@),
        }),
{
    match find_repeated_id(capas) {
        Some(i) => {
            return Err(Fault::Config(ConfigError::DuplicateCapaId(capas[i].id.clone())));
        },
        None => {},
    }
    let hashes = all_digests(capas);
    let mut out: Vec<CapaEvaluation> = Vec::new();
    let mut i: usize = 0;
    assert(evaluations_view(out@) =~= Seq::<EvaluationView>::empty());
    while i < capas.len()
        invariant
            i <= capas.len(),
            repeated_id(capas@, 0) is None,
            text::texts(hashes@) == digests(capas@),
            evaluations_upto(capas@, *config, as_of@, i as int) == Ok::<
                Seq<EvaluationView>,
                FaultView,
            >(evaluations_view(out@)),
        decreases capas.len() - i,
    {
        match evaluate_one(capas, &hashes, config, as_of, i) {
            Err(e) => {
                proof {
                    evaluations_stop(capas@, *config, as_of@, i + 1, capas.len() as int);
                }
                return Err(e);
            },
            Ok(e) => {
                let ghost was = out@;
                out.push(e);
                assert(evaluations_view(out@) =~= evaluations_view(was).push(e@));
            },
        }
        i = i + 1;
    }
    Ok(out)
}

/// Evaluate a population, in the order in which its records are given. A
/// population in which an id occurs twice is refused.
pub fn evaluate(capas: &[CapaRecord], config: &CapaConfig, as_of: Instant) -> (r: Result<
    Vec<CapaEvaluation>,
    ConfigError,
>)
    requires
        evaluation(capas@, *config, as_of@) != Err::<Seq<EvaluationView>, FaultView>(
            FaultView::OffCalendar,
        ),
    ensures
        (match r {
            Ok(v) => evaluation(capas@, *config, as_of@) == Ok::<Seq<EvaluationView>, FaultView>(
                evaluations_view(v@),
            ),
            Err(e) => evaluation(capas@, *config, as_of@) == Err::<
                Seq<EvaluationView>,
                FaultView,
            >(FaultView::Config(e@)),
        }),
{
    match try_evaluate(capas, config, as_of) {
        Ok(v) => Ok(v),
        Err(Fault::Config(e)) => Err(e),
        Err(Fault::OffCalendar) => Err(ConfigError::Json(String::new())),
    }
}

/// The findings of the first `n` evaluations, one behind the other.
pub open spec fn findings_upto(s: Seq<EvaluationView>, n: int) -> Seq<FindingView>
    decreases n,
{
    if n <= 0 {
        Seq::empty()
    } else {
        findings_upto(s, n - 1) + s[n - 1].findings
    }
}

/// The findings of evaluations, one behind the other.
pub fn all_findings(evaluations: &Vec<CapaEvaluation>) -> (r: Vec<Finding>)
    ensures
        spine::findings_view(r@) == findings_upto(
            evaluations_view(evaluations@),
            evaluations.len() as int,
        ),
{
    let ghost all = evaluations_view(evaluations@);
    let mut out: Vec<Finding> = Vec::new();
    let mut i: usize = 0;
    assert(spine::findings_view(out@) =~= Seq::<FindingView>::empty());
    while i < evaluations.len()
        invariant
            i <= evaluations.len(),
            all == evaluations_view(evaluations@),
            spine::findings_view(out@) == findings_upto(all, i as int),
        decreases evaluations.len() - i,
    {
        assert(all[i as int] == evaluations@[i as int]@);
        spine::extend_findings(&mut out, spine::copy_findings(&evaluations[i].findings));
        i = i + 1;
    }
    out
}

fn same_instant(a: Option<Instant>, b: Option<Instant>) -> (r: bool)
    ensures
        r == (moment_of(a) == moment_of(b)),
{
    match (a, b) {
        (Some(x), Some(y)) => {
            let (p, q, s) = x.parts();
            let (t, u, v) = y.parts();
            p == t && q == u && s == v
        },
        (None, None) => true,
        _ => false,
    }
}

fn same_option(a: &Option<String>, b: &Option<String>) -> (r: bool)
    ensures
        r == (text_of(*a) == text_of(*b)),
{
    match (a, b) {
        (Some(x), Some(y)) => text::same_text(x.as_str(), y.as_str()),
        (None, None) => true,
        _ => false,
    }
}

fn same_hours(a: Option<u64>, b: Option<u64>) -> (r: bool)
    ensures
        r == (a == b),
{
    match (a, b) {
        (Some(x), Some(y)) => x == y,
        (None, None) => true,
        _ => false,
    }
}

impl CapaEvaluation {
    /// Whether two evaluations say the same.
    pub fn agrees_with(&self, other: &CapaEvaluation) -> (r: bool)
        ensures
            r == (self@ == other@),
    {
        let same = text::same_text(self.capa_id.as_str(), other.capa_id.as_str()) && self.severity
            == other.severity && self.containment_required == other.containment_required
            && same_hours(self.containment_hours, other.containment_hours) && same_instant(
            self.containment_due,
            other.containment_due,
        ) && same_instant(self.containment_recorded_at, other.containment_recorded_at)
            && self.treated_as_open == other.treated_as_open && same_instant(
            self.effectiveness_due,
            other.effectiveness_due,
        ) && same_option(&self.duplicate_of, &other.duplicate_of) && same_option(
            &self.parent_id,
            &other.parent_id,
        ) && self.parent_present == other.parent_present && spine::same_findings(
            &self.findings,
            &other.findings,
        );
        proof {
            if same {
                assert(self@ =~= other@);
            }
        }
        same
    }
}

} // verus!
