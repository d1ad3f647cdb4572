//! What an evaluation says of each action, in terms of the population and
//! the tables alone.

use vstd::prelude::*;

use crate::capa::config;
use crate::capa::config::{CapaConfig, SeverityCell};
use crate::capa::engine;
use crate::capa::engine::EvaluationView;
use crate::capa::laws;
use crate::capa::model::{CapaRecord, Category, Detectability, Status};
use crate::date::MAX_DAY;
use crate::instant;
use crate::instant::Moment;
use crate::spine::{FindingView, Severity};
use crate::text;

verus! {

// ---- clocks ----

/// The seconds up to a moment, its fraction left out.
pub open spec fn seconds_of(m: Moment) -> int {
    m.day * 86_400 + m.second
}

/// Whether a moment is past the end of some seconds that begin at another;
/// the end itself is not past.
pub open spec fn is_past(m: Moment, from: Moment, seconds: int) -> bool {
    ||| seconds_of(m) > seconds_of(from) + seconds
    ||| seconds_of(m) == seconds_of(from) + seconds && m.nano > from.nano % 1_000_000_000
}

/// Whether the calendar holds the end of some seconds that begin at a moment.
pub open spec fn is_reached(from: Moment, seconds: int) -> bool {
    seconds_of(from) + seconds < (MAX_DAY + 1) * 86_400
}

/// A clock that runs for some seconds ends so many seconds later, in the same
/// fraction of a second, where the calendar holds that; a moment is after the
/// end exactly when it is past it.
pub proof fn clocks_end_after_their_seconds(from: Moment, seconds: int, m: Moment)
    requires
        instant::is_moment(from),
        instant::is_moment(m),
        seconds > 0,
    ensures
        (match instant::later(from, seconds) {
            Some(end) => {
                &&& is_reached(from, seconds)
                &&& 0 <= end.second < 86_400
                &&& seconds_of(end) == seconds_of(from) + seconds
                &&& end.nano == from.nano % 1_000_000_000
                &&& instant::is_after(m, end) <==> is_past(m, from, seconds)
            },
            None => !is_reached(from, seconds),
        }),
{
    let total = from.second + seconds;
    assert(total == 86_400 * (total / 86_400) + total % 86_400);
    assert(0 <= total % 86_400 < 86_400);
    if instant::later(from, seconds) is Some {
        let end = instant::later(from, seconds)->0;
        assert(end.nano == from.nano % 1_000_000_000);
        assert(seconds_of(end) == seconds_of(from) + seconds);
        if m.day != end.day {
            assert(m.day > end.day <==> seconds_of(m) > seconds_of(end));
        }
    }
}

// ---- tables ----

/// Whether cell `k` is the one for a category and a detectability.
pub open spec fn is_for(
    s: Seq<SeverityCell>,
    k: int,
    category: Category,
    detectability: Detectability,
) -> bool {
    0 <= k < s.len() && s[k].category == category && s[k].detectability == detectability
}

/// Whether exactly one cell is for a category and a detectability.
pub open spec fn has_one_cell(
    s: Seq<SeverityCell>,
    category: Category,
    detectability: Detectability,
) -> bool {
    &&& exists|k: int| #[trigger] is_for(s, k, category, detectability)
    &&& forall|j: int, k: int| #[trigger]
        is_for(s, j, category, detectability) && #[trigger] is_for(s, k, category, detectability)
            ==> j == k
}

proof fn cells_count(s: Seq<SeverityCell>, category: Category, detectability: Detectability, n: int)
    requires
        0 <= n <= s.len(),
    ensures
        ({
            let count = config::cells(s, category, detectability, n);
            &&& count >= 0
            &&& count == 0 <==> forall|k: int|
                k < n ==> !#[trigger] is_for(s, k, category, detectability)
            &&& count <= 1 <==> forall|j: int, k: int|
                j < n && k < n && #[trigger] is_for(s, j, category, detectability)
                    && #[trigger] is_for(s, k, category, detectability) ==> j == k
        }),
    decreases n,
{
    if n > 0 {
        cells_count(s, category, detectability, n - 1);
        let before = config::cells(s, category, detectability, n - 1);
        let here = is_for(s, n - 1, category, detectability);
        assert(here == config::is_cell(s[n - 1], category, detectability));
        if here && before >= 1 {
            let j = choose|j: int| j < n - 1 && #[trigger] is_for(s, j, category, detectability);
            assert(is_for(s, j, category, detectability) && j != n - 1);
        }
        if before > 1 {
            let (j, k) = choose|j: int, k: int|
                j < n - 1 && k < n - 1 && #[trigger] is_for(s, j, category, detectability)
                    && #[trigger] is_for(s, k, category, detectability) && j != k;
            assert(is_for(s, j, category, detectability) && is_for(
                s,
                k,
                category,
                detectability,
            ));
        }
    }
}

proof fn cell_judged(s: Seq<SeverityCell>, category: Category, detectability: Detectability)
    ensures
        config::cell_error(s, category, detectability) is None <==> has_one_cell(
            s,
            category,
            detectability,
        ),
{
    cells_count(s, category, detectability, s.len() as int);
    if has_one_cell(s, category, detectability) {
        let k = choose|k: int| #[trigger] is_for(s, k, category, detectability);
        assert(k < s.len());
    }
}

/// Tables are valid exactly when no containment window is zero hours, the
/// days of the aging warning are positive and fewer than those of the breach,
/// the effectiveness window is positive, and the matrix has exactly one cell
/// for each category and detectability.
pub proof fn valid_tables_hold_together(c: CapaConfig)
    ensures
        config::config_error(c) is None <==> {
            &&& c.containment_hours.breach != Some(0u64)
            &&& c.containment_hours.warn != Some(0u64)
            &&& c.containment_hours.info != Some(0u64)
            &&& 0 < c.aging.warn_after_days < c.aging.breach_after_days
            &&& c.effectiveness_window_days > 0
            &&& forall|category: Category, detectability: Detectability| #[trigger]
                has_one_cell(c.severity_matrix@, category, detectability)
        },
{
    let s = c.severity_matrix@;
    assert forall|category: Category, detectability: Detectability| #[trigger]
        has_one_cell(s, category, detectability) == (config::cell_error(
            s,
            category,
            detectability,
        ) is None) by {
        cell_judged(s, category, detectability);
    }
    if config::matrix_error(s) is None {
        assert forall|category: Category, detectability: Detectability| #[trigger]
            has_one_cell(s, category, detectability) by {
            assert(config::row_error(s, Category::Safety) is None);
            assert(config::row_error(s, Category::Regulatory) is None);
            assert(config::row_error(s, Category::Quality) is None);
            assert(config::cell_error(s, category, detectability) is None);
        }
    }
    if forall|category: Category, detectability: Detectability| #[trigger]
        has_one_cell(s, category, detectability) {
        assert(has_one_cell(s, Category::Safety, Detectability::High));
        assert(has_one_cell(s, Category::Safety, Detectability::Medium));
        assert(has_one_cell(s, Category::Safety, Detectability::Low));
        assert(has_one_cell(s, Category::Regulatory, Detectability::High));
        assert(has_one_cell(s, Category::Regulatory, Detectability::Medium));
        assert(has_one_cell(s, Category::Regulatory, Detectability::Low));
        assert(has_one_cell(s, Category::Quality, Detectability::High));
        assert(has_one_cell(s, Category::Quality, Detectability::Medium));
        assert(has_one_cell(s, Category::Quality, Detectability::Low));
    }
}

proof fn severity_is_of_a_cell(
    s: Seq<SeverityCell>,
    category: Category,
    detectability: Detectability,
    i: int,
)
    requires
        0 <= i <= s.len(),
    ensures
        config::severity_at(s, category, detectability, i) matches Some(x) ==> exists|k: int|
            #[trigger] is_for(s, k, category, detectability) && s[k].severity == x,
    decreases s.len() - i,
{
    if i < s.len() {
        severity_is_of_a_cell(s, category, detectability, i + 1);
        if config::is_cell(s[i], category, detectability) {
            assert(is_for(s, i, category, detectability));
        }
    }
}

// ---- one action ----

/// Whether a closure stands: it is requested, with a root cause and a closing
/// date.
pub open spec fn is_closed(r: CapaRecord) -> bool {
    r.status == Status::Closed && r.root_cause is Some && !text::is_blank(r.root_cause->0@)
        && r.closed_at is Some
}

/// Whether the effectiveness check is completed.
pub open spec fn is_effective(r: CapaRecord) -> bool {
    r.effectiveness_check is Some && r.effectiveness_check->0.completed
}

/// The containment window of a severity, in hours.
pub open spec fn hours_for(c: CapaConfig, severity: Severity) -> Option<u64> {
    match severity {
        Severity::Breach => c.containment_hours.breach,
        Severity::Warn => c.containment_hours.warn,
        Severity::Info => c.containment_hours.info,
    }
}

/// Whether the instants of a record are moments.
pub open spec fn has_moments(r: CapaRecord) -> bool {
    &&& instant::is_moment(r.opened_at@)
    &&& r.closed_at is Some ==> instant::is_moment(r.closed_at->0@)
    &&& r.containment_recorded_at is Some ==> instant::is_moment(r.containment_recorded_at->0@)
}

/// Whether a finding of a rule is among findings.
pub open spec fn is_found(s: Seq<FindingView>, rule_id: Seq<char>) -> bool {
    exists|k: int| 0 <= k < s.len() && (#[trigger] s[k]).rule_id == rule_id
}

proof fn rules_differ()
    ensures
        "CONTAINMENT_OVERDUE"@.len() == 19,
        "CONTAINMENT_LATE"@.len() == 16,
        "CLOSURE_BLOCKED"@.len() == 15,
        "EFFECTIVENESS_OVERDUE"@.len() == 21,
        "EFFECTIVENESS_OVERDUE"@[0] == 'E',
        "AGING_WARN"@.len() == 10,
        "AGING_BREACH"@.len() == 12,
        "BROKEN_REOPEN_LINK"@.len() == 18,
        "DUPLICATE_DESCRIPTION"@.len() == 21,
        "DUPLICATE_DESCRIPTION"@[0] == 'D',
{
    reveal_strlit("CLOSURE_BLOCKED");
    reveal_strlit("CONTAINMENT_OVERDUE");
    reveal_strlit("CONTAINMENT_LATE");
    reveal_strlit("EFFECTIVENESS_OVERDUE");
    reveal_strlit("AGING_WARN");
    reveal_strlit("AGING_BREACH");
    reveal_strlit("DUPLICATE_DESCRIPTION");
    reveal_strlit("BROKEN_REOPEN_LINK");
}

proof fn evaluated(s: Seq<CapaRecord>, c: CapaConfig, as_of: Moment, n: int, i: int)
    requires
        0 <= i < n,
        engine::evaluations_upto(s, c, as_of, n) is Ok,
    ensures
        engine::evaluations_upto(s, c, as_of, n)->Ok_0.len() == n,
        engine::evaluation_of(s, c, as_of, i) == Ok::<EvaluationView, engine::FaultView>(
            engine::evaluations_upto(s, c, as_of, n)->Ok_0[i],
        ),
    decreases n,
{
    if n > 1 && i < n - 1 {
        evaluated(s, c, as_of, n - 1, i);
    } else if n > 1 {
        evaluated(s, c, as_of, n - 1, 0);
    } else {
        reveal_with_fuel(engine::evaluations_upto, 2);
    }
}

/// Which parts of an evaluation hold findings of a rule.
proof fn parts_judged(s: Seq<CapaRecord>, c: CapaConfig, as_of: Moment, i: int, rule: Seq<char>)
    requires
        engine::evaluation_of(s, c, as_of, i) is Ok,
    ensures
        ({
            let e = engine::evaluation_of(s, c, as_of, i)->Ok_0;
            let d = engine::dues_of(s[i], c, e.severity)->0;
            let found = engine::rule_findings(s, c, e.severity, d, as_of, i);
            &&& engine::dues_of(s[i], c, e.severity) is Some
            &&& e == engine::evaluation_with(s, c, e.severity, d, as_of, i)
            &&& config::severity_at(c.severity_matrix@, s[i].category, s[i].detectability, 0)
                == Some(e.severity)
            &&& is_found(e.findings, rule) <==> {
                ||| is_found(engine::containment_findings(s[i], c, e.severity, d, as_of), rule)
                ||| is_found(engine::closure_findings(s[i]), rule)
                ||| is_found(engine::effectiveness_findings(s[i], c, d, as_of), rule)
                ||| is_found(engine::aging_findings(s[i], c, d, as_of), rule)
                ||| is_found(engine::linkage_findings(s, i), rule)
                ||| is_found(engine::repetition_findings(s, i, found), rule)
            }
        }),
{
    reveal(engine::evaluation_of);
    let e = engine::evaluation_of(s, c, as_of, i)->Ok_0;
    let d = engine::dues_of(s[i], c, e.severity)->0;
    let p = engine::containment_findings(s[i], c, e.severity, d, as_of);
    let q = engine::closure_findings(s[i]);
    let r = engine::effectiveness_findings(s[i], c, d, as_of);
    let t = engine::aging_findings(s[i], c, d, as_of);
    let u = engine::linkage_findings(s, i);
    let found = engine::rule_findings(s, c, e.severity, d, as_of, i);
    let w = engine::repetition_findings(s, i, found);
    laws::has_rule_joins(p, q, rule);
    laws::has_rule_joins(p + q, r, rule);
    laws::has_rule_joins(p + q + r, t, rule);
    laws::has_rule_joins(p + q + r + t, u, rule);
    laws::has_rule_joins(found, w, rule);
}

/// A sequence of at most one finding holds a rule exactly where it holds a
/// finding of it.
proof fn single(s: Seq<FindingView>, rule: Seq<char>)
    requires
        s.len() <= 1,
    ensures
        is_found(s, rule) <==> s.len() == 1 && s[0].rule_id == rule,
{
    if s.len() == 1 && s[0].rule_id == rule {
        assert(s[0].rule_id == rule);
    }
}

/// What the tables make of an action. The severity is that of the cell for
/// its category and detectability. Containment is required where the severity
/// has a window, and is due so many hours after the opening. The
/// effectiveness check of a closure that stands is due so many days after the
/// closing; nothing else has one due.
pub proof fn actions_are_classified_by_the_tables(
    s: Seq<CapaRecord>,
    c: CapaConfig,
    as_of: Moment,
    i: int,
)
    requires
        config::config_error(c) is None,
        0 <= i < s.len(),
        has_moments(s[i]),
        engine::evaluation(s, c, as_of) is Ok,
    ensures
        ({
            let r = s[i];
            let e = engine::evaluation(s, c, as_of)->Ok_0[i];
            let hours = hours_for(c, e.severity);
            &&& engine::evaluation(s, c, as_of)->Ok_0.len() == s.len()
            &&& e.capa_id == r.id@
            &&& forall|k: int| #[trigger]
                is_for(c.severity_matrix@, k, r.category, r.detectability)
                    ==> c.severity_matrix@[k].severity == e.severity
            &&& e.containment_hours == hours
            &&& e.containment_required <==> hours is Some
            &&& e.containment_due is Some <==> hours is Some
            &&& hours is Some ==> {
                &&& seconds_of(e.containment_due->0) == seconds_of(r.opened_at@) + hours->0 * 3_600
                &&& e.containment_due->0.nano == r.opened_at@.nano % 1_000_000_000
            }
            &&& e.treated_as_open <==> !is_closed(r)
            &&& e.effectiveness_due is Some <==> is_closed(r)
            &&& is_closed(r) ==> {
                &&& seconds_of(e.effectiveness_due->0) == seconds_of(r.closed_at->0@)
                    + c.effectiveness_window_days * 86_400
                &&& e.effectiveness_due->0.nano == r.closed_at->0@.nano % 1_000_000_000
            }
            &&& e.containment_recorded_at is Some <==> r.containment_recorded_at is Some
            &&& e.containment_recorded_at is Some ==> e.containment_recorded_at->0
                == r.containment_recorded_at->0@
            &&& e.parent_id is Some <==> r.parent_id is Some
            &&& e.parent_id is Some ==> e.parent_id->0 == r.parent_id->0@
        }),
{
    let r = s[i];
    evaluated(s, c, as_of, s.len() as int, i);
    let e = engine::evaluation_of(s, c, as_of, i)->Ok_0;
    parts_judged(s, c, as_of, i, "CLOSURE_BLOCKED"@);
    valid_tables_hold_together(c);
    severity_is_of_a_cell(c.severity_matrix@, r.category, r.detectability, 0);
    assert(has_one_cell(c.severity_matrix@, r.category, r.detectability));
    let hours = hours_for(c, e.severity);
    assert(hours == config::window_of(c.containment_hours, e.severity));
    if hours is Some {
        clocks_end_after_their_seconds(r.opened_at@, hours->0 * 3_600, r.opened_at@);
    }
    if is_closed(r) {
        clocks_end_after_their_seconds(
            r.closed_at->0@,
            c.effectiveness_window_days * 86_400,
            r.opened_at@,
        );
    }
}

/// Which clocks an action has overrun. Containment is overdue where none is
/// recorded and its window is past, and late where it was recorded past its
/// window, in both cases unless the closure stands and was found effective.
/// The effectiveness check is overdue where a closure stands, no check is
/// completed, and its window is past. An action whose closure does not stand
/// ages: past the days of a breach it is one, and otherwise past the days of
/// a warning it is warned of.
pub proof fn clocks_are_judged_by_the_tables(
    s: Seq<CapaRecord>,
    c: CapaConfig,
    as_of: Moment,
    i: int,
)
    requires
        config::config_error(c) is None,
        0 <= i < s.len(),
        has_moments(s[i]),
        instant::is_moment(as_of),
        engine::evaluation(s, c, as_of) is Ok,
    ensures
        ({
            let r = s[i];
            let e = engine::evaluation(s, c, as_of)->Ok_0[i];
            let hours = hours_for(c, e.severity);
            let awaited = hours is Some && !(is_closed(r) && is_effective(r));
            &&& is_found(e.findings, "CONTAINMENT_OVERDUE"@) <==> awaited
                && r.containment_recorded_at is None && is_past(
                as_of,
                r.opened_at@,
                hours->0 * 3_600,
            )
            &&& is_found(e.findings, "CONTAINMENT_LATE"@) <==> awaited
                && r.containment_recorded_at is Some && is_past(
                r.containment_recorded_at->0@,
                r.opened_at@,
                hours->0 * 3_600,
            )
            &&& is_found(e.findings, "CLOSURE_BLOCKED"@) <==> r.status == Status::Closed
                && !is_closed(r)
            &&& is_found(e.findings, "EFFECTIVENESS_OVERDUE"@) <==> is_closed(r) && !is_effective(r)
                && is_past(as_of, r.closed_at->0@, c.effectiveness_window_days * 86_400)
            &&& is_found(e.findings, "AGING_BREACH"@) <==> !is_closed(r) && is_past(
                as_of,
                r.opened_at@,
                c.aging.breach_after_days * 86_400,
            )
            &&& is_found(e.findings, "AGING_WARN"@) <==> !is_closed(r) && is_past(
                as_of,
                r.opened_at@,
                c.aging.warn_after_days * 86_400,
            ) && !is_past(as_of, r.opened_at@, c.aging.breach_after_days * 86_400)
        }),
{
    let r = s[i];
    evaluated(s, c, as_of, s.len() as int, i);
    let e = engine::evaluation_of(s, c, as_of, i)->Ok_0;
    valid_tables_hold_together(c);
    rules_differ();
    parts_judged(s, c, as_of, i, "CONTAINMENT_OVERDUE"@);
    parts_judged(s, c, as_of, i, "CONTAINMENT_LATE"@);
    parts_judged(s, c, as_of, i, "CLOSURE_BLOCKED"@);
    parts_judged(s, c, as_of, i, "EFFECTIVENESS_OVERDUE"@);
    parts_judged(s, c, as_of, i, "AGING_BREACH"@);
    parts_judged(s, c, as_of, i, "AGING_WARN"@);
    let hours = hours_for(c, e.severity);
    let d = engine::dues_of(r, c, e.severity)->0;
    assert(hours == config::window_of(c.containment_hours, e.severity));
    if hours is Some {
        clocks_end_after_their_seconds(r.opened_at@, hours->0 * 3_600, as_of);
        if r.containment_recorded_at is Some {
            clocks_end_after_their_seconds(
                r.opened_at@,
                hours->0 * 3_600,
                r.containment_recorded_at->0@,
            );
        }
    }
    if is_closed(r) {
        clocks_end_after_their_seconds(
            r.closed_at->0@,
            c.effectiveness_window_days * 86_400,
            as_of,
        );
    } else {
        clocks_end_after_their_seconds(r.opened_at@, c.aging.warn_after_days * 86_400, as_of);
        clocks_end_after_their_seconds(r.opened_at@, c.aging.breach_after_days * 86_400, as_of);
    }
    let found = engine::rule_findings(s, c, e.severity, d, as_of, i);
    assert forall|rule: Seq<char>|
        {
            &&& #[trigger] is_found(
                engine::containment_findings(r, c, e.severity, d, as_of),
                rule,
            ) <==> engine::containment_findings(r, c, e.severity, d, as_of).len() == 1
                && engine::containment_findings(r, c, e.severity, d, as_of)[0].rule_id == rule
        } by {
        single(engine::containment_findings(r, c, e.severity, d, as_of), rule);
    }
    assert forall|rule: Seq<char>| #[trigger]
        is_found(engine::closure_findings(r), rule) <==> engine::closure_findings(r).len() == 1
            && engine::closure_findings(r)[0].rule_id == rule by {
        single(engine::closure_findings(r), rule);
    }
    assert forall|rule: Seq<char>| #[trigger]
        is_found(engine::effectiveness_findings(r, c, d, as_of), rule)
            <==> engine::effectiveness_findings(r, c, d, as_of).len() == 1
            && engine::effectiveness_findings(r, c, d, as_of)[0].rule_id == rule by {
        single(engine::effectiveness_findings(r, c, d, as_of), rule);
    }
    assert forall|rule: Seq<char>| #[trigger]
        is_found(engine::aging_findings(r, c, d, as_of), rule) <==> engine::aging_findings(
            r,
            c,
            d,
            as_of,
        ).len() == 1 && engine::aging_findings(r, c, d, as_of)[0].rule_id == rule by {
        single(engine::aging_findings(r, c, d, as_of), rule);
    }
    assert forall|rule: Seq<char>| #[trigger]
        is_found(engine::linkage_findings(s, i), rule) <==> engine::linkage_findings(s, i).len()
            == 1 && engine::linkage_findings(s, i)[0].rule_id == rule by {
        single(engine::linkage_findings(s, i), rule);
    }
    assert forall|rule: Seq<char>| #[trigger]
        is_found(engine::repetition_findings(s, i, found), rule) <==> engine::repetition_findings(
            s,
            i,
            found,
        ).len() == 1 && engine::repetition_findings(s, i, found)[0].rule_id == rule by {
        single(engine::repetition_findings(s, i, found), rule);
    }
}

/// Whether a record names a parent that is another record of the population.
pub open spec fn is_linked(s: Seq<CapaRecord>, i: int, k: int) -> bool {
    &&& 0 <= k < s.len()
    &&& s[i].parent_id is Some
    &&& s[k].id@ == s[i].parent_id->0@
    &&& s[k].id@ != s[i].id@
}

/// Whether record `k` is described as record `i` is, and has a smaller id.
pub open spec fn is_earlier(s: Seq<CapaRecord>, i: int, k: int) -> bool {
    &&& 0 <= k < s.len()
    &&& engine::digest_of(s[k].description@) == engine::digest_of(s[i].description@)
    &&& text::text_lt(s[k].id@, s[i].id@)
}

/// A link to a parent is broken exactly where a parent is named that is not
/// another record of the population. A record repeats another exactly where
/// one with a smaller id is described alike; it is then said to repeat the
/// smallest of these. It is warned of unless it names that one as its parent
/// or its containment is overdue.
pub proof fn links_and_repetitions_are_found_in_the_population(
    s: Seq<CapaRecord>,
    c: CapaConfig,
    as_of: Moment,
    i: int,
)
    requires
        0 <= i < s.len(),
        engine::evaluation(s, c, as_of) is Ok,
    ensures
        ({
            let r = s[i];
            let e = engine::evaluation(s, c, as_of)->Ok_0[i];
            &&& e.parent_present <==> exists|k: int| #[trigger] is_linked(s, i, k)
            &&& is_found(e.findings, "BROKEN_REOPEN_LINK"@) <==> r.parent_id is Some
                && !e.parent_present
            &&& e.duplicate_of is Some <==> exists|k: int| #[trigger] is_earlier(s, i, k)
            &&& e.duplicate_of is Some ==> exists|k: int| #[trigger]
                is_earlier(s, i, k) && s[k].id@ == e.duplicate_of->0
            &&& forall|k: int| #[trigger]
                is_earlier(s, i, k) ==> e.duplicate_of is Some && !text::text_lt(
                    s[k].id@,
                    e.duplicate_of->0,
                )
            &&& is_found(e.findings, "DUPLICATE_DESCRIPTION"@) <==> e.duplicate_of is Some && !(
            r.parent_id is Some && r.parent_id->0@ == e.duplicate_of->0) && !is_found(
                e.findings,
                "CONTAINMENT_OVERDUE"@,
            )
        }),
{
    let r = s[i];
    evaluated(s, c, as_of, s.len() as int, i);
    let e = engine::evaluation_of(s, c, as_of, i)->Ok_0;
    rules_differ();
    parts_judged(s, c, as_of, i, "BROKEN_REOPEN_LINK"@);
    let d = engine::dues_of(r, c, e.severity)->0;
    let found = engine::rule_findings(s, c, e.severity, d, as_of, i);
    let rule = "BROKEN_REOPEN_LINK"@;
    single(engine::containment_findings(r, c, e.severity, d, as_of), rule);
    single(engine::closure_findings(r), rule);
    single(engine::effectiveness_findings(r, c, d, as_of), rule);
    single(engine::aging_findings(r, c, d, as_of), rule);
    single(engine::linkage_findings(s, i), rule);
    single(engine::repetition_findings(s, i, found), rule);
    if engine::has_parent(s, i) {
        let k = choose|k: int|
            0 <= k < s.len() && (#[trigger] s[k]).id@ == s[i].parent_id->0@;
        assert(is_linked(s, i, k));
    }
    if exists|k: int| #[trigger] is_linked(s, i, k) {
        let k = choose|k: int| #[trigger] is_linked(s, i, k);
        assert(s[k].id@ == s[i].parent_id->0@);
    }
    laws::repetitions_are_warned_of(s, c, as_of, i);
    let digest = engine::digest_of(r.description@);
    laws::carrier_is_smallest(s, digest, s.len() as int);
    assert(engine::digest_of(s[i].description@) == digest);
    let first = engine::first_carrier(s, digest, s.len() as int)->0;
    assert(engine::first_carrier(s, digest, s.len() as int) is Some);
    assert(e.duplicate_of == engine::repeated_by(s, i));
    let m = choose|k: int|
        0 <= k < s.len() && (#[trigger] s[k]).id@ == first && engine::digest_of(s[k].description@)
            == digest;
    text::text_lt_total(first, r.id@);
    if first != r.id@ {
        assert(is_earlier(s, i, m));
    }
    assert forall|k: int| #[trigger] is_earlier(s, i, k) implies e.duplicate_of is Some
        && !text::text_lt(s[k].id@, e.duplicate_of->0) by {
        assert(engine::digest_of(s[k].description@) == digest);
        assert(!text::text_lt(s[k].id@, first));
    }
}

/// Whether a rule is one of a breach.
pub open spec fn is_breach_rule(rule: Seq<char>) -> bool {
    ||| rule == "CONTAINMENT_OVERDUE"@
    ||| rule == "CLOSURE_BLOCKED"@
    ||| rule == "EFFECTIVENESS_OVERDUE"@
    ||| rule == "AGING_BREACH"@
    ||| rule == "BROKEN_REOPEN_LINK"@
}

/// Whether a rule is one of a warning.
pub open spec fn is_warn_rule(rule: Seq<char>) -> bool {
    ||| rule == "CONTAINMENT_LATE"@
    ||| rule == "AGING_WARN"@
    ||| rule == "DUPLICATE_DESCRIPTION"@
}

/// Whether a finding is graded by its rule.
pub open spec fn is_graded(f: FindingView) -> bool {
    ||| is_breach_rule(f.rule_id) && f.severity == Severity::Breach && f.requires_signoff
    ||| is_warn_rule(f.rule_id) && f.severity == Severity::Warn && !f.requires_signoff
}

spec fn all_graded(s: Seq<FindingView>) -> bool {
    forall|k: int| 0 <= k < s.len() ==> is_graded(#[trigger] s[k])
}

/// Every finding has a rule that is one of a breach or one of a warning, is
/// graded by it, and needs a signoff exactly when it is a breach.
pub proof fn findings_are_graded_by_their_rules(
    s: Seq<CapaRecord>,
    c: CapaConfig,
    as_of: Moment,
    i: int,
    k: int,
)
    requires
        0 <= i < s.len(),
        engine::evaluation(s, c, as_of) is Ok,
        0 <= k < engine::evaluation(s, c, as_of)->Ok_0[i].findings.len(),
    ensures
        is_graded(engine::evaluation(s, c, as_of)->Ok_0[i].findings[k]),
        engine::evaluation(s, c, as_of)->Ok_0[i].findings[k].subject == s[i].id@,
{
    evaluated(s, c, as_of, s.len() as int, i);
    laws::findings_name_their_record(s, c, as_of, i);
    parts_judged(s, c, as_of, i, "CLOSURE_BLOCKED"@);
    let e = engine::evaluation_of(s, c, as_of, i)->Ok_0;
    let d = engine::dues_of(s[i], c, e.severity)->0;
    let p = engine::containment_findings(s[i], c, e.severity, d, as_of);
    let q = engine::closure_findings(s[i]);
    let r = engine::effectiveness_findings(s[i], c, d, as_of);
    let t = engine::aging_findings(s[i], c, d, as_of);
    let u = engine::linkage_findings(s, i);
    let found = engine::rule_findings(s, c, e.severity, d, as_of, i);
    let w = engine::repetition_findings(s, i, found);
    assert(all_graded(p));
    assert(all_graded(q));
    assert(all_graded(r));
    assert(all_graded(t));
    assert(all_graded(u));
    assert(all_graded(w));
    assert(all_graded(p + q));
    assert(all_graded(p + q + r));
    assert(all_graded(p + q + r + t));
    assert(all_graded(found));
    assert(all_graded(found + w));
}

// ---- populations ----

/// Whether the calendar holds every due instant of a record.
pub open spec fn fits_the_calendar(r: CapaRecord, c: CapaConfig) -> bool {
    &&& forall|severity: Severity|
        (#[trigger] hours_for(c, severity)) is Some ==> is_reached(
            r.opened_at@,
            hours_for(c, severity)->0 * 3_600,
        )
    &&& is_closed(r) ==> is_reached(r.closed_at->0@, c.effectiveness_window_days * 86_400)
    &&& !is_closed(r) ==> is_reached(r.opened_at@, c.aging.breach_after_days * 86_400)
}

proof fn all_evaluate(s: Seq<CapaRecord>, c: CapaConfig, as_of: Moment, n: int)
    requires
        config::config_error(c) is None,
        0 <= n <= s.len(),
        instant::is_moment(as_of),
        forall|i: int|
            0 <= i < s.len() ==> has_moments(#[trigger] s[i]) && fits_the_calendar(s[i], c),
    ensures
        engine::evaluations_upto(s, c, as_of, n) is Ok,
    decreases n,
{
    if n > 0 {
        all_evaluate(s, c, as_of, n - 1);
        let r = s[n - 1];
        valid_tables_hold_together(c);
        laws::valid_tables_classify_everything(c, r.category, r.detectability);
        let severity = config::severity_at(
            c.severity_matrix@,
            r.category,
            r.detectability,
            0,
        )->0;
        let hours = hours_for(c, severity);
        assert(hours == config::window_of(c.containment_hours, severity));
        if hours is Some {
            clocks_end_after_their_seconds(r.opened_at@, hours->0 * 3_600, as_of);
        }
        if is_closed(r) {
            clocks_end_after_their_seconds(
                r.closed_at->0@,
                c.effectiveness_window_days * 86_400,
                as_of,
            );
        } else {
            clocks_end_after_their_seconds(r.opened_at@, c.aging.warn_after_days * 86_400, as_of);
            clocks_end_after_their_seconds(r.opened_at@, c.aging.breach_after_days * 86_400, as_of);
        }
        assert(engine::dues_of(r, c, severity) is Some);
        reveal(engine::evaluation_of);
    }
}

proof fn repeated_id_repeats(s: Seq<CapaRecord>, from: int)
    requires
        0 <= from <= s.len(),
        engine::repeated_id(s, from) is Some,
    ensures
        exists|i: int, j: int|
            0 <= i < j < s.len() && (#[trigger] s[i]).id@ == (#[trigger] s[j]).id@,
    decreases s.len() - from,
{
    if engine::id_seen(s, from) {
        let k = choose|k: int| 0 <= k < from && (#[trigger] s[k]).id@ == s[from].id@;
        assert(s[k].id@ == s[from].id@);
    } else {
        repeated_id_repeats(s, from + 1);
    }
}

/// Under valid tables a population is evaluated where its ids differ and the
/// calendar holds every due instant.
pub proof fn populations_are_evaluated(s: Seq<CapaRecord>, c: CapaConfig, as_of: Moment)
    requires
        config::config_error(c) is None,
        instant::is_moment(as_of),
        forall|i: int|
            0 <= i < s.len() ==> has_moments(#[trigger] s[i]) && fits_the_calendar(s[i], c),
        forall|i: int, j: int|
            0 <= i < j < s.len() ==> (#[trigger] s[i]).id@ != (#[trigger] s[j]).id@,
    ensures
        engine::evaluation(s, c, as_of) is Ok,
{
    if engine::repeated_id(s, 0) is Some {
        repeated_id_repeats(s, 0);
    }
    all_evaluate(s, c, as_of, s.len() as int);
}

} // verus!
