//! What holds of every evaluated population.

use vstd::prelude::*;

use crate::capa::config;
use crate::capa::config::{CapaConfig, SeverityCell};
use crate::capa::engine;
use crate::capa::engine::{Dues, FaultView};
use crate::capa::model::{CapaRecord, Category, Detectability, Status};
use crate::capa::pack;
use crate::instant;
use crate::instant::Moment;
use crate::order;
use crate::spine;
use crate::spine::{FindingView, Severity, SignoffView};
use crate::text;

verus! {

// ---- the matrix ----

proof fn one_cell_gives_severity(
    s: Seq<SeverityCell>,
    category: Category,
    detectability: Detectability,
    i: int,
)
    requires
        0 <= i <= s.len(),
        config::cells(s, category, detectability, s.len() as int) > config::cells(
            s,
            category,
            detectability,
            i,
        ),
    ensures
        config::severity_at(s, category, detectability, i) is Some,
    decreases s.len() - i,
{
    if i < s.len() && !config::is_cell(s[i], category, detectability) {
        one_cell_gives_severity(s, category, detectability, i + 1);
    }
}

/// Tables that validate classify every action: each category and
/// detectability has a severity.
pub proof fn valid_tables_classify_everything(
    c: CapaConfig,
    category: Category,
    detectability: Detectability,
)
    requires
        config::config_error(c) is None,
    ensures
        config::severity_at(c.severity_matrix@, category, detectability, 0) is Some,
{
    let s = c.severity_matrix@;
    assert(config::row_error(s, Category::Safety) is None);
    assert(config::row_error(s, Category::Regulatory) is None);
    assert(config::row_error(s, Category::Quality) is None);
    assert(config::cell_error(s, category, detectability) is None);
    one_cell_gives_severity(s, category, detectability, 0);
}

/// Under tables that validate, only a repeated id or a due instant outside
/// the calendar stops an evaluation.
pub proof fn valid_tables_evaluate(s: Seq<CapaRecord>, c: CapaConfig, as_of: Moment, n: int)
    requires
        config::config_error(c) is None,
        0 <= n <= s.len(),
    ensures
        engine::evaluations_upto(s, c, as_of, n) matches Err(e) ==> e is OffCalendar,
    decreases n,
{
    if n > 0 {
        valid_tables_evaluate(s, c, as_of, n - 1);
        valid_tables_classify_everything(c, s[n - 1].category, s[n - 1].detectability);
        reveal(engine::evaluation_of);
    }
}

// ---- closure and aging ----

/// A closure without a root cause or a closing date is refused: the action
/// ages as an open one, and a breach says so.
pub proof fn refused_closures_stay_open(r: CapaRecord)
    requires
        r.status == Status::Closed,
        !engine::has_root_cause(r) || r.closed_at is None,
    ensures
        engine::is_open(r),
        engine::closure_findings(r).len() == 1,
        engine::closure_findings(r)[0].severity == Severity::Breach,
        engine::closure_findings(r)[0].rule_id == engine::RULE_CLOSURE_BLOCKED@,
{
}

/// A refused closure never runs the effectiveness clock, and an honored one
/// never ages.
pub proof fn closure_decides_which_clock_runs(
    r: CapaRecord,
    c: CapaConfig,
    severity: Severity,
    as_of: Moment,
)
    requires
        engine::dues_of(r, c, severity) is Some,
    ensures
        ({
            let d = engine::dues_of(r, c, severity)->0;
            &&& engine::is_open(r) ==> engine::effectiveness_findings(r, c, d, as_of).len() == 0
            &&& !engine::is_open(r) ==> engine::aging_findings(r, c, d, as_of).len() == 0
        }),
{
}

/// At its due instant nothing is overdue: every clock is strict.
pub proof fn due_instants_are_not_overdue(
    r: CapaRecord,
    c: CapaConfig,
    severity: Severity,
    d: Dues,
    as_of: Moment,
)
    ensures
        d.containment == Some(as_of) && r.containment_recorded_at is None
            ==> engine::containment_findings(r, c, severity, d, as_of).len() == 0,
        d.effectiveness == Some(as_of) ==> engine::effectiveness_findings(r, c, d, as_of).len()
            == 0,
        d.aging is Some && (d.aging->0).0 == as_of && !instant::is_after(as_of, (d.aging->0).1)
            ==> engine::aging_findings(r, c, d, as_of).len() == 0,
{
}

/// An instant is not later than itself, and of two different instants one is
/// later.
pub proof fn instants_are_ordered(a: Moment, b: Moment)
    ensures
        !instant::is_after(a, a),
        a != b ==> (instant::is_after(a, b) <==> !instant::is_after(b, a)),
{
}

/// Whole days and hours are added without loss: outside leap seconds, the
/// days from an instant to the one some days later are those days.
pub proof fn days_add_up(m: Moment, days: int)
    requires
        instant::is_moment(m),
        m.nano < 1_000_000_000,
        0 <= days,
        instant::later(m, days * 86_400) is Some,
    ensures
        instant::days_between(instant::later(m, days * 86_400)->0, m) == days,
{
    let n = instant::later(m, days * 86_400)->0;
    assert(n.second == m.second);
    assert(n.day == m.day + days);
    assert(instant::nanos_between(n, m) == days * 86_400 * 1_000_000_000);
}

// ---- repetition ----

pub(crate) proof fn carrier_is_smallest(s: Seq<CapaRecord>, digest: Seq<char>, n: int)
    requires
        0 <= n <= s.len(),
    ensures
        (match engine::first_carrier(s, digest, n) {
            Some(first) => {
                &&& exists|k: int|
                    0 <= k < n && (#[trigger] s[k]).id@ == first && engine::digest_of(
                        s[k].description@,
                    ) == digest
                &&& forall|k: int|
                    0 <= k < n && engine::digest_of((#[trigger] s[k]).description@) == digest
                        ==> !text::text_lt(s[k].id@, first)
            },
            None => forall|k: int|
                0 <= k < n ==> engine::digest_of((#[trigger] s[k]).description@) != digest,
        }),
    decreases n,
{
    if n > 0 {
        carrier_is_smallest(s, digest, n - 1);
        let before = engine::first_carrier(s, digest, n - 1);
        let now = engine::first_carrier(s, digest, n);
        let id = s[n - 1].id@;
        text::text_lt_irreflexive(id);
        if engine::digest_of(s[n - 1].description@) == digest {
            if before is Some && text::text_lt(id, before->0) {
                assert forall|k: int|
                    0 <= k < n && engine::digest_of((#[trigger] s[k]).description@)
                        == digest implies !text::text_lt(s[k].id@, id) by {
                    if k < n - 1 && text::text_lt(s[k].id@, id) {
                        text::text_lt_transitive(s[k].id@, id, before->0);
                    }
                }
                assert(s[n - 1].id@ == now->0);
            } else if before is None {
                assert(s[n - 1].id@ == now->0);
            }
        }
        if before is Some && now == before {
            let k = choose|k: int|
                0 <= k < n - 1 && (#[trigger] s[k]).id@ == before->0 && engine::digest_of(
                    s[k].description@,
                ) == digest;
            assert(s[k].id@ == now->0);
        }
    }
}

/// The record that another may repeat is in the population, its description
/// normalizes alike, and no record with such a description has a smaller id.
pub proof fn repeated_record_is_the_smallest(s: Seq<CapaRecord>, i: int)
    requires
        0 <= i < s.len(),
        engine::repeated_by(s, i) is Some,
    ensures
        ({
            let other = engine::repeated_by(s, i)->0;
            let digest = engine::digest_of(s[i].description@);
            &&& other != s[i].id@
            &&& exists|k: int|
                0 <= k < s.len() && (#[trigger] s[k]).id@ == other && engine::digest_of(
                    s[k].description@,
                ) == digest
            &&& forall|k: int|
                0 <= k < s.len() && engine::digest_of((#[trigger] s[k]).description@) == digest
                    ==> !text::text_lt(s[k].id@, other)
        }),
{
    carrier_is_smallest(s, engine::digest_of(s[i].description@), s.len() as int);
}

/// Descriptions that differ only in white space repeat each other.
pub proof fn white_space_does_not_distinguish(a: Seq<char>, b: Seq<char>)
    requires
        text::words(a) == text::words(b),
    ensures
        engine::digest_of(a) == engine::digest_of(b),
{
}

/// ASCII descriptions that differ only in the case of letters repeat each
/// other.
pub proof fn case_does_not_distinguish(a: Seq<char>, b: Seq<char>)
    requires
        text::is_ascii(a),
        text::same_ignoring_case(a, b),
    ensures
        engine::digest_of(a) == engine::digest_of(b),
{
    text::lowered_words_ignore_case(a, b);
}

// ---- findings ----

/// Whether findings are about `id`, and gated exactly when breaches.
pub open spec fn all_fair(s: Seq<FindingView>, id: Seq<char>) -> bool {
    forall|k: int|
        0 <= k < s.len() ==> (#[trigger] s[k]).subject == id && (s[k].requires_signoff
            <==> s[k].severity == Severity::Breach)
}

/// Every finding on a record is about that record, and is gated exactly when
/// it is a breach.
pub proof fn findings_name_their_record(s: Seq<CapaRecord>, c: CapaConfig, as_of: Moment, i: int)
    requires
        engine::evaluation_of(s, c, as_of, i) is Ok,
    ensures
        ({
            let e = engine::evaluation_of(s, c, as_of, i)->Ok_0;
            e.capa_id == s[i].id@ && all_fair(e.findings, s[i].id@)
        }),
{
    reveal(engine::evaluation_of);
    let severity = config::severity_at(
        c.severity_matrix@,
        s[i].category,
        s[i].detectability,
        0,
    )->0;
    let d = engine::dues_of(s[i], c, severity)->0;
    let id = s[i].id@;
    let a = engine::containment_findings(s[i], c, severity, d, as_of);
    let b = engine::closure_findings(s[i]);
    let e = engine::effectiveness_findings(s[i], c, d, as_of);
    let f = engine::aging_findings(s[i], c, d, as_of);
    let g = engine::linkage_findings(s, i);
    let found = engine::rule_findings(s, c, severity, d, as_of, i);
    let h = engine::repetition_findings(s, i, found);
    assert(all_fair(a, id));
    assert(all_fair(b, id));
    assert(all_fair(e, id));
    assert(all_fair(f, id));
    assert(all_fair(g, id));
    assert(all_fair(h, id));
    assert(all_fair(a + b, id));
    assert(all_fair(a + b + e, id));
    assert(all_fair(a + b + e + f, id));
    assert(all_fair(found, id));
    assert(all_fair(found + h, id));
}

pub(crate) proof fn has_rule_joins(a: Seq<FindingView>, b: Seq<FindingView>, rule_id: Seq<char>)
    ensures
        engine::has_rule(a + b, rule_id) == (engine::has_rule(a, rule_id) || engine::has_rule(b, rule_id)),
{
    let c = a + b;
    if engine::has_rule(a, rule_id) {
        let k = choose|k: int| 0 <= k < a.len() && (#[trigger] a[k]).rule_id == rule_id;
        assert(c[k].rule_id == rule_id);
    }
    if engine::has_rule(b, rule_id) {
        let k = choose|k: int| 0 <= k < b.len() && (#[trigger] b[k]).rule_id == rule_id;
        assert(c[a.len() + k].rule_id == rule_id);
    }
    if engine::has_rule(c, rule_id) {
        let k = choose|k: int| 0 <= k < c.len() && (#[trigger] c[k]).rule_id == rule_id;
        if k < a.len() {
            assert(a[k].rule_id == rule_id);
        } else {
            assert(b[k - a.len()].rule_id == rule_id);
        }
    }
}

proof fn blocked_differs()
    ensures
        engine::RULE_CLOSURE_BLOCKED@ != engine::RULE_CONTAINMENT_OVERDUE@,
        engine::RULE_CLOSURE_BLOCKED@ != engine::RULE_CONTAINMENT_LATE@,
        engine::RULE_CLOSURE_BLOCKED@ != engine::RULE_EFFECTIVENESS_OVERDUE@,
        engine::RULE_CLOSURE_BLOCKED@ != engine::RULE_AGING_WARN@,
        engine::RULE_CLOSURE_BLOCKED@ != engine::RULE_AGING_BREACH@,
        engine::RULE_CLOSURE_BLOCKED@ != engine::RULE_DUPLICATE_DESCRIPTION@,
        engine::RULE_CLOSURE_BLOCKED@ != engine::RULE_BROKEN_REOPEN_LINK@,
{
    reveal_strlit("CLOSURE_BLOCKED");
    reveal_strlit("CONTAINMENT_OVERDUE");
    reveal_strlit("CONTAINMENT_LATE");
    reveal_strlit("EFFECTIVENESS_OVERDUE");
    reveal_strlit("AGING_WARN");
    reveal_strlit("AGING_BREACH");
    reveal_strlit("DUPLICATE_DESCRIPTION");
    reveal_strlit("BROKEN_REOPEN_LINK");
    let b = engine::RULE_CLOSURE_BLOCKED@;
    assert(b.len() == 15 && b[0] == 'C');
    assert(engine::RULE_CONTAINMENT_OVERDUE@.len() == 19);
    assert(engine::RULE_CONTAINMENT_LATE@.len() == 16);
    assert(engine::RULE_EFFECTIVENESS_OVERDUE@[0] == 'E');
    assert(engine::RULE_AGING_WARN@[0] == 'A');
    assert(engine::RULE_AGING_BREACH@[0] == 'A');
    assert(engine::RULE_DUPLICATE_DESCRIPTION@[0] == 'D');
    assert(engine::RULE_BROKEN_REOPEN_LINK@[0] == 'B');
}

/// Whether a closure is honored: it is requested, and has a root cause and a
/// closing date.
pub open spec fn is_honored(r: CapaRecord) -> bool {
    r.status == Status::Closed && engine::has_root_cause(r) && r.closed_at is Some
}

/// An action is open unless its closure is honored. The effectiveness check
/// is due for an honored closure, the configured days after it, and for no
/// other action. A closure is reported as blocked exactly when it is
/// requested and not honored.
pub proof fn only_honored_closures_run_the_effectiveness_clock(
    s: Seq<CapaRecord>,
    c: CapaConfig,
    as_of: Moment,
    i: int,
)
    requires
        engine::evaluation_of(s, c, as_of, i) is Ok,
    ensures
        ({
            let e = engine::evaluation_of(s, c, as_of, i)->Ok_0;
            &&& e.treated_as_open <==> !is_honored(s[i])
            &&& e.effectiveness_due is Some <==> !e.treated_as_open
            &&& is_honored(s[i]) ==> e.effectiveness_due == engine::days_later(
                s[i].closed_at->0@,
                c.effectiveness_window_days,
            )
            &&& engine::has_rule(e.findings, engine::RULE_CLOSURE_BLOCKED@) <==> s[i].status
                == Status::Closed && !is_honored(s[i])
        }),
{
    reveal(engine::evaluation_of);
    let severity = config::severity_at(
        c.severity_matrix@,
        s[i].category,
        s[i].detectability,
        0,
    )->0;
    let d = engine::dues_of(s[i], c, severity)->0;
    let rule = engine::RULE_CLOSURE_BLOCKED@;
    let a = engine::containment_findings(s[i], c, severity, d, as_of);
    let b = engine::closure_findings(s[i]);
    let e = engine::effectiveness_findings(s[i], c, d, as_of);
    let f = engine::aging_findings(s[i], c, d, as_of);
    let g = engine::linkage_findings(s, i);
    let found = engine::rule_findings(s, c, severity, d, as_of, i);
    let h = engine::repetition_findings(s, i, found);
    blocked_differs();
    assert(!engine::has_rule(a, rule));
    assert(!engine::has_rule(e, rule));
    assert(!engine::has_rule(f, rule));
    assert(!engine::has_rule(g, rule));
    assert(!engine::has_rule(h, rule));
    if b.len() > 0 {
        assert(b[0].rule_id == rule);
    }
    assert(engine::has_rule(b, rule) == (b.len() > 0));
    has_rule_joins(a, b, rule);
    has_rule_joins(a + b, e, rule);
    has_rule_joins(a + b + e, f, rule);
    has_rule_joins(a + b + e + f, g, rule);
    has_rule_joins(found, h, rule);
}

proof fn repetition_differs()
    ensures
        engine::RULE_DUPLICATE_DESCRIPTION@ != engine::RULE_CONTAINMENT_OVERDUE@,
        engine::RULE_DUPLICATE_DESCRIPTION@ != engine::RULE_CONTAINMENT_LATE@,
        engine::RULE_DUPLICATE_DESCRIPTION@ != engine::RULE_CLOSURE_BLOCKED@,
        engine::RULE_DUPLICATE_DESCRIPTION@ != engine::RULE_EFFECTIVENESS_OVERDUE@,
        engine::RULE_DUPLICATE_DESCRIPTION@ != engine::RULE_AGING_WARN@,
        engine::RULE_DUPLICATE_DESCRIPTION@ != engine::RULE_AGING_BREACH@,
        engine::RULE_DUPLICATE_DESCRIPTION@ != engine::RULE_BROKEN_REOPEN_LINK@,
{
    reveal_strlit("CLOSURE_BLOCKED");
    reveal_strlit("CONTAINMENT_OVERDUE");
    reveal_strlit("CONTAINMENT_LATE");
    reveal_strlit("EFFECTIVENESS_OVERDUE");
    reveal_strlit("AGING_WARN");
    reveal_strlit("AGING_BREACH");
    reveal_strlit("DUPLICATE_DESCRIPTION");
    reveal_strlit("BROKEN_REOPEN_LINK");
    assert(engine::RULE_DUPLICATE_DESCRIPTION@[0] == 'D');
    assert(engine::RULE_CONTAINMENT_OVERDUE@[0] == 'C');
    assert(engine::RULE_CONTAINMENT_LATE@[0] == 'C');
    assert(engine::RULE_CLOSURE_BLOCKED@[0] == 'C');
    assert(engine::RULE_EFFECTIVENESS_OVERDUE@[0] == 'E');
    assert(engine::RULE_AGING_WARN@[0] == 'A');
    assert(engine::RULE_AGING_BREACH@[0] == 'A');
    assert(engine::RULE_BROKEN_REOPEN_LINK@[0] == 'B');
}

/// A record that repeats another is warned of once, by name of the record
/// that it repeats, whatever else is found on it; only overdue containment
/// and a cycle that reopens that record keep it silent. No other record is
/// warned of.
pub proof fn repetitions_are_warned_of(s: Seq<CapaRecord>, c: CapaConfig, as_of: Moment, i: int)
    requires
        engine::evaluation_of(s, c, as_of, i) is Ok,
    ensures
        ({
            let e = engine::evaluation_of(s, c, as_of, i)->Ok_0;
            let rule = engine::RULE_DUPLICATE_DESCRIPTION@;
            let warned = e.duplicate_of is Some && e.parent_id != e.duplicate_of
                && !engine::has_rule(e.findings, engine::RULE_CONTAINMENT_OVERDUE@);
            &&& e.duplicate_of == engine::repeated_by(s, i)
            &&& engine::has_rule(e.findings, rule) <==> warned
            &&& warned ==> e.findings.last() == spine::note_of(
                rule,
                Severity::Warn,
                s[i].id@,
                "description normalizes to the same hash as CAPA "@ + e.duplicate_of->0
                    + " — possible duplicate cycle"@,
            )
            &&& forall|k: int|
                0 <= k < e.findings.len() - 1 ==> (#[trigger] e.findings[k]).rule_id != rule
        }),
{
    reveal(engine::evaluation_of);
    let severity = config::severity_at(
        c.severity_matrix@,
        s[i].category,
        s[i].detectability,
        0,
    )->0;
    let d = engine::dues_of(s[i], c, severity)->0;
    let rule = engine::RULE_DUPLICATE_DESCRIPTION@;
    let overdue = engine::RULE_CONTAINMENT_OVERDUE@;
    let a = engine::containment_findings(s[i], c, severity, d, as_of);
    let b = engine::closure_findings(s[i]);
    let e = engine::effectiveness_findings(s[i], c, d, as_of);
    let f = engine::aging_findings(s[i], c, d, as_of);
    let g = engine::linkage_findings(s, i);
    let found = engine::rule_findings(s, c, severity, d, as_of, i);
    let h = engine::repetition_findings(s, i, found);
    let all = engine::evaluation_of(s, c, as_of, i)->Ok_0.findings;
    repetition_differs();
    assert(!engine::has_rule(a, rule));
    assert(!engine::has_rule(b, rule));
    assert(!engine::has_rule(e, rule));
    assert(!engine::has_rule(f, rule));
    assert(!engine::has_rule(g, rule));
    has_rule_joins(a, b, rule);
    has_rule_joins(a + b, e, rule);
    has_rule_joins(a + b + e, f, rule);
    has_rule_joins(a + b + e + f, g, rule);
    has_rule_joins(found, h, rule);
    assert(!engine::has_rule(h, overdue));
    has_rule_joins(found, h, overdue);
    if h.len() > 0 {
        assert(h[0].rule_id == rule);
        assert(engine::has_rule(h, rule));
        assert(all.last() == h[0]);
    }
    assert forall|k: int| 0 <= k < all.len() - 1 implies (#[trigger] all[k]).rule_id != rule by {
        assert(all[k] == found[k]);
    }
}

/// Whether a record of the population has an id and a description with a
/// digest.
pub open spec fn is_carried(s: Seq<CapaRecord>, id: Seq<char>, digest: Seq<char>) -> bool {
    exists|k: int|
        0 <= k < s.len() && (#[trigger] s[k]).id@ == id && engine::digest_of(s[k].description@)
            == digest
}

/// Which record others repeat does not depend on the order of the population:
/// where the same ids carry the same descriptions, it is the same one.
pub proof fn repetition_ignores_order(s: Seq<CapaRecord>, t: Seq<CapaRecord>, i: int, j: int)
    requires
        forall|id: Seq<char>, digest: Seq<char>| #[trigger]
            is_carried(s, id, digest) <==> is_carried(t, id, digest),
        0 <= i < s.len(),
        0 <= j < t.len(),
        s[i].id@ == t[j].id@,
        engine::digest_of(s[i].description@) == engine::digest_of(t[j].description@),
    ensures
        engine::repeated_by(s, i) == engine::repeated_by(t, j),
{
    let digest = engine::digest_of(s[i].description@);
    carrier_is_smallest(s, digest, s.len() as int);
    carrier_is_smallest(t, digest, t.len() as int);
    assert(is_carried(s, s[i].id@, digest));
    assert(is_carried(t, t[j].id@, digest));
    let a = engine::first_carrier(s, digest, s.len() as int)->0;
    let b = engine::first_carrier(t, digest, t.len() as int)->0;
    assert(is_carried(s, a, digest));
    assert(is_carried(t, a, digest));
    assert(is_carried(t, b, digest));
    assert(is_carried(s, b, digest));
    text::text_lt_total(a, b);
}

/// A population with an id that occurs twice is refused before anything is
/// evaluated.
pub proof fn repeated_ids_are_refused(s: Seq<CapaRecord>, c: CapaConfig, as_of: Moment, i: int, j: int)
    requires
        0 <= i < j < s.len(),
        s[i].id@ == s[j].id@,
    ensures
        engine::evaluation(s, c, as_of) matches Err(FaultView::Config(
            config::ConfigRefusal::DuplicateCapaId(_),
        )),
{
    repeat_is_seen(s, 0, j);
}

pub(crate) proof fn repeat_is_seen(s: Seq<CapaRecord>, from: int, j: int)
    requires
        0 <= from <= j < s.len(),
        engine::id_seen(s, j),
    ensures
        engine::repeated_id(s, from) is Some,
    decreases j - from,
{
    if from < j && !engine::id_seen(s, from) {
        repeat_is_seen(s, from + 1, j);
    }
}

// ---- packs ----

/// A pack holds the findings it was given, in order of subject and rule.
pub proof fn packs_sort_by_subject_then_rule(findings: Seq<FindingView>)
    ensures
        spine::by_subject(findings).to_multiset() == findings.to_multiset(),
        order::is_sorted(
            spine::by_subject(findings),
            |a: FindingView, b: FindingView| spine::finding_lt(a, b),
        ),
{
    let lt = |a: FindingView, b: FindingView| spine::finding_lt(a, b);
    spine::finding_order();
    order::stable_sort_keeps(findings, lt);
    order::stable_sort_sorts(findings, lt);
}

/// A pack with receipts and a new seal verifies against the bytes that it
/// was made from exactly when every gated finding is approved.
pub proof fn resealed_packs_verify_once_resolved(
    engine_id: Seq<char>,
    findings: Seq<FindingView>,
    inputs: Seq<u8>,
    params: Seq<u8>,
    signoffs: Seq<SignoffView>,
)
    ensures
        ({
            let made = pack::sealed_pack(engine_id, findings, inputs, params);
            let p = spine::sealed_view(spine::PackView { signoffs, ..made });
            spine::is_evidence(p, inputs, params) <==> spine::all_resolved(p)
        }),
{
    let made = pack::sealed_pack(engine_id, findings, inputs, params);
    let bare = spine::PackView { signoffs, ..made };
    let p = spine::sealed_view(bare);
    assert(spine::body_text(p) == spine::body_text(bare));
}

} // verus!
