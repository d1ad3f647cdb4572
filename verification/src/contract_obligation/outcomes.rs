//! What the outcome of an evaluation means for the obligations of a register.

use vstd::prelude::*;

use crate::contract_obligation::engine;
use crate::contract_obligation::engine::{EvaluationView, ResolutionKind, ResolutionView};
use crate::contract_obligation::laws;
use crate::contract_obligation::model;
use crate::contract_obligation::model::{
    AnchorEvent, Calendar, DateSpec, ObligationRecord, ObligationType, PolicyParams, RollMode,
    SlaMeasurement, SlaTier,
};
use crate::contract_obligation::pack;
use crate::date;
use crate::order;
use crate::spine;
use crate::spine::{FindingView, PackView, Severity, SignoffDecision, SignoffView};
use crate::text;

verus! {

// ---- days ----

/// The names of the days of the week.
pub open spec fn weekdays() -> Seq<Seq<char>> {
    seq!["mon"@, "tue"@, "wed"@, "thu"@, "fri"@, "sat"@, "sun"@]
}

/// Whether a day is free in a calendar: its weekday, counted from the Monday
/// that is day 1, is on the weekend, or it is a holiday.
pub open spec fn is_free(day: int, cal: Calendar) -> bool {
    ||| exists|k: int|
        0 <= k < cal.weekend.len() && text::same_ignoring_case(
            (#[trigger] cal.weekend@[k])@,
            weekdays()[(day - 1) % 7],
        )
    ||| exists|k: int| 0 <= k < cal.holidays.len() && (#[trigger] cal.holidays@[k]).day() == day
}

/// A day is a business day exactly where it is not free.
pub proof fn business_days_are_not_free(day: int, cal: Calendar)
    ensures
        engine::is_business(day, cal) <==> !is_free(day, cal),
{
    assert(engine::weekday_name(day) == weekdays()[(day - 1) % 7]);
    if is_free(day, cal) && engine::is_business(day, cal) {
        if exists|k: int|
            0 <= k < cal.weekend.len() && text::same_ignoring_case(
                (#[trigger] cal.weekend@[k])@,
                weekdays()[(day - 1) % 7],
            ) {
            let k = choose|k: int|
                0 <= k < cal.weekend.len() && text::same_ignoring_case(
                    (#[trigger] cal.weekend@[k])@,
                    weekdays()[(day - 1) % 7],
                );
            assert(text::same_ignoring_case(cal.weekend@[k]@, engine::weekday_name(day)));
        } else {
            let k = choose|k: int|
                0 <= k < cal.holidays.len() && (#[trigger] cal.holidays@[k]).day() == day;
            assert(cal.holidays@[k].day() == day);
        }
    }
    if !is_free(day, cal) {
        assert(!engine::is_weekend(day, cal));
        assert(!engine::is_holiday(day, cal));
    }
}

/// Whether `to` is what a computed day becomes: under raw rolling, and for an
/// obligation without a jurisdiction, the day itself; else the first day on
/// or after it, within 366 days, that is not free in the calendar of the
/// jurisdiction.
pub open spec fn is_rolled(
    from: int,
    r: ObligationRecord,
    p: PolicyParams,
    to: int,
) -> bool {
    if p.business_day_roll == RollMode::Raw || r.jurisdiction is None {
        to == from
    } else {
        &&& p.calendars.keys().contains(r.jurisdiction->0@)
        &&& from <= to <= from + 366
        &&& !is_free(to, p.calendars.lookup(r.jurisdiction->0@)->0)
        &&& forall|k: int|
            from <= k < to ==> #[trigger] is_free(k, p.calendars.lookup(r.jurisdiction->0@)->0)
    }
}

/// Rolling gives the first day that is not free, and tells whether it moved
/// the day.
pub proof fn rolling_skips_free_days(day: int, r: ObligationRecord, p: PolicyParams)
    requires
        engine::roll_of(day, r.jurisdiction, p) is Ok,
    ensures
        is_rolled(day, r, p, engine::roll_of(day, r.jurisdiction, p)->Ok_0.0),
        engine::roll_of(day, r.jurisdiction, p)->Ok_0.1 <==> engine::roll_of(
            day,
            r.jurisdiction,
            p,
        )->Ok_0.0 != day,
{
    if p.business_day_roll == RollMode::Forward && r.jurisdiction is Some {
        let cal = p.calendars.lookup(r.jurisdiction->0@)->0;
        let to = engine::roll_of(day, r.jurisdiction, p)->Ok_0.0;
        laws::rolled_day_is_the_next_business_day(day, cal, 366);
        business_days_are_not_free(to, cal);
        assert forall|k: int| day <= k < to implies #[trigger] is_free(k, cal) by {
            business_days_are_not_free(k, cal);
            assert(!engine::is_business(k, cal));
        }
    }
}

/// Whether `to` is the day some months after `from`: the same day of the
/// month, or the last one where the month is shorter.
pub open spec fn lands(
    from: int,
    months: int,
    to: int,
    y: int,
    m: int,
    d: int,
    z: int,
    n: int,
) -> bool {
    &&& date::is_civil(y, m, d)
    &&& date::civil_day(y, m, d) == from
    &&& 1 <= n <= 12
    &&& z * 12 + n == y * 12 + m + months
    &&& to == date::civil_day(
        z,
        n,
        if d <= date::days_in_month(z, n) {
            d
        } else {
            date::days_in_month(z, n)
        },
    )
}

pub open spec fn is_months_later(from: int, months: int, to: int) -> bool {
    exists|y: int, m: int, d: int, z: int, n: int| #[trigger]
        lands(from, months, to, y, m, d, z, n)
}

/// Months are added by the civil calendar, clamped to the end of the month,
/// and never lead back.
pub proof fn months_are_added_by_the_calendar(from: int, months: int)
    requires
        months >= 0,
        engine::months_later(from, months) is Some,
    ensures
        is_months_later(from, months, engine::months_later(from, months)->0),
        engine::months_later(from, months)->0 >= from,
        months == 0 ==> engine::months_later(from, months)->0 == from,
{
    date::civil_of_is_the_date(from);
    let (y, m, d) = date::civil_of(from);
    let total = y * 12 + (m - 1) + months;
    let z = total / 12;
    let n = total % 12 + 1;
    let to = engine::months_later(from, months)->0;
    assert(z * 12 + n == y * 12 + m + months);
    assert(lands(from, months, to, y, m, d, z, n));
    let e = if d < date::days_in_month(z, n) {
        d
    } else {
        date::days_in_month(z, n)
    };
    if months == 0 {
        assert(z == y && n == m);
    } else {
        date::later_months_come_later(y, m, d, z, n, e);
    }
}

// ---- what an obligation adds ----

/// Whether a rule finds a subject.
pub open spec fn is_found(s: Seq<FindingView>, subject: Seq<char>, rule: Seq<char>) -> bool {
    exists|k: int| 0 <= k < s.len() && (#[trigger] s[k]).subject == subject && s[k].rule_id == rule
}

/// Whether an evaluation resolves an obligation so.
pub open spec fn is_resolved(e: EvaluationView, id: Seq<char>, r: ResolutionView) -> bool {
    r.obligation_id == id && e.resolutions.contains(r)
}

/// What the `k`-th obligation, in the order of ids, adds.
spec fn own_findings(s: Seq<ObligationRecord>, p: PolicyParams, clock: int, i: int) -> Seq<
    FindingView,
> {
    engine::correction_findings(s[i]) + engine::entry_of(s, p, clock, i)->Ok_0.findings
}

proof fn own_subjects(s: Seq<ObligationRecord>, p: PolicyParams, clock: int, i: int)
    requires
        engine::entry_of(s, p, clock, i) is Ok,
    ensures
        forall|k: int|
            0 <= k < own_findings(s, p, clock, i).len() ==> (#[trigger] own_findings(
                s,
                p,
                clock,
                i,
            )[k]).subject == s[i].id@,
{
    laws::entry_fair(s, p, clock, i);
    let a = engine::correction_findings(s[i]);
    let b = engine::entry_of(s, p, clock, i)->Ok_0.findings;
    let all = own_findings(s, p, clock, i);
    assert forall|k: int| 0 <= k < all.len() implies (#[trigger] all[k]).subject == s[i].id@ by {
        if k < a.len() {
            assert(all[k] == a[k]);
        } else {
            assert(all[k] == b[k - a.len()]);
            assert(laws::is_fair(b[k - a.len()], s[i].id@));
        }
    }
}

proof fn evaluated_holds(
    s: Seq<ObligationRecord>,
    p: PolicyParams,
    clock: int,
    n: int,
    k: int,
    i: int,
    rule: Seq<char>,
)
    requires
        0 <= k < n <= model::ids_of(s).len(),
        engine::evaluated(s, p, clock, n) is Ok,
        model::latest_of(s, s.len() as int, model::ids_of(s)[k]) == Some(i),
    ensures
        engine::entry_of(s, p, clock, i) is Ok,
        engine::evaluated(s, p, clock, n)->Ok_0.resolutions.contains(
            engine::entry_of(s, p, clock, i)->Ok_0.resolution,
        ),
        is_found(engine::evaluated(s, p, clock, n)->Ok_0.findings, model::ids_of(s)[k], rule)
            <==> is_found(own_findings(s, p, clock, i), model::ids_of(s)[k], rule),
    decreases n,
{
    let ids = model::ids_of(s);
    let id = ids[k];
    let before = engine::evaluated(s, p, clock, n - 1)->Ok_0;
    let now = engine::evaluated(s, p, clock, n)->Ok_0;
    let last = model::latest_of(s, s.len() as int, ids[n - 1])->0;
    engine::listed_ids_exist(s, n - 1);
    laws::latest_facts(s, s.len() as int, ids[n - 1]);
    let w = choose|w: int| 0 <= w < s.len() && (#[trigger] s[w]).id@ == ids[n - 1];
    assert(s[last].id@ == ids[n - 1]);
    let more = own_findings(s, p, clock, last);
    own_subjects(s, p, clock, last);
    assert(now.findings =~= before.findings + more);
    text::ascending_ascends(s.map_values(|r: ObligationRecord| r.id@));
    let m = before.findings.len() as int;
    if k == n - 1 {
        laws::evaluated_fair(s, p, clock, n - 1);
        assert(now.resolutions[n - 1] == engine::entry_of(s, p, clock, i)->Ok_0.resolution);
        if is_found(now.findings, id, rule) {
            let j = choose|j: int|
                0 <= j < now.findings.len() && (#[trigger] now.findings[j]).subject == id
                    && now.findings[j].rule_id == rule;
            if j < m {
                assert(now.findings[j] == before.findings[j]);
                assert(laws::is_placed(before.findings[j], ids, n - 1));
                let l = choose|l: int|
                    0 <= l < n - 1 && laws::is_fair(before.findings[j], #[trigger] ids[l]);
                assert(text::text_lt(ids[l], ids[n - 1]));
                text::text_lt_irreflexive(id);
            } else {
                assert(more[j - m] == now.findings[j]);
            }
        }
        if is_found(more, id, rule) {
            let j = choose|j: int|
                0 <= j < more.len() && (#[trigger] more[j]).subject == id && more[j].rule_id
                    == rule;
            assert(now.findings[m + j] == more[j]);
        }
    } else {
        evaluated_holds(s, p, clock, n - 1, k, i, rule);
        let r = engine::entry_of(s, p, clock, i)->Ok_0.resolution;
        let l = choose|l: int| 0 <= l < before.resolutions.len() && before.resolutions[l] == r;
        assert(now.resolutions[l] == r);
        if is_found(now.findings, id, rule) {
            let j = choose|j: int|
                0 <= j < now.findings.len() && (#[trigger] now.findings[j]).subject == id
                    && now.findings[j].rule_id == rule;
            if j < m {
                assert(before.findings[j] == now.findings[j]);
            } else {
                assert(more[j - m] == now.findings[j]);
                assert(text::text_lt(ids[k], ids[n - 1]));
                text::text_lt_irreflexive(id);
            }
        }
        if is_found(before.findings, id, rule) {
            let j = choose|j: int|
                0 <= j < before.findings.len() && (#[trigger] before.findings[j]).subject == id
                    && before.findings[j].rule_id == rule;
            assert(now.findings[j] == before.findings[j]);
        }
    }
}

/// The newest record is the last one.
proof fn newest_is_last(s: Seq<ObligationRecord>, id: Seq<char>, i: int)
    requires
        model::records_error(s, 0) is None,
        laws::is_newest(s, id, i),
    ensures
        model::latest_of(s, s.len() as int, id) == Some(i),
{
    laws::latest_facts(s, s.len() as int, id);
    let k = model::latest_of(s, s.len() as int, id)->0;
    assert(s[i].id@ == id);
    if k != i {
        assert(s[k].version < s[i].version);
        laws::versions_rise(s, i, k);
    }
}

/// An obligation is found by what its newest record adds, and resolved so.
proof fn told_of(
    s: Seq<ObligationRecord>,
    p: PolicyParams,
    clock: int,
    i: int,
    rule: Seq<char>,
)
    requires
        engine::evaluation(s, p, clock) is Ok,
        laws::is_newest(s, s[i].id@, i),
    ensures
        engine::entry_of(s, p, clock, i) is Ok,
        model::record_error(s[i]) is None,
        forall|r: ResolutionView| #[trigger]
            is_resolved(engine::evaluation(s, p, clock)->Ok_0, s[i].id@, r) <==> r
                == engine::entry_of(s, p, clock, i)->Ok_0.resolution,
        is_found(engine::evaluation(s, p, clock)->Ok_0.findings, s[i].id@, rule) <==> is_found(
            own_findings(s, p, clock, i),
            s[i].id@,
            rule,
        ),
        model::latest_of(s, s.len() as int, s[i].id@) == Some(i),
{
    let id = s[i].id@;
    let ids = model::ids_of(s);
    newest_is_last(s, id, i);
    engine::valid_records(s, 0, i);
    assert(model::has_id(s, id));
    laws::id_listed(s, id);
    let k = choose|k: int| 0 <= k < ids.len() && ids[k] == id;
    evaluated_holds(s, p, clock, ids.len() as int, k, i, rule);
    laws::entry_fair(s, p, clock, i);
    laws::evaluations_are_complete(s, p, clock);
    let e = engine::evaluation(s, p, clock)->Ok_0;
    let own = engine::entry_of(s, p, clock, i)->Ok_0.resolution;
    assert forall|r: ResolutionView| #[trigger] is_resolved(e, id, r) <==> r == own by {
        if is_resolved(e, id, r) {
            let a = choose|a: int| 0 <= a < e.resolutions.len() && e.resolutions[a] == r;
            let b = choose|b: int| 0 <= b < e.resolutions.len() && e.resolutions[b] == own;
            text::text_lt_irreflexive(id);
            if a < b {
                assert(text::text_lt(
                    e.resolutions[a].obligation_id,
                    e.resolutions[b].obligation_id,
                ));
            } else if b < a {
                assert(text::text_lt(
                    e.resolutions[b].obligation_id,
                    e.resolutions[a].obligation_id,
                ));
            }
        }
    }
}

// ---- due dates ----

/// Whether an obligation has a due date of its own: it is no service level
/// and no renewal.
pub open spec fn is_plain(r: ObligationRecord) -> bool {
    r.obligation_type != ObligationType::Sla && r.obligation_type != ObligationType::RenewalOptOut
}

/// A chain that waits matters only where it closes a cycle.
proof fn chains_do_not_matter(
    s: Seq<ObligationRecord>,
    p: PolicyParams,
    i: int,
    long: Seq<Seq<char>>,
    short: Seq<Seq<char>>,
)
    requires
        0 <= i < s.len(),
        model::is_path(s, long),
        model::is_path(s, short),
        forall|x: Seq<char>| #[trigger] short.contains(x) ==> long.contains(x),
        engine::due_of(s, p, i, long) is Ok,
    ensures
        engine::due_of(s, p, i, short) == engine::due_of(s, p, i, long),
    decreases s.len() - long.len(),
{
    if model::anchor_of(s[i]) is Some {
        let a = model::anchor_of(s[i])->0;
        laws::latest_facts(s, s.len() as int, a);
        if model::latest_of(s, s.len() as int, a) is Some && !long.contains(s[i].id@) {
            let k = model::latest_of(s, s.len() as int, a)->0;
            let x = long.push(s[i].id@);
            let y = short.push(s[i].id@);
            model::path_grows(s, long, i);
            model::path_grows(s, short, i);
            assert forall|z: Seq<char>| #[trigger] y.contains(z) implies x.contains(z) by {
                let n = choose|n: int| 0 <= n < y.len() && y[n] == z;
                if n < short.len() {
                    assert(short.contains(short[n]));
                    let m = choose|m: int| 0 <= m < long.len() && long[m] == z;
                    assert(x[m] == z);
                } else {
                    assert(x[x.len() - 1] == z);
                }
            }
            match s[i].due {
                Some(DateSpec::Dependent { anchor_event: AnchorEvent::Due, .. }) => {
                    chains_do_not_matter(s, p, k, x, y);
                },
                _ => {},
            }
        }
    }
}

/// Whether `to` is the due day of a record whose clock starts on a day: the
/// offset months later, the offset days later, and rolled.
pub open spec fn is_offset(from: int, r: ObligationRecord, p: PolicyParams, to: int) -> bool {
    r.due matches Some(DateSpec::Dependent { offset_days, offset_months, .. }) && exists|
        day: int,
    |
        #[trigger] is_months_later(from, offset_months as int, day) && is_rolled(
            day + offset_days,
            r,
            p,
            to,
        )
}

proof fn offsets(base: Option<int>, r: ObligationRecord, p: PolicyParams)
    requires
        r.due matches Some(DateSpec::Dependent { .. }),
        engine::shifted_if_fixed(base, r, p) is Ok,
    ensures
        ({
            let c = engine::shifted_if_fixed(base, r, p)->Ok_0;
            match base {
                Some(day) => c.base == Some(day) && c.due is Some && c.due->0 >= day && is_offset(
                    day,
                    r,
                    p,
                    c.due->0,
                ),
                None => c.base is None && c.due is None,
            }
        }),
{
    match (base, r.due) {
        (Some(day), Some(DateSpec::Dependent { offset_days, offset_months, .. })) => {
            months_are_added_by_the_calendar(day, offset_months as int);
            let moved = engine::months_later(day, offset_months as int)->0;
            rolling_skips_free_days(moved + offset_days, r, p);
            assert(is_months_later(day, offset_months as int, moved));
        },
        _ => {},
    }
}

/// A date that the contract states is the due date, and nothing moves it.
pub proof fn stated_dates_are_due(
    s: Seq<ObligationRecord>,
    p: PolicyParams,
    clock: int,
    i: int,
    r: ResolutionView,
)
    requires
        engine::evaluation(s, p, clock) is Ok,
        laws::is_newest(s, s[i].id@, i),
        is_resolved(engine::evaluation(s, p, clock)->Ok_0, s[i].id@, r),
        s[i].due matches Some(DateSpec::Explicit { .. }),
    ensures
        r.due == Some(s[i].due->0->date.day()),
        r.base == r.due,
        !r.roll_applied,
{
    told_of(s, p, clock, i, "OBL-DUE-MET"@);
    assert(model::type_error(s[i]) is None);
}

/// An obligation that waits for another's due date counts from that date: the
/// base is the due date of the other, and the due date is that date shifted
/// by the offset months and days and rolled, never before it. Where the other
/// has no due date yet, neither has this one.
pub proof fn dependent_dates_count_from_their_anchors(
    s: Seq<ObligationRecord>,
    p: PolicyParams,
    clock: int,
    i: int,
    j: int,
    r: ResolutionView,
    q: ResolutionView,
)
    requires
        engine::evaluation(s, p, clock) is Ok,
        laws::is_newest(s, s[i].id@, i),
        laws::is_newest(s, s[j].id@, j),
        is_resolved(engine::evaluation(s, p, clock)->Ok_0, s[i].id@, r),
        is_resolved(engine::evaluation(s, p, clock)->Ok_0, s[j].id@, q),
        s[i].due matches Some(DateSpec::Dependent { anchor_id, anchor_event, .. }) && anchor_id@
            == s[j].id@ && anchor_event == AnchorEvent::Due,
        is_plain(s[j]),
    ensures
        (match q.due {
            Some(day) => {
                &&& r.base == Some(day)
                &&& r.due is Some
                &&& r.due->0 >= day
                &&& is_offset(day, s[i], p, r.due->0)
            },
            None => r.base is None && r.due is None,
        }),
{
    told_of(s, p, clock, i, "OBL-DUE-MET"@);
    told_of(s, p, clock, j, "OBL-DUE-MET"@);
    assert(model::type_error(s[i]) is None);
    let none = Seq::<Seq<char>>::empty();
    let one = none.push(s[i].id@);
    model::path_grows(s, none, i);
    chains_do_not_matter(s, p, j, one, none);
    let anchor = engine::due_of(s, p, j, none)->Ok_0;
    offsets(anchor.due, s[i], p);
}

/// An obligation that waits for the completion of another counts from the
/// day of completion, and has no due date until there is one.
pub proof fn dependent_dates_count_from_completion(
    s: Seq<ObligationRecord>,
    p: PolicyParams,
    clock: int,
    i: int,
    j: int,
    r: ResolutionView,
)
    requires
        engine::evaluation(s, p, clock) is Ok,
        laws::is_newest(s, s[i].id@, i),
        laws::is_newest(s, s[j].id@, j),
        is_resolved(engine::evaluation(s, p, clock)->Ok_0, s[i].id@, r),
        s[i].due matches Some(DateSpec::Dependent { anchor_id, anchor_event, .. }) && anchor_id@
            == s[j].id@ && anchor_event == AnchorEvent::Completed,
    ensures
        (match s[j].completed_on {
            Some(done) => {
                &&& r.base == Some(done.day())
                &&& r.due is Some
                &&& r.due->0 >= done.day()
                &&& is_offset(done.day(), s[i], p, r.due->0)
            },
            None => r.base is None && r.due is None,
        }),
{
    told_of(s, p, clock, i, "OBL-DUE-MET"@);
    told_of(s, p, clock, j, "OBL-DUE-MET"@);
    assert(model::type_error(s[i]) is None);
    let base = match s[j].completed_on {
        Some(done) => Some(done.day()),
        None => None,
    };
    offsets(base, s[i], p);
}

/// Every resolution says whose it is, and how many days are left until its
/// due date.
pub proof fn resolutions_count_the_days_left(
    s: Seq<ObligationRecord>,
    p: PolicyParams,
    clock: int,
    i: int,
    r: ResolutionView,
)
    requires
        engine::evaluation(s, p, clock) is Ok,
        laws::is_newest(s, s[i].id@, i),
        is_resolved(engine::evaluation(s, p, clock)->Ok_0, s[i].id@, r),
    ensures
        r.counterparty == s[i].counterparty@,
        r.kind == (match s[i].obligation_type {
            ObligationType::Sla => ResolutionKind::Sla,
            ObligationType::RenewalOptOut => ResolutionKind::OptOut,
            _ => ResolutionKind::Due,
        }),
        (match r.due {
            Some(due) => r.days_remaining == Some(due - clock),
            None => r.days_remaining is None,
        }),
        s[i].due is None && is_plain(s[i]) ==> r.due is None,
{
    told_of(s, p, clock, i, "OBL-DUE-MET"@);
}

/// Whether an obligation is satisfied on a day or before it.
pub open spec fn is_done(r: ObligationRecord, clock: int) -> bool {
    r.satisfied_on is Some && r.satisfied_on->0.day() <= clock
}

proof fn rule_names()
    ensures
        "REGISTER-CORRECTION"@.len() == 19,
        "OBL-DUE-MET"@.len() == 11,
        "OBL-DUE-UPCOMING"@.len() == 16,
        "OBL-DUE-OVERDUE"@.len() == 15,
        "OBL-DEPENDENT-PENDING"@.len() == 21,
        "SLA-CREDIT-DUE"@.len() == 14,
        "SLA-BREACH"@.len() == 10,
        "SLA-STALE"@.len() == 9,
        "RENEW-OPTOUT-OPEN"@.len() == 17,
        "RENEW-OPTOUT-CLOSING"@.len() == 20,
        "RENEW-OPTOUT-PASSED"@.len() == 19,
        "RENEW-AUTO-RENEWED"@.len() == 18,
        "RENEW-OPTOUT-EXERCISED"@.len() == 22,
        "RENEW-TERM-ENDED"@.len() == 16,
        "REGISTER-CORRECTION"@[2] == 'G',
        "RENEW-OPTOUT-PASSED"@[2] == 'N',
        "OBL-DUE-UPCOMING"@[0] == 'O',
        "RENEW-TERM-ENDED"@[0] == 'R',
{
    reveal_strlit("REGISTER-CORRECTION");
    reveal_strlit("OBL-DUE-MET");
    reveal_strlit("OBL-DUE-UPCOMING");
    reveal_strlit("OBL-DUE-OVERDUE");
    reveal_strlit("OBL-DEPENDENT-PENDING");
    reveal_strlit("SLA-CREDIT-DUE");
    reveal_strlit("SLA-BREACH");
    reveal_strlit("SLA-STALE");
    reveal_strlit("RENEW-OPTOUT-OPEN");
    reveal_strlit("RENEW-OPTOUT-CLOSING");
    reveal_strlit("RENEW-OPTOUT-PASSED");
    reveal_strlit("RENEW-AUTO-RENEWED");
    reveal_strlit("RENEW-OPTOUT-EXERCISED");
    reveal_strlit("RENEW-TERM-ENDED");
}

/// Whether one of the findings is by a rule.
spec fn has_rule(s: Seq<FindingView>, rule: Seq<char>) -> bool {
    exists|k: int| 0 <= k < s.len() && (#[trigger] s[k]).rule_id == rule
}

proof fn has_rule_joins(a: Seq<FindingView>, b: Seq<FindingView>, rule: Seq<char>)
    ensures
        has_rule(a + b, rule) == (has_rule(a, rule) || has_rule(b, rule)),
{
    let c = a + b;
    if has_rule(a, rule) {
        let k = choose|k: int| 0 <= k < a.len() && (#[trigger] a[k]).rule_id == rule;
        assert(c[k].rule_id == rule);
    }
    if has_rule(b, rule) {
        let k = choose|k: int| 0 <= k < b.len() && (#[trigger] b[k]).rule_id == rule;
        assert(c[a.len() + k].rule_id == rule);
    }
    if has_rule(c, rule) {
        let k = choose|k: int| 0 <= k < c.len() && (#[trigger] c[k]).rule_id == rule;
        if k < a.len() {
            assert(a[k].rule_id == rule);
        } else {
            assert(b[k - a.len()].rule_id == rule);
        }
    }
}

/// An obligation is found by a rule exactly where its correction or its entry
/// holds a finding of it.
proof fn found_by(
    s: Seq<ObligationRecord>,
    p: PolicyParams,
    clock: int,
    i: int,
    rule: Seq<char>,
)
    requires
        engine::evaluation(s, p, clock) is Ok,
        laws::is_newest(s, s[i].id@, i),
    ensures
        is_found(engine::evaluation(s, p, clock)->Ok_0.findings, s[i].id@, rule) <==> has_rule(
            engine::correction_findings(s[i]),
            rule,
        ) || has_rule(engine::entry_of(s, p, clock, i)->Ok_0.findings, rule),
{
    told_of(s, p, clock, i, rule);
    own_subjects(s, p, clock, i);
    let own = own_findings(s, p, clock, i);
    has_rule_joins(
        engine::correction_findings(s[i]),
        engine::entry_of(s, p, clock, i)->Ok_0.findings,
        rule,
    );
    if has_rule(own, rule) {
        let k = choose|k: int| 0 <= k < own.len() && (#[trigger] own[k]).rule_id == rule;
        assert(own[k].subject == s[i].id@);
    }
}

/// An obligation is reported as corrected exactly where its newest record
/// supersedes another.
pub proof fn corrections_are_reported(
    s: Seq<ObligationRecord>,
    p: PolicyParams,
    clock: int,
    i: int,
)
    requires
        engine::evaluation(s, p, clock) is Ok,
        laws::is_newest(s, s[i].id@, i),
    ensures
        is_found(
            engine::evaluation(s, p, clock)->Ok_0.findings,
            s[i].id@,
            "REGISTER-CORRECTION"@,
        ) <==> s[i].supersedes is Some,
{
    rule_names();
    let rule = "REGISTER-CORRECTION"@;
    told_of(s, p, clock, i, rule);
    found_by(s, p, clock, i, rule);
    let a = engine::correction_findings(s[i]);
    if s[i].supersedes is Some {
        assert(a[0].rule_id == rule);
    }
    match s[i].obligation_type {
        ObligationType::Sla => {
            service_rules(s[i], p, clock, rule);
        },
        _ => {},
    }
}

/// A due date is judged by the clock: overdue exactly where it is past and
/// the obligation is not satisfied by the clock; met exactly where it is
/// satisfied by the clock; upcoming exactly where it is not and the date lies
/// within the days of warning; and pending exactly where it waits for an
/// anchor and is not fixed.
pub proof fn due_dates_are_judged_by_the_clock(
    s: Seq<ObligationRecord>,
    p: PolicyParams,
    clock: int,
    i: int,
    r: ResolutionView,
)
    requires
        engine::evaluation(s, p, clock) is Ok,
        laws::is_newest(s, s[i].id@, i),
        is_plain(s[i]),
        is_resolved(engine::evaluation(s, p, clock)->Ok_0, s[i].id@, r),
    ensures
        ({
            let found = engine::evaluation(s, p, clock)->Ok_0.findings;
            let id = s[i].id@;
            let done = is_done(s[i], clock);
            &&& is_found(found, id, "OBL-DUE-OVERDUE"@) <==> r.due is Some && r.due->0 < clock
                && !done
            &&& is_found(found, id, "OBL-DUE-MET"@) <==> r.due is Some && done
            &&& is_found(found, id, "OBL-DUE-UPCOMING"@) <==> r.due is Some && !done && 0
                <= r.due->0 - clock <= p.warn_days_before_due
            &&& is_found(found, id, "OBL-DEPENDENT-PENDING"@) <==> r.due is None && (
            s[i].due matches Some(DateSpec::Dependent { .. }))
        }),
{
    rule_names();
    told_of(s, p, clock, i, "OBL-DUE-OVERDUE"@);
    found_by(s, p, clock, i, "OBL-DUE-OVERDUE"@);
    found_by(s, p, clock, i, "OBL-DUE-MET"@);
    found_by(s, p, clock, i, "OBL-DUE-UPCOMING"@);
    found_by(s, p, clock, i, "OBL-DEPENDENT-PENDING"@);
    let f = engine::entry_of(s, p, clock, i)->Ok_0.findings;
    if f.len() > 0 {
        assert(has_rule(f, f[0].rule_id));
    }
}

// ---- renewals ----

/// The deadline of an opt-out lies the days of notice before the renewal,
/// rolled.
pub proof fn optouts_are_due_before_the_renewal(
    s: Seq<ObligationRecord>,
    p: PolicyParams,
    clock: int,
    i: int,
    r: ResolutionView,
)
    requires
        engine::evaluation(s, p, clock) is Ok,
        laws::is_newest(s, s[i].id@, i),
        s[i].obligation_type == ObligationType::RenewalOptOut,
        is_resolved(engine::evaluation(s, p, clock)->Ok_0, s[i].id@, r),
    ensures
        s[i].renewal is Some,
        ({
            let terms = s[i].renewal->0;
            &&& r.base == Some(terms.renewal_date.day())
            &&& r.due is Some
            &&& is_rolled(terms.renewal_date.day() - terms.notice_days, s[i], p, r.due->0)
            &&& r.roll_applied <==> r.due->0 != terms.renewal_date.day() - terms.notice_days
        }),
{
    told_of(s, p, clock, i, "RENEW-OPTOUT-OPEN"@);
    assert(model::type_error(s[i]) is None);
    let terms = s[i].renewal->0;
    rolling_skips_free_days(terms.renewal_date.day() - terms.notice_days, s[i], p);
}

/// A renewal is judged by its terms, its deadline, and the clock.
pub proof fn renewals_are_judged_by_the_clock(
    s: Seq<ObligationRecord>,
    p: PolicyParams,
    clock: int,
    i: int,
    r: ResolutionView,
)
    requires
        engine::evaluation(s, p, clock) is Ok,
        laws::is_newest(s, s[i].id@, i),
        s[i].obligation_type == ObligationType::RenewalOptOut,
        is_resolved(engine::evaluation(s, p, clock)->Ok_0, s[i].id@, r),
    ensures
        r.due is Some,
        ({
            let found = engine::evaluation(s, p, clock)->Ok_0.findings;
            let id = s[i].id@;
            let terms = s[i].renewal->0;
            let renewed = terms.renewal_date.day() <= clock;
            let left = r.due->0 - clock;
            &&& is_found(found, id, "RENEW-OPTOUT-EXERCISED"@) <==> terms.opted_out
            &&& is_found(found, id, "RENEW-AUTO-RENEWED"@) <==> !terms.opted_out && renewed
                && terms.auto_renew
            &&& is_found(found, id, "RENEW-TERM-ENDED"@) <==> !terms.opted_out && renewed
                && !terms.auto_renew
            &&& is_found(found, id, "RENEW-OPTOUT-PASSED"@) <==> !terms.opted_out && !renewed
                && left < 0 && terms.auto_renew
            &&& is_found(found, id, "RENEW-OPTOUT-CLOSING"@) <==> !terms.opted_out && !renewed && 0
                <= left <= p.warn_days_before_optout
            &&& is_found(found, id, "RENEW-OPTOUT-OPEN"@) <==> !terms.opted_out && !renewed && left
                > p.warn_days_before_optout
        }),
{
    rule_names();
    optouts_are_due_before_the_renewal(s, p, clock, i, r);
    told_of(s, p, clock, i, "RENEW-OPTOUT-OPEN"@);
    found_by(s, p, clock, i, "RENEW-OPTOUT-EXERCISED"@);
    found_by(s, p, clock, i, "RENEW-AUTO-RENEWED"@);
    found_by(s, p, clock, i, "RENEW-TERM-ENDED"@);
    found_by(s, p, clock, i, "RENEW-OPTOUT-PASSED"@);
    found_by(s, p, clock, i, "RENEW-OPTOUT-CLOSING"@);
    found_by(s, p, clock, i, "RENEW-OPTOUT-OPEN"@);
    let f = engine::entry_of(s, p, clock, i)->Ok_0.findings;
    if f.len() > 0 {
        assert(has_rule(f, f[0].rule_id));
    }
}

// ---- service levels ----

/// Whether an uptime lands in a tier: it meets the threshold, and that of no
/// higher tier.
pub open spec fn lands_in(uptime: u64, tiers: Seq<SlaTier>, k: int) -> bool {
    &&& 0 <= k < tiers.len()
    &&& tiers[k].min_uptime_bp <= uptime
    &&& forall|j: int|
        0 <= j < tiers.len() && (#[trigger] tiers[j]).min_uptime_bp > tiers[k].min_uptime_bp
            ==> tiers[j].min_uptime_bp > uptime
}

/// Whether an uptime meets the threshold of no tier.
pub open spec fn is_below_all(uptime: u64, tiers: Seq<SlaTier>) -> bool {
    forall|j: int| 0 <= j < tiers.len() ==> (#[trigger] tiers[j]).min_uptime_bp > uptime
}

/// Whether a period lands in a tier that pays a credit.
pub open spec fn is_credited(m: SlaMeasurement, tiers: Seq<SlaTier>) -> bool {
    exists|k: int| #[trigger]
        lands_in(m.achieved_uptime_bp, tiers, k) && tiers[k].credit_bp > 0
}

proof fn tier_lands(p: PolicyParams, uptime: u64)
    requires
        model::params_error(p) is None,
    ensures
        (match engine::tier_of(uptime, p.sla_credit_tiers@, 0) {
            Some(t) => !is_below_all(uptime, p.sla_credit_tiers@) && (forall|k: int| #[trigger]
                lands_in(uptime, p.sla_credit_tiers@, k) <==> 0 <= k < p.sla_credit_tiers.len()
                    && p.sla_credit_tiers@[k] == t),
            None => is_below_all(uptime, p.sla_credit_tiers@),
        }),
{
    let tiers = p.sla_credit_tiers@;
    laws::uptime_lands_in_the_highest_tier_met(p, uptime);
    match engine::tier_of(uptime, tiers, 0) {
        Some(t) => {
            let w = choose|w: int| 0 <= w < tiers.len() && tiers[w] == t;
            assert(tiers[w].min_uptime_bp <= uptime);
            assert forall|k: int| #[trigger] lands_in(uptime, tiers, k) <==> 0 <= k < tiers.len()
                && tiers[k] == t by {
                if lands_in(uptime, tiers, k) {
                    assert(tiers[k].min_uptime_bp <= t.min_uptime_bp);
                    assert(tiers[w].min_uptime_bp == tiers[k].min_uptime_bp);
                    if w != k {
                        tiers_are_distinct(tiers, 0, w, k);
                    }
                }
            }
        },
        None => {},
    }
}

proof fn tiers_are_distinct(s: Seq<SlaTier>, from: int, i: int, j: int)
    requires
        0 <= from <= i < s.len(),
        from <= j < s.len(),
        i != j,
        model::tier_repeats_error(s, from) is None,
    ensures
        s[i].min_uptime_bp != s[j].min_uptime_bp,
    decreases s.len() - from,
{
    if from < i && from < j {
        tiers_are_distinct(s, from + 1, i, j);
    } else if from == i {
        assert(!model::threshold_recurs(s, from));
        if s[j].min_uptime_bp == s[i].min_uptime_bp {
            assert(s[j].min_uptime_bp == s[from].min_uptime_bp);
        }
    } else {
        assert(!model::threshold_recurs(s, from));
        if s[j].min_uptime_bp == s[i].min_uptime_bp {
            assert(s[i].min_uptime_bp == s[from].min_uptime_bp);
        }
    }
}

proof fn periods_found(
    periods: Seq<SlaMeasurement>,
    id: Seq<char>,
    p: PolicyParams,
    in_tier: bool,
    n: int,
)
    requires
        model::params_error(p) is None,
        0 <= n <= periods.len(),
    ensures
        ({
            let tiers = p.sla_credit_tiers@;
            let f = engine::period_findings(periods, id, tiers, in_tier, n);
            &&& f.len() > 0 <==> exists|k: int|
                0 <= k < n && (if in_tier {
                    is_credited(#[trigger] periods[k], tiers)
                } else {
                    is_below_all(periods[k].achieved_uptime_bp, tiers)
                })
            &&& forall|k: int|
                0 <= k < f.len() ==> (#[trigger] f[k]).rule_id == (if in_tier {
                    "SLA-CREDIT-DUE"@
                } else {
                    "SLA-BREACH"@
                })
        }),
    decreases n,
{
    if n > 0 {
        let tiers = p.sla_credit_tiers@;
        periods_found(periods, id, p, in_tier, n - 1);
        let before = engine::period_findings(periods, id, tiers, in_tier, n - 1);
        let m = periods[n - 1];
        tier_lands(p, m.achieved_uptime_bp);
        match engine::tier_of(m.achieved_uptime_bp, tiers, 0) {
            Some(t) => {
                laws::uptime_lands_in_the_highest_tier_met(p, m.achieved_uptime_bp);
                let w = choose|w: int| 0 <= w < tiers.len() && tiers[w] == t;
                assert(lands_in(m.achieved_uptime_bp, tiers, w));
                assert(is_credited(m, tiers) <==> t.credit_bp > 0);
            },
            None => {
                assert(!is_credited(m, tiers)) by {
                    if is_credited(m, tiers) {
                        let k = choose|k: int| #[trigger]
                            lands_in(m.achieved_uptime_bp, tiers, k) && tiers[k].credit_bp > 0;
                        assert(tiers[k].min_uptime_bp > m.achieved_uptime_bp);
                    }
                }
            },
        }
        if before.len() > 0 {
            let k = choose|k: int|
                0 <= k < n - 1 && (if in_tier {
                    is_credited(#[trigger] periods[k], tiers)
                } else {
                    is_below_all(periods[k].achieved_uptime_bp, tiers)
                });
            assert(if in_tier {
                is_credited(periods[k], tiers)
            } else {
                is_below_all(periods[k].achieved_uptime_bp, tiers)
            });
        }
    }
}

/// No finding on a service level is by another rule.
proof fn service_rules(r: ObligationRecord, p: PolicyParams, clock: int, rule: Seq<char>)
    requires
        model::params_error(p) is None,
    ensures
        ({
            let periods = engine::periods_of(r);
            let tiers = p.sla_credit_tiers@;
            let n = periods.len() as int;
            let f = engine::sla_entry(r, p, clock).findings;
            let a = engine::period_findings(periods, r.id@, tiers, true, n);
            let b = engine::period_findings(periods, r.id@, tiers, false, n);
            let c = engine::stale_findings(r, clock);
            &&& has_rule(f, rule) <==> has_rule(a, rule) || has_rule(b, rule) || has_rule(c, rule)
            &&& has_rule(a, rule) <==> a.len() > 0 && rule == "SLA-CREDIT-DUE"@
            &&& has_rule(b, rule) <==> b.len() > 0 && rule == "SLA-BREACH"@
            &&& has_rule(c, rule) <==> c.len() > 0 && rule == "SLA-STALE"@
        }),
{
    let periods = engine::periods_of(r);
    let tiers = p.sla_credit_tiers@;
    let n = periods.len() as int;
    let a = engine::period_findings(periods, r.id@, tiers, true, n);
    let b = engine::period_findings(periods, r.id@, tiers, false, n);
    let c = engine::stale_findings(r, clock);
    periods_found(periods, r.id@, p, true, n);
    periods_found(periods, r.id@, p, false, n);
    has_rule_joins(a, b, rule);
    has_rule_joins(a + b, c, rule);
    if a.len() > 0 {
        assert(has_rule(a, a[0].rule_id));
    }
    if b.len() > 0 {
        assert(has_rule(b, b[0].rule_id));
    }
    if c.len() > 0 {
        assert(has_rule(c, c[0].rule_id));
    }
}

/// Whether a period is the latest of a record: none ends later, and none
/// that ends with it starts later.
pub open spec fn is_latest(r: ObligationRecord, m: SlaMeasurement) -> bool {
    &&& r.sla_measurements@.contains(m)
    &&& forall|k: int|
        0 <= k < r.sla_measurements.len() ==> (
        #[trigger] r.sla_measurements@[k]).period_end.day() <= m.period_end.day()
}

proof fn period_order()
    ensures
        order::is_order(|a: SlaMeasurement, b: SlaMeasurement| engine::period_lt(a, b)),
{
}

proof fn periods_hold(r: ObligationRecord)
    ensures
        ({
            let s = engine::periods_of(r);
            &&& s.len() == r.sla_measurements.len()
            &&& forall|m: SlaMeasurement| #[trigger]
                s.contains(m) <==> r.sla_measurements@.contains(m)
            &&& forall|k: int|
                0 <= k < s.len() ==> (#[trigger] s[k]).period_end.day() <= s.last().period_end.day()
            &&& s.to_multiset() == r.sla_measurements@.to_multiset()
        }),
{
    let lt = |a: SlaMeasurement, b: SlaMeasurement| engine::period_lt(a, b);
    let s = engine::periods_of(r);
    period_order();
    order::stable_sort_keeps(r.sla_measurements@, lt);
    order::stable_sort_sorts(r.sla_measurements@, lt);
    order::stable_sort_elements(r.sla_measurements@, lt);
    assert forall|k: int| 0 <= k < s.len() implies (#[trigger] s[k]).period_end.day()
        <= s.last().period_end.day() by {
        if k < s.len() - 1 {
            assert(!lt(s[s.len() - 1], s[k]));
        }
    }
}

/// A service level is judged by its measured periods: a breach exactly where
/// some period meets no tier, a credit exactly where some period lands in a
/// tier that pays one, and stale exactly where no period ends within the
/// window before the clock.
pub proof fn service_levels_are_judged_by_their_periods(
    s: Seq<ObligationRecord>,
    p: PolicyParams,
    clock: int,
    i: int,
)
    requires
        engine::evaluation(s, p, clock) is Ok,
        laws::is_newest(s, s[i].id@, i),
        s[i].obligation_type == ObligationType::Sla,
    ensures
        s[i].sla is Some,
        ({
            let found = engine::evaluation(s, p, clock)->Ok_0.findings;
            let id = s[i].id@;
            let all = s[i].sla_measurements@;
            let tiers = p.sla_credit_tiers@;
            &&& is_found(found, id, "SLA-BREACH"@) <==> exists|k: int|
                0 <= k < all.len() && is_below_all((#[trigger] all[k]).achieved_uptime_bp, tiers)
            &&& is_found(found, id, "SLA-CREDIT-DUE"@) <==> exists|k: int|
                0 <= k < all.len() && is_credited(#[trigger] all[k], tiers)
            &&& is_found(found, id, "SLA-STALE"@) <==> forall|k: int|
                0 <= k < all.len() ==> (#[trigger] all[k]).period_end.day() < clock
                    - s[i].sla->0.window_days
        }),
{
    rule_names();
    told_of(s, p, clock, i, "SLA-BREACH"@);
    assert(model::type_error(s[i]) is None);
    assert(model::params_error(p) is None);
    found_by(s, p, clock, i, "SLA-BREACH"@);
    found_by(s, p, clock, i, "SLA-CREDIT-DUE"@);
    found_by(s, p, clock, i, "SLA-STALE"@);
    service_rules(s[i], p, clock, "SLA-BREACH"@);
    service_rules(s[i], p, clock, "SLA-CREDIT-DUE"@);
    service_rules(s[i], p, clock, "SLA-STALE"@);
    let periods = engine::periods_of(s[i]);
    let all = s[i].sla_measurements@;
    let tiers = p.sla_credit_tiers@;
    let n = periods.len() as int;
    periods_found(periods, s[i].id@, p, true, n);
    periods_found(periods, s[i].id@, p, false, n);
    periods_hold(s[i]);
    assert forall|k: int| 0 <= k < n implies all.contains(#[trigger] periods[k]) by {
        assert(periods.contains(periods[k]));
    }
    assert forall|k: int| 0 <= k < all.len() implies periods.contains(#[trigger] all[k]) by {
        assert(all.contains(all[k]));
    }
    let a = engine::period_findings(periods, s[i].id@, tiers, true, n);
    let b = engine::period_findings(periods, s[i].id@, tiers, false, n);
    if a.len() > 0 {
        let k = choose|k: int| 0 <= k < n && is_credited(#[trigger] periods[k], tiers);
        let j = choose|j: int| 0 <= j < all.len() && all[j] == periods[k];
        assert(is_credited(all[j], tiers));
    }
    if exists|k: int| 0 <= k < all.len() && is_credited(#[trigger] all[k], tiers) {
        let k = choose|k: int| 0 <= k < all.len() && is_credited(#[trigger] all[k], tiers);
        let j = choose|j: int| 0 <= j < n && periods[j] == all[k];
        assert(is_credited(periods[j], tiers));
    }
    if b.len() > 0 {
        let k = choose|k: int|
            0 <= k < n && is_below_all((#[trigger] periods[k]).achieved_uptime_bp, tiers);
        let j = choose|j: int| 0 <= j < all.len() && all[j] == periods[k];
        assert(is_below_all(all[j].achieved_uptime_bp, tiers));
    }
    if exists|k: int|
        0 <= k < all.len() && is_below_all((#[trigger] all[k]).achieved_uptime_bp, tiers) {
        let k = choose|k: int|
            0 <= k < all.len() && is_below_all((#[trigger] all[k]).achieved_uptime_bp, tiers);
        let j = choose|j: int| 0 <= j < n && periods[j] == all[k];
        assert(is_below_all(periods[j].achieved_uptime_bp, tiers));
    }
    if n > 0 {
        let last = periods.last();
        assert(periods[n - 1] == last);
        let j = choose|j: int| 0 <= j < all.len() && all[j] == last;
        assert forall|k: int| 0 <= k < all.len() implies (#[trigger] all[k]).period_end.day()
            <= last.period_end.day() by {
            assert(periods.contains(all[k]));
            let l = choose|l: int| 0 <= l < n && periods[l] == all[k];
        }
        assert(all[j].period_end.day() == last.period_end.day());
    } else {
        assert(all.len() == 0);
    }
}

/// Whether `credit` is the part of charges that basis points give, without
/// fractions of a cent.
pub open spec fn is_credit(charges: int, credit_bp: int, credit: int) -> bool {
    credit * 10_000 <= charges * credit_bp < (credit + 1) * 10_000
}

/// The credit on charges that are not negative is their part in basis points,
/// rounded down.
pub proof fn credits_are_rounded_down(charges: int, credit_bp: int)
    requires
        0 <= charges,
        0 <= credit_bp,
    ensures
        is_credit(charges, credit_bp, engine::credit_of(charges, credit_bp)),
{
    let product = charges * credit_bp;
    assert(0 <= product) by (nonlinear_arith)
        requires
            product == charges * credit_bp,
            0 <= charges,
            0 <= credit_bp,
    ;
}

proof fn snapshot_holds(periods: Seq<SlaMeasurement>, tiers: Seq<SlaTier>, n: int)
    requires
        0 <= n <= periods.len(),
    ensures
        (match engine::snapshot(periods, tiers, n) {
            Some((tier, credit)) => exists|k: int|
                0 <= k < n && (#[trigger] periods[k]).period_end.day()
                    == periods.last().period_end.day() && engine::tier_of(
                    periods[k].achieved_uptime_bp,
                    tiers,
                    0,
                ) == Some(tier) && credit == engine::credit_of(
                    periods[k].charges_cents as int,
                    tier.credit_bp as int,
                ),
            None => forall|k: int|
                0 <= k < n && (#[trigger] periods[k]).period_end.day()
                    == periods.last().period_end.day() ==> engine::tier_of(
                    periods[k].achieved_uptime_bp,
                    tiers,
                    0,
                ) is None,
        }),
    decreases n,
{
    if n > 0 {
        snapshot_holds(periods, tiers, n - 1);
        let m = periods[n - 1];
        match engine::tier_of(m.achieved_uptime_bp, tiers, 0) {
            Some(tier) if m.period_end.day() == periods.last().period_end.day() => {
                assert(periods[n - 1].period_end.day() == periods.last().period_end.day());
            },
            _ => {
                match engine::snapshot(periods, tiers, n - 1) {
                    Some((tier, credit)) => {
                        let k = choose|k: int|
                            0 <= k < n - 1 && (#[trigger] periods[k]).period_end.day()
                                == periods.last().period_end.day() && engine::tier_of(
                                periods[k].achieved_uptime_bp,
                                tiers,
                                0,
                            ) == Some(tier) && credit == engine::credit_of(
                                periods[k].charges_cents as int,
                                tier.credit_bp as int,
                            );
                        assert(periods[k].period_end.day() == periods.last().period_end.day());
                    },
                    None => {},
                }
            },
        }
    }
}

/// The resolution of a service level tells tier and credit of a period with
/// the latest end: the tier that its uptime lands in, and the part of its
/// charges that the tier pays. It tells neither where no such period lands in
/// a tier.
pub proof fn service_levels_resolve_to_their_latest_period(
    s: Seq<ObligationRecord>,
    p: PolicyParams,
    clock: int,
    i: int,
    r: ResolutionView,
)
    requires
        engine::evaluation(s, p, clock) is Ok,
        laws::is_newest(s, s[i].id@, i),
        s[i].obligation_type == ObligationType::Sla,
        is_resolved(engine::evaluation(s, p, clock)->Ok_0, s[i].id@, r),
    ensures
        r.due is None,
        r.tier_min_uptime_bp is Some <==> r.credit_cents is Some,
        r.credit_cents is Some ==> exists|m: SlaMeasurement, k: int| #[trigger]
            is_latest(s[i], m) && #[trigger] lands_in(
                m.achieved_uptime_bp,
                p.sla_credit_tiers@,
                k,
            ) && r.tier_min_uptime_bp == Some(p.sla_credit_tiers@[k].min_uptime_bp) && is_credit(
                m.charges_cents as int,
                p.sla_credit_tiers@[k].credit_bp as int,
                r.credit_cents->0,
            ),
        r.credit_cents is None ==> forall|m: SlaMeasurement| #[trigger]
            is_latest(s[i], m) ==> is_below_all(m.achieved_uptime_bp, p.sla_credit_tiers@),
{
    told_of(s, p, clock, i, "SLA-BREACH"@);
    assert(model::params_error(p) is None);
    let periods = engine::periods_of(s[i]);
    let all = s[i].sla_measurements@;
    let tiers = p.sla_credit_tiers@;
    let n = periods.len() as int;
    periods_hold(s[i]);
    snapshot_holds(periods, tiers, n);
    match engine::snapshot(periods, tiers, n) {
        Some((tier, credit)) => {
            let k = choose|k: int|
                0 <= k < n && (#[trigger] periods[k]).period_end.day()
                    == periods.last().period_end.day() && engine::tier_of(
                    periods[k].achieved_uptime_bp,
                    tiers,
                    0,
                ) == Some(tier) && credit == engine::credit_of(
                    periods[k].charges_cents as int,
                    tier.credit_bp as int,
                );
            let m = periods[k];
            assert(periods.contains(m));
            assert forall|j: int| 0 <= j < all.len() implies (#[trigger] all[j]).period_end.day()
                <= m.period_end.day() by {
                assert(all.contains(all[j]));
                assert(periods.contains(all[j]));
                let l = choose|l: int| 0 <= l < n && periods[l] == all[j];
            }
            assert(is_latest(s[i], m));
            tier_lands(p, m.achieved_uptime_bp);
            laws::uptime_lands_in_the_highest_tier_met(p, m.achieved_uptime_bp);
            let w = choose|w: int| 0 <= w < tiers.len() && tiers[w] == tier;
            assert(lands_in(m.achieved_uptime_bp, tiers, w));
            let j = choose|j: int| 0 <= j < all.len() && all[j] == m;
            measurements_hold(all, s[i].id@, 0, j);
            credits_are_rounded_down(m.charges_cents as int, tier.credit_bp as int);
        },
        None => {
            assert forall|m: SlaMeasurement| #[trigger] is_latest(s[i], m) implies is_below_all(
                m.achieved_uptime_bp,
                tiers,
            ) by {
                assert(periods.contains(m));
                let l = choose|l: int| 0 <= l < n && periods[l] == m;
                assert(periods.contains(periods[n - 1]));
                assert(all.contains(periods[n - 1]));
                let j = choose|j: int| 0 <= j < all.len() && all[j] == periods[n - 1];
                assert(all[j].period_end.day() <= m.period_end.day());
                assert(periods[l].period_end.day() == periods.last().period_end.day());
                tier_lands(p, m.achieved_uptime_bp);
            }
        },
    }
}

// ---- validation ----

/// The last day that a date of a register can have: the last of the year
/// 2999.
pub open spec fn last_day() -> int {
    date::civil_day(2999, 12, 31)
}

proof fn last_day_is_bound()
    ensures
        model::MAX_DATE == last_day(),
        model::MIN_CLOCK == date::civil_day(1970, 1, 1),
{
    assert(date::days_before_month(2999, 1) == 0);
    assert(date::days_before_month(2999, 2) == 31);
    assert(date::days_before_month(2999, 3) == 59);
    assert(date::days_before_month(2999, 4) == 90);
    assert(date::days_before_month(2999, 5) == 120);
    assert(date::days_before_month(2999, 6) == 151);
    assert(date::days_before_month(2999, 7) == 181);
    assert(date::days_before_month(2999, 8) == 212);
    assert(date::days_before_month(2999, 9) == 243);
    assert(date::days_before_month(2999, 10) == 273);
    assert(date::days_before_month(2999, 11) == 304);
    assert(date::days_before_month(2999, 12) == 334);
}

/// Whether a measured period holds together.
pub open spec fn period_holds(m: SlaMeasurement) -> bool {
    &&& m.period_start.day() <= m.period_end.day() <= last_day()
    &&& m.achieved_uptime_bp <= 10_000
    &&& 0 <= m.charges_cents <= 1_000_000_000_000_000
}

proof fn measurements_hold(s: Seq<SlaMeasurement>, id: Seq<char>, from: int, j: int)
    requires
        0 <= from <= j < s.len(),
        model::measurements_error(s, id, from) is None,
    ensures
        period_holds(s[j]),
    decreases j - from,
{
    last_day_is_bound();
    if from < j {
        measurements_hold(s, id, from + 1, j);
    }
}

proof fn measurements_pass(s: Seq<SlaMeasurement>, id: Seq<char>, from: int)
    requires
        0 <= from <= s.len(),
        forall|k: int| from <= k < s.len() ==> period_holds(#[trigger] s[k]),
    ensures
        model::measurements_error(s, id, from) is None,
    decreases s.len() - from,
{
    last_day_is_bound();
    if from < s.len() {
        measurements_pass(s, id, from + 1);
        assert(period_holds(s[from]));
    }
}

/// Whether a record holds together: it is named, its version is above what it
/// supersedes, money and spans and dates are within their bounds, and its
/// terms fit its type.
pub open spec fn record_holds(r: ObligationRecord) -> bool {
    &&& !text::is_blank(r.id@)
    &&& !text::is_blank(r.counterparty@)
    &&& r.version >= 1
    &&& r.supersedes is Some ==> r.supersedes->0 < r.version
    &&& r.amount_cents is Some ==> 0 <= r.amount_cents->0 <= 1_000_000_000_000_000
    &&& match r.obligation_type {
        ObligationType::Sla => r.sla is Some && r.due is None,
        ObligationType::RenewalOptOut => r.renewal is Some && r.due is None,
        _ => r.sla is None && r.renewal is None && r.sla_measurements.len() == 0,
    }
    &&& r.renewal is Some ==> r.renewal->0.renewal_date.day() <= last_day()
        && r.renewal->0.notice_days <= 3_660
    &&& r.sla is Some ==> r.sla->0.window_days <= 3_660
    &&& forall|k: int|
        0 <= k < r.sla_measurements.len() ==> period_holds(#[trigger] r.sla_measurements@[k])
    &&& match r.due {
        Some(DateSpec::Explicit { date }) => date.day() <= last_day(),
        Some(DateSpec::Dependent { offset_days, offset_months, .. }) => offset_days <= 3_660
            && offset_months <= 120,
        None => true,
    }
    &&& r.satisfied_on is Some ==> r.satisfied_on->0.day() <= last_day()
    &&& r.completed_on is Some ==> r.completed_on->0.day() <= last_day()
}

/// A record validates exactly where it holds together.
pub proof fn valid_records_hold_together(r: ObligationRecord)
    ensures
        model::record_error(r) is None <==> record_holds(r),
{
    last_day_is_bound();
    let s = r.sla_measurements@;
    if model::measurements_error(s, r.id@, 0) is None {
        assert forall|k: int| 0 <= k < s.len() implies period_holds(#[trigger] s[k]) by {
            measurements_hold(s, r.id@, 0, k);
        }
    }
    if forall|k: int| 0 <= k < s.len() ==> period_holds(#[trigger] s[k]) {
        measurements_pass(s, r.id@, 0);
    }
    assert(model::head_error(r) is None <==> (!text::is_blank(r.id@) && !text::is_blank(
        r.counterparty@,
    ) && r.version >= 1 && (r.supersedes is Some ==> r.supersedes->0 < r.version) && (
    r.amount_cents is Some ==> 0 <= r.amount_cents->0 <= 1_000_000_000_000_000)));
}

/// Whether a register holds together: each record does, and is a version of
/// its own; the first of an obligation supersedes none, and every other the
/// one before it; anchors name obligations of the register and lead to no
/// cycle; and jurisdictions have calendars.
pub open spec fn register_holds(s: Seq<ObligationRecord>, p: PolicyParams) -> bool {
    &&& forall|i: int| 0 <= i < s.len() ==> record_holds(#[trigger] s[i])
    &&& forall|i: int, j: int|
        0 <= i < j < s.len() && (#[trigger] s[i]).id@ == (#[trigger] s[j]).id@ ==> s[i].version
            != s[j].version
    &&& forall|i: int| 0 <= i < s.len() ==> #[trigger] continues(s, i)
    &&& forall|i: int| 0 <= i < s.len() ==> #[trigger] is_anchored(s, i)
    &&& forall|i: int| 0 <= i < s.len() ==> !model::has_cycle(s, (#[trigger] s[i]).id@)
    &&& forall|i: int|
        0 <= i < s.len() && (#[trigger] s[i]).jurisdiction is Some ==> p.calendars.keys().contains(
            s[i].jurisdiction->0@,
        )
}

/// Whether record `i` waits for no obligation, or for one of the register.
pub open spec fn is_anchored(s: Seq<ObligationRecord>, i: int) -> bool {
    match s[i].due {
        Some(DateSpec::Dependent { anchor_id, .. }) => exists|j: int|
            0 <= j < s.len() && (#[trigger] s[j]).id@ == anchor_id@,
        _ => true,
    }
}

/// Whether record `i` continues the versions of its obligation.
pub open spec fn continues(s: Seq<ObligationRecord>, i: int) -> bool {
    if exists|j: int| 0 <= j < i && (#[trigger] s[j]).id@ == s[i].id@ {
        exists|j: int|
            0 <= j < i && (#[trigger] s[j]).id@ == s[i].id@ && s[i].supersedes == Some(
                s[j].version,
            ) && forall|k: int| j < k < i ==> (#[trigger] s[k]).id@ != s[i].id@
    } else {
        s[i].supersedes is None
    }
}

proof fn lineage_continues(s: Seq<ObligationRecord>, i: int)
    requires
        0 <= i < s.len(),
    ensures
        model::lineage_error(s, i) is None <==> continues(s, i) && forall|j: int|
            0 <= j < i && (#[trigger] s[j]).id@ == s[i].id@ ==> s[j].version != s[i].version,
{
    laws::latest_facts(s, i, s[i].id@);
    match model::latest_of(s, i, s[i].id@) {
        Some(k) => {
            assert(s[k].id@ == s[i].id@);
            if continues(s, i) {
                let j = choose|j: int|
                    0 <= j < i && (#[trigger] s[j]).id@ == s[i].id@ && s[i].supersedes == Some(
                        s[j].version,
                    ) && forall|k: int| j < k < i ==> (#[trigger] s[k]).id@ != s[i].id@;
                if j < k {
                    assert(s[k].id@ != s[i].id@);
                } else if k < j {
                    assert(s[j].id@ != s[i].id@);
                }
            }
        },
        None => {},
    }
}

proof fn records_pass(s: Seq<ObligationRecord>, from: int)
    requires
        0 <= from <= s.len(),
    ensures
        model::records_error(s, from) is None <==> forall|i: int|
            from <= i < s.len() ==> record_holds(#[trigger] s[i]) && model::lineage_error(s, i)
                is None,
    decreases s.len() - from,
{
    if from < s.len() {
        records_pass(s, from + 1);
        valid_records_hold_together(s[from]);
        if model::records_error(s, from) is None {
            assert(record_holds(s[from]) && model::lineage_error(s, from) is None);
        }
    }
}

proof fn cycles_pass(s: Seq<ObligationRecord>, ids: Seq<Seq<char>>, from: int)
    requires
        0 <= from <= ids.len(),
    ensures
        model::cycles_error(s, ids, from) is None <==> forall|i: int|
            from <= i < ids.len() ==> !model::has_cycle(s, #[trigger] ids[i]),
    decreases ids.len() - from,
{
    if from < ids.len() {
        cycles_pass(s, ids, from + 1);
        model::cycles_are_found(s, ids[from]);
    }
}

proof fn jurisdictions_pass(s: Seq<ObligationRecord>, p: PolicyParams, from: int)
    requires
        0 <= from <= s.len(),
    ensures
        model::jurisdictions_error(s, p.calendars, from) is None <==> forall|i: int|
            from <= i < s.len() && (#[trigger] s[i]).jurisdiction is Some
                ==> p.calendars.keys().contains(s[i].jurisdiction->0@),
    decreases s.len() - from,
{
    if from < s.len() {
        jurisdictions_pass(s, p, from + 1);
    }
}

proof fn lineages_hold(s: Seq<ObligationRecord>)
    requires
        forall|i: int|
            0 <= i < s.len() ==> record_holds(#[trigger] s[i]) && model::lineage_error(s, i) is None,
    ensures
        forall|i: int| 0 <= i < s.len() ==> #[trigger] continues(s, i),
        forall|i: int, j: int|
            0 <= i < j < s.len() && (#[trigger] s[i]).id@ == (#[trigger] s[j]).id@ ==> s[i].version
                != s[j].version,
{
    assert forall|i: int| 0 <= i < s.len() implies #[trigger] continues(s, i) by {
        assert(record_holds(s[i]) && model::lineage_error(s, i) is None);
        lineage_continues(s, i);
    }
    assert forall|i: int, j: int|
        0 <= i < j < s.len() && (#[trigger] s[i]).id@ == (#[trigger] s[j]).id@ implies s[i].version
        != s[j].version by {
        assert(record_holds(s[j]) && model::lineage_error(s, j) is None);
        lineage_continues(s, j);
    }
}

proof fn cycles_listed(s: Seq<ObligationRecord>)
    ensures
        model::cycles_error(s, model::ids_of(s), 0) is None <==> forall|i: int|
            0 <= i < s.len() ==> !model::has_cycle(s, (#[trigger] s[i]).id@),
{
    let ids = model::ids_of(s);
    cycles_pass(s, ids, 0);
    if model::cycles_error(s, ids, 0) is None {
        assert forall|i: int| 0 <= i < s.len() implies !model::has_cycle(
            s,
            (#[trigger] s[i]).id@,
        ) by {
            assert(model::has_id(s, s[i].id@));
            laws::id_listed(s, s[i].id@);
            let k = choose|k: int| 0 <= k < ids.len() && ids[k] == s[i].id@;
            assert(!model::has_cycle(s, ids[k]));
        }
    }
    if forall|i: int| 0 <= i < s.len() ==> !model::has_cycle(s, (#[trigger] s[i]).id@) {
        assert forall|i: int| 0 <= i < ids.len() implies !model::has_cycle(
            s,
            #[trigger] ids[i],
        ) by {
            engine::listed_ids_exist(s, i);
            let k = choose|k: int| 0 <= k < s.len() && (#[trigger] s[k]).id@ == ids[i];
            assert(!model::has_cycle(s, s[k].id@));
        }
    }
}

proof fn lineages_pass(s: Seq<ObligationRecord>)
    requires
        forall|i: int| 0 <= i < s.len() ==> record_holds(#[trigger] s[i]),
        forall|i: int| 0 <= i < s.len() ==> #[trigger] continues(s, i),
        forall|i: int, j: int|
            0 <= i < j < s.len() && (#[trigger] s[i]).id@ == (#[trigger] s[j]).id@ ==> s[i].version
                != s[j].version,
    ensures
        model::records_error(s, 0) is None,
{
    assert forall|i: int| 0 <= i < s.len() implies record_holds(#[trigger] s[i])
        && model::lineage_error(s, i) is None by {
        assert(continues(s, i));
        lineage_continues(s, i);
    }
    records_pass(s, 0);
}

proof fn records_judged(s: Seq<ObligationRecord>)
    ensures
        model::records_error(s, 0) is None <==> (forall|i: int|
            0 <= i < s.len() ==> record_holds(#[trigger] s[i])) && (forall|i: int, j: int|
            0 <= i < j < s.len() && (#[trigger] s[i]).id@ == (#[trigger] s[j]).id@ ==> s[i].version
                != s[j].version) && (forall|i: int|
            0 <= i < s.len() ==> #[trigger] continues(s, i)),
{
    if model::records_error(s, 0) is None {
        records_pass(s, 0);
        lineages_hold(s);
    }
    if (forall|i: int| 0 <= i < s.len() ==> record_holds(#[trigger] s[i])) && (forall|
        i: int,
        j: int,
    |
        0 <= i < j < s.len() && (#[trigger] s[i]).id@ == (#[trigger] s[j]).id@ ==> s[i].version
            != s[j].version) && (forall|i: int| 0 <= i < s.len() ==> #[trigger] continues(s, i)) {
        lineages_pass(s);
    }
}

proof fn anchors_judged(s: Seq<ObligationRecord>, from: int)
    requires
        0 <= from <= s.len(),
    ensures
        model::anchors_error(s, from) is None <==> forall|i: int|
            from <= i < s.len() ==> #[trigger] is_anchored(s, i),
    decreases s.len() - from,
{
    if from < s.len() {
        anchors_judged(s, from + 1);
        assert(is_anchored(s, from) <==> (model::anchor_of(s[from]) is Some ==> model::has_id(
            s,
            model::anchor_of(s[from])->0,
        )));
    }
}

/// Under a policy that validates, a register validates exactly where it holds
/// together.
pub proof fn valid_registers_hold_together(s: Seq<ObligationRecord>, p: PolicyParams)
    requires
        model::params_error(p) is None,
    ensures
        model::register_error(s, p) is None <==> register_holds(s, p),
{
    records_judged(s);
    anchors_judged(s, 0);
    cycles_listed(s);
    jurisdictions_pass(s, p, 0);
    assert(model::register_error(s, p) is None <==> model::records_error(s, 0) is None
        && model::anchors_error(s, 0) is None && model::cycles_error(s, model::ids_of(s), 0)
        is None && model::jurisdictions_error(s, p.calendars, 0) is None);
}

/// Whether a calendar holds together.
pub open spec fn calendar_holds(cal: Calendar) -> bool {
    &&& forall|k: int|
        0 <= k < cal.weekend.len() ==> weekdays().contains((#[trigger] cal.weekend@[k])@)
    &&& forall|k: int|
        0 <= k < cal.holidays.len() ==> (#[trigger] cal.holidays@[k]).day() <= last_day()
}

/// Whether a policy holds together: windows within bounds, and at least one
/// tier, of strictly descending thresholds, all within the whole; and
/// calendars that hold together.
pub open spec fn policy_holds(p: PolicyParams) -> bool {
    let tiers = p.sla_credit_tiers@;
    &&& p.warn_days_before_due <= 3_660
    &&& p.warn_days_before_optout <= 3_660
    &&& tiers.len() > 0
    &&& forall|i: int, j: int|
        0 <= i < j < tiers.len() ==> (#[trigger] tiers[i]).min_uptime_bp > (
        #[trigger] tiers[j]).min_uptime_bp
    &&& forall|i: int|
        0 <= i < tiers.len() ==> (#[trigger] tiers[i]).min_uptime_bp <= 10_000
            && tiers[i].credit_bp <= 10_000
    &&& forall|i: int|
        0 <= i < p.calendars.keys().len() ==> calendar_holds(#[trigger] p.calendars.values()[i])
}

proof fn bounds_pass(s: Seq<SlaTier>, from: int)
    requires
        0 <= from <= s.len(),
    ensures
        model::tier_bounds_errors(s, from) is None <==> forall|i: int|
            from <= i < s.len() ==> (#[trigger] s[i]).min_uptime_bp <= 10_000 && s[i].credit_bp
                <= 10_000,
    decreases s.len() - from,
{
    if from < s.len() {
        bounds_pass(s, from + 1);
    }
}

proof fn repeats_pass(s: Seq<SlaTier>, from: int)
    requires
        0 <= from <= s.len(),
        forall|i: int, j: int|
            0 <= i < j < s.len() ==> (#[trigger] s[i]).min_uptime_bp > (
            #[trigger] s[j]).min_uptime_bp,
    ensures
        model::tier_repeats_error(s, from) is None,
    decreases s.len() - from,
{
    if from < s.len() {
        repeats_pass(s, from + 1);
    }
}

proof fn weekend_pass(name: Seq<char>, s: Seq<String>, from: int)
    requires
        0 <= from <= s.len(),
    ensures
        model::weekend_error(name, s, from) is None <==> forall|i: int|
            from <= i < s.len() ==> weekdays().contains((#[trigger] s[i])@),
    decreases s.len() - from,
{
    if from < s.len() {
        weekend_pass(name, s, from + 1);
        let w = weekdays();
        if model::is_weekday_name(s[from]@) {
            assert(w[0] == "mon"@ && w[1] == "tue"@ && w[2] == "wed"@ && w[3] == "thu"@ && w[4]
                == "fri"@ && w[5] == "sat"@ && w[6] == "sun"@);
            assert(w.contains(s[from]@));
        }
    }
}

proof fn holidays_pass(name: Seq<char>, s: Seq<date::Date>, from: int)
    requires
        0 <= from <= s.len(),
    ensures
        model::holidays_error(name, s, from) is None <==> forall|i: int|
            from <= i < s.len() ==> (#[trigger] s[i]).day() <= last_day(),
    decreases s.len() - from,
{
    last_day_is_bound();
    if from < s.len() {
        holidays_pass(name, s, from + 1);
    }
}

proof fn calendars_pass(p: PolicyParams, from: int)
    requires
        0 <= from <= p.calendars.keys().len(),
    ensures
        model::calendars_error(p.calendars, from) is None <==> forall|i: int|
            from <= i < p.calendars.keys().len() ==> calendar_holds(
                #[trigger] p.calendars.values()[i],
            ),
    decreases p.calendars.keys().len() - from,
{
    if from < p.calendars.keys().len() {
        calendars_pass(p, from + 1);
        let cal = p.calendars.values()[from];
        weekend_pass(p.calendars.keys()[from], cal.weekend@, 0);
        holidays_pass(p.calendars.keys()[from], cal.holidays@, 0);
    }
}

/// A policy validates exactly where it holds together.
pub proof fn valid_policies_hold_together(p: PolicyParams)
    ensures
        model::params_error(p) is None <==> policy_holds(p),
{
    let tiers = p.sla_credit_tiers@;
    bounds_pass(tiers, 0);
    calendars_pass(p, 0);
    if model::params_error(p) is None {
        assert forall|i: int, j: int| 0 <= i < j < tiers.len() implies (
        #[trigger] tiers[i]).min_uptime_bp > (#[trigger] tiers[j]).min_uptime_bp by {
            tiers_are_distinct(tiers, 0, i, j);
        }
    }
    if policy_holds(p) {
        repeats_pass(tiers, 0);
    }
}

/// An evaluation is refused where the clock lies before 1970 or after 2999,
/// or the register does not validate; a register that validates, at a clock
/// in between, is refused only where a computed date lies off the calendar or
/// a calendar has no business day.
pub proof fn clocks_are_bounded(s: Seq<ObligationRecord>, p: PolicyParams, clock: int)
    ensures
        engine::evaluation(s, p, clock) is Ok ==> date::civil_day(1970, 1, 1) <= clock
            <= last_day() && model::register_error(s, p) is None,
{
    last_day_is_bound();
}

// ---- grades ----

/// Whether a finding is graded by its rule, and needs a signoff exactly when
/// it is a breach.
pub open spec fn is_graded(f: FindingView) -> bool {
    let rule = f.rule_id;
    ||| {
        &&& rule == "OBL-DUE-OVERDUE"@ || rule == "SLA-BREACH"@ || rule == "RENEW-OPTOUT-PASSED"@
            || rule == "RENEW-AUTO-RENEWED"@
        &&& f.severity == Severity::Breach
        &&& f.requires_signoff
    }
    ||| {
        &&& rule == "OBL-DUE-UPCOMING"@ || rule == "SLA-CREDIT-DUE"@ || rule == "SLA-STALE"@
            || rule == "RENEW-OPTOUT-CLOSING"@
        &&& f.severity == Severity::Warn
        &&& !f.requires_signoff
    }
    ||| {
        &&& rule == "REGISTER-CORRECTION"@ || rule == "OBL-DUE-MET"@ || rule
            == "OBL-DEPENDENT-PENDING"@ || rule == "RENEW-OPTOUT-OPEN"@ || rule
            == "RENEW-OPTOUT-EXERCISED"@ || rule == "RENEW-TERM-ENDED"@
        &&& f.severity == Severity::Info
        &&& !f.requires_signoff
    }
}

spec fn all_graded(s: Seq<FindingView>) -> bool {
    forall|k: int| 0 <= k < s.len() ==> is_graded(#[trigger] s[k])
}

proof fn periods_graded(
    periods: Seq<SlaMeasurement>,
    id: Seq<char>,
    tiers: Seq<SlaTier>,
    in_tier: bool,
    n: int,
)
    ensures
        all_graded(engine::period_findings(periods, id, tiers, in_tier, n)),
    decreases n,
{
    if n > 0 {
        periods_graded(periods, id, tiers, in_tier, n - 1);
    }
}

proof fn evaluated_graded(s: Seq<ObligationRecord>, p: PolicyParams, clock: int, n: int)
    requires
        engine::evaluated(s, p, clock, n) is Ok,
    ensures
        all_graded(engine::evaluated(s, p, clock, n)->Ok_0.findings),
    decreases n,
{
    if n > 0 {
        evaluated_graded(s, p, clock, n - 1);
        let i = model::latest_of(s, s.len() as int, model::ids_of(s)[n - 1])->0;
        let periods = engine::periods_of(s[i]);
        let m = periods.len() as int;
        periods_graded(periods, s[i].id@, p.sla_credit_tiers@, true, m);
        periods_graded(periods, s[i].id@, p.sla_credit_tiers@, false, m);
        let before = engine::evaluated(s, p, clock, n - 1)->Ok_0.findings;
        let c = engine::correction_findings(s[i]);
        let more = engine::entry_of(s, p, clock, i)->Ok_0.findings;
        assert(all_graded(c));
        assert(all_graded(engine::stale_findings(s[i], clock)));
        assert(all_graded(more));
        assert(all_graded(before + c));
        assert(all_graded(before + c + more));
    }
}

/// An overdue obligation, a breached service level, a missed opt-out, and an
/// automatic renewal are breaches, and need a signoff. A date that comes up, a
/// credit due, stale measurements, and an opt-out that closes are warnings.
/// Everything else is for information.
pub proof fn findings_are_graded_by_their_rules(
    s: Seq<ObligationRecord>,
    p: PolicyParams,
    clock: int,
    k: int,
)
    requires
        engine::evaluation(s, p, clock) is Ok,
        0 <= k < engine::evaluation(s, p, clock)->Ok_0.findings.len(),
    ensures
        is_graded(engine::evaluation(s, p, clock)->Ok_0.findings[k]),
{
    evaluated_graded(s, p, clock, model::ids_of(s).len() as int);
}

// ---- packs ----

/// Whether a receipt approves an obligation in a name that is not the
/// engine's.
pub open spec fn is_approval(x: SignoffView, id: Seq<char>) -> bool {
    &&& x.subject == id
    &&& x.decision == SignoffDecision::Approve
    &&& !text::all_white(x.actor)
    &&& !text::same_ignoring_case(text::trimmed(x.actor), "contract-obligation-spine"@)
}

/// Whether two people approve an obligation.
pub open spec fn two_approve(s: Seq<SignoffView>, id: Seq<char>) -> bool {
    exists|i: int, j: int|
        {
            &&& 0 <= i < s.len()
            &&& 0 <= j < s.len()
            &&& is_approval(#[trigger] s[i], id)
            &&& is_approval(#[trigger] s[j], id)
            &&& !text::same_ignoring_case(text::trimmed(s[i].actor), text::trimmed(s[j].actor))
        }
}

proof fn countersigned_by_two(s: Seq<SignoffView>, id: Seq<char>)
    ensures
        pack::is_countersigned(s, id) <==> two_approve(s, id),
{
    let keep = |x: SignoffView| pack::countersigns(x, id);
    let f = s.filter(keep);
    order::filtered_are_held(s, keep);
    spine::laws::four_eyes_are_two_people(f);
    if pack::is_countersigned(s, id) {
        let (i, j) = choose|i: int, j: int|
            0 <= i < f.len() && 0 <= j < f.len() && #[trigger] spine::laws::are_two_people(
                f[i],
                f[j],
            );
        assert(f.contains(f[i]) && f.contains(f[j]));
        let a = choose|a: int| 0 <= a < s.len() && s[a] == f[i];
        let b = choose|b: int| 0 <= b < s.len() && s[b] == f[j];
        assert(is_approval(s[a], id) && is_approval(s[b], id));
    }
    if two_approve(s, id) {
        let (i, j) = choose|i: int, j: int|
            {
                &&& 0 <= i < s.len()
                &&& 0 <= j < s.len()
                &&& is_approval(#[trigger] s[i], id)
                &&& is_approval(#[trigger] s[j], id)
                &&& !text::same_ignoring_case(text::trimmed(s[i].actor), text::trimmed(s[j].actor))
            };
        assert(s.contains(s[i]) && s.contains(s[j]));
        assert(f.contains(s[i]) && f.contains(s[j]));
        let a = choose|a: int| 0 <= a < f.len() && f[a] == s[i];
        let b = choose|b: int| 0 <= b < f.len() && f[b] == s[j];
        assert(spine::laws::are_two_people(f[a], f[b]));
    }
}

proof fn corrected_are_corrections(s: Seq<ObligationRecord>, n: int, j: int)
    requires
        0 <= n <= s.len(),
        0 <= j < pack::corrected(s, n).len(),
    ensures
        exists|k: int|
            0 <= k < n && (#[trigger] s[k]).supersedes is Some && s[k].id@ == pack::corrected(
                s,
                n,
            )[j],
    decreases n,
{
    let before = pack::corrected(s, n - 1);
    if j < before.len() {
        corrected_are_corrections(s, n - 1, j);
        assert(pack::corrected(s, n)[j] == before[j]);
    } else {
        assert(s[n - 1].supersedes is Some);
    }
}

proof fn first_open_is_open(signoffs: Seq<SignoffView>, ids: Seq<Seq<char>>, i: int)
    requires
        0 <= i <= ids.len(),
    ensures
        pack::first_open(signoffs, ids, i) matches Some(id) ==> ids.contains(id)
            && !pack::is_countersigned(signoffs, id),
    decreases ids.len() - i,
{
    if i < ids.len() {
        first_open_is_open(signoffs, ids, i + 1);
        assert(ids.contains(ids[i]));
    }
}

/// A pack verifies against a register exactly when it is evidence and two
/// people approve every obligation that a record of the register corrects.
pub proof fn corrections_need_two_people(
    p: PackView,
    s: Seq<ObligationRecord>,
    inputs: Seq<u8>,
    params: Seq<u8>,
)
    ensures
        pack::register_verdict(p, s, inputs, params, Ok(())) <==> spine::is_evidence(
            p,
            inputs,
            params,
        ) && forall|k: int|
            0 <= k < s.len() && (#[trigger] s[k]).supersedes is Some ==> two_approve(
                p.signoffs,
                s[k].id@,
            ),
{
    let n = s.len() as int;
    let all = pack::corrected(s, n);
    let ids = pack::corrected_ids(s);
    if pack::register_verdict(p, s, inputs, params, Ok(())) {
        assert forall|k: int| 0 <= k < s.len() && (
        #[trigger] s[k]).supersedes is Some implies two_approve(p.signoffs, s[k].id@) by {
            laws::corrections_need_two_signers(p, s, inputs, params, k);
            countersigned_by_two(p.signoffs, s[k].id@);
        }
    }
    first_open_is_open(p.signoffs, ids, 0);
    match pack::first_open(p.signoffs, ids, 0) {
        Some(id) => {
            let a = choose|a: int| 0 <= a < ids.len() && ids[a] == id;
            text::ascending_holds(all, a);
            let j = choose|j: int| 0 <= j < all.len() && all[j] == id;
            corrected_are_corrections(s, n, j);
            let k = choose|k: int|
                0 <= k < n && (#[trigger] s[k]).supersedes is Some && s[k].id@ == all[j];
            countersigned_by_two(p.signoffs, s[k].id@);
        },
        None => {},
    }
}

// ---- what can be computed ----

/// Months are added wherever the calendar, which ends with year 262142, holds
/// the month that is reached.
pub proof fn months_are_added_up_to_the_end(y: int, m: int, d: int, months: int)
    requires
        date::is_civil(y, m, d),
        -262_143 <= y,
        0 <= months,
        y * 12 + m + months <= 262_142 * 12 + 12,
    ensures
        engine::months_later(date::civil_day(y, m, d), months) is Some,
{
    let day = date::civil_day(y, m, d);
    date::civil_of_is_the_date(day);
    let (z, n, e) = date::civil_of(day);
    date::civil_dates_are_unique(y, m, d, z, n, e);
}

/// A day is rolled where its jurisdiction has a calendar with a day that is
/// not free within a year, before the calendar of dates ends; and always
/// where nothing is rolled.
pub proof fn days_are_rolled_within_a_year(day: int, r: ObligationRecord, p: PolicyParams, k: int)
    requires
        p.business_day_roll == RollMode::Forward && r.jurisdiction is Some ==> {
            &&& p.calendars.lookup(r.jurisdiction->0@) is Some
            &&& day <= k <= day + 366
            &&& k <= date::MAX_DAY
            &&& !is_free(k, p.calendars.lookup(r.jurisdiction->0@)->0)
        },
    ensures
        engine::roll_of(day, r.jurisdiction, p) is Ok,
{
    if p.business_day_roll == RollMode::Forward && r.jurisdiction is Some {
        let cal = p.calendars.lookup(r.jurisdiction->0@)->0;
        laws::rolled_day_is_the_next_business_day(day, cal, 366);
        business_days_are_not_free(k, cal);
        assert(engine::is_business(k, cal));
    }
}

} // verus!
