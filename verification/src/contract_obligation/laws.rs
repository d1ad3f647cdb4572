//! What holds of every evaluation of a register.

use vstd::prelude::*;

use crate::contract_obligation::engine;
use crate::contract_obligation::engine::FaultView;
use crate::contract_obligation::model;
use crate::contract_obligation::model::{
    Calendar, ConfigRefusal, DateSpec, ObligationRecord, PolicyParams, RecordView, RollMode,
    SlaMeasurement, SlaTier,
};
use crate::contract_obligation::pack;
use crate::contract_obligation::rule_ids;
use crate::date;
use crate::spine;
use crate::spine::{FindingView, PackView, Severity, SignoffView};
use crate::table::Table;
use crate::text;

verus! {

// ---- rolling ----

/// A rolled day is the first business day on or after the computed one.
pub proof fn rolled_day_is_the_next_business_day(day: int, cal: Calendar, reach: int)
    requires
        0 <= reach,
    ensures
        (match engine::next_business(day, cal, reach) {
            Some(x) => {
                &&& day <= x <= day + reach
                &&& engine::is_business(x, cal)
                &&& forall|k: int| day <= k < x ==> !#[trigger] engine::is_business(k, cal)
            },
            None => forall|k: int|
                day <= k <= day + reach && k <= date::MAX_DAY ==> !#[trigger] engine::is_business(
                    k,
                    cal,
                ),
        }),
    decreases reach,
{
    if day <= date::MAX_DAY && !engine::is_business(day, cal) && reach > 0 {
        rolled_day_is_the_next_business_day(day + 1, cal, reach - 1);
    }
}

/// A date that the contract states is never rolled, whatever the policy.
pub proof fn stated_dates_are_never_rolled(
    s: Seq<ObligationRecord>,
    p: PolicyParams,
    i: int,
    chain: Seq<Seq<char>>,
)
    requires
        0 <= i < s.len(),
        model::is_path(s, chain),
        s[i].due matches Some(DateSpec::Explicit { .. }),
    ensures
        ({
            let day = s[i].due->0->date.day();
            engine::due_of(s, p, i, chain) == Ok::<engine::DueView, FaultView>(
                engine::DueView { base: Some(day), due: Some(day), rolled: false },
            )
        }),
{
}

/// Without forward rolling every computed day stands as computed.
pub proof fn raw_mode_moves_no_day(day: int, jurisdiction: Option<String>, p: PolicyParams)
    requires
        p.business_day_roll == RollMode::Raw,
    ensures
        engine::roll_of(day, jurisdiction, p) == Ok::<(int, bool), ConfigRefusal>((day, false)),
{
}

/// Rolling never makes a deadline earlier.
pub proof fn rolling_never_hastens(day: int, jurisdiction: Option<String>, p: PolicyParams)
    requires
        engine::roll_of(day, jurisdiction, p) is Ok,
    ensures
        engine::roll_of(day, jurisdiction, p)->Ok_0.0 >= day,
        engine::roll_of(day, jurisdiction, p)->Ok_0.1 <==> engine::roll_of(
            day,
            jurisdiction,
            p,
        )->Ok_0.0 > day,
{
    match jurisdiction {
        Some(j) if p.business_day_roll == RollMode::Forward => {
            rolled_day_is_the_next_business_day(day, p.calendars.lookup(j@)->0, 366);
        },
        _ => {},
    }
}

// ---- resolution ----

pub(crate) proof fn latest_facts(s: Seq<ObligationRecord>, n: int, id: Seq<char>)
    requires
        0 <= n <= s.len(),
    ensures
        (match model::latest_of(s, n, id) {
            Some(k) => 0 <= k < n && s[k].id@ == id && forall|j: int|
                k < j < n ==> (#[trigger] s[j]).id@ != id,
            None => forall|k: int| 0 <= k < n ==> (#[trigger] s[k]).id@ != id,
        }),
    decreases n,
{
    if n > 0 {
        latest_facts(s, n - 1, id);
    }
}

proof fn anchor_is_recorded(s: Seq<ObligationRecord>, from: int, i: int)
    requires
        0 <= from <= i < s.len(),
        model::anchors_error(s, from) is None,
        model::anchor_of(s[i]) is Some,
    ensures
        model::has_id(s, model::anchor_of(s[i])->0),
    decreases i - from,
{
    if from < i {
        anchor_is_recorded(s, from + 1, i);
    }
}

proof fn calendar_is_known(
    s: Seq<ObligationRecord>,
    calendars: Table<Calendar>,
    from: int,
    i: int,
)
    requires
        0 <= from <= i < s.len(),
        model::jurisdictions_error(s, calendars, from) is None,
        s[i].jurisdiction is Some,
    ensures
        calendars.lookup(s[i].jurisdiction->0@) is Some,
    decreases i - from,
{
    if from < i {
        calendar_is_known(s, calendars, from + 1, i);
    }
}

/// Whether a fault is one that validation cannot foresee: a calendar without
/// business days, or a date outside the calendar.
pub open spec fn is_unforeseen(e: FaultView) -> bool {
    e is OffCalendar || (e matches FaultView::Config(ConfigRefusal::NoBusinessDay { .. }))
}

proof fn due_resolves(s: Seq<ObligationRecord>, p: PolicyParams, i: int, chain: Seq<Seq<char>>)
    requires
        model::register_error(s, p) is None,
        0 <= i < s.len(),
        model::is_path(s, chain),
        !chain.contains(s[i].id@),
        model::cycle_from(s, s[i].id@, chain, 0) is None,
    ensures
        engine::due_of(s, p, i, chain) matches Err(e) ==> is_unforeseen(e),
    decreases s.len() - chain.len(),
{
    if model::anchor_of(s[i]) is Some {
        let a = model::anchor_of(s[i])->0;
        model::no_cycle_step(s, s[i].id@, chain, 0, i);
        model::path_grows(s, chain, i);
        anchor_is_recorded(s, 0, i);
        latest_facts(s, s.len() as int, a);
        let w = choose|w: int| 0 <= w < s.len() && (#[trigger] s[w]).id@ == a;
        let k = model::latest_of(s, s.len() as int, a)->0;
        due_resolves(s, p, k, chain.push(s[i].id@));
        if s[i].jurisdiction is Some {
            calendar_is_known(s, p.calendars, 0, i);
        }
    }
}

proof fn no_cycle_anywhere(s: Seq<ObligationRecord>, ids: Seq<Seq<char>>, from: int, k: int)
    requires
        0 <= from <= k < ids.len(),
        model::cycles_error(s, ids, from) is None,
    ensures
        model::cycle_from(s, ids[k], Seq::empty(), 0) is None,
    decreases k - from,
{
    if from < k {
        no_cycle_anywhere(s, ids, from + 1, k);
    }
}

/// In a register that validates every chain of anchors ends: no due date
/// fails to resolve for a missing anchor, a cycle, or an unknown calendar.
pub proof fn valid_registers_resolve(s: Seq<ObligationRecord>, p: PolicyParams, i: int)
    requires
        model::register_error(s, p) is None,
        0 <= i < s.len(),
    ensures
        engine::due_of(s, p, i, Seq::empty()) matches Err(e) ==> is_unforeseen(e),
{
    let ids = s.map_values(|r: ObligationRecord| r.id@);
    text::ascending_ascends(ids);
    assert(ids[i] == s[i].id@);
    assert(ids.contains(s[i].id@));
    assert(model::ids_of(s).contains(s[i].id@));
    let k = choose|k: int| 0 <= k < model::ids_of(s).len() && model::ids_of(s)[k] == s[i].id@;
    no_cycle_anywhere(s, model::ids_of(s), 0, k);
    due_resolves(s, p, i, Seq::empty());
}

// ---- the latest versions ----

/// The latest version of an obligation.
pub open spec fn latest_record(s: Seq<ObligationRecord>, id: Seq<char>) -> Option<RecordView> {
    match model::latest_of(s, s.len() as int, id) {
        Some(k) => Some(s[k]@),
        None => None,
    }
}

/// Whether two registers have the same obligations in the same latest
/// versions.
pub open spec fn same_latest(s: Seq<ObligationRecord>, t: Seq<ObligationRecord>) -> bool {
    forall|id: Seq<char>| #[trigger] latest_record(s, id) == latest_record(t, id)
}

proof fn same_ids(s: Seq<ObligationRecord>, t: Seq<ObligationRecord>, id: Seq<char>)
    requires
        same_latest(s, t),
    ensures
        model::has_id(s, id) <==> model::has_id(t, id),
{
    latest_facts(s, s.len() as int, id);
    latest_facts(t, t.len() as int, id);
    assert(latest_record(s, id) == latest_record(t, id));
    if model::has_id(s, id) {
        let k = choose|k: int| 0 <= k < s.len() && (#[trigger] s[k]).id@ == id;
        let j = model::latest_of(t, t.len() as int, id)->0;
        assert(t[j].id@ == id);
    }
    if model::has_id(t, id) {
        let k = choose|k: int| 0 <= k < t.len() && (#[trigger] t[k]).id@ == id;
        let j = model::latest_of(s, s.len() as int, id)->0;
        assert(s[j].id@ == id);
    }
}

proof fn same_paths(s: Seq<ObligationRecord>, t: Seq<ObligationRecord>, path: Seq<Seq<char>>)
    requires
        same_latest(s, t),
        model::is_path(s, path),
    ensures
        model::is_path(t, path),
{
    assert forall|i: int| 0 <= i < path.len() implies model::has_id(t, #[trigger] path[i]) by {
        same_ids(s, t, path[i]);
    }
}

pub(crate) proof fn same_anchors(a: ObligationRecord, b: ObligationRecord)
    requires
        a@ == b@,
    ensures
        model::anchor_of(a) == model::anchor_of(b),
        (a.due is Some) == (b.due is Some),
        a.due is Some ==> a.due->0@ == b.due->0@,
        (a.jurisdiction is Some) == (b.jurisdiction is Some),
        a.jurisdiction is Some ==> a.jurisdiction->0@ == b.jurisdiction->0@,
{
    match (a.due, b.due) {
        (Some(x), Some(y)) => {
            assert(a@.due == Some(x@) && b@.due == Some(y@));
        },
        _ => {},
    }
    match (a.jurisdiction, b.jurisdiction) {
        (Some(x), Some(y)) => {
            assert(a@.jurisdiction == Some(x@) && b@.jurisdiction == Some(y@));
        },
        _ => {},
    }
}

/// Records that say the same have the same faults.
proof fn same_faults(a: ObligationRecord, b: ObligationRecord)
    requires
        a@ == b@,
    ensures
        model::record_error(a) == model::record_error(b),
{
    same_anchors(a, b);
    assert(model::head_error(a) == model::head_error(b));
    assert(model::type_error(a) == model::type_error(b));
    assert(model::terms_error(a) == model::terms_error(b));
}

proof fn same_shifts(base: Option<int>, a: ObligationRecord, b: ObligationRecord, p: PolicyParams)
    requires
        a@ == b@,
    ensures
        engine::shifted_if_fixed(base, a, p) == engine::shifted_if_fixed(base, b, p),
{
    same_anchors(a, b);
    assert forall|day: int| #[trigger]
        engine::roll_of(day, a.jurisdiction, p) == engine::roll_of(day, b.jurisdiction, p) by {}
}

/// Records that say the same add the same to evaluations of registers with
/// the same latest versions.
proof fn same_entries(
    s: Seq<ObligationRecord>,
    t: Seq<ObligationRecord>,
    p: PolicyParams,
    clock: int,
    i: int,
    j: int,
)
    requires
        same_latest(s, t),
        0 <= i < s.len(),
        0 <= j < t.len(),
        s[i]@ == t[j]@,
    ensures
        engine::entry_of(s, p, clock, i) == engine::entry_of(t, p, clock, j),
        engine::correction_findings(s[i]) == engine::correction_findings(t[j]),
{
    same_dues(s, t, p, i, j, Seq::empty());
    same_anchors(s[i], t[j]);
    assert forall|day: int| #[trigger]
        engine::roll_of(day, s[i].jurisdiction, p) == engine::roll_of(
            day,
            t[j].jurisdiction,
            p,
        ) by {}
    assert(engine::sla_entry(s[i], p, clock) == engine::sla_entry(t[j], p, clock));
    assert(engine::renewal_entry(s[i], p, clock) == engine::renewal_entry(t[j], p, clock));
    assert forall|c: engine::DueView| #[trigger]
        engine::due_finding(s[i], c, clock, p) == engine::due_finding(t[j], c, clock, p) by {}
}

proof fn same_dues(
    s: Seq<ObligationRecord>,
    t: Seq<ObligationRecord>,
    p: PolicyParams,
    i: int,
    j: int,
    chain: Seq<Seq<char>>,
)
    requires
        same_latest(s, t),
        0 <= i < s.len(),
        0 <= j < t.len(),
        s[i]@ == t[j]@,
        model::is_path(s, chain),
    ensures
        engine::due_of(s, p, i, chain) == engine::due_of(t, p, j, chain),
    decreases s.len() - chain.len(),
{
    same_paths(s, t, chain);
    same_anchors(s[i], t[j]);
    if model::anchor_of(s[i]) is Some && !chain.contains(s[i].id@) {
        let a = model::anchor_of(s[i])->0;
        assert(latest_record(s, a) == latest_record(t, a));
        latest_facts(s, s.len() as int, a);
        latest_facts(t, t.len() as int, a);
        assert forall|base: Option<int>| #[trigger]
            engine::shifted_if_fixed(base, s[i], p) == engine::shifted_if_fixed(
                base,
                t[j],
                p,
            ) by {
            same_shifts(base, s[i], t[j], p);
        }
        if model::latest_of(s, s.len() as int, a) is Some {
            model::path_grows(s, chain, i);
            same_dues(
                s,
                t,
                p,
                model::latest_of(s, s.len() as int, a)->0,
                model::latest_of(t, t.len() as int, a)->0,
                chain.push(s[i].id@),
            );
        }
    }
}

proof fn same_evaluated(
    s: Seq<ObligationRecord>,
    t: Seq<ObligationRecord>,
    p: PolicyParams,
    clock: int,
    n: int,
)
    requires
        same_latest(s, t),
        model::ids_of(s) == model::ids_of(t),
        n <= model::ids_of(s).len(),
    ensures
        engine::evaluated(s, p, clock, n) == engine::evaluated(t, p, clock, n),
    decreases n,
{
    if n > 0 {
        same_evaluated(s, t, p, clock, n - 1);
        let id = model::ids_of(s)[n - 1];
        engine::listed_ids_exist(s, n - 1);
        same_ids(s, t, id);
        latest_facts(s, s.len() as int, id);
        latest_facts(t, t.len() as int, id);
        assert(latest_record(s, id) == latest_record(t, id));
        let w = choose|w: int| 0 <= w < s.len() && (#[trigger] s[w]).id@ == id;
        let i = model::latest_of(s, s.len() as int, id)->0;
        let j = model::latest_of(t, t.len() as int, id)->0;
        same_entries(s, t, p, clock, i, j);
    }
}

proof fn same_listed_ids(s: Seq<ObligationRecord>, t: Seq<ObligationRecord>)
    requires
        same_latest(s, t),
    ensures
        model::ids_of(s) == model::ids_of(t),
{
    let x = s.map_values(|r: ObligationRecord| r.id@);
    let y = t.map_values(|r: ObligationRecord| r.id@);
    text::ascending_ascends(x);
    text::ascending_ascends(y);
    assert forall|id: Seq<char>| #[trigger]
        model::ids_of(s).contains(id) <==> model::ids_of(t).contains(id) by {
        same_ids(s, t, id);
        id_listed(s, id);
        id_listed(t, id);
    }
    text::ascending_is_unique(model::ids_of(s), model::ids_of(t));
}

/// Only the latest versions count: two registers that validate and have the
/// same obligations in the same latest versions have the same evaluation, in
/// whatever order their records stand.
pub proof fn only_latest_versions_count(
    s: Seq<ObligationRecord>,
    t: Seq<ObligationRecord>,
    p: PolicyParams,
    clock: int,
)
    requires
        model::register_error(s, p) is None,
        model::register_error(t, p) is None,
        same_latest(s, t),
    ensures
        engine::evaluation(s, p, clock) == engine::evaluation(t, p, clock),
{
    same_listed_ids(s, t);
    same_evaluated(s, t, p, clock, model::ids_of(s).len() as int);
}

pub(crate) proof fn id_listed(s: Seq<ObligationRecord>, id: Seq<char>)
    ensures
        model::ids_of(s).contains(id) <==> model::has_id(s, id),
{
    let ids = s.map_values(|r: ObligationRecord| r.id@);
    text::ascending_ascends(ids);
    assert(ids.contains(id) <==> text::ascending(ids).contains(id));
    if model::has_id(s, id) {
        let k = choose|k: int| 0 <= k < s.len() && (#[trigger] s[k]).id@ == id;
        assert(ids[k] == id);
    }
    if ids.contains(id) {
        let k = choose|k: int| 0 <= k < ids.len() && ids[k] == id;
        assert(s[k].id@ == id);
    }
}

// ---- the order of records ----

/// The versions of an obligation among the first `n` records, as they come.
pub open spec fn versions_of(s: Seq<ObligationRecord>, n: int, id: Seq<char>) -> Seq<RecordView>
    decreases n,
{
    if n <= 0 {
        Seq::empty()
    } else if s[n - 1].id@ == id {
        versions_of(s, n - 1, id).push(s[n - 1]@)
    } else {
        versions_of(s, n - 1, id)
    }
}

/// Whether two registers hold the same records, those of each obligation in
/// the same order.
pub open spec fn same_versions(s: Seq<ObligationRecord>, t: Seq<ObligationRecord>) -> bool {
    forall|id: Seq<char>| #[trigger]
        versions_of(s, s.len() as int, id) == versions_of(t, t.len() as int, id)
}

proof fn versions_facts(s: Seq<ObligationRecord>, n: int, id: Seq<char>)
    requires
        0 <= n <= s.len(),
    ensures
        (match model::latest_of(s, n, id) {
            Some(k) => 0 <= k < n && versions_of(s, n, id).len() > 0 && versions_of(s, n, id).last()
                == s[k]@,
            None => versions_of(s, n, id).len() == 0,
        }),
        forall|v: u64|
            #![trigger model::is_recorded(s, n, id, v)]
            model::is_recorded(s, n, id, v) <==> is_version(versions_of(s, n, id), v),
    decreases n,
{
    if n > 0 {
        versions_facts(s, n - 1, id);
        let before = versions_of(s, n - 1, id);
        let now = versions_of(s, n, id);
        assert forall|v: u64|
            #![trigger model::is_recorded(s, n, id, v)]
            model::is_recorded(s, n, id, v) <==> is_version(now, v) by {
            assert(model::is_recorded(s, n - 1, id, v) <==> is_version(before, v));
            if model::is_recorded(s, n, id, v) {
                let k = choose|k: int|
                    0 <= k < n && (#[trigger] s[k]).id@ == id && s[k].version == v;
                if k == n - 1 {
                    assert(now[now.len() - 1].version == v);
                } else {
                    assert(model::is_recorded(s, n - 1, id, v));
                    let j = choose|j: int| 0 <= j < before.len() && (#[trigger] before[j]).version == v;
                    assert(now[j].version == v);
                }
            }
            if is_version(now, v) {
                let j = choose|j: int| 0 <= j < now.len() && (#[trigger] now[j]).version == v;
                if j < before.len() {
                    assert(before[j].version == v);
                    let k = choose|k: int|
                        0 <= k < n - 1 && (#[trigger] s[k]).id@ == id && s[k].version == v;
                    assert(s[k].version == v);
                } else {
                    assert(s[n - 1].id@ == id && s[n - 1].version == v);
                }
            }
        }
    }
}

/// Whether `v` is among the versions.
pub open spec fn is_version(versions: Seq<RecordView>, v: u64) -> bool {
    exists|j: int| 0 <= j < versions.len() && (#[trigger] versions[j]).version == v
}

proof fn versions_grow(s: Seq<ObligationRecord>, m: int, n: int, id: Seq<char>)
    requires
        0 <= m <= n <= s.len(),
    ensures
        versions_of(s, m, id).len() <= versions_of(s, n, id).len(),
        versions_of(s, m, id) == versions_of(s, n, id).take(versions_of(s, m, id).len() as int),
    decreases n - m,
{
    if m < n {
        versions_grow(s, m, n - 1, id);
        assert(versions_of(s, m, id) =~= versions_of(s, n, id).take(
            versions_of(s, m, id).len() as int,
        ));
    } else {
        assert(versions_of(s, m, id) =~= versions_of(s, n, id).take(
            versions_of(s, m, id).len() as int,
        ));
    }
}

/// The place of version `k` of an obligation.
proof fn place_of(s: Seq<ObligationRecord>, n: int, id: Seq<char>, k: int) -> (i: int)
    requires
        0 <= n <= s.len(),
        0 <= k < versions_of(s, n, id).len(),
    ensures
        0 <= i < n,
        s[i].id@ == id,
        s[i]@ == versions_of(s, n, id)[k],
        versions_of(s, i, id) == versions_of(s, n, id).take(k),
    decreases n,
{
    let now = versions_of(s, n, id);
    if s[n - 1].id@ == id && k == now.len() - 1 {
        assert(versions_of(s, n - 1, id) =~= now.take(k));
        n - 1
    } else {
        let i = place_of(s, n - 1, id, k);
        assert(versions_of(s, n - 1, id).take(k) =~= now.take(k));
        i
    }
}

/// Record `j` of one register stands in the other too, behind the same
/// versions of its obligation.
proof fn counterpart(s: Seq<ObligationRecord>, t: Seq<ObligationRecord>, j: int) -> (i: int)
    requires
        same_versions(s, t),
        0 <= j < t.len(),
    ensures
        0 <= i < s.len(),
        s[i]@ == t[j]@,
        versions_of(s, i, t[j].id@) == versions_of(t, j, t[j].id@),
{
    let id = t[j].id@;
    let all = versions_of(t, t.len() as int, id);
    let k = versions_of(t, j, id).len() as int;
    versions_grow(t, j, t.len() as int, id);
    versions_grow(t, j + 1, t.len() as int, id);
    assert(versions_of(t, j + 1, id)[k] == t[j]@);
    assert(all[k] == t[j]@);
    assert(versions_of(s, s.len() as int, id) == all);
    let i = place_of(s, s.len() as int, id, k);
    assert(versions_of(t, j, id) == all.take(k));
    i
}

proof fn records_stay_valid(s: Seq<ObligationRecord>, t: Seq<ObligationRecord>, j: int)
    requires
        same_versions(s, t),
        model::records_error(s, 0) is None,
        0 <= j <= t.len(),
    ensures
        model::records_error(t, j) is None,
    decreases t.len() - j,
{
    if j < t.len() {
        records_stay_valid(s, t, j + 1);
        let i = counterpart(s, t, j);
        let id = t[j].id@;
        engine::valid_records(s, 0, i);
        same_faults(s[i], t[j]);
        versions_facts(s, i, id);
        versions_facts(t, j, id);
        assert(model::is_recorded(s, i, id, t[j].version) <==> model::is_recorded(
            t,
            j,
            id,
            t[j].version,
        ));
    }
}

proof fn anchors_stay_valid(s: Seq<ObligationRecord>, t: Seq<ObligationRecord>, j: int)
    requires
        same_versions(s, t),
        same_latest(s, t),
        model::anchors_error(s, 0) is None,
        0 <= j <= t.len(),
    ensures
        model::anchors_error(t, j) is None,
    decreases t.len() - j,
{
    if j < t.len() {
        anchors_stay_valid(s, t, j + 1);
        if model::anchor_of(t[j]) is Some {
            let i = counterpart(s, t, j);
            same_anchors(s[i], t[j]);
            anchor_is_recorded(s, 0, i);
            same_ids(s, t, model::anchor_of(t[j])->0);
        }
    }
}

proof fn calendars_stay_known(
    s: Seq<ObligationRecord>,
    t: Seq<ObligationRecord>,
    calendars: Table<Calendar>,
    j: int,
)
    requires
        same_versions(s, t),
        model::jurisdictions_error(s, calendars, 0) is None,
        0 <= j <= t.len(),
    ensures
        model::jurisdictions_error(t, calendars, j) is None,
    decreases t.len() - j,
{
    if j < t.len() {
        calendars_stay_known(s, t, calendars, j + 1);
        if t[j].jurisdiction is Some {
            let i = counterpart(s, t, j);
            calendar_is_known(s, calendars, 0, i);
        }
    }
}

proof fn walks_stay(s: Seq<ObligationRecord>, t: Seq<ObligationRecord>, walk: Seq<Seq<char>>)
    requires
        same_versions(s, t),
        model::is_walk(t, walk),
    ensures
        model::is_walk(s, walk),
{
    assert forall|k: int| 1 <= k < walk.len() implies model::is_anchored(
        s,
        walk[k - 1],
        #[trigger] walk[k],
    ) by {
        assert(model::is_anchored(t, walk[k - 1], walk[k]));
        let j = choose|j: int|
            0 <= j < t.len() && (#[trigger] t[j]).id@ == walk[k - 1] && model::anchor_of(t[j])
                == Some(walk[k]);
        let i = counterpart(s, t, j);
        same_anchors(s[i], t[j]);
        assert(s[i].id@ == walk[k - 1]);
    }
}

proof fn cycles_stay_out(
    s: Seq<ObligationRecord>,
    t: Seq<ObligationRecord>,
    ids: Seq<Seq<char>>,
    k: int,
)
    requires
        same_versions(s, t),
        model::cycles_error(s, ids, 0) is None,
        0 <= k <= ids.len(),
    ensures
        model::cycles_error(t, ids, k) is None,
    decreases ids.len() - k,
{
    if k < ids.len() {
        cycles_stay_out(s, t, ids, k + 1);
        no_cycle_anywhere(s, ids, 0, k);
        model::cycles_are_found(s, ids[k]);
        model::cycles_are_found(t, ids[k]);
        if model::has_cycle(t, ids[k]) {
            let walk = choose|walk: Seq<Seq<char>>| #[trigger]
                model::is_walk(t, walk) && walk.len() > 0 && walk[0] == ids[k]
                    && !walk.no_duplicates();
            walks_stay(s, t, walk);
            assert(model::is_walk(s, walk));
        }
    }
}

proof fn same_versions_same_latest(s: Seq<ObligationRecord>, t: Seq<ObligationRecord>)
    requires
        same_versions(s, t),
    ensures
        same_latest(s, t),
        model::ids_of(s) == model::ids_of(t),
{
    assert forall|id: Seq<char>| #[trigger] latest_record(s, id) == latest_record(t, id) by {
        assert(versions_of(s, s.len() as int, id) == versions_of(t, t.len() as int, id));
        versions_facts(s, s.len() as int, id);
        versions_facts(t, t.len() as int, id);
    }
    same_listed_ids(s, t);
}

proof fn reordering_keeps_validity(
    s: Seq<ObligationRecord>,
    t: Seq<ObligationRecord>,
    p: PolicyParams,
)
    requires
        same_versions(s, t),
        model::register_error(s, p) is None,
    ensures
        model::register_error(t, p) is None,
{
    same_versions_same_latest(s, t);
    records_stay_valid(s, t, 0);
    anchors_stay_valid(s, t, 0);
    cycles_stay_out(s, t, model::ids_of(s), 0);
    calendars_stay_known(s, t, p.calendars, 0);
}

/// The order of a register's records does not matter, but for the order of
/// those of one obligation: two registers that differ in nothing else both
/// validate or neither does, and where they do they have the same evaluation.
pub proof fn record_order_does_not_matter(
    s: Seq<ObligationRecord>,
    t: Seq<ObligationRecord>,
    p: PolicyParams,
    clock: int,
)
    requires
        same_versions(s, t),
    ensures
        model::register_error(s, p) is None <==> model::register_error(t, p) is None,
        model::register_error(s, p) is None ==> engine::evaluation(s, p, clock)
            == engine::evaluation(t, p, clock),
{
    if model::register_error(s, p) is None {
        reordering_keeps_validity(s, t, p);
        same_versions_same_latest(s, t);
        only_latest_versions_count(s, t, p, clock);
    }
    if model::register_error(t, p) is None {
        reordering_keeps_validity(t, s, p);
    }
}

// ---- findings ----

/// Whether a finding is gated exactly when it is a breach, and is about `id`.
pub open spec fn is_fair(f: FindingView, id: Seq<char>) -> bool {
    (f.requires_signoff <==> f.severity == Severity::Breach) && f.subject == id
}

pub open spec fn all_fair(s: Seq<FindingView>, id: Seq<char>) -> bool {
    forall|k: int| 0 <= k < s.len() ==> is_fair(#[trigger] s[k], id)
}

proof fn periods_fair(
    periods: Seq<SlaMeasurement>,
    id: Seq<char>,
    tiers: Seq<SlaTier>,
    in_tier: bool,
    n: int,
)
    ensures
        all_fair(engine::period_findings(periods, id, tiers, in_tier, n), id),
    decreases n,
{
    if n > 0 {
        periods_fair(periods, id, tiers, in_tier, n - 1);
    }
}

pub(crate) proof fn entry_fair(s: Seq<ObligationRecord>, p: PolicyParams, clock: int, i: int)
    requires
        engine::entry_of(s, p, clock, i) is Ok,
    ensures
        all_fair(engine::entry_of(s, p, clock, i)->Ok_0.findings, s[i].id@),
        engine::entry_of(s, p, clock, i)->Ok_0.resolution.obligation_id == s[i].id@,
{
    let periods = engine::periods_of(s[i]);
    periods_fair(periods, s[i].id@, p.sla_credit_tiers@, true, periods.len() as int);
    periods_fair(periods, s[i].id@, p.sla_credit_tiers@, false, periods.len() as int);
}

/// Whether a finding is gated exactly when it is a breach and is about one of
/// the first `n` obligations.
pub open spec fn is_placed(f: FindingView, ids: Seq<Seq<char>>, n: int) -> bool {
    exists|k: int| 0 <= k < n && is_fair(f, #[trigger] ids[k])
}

pub(crate) proof fn evaluated_fair(s: Seq<ObligationRecord>, p: PolicyParams, clock: int, n: int)
    requires
        0 <= n <= model::ids_of(s).len(),
        engine::evaluated(s, p, clock, n) is Ok,
    ensures
        ({
            let e = engine::evaluated(s, p, clock, n)->Ok_0;
            &&& e.resolutions.len() == n
            &&& forall|k: int|
                0 <= k < n ==> (#[trigger] e.resolutions[k]).obligation_id == model::ids_of(s)[k]
            &&& forall|k: int|
                0 <= k < e.findings.len() ==> is_placed(
                    #[trigger] e.findings[k],
                    model::ids_of(s),
                    n,
                )
        }),
    decreases n,
{
    if n > 0 {
        evaluated_fair(s, p, clock, n - 1);
        let ids = model::ids_of(s);
        let id = ids[n - 1];
        engine::listed_ids_exist(s, n - 1);
        latest_facts(s, s.len() as int, id);
        let w = choose|w: int| 0 <= w < s.len() && (#[trigger] s[w]).id@ == id;
        let i = model::latest_of(s, s.len() as int, id)->0;
        let before = engine::evaluated(s, p, clock, n - 1)->Ok_0;
        let e = engine::evaluated(s, p, clock, n)->Ok_0;
        entry_fair(s, p, clock, i);
        let c = engine::correction_findings(s[i]);
        let more = engine::entry_of(s, p, clock, i)->Ok_0.findings;
        assert forall|k: int| 0 <= k < e.findings.len() implies is_placed(
            #[trigger] e.findings[k],
            ids,
            n,
        ) by {
            if k < before.findings.len() {
                assert(e.findings[k] == before.findings[k]);
                assert(is_placed(before.findings[k], ids, n - 1));
            } else if k < before.findings.len() + c.len() {
                assert(e.findings[k] == c[k - before.findings.len()]);
                assert(is_fair(e.findings[k], ids[n - 1]));
            } else {
                assert(e.findings[k] == more[k - before.findings.len() - c.len()]);
                assert(is_fair(e.findings[k], ids[n - 1]));
            }
        }
    }
}

pub(crate) proof fn versions_rise(s: Seq<ObligationRecord>, j: int, i: int)
    requires
        model::records_error(s, 0) is None,
        0 <= j < i < s.len(),
        s[j].id@ == s[i].id@,
    ensures
        s[j].version < s[i].version,
    decreases i,
{
    latest_facts(s, i, s[i].id@);
    engine::valid_records(s, 0, i);
    let k = model::latest_of(s, i, s[i].id@)->0;
    if j < k {
        versions_rise(s, j, k);
    }
}

/// Whether record `i` is the one with the highest version of obligation `id`.
pub open spec fn is_newest(s: Seq<ObligationRecord>, id: Seq<char>, i: int) -> bool {
    &&& 0 <= i < s.len()
    &&& s[i].id@ == id
    &&& forall|j: int|
        0 <= j < s.len() && j != i && (#[trigger] s[j]).id@ == id ==> s[j].version < s[i].version
}

/// Whether a resolution is that of the record with the highest version of its
/// obligation.
pub open spec fn is_newest_resolution(
    s: Seq<ObligationRecord>,
    p: PolicyParams,
    clock: int,
    resolution: engine::ResolutionView,
) -> bool {
    exists|i: int| #[trigger]
        is_newest(s, resolution.obligation_id, i) && (engine::entry_of(s, p, clock, i) matches Ok(
            entry,
        ) && entry.resolution == resolution)
}

proof fn resolutions_are_newest(s: Seq<ObligationRecord>, p: PolicyParams, clock: int, n: int)
    requires
        model::records_error(s, 0) is None,
        0 <= n <= model::ids_of(s).len(),
        engine::evaluated(s, p, clock, n) is Ok,
    ensures
        ({
            let e = engine::evaluated(s, p, clock, n)->Ok_0;
            forall|k: int|
                0 <= k < e.resolutions.len() ==> is_newest_resolution(
                    s,
                    p,
                    clock,
                    #[trigger] e.resolutions[k],
                )
        }),
    decreases n,
{
    if n > 0 {
        resolutions_are_newest(s, p, clock, n - 1);
        let id = model::ids_of(s)[n - 1];
        engine::listed_ids_exist(s, n - 1);
        latest_facts(s, s.len() as int, id);
        let w = choose|w: int| 0 <= w < s.len() && (#[trigger] s[w]).id@ == id;
        let i = model::latest_of(s, s.len() as int, id)->0;
        entry_fair(s, p, clock, i);
        assert(is_newest(s, id, i)) by {
            assert forall|j: int| 0 <= j < s.len() && j != i && (#[trigger] s[j]).id@
                == id implies s[j].version < s[i].version by {
                versions_rise(s, j, i);
            }
        }
        let before = engine::evaluated(s, p, clock, n - 1)->Ok_0;
        let e = engine::evaluated(s, p, clock, n)->Ok_0;
        assert forall|k: int| 0 <= k < e.resolutions.len() implies is_newest_resolution(
            s,
            p,
            clock,
            #[trigger] e.resolutions[k],
        ) by {
            if k < before.resolutions.len() {
                assert(e.resolutions[k] == before.resolutions[k]);
            }
        }
    }
}

/// An evaluation resolves every obligation of the register once, by the
/// record with its highest version, in strictly ascending order of their ids;
/// every finding is about an obligation of the register, and is gated exactly
/// when it is a breach.
pub proof fn evaluations_are_complete(s: Seq<ObligationRecord>, p: PolicyParams, clock: int)
    requires
        engine::evaluation(s, p, clock) is Ok,
    ensures
        ({
            let e = engine::evaluation(s, p, clock)->Ok_0;
            &&& forall|i: int, j: int|
                0 <= i < j < e.resolutions.len() ==> text::text_lt(
                    (#[trigger] e.resolutions[i]).obligation_id,
                    (#[trigger] e.resolutions[j]).obligation_id,
                )
            &&& forall|id: Seq<char>| #[trigger]
                model::has_id(s, id) <==> exists|k: int|
                    0 <= k < e.resolutions.len() && (#[trigger] e.resolutions[k]).obligation_id
                        == id
            &&& forall|k: int|
                0 <= k < e.resolutions.len() ==> is_newest_resolution(
                    s,
                    p,
                    clock,
                    #[trigger] e.resolutions[k],
                )
            &&& forall|k: int|
                0 <= k < e.findings.len() ==> model::has_id(
                    s,
                    (#[trigger] e.findings[k]).subject,
                ) && (e.findings[k].requires_signoff <==> e.findings[k].severity
                    == Severity::Breach)
        }),
{
    let ids = model::ids_of(s);
    let n = ids.len() as int;
    let e = engine::evaluation(s, p, clock)->Ok_0;
    evaluated_fair(s, p, clock, n);
    resolutions_are_newest(s, p, clock, n);
    text::ascending_ascends(s.map_values(|r: ObligationRecord| r.id@));
    assert forall|i: int, j: int| 0 <= i < j < e.resolutions.len() implies text::text_lt(
        (#[trigger] e.resolutions[i]).obligation_id,
        (#[trigger] e.resolutions[j]).obligation_id,
    ) by {
        assert(text::text_lt(ids[i], ids[j]));
    }
    assert forall|id: Seq<char>| #[trigger] model::has_id(s, id) <==> exists|k: int|
        0 <= k < e.resolutions.len() && (#[trigger] e.resolutions[k]).obligation_id == id by {
        id_listed(s, id);
        if model::has_id(s, id) {
            let k = choose|k: int| 0 <= k < ids.len() && ids[k] == id;
            assert(e.resolutions[k].obligation_id == id);
        }
        if exists|k: int|
            0 <= k < e.resolutions.len() && (#[trigger] e.resolutions[k]).obligation_id == id {
            let k = choose|k: int|
                0 <= k < e.resolutions.len() && (#[trigger] e.resolutions[k]).obligation_id == id;
            assert(ids[k] == id);
            assert(ids.contains(id));
        }
    }
    assert forall|k: int| 0 <= k < e.findings.len() implies model::has_id(
        s,
        (#[trigger] e.findings[k]).subject,
    ) && (e.findings[k].requires_signoff <==> e.findings[k].severity == Severity::Breach) by {
        assert(is_placed(e.findings[k], ids, n));
        let m = choose|m: int| 0 <= m < n && is_fair(e.findings[k], #[trigger] ids[m]);
        assert(ids.contains(ids[m]));
        id_listed(s, ids[m]);
    }
}

// ---- the order of findings ----

/// The place of a rule in the list of rules.
pub open spec fn rule_place(rule_id: Seq<char>) -> int {
    if rule_id == rule_ids::REGISTER_CORRECTION@ {
        0
    } else if rule_id == rule_ids::DUE_MET@ {
        1
    } else if rule_id == rule_ids::DUE_UPCOMING@ {
        2
    } else if rule_id == rule_ids::DUE_OVERDUE@ {
        3
    } else if rule_id == rule_ids::DEPENDENT_PENDING@ {
        4
    } else if rule_id == rule_ids::SLA_CREDIT_DUE@ {
        5
    } else if rule_id == rule_ids::SLA_BREACH@ {
        6
    } else if rule_id == rule_ids::SLA_STALE@ {
        7
    } else if rule_id == rule_ids::OPTOUT_OPEN@ {
        8
    } else if rule_id == rule_ids::OPTOUT_CLOSING@ {
        9
    } else if rule_id == rule_ids::OPTOUT_PASSED@ {
        10
    } else if rule_id == rule_ids::AUTO_RENEWED@ {
        11
    } else if rule_id == rule_ids::OPTOUT_EXERCISED@ {
        12
    } else {
        13
    }
}

proof fn service_level_places()
    ensures
        rule_place(rule_ids::SLA_CREDIT_DUE@) == 5,
        rule_place(rule_ids::SLA_BREACH@) == 6,
        rule_place(rule_ids::SLA_STALE@) == 7,
{
    reveal_strlit("REGISTER-CORRECTION");
    reveal_strlit("OBL-DUE-MET");
    reveal_strlit("OBL-DUE-UPCOMING");
    reveal_strlit("OBL-DUE-OVERDUE");
    reveal_strlit("OBL-DEPENDENT-PENDING");
    reveal_strlit("SLA-CREDIT-DUE");
    reveal_strlit("SLA-BREACH");
    reveal_strlit("SLA-STALE");
    let credit = rule_ids::SLA_CREDIT_DUE@;
    let breach = rule_ids::SLA_BREACH@;
    let stale = rule_ids::SLA_STALE@;
    assert(credit[0] == 'S' && breach[0] == 'S' && stale[0] == 'S');
    assert(rule_ids::REGISTER_CORRECTION@[0] == 'R');
    assert(rule_ids::DUE_MET@[0] == 'O');
    assert(rule_ids::DUE_UPCOMING@[0] == 'O');
    assert(rule_ids::DUE_OVERDUE@[0] == 'O');
    assert(rule_ids::DEPENDENT_PENDING@[0] == 'O');
    assert(credit[4] == 'C' && breach[4] == 'B' && stale[4] == 'S');
}

/// Whether findings follow the list of rules.
pub open spec fn by_rules(s: Seq<FindingView>) -> bool {
    forall|i: int, j: int|
        0 <= i < j < s.len() ==> rule_place((#[trigger] s[i]).rule_id) <= rule_place(
            (#[trigger] s[j]).rule_id,
        )
}

proof fn periods_ruled(
    periods: Seq<SlaMeasurement>,
    id: Seq<char>,
    tiers: Seq<SlaTier>,
    in_tier: bool,
    n: int,
)
    ensures
        ({
            let f = engine::period_findings(periods, id, tiers, in_tier, n);
            let rule = if in_tier {
                rule_ids::SLA_CREDIT_DUE@
            } else {
                rule_ids::SLA_BREACH@
            };
            forall|k: int| 0 <= k < f.len() ==> (#[trigger] f[k]).rule_id == rule
        }),
    decreases n,
{
    if n > 0 {
        periods_ruled(periods, id, tiers, in_tier, n - 1);
    }
}

proof fn entry_by_rules(s: Seq<ObligationRecord>, p: PolicyParams, clock: int, i: int)
    requires
        engine::entry_of(s, p, clock, i) is Ok,
    ensures
        by_rules(
            engine::correction_findings(s[i]) + engine::entry_of(s, p, clock, i)->Ok_0.findings,
        ),
{
    let periods = engine::periods_of(s[i]);
    periods_ruled(periods, s[i].id@, p.sla_credit_tiers@, true, periods.len() as int);
    periods_ruled(periods, s[i].id@, p.sla_credit_tiers@, false, periods.len() as int);
    service_level_places();
}

/// Whether one finding stands before another: by obligation id, and for one
/// obligation by the list of rules.
pub open spec fn comes_before(a: FindingView, b: FindingView) -> bool {
    text::text_lt(a.subject, b.subject) || (a.subject == b.subject && rule_place(a.rule_id)
        <= rule_place(b.rule_id))
}

proof fn evaluated_by_rules(s: Seq<ObligationRecord>, p: PolicyParams, clock: int, n: int)
    requires
        0 <= n <= model::ids_of(s).len(),
        engine::evaluated(s, p, clock, n) is Ok,
    ensures
        ({
            let f = engine::evaluated(s, p, clock, n)->Ok_0.findings;
            forall|i: int, j: int|
                0 <= i < j < f.len() ==> #[trigger] comes_before(f[i], f[j])
        }),
    decreases n,
{
    if n > 0 {
        let ids = model::ids_of(s);
        evaluated_by_rules(s, p, clock, n - 1);
        evaluated_fair(s, p, clock, n - 1);
        text::ascending_ascends(s.map_values(|r: ObligationRecord| r.id@));
        let id = ids[n - 1];
        engine::listed_ids_exist(s, n - 1);
        latest_facts(s, s.len() as int, id);
        let w = choose|w: int| 0 <= w < s.len() && (#[trigger] s[w]).id@ == id;
        let at = model::latest_of(s, s.len() as int, id)->0;
        entry_fair(s, p, clock, at);
        entry_by_rules(s, p, clock, at);
        let before = engine::evaluated(s, p, clock, n - 1)->Ok_0.findings;
        let f = engine::evaluated(s, p, clock, n)->Ok_0.findings;
        let more = engine::correction_findings(s[at]) + engine::entry_of(
            s,
            p,
            clock,
            at,
        )->Ok_0.findings;
        assert(f =~= before + more);
        assert forall|i: int, j: int| 0 <= i < j < f.len() implies #[trigger] comes_before(
            f[i],
            f[j],
        ) by {
            let m = before.len() as int;
            if j < m {
                assert(comes_before(before[i], before[j]));
            } else if i < m {
                assert(is_placed(before[i], ids, n - 1));
                let k = choose|k: int| 0 <= k < n - 1 && is_fair(before[i], #[trigger] ids[k]);
                assert(text::text_lt(ids[k], ids[n - 1]));
                assert(f[j] == more[j - m]);
                assert(more[j - m].subject == id);
            } else {
                assert(f[i] == more[i - m] && f[j] == more[j - m]);
                assert(more[i - m].subject == id && more[j - m].subject == id);
            }
        }
    }
}

/// The findings of an evaluation come by obligation id, and those of one
/// obligation in the order of the list of rules.
pub proof fn findings_come_by_id_and_rule(s: Seq<ObligationRecord>, p: PolicyParams, clock: int)
    requires
        engine::evaluation(s, p, clock) is Ok,
    ensures
        ({
            let f = engine::evaluation(s, p, clock)->Ok_0.findings;
            forall|i: int, j: int|
                0 <= i < j < f.len() ==> #[trigger] comes_before(f[i], f[j])
        }),
{
    evaluated_by_rules(s, p, clock, model::ids_of(s).len() as int);
}

// ---- breaches ----

/// An obligation is a breach exactly when its due date is past and it is not
/// satisfied by the clock.
pub proof fn overdue_means_past_and_unsatisfied(
    r: ObligationRecord,
    c: engine::DueView,
    clock: int,
    p: PolicyParams,
)
    ensures
        (exists|k: int|
            0 <= k < engine::due_finding(r, c, clock, p).len() && (#[trigger] engine::due_finding(
                r,
                c,
                clock,
                p,
            )[k]).severity == Severity::Breach) <==> (c.due is Some && c.due->0 < clock
            && !engine::is_satisfied(r, clock)),
{
    let f = engine::due_finding(r, c, clock, p);
    if c.due is Some && c.due->0 < clock && !engine::is_satisfied(r, clock) {
        assert(f[0].severity == Severity::Breach);
    }
}

/// A renewal is a breach exactly when the contract renews itself, no opt-out
/// is recorded, and the deadline or the renewal has passed.
pub proof fn missed_optout_matters_only_with_auto_renewal(
    r: ObligationRecord,
    deadline: int,
    clock: int,
    p: PolicyParams,
)
    requires
        r.renewal is Some,
    ensures
        (exists|k: int|
            0 <= k < engine::renewal_finding(r, deadline, clock, p).len() && (
            #[trigger] engine::renewal_finding(r, deadline, clock, p)[k]).severity
                == Severity::Breach) <==> (r.renewal->0.auto_renew && !r.renewal->0.opted_out && (
        clock > deadline || clock >= r.renewal->0.renewal_date.day())),
{
    let f = engine::renewal_finding(r, deadline, clock, p);
    let t = r.renewal->0;
    if t.auto_renew && !t.opted_out && (clock > deadline || clock >= t.renewal_date.day()) {
        assert(f[0].severity == Severity::Breach);
    }
}

// ---- tiers and credits ----

pub(crate) proof fn tier_found(uptime: u64, tiers: Seq<SlaTier>, i: int)
    requires
        0 <= i <= tiers.len(),
    ensures
        (match engine::tier_of(uptime, tiers, i) {
            Some(t) => exists|k: int|
                i <= k < tiers.len() && #[trigger] tiers[k] == t && t.min_uptime_bp <= uptime
                    && forall|j: int|
                    i <= j < k ==> (#[trigger] tiers[j]).min_uptime_bp > uptime,
            None => forall|j: int|
                i <= j < tiers.len() ==> (#[trigger] tiers[j]).min_uptime_bp > uptime,
        }),
    decreases tiers.len() - i,
{
    if i < tiers.len() {
        if tiers[i].min_uptime_bp <= uptime {
            assert(tiers[i] == engine::tier_of(uptime, tiers, i)->0);
        } else {
            tier_found(uptime, tiers, i + 1);
            if engine::tier_of(uptime, tiers, i + 1) is Some {
                let t = engine::tier_of(uptime, tiers, i + 1)->0;
                let k = choose|k: int|
                    i + 1 <= k < tiers.len() && #[trigger] tiers[k] == t && t.min_uptime_bp
                        <= uptime && forall|j: int|
                        i + 1 <= j < k ==> (#[trigger] tiers[j]).min_uptime_bp > uptime;
                assert(tiers[k] == t);
            }
        }
    }
}

/// Under a policy that validates, a measured uptime lands in the tier with
/// the highest threshold that it meets, and in none only where it meets none.
pub proof fn uptime_lands_in_the_highest_tier_met(p: PolicyParams, uptime: u64)
    requires
        model::params_error(p) is None,
    ensures
        (match engine::tier_of(uptime, p.sla_credit_tiers@, 0) {
            Some(t) => {
                &&& p.sla_credit_tiers@.contains(t)
                &&& t.min_uptime_bp <= uptime
                &&& forall|j: int|
                    0 <= j < p.sla_credit_tiers.len() && (
                    #[trigger] p.sla_credit_tiers@[j]).min_uptime_bp <= uptime
                        ==> p.sla_credit_tiers@[j].min_uptime_bp <= t.min_uptime_bp
            },
            None => forall|j: int|
                0 <= j < p.sla_credit_tiers.len() ==> (
                #[trigger] p.sla_credit_tiers@[j]).min_uptime_bp > uptime,
        }),
{
    let tiers = p.sla_credit_tiers@;
    tier_found(uptime, tiers, 0);
    assert(model::tiers_descend(tiers));
    if engine::tier_of(uptime, tiers, 0) is Some {
        let t = engine::tier_of(uptime, tiers, 0)->0;
        let k = choose|k: int|
            0 <= k < tiers.len() && #[trigger] tiers[k] == t && t.min_uptime_bp <= uptime
                && forall|j: int| 0 <= j < k ==> (#[trigger] tiers[j]).min_uptime_bp > uptime;
        assert(tiers[k] == t);
        assert forall|j: int|
            0 <= j < tiers.len() && (#[trigger] tiers[j]).min_uptime_bp
                <= uptime implies tiers[j].min_uptime_bp <= t.min_uptime_bp by {
            if j > k {
                assert(tiers[k].min_uptime_bp >= tiers[j].min_uptime_bp);
            }
        }
    }
}

/// Within the bounds of validation a credit is neither negative nor more
/// than the charges.
pub proof fn credits_stay_within_charges(charges: int, credit_bp: int)
    requires
        0 <= charges,
        0 <= credit_bp <= model::MAX_CREDIT_BP,
    ensures
        0 <= engine::credit_of(charges, credit_bp) <= charges,
{
    let product = charges * credit_bp;
    assert(0 <= product <= charges * 10_000) by (nonlinear_arith)
        requires
            product == charges * credit_bp,
            0 <= charges,
            0 <= credit_bp <= 10_000,
    ;
}

// ---- packs ----

/// A pack that is sealed with every gated finding approved, over a register
/// whose corrections have two signers each, verifies against the bytes that
/// it was made from.
pub proof fn signed_packs_verify(
    findings: Seq<FindingView>,
    signoffs: Seq<SignoffView>,
    s: Seq<ObligationRecord>,
    inputs: Seq<u8>,
    params: Seq<u8>,
    r: Result<(), pack::VerifyFailure>,
)
    requires
        ({
            let p = spine::sealed_view(
                spine::pack_of(
                    pack::ENGINE_ID@,
                    pack::TOOL_VERSION@,
                    inputs,
                    params,
                    findings,
                    signoffs,
                ),
            );
            &&& spine::all_resolved(p)
            &&& pack::register_verdict(p, s, inputs, params, r)
        }),
        pack::first_open(signoffs, pack::corrected_ids(s), 0) is None,
    ensures
        r is Ok,
{
    let made = spine::pack_of(
        pack::ENGINE_ID@,
        pack::TOOL_VERSION@,
        inputs,
        params,
        findings,
        signoffs,
    );
    let p = spine::sealed_view(made);
    assert(spine::body_text(p) == spine::body_text(made));
    assert(spine::is_evidence(p, inputs, params));
}

/// No pack over a corrected register verifies without two signers for every
/// corrected obligation.
pub proof fn corrections_need_two_signers(
    p: PackView,
    s: Seq<ObligationRecord>,
    inputs: Seq<u8>,
    params: Seq<u8>,
    k: int,
)
    requires
        0 <= k < s.len(),
        s[k].supersedes is Some,
        pack::register_verdict(p, s, inputs, params, Ok(())),
    ensures
        pack::is_countersigned(p.signoffs, s[k].id@),
{
    let n = s.len() as int;
    correction_listed(s, n, k);
    text::ascending_ascends(pack::corrected(s, n));
    assert(pack::corrected_ids(s).contains(s[k].id@));
    let j = choose|j: int|
        0 <= j < pack::corrected_ids(s).len() && pack::corrected_ids(s)[j] == s[k].id@;
    none_open(p.signoffs, pack::corrected_ids(s), 0, j);
}

pub(crate) proof fn correction_listed(s: Seq<ObligationRecord>, n: int, k: int)
    requires
        0 <= k < n <= s.len(),
        s[k].supersedes is Some,
    ensures
        pack::corrected(s, n).contains(s[k].id@),
    decreases n,
{
    let now = pack::corrected(s, n);
    if k == n - 1 {
        assert(now[now.len() - 1] == s[k].id@);
    } else {
        correction_listed(s, n - 1, k);
        let before = pack::corrected(s, n - 1);
        let j = choose|j: int| 0 <= j < before.len() && before[j] == s[k].id@;
        assert(now[j] == s[k].id@);
    }
}

pub(crate) proof fn none_open(signoffs: Seq<SignoffView>, ids: Seq<Seq<char>>, from: int, j: int)
    requires
        0 <= from <= j < ids.len(),
        pack::first_open(signoffs, ids, from) is None,
    ensures
        pack::is_countersigned(signoffs, ids[j]),
    decreases j - from,
{
    if from < j {
        none_open(signoffs, ids, from + 1, j);
    }
}

} // verus!
