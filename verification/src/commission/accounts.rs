//! What the lines of a run add up to for each rep.

use vstd::prelude::*;

use crate::commission::bands;
use crate::commission::config;
use crate::commission::config::{Band, PlanConfig, PlanVersion};
use crate::commission::engine;
use crate::commission::engine::{CreditLineView, EntryView, SummaryView, WinnerView};
use crate::commission::input::{TxnKind, TxnView};
use crate::commission::laws;
use crate::commission::outcomes;
use crate::commission::shares;
use crate::commission::split;
use crate::order;
use crate::spine::{FindingView, Severity};
use crate::text;

verus! {

/// Whether an id is that of a sale on a day on which a version is in force.
pub open spec fn is_sold_under(s: Seq<TxnView>, v: PlanVersion, id: Seq<char>) -> bool {
    exists|i: int|
        0 <= i < s.len() && (#[trigger] s[i]).transaction_id == id && s[i].kind == TxnKind::Sale
            && shares::covers(v, s[i].day)
}

/// What a line credits a rep with for sales under a version.
pub open spec fn credited_to(rep: Seq<char>, s: Seq<TxnView>, v: PlanVersion) -> spec_fn(
    CreditLineView,
) -> int {
    |l: CreditLineView|
        if l.rep_id == rep && l.links_original is None && is_sold_under(s, v, l.transaction_id) {
            l.credited_cents
        } else {
            0
        }
}

/// What a line takes back from a rep for returns of sales under a version.
pub open spec fn taken_from(rep: Seq<char>, s: Seq<TxnView>, v: PlanVersion) -> spec_fn(
    CreditLineView,
) -> int {
    |l: CreditLineView|
        if l.rep_id == rep && l.links_original is Some && is_sold_under(s, v, l.links_original->0) {
            -l.credited_cents
        } else {
            0
        }
}

spec fn gross_for(rep: Seq<char>, version: int) -> spec_fn(EntryView) -> int {
    |e: EntryView|
        if e.rep == rep && e.version == version {
            e.gross
        } else {
            0
        }
}

spec fn returned_for(rep: Seq<char>, version: int) -> spec_fn(EntryView) -> int {
    |e: EntryView|
        if e.rep == rep && e.version == version {
            e.returned
        } else {
            0
        }
}

proof fn credit_adds(
    entries: Seq<EntryView>,
    who: Seq<char>,
    under: int,
    gross: int,
    returned: int,
    rep: Seq<char>,
    version: int,
)
    ensures
        ({
            let after = engine::credited(entries, who, under, gross, returned);
            let hit = who == rep && under == version;
            &&& order::sum_of(after, gross_for(rep, version)) == order::sum_of(
                entries,
                gross_for(rep, version),
            ) + (if hit {
                gross
            } else {
                0
            })
            &&& order::sum_of(after, returned_for(rep, version)) == order::sum_of(
                entries,
                returned_for(rep, version),
            ) + (if hit {
                returned
            } else {
                0
            })
        }),
{
    laws::entry_found(entries, who, under, 0);
    let i = engine::entry_at(entries, who, under, 0);
    let after = engine::credited(entries, who, under, gross, returned);
    if i < entries.len() {
        order::sum_of_update(entries, gross_for(rep, version), i, after[i]);
        order::sum_of_update(entries, returned_for(rep, version), i, after[i]);
    } else {
        assert(after.drop_last() =~= entries);
    }
}

/// Booking a transaction adds to the entries of a rep under a version what it
/// adds to the lines.
proof fn booking_adds(
    entries: Seq<EntryView>,
    t: TxnView,
    under: int,
    ws: Seq<WinnerView>,
    parts: Seq<int>,
    n: int,
    rep: Seq<char>,
    s: Seq<TxnView>,
    versions: Seq<PlanVersion>,
    version: int,
)
    requires
        0 <= n,
        t.kind == TxnKind::Return ==> t.original is Some,
        is_sold_under(
            s,
            versions[version],
            if t.kind == TxnKind::Sale {
                t.transaction_id
            } else {
                t.original->0
            },
        ) <==> under == version,
    ensures
        ({
            let after = engine::entries_after(entries, t.kind, under, ws, parts, n);
            let lines = engine::lines_of(t, ws, parts, n);
            let v = versions[version];
            &&& order::sum_of(after, gross_for(rep, version)) == order::sum_of(
                entries,
                gross_for(rep, version),
            ) + order::sum_of(lines, credited_to(rep, s, v))
            &&& order::sum_of(after, returned_for(rep, version)) == order::sum_of(
                entries,
                returned_for(rep, version),
            ) + order::sum_of(lines, taken_from(rep, s, v))
        }),
    decreases n,
{
    if n > 0 {
        booking_adds(entries, t, under, ws, parts, n - 1, rep, s, versions, version);
        let before = engine::entries_after(entries, t.kind, under, ws, parts, n - 1);
        let lines = engine::lines_of(t, ws, parts, n);
        assert(lines.drop_last() =~= engine::lines_of(t, ws, parts, n - 1));
        assert(lines.last() == engine::line_of(t, ws[n - 1], parts[n - 1]));
        if t.kind == TxnKind::Sale {
            credit_adds(before, ws[n - 1].rep, under, parts[n - 1], 0, rep, version);
        } else {
            credit_adds(before, ws[n - 1].rep, under, 0, parts[n - 1], rep, version);
        }
    }
}

/// Whether the entries of a run hold what its lines add up to.
spec fn is_balanced(
    st: engine::RunView,
    rep: Seq<char>,
    s: Seq<TxnView>,
    versions: Seq<PlanVersion>,
    version: int,
) -> bool {
    let v = versions[version];
    &&& order::sum_of(st.entries, gross_for(rep, version)) == order::sum_of(
        st.lines,
        credited_to(rep, s, v),
    )
    &&& order::sum_of(st.entries, returned_for(rep, version)) == order::sum_of(
        st.lines,
        taken_from(rep, s, v),
    )
}

proof fn sold_under_one(p: PlanConfig, x: Seq<TxnView>, i: int, version: int)
    requires
        config::plan_error(p) is None,
        laws::ids_differ(x),
        0 <= i < x.len(),
        x[i].kind == TxnKind::Sale,
        0 <= version < p.versions.len(),
    ensures
        is_sold_under(x, p.versions@[version], x[i].transaction_id) <==> config::version_on(
            p.versions@,
            x[i].day,
            0,
        ) == Some(version),
{
    let v = p.versions@[version];
    shares::days_have_the_version_in_force(p, x[i].day, version);
    if is_sold_under(x, v, x[i].transaction_id) {
        let k = choose|k: int|
            0 <= k < x.len() && (#[trigger] x[k]).transaction_id == x[i].transaction_id && x[k].kind
                == TxnKind::Sale && shares::covers(v, x[k].day);
        if k < i {
            assert(x[k].transaction_id != x[i].transaction_id);
        } else if i < k {
            assert(x[i].transaction_id != x[k].transaction_id);
        }
    }
}

proof fn sales_balance(p: PlanConfig, x: Seq<TxnView>, n: int, rep: Seq<char>, version: int)
    requires
        config::plan_error(p) is None,
        laws::ids_differ(x),
        0 <= n <= x.len(),
        0 <= version < p.versions.len(),
        engine::after_sales(p.versions@, x, n) is Ok,
    ensures
        is_balanced(
            engine::after_sales(p.versions@, x, n)->Ok_0,
            rep,
            x,
            p.versions@,
            version,
        ),
    decreases n,
{
    let versions = p.versions@;
    let v = versions[version];
    if n > 0 {
        sales_balance(p, x, n - 1, rep, version);
        let st = engine::after_sales(versions, x, n - 1)->Ok_0;
        let t = x[n - 1];
        if t.kind == TxnKind::Sale && config::version_on(versions, t.day, 0) is Some {
            let under = config::version_on(versions, t.day, 0)->0;
            let ws = engine::winners_of(t.credits);
            sold_under_one(p, x, n - 1, version);
            if ws.len() > 0 {
                let parts = engine::split_for(versions[under], ws, t.amount_cents)->Ok_0;
                let m = ws.len() as int;
                booking_adds(st.entries, t, under, ws, parts, m, rep, x, versions, version);
                let lines = engine::lines_of(t, ws, parts, m);
                shares::sum_joins(st.lines, lines, credited_to(rep, x, v));
                shares::sum_joins(st.lines, lines, taken_from(rep, x, v));
            }
        }
    }
}

proof fn returns_balance(p: PlanConfig, x: Seq<TxnView>, n: int, rep: Seq<char>, version: int)
    requires
        config::plan_error(p) is None,
        laws::ids_differ(x),
        0 <= n <= x.len(),
        0 <= version < p.versions.len(),
        engine::after_returns(p.versions@, x, n) is Ok,
    ensures
        is_balanced(
            engine::after_returns(p.versions@, x, n)->Ok_0,
            rep,
            x,
            p.versions@,
            version,
        ),
    decreases n,
{
    let versions = p.versions@;
    let v = versions[version];
    if n > 0 {
        returns_balance(p, x, n - 1, rep, version);
        let st = engine::after_returns(versions, x, n - 1)->Ok_0;
        let t = x[n - 1];
        if t.kind == TxnKind::Return && t.original is Some && !text::is_blank(t.original->0) {
            let id = t.original->0;
            let all = st.resolved;
            shares::returns_keep_resolved(versions, x, n - 1);
            shares::resolved_sales(versions, x, x.len() as int, id);
            match engine::resolved_at(all, id, all.len() as int) {
                Some(k) => {
                    let sale = all[k];
                    let i = choose|i: int|
                        0 <= i < x.len() && (#[trigger] x[i]).kind == TxnKind::Sale
                            && x[i].transaction_id == id && config::version_on(
                            versions,
                            x[i].day,
                            0,
                        ) == Some(all[k].version) && all[k].winners == engine::winners_of(
                            x[i].credits,
                        );
                    sold_under_one(p, x, i, version);
                    if sale.winners.len() > 0 {
                        let m = sale.winners.len() as int;
                        let parts = engine::split_for(
                            versions[sale.version],
                            sale.winners,
                            t.amount_cents,
                        )->Ok_0;
                        booking_adds(
                            st.entries,
                            t,
                            sale.version,
                            sale.winners,
                            parts,
                            m,
                            rep,
                            x,
                            versions,
                            version,
                        );
                        let lines = engine::lines_of(t, sale.winners, parts, m);
                        shares::sum_joins(st.lines, lines, credited_to(rep, x, v));
                        shares::sum_joins(st.lines, lines, taken_from(rep, x, v));
                    }
                },
                None => {},
            }
        }
    } else {
        sales_balance(p, x, x.len() as int, rep, version);
    }
}

proof fn sums_agree<A, B>(s: Seq<A>, t: Seq<B>, f: spec_fn(A) -> int, g: spec_fn(B) -> int)
    requires
        s.len() == t.len(),
        forall|i: int| #![trigger s[i], t[i]] 0 <= i < s.len() ==> f(s[i]) == g(t[i]),
    ensures
        order::sum_of(s, f) == order::sum_of(t, g),
    decreases s.len(),
{
    if s.len() > 0 {
        let a = s.drop_last();
        let b = t.drop_last();
        assert forall|i: int| #![trigger a[i], b[i]] 0 <= i < a.len() implies f(a[i]) == g(
            b[i],
        ) by {
            assert(a[i] == s[i] && b[i] == t[i]);
        }
        sums_agree(a, b, f, g);
        assert(f(s[s.len() - 1]) == g(t[t.len() - 1]));
    }
}

/// What a roll-up of a rep under a version gives as credited.
pub open spec fn gross_told(rep: Seq<char>, number: u32) -> spec_fn(SummaryView) -> int {
    |r: SummaryView|
        if r.rep_id == rep && r.plan_version == number {
            r.gross_credited_cents
        } else {
            0
        }
}

/// What a roll-up of a rep under a version gives as returned.
pub open spec fn returned_told(rep: Seq<char>, number: u32) -> spec_fn(SummaryView) -> int {
    |r: SummaryView|
        if r.rep_id == rep && r.plan_version == number {
            r.returned_cents
        } else {
            0
        }
}

/// What is rolled up for a rep under a version is what the lines of the run
/// add up to: as credited the lines on sales of days on which the version is
/// in force, and as returned the lines on returns of such sales.
pub proof fn rollups_add_up_the_lines(p: PlanConfig, s: Seq<TxnView>, rep: Seq<char>, version: int)
    requires
        config::plan_error(p) is None,
        laws::ids_differ(s),
        0 <= version < p.versions.len(),
        engine::outcome(p.versions@, s) is Ok,
    ensures
        ({
            let out = engine::outcome(p.versions@, s)->Ok_0;
            let v = p.versions@[version];
            &&& order::sum_of(out.rep_summaries, gross_told(rep, v.version)) == order::sum_of(
                out.credit_lines,
                credited_to(rep, s, v),
            )
            &&& order::sum_of(out.rep_summaries, returned_told(rep, v.version)) == order::sum_of(
                out.credit_lines,
                taken_from(rep, s, v),
            )
        }),
{
    let versions = p.versions@;
    let v = versions[version];
    let out = engine::outcome(versions, s)->Ok_0;
    let x = engine::in_order(s);
    let n = x.len() as int;
    outcomes::in_order_facts(s);
    outcomes::summaries_are_of_entries(p, s);
    let st = engine::after_returns(versions, x, n)->Ok_0;
    let entries = outcomes::entries_of(versions, s);
    let r = engine::rollup(versions, entries, entries.len() as int)->Ok_0.summaries;
    let by_entry = |a: EntryView, b: EntryView| engine::entry_lt(a, b);
    let by_line = |a: CreditLineView, b: CreditLineView| engine::line_lt(a, b);
    returns_balance(p, x, n, rep, version);
    order::stable_sort_keeps(st.entries, by_entry);
    order::stable_sort_keeps(st.lines, by_line);
    assert(out.credit_lines == order::stable_sort(st.lines, by_line));
    assert forall|id: Seq<char>| #[trigger] is_sold_under(x, v, id) == is_sold_under(s, v, id) by {
        if is_sold_under(x, v, id) {
            let i = choose|i: int|
                0 <= i < x.len() && (#[trigger] x[i]).transaction_id == id && x[i].kind
                    == TxnKind::Sale && shares::covers(v, x[i].day);
            assert(x.contains(x[i]));
            assert(s.contains(x[i]));
            let j = choose|j: int| 0 <= j < s.len() && s[j] == x[i];
            assert(s[j].transaction_id == id);
        }
        if is_sold_under(s, v, id) {
            let i = choose|i: int|
                0 <= i < s.len() && (#[trigger] s[i]).transaction_id == id && s[i].kind
                    == TxnKind::Sale && shares::covers(v, s[i].day);
            let j = shares::placed_in_order(s, i);
            assert(x[j].transaction_id == id);
        }
    }
    assert(credited_to(rep, x, v) =~= credited_to(rep, s, v));
    assert(taken_from(rep, x, v) =~= taken_from(rep, s, v));
    order::sum_of_forgets_order(out.credit_lines, st.lines, credited_to(rep, s, v));
    order::sum_of_forgets_order(out.credit_lines, st.lines, taken_from(rep, s, v));
    order::sum_of_forgets_order(out.rep_summaries, r, gross_told(rep, v.version));
    order::sum_of_forgets_order(out.rep_summaries, r, returned_told(rep, v.version));
    order::sum_of_forgets_order(entries, st.entries, gross_for(rep, version));
    order::sum_of_forgets_order(entries, st.entries, returned_for(rep, version));
    assert forall|i: int| #![trigger r[i], entries[i]] 0 <= i < r.len() implies gross_told(
        rep,
        v.version,
    )(r[i]) == gross_for(rep, version)(entries[i]) && returned_told(rep, v.version)(r[i])
        == returned_for(rep, version)(entries[i]) by {
        assert(outcomes::is_rolled_up(versions[entries[i].version], r[i]));
        if versions[entries[i].version].version == v.version {
            outcomes::numbers_tell(p, entries[i].version, version);
        }
    }
    sums_agree(r, entries, gross_told(rep, v.version), gross_for(rep, version));
    sums_agree(r, entries, returned_told(rep, v.version), returned_for(rep, version));
}

// ---- grades ----

/// Whether a finding is graded by its rule: what stops or takes back a credit
/// is a breach and needs a signoff, a return of what was not credited is a
/// warning, and a capped attainment is for information.
pub open spec fn is_graded(f: FindingView) -> bool {
    let rule = f.rule_id;
    ||| {
        &&& rule == "TXN-UNASSIGNED"@ || rule == "CREDIT-COLLISION"@ || rule == "CLAWBACK"@ || rule
            == "RETURN-MALFORMED"@
        &&& f.severity == Severity::Breach
        &&& f.requires_signoff
    }
    ||| rule == "ORIGINAL-NOT-CREDITED"@ && f.severity == Severity::Warn && !f.requires_signoff
    ||| rule == "WINDFALL-CAP"@ && f.severity == Severity::Info && !f.requires_signoff
}

spec fn all_graded(s: Seq<FindingView>) -> bool {
    forall|k: int| 0 <= k < s.len() ==> is_graded(#[trigger] s[k]) && s[k].rule_id
        != "WINDFALL-CAP"@
}

proof fn rules_differ()
    ensures
        "WINDFALL-CAP"@ != "TXN-UNASSIGNED"@,
        "WINDFALL-CAP"@ != "CREDIT-COLLISION"@,
        "WINDFALL-CAP"@ != "CLAWBACK"@,
        "WINDFALL-CAP"@ != "RETURN-MALFORMED"@,
        "WINDFALL-CAP"@ != "ORIGINAL-NOT-CREDITED"@,
{
    reveal_strlit("WINDFALL-CAP");
    reveal_strlit("TXN-UNASSIGNED");
    reveal_strlit("CREDIT-COLLISION");
    reveal_strlit("CLAWBACK");
    reveal_strlit("RETURN-MALFORMED");
    reveal_strlit("ORIGINAL-NOT-CREDITED");
    assert("WINDFALL-CAP"@[0] == 'W');
    assert("TXN-UNASSIGNED"@[0] == 'T');
    assert("CREDIT-COLLISION"@[0] == 'C');
    assert("CLAWBACK"@[0] == 'C');
    assert("RETURN-MALFORMED"@[0] == 'R');
    assert("ORIGINAL-NOT-CREDITED"@[0] == 'O');
}

proof fn collisions_graded(t: TxnView, n: int)
    ensures
        all_graded(engine::collisions_of(t, n)),
    decreases n,
{
    rules_differ();
    if n > 0 {
        collisions_graded(t, n - 1);
    }
}

proof fn sales_graded(versions: Seq<PlanVersion>, x: Seq<TxnView>, n: int)
    requires
        engine::after_sales(versions, x, n) is Ok,
    ensures
        all_graded(engine::after_sales(versions, x, n)->Ok_0.findings),
    decreases n,
{
    rules_differ();
    if n > 0 {
        sales_graded(versions, x, n - 1);
        collisions_graded(x[n - 1], engine::roles_of(x[n - 1].credits).len() as int);
    }
}

proof fn returns_graded(versions: Seq<PlanVersion>, x: Seq<TxnView>, n: int)
    requires
        engine::after_returns(versions, x, n) is Ok,
    ensures
        all_graded(engine::after_returns(versions, x, n)->Ok_0.findings),
    decreases n,
{
    rules_differ();
    if n > 0 {
        returns_graded(versions, x, n - 1);
    } else {
        sales_graded(versions, x, x.len() as int);
    }
}

/// Whether a finding says of a roll-up that its attainment was capped.
pub open spec fn is_capped(f: FindingView, r: SummaryView) -> bool {
    &&& f.rule_id == "WINDFALL-CAP"@
    &&& f.subject == "rep:"@ + r.rep_id + ":v"@ + text::decimal(r.plan_version as nat)
    &&& f.severity == Severity::Info
    &&& !f.requires_signoff
}

/// Whether findings hold a notice that the attainment of a roll-up was
/// capped.
pub open spec fn has_notice(s: Seq<FindingView>, r: SummaryView) -> bool {
    exists|k: int| 0 <= k < s.len() && is_capped(#[trigger] s[k], r)
}

/// Whether a finding is a notice on a roll-up whose attainment was capped.
pub open spec fn is_notice(s: Seq<SummaryView>, f: FindingView) -> bool {
    exists|i: int|
        0 <= i < s.len() && is_capped(f, #[trigger] s[i]) && s[i].windfall_cap_applied
}

proof fn notice_kept(s: Seq<FindingView>, t: Seq<FindingView>, r: SummaryView)
    requires
        has_notice(s, r),
        forall|f: FindingView| #[trigger] s.contains(f) ==> t.contains(f),
    ensures
        has_notice(t, r),
{
    let k = choose|k: int| 0 <= k < s.len() && is_capped(#[trigger] s[k], r);
    assert(s.contains(s[k]));
    let m = choose|m: int| 0 <= m < t.len() && t[m] == s[k];
    assert(is_capped(t[m], r));
}

proof fn rollup_kept(s: Seq<SummaryView>, t: Seq<SummaryView>, f: FindingView)
    requires
        is_notice(s, f),
        forall|r: SummaryView| #[trigger] s.contains(r) ==> t.contains(r),
    ensures
        is_notice(t, f),
{
    let i = choose|i: int|
        0 <= i < s.len() && is_capped(f, #[trigger] s[i]) && s[i].windfall_cap_applied;
    assert(s.contains(s[i]));
    let m = choose|m: int| 0 <= m < t.len() && t[m] == s[i];
    assert(is_capped(f, t[m]));
}

proof fn pushed_holds<A>(s: Seq<A>, x: A)
    ensures
        forall|y: A| #[trigger] s.contains(y) ==> s.push(x).contains(y),
{
    assert forall|y: A| #[trigger] s.contains(y) implies s.push(x).contains(y) by {
        let k = choose|k: int| 0 <= k < s.len() && s[k] == y;
        assert(s.push(x)[k] == y);
    }
}

proof fn caps_told(versions: Seq<PlanVersion>, entries: Seq<EntryView>, n: int)
    requires
        engine::rollup(versions, entries, n) is Ok,
    ensures
        ({
            let r = engine::rollup(versions, entries, n)->Ok_0;
            &&& forall|x: SummaryView| #[trigger]
                r.summaries.contains(x) && x.windfall_cap_applied ==> has_notice(r.findings, x)
            &&& forall|f: FindingView| #[trigger]
                r.findings.contains(f) ==> is_notice(r.summaries, f)
        }),
    decreases n,
{
    if n > 0 {
        caps_told(versions, entries, n - 1);
        let b = engine::rollup(versions, entries, n - 1)->Ok_0;
        let r = engine::rollup(versions, entries, n)->Ok_0;
        let s = r.summaries.last();
        let told = engine::windfall_of(s);
        assert(r.summaries == b.summaries.push(s));
        pushed_holds(b.summaries, s);
        pushed_holds(b.findings, told);
        if s.windfall_cap_applied {
            assert(r.findings == b.findings.push(told));
            assert(is_capped(r.findings[b.findings.len() as int], s));
            assert(has_notice(r.findings, s));
            assert(is_capped(told, r.summaries[b.summaries.len() as int]));
            assert(is_notice(r.summaries, told));
        } else {
            assert(r.findings == b.findings);
        }
        assert forall|x: SummaryView| #[trigger]
            r.summaries.contains(x) && x.windfall_cap_applied implies has_notice(r.findings, x) by {
            if x != s {
                let i = choose|i: int| 0 <= i < r.summaries.len() && r.summaries[i] == x;
                assert(b.summaries[i] == x);
                assert(b.summaries.contains(x));
                notice_kept(b.findings, r.findings, x);
            }
        }
        assert forall|f: FindingView| #[trigger] r.findings.contains(f) implies is_notice(
            r.summaries,
            f,
        ) by {
            let k = choose|k: int| 0 <= k < r.findings.len() && r.findings[k] == f;
            if k < b.findings.len() {
                assert(b.findings[k] == f);
                assert(b.findings.contains(f));
                rollup_kept(b.summaries, r.summaries, f);
            } else {
                assert(f == told);
            }
        }
    }
}

/// Every finding of a run is graded by its rule. A roll-up whose attainment
/// was capped has a notice of it, and no other has.
pub proof fn findings_are_graded_and_caps_are_told(p: PlanConfig, s: Seq<TxnView>)
    requires
        config::plan_error(p) is None,
        engine::outcome(p.versions@, s) is Ok,
    ensures
        ({
            let out = engine::outcome(p.versions@, s)->Ok_0;
            &&& forall|f: FindingView| #[trigger] out.findings.contains(f) ==> is_graded(f)
            &&& forall|r: SummaryView| #[trigger]
                out.rep_summaries.contains(r) && r.windfall_cap_applied ==> has_notice(
                    out.findings,
                    r,
                )
            &&& forall|f: FindingView| #[trigger]
                out.findings.contains(f) && f.rule_id == "WINDFALL-CAP"@ ==> is_notice(
                    out.rep_summaries,
                    f,
                )
        }),
{
    let versions = p.versions@;
    let out = engine::outcome(versions, s)->Ok_0;
    let x = engine::in_order(s);
    let st = engine::after_returns(versions, x, x.len() as int)->Ok_0;
    let entries = outcomes::entries_of(versions, s);
    let r = engine::rollup(versions, entries, entries.len() as int)->Ok_0;
    let lt = |a: FindingView, b: FindingView| engine::finding_lt(a, b);
    let all = st.findings + r.findings;
    outcomes::summaries_are_of_entries(p, s);
    returns_graded(versions, x, x.len() as int);
    caps_told(versions, entries, entries.len() as int);
    order::stable_sort_elements(all, lt);
    assert(out.findings == order::stable_sort(all, lt));
    assert forall|f: FindingView| #[trigger] out.findings.contains(f) implies is_graded(f) && (
    f.rule_id == "WINDFALL-CAP"@ ==> is_notice(out.rep_summaries, f)) by {
        assert(all.contains(f));
        let m = choose|m: int| 0 <= m < all.len() && all[m] == f;
        if m < st.findings.len() {
            assert(all[m] == st.findings[m]);
        } else {
            assert(r.findings[m - st.findings.len()] == f);
            assert(r.findings.contains(f));
            rollup_kept(r.summaries, out.rep_summaries, f);
        }
    }
    assert forall|f: FindingView| #[trigger] r.findings.contains(f) implies out.findings.contains(
        f,
    ) by {
        let m = choose|m: int| 0 <= m < r.findings.len() && r.findings[m] == f;
        assert(all[st.findings.len() + m] == f);
        assert(all.contains(f));
    }
    assert forall|y: SummaryView| #[trigger]
        out.rep_summaries.contains(y) && y.windfall_cap_applied implies has_notice(
        out.findings,
        y,
    ) by {
        assert(r.summaries.contains(y));
        notice_kept(r.findings, out.findings, y);
    }
}

// ---- what can be computed ----

/// Amounts of up to ten to the twenty-eighth cents are split, whatever the
/// weights.
pub proof fn amounts_are_split(amount: int, weights: Seq<u32>)
    requires
        0 <= amount <= 10_000_000_000_000_000_000_000_000_000,
    ensures
        split::split(amount, weights) is Ok,
{
    assert forall|i: int| 0 <= i < weights.len() implies split::fits(
        amount * #[trigger] weights[i],
    ) by {
        let w = weights[i] as int;
        assert(0 <= amount * w <= 10_000_000_000_000_000_000_000_000_000 * 4_294_967_295) by (
            nonlinear_arith)
            requires
                0 <= amount <= 10_000_000_000_000_000_000_000_000_000,
                0 <= w <= 4_294_967_295,
        ;
    }
}

proof fn small_products(a: int, b: int)
    requires
        0 <= a <= 1_000_000_000_000_000_000_000_000_000_000,
        0 <= b <= 1_000_000,
    ensures
        split::fits(a * b),
        0 <= a * b,
{
    assert(0 <= a * b <= 1_000_000_000_000_000_000_000_000_000_000 * 1_000_000) by (nonlinear_arith)
        requires
            0 <= a <= 1_000_000_000_000_000_000_000_000_000_000,
            0 <= b <= 1_000_000,
    ;
}

proof fn quota_products(a: int, quota: int)
    requires
        0 <= a <= u64::MAX,
        0 < quota <= 1_000_000_000_000_000_000,
    ensures
        split::fits(a * quota),
        0 <= a * quota,
{
    assert(0 <= a * quota <= 18_446_744_073_709_551_615 * 1_000_000_000_000_000_000) by (
        nonlinear_arith)
        requires
            0 <= a <= 18_446_744_073_709_551_615,
            0 < quota <= 1_000_000_000_000_000_000,
    ;
}

proof fn slices_computed(v: PlanVersion, basis: int, n: int)
    requires
        0 <= n <= v.bands.len(),
        bands::payable(v),
        v.quota_cents <= 1_000_000_000_000_000_000,
        0 <= basis <= 1_000_000_000_000_000_000_000_000_000_000,
    ensures
        bands::marginal_parts(v, basis, n) is Ok,
        0 <= bands::marginal_parts(v, basis, n)->Ok_0.taken <= basis,
    decreases n,
{
    if n > 0 {
        slices_computed(v, basis, n - 1);
        let taken = bands::marginal_parts(v, basis, n - 1)->Ok_0.taken;
        let band = v.bands@[n - 1];
        if band.up_to_ppm is Some {
            quota_products(band.up_to_ppm->0 as int, v.quota_cents as int);
        }
        let bound = bands::reach_of(v, basis, n - 1)->Ok_0;
        if bound > taken {
            small_products(bound - taken, band.rate_bps as int);
        }
    }
}

proof fn landing_is_a_band(b: Seq<Band>, attainment: int, i: int)
    requires
        0 <= i <= b.len(),
        b.len() > 0,
    ensures
        0 <= bands::landing_band(b, attainment, i) < b.len(),
    decreases b.len() - i,
{
    if i < b.len() {
        landing_is_a_band(b, attainment, i + 1);
    }
}

/// Under a valid version whose quota is at most ten to the eighteenth cents,
/// the commission on up to ten to the thirtieth cents is computed.
pub proof fn commissions_are_computed(v: PlanVersion, revenue: int)
    requires
        bands::payable(v),
        v.quota_cents <= 1_000_000_000_000_000_000,
        revenue <= 1_000_000_000_000_000_000_000_000_000_000,
    ensures
        bands::parts_of(v, revenue) is Ok,
{
    if revenue > 0 {
        if v.windfall_cap_ppm is Some {
            quota_products(v.windfall_cap_ppm->0 as int, v.quota_cents as int);
        }
        let basis = bands::basis_of(v, revenue)->Ok_0;
        if basis > 0 {
            small_products(revenue, 1_000_000);
            slices_computed(v, basis, v.bands.len() as int);
            let reached = revenue * 1_000_000 / (v.quota_cents as int);
            let counted = match v.windfall_cap_ppm {
                Some(cap) => bands::smaller(reached, cap as int),
                None => reached,
            };
            landing_is_a_band(v.bands@, counted, 0);
            let at = bands::landing_band(v.bands@, counted, 0);
            small_products(basis, v.bands@[at].rate_bps as int);
        }
    }
}

/// Under such a version, what was credited and returned is rolled up.
pub proof fn entries_are_rolled_up(v: PlanVersion, e: EntryView)
    requires
        bands::payable(v),
        v.quota_cents <= 1_000_000_000_000_000_000,
        0 <= e.gross <= 1_000_000_000_000_000_000_000_000_000_000,
        0 <= e.returned <= 1_000_000_000_000_000_000_000_000_000_000,
    ensures
        engine::summary_of(v, e) is Ok,
{
    let net = e.gross - e.returned;
    assert(split::fits(net * 1_000_000));
    commissions_are_computed(v, e.gross);
    commissions_are_computed(
        v,
        if net > 0 {
            net
        } else {
            0
        },
    );
}

} // verus!
