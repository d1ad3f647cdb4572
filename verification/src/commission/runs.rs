//! Which runs succeed.

use vstd::prelude::*;

use crate::commission::accounts;
use crate::commission::bands;
use crate::commission::config;
use crate::commission::config::{PlanConfig, PlanVersion};
use crate::commission::engine;
use crate::commission::engine::{EntryView, RunView, WinnerView};
use crate::commission::evidence;
use crate::commission::input::{TxnKind, TxnView};
use crate::commission::laws;
use crate::commission::outcomes;
use crate::commission::shares;
use crate::commission::split;
use crate::order;
use crate::text;

verus! {

/// Whether every version that is in force on the day of a sale weighs every
/// role that is credited.
pub open spec fn is_weighed(versions: Seq<PlanVersion>, t: TxnView) -> bool {
    forall|v: int, k: int|
        0 <= v < versions.len() && 0 <= k < t.credits.len() && shares::covers(
            #[trigger] versions[v],
            t.day,
        ) ==> has_weight(versions[v], (#[trigger] t.credits[k]).role)
}

/// Whether a version weighs a role.
pub open spec fn has_weight(v: PlanVersion, role: Seq<char>) -> bool {
    exists|w: u32| #[trigger] shares::weighs(v, role, w)
}

proof fn weight_is_found(v: PlanVersion, role: Seq<char>)
    requires
        has_weight(v, role),
    ensures
        config::weight_of(v.role_weights@, role, 0) is Some,
{
    shares::weight_weighs(v, role, 0);
    let w = choose|w: u32| #[trigger] shares::weighs(v, role, w);
    let k = choose|k: int|
        0 <= k < v.role_weights.len() && (#[trigger] v.role_weights@[k]).role@ == role
            && v.role_weights@[k].weight_bps == w;
    assert(v.role_weights@[k].role@ == role);
}

proof fn weights_are_found(v: PlanVersion, ws: Seq<WinnerView>, n: int)
    requires
        0 <= n <= ws.len(),
        forall|k: int| 0 <= k < ws.len() ==> has_weight(v, (#[trigger] ws[k]).role),
    ensures
        engine::weights_for(v, ws, n) is Ok,
    decreases n,
{
    if n > 0 {
        weights_are_found(v, ws, n - 1);
        weight_is_found(v, ws[n - 1].role);
    }
}

/// The amount of a sale or of a return is split among the winners of a sale.
proof fn winners_split(p: PlanConfig, sale: TxnView, under: int, amount: int)
    requires
        config::plan_error(p) is None,
        is_weighed(p.versions@, sale),
        config::version_on(p.versions@, sale.day, 0) == Some(under),
        0 <= amount <= 1_000_000_000_000_000_000,
        sale.credits.len() <= usize::MAX,
        engine::winners_of(sale.credits).len() > 0,
    ensures
        0 <= under < p.versions.len(),
        ({
            let ws = engine::winners_of(sale.credits);
            let r = engine::split_for(p.versions@[under], ws, amount);
            &&& r is Ok
            &&& r->Ok_0.len() == ws.len()
            &&& split::total(r->Ok_0) == amount
            &&& forall|k: int| 0 <= k < r->Ok_0.len() ==> 0 <= #[trigger] r->Ok_0[k]
        }),
{
    let ws = engine::winners_of(sale.credits);
    shares::version_covers(p.versions@, sale.day, 0);
    let v = p.versions@[under];
    assert forall|k: int| 0 <= k < ws.len() implies has_weight(v, (#[trigger] ws[k]).role) by {
        shares::the_lowest_priority_wins_alone(sale.credits, ws[k].rep, ws[k].role);
        assert(ws.contains(ws[k]));
        let c = choose|c: int| #[trigger]
            shares::wins(sale.credits, c) && sale.credits[c].rep_id == ws[k].rep
                && sale.credits[c].role == ws[k].role;
        assert(has_weight(p.versions@[under], sale.credits[c].role));
    }
    let n = ws.len() as int;
    weights_are_found(v, ws, n);
    evidence::valid_plans_are_runnable(p);
    laws::weights_found(v, ws, n);
    shares::winners_are_few(sale.credits);
    let weights = engine::weights_for(v, ws, n)->Ok_0;
    accounts::amounts_are_split(amount, weights);
    split::shares_sum_exactly(amount, weights);
}

proof fn booking_is_sound(
    entries: Seq<EntryView>,
    kind: TxnKind,
    version: int,
    ws: Seq<WinnerView>,
    parts: Seq<int>,
    n: int,
    versions: nat,
)
    requires
        0 <= n <= parts.len(),
        engine::entries_sound(entries, versions),
        0 <= version < versions,
        forall|k: int| 0 <= k < parts.len() ==> 0 <= #[trigger] parts[k],
    ensures
        engine::entries_sound(
            engine::entries_after(entries, kind, version, ws, parts, n),
            versions,
        ),
    decreases n,
{
    if n > 0 {
        booking_is_sound(entries, kind, version, ws, parts, n - 1, versions);
        let before = engine::entries_after(entries, kind, version, ws, parts, n - 1);
        match kind {
            TxnKind::Sale => engine::credited_sound(
                before,
                ws[n - 1].rep,
                version,
                parts[n - 1],
                0,
                versions,
            ),
            TxnKind::Return => engine::credited_sound(
                before,
                ws[n - 1].rep,
                version,
                0,
                parts[n - 1],
                versions,
            ),
        }
    }
}

/// Whether the sums of a run stay within the amounts of so many transactions.
spec fn is_small(st: RunView, versions: nat, sales: int, returns: int) -> bool {
    &&& engine::entries_sound(st.entries, versions)
    &&& engine::gross_sum(st.entries) <= sales * 1_000_000_000_000_000_000
    &&& engine::returned_sum(st.entries) <= returns * 1_000_000_000_000_000_000
}

/// Whether transactions are ordinary under a plan: no amount is negative or
/// above ten to the eighteenth cents, and the roles of every sale are weighed.
pub open spec fn are_ordinary(versions: Seq<PlanVersion>, s: Seq<TxnView>) -> bool {
    forall|i: int|
        0 <= i < s.len() ==> {
            let t = #[trigger] s[i];
            &&& 0 <= t.amount_cents <= 1_000_000_000_000_000_000
            &&& t.credits.len() <= usize::MAX
            &&& t.kind == TxnKind::Sale ==> is_weighed(versions, t)
        }
}

proof fn sales_succeed(p: PlanConfig, x: Seq<TxnView>, n: int)
    requires
        config::plan_error(p) is None,
        are_ordinary(p.versions@, x),
        0 <= n <= x.len(),
    ensures
        engine::after_sales(p.versions@, x, n) is Ok,
        is_small(
            engine::after_sales(p.versions@, x, n)->Ok_0,
            p.versions@.len(),
            n,
            0,
        ),
    decreases n,
{
    let versions = p.versions@;
    if n > 0 {
        sales_succeed(p, x, n - 1);
        let st = engine::after_sales(versions, x, n - 1)->Ok_0;
        let t = x[n - 1];
        let ws = engine::winners_of(t.credits);
        if t.kind == TxnKind::Sale && config::version_on(versions, t.day, 0) is Some && ws.len()
            > 0 {
            let under = config::version_on(versions, t.day, 0)->0;
            winners_split(p, t, under, t.amount_cents);
            let parts = engine::split_for(versions[under], ws, t.amount_cents)->Ok_0;
            let m = ws.len() as int;
            booking_is_sound(st.entries, t.kind, under, ws, parts, m, versions.len());
            laws::booking_adds_up(st.entries, t.kind, under, ws, parts, m);
            assert(parts.take(m) =~= parts);
        }
    } else {
        let none = Seq::<EntryView>::empty();
        assert(engine::gross_sum(none) == 0);
        assert(engine::returned_sum(none) == 0);
    }
}

proof fn returns_succeed(p: PlanConfig, x: Seq<TxnView>, n: int)
    requires
        config::plan_error(p) is None,
        laws::ids_differ(x),
        are_ordinary(p.versions@, x),
        0 <= n <= x.len(),
    ensures
        engine::after_returns(p.versions@, x, n) is Ok,
        is_small(
            engine::after_returns(p.versions@, x, n)->Ok_0,
            p.versions@.len(),
            x.len() as int,
            n,
        ),
    decreases n,
{
    let versions = p.versions@;
    if n > 0 {
        returns_succeed(p, x, n - 1);
        let st = engine::after_returns(versions, x, n - 1)->Ok_0;
        let t = x[n - 1];
        if t.kind == TxnKind::Return && t.original is Some && !text::is_blank(t.original->0) {
            let id = t.original->0;
            let all = st.resolved;
            shares::returns_keep_resolved(versions, x, n - 1);
            shares::resolved_sales(versions, x, x.len() as int, id);
            match engine::resolved_at(all, id, all.len() as int) {
                Some(k) => {
                    let sale = all[k];
                    let i = choose|i: int|
                        0 <= i < x.len() && (#[trigger] x[i]).kind == TxnKind::Sale
                            && x[i].transaction_id == id && config::version_on(
                            versions,
                            x[i].day,
                            0,
                        ) == Some(all[k].version) && all[k].winners == engine::winners_of(
                            x[i].credits,
                        );
                    if sale.winners.len() > 0 {
                        winners_split(p, x[i], sale.version, t.amount_cents);
                        let parts = engine::split_for(
                            versions[sale.version],
                            sale.winners,
                            t.amount_cents,
                        )->Ok_0;
                        let m = sale.winners.len() as int;
                        booking_is_sound(
                            st.entries,
                            t.kind,
                            sale.version,
                            sale.winners,
                            parts,
                            m,
                            versions.len(),
                        );
                        laws::booking_adds_up(
                            st.entries,
                            t.kind,
                            sale.version,
                            sale.winners,
                            parts,
                            m,
                        );
                        assert(parts.take(m) =~= parts);
                    }
                },
                None => {},
            }
        }
    } else {
        sales_succeed(p, x, x.len() as int);
    }
}

proof fn part_of_sum<A>(s: Seq<A>, f: spec_fn(A) -> int, i: int)
    requires
        0 <= i < s.len(),
        forall|k: int| 0 <= k < s.len() ==> 0 <= f(#[trigger] s[k]),
    ensures
        f(s[i]) <= order::sum_of(s, f),
        0 <= order::sum_of(s, f),
    decreases s.len(),
{
    let t = s.drop_last();
    assert forall|k: int| 0 <= k < t.len() implies 0 <= f(#[trigger] t[k]) by {
        assert(t[k] == s[k]);
    }
    assert(0 <= f(s[s.len() - 1]));
    if i < t.len() {
        part_of_sum(t, f, i);
        assert(t[i] == s[i]);
    } else if t.len() > 0 {
        part_of_sum(t, f, 0);
    }
}

proof fn rollup_succeeds(versions: Seq<PlanVersion>, entries: Seq<EntryView>, n: int)
    requires
        0 <= n <= entries.len(),
        forall|i: int|
            0 <= i < entries.len() ==> engine::summary_of(
                versions[(#[trigger] entries[i]).version],
                entries[i],
            ) is Ok,
    ensures
        engine::rollup(versions, entries, n) is Ok,
    decreases n,
{
    if n > 0 {
        rollup_succeeds(versions, entries, n - 1);
        assert(entries[n - 1] == entries[n - 1]);
    }
}

/// A run over up to a billion ordinary transactions succeeds under a valid
/// plan whose quotas are at most ten to the eighteenth cents.
pub proof fn ordinary_runs_succeed(p: PlanConfig, s: Seq<TxnView>)
    requires
        config::plan_error(p) is None,
        laws::ids_differ(s),
        s.len() <= 1_000_000_000,
        are_ordinary(p.versions@, s),
        forall|i: int|
            0 <= i < p.versions.len() ==> (#[trigger] p.versions@[i]).quota_cents
                <= 1_000_000_000_000_000_000,
    ensures
        engine::outcome(p.versions@, s) is Ok,
{
    let versions = p.versions@;
    let x = engine::in_order(s);
    outcomes::in_order_facts(s);
    order::stable_sort_keeps(s, |a: TxnView, b: TxnView| engine::txn_lt(a, b));
    assert forall|i: int| 0 <= i < x.len() implies {
        let t = #[trigger] x[i];
        &&& 0 <= t.amount_cents <= 1_000_000_000_000_000_000
        &&& t.credits.len() <= usize::MAX
        &&& t.kind == TxnKind::Sale ==> is_weighed(versions, t)
    } by {
        assert(x.contains(x[i]));
        assert(s.contains(x[i]));
        let j = choose|j: int| 0 <= j < s.len() && s[j] == x[i];
        assert(s[j] == x[i]);
    }
    let n = x.len() as int;
    returns_succeed(p, x, n);
    let st = engine::after_returns(versions, x, n)->Ok_0;
    let lt = |a: EntryView, b: EntryView| engine::entry_lt(a, b);
    let entries = order::stable_sort(st.entries, lt);
    order::stable_sort_elements(st.entries, lt);
    evidence::valid_plans_are_runnable(p);
    assert forall|i: int| 0 <= i < entries.len() implies engine::summary_of(
        versions[(#[trigger] entries[i]).version],
        entries[i],
    ) is Ok by {
        assert(entries.contains(entries[i]));
        let j = choose|j: int| 0 <= j < st.entries.len() && st.entries[j] == entries[i];
        let e = st.entries[j];
        part_of_sum(st.entries, |e: EntryView| e.gross, j);
        part_of_sum(st.entries, |e: EntryView| e.returned, j);
        assert(bands::payable(versions[e.version]));
        accounts::entries_are_rolled_up(versions[e.version], e);
    }
    rollup_succeeds(versions, entries, entries.len() as int);
}

} // verus!
