//! Who shares in a sale, and who gives back on a return.

use vstd::prelude::*;

use crate::commission::config;
use crate::commission::config::{PlanConfig, PlanVersion};
use crate::commission::engine;
use crate::commission::engine::{CreditLineView, ResolvedView, RunView, WinnerView};
use crate::commission::input::{CreditView, TxnKind, TxnView};
use crate::commission::laws;
use crate::commission::outcomes;
use crate::commission::split;
use crate::order;
use crate::text;

verus! {

// ---- winners ----

/// Whether credit `k` wins its role: every other credit of the role has a
/// higher priority number.
pub open spec fn wins(cs: Seq<CreditView>, k: int) -> bool {
    &&& 0 <= k < cs.len()
    &&& forall|j: int|
        0 <= j < cs.len() && j != k && (#[trigger] cs[j]).role == cs[k].role ==> cs[j].priority
            > cs[k].priority
}

/// Whether a rep wins a role.
pub open spec fn is_winner(cs: Seq<CreditView>, rep: Seq<char>, role: Seq<char>) -> bool {
    exists|k: int| #[trigger] wins(cs, k) && cs[k].rep_id == rep && cs[k].role == role
}

/// Whether a role is tied: two credits of it have the same priority number,
/// and none of it a lower one.
pub open spec fn is_tie(cs: Seq<CreditView>, a: int, b: int) -> bool {
    &&& 0 <= a < cs.len()
    &&& 0 <= b < cs.len()
    &&& a != b
    &&& cs[a].role == cs[b].role
    &&& cs[a].priority == cs[b].priority
    &&& forall|j: int|
        0 <= j < cs.len() && (#[trigger] cs[j]).role == cs[a].role ==> cs[a].priority
            <= cs[j].priority
}

proof fn many_holders(cs: Seq<CreditView>, role: Seq<char>, priority: u32, n: int)
    requires
        0 <= n <= cs.len(),
    ensures
        engine::holders(cs, role, priority, n) >= 1 ==> exists|a: int|
            0 <= a < n && #[trigger] engine::stands_at(cs[a], role, priority),
        engine::holders(cs, role, priority, n) >= 2 ==> exists|a: int, b: int|
            0 <= a < b < n && #[trigger] engine::stands_at(cs[a], role, priority)
                && #[trigger] engine::stands_at(cs[b], role, priority),
    decreases n,
{
    if n > 0 {
        many_holders(cs, role, priority, n - 1);
        let before = engine::holders(cs, role, priority, n - 1);
        if engine::stands_at(cs[n - 1], role, priority) {
            if before >= 1 {
                let a = choose|a: int|
                    0 <= a < n - 1 && #[trigger] engine::stands_at(cs[a], role, priority);
                assert(engine::stands_at(cs[a], role, priority) && engine::stands_at(
                    cs[n - 1],
                    role,
                    priority,
                ));
            }
        } else if before >= 2 {
            let (a, b) = choose|a: int, b: int|
                0 <= a < b < n - 1 && #[trigger] engine::stands_at(cs[a], role, priority)
                    && #[trigger] engine::stands_at(cs[b], role, priority);
            assert(engine::stands_at(cs[a], role, priority) && engine::stands_at(
                cs[b],
                role,
                priority,
            ));
        } else if before >= 1 {
            let a = choose|a: int|
                0 <= a < n - 1 && #[trigger] engine::stands_at(cs[a], role, priority);
            assert(engine::stands_at(cs[a], role, priority));
        }
    }
}

/// What the best priority of a credited role means.
pub(crate) proof fn role_judged(cs: Seq<CreditView>, role: Seq<char>)
    requires
        engine::best_priority(cs, role, cs.len() as int) is Some,
    ensures
        engine::is_tied(cs, role) <==> exists|a: int, b: int| #[trigger]
            is_tie(cs, a, b) && cs[a].role == role,
        !engine::is_tied(cs, role) ==> is_winner(cs, engine::leader(cs, role), role),
        forall|k: int| #[trigger]
            wins(cs, k) && cs[k].role == role ==> !engine::is_tied(cs, role) && engine::leader(
                cs,
                role,
            ) == cs[k].rep_id,
{
    let n = cs.len() as int;
    let best = engine::best_priority(cs, role, n)->0;
    laws::best_is_least(cs, role, n);
    let w = choose|w: int| 0 <= w < n && #[trigger] engine::stands_at(cs[w], role, best);
    many_holders(cs, role, best, n);
    if engine::is_tied(cs, role) {
        let (a, b) = choose|a: int, b: int|
            0 <= a < b < n && #[trigger] engine::stands_at(cs[a], role, best)
                && #[trigger] engine::stands_at(cs[b], role, best);
        assert(is_tie(cs, a, b));
    }
    if exists|a: int, b: int| #[trigger] is_tie(cs, a, b) && cs[a].role == role {
        let (a, b) = choose|a: int, b: int| #[trigger] is_tie(cs, a, b) && cs[a].role == role;
        assert(cs[w].role == role);
        assert(cs[a].priority == best);
        assert(engine::stands_at(cs[a], role, best) && engine::stands_at(cs[b], role, best));
        if a < b {
            laws::two_holders(cs, role, best, a, b, n);
        } else {
            laws::two_holders(cs, role, best, b, a, n);
        }
    }
    laws::holder_stands(cs, role, best, 0, w);
    let h = choose|h: int|
        0 <= h <= w && #[trigger] engine::stands_at(cs[h], role, best) && cs[h].rep_id
            == engine::holder(cs, role, best, 0);
    if !engine::is_tied(cs, role) {
        assert(wins(cs, h)) by {
            assert forall|j: int|
                0 <= j < cs.len() && j != h && (#[trigger] cs[j]).role == cs[h].role implies cs[j].priority
                > cs[h].priority by {
                assert(best <= cs[j].priority);
                if cs[j].priority == best {
                    assert(engine::stands_at(cs[j], role, best));
                    if j < h {
                        laws::two_holders(cs, role, best, j, h, n);
                    } else {
                        laws::two_holders(cs, role, best, h, j, n);
                    }
                }
            }
        }
    }
    assert forall|k: int| #[trigger] wins(cs, k) && cs[k].role == role implies !engine::is_tied(
        cs,
        role,
    ) && engine::leader(cs, role) == cs[k].rep_id by {
        if k != h {
            assert(cs[h].priority > cs[k].priority);
            assert(best <= cs[k].priority);
        }
        if engine::is_tied(cs, role) {
            let (a, b) = choose|a: int, b: int| #[trigger] is_tie(cs, a, b) && cs[a].role == role;
            if a != k {
                assert(cs[a].priority > cs[k].priority);
            } else {
                assert(cs[b].priority > cs[k].priority);
            }
        }
    }
}

proof fn role_winners_hold(cs: Seq<CreditView>, n: int, rep: Seq<char>, role: Seq<char>)
    requires
        0 <= n <= engine::roles_of(cs).len(),
    ensures
        engine::role_winners(cs, n).contains(WinnerView { rep, role }) <==> exists|i: int|
            0 <= i < n && #[trigger] engine::roles_of(cs)[i] == role && !engine::is_tied(cs, role)
                && engine::leader(cs, role) == rep,
    decreases n,
{
    let now = engine::role_winners(cs, n);
    let w = WinnerView { rep, role };
    if n > 0 {
        role_winners_hold(cs, n - 1, rep, role);
        let before = engine::role_winners(cs, n - 1);
        let last = engine::roles_of(cs)[n - 1];
        if now.contains(w) {
            let k = choose|k: int| 0 <= k < now.len() && now[k] == w;
            if k < before.len() {
                assert(before[k] == w);
                let i = choose|i: int|
                    0 <= i < n - 1 && #[trigger] engine::roles_of(cs)[i] == role
                        && !engine::is_tied(cs, role) && engine::leader(cs, role) == rep;
                assert(engine::roles_of(cs)[i] == role);
            } else {
                assert(engine::roles_of(cs)[n - 1] == role);
            }
        }
        if exists|i: int|
            0 <= i < n && #[trigger] engine::roles_of(cs)[i] == role && !engine::is_tied(cs, role)
                && engine::leader(cs, role) == rep {
            let i = choose|i: int|
                0 <= i < n && #[trigger] engine::roles_of(cs)[i] == role && !engine::is_tied(
                    cs,
                    role,
                ) && engine::leader(cs, role) == rep;
            if i < n - 1 {
                let k = choose|k: int| 0 <= k < before.len() && before[k] == w;
                assert(now[k] == w);
            } else {
                assert(now[now.len() - 1] == w);
            }
        }
    }
}

pub(crate) proof fn role_listed(cs: Seq<CreditView>, role: Seq<char>)
    ensures
        engine::roles_of(cs).contains(role) <==> exists|k: int|
            0 <= k < cs.len() && (#[trigger] cs[k]).role == role,
{
    let all = cs.map_values(|c: CreditView| c.role);
    text::ascending_ascends(all);
    assert(all.contains(role) <==> text::ascending(all).contains(role));
    if all.contains(role) {
        let k = choose|k: int| 0 <= k < all.len() && all[k] == role;
        assert(cs[k].role == role);
    }
    if exists|k: int| 0 <= k < cs.len() && (#[trigger] cs[k]).role == role {
        let k = choose|k: int| 0 <= k < cs.len() && (#[trigger] cs[k]).role == role;
        assert(all[k] == role);
    }
}

/// The winners of a sale are the reps whose credit has the lowest priority
/// number of its role, alone.
pub proof fn the_lowest_priority_wins_alone(cs: Seq<CreditView>, rep: Seq<char>, role: Seq<char>)
    ensures
        engine::winners_of(cs).contains(WinnerView { rep, role }) <==> is_winner(cs, rep, role),
{
    let n = engine::roles_of(cs).len() as int;
    let w = WinnerView { rep, role };
    role_winners_hold(cs, n, rep, role);
    role_listed(cs, role);
    order::stable_sort_elements(
        engine::role_winners(cs, n),
        |a: WinnerView, b: WinnerView| engine::winner_lt(a, b),
    );
    if engine::winners_of(cs).contains(w) {
        let i = choose|i: int|
            0 <= i < n && #[trigger] engine::roles_of(cs)[i] == role && !engine::is_tied(cs, role)
                && engine::leader(cs, role) == rep;
        engine::roles_are_credited(cs, i);
        role_judged(cs, role);
    }
    if is_winner(cs, rep, role) {
        let k = choose|k: int| #[trigger]
            wins(cs, k) && cs[k].rep_id == rep && cs[k].role == role;
        assert(cs[k].role == role);
        let i = choose|i: int| 0 <= i < n && engine::roles_of(cs)[i] == role;
        engine::roles_are_credited(cs, i);
        role_judged(cs, role);
        assert(engine::roles_of(cs)[i] == role);
    }
}

// ---- versions and weights ----

/// Whether a version is in force on a day; both ends count.
pub open spec fn covers(v: PlanVersion, day: int) -> bool {
    v.effective_from.day() <= day && (v.effective_to is None || day <= v.effective_to->0.day())
}

/// Whether some version is in force on a day.
pub open spec fn is_covered(versions: Seq<PlanVersion>, day: int) -> bool {
    exists|i: int| 0 <= i < versions.len() && covers(#[trigger] versions[i], day)
}

pub(crate) proof fn version_covers(versions: Seq<PlanVersion>, day: int, from: int)
    requires
        0 <= from <= versions.len(),
    ensures
        (match config::version_on(versions, day, from) {
            Some(i) => from <= i < versions.len() && covers(versions[i], day) && forall|j: int|
                from <= j < i ==> !covers(#[trigger] versions[j], day),
            None => forall|j: int| from <= j < versions.len() ==> !covers(
                #[trigger] versions[j],
                day,
            ),
        }),
    decreases versions.len() - from,
{
    if from < versions.len() {
        version_covers(versions, day, from + 1);
    }
}

/// A day has a version exactly where one is in force on it; under a valid
/// plan, that one.
pub proof fn days_have_the_version_in_force(p: PlanConfig, day: int, i: int)
    requires
        config::plan_error(p) is None,
        0 <= i < p.versions.len(),
    ensures
        config::version_on(p.versions@, day, 0) == Some(i) <==> covers(p.versions@[i], day),
        config::version_on(p.versions@, day, 0) is Some <==> is_covered(p.versions@, day),
{
    version_covers(p.versions@, day, 0);
    match config::version_on(p.versions@, day, 0) {
        Some(k) => {
            assert(covers(p.versions@[k], day));
            if covers(p.versions@[i], day) && i != k {
                if i < k {
                    laws::one_version_in_force(p, i, k, day);
                } else {
                    laws::one_version_in_force(p, k, i, day);
                }
            }
        },
        None => {},
    }
}

/// Whether a version weighs a role so.
pub open spec fn weighs(v: PlanVersion, role: Seq<char>, weight: u32) -> bool {
    exists|k: int|
        0 <= k < v.role_weights.len() && (#[trigger] v.role_weights@[k]).role@ == role
            && v.role_weights@[k].weight_bps == weight
}

pub(crate) proof fn weight_weighs(v: PlanVersion, role: Seq<char>, from: int)
    requires
        0 <= from <= v.role_weights.len(),
    ensures
        (match config::weight_of(v.role_weights@, role, from) {
            Some(w) => weighs(v, role, w),
            None => forall|k: int|
                from <= k < v.role_weights.len() ==> (#[trigger] v.role_weights@[k]).role@ != role,
        }),
    decreases v.role_weights.len() - from,
{
    if from < v.role_weights.len() {
        weight_weighs(v, role, from + 1);
        if v.role_weights@[from].role@ == role {
            assert(weighs(v, role, v.role_weights@[from].weight_bps));
        }
    }
}

proof fn weights_weigh(v: PlanVersion, ws: Seq<WinnerView>, n: int)
    requires
        0 <= n <= ws.len(),
        engine::weights_for(v, ws, n) is Ok,
    ensures
        engine::weights_for(v, ws, n)->Ok_0.len() == n,
        forall|k: int|
            0 <= k < n ==> weighs(
                v,
                ws[k].role,
                #[trigger] engine::weights_for(v, ws, n)->Ok_0[k],
            ),
    decreases n,
{
    if n > 0 {
        weights_weigh(v, ws, n - 1);
        weight_weighs(v, ws[n - 1].role, 0);
    }
}

// ---- lines ----

/// The lines of a transaction that goes to the winners of a sale: none where
/// no version is in force on the day of the sale, or nobody wins.
spec fn own_lines(versions: Seq<PlanVersion>, t: TxnView, sale: TxnView) -> Seq<CreditLineView> {
    match config::version_on(versions, sale.day, 0) {
        None => Seq::empty(),
        Some(vi) => {
            let ws = engine::winners_of(sale.credits);
            if ws.len() == 0 {
                Seq::empty()
            } else {
                engine::lines_of(
                    t,
                    ws,
                    engine::split_for(versions[vi], ws, t.amount_cents)->Ok_0,
                    ws.len() as int,
                )
            }
        },
    }
}

proof fn line_facts(t: TxnView, ws: Seq<WinnerView>, shares: Seq<int>, n: int)
    requires
        0 <= n,
    ensures
        engine::lines_of(t, ws, shares, n).len() == n,
        forall|k: int|
            0 <= k < n ==> #[trigger] engine::lines_of(t, ws, shares, n)[k] == engine::line_of(
                t,
                ws[k],
                shares[k],
            ),
    decreases n,
{
    if n > 0 {
        line_facts(t, ws, shares, n - 1);
    }
}

proof fn own_ids(versions: Seq<PlanVersion>, t: TxnView, sale: TxnView)
    ensures
        forall|k: int|
            0 <= k < own_lines(versions, t, sale).len() ==> (#[trigger] own_lines(
                versions,
                t,
                sale,
            )[k]).transaction_id == t.transaction_id,
{
    match config::version_on(versions, sale.day, 0) {
        None => {},
        Some(vi) => {
            let ws = engine::winners_of(sale.credits);
            line_facts(
                t,
                ws,
                engine::split_for(versions[vi], ws, t.amount_cents)->Ok_0,
                ws.len() as int,
            );
        },
    }
}

/// What a transaction adds to the amounts of an id.
pub open spec fn amount_for(id: Seq<char>) -> spec_fn(CreditLineView) -> int {
    |l: CreditLineView|
        if l.transaction_id == id {
            l.credited_cents
        } else {
            0
        }
}

pub(crate) proof fn sum_joins<A>(a: Seq<A>, b: Seq<A>, f: spec_fn(A) -> int)
    ensures
        order::sum_of(a + b, f) == order::sum_of(a, f) + order::sum_of(b, f),
    decreases b.len(),
{
    if b.len() == 0 {
        assert(a + b =~= a);
    } else {
        sum_joins(a, b.drop_last(), f);
        assert((a + b).drop_last() =~= a + b.drop_last());
    }
}

proof fn sum_of_none<A>(s: Seq<A>, f: spec_fn(A) -> int)
    requires
        forall|k: int| 0 <= k < s.len() ==> f(#[trigger] s[k]) == 0,
    ensures
        order::sum_of(s, f) == 0,
    decreases s.len(),
{
    if s.len() > 0 {
        let t = s.drop_last();
        assert forall|k: int| 0 <= k < t.len() implies f(#[trigger] t[k]) == 0 by {
            assert(t[k] == s[k]);
        }
        sum_of_none(t, f);
        assert(f(s[s.len() - 1]) == 0);
    }
}

/// Lines that hold what belongs to one transaction, and nothing else of it.
spec fn holds_for(lines: Seq<CreditLineView>, id: Seq<char>, own: Seq<CreditLineView>) -> bool {
    &&& forall|l: CreditLineView|
        l.transaction_id == id ==> (#[trigger] lines.contains(l) <==> own.contains(l))
    &&& order::sum_of(lines, amount_for(id)) == order::sum_of(own, amount_for(id))
}

proof fn holds_joins(
    lines: Seq<CreditLineView>,
    more: Seq<CreditLineView>,
    id: Seq<char>,
    own: Seq<CreditLineView>,
    other: Seq<char>,
)
    requires
        holds_for(lines, id, own),
        forall|k: int| 0 <= k < more.len() ==> (#[trigger] more[k]).transaction_id == other,
        id != other,
    ensures
        holds_for(lines + more, id, own),
{
    let all = lines + more;
    sum_joins(lines, more, amount_for(id));
    sum_of_none(more, amount_for(id));
    assert forall|l: CreditLineView| l.transaction_id == id implies (#[trigger] all.contains(l)
        <==> own.contains(l)) by {
        assert(lines.contains(l) <==> own.contains(l));
        if all.contains(l) {
            let k = choose|k: int| 0 <= k < all.len() && all[k] == l;
            if k < lines.len() {
                assert(lines[k] == l);
            } else {
                assert(more[k - lines.len()] == l);
            }
        }
        if lines.contains(l) {
            let k = choose|k: int| 0 <= k < lines.len() && lines[k] == l;
            assert(all[k] == l);
        }
    }
}

proof fn holds_adds(
    lines: Seq<CreditLineView>,
    more: Seq<CreditLineView>,
    id: Seq<char>,
)
    requires
        holds_for(lines, id, Seq::empty()),
    ensures
        holds_for(lines + more, id, more),
{
    let all = lines + more;
    let none = Seq::<CreditLineView>::empty();
    sum_joins(lines, more, amount_for(id));
    assert(order::sum_of(none, amount_for(id)) == 0);
    assert forall|l: CreditLineView| l.transaction_id == id implies (#[trigger] all.contains(l)
        <==> more.contains(l)) by {
        assert(lines.contains(l) <==> none.contains(l));
        if all.contains(l) {
            let k = choose|k: int| 0 <= k < all.len() && all[k] == l;
            if k < lines.len() {
                assert(lines[k] == l);
                assert(lines.contains(l));
            } else {
                assert(more[k - lines.len()] == l);
            }
        }
        if more.contains(l) {
            let k = choose|k: int| 0 <= k < more.len() && more[k] == l;
            assert(all[lines.len() + k] == l);
        }
    }
}

/// What a sale adds to the lines of a run.
proof fn sale_adds(versions: Seq<PlanVersion>, st: RunView, t: TxnView)
    requires
        engine::sale_step(versions, st, t) is Ok,
        t.kind == TxnKind::Sale,
    ensures
        engine::sale_step(versions, st, t)->Ok_0.lines == st.lines + own_lines(versions, t, t),
{
    assert(st.lines + Seq::<CreditLineView>::empty() =~= st.lines);
}

proof fn sales_lines(versions: Seq<PlanVersion>, x: Seq<TxnView>, n: int, i: int)
    requires
        0 <= n <= x.len(),
        0 <= i < x.len(),
        laws::ids_differ(x),
        engine::after_sales(versions, x, n) is Ok,
    ensures
        holds_for(
            engine::after_sales(versions, x, n)->Ok_0.lines,
            x[i].transaction_id,
            if i < n && x[i].kind == TxnKind::Sale {
                own_lines(versions, x[i], x[i])
            } else {
                Seq::empty()
            },
        ),
    decreases n,
{
    if n > 0 {
        sales_lines(versions, x, n - 1, i);
        let st = engine::after_sales(versions, x, n - 1)->Ok_0;
        let t = x[n - 1];
        if t.kind == TxnKind::Sale {
            sale_adds(versions, st, t);
            own_ids(versions, t, t);
            let own = own_lines(versions, t, t);
            if i == n - 1 {
                holds_adds(st.lines, own, t.transaction_id);
            } else {
                if i < n - 1 {
                    assert(x[i].transaction_id != x[n - 1].transaction_id);
                } else {
                    assert(x[n - 1].transaction_id != x[i].transaction_id);
                }
                let mine = if i < n - 1 && x[i].kind == TxnKind::Sale {
                    own_lines(versions, x[i], x[i])
                } else {
                    Seq::empty()
                };
                holds_joins(st.lines, own, x[i].transaction_id, mine, t.transaction_id);
            }
        }
    }
}

/// Which sales a run has resolved.
pub(crate) proof fn resolved_sales(versions: Seq<PlanVersion>, x: Seq<TxnView>, n: int, id: Seq<char>)
    requires
        0 <= n <= x.len(),
        laws::ids_differ(x),
        engine::after_sales(versions, x, n) is Ok,
    ensures
        ({
            let all = engine::after_sales(versions, x, n)->Ok_0.resolved;
            match engine::resolved_at(all, id, all.len() as int) {
                Some(k) => 0 <= k < all.len() && exists|i: int|
                    0 <= i < n && (#[trigger] x[i]).kind == TxnKind::Sale && x[i].transaction_id
                        == id && config::version_on(versions, x[i].day, 0) == Some(all[k].version)
                        && all[k].winners == engine::winners_of(x[i].credits),
                None => forall|i: int|
                    0 <= i < n && (#[trigger] x[i]).kind == TxnKind::Sale && x[i].transaction_id
                        == id ==> config::version_on(versions, x[i].day, 0) is None,
            }
        }),
    decreases n,
{
    if n > 0 {
        resolved_sales(versions, x, n - 1, id);
        let before = engine::after_sales(versions, x, n - 1)->Ok_0.resolved;
        let all = engine::after_sales(versions, x, n)->Ok_0.resolved;
        let t = x[n - 1];
        if t.kind == TxnKind::Sale && config::version_on(versions, t.day, 0) is Some {
            assert(all.drop_last() =~= before);
            assert(all.last().id == t.transaction_id);
            if t.transaction_id == id {
                assert(x[n - 1].transaction_id == id);
            } else {
                resolved_prefix(before, all.last(), id, before.len() as int);
                assert(all =~= before.push(all.last()));
            }
        } else {
            assert(all == before);
        }
        match engine::resolved_at(before, id, before.len() as int) {
            Some(k) => {
                let i = choose|i: int|
                    0 <= i < n - 1 && (#[trigger] x[i]).kind == TxnKind::Sale
                        && x[i].transaction_id == id && config::version_on(versions, x[i].day, 0)
                        == Some(before[k].version) && before[k].winners == engine::winners_of(
                        x[i].credits,
                    );
                assert(x[i].kind == TxnKind::Sale);
                assert(x[i].transaction_id != x[n - 1].transaction_id);
            },
            None => {},
        }
    }
}

proof fn resolved_prefix(s: Seq<ResolvedView>, r: ResolvedView, id: Seq<char>, n: int)
    requires
        0 <= n <= s.len(),
    ensures
        engine::resolved_at(s.push(r), id, n) == engine::resolved_at(s, id, n),
        engine::resolved_at(s, id, n) matches Some(k) ==> 0 <= k < n,
    decreases n,
{
    if n > 0 {
        resolved_prefix(s, r, id, n - 1);
    }
}

pub(crate) proof fn returns_keep_resolved(versions: Seq<PlanVersion>, x: Seq<TxnView>, n: int)
    requires
        engine::after_returns(versions, x, n) is Ok,
    ensures
        engine::after_sales(versions, x, x.len() as int) is Ok,
        engine::after_returns(versions, x, n)->Ok_0.resolved == engine::after_sales(
            versions,
            x,
            x.len() as int,
        )->Ok_0.resolved,
    decreases n,
{
    if n > 0 {
        returns_keep_resolved(versions, x, n - 1);
    }
}

/// Whether transaction `j` is a return of sale `i`.
pub open spec fn returns_sale(s: Seq<TxnView>, j: int, i: int) -> bool {
    &&& 0 <= i < s.len()
    &&& 0 <= j < s.len()
    &&& s[i].kind == TxnKind::Sale
    &&& s[j].kind == TxnKind::Return
    &&& s[j].original == Some(s[i].transaction_id)
    &&& !text::is_blank(s[i].transaction_id)
}

/// What a return of a sale adds to the lines of a run.
proof fn return_adds(versions: Seq<PlanVersion>, x: Seq<TxnView>, n: int, i: int)
    requires
        0 < n <= x.len(),
        laws::ids_differ(x),
        returns_sale(x, n - 1, i),
        engine::after_returns(versions, x, n) is Ok,
    ensures
        engine::after_returns(versions, x, n)->Ok_0.lines == engine::after_returns(
            versions,
            x,
            n - 1,
        )->Ok_0.lines + own_lines(versions, x[n - 1], x[i]),
{
    let st = engine::after_returns(versions, x, n - 1)->Ok_0;
    let id = x[i].transaction_id;
    returns_keep_resolved(versions, x, n - 1);
    resolved_sales(versions, x, x.len() as int, id);
    let all = st.resolved;
    match engine::resolved_at(all, id, all.len() as int) {
        Some(k) => {
            let a = choose|a: int|
                0 <= a < x.len() && (#[trigger] x[a]).kind == TxnKind::Sale && x[a].transaction_id
                    == id && config::version_on(versions, x[a].day, 0) == Some(all[k].version)
                    && all[k].winners == engine::winners_of(x[a].credits);
            if a < i {
                assert(x[a].transaction_id != x[i].transaction_id);
            } else if i < a {
                assert(x[i].transaction_id != x[a].transaction_id);
            }
        },
        None => {
            assert(config::version_on(versions, x[i].day, 0) is None);
        },
    }
    assert(st.lines + Seq::<CreditLineView>::empty() =~= st.lines);
}

/// What any return adds is its own.
proof fn return_adds_own(versions: Seq<PlanVersion>, x: Seq<TxnView>, n: int) -> (more: Seq<
    CreditLineView,
>)
    requires
        0 < n <= x.len(),
        engine::after_returns(versions, x, n) is Ok,
    ensures
        engine::after_returns(versions, x, n)->Ok_0.lines == engine::after_returns(
            versions,
            x,
            n - 1,
        )->Ok_0.lines + more,
        forall|k: int|
            0 <= k < more.len() ==> (#[trigger] more[k]).transaction_id == x[n - 1].transaction_id,
{
    let st = engine::after_returns(versions, x, n - 1)->Ok_0;
    let t = x[n - 1];
    let none = Seq::<CreditLineView>::empty();
    assert(st.lines + none =~= st.lines);
    if t.kind == TxnKind::Return && t.original is Some && !text::is_blank(t.original->0) {
        let at = engine::resolved_at(st.resolved, t.original->0, st.resolved.len() as int);
        if at is Some && st.resolved[at->0].winners.len() > 0 {
            let sale = st.resolved[at->0];
            let shares = engine::split_for(
                versions[sale.version],
                sale.winners,
                t.amount_cents,
            )->Ok_0;
            line_facts(t, sale.winners, shares, sale.winners.len() as int);
            engine::lines_of(t, sale.winners, shares, sale.winners.len() as int)
        } else {
            none
        }
    } else {
        none
    }
}

proof fn returns_lines(versions: Seq<PlanVersion>, x: Seq<TxnView>, n: int, j: int, i: int)
    requires
        0 <= n <= x.len(),
        0 <= j < x.len(),
        laws::ids_differ(x),
        x[j].kind == TxnKind::Sale || returns_sale(x, j, i),
        engine::after_returns(versions, x, n) is Ok,
    ensures
        holds_for(
            engine::after_returns(versions, x, n)->Ok_0.lines,
            x[j].transaction_id,
            if x[j].kind == TxnKind::Sale {
                own_lines(versions, x[j], x[j])
            } else if j < n {
                own_lines(versions, x[j], x[i])
            } else {
                Seq::empty()
            },
        ),
    decreases n,
{
    if n > 0 {
        returns_lines(versions, x, n - 1, j, i);
        let st = engine::after_returns(versions, x, n - 1)->Ok_0;
        let mine = if x[j].kind == TxnKind::Sale {
            own_lines(versions, x[j], x[j])
        } else if j < n - 1 {
            own_lines(versions, x[j], x[i])
        } else {
            Seq::empty()
        };
        if j == n - 1 {
            if x[j].kind == TxnKind::Return {
                return_adds(versions, x, n, i);
                holds_adds(st.lines, own_lines(versions, x[j], x[i]), x[j].transaction_id);
            }
        } else {
            let more = return_adds_own(versions, x, n);
            if j < n - 1 {
                assert(x[j].transaction_id != x[n - 1].transaction_id);
            } else {
                assert(x[n - 1].transaction_id != x[j].transaction_id);
            }
            holds_joins(
                st.lines,
                more,
                x[j].transaction_id,
                mine,
                x[n - 1].transaction_id,
            );
        }
    } else {
        sales_lines(versions, x, x.len() as int, j);
    }
}

/// Whether a transaction has a line for a rep in a role.
pub open spec fn has_line(
    lines: Seq<CreditLineView>,
    id: Seq<char>,
    rep: Seq<char>,
    role: Seq<char>,
) -> bool {
    exists|k: int|
        0 <= k < lines.len() && (#[trigger] lines[k]).transaction_id == id && lines[k].rep_id == rep
            && lines[k].role == role
}

pub(crate) proof fn placed_in_order(s: Seq<TxnView>, i: int) -> (k: int)
    requires
        laws::ids_differ(s),
        0 <= i < s.len(),
    ensures
        0 <= k < engine::in_order(s).len(),
        engine::in_order(s)[k] == s[i],
{
    let x = engine::in_order(s);
    outcomes::in_order_facts(s);
    assert(s.contains(s[i]));
    assert(x.contains(s[i]));
    choose|k: int| 0 <= k < x.len() && x[k] == s[i]
}

/// The lines of a transaction in the outcome are its own.
proof fn outcome_lines(p: PlanConfig, s: Seq<TxnView>, j: int, i: int)
    requires
        laws::ids_differ(s),
        0 <= j < s.len(),
        (s[j].kind == TxnKind::Sale && i == j) || returns_sale(s, j, i),
        engine::outcome(p.versions@, s) is Ok,
    ensures
        holds_for(
            engine::outcome(p.versions@, s)->Ok_0.credit_lines,
            s[j].transaction_id,
            own_lines(p.versions@, s[j], s[i]),
        ),
        ({
            let t = s[i];
            let ws = engine::winners_of(t.credits);
            match config::version_on(p.versions@, t.day, 0) {
                Some(vi) => ws.len() > 0 ==> engine::split_for(
                    p.versions@[vi],
                    ws,
                    s[j].amount_cents,
                ) is Ok,
                None => true,
            }
        }),
{
    let versions = p.versions@;
    let x = engine::in_order(s);
    outcomes::in_order_facts(s);
    let a = placed_in_order(s, j);
    let b = placed_in_order(s, i);
    let n = x.len() as int;
    let st = engine::after_returns(versions, x, n)->Ok_0;
    let lt = |p: CreditLineView, q: CreditLineView| engine::line_lt(p, q);
    let out = engine::outcome(versions, s)->Ok_0.credit_lines;
    returns_lines(versions, x, n, a, b);
    order::stable_sort_keeps(st.lines, lt);
    order::stable_sort_elements(st.lines, lt);
    order::sum_of_forgets_order(out, st.lines, amount_for(s[j].transaction_id));
    let own = own_lines(versions, s[j], s[i]);
    assert forall|l: CreditLineView|
        l.transaction_id == s[j].transaction_id implies (#[trigger] out.contains(l)
        <==> own.contains(l)) by {
        assert(out.contains(l) <==> st.lines.contains(l));
        assert(st.lines.contains(l) <==> own.contains(l));
    }
    if s[j].kind == TxnKind::Sale {
        sale_step_ok(versions, x, n, a);
    } else {
        return_step_ok(versions, x, n, a, b);
    }
}

proof fn sale_step_ok(versions: Seq<PlanVersion>, x: Seq<TxnView>, n: int, a: int)
    requires
        0 <= a < x.len(),
        x[a].kind == TxnKind::Sale,
        engine::after_returns(versions, x, n) is Ok,
    ensures
        ({
            let ws = engine::winners_of(x[a].credits);
            match config::version_on(versions, x[a].day, 0) {
                Some(vi) => ws.len() > 0 ==> engine::split_for(
                    versions[vi],
                    ws,
                    x[a].amount_cents,
                ) is Ok,
                None => true,
            }
        }),
{
    returns_ok(versions, x, 0, n);
    sales_ok(versions, x, a + 1, x.len() as int);
}

proof fn returns_ok(versions: Seq<PlanVersion>, x: Seq<TxnView>, m: int, n: int)
    requires
        engine::after_returns(versions, x, n) is Ok,
    ensures
        m <= n ==> engine::after_returns(versions, x, m) is Ok,
        engine::after_sales(versions, x, x.len() as int) is Ok,
    decreases n,
{
    if n > 0 {
        returns_ok(versions, x, m, n - 1);
    }
}

proof fn sales_ok(versions: Seq<PlanVersion>, x: Seq<TxnView>, m: int, n: int)
    requires
        m <= n,
        engine::after_sales(versions, x, n) is Ok,
    ensures
        engine::after_sales(versions, x, m) is Ok,
    decreases n - m,
{
    if m < n && n > 0 {
        sales_ok(versions, x, m, n - 1);
    }
}

proof fn return_step_ok(versions: Seq<PlanVersion>, x: Seq<TxnView>, n: int, a: int, b: int)
    requires
        laws::ids_differ(x),
        0 <= a < n,
        n == x.len(),
        returns_sale(x, a, b),
        engine::after_returns(versions, x, n) is Ok,
    ensures
        ({
            let ws = engine::winners_of(x[b].credits);
            match config::version_on(versions, x[b].day, 0) {
                Some(vi) => ws.len() > 0 ==> engine::split_for(
                    versions[vi],
                    ws,
                    x[a].amount_cents,
                ) is Ok,
                None => true,
            }
        }),
{
    returns_ok(versions, x, a + 1, n);
    returns_ok(versions, x, a, n);
    let st = engine::after_returns(versions, x, a)->Ok_0;
    let id = x[b].transaction_id;
    returns_keep_resolved(versions, x, a);
    resolved_sales(versions, x, n, id);
    let all = st.resolved;
    match engine::resolved_at(all, id, all.len() as int) {
        Some(k) => {
            let c = choose|c: int|
                0 <= c < x.len() && (#[trigger] x[c]).kind == TxnKind::Sale && x[c].transaction_id
                    == id && config::version_on(versions, x[c].day, 0) == Some(all[k].version)
                    && all[k].winners == engine::winners_of(x[c].credits);
            if c < b {
                assert(x[c].transaction_id != x[b].transaction_id);
            } else if b < c {
                assert(x[b].transaction_id != x[c].transaction_id);
            }
        },
        None => {
            assert(config::version_on(versions, x[b].day, 0) is None);
        },
    }
}

/// Whether a line is the share of a rep in an amount: but for less than a
/// cent, the part that the weight of its role is of the weights of all who
/// share.
pub open spec fn is_share(
    v: PlanVersion,
    ws: Seq<WinnerView>,
    amount: int,
    role: Seq<char>,
    share: int,
) -> bool {
    exists|weights: Seq<u32>, k: int|
        #![trigger weights[k], ws[k]]
        {
            &&& weights.len() == ws.len()
            &&& forall|m: int| 0 <= m < ws.len() ==> weighs(v, ws[m].role, #[trigger] weights[m])
            &&& 0 <= k < ws.len()
            &&& ws[k].role == role
            &&& amount * weights[k] - outcomes::weight_of_all(weights) < share
                * outcomes::weight_of_all(weights) < amount * weights[k] + outcomes::weight_of_all(
                weights,
            )
        }
}

/// What the lines of a transaction that goes to the winners of a sale are.
proof fn own_lines_mean(p: PlanConfig, t: TxnView, sale: TxnView, rep: Seq<char>, role: Seq<char>)
    requires
        config::plan_error(p) is None,
        t.amount_cents >= 0,
        sale.credits.len() <= usize::MAX,
        ({
            let ws = engine::winners_of(sale.credits);
            match config::version_on(p.versions@, sale.day, 0) {
                Some(vi) => ws.len() > 0 ==> engine::split_for(
                    p.versions@[vi],
                    ws,
                    t.amount_cents,
                ) is Ok,
                None => true,
            }
        }),
    ensures
        ({
            let own = own_lines(p.versions@, t, sale);
            &&& has_line(own, t.transaction_id, rep, role) <==> is_covered(
                p.versions@,
                sale.day,
            ) && is_winner(sale.credits, rep, role)
            &&& own.len() > 0 <==> is_covered(p.versions@, sale.day)
                && engine::winners_of(sale.credits).len() > 0
            &&& own.len() > 0 ==> order::sum_of(own, amount_for(t.transaction_id)) == (if t.kind
                == TxnKind::Sale {
                t.amount_cents
            } else {
                -t.amount_cents
            })
            &&& forall|k: int|
                0 <= k < own.len() ==> (#[trigger] own[k]).links_original == (if t.kind
                    == TxnKind::Sale {
                    None
                } else {
                    t.original
                })
            &&& forall|k: int, i: int|
                0 <= k < own.len() && 0 <= i < p.versions.len() && covers(
                    #[trigger] p.versions@[i],
                    sale.day,
                ) ==> is_share(
                    p.versions@[i],
                    engine::winners_of(sale.credits),
                    t.amount_cents,
                    (#[trigger] own[k]).role,
                    if t.kind == TxnKind::Sale {
                        own[k].credited_cents
                    } else {
                        -own[k].credited_cents
                    },
                )
        }),
{
    let versions = p.versions@;
    let own = own_lines(versions, t, sale);
    let ws = engine::winners_of(sale.credits);
    let id = t.transaction_id;
    version_covers(versions, sale.day, 0);
    the_lowest_priority_wins_alone(sale.credits, rep, role);
    match config::version_on(versions, sale.day, 0) {
        Some(vi) => {
            assert(covers(versions[vi], sale.day));
            if ws.len() > 0 {
                let v = versions[vi];
                let n = ws.len() as int;
                let weights = engine::weights_for(v, ws, n)->Ok_0;
                let shares = engine::split_for(v, ws, t.amount_cents)->Ok_0;
                weights_weigh(v, ws, n);
                valid_weights(p, vi);
                laws::weights_found(v, ws, n);
                winners_are_few(sale.credits);
                line_facts(t, ws, shares, n);
                split::shares_sum_exactly(t.amount_cents, weights);
                assert(own == engine::lines_of(t, ws, shares, n));
                laws::credit_lines_add_up(v, t, ws);
                amounts_are_own(own, id);
                if has_line(own, id, rep, role) {
                    let k = choose|k: int|
                        0 <= k < own.len() && (#[trigger] own[k]).transaction_id == id
                            && own[k].rep_id == rep && own[k].role == role;
                    assert(ws[k] == WinnerView { rep, role });
                    assert(ws.contains(ws[k]));
                }
                if ws.contains(WinnerView { rep, role }) {
                    let k = choose|k: int| 0 <= k < ws.len() && ws[k] == WinnerView { rep, role };
                    assert(own[k].transaction_id == id);
                }
                assert forall|k: int, i: int|
                    0 <= k < own.len() && 0 <= i < p.versions.len() && covers(
                        #[trigger] p.versions@[i],
                        sale.day,
                    ) implies is_share(
                    p.versions@[i],
                    ws,
                    t.amount_cents,
                    (#[trigger] own[k]).role,
                    if t.kind == TxnKind::Sale {
                        own[k].credited_cents
                    } else {
                        -own[k].credited_cents
                    },
                ) by {
                    days_have_the_version_in_force(p, sale.day, i);
                    assert(i == vi);
                    outcomes::shares_follow_the_weights(t.amount_cents, weights, k);
                    assert(own[k] == engine::line_of(t, ws[k], shares[k]));
                    assert(weights[k] == weights[k] && ws[k].role == own[k].role);
                }
            } else {
                assert(!ws.contains(WinnerView { rep, role }));
            }
        },
        None => {},
    }
}

proof fn amounts_are_own(own: Seq<CreditLineView>, id: Seq<char>)
    requires
        forall|k: int| 0 <= k < own.len() ==> (#[trigger] own[k]).transaction_id == id,
    ensures
        order::sum_of(own, amount_for(id)) == order::sum_of(
            own,
            |l: CreditLineView| l.credited_cents,
        ),
    decreases own.len(),
{
    if own.len() > 0 {
        let t = own.drop_last();
        assert forall|k: int| 0 <= k < t.len() implies (#[trigger] t[k]).transaction_id == id by {
            assert(t[k] == own[k]);
        }
        amounts_are_own(t, id);
        assert(own[own.len() - 1].transaction_id == id);
    }
}

proof fn valid_weights(p: PlanConfig, i: int)
    requires
        config::plan_error(p) is None,
        0 <= i < p.versions.len(),
    ensures
        engine::weights_positive(p.versions@[i]),
{
    let v = p.versions@[i];
    laws::placed(p.versions@, 0, i);
    assert(config::version_error(v) is None);
    assert forall|k: int| 0 <= k < v.role_weights.len() implies (
    #[trigger] v.role_weights@[k]).weight_bps > 0 by {
        weight_passes(v, 0, k);
    }
}

proof fn weight_passes(v: PlanVersion, from: int, k: int)
    requires
        0 <= from <= k < v.role_weights.len(),
        config::weights_error(v, from) is None,
    ensures
        config::weight_error(v, k) is None,
    decreases k - from,
{
    if from < k {
        weight_passes(v, from + 1, k);
    }
}

pub(crate) proof fn winners_are_few(cs: Seq<CreditView>)
    requires
        cs.len() <= usize::MAX,
    ensures
        engine::winners_of(cs).len() <= usize::MAX,
{
    let n = engine::roles_of(cs).len() as int;
    role_winners_few(cs, n);
    order::stable_sort_keeps(
        engine::role_winners(cs, n),
        |a: WinnerView, b: WinnerView| engine::winner_lt(a, b),
    );
    let all = cs.map_values(|c: CreditView| c.role);
    text::ascending_is_short(all);
}

proof fn role_winners_few(cs: Seq<CreditView>, n: int)
    requires
        0 <= n,
    ensures
        engine::role_winners(cs, n).len() <= n,
    decreases n,
{
    if n > 0 {
        role_winners_few(cs, n - 1);
    }
}

/// A sale is credited to a rep in a role exactly where a version is in force
/// on its day and the rep wins the role. What is credited adds up to the
/// amount of the sale, and each line is the share that the weight of its role
/// gives under that version.
pub proof fn sales_are_credited_to_their_winners(
    p: PlanConfig,
    s: Seq<TxnView>,
    i: int,
    rep: Seq<char>,
    role: Seq<char>,
)
    requires
        config::plan_error(p) is None,
        laws::ids_differ(s),
        0 <= i < s.len(),
        s[i].kind == TxnKind::Sale,
        s[i].amount_cents >= 0,
        s[i].credits.len() <= usize::MAX,
        engine::outcome(p.versions@, s) is Ok,
    ensures
        ({
            let lines = engine::outcome(p.versions@, s)->Ok_0.credit_lines;
            let t = s[i];
            &&& has_line(lines, t.transaction_id, rep, role) <==> is_covered(p.versions@, t.day)
                && is_winner(t.credits, rep, role)
            &&& has_line(lines, t.transaction_id, rep, role) ==> order::sum_of(
                lines,
                amount_for(t.transaction_id),
            ) == t.amount_cents
            &&& forall|k: int, j: int|
                0 <= k < lines.len() && (#[trigger] lines[k]).transaction_id == t.transaction_id
                    && 0 <= j < p.versions.len() && covers(#[trigger] p.versions@[j], t.day)
                    ==> lines[k].links_original is None && is_share(
                    p.versions@[j],
                    engine::winners_of(t.credits),
                    t.amount_cents,
                    lines[k].role,
                    lines[k].credited_cents,
                )
        }),
{
    let t = s[i];
    let lines = engine::outcome(p.versions@, s)->Ok_0.credit_lines;
    let own = own_lines(p.versions@, t, t);
    outcome_lines(p, s, i, i);
    own_lines_mean(p, t, t, rep, role);
    lines_agree(lines, own, t.transaction_id, rep, role);
    own_ids(p.versions@, t, t);
    assert forall|k: int, j: int|
        0 <= k < lines.len() && (#[trigger] lines[k]).transaction_id == t.transaction_id && 0 <= j
            < p.versions.len() && covers(
            #[trigger] p.versions@[j],
            t.day,
        ) implies lines[k].links_original is None && is_share(
        p.versions@[j],
        engine::winners_of(t.credits),
        t.amount_cents,
        lines[k].role,
        lines[k].credited_cents,
    ) by {
        assert(lines.contains(lines[k]));
        let m = choose|m: int| 0 <= m < own.len() && own[m] == lines[k];
        assert(own[m].links_original is None);
    }
}

proof fn lines_agree(
    lines: Seq<CreditLineView>,
    own: Seq<CreditLineView>,
    id: Seq<char>,
    rep: Seq<char>,
    role: Seq<char>,
)
    requires
        holds_for(lines, id, own),
    ensures
        has_line(lines, id, rep, role) <==> has_line(own, id, rep, role),
{
    if has_line(lines, id, rep, role) {
        let k = choose|k: int|
            0 <= k < lines.len() && (#[trigger] lines[k]).transaction_id == id && lines[k].rep_id
                == rep && lines[k].role == role;
        assert(lines.contains(lines[k]));
        let m = choose|m: int| 0 <= m < own.len() && own[m] == lines[k];
        assert(own[m].transaction_id == id);
    }
    if has_line(own, id, rep, role) {
        let k = choose|k: int|
            0 <= k < own.len() && (#[trigger] own[k]).transaction_id == id && own[k].rep_id == rep
                && own[k].role == role;
        assert(own.contains(own[k]));
        assert(lines.contains(own[k]));
        let m = choose|m: int| 0 <= m < lines.len() && lines[m] == own[k];
        assert(lines[m].transaction_id == id);
    }
}

/// A return is taken back from the winners of the sale that it names, and
/// from nobody else: from a rep in a role exactly where the sale was credited
/// to the rep in the role. What is taken back adds up to the amount of the
/// return, each line names the sale, and is the share that the version in
/// force on the day of the sale gives.
pub proof fn returns_are_taken_from_the_winners_of_their_sale(
    p: PlanConfig,
    s: Seq<TxnView>,
    j: int,
    i: int,
    rep: Seq<char>,
    role: Seq<char>,
)
    requires
        config::plan_error(p) is None,
        laws::ids_differ(s),
        returns_sale(s, j, i),
        s[j].amount_cents >= 0,
        s[i].credits.len() <= usize::MAX,
        engine::outcome(p.versions@, s) is Ok,
    ensures
        ({
            let lines = engine::outcome(p.versions@, s)->Ok_0.credit_lines;
            let t = s[j];
            let sale = s[i];
            &&& has_line(lines, t.transaction_id, rep, role) <==> is_covered(
                p.versions@,
                sale.day,
            ) && is_winner(sale.credits, rep, role)
            &&& has_line(lines, t.transaction_id, rep, role) ==> order::sum_of(
                lines,
                amount_for(t.transaction_id),
            ) == -t.amount_cents
            &&& forall|k: int, v: int|
                0 <= k < lines.len() && (#[trigger] lines[k]).transaction_id == t.transaction_id
                    && 0 <= v < p.versions.len() && covers(#[trigger] p.versions@[v], sale.day)
                    ==> lines[k].links_original == Some(sale.transaction_id) && is_share(
                    p.versions@[v],
                    engine::winners_of(sale.credits),
                    t.amount_cents,
                    lines[k].role,
                    -lines[k].credited_cents,
                )
        }),
{
    let t = s[j];
    let sale = s[i];
    let lines = engine::outcome(p.versions@, s)->Ok_0.credit_lines;
    let own = own_lines(p.versions@, t, sale);
    outcome_lines(p, s, j, i);
    own_lines_mean(p, t, sale, rep, role);
    lines_agree(lines, own, t.transaction_id, rep, role);
    own_ids(p.versions@, t, sale);
    assert forall|k: int, v: int|
        0 <= k < lines.len() && (#[trigger] lines[k]).transaction_id == t.transaction_id && 0 <= v
            < p.versions.len() && covers(
            #[trigger] p.versions@[v],
            sale.day,
        ) implies lines[k].links_original == Some(sale.transaction_id) && is_share(
        p.versions@[v],
        engine::winners_of(sale.credits),
        t.amount_cents,
        lines[k].role,
        -lines[k].credited_cents,
    ) by {
        assert(lines.contains(lines[k]));
        let m = choose|m: int| 0 <= m < own.len() && own[m] == lines[k];
        assert(own[m].links_original == t.original);
    }
}

} // verus!
