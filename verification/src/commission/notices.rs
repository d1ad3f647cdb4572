//! What a run tells of each transaction and of each rep.

use vstd::prelude::*;

use crate::commission::config;
use crate::commission::config::{PlanConfig, PlanVersion};
use crate::commission::engine;
use crate::commission::engine::EntryView;
use crate::commission::input::{CreditView, TxnKind, TxnView};
use crate::commission::laws;
use crate::commission::outcomes;
use crate::commission::shares;
use crate::order;
use crate::spine::{FindingView, Severity};
use crate::text;

verus! {

// ---- transactions ----

/// Whether findings hold one of a rule on a transaction.
pub open spec fn is_told(s: Seq<FindingView>, rule: Seq<char>, id: Seq<char>) -> bool {
    exists|k: int|
        0 <= k < s.len() && (#[trigger] s[k]).rule_id == rule && s[k].subject == "txn:"@ + id
}

/// Findings that hold what belongs to one transaction, and nothing else on
/// it.
spec fn tells(s: Seq<FindingView>, id: Seq<char>, own: Seq<FindingView>) -> bool {
    forall|f: FindingView| f.subject == "txn:"@ + id ==> (#[trigger] s.contains(f) <==> own.contains(f))
}

proof fn subjects_differ(a: Seq<char>, b: Seq<char>)
    ensures
        "txn:"@ + a == "txn:"@ + b ==> a == b,
{
    let p = "txn:"@;
    if p + a == p + b {
        assert(a =~= (p + a).skip(p.len() as int));
        assert(b =~= (p + b).skip(p.len() as int));
    }
}

proof fn joined_holds(s: Seq<FindingView>, more: Seq<FindingView>, f: FindingView)
    ensures
        (s + more).contains(f) <==> s.contains(f) || more.contains(f),
{
    let all = s + more;
    if all.contains(f) {
        let k = choose|k: int| 0 <= k < all.len() && all[k] == f;
        if k < s.len() {
            assert(s[k] == f);
        } else {
            assert(more[k - s.len()] == f);
        }
    }
    if s.contains(f) {
        let k = choose|k: int| 0 <= k < s.len() && s[k] == f;
        assert(all[k] == f);
    }
    if more.contains(f) {
        let k = choose|k: int| 0 <= k < more.len() && more[k] == f;
        assert(all[s.len() + k] == f);
    }
}

proof fn tells_more(
    s: Seq<FindingView>,
    more: Seq<FindingView>,
    id: Seq<char>,
    own: Seq<FindingView>,
    other: Seq<char>,
)
    requires
        tells(s, id, own),
        id != other,
        forall|k: int| 0 <= k < more.len() ==> (#[trigger] more[k]).subject == "txn:"@ + other,
    ensures
        tells(s + more, id, own),
{
    assert forall|f: FindingView| f.subject == "txn:"@ + id implies (#[trigger] (s + more).contains(
        f,
    ) <==> own.contains(f)) by {
        joined_holds(s, more, f);
        subjects_differ(id, other);
        assert(s.contains(f) <==> own.contains(f));
        if more.contains(f) {
            let k = choose|k: int| 0 <= k < more.len() && more[k] == f;
            assert(more[k].subject == "txn:"@ + other);
        }
    }
}

proof fn tells_own(s: Seq<FindingView>, more: Seq<FindingView>, id: Seq<char>)
    requires
        tells(s, id, Seq::empty()),
    ensures
        tells(s + more, id, more),
{
    let none = Seq::<FindingView>::empty();
    assert forall|f: FindingView| f.subject == "txn:"@ + id implies (#[trigger] (s + more).contains(
        f,
    ) <==> more.contains(f)) by {
        joined_holds(s, more, f);
        assert(s.contains(f) <==> none.contains(f));
    }
}

/// What a sale adds to the findings of a run.
spec fn sale_notices(versions: Seq<PlanVersion>, t: TxnView) -> Seq<FindingView> {
    if config::version_on(versions, t.day, 0) is None {
        seq![engine::unassigned_of(t)]
    } else {
        engine::collisions_of(t, engine::roles_of(t.credits).len() as int)
    }
}

proof fn collisions_own(t: TxnView, n: int)
    ensures
        forall|k: int|
            0 <= k < engine::collisions_of(t, n).len() ==> (#[trigger] engine::collisions_of(
                t,
                n,
            )[k]).subject == "txn:"@ + t.transaction_id && engine::collisions_of(t, n)[k].rule_id
                == "CREDIT-COLLISION"@ && engine::collisions_of(t, n)[k].severity
                == Severity::Breach && engine::collisions_of(t, n)[k].requires_signoff,
    decreases n,
{
    if n > 0 {
        collisions_own(t, n - 1);
    }
}

proof fn sales_tell(versions: Seq<PlanVersion>, x: Seq<TxnView>, n: int, i: int)
    requires
        0 <= n <= x.len(),
        0 <= i < x.len(),
        laws::ids_differ(x),
        engine::after_sales(versions, x, n) is Ok,
    ensures
        tells(
            engine::after_sales(versions, x, n)->Ok_0.findings,
            x[i].transaction_id,
            if i < n && x[i].kind == TxnKind::Sale {
                sale_notices(versions, x[i])
            } else {
                Seq::empty()
            },
        ),
    decreases n,
{
    if n > 0 {
        sales_tell(versions, x, n - 1, i);
        let st = engine::after_sales(versions, x, n - 1)->Ok_0;
        let t = x[n - 1];
        if t.kind == TxnKind::Sale {
            let own = sale_notices(versions, t);
            collisions_own(t, engine::roles_of(t.credits).len() as int);
            assert(st.findings.push(engine::unassigned_of(t)) =~= st.findings + seq![
                engine::unassigned_of(t),
            ]);
            assert(engine::after_sales(versions, x, n)->Ok_0.findings == st.findings + own);
            if i == n - 1 {
                tells_own(st.findings, own, t.transaction_id);
            } else {
                if i < n - 1 {
                    assert(x[i].transaction_id != x[n - 1].transaction_id);
                } else {
                    assert(x[n - 1].transaction_id != x[i].transaction_id);
                }
                let mine = if i < n - 1 && x[i].kind == TxnKind::Sale {
                    sale_notices(versions, x[i])
                } else {
                    Seq::empty()
                };
                tells_more(st.findings, own, x[i].transaction_id, mine, t.transaction_id);
            }
        }
    }
}

/// What a return of a sale adds to the findings of a run.
spec fn return_notices(versions: Seq<PlanVersion>, t: TxnView, sale: TxnView) -> Seq<FindingView> {
    if config::version_on(versions, sale.day, 0) is None || engine::winners_of(sale.credits).len()
        == 0 {
        seq![engine::uncredited_of(t)]
    } else {
        seq![engine::clawback_of(t)]
    }
}

proof fn return_tells(versions: Seq<PlanVersion>, x: Seq<TxnView>, n: int, i: int)
    requires
        0 < n <= x.len(),
        laws::ids_differ(x),
        shares::returns_sale(x, n - 1, i),
        engine::after_returns(versions, x, n) is Ok,
    ensures
        engine::after_returns(versions, x, n)->Ok_0.findings == engine::after_returns(
            versions,
            x,
            n - 1,
        )->Ok_0.findings + return_notices(versions, x[n - 1], x[i]),
{
    let st = engine::after_returns(versions, x, n - 1)->Ok_0;
    let t = x[n - 1];
    let id = x[i].transaction_id;
    shares::returns_keep_resolved(versions, x, n - 1);
    shares::resolved_sales(versions, x, x.len() as int, id);
    let all = st.resolved;
    match engine::resolved_at(all, id, all.len() as int) {
        Some(k) => {
            let a = choose|a: int|
                0 <= a < x.len() && (#[trigger] x[a]).kind == TxnKind::Sale && x[a].transaction_id
                    == id && config::version_on(versions, x[a].day, 0) == Some(all[k].version)
                    && all[k].winners == engine::winners_of(x[a].credits);
            if a < i {
                assert(x[a].transaction_id != x[i].transaction_id);
            } else if i < a {
                assert(x[i].transaction_id != x[a].transaction_id);
            }
        },
        None => {
            assert(config::version_on(versions, x[i].day, 0) is None);
        },
    }
    assert(st.findings.push(engine::uncredited_of(t)) =~= st.findings + seq![
        engine::uncredited_of(t),
    ]);
    assert(st.findings.push(engine::clawback_of(t)) =~= st.findings + seq![engine::clawback_of(t)]);
}

proof fn return_tells_own(versions: Seq<PlanVersion>, x: Seq<TxnView>, n: int) -> (more: Seq<
    FindingView,
>)
    requires
        0 < n <= x.len(),
        engine::after_returns(versions, x, n) is Ok,
    ensures
        engine::after_returns(versions, x, n)->Ok_0.findings == engine::after_returns(
            versions,
            x,
            n - 1,
        )->Ok_0.findings + more,
        forall|k: int|
            0 <= k < more.len() ==> (#[trigger] more[k]).subject == "txn:"@
                + x[n - 1].transaction_id,
{
    let st = engine::after_returns(versions, x, n - 1)->Ok_0;
    let t = x[n - 1];
    let none = Seq::<FindingView>::empty();
    assert(st.findings + none =~= st.findings);
    assert(st.findings.push(engine::uncredited_of(t)) =~= st.findings + seq![
        engine::uncredited_of(t),
    ]);
    assert(st.findings.push(engine::clawback_of(t)) =~= st.findings + seq![engine::clawback_of(t)]);
    assert(st.findings.push(engine::malformed_of(t)) =~= st.findings + seq![
        engine::malformed_of(t),
    ]);
    if t.kind != TxnKind::Return {
        none
    } else if t.original is None || text::is_blank(t.original->0) {
        seq![engine::malformed_of(t)]
    } else {
        let at = engine::resolved_at(st.resolved, t.original->0, st.resolved.len() as int);
        if at is None || st.resolved[at->0].winners.len() == 0 {
            seq![engine::uncredited_of(t)]
        } else {
            seq![engine::clawback_of(t)]
        }
    }
}

proof fn returns_tell(versions: Seq<PlanVersion>, x: Seq<TxnView>, n: int, j: int, i: int)
    requires
        0 <= n <= x.len(),
        0 <= j < x.len(),
        laws::ids_differ(x),
        x[j].kind == TxnKind::Sale || shares::returns_sale(x, j, i),
        engine::after_returns(versions, x, n) is Ok,
    ensures
        tells(
            engine::after_returns(versions, x, n)->Ok_0.findings,
            x[j].transaction_id,
            if x[j].kind == TxnKind::Sale {
                sale_notices(versions, x[j])
            } else if j < n {
                return_notices(versions, x[j], x[i])
            } else {
                Seq::empty()
            },
        ),
    decreases n,
{
    if n > 0 {
        returns_tell(versions, x, n - 1, j, i);
        let st = engine::after_returns(versions, x, n - 1)->Ok_0;
        let mine = if x[j].kind == TxnKind::Sale {
            sale_notices(versions, x[j])
        } else if j < n - 1 {
            return_notices(versions, x[j], x[i])
        } else {
            Seq::empty()
        };
        if j == n - 1 {
            if x[j].kind == TxnKind::Return {
                return_tells(versions, x, n, i);
                tells_own(
                    st.findings,
                    return_notices(versions, x[j], x[i]),
                    x[j].transaction_id,
                );
            }
        } else {
            let more = return_tells_own(versions, x, n);
            if j < n - 1 {
                assert(x[j].transaction_id != x[n - 1].transaction_id);
            } else {
                assert(x[n - 1].transaction_id != x[j].transaction_id);
            }
            tells_more(
                st.findings,
                more,
                x[j].transaction_id,
                mine,
                x[n - 1].transaction_id,
            );
        }
    } else {
        sales_tell(versions, x, x.len() as int, j);
    }
}

proof fn rollup_tells_of_reps(versions: Seq<PlanVersion>, entries: Seq<EntryView>, n: int)
    requires
        engine::rollup(versions, entries, n) is Ok,
    ensures
        forall|k: int, id: Seq<char>|
            0 <= k < engine::rollup(versions, entries, n)->Ok_0.findings.len() ==> (
            #[trigger] engine::rollup(versions, entries, n)->Ok_0.findings[k]).subject
                != #[trigger] ("txn:"@ + id),
    decreases n,
{
    if n > 0 {
        rollup_tells_of_reps(versions, entries, n - 1);
        let s = engine::summary_of(versions[entries[n - 1].version], entries[n - 1])->Ok_0;
        let before = engine::rollup(versions, entries, n - 1)->Ok_0.findings;
        let all = engine::rollup(versions, entries, n)->Ok_0.findings;
        assert forall|k: int, id: Seq<char>| 0 <= k < all.len() implies (#[trigger] all[k]).subject
            != #[trigger] ("txn:"@ + id) by {
            if k < before.len() {
                assert(all[k] == before[k]);
            } else {
                reveal_strlit("rep:");
                reveal_strlit("txn:");
                assert(all[k].subject[0] == 'r');
                assert(("txn:"@ + id)[0] == 't');
            }
        }
    }
}

proof fn outcome_tells(p: PlanConfig, s: Seq<TxnView>, j: int, i: int)
    requires
        laws::ids_differ(s),
        0 <= j < s.len(),
        (s[j].kind == TxnKind::Sale && i == j) || shares::returns_sale(s, j, i),
        engine::outcome(p.versions@, s) is Ok,
    ensures
        tells(
            engine::outcome(p.versions@, s)->Ok_0.findings,
            s[j].transaction_id,
            if s[j].kind == TxnKind::Sale {
                sale_notices(p.versions@, s[j])
            } else {
                return_notices(p.versions@, s[j], s[i])
            },
        ),
{
    let versions = p.versions@;
    let x = engine::in_order(s);
    outcomes::in_order_facts(s);
    let a = shares::placed_in_order(s, j);
    let b = shares::placed_in_order(s, i);
    let n = x.len() as int;
    let st = engine::after_returns(versions, x, n)->Ok_0;
    let entries = order::stable_sort(st.entries, |a: EntryView, b: EntryView| engine::entry_lt(a, b));
    let r = engine::rollup(versions, entries, entries.len() as int)->Ok_0;
    let lt = |a: FindingView, b: FindingView| engine::finding_lt(a, b);
    returns_tell(versions, x, n, a, b);
    rollup_tells_of_reps(versions, entries, entries.len() as int);
    order::stable_sort_elements(st.findings + r.findings, lt);
    let out = engine::outcome(versions, s)->Ok_0.findings;
    let own = if s[j].kind == TxnKind::Sale {
        sale_notices(versions, s[j])
    } else {
        return_notices(versions, s[j], s[i])
    };
    assert forall|f: FindingView| f.subject == "txn:"@ + s[j].transaction_id implies (
    #[trigger] out.contains(f) <==> own.contains(f)) by {
        joined_holds(st.findings, r.findings, f);
        assert(out.contains(f) <==> (st.findings + r.findings).contains(f));
        assert(st.findings.contains(f) <==> own.contains(f));
        if r.findings.contains(f) {
            let k = choose|k: int| 0 <= k < r.findings.len() && r.findings[k] == f;
            assert(r.findings[k].subject != "txn:"@ + s[j].transaction_id);
        }
    }
}

proof fn told_of_own(s: Seq<FindingView>, id: Seq<char>, own: Seq<FindingView>, rule: Seq<char>)
    requires
        tells(s, id, own),
        forall|k: int| 0 <= k < own.len() ==> (#[trigger] own[k]).subject == "txn:"@ + id,
    ensures
        is_told(s, rule, id) <==> exists|k: int|
            0 <= k < own.len() && (#[trigger] own[k]).rule_id == rule,
{
    if is_told(s, rule, id) {
        let k = choose|k: int|
            0 <= k < s.len() && (#[trigger] s[k]).rule_id == rule && s[k].subject == "txn:"@ + id;
        assert(s.contains(s[k]));
        let m = choose|m: int| 0 <= m < own.len() && own[m] == s[k];
        assert(own[m].rule_id == rule);
    }
    if exists|k: int| 0 <= k < own.len() && (#[trigger] own[k]).rule_id == rule {
        let k = choose|k: int| 0 <= k < own.len() && (#[trigger] own[k]).rule_id == rule;
        assert(own.contains(own[k]));
        assert(s.contains(own[k]));
        let m = choose|m: int| 0 <= m < s.len() && s[m] == own[k];
        assert(s[m].rule_id == rule);
    }
}

proof fn collisions_are_ties(t: TxnView, n: int)
    requires
        0 <= n <= engine::roles_of(t.credits).len(),
    ensures
        engine::collisions_of(t, n).len() > 0 <==> exists|i: int|
            0 <= i < n && engine::is_tied(t.credits, #[trigger] engine::roles_of(t.credits)[i]),
    decreases n,
{
    if n > 0 {
        collisions_are_ties(t, n - 1);
        let role = engine::roles_of(t.credits)[n - 1];
    }
}

proof fn ties_judged(t: TxnView)
    ensures
        engine::collisions_of(t, engine::roles_of(t.credits).len() as int).len() > 0
            <==> exists|a: int, b: int| #[trigger] shares::is_tie(t.credits, a, b),
{
    let cs = t.credits;
    let roles = engine::roles_of(cs);
    let n = roles.len() as int;
    collisions_are_ties(t, n);
    if exists|i: int| 0 <= i < n && engine::is_tied(cs, #[trigger] roles[i]) {
        let i = choose|i: int| 0 <= i < n && engine::is_tied(cs, #[trigger] roles[i]);
        engine::roles_are_credited(cs, i);
        shares::role_judged(cs, roles[i]);
    }
    if exists|a: int, b: int| #[trigger] shares::is_tie(cs, a, b) {
        let (a, b) = choose|a: int, b: int| #[trigger] shares::is_tie(cs, a, b);
        let role = cs[a].role;
        shares::role_listed(cs, role);
        assert(cs[a].role == role);
        let i = choose|i: int| 0 <= i < n && roles[i] == role;
        engine::roles_are_credited(cs, i);
        shares::role_judged(cs, role);
        assert(engine::is_tied(cs, roles[i]));
    }
}

/// A sale is reported as unassigned exactly where no version is in force on
/// its day, and as a collision exactly where one is and two credits of a role
/// share its lowest priority number.
pub proof fn sales_are_told_of(p: PlanConfig, s: Seq<TxnView>, i: int)
    requires
        laws::ids_differ(s),
        0 <= i < s.len(),
        s[i].kind == TxnKind::Sale,
        engine::outcome(p.versions@, s) is Ok,
    ensures
        ({
            let f = engine::outcome(p.versions@, s)->Ok_0.findings;
            let t = s[i];
            &&& is_told(f, "TXN-UNASSIGNED"@, t.transaction_id) <==> !shares::is_covered(
                p.versions@,
                t.day,
            )
            &&& is_told(f, "CREDIT-COLLISION"@, t.transaction_id) <==> shares::is_covered(
                p.versions@,
                t.day,
            ) && exists|a: int, b: int| #[trigger] shares::is_tie(t.credits, a, b)
        }),
{
    let t = s[i];
    let f = engine::outcome(p.versions@, s)->Ok_0.findings;
    let own = sale_notices(p.versions@, t);
    let n = engine::roles_of(t.credits).len() as int;
    outcome_tells(p, s, i, i);
    collisions_own(t, n);
    ties_judged(t);
    shares::version_covers(p.versions@, t.day, 0);
    told_of_own(f, t.transaction_id, own, "TXN-UNASSIGNED"@);
    told_of_own(f, t.transaction_id, own, "CREDIT-COLLISION"@);
    reveal_strlit("TXN-UNASSIGNED");
    reveal_strlit("CREDIT-COLLISION");
    assert("TXN-UNASSIGNED"@.len() != "CREDIT-COLLISION"@.len());
    if own.len() > 0 {
        assert(own[0].rule_id == own[0].rule_id);
    }
}

/// Whether somebody wins a role of a sale.
pub open spec fn has_winner(cs: Seq<CreditView>) -> bool {
    exists|k: int| #[trigger] shares::wins(cs, k)
}

proof fn winners_judged(cs: Seq<CreditView>)
    ensures
        engine::winners_of(cs).len() > 0 <==> has_winner(cs),
{
    let ws = engine::winners_of(cs);
    if ws.len() > 0 {
        shares::the_lowest_priority_wins_alone(cs, ws[0].rep, ws[0].role);
        assert(ws.contains(ws[0]));
        let k = choose|k: int| #[trigger]
            shares::wins(cs, k) && cs[k].rep_id == ws[0].rep && cs[k].role == ws[0].role;
        assert(shares::wins(cs, k));
    }
    if has_winner(cs) {
        let k = choose|k: int| #[trigger] shares::wins(cs, k);
        shares::the_lowest_priority_wins_alone(cs, cs[k].rep_id, cs[k].role);
    }
}

/// A return is reported as a clawback exactly where the sale that it names
/// was credited to somebody, and otherwise as a return of a sale that was
/// not.
pub proof fn returns_are_told_of(p: PlanConfig, s: Seq<TxnView>, j: int, i: int)
    requires
        laws::ids_differ(s),
        shares::returns_sale(s, j, i),
        engine::outcome(p.versions@, s) is Ok,
    ensures
        ({
            let f = engine::outcome(p.versions@, s)->Ok_0.findings;
            let credited = shares::is_covered(p.versions@, s[i].day) && has_winner(s[i].credits);
            &&& is_told(f, "CLAWBACK"@, s[j].transaction_id) <==> credited
            &&& is_told(f, "ORIGINAL-NOT-CREDITED"@, s[j].transaction_id) <==> !credited
        }),
{
    let f = engine::outcome(p.versions@, s)->Ok_0.findings;
    let own = return_notices(p.versions@, s[j], s[i]);
    outcome_tells(p, s, j, i);
    winners_judged(s[i].credits);
    shares::version_covers(p.versions@, s[i].day, 0);
    told_of_own(f, s[j].transaction_id, own, "CLAWBACK"@);
    told_of_own(f, s[j].transaction_id, own, "ORIGINAL-NOT-CREDITED"@);
    reveal_strlit("CLAWBACK");
    reveal_strlit("ORIGINAL-NOT-CREDITED");
    assert("CLAWBACK"@.len() != "ORIGINAL-NOT-CREDITED"@.len());
    assert(own[0].rule_id == own[0].rule_id);
}

} // verus!
