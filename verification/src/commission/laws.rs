//! What holds of every commission run.

use vstd::multiset::Multiset;
use vstd::prelude::*;

use crate::commission::bands;
use crate::commission::bands::SliceView;
use crate::commission::config;
use crate::commission::config::{BandMode, PlanConfig, PlanVersion};
use crate::commission::engine;
use crate::commission::engine::{CreditLineView, EntryView, SummaryView, WinnerView};
use crate::commission::evidence;
use crate::commission::evidence::VerifyFailure;
use crate::commission::input;
use crate::commission::input::{CreditView, TransactionsFile, TxnKind, TxnView};
use crate::commission::split;
use crate::order;
use crate::spine;
use crate::spine::{FindingView, PackView, SignoffView};
use crate::text;

verus! {

/// Whether different transactions have different ids.
pub open spec fn ids_differ(s: Seq<TxnView>) -> bool {
    forall|i: int, j: int|
        0 <= i < j < s.len() ==> (#[trigger] s[i]).transaction_id != (
        #[trigger] s[j]).transaction_id
}

/// A file that validates has different ids on different transactions.
pub proof fn valid_files_have_different_ids(s: Seq<TxnView>)
    requires
        input::file_error(s) is None,
    ensures
        ids_differ(s),
{
    assert forall|i: int, j: int| 0 <= i < j < s.len() implies (#[trigger] s[i]).transaction_id != (
    #[trigger] s[j]).transaction_id by {
        valid_txn(s, 0, j);
        assert(!input::id_seen(s, j, s[j].transaction_id));
    }
}

pub(crate) proof fn valid_txn(s: Seq<TxnView>, from: int, i: int)
    requires
        0 <= from <= i < s.len(),
        input::txns_error(s, from) is None,
    ensures
        input::txn_error(s, i) is None,
    decreases i - from,
{
    if from < i {
        valid_txn(s, from + 1, i);
    }
}

/// The best priority is reached by a credit of the role, and no credit of the
/// role is below it.
pub(crate) proof fn best_is_least(cs: Seq<CreditView>, role: Seq<char>, n: int)
    requires
        0 <= n <= cs.len(),
    ensures
        (match engine::best_priority(cs, role, n) {
            Some(p) => {
                &&& exists|k: int| 0 <= k < n && #[trigger] engine::stands_at(cs[k], role, p)
                &&& forall|k: int| 0 <= k < n && (#[trigger] cs[k]).role == role ==> p
                    <= cs[k].priority
            },
            None => forall|k: int| 0 <= k < n ==> (#[trigger] cs[k]).role != role,
        }),
    decreases n,
{
    if n > 0 {
        best_is_least(cs, role, n - 1);
        match engine::best_priority(cs, role, n) {
            Some(p) => {
                if cs[n - 1].role == role && cs[n - 1].priority == p {
                    assert(engine::stands_at(cs[n - 1], role, p));
                } else {
                    let k = choose|k: int|
                        0 <= k < n - 1 && #[trigger] engine::stands_at(cs[k], role, p);
                    assert(engine::stands_at(cs[k], role, p));
                }
            },
            None => {},
        }
    }
}

pub(crate) proof fn same_elements<A>(s: Seq<A>, t: Seq<A>)
    requires
        s.to_multiset() == t.to_multiset(),
    ensures
        s.len() == t.len(),
        forall|x: A| s.contains(x) <==> t.contains(x),
{
    s.to_multiset_ensures();
    t.to_multiset_ensures();
    assert forall|x: A| s.contains(x) <==> t.contains(x) by {
        vstd::seq_lib::to_multiset_contains(s, x);
        vstd::seq_lib::to_multiset_contains(t, x);
    }
}

proof fn best_ignores_order(cs: Seq<CreditView>, ds: Seq<CreditView>, role: Seq<char>)
    requires
        cs.to_multiset() == ds.to_multiset(),
    ensures
        engine::best_priority(cs, role, cs.len() as int) == engine::best_priority(
            ds,
            role,
            ds.len() as int,
        ),
{
    let n = cs.len() as int;
    same_elements(cs, ds);
    best_is_least(cs, role, n);
    best_is_least(ds, role, n);
    let p = engine::best_priority(cs, role, n);
    let q = engine::best_priority(ds, role, n);
    if p is Some {
        let k = choose|k: int| 0 <= k < n && #[trigger] engine::stands_at(cs[k], role, p->0);
        assert(cs.contains(cs[k]));
        assert(ds.contains(cs[k]));
        let j = choose|j: int| 0 <= j < n && ds[j] == cs[k];
        assert(ds[j].role == role);
    }
    if q is Some {
        let k = choose|k: int| 0 <= k < n && #[trigger] engine::stands_at(ds[k], role, q->0);
        assert(ds.contains(ds[k]));
        assert(cs.contains(ds[k]));
        let j = choose|j: int| 0 <= j < n && cs[j] == ds[k];
        assert(cs[j].role == role);
    }
}

spec fn one_if_stands(role: Seq<char>, priority: u32) -> spec_fn(CreditView) -> int {
    |c: CreditView| if engine::stands_at(c, role, priority) { 1int } else { 0 }
}

proof fn holders_is_sum(cs: Seq<CreditView>, role: Seq<char>, priority: u32, n: int)
    requires
        0 <= n <= cs.len(),
    ensures
        engine::holders(cs, role, priority, n) == order::sum_of(
            cs.take(n),
            one_if_stands(role, priority),
        ),
    decreases n,
{
    if n > 0 {
        holders_is_sum(cs, role, priority, n - 1);
        assert(cs.take(n).drop_last() =~= cs.take(n - 1));
        assert(cs.take(n).last() == cs[n - 1]);
    } else {
        assert(cs.take(n) =~= Seq::<CreditView>::empty());
    }
}

proof fn holders_ignore_order(
    cs: Seq<CreditView>,
    ds: Seq<CreditView>,
    role: Seq<char>,
    priority: u32,
)
    requires
        cs.to_multiset() == ds.to_multiset(),
    ensures
        engine::holders(cs, role, priority, cs.len() as int) == engine::holders(
            ds,
            role,
            priority,
            ds.len() as int,
        ),
{
    holders_is_sum(cs, role, priority, cs.len() as int);
    holders_is_sum(ds, role, priority, ds.len() as int);
    assert(cs.take(cs.len() as int) =~= cs);
    assert(ds.take(ds.len() as int) =~= ds);
    order::sum_of_forgets_order(cs, ds, one_if_stands(role, priority));
}

pub(crate) proof fn holder_stands(cs: Seq<CreditView>, role: Seq<char>, priority: u32, i: int, k: int)
    requires
        0 <= i <= k < cs.len(),
        engine::stands_at(cs[k], role, priority),
    ensures
        exists|j: int|
            i <= j <= k && #[trigger] engine::stands_at(cs[j], role, priority) && cs[j].rep_id
                == engine::holder(cs, role, priority, i),
    decreases k - i,
{
    if engine::stands_at(cs[i], role, priority) {
        assert(engine::stands_at(cs[i], role, priority));
    } else {
        holder_stands(cs, role, priority, i + 1, k);
        let j = choose|j: int|
            i + 1 <= j <= k && #[trigger] engine::stands_at(cs[j], role, priority) && cs[j].rep_id
                == engine::holder(cs, role, priority, i + 1);
        assert(engine::stands_at(cs[j], role, priority));
    }
}

pub(crate) proof fn two_holders(cs: Seq<CreditView>, role: Seq<char>, priority: u32, a: int, b: int, n: int)
    requires
        0 <= a < b < n <= cs.len(),
        engine::stands_at(cs[a], role, priority),
        engine::stands_at(cs[b], role, priority),
    ensures
        engine::holders(cs, role, priority, n) >= 2,
    decreases n,
{
    if b < n - 1 {
        two_holders(cs, role, priority, a, b, n - 1);
    } else {
        one_holder(cs, role, priority, a, n - 1);
    }
}

pub(crate) proof fn one_holder(cs: Seq<CreditView>, role: Seq<char>, priority: u32, a: int, n: int)
    requires
        0 <= a < n <= cs.len(),
        engine::stands_at(cs[a], role, priority),
    ensures
        engine::holders(cs, role, priority, n) >= 1,
    decreases n,
{
    holders_nonnegative(cs, role, priority, n - 1);
    if a < n - 1 {
        one_holder(cs, role, priority, a, n - 1);
    }
}

pub(crate) proof fn holders_nonnegative(cs: Seq<CreditView>, role: Seq<char>, priority: u32, n: int)
    ensures
        engine::holders(cs, role, priority, n) >= 0,
    decreases n,
{
    if n > 0 {
        holders_nonnegative(cs, role, priority, n - 1);
    }
}

proof fn leader_ignores_order(cs: Seq<CreditView>, ds: Seq<CreditView>, role: Seq<char>)
    requires
        cs.to_multiset() == ds.to_multiset(),
        engine::best_priority(cs, role, cs.len() as int) is Some,
        !engine::is_tied(cs, role),
    ensures
        engine::leader(cs, role) == engine::leader(ds, role),
{
    let n = cs.len() as int;
    best_ignores_order(cs, ds, role);
    same_elements(cs, ds);
    let p = engine::best_priority(cs, role, n)->0;
    holders_ignore_order(cs, ds, role, p);
    best_is_least(cs, role, n);
    best_is_least(ds, role, n);
    let a = choose|k: int| 0 <= k < n && #[trigger] engine::stands_at(cs[k], role, p);
    let b = choose|k: int| 0 <= k < n && #[trigger] engine::stands_at(ds[k], role, p);
    holder_stands(cs, role, p, 0, a);
    holder_stands(ds, role, p, 0, b);
    let x = choose|j: int|
        0 <= j <= a && #[trigger] engine::stands_at(cs[j], role, p) && cs[j].rep_id
            == engine::holder(cs, role, p, 0);
    let y = choose|j: int|
        0 <= j <= b && #[trigger] engine::stands_at(ds[j], role, p) && ds[j].rep_id
            == engine::holder(ds, role, p, 0);
    assert(ds.contains(ds[y]));
    assert(cs.contains(ds[y]));
    let z = choose|z: int| 0 <= z < n && cs[z] == ds[y];
    if x < z {
        two_holders(cs, role, p, x, z, n);
    } else if z < x {
        two_holders(cs, role, p, z, x, n);
    }
}

proof fn roles_ignore_order(cs: Seq<CreditView>, ds: Seq<CreditView>)
    requires
        cs.to_multiset() == ds.to_multiset(),
    ensures
        engine::roles_of(cs) == engine::roles_of(ds),
{
    let f = |c: CreditView| c.role;
    let lt = |a: Seq<char>, b: Seq<char>| text::text_lt(a, b);
    order::map_forgets_order(cs, ds, f);
    text::text_order();
    let s = cs.map_values(f);
    assert forall|a: Seq<char>, b: Seq<char>|
        s.contains(a) && s.contains(b) && a != b implies #[trigger] lt(a, b) || lt(b, a) by {
        text::text_lt_total(a, b);
    }
    order::stable_sort_forgets_order(s, ds.map_values(f), lt);
}

proof fn role_results_ignore_order(t: TxnView, u: TxnView, n: int)
    requires
        t.transaction_id == u.transaction_id,
        t.credits.to_multiset() == u.credits.to_multiset(),
        0 <= n <= engine::roles_of(t.credits).len(),
    ensures
        engine::role_winners(t.credits, n) == engine::role_winners(u.credits, n),
        engine::collisions_of(t, n) == engine::collisions_of(u, n),
    decreases n,
{
    if n > 0 {
        role_results_ignore_order(t, u, n - 1);
        roles_ignore_order(t.credits, u.credits);
        let role = engine::roles_of(t.credits)[n - 1];
        best_ignores_order(t.credits, u.credits, role);
        holders_ignore_order(
            t.credits,
            u.credits,
            role,
            engine::best_priority(t.credits, role, t.credits.len() as int)->0,
        );
        if !engine::is_tied(t.credits, role) {
            engine::roles_are_credited(t.credits, n - 1);
            leader_ignores_order(t.credits, u.credits, role);
        }
    }
}

/// Collisions are decided by priority alone: reordering the credits of a sale
/// changes nothing in what it does to a run.
pub proof fn sales_ignore_credit_order(
    versions: Seq<PlanVersion>,
    st: engine::RunView,
    t: TxnView,
    u: TxnView,
)
    requires
        t.credits.to_multiset() == u.credits.to_multiset(),
        u == (TxnView { credits: u.credits, ..t }),
        t.kind == TxnKind::Sale,
    ensures
        engine::sale_step(versions, st, t) == engine::sale_step(versions, st, u),
{
    roles_ignore_order(t.credits, u.credits);
    let n = engine::roles_of(t.credits).len() as int;
    role_results_ignore_order(t, u, n);
    match config::version_on(versions, t.day, 0) {
        Some(vi) => {
            let ws = engine::winners_of(t.credits);
            assert(ws == engine::winners_of(u.credits));
            match engine::split_for(versions[vi], ws, t.amount_cents) {
                Ok(shares) => {
                    lines_ignore_credits(t, u, ws, shares, ws.len() as int);
                },
                Err(_) => {},
            }
        },
        None => {},
    }
}

proof fn lines_ignore_credits(t: TxnView, u: TxnView, ws: Seq<WinnerView>, shares: Seq<int>, n: int)
    requires
        u == (TxnView { credits: u.credits, ..t }),
    ensures
        engine::lines_of(t, ws, shares, n) == engine::lines_of(u, ws, shares, n),
    decreases n,
{
    if n > 0 {
        lines_ignore_credits(t, u, ws, shares, n - 1);
    }
}

// ---- the order of transactions and credits ----

/// What a transaction says, whatever the order of its credits.
#[verifier::ext_equal]
pub struct ContentView {
    pub transaction_id: Seq<char>,
    pub day: int,
    pub amount_cents: int,
    pub kind: TxnKind,
    pub original: Option<Seq<char>>,
    pub credits: Multiset<CreditView>,
}

pub open spec fn content_of(t: TxnView) -> ContentView {
    ContentView {
        transaction_id: t.transaction_id,
        day: t.day,
        amount_cents: t.amount_cents,
        kind: t.kind,
        original: t.original,
        credits: t.credits.to_multiset(),
    }
}

pub open spec fn contents_of(s: Seq<TxnView>) -> Seq<ContentView> {
    s.map_values(|t: TxnView| content_of(t))
}

/// Whether two files hold the same transactions with the same credits, both
/// in any order.
pub open spec fn same_transactions(s: Seq<TxnView>, t: Seq<TxnView>) -> bool {
    contents_of(s).to_multiset() == contents_of(t).to_multiset()
}

spec fn content_lt(a: ContentView, b: ContentView) -> bool {
    a.day < b.day || (a.day == b.day && text::text_lt(a.transaction_id, b.transaction_id))
}

proof fn content_order()
    ensures
        order::is_order(|a: ContentView, b: ContentView| content_lt(a, b)),
{
    let lt = |a: ContentView, b: ContentView| content_lt(a, b);
    assert forall|a: ContentView| !#[trigger] lt(a, a) by {
        text::text_lt_irreflexive(a.transaction_id);
    }
    assert forall|a: ContentView, b: ContentView, c: ContentView| #[trigger] lt(a, b) && #[trigger] lt(
        b,
        c,
    ) implies lt(a, c) by {
        if a.day == b.day && b.day == c.day {
            text::text_lt_transitive(a.transaction_id, b.transaction_id, c.transaction_id);
        }
    }
    assert forall|a: ContentView, b: ContentView, c: ContentView| !#[trigger] lt(a, b) && !#[trigger] lt(
        b,
        c,
    ) implies !lt(a, c) by {
        if a.day == b.day && b.day == c.day && text::text_lt(a.transaction_id, c.transaction_id) {
            text::text_lt_total(a.transaction_id, b.transaction_id);
            if text::text_lt(b.transaction_id, a.transaction_id) {
                text::text_lt_transitive(b.transaction_id, a.transaction_id, c.transaction_id);
            }
        }
    }
}

proof fn contents_in_order(s: Seq<TxnView>)
    ensures
        contents_of(engine::in_order(s)) == order::stable_sort(
            contents_of(s),
            |a: ContentView, b: ContentView| content_lt(a, b),
        ),
{
    order::stable_sort_maps(
        s,
        |t: TxnView| content_of(t),
        |a: TxnView, b: TxnView| engine::txn_lt(a, b),
        |a: ContentView, b: ContentView| content_lt(a, b),
    );
}

/// Processing order puts the same transactions in the same places.
proof fn same_in_order(s: Seq<TxnView>, t: Seq<TxnView>)
    requires
        ids_differ(s),
        same_transactions(s, t),
    ensures
        contents_of(engine::in_order(s)) == contents_of(engine::in_order(t)),
{
    let lt = |a: ContentView, b: ContentView| content_lt(a, b);
    let x = contents_of(s);
    content_order();
    assert forall|a: ContentView, b: ContentView|
        x.contains(a) && x.contains(b) && a != b implies #[trigger] lt(a, b) || lt(b, a) by {
        let i = choose|i: int| 0 <= i < x.len() && x[i] == a;
        let j = choose|j: int| 0 <= j < x.len() && x[j] == b;
        assert(s[i].transaction_id != s[j].transaction_id);
        text::text_lt_total(a.transaction_id, b.transaction_id);
    }
    order::stable_sort_forgets_order(x, contents_of(t), lt);
    contents_in_order(s);
    contents_in_order(t);
}

proof fn same_content(s: Seq<TxnView>, t: Seq<TxnView>, i: int)
    requires
        contents_of(s) == contents_of(t),
        0 <= i < s.len(),
    ensures
        s.len() == t.len(),
        content_of(s[i]) == content_of(t[i]),
{
    assert(contents_of(s).len() == s.len() && contents_of(t).len() == t.len());
    assert(contents_of(s)[i] == content_of(s[i]) && contents_of(t)[i] == content_of(t[i]));
}

proof fn sales_ignore_order(
    versions: Seq<PlanVersion>,
    s: Seq<TxnView>,
    t: Seq<TxnView>,
    n: int,
)
    requires
        contents_of(s) == contents_of(t),
        0 <= n <= s.len(),
    ensures
        engine::after_sales(versions, s, n) == engine::after_sales(versions, t, n),
    decreases n,
{
    if n > 0 {
        sales_ignore_order(versions, s, t, n - 1);
        same_content(s, t, n - 1);
        match engine::after_sales(versions, s, n - 1) {
            Ok(st) => {
                if s[n - 1].kind == TxnKind::Sale {
                    sales_ignore_credit_order(versions, st, s[n - 1], t[n - 1]);
                }
            },
            Err(_) => {},
        }
    }
}

proof fn returns_ignore_credits(
    versions: Seq<PlanVersion>,
    st: engine::RunView,
    t: TxnView,
    u: TxnView,
)
    requires
        u == (TxnView { credits: u.credits, ..t }),
    ensures
        engine::return_step(versions, st, t) == engine::return_step(versions, st, u),
{
    if t.original is Some && !text::is_blank(t.original->0) {
        let at = engine::resolved_at(st.resolved, t.original->0, st.resolved.len() as int);
        if at is Some {
            let sale = st.resolved[at->0];
            match engine::split_for(versions[sale.version], sale.winners, t.amount_cents) {
                Ok(shares) => {
                    lines_ignore_credits(t, u, sale.winners, shares, sale.winners.len() as int);
                },
                Err(_) => {},
            }
        }
    }
}

proof fn returns_ignore_order(
    versions: Seq<PlanVersion>,
    s: Seq<TxnView>,
    t: Seq<TxnView>,
    n: int,
)
    requires
        contents_of(s) == contents_of(t),
        0 <= n <= s.len(),
    ensures
        engine::after_returns(versions, s, n) == engine::after_returns(versions, t, n),
    decreases n,
{
    assert(contents_of(s).len() == s.len() && contents_of(t).len() == t.len());
    if n > 0 {
        returns_ignore_order(versions, s, t, n - 1);
        same_content(s, t, n - 1);
        match engine::after_returns(versions, s, n - 1) {
            Ok(st) => {
                returns_ignore_credits(versions, st, s[n - 1], t[n - 1]);
            },
            Err(_) => {},
        }
    } else {
        sales_ignore_order(versions, s, t, s.len() as int);
    }
}

/// Reordering the transactions of a file, and the credits of its
/// transactions, changes nothing in the outcome, nor in whether the sums stay
/// within range.
pub proof fn outcome_ignores_order(
    versions: Seq<PlanVersion>,
    s: Seq<TxnView>,
    t: Seq<TxnView>,
)
    requires
        ids_differ(s),
        same_transactions(s, t),
    ensures
        engine::outcome(versions, s) == engine::outcome(versions, t),
        engine::run_fits(versions, s) <==> engine::run_fits(versions, t),
{
    let x = engine::in_order(s);
    let y = engine::in_order(t);
    same_in_order(s, t);
    assert(contents_of(x).len() == x.len() && contents_of(y).len() == y.len());
    returns_ignore_order(versions, x, y, x.len() as int);
    if engine::run_fits(versions, s) {
        assert forall|n: int| 0 <= n <= y.len() implies engine::state_fits(
            #[trigger] engine::after_sales(versions, y, n),
        ) by {
            assert(engine::state_fits(engine::after_sales(versions, x, n)));
            sales_ignore_order(versions, x, y, n);
        }
        assert forall|n: int| 0 <= n <= y.len() implies engine::state_fits(
            #[trigger] engine::after_returns(versions, y, n),
        ) by {
            assert(engine::state_fits(engine::after_returns(versions, x, n)));
            returns_ignore_order(versions, x, y, n);
        }
    }
    if engine::run_fits(versions, t) {
        assert forall|n: int| 0 <= n <= x.len() implies engine::state_fits(
            #[trigger] engine::after_sales(versions, x, n),
        ) by {
            assert(engine::state_fits(engine::after_sales(versions, y, n)));
            sales_ignore_order(versions, x, y, n);
        }
        assert forall|n: int| 0 <= n <= x.len() implies engine::state_fits(
            #[trigger] engine::after_returns(versions, x, n),
        ) by {
            assert(engine::state_fits(engine::after_returns(versions, y, n)));
            returns_ignore_order(versions, x, y, n);
        }
    }
}

/// Transaction `j` of one file stands in the other too.
proof fn counterpart(s: Seq<TxnView>, t: Seq<TxnView>, j: int) -> (i: int)
    requires
        same_transactions(s, t),
        0 <= j < t.len(),
    ensures
        0 <= i < s.len(),
        content_of(s[i]) == content_of(t[j]),
        s[i].credits.len() == t[j].credits.len(),
        input::credits_named(s[i].credits) ==> input::credits_named(t[j].credits),
{
    let x = contents_of(s);
    let y = contents_of(t);
    same_elements(x, y);
    assert(y[j] == content_of(t[j]));
    assert(y.contains(content_of(t[j])));
    assert(x.contains(content_of(t[j])));
    let i = choose|i: int| 0 <= i < x.len() && x[i] == content_of(t[j]);
    let c = s[i].credits;
    let d = t[j].credits;
    same_elements(c, d);
    if input::credits_named(c) {
        assert forall|k: int| 0 <= k < d.len() implies !text::is_blank((#[trigger] d[k]).rep_id)
            && !text::is_blank(d[k].role) by {
            assert(d.contains(d[k]));
            assert(c.contains(d[k]));
            let l = choose|l: int| 0 <= l < c.len() && c[l] == d[k];
            assert(!text::is_blank(c[l].rep_id));
        }
    }
    i
}

proof fn ids_stay_different(s: Seq<TxnView>, t: Seq<TxnView>)
    requires
        ids_differ(s),
        same_transactions(s, t),
    ensures
        ids_differ(t),
{
    let x = contents_of(s);
    let y = contents_of(t);
    assert forall|i: int, j: int|
        0 <= i < x.len() && 0 <= j < x.len() && i != j implies x[i] != x[j] by {
        assert(s[i].transaction_id != s[j].transaction_id);
    }
    x.lemma_multiset_has_no_duplicates();
    y.lemma_multiset_has_no_duplicates_conv();
    assert forall|i: int, j: int| 0 <= i < j < t.len() implies (#[trigger] t[i]).transaction_id != (
    #[trigger] t[j]).transaction_id by {
        let k = counterpart(s, t, i);
        let l = counterpart(s, t, j);
        assert(y[i] != y[j]);
        assert(k != l);
    }
}

pub(crate) proof fn found_txn(s: Seq<TxnView>, id: Seq<char>, i: int)
    requires
        0 <= i <= s.len(),
    ensures
        (match input::find_txn(s, id, i) {
            Some(k) => i <= k < s.len() && s[k].transaction_id == id,
            None => forall|k: int| i <= k < s.len() ==> (#[trigger] s[k]).transaction_id != id,
        }),
    decreases s.len() - i,
{
    if i < s.len() {
        found_txn(s, id, i + 1);
    }
}

pub(crate) proof fn valid_reference(s: Seq<TxnView>, from: int, i: int)
    requires
        0 <= from <= i < s.len(),
        input::references_error(s, from) is None,
    ensures
        input::reference_error(s, i) is None,
    decreases i - from,
{
    if from < i {
        valid_reference(s, from + 1, i);
    }
}

proof fn transactions_stay_valid(s: Seq<TxnView>, t: Seq<TxnView>, j: int)
    requires
        input::txns_error(s, 0) is None,
        ids_differ(t),
        same_transactions(s, t),
        0 <= j <= t.len(),
    ensures
        input::txns_error(t, j) is None,
    decreases t.len() - j,
{
    if j < t.len() {
        transactions_stay_valid(s, t, j + 1);
        let i = counterpart(s, t, j);
        valid_txn(s, 0, i);
    }
}

proof fn references_stay_valid(s: Seq<TxnView>, t: Seq<TxnView>, j: int)
    requires
        input::references_error(s, 0) is None,
        ids_differ(s),
        ids_differ(t),
        same_transactions(s, t),
        0 <= j <= t.len(),
    ensures
        input::references_error(t, j) is None,
    decreases t.len() - j,
{
    if j < t.len() {
        references_stay_valid(s, t, j + 1);
        if t[j].kind == TxnKind::Return {
            let i = counterpart(s, t, j);
            valid_reference(s, 0, i);
            let id = t[j].original->0;
            found_txn(s, id, 0);
            found_txn(t, id, 0);
            let k = input::find_txn(s, id, 0)->0;
            let l = counterpart(t, s, k);
            assert(t[l].transaction_id == id);
            let m = input::find_txn(t, id, 0)->0;
            assert(l == m);
        }
    }
}

proof fn files_stay_valid(s: Seq<TxnView>, t: Seq<TxnView>)
    requires
        input::file_error(s) is None,
        same_transactions(s, t),
    ensures
        input::file_error(t) is None,
{
    valid_files_have_different_ids(s);
    ids_stay_different(s, t);
    same_elements(contents_of(s), contents_of(t));
    assert(contents_of(s).len() == s.len() && contents_of(t).len() == t.len());
    transactions_stay_valid(s, t, 0);
    references_stay_valid(s, t, 0);
}

/// Reordering the transactions of a file, and the credits of its
/// transactions, changes nothing in whether it validates.
pub proof fn validity_ignores_order(s: Seq<TxnView>, t: Seq<TxnView>)
    requires
        same_transactions(s, t),
    ensures
        input::file_error(s) is None <==> input::file_error(t) is None,
{
    if input::file_error(s) is None {
        files_stay_valid(s, t);
    }
    if input::file_error(t) is None {
        files_stay_valid(t, s);
    }
}

// ---- the order of the output ----

pub(crate) proof fn line_order()
    ensures
        order::is_order(|a: CreditLineView, b: CreditLineView| engine::line_lt(a, b)),
{
    let letters = |a: Seq<char>, b: Seq<char>| text::text_lt(a, b);
    let links = |a: Option<Seq<char>>, b: Option<Seq<char>>| engine::optional_lt(a, b);
    let cents = |a: int, b: int| a < b;
    text::text_order();
    optional_order();
    assert(order::is_order(cents));
    let by_txn = order::by_key(|x: CreditLineView| x.transaction_id, letters);
    let by_link = order::by_key(|x: CreditLineView| x.links_original, links);
    let by_rep = order::by_key(|x: CreditLineView| x.rep_id, letters);
    let by_role = order::by_key(|x: CreditLineView| x.role, letters);
    let by_cents = order::by_key(|x: CreditLineView| x.credited_cents, cents);
    order::by_key_is_order(|x: CreditLineView| x.transaction_id, letters);
    order::by_key_is_order(|x: CreditLineView| x.links_original, links);
    order::by_key_is_order(|x: CreditLineView| x.rep_id, letters);
    order::by_key_is_order(|x: CreditLineView| x.role, letters);
    order::by_key_is_order(|x: CreditLineView| x.credited_cents, cents);
    let d = order::by_both(by_role, by_cents);
    let c = order::by_both(by_rep, d);
    let b = order::by_both(by_link, c);
    let a = order::by_both(by_txn, b);
    order::by_both_is_order(by_role, by_cents);
    order::by_both_is_order(by_rep, d);
    order::by_both_is_order(by_link, c);
    order::by_both_is_order(by_txn, b);
    let lt = |a: CreditLineView, b: CreditLineView| engine::line_lt(a, b);
    assert forall|x: CreditLineView, y: CreditLineView| #[trigger] lt(x, y) == a(x, y) by {
        told_apart(x.transaction_id, y.transaction_id);
        told_apart(x.rep_id, y.rep_id);
        told_apart(x.role, y.role);
        match (x.links_original, y.links_original) {
            (Some(p), Some(q)) => told_apart(p, q),
            _ => {},
        }
    }
    assert(lt =~= a);
}

/// Of two letters one comes first, or they are the same.
pub(crate) proof fn told_apart(a: Seq<char>, b: Seq<char>)
    ensures
        a == b <==> !text::text_lt(a, b) && !text::text_lt(b, a),
        !(text::text_lt(a, b) && text::text_lt(b, a)),
{
    text::text_lt_total(a, b);
    text::text_lt_irreflexive(a);
    if text::text_lt(a, b) && text::text_lt(b, a) {
        text::text_lt_transitive(a, b, a);
    }
}

proof fn optional_order()
    ensures
        order::is_order(|a: Option<Seq<char>>, b: Option<Seq<char>>| engine::optional_lt(a, b)),
{
    let lt = |a: Option<Seq<char>>, b: Option<Seq<char>>| engine::optional_lt(a, b);
    let letters = |a: Seq<char>, b: Seq<char>| text::text_lt(a, b);
    text::text_order();
    assert forall|a: Option<Seq<char>>| !#[trigger] lt(a, a) by {
        match a {
            Some(x) => text::text_lt_irreflexive(x),
            None => {},
        }
    }
    assert forall|a: Option<Seq<char>>, b: Option<Seq<char>>, c: Option<Seq<char>>| #[trigger] lt(
        a,
        b,
    ) && #[trigger] lt(b, c) implies lt(a, c) by {
        match (a, b, c) {
            (Some(x), Some(y), Some(z)) => text::text_lt_transitive(x, y, z),
            _ => {},
        }
    }
    assert forall|a: Option<Seq<char>>, b: Option<Seq<char>>, c: Option<Seq<char>>| !#[trigger] lt(
        a,
        b,
    ) && !#[trigger] lt(b, c) implies !lt(a, c) by {
        match (a, b, c) {
            (Some(x), Some(y), Some(z)) => {
                assert(!letters(x, y) && !letters(y, z));
                assert(!letters(x, z));
            },
            _ => {},
        }
    }
}

pub(crate) proof fn summary_order()
    ensures
        order::is_order(|a: SummaryView, b: SummaryView| engine::summary_lt(a, b)),
{
    let letters = |a: Seq<char>, b: Seq<char>| text::text_lt(a, b);
    let numbers = |a: u32, b: u32| a < b;
    text::text_order();
    assert(order::is_order(numbers));
    let by_rep = order::by_key(|x: SummaryView| x.rep_id, letters);
    let by_number = order::by_key(|x: SummaryView| x.plan_version, numbers);
    order::by_key_is_order(|x: SummaryView| x.rep_id, letters);
    order::by_key_is_order(|x: SummaryView| x.plan_version, numbers);
    order::by_both_is_order(by_rep, by_number);
    let a = order::by_both(by_rep, by_number);
    let lt = |a: SummaryView, b: SummaryView| engine::summary_lt(a, b);
    assert forall|x: SummaryView, y: SummaryView| #[trigger] lt(x, y) == a(x, y) by {
        told_apart(x.rep_id, y.rep_id);
    }
    assert(lt =~= a);
}

pub(crate) proof fn finding_order()
    ensures
        order::is_order(|a: FindingView, b: FindingView| engine::finding_lt(a, b)),
{
    let letters = |a: Seq<char>, b: Seq<char>| text::text_lt(a, b);
    text::text_order();
    let by_subject = order::by_key(|x: FindingView| x.subject, letters);
    let by_rule = order::by_key(|x: FindingView| x.rule_id, letters);
    let by_message = order::by_key(|x: FindingView| x.message, letters);
    order::by_key_is_order(|x: FindingView| x.subject, letters);
    order::by_key_is_order(|x: FindingView| x.rule_id, letters);
    order::by_key_is_order(|x: FindingView| x.message, letters);
    let b = order::by_both(by_rule, by_message);
    let a = order::by_both(by_subject, b);
    order::by_both_is_order(by_rule, by_message);
    order::by_both_is_order(by_subject, b);
    let lt = |a: FindingView, b: FindingView| engine::finding_lt(a, b);
    assert forall|x: FindingView, y: FindingView| #[trigger] lt(x, y) == a(x, y) by {
        told_apart(x.subject, y.subject);
        told_apart(x.rule_id, y.rule_id);
    }
    assert(lt =~= a);
}

/// Every output is sorted: credit lines by transaction, link, rep, role, and
/// amount; roll-ups by rep and version number; findings by subject, rule, and
/// message.
pub proof fn outputs_are_sorted(versions: Seq<PlanVersion>, s: Seq<TxnView>)
    requires
        engine::outcome(versions, s) is Ok,
    ensures
        ({
            let out = engine::outcome(versions, s)->Ok_0;
            &&& order::is_sorted(
                out.credit_lines,
                |a: CreditLineView, b: CreditLineView| engine::line_lt(a, b),
            )
            &&& order::is_sorted(
                out.rep_summaries,
                |a: SummaryView, b: SummaryView| engine::summary_lt(a, b),
            )
            &&& order::is_sorted(
                out.findings,
                |a: FindingView, b: FindingView| engine::finding_lt(a, b),
            )
        }),
{
    let x = engine::in_order(s);
    let st = engine::after_returns(versions, x, x.len() as int)->Ok_0;
    let entries = order::stable_sort(st.entries, |a: EntryView, b: EntryView| engine::entry_lt(a, b));
    let r = engine::rollup(versions, entries, entries.len() as int)->Ok_0;
    line_order();
    summary_order();
    finding_order();
    order::stable_sort_sorts(
        st.lines,
        |a: CreditLineView, b: CreditLineView| engine::line_lt(a, b),
    );
    order::stable_sort_sorts(
        r.summaries,
        |a: SummaryView, b: SummaryView| engine::summary_lt(a, b),
    );
    order::stable_sort_sorts(
        st.findings + r.findings,
        |a: FindingView, b: FindingView| engine::finding_lt(a, b),
    );
}

/// Whether entries are of different reps or versions, and of versions of the
/// plan.
pub open spec fn is_kept(entries: Seq<EntryView>, versions: int) -> bool {
    &&& forall|i: int|
        0 <= i < entries.len() ==> 0 <= (#[trigger] entries[i]).version < versions
    &&& forall|i: int, j: int|
        0 <= i < j < entries.len() ==> (#[trigger] entries[i]).rep != (#[trigger] entries[j]).rep
            || entries[i].version != entries[j].version
}

pub(crate) proof fn entry_found(entries: Seq<EntryView>, rep: Seq<char>, version: int, i: int)
    requires
        0 <= i <= entries.len(),
    ensures
        ({
            let k = engine::entry_at(entries, rep, version, i);
            &&& i <= k <= entries.len()
            &&& k < entries.len() ==> entries[k].rep == rep && entries[k].version == version
            &&& k == entries.len() ==> forall|j: int|
                i <= j < entries.len() ==> (#[trigger] entries[j]).rep != rep || entries[j].version
                    != version
        }),
    decreases entries.len() - i,
{
    if i < entries.len() {
        entry_found(entries, rep, version, i + 1);
    }
}

proof fn booking_keeps(
    entries: Seq<EntryView>,
    kind: TxnKind,
    version: int,
    ws: Seq<WinnerView>,
    shares: Seq<int>,
    n: int,
    versions: int,
)
    requires
        is_kept(entries, versions),
        0 <= version < versions,
    ensures
        is_kept(engine::entries_after(entries, kind, version, ws, shares, n), versions),
    decreases n,
{
    if n > 0 {
        booking_keeps(entries, kind, version, ws, shares, n - 1, versions);
        let before = engine::entries_after(entries, kind, version, ws, shares, n - 1);
        entry_found(before, ws[n - 1].rep, version, 0);
    }
}

/// Whether the entries of a run are kept, and its sales are under versions of
/// the plan.
pub open spec fn run_kept(st: engine::RunView, versions: int) -> bool {
    &&& is_kept(st.entries, versions)
    &&& forall|i: int|
        0 <= i < st.resolved.len() ==> 0 <= (#[trigger] st.resolved[i]).version < versions
}

pub(crate) proof fn version_found(versions: Seq<PlanVersion>, day: int, i: int)
    requires
        0 <= i,
    ensures
        config::version_on(versions, day, i) matches Some(k) ==> i <= k < versions.len(),
    decreases versions.len() - i,
{
    if i < versions.len() {
        version_found(versions, day, i + 1);
    }
}

pub(crate) proof fn sales_keep(versions: Seq<PlanVersion>, s: Seq<TxnView>, n: int)
    requires
        engine::after_sales(versions, s, n) is Ok,
    ensures
        run_kept(engine::after_sales(versions, s, n)->Ok_0, versions.len() as int),
    decreases n,
{
    if n > 0 {
        sales_keep(versions, s, n - 1);
        let st = engine::after_sales(versions, s, n - 1)->Ok_0;
        let t = s[n - 1];
        if t.kind == TxnKind::Sale {
            version_found(versions, t.day, 0);
            match config::version_on(versions, t.day, 0) {
                Some(vi) => {
                    let ws = engine::winners_of(t.credits);
                    match engine::split_for(versions[vi], ws, t.amount_cents) {
                        Ok(shares) => {
                            booking_keeps(
                                st.entries,
                                t.kind,
                                vi,
                                ws,
                                shares,
                                ws.len() as int,
                                versions.len() as int,
                            );
                        },
                        Err(_) => {},
                    }
                },
                None => {},
            }
        }
    }
}

pub(crate) proof fn resolved_found(resolved: Seq<engine::ResolvedView>, id: Seq<char>, n: int)
    requires
        0 <= n <= resolved.len(),
    ensures
        engine::resolved_at(resolved, id, n) matches Some(k) ==> 0 <= k < n,
    decreases n,
{
    if n > 0 {
        resolved_found(resolved, id, n - 1);
    }
}

pub(crate) proof fn returns_keep(versions: Seq<PlanVersion>, s: Seq<TxnView>, n: int)
    requires
        engine::after_returns(versions, s, n) is Ok,
    ensures
        run_kept(engine::after_returns(versions, s, n)->Ok_0, versions.len() as int),
    decreases n,
{
    if n > 0 {
        returns_keep(versions, s, n - 1);
        let st = engine::after_returns(versions, s, n - 1)->Ok_0;
        let t = s[n - 1];
        if t.kind == TxnKind::Return && t.original is Some && !text::is_blank(t.original->0) {
            let m = st.resolved.len() as int;
            let at = engine::resolved_at(st.resolved, t.original->0, m);
            resolved_found(st.resolved, t.original->0, m);
            if at is Some {
                let sale = st.resolved[at->0];
                match engine::split_for(versions[sale.version], sale.winners, t.amount_cents) {
                    Ok(shares) => {
                        booking_keeps(
                            st.entries,
                            t.kind,
                            sale.version,
                            sale.winners,
                            shares,
                            sale.winners.len() as int,
                            versions.len() as int,
                        );
                    },
                    Err(_) => {},
                }
            }
        }
    } else {
        sales_keep(versions, s, s.len() as int);
    }
}

pub(crate) proof fn rollup_keeps(versions: Seq<PlanVersion>, entries: Seq<EntryView>, n: int)
    requires
        0 <= n <= entries.len(),
        engine::rollup(versions, entries, n) is Ok,
    ensures
        ({
            let r = engine::rollup(versions, entries, n)->Ok_0.summaries;
            &&& r.len() == n
            &&& forall|i: int|
                0 <= i < n ==> (#[trigger] r[i]).rep_id == entries[i].rep && r[i].plan_version
                    == versions[entries[i].version].version
        }),
    decreases n,
{
    if n > 0 {
        rollup_keeps(versions, entries, n - 1);
    }
}

/// Under a valid plan the roll-ups rise strictly by rep and version number:
/// there is one of each rep under each version at most.
pub proof fn rollups_rise(p: PlanConfig, s: Seq<TxnView>)
    requires
        config::plan_error(p) is None,
        engine::outcome(p.versions@, s) is Ok,
    ensures
        order::rises(
            engine::outcome(p.versions@, s)->Ok_0.rep_summaries,
            |a: SummaryView, b: SummaryView| engine::summary_lt(a, b),
        ),
{
    let versions = p.versions@;
    let x = engine::in_order(s);
    let st = engine::after_returns(versions, x, x.len() as int)->Ok_0;
    let sorted = order::stable_sort(st.entries, |a: EntryView, b: EntryView| engine::entry_lt(a, b));
    let n = sorted.len() as int;
    let r = engine::rollup(versions, sorted, n)->Ok_0.summaries;
    let lt = |a: SummaryView, b: SummaryView| engine::summary_lt(a, b);
    returns_keep(versions, x, x.len() as int);
    entries_stay_kept(st.entries, versions.len() as int);
    rollup_keeps(versions, sorted, n);
    assert forall|i: int, j: int| 0 <= i < j < n implies (#[trigger] r[i]).rep_id != (
    #[trigger] r[j]).rep_id || r[i].plan_version != r[j].plan_version by {
        let a = sorted[i].version;
        let b = sorted[j].version;
        if a < b {
            placed(versions, 0, b);
            assert(!config::number_seen(versions, b, versions[b].version));
        } else if b < a {
            placed(versions, 0, a);
            assert(!config::number_seen(versions, a, versions[a].version));
        }
    }
    assert forall|a: SummaryView, b: SummaryView|
        r.contains(a) && r.contains(b) && a != b implies #[trigger] lt(a, b) || lt(b, a) by {
        let i = choose|i: int| 0 <= i < r.len() && r[i] == a;
        let j = choose|j: int| 0 <= j < r.len() && r[j] == b;
        if i < j {
            assert(r[i].rep_id != r[j].rep_id || r[i].plan_version != r[j].plan_version);
        } else {
            assert(r[j].rep_id != r[i].rep_id || r[j].plan_version != r[i].plan_version);
        }
        told_apart(a.rep_id, b.rep_id);
    }
    summary_order();
    order::stable_sort_rises(r, lt);
}

pub(crate) proof fn entries_stay_kept(entries: Seq<EntryView>, versions: int)
    requires
        is_kept(entries, versions),
    ensures
        is_kept(
            order::stable_sort(entries, |a: EntryView, b: EntryView| engine::entry_lt(a, b)),
            versions,
        ),
{
    let lt = |a: EntryView, b: EntryView| engine::entry_lt(a, b);
    let sorted = order::stable_sort(entries, lt);
    order::stable_sort_keeps(entries, lt);
    same_elements(sorted, entries);
    assert(entries.no_duplicates());
    entries.lemma_multiset_has_no_duplicates();
    sorted.lemma_multiset_has_no_duplicates_conv();
    assert forall|i: int| 0 <= i < sorted.len() implies 0 <= (#[trigger] sorted[i]).version
        < versions by {
        assert(sorted.contains(sorted[i]));
        assert(entries.contains(sorted[i]));
        let k = choose|k: int| 0 <= k < entries.len() && entries[k] == sorted[i];
        assert(0 <= entries[k].version < versions);
    }
    assert forall|i: int, j: int| 0 <= i < j < sorted.len() implies (#[trigger] sorted[i]).rep != (
    #[trigger] sorted[j]).rep || sorted[i].version != sorted[j].version by {
        assert(sorted.contains(sorted[i]) && sorted.contains(sorted[j]));
        assert(entries.contains(sorted[i]) && entries.contains(sorted[j]));
        let k = choose|k: int| 0 <= k < entries.len() && entries[k] == sorted[i];
        let l = choose|l: int| 0 <= l < entries.len() && entries[l] == sorted[j];
        assert(sorted[i] != sorted[j]);
        if k < l {
            assert(entries[k].rep != entries[l].rep || entries[k].version != entries[l].version);
        } else {
            assert(entries[l].rep != entries[k].rep || entries[l].version != entries[k].version);
        }
    }
}

// ---- what is credited ----

/// The sum of what the first `n` lines of a transaction credit.
proof fn lines_total(t: TxnView, ws: Seq<WinnerView>, shares: Seq<int>, n: int)
    requires
        0 <= n <= shares.len(),
    ensures
        engine::lines_of(t, ws, shares, n).len() == n,
        order::sum_of(engine::lines_of(t, ws, shares, n), |l: CreditLineView| l.credited_cents)
            == (if t.kind == TxnKind::Sale {
            split::total(shares.take(n))
        } else {
            -split::total(shares.take(n))
        }),
    decreases n,
{
    if n > 0 {
        lines_total(t, ws, shares, n - 1);
        let l = engine::lines_of(t, ws, shares, n);
        assert(l.drop_last() =~= engine::lines_of(t, ws, shares, n - 1));
        assert(shares.take(n).drop_last() =~= shares.take(n - 1));
    } else {
        assert(shares.take(n) =~= Seq::<int>::empty());
    }
}

/// The credit lines of a sale add up to exactly its amount, and those of a
/// return to exactly minus its amount.
pub proof fn credit_lines_add_up(v: PlanVersion, t: TxnView, ws: Seq<WinnerView>)
    requires
        0 < ws.len() <= usize::MAX,
        t.amount_cents >= 0,
        engine::weights_positive(v),
        engine::split_for(v, ws, t.amount_cents) is Ok,
    ensures
        order::sum_of(
            engine::lines_of(
                t,
                ws,
                engine::split_for(v, ws, t.amount_cents)->Ok_0,
                ws.len() as int,
            ),
            |l: CreditLineView| l.credited_cents,
        ) == (if t.kind == TxnKind::Sale {
            t.amount_cents
        } else {
            -t.amount_cents
        }),
{
    let weights = engine::weights_for(v, ws, ws.len() as int)->Ok_0;
    weights_found(v, ws, ws.len() as int);
    split::shares_sum_exactly(t.amount_cents, weights);
    let shares = split::shares(t.amount_cents, weights);
    lines_total(t, ws, shares, ws.len() as int);
    assert(shares.take(ws.len() as int) =~= shares);
}

pub(crate) proof fn weights_found(v: PlanVersion, ws: Seq<WinnerView>, n: int)
    requires
        0 <= n <= ws.len(),
        engine::weights_positive(v),
        engine::weights_for(v, ws, n) is Ok,
    ensures
        engine::weights_for(v, ws, n)->Ok_0.len() == n,
        forall|i: int| 0 <= i < n ==> (#[trigger] engine::weights_for(v, ws, n)->Ok_0[i]) > 0,
    decreases n,
{
    if n > 0 {
        weights_found(v, ws, n - 1);
        engine::found_weight_positive(v, ws[n - 1].role, 0);
    }
}

/// A return of the whole amount takes back every share to the cent.
pub proof fn full_return_reverses_every_share(
    sale: TxnView,
    back: TxnView,
    ws: Seq<WinnerView>,
    shares: Seq<int>,
    n: int,
    k: int,
)
    requires
        sale.kind == TxnKind::Sale,
        back.kind == TxnKind::Return,
        0 <= k < n <= ws.len(),
    ensures
        engine::lines_of(sale, ws, shares, n).len() == n,
        engine::lines_of(back, ws, shares, n).len() == n,
        engine::lines_of(back, ws, shares, n)[k].credited_cents == -engine::lines_of(
            sale,
            ws,
            shares,
            n,
        )[k].credited_cents,
        engine::lines_of(back, ws, shares, n)[k].rep_id == engine::lines_of(
            sale,
            ws,
            shares,
            n,
        )[k].rep_id,
        engine::lines_of(back, ws, shares, n)[k].links_original == back.original,
    decreases n,
{
    lines_count(sale, ws, shares, n - 1);
    lines_count(back, ws, shares, n - 1);
    if k < n - 1 {
        full_return_reverses_every_share(sale, back, ws, shares, n - 1, k);
    }
}

pub(crate) proof fn lines_count(t: TxnView, ws: Seq<WinnerView>, shares: Seq<int>, n: int)
    requires
        0 <= n,
    ensures
        engine::lines_of(t, ws, shares, n).len() == n,
    decreases n,
{
    if n > 0 {
        lines_count(t, ws, shares, n - 1);
    }
}

proof fn lines_link(t: TxnView, ws: Seq<WinnerView>, shares: Seq<int>, n: int)
    requires
        t.kind == TxnKind::Return ==> t.original is Some,
    ensures
        forall|k: int|
            0 <= k < engine::lines_of(t, ws, shares, n).len() ==> ((#[trigger] engine::lines_of(
                t,
                ws,
                shares,
                n,
            )[k]).links_original is Some <==> t.kind == TxnKind::Return),
    decreases n,
{
    if n > 0 {
        lines_link(t, ws, shares, n - 1);
    }
}

/// Whether no line reverses another.
pub open spec fn all_credit(lines: Seq<CreditLineView>) -> bool {
    forall|k: int| 0 <= k < lines.len() ==> (#[trigger] lines[k]).links_original is None
}

/// Whether every line reverses another.
pub open spec fn all_reverse(lines: Seq<CreditLineView>) -> bool {
    forall|k: int| 0 <= k < lines.len() ==> (#[trigger] lines[k]).links_original is Some
}

proof fn sales_credit(versions: Seq<PlanVersion>, s: Seq<TxnView>, n: int)
    requires
        engine::after_sales(versions, s, n) is Ok,
    ensures
        all_credit(engine::after_sales(versions, s, n)->Ok_0.lines),
    decreases n,
{
    if n > 0 {
        sales_credit(versions, s, n - 1);
        let t = s[n - 1];
        if t.kind == TxnKind::Sale {
            match config::version_on(versions, t.day, 0) {
                Some(vi) => {
                    let ws = engine::winners_of(t.credits);
                    match engine::split_for(versions[vi], ws, t.amount_cents) {
                        Ok(shares) => lines_link(t, ws, shares, ws.len() as int),
                        Err(_) => {},
                    }
                },
                None => {},
            }
        }
    }
}

proof fn returns_add(versions: Seq<PlanVersion>, s: Seq<TxnView>, n: int) -> (more: Seq<
    CreditLineView,
>)
    requires
        engine::after_returns(versions, s, n) is Ok,
    ensures
        engine::after_sales(versions, s, s.len() as int) is Ok,
        engine::after_returns(versions, s, n)->Ok_0.lines == engine::after_sales(
            versions,
            s,
            s.len() as int,
        )->Ok_0.lines + more,
        all_reverse(more),
    decreases n,
{
    if n <= 0 {
        let sold = engine::after_sales(versions, s, s.len() as int)->Ok_0.lines;
        let none = Seq::<CreditLineView>::empty();
        assert(sold + none =~= sold);
        none
    } else {
        let before = returns_add(versions, s, n - 1);
        let sold = engine::after_sales(versions, s, s.len() as int)->Ok_0.lines;
        let st = engine::after_returns(versions, s, n - 1)->Ok_0;
        let now = engine::after_returns(versions, s, n)->Ok_0;
        let t = s[n - 1];
        if now.lines == st.lines {
            before
        } else {
            let at = engine::resolved_at(st.resolved, t.original->0, st.resolved.len() as int);
            let sale = st.resolved[at->0];
            let shares = engine::split_for(
                versions[sale.version],
                sale.winners,
                t.amount_cents,
            )->Ok_0;
            let n = sale.winners.len() as int;
            lines_link(t, sale.winners, shares, n);
            let added = engine::lines_of(t, sale.winners, shares, n);
            assert(now.lines == st.lines + added);
            assert(now.lines =~= sold + (before + added));
            before + added
        }
    }
}

/// Returns never touch what sales credited: the credit lines are those of the
/// sales as they were booked, and further lines that reverse.
pub proof fn returns_only_add_lines(versions: Seq<PlanVersion>, s: Seq<TxnView>) -> (more: Seq<
    CreditLineView,
>)
    requires
        engine::outcome(versions, s) is Ok,
    ensures
        ({
            let x = engine::in_order(s);
            let sold = engine::after_sales(versions, x, x.len() as int)->Ok_0.lines;
            &&& engine::outcome(versions, s)->Ok_0.credit_lines.to_multiset() == (sold
                + more).to_multiset()
            &&& all_credit(sold)
            &&& all_reverse(more)
        }),
{
    let x = engine::in_order(s);
    let n = x.len() as int;
    let more = returns_add(versions, x, n);
    sales_credit(versions, x, n);
    order::stable_sort_keeps(
        engine::after_returns(versions, x, n)->Ok_0.lines,
        |a: CreditLineView, b: CreditLineView| engine::line_lt(a, b),
    );
    more
}

/// A valid plan has at most one version in force on any day.
pub proof fn one_version_in_force(p: PlanConfig, i: int, j: int, day: int)
    requires
        config::plan_error(p) is None,
        0 <= i < j < p.versions@.len(),
        config::in_force(p.versions@[i], day),
    ensures
        !config::in_force(p.versions@[j], day),
{
    starts_after_end(p.versions@, i, j);
}

pub(crate) proof fn placed(vs: Seq<PlanVersion>, from: int, i: int)
    requires
        0 <= from <= i < vs.len(),
        config::versions_error(vs, from) is None,
    ensures
        config::placed_error(vs, i) is None,
    decreases i - from,
{
    if from < i {
        placed(vs, from + 1, i);
    }
}

pub(crate) proof fn starts_after_end(vs: Seq<PlanVersion>, i: int, j: int)
    requires
        config::versions_error(vs, 0) is None,
        0 <= i < j < vs.len(),
    ensures
        vs[i].effective_to is Some,
        vs[i].effective_to->0.day() < vs[j].effective_from.day(),
    decreases j - i,
{
    placed(vs, 0, j);
    placed(vs, 0, i + 1);
    if i + 1 < j {
        starts_after_end(vs, i + 1, j);
        placed(vs, 0, i + 1);
    }
}

/// Each band's slice of the basis adds up to the part of the basis that the
/// bands reach.
proof fn slices_add_up(v: PlanVersion, basis: int, n: int)
    requires
        0 <= n <= v.bands.len(),
        bands::marginal_parts(v, basis, n) is Ok,
    ensures
        ({
            let m = bands::marginal_parts(v, basis, n)->Ok_0;
            &&& order::sum_of(m.parts.slices, |s: SliceView| s.slice_cents) == m.taken
            &&& order::sum_of(m.parts.slices, |s: SliceView| s.commission_cents) == m.parts.total
            &&& m.taken >= 0
            &&& m.taken <= basis || m.taken == 0
        }),
    decreases n,
{
    if n > 0 {
        slices_add_up(v, basis, n - 1);
        let before = bands::marginal_parts(v, basis, n - 1)->Ok_0;
        let m = bands::marginal_parts(v, basis, n)->Ok_0;
        if m.parts.slices.len() > before.parts.slices.len() {
            assert(m.parts.slices.drop_last() =~= before.parts.slices);
        }
    }
}

/// Under a plan whose last band is open, the marginal slices cover the whole
/// basis, and the commission is the sum of what the slices pay.
pub proof fn marginal_slices_cover_the_basis(v: PlanVersion, basis: int)
    requires
        0 < basis,
        0 < v.bands.len(),
        v.bands@[v.bands.len() - 1].up_to_ppm is None,
        bands::marginal_parts(v, basis, v.bands.len() as int) is Ok,
    ensures
        ({
            let m = bands::marginal_parts(v, basis, v.bands.len() as int)->Ok_0;
            &&& order::sum_of(m.parts.slices, |s: SliceView| s.slice_cents) == basis
            &&& order::sum_of(m.parts.slices, |s: SliceView| s.commission_cents) == m.parts.total
        }),
{
    let n = v.bands.len() as int;
    slices_add_up(v, basis, n);
    slices_add_up(v, basis, n - 1);
}

proof fn rounding_rises(a: int, b: int, rate: int)
    requires
        0 <= a <= b,
        0 <= rate,
    ensures
        0 <= bands::rounded(a * rate, config::BASIS_POINTS as int) <= bands::rounded(
            b * rate,
            config::BASIS_POINTS as int,
        ),
{
    let x = a * rate;
    let y = b * rate;
    assert(0 <= x <= y) by (nonlinear_arith)
        requires
            x == a * rate,
            y == b * rate,
            0 <= a <= b,
            0 <= rate,
    ;
}

/// A greater basis reaches as far into the bands and pays as much on the way.
proof fn marginal_rises(v: PlanVersion, x: int, y: int, n: int)
    requires
        0 < x <= y,
        0 <= n <= v.bands.len(),
        bands::marginal_parts(v, x, n) is Ok,
        bands::marginal_parts(v, y, n) is Ok,
    ensures
        ({
            let a = bands::marginal_parts(v, x, n)->Ok_0;
            let b = bands::marginal_parts(v, y, n)->Ok_0;
            &&& 0 <= a.taken <= x
            &&& a.taken == b.taken || a.taken == x
            &&& a.taken <= b.taken <= y
            &&& 0 <= a.parts.total <= b.parts.total
        }),
    decreases n,
{
    if n > 0 {
        marginal_rises(v, x, y, n - 1);
        let a = bands::marginal_parts(v, x, n - 1)->Ok_0;
        let b = bands::marginal_parts(v, y, n - 1)->Ok_0;
        let p = bands::reach_of(v, x, n - 1)->Ok_0;
        let q = bands::reach_of(v, y, n - 1)->Ok_0;
        let rate = v.bands@[n - 1].rate_bps as int;
        if q > b.taken {
            rounding_rises(0, q - b.taken, rate);
            if p > a.taken {
                rounding_rises(p - a.taken, q - b.taken, rate);
            }
        }
    }
}

/// Under marginal bands more revenue never pays less.
pub proof fn more_revenue_never_pays_less(v: PlanVersion, a: int, b: int)
    requires
        v.band_mode == BandMode::Marginal,
        a <= b,
        bands::parts_of(v, a) is Ok,
        bands::parts_of(v, b) is Ok,
    ensures
        0 <= bands::parts_of(v, a)->Ok_0.total <= bands::parts_of(v, b)->Ok_0.total,
{
    if b > 0 {
        let n = v.bands.len() as int;
        let y = bands::basis_of(v, b)->Ok_0;
        if y > 0 {
            marginal_rises(v, y, y, n);
            if a > 0 {
                let x = bands::basis_of(v, a)->Ok_0;
                if x > 0 {
                    marginal_rises(v, x, y, n);
                }
            }
        }
    }
}

/// Under marginal bands revenue beyond the windfall cap pays nothing more: it
/// pays what the capped revenue pays, by the same slices.
pub proof fn revenue_beyond_the_cap_pays_nothing_more(v: PlanVersion, cap: u64, revenue: int)
    requires
        v.band_mode == BandMode::Marginal,
        v.windfall_cap_ppm == Some(cap),
        cap * v.quota_cents / (config::ATTAINMENT_SCALE as int) <= revenue,
        bands::parts_of(v, revenue) is Ok,
    ensures
        bands::parts_of(v, cap * v.quota_cents / (config::ATTAINMENT_SCALE as int))
            == bands::parts_of(v, revenue),
{
}

/// Crediting adds up: booking shares moves the sums of the entries by exactly
/// what is booked.
pub proof fn booking_adds_up(
    entries: Seq<EntryView>,
    kind: TxnKind,
    version: int,
    ws: Seq<WinnerView>,
    shares: Seq<int>,
    n: int,
)
    requires
        0 <= n <= shares.len(),
    ensures
        engine::gross_sum(engine::entries_after(entries, kind, version, ws, shares, n))
            == engine::gross_sum(entries) + (if kind == TxnKind::Sale {
            split::total(shares.take(n))
        } else {
            0
        }),
        engine::returned_sum(engine::entries_after(entries, kind, version, ws, shares, n))
            == engine::returned_sum(entries) + (if kind == TxnKind::Return {
            split::total(shares.take(n))
        } else {
            0
        }),
    decreases n,
{
    if n > 0 {
        booking_adds_up(entries, kind, version, ws, shares, n - 1);
        let before = engine::entries_after(entries, kind, version, ws, shares, n - 1);
        assert(shares.take(n).drop_last() =~= shares.take(n - 1));
        match kind {
            TxnKind::Sale => engine::credited_sums(before, ws[n - 1].rep, version, shares[n - 1], 0),
            TxnKind::Return => engine::credited_sums(
                before,
                ws[n - 1].rep,
                version,
                0,
                shares[n - 1],
            ),
        }
    } else {
        assert(shares.take(n) =~= Seq::<int>::empty());
    }
}

/// A computed document with receipts and a new seal verifies, for the bytes
/// that it was computed from, exactly when every gated finding is approved.
pub proof fn computed_documents_verify_once_resolved(
    plan: Result<PlanConfig, String>,
    txns: Result<TransactionsFile, String>,
    plan_bytes: Seq<u8>,
    txn_bytes: Seq<u8>,
    engine_id: Seq<char>,
    signoffs: Seq<SignoffView>,
)
    requires
        evidence::document_pack(plan, txns, plan_bytes, txn_bytes, engine_id) is Ok,
    ensures
        ({
            let made = evidence::document_pack(plan, txns, plan_bytes, txn_bytes, engine_id)->Ok_0;
            let p = spine::sealed_view(PackView { signoffs, ..made });
            evidence::is_reproduced(p, plan, txns, plan_bytes, txn_bytes) <==> spine::all_resolved(
                p,
            )
        }),
{
    let made = evidence::document_pack(plan, txns, plan_bytes, txn_bytes, engine_id)->Ok_0;
    let bare = PackView { signoffs, ..made };
    let p = spine::sealed_view(bare);
    assert(spine::body_text(p) == spine::body_text(bare));
}

/// A document whose findings a run does not reproduce is never accepted,
/// whatever its seal and its receipts.
pub proof fn other_findings_are_refused(
    pack: PackView,
    plan: Result<PlanConfig, String>,
    txns: Result<TransactionsFile, String>,
    plan_bytes: Seq<u8>,
    txn_bytes: Seq<u8>,
    r: Result<(), VerifyFailure>,
)
    requires
        evidence::recomputed(plan, txns) matches Ok(out) && out.findings != pack.findings,
        evidence::document_verdict(pack, plan, txns, plan_bytes, txn_bytes, r),
    ensures
        r == Err::<(), VerifyFailure>(VerifyFailure::FindingsDiverged),
{
}

} // verus!
