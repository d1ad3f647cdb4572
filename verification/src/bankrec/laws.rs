//! What holds of every reconciliation run.

use vstd::prelude::*;

use crate::bankrec::config::BankrecConfig;
use crate::bankrec::engine;
use crate::bankrec::engine::{MatchTier, MatchView, Pairing, Side, UnmatchedView, MIN_GROUP_SIZE};
use crate::bankrec::inputs::{InputsView, LineView};
use crate::order;
use crate::spine;
use crate::spine::{FindingView, Severity, SignoffView};
use crate::text;

verus! {

/// Whether a match is what its tier says: one ledger line with the
/// reference and amount of the statement line; one with its reference and
/// another amount within the window; or a group of allowed size, each line once, of the statement
/// line's direction, within the date window, whose sum is within the window.
pub open spec fn is_valid(v: InputsView, config: BankrecConfig, m: Pairing) -> bool {
    let s = v.statements[m.statement as int];
    &&& m.statement < v.statements.len()
    &&& forall|k: int| 0 <= k < m.ledgers.len() ==> (#[trigger] m.ledgers[k]) < v.ledgers.len()
    &&& match m.tier {
        MatchTier::Exact => {
            &&& m.ledgers.len() == 1
            &&& v.ledgers[m.ledgers[0] as int].reference == s.reference
            &&& v.ledgers[m.ledgers[0] as int].amount == s.amount
        },
        MatchTier::Tolerance => {
            &&& m.ledgers.len() == 1
            &&& v.ledgers[m.ledgers[0] as int].reference == s.reference
            &&& 0 < engine::distance(v, m.statement as int, m.ledgers[0] as int)
                <= config.tolerance_cents
        },
        MatchTier::ManyToOne => {
            &&& MIN_GROUP_SIZE <= m.ledgers.len() <= config.max_group_size
            &&& engine::magnitude(engine::total(v.ledgers, m.ledgers) - s.amount) <= config.tolerance_cents
            &&& m.ledgers.no_duplicates()
            &&& forall|k: int|
                0 <= k < m.ledgers.len() ==> (v.ledgers[(#[trigger] m.ledgers[k]) as int].amount
                    > 0) == (s.amount > 0) && (config.many_to_one_date_window_days is Some
                    ==> engine::magnitude(v.ledgers[m.ledgers[k] as int].day - s.day)
                    <= config.many_to_one_date_window_days->0)
        },
    }
}

/// Whether no line is in two matches.
pub open spec fn is_disjoint(p: Seq<Pairing>) -> bool {
    forall|i: int, j: int|
        #![trigger p[i], p[j]]
        0 <= i < j < p.len() ==> p[i].statement != p[j].statement && (forall|l: usize|
            !(#[trigger] p[i].ledgers.contains(l) && p[j].ledgers.contains(l)))
}

spec fn is_sound(v: InputsView, config: BankrecConfig, p: Seq<Pairing>) -> bool {
    &&& is_disjoint(p)
    &&& forall|i: int| 0 <= i < p.len() ==> is_valid(v, config, #[trigger] p[i])
}

proof fn push_keeps_sound(v: InputsView, config: BankrecConfig, p: Seq<Pairing>, m: Pairing)
    requires
        is_sound(v, config, p),
        is_valid(v, config, m),
        engine::statement_open(p, m.statement),
        forall|k: int| 0 <= k < m.ledgers.len() ==> engine::ledger_open(p, #[trigger] m.ledgers[k]),
    ensures
        is_sound(v, config, p.push(m)),
{
    let q = p.push(m);
    assert forall|i: int, j: int| #![trigger q[i], q[j]] 0 <= i < j < q.len() implies q[i].statement
        != q[j].statement && (forall|l: usize|
        !(#[trigger] q[i].ledgers.contains(l) && q[j].ledgers.contains(l))) by {
        assert(q[i] == p[i]);
        if j < p.len() {
            assert(q[j] == p[j]);
        } else {
            assert(q[j] == m);
            assert forall|l: usize| !(#[trigger] q[i].ledgers.contains(l) && q[j].ledgers.contains(
                l,
            )) by {
                if m.ledgers.contains(l) {
                    let k = choose|k: int| 0 <= k < m.ledgers.len() && m.ledgers[k] == l;
                    assert(engine::ledger_open(p, m.ledgers[k]));
                    assert(!p[i].ledgers.contains(l));
                }
            }
        }
    }
    assert forall|i: int| 0 <= i < q.len() implies is_valid(v, config, #[trigger] q[i]) by {
        if i < p.len() {
            assert(q[i] == p[i]);
        }
    }
}

pub(crate) proof fn exact_hit_is_open(v: InputsView, p: Seq<Pairing>, s: int, l: int)
    requires
        0 <= l,
        v.ledgers.len() <= usize::MAX,
    ensures
        (match engine::exact_hit(v, p, s, l) {
            Some(x) => {
                &&& l <= x < v.ledgers.len()
                &&& engine::ledger_open(p, x)
                &&& v.ledgers[x as int].reference == v.statements[s].reference
                &&& v.ledgers[x as int].amount == v.statements[s].amount
            },
            None => forall|x: int|
                l <= x < v.ledgers.len() ==> !((#[trigger] v.ledgers[x]).reference
                    == v.statements[s].reference && v.ledgers[x].amount == v.statements[s].amount
                    && engine::ledger_open(p, x as usize)),
        }),
    decreases v.ledgers.len() - l,
{
    if l < v.ledgers.len() {
        exact_hit_is_open(v, p, s, l + 1);
    }
}

pub(crate) proof fn closest_is_open(v: InputsView, p: Seq<Pairing>, s: int, tolerance: int, n: int)
    requires
        n <= v.ledgers.len() <= usize::MAX,
    ensures
        (match engine::closest(v, p, s, tolerance, n) {
            Some(x) => {
                &&& 0 <= x < n
                &&& engine::ledger_open(p, x)
                &&& v.ledgers[x as int].reference == v.statements[s].reference
                &&& engine::distance(v, s, x as int) <= tolerance
                &&& forall|y: int|
                    0 <= y < n && (#[trigger] v.ledgers[y]).reference == v.statements[s].reference
                        && engine::ledger_open(p, y as usize) ==> engine::distance(v, s, x as int) <= engine::distance(
                        v,
                        s,
                        y,
                    )
            },
            None => forall|y: int|
                0 <= y < n ==> !((#[trigger] v.ledgers[y]).reference == v.statements[s].reference
                    && engine::distance(v, s, y) <= tolerance && engine::ledger_open(p, y as usize)),
        }),
    decreases n,
{
    if n > 0 {
        closest_is_open(v, p, s, tolerance, n - 1);
    }
}

proof fn exact_pairs_sound(v: InputsView, config: BankrecConfig, n: int)
    requires
        0 <= n <= v.statements.len() <= usize::MAX,
        v.ledgers.len() <= usize::MAX,
    ensures
        is_sound(v, config, engine::exact_pairs(v, n)),
        forall|i: int|
            0 <= i < engine::exact_pairs(v, n).len() ==> (#[trigger] engine::exact_pairs(v, n)[i]).statement < n,
    decreases n,
{
    if n > 0 {
        exact_pairs_sound(v, config, n - 1);
        let p = engine::exact_pairs(v, n - 1);
        exact_hit_is_open(v, p, n - 1, 0);
        match engine::exact_hit(v, p, n - 1, 0) {
            Some(l) => {
                let m = Pairing {
                    tier: MatchTier::Exact,
                    statement: (n - 1) as usize,
                    ledgers: seq![l],
                };
                push_keeps_sound(v, config, p, m);
            },
            None => {},
        }
    }
}

proof fn tolerance_pairs_sound(v: InputsView, config: BankrecConfig, n: int)
    requires
        0 <= n <= v.statements.len() <= usize::MAX,
        v.ledgers.len() <= usize::MAX,
    ensures
        is_sound(v, config, engine::tolerance_pairs(v, config.tolerance_cents as int, n)),
    decreases n,
{
    let tolerance = config.tolerance_cents as int;
    if n <= 0 {
        exact_pairs_sound(v, config, v.statements.len() as int);
    } else {
        tolerance_pairs_sound(v, config, n - 1);
        let p = engine::tolerance_pairs(v, tolerance, n - 1);
        if engine::statement_open(p, (n - 1) as usize) {
            closest_is_open(v, p, n - 1, tolerance, v.ledgers.len() as int);
            match engine::closest(v, p, n - 1, tolerance, v.ledgers.len() as int) {
                Some(l) => {
                    let m = Pairing {
                        tier: MatchTier::Tolerance,
                        statement: (n - 1) as usize,
                        ledgers: seq![l],
                    };
                    tolerance_pairs_extend(v, tolerance, 0, n - 1);
                    exact_lines_are_taken(v, p, n - 1, l as int);
                    push_keeps_sound(v, config, p, m);
                },
                None => {},
            }
        }
    }
}

proof fn eligibles_ascend(v: InputsView, window: Option<i64>, p: Seq<Pairing>, s: int, n: int)
    requires
        0 <= n <= v.ledgers.len() <= usize::MAX,
    ensures
        forall|k: int|
            0 <= k < engine::eligibles(v, window, p, s, n).len() ==> (#[trigger] engine::eligibles(
                v,
                window,
                p,
                s,
                n,
            )[k]) < n,
        engine::eligibles(v, window, p, s, n).no_duplicates(),
    decreases n,
{
    if n > 0 {
        eligibles_ascend(v, window, p, s, n - 1);
    }
}

proof fn candidates_distinct(
    v: InputsView,
    window: Option<i64>,
    cap: nat,
    p: Seq<Pairing>,
    s: int,
)
    requires
        v.ledgers.len() <= usize::MAX,
    ensures
        engine::candidates(v, window, cap, p, s).no_duplicates(),
{
    let all = engine::eligibles(v, window, p, s, v.ledgers.len() as int);
    let lt = |a: usize, b: usize| engine::line_lt(v.ledgers, a, b);
    eligibles_ascend(v, window, p, s, v.ledgers.len() as int);
    order::stable_sort_keeps(all, lt);
    let sorted = order::stable_sort(all, lt);
    all.lemma_multiset_has_no_duplicates();
    sorted.lemma_multiset_has_no_duplicates_conv();
}

proof fn pick_is_distinct(c: Seq<usize>, i: int, g: Seq<usize>)
    requires
        0 <= i,
        c.no_duplicates(),
        engine::is_pick(c, i, g),
    ensures
        g.no_duplicates(),
        forall|k: int|
            0 <= k < g.len() ==> exists|j: int| i <= j < c.len() && c[j] == #[trigger] g[k],
    decreases c.len() - i,
{
    if g.len() > 0 {
        if g[0] == c[i] && engine::is_pick(c, i + 1, g.drop_first()) {
            let t = g.drop_first();
            pick_is_distinct(c, i + 1, t);
            assert forall|k: int| 0 <= k < g.len() implies exists|j: int|
                i <= j < c.len() && c[j] == #[trigger] g[k] by {
                if k > 0 {
                    assert(t[k - 1] == g[k]);
                    let j = choose|j: int| i + 1 <= j < c.len() && c[j] == t[k - 1];
                    assert(c[j] == g[k]);
                } else {
                    assert(c[i] == g[k]);
                }
            }
            assert forall|a: int, b: int| 0 <= a < b < g.len() implies g[a] != g[b] by {
                assert(t[b - 1] == g[b]);
                if a == 0 {
                    let j = choose|j: int| i + 1 <= j < c.len() && c[j] == t[b - 1];
                    assert(c[i] != c[j]);
                } else {
                    assert(t[a - 1] == g[a]);
                }
            }
        } else {
            pick_is_distinct(c, i + 1, g);
            assert forall|k: int| 0 <= k < g.len() implies exists|j: int|
                i <= j < c.len() && c[j] == #[trigger] g[k] by {
                let j = choose|j: int| i + 1 <= j < c.len() && c[j] == g[k];
                assert(c[j] == g[k]);
            }
        }
    }
}

proof fn group_pairs_sound(v: InputsView, config: BankrecConfig, n: int)
    requires
        0 <= n <= v.statements.len() <= usize::MAX,
        v.ledgers.len() <= usize::MAX,
    ensures
        is_sound(v, config, engine::group_pairs(v, config, n)),
    decreases n,
{
    if n <= 0 {
        tolerance_pairs_sound(v, config, v.statements.len() as int);
    } else {
        group_pairs_sound(v, config, n - 1);
        let p = engine::group_pairs(v, config, n - 1);
        let s = n - 1;
        if engine::statement_open(p, s as usize) {
            match engine::group_hit(v, config, p, s) {
                Some(g) => {
                    let window = config.many_to_one_date_window_days;
                    let cap = config.many_to_one_candidate_cap as nat;
                    let c = engine::candidates(v, window, cap, p, s);
                    let target = v.statements[s].amount;
                    engine::group_is_sound(
                        v.ledgers,
                        c,
                        target,
                        config.tolerance_cents as int,
                        config.max_group_size as nat,
                        0,
                        Seq::empty(),
                    );
                    assert(g.skip(0) =~= g);
                    engine::candidates_fit(v, window, cap, p, s);
                    candidates_distinct(v, window, cap, p, s);
                    pick_is_distinct(c, 0, g);
                    assert forall|k: int| 0 <= k < g.len() implies (#[trigger] g[k])
                        < v.ledgers.len() && engine::eligible(v, window, p, s, g[k] as int) by {
                        let j = choose|j: int| 0 <= j < c.len() && c[j] == g[k];
                        assert(c[j] < v.ledgers.len());
                    }
                    let m = Pairing {
                        tier: MatchTier::ManyToOne,
                        statement: s as usize,
                        ledgers: g,
                    };
                    push_keeps_sound(v, config, p, m);
                },
                None => {},
            }
        }
    }
}

/// Every match is what its tier says, and no statement line and no ledger
/// line is in two matches.
pub proof fn matches_are_sound(v: InputsView, config: BankrecConfig)
    requires
        v.statements.len() <= usize::MAX,
        v.ledgers.len() <= usize::MAX,
    ensures
        is_disjoint(engine::pairings(v, config)),
        forall|i: int|
            0 <= i < engine::pairings(v, config).len() ==> is_valid(
                v,
                config,
                #[trigger] engine::pairings(v, config)[i],
            ),
{
    group_pairs_sound(v, config, v.statements.len() as int);
}

/// Whether every match of `p` is still in `q`, in its place.
spec fn extends(p: Seq<Pairing>, q: Seq<Pairing>) -> bool {
    p.len() <= q.len() && forall|i: int| 0 <= i < p.len() ==> #[trigger] q[i] == p[i]
}

proof fn open_stays_open(p: Seq<Pairing>, q: Seq<Pairing>, x: usize)
    requires
        extends(p, q),
    ensures
        engine::ledger_open(q, x) ==> engine::ledger_open(p, x),
        engine::statement_open(q, x) ==> engine::statement_open(p, x),
{
    if engine::ledger_open(q, x) {
        assert forall|k: int| 0 <= k < p.len() implies !(#[trigger] p[k]).ledgers.contains(x) by {
            assert(q[k] == p[k]);
        }
    }
    if engine::statement_open(q, x) {
        assert forall|k: int| 0 <= k < p.len() implies (#[trigger] p[k]).statement != x by {
            assert(q[k] == p[k]);
        }
    }
}

proof fn exact_pairs_extend(v: InputsView, m: int, n: int)
    requires
        0 <= m <= n,
    ensures
        extends(engine::exact_pairs(v, m), engine::exact_pairs(v, n)),
    decreases n,
{
    if m < n {
        exact_pairs_extend(v, m, n - 1);
    }
}

proof fn tolerance_pairs_extend(v: InputsView, tolerance: int, m: int, n: int)
    requires
        0 <= m <= n,
    ensures
        extends(engine::tolerance_pairs(v, tolerance, m), engine::tolerance_pairs(v, tolerance, n)),
    decreases n,
{
    if m < n {
        tolerance_pairs_extend(v, tolerance, m, n - 1);
    }
}

proof fn group_pairs_extend(v: InputsView, config: BankrecConfig, m: int, n: int)
    requires
        0 <= m <= n,
    ensures
        extends(engine::group_pairs(v, config, m), engine::group_pairs(v, config, n)),
    decreases n,
{
    if m < n {
        group_pairs_extend(v, config, m, n - 1);
    }
}

proof fn tolerance_extends_to_end(v: InputsView, config: BankrecConfig, m: int)
    requires
        0 <= m <= v.statements.len(),
    ensures
        extends(
            engine::tolerance_pairs(v, config.tolerance_cents as int, m),
            engine::pairings(v, config),
        ),
{
    let n = v.statements.len() as int;
    tolerance_pairs_extend(v, config.tolerance_cents as int, m, n);
    group_pairs_extend(v, config, 0, n);
}

/// An unmatched statement line and an unmatched ledger line never have the
/// same reference and amounts within the window of each other.
pub proof fn unmatched_lines_do_not_match(v: InputsView, config: BankrecConfig, s: int, l: int)
    requires
        v.statements.len() <= usize::MAX,
        v.ledgers.len() <= usize::MAX,
        0 <= s < v.statements.len(),
        0 <= l < v.ledgers.len(),
        engine::statement_open(engine::pairings(v, config), s as usize),
        engine::ledger_open(engine::pairings(v, config), l as usize),
        v.statements[s].reference == v.ledgers[l].reference,
    ensures
        engine::distance(v, s, l) > config.tolerance_cents,
{
    let tolerance = config.tolerance_cents as int;
    let p = engine::tolerance_pairs(v, tolerance, s);
    let q = engine::tolerance_pairs(v, tolerance, s + 1);
    let end = engine::pairings(v, config);
    tolerance_extends_to_end(v, config, s);
    tolerance_extends_to_end(v, config, s + 1);
    open_stays_open(p, end, s as usize);
    open_stays_open(p, end, l as usize);
    open_stays_open(q, end, s as usize);
    closest_is_open(v, p, s, tolerance, v.ledgers.len() as int);
    match engine::closest(v, p, s, tolerance, v.ledgers.len() as int) {
        Some(x) => {
            assert(q[p.len() as int].statement == s as usize);
        },
        None => {},
    }
}

/// Whatever comes after the exact matches, lines that agree are not both open.
proof fn exact_lines_are_taken(v: InputsView, end: Seq<Pairing>, s: int, l: int)
    requires
        v.statements.len() <= usize::MAX,
        v.ledgers.len() <= usize::MAX,
        0 <= s < v.statements.len(),
        0 <= l < v.ledgers.len(),
        extends(engine::exact_pairs(v, v.statements.len() as int), end),
        engine::statement_open(end, s as usize),
        engine::ledger_open(end, l as usize),
        v.statements[s].reference == v.ledgers[l].reference,
    ensures
        v.statements[s].amount != v.ledgers[l].amount,
{
    let n = v.statements.len() as int;
    let p = engine::exact_pairs(v, s);
    let q = engine::exact_pairs(v, s + 1);
    exact_pairs_extend(v, s, n);
    exact_pairs_extend(v, s + 1, n);
    assert(extends(p, end));
    assert(extends(q, end));
    open_stays_open(p, end, l as usize);
    open_stays_open(q, end, s as usize);
    exact_hit_is_open(v, p, s, 0);
    match engine::exact_hit(v, p, s, 0) {
        Some(x) => {
            assert(q[p.len() as int].statement == s as usize);
        },
        None => {},
    }
}

/// An exact match is made with the first free ledger line that agrees, before
/// any other tier is tried: an unmatched statement line and an unmatched
/// ledger line never agree in reference and amount.
pub proof fn exact_matches_are_never_missed(v: InputsView, config: BankrecConfig, s: int, l: int)
    requires
        v.statements.len() <= usize::MAX,
        v.ledgers.len() <= usize::MAX,
        0 <= s < v.statements.len(),
        0 <= l < v.ledgers.len(),
        engine::statement_open(engine::pairings(v, config), s as usize),
        engine::ledger_open(engine::pairings(v, config), l as usize),
        v.statements[s].reference == v.ledgers[l].reference,
    ensures
        v.statements[s].amount != v.ledgers[l].amount,
{
    tolerance_extends_to_end(v, config, 0);
    exact_lines_are_taken(v, engine::pairings(v, config), s, l);
}

/// A tolerance match takes a ledger line as close as any that is still free.
pub proof fn tolerance_takes_the_closest(v: InputsView, tolerance: int, s: int, l: int)
    requires
        v.ledgers.len() <= usize::MAX,
        0 <= s < v.statements.len(),
        0 <= l < v.ledgers.len(),
        v.statements[s].reference == v.ledgers[l].reference,
        engine::ledger_open(engine::tolerance_pairs(v, tolerance, s), l as usize),
    ensures
        engine::closest(
            v,
            engine::tolerance_pairs(v, tolerance, s),
            s,
            tolerance,
            v.ledgers.len() as int,
        ) matches Some(x) ==> engine::distance(v, s, x as int) <= engine::distance(v, s, l),
{
    closest_is_open(
        v,
        engine::tolerance_pairs(v, tolerance, s),
        s,
        tolerance,
        v.ledgers.len() as int,
    );
}

/// The group search misses nothing: where some selection of candidates of
/// allowed size sums to within the window, a group is found.
pub proof fn group_search_is_complete(
    lines: Seq<LineView>,
    c: Seq<usize>,
    target: int,
    tolerance: int,
    max_size: nat,
    i: int,
    chosen: Seq<usize>,
    rest: Seq<usize>,
)
    requires
        0 <= i,
        engine::is_pick(c, i, rest),
        chosen.len() + rest.len() <= max_size,
        engine::is_group(lines, chosen + rest, target, tolerance),
    ensures
        engine::first_group(lines, c, target, tolerance, max_size, i, chosen) is Some,
    decreases c.len() - i,
{
    if rest.len() == 0 {
        assert(chosen + rest =~= chosen);
    } else if !engine::is_group(lines, chosen, target, tolerance) {
        if rest[0] == c[i] && engine::is_pick(c, i + 1, rest.drop_first()) {
            assert(chosen.push(c[i]) + rest.drop_first() =~= chosen + rest);
            group_search_is_complete(
                lines,
                c,
                target,
                tolerance,
                max_size,
                i + 1,
                chosen.push(c[i]),
                rest.drop_first(),
            );
        } else {
            group_search_is_complete(
                lines,
                c,
                target,
                tolerance,
                max_size,
                i + 1,
                chosen,
                rest,
            );
        }
    }
}

/// The entries of `c` from place `i` on that are in `g`.
spec fn picked(c: Seq<usize>, i: int, g: Seq<usize>) -> Seq<usize>
    decreases c.len() - i,
{
    if i >= c.len() {
        Seq::empty()
    } else if g.contains(c[i]) {
        seq![c[i]] + picked(c, i + 1, g)
    } else {
        picked(c, i + 1, g)
    }
}

proof fn picked_is_pick(c: Seq<usize>, i: int, g: Seq<usize>)
    requires
        0 <= i <= c.len(),
        c.no_duplicates(),
    ensures
        engine::is_pick(c, i, picked(c, i, g)),
        picked(c, i, g).no_duplicates(),
        forall|x: usize| #[trigger]
            picked(c, i, g).contains(x) <==> g.contains(x) && c.skip(i).contains(x),
    decreases c.len() - i,
{
    let now = picked(c, i, g);
    if i < c.len() {
        let rest = picked(c, i + 1, g);
        picked_is_pick(c, i + 1, g);
        let here = c.skip(i);
        let later = c.skip(i + 1);
        assert(here[0] == c[i]);
        assert(here.drop_first() =~= later);
        assert forall|x: usize| #[trigger] here.contains(x) <==> x == c[i] || later.contains(x) by {
            if here.contains(x) {
                let k = choose|k: int| 0 <= k < here.len() && here[k] == x;
                if k > 0 {
                    assert(later[k - 1] == x);
                }
            }
            if later.contains(x) {
                let k = choose|k: int| 0 <= k < later.len() && later[k] == x;
                assert(here[k + 1] == x);
            }
        }
        if g.contains(c[i]) {
            assert(now.drop_first() =~= rest);
            assert(!later.contains(c[i])) by {
                if later.contains(c[i]) {
                    let k = choose|k: int| 0 <= k < later.len() && later[k] == c[i];
                    assert(c[i + 1 + k] == c[i]);
                }
            }
            assert forall|x: usize| #[trigger] now.contains(x) <==> x == c[i] || rest.contains(x) by {
                if now.contains(x) {
                    let k = choose|k: int| 0 <= k < now.len() && now[k] == x;
                    if k > 0 {
                        assert(rest[k - 1] == x);
                    }
                }
                if rest.contains(x) {
                    let k = choose|k: int| 0 <= k < rest.len() && rest[k] == x;
                    assert(now[k + 1] == x);
                }
                assert(now[0] == c[i]);
            }
            assert forall|a: int, b: int|
                0 <= a < now.len() && 0 <= b < now.len() && a != b implies now[a] != now[b] by {
                if a == 0 {
                    assert(rest.contains(rest[b - 1]));
                } else if b == 0 {
                    assert(rest.contains(rest[a - 1]));
                } else {
                    assert(rest[a - 1] != rest[b - 1]);
                }
            }
        }
    } else {
        assert(c.skip(i) =~= Seq::<usize>::empty());
    }
}

/// The ledger lines that are tried for a group of statement line `s`.
pub open spec fn tried(v: InputsView, config: BankrecConfig, s: int) -> Seq<usize> {
    engine::candidates(
        v,
        config.many_to_one_date_window_days,
        config.many_to_one_candidate_cap as nat,
        engine::group_pairs(v, config, s),
        s,
    )
}

/// No unmatched statement line has a group: no different ledger lines that
/// were tried for it, as many as a group may have and in whatever order, sum
/// to within the window of it.
pub proof fn unmatched_statements_have_no_group(
    v: InputsView,
    config: BankrecConfig,
    s: int,
    g: Seq<usize>,
)
    requires
        v.statements.len() <= usize::MAX,
        v.ledgers.len() <= usize::MAX,
        0 <= s < v.statements.len(),
        engine::statement_open(engine::pairings(v, config), s as usize),
        g.no_duplicates(),
        MIN_GROUP_SIZE <= g.len() <= config.max_group_size,
        forall|k: int| 0 <= k < g.len() ==> tried(v, config, s).contains(#[trigger] g[k]),
    ensures
        engine::magnitude(engine::total(v.ledgers, g) - v.statements[s].amount)
            > config.tolerance_cents,
{
    let n = v.statements.len() as int;
    let p = engine::group_pairs(v, config, s);
    let q = engine::group_pairs(v, config, s + 1);
    let end = engine::pairings(v, config);
    group_pairs_extend(v, config, s, n);
    group_pairs_extend(v, config, s + 1, n);
    open_stays_open(p, end, s as usize);
    open_stays_open(q, end, s as usize);
    match engine::group_hit(v, config, p, s) {
        Some(_) => {
            assert(q[p.len() as int].statement == s as usize);
        },
        None => {},
    }
    let c = tried(v, config, s);
    candidates_distinct(
        v,
        config.many_to_one_date_window_days,
        config.many_to_one_candidate_cap as nat,
        p,
        s,
    );
    picked_is_pick(c, 0, g);
    let h = picked(c, 0, g);
    assert(c.skip(0) =~= c);
    assert forall|x: usize| #[trigger] h.contains(x) <==> g.contains(x) by {
        if g.contains(x) {
            let k = choose|k: int| 0 <= k < g.len() && g[k] == x;
            assert(c.contains(g[k]));
        }
    }
    same_elements(h, g);
    h.to_multiset_ensures();
    g.to_multiset_ensures();
    total_of_lines(v.ledgers, g);
    total_of_lines(v.ledgers, h);
    order::map_forgets_order(h, g, |l: usize| v.ledgers[l as int]);
    order::sum_of_forgets_order(
        lines_at(v.ledgers, h),
        lines_at(v.ledgers, g),
        |x: LineView| x.amount,
    );
    if engine::magnitude(engine::total(v.ledgers, g) - v.statements[s].amount)
        <= config.tolerance_cents {
        let none = Seq::<usize>::empty();
        assert(none + h =~= h);
        group_search_is_complete(
            v.ledgers,
            c,
            v.statements[s].amount,
            config.tolerance_cents as int,
            config.max_group_size as nat,
            0,
            none,
            h,
        );
    }
}

/// Every ledger line that is left and could stand in a group for a statement
/// line was tried for it, unless more lines than the cap could when it was
/// looked at.
pub proof fn open_lines_were_tried(v: InputsView, config: BankrecConfig, s: int, l: usize)
    requires
        v.ledgers.len() <= usize::MAX,
        0 <= s < v.statements.len(),
        l < v.ledgers.len(),
        engine::eligible(
            v,
            config.many_to_one_date_window_days,
            engine::pairings(v, config),
            s,
            l as int,
        ),
        engine::eligibles(
            v,
            config.many_to_one_date_window_days,
            engine::group_pairs(v, config, s),
            s,
            v.ledgers.len() as int,
        ).len() <= config.many_to_one_candidate_cap,
    ensures
        tried(v, config, s).contains(l),
{
    let window = config.many_to_one_date_window_days;
    let p = engine::group_pairs(v, config, s);
    let places = engine::eligibles(v, window, p, s, v.ledgers.len() as int);
    let lt = |a: usize, b: usize| engine::line_lt(v.ledgers, a, b);
    group_pairs_extend(v, config, s, v.statements.len() as int);
    open_stays_open(p, engine::pairings(v, config), l);
    eligibles_hold(v, window, p, s, v.ledgers.len() as int);
    order::stable_sort_keeps(places, lt);
    order::stable_sort_elements(places, lt);
}

/// The open ones of the first `n` places.
spec fn open_places(is_open: spec_fn(usize) -> bool, n: int) -> Seq<usize>
    decreases n,
{
    if n <= 0 {
        Seq::empty()
    } else if is_open((n - 1) as usize) {
        open_places(is_open, n - 1).push((n - 1) as usize)
    } else {
        open_places(is_open, n - 1)
    }
}

proof fn open_places_hold(is_open: spec_fn(usize) -> bool, n: int)
    requires
        0 <= n <= usize::MAX,
    ensures
        open_places(is_open, n).no_duplicates(),
        forall|x: usize| #[trigger]
            open_places(is_open, n).contains(x) <==> x < n && is_open(x),
    decreases n,
{
    if n > 0 {
        open_places_hold(is_open, n - 1);
        let before = open_places(is_open, n - 1);
        let now = open_places(is_open, n);
        let last = (n - 1) as usize;
        assert forall|x: usize| #[trigger] now.contains(x) <==> x < n && is_open(x) by {
            assert(before.contains(x) <==> x < n - 1 && is_open(x));
            if before.contains(x) {
                let k = choose|k: int| 0 <= k < before.len() && before[k] == x;
                assert(now[k] == x);
            }
            if x == last && is_open(x) {
                assert(now[now.len() - 1] == x);
            }
            if now.contains(x) && x != last {
                let k = choose|k: int| 0 <= k < now.len() && now[k] == x;
                assert(before[k] == x);
            }
        }
        assert(!before.contains(last));
        assert forall|i: int, j: int|
            0 <= i < now.len() && 0 <= j < now.len() && i != j implies now[i] != now[j] by {
            if i < before.len() {
                assert(before.contains(before[i]));
            }
            if j < before.len() {
                assert(before.contains(before[j]));
            }
        }
    }
}

/// The first `n` places.
spec fn places(n: int) -> Seq<usize> {
    Seq::new(n as nat, |i: int| i as usize)
}

proof fn same_elements<A>(s: Seq<A>, t: Seq<A>)
    requires
        s.no_duplicates(),
        t.no_duplicates(),
        forall|x: A| #[trigger] s.contains(x) <==> t.contains(x),
    ensures
        s.to_multiset() == t.to_multiset(),
{
    s.lemma_multiset_has_no_duplicates();
    t.lemma_multiset_has_no_duplicates();
    assert forall|x: A| #[trigger] s.to_multiset().count(x) == t.to_multiset().count(x) by {
        vstd::seq_lib::to_multiset_contains(s, x);
        vstd::seq_lib::to_multiset_contains(t, x);
    }
    assert(s.to_multiset() =~= t.to_multiset());
}

/// Places that are taken once each, and the open ones, are all places.
proof fn taken_and_open(taken: Seq<usize>, is_open: spec_fn(usize) -> bool, n: int)
    requires
        0 <= n <= usize::MAX,
        taken.no_duplicates(),
        forall|x: usize| #[trigger] taken.contains(x) ==> x < n,
        forall|x: usize| #[trigger] taken.contains(x) <==> !is_open(x),
    ensures
        (taken + open_places(is_open, n)).to_multiset() == places(n).to_multiset(),
{
    let rest = open_places(is_open, n);
    let s = taken + rest;
    let t = places(n);
    open_places_hold(is_open, n);
    assert forall|i: int, j: int|
        0 <= i < s.len() && 0 <= j < s.len() && i != j implies s[i] != s[j] by {
        let m = taken.len() as int;
        if i < m {
            assert(taken.contains(taken[i]));
        } else {
            assert(rest.contains(rest[i - m]));
        }
        if j < m {
            assert(taken.contains(taken[j]));
        } else {
            assert(rest.contains(rest[j - m]));
        }
    }
    assert forall|x: usize| #[trigger] s.contains(x) <==> t.contains(x) by {
        if s.contains(x) {
            let k = choose|k: int| 0 <= k < s.len() && s[k] == x;
            if k < taken.len() {
                assert(taken.contains(taken[k]));
            } else {
                assert(rest.contains(rest[k - taken.len()]));
            }
            assert(t[x as int] == x);
        }
        if t.contains(x) {
            if is_open(x) {
                assert(rest.contains(x));
                let k = choose|k: int| 0 <= k < rest.len() && rest[k] == x;
                assert(s[taken.len() + k] == x);
            } else {
                assert(taken.contains(x));
                let k = choose|k: int| 0 <= k < taken.len() && taken[k] == x;
                assert(s[k] == x);
            }
        }
    }
    same_elements(s, t);
}

proof fn open_statements_are_places(v: InputsView, p: Seq<Pairing>, n: int)
    requires
        0 <= n <= v.statements.len(),
        v.statements.len() <= usize::MAX,
    ensures
        engine::open_statements(v, p, n).map_values(|x: LineView| x.id) == open_places(
            |x: usize| engine::statement_open(p, x),
            n,
        ).map_values(|x: usize| v.statements[x as int].id),
    decreases n,
{
    let left = engine::open_statements(v, p, n).map_values(|x: LineView| x.id);
    let right = open_places(|x: usize| engine::statement_open(p, x), n).map_values(
        |x: usize| v.statements[x as int].id,
    );
    if n > 0 {
        open_statements_are_places(v, p, n - 1);
        let before = engine::open_statements(v, p, n - 1);
        let rest = open_places(|x: usize| engine::statement_open(p, x), n - 1);
        assert(before.map_values(|x: LineView| x.id).len() == rest.len());
        assert forall|i: int| 0 <= i < before.len() implies before[i].id
            == v.statements[#[trigger] rest[i] as int].id by {
            assert(before.map_values(|x: LineView| x.id)[i] == rest.map_values(
                |x: usize| v.statements[x as int].id,
            )[i]);
        }
    }
    assert(left =~= right);
}

proof fn open_ledgers_are_places(v: InputsView, p: Seq<Pairing>, n: int)
    requires
        0 <= n <= v.ledgers.len(),
        v.ledgers.len() <= usize::MAX,
    ensures
        engine::open_ledgers(v, p, n).map_values(|x: LineView| x.id) == open_places(
            |x: usize| engine::ledger_open(p, x),
            n,
        ).map_values(|x: usize| v.ledgers[x as int].id),
    decreases n,
{
    let left = engine::open_ledgers(v, p, n).map_values(|x: LineView| x.id);
    let right = open_places(|x: usize| engine::ledger_open(p, x), n).map_values(
        |x: usize| v.ledgers[x as int].id,
    );
    if n > 0 {
        open_ledgers_are_places(v, p, n - 1);
        let before = engine::open_ledgers(v, p, n - 1);
        let rest = open_places(|x: usize| engine::ledger_open(p, x), n - 1);
        assert(before.map_values(|x: LineView| x.id).len() == rest.len());
        assert forall|i: int| 0 <= i < before.len() implies before[i].id
            == v.ledgers[#[trigger] rest[i] as int].id by {
            assert(before.map_values(|x: LineView| x.id)[i] == rest.map_values(
                |x: usize| v.ledgers[x as int].id,
            )[i]);
        }
    }
    assert(left =~= right);
}

/// Nothing is dropped and nothing comes twice: the statement lines of the
/// matches and the unmatched ones together are the statement lines.
pub proof fn every_statement_is_accounted_for(v: InputsView, config: BankrecConfig, as_of: int)
    requires
        v.statements.len() <= usize::MAX,
        v.ledgers.len() <= usize::MAX,
    ensures
        ({
            let report = engine::report_of(v, config, as_of);
            let matched = report.matches.map_values(|m: MatchView| m.statement_id);
            let left = report.unmatched_statement.map_values(|u: UnmatchedView| u.id);
            &&& (matched + left).to_multiset() == v.statements.map_values(
                |x: LineView| x.id,
            ).to_multiset()
            &&& matched.len() + left.len() == v.statements.len()
        }),
{
    let p = engine::pairings(v, config);
    let n = v.statements.len() as int;
    let is_open = |x: usize| engine::statement_open(p, x);
    let id_of = |x: usize| v.statements[x as int].id;
    let taken = p.map_values(|m: Pairing| m.statement);
    matches_are_sound(v, config);
    assert forall|x: usize| #[trigger] taken.contains(x) <==> !is_open(x) by {
        if taken.contains(x) {
            let k = choose|k: int| 0 <= k < taken.len() && taken[k] == x;
            assert(p[k].statement == x);
        }
        if !is_open(x) {
            let k = choose|k: int| 0 <= k < p.len() && (#[trigger] p[k]).statement == x;
            assert(taken[k] == x);
        }
    }
    assert forall|x: usize| #[trigger] taken.contains(x) implies x < n by {
        let k = choose|k: int| 0 <= k < taken.len() && taken[k] == x;
        assert(is_valid(v, config, p[k]));
    }
    assert forall|i: int, j: int|
        0 <= i < taken.len() && 0 <= j < taken.len() && i != j implies taken[i] != taken[j] by {
        assert(p[i].statement != p[j].statement);
    }
    taken_and_open(taken, is_open, n);
    let rest = open_places(is_open, n);
    let lines = places(n);
    order::map_forgets_order(taken + rest, lines, id_of);
    open_statements_are_places(v, p, n);
    let report = engine::report_of(v, config, as_of);
    let matched = report.matches.map_values(|m: MatchView| m.statement_id);
    let left = report.unmatched_statement.map_values(|u: UnmatchedView| u.id);
    let all = v.statements.map_values(|x: LineView| x.id);
    assert(matched =~= taken.map_values(id_of));
    assert(left =~= engine::open_statements(v, p, n).map_values(|x: LineView| x.id));
    assert(matched + left =~= (taken + rest).map_values(id_of));
    assert(all =~= lines.map_values(id_of));
    (matched + left).to_multiset_ensures();
    all.to_multiset_ensures();
}

/// The ledger lines of matches.
spec fn taken_ledgers(p: Seq<Pairing>) -> Seq<usize> {
    order::flat(p, |m: Pairing| m.ledgers)
}

proof fn taken_ledgers_hold(v: InputsView, config: BankrecConfig, p: Seq<Pairing>)
    requires
        is_sound(v, config, p),
    ensures
        taken_ledgers(p).no_duplicates(),
        forall|x: usize| #[trigger] taken_ledgers(p).contains(x) ==> x < v.ledgers.len(),
        forall|x: usize| #[trigger]
            taken_ledgers(p).contains(x) <==> !engine::ledger_open(p, x),
    decreases p.len(),
{
    let now = taken_ledgers(p);
    if p.len() > 0 {
        let front = p.drop_last();
        let m = p.last();
        assert forall|i: int, j: int| #![trigger front[i], front[j]]
            0 <= i < j < front.len() implies front[i].statement != front[j].statement && (forall|
            l: usize,
        |
            !(#[trigger] front[i].ledgers.contains(l) && front[j].ledgers.contains(l))) by {
            assert(front[i] == p[i] && front[j] == p[j]);
        }
        assert forall|i: int| 0 <= i < front.len() implies is_valid(
            v,
            config,
            #[trigger] front[i],
        ) by {
            assert(is_valid(v, config, p[i]));
        }
        taken_ledgers_hold(v, config, front);
        let before = taken_ledgers(front);
        assert(is_valid(v, config, p[p.len() - 1]));
        assert(m.ledgers.no_duplicates());
        assert(now =~= before + m.ledgers);
        assert forall|x: usize| #[trigger] before.contains(x) implies !m.ledgers.contains(x) by {
            let k = choose|k: int| 0 <= k < front.len() && (#[trigger] front[k]).ledgers.contains(x);
            assert(p[k] == front[k] && p[p.len() - 1] == m);
        }
        assert forall|i: int, j: int|
            0 <= i < now.len() && 0 <= j < now.len() && i != j implies now[i] != now[j] by {
            let b = before.len() as int;
            if i < b {
                assert(before.contains(before[i]));
            } else {
                assert(m.ledgers.contains(m.ledgers[i - b]));
            }
            if j < b {
                assert(before.contains(before[j]));
            } else {
                assert(m.ledgers.contains(m.ledgers[j - b]));
            }
        }
        assert forall|x: usize| #[trigger] now.contains(x) implies x < v.ledgers.len()
            && !engine::ledger_open(p, x) by {
            let k = choose|k: int| 0 <= k < now.len() && now[k] == x;
            if k < before.len() {
                assert(before.contains(before[k]));
                let i = choose|i: int|
                    0 <= i < front.len() && (#[trigger] front[i]).ledgers.contains(x);
                assert(p[i].ledgers.contains(x));
            } else {
                assert(m.ledgers[k - before.len()] == x);
                assert(p[p.len() - 1].ledgers.contains(x));
            }
        }
        assert forall|x: usize| !engine::ledger_open(p, x) implies #[trigger] now.contains(x) by {
            let i = choose|i: int| 0 <= i < p.len() && (#[trigger] p[i]).ledgers.contains(x);
            if i < front.len() {
                assert(front[i].ledgers.contains(x));
                assert(before.contains(x));
                let k = choose|k: int| 0 <= k < before.len() && before[k] == x;
                assert(now[k] == x);
            } else {
                let k = choose|k: int| 0 <= k < m.ledgers.len() && m.ledgers[k] == x;
                assert(now[before.len() + k] == x);
            }
        }
    }
}

proof fn reported_ledgers(v: InputsView, p: Seq<Pairing>)
    ensures
        order::flat(
            p.map_values(|x: Pairing| engine::record_of(v, x)),
            |m: MatchView| m.ledger_ids,
        ) == taken_ledgers(p).map_values(|l: usize| v.ledgers[l as int].id),
    decreases p.len(),
{
    let records = p.map_values(|x: Pairing| engine::record_of(v, x));
    let left = order::flat(records, |m: MatchView| m.ledger_ids);
    let right = taken_ledgers(p).map_values(|l: usize| v.ledgers[l as int].id);
    if p.len() > 0 {
        reported_ledgers(v, p.drop_last());
        assert(records.drop_last() =~= p.drop_last().map_values(
            |x: Pairing| engine::record_of(v, x),
        ));
        assert(records.last() == engine::record_of(v, p.last()));
    }
    assert(left =~= right);
}

/// Nothing is dropped and nothing comes twice: the ledger lines of the
/// matches and the unmatched ones together are the ledger lines.
pub proof fn every_ledger_line_is_accounted_for(v: InputsView, config: BankrecConfig, as_of: int)
    requires
        v.statements.len() <= usize::MAX,
        v.ledgers.len() <= usize::MAX,
    ensures
        ({
            let report = engine::report_of(v, config, as_of);
            let matched = order::flat(report.matches, |m: MatchView| m.ledger_ids);
            let left = report.unmatched_ledger.map_values(|u: UnmatchedView| u.id);
            &&& (matched + left).to_multiset() == v.ledgers.map_values(
                |x: LineView| x.id,
            ).to_multiset()
            &&& matched.len() + left.len() == v.ledgers.len()
        }),
{
    let p = engine::pairings(v, config);
    let n = v.ledgers.len() as int;
    let is_open = |x: usize| engine::ledger_open(p, x);
    let id_of = |x: usize| v.ledgers[x as int].id;
    let taken = taken_ledgers(p);
    matches_are_sound(v, config);
    taken_ledgers_hold(v, config, p);
    taken_and_open(taken, is_open, n);
    let rest = open_places(is_open, n);
    let lines = places(n);
    order::map_forgets_order(taken + rest, lines, id_of);
    open_ledgers_are_places(v, p, n);
    reported_ledgers(v, p);
    let report = engine::report_of(v, config, as_of);
    let matched = order::flat(report.matches, |m: MatchView| m.ledger_ids);
    let left = report.unmatched_ledger.map_values(|u: UnmatchedView| u.id);
    let all = v.ledgers.map_values(|x: LineView| x.id);
    assert(left =~= engine::open_ledgers(v, p, n).map_values(|x: LineView| x.id));
    assert(matched + left =~= (taken + rest).map_values(id_of));
    assert(all =~= lines.map_values(id_of));
    (matched + left).to_multiset_ensures();
    all.to_multiset_ensures();
}

// ---- the order of the ledger ----

/// The lines at chosen places.
pub open spec fn lines_at(lines: Seq<LineView>, chosen: Seq<usize>) -> Seq<LineView> {
    chosen.map_values(|l: usize| lines[l as int])
}

/// Canonical order of lines: date, then reference.
pub open spec fn line_before(a: LineView, b: LineView) -> bool {
    a.day < b.day || (a.day == b.day && text::text_lt(a.reference, b.reference))
}

pub(crate) proof fn line_order()
    ensures
        order::is_order(|a: LineView, b: LineView| line_before(a, b)),
{
    let letters = |a: Seq<char>, b: Seq<char>| text::text_lt(a, b);
    let days = |a: int, b: int| a < b;
    let by_day = order::by_key(|x: LineView| x.day, days);
    let by_reference = order::by_key(|x: LineView| x.reference, letters);
    text::text_order();
    assert(order::is_order(days));
    order::by_key_is_order(|x: LineView| x.day, days);
    order::by_key_is_order(|x: LineView| x.reference, letters);
    order::by_both_is_order(by_day, by_reference);
    let lt = |a: LineView, b: LineView| line_before(a, b);
    assert(lt =~= order::by_both(by_day, by_reference));
}

pub(crate) proof fn total_of_lines(lines: Seq<LineView>, chosen: Seq<usize>)
    ensures
        engine::total(lines, chosen) == order::sum_of(
            lines_at(lines, chosen),
            |x: LineView| x.amount,
        ),
    decreases chosen.len(),
{
    if chosen.len() > 0 {
        total_of_lines(lines, chosen.drop_last());
        assert(lines_at(lines, chosen).drop_last() =~= lines_at(lines, chosen.drop_last()));
    }
}

/// What may be grouped for a statement line, as lines.
pub open spec fn groupable(
    v: InputsView,
    config: BankrecConfig,
    p: Seq<Pairing>,
    s: int,
) -> Seq<LineView> {
    lines_at(
        v.ledgers,
        engine::eligibles(v, config.many_to_one_date_window_days, p, s, v.ledgers.len() as int),
    )
}

proof fn candidate_lines(v: InputsView, config: BankrecConfig, p: Seq<Pairing>, s: int)
    requires
        v.ledgers.len() <= usize::MAX,
    ensures
        ({
            let cap = config.many_to_one_candidate_cap as nat;
            let c = engine::candidates(v, config.many_to_one_date_window_days, cap, p, s);
            let all = order::stable_sort(
                groupable(v, config, p, s),
                |a: LineView, b: LineView| line_before(a, b),
            );
            lines_at(v.ledgers, c) == if all.len() <= cap {
                all
            } else {
                all.take(cap as int)
            }
        }),
{
    let window = config.many_to_one_date_window_days;
    let cap = config.many_to_one_candidate_cap as nat;
    let n = v.ledgers.len() as int;
    let places = engine::eligibles(v, window, p, s, n);
    let lt = |a: usize, b: usize| engine::line_lt(v.ledgers, a, b);
    let f = |l: usize| v.ledgers[l as int];
    eligibles_ascend(v, window, p, s, n);
    assert forall|a: usize, b: usize| places.contains(a) && places.contains(b) implies #[trigger] lt(
        a,
        b,
    ) == line_before(f(a), f(b)) by {
        let i = choose|i: int| 0 <= i < places.len() && places[i] == a;
        let j = choose|j: int| 0 <= j < places.len() && places[j] == b;
        assert(places[i] < n && places[j] < n);
    }
    order::stable_sort_maps(places, f, lt, |a: LineView, b: LineView| line_before(a, b));
    let sorted = order::stable_sort(places, lt);
    let all = order::stable_sort(
        groupable(v, config, p, s),
        |a: LineView, b: LineView| line_before(a, b),
    );
    assert(lines_at(v.ledgers, sorted) == all);
    assert(sorted.len() == all.len());
    if all.len() > cap {
        assert(lines_at(v.ledgers, sorted.take(cap as int)) =~= all.take(cap as int));
    }
}

proof fn first_groups_alike(
    x: Seq<LineView>,
    y: Seq<LineView>,
    c: Seq<usize>,
    d: Seq<usize>,
    target: int,
    tolerance: int,
    max_size: nat,
    i: int,
    chosen: Seq<usize>,
    picked: Seq<usize>,
)
    requires
        0 <= i,
        lines_at(x, c) == lines_at(y, d),
        lines_at(x, chosen) == lines_at(y, picked),
    ensures
        (match (
            engine::first_group(x, c, target, tolerance, max_size, i, chosen),
            engine::first_group(y, d, target, tolerance, max_size, i, picked),
        ) {
            (Some(g), Some(h)) => lines_at(x, g) == lines_at(y, h),
            (None, None) => true,
            _ => false,
        }),
    decreases c.len() - i,
{
    total_of_lines(x, chosen);
    total_of_lines(y, picked);
    assert(lines_at(x, chosen).len() == chosen.len() && lines_at(y, picked).len() == picked.len());
    assert(lines_at(x, c).len() == c.len() && lines_at(y, d).len() == d.len());
    if i < c.len() {
        assert(lines_at(x, c)[i] == lines_at(y, d)[i]);
        assert(lines_at(x, chosen.push(c[i])) =~= lines_at(x, chosen).push(x[c[i] as int]));
        assert(lines_at(y, picked.push(d[i])) =~= lines_at(y, picked).push(y[d[i] as int]));
        first_groups_alike(
            x,
            y,
            c,
            d,
            target,
            tolerance,
            max_size,
            i + 1,
            chosen.push(c[i]),
            picked.push(d[i]),
        );
        first_groups_alike(x, y, c, d, target, tolerance, max_size, i + 1, chosen, picked);
    }
}

/// Grouping does not depend on the order of the ledger: where the same lines
/// may be grouped for a statement line, and date and reference tell them
/// apart, the same lines are grouped.
pub proof fn grouping_ignores_ledger_order(
    v: InputsView,
    w: InputsView,
    config: BankrecConfig,
    p: Seq<Pairing>,
    q: Seq<Pairing>,
    s: int,
)
    requires
        v.ledgers.len() <= usize::MAX,
        w.ledgers.len() <= usize::MAX,
        v.statements[s].amount == w.statements[s].amount,
        groupable(v, config, p, s).to_multiset() == groupable(w, config, q, s).to_multiset(),
        order::tells_apart(
            groupable(v, config, p, s),
            |a: LineView, b: LineView| line_before(a, b),
        ),
    ensures
        (match (engine::group_hit(v, config, p, s), engine::group_hit(w, config, q, s)) {
            (Some(g), Some(h)) => lines_at(v.ledgers, g) == lines_at(w.ledgers, h),
            (None, None) => true,
            _ => false,
        }),
{
    let window = config.many_to_one_date_window_days;
    let cap = config.many_to_one_candidate_cap as nat;
    line_order();
    order::stable_sort_forgets_order(
        groupable(v, config, p, s),
        groupable(w, config, q, s),
        |a: LineView, b: LineView| line_before(a, b),
    );
    candidate_lines(v, config, p, s);
    candidate_lines(w, config, q, s);
    let none = Seq::<usize>::empty();
    assert(lines_at(v.ledgers, none) =~= lines_at(w.ledgers, none));
    first_groups_alike(
        v.ledgers,
        w.ledgers,
        engine::candidates(v, window, cap, p, s),
        engine::candidates(w, window, cap, q, s),
        v.statements[s].amount,
        config.tolerance_cents as int,
        config.max_group_size as nat,
        0,
        none,
        none,
    );
}

/// Whether different lines have different references.
pub open spec fn references_differ(lines: Seq<LineView>) -> bool {
    forall|i: int, j: int|
        0 <= i < j < lines.len() ==> (#[trigger] lines[i]).reference != (
        #[trigger] lines[j]).reference
}

/// Whether two inputs differ in nothing but the order of their ledger lines.
pub open spec fn same_but_for_ledger_order(v: InputsView, w: InputsView) -> bool {
    &&& v.statements == w.statements
    &&& v.ledgers.to_multiset() == w.ledgers.to_multiset()
}

proof fn other_place(x: Seq<LineView>, y: Seq<LineView>, i: int) -> (k: int)
    requires
        x.to_multiset() == y.to_multiset(),
        0 <= i < x.len(),
    ensures
        0 <= k < y.len(),
        y[k] == x[i],
{
    assert(x.contains(x[i]));
    vstd::seq_lib::to_multiset_contains(x, x[i]);
    vstd::seq_lib::to_multiset_contains(y, x[i]);
    choose|k: int| 0 <= k < y.len() && y[k] == x[i]
}

proof fn references_stay_different(x: Seq<LineView>, y: Seq<LineView>)
    requires
        x.to_multiset() == y.to_multiset(),
        references_differ(x),
    ensures
        references_differ(y),
{
    assert(x.no_duplicates());
    x.lemma_multiset_has_no_duplicates();
    y.lemma_multiset_has_no_duplicates_conv();
    assert forall|i: int, j: int| 0 <= i < j < y.len() implies (#[trigger] y[i]).reference != (
    #[trigger] y[j]).reference by {
        let a = other_place(y, x, i);
        let b = other_place(y, x, j);
        assert(y[i] != y[j]);
        if a < b {
            assert(x[a].reference != x[b].reference);
        } else if b < a {
            assert(x[b].reference != x[a].reference);
        }
    }
}

/// Whether matches are of the same lines in the same tiers.
spec fn is_alike(v: InputsView, w: InputsView, p: Seq<Pairing>, q: Seq<Pairing>) -> bool {
    &&& p.len() == q.len()
    &&& forall|k: int|
        #![trigger p[k]]
        #![trigger q[k]]
        0 <= k < p.len() ==> p[k].tier == q[k].tier && p[k].statement == q[k].statement && lines_at(
            v.ledgers,
            p[k].ledgers,
        ) == lines_at(w.ledgers, q[k].ledgers)
}

proof fn alike_turns(v: InputsView, w: InputsView, p: Seq<Pairing>, q: Seq<Pairing>)
    requires
        is_alike(v, w, p, q),
    ensures
        is_alike(w, v, q, p),
{
}

proof fn statements_open_alike(
    v: InputsView,
    w: InputsView,
    p: Seq<Pairing>,
    q: Seq<Pairing>,
    s: usize,
)
    requires
        is_alike(v, w, p, q),
    ensures
        engine::statement_open(p, s) == engine::statement_open(q, s),
{
    if !engine::statement_open(p, s) {
        let k = choose|k: int| 0 <= k < p.len() && (#[trigger] p[k]).statement == s;
        assert(q[k].statement == s);
    }
    if !engine::statement_open(q, s) {
        let k = choose|k: int| 0 <= k < q.len() && (#[trigger] q[k]).statement == s;
        assert(p[k].statement == s);
    }
}

proof fn taken_alike(
    v: InputsView,
    w: InputsView,
    config: BankrecConfig,
    p: Seq<Pairing>,
    q: Seq<Pairing>,
    l: usize,
    m: usize,
)
    requires
        is_alike(v, w, p, q),
        is_sound(w, config, q),
        references_differ(w.ledgers),
        l < v.ledgers.len(),
        m < w.ledgers.len(),
        v.ledgers[l as int] == w.ledgers[m as int],
        !engine::ledger_open(p, l),
    ensures
        !engine::ledger_open(q, m),
{
    let k = choose|k: int| 0 <= k < p.len() && (#[trigger] p[k]).ledgers.contains(l);
    let g = p[k].ledgers;
    let h = q[k].ledgers;
    let a = choose|a: int| 0 <= a < g.len() && g[a] == l;
    assert(lines_at(v.ledgers, g).len() == g.len() && lines_at(w.ledgers, h).len() == h.len());
    assert(lines_at(v.ledgers, g)[a] == lines_at(w.ledgers, h)[a]);
    assert(is_valid(w, config, q[k]));
    assert(h[a] < w.ledgers.len());
    let b = h[a];
    if b < m {
        assert(w.ledgers[b as int].reference != w.ledgers[m as int].reference);
    } else if m < b {
        assert(w.ledgers[m as int].reference != w.ledgers[b as int].reference);
    }
    assert(h.contains(m));
}

proof fn ledgers_open_alike(
    v: InputsView,
    w: InputsView,
    config: BankrecConfig,
    p: Seq<Pairing>,
    q: Seq<Pairing>,
    l: usize,
    m: usize,
)
    requires
        is_alike(v, w, p, q),
        is_sound(v, config, p),
        is_sound(w, config, q),
        references_differ(v.ledgers),
        references_differ(w.ledgers),
        l < v.ledgers.len(),
        m < w.ledgers.len(),
        v.ledgers[l as int] == w.ledgers[m as int],
    ensures
        engine::ledger_open(p, l) == engine::ledger_open(q, m),
{
    if !engine::ledger_open(p, l) {
        taken_alike(v, w, config, p, q, l, m);
    }
    if !engine::ledger_open(q, m) {
        alike_turns(v, w, p, q);
        taken_alike(w, v, config, q, p, m, l);
    }
}

proof fn one_more_alike(
    v: InputsView,
    w: InputsView,
    p: Seq<Pairing>,
    q: Seq<Pairing>,
    a: Pairing,
    b: Pairing,
)
    requires
        is_alike(v, w, p, q),
        a.tier == b.tier,
        a.statement == b.statement,
        lines_at(v.ledgers, a.ledgers) == lines_at(w.ledgers, b.ledgers),
    ensures
        is_alike(v, w, p.push(a), q.push(b)),
{
    let x = p.push(a);
    let y = q.push(b);
    assert forall|k: int| 0 <= k < x.len() implies (#[trigger] x[k]).tier == y[k].tier
        && x[k].statement == y[k].statement && lines_at(v.ledgers, x[k].ledgers) == lines_at(
        w.ledgers,
        y[k].ledgers,
    ) by {
        if k < p.len() {
            assert(x[k] == p[k] && y[k] == q[k]);
        }
    }
}

/// Two inputs that differ in the order of their ledger lines alone, between
/// which references tell.
spec fn is_reordered(v: InputsView, w: InputsView) -> bool {
    &&& same_but_for_ledger_order(v, w)
    &&& references_differ(v.ledgers)
    &&& references_differ(w.ledgers)
    &&& v.statements.len() <= usize::MAX
    &&& v.ledgers.len() <= usize::MAX
    &&& w.ledgers.len() <= usize::MAX
}

proof fn reordered_turns(v: InputsView, w: InputsView)
    requires
        is_reordered(v, w),
    ensures
        is_reordered(w, v),
{
}

proof fn exact_hit_stays(
    v: InputsView,
    w: InputsView,
    config: BankrecConfig,
    p: Seq<Pairing>,
    q: Seq<Pairing>,
    s: int,
)
    requires
        is_reordered(v, w),
        is_alike(v, w, p, q),
        is_sound(v, config, p),
        is_sound(w, config, q),
        engine::exact_hit(v, p, s, 0) is Some,
    ensures
        engine::exact_hit(w, q, s, 0) is Some,
        w.ledgers[engine::exact_hit(w, q, s, 0)->0 as int]
            == v.ledgers[engine::exact_hit(v, p, s, 0)->0 as int],
{
    exact_hit_is_open(v, p, s, 0);
    exact_hit_is_open(w, q, s, 0);
    let l = engine::exact_hit(v, p, s, 0)->0;
    let m = other_place(v.ledgers, w.ledgers, l as int);
    ledgers_open_alike(v, w, config, p, q, l, m as usize);
    assert(w.ledgers[m].reference == w.statements[s].reference);
    let k = engine::exact_hit(w, q, s, 0)->0 as int;
    if k < m {
        assert(w.ledgers[k].reference != w.ledgers[m].reference);
    } else if m < k {
        assert(w.ledgers[m].reference != w.ledgers[k].reference);
    }
}

proof fn exact_pairs_alike(v: InputsView, w: InputsView, config: BankrecConfig, n: int)
    requires
        is_reordered(v, w),
        0 <= n <= v.statements.len(),
    ensures
        is_alike(v, w, engine::exact_pairs(v, n), engine::exact_pairs(w, n)),
    decreases n,
{
    if n > 0 {
        exact_pairs_alike(v, w, config, n - 1);
        exact_pairs_sound(v, config, n - 1);
        exact_pairs_sound(w, config, n - 1);
        let p = engine::exact_pairs(v, n - 1);
        let q = engine::exact_pairs(w, n - 1);
        if engine::exact_hit(v, p, n - 1, 0) is Some {
            exact_hit_stays(v, w, config, p, q, n - 1);
            let l = engine::exact_hit(v, p, n - 1, 0)->0;
            let m = engine::exact_hit(w, q, n - 1, 0)->0;
            let a = Pairing { tier: MatchTier::Exact, statement: (n - 1) as usize, ledgers: seq![l] };
            let b = Pairing { tier: MatchTier::Exact, statement: (n - 1) as usize, ledgers: seq![m] };
            assert(lines_at(v.ledgers, seq![l]) =~= lines_at(w.ledgers, seq![m]));
            one_more_alike(v, w, p, q, a, b);
        } else if engine::exact_hit(w, q, n - 1, 0) is Some {
            alike_turns(v, w, p, q);
            reordered_turns(v, w);
            exact_hit_stays(w, v, config, q, p, n - 1);
        }
    }
}

proof fn closest_stays(
    v: InputsView,
    w: InputsView,
    config: BankrecConfig,
    p: Seq<Pairing>,
    q: Seq<Pairing>,
    s: int,
    tolerance: int,
)
    requires
        is_reordered(v, w),
        is_alike(v, w, p, q),
        is_sound(v, config, p),
        is_sound(w, config, q),
        engine::closest(v, p, s, tolerance, v.ledgers.len() as int) is Some,
    ensures
        engine::closest(w, q, s, tolerance, w.ledgers.len() as int) is Some,
        w.ledgers[engine::closest(w, q, s, tolerance, w.ledgers.len() as int)->0 as int]
            == v.ledgers[engine::closest(v, p, s, tolerance, v.ledgers.len() as int)->0 as int],
{
    closest_is_open(v, p, s, tolerance, v.ledgers.len() as int);
    closest_is_open(w, q, s, tolerance, w.ledgers.len() as int);
    let l = engine::closest(v, p, s, tolerance, v.ledgers.len() as int)->0;
    let m = other_place(v.ledgers, w.ledgers, l as int);
    ledgers_open_alike(v, w, config, p, q, l, m as usize);
    assert(w.ledgers[m].reference == w.statements[s].reference);
    assert(engine::distance(w, s, m) == engine::distance(v, s, l as int));
    let k = engine::closest(w, q, s, tolerance, w.ledgers.len() as int)->0 as int;
    if k < m {
        assert(w.ledgers[k].reference != w.ledgers[m].reference);
    } else if m < k {
        assert(w.ledgers[m].reference != w.ledgers[k].reference);
    }
}

proof fn tolerance_pairs_alike(v: InputsView, w: InputsView, config: BankrecConfig, n: int)
    requires
        is_reordered(v, w),
        0 <= n <= v.statements.len(),
    ensures
        is_alike(
            v,
            w,
            engine::tolerance_pairs(v, config.tolerance_cents as int, n),
            engine::tolerance_pairs(w, config.tolerance_cents as int, n),
        ),
    decreases n,
{
    let tolerance = config.tolerance_cents as int;
    if n <= 0 {
        exact_pairs_alike(v, w, config, v.statements.len() as int);
    } else {
        tolerance_pairs_alike(v, w, config, n - 1);
        tolerance_pairs_sound(v, config, n - 1);
        tolerance_pairs_sound(w, config, n - 1);
        let p = engine::tolerance_pairs(v, tolerance, n - 1);
        let q = engine::tolerance_pairs(w, tolerance, n - 1);
        let s = n - 1;
        statements_open_alike(v, w, p, q, s as usize);
        if engine::statement_open(p, s as usize) {
            if engine::closest(v, p, s, tolerance, v.ledgers.len() as int) is Some {
                closest_stays(v, w, config, p, q, s, tolerance);
                let l = engine::closest(v, p, s, tolerance, v.ledgers.len() as int)->0;
                let m = engine::closest(w, q, s, tolerance, w.ledgers.len() as int)->0;
                let a = Pairing {
                    tier: MatchTier::Tolerance,
                    statement: s as usize,
                    ledgers: seq![l],
                };
                let b = Pairing {
                    tier: MatchTier::Tolerance,
                    statement: s as usize,
                    ledgers: seq![m],
                };
                assert(lines_at(v.ledgers, seq![l]) =~= lines_at(w.ledgers, seq![m]));
                one_more_alike(v, w, p, q, a, b);
            } else if engine::closest(w, q, s, tolerance, w.ledgers.len() as int) is Some {
                alike_turns(v, w, p, q);
                reordered_turns(v, w);
                closest_stays(w, v, config, q, p, s, tolerance);
            }
        }
    }
}

proof fn eligibles_hold(v: InputsView, window: Option<i64>, p: Seq<Pairing>, s: int, n: int)
    requires
        0 <= n <= v.ledgers.len() <= usize::MAX,
    ensures
        forall|l: usize| #[trigger]
            engine::eligibles(v, window, p, s, n).contains(l) <==> l < n && engine::eligible(
                v,
                window,
                p,
                s,
                l as int,
            ),
    decreases n,
{
    if n > 0 {
        eligibles_hold(v, window, p, s, n - 1);
        let before = engine::eligibles(v, window, p, s, n - 1);
        let now = engine::eligibles(v, window, p, s, n);
        assert forall|l: usize| #[trigger] now.contains(l) <==> l < n && engine::eligible(
            v,
            window,
            p,
            s,
            l as int,
        ) by {
            assert(before.contains(l) <==> l < n - 1 && engine::eligible(
                v,
                window,
                p,
                s,
                l as int,
            ));
            if before.contains(l) {
                let k = choose|k: int| 0 <= k < before.len() && before[k] == l;
                assert(now[k] == l);
            }
            if l == n - 1 && engine::eligible(v, window, p, s, n - 1) {
                assert(now[now.len() - 1] == l);
            }
            if now.contains(l) && l != n - 1 {
                let k = choose|k: int| 0 <= k < now.len() && now[k] == l;
                assert(before[k] == l);
            }
        }
    }
}

proof fn groupable_holds(v: InputsView, config: BankrecConfig, p: Seq<Pairing>, s: int)
    requires
        v.ledgers.len() <= usize::MAX,
        references_differ(v.ledgers),
    ensures
        groupable(v, config, p, s).no_duplicates(),
        forall|x: LineView| #[trigger]
            groupable(v, config, p, s).contains(x) <==> exists|l: int|
                0 <= l < v.ledgers.len() && (#[trigger] v.ledgers[l]) == x && engine::eligible(
                    v,
                    config.many_to_one_date_window_days,
                    p,
                    s,
                    l,
                ),
{
    let window = config.many_to_one_date_window_days;
    let n = v.ledgers.len() as int;
    let places = engine::eligibles(v, window, p, s, n);
    let lines = groupable(v, config, p, s);
    eligibles_ascend(v, window, p, s, n);
    eligibles_hold(v, window, p, s, n);
    assert forall|i: int, j: int|
        0 <= i < lines.len() && 0 <= j < lines.len() && i != j implies lines[i] != lines[j] by {
        let a = places[i] as int;
        let b = places[j] as int;
        assert(places[i] < n && places[j] < n && a != b);
        if a < b {
            assert(v.ledgers[a].reference != v.ledgers[b].reference);
        } else {
            assert(v.ledgers[b].reference != v.ledgers[a].reference);
        }
    }
    assert forall|x: LineView| #[trigger] lines.contains(x) <==> exists|l: int|
        0 <= l < n && (#[trigger] v.ledgers[l]) == x && engine::eligible(v, window, p, s, l) by {
        if lines.contains(x) {
            let k = choose|k: int| 0 <= k < lines.len() && lines[k] == x;
            assert(places.contains(places[k]));
            assert(v.ledgers[places[k] as int] == x);
        }
        if exists|l: int|
            0 <= l < n && (#[trigger] v.ledgers[l]) == x && engine::eligible(v, window, p, s, l) {
            let l = choose|l: int|
                0 <= l < n && (#[trigger] v.ledgers[l]) == x && engine::eligible(v, window, p, s, l);
            assert(places.contains(l as usize));
            let k = choose|k: int| 0 <= k < places.len() && places[k] == l as usize;
            assert(lines[k] == x);
        }
    }
}

proof fn groupable_stays(
    v: InputsView,
    w: InputsView,
    config: BankrecConfig,
    p: Seq<Pairing>,
    q: Seq<Pairing>,
    s: int,
    x: LineView,
)
    requires
        is_reordered(v, w),
        is_alike(v, w, p, q),
        is_sound(v, config, p),
        is_sound(w, config, q),
        groupable(v, config, p, s).contains(x),
    ensures
        groupable(w, config, q, s).contains(x),
{
    let window = config.many_to_one_date_window_days;
    groupable_holds(v, config, p, s);
    groupable_holds(w, config, q, s);
    let l = choose|l: int|
        0 <= l < v.ledgers.len() && (#[trigger] v.ledgers[l]) == x && engine::eligible(
            v,
            window,
            p,
            s,
            l,
        );
    let m = other_place(v.ledgers, w.ledgers, l);
    ledgers_open_alike(v, w, config, p, q, l as usize, m as usize);
    assert(w.ledgers[m] == x && engine::eligible(w, window, q, s, m));
}

proof fn group_pairs_alike(v: InputsView, w: InputsView, config: BankrecConfig, n: int)
    requires
        is_reordered(v, w),
        0 <= n <= v.statements.len(),
    ensures
        is_alike(v, w, engine::group_pairs(v, config, n), engine::group_pairs(w, config, n)),
    decreases n,
{
    if n <= 0 {
        tolerance_pairs_alike(v, w, config, v.statements.len() as int);
    } else {
        group_pairs_alike(v, w, config, n - 1);
        group_pairs_sound(v, config, n - 1);
        group_pairs_sound(w, config, n - 1);
        let p = engine::group_pairs(v, config, n - 1);
        let q = engine::group_pairs(w, config, n - 1);
        let s = n - 1;
        statements_open_alike(v, w, p, q, s as usize);
        if engine::statement_open(p, s as usize) {
            let x = groupable(v, config, p, s);
            let y = groupable(w, config, q, s);
            alike_turns(v, w, p, q);
            reordered_turns(v, w);
            groupable_holds(v, config, p, s);
            groupable_holds(w, config, q, s);
            assert forall|line: LineView| #[trigger] x.contains(line) <==> y.contains(line) by {
                if x.contains(line) {
                    groupable_stays(v, w, config, p, q, s, line);
                }
                if y.contains(line) {
                    groupable_stays(w, v, config, q, p, s, line);
                }
            }
            same_elements(x, y);
            let lt = |a: LineView, b: LineView| line_before(a, b);
            assert forall|a: LineView, b: LineView|
                x.contains(a) && x.contains(b) && a != b implies #[trigger] lt(a, b) || lt(b, a) by {
                let i = choose|i: int|
                    0 <= i < v.ledgers.len() && (#[trigger] v.ledgers[i]) == a && engine::eligible(
                        v,
                        config.many_to_one_date_window_days,
                        p,
                        s,
                        i,
                    );
                let j = choose|j: int|
                    0 <= j < v.ledgers.len() && (#[trigger] v.ledgers[j]) == b && engine::eligible(
                        v,
                        config.many_to_one_date_window_days,
                        p,
                        s,
                        j,
                    );
                if i < j {
                    assert(v.ledgers[i].reference != v.ledgers[j].reference);
                } else {
                    assert(v.ledgers[j].reference != v.ledgers[i].reference);
                }
                text::text_lt_total(a.reference, b.reference);
            }
            grouping_ignores_ledger_order(v, w, config, p, q, s);
            match (engine::group_hit(v, config, p, s), engine::group_hit(w, config, q, s)) {
                (Some(g), Some(h)) => {
                    let a = Pairing {
                        tier: MatchTier::ManyToOne,
                        statement: s as usize,
                        ledgers: g,
                    };
                    let b = Pairing {
                        tier: MatchTier::ManyToOne,
                        statement: s as usize,
                        ledgers: h,
                    };
                    one_more_alike(v, w, p, q, a, b);
                },
                _ => {},
            }
        }
    }
}

proof fn open_statements_alike(
    v: InputsView,
    w: InputsView,
    p: Seq<Pairing>,
    q: Seq<Pairing>,
    n: int,
)
    requires
        v.statements == w.statements,
        is_alike(v, w, p, q),
    ensures
        engine::open_statements(v, p, n) == engine::open_statements(w, q, n),
    decreases n,
{
    if n > 0 {
        open_statements_alike(v, w, p, q, n - 1);
        statements_open_alike(v, w, p, q, (n - 1) as usize);
    }
}

/// Where different ledger lines have different references, the order of the
/// ledger does not matter: the same matches come in the same order, and the
/// same lines are left on either side.
pub proof fn ledger_order_does_not_matter(
    v: InputsView,
    w: InputsView,
    config: BankrecConfig,
    as_of: int,
)
    requires
        same_but_for_ledger_order(v, w),
        references_differ(v.ledgers),
        v.statements.len() <= usize::MAX,
        v.ledgers.len() <= usize::MAX,
    ensures
        ({
            let a = engine::report_of(v, config, as_of);
            let b = engine::report_of(w, config, as_of);
            &&& a.matches == b.matches
            &&& a.unmatched_statement == b.unmatched_statement
            &&& a.unmatched_ledger.map_values(|u: UnmatchedView| u.id).to_multiset()
                == b.unmatched_ledger.map_values(|u: UnmatchedView| u.id).to_multiset()
        }),
{
    let n = v.statements.len() as int;
    references_stay_different(v.ledgers, w.ledgers);
    v.ledgers.to_multiset_ensures();
    w.ledgers.to_multiset_ensures();
    group_pairs_alike(v, w, config, n);
    let p = engine::pairings(v, config);
    let q = engine::pairings(w, config);
    let a = engine::report_of(v, config, as_of);
    let b = engine::report_of(w, config, as_of);
    open_statements_alike(v, w, p, q, n);
    assert forall|k: int| 0 <= k < p.len() implies engine::record_of(v, #[trigger] p[k])
        == engine::record_of(w, q[k]) by {
        let g = p[k].ledgers;
        let h = q[k].ledgers;
        total_of_lines(v.ledgers, g);
        total_of_lines(w.ledgers, h);
        assert(lines_at(v.ledgers, g).len() == g.len() && lines_at(w.ledgers, h).len() == h.len());
        let x = g.map_values(|l: usize| v.ledgers[l as int].id);
        let y = h.map_values(|l: usize| w.ledgers[l as int].id);
        assert forall|i: int| 0 <= i < g.len() implies x[i] == y[i] by {
            assert(lines_at(v.ledgers, g)[i] == lines_at(w.ledgers, h)[i]);
        }
        assert(x =~= y);
    }
    assert(a.matches =~= b.matches);
    every_ledger_line_is_accounted_for(v, config, as_of);
    every_ledger_line_is_accounted_for(w, config, as_of);
    order::map_forgets_order(v.ledgers, w.ledgers, |x: LineView| x.id);
    let matched = order::flat(a.matches, |m: MatchView| m.ledger_ids);
    let left = a.unmatched_ledger.map_values(|u: UnmatchedView| u.id);
    let rest = b.unmatched_ledger.map_values(|u: UnmatchedView| u.id);
    vstd::seq_lib::lemma_multiset_commutative(matched, left);
    vstd::seq_lib::lemma_multiset_commutative(matched, rest);
    assert(left.to_multiset() =~= rest.to_multiset()) by {
        assert forall|id: Seq<char>| #[trigger] left.to_multiset().count(id)
            == rest.to_multiset().count(id) by {
            assert((matched + left).to_multiset().count(id) == (matched + rest).to_multiset().count(
                id,
            ));
        }
    }
}

// ---- what is reported ----

proof fn duplicates_are_notes(lines: Seq<LineView>, rule_id: Seq<char>, noun: Seq<char>, n: int)
    ensures
        forall|i: int|
            0 <= i < engine::duplicates(lines, rule_id, noun, n).len() ==> (
            #[trigger] engine::duplicates(lines, rule_id, noun, n)[i]).severity == Severity::Warn
                && !engine::duplicates(lines, rule_id, noun, n)[i].requires_signoff,
    decreases n,
{
    if n > 0 {
        duplicates_are_notes(lines, rule_id, noun, n - 1);
    }
}

/// A finding of a run is gated exactly when it is a breach.
pub proof fn findings_are_gated_when_breaches(
    v: InputsView,
    config: BankrecConfig,
    as_of: int,
    i: int,
)
    requires
        0 <= i < engine::findings_of(v, config, as_of).len(),
    ensures
        engine::findings_of(v, config, as_of)[i].requires_signoff <==> engine::findings_of(
            v,
            config,
            as_of,
        )[i].severity == Severity::Breach,
{
    let f = engine::findings_of(v, config, as_of);
    let p = engine::pairings(v, config);
    let n = v.statements.len() as int;
    let m = v.ledgers.len() as int;
    let a = engine::duplicates(v.statements, engine::RULE_STMT_DUPLICATE@, "statement line"@, n);
    let b = engine::duplicates(v.ledgers, engine::RULE_LEDGER_DUPLICATE@, "ledger entry"@, m);
    let c = engine::open_statements(v, p, n);
    let d = engine::open_ledgers(v, p, m);
    duplicates_are_notes(v.statements, engine::RULE_STMT_DUPLICATE@, "statement line"@, n);
    duplicates_are_notes(v.ledgers, engine::RULE_LEDGER_DUPLICATE@, "ledger entry"@, m);
    if i < a.len() {
        assert(f[i] == a[i]);
    } else if i < a.len() + b.len() {
        assert(f[i] == b[i - a.len()]);
    } else if i < a.len() + b.len() + c.len() {
        assert(f[i] == engine::unmatched_finding(
            c[i - a.len() - b.len()],
            Side::Statement,
            as_of,
            config.stale_days as int,
        ));
    } else {
        assert(f[i] == engine::unmatched_finding(
            d[i - a.len() - b.len() - c.len()],
            Side::Ledger,
            as_of,
            config.stale_days as int,
        ));
    }
}

/// An unmatched item older than the stale threshold is a breach, and one that
/// is not is a warning.
pub proof fn stale_items_are_breaches(line: LineView, side: Side, as_of: int, stale_days: int)
    ensures
        engine::unmatched_finding(line, side, as_of, stale_days).severity == (if as_of - line.day
            > stale_days {
            Severity::Breach
        } else {
            Severity::Warn
        }),
        engine::unmatched_of(line, side, as_of, stale_days).stale <==> as_of - line.day
            > stale_days,
{
}

pub(crate) proof fn open_statement_is_listed(v: InputsView, p: Seq<Pairing>, s: int, n: int)
    requires
        0 <= s < n <= v.statements.len(),
        engine::statement_open(p, s as usize),
    ensures
        engine::open_statements(v, p, n).contains(v.statements[s]),
    decreases n,
{
    let all = engine::open_statements(v, p, n);
    if s == n - 1 {
        assert(all.last() == v.statements[s]);
    } else {
        open_statement_is_listed(v, p, s, n - 1);
        let rest = engine::open_statements(v, p, n - 1);
        let k = choose|k: int| 0 <= k < rest.len() && rest[k] == v.statements[s];
        assert(all[k] == v.statements[s]);
    }
}

pub(crate) proof fn open_ledger_is_listed(v: InputsView, p: Seq<Pairing>, l: int, n: int)
    requires
        0 <= l < n <= v.ledgers.len(),
        engine::ledger_open(p, l as usize),
    ensures
        engine::open_ledgers(v, p, n).contains(v.ledgers[l]),
    decreases n,
{
    let all = engine::open_ledgers(v, p, n);
    if l == n - 1 {
        assert(all.last() == v.ledgers[l]);
    } else {
        open_ledger_is_listed(v, p, l, n - 1);
        let rest = engine::open_ledgers(v, p, n - 1);
        let k = choose|k: int| 0 <= k < rest.len() && rest[k] == v.ledgers[l];
        assert(all[k] == v.ledgers[l]);
    }
}

/// A statement line that is in no match is on the list of unmatched lines,
/// with a finding and a proposal.
pub proof fn unmatched_statements_are_reported(
    v: InputsView,
    config: BankrecConfig,
    as_of: int,
    s: int,
)
    requires
        0 <= s < v.statements.len() <= usize::MAX,
        engine::statement_open(engine::pairings(v, config), s as usize),
    ensures
        ({
            let line = v.statements[s];
            let report = engine::report_of(v, config, as_of);
            let stale = config.stale_days as int;
            &&& report.unmatched_statement.contains(
                engine::unmatched_of(line, Side::Statement, as_of, stale),
            )
            &&& report.findings.contains(
                engine::unmatched_finding(line, Side::Statement, as_of, stale),
            )
            &&& report.adjustment_proposals.contains(engine::proposal_of(line, Side::Statement))
        }),
{
    let p = engine::pairings(v, config);
    let n = v.statements.len() as int;
    let m = v.ledgers.len() as int;
    let open = engine::open_statements(v, p, n);
    let report = engine::report_of(v, config, as_of);
    let stale = config.stale_days as int;
    open_statement_is_listed(v, p, s, n);
    let k = choose|k: int| 0 <= k < open.len() && open[k] == v.statements[s];
    let a = engine::duplicates(v.statements, engine::RULE_STMT_DUPLICATE@, "statement line"@, n);
    let b = engine::duplicates(v.ledgers, engine::RULE_LEDGER_DUPLICATE@, "ledger entry"@, m);
    assert(report.unmatched_statement[k] == engine::unmatched_of(
        open[k],
        Side::Statement,
        as_of,
        stale,
    ));
    assert(report.findings[a.len() + b.len() + k] == engine::unmatched_finding(
        open[k],
        Side::Statement,
        as_of,
        stale,
    ));
    assert(report.adjustment_proposals[k] == engine::proposal_of(open[k], Side::Statement));
}

/// A ledger line that is in no match is on the list of unmatched lines, with
/// a finding and a proposal.
pub proof fn unmatched_ledgers_are_reported(
    v: InputsView,
    config: BankrecConfig,
    as_of: int,
    l: int,
)
    requires
        0 <= l < v.ledgers.len() <= usize::MAX,
        engine::ledger_open(engine::pairings(v, config), l as usize),
    ensures
        ({
            let line = v.ledgers[l];
            let report = engine::report_of(v, config, as_of);
            let stale = config.stale_days as int;
            &&& report.unmatched_ledger.contains(
                engine::unmatched_of(line, Side::Ledger, as_of, stale),
            )
            &&& report.findings.contains(
                engine::unmatched_finding(line, Side::Ledger, as_of, stale),
            )
            &&& report.adjustment_proposals.contains(engine::proposal_of(line, Side::Ledger))
        }),
{
    let p = engine::pairings(v, config);
    let n = v.statements.len() as int;
    let m = v.ledgers.len() as int;
    let other = engine::open_statements(v, p, n);
    let open = engine::open_ledgers(v, p, m);
    let report = engine::report_of(v, config, as_of);
    let stale = config.stale_days as int;
    open_ledger_is_listed(v, p, l, m);
    let k = choose|k: int| 0 <= k < open.len() && open[k] == v.ledgers[l];
    let a = engine::duplicates(v.statements, engine::RULE_STMT_DUPLICATE@, "statement line"@, n);
    let b = engine::duplicates(v.ledgers, engine::RULE_LEDGER_DUPLICATE@, "ledger entry"@, m);
    assert(report.unmatched_ledger[k] == engine::unmatched_of(open[k], Side::Ledger, as_of, stale));
    assert(report.findings[a.len() + b.len() + other.len() + k] == engine::unmatched_finding(
        open[k],
        Side::Ledger,
        as_of,
        stale,
    ));
    assert(report.adjustment_proposals[other.len() + k] == engine::proposal_of(
        open[k],
        Side::Ledger,
    ));
}

/// Order of places by key, and by input order among equal keys.
spec fn comes_before(lines: Seq<LineView>, a: usize, b: usize) -> bool {
    engine::key_lt(lines, a, b) || (engine::same_key(lines[a as int], lines[b as int]) && a < b)
}

proof fn keys_are_ordered(lines: Seq<LineView>, a: usize, b: usize)
    requires
        a < lines.len(),
        b < lines.len(),
    ensures
        engine::key_lt(lines, a, b) || engine::key_lt(lines, b, a) || engine::same_key(
            lines[a as int],
            lines[b as int],
        ),
        engine::same_key(lines[a as int], lines[b as int]) ==> !engine::key_lt(lines, a, b),
        engine::key_lt(lines, a, b) ==> !engine::key_lt(lines, b, a),
{
    let x = lines[a as int].reference;
    let y = lines[b as int].reference;
    text::text_lt_total(x, y);
    text::text_lt_irreflexive(x);
    if text::text_lt(x, y) && text::text_lt(y, x) {
        text::text_lt_transitive(x, y, x);
    }
}

proof fn order_is_transitive(lines: Seq<LineView>, a: usize, b: usize, c: usize)
    requires
        a < lines.len(),
        b < lines.len(),
        c < lines.len(),
        comes_before(lines, a, b),
        comes_before(lines, b, c),
    ensures
        comes_before(lines, a, c),
{
    let x = lines[a as int].reference;
    let y = lines[b as int].reference;
    let z = lines[c as int].reference;
    if text::text_lt(x, y) && text::text_lt(y, z) {
        text::text_lt_transitive(x, y, z);
    }
}

/// Sorting the first `n` places by key leaves equal keys in input order.
proof fn places_are_ordered(lines: Seq<LineView>, n: int)
    requires
        0 <= n <= lines.len() <= usize::MAX,
    ensures
        ({
            let sorted = order::stable_sort(
                Seq::new(n as nat, |i: int| i as usize),
                |a: usize, b: usize| engine::key_lt(lines, a, b),
            );
            &&& sorted.len() == n
            &&& forall|i: int| 0 <= i < n ==> (#[trigger] sorted[i]) < n
            &&& forall|i: int, j: int|
                #![trigger sorted[i], sorted[j]]
                0 <= i < j < n ==> comes_before(lines, sorted[i], sorted[j])
        }),
    decreases n,
{
    let lt = |a: usize, b: usize| engine::key_lt(lines, a, b);
    let all = Seq::new(n as nat, |i: int| i as usize);
    let sorted = order::stable_sort(all, lt);
    if n > 0 {
        let rest = Seq::new((n - 1) as nat, |i: int| i as usize);
        assert(all.drop_last() =~= rest);
        let placed = order::stable_sort(rest, lt);
        let x = (n - 1) as usize;
        places_are_ordered(lines, n - 1);
        order::slot_splits(placed, x, lt);
        let at = order::slot(placed, x, lt);
        assert(sorted == placed.insert(at, x));
        assert forall|i: int| 0 <= i < at implies comes_before(lines, #[trigger] placed[i], x) by {
            let last = placed[at - 1];
            assert(last < n - 1);
            assert(!lt(x, last));
            keys_are_ordered(lines, x, last);
            assert(comes_before(lines, last, x));
            if i < at - 1 {
                assert(comes_before(lines, placed[i], last));
                order_is_transitive(lines, placed[i], last, x);
            }
        }
        assert forall|i: int, j: int| #![trigger sorted[i], sorted[j]] 0 <= i < j < n implies
            comes_before(lines, sorted[i], sorted[j]) by {
            if j < at {
                assert(sorted[i] == placed[i] && sorted[j] == placed[j]);
            } else if j == at {
                assert(sorted[i] == placed[i]);
            } else if i < at {
                assert(sorted[i] == placed[i] && sorted[j] == placed[j - 1]);
            } else if i == at {
                assert(sorted[j] == placed[j - 1]);
                assert(lt(x, placed[j - 1]));
            } else {
                assert(sorted[i] == placed[i - 1] && sorted[j] == placed[j - 1]);
            }
        }
        assert forall|i: int| 0 <= i < n implies (#[trigger] sorted[i]) < n by {
            if i < at {
                assert(sorted[i] == placed[i]);
            } else if i > at {
                assert(sorted[i] == placed[i - 1]);
            }
        }
    }
}

/// Between two places with one key, every place has that key.
proof fn alike_in_between(lines: Seq<LineView>, m: int, j: int, k: int)
    requires
        lines.len() <= usize::MAX,
        0 <= m <= j <= k < lines.len(),
        engine::same_key(
            lines[engine::by_key(lines)[m] as int],
            lines[engine::by_key(lines)[k] as int],
        ),
    ensures
        engine::same_key(
            lines[engine::by_key(lines)[j] as int],
            lines[engine::by_key(lines)[k] as int],
        ),
{
    let sorted = engine::by_key(lines);
    places_are_ordered(lines, lines.len() as int);
    if m < j && j < k {
        let a = sorted[m];
        let b = sorted[j];
        let c = sorted[k];
        assert(comes_before(lines, a, b) && comes_before(lines, b, c));
        keys_are_ordered(lines, a, b);
        keys_are_ordered(lines, b, c);
        keys_are_ordered(lines, c, b);
        if engine::key_lt(lines, b, c) {
            assert(engine::key_lt(lines, b, a));
            assert(false);
        }
    }
}

/// What the first line with a key is.
proof fn first_alike_is_first(lines: Seq<LineView>, k: int)
    requires
        lines.len() <= usize::MAX,
        0 <= k < lines.len(),
    ensures
        ({
            let sorted = engine::by_key(lines);
            let f = engine::first_alike(lines, sorted, k);
            let line = lines[sorted[k] as int];
            &&& f <= sorted[k]
            &&& engine::same_key(lines[f as int], line)
            &&& forall|g: int|
                0 <= g < f ==> !engine::same_key(#[trigger] lines[g], line)
            &&& k > 0 && engine::same_key(line, lines[sorted[k - 1] as int]) ==> f < sorted[k]
        }),
    decreases k,
{
    let n = lines.len() as int;
    let sorted = engine::by_key(lines);
    let line = lines[sorted[k] as int];
    places_are_ordered(lines, n);
    if k > 0 && engine::same_key(line, lines[sorted[k - 1] as int]) {
        first_alike_is_first(lines, k - 1);
        assert(comes_before(lines, sorted[k - 1], sorted[k]));
        keys_are_ordered(lines, sorted[k - 1], sorted[k]);
    } else {
        assert forall|g: int| 0 <= g < sorted[k] implies !engine::same_key(
            #[trigger] lines[g],
            line,
        ) by {
            if engine::same_key(lines[g], line) {
                place_of(lines, g);
                let q = choose|q: int| 0 <= q < n && sorted[q] == g as usize;
                keys_are_ordered(lines, sorted[q], sorted[k]);
                keys_are_ordered(lines, sorted[k], sorted[q]);
                if q > k {
                    assert(comes_before(lines, sorted[k], sorted[q]));
                } else if q < k {
                    alike_in_between(lines, q, k - 1, k);
                }
            }
        }
    }
}

/// Every line has a place in the key order.
proof fn place_of(lines: Seq<LineView>, g: int)
    requires
        0 <= g < lines.len() <= usize::MAX,
    ensures
        exists|q: int| 0 <= q < lines.len() && engine::by_key(lines)[q] == g as usize,
{
    let all = Seq::new(lines.len(), |i: int| i as usize);
    places_are_ordered(lines, lines.len() as int);
    order::stable_sort_elements(all, |a: usize, b: usize| engine::key_lt(lines, a, b));
    assert(all[g] == g as usize);
    assert(all.contains(g as usize));
    assert(engine::by_key(lines).contains(g as usize));
}

proof fn duplicate_is_kept(
    lines: Seq<LineView>,
    rule_id: Seq<char>,
    noun: Seq<char>,
    x: FindingView,
    m: int,
    n: int,
)
    requires
        m <= n,
        engine::duplicates(lines, rule_id, noun, m).contains(x),
    ensures
        engine::duplicates(lines, rule_id, noun, n).contains(x),
    decreases n - m,
{
    if m < n {
        duplicate_is_kept(lines, rule_id, noun, x, m, n - 1);
        if n > 0 {
            let rest = engine::duplicates(lines, rule_id, noun, n - 1);
            let all = engine::duplicates(lines, rule_id, noun, n);
            let k = choose|k: int| 0 <= k < rest.len() && rest[k] == x;
            assert(all[k] == x);
        }
    }
}

/// Every line that repeats an earlier one in reference, amount, and date is
/// warned of, and the warning names the first such line.
pub proof fn repeated_lines_are_warned_of(
    lines: Seq<LineView>,
    rule_id: Seq<char>,
    noun: Seq<char>,
    i: int,
    j: int,
)
    requires
        0 <= i < j < lines.len() <= usize::MAX,
        engine::same_key(lines[i], lines[j]),
    ensures
        exists|f: int|
            {
                &&& 0 <= f <= i
                &&& engine::same_key(#[trigger] lines[f], lines[j])
                &&& forall|g: int|
                    0 <= g < f ==> !engine::same_key(#[trigger] lines[g], lines[j])
                &&& engine::duplicates(lines, rule_id, noun, lines.len() as int).contains(
                    engine::duplicate_of(lines[j], lines[f], rule_id, noun),
                )
            },
{
    let n = lines.len() as int;
    let sorted = engine::by_key(lines);
    places_are_ordered(lines, n);
    place_of(lines, i);
    place_of(lines, j);
    let m = choose|q: int| 0 <= q < n && sorted[q] == i as usize;
    let k = choose|q: int| 0 <= q < n && sorted[q] == j as usize;
    keys_are_ordered(lines, i as usize, j as usize);
    keys_are_ordered(lines, j as usize, i as usize);
    if k < m {
        assert(comes_before(lines, sorted[k], sorted[m]));
    }
    assert(m < k);
    alike_in_between(lines, m, k - 1, k);
    first_alike_is_first(lines, k);
    let f = engine::first_alike(lines, sorted, k) as int;
    let x = engine::duplicate_of(lines[j], lines[f], rule_id, noun);
    assert(engine::duplicates(lines, rule_id, noun, k + 1).last() == x);
    assert(engine::duplicates(lines, rule_id, noun, k + 1).contains(x));
    duplicate_is_kept(lines, rule_id, noun, x, k + 1, n);
    assert(engine::same_key(lines[f], lines[j]));
    if i < f {
        assert(engine::same_key(lines[i], lines[j]));
    }
}

/// The first line with its reference, amount, and date is never warned of:
/// every warning is on a line that repeats an earlier one.
pub proof fn first_lines_are_never_warned_of(
    lines: Seq<LineView>,
    rule_id: Seq<char>,
    noun: Seq<char>,
    n: int,
    t: int,
)
    requires
        0 <= n <= lines.len() <= usize::MAX,
        0 <= t < engine::duplicates(lines, rule_id, noun, n).len(),
    ensures
        exists|f: int, j: int|
            {
                &&& 0 <= f < j < lines.len()
                &&& engine::same_key(#[trigger] lines[f], #[trigger] lines[j])
                &&& engine::duplicates(lines, rule_id, noun, n)[t] == engine::duplicate_of(
                    lines[j],
                    lines[f],
                    rule_id,
                    noun,
                )
            },
    decreases n,
{
    if n > 0 {
        let rest = engine::duplicates(lines, rule_id, noun, n - 1);
        let all = engine::duplicates(lines, rule_id, noun, n);
        if t < rest.len() {
            first_lines_are_never_warned_of(lines, rule_id, noun, n - 1, t);
            assert(all[t] == rest[t]);
        } else {
            let sorted = engine::by_key(lines);
            places_are_ordered(lines, lines.len() as int);
            first_alike_is_first(lines, n - 1);
            let f = engine::first_alike(lines, sorted, n - 1) as int;
            let j = sorted[n - 1] as int;
            assert(engine::same_key(lines[f], lines[j]));
            assert(all[t] == engine::duplicate_of(lines[j], lines[f], rule_id, noun));
        }
    }
}

/// The pack of a report is evidence, for the bytes that it was made from,
/// exactly when every gated finding of the report is approved.
pub proof fn packs_verify_once_resolved(
    engine_id: Seq<char>,
    tool_version: Seq<char>,
    inputs: Seq<u8>,
    params: Seq<u8>,
    findings: Seq<FindingView>,
    signoffs: Seq<SignoffView>,
)
    ensures
        ({
            let bare = spine::pack_of(
                engine_id,
                tool_version,
                inputs,
                params,
                findings,
                signoffs,
            );
            spine::is_evidence(spine::sealed_view(bare), inputs, params) <==> spine::all_resolved(
                bare,
            )
        }),
{
    let bare = spine::pack_of(engine_id, tool_version, inputs, params, findings, signoffs);
    let sealed = spine::sealed_view(bare);
    assert(spine::body_text(sealed) == spine::body_text(bare));
    assert forall|i: int| 0 <= i < bare.findings.len() implies spine::is_resolved(
        sealed,
        #[trigger] bare.findings[i],
    ) == spine::is_resolved(bare, bare.findings[i]) by {}
}

} // verus!
