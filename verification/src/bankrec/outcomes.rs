//! What a report says of each line, in terms of the lines and the tables
//! alone.

use vstd::prelude::*;

use crate::bankrec::config;
use crate::bankrec::config::BankrecConfig;
use crate::bankrec::engine;
use crate::bankrec::engine::{MatchTier, MatchView, Pairing, ProposalKind, Side, UnmatchedView};
use crate::bankrec::inputs;
use crate::bankrec::inputs::{
    InputsView, LedgerEntry, LedgerSide, LineView, ReconciliationInputs, StatementLine,
};
use crate::bankrec::laws;
use crate::date;
use crate::order;
use crate::spine::{FindingView, Severity};
use crate::text;

verus! {

// ---- tables and inputs ----

/// Tables are valid exactly when the tolerance, the stale days, and the date
/// window are not negative, a group has two to five lines, and one to a
/// thousand candidates are tried.
pub proof fn valid_tables_hold_together(c: BankrecConfig)
    ensures
        config::config_error(c) is None <==> {
            &&& c.tolerance_cents >= 0
            &&& 2 <= c.max_group_size <= 5
            &&& c.stale_days >= 0
            &&& 1 <= c.many_to_one_candidate_cap <= 1000
            &&& c.many_to_one_date_window_days matches Some(days) ==> days >= 0
        },
{
}

proof fn statements_judged(lines: Seq<StatementLine>, i: int)
    requires
        0 <= i <= lines.len(),
    ensures
        inputs::statements_error(lines, i) is None <==> forall|k: int|
            #![trigger lines[k]]
            i <= k < lines.len() ==> inputs::statement_error(lines, k) is None,
    decreases lines.len() - i,
{
    if i < lines.len() {
        statements_judged(lines, i + 1);
        if inputs::statements_error(lines, i) is None {
            assert(inputs::statement_error(lines, i) is None);
        } else if inputs::statement_error(lines, i) is Some {
            assert(lines[i] == lines[i]);
        }
    }
}

proof fn ledgers_judged(lines: Seq<StatementLine>, entries: Seq<LedgerEntry>, i: int)
    requires
        0 <= i <= entries.len(),
    ensures
        inputs::ledgers_error(lines, entries, i) is None <==> forall|k: int|
            #![trigger entries[k]]
            i <= k < entries.len() ==> inputs::ledger_error(lines, entries, k) is None,
    decreases entries.len() - i,
{
    if i < entries.len() {
        ledgers_judged(lines, entries, i + 1);
        if inputs::ledgers_error(lines, entries, i) is None {
            assert(inputs::ledger_error(lines, entries, i) is None);
        } else if inputs::ledger_error(lines, entries, i) is Some {
            assert(entries[i] == entries[i]);
        }
    }
}

/// Whether each line has an id, a date, and an amount that is not zero, and
/// each entry an id, a date, and a positive amount.
pub open spec fn are_filled_in(s: Seq<StatementLine>, l: Seq<LedgerEntry>) -> bool {
    &&& forall|k: int|
        0 <= k < s.len() ==> (#[trigger] s[k]).id@.len() > 0 && date::read_date(s[k].date@) is Some
            && s[k].amount_cents != 0
    &&& forall|k: int|
        0 <= k < l.len() ==> (#[trigger] l[k]).id@.len() > 0 && date::read_date(l[k].date@) is Some
            && l[k].amount_cents > 0
}

/// Whether no id occurs twice, on either side or across them.
pub open spec fn are_told_apart(s: Seq<StatementLine>, l: Seq<LedgerEntry>) -> bool {
    &&& forall|i: int, j: int|
        0 <= i < j < s.len() ==> (#[trigger] s[i]).id@ != (#[trigger] s[j]).id@
    &&& forall|i: int, j: int|
        0 <= i < j < l.len() ==> (#[trigger] l[i]).id@ != (#[trigger] l[j]).id@
    &&& forall|i: int, j: int|
        0 <= i < s.len() && 0 <= j < l.len() ==> (#[trigger] s[i]).id@ != (#[trigger] l[j]).id@
}

/// Inputs are valid exactly when everything is filled in and no id occurs
/// twice.
pub proof fn valid_inputs_hold_together(raw: ReconciliationInputs)
    ensures
        inputs::inputs_error(raw) is None <==> are_filled_in(
            raw.statement_lines@,
            raw.ledger_entries@,
        ) && are_told_apart(raw.statement_lines@, raw.ledger_entries@),
{
    let s = raw.statement_lines@;
    let l = raw.ledger_entries@;
    statements_judged(s, 0);
    ledgers_judged(s, l, 0);
    if inputs::inputs_error(raw) is None {
        assert forall|i: int, j: int| 0 <= i < j < s.len() implies (#[trigger] s[i]).id@ != (
        #[trigger] s[j]).id@ by {
            assert(inputs::statement_error(s, j) is None);
            assert(!inputs::statement_id_seen(s, j, s[j].id@));
        }
        assert forall|i: int, j: int| 0 <= i < j < l.len() implies (#[trigger] l[i]).id@ != (
        #[trigger] l[j]).id@ by {
            assert(inputs::ledger_error(s, l, j) is None);
            assert(!inputs::ledger_id_seen(l, j, l[j].id@));
        }
        assert forall|i: int, j: int| 0 <= i < s.len() && 0 <= j < l.len() implies (
        #[trigger] s[i]).id@ != (#[trigger] l[j]).id@ by {
            assert(inputs::ledger_error(s, l, j) is None);
            assert(!inputs::statement_id_seen(s, s.len() as int, l[j].id@));
        }
    }
    if are_filled_in(s, l) && are_told_apart(s, l) {
        assert forall|k: int| #![trigger s[k]] 0 <= k < s.len() implies inputs::statement_error(
            s,
            k,
        ) is None by {
            if inputs::statement_id_seen(s, k, s[k].id@) {
                let i = choose|i: int| 0 <= i < k && #[trigger] s[i].id@ == s[k].id@;
                assert(s[i].id@ == s[k].id@);
            }
        }
        assert forall|k: int| #![trigger l[k]] 0 <= k < l.len() implies inputs::ledger_error(
            s,
            l,
            k,
        ) is None by {
            if inputs::ledger_id_seen(l, k, l[k].id@) {
                let i = choose|i: int| 0 <= i < k && #[trigger] l[i].id@ == l[k].id@;
                assert(l[i].id@ == l[k].id@);
            }
            if inputs::statement_id_seen(s, s.len() as int, l[k].id@) {
                let i = choose|i: int| 0 <= i < s.len() && #[trigger] s[i].id@ == l[k].id@;
                assert(s[i].id@ == l[k].id@);
            }
        }
    }
}

/// Lines keep their id, reference, date, and amount. A debit of the cash
/// account is money in, a credit money out.
pub proof fn debits_are_money_in(raw: ReconciliationInputs, i: int, j: int)
    requires
        0 <= i < raw.statement_lines.len(),
        0 <= j < raw.ledger_entries.len(),
    ensures
        ({
            let v = inputs::canonical_inputs(raw);
            let s = raw.statement_lines@[i];
            let l = raw.ledger_entries@[j];
            &&& v.statements.len() == raw.statement_lines.len()
            &&& v.ledgers.len() == raw.ledger_entries.len()
            &&& v.statements[i].id == s.id@
            &&& v.statements[i].reference == s.reference@
            &&& v.statements[i].amount == s.amount_cents
            &&& date::read_date(s.date@) is Some ==> date::read_date(s.date@) == Some(
                v.statements[i].day,
            )
            &&& v.ledgers[j].id == l.id@
            &&& v.ledgers[j].reference == l.reference@
            &&& date::read_date(l.date@) is Some ==> date::read_date(l.date@) == Some(
                v.ledgers[j].day,
            )
            &&& l.side == LedgerSide::Debit ==> v.ledgers[j].amount == l.amount_cents
            &&& l.side == LedgerSide::Credit ==> v.ledgers[j].amount + l.amount_cents == 0
        }),
{
}

// ---- matches ----

/// Whether a reported match is one of statement line `s` and the ledger lines
/// `ls`, by the rule of its tier.
pub open spec fn is_match(
    v: InputsView,
    c: BankrecConfig,
    m: MatchView,
    s: int,
    ls: Seq<int>,
) -> bool {
    let line = v.statements[s];
    &&& 0 <= s < v.statements.len()
    &&& m.statement_id == line.id
    &&& m.statement_amount_cents == line.amount
    &&& m.ledger_ids.len() == ls.len()
    &&& forall|k: int|
        0 <= k < ls.len() ==> 0 <= #[trigger] ls[k] < v.ledgers.len() && m.ledger_ids[k]
            == v.ledgers[ls[k]].id
    &&& ls.no_duplicates()
    &&& m.matched_amount_cents == order::sum_of(ls, |l: int| v.ledgers[l].amount)
    &&& m.variance_cents == m.matched_amount_cents - m.statement_amount_cents
    &&& m.tier == MatchTier::Exact ==> ls.len() == 1 && v.ledgers[ls[0]].reference == line.reference
        && m.variance_cents == 0
    &&& m.tier == MatchTier::Tolerance ==> ls.len() == 1 && v.ledgers[ls[0]].reference
        == line.reference && m.variance_cents != 0 && -c.tolerance_cents <= m.variance_cents
        <= c.tolerance_cents
    &&& m.tier == MatchTier::ManyToOne ==> {
        &&& 2 <= ls.len() <= c.max_group_size
        &&& -c.tolerance_cents <= m.variance_cents <= c.tolerance_cents
        &&& forall|k: int|
            0 <= k < ls.len() ==> ((#[trigger] v.ledgers[ls[k]]).amount > 0 <==> line.amount > 0)
        &&& c.many_to_one_date_window_days matches Some(days) ==> forall|k: int|
            0 <= k < ls.len() ==> -days <= (#[trigger] v.ledgers[ls[k]]).day - line.day <= days
    }
}

proof fn totals_sum(lines: Seq<LineView>, g: Seq<usize>, ls: Seq<int>)
    requires
        ls == g.map_values(|x: usize| x as int),
    ensures
        engine::total(lines, g) == order::sum_of(ls, |l: int| lines[l].amount),
    decreases g.len(),
{
    if g.len() > 0 {
        let rest = g.drop_last().map_values(|x: usize| x as int);
        assert(ls.drop_last() =~= rest);
        totals_sum(lines, g.drop_last(), rest);
        assert(ls.last() == g.last() as int);
    }
}

/// Every reported match is one of a statement line and of different ledger
/// lines. It gives their ids, the amount of the one, the sum of the others,
/// and the excess of the sum over the amount, and obeys the rule of its tier.
pub proof fn matches_obey_their_tier(v: InputsView, c: BankrecConfig, as_of: int, k: int)
    requires
        v.statements.len() <= usize::MAX,
        v.ledgers.len() <= usize::MAX,
        0 <= k < engine::report_of(v, c, as_of).matches.len(),
    ensures
        exists|s: int, ls: Seq<int>| #[trigger]
            is_match(v, c, engine::report_of(v, c, as_of).matches[k], s, ls),
{
    laws::matches_are_sound(v, c);
    let p = engine::pairings(v, c)[k];
    let m = engine::report_of(v, c, as_of).matches[k];
    let s = p.statement as int;
    let ls = p.ledgers.map_values(|x: usize| x as int);
    assert(laws::is_valid(v, c, p));
    assert(m == engine::record_of(v, p));
    totals_sum(v.ledgers, p.ledgers, ls);
    if ls.len() == 1 {
        reveal_with_fuel(order::sum_of, 2);
        assert(order::sum_of(ls, |l: int| v.ledgers[l].amount) == v.ledgers[ls[0]].amount);
    }
    assert(ls.no_duplicates());
    assert forall|j: int| 0 <= j < ls.len() implies 0 <= #[trigger] ls[j] < v.ledgers.len()
        && m.ledger_ids[j] == v.ledgers[ls[j]].id by {
        assert(p.ledgers[j] < v.ledgers.len());
    }
    if m.tier == MatchTier::ManyToOne {
        assert forall|j: int| 0 <= j < ls.len() implies ((#[trigger] v.ledgers[ls[j]]).amount > 0
            <==> v.statements[s].amount > 0) by {
            assert(ls[j] == p.ledgers[j] as int);
        }
        if c.many_to_one_date_window_days is Some {
            let days = c.many_to_one_date_window_days->0;
            assert forall|j: int| 0 <= j < ls.len() implies -days <= (
            #[trigger] v.ledgers[ls[j]]).day - v.statements[s].day <= days by {
                assert(ls[j] == p.ledgers[j] as int);
            }
        }
    }
    assert(is_match(v, c, m, s, ls));
}

// ---- which lines are matched ----

/// An exact match takes the first ledger line, among those that are free,
/// with the reference and the amount of the statement line.
pub proof fn exact_matches_take_the_first(v: InputsView, p: Seq<Pairing>, s: int, from: int, l: int)
    requires
        v.ledgers.len() <= usize::MAX,
        0 <= from <= l < v.ledgers.len(),
        engine::ledger_open(p, l as usize),
        v.ledgers[l].reference == v.statements[s].reference,
        v.ledgers[l].amount == v.statements[s].amount,
    ensures
        engine::exact_hit(v, p, s, from) matches Some(x) && x <= l,
    decreases v.ledgers.len() - from,
{
    if from < l {
        exact_matches_take_the_first(v, p, s, from + 1, l);
    }
}

/// A tolerance match takes the first of those that are equally close.
pub proof fn tolerance_matches_take_the_first(
    v: InputsView,
    p: Seq<Pairing>,
    s: int,
    tolerance: int,
    n: int,
    l: int,
)
    requires
        0 <= l < n <= v.ledgers.len() <= usize::MAX,
        engine::ledger_open(p, l as usize),
        v.ledgers[l].reference == v.statements[s].reference,
        -tolerance <= v.ledgers[l].amount - v.statements[s].amount <= tolerance,
    ensures
        engine::closest(v, p, s, tolerance, n) matches Some(x) && {
            let near = v.ledgers[x as int].amount - v.statements[s].amount;
            let other = v.ledgers[l].amount - v.statements[s].amount;
            &&& (near <= other || near <= -other) && (-near <= other || -near <= -other)
            &&& (near == other || near == -other) ==> x <= l
        },
    decreases n,
{
    laws::closest_is_open(v, p, s, tolerance, n - 1);
    if l < n - 1 {
        tolerance_matches_take_the_first(v, p, s, tolerance, n - 1, l);
    }
}

/// Whether a line comes before another: by date, then by reference.
pub open spec fn is_before(a: LineView, b: LineView) -> bool {
    a.day < b.day || (a.day == b.day && text::text_lt(a.reference, b.reference))
}

/// Whether a ledger line may stand in a group for a statement line: it is
/// free, moves money the same way, and lies within the date window.
pub open spec fn may_group(
    v: InputsView,
    window: Option<i64>,
    p: Seq<Pairing>,
    s: int,
    l: int,
) -> bool {
    &&& 0 <= l < v.ledgers.len()
    &&& engine::ledger_open(p, l as usize)
    &&& v.ledgers[l].amount > 0 <==> v.statements[s].amount > 0
    &&& window matches Some(days) ==> -days <= v.ledgers[l].day - v.statements[s].day <= days
}

proof fn eligibles_listed(v: InputsView, window: Option<i64>, p: Seq<Pairing>, s: int, n: int, l: int)
    requires
        0 <= n <= v.ledgers.len() <= usize::MAX,
        0 <= l < n,
        engine::eligible(v, window, p, s, l),
    ensures
        engine::eligibles(v, window, p, s, n).contains(l as usize),
    decreases n,
{
    let all = engine::eligibles(v, window, p, s, n);
    if l == n - 1 {
        assert(all.last() == l as usize);
    } else {
        eligibles_listed(v, window, p, s, n - 1, l);
        let rest = engine::eligibles(v, window, p, s, n - 1);
        let k = choose|k: int| 0 <= k < rest.len() && rest[k] == l as usize;
        assert(all[k] == l as usize);
    }
}

proof fn eligibles_rise(v: InputsView, window: Option<i64>, p: Seq<Pairing>, s: int, n: int)
    requires
        0 <= n <= v.ledgers.len() <= usize::MAX,
    ensures
        forall|k: int|
            0 <= k < engine::eligibles(v, window, p, s, n).len() ==> (#[trigger] engine::eligibles(
                v,
                window,
                p,
                s,
                n,
            )[k]) < n,
    decreases n,
{
    if n > 0 {
        eligibles_rise(v, window, p, s, n - 1);
        let rest = engine::eligibles(v, window, p, s, n - 1);
        let all = engine::eligibles(v, window, p, s, n);
        assert forall|k: int| 0 <= k < all.len() implies (#[trigger] all[k]) < n by {
            if k < rest.len() {
                assert(all[k] == rest[k]);
            }
        }
    }
}

/// The lines that are tried for a statement line are those that may stand in
/// a group for it, in order of date and reference. One that may and is not
/// tried comes before none that is, and is left out only because as many as
/// the cap are tried.
pub proof fn the_earliest_lines_are_tried(
    v: InputsView,
    window: Option<i64>,
    cap: nat,
    p: Seq<Pairing>,
    s: int,
)
    requires
        v.ledgers.len() <= usize::MAX,
    ensures
        ({
            let c = engine::candidates(v, window, cap, p, s);
            &&& c.len() <= cap
            &&& forall|k: int| 0 <= k < c.len() ==> may_group(v, window, p, s, #[trigger] c[k] as int)
            &&& forall|j: int, k: int|
                0 <= j < k < c.len() ==> !is_before(
                    v.ledgers[#[trigger] c[k] as int],
                    v.ledgers[#[trigger] c[j] as int],
                )
            &&& forall|l: int| #[trigger]
                may_group(v, window, p, s, l) && !c.contains(l as usize) ==> c.len() == cap
                    && forall|j: int|
                    0 <= j < c.len() ==> !is_before(v.ledgers[l], v.ledgers[#[trigger] c[j] as int])
        }),
{
    let n = v.ledgers.len() as int;
    let lt = |a: usize, b: usize| engine::line_lt(v.ledgers, a, b);
    let raw = engine::eligibles(v, window, p, s, n);
    let all = order::stable_sort(raw, lt);
    let c = engine::candidates(v, window, cap, p, s);
    let line_of = |l: usize| v.ledgers[l as int];
    let before = |a: LineView, b: LineView| laws::line_before(a, b);
    engine::candidates_fit(v, window, cap, p, s);
    eligibles_rise(v, window, p, s, n);
    order::stable_sort_elements(raw, lt);
    laws::line_order();
    assert forall|a: usize, b: usize| raw.contains(a) && raw.contains(b) implies #[trigger] lt(a, b)
        == before(line_of(a), line_of(b)) by {
        let i = choose|i: int| 0 <= i < raw.len() && raw[i] == a;
        let j = choose|j: int| 0 <= j < raw.len() && raw[j] == b;
        assert(raw[i] < n && raw[j] < n);
    }
    order::stable_sort_maps(raw, line_of, lt, before);
    order::stable_sort_sorts(raw.map_values(line_of), before);
    let lines = order::stable_sort(raw.map_values(line_of), before);
    assert forall|j: int, k: int| 0 <= j < k < all.len() implies !is_before(
        v.ledgers[#[trigger] all[k] as int],
        v.ledgers[#[trigger] all[j] as int],
    ) by {
        assert(lines[j] == line_of(all[j]));
        assert(lines[k] == line_of(all[k]));
        assert(!before(lines[k], lines[j]));
    }
    assert forall|j: int| 0 <= j < c.len() implies #[trigger] c[j] == all[j] by {}
    assert forall|l: int| #[trigger] may_group(v, window, p, s, l) && !c.contains(
        l as usize,
    ) implies c.len() == cap && forall|j: int|
        0 <= j < c.len() ==> !is_before(v.ledgers[l], v.ledgers[#[trigger] c[j] as int]) by {
        assert(engine::eligible(v, window, p, s, l));
        eligibles_listed(v, window, p, s, n, l);
        assert(all.contains(l as usize));
        let m = choose|m: int| 0 <= m < all.len() && all[m] == l as usize;
        if m < c.len() {
            assert(c[m] == l as usize);
        }
        assert(m >= c.len());
        assert forall|j: int| 0 <= j < c.len() implies !is_before(
            v.ledgers[l],
            v.ledgers[#[trigger] c[j] as int],
        ) by {
            assert(c[j] == all[j]);
            assert(!is_before(v.ledgers[all[m] as int], v.ledgers[all[j] as int]));
        }
    }
}

/// The group search prefers the earlier candidate: where some group goes on
/// with the candidate at a place, the group that is found does.
pub proof fn groups_take_the_earliest(
    lines: Seq<LineView>,
    c: Seq<usize>,
    target: int,
    tolerance: int,
    max_size: nat,
    i: int,
    chosen: Seq<usize>,
    rest: Seq<usize>,
)
    requires
        0 <= i < c.len(),
        !engine::is_group(lines, chosen, target, tolerance),
        engine::is_pick(c, i + 1, rest),
        chosen.len() + 1 + rest.len() <= max_size,
        engine::is_group(lines, chosen.push(c[i]) + rest, target, tolerance),
    ensures
        engine::first_group(lines, c, target, tolerance, max_size, i, chosen) matches Some(g) && {
            &&& g.len() > chosen.len()
            &&& g[chosen.len() as int] == c[i]
            &&& forall|k: int| 0 <= k < chosen.len() ==> g[k] == #[trigger] chosen[k]
        },
{
    let more = chosen.push(c[i]);
    laws::group_search_is_complete(
        lines,
        c,
        target,
        tolerance,
        max_size,
        i + 1,
        more,
        rest,
    );
    engine::group_is_sound(lines, c, target, tolerance, max_size, i + 1, more);
    let g = engine::first_group(lines, c, target, tolerance, max_size, i + 1, more)->0;
    assert(g.take(more.len() as int) == more);
    assert(g[chosen.len() as int] == g.take(more.len() as int)[chosen.len() as int]);
    assert forall|k: int| 0 <= k < chosen.len() implies g[k] == #[trigger] chosen[k] by {
        assert(g.take(more.len() as int)[k] == more[k]);
    }
}

// ---- what is reported ----

/// Whether an unmatched item is reported of a line: with its id, its age in
/// days, and as stale exactly when it is older than the stale days.
pub open spec fn is_item(u: UnmatchedView, line: LineView, as_of: int, c: BankrecConfig) -> bool {
    &&& u.id == line.id
    &&& u.date == date::date_text(line.day)
    &&& u.age_days + line.day == as_of
    &&& u.stale <==> line.day + c.stale_days < as_of
}

/// Whether a finding of a rule says that a line is unmatched: as a breach
/// that needs a signoff where the line is stale, and as a warning otherwise.
pub open spec fn is_told(
    f: FindingView,
    rule: Seq<char>,
    line: LineView,
    as_of: int,
    c: BankrecConfig,
) -> bool {
    &&& f.rule_id == rule
    &&& f.subject == line.id
    &&& line.day + c.stale_days < as_of ==> f.severity == Severity::Breach && f.requires_signoff
    &&& line.day + c.stale_days >= as_of ==> f.severity == Severity::Warn && !f.requires_signoff
}

/// A statement line that is in no match is listed with its age, told of in a
/// finding, and proposed for recording in the ledger.
pub proof fn unmatched_statements_are_told_of(v: InputsView, c: BankrecConfig, as_of: int, s: int)
    requires
        0 <= s < v.statements.len() <= usize::MAX,
        engine::statement_open(engine::pairings(v, c), s as usize),
    ensures
        ({
            let report = engine::report_of(v, c, as_of);
            let line = v.statements[s];
            &&& exists|k: int|
                0 <= k < report.unmatched_statement.len() && is_item(
                    #[trigger] report.unmatched_statement[k],
                    line,
                    as_of,
                    c,
                ) && report.unmatched_statement[k].side == Side::Statement
            &&& exists|k: int|
                0 <= k < report.findings.len() && is_told(
                    #[trigger] report.findings[k],
                    "stmt-unmatched"@,
                    line,
                    as_of,
                    c,
                )
            &&& exists|k: int|
                0 <= k < report.adjustment_proposals.len() && (
                #[trigger] report.adjustment_proposals[k]).subject == line.id
                    && report.adjustment_proposals[k].kind == ProposalKind::RecordLedgerEntry
        }),
{
    let report = engine::report_of(v, c, as_of);
    let line = v.statements[s];
    let stale = c.stale_days as int;
    laws::unmatched_statements_are_reported(v, c, as_of, s);
    let u = engine::unmatched_of(line, Side::Statement, as_of, stale);
    let f = engine::unmatched_finding(line, Side::Statement, as_of, stale);
    let q = engine::proposal_of(line, Side::Statement);
    let i = choose|i: int|
        0 <= i < report.unmatched_statement.len() && report.unmatched_statement[i] == u;
    assert(is_item(report.unmatched_statement[i], line, as_of, c));
    let j = choose|j: int| 0 <= j < report.findings.len() && report.findings[j] == f;
    assert(is_told(report.findings[j], "stmt-unmatched"@, line, as_of, c));
    let k = choose|k: int|
        0 <= k < report.adjustment_proposals.len() && report.adjustment_proposals[k] == q;
    assert(report.adjustment_proposals[k].subject == line.id);
}

/// A ledger line that is in no match is listed with its age, told of in a
/// finding, and proposed for investigation.
pub proof fn unmatched_ledger_lines_are_told_of(v: InputsView, c: BankrecConfig, as_of: int, l: int)
    requires
        0 <= l < v.ledgers.len() <= usize::MAX,
        engine::ledger_open(engine::pairings(v, c), l as usize),
    ensures
        ({
            let report = engine::report_of(v, c, as_of);
            let line = v.ledgers[l];
            &&& exists|k: int|
                0 <= k < report.unmatched_ledger.len() && is_item(
                    #[trigger] report.unmatched_ledger[k],
                    line,
                    as_of,
                    c,
                ) && report.unmatched_ledger[k].side == Side::Ledger
            &&& exists|k: int|
                0 <= k < report.findings.len() && is_told(
                    #[trigger] report.findings[k],
                    "ledger-unmatched"@,
                    line,
                    as_of,
                    c,
                )
            &&& exists|k: int|
                0 <= k < report.adjustment_proposals.len() && (
                #[trigger] report.adjustment_proposals[k]).subject == line.id
                    && report.adjustment_proposals[k].kind == ProposalKind::InvestigateLedgerEntry
        }),
{
    let report = engine::report_of(v, c, as_of);
    let line = v.ledgers[l];
    let stale = c.stale_days as int;
    laws::unmatched_ledgers_are_reported(v, c, as_of, l);
    let u = engine::unmatched_of(line, Side::Ledger, as_of, stale);
    let f = engine::unmatched_finding(line, Side::Ledger, as_of, stale);
    let q = engine::proposal_of(line, Side::Ledger);
    let i = choose|i: int|
        0 <= i < report.unmatched_ledger.len() && report.unmatched_ledger[i] == u;
    assert(is_item(report.unmatched_ledger[i], line, as_of, c));
    let j = choose|j: int| 0 <= j < report.findings.len() && report.findings[j] == f;
    assert(is_told(report.findings[j], "ledger-unmatched"@, line, as_of, c));
    let k = choose|k: int|
        0 <= k < report.adjustment_proposals.len() && report.adjustment_proposals[k] == q;
    assert(report.adjustment_proposals[k].subject == line.id);
}

/// Whether two lines have the same reference, the same amount, and the same
/// date.
pub open spec fn is_repeat(a: LineView, b: LineView) -> bool {
    a.reference == b.reference && a.amount == b.amount && a.day == b.day
}

/// Whether a finding warns of a line under a rule.
pub open spec fn is_warned(f: FindingView, rule: Seq<char>, id: Seq<char>) -> bool {
    f.rule_id == rule && f.subject == id && f.severity == Severity::Warn && !f.requires_signoff
}

/// A statement line and a ledger line are warned of where they repeat an
/// earlier line of their side in reference, amount, and date.
pub proof fn repeats_are_warned_of(v: InputsView, c: BankrecConfig, as_of: int, i: int, j: int)
    requires
        v.statements.len() <= usize::MAX,
        v.ledgers.len() <= usize::MAX,
    ensures
        ({
            let f = engine::report_of(v, c, as_of).findings;
            &&& 0 <= i < j < v.statements.len() && is_repeat(v.statements[i], v.statements[j])
                ==> exists|k: int|
                0 <= k < f.len() && is_warned(
                    #[trigger] f[k],
                    "stmt-duplicate"@,
                    v.statements[j].id,
                )
            &&& 0 <= i < j < v.ledgers.len() && is_repeat(v.ledgers[i], v.ledgers[j])
                ==> exists|k: int|
                0 <= k < f.len() && is_warned(#[trigger] f[k], "ledger-duplicate"@, v.ledgers[j].id)
        }),
{
    let f = engine::report_of(v, c, as_of).findings;
    let n = v.statements.len() as int;
    let m = v.ledgers.len() as int;
    let a = engine::duplicates(v.statements, engine::RULE_STMT_DUPLICATE@, "statement line"@, n);
    let b = engine::duplicates(v.ledgers, engine::RULE_LEDGER_DUPLICATE@, "ledger entry"@, m);
    if 0 <= i < j < n && is_repeat(v.statements[i], v.statements[j]) {
        laws::repeated_lines_are_warned_of(
            v.statements,
            engine::RULE_STMT_DUPLICATE@,
            "statement line"@,
            i,
            j,
        );
        let first = choose|x: int|
            {
                &&& 0 <= x <= i
                &&& engine::same_key(#[trigger] v.statements[x], v.statements[j])
                &&& a.contains(
                    engine::duplicate_of(
                        v.statements[j],
                        v.statements[x],
                        engine::RULE_STMT_DUPLICATE@,
                        "statement line"@,
                    ),
                )
            };
        let x = engine::duplicate_of(
            v.statements[j],
            v.statements[first],
            engine::RULE_STMT_DUPLICATE@,
            "statement line"@,
        );
        let k = choose|k: int| 0 <= k < a.len() && a[k] == x;
        assert(f[k] == x);
        assert(is_warned(f[k], "stmt-duplicate"@, v.statements[j].id));
    }
    if 0 <= i < j < m && is_repeat(v.ledgers[i], v.ledgers[j]) {
        laws::repeated_lines_are_warned_of(
            v.ledgers,
            engine::RULE_LEDGER_DUPLICATE@,
            "ledger entry"@,
            i,
            j,
        );
        let first = choose|x: int|
            {
                &&& 0 <= x <= i
                &&& engine::same_key(#[trigger] v.ledgers[x], v.ledgers[j])
                &&& b.contains(
                    engine::duplicate_of(
                        v.ledgers[j],
                        v.ledgers[x],
                        engine::RULE_LEDGER_DUPLICATE@,
                        "ledger entry"@,
                    ),
                )
            };
        let x = engine::duplicate_of(
            v.ledgers[j],
            v.ledgers[first],
            engine::RULE_LEDGER_DUPLICATE@,
            "ledger entry"@,
        );
        let k = choose|k: int| 0 <= k < b.len() && b[k] == x;
        assert(f[a.len() + k] == x);
        assert(is_warned(f[a.len() + k], "ledger-duplicate"@, v.ledgers[j].id));
    }
}

/// Whether a finding is about something: a line that repeats an earlier one
/// of its side, or a line that is in no match.
pub open spec fn is_founded(v: InputsView, c: BankrecConfig, as_of: int, f: FindingView) -> bool {
    ||| exists|i: int, j: int|
        0 <= i < j < v.statements.len() && is_repeat(
            #[trigger] v.statements[i],
            #[trigger] v.statements[j],
        ) && is_warned(f, "stmt-duplicate"@, v.statements[j].id)
    ||| exists|i: int, j: int|
        0 <= i < j < v.ledgers.len() && is_repeat(#[trigger] v.ledgers[i], #[trigger] v.ledgers[j])
            && is_warned(f, "ledger-duplicate"@, v.ledgers[j].id)
    ||| exists|s: int|
        0 <= s < v.statements.len() && engine::statement_open(
            engine::pairings(v, c),
            s as usize,
        ) && is_told(f, "stmt-unmatched"@, #[trigger] v.statements[s], as_of, c)
    ||| exists|l: int|
        0 <= l < v.ledgers.len() && engine::ledger_open(engine::pairings(v, c), l as usize)
            && is_told(f, "ledger-unmatched"@, #[trigger] v.ledgers[l], as_of, c)
}

proof fn open_statement_places(v: InputsView, p: Seq<Pairing>, n: int, k: int)
    requires
        0 <= n <= v.statements.len(),
        0 <= k < engine::open_statements(v, p, n).len(),
    ensures
        exists|s: int|
            0 <= s < n && engine::statement_open(p, s as usize) && #[trigger] v.statements[s]
                == engine::open_statements(v, p, n)[k],
    decreases n,
{
    let rest = engine::open_statements(v, p, n - 1);
    if k < rest.len() {
        open_statement_places(v, p, n - 1, k);
        assert(engine::open_statements(v, p, n)[k] == rest[k]);
    } else {
        assert(v.statements[n - 1] == engine::open_statements(v, p, n)[k]);
    }
}

proof fn open_ledger_places(v: InputsView, p: Seq<Pairing>, n: int, k: int)
    requires
        0 <= n <= v.ledgers.len(),
        0 <= k < engine::open_ledgers(v, p, n).len(),
    ensures
        exists|l: int|
            0 <= l < n && engine::ledger_open(p, l as usize) && #[trigger] v.ledgers[l]
                == engine::open_ledgers(v, p, n)[k],
    decreases n,
{
    let rest = engine::open_ledgers(v, p, n - 1);
    if k < rest.len() {
        open_ledger_places(v, p, n - 1, k);
        assert(engine::open_ledgers(v, p, n)[k] == rest[k]);
    } else {
        assert(v.ledgers[n - 1] == engine::open_ledgers(v, p, n)[k]);
    }
}

/// Nothing is told without cause: every finding is about a line that repeats
/// an earlier one or is in no match.
pub proof fn findings_are_founded(v: InputsView, c: BankrecConfig, as_of: int, k: int)
    requires
        v.statements.len() <= usize::MAX,
        v.ledgers.len() <= usize::MAX,
        0 <= k < engine::report_of(v, c, as_of).findings.len(),
    ensures
        is_founded(v, c, as_of, engine::report_of(v, c, as_of).findings[k]),
{
    let f = engine::report_of(v, c, as_of).findings;
    let p = engine::pairings(v, c);
    let n = v.statements.len() as int;
    let m = v.ledgers.len() as int;
    let stale = c.stale_days as int;
    let a = engine::duplicates(v.statements, engine::RULE_STMT_DUPLICATE@, "statement line"@, n);
    let b = engine::duplicates(v.ledgers, engine::RULE_LEDGER_DUPLICATE@, "ledger entry"@, m);
    let x = engine::open_statements(v, p, n);
    let y = engine::open_ledgers(v, p, m);
    if k < a.len() {
        assert(f[k] == a[k]);
        laws::first_lines_are_never_warned_of(
            v.statements,
            engine::RULE_STMT_DUPLICATE@,
            "statement line"@,
            n,
            k,
        );
    } else if k < a.len() + b.len() {
        assert(f[k] == b[k - a.len()]);
        laws::first_lines_are_never_warned_of(
            v.ledgers,
            engine::RULE_LEDGER_DUPLICATE@,
            "ledger entry"@,
            m,
            k - a.len(),
        );
    } else if k < a.len() + b.len() + x.len() {
        let t = k - a.len() - b.len();
        open_statement_places(v, p, n, t);
        assert(f[k] == engine::unmatched_finding(x[t], Side::Statement, as_of, stale));
    } else {
        let t = k - a.len() - b.len() - x.len();
        open_ledger_places(v, p, m, t);
        assert(f[k] == engine::unmatched_finding(y[t], Side::Ledger, as_of, stale));
    }
}

} // verus!
