//! The matching engine.
//!
//! 1. Exact: identical amount and identical reference.
//! 2. Tolerance: same reference, amount within the configured window; the
//!    smallest variance wins, ties go to input order.
//! 3. Many-to-one: several ledger lines whose sum lands within the window
//!    around one statement line, found in canonical order (date, reference,
//!    input order).
//!
//! Duplicate lines are warned of, and unmatched items past the stale
//! threshold are breaches.

use vstd::prelude::*;
use vstd::string::StringExecFns;

use crate::bankrec::config::BankrecConfig;
use crate::bankrec::inputs;
use crate::bankrec::inputs::{CanonicalLedger, CanonicalStatement, InputsView, LineView, ValidatedInputs};
use crate::date;
use crate::date::Date;
use crate::order;
use crate::order::Order;
use crate::spine;
use crate::spine::{Finding, FindingView, Severity};
use crate::text;

verus! {

/// Unmatched statement line.
pub const RULE_STMT_UNMATCHED: &'static str = "stmt-unmatched";

/// Unmatched ledger entry.
pub const RULE_LEDGER_UNMATCHED: &'static str = "ledger-unmatched";

/// Statement line with the reference, amount, and date of an earlier one.
pub const RULE_STMT_DUPLICATE: &'static str = "stmt-duplicate";

/// Ledger entry with the reference, amount, and date of an earlier one.
pub const RULE_LEDGER_DUPLICATE: &'static str = "ledger-duplicate";

/// Smallest many-to-one group.
pub const MIN_GROUP_SIZE: usize = 2;

/// Which pass made a match.
#[derive(Debug, Clone, Copy, PartialEq, Eq, Structural)]
pub enum MatchTier {
    Exact,
    Tolerance,
    ManyToOne,
}

/// Which side an unmatched item is on.
#[derive(Debug, Clone, Copy, PartialEq, Eq, Structural)]
pub enum Side {
    Statement,
    Ledger,
}

/// A statement line and the ledger lines that cover it.
#[derive(Debug, Clone, PartialEq, Eq)]
pub struct MatchRecord {
    pub tier: MatchTier,
    pub statement_id: String,
    pub ledger_ids: Vec<String>,
    pub statement_amount_cents: i128,
    pub matched_amount_cents: i128,
    pub variance_cents: i128,
}

/// What a [`MatchRecord`] says.
#[verifier::ext_equal]
pub struct MatchView {
    pub tier: MatchTier,
    pub statement_id: Seq<char>,
    pub ledger_ids: Seq<Seq<char>>,
    pub statement_amount_cents: int,
    pub matched_amount_cents: int,
    pub variance_cents: int,
}

impl View for MatchRecord {
    type V = MatchView;

    open spec fn view(&self) -> MatchView {
        MatchView {
            tier: self.tier,
            statement_id: self.statement_id@,
            ledger_ids: self.ledger_ids@.map_values(|s: String| s@),
            statement_amount_cents: self.statement_amount_cents as int,
            matched_amount_cents: self.matched_amount_cents as int,
            variance_cents: self.variance_cents as int,
        }
    }
}

/// An item that found no match.
#[derive(Debug, Clone)]
pub struct UnmatchedItem {
    pub id: String,
    pub side: Side,
    pub date: String,
    pub age_days: i64,
    pub stale: bool,
}

/// What an [`UnmatchedItem`] says.
#[verifier::ext_equal]
pub struct UnmatchedView {
    pub id: Seq<char>,
    pub side: Side,
    pub date: Seq<char>,
    pub age_days: int,
    pub stale: bool,
}

impl View for UnmatchedItem {
    type V = UnmatchedView;

    open spec fn view(&self) -> UnmatchedView {
        UnmatchedView {
            id: self.id@,
            side: self.side,
            date: self.date@,
            age_days: self.age_days as int,
            stale: self.stale,
        }
    }
}

/// What a human is advised to do about an unmatched item.
#[derive(Debug, Clone, Copy, PartialEq, Eq, Structural)]
pub enum ProposalKind {
    /// Money moved at the bank with no ledger entry.
    RecordLedgerEntry,
    /// The books show what the bank does not.
    InvestigateLedgerEntry,
}

/// An adjustment proposal.
#[derive(Debug, Clone)]
pub struct AdjustmentProposal {
    pub kind: ProposalKind,
    pub subject: String,
    pub detail: String,
}

/// What an [`AdjustmentProposal`] says.
#[verifier::ext_equal]
pub struct ProposalView {
    pub kind: ProposalKind,
    pub subject: Seq<char>,
    pub detail: Seq<char>,
}

impl View for AdjustmentProposal {
    type V = ProposalView;

    open spec fn view(&self) -> ProposalView {
        ProposalView { kind: self.kind, subject: self.subject@, detail: self.detail@ }
    }
}

/// The outcome of a reconciliation run.
#[derive(Debug, Clone)]
pub struct ReconciliationReport {
    pub as_of: String,
    pub matches: Vec<MatchRecord>,
    pub unmatched_statement: Vec<UnmatchedItem>,
    pub unmatched_ledger: Vec<UnmatchedItem>,
    pub adjustment_proposals: Vec<AdjustmentProposal>,
    pub findings: Vec<Finding>,
}

/// What a [`ReconciliationReport`] says.
#[verifier::ext_equal]
pub struct ReportView {
    pub as_of: Seq<char>,
    pub matches: Seq<MatchView>,
    pub unmatched_statement: Seq<UnmatchedView>,
    pub unmatched_ledger: Seq<UnmatchedView>,
    pub adjustment_proposals: Seq<ProposalView>,
    pub findings: Seq<FindingView>,
}

pub open spec fn matches_view(s: Seq<MatchRecord>) -> Seq<MatchView> {
    s.map_values(|m: MatchRecord| m@)
}

pub open spec fn unmatched_view(s: Seq<UnmatchedItem>) -> Seq<UnmatchedView> {
    s.map_values(|u: UnmatchedItem| u@)
}

pub open spec fn proposals_view(s: Seq<AdjustmentProposal>) -> Seq<ProposalView> {
    s.map_values(|p: AdjustmentProposal| p@)
}

impl View for ReconciliationReport {
    type V = ReportView;

    open spec fn view(&self) -> ReportView {
        ReportView {
            as_of: self.as_of@,
            matches: matches_view(self.matches@),
            unmatched_statement: unmatched_view(self.unmatched_statement@),
            unmatched_ledger: unmatched_view(self.unmatched_ledger@),
            adjustment_proposals: proposals_view(self.adjustment_proposals@),
            findings: spine::findings_view(self.findings@),
        }
    }
}

/// A match by places: a statement line and the ledger lines that cover it.
#[verifier::ext_equal]
pub struct Pairing {
    pub tier: MatchTier,
    pub statement: usize,
    pub ledgers: Seq<usize>,
}

/// Whether statement line `s` is in no match.
pub open spec fn statement_open(p: Seq<Pairing>, s: usize) -> bool {
    forall|k: int| 0 <= k < p.len() ==> (#[trigger] p[k]).statement != s
}

/// Whether ledger line `l` is in no match.
pub open spec fn ledger_open(p: Seq<Pairing>, l: usize) -> bool {
    forall|k: int| 0 <= k < p.len() ==> !(#[trigger] p[k]).ledgers.contains(l)
}

/// The first open ledger line from `l` on with the reference and the amount
/// of statement line `s`.
pub open spec fn exact_hit(v: InputsView, p: Seq<Pairing>, s: int, l: int) -> Option<usize>
    decreases v.ledgers.len() - l,
{
    if l >= v.ledgers.len() {
        None
    } else if ledger_open(p, l as usize) && v.ledgers[l].reference == v.statements[s].reference
        && v.ledgers[l].amount == v.statements[s].amount {
        Some(l as usize)
    } else {
        exact_hit(v, p, s, l + 1)
    }
}

/// The exact matches of the first `n` statement lines.
pub open spec fn exact_pairs(v: InputsView, n: int) -> Seq<Pairing>
    decreases n,
{
    if n <= 0 {
        Seq::empty()
    } else {
        let p = exact_pairs(v, n - 1);
        match exact_hit(v, p, n - 1, 0) {
            Some(l) => p.push(
                Pairing { tier: MatchTier::Exact, statement: (n - 1) as usize, ledgers: seq![l] },
            ),
            None => p,
        }
    }
}

pub open spec fn magnitude(i: int) -> int {
    if i < 0 {
        -i
    } else {
        i
    }
}

/// How far ledger line `l` is from statement line `s`, in cents.
pub open spec fn distance(v: InputsView, s: int, l: int) -> int {
    magnitude(v.ledgers[l].amount - v.statements[s].amount)
}

/// Of the first `n` ledger lines that are open, carry the reference of
/// statement line `s`, and lie within the window: the closest one, the first
/// among equals.
pub open spec fn closest(
    v: InputsView,
    p: Seq<Pairing>,
    s: int,
    tolerance: int,
    n: int,
) -> Option<usize>
    decreases n,
{
    if n <= 0 {
        None
    } else {
        let best = closest(v, p, s, tolerance, n - 1);
        let l = n - 1;
        if ledger_open(p, l as usize) && v.ledgers[l].reference == v.statements[s].reference
            && distance(v, s, l) <= tolerance && (best is None || distance(v, s, l) < distance(
            v,
            s,
            best->0 as int,
        )) {
            Some(l as usize)
        } else {
            best
        }
    }
}

/// The exact matches, then the tolerance matches of the first `n` statement
/// lines.
pub open spec fn tolerance_pairs(v: InputsView, tolerance: int, n: int) -> Seq<Pairing>
    decreases n,
{
    if n <= 0 {
        exact_pairs(v, v.statements.len() as int)
    } else {
        let p = tolerance_pairs(v, tolerance, n - 1);
        let s = n - 1;
        if !statement_open(p, s as usize) {
            p
        } else {
            match closest(v, p, s, tolerance, v.ledgers.len() as int) {
                Some(l) => p.push(
                    Pairing {
                        tier: MatchTier::Tolerance,
                        statement: s as usize,
                        ledgers: seq![l],
                    },
                ),
                None => p,
            }
        }
    }
}

/// Whether ledger line `l` may stand in a group for statement line `s`: it is
/// open, moves money the same way, and lies within the date window.
pub open spec fn eligible(
    v: InputsView,
    window: Option<i64>,
    p: Seq<Pairing>,
    s: int,
    l: int,
) -> bool {
    &&& ledger_open(p, l as usize)
    &&& (v.ledgers[l].amount > 0) == (v.statements[s].amount > 0)
    &&& window is Some ==> magnitude(v.ledgers[l].day - v.statements[s].day) <= window->0
}

/// The eligible ones of the first `n` ledger lines, in input order.
pub open spec fn eligibles(
    v: InputsView,
    window: Option<i64>,
    p: Seq<Pairing>,
    s: int,
    n: int,
) -> Seq<usize>
    decreases n,
{
    if n <= 0 {
        Seq::empty()
    } else {
        let rest = eligibles(v, window, p, s, n - 1);
        if eligible(v, window, p, s, n - 1) {
            rest.push((n - 1) as usize)
        } else {
            rest
        }
    }
}

/// Canonical order of ledger lines: date, then reference.
pub open spec fn line_lt(lines: Seq<LineView>, a: usize, b: usize) -> bool {
    &&& a < lines.len()
    &&& b < lines.len()
    &&& (lines[a as int].day < lines[b as int].day || (lines[a as int].day == lines[b as int].day
        && text::text_lt(lines[a as int].reference, lines[b as int].reference)))
}

/// The ledger lines that are tried for statement line `s`, in canonical
/// order, at most `cap` of them.
pub open spec fn candidates(
    v: InputsView,
    window: Option<i64>,
    cap: nat,
    p: Seq<Pairing>,
    s: int,
) -> Seq<usize> {
    let all = order::stable_sort(
        eligibles(v, window, p, s, v.ledgers.len() as int),
        |a: usize, b: usize| line_lt(v.ledgers, a, b),
    );
    if all.len() <= cap {
        all
    } else {
        all.take(cap as int)
    }
}

/// The sum of the amounts of chosen lines.
pub open spec fn total(lines: Seq<LineView>, chosen: Seq<usize>) -> int
    decreases chosen.len(),
{
    if chosen.len() == 0 {
        0
    } else {
        total(lines, chosen.drop_last()) + lines[chosen.last() as int].amount
    }
}

/// Whether chosen lines are a group: enough of them, within the window.
pub open spec fn is_group(
    lines: Seq<LineView>,
    chosen: Seq<usize>,
    target: int,
    tolerance: int,
) -> bool {
    chosen.len() >= MIN_GROUP_SIZE && magnitude(total(lines, chosen) - target) <= tolerance
}

/// The first group that extends `chosen` by candidates from place `i` on,
/// of at most `max_size` lines: extensions by an earlier candidate come
/// before those without it.
pub open spec fn first_group(
    lines: Seq<LineView>,
    c: Seq<usize>,
    target: int,
    tolerance: int,
    max_size: nat,
    i: int,
    chosen: Seq<usize>,
) -> Option<Seq<usize>>
    decreases c.len() - i,
{
    if is_group(lines, chosen, target, tolerance) {
        Some(chosen)
    } else if chosen.len() >= max_size || i >= c.len() {
        None
    } else {
        match first_group(lines, c, target, tolerance, max_size, i + 1, chosen.push(c[i])) {
            Some(g) => Some(g),
            None => first_group(lines, c, target, tolerance, max_size, i + 1, chosen),
        }
    }
}

/// The group found for statement line `s`.
pub open spec fn group_hit(
    v: InputsView,
    config: BankrecConfig,
    p: Seq<Pairing>,
    s: int,
) -> Option<Seq<usize>> {
    first_group(
        v.ledgers,
        candidates(
            v,
            config.many_to_one_date_window_days,
            config.many_to_one_candidate_cap as nat,
            p,
            s,
        ),
        v.statements[s].amount,
        config.tolerance_cents as int,
        config.max_group_size as nat,
        0,
        Seq::empty(),
    )
}

/// The matches of the first two passes, then the group matches of the first
/// `n` statement lines.
pub open spec fn group_pairs(v: InputsView, config: BankrecConfig, n: int) -> Seq<Pairing>
    decreases n,
{
    if n <= 0 {
        tolerance_pairs(v, config.tolerance_cents as int, v.statements.len() as int)
    } else {
        let p = group_pairs(v, config, n - 1);
        let s = n - 1;
        if !statement_open(p, s as usize) {
            p
        } else {
            match group_hit(v, config, p, s) {
                Some(g) => p.push(
                    Pairing { tier: MatchTier::ManyToOne, statement: s as usize, ledgers: g },
                ),
                None => p,
            }
        }
    }
}

/// Every match of a run, in the order in which they are made.
pub open spec fn pairings(v: InputsView, config: BankrecConfig) -> Seq<Pairing> {
    group_pairs(v, config, v.statements.len() as int)
}

/// A match as reported.
pub open spec fn record_of(v: InputsView, p: Pairing) -> MatchView {
    let amount = v.statements[p.statement as int].amount;
    MatchView {
        tier: p.tier,
        statement_id: v.statements[p.statement as int].id,
        ledger_ids: p.ledgers.map_values(|l: usize| v.ledgers[l as int].id),
        statement_amount_cents: amount,
        matched_amount_cents: total(v.ledgers, p.ledgers),
        variance_cents: total(v.ledgers, p.ledgers) - amount,
    }
}

/// Cents as a signed decimal.
pub open spec fn cents_text(cents: int) -> Seq<char> {
    let abs = magnitude(cents) as nat;
    (if cents < 0 {
        "-"@
    } else {
        "+"@
    }) + text::decimal(abs / 100) + "."@ + text::two_digits(abs % 100)
}

/// An unmatched line as reported.
pub open spec fn unmatched_of(line: LineView, side: Side, as_of: int, stale_days: int) -> UnmatchedView {
    UnmatchedView {
        id: line.id,
        side,
        date: date::date_text(line.day),
        age_days: as_of - line.day,
        stale: as_of - line.day > stale_days,
    }
}

/// How an unmatched line is spoken of.
pub open spec fn side_phrase(side: Side) -> Seq<char> {
    match side {
        Side::Statement => "unmatched statement line for "@,
        Side::Ledger => "unmatched ledger entry for "@,
    }
}

pub open spec fn side_rule(side: Side) -> Seq<char> {
    match side {
        Side::Statement => RULE_STMT_UNMATCHED@,
        Side::Ledger => RULE_LEDGER_UNMATCHED@,
    }
}

/// The finding on an unmatched line: a breach when stale, a warning before.
pub open spec fn unmatched_finding(
    line: LineView,
    side: Side,
    as_of: int,
    stale_days: int,
) -> FindingView {
    let age = as_of - line.day;
    let common = side_phrase(side) + cents_text(line.amount) + " (ref "@ + line.reference + ") is "@
        + text::signed_decimal(age);
    if age > stale_days {
        spine::breach_of(
            side_rule(side),
            line.id,
            common + " days old, past the "@ + text::signed_decimal(stale_days)
                + "-day stale threshold"@,
        )
    } else {
        spine::note_of(side_rule(side), Severity::Warn, line.id, common + " days old"@)
    }
}

/// The open ones of the first `n` statement lines.
pub open spec fn open_statements(v: InputsView, p: Seq<Pairing>, n: int) -> Seq<LineView>
    decreases n,
{
    if n <= 0 {
        Seq::empty()
    } else {
        let rest = open_statements(v, p, n - 1);
        if statement_open(p, (n - 1) as usize) {
            rest.push(v.statements[n - 1])
        } else {
            rest
        }
    }
}

/// The open ones of the first `n` ledger lines.
pub open spec fn open_ledgers(v: InputsView, p: Seq<Pairing>, n: int) -> Seq<LineView>
    decreases n,
{
    if n <= 0 {
        Seq::empty()
    } else {
        let rest = open_ledgers(v, p, n - 1);
        if ledger_open(p, (n - 1) as usize) {
            rest.push(v.ledgers[n - 1])
        } else {
            rest
        }
    }
}

/// The advice on an unmatched line.
pub open spec fn proposal_of(line: LineView, side: Side) -> ProposalView {
    match side {
        Side::Statement => ProposalView {
            kind: ProposalKind::RecordLedgerEntry,
            subject: line.id,
            detail:
                "money moved at the bank with no ledger entry — record it or classify (timing difference, error, or fraud)"@,
        },
        Side::Ledger => ProposalView {
            kind: ProposalKind::InvestigateLedgerEntry,
            subject: line.id,
            detail:
                "recorded in the books but not matched at the bank — confirm timing difference or correct the books"@,
        },
    }
}

/// Order of lines by reference, amount, and date.
pub open spec fn key_lt(lines: Seq<LineView>, a: usize, b: usize) -> bool {
    &&& a < lines.len()
    &&& b < lines.len()
    &&& {
        let x = lines[a as int];
        let y = lines[b as int];
        text::text_lt(x.reference, y.reference) || (x.reference == y.reference && (x.amount < y.amount
            || (x.amount == y.amount && x.day < y.day)))
    }
}

/// Whether two lines agree in reference, amount, and date.
pub open spec fn same_key(x: LineView, y: LineView) -> bool {
    x.reference == y.reference && x.amount == y.amount && x.day == y.day
}

/// The places of the lines, ordered by key and then by input order.
pub open spec fn by_key(lines: Seq<LineView>) -> Seq<usize> {
    order::stable_sort(
        Seq::new(lines.len(), |i: int| i as usize),
        |a: usize, b: usize| key_lt(lines, a, b),
    )
}

/// The first line with the key of the one at place `k` of the key order.
pub open spec fn first_alike(lines: Seq<LineView>, order: Seq<usize>, k: int) -> usize
    decreases k,
{
    if k > 0 && same_key(lines[order[k] as int], lines[order[k - 1] as int]) {
        first_alike(lines, order, k - 1)
    } else {
        order[k]
    }
}

/// The warning on a line that repeats an earlier one.
pub open spec fn duplicate_of(
    line: LineView,
    first: LineView,
    rule_id: Seq<char>,
    noun: Seq<char>,
) -> FindingView {
    spine::note_of(
        rule_id,
        Severity::Warn,
        line.id,
        "duplicate "@ + noun + ": same reference ("@ + line.reference + ") and date ("@
            + date::date_text(line.day) + ") as "@ + first.id,
    )
}

/// The warnings on repeated lines, among the first `n` in key order.
pub open spec fn duplicates(
    lines: Seq<LineView>,
    rule_id: Seq<char>,
    noun: Seq<char>,
    n: int,
) -> Seq<FindingView>
    decreases n,
{
    if n <= 0 {
        Seq::empty()
    } else {
        let rest = duplicates(lines, rule_id, noun, n - 1);
        let order = by_key(lines);
        let k = n - 1;
        if k > 0 && same_key(lines[order[k] as int], lines[order[k - 1] as int]) {
            rest.push(
                duplicate_of(
                    lines[order[k] as int],
                    lines[first_alike(lines, order, k) as int],
                    rule_id,
                    noun,
                ),
            )
        } else {
            rest
        }
    }
}

/// Every finding of a run: repeated statement lines, repeated ledger lines,
/// unmatched statement lines, unmatched ledger lines.
pub open spec fn findings_of(v: InputsView, config: BankrecConfig, as_of: int) -> Seq<FindingView> {
    let p = pairings(v, config);
    duplicates(v.statements, RULE_STMT_DUPLICATE@, "statement line"@, v.statements.len() as int)
        + duplicates(v.ledgers, RULE_LEDGER_DUPLICATE@, "ledger entry"@, v.ledgers.len() as int)
        + open_statements(v, p, v.statements.len() as int).map_values(
        |x: LineView| unmatched_finding(x, Side::Statement, as_of, config.stale_days as int),
    ) + open_ledgers(v, p, v.ledgers.len() as int).map_values(
        |x: LineView| unmatched_finding(x, Side::Ledger, as_of, config.stale_days as int),
    )
}

/// The report of a run.
pub open spec fn report_of(v: InputsView, config: BankrecConfig, as_of: int) -> ReportView {
    let p = pairings(v, config);
    let statements = open_statements(v, p, v.statements.len() as int);
    let ledgers = open_ledgers(v, p, v.ledgers.len() as int);
    ReportView {
        as_of: date::date_text(as_of),
        matches: p.map_values(|x: Pairing| record_of(v, x)),
        unmatched_statement: statements.map_values(
            |x: LineView| unmatched_of(x, Side::Statement, as_of, config.stale_days as int),
        ),
        unmatched_ledger: ledgers.map_values(
            |x: LineView| unmatched_of(x, Side::Ledger, as_of, config.stale_days as int),
        ),
        adjustment_proposals: statements.map_values(
            |x: LineView| proposal_of(x, Side::Statement),
        ) + ledgers.map_values(|x: LineView| proposal_of(x, Side::Ledger)),
        findings: findings_of(v, config, as_of),
    }
}

pub open spec fn fits(i: int) -> bool {
    i128::MIN <= i <= i128::MAX
}

/// Whether the window around an amount stays within the range of amounts, on
/// the side on which sums approach it.
pub open spec fn window_fits(amount: int, tolerance: int) -> bool {
    if amount > 0 {
        fits(amount + tolerance)
    } else {
        fits(amount - tolerance)
    }
}

/// Whether statement line `s` is open after the first two passes.
pub open spec fn is_left(v: InputsView, tolerance: int, s: int) -> bool {
    statement_open(tolerance_pairs(v, tolerance, v.statements.len() as int), s as usize)
}

/// Whether the window of every statement line for which a group is sought
/// stays within the range of amounts.
pub open spec fn windows_fit(v: InputsView, tolerance: int) -> bool {
    forall|s: int|
        0 <= s < v.statements.len() && #[trigger] is_left(v, tolerance, s) ==> window_fits(
            v.statements[s].amount,
            tolerance,
        )
}

struct LedgerOrder<'a> {
    ledgers: &'a Vec<CanonicalLedger>,
}

impl<'a> Order<usize> for LedgerOrder<'a> {
    closed spec fn lt(&self, a: usize, b: usize) -> bool {
        line_lt(inputs::ledger_lines(self.ledgers@), a, b)
    }

    fn before(&self, a: &usize, b: &usize) -> (r: bool) {
        if *a < self.ledgers.len() && *b < self.ledgers.len() {
            let x = &self.ledgers[*a];
            let y = &self.ledgers[*b];
            let xd: i32 = x.date.day_number();
            let yd: i32 = y.date.day_number();
            xd < yd || (xd == yd && text::text_before(x.reference.as_str(), y.reference.as_str()))
        } else {
            false
        }
    }
}

/// Chosen lines of one direction cannot come back once they are past the
/// window: no group extends them.
proof fn past_window(
    lines: Seq<LineView>,
    c: Seq<usize>,
    target: int,
    tolerance: int,
    max_size: nat,
    i: int,
    chosen: Seq<usize>,
)
    requires
        forall|k: int|
            0 <= k < c.len() ==> ((#[trigger] lines[c[k] as int]).amount > 0) == (target > 0),
        0 <= i,
        target > 0 ==> total(lines, chosen) > target + tolerance,
        target <= 0 ==> total(lines, chosen) < target - tolerance,
    ensures
        first_group(lines, c, target, tolerance, max_size, i, chosen) is None,
    decreases c.len() - i,
{
    if i < c.len() {
        assert(chosen.push(c[i]).drop_last() =~= chosen);
        assert((lines[c[i] as int].amount > 0) == (target > 0));
        past_window(lines, c, target, tolerance, max_size, i + 1, chosen.push(c[i]));
        past_window(lines, c, target, tolerance, max_size, i + 1, chosen);
    }
}

/// The distance of two amounts. None where it is out of range.
fn gap_of(a: i128, b: i128) -> (r: Option<i128>)
    ensures
        (match r {
            Some(gap) => gap == magnitude(a - b),
            None => magnitude(a - b) > i128::MAX,
        }),
{
    match a.checked_sub(b) {
        Some(d) => if d >= 0 {
            Some(d)
        } else if d == i128::MIN {
            None
        } else {
            Some(-d)
        },
        None => None,
    }
}

/// Whether two amounts lie within a tolerance of each other.
fn is_near(a: i128, b: i128, tolerance: i128) -> (r: bool)
    ensures
        r == (magnitude(a - b) <= tolerance),
{
    match gap_of(a, b) {
        Some(gap) => gap <= tolerance,
        None => false,
    }
}

/// The first group that extends `chosen` by candidates from place `start`
/// on. Branches past the window are not entered.
fn extend_group(
    candidates: &Vec<usize>,
    ledgers: &Vec<CanonicalLedger>,
    target: i128,
    tolerance: i128,
    max_size: usize,
    start: usize,
    partial: i128,
    chosen: &mut Vec<usize>,
) -> (r: Option<Vec<usize>>)
    requires
        start <= candidates.len(),
        old(chosen).len() <= start,
        forall|k: int|
            0 <= k < candidates.len() ==> (#[trigger] candidates@[k]) < ledgers.len(),
        forall|k: int|
            0 <= k < candidates.len() ==> ((#[trigger] inputs::ledger_lines(
                ledgers@,
            )[candidates@[k] as int]).amount > 0) == (target > 0),
        window_fits(target as int, tolerance as int),
        partial == total(inputs::ledger_lines(ledgers@), old(chosen)@),
    ensures
        final(chosen)@ == old(chosen)@,
        (match r {
            Some(g) => first_group(
                inputs::ledger_lines(ledgers@),
                candidates@,
                target as int,
                tolerance as int,
                max_size as nat,
                start as int,
                old(chosen)@,
            ) == Some(g@),
            None => first_group(
                inputs::ledger_lines(ledgers@),
                candidates@,
                target as int,
                tolerance as int,
                max_size as nat,
                start as int,
                old(chosen)@,
            ) is None,
        }),
    decreases candidates.len() - start,
{
    let ghost lines = inputs::ledger_lines(ledgers@);
    if chosen.len() >= MIN_GROUP_SIZE && is_near(partial, target, tolerance) {
        return Some(chosen.clone());
    }
    if chosen.len() >= max_size {
        return None;
    }
    let bound: i128 = if target > 0 {
        target + tolerance
    } else {
        target - tolerance
    };
    if (target > 0 && partial > bound) || (target <= 0 && partial < bound) {
        proof {
            past_window(
                lines,
                candidates@,
                target as int,
                tolerance as int,
                max_size as nat,
                start as int,
                chosen@,
            );
        }
        return None;
    }
    let mut i: usize = start;
    while i < candidates.len()
        invariant
            start <= i <= candidates.len(),
            chosen@ == old(chosen)@,
            chosen.len() <= start,
            chosen.len() < max_size,
            lines == inputs::ledger_lines(ledgers@),
            bound == (if target > 0 {
                target + tolerance
            } else {
                target - tolerance
            }),
            window_fits(target as int, tolerance as int),
            !is_group(lines, chosen@, target as int, tolerance as int),
            forall|k: int|
                0 <= k < candidates.len() ==> (#[trigger] candidates@[k]) < ledgers.len(),
            forall|k: int|
                0 <= k < candidates.len() ==> ((#[trigger] lines[candidates@[k] as int]).amount > 0)
                    == (target > 0),
            partial == total(lines, chosen@),
            first_group(
                lines,
                candidates@,
                target as int,
                tolerance as int,
                max_size as nat,
                start as int,
                chosen@,
            ) == first_group(
                lines,
                candidates@,
                target as int,
                tolerance as int,
                max_size as nat,
                i as int,
                chosen@,
            ),
        decreases candidates.len() - i,
    {
        let l: usize = candidates[i];
        assert(lines[candidates@[i as int] as int] == ledgers@[l as int]@);
        assert((lines[candidates@[i as int] as int].amount > 0) == (target > 0));
        let ghost grown = chosen@.push(l);
        assert(grown.drop_last() =~= chosen@);
        assert(total(lines, grown) == partial + ledgers@[l as int].amount);
        let next: Option<i128> = match partial.checked_add(ledgers[l].amount) {
            Some(next) => if (target > 0 && next > bound) || (target <= 0 && next < bound) {
                None
            } else {
                Some(next)
            },
            None => None,
        };
        match next {
            None => {
                proof {
                    past_window(
                        lines,
                        candidates@,
                        target as int,
                        tolerance as int,
                        max_size as nat,
                        i + 1,
                        grown,
                    );
                }
            },
            Some(next) => {
                chosen.push(l);
                let found = extend_group(
                    candidates,
                    ledgers,
                    target,
                    tolerance,
                    max_size,
                    i + 1,
                    next,
                    chosen,
                );
                chosen.pop();
                assert(chosen@ =~= old(chosen)@);
                if found.is_some() {
                    return found;
                }
            },
        }
        i = i + 1;
    }
    None
}

/// The first group of candidates, in the order given, of at least
/// [`MIN_GROUP_SIZE`] and at most `max_size` lines, whose sum lands within
/// `tolerance` of `target`.
pub fn find_group(
    candidates: &Vec<usize>,
    ledgers: &Vec<CanonicalLedger>,
    target: i128,
    tolerance: i128,
    max_size: u8,
) -> (r: Option<Vec<usize>>)
    requires
        forall|k: int|
            0 <= k < candidates.len() ==> (#[trigger] candidates@[k]) < ledgers.len(),
        forall|k: int|
            0 <= k < candidates.len() ==> ((#[trigger] inputs::ledger_lines(
                ledgers@,
            )[candidates@[k] as int]).amount > 0) == (target > 0),
        window_fits(target as int, tolerance as int),
    ensures
        (match r {
            Some(g) => first_group(
                inputs::ledger_lines(ledgers@),
                candidates@,
                target as int,
                tolerance as int,
                max_size as nat,
                0,
                Seq::empty(),
            ) == Some(g@),
            None => first_group(
                inputs::ledger_lines(ledgers@),
                candidates@,
                target as int,
                tolerance as int,
                max_size as nat,
                0,
                Seq::empty(),
            ) is None,
        }),
{
    let mut chosen: Vec<usize> = Vec::new();
    extend_group(
        candidates,
        ledgers,
        target,
        tolerance,
        max_size as usize,
        0,
        0,
        &mut chosen,
    )
}

/// Where a run stands: which lines are taken, and the matches so far.
struct Progress {
    statement_taken: Vec<bool>,
    ledger_taken: Vec<bool>,
    matches: Vec<MatchRecord>,
}

impl Progress {
    /// Whether this is where a run stands after the matches `p`.
    spec fn stands_at(&self, v: InputsView, p: Seq<Pairing>) -> bool {
        &&& self.statement_taken.len() == v.statements.len()
        &&& self.ledger_taken.len() == v.ledgers.len()
        &&& forall|s: int|
            0 <= s < v.statements.len() ==> #[trigger] self.statement_taken@[s] == !statement_open(
                p,
                s as usize,
            )
        &&& forall|l: int|
            0 <= l < v.ledgers.len() ==> #[trigger] self.ledger_taken@[l] == !ledger_open(
                p,
                l as usize,
            )
        &&& matches_view(self.matches@) == p.map_values(|x: Pairing| record_of(v, x))
    }
}

fn clear_flags(n: usize) -> (r: Vec<bool>)
    ensures
        r.len() == n,
        forall|i: int| 0 <= i < n ==> !#[trigger] r@[i],
{
    let mut out: Vec<bool> = Vec::new();
    while out.len() < n
        invariant
            out.len() <= n,
            forall|i: int| 0 <= i < out.len() ==> !#[trigger] out@[i],
        decreases n - out.len(),
    {
        out.push(false);
    }
    out
}

/// Report a match of statement line `s` with a group of ledger lines.
fn record_match(
    inputs: &ValidatedInputs,
    progress: &mut Progress,
    tier: MatchTier,
    s: usize,
    group: &Vec<usize>,
    matched: i128,
    Ghost(p): Ghost<Seq<Pairing>>,
)
    requires
        old(progress).stands_at(inputs@, p),
        s < inputs.statements.len(),
        forall|k: int| 0 <= k < group.len() ==> (#[trigger] group@[k]) < inputs.ledgers.len(),
        matched == total(inputs@.ledgers, group@),
        fits(matched - inputs@.statements[s as int].amount),
    ensures
        final(progress).stands_at(
            inputs@,
            p.push(Pairing { tier, statement: s, ledgers: group@ }),
        ),
{
    let ghost v = inputs@;
    let ghost pairing = Pairing { tier, statement: s, ledgers: group@ };
    let ghost q = p.push(pairing);
    let ghost was = progress.ledger_taken@;
    let mut ids: Vec<String> = Vec::new();
    let mut k: usize = 0;
    while k < group.len()
        invariant
            k <= group.len(),
            v == inputs@,
            forall|j: int| 0 <= j < group.len() ==> (#[trigger] group@[j]) < inputs.ledgers.len(),
            progress.statement_taken@ == old(progress).statement_taken@,
            progress.matches@ == old(progress).matches@,
            was == old(progress).ledger_taken@,
            was.len() == v.ledgers.len(),
            progress.ledger_taken.len() == v.ledgers.len(),
            forall|l: int|
                0 <= l < v.ledgers.len() ==> #[trigger] progress.ledger_taken@[l] == (was[l]
                    || group@.take(k as int).contains(l as usize)),
            ids.len() == k,
            forall|j: int|
                0 <= j < k ==> (#[trigger] ids@[j])@ == v.ledgers[group@[j] as int].id,
        decreases group.len() - k,
    {
        let l: usize = group[k];
        ids.push(inputs.ledgers[l].id.clone());
        progress.ledger_taken.set(l, true);
        proof {
            let now = group@.take(k + 1);
            assert(now =~= group@.take(k as int).push(l));
            assert forall|x: usize| #[trigger] now.contains(x) <==> (group@.take(k as int).contains(
                x,
            ) || x == l) by {
                if group@.take(k as int).contains(x) {
                    let j = choose|j: int| 0 <= j < k && group@.take(k as int)[j] == x;
                    assert(now[j] == x);
                }
                assert(now[k as int] == l);
            }
        }
        k = k + 1;
    }
    assert(group@.take(k as int) =~= group@);
    progress.statement_taken.set(s, true);
    progress.matches.push(
        MatchRecord {
            tier,
            statement_id: inputs.statements[s].id.clone(),
            ledger_ids: ids,
            statement_amount_cents: inputs.statements[s].amount,
            matched_amount_cents: matched,
            variance_cents: matched - inputs.statements[s].amount,
        },
    );
    proof {
        let last = progress.matches@.last();
        assert(last@ =~= record_of(v, pairing));
        assert(matches_view(progress.matches@) =~= matches_view(old(progress).matches@).push(
            last@,
        ));
        assert(q.map_values(|x: Pairing| record_of(v, x)) =~= p.map_values(
            |x: Pairing| record_of(v, x),
        ).push(record_of(v, pairing)));
        assert forall|x: usize| #[trigger] statement_open(q, x) == (statement_open(p, x) && x != s) by {
            push_opens(p, pairing, x);
        }
        assert forall|x: usize| #[trigger] ledger_open(q, x) == (ledger_open(p, x)
            && !group@.contains(x)) by {
            push_opens(p, pairing, x);
        }
    }
}

proof fn push_opens(p: Seq<Pairing>, pairing: Pairing, x: usize)
    ensures
        statement_open(p.push(pairing), x) == (statement_open(p, x) && x != pairing.statement),
        ledger_open(p.push(pairing), x) == (ledger_open(p, x) && !pairing.ledgers.contains(x)),
{
    let q = p.push(pairing);
    assert(q[p.len() as int] == pairing);
    assert forall|k: int| 0 <= k < p.len() implies #[trigger] q[k] == p[k] by {}
    if statement_open(q, x) {
        assert forall|k: int| 0 <= k < p.len() implies (#[trigger] p[k]).statement != x by {
            assert(q[k] == p[k]);
        }
    }
    if ledger_open(q, x) {
        assert forall|k: int| 0 <= k < p.len() implies !(#[trigger] p[k]).ledgers.contains(x) by {
            assert(q[k] == p[k]);
        }
    }
}

proof fn exact_hit_fits(v: InputsView, p: Seq<Pairing>, s: int, l: int)
    requires
        0 <= l,
        v.ledgers.len() <= usize::MAX,
    ensures
        exact_hit(v, p, s, l) matches Some(x) ==> {
            &&& l <= x < v.ledgers.len()
            &&& ledger_open(p, x)
            &&& v.ledgers[x as int].reference == v.statements[s].reference
            &&& v.ledgers[x as int].amount == v.statements[s].amount
        },
    decreases v.ledgers.len() - l,
{
    if l < v.ledgers.len() {
        exact_hit_fits(v, p, s, l + 1);
    }
}

/// The first pass.
fn match_exact(inputs: &ValidatedInputs) -> (r: Progress)
    ensures
        r.stands_at(inputs@, exact_pairs(inputs@, inputs@.statements.len() as int)),
{
    let ghost v = inputs@;
    let mut progress = Progress {
        statement_taken: clear_flags(inputs.statements.len()),
        ledger_taken: clear_flags(inputs.ledgers.len()),
        matches: Vec::new(),
    };
    proof {
        assert(matches_view(progress.matches@) =~= exact_pairs(v, 0).map_values(
            |x: Pairing| record_of(v, x),
        ));
    }
    let mut s: usize = 0;
    while s < inputs.statements.len()
        invariant
            s <= inputs.statements.len(),
            v == inputs@,
            progress.stands_at(v, exact_pairs(v, s as int)),
        decreases inputs.statements.len() - s,
    {
        let ghost p = exact_pairs(v, s as int);
        assert(v.statements[s as int] == inputs.statements@[s as int]@);
        let mut l: usize = 0;
        let mut searching: bool = true;
        while searching && l < inputs.ledgers.len()
            invariant
                l <= inputs.ledgers.len(),
                s < inputs.statements.len(),
                v == inputs@,
                v.statements[s as int] == inputs.statements@[s as int]@,
                progress.stands_at(v, p),
                searching ==> exact_hit(v, p, s as int, 0) == exact_hit(v, p, s as int, l as int),
                !searching ==> l < inputs.ledgers.len() && exact_hit(v, p, s as int, 0) == Some(l),
            decreases inputs.ledgers.len() - l + (if searching { 1int } else { 0 }),
        {
            assert(v.ledgers[l as int] == inputs.ledgers@[l as int]@);
            if !progress.ledger_taken[l] && inputs.ledgers[l].reference
                == inputs.statements[s].reference && inputs.ledgers[l].amount
                == inputs.statements[s].amount {
                searching = false;
            } else {
                l = l + 1;
            }
        }
        if !searching {
            let mut group: Vec<usize> = Vec::new();
            group.push(l);
            proof {
                exact_hit_fits(v, p, s as int, 0);
                assert(group@ =~= seq![l]);
                assert(group@.drop_last() =~= Seq::<usize>::empty());
                assert(total(v.ledgers, group@.drop_last()) == 0);
                assert(total(v.ledgers, group@) == v.ledgers[l as int].amount);
                assert(v.ledgers[l as int] == inputs.ledgers@[l as int]@);
            }
            let matched: i128 = inputs.ledgers[l].amount;
            record_match(inputs, &mut progress, MatchTier::Exact, s, &group, matched, Ghost(p));
        }
        s = s + 1;
    }
    progress
}

proof fn closest_fits(v: InputsView, p: Seq<Pairing>, s: int, tolerance: int, n: int)
    requires
        n <= v.ledgers.len() <= usize::MAX,
    ensures
        closest(v, p, s, tolerance, n) matches Some(x) ==> {
            &&& 0 <= x < n
            &&& ledger_open(p, x)
            &&& v.ledgers[x as int].reference == v.statements[s].reference
            &&& distance(v, s, x as int) <= tolerance
        },
    decreases n,
{
    if n > 0 {
        closest_fits(v, p, s, tolerance, n - 1);
    }
}

/// The second pass.
fn match_within_tolerance(inputs: &ValidatedInputs, tolerance: i128, progress: &mut Progress)
    requires
        old(progress).stands_at(
            inputs@,
            exact_pairs(inputs@, inputs@.statements.len() as int),
        ),
    ensures
        final(progress).stands_at(
            inputs@,
            tolerance_pairs(inputs@, tolerance as int, inputs@.statements.len() as int),
        ),
{
    let ghost v = inputs@;
    let mut s: usize = 0;
    while s < inputs.statements.len()
        invariant
            s <= inputs.statements.len(),
            v == inputs@,
            progress.stands_at(v, tolerance_pairs(v, tolerance as int, s as int)),
        decreases inputs.statements.len() - s,
    {
        let ghost p = tolerance_pairs(v, tolerance as int, s as int);
        assert(v.statements[s as int] == inputs.statements@[s as int]@);
        if !progress.statement_taken[s] {
            let mut best: Option<usize> = None;
            let mut best_distance: i128 = 0;
            let mut l: usize = 0;
            while l < inputs.ledgers.len()
                invariant
                    l <= inputs.ledgers.len(),
                    s < inputs.statements.len(),
                    v == inputs@,
                    v.statements[s as int] == inputs.statements@[s as int]@,
                    progress.stands_at(v, p),
                    best == closest(v, p, s as int, tolerance as int, l as int),
                    best is Some ==> best_distance == distance(v, s as int, best->0 as int),
                decreases inputs.ledgers.len() - l,
            {
                let ghost line = v.ledgers[l as int];
                assert(line == inputs.ledgers@[l as int]@);
                if !progress.ledger_taken[l] && inputs.ledgers[l].reference
                    == inputs.statements[s].reference {
                    if let Some(gap) = gap_of(
                        inputs.ledgers[l].amount,
                        inputs.statements[s].amount,
                    ) {
                        if gap <= tolerance && (best.is_none() || gap < best_distance) {
                            best = Some(l);
                            best_distance = gap;
                        }
                    }
                }
                l = l + 1;
            }
            if let Some(l) = best {
                let mut group: Vec<usize> = Vec::new();
                group.push(l);
                proof {
                    closest_fits(
                        v,
                        p,
                        s as int,
                        tolerance as int,
                        inputs.ledgers.len() as int,
                    );
                    assert(group@ =~= seq![l]);
                    assert(group@.drop_last() =~= Seq::<usize>::empty());
                    assert(total(v.ledgers, group@.drop_last()) == 0);
                    assert(total(v.ledgers, group@) == v.ledgers[l as int].amount);
                    assert(v.ledgers[l as int] == inputs.ledgers@[l as int]@);
                }
                let matched: i128 = inputs.ledgers[l].amount;
                record_match(
                    inputs,
                    progress,
                    MatchTier::Tolerance,
                    s,
                    &group,
                    matched,
                    Ghost(p),
                );
            }
        }
        s = s + 1;
    }
}

proof fn eligibles_fit(
    v: InputsView,
    window: Option<i64>,
    p: Seq<Pairing>,
    s: int,
    n: int,
)
    requires
        n <= v.ledgers.len() <= usize::MAX,
    ensures
        forall|x: usize|
            #[trigger] eligibles(v, window, p, s, n).contains(x) ==> x < n && eligible(
                v,
                window,
                p,
                s,
                x as int,
            ),
    decreases n,
{
    if n > 0 {
        eligibles_fit(v, window, p, s, n - 1);
        let rest = eligibles(v, window, p, s, n - 1);
        let all = eligibles(v, window, p, s, n);
        assert forall|x: usize| #[trigger] all.contains(x) implies x < n && eligible(
            v,
            window,
            p,
            s,
            x as int,
        ) by {
            let i = choose|i: int| 0 <= i < all.len() && all[i] == x;
            if i < rest.len() {
                assert(rest[i] == x);
                assert(rest.contains(x));
            }
        }
    } else {
        assert(eligibles(v, window, p, s, n) =~= Seq::<usize>::empty());
    }
}

/// Every candidate for a group is an eligible ledger line.
pub proof fn candidates_fit(
    v: InputsView,
    window: Option<i64>,
    cap: nat,
    p: Seq<Pairing>,
    s: int,
)
    requires
        v.ledgers.len() <= usize::MAX,
    ensures
        forall|k: int|
            0 <= k < candidates(v, window, cap, p, s).len() ==> (#[trigger] candidates(
                v,
                window,
                cap,
                p,
                s,
            )[k]) < v.ledgers.len() && eligible(
                v,
                window,
                p,
                s,
                candidates(v, window, cap, p, s)[k] as int,
            ),
        candidates(v, window, cap, p, s).len() <= cap,
{
    let all = eligibles(v, window, p, s, v.ledgers.len() as int);
    let lt = |a: usize, b: usize| line_lt(v.ledgers, a, b);
    let sorted = order::stable_sort(all, lt);
    eligibles_fit(v, window, p, s, v.ledgers.len() as int);
    order::stable_sort_elements(all, lt);
    let c = candidates(v, window, cap, p, s);
    assert forall|k: int| 0 <= k < c.len() implies (#[trigger] c[k]) < v.ledgers.len() && eligible(
        v,
        window,
        p,
        s,
        c[k] as int,
    ) by {
        assert(c[k] == sorted[k]);
        assert(sorted.contains(sorted[k]));
        assert(all.contains(sorted[k]));
    }
}

/// Whether `g` is a selection of entries of `c` from place `i` on, in order.
pub open spec fn is_pick(c: Seq<usize>, i: int, g: Seq<usize>) -> bool
    decreases c.len() - i,
{
    g.len() == 0 || (i < c.len() && ((g[0] == c[i] && is_pick(c, i + 1, g.drop_first())) || is_pick(
        c,
        i + 1,
        g,
    )))
}

proof fn is_pick_elements(c: Seq<usize>, i: int, g: Seq<usize>)
    requires
        0 <= i,
        is_pick(c, i, g),
    ensures
        forall|k: int| 0 <= k < g.len() ==> c.contains(#[trigger] g[k]),
    decreases c.len() - i,
{
    if g.len() > 0 {
        if g[0] == c[i] && is_pick(c, i + 1, g.drop_first()) {
            is_pick_elements(c, i + 1, g.drop_first());
            assert forall|k: int| 0 <= k < g.len() implies c.contains(#[trigger] g[k]) by {
                if k > 0 {
                    assert(g.drop_first()[k - 1] == g[k]);
                }
            }
        } else {
            is_pick_elements(c, i + 1, g);
        }
    }
}

/// A group found is a selection of candidates in canonical order, of allowed
/// size, whose sum lies within the window.
pub proof fn group_is_sound(
    lines: Seq<LineView>,
    c: Seq<usize>,
    target: int,
    tolerance: int,
    max_size: nat,
    i: int,
    chosen: Seq<usize>,
)
    requires
        0 <= i,
        chosen.len() <= max_size || chosen.len() == 0,
    ensures
        first_group(lines, c, target, tolerance, max_size, i, chosen) matches Some(g) ==> {
            &&& is_group(lines, g, target, tolerance)
            &&& g.len() <= max_size || g.len() == chosen.len()
            &&& chosen.len() <= g.len()
            &&& g.take(chosen.len() as int) == chosen
            &&& is_pick(c, i, g.skip(chosen.len() as int))
        },
    decreases c.len() - i,
{
    let n = chosen.len() as int;
    if is_group(lines, chosen, target, tolerance) {
        assert(chosen.take(n) =~= chosen);
        assert(chosen.skip(n).len() == 0);
    } else if chosen.len() < max_size && i < c.len() {
        let more = chosen.push(c[i]);
        group_is_sound(lines, c, target, tolerance, max_size, i + 1, more);
        group_is_sound(lines, c, target, tolerance, max_size, i + 1, chosen);
        match first_group(lines, c, target, tolerance, max_size, i + 1, more) {
            Some(g) => {
                assert(g.take(n + 1) == more);
                assert(g.take(n) =~= more.take(n));
                assert(more.take(n) =~= chosen);
                assert(g[n] == g.take(n + 1)[n]);
                assert(g.skip(n).drop_first() =~= g.skip(n + 1));
                assert(g.skip(n)[0] == c[i]);
            },
            None => {},
        }
    }
}

proof fn total_prefix(lines: Seq<LineView>, g: Seq<usize>, k: int, positive: bool)
    requires
        0 <= k <= g.len(),
        forall|j: int| 0 <= j < g.len() ==> ((#[trigger] lines[g[j] as int]).amount > 0) == positive,
    ensures
        positive ==> 0 <= total(lines, g.take(k)) <= total(lines, g),
        !positive ==> total(lines, g) <= total(lines, g.take(k)) <= 0,
    decreases g.len(),
{
    if g.len() == 0 {
        assert(g.take(k) =~= g);
    } else {
        let front = g.drop_last();
        assert forall|j: int| 0 <= j < front.len() implies ((#[trigger] lines[front[j] as int]).amount
            > 0) == positive by {
            assert(front[j] == g[j]);
        }
        assert((lines[g[g.len() - 1] as int].amount > 0) == positive);
        if k == g.len() {
            assert(g.take(k) =~= g);
            total_prefix(lines, front, front.len() as int, positive);
            assert(front.take(front.len() as int) =~= front);
        } else {
            total_prefix(lines, front, k, positive);
            assert(g.take(k) =~= front.take(k));
        }
    }
}

/// The sum of a group of one direction.
fn sum_of(ledgers: &Vec<CanonicalLedger>, group: &Vec<usize>, Ghost(positive): Ghost<bool>) -> (r: i128)
    requires
        forall|k: int| 0 <= k < group.len() ==> (#[trigger] group@[k]) < ledgers.len(),
        forall|k: int|
            0 <= k < group.len() ==> ((#[trigger] inputs::ledger_lines(ledgers@)[group@[k] as int]).amount
                > 0) == positive,
        fits(total(inputs::ledger_lines(ledgers@), group@)),
    ensures
        r == total(inputs::ledger_lines(ledgers@), group@),
{
    let ghost lines = inputs::ledger_lines(ledgers@);
    let mut sum: i128 = 0;
    let mut k: usize = 0;
    assert(group@.take(0) =~= Seq::<usize>::empty());
    while k < group.len()
        invariant
            k <= group.len(),
            lines == inputs::ledger_lines(ledgers@),
            forall|j: int| 0 <= j < group.len() ==> (#[trigger] group@[j]) < ledgers.len(),
            forall|j: int|
                0 <= j < group.len() ==> ((#[trigger] lines[group@[j] as int]).amount > 0)
                    == positive,
            fits(total(lines, group@)),
            sum == total(lines, group@.take(k as int)),
        decreases group.len() - k,
    {
        let l: usize = group[k];
        assert(lines[l as int] == ledgers@[l as int]@);
        proof {
            let now = group@.take(k + 1);
            assert(now.drop_last() =~= group@.take(k as int));
            assert(now.last() == l);
            total_prefix(lines, group@, k + 1, positive);
        }
        sum = sum + ledgers[l].amount;
        k = k + 1;
    }
    assert(group@.take(k as int) =~= group@);
    sum
}

fn distance_in_days(a: Date, b: Date) -> (r: i64)
    ensures
        r == magnitude(a.day() - b.day()),
{
    let difference: i64 = a.day_number() as i64 - b.day_number() as i64;
    if difference < 0 {
        -difference
    } else {
        difference
    }
}

/// The candidates for a group of statement line `s`.
fn group_candidates(
    inputs: &ValidatedInputs,
    config: &BankrecConfig,
    progress: &Progress,
    s: usize,
    Ghost(p): Ghost<Seq<Pairing>>,
) -> (r: Vec<usize>)
    requires
        progress.stands_at(inputs@, p),
        s < inputs.statements.len(),
    ensures
        r@ == candidates(
            inputs@,
            config.many_to_one_date_window_days,
            config.many_to_one_candidate_cap as nat,
            p,
            s as int,
        ),
{
    let ghost v = inputs@;
    let ghost window = config.many_to_one_date_window_days;
    assert(v.statements[s as int] == inputs.statements@[s as int]@);
    let positive = inputs.statements[s].amount > 0;
    let mut found: Vec<usize> = Vec::new();
    let mut l: usize = 0;
    while l < inputs.ledgers.len()
        invariant
            l <= inputs.ledgers.len(),
            s < inputs.statements.len(),
            v == inputs@,
            window == config.many_to_one_date_window_days,
            v.statements[s as int] == inputs.statements@[s as int]@,
            positive == (v.statements[s as int].amount > 0),
            progress.stands_at(v, p),
            found@ == eligibles(v, window, p, s as int, l as int),
        decreases inputs.ledgers.len() - l,
    {
        assert(v.ledgers[l as int] == inputs.ledgers@[l as int]@);
        let near = match config.many_to_one_date_window_days {
            None => true,
            Some(w) => distance_in_days(inputs.ledgers[l].date, inputs.statements[s].date) <= w,
        };
        if !progress.ledger_taken[l] && (inputs.ledgers[l].amount > 0) == positive && near {
            found.push(l);
        }
        l = l + 1;
    }
    let rule = LedgerOrder { ledgers: &inputs.ledgers };
    let mut sorted = order::sort_by(found, &rule);
    assert(order::order_of(rule) =~= |a: usize, b: usize| line_lt(v.ledgers, a, b));
    let cap: u32 = config.many_to_one_candidate_cap;
    if sorted.len() as u128 > cap as u128 {
        sorted.truncate(cap as usize);
    }
    sorted
}

/// Groups of earlier statement lines leave a line as the first two passes
/// left it.
proof fn groups_leave(v: InputsView, config: BankrecConfig, n: int, x: int)
    requires
        0 <= n <= x < v.statements.len() <= usize::MAX,
    ensures
        statement_open(group_pairs(v, config, n), x as usize) == is_left(
            v,
            config.tolerance_cents as int,
            x,
        ),
    decreases n,
{
    if n > 0 {
        groups_leave(v, config, n - 1, x);
        let p = group_pairs(v, config, n - 1);
        let q = group_pairs(v, config, n);
        if q != p {
            assert(q.drop_last() =~= p);
            assert(q =~= p.push(q.last()));
            push_opens(p, q.last(), x as usize);
        }
    }
}

/// The third pass. Says whether the windows stay within range.
fn match_groups(inputs: &ValidatedInputs, config: &BankrecConfig, progress: &mut Progress) -> (r:
    bool)
    requires
        old(progress).stands_at(
            inputs@,
            tolerance_pairs(
                inputs@,
                config.tolerance_cents as int,
                inputs@.statements.len() as int,
            ),
        ),
    ensures
        r == windows_fit(inputs@, config.tolerance_cents as int),
        r ==> final(progress).stands_at(inputs@, pairings(inputs@, *config)),
{
    let ghost v = inputs@;
    let tolerance: i128 = config.tolerance_cents as i128;
    let mut s: usize = 0;
    while s < inputs.statements.len()
        invariant
            s <= inputs.statements.len(),
            v == inputs@,
            tolerance == config.tolerance_cents,
            forall|k: int|
                0 <= k < s && #[trigger] is_left(v, tolerance as int, k) ==> window_fits(
                    v.statements[k].amount,
                    tolerance as int,
                ),
            progress.stands_at(v, group_pairs(v, *config, s as int)),
        decreases inputs.statements.len() - s,
    {
        let ghost p = group_pairs(v, *config, s as int);
        assert(v.statements[s as int] == inputs.statements@[s as int]@);
        proof {
            groups_leave(v, *config, s as int, s as int);
        }
        if !progress.statement_taken[s] {
            let target: i128 = inputs.statements[s].amount;
            assert(is_left(v, tolerance as int, s as int));
            let fitting = if target > 0 {
                target.checked_add(tolerance).is_some()
            } else {
                target.checked_sub(tolerance).is_some()
            };
            if !fitting {
                return false;
            }
            let c = group_candidates(inputs, config, progress, s, Ghost(p));
            proof {
                candidates_fit(
                    v,
                    config.many_to_one_date_window_days,
                    config.many_to_one_candidate_cap as nat,
                    p,
                    s as int,
                );
                assert forall|k: int| 0 <= k < c.len() implies (#[trigger] c@[k])
                    < inputs.ledgers.len() by {}
                assert forall|k: int| 0 <= k < c.len() implies ((#[trigger] v.ledgers[c@[k] as int]).amount
                    > 0) == (target > 0) by {
                    assert(c@[k] < v.ledgers.len());
                }
            }
            if let Some(group) = find_group(
                &c,
                &inputs.ledgers,
                target,
                tolerance,
                config.max_group_size,
            ) {
                proof {
                    group_is_sound(
                        v.ledgers,
                        c@,
                        target as int,
                        tolerance as int,
                        config.max_group_size as nat,
                        0,
                        Seq::empty(),
                    );
                    assert(group@.skip(0) =~= group@);
                    is_pick_elements(c@, 0, group@);
                    assert forall|k: int| 0 <= k < group.len() implies (#[trigger] group@[k])
                        < inputs.ledgers.len() && (v.ledgers[group@[k] as int].amount > 0) == (
                    target > 0) by {
                        let j = choose|j: int| 0 <= j < c.len() && c@[j] == group@[k];
                        assert(c@[j] < v.ledgers.len());
                    }
                }
                let matched: i128 = sum_of(&inputs.ledgers, &group, Ghost(target > 0));
                record_match(
                    inputs,
                    progress,
                    MatchTier::ManyToOne,
                    s,
                    &group,
                    matched,
                    Ghost(p),
                );
            }
        }
        s = s + 1;
    }
    true
}

/// Cents as a signed decimal, such as `-1250.50`.
pub fn fmt_cents(cents: i128) -> (r: String)
    ensures
        r@ == cents_text(cents as int),
{
    let abs: u128 = if cents < 0 {
        (-(cents + 1)) as u128 + 1
    } else {
        cents as u128
    };
    let mut out = String::from_str(if cents < 0 { "-" } else { "+" });
    out.append(text::unsigned_text(abs / 100).as_str());
    out.append(".");
    out.append(text::two_digit_text(abs % 100).as_str());
    out
}

/// A line of either side.
struct Row {
    id: String,
    reference: String,
    amount: i128,
    date: Date,
}

impl View for Row {
    type V = LineView;

    closed spec fn view(&self) -> LineView {
        LineView {
            id: self.id@,
            day: self.date.day(),
            reference: self.reference@,
            amount: self.amount as int,
        }
    }
}

spec fn rows_view(s: Seq<Row>) -> Seq<LineView> {
    s.map_values(|r: Row| r@)
}

struct KeyOrder<'a> {
    rows: &'a Vec<Row>,
}

impl<'a> Order<usize> for KeyOrder<'a> {
    closed spec fn lt(&self, a: usize, b: usize) -> bool {
        key_lt(rows_view(self.rows@), a, b)
    }

    fn before(&self, a: &usize, b: &usize) -> (r: bool) {
        if *a < self.rows.len() && *b < self.rows.len() {
            let x = &self.rows[*a];
            let y = &self.rows[*b];
            text::text_before(x.reference.as_str(), y.reference.as_str()) || (x.reference
                == y.reference && (x.amount < y.amount || (x.amount == y.amount
                && x.date.day_number() < y.date.day_number())))
        } else {
            false
        }
    }
}

/// Warnings on the lines that repeat an earlier one in reference, amount, and
/// date, ordered by these.
fn duplicate_rows_findings(rows: &Vec<Row>, rule_id: &str, noun: &str) -> (r: Vec<Finding>)
    ensures
        spine::findings_view(r@) == duplicates(rows_view(rows@), rule_id@, noun@, rows.len() as int),
{
    let ghost lines = rows_view(rows@);
    let mut places: Vec<usize> = Vec::new();
    let mut i: usize = 0;
    while i < rows.len()
        invariant
            i <= rows.len(),
            places.len() == i,
            forall|k: int| 0 <= k < i ==> #[trigger] places@[k] == k as usize,
        decreases rows.len() - i,
    {
        places.push(i);
        i = i + 1;
    }
    assert(places@ =~= Seq::new(lines.len(), |k: int| k as usize));
    let rule = KeyOrder { rows };
    let ghost unsorted = places@;
    let sorted = order::sort_by(places, &rule);
    proof {
        assert(order::order_of(rule) =~= |a: usize, b: usize| key_lt(lines, a, b));
        order::stable_sort_elements(unsorted, order::order_of(rule));
        order::stable_sort_keeps(unsorted, order::order_of(rule));
        assert forall|k: int| 0 <= k < sorted.len() implies (#[trigger] sorted@[k]) < rows.len() by {
            assert(sorted@.contains(sorted@[k]));
            let j = choose|j: int| 0 <= j < unsorted.len() && unsorted[j] == sorted@[k];
        }
    }
    let mut out: Vec<Finding> = Vec::new();
    let mut first: usize = 0;
    let mut k: usize = 0;
    assert(spine::findings_view(out@) =~= Seq::<FindingView>::empty());
    while k < sorted.len()
        invariant
            k <= sorted.len(),
            sorted.len() == rows.len(),
            lines == rows_view(rows@),
            sorted@ == by_key(lines),
            forall|j: int| 0 <= j < sorted.len() ==> (#[trigger] sorted@[j]) < rows.len(),
            k > 0 ==> first == first_alike(lines, sorted@, k - 1),
            k > 0 ==> first < rows.len(),
            spine::findings_view(out@) == duplicates(lines, rule_id@, noun@, k as int),
        decreases sorted.len() - k,
    {
        let here = &rows[sorted[k]];
        assert(lines[sorted@[k as int] as int] == here@);
        let mut repeats = false;
        if k > 0 {
            let before = &rows[sorted[k - 1]];
            assert(lines[sorted@[k - 1] as int] == before@);
            repeats = here.reference == before.reference && here.amount == before.amount
                && here.date.day_number() == before.date.day_number();
        }
        if repeats {
            let mut m = String::from_str("duplicate ");
            m.append(noun);
            m.append(": same reference (");
            m.append(here.reference.as_str());
            m.append(") and date (");
            m.append(here.date.text().as_str());
            m.append(") as ");
            m.append(rows[first].id.as_str());
            assert(lines[first as int] == rows@[first as int]@);
            let ghost was = out@;
            out.push(Finding::note(rule_id, Severity::Warn, here.id.as_str(), m));
            assert(spine::findings_view(out@) =~= spine::findings_view(was).push(out@.last()@));
        } else {
            first = sorted[k];
        }
        k = k + 1;
    }
    out
}

/// Warnings on repeated statement lines.
fn duplicate_findings(statements: &Vec<CanonicalStatement>) -> (r: Vec<Finding>)
    ensures
        spine::findings_view(r@) == duplicates(
            inputs::statement_lines(statements@),
            RULE_STMT_DUPLICATE@,
            "statement line"@,
            statements.len() as int,
        ),
{
    let mut rows: Vec<Row> = Vec::new();
    let mut i: usize = 0;
    while i < statements.len()
        invariant
            i <= statements.len(),
            rows.len() == i,
            forall|k: int| 0 <= k < i ==> (#[trigger] rows@[k])@ == statements@[k]@,
        decreases statements.len() - i,
    {
        let x = &statements[i];
        rows.push(
            Row {
                id: x.id.clone(),
                reference: x.reference.clone(),
                amount: x.amount,
                date: x.date,
            },
        );
        i = i + 1;
    }
    assert(rows_view(rows@) =~= inputs::statement_lines(statements@));
    duplicate_rows_findings(&rows, RULE_STMT_DUPLICATE, "statement line")
}

/// Warnings on repeated ledger lines: double postings.
fn duplicate_ledger_findings(ledgers: &Vec<CanonicalLedger>) -> (r: Vec<Finding>)
    ensures
        spine::findings_view(r@) == duplicates(
            inputs::ledger_lines(ledgers@),
            RULE_LEDGER_DUPLICATE@,
            "ledger entry"@,
            ledgers.len() as int,
        ),
{
    let mut rows: Vec<Row> = Vec::new();
    let mut i: usize = 0;
    while i < ledgers.len()
        invariant
            i <= ledgers.len(),
            rows.len() == i,
            forall|k: int| 0 <= k < i ==> (#[trigger] rows@[k])@ == ledgers@[k]@,
        decreases ledgers.len() - i,
    {
        let x = &ledgers[i];
        rows.push(
            Row {
                id: x.id.clone(),
                reference: x.reference.clone(),
                amount: x.amount,
                date: x.date,
            },
        );
        i = i + 1;
    }
    assert(rows_view(rows@) =~= inputs::ledger_lines(ledgers@));
    duplicate_rows_findings(&rows, RULE_LEDGER_DUPLICATE, "ledger entry")
}

/// The finding on an unmatched line.
fn report_unmatched(
    id: &String,
    reference: &String,
    amount: i128,
    date: Date,
    side: Side,
    as_of: Date,
    stale_days: i64,
) -> (r: (UnmatchedItem, Finding))
    ensures
        r.0@ == unmatched_of(
            LineView { id: id@, day: date.day(), reference: reference@, amount: amount as int },
            side,
            as_of.day(),
            stale_days as int,
        ),
        r.1@ == unmatched_finding(
            LineView { id: id@, day: date.day(), reference: reference@, amount: amount as int },
            side,
            as_of.day(),
            stale_days as int,
        ),
{
    let age_days: i64 = as_of.day_number() as i64 - date.day_number() as i64;
    let stale = age_days > stale_days;
    let rule_id = match side {
        Side::Statement => RULE_STMT_UNMATCHED,
        Side::Ledger => RULE_LEDGER_UNMATCHED,
    };
    let mut m = String::from_str(
        match side {
            Side::Statement => "unmatched statement line for ",
            Side::Ledger => "unmatched ledger entry for ",
        },
    );
    m.append(fmt_cents(amount).as_str());
    m.append(" (ref ");
    m.append(reference.as_str());
    m.append(") is ");
    m.append(text::signed_text(age_days as i128).as_str());
    let finding = if stale {
        m.append(" days old, past the ");
        m.append(text::signed_text(stale_days as i128).as_str());
        m.append("-day stale threshold");
        Finding::breach(rule_id, id.as_str(), m)
    } else {
        m.append(" days old");
        Finding::note(rule_id, Severity::Warn, id.as_str(), m)
    };
    (UnmatchedItem { id: id.clone(), side, date: date.text(), age_days, stale }, finding)
}

/// The advice on an unmatched line.
fn propose(id: &String, side: Side) -> (r: AdjustmentProposal)
    ensures
        forall|line: LineView| line.id == id@ ==> r@ == #[trigger] proposal_of(line, side),
{
    match side {
        Side::Statement => AdjustmentProposal {
            kind: ProposalKind::RecordLedgerEntry,
            subject: id.clone(),
            detail: String::from_str(
                "money moved at the bank with no ledger entry — record it or classify (timing difference, error, or fraud)",
            ),
        },
        Side::Ledger => AdjustmentProposal {
            kind: ProposalKind::InvestigateLedgerEntry,
            subject: id.clone(),
            detail: String::from_str(
                "recorded in the books but not matched at the bank — confirm timing difference or correct the books",
            ),
        },
    }
}

/// Run the reconciliation. None where the window of a statement line for
/// which a group is sought leaves the range of amounts.
pub fn try_compute(inputs: &ValidatedInputs, config: &BankrecConfig, as_of: Date) -> (r: Option<
    ReconciliationReport,
>)
    ensures
        (match r {
            Some(report) => windows_fit(inputs@, config.tolerance_cents as int) && report@
                == report_of(inputs@, *config, as_of.day()),
            None => !windows_fit(inputs@, config.tolerance_cents as int),
        }),
{
    let ghost v = inputs@;
    let ghost day = as_of.day();
    let ghost stale = config.stale_days as int;
    let mut findings = duplicate_findings(&inputs.statements);
    let mut more = duplicate_ledger_findings(&inputs.ledgers);
    let ghost dup_s = spine::findings_view(findings@);
    let ghost dup_l = spine::findings_view(more@);
    findings.append(&mut more);
    assert(spine::findings_view(findings@) =~= dup_s + dup_l);

    let mut progress = match_exact(inputs);
    match_within_tolerance(inputs, config.tolerance_cents as i128, &mut progress);
    if !match_groups(inputs, config, &mut progress) {
        return None;
    }
    let ghost p = pairings(v, *config);

    let ghost fs = |x: LineView| unmatched_finding(x, Side::Statement, day, stale);
    let ghost us = |x: LineView| unmatched_of(x, Side::Statement, day, stale);
    let ghost ps = |x: LineView| proposal_of(x, Side::Statement);
    let ghost fl = |x: LineView| unmatched_finding(x, Side::Ledger, day, stale);
    let ghost ul = |x: LineView| unmatched_of(x, Side::Ledger, day, stale);
    let ghost pl = |x: LineView| proposal_of(x, Side::Ledger);

    let mut unmatched_statement: Vec<UnmatchedItem> = Vec::new();
    let mut proposals: Vec<AdjustmentProposal> = Vec::new();
    let mut s: usize = 0;
    proof {
        let none = open_statements(v, p, 0);
        assert(spine::findings_view(findings@) =~= dup_s + dup_l + none.map_values(fs));
        assert(unmatched_view(unmatched_statement@) =~= none.map_values(us));
        assert(proposals_view(proposals@) =~= none.map_values(ps));
    }
    while s < inputs.statements.len()
        invariant
            s <= inputs.statements.len(),
            v == inputs@,
            day == as_of.day(),
            stale == config.stale_days,
            fs == (|x: LineView| unmatched_finding(x, Side::Statement, day, stale)),
            us == (|x: LineView| unmatched_of(x, Side::Statement, day, stale)),
            ps == (|x: LineView| proposal_of(x, Side::Statement)),
            progress.stands_at(v, p),
            spine::findings_view(findings@) == dup_s + dup_l + open_statements(v, p, s as int).map_values(
                fs,
            ),
            unmatched_view(unmatched_statement@) == open_statements(v, p, s as int).map_values(us),
            proposals_view(proposals@) == open_statements(v, p, s as int).map_values(ps),
        decreases inputs.statements.len() - s,
    {
        let ghost line = v.statements[s as int];
        assert(line == inputs.statements@[s as int]@);
        if !progress.statement_taken[s] {
            let x = &inputs.statements[s];
            let ghost rest = open_statements(v, p, s as int);
            let ghost was_f = findings@;
            let ghost was_u = unmatched_statement@;
            let ghost was_p = proposals@;
            let (item, finding) = report_unmatched(
                &x.id,
                &x.reference,
                x.amount,
                x.date,
                Side::Statement,
                as_of,
                config.stale_days,
            );
            unmatched_statement.push(item);
            findings.push(finding);
            proposals.push(propose(&x.id, Side::Statement));
            proof {
                let now = open_statements(v, p, s + 1);
                assert(now == rest.push(line));
                assert(now.map_values(fs) =~= rest.map_values(fs).push(fs(line)));
                assert(now.map_values(us) =~= rest.map_values(us).push(us(line)));
                assert(now.map_values(ps) =~= rest.map_values(ps).push(ps(line)));
                assert(proposals@.last()@ == proposal_of(line, Side::Statement));
                assert(spine::findings_view(findings@) =~= spine::findings_view(was_f).push(finding@));
                assert(spine::findings_view(findings@) =~= dup_s + dup_l + now.map_values(fs));
                assert(unmatched_view(unmatched_statement@) =~= unmatched_view(was_u).push(item@));
                assert(proposals_view(proposals@) =~= proposals_view(was_p).push(
                    proposals@.last()@,
                ));
            }
        }
        s = s + 1;
    }
    let ghost open_s = open_statements(v, p, v.statements.len() as int);

    let mut unmatched_ledger: Vec<UnmatchedItem> = Vec::new();
    let mut l: usize = 0;
    proof {
        let none = open_ledgers(v, p, 0);
        assert(spine::findings_view(findings@) =~= dup_s + dup_l + open_s.map_values(fs) + none.map_values(
            fl,
        ));
        assert(unmatched_view(unmatched_ledger@) =~= none.map_values(ul));
        assert(proposals_view(proposals@) =~= open_s.map_values(ps) + none.map_values(pl));
    }
    while l < inputs.ledgers.len()
        invariant
            l <= inputs.ledgers.len(),
            v == inputs@,
            day == as_of.day(),
            stale == config.stale_days,
            fl == (|x: LineView| unmatched_finding(x, Side::Ledger, day, stale)),
            ul == (|x: LineView| unmatched_of(x, Side::Ledger, day, stale)),
            pl == (|x: LineView| proposal_of(x, Side::Ledger)),
            progress.stands_at(v, p),
            spine::findings_view(findings@) == dup_s + dup_l + open_s.map_values(fs) + open_ledgers(
                v,
                p,
                l as int,
            ).map_values(fl),
            unmatched_view(unmatched_ledger@) == open_ledgers(v, p, l as int).map_values(ul),
            proposals_view(proposals@) == open_s.map_values(ps) + open_ledgers(
                v,
                p,
                l as int,
            ).map_values(pl),
        decreases inputs.ledgers.len() - l,
    {
        let ghost line = v.ledgers[l as int];
        assert(line == inputs.ledgers@[l as int]@);
        if !progress.ledger_taken[l] {
            let x = &inputs.ledgers[l];
            let ghost rest = open_ledgers(v, p, l as int);
            let ghost was_f = findings@;
            let ghost was_u = unmatched_ledger@;
            let ghost was_p = proposals@;
            let (item, finding) = report_unmatched(
                &x.id,
                &x.reference,
                x.amount,
                x.date,
                Side::Ledger,
                as_of,
                config.stale_days,
            );
            unmatched_ledger.push(item);
            findings.push(finding);
            proposals.push(propose(&x.id, Side::Ledger));
            proof {
                let now = open_ledgers(v, p, l + 1);
                assert(now == rest.push(line));
                assert(now.map_values(fl) =~= rest.map_values(fl).push(fl(line)));
                assert(now.map_values(ul) =~= rest.map_values(ul).push(ul(line)));
                assert(now.map_values(pl) =~= rest.map_values(pl).push(pl(line)));
                assert(proposals@.last()@ == proposal_of(line, Side::Ledger));
                assert(spine::findings_view(findings@) =~= spine::findings_view(was_f).push(finding@));
                assert(spine::findings_view(findings@) =~= dup_s + dup_l + open_s.map_values(fs)
                    + now.map_values(fl));
                assert(unmatched_view(unmatched_ledger@) =~= unmatched_view(was_u).push(item@));
                assert(proposals_view(proposals@) =~= proposals_view(was_p).push(
                    proposals@.last()@,
                ));
                assert(proposals_view(proposals@) =~= open_s.map_values(ps) + now.map_values(pl));
            }
        }
        l = l + 1;
    }
    let report = ReconciliationReport {
        as_of: as_of.text(),
        matches: progress.matches,
        unmatched_statement,
        unmatched_ledger,
        adjustment_proposals: proposals,
        findings,
    };
    proof {
        let want = report_of(v, *config, day);
        let open_l = open_ledgers(v, p, v.ledgers.len() as int);
        assert(report@.matches =~= want.matches);
        assert(report@.unmatched_statement =~= want.unmatched_statement);
        assert(report@.unmatched_ledger =~= want.unmatched_ledger);
        assert(report@.adjustment_proposals =~= want.adjustment_proposals);
        assert(report@.findings =~= want.findings);
    }
    Some(report)
}

/// Run the reconciliation.
pub fn compute(inputs: &ValidatedInputs, config: &BankrecConfig, as_of: Date) -> (r:
    ReconciliationReport)
    requires
        windows_fit(inputs@, config.tolerance_cents as int),
    ensures
        r@ == report_of(inputs@, *config, as_of.day()),
{
    match try_compute(inputs, config, as_of) {
        Some(report) => report,
        None => ReconciliationReport {
            as_of: String::new(),
            matches: Vec::new(),
            unmatched_statement: Vec::new(),
            unmatched_ledger: Vec::new(),
            adjustment_proposals: Vec::new(),
            findings: Vec::new(),
        },
    }
}

} // verus!
