//! The commission engine. Output does not depend on input order:
//! transactions are taken in the order of date and id, collisions are decided
//! by priority, splits by largest remainders, and every output is sorted.

use vstd::prelude::*;
use vstd::string::StringExecFns;

use crate::commission::bands;
use crate::commission::bands::{commission_parts, commission_total, BandSlice, SliceView};
use crate::commission::config;
use crate::commission::config::{BandMode, PlanConfig, PlanVersion, ATTAINMENT_SCALE};
use crate::commission::input;
use crate::commission::input::{Credit, CreditView, Transaction, TransactionsFile, TxnKind, TxnView};
use crate::commission::split;
use crate::commission::split::{checked_mul, largest_remainder};
use crate::date;
use crate::num;
use crate::order;
use crate::order::Order;
use crate::spine;
use crate::spine::{Finding, FindingView, Severity};
use crate::text;

verus! {

/// A share of a transaction credited to a rep, or taken back.
#[derive(Debug, Clone, PartialEq, Eq, PartialOrd, Ord)]
pub struct CreditLine {
    pub transaction_id: String,
    /// On a reversal, the sale that it reverses.
    pub links_original: Option<String>,
    pub rep_id: String,
    pub role: String,
    pub credited_cents: i128,
}

/// What a [`CreditLine`] says.
#[verifier::ext_equal]
pub struct CreditLineView {
    pub transaction_id: Seq<char>,
    pub links_original: Option<Seq<char>>,
    pub rep_id: Seq<char>,
    pub role: Seq<char>,
    pub credited_cents: int,
}

impl View for CreditLine {
    type V = CreditLineView;

    open spec fn view(&self) -> CreditLineView {
        CreditLineView {
            transaction_id: self.transaction_id@,
            links_original: input::optional_text(self.links_original),
            rep_id: self.rep_id@,
            role: self.role@,
            credited_cents: self.credited_cents as int,
        }
    }
}

pub open spec fn lines_view(s: Seq<CreditLine>) -> Seq<CreditLineView> {
    s.map_values(|x: CreditLine| x@)
}

/// The roll-up of one rep under one plan version.
#[derive(Debug, Clone, PartialEq, Eq, PartialOrd, Ord)]
pub struct RepSummary {
    pub rep_id: String,
    pub plan_version: u32,
    pub band_mode: BandMode,
    pub gross_credited_cents: i128,
    pub returned_cents: i128,
    pub net_credited_cents: i128,
    pub attainment_ppm: i128,
    pub windfall_cap_ppm: Option<u64>,
    pub windfall_cap_applied: bool,
    /// The slices behind `net_commission_cents`.
    pub net_band_slices: Vec<BandSlice>,
    pub gross_commission_cents: i128,
    pub net_commission_cents: i128,
    /// The commission that returns take back.
    pub clawback_commission_cents: i128,
}

/// What a [`RepSummary`] says.
#[verifier::ext_equal]
pub struct SummaryView {
    pub rep_id: Seq<char>,
    pub plan_version: u32,
    pub band_mode: BandMode,
    pub gross_credited_cents: int,
    pub returned_cents: int,
    pub net_credited_cents: int,
    pub attainment_ppm: int,
    pub windfall_cap_ppm: Option<u64>,
    pub windfall_cap_applied: bool,
    pub net_band_slices: Seq<SliceView>,
    pub gross_commission_cents: int,
    pub net_commission_cents: int,
    pub clawback_commission_cents: int,
}

impl View for RepSummary {
    type V = SummaryView;

    open spec fn view(&self) -> SummaryView {
        SummaryView {
            rep_id: self.rep_id@,
            plan_version: self.plan_version,
            band_mode: self.band_mode,
            gross_credited_cents: self.gross_credited_cents as int,
            returned_cents: self.returned_cents as int,
            net_credited_cents: self.net_credited_cents as int,
            attainment_ppm: self.attainment_ppm as int,
            windfall_cap_ppm: self.windfall_cap_ppm,
            windfall_cap_applied: self.windfall_cap_applied,
            net_band_slices: bands::slices_view(self.net_band_slices@),
            gross_commission_cents: self.gross_commission_cents as int,
            net_commission_cents: self.net_commission_cents as int,
            clawback_commission_cents: self.clawback_commission_cents as int,
        }
    }
}

pub open spec fn summaries_view(s: Seq<RepSummary>) -> Seq<SummaryView> {
    s.map_values(|x: RepSummary| x@)
}

/// The outcome of a run.
#[derive(Debug, Clone)]
pub struct EngineOutput {
    pub credit_lines: Vec<CreditLine>,
    pub rep_summaries: Vec<RepSummary>,
    pub findings: Vec<Finding>,
}

/// What an [`EngineOutput`] says.
#[verifier::ext_equal]
pub struct OutputView {
    pub credit_lines: Seq<CreditLineView>,
    pub rep_summaries: Seq<SummaryView>,
    pub findings: Seq<FindingView>,
}

impl View for EngineOutput {
    type V = OutputView;

    open spec fn view(&self) -> OutputView {
        OutputView {
            credit_lines: lines_view(self.credit_lines@),
            rep_summaries: summaries_view(self.rep_summaries@),
            findings: spine::findings_view(self.findings@),
        }
    }
}

/// Why a run stops.
#[derive(Debug, Clone, PartialEq, Eq)]
pub enum EngineError {
    ArithmeticOverflow { what: &'static str },
    MissingRoleWeight { role: String, version: u32 },
}

/// What an [`EngineError`] says.
pub enum EngineFault {
    ArithmeticOverflow { what: Seq<char> },
    MissingRoleWeight { role: Seq<char>, version: u32 },
}

impl View for EngineError {
    type V = EngineFault;

    open spec fn view(&self) -> EngineFault {
        match self {
            EngineError::ArithmeticOverflow { what } => EngineFault::ArithmeticOverflow {
                what: what@,
            },
            EngineError::MissingRoleWeight { role, version } => EngineFault::MissingRoleWeight {
                role: role@,
                version: *version,
            },
        }
    }
}

/// A fault as a line of text.
pub open spec fn fault_text(e: EngineFault) -> Seq<char> {
    match e {
        EngineFault::ArithmeticOverflow { what } => "arithmetic overflow while computing "@ + what,
        EngineFault::MissingRoleWeight { role, version } => "role "@ + text::debug_text(role)
            + " has no split weight in plan version "@ + text::decimal(version as nat),
    }
}

impl EngineError {
    /// The error as a line of text.
    pub fn message(&self) -> (r: String)
        ensures
            r@ == fault_text(self@),
    {
        match self {
            EngineError::ArithmeticOverflow { what } => {
                let mut out = String::from_str("arithmetic overflow while computing ");
                out.append(what);
                out
            },
            EngineError::MissingRoleWeight { role, version } => {
                let mut out = String::from_str("role ");
                out.append(text::debug_of(role.as_str()).as_str());
                out.append(" has no split weight in plan version ");
                out.append(text::unsigned_text(*version as u128).as_str());
                out
            },
        }
    }
}

/// A rep who holds a role on a sale.
#[verifier::ext_equal]
pub struct WinnerView {
    pub rep: Seq<char>,
    pub role: Seq<char>,
}

/// The lowest priority number among the first `n` credits of a role.
pub open spec fn best_priority(credits: Seq<CreditView>, role: Seq<char>, n: int) -> Option<u32>
    decreases n,
{
    if n <= 0 {
        None
    } else {
        let best = best_priority(credits, role, n - 1);
        let c = credits[n - 1];
        if c.role == role && (best is None || c.priority < best->0) {
            Some(c.priority)
        } else {
            best
        }
    }
}

/// Whether a credit is for a role at a priority.
pub open spec fn stands_at(c: CreditView, role: Seq<char>, priority: u32) -> bool {
    c.role == role && c.priority == priority
}

/// How many of the first `n` credits are for a role at a priority.
pub open spec fn holders(
    credits: Seq<CreditView>,
    role: Seq<char>,
    priority: u32,
    n: int,
) -> int
    decreases n,
{
    if n <= 0 {
        0
    } else {
        holders(credits, role, priority, n - 1) + (if stands_at(credits[n - 1], role, priority) {
            1int
        } else {
            0
        })
    }
}

/// The rep of the first credit from `i` on for a role at a priority.
pub open spec fn holder(
    credits: Seq<CreditView>,
    role: Seq<char>,
    priority: u32,
    i: int,
) -> Seq<char>
    decreases credits.len() - i,
{
    if i >= credits.len() {
        Seq::empty()
    } else if stands_at(credits[i], role, priority) {
        credits[i].rep_id
    } else {
        holder(credits, role, priority, i + 1)
    }
}

/// The different roles credited, in ascending order.
pub open spec fn roles_of(credits: Seq<CreditView>) -> Seq<Seq<char>> {
    text::ascending(credits.map_values(|c: CreditView| c.role))
}

/// Whether more than one credit stands at the best priority of a role.
pub open spec fn is_tied(credits: Seq<CreditView>, role: Seq<char>) -> bool {
    let n = credits.len() as int;
    holders(credits, role, best_priority(credits, role, n)->0, n) > 1
}

/// The rep at the best priority of a role.
pub open spec fn leader(credits: Seq<CreditView>, role: Seq<char>) -> Seq<char> {
    holder(credits, role, best_priority(credits, role, credits.len() as int)->0, 0)
}

/// The winners of the first `n` roles, in role order.
pub open spec fn role_winners(credits: Seq<CreditView>, n: int) -> Seq<WinnerView>
    decreases n,
{
    if n <= 0 {
        Seq::empty()
    } else {
        let rest = role_winners(credits, n - 1);
        let role = roles_of(credits)[n - 1];
        if is_tied(credits, role) {
            rest
        } else {
            rest.push(WinnerView { rep: leader(credits, role), role })
        }
    }
}

/// Winners by rep, then by role.
pub open spec fn winner_lt(a: WinnerView, b: WinnerView) -> bool {
    text::text_lt(a.rep, b.rep) || (a.rep == b.rep && text::text_lt(a.role, b.role))
}

/// The winning credits of a sale: per role the lowest priority number, none
/// where it is tied.
pub open spec fn winners_of(credits: Seq<CreditView>) -> Seq<WinnerView> {
    order::stable_sort(
        role_winners(credits, roles_of(credits).len() as int),
        |a: WinnerView, b: WinnerView| winner_lt(a, b),
    )
}

pub open spec fn txn_subject(id: Seq<char>) -> Seq<char> {
    "txn:"@ + id
}

/// The breach of a tied role.
pub open spec fn collision_of(t: TxnView, role: Seq<char>) -> FindingView {
    let best = best_priority(t.credits, role, t.credits.len() as int)->0;
    spine::breach_of(
        "CREDIT-COLLISION"@,
        txn_subject(t.transaction_id),
        "role "@ + role + " has tied priority "@ + text::decimal(best as nat) + " on transaction "@
            + t.transaction_id
            + "; the role's credit is dropped (fail-closed, never first-come)"@,
    )
}

/// The breaches of the tied ones among the first `n` roles.
pub open spec fn collisions_of(t: TxnView, n: int) -> Seq<FindingView>
    decreases n,
{
    if n <= 0 {
        Seq::empty()
    } else {
        let rest = collisions_of(t, n - 1);
        let role = roles_of(t.credits)[n - 1];
        if is_tied(t.credits, role) {
            rest.push(collision_of(t, role))
        } else {
            rest
        }
    }
}

/// The weights of winners by role, or the first role without one.
pub open spec fn weights_for(v: PlanVersion, ws: Seq<WinnerView>, n: int) -> Result<
    Seq<u32>,
    EngineFault,
>
    decreases n,
{
    if n <= 0 {
        Ok(Seq::empty())
    } else {
        match weights_for(v, ws, n - 1) {
            Ok(rest) => match config::weight_of(v.role_weights@, ws[n - 1].role, 0) {
                Some(w) => Ok(rest.push(w)),
                None => Err(
                    EngineFault::MissingRoleWeight { role: ws[n - 1].role, version: v.version },
                ),
            },
            Err(e) => Err(e),
        }
    }
}

/// An amount split across winners by role weight.
pub open spec fn split_for(v: PlanVersion, ws: Seq<WinnerView>, amount: int) -> Result<
    Seq<int>,
    EngineFault,
> {
    match weights_for(v, ws, ws.len() as int) {
        Ok(weights) => split::split(amount, weights),
        Err(e) => Err(e),
    }
}

/// What a rep was credited under the version at a place of the plan.
#[verifier::ext_equal]
pub struct EntryView {
    pub rep: Seq<char>,
    pub version: int,
    pub gross: int,
    pub returned: int,
}

/// A sale with the version it fell under and its winners.
#[verifier::ext_equal]
pub struct ResolvedView {
    pub id: Seq<char>,
    pub version: int,
    pub winners: Seq<WinnerView>,
}

/// Where a run stands.
#[verifier::ext_equal]
pub struct RunView {
    pub lines: Seq<CreditLineView>,
    pub entries: Seq<EntryView>,
    pub resolved: Seq<ResolvedView>,
    pub findings: Seq<FindingView>,
}

/// The place of a rep's entry from `i` on, or the end.
pub open spec fn entry_at(entries: Seq<EntryView>, rep: Seq<char>, version: int, i: int) -> int
    decreases entries.len() - i,
{
    if i >= entries.len() {
        entries.len() as int
    } else if entries[i].rep == rep && entries[i].version == version {
        i
    } else {
        entry_at(entries, rep, version, i + 1)
    }
}

/// The entries with a share added to a rep's.
pub open spec fn credited(
    entries: Seq<EntryView>,
    rep: Seq<char>,
    version: int,
    gross: int,
    returned: int,
) -> Seq<EntryView> {
    let i = entry_at(entries, rep, version, 0);
    if i < entries.len() {
        entries.update(
            i,
            EntryView {
                gross: entries[i].gross + gross,
                returned: entries[i].returned + returned,
                ..entries[i]
            },
        )
    } else {
        entries.push(EntryView { rep, version, gross, returned })
    }
}

/// The entries with the first `n` shares of a transaction added.
pub open spec fn entries_after(
    entries: Seq<EntryView>,
    kind: TxnKind,
    version: int,
    ws: Seq<WinnerView>,
    shares: Seq<int>,
    n: int,
) -> Seq<EntryView>
    decreases n,
{
    if n <= 0 {
        entries
    } else {
        let before = entries_after(entries, kind, version, ws, shares, n - 1);
        match kind {
            TxnKind::Sale => credited(before, ws[n - 1].rep, version, shares[n - 1], 0),
            TxnKind::Return => credited(before, ws[n - 1].rep, version, 0, shares[n - 1]),
        }
    }
}

/// The line of one share: a sale credits it, a return takes it back.
pub open spec fn line_of(t: TxnView, w: WinnerView, share: int) -> CreditLineView {
    CreditLineView {
        transaction_id: t.transaction_id,
        links_original: if t.kind == TxnKind::Sale {
            None
        } else {
            t.original
        },
        rep_id: w.rep,
        role: w.role,
        credited_cents: if t.kind == TxnKind::Sale {
            share
        } else {
            -share
        },
    }
}

/// The lines of the first `n` shares of a transaction.
pub open spec fn lines_of(t: TxnView, ws: Seq<WinnerView>, shares: Seq<int>, n: int) -> Seq<
    CreditLineView,
>
    decreases n,
{
    if n <= 0 {
        Seq::empty()
    } else {
        lines_of(t, ws, shares, n - 1).push(line_of(t, ws[n - 1], shares[n - 1]))
    }
}

/// A run with the shares of a transaction booked.
pub open spec fn booked(
    st: RunView,
    t: TxnView,
    version: int,
    ws: Seq<WinnerView>,
    shares: Seq<int>,
) -> RunView {
    RunView {
        lines: st.lines + lines_of(t, ws, shares, ws.len() as int),
        entries: entries_after(st.entries, t.kind, version, ws, shares, ws.len() as int),
        ..st
    }
}

/// The breach of a sale that no version covers.
pub open spec fn unassigned_of(t: TxnView) -> FindingView {
    spine::breach_of(
        "TXN-UNASSIGNED"@,
        txn_subject(t.transaction_id),
        "transaction date "@ + date::date_text(t.day)
            + " falls in no plan version effective range; excluded from crediting"@,
    )
}

/// A run after one more sale.
pub open spec fn sale_step(versions: Seq<PlanVersion>, st: RunView, t: TxnView) -> Result<
    RunView,
    EngineFault,
> {
    match config::version_on(versions, t.day, 0) {
        None => Ok(RunView { findings: st.findings.push(unassigned_of(t)), ..st }),
        Some(vi) => {
            let ws = winners_of(t.credits);
            let told = RunView {
                findings: st.findings + collisions_of(t, roles_of(t.credits).len() as int),
                ..st
            };
            let kept = ResolvedView { id: t.transaction_id, version: vi, winners: ws };
            if ws.len() == 0 {
                Ok(RunView { resolved: told.resolved.push(kept), ..told })
            } else {
                match split_for(versions[vi], ws, t.amount_cents) {
                    Ok(shares) => {
                        let done = booked(told, t, vi, ws, shares);
                        Ok(RunView { resolved: done.resolved.push(kept), ..done })
                    },
                    Err(e) => Err(e),
                }
            }
        },
    }
}

/// The last sale among the first `n` resolved ones with an id.
pub open spec fn resolved_at(resolved: Seq<ResolvedView>, id: Seq<char>, n: int) -> Option<int>
    decreases n,
{
    if n <= 0 {
        None
    } else if resolved[n - 1].id == id {
        Some(n - 1)
    } else {
        resolved_at(resolved, id, n - 1)
    }
}

/// The breach of a return that names no sale.
pub open spec fn malformed_of(t: TxnView) -> FindingView {
    spine::breach_of(
        "RETURN-MALFORMED"@,
        txn_subject(t.transaction_id),
        "return is missing a resolvable original_transaction_id"@,
    )
}

/// The breach of a clawback.
pub open spec fn clawback_of(t: TxnView) -> FindingView {
    spine::breach_of(
        "CLAWBACK"@,
        txn_subject(t.transaction_id),
        "return of "@ + text::signed_decimal(t.amount_cents) + " cents on original "@ + t.original->0
            + " after payment reverses credited commission; clawback requires signoff"@,
    )
}

/// The warning on a return with nothing to reverse.
pub open spec fn uncredited_of(t: TxnView) -> FindingView {
    spine::note_of(
        "ORIGINAL-NOT-CREDITED"@,
        Severity::Warn,
        txn_subject(t.transaction_id),
        "original transaction "@ + t.original->0
            + " was not credited (unassigned or collision-dropped); return has nothing to reverse"@,
    )
}

/// A run after one more return: the original's winners lose their shares in
/// the original's version.
pub open spec fn return_step(versions: Seq<PlanVersion>, st: RunView, t: TxnView) -> Result<
    RunView,
    EngineFault,
> {
    if t.original is None || text::is_blank(t.original->0) {
        Ok(RunView { findings: st.findings.push(malformed_of(t)), ..st })
    } else {
        let at = resolved_at(st.resolved, t.original->0, st.resolved.len() as int);
        if at is None || st.resolved[at->0].winners.len() == 0 {
            Ok(RunView { findings: st.findings.push(uncredited_of(t)), ..st })
        } else {
            let sale = st.resolved[at->0];
            match split_for(versions[sale.version], sale.winners, t.amount_cents) {
                Ok(shares) => {
                    let done = booked(st, t, sale.version, sale.winners, shares);
                    Ok(RunView { findings: done.findings.push(clawback_of(t)), ..done })
                },
                Err(e) => Err(e),
            }
        }
    }
}

pub open spec fn start() -> RunView {
    RunView {
        lines: Seq::empty(),
        entries: Seq::empty(),
        resolved: Seq::empty(),
        findings: Seq::empty(),
    }
}

/// A run after the sales among the first `n` transactions.
pub open spec fn after_sales(versions: Seq<PlanVersion>, s: Seq<TxnView>, n: int) -> Result<
    RunView,
    EngineFault,
>
    decreases n,
{
    if n <= 0 {
        Ok(start())
    } else {
        match after_sales(versions, s, n - 1) {
            Ok(st) => if s[n - 1].kind == TxnKind::Sale {
                sale_step(versions, st, s[n - 1])
            } else {
                Ok(st)
            },
            Err(e) => Err(e),
        }
    }
}

/// A run after all sales and the returns among the first `n` transactions.
pub open spec fn after_returns(versions: Seq<PlanVersion>, s: Seq<TxnView>, n: int) -> Result<
    RunView,
    EngineFault,
>
    decreases n,
{
    if n <= 0 {
        after_sales(versions, s, s.len() as int)
    } else {
        match after_returns(versions, s, n - 1) {
            Ok(st) => if s[n - 1].kind == TxnKind::Return {
                return_step(versions, st, s[n - 1])
            } else {
                Ok(st)
            },
            Err(e) => Err(e),
        }
    }
}

/// Transactions by date, then by id.
pub open spec fn txn_lt(a: TxnView, b: TxnView) -> bool {
    a.day < b.day || (a.day == b.day && text::text_lt(a.transaction_id, b.transaction_id))
}

/// Transactions in processing order.
pub open spec fn in_order(s: Seq<TxnView>) -> Seq<TxnView> {
    order::stable_sort(s, |a: TxnView, b: TxnView| txn_lt(a, b))
}

/// Entries by rep, then by place of the version.
pub open spec fn entry_lt(a: EntryView, b: EntryView) -> bool {
    text::text_lt(a.rep, b.rep) || (a.rep == b.rep && a.version < b.version)
}

/// The roll-up of an entry.
pub open spec fn summary_of(v: PlanVersion, e: EntryView) -> Result<SummaryView, EngineFault> {
    let net = e.gross - e.returned;
    match bands::product(net, ATTAINMENT_SCALE as int, "attainment"@) {
        Err(x) => Err(x),
        Ok(p) => {
            let attainment = num::quotient(p, v.quota_cents as int);
            match bands::parts_of(v, e.gross) {
                Err(x) => Err(x),
                Ok(gross) => match bands::parts_of(
                    v,
                    if net > 0 {
                        net
                    } else {
                        0
                    },
                ) {
                    Err(x) => Err(x),
                    Ok(parts) => Ok(
                        SummaryView {
                            rep_id: e.rep,
                            plan_version: v.version,
                            band_mode: v.band_mode,
                            gross_credited_cents: e.gross,
                            returned_cents: e.returned,
                            net_credited_cents: net,
                            attainment_ppm: attainment,
                            windfall_cap_ppm: v.windfall_cap_ppm,
                            windfall_cap_applied: v.windfall_cap_ppm is Some && attainment
                                > v.windfall_cap_ppm->0,
                            net_band_slices: parts.slices,
                            gross_commission_cents: gross.total,
                            net_commission_cents: parts.total,
                            clawback_commission_cents: gross.total - parts.total,
                        },
                    ),
                },
            }
        },
    }
}

/// The note on an attainment above the windfall cap.
pub open spec fn windfall_of(s: SummaryView) -> FindingView {
    spine::note_of(
        "WINDFALL-CAP"@,
        Severity::Info,
        "rep:"@ + s.rep_id + ":v"@ + text::decimal(s.plan_version as nat),
        "attainment "@ + text::signed_decimal(s.attainment_ppm) + " ppm exceeds windfall cap "@ + text::decimal(
            s.windfall_cap_ppm->0 as nat,
        ) + " ppm; commission basis capped"@,
    )
}

/// Summaries with the notes on them.
#[verifier::ext_equal]
pub struct RollupView {
    pub summaries: Seq<SummaryView>,
    pub findings: Seq<FindingView>,
}

/// The roll-up of the first `n` entries.
pub open spec fn rollup(versions: Seq<PlanVersion>, entries: Seq<EntryView>, n: int) -> Result<
    RollupView,
    EngineFault,
>
    decreases n,
{
    if n <= 0 {
        Ok(RollupView { summaries: Seq::empty(), findings: Seq::empty() })
    } else {
        match rollup(versions, entries, n - 1) {
            Err(e) => Err(e),
            Ok(r) => match summary_of(versions[entries[n - 1].version], entries[n - 1]) {
                Err(e) => Err(e),
                Ok(s) => Ok(
                    RollupView {
                        summaries: r.summaries.push(s),
                        findings: if s.windfall_cap_applied {
                            r.findings.push(windfall_of(s))
                        } else {
                            r.findings
                        },
                    },
                ),
            },
        }
    }
}

pub open spec fn optional_lt(a: Option<Seq<char>>, b: Option<Seq<char>>) -> bool {
    match (a, b) {
        (None, Some(_)) => true,
        (Some(x), Some(y)) => text::text_lt(x, y),
        _ => false,
    }
}

/// Lines by transaction, link, rep, role, and amount.
pub open spec fn line_lt(a: CreditLineView, b: CreditLineView) -> bool {
    text::text_lt(a.transaction_id, b.transaction_id) || (a.transaction_id == b.transaction_id && (
    optional_lt(a.links_original, b.links_original) || (a.links_original == b.links_original && (
    text::text_lt(a.rep_id, b.rep_id) || (a.rep_id == b.rep_id && (text::text_lt(a.role, b.role) || (a.role
        == b.role && a.credited_cents < b.credited_cents)))))))
}

/// Summaries by rep, then by version number.
pub open spec fn summary_lt(a: SummaryView, b: SummaryView) -> bool {
    text::text_lt(a.rep_id, b.rep_id) || (a.rep_id == b.rep_id && a.plan_version < b.plan_version)
}

/// Findings by subject, rule, and message.
pub open spec fn finding_lt(a: FindingView, b: FindingView) -> bool {
    text::text_lt(a.subject, b.subject) || (a.subject == b.subject && (text::text_lt(a.rule_id, b.rule_id) || (
    a.rule_id == b.rule_id && text::text_lt(a.message, b.message))))
}

/// The outcome of a run over transactions in processing order.
pub open spec fn outcome_of(versions: Seq<PlanVersion>, s: Seq<TxnView>) -> Result<
    OutputView,
    EngineFault,
> {
    match after_returns(versions, s, s.len() as int) {
        Err(e) => Err(e),
        Ok(st) => {
            let entries = order::stable_sort(
                st.entries,
                |a: EntryView, b: EntryView| entry_lt(a, b),
            );
            match rollup(versions, entries, entries.len() as int) {
                Err(e) => Err(e),
                Ok(r) => Ok(
                    OutputView {
                        credit_lines: order::stable_sort(
                            st.lines,
                            |a: CreditLineView, b: CreditLineView| line_lt(a, b),
                        ),
                        rep_summaries: order::stable_sort(
                            r.summaries,
                            |a: SummaryView, b: SummaryView| summary_lt(a, b),
                        ),
                        findings: order::stable_sort(
                            st.findings + r.findings,
                            |a: FindingView, b: FindingView| finding_lt(a, b),
                        ),
                    },
                ),
            }
        },
    }
}

/// The outcome of a run.
pub open spec fn outcome(versions: Seq<PlanVersion>, s: Seq<TxnView>) -> Result<
    OutputView,
    EngineFault,
> {
    outcome_of(versions, in_order(s))
}

/// Whether a plan can be run: every version can pay, and every role weight is
/// positive.
pub open spec fn runnable(versions: Seq<PlanVersion>) -> bool {
    forall|i: int|
        0 <= i < versions.len() ==> bands::payable(#[trigger] versions[i]) && weights_positive(
            versions[i],
        )
}

pub open spec fn weights_positive(v: PlanVersion) -> bool {
    forall|k: int| 0 <= k < v.role_weights.len() ==> (#[trigger] v.role_weights@[k]).weight_bps > 0
}

/// Whether no amount is negative.
pub open spec fn amounts_kept(s: Seq<TxnView>) -> bool {
    forall|i: int| 0 <= i < s.len() ==> (#[trigger] s[i]).amount_cents >= 0
}

/// Whether the sums of every entry are within range.
pub open spec fn entries_fit(s: Seq<EntryView>) -> bool {
    forall|i: int|
        0 <= i < s.len() ==> (#[trigger] s[i]).gross <= i128::MAX && s[i].returned <= i128::MAX
}

pub open spec fn state_fits(st: Result<RunView, EngineFault>) -> bool {
    st matches Ok(v) ==> entries_fit(v.entries)
}

/// Whether the sums of every rep stay within range until a run over
/// transactions in processing order ends or fails.
pub open spec fn sums_fit(versions: Seq<PlanVersion>, s: Seq<TxnView>) -> bool {
    &&& forall|n: int| 0 <= n <= s.len() ==> state_fits(#[trigger] after_sales(versions, s, n))
    &&& forall|n: int| 0 <= n <= s.len() ==> state_fits(#[trigger] after_returns(versions, s, n))
}

/// Whether the sums of every rep stay within range until a run ends or
/// fails.
pub open spec fn run_fits(versions: Seq<PlanVersion>, s: Seq<TxnView>) -> bool {
    sums_fit(versions, in_order(s))
}

struct Winner {
    rep: String,
    role: String,
}

impl View for Winner {
    type V = WinnerView;

    closed spec fn view(&self) -> WinnerView {
        WinnerView { rep: self.rep@, role: self.role@ }
    }
}

spec fn winners_view(s: Seq<Winner>) -> Seq<WinnerView> {
    s.map_values(|w: Winner| w@)
}

struct WinnerOrder {}

impl Order<Winner> for WinnerOrder {
    closed spec fn lt(&self, a: Winner, b: Winner) -> bool {
        winner_lt(a@, b@)
    }

    fn before(&self, a: &Winner, b: &Winner) -> (r: bool) {
        text::text_before(a.rep.as_str(), b.rep.as_str()) || (a.rep == b.rep && text::text_before(
            a.role.as_str(),
            b.role.as_str(),
        ))
    }
}

/// The best priority of a role and how many credits stand at it.
fn best_of(credits: &Vec<Credit>, role: &String) -> (r: (Option<u32>, bool))
    ensures
        r.0 == best_priority(input::credits_view(credits@), role@, credits.len() as int),
        r.0 is Some ==> r.1 == (holders(
            input::credits_view(credits@),
            role@,
            r.0->0,
            credits.len() as int,
        ) > 1),
{
    let ghost cs = input::credits_view(credits@);
    let mut best: Option<u32> = None;
    let mut i: usize = 0;
    while i < credits.len()
        invariant
            i <= credits.len(),
            cs == input::credits_view(credits@),
            best == best_priority(cs, role@, i as int),
        decreases credits.len() - i,
    {
        assert(cs[i as int] == credits@[i as int]@);
        if credits[i].role == *role {
            let p: u32 = credits[i].priority;
            match best {
                None => {
                    best = Some(p);
                },
                Some(b) => {
                    if p < b {
                        best = Some(p);
                    }
                },
            }
        }
        i = i + 1;
    }
    match best {
        None => (None, false),
        Some(b) => {
            let mut count: usize = 0;
            let mut k: usize = 0;
            while k < credits.len()
                invariant
                    k <= credits.len(),
                    count <= k,
                    cs == input::credits_view(credits@),
                    count == holders(cs, role@, b, k as int),
                decreases credits.len() - k,
            {
                assert(cs[k as int] == credits@[k as int]@);
                if credits[k].role == *role && credits[k].priority == b {
                    count = count + 1;
                }
                k = k + 1;
            }
            (Some(b), count > 1)
        },
    }
}

fn holder_of(credits: &Vec<Credit>, role: &String, priority: u32) -> (r: String)
    ensures
        r@ == holder(input::credits_view(credits@), role@, priority, 0),
{
    let ghost cs = input::credits_view(credits@);
    let mut i: usize = 0;
    while i < credits.len()
        invariant
            i <= credits.len(),
            cs == input::credits_view(credits@),
            holder(cs, role@, priority, 0) == holder(cs, role@, priority, i as int),
        decreases credits.len() - i,
    {
        assert(cs[i as int] == credits@[i as int]@);
        if credits[i].role == *role && credits[i].priority == priority {
            return credits[i].rep_id.clone();
        }
        i = i + 1;
    }
    String::new()
}

proof fn best_exists(cs: Seq<CreditView>, role: Seq<char>, n: int, k: int)
    requires
        0 <= k < n <= cs.len(),
        cs[k].role == role,
    ensures
        best_priority(cs, role, n) is Some,
    decreases n,
{
    if k < n - 1 {
        best_exists(cs, role, n - 1, k);
    }
}

proof fn unrepeated_elements(s: Seq<Seq<char>>)
    ensures
        forall|i: int|
            0 <= i < text::without_repeats(s).len() ==> s.contains(
                #[trigger] text::without_repeats(s)[i],
            ),
    decreases s.len(),
{
    if s.len() > 1 {
        let front = s.drop_last();
        unrepeated_elements(front);
        let u = text::without_repeats(s);
        let v = text::without_repeats(front);
        assert forall|i: int| 0 <= i < u.len() implies s.contains(#[trigger] u[i]) by {
            if i < v.len() {
                assert(u[i] == v[i]);
                assert(front.contains(v[i]));
                let k = choose|k: int| 0 <= k < front.len() && front[k] == v[i];
                assert(s[k] == u[i]);
            } else {
                assert(s[s.len() - 1] == u[i]);
            }
        }
    } else {
        assert forall|i: int| 0 <= i < s.len() implies s.contains(#[trigger] s[i]) by {}
    }
}

/// Every role of a sale is some credit's role.
pub proof fn roles_are_credited(cs: Seq<CreditView>, i: int)
    requires
        0 <= i < roles_of(cs).len(),
    ensures
        best_priority(cs, roles_of(cs)[i], cs.len() as int) is Some,
{
    let roles = cs.map_values(|c: CreditView| c.role);
    let lt = |a: Seq<char>, b: Seq<char>| text::text_lt(a, b);
    let sorted = order::stable_sort(roles, lt);
    unrepeated_elements(sorted);
    order::stable_sort_elements(roles, lt);
    assert(sorted.contains(roles_of(cs)[i]));
    assert(roles.contains(roles_of(cs)[i]));
    let k = choose|k: int| 0 <= k < roles.len() && roles[k] == roles_of(cs)[i];
    best_exists(cs, roles_of(cs)[i], cs.len() as int, k);
}

/// The winning credits of a sale; tied roles are reported.
fn resolve_credit_winners(t: &Transaction, findings: &mut Vec<Finding>) -> (r: Vec<Winner>)
    ensures
        winners_view(r@) == winners_of(t@.credits),
        spine::findings_view(final(findings)@) == spine::findings_view(old(findings)@) + collisions_of(
            t@,
            roles_of(t@.credits).len() as int,
        ),
{
    let ghost cs = t@.credits;
    let ghost before = spine::findings_view(findings@);
    let mut all: Vec<String> = Vec::new();
    let mut i: usize = 0;
    while i < t.credits.len()
        invariant
            i <= t.credits.len(),
            all.len() == i,
            forall|k: int| 0 <= k < i ==> (#[trigger] all@[k])@ == t.credits@[k].role@,
        decreases t.credits.len() - i,
    {
        all.push(t.credits[i].role.clone());
        i = i + 1;
    }
    assert(text::texts(all@) =~= cs.map_values(|c: CreditView| c.role));
    let roles = text::sorted_unique(all);
    let mut winners: Vec<Winner> = Vec::new();
    let mut k: usize = 0;
    assert(winners_view(winners@) =~= Seq::<WinnerView>::empty());
    assert(spine::findings_view(findings@) =~= before + collisions_of(t@, 0));
    while k < roles.len()
        invariant
            k <= roles.len(),
            cs == t@.credits,
            text::texts(roles@) == roles_of(cs),
            winners_view(winners@) == role_winners(cs, k as int),
            spine::findings_view(findings@) == before + collisions_of(t@, k as int),
        decreases roles.len() - k,
    {
        let role = &roles[k];
        assert(roles_of(cs)[k as int] == role@);
        proof {
            roles_are_credited(cs, k as int);
        }
        let (best, tied) = best_of(&t.credits, role);
        if let Some(b) = best {
            if tied {
                let mut subject = String::from_str("txn:");
                subject.append(t.transaction_id.as_str());
                let mut m = String::from_str("role ");
                m.append(role.as_str());
                m.append(" has tied priority ");
                m.append(text::unsigned_text(b as u128).as_str());
                m.append(" on transaction ");
                m.append(t.transaction_id.as_str());
                m.append("; the role's credit is dropped (fail-closed, never first-come)");
                let ghost was = findings@;
                findings.push(Finding::breach("CREDIT-COLLISION", subject.as_str(), m));
                proof {
                    assert(spine::findings_view(findings@) =~= spine::findings_view(was).push(
                        findings@.last()@,
                    ));
                    assert(spine::findings_view(findings@) =~= before + collisions_of(t@, k + 1));
                }
            } else {
                let ghost was = winners@;
                winners.push(Winner { rep: holder_of(&t.credits, role, b), role: role.clone() });
                assert(winners_view(winners@) =~= winners_view(was).push(winners@.last()@));
            }
        }
        k = k + 1;
    }
    let ghost unsorted = winners@;
    let rule = WinnerOrder {  };
    let sorted = order::sort_by(winners, &rule);
    proof {
        order::stable_sort_maps(
            unsorted,
            |w: Winner| w@,
            order::order_of(rule),
            |a: WinnerView, b: WinnerView| winner_lt(a, b),
        );
    }
    sorted
}

/// Split an amount across winners by role weight.
fn split_by_role_weights(version: &PlanVersion, winners: &Vec<Winner>, amount: i128) -> (r: Result<
    Vec<i128>,
    EngineError,
>)
    requires
        weights_positive(*version),
        winners.len() > 0,
        amount >= 0,
    ensures
        (match r {
            Ok(v) => split_for(*version, winners_view(winners@), amount as int) == Ok::<
                Seq<int>,
                EngineFault,
            >(split::amounts(v@)) && v.len() == winners.len() && split::total(split::amounts(v@)) == amount
                && forall|i: int| 0 <= i < v.len() ==> 0 <= #[trigger] v@[i] <= amount,
            Err(e) => split_for(*version, winners_view(winners@), amount as int) == Err::<
                Seq<int>,
                EngineFault,
            >(e@),
        }),
{
    let ghost ws = winners_view(winners@);
    let mut weights: Vec<u32> = Vec::new();
    let mut i: usize = 0;
    while i < winners.len()
        invariant
            i <= winners.len(),
            ws == winners_view(winners@),
            weights_positive(*version),
            weights.len() == i,
            forall|k: int| 0 <= k < i ==> (#[trigger] weights@[k]) > 0,
            weights_for(*version, ws, i as int) == Ok::<Seq<u32>, EngineFault>(weights@),
        decreases winners.len() - i,
    {
        assert(ws[i as int] == winners@[i as int]@);
        match version.role_weight(winners[i].role.as_str()) {
            Some(w) => {
                proof {
                    found_weight_positive(*version, ws[i as int].role, 0);
                }
                weights.push(w);
            },
            None => {
                proof {
                    weights_stop(*version, ws, i + 1, ws.len() as int);
                }
                return Err(
                    EngineError::MissingRoleWeight {
                        role: winners[i].role.clone(),
                        version: version.version,
                    },
                );
            },
        }
        i = i + 1;
    }
    let r = largest_remainder(amount, weights.as_slice());
    proof {
        split::shares_sum_exactly(amount as int, weights@);
        if r is Ok {
            let v = r->Ok_0;
            assert forall|k: int| 0 <= k < v.len() implies 0 <= #[trigger] v@[k] <= amount by {
                assert(split::amounts(v@)[k] == v@[k]);
                assert(split::shares(amount as int, weights@)[k] == v@[k]);
            }
        }
    }
    r
}

pub proof fn found_weight_positive(v: PlanVersion, role: Seq<char>, i: int)
    requires
        0 <= i,
        weights_positive(v),
    ensures
        config::weight_of(v.role_weights@, role, i) matches Some(w) ==> w > 0,
    decreases v.role_weights.len() - i,
{
    if i < v.role_weights.len() {
        assert(v.role_weights@[i].weight_bps > 0);
        found_weight_positive(v, role, i + 1);
    }
}

struct Entry {
    rep: String,
    version: usize,
    gross: i128,
    returned: i128,
}

impl View for Entry {
    type V = EntryView;

    closed spec fn view(&self) -> EntryView {
        EntryView {
            rep: self.rep@,
            version: self.version as int,
            gross: self.gross as int,
            returned: self.returned as int,
        }
    }
}

spec fn entries_view(s: Seq<Entry>) -> Seq<EntryView> {
    s.map_values(|e: Entry| e@)
}

struct EntryOrder {}

impl Order<Entry> for EntryOrder {
    closed spec fn lt(&self, a: Entry, b: Entry) -> bool {
        entry_lt(a@, b@)
    }

    fn before(&self, a: &Entry, b: &Entry) -> (r: bool) {
        text::text_before(a.rep.as_str(), b.rep.as_str()) || (a.rep == b.rep && a.version
            < b.version)
    }
}

struct Resolved {
    id: String,
    version: usize,
    winners: Vec<Winner>,
}

impl View for Resolved {
    type V = ResolvedView;

    closed spec fn view(&self) -> ResolvedView {
        ResolvedView {
            id: self.id@,
            version: self.version as int,
            winners: winners_view(self.winners@),
        }
    }
}

spec fn resolved_view(s: Seq<Resolved>) -> Seq<ResolvedView> {
    s.map_values(|x: Resolved| x@)
}

struct RunState {
    lines: Vec<CreditLine>,
    entries: Vec<Entry>,
    resolved: Vec<Resolved>,
    findings: Vec<Finding>,
}

impl View for RunState {
    type V = RunView;

    closed spec fn view(&self) -> RunView {
        RunView {
            lines: lines_view(self.lines@),
            entries: entries_view(self.entries@),
            resolved: resolved_view(self.resolved@),
            findings: spine::findings_view(self.findings@),
        }
    }
}

pub open spec fn gross_sum(s: Seq<EntryView>) -> int {
    order::sum_of(s, |e: EntryView| e.gross)
}

pub open spec fn returned_sum(s: Seq<EntryView>) -> int {
    order::sum_of(s, |e: EntryView| e.returned)
}

/// Whether no entry is negative or outside the plan.
pub open spec fn entries_sound(s: Seq<EntryView>, versions: nat) -> bool {
    forall|i: int|
        0 <= i < s.len() ==> (#[trigger] s[i]).gross >= 0 && s[i].returned >= 0 && 0 <= s[i].version
            < versions
}

proof fn entry_at_bounds(s: Seq<EntryView>, rep: Seq<char>, version: int, i: int)
    requires
        0 <= i <= s.len(),
    ensures
        i <= entry_at(s, rep, version, i) <= s.len(),
        entry_at(s, rep, version, i) < s.len() ==> s[entry_at(s, rep, version, i)].version
            == version,
    decreases s.len() - i,
{
    if i < s.len() {
        entry_at_bounds(s, rep, version, i + 1);
    }
}

/// Crediting a share moves the sums by exactly the share.
pub proof fn credited_sums(
    s: Seq<EntryView>,
    rep: Seq<char>,
    version: int,
    gross: int,
    returned: int,
)
    ensures
        gross_sum(credited(s, rep, version, gross, returned)) == gross_sum(s) + gross,
        returned_sum(credited(s, rep, version, gross, returned)) == returned_sum(s) + returned,
{
    let i = entry_at(s, rep, version, 0);
    let g = |e: EntryView| e.gross;
    let r = |e: EntryView| e.returned;
    entry_at_bounds(s, rep, version, 0);
    if i < s.len() {
        let x = EntryView {
            gross: s[i].gross + gross,
            returned: s[i].returned + returned,
            ..s[i]
        };
        order::sum_of_update(s, g, i, x);
        order::sum_of_update(s, r, i, x);
    } else {
        let x = EntryView { rep, version, gross, returned };
        assert(s.push(x).drop_last() =~= s);
    }
}

pub(crate) proof fn credited_sound(
    s: Seq<EntryView>,
    rep: Seq<char>,
    version: int,
    gross: int,
    returned: int,
    versions: nat,
)
    requires
        entries_sound(s, versions),
        0 <= version < versions,
        0 <= gross,
        0 <= returned,
    ensures
        entries_sound(credited(s, rep, version, gross, returned), versions),
{
    entry_at_bounds(s, rep, version, 0);
    let t = credited(s, rep, version, gross, returned);
    assert forall|i: int| 0 <= i < t.len() implies (#[trigger] t[i]).gross >= 0 && t[i].returned >= 0
        && 0 <= t[i].version < versions by {
        if i < s.len() {
            assert(s[i].gross >= 0 && s[i].returned >= 0);
        }
    }
}

/// A sum that is out of range stays so as shares are added.
proof fn credited_misfits(
    s: Seq<EntryView>,
    rep: Seq<char>,
    version: int,
    gross: int,
    returned: int,
)
    requires
        !entries_fit(s),
        0 <= gross,
        0 <= returned,
    ensures
        !entries_fit(credited(s, rep, version, gross, returned)),
{
    entry_at_bounds(s, rep, version, 0);
    let t = credited(s, rep, version, gross, returned);
    let i = choose|i: int|
        0 <= i < s.len() && !((#[trigger] s[i]).gross <= i128::MAX && s[i].returned <= i128::MAX);
    assert(t[i].gross >= s[i].gross && t[i].returned >= s[i].returned);
}

proof fn entries_misfit(
    entries: Seq<EntryView>,
    kind: TxnKind,
    version: int,
    ws: Seq<WinnerView>,
    shares: Seq<int>,
    m: int,
    n: int,
)
    requires
        0 <= m <= n <= shares.len(),
        forall|k: int| 0 <= k < shares.len() ==> 0 <= #[trigger] shares[k],
        !entries_fit(entries_after(entries, kind, version, ws, shares, m)),
    ensures
        !entries_fit(entries_after(entries, kind, version, ws, shares, n)),
    decreases n,
{
    if m < n {
        entries_misfit(entries, kind, version, ws, shares, m, n - 1);
        let before = entries_after(entries, kind, version, ws, shares, n - 1);
        let share = shares[n - 1];
        credited_misfits(before, ws[n - 1].rep, version, share, 0);
        credited_misfits(before, ws[n - 1].rep, version, 0, share);
    }
}

/// Add a share to a rep's entry. Says whether the sums stay within range.
fn credit_entry(
    entries: &mut Vec<Entry>,
    rep: &String,
    version: usize,
    gross: i128,
    returned: i128,
    Ghost(versions): Ghost<nat>,
) -> (r: bool)
    requires
        entries_sound(entries_view(old(entries)@), versions),
        version < versions,
        0 <= gross,
        0 <= returned,
    ensures
        ({
            let after = credited(
                entries_view(old(entries)@),
                rep@,
                version as int,
                gross as int,
                returned as int,
            );
            if r {
                entries_view(final(entries)@) == after && entries_sound(after, versions)
            } else {
                !entries_fit(after)
            }
        }),
{
    let ghost s = entries_view(entries@);
    let ghost after = credited(s, rep@, version as int, gross as int, returned as int);
    proof {
        credited_sound(s, rep@, version as int, gross as int, returned as int, versions);
    }
    let mut i: usize = 0;
    while i < entries.len()
        invariant
            i <= entries.len(),
            entries@ == old(entries)@,
            s == entries_view(entries@),
            after == credited(s, rep@, version as int, gross as int, returned as int),
            entries_sound(s, versions),
            entries_sound(after, versions),
            0 <= gross,
            0 <= returned,
            entry_at(s, rep@, version as int, 0) == entry_at(s, rep@, version as int, i as int),
        decreases entries.len() - i,
    {
        assert(s[i as int] == entries@[i as int]@);
        if entries[i].rep == *rep && entries[i].version == version {
            assert(after[i as int].gross == s[i as int].gross + gross);
            assert(after[i as int].returned == s[i as int].returned + returned);
            let (sold, back) = match (
                entries[i].gross.checked_add(gross),
                entries[i].returned.checked_add(returned),
            ) {
                (Some(sold), Some(back)) => (sold, back),
                _ => return false,
            };
            let x = Entry { rep: rep.clone(), version, gross: sold, returned: back };
            let ghost now = x@;
            entries.set(i, x);
            assert(entries_view(entries@) =~= s.update(i as int, now));
            return true;
        }
        i = i + 1;
    }
    let x = Entry { rep: rep.clone(), version, gross, returned };
    let ghost now = x@;
    entries.push(x);
    assert(entries_view(entries@) =~= s.push(now));
    true
}

/// Book the shares of a transaction. Says whether the sums stay within range.
fn book(
    state: &mut RunState,
    t: &Transaction,
    version: usize,
    winners: &Vec<Winner>,
    shares: &Vec<i128>,
    Ghost(versions): Ghost<nat>,
) -> (r: bool)
    requires
        entries_sound(old(state)@.entries, versions),
        version < versions,
        winners.len() == shares.len(),
        forall|i: int| 0 <= i < shares.len() ==> 0 <= #[trigger] shares@[i],
    ensures
        ({
            let after = booked(
                old(state)@,
                t@,
                version as int,
                winners_view(winners@),
                split::amounts(shares@),
            );
            if r {
                final(state)@ == after && entries_sound(after.entries, versions)
            } else {
                !entries_fit(after.entries)
            }
        }),
        final(state).resolved == old(state).resolved,
        final(state).findings == old(state).findings,
{
    let ghost before = state@;
    let ghost ws = winners_view(winners@);
    let ghost ss = split::amounts(shares@);
    let mut i: usize = 0;
    assert(state@.lines =~= before.lines + lines_of(t@, ws, ss, 0));
    assert forall|k: int| 0 <= k < ss.len() implies 0 <= #[trigger] ss[k] by {
        assert(shares@[k] >= 0);
    }
    while i < winners.len()
        invariant
            i <= winners.len(),
            winners.len() == shares.len(),
            before == old(state)@,
            ws == winners_view(winners@),
            ss == split::amounts(shares@),
            version < versions,
            forall|k: int| 0 <= k < ss.len() ==> 0 <= #[trigger] ss[k],
            state.resolved == old(state).resolved,
            state.findings == old(state).findings,
            state@.lines == before.lines + lines_of(t@, ws, ss, i as int),
            state@.entries == entries_after(
                before.entries,
                t.kind,
                version as int,
                ws,
                ss,
                i as int,
            ),
            entries_sound(state@.entries, versions),
        decreases winners.len() - i,
    {
        let w = &winners[i];
        let share: i128 = shares[i];
        assert(ws[i as int] == w@);
        assert(ss[i as int] == share);
        let link: Option<String> = match t.kind {
            TxnKind::Sale => None,
            TxnKind::Return => match &t.original_transaction_id {
                Some(o) => Some(o.clone()),
                None => None,
            },
        };
        let amount: i128 = match t.kind {
            TxnKind::Sale => share,
            TxnKind::Return => -share,
        };
        let line = CreditLine {
            transaction_id: t.transaction_id.clone(),
            links_original: link,
            rep_id: w.rep.clone(),
            role: w.role.clone(),
            credited_cents: amount,
        };
        let ghost was = state.lines@;
        assert(line@ =~= line_of(t@, w@, share as int));
        state.lines.push(line);
        assert(lines_view(state.lines@) =~= lines_view(was).push(line@));
        let kept = match t.kind {
            TxnKind::Sale => credit_entry(
                &mut state.entries,
                &w.rep,
                version,
                share,
                0,
                Ghost(versions),
            ),
            TxnKind::Return => credit_entry(
                &mut state.entries,
                &w.rep,
                version,
                0,
                share,
                Ghost(versions),
            ),
        };
        if !kept {
            proof {
                entries_misfit(
                    before.entries,
                    t.kind,
                    version as int,
                    ws,
                    ss,
                    i + 1,
                    ws.len() as int,
                );
            }
            return false;
        }
        assert(state@.lines =~= before.lines + lines_of(t@, ws, ss, i + 1));
        i = i + 1;
    }
    assert(state@ =~= booked(before, t@, version as int, ws, ss));
    true
}

proof fn weights_stop(v: PlanVersion, ws: Seq<WinnerView>, m: int, n: int)
    requires
        0 <= m <= n,
        weights_for(v, ws, m) is Err,
    ensures
        weights_for(v, ws, n) == weights_for(v, ws, m),
    decreases n,
{
    if m < n {
        weights_stop(v, ws, m, n - 1);
    }
}

struct TxnOrder<'a> {
    txns: &'a Vec<Transaction>,
}

impl<'a> Order<usize> for TxnOrder<'a> {
    closed spec fn lt(&self, a: usize, b: usize) -> bool {
        a < self.txns.len() && b < self.txns.len() && txn_lt(
            self.txns@[a as int]@,
            self.txns@[b as int]@,
        )
    }

    fn before(&self, a: &usize, b: &usize) -> (r: bool) {
        if *a < self.txns.len() && *b < self.txns.len() {
            let x = &self.txns[*a];
            let y = &self.txns[*b];
            let xd: i32 = x.date.day_number();
            let yd: i32 = y.date.day_number();
            xd < yd || (xd == yd && text::text_before(
                x.transaction_id.as_str(),
                y.transaction_id.as_str(),
            ))
        } else {
            false
        }
    }
}

/// The places of the transactions in processing order.
fn processing_order(txns: &Vec<Transaction>) -> (r: Vec<usize>)
    ensures
        r.len() == txns.len(),
        forall|k: int| 0 <= k < r.len() ==> (#[trigger] r@[k]) < txns.len(),
        in_order(input::transactions_view(txns@)) == Seq::new(
            r@.len(),
            |k: int| txns@[r@[k] as int]@,
        ),
{
    let ghost views = input::transactions_view(txns@);
    let mut places: Vec<usize> = Vec::new();
    let mut i: usize = 0;
    while i < txns.len()
        invariant
            i <= txns.len(),
            places.len() == i,
            forall|k: int| 0 <= k < i ==> #[trigger] places@[k] == k as usize,
        decreases txns.len() - i,
    {
        places.push(i);
        i = i + 1;
    }
    let ghost all = places@;
    let rule = TxnOrder { txns };
    let sorted = order::sort_by(places, &rule);
    proof {
        let lt = order::order_of(rule);
        let f = |p: usize| views[p as int];
        order::stable_sort_keeps(all, lt);
        order::stable_sort_elements(all, lt);
        assert forall|k: int| 0 <= k < sorted.len() implies (#[trigger] sorted@[k]) < txns.len() by {
            assert(sorted@.contains(sorted@[k]));
            let j = choose|j: int| 0 <= j < all.len() && all[j] == sorted@[k];
        }
        assert forall|a: usize, b: usize| all.contains(a) && all.contains(b) implies #[trigger] lt(
            a,
            b,
        ) == txn_lt(f(a), f(b)) by {
            let j = choose|j: int| 0 <= j < all.len() && all[j] == a;
            let k = choose|k: int| 0 <= k < all.len() && all[k] == b;
            assert(views[a as int] == txns@[a as int]@);
            assert(views[b as int] == txns@[b as int]@);
        }
        order::stable_sort_maps(all, f, lt, |a: TxnView, b: TxnView| txn_lt(a, b));
        assert(all.map_values(f) =~= views);
        assert(sorted@.map_values(f) =~= Seq::new(
            sorted@.len(),
            |k: int| txns@[sorted@[k] as int]@,
        ));
    }
    sorted
}

fn txn_subject_of(id: &String) -> (r: String)
    ensures
        r@ == txn_subject(id@),
{
    let mut out = String::from_str("txn:");
    out.append(id.as_str());
    out
}

/// Whether the resolved sales name versions of the plan.
spec fn resolved_bounded(s: Seq<ResolvedView>, versions: nat) -> bool {
    forall|i: int| 0 <= i < s.len() ==> 0 <= (#[trigger] s[i]).version < versions
}

/// Why a run stops.
enum Stop {
    Fault(EngineError),
    /// A sum leaves the range.
    Range,
}

/// Process one sale.
fn process_sale(plan: &PlanConfig, state: &mut RunState, t: &Transaction) -> (r: Result<(), Stop>)
    requires
        runnable(plan.versions@),
        t.kind == TxnKind::Sale,
        t.amount_cents >= 0,
        entries_sound(old(state)@.entries, plan.versions@.len()),
        resolved_bounded(old(state)@.resolved, plan.versions@.len()),
    ensures
        (match r {
            Ok(_) => {
                &&& sale_step(plan.versions@, old(state)@, t@) == Ok::<RunView, EngineFault>(
                    final(state)@,
                )
                &&& entries_sound(final(state)@.entries, plan.versions@.len())
                &&& resolved_bounded(final(state)@.resolved, plan.versions@.len())
            },
            Err(Stop::Fault(e)) => sale_step(plan.versions@, old(state)@, t@) == Err::<
                RunView,
                EngineFault,
            >(e@),
            Err(Stop::Range) => !state_fits(sale_step(plan.versions@, old(state)@, t@)),
        }),
{
    let ghost st = state@;
    let vi: usize = match plan.version_index_for_date(t.date) {
        Some(vi) => vi,
        None => {
            let mut m = String::from_str("transaction date ");
            m.append(t.date.text().as_str());
            m.append(" falls in no plan version effective range; excluded from crediting");
            let subject = txn_subject_of(&t.transaction_id);
            let ghost was = state.findings@;
            state.findings.push(Finding::breach("TXN-UNASSIGNED", subject.as_str(), m));
            assert(spine::findings_view(state.findings@) =~= spine::findings_view(was).push(
                state.findings@.last()@,
            ));
            assert(state@ =~= (RunView { findings: st.findings.push(unassigned_of(t@)), ..st }));
            return Ok(());
        },
    };
    let version = &plan.versions[vi];
    let winners = resolve_credit_winners(t, &mut state.findings);
    let ghost ws = winners_view(winners@);
    let ghost told = RunView {
        findings: st.findings + collisions_of(t@, roles_of(t@.credits).len() as int),
        ..st
    };
    assert(state@ =~= told);
    if winners.len() > 0 {
        let shares = match split_by_role_weights(version, &winners, t.amount_cents) {
            Ok(s) => s,
            Err(e) => return Err(Stop::Fault(e)),
        };
        if !book(state, t, vi, &winners, &shares, Ghost(plan.versions@.len())) {
            return Err(Stop::Range);
        }
    }
    let ghost done = state@;
    let ghost was = state.resolved@;
    let kept = Resolved { id: t.transaction_id.clone(), version: vi, winners };
    let ghost view = kept@;
    state.resolved.push(kept);
    proof {
        assert(resolved_view(state.resolved@) =~= resolved_view(was).push(view));
        assert(state@ =~= (RunView { resolved: done.resolved.push(view), ..done }));
        assert forall|i: int| 0 <= i < state@.resolved.len() implies 0 <= (
        #[trigger] state@.resolved[i]).version < plan.versions@.len() by {
            if i < st.resolved.len() {
                assert(state@.resolved[i] == st.resolved[i]);
            }
        }
    }
    Ok(())
}

/// Process one return.
fn process_return(plan: &PlanConfig, state: &mut RunState, t: &Transaction) -> (r: Result<(), Stop>)
    requires
        runnable(plan.versions@),
        t.kind == TxnKind::Return,
        t.amount_cents >= 0,
        entries_sound(old(state)@.entries, plan.versions@.len()),
        resolved_bounded(old(state)@.resolved, plan.versions@.len()),
    ensures
        (match r {
            Ok(_) => {
                &&& return_step(plan.versions@, old(state)@, t@) == Ok::<RunView, EngineFault>(
                    final(state)@,
                )
                &&& entries_sound(final(state)@.entries, plan.versions@.len())
                &&& resolved_bounded(final(state)@.resolved, plan.versions@.len())
            },
            Err(Stop::Fault(e)) => return_step(plan.versions@, old(state)@, t@) == Err::<
                RunView,
                EngineFault,
            >(e@),
            Err(Stop::Range) => !state_fits(return_step(plan.versions@, old(state)@, t@)),
        }),
{
    let ghost st = state@;
    let subject = txn_subject_of(&t.transaction_id);
    let original: &String = match &t.original_transaction_id {
        Some(o) if !text::blank(o.as_str()) => o,
        _ => {
            let m = String::from_str("return is missing a resolvable original_transaction_id");
            let ghost was = state.findings@;
            state.findings.push(Finding::breach("RETURN-MALFORMED", subject.as_str(), m));
            assert(spine::findings_view(state.findings@) =~= spine::findings_view(was).push(
                state.findings@.last()@,
            ));
            assert(state@ =~= (RunView { findings: st.findings.push(malformed_of(t@)), ..st }));
            return Ok(());
        },
    };
    let mut n: usize = state.resolved.len();
    let mut found = false;
    while !found && n > 0
        invariant
            n <= state.resolved.len(),
            state@ == st,
            !found ==> resolved_at(st.resolved, original@, st.resolved.len() as int)
                == resolved_at(st.resolved, original@, n as int),
            found ==> n > 0 && resolved_at(st.resolved, original@, st.resolved.len() as int)
                == Some(n - 1),
        decreases n + (if found { 0int } else { 1 }),
    {
        assert(st.resolved[n - 1] == state.resolved@[n - 1]@);
        if state.resolved[n - 1].id == *original {
            found = true;
        } else {
            n = n - 1;
        }
    }
    if found {
        assert(st.resolved[n - 1] == state.resolved@[n - 1]@);
    }
    if !found || state.resolved[n - 1].winners.len() == 0 {
        let mut m = String::from_str("original transaction ");
        m.append(original.as_str());
        m.append(
            " was not credited (unassigned or collision-dropped); return has nothing to reverse",
        );
        let ghost was = state.findings@;
        state.findings.push(
            Finding::note("ORIGINAL-NOT-CREDITED", Severity::Warn, subject.as_str(), m),
        );
        assert(spine::findings_view(state.findings@) =~= spine::findings_view(was).push(
            state.findings@.last()@,
        ));
        assert(state@ =~= (RunView { findings: st.findings.push(uncredited_of(t@)), ..st }));
        return Ok(());
    }
    let vi: usize = state.resolved[n - 1].version;
    let ghost sale = st.resolved[n - 1];
    assert(0 <= sale.version < plan.versions@.len());
    let version = &plan.versions[vi];
    let shares = match split_by_role_weights(
        version,
        &state.resolved[n - 1].winners,
        t.amount_cents,
    ) {
        Ok(s) => s,
        Err(e) => return Err(Stop::Fault(e)),
    };
    let winners = copy_winners(&state.resolved[n - 1].winners);
    if !book(state, t, vi, &winners, &shares, Ghost(plan.versions@.len())) {
        return Err(Stop::Range);
    }
    let ghost done = state@;
    let mut m = String::from_str("return of ");
    m.append(text::signed_text(t.amount_cents).as_str());
    m.append(" cents on original ");
    m.append(original.as_str());
    m.append(" after payment reverses credited commission; clawback requires signoff");
    let ghost was = state.findings@;
    state.findings.push(Finding::breach("CLAWBACK", subject.as_str(), m));
    assert(spine::findings_view(state.findings@) =~= spine::findings_view(was).push(
        state.findings@.last()@,
    ));
    assert(state@ =~= (RunView { findings: done.findings.push(clawback_of(t@)), ..done }));
    Ok(())
}

fn copy_winners(v: &Vec<Winner>) -> (r: Vec<Winner>)
    ensures
        winners_view(r@) == winners_view(v@),
{
    let mut out: Vec<Winner> = Vec::new();
    let mut i: usize = 0;
    while i < v.len()
        invariant
            i <= v.len(),
            out.len() == i,
            forall|k: int| 0 <= k < i ==> (#[trigger] out@[k])@ == v@[k]@,
        decreases v.len() - i,
    {
        out.push(Winner { rep: v[i].rep.clone(), role: v[i].role.clone() });
        i = i + 1;
    }
    assert(winners_view(out@) =~= winners_view(v@));
    out
}

/// Roll an entry up.
fn summarize(version: &PlanVersion, e: &Entry) -> (r: Result<RepSummary, EngineError>)
    requires
        bands::payable(*version),
        0 <= e.gross,
        0 <= e.returned,
    ensures
        (match r {
            Ok(s) => summary_of(*version, e@) == Ok::<SummaryView, EngineFault>(s@),
            Err(x) => summary_of(*version, e@) == Err::<SummaryView, EngineFault>(x@),
        }),
{
    let net: i128 = e.gross - e.returned;
    let p: i128 = match checked_mul(net, ATTAINMENT_SCALE, "attainment") {
        Ok(p) => p,
        Err(x) => return Err(x),
    };
    let attainment_ppm: i128 = num::divide(p, version.quota_cents);
    let windfall_cap_applied = match version.windfall_cap_ppm {
        Some(cap) => attainment_ppm > cap as i128,
        None => false,
    };
    let gross_commission: i128 = match commission_total(version, e.gross) {
        Ok(c) => c,
        Err(x) => return Err(x),
    };
    let positive: i128 = if net > 0 {
        net
    } else {
        0
    };
    let (net_commission, net_band_slices) = match commission_parts(version, positive) {
        Ok(x) => x,
        Err(x) => return Err(x),
    };
    Ok(
        RepSummary {
            rep_id: e.rep.clone(),
            plan_version: version.version,
            band_mode: version.band_mode,
            gross_credited_cents: e.gross,
            returned_cents: e.returned,
            net_credited_cents: net,
            attainment_ppm,
            windfall_cap_ppm: version.windfall_cap_ppm,
            windfall_cap_applied,
            net_band_slices,
            gross_commission_cents: gross_commission,
            net_commission_cents: net_commission,
            clawback_commission_cents: gross_commission - net_commission,
        },
    )
}

fn windfall_note(s: &RepSummary, cap: u64) -> (r: Finding)
    requires
        s.windfall_cap_ppm == Some(cap),
    ensures
        r@ == windfall_of(s@),
{
    let mut subject = String::from_str("rep:");
    subject.append(s.rep_id.as_str());
    subject.append(":v");
    subject.append(text::unsigned_text(s.plan_version as u128).as_str());
    let mut m = String::from_str("attainment ");
    m.append(text::signed_text(s.attainment_ppm).as_str());
    m.append(" ppm exceeds windfall cap ");
    m.append(text::unsigned_text(cap as u128).as_str());
    m.append(" ppm; commission basis capped");
    Finding::note("WINDFALL-CAP", Severity::Info, subject.as_str(), m)
}

proof fn rollup_stops(versions: Seq<PlanVersion>, entries: Seq<EntryView>, m: int, n: int)
    requires
        0 <= m <= n,
        rollup(versions, entries, m) is Err,
    ensures
        rollup(versions, entries, n) == rollup(versions, entries, m),
    decreases n,
{
    if m < n {
        rollup_stops(versions, entries, m, n - 1);
    }
}

/// Roll the entries up, and note attainments above the windfall cap.
fn roll_up(plan: &PlanConfig, entries: &Vec<Entry>) -> (r: Result<
    (Vec<RepSummary>, Vec<Finding>),
    EngineError,
>)
    requires
        runnable(plan.versions@),
        forall|i: int|
            0 <= i < entries.len() ==> (#[trigger] entries@[i])@.gross >= 0
                && entries@[i]@.returned >= 0 && entries@[i]@.version < plan.versions@.len(),
    ensures
        (match r {
            Ok(x) => rollup(plan.versions@, entries_view(entries@), entries.len() as int) == Ok::<
                RollupView,
                EngineFault,
            >(
                RollupView {
                    summaries: summaries_view(x.0@),
                    findings: spine::findings_view(x.1@),
                },
            ),
            Err(e) => rollup(plan.versions@, entries_view(entries@), entries.len() as int)
                == Err::<RollupView, EngineFault>(e@),
        }),
{
    let ghost versions = plan.versions@;
    let ghost es = entries_view(entries@);
    let mut summaries: Vec<RepSummary> = Vec::new();
    let mut findings: Vec<Finding> = Vec::new();
    let mut i: usize = 0;
    assert(summaries_view(summaries@) =~= Seq::<SummaryView>::empty());
    assert(spine::findings_view(findings@) =~= Seq::<FindingView>::empty());
    while i < entries.len()
        invariant
            i <= entries.len(),
            versions == plan.versions@,
            runnable(versions),
            es == entries_view(entries@),
            forall|k: int|
                0 <= k < entries.len() ==> (#[trigger] entries@[k])@.gross >= 0
                    && entries@[k]@.returned >= 0 && entries@[k]@.version < versions.len(),
            rollup(versions, es, i as int) == Ok::<RollupView, EngineFault>(
                RollupView {
                    summaries: summaries_view(summaries@),
                    findings: spine::findings_view(findings@),
                },
            ),
        decreases entries.len() - i,
    {
        let e = &entries[i];
        assert(es[i as int] == e@);
        assert(e@.gross >= 0 && e@.returned >= 0);
        let version = &plan.versions[e.version];
        assert(bands::payable(versions[e.version as int]));
        let s = match summarize(version, e) {
            Ok(s) => s,
            Err(x) => {
                proof {
                    rollup_stops(versions, es, i + 1, entries.len() as int);
                }
                return Err(x);
            },
        };
        let ghost view = s@;
        if s.windfall_cap_applied {
            if let Some(cap) = s.windfall_cap_ppm {
                let ghost was = findings@;
                findings.push(windfall_note(&s, cap));
                assert(spine::findings_view(findings@) =~= spine::findings_view(was).push(
                    findings@.last()@,
                ));
            }
        }
        let ghost was = summaries@;
        summaries.push(s);
        assert(summaries_view(summaries@) =~= summaries_view(was).push(view));
        i = i + 1;
    }
    Ok((summaries, findings))
}

struct LineOrder {}

impl Order<CreditLine> for LineOrder {
    closed spec fn lt(&self, a: CreditLine, b: CreditLine) -> bool {
        line_lt(a@, b@)
    }

    fn before(&self, a: &CreditLine, b: &CreditLine) -> (r: bool) {
        if a.transaction_id != b.transaction_id {
            return text::text_before(a.transaction_id.as_str(), b.transaction_id.as_str());
        }
        proof {
            text::text_lt_irreflexive(a.transaction_id@);
            text::text_lt_irreflexive(a.rep_id@);
            text::text_lt_irreflexive(a.role@);
            if a.links_original is Some {
                text::text_lt_irreflexive(a.links_original->0@);
            }
        }
        match (&a.links_original, &b.links_original) {
            (None, Some(_)) => return true,
            (Some(_), None) => return false,
            (Some(x), Some(y)) => {
                if *x != *y {
                    return text::text_before(x.as_str(), y.as_str());
                }
            },
            (None, None) => {},
        }
        if a.rep_id != b.rep_id {
            return text::text_before(a.rep_id.as_str(), b.rep_id.as_str());
        }
        if a.role != b.role {
            return text::text_before(a.role.as_str(), b.role.as_str());
        }
        a.credited_cents < b.credited_cents
    }
}

struct SummaryOrder {}

impl Order<RepSummary> for SummaryOrder {
    closed spec fn lt(&self, a: RepSummary, b: RepSummary) -> bool {
        summary_lt(a@, b@)
    }

    fn before(&self, a: &RepSummary, b: &RepSummary) -> (r: bool) {
        text::text_before(a.rep_id.as_str(), b.rep_id.as_str()) || (a.rep_id == b.rep_id
            && a.plan_version < b.plan_version)
    }
}

struct FindingOrder {}

impl Order<Finding> for FindingOrder {
    closed spec fn lt(&self, a: Finding, b: Finding) -> bool {
        finding_lt(a@, b@)
    }

    fn before(&self, a: &Finding, b: &Finding) -> (r: bool) {
        text::text_before(a.subject.as_str(), b.subject.as_str()) || (a.subject == b.subject && (
        text::text_before(a.rule_id.as_str(), b.rule_id.as_str()) || (a.rule_id == b.rule_id
            && text::text_before(a.message.as_str(), b.message.as_str()))))
    }
}

proof fn after_sales_stops(versions: Seq<PlanVersion>, s: Seq<TxnView>, m: int, n: int)
    requires
        0 <= m <= n,
        after_sales(versions, s, m) is Err,
    ensures
        after_sales(versions, s, n) == after_sales(versions, s, m),
    decreases n,
{
    if m < n {
        after_sales_stops(versions, s, m, n - 1);
    }
}

proof fn after_returns_stops(versions: Seq<PlanVersion>, s: Seq<TxnView>, m: int, n: int)
    requires
        0 <= m <= n,
        after_returns(versions, s, m) is Err,
    ensures
        after_returns(versions, s, n) == after_returns(versions, s, m),
    decreases n,
{
    if m < n {
        after_returns_stops(versions, s, m, n - 1);
    }
}

/// Once the sales have failed, no later state has sums.
proof fn fault_fits_sales(versions: Seq<PlanVersion>, s: Seq<TxnView>, m: int)
    requires
        0 <= m <= s.len(),
        after_sales(versions, s, m) is Err,
        forall|n: int| 0 <= n < m ==> state_fits(#[trigger] after_sales(versions, s, n)),
    ensures
        sums_fit(versions, s),
        after_returns(versions, s, s.len() as int) == after_sales(versions, s, m),
{
    assert forall|n: int| 0 <= n <= s.len() implies state_fits(
        #[trigger] after_sales(versions, s, n),
    ) by {
        if m <= n {
            after_sales_stops(versions, s, m, n);
        }
    }
    after_sales_stops(versions, s, m, s.len() as int);
    assert(after_returns(versions, s, 0) == after_sales(versions, s, s.len() as int));
    assert forall|n: int| 0 <= n <= s.len() implies state_fits(
        #[trigger] after_returns(versions, s, n),
    ) by {
        after_returns_stops(versions, s, 0, n);
    }
    after_returns_stops(versions, s, 0, s.len() as int);
}

/// Once a return has failed, no later state has sums.
proof fn fault_fits_returns(versions: Seq<PlanVersion>, s: Seq<TxnView>, m: int)
    requires
        0 <= m <= s.len(),
        after_returns(versions, s, m) is Err,
        forall|n: int| 0 <= n <= s.len() ==> state_fits(#[trigger] after_sales(versions, s, n)),
        forall|n: int| 0 <= n < m ==> state_fits(#[trigger] after_returns(versions, s, n)),
    ensures
        sums_fit(versions, s),
        after_returns(versions, s, s.len() as int) == after_returns(versions, s, m),
{
    assert forall|n: int| 0 <= n <= s.len() implies state_fits(
        #[trigger] after_returns(versions, s, n),
    ) by {
        if m <= n {
            after_returns_stops(versions, s, m, n);
        }
    }
    after_returns_stops(versions, s, m, s.len() as int);
}

proof fn state_in_range(state: RunState)
    ensures
        entries_fit(state@.entries),
{
    assert forall|i: int| 0 <= i < state@.entries.len() implies (
    #[trigger] state@.entries[i]).gross <= i128::MAX && state@.entries[i].returned <= i128::MAX by {
        assert(state@.entries[i] == state.entries@[i]@);
    }
}

/// Both passes over the transactions in processing order.
fn process(plan: &PlanConfig, txns: &Vec<Transaction>) -> (r: Result<RunState, Stop>)
    requires
        runnable(plan.versions@),
        amounts_kept(input::transactions_view(txns@)),
    ensures
        ({
            let s = in_order(input::transactions_view(txns@));
            let after = after_returns(plan.versions@, s, txns.len() as int);
            match r {
                Ok(st) => {
                    &&& after == Ok::<RunView, EngineFault>(st@)
                    &&& entries_sound(st@.entries, plan.versions@.len())
                    &&& sums_fit(plan.versions@, s)
                },
                Err(Stop::Fault(e)) => after == Err::<RunView, EngineFault>(e@) && sums_fit(
                    plan.versions@,
                    s,
                ),
                Err(Stop::Range) => !sums_fit(plan.versions@, s),
            }
        }),
{
    let ghost views = input::transactions_view(txns@);
    let ghost s = in_order(views);
    let ghost versions = plan.versions@;
    let places = processing_order(txns);
    proof {
        assert forall|k: int| 0 <= k < s.len() implies (#[trigger] s[k]).amount_cents >= 0 by {
            assert(s[k] == txns@[places@[k] as int]@);
            assert(views[places@[k] as int] == txns@[places@[k] as int]@);
        }
    }
    let mut state = RunState {
        lines: Vec::new(),
        entries: Vec::new(),
        resolved: Vec::new(),
        findings: Vec::new(),
    };
    assert(state@ =~= start());
    let mut i: usize = 0;
    while i < places.len()
        invariant
            i <= places.len() == txns.len(),
            versions == plan.versions@,
            runnable(versions),
            s == in_order(input::transactions_view(txns@)),
            s == Seq::new(places@.len(), |k: int| txns@[places@[k] as int]@),
            forall|k: int| 0 <= k < places.len() ==> (#[trigger] places@[k]) < txns.len(),
            forall|k: int| 0 <= k < s.len() ==> (#[trigger] s[k]).amount_cents >= 0,
            after_sales(versions, s, i as int) == Ok::<RunView, EngineFault>(state@),
            forall|n: int| 0 <= n < i ==> state_fits(#[trigger] after_sales(versions, s, n)),
            entries_sound(state@.entries, versions.len()),
            resolved_bounded(state@.resolved, versions.len()),
        decreases places.len() - i,
    {
        let t = &txns[places[i]];
        assert(s[i as int] == t@);
        proof {
            state_in_range(state);
        }
        if t.kind == TxnKind::Sale {
            match process_sale(plan, &mut state, t) {
                Ok(_) => {},
                Err(Stop::Fault(e)) => {
                    proof {
                        fault_fits_sales(versions, s, i + 1);
                    }
                    return Err(Stop::Fault(e));
                },
                Err(Stop::Range) => {
                    assert(!state_fits(after_sales(versions, s, i + 1)));
                    return Err(Stop::Range);
                },
            }
        }
        i = i + 1;
    }
    proof {
        state_in_range(state);
    }
    let mut j: usize = 0;
    while j < places.len()
        invariant
            j <= places.len() == txns.len(),
            versions == plan.versions@,
            runnable(versions),
            s == in_order(input::transactions_view(txns@)),
            s == Seq::new(places@.len(), |k: int| txns@[places@[k] as int]@),
            forall|k: int| 0 <= k < places.len() ==> (#[trigger] places@[k]) < txns.len(),
            forall|k: int| 0 <= k < s.len() ==> (#[trigger] s[k]).amount_cents >= 0,
            after_returns(versions, s, j as int) == Ok::<RunView, EngineFault>(state@),
            forall|n: int|
                0 <= n <= s.len() ==> state_fits(#[trigger] after_sales(versions, s, n)),
            forall|n: int| 0 <= n < j ==> state_fits(#[trigger] after_returns(versions, s, n)),
            entries_sound(state@.entries, versions.len()),
            resolved_bounded(state@.resolved, versions.len()),
        decreases places.len() - j,
    {
        let t = &txns[places[j]];
        assert(s[j as int] == t@);
        proof {
            state_in_range(state);
        }
        if t.kind == TxnKind::Return {
            match process_return(plan, &mut state, t) {
                Ok(_) => {},
                Err(Stop::Fault(e)) => {
                    proof {
                        fault_fits_returns(versions, s, j + 1);
                    }
                    return Err(Stop::Fault(e));
                },
                Err(Stop::Range) => {
                    assert(!state_fits(after_returns(versions, s, j + 1)));
                    return Err(Stop::Range);
                },
            }
        }
        j = j + 1;
    }
    proof {
        state_in_range(state);
    }
    Ok(state)
}

/// Run the engine. None where a sum leaves the range before the run ends or
/// fails.
pub fn try_run(plan: &PlanConfig, txns: &TransactionsFile) -> (r: Option<
    Result<EngineOutput, EngineError>,
>)
    requires
        runnable(plan.versions@),
        amounts_kept(txns@),
    ensures
        (match r {
            Some(Ok(out)) => run_fits(plan.versions@, txns@) && outcome(plan.versions@, txns@)
                == Ok::<OutputView, EngineFault>(out@),
            Some(Err(e)) => run_fits(plan.versions@, txns@) && outcome(plan.versions@, txns@)
                == Err::<OutputView, EngineFault>(e@),
            None => !run_fits(plan.versions@, txns@),
        }),
{
    let ghost versions = plan.versions@;
    let ghost s = in_order(txns@);
    proof {
        order::stable_sort_keeps(txns@, |a: TxnView, b: TxnView| txn_lt(a, b));
    }
    let state = match process(plan, &txns.transactions) {
        Ok(st) => st,
        Err(Stop::Fault(e)) => return Some(Err(e)),
        Err(Stop::Range) => return None,
    };
    let ghost st = state@;
    let ghost raw_lines = state.lines@;
    let ghost raw_entries = state.entries@;
    let ghost raw_findings = state.findings@;
    let by_entry = EntryOrder {  };
    let entries = order::sort_by(state.entries, &by_entry);
    proof {
        order::stable_sort_maps(
            raw_entries,
            |e: Entry| e@,
            order::order_of(by_entry),
            |a: EntryView, b: EntryView| entry_lt(a, b),
        );
        order::stable_sort_elements(raw_entries, order::order_of(by_entry));
        assert forall|i: int| 0 <= i < entries.len() implies (#[trigger] entries@[i])@.gross >= 0
            && entries@[i]@.returned >= 0 && entries@[i]@.version < versions.len() by {
            assert(entries@.contains(entries@[i]));
            let k = choose|k: int| 0 <= k < raw_entries.len() && raw_entries[k] == entries@[i];
            assert(st.entries[k] == raw_entries[k]@);
        }
    }
    let (summaries, mut notes) = match roll_up(plan, &entries) {
        Ok(x) => x,
        Err(e) => return Some(Err(e)),
    };
    let ghost raw_summaries = summaries@;
    let ghost raw_notes = notes@;
    let mut findings = state.findings;
    findings.append(&mut notes);
    let ghost all_findings = findings@;
    let by_summary = SummaryOrder {  };
    let by_line = LineOrder {  };
    let by_finding = FindingOrder {  };
    let rep_summaries = order::sort_by(summaries, &by_summary);
    let credit_lines = order::sort_by(state.lines, &by_line);
    let sorted_findings = order::sort_by(findings, &by_finding);
    proof {
        order::stable_sort_maps(
            raw_summaries,
            |x: RepSummary| x@,
            order::order_of(by_summary),
            |a: SummaryView, b: SummaryView| summary_lt(a, b),
        );
        order::stable_sort_maps(
            raw_lines,
            |x: CreditLine| x@,
            order::order_of(by_line),
            |a: CreditLineView, b: CreditLineView| line_lt(a, b),
        );
        order::stable_sort_maps(
            all_findings,
            |f: Finding| f@,
            order::order_of(by_finding),
            |a: FindingView, b: FindingView| finding_lt(a, b),
        );
        assert(spine::findings_view(all_findings) =~= st.findings + spine::findings_view(
            raw_notes,
        ));
    }
    Some(Ok(EngineOutput { credit_lines, rep_summaries, findings: sorted_findings }))
}

/// Run the engine.
pub fn run(plan: &PlanConfig, txns: &TransactionsFile) -> (r: Result<EngineOutput, EngineError>)
    requires
        runnable(plan.versions@),
        amounts_kept(txns@),
        run_fits(plan.versions@, txns@),
    ensures
        (match r {
            Ok(out) => outcome(plan.versions@, txns@) == Ok::<OutputView, EngineFault>(out@),
            Err(e) => outcome(plan.versions@, txns@) == Err::<OutputView, EngineFault>(e@),
        }),
{
    match try_run(plan, txns) {
        Some(r) => r,
        None => Err(EngineError::ArithmeticOverflow { what: "sums" }),
    }
}

} // verus!
