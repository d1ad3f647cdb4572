//! Evidence packs for reconciliation runs, and the report as text.

use vstd::prelude::*;
use vstd::string::StringExecFns;

use crate::bankrec::engine;
use crate::bankrec::engine::{
    fmt_cents, AdjustmentProposal, MatchRecord, MatchTier, MatchView, ProposalKind, ProposalView,
    ReconciliationReport, UnmatchedItem, UnmatchedView,
};
use crate::spine;
use crate::spine::{EvidencePack, Finding, FindingView, Severity, Signoff, SPINE_VERSION};
use crate::text;
use crate::text::Writer;

verus! {

/// Engine identity stamped into packs. An approval by this actor resolves
/// nothing.
pub const ENGINE_ID: &'static str = "bankrec-spine";

/// The output of a run: the report and the sealed pack that vouches for it.
#[derive(Debug, Clone)]
pub struct ComputeOutput {
    pub engine_id: String,
    pub tool_version: String,
    pub as_of: String,
    pub report: ReconciliationReport,
    pub evidence_pack: EvidencePack,
}

/// Build the sealed evidence pack of a report over the exact input and
/// parameter bytes.
pub fn build_pack(
    report: &ReconciliationReport,
    engine_id: &str,
    tool_version: &str,
    inputs_bytes: &[u8],
    params_bytes: &[u8],
    signoffs: Vec<Signoff>,
) -> (r: EvidencePack)
    ensures
        r@ == spine::sealed_view(
            spine::pack_of(
                engine_id@,
                tool_version@,
                inputs_bytes@,
                params_bytes@,
                report@.findings,
                spine::signoffs_view(signoffs@),
            ),
        ),
{
    let findings = spine::copy_findings(&report.findings);
    spine::new_pack(engine_id, tool_version, inputs_bytes, params_bytes, findings, signoffs).sealed()
}

pub open spec fn tier_column(tier: MatchTier) -> Seq<char> {
    match tier {
        MatchTier::Exact => "exact        "@,
        MatchTier::Tolerance => "tolerance    "@,
        MatchTier::ManyToOne => "many-to-one  "@,
    }
}

/// A match on a line of its own.
pub open spec fn match_line(m: MatchView) -> Seq<char> {
    "  ["@ + tier_column(m.tier) + "] "@ + m.statement_id + " ← "@ + text::joined(m.ledger_ids, ", "@)
        + "  statement "@ + engine::cents_text(m.statement_amount_cents) + " matched "@ + engine::cents_text(
        m.matched_amount_cents,
    ) + " variance "@ + engine::cents_text(m.variance_cents) + "\n"@
}

/// An unmatched item on a line of its own.
pub open spec fn unmatched_line(u: UnmatchedView) -> Seq<char> {
    "  "@ + u.id + "  date="@ + u.date + " age="@ + text::signed_decimal(u.age_days) + "d"@ + (if u.stale {
        " STALE — breach finding; signoff required to resolve"@
    } else {
        ""@
    }) + "\n"@
}

pub open spec fn severity_column(s: Severity) -> Seq<char> {
    match s {
        Severity::Info => "info   "@,
        Severity::Warn => "warn   "@,
        Severity::Breach => "BREACH "@,
    }
}

/// A finding on a line of its own.
pub open spec fn finding_line(f: FindingView) -> Seq<char> {
    "  ["@ + severity_column(f.severity) + "] "@ + f.rule_id + " "@ + f.subject + ": "@ + f.message
        + (if f.requires_signoff {
        " — signoff required to resolve"@
    } else {
        ""@
    }) + "\n"@
}

pub open spec fn proposal_name(k: ProposalKind) -> Seq<char> {
    match k {
        ProposalKind::RecordLedgerEntry => "RecordLedgerEntry"@,
        ProposalKind::InvestigateLedgerEntry => "InvestigateLedgerEntry"@,
    }
}

/// A proposal on a line of its own.
pub open spec fn proposal_line(p: ProposalView) -> Seq<char> {
    "  "@ + proposal_name(p.kind) + " "@ + p.subject + " : "@ + p.detail + "\n"@
}

/// A heading with the number of lines under it.
pub open spec fn heading(label: Seq<char>, n: nat) -> Seq<char> {
    "\n"@ + label + " ("@ + text::decimal(n) + "):\n"@
}

/// A run's output as text.
pub open spec fn explanation(
    engine_id: Seq<char>,
    tool_version: Seq<char>,
    as_of: Seq<char>,
    r: ReconciliationReport,
) -> Seq<char> {
    "bankrec-spine — bank reconciliation report\n"@ + "  as_of "@ + as_of + " | engine "@ + engine_id
        + " v"@ + tool_version + " | spine "@ + SPINE_VERSION@ + "\n"@ + heading(
        "Matches"@,
        r.matches@.len(),
    ) + text::all_written(MatchLines {  }, r.matches@) + heading(
        "Unmatched statement lines"@,
        r.unmatched_statement@.len(),
    ) + text::all_written(UnmatchedLines {  }, r.unmatched_statement@) + heading(
        "Unmatched ledger entries"@,
        r.unmatched_ledger@.len(),
    ) + text::all_written(UnmatchedLines {  }, r.unmatched_ledger@) + heading(
        "Findings"@,
        r.findings@.len(),
    ) + text::all_written(FindingLines {  }, r.findings@) + heading(
        "Adjustment proposals"@,
        r.adjustment_proposals@.len(),
    ) + text::all_written(ProposalLines {  }, r.adjustment_proposals@)
}

fn push_heading(out: &mut String, label: &str, n: usize)
    ensures
        final(out)@ == old(out)@ + heading(label@, n as nat),
{
    let ghost before = out@;
    out.append("\n");
    out.append(label);
    out.append(" (");
    out.append(text::count_text(n).as_str());
    out.append("):\n");
    assert(out@ =~= before + heading(label@, n as nat));
}

/// Writes each on a line of its own.
pub struct MatchLines {}

impl Writer<MatchRecord> for MatchLines {
    open spec fn written(&self, m: MatchRecord) -> Seq<char> {
        match_line(m@)
    }

    fn write_to(&self, m: &MatchRecord, out: &mut String) {
        let ghost before = out@;
        out.append("  [");
        out.append(
            match m.tier {
                MatchTier::Exact => "exact        ",
                MatchTier::Tolerance => "tolerance    ",
                MatchTier::ManyToOne => "many-to-one  ",
            },
        );
        out.append("] ");
        out.append(m.statement_id.as_str());
        out.append(" ← ");
        out.append(text::join(&m.ledger_ids, ", ").as_str());
        assert(text::texts(m.ledger_ids@) =~= m@.ledger_ids);
        out.append("  statement ");
        out.append(fmt_cents(m.statement_amount_cents).as_str());
        out.append(" matched ");
        out.append(fmt_cents(m.matched_amount_cents).as_str());
        out.append(" variance ");
        out.append(fmt_cents(m.variance_cents).as_str());
        out.append("\n");
        assert(out@ =~= before + match_line(m@));
    }
}

/// Writes each on a line of its own.
pub struct UnmatchedLines {}

impl Writer<UnmatchedItem> for UnmatchedLines {
    open spec fn written(&self, u: UnmatchedItem) -> Seq<char> {
        unmatched_line(u@)
    }

    fn write_to(&self, u: &UnmatchedItem, out: &mut String) {
        let ghost before = out@;
        out.append("  ");
        out.append(u.id.as_str());
        out.append("  date=");
        out.append(u.date.as_str());
        out.append(" age=");
        out.append(text::signed_text(u.age_days as i128).as_str());
        out.append("d");
        out.append(
            if u.stale {
                " STALE — breach finding; signoff required to resolve"
            } else {
                ""
            },
        );
        out.append("\n");
        assert(out@ =~= before + unmatched_line(u@));
    }
}

/// Writes each on a line of its own.
pub struct FindingLines {}

impl Writer<Finding> for FindingLines {
    open spec fn written(&self, f: Finding) -> Seq<char> {
        finding_line(f@)
    }

    fn write_to(&self, f: &Finding, out: &mut String) {
        let ghost before = out@;
        out.append("  [");
        out.append(
            match f.severity {
                Severity::Info => "info   ",
                Severity::Warn => "warn   ",
                Severity::Breach => "BREACH ",
            },
        );
        out.append("] ");
        out.append(f.rule_id.as_str());
        out.append(" ");
        out.append(f.subject.as_str());
        out.append(": ");
        out.append(f.message.as_str());
        out.append(
            if f.requires_signoff {
                " — signoff required to resolve"
            } else {
                ""
            },
        );
        out.append("\n");
        assert(out@ =~= before + finding_line(f@));
    }
}

/// Writes each on a line of its own.
pub struct ProposalLines {}

impl Writer<AdjustmentProposal> for ProposalLines {
    open spec fn written(&self, p: AdjustmentProposal) -> Seq<char> {
        proposal_line(p@)
    }

    fn write_to(&self, p: &AdjustmentProposal, out: &mut String) {
        let ghost before = out@;
        out.append("  ");
        out.append(
            match p.kind {
                ProposalKind::RecordLedgerEntry => "RecordLedgerEntry",
                ProposalKind::InvestigateLedgerEntry => "InvestigateLedgerEntry",
            },
        );
        out.append(" ");
        out.append(p.subject.as_str());
        out.append(" : ");
        out.append(p.detail.as_str());
        out.append("\n");
        assert(out@ =~= before + proposal_line(p@));
    }
}

/// A run's output as text.
pub fn explain(output: &ComputeOutput) -> (r: String)
    ensures
        r@ == explanation(
            output.engine_id@,
            output.tool_version@,
            output.as_of@,
            output.report,
        ),
{
    let mut out = String::from_str("bankrec-spine — bank reconciliation report\n");
    out.append("  as_of ");
    out.append(output.as_of.as_str());
    out.append(" | engine ");
    out.append(output.engine_id.as_str());
    out.append(" v");
    out.append(output.tool_version.as_str());
    out.append(" | spine ");
    out.append(SPINE_VERSION);
    out.append("\n");
    let report = &output.report;
    push_heading(&mut out, "Matches", report.matches.len());
    text::write_all(&MatchLines {  }, &report.matches, &mut out);
    push_heading(&mut out, "Unmatched statement lines", report.unmatched_statement.len());
    text::write_all(&UnmatchedLines {  }, &report.unmatched_statement, &mut out);
    push_heading(&mut out, "Unmatched ledger entries", report.unmatched_ledger.len());
    text::write_all(&UnmatchedLines {  }, &report.unmatched_ledger, &mut out);
    push_heading(&mut out, "Findings", report.findings.len());
    text::write_all(&FindingLines {  }, &report.findings, &mut out);
    push_heading(&mut out, "Adjustment proposals", report.adjustment_proposals.len());
    text::write_all(&ProposalLines {  }, &report.adjustment_proposals, &mut out);
    out
}

} // verus!
