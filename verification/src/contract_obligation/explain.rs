//! An evaluation in plain text.

use vstd::prelude::*;
use vstd::string::StringExecFns;

use crate::contract_obligation::engine::{
    DeadlineResolution, Evaluation, ResolutionKind, ResolutionView,
};
use crate::date;
use crate::date::Date;
use crate::spine;
use crate::spine::{Finding, FindingView};
use crate::text;
use crate::text::Writer;

verus! {

pub open spec fn kind_name(kind: ResolutionKind) -> Seq<char> {
    match kind {
        ResolutionKind::Due => "due"@,
        ResolutionKind::OptOut => "opt-out"@,
        ResolutionKind::Sla => "sla"@,
    }
}

fn kind_label(kind: ResolutionKind) -> (r: &'static str)
    ensures
        r@ == kind_name(kind),
{
    match kind {
        ResolutionKind::Due => "due",
        ResolutionKind::OptOut => "opt-out",
        ResolutionKind::Sla => "sla",
    }
}

/// The lines on an obligation's effective date.
pub open spec fn date_lines(r: ResolutionView) -> Seq<char> {
    match r.due {
        Some(due) => "  effective date "@ + date::date_text(due) + " ("@ + (match r.base {
            Some(base) => "base "@ + date::date_text(base),
            None => "no anchor base"@,
        }) + (if r.roll_applied {
            ", rolled to business day"@
        } else {
            ""@
        }) + ")\n"@ + (match r.days_remaining {
            Some(days) => "  days remaining: "@ + text::signed_decimal(days) + "\n"@,
            None => ""@,
        }),
        None => "  effective date: pending (anchor event has not occurred)\n"@,
    }
}

/// The line on the latest measurement.
pub open spec fn credit_line(r: ResolutionView) -> Seq<char> {
    match r.tier_min_uptime_bp {
        Some(tier) => "  latest measurement: tier floor "@ + text::decimal(tier as nat)
            + " bp, credit "@ + text::signed_decimal(
            match r.credit_cents {
                Some(c) => c,
                None => 0,
            },
        ) + " cents\n"@,
        None => ""@,
    }
}

/// The paragraph on one obligation.
pub open spec fn resolution_text(r: ResolutionView) -> Seq<char> {
    "\n"@ + r.obligation_id + " ["@ + kind_name(r.kind) + "] "@ + r.counterparty + "\n"@
        + date_lines(r) + credit_line(r)
}

pub open spec fn finding_line(f: FindingView) -> Seq<char> {
    "  ["@ + spine::severity_mark(f.severity) + "] "@ + f.rule_id + " "@ + f.subject + ": "@
        + f.message + "\n"@
}

pub struct ResolutionWriter {}

impl Writer<DeadlineResolution> for ResolutionWriter {
    open spec fn written(&self, x: DeadlineResolution) -> Seq<char> {
        resolution_text(x@)
    }

    fn write_to(&self, x: &DeadlineResolution, out: &mut String) {
        let ghost before = out@;
        let mut line = String::from_str("\n");
        line.append(x.obligation_id.as_str());
        line.append(" [");
        line.append(kind_label(x.kind));
        line.append("] ");
        line.append(x.counterparty.as_str());
        line.append("\n");
        line.append(dates(x).as_str());
        line.append(credit(x).as_str());
        out.append(line.as_str());
    }
}

fn dates(x: &DeadlineResolution) -> (r: String)
    ensures
        r@ == date_lines(x@),
{
    match x.due_date {
        Some(due) => {
            let mut base = String::from_str("no anchor base");
            if let Some(day) = x.base_date {
                base = String::from_str("base ");
                base.append(day.text().as_str());
            }
            let mut remaining = String::from_str("");
            if let Some(days) = x.days_remaining {
                remaining = String::from_str("  days remaining: ");
                remaining.append(text::signed_text(days as i128).as_str());
                remaining.append("\n");
            }
            let mut out = String::from_str("  effective date ");
            out.append(due.text().as_str());
            out.append(" (");
            out.append(base.as_str());
            out.append(if x.roll_applied { ", rolled to business day" } else { "" });
            out.append(")\n");
            out.append(remaining.as_str());
            out
        },
        None => String::from_str("  effective date: pending (anchor event has not occurred)\n"),
    }
}

fn credit(x: &DeadlineResolution) -> (r: String)
    ensures
        r@ == credit_line(x@),
{
    match x.tier_min_uptime_bp {
        Some(tier) => {
            let cents: i128 = match x.credit_cents {
                Some(c) => c,
                None => 0,
            };
            let mut out = String::from_str("  latest measurement: tier floor ");
            out.append(text::unsigned_text(tier as u128).as_str());
            out.append(" bp, credit ");
            out.append(text::signed_text(cents).as_str());
            out.append(" cents\n");
            out
        },
        None => String::from_str(""),
    }
}

pub struct FindingWriter {}

impl Writer<Finding> for FindingWriter {
    open spec fn written(&self, x: Finding) -> Seq<char> {
        finding_line(x@)
    }

    fn write_to(&self, x: &Finding, out: &mut String) {
        let mut line = String::from_str("  [");
        line.append(spine::severity_label(x.severity));
        line.append("] ");
        line.append(x.rule_id.as_str());
        line.append(" ");
        line.append(x.subject.as_str());
        line.append(": ");
        line.append(x.message.as_str());
        line.append("\n");
        out.append(line.as_str());
    }
}

/// The text on an evaluation.
pub open spec fn explanation(e: Evaluation, clock: int) -> Seq<char> {
    "contract obligation register — evaluated at "@ + date::date_text(clock) + "\n"@
        + text::all_written(ResolutionWriter {  }, e.resolutions@) + "\n"@ + (if e.findings.len()
        == 0 {
        "findings: none\n"@
    } else {
        "findings:\n"@ + text::all_written(FindingWriter {  }, e.findings@)
    })
}

/// The deadlines, renewal windows, and credits of an evaluation, and its
/// findings, in plain text.
pub fn explain(evaluation: &Evaluation, clock: Date) -> (r: String)
    ensures
        r@ == explanation(*evaluation, clock.day()),
{
    let mut tail = String::from_str("findings: none\n");
    if evaluation.findings.len() > 0 {
        tail = String::from_str("findings:\n");
        text::write_all(&FindingWriter {  }, &evaluation.findings, &mut tail);
    }
    let mut out = String::from_str("contract obligation register — evaluated at ");
    out.append(clock.text().as_str());
    out.append("\n");
    text::write_all(&ResolutionWriter {  }, &evaluation.resolutions, &mut out);
    out.append("\n");
    out.append(tail.as_str());
    out
}

} // verus!
