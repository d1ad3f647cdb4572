//! The derivation of one action's evaluation, in plain text.

use vstd::prelude::*;
use vstd::string::StringExecFns;

use crate::capa::config::CapaConfig;
use crate::capa::engine;
use crate::capa::engine::{severity_label, CapaEvaluation};
use crate::capa::model::{CapaRecord, Status};
use crate::instant;
use crate::instant::Instant;
use crate::spine;
use crate::spine::{Finding, FindingView};
use crate::text;
use crate::text::Writer;

verus! {

pub open spec fn head_lines(r: CapaRecord, e: CapaEvaluation, as_of: Instant) -> Seq<char> {
    "CAPA "@ + r.id@ + " — classified "@ + engine::severity_name(e.severity)
        + " (severity matrix: "@ + r.category.name() + " × "@ + r.detectability.name()
        + ")\ndescription: "@ + r.description@ + "\nopened: "@ + instant::moment_text(r.opened_at@)
        + "\nas of: "@ + instant::moment_text(as_of@)
}

pub open spec fn containment_line(e: CapaEvaluation) -> Seq<char> {
    match (e.containment_required, e.containment_due) {
        (true, Some(due)) => "containment: required within "@ + text::decimal(
            match e.containment_hours {
                Some(hours) => hours as nat,
                None => 0,
            },
        ) + "h of opening — due "@ + instant::moment_text(due@) + "; "@ + (
        match e.containment_recorded_at {
            Some(at) => "recorded "@ + instant::moment_text(at@),
            None => "not recorded"@,
        }),
        _ => "containment: not required at this severity"@,
    }
}

pub open spec fn status_text(r: CapaRecord, e: CapaEvaluation) -> Seq<char> {
    if !e.treated_as_open {
        "closed"@
    } else if r.status == Status::Closed {
        "closure REFUSED — treated as open (fail-closed)"@
    } else {
        "open"@
    }
}

pub open spec fn closure_line(r: CapaRecord, e: CapaEvaluation, c: CapaConfig) -> Seq<char> {
    match r.status {
        Status::Open => "closure checklist: not yet requested"@,
        Status::Closed => "closure checklist: root cause "@ + (if engine::has_root_cause(r) {
            "recorded"@
        } else {
            "MISSING"@
        }) + " — effectiveness "@ + (if engine::is_checked(r) {
            "completed"@
        } else {
            "incomplete"@
        }) + (match e.effectiveness_due {
            Some(due) => "; effectiveness due "@ + instant::moment_text(due@) + " (closure + "@
                + text::decimal(c.effectiveness_window_days as nat) + " days)"@,
            None => ""@,
        }),
    }
}

/// The line on an open action's age, with the break before it.
pub open spec fn aging_line(r: CapaRecord, e: CapaEvaluation, c: CapaConfig, as_of: Instant) -> Seq<
    char,
> {
    if e.treated_as_open {
        "\naging: open "@ + text::signed_decimal(instant::days_between(as_of@, r.opened_at@))
            + " day(s) as of the clock — warn after "@ + text::decimal(
            c.aging.warn_after_days as nat,
        ) + " day(s), breach after "@ + text::decimal(c.aging.breach_after_days as nat)
            + " day(s)"@
    } else {
        ""@
    }
}

pub open spec fn linkage_line(e: CapaEvaluation) -> Seq<char> {
    match e.parent_id {
        Some(parent) => "reopen linkage: new cycle of "@ + parent@ + " ("@ + (
        if e.parent_present {
            "present"@
        } else {
            "MISSING — broken linkage"@
        }) + ")"@,
        None => "reopen linkage: none"@,
    }
}

pub open spec fn duplicate_line(e: CapaEvaluation) -> Seq<char> {
    match e.duplicate_of {
        Some(other) => "duplicate: description matches CAPA "@ + other@ + " after normalization"@,
        None => "duplicate: none detected"@,
    }
}

/// The line on a finding, with the break before it.
pub open spec fn finding_line(f: FindingView) -> Seq<char> {
    "\n  ["@ + spine::severity_mark(f.severity) + "] "@ + f.rule_id + " — "@ + f.message
}

pub open spec fn findings_lines(e: CapaEvaluation) -> Seq<char> {
    if e.findings.len() == 0 {
        "findings: none"@
    } else {
        "findings ("@ + text::decimal(e.findings.len() as nat) + "):"@ + text::all_written(
            FindingWriter {  },
            e.findings@,
        )
    }
}

/// The derivation of an evaluation.
pub open spec fn derivation(r: CapaRecord, e: CapaEvaluation, c: CapaConfig, as_of: Instant) -> Seq<
    char,
> {
    head_lines(r, e, as_of) + "\n"@ + containment_line(e) + "\neffective status: "@ + status_text(
        r,
        e,
    ) + "\n"@ + closure_line(r, e, c) + aging_line(r, e, c, as_of) + "\n"@ + linkage_line(e) + "\n"@
        + duplicate_line(e) + "\n"@ + findings_lines(e)
}

pub struct FindingWriter {}

impl Writer<Finding> for FindingWriter {
    open spec fn written(&self, x: Finding) -> Seq<char> {
        finding_line(x@)
    }

    fn write_to(&self, x: &Finding, out: &mut String) {
        let mut line = String::from_str("\n  [");
        line.append(spine::severity_label(x.severity));
        line.append("] ");
        line.append(x.rule_id.as_str());
        line.append(" — ");
        line.append(x.message.as_str());
        out.append(line.as_str());
    }
}

fn head(r: &CapaRecord, e: &CapaEvaluation, as_of: Instant) -> (s: String)
    ensures
        s@ == head_lines(*r, *e, as_of),
{
    let mut out = String::from_str("CAPA ");
    out.append(r.id.as_str());
    out.append(" — classified ");
    out.append(severity_label(e.severity));
    out.append(" (severity matrix: ");
    out.append(r.category.label());
    out.append(" × ");
    out.append(r.detectability.label());
    out.append(")\ndescription: ");
    out.append(r.description.as_str());
    out.append("\nopened: ");
    out.append(r.opened_at.text().as_str());
    out.append("\nas of: ");
    out.append(as_of.text().as_str());
    out
}

fn containment(e: &CapaEvaluation) -> (s: String)
    ensures
        s@ == containment_line(*e),
{
    match (e.containment_required, e.containment_due) {
        (true, Some(due)) => {
            let hours: u64 = match e.containment_hours {
                Some(hours) => hours,
                None => 0,
            };
            let mut recorded = String::from_str("not recorded");
            if let Some(at) = e.containment_recorded_at {
                recorded = String::from_str("recorded ");
                recorded.append(at.text().as_str());
            }
            let mut out = String::from_str("containment: required within ");
            out.append(text::unsigned_text(hours as u128).as_str());
            out.append("h of opening — due ");
            out.append(due.text().as_str());
            out.append("; ");
            out.append(recorded.as_str());
            out
        },
        _ => String::from_str("containment: not required at this severity"),
    }
}

fn status(r: &CapaRecord, e: &CapaEvaluation) -> (s: &'static str)
    ensures
        s@ == status_text(*r, *e),
{
    if !e.treated_as_open {
        "closed"
    } else if r.status == Status::Closed {
        "closure REFUSED — treated as open (fail-closed)"
    } else {
        "open"
    }
}

fn closure(r: &CapaRecord, e: &CapaEvaluation, c: &CapaConfig) -> (s: String)
    ensures
        s@ == closure_line(*r, *e, *c),
{
    match r.status {
        Status::Open => String::from_str("closure checklist: not yet requested"),
        Status::Closed => {
            let mut due_line = String::from_str("");
            if let Some(due) = e.effectiveness_due {
                due_line = String::from_str("; effectiveness due ");
                due_line.append(due.text().as_str());
                due_line.append(" (closure + ");
                due_line.append(text::unsigned_text(c.effectiveness_window_days as u128).as_str());
                due_line.append(" days)");
            }
            let mut out = String::from_str("closure checklist: root cause ");
            out.append(if engine::root_cause_recorded(r) { "recorded" } else { "MISSING" });
            out.append(" — effectiveness ");
            out.append(if engine::checked(r) { "completed" } else { "incomplete" });
            out.append(due_line.as_str());
            out
        },
    }
}

fn aging(r: &CapaRecord, e: &CapaEvaluation, c: &CapaConfig, as_of: Instant) -> (s: String)
    ensures
        s@ == aging_line(*r, *e, *c, as_of),
{
    if e.treated_as_open {
        let mut out = String::from_str("\naging: open ");
        out.append(text::signed_text(as_of.days_since(r.opened_at)).as_str());
        out.append(" day(s) as of the clock — warn after ");
        out.append(text::unsigned_text(c.aging.warn_after_days as u128).as_str());
        out.append(" day(s), breach after ");
        out.append(text::unsigned_text(c.aging.breach_after_days as u128).as_str());
        out.append(" day(s)");
        out
    } else {
        String::from_str("")
    }
}

fn linkage(e: &CapaEvaluation) -> (s: String)
    ensures
        s@ == linkage_line(*e),
{
    match &e.parent_id {
        Some(parent) => {
            let mut out = String::from_str("reopen linkage: new cycle of ");
            out.append(parent.as_str());
            out.append(" (");
            out.append(if e.parent_present { "present" } else { "MISSING — broken linkage" });
            out.append(")");
            out
        },
        None => String::from_str("reopen linkage: none"),
    }
}

fn duplicate(e: &CapaEvaluation) -> (s: String)
    ensures
        s@ == duplicate_line(*e),
{
    match &e.duplicate_of {
        Some(other) => {
            let mut out = String::from_str("duplicate: description matches CAPA ");
            out.append(other.as_str());
            out.append(" after normalization");
            out
        },
        None => String::from_str("duplicate: none detected"),
    }
}

fn findings(e: &CapaEvaluation) -> (s: String)
    ensures
        s@ == findings_lines(*e),
{
    if e.findings.len() == 0 {
        String::from_str("findings: none")
    } else {
        let mut out = String::from_str("findings (");
        out.append(text::count_text(e.findings.len()).as_str());
        out.append("):");
        text::write_all(&FindingWriter {  }, &e.findings, &mut out);
        out
    }
}

/// The derivation of one action's evaluation, line by line. Nothing is
/// computed anew.
pub fn explain_one(
    record: &CapaRecord,
    evaluation: &CapaEvaluation,
    config: &CapaConfig,
    as_of: Instant,
) -> (r: String)
    ensures
        r@ == derivation(*record, *evaluation, *config, as_of),
{
    let mut out = head(record, evaluation, as_of);
    out.append("\n");
    out.append(containment(evaluation).as_str());
    out.append("\neffective status: ");
    out.append(status(record, evaluation));
    out.append("\n");
    out.append(closure(record, evaluation, config).as_str());
    out.append(aging(record, evaluation, config, as_of).as_str());
    out.append("\n");
    out.append(linkage(evaluation).as_str());
    out.append("\n");
    out.append(duplicate(evaluation).as_str());
    out.append("\n");
    out.append(findings(evaluation).as_str());
    out
}

} // verus!
