//! A pack in plain text: its queues, its receipts, and the rules.

use vstd::prelude::*;
use vstd::string::StringExecFns;

use crate::access_recert::engine::RULE_QUARANTINE;
use crate::access_recert::pack::PackDocument;
use crate::spine;
use crate::spine::{Finding, FindingView, LockState, PackView, Severity, Signoff, SignoffDecision};
use crate::text;
use crate::text::Writer;

verus! {

/// The queues that findings stand in.
#[derive(Debug, Clone, Copy, PartialEq, Eq, Structural)]
pub enum Queue {
    /// Breaches.
    Revocation,
    /// Entitlements that match no identity.
    Quarantine,
    /// Other warnings that need an approval.
    Gated,
    /// Warnings that need none.
    Open,
}

impl Queue {
    pub open spec fn title(self) -> Seq<char> {
        match self {
            Queue::Revocation => "REVOCATION QUEUE (breach — revoke access or obtain signoff)"@,
            Queue::Quarantine =>
                "QUARANTINE QUEUE (unmatched identity — manual attribution required)"@,
            Queue::Gated => "SIGNOFF REQUIRED (gated warnings — cannot pass without review)"@,
            Queue::Open => "REVIEW QUEUE (warnings)"@,
        }
    }

    /// Whether a finding stands in the queue.
    pub open spec fn holds(self, f: FindingView) -> bool {
        match self {
            Queue::Revocation => f.severity == Severity::Breach,
            Queue::Quarantine => f.rule_id == RULE_QUARANTINE@,
            Queue::Gated => f.severity != Severity::Breach && f.requires_signoff && f.rule_id
                != RULE_QUARANTINE@,
            Queue::Open => f.severity != Severity::Breach && !f.requires_signoff,
        }
    }

    fn label(self) -> (r: &'static str)
        ensures
            r@ == self.title(),
    {
        match self {
            Queue::Revocation => "REVOCATION QUEUE (breach — revoke access or obtain signoff)",
            Queue::Quarantine =>
                "QUARANTINE QUEUE (unmatched identity — manual attribution required)",
            Queue::Gated => "SIGNOFF REQUIRED (gated warnings — cannot pass without review)",
            Queue::Open => "REVIEW QUEUE (warnings)",
        }
    }

    fn takes(self, f: &Finding) -> (r: bool)
        ensures
            r == self.holds(f@),
    {
        match self {
            Queue::Revocation => f.severity == Severity::Breach,
            Queue::Quarantine => text::same_text(f.rule_id.as_str(), RULE_QUARANTINE),
            Queue::Gated => f.severity != Severity::Breach && f.requires_signoff
                && !text::same_text(f.rule_id.as_str(), RULE_QUARANTINE),
            Queue::Open => f.severity != Severity::Breach && !f.requires_signoff,
        }
    }
}

/// How many of the first `n` findings stand in a queue.
pub open spec fn queued(s: Seq<FindingView>, queue: Queue, n: int) -> int
    decreases n,
{
    if n <= 0 {
        0
    } else {
        queued(s, queue, n - 1) + (if queue.holds(s[n - 1]) {
            1int
        } else {
            0
        })
    }
}

/// The line on a finding.
pub open spec fn finding_line(f: FindingView) -> Seq<char> {
    "  - "@ + f.subject + " ["@ + f.rule_id + "] "@ + f.message + "\n"@
}

/// The lines on those of the first `n` findings that stand in a queue.
pub open spec fn queue_lines(s: Seq<FindingView>, queue: Queue, n: int) -> Seq<char>
    decreases n,
{
    if n <= 0 {
        Seq::empty()
    } else if queue.holds(s[n - 1]) {
        queue_lines(s, queue, n - 1) + finding_line(s[n - 1])
    } else {
        queue_lines(s, queue, n - 1)
    }
}

/// The section on a queue.
pub open spec fn section(s: Seq<FindingView>, queue: Queue) -> Seq<char> {
    let n = s.len() as int;
    "\n"@ + queue.title() + " ("@ + text::decimal(queued(s, queue, n) as nat) + ")\n"@ + (if queued(
        s,
        queue,
        n,
    ) == 0 {
        "  (none)\n"@
    } else {
        queue_lines(s, queue, n)
    })
}

pub open spec fn decision_name(d: SignoffDecision) -> Seq<char> {
    match d {
        SignoffDecision::Approve => "Approve"@,
        SignoffDecision::Reject => "Reject"@,
    }
}

/// A way to write the line on a receipt.
pub struct ReceiptWriter {}

impl Writer<Signoff> for ReceiptWriter {
    open spec fn written(&self, x: Signoff) -> Seq<char> {
        "  - "@ + x.actor@ + " ("@ + x.role@ + ") "@ + decision_name(x.decision) + " subject "@
            + x.subject@ + " at "@ + x.at@ + "\n"@
    }

    fn write_to(&self, x: &Signoff, out: &mut String) {
        let mut line = String::from_str("  - ");
        line.append(x.actor.as_str());
        line.append(" (");
        line.append(x.role.as_str());
        line.append(") ");
        line.append(
            match x.decision {
                SignoffDecision::Approve => "Approve",
                SignoffDecision::Reject => "Reject",
            },
        );
        line.append(" subject ");
        line.append(x.subject.as_str());
        line.append(" at ");
        line.append(x.at.as_str());
        line.append("\n");
        out.append(line.as_str());
    }
}

/// The rules and what they find.
pub open spec fn catalog() -> Seq<char> {
    "  leaver-active-entitlement  breach — active entitlement for an identity separated before the campaign date\n"@
        + "  orphan-system              breach — entitlement on a system with no managed-system record\n"@
        + "  orphan-manager             warn — identity's manager of record is missing or unresolvable (grace-exempt)\n"@
        + "  stale-auth                 warn — no successful authentication within the configured window (grace-exempt)\n"@
        + "  privileged-four-eyes       warn — privileged entitlement retained without two distinct approvers\n"@
        + "  quarantine                 warn — entitlement unmatched to HR by employee_id; never matched by email\n"@
}

/// Where a pack comes from and where it stands.
pub open spec fn heading(p: PackView, state: LockState) -> Seq<char> {
    "access-recert-spine evidence pack\n"@ + "  engine:       "@ + p.engine_id + " ("@
        + p.tool_version + ")\n"@ + "  spine:        "@ + p.spine_version + "\n"@
        + "  lock state:   "@ + spine::lock_name(state) + "\n"@ + "  inputs hash:  "@
        + p.inputs_hash + "\n"@ + "  params hash:  "@ + p.params_hash + "\n"@
        + "  body hash:    "@ + p.body_hash + "\n"@
}

/// The text on a pack.
pub open spec fn explanation(d: PackDocument) -> Seq<char> {
    let s = d.pack@.findings;
    heading(d.pack@, d.lock_state) + section(s, Queue::Revocation) + section(s, Queue::Quarantine)
        + section(s, Queue::Gated) + section(s, Queue::Open) + "\nSIGNOFFS RECORDED ("@
        + text::decimal(d.pack.signoffs.len() as nat) + ")\n"@ + text::all_written(
        ReceiptWriter {  },
        d.pack.signoffs@,
    ) + "\nRULE CATALOG\n"@ + catalog()
}

fn section_text(findings: &Vec<Finding>, queue: Queue) -> (r: String)
    ensures
        r@ == section(spine::findings_view(findings@), queue),
{
    let ghost all = spine::findings_view(findings@);
    let mut lines = String::new();
    let mut count: usize = 0;
    let mut i: usize = 0;
    while i < findings.len()
        invariant
            i <= findings.len(),
            all == spine::findings_view(findings@),
            count <= i,
            count == queued(all, queue, i as int),
            lines@ == queue_lines(all, queue, i as int),
        decreases findings.len() - i,
    {
        let f = &findings[i];
        assert(all[i as int] == f@);
        if queue.takes(f) {
            let mut line = String::from_str("  - ");
            line.append(f.subject.as_str());
            line.append(" [");
            line.append(f.rule_id.as_str());
            line.append("] ");
            line.append(f.message.as_str());
            line.append("\n");
            lines.append(line.as_str());
            count = count + 1;
        }
        i = i + 1;
    }
    let mut out = String::from_str("\n");
    out.append(queue.label());
    out.append(" (");
    out.append(text::count_text(count).as_str());
    out.append(")\n");
    if count == 0 {
        out.append("  (none)\n");
    } else {
        out.append(lines.as_str());
    }
    out
}

fn catalog_text() -> (r: String)
    ensures
        r@ == catalog(),
{
    let mut out = String::new();
    out.append(
        "  leaver-active-entitlement  breach — active entitlement for an identity separated before the campaign date\n",
    );
    out.append(
        "  orphan-system              breach — entitlement on a system with no managed-system record\n",
    );
    out.append(
        "  orphan-manager             warn — identity's manager of record is missing or unresolvable (grace-exempt)\n",
    );
    out.append(
        "  stale-auth                 warn — no successful authentication within the configured window (grace-exempt)\n",
    );
    out.append(
        "  privileged-four-eyes       warn — privileged entitlement retained without two distinct approvers\n",
    );
    out.append(
        "  quarantine                 warn — entitlement unmatched to HR by employee_id; never matched by email\n",
    );
    assert(out@ =~= catalog());
    out
}

fn heading_text(d: &PackDocument) -> (r: String)
    ensures
        r@ == heading(d.pack@, d.lock_state),
{
    let mut out = String::from_str("access-recert-spine evidence pack\n");
    out.append("  engine:       ");
    out.append(d.pack.engine_id.as_str());
    out.append(" (");
    out.append(d.pack.tool_version.as_str());
    out.append(")\n");
    out.append("  spine:        ");
    out.append(d.pack.spine_version.as_str());
    out.append("\n");
    out.append("  lock state:   ");
    out.append(spine::lock_label(d.lock_state));
    out.append("\n");
    out.append("  inputs hash:  ");
    out.append(d.pack.inputs_hash.as_str());
    out.append("\n");
    out.append("  params hash:  ");
    out.append(d.pack.params_hash.as_str());
    out.append("\n");
    out.append("  body hash:    ");
    out.append(d.pack.body_hash.as_str());
    out.append("\n");
    out
}

/// A pack in plain text. This is no check.
pub fn render_explain(document: &PackDocument) -> (r: String)
    ensures
        r@ == explanation(*document),
{
    let findings = &document.pack.findings;
    let mut out = heading_text(document);
    out.append(section_text(findings, Queue::Revocation).as_str());
    out.append(section_text(findings, Queue::Quarantine).as_str());
    out.append(section_text(findings, Queue::Gated).as_str());
    out.append(section_text(findings, Queue::Open).as_str());
    out.append("\nSIGNOFFS RECORDED (");
    out.append(text::count_text(document.pack.signoffs.len()).as_str());
    out.append(")\n");
    let mut receipts = String::new();
    text::write_all(&ReceiptWriter {  }, &document.pack.signoffs, &mut receipts);
    assert(receipts@ =~= text::all_written(ReceiptWriter {  }, document.pack.signoffs@));
    out.append(receipts.as_str());
    out.append("\nRULE CATALOG\n");
    out.append(catalog_text().as_str());
    out
}

} // verus!
