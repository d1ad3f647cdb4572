//! Evidence packs over an evaluated population.

use vstd::prelude::*;
use vstd::string::StringExecFns;

use crate::capa::TOOL_VERSION;
use crate::spine;
use crate::spine::{EvidencePack, Finding, FindingView, PackView, Signoff, SignoffView, VerifyError};

verus! {

/// The sealed pack of findings, sorted by subject and rule, without
/// receipts.
pub open spec fn sealed_pack(
    engine_id: Seq<char>,
    findings: Seq<FindingView>,
    inputs: Seq<u8>,
    params: Seq<u8>,
) -> PackView {
    spine::sealed_view(
        spine::pack_of(
            engine_id,
            TOOL_VERSION@,
            inputs,
            params,
            spine::by_subject(findings),
            Seq::empty(),
        ),
    )
}

/// Make a sealed pack of findings over the exact bytes of the population and
/// the tables. Findings are sorted by subject and rule. Receipts come later,
/// and with them a new seal.
pub fn build_pack(engine_id: &str, findings: Vec<Finding>, inputs: &[u8], params: &[u8]) -> (r:
    EvidencePack)
    ensures
        r@ == sealed_pack(engine_id@, spine::findings_view(findings@), inputs@, params@),
{
    let signoffs: Vec<Signoff> = Vec::new();
    assert(spine::signoffs_view(signoffs@) =~= Seq::<SignoffView>::empty());
    let sorted = spine::sort_findings(findings);
    spine::new_pack(engine_id, TOOL_VERSION, inputs, params, sorted, signoffs).sealed()
}

pub open spec fn refusal_text(e: VerifyError) -> Seq<char> {
    match e {
        VerifyError::HashMismatch { field } => "refused: presented "@ + field@
            + " bytes do not match the pack's recorded hash — fail-closed"@,
        VerifyError::BodyHashMismatch =>
            "refused: pack body altered after production (seal mismatch) — fail-closed"@,
        VerifyError::UnresolvedBreach { rule_id } => "refused: breach finding "@ + rule_id@
            + " lacks an approving signoff naming its subject — fail-closed"@,
        VerifyError::ForeignVersion =>
            "refused: pack was not produced under this spine version — fail-closed"@,
    }
}

/// What is told to one whose pack does not verify.
pub fn verify_error_message(err: &VerifyError) -> (r: String)
    ensures
        r@ == refusal_text(*err),
{
    match err {
        VerifyError::HashMismatch { field } => {
            let mut out = String::from_str("refused: presented ");
            out.append(field);
            out.append(" bytes do not match the pack's recorded hash — fail-closed");
            out
        },
        VerifyError::BodyHashMismatch => String::from_str(
            "refused: pack body altered after production (seal mismatch) — fail-closed",
        ),
        VerifyError::UnresolvedBreach { rule_id } => {
            let mut out = String::from_str("refused: breach finding ");
            out.append(rule_id.as_str());
            out.append(" lacks an approving signoff naming its subject — fail-closed");
            out
        },
        VerifyError::ForeignVersion => String::from_str(
            "refused: pack was not produced under this spine version — fail-closed",
        ),
    }
}

} // verus!
