//! Evidence packs over a campaign: assembly, the lock gate, and fail-closed
//! verification.

use vstd::prelude::*;
use vstd::string::StringExecFns;

use crate::access_recert::engine;
use crate::access_recert::engine::RULE_PRIVILEGED_FOUR_EYES;
use crate::access_recert::model::{CampaignInput, RecertConfig};
use crate::access_recert::{ENGINE_ID, TOOL_VERSION};
use crate::spine;
use crate::spine::{
    EvidencePack, Finding, FindingView, LockError, LockState, PackView, Signoff, SignoffView,
    VerifyError,
};
use crate::text;

verus! {

/// A pack with the state of its lock. Only a signed one is evidence.
#[derive(Debug)]
pub struct PackDocument {
    pub lock_state: LockState,
    pub pack: EvidencePack,
}

impl Clone for PackDocument {
    fn clone(&self) -> (r: Self)
        ensures
            r.lock_state == self.lock_state,
            r.pack@ == self.pack@,
    {
        PackDocument { lock_state: self.lock_state, pack: self.pack.clone() }
    }
}

/// Whether a finding asks for two approvers and does not have them.
pub open spec fn lacks_two(p: PackView, f: FindingView) -> bool {
    f.rule_id == RULE_PRIVILEGED_FOUR_EYES@ && !engine::approved_twice(
        p.engine_id,
        p.signoffs,
        f.subject,
    )
}

/// Whether nothing keeps a pack from being signed: every gated finding is
/// approved, and every four-eyes finding by two different humans.
pub open spec fn gate_open(p: PackView) -> bool {
    spine::all_resolved(p) && forall|i: int|
        0 <= i < p.findings.len() ==> !lacks_two(p, #[trigger] p.findings[i])
}

/// Whether `i` is the place of the finding that keeps a pack from being
/// signed: the first gated one without an approval, or else the first
/// four-eyes finding without two.
pub open spec fn is_block(p: PackView, i: int) -> bool {
    if spine::all_resolved(p) {
        &&& 0 <= i < p.findings.len()
        &&& lacks_two(p, p.findings[i])
        &&& forall|j: int| 0 <= j < i ==> !lacks_two(p, #[trigger] p.findings[j])
    } else {
        spine::is_first_unresolved(p, i)
    }
}

/// The place of the finding that keeps a pack from being signed.
fn first_unresolved_strict(pack: &EvidencePack) -> (r: Option<usize>)
    ensures
        (match r {
            Some(i) => i < pack.findings.len() && is_block(pack@, i as int) && !gate_open(pack@),
            None => gate_open(pack@),
        }),
{
    match spine::first_unresolved_index(pack) {
        Some(i) => {
            proof {
                assert(!spine::is_resolved(pack@, pack@.findings[i as int]));
            }
            return Some(i);
        },
        None => {},
    }
    let mut i: usize = 0;
    while i < pack.findings.len()
        invariant
            i <= pack.findings.len(),
            spine::all_resolved(pack@),
            forall|j: int| 0 <= j < i ==> !lacks_two(pack@, #[trigger] pack@.findings[j]),
        decreases pack.findings.len() - i,
    {
        let f = &pack.findings[i];
        assert(pack@.findings[i as int] == f@);
        if text::same_text(f.rule_id.as_str(), RULE_PRIVILEGED_FOUR_EYES)
            && !engine::approved_by_two(
            pack.engine_id.as_str(),
            &pack.signoffs,
            f.subject.as_str(),
        ) {
            assert(lacks_two(pack@, pack@.findings[i as int]));
            return Some(i);
        }
        i = i + 1;
    }
    None
}

/// The first finding that keeps a pack from being signed.
pub fn first_unresolved_finding_strict(pack: &EvidencePack) -> (r: Option<&Finding>)
    ensures
        (match r {
            Some(f) => !gate_open(pack@) && exists|i: int|
                #[trigger] is_block(pack@, i) && f@ == pack@.findings[i],
            None => gate_open(pack@),
        }),
{
    match first_unresolved_strict(pack) {
        Some(i) => {
            assert(is_block(pack@, i as int));
            assert(pack@.findings[i as int] == pack.findings@[i as int]@);
            Some(&pack.findings[i])
        },
        None => None,
    }
}

/// The pack of a campaign before its lock is advanced. Retention approvals
/// travel on it ahead of the receipts.
pub open spec fn fresh_pack(
    input: CampaignInput,
    config: RecertConfig,
    inputs: Seq<u8>,
    params: Seq<u8>,
    signoffs: Seq<SignoffView>,
) -> PackView {
    spine::pack_of(
        ENGINE_ID@,
        TOOL_VERSION@,
        inputs,
        params,
        engine::evaluated(input, config, ENGINE_ID@),
        spine::signoffs_view(input.retention_approvals@) + signoffs,
    )
}

/// Evaluate a campaign and make its pack over the exact bytes of the campaign
/// and the thresholds. The pack is signed and sealed where nothing blocks it;
/// otherwise it awaits receipts.
pub fn build_pack(
    input: &CampaignInput,
    config: &RecertConfig,
    inputs_bytes: &[u8],
    params_bytes: &[u8],
    signoffs: Vec<Signoff>,
) -> (r: Result<PackDocument, LockError>)
    ensures
        ({
            let fresh = fresh_pack(
                *input,
                *config,
                inputs_bytes@,
                params_bytes@,
                spine::signoffs_view(signoffs@),
            );
            &&& r matches Ok(d)
            &&& if gate_open(fresh) {
                d.lock_state == LockState::Signed && d.pack@ == spine::sealed_view(fresh)
            } else {
                d.lock_state == LockState::AwaitingSignoff && d.pack@ == fresh
            }
        }),
{
    let findings = engine::evaluate(input, config, ENGINE_ID);
    let mut receipts = spine::copy_signoffs(&input.retention_approvals);
    let ghost kept = receipts@;
    let mut more = signoffs;
    receipts.append(&mut more);
    assert(spine::signoffs_view(receipts@) =~= spine::signoffs_view(kept) + spine::signoffs_view(
        signoffs@,
    ));
    let mut pack = spine::new_pack(
        ENGINE_ID,
        TOOL_VERSION,
        inputs_bytes,
        params_bytes,
        findings,
        receipts,
    );
    let mut lock_state = match spine::advance_lock(LockState::Draft, &mut pack) {
        Ok(state) => state,
        Err(e) => return Err(e),
    };
    if first_unresolved_strict(&pack).is_none() {
        lock_state = match spine::advance_lock(lock_state, &mut pack) {
            Ok(state) => state,
            Err(e) => return Err(e),
        };
    }
    Ok(PackDocument { lock_state, pack })
}

/// Why a document is not evidence.
#[derive(Debug, Clone, PartialEq, Eq)]
pub enum PackVerificationError {
    /// It is not signed.
    NotSigned,
    /// The pack is refused on its own: its seal, its hashes, its receipts.
    Spine(VerifyError),
    /// Its findings are not those of the campaign.
    RecomputationMismatch,
    /// It claims to be signed, but a finding blocks it.
    UnresolvedGate { rule_id: String },
}

impl PackVerificationError {
    pub open spec fn text(&self) -> Seq<char> {
        match self {
            PackVerificationError::NotSigned =>
                "pack is not Signed — only signed packs are evidence (unresolved gated findings park at awaiting_signoff)"@,
            PackVerificationError::Spine(e) => e.text(),
            PackVerificationError::RecomputationMismatch =>
                "findings do not reproduce from inputs — pack body does not match engine output"@,
            PackVerificationError::UnresolvedGate { rule_id } => "finding "@ + rule_id@
                + " is unresolved under the lock gate — gated findings need covering signoffs and four-eyes findings need two distinct approvers"@,
        }
    }

    /// The error as a line of text.
    pub fn message(&self) -> (r: String)
        ensures
            r@ == self.text(),
    {
        match self {
            PackVerificationError::NotSigned => String::from_str(
                "pack is not Signed — only signed packs are evidence (unresolved gated findings park at awaiting_signoff)",
            ),
            PackVerificationError::Spine(e) => e.message(),
            PackVerificationError::RecomputationMismatch => String::from_str(
                "findings do not reproduce from inputs — pack body does not match engine output",
            ),
            PackVerificationError::UnresolvedGate { rule_id } => {
                let mut out = String::from_str("finding ");
                out.append(rule_id.as_str());
                out.append(
                    " is unresolved under the lock gate — gated findings need covering signoffs and four-eyes findings need two distinct approvers",
                );
                out
            },
        }
    }
}

/// Whether a document is evidence of a campaign.
pub open spec fn is_signed_evidence(
    d: PackDocument,
    input: CampaignInput,
    config: RecertConfig,
    inputs: Seq<u8>,
    params: Seq<u8>,
) -> bool {
    &&& d.lock_state == LockState::Signed
    &&& spine::is_evidence(d.pack@, inputs, params)
    &&& gate_open(d.pack@)
    &&& d.pack@.findings == engine::evaluated(input, config, d.pack@.engine_id)
}

/// What verification answers: the first doubt, in the order state, pack,
/// gate, findings.
pub open spec fn verification(
    d: PackDocument,
    input: CampaignInput,
    config: RecertConfig,
    inputs: Seq<u8>,
    params: Seq<u8>,
    r: Result<(), PackVerificationError>,
) -> bool {
    if d.lock_state != LockState::Signed {
        r == Err::<(), PackVerificationError>(PackVerificationError::NotSigned)
    } else if !spine::is_evidence(d.pack@, inputs, params) {
        r matches Err(PackVerificationError::Spine(e)) && spine::verdict(
            d.pack@,
            inputs,
            params,
            Err(e),
        )
    } else if !gate_open(d.pack@) {
        &&& r matches Err(PackVerificationError::UnresolvedGate { rule_id })
        &&& exists|i: int|
            #[trigger] is_block(d.pack@, i) && rule_id@ == d.pack@.findings[i].rule_id
    } else if d.pack@.findings != engine::evaluated(input, config, d.pack@.engine_id) {
        r == Err::<(), PackVerificationError>(PackVerificationError::RecomputationMismatch)
    } else {
        r == Ok::<(), PackVerificationError>(())
    }
}

/// Fail-closed verification of a document: the state of its lock, the pack on
/// its own, the approvals, and the findings, which are computed afresh.
pub fn verify_pack(
    document: &PackDocument,
    input: &CampaignInput,
    config: &RecertConfig,
    inputs_bytes: &[u8],
    params_bytes: &[u8],
) -> (r: Result<(), PackVerificationError>)
    ensures
        verification(*document, *input, *config, inputs_bytes@, params_bytes@, r),
        r is Ok <==> is_signed_evidence(
            *document,
            *input,
            *config,
            inputs_bytes@,
            params_bytes@,
        ),
{
    if document.lock_state != LockState::Signed {
        return Err(PackVerificationError::NotSigned);
    }
    match document.pack.verify(inputs_bytes, params_bytes) {
        Ok(()) => {},
        Err(e) => return Err(PackVerificationError::Spine(e)),
    }
    match first_unresolved_strict(&document.pack) {
        Some(i) => {
            assert(is_block(document.pack@, i as int));
            assert(document.pack@.findings[i as int] == document.pack.findings@[i as int]@);
            return Err(
                PackVerificationError::UnresolvedGate {
                    rule_id: document.pack.findings[i].rule_id.clone(),
                },
            );
        },
        None => {},
    }
    let again = engine::evaluate(input, config, document.pack.engine_id.as_str());
    if !spine::same_findings(&again, &document.pack.findings) {
        return Err(PackVerificationError::RecomputationMismatch);
    }
    Ok(())
}

} // verus!
