//! Evidence packs over an evaluated certificate, and the receipts on them.

use vstd::prelude::*;
use vstd::string::StringExecFns;

use crate::coi::cert::Certificate;
use crate::coi::config::RequirementsConfig;
use crate::coi::engine;
use crate::coi::engine::Evaluation;
use crate::coi::error::{CoiError, Refusal};
use crate::coi::{ENGINE_ID, TOOL_VERSION};
use crate::date::Date;
use crate::spine;
use crate::spine::{
    EvidencePack, FindingView, LockError, LockState, PackView, Severity, Signoff, SignoffDecision,
    SignoffView, VerifyError,
};
use crate::text;

verus! {

/// The unsealed pack of findings.
pub open spec fn fresh_pack(findings: Seq<FindingView>, inputs: Seq<u8>, params: Seq<u8>) -> PackView {
    spine::pack_of(ENGINE_ID@, TOOL_VERSION@, inputs, params, findings, Seq::empty())
}

/// Evaluate a certificate and make an unsealed pack of the findings. The
/// bytes are the canonical ones of the certificate and the matrix. The pack
/// verifies once it is signed. None where the certificate cannot be
/// evaluated.
pub fn try_build_pack(
    certificate: &Certificate,
    cfg: &RequirementsConfig,
    as_of: Date,
    inputs: &[u8],
    params: &[u8],
) -> (r: Option<(EvidencePack, Evaluation)>)
    ensures
        (match engine::evaluation_of(certificate@, *cfg, as_of.day()) {
            Some(e) => {
                &&& r matches Some(made)
                &&& made.0@ == fresh_pack(e.findings, inputs@, params@)
                &&& made.1@ == e
            },
            None => r is None,
        }),
{
    let evaluation = match engine::try_evaluate(certificate, cfg, as_of) {
        Some(e) => e,
        None => return None,
    };
    let signoffs: Vec<Signoff> = Vec::new();
    assert(spine::signoffs_view(signoffs@) =~= Seq::<SignoffView>::empty());
    let pack = spine::new_pack(
        ENGINE_ID,
        TOOL_VERSION,
        inputs,
        params,
        spine::copy_findings(&evaluation.findings),
        signoffs,
    );
    Some((pack, evaluation))
}

/// Evaluate a certificate and make an unsealed pack of the findings. The
/// bytes are the canonical ones of the certificate and the matrix. The pack
/// verifies once it is signed.
pub fn build_pack(
    certificate: &Certificate,
    cfg: &RequirementsConfig,
    as_of: Date,
    inputs: &[u8],
    params: &[u8],
) -> (r: (EvidencePack, Evaluation))
    requires
        engine::evaluation_of(certificate@, *cfg, as_of.day()) is Some,
    ensures
        engine::evaluation_of(certificate@, *cfg, as_of.day()) == Some(r.1@),
        r.0@ == fresh_pack(r.1@.findings, inputs@, params@),
{
    try_build_pack(certificate, cfg, as_of, inputs, params).unwrap()
}

pub open spec fn yes_no(b: bool) -> Seq<char> {
    if b {
        "yes"@
    } else {
        "no"@
    }
}

/// The line on an evaluation.
pub open spec fn summary_text(vendor: Seq<char>, e: engine::EvaluationView) -> Seq<char> {
    let n = e.findings.len() as int;
    "coi-spine: vendor "@ + vendor + " — "@ + text::decimal(
        spine::severity_count(e.findings, Severity::Breach, n) as nat,
    ) + " breach finding(s), "@ + text::decimal(
        spine::severity_count(e.findings, Severity::Warn, n) as nat,
    ) + " warning(s); lockout recommended: "@ + yes_no(e.lockout_recommended)
        + "; pack is unsealed and verifies only after signoff"@
}

/// The line that tells of an evaluation.
pub fn summary(vendor: &str, evaluation: &Evaluation) -> (r: String)
    ensures
        r@ == summary_text(vendor@, evaluation@),
{
    let mut out = String::from_str("coi-spine: vendor ");
    out.append(vendor);
    out.append(" — ");
    out.append(
        text::count_text(spine::count_findings(&evaluation.findings, Severity::Breach)).as_str(),
    );
    out.append(" breach finding(s), ");
    out.append(
        text::count_text(spine::count_findings(&evaluation.findings, Severity::Warn)).as_str(),
    );
    out.append(" warning(s); lockout recommended: ");
    out.append(if evaluation.lockout_recommended { "yes" } else { "no" });
    out.append("; pack is unsealed and verifies only after signoff");
    out
}

/// What was asked for of a receipt. Without an actor there is none.
#[derive(Debug, Clone, PartialEq, Eq)]
pub struct SignRequest {
    pub actor: Option<String>,
    pub role: Option<String>,
    pub subject: Option<String>,
    pub decision: SignoffDecision,
    pub at: Option<String>,
}

/// What came of a request. The pack is to be kept in each case.
#[derive(Debug, Clone, PartialEq, Eq)]
pub enum SignOutcome {
    /// Sealed.
    Signed,
    /// A rejection was recorded.
    Rejected,
    /// A gated finding on this rule has no approval yet.
    Unresolved { rule_id: String },
}

/// What is missing in a request for a receipt.
pub open spec fn request_error(q: SignRequest) -> Option<Seq<char>> {
    match q.actor {
        None => None,
        Some(actor) => if q.role is None {
            Some("--role is required with --actor"@)
        } else if q.subject is None {
            Some(
                "--subject is required with --actor: the receipt names the finding subject it covers"@,
            )
        } else if q.at is None {
            Some("--at is required with --actor (ISO-8601, caller-supplied)"@)
        } else if text::is_blank(actor@) {
            Some("--actor must not be blank"@)
        } else {
            None
        },
    }
}

/// The receipts of a complete request: one, or none without an actor.
pub open spec fn requested(q: SignRequest) -> Seq<SignoffView> {
    match q.actor {
        None => Seq::empty(),
        Some(actor) => seq![
            SignoffView {
                actor: text::trimmed(actor@),
                role: text::trimmed(q.role->0@),
                subject: text::trimmed(q.subject->0@),
                decision: q.decision,
                at: text::trimmed(q.at->0@),
            },
        ],
    }
}

/// A pack with more receipts.
pub open spec fn with_receipts(p: PackView, more: Seq<SignoffView>) -> PackView {
    PackView { signoffs: p.signoffs + more, ..p }
}

/// What a request to sign does.
pub open spec fn signing(
    before: PackView,
    q: SignRequest,
    after: PackView,
    r: Result<SignOutcome, CoiError>,
) -> bool {
    if before.body_hash.len() > 0 {
        &&& after == before
        &&& r matches Err(e)
        &&& e@ == Refusal::Refused(
            "pack is already sealed — signed packs are immutable; corrections require a new pack from corrected inputs"@,
        )
    } else {
        match request_error(q) {
            Some(m) => after == before && (r matches Err(e) && e@ == Refusal::Usage(m)),
            None => {
                let now = with_receipts(before, requested(q));
                if q.actor is Some && q.decision == SignoffDecision::Reject {
                    after == now && r == Ok::<SignOutcome, CoiError>(SignOutcome::Rejected)
                } else if spine::all_resolved(now) {
                    &&& after == spine::sealed_view(now)
                    &&& r == Ok::<SignOutcome, CoiError>(SignOutcome::Signed)
                } else {
                    &&& after == now
                    &&& r matches Ok(SignOutcome::Unresolved { rule_id })
                    &&& exists|i: int|
                        #[trigger] spine::is_first_unresolved(now, i) && rule_id@
                            == now.findings[i].rule_id
                }
            },
        }
    }
}

/// Put the receipt that was asked for on a pack, and sign the pack where
/// nothing stands in the way. A sealed pack is not touched.
pub fn sign(pack: &mut EvidencePack, request: SignRequest) -> (r: Result<SignOutcome, CoiError>)
    ensures
        signing(old(pack)@, request, final(pack)@, r),
        r == Ok::<SignOutcome, CoiError>(SignOutcome::Signed) ==> final(pack)@.body_hash.len() > 0,
{
    let ghost before = pack@;
    if !pack.body_hash.as_str().is_empty() {
        return Err(
            CoiError::Refused(
                String::from_str(
                    "pack is already sealed — signed packs are immutable; corrections require a new pack from corrected inputs",
                ),
            ),
        );
    }
    let rejecting = request.actor.is_some() && request.decision == SignoffDecision::Reject;
    match request.actor {
        None => {
            assert(pack@ =~= with_receipts(before, requested(request)));
        },
        Some(actor) => {
            let role = match request.role {
                Some(s) => s,
                None => return Err(
                    CoiError::Usage(String::from_str("--role is required with --actor")),
                ),
            };
            let subject = match request.subject {
                Some(s) => s,
                None => return Err(
                    CoiError::Usage(
                        String::from_str(
                            "--subject is required with --actor: the receipt names the finding subject it covers",
                        ),
                    ),
                ),
            };
            let at = match request.at {
                Some(s) => s,
                None => return Err(
                    CoiError::Usage(
                        String::from_str("--at is required with --actor (ISO-8601, caller-supplied)"),
                    ),
                ),
            };
            if text::blank(actor.as_str()) {
                return Err(CoiError::Usage(String::from_str("--actor must not be blank")));
            }
            let ghost was = pack.signoffs@;
            let receipt = Signoff {
                actor: String::from_str(text::trim(actor.as_str())),
                role: String::from_str(text::trim(role.as_str())),
                subject: String::from_str(text::trim(subject.as_str())),
                decision: request.decision,
                at: String::from_str(text::trim(at.as_str())),
            };
            pack.signoffs.push(receipt);
            proof {
                assert(spine::signoffs_view(pack.signoffs@) =~= spine::signoffs_view(was)
                    + requested(request));
                assert(pack@ =~= with_receipts(before, requested(request)));
            }
        },
    }
    if rejecting {
        return Ok(SignOutcome::Rejected);
    }
    match spine::advance_lock(LockState::Draft, pack) {
        Ok(state) => {
            match spine::advance_lock(state, pack) {
                Ok(_) => Ok(SignOutcome::Signed),
                Err(LockError::UnresolvedBreach { rule_id }) => {
                    Ok(SignOutcome::Unresolved { rule_id })
                },
                Err(e) => {
                    let mut m = String::from_str("lock: ");
                    m.append(e.message().as_str());
                    Err(CoiError::Refused(m))
                },
            }
        },
        Err(e) => {
            let mut m = String::from_str("lock: ");
            m.append(e.message().as_str());
            Err(CoiError::Refused(m))
        },
    }
}

impl SignOutcome {
    /// The exit code that answers the outcome.
    pub fn exit_code(&self) -> (r: i32)
        ensures
            r == (if self is Signed {
                0int
            } else {
                1
            }),
    {
        match self {
            SignOutcome::Signed => 0,
            _ => 1,
        }
    }

    /// What is told of the outcome, given the seal that the pack now carries.
    pub open spec fn text(&self, seal: Seq<char>) -> Seq<char> {
        match self {
            SignOutcome::Signed => "coi-spine: pack signed and sealed (body hash "@ + seal + ")"@,
            SignOutcome::Rejected =>
                "coi-spine: rejection receipt recorded; pack remains unsealed — corrections require a new pack from corrected inputs"@,
            SignOutcome::Unresolved { rule_id } =>
                "coi-spine: pack NOT signed — unresolved finding on rule "@ + rule_id@
                + "; a subject-scoped approval or corrected inputs is required"@,
        }
    }

    /// What is told of the outcome, given the seal that the pack now carries.
    pub fn message(&self, seal: &str) -> (r: String)
        ensures
            r@ == self.text(seal@),
    {
        match self {
            SignOutcome::Signed => {
                let mut out = String::from_str("coi-spine: pack signed and sealed (body hash ");
                out.append(seal);
                out.append(")");
                out
            },
            SignOutcome::Rejected => String::from_str(
                "coi-spine: rejection receipt recorded; pack remains unsealed — corrections require a new pack from corrected inputs",
            ),
            SignOutcome::Unresolved { rule_id } => {
                let mut out = String::from_str(
                    "coi-spine: pack NOT signed — unresolved finding on rule ",
                );
                out.append(rule_id.as_str());
                out.append("; a subject-scoped approval or corrected inputs is required");
                out
            },
        }
    }
}

/// What is told of a verification of a pack with `n` findings.
pub open spec fn verification_text(v: Result<(), VerifyError>, n: nat) -> Seq<char> {
    match v {
        Ok(()) =>
            "coi-spine: pack verifies — seal, provenance hashes, and signoff coverage all hold ("@
            + text::decimal(n) + " finding(s))"@,
        Err(e) => "coi-spine: REFUSED — "@ + e.text(),
    }
}

/// What is told of a verification of a pack with `n` findings.
pub fn verification_message(v: &Result<(), VerifyError>, n: usize) -> (r: String)
    ensures
        r@ == verification_text(*v, n as nat),
{
    match v {
        Ok(()) => {
            let mut out = String::from_str(
                "coi-spine: pack verifies — seal, provenance hashes, and signoff coverage all hold (",
            );
            out.append(text::count_text(n).as_str());
            out.append(" finding(s))");
            out
        },
        Err(e) => {
            let mut out = String::from_str("coi-spine: REFUSED — ");
            out.append(e.message().as_str());
            out
        },
    }
}

} // verus!
