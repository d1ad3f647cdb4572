//! Evidence packs over covenant tests, and what they need before their seal.
//! Accepting a breach is a privileged action: it needs two different
//! signers.

use vstd::prelude::*;
use vstd::string::StringExecFns;

use crate::covenant::engine::Evaluation;
use crate::covenant::{ENGINE_ID, TOOL_VERSION};
use crate::spine;
use crate::spine::{
    EvidencePack, FindingView, LockError, LockState, PackView, Severity, Signoff, SignoffView,
};
use crate::text;

verus! {

/// A pack with the state of its lock.
#[derive(Debug, Clone)]
pub struct PackEnvelope {
    pub lock_state: LockState,
    pub pack: EvidencePack,
}

/// What a [`PackEnvelope`] says.
#[verifier::ext_equal]
pub struct EnvelopeView {
    pub lock_state: LockState,
    pub pack: PackView,
}

impl View for PackEnvelope {
    type V = EnvelopeView;

    open spec fn view(&self) -> EnvelopeView {
        EnvelopeView { lock_state: self.lock_state, pack: self.pack@ }
    }
}

/// The unsealed pack of an evaluation.
pub open spec fn fresh_pack(params: Seq<u8>, inputs: Seq<u8>, findings: Seq<FindingView>) -> PackView {
    spine::pack_of(ENGINE_ID@, TOOL_VERSION@, inputs, params, findings, Seq::empty())
}

/// Make an unsealed pack of an evaluation. The bytes are the canonical ones
/// of the configuration and the financials.
pub fn build_pack(params_bytes: &[u8], inputs_bytes: &[u8], evaluation: &Evaluation) -> (r:
    EvidencePack)
    ensures
        r@ == fresh_pack(params_bytes@, inputs_bytes@, evaluation@.findings),
{
    let signoffs: Vec<Signoff> = Vec::new();
    assert(spine::signoffs_view(signoffs@) =~= Seq::<SignoffView>::empty());
    spine::new_pack(
        ENGINE_ID,
        TOOL_VERSION,
        inputs_bytes,
        params_bytes,
        spine::copy_findings(&evaluation.findings),
        signoffs,
    )
}

/// Make a pack of an evaluation and submit it.
pub fn compute_envelope(params_bytes: &[u8], inputs_bytes: &[u8], evaluation: &Evaluation) -> (r:
    PackEnvelope)
    ensures
        r@ == (EnvelopeView {
            lock_state: LockState::AwaitingSignoff,
            pack: fresh_pack(params_bytes@, inputs_bytes@, evaluation@.findings),
        }),
{
    let mut pack = build_pack(params_bytes, inputs_bytes, evaluation);
    let lock_state = match spine::advance_lock(LockState::Draft, &mut pack) {
        Ok(state) => state,
        Err(_) => LockState::Draft,
    };
    PackEnvelope { lock_state, pack }
}

/// Why a pack still awaits receipts.
#[derive(Debug, Clone, PartialEq, Eq)]
pub enum AwaitingReason {
    UnresolvedFinding { rule_id: String },
    FourEyesRequired,
}

impl AwaitingReason {
    pub open spec fn text(&self) -> Seq<char> {
        match self {
            AwaitingReason::UnresolvedFinding { rule_id } => "finding on rule "@ + rule_id@
                + " needs an approving receipt naming its subject"@,
            AwaitingReason::FourEyesRequired =>
                "breach acceptance is a privileged action: approvals from two distinct signers are required (four-eyes)"@,
        }
    }

    /// The reason as a line of text.
    pub fn message(&self) -> (r: String)
        ensures
            r@ == self.text(),
    {
        match self {
            AwaitingReason::UnresolvedFinding { rule_id } => {
                let mut out = String::from_str("finding on rule ");
                out.append(rule_id.as_str());
                out.append(" needs an approving receipt naming its subject");
                out
            },
            AwaitingReason::FourEyesRequired => String::from_str(
                "breach acceptance is a privileged action: approvals from two distinct signers are required (four-eyes)",
            ),
        }
    }
}

/// What an attempt to seal comes to.
#[derive(Debug, Clone, PartialEq, Eq)]
pub enum SealOutcome {
    Signed,
    Awaiting(AwaitingReason),
}

/// Why a pack cannot be sealed.
#[derive(Debug, Clone, PartialEq, Eq)]
pub enum SealError {
    AlreadySigned,
    Lock(LockError),
}

impl SealError {
    pub open spec fn text(&self) -> Seq<char> {
        match self {
            SealError::AlreadySigned => "pack is already signed; signed packs are immutable"@,
            SealError::Lock(e) => "lock error: "@ + e.text(),
        }
    }

    /// The error as a line of text.
    pub fn message(&self) -> (r: String)
        ensures
            r@ == self.text(),
    {
        match self {
            SealError::AlreadySigned => String::from_str(
                "pack is already signed; signed packs are immutable",
            ),
            SealError::Lock(e) => {
                let mut out = String::from_str("lock error: ");
                out.append(e.message().as_str());
                out
            },
        }
    }
}

pub open spec fn has_breach(findings: Seq<FindingView>) -> bool {
    exists|i: int| 0 <= i < findings.len() && (#[trigger] findings[i]).severity == Severity::Breach
}

/// The receipts that are not the engine's own.
pub open spec fn human_receipts(s: Seq<SignoffView>) -> Seq<SignoffView> {
    s.filter(|x: SignoffView| !text::same_ignoring_case(text::trimmed(x.actor), ENGINE_ID@))
}

/// Whether nothing stands between a pack and its seal: every gated finding
/// is approved, and a breach has two different human signers.
pub open spec fn is_sealable(p: PackView) -> bool {
    spine::all_resolved(p) && (has_breach(p.findings) ==> spine::four_eyes(
        human_receipts(p.signoffs),
    ))
}

/// What an attempt to seal does.
pub open spec fn sealing(
    before: EnvelopeView,
    after: EnvelopeView,
    r: Result<SealOutcome, SealError>,
) -> bool {
    if before.lock_state == LockState::Signed {
        after == before && r == Err::<SealOutcome, SealError>(SealError::AlreadySigned)
    } else if is_sealable(before.pack) {
        &&& after == (EnvelopeView {
            lock_state: LockState::Signed,
            pack: spine::sealed_view(before.pack),
        })
        &&& r == Ok::<SealOutcome, SealError>(SealOutcome::Signed)
    } else {
        &&& after == (EnvelopeView { lock_state: LockState::AwaitingSignoff, pack: before.pack })
        &&& if spine::all_resolved(before.pack) {
            r == Ok::<SealOutcome, SealError>(
                SealOutcome::Awaiting(AwaitingReason::FourEyesRequired),
            )
        } else {
            &&& r matches Ok(SealOutcome::Awaiting(AwaitingReason::UnresolvedFinding { rule_id }))
            &&& exists|i: int|
                #[trigger] spine::is_first_unresolved(before.pack, i) && rule_id@
                    == before.pack.findings[i].rule_id
        }
    }
}

fn breached(pack: &EvidencePack) -> (r: bool)
    ensures
        r == has_breach(pack@.findings),
{
    let ghost all = pack@.findings;
    let mut i: usize = 0;
    while i < pack.findings.len()
        invariant
            i <= pack.findings.len(),
            all == pack@.findings,
            forall|k: int| 0 <= k < i ==> (#[trigger] all[k]).severity != Severity::Breach,
        decreases pack.findings.len() - i,
    {
        assert(all[i as int] == pack.findings@[i as int]@);
        if pack.findings[i].severity == Severity::Breach {
            return true;
        }
        i = i + 1;
    }
    false
}

fn two_humans(signoffs: &Vec<Signoff>) -> (r: bool)
    ensures
        r == spine::four_eyes(human_receipts(spine::signoffs_view(signoffs@))),
{
    let ghost all = spine::signoffs_view(signoffs@);
    let ghost human = |x: SignoffView|
        !text::same_ignoring_case(text::trimmed(x.actor), ENGINE_ID@);
    let mut kept: Vec<Signoff> = Vec::new();
    let mut i: usize = 0;
    proof {
        reveal(Seq::filter);
        assert(all.take(0).filter(human) =~= Seq::<SignoffView>::empty());
        assert(spine::signoffs_view(kept@) =~= Seq::<SignoffView>::empty());
    }
    while i < signoffs.len()
        invariant
            i <= signoffs.len(),
            all == spine::signoffs_view(signoffs@),
            human == (|x: SignoffView|
                !text::same_ignoring_case(text::trimmed(x.actor), ENGINE_ID@)),
            spine::signoffs_view(kept@) == all.take(i as int).filter(human),
        decreases signoffs.len() - i,
    {
        let s = &signoffs[i];
        proof {
            reveal(Seq::filter);
            assert(all.take(i + 1).drop_last() =~= all.take(i as int));
            assert(all.take(i + 1).last() == s@);
        }
        if !text::eq_ignoring_case(text::trim(s.actor.as_str()), ENGINE_ID) {
            let ghost was = kept@;
            kept.push(s.clone());
            assert(spine::signoffs_view(kept@) =~= spine::signoffs_view(was).push(s@));
        }
        i = i + 1;
    }
    assert(all.take(i as int) =~= all);
    spine::four_eyes_satisfied(&kept)
}

/// Try to seal a pack. A pack without breaches needs no receipts; a breach
/// needs an approval of its subject and two different human signers.
pub fn attempt_seal(envelope: &mut PackEnvelope) -> (r: Result<SealOutcome, SealError>)
    ensures
        sealing(old(envelope)@, final(envelope)@, r),
{
    match envelope.lock_state {
        LockState::Signed => return Err(SealError::AlreadySigned),
        LockState::Draft => {
            match spine::advance_lock(LockState::Draft, &mut envelope.pack) {
                Ok(state) => {
                    envelope.lock_state = state;
                },
                Err(e) => return Err(SealError::Lock(e)),
            }
        },
        LockState::AwaitingSignoff => {},
    }
    match spine::first_unresolved_index(&envelope.pack) {
        Some(i) => {
            proof {
                let p = envelope.pack@;
                assert(spine::is_first_unresolved(p, i as int));
                assert(!spine::is_resolved(p, p.findings[i as int]));
                assert(p.findings[i as int] == envelope.pack.findings@[i as int]@);
            }
            return Ok(
                SealOutcome::Awaiting(
                    AwaitingReason::UnresolvedFinding {
                        rule_id: envelope.pack.findings[i].rule_id.clone(),
                    },
                ),
            );
        },
        None => {},
    }
    if breached(&envelope.pack) && !two_humans(&envelope.pack.signoffs) {
        return Ok(SealOutcome::Awaiting(AwaitingReason::FourEyesRequired));
    }
    match spine::advance_lock(LockState::AwaitingSignoff, &mut envelope.pack) {
        Ok(state) => {
            envelope.lock_state = state;
            Ok(SealOutcome::Signed)
        },
        Err(e) => Err(SealError::Lock(e)),
    }
}

/// Why a receipt is not recorded.
#[derive(Debug, Clone, PartialEq, Eq)]
pub enum SignRefusal {
    EmptyField,
    AlreadySigned,
}

impl SignRefusal {
    pub open spec fn text(&self) -> Seq<char> {
        match self {
            SignRefusal::EmptyField => "actor, role, subject, and at must be non-empty"@,
            SignRefusal::AlreadySigned =>
                "pack is already signed; signed packs are immutable — compute a fresh pack instead"@,
        }
    }

    /// The refusal as a line of text.
    pub fn message(&self) -> (r: String)
        ensures
            r@ == self.text(),
    {
        match self {
            SignRefusal::EmptyField => String::from_str(
                "actor, role, subject, and at must be non-empty",
            ),
            SignRefusal::AlreadySigned => String::from_str(
                "pack is already signed; signed packs are immutable — compute a fresh pack instead",
            ),
        }
    }
}

/// Whether a receipt names an actor, a role, a subject, and a time.
pub open spec fn is_filled(s: SignoffView) -> bool {
    !text::is_blank(s.actor) && !text::is_blank(s.role) && !text::is_blank(s.subject)
        && !text::is_blank(s.at)
}

/// An envelope with one more receipt.
pub open spec fn with_receipt(e: EnvelopeView, s: SignoffView) -> EnvelopeView {
    EnvelopeView { pack: PackView { signoffs: e.pack.signoffs.push(s), ..e.pack }, ..e }
}

/// Record a receipt and try to seal the pack.
pub fn sign(envelope: &mut PackEnvelope, receipt: Signoff) -> (r: Result<SealOutcome, SignRefusal>)
    ensures
        (if !is_filled(receipt@) {
            &&& final(envelope)@ == old(envelope)@
            &&& r == Err::<SealOutcome, SignRefusal>(SignRefusal::EmptyField)
        } else if old(envelope)@.lock_state == LockState::Signed {
            &&& final(envelope)@ == old(envelope)@
            &&& r == Err::<SealOutcome, SignRefusal>(SignRefusal::AlreadySigned)
        } else {
            &&& r matches Ok(outcome)
            &&& sealing(with_receipt(old(envelope)@, receipt@), final(envelope)@, Ok(outcome))
        }),
{
    if text::blank(receipt.actor.as_str()) || text::blank(receipt.role.as_str()) || text::blank(
        receipt.subject.as_str(),
    ) || text::blank(receipt.at.as_str()) {
        return Err(SignRefusal::EmptyField);
    }
    if envelope.lock_state == LockState::Signed {
        return Err(SignRefusal::AlreadySigned);
    }
    let ghost before = envelope@;
    let ghost was = envelope.pack.signoffs@;
    envelope.pack.signoffs.push(receipt);
    proof {
        assert(spine::signoffs_view(envelope.pack.signoffs@) =~= spine::signoffs_view(was).push(
            receipt@,
        ));
        assert(envelope@ == with_receipt(before, receipt@));
    }
    match attempt_seal(envelope) {
        Ok(outcome) => Ok(outcome),
        Err(_) => Err(SignRefusal::AlreadySigned),
    }
}

/// What serde_json gives back of a document that it reads and writes again
/// as a plain value, or what it says of a text that is no document.
pub uninterp spec fn rewritten(bytes: Seq<u8>) -> Result<Seq<u8>, Seq<char>>;

/// serde_json's `from_slice` into a `Value` and `to_vec` of it. A `Value`
/// keeps the keys of an object in ascending order and `to_vec` writes no
/// white space between tokens, so documents that differ in neither values
/// nor keys give the same bytes; how numbers and escapes are written is left
/// to the name. The error is given by its text.
#[verifier::external_body]
fn rewrite(bytes: &[u8]) -> (r: Result<Vec<u8>, String>)
    ensures
        (match r {
            Ok(v) => rewritten(bytes@) == Ok::<Seq<u8>, Seq<char>>(v@),
            Err(e) => rewritten(bytes@) == Err::<Seq<u8>, Seq<char>>(e@),
        }),
{
    let value: Result<serde_json::Value, serde_json::Error> = serde_json::from_slice(bytes);
    value.and_then(|v| serde_json::to_vec(&v)).map_err(|e| e.to_string())
}

/// A text that is no JSON document.
#[derive(Debug, Clone, PartialEq, Eq)]
pub struct JsonError {
    pub message: String,
}

/// The canonical bytes of a JSON document: keys in ascending order, no white
/// space between tokens.
pub fn canonical_json(bytes: &[u8]) -> (r: Result<Vec<u8>, JsonError>)
    ensures
        (match r {
            Ok(v) => rewritten(bytes@) == Ok::<Seq<u8>, Seq<char>>(v@),
            Err(e) => rewritten(bytes@) == Err::<Seq<u8>, Seq<char>>(e.message@),
        }),
{
    match rewrite(bytes) {
        Ok(v) => Ok(v),
        Err(message) => Err(JsonError { message }),
    }
}

} // verus!
