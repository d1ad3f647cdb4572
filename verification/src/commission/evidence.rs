//! Evidence documents for commission runs. What was read from each document
//! comes with its exact bytes, over which provenance is hashed.

use vstd::prelude::*;
use vstd::string::StringExecFns;

use crate::commission::bands;
use crate::commission::config;
use crate::commission::config::{ConfigError, ConfigRefusal, PlanConfig, PlanVersion};
use crate::commission::engine;
use crate::commission::engine::{EngineError, EngineFault, EngineOutput, OutputView};
use crate::commission::input;
use crate::commission::input::{InputError, InputRefusal, TransactionsFile, TxnView};
use crate::spine;
use crate::spine::{EvidencePack, LockError, LockState, PackView, Signoff, SignoffView, VerifyError};
use crate::text;

verus! {

/// Version recorded in every pack.
pub const TOOL_VERSION: &'static str = "0.1.0";

/// A pack with its lock state.
#[derive(Debug)]
pub struct EvidenceDocument {
    pub lock_state: LockState,
    pub pack: EvidencePack,
}

impl Clone for EvidenceDocument {
    fn clone(&self) -> (r: Self)
        ensures
            r.lock_state == self.lock_state,
            r.pack@ == self.pack@,
    {
        EvidenceDocument { lock_state: self.lock_state, pack: self.pack.clone() }
    }
}

/// Why nothing is computed.
#[derive(Debug, Clone, PartialEq, Eq)]
pub enum ComputeError {
    EmptyEngineId,
    PlanConfig(ConfigError),
    Transactions(InputError),
    PlanJson(String),
    TransactionsJson(String),
    Engine(EngineError),
}

/// What a [`ComputeError`] says.
pub enum ComputeRefusal {
    EmptyEngineId,
    PlanConfig(ConfigRefusal),
    Transactions(InputRefusal),
    PlanJson(Seq<char>),
    TransactionsJson(Seq<char>),
    Engine(EngineFault),
}

impl View for ComputeError {
    type V = ComputeRefusal;

    open spec fn view(&self) -> ComputeRefusal {
        match self {
            ComputeError::EmptyEngineId => ComputeRefusal::EmptyEngineId,
            ComputeError::PlanConfig(e) => ComputeRefusal::PlanConfig(e@),
            ComputeError::Transactions(e) => ComputeRefusal::Transactions(e@),
            ComputeError::PlanJson(e) => ComputeRefusal::PlanJson(e@),
            ComputeError::TransactionsJson(e) => ComputeRefusal::TransactionsJson(e@),
            ComputeError::Engine(e) => ComputeRefusal::Engine(e@),
        }
    }
}

pub open spec fn compute_text(e: ComputeRefusal) -> Seq<char> {
    match e {
        ComputeRefusal::EmptyEngineId => "engine id must be non-empty"@,
        ComputeRefusal::PlanConfig(e) => "plan config invalid: "@ + config::refusal_text(e),
        ComputeRefusal::Transactions(e) => "transactions input invalid: "@ + input::refusal_text(
            e,
        ),
        ComputeRefusal::PlanJson(e) => "plan config JSON: "@ + e,
        ComputeRefusal::TransactionsJson(e) => "transactions JSON: "@ + e,
        ComputeRefusal::Engine(e) => "engine: "@ + engine::fault_text(e),
    }
}

impl ComputeError {
    /// The error as a line of text.
    pub fn message(&self) -> (r: String)
        ensures
            r@ == compute_text(self@),
    {
        match self {
            ComputeError::EmptyEngineId => String::from_str("engine id must be non-empty"),
            ComputeError::PlanConfig(e) => {
                let mut out = String::from_str("plan config invalid: ");
                out.append(e.message().as_str());
                out
            },
            ComputeError::Transactions(e) => {
                let mut out = String::from_str("transactions input invalid: ");
                out.append(e.message().as_str());
                out
            },
            ComputeError::PlanJson(e) => {
                let mut out = String::from_str("plan config JSON: ");
                out.append(e.as_str());
                out
            },
            ComputeError::TransactionsJson(e) => {
                let mut out = String::from_str("transactions JSON: ");
                out.append(e.as_str());
                out
            },
            ComputeError::Engine(e) => {
                let mut out = String::from_str("engine: ");
                out.append(e.message().as_str());
                out
            },
        }
    }
}

/// Why a document is not evidence.
#[derive(Debug, Clone, PartialEq, Eq)]
pub enum VerifyFailure {
    FindingsDiverged,
    Refused(VerifyError),
    Recompute(ComputeError),
}

impl VerifyFailure {
    pub open spec fn text(&self) -> Seq<char> {
        match self {
            VerifyFailure::FindingsDiverged =>
                "recomputed findings diverge from the pack (nondeterminism or tampering)"@,
            VerifyFailure::Refused(e) => "spine verification refused: "@ + e.text(),
            VerifyFailure::Recompute(e) => "recompute during verify: "@ + compute_text(e@),
        }
    }

    /// The failure as a line of text.
    pub fn message(&self) -> (r: String)
        ensures
            r@ == self.text(),
    {
        match self {
            VerifyFailure::FindingsDiverged => String::from_str(
                "recomputed findings diverge from the pack (nondeterminism or tampering)",
            ),
            VerifyFailure::Refused(e) => {
                let mut out = String::from_str("spine verification refused: ");
                out.append(e.message().as_str());
                out
            },
            VerifyFailure::Recompute(e) => {
                let mut out = String::from_str("recompute during verify: ");
                out.append(e.message().as_str());
                out
            },
        }
    }
}

/// Why a receipt is not recorded.
#[derive(Debug, Clone, PartialEq, Eq)]
pub enum SignoffError {
    SignedIsImmutable,
    EmptyActor,
    EmptyRole,
    UnknownSubject(String),
    Lock(LockError),
}

impl From<LockError> for SignoffError {
    fn from(e: LockError) -> (r: SignoffError) {
        SignoffError::Lock(e)
    }
}

impl vstd::std_specs::convert::FromSpecImpl<LockError> for SignoffError {
    open spec fn obeys_from_spec() -> bool {
        true
    }

    open spec fn from_spec(e: LockError) -> SignoffError {
        SignoffError::Lock(e)
    }
}

impl SignoffError {
    pub open spec fn text(&self) -> Seq<char> {
        match self {
            SignoffError::SignedIsImmutable =>
                "signed packs are immutable; a correction is a new pack, never an edit"@,
            SignoffError::EmptyActor =>
                "signoff actor must be non-empty (anonymous receipts are void)"@,
            SignoffError::EmptyRole => "signoff role must be non-empty"@,
            SignoffError::UnknownSubject(s) => "signoff subject "@ + text::debug_text(s@)
                + " names no finding in this pack"@,
            SignoffError::Lock(e) => "lock: "@ + e.text(),
        }
    }

    /// The error as a line of text.
    pub fn message(&self) -> (r: String)
        ensures
            r@ == self.text(),
    {
        match self {
            SignoffError::SignedIsImmutable => String::from_str(
                "signed packs are immutable; a correction is a new pack, never an edit",
            ),
            SignoffError::EmptyActor => String::from_str(
                "signoff actor must be non-empty (anonymous receipts are void)",
            ),
            SignoffError::EmptyRole => String::from_str("signoff role must be non-empty"),
            SignoffError::UnknownSubject(s) => {
                let mut out = String::from_str("signoff subject ");
                out.append(text::debug_of(s.as_str()).as_str());
                out.append(" names no finding in this pack");
                out
            },
            SignoffError::Lock(e) => {
                let mut out = String::from_str("lock: ");
                out.append(e.message().as_str());
                out
            },
        }
    }
}

/// A plan that validates can be run.
pub proof fn valid_plans_are_runnable(p: PlanConfig)
    requires
        config::plan_error(p) is None,
    ensures
        engine::runnable(p.versions@),
{
    let vs = p.versions@;
    assert forall|i: int| 0 <= i < vs.len() implies bands::payable(#[trigger] vs[i])
        && engine::weights_positive(vs[i]) by {
        valid_place(vs, 0, i);
        let v = vs[i];
        assert forall|k: int| 0 <= k < v.bands.len() implies (#[trigger] v.bands@[k]).rate_bps
            <= config::BASIS_POINTS by {
            valid_band(v, 0, k);
        }
        assert forall|k: int| 0 <= k < v.role_weights.len() implies (
        #[trigger] v.role_weights@[k]).weight_bps > 0 by {
            valid_weight(v, 0, k);
        }
    }
}

proof fn valid_place(vs: Seq<PlanVersion>, from: int, i: int)
    requires
        0 <= from <= i < vs.len(),
        config::versions_error(vs, from) is None,
    ensures
        config::placed_error(vs, i) is None,
    decreases i - from,
{
    if from < i {
        valid_place(vs, from + 1, i);
    }
}

proof fn valid_band(v: PlanVersion, from: int, i: int)
    requires
        0 <= from <= i < v.bands.len(),
        config::bands_error(v, from) is None,
    ensures
        config::band_error(v, i) is None,
    decreases i - from,
{
    if from < i {
        valid_band(v, from + 1, i);
    }
}

proof fn valid_weight(v: PlanVersion, from: int, i: int)
    requires
        0 <= from <= i < v.role_weights.len(),
        config::weights_error(v, from) is None,
    ensures
        config::weight_error(v, i) is None,
    decreases i - from,
{
    if from < i {
        valid_weight(v, from + 1, i);
    }
}

/// A file that validates has positive amounts.
pub proof fn valid_amounts_are_positive(s: Seq<TxnView>, from: int, i: int)
    requires
        0 <= from <= i < s.len(),
        input::txns_error(s, from) is None,
    ensures
        s[i].amount_cents > 0,
    decreases i - from,
{
    if from < i {
        valid_amounts_are_positive(s, from + 1, i);
    }
}

/// What computing from what was read gives.
pub open spec fn recomputed(
    plan: Result<PlanConfig, String>,
    txns: Result<TransactionsFile, String>,
) -> Result<OutputView, ComputeRefusal> {
    match plan {
        Err(e) => Err(ComputeRefusal::PlanJson(e@)),
        Ok(p) => match config::plan_error(p) {
            Some(e) => Err(ComputeRefusal::PlanConfig(e)),
            None => match txns {
                Err(e) => Err(ComputeRefusal::TransactionsJson(e@)),
                Ok(t) => match input::file_error(t@) {
                    Some(e) => Err(ComputeRefusal::Transactions(e)),
                    None => match engine::outcome(p.versions@, t@) {
                        Err(e) => Err(ComputeRefusal::Engine(e)),
                        Ok(out) => Ok(out),
                    },
                },
            },
        },
    }
}

/// Whether the sums of every rep stay within range, where it comes to a run.
pub open spec fn read_sums_fit(
    plan: Result<PlanConfig, String>,
    txns: Result<TransactionsFile, String>,
) -> bool {
    match (plan, txns) {
        (Ok(p), Ok(t)) => config::plan_error(p) is None && input::file_error(t@) is None
            ==> engine::run_fits(p.versions@, t@),
        _ => true,
    }
}

proof fn valid_files_have_amounts(s: Seq<TxnView>)
    requires
        input::file_error(s) is None,
    ensures
        engine::amounts_kept(s),
{
    assert forall|i: int| 0 <= i < s.len() implies (#[trigger] s[i]).amount_cents >= 0 by {
        valid_amounts_are_positive(s, 0, i);
    }
}

/// Validate what was read and run the engine on it. None where a sum leaves
/// the range.
fn recompute(
    plan: &Result<PlanConfig, String>,
    txns: &Result<TransactionsFile, String>,
) -> (r: Option<Result<EngineOutput, ComputeError>>)
    ensures
        (match r {
            Some(Ok(out)) => read_sums_fit(*plan, *txns) && recomputed(*plan, *txns) == Ok::<
                OutputView,
                ComputeRefusal,
            >(out@),
            Some(Err(e)) => read_sums_fit(*plan, *txns) && recomputed(*plan, *txns) == Err::<
                OutputView,
                ComputeRefusal,
            >(e@),
            None => !read_sums_fit(*plan, *txns),
        }),
{
    let plan = match plan {
        Ok(p) => p,
        Err(e) => return Some(Err(ComputeError::PlanJson(e.clone()))),
    };
    match plan.validate() {
        Ok(_) => {},
        Err(e) => return Some(Err(ComputeError::PlanConfig(e))),
    }
    let txns = match txns {
        Ok(t) => t,
        Err(e) => return Some(Err(ComputeError::TransactionsJson(e.clone()))),
    };
    match txns.validate() {
        Ok(_) => {},
        Err(e) => return Some(Err(ComputeError::Transactions(e))),
    }
    proof {
        valid_plans_are_runnable(*plan);
        valid_files_have_amounts(txns@);
    }
    match engine::try_run(plan, txns) {
        Some(Ok(out)) => Some(Ok(out)),
        Some(Err(e)) => Some(Err(ComputeError::Engine(e))),
        None => None,
    }
}

/// The pack that a run gives.
pub open spec fn document_pack(
    plan: Result<PlanConfig, String>,
    txns: Result<TransactionsFile, String>,
    plan_bytes: Seq<u8>,
    txn_bytes: Seq<u8>,
    engine_id: Seq<char>,
) -> Result<PackView, ComputeRefusal> {
    if text::trimmed(engine_id).len() == 0 {
        Err(ComputeRefusal::EmptyEngineId)
    } else {
        match recomputed(plan, txns) {
            Err(e) => Err(e),
            Ok(out) => Ok(
                spine::sealed_view(
                    spine::pack_of(
                        text::trimmed(engine_id),
                        TOOL_VERSION@,
                        txn_bytes,
                        plan_bytes,
                        out.findings,
                        Seq::empty(),
                    ),
                ),
            ),
        }
    }
}

/// Compute a draft document, sealed at production, from what was read and
/// the exact bytes that it was read from. None where a sum leaves the range.
pub fn try_compute_document(
    plan: &Result<PlanConfig, String>,
    txns: &Result<TransactionsFile, String>,
    plan_bytes: &[u8],
    txn_bytes: &[u8],
    engine_id: &str,
) -> (r: Option<Result<EvidenceDocument, ComputeError>>)
    ensures
        (match r {
            Some(Ok(doc)) => {
                &&& document_pack(*plan, *txns, plan_bytes@, txn_bytes@, engine_id@) == Ok::<
                    PackView,
                    ComputeRefusal,
                >(doc.pack@)
                &&& doc.lock_state == LockState::Draft
            },
            Some(Err(e)) => document_pack(*plan, *txns, plan_bytes@, txn_bytes@, engine_id@)
                == Err::<PackView, ComputeRefusal>(e@),
            None => true,
        }),
        r is None <==> !text::is_blank(engine_id@) && !read_sums_fit(*plan, *txns),
{
    let id = text::trim(engine_id);
    if id.is_empty() {
        return Some(Err(ComputeError::EmptyEngineId));
    }
    let out = match recompute(plan, txns) {
        Some(Ok(out)) => out,
        Some(Err(e)) => return Some(Err(e)),
        None => return None,
    };
    let none: Vec<Signoff> = Vec::new();
    assert(spine::signoffs_view(none@) =~= Seq::<SignoffView>::empty());
    let pack = spine::new_pack(id, TOOL_VERSION, txn_bytes, plan_bytes, out.findings, none).sealed();
    Some(Ok(EvidenceDocument { lock_state: LockState::Draft, pack }))
}

/// Compute a draft document, sealed at production, from what was read and
/// the exact bytes that it was read from.
pub fn compute_document(
    plan: &Result<PlanConfig, String>,
    txns: &Result<TransactionsFile, String>,
    plan_bytes: &[u8],
    txn_bytes: &[u8],
    engine_id: &str,
) -> (r: Result<EvidenceDocument, ComputeError>)
    requires
        text::is_blank(engine_id@) || read_sums_fit(*plan, *txns),
    ensures
        (match r {
            Ok(doc) => document_pack(*plan, *txns, plan_bytes@, txn_bytes@, engine_id@) == Ok::<
                PackView,
                ComputeRefusal,
            >(doc.pack@) && doc.lock_state == LockState::Draft,
            Err(e) => document_pack(*plan, *txns, plan_bytes@, txn_bytes@, engine_id@) == Err::<
                PackView,
                ComputeRefusal,
            >(e@),
        }),
{
    match try_compute_document(plan, txns, plan_bytes, txn_bytes, engine_id) {
        Some(r) => r,
        None => Err(ComputeError::EmptyEngineId),
    }
}

/// What verification of a document answers.
pub open spec fn document_verdict(
    pack: PackView,
    plan: Result<PlanConfig, String>,
    txns: Result<TransactionsFile, String>,
    plan_bytes: Seq<u8>,
    txn_bytes: Seq<u8>,
    r: Result<(), VerifyFailure>,
) -> bool {
    match recomputed(plan, txns) {
        Err(e) => r matches Err(VerifyFailure::Recompute(x)) && x@ == e,
        Ok(out) => if out.findings != pack.findings {
            r == Err::<(), VerifyFailure>(VerifyFailure::FindingsDiverged)
        } else {
            match r {
                Ok(_) => spine::verdict(pack, txn_bytes, plan_bytes, Ok(())),
                Err(VerifyFailure::Refused(e)) => spine::verdict(pack, txn_bytes, plan_bytes, Err(e)),
                _ => false,
            }
        },
    }
}

/// Fail-closed verification: the engine must reproduce the findings from
/// what was read, then the pack is verified against the bytes. None where a
/// sum leaves the range.
pub fn try_verify_document(
    doc: &EvidenceDocument,
    plan: &Result<PlanConfig, String>,
    txns: &Result<TransactionsFile, String>,
    plan_bytes: &[u8],
    txn_bytes: &[u8],
) -> (r: Option<Result<(), VerifyFailure>>)
    ensures
        (match r {
            Some(answer) => {
                &&& read_sums_fit(*plan, *txns)
                &&& document_verdict(doc.pack@, *plan, *txns, plan_bytes@, txn_bytes@, answer)
                &&& answer is Ok <==> is_reproduced(doc.pack@, *plan, *txns, plan_bytes@, txn_bytes@)
            },
            None => !read_sums_fit(*plan, *txns),
        }),
{
    let out = match recompute(plan, txns) {
        Some(Ok(out)) => out,
        Some(Err(e)) => return Some(Err(VerifyFailure::Recompute(e))),
        None => return None,
    };
    if !spine::same_findings(&out.findings, &doc.pack.findings) {
        return Some(Err(VerifyFailure::FindingsDiverged));
    }
    match doc.pack.verify(txn_bytes, plan_bytes) {
        Ok(_) => Some(Ok(())),
        Err(e) => Some(Err(VerifyFailure::Refused(e))),
    }
}

/// Whether a run over what was read gives the findings of a pack that is
/// evidence of it.
pub open spec fn is_reproduced(
    pack: PackView,
    plan: Result<PlanConfig, String>,
    txns: Result<TransactionsFile, String>,
    plan_bytes: Seq<u8>,
    txn_bytes: Seq<u8>,
) -> bool {
    recomputed(plan, txns) matches Ok(out) && out.findings == pack.findings && spine::is_evidence(
        pack,
        txn_bytes,
        plan_bytes,
    )
}

/// Fail-closed verification: the engine must reproduce the findings from
/// what was read, then the pack is verified against the bytes.
pub fn verify_document(
    doc: &EvidenceDocument,
    plan: &Result<PlanConfig, String>,
    txns: &Result<TransactionsFile, String>,
    plan_bytes: &[u8],
    txn_bytes: &[u8],
) -> (r: Result<(), VerifyFailure>)
    requires
        read_sums_fit(*plan, *txns),
    ensures
        document_verdict(doc.pack@, *plan, *txns, plan_bytes@, txn_bytes@, r),
        r is Ok <==> is_reproduced(doc.pack@, *plan, *txns, plan_bytes@, txn_bytes@),
{
    match try_verify_document(doc, plan, txns, plan_bytes, txn_bytes) {
        Some(r) => r,
        None => Err(VerifyFailure::FindingsDiverged),
    }
}

/// Whether a finding of the pack has the subject.
pub open spec fn names_finding(p: PackView, subject: Seq<char>) -> bool {
    exists|i: int| 0 <= i < p.findings.len() && (#[trigger] p.findings[i]).subject == subject
}

/// A pack with one more receipt, sealed anew.
pub open spec fn with_receipt(p: PackView, s: SignoffView) -> PackView {
    spine::sealed_view(PackView { signoffs: p.signoffs.push(s), ..p })
}

fn names_subject(pack: &EvidencePack, subject: &String) -> (r: bool)
    ensures
        r == names_finding(pack@, subject@),
{
    let mut i: usize = 0;
    while i < pack.findings.len()
        invariant
            i <= pack.findings.len(),
            forall|k: int| 0 <= k < i ==> (#[trigger] pack@.findings[k]).subject != subject@,
        decreases pack.findings.len() - i,
    {
        assert(pack@.findings[i as int] == pack.findings@[i as int]@);
        if pack.findings[i].subject == *subject {
            return true;
        }
        i = i + 1;
    }
    false
}

/// Record a receipt on a document that is not signed, and seal it anew. A
/// first receipt submits a draft.
pub fn append_signoff(doc: &mut EvidenceDocument, signoff: Signoff) -> (r: Result<
    (),
    SignoffError,
>)
    ensures
        (if old(doc).lock_state == LockState::Signed {
            r == Err::<(), SignoffError>(SignoffError::SignedIsImmutable)
        } else if text::is_blank(signoff@.actor) {
            r == Err::<(), SignoffError>(SignoffError::EmptyActor)
        } else if text::is_blank(signoff@.role) {
            r == Err::<(), SignoffError>(SignoffError::EmptyRole)
        } else if !names_finding(old(doc).pack@, signoff@.subject) {
            r matches Err(SignoffError::UnknownSubject(s)) && s@ == signoff@.subject
        } else {
            r is Ok
        }),
        (match r {
            Ok(_) => final(doc).lock_state == LockState::AwaitingSignoff && final(doc).pack@
                == with_receipt(old(doc).pack@, signoff@),
            Err(_) => *final(doc) == *old(doc),
        }),
{
    if doc.lock_state == LockState::Signed {
        return Err(SignoffError::SignedIsImmutable);
    }
    if text::blank(signoff.actor.as_str()) {
        return Err(SignoffError::EmptyActor);
    }
    if text::blank(signoff.role.as_str()) {
        return Err(SignoffError::EmptyRole);
    }
    if !names_subject(&doc.pack, &signoff.subject) {
        return Err(SignoffError::UnknownSubject(signoff.subject));
    }
    let ghost was = doc.pack@;
    let ghost receipt = signoff@;
    doc.pack.signoffs.push(signoff);
    doc.lock_state = LockState::AwaitingSignoff;
    assert(doc.pack@ =~= (PackView { signoffs: was.signoffs.push(receipt), ..was })) by {
        assert(spine::signoffs_view(doc.pack.signoffs@) =~= was.signoffs.push(receipt));
    }
    let seal = doc.pack.seal();
    doc.pack.body_hash = seal;
    Ok(())
}

/// Advance the lock one step.
pub fn advance_lock(doc: &mut EvidenceDocument) -> (r: Result<LockState, LockError>)
    ensures
        spine::lock_step(old(doc).lock_state, old(doc).pack@, final(doc).pack@, r),
        final(doc).lock_state == (match r {
            Ok(next) => next,
            Err(_) => old(doc).lock_state,
        }),
{
    let current = doc.lock_state;
    match spine::advance_lock(current, &mut doc.pack) {
        Ok(next) => {
            doc.lock_state = next;
            Ok(next)
        },
        Err(e) => Err(e),
    }
}

} // verus!
