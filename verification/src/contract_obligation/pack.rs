//! Evidence packs over a register, and their verification. Correcting the
//! register is a privileged action: a pack over a corrected register needs
//! two different signers for each corrected obligation.

use vstd::prelude::*;
use vstd::string::StringExecFns;

use crate::contract_obligation::model::{ObligationRecord, RegisterInputs};
use crate::spine;
use crate::spine::{
    EvidencePack, Finding, LockState, PackView, Signoff, SignoffDecision, SignoffView, VerifyError,
};
use crate::text;

verus! {

/// The engine's name on its packs. An approval by an actor of this name is
/// void.
pub const ENGINE_ID: &'static str = "contract-obligation-spine";

/// The engine's version.
pub const TOOL_VERSION: &'static str = "0.1.0";

/// Make an unsealed pack of the findings. `inputs` and `params` are the
/// canonical bytes of the register and the policy.
pub fn build_pack(
    findings: Vec<Finding>,
    inputs: &[u8],
    params: &[u8],
    signoffs: Vec<Signoff>,
) -> (r: EvidencePack)
    ensures
        r@ == spine::pack_of(
            ENGINE_ID@,
            TOOL_VERSION@,
            inputs@,
            params@,
            spine::findings_view(findings@),
            spine::signoffs_view(signoffs@),
        ),
{
    spine::new_pack(ENGINE_ID, TOOL_VERSION, inputs, params, findings, signoffs)
}

/// Submit a pack, and sign it where every gated finding is approved. Either
/// way the pack is sealed.
pub fn finalize_lock(pack: EvidencePack) -> (r: (EvidencePack, LockState))
    ensures
        r.0@ == spine::sealed_view(pack@),
        r.1 == (if spine::all_resolved(pack@) {
            LockState::Signed
        } else {
            LockState::AwaitingSignoff
        }),
{
    let ghost start = pack@;
    let mut pack = pack;
    match spine::advance_lock(LockState::Draft, &mut pack) {
        Ok(_) => {},
        Err(_) => {},
    }
    assert(pack@ == start);
    if spine::first_unresolved_finding(&pack).is_none() {
        match spine::advance_lock(LockState::AwaitingSignoff, &mut pack) {
            Ok(signed) => return (pack, signed),
            Err(_) => {},
        }
    }
    proof {
        if spine::all_resolved(start) {
            assert(forall|i: int| !#[trigger] spine::is_first_unresolved(start, i));
        }
    }
    (pack.sealed(), LockState::AwaitingSignoff)
}

/// The ids of the first `n` records that correct another.
pub open spec fn corrected(s: Seq<ObligationRecord>, n: int) -> Seq<Seq<char>>
    decreases n,
{
    if n <= 0 {
        Seq::empty()
    } else if s[n - 1].supersedes is Some {
        corrected(s, n - 1).push(s[n - 1].id@)
    } else {
        corrected(s, n - 1)
    }
}

/// The corrected obligations, each once, in ascending order.
pub open spec fn corrected_ids(s: Seq<ObligationRecord>) -> Seq<Seq<char>> {
    text::ascending(corrected(s, s.len() as int))
}

/// The ids of the corrected obligations, each once, in ascending order.
pub fn corrected_obligation_ids(inputs: &RegisterInputs) -> (r: Vec<String>)
    ensures
        text::texts(r@) == corrected_ids(inputs.obligations@),
{
    let s = &inputs.obligations;
    let mut ids: Vec<String> = Vec::new();
    let mut i: usize = 0;
    assert(text::texts(ids@) =~= Seq::<Seq<char>>::empty());
    while i < s.len()
        invariant
            i <= s.len(),
            text::texts(ids@) == corrected(s@, i as int),
        decreases s.len() - i,
    {
        if s[i].supersedes.is_some() {
            let ghost was = ids@;
            ids.push(s[i].id.clone());
            assert(text::texts(ids@) =~= text::texts(was).push(s@[i as int].id@));
        }
        i = i + 1;
    }
    text::sorted_unique(ids)
}

/// Why a pack is not evidence.
#[derive(Debug, Clone, PartialEq, Eq)]
pub enum VerifyFailure {
    Spine(VerifyError),
    FourEyes { obligation_id: String },
}

impl VerifyFailure {
    pub open spec fn text(&self) -> Seq<char> {
        match self {
            VerifyFailure::Spine(e) => e.text(),
            VerifyFailure::FourEyes { obligation_id } =>
                "four-eyes not satisfied for corrected obligation "@ + obligation_id@
                + ": two distinct approving signers required"@,
        }
    }

    /// The failure as a line of text.
    pub fn message(&self) -> (r: String)
        ensures
            r@ == self.text(),
    {
        match self {
            VerifyFailure::Spine(e) => e.message(),
            VerifyFailure::FourEyes { obligation_id } => {
                let mut out = String::from_str("four-eyes not satisfied for corrected obligation ");
                out.append(obligation_id.as_str());
                out.append(": two distinct approving signers required");
                out
            },
        }
    }
}

/// Whether a receipt counts toward the two signers of a correction.
pub open spec fn countersigns(s: SignoffView, id: Seq<char>) -> bool {
    &&& s.decision == SignoffDecision::Approve
    &&& s.subject == id
    &&& !text::same_ignoring_case(text::trimmed(s.actor), ENGINE_ID@)
}

/// Whether two different signers stand behind the correction of `id`.
pub open spec fn is_countersigned(signoffs: Seq<SignoffView>, id: Seq<char>) -> bool {
    spine::four_eyes(signoffs.filter(|s: SignoffView| countersigns(s, id)))
}

/// The first corrected obligation, from place `i` on, without two signers.
pub open spec fn first_open(signoffs: Seq<SignoffView>, ids: Seq<Seq<char>>, i: int) -> Option<
    Seq<char>,
>
    decreases ids.len() - i,
{
    if 0 <= i < ids.len() {
        if is_countersigned(signoffs, ids[i]) {
            first_open(signoffs, ids, i + 1)
        } else {
            Some(ids[i])
        }
    } else {
        None
    }
}

/// What verification against a register answers: the kernel's doubts come
/// first, then the corrections.
pub open spec fn register_verdict(
    p: PackView,
    s: Seq<ObligationRecord>,
    inputs: Seq<u8>,
    params: Seq<u8>,
    r: Result<(), VerifyFailure>,
) -> bool {
    if !spine::is_evidence(p, inputs, params) {
        &&& r matches Err(VerifyFailure::Spine(e))
        &&& spine::verdict(p, inputs, params, Err(e))
    } else {
        match first_open(p.signoffs, corrected_ids(s), 0) {
            Some(id) => r matches Err(VerifyFailure::FourEyes { obligation_id }) && obligation_id@
                == id,
            None => r == Ok::<(), VerifyFailure>(()),
        }
    }
}

fn countersigned(signoffs: &Vec<Signoff>, id: &str) -> (r: bool)
    ensures
        r == is_countersigned(spine::signoffs_view(signoffs@), id@),
{
    let ghost all = spine::signoffs_view(signoffs@);
    let ghost counts = |s: SignoffView| countersigns(s, id@);
    let mut approvals: Vec<Signoff> = Vec::new();
    let mut i: usize = 0;
    proof {
        reveal(Seq::filter);
        assert(all.take(0).filter(counts) =~= Seq::<SignoffView>::empty());
        assert(spine::signoffs_view(approvals@) =~= Seq::<SignoffView>::empty());
    }
    while i < signoffs.len()
        invariant
            i <= signoffs.len(),
            all == spine::signoffs_view(signoffs@),
            counts == (|s: SignoffView| countersigns(s, id@)),
            spine::signoffs_view(approvals@) == all.take(i as int).filter(counts),
        decreases signoffs.len() - i,
    {
        let s = &signoffs[i];
        proof {
            reveal(Seq::filter);
            assert(all.take(i + 1).drop_last() =~= all.take(i as int));
            assert(all.take(i + 1).last() == s@);
        }
        if s.decision == SignoffDecision::Approve && text::same_text(s.subject.as_str(), id)
            && !text::eq_ignoring_case(text::trim(s.actor.as_str()), ENGINE_ID) {
            let ghost was = approvals@;
            approvals.push(s.clone());
            assert(spine::signoffs_view(approvals@) =~= spine::signoffs_view(was).push(s@));
        }
        i = i + 1;
    }
    assert(all.take(i as int) =~= all);
    spine::four_eyes_satisfied(&approvals)
}

/// Fail-closed verification of a pack against a register. `inputs` and
/// `params` are the canonical bytes of the register and the policy.
pub fn verify_pack(
    pack: &EvidencePack,
    register: &RegisterInputs,
    inputs: &[u8],
    params: &[u8],
) -> (r: Result<(), VerifyFailure>)
    ensures
        register_verdict(pack@, register.obligations@, inputs@, params@, r),
{
    match pack.verify(inputs, params) {
        Ok(()) => {},
        Err(e) => return Err(VerifyFailure::Spine(e)),
    }
    let ids = corrected_obligation_ids(register);
    let ghost all = corrected_ids(register.obligations@);
    let mut i: usize = 0;
    while i < ids.len()
        invariant
            i <= ids.len(),
            all == text::texts(ids@),
            all == corrected_ids(register.obligations@),
            spine::is_evidence(pack@, inputs@, params@),
            first_open(pack@.signoffs, all, 0) == first_open(pack@.signoffs, all, i as int),
        decreases ids.len() - i,
    {
        assert(all[i as int] == ids@[i as int]@);
        if !countersigned(&pack.signoffs, ids[i].as_str()) {
            return Err(VerifyFailure::FourEyes { obligation_id: ids[i].clone() });
        }
        i = i + 1;
    }
    Ok(())
}

} // verus!
