//! What a request to sign does to a pack.

use vstd::prelude::*;

use crate::coi::error::CoiError;
use crate::coi::pack;
use crate::coi::pack::{SignOutcome, SignRequest};
use crate::spine;
use crate::spine::{FindingView, PackView, SignoffDecision, SignoffView};
use crate::text;

verus! {

/// A request without an actor is complete; one with an actor is complete
/// exactly when the actor is not blank and role, subject, and time are given.
pub proof fn requests_are_complete(q: SignRequest)
    ensures
        pack::request_error(q) is None <==> (q.actor is Some ==> q.role is Some && q.subject is Some
            && q.at is Some && !text::all_white(q.actor->0@)),
{
    if q.actor is Some {
        text::blank_texts_are_white(q.actor->0@);
    }
}

/// What a complete request does to a pack without a seal. It adds a receipt
/// where it names an actor, as it was asked for but for white space at the
/// ends. It seals the pack exactly when it is no rejection and every finding
/// of the pack is then resolved; nothing else of the pack changes.
pub proof fn requests_add_their_receipt(
    before: PackView,
    q: SignRequest,
    after: PackView,
    r: Result<SignOutcome, CoiError>,
)
    requires
        pack::signing(before, q, after, r),
        before.body_hash.len() == 0,
        pack::request_error(q) is None,
    ensures
        ({
            let passes = !(q.actor is Some && q.decision == SignoffDecision::Reject)
                && spine::all_resolved(after);
            &&& after.engine_id == before.engine_id
            &&& after.tool_version == before.tool_version
            &&& after.spine_version == before.spine_version
            &&& after.inputs_hash == before.inputs_hash
            &&& after.params_hash == before.params_hash
            &&& after.findings == before.findings
            &&& q.actor is None ==> after.signoffs == before.signoffs
            &&& q.actor is Some ==> {
                &&& after.signoffs.len() == before.signoffs.len() + 1
                &&& after.signoffs.drop_last() == before.signoffs
                &&& after.signoffs.last().decision == q.decision
                &&& after.signoffs.last().actor == text::trimmed(q.actor->0@)
                &&& after.signoffs.last().role == text::trimmed(q.role->0@)
                &&& after.signoffs.last().subject == text::trimmed(q.subject->0@)
                &&& after.signoffs.last().at == text::trimmed(q.at->0@)
            }
            &&& r == Ok::<SignOutcome, CoiError>(SignOutcome::Signed) <==> passes
            &&& passes ==> spine::seal_intact(after)
            &&& !passes ==> after.body_hash == before.body_hash
        }),
{
    let now = pack::with_receipts(before, pack::requested(q));
    assert(before.signoffs + Seq::<SignoffView>::empty() =~= before.signoffs);
    if q.actor is Some {
        assert(now.signoffs.drop_last() =~= before.signoffs);
    }
    assert(after.findings == now.findings && after.signoffs == now.signoffs && after.engine_id
        == now.engine_id);
    assert forall|f: FindingView| spine::is_resolved(after, f) == #[trigger] spine::is_resolved(
        now,
        f,
    ) by {}
    assert(spine::all_resolved(after) == spine::all_resolved(now)) by {
        if spine::all_resolved(after) {
            assert forall|i: int| 0 <= i < now.findings.len() implies spine::is_resolved(
                now,
                #[trigger] now.findings[i],
            ) by {
                assert(spine::is_resolved(after, after.findings[i]));
            }
        }
        if spine::all_resolved(now) {
            assert forall|i: int| 0 <= i < after.findings.len() implies spine::is_resolved(
                after,
                #[trigger] after.findings[i],
            ) by {
                assert(spine::is_resolved(now, now.findings[i]));
            }
        }
    }
    assert(spine::body_text(spine::sealed_view(now)) == spine::body_text(now));
}

} // verus!
