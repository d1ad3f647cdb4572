//! What holds of every pack.

use vstd::prelude::*;

use crate::spine;
use crate::spine::{
    FindingView, LockError, LockState, PackView, Severity, SignoffDecision, SignoffView, VerifyError,
};
use crate::text;

verus! {

// ---- the sealed body ----

/// Digits before a colon can be read in one way only.
proof fn digits_before_colon(a: Seq<char>, x: Seq<char>, b: Seq<char>, y: Seq<char>)
    requires
        text::all_digits(a),
        text::all_digits(b),
        a + ":"@ + x == b + ":"@ + y,
    ensures
        a == b,
        x == y,
{
    reveal_strlit(":");
    let s = a + ":"@ + x;
    let t = b + ":"@ + y;
    assert(s[a.len() as int] == ':');
    assert(t[b.len() as int] == ':');
    if a.len() < b.len() {
        assert(t[a.len() as int] == b[a.len() as int]);
        assert(text::is_digit(b[a.len() as int]));
    }
    if b.len() < a.len() {
        assert(s[b.len() as int] == a[b.len() as int]);
        assert(text::is_digit(a[b.len() as int]));
    }
    assert forall|i: int| 0 <= i < a.len() implies a[i] == b[i] by {
        assert(s[i] == a[i]);
        assert(t[i] == b[i]);
    }
    assert(a =~= b);
    let n = a.len() + 1;
    assert(s.skip(n as int) =~= x);
    assert(t.skip(n as int) =~= y);
}

/// A framed text can be read off what follows in one way only.
proof fn frame_reads_off(a: Seq<char>, x: Seq<char>, b: Seq<char>, y: Seq<char>)
    requires
        spine::framed(a) + x == spine::framed(b) + y,
    ensures
        a == b,
        x == y,
{
    let m = text::decimal(a.len());
    let n = text::decimal(b.len());
    text::decimal_reads_back(a.len());
    text::decimal_reads_back(b.len());
    assert(m + ":"@ + (a + x) =~= spine::framed(a) + x);
    assert(n + ":"@ + (b + y) =~= spine::framed(b) + y);
    digits_before_colon(m, a + x, n, b + y);
    assert(a.len() == b.len());
    let k = a.len() as int;
    assert((a + x).take(k) =~= a);
    assert((b + y).take(k) =~= b);
    assert((a + x).skip(k) =~= x);
    assert((b + y).skip(k) =~= y);
}

proof fn marks_differ()
    ensures
        forall|a: Severity, b: Severity| #[trigger]
            spine::severity_mark(a) == #[trigger] spine::severity_mark(b) ==> a == b,
        forall|a: SignoffDecision, b: SignoffDecision| #[trigger]
            spine::decision_mark(a) == #[trigger] spine::decision_mark(b) ==> a == b,
        forall|a: bool, b: bool| #[trigger]
            spine::gate_mark(a) == #[trigger] spine::gate_mark(b) ==> a == b,
{
    reveal_strlit("breach");
    reveal_strlit("warn");
    reveal_strlit("info");
    reveal_strlit("approve");
    reveal_strlit("reject");
    reveal_strlit("true");
    reveal_strlit("false");
    assert("warn"@[0] == 'w');
    assert("info"@[0] == 'i');
    assert("breach"@.len() == 6);
    assert("approve"@.len() == 7);
    assert("reject"@.len() == 6);
    assert("true"@.len() == 4);
    assert("false"@.len() == 5);
}

proof fn nest_two(a: Seq<char>, b: Seq<char>, x: Seq<char>)
    ensures
        (a + b) + x == a + (b + x),
{
    assert((a + b) + x =~= a + (b + x));
}

proof fn nest_five(
    a: Seq<char>,
    b: Seq<char>,
    c: Seq<char>,
    d: Seq<char>,
    e: Seq<char>,
    x: Seq<char>,
)
    ensures
        (a + b + c + d + e) + x == a + (b + (c + (d + (e + x)))),
{
    nest_two(a + b + c + d, e, x);
    nest_two(a + b + c, d, e + x);
    nest_two(a + b, c, d + (e + x));
    nest_two(a, b, c + (d + (e + x)));
}

proof fn finding_reads_off(f: FindingView, x: Seq<char>, g: FindingView, y: Seq<char>)
    requires
        spine::framed_finding(f) + x == spine::framed_finding(g) + y,
    ensures
        f == g,
        x == y,
{
    let f5 = spine::framed(spine::gate_mark(f.requires_signoff)) + x;
    let g5 = spine::framed(spine::gate_mark(g.requires_signoff)) + y;
    let f4 = spine::framed(f.message) + f5;
    let g4 = spine::framed(g.message) + g5;
    let f3 = spine::framed(f.subject) + f4;
    let g3 = spine::framed(g.subject) + g4;
    let f2 = spine::framed(spine::severity_mark(f.severity)) + f3;
    let g2 = spine::framed(spine::severity_mark(g.severity)) + g3;
    nest_five(
        spine::framed(f.rule_id),
        spine::framed(spine::severity_mark(f.severity)),
        spine::framed(f.subject),
        spine::framed(f.message),
        spine::framed(spine::gate_mark(f.requires_signoff)),
        x,
    );
    nest_five(
        spine::framed(g.rule_id),
        spine::framed(spine::severity_mark(g.severity)),
        spine::framed(g.subject),
        spine::framed(g.message),
        spine::framed(spine::gate_mark(g.requires_signoff)),
        y,
    );
    frame_reads_off(f.rule_id, f2, g.rule_id, g2);
    frame_reads_off(spine::severity_mark(f.severity), f3, spine::severity_mark(g.severity), g3);
    frame_reads_off(f.subject, f4, g.subject, g4);
    frame_reads_off(f.message, f5, g.message, g5);
    frame_reads_off(
        spine::gate_mark(f.requires_signoff),
        x,
        spine::gate_mark(g.requires_signoff),
        y,
    );
    marks_differ();
}

proof fn signoff_reads_off(f: SignoffView, x: Seq<char>, g: SignoffView, y: Seq<char>)
    requires
        spine::framed_signoff(f) + x == spine::framed_signoff(g) + y,
    ensures
        f == g,
        x == y,
{
    let f5 = spine::framed(f.at) + x;
    let g5 = spine::framed(g.at) + y;
    let f4 = spine::framed(spine::decision_mark(f.decision)) + f5;
    let g4 = spine::framed(spine::decision_mark(g.decision)) + g5;
    let f3 = spine::framed(f.subject) + f4;
    let g3 = spine::framed(g.subject) + g4;
    let f2 = spine::framed(f.role) + f3;
    let g2 = spine::framed(g.role) + g3;
    nest_five(
        spine::framed(f.actor),
        spine::framed(f.role),
        spine::framed(f.subject),
        spine::framed(spine::decision_mark(f.decision)),
        spine::framed(f.at),
        x,
    );
    nest_five(
        spine::framed(g.actor),
        spine::framed(g.role),
        spine::framed(g.subject),
        spine::framed(spine::decision_mark(g.decision)),
        spine::framed(g.at),
        y,
    );
    frame_reads_off(f.actor, f2, g.actor, g2);
    frame_reads_off(f.role, f3, g.role, g3);
    frame_reads_off(f.subject, f4, g.subject, g4);
    frame_reads_off(spine::decision_mark(f.decision), f5, spine::decision_mark(g.decision), g5);
    frame_reads_off(f.at, x, g.at, y);
    marks_differ();
}

proof fn findings_read_off(
    s: Seq<FindingView>,
    x: Seq<char>,
    t: Seq<FindingView>,
    y: Seq<char>,
)
    requires
        s.len() == t.len(),
        spine::framed_findings(s) + x == spine::framed_findings(t) + y,
    ensures
        s == t,
        x == y,
    decreases s.len(),
{
    if s.len() == 0 {
        assert(spine::framed_findings(s) + x =~= x);
        assert(spine::framed_findings(t) + y =~= y);
        assert(s =~= t);
    } else {
        let u = spine::framed_finding(s.last()) + x;
        let v = spine::framed_finding(t.last()) + y;
        assert(spine::framed_findings(s) + x =~= spine::framed_findings(s.drop_last()) + u);
        assert(spine::framed_findings(t) + y =~= spine::framed_findings(t.drop_last()) + v);
        findings_read_off(s.drop_last(), u, t.drop_last(), v);
        finding_reads_off(s.last(), x, t.last(), y);
        assert(s =~= s.drop_last().push(s.last()));
        assert(t =~= t.drop_last().push(t.last()));
    }
}

proof fn signoffs_read_off(
    s: Seq<SignoffView>,
    x: Seq<char>,
    t: Seq<SignoffView>,
    y: Seq<char>,
)
    requires
        s.len() == t.len(),
        spine::framed_signoffs(s) + x == spine::framed_signoffs(t) + y,
    ensures
        s == t,
        x == y,
    decreases s.len(),
{
    if s.len() == 0 {
        assert(spine::framed_signoffs(s) + x =~= x);
        assert(spine::framed_signoffs(t) + y =~= y);
        assert(s =~= t);
    } else {
        let u = spine::framed_signoff(s.last()) + x;
        let v = spine::framed_signoff(t.last()) + y;
        assert(spine::framed_signoffs(s) + x =~= spine::framed_signoffs(s.drop_last()) + u);
        assert(spine::framed_signoffs(t) + y =~= spine::framed_signoffs(t.drop_last()) + v);
        signoffs_read_off(s.drop_last(), u, t.drop_last(), v);
        signoff_reads_off(s.last(), x, t.last(), y);
        assert(s =~= s.drop_last().push(s.last()));
        assert(t =~= t.drop_last().push(t.last()));
    }
}

/// Whether two packs agree in all that the seal covers.
pub open spec fn same_body(p: PackView, q: PackView) -> bool {
    &&& p.engine_id == q.engine_id
    &&& p.tool_version == q.tool_version
    &&& p.spine_version == q.spine_version
    &&& p.inputs_hash == q.inputs_hash
    &&& p.params_hash == q.params_hash
    &&& p.findings == q.findings
    &&& p.signoffs == q.signoffs
}

/// What is left of the body behind the hashes.
spec fn tail(p: PackView) -> Seq<char> {
    spine::framed(text::decimal(p.findings.len())) + (spine::framed_findings(p.findings) + (
    spine::framed(text::decimal(p.signoffs.len())) + (spine::framed_signoffs(p.signoffs)
        + Seq::<char>::empty())))
}

proof fn body_is_nested(p: PackView)
    ensures
        spine::body_text(p) == spine::framed(p.engine_id) + (spine::framed(p.tool_version) + (
        spine::framed(p.spine_version) + (spine::framed(p.inputs_hash) + (spine::framed(
            p.params_hash,
        ) + tail(p))))),
{
    let none = Seq::<char>::empty();
    let a = spine::framed(p.engine_id);
    let b = spine::framed(p.tool_version);
    let c = spine::framed(p.spine_version);
    let d = spine::framed(p.inputs_hash);
    let e = spine::framed(p.params_hash);
    let f = spine::framed(text::decimal(p.findings.len()));
    let g = spine::framed_findings(p.findings);
    let h = spine::framed(text::decimal(p.signoffs.len()));
    let k = spine::framed_signoffs(p.signoffs);
    let hashes = a + b + c + d + e;
    assert(hashes + f + g + h + k =~= hashes + f + g + h + (k + none));
    nest_two(hashes + f + g, h, k + none);
    nest_two(hashes + f, g, h + (k + none));
    nest_two(hashes, f, g + (h + (k + none)));
    nest_five(a, b, c, d, e, tail(p));
}

/// The text under the seal tells packs apart: it is the same only for packs
/// that agree in every field that the seal covers.
pub proof fn bodies_are_told_apart(p: PackView, q: PackView)
    requires
        spine::body_text(p) == spine::body_text(q),
    ensures
        same_body(p, q),
{
    body_is_nested(p);
    body_is_nested(q);
    let p4 = spine::framed(p.params_hash) + tail(p);
    let q4 = spine::framed(q.params_hash) + tail(q);
    let p3 = spine::framed(p.inputs_hash) + p4;
    let q3 = spine::framed(q.inputs_hash) + q4;
    let p2 = spine::framed(p.spine_version) + p3;
    let q2 = spine::framed(q.spine_version) + q3;
    let p1 = spine::framed(p.tool_version) + p2;
    let q1 = spine::framed(q.tool_version) + q2;
    frame_reads_off(p.engine_id, p1, q.engine_id, q1);
    frame_reads_off(p.tool_version, p2, q.tool_version, q2);
    frame_reads_off(p.spine_version, p3, q.spine_version, q3);
    frame_reads_off(p.inputs_hash, p4, q.inputs_hash, q4);
    frame_reads_off(p.params_hash, tail(p), q.params_hash, tail(q));
    let none = Seq::<char>::empty();
    let p6 = spine::framed_signoffs(p.signoffs) + none;
    let q6 = spine::framed_signoffs(q.signoffs) + none;
    let p5 = spine::framed(text::decimal(p.signoffs.len())) + p6;
    let q5 = spine::framed(text::decimal(q.signoffs.len())) + q6;
    frame_reads_off(
        text::decimal(p.findings.len()),
        spine::framed_findings(p.findings) + p5,
        text::decimal(q.findings.len()),
        spine::framed_findings(q.findings) + q5,
    );
    text::decimal_reads_back(p.findings.len());
    text::decimal_reads_back(q.findings.len());
    findings_read_off(p.findings, p5, q.findings, q5);
    frame_reads_off(text::decimal(p.signoffs.len()), p6, text::decimal(q.signoffs.len()), q6);
    text::decimal_reads_back(p.signoffs.len());
    text::decimal_reads_back(q.signoffs.len());
    signoffs_read_off(p.signoffs, none, q.signoffs, none);
}

/// Whether two different byte sequences have the same digest.
pub open spec fn collide(a: Seq<u8>, b: Seq<u8>) -> bool {
    a != b && spine::sha256_text(a) == spine::sha256_text(b)
}

/// An edit to a sealed pack that leaves the seal standing breaks it, unless
/// the digests of the two bodies collide.
pub proof fn edits_break_the_seal(p: PackView, q: PackView)
    requires
        spine::seal_intact(p),
        q.body_hash == p.body_hash,
        !same_body(p, q),
    ensures
        spine::seal_intact(q) ==> collide(
            vstd::utf8::encode_utf8(spine::body_text(p)),
            vstd::utf8::encode_utf8(spine::body_text(q)),
        ),
{
    let a = spine::body_text(p);
    let b = spine::body_text(q);
    if a == b {
        bodies_are_told_apart(p, q);
    }
    vstd::utf8::encode_utf8_decode_utf8(a);
    vstd::utf8::encode_utf8_decode_utf8(b);
    if vstd::utf8::encode_utf8(a) == vstd::utf8::encode_utf8(b) {
        assert(a == b);
    }
}

/// Other bytes than those that a pack was made from are refused, unless their
/// digests collide.
pub proof fn other_bytes_are_refused(
    p: PackView,
    inputs: Seq<u8>,
    params: Seq<u8>,
    other_inputs: Seq<u8>,
    other_params: Seq<u8>,
)
    requires
        spine::is_evidence(p, inputs, params),
        spine::is_evidence(p, other_inputs, other_params),
    ensures
        inputs == other_inputs || collide(inputs, other_inputs),
        params == other_params || collide(params, other_params),
{
}

// ---- receipts ----

/// The engine cannot countersign its own pack, however its name is written.
pub proof fn engines_never_approve(engine_id: Seq<char>, s: SignoffView, subject: Seq<char>)
    requires
        text::same_ignoring_case(text::trimmed(s.actor), text::trimmed(engine_id)),
    ensures
        !spine::approves(engine_id, s, subject),
{
}

/// A receipt resolves findings on its own subject alone.
pub proof fn approvals_are_scoped(
    engine_id: Seq<char>,
    s: SignoffView,
    subject: Seq<char>,
    other: Seq<char>,
)
    requires
        spine::approves(engine_id, s, subject),
        subject != other,
    ensures
        !spine::approves(engine_id, s, other),
{
}

/// A pack with one more receipt.
pub open spec fn with_receipt(p: PackView, s: SignoffView) -> PackView {
    PackView { signoffs: p.signoffs.push(s), ..p }
}

/// One more receipt never undoes an approval.
pub proof fn receipts_never_undo_approvals(p: PackView, s: SignoffView, f: FindingView)
    requires
        spine::is_resolved(p, f),
    ensures
        spine::is_resolved(with_receipt(p, s), f),
{
    if f.requires_signoff {
        let i = choose|i: int|
            0 <= i < p.signoffs.len() && #[trigger] spine::approves(
                p.engine_id,
                p.signoffs[i],
                f.subject,
            );
        let q = with_receipt(p, s);
        assert(spine::approves(q.engine_id, q.signoffs[i], f.subject));
    }
}

/// A rejection, a blank actor, and the engine leave every finding as it was.
pub proof fn void_receipts_resolve_nothing(p: PackView, s: SignoffView, f: FindingView)
    requires
        s.decision == SignoffDecision::Reject || text::is_blank(s.actor) || text::same_ignoring_case(
            text::trimmed(s.actor),
            text::trimmed(p.engine_id),
        ),
    ensures
        spine::is_resolved(with_receipt(p, s), f) == spine::is_resolved(p, f),
{
    let q = with_receipt(p, s);
    if spine::is_resolved(p, f) {
        receipts_never_undo_approvals(p, s, f);
    }
    if f.requires_signoff && spine::is_resolved(q, f) {
        let i = choose|i: int|
            0 <= i < q.signoffs.len() && #[trigger] spine::approves(
                q.engine_id,
                q.signoffs[i],
                f.subject,
            );
        assert(i < p.signoffs.len());
        assert(spine::approves(p.engine_id, p.signoffs[i], f.subject));
    }
}

// ---- the lock ----

/// A signed pack is evidence for the bytes that it was made from.
pub proof fn signed_packs_are_evidence(
    before: PackView,
    after: PackView,
    inputs: Seq<u8>,
    params: Seq<u8>,
)
    requires
        before.spine_version == spine::SPINE_VERSION@,
        before.inputs_hash == spine::sha256_text(inputs),
        before.params_hash == spine::sha256_text(params),
        spine::lock_step(
            LockState::AwaitingSignoff,
            before,
            after,
            Ok::<LockState, LockError>(LockState::Signed),
        ),
    ensures
        spine::is_evidence(after, inputs, params),
{
    assert(after == spine::sealed_view(before));
    assert(spine::body_text(after) == spine::body_text(before));
    assert forall|i: int| 0 <= i < after.findings.len() implies spine::is_resolved(
        after,
        #[trigger] after.findings[i],
    ) by {
        assert(spine::is_resolved(before, before.findings[i]));
    }
}

/// Nothing is signed past an unresolved finding, and nothing follows signing:
/// the pack stays as it was.
pub proof fn the_lock_is_shut(
    state: LockState,
    before: PackView,
    after: PackView,
    r: Result<LockState, LockError>,
)
    requires
        spine::lock_step(state, before, after, r),
        state == LockState::Signed || !spine::all_resolved(before),
    ensures
        after == before,
        r != Ok::<LockState, LockError>(LockState::Signed),
{
}

/// An unsealed pack is never evidence: the seal is asked for before the
/// receipts. Where the seal of its body is no empty text, verification says
/// that the body does not match.
pub proof fn unsealed_packs_are_refused(
    p: PackView,
    inputs: Seq<u8>,
    params: Seq<u8>,
    r: Result<(), VerifyError>,
)
    requires
        p.spine_version == spine::SPINE_VERSION@,
        p.body_hash.len() == 0,
        spine::seal_of(p).len() > 0,
        spine::verdict(p, inputs, params, r),
    ensures
        r == Err::<(), VerifyError>(VerifyError::BodyHashMismatch),
{
}

// ---- people ----

/// A finding that needs a signoff is resolved exactly when some receipt on
/// its subject approves, in a name that is not blank and that, but for white
/// space around it and the case of letters, is not the engine's. One that
/// needs none is resolved.
pub proof fn people_resolve_findings(p: PackView, f: FindingView)
    ensures
        spine::is_resolved(p, f) <==> !f.requires_signoff || exists|i: int|
            {
                &&& 0 <= i < p.signoffs.len()
                &&& (#[trigger] p.signoffs[i]).subject == f.subject
                &&& p.signoffs[i].decision == SignoffDecision::Approve
                &&& !text::all_white(p.signoffs[i].actor)
                &&& !text::same_ignoring_case(
                    text::trimmed(p.signoffs[i].actor),
                    text::trimmed(p.engine_id),
                )
            },
{
    if spine::is_resolved(p, f) && f.requires_signoff {
        let i = choose|i: int|
            0 <= i < p.signoffs.len() && #[trigger] spine::approves(
                p.engine_id,
                p.signoffs[i],
                f.subject,
            );
        text::blank_texts_are_white(p.signoffs[i].actor);
        assert(p.signoffs[i].subject == f.subject);
    }
    if f.requires_signoff && exists|i: int|
        {
            &&& 0 <= i < p.signoffs.len()
            &&& (#[trigger] p.signoffs[i]).subject == f.subject
            &&& p.signoffs[i].decision == SignoffDecision::Approve
            &&& !text::all_white(p.signoffs[i].actor)
            &&& !text::same_ignoring_case(
                text::trimmed(p.signoffs[i].actor),
                text::trimmed(p.engine_id),
            )
        } {
        let i = choose|i: int|
            {
                &&& 0 <= i < p.signoffs.len()
                &&& (#[trigger] p.signoffs[i]).subject == f.subject
                &&& p.signoffs[i].decision == SignoffDecision::Approve
                &&& !text::all_white(p.signoffs[i].actor)
                &&& !text::same_ignoring_case(
                    text::trimmed(p.signoffs[i].actor),
                    text::trimmed(p.engine_id),
                )
            };
        text::blank_texts_are_white(p.signoffs[i].actor);
        assert(spine::approves(p.engine_id, p.signoffs[i], f.subject));
    }
}

/// Whether two receipts approve in two names, neither blank, that differ in
/// more than white space around them and the case of letters.
pub open spec fn are_two_people(a: SignoffView, b: SignoffView) -> bool {
    &&& a.decision == SignoffDecision::Approve
    &&& b.decision == SignoffDecision::Approve
    &&& !text::all_white(a.actor)
    &&& !text::all_white(b.actor)
    &&& !text::same_ignoring_case(text::trimmed(a.actor), text::trimmed(b.actor))
}

/// Receipts pass the rule of four eyes exactly when two of them are of two
/// people who approve.
pub proof fn four_eyes_are_two_people(s: Seq<SignoffView>)
    ensures
        spine::four_eyes(s) <==> exists|i: int, j: int|
            0 <= i < s.len() && 0 <= j < s.len() && #[trigger] are_two_people(s[i], s[j]),
{
    assert forall|a: SignoffView, b: SignoffView|
        spine::two_signers(a, b) == #[trigger] are_two_people(a, b) by {
        text::blank_texts_are_white(a.actor);
        text::blank_texts_are_white(b.actor);
    }
    if spine::four_eyes(s) {
        let (i, j) = choose|i: int, j: int|
            0 <= i < j < s.len() && #[trigger] spine::two_signers(s[i], s[j]);
        assert(are_two_people(s[i], s[j]));
    }
    if exists|i: int, j: int|
        0 <= i < s.len() && 0 <= j < s.len() && #[trigger] are_two_people(s[i], s[j]) {
        let (i, j) = choose|i: int, j: int|
            0 <= i < s.len() && 0 <= j < s.len() && #[trigger] are_two_people(s[i], s[j]);
        if i < j {
            assert(spine::two_signers(s[i], s[j]));
        } else if j < i {
            assert(are_two_people(s[j], s[i]));
            assert(spine::two_signers(s[j], s[i]));
        }
    }
}

/// A draft is always submitted, as it is. A submitted pack is signed exactly
/// when every finding is resolved; signing changes the seal alone.
pub proof fn packs_are_signed_once_resolved(
    state: LockState,
    before: PackView,
    after: PackView,
    r: Result<LockState, LockError>,
)
    requires
        spine::lock_step(state, before, after, r),
    ensures
        state == LockState::Draft ==> r == Ok::<LockState, LockError>(LockState::AwaitingSignoff)
            && after == before,
        state == LockState::AwaitingSignoff ==> (r == Ok::<LockState, LockError>(LockState::Signed)
            <==> forall|k: int|
            0 <= k < before.findings.len() ==> spine::is_resolved(
                before,
                #[trigger] before.findings[k],
            )),
        state == LockState::Signed ==> r is Err,
        (PackView { body_hash: before.body_hash, ..after }) == before,
{
}

/// The findings of the three severities are all findings.
pub proof fn severities_add_up(s: Seq<FindingView>, n: int)
    requires
        0 <= n <= s.len(),
    ensures
        spine::severity_count(s, Severity::Breach, n) + spine::severity_count(s, Severity::Warn, n)
            + spine::severity_count(s, Severity::Info, n) == n,
    decreases n,
{
    if n > 0 {
        severities_add_up(s, n - 1);
    }
}

/// There are findings of a severity exactly where one has it.
pub proof fn severities_are_counted(s: Seq<FindingView>, severity: Severity, n: int)
    requires
        0 <= n <= s.len(),
    ensures
        spine::severity_count(s, severity, n) >= 0,
        spine::severity_count(s, severity, n) == 0 <==> forall|k: int|
            0 <= k < n ==> (#[trigger] s[k]).severity != severity,
    decreases n,
{
    if n > 0 {
        severities_are_counted(s, severity, n - 1);
        assert(s[n - 1] == s[n - 1]);
    }
}

} // verus!
