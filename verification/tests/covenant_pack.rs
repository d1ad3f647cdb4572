//! Covenant packs: sealing, receipts, and canonical bytes.

use control_spine::covenant::engine::Evaluation;
use control_spine::covenant::pack::{
    attempt_seal, build_pack, canonical_json, compute_envelope, sign, AwaitingReason, PackEnvelope,
    SealError, SealOutcome, SignRefusal,
};
use control_spine::covenant::ENGINE_ID;
use control_spine::spine::{
    sha256_hex, Finding, LockState, Signoff, SignoffDecision, VerifyError, SPINE_VERSION,
};

const INPUTS: &[u8] = b"covenant-inputs-bytes";
const PARAMS: &[u8] = b"covenant-params-bytes";

fn clean_eval() -> Evaluation {
    Evaluation::default()
}

fn breach_eval(subjects: &[&str]) -> Evaluation {
    Evaluation {
        findings: subjects
            .iter()
            .map(|s| Finding::breach("covenant-test", s, "breach".to_string()))
            .collect(),
        results: Vec::new(),
    }
}

fn envelope(ev: &Evaluation) -> PackEnvelope {
    compute_envelope(PARAMS, INPUTS, ev)
}

fn signoff(actor: &str, subject: &str, decision: SignoffDecision) -> Signoff {
    Signoff {
        actor: actor.to_string(),
        role: "treasury controller".to_string(),
        subject: subject.to_string(),
        decision,
        at: "2026-09-22T00:00:00Z".to_string(),
    }
}

#[test]
fn compute_envelope_carries_provenance_and_awaiting_signoff() {
    let env = envelope(&clean_eval());
    assert_eq!(env.lock_state, LockState::AwaitingSignoff);
    assert_eq!(env.pack.engine_id, ENGINE_ID);
    assert_eq!(env.pack.spine_version, SPINE_VERSION);
    assert!(!env.pack.tool_version.is_empty());
    assert_eq!(env.pack.inputs_hash, sha256_hex(INPUTS));
    assert_eq!(env.pack.params_hash, sha256_hex(PARAMS));
    assert!(env.pack.signoffs.is_empty());
    // Unsealed until Signed — verify refuses unsealed packs.
    assert!(env.pack.body_hash.is_empty());
}

#[test]
fn unsealed_pack_refuses_verification() {
    let env = envelope(&clean_eval());
    assert_eq!(
        env.pack.verify(INPUTS, PARAMS),
        Err(VerifyError::BodyHashMismatch)
    );
}

#[test]
fn clean_pack_signs_without_receipts_and_verifies() {
    let mut env = envelope(&clean_eval());
    assert_eq!(attempt_seal(&mut env), Ok(SealOutcome::Signed));
    assert_eq!(env.lock_state, LockState::Signed);
    assert!(!env.pack.body_hash.is_empty());
    assert_eq!(env.pack.verify(INPUTS, PARAMS), Ok(()));
    // Sealing twice is refused — signed packs are immutable.
    assert_eq!(attempt_seal(&mut env), Err(SealError::AlreadySigned));
}

#[test]
fn attempt_seal_promotes_a_draft_envelope() {
    let mut env = PackEnvelope {
        lock_state: LockState::Draft,
        pack: build_pack(PARAMS, INPUTS, &clean_eval()),
    };
    assert_eq!(attempt_seal(&mut env), Ok(SealOutcome::Signed));
    assert_eq!(env.pack.verify(INPUTS, PARAMS), Ok(()));
}

#[test]
fn breach_pack_needs_per_subject_coverage_then_four_eyes() {
    let mut env = envelope(&breach_eval(&["LEV", "IC"]));
    // First receipt resolves only its own subject.
    env.pack
        .signoffs
        .push(signoff("sam", "LEV", SignoffDecision::Approve));
    assert_eq!(
        attempt_seal(&mut env),
        Ok(SealOutcome::Awaiting(AwaitingReason::UnresolvedFinding {
            rule_id: "covenant-test".to_string()
        }))
    );
    // All subjects covered, but one signer only: four-eyes holds the seal.
    env.pack
        .signoffs
        .push(signoff("sam", "IC", SignoffDecision::Approve));
    assert_eq!(
        attempt_seal(&mut env),
        Ok(SealOutcome::Awaiting(AwaitingReason::FourEyesRequired))
    );
    // Second distinct signer: seal and verify.
    env.pack
        .signoffs
        .push(signoff("quinn", "IC", SignoffDecision::Approve));
    assert_eq!(attempt_seal(&mut env), Ok(SealOutcome::Signed));
    assert_eq!(env.pack.verify(INPUTS, PARAMS), Ok(()));
}

#[test]
fn duplicate_signer_never_satisfies_four_eyes() {
    let mut env = envelope(&breach_eval(&["LEV"]));
    env.pack
        .signoffs
        .push(signoff("sam", "LEV", SignoffDecision::Approve));
    env.pack
        .signoffs
        .push(signoff("Sam", "LEV", SignoffDecision::Approve)); // case-merge: one signer
    assert_eq!(
        attempt_seal(&mut env),
        Ok(SealOutcome::Awaiting(AwaitingReason::FourEyesRequired))
    );
}

#[test]
fn reject_decision_does_not_resolve_a_breach() {
    let mut env = envelope(&breach_eval(&["LEV"]));
    env.pack
        .signoffs
        .push(signoff("sam", "LEV", SignoffDecision::Reject));
    assert_eq!(
        attempt_seal(&mut env),
        Ok(SealOutcome::Awaiting(AwaitingReason::UnresolvedFinding {
            rule_id: "covenant-test".to_string()
        }))
    );
}

#[test]
fn tampered_inputs_or_params_refuse_verification() {
    let mut env = envelope(&clean_eval());
    attempt_seal(&mut env).unwrap();
    assert_eq!(
        env.pack.verify(b"tampered-inputs", PARAMS),
        Err(VerifyError::HashMismatch { field: "inputs" })
    );
    assert_eq!(
        env.pack.verify(INPUTS, b"tampered-params"),
        Err(VerifyError::HashMismatch { field: "params" })
    );
}

#[test]
fn tampered_pack_body_breaks_the_seal() {
    let mut env = envelope(&breach_eval(&["LEV"]));
    env.pack
        .signoffs
        .push(signoff("sam", "LEV", SignoffDecision::Approve));
    env.pack
        .signoffs
        .push(signoff("quinn", "LEV", SignoffDecision::Approve));
    assert_eq!(attempt_seal(&mut env), Ok(SealOutcome::Signed));
    env.pack.findings[0].message = "edited after the fact".to_string();
    assert_eq!(
        env.pack.verify(INPUTS, PARAMS),
        Err(VerifyError::BodyHashMismatch)
    );
}

#[test]
fn engine_cannot_count_as_a_four_eyes_signer() {
    // The engine's own receipt is void (spine refuses engine
    // countersigns), and the four-eyes gate must not count it as a
    // signer either.
    let mut env = envelope(&breach_eval(&["LEV"]));
    env.pack
        .signoffs
        .push(signoff(ENGINE_ID, "LEV", SignoffDecision::Approve));
    env.pack
        .signoffs
        .push(signoff("sam", "LEV", SignoffDecision::Approve));
    assert_eq!(
        attempt_seal(&mut env),
        Ok(SealOutcome::Awaiting(AwaitingReason::FourEyesRequired))
    );
    env.pack
        .signoffs
        .push(signoff("quinn", "LEV", SignoffDecision::Approve));
    assert_eq!(attempt_seal(&mut env), Ok(SealOutcome::Signed));
    assert_eq!(env.pack.verify(INPUTS, PARAMS), Ok(()));
}

#[test]
fn canonical_json_is_key_sorted_and_whitespace_insensitive() {
    let a = canonical_json(br#"{"b": 1, "a": 2}"#).unwrap();
    let b = canonical_json(br#"{"a":2,"b":1}"#).unwrap();
    assert_eq!(a, b);
    let c = canonical_json(br#"{"a":2,"b":3}"#).unwrap();
    assert_ne!(a, c);
}


#[test]
fn covenant_sign_records_receipts_until_the_seal() {
    let mut env = envelope(&breach_eval(&["LEV"]));
    assert_eq!(
        sign(&mut env, signoff(" ", "LEV", SignoffDecision::Approve)),
        Err(SignRefusal::EmptyField)
    );
    assert!(env.pack.signoffs.is_empty());
    assert_eq!(
        sign(&mut env, signoff("sam", "LEV", SignoffDecision::Approve)),
        Ok(SealOutcome::Awaiting(AwaitingReason::FourEyesRequired))
    );
    assert_eq!(
        sign(&mut env, signoff("quinn", "LEV", SignoffDecision::Approve)),
        Ok(SealOutcome::Signed)
    );
    assert_eq!(
        sign(&mut env, signoff("late", "LEV", SignoffDecision::Approve)),
        Err(SignRefusal::AlreadySigned)
    );
    assert_eq!(env.pack.signoffs.len(), 2);
    assert_eq!(env.pack.verify(INPUTS, PARAMS), Ok(()));
}

#[test]
fn covenant_canonical_bytes_are_exact() {
    assert_eq!(
        canonical_json(br#"{"b": [1, true], "a": {"d": null, "c": "x"}}"#).unwrap(),
        br#"{"a":{"c":"x","d":null},"b":[1,true]}"#.to_vec()
    );
    assert!(!canonical_json(b"{").unwrap_err().message.is_empty());
}

#[test]
fn covenant_pack_texts_read_well() {
    assert!(AwaitingReason::FourEyesRequired.message().contains("four-eyes"));
    assert_eq!(
        AwaitingReason::UnresolvedFinding { rule_id: "r".to_string() }.message(),
        "finding on rule r needs an approving receipt naming its subject"
    );
    assert_eq!(
        SealError::AlreadySigned.message(),
        "pack is already signed; signed packs are immutable"
    );
    assert_eq!(
        SignRefusal::EmptyField.message(),
        "actor, role, subject, and at must be non-empty"
    );
}
