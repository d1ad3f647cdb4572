//! Evidence packs: seals, receipts, the lock, and verification.

use control_spine::spine::{
    advance_lock, approval_covers, count_findings, first_unresolved_finding, four_eyes_satisfied,
    lock_label, new_pack, same_findings, severity_label, severity_word, sha256_hex, sort_findings,
    EvidencePack, Finding, LockError, LockState, Severity, Signoff, SignoffDecision, VerifyError,
    SPINE_VERSION,
};

fn receipt(actor: &str, subject: &str, decision: SignoffDecision) -> Signoff {
    Signoff {
        actor: actor.to_string(),
        role: "controller".to_string(),
        subject: subject.to_string(),
        decision,
        at: "2026-09-22T12:00:00Z".to_string(),
    }
}

fn approve(actor: &str, subject: &str) -> Signoff {
    receipt(actor, subject, SignoffDecision::Approve)
}

fn breach(rule: &str, subject: &str) -> Finding {
    Finding::breach(rule, subject, format!("{rule} on {subject}"))
}

fn pack(findings: Vec<Finding>, signoffs: Vec<Signoff>) -> EvidencePack {
    new_pack("engine", "0.1.0", b"inputs", b"params", findings, signoffs)
}

fn verdict(pack: &EvidencePack) -> Result<(), VerifyError> {
    pack.verify(b"inputs", b"params")
}

fn unresolved(rule: &str) -> Result<(), VerifyError> {
    Err(VerifyError::UnresolvedBreach { rule_id: rule.to_string() })
}

#[test]
fn spine_digests_are_lower_case_hexadecimal() {
    assert_eq!(
        sha256_hex(b""),
        "e3b0c44298fc1c149afbf4c8996fb92427ae41e4649b934ca495991b7852b855"
    );
    assert_eq!(
        sha256_hex(b"abc"),
        "ba7816bf8f01cfea414140de5dae2223b00361a396177a9cb410ff61f20015ad"
    );
}

#[test]
fn spine_packs_carry_provenance() {
    let p = pack(vec![], vec![]);
    assert_eq!(p.inputs_hash, sha256_hex(b"inputs"));
    assert_eq!(p.params_hash, sha256_hex(b"params"));
    assert_eq!(p.spine_version, SPINE_VERSION);
    assert_eq!(p.body_hash, "");
    assert_eq!(p.sealed().body_hash.len(), 64);
}

#[test]
fn spine_unsealed_packs_are_refused() {
    assert_eq!(verdict(&pack(vec![], vec![])), Err(VerifyError::BodyHashMismatch));
    assert_eq!(verdict(&pack(vec![], vec![]).sealed()), Ok(()));
}

#[test]
fn spine_foreign_versions_are_refused() {
    let mut p = pack(vec![], vec![]);
    p.spine_version = "0.9.0".to_string();
    assert_eq!(verdict(&p.sealed()), Err(VerifyError::ForeignVersion));
}

#[test]
fn spine_other_bytes_are_refused() {
    let p = pack(vec![], vec![]).sealed();
    assert_eq!(
        p.verify(b"inputs ", b"params"),
        Err(VerifyError::HashMismatch { field: "inputs" })
    );
    assert_eq!(
        p.verify(b"inputs", b"params "),
        Err(VerifyError::HashMismatch { field: "params" })
    );
}

#[test]
fn spine_every_edit_breaks_the_seal() {
    let whole = pack(vec![breach("R", "S")], vec![approve("ann", "S")]).sealed();
    assert_eq!(verdict(&whole), Ok(()));
    let edits: Vec<fn(&mut EvidencePack)> = vec![
        |p| p.engine_id.push('x'),
        |p| p.tool_version.push('x'),
        |p| p.inputs_hash.push('x'),
        |p| p.params_hash.push('x'),
        |p| p.findings[0].severity = Severity::Warn,
        |p| p.findings[0].subject.push('x'),
        |p| p.findings[0].message.push('x'),
        |p| p.findings[0].requires_signoff = false,
        |p| p.findings.clear(),
        |p| p.signoffs[0].at.push('x'),
        |p| p.signoffs[0].actor.push('x'),
        |p| p.signoffs.clear(),
        |p| p.body_hash.push('x'),
    ];
    for edit in edits {
        let mut p = whole.clone();
        edit(&mut p);
        assert_eq!(verdict(&p), Err(VerifyError::BodyHashMismatch));
    }
}

#[test]
fn spine_seals_tell_fields_apart() {
    let mut a = pack(vec![], vec![]);
    let mut b = pack(vec![], vec![]);
    a.engine_id = "ab".to_string();
    a.tool_version = "c".to_string();
    b.engine_id = "a".to_string();
    b.tool_version = "bc".to_string();
    assert_ne!(a.seal(), b.seal());
}

#[test]
fn spine_breaches_need_an_approval_of_their_subject() {
    let found = vec![breach("R", "S")];
    assert_eq!(verdict(&pack(found.clone(), vec![]).sealed()), unresolved("R"));
    let other = vec![approve("ann", "T")];
    assert_eq!(verdict(&pack(found.clone(), other).sealed()), unresolved("R"));
    let refused = vec![receipt("ann", "S", SignoffDecision::Reject)];
    assert_eq!(verdict(&pack(found.clone(), refused).sealed()), unresolved("R"));
    let right = vec![approve("ann", "S")];
    assert_eq!(verdict(&pack(found, right).sealed()), Ok(()));
}

#[test]
fn spine_engines_never_approve() {
    for actor in ["engine", " ENGINE ", "Engine", "", "  "] {
        assert!(!approval_covers("engine", &approve(actor, "S"), "S"), "{actor:?}");
        let p = pack(vec![breach("R", "S")], vec![approve(actor, "S")]).sealed();
        assert_eq!(verdict(&p), unresolved("R"));
    }
    assert!(approval_covers("engine", &approve("ann", "S"), "S"));
}

#[test]
fn spine_warnings_need_no_receipts() {
    let note = Finding::note("N", Severity::Warn, "S", "m".to_string());
    assert_eq!(verdict(&pack(vec![note], vec![]).sealed()), Ok(()));
}

#[test]
fn spine_more_receipts_never_undo_an_approval() {
    let found = vec![breach("R", "S")];
    let receipts = vec![
        approve("ann", "S"),
        receipt("bob", "S", SignoffDecision::Reject),
        approve("engine", "S"),
    ];
    assert_eq!(verdict(&pack(found, receipts).sealed()), Ok(()));
}

#[test]
fn spine_first_unresolved_finding_is_named() {
    let p = pack(
        vec![breach("A", "S"), breach("B", "T"), breach("C", "T")],
        vec![approve("ann", "S")],
    );
    assert_eq!(first_unresolved_finding(&p).unwrap().rule_id, "B");
}

#[test]
fn spine_lock_steps() {
    let mut p = pack(vec![breach("R", "S")], vec![]);
    let state = advance_lock(LockState::Draft, &mut p).unwrap();
    assert_eq!(state, LockState::AwaitingSignoff);
    assert_eq!(
        advance_lock(state, &mut p),
        Err(LockError::UnresolvedBreach { rule_id: "R".to_string() })
    );
    assert_eq!(p.body_hash, "");
    p.signoffs.push(approve("ann", "S"));
    assert_eq!(advance_lock(state, &mut p), Ok(LockState::Signed));
    assert_eq!(verdict(&p), Ok(()));
    let signed = p.clone();
    let again = advance_lock(LockState::Signed, &mut p).unwrap_err();
    assert_eq!(again, LockError::InvalidTransition(LockState::Signed));
    assert_eq!(again.message(), "no transition leads out of signed");
    assert_eq!(p.body_hash, signed.body_hash);
    assert_eq!(p.seal(), signed.seal());
}

#[test]
fn spine_four_eyes_count_distinct_people() {
    assert!(!four_eyes_satisfied(&vec![]));
    assert!(!four_eyes_satisfied(&vec![approve("ann", "S")]));
    assert!(four_eyes_satisfied(&vec![approve("ann", "S"), approve("bob", "S")]));
}

#[test]
fn spine_findings_sort_by_subject_and_rule() {
    let sorted = sort_findings(vec![breach("B", "T"), breach("B", "S"), breach("A", "T")]);
    let keys: Vec<(&str, &str)> =
        sorted.iter().map(|f| (f.subject.as_str(), f.rule_id.as_str())).collect();
    assert_eq!(keys, vec![("S", "B"), ("T", "A"), ("T", "B")]);
    assert!(same_findings(&sorted, &sorted.clone()));
    assert!(!same_findings(&sorted, &vec![]));
    assert_eq!(count_findings(&sorted, Severity::Breach), 3);
    assert_eq!(count_findings(&sorted, Severity::Warn), 0);
}

#[test]
fn spine_errors_are_told() {
    assert_eq!(
        VerifyError::HashMismatch { field: "inputs" }.message(),
        "inputs hash does not match the presented bytes"
    );
    assert_eq!(
        VerifyError::UnresolvedBreach { rule_id: "R".to_string() }.message(),
        "finding R is unresolved: no approval covers its subject"
    );
    assert_eq!(
        VerifyError::ForeignVersion.message(),
        "pack was produced under a foreign spine version"
    );
    assert_eq!(
        VerifyError::BodyHashMismatch.message(),
        "body hash does not match the pack body"
    );
    assert_eq!(lock_label(LockState::AwaitingSignoff), "awaiting_signoff");
    assert_eq!(severity_label(Severity::Info), "info");
    assert_eq!(severity_word(Severity::Breach), "Breach");
}
