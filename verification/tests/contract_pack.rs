//! Contract packs: signing, verification, and corrections.

use control_spine::contract_obligation::engine::evaluate;
use control_spine::contract_obligation::model::{
    DateSpec, ObligationRecord, ObligationType, PolicyParams, RegisterInputs, RollMode, SlaTier,
};
use control_spine::contract_obligation::pack::{
    build_pack, corrected_obligation_ids, finalize_lock, verify_pack, VerifyFailure, ENGINE_ID,
};
use control_spine::date::Date;
use control_spine::spine::{
    EvidencePack, Finding, LockState, Severity, Signoff, SignoffDecision, VerifyError,
};
use control_spine::table::Table;

/// Bytes that are a function of the value alone.
fn bytes_of<T: std::fmt::Debug>(value: &T) -> Vec<u8> {
    format!("{value:?}").into_bytes()
}

fn built(
    findings: Vec<Finding>,
    register: &RegisterInputs,
    params: &PolicyParams,
    signoffs: Vec<Signoff>,
) -> EvidencePack {
    build_pack(findings, &bytes_of(register), &bytes_of(params), signoffs)
}

fn verified(
    pack: &EvidencePack,
    register: &RegisterInputs,
    params: &PolicyParams,
) -> Result<(), VerifyFailure> {
    verify_pack(pack, register, &bytes_of(register), &bytes_of(params))
}

fn d(y: i32, m: u32, day: u32) -> Date {
    Date::from_ymd_opt(y, m, day).expect("valid test date")
}

fn clock() -> Date {
    d(2026, 9, 22)
}

fn params() -> PolicyParams {
    PolicyParams {
        warn_days_before_due: 10,
        warn_days_before_optout: 14,
        business_day_roll: RollMode::Raw,
        calendars: Table::new(),
        sla_credit_tiers: vec![SlaTier {
            min_uptime_bp: 9900,
            credit_bp: 100,
        }],
    }
}

fn payment(due: Date) -> ObligationRecord {
    ObligationRecord {
        id: "O-PAY".to_string(),
        version: 1,
        supersedes: None,
        counterparty: "Acme Corp".to_string(),
        obligation_type: ObligationType::Payment,
        jurisdiction: None,
        due: Some(DateSpec::Explicit { date: due }),
        amount_cents: Some(1_000_000),
        satisfied_on: None,
        completed_on: None,
        renewal: None,
        sla: None,
        sla_measurements: vec![],
    }
}

fn inputs(records: Vec<ObligationRecord>) -> RegisterInputs {
    RegisterInputs {
        obligations: records,
    }
}

fn signoff(actor: &str, subject: &str) -> Signoff {
    Signoff {
        actor: actor.to_string(),
        role: "controller".to_string(),
        subject: subject.to_string(),
        decision: SignoffDecision::Approve,
        at: "2026-09-22T12:00:00Z".to_string(),
    }
}

/// Overdue payment at the clock: exactly one breach finding.
fn breached_pack() -> EvidencePack {
    let reg = inputs(vec![payment(d(2026, 9, 21))]);
    let ev = evaluate(&reg, &params(), clock()).expect("valid register");
    built(ev.findings, &reg, &params(), vec![])
}

/// Clean register: due far in the future, zero findings.
fn clean_pack() -> EvidencePack {
    let reg = inputs(vec![payment(d(2026, 12, 1))]);
    let ev = evaluate(&reg, &params(), clock()).expect("valid register");
    assert!(ev.findings.is_empty());
    built(ev.findings, &reg, &params(), vec![])
}

#[test]
fn clean_pack_signs_and_verifies() {
    let (pack, state) = finalize_lock(clean_pack());
    assert_eq!(state, LockState::Signed);
    assert!(verified(&pack, &inputs(vec![payment(d(2026, 12, 1))]), &params()).is_ok());
}

#[test]
fn breach_pack_awaits_signoff_and_verify_refuses() {
    let (pack, state) = finalize_lock(breached_pack());
    assert_eq!(state, LockState::AwaitingSignoff);
    let err = verified(&pack, &inputs(vec![payment(d(2026, 9, 21))]), &params())
        .expect_err("unresolved breach must refuse");
    assert!(matches!(
        err,
        VerifyFailure::Spine(VerifyError::UnresolvedBreach { .. })
    ));
}

#[test]
fn breach_resolves_only_with_a_signoff_on_the_finding_subject() {
    // Signoff naming the breach subject: the pack signs and verifies.
    let reg = inputs(vec![payment(d(2026, 9, 21))]);
    let ev = evaluate(&reg, &params(), clock()).expect("valid register");
    let (pack, state) = finalize_lock(built(ev.findings, &reg, &params(),
        vec![signoff("sam", "O-PAY")],
    ));
    assert_eq!(state, LockState::Signed);
    assert!(verified(&pack, &reg, &params()).is_ok());

    // The same signoff on the wrong subject leaves the breach unresolved.
    let reg2 = inputs(vec![payment(d(2026, 9, 21))]);
    let ev2 = evaluate(&reg2, &params(), clock()).expect("valid register");
    let (pack_wrong, state_wrong) = finalize_lock(built(ev2.findings, &reg2, &params(),
        vec![signoff("sam", "O-OTHER")],
    ));
    assert_eq!(state_wrong, LockState::AwaitingSignoff);
    let err = verified(&pack_wrong, &reg2, &params())
        .expect_err("signoff on the wrong subject must not resolve the breach");
    assert!(matches!(
        err,
        VerifyFailure::Spine(VerifyError::UnresolvedBreach { .. })
    ));
}

#[test]
fn the_engine_cannot_countersign_its_own_pack() {
    let reg = inputs(vec![payment(d(2026, 9, 21))]);
    let ev = evaluate(&reg, &params(), clock()).expect("valid register");
    let pack = built(ev.findings, &reg, &params(),
        vec![signoff(ENGINE_ID, "O-PAY")],
    );
    let (pack, state) = finalize_lock(pack);
    // The engine-identity approval is void: the pack cannot reach Signed.
    assert_eq!(state, LockState::AwaitingSignoff);
    assert!(verified(&pack, &reg, &params()).is_err());
}

#[test]
fn tampered_inputs_refuse_verification() {
    let (pack, _) = finalize_lock(clean_pack());
    let modified = inputs(vec![payment(d(2026, 12, 15))]); // different due
    let err = verified(&pack, &modified, &params()).expect_err("must refuse");
    assert!(matches!(
        err,
        VerifyFailure::Spine(VerifyError::HashMismatch { field: "inputs" })
    ));
}

#[test]
fn tampered_params_refuse_verification() {
    let (pack, _) = finalize_lock(clean_pack());
    let mut modified = params();
    modified.warn_days_before_due = 30;
    let err = verified(&pack, &inputs(vec![payment(d(2026, 12, 1))]), &modified)
        .expect_err("must refuse");
    assert!(matches!(
        err,
        VerifyFailure::Spine(VerifyError::HashMismatch { field: "params" })
    ));
}

#[test]
fn tampered_findings_refuse_verification_via_the_body_seal() {
    let (mut pack, _) = finalize_lock(clean_pack());
    pack.findings.push(Finding {
        rule_id: "smuggled".to_string(),
        severity: Severity::Warn,
        subject: "O-PAY".to_string(),
        message: "smuggled finding".to_string(),
        requires_signoff: false,
    });
    let err = verified(&pack, &inputs(vec![payment(d(2026, 12, 1))]), &params())
        .expect_err("body tampering must refuse");
    assert!(matches!(
        err,
        VerifyFailure::Spine(VerifyError::BodyHashMismatch)
    ));
}

#[test]
fn a_corrected_register_requires_four_eyes_signoff() {
    // A register whose O-PAY record corrects version 1: one approval is
    // not enough to verify a pack over it.
    let mut v2 = payment(d(2026, 12, 1));
    v2.version = 2;
    v2.supersedes = Some(1);
    let reg = inputs(vec![payment(d(2026, 12, 1)), v2]);
    let ev = evaluate(&reg, &params(), clock()).expect("valid register");
    let (pack, state) = finalize_lock(built(ev.findings, &reg, &params(),
        vec![signoff("sam", "O-PAY")],
    ));
    assert_eq!(state, LockState::Signed);
    let err = verified(&pack, &reg, &params()).expect_err("one approval is not four-eyes");
    assert!(
        matches!(err, VerifyFailure::FourEyes { obligation_id } if obligation_id == "O-PAY")
    );

    // Two distinct approving signers satisfy four-eyes.
    let reg2 = inputs(vec![payment(d(2026, 12, 1)), {
        let mut v = payment(d(2026, 12, 1));
        v.version = 2;
        v.supersedes = Some(1);
        v
    }]);
    let ev2 = evaluate(&reg2, &params(), clock()).expect("valid register");
    let (pack2, _) = finalize_lock(built(ev2.findings, &reg2, &params(),
        vec![signoff("sam", "O-PAY"), signoff("maya", "O-PAY")],
    ));
    assert!(verified(&pack2, &reg2, &params()).is_ok());
}

#[test]
fn canonical_bytes_are_identical_for_equal_registers() {
    // Two registers built fresh (not cloned) with equal content hash to
    // the same bytes; a content change changes the hash.
    let a = bytes_of(&inputs(vec![payment(d(2026, 12, 1))]));
    let b = bytes_of(&inputs(vec![payment(d(2026, 12, 1))]));
    assert_eq!(a, b);
    let c = bytes_of(&inputs(vec![payment(d(2026, 12, 2))]));
    assert_ne!(a, c);
}

#[test]
fn contract_corrections_are_listed_once() {
    let mut v2 = payment(d(2026, 12, 1));
    v2.version = 2;
    v2.supersedes = Some(1);
    let mut v3 = payment(d(2026, 12, 1));
    v3.version = 3;
    v3.supersedes = Some(2);
    let reg = inputs(vec![payment(d(2026, 12, 1)), v2, v3]);
    assert_eq!(corrected_obligation_ids(&reg), vec!["O-PAY".to_string()]);
}

#[test]
fn contract_verify_failures_read_well() {
    let failure = VerifyFailure::FourEyes { obligation_id: "O-PAY".to_string() };
    assert!(failure.message().contains("O-PAY"), "{}", failure.message());
    let failure = VerifyFailure::Spine(VerifyError::BodyHashMismatch);
    assert!(failure.message().contains("body hash"), "{}", failure.message());
}
