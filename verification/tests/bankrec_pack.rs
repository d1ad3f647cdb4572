//! Bank reconciliation: tables, inputs, packs, and explanations.

use control_spine::bankrec::config::{
    default_candidate_cap, default_date_window_days, default_max_group_size, default_stale_days,
    parse_config, BankrecConfig,
};
use control_spine::bankrec::engine::compute;
use control_spine::bankrec::inputs::{
    parse_inputs, LedgerEntry, LedgerSide, ReconciliationInputs, StatementLine,
};
use control_spine::bankrec::pack::{build_pack, explain, ComputeOutput, ENGINE_ID};
use control_spine::bankrec::{Error, TOOL_VERSION};
use control_spine::date::Date;
use control_spine::spine::{
    EvidencePack, Severity, Signoff, SignoffDecision, VerifyError, SPINE_VERSION,
};

/// What was read from a document, with its bytes.
struct Read<T> {
    value: T,
    bytes: Vec<u8>,
}

impl<T> std::ops::Deref for Read<T> {
    type Target = [u8];

    fn deref(&self) -> &[u8] {
        &self.bytes
    }
}

fn read<T: std::fmt::Debug>(value: T) -> Read<T> {
    let bytes = format!("{value:?}").into_bytes();
    Read { value, bytes }
}

fn config_bytes(tolerance: i64) -> Read<BankrecConfig> {
    read(BankrecConfig {
        tolerance_cents: tolerance,
        max_group_size: 5,
        stale_days: 14,
        many_to_one_candidate_cap: 100,
        many_to_one_date_window_days: None,
    })
}

fn statement(id: &str, date: &str, reference: &str, amount_cents: i128) -> StatementLine {
    StatementLine {
        id: id.to_string(),
        date: date.to_string(),
        reference: reference.to_string(),
        amount_cents,
    }
}

fn ledger(id: &str, date: &str, reference: &str, side: LedgerSide, amount_cents: i128) -> LedgerEntry {
    LedgerEntry {
        id: id.to_string(),
        date: date.to_string(),
        reference: reference.to_string(),
        side,
        amount_cents,
    }
}

fn inputs_bytes() -> Read<ReconciliationInputs> {
    // One clean exact match; one unmatched statement line dated 30 days
    // before the as-of date (stale → breach).
    read(ReconciliationInputs {
        statement_lines: vec![
            statement("S1", "2026-09-01", "WIRE-1", 125_000),
            statement("S2", "2026-08-23", "OLD-STMT", -40_000),
        ],
        ledger_entries: vec![ledger("L1", "2026-09-01", "WIRE-1", LedgerSide::Debit, 125_000)],
    })
}

fn as_of() -> Date {
    Date::from_ymd_opt(2026, 9, 22).unwrap()
}

fn signoff(actor: &str, subject: &str, decision: SignoffDecision) -> Signoff {
    Signoff {
        actor: actor.to_string(),
        role: "treasurer".to_string(),
        subject: subject.to_string(),
        decision,
        at: "2026-09-22T10:00:00Z".to_string(),
    }
}

fn compute_pack(
    inputs: &Read<ReconciliationInputs>,
    params: &Read<BankrecConfig>,
) -> EvidencePack {
    compute_pack_with(inputs, params, vec![])
}

/// The fixture's stale S2 line is a breach finding, so packs only verify
/// once a distinct human signoff naming `S2` is embedded (signoffs live
/// inside the sealed body).
fn signoffs_for_s2() -> Vec<Signoff> {
    vec![signoff("shyam", "S2", SignoffDecision::Approve)]
}

fn compute_pack_with(
    inputs: &Read<ReconciliationInputs>,
    params: &Read<BankrecConfig>,
    signoffs: Vec<Signoff>,
) -> EvidencePack {
    let validated = parse_inputs(&inputs.value).unwrap();
    let config = parse_config(params.value, "").unwrap();
    let report = compute(&validated, &config, as_of());
    build_pack(&report, ENGINE_ID, TOOL_VERSION, inputs, params, signoffs)
}

#[test]
fn pack_roundtrip_verifies_against_original_bytes() {
    let inputs = inputs_bytes();
    let params = config_bytes(500);
    let pack = compute_pack_with(&inputs, &params, signoffs_for_s2());
    assert_eq!(pack.spine_version, SPINE_VERSION);
    assert_eq!(pack.engine_id, ENGINE_ID);
    assert!(!pack.body_hash.is_empty());
    assert_eq!(pack.verify(&inputs, &params), Ok(()));

    // The output of a run holds the pack and still verifies.
    let validated = parse_inputs(&inputs.value).unwrap();
    let cfg = parse_config(params.value, "").unwrap();
    let report = compute(&validated, &cfg, as_of());
    let output = ComputeOutput {
        engine_id: ENGINE_ID.to_string(),
        tool_version: TOOL_VERSION.to_string(),
        as_of: as_of().text(),
        report: report.clone(),
        evidence_pack: pack.clone(),
    };
    let back: ComputeOutput = output.clone();
    assert_eq!(back.evidence_pack.verify(&inputs, &params), Ok(()));
    // The stale statement line is in the report as a breach finding.
    assert!(report
        .findings
        .iter()
        .any(|f| f.subject == "S2" && f.requires_signoff));
}

#[test]
fn pack_refuses_tampered_inputs() {
    let inputs = inputs_bytes();
    let params = config_bytes(500);
    let pack = compute_pack(&inputs, &params);

    // Same logical inputs, different bytes → refuse.
    let mut respaced: Vec<u8> = inputs.bytes.clone();
    respaced.push(b' ');
    assert_ne!(respaced, inputs.bytes);
    assert!(pack.verify(&respaced, &params).is_err());

    // Genuinely different inputs → refuse.
    let mut tampered = inputs_bytes().value;
    tampered.statement_lines[0].amount_cents = 125_001;
    let tampered = read(tampered);
    assert!(pack.verify(&tampered, &params).is_err());
}

#[test]
fn pack_refuses_config_change() {
    let inputs = inputs_bytes();
    let params = config_bytes(500);
    let pack = compute_pack_with(&inputs, &params, signoffs_for_s2());
    assert_eq!(pack.verify(&inputs, &params), Ok(()));
    assert!(pack.verify(&inputs, &config_bytes(501)).is_err());
}

#[test]
fn pack_refuses_body_tampering_after_seal() {
    let inputs = inputs_bytes();
    let params = config_bytes(500);
    let mut pack = compute_pack_with(&inputs, &params, signoffs_for_s2());
    assert_eq!(pack.verify(&inputs, &params), Ok(()));

    // Downgrade the stale breach to a warning after the fact — the seal
    // must break and verify must refuse even with original bytes.
    pack.findings.iter_mut().for_each(|f| {
        if f.subject == "S2" {
            f.severity = Severity::Warn;
            f.requires_signoff = false;
        }
    });
    assert_eq!(
        pack.verify(&inputs, &params),
        Err(VerifyError::BodyHashMismatch)
    );
}

#[test]
fn stale_breach_blocks_verify_until_subject_signoff() {
    let inputs = inputs_bytes();
    let params = config_bytes(500);

    let unsigned = compute_pack(&inputs, &params);
    assert_eq!(
        unsigned.verify(&inputs, &params),
        Err(VerifyError::UnresolvedBreach {
            rule_id: "stmt-unmatched".to_string()
        })
    );

    // Approval on the wrong subject does not resolve it. Signoffs live
    // inside the sealed body, so each variant is built and sealed with its
    // receipt embedded (spine::first_unresolved_finding checks the embedded
    // list; the body hash covers it).
    let wrong_subject = compute_pack_with(
        &inputs,
        &params,
        vec![signoff("shyam", "S1", SignoffDecision::Approve)],
    );
    assert!(wrong_subject.verify(&inputs, &params).is_err());

    // A distinct human approving the exact subject resolves the breach.
    let resolved = compute_pack_with(&inputs, &params, signoffs_for_s2());
    assert_eq!(resolved.verify(&inputs, &params), Ok(()));
}

#[test]
fn bankrec_engine_cannot_countersign_own_pack() {
    let inputs = inputs_bytes();
    let params = config_bytes(500);
    let validated = parse_inputs(&inputs.value).unwrap();
    let cfg = parse_config(params.value, "").unwrap();
    let report = compute(&validated, &cfg, as_of());

    let self_signed = build_pack(
        &report,
        ENGINE_ID,
        TOOL_VERSION,
        &inputs,
        &params,
        vec![signoff(
            ENGINE_ID,
            "S2",
            SignoffDecision::Approve,
        )],
    );
    assert!(self_signed.verify(&inputs, &params).is_err());
}


// --- tables ---

fn seeded(tolerance_cents: i64) -> BankrecConfig {
    BankrecConfig {
        tolerance_cents,
        max_group_size: default_max_group_size(),
        stale_days: default_stale_days(),
        many_to_one_candidate_cap: default_candidate_cap(),
        many_to_one_date_window_days: default_date_window_days(),
    }
}

#[test]
fn config_parses_full_table() {
    let cfg = parse_config(config_bytes(500).value, "").unwrap();
    assert_eq!(cfg.tolerance_cents, 500);
    assert_eq!(cfg.max_group_size, 5);
    assert_eq!(cfg.stale_days, 14);
    assert_eq!(cfg.many_to_one_candidate_cap, 100);
}

#[test]
fn config_defaults_apply_for_optional_fields() {
    let cfg = parse_config(seeded(0), "").unwrap();
    assert_eq!(cfg.max_group_size, 5);
    assert_eq!(cfg.stale_days, 14);
    assert_eq!(cfg.many_to_one_candidate_cap, 100);
}

#[test]
fn config_rejects_negative_tolerance() {
    assert!(matches!(parse_config(seeded(-1), ""), Err(Error::Config(_))));
}

#[test]
fn config_rejects_max_group_size_above_spec_limit() {
    let config = BankrecConfig { max_group_size: 6, ..seeded(0) };
    assert!(matches!(parse_config(config, ""), Err(Error::Config(_))));
}

#[test]
fn config_rejects_max_group_size_below_two() {
    let config = BankrecConfig { max_group_size: 1, ..seeded(0) };
    assert!(matches!(parse_config(config, ""), Err(Error::Config(_))));
}

#[test]
fn config_rejects_negative_stale_days() {
    let config = BankrecConfig { stale_days: -1, ..seeded(0) };
    assert!(matches!(parse_config(config, ""), Err(Error::Config(_))));
}

#[test]
fn config_rejects_zero_candidate_cap() {
    let config = BankrecConfig { many_to_one_candidate_cap: 0, ..seeded(0) };
    assert!(matches!(parse_config(config, ""), Err(Error::Config(_))));
}

#[test]
fn config_defaults_to_no_date_window() {
    let config = parse_config(seeded(0), "").unwrap();
    assert_eq!(config.many_to_one_date_window_days, None);
}

#[test]
fn config_rejects_negative_date_window() {
    let config = BankrecConfig { many_to_one_date_window_days: Some(-1), ..seeded(0) };
    assert!(matches!(parse_config(config, ""), Err(Error::Config(_))));
}

#[test]
fn bankrec_table_errors_carry_the_document() {
    let error = parse_config(seeded(-1), "{\"tolerance_cents\":-1}").unwrap_err();
    assert_eq!(
        error.message(),
        "config invalid: tolerance_cents must be >= 0 (full value: {\"tolerance_cents\":-1})"
    );
}

// --- inputs ---

fn one_pair() -> ReconciliationInputs {
    ReconciliationInputs {
        statement_lines: vec![statement("S1", "2026-09-01", "R1", 10000)],
        ledger_entries: vec![ledger("L1", "2026-09-01", "R1", LedgerSide::Debit, 10000)],
    }
}

#[test]
fn parse_inputs_accepts_well_formed_document() {
    let v = parse_inputs(&one_pair()).unwrap();
    assert_eq!(v.statements.len(), 1);
    assert_eq!(v.ledgers.len(), 1);
    assert_eq!(v.statements[0].amount, 10_000);
    // Debit to cash is canonical positive.
    assert_eq!(v.ledgers[0].amount, 10_000);
}

#[test]
fn ledger_credit_normalizes_to_negative() {
    let v = parse_inputs(&ReconciliationInputs {
        statement_lines: vec![],
        ledger_entries: vec![ledger("L1", "2026-09-01", "R1", LedgerSide::Credit, 7000)],
    })
    .unwrap();
    assert_eq!(v.ledgers[0].amount, -7_000);
}

#[test]
fn inputs_reject_zero_amount_statement_line() {
    let mut v = one_pair();
    v.statement_lines[0].amount_cents = 0;
    assert!(matches!(parse_inputs(&v), Err(Error::Inputs(_))));
}

#[test]
fn inputs_reject_nonpositive_ledger_magnitude() {
    let mut v = one_pair();
    v.ledger_entries[0].amount_cents = -5;
    assert!(matches!(parse_inputs(&v), Err(Error::Inputs(_))));
}

#[test]
fn inputs_reject_duplicate_ids_across_collections() {
    let mut v = one_pair();
    v.ledger_entries[0].id = "S1".to_string();
    assert!(matches!(parse_inputs(&v), Err(Error::Inputs(_))));
}

#[test]
fn inputs_reject_bad_date() {
    let mut v = one_pair();
    v.statement_lines[0].date = "09/01/2026".to_string();
    assert!(matches!(parse_inputs(&v), Err(Error::Inputs(_))));
}

// --- explanations ---

#[test]
fn bankrec_explain_lists_matches_and_findings() {
    let inputs = inputs_bytes();
    let params = config_bytes(500);
    let validated = parse_inputs(&inputs.value).unwrap();
    let report = compute(&validated, &params.value, as_of());
    let output = ComputeOutput {
        engine_id: ENGINE_ID.to_string(),
        tool_version: TOOL_VERSION.to_string(),
        as_of: as_of().text(),
        evidence_pack: compute_pack(&inputs, &params),
        report,
    };
    let text = explain(&output);
    assert!(text.contains("S1"), "{text}");
    assert!(text.contains("+1250.00"), "{text}");
    assert!(text.contains("stmt-unmatched"), "{text}");
    assert!(text.contains("2026-09-22"), "{text}");
}
