//! Commission documents: computing, receipts, sealing, verification.

use control_spine::commission::config::{Band, BandMode, PlanConfig, PlanVersion, RoleWeight};
use control_spine::commission::engine::EngineError;
use control_spine::commission::evidence;
use control_spine::commission::evidence::{
    advance_lock, append_signoff, ComputeError, EvidenceDocument, SignoffError, VerifyFailure,
};
use control_spine::commission::input::{Credit, Transaction, TransactionsFile, TxnKind};
use control_spine::date::Date;
use control_spine::spine::{LockError, LockState, Signoff, SignoffDecision, VerifyError};

/// What was read from a document, with its bytes.
struct Read<T> {
    value: Result<T, String>,
    bytes: Vec<u8>,
}

impl<T> std::ops::Deref for Read<T> {
    type Target = [u8];

    fn deref(&self) -> &[u8] {
        &self.bytes
    }
}

fn read<T: std::fmt::Debug>(value: T) -> Read<T> {
    let bytes = format!("{value:?}").into_bytes();
    Read { value: Ok(value), bytes }
}

fn compute_document(
    plan: &Read<PlanConfig>,
    txns: &Read<TransactionsFile>,
    engine_id: &str,
) -> Result<EvidenceDocument, ComputeError> {
    evidence::compute_document(&plan.value, &txns.value, plan, txns, engine_id)
}

fn verify_document(
    doc: &EvidenceDocument,
    plan: &Read<PlanConfig>,
    txns: &Read<TransactionsFile>,
) -> Result<(), VerifyFailure> {
    evidence::verify_document(doc, &plan.value, &txns.value, plan, txns)
}

fn date(s: &str) -> Date {
    Date::parse(s).expect("valid date")
}

fn plan_bytes() -> Read<PlanConfig> {
    let plan = PlanConfig {
        plan_id: "fy26".to_string(),
        versions: vec![PlanVersion {
            version: 1,
            effective_from: date("2026-01-01"),
            effective_to: None,
            quota_cents: 1_000_000,
            band_mode: BandMode::Marginal,
            bands: vec![
                Band {
                    up_to_ppm: Some(1_000_000),
                    rate_bps: 200,
                },
                Band {
                    up_to_ppm: None,
                    rate_bps: 500,
                },
            ],
            windfall_cap_ppm: None,
            max_spread_bps: None,
            role_weights: vec![RoleWeight {
                role: "ae".to_string(),
                weight_bps: 10_000,
            }],
        }],
    };
    read(plan)
}

fn txn_bytes() -> Read<TransactionsFile> {
    let file = TransactionsFile {
        transactions: vec![Transaction {
            transaction_id: "T1".to_string(),
            date: date("2026-02-01"),
            amount_cents: 1_000_000,
            kind: TxnKind::Sale,
            original_transaction_id: None,
            credits: vec![Credit {
                rep_id: "rep-1".to_string(),
                role: "ae".to_string(),
                priority: 1,
            }],
        }],
    };
    read(file)
}

fn clawback_bytes() -> Read<TransactionsFile> {
    let file = TransactionsFile {
        transactions: vec![
            Transaction {
                transaction_id: "T1".to_string(),
                date: date("2026-02-01"),
                amount_cents: 2_000_000,
                kind: TxnKind::Sale,
                original_transaction_id: None,
                credits: vec![Credit {
                    rep_id: "rep-1".to_string(),
                    role: "ae".to_string(),
                    priority: 1,
                }],
            },
            Transaction {
                transaction_id: "T2".to_string(),
                date: date("2026-03-01"),
                amount_cents: 500_000,
                kind: TxnKind::Return,
                original_transaction_id: Some("T1".to_string()),
                credits: Vec::new(),
            },
        ],
    };
    read(file)
}

fn signoff(actor: &str, subject: &str) -> Signoff {
    Signoff {
        actor: actor.to_string(),
        role: "controller".to_string(),
        subject: subject.to_string(),
        decision: SignoffDecision::Approve,
        at: "2026-09-22T00:00:00Z".to_string(),
    }
}

#[test]
fn clean_compute_seals_and_verifies() {
    let doc =
        compute_document(&plan_bytes(), &txn_bytes(), "commission-spine").expect("computes");
    assert_eq!(doc.lock_state, LockState::Draft);
    assert_eq!(doc.pack.verify(&txn_bytes(), &plan_bytes()), Ok(()));
}

#[test]
fn empty_engine_id_is_refused() {
    assert!(matches!(
        compute_document(&plan_bytes(), &txn_bytes(), "  "),
        Err(ComputeError::EmptyEngineId)
    ));
}

#[test]
fn tampered_findings_break_the_seal() {
    let mut doc = compute_document(&plan_bytes(), &clawback_bytes(), "commission-spine")
        .expect("computes");
    doc.pack.findings[0].message = "tampered".to_string();
    assert_eq!(
        doc.pack.verify(&clawback_bytes(), &plan_bytes()),
        Err(VerifyError::BodyHashMismatch)
    );
}

#[test]
fn altered_inputs_are_refused() {
    let doc =
        compute_document(&plan_bytes(), &txn_bytes(), "commission-spine").expect("computes");
    assert_eq!(
        doc.pack.verify(b"tampered", &plan_bytes()),
        Err(VerifyError::HashMismatch { field: "inputs" })
    );
    assert_eq!(
        doc.pack.verify(&txn_bytes(), b"tampered"),
        Err(VerifyError::HashMismatch { field: "params" })
    );
}

#[test]
fn verify_document_reproduces_and_accepts_a_clean_pack() {
    let plan = plan_bytes();
    let txns = txn_bytes();
    let doc = compute_document(&plan, &txns, "commission-spine").expect("computes");
    assert_eq!(verify_document(&doc, &plan, &txns), Ok(()));
}

#[test]
fn verify_document_refuses_diverging_inputs() {
    let doc =
        compute_document(&plan_bytes(), &txn_bytes(), "commission-spine").expect("computes");
    // Different transactions: the re-run diverges from the pack.
    let result = verify_document(&doc, &plan_bytes(), &clawback_bytes());
    assert!(matches!(result, Err(VerifyFailure::FindingsDiverged)));
}

#[test]
fn breach_pack_refuses_until_the_named_subject_is_approved() {
    let plan = plan_bytes();
    let txns = clawback_bytes();
    let mut doc = compute_document(&plan, &txns, "commission-spine").expect("computes");
    assert_eq!(
        doc.pack.verify(&txns, &plan),
        Err(VerifyError::UnresolvedBreach {
            rule_id: "CLAWBACK".to_string()
        })
    );
    // Wrong subject resolves nothing.
    append_signoff(&mut doc, signoff("sam", "txn:OTHER")).expect_err("unknown subject");
    assert_eq!(
        doc.pack.verify(&txns, &plan),
        Err(VerifyError::UnresolvedBreach {
            rule_id: "CLAWBACK".to_string()
        })
    );
    // The right subject resolves the breach.
    append_signoff(&mut doc, signoff("sam", "txn:T2")).expect("subject matches");
    assert_eq!(doc.pack.verify(&txns, &plan), Ok(()));
}

#[test]
fn engine_cannot_countersign_its_own_pack() {
    let plan = plan_bytes();
    let txns = clawback_bytes();
    let mut doc = compute_document(&plan, &txns, "commission-spine").expect("computes");
    append_signoff(&mut doc, signoff("commission-spine", "txn:T2")).expect("subject matches");
    assert!(doc.pack.verify(&txns, &plan).is_err());
}

#[test]
fn signed_documents_are_immutable() {
    let plan = plan_bytes();
    let txns = clawback_bytes();
    let mut doc = compute_document(&plan, &txns, "commission-spine").expect("computes");
    append_signoff(&mut doc, signoff("sam", "txn:T2")).expect("signs");
    // The first signature submits the pack for review...
    assert_eq!(doc.lock_state, LockState::AwaitingSignoff);
    // ...and one seal step completes it (the finding is resolved).
    assert_eq!(advance_lock(&mut doc), Ok(LockState::Signed));
    assert_eq!(doc.pack.verify(&txns, &plan), Ok(()));
    // Immutability: no further signoffs on a Signed document.
    assert_eq!(
        append_signoff(&mut doc, signoff("quinn", "txn:T2")),
        Err(SignoffError::SignedIsImmutable)
    );
    // Any body tampering breaks the seal.
    let mut tampered = doc.clone();
    tampered.pack.signoffs[0].actor = "someone-else".to_string();
    assert_eq!(
        tampered.pack.verify(&txns, &plan),
        Err(VerifyError::BodyHashMismatch)
    );
}

#[test]
fn lock_blocks_signing_while_a_breach_is_unresolved() {
    let plan = plan_bytes();
    let txns = clawback_bytes();
    let mut doc = compute_document(&plan, &txns, "commission-spine").expect("computes");
    assert_eq!(advance_lock(&mut doc), Ok(LockState::AwaitingSignoff));
    assert!(matches!(
        advance_lock(&mut doc),
        Err(LockError::UnresolvedBreach { .. })
    ));
    append_signoff(&mut doc, signoff("sam", "txn:T2")).expect("signs");
    assert_eq!(advance_lock(&mut doc), Ok(LockState::Signed));
}

#[test]
fn commission_unreadable_documents_are_told_in_order() {
    let plan = plan_bytes();
    let txns = txn_bytes();
    let no_plan: Result<PlanConfig, String> = Err("no plan".to_string());
    let no_txns: Result<TransactionsFile, String> = Err("no transactions".to_string());
    let both = evidence::compute_document(&no_plan, &no_txns, &plan, &txns, "e").map(|_| ());
    assert_eq!(both, Err(ComputeError::PlanJson("no plan".to_string())));
    let one = evidence::compute_document(&plan.value, &no_txns, &plan, &txns, "e").map(|_| ());
    assert_eq!(one, Err(ComputeError::TransactionsJson("no transactions".to_string())));
    assert_eq!(one.unwrap_err().message(), "transactions JSON: no transactions");
}

#[test]
fn commission_receipts_are_checked_before_they_are_recorded() {
    let plan = plan_bytes();
    let txns = clawback_bytes();
    let mut doc = compute_document(&plan, &txns, " commission-spine ").expect("computes");
    assert_eq!(doc.pack.engine_id, "commission-spine");
    assert_eq!(
        append_signoff(&mut doc, signoff(" ", "txn:T2")),
        Err(SignoffError::EmptyActor)
    );
    let mut nameless = signoff("sam", "txn:T2");
    nameless.role = String::new();
    assert_eq!(append_signoff(&mut doc, nameless), Err(SignoffError::EmptyRole));
    assert_eq!(doc.lock_state, LockState::Draft);
    assert_eq!(
        SignoffError::UnknownSubject("a\"b".to_string()).message(),
        "signoff subject \"a\\\"b\" names no finding in this pack"
    );
    let blocked = LockError::UnresolvedBreach {
        rule_id: "CLAWBACK".to_string(),
    };
    assert_eq!(
        SignoffError::from(blocked.clone()).message(),
        format!("lock: {}", blocked.message())
    );
}

fn sales_of(amounts: &[i128]) -> Read<TransactionsFile> {
    let transactions = amounts
        .iter()
        .enumerate()
        .map(|(i, amount)| Transaction {
            transaction_id: format!("T{i}"),
            date: date("2026-02-01"),
            amount_cents: *amount,
            kind: TxnKind::Sale,
            original_transaction_id: None,
            credits: vec![Credit {
                rep_id: "rep-1".to_string(),
                role: "ae".to_string(),
                priority: 1,
            }],
        })
        .collect();
    read(TransactionsFile { transactions })
}

#[test]
fn commission_products_out_of_range_are_refused() {
    // The first split fails, so no sum is formed.
    let answer = compute_document(&plan_bytes(), &sales_of(&[i128::MAX, i128::MAX]), "e");
    assert!(matches!(
        answer,
        Err(ComputeError::Engine(EngineError::ArithmeticOverflow { what: "split share" }))
    ));
}

#[test]
fn commission_sums_out_of_range_are_told() {
    let mut plan = plan_bytes();
    plan.value.as_mut().unwrap().versions[0].role_weights = vec![
        RoleWeight { role: "ae".to_string(), weight_bps: 1 },
        RoleWeight { role: "se".to_string(), weight_bps: 9_999 },
    ];
    let txns = sales_of(&[i128::MAX, 1]);
    let doc = compute_document(&plan_bytes(), &txn_bytes(), "e").expect("computes");
    assert!(evidence::try_compute_document(&plan.value, &txns.value, &plan, &txns, "e").is_none());
    assert!(
        evidence::try_verify_document(&doc, &plan.value, &txns.value, &plan, &txns).is_none()
    );
    // A blank engine id is refused before anything is run.
    assert!(matches!(
        evidence::try_compute_document(&plan.value, &txns.value, &plan, &txns, " "),
        Some(Err(ComputeError::EmptyEngineId))
    ));
}
