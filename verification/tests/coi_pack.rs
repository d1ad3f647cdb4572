//! Certificates of insurance: documents, packs, and receipts.

use control_spine::coi::cert::{Certificate, PolicyLine};
use control_spine::coi::config::{
    CarrierRating, CategoryRequirement, Coverage, CoverageRequirement, CoverageTable, Endorsement,
    RequirementsConfig,
};
use control_spine::coi::engine::{Evaluation, RULE_COVERAGE_EXPIRED};
use control_spine::coi::error::CoiError;
use control_spine::coi::pack::{
    build_pack, sign, summary, verification_message, SignOutcome, SignRequest,
};
use control_spine::coi::ENGINE_ID;
use control_spine::date::Date;
use control_spine::spine::{
    advance_lock, first_unresolved_finding, EvidencePack, LockError, LockState, Signoff,
    SignoffDecision, VerifyError,
};
use control_spine::table::Table;

/// Bytes that are a function of the value alone.
fn bytes_of<T: std::fmt::Debug>(value: &T) -> Vec<u8> {
    format!("{value:?}").into_bytes()
}

fn built(
    cert: &Certificate,
    cfg: &RequirementsConfig,
    as_of: Date,
) -> (EvidencePack, Evaluation) {
    build_pack(cert, cfg, as_of, &bytes_of(cert), &bytes_of(cfg))
}

fn date(y: i32, m: u32, d: u32) -> Date {
    Date::from_ymd_opt(y, m, d).expect("valid date")
}

fn config(critical: bool) -> RequirementsConfig {
    RequirementsConfig {
        categories: {
            let mut coverages = CoverageTable::new();
            coverages.insert(
                Coverage::GeneralLiability,
                CoverageRequirement {
                    per_occurrence_cents: 100_000_000,
                    aggregate_cents: 200_000_000,
                    endorsements: vec![Endorsement::AdditionalInsured],
                },
            );
            let mut categories = Table::new();
            categories.insert(
                "electrical_contractor".to_string(),
                CategoryRequirement { critical, coverages },
            );
            categories
        },
        expiry_warning_days: 30,
        min_carrier_rating: CarrierRating::AMinus,
    }
}

fn line(expiration: Date) -> PolicyLine {
    PolicyLine {
        policy_number: "GL-1".to_string(),
        carrier_name: "Seed Mutual".to_string(),
        carrier_rating: CarrierRating::AMinus,
        coverage: Coverage::GeneralLiability,
        per_occurrence_limit_cents: 100_000_000,
        aggregate_limit_cents: 200_000_000,
        effective_date: date(2026, 1, 1),
        expiration_date: expiration,
        endorsements: vec![Endorsement::AdditionalInsured],
    }
}

fn cert(expiration: Date, vendor: &str) -> Certificate {
    Certificate {
        vendor_id: vendor.to_string(),
        vendor_category: "electrical_contractor".to_string(),
        policies: vec![line(expiration)],
    }
}

fn approve(actor: &str, subject: &str) -> Signoff {
    Signoff {
        actor: actor.to_string(),
        role: "risk_manager".to_string(),
        subject: subject.to_string(),
        decision: SignoffDecision::Approve,
        at: "2026-09-22T15:04:05Z".to_string(),
    }
}

#[test]
fn clean_pack_signs_and_verifies_end_to_end() {
    let incoming = cert(date(2027, 6, 30), "V-1001");
    let cfg = config(true);
    let (mut pack, evaluation) = built(&incoming, &cfg, date(2026, 9, 22));
    assert!(evaluation.findings.is_empty());

    let inputs = bytes_of(&incoming);
    let params = bytes_of(&cfg);

    // Fail-closed before sealing: an unsealed pack refuses even with the
    // original inputs presented.
    assert_eq!(
        pack.verify(&inputs, &params),
        Err(VerifyError::BodyHashMismatch)
    );

    let state = advance_lock(LockState::Draft, &mut pack).unwrap();
    assert_eq!(state, LockState::AwaitingSignoff);
    let state = advance_lock(state, &mut pack).unwrap();
    assert_eq!(state, LockState::Signed);
    assert!(!pack.body_hash.is_empty());
    assert_eq!(pack.verify(&inputs, &params), Ok(()));
}

#[test]
fn breach_pack_blocks_signing_until_subject_scoped_signoff() {
    let incoming = cert(date(2026, 9, 21), "V-1001"); // expired the day before the clock
    let cfg = config(true);
    let as_of = date(2026, 9, 22);
    let (mut pack, evaluation) = built(&incoming, &cfg, as_of);
    assert!(!evaluation.findings.is_empty());

    let inputs = bytes_of(&incoming);
    let params = bytes_of(&cfg);

    // The seal is checked before signoff coverage (fail-closed order);
    // the breach gate itself is exercised via advance_lock below.
    assert_eq!(
        pack.verify(&inputs, &params),
        Err(VerifyError::BodyHashMismatch)
    );
    assert_eq!(
        advance_lock(LockState::AwaitingSignoff, &mut pack),
        Err(LockError::UnresolvedBreach {
            rule_id: RULE_COVERAGE_EXPIRED.to_string()
        })
    );

    // A receipt naming a different subject resolves nothing.
    pack.signoffs.push(approve("Reina Park", "V-9999"));
    assert!(first_unresolved_finding(&pack).is_some());

    // The subject-matched human approval resolves the breach.
    pack.signoffs.push(approve("Reina Park", "V-1001"));
    let state = advance_lock(LockState::Draft, &mut pack).unwrap();
    assert_eq!(advance_lock(state, &mut pack), Ok(LockState::Signed));
    assert_eq!(pack.verify(&inputs, &params), Ok(()));
}

#[test]
fn pack_engine_cannot_countersign_own_pack() {
    let incoming = cert(date(2026, 9, 21), "V-1001");
    let cfg = config(true);
    let (mut pack, _) = built(&incoming, &cfg, date(2026, 9, 22));
    let inputs = bytes_of(&incoming);
    let params = bytes_of(&cfg);

    // The producing engine's receipt is void — case-insensitively.
    pack.signoffs.push(approve(ENGINE_ID, "V-1001"));
    pack.signoffs.push(approve("COI-Spine", "V-1001"));
    assert!(first_unresolved_finding(&pack).is_some());

    // A distinct human receipt resolves.
    pack.signoffs.push(approve("Reina Park", "V-1001"));
    let state = advance_lock(LockState::Draft, &mut pack).unwrap();
    advance_lock(state, &mut pack).unwrap();
    assert_eq!(pack.verify(&inputs, &params), Ok(()));
}

#[test]
fn tampered_pack_fails_verify() {
    let incoming = cert(date(2026, 9, 21), "V-1001");
    let cfg = config(true);
    let (mut pack, _) = built(&incoming, &cfg, date(2026, 9, 22));
    pack.signoffs.push(approve("Reina Park", "V-1001"));
    let state = advance_lock(LockState::Draft, &mut pack).unwrap();
    advance_lock(state, &mut pack).unwrap();
    let inputs = bytes_of(&incoming);
    let params = bytes_of(&cfg);
    assert_eq!(pack.verify(&inputs, &params), Ok(()));

    // Message edit after sealing → seal refusal even with original inputs.
    pack.findings[0].message = "altered".to_string();
    assert_eq!(
        pack.verify(&inputs, &params),
        Err(VerifyError::BodyHashMismatch)
    );

    // Different inputs than the pack was computed on → provenance refusal.
    let other = cert(date(2026, 9, 21), "V-2002");
    let other_inputs = bytes_of(&other);
    let intact = built(&incoming, &cfg, date(2026, 9, 22)).0;
    let intact = {
        let mut p = intact;
        p.signoffs.push(approve("Reina Park", "V-1001"));
        let state = advance_lock(LockState::Draft, &mut p).unwrap();
        advance_lock(state, &mut p).unwrap();
        p
    };
    assert_eq!(
        intact.verify(&other_inputs, &params),
        Err(VerifyError::HashMismatch { field: "inputs" })
    );
}

#[test]
fn warn_only_pack_needs_no_receipts() {
    // Expiring within the window (warn, not breach): the pack signs with
    // zero receipts — warnings are advisory.
    let cert = cert(date(2026, 10, 10), "V-1001");
    let cfg = config(true);
    let (mut pack, evaluation) = built(&cert, &cfg, date(2026, 9, 22));
    assert!(!evaluation.findings.is_empty());
    assert!(evaluation.findings.iter().all(|f| !f.requires_signoff));

    let inputs = bytes_of(&cert);
    let params = bytes_of(&cfg);
    let state = advance_lock(LockState::Draft, &mut pack).unwrap();
    advance_lock(state, &mut pack).unwrap();
    assert_eq!(pack.verify(&inputs, &params), Ok(()));
}

#[test]
fn provenance_hashes_are_stable_across_whitespace_and_key_order() {
    let cert_a = cert(date(2027, 6, 30), "V-1001");
    let cert_b = Certificate::from_json_str(Ok(cert_a.clone())).expect("same content reparses");
    let cfg_a = config(true);
    let cfg_b = RequirementsConfig::from_json_str(Ok(cfg_a.clone())).unwrap();

    let (pack_a, _) = built(&cert_a, &cfg_a, date(2026, 9, 22));
    let (pack_b, _) = built(&cert_b, &cfg_b, date(2026, 9, 22));
    assert_eq!(pack_a.inputs_hash, pack_b.inputs_hash);
    assert_eq!(pack_a.params_hash, pack_b.params_hash);
    assert_eq!(pack_a.findings, pack_b.findings);
}

// ---- Documents --------------------------------------------------------------

fn typed_cert() -> Certificate {
    Certificate {
        vendor_id: "V-1001".to_string(),
        vendor_category: "electrical_contractor".to_string(),
        policies: vec![PolicyLine {
            policy_number: "GL-2026-001".to_string(),
            carrier_name: "Seed Mutual".to_string(),
            carrier_rating: CarrierRating::A,
            coverage: Coverage::GeneralLiability,
            per_occurrence_limit_cents: 100000000,
            aggregate_limit_cents: 200000000,
            effective_date: date(2026, 1, 1),
            expiration_date: date(2027, 12, 31),
            endorsements: vec![
                Endorsement::AdditionalInsured,
                Endorsement::WaiverOfSubrogation,
            ],
        }],
    }
}

fn unreadable<T>(message: &str) -> Result<T, String> {
    Err(message.to_string())
}

#[test]
fn typed_certificate_parses() {
    let cert = Certificate::from_json_str(Ok(typed_cert())).expect("seed certificate is valid");
    assert_eq!(cert.vendor_id, "V-1001");
    assert_eq!(cert.policies[0].carrier_rating, CarrierRating::A);
    assert_eq!(cert.policies[0].coverage, Coverage::GeneralLiability);
    assert_eq!(cert.policies[0].endorsements.len(), 2);
}

#[test]
fn cert_rejects_unknown_vocabulary_and_fields() {
    for message in [
        "unknown variant `hull`",
        "unknown variant `sole_proprietor`",
        "unknown variant `z`",
        "unknown field `vendor_notes`",
    ] {
        assert!(matches!(
            Certificate::from_json_str(unreadable(message)),
            Err(CoiError::Schema(_))
        ));
    }
    let mut duplicate = typed_cert();
    duplicate.policies[0].endorsements = vec![
        Endorsement::AdditionalInsured,
        Endorsement::AdditionalInsured,
    ];
    assert!(matches!(
        Certificate::from_json_str(Ok(duplicate)),
        Err(CoiError::MalformedCertificate(_))
    ));
}

#[test]
fn cert_rejects_bad_shapes() {
    let mut zero_limit = typed_cert();
    zero_limit.policies[0].per_occurrence_limit_cents = 0;
    assert!(matches!(
        Certificate::from_json_str(Ok(zero_limit)),
        Err(CoiError::MalformedCertificate(_))
    ));

    let mut inverted = typed_cert();
    inverted.policies[0].effective_date = date(2028, 1, 1);
    assert!(matches!(
        Certificate::from_json_str(Ok(inverted)),
        Err(CoiError::MalformedCertificate(_))
    ));

    let mut blank_vendor = typed_cert();
    blank_vendor.vendor_id = "   ".to_string();
    assert!(matches!(
        Certificate::from_json_str(Ok(blank_vendor)),
        Err(CoiError::MalformedCertificate(_))
    ));

    assert!(Date::parse("01/01/2026").is_none());
    assert!(matches!(
        Certificate::from_json_str(unreadable("input contains invalid characters")),
        Err(CoiError::Schema(_))
    ));
}

#[test]
fn cert_identifiers_are_trimmed() {
    let mut padded = typed_cert();
    padded.vendor_id = "  V-1001  ".to_string();
    let cert = Certificate::from_json_str(Ok(padded)).expect("padding is tolerated");
    assert_eq!(cert.vendor_id, "V-1001");
}

fn base_config() -> RequirementsConfig {
    let mut electrical = CoverageTable::new();
    electrical.insert(
        Coverage::GeneralLiability,
        CoverageRequirement {
            per_occurrence_cents: 100000000,
            aggregate_cents: 200000000,
            endorsements: vec![Endorsement::AdditionalInsured],
        },
    );
    electrical.insert(
        Coverage::WorkersComp,
        CoverageRequirement {
            per_occurrence_cents: 50000000,
            aggregate_cents: 50000000,
            endorsements: vec![],
        },
    );
    let mut landscaper = CoverageTable::new();
    landscaper.insert(
        Coverage::GeneralLiability,
        CoverageRequirement {
            per_occurrence_cents: 10000000,
            aggregate_cents: 20000000,
            endorsements: vec![],
        },
    );
    let mut categories = Table::new();
    categories.insert(
        "electrical_contractor".to_string(),
        CategoryRequirement { critical: true, coverages: electrical },
    );
    categories.insert(
        "landscaper".to_string(),
        CategoryRequirement { critical: false, coverages: landscaper },
    );
    RequirementsConfig {
        categories,
        expiry_warning_days: 30,
        min_carrier_rating: CarrierRating::AMinus,
    }
}

fn with_general_liability(requirement: CoverageRequirement) -> RequirementsConfig {
    let mut config = base_config();
    let mut category = config.categories.get("electrical_contractor").unwrap().clone();
    category.coverages.insert(Coverage::GeneralLiability, requirement);
    config.categories.insert("electrical_contractor".to_string(), category);
    config
}

#[test]
fn seed_config_parses_and_validates() {
    let cfg = RequirementsConfig::from_json_str(Ok(base_config())).expect("seed config is valid");
    assert_eq!(cfg.categories.len(), 2);
    assert_eq!(cfg.min_carrier_rating, CarrierRating::AMinus);
    assert!(cfg.categories.get("electrical_contractor").unwrap().critical);
    assert!(!cfg.categories.get("landscaper").unwrap().critical);
}

#[test]
fn config_rejects_unknown_fields_bad_values_and_duplicates() {
    assert!(matches!(
        RequirementsConfig::from_json_str(unreadable("unknown field `vendor_matching`")),
        Err(CoiError::Schema(_))
    ));

    let mut negative_window = base_config();
    negative_window.expiry_warning_days = -1;
    assert!(matches!(
        RequirementsConfig::from_json_str(Ok(negative_window)),
        Err(CoiError::InvalidConfig(_))
    ));

    let zero_limit = with_general_liability(CoverageRequirement {
        per_occurrence_cents: 0,
        aggregate_cents: 200000000,
        endorsements: vec![Endorsement::AdditionalInsured],
    });
    assert!(matches!(
        RequirementsConfig::from_json_str(Ok(zero_limit)),
        Err(CoiError::InvalidConfig(_))
    ));

    let duplicate = with_general_liability(CoverageRequirement {
        per_occurrence_cents: 100000000,
        aggregate_cents: 200000000,
        endorsements: vec![
            Endorsement::AdditionalInsured,
            Endorsement::AdditionalInsured,
        ],
    });
    assert!(matches!(
        RequirementsConfig::from_json_str(Ok(duplicate)),
        Err(CoiError::InvalidConfig(_))
    ));

    let mut empty_matrix = base_config();
    empty_matrix.categories = Table::new();
    assert!(matches!(
        RequirementsConfig::from_json_str(Ok(empty_matrix)),
        Err(CoiError::InvalidConfig(_))
    ));

    assert!(matches!(
        RequirementsConfig::from_json_str(unreadable("unknown variant `hull`")),
        Err(CoiError::Schema(_))
    ));

    let mut empty_coverages = base_config();
    empty_coverages.categories = Table::new();
    empty_coverages.categories.insert(
        "landscaper".to_string(),
        CategoryRequirement { critical: false, coverages: CoverageTable::new() },
    );
    assert!(RequirementsConfig::from_json_str(Ok(base_config())).is_ok());
    assert!(matches!(
        RequirementsConfig::from_json_str(Ok(empty_coverages)),
        Err(CoiError::InvalidConfig(_))
    ));
}

#[test]
fn config_is_canonical_and_key_trimmed() {
    let parsed = RequirementsConfig::from_json_str(Ok(base_config())).unwrap();
    let reparsed = RequirementsConfig::from_json_str(Ok(parsed.clone())).unwrap();
    assert_eq!(bytes_of(&parsed), bytes_of(&reparsed));
    assert_eq!(parsed, reparsed);

    let mut padded = base_config();
    let electrical = padded.categories.get("electrical_contractor").unwrap().clone();
    let landscaper = padded.categories.get("landscaper").unwrap().clone();
    padded.categories = Table::new();
    padded.categories.insert("  electrical_contractor  ".to_string(), electrical);
    padded.categories.insert("landscaper".to_string(), landscaper);
    let trimmed = RequirementsConfig::from_json_str(Ok(padded)).unwrap();
    assert!(trimmed.categories.contains_key("electrical_contractor"));
}

#[test]
fn coi_keys_that_agree_once_trimmed_keep_the_last_value() {
    let mut config = base_config();
    let mut other = config.categories.get("landscaper").unwrap().clone();
    other.critical = true;
    // A leading space sorts first, so the bare key is the last of the two.
    config.categories.insert(" landscaper".to_string(), other);
    let trimmed = config.normalize();
    assert_eq!(trimmed.categories.len(), 2);
    assert!(!trimmed.categories.get("landscaper").unwrap().critical);
}

#[test]
fn coi_refusals_read_well() {
    let mut wrong = typed_cert();
    wrong.policies[0].effective_date = date(2028, 1, 1);
    assert_eq!(
        Certificate::from_json_str(Ok(wrong)).unwrap_err().message(),
        "malformed certificate: policy[0]: effective_date 2028-01-01 is after expiration_date 2027-12-31"
    );
    let mut nameless = typed_cert();
    nameless.policies[0].carrier_name = " ".to_string();
    assert_eq!(
        Certificate::from_json_str(Ok(nameless)).unwrap_err().message(),
        "malformed certificate: policy[0]: carrier_name is blank"
    );
    assert_eq!(
        Certificate::from_json_str(unreadable("x")).unwrap_err().message(),
        "schema violation: certificate: x"
    );
    let zero = with_general_liability(CoverageRequirement {
        per_occurrence_cents: 1,
        aggregate_cents: 0,
        endorsements: vec![],
    });
    assert_eq!(
        RequirementsConfig::from_json_str(Ok(zero)).unwrap_err().message(),
        "invalid requirements config: category 'electrical_contractor' coverage general_liability: aggregate_cents must be positive"
    );
    assert_eq!(CoiError::Usage("u".to_string()).exit_code(), 2);
    assert_eq!(CoiError::Io("i".to_string()).exit_code(), 1);
    assert_eq!(CoiError::Io("i".to_string()).message(), "io: i");
}

// ---- Signing ------------------------------------------------------------------

fn request(actor: Option<&str>, subject: Option<&str>, decision: SignoffDecision) -> SignRequest {
    SignRequest {
        actor: actor.map(|a| a.to_string()),
        role: Some(" risk_manager ".to_string()),
        subject: subject.map(|s| s.to_string()),
        decision,
        at: Some("2026-09-22T15:04:05Z".to_string()),
    }
}

#[test]
fn coi_sign_follows_the_receipts() {
    let incoming = cert(date(2026, 9, 21), "V-1001");
    let cfg = config(true);
    let (mut pack, evaluation) = built(&incoming, &cfg, date(2026, 9, 22));
    assert_eq!(
        summary("V-1001", &evaluation),
        "coi-spine: vendor V-1001 — 1 breach finding(s), 1 warning(s); lockout recommended: yes; pack is unsealed and verifies only after signoff"
    );

    // Without a receipt the breach stands.
    let nothing = sign(&mut pack, request(None, None, SignoffDecision::Approve)).unwrap();
    assert_eq!(
        nothing,
        SignOutcome::Unresolved { rule_id: RULE_COVERAGE_EXPIRED.to_string() }
    );
    assert_eq!(nothing.exit_code(), 1);

    // An incomplete request is told what is missing, and changes nothing.
    let missing = sign(&mut pack, request(Some("Reina"), None, SignoffDecision::Approve));
    assert!(matches!(missing, Err(CoiError::Usage(_))));
    let blank = sign(&mut pack, request(Some("  "), Some("V-1001"), SignoffDecision::Approve));
    assert_eq!(blank, Err(CoiError::Usage("--actor must not be blank".to_string())));
    assert!(pack.signoffs.is_empty());

    // A rejection is recorded, and signs nothing.
    let rejected = sign(&mut pack, request(Some("Reina"), Some("V-1001"), SignoffDecision::Reject));
    assert_eq!(rejected, Ok(SignOutcome::Rejected));
    assert_eq!(pack.signoffs.len(), 1);
    assert!(pack.body_hash.is_empty());

    // The approval of the vendor signs and seals.
    let signed = sign(
        &mut pack,
        request(Some(" Reina Park "), Some(" V-1001 "), SignoffDecision::Approve),
    );
    assert_eq!(signed, Ok(SignOutcome::Signed));
    assert_eq!(pack.signoffs[1].actor, "Reina Park");
    assert_eq!(pack.signoffs[1].role, "risk_manager");
    let verified = pack.verify(&bytes_of(&incoming), &bytes_of(&cfg));
    assert_eq!(verified, Ok(()));
    assert_eq!(
        verification_message(&verified, pack.findings.len()),
        "coi-spine: pack verifies — seal, provenance hashes, and signoff coverage all hold (2 finding(s))"
    );

    // A sealed pack is immutable.
    let again = sign(&mut pack, request(None, None, SignoffDecision::Approve));
    assert!(matches!(again, Err(CoiError::Refused(_))));
}

#[test]
fn coi_outcomes_read_well() {
    assert_eq!(
        SignOutcome::Signed.message("ab"),
        "coi-spine: pack signed and sealed (body hash ab)"
    );
    assert!(SignOutcome::Rejected.message("").contains("rejection receipt recorded"));
    assert_eq!(
        SignOutcome::Unresolved { rule_id: "r".to_string() }.message(""),
        "coi-spine: pack NOT signed — unresolved finding on rule r; a subject-scoped approval or corrected inputs is required"
    );
    assert_eq!(
        verification_message(&Err(VerifyError::ForeignVersion), 0),
        "coi-spine: REFUSED — pack was produced under a foreign spine version"
    );
}
