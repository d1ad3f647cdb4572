//! Access recertification: rules, boundaries, validation, packs, and
//! verification.

use control_spine::access_recert::engine::{
    evaluate, RULE_LEAVER_ACTIVE, RULE_ORPHAN_MANAGER, RULE_ORPHAN_SYSTEM,
    RULE_PRIVILEGED_FOUR_EYES, RULE_QUARANTINE, RULE_STALE_AUTH,
};
use control_spine::access_recert::explain::render_explain;
use control_spine::access_recert::model::{
    validate, CampaignInput, EntitlementRecord, IdentityRecord, RecertConfig, SystemRecord,
};
use control_spine::access_recert::pack::{
    build_pack, first_unresolved_finding_strict, verify_pack, PackDocument, PackVerificationError,
};
use control_spine::date::Date;
use control_spine::spine::{
    sha256_hex, EvidencePack, Finding, LockState, Severity, Signoff, SignoffDecision, VerifyError,
    SPINE_VERSION,
};

const ENGINE: &str = "access-recert-spine";
const CAMPAIGN_DATE: &str = "2026-09-22";

/// Parse a `YYYY-MM-DD` test date.
fn d(value: &str) -> Date {
    Date::parse(value).expect("valid YYYY-MM-DD test date")
}

/// An identity with a resolvable manager of record (E-MGR) and a fresh
/// authentication history — override fields per scenario.
fn identity(employee_id: &str) -> IdentityRecord {
    IdentityRecord {
        employee_id: employee_id.to_string(),
        email: format!("{employee_id}@corp.example"),
        display_name: format!("identity {employee_id}"),
        manager_id: Some("E-MGR".to_string()),
        hire_date: d("2020-01-01"),
        separation_date: None,
    }
}

fn system(system_id: &str) -> SystemRecord {
    SystemRecord {
        system_id: system_id.to_string(),
        display_name: format!("system {system_id}"),
    }
}

fn one_system() -> Vec<SystemRecord> {
    vec![system("github")]
}

/// A clean entitlement: managed system, existing identity, fresh auth.
fn entitlement(entitlement_id: &str) -> EntitlementRecord {
    EntitlementRecord {
        entitlement_id: entitlement_id.to_string(),
        system_id: "github".to_string(),
        employee_id: "E-1".to_string(),
        email: "one@corp.example".to_string(),
        entitlement_key: format!("repo:acme/{entitlement_id}"),
        privileged: false,
        granted_at: d("2025-01-01"),
        last_authenticated_at: Some(d("2026-09-01")),
    }
}

fn campaign(
    identities: Vec<IdentityRecord>,
    entitlements: Vec<EntitlementRecord>,
) -> CampaignInput {
    CampaignInput {
        campaign_id: "2026-Q3".to_string(),
        campaign_date: d(CAMPAIGN_DATE),
        identities,
        systems: one_system(),
        entitlements,
        retention_approvals: Vec::new(),
    }
}

fn config() -> RecertConfig {
    RecertConfig {
        stale_days: 90,
        new_hire_grace_days: 30,
    }
}

fn approval(actor: &str, subject: &str, decision: SignoffDecision) -> Signoff {
    Signoff {
        actor: actor.to_string(),
        role: "manager".to_string(),
        subject: subject.to_string(),
        decision,
        at: "2026-09-20T10:00:00Z".to_string(),
    }
}

fn rule_ids(findings: &[Finding]) -> Vec<&str> {
    findings.iter().map(|f| f.rule_id.as_str()).collect()
}

// ---- Leaver rule ---------------------------------------------------------

#[test]
fn leaver_with_active_entitlement_is_breach() {
    let mut leaver = identity("E-1");
    leaver.separation_date = Some(d("2026-03-01"));
    let findings = evaluate(
        &campaign(vec![identity("E-MGR"), leaver], vec![entitlement("ENT-1")]),
        &config(),
        ENGINE,
    );
    assert_eq!(findings.len(), 1);
    assert_eq!(findings[0].rule_id, RULE_LEAVER_ACTIVE);
    assert_eq!(findings[0].severity, Severity::Breach);
    assert_eq!(findings[0].subject, "ENT-1");
    assert!(findings[0].requires_signoff);
}

#[test]
fn separation_day_before_campaign_is_leaver() {
    let mut leaver = identity("E-1");
    leaver.separation_date = Some(d("2026-09-21"));
    let findings = evaluate(
        &campaign(vec![identity("E-MGR"), leaver], vec![entitlement("ENT-1")]),
        &config(),
        ENGINE,
    );
    assert_eq!(rule_ids(&findings), vec![RULE_LEAVER_ACTIVE]);
}

#[test]
fn separation_on_campaign_date_is_not_yet_leaver() {
    let mut departing = identity("E-1");
    departing.separation_date = Some(d(CAMPAIGN_DATE));
    let findings = evaluate(
        &campaign(
            vec![identity("E-MGR"), departing],
            vec![entitlement("ENT-1")],
        ),
        &config(),
        ENGINE,
    );
    assert!(findings.is_empty());
}

#[test]
fn separation_after_campaign_is_not_leaver() {
    let mut departing = identity("E-1");
    departing.separation_date = Some(d("2026-10-01"));
    let findings = evaluate(
        &campaign(
            vec![identity("E-MGR"), departing],
            vec![entitlement("ENT-1")],
        ),
        &config(),
        ENGINE,
    );
    assert!(findings.is_empty());
}

#[test]
fn separated_identity_without_entitlements_is_silent() {
    let mut leaver = identity("E-1");
    leaver.separation_date = Some(d("2026-01-01"));
    let findings = evaluate(
        &campaign(vec![identity("E-MGR"), leaver], vec![]),
        &config(),
        ENGINE,
    );
    assert!(findings.is_empty());
}

// ---- Identity matching: employee_id, never email -------------------------

#[test]
fn recycled_email_is_never_used_to_match_identities() {
    // The leaver's mailbox is recycled to a new hire. Matching by email
    // would misattribute; matching by employee_id must not.
    let mut leaver = identity("E-OLD");
    leaver.email = "shared@corp.example".to_string();
    leaver.separation_date = Some(d("2026-01-01"));

    let mut hire = identity("E-NEW");
    hire.email = "shared@corp.example".to_string();
    hire.hire_date = d("2026-06-01");

    let mut new_hire_entitlement = entitlement("ENT-NEW");
    new_hire_entitlement.employee_id = "E-NEW".to_string();
    new_hire_entitlement.email = "shared@corp.example".to_string();
    let mut leaver_entitlement = entitlement("ENT-OLD");
    leaver_entitlement.employee_id = "E-OLD".to_string();
    leaver_entitlement.email = "shared@corp.example".to_string();

    let findings = evaluate(
        &campaign(
            vec![identity("E-MGR"), leaver, hire],
            vec![new_hire_entitlement, leaver_entitlement],
        ),
        &config(),
        ENGINE,
    );
    // Only the leaver's own entitlement is flagged; the new hire's is not.
    assert_eq!(findings.len(), 1);
    assert_eq!(findings[0].subject, "ENT-OLD");
    assert_eq!(findings[0].rule_id, RULE_LEAVER_ACTIVE);
}

#[test]
fn entitlement_email_field_is_ignored_even_when_it_collides() {
    // The entitlement reports the HR email of an active identity but is
    // keyed to an unresolvable employee_id: quarantine, not attribution.
    let mut unmatched = entitlement("ENT-Q");
    unmatched.employee_id = "E-404".to_string();
    unmatched.email = "one@corp.example".to_string(); // E-1's email
    let findings = evaluate(
        &campaign(vec![identity("E-MGR"), identity("E-1")], vec![unmatched]),
        &config(),
        ENGINE,
    );
    assert_eq!(findings.len(), 1);
    assert_eq!(findings[0].rule_id, RULE_QUARANTINE);
    assert_eq!(findings[0].subject, "ENT-Q");
}

// ---- Quarantine (fail-closed) ---------------------------------------------

#[test]
fn unmatched_employee_id_is_quarantined_never_dropped() {
    let mut unmatched = entitlement("ENT-Q");
    unmatched.employee_id = "E-404".to_string();
    let findings = evaluate(
        &campaign(vec![identity("E-MGR")], vec![unmatched]),
        &config(),
        ENGINE,
    );
    assert_eq!(findings.len(), 1);
    assert_eq!(findings[0].rule_id, RULE_QUARANTINE);
    assert_eq!(findings[0].severity, Severity::Warn);
    assert!(findings[0].requires_signoff);
    assert_eq!(findings[0].subject, "ENT-Q");
}

#[test]
fn blank_employee_id_is_quarantined() {
    let mut unmatched = entitlement("ENT-Q");
    unmatched.employee_id = String::new();
    let findings = evaluate(
        &campaign(vec![identity("E-MGR")], vec![unmatched]),
        &config(),
        ENGINE,
    );
    assert_eq!(rule_ids(&findings), vec![RULE_QUARANTINE]);
}

// ---- Orphan-system rule ----------------------------------------------------

#[test]
fn entitlement_on_unknown_system_is_breach() {
    let mut shadow = entitlement("ENT-S");
    shadow.system_id = "shadow-saas".to_string();
    let findings = evaluate(
        &campaign(vec![identity("E-MGR"), identity("E-1")], vec![shadow]),
        &config(),
        ENGINE,
    );
    assert_eq!(findings.len(), 1);
    assert_eq!(findings[0].rule_id, RULE_ORPHAN_SYSTEM);
    assert_eq!(findings[0].severity, Severity::Breach);
}

// ---- Orphan-manager rule ---------------------------------------------------

#[test]
fn missing_manager_record_is_warn() {
    let mut orphan = identity("E-1");
    orphan.manager_id = None;
    let findings = evaluate(
        &campaign(vec![identity("E-MGR"), orphan], vec![entitlement("ENT-1")]),
        &config(),
        ENGINE,
    );
    assert_eq!(findings.len(), 1);
    assert_eq!(findings[0].rule_id, RULE_ORPHAN_MANAGER);
    assert_eq!(findings[0].severity, Severity::Warn);
    assert!(!findings[0].requires_signoff);
}

#[test]
fn dangling_manager_id_is_warn() {
    let mut orphan = identity("E-1");
    orphan.manager_id = Some("E-GONE".to_string());
    let findings = evaluate(
        &campaign(vec![identity("E-MGR"), orphan], vec![entitlement("ENT-1")]),
        &config(),
        ENGINE,
    );
    assert_eq!(rule_ids(&findings), vec![RULE_ORPHAN_MANAGER]);
    assert!(findings[0].message.contains("E-GONE"));
}

// ---- New-hire grace window -------------------------------------------------

#[test]
fn new_hire_grace_exempts_stale_and_manager_rules() {
    let mut hire = identity("E-NEW");
    hire.hire_date = d("2026-09-12"); // 10 days before campaign
    hire.manager_id = None;
    let mut granted = entitlement("ENT-N");
    granted.employee_id = "E-NEW".to_string();
    granted.last_authenticated_at = None; // would be stale without grace
    let findings = evaluate(
        &campaign(vec![identity("E-MGR"), hire], vec![granted]),
        &config(),
        ENGINE,
    );
    assert!(findings.is_empty());
}

#[test]
fn grace_window_boundary_is_inclusive_then_expires() {
    // Hired exactly new_hire_grace_days (30) before the campaign: exempt.
    let mut at_edge = identity("E-NEW");
    at_edge.hire_date = d("2026-08-23");
    at_edge.manager_id = None;
    let mut granted = entitlement("ENT-N");
    granted.employee_id = "E-NEW".to_string();
    granted.last_authenticated_at = None;
    let findings = evaluate(
        &campaign(vec![identity("E-MGR"), at_edge], vec![granted]),
        &config(),
        ENGINE,
    );
    assert!(findings.is_empty());

    // Hired 31 days before the campaign: grace has expired, stale fires.
    let mut expired = identity("E-NEW");
    expired.hire_date = d("2026-08-22");
    expired.manager_id = None;
    let mut granted = entitlement("ENT-N");
    granted.employee_id = "E-NEW".to_string();
    granted.last_authenticated_at = None;
    let findings = evaluate(
        &campaign(vec![identity("E-MGR"), expired], vec![granted]),
        &config(),
        ENGINE,
    );
    assert_eq!(
        rule_ids(&findings),
        // Sorted by (subject, rule_id) per the family determinism contract.
        vec![RULE_ORPHAN_MANAGER, RULE_STALE_AUTH]
    );
}

#[test]
fn grace_does_not_exempt_leaver_or_unknown_system_rules() {
    let mut hire = identity("E-NEW");
    hire.hire_date = d("2026-09-12"); // inside grace
    hire.separation_date = Some(d("2026-09-15")); // separated after hire
    let mut shadow = entitlement("ENT-S");
    shadow.employee_id = "E-NEW".to_string();
    shadow.system_id = "shadow-saas".to_string();
    let findings = evaluate(
        &campaign(vec![identity("E-MGR"), hire], vec![shadow]),
        &config(),
        ENGINE,
    );
    assert_eq!(
        rule_ids(&findings),
        vec![RULE_LEAVER_ACTIVE, RULE_ORPHAN_SYSTEM]
    );
}

// ---- Stale rule ------------------------------------------------------------

#[test]
fn auth_exactly_stale_days_ago_is_within_window() {
    // 2026-06-24 is exactly 90 days before the campaign — inside.
    let mut recent = entitlement("ENT-1");
    recent.last_authenticated_at = Some(d("2026-06-24"));
    let findings = evaluate(
        &campaign(vec![identity("E-MGR"), identity("E-1")], vec![recent]),
        &config(),
        ENGINE,
    );
    assert!(findings.is_empty());
}

#[test]
fn auth_one_day_past_window_is_stale() {
    let mut stale = entitlement("ENT-1");
    stale.last_authenticated_at = Some(d("2026-06-23")); // 91 days
    let findings = evaluate(
        &campaign(vec![identity("E-MGR"), identity("E-1")], vec![stale]),
        &config(),
        ENGINE,
    );
    assert_eq!(findings.len(), 1);
    assert_eq!(findings[0].rule_id, RULE_STALE_AUTH);
    assert_eq!(findings[0].severity, Severity::Warn);
}

#[test]
fn never_authenticated_is_stale() {
    let mut unused = entitlement("ENT-1");
    unused.last_authenticated_at = None;
    let findings = evaluate(
        &campaign(vec![identity("E-MGR"), identity("E-1")], vec![unused]),
        &config(),
        ENGINE,
    );
    assert_eq!(rule_ids(&findings), vec![RULE_STALE_AUTH]);
}

// ---- Privileged four-eyes rule ----------------------------------------------

#[test]
fn privileged_retained_with_two_distinct_approvers() {
    let mut privileged = entitlement("ENT-P");
    privileged.privileged = true;
    let mut input = campaign(vec![identity("E-MGR"), identity("E-1")], vec![privileged]);
    input.retention_approvals = vec![
        approval("alice", "ENT-P", SignoffDecision::Approve),
        approval("bob", "ENT-P", SignoffDecision::Approve),
    ];
    let findings = evaluate(&input, &config(), ENGINE);
    assert!(findings.is_empty());
}

#[test]
fn privileged_with_one_approver_finds_four_eyes_gap() {
    let mut privileged = entitlement("ENT-P");
    privileged.privileged = true;
    let mut input = campaign(vec![identity("E-MGR"), identity("E-1")], vec![privileged]);
    input.retention_approvals = vec![approval("alice", "ENT-P", SignoffDecision::Approve)];
    let findings = evaluate(&input, &config(), ENGINE);
    assert_eq!(findings.len(), 1);
    assert_eq!(findings[0].rule_id, RULE_PRIVILEGED_FOUR_EYES);
    assert_eq!(findings[0].severity, Severity::Warn);
    assert!(findings[0].requires_signoff);
}

#[test]
fn four_eyes_counts_signers_case_insensitively() {
    let mut privileged = entitlement("ENT-P");
    privileged.privileged = true;
    let mut input = campaign(vec![identity("E-MGR"), identity("E-1")], vec![privileged]);
    // Same signer in different cases: one distinct signer, not two.
    input.retention_approvals = vec![
        approval("alice", "ENT-P", SignoffDecision::Approve),
        approval("Alice", "ENT-P", SignoffDecision::Approve),
    ];
    let findings = evaluate(&input, &config(), ENGINE);
    assert_eq!(rule_ids(&findings), vec![RULE_PRIVILEGED_FOUR_EYES]);
}

#[test]
fn rejected_approval_does_not_count_toward_four_eyes() {
    let mut privileged = entitlement("ENT-P");
    privileged.privileged = true;
    let mut input = campaign(vec![identity("E-MGR"), identity("E-1")], vec![privileged]);
    input.retention_approvals = vec![
        approval("alice", "ENT-P", SignoffDecision::Approve),
        approval("bob", "ENT-P", SignoffDecision::Reject),
    ];
    let findings = evaluate(&input, &config(), ENGINE);
    assert_eq!(rule_ids(&findings), vec![RULE_PRIVILEGED_FOUR_EYES]);
}

#[test]
fn engine_actor_approval_is_void_for_four_eyes() {
    // Separation of duties: the producing engine cannot count as an
    // approver of its own campaign.
    let mut privileged = entitlement("ENT-P");
    privileged.privileged = true;
    let mut input = campaign(vec![identity("E-MGR"), identity("E-1")], vec![privileged]);
    input.retention_approvals = vec![
        approval(ENGINE, "ENT-P", SignoffDecision::Approve),
        approval("alice", "ENT-P", SignoffDecision::Approve),
    ];
    let findings = evaluate(&input, &config(), ENGINE);
    assert_eq!(rule_ids(&findings), vec![RULE_PRIVILEGED_FOUR_EYES]);
}

#[test]
fn four_eyes_approvals_are_subject_scoped() {
    let mut privileged = entitlement("ENT-P");
    privileged.privileged = true;
    let mut input = campaign(vec![identity("E-MGR"), identity("E-1")], vec![privileged]);
    input.retention_approvals = vec![
        approval("alice", "ENT-OTHER", SignoffDecision::Approve),
        approval("bob", "ENT-OTHER", SignoffDecision::Approve),
    ];
    let findings = evaluate(&input, &config(), ENGINE);
    assert_eq!(rule_ids(&findings), vec![RULE_PRIVILEGED_FOUR_EYES]);
}

#[test]
fn non_privileged_entitlement_needs_no_approvals() {
    let findings = evaluate(
        &campaign(
            vec![identity("E-MGR"), identity("E-1")],
            vec![entitlement("ENT-1")],
        ),
        &config(),
        ENGINE,
    );
    assert!(findings.is_empty());
}

// ---- Composition, determinism, validation -----------------------------------

#[test]
fn multiple_findings_compose_on_one_entitlement() {
    let mut leaver = identity("E-1");
    leaver.separation_date = Some(d("2026-03-01"));
    leaver.manager_id = None;
    let mut flagged = entitlement("ENT-X");
    flagged.system_id = "shadow-saas".to_string();
    flagged.privileged = true;
    flagged.last_authenticated_at = None;
    let findings = evaluate(
        &campaign(vec![identity("E-MGR"), leaver], vec![flagged]),
        &config(),
        ENGINE,
    );
    assert_eq!(findings.len(), 5);
    // Sorted by (subject, rule_id).
    assert_eq!(
        rule_ids(&findings),
        vec![
            RULE_LEAVER_ACTIVE,
            RULE_ORPHAN_MANAGER,
            RULE_ORPHAN_SYSTEM,
            RULE_PRIVILEGED_FOUR_EYES,
            RULE_STALE_AUTH,
        ]
    );
    assert!(findings.iter().all(|f| f.subject == "ENT-X"));
}

#[test]
fn findings_are_deterministic_and_sorted() {
    let mut leaver = identity("E-2");
    leaver.separation_date = Some(d("2026-03-01"));
    let mut stale = entitlement("ENT-A");
    stale.employee_id = "E-2".to_string();
    stale.last_authenticated_at = None;
    let mut shadow = entitlement("ENT-B");
    shadow.system_id = "shadow-saas".to_string();
    let input = campaign(
        vec![identity("E-MGR"), identity("E-1"), leaver],
        vec![shadow, stale],
    );

    let first = evaluate(&input, &config(), ENGINE);
    let second = evaluate(&input, &config(), ENGINE);
    assert_eq!(first, second);

    let mut sorted = first.clone();
    sorted.sort_by(|a, b| (&a.subject, &a.rule_id).cmp(&(&b.subject, &b.rule_id)));
    assert_eq!(first, sorted);
}

#[test]
fn validate_accepts_clean_campaign() {
    let input = campaign(
        vec![identity("E-MGR"), identity("E-1")],
        vec![entitlement("ENT-1")],
    );
    assert_eq!(validate(&input), Ok(()));
}

#[test]
fn validate_rejects_duplicate_identity_employee_id() {
    let input = campaign(
        vec![identity("E-MGR"), identity("E-1"), identity("E-1")],
        vec![],
    );
    let message = validate(&input).unwrap_err();
    assert!(
        message.contains("duplicate identity employee_id"),
        "{message}"
    );
}

#[test]
fn validate_rejects_duplicate_entitlement_id() {
    let input = campaign(
        vec![identity("E-MGR"), identity("E-1")],
        vec![entitlement("ENT-1"), entitlement("ENT-1")],
    );
    let message = validate(&input).unwrap_err();
    assert!(message.contains("duplicate entitlement_id"), "{message}");
}

#[test]
fn validate_rejects_dates_after_campaign() {
    let mut hire = identity("E-2");
    hire.hire_date = d("2026-12-01"); // future hire
    let mut granted = entitlement("ENT-1");
    granted.granted_at = d("2026-12-01"); // future grant
    granted.last_authenticated_at = Some(d("2026-12-02")); // future auth
    let input = campaign(vec![identity("E-MGR"), hire], vec![granted]);
    let message = validate(&input).unwrap_err();
    assert!(message.contains("after campaign date"), "{message}");
}

#[test]
fn validate_rejects_separation_before_hire() {
    let mut leaver = identity("E-1");
    leaver.separation_date = Some(d("2019-01-01")); // before 2020 hire
    let input = campaign(vec![identity("E-MGR"), leaver], vec![]);
    let message = validate(&input).unwrap_err();
    assert!(message.contains("before hire_date"), "{message}");
}

const INPUT_BYTES: &[u8] = b"campaign-inputs-bytes";
const PARAM_BYTES: &[u8] = b"campaign-params-bytes";

fn clean_campaign() -> (CampaignInput, RecertConfig) {
    (
        campaign(
            vec![identity("E-MGR"), identity("E-1")],
            vec![entitlement("ENT-1")],
        ),
        config(),
    )
}

fn leaver_campaign() -> (CampaignInput, RecertConfig) {
    let mut leaver = identity("E-1");
    leaver.separation_date = Some(d("2026-03-01"));
    (
        campaign(vec![identity("E-MGR"), leaver], vec![entitlement("ENT-1")]),
        config(),
    )
}

fn leaver_signoff(subject: &str) -> Signoff {
    approval("sam", subject, SignoffDecision::Approve)
}

// ---- Lock lifecycle -------------------------------------------------------

#[test]
fn clean_campaign_reaches_signed_and_seals() {
    let (input, cfg) = clean_campaign();
    let doc = build_pack(&input, &cfg, INPUT_BYTES, PARAM_BYTES, vec![]).unwrap();
    assert_eq!(doc.lock_state, LockState::Signed);
    assert!(!doc.pack.body_hash.is_empty());
    assert_eq!(doc.pack.inputs_hash, sha256_hex(INPUT_BYTES));
    assert_eq!(doc.pack.params_hash, sha256_hex(PARAM_BYTES));
    assert_eq!(
        verify_pack(&doc, &input, &cfg, INPUT_BYTES, PARAM_BYTES),
        Ok(())
    );
}

#[test]
fn breach_without_signoff_parks_at_awaiting_signoff_and_is_not_evidence() {
    let (input, cfg) = leaver_campaign();
    let doc = build_pack(&input, &cfg, INPUT_BYTES, PARAM_BYTES, vec![]).unwrap();
    assert_eq!(doc.lock_state, LockState::AwaitingSignoff);
    // Only Signed packs are evidence — verification refuses.
    assert_eq!(
        verify_pack(&doc, &input, &cfg, INPUT_BYTES, PARAM_BYTES),
        Err(PackVerificationError::NotSigned)
    );
}

#[test]
fn subject_scoped_signoffs_drive_pack_to_signed() {
    let mut first_leaver = identity("E-1");
    first_leaver.separation_date = Some(d("2026-03-01"));
    let mut second_leaver = identity("E-2");
    second_leaver.separation_date = Some(d("2026-03-01"));
    let mut second = entitlement("ENT-B");
    second.employee_id = "E-2".to_string();
    let input = campaign(
        vec![identity("E-MGR"), first_leaver, second_leaver],
        vec![entitlement("ENT-1"), second],
    );
    let cfg = config();

    // One of two subjects signed: pack stays parked.
    let partially = vec![leaver_signoff("ENT-B")];
    let doc = build_pack(&input, &cfg, INPUT_BYTES, PARAM_BYTES, partially).unwrap();
    assert_eq!(doc.lock_state, LockState::AwaitingSignoff);

    // Both subjects signed: pack seals at Signed and verifies.
    let fully = vec![leaver_signoff("ENT-B"), leaver_signoff("ENT-1")];
    let doc = build_pack(&input, &cfg, INPUT_BYTES, PARAM_BYTES, fully).unwrap();
    assert_eq!(doc.lock_state, LockState::Signed);
    assert_eq!(
        verify_pack(&doc, &input, &cfg, INPUT_BYTES, PARAM_BYTES),
        Ok(())
    );
}

#[test]
fn signoff_for_other_subject_does_not_resolve_breach() {
    let (input, cfg) = leaver_campaign();
    let signoffs = vec![leaver_signoff("ENT-OTHER")];
    let doc = build_pack(&input, &cfg, INPUT_BYTES, PARAM_BYTES, signoffs).unwrap();
    assert_eq!(doc.lock_state, LockState::AwaitingSignoff);
}

#[test]
fn engine_actor_signoff_does_not_resolve_breach() {
    // Separation of duties: the producing engine cannot countersign its
    // own pack, so a receipt from the engine's own identity leaves the
    // breach unresolved.
    let (input, cfg) = leaver_campaign();
    let signoffs = vec![leaver_signoff_of_engine("ENT-1")];
    let doc = build_pack(&input, &cfg, INPUT_BYTES, PARAM_BYTES, signoffs).unwrap();
    assert_eq!(doc.lock_state, LockState::AwaitingSignoff);
}

fn leaver_signoff_of_engine(subject: &str) -> Signoff {
    approval(ENGINE, subject, SignoffDecision::Approve)
}

// ---- Fail-closed verification ----------------------------------------------

#[test]
fn tampered_pack_body_fails_verify() {
    let (input, cfg) = leaver_campaign();
    let doc = build_pack(
        &input,
        &cfg,
        INPUT_BYTES,
        PARAM_BYTES,
        vec![leaver_signoff("ENT-1")],
    )
    .unwrap();
    assert_eq!(doc.lock_state, LockState::Signed);

    let mut tampered = doc.clone();
    tampered.pack.findings[0].message = "tampered message".to_string();
    assert_eq!(
        verify_pack(&tampered, &input, &cfg, INPUT_BYTES, PARAM_BYTES),
        Err(PackVerificationError::Spine(VerifyError::BodyHashMismatch))
    );
}

#[test]
fn tampered_inputs_fail_verify() {
    let (input, cfg) = clean_campaign();
    let doc = build_pack(&input, &cfg, INPUT_BYTES, PARAM_BYTES, vec![]).unwrap();
    assert_eq!(
        verify_pack(&doc, &input, &cfg, b"tampered-inputs", PARAM_BYTES),
        Err(PackVerificationError::Spine(VerifyError::HashMismatch {
            field: "inputs"
        }))
    );
}

#[test]
fn tampered_params_fail_verify() {
    let (input, cfg) = clean_campaign();
    let doc = build_pack(&input, &cfg, INPUT_BYTES, PARAM_BYTES, vec![]).unwrap();
    assert_eq!(
        verify_pack(&doc, &input, &cfg, INPUT_BYTES, b"tampered-params"),
        Err(PackVerificationError::Spine(VerifyError::HashMismatch {
            field: "params"
        }))
    );
}

#[test]
fn resealed_downgrade_still_refuses_via_recomputation() {
    // An attacker who edits findings AND recomputes the body hash defeats
    // the seal alone — the recompute gate is what refuses them: the pack's
    // findings must reproduce from the inputs.
    let (input, cfg) = leaver_campaign();
    let doc = build_pack(&input, &cfg, INPUT_BYTES, PARAM_BYTES, vec![]).unwrap();
    assert_eq!(doc.lock_state, LockState::AwaitingSignoff);

    let mut forged_pack = doc.pack.clone();
    assert_eq!(forged_pack.findings.len(), 1);
    forged_pack.findings[0].severity = Severity::Warn;
    forged_pack.findings[0].requires_signoff = false;
    let forged = PackDocument {
        lock_state: LockState::Signed,
        pack: forged_pack.sealed(),
    };
    assert_eq!(
        verify_pack(&forged, &input, &cfg, INPUT_BYTES, PARAM_BYTES),
        Err(PackVerificationError::RecomputationMismatch)
    );
}

#[test]
fn foreign_spine_version_refuses() {
    // A pack produced under a different spine version is not evidence,
    // even when its hashes and seal are internally consistent.
    let pack = EvidencePack {
        engine_id: ENGINE.to_string(),
        tool_version: "access-recert-spine v0.1.0".to_string(),
        spine_version: "9.9.9".to_string(),
        inputs_hash: sha256_hex(INPUT_BYTES),
        params_hash: sha256_hex(PARAM_BYTES),
        findings: vec![],
        signoffs: vec![],
        body_hash: String::new(),
    }
    .sealed();
    assert_eq!(
        pack.verify(INPUT_BYTES, PARAM_BYTES),
        Err(VerifyError::ForeignVersion)
    );
    assert_eq!(pack.spine_version, "9.9.9");
    assert_ne!(pack.spine_version, SPINE_VERSION);
}

#[test]
fn unresolved_breach_packs_do_not_seal_at_signed() {
    // The lock lifecycle refuses to sign a pack whose gated findings are
    // unresolved — the pack cannot reach the sealed evidence state.
    let (input, cfg) = leaver_campaign();
    let doc = build_pack(&input, &cfg, INPUT_BYTES, PARAM_BYTES, vec![]).unwrap();
    assert_eq!(doc.lock_state, LockState::AwaitingSignoff);
    assert_eq!(doc.pack.body_hash, String::new());
}

// ---- Four-eyes lock gate ---------------------------------------------------

/// A privileged entitlement retained without pre-compute approvals fires the
/// `privileged-four-eyes` gated warn. Its subject needs two distinct
/// post-compute approvers before the pack may seal.
fn four_eyes_campaign() -> (CampaignInput, RecertConfig) {
    let mut priv_ent = entitlement("ENT-P");
    priv_ent.privileged = true;
    (
        campaign(vec![identity("E-MGR"), identity("E-1")], vec![priv_ent]),
        config(),
    )
}

#[test]
fn one_post_compute_signoff_cannot_resolve_four_eyes_gap() {
    // A single human attestation does not satisfy a four-eyes control: the
    // pack parks at awaiting_signoff instead of sealing as evidence.
    let (input, cfg) = four_eyes_campaign();
    let doc = build_pack(
        &input,
        &cfg,
        INPUT_BYTES,
        PARAM_BYTES,
        vec![leaver_signoff("ENT-P")],
    )
    .unwrap();
    assert_eq!(doc.lock_state, LockState::AwaitingSignoff);
}

#[test]
fn two_distinct_approvers_seal_four_eyes_pack() {
    let (input, cfg) = four_eyes_campaign();
    let signoffs = vec![
        approval("sam", "ENT-P", SignoffDecision::Approve),
        approval("dana", "ENT-P", SignoffDecision::Approve),
    ];
    let doc = build_pack(&input, &cfg, INPUT_BYTES, PARAM_BYTES, signoffs).unwrap();
    assert_eq!(doc.lock_state, LockState::Signed);
    assert_eq!(
        verify_pack(&doc, &input, &cfg, INPUT_BYTES, PARAM_BYTES),
        Ok(())
    );
}

#[test]
fn four_eyes_distinctness_ignores_case_variants() {
    // The spine's distinctness is trimmed and case-insensitive — fail-closed:
    // `sam` and `Sam` count as one signer, never two.
    let (input, cfg) = four_eyes_campaign();
    let signoffs = vec![
        approval("sam", "ENT-P", SignoffDecision::Approve),
        approval("Sam", "ENT-P", SignoffDecision::Approve),
    ];
    let doc = build_pack(&input, &cfg, INPUT_BYTES, PARAM_BYTES, signoffs).unwrap();
    assert_eq!(doc.lock_state, LockState::AwaitingSignoff);
}

#[test]
fn sealed_pack_with_undercounted_four_eyes_signers_refuses_verify() {
    // The attack the strict gate exists for: seal a pack carrying only one
    // approver on a four-eyes subject and claim Signed. The spine floor
    // accepts it (a warn is not a breach); the product's lock gate must
    // still refuse.
    let (input, cfg) = four_eyes_campaign();
    let parked = build_pack(
        &input,
        &cfg,
        INPUT_BYTES,
        PARAM_BYTES,
        vec![leaver_signoff("ENT-P")],
    )
    .unwrap();
    let forged = PackDocument {
        lock_state: LockState::Signed,
        pack: parked.pack.sealed(),
    };
    assert_eq!(
        verify_pack(&forged, &input, &cfg, INPUT_BYTES, PARAM_BYTES),
        Err(PackVerificationError::UnresolvedGate {
            rule_id: RULE_PRIVILEGED_FOUR_EYES.to_string()
        })
    );
}

// ---- Further cases ---------------------------------------------------------

#[test]
fn recert_record_order_does_not_matter() {
    let mut leaver = identity("E-2");
    leaver.separation_date = Some(d("2026-03-01"));
    let mut stale = entitlement("ENT-A");
    stale.employee_id = "E-2".to_string();
    stale.last_authenticated_at = None;
    let mut shadow = entitlement("ENT-B");
    shadow.system_id = "shadow-saas".to_string();
    shadow.privileged = true;
    let mut input = campaign(
        vec![identity("E-MGR"), identity("E-1"), leaver],
        vec![shadow, stale],
    );
    input.retention_approvals = vec![
        approval("alice", "ENT-B", SignoffDecision::Approve),
        approval("bob", "ENT-B", SignoffDecision::Reject),
    ];
    let first = evaluate(&input, &config(), ENGINE);
    assert_eq!(first.len(), 4);
    for pair in first.windows(2) {
        assert!((&pair[0].subject, &pair[0].rule_id) < (&pair[1].subject, &pair[1].rule_id));
    }
    assert_eq!(validate(&input), Ok(()));
    input.identities.reverse();
    input.entitlements.reverse();
    input.retention_approvals.reverse();
    assert_eq!(validate(&input), Ok(()));
    assert_eq!(evaluate(&input, &config(), ENGINE), first);
}

#[test]
fn recert_emails_do_not_change_findings() {
    let mut unmatched = entitlement("ENT-Q");
    unmatched.employee_id = "E-404".to_string();
    let mut input = campaign(vec![identity("E-MGR"), identity("E-1")], vec![unmatched]);
    let first = evaluate(&input, &config(), ENGINE);
    input.entitlements[0].email = "E-1@corp.example".to_string();
    input.identities[0].email = "E-1@corp.example".to_string();
    assert_eq!(evaluate(&input, &config(), ENGINE), first);
}

#[test]
fn recert_messages_are_exact() {
    let mut leaver = identity("E-1");
    leaver.separation_date = Some(d("2026-03-01"));
    leaver.manager_id = Some("E-GONE".to_string());
    let mut flagged = entitlement("ENT-X");
    flagged.system_id = "shadow".to_string();
    flagged.privileged = true;
    flagged.last_authenticated_at = Some(d("2026-06-23"));
    let mut ghost = entitlement("ENT-Y");
    ghost.employee_id = "E\"4".to_string();
    let findings = evaluate(
        &campaign(vec![identity("E-MGR"), leaver], vec![flagged, ghost]),
        &config(),
        ENGINE,
    );
    let messages: Vec<&str> = findings.iter().map(|f| f.message.as_str()).collect();
    assert_eq!(
        messages,
        vec![
            "identity E-1 was separated on 2026-03-01 (before campaign date 2026-09-22) but retains entitlement ENT-X on system shadow",
            "identity E-1 has manager of record E-GONE which does not resolve to an HR identity",
            "entitlement ENT-X references system shadow which has no managed-system record",
            "privileged entitlement ENT-X lacks four-eyes approval to retain (requires 2 distinct approving signers)",
            "no authentication on entitlement ENT-X in 91 days (last on 2026-06-23, window is 90 days)",
            "entitlement ENT-Y on system github could not be matched to an HR identity by employee_id \"E\\\"4\"; quarantined for manual attribution",
        ]
    );
}

#[test]
fn recert_validation_reports_every_problem() {
    let mut nameless = identity(" ");
    nameless.display_name = "Ghost".to_string();
    let mut blank = entitlement("");
    blank.system_id = "  ".to_string();
    let mut input = campaign(vec![nameless], vec![blank]);
    input.campaign_id = " ".to_string();
    assert_eq!(
        validate(&input),
        Err("campaign input failed schema validation: campaign_id must be non-blank; identity \"Ghost\" has a blank employee_id; entitlement with blank entitlement_id; entitlement  has a blank system_id".to_string())
    );
}

#[test]
fn recert_retention_approvals_travel_on_the_pack() {
    let mut priv_ent = entitlement("ENT-P");
    priv_ent.privileged = true;
    let mut input = campaign(vec![identity("E-MGR"), identity("E-1")], vec![priv_ent]);
    input.retention_approvals = vec![
        approval("alice", "ENT-P", SignoffDecision::Approve),
        approval("bob", "ENT-P", SignoffDecision::Approve),
    ];
    let doc = build_pack(&input, &config(), INPUT_BYTES, PARAM_BYTES, vec![leaver_signoff("ENT-P")])
        .unwrap();
    let actors: Vec<&str> = doc.pack.signoffs.iter().map(|s| s.actor.as_str()).collect();
    assert_eq!(actors, vec!["alice", "bob", "sam"]);
    assert_eq!(doc.lock_state, LockState::Signed);
}

#[test]
fn recert_strict_gate_names_the_blocking_finding() {
    let (input, cfg) = four_eyes_campaign();
    let doc = build_pack(&input, &cfg, INPUT_BYTES, PARAM_BYTES, vec![leaver_signoff("ENT-P")])
        .unwrap();
    let blocking = first_unresolved_finding_strict(&doc.pack).expect("one approver is not enough");
    assert_eq!(blocking.rule_id, RULE_PRIVILEGED_FOUR_EYES);
}

#[test]
fn recert_explain_is_exact_on_a_clean_pack() {
    let (input, cfg) = clean_campaign();
    let doc = build_pack(&input, &cfg, INPUT_BYTES, PARAM_BYTES, vec![]).unwrap();
    let expected = format!(
        "access-recert-spine evidence pack\n  engine:       access-recert-spine (access-recert-spine v0.1.0)\n  spine:        1.0.0\n  lock state:   signed\n  inputs hash:  {}\n  params hash:  {}\n  body hash:    {}\n\nREVOCATION QUEUE (breach — revoke access or obtain signoff) (0)\n  (none)\n\nQUARANTINE QUEUE (unmatched identity — manual attribution required) (0)\n  (none)\n\nSIGNOFF REQUIRED (gated warnings — cannot pass without review) (0)\n  (none)\n\nREVIEW QUEUE (warnings) (0)\n  (none)\n\nSIGNOFFS RECORDED (0)\n\nRULE CATALOG\n  {:<26} {}\n  {:<26} {}\n  {:<26} {}\n  {:<26} {}\n  {:<26} {}\n  {:<26} {}\n",
        sha256_hex(INPUT_BYTES),
        sha256_hex(PARAM_BYTES),
        doc.pack.body_hash,
        RULE_LEAVER_ACTIVE,
        "breach — active entitlement for an identity separated before the campaign date",
        RULE_ORPHAN_SYSTEM,
        "breach — entitlement on a system with no managed-system record",
        RULE_ORPHAN_MANAGER,
        "warn — identity's manager of record is missing or unresolvable (grace-exempt)",
        RULE_STALE_AUTH,
        "warn — no successful authentication within the configured window (grace-exempt)",
        RULE_PRIVILEGED_FOUR_EYES,
        "warn — privileged entitlement retained without two distinct approvers",
        RULE_QUARANTINE,
        "warn — entitlement unmatched to HR by employee_id; never matched by email",
    );
    assert_eq!(render_explain(&doc), expected);
}

#[test]
fn recert_explain_lists_queues_and_receipts() {
    let mut leaver = identity("E-1");
    leaver.separation_date = Some(d("2026-03-01"));
    let mut ghost = entitlement("ENT-Q");
    ghost.employee_id = "E-404".to_string();
    let input = campaign(vec![identity("E-MGR"), leaver], vec![entitlement("ENT-L"), ghost]);
    let doc = build_pack(
        &input,
        &config(),
        INPUT_BYTES,
        PARAM_BYTES,
        vec![approval("sam", "ENT-L", SignoffDecision::Reject)],
    )
    .unwrap();
    let text = render_explain(&doc);
    assert!(text.contains("REVOCATION QUEUE (breach — revoke access or obtain signoff) (1)\n  - ENT-L [leaver-active-entitlement] identity E-1"));
    assert!(text.contains("QUARANTINE QUEUE (unmatched identity — manual attribution required) (1)\n  - ENT-Q [quarantine] entitlement ENT-Q"));
    assert!(text.contains("SIGNOFFS RECORDED (1)\n  - sam (manager) Reject subject ENT-L at 2026-09-20T10:00:00Z\n"));
    assert!(text.contains("  lock state:   awaiting_signoff\n"));
}

#[test]
fn recert_verification_errors_read_well() {
    assert!(PackVerificationError::NotSigned.message().contains("pack is not Signed"));
    assert_eq!(
        PackVerificationError::Spine(VerifyError::BodyHashMismatch).message(),
        "body hash does not match the pack body"
    );
    assert!(PackVerificationError::RecomputationMismatch
        .message()
        .contains("do not reproduce from inputs"));
    assert_eq!(
        PackVerificationError::UnresolvedGate { rule_id: "r".to_string() }.message(),
        "finding r is unresolved under the lock gate — gated findings need covering signoffs and four-eyes findings need two distinct approvers"
    );
}
