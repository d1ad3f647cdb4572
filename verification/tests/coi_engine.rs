//! Certificates of insurance: gaps, boundaries, selection, and lockout.

use control_spine::coi::cert::{Certificate, PolicyLine};
use control_spine::coi::config::{
    CarrierRating, CategoryRequirement, Coverage, CoverageRequirement, CoverageTable, Endorsement,
    RequirementsConfig,
};
use control_spine::coi::engine::{
    evaluate, format_cents, try_evaluate, Evaluation, MAX_WINDOW_DAYS, RULE_COVERAGE_EXPIRED,
    RULE_EXPIRING_SOON, RULE_LIMIT_BELOW, RULE_LOCKOUT, RULE_MISSING_COVERAGE,
    RULE_MISSING_ENDORSEMENT, RULE_RATING_BELOW_FLOOR, RULE_UNKNOWN_CATEGORY,
};
use control_spine::coi::explain::explain;
use control_spine::date::Date;
use control_spine::spine::{Finding, Severity};
use control_spine::table::Table;

fn shifted(date: Date, days: i64) -> Date {
    Date::from_day_number(i64::from(date.day_number()) + days).expect("on the calendar")
}

fn categories(entries: Vec<(&str, CategoryRequirement)>) -> Table<CategoryRequirement> {
    let mut table = Table::new();
    for (name, category) in entries {
        table.insert(name.to_string(), category);
    }
    table
}

fn coverages(entries: Vec<(Coverage, CoverageRequirement)>) -> CoverageTable {
    let mut table = CoverageTable::new();
    for (coverage, requirement) in entries {
        table.insert(coverage, requirement);
    }
    table
}

fn date(y: i32, m: u32, d: u32) -> Date {
    Date::from_ymd_opt(y, m, d).expect("valid date")
}

fn as_of() -> Date {
    date(2026, 9, 22)
}

fn future() -> Date {
    date(2027, 6, 30)
}

fn requirement(
    per_occ: i128,
    agg: i128,
    endorsements: Vec<Endorsement>,
) -> CoverageRequirement {
    CoverageRequirement {
        per_occurrence_cents: per_occ,
        aggregate_cents: agg,
        endorsements,
    }
}

fn config(critical: bool) -> RequirementsConfig {
    let gl = requirement(
        100_000_000,
        200_000_000,
        vec![Endorsement::AdditionalInsured],
    );
    let wc = requirement(50_000_000, 50_000_000, vec![]);
    RequirementsConfig {
        categories: categories(vec![(
            "electrical_contractor",
            CategoryRequirement {
                critical,
                coverages: coverages(vec![
                    (Coverage::GeneralLiability, gl),
                    (Coverage::WorkersComp, wc),
                ]),
            },
        )]),
        expiry_warning_days: 30,
        min_carrier_rating: CarrierRating::AMinus,
    }
}

fn line(coverage: Coverage, expiration: Date) -> PolicyLine {
    PolicyLine {
        policy_number: format!("P-{}", coverage.as_str()),
        carrier_name: "Seed Mutual".to_string(),
        carrier_rating: CarrierRating::AMinus,
        coverage,
        per_occurrence_limit_cents: 100_000_000,
        aggregate_limit_cents: 200_000_000,
        effective_date: date(2026, 1, 1),
        expiration_date: expiration,
        endorsements: vec![Endorsement::AdditionalInsured],
    }
}

fn cert(policies: Vec<PolicyLine>) -> Certificate {
    Certificate {
        vendor_id: "V-1001".to_string(),
        vendor_category: "electrical_contractor".to_string(),
        policies,
    }
}

fn finding_with_rule<'a>(evaluation: &'a Evaluation, rule: &str) -> Vec<&'a Finding> {
    evaluation
        .findings
        .iter()
        .filter(|f| f.rule_id == rule)
        .collect()
}

#[test]
fn clean_certificate_produces_no_findings() {
    let evaluation = evaluate(
        &cert(vec![
            line(Coverage::GeneralLiability, future()),
            line(Coverage::WorkersComp, future()),
        ]),
        &config(true),
        as_of(),
    );
    assert!(evaluation.findings.is_empty());
    assert!(!evaluation.lockout_recommended);
}

#[test]
fn missing_coverage_breach_when_no_policy_line() {
    let evaluation = evaluate(
        &cert(vec![line(Coverage::WorkersComp, future())]),
        &config(true),
        as_of(),
    );
    let missing = finding_with_rule(&evaluation, RULE_MISSING_COVERAGE);
    assert_eq!(missing.len(), 1);
    assert_eq!(missing[0].severity, Severity::Breach);
    assert!(missing[0].requires_signoff);
    assert!(missing[0].message.contains("GL"));
    // Critical category + breach → advisory lockout fires too.
    assert!(evaluation.lockout_recommended);
}

#[test]
fn expiry_boundary_is_inclusive_and_expired_is_breach() {
    // Expiring exactly on the clock date is still valid (inclusive).
    let today = line(Coverage::GeneralLiability, as_of());
    let wc = line(Coverage::WorkersComp, future());
    let evaluation = evaluate(&cert(vec![today, wc.clone()]), &config(true), as_of());
    assert!(finding_with_rule(&evaluation, RULE_COVERAGE_EXPIRED).is_empty());
    assert_eq!(finding_with_rule(&evaluation, RULE_EXPIRING_SOON).len(), 1);

    // One day earlier: expired — a breach naming the stale policy.
    let yesterday = line(Coverage::GeneralLiability, shifted(as_of(), -1));
    let evaluation = evaluate(&cert(vec![yesterday, wc]), &config(true), as_of());
    let expired = finding_with_rule(&evaluation, RULE_COVERAGE_EXPIRED);
    assert_eq!(expired.len(), 1);
    assert_eq!(expired[0].severity, Severity::Breach);
    assert!(expired[0].message.contains("P-general_liability"));
    assert!(expired[0].message.contains("2026-09-22"));
}

#[test]
fn expiring_soon_window_boundary_is_inclusive() {
    // Exactly on the cutoff (as_of + 30) → warned; one day later → silent.
    let edge = line(Coverage::GeneralLiability, shifted(as_of(), 30));
    let evaluation = evaluate(
        &cert(vec![edge, line(Coverage::WorkersComp, future())]),
        &config(true),
        as_of(),
    );
    assert_eq!(finding_with_rule(&evaluation, RULE_EXPIRING_SOON).len(), 1);

    let beyond = line(Coverage::GeneralLiability, shifted(as_of(), 31));
    let evaluation = evaluate(
        &cert(vec![beyond, line(Coverage::WorkersComp, future())]),
        &config(true),
        as_of(),
    );
    assert!(evaluation.findings.is_empty());
}

#[test]
fn limit_boundaries_equal_passes_one_cent_below_breaches() {
    let mut short_per_occ = line(Coverage::GeneralLiability, future());
    short_per_occ.per_occurrence_limit_cents = 99_999_999;
    let evaluation = evaluate(
        &cert(vec![short_per_occ, line(Coverage::WorkersComp, future())]),
        &config(true),
        as_of(),
    );
    let breaches = finding_with_rule(&evaluation, RULE_LIMIT_BELOW);
    assert_eq!(breaches.len(), 1);
    assert!(breaches[0].message.contains("per-occurrence"));
    assert!(breaches[0].message.contains("$999,999.99"));
    assert!(breaches[0].message.contains("$1,000,000.00"));

    let mut short_aggregate = line(Coverage::GeneralLiability, future());
    short_aggregate.aggregate_limit_cents = 199_999_999;
    let evaluation = evaluate(
        &cert(vec![short_aggregate, line(Coverage::WorkersComp, future())]),
        &config(true),
        as_of(),
    );
    let breaches = finding_with_rule(&evaluation, RULE_LIMIT_BELOW);
    assert_eq!(breaches.len(), 1);
    assert!(breaches[0].message.contains("aggregate"));

    // Exactly at the requirement is not a breach (covered by the clean
    // baseline): line() defaults meet both limits exactly.
    let evaluation = evaluate(
        &cert(vec![
            line(Coverage::GeneralLiability, future()),
            line(Coverage::WorkersComp, future()),
        ]),
        &config(true),
        as_of(),
    );
    assert!(finding_with_rule(&evaluation, RULE_LIMIT_BELOW).is_empty());
}

#[test]
fn missing_endorsement_breach_names_the_selected_policy() {
    let mut no_ai = line(Coverage::GeneralLiability, future());
    no_ai.endorsements.clear();
    let evaluation = evaluate(
        &cert(vec![no_ai, line(Coverage::WorkersComp, future())]),
        &config(true),
        as_of(),
    );
    let missing = finding_with_rule(&evaluation, RULE_MISSING_ENDORSEMENT);
    assert_eq!(missing.len(), 1);
    assert_eq!(missing[0].severity, Severity::Breach);
    assert!(missing[0].message.contains("additional_insured"));
    assert!(missing[0].message.contains("P-general_liability"));
}

#[test]
fn endorsement_on_non_selected_line_does_not_satisfy() {
    // The selected (latest) GL line lacks the AI endorsement; an older
    // current GL line carries it — the requirement is still unmet.
    let mut latest = line(Coverage::GeneralLiability, future());
    latest.policy_number = "P-LATEST".to_string();
    latest.endorsements.clear();
    let older = line(Coverage::GeneralLiability, shifted(future(), -1));
    let evaluation = evaluate(
        &cert(vec![latest, older, line(Coverage::WorkersComp, future())]),
        &config(true),
        as_of(),
    );
    let missing = finding_with_rule(&evaluation, RULE_MISSING_ENDORSEMENT);
    assert_eq!(missing.len(), 1);
    assert!(missing[0].message.contains("P-LATEST"));
}

#[test]
fn carrier_rating_floor_boundary() {
    // Exactly at the floor passes (baseline uses AMinus); one notch
    // below breaches, naming both ratings.
    let mut low = line(Coverage::GeneralLiability, future());
    low.carrier_rating = CarrierRating::BPlus;
    let evaluation = evaluate(
        &cert(vec![low, line(Coverage::WorkersComp, future())]),
        &config(true),
        as_of(),
    );
    let breaches = finding_with_rule(&evaluation, RULE_RATING_BELOW_FLOOR);
    assert_eq!(breaches.len(), 1);
    assert!(breaches[0].message.contains("B+"));
    assert!(breaches[0].message.contains("A-"));
}

#[test]
fn unknown_category_fails_closed_without_lockout() {
    let mut unknown = cert(vec![]);
    unknown.vendor_category = "interior_designer".to_string();
    let evaluation = evaluate(&unknown, &config(true), as_of());
    assert_eq!(evaluation.findings.len(), 1);
    assert_eq!(evaluation.findings[0].rule_id, RULE_UNKNOWN_CATEGORY);
    assert_eq!(evaluation.findings[0].severity, Severity::Breach);
    assert!(!evaluation.lockout_recommended);
}

#[test]
fn multipolicy_selects_latest_expiration_deterministically() {
    // An expired line beside a current one does not trigger the expired
    // gap — the coverage stands on the current line.
    let expired = line(Coverage::GeneralLiability, shifted(as_of(), -1));
    let evaluation = evaluate(
        &cert(vec![
            expired,
            line(Coverage::GeneralLiability, future()),
            line(Coverage::WorkersComp, future()),
        ]),
        &config(true),
        as_of(),
    );
    assert!(evaluation.findings.is_empty());

    // Expiration tie → the higher per-occurrence limit wins: the
    // deficient line is not selected and raises nothing.
    let mut deficient = line(Coverage::GeneralLiability, future());
    deficient.per_occurrence_limit_cents = 10_000_000;
    deficient.policy_number = "P-A".to_string();
    let mut adequate = line(Coverage::GeneralLiability, future());
    adequate.policy_number = "P-B".to_string();
    let evaluation = evaluate(
        &cert(vec![
            deficient,
            adequate,
            line(Coverage::WorkersComp, future()),
        ]),
        &config(true),
        as_of(),
    );
    assert!(finding_with_rule(&evaluation, RULE_LIMIT_BELOW).is_empty());

    // Full tie → the lexicographically lowest policy number wins: the
    // compliant P-A is selected over the endorsement-less P-B.
    let mut compliant = line(Coverage::GeneralLiability, future());
    compliant.policy_number = "P-A".to_string();
    let mut noncompliant = line(Coverage::GeneralLiability, future());
    noncompliant.policy_number = "P-B".to_string();
    noncompliant.endorsements.clear();
    let evaluation = evaluate(
        &cert(vec![
            noncompliant,
            compliant,
            line(Coverage::WorkersComp, future()),
        ]),
        &config(true),
        as_of(),
    );
    assert!(finding_with_rule(&evaluation, RULE_MISSING_ENDORSEMENT).is_empty());
}

#[test]
fn lockout_requires_critical_category_and_breach() {
    let expired_gl = line(Coverage::GeneralLiability, shifted(as_of(), -1));
    let wc = line(Coverage::WorkersComp, future());

    // Critical + breach → advisory lockout finding, warn severity, no
    // signoff required of its own.
    let evaluation = evaluate(
        &cert(vec![expired_gl.clone(), wc.clone()]),
        &config(true),
        as_of(),
    );
    assert!(evaluation.lockout_recommended);
    let lockout = finding_with_rule(&evaluation, RULE_LOCKOUT);
    assert_eq!(lockout.len(), 1);
    assert_eq!(lockout[0].severity, Severity::Warn);
    assert!(!lockout[0].requires_signoff);

    // Critical + warnings only → no lockout.
    let expiring = line(Coverage::GeneralLiability, shifted(as_of(), 10));
    let evaluation = evaluate(&cert(vec![expiring, wc.clone()]), &config(true), as_of());
    assert!(!evaluation.lockout_recommended);
    assert!(finding_with_rule(&evaluation, RULE_LOCKOUT).is_empty());

    // Non-critical + breach → findings stand, but no lockout.
    let evaluation = evaluate(&cert(vec![expired_gl, wc]), &config(false), as_of());
    assert_eq!(
        finding_with_rule(&evaluation, RULE_COVERAGE_EXPIRED).len(),
        1
    );
    assert!(!evaluation.lockout_recommended);
    assert!(finding_with_rule(&evaluation, RULE_LOCKOUT).is_empty());
}

#[test]
fn evaluation_is_deterministic_under_policy_reordering() {
    let gl = line(Coverage::GeneralLiability, future());
    let wc = line(Coverage::WorkersComp, future());
    let ordered = evaluate(&cert(vec![gl.clone(), wc.clone()]), &config(true), as_of());
    let reordered = evaluate(&cert(vec![wc, gl]), &config(true), as_of());
    // Evaluation does not implement PartialEq (spine::Finding does not);
    // structural equality via Debug rendering is exact for these types.
    assert_eq!(
        format!("{:?}", ordered.findings),
        format!("{:?}", reordered.findings)
    );
    assert_eq!(ordered.lockout_recommended, reordered.lockout_recommended);
}

#[test]
fn money_formats_without_floats() {
    assert_eq!(format_cents(123_456_789), "$1,234,567.89");
    assert_eq!(format_cents(50), "$0.50");
    assert_eq!(format_cents(0), "$0.00");
    assert_eq!(format_cents(-25), "-$0.25");
    assert_eq!(format_cents(100_000_000_000_000), "$1,000,000,000,000.00");
}

#[test]
fn coi_messages_are_exact() {
    let mut weak = line(Coverage::GeneralLiability, shifted(as_of(), 5));
    weak.per_occurrence_limit_cents = 1;
    weak.carrier_rating = CarrierRating::F;
    weak.endorsements.clear();
    let evaluation = evaluate(&cert(vec![weak]), &config(true), as_of());
    let messages: Vec<&str> = evaluation.findings.iter().map(|f| f.message.as_str()).collect();
    assert_eq!(
        messages,
        vec![
            "coverage GL: per-occurrence limit $0.01 is below the required $1,000,000.00",
            "coverage GL: required endorsement additional_insured is missing from policy P-general_liability",
            "coverage GL: carrier Seed Mutual rating F is below the required floor A-",
            "coverage GL: policy P-general_liability expires 2026-09-27, within 30 day(s) of 2026-09-22",
            "required coverage WC is absent from the certificate: no policy line of this type was presented",
            "critical vendor category carries breach-severity coverage gaps: a hold on new purchase orders is recommended — advisory only, a human executes any hold outside this engine",
        ]
    );
}

#[test]
fn coi_expired_numbers_are_sorted_without_repeats() {
    let mut b = line(Coverage::GeneralLiability, shifted(as_of(), -1));
    b.policy_number = "P-B".to_string();
    let mut a = line(Coverage::GeneralLiability, shifted(as_of(), -2));
    a.policy_number = "P-A".to_string();
    let evaluation = evaluate(
        &cert(vec![b.clone(), a, b, line(Coverage::WorkersComp, future())]),
        &config(false),
        as_of(),
    );
    assert_eq!(evaluation.findings.len(), 1);
    assert_eq!(
        evaluation.findings[0].message,
        "required coverage GL has no policy valid as of 2026-09-22: every line is expired (P-A, P-B)"
    );
}

#[test]
fn coi_uncountable_windows_are_told() {
    let mut wide = config(true);
    wide.expiry_warning_days = MAX_WINDOW_DAYS + 1;
    let certificate = cert(vec![line(Coverage::GeneralLiability, future())]);
    assert!(try_evaluate(&certificate, &wide, as_of()).is_none());
    // Without a current policy the window is never counted.
    assert!(try_evaluate(&cert(vec![]), &wide, as_of()).is_some());
    wide.expiry_warning_days = MAX_WINDOW_DAYS;
    let evaluation = try_evaluate(&certificate, &wide, as_of()).expect("countable");
    assert!(finding_with_rule(&evaluation, RULE_EXPIRING_SOON).is_empty());
}

#[test]
fn coi_money_keeps_the_extremes() {
    assert_eq!(format_cents(99_999), "$999.99");
    assert_eq!(format_cents(100_000), "$1,000.00");
    assert_eq!(format_cents(100_000_100), "$1,000,001.00");
    assert_eq!(
        format_cents(i128::MIN),
        "-$1,701,411,834,604,692,317,316,873,037,158,841,057.28"
    );
}

#[test]
fn coi_explain_is_exact() {
    assert_eq!(
        explain(&config(true)),
        "coi-spine 0.1.0 — rule set in force (spine 1.0.0)\nexpiry warning window: 30 day(s) (inclusive) | carrier rating floor: A- | lockout: advisory recommendation only — a human executes any PO hold\nmoney is integer cents; limits shown in dollars\n\ncategory electrical_contractor [critical]\n  GL: per-occurrence ≥ $1,000,000.00, aggregate ≥ $2,000,000.00, endorsements: additional_insured\n  WC: per-occurrence ≥ $500,000.00, aggregate ≥ $500,000.00, endorsements: none\n\nmatrix is seed data — verify against executed contracts before relying on it\n"
    );
}

#[test]
fn coi_vocabulary_is_closed() {
    assert_eq!(CarrierRating::APlusPlus.as_str(), "a_plus_plus");
    assert_eq!(CarrierRating::CMinus.label(), "C-");
    assert_eq!(Coverage::Umbrella.as_str(), "umbrella");
    assert_eq!(Coverage::Auto.as_label(), "Auto");
    assert_eq!(Endorsement::WaiverOfSubrogation.as_str(), "waiver_of_subrogation");
    assert!(CarrierRating::BPlus.is_below(CarrierRating::AMinus));
    assert!(!CarrierRating::AMinus.is_below(CarrierRating::AMinus));
    assert!(CarrierRating::APlusPlus < CarrierRating::F);
}
