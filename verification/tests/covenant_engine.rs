//! Covenant tests: ratios, thresholds, cures, amendments, and projections.

use control_spine::covenant::config::{
    Basis, CovenantConfig, CovenantKind, CovenantRule, EquityCure, ProjectionConfig,
};
use control_spine::covenant::engine::{
    evaluate, ols_slope, try_evaluate, CovenantResult, Evaluation,
};
use control_spine::covenant::input::{Financials, PeriodFinancials};
use control_spine::covenant::units::{Cents, Ratio};
use control_spine::date::Date;
use control_spine::spine::{Finding, Severity};

fn date(s: &str) -> Date {
    Date::parse(s).unwrap()
}

fn cents(v: i128) -> Cents {
    Cents::from_cents(v)
}

fn ratio(s: &str) -> Ratio {
    Ratio::from_decimal_str(s).unwrap()
}

fn period(id: &str, end: &str, ebitda: i128) -> PeriodFinancials {
    PeriodFinancials {
        period_id: id.to_string(),
        period_end: date(end),
        total_debt_cents: cents(3_500_000_000), // $35M
        ebitda_cents: cents(ebitda),
        interest_expense_cents: cents(250_000_000),
        current_assets_cents: cents(2_000_000_000),
        current_liabilities_cents: cents(1_000_000_000),
        rent_expense_cents: cents(50_000_000),
        current_maturities_cents: cents(25_000_000),
    }
}

/// Four quarters of $2.5M EBITDA each → $10M LTM EBITDA; $35M debt →
/// 3.5x LTM leverage; $10M LTM interest → 1.0x coverage.
fn base_periods() -> Vec<PeriodFinancials> {
    vec![
        period("2025-Q3", "2025-09-30", 250_000_000),
        period("2025-Q4", "2025-12-31", 250_000_000),
        period("2026-Q1", "2026-03-31", 250_000_000),
        period("2026-Q2", "2026-06-30", 250_000_000),
    ]
}

fn measured(p: Vec<PeriodFinancials>, m: &str) -> Financials {
    Financials {
        entity: "ACME".to_string(),
        measurement_date: date(m),
        periods: p,
    }
}

fn fin(p: Vec<PeriodFinancials>) -> Financials {
    measured(p, "2026-06-30")
}

fn rule(id: &str, kind: CovenantKind, threshold: &str, basis: Basis) -> CovenantRule {
    CovenantRule {
        id: id.to_string(),
        kind,
        threshold: ratio(threshold),
        basis,
        effective_from: date("2000-01-01"),
        effective_to: None,
    }
}

fn config_with(covenants: Vec<CovenantRule>) -> CovenantConfig {
    CovenantConfig {
        covenants,
        ..Default::default()
    }
}

fn result_for<'a>(ev: &'a Evaluation, id: &str) -> &'a CovenantResult {
    ev.results
        .iter()
        .find(|r| r.covenant_id == id)
        .unwrap_or_else(|| panic!("no result for {id}"))
}

fn finding_for<'a>(ev: &'a Evaluation, id: &str) -> &'a Finding {
    ev.findings
        .iter()
        .find(|f| f.subject == id)
        .unwrap_or_else(|| panic!("no finding for {id}"))
}

#[test]
fn max_leverage_both_sides_of_threshold() {
    // $35M debt / $10M LTM EBITDA = 3.5x.
    let cfg = config_with(vec![rule(
        "LEV",
        CovenantKind::MaxLeverage,
        "4.00",
        Basis::Ltm,
    )]);
    let ev = evaluate(&cfg, &fin(base_periods()));
    let r = result_for(&ev, "LEV");
    assert!(r.passed);
    assert_eq!(r.ratio, Some(ratio("3.5")));
    // Headroom sign: positive when compliant.
    assert_eq!(r.headroom, Some(ratio("0.5")));
    let f = finding_for(&ev, "LEV");
    assert_eq!(f.severity, Severity::Info);
    assert!(!f.requires_signoff);

    let cfg = config_with(vec![rule(
        "LEV",
        CovenantKind::MaxLeverage,
        "3.00",
        Basis::Ltm,
    )]);
    let ev = evaluate(&cfg, &fin(base_periods()));
    let r = result_for(&ev, "LEV");
    assert!(!r.passed);
    // Headroom sign: negative when in breach.
    assert_eq!(r.headroom, Some(ratio("-0.5")));
    let f = finding_for(&ev, "LEV");
    assert_eq!(f.severity, Severity::Breach);
    assert!(f.requires_signoff);
}

#[test]
fn min_interest_coverage_both_sides_of_threshold() {
    // $10M LTM EBITDA / $10M LTM interest = 1.0x.
    let cfg = config_with(vec![rule(
        "IC",
        CovenantKind::MinInterestCoverage,
        "0.90",
        Basis::Ltm,
    )]);
    let ev = evaluate(&cfg, &fin(base_periods()));
    let r = result_for(&ev, "IC");
    assert!(r.passed);
    assert_eq!(r.ratio, Some(ratio("1")));
    assert_eq!(r.headroom, Some(ratio("0.1")));

    let cfg = config_with(vec![rule(
        "IC",
        CovenantKind::MinInterestCoverage,
        "1.50",
        Basis::Ltm,
    )]);
    let ev = evaluate(&cfg, &fin(base_periods()));
    let r = result_for(&ev, "IC");
    assert!(!r.passed);
    assert_eq!(r.headroom, Some(ratio("-0.5")));
    assert_eq!(finding_for(&ev, "IC").severity, Severity::Breach);
}

#[test]
fn min_current_ratio_both_sides_of_threshold() {
    // $20M current assets / $10M current liabilities = 2.0x.
    let cfg = config_with(vec![rule(
        "CR",
        CovenantKind::MinCurrentRatio,
        "1.50",
        Basis::Quarterly,
    )]);
    let ev = evaluate(&cfg, &fin(base_periods()));
    let r = result_for(&ev, "CR");
    assert!(r.passed);
    assert_eq!(r.ratio, Some(ratio("2")));
    assert_eq!(r.headroom, Some(ratio("0.5")));

    let cfg = config_with(vec![rule(
        "CR",
        CovenantKind::MinCurrentRatio,
        "2.50",
        Basis::Quarterly,
    )]);
    let ev = evaluate(&cfg, &fin(base_periods()));
    let r = result_for(&ev, "CR");
    assert!(!r.passed);
    assert_eq!(r.headroom, Some(ratio("-0.5")));
    assert_eq!(finding_for(&ev, "CR").severity, Severity::Breach);
}

#[test]
fn min_fixed_charge_coverage_both_sides_with_exact_truncation() {
    // numerator = $10M EBITDA + 4x$0.5M rent = $12M;
    // denominator = $10M interest + $2M rent + $1M maturities = $13M;
    // 12/13 = 0.9230769... -> truncated at millionths to 0.923076x.
    let cfg = config_with(vec![rule(
        "FCC",
        CovenantKind::MinFixedChargeCoverage,
        "0.90",
        Basis::Ltm,
    )]);
    let ev = evaluate(&cfg, &fin(base_periods()));
    let r = result_for(&ev, "FCC");
    assert!(r.passed);
    assert_eq!(r.ratio, Some(Ratio::from_scaled(923_076)));
    assert_eq!(r.headroom, Some(Ratio::from_scaled(23_076)));

    let cfg = config_with(vec![rule(
        "FCC",
        CovenantKind::MinFixedChargeCoverage,
        "1.00",
        Basis::Ltm,
    )]);
    let ev = evaluate(&cfg, &fin(base_periods()));
    assert!(!result_for(&ev, "FCC").passed);
    assert_eq!(finding_for(&ev, "FCC").severity, Severity::Breach);
}

#[test]
fn threshold_boundary_is_inclusive() {
    // Exactly at the threshold: compliant for both directions.
    let cfg = config_with(vec![
        rule("LEV", CovenantKind::MaxLeverage, "3.50", Basis::Ltm),
        rule("IC", CovenantKind::MinInterestCoverage, "1.00", Basis::Ltm),
    ]);
    let ev = evaluate(&cfg, &fin(base_periods()));
    assert!(result_for(&ev, "LEV").passed);
    assert!(result_for(&ev, "IC").passed);
    assert_eq!(result_for(&ev, "LEV").headroom, Some(ratio("0")));
    let f = finding_for(&ev, "LEV");
    assert_eq!(f.severity, Severity::Info);
    assert!(f.message.contains("headroom 0x"));
}

#[test]
fn non_positive_ebitda_is_automatic_breach_not_panic() {
    let negative = base_periods()
        .into_iter()
        .map(|mut p| {
            p.ebitda_cents = cents(-100_000_000);
            p
        })
        .collect();
    let cfg = config_with(vec![rule(
        "LEV",
        CovenantKind::MaxLeverage,
        "3.00",
        Basis::Ltm,
    )]);
    let ev = evaluate(&cfg, &fin(negative));
    let r = result_for(&ev, "LEV");
    assert!(!r.passed);
    assert_eq!(r.ratio, None);
    let f = finding_for(&ev, "LEV");
    assert_eq!(f.severity, Severity::Breach);
    assert!(f.message.contains("automatic breach"));

    let zero = base_periods()
        .into_iter()
        .map(|mut p| {
            p.ebitda_cents = cents(0);
            p
        })
        .collect();
    let cfg = config_with(vec![rule(
        "IC",
        CovenantKind::MinInterestCoverage,
        "1.00",
        Basis::Ltm,
    )]);
    let ev = evaluate(&cfg, &fin(zero));
    let r = result_for(&ev, "IC");
    assert!(!r.passed);
    assert_eq!(r.ratio, None);
    assert!(finding_for(&ev, "IC").message.contains("automatic breach"));
}

#[test]
fn ltm_sums_only_the_trailing_four_quarters() {
    let mut periods = vec![period("2025-Q2", "2025-06-30", 2_500_000_000)]; // $25M spike quarter
    periods.extend(base_periods());
    let cfg = config_with(vec![rule(
        "LEV",
        CovenantKind::MaxLeverage,
        "4.00",
        Basis::Ltm,
    )]);
    let ev = evaluate(&cfg, &fin(periods));
    // Trailing four quarters are $2.5M each -> $10M LTM EBITDA -> 3.5x,
    // not the all-history sum ($35M) which would read 1.0x.
    assert_eq!(result_for(&ev, "LEV").ratio, Some(ratio("3.5")));
}

#[test]
fn ltm_basis_with_insufficient_history_fails_closed() {
    let periods = vec![
        period("2026-Q1", "2026-03-31", 250_000_000),
        period("2026-Q2", "2026-06-30", 250_000_000),
    ];
    let cfg = config_with(vec![
        rule("LEV-L", CovenantKind::MaxLeverage, "3.50", Basis::Ltm),
        rule(
            "LEV-Q",
            CovenantKind::MaxLeverage,
            "20.00",
            Basis::Quarterly,
        ),
    ]);
    let ev = evaluate(&cfg, &fin(periods));
    let f = finding_for(&ev, "LEV-L");
    assert_eq!(f.rule_id, "ltm-history-insufficient");
    assert_eq!(f.severity, Severity::Breach);
    // The quarterly covenant still evaluates: the refusal is scoped to
    // the covenant that lacks history, not a blanket stop.
    assert!(result_for(&ev, "LEV-Q").passed);
    assert!(ev.results.iter().all(|r| r.covenant_id != "LEV-L"));
}

#[test]
fn effective_dated_amendment_tests_the_text_in_force() {
    let amended = |from: &str, to: Option<&str>, threshold: &str| CovenantRule {
        id: "LEV".to_string(),
        kind: CovenantKind::MaxLeverage,
        threshold: ratio(threshold),
        basis: Basis::Quarterly,
        effective_from: date(from),
        effective_to: to.map(date),
    };
    let config = CovenantConfig {
        covenants: vec![
            amended("2000-01-01", Some("2026-01-01"), "15.00"),
            amended("2026-01-01", None, "13.00"),
        ],
        ..Default::default()
    };

    // Before the amendment date the old text (15x) is in force: 14x passes.
    let old = evaluate(&config, &measured(base_periods(), "2025-12-31"));
    assert!(result_for(&old, "LEV").passed);
    assert_eq!(result_for(&old, "LEV").threshold, ratio("15.00"));

    // On/after the amendment date the new text (13x) is in force: 14x breaches.
    let new = evaluate(&config, &measured(base_periods(), "2026-06-30"));
    assert!(!result_for(&new, "LEV").passed);
    assert_eq!(result_for(&new, "LEV").threshold, ratio("13.00"));
    assert_eq!(finding_for(&new, "LEV").severity, Severity::Breach);
}

#[test]
fn overlapping_versions_fail_closed() {
    let config = config_with(vec![
        rule("LEV", CovenantKind::MaxLeverage, "15.00", Basis::Quarterly),
        rule("LEV", CovenantKind::MaxLeverage, "13.00", Basis::Quarterly),
    ]);
    let ev = evaluate(&config, &fin(base_periods()));
    let f = finding_for(&ev, "LEV");
    assert_eq!(f.rule_id, "ambiguous-covenant-versions");
    assert_eq!(f.severity, Severity::Breach);
    assert!(ev.results.iter().all(|r| r.covenant_id != "LEV"));
}

#[test]
fn covenant_not_yet_in_force_is_reported_and_skipped() {
    let future = CovenantRule {
        effective_from: date("2027-01-01"),
        ..rule("LEV", CovenantKind::MaxLeverage, "3.50", Basis::Ltm)
    };
    let ev = evaluate(&config_with(vec![future]), &fin(base_periods()));
    let f = finding_for(&ev, "LEV");
    assert_eq!(f.severity, Severity::Info);
    assert!(!f.requires_signoff);
    assert!(ev.results.is_empty());
}

#[test]
fn equity_cure_debt_reduction_flips_breach_to_pass() {
    let cure = EquityCure {
        description: "Q2 cure".to_string(),
        effective_from: date("2026-01-01"),
        effective_to: None,
        add_to_ebitda_cents: cents(0),
        reduce_debt_cents: cents(1_000_000_000),
    };
    let cfg = CovenantConfig {
        covenants: vec![rule("LEV", CovenantKind::MaxLeverage, "3.00", Basis::Ltm)],
        equity_cures: vec![cure],
        ..Default::default()
    };
    let ev = evaluate(&cfg, &fin(base_periods()));
    // $25M adjusted debt / $10M LTM EBITDA = 2.5x -> pass.
    assert_eq!(result_for(&ev, "LEV").ratio, Some(ratio("2.5")));
    assert!(result_for(&ev, "LEV").passed);
}

#[test]
fn equity_cure_outside_its_window_is_not_applied() {
    let cure = EquityCure {
        description: "future cure".to_string(),
        effective_from: date("2026-07-01"),
        effective_to: None,
        add_to_ebitda_cents: cents(0),
        reduce_debt_cents: cents(1_000_000_000),
    };
    let cfg = CovenantConfig {
        covenants: vec![rule("LEV", CovenantKind::MaxLeverage, "3.00", Basis::Ltm)],
        equity_cures: vec![cure],
        ..Default::default()
    };
    let ev = evaluate(&cfg, &fin(base_periods()));
    assert!(!result_for(&ev, "LEV").passed); // still 3.5x vs 3.0x
}

#[test]
fn equity_cure_ebitda_addition_applies_to_coverage() {
    // 1.0x coverage vs a 1.5x minimum breaches; +$7.5M cure EBITDA
    // lifts it to 1.75x.
    let cure = EquityCure {
        description: "ebitda cure".to_string(),
        effective_from: date("2026-01-01"),
        effective_to: None,
        add_to_ebitda_cents: cents(750_000_000),
        reduce_debt_cents: cents(0),
    };
    let cfg = CovenantConfig {
        covenants: vec![rule(
            "IC",
            CovenantKind::MinInterestCoverage,
            "1.50",
            Basis::Ltm,
        )],
        equity_cures: vec![cure],
        ..Default::default()
    };
    let ev = evaluate(&cfg, &fin(base_periods()));
    assert_eq!(result_for(&ev, "IC").ratio, Some(ratio("1.75")));
    assert!(result_for(&ev, "IC").passed);
}

#[test]
fn projection_warns_when_trend_crosses_within_horizon() {
    let ids = [
        ("2025-Q3", "2025-09-30"),
        ("2025-Q4", "2025-12-31"),
        ("2026-Q1", "2026-03-31"),
        ("2026-Q2", "2026-06-30"),
    ];
    let ebitda = [300_000_000i128, 280_000_000, 260_000_000, 240_000_000];
    let periods: Vec<PeriodFinancials> = ids
        .iter()
        .zip(ebitda)
        .map(|((id, end), e)| {
            let mut p = period(id, end, e);
            // $10M debt — the helper's $35M would already be in breach.
            p.total_debt_cents = cents(1_000_000_000);
            p
        })
        .collect();
    let cfg = CovenantConfig {
        covenants: vec![rule(
            "LEV",
            CovenantKind::MaxLeverage,
            "4.20",
            Basis::Quarterly,
        )],
        projection: ProjectionConfig {
            horizon_quarters: 4,
            min_history_points: 2,
        },
        ..Default::default()
    };
    let ev = evaluate(&cfg, &fin(periods));
    // Measurement: $10M / $2.4M = 4.166666x — passes 4.2x.
    let r = result_for(&ev, "LEV");
    assert!(r.passed);
    let proj = ev
        .findings
        .iter()
        .find(|f| f.rule_id == "covenant-projection")
        .expect("projection finding");
    assert_eq!(proj.severity, Severity::Warn);
    assert_eq!(proj.subject, "LEV");
    assert!(
        proj.message.contains("quarter +1"),
        "message: {}",
        proj.message
    );
}

#[test]
fn projection_stays_silent_when_improving_or_already_breached() {
    let ids = [
        ("2025-Q3", "2025-09-30"),
        ("2025-Q4", "2025-12-31"),
        ("2026-Q1", "2026-03-31"),
        ("2026-Q2", "2026-06-30"),
    ];
    // Improving EBITDA -> leverage falls -> no crossing.
    let ebitda = [240_000_000i128, 260_000_000, 280_000_000, 300_000_000];
    let periods: Vec<PeriodFinancials> = ids
        .iter()
        .zip(ebitda)
        .map(|((id, end), e)| {
            let mut p = period(id, end, e);
            // $10M debt — the helper's $35M would already be in breach.
            p.total_debt_cents = cents(1_000_000_000);
            p
        })
        .collect();
    let cfg = config_with(vec![rule(
        "LEV",
        CovenantKind::MaxLeverage,
        "4.20",
        Basis::Quarterly,
    )]);
    let ev = evaluate(&cfg, &fin(periods));
    assert!(result_for(&ev, "LEV").passed);
    assert!(ev
        .findings
        .iter()
        .all(|f| f.rule_id != "covenant-projection"));

    // Already in breach: the breach finding covers it; no projection on top.
    let ebitda = [300_000_000i128, 280_000_000, 260_000_000, 240_000_000];
    let periods: Vec<PeriodFinancials> = ids
        .iter()
        .zip(ebitda)
        .map(|((id, end), e)| {
            let mut p = period(id, end, e);
            // $10M debt — 10/2.4 ≈ 4.167x breaches the 4.00x threshold.
            p.total_debt_cents = cents(1_000_000_000);
            p
        })
        .collect();
    let cfg = config_with(vec![rule(
        "LEV",
        CovenantKind::MaxLeverage,
        "4.00",
        Basis::Quarterly,
    )]);
    let ev = evaluate(&cfg, &fin(periods));
    assert!(!result_for(&ev, "LEV").passed);
    assert!(ev
        .findings
        .iter()
        .all(|f| f.rule_id != "covenant-projection"));
}

#[test]
fn projection_without_enough_computable_points_is_skipped_visibly() {
    let periods = vec![period("2026-Q2", "2026-06-30", 250_000_000)];
    let cfg = config_with(vec![rule(
        "LEV",
        CovenantKind::MaxLeverage,
        "20.00",
        Basis::Quarterly,
    )]);
    let ev = evaluate(&cfg, &fin(periods));
    let proj = ev
        .findings
        .iter()
        .find(|f| f.rule_id == "covenant-projection")
        .expect("projection-skip finding");
    assert_eq!(proj.severity, Severity::Info);
    assert!(proj.message.contains("projection skipped"));
}

#[test]
fn non_positive_denominators_pass_vacuously_with_warning() {
    // Interest coverage with zero interest.
    let mut periods = base_periods();
    for p in &mut periods {
        p.interest_expense_cents = cents(0);
    }
    let cfg = config_with(vec![rule(
        "IC",
        CovenantKind::MinInterestCoverage,
        "0.50",
        Basis::Ltm,
    )]);
    let ev = evaluate(&cfg, &fin(periods));
    let r = result_for(&ev, "IC");
    assert!(r.passed);
    assert_eq!(r.ratio, None);
    let f = finding_for(&ev, "IC");
    assert_eq!(f.severity, Severity::Warn);
    assert!(!f.requires_signoff);
    assert!(f.message.contains("vacuous pass"));

    // Current ratio with zero liabilities.
    let mut periods = base_periods();
    for p in &mut periods {
        p.current_liabilities_cents = cents(0);
    }
    let cfg = config_with(vec![rule(
        "CR",
        CovenantKind::MinCurrentRatio,
        "1.00",
        Basis::Quarterly,
    )]);
    let ev = evaluate(&cfg, &fin(periods));
    let r = result_for(&ev, "CR");
    assert!(r.passed && r.ratio.is_none());
    assert_eq!(finding_for(&ev, "CR").severity, Severity::Warn);

    // Fixed-charge coverage with zero fixed charges.
    let mut periods = base_periods();
    for p in &mut periods {
        p.interest_expense_cents = cents(0);
        p.rent_expense_cents = cents(0);
        p.current_maturities_cents = cents(0);
    }
    let cfg = config_with(vec![rule(
        "FCC",
        CovenantKind::MinFixedChargeCoverage,
        "1.00",
        Basis::Ltm,
    )]);
    let ev = evaluate(&cfg, &fin(periods));
    let r = result_for(&ev, "FCC");
    assert!(r.passed && r.ratio.is_none());
    assert_eq!(finding_for(&ev, "FCC").severity, Severity::Warn);
}

#[test]
fn duplicate_period_data_fails_closed() {
    let cfg = config_with(vec![rule(
        "LEV",
        CovenantKind::MaxLeverage,
        "3.50",
        Basis::Ltm,
    )]);

    let mut periods = base_periods();
    periods.push(period("2025-Q3", "2026-09-30", 250_000_000)); // duplicate id
    let ev = evaluate(&cfg, &fin(periods));
    let f = ev
        .findings
        .iter()
        .find(|f| f.rule_id == "input-data-error")
        .expect("data-error finding");
    assert_eq!(f.severity, Severity::Breach);
    assert_eq!(f.subject, "financials");
    assert!(ev.results.is_empty()); // nothing evaluated — no partial results

    let mut periods = base_periods();
    periods.push(period("2026-Q3", "2025-09-30", 250_000_000)); // duplicate end, unique id
    let ev = evaluate(&cfg, &fin(periods));
    assert!(
        ev.findings
            .iter()
            .any(|f| f.rule_id == "input-data-error"
                && f.message.contains("duplicate period_end"))
    );
}

#[test]
fn measurement_before_all_periods_fails_closed() {
    let cfg = config_with(vec![rule(
        "LEV",
        CovenantKind::MaxLeverage,
        "3.50",
        Basis::Ltm,
    )]);
    let ev = evaluate(&cfg, &measured(base_periods(), "2025-01-01"));
    let f = ev
        .findings
        .iter()
        .find(|f| f.rule_id == "input-data-error")
        .expect("data-error finding");
    assert_eq!(f.severity, Severity::Breach);
    assert!(f.message.contains("no period ends on or before"));
    assert!(ev.results.is_empty());
}

#[test]
fn unsorted_input_periods_evaluate_identically() {
    let cfg = config_with(vec![
        rule("LEV", CovenantKind::MaxLeverage, "4.00", Basis::Ltm),
        rule("IC", CovenantKind::MinInterestCoverage, "0.90", Basis::Ltm),
    ]);
    let sorted = evaluate(&cfg, &fin(base_periods()));
    let mut shuffled = base_periods();
    shuffled.reverse();
    let reversed = evaluate(&cfg, &fin(shuffled));
    assert_eq!(sorted.results, reversed.results);
    let subjects = |ev: &Evaluation| {
        ev.findings
            .iter()
            .map(|f| (f.rule_id.clone(), f.subject.clone()))
            .collect::<Vec<_>>()
    };
    assert_eq!(subjects(&sorted), subjects(&reversed));
}

#[test]
fn ols_slope_is_deterministic_integer_arithmetic() {
    let two_point =
        ols_slope(&[Ratio::from_scaled(1_000_000), Ratio::from_scaled(2_000_000)]).unwrap();
    assert_eq!(two_point.scaled(), 1_000_000);
    // Truncating division: same input -> same output, always.
    let flat = ols_slope(&[
        Ratio::from_scaled(5),
        Ratio::from_scaled(7),
        Ratio::from_scaled(9),
    ])
    .unwrap();
    assert_eq!(flat.scaled(), 2);
    assert_eq!(ols_slope(&[Ratio::from_scaled(3)]), None);
}

#[test]
fn covenant_sums_that_do_not_fit_are_told() {
    let mut periods = base_periods();
    for p in &mut periods {
        p.ebitda_cents = cents(i128::MAX);
    }
    let cfg = config_with(vec![rule("LEV", CovenantKind::MaxLeverage, "4.00", Basis::Ltm)]);
    assert!(try_evaluate(&cfg, &fin(periods)).is_none());
    assert!(try_evaluate(&cfg, &fin(base_periods())).is_some());
}

#[test]
fn covenant_messages_name_the_numbers() {
    let cfg = config_with(vec![rule("LEV", CovenantKind::MaxLeverage, "3.00", Basis::Ltm)]);
    let ev = evaluate(&cfg, &fin(base_periods()));
    let f = finding_for(&ev, "LEV");
    assert!(f.message.contains("3.5x"), "{}", f.message);
    assert!(f.message.contains("3x"), "{}", f.message);
    assert!(f.message.contains("-0.5x"), "{}", f.message);
}

#[test]
fn covenant_output_follows_the_configuration() {
    let mut gone = rule("OLD", CovenantKind::MaxLeverage, "9.00", Basis::Ltm);
    gone.effective_to = Some(date("2001-01-01"));
    let mut amended = rule("LEV", CovenantKind::MaxLeverage, "3.00", Basis::Ltm);
    amended.effective_from = date("2030-01-01");
    let mut first = rule("LEV", CovenantKind::MaxLeverage, "4.00", Basis::Ltm);
    first.effective_to = Some(date("2030-01-01"));
    let cfg = config_with(vec![
        rule("Z-ICR", CovenantKind::MinInterestCoverage, "2.00", Basis::Ltm),
        first,
        gone,
        amended,
        rule("A-CUR", CovenantKind::MinCurrentRatio, "1.00", Basis::Quarterly),
    ]);
    let ev = evaluate(&cfg, &fin(base_periods()));
    let results: Vec<&str> = ev.results.iter().map(|r| r.covenant_id.as_str()).collect();
    assert_eq!(results, vec!["Z-ICR", "LEV", "A-CUR"]);
    let mut subjects: Vec<&str> = ev.findings.iter().map(|f| f.subject.as_str()).collect();
    subjects.dedup();
    assert_eq!(subjects, vec!["Z-ICR", "LEV", "OLD", "A-CUR"]);
    assert_eq!(ev.clone().results, ev.results);
}
