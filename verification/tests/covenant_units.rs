//! Covenant units, configuration, and inputs.

use control_spine::covenant::config::{
    covenant_ids, validate, versions_in_force, Basis, ConfigError, CovenantConfig, CovenantKind,
    CovenantRule, EquityCure, ProjectionConfig,
};
use control_spine::covenant::explain::explain;
use control_spine::covenant::input::PeriodFinancials;
use control_spine::covenant::units::{Cents, Ratio};
use control_spine::date::Date;

#[test]
fn cents_parse_rejects_non_integer_strings() {
    assert!(Cents::from_decimal_str("1234500").is_ok());
    assert!(Cents::from_decimal_str("-1234500").is_ok());
    assert!(Cents::from_decimal_str("12.5").is_err());
    assert!(Cents::from_decimal_str("").is_err());
    assert!(Cents::from_decimal_str("12a").is_err());
    assert!(Cents::from_decimal_str("1 2").is_err());
}

#[test]
fn ratio_parses_exact_decimals_and_bounds_fraction_digits() {
    assert_eq!(Ratio::from_decimal_str("3.50").unwrap().scaled(), 3_500_000);
    assert_eq!(Ratio::from_decimal_str("0.000001").unwrap().scaled(), 1);
    assert_eq!(
        Ratio::from_decimal_str("0.903175").unwrap().scaled(),
        903_175
    );
    assert_eq!(Ratio::from_decimal_str("-0.5").unwrap().scaled(), -500_000);
    assert_eq!(Ratio::from_decimal_str(".5").unwrap().scaled(), 500_000);
    assert_eq!(Ratio::from_decimal_str("4").unwrap().scaled(), 4_000_000);
    // Seven fractional digits would lose precision — refused.
    assert!(Ratio::from_decimal_str("3.5045671").is_err());
    assert!(Ratio::from_decimal_str("3.").is_err());
    assert!(Ratio::from_decimal_str(".").is_err());
    assert!(Ratio::from_decimal_str("").is_err());
    assert!(Ratio::from_decimal_str("abc").is_err());
}

#[test]
fn ratio_decimal_string_roundtrips() {
    for raw in ["3.5", "-0.6", "0.000001", "0", "14", "0.903175"] {
        let r = Ratio::from_decimal_str(raw).unwrap();
        assert_eq!(r.to_decimal_string(), raw, "roundtrip {raw}");
    }
}

#[test]
fn cents_and_ratio_serialize_as_strings() {
    let amount = Cents::from_cents(-1_234_500);
    let ratio = Ratio::from_scaled(3_500_000);
    assert_eq!(amount.text(), "-1234500");
    assert_eq!(ratio.to_decimal_string(), "3.5");
    assert_eq!(Cents::from_decimal_str("-1234500"), Ok(amount));
    assert_eq!(Ratio::from_decimal_str("3.5"), Ok(ratio));
}

fn date(s: &str) -> Date {
    Date::parse(s).unwrap()
}

fn rule(id: &str, threshold: &str, from: &str, to: Option<&str>) -> CovenantRule {
    CovenantRule {
        id: id.to_string(),
        kind: CovenantKind::MaxLeverage,
        threshold: Ratio::from_decimal_str(threshold).unwrap(),
        basis: Basis::Ltm,
        effective_from: date(from),
        effective_to: to.map(date),
    }
}

#[test]
fn config_defaults_apply_when_sections_absent() {
    let cfg: CovenantConfig = CovenantConfig::default();
    assert!(cfg.covenants.is_empty());
    assert_eq!(cfg.projection.horizon_quarters, 4);
    assert_eq!(cfg.projection.min_history_points, 2);
    assert!(validate(&cfg).is_ok());
}

#[test]
fn is_in_force_window_is_half_open() {
    let r = rule("LEV", "3.5", "2026-01-01", Some("2027-01-01"));
    assert!(!r.is_in_force(date("2025-12-31")));
    assert!(r.is_in_force(date("2026-01-01")));
    assert!(r.is_in_force(date("2026-12-31")));
    assert!(!r.is_in_force(date("2027-01-01")));

    let open = rule("LEV", "3.5", "2026-01-01", None);
    assert!(open.is_in_force(date("2999-12-31")));
}

#[test]
fn validate_rejects_negative_thresholds_and_empty_ids() {
    let mut negative = rule("LEV", "3.5", "2020-01-01", None);
    negative.threshold = Ratio::from_scaled(-1);
    assert!(validate(&CovenantConfig {
        covenants: vec![negative],
        ..Default::default()
    })
    .is_err());

    let blank = rule("  ", "3.5", "2020-01-01", None);
    assert!(validate(&CovenantConfig {
        covenants: vec![blank],
        ..Default::default()
    })
    .is_err());
}

#[test]
fn validate_rejects_inverted_windows() {
    let bad = rule("LEV", "3.5", "2026-01-01", Some("2025-01-01"));
    assert!(validate(&CovenantConfig {
        covenants: vec![bad],
        ..Default::default()
    })
    .is_err());

    let cure = EquityCure {
        description: "cure".into(),
        effective_from: date("2026-01-01"),
        effective_to: Some(date("2025-01-01")),
        add_to_ebitda_cents: Cents::from_cents(0),
        reduce_debt_cents: Cents::from_cents(0),
    };
    assert!(validate(&CovenantConfig {
        equity_cures: vec![cure],
        ..Default::default()
    })
    .is_err());
}

#[test]
fn validate_rejects_degenerate_projection_settings() {
    let cfg = CovenantConfig {
        projection: ProjectionConfig {
            horizon_quarters: 0,
            min_history_points: 2,
        },
        ..Default::default()
    };
    assert!(validate(&cfg).is_err());

    let cfg = CovenantConfig {
        projection: ProjectionConfig {
            horizon_quarters: 4,
            min_history_points: 1,
        },
        ..Default::default()
    };
    assert!(validate(&cfg).is_err());
}

#[test]
fn money_fields_are_string_cents() {
    let amount = |raw: &str| Cents::from_decimal_str(raw).unwrap();
    let p = PeriodFinancials {
        period_id: "Q1".to_string(),
        period_end: date("2026-03-31"),
        total_debt_cents: amount("3500000000"),
        ebitda_cents: amount("-100"),
        interest_expense_cents: amount("0"),
        current_assets_cents: amount("0"),
        current_liabilities_cents: amount("0"),
        rent_expense_cents: amount("0"),
        current_maturities_cents: amount("0"),
    };
    assert_eq!(p.ebitda_cents.get(), -100);
    assert_eq!(p.total_debt_cents.get(), 3_500_000_000);
}

#[test]
fn covenant_units_add_up() {
    assert_eq!(Cents::from_cents(5) + Cents::from_cents(-7), Cents::from_cents(-2));
    assert_eq!(Cents::from_cents(5) - Cents::from_cents(-7), Cents::from_cents(12));
    assert_eq!(Ratio::from_scaled(5) + Ratio::from_scaled(6), Ratio::from_scaled(11));
    assert_eq!(Ratio::from_scaled(5) - Ratio::from_scaled(6), Ratio::from_scaled(-1));
    assert_eq!(Ratio::from_scaled(5) * 3, Ratio::from_scaled(15));
    assert_eq!(Ratio::scaled_div(12, 13), Some(Ratio::from_scaled(923_076)));
    assert_eq!(Ratio::scaled_div(12, 0), None);
}

#[test]
fn covenant_texts_read_back_at_the_extremes() {
    for value in [0, 1, -1, i128::MAX, i128::MIN + 1, i128::MIN] {
        let cents = Cents::from_cents(value);
        assert_eq!(Cents::from_decimal_str(&cents.text()), Ok(cents));
    }
    // The magnitude of the least amount does not fit.
    let beyond = "-170141183460469231731687303715884105729";
    assert!(Cents::from_decimal_str(beyond).is_err());
    assert!(Cents::from_decimal_str("170141183460469231731687303715884105728").is_err());
    for value in [0, 1, -1, 999_999, -1_000_001, i128::MAX, i128::MIN + 1] {
        let ratio = Ratio::from_scaled(value);
        assert_eq!(
            Ratio::try_from_decimal_str(&ratio.to_decimal_string()),
            Some(Ok(ratio))
        );
    }
}

#[test]
fn covenant_parse_errors_read_well() {
    let cents = Cents::from_decimal_str("12.5").unwrap_err().message();
    assert!(cents.contains("12.5"), "{cents}");
    let ratio = Ratio::from_decimal_str("abc").unwrap_err().message();
    assert!(ratio.contains("abc"), "{ratio}");
}

#[test]
fn covenant_versions_are_counted_by_id() {
    let rules = vec![
        rule("LEV", "3.5", "2026-01-01", Some("2027-01-01")),
        rule("IC", "1.5", "2026-01-01", None),
        rule("LEV", "3.0", "2027-01-01", None),
    ];
    assert_eq!(covenant_ids(&rules), vec!["LEV".to_string(), "IC".to_string()]);
    assert_eq!(versions_in_force(&rules, "LEV", date("2026-12-31")), vec![0]);
    assert_eq!(versions_in_force(&rules, "LEV", date("2027-01-01")), vec![2]);
    assert!(versions_in_force(&rules, "LEV", date("2025-12-31")).is_empty());
}

#[test]
fn covenant_config_errors_read_well() {
    let blank = CovenantConfig {
        covenants: vec![rule("  ", "3.5", "2020-01-01", None)],
        ..Default::default()
    };
    let error: ConfigError = validate(&blank).unwrap_err();
    assert!(!error.message().is_empty());
    let inverted = CovenantConfig {
        covenants: vec![rule("LEV", "3.5", "2026-01-01", Some("2025-01-01"))],
        ..Default::default()
    };
    assert!(validate(&inverted).unwrap_err().message().contains("LEV"));
}

#[test]
fn covenant_explain_lists_versions_and_cures() {
    let config = CovenantConfig {
        covenants: vec![
            rule("LEV", "3.5", "2026-01-01", Some("2027-01-01")),
            rule("IC", "1.25", "2030-01-01", None),
            rule("FCC", "1", "2020-01-01", None),
            rule("FCC", "2", "2021-01-01", None),
        ],
        equity_cures: vec![EquityCure {
            description: "Q2 cure".to_string(),
            effective_from: date("2026-01-01"),
            effective_to: None,
            add_to_ebitda_cents: Cents::from_cents(5),
            reduce_debt_cents: Cents::from_cents(-7),
        }],
        ..Default::default()
    };
    let text = explain(&config, date("2026-06-30"));
    assert!(text.starts_with("covenants in force at 2026-06-30:\n  LEV: max leverage max 3.5x, basis ltm, window [2026-01-01, 2027-01-01)\n  IC: no version in force\n  FCC: AMBIGUOUS — 2 versions in force; compute refuses this config\n"), "{text}");
    assert!(text.contains("equity cures in force:\n  Q2 cure: add_to_ebitda 5 cents, reduce_debt -7 cents\n"));
    assert!(text.contains("projection: horizon 4 quarters, min history 2 points"));
    assert!(explain(&config, date("2025-01-01")).contains("equity cures in force: (none)\n"));
}
