//! One document for each way in which a document is refused.

use control_spine::capa::config as capa;
use control_spine::capa::model::{Category, Detectability};
use control_spine::commission::config as plan;
use control_spine::commission::evidence::{self, ComputeError, VerifyFailure};
use control_spine::commission::input::{self, InputError, Transaction, TransactionsFile, TxnKind};
use control_spine::contract_obligation::model as register;
use control_spine::covenant::config as covenant;
use control_spine::covenant::units::{Cents, Ratio};
use control_spine::date::Date;
use control_spine::spine::Severity;
use control_spine::table::Table;

fn day(s: &str) -> Date {
    Date::parse(s).unwrap()
}

// --- commission plans ---

fn good_plan() -> plan::PlanConfig {
    plan::PlanConfig {
        plan_id: "fy26".to_string(),
        versions: vec![plan::PlanVersion {
            version: 1,
            effective_from: day("2026-01-01"),
            effective_to: None,
            quota_cents: 1_000_000,
            band_mode: plan::BandMode::Marginal,
            bands: vec![
                plan::Band { up_to_ppm: Some(1_000_000), rate_bps: 200 },
                plan::Band { up_to_ppm: None, rate_bps: 500 },
            ],
            windfall_cap_ppm: None,
            max_spread_bps: None,
            role_weights: vec![plan::RoleWeight { role: "ae".to_string(), weight_bps: 10_000 }],
        }],
    }
}

fn plan_refusal(edit: fn(&mut plan::PlanVersion)) -> plan::ConfigError {
    let mut p = good_plan();
    assert_eq!(p.validate(), Ok(()));
    edit(&mut p.versions[0]);
    p.validate().unwrap_err()
}

#[test]
fn plans_with_bad_bands_are_refused() {
    let e = plan_refusal(|v| v.bands[0].up_to_ppm = Some(0));
    assert_eq!(e, plan::ConfigError::NonPositiveBandBound { version: 1, index: 0 });
    assert_eq!(e.message(), "plan version 1: band 0: up_to_ppm must be positive");

    let e = plan_refusal(|v| v.bands[1].up_to_ppm = Some(1_000_000));
    assert_eq!(e, plan::ConfigError::BandsNotAscending { version: 1, index: 1 });
    assert_eq!(
        e.message(),
        "plan version 1: band 1: bands must ascend strictly by up_to_ppm"
    );
}

#[test]
fn plans_with_a_cap_of_zero_are_refused() {
    let e = plan_refusal(|v| v.windfall_cap_ppm = Some(0));
    assert_eq!(e, plan::ConfigError::NonPositiveWindfallCap { version: 1 });
    assert_eq!(e.message(), "plan version 1: windfall cap must be positive");
}

#[test]
fn plans_with_bad_weights_are_refused() {
    let e = plan_refusal(|v| v.role_weights.clear());
    assert_eq!(e, plan::ConfigError::EmptyRoleWeights { version: 1 });
    assert_eq!(e.message(), "plan version 1: role weights must be non-empty");

    let e = plan_refusal(|v| {
        let again = v.role_weights[0].clone();
        v.role_weights.push(again);
    });
    assert_eq!(e, plan::ConfigError::DuplicateRole { version: 1, role: "ae".to_string() });
    assert_eq!(e.message(), "plan version 1: duplicate role weight for role \"ae\"");

    let e = plan_refusal(|v| v.role_weights[0].weight_bps = 0);
    assert_eq!(e, plan::ConfigError::NonPositiveWeight { version: 1, role: "ae".to_string() });
    assert_eq!(e.message(), "plan version 1: role \"ae\": weight must be positive");

    let e = plan_refusal(|v| v.role_weights[0].weight_bps = 9_999);
    assert_eq!(e.message(), "plan version 1: role weights sum to 9999 bps, expected 10000");
}

// --- commission transactions ---

fn good_sale() -> Transaction {
    Transaction {
        transaction_id: "T1".to_string(),
        date: day("2026-02-01"),
        amount_cents: 100,
        kind: TxnKind::Sale,
        original_transaction_id: None,
        credits: vec![input::Credit {
            rep_id: "rep-1".to_string(),
            role: "ae".to_string(),
            priority: 1,
        }],
    }
}

#[test]
fn transactions_without_names_are_refused() {
    let mut t = good_sale();
    t.transaction_id = " ".to_string();
    let e = TransactionsFile { transactions: vec![t] }.validate().unwrap_err();
    assert_eq!(e, InputError::EmptyTransactionId { id: " ".to_string() });
    assert_eq!(e.message(), "transaction \" \": transaction_id must be non-empty");

    let mut t = good_sale();
    t.credits[0].role = "\t".to_string();
    let e = TransactionsFile { transactions: vec![t] }.validate().unwrap_err();
    assert_eq!(e, InputError::EmptyCreditIdentity { id: "T1".to_string() });
    assert_eq!(e.message(), "transaction \"T1\": credit rep_id and role must be non-empty");
}

#[test]
fn refused_documents_are_not_computed() {
    let good_txns = Ok(TransactionsFile { transactions: vec![good_sale()] });
    let bad_txns = Ok(TransactionsFile { transactions: vec![] });
    let mut empty = good_plan();
    empty.versions.clear();
    let bad_plan = Ok(empty);
    let good = Ok(good_plan());

    let e = evidence::compute_document(&bad_plan, &bad_txns, b"p", b"t", "e").unwrap_err();
    assert_eq!(e, ComputeError::PlanConfig(plan::ConfigError::EmptyVersions));
    assert_eq!(e.message(), "plan config invalid: plan has no versions");

    let e = evidence::compute_document(&good, &bad_txns, b"p", b"t", "e").unwrap_err();
    assert_eq!(e, ComputeError::Transactions(InputError::Empty));
    assert_eq!(
        e.message(),
        "transactions input invalid: transactions file must not be empty"
    );

    let doc = evidence::compute_document(&good, &good_txns, b"p", b"t", "e").unwrap();
    let e = evidence::verify_document(&doc, &good, &bad_txns, b"p", b"t").unwrap_err();
    assert_eq!(e, VerifyFailure::Recompute(ComputeError::Transactions(InputError::Empty)));
    assert_eq!(
        e.message(),
        "recompute during verify: transactions input invalid: transactions file must not be empty"
    );
}

// --- contract registers ---

fn good_record() -> register::ObligationRecord {
    register::ObligationRecord {
        id: "OB-1".to_string(),
        version: 1,
        supersedes: None,
        counterparty: "Acme".to_string(),
        obligation_type: register::ObligationType::Payment,
        jurisdiction: None,
        due: Some(register::DateSpec::Explicit { date: day("2026-12-01") }),
        amount_cents: Some(100),
        satisfied_on: None,
        completed_on: None,
        renewal: None,
        sla: None,
        sla_measurements: vec![],
    }
}

fn policy() -> register::PolicyParams {
    register::PolicyParams {
        warn_days_before_due: 14,
        warn_days_before_optout: 30,
        business_day_roll: register::RollMode::Raw,
        calendars: Table::new(),
        sla_credit_tiers: vec![register::SlaTier { min_uptime_bp: 0, credit_bp: 0 }],
    }
}

#[test]
fn registers_with_broken_lineage_are_refused() {
    let good = register::RegisterInputs { obligations: vec![good_record()] };
    assert_eq!(register::validate(&good, &policy()), Ok(()));

    let twice = register::RegisterInputs { obligations: vec![good_record(), good_record()] };
    let e = register::validate(&twice, &policy()).unwrap_err();
    assert_eq!(
        e,
        register::ConfigError::InvalidRegister(
            "duplicate record for obligation OB-1 version 1".to_string()
        )
    );
    assert_eq!(e.message(), "register: duplicate record for obligation OB-1 version 1");

    let mut second = good_record();
    second.version = 2;
    let gap = register::RegisterInputs { obligations: vec![good_record(), second] };
    assert_eq!(
        register::validate(&gap, &policy()).unwrap_err().message(),
        "register: correction for obligation OB-1 to version 2 must supersede the prior version 1"
    );

    let mut first = good_record();
    first.supersedes = Some(1);
    first.version = 2;
    let orphan = register::RegisterInputs { obligations: vec![first] };
    assert_eq!(
        register::validate(&orphan, &policy()).unwrap_err().message(),
        "register: first record for obligation OB-1 must not claim to supersede a version"
    );
}

// --- covenants ---

fn rule() -> covenant::CovenantRule {
    covenant::CovenantRule {
        id: "lev".to_string(),
        kind: covenant::CovenantKind::MaxLeverage,
        threshold: Ratio(3_500_000),
        basis: covenant::Basis::Ltm,
        effective_from: day("2026-01-01"),
        effective_to: None,
    }
}

fn covenant_refusal(edit: fn(&mut covenant::CovenantConfig)) -> covenant::ConfigError {
    let mut config = covenant::CovenantConfig {
        covenants: vec![rule()],
        equity_cures: vec![covenant::EquityCure {
            description: "Q3".to_string(),
            effective_from: day("2026-01-01"),
            effective_to: None,
            add_to_ebitda_cents: Cents(1),
            reduce_debt_cents: Cents(0),
        }],
        projection: covenant::ProjectionConfig::default(),
    };
    assert_eq!(covenant::validate(&config), Ok(()));
    edit(&mut config);
    covenant::validate(&config).unwrap_err()
}

#[test]
fn covenant_rules_are_refused() {
    let e = covenant_refusal(|c| c.covenants[0].id = " ".to_string());
    assert_eq!(e, covenant::ConfigError::EmptyId { id: " ".to_string() });
    assert_eq!(e.message(), "covenant \" \": id must not be empty");

    let e = covenant_refusal(|c| c.covenants[0].threshold = Ratio(-1));
    assert_eq!(e, covenant::ConfigError::NegativeThreshold { id: "lev".to_string() });
    assert_eq!(e.message(), "covenant lev: threshold must not be negative");

    let e = covenant_refusal(|c| c.covenants[0].effective_to = Some(day("2025-12-31")));
    assert_eq!(
        e,
        covenant::ConfigError::InvalidWindow {
            id: "lev".to_string(),
            from: day("2026-01-01"),
            to: day("2025-12-31"),
        }
    );
    assert_eq!(
        e.message(),
        "covenant lev: effective_to 2025-12-31 precedes effective_from 2026-01-01"
    );
}

#[test]
fn covenant_cures_and_projections_are_refused() {
    let e = covenant_refusal(|c| c.equity_cures[0].effective_to = Some(day("2025-12-31")));
    assert_eq!(
        e,
        covenant::ConfigError::InvalidCureWindow {
            description: "Q3".to_string(),
            from: day("2026-01-01"),
            to: day("2025-12-31"),
        }
    );
    assert_eq!(
        e.message(),
        "equity cure \"Q3\": effective_to 2025-12-31 precedes effective_from 2026-01-01"
    );

    let e = covenant_refusal(|c| c.projection.horizon_quarters = 0);
    assert_eq!(e, covenant::ConfigError::HorizonZero);
    assert_eq!(e.message(), "projection.horizon_quarters must be at least 1");

    let e = covenant_refusal(|c| c.projection.min_history_points = 1);
    assert_eq!(e, covenant::ConfigError::MinHistoryTooSmall);
    assert_eq!(
        e.message(),
        "projection.min_history_points must be at least 2 to fit a trend"
    );
}

// --- corrective actions ---

fn full_tables() -> capa::CapaConfig {
    let mut severity_matrix = vec![];
    for category in [Category::Safety, Category::Regulatory, Category::Quality] {
        for detectability in [Detectability::High, Detectability::Medium, Detectability::Low] {
            severity_matrix.push(capa::SeverityCell {
                category,
                detectability,
                severity: Severity::Warn,
            });
        }
    }
    capa::CapaConfig {
        severity_matrix,
        containment_hours: capa::ContainmentHours { breach: Some(24), warn: None, info: None },
        aging: capa::AgingRules { warn_after_days: 30, breach_after_days: 90 },
        effectiveness_window_days: 60,
    }
}

fn tables_refusal(edit: fn(&mut capa::CapaConfig)) -> capa::ConfigError {
    let mut tables = full_tables();
    assert_eq!(tables.validate(), Ok(()));
    edit(&mut tables);
    tables.validate().unwrap_err()
}

#[test]
fn capa_tables_are_refused() {
    let e = tables_refusal(|t| {
        let again = t.severity_matrix[8];
        t.severity_matrix.push(again);
    });
    assert_eq!(
        e,
        capa::ConfigError::DuplicateMatrixCell("quality".to_string(), "low".to_string())
    );
    assert_eq!(
        e.message(),
        "severity matrix ambiguous: duplicate cell for quality × low"
    );

    let e = tables_refusal(|t| t.aging.warn_after_days = 90);
    assert_eq!(
        e,
        capa::ConfigError::AgingThresholds { warn_after_days: 90, breach_after_days: 90 }
    );
    assert_eq!(
        e.message(),
        "aging thresholds invalid: warn_after_days (90) must be positive and strictly less than breach_after_days (90)"
    );

    let e = tables_refusal(|t| t.effectiveness_window_days = 0);
    assert_eq!(e, capa::ConfigError::EffectivenessWindow(0));
    assert_eq!(e.message(), "effectiveness_window_days (0) must be positive");

    let e = tables_refusal(|t| t.containment_hours.info = Some(0));
    assert_eq!(e, capa::ConfigError::ContainmentWindow("info".to_string()));
    assert_eq!(
        e.message(),
        "containment window for info-severity CAPAs must be at least one hour when set"
    );
}
