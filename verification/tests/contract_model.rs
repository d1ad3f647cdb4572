//! Contract registers and policies: validation.

use control_spine::contract_obligation::model::{
    validate, AnchorEvent, Calendar, ConfigError, DateSpec, ObligationRecord, ObligationType,
    PolicyParams, RegisterInputs, RenewalTerms, RollMode, SlaMeasurement, SlaTerms, SlaTier,
    MAX_DATE, MAX_DAY_SPAN, MAX_MONEY_CENTS, MAX_UPTIME_BP, MIN_CLOCK,
};
use control_spine::date::Date;
use control_spine::table::Table;

fn d(y: i32, m: u32, day: u32) -> Date {
    Date::from_ymd_opt(y, m, day).expect("valid test date")
}

fn params() -> PolicyParams {
    PolicyParams {
        warn_days_before_due: 10,
        warn_days_before_optout: 14,
        business_day_roll: RollMode::Raw,
        calendars: Table::new(),
        sla_credit_tiers: vec![
            SlaTier {
                min_uptime_bp: 9990,
                credit_bp: 100,
            },
            SlaTier {
                min_uptime_bp: 9900,
                credit_bp: 500,
            },
        ],
    }
}

fn rec(id: &str, kind: ObligationType) -> ObligationRecord {
    ObligationRecord {
        id: id.to_string(),
        version: 1,
        supersedes: None,
        counterparty: "Acme Corp".to_string(),
        obligation_type: kind,
        jurisdiction: None,
        due: None,
        amount_cents: None,
        satisfied_on: None,
        completed_on: None,
        renewal: None,
        sla: None,
        sla_measurements: vec![],
    }
}

fn validate_all(
    records: &[ObligationRecord],
    params: &PolicyParams,
) -> Result<(), ConfigError> {
    validate(
        &RegisterInputs {
            obligations: records.to_vec(),
        },
        params,
    )
}

#[test]
fn duplicate_id_version_pair_is_rejected() {
    let a = rec("O-1", ObligationType::Payment);
    let b = rec("O-1", ObligationType::Payment);
    assert!(validate_all(&[a, b], &params()).is_err());
}

#[test]
fn correction_must_supersede_the_prior_version() {
    let mut v2 = rec("O-1", ObligationType::Payment);
    v2.version = 2;
    v2.supersedes = Some(1);
    // v1 missing: a correction with nothing to correct.
    assert!(validate_all(&[v2.clone()], &params()).is_err());
    // Correct chain.
    let v1 = rec("O-1", ObligationType::Payment);
    assert!(validate_all(&[v1, v2.clone()], &params()).is_ok());
    // Supersedes must name the immediately prior version.
    let mut v3 = rec("O-1", ObligationType::Payment);
    v3.version = 3;
    v3.supersedes = Some(1);
    let v1b = rec("O-1", ObligationType::Payment);
    assert!(validate_all(&[v1b, v2, v3], &params()).is_err());
}

#[test]
fn first_version_must_not_supersede_anything() {
    let mut v1 = rec("O-1", ObligationType::Payment);
    v1.supersedes = Some(1);
    assert!(validate_all(&[v1], &params()).is_err());
}

#[test]
fn dependency_cycle_is_rejected() {
    let mut a = rec("O-A", ObligationType::Payment);
    let mut b = rec("O-B", ObligationType::Payment);
    a.due = Some(DateSpec::Dependent {
        anchor_id: "O-B".to_string(),
        anchor_event: AnchorEvent::Due,
        offset_days: 0,
        offset_months: 0,
    });
    b.due = Some(DateSpec::Dependent {
        anchor_id: "O-A".to_string(),
        anchor_event: AnchorEvent::Due,
        offset_days: 0,
        offset_months: 0,
    });
    assert!(matches!(
        validate_all(&[a, b], &params()),
        Err(ConfigError::InvalidAnchor { .. })
    ));
}

#[test]
fn unknown_anchor_is_rejected() {
    let mut a = rec("O-A", ObligationType::Payment);
    a.due = Some(DateSpec::Dependent {
        anchor_id: "O-GHOST".to_string(),
        anchor_event: AnchorEvent::Due,
        offset_days: 5,
        offset_months: 0,
    });
    assert!(matches!(
        validate_all(&[a], &params()),
        Err(ConfigError::InvalidAnchor { .. })
    ));
}

#[test]
fn unknown_calendar_reference_is_rejected() {
    let mut a = rec("O-1", ObligationType::Payment);
    a.jurisdiction = Some("US-NY".to_string());
    assert!(matches!(
        validate_all(&[a], &params()),
        Err(ConfigError::InvalidCalendar { .. })
    ));
}

#[test]
fn sla_tiers_must_descend_strictly() {
    let mut p = params();
    p.sla_credit_tiers = vec![
        SlaTier {
            min_uptime_bp: 9900,
            credit_bp: 100,
        },
        SlaTier {
            min_uptime_bp: 9990,
            credit_bp: 500,
        },
    ];
    assert!(matches!(
        validate_all(&[rec("O-1", ObligationType::Payment)], &p),
        Err(ConfigError::InvalidParams(_))
    ));
    // Equal thresholds are duplicates — also rejected.
    p.sla_credit_tiers = vec![
        SlaTier {
            min_uptime_bp: 9900,
            credit_bp: 100,
        },
        SlaTier {
            min_uptime_bp: 9900,
            credit_bp: 500,
        },
    ];
    assert!(validate_all(&[rec("O-1", ObligationType::Payment)], &p).is_err());
    // Empty tier table is a config error, not an implicit all-breach policy.
    p.sla_credit_tiers = vec![];
    assert!(validate_all(&[rec("O-1", ObligationType::Payment)], &p).is_err());
}

#[test]
fn sla_measurement_window_must_be_ordered() {
    let mut s = rec("O-S", ObligationType::Sla);
    s.sla = Some(SlaTerms { window_days: 90 });
    s.sla_measurements = vec![SlaMeasurement {
        period_start: d(2026, 4, 1),
        period_end: d(2026, 3, 31),
        achieved_uptime_bp: 9900,
        charges_cents: 1_000_000,
    }];
    assert!(validate_all(&[s], &params()).is_err());
}

#[test]
fn oversized_notice_days_is_rejected() {
    let mut r = rec("O-R", ObligationType::RenewalOptOut);
    r.renewal = Some(RenewalTerms {
        renewal_date: d(2027, 1, 5),
        notice_days: MAX_DAY_SPAN + 1,
        auto_renew: true,
        opted_out: false,
    });
    assert!(validate_all(&[r], &params()).is_err());
}

#[test]
fn negative_amount_is_rejected() {
    let mut p = rec("O-1", ObligationType::Payment);
    p.amount_cents = Some(-1);
    assert!(validate_all(&[p], &params()).is_err());
    let mut p2 = rec("O-2", ObligationType::Payment);
    p2.amount_cents = Some(MAX_MONEY_CENTS + 1);
    assert!(validate_all(&[p2], &params()).is_err());
}

#[test]
fn term_blocks_are_typed_per_obligation_kind() {
    // A payment carrying SLA terms is malformed.
    let mut p = rec("O-1", ObligationType::Payment);
    p.sla = Some(SlaTerms { window_days: 30 });
    assert!(validate_all(&[p], &params()).is_err());
    // An SLA obligation without its terms block is malformed.
    assert!(validate_all(&[rec("O-S", ObligationType::Sla)], &params()).is_err());
    // A renewal obligation without its terms block is malformed.
    assert!(validate_all(&[rec("O-R", ObligationType::RenewalOptOut)], &params()).is_err());
}

#[test]
fn achieved_uptime_above_10000_is_rejected() {
    let mut s = rec("O-S", ObligationType::Sla);
    s.sla = Some(SlaTerms { window_days: 90 });
    s.sla_measurements = vec![SlaMeasurement {
        period_start: d(2026, 4, 1),
        period_end: d(2026, 6, 30),
        achieved_uptime_bp: MAX_UPTIME_BP + 1,
        charges_cents: 1_000_000,
    }];
    assert!(validate_all(&[s], &params()).is_err());
}


#[test]
fn contract_bounds_are_the_dates_they_name() {
    assert_eq!(d(2999, 12, 31).day_number(), MAX_DATE);
    assert_eq!(d(1970, 1, 1).day_number(), MIN_CLOCK);
}

#[test]
fn contract_dates_after_the_bound_are_rejected() {
    let mut late = rec("O-1", ObligationType::Payment);
    late.satisfied_on = Some(d(3000, 1, 1));
    assert!(matches!(
        validate_all(&[late], &params()),
        Err(ConfigError::InvalidObligation { .. })
    ));
    let mut due = rec("O-1", ObligationType::Payment);
    due.due = Some(DateSpec::Explicit { date: d(3000, 1, 1) });
    assert!(validate_all(&[due], &params()).is_err());
    let mut last = rec("O-1", ObligationType::Payment);
    last.due = Some(DateSpec::Explicit { date: d(2999, 12, 31) });
    assert!(validate_all(&[last], &params()).is_ok());
}

#[test]
fn contract_calendars_without_a_known_weekend_are_rejected() {
    let mut p = params();
    p.calendars.insert(
        "US-NY".to_string(),
        Calendar { weekend: vec!["someday".to_string()], holidays: vec![] },
    );
    let error = validate_all(&[rec("O-1", ObligationType::Payment)], &p).unwrap_err();
    assert!(matches!(error, ConfigError::InvalidCalendar { .. }));
    assert!(error.message().contains("US-NY"), "{}", error.message());
}

#[test]
fn contract_errors_read_well() {
    let mut p = params();
    p.sla_credit_tiers = vec![];
    let error = validate_all(&[], &p).unwrap_err();
    assert!(error.message().starts_with("params: "), "{}", error.message());
    let a = rec("O-1", ObligationType::Payment);
    let error = validate_all(&[a.clone(), a], &params()).unwrap_err();
    assert!(error.message().contains("O-1"), "{}", error.message());
}
