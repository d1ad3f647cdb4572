//! Commission plans: bands, versions, and weights.

use control_spine::commission::config::{
    Band, BandMode, ConfigError, PlanConfig, PlanVersion, RoleWeight,
};
use control_spine::date::Date;

fn band(up_to_ppm: Option<u64>, rate_bps: u32) -> Band {
    Band {
        up_to_ppm,
        rate_bps,
    }
}

fn version(version: u32, from: &str, to: Option<&str>) -> PlanVersion {
    PlanVersion {
        version,
        effective_from: Date::parse(from).expect("valid date"),
        effective_to: to.map(|t| Date::parse(t).expect("valid date")),
        quota_cents: 1_000_000,
        band_mode: BandMode::Marginal,
        bands: vec![band(Some(1_000_000), 200), band(None, 500)],
        windfall_cap_ppm: None,
        max_spread_bps: None,
        role_weights: vec![RoleWeight {
            role: "ae".to_string(),
            weight_bps: 10_000,
        }],
    }
}

#[test]
fn valid_plan_passes_validation() {
    let plan = PlanConfig {
        plan_id: "p".to_string(),
        versions: vec![version(1, "2026-01-01", None)],
    };
    assert_eq!(plan.validate(), Ok(()));
}

#[test]
fn overlapping_versions_are_rejected() {
    let plan = PlanConfig {
        plan_id: "p".to_string(),
        versions: vec![
            version(1, "2026-01-01", Some("2026-06-30")),
            version(2, "2026-06-30", None), // inclusive `to` collides
        ],
    };
    assert_eq!(
        plan.validate(),
        Err(ConfigError::Overlap {
            version: 2,
            other: 1
        })
    );
}

#[test]
fn unsorted_versions_are_rejected() {
    let plan = PlanConfig {
        plan_id: "p".to_string(),
        versions: vec![
            version(1, "2026-07-01", None),
            version(2, "2026-01-01", None),
        ],
    };
    assert_eq!(plan.validate(), Err(ConfigError::UnsortedVersions));
}

#[test]
fn inverted_range_is_rejected() {
    let plan = PlanConfig {
        plan_id: "p".to_string(),
        versions: vec![version(1, "2026-06-30", Some("2026-01-01"))],
    };
    assert!(matches!(
        plan.validate(),
        Err(ConfigError::InvertedRange { .. })
    ));
}

#[test]
fn non_positive_quota_is_rejected() {
    let mut plan = PlanConfig {
        plan_id: "p".to_string(),
        versions: vec![version(1, "2026-01-01", None)],
    };
    plan.versions[0].quota_cents = 0;
    assert_eq!(
        plan.validate(),
        Err(ConfigError::NonPositiveQuota { version: 1 })
    );
}

#[test]
fn band_rate_out_of_range_is_rejected() {
    let mut plan = PlanConfig {
        plan_id: "p".to_string(),
        versions: vec![version(1, "2026-01-01", None)],
    };
    plan.versions[0].bands[0].rate_bps = 10_001;
    assert!(matches!(
        plan.validate(),
        Err(ConfigError::RateOutOfRange { .. })
    ));
}

#[test]
fn spread_cap_violation_is_rejected() {
    let mut plan = PlanConfig {
        plan_id: "p".to_string(),
        versions: vec![version(1, "2026-01-01", None)],
    };
    plan.versions[0].bands = vec![band(Some(1_000_000), 200), band(None, 550)];
    plan.versions[0].max_spread_bps = Some(300);
    assert_eq!(
        plan.validate(),
        Err(ConfigError::SpreadCapExceeded {
            version: 1,
            allowed: 300,
            actual: 350
        })
    );
}

#[test]
fn role_weights_must_sum_to_10000() {
    let mut plan = PlanConfig {
        plan_id: "p".to_string(),
        versions: vec![version(1, "2026-01-01", None)],
    };
    plan.versions[0].role_weights = vec![
        RoleWeight {
            role: "ae".to_string(),
            weight_bps: 7_000,
        },
        RoleWeight {
            role: "se".to_string(),
            weight_bps: 2_000,
        },
    ];
    assert_eq!(
        plan.validate(),
        Err(ConfigError::WeightSum {
            version: 1,
            sum: 9_000
        })
    );
}

#[test]
fn version_lookup_is_inclusive_on_both_ends() {
    let plan = PlanConfig {
        plan_id: "p".to_string(),
        versions: vec![
            version(1, "2026-01-01", Some("2026-06-30")),
            version(2, "2026-07-01", None),
        ],
    };
    let d = |s: &str| Date::parse(s).expect("valid date");
    assert_eq!(plan.version_index_for_date(d("2026-01-01")), Some(0));
    assert_eq!(plan.version_index_for_date(d("2026-06-30")), Some(0));
    assert_eq!(plan.version_index_for_date(d("2026-07-01")), Some(1));
    assert_eq!(plan.version_index_for_date(d("2025-12-31")), None);
}

#[test]
fn commission_open_predecessors_overlap() {
    let plan = PlanConfig {
        plan_id: "p".to_string(),
        versions: vec![
            version(1, "2026-01-01", None),
            version(2, "2026-07-01", None),
        ],
    };
    assert_eq!(
        plan.validate(),
        Err(ConfigError::Overlap { version: 2, other: 1 })
    );
}

#[test]
fn commission_plan_errors_read_well() {
    let empty = PlanConfig { plan_id: " ".to_string(), versions: vec![] };
    assert_eq!(empty.validate(), Err(ConfigError::EmptyPlanId));
    assert_eq!(
        empty.validate().unwrap_err().message(),
        "plan_id must be non-empty"
    );
    let none = PlanConfig { plan_id: "p".to_string(), versions: vec![] };
    assert_eq!(none.validate(), Err(ConfigError::EmptyVersions));
    let mut twice = PlanConfig {
        plan_id: "p".to_string(),
        versions: vec![
            version(1, "2026-01-01", Some("2026-06-30")),
            version(1, "2026-07-01", None),
        ],
    };
    assert_eq!(
        twice.validate(),
        Err(ConfigError::DuplicateVersionNumber { version: 1 })
    );
    twice.versions[1].version = 2;
    twice.versions[1].bands = vec![];
    assert_eq!(twice.validate(), Err(ConfigError::EmptyBands { version: 2 }));
    twice.versions[1].bands = vec![band(None, 200), band(None, 300)];
    assert_eq!(
        twice.validate(),
        Err(ConfigError::UnboundedNotLast { version: 2, index: 0 })
    );
}
