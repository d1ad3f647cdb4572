//! Bank reconciliation: tiers, duplicates, staleness, and proposals.

use control_spine::bankrec::config::BankrecConfig;
use control_spine::bankrec::engine::{
    compute, fmt_cents, try_compute, MatchTier, ProposalKind, ReconciliationReport,
    RULE_LEDGER_DUPLICATE, RULE_LEDGER_UNMATCHED, RULE_STMT_DUPLICATE, RULE_STMT_UNMATCHED,
};
use control_spine::bankrec::inputs::{CanonicalLedger, CanonicalStatement, ValidatedInputs};
use control_spine::date::Date;
use control_spine::spine::Severity;

fn as_of() -> Date {
    Date::from_ymd_opt(2026, 9, 22).unwrap()
}

fn config(tolerance: i64) -> BankrecConfig {
    BankrecConfig {
        tolerance_cents: tolerance,
        max_group_size: 5,
        stale_days: 14,
        many_to_one_candidate_cap: 100,
        many_to_one_date_window_days: None,
    }
}

fn st(id: &str, date: &str, reference: &str, amount: i128) -> CanonicalStatement {
    CanonicalStatement {
        id: id.to_string(),
        date: Date::parse(date).unwrap(),
        reference: reference.to_string(),
        amount,
    }
}

fn ld(id: &str, date: &str, reference: &str, amount: i128) -> CanonicalLedger {
    CanonicalLedger {
        id: id.to_string(),
        date: Date::parse(date).unwrap(),
        reference: reference.to_string(),
        amount,
    }
}

fn run(
    statements: Vec<CanonicalStatement>,
    ledgers: Vec<CanonicalLedger>,
    config: &BankrecConfig,
) -> ReconciliationReport {
    let inputs = ValidatedInputs {
        statements,
        ledgers,
    };
    compute(&inputs, config, as_of())
}

// --- exact tier ---

#[test]
fn exact_tier_matches_amount_and_reference() {
    let r = run(
        vec![st("S1", "2026-09-01", "WIRE-1", 125_000)],
        vec![ld("L1", "2026-09-01", "WIRE-1", 125_000)],
        &config(0),
    );
    assert_eq!(r.matches.len(), 1);
    assert_eq!(r.matches[0].tier, MatchTier::Exact);
    assert_eq!(r.matches[0].ledger_ids, vec!["L1"]);
    assert_eq!(r.matches[0].variance_cents, 0);
    assert!(r.unmatched_statement.is_empty());
    assert!(r.unmatched_ledger.is_empty());
}

#[test]
fn exact_tier_misses_on_reference_mismatch() {
    let r = run(
        vec![st("S1", "2026-09-01", "WIRE-1", 125_000)],
        vec![ld("L1", "2026-09-01", "WIRE-2", 125_000)],
        &config(0),
    );
    assert!(r.matches.is_empty());
    assert_eq!(r.unmatched_statement.len(), 1);
    assert_eq!(r.unmatched_ledger.len(), 1);
}

#[test]
fn exact_tier_misses_on_amount_mismatch() {
    let r = run(
        vec![st("S1", "2026-09-01", "WIRE-1", 125_000)],
        vec![ld("L1", "2026-09-01", "WIRE-1", 125_001)],
        &config(0),
    );
    assert!(r.matches.is_empty());
    assert_eq!(r.unmatched_statement.len(), 1);
}

// --- tolerance tier ---

#[test]
fn tolerance_tier_matches_within_window() {
    // Bank charge of 25 cents: statement shows the round amount, the
    // ledger entry is 25 cents short.
    let r = run(
        vec![st("S1", "2026-09-01", "FEE", 100_000)],
        vec![ld("L1", "2026-09-01", "FEE", 99_975)],
        &config(100),
    );
    assert_eq!(r.matches.len(), 1);
    assert_eq!(r.matches[0].tier, MatchTier::Tolerance);
    assert_eq!(r.matches[0].variance_cents, -25);
}

#[test]
fn tolerance_boundary_at_plus_tolerance_matches() {
    let r = run(
        vec![st("S1", "2026-09-01", "FEE", 100_000)],
        vec![ld("L1", "2026-09-01", "FEE", 100_100)],
        &config(100),
    );
    assert_eq!(r.matches.len(), 1);
    assert_eq!(r.matches[0].variance_cents, 100);
}

#[test]
fn tolerance_beyond_boundary_misses() {
    let r = run(
        vec![st("S1", "2026-09-01", "FEE", 100_000)],
        vec![ld("L1", "2026-09-01", "FEE", 100_101)],
        &config(100),
    );
    assert!(r.matches.is_empty());
    assert_eq!(r.unmatched_statement.len(), 1);
    assert_eq!(r.unmatched_ledger.len(), 1);
}

#[test]
fn tolerance_tier_misses_on_reference_mismatch() {
    // Within tolerance but the references differ: no match.
    let r = run(
        vec![st("S1", "2026-09-01", "FEE", 100_000)],
        vec![ld("L1", "2026-09-01", "OTHER", 100_000)],
        &config(100),
    );
    assert!(r.matches.is_empty());
}

#[test]
fn tolerance_tier_prefers_smallest_variance() {
    let r = run(
        vec![st("S1", "2026-09-01", "FEE", 100_000)],
        vec![
            ld("L1", "2026-09-01", "FEE", 100_050),
            ld("L2", "2026-09-01", "FEE", 100_010),
        ],
        &config(100),
    );
    assert_eq!(r.matches.len(), 1);
    assert_eq!(r.matches[0].ledger_ids, vec!["L2"]);
    assert_eq!(r.matches[0].variance_cents, 10);
    // The near-miss candidate stays unmatched and visible.
    assert_eq!(r.unmatched_ledger.len(), 1);
    assert_eq!(r.unmatched_ledger[0].id, "L1");
}

// --- sign normalization ---

#[test]
fn statement_debit_matches_ledger_credit() {
    // A bank withdrawal (statement -500.00) is a credit to cash in the
    // books (canonical -500.00). Normalization must land both on the
    // same canonical sign.
    let r = run(
        vec![st("S1", "2026-09-01", "PAY-9", -50_000)],
        vec![ld("L1", "2026-09-01", "PAY-9", -50_000)], // credit of 500.00 magnitude
        &config(0),
    );
    assert_eq!(r.matches.len(), 1);
    assert_eq!(r.matches[0].tier, MatchTier::Exact);
    assert_eq!(r.matches[0].statement_amount_cents, -50_000);
    assert_eq!(r.matches[0].matched_amount_cents, -50_000);
}

// --- many-to-one tier ---

#[test]
fn many_to_one_matches_sum_within_tolerance() {
    // One deposit covering three invoices.
    let r = run(
        vec![st("S1", "2026-09-05", "DEP-77", 300_000)],
        vec![
            ld("L1", "2026-09-04", "INV-1", 100_000),
            ld("L2", "2026-09-04", "INV-2", 120_000),
            ld("L3", "2026-09-05", "INV-3", 80_000),
        ],
        &config(0),
    );
    assert_eq!(r.matches.len(), 1);
    assert_eq!(r.matches[0].tier, MatchTier::ManyToOne);
    assert_eq!(r.matches[0].ledger_ids, vec!["L1", "L2", "L3"]);
    assert_eq!(r.matches[0].matched_amount_cents, 300_000);
    assert_eq!(r.matches[0].variance_cents, 0);
    assert!(r.unmatched_ledger.is_empty());
}

#[test]
fn many_to_one_grouping_is_deterministic() {
    // Two disjoint groups both sum to the target; the canonical order
    // (date, reference) pins which one is chosen, and rerunning the
    // same inputs — or permuting their input order — must not change
    // the grouping.
    let build = |swap: bool| {
        let mut ledgers = vec![
            ld("L1", "2026-09-01", "A", 20_000),
            ld("L2", "2026-09-02", "B", 30_000),
            ld("L3", "2026-09-03", "C", 25_000),
            ld("L4", "2026-09-04", "D", 25_000),
        ];
        if swap {
            ledgers.reverse();
        }
        run(
            vec![st("S1", "2026-09-05", "DEP-9", 50_000)],
            ledgers,
            &config(0),
        )
    };
    let a = build(false);
    let b = build(false);
    let c = build(true);
    assert_eq!(a.matches, b.matches);
    assert_eq!(a.matches, c.matches);
    assert_eq!(a.matches[0].tier, MatchTier::ManyToOne);
    assert_eq!(a.matches[0].ledger_ids, vec!["L1", "L2"]);
}

#[test]
fn many_to_one_respects_max_group_size() {
    // Six lines would be needed; a group has at most 5.
    let r = run(
        vec![st("S1", "2026-09-05", "DEP-9", 60_000)],
        vec![
            ld("L1", "2026-09-01", "A", 10_000),
            ld("L2", "2026-09-01", "B", 10_000),
            ld("L3", "2026-09-01", "C", 10_000),
            ld("L4", "2026-09-01", "D", 10_000),
            ld("L5", "2026-09-01", "E", 10_000),
            ld("L6", "2026-09-01", "F", 10_000),
        ],
        &config(0),
    );
    assert!(r.matches.is_empty());
    assert_eq!(r.unmatched_statement.len(), 1);
    assert_eq!(r.unmatched_ledger.len(), 6);
}

#[test]
fn many_to_one_misses_outside_tolerance() {
    let r = run(
        vec![st("S1", "2026-09-05", "DEP-9", 50_000)],
        vec![
            ld("L1", "2026-09-01", "A", 20_000),
            ld("L2", "2026-09-02", "B", 20_000),
        ],
        &config(100),
    );
    assert!(r.matches.is_empty());
}

// --- duplicates ---

#[test]
fn duplicate_statement_lines_warn() {
    let r = run(
        vec![
            st("S1", "2026-09-01", "DUP", 45_000),
            st("S2", "2026-09-01", "DUP", 45_000),
        ],
        vec![ld("L1", "2026-09-01", "DUP", 45_000)],
        &config(0),
    );
    // Duplicates warn but still participate in matching.
    let dup: Vec<_> = r
        .findings
        .iter()
        .filter(|f| f.rule_id == RULE_STMT_DUPLICATE)
        .collect();
    assert_eq!(dup.len(), 1);
    assert_eq!(dup[0].severity, Severity::Warn);
    assert_eq!(dup[0].subject, "S2");
    assert!(!dup[0].requires_signoff);
}

#[test]
fn duplicate_warning_requires_same_date() {
    let r = run(
        vec![
            st("S1", "2026-09-01", "DUP", 45_000),
            st("S2", "2026-09-02", "DUP", 45_000),
        ],
        vec![],
        &config(0),
    );
    assert!(!r.findings.iter().any(|f| f.rule_id == RULE_STMT_DUPLICATE));
}

#[test]
fn duplicate_three_occurrences_two_warnings() {
    let r = run(
        vec![
            st("S1", "2026-09-01", "DUP", 45_000),
            st("S2", "2026-09-01", "DUP", 45_000),
            st("S3", "2026-09-01", "DUP", 45_000),
        ],
        vec![],
        &config(0),
    );
    assert_eq!(
        r.findings
            .iter()
            .filter(|f| f.rule_id == RULE_STMT_DUPLICATE)
            .count(),
        2
    );
}

#[test]
fn duplicate_ledger_entries_warn() {
    let r = run(
        vec![],
        vec![
            ld("L1", "2026-09-01", "DUP", 45_000),
            ld("L2", "2026-09-01", "DUP", 45_000),
        ],
        &config(0),
    );
    // A double-posted ledger entry warns on the later occurrence but
    // still participates in matching.
    let dup: Vec<_> = r
        .findings
        .iter()
        .filter(|f| f.rule_id == RULE_LEDGER_DUPLICATE)
        .collect();
    assert_eq!(dup.len(), 1);
    assert_eq!(dup[0].severity, Severity::Warn);
    assert_eq!(dup[0].subject, "L2");
    assert!(!dup[0].requires_signoff);
}

#[test]
fn duplicate_ledger_entries_require_same_date() {
    let r = run(
        vec![],
        vec![
            ld("L1", "2026-09-01", "DUP", 45_000),
            ld("L2", "2026-09-02", "DUP", 45_000),
        ],
        &config(0),
    );
    assert!(!r
        .findings
        .iter()
        .any(|f| f.rule_id == RULE_LEDGER_DUPLICATE));
}

#[test]
fn many_to_one_respects_date_window_when_configured() {
    // L2 is 7 days before the statement line — outside a 3-day window.
    let statements = vec![st("S1", "2026-09-22", "BATCH", 10_000)];
    let ledgers = vec![
        ld("L1", "2026-09-21", "A", 6_000),
        ld("L2", "2026-09-15", "B", 4_000),
    ];

    // Seed default (no window): the sum-group match succeeds.
    let unwindowed = BankrecConfig {
        many_to_one_date_window_days: None,
        ..config(0)
    };
    let r = run(statements.clone(), ledgers.clone(), &unwindowed);
    assert!(r
        .matches
        .iter()
        .any(|m| m.tier == MatchTier::ManyToOne && m.statement_id == "S1"));

    // With a 3-day window, L2 is ineligible and S1 stays unmatched.
    let windowed = BankrecConfig {
        many_to_one_date_window_days: Some(3),
        ..config(0)
    };
    let r = run(statements, ledgers, &windowed);
    assert!(r.matches.iter().all(|m| m.tier != MatchTier::ManyToOne));
    assert!(r.unmatched_statement.iter().any(|u| u.id == "S1"));
    assert!(r.unmatched_ledger.iter().any(|u| u.id == "L2"));
}

#[test]
fn many_to_one_date_window_boundary_is_inclusive() {
    // L1 is exactly 3 days before the statement line — at the window
    // edge, still eligible ("within this many days").
    let r = run(
        vec![st("S1", "2026-09-22", "BATCH", 10_000)],
        vec![
            ld("L1", "2026-09-19", "A", 6_000),
            ld("L2", "2026-09-22", "B", 4_000),
        ],
        &BankrecConfig {
            many_to_one_date_window_days: Some(3),
            ..config(0)
        },
    );
    assert!(r
        .matches
        .iter()
        .any(|m| m.tier == MatchTier::ManyToOne && m.statement_id == "S1"));
}

// --- stale escalation ---

#[test]
fn fresh_unmatched_statement_is_warn() {
    let r = run(
        vec![st("S1", "2026-09-20", "NEW", 10_000)],
        vec![],
        &config(0), // stale_days 14
    );
    assert!(!r.unmatched_statement[0].stale);
    assert_eq!(r.unmatched_statement[0].age_days, 2);
    let f = &r.findings[0];
    assert_eq!(f.severity, Severity::Warn);
    assert!(!f.requires_signoff);
}

#[test]
fn stale_unmatched_statement_is_breach() {
    let r = run(
        vec![st("S1", "2026-08-20", "OLD", 10_000)],
        vec![],
        &config(0), // stale_days 14
    );
    assert!(r.unmatched_statement[0].stale);
    let f = &r.findings[0];
    assert_eq!(f.rule_id, RULE_STMT_UNMATCHED);
    assert_eq!(f.severity, Severity::Breach);
    assert!(f.requires_signoff);
}

#[test]
fn stale_boundary_exactly_at_threshold_is_fresh() {
    // "older than X days" escalates: age == stale_days is not stale.
    let r = run(
        vec![st("S1", "2026-09-08", "EDGE", 10_000)], // exactly 14 days before as_of
        vec![],
        &config(0),
    );
    assert!(!r.unmatched_statement[0].stale);
    assert_eq!(r.findings[0].severity, Severity::Warn);
}

#[test]
fn stale_unmatched_ledger_entry_is_breach() {
    let r = run(
        vec![],
        vec![ld("L1", "2026-08-01", "OLD-LEDG", 30_000)],
        &config(0),
    );
    assert!(r.unmatched_ledger[0].stale);
    let f = &r.findings[0];
    assert_eq!(f.rule_id, RULE_LEDGER_UNMATCHED);
    assert_eq!(f.severity, Severity::Breach);
    assert!(f.requires_signoff);
}

// --- proposals ---

#[test]
fn adjustment_proposals_cover_both_sides() {
    let r = run(
        vec![st("S1", "2026-09-20", "BANK-ONLY", 10_000)],
        vec![ld("L1", "2026-09-20", "BOOK-ONLY", 30_000)],
        &config(0),
    );
    assert_eq!(r.adjustment_proposals.len(), 2);
    assert_eq!(
        r.adjustment_proposals[0].kind,
        ProposalKind::RecordLedgerEntry
    );
    assert_eq!(r.adjustment_proposals[0].subject, "S1");
    assert_eq!(
        r.adjustment_proposals[1].kind,
        ProposalKind::InvestigateLedgerEntry
    );
    assert_eq!(r.adjustment_proposals[1].subject, "L1");
}

// --- pass composition ---

#[test]
fn exact_pass_consumes_before_tolerance_pass() {
    // Both ledger lines share the reference; the exact one must win
    // even though the tolerance candidate comes first in input order.
    let r = run(
        vec![st("S1", "2026-09-01", "REF", 100_000)],
        vec![
            ld("L1", "2026-09-01", "REF", 100_010),
            ld("L2", "2026-09-01", "REF", 100_000),
        ],
        &config(100),
    );
    assert_eq!(r.matches.len(), 1);
    assert_eq!(r.matches[0].tier, MatchTier::Exact);
    assert_eq!(r.matches[0].ledger_ids, vec!["L2"]);
}

#[test]
fn cents_format_is_signed_decimal_without_floats() {
    assert_eq!(fmt_cents(125_050), "+1250.50");
    assert_eq!(fmt_cents(-50_005), "-500.05");
    assert_eq!(fmt_cents(0), "+0.00");
}

#[test]
fn bankrec_windows_out_of_range_are_told() {
    let alone = ValidatedInputs {
        statements: vec![st("S1", "2026-09-01", "A", i128::MAX)],
        ledgers: vec![],
    };
    assert!(try_compute(&alone, &config(1), as_of()).is_none());
    assert!(try_compute(&alone, &config(0), as_of()).is_some());
    // A matched line needs no window.
    let matched = ValidatedInputs {
        statements: vec![st("S1", "2026-09-01", "A", i128::MAX)],
        ledgers: vec![ld("L1", "2026-09-01", "A", i128::MAX)],
    };
    assert!(try_compute(&matched, &config(1), as_of()).is_some());
}

#[test]
fn bankrec_extreme_amounts_are_compared() {
    let r = run(
        vec![st("S1", "2026-09-01", "A", i128::MIN), st("S2", "2026-09-01", "B", i128::MAX)],
        vec![
            ld("L1", "2026-09-01", "A", i128::MAX),
            ld("L2", "2026-09-01", "C", 1),
            ld("L3", "2026-09-01", "D", i128::MAX - 1),
        ],
        &config(0),
    );
    assert_eq!(r.matches.len(), 1);
    assert_eq!(r.matches[0].statement_id, "S2");
    assert_eq!(r.matches[0].ledger_ids, vec!["L2", "L3"]);
    assert_eq!(r.matches[0].variance_cents, 0);
}

#[test]
fn bankrec_every_line_is_matched_or_reported() {
    let r = run(
        vec![
            st("S1", "2026-09-01", "A", 10_000),
            st("S2", "2026-09-02", "B", 20_000),
            st("S3", "2026-09-03", "C", 5_000),
        ],
        vec![
            ld("L1", "2026-09-01", "A", 10_000),
            ld("L2", "2026-09-02", "X", 12_000),
            ld("L3", "2026-09-02", "Y", 8_000),
            ld("L4", "2026-09-02", "Z", -7_000),
        ],
        &config(0),
    );
    assert_eq!(r.matches.len() + r.unmatched_statement.len(), 3);
    let matched: usize = r.matches.iter().map(|m| m.ledger_ids.len()).sum();
    assert_eq!(matched + r.unmatched_ledger.len(), 4);
    let mut statements: Vec<&str> = r
        .matches
        .iter()
        .map(|m| m.statement_id.as_str())
        .chain(r.unmatched_statement.iter().map(|u| u.id.as_str()))
        .collect();
    statements.sort();
    assert_eq!(statements, vec!["S1", "S2", "S3"]);
    let mut ledgers: Vec<&str> = r
        .matches
        .iter()
        .flat_map(|m| m.ledger_ids.iter().map(|id| id.as_str()))
        .chain(r.unmatched_ledger.iter().map(|u| u.id.as_str()))
        .collect();
    ledgers.sort();
    assert_eq!(ledgers, vec!["L1", "L2", "L3", "L4"]);
    assert_eq!(r.as_of, "2026-09-22");
}

#[test]
fn bankrec_cents_keep_the_extremes() {
    assert_eq!(fmt_cents(i128::MIN), "-1701411834604692317316873037158841057.28");
    assert_eq!(fmt_cents(5), "+0.05");
}

#[test]
fn bankrec_ledger_order_does_not_matter() {
    let statements = || {
        vec![
            st("S1", "2026-09-01", "A", 10_000),
            st("S2", "2026-09-02", "B", 20_000),
            st("S3", "2026-09-03", "C", 5_000),
        ]
    };
    let mut ledgers = vec![
        ld("L1", "2026-09-01", "A", 10_000),
        ld("L2", "2026-09-04", "W", 12_000),
        ld("L3", "2026-09-02", "X", 8_000),
        ld("L4", "2026-09-02", "Y", 12_000),
        ld("L5", "2026-09-01", "Z", 8_000),
        ld("L6", "2026-09-02", "C", 5_003),
    ];
    let first = run(statements(), ledgers.clone(), &config(5));
    assert_eq!(first.matches.len(), 3);
    let group: Vec<&str> = first.matches[2].ledger_ids.iter().map(|id| id.as_str()).collect();
    assert_eq!(group, vec!["L5", "L4"]);
    for _ in 0..ledgers.len() {
        ledgers.rotate_left(1);
        let again = run(statements(), ledgers.clone(), &config(5));
        assert_eq!(again.matches, first.matches);
        let mut left: Vec<&str> = again.unmatched_ledger.iter().map(|u| u.id.as_str()).collect();
        left.sort();
        assert_eq!(left, vec!["L2", "L3"]);
    }
}
