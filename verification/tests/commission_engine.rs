//! Commission runs: bands, caps, splits, collisions, and returns.

use std::collections::BTreeMap;

use control_spine::commission::bands::{commission_parts, commission_total, round_half_up};
use control_spine::commission::config::{Band, BandMode, PlanConfig, PlanVersion, RoleWeight};
use control_spine::commission::engine::{run, EngineError};
use control_spine::commission::explain::{explain, fmt_ppm};
use control_spine::commission::input::{Credit, Transaction, TransactionsFile, TxnKind};
use control_spine::commission::split::largest_remainder;
use control_spine::date::Date;
use control_spine::spine::Severity;

fn date(s: &str) -> Date {
    Date::parse(s).expect("valid date")
}

fn band(up_to_ppm: Option<u64>, rate_bps: u32) -> Band {
    Band {
        up_to_ppm,
        rate_bps,
    }
}

/// Quota 1_000_000c; marginal bands 100% @200, 200% @350, above @500.
fn marginal_plan() -> PlanConfig {
    PlanConfig {
        plan_id: "p".to_string(),
        versions: vec![PlanVersion {
            version: 1,
            effective_from: date("2026-01-01"),
            effective_to: None,
            quota_cents: 1_000_000,
            band_mode: BandMode::Marginal,
            bands: vec![
                band(Some(1_000_000), 200),
                band(Some(2_000_000), 350),
                band(None, 500),
            ],
            windfall_cap_ppm: None,
            max_spread_bps: None,
            role_weights: vec![RoleWeight {
                role: "ae".to_string(),
                weight_bps: 10_000,
            }],
        }],
    }
}

fn sale(id: &str, day: &str, amount: i128, credits: Vec<Credit>) -> Transaction {
    Transaction {
        transaction_id: id.to_string(),
        date: date(day),
        amount_cents: amount,
        kind: TxnKind::Sale,
        original_transaction_id: None,
        credits,
    }
}

fn file(txns: Vec<Transaction>) -> TransactionsFile {
    TransactionsFile { transactions: txns }
}

fn single_credit(rep: &str) -> Vec<Credit> {
    vec![Credit {
        rep_id: rep.to_string(),
        role: "ae".to_string(),
        priority: 1,
    }]
}

#[test]
fn round_half_up_at_the_midpoint() {
    assert_eq!(round_half_up(50, 100), 1); // exactly .5 → up
    assert_eq!(round_half_up(49, 100), 0);
    assert_eq!(round_half_up(150, 100), 2);
}

#[test]
fn marginal_mode_pays_each_slice_at_its_own_rate() {
    let plan = marginal_plan();
    let out = run(
        &plan,
        &file(vec![sale(
            "T1",
            "2026-02-01",
            2_000_000,
            single_credit("r"),
        )]),
    )
    .expect("runs");
    assert_eq!(out.rep_summaries[0].net_commission_cents, 55_000);
    assert_eq!(out.rep_summaries[0].net_band_slices.len(), 2);
}

#[test]
fn cliff_mode_pays_all_revenue_at_the_landing_band_rate() {
    let mut plan = marginal_plan();
    plan.versions[0].band_mode = BandMode::Cliff;
    let out = run(
        &plan,
        &file(vec![sale(
            "T1",
            "2026-02-01",
            2_500_000,
            single_credit("r"),
        )]),
    )
    .expect("runs");
    // Attainment 250% lands in the open band: all revenue at 500 bps.
    assert_eq!(out.rep_summaries[0].net_commission_cents, 125_000);
    assert_eq!(out.rep_summaries[0].net_band_slices[0].band_index, 2);
}

#[test]
fn marginal_and_cliff_diverge_on_the_same_input() {
    let mut plan = marginal_plan();
    let txns = file(vec![sale(
        "T1",
        "2026-02-01",
        1_500_000,
        single_credit("r"),
    )]);
    let marginal = run(&plan, &txns).expect("runs");
    plan.versions[0].band_mode = BandMode::Cliff;
    let cliff = run(&plan, &txns).expect("runs");
    // Marginal: 1_000_000@200 + 500_000@350 = 20_000 + 17_500.
    assert_eq!(marginal.rep_summaries[0].net_commission_cents, 37_500);
    // Cliff: all 1_500_000 at the 350 band = 52_500.
    assert_eq!(cliff.rep_summaries[0].net_commission_cents, 52_500);
}

#[test]
fn attainment_exactly_at_a_band_boundary_selects_the_next_band_for_cliff() {
    let mut plan = marginal_plan();
    plan.versions[0].band_mode = BandMode::Cliff;
    let out = run(
        &plan,
        &file(vec![sale(
            "T1",
            "2026-02-01",
            1_000_000,
            single_credit("r"),
        )]),
    )
    .expect("runs");
    // up_to is exclusive: exactly 100% lands in the 350 band.
    assert_eq!(out.rep_summaries[0].net_commission_cents, 35_000);
}

#[test]
fn attainment_exactly_at_a_band_boundary_pays_only_the_lower_slice_for_marginal() {
    let plan = marginal_plan();
    let out = run(
        &plan,
        &file(vec![sale(
            "T1",
            "2026-02-01",
            1_000_000,
            single_credit("r"),
        )]),
    )
    .expect("runs");
    assert_eq!(out.rep_summaries[0].net_band_slices.len(), 1);
    assert_eq!(out.rep_summaries[0].net_commission_cents, 20_000);
}

#[test]
fn windfall_cap_caps_commission_and_raises_an_info_finding() {
    let mut plan = marginal_plan();
    plan.versions[0].windfall_cap_ppm = Some(1_200_000);
    let out = run(
        &plan,
        &file(vec![sale(
            "T1",
            "2026-02-01",
            2_000_000,
            single_credit("r"),
        )]),
    )
    .expect("runs");
    let s = &out.rep_summaries[0];
    assert!(s.windfall_cap_applied);
    assert_eq!(s.net_commission_cents, 27_000); // 1_000_000@200 + 200_000@350
    assert!(out
        .findings
        .iter()
        .any(|f| f.rule_id == "WINDFALL-CAP" && f.severity == Severity::Info));
}

#[test]
fn windfall_cap_at_exact_boundary_is_not_applied() {
    let mut plan = marginal_plan();
    plan.versions[0].windfall_cap_ppm = Some(1_500_000);
    let out = run(
        &plan,
        &file(vec![sale(
            "T1",
            "2026-02-01",
            1_500_000,
            single_credit("r"),
        )]),
    )
    .expect("runs");
    assert!(!out.rep_summaries[0].windfall_cap_applied);
    assert_eq!(out.rep_summaries[0].net_commission_cents, 37_500);
    assert!(!out.findings.iter().any(|f| f.rule_id == "WINDFALL-CAP"));
}

#[test]
fn split_rounding_uses_largest_remainder_and_sums_exactly() {
    let mut plan = marginal_plan();
    plan.versions[0].role_weights = vec![
        RoleWeight {
            role: "ae".to_string(),
            weight_bps: 5_000,
        },
        RoleWeight {
            role: "se".to_string(),
            weight_bps: 5_000,
        },
    ];
    let txns = file(vec![sale(
        "T1",
        "2026-02-01",
        101,
        vec![
            Credit {
                rep_id: "rep-z".to_string(),
                role: "se".to_string(),
                priority: 1,
            },
            Credit {
                rep_id: "rep-a".to_string(),
                role: "ae".to_string(),
                priority: 1,
            },
        ],
    )]);
    let out = run(&plan, &txns).expect("runs");
    let by_rep: BTreeMap<String, i128> = out
        .credit_lines
        .iter()
        .map(|l| (l.rep_id.clone(), l.credited_cents))
        .collect();
    // Both remainders tie at 50; the extra cent goes to the canonical
    // (rep, role) order — rep-a — never to input order.
    assert_eq!(by_rep["rep-a"], 51);
    assert_eq!(by_rep["rep-z"], 50);
    assert_eq!(by_rep.values().sum::<i128>(), 101);
}

#[test]
fn credit_collision_resolves_by_explicit_priority() {
    let plan = marginal_plan();
    let txns = file(vec![sale(
        "T1",
        "2026-02-01",
        100_000,
        vec![
            Credit {
                rep_id: "rep-b".to_string(),
                role: "ae".to_string(),
                priority: 2,
            },
            Credit {
                rep_id: "rep-a".to_string(),
                role: "ae".to_string(),
                priority: 1,
            },
        ],
    )]);
    let out = run(&plan, &txns).expect("runs");
    assert_eq!(out.credit_lines.len(), 1);
    assert_eq!(out.credit_lines[0].rep_id, "rep-a");
    assert!(out.findings.is_empty());
}

#[test]
fn collision_tie_drops_the_role_and_is_order_independent() {
    let plan = marginal_plan();
    let mk = |reverse: bool| {
        let mut credits = vec![
            Credit {
                rep_id: "rep-a".to_string(),
                role: "ae".to_string(),
                priority: 1,
            },
            Credit {
                rep_id: "rep-b".to_string(),
                role: "ae".to_string(),
                priority: 1,
            },
        ];
        if reverse {
            credits.reverse();
        }
        file(vec![sale("T1", "2026-02-01", 100_000, credits)])
    };
    let a = run(&plan, &mk(false)).expect("runs");
    let b = run(&plan, &mk(true)).expect("runs");
    // Identical output — input order decided nothing.
    assert_eq!(a.credit_lines, b.credit_lines);
    assert_eq!(a.rep_summaries, b.rep_summaries);
    assert_eq!(a.findings.len(), b.findings.len());
    assert!(a
        .findings
        .iter()
        .zip(b.findings.iter())
        .all(|(x, y)| x.rule_id == y.rule_id && x.subject == y.subject));
    assert!(a.credit_lines.is_empty()); // the tied role is dropped whole
    let finding = a
        .findings
        .iter()
        .find(|f| f.rule_id == "CREDIT-COLLISION")
        .expect("collision finding present");
    assert_eq!(finding.severity, Severity::Breach);
    assert!(finding.requires_signoff);
    assert_eq!(finding.subject, "txn:T1");
}

fn returned(id: &str, day: &str, amount: i128, original: &str) -> Transaction {
    Transaction {
        transaction_id: id.to_string(),
        date: date(day),
        amount_cents: amount,
        kind: TxnKind::Return,
        original_transaction_id: Some(original.to_string()),
        credits: Vec::new(),
    }
}

#[test]
fn commission_full_return_leaves_nothing() {
    let plan = marginal_plan();
    let out = run(
        &plan,
        &file(vec![
            sale("T1", "2026-02-01", 2_000_000, single_credit("r")),
            returned("T2", "2026-03-01", 2_000_000, "T1"),
        ]),
    )
    .expect("runs");
    let s = &out.rep_summaries[0];
    assert_eq!(s.gross_credited_cents, 2_000_000);
    assert_eq!(s.returned_cents, 2_000_000);
    assert_eq!(s.net_credited_cents, 0);
    assert_eq!(s.net_commission_cents, 0);
    assert_eq!(out.credit_lines[1].credited_cents, -2_000_000);
    assert_eq!(out.credit_lines[1].links_original, Some("T1".to_string()));
    let clawback = out.findings.iter().find(|f| f.rule_id == "CLAWBACK").expect("clawback");
    assert_eq!(clawback.subject, "txn:T2");
    assert!(clawback.requires_signoff);
}

#[test]
fn commission_transaction_order_does_not_matter() {
    let plan = marginal_plan();
    let mut txns = vec![
        sale("T1", "2026-02-01", 1_500_000, single_credit("r")),
        sale("T2", "2026-02-01", 700_000, single_credit("q")),
        returned("T3", "2026-03-01", 100_000, "T1"),
    ];
    let first = run(&plan, &file(txns.clone())).expect("runs");
    txns.reverse();
    let second = run(&plan, &file(txns)).expect("runs");
    assert_eq!(first.credit_lines, second.credit_lines);
    assert_eq!(first.rep_summaries, second.rep_summaries);
    assert_eq!(first.findings, second.findings);
}

#[test]
fn commission_credit_order_does_not_matter() {
    let mut plan = marginal_plan();
    plan.versions[0].role_weights = vec![
        RoleWeight {
            role: "ae".to_string(),
            weight_bps: 5_000,
        },
        RoleWeight {
            role: "se".to_string(),
            weight_bps: 5_000,
        },
    ];
    let credit = |rep: &str, role: &str, priority: u32| Credit {
        rep_id: rep.to_string(),
        role: role.to_string(),
        priority,
    };
    let mut txns = vec![
        sale(
            "T1",
            "2026-02-01",
            1_500_001,
            vec![
                credit("r", "ae", 1),
                credit("q", "ae", 2),
                credit("p", "se", 1),
            ],
        ),
        sale(
            "T2",
            "2026-02-01",
            700_000,
            vec![
                credit("q", "ae", 1),
                credit("p", "se", 3),
                credit("s", "se", 3),
            ],
        ),
        returned("T3", "2026-03-01", 100_001, "T1"),
    ];
    let first = run(&plan, &file(txns.clone())).expect("runs");
    txns.reverse();
    for t in txns.iter_mut() {
        t.credits.reverse();
    }
    assert_eq!(file(txns.clone()).validate(), Ok(()));
    let second = run(&plan, &file(txns)).expect("runs");
    assert_eq!(first.credit_lines, second.credit_lines);
    assert_eq!(first.rep_summaries, second.rep_summaries);
    assert_eq!(first.findings, second.findings);
    assert!(first.findings.iter().any(|f| f.rule_id == "CREDIT-COLLISION"));
}

#[test]
fn commission_outputs_are_sorted() {
    let mut plan = marginal_plan();
    let mut later = plan.versions[0].clone();
    plan.versions[0].effective_to = Some(date("2026-06-30"));
    later.version = 2;
    later.effective_from = date("2026-07-01");
    plan.versions.push(later);
    let out = run(
        &plan,
        &file(vec![
            sale("T9", "2026-07-02", 3_000, single_credit("r")),
            sale("T1", "2026-02-01", 2_000, single_credit("r")),
            sale("T5", "2026-02-03", 1_000, single_credit("q")),
            sale("T6", "2025-02-03", 1_000, single_credit("q")),
            returned("T2", "2026-03-01", 500, "T1"),
        ]),
    )
    .expect("runs");
    let lines: Vec<&str> = out.credit_lines.iter().map(|l| l.transaction_id.as_str()).collect();
    assert_eq!(lines, vec!["T1", "T2", "T5", "T9"]);
    // The return adds a line of its own and leaves that of the sale alone.
    assert_eq!(out.credit_lines[0].credited_cents, 2_000);
    assert_eq!(out.credit_lines[0].links_original, None);
    assert_eq!(out.credit_lines[1].credited_cents, -500);
    assert_eq!(out.credit_lines[1].links_original, Some("T1".to_string()));
    let summaries: Vec<(&str, u32)> = out
        .rep_summaries
        .iter()
        .map(|s| (s.rep_id.as_str(), s.plan_version))
        .collect();
    assert_eq!(summaries, vec![("q", 1), ("r", 1), ("r", 2)]);
    let findings: Vec<(&str, &str)> = out
        .findings
        .iter()
        .map(|f| (f.subject.as_str(), f.rule_id.as_str()))
        .collect();
    assert_eq!(findings, vec![("txn:T2", "CLAWBACK"), ("txn:T6", "TXN-UNASSIGNED")]);
    let copy = out.clone();
    assert_eq!(copy.credit_lines, out.credit_lines);
    assert_eq!(copy.rep_summaries, out.rep_summaries);
    assert_eq!(copy.findings, out.findings);
}

#[test]
fn commission_overflow_is_an_error() {
    let plan = marginal_plan();
    let answer = run(
        &plan,
        &file(vec![sale("T1", "2026-02-01", i128::MAX, single_credit("r"))]),
    );
    assert!(matches!(answer, Err(EngineError::ArithmeticOverflow { .. })));
}

#[test]
fn commission_missing_weights_are_an_error() {
    let plan = marginal_plan();
    let mut credits = single_credit("r");
    credits[0].role = "se".to_string();
    let answer = run(&plan, &file(vec![sale("T1", "2026-02-01", 100, credits)]));
    assert_eq!(
        answer.map(|_| ()),
        Err(EngineError::MissingRoleWeight { role: "se".to_string(), version: 1 })
    );
}

#[test]
fn commission_largest_remainders_add_up() {
    assert_eq!(largest_remainder(100, &vec![1, 1, 1]), Ok(vec![34, 33, 33]));
    assert_eq!(largest_remainder(101, &vec![5_000, 5_000]), Ok(vec![51, 50]));
    assert_eq!(largest_remainder(0, &vec![7, 3]), Ok(vec![0, 0]));
}

#[test]
fn commission_totals_follow_the_bands() {
    let plan = marginal_plan();
    assert_eq!(commission_total(&plan.versions[0], 2_000_000), Ok(55_000));
    assert_eq!(commission_total(&plan.versions[0], 0), Ok(0));
}

#[test]
fn commission_explain_shows_the_rep() {
    let plan = marginal_plan();
    let out = run(
        &plan,
        &file(vec![sale("T1", "2026-02-01", 2_000_000, single_credit("rep-1"))]),
    )
    .expect("runs");
    let text = explain(&plan, &out, Some("rep-1"));
    assert!(
        text.contains("\nrep rep-1 (plan v1): gross 2000000 c, returned 0 c, net 2000000 c\n  attainment 200.0000% of quota 1000000 c\n  commission: net 55000 c (gross 55000 c, clawback 0 c)"),
        "{text}"
    );
    assert!(text.contains("    band 1 ≤2000000 ppm: 1000000 c × 350 bps → 35000 c\n"), "{text}");
    assert!(!explain(&plan, &out, Some("rep-2")).contains("\nrep rep-1"));
    assert_eq!(fmt_ppm(1_234_567), "123.4567%");
    assert_eq!(fmt_ppm(-5), "-0.0005%");
}

#[test]
fn commission_more_revenue_never_pays_less() {
    let mut plan = marginal_plan();
    plan.versions[0].windfall_cap_ppm = Some(2_500_000);
    let v = &plan.versions[0];
    let mut last: i128 = 0;
    for revenue in (0..3_000_000).step_by(12_345) {
        let (total, _) = commission_parts(v, revenue).expect("pays");
        assert!(total >= last);
        last = total;
    }
    // 1_000_000@200 + 1_000_000@350 + 500_000@500 at the cap, and no more.
    let capped = commission_parts(v, 2_500_000).expect("pays");
    assert_eq!(capped.0, 20_000 + 35_000 + 25_000);
    assert_eq!(commission_parts(v, 2_500_001).expect("pays"), capped);
    assert_eq!(commission_parts(v, 9_000_000).expect("pays"), capped);
}
