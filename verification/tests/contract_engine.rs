//! Contract obligations: due dates, renewals, service levels, corrections.

use control_spine::contract_obligation::engine::{
    add_months, credit_cents, evaluate, tier_for, try_evaluate, Evaluation,
};
use control_spine::contract_obligation::explain::explain;
use control_spine::contract_obligation::model::{
    detect_cycle, AnchorEvent, Calendar, ConfigError, DateSpec, ObligationRecord, ObligationType,
    PolicyParams, RegisterInputs, RenewalTerms, RollMode, SlaMeasurement, SlaTerms, SlaTier,
};
use control_spine::contract_obligation::rule_ids;
use control_spine::date::Date;
use control_spine::spine::Severity;
use control_spine::table::Table;

fn d(y: i32, m: u32, day: u32) -> Date {
    Date::from_ymd_opt(y, m, day).expect("valid test date")
}

fn params() -> PolicyParams {
    PolicyParams {
        warn_days_before_due: 10,
        warn_days_before_optout: 14,
        business_day_roll: RollMode::Raw,
        calendars: Table::new(),
        sla_credit_tiers: vec![
            SlaTier {
                min_uptime_bp: 9990,
                credit_bp: 100,
            },
            SlaTier {
                min_uptime_bp: 9900,
                credit_bp: 500,
            },
        ],
    }
}

/// Clock used by most tests: 2026-09-22, a Tuesday.
fn clock() -> Date {
    d(2026, 9, 22)
}

fn rec(id: &str, kind: ObligationType, due: Option<DateSpec>) -> ObligationRecord {
    ObligationRecord {
        id: id.to_string(),
        version: 1,
        supersedes: None,
        counterparty: "Acme Corp".to_string(),
        obligation_type: kind,
        jurisdiction: None,
        due,
        amount_cents: None,
        satisfied_on: None,
        completed_on: None,
        renewal: None,
        sla: None,
        sla_measurements: vec![],
    }
}

fn run(records: Vec<ObligationRecord>, params: &PolicyParams) -> Evaluation {
    evaluate(
        &RegisterInputs {
            obligations: records,
        },
        params,
        clock(),
    )
    .expect("valid test register")
}

fn run_at(
    records: Vec<ObligationRecord>,
    params: &PolicyParams,
    clock: Date,
) -> Evaluation {
    evaluate(
        &RegisterInputs {
            obligations: records,
        },
        params,
        clock,
    )
    .expect("valid test register")
}

fn severities(ev: &Evaluation) -> Vec<(Severity, &str)> {
    ev.findings
        .iter()
        .map(|f| (f.severity, f.rule_id.as_str()))
        .collect()
}

// --- month clamping ---------------------------------------------------

#[test]
fn add_months_clamps_month_end() {
    assert_eq!(add_months(d(2026, 1, 31), 1), d(2026, 2, 28));
    assert_eq!(add_months(d(2026, 5, 31), 1), d(2026, 6, 30));
    assert_eq!(add_months(d(2026, 1, 30), 1), d(2026, 2, 28));
    assert_eq!(add_months(d(2026, 3, 15), 1), d(2026, 4, 15));
    assert_eq!(add_months(d(2026, 12, 15), 2), d(2027, 2, 15));
}

#[test]
fn add_months_clamps_to_leap_day() {
    assert_eq!(add_months(d(2024, 1, 31), 1), d(2024, 2, 29));
    assert_eq!(add_months(d(2023, 1, 31), 1), d(2023, 2, 28));
}

// --- due-date findings -------------------------------------------------

#[test]
fn explicit_due_outside_warn_window_is_silent() {
    // Due 11 days out: past the 10-day warn window, nothing to escalate.
    let ev = run(
        vec![rec(
            "O-P",
            ObligationType::Payment,
            Some(DateSpec::Explicit {
                date: d(2026, 10, 3),
            }),
        )],
        &params(),
    );
    assert!(
        ev.findings.is_empty(),
        "expected no findings, got {severities:?}",
        severities = severities(&ev)
    );
}

#[test]
fn due_exactly_at_warn_boundary_is_a_warn() {
    // 2026-10-02 is exactly warn_days_before_due (10) days out.
    let ev = run(
        vec![rec(
            "O-P",
            ObligationType::Payment,
            Some(DateSpec::Explicit {
                date: d(2026, 10, 2),
            }),
        )],
        &params(),
    );
    assert_eq!(
        severities(&ev),
        vec![(Severity::Warn, rule_ids::DUE_UPCOMING)]
    );
    let res = ev.resolutions.first().expect("resolution present");
    assert_eq!(res.days_remaining, Some(10));
}

#[test]
fn due_on_the_clock_itself_is_a_warn_with_zero_days() {
    let ev = run_at(
        vec![rec(
            "O-P",
            ObligationType::Payment,
            Some(DateSpec::Explicit {
                date: d(2026, 9, 22),
            }),
        )],
        &params(),
        d(2026, 9, 22),
    );
    assert_eq!(
        severities(&ev),
        vec![(Severity::Warn, rule_ids::DUE_UPCOMING)]
    );
    assert_eq!(ev.resolutions.first().unwrap().days_remaining, Some(0));
}

#[test]
fn overdue_due_is_a_breach_counting_days_past() {
    let ev = run(
        vec![rec(
            "O-P",
            ObligationType::Payment,
            Some(DateSpec::Explicit {
                date: d(2026, 9, 21),
            }),
        )],
        &params(),
    );
    assert_eq!(
        severities(&ev),
        vec![(Severity::Breach, rule_ids::DUE_OVERDUE)]
    );
    assert_eq!(ev.resolutions.first().unwrap().days_remaining, Some(-1));
    assert!(
        ev.findings[0].message.contains("1 days past"),
        "message should count days past: {}",
        ev.findings[0].message
    );
}

#[test]
fn satisfied_obligation_is_info_even_when_past_due() {
    let mut satisfied = rec(
        "O-P",
        ObligationType::Payment,
        Some(DateSpec::Explicit {
            date: d(2026, 9, 21),
        }),
    );
    satisfied.satisfied_on = Some(d(2026, 9, 22));
    let ev = run(vec![satisfied], &params());
    assert_eq!(severities(&ev), vec![(Severity::Info, rule_ids::DUE_MET)]);
    // Satisfied on the clock date, well before the due date: the MET
    // info replaces any upcoming warn. (A satisfaction dated after the
    // clock is a future event — it cannot clear today's warn; see the
    // satisfaction_on_or_after_the_clock test.)
    let mut early = rec(
        "O-Q",
        ObligationType::Payment,
        Some(DateSpec::Explicit {
            date: d(2026, 10, 2),
        }),
    );
    early.satisfied_on = Some(d(2026, 9, 22));
    let ev2 = run(vec![early], &params());
    assert_eq!(severities(&ev2), vec![(Severity::Info, rule_ids::DUE_MET)]);
}

#[test]
fn satisfaction_on_or_after_the_clock_does_not_clear_overdue() {
    // A satisfaction dated after the clock is a future event: the
    // obligation is still overdue today.
    let mut future = rec(
        "O-P",
        ObligationType::Payment,
        Some(DateSpec::Explicit {
            date: d(2026, 9, 21),
        }),
    );
    future.satisfied_on = Some(d(2026, 9, 30));
    let ev = run(vec![future], &params());
    assert_eq!(
        severities(&ev),
        vec![(Severity::Breach, rule_ids::DUE_OVERDUE)]
    );
}

// --- dependent dates ----------------------------------------------------

#[test]
fn dependent_date_chains_from_anchor_due_with_offsets() {
    let anchor = rec(
        "O-ORDER",
        ObligationType::Payment,
        Some(DateSpec::Explicit {
            date: d(2026, 2, 1),
        }),
    );
    // Ship within 1 month and 5 days of the order's due date:
    // Feb 1 + 1 month (clamped ok) = Mar 1, + 5 days = Mar 6.
    let ship = rec(
        "O-SHIP",
        ObligationType::Delivery,
        Some(DateSpec::Dependent {
            anchor_id: "O-ORDER".to_string(),
            anchor_event: AnchorEvent::Due,
            offset_days: 5,
            offset_months: 1,
        }),
    );
    let ev = run(vec![anchor, ship], &params());
    let res = &ev.resolutions[1];
    assert_eq!(res.base_date, Some(d(2026, 2, 1)));
    assert_eq!(res.due_date, Some(d(2026, 3, 6)));
    // Both dues are in the past at the clock: two overdue breaches, in
    // id order (O-ORDER before O-SHIP).
    assert_eq!(
        severities(&ev),
        vec![
            (Severity::Breach, rule_ids::DUE_OVERDUE),
            (Severity::Breach, rule_ids::DUE_OVERDUE),
        ]
    );
}

#[test]
fn dependent_date_on_completed_uses_completion_date() {
    let mut anchor = rec(
        "O-SHIP",
        ObligationType::Delivery,
        Some(DateSpec::Explicit {
            date: d(2026, 3, 1),
        }),
    );
    anchor.completed_on = Some(d(2026, 3, 10));
    // Pay net-10 after actual shipment, not after the promised date.
    let pay = rec(
        "O-PAY",
        ObligationType::Payment,
        Some(DateSpec::Dependent {
            anchor_id: "O-SHIP".to_string(),
            anchor_event: AnchorEvent::Completed,
            offset_days: 10,
            offset_months: 0,
        }),
    );
    let ev = run(vec![anchor, pay], &params());
    let pay_res = ev
        .resolutions
        .iter()
        .find(|r| r.obligation_id == "O-PAY")
        .expect("pay resolution");
    assert_eq!(pay_res.base_date, Some(d(2026, 3, 10)));
    assert_eq!(pay_res.due_date, Some(d(2026, 3, 20)));
}

#[test]
fn unmet_anchor_event_is_pending_info_not_a_breach() {
    let anchor = rec(
        "O-SHIP",
        ObligationType::Delivery,
        Some(DateSpec::Explicit {
            date: d(2026, 3, 1),
        }),
    );
    // completed_on not yet recorded: the pay date is pending.
    let pay = rec(
        "O-PAY",
        ObligationType::Payment,
        Some(DateSpec::Dependent {
            anchor_id: "O-SHIP".to_string(),
            anchor_event: AnchorEvent::Completed,
            offset_days: 10,
            offset_months: 0,
        }),
    );
    let ev = run(vec![anchor, pay], &params());
    let pay_res = ev
        .resolutions
        .iter()
        .find(|r| r.obligation_id == "O-PAY")
        .expect("pay resolution");
    assert_eq!(pay_res.due_date, None);
    // The pending anchor event leaves O-PAY's date unfixed (info), while
    // the anchor O-SHIP itself is overdue at the clock (breach). Both
    // findings are real; findings come in obligation-id order.
    let sev = severities(&ev);
    assert_eq!(
        sev,
        vec![
            (Severity::Info, rule_ids::DEPENDENT_PENDING),
            (Severity::Breach, rule_ids::DUE_OVERDUE),
        ]
    );
    assert_eq!(ev.findings[0].subject, "O-PAY");
    assert_eq!(ev.findings[1].subject, "O-SHIP");
}

// --- business-day rolling ----------------------------------------------

fn ny_calendar() -> (String, Calendar) {
    (
        "US-NY".to_string(),
        Calendar {
            weekend: vec!["sat".to_string(), "sun".to_string()],
            holidays: vec![d(2026, 9, 28)],
        },
    )
}

#[test]
fn computed_due_dates_roll_forward_over_weekend_and_holiday() {
    // Anchor due Friday 2026-09-25; +1 day lands Saturday 09-26, which
    // rolls over the weekend onto Monday 09-28 — a configured holiday —
    // and lands Tuesday 09-29.
    let mut p = params();
    p.business_day_roll = RollMode::Forward;
    let (j, cal) = ny_calendar();
    p.calendars.insert(j, cal);

    let anchor = rec(
        "O-ANCHOR",
        ObligationType::Payment,
        Some(DateSpec::Explicit {
            date: d(2026, 9, 25),
        }),
    );
    let mut rolled = rec(
        "O-ROLL",
        ObligationType::Payment,
        Some(DateSpec::Dependent {
            anchor_id: "O-ANCHOR".to_string(),
            anchor_event: AnchorEvent::Due,
            offset_days: 1,
            offset_months: 0,
        }),
    );
    rolled.jurisdiction = Some("US-NY".to_string());
    let ev = run(vec![anchor, rolled], &p);
    let res = ev
        .resolutions
        .iter()
        .find(|r| r.obligation_id == "O-ROLL")
        .expect("rolled resolution");
    assert_eq!(res.due_date, Some(d(2026, 9, 29)));
    assert!(res.roll_applied);
}

#[test]
fn roll_mode_none_honors_the_raw_deadline() {
    // Same Saturday land, but no rolling: the spec-exact date stands.
    let mut p = params();
    p.business_day_roll = RollMode::Raw;
    let (j, cal) = ny_calendar();
    p.calendars.insert(j, cal);

    let anchor = rec(
        "O-ANCHOR",
        ObligationType::Payment,
        Some(DateSpec::Explicit {
            date: d(2026, 9, 25),
        }),
    );
    let mut rolled = rec(
        "O-ROLL",
        ObligationType::Payment,
        Some(DateSpec::Dependent {
            anchor_id: "O-ANCHOR".to_string(),
            anchor_event: AnchorEvent::Due,
            offset_days: 1,
            offset_months: 0,
        }),
    );
    rolled.jurisdiction = Some("US-NY".to_string());
    let ev = run(vec![anchor, rolled], &p);
    let res = ev
        .resolutions
        .iter()
        .find(|r| r.obligation_id == "O-ROLL")
        .expect("rolled resolution");
    assert_eq!(res.due_date, Some(d(2026, 9, 26)));
    assert!(!res.roll_applied);
}

#[test]
fn explicit_contract_dates_are_never_rolled() {
    let mut p = params();
    p.business_day_roll = RollMode::Forward;
    let (j, cal) = ny_calendar();
    p.calendars.insert(j, cal);

    let mut a = rec(
        "O-P",
        ObligationType::Payment,
        Some(DateSpec::Explicit {
            date: d(2026, 9, 26), // a Saturday
        }),
    );
    a.jurisdiction = Some("US-NY".to_string());
    let ev = run(vec![a], &p);
    let res = ev.resolutions.first().expect("resolution");
    assert_eq!(res.due_date, Some(d(2026, 9, 26)));
    assert!(!res.roll_applied);
}

// --- renewals ------------------------------------------------------------

fn renewal_obligation(auto_renew: bool, opted_out: bool) -> ObligationRecord {
    let mut r = rec("O-RENEW", ObligationType::RenewalOptOut, None);
    r.renewal = Some(RenewalTerms {
        renewal_date: d(2027, 1, 5),
        notice_days: 45, // deadline: 2026-11-21 (a Saturday)
        auto_renew,
        opted_out,
    });
    r
}

#[test]
fn renewal_notice_deadline_is_exact_and_reported() {
    // 2027-01-05 minus 45 days = 2026-11-21 exactly.
    let ev = run(vec![renewal_obligation(true, false)], &params());
    let res = ev.resolutions.first().expect("resolution");
    assert_eq!(res.due_date, Some(d(2026, 11, 21)));
    assert_eq!(res.base_date, Some(d(2027, 1, 5)));
    // Open window at clock 2026-10-01: 51 days remaining, above the 14-day
    // warn window.
    let ev_open = run_at(
        vec![renewal_obligation(true, false)],
        &params(),
        d(2026, 10, 1),
    );
    assert_eq!(
        severities(&ev_open),
        vec![(Severity::Info, rule_ids::OPTOUT_OPEN)]
    );
    assert_eq!(
        ev_open.resolutions.first().unwrap().days_remaining,
        Some(51)
    );
}

#[test]
fn renewal_deadline_rolls_forward_per_jurisdiction() {
    let mut p = params();
    p.business_day_roll = RollMode::Forward;
    let (j, cal) = ny_calendar();
    p.calendars.insert(j, cal);
    let mut r = renewal_obligation(true, false);
    r.jurisdiction = Some("US-NY".to_string());
    let ev = run(vec![r], &p);
    let res = ev.resolutions.first().expect("resolution");
    // Saturday 2026-11-21 rolls to Monday 2026-11-23.
    assert_eq!(res.due_date, Some(d(2026, 11, 23)));
    assert!(res.roll_applied);
}

#[test]
fn renewal_window_open_at_the_deadline_itself() {
    // Clock on the deadline date: the window is still open (due today).
    let ev = run_at(
        vec![renewal_obligation(true, false)],
        &params(),
        d(2026, 11, 21),
    );
    assert_eq!(
        severities(&ev),
        vec![(Severity::Warn, rule_ids::OPTOUT_CLOSING)]
    );
    assert_eq!(ev.resolutions.first().unwrap().days_remaining, Some(0));
}

#[test]
fn renewal_deadline_crossed_is_a_breach_when_auto_renew() {
    let ev = run_at(
        vec![renewal_obligation(true, false)],
        &params(),
        d(2026, 11, 28),
    );
    assert_eq!(
        severities(&ev),
        vec![(Severity::Breach, rule_ids::OPTOUT_PASSED)]
    );
    // Breach findings demand human signoff.
    assert!(ev.findings[0].requires_signoff);
}

#[test]
fn missed_optout_without_auto_renew_is_not_a_breach() {
    // Without auto-renew a missed opt-out simply lets the term end.
    let ev = run_at(
        vec![renewal_obligation(false, false)],
        &params(),
        d(2026, 11, 28),
    );
    assert!(
        ev.findings.is_empty(),
        "{severities:?}",
        severities = severities(&ev)
    );
}

#[test]
fn renewed_contract_is_a_breach_unless_opt_out_is_on_file() {
    // At/after the renewal date with auto-renew and no opt-out: renewed.
    let ev = run_at(
        vec![renewal_obligation(true, false)],
        &params(),
        d(2027, 1, 5),
    );
    assert_eq!(
        severities(&ev),
        vec![(Severity::Breach, rule_ids::AUTO_RENEWED)]
    );
    // Same date with an opt-out on file: clean info.
    let ev2 = run_at(
        vec![renewal_obligation(true, true)],
        &params(),
        d(2027, 1, 5),
    );
    assert_eq!(
        severities(&ev2),
        vec![(Severity::Info, rule_ids::OPTOUT_EXERCISED)]
    );
    // Without auto-renew, the term just ends.
    let ev3 = run_at(
        vec![renewal_obligation(false, false)],
        &params(),
        d(2027, 1, 5),
    );
    assert_eq!(
        severities(&ev3),
        vec![(Severity::Info, rule_ids::TERM_ENDED)]
    );
}

#[test]
fn warn_window_at_optout_boundary() {
    // 14 days before the 2026-11-21 deadline is 2026-11-07: warn.
    let ev = run_at(
        vec![renewal_obligation(true, false)],
        &params(),
        d(2026, 11, 7),
    );
    assert_eq!(
        severities(&ev),
        vec![(Severity::Warn, rule_ids::OPTOUT_CLOSING)]
    );
    // 15 days before (2026-11-06): still open, above the warn window.
    let ev2 = run_at(
        vec![renewal_obligation(true, false)],
        &params(),
        d(2026, 11, 6),
    );
    assert_eq!(
        severities(&ev2),
        vec![(Severity::Info, rule_ids::OPTOUT_OPEN)]
    );
}

// --- SLA credits ----------------------------------------------------------

fn sla_obligation(measurements: Vec<SlaMeasurement>) -> ObligationRecord {
    let mut s = rec("O-SLA", ObligationType::Sla, None);
    s.sla = Some(SlaTerms { window_days: 90 });
    s.sla_measurements = measurements;
    s
}

fn measurement(
    start: Date,
    end: Date,
    uptime_bp: u64,
    charges: i128,
) -> SlaMeasurement {
    SlaMeasurement {
        period_start: start,
        period_end: end,
        achieved_uptime_bp: uptime_bp,
        charges_cents: charges,
    }
}

#[test]
fn sla_measurement_below_every_tier_is_a_breach() {
    let s = sla_obligation(vec![measurement(
        d(2026, 4, 1),
        d(2026, 6, 30),
        9850,
        50_000_000,
    )]);
    let ev = run(vec![s], &params());
    assert_eq!(
        severities(&ev),
        vec![(Severity::Breach, rule_ids::SLA_BREACH)]
    );
    assert!(ev.findings[0].requires_signoff);
}

#[test]
fn sla_tier_boundaries_pick_the_descending_table() {
    // 9950 bp sits in the 9900 tier (5% credit); 9990 exactly at the top
    // tier floor picks the 1% credit tier.
    let s = sla_obligation(vec![measurement(
        d(2026, 4, 1),
        d(2026, 6, 30),
        9950,
        50_000_000,
    )]);
    let ev = run(vec![s], &params());
    assert_eq!(
        severities(&ev),
        vec![(Severity::Warn, rule_ids::SLA_CREDIT_DUE)]
    );
    let res = ev.resolutions.first().expect("resolution");
    assert_eq!(res.tier_min_uptime_bp, Some(9900));
    // credit = 50_000_000 * 500 / 10_000 = 2_500_000 cents.
    assert_eq!(res.credit_cents, Some(2_500_000));

    let s2 = sla_obligation(vec![measurement(
        d(2026, 4, 1),
        d(2026, 6, 30),
        9990,
        50_000_000,
    )]);
    let ev2 = run(vec![s2], &params());
    let res2 = ev2.resolutions.first().expect("resolution");
    assert_eq!(res2.tier_min_uptime_bp, Some(9990));
    // credit = 50_000_000 * 100 / 10_000 = 500_000 cents.
    assert_eq!(res2.credit_cents, Some(500_000));
}

#[test]
fn sla_credit_truncates_fractional_cents() {
    // 9_999_999 * 500 / 10_000 = 499_999.95 → 499_999 cents, floored.
    assert_eq!(credit_cents(9_999_999, 500), 499_999);
    assert_eq!(credit_cents(50_000_000, 500), 2_500_000);
    assert_eq!(credit_cents(0, 500), 0);
}

#[test]
fn stale_measurement_is_a_warn() {
    // window 90 days: a measurement ending 2026-04-30 is stale at a
    // 2026-09-22 clock (cutoff 2026-06-24).
    let s = sla_obligation(vec![measurement(
        d(2026, 4, 1),
        d(2026, 4, 30),
        9950,
        50_000_000,
    )]);
    let ev = run(vec![s], &params());
    assert!(severities(&ev).contains(&(Severity::Warn, rule_ids::SLA_STALE)));

    // A recent measurement is not stale.
    let s2 = sla_obligation(vec![measurement(
        d(2026, 8, 1),
        d(2026, 9, 15),
        9950,
        50_000_000,
    )]);
    let ev2 = run(vec![s2], &params());
    assert!(!severities(&ev2).contains(&(Severity::Warn, rule_ids::SLA_STALE)));

    // No measurements at all: stale by definition.
    let ev3 = run(vec![sla_obligation(vec![])], &params());
    assert!(severities(&ev3).contains(&(Severity::Warn, rule_ids::SLA_STALE)));
}

#[test]
fn latest_measurement_drives_the_resolution_snapshot() {
    let s = sla_obligation(vec![
        measurement(d(2026, 2, 1), d(2026, 3, 31), 9990, 10_000_000),
        measurement(d(2026, 4, 1), d(2026, 6, 30), 9950, 50_000_000),
    ]);
    let ev = run(vec![s], &params());
    let res = ev.resolutions.first().expect("resolution");
    // Latest period end (2026-06-30) picks its tier and credit.
    assert_eq!(res.tier_min_uptime_bp, Some(9900));
    assert_eq!(res.credit_cents, Some(2_500_000));
}

// --- corrections ------------------------------------------------------------

#[test]
fn findings_use_the_latest_version_of_a_corrected_obligation() {
    let v1 = rec(
        "O-PAY",
        ObligationType::Payment,
        Some(DateSpec::Explicit {
            date: d(2026, 9, 20), // overdue at the clock
        }),
    );
    let mut v2 = rec(
        "O-PAY",
        ObligationType::Payment,
        Some(DateSpec::Explicit {
            date: d(2026, 10, 20), // corrected to the future
        }),
    );
    v2.version = 2;
    v2.supersedes = Some(1);
    // v1 alone breaches.
    let ev1 = run(vec![v1.clone()], &params());
    assert_eq!(
        severities(&ev1),
        vec![(Severity::Breach, rule_ids::DUE_OVERDUE)]
    );
    // With the correction registered, the evaluation uses v2: no breach,
    // and a correction info finding is recorded.
    let ev2 = run(vec![v1, v2], &params());
    assert_eq!(
        severities(&ev2),
        vec![(Severity::Info, rule_ids::REGISTER_CORRECTION)]
    );
    let res = ev2
        .resolutions
        .iter()
        .find(|r| r.obligation_id == "O-PAY")
        .expect("resolution");
    assert_eq!(res.due_date, Some(d(2026, 10, 20)));
}

// --- fail-closed behavior ---------------------------------------------------

#[test]
fn out_of_window_clock_is_a_config_error_not_a_panic() {
    let inputs = RegisterInputs {
        obligations: vec![rec(
            "O-P",
            ObligationType::Payment,
            Some(DateSpec::Explicit {
                date: d(2026, 9, 22),
            }),
        )],
    };
    assert!(evaluate(&inputs, &params(), d(1969, 12, 31)).is_err());
    assert!(evaluate(&inputs, &params(), d(3000, 1, 1)).is_err());
}

#[test]
fn evaluation_is_deterministic_regardless_of_register_order() {
    let a = rec(
        "O-A",
        ObligationType::Payment,
        Some(DateSpec::Explicit {
            date: d(2026, 10, 1),
        }),
    );
    let b = rec(
        "O-B",
        ObligationType::Payment,
        Some(DateSpec::Explicit {
            date: d(2026, 10, 2),
        }),
    );
    let ev1 = run(vec![a.clone(), b.clone()], &params());
    let ev2 = run(vec![b, a], &params());
    // Resolutions come out in id order; findings in rule order.
    let ids1: Vec<&str> = ev1
        .resolutions
        .iter()
        .map(|r| r.obligation_id.as_str())
        .collect();
    let ids2: Vec<&str> = ev2
        .resolutions
        .iter()
        .map(|r| r.obligation_id.as_str())
        .collect();
    assert_eq!(ids1, ids2);
    assert_eq!(severities(&ev1), severities(&ev2));
}

#[test]
fn contract_tiers_are_met_from_the_top() {
    let tiers = params().sla_credit_tiers;
    assert_eq!(tier_for(10_000, &tiers).map(|t| t.min_uptime_bp), Some(9990));
    assert_eq!(tier_for(9_989, &tiers).map(|t| t.min_uptime_bp), Some(9900));
    assert!(tier_for(9_899, &tiers).is_none());
}

#[test]
fn contract_calendar_without_business_days_is_told() {
    let mut p = params();
    p.business_day_roll = RollMode::Forward;
    let every_day = ["mon", "tue", "wed", "thu", "fri", "sat", "sun"];
    p.calendars.insert(
        "X".to_string(),
        Calendar {
            weekend: every_day.iter().map(|day| day.to_string()).collect(),
            holidays: vec![],
        },
    );
    let mut r = renewal_obligation(true, false);
    r.jurisdiction = Some("X".to_string());
    let answer = evaluate(
        &RegisterInputs { obligations: vec![r] },
        &p,
        clock(),
    );
    assert!(answer.is_err());
    if let Err(error) = answer {
        assert!(matches!(
            error,
            ConfigError::NoBusinessDay { .. } | ConfigError::InvalidCalendar { .. }
        ));
    }
}

#[test]
fn contract_months_cross_the_last_december() {
    assert_eq!(add_months(d(2026, 12, 31), 0), d(2026, 12, 31));
    assert_eq!(add_months(d(2026, 11, 30), 13), d(2027, 12, 30));
}

#[test]
fn contract_explain_names_every_obligation() {
    let ev = run(
        vec![
            rec(
                "O-P",
                ObligationType::Payment,
                Some(DateSpec::Explicit { date: d(2026, 9, 21) }),
            ),
            renewal_obligation(true, false),
        ],
        &params(),
    );
    let text = explain(&ev, clock());
    assert!(text.contains("O-P"), "{text}");
    assert!(text.contains("O-RENEW"), "{text}");
    assert!(text.contains("2026-11-21"), "{text}");
}

#[test]
fn contract_evaluation_is_always_defined_on_valid_registers() {
    let inputs = RegisterInputs { obligations: vec![renewal_obligation(true, false)] };
    assert!(matches!(try_evaluate(&inputs, &params(), clock()), Ok(_)));
}

#[test]
fn contract_findings_of_an_obligation_follow_the_rules() {
    // Two credits, two breaches, and a stale window, given out of order.
    let mut s = sla_obligation(vec![
        measurement(d(2026, 3, 1), d(2026, 3, 31), 9950, 30_000),
        measurement(d(2026, 1, 1), d(2026, 1, 31), 9950, 10_000),
        measurement(d(2026, 4, 1), d(2026, 4, 30), 9800, 40_000),
        measurement(d(2026, 2, 1), d(2026, 2, 28), 9700, 20_000),
    ]);
    let first = s.clone();
    s.version = 2;
    s.supersedes = Some(1);
    let other = rec(
        "O-A",
        ObligationType::Payment,
        Some(DateSpec::Explicit {
            date: d(2026, 9, 20),
        }),
    );
    let ev = run(vec![first, s, other], &params());
    let told: Vec<(&str, &str)> = ev
        .findings
        .iter()
        .map(|f| (f.subject.as_str(), f.rule_id.as_str()))
        .collect();
    assert_eq!(
        told,
        vec![
            ("O-A", rule_ids::DUE_OVERDUE),
            ("O-SLA", rule_ids::REGISTER_CORRECTION),
            ("O-SLA", rule_ids::SLA_CREDIT_DUE),
            ("O-SLA", rule_ids::SLA_CREDIT_DUE),
            ("O-SLA", rule_ids::SLA_BREACH),
            ("O-SLA", rule_ids::SLA_BREACH),
            ("O-SLA", rule_ids::SLA_STALE),
        ]
    );
    assert!(ev.findings[2].message.starts_with("period 2026-01-01..2026-01-31"));
    assert!(ev.findings[3].message.starts_with("period 2026-03-01..2026-03-31"));
    assert!(ev.findings[4].message.starts_with("period 2026-02-01..2026-02-28"));
    assert!(ev.findings[5].message.starts_with("period 2026-04-01..2026-04-30"));
}

#[test]
fn contract_versions_keep_their_order_wherever_they_stand() {
    let on = |day: u32| {
        Some(DateSpec::Explicit {
            date: d(2026, 9, day),
        })
    };
    let a1 = rec("O-A", ObligationType::Payment, on(10));
    let mut a2 = rec("O-A", ObligationType::Payment, on(15));
    a2.version = 4;
    a2.supersedes = Some(1);
    let b = rec("O-B", ObligationType::Payment, on(25));
    let orders = vec![
        vec![a1.clone(), a2.clone(), b.clone()],
        vec![a1.clone(), b.clone(), a2.clone()],
        vec![b.clone(), a1.clone(), a2.clone()],
    ];
    for records in orders {
        let ev = run(records, &params());
        let resolved: Vec<(&str, Option<Date>)> = ev
            .resolutions
            .iter()
            .map(|r| (r.obligation_id.as_str(), r.due_date))
            .collect();
        assert_eq!(
            resolved,
            vec![("O-A", Some(d(2026, 9, 15))), ("O-B", Some(d(2026, 9, 25)))]
        );
        assert_eq!(ev.findings.len(), 3);
    }
    // A correction ahead of what it corrects is refused.
    let swapped = RegisterInputs {
        obligations: vec![a2, a1, b],
    };
    assert!(matches!(
        evaluate(&swapped, &params(), clock()),
        Err(ConfigError::InvalidRegister(_))
    ));
}

#[test]
fn contract_cycles_are_found_from_wherever_they_are_reached() {
    let on = |id: &str, anchor: &str| {
        rec(
            id,
            ObligationType::Payment,
            Some(DateSpec::Dependent {
                anchor_id: anchor.to_string(),
                anchor_event: AnchorEvent::Due,
                offset_days: 1,
                offset_months: 0,
            }),
        )
    };
    let records = vec![
        on("O-1", "O-2"),
        on("O-2", "O-3"),
        on("O-3", "O-2"),
        on("O-4", "O-5"),
    ];
    for start in ["O-1", "O-2", "O-3"] {
        assert!(matches!(
            detect_cycle(&records, start),
            Err(ConfigError::InvalidAnchor { .. })
        ));
    }
    for start in ["O-4", "O-5", "O-9"] {
        assert_eq!(detect_cycle(&records, start), Ok(()));
    }
}
