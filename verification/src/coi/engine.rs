//! The gaps of a certificate against the matrix, as of a date.

use vstd::prelude::*;
use vstd::string::StringExecFns;

use crate::coi::cert;
use crate::coi::cert::{Certificate, CertificateView, LineView, PolicyLine};
use crate::coi::config::{CategoryRequirement, Coverage, CoverageRequirement, Endorsement, RequirementsConfig};
use crate::date;
use crate::date::Date;
use crate::num;
use crate::spine;
use crate::spine::{Finding, FindingView, Severity};
use crate::text;

verus! {

pub const RULE_MISSING_COVERAGE: &'static str = "missing_coverage";

pub const RULE_COVERAGE_EXPIRED: &'static str = "coverage_expired";

pub const RULE_EXPIRING_SOON: &'static str = "coverage_expiring_soon";

pub const RULE_LIMIT_BELOW: &'static str = "limit_below_requirement";

pub const RULE_MISSING_ENDORSEMENT: &'static str = "missing_endorsement";

pub const RULE_RATING_BELOW_FLOOR: &'static str = "carrier_rating_below_floor";

pub const RULE_UNKNOWN_CATEGORY: &'static str = "unknown_category";

pub const RULE_LOCKOUT: &'static str = "lockout_recommendation";

/// The longest span of days that a window can have, either way.
pub const MAX_WINDOW_DAYS: i64 = 106_751_991_167;

/// What an evaluation finds.
#[derive(Debug, Clone)]
pub struct Evaluation {
    pub findings: Vec<Finding>,
    pub lockout_recommended: bool,
}

/// What an [`Evaluation`] says.
#[verifier::ext_equal]
pub struct EvaluationView {
    pub findings: Seq<FindingView>,
    pub lockout_recommended: bool,
}

impl View for Evaluation {
    type V = EvaluationView;

    open spec fn view(&self) -> EvaluationView {
        EvaluationView {
            findings: spine::findings_view(self.findings@),
            lockout_recommended: self.lockout_recommended,
        }
    }
}

// ---- money ----

/// `n` in at least three digits.
pub open spec fn three_digits(n: nat) -> Seq<char> {
    if n < 10 {
        "00"@ + text::decimal(n)
    } else if n < 100 {
        "0"@ + text::decimal(n)
    } else {
        text::decimal(n)
    }
}

/// `n` with a comma between each group of three digits.
pub open spec fn grouped(n: nat) -> Seq<char>
    decreases n,
{
    if n < 1000 {
        text::decimal(n)
    } else {
        grouped(n / 1000) + ","@ + three_digits(n % 1000)
    }
}

/// An amount of cents in dollars.
pub open spec fn money_text(cents: int) -> Seq<char> {
    (if cents < 0 {
        "-"@
    } else {
        ""@
    }) + "$"@ + grouped(num::magnitude(cents) / 100) + "."@ + text::two_digits(
        num::magnitude(cents) % 100,
    )
}

fn three_digit_text(n: u128) -> (r: String)
    ensures
        r@ == three_digits(n as nat),
{
    if n >= 100 {
        return text::unsigned_text(n);
    }
    let mut out = String::from_str(
        if n < 10 {
            "00"
        } else {
            "0"
        },
    );
    out.append(text::unsigned_text(n).as_str());
    out
}

fn group_thousands(n: u128) -> (r: String)
    ensures
        r@ == grouped(n as nat),
    decreases n,
{
    if n < 1000 {
        text::unsigned_text(n)
    } else {
        let mut out = group_thousands(n / 1000);
        out.append(",");
        out.append(three_digit_text(n % 1000).as_str());
        out
    }
}

/// Write an amount of cents in dollars: 123456789 cents are `$1,234,567.89`.
pub fn format_cents(cents: i128) -> (r: String)
    ensures
        r@ == money_text(cents as int),
{
    let magnitude: u128 = num::unsigned_abs(cents);
    let mut out = String::from_str(
        if cents < 0 {
            "-"
        } else {
            ""
        },
    );
    out.append("$");
    out.append(group_thousands(magnitude / 100).as_str());
    out.append(".");
    out.append(text::two_digit_text(magnitude % 100).as_str());
    out
}

// ---- the line that a coverage stands on ----

/// Whether a policy is preferred to another: it expires later, or at the same
/// time with a higher limit per occurrence, or with both the same has the
/// lower number.
pub open spec fn preferred(a: LineView, b: LineView) -> bool {
    ||| a.expiration_date > b.expiration_date
    ||| a.expiration_date == b.expiration_date && a.per_occurrence_limit_cents
        > b.per_occurrence_limit_cents
    ||| a.expiration_date == b.expiration_date && a.per_occurrence_limit_cents
        == b.per_occurrence_limit_cents && text::text_lt(a.policy_number, b.policy_number)
}

/// Whether a policy is of a coverage and valid on a day.
pub open spec fn is_current(p: LineView, coverage: Coverage, day: int) -> bool {
    p.coverage == coverage && p.expiration_date >= day
}

/// The place of the preferred one among the first `n` policies that are of a
/// coverage and valid on a day. Of equally preferred ones the first counts.
pub open spec fn selected(s: Seq<LineView>, coverage: Coverage, day: int, n: int) -> Option<int>
    decreases n,
{
    if n <= 0 {
        None
    } else {
        let before = selected(s, coverage, day, n - 1);
        if is_current(s[n - 1], coverage, day) && (match before {
            Some(i) => preferred(s[n - 1], s[i]),
            None => true,
        }) {
            Some(n - 1)
        } else {
            before
        }
    }
}

fn is_preferred(a: &PolicyLine, b: &PolicyLine) -> (r: bool)
    ensures
        r == preferred(a@, b@),
{
    let x: i32 = a.expiration_date.day_number();
    let y: i32 = b.expiration_date.day_number();
    x > y || (x == y && a.per_occurrence_limit_cents > b.per_occurrence_limit_cents) || (x == y
        && a.per_occurrence_limit_cents == b.per_occurrence_limit_cents && text::text_before(
        a.policy_number.as_str(),
        b.policy_number.as_str(),
    ))
}

/// The place of the policy that a coverage stands on: the one that expires
/// last, then has the higher limit per occurrence, then the lower number.
fn select_line(policies: &Vec<PolicyLine>, coverage: Coverage, as_of: Date) -> (r: Option<usize>)
    ensures
        (match r {
            Some(i) => {
                &&& i < policies.len()
                &&& selected(
                    cert::lines_view(policies@),
                    coverage,
                    as_of.day(),
                    policies.len() as int,
                ) == Some(i as int)
            },
            None => selected(
                cert::lines_view(policies@),
                coverage,
                as_of.day(),
                policies.len() as int,
            ) is None,
        }),
{
    let ghost all = cert::lines_view(policies@);
    let mut best: Option<usize> = None;
    let mut i: usize = 0;
    while i < policies.len()
        invariant
            i <= policies.len(),
            all == cert::lines_view(policies@),
            (match best {
                Some(b) => b < i && selected(all, coverage, as_of.day(), i as int) == Some(
                    b as int,
                ),
                None => selected(all, coverage, as_of.day(), i as int) is None,
            }),
        decreases policies.len() - i,
    {
        let p = &policies[i];
        assert(all[i as int] == p@);
        if p.coverage == coverage && p.expiration_date.day_number() >= as_of.day_number() {
            let better = match best {
                Some(b) => {
                    assert(all[b as int] == policies@[b as int]@);
                    is_preferred(p, &policies[b])
                },
                None => true,
            };
            if better {
                best = Some(i);
            }
        }
        i = i + 1;
    }
    best
}

/// The numbers of the first `n` policies that are of a coverage.
pub open spec fn numbers(s: Seq<LineView>, coverage: Coverage, n: int) -> Seq<Seq<char>>
    decreases n,
{
    if n <= 0 {
        Seq::empty()
    } else if s[n - 1].coverage == coverage {
        numbers(s, coverage, n - 1).push(s[n - 1].policy_number)
    } else {
        numbers(s, coverage, n - 1)
    }
}

fn numbers_of(policies: &Vec<PolicyLine>, coverage: Coverage) -> (r: Vec<String>)
    ensures
        text::texts(r@) == numbers(
            cert::lines_view(policies@),
            coverage,
            policies.len() as int,
        ),
{
    let ghost all = cert::lines_view(policies@);
    let mut out: Vec<String> = Vec::new();
    let mut i: usize = 0;
    assert(text::texts(out@) =~= numbers(all, coverage, 0));
    while i < policies.len()
        invariant
            i <= policies.len(),
            all == cert::lines_view(policies@),
            text::texts(out@) == numbers(all, coverage, i as int),
        decreases policies.len() - i,
    {
        let p = &policies[i];
        assert(all[i as int] == p@);
        if p.coverage == coverage {
            let ghost was = out@;
            out.push(p.policy_number.clone());
            assert(text::texts(out@) =~= text::texts(was).push(p.policy_number@));
        }
        i = i + 1;
    }
    out
}

// ---- findings on one coverage ----

pub open spec fn missing_text(coverage: Coverage) -> Seq<char> {
    "required coverage "@ + coverage.sign()
        + " is absent from the certificate: no policy line of this type was presented"@
}

pub open spec fn expired_text(coverage: Coverage, day: int, expired: Seq<Seq<char>>) -> Seq<char> {
    "required coverage "@ + coverage.sign() + " has no policy valid as of "@ + date::date_text(day)
        + ": every line is expired ("@ + text::joined(text::ascending(expired), ", "@) + ")"@
}

pub open spec fn limit_text(
    coverage: Coverage,
    which: Seq<char>,
    limit: int,
    required: int,
) -> Seq<char> {
    "coverage "@ + coverage.sign() + ": "@ + which + " limit "@ + money_text(limit)
        + " is below the required "@ + money_text(required)
}

pub open spec fn endorsement_text(coverage: Coverage, e: Endorsement, number: Seq<char>) -> Seq<
    char,
> {
    "coverage "@ + coverage.sign() + ": required endorsement "@ + e.name()
        + " is missing from policy "@ + number
}

pub open spec fn rating_text(coverage: Coverage, p: LineView, cfg: RequirementsConfig) -> Seq<char> {
    "coverage "@ + coverage.sign() + ": carrier "@ + p.carrier_name + " rating "@
        + p.carrier_rating.sign() + " is below the required floor "@ + cfg.min_carrier_rating.sign()
}

pub open spec fn expiring_text(
    coverage: Coverage,
    p: LineView,
    cfg: RequirementsConfig,
    day: int,
) -> Seq<char> {
    "coverage "@ + coverage.sign() + ": policy "@ + p.policy_number + " expires "@
        + date::date_text(p.expiration_date) + ", within "@ + text::signed_decimal(
        cfg.expiry_warning_days as int,
    ) + " day(s) of "@ + date::date_text(day)
}

/// The finding on one limit of the selected policy.
pub open spec fn limit_findings(
    subject: Seq<char>,
    coverage: Coverage,
    which: Seq<char>,
    limit: int,
    required: int,
) -> Seq<FindingView> {
    if limit < required {
        seq![
            spine::breach_of(
                RULE_LIMIT_BELOW@,
                subject,
                limit_text(coverage, which, limit, required),
            ),
        ]
    } else {
        Seq::empty()
    }
}

/// The findings on the first `n` required endorsements.
pub open spec fn endorsement_findings(
    subject: Seq<char>,
    coverage: Coverage,
    needed: Seq<Endorsement>,
    p: LineView,
    n: int,
) -> Seq<FindingView>
    decreases n,
{
    if n <= 0 {
        Seq::empty()
    } else if p.endorsements.contains(needed[n - 1]) {
        endorsement_findings(subject, coverage, needed, p, n - 1)
    } else {
        endorsement_findings(subject, coverage, needed, p, n - 1).push(
            spine::breach_of(
                RULE_MISSING_ENDORSEMENT@,
                subject,
                endorsement_text(coverage, needed[n - 1], p.policy_number),
            ),
        )
    }
}

/// The finding on the carrier of the selected policy.
pub open spec fn rating_findings(
    subject: Seq<char>,
    coverage: Coverage,
    p: LineView,
    cfg: RequirementsConfig,
) -> Seq<FindingView> {
    if p.carrier_rating.rank() > cfg.min_carrier_rating.rank() {
        seq![spine::breach_of(RULE_RATING_BELOW_FLOOR@, subject, rating_text(coverage, p, cfg))]
    } else {
        Seq::empty()
    }
}

/// Whether a policy expires within a window of days that ends on the
/// calendar.
pub open spec fn expires_within(p: LineView, days: int, day: int) -> bool {
    date::MIN_DAY <= day + days <= date::MAX_DAY && p.expiration_date <= day + days
}

/// The finding on a policy that is about to expire.
pub open spec fn expiring_findings(
    subject: Seq<char>,
    coverage: Coverage,
    p: LineView,
    cfg: RequirementsConfig,
    day: int,
) -> Seq<FindingView> {
    if expires_within(p, cfg.expiry_warning_days as int, day) {
        seq![
            spine::note_of(
                RULE_EXPIRING_SOON@,
                Severity::Warn,
                subject,
                expiring_text(coverage, p, cfg, day),
            ),
        ]
    } else {
        Seq::empty()
    }
}

/// The findings on the policy that a coverage stands on: limits,
/// endorsements, carrier, expiry.
pub open spec fn line_findings(
    subject: Seq<char>,
    coverage: Coverage,
    needed: CoverageRequirement,
    p: LineView,
    cfg: RequirementsConfig,
    day: int,
) -> Seq<FindingView> {
    limit_findings(
        subject,
        coverage,
        "per-occurrence"@,
        p.per_occurrence_limit_cents,
        needed.per_occurrence_cents as int,
    ) + limit_findings(
        subject,
        coverage,
        "aggregate"@,
        p.aggregate_limit_cents,
        needed.aggregate_cents as int,
    ) + endorsement_findings(
        subject,
        coverage,
        needed.endorsements@,
        p,
        needed.endorsements.len() as int,
    ) + rating_findings(subject, coverage, p, cfg) + expiring_findings(
        subject,
        coverage,
        p,
        cfg,
        day,
    )
}

/// Whether a window of days can be counted.
pub open spec fn window_counts(days: int) -> bool {
    -MAX_WINDOW_DAYS <= days <= MAX_WINDOW_DAYS
}

/// The findings on one required coverage. None where a policy is to be held
/// against a window that cannot be counted.
pub open spec fn coverage_findings(
    subject: Seq<char>,
    coverage: Coverage,
    needed: CoverageRequirement,
    policies: Seq<LineView>,
    cfg: RequirementsConfig,
    day: int,
) -> Option<Seq<FindingView>> {
    let all = numbers(policies, coverage, policies.len() as int);
    if all.len() == 0 {
        Some(seq![spine::breach_of(RULE_MISSING_COVERAGE@, subject, missing_text(coverage))])
    } else {
        match selected(policies, coverage, day, policies.len() as int) {
            None => Some(
                seq![
                    spine::breach_of(
                        RULE_COVERAGE_EXPIRED@,
                        subject,
                        expired_text(coverage, day, all),
                    ),
                ],
            ),
            Some(i) => if window_counts(cfg.expiry_warning_days as int) {
                Some(line_findings(subject, coverage, needed, policies[i], cfg, day))
            } else {
                None
            },
        }
    }
}

fn add_limit(
    out: &mut Vec<Finding>,
    subject: &str,
    coverage: Coverage,
    which: &str,
    limit: i128,
    required: i128,
)
    ensures
        spine::findings_view(final(out)@) == spine::findings_view(old(out)@) + limit_findings(
            subject@,
            coverage,
            which@,
            limit as int,
            required as int,
        ),
{
    let ghost was = out@;
    if limit < required {
        let mut m = String::from_str("coverage ");
        m.append(coverage.as_label());
        m.append(": ");
        m.append(which);
        m.append(" limit ");
        m.append(format_cents(limit).as_str());
        m.append(" is below the required ");
        m.append(format_cents(required).as_str());
        out.push(Finding::breach(RULE_LIMIT_BELOW, subject, m));
    }
    assert(spine::findings_view(out@) =~= spine::findings_view(was) + limit_findings(
        subject@,
        coverage,
        which@,
        limit as int,
        required as int,
    ));
}

fn holds_endorsement(v: &Vec<Endorsement>, e: Endorsement) -> (r: bool)
    ensures
        r == v@.contains(e),
{
    let mut i: usize = 0;
    while i < v.len()
        invariant
            i <= v.len(),
            forall|k: int| 0 <= k < i ==> #[trigger] v@[k] != e,
        decreases v.len() - i,
    {
        if v[i] == e {
            assert(v@[i as int] == e);
            return true;
        }
        i = i + 1;
    }
    false
}

fn add_endorsements(
    out: &mut Vec<Finding>,
    subject: &str,
    coverage: Coverage,
    needed: &Vec<Endorsement>,
    p: &PolicyLine,
)
    ensures
        spine::findings_view(final(out)@) == spine::findings_view(old(out)@) + endorsement_findings(
            subject@,
            coverage,
            needed@,
            p@,
            needed.len() as int,
        ),
{
    let ghost before = spine::findings_view(out@);
    let mut i: usize = 0;
    assert(before =~= before + endorsement_findings(subject@, coverage, needed@, p@, 0));
    while i < needed.len()
        invariant
            i <= needed.len(),
            spine::findings_view(out@) == before + endorsement_findings(
                subject@,
                coverage,
                needed@,
                p@,
                i as int,
            ),
        decreases needed.len() - i,
    {
        let e = needed[i];
        let ghost was = out@;
        if !holds_endorsement(&p.endorsements, e) {
            let mut m = String::from_str("coverage ");
            m.append(coverage.as_label());
            m.append(": required endorsement ");
            m.append(e.as_str());
            m.append(" is missing from policy ");
            m.append(p.policy_number.as_str());
            let f = Finding::breach(RULE_MISSING_ENDORSEMENT, subject, m);
            out.push(f);
            assert(spine::findings_view(out@) =~= spine::findings_view(was).push(f@));
        }
        assert(spine::findings_view(out@) =~= before + endorsement_findings(
            subject@,
            coverage,
            needed@,
            p@,
            i + 1,
        ));
        i = i + 1;
    }
}

fn add_rating(
    out: &mut Vec<Finding>,
    subject: &str,
    coverage: Coverage,
    p: &PolicyLine,
    cfg: &RequirementsConfig,
)
    ensures
        spine::findings_view(final(out)@) == spine::findings_view(old(out)@) + rating_findings(
            subject@,
            coverage,
            p@,
            *cfg,
        ),
{
    let ghost was = out@;
    if p.carrier_rating.is_below(cfg.min_carrier_rating) {
        let mut m = String::from_str("coverage ");
        m.append(coverage.as_label());
        m.append(": carrier ");
        m.append(p.carrier_name.as_str());
        m.append(" rating ");
        m.append(p.carrier_rating.label());
        m.append(" is below the required floor ");
        m.append(cfg.min_carrier_rating.label());
        out.push(Finding::breach(RULE_RATING_BELOW_FLOOR, subject, m));
    }
    assert(spine::findings_view(out@) =~= spine::findings_view(was) + rating_findings(
        subject@,
        coverage,
        p@,
        *cfg,
    ));
}

fn add_expiring(
    out: &mut Vec<Finding>,
    subject: &str,
    coverage: Coverage,
    p: &PolicyLine,
    cfg: &RequirementsConfig,
    as_of: Date,
)
    requires
        window_counts(cfg.expiry_warning_days as int),
    ensures
        spine::findings_view(final(out)@) == spine::findings_view(old(out)@) + expiring_findings(
            subject@,
            coverage,
            p@,
            *cfg,
            as_of.day(),
        ),
{
    let ghost was = out@;
    let today: i64 = as_of.day_number() as i64;
    let cutoff: i64 = today + cfg.expiry_warning_days;
    match Date::from_day_number(cutoff) {
        Some(d) => {
            if p.expiration_date.day_number() <= d.day_number() {
                let mut m = String::from_str("coverage ");
                m.append(coverage.as_label());
                m.append(": policy ");
                m.append(p.policy_number.as_str());
                m.append(" expires ");
                m.append(p.expiration_date.text().as_str());
                m.append(", within ");
                m.append(text::signed_text(cfg.expiry_warning_days as i128).as_str());
                m.append(" day(s) of ");
                m.append(as_of.text().as_str());
                out.push(Finding::note(RULE_EXPIRING_SOON, Severity::Warn, subject, m));
            }
        },
        None => {},
    }
    assert(spine::findings_view(out@) =~= spine::findings_view(was) + expiring_findings(
        subject@,
        coverage,
        p@,
        *cfg,
        as_of.day(),
    ));
}

/// The findings on one required coverage.
fn evaluate_coverage(
    subject: &str,
    coverage: Coverage,
    needed: &CoverageRequirement,
    policies: &Vec<PolicyLine>,
    cfg: &RequirementsConfig,
    as_of: Date,
) -> (r: Option<Vec<Finding>>)
    ensures
        ({
            let found = coverage_findings(
                subject@,
                coverage,
                *needed,
                cert::lines_view(policies@),
                *cfg,
                as_of.day(),
            );
            match r {
                Some(v) => found == Some(spine::findings_view(v@)),
                None => found is None,
            }
        }),
{
    let mut out: Vec<Finding> = Vec::new();
    let ghost all = cert::lines_view(policies@);
    let lines = numbers_of(policies, coverage);
    assert(text::texts(lines@).len() == lines.len());
    if lines.len() == 0 {
        let mut m = String::from_str("required coverage ");
        m.append(coverage.as_label());
        m.append(" is absent from the certificate: no policy line of this type was presented");
        out.push(Finding::breach(RULE_MISSING_COVERAGE, subject, m));
        assert(spine::findings_view(out@) =~= seq![
            spine::breach_of(RULE_MISSING_COVERAGE@, subject@, missing_text(coverage)),
        ]);
        return Some(out);
    }
    let at: usize = match select_line(policies, coverage, as_of) {
        Some(i) => i,
        None => {
            let expired = text::sorted_unique(lines);
            let mut m = String::from_str("required coverage ");
            m.append(coverage.as_label());
            m.append(" has no policy valid as of ");
            m.append(as_of.text().as_str());
            m.append(": every line is expired (");
            m.append(text::join(&expired, ", ").as_str());
            m.append(")");
            out.push(Finding::breach(RULE_COVERAGE_EXPIRED, subject, m));
            assert(spine::findings_view(out@) =~= seq![
                spine::breach_of(
                    RULE_COVERAGE_EXPIRED@,
                    subject@,
                    expired_text(
                        coverage,
                        as_of.day(),
                        numbers(all, coverage, policies.len() as int),
                    ),
                ),
            ]);
            return Some(out);
        },
    };
    if cfg.expiry_warning_days < -MAX_WINDOW_DAYS || cfg.expiry_warning_days > MAX_WINDOW_DAYS {
        return None;
    }
    let p = &policies[at];
    assert(all[at as int] == p@);
    add_limit(
        &mut out,
        subject,
        coverage,
        "per-occurrence",
        p.per_occurrence_limit_cents,
        needed.per_occurrence_cents,
    );
    add_limit(
        &mut out,
        subject,
        coverage,
        "aggregate",
        p.aggregate_limit_cents,
        needed.aggregate_cents,
    );
    add_endorsements(&mut out, subject, coverage, &needed.endorsements, p);
    add_rating(&mut out, subject, coverage, p, cfg);
    add_expiring(&mut out, subject, coverage, p, cfg, as_of);
    assert(spine::findings_view(out@) =~= line_findings(
        subject@,
        coverage,
        *needed,
        p@,
        *cfg,
        as_of.day(),
    ));
    Some(out)
}

// ---- findings on a certificate ----

pub open spec fn unknown_text(category: Seq<char>) -> Seq<char> {
    "vendor category '"@ + category
        + "' is not in the requirements matrix; required coverages cannot be determined — fail-closed"@
}

pub open spec fn lockout_text() -> Seq<char> {
    "critical vendor category carries breach-severity coverage gaps: a hold on new purchase orders is recommended — advisory only, a human executes any hold outside this engine"@
}

/// The findings so far and those on one more coverage, where it is required.
pub open spec fn with_coverage(
    before: Option<Seq<FindingView>>,
    c: CertificateView,
    coverage: Coverage,
    q: CategoryRequirement,
    cfg: RequirementsConfig,
    day: int,
) -> Option<Seq<FindingView>> {
    match before {
        None => None,
        Some(s) => match q.coverages.at(coverage) {
            None => Some(s),
            Some(needed) => match coverage_findings(
                c.vendor_id,
                coverage,
                needed,
                c.policies,
                cfg,
                day,
            ) {
                None => None,
                Some(more) => Some(s + more),
            },
        },
    }
}

/// The gaps of a certificate, coverage by coverage.
pub open spec fn gaps(
    c: CertificateView,
    q: CategoryRequirement,
    cfg: RequirementsConfig,
    day: int,
) -> Option<Seq<FindingView>> {
    let first = with_coverage(
        Some(Seq::empty()),
        c,
        Coverage::GeneralLiability,
        q,
        cfg,
        day,
    );
    let second = with_coverage(first, c, Coverage::Auto, q, cfg, day);
    let third = with_coverage(second, c, Coverage::WorkersComp, q, cfg, day);
    with_coverage(third, c, Coverage::Umbrella, q, cfg, day)
}

/// Whether some finding is a breach.
pub open spec fn any_breach(s: Seq<FindingView>) -> bool {
    exists|i: int| 0 <= i < s.len() && (#[trigger] s[i]).severity == Severity::Breach
}

/// What an evaluation finds. None where a policy is to be held against a
/// window that cannot be counted.
pub open spec fn evaluation_of(c: CertificateView, cfg: RequirementsConfig, day: int) -> Option<
    EvaluationView,
> {
    match cfg.categories.lookup(c.vendor_category) {
        None => Some(
            EvaluationView {
                findings: seq![
                    spine::breach_of(
                        RULE_UNKNOWN_CATEGORY@,
                        c.vendor_id,
                        unknown_text(c.vendor_category),
                    ),
                ],
                lockout_recommended: false,
            },
        ),
        Some(q) => match gaps(c, q, cfg, day) {
            None => None,
            Some(s) => if q.critical && any_breach(s) {
                Some(
                    EvaluationView {
                        findings: s.push(
                            spine::note_of(
                                RULE_LOCKOUT@,
                                Severity::Warn,
                                c.vendor_id,
                                lockout_text(),
                            ),
                        ),
                        lockout_recommended: true,
                    },
                )
            } else {
                Some(EvaluationView { findings: s, lockout_recommended: false })
            },
        },
    }
}

fn add_coverage(
    before: Option<Vec<Finding>>,
    certificate: &Certificate,
    coverage: Coverage,
    q: &CategoryRequirement,
    cfg: &RequirementsConfig,
    as_of: Date,
) -> (r: Option<Vec<Finding>>)
    ensures
        ({
            let now = with_coverage(
                match before {
                    Some(v) => Some(spine::findings_view(v@)),
                    None => None,
                },
                certificate@,
                coverage,
                *q,
                *cfg,
                as_of.day(),
            );
            match r {
                Some(v) => now == Some(spine::findings_view(v@)),
                None => now is None,
            }
        }),
{
    let mut out = match before {
        Some(v) => v,
        None => return None,
    };
    match q.coverages.get(coverage) {
        None => Some(out),
        Some(needed) => {
            match evaluate_coverage(
                certificate.vendor_id.as_str(),
                coverage,
                needed,
                &certificate.policies,
                cfg,
                as_of,
            ) {
                None => None,
                Some(more) => {
                    spine::extend_findings(&mut out, more);
                    Some(out)
                },
            }
        },
    }
}

fn has_breach(findings: &Vec<Finding>) -> (r: bool)
    ensures
        r == any_breach(spine::findings_view(findings@)),
{
    let ghost all = spine::findings_view(findings@);
    let mut i: usize = 0;
    while i < findings.len()
        invariant
            i <= findings.len(),
            all == spine::findings_view(findings@),
            forall|k: int| 0 <= k < i ==> (#[trigger] all[k]).severity != Severity::Breach,
        decreases findings.len() - i,
    {
        assert(all[i as int] == findings@[i as int]@);
        if findings[i].severity == Severity::Breach {
            return true;
        }
        i = i + 1;
    }
    false
}

/// Evaluate a certificate against the matrix as of a date. None where a
/// policy is to be held against a window that cannot be counted.
pub fn try_evaluate(certificate: &Certificate, cfg: &RequirementsConfig, as_of: Date) -> (r: Option<
    Evaluation,
>)
    ensures
        (match r {
            Some(e) => evaluation_of(certificate@, *cfg, as_of.day()) == Some(e@),
            None => evaluation_of(certificate@, *cfg, as_of.day()) is None,
        }),
{
    let q = match cfg.categories.get(certificate.vendor_category.as_str()) {
        Some(q) => q,
        None => {
            let mut m = String::from_str("vendor category '");
            m.append(certificate.vendor_category.as_str());
            m.append(
                "' is not in the requirements matrix; required coverages cannot be determined — fail-closed",
            );
            let mut findings: Vec<Finding> = Vec::new();
            findings.push(
                Finding::breach(RULE_UNKNOWN_CATEGORY, certificate.vendor_id.as_str(), m),
            );
            assert(spine::findings_view(findings@) =~= seq![
                spine::breach_of(
                    RULE_UNKNOWN_CATEGORY@,
                    certificate@.vendor_id,
                    unknown_text(certificate@.vendor_category),
                ),
            ]);
            return Some(Evaluation { findings, lockout_recommended: false });
        },
    };
    let none: Vec<Finding> = Vec::new();
    assert(spine::findings_view(none@) =~= Seq::<FindingView>::empty());
    let first = add_coverage(Some(none), certificate, Coverage::GeneralLiability, q, cfg, as_of);
    let second = add_coverage(first, certificate, Coverage::Auto, q, cfg, as_of);
    let third = add_coverage(second, certificate, Coverage::WorkersComp, q, cfg, as_of);
    let mut findings = match add_coverage(third, certificate, Coverage::Umbrella, q, cfg, as_of) {
        Some(v) => v,
        None => return None,
    };
    let lockout_recommended = q.critical && has_breach(&findings);
    if lockout_recommended {
        let ghost was = findings@;
        let f = Finding::note(
            RULE_LOCKOUT,
            Severity::Warn,
            certificate.vendor_id.as_str(),
            String::from_str(
                "critical vendor category carries breach-severity coverage gaps: a hold on new purchase orders is recommended — advisory only, a human executes any hold outside this engine",
            ),
        );
        findings.push(f);
        assert(spine::findings_view(findings@) =~= spine::findings_view(was).push(f@));
    }
    Some(Evaluation { findings, lockout_recommended })
}

/// Evaluate a certificate against the matrix as of a date.
pub fn evaluate(certificate: &Certificate, cfg: &RequirementsConfig, as_of: Date) -> (r: Evaluation)
    requires
        evaluation_of(certificate@, *cfg, as_of.day()) is Some,
    ensures
        evaluation_of(certificate@, *cfg, as_of.day()) == Some(r@),
{
    try_evaluate(certificate, cfg, as_of).unwrap()
}

} // verus!
