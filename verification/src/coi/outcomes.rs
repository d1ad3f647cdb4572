//! What the outcome of an evaluation means for a certificate.

use vstd::prelude::*;

use crate::coi::cert;
use crate::coi::cert::{CertificateView, LineView};
use crate::coi::config;
use crate::coi::config::{
    CarrierRating, CategoryRequirement, Coverage, CoverageRequirement, Endorsement,
    RequirementsConfig,
};
use crate::coi::engine;
use crate::date;
use crate::spine::{FindingView, Severity};
use crate::text;

verus! {

// ---- carrier ratings ----

/// Carrier ratings from the best to the worst.
pub open spec fn ratings() -> Seq<CarrierRating> {
    seq![
        CarrierRating::APlusPlus,
        CarrierRating::APlus,
        CarrierRating::A,
        CarrierRating::AMinus,
        CarrierRating::BPlus,
        CarrierRating::B,
        CarrierRating::BMinus,
        CarrierRating::CPlus,
        CarrierRating::C,
        CarrierRating::CMinus,
        CarrierRating::D,
        CarrierRating::E,
        CarrierRating::F,
    ]
}

/// Whether a rating stands later on the list than another.
pub open spec fn is_worse(a: CarrierRating, b: CarrierRating) -> bool {
    exists|i: int, j: int|
        0 <= j < i < ratings().len() && #[trigger] ratings()[i] == a && #[trigger] ratings()[j]
            == b
}

proof fn rank_is_place(r: CarrierRating)
    ensures
        0 <= r.rank() < ratings().len(),
        ratings()[r.rank()] == r,
        forall|i: int| 0 <= i < ratings().len() && #[trigger] ratings()[i] == r ==> i == r.rank(),
{
}

/// Every rating stands on the list once, and ranks by its place.
pub proof fn ratings_rank_by_the_list(a: CarrierRating, b: CarrierRating)
    ensures
        a.rank() > b.rank() <==> is_worse(a, b),
{
    rank_is_place(a);
    rank_is_place(b);
    if a.rank() > b.rank() {
        assert(ratings()[a.rank()] == a && ratings()[b.rank()] == b);
    }
}

// ---- one coverage ----

/// What a category requires of a coverage.
pub open spec fn required_of(q: CategoryRequirement, coverage: Coverage) -> Option<
    CoverageRequirement,
> {
    match coverage {
        Coverage::GeneralLiability => q.coverages.general_liability,
        Coverage::Auto => q.coverages.auto,
        Coverage::WorkersComp => q.coverages.workers_comp,
        Coverage::Umbrella => q.coverages.umbrella,
    }
}

/// Whether policy `i` is of a coverage and runs on a day or beyond it.
pub open spec fn runs(s: Seq<LineView>, coverage: Coverage, day: int, i: int) -> bool {
    &&& 0 <= i < s.len()
    &&& s[i].coverage == coverage
    &&& day <= s[i].expiration_date
}

/// Whether a coverage is judged by policy `i`: it runs; none that runs
/// expires later; of those that expire with it none has a higher limit per
/// occurrence; of those with the same limit none has a lower number; and of
/// those with the same number it is the first.
pub open spec fn is_judged_by(s: Seq<LineView>, coverage: Coverage, day: int, i: int) -> bool {
    &&& runs(s, coverage, day, i)
    &&& forall|j: int| #[trigger]
        runs(s, coverage, day, j) && j != i ==> {
            ||| s[j].expiration_date < s[i].expiration_date
            ||| s[j].expiration_date == s[i].expiration_date && s[j].per_occurrence_limit_cents
                < s[i].per_occurrence_limit_cents
            ||| s[j].expiration_date == s[i].expiration_date && s[j].per_occurrence_limit_cents
                == s[i].per_occurrence_limit_cents && text::text_lt(
                s[i].policy_number,
                s[j].policy_number,
            )
            ||| s[j].expiration_date == s[i].expiration_date && s[j].per_occurrence_limit_cents
                == s[i].per_occurrence_limit_cents && s[j].policy_number == s[i].policy_number && i
                < j
        }
}

/// Whether one policy is judged by before another, in the order of
/// [`is_judged_by`].
spec fn goes_before(s: Seq<LineView>, i: int, j: int) -> bool {
    ||| s[j].expiration_date < s[i].expiration_date
    ||| s[j].expiration_date == s[i].expiration_date && s[j].per_occurrence_limit_cents
        < s[i].per_occurrence_limit_cents
    ||| s[j].expiration_date == s[i].expiration_date && s[j].per_occurrence_limit_cents
        == s[i].per_occurrence_limit_cents && text::text_lt(s[i].policy_number, s[j].policy_number)
    ||| s[j].expiration_date == s[i].expiration_date && s[j].per_occurrence_limit_cents
        == s[i].per_occurrence_limit_cents && s[j].policy_number == s[i].policy_number && i < j
}

proof fn goes_before_twice(s: Seq<LineView>, i: int, j: int, k: int)
    requires
        goes_before(s, i, j),
        goes_before(s, j, k),
    ensures
        goes_before(s, i, k),
{
    let (a, b, c) = (s[i].policy_number, s[j].policy_number, s[k].policy_number);
    if text::text_lt(a, b) && text::text_lt(b, c) {
        text::text_lt_transitive(a, b, c);
    }
}

proof fn selected_goes_first(s: Seq<LineView>, coverage: Coverage, day: int, n: int)
    requires
        0 <= n <= s.len(),
    ensures
        (match engine::selected(s, coverage, day, n) {
            Some(i) => {
                &&& i < n
                &&& runs(s, coverage, day, i)
                &&& forall|j: int| #[trigger]
                    runs(s, coverage, day, j) && j < n && j != i ==> goes_before(s, i, j)
            },
            None => forall|j: int| #[trigger] runs(s, coverage, day, j) ==> n <= j,
        }),
    decreases n,
{
    if n > 0 {
        selected_goes_first(s, coverage, day, n - 1);
        let before = engine::selected(s, coverage, day, n - 1);
        if engine::is_current(s[n - 1], coverage, day) {
            assert(runs(s, coverage, day, n - 1));
            if before is Some {
                let i = before->0;
                text::text_lt_total(s[i].policy_number, s[n - 1].policy_number);
                if engine::preferred(s[n - 1], s[i]) {
                    assert(goes_before(s, n - 1, i));
                    assert forall|j: int| #[trigger]
                        runs(s, coverage, day, j) && j < n && j != n - 1 implies goes_before(
                        s,
                        n - 1,
                        j,
                    ) by {
                        if j != i {
                            goes_before_twice(s, n - 1, i, j);
                        }
                    }
                } else {
                    assert(goes_before(s, i, n - 1));
                }
            }
        } else {
            assert(!runs(s, coverage, day, n - 1));
        }
    }
}

/// A coverage is judged by the policy that [`is_judged_by`] tells, and by
/// none exactly where none of its policies runs.
pub proof fn coverages_are_judged_by_one_policy(
    s: Seq<LineView>,
    coverage: Coverage,
    day: int,
    i: int,
)
    ensures
        engine::selected(s, coverage, day, s.len() as int) == Some(i) <==> is_judged_by(
            s,
            coverage,
            day,
            i,
        ),
        engine::selected(s, coverage, day, s.len() as int) is None <==> forall|j: int|
            !#[trigger] runs(s, coverage, day, j),
{
    selected_goes_first(s, coverage, day, s.len() as int);
    match engine::selected(s, coverage, day, s.len() as int) {
        Some(k) => {
            assert(runs(s, coverage, day, k));
            assert(is_judged_by(s, coverage, day, k));
            if is_judged_by(s, coverage, day, i) && i != k {
                assert(goes_before(s, i, k) && goes_before(s, k, i));
                goes_before_twice(s, i, k, i);
                text::text_lt_irreflexive(s[i].policy_number);
            }
        },
        None => {},
    }
}

/// Whether a rule finds something.
pub open spec fn is_found(s: Seq<FindingView>, rule: Seq<char>) -> bool {
    exists|k: int| 0 <= k < s.len() && (#[trigger] s[k]).rule_id == rule
}

proof fn found_joins(a: Seq<FindingView>, b: Seq<FindingView>, rule: Seq<char>)
    ensures
        is_found(a + b, rule) == (is_found(a, rule) || is_found(b, rule)),
{
    let c = a + b;
    if is_found(a, rule) {
        let k = choose|k: int| 0 <= k < a.len() && (#[trigger] a[k]).rule_id == rule;
        assert(c[k].rule_id == rule);
    }
    if is_found(b, rule) {
        let k = choose|k: int| 0 <= k < b.len() && (#[trigger] b[k]).rule_id == rule;
        assert(c[a.len() + k].rule_id == rule);
    }
    if is_found(c, rule) {
        let k = choose|k: int| 0 <= k < c.len() && (#[trigger] c[k]).rule_id == rule;
        if k < a.len() {
            assert(a[k].rule_id == rule);
        } else {
            assert(b[k - a.len()].rule_id == rule);
        }
    }
}

proof fn names_differ()
    ensures
        "missing_coverage"@.len() == 16,
        "coverage_expired"@.len() == 16,
        "coverage_expiring_soon"@.len() == 22,
        "limit_below_requirement"@.len() == 23,
        "missing_endorsement"@.len() == 19,
        "carrier_rating_below_floor"@.len() == 26,
        "unknown_category"@.len() == 16,
        "lockout_recommendation"@.len() == 22,
        "missing_coverage"@[0] == 'm',
        "coverage_expired"@[0] == 'c',
        "unknown_category"@[0] == 'u',
        "coverage_expiring_soon"@[0] == 'c',
        "lockout_recommendation"@[0] == 'l',
{
    reveal_strlit("missing_coverage");
    reveal_strlit("coverage_expired");
    reveal_strlit("coverage_expiring_soon");
    reveal_strlit("limit_below_requirement");
    reveal_strlit("missing_endorsement");
    reveal_strlit("carrier_rating_below_floor");
    reveal_strlit("unknown_category");
    reveal_strlit("lockout_recommendation");
}

/// Whether a required endorsement is not on a policy.
pub open spec fn lacks_endorsement(needed: CoverageRequirement, p: LineView) -> bool {
    exists|k: int|
        0 <= k < needed.endorsements.len() && !p.endorsements.contains(
            #[trigger] needed.endorsements@[k],
        )
}

/// Whether a policy expires within the window of warning.
pub open spec fn is_expiring(cfg: RequirementsConfig, p: LineView, day: int) -> bool {
    p.expiration_date - day <= cfg.expiry_warning_days && day + cfg.expiry_warning_days
        <= date::MAX_DAY
}

proof fn endorsements_found(
    subject: Seq<char>,
    coverage: Coverage,
    needed: Seq<Endorsement>,
    p: LineView,
    n: int,
)
    requires
        0 <= n <= needed.len(),
    ensures
        ({
            let s = engine::endorsement_findings(subject, coverage, needed, p, n);
            &&& s.len() > 0 <==> exists|k: int|
                0 <= k < n && !p.endorsements.contains(#[trigger] needed[k])
            &&& forall|k: int|
                0 <= k < s.len() ==> (#[trigger] s[k]).rule_id == "missing_endorsement"@
                    && s[k].severity == Severity::Breach && s[k].requires_signoff
        }),
    decreases n,
{
    if n > 0 {
        endorsements_found(subject, coverage, needed, p, n - 1);
        let before = engine::endorsement_findings(subject, coverage, needed, p, n - 1);
        if before.len() > 0 {
            let k = choose|k: int| 0 <= k < n - 1 && !p.endorsements.contains(#[trigger] needed[k]);
            assert(!p.endorsements.contains(needed[k]));
        }
    }
}

/// Whether a finding has the severity of its rule: an expiry that comes and a
/// recommended lockout are warnings without a gate, all else is a breach that
/// needs an approval.
pub open spec fn is_graded(f: FindingView) -> bool {
    if f.rule_id == "coverage_expiring_soon"@ || f.rule_id == "lockout_recommendation"@ {
        f.severity == Severity::Warn && !f.requires_signoff
    } else {
        f.severity == Severity::Breach && f.requires_signoff
    }
}

pub open spec fn all_graded(s: Seq<FindingView>) -> bool {
    forall|k: int| 0 <= k < s.len() ==> is_graded(#[trigger] s[k])
}

/// What is found on the policy that a coverage is judged by.
proof fn line_found(
    subject: Seq<char>,
    coverage: Coverage,
    needed: CoverageRequirement,
    p: LineView,
    cfg: RequirementsConfig,
    day: int,
)
    requires
        date::MIN_DAY <= day + cfg.expiry_warning_days,
    ensures
        ({
            let s = engine::line_findings(subject, coverage, needed, p, cfg, day);
            &&& all_graded(s)
            &&& !is_found(s, "missing_coverage"@)
            &&& !is_found(s, "coverage_expired"@)
            &&& !is_found(s, "unknown_category"@)
            &&& !is_found(s, "lockout_recommendation"@)
            &&& is_found(s, "limit_below_requirement"@) <==> p.per_occurrence_limit_cents
                < needed.per_occurrence_cents || p.aggregate_limit_cents < needed.aggregate_cents
            &&& is_found(s, "missing_endorsement"@) <==> lacks_endorsement(needed, p)
            &&& is_found(s, "carrier_rating_below_floor"@) <==> is_worse(
                p.carrier_rating,
                cfg.min_carrier_rating,
            )
            &&& is_found(s, "coverage_expiring_soon"@) <==> is_expiring(cfg, p, day)
        }),
{
    names_differ();
    ratings_rank_by_the_list(p.carrier_rating, cfg.min_carrier_rating);
    let a = engine::limit_findings(
        subject,
        coverage,
        "per-occurrence"@,
        p.per_occurrence_limit_cents,
        needed.per_occurrence_cents as int,
    );
    let b = engine::limit_findings(
        subject,
        coverage,
        "aggregate"@,
        p.aggregate_limit_cents,
        needed.aggregate_cents as int,
    );
    let n = needed.endorsements.len() as int;
    let c = engine::endorsement_findings(subject, coverage, needed.endorsements@, p, n);
    let d = engine::rating_findings(subject, coverage, p, cfg);
    let e = engine::expiring_findings(subject, coverage, p, cfg, day);
    endorsements_found(subject, coverage, needed.endorsements@, p, n);
    let s = engine::line_findings(subject, coverage, needed, p, cfg, day);
    assert(s == a + b + c + d + e);
    assert forall|rule: Seq<char>| #[trigger] is_found(s, rule) == (is_found(a, rule) || is_found(
        b,
        rule,
    ) || is_found(c, rule) || is_found(d, rule) || is_found(e, rule)) by {
        found_joins(a, b, rule);
        found_joins(a + b, c, rule);
        found_joins(a + b + c, d, rule);
        found_joins(a + b + c + d, e, rule);
    }
    if a.len() > 0 {
        assert(a[0].rule_id == "limit_below_requirement"@);
    }
    if b.len() > 0 {
        assert(b[0].rule_id == "limit_below_requirement"@);
    }
    if c.len() > 0 {
        assert(c[0].rule_id == "missing_endorsement"@);
    }
    if d.len() > 0 {
        assert(d[0].rule_id == "carrier_rating_below_floor"@);
    }
    if e.len() > 0 {
        assert(e[0].rule_id == "coverage_expiring_soon"@);
    }
}

/// Whether a coverage has a policy at all.
pub open spec fn is_presented(s: Seq<LineView>, coverage: Coverage) -> bool {
    exists|j: int| 0 <= j < s.len() && (#[trigger] s[j]).coverage == coverage
}

proof fn numbers_presented(s: Seq<LineView>, coverage: Coverage, n: int)
    requires
        0 <= n <= s.len(),
    ensures
        engine::numbers(s, coverage, n).len() > 0 <==> exists|j: int|
            0 <= j < n && (#[trigger] s[j]).coverage == coverage,
    decreases n,
{
    if n > 0 {
        numbers_presented(s, coverage, n - 1);
        if engine::numbers(s, coverage, n - 1).len() > 0 {
            let j = choose|j: int| 0 <= j < n - 1 && (#[trigger] s[j]).coverage == coverage;
            assert(s[j].coverage == coverage);
        }
        if s[n - 1].coverage == coverage {
            assert(s[n - 1].coverage == coverage);
        }
    }
}

/// Whether the policy that a coverage is judged by has a property.
pub open spec fn judged(
    s: Seq<LineView>,
    coverage: Coverage,
    day: int,
    property: spec_fn(LineView) -> bool,
) -> bool {
    exists|i: int| #[trigger] is_judged_by(s, coverage, day, i) && property(s[i])
}

/// What is found on one required coverage: that it is missing exactly where
/// no policy is of it, that it is expired exactly where there are policies
/// and none runs; and on the policy that it is judged by, limits below the
/// required ones, missing endorsements, a carrier rated worse than the floor,
/// and an expiry within the window, each exactly where it is so.
pub proof fn coverages_are_found_by_their_policies(
    subject: Seq<char>,
    coverage: Coverage,
    needed: CoverageRequirement,
    policies: Seq<LineView>,
    cfg: RequirementsConfig,
    day: int,
)
    requires
        date::MIN_DAY <= day,
        cfg.expiry_warning_days >= 0,
        engine::coverage_findings(subject, coverage, needed, policies, cfg, day) is Some,
    ensures
        ({
            let s = engine::coverage_findings(
                subject,
                coverage,
                needed,
                policies,
                cfg,
                day,
            )->0;
            &&& all_graded(s)
            &&& !is_found(s, "unknown_category"@)
            &&& !is_found(s, "lockout_recommendation"@)
            &&& is_found(s, "missing_coverage"@) <==> !is_presented(policies, coverage)
            &&& is_found(s, "coverage_expired"@) <==> is_presented(policies, coverage) && forall|
                j: int,
            |
                !#[trigger] runs(policies, coverage, day, j)
            &&& is_found(s, "limit_below_requirement"@) <==> judged(
                policies,
                coverage,
                day,
                |p: LineView|
                    p.per_occurrence_limit_cents < needed.per_occurrence_cents
                        || p.aggregate_limit_cents < needed.aggregate_cents,
            )
            &&& is_found(s, "missing_endorsement"@) <==> judged(
                policies,
                coverage,
                day,
                |p: LineView| lacks_endorsement(needed, p),
            )
            &&& is_found(s, "carrier_rating_below_floor"@) <==> judged(
                policies,
                coverage,
                day,
                |p: LineView| is_worse(p.carrier_rating, cfg.min_carrier_rating),
            )
            &&& is_found(s, "coverage_expiring_soon"@) <==> judged(
                policies,
                coverage,
                day,
                |p: LineView| is_expiring(cfg, p, day),
            )
        }),
{
    names_differ();
    let n = policies.len() as int;
    let s = engine::coverage_findings(subject, coverage, needed, policies, cfg, day)->0;
    numbers_presented(policies, coverage, n);
    assert forall|i: int| #[trigger]
        is_judged_by(policies, coverage, day, i) <==> engine::selected(policies, coverage, day, n)
        == Some(i) by {
        coverages_are_judged_by_one_policy(policies, coverage, day, i);
    }
    coverages_are_judged_by_one_policy(policies, coverage, day, 0);
    if engine::numbers(policies, coverage, n).len() == 0 {
        assert(s[0].rule_id == "missing_coverage"@);
        assert forall|j: int| !#[trigger] runs(policies, coverage, day, j) by {
            if runs(policies, coverage, day, j) {
                assert(policies[j].coverage == coverage);
            }
        }
    } else {
        match engine::selected(policies, coverage, day, n) {
            None => {
                assert(s[0].rule_id == "coverage_expired"@);
            },
            Some(i) => {
                assert(is_judged_by(policies, coverage, day, i));
                assert(runs(policies, coverage, day, i));
                line_found(subject, coverage, needed, policies[i], cfg, day);
            },
        }
    }
}

// ---- a certificate ----

/// What is found on one coverage, where it is required.
spec fn own_findings(
    c: CertificateView,
    q: CategoryRequirement,
    cfg: RequirementsConfig,
    day: int,
    coverage: Coverage,
) -> Seq<FindingView> {
    match required_of(q, coverage) {
        Some(needed) => engine::coverage_findings(
            c.vendor_id,
            coverage,
            needed,
            c.policies,
            cfg,
            day,
        )->0,
        None => Seq::empty(),
    }
}

proof fn gaps_are_joined(
    c: CertificateView,
    q: CategoryRequirement,
    cfg: RequirementsConfig,
    day: int,
    rule: Seq<char>,
)
    requires
        engine::gaps(c, q, cfg, day) is Some,
    ensures
        forall|coverage: Coverage| #[trigger]
            required_of(q, coverage) is Some ==> engine::coverage_findings(
                c.vendor_id,
                coverage,
                required_of(q, coverage)->0,
                c.policies,
                cfg,
                day,
            ) is Some,
        is_found(engine::gaps(c, q, cfg, day)->0, rule) <==> exists|coverage: Coverage|
            #[trigger] required_of(q, coverage) is Some && is_found(
                own_findings(c, q, cfg, day, coverage),
                rule,
            ),
        engine::gaps(c, q, cfg, day)->0 == own_findings(
            c,
            q,
            cfg,
            day,
            Coverage::GeneralLiability,
        ) + own_findings(c, q, cfg, day, Coverage::Auto) + own_findings(
            c,
            q,
            cfg,
            day,
            Coverage::WorkersComp,
        ) + own_findings(c, q, cfg, day, Coverage::Umbrella),
{
    let a = own_findings(c, q, cfg, day, Coverage::GeneralLiability);
    let b = own_findings(c, q, cfg, day, Coverage::Auto);
    let d = own_findings(c, q, cfg, day, Coverage::WorkersComp);
    let e = own_findings(c, q, cfg, day, Coverage::Umbrella);
    let s = engine::gaps(c, q, cfg, day)->0;
    assert(required_of(q, Coverage::GeneralLiability) == q.coverages.at(
        Coverage::GeneralLiability,
    ));
    assert(required_of(q, Coverage::Auto) == q.coverages.at(Coverage::Auto));
    assert(required_of(q, Coverage::WorkersComp) == q.coverages.at(Coverage::WorkersComp));
    assert(required_of(q, Coverage::Umbrella) == q.coverages.at(Coverage::Umbrella));
    assert(s =~= a + b + d + e);
    found_joins(a, b, rule);
    found_joins(a + b, d, rule);
    found_joins(a + b + d, e, rule);
    if is_found(s, rule) {
        if is_found(a, rule) {
            assert(required_of(q, Coverage::GeneralLiability) is Some);
        } else if is_found(b, rule) {
            assert(required_of(q, Coverage::Auto) is Some);
        } else if is_found(d, rule) {
            assert(required_of(q, Coverage::WorkersComp) is Some);
        } else {
            assert(required_of(q, Coverage::Umbrella) is Some);
        }
    }
}

/// Whether some required coverage has a gap of a kind.
pub open spec fn some_coverage(
    q: CategoryRequirement,
    gap: spec_fn(Coverage, CoverageRequirement) -> bool,
) -> bool {
    exists|coverage: Coverage| #[trigger]
        required_of(q, coverage) is Some && gap(coverage, required_of(q, coverage)->0)
}

/// What is found on a certificate of a known category: each gap exactly where
/// some coverage that the category requires has it; and a lockout is
/// recommended exactly where the category is critical and a breach is found.
#[verifier::rlimit(40)]
pub proof fn certificates_are_found_by_their_gaps(
    c: CertificateView,
    q: CategoryRequirement,
    cfg: RequirementsConfig,
    day: int,
)
    requires
        date::MIN_DAY <= day,
        cfg.expiry_warning_days >= 0,
        cfg.categories.lookup(c.vendor_category) == Some(q),
        engine::evaluation_of(c, cfg, day) is Some,
    ensures
        ({
            let e = engine::evaluation_of(c, cfg, day)->0;
            let s = e.findings;
            let all = c.policies;
            &&& all_graded(s)
            &&& !is_found(s, "unknown_category"@)
            &&& is_found(s, "missing_coverage"@) <==> some_coverage(
                q,
                |k: Coverage, needed: CoverageRequirement| !is_presented(all, k),
            )
            &&& is_found(s, "coverage_expired"@) <==> some_coverage(
                q,
                |k: Coverage, needed: CoverageRequirement|
                    is_presented(all, k) && forall|j: int| !#[trigger] runs(all, k, day, j),
            )
            &&& is_found(s, "limit_below_requirement"@) <==> some_coverage(
                q,
                |k: Coverage, needed: CoverageRequirement|
                    judged(
                        all,
                        k,
                        day,
                        |p: LineView|
                            p.per_occurrence_limit_cents < needed.per_occurrence_cents
                                || p.aggregate_limit_cents < needed.aggregate_cents,
                    ),
            )
            &&& is_found(s, "missing_endorsement"@) <==> some_coverage(
                q,
                |k: Coverage, needed: CoverageRequirement|
                    judged(all, k, day, |p: LineView| lacks_endorsement(needed, p)),
            )
            &&& is_found(s, "carrier_rating_below_floor"@) <==> some_coverage(
                q,
                |k: Coverage, needed: CoverageRequirement|
                    judged(
                        all,
                        k,
                        day,
                        |p: LineView| is_worse(p.carrier_rating, cfg.min_carrier_rating),
                    ),
            )
            &&& is_found(s, "coverage_expiring_soon"@) <==> some_coverage(
                q,
                |k: Coverage, needed: CoverageRequirement|
                    judged(all, k, day, |p: LineView| is_expiring(cfg, p, day)),
            )
            &&& e.lockout_recommended <==> q.critical && exists|k: int|
                0 <= k < s.len() && (#[trigger] s[k]).severity == Severity::Breach
            &&& e.lockout_recommended <==> is_found(s, "lockout_recommendation"@)
        }),
{
    names_differ();
    let gaps = engine::gaps(c, q, cfg, day)->0;
    let e = engine::evaluation_of(c, cfg, day)->0;
    let s = e.findings;
    let all = c.policies;
    gaps_are_joined(c, q, cfg, day, "missing_coverage"@);
    assert forall|k: Coverage| #[trigger] required_of(q, k) is Some implies {
        let needed = required_of(q, k)->0;
        let own = own_findings(c, q, cfg, day, k);
        &&& all_graded(own)
        &&& !is_found(own, "unknown_category"@)
        &&& !is_found(own, "lockout_recommendation"@)
        &&& is_found(own, "missing_coverage"@) <==> !is_presented(all, k)
        &&& is_found(own, "coverage_expired"@) <==> is_presented(all, k) && forall|j: int|
            !#[trigger] runs(all, k, day, j)
        &&& is_found(own, "limit_below_requirement"@) <==> judged(
            all,
            k,
            day,
            |p: LineView|
                p.per_occurrence_limit_cents < needed.per_occurrence_cents
                    || p.aggregate_limit_cents < needed.aggregate_cents,
        )
        &&& is_found(own, "missing_endorsement"@) <==> judged(
            all,
            k,
            day,
            |p: LineView| lacks_endorsement(needed, p),
        )
        &&& is_found(own, "carrier_rating_below_floor"@) <==> judged(
            all,
            k,
            day,
            |p: LineView| is_worse(p.carrier_rating, cfg.min_carrier_rating),
        )
        &&& is_found(own, "coverage_expiring_soon"@) <==> judged(
            all,
            k,
            day,
            |p: LineView| is_expiring(cfg, p, day),
        )
    } by {
        coverages_are_found_by_their_policies(
            c.vendor_id,
            k,
            required_of(q, k)->0,
            all,
            cfg,
            day,
        );
    }
    gaps_are_joined(c, q, cfg, day, "unknown_category"@);
    gaps_are_joined(c, q, cfg, day, "lockout_recommendation"@);
    gaps_are_joined(c, q, cfg, day, "coverage_expired"@);
    gaps_are_joined(c, q, cfg, day, "limit_below_requirement"@);
    gaps_are_joined(c, q, cfg, day, "missing_endorsement"@);
    gaps_are_joined(c, q, cfg, day, "carrier_rating_below_floor"@);
    gaps_are_joined(c, q, cfg, day, "coverage_expiring_soon"@);
    let p1 = own_findings(c, q, cfg, day, Coverage::GeneralLiability);
    let p2 = own_findings(c, q, cfg, day, Coverage::Auto);
    let p3 = own_findings(c, q, cfg, day, Coverage::WorkersComp);
    let p4 = own_findings(c, q, cfg, day, Coverage::Umbrella);
    assert(required_of(q, Coverage::GeneralLiability) is Some ==> all_graded(p1));
    assert(required_of(q, Coverage::Auto) is Some ==> all_graded(p2));
    assert(required_of(q, Coverage::WorkersComp) is Some ==> all_graded(p3));
    assert(required_of(q, Coverage::Umbrella) is Some ==> all_graded(p4));
    assert(all_graded(gaps));
    let more = if e.lockout_recommended {
        seq![s.last()]
    } else {
        Seq::empty()
    };
    assert(s =~= gaps + more);
    assert forall|rule: Seq<char>| #[trigger] is_found(s, rule) == (is_found(gaps, rule)
        || is_found(more, rule)) by {
        found_joins(gaps, more, rule);
    }
    if e.lockout_recommended {
        assert(more[0].rule_id == "lockout_recommendation"@);
        let k = choose|k: int| 0 <= k < gaps.len() && (#[trigger] gaps[k]).severity
            == Severity::Breach;
        assert(s[k].severity == Severity::Breach);
    }
}

/// A certificate of a category that the matrix does not hold has one breach,
/// that says so, and no lockout is recommended.
pub proof fn unknown_categories_are_breaches(
    c: CertificateView,
    cfg: RequirementsConfig,
    day: int,
)
    requires
        !cfg.categories.keys().contains(c.vendor_category),
    ensures
        ({
            let r = engine::evaluation_of(c, cfg, day);
            &&& r is Some
            &&& !r->0.lockout_recommended
            &&& r->0.findings.len() == 1
            &&& r->0.findings[0].rule_id == "unknown_category"@
            &&& r->0.findings[0].subject == c.vendor_id
            &&& r->0.findings[0].severity == Severity::Breach
            &&& r->0.findings[0].requires_signoff
        }),
{
}

// ---- validation ----

proof fn repeats_are_found(s: Seq<Endorsement>, i: int)
    requires
        0 <= i <= s.len(),
    ensures
        config::repeated_from(s, i) is None <==> forall|a: int, b: int|
            0 <= a < b < s.len() && i <= b ==> #[trigger] s[a] != #[trigger] s[b],
    decreases s.len() - i,
{
    if i < s.len() {
        repeats_are_found(s, i + 1);
        let front = s.take(i);
        if front.contains(s[i]) {
            let k = choose|k: int| 0 <= k < front.len() && front[k] == s[i];
            assert(s[k] == s[i]);
        } else {
            assert forall|a: int| 0 <= a < i implies #[trigger] s[a] != s[i] by {
                assert(front[a] == s[a]);
                assert(front.contains(front[a]));
            }
        }
    }
}

/// Whether a policy holds together: it has a number and a carrier, its limits
/// are positive, it does not end before it starts, and no endorsement stands
/// on it twice.
pub open spec fn policy_holds(p: LineView) -> bool {
    &&& p.policy_number.len() > 0
    &&& p.carrier_name.len() > 0
    &&& p.per_occurrence_limit_cents > 0
    &&& p.aggregate_limit_cents > 0
    &&& p.effective_date <= p.expiration_date
    &&& p.endorsements.no_duplicates()
}

proof fn policies_hold(s: Seq<LineView>, i: int)
    requires
        0 <= i <= s.len(),
    ensures
        cert::lines_error(s, i) is None <==> forall|k: int|
            i <= k < s.len() ==> policy_holds(#[trigger] s[k]),
    decreases s.len() - i,
{
    if i < s.len() {
        policies_hold(s, i + 1);
        repeats_are_found(s[i].endorsements, 0);
        assert(cert::line_error(s[i]) is None <==> policy_holds(s[i]));
    }
}

/// A certificate validates exactly where it names a vendor and a category and
/// each of its policies holds together.
pub proof fn valid_certificates_hold_together(c: CertificateView)
    ensures
        cert::certificate_error(c) is None <==> c.vendor_id.len() > 0 && c.vendor_category.len()
            > 0 && forall|k: int|
            0 <= k < c.policies.len() ==> policy_holds(#[trigger] c.policies[k]),
{
    policies_hold(c.policies, 0);
}

/// Whether a requirement holds together: positive limits, and no endorsement
/// twice.
pub open spec fn requirement_holds(q: CoverageRequirement) -> bool {
    &&& q.per_occurrence_cents > 0
    &&& q.aggregate_cents > 0
    &&& q.endorsements@.no_duplicates()
}

/// Whether a category holds together: it has a name and requires a coverage,
/// and what it requires holds together.
pub open spec fn category_holds(name: Seq<char>, q: CategoryRequirement) -> bool {
    &&& name.len() > 0
    &&& exists|k: Coverage| #[trigger] required_of(q, k) is Some
    &&& forall|k: Coverage| #[trigger]
        required_of(q, k) is Some ==> requirement_holds(required_of(q, k)->0)
}

proof fn requirement_judged(name: Seq<char>, k: Coverage, q: Option<CoverageRequirement>)
    ensures
        config::requirement_error(name, k, q) is None <==> (q is Some ==> requirement_holds(q->0)),
{
    if q is Some {
        repeats_are_found(q->0.endorsements@, 0);
    }
}

proof fn category_judged(name: Seq<char>, q: CategoryRequirement)
    ensures
        config::category_error(name, q) is None <==> category_holds(name, q),
{
    requirement_judged(name, Coverage::GeneralLiability, q.coverages.general_liability);
    requirement_judged(name, Coverage::Auto, q.coverages.auto);
    requirement_judged(name, Coverage::WorkersComp, q.coverages.workers_comp);
    requirement_judged(name, Coverage::Umbrella, q.coverages.umbrella);
    assert(required_of(q, Coverage::GeneralLiability) == q.coverages.general_liability);
    assert(required_of(q, Coverage::Auto) == q.coverages.auto);
    assert(required_of(q, Coverage::WorkersComp) == q.coverages.workers_comp);
    assert(required_of(q, Coverage::Umbrella) == q.coverages.umbrella);
    if q.coverages.demands_nothing() {
        assert forall|k: Coverage| #[trigger] required_of(q, k) is None by {
            assert(q.coverages.at(k) is None);
        }
    } else {
        let k = choose|k: Coverage| #[trigger] q.coverages.at(k) is Some;
        assert(required_of(q, k) is Some);
    }
}

proof fn categories_judged(names: Seq<Seq<char>>, s: Seq<CategoryRequirement>, i: int)
    requires
        0 <= i <= names.len(),
    ensures
        config::categories_error(names, s, i) is None <==> forall|k: int|
            i <= k < names.len() ==> category_holds(#[trigger] names[k], s[k]),
    decreases names.len() - i,
{
    if i < names.len() {
        categories_judged(names, s, i + 1);
        category_judged(names[i], s[i]);
    }
}

/// A matrix validates exactly where its window is not negative, it has a
/// category, and each category holds together.
pub proof fn valid_matrices_hold_together(c: RequirementsConfig)
    ensures
        config::config_error(c) is None <==> c.expiry_warning_days >= 0
            && c.categories.keys().len() > 0 && forall|k: int|
            0 <= k < c.categories.keys().len() ==> category_holds(
                #[trigger] c.categories.keys()[k],
                c.categories.values()[k],
            ),
{
    categories_judged(c.categories.keys(), c.categories.values(), 0);
}

} // verus!
