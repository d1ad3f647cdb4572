//! What holds of every evaluated certificate.

use vstd::prelude::*;

use crate::coi::cert;
use crate::coi::cert::{CertificateView, LineView};
use crate::coi::config;
use crate::coi::config::{CategoryRequirement, Coverage, CoverageRequirement, Endorsement, RequirementsConfig};
use crate::coi::engine;
use crate::coi::error::CoiError;
use crate::coi::pack;
use crate::coi::pack::{SignOutcome, SignRequest};
use crate::coi::ENGINE_ID;
use crate::num;
use crate::spine;
use crate::spine::{FindingView, PackView, Severity, SignoffDecision};
use crate::table;
use crate::text;

verus! {

// ---- the policy that a coverage stands on ----

proof fn preferred_twice(a: LineView, b: LineView, c: LineView)
    requires
        engine::preferred(a, b),
        engine::preferred(b, c),
    ensures
        engine::preferred(a, c),
{
    if text::text_lt(a.policy_number, b.policy_number) && text::text_lt(
        b.policy_number,
        c.policy_number,
    ) {
        text::text_lt_transitive(a.policy_number, b.policy_number, c.policy_number);
    }
}

/// A coverage stands on a current policy to which no other is preferred, and
/// on none only where no policy is current.
pub proof fn coverage_stands_on_the_preferred_policy(
    s: Seq<LineView>,
    coverage: Coverage,
    day: int,
    n: int,
)
    requires
        0 <= n <= s.len(),
    ensures
        (match engine::selected(s, coverage, day, n) {
            Some(i) => {
                &&& 0 <= i < n
                &&& engine::is_current(s[i], coverage, day)
                &&& forall|j: int|
                    0 <= j < n && #[trigger] engine::is_current(s[j], coverage, day)
                        ==> !engine::preferred(s[j], s[i])
            },
            None => forall|j: int|
                0 <= j < n ==> !#[trigger] engine::is_current(s[j], coverage, day),
        }),
    decreases n,
{
    if n > 0 {
        coverage_stands_on_the_preferred_policy(s, coverage, day, n - 1);
        let before = engine::selected(s, coverage, day, n - 1);
        let now = engine::selected(s, coverage, day, n);
        text::text_lt_irreflexive(s[n - 1].policy_number);
        if now == Some(n - 1) {
            assert forall|j: int| 0 <= j < n && #[trigger] engine::is_current(s[j], coverage, day)
                implies !engine::preferred(s[j], s[n - 1]) by {
                if j < n - 1 && engine::preferred(s[j], s[n - 1]) {
                    let i = before->0;
                    preferred_twice(s[j], s[n - 1], s[i]);
                }
            }
        }
    }
}

proof fn numbers_held(s: Seq<LineView>, coverage: Coverage, n: int, x: Seq<char>)
    requires
        0 <= n <= s.len(),
    ensures
        engine::numbers(s, coverage, n).contains(x) <==> exists|i: int|
            0 <= i < n && (#[trigger] s[i]).coverage == coverage && s[i].policy_number == x,
    decreases n,
{
    let now = engine::numbers(s, coverage, n);
    if n > 0 {
        numbers_held(s, coverage, n - 1, x);
        let before = engine::numbers(s, coverage, n - 1);
        if now.contains(x) {
            let k = choose|k: int| 0 <= k < now.len() && now[k] == x;
            if k < before.len() {
                assert(before[k] == x);
                assert(before.contains(x));
            } else {
                assert(s[n - 1].coverage == coverage && s[n - 1].policy_number == x);
            }
        }
        if exists|i: int|
            0 <= i < n && (#[trigger] s[i]).coverage == coverage && s[i].policy_number == x {
            let i = choose|i: int|
                0 <= i < n && (#[trigger] s[i]).coverage == coverage && s[i].policy_number == x;
            if i == n - 1 {
                assert(now[now.len() - 1] == x);
            } else {
                assert(before.contains(x));
                let k = choose|k: int| 0 <= k < before.len() && before[k] == x;
                assert(now[k] == x);
            }
        }
    }
}

/// Whether policies of the same coverage between which nothing decides are
/// the same.
pub open spec fn ties_agree(s: Seq<LineView>) -> bool {
    forall|i: int, j: int|
        0 <= i < s.len() && 0 <= j < s.len() && (#[trigger] s[i]).coverage == (#[trigger] s[j]).coverage
            && !engine::preferred(s[i], s[j]) && !engine::preferred(s[j], s[i]) ==> s[i] == s[j]
}

proof fn held_in_both(s: Seq<LineView>, t: Seq<LineView>, i: int) -> (k: int)
    requires
        s.to_multiset() == t.to_multiset(),
        0 <= i < s.len(),
    ensures
        0 <= k < t.len(),
        t[k] == s[i],
{
    assert(s.contains(s[i]));
    vstd::seq_lib::to_multiset_contains(s, s[i]);
    vstd::seq_lib::to_multiset_contains(t, s[i]);
    choose|k: int| 0 <= k < t.len() && t[k] == s[i]
}

proof fn same_numbers(s: Seq<LineView>, t: Seq<LineView>, coverage: Coverage)
    requires
        s.to_multiset() == t.to_multiset(),
    ensures
        text::ascending(engine::numbers(s, coverage, s.len() as int)) == text::ascending(
            engine::numbers(t, coverage, t.len() as int),
        ),
        engine::numbers(s, coverage, s.len() as int).len() == 0 <==> engine::numbers(
            t,
            coverage,
            t.len() as int,
        ).len() == 0,
{
    let a = engine::numbers(s, coverage, s.len() as int);
    let b = engine::numbers(t, coverage, t.len() as int);
    assert forall|x: Seq<char>| #[trigger] a.contains(x) <==> b.contains(x) by {
        numbers_held(s, coverage, s.len() as int, x);
        numbers_held(t, coverage, t.len() as int, x);
        if a.contains(x) {
            let i = choose|i: int|
                0 <= i < s.len() && (#[trigger] s[i]).coverage == coverage && s[i].policy_number
                    == x;
            let k = held_in_both(s, t, i);
            assert(t[k].coverage == coverage && t[k].policy_number == x);
        }
        if b.contains(x) {
            let i = choose|i: int|
                0 <= i < t.len() && (#[trigger] t[i]).coverage == coverage && t[i].policy_number
                    == x;
            let k = held_in_both(t, s, i);
            assert(s[k].coverage == coverage && s[k].policy_number == x);
        }
    }
    if a.len() > 0 {
        assert(a.contains(a[0]));
        assert(b.contains(a[0]));
    }
    if b.len() > 0 {
        assert(b.contains(b[0]));
        assert(a.contains(b[0]));
    }
    text::ascending_ascends(a);
    text::ascending_ascends(b);
    let c = text::ascending(a);
    let d = text::ascending(b);
    assert forall|x: Seq<char>| #[trigger] c.contains(x) <==> d.contains(x) by {
        assert(a.contains(x) <==> c.contains(x));
        assert(b.contains(x) <==> d.contains(x));
    }
    text::ascending_is_unique(c, d);
}

proof fn same_selected(s: Seq<LineView>, t: Seq<LineView>, coverage: Coverage, day: int)
    requires
        s.to_multiset() == t.to_multiset(),
        ties_agree(s),
    ensures
        ({
            let a = engine::selected(s, coverage, day, s.len() as int);
            let b = engine::selected(t, coverage, day, t.len() as int);
            &&& a is Some <==> b is Some
            &&& a is Some ==> 0 <= a->0 < s.len() && 0 <= b->0 < t.len() && s[a->0] == t[b->0]
        }),
{
    coverage_stands_on_the_preferred_policy(s, coverage, day, s.len() as int);
    coverage_stands_on_the_preferred_policy(t, coverage, day, t.len() as int);
    let a = engine::selected(s, coverage, day, s.len() as int);
    let b = engine::selected(t, coverage, day, t.len() as int);
    if a is Some {
        let k = held_in_both(s, t, a->0);
        assert(engine::is_current(t[k], coverage, day));
    }
    if b is Some {
        let k = held_in_both(t, s, b->0);
        assert(engine::is_current(s[k], coverage, day));
    }
    if a is Some {
        let k = held_in_both(s, t, a->0);
        assert(engine::is_current(t[k], coverage, day));
        assert(!engine::preferred(t[k], t[b->0]));
        let l = held_in_both(t, s, b->0);
        assert(engine::is_current(s[l], coverage, day));
        assert(!engine::preferred(s[l], s[a->0]));
        assert(s[l] == s[a->0]);
    }
}

/// The order of the policies does not matter, where policies between which
/// nothing decides are the same.
pub proof fn policy_order_does_not_matter(
    c: CertificateView,
    d: CertificateView,
    cfg: RequirementsConfig,
    day: int,
)
    requires
        c.vendor_id == d.vendor_id,
        c.vendor_category == d.vendor_category,
        c.policies.to_multiset() == d.policies.to_multiset(),
        ties_agree(c.policies),
    ensures
        engine::evaluation_of(c, cfg, day) == engine::evaluation_of(d, cfg, day),
{
    assert forall|coverage: Coverage, needed: CoverageRequirement| #[trigger]
        engine::coverage_findings(c.vendor_id, coverage, needed, c.policies, cfg, day)
            == engine::coverage_findings(d.vendor_id, coverage, needed, d.policies, cfg, day) by {
        same_numbers(c.policies, d.policies, coverage);
        same_selected(c.policies, d.policies, coverage, day);
    }
}

// ---- what is found ----

/// Whether findings are all on a vendor, and gated exactly when breaches.
pub open spec fn is_fair(s: Seq<FindingView>, vendor: Seq<char>) -> bool {
    forall|i: int|
        0 <= i < s.len() ==> {
            &&& (#[trigger] s[i]).subject == vendor
            &&& s[i].requires_signoff == (s[i].severity == Severity::Breach)
            &&& s[i].severity != Severity::Info
        }
}

proof fn endorsements_fair(
    subject: Seq<char>,
    coverage: Coverage,
    needed: Seq<Endorsement>,
    p: LineView,
    n: int,
)
    ensures
        is_fair(engine::endorsement_findings(subject, coverage, needed, p, n), subject),
    decreases n,
{
    if n > 0 {
        endorsements_fair(subject, coverage, needed, p, n - 1);
    }
}

proof fn coverage_fair(
    subject: Seq<char>,
    coverage: Coverage,
    needed: CoverageRequirement,
    policies: Seq<LineView>,
    cfg: RequirementsConfig,
    day: int,
)
    ensures
        engine::coverage_findings(subject, coverage, needed, policies, cfg, day) matches Some(s)
            ==> is_fair(s, subject),
{
    let at = engine::selected(policies, coverage, day, policies.len() as int);
    if at is Some {
        endorsements_fair(
            subject,
            coverage,
            needed.endorsements@,
            policies[at->0],
            needed.endorsements.len() as int,
        );
    }
}

proof fn with_coverage_fair(
    before: Option<Seq<FindingView>>,
    c: CertificateView,
    coverage: Coverage,
    q: CategoryRequirement,
    cfg: RequirementsConfig,
    day: int,
)
    requires
        before matches Some(s) ==> is_fair(s, c.vendor_id),
    ensures
        engine::with_coverage(before, c, coverage, q, cfg, day) matches Some(s) ==> is_fair(
            s,
            c.vendor_id,
        ),
{
    match q.coverages.at(coverage) {
        Some(needed) => coverage_fair(c.vendor_id, coverage, needed, c.policies, cfg, day),
        None => {},
    }
}

/// Every finding names the vendor, and needs an approval exactly when it is a
/// breach. A lockout is recommended exactly when a critical category holds a
/// breach; the recommendation itself is a warning that needs none.
pub proof fn findings_name_the_vendor(c: CertificateView, cfg: RequirementsConfig, day: int)
    requires
        engine::evaluation_of(c, cfg, day) is Some,
    ensures
        ({
            let e = engine::evaluation_of(c, cfg, day)->0;
            &&& is_fair(e.findings, c.vendor_id)
            &&& e.lockout_recommended <==> (match cfg.categories.lookup(c.vendor_category) {
                Some(q) => q.critical && engine::any_breach(e.findings),
                None => false,
            })
            &&& e.lockout_recommended ==> e.findings.last().rule_id == engine::RULE_LOCKOUT@
        }),
{
    match cfg.categories.lookup(c.vendor_category) {
        None => {},
        Some(q) => {
            let none = Some(Seq::<FindingView>::empty());
            let first = engine::with_coverage(none, c, Coverage::GeneralLiability, q, cfg, day);
            let second = engine::with_coverage(first, c, Coverage::Auto, q, cfg, day);
            let third = engine::with_coverage(second, c, Coverage::WorkersComp, q, cfg, day);
            with_coverage_fair(none, c, Coverage::GeneralLiability, q, cfg, day);
            with_coverage_fair(first, c, Coverage::Auto, q, cfg, day);
            with_coverage_fair(second, c, Coverage::WorkersComp, q, cfg, day);
            with_coverage_fair(third, c, Coverage::Umbrella, q, cfg, day);
            let s = engine::gaps(c, q, cfg, day)->0;
            let e = engine::evaluation_of(c, cfg, day)->0;
            if engine::any_breach(s) {
                let i = choose|i: int|
                    0 <= i < s.len() && (#[trigger] s[i]).severity == Severity::Breach;
                assert(e.findings[i] == s[i]);
            }
            if engine::any_breach(e.findings) {
                let i = choose|i: int|
                    0 <= i < e.findings.len() && (#[trigger] e.findings[i]).severity
                        == Severity::Breach;
                if i < s.len() {
                    assert(s[i] == e.findings[i]);
                }
            }
        },
    }
}

/// Whether a policy meets a requirement: limits at least as required, every
/// endorsement, a rating at the floor or better, and no expiry within the
/// window.
pub open spec fn meets(
    p: LineView,
    needed: CoverageRequirement,
    cfg: RequirementsConfig,
    day: int,
) -> bool {
    &&& p.per_occurrence_limit_cents >= needed.per_occurrence_cents
    &&& p.aggregate_limit_cents >= needed.aggregate_cents
    &&& forall|i: int|
        0 <= i < needed.endorsements.len() ==> p.endorsements.contains(
            #[trigger] needed.endorsements@[i],
        )
    &&& p.carrier_rating.rank() <= cfg.min_carrier_rating.rank()
    &&& !engine::expires_within(p, cfg.expiry_warning_days as int, day)
}

/// Whether a coverage stands on a policy that meets its requirement.
pub open spec fn is_met(
    c: CertificateView,
    coverage: Coverage,
    needed: CoverageRequirement,
    cfg: RequirementsConfig,
    day: int,
) -> bool {
    engine::selected(c.policies, coverage, day, c.policies.len() as int) matches Some(i) && meets(
        c.policies[i],
        needed,
        cfg,
        day,
    )
}

proof fn endorsements_clean(
    subject: Seq<char>,
    coverage: Coverage,
    needed: Seq<Endorsement>,
    p: LineView,
    n: int,
)
    requires
        0 <= n <= needed.len(),
    ensures
        engine::endorsement_findings(subject, coverage, needed, p, n).len() == 0 <==> (forall|
            i: int,
        |
            0 <= i < n ==> p.endorsements.contains(#[trigger] needed[i])),
    decreases n,
{
    if n > 0 {
        endorsements_clean(subject, coverage, needed, p, n - 1);
        if forall|i: int| 0 <= i < n ==> p.endorsements.contains(#[trigger] needed[i]) {
            assert(p.endorsements.contains(needed[n - 1]));
        }
    }
}

proof fn coverage_clean(
    c: CertificateView,
    coverage: Coverage,
    needed: CoverageRequirement,
    cfg: RequirementsConfig,
    day: int,
)
    requires
        engine::coverage_findings(c.vendor_id, coverage, needed, c.policies, cfg, day) is Some,
    ensures
        engine::coverage_findings(c.vendor_id, coverage, needed, c.policies, cfg, day)->0.len() == 0
            <==> is_met(c, coverage, needed, cfg, day),
{
    let n = c.policies.len() as int;
    coverage_stands_on_the_preferred_policy(c.policies, coverage, day, n);
    match engine::selected(c.policies, coverage, day, n) {
        Some(i) => {
            let p = c.policies[i];
            numbers_held(c.policies, coverage, n, p.policy_number);
            assert(c.policies[i].coverage == coverage && c.policies[i].policy_number
                == p.policy_number);
            assert(engine::numbers(c.policies, coverage, n).contains(p.policy_number));
            endorsements_clean(
                c.vendor_id,
                coverage,
                needed.endorsements@,
                p,
                needed.endorsements.len() as int,
            );
        },
        None => {},
    }
}

/// A certificate of a known category has no findings exactly when every
/// required coverage stands on a policy that meets its requirement.
pub proof fn clean_means_every_requirement_is_met(
    c: CertificateView,
    cfg: RequirementsConfig,
    day: int,
)
    requires
        engine::evaluation_of(c, cfg, day) is Some,
        cfg.categories.lookup(c.vendor_category) is Some,
    ensures
        engine::evaluation_of(c, cfg, day)->0.findings.len() == 0 <==> (forall|coverage: Coverage|
            (#[trigger] (cfg.categories.lookup(c.vendor_category)->0).coverages.at(
                coverage,
            )) matches Some(needed) ==> is_met(c, coverage, needed, cfg, day)),
{
    let q = cfg.categories.lookup(c.vendor_category)->0;
    assert forall|coverage: Coverage|
        (#[trigger] q.coverages.at(coverage)) matches Some(needed) && engine::coverage_findings(
            c.vendor_id,
            coverage,
            needed,
            c.policies,
            cfg,
            day,
        ) is Some implies (engine::coverage_findings(
        c.vendor_id,
        coverage,
        q.coverages.at(coverage)->0,
        c.policies,
        cfg,
        day,
    )->0.len() == 0 <==> is_met(c, coverage, q.coverages.at(coverage)->0, cfg, day)) by {
        coverage_clean(c, coverage, q.coverages.at(coverage)->0, cfg, day);
    }
    assert(q.coverages.at(Coverage::GeneralLiability) == q.coverages.general_liability);
    assert(q.coverages.at(Coverage::Auto) == q.coverages.auto);
    assert(q.coverages.at(Coverage::WorkersComp) == q.coverages.workers_comp);
    assert(q.coverages.at(Coverage::Umbrella) == q.coverages.umbrella);
}

// ---- documents ----

/// Trimming a certificate a second time changes nothing.
pub proof fn trimming_settles(c: CertificateView)
    ensures
        cert::trimmed_certificate(cert::trimmed_certificate(c)) == cert::trimmed_certificate(c),
{
    let once = cert::trimmed_certificate(c);
    let twice = cert::trimmed_certificate(once);
    text::trimmed_settles(c.vendor_id);
    text::trimmed_settles(c.vendor_category);
    assert forall|i: int| 0 <= i < c.policies.len() implies twice.policies[i] == once.policies[i] by {
        text::trimmed_settles(c.policies[i].policy_number);
        text::trimmed_settles(c.policies[i].carrier_name);
    }
    assert(twice.policies =~= once.policies);
}

/// White space around the name of a category does not keep a certificate from
/// finding it.
pub proof fn padded_categories_are_found(
    before: RequirementsConfig,
    after: RequirementsConfig,
    i: int,
)
    requires
        config::is_trimmed_of(after, before),
        0 <= i < before.categories.keys().len(),
    ensures
        after.categories.lookup(text::trimmed(before.categories.keys()[i])) is Some,
{
    let keys = before.categories.keys();
    let cut = keys.map_values(|k: Seq<char>| text::trimmed(k));
    text::ascending_ascends(cut);
    assert(cut[i] == text::trimmed(keys[i]));
    assert(cut.contains(text::trimmed(keys[i])));
    assert(table::trimmed_keys(keys).contains(text::trimmed(keys[i])));
}

proof fn last_trimmed_is_the_only_one<V>(
    keys: Seq<Seq<char>>,
    values: Seq<V>,
    i: int,
    n: int,
)
    requires
        0 <= i < n <= keys.len(),
        forall|j: int|
            0 <= j < keys.len() && j != i ==> text::trimmed(#[trigger] keys[j]) != text::trimmed(
                keys[i],
            ),
    ensures
        table::last_trimmed(keys, values, text::trimmed(keys[i]), n) == Some(values[i]),
    decreases n,
{
    if i < n - 1 {
        last_trimmed_is_the_only_one(keys, values, i, n - 1);
        assert(text::trimmed(keys[n - 1]) != text::trimmed(keys[i]));
    }
}

/// Trimming a matrix keeps the warning window, the lowest rating, and, under
/// a name that no other category has once trimmed, what a category requires.
pub proof fn trimming_changes_names_alone(
    before: RequirementsConfig,
    after: RequirementsConfig,
    i: int,
)
    requires
        config::is_trimmed_of(after, before),
        0 <= i < before.categories.keys().len(),
        forall|j: int|
            0 <= j < before.categories.keys().len() && j != i ==> text::trimmed(
                #[trigger] before.categories.keys()[j],
            ) != text::trimmed(before.categories.keys()[i]),
    ensures
        after.expiry_warning_days == before.expiry_warning_days,
        after.min_carrier_rating == before.min_carrier_rating,
        after.categories.lookup(text::trimmed(before.categories.keys()[i])) == Some(
            before.categories.values()[i],
        ),
{
    let keys = before.categories.keys();
    let key = text::trimmed(keys[i]);
    padded_categories_are_found(before, after, i);
    last_trimmed_is_the_only_one(keys, before.categories.values(), i, keys.len() as int);
    let at = after.categories.keys().index_of(key);
    assert(after.categories.keys()[at] == key);
}

// ---- money ----

/// The number that the digits of a text name, whatever stands between them.
pub open spec fn digits_read(s: Seq<char>) -> nat
    decreases s.len(),
{
    if s.len() == 0 {
        0
    } else if text::is_digit(s.last()) {
        digits_read(s.drop_last()) * 10 + (s.last() as nat - '0' as nat) as nat
    } else {
        digits_read(s.drop_last())
    }
}

proof fn read_digit(s: Seq<char>, d: nat)
    requires
        d < 10,
    ensures
        digits_read(s + text::digit_text(d)) == digits_read(s) * 10 + d,
{
    text::digit_text_reads_back(d);
    let t = s + text::digit_text(d);
    assert(t.drop_last() =~= s);
    assert(t.last() == text::digit_text(d)[0]);
}

proof fn read_other(s: Seq<char>, c: Seq<char>)
    requires
        c.len() == 1,
        !text::is_digit(c[0]),
    ensures
        digits_read(s + c) == digits_read(s),
{
    let t = s + c;
    assert(t.drop_last() =~= s);
    assert(t.last() == c[0]);
}

proof fn read_decimal(s: Seq<char>, n: nat)
    requires
        digits_read(s) == 0,
    ensures
        digits_read(s + text::decimal(n)) == n,
    decreases n,
{
    if n < 10 {
        read_digit(s, n);
    } else {
        read_decimal(s, n / 10);
        read_digit(s + text::decimal(n / 10), n % 10);
        assert(s + text::decimal(n) =~= (s + text::decimal(n / 10)) + text::digit_text(n % 10));
    }
}

proof fn read_two_digits(s: Seq<char>, n: nat)
    requires
        n < 100,
    ensures
        digits_read(s + text::two_digits(n)) == digits_read(s) * 100 + n,
{
    read_digit(s, n / 10);
    read_digit(s + text::digit_text(n / 10), n % 10);
    assert(text::decimal(n / 10) == text::digit_text(n / 10));
    assert(s + text::two_digits(n) =~= (s + text::digit_text(n / 10)) + text::digit_text(n % 10));
}

proof fn read_three_digits(s: Seq<char>, n: nat)
    requires
        n < 1000,
    ensures
        digits_read(s + engine::three_digits(n)) == digits_read(s) * 1000 + n,
{
    let a = s + text::digit_text(n / 100);
    read_digit(s, n / 100);
    read_two_digits(a, n % 100);
    assert(text::decimal(n / 100) == text::digit_text(n / 100));
    reveal_strlit("00");
    reveal_strlit("0");
    if n >= 100 {
        assert(text::decimal(n / 10) == text::decimal(n / 100) + text::digit_text(n / 10 % 10));
        assert(n / 10 / 10 == n / 100);
        assert(n % 100 / 10 == n / 10 % 10);
        assert(n % 100 % 10 == n % 10);
        assert(text::decimal(n) == text::decimal(n / 10) + text::digit_text(n % 10));
        assert(text::decimal(n % 100 / 10) == text::digit_text(n % 100 / 10));
        assert(text::two_digits(n % 100) =~= text::digit_text(n / 10 % 10) + text::digit_text(
            n % 10,
        ));
        assert(s + engine::three_digits(n) =~= a + text::two_digits(n % 100));
    } else {
        assert(s + engine::three_digits(n) =~= a + text::two_digits(n % 100));
    }
    assert((digits_read(s) * 10 + n / 100) * 100 + n % 100 == digits_read(s) * 1000 + n);
}

proof fn read_grouped(s: Seq<char>, n: nat)
    requires
        digits_read(s) == 0,
    ensures
        digits_read(s + engine::grouped(n)) == n,
    decreases n,
{
    if n < 1000 {
        read_decimal(s, n);
    } else {
        let a = s + engine::grouped(n / 1000);
        read_grouped(s, n / 1000);
        reveal_strlit(",");
        read_other(a, ","@);
        read_three_digits(a + ","@, n % 1000);
        assert(s + engine::grouped(n) =~= (a + ","@) + engine::three_digits(n % 1000));
    }
}

/// The digits of a written amount name it to the cent, and its first
/// character tells its sign. So no two amounts are written alike.
pub proof fn amounts_read_back(cents: int)
    ensures
        digits_read(engine::money_text(cents)) == num::magnitude(cents),
        engine::money_text(cents).len() > 0,
        engine::money_text(cents)[0] == '-' <==> cents < 0,
{
    reveal_strlit("-");
    reveal_strlit("");
    reveal_strlit("$");
    reveal_strlit(".");
    let sign = if cents < 0 {
        "-"@
    } else {
        ""@
    };
    let m = num::magnitude(cents);
    assert(digits_read(Seq::<char>::empty()) == 0);
    if cents < 0 {
        read_other(Seq::empty(), "-"@);
        assert(Seq::<char>::empty() + "-"@ =~= sign);
    } else {
        assert(Seq::<char>::empty() =~= sign);
    }
    read_other(sign, "$"@);
    read_grouped(sign + "$"@, m / 100);
    read_other(sign + "$"@ + engine::grouped(m / 100), "."@);
    read_two_digits(sign + "$"@ + engine::grouped(m / 100) + "."@, m % 100);
    assert(engine::money_text(cents)[0] == (sign + "$"@)[0]);
}

// ---- packs ----

/// A pack that is signed verifies against the bytes that it was made from.
pub proof fn signed_packs_verify(
    before: PackView,
    q: SignRequest,
    after: PackView,
    r: Result<SignOutcome, CoiError>,
    inputs: Seq<u8>,
    params: Seq<u8>,
)
    requires
        before.spine_version == spine::SPINE_VERSION@,
        before.inputs_hash == spine::sha256_text(inputs),
        before.params_hash == spine::sha256_text(params),
        pack::signing(before, q, after, r),
        r == Ok::<SignOutcome, CoiError>(SignOutcome::Signed),
    ensures
        spine::is_evidence(after, inputs, params),
{
    let now = pack::with_receipts(before, pack::requested(q));
    assert(spine::body_text(after) == spine::body_text(now));
    assert forall|i: int| 0 <= i < after.findings.len() implies spine::is_resolved(
        after,
        #[trigger] after.findings[i],
    ) by {
        assert(spine::is_resolved(now, now.findings[i]));
    }
}

/// A pack without breaches needs no receipts: it is signed as it is.
pub proof fn warnings_need_no_receipts(
    c: CertificateView,
    cfg: RequirementsConfig,
    day: int,
    inputs: Seq<u8>,
    params: Seq<u8>,
    q: SignRequest,
    after: PackView,
    r: Result<SignOutcome, CoiError>,
)
    requires
        engine::evaluation_of(c, cfg, day) matches Some(e) && !engine::any_breach(e.findings),
        q.actor is None,
        pack::signing(
            pack::fresh_pack(engine::evaluation_of(c, cfg, day)->0.findings, inputs, params),
            q,
            after,
            r,
        ),
    ensures
        r == Ok::<SignOutcome, CoiError>(SignOutcome::Signed),
        spine::is_evidence(after, inputs, params),
{
    let e = engine::evaluation_of(c, cfg, day)->0;
    let fresh = pack::fresh_pack(e.findings, inputs, params);
    findings_name_the_vendor(c, cfg, day);
    let now = pack::with_receipts(fresh, pack::requested(q));
    assert forall|i: int| 0 <= i < now.findings.len() implies spine::is_resolved(
        now,
        #[trigger] now.findings[i],
    ) by {
        assert(e.findings[i].severity != Severity::Breach);
    }
    signed_packs_verify(fresh, q, after, r, inputs, params);
}

/// A breach is signed off only by an approval that names the vendor, from an
/// actor who is not the engine.
pub proof fn breaches_need_an_approval_of_the_vendor(
    c: CertificateView,
    cfg: RequirementsConfig,
    day: int,
    inputs: Seq<u8>,
    params: Seq<u8>,
    q: SignRequest,
    after: PackView,
    r: Result<SignOutcome, CoiError>,
)
    requires
        engine::evaluation_of(c, cfg, day) matches Some(e) && engine::any_breach(e.findings),
        pack::signing(
            pack::fresh_pack(engine::evaluation_of(c, cfg, day)->0.findings, inputs, params),
            q,
            after,
            r,
        ),
        r == Ok::<SignOutcome, CoiError>(SignOutcome::Signed),
    ensures
        q.actor matches Some(actor) && !text::same_ignoring_case(
            text::trimmed(actor@),
            text::trimmed(ENGINE_ID@),
        ),
        q.decision == SignoffDecision::Approve,
        q.subject matches Some(subject) && text::trimmed(subject@) == c.vendor_id,
{
    let e = engine::evaluation_of(c, cfg, day)->0;
    let fresh = pack::fresh_pack(e.findings, inputs, params);
    findings_name_the_vendor(c, cfg, day);
    let now = pack::with_receipts(fresh, pack::requested(q));
    let i = choose|i: int|
        0 <= i < e.findings.len() && (#[trigger] e.findings[i]).severity == Severity::Breach;
    assert(spine::is_resolved(now, now.findings[i]));
    assert(spine::is_approved(now.engine_id, now.signoffs, c.vendor_id));
    let j = choose|j: int|
        0 <= j < now.signoffs.len() && #[trigger] spine::approves(
            now.engine_id,
            now.signoffs[j],
            c.vendor_id,
        );
    assert(now.signoffs =~= pack::requested(q));
    text::trimmed_settles((q.actor->0)@);
}

/// A sealed pack is immutable: whatever is asked for, it stays as it is.
pub proof fn sealed_packs_are_immutable(
    before: PackView,
    q: SignRequest,
    after: PackView,
    r: Result<SignOutcome, CoiError>,
)
    requires
        before.body_hash.len() > 0,
        pack::signing(before, q, after, r),
    ensures
        after == before,
        r matches Err(e) && e@ is Refused,
{
}

} // verus!
