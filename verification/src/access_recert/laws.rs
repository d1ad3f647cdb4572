//! What holds of every campaign.

use vstd::prelude::*;

use crate::access_recert::engine;
use crate::access_recert::engine::{
    RULE_LEAVER_ACTIVE, RULE_ORPHAN_MANAGER, RULE_ORPHAN_SYSTEM, RULE_PRIVILEGED_FOUR_EYES,
    RULE_QUARANTINE, RULE_STALE_AUTH,
};
use crate::access_recert::model;
use crate::access_recert::model::{
    CampaignInput, EntitlementRecord, EntitlementView, IdentityRecord, RecertConfig, SystemRecord,
};
use crate::access_recert::pack;
use crate::access_recert::pack::{PackDocument, PackVerificationError};
use crate::order;
use crate::spine;
use crate::spine::{FindingView, LockState, Severity, SignoffView};
use crate::text;

verus! {

// ---- which identity an entitlement belongs to ----

pub(crate) proof fn identity_is_found(s: Seq<IdentityRecord>, id: Seq<char>, n: int)
    requires
        0 <= n <= s.len(),
    ensures
        (match engine::identity_of(s, id, n) {
            Some(k) => 0 <= k < n && s[k].employee_id@ == id,
            None => forall|k: int| 0 <= k < n ==> (#[trigger] s[k]).employee_id@ != id,
        }),
    decreases n,
{
    if n > 0 {
        identity_is_found(s, id, n - 1);
    }
}

// ---- what is found ----

/// Whether a finding is gated as its rule asks.
pub open spec fn is_gated_right(f: FindingView) -> bool {
    &&& f.severity == Severity::Breach <==> f.rule_id == RULE_LEAVER_ACTIVE@ || f.rule_id
        == RULE_ORPHAN_SYSTEM@
    &&& f.requires_signoff <==> f.severity == Severity::Breach || f.rule_id == RULE_QUARANTINE@
        || f.rule_id == RULE_PRIVILEGED_FOUR_EYES@
}

proof fn rules_differ()
    ensures
        RULE_LEAVER_ACTIVE@.len() == 25,
        RULE_ORPHAN_SYSTEM@.len() == 13,
        RULE_ORPHAN_MANAGER@.len() == 14,
        RULE_STALE_AUTH@.len() == 10,
        RULE_PRIVILEGED_FOUR_EYES@.len() == 20,
        RULE_QUARANTINE@.len() == 10,
        RULE_STALE_AUTH@ != RULE_QUARANTINE@,
{
    reveal_strlit("leaver-active-entitlement");
    reveal_strlit("orphan-system");
    reveal_strlit("orphan-manager");
    reveal_strlit("stale-auth");
    reveal_strlit("privileged-four-eyes");
    reveal_strlit("quarantine");
    assert(RULE_STALE_AUTH@[0] == 's');
    assert(RULE_QUARANTINE@[0] == 'q');
}

/// Whether findings name a subject, have the right gates, and no rule finds it
/// twice.
spec fn is_fair(s: Seq<FindingView>, subject: Seq<char>) -> bool {
    &&& forall|i: int|
        0 <= i < s.len() ==> (#[trigger] s[i]).subject == subject && is_gated_right(s[i])
    &&& forall|i: int, j: int|
        0 <= i < s.len() && 0 <= j < s.len() && (#[trigger] s[i]).rule_id == (
        #[trigger] s[j]).rule_id ==> i == j
}

/// Whether no finding is by a rule whose name is as long as `n`.
spec fn avoids(s: Seq<FindingView>, n: int) -> bool {
    forall|i: int| 0 <= i < s.len() ==> (#[trigger] s[i]).rule_id.len() != n
}

proof fn one_more(s: Seq<FindingView>, found: bool, f: FindingView, subject: Seq<char>)
    requires
        is_fair(s, subject),
        avoids(s, f.rule_id.len() as int),
        f.subject == subject,
        is_gated_right(f),
    ensures
        is_fair(s + engine::finding_if(found, f), subject),
        forall|n: int| #[trigger]
            avoids(s, n) && n != f.rule_id.len() ==> avoids(s + engine::finding_if(found, f), n),
{
    let t = s + engine::finding_if(found, f);
    assert forall|i: int, j: int|
        0 <= i < t.len() && 0 <= j < t.len() && (#[trigger] t[i]).rule_id == (
        #[trigger] t[j]).rule_id implies i == j by {
        if i < s.len() && j < s.len() {
            assert(s[i].rule_id == s[j].rule_id);
        }
    }
}

/// The findings on one entitlement name it, and no rule finds it twice.
proof fn entitlement_found_once(
    input: CampaignInput,
    c: RecertConfig,
    engine_id: Seq<char>,
    e: EntitlementRecord,
)
    ensures
        is_fair(engine::entitlement_findings(input, c, engine_id, e), e.entitlement_id@),
{
    rules_differ();
    match engine::identity_of(input.identities@, e.employee_id@, input.identities.len() as int) {
        None => {},
        Some(k) => {
            let x = input.identities@[k];
            let id = e.entitlement_id@;
            let campaign = input.campaign_date.day();
            let grace = engine::is_new_hire(x, campaign, c);
            let first = engine::leaver_findings(e, x, campaign);
            let f = spine::breach_of(RULE_ORPHAN_SYSTEM@, id, engine::orphan_system_text(e));
            let g = engine::warning(
                RULE_ORPHAN_MANAGER@,
                id,
                engine::orphan_manager_text(x),
                false,
            );
            let h = engine::warning(
                RULE_STALE_AUTH@,
                id,
                engine::stale_text(e, campaign, c),
                false,
            );
            let l = engine::warning(
                RULE_PRIVILEGED_FOUR_EYES@,
                id,
                engine::four_eyes_text(e),
                true,
            );
            let unmanaged = !engine::is_managed(input.systems@, e.system_id@);
            let orphaned = !grace && !engine::has_manager(x, input.identities@);
            let stale = !grace && engine::is_stale(e, campaign, c);
            let gap = e.privileged && !engine::approved_twice(
                engine_id,
                spine::signoffs_view(input.retention_approvals@),
                id,
            );
            assert(avoids(first, 13) && avoids(first, 14) && avoids(first, 10) && avoids(first, 20));
            one_more(first, unmanaged, f, id);
            let second = first + engine::finding_if(unmanaged, f);
            assert(avoids(second, 14) && avoids(second, 10) && avoids(second, 20));
            one_more(second, orphaned, g, id);
            let third = second + engine::finding_if(orphaned, g);
            assert(avoids(third, 10) && avoids(third, 20));
            one_more(third, stale, h, id);
            let fourth = third + engine::finding_if(stale, h);
            assert(avoids(fourth, 20));
            one_more(fourth, gap, l, id);
        },
    }
}

proof fn found_somewhere(
    input: CampaignInput,
    c: RecertConfig,
    engine_id: Seq<char>,
    n: int,
    f: FindingView,
)
    requires
        0 <= n <= input.entitlements.len(),
    ensures
        engine::findings_upto(input, c, engine_id, n).contains(f) <==> exists|i: int|
            0 <= i < n && engine::entitlement_findings(
                input,
                c,
                engine_id,
                #[trigger] input.entitlements@[i],
            ).contains(f),
    decreases n,
{
    let now = engine::findings_upto(input, c, engine_id, n);
    if n > 0 {
        found_somewhere(input, c, engine_id, n - 1, f);
        let before = engine::findings_upto(input, c, engine_id, n - 1);
        let last = engine::entitlement_findings(input, c, engine_id, input.entitlements@[n - 1]);
        if now.contains(f) {
            let k = choose|k: int| 0 <= k < now.len() && now[k] == f;
            if k < before.len() {
                assert(before[k] == f);
                assert(before.contains(f));
            } else {
                assert(last[k - before.len()] == f);
                assert(last.contains(f));
            }
        }
        if exists|i: int|
            0 <= i < n && engine::entitlement_findings(
                input,
                c,
                engine_id,
                #[trigger] input.entitlements@[i],
            ).contains(f) {
            let i = choose|i: int|
                0 <= i < n && engine::entitlement_findings(
                    input,
                    c,
                    engine_id,
                    #[trigger] input.entitlements@[i],
                ).contains(f);
            if i == n - 1 {
                let k = choose|k: int| 0 <= k < last.len() && last[k] == f;
                assert(now[before.len() + k] == f);
            } else {
                assert(before.contains(f));
                let k = choose|k: int| 0 <= k < before.len() && before[k] == f;
                assert(now[k] == f);
            }
        }
    }
}

pub(crate) proof fn found_in_result(
    input: CampaignInput,
    c: RecertConfig,
    engine_id: Seq<char>,
    f: FindingView,
)
    ensures
        engine::evaluated(input, c, engine_id).contains(f) <==> exists|i: int|
            0 <= i < input.entitlements.len() && engine::entitlement_findings(
                input,
                c,
                engine_id,
                #[trigger] input.entitlements@[i],
            ).contains(f),
{
    let n = input.entitlements.len() as int;
    found_somewhere(input, c, engine_id, n, f);
    order::stable_sort_elements(
        engine::findings_upto(input, c, engine_id, n),
        |a: FindingView, b: FindingView| spine::finding_lt(a, b),
    );
}

/// Every finding names an entitlement of the campaign. Leavers and unmanaged
/// systems are breaches, and nothing else is; breaches, records set aside,
/// and four-eyes gaps need an approval, and nothing else does.
pub proof fn findings_are_gated_by_rule(
    input: CampaignInput,
    c: RecertConfig,
    engine_id: Seq<char>,
    k: int,
)
    requires
        0 <= k < engine::evaluated(input, c, engine_id).len(),
    ensures
        is_gated_right(engine::evaluated(input, c, engine_id)[k]),
        model::has_entitlement(
            input.entitlements@,
            engine::evaluated(input, c, engine_id)[k].subject,
            input.entitlements.len() as int,
        ),
{
    let f = engine::evaluated(input, c, engine_id)[k];
    assert(engine::evaluated(input, c, engine_id).contains(f));
    found_in_result(input, c, engine_id, f);
    let i = choose|i: int|
        0 <= i < input.entitlements.len() && engine::entitlement_findings(
            input,
            c,
            engine_id,
            #[trigger] input.entitlements@[i],
        ).contains(f);
    entitlement_found_once(input, c, engine_id, input.entitlements@[i]);
}

/// An entitlement whose employee id names no identity is never dropped: it is
/// set aside by a warning that needs an approval, and by nothing else.
pub proof fn unmatched_entitlements_are_quarantined(
    input: CampaignInput,
    c: RecertConfig,
    engine_id: Seq<char>,
    i: int,
)
    requires
        0 <= i < input.entitlements.len(),
        !model::has_identity(
            input.identities@,
            input.entitlements@[i].employee_id@,
            input.identities.len() as int,
        ),
    ensures
        ({
            let e = input.entitlements@[i];
            let f = engine::warning(
                RULE_QUARANTINE@,
                e.entitlement_id@,
                engine::quarantine_text(e),
                true,
            );
            &&& engine::entitlement_findings(input, c, engine_id, e) == seq![f]
            &&& engine::evaluated(input, c, engine_id).contains(f)
        }),
{
    let e = input.entitlements@[i];
    let f = engine::warning(RULE_QUARANTINE@, e.entitlement_id@, engine::quarantine_text(e), true);
    identity_is_found(input.identities@, e.employee_id@, input.identities.len() as int);
    let s = engine::entitlement_findings(input, c, engine_id, e);
    assert(s[0] == f);
    assert(s.contains(f));
    found_in_result(input, c, engine_id, f);
}

/// The grace of a new hire spares the manager and the authentication, and
/// neither a separation nor an unmanaged system nor a four-eyes gap.
pub proof fn grace_spares_two_rules(
    input: CampaignInput,
    c: RecertConfig,
    engine_id: Seq<char>,
    e: EntitlementRecord,
    x: IdentityRecord,
)
    requires
        engine::is_new_hire(x, input.campaign_date.day(), c),
    ensures
        ({
            let s = engine::matched_findings(input, c, engine_id, e, x);
            &&& forall|i: int|
                0 <= i < s.len() ==> (#[trigger] s[i]).rule_id != RULE_ORPHAN_MANAGER@
                    && s[i].rule_id != RULE_STALE_AUTH@
            &&& s == engine::leaver_findings(e, x, input.campaign_date.day()) + engine::finding_if(
                !engine::is_managed(input.systems@, e.system_id@),
                spine::breach_of(
                    RULE_ORPHAN_SYSTEM@,
                    e.entitlement_id@,
                    engine::orphan_system_text(e),
                ),
            ) + engine::finding_if(
                e.privileged && !engine::approved_twice(
                    engine_id,
                    spine::signoffs_view(input.retention_approvals@),
                    e.entitlement_id@,
                ),
                engine::warning(
                    RULE_PRIVILEGED_FOUR_EYES@,
                    e.entitlement_id@,
                    engine::four_eyes_text(e),
                    true,
                ),
            )
        }),
{
    rules_differ();
    let s = engine::matched_findings(input, c, engine_id, e, x);
    assert(s =~= engine::leaver_findings(e, x, input.campaign_date.day()) + engine::finding_if(
        !engine::is_managed(input.systems@, e.system_id@),
        spine::breach_of(RULE_ORPHAN_SYSTEM@, e.entitlement_id@, engine::orphan_system_text(e)),
    ) + engine::finding_if(
        e.privileged && !engine::approved_twice(
            engine_id,
            spine::signoffs_view(input.retention_approvals@),
            e.entitlement_id@,
        ),
        engine::warning(
            RULE_PRIVILEGED_FOUR_EYES@,
            e.entitlement_id@,
            engine::four_eyes_text(e),
            true,
        ),
    ));
}

// ---- what findings do not depend on ----

/// Whether two identities agree in all but their email and name.
pub open spec fn same_identity(a: IdentityRecord, b: IdentityRecord) -> bool {
    &&& a.employee_id@ == b.employee_id@
    &&& (match (a.manager_id, b.manager_id) {
        (Some(m), Some(n)) => m@ == n@,
        (None, None) => true,
        _ => false,
    })
    &&& a.hire_date.day() == b.hire_date.day()
    &&& same_day(a.separation_date, b.separation_date)
}

pub open spec fn same_day(a: Option<crate::date::Date>, b: Option<crate::date::Date>) -> bool {
    match (a, b) {
        (Some(d), Some(e)) => d.day() == e.day(),
        (None, None) => true,
        _ => false,
    }
}

/// Whether two entitlements agree in all but their email and key.
pub open spec fn same_entitlement(a: EntitlementRecord, b: EntitlementRecord) -> bool {
    &&& a.entitlement_id@ == b.entitlement_id@
    &&& a.system_id@ == b.system_id@
    &&& a.employee_id@ == b.employee_id@
    &&& a.privileged == b.privileged
    &&& same_day(a.last_authenticated_at, b.last_authenticated_at)
}

/// Whether two campaigns agree in all but emails, names, keys, and grant
/// dates.
pub open spec fn same_but_for_emails(a: CampaignInput, b: CampaignInput) -> bool {
    &&& a.campaign_date.day() == b.campaign_date.day()
    &&& a.identities.len() == b.identities.len()
    &&& forall|i: int|
        0 <= i < a.identities.len() ==> same_identity(
            #[trigger] a.identities@[i],
            #[trigger] b.identities@[i],
        )
    &&& a.systems.len() == b.systems.len()
    &&& forall|i: int|
        0 <= i < a.systems.len() ==> (#[trigger] a.systems@[i]).system_id@ == (
        #[trigger] b.systems@[i]).system_id@
    &&& a.entitlements.len() == b.entitlements.len()
    &&& forall|i: int|
        0 <= i < a.entitlements.len() ==> same_entitlement(
            #[trigger] a.entitlements@[i],
            #[trigger] b.entitlements@[i],
        )
    &&& spine::signoffs_view(a.retention_approvals@) == spine::signoffs_view(
        b.retention_approvals@,
    )
}

proof fn same_places(a: CampaignInput, b: CampaignInput, id: Seq<char>, n: int)
    requires
        same_but_for_emails(a, b),
        0 <= n <= a.identities.len(),
    ensures
        engine::identity_of(a.identities@, id, n) == engine::identity_of(b.identities@, id, n),
    decreases n,
{
    if n > 0 {
        same_places(a, b, id, n - 1);
        assert(same_identity(a.identities@[n - 1], b.identities@[n - 1]));
    }
}

proof fn same_members(a: CampaignInput, b: CampaignInput, id: Seq<char>)
    requires
        same_but_for_emails(a, b),
    ensures
        engine::is_managed(a.systems@, id) == engine::is_managed(b.systems@, id),
        model::has_identity(a.identities@, id, a.identities.len() as int) == model::has_identity(
            b.identities@,
            id,
            b.identities.len() as int,
        ),
{
    if engine::is_managed(a.systems@, id) {
        let k = choose|k: int| 0 <= k < a.systems.len() && (#[trigger] a.systems@[k]).system_id@ == id;
        assert(b.systems@[k].system_id@ == id);
    }
    if engine::is_managed(b.systems@, id) {
        let k = choose|k: int| 0 <= k < b.systems.len() && (#[trigger] b.systems@[k]).system_id@ == id;
        assert(a.systems@[k].system_id@ == id);
    }
    same_places(a, b, id, a.identities.len() as int);
    identity_is_found(a.identities@, id, a.identities.len() as int);
    identity_is_found(b.identities@, id, b.identities.len() as int);
    match engine::identity_of(a.identities@, id, a.identities.len() as int) {
        Some(k) => {
            assert(a.identities@[k].employee_id@ == id);
            assert(b.identities@[k].employee_id@ == id);
        },
        None => {},
    }
}

proof fn same_findings_upto(
    a: CampaignInput,
    b: CampaignInput,
    c: RecertConfig,
    engine_id: Seq<char>,
    n: int,
)
    requires
        same_but_for_emails(a, b),
        0 <= n <= a.entitlements.len(),
    ensures
        engine::findings_upto(a, c, engine_id, n) == engine::findings_upto(b, c, engine_id, n),
    decreases n,
{
    if n > 0 {
        same_findings_upto(a, b, c, engine_id, n - 1);
        let d = a.entitlements@[n - 1];
        let e = b.entitlements@[n - 1];
        assert(same_entitlement(d, e));
        same_places(a, b, d.employee_id@, a.identities.len() as int);
        identity_is_found(a.identities@, d.employee_id@, a.identities.len() as int);
        same_members(a, b, d.system_id@);
        match engine::identity_of(a.identities@, d.employee_id@, a.identities.len() as int) {
            Some(k) => {
                let x = a.identities@[k];
                let y = b.identities@[k];
                assert(same_identity(x, y));
                match x.manager_id {
                    Some(m) => same_members(a, b, m@),
                    None => {},
                }
                assert(engine::has_manager(x, a.identities@) == engine::has_manager(
                    y,
                    b.identities@,
                ));
                assert(engine::matched_findings(a, c, engine_id, d, x)
                    == engine::matched_findings(b, c, engine_id, e, y));
            },
            None => {},
        }
    }
}

/// Emails are never used: campaigns that differ in emails alone, in names, or
/// in the keys of entitlements have the same findings.
pub proof fn emails_are_never_used(
    a: CampaignInput,
    b: CampaignInput,
    c: RecertConfig,
    engine_id: Seq<char>,
)
    requires
        same_but_for_emails(a, b),
    ensures
        engine::evaluated(a, c, engine_id) == engine::evaluated(b, c, engine_id),
{
    same_findings_upto(a, b, c, engine_id, a.entitlements.len() as int);
}

/// Whether two campaigns hold the same records, in any order.
pub open spec fn same_records(a: CampaignInput, b: CampaignInput) -> bool {
    &&& a.campaign_id@ == b.campaign_id@
    &&& a.campaign_date.day() == b.campaign_date.day()
    &&& model::identities_view(a.identities@).to_multiset() == model::identities_view(
        b.identities@,
    ).to_multiset()
    &&& model::systems_view(a.systems@).to_multiset() == model::systems_view(
        b.systems@,
    ).to_multiset()
    &&& model::entitlements_view(a.entitlements@).to_multiset() == model::entitlements_view(
        b.entitlements@,
    ).to_multiset()
    &&& spine::signoffs_view(a.retention_approvals@).to_multiset() == spine::signoffs_view(
        b.retention_approvals@,
    ).to_multiset()
}

proof fn held_in_both<A>(s: Seq<A>, t: Seq<A>, i: int) -> (k: int)
    requires
        s.to_multiset() == t.to_multiset(),
        0 <= i < s.len(),
    ensures
        0 <= k < t.len(),
        t[k] == s[i],
{
    assert(s.contains(s[i]));
    vstd::seq_lib::to_multiset_contains(s, s[i]);
    vstd::seq_lib::to_multiset_contains(t, s[i]);
    choose|k: int| 0 <= k < t.len() && t[k] == s[i]
}

proof fn same_identity_in_both(
    s: Seq<IdentityRecord>,
    t: Seq<IdentityRecord>,
    i: int,
) -> (k: int)
    requires
        model::identities_view(s).to_multiset() == model::identities_view(t).to_multiset(),
        0 <= i < s.len(),
    ensures
        0 <= k < t.len(),
        t[k]@ == s[i]@,
{
    let k = held_in_both(model::identities_view(s), model::identities_view(t), i);
    assert(model::identities_view(t)[k] == t[k]@ && model::identities_view(s)[i] == s[i]@);
    k
}

proof fn same_entitlement_in_both(
    s: Seq<EntitlementRecord>,
    t: Seq<EntitlementRecord>,
    i: int,
) -> (k: int)
    requires
        model::entitlements_view(s).to_multiset() == model::entitlements_view(t).to_multiset(),
        0 <= i < s.len(),
    ensures
        0 <= k < t.len(),
        t[k]@ == s[i]@,
{
    let k = held_in_both(model::entitlements_view(s), model::entitlements_view(t), i);
    assert(model::entitlements_view(t)[k] == t[k]@ && model::entitlements_view(s)[i] == s[i]@);
    k
}

proof fn identities_differ(s: Seq<IdentityRecord>, campaign: int, n: int, i: int, j: int)
    requires
        model::identities_problems(s, campaign, n).len() == 0,
        0 <= i < j < n <= s.len(),
    ensures
        s[i].employee_id@ != s[j].employee_id@,
    decreases n,
{
    assert(model::identities_problems(s, campaign, n).len() == model::identities_problems(
        s,
        campaign,
        n - 1,
    ).len() + model::identity_problems(s, campaign, n - 1).len());
    if j < n - 1 {
        identities_differ(s, campaign, n - 1, i, j);
    } else {
        assert(!model::has_identity(s, s[j].employee_id@, j));
    }
}

proof fn entitlements_differ(s: Seq<EntitlementRecord>, campaign: int, n: int, i: int, j: int)
    requires
        model::entitlements_problems(s, campaign, n).len() == 0,
        0 <= i < j < n <= s.len(),
    ensures
        s[i].entitlement_id@ != s[j].entitlement_id@,
    decreases n,
{
    assert(model::entitlements_problems(s, campaign, n).len() == model::entitlements_problems(
        s,
        campaign,
        n - 1,
    ).len() + model::entitlement_problems(s, campaign, n - 1).len());
    if j < n - 1 {
        entitlements_differ(s, campaign, n - 1, i, j);
    } else {
        assert(!model::has_entitlement(s, s[j].entitlement_id@, j));
    }
}

proof fn employed_in_both(s: Seq<IdentityRecord>, t: Seq<IdentityRecord>, id: Seq<char>)
    requires
        model::identities_view(s).to_multiset() == model::identities_view(t).to_multiset(),
        model::has_identity(s, id, s.len() as int),
    ensures
        model::has_identity(t, id, t.len() as int),
{
    let i = choose|i: int| 0 <= i < s.len() && (#[trigger] s[i]).employee_id@ == id;
    let k = same_identity_in_both(s, t, i);
    assert(t[k].employee_id@ == id);
}

proof fn managed_in_both(s: Seq<SystemRecord>, t: Seq<SystemRecord>, id: Seq<char>)
    requires
        model::systems_view(s).to_multiset() == model::systems_view(t).to_multiset(),
        engine::is_managed(s, id),
    ensures
        engine::is_managed(t, id),
{
    let i = choose|i: int| 0 <= i < s.len() && (#[trigger] s[i]).system_id@ == id;
    let k = held_in_both(model::systems_view(s), model::systems_view(t), i);
    assert(model::systems_view(t)[k] == t[k]@ && model::systems_view(s)[i] == s[i]@);
    assert(t[k].system_id@ == id);
}

proof fn approved_in_both(
    engine_id: Seq<char>,
    s: Seq<SignoffView>,
    t: Seq<SignoffView>,
    subject: Seq<char>,
)
    requires
        s.to_multiset() == t.to_multiset(),
        engine::approved_twice(engine_id, s, subject),
    ensures
        engine::approved_twice(engine_id, t, subject),
{
    let (i, j) = choose|i: int, j: int|
        0 <= i < j < s.len() && #[trigger] engine::two_approve(engine_id, s[i], s[j], subject);
    let k = held_in_both(s, t, i);
    let l = held_in_both(s, t, j);
    let x = text::trimmed(s[i].actor);
    let y = text::trimmed(s[j].actor);
    assert(text::same_ignoring_case(x, x));
    assert(k != l);
    if text::same_ignoring_case(y, x) {
        assert(text::same_ignoring_case(x, y));
    }
    assert(engine::two_approve(engine_id, t[k], t[l], subject));
    assert(engine::two_approve(engine_id, t[l], t[k], subject));
}

/// An entitlement has the same findings in campaigns that hold the same
/// records.
proof fn entitlement_found_alike(
    a: CampaignInput,
    b: CampaignInput,
    c: RecertConfig,
    engine_id: Seq<char>,
    e: EntitlementRecord,
    g: EntitlementRecord,
)
    requires
        e@ == g@,
        same_records(a, b),
        model::problems(a).len() == 0,
        model::problems(b).len() == 0,
    ensures
        engine::entitlement_findings(a, c, engine_id, e) == engine::entitlement_findings(
            b,
            c,
            engine_id,
            g,
        ),
{
    let s = a.identities@;
    let t = b.identities@;
    let n = s.len() as int;
    let m = t.len() as int;
    let id = e.employee_id@;
    identity_is_found(s, id, n);
    identity_is_found(t, id, m);
    if engine::is_managed(a.systems@, e.system_id@) {
        managed_in_both(a.systems@, b.systems@, e.system_id@);
    }
    if engine::is_managed(b.systems@, e.system_id@) {
        managed_in_both(b.systems@, a.systems@, e.system_id@);
    }
    let p = spine::signoffs_view(a.retention_approvals@);
    let q = spine::signoffs_view(b.retention_approvals@);
    if engine::approved_twice(engine_id, p, e.entitlement_id@) {
        approved_in_both(engine_id, p, q, e.entitlement_id@);
    }
    if engine::approved_twice(engine_id, q, e.entitlement_id@) {
        approved_in_both(engine_id, q, p, e.entitlement_id@);
    }
    match engine::identity_of(s, id, n) {
        Some(k) => {
            let l = same_identity_in_both(s, t, k);
            let r = engine::identity_of(t, id, m)->0;
            assert(t[l].employee_id@ == id);
            if l < r {
                identities_differ(t, b.campaign_date.day(), m, l, r);
            } else if r < l {
                identities_differ(t, b.campaign_date.day(), m, r, l);
            }
            let x = s[k];
            let y = t[r];
            assert(y@ == x@);
            match x.manager_id {
                Some(boss) => {
                    if model::has_identity(s, boss@, n) {
                        employed_in_both(s, t, boss@);
                    }
                    if model::has_identity(t, boss@, m) {
                        employed_in_both(t, s, boss@);
                    }
                },
                None => {},
            }
            assert(engine::has_manager(x, s) == engine::has_manager(y, t));
            assert(engine::matched_findings(a, c, engine_id, e, x)
                == engine::matched_findings(b, c, engine_id, g, y));
        },
        None => {
            match engine::identity_of(t, id, m) {
                Some(r) => {
                    let l = same_identity_in_both(t, s, r);
                    assert(s[l].employee_id@ == id);
                },
                None => {},
            }
        },
    }
}

proof fn findings_are_flat(
    input: CampaignInput,
    c: RecertConfig,
    engine_id: Seq<char>,
    f: spec_fn(EntitlementView) -> Seq<FindingView>,
    n: int,
)
    requires
        0 <= n <= input.entitlements.len(),
        forall|e: EntitlementRecord| #[trigger]
            engine::entitlement_findings(input, c, engine_id, e) == f(e@),
    ensures
        engine::findings_upto(input, c, engine_id, n) == order::flat(
            model::entitlements_view(input.entitlements@).take(n),
            f,
        ),
    decreases n,
{
    let all = model::entitlements_view(input.entitlements@);
    if n > 0 {
        findings_are_flat(input, c, engine_id, f, n - 1);
        assert(all.take(n).drop_last() =~= all.take(n - 1));
        assert(all.take(n).last() == input.entitlements@[n - 1]@);
    } else {
        assert(all.take(n) =~= Seq::<EntitlementView>::empty());
    }
}

proof fn findings_told_apart(a: CampaignInput, c: RecertConfig, engine_id: Seq<char>)
    requires
        model::problems(a).len() == 0,
    ensures
        order::tells_apart(
            engine::findings_upto(a, c, engine_id, a.entitlements.len() as int),
            |x: FindingView, y: FindingView| spine::finding_lt(x, y),
        ),
{
    let n = a.entitlements.len() as int;
    let s = engine::findings_upto(a, c, engine_id, n);
    let lt = |x: FindingView, y: FindingView| spine::finding_lt(x, y);
    assert forall|x: FindingView, y: FindingView|
        s.contains(x) && s.contains(y) && x != y implies #[trigger] lt(x, y) || lt(y, x) by {
        found_somewhere(a, c, engine_id, n, x);
        found_somewhere(a, c, engine_id, n, y);
        let i = choose|i: int|
            0 <= i < n && engine::entitlement_findings(
                a,
                c,
                engine_id,
                #[trigger] a.entitlements@[i],
            ).contains(x);
        let j = choose|j: int|
            0 <= j < n && engine::entitlement_findings(
                a,
                c,
                engine_id,
                #[trigger] a.entitlements@[j],
            ).contains(y);
        entitlement_found_once(a, c, engine_id, a.entitlements@[i]);
        entitlement_found_once(a, c, engine_id, a.entitlements@[j]);
        text::text_lt_total(x.subject, y.subject);
        text::text_lt_total(x.rule_id, y.rule_id);
        if x.subject == y.subject {
            if i < j {
                entitlements_differ(a.entitlements@, a.campaign_date.day(), n, i, j);
            } else if j < i {
                entitlements_differ(a.entitlements@, a.campaign_date.day(), n, j, i);
            }
            let u = engine::entitlement_findings(a, c, engine_id, a.entitlements@[i]);
            let k = choose|k: int| 0 <= k < u.len() && u[k] == x;
            let l = choose|l: int| 0 <= l < u.len() && u[l] == y;
            assert(x.rule_id != y.rule_id);
        }
    }
}

proof fn found_once(input: CampaignInput, c: RecertConfig, engine_id: Seq<char>, n: int)
    requires
        model::problems(input).len() == 0,
        0 <= n <= input.entitlements.len(),
    ensures
        engine::findings_upto(input, c, engine_id, n).no_duplicates(),
    decreases n,
{
    if n > 0 {
        found_once(input, c, engine_id, n - 1);
        let all = input.entitlements@;
        let before = engine::findings_upto(input, c, engine_id, n - 1);
        let last = engine::entitlement_findings(input, c, engine_id, all[n - 1]);
        let now = engine::findings_upto(input, c, engine_id, n);
        entitlement_found_once(input, c, engine_id, all[n - 1]);
        assert forall|k: int, l: int|
            0 <= k < before.len() && 0 <= l < last.len() implies #[trigger] before[k]
            != #[trigger] last[l] by {
            assert(before.contains(before[k]));
            found_somewhere(input, c, engine_id, n - 1, before[k]);
            let i = choose|i: int|
                0 <= i < n - 1 && engine::entitlement_findings(
                    input,
                    c,
                    engine_id,
                    #[trigger] all[i],
                ).contains(before[k]);
            entitlement_found_once(input, c, engine_id, all[i]);
            entitlements_differ(all, input.campaign_date.day(), all.len() as int, i, n - 1);
        }
        assert forall|k: int, l: int|
            0 <= k < now.len() && 0 <= l < now.len() && k != l implies now[k] != now[l] by {
            let m = before.len() as int;
            if k < m && l < m {
                assert(before[k] != before[l]);
            } else if k < m {
                assert(before[k] != last[l - m]);
            } else if l < m {
                assert(before[l] != last[k - m]);
            } else if now[k] == now[l] {
                assert(last[k - m].rule_id == last[l - m].rule_id);
            }
        }
    }
}

/// Findings come by subject, and by rule for one subject; in a valid campaign
/// no rule finds a subject twice, so that this fixes their order.
pub proof fn findings_come_by_subject_and_rule(
    input: CampaignInput,
    c: RecertConfig,
    engine_id: Seq<char>,
)
    ensures
        order::is_sorted(
            engine::evaluated(input, c, engine_id),
            |a: FindingView, b: FindingView| spine::finding_lt(a, b),
        ),
        model::problems(input).len() == 0 ==> order::rises(
            engine::evaluated(input, c, engine_id),
            |a: FindingView, b: FindingView| spine::finding_lt(a, b),
        ),
{
    let n = input.entitlements.len() as int;
    let s = engine::findings_upto(input, c, engine_id, n);
    let lt = |a: FindingView, b: FindingView| spine::finding_lt(a, b);
    spine::finding_order();
    order::stable_sort_sorts(s, lt);
    if model::problems(input).len() == 0 {
        findings_told_apart(input, c, engine_id);
        found_once(input, c, engine_id, n);
        order::stable_sort_rises(s, lt);
    }
}

proof fn identities_stay_valid(
    s: Seq<IdentityRecord>,
    t: Seq<IdentityRecord>,
    campaign: int,
    n: int,
)
    requires
        model::identities_view(s).to_multiset() == model::identities_view(t).to_multiset(),
        model::identities_problems(s, campaign, s.len() as int).len() == 0,
        0 <= n <= t.len(),
    ensures
        model::identities_problems(t, campaign, n).len() == 0,
    decreases n,
{
    if n > 0 {
        identities_stay_valid(s, t, campaign, n - 1);
        let i = same_identity_in_both(t, s, n - 1);
        identity_is_valid(s, campaign, s.len() as int, i);
        let id = t[n - 1].employee_id@;
        if model::has_identity(t, id, n - 1) {
            let k = choose|k: int| 0 <= k < n - 1 && (#[trigger] t[k]).employee_id@ == id;
            let j = same_identity_in_both(t, s, k);
            if i < j {
                identities_differ(s, campaign, s.len() as int, i, j);
            } else if j < i {
                identities_differ(s, campaign, s.len() as int, j, i);
            } else {
                let x = model::identities_view(s);
                let y = model::identities_view(t);
                assert(x.no_duplicates()) by {
                    assert forall|p: int, q: int|
                        0 <= p < x.len() && 0 <= q < x.len() && p != q implies x[p] != x[q] by {
                        if p < q {
                            identities_differ(s, campaign, s.len() as int, p, q);
                        } else {
                            identities_differ(s, campaign, s.len() as int, q, p);
                        }
                    }
                }
                x.lemma_multiset_has_no_duplicates();
                y.lemma_multiset_has_no_duplicates_conv();
                assert(y[k] != y[n - 1]);
            }
        }
    }
}

proof fn identity_is_valid(s: Seq<IdentityRecord>, campaign: int, n: int, i: int)
    requires
        model::identities_problems(s, campaign, n).len() == 0,
        0 <= i < n <= s.len(),
    ensures
        model::identity_problems(s, campaign, i).len() == 0,
    decreases n,
{
    if i < n - 1 {
        identity_is_valid(s, campaign, n - 1, i);
    }
}

proof fn entitlements_stay_valid(
    s: Seq<EntitlementRecord>,
    t: Seq<EntitlementRecord>,
    campaign: int,
    n: int,
)
    requires
        model::entitlements_view(s).to_multiset() == model::entitlements_view(t).to_multiset(),
        model::entitlements_problems(s, campaign, s.len() as int).len() == 0,
        0 <= n <= t.len(),
    ensures
        model::entitlements_problems(t, campaign, n).len() == 0,
    decreases n,
{
    if n > 0 {
        entitlements_stay_valid(s, t, campaign, n - 1);
        let i = same_entitlement_in_both(t, s, n - 1);
        entitlement_is_valid(s, campaign, s.len() as int, i);
        let id = t[n - 1].entitlement_id@;
        if model::has_entitlement(t, id, n - 1) {
            let k = choose|k: int| 0 <= k < n - 1 && (#[trigger] t[k]).entitlement_id@ == id;
            let j = same_entitlement_in_both(t, s, k);
            if i < j {
                entitlements_differ(s, campaign, s.len() as int, i, j);
            } else if j < i {
                entitlements_differ(s, campaign, s.len() as int, j, i);
            } else {
                let x = model::entitlements_view(s);
                let y = model::entitlements_view(t);
                assert(x.no_duplicates()) by {
                    assert forall|p: int, q: int|
                        0 <= p < x.len() && 0 <= q < x.len() && p != q implies x[p] != x[q] by {
                        if p < q {
                            entitlements_differ(s, campaign, s.len() as int, p, q);
                        } else {
                            entitlements_differ(s, campaign, s.len() as int, q, p);
                        }
                    }
                }
                x.lemma_multiset_has_no_duplicates();
                y.lemma_multiset_has_no_duplicates_conv();
                assert(y[k] != y[n - 1]);
            }
        }
    }
}

proof fn entitlement_is_valid(s: Seq<EntitlementRecord>, campaign: int, n: int, i: int)
    requires
        model::entitlements_problems(s, campaign, n).len() == 0,
        0 <= i < n <= s.len(),
    ensures
        model::entitlement_problems(s, campaign, i).len() == 0,
    decreases n,
{
    if i < n - 1 {
        entitlement_is_valid(s, campaign, n - 1, i);
    }
}

proof fn reordering_keeps_validity(a: CampaignInput, b: CampaignInput)
    requires
        same_records(a, b),
        model::problems(a).len() == 0,
    ensures
        model::problems(b).len() == 0,
{
    let campaign = a.campaign_date.day();
    identities_stay_valid(a.identities@, b.identities@, campaign, b.identities.len() as int);
    entitlements_stay_valid(
        a.entitlements@,
        b.entitlements@,
        campaign,
        b.entitlements.len() as int,
    );
}

/// The order of identities, systems, entitlements, and approvals does not
/// matter: campaigns that hold the same records are both valid or neither is,
/// and where they are they have the same findings in the same order.
pub proof fn record_order_does_not_matter(
    a: CampaignInput,
    b: CampaignInput,
    c: RecertConfig,
    engine_id: Seq<char>,
)
    requires
        same_records(a, b),
    ensures
        model::problems(a).len() == 0 <==> model::problems(b).len() == 0,
        model::problems(a).len() == 0 ==> engine::evaluated(a, c, engine_id) == engine::evaluated(
            b,
            c,
            engine_id,
        ),
{
    if model::problems(a).len() == 0 {
        reordering_keeps_validity(a, b);
        same_findings(a, b, c, engine_id);
    }
    if model::problems(b).len() == 0 {
        reordering_keeps_validity(b, a);
    }
}

proof fn same_findings(
    a: CampaignInput,
    b: CampaignInput,
    c: RecertConfig,
    engine_id: Seq<char>,
)
    requires
        same_records(a, b),
        model::problems(a).len() == 0,
        model::problems(b).len() == 0,
    ensures
        engine::evaluated(a, c, engine_id) == engine::evaluated(b, c, engine_id),
{
    let n = a.entitlements.len() as int;
    let m = b.entitlements.len() as int;
    let x = model::entitlements_view(a.entitlements@);
    let y = model::entitlements_view(b.entitlements@);
    let f = |v: EntitlementView|
        engine::entitlement_findings(a, c, engine_id, choose|e: EntitlementRecord| e@ == v);
    assert forall|e: EntitlementRecord| #[trigger]
        engine::entitlement_findings(a, c, engine_id, e) == f(e@) by {
        let g = choose|g: EntitlementRecord| g@ == e@;
        entitlement_found_alike(a, a, c, engine_id, e, g);
    }
    assert forall|e: EntitlementRecord| #[trigger]
        engine::entitlement_findings(b, c, engine_id, e) == f(e@) by {
        let g = choose|g: EntitlementRecord| g@ == e@;
        entitlement_found_alike(a, b, c, engine_id, g, e);
    }
    findings_are_flat(a, c, engine_id, f, n);
    findings_are_flat(b, c, engine_id, f, m);
    assert(x.take(n) =~= x);
    assert(y.take(m) =~= y);
    order::flat_forgets_order(x, y, f);
    let s = engine::findings_upto(a, c, engine_id, n);
    let t = engine::findings_upto(b, c, engine_id, m);
    let lt = |x: FindingView, y: FindingView| spine::finding_lt(x, y);
    findings_told_apart(a, c, engine_id);
    spine::finding_order();
    order::stable_sort_forgets_order(s, t, lt);
}

// ---- packs ----

/// What comes of a campaign whose gate is open is evidence of it, for the
/// bytes that it was made from.
pub proof fn signed_documents_verify(
    d: PackDocument,
    input: CampaignInput,
    config: RecertConfig,
    inputs: Seq<u8>,
    params: Seq<u8>,
    signoffs: Seq<SignoffView>,
)
    requires
        pack::gate_open(pack::fresh_pack(input, config, inputs, params, signoffs)),
        d.lock_state == LockState::Signed,
        d.pack@ == spine::sealed_view(
            pack::fresh_pack(input, config, inputs, params, signoffs),
        ),
    ensures
        pack::is_signed_evidence(d, input, config, inputs, params),
{
    let fresh = pack::fresh_pack(input, config, inputs, params, signoffs);
    let p = d.pack@;
    assert(spine::body_text(p) == spine::body_text(fresh));
    assert forall|i: int| 0 <= i < p.findings.len() implies spine::is_resolved(
        p,
        #[trigger] p.findings[i],
    ) && !pack::lacks_two(p, p.findings[i]) by {
        assert(spine::is_resolved(fresh, fresh.findings[i]));
        assert(!pack::lacks_two(fresh, fresh.findings[i]));
    }
}

/// A document that awaits receipts is not evidence, whatever is presented.
pub proof fn parked_documents_are_refused(
    d: PackDocument,
    input: CampaignInput,
    config: RecertConfig,
    inputs: Seq<u8>,
    params: Seq<u8>,
    r: Result<(), PackVerificationError>,
)
    requires
        d.lock_state != LockState::Signed,
        pack::verification(d, input, config, inputs, params, r),
    ensures
        r == Err::<(), PackVerificationError>(PackVerificationError::NotSigned),
{
}

/// One approver never closes a four-eyes gap, not even on a pack that was
/// sealed in spite of it: evidence with such a finding has approvals of its
/// subject by two different humans.
pub proof fn four_eyes_gaps_need_two_humans(
    d: PackDocument,
    input: CampaignInput,
    config: RecertConfig,
    inputs: Seq<u8>,
    params: Seq<u8>,
    k: int,
)
    requires
        pack::is_signed_evidence(d, input, config, inputs, params),
        0 <= k < d.pack@.findings.len(),
        d.pack@.findings[k].rule_id == RULE_PRIVILEGED_FOUR_EYES@,
    ensures
        engine::approved_twice(
            d.pack@.engine_id,
            d.pack@.signoffs,
            d.pack@.findings[k].subject,
        ),
{
    assert(!pack::lacks_two(d.pack@, d.pack@.findings[k]));
}

} // verus!
