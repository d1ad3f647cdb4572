//! What the outcome of a campaign means for the people and the entitlements
//! in it.

use vstd::prelude::*;

use crate::access_recert::engine;
use crate::access_recert::explain;
use crate::access_recert::explain::Queue;
use crate::access_recert::laws;
use crate::access_recert::model;
use crate::access_recert::model::{CampaignInput, EntitlementRecord, RecertConfig};
use crate::access_recert::pack;
use crate::access_recert::pack::PackDocument;
use crate::spine;
use crate::spine::{FindingView, LockState, Severity, SignoffDecision, SignoffView};
use crate::text;

verus! {

/// Whether a rule finds a subject.
pub open spec fn is_found(s: Seq<FindingView>, subject: Seq<char>, rule: Seq<char>) -> bool {
    exists|k: int| 0 <= k < s.len() && (#[trigger] s[k]).subject == subject && s[k].rule_id == rule
}

/// Whether a rule finds a subject, by a breach that needs an approval.
pub open spec fn is_breach(s: Seq<FindingView>, subject: Seq<char>, rule: Seq<char>) -> bool {
    exists|k: int|
        0 <= k < s.len() && (#[trigger] s[k]).subject == subject && s[k].rule_id == rule
            && s[k].severity == Severity::Breach && s[k].requires_signoff
}

/// Whether a rule finds a subject, by a warning that needs an approval or
/// needs none.
pub open spec fn is_warning(
    s: Seq<FindingView>,
    subject: Seq<char>,
    rule: Seq<char>,
    gated: bool,
) -> bool {
    exists|k: int|
        0 <= k < s.len() && (#[trigger] s[k]).subject == subject && s[k].rule_id == rule
            && s[k].severity == Severity::Warn && s[k].requires_signoff == gated
}

/// Whether no id stands twice among the identities or the entitlements.
pub open spec fn ids_differ(input: CampaignInput) -> bool {
    &&& forall|i: int, j: int|
        0 <= i < j < input.identities.len() ==> (#[trigger] input.identities@[i]).employee_id@ != (
        #[trigger] input.identities@[j]).employee_id@
    &&& forall|i: int, j: int|
        0 <= i < j < input.entitlements.len() ==> (
        #[trigger] input.entitlements@[i]).entitlement_id@ != (
        #[trigger] input.entitlements@[j]).entitlement_id@
}

/// Whether entitlement `i` belongs to identity `k`.
pub open spec fn belongs(input: CampaignInput, i: int, k: int) -> bool {
    &&& 0 <= i < input.entitlements.len()
    &&& 0 <= k < input.identities.len()
    &&& input.entitlements@[i].employee_id@ == input.identities@[k].employee_id@
}

/// Whether a system stands on the list of managed systems.
pub open spec fn on_list(input: CampaignInput, system_id: Seq<char>) -> bool {
    exists|k: int| 0 <= k < input.systems.len() && (#[trigger] input.systems@[k]).system_id@
        == system_id
}

/// Whether an employee id is that of an identity.
pub open spec fn is_employed(input: CampaignInput, employee_id: Seq<char>) -> bool {
    exists|k: int|
        0 <= k < input.identities.len() && (#[trigger] input.identities@[k]).employee_id@
            == employee_id
}

/// Whether a receipt is the approval of a subject by someone with a name
/// other than the engine's.
pub open spec fn is_human_approval(
    s: SignoffView,
    engine_id: Seq<char>,
    subject: Seq<char>,
) -> bool {
    &&& s.decision == SignoffDecision::Approve
    &&& s.subject == subject
    &&& text::trimmed(s.actor).len() > 0
    &&& !text::same_ignoring_case(text::trimmed(s.actor), text::trimmed(engine_id))
}

/// Whether two receipts are approvals of a subject by two people.
pub open spec fn is_pair(
    a: SignoffView,
    b: SignoffView,
    engine_id: Seq<char>,
    subject: Seq<char>,
) -> bool {
    &&& is_human_approval(a, engine_id, subject)
    &&& is_human_approval(b, engine_id, subject)
    &&& !text::same_ignoring_case(text::trimmed(a.actor), text::trimmed(b.actor))
}

/// Whether receipts hold approvals of a subject by two people.
pub open spec fn two_people_approve(
    s: Seq<SignoffView>,
    engine_id: Seq<char>,
    subject: Seq<char>,
) -> bool {
    exists|a: int, b: int|
        0 <= a < s.len() && 0 <= b < s.len() && #[trigger] is_pair(s[a], s[b], engine_id, subject)
}

proof fn two_people(s: Seq<SignoffView>, engine_id: Seq<char>, subject: Seq<char>)
    ensures
        engine::approved_twice(engine_id, s, subject) <==> two_people_approve(
            s,
            engine_id,
            subject,
        ),
{
    if engine::approved_twice(engine_id, s, subject) {
        let (i, j) = choose|i: int, j: int|
            0 <= i < j < s.len() && #[trigger] engine::two_approve(engine_id, s[i], s[j], subject);
        assert(is_pair(s[i], s[j], engine_id, subject));
    }
    if two_people_approve(s, engine_id, subject) {
        let (a, b) = choose|a: int, b: int|
            0 <= a < s.len() && 0 <= b < s.len() && #[trigger] is_pair(
                s[a],
                s[b],
                engine_id,
                subject,
            );
        let x = text::trimmed(s[a].actor);
        let y = text::trimmed(s[b].actor);
        if a == b {
            assert(text::same_ignoring_case(x, x));
        }
        if text::same_ignoring_case(y, x) {
            assert(text::same_ignoring_case(x, y));
        }
        assert(engine::two_approve(engine_id, s[a], s[b], subject));
        assert(engine::two_approve(engine_id, s[b], s[a], subject));
    }
}

proof fn names_differ()
    ensures
        "leaver-active-entitlement"@.len() == 25,
        "orphan-system"@.len() == 13,
        "orphan-manager"@.len() == 14,
        "stale-auth"@.len() == 10,
        "privileged-four-eyes"@.len() == 20,
        "quarantine"@.len() == 10,
        "stale-auth"@ != "quarantine"@,
{
    reveal_strlit("leaver-active-entitlement");
    reveal_strlit("orphan-system");
    reveal_strlit("orphan-manager");
    reveal_strlit("stale-auth");
    reveal_strlit("privileged-four-eyes");
    reveal_strlit("quarantine");
    assert("stale-auth"@[0] == 's');
    assert("quarantine"@[0] == 'q');
}

/// The facts from which the rules judge an entitlement of an identity.
struct Facts {
    leaver: bool,
    system: bool,
    manager: bool,
    stale: bool,
    gap: bool,
}

spec fn facts_of(
    input: CampaignInput,
    c: RecertConfig,
    engine_id: Seq<char>,
    i: int,
    k: int,
) -> Facts {
    let e = input.entitlements@[i];
    let x = input.identities@[k];
    let campaign = input.campaign_date.day();
    let settled = campaign - x.hire_date.day() > c.new_hire_grace_days;
    Facts {
        leaver: x.separation_date is Some && x.separation_date->0.day() < campaign,
        system: !on_list(input, e.system_id@),
        manager: settled && !(x.manager_id is Some && is_employed(input, x.manager_id->0@)),
        stale: settled && (e.last_authenticated_at is None || campaign
            - e.last_authenticated_at->0.day() > c.stale_days),
        gap: e.privileged && !two_people_approve(
            spine::signoffs_view(input.retention_approvals@),
            engine_id,
            e.entitlement_id@,
        ),
    }
}

/// A finding is told of an entitlement exactly when the entitlement's own
/// findings hold it.
proof fn told_of(
    input: CampaignInput,
    c: RecertConfig,
    engine_id: Seq<char>,
    i: int,
    f: FindingView,
)
    requires
        ids_differ(input),
        0 <= i < input.entitlements.len(),
        f.subject == input.entitlements@[i].entitlement_id@,
    ensures
        engine::evaluated(input, c, engine_id).contains(f) <==> engine::entitlement_findings(
            input,
            c,
            engine_id,
            input.entitlements@[i],
        ).contains(f),
{
    laws::found_in_result(input, c, engine_id, f);
    if engine::evaluated(input, c, engine_id).contains(f) {
        let j = choose|j: int|
            0 <= j < input.entitlements.len() && engine::entitlement_findings(
                input,
                c,
                engine_id,
                #[trigger] input.entitlements@[j],
            ).contains(f);
        subjects_are_own(input, c, engine_id, input.entitlements@[j], f);
        if i < j {
            assert(input.entitlements@[i].entitlement_id@
                != input.entitlements@[j].entitlement_id@);
        } else if j < i {
            assert(input.entitlements@[j].entitlement_id@
                != input.entitlements@[i].entitlement_id@);
        }
    }
}

proof fn subjects_are_own(
    input: CampaignInput,
    c: RecertConfig,
    engine_id: Seq<char>,
    e: EntitlementRecord,
    f: FindingView,
)
    requires
        engine::entitlement_findings(input, c, engine_id, e).contains(f),
    ensures
        f.subject == e.entitlement_id@,
{
}

/// Which findings an entitlement of an identity has.
proof fn own_findings(
    input: CampaignInput,
    c: RecertConfig,
    engine_id: Seq<char>,
    i: int,
    k: int,
    f: FindingView,
)
    requires
        ids_differ(input),
        belongs(input, i, k),
        engine::entitlement_findings(input, c, engine_id, input.entitlements@[i]).contains(f),
    ensures
        ({
            let t = facts_of(input, c, engine_id, i, k);
            ||| t.leaver && f.rule_id == "leaver-active-entitlement"@ && f.severity
                == Severity::Breach && f.requires_signoff
            ||| t.system && f.rule_id == "orphan-system"@ && f.severity == Severity::Breach
                && f.requires_signoff
            ||| t.manager && f.rule_id == "orphan-manager"@ && f.severity == Severity::Warn
                && !f.requires_signoff
            ||| t.stale && f.rule_id == "stale-auth"@ && f.severity == Severity::Warn
                && !f.requires_signoff
            ||| t.gap && f.rule_id == "privileged-four-eyes"@ && f.severity == Severity::Warn
                && f.requires_signoff
        }),
{
    identity_is_that(input, i, k);
    two_people(
        spine::signoffs_view(input.retention_approvals@),
        engine_id,
        input.entitlements@[i].entitlement_id@,
    );
}

proof fn identity_is_that(input: CampaignInput, i: int, k: int)
    requires
        ids_differ(input),
        belongs(input, i, k),
    ensures
        engine::identity_of(
            input.identities@,
            input.entitlements@[i].employee_id@,
            input.identities.len() as int,
        ) == Some(k),
{
    let id = input.entitlements@[i].employee_id@;
    let n = input.identities.len() as int;
    laws::identity_is_found(input.identities@, id, n);
    let l = engine::identity_of(input.identities@, id, n)->0;
    if l < k {
        assert(input.identities@[l].employee_id@ != input.identities@[k].employee_id@);
    } else if k < l {
        assert(input.identities@[k].employee_id@ != input.identities@[l].employee_id@);
    }
}

/// The findings that an entitlement of an identity must have.
proof fn due_findings(
    input: CampaignInput,
    c: RecertConfig,
    engine_id: Seq<char>,
    i: int,
    k: int,
)
    requires
        ids_differ(input),
        belongs(input, i, k),
    ensures
        ({
            let t = facts_of(input, c, engine_id, i, k);
            let id = input.entitlements@[i].entitlement_id@;
            let s = engine::entitlement_findings(input, c, engine_id, input.entitlements@[i]);
            &&& t.leaver ==> is_breach(s, id, "leaver-active-entitlement"@)
            &&& t.system ==> is_breach(s, id, "orphan-system"@)
            &&& t.manager ==> is_warning(s, id, "orphan-manager"@, false)
            &&& t.stale ==> is_warning(s, id, "stale-auth"@, false)
            &&& t.gap ==> is_warning(s, id, "privileged-four-eyes"@, true)
        }),
{
    let e = input.entitlements@[i];
    let x = input.identities@[k];
    let id = e.entitlement_id@;
    let t = facts_of(input, c, engine_id, i, k);
    let s = engine::entitlement_findings(input, c, engine_id, e);
    identity_is_that(input, i, k);
    two_people(spine::signoffs_view(input.retention_approvals@), engine_id, id);
    let campaign = input.campaign_date.day();
    let grace = engine::is_new_hire(x, campaign, c);
    let a = engine::leaver_findings(e, x, campaign);
    let b = engine::finding_if(
        !engine::is_managed(input.systems@, e.system_id@),
        spine::breach_of(engine::RULE_ORPHAN_SYSTEM@, id, engine::orphan_system_text(e)),
    );
    let d = engine::finding_if(
        !grace && !engine::has_manager(x, input.identities@),
        engine::warning(engine::RULE_ORPHAN_MANAGER@, id, engine::orphan_manager_text(x), false),
    );
    let f = engine::finding_if(
        !grace && engine::is_stale(e, campaign, c),
        engine::warning(engine::RULE_STALE_AUTH@, id, engine::stale_text(e, campaign, c), false),
    );
    let g = engine::finding_if(
        e.privileged && !engine::approved_twice(
            engine_id,
            spine::signoffs_view(input.retention_approvals@),
            id,
        ),
        engine::warning(engine::RULE_PRIVILEGED_FOUR_EYES@, id, engine::four_eyes_text(e), true),
    );
    assert(s == a + b + d + f + g);
    let n1 = a.len() as int;
    let n2 = n1 + b.len();
    let n3 = n2 + d.len();
    let n4 = n3 + f.len();
    if t.leaver {
        assert(s[0] == a[0]);
    }
    if t.system {
        assert(s[n1] == b[0]);
    }
    if t.manager {
        assert(s[n2] == d[0]);
    }
    if t.stale {
        assert(s[n3] == f[0]);
    }
    if t.gap {
        assert(s[n4] == g[0]);
    }
}

/// Every finding on an entitlement of an identity, and none but these.
proof fn outcome_of_known(
    input: CampaignInput,
    c: RecertConfig,
    engine_id: Seq<char>,
    i: int,
    k: int,
)
    requires
        ids_differ(input),
        belongs(input, i, k),
    ensures
        ({
            let t = facts_of(input, c, engine_id, i, k);
            let id = input.entitlements@[i].entitlement_id@;
            let s = engine::evaluated(input, c, engine_id);
            &&& is_found(s, id, "leaver-active-entitlement"@) <==> t.leaver
            &&& is_breach(s, id, "leaver-active-entitlement"@) <==> t.leaver
            &&& is_found(s, id, "orphan-system"@) <==> t.system
            &&& is_breach(s, id, "orphan-system"@) <==> t.system
            &&& is_found(s, id, "orphan-manager"@) <==> t.manager
            &&& is_warning(s, id, "orphan-manager"@, false) <==> t.manager
            &&& is_found(s, id, "stale-auth"@) <==> t.stale
            &&& is_warning(s, id, "stale-auth"@, false) <==> t.stale
            &&& is_found(s, id, "privileged-four-eyes"@) <==> t.gap
            &&& is_warning(s, id, "privileged-four-eyes"@, true) <==> t.gap
            &&& !is_found(s, id, "quarantine"@)
        }),
{
    let t = facts_of(input, c, engine_id, i, k);
    let id = input.entitlements@[i].entitlement_id@;
    let s = engine::evaluated(input, c, engine_id);
    let own = engine::entitlement_findings(input, c, engine_id, input.entitlements@[i]);
    names_differ();
    assert forall|j: int| 0 <= j < s.len() && (#[trigger] s[j]).subject == id implies (
    (s[j].rule_id == "leaver-active-entitlement"@ ==> t.leaver) && (s[j].rule_id
        == "orphan-system"@ ==> t.system) && (s[j].rule_id == "orphan-manager"@ ==> t.manager) && (
    s[j].rule_id == "stale-auth"@ ==> t.stale) && (s[j].rule_id == "privileged-four-eyes"@
        ==> t.gap) && s[j].rule_id != "quarantine"@) by {
        assert(s.contains(s[j]));
        told_of(input, c, engine_id, i, s[j]);
        own_findings(input, c, engine_id, i, k, s[j]);
    }
    due_findings(input, c, engine_id, i, k);
    assert forall|j: int| 0 <= j < own.len() implies s.contains(#[trigger] own[j]) by {
        assert(own.contains(own[j]));
        subjects_are_own(input, c, engine_id, input.entitlements@[i], own[j]);
        told_of(input, c, engine_id, i, own[j]);
    }
    if t.leaver {
        let j = choose|j: int|
            0 <= j < own.len() && (#[trigger] own[j]).subject == id && own[j].rule_id
                == "leaver-active-entitlement"@ && own[j].severity == Severity::Breach
                && own[j].requires_signoff;
        assert(s.contains(own[j]));
        let l = choose|l: int| 0 <= l < s.len() && s[l] == own[j];
        assert(s[l].subject == id);
    }
    if t.system {
        let j = choose|j: int|
            0 <= j < own.len() && (#[trigger] own[j]).subject == id && own[j].rule_id
                == "orphan-system"@ && own[j].severity == Severity::Breach
                && own[j].requires_signoff;
        assert(s.contains(own[j]));
        let l = choose|l: int| 0 <= l < s.len() && s[l] == own[j];
        assert(s[l].subject == id);
    }
    if t.manager {
        let j = choose|j: int|
            0 <= j < own.len() && (#[trigger] own[j]).subject == id && own[j].rule_id
                == "orphan-manager"@ && own[j].severity == Severity::Warn
                && own[j].requires_signoff == false;
        assert(s.contains(own[j]));
        let l = choose|l: int| 0 <= l < s.len() && s[l] == own[j];
        assert(s[l].subject == id);
    }
    if t.stale {
        let j = choose|j: int|
            0 <= j < own.len() && (#[trigger] own[j]).subject == id && own[j].rule_id
                == "stale-auth"@ && own[j].severity == Severity::Warn
                && own[j].requires_signoff == false;
        assert(s.contains(own[j]));
        let l = choose|l: int| 0 <= l < s.len() && s[l] == own[j];
        assert(s[l].subject == id);
    }
    if t.gap {
        let j = choose|j: int|
            0 <= j < own.len() && (#[trigger] own[j]).subject == id && own[j].rule_id
                == "privileged-four-eyes"@ && own[j].severity == Severity::Warn
                && own[j].requires_signoff == true;
        assert(s.contains(own[j]));
        let l = choose|l: int| 0 <= l < s.len() && s[l] == own[j];
        assert(s[l].subject == id);
    }
}

/// An entitlement of one who has left is a breach that needs an approval:
/// exactly where the identity has a separation date and that date lies before
/// the campaign date, however long before.
pub proof fn leavers_are_breaches(
    input: CampaignInput,
    c: RecertConfig,
    engine_id: Seq<char>,
    i: int,
    k: int,
)
    requires
        ids_differ(input),
        belongs(input, i, k),
    ensures
        ({
            let s = engine::evaluated(input, c, engine_id);
            let id = input.entitlements@[i].entitlement_id@;
            let left = input.identities@[k].separation_date;
            &&& is_found(s, id, "leaver-active-entitlement"@) <==> left is Some && left->0.day()
                < input.campaign_date.day()
            &&& is_found(s, id, "leaver-active-entitlement"@) ==> is_breach(
                s,
                id,
                "leaver-active-entitlement"@,
            )
        }),
{
    outcome_of_known(input, c, engine_id, i, k);
}

/// An entitlement on a system that is not on the list of managed systems is a
/// breach that needs an approval, and no other is.
pub proof fn unmanaged_systems_are_breaches(
    input: CampaignInput,
    c: RecertConfig,
    engine_id: Seq<char>,
    i: int,
    k: int,
)
    requires
        ids_differ(input),
        belongs(input, i, k),
    ensures
        ({
            let s = engine::evaluated(input, c, engine_id);
            let e = input.entitlements@[i];
            &&& is_found(s, e.entitlement_id@, "orphan-system"@) <==> !on_list(
                input,
                e.system_id@,
            )
            &&& is_found(s, e.entitlement_id@, "orphan-system"@) ==> is_breach(
                s,
                e.entitlement_id@,
                "orphan-system"@,
            )
        }),
{
    outcome_of_known(input, c, engine_id, i, k);
}

/// A manager is missed exactly where the identity was hired more days ago
/// than the grace lasts, and names no manager or one who is no identity.
pub proof fn missing_managers_are_warned_of(
    input: CampaignInput,
    c: RecertConfig,
    engine_id: Seq<char>,
    i: int,
    k: int,
)
    requires
        ids_differ(input),
        belongs(input, i, k),
    ensures
        ({
            let s = engine::evaluated(input, c, engine_id);
            let id = input.entitlements@[i].entitlement_id@;
            let x = input.identities@[k];
            &&& is_found(s, id, "orphan-manager"@) <==> input.campaign_date.day()
                - x.hire_date.day() > c.new_hire_grace_days && (x.manager_id is None
                || !is_employed(input, x.manager_id->0@))
            &&& is_found(s, id, "orphan-manager"@) ==> is_warning(s, id, "orphan-manager"@, false)
        }),
{
    outcome_of_known(input, c, engine_id, i, k);
}

/// An authentication is stale exactly where the identity was hired more days
/// ago than the grace lasts, and none is recorded or the last one lies more
/// days back than the window.
pub proof fn stale_authentications_are_warned_of(
    input: CampaignInput,
    c: RecertConfig,
    engine_id: Seq<char>,
    i: int,
    k: int,
)
    requires
        ids_differ(input),
        belongs(input, i, k),
    ensures
        ({
            let s = engine::evaluated(input, c, engine_id);
            let e = input.entitlements@[i];
            let id = e.entitlement_id@;
            let campaign = input.campaign_date.day();
            &&& is_found(s, id, "stale-auth"@) <==> campaign
                - input.identities@[k].hire_date.day() > c.new_hire_grace_days && (
            e.last_authenticated_at is None || campaign - e.last_authenticated_at->0.day()
                > c.stale_days)
            &&& is_found(s, id, "stale-auth"@) ==> is_warning(s, id, "stale-auth"@, false)
        }),
{
    outcome_of_known(input, c, engine_id, i, k);
}

/// Privileged access lacks four eyes exactly where no two people, neither of
/// them the engine, approve to retain it; the finding needs an approval.
pub proof fn privileged_access_needs_two_people(
    input: CampaignInput,
    c: RecertConfig,
    engine_id: Seq<char>,
    i: int,
    k: int,
)
    requires
        ids_differ(input),
        belongs(input, i, k),
    ensures
        ({
            let s = engine::evaluated(input, c, engine_id);
            let e = input.entitlements@[i];
            let id = e.entitlement_id@;
            &&& is_found(s, id, "privileged-four-eyes"@) <==> e.privileged && !two_people_approve(
                spine::signoffs_view(input.retention_approvals@),
                engine_id,
                id,
            )
            &&& is_found(s, id, "privileged-four-eyes"@) ==> is_warning(
                s,
                id,
                "privileged-four-eyes"@,
                true,
            )
        }),
{
    outcome_of_known(input, c, engine_id, i, k);
}

/// An entitlement is set aside, by a warning that needs an approval, exactly
/// where its employee id is that of no identity.
pub proof fn only_unmatched_entitlements_are_set_aside(
    input: CampaignInput,
    c: RecertConfig,
    engine_id: Seq<char>,
    i: int,
)
    requires
        ids_differ(input),
        0 <= i < input.entitlements.len(),
    ensures
        ({
            let s = engine::evaluated(input, c, engine_id);
            let e = input.entitlements@[i];
            &&& is_found(s, e.entitlement_id@, "quarantine"@) <==> !is_employed(
                input,
                e.employee_id@,
            )
            &&& !is_employed(input, e.employee_id@) ==> is_warning(
                s,
                e.entitlement_id@,
                "quarantine"@,
                true,
            )
        }),
{
    let s = engine::evaluated(input, c, engine_id);
    let e = input.entitlements@[i];
    if is_employed(input, e.employee_id@) {
        let k = choose|k: int|
            0 <= k < input.identities.len() && (#[trigger] input.identities@[k]).employee_id@
                == e.employee_id@;
        outcome_of_known(input, c, engine_id, i, k);
    } else {
        laws::unmatched_entitlements_are_quarantined(input, c, engine_id, i);
        let f = engine::warning(
            engine::RULE_QUARANTINE@,
            e.entitlement_id@,
            engine::quarantine_text(e),
            true,
        );
        let k = choose|k: int| 0 <= k < s.len() && s[k] == f;
        assert(s[k].subject == e.entitlement_id@);
    }
}

// ---- validation ----

/// Whether a campaign holds together: it is named, every identity and every
/// entitlement has an id of its own, every entitlement names a system, and no
/// date contradicts another.
pub open spec fn holds_together(input: CampaignInput) -> bool {
    let campaign = input.campaign_date.day();
    &&& !text::is_blank(input.campaign_id@)
    &&& ids_differ(input)
    &&& forall|i: int|
        0 <= i < input.identities.len() ==> {
            let x = #[trigger] input.identities@[i];
            &&& !text::is_blank(x.employee_id@)
            &&& x.hire_date.day() <= campaign
            &&& x.separation_date is Some ==> x.hire_date.day() <= x.separation_date->0.day()
        }
    &&& forall|i: int|
        0 <= i < input.entitlements.len() ==> {
            let e = #[trigger] input.entitlements@[i];
            &&& !text::is_blank(e.entitlement_id@)
            &&& !text::is_blank(e.system_id@)
            &&& e.granted_at.day() <= campaign
            &&& e.last_authenticated_at is Some ==> e.last_authenticated_at->0.day() <= campaign
        }
}

proof fn identities_hold(input: CampaignInput, n: int)
    requires
        0 <= n <= input.identities.len(),
    ensures
        model::identities_problems(input.identities@, input.campaign_date.day(), n).len() == 0
            <==> ((forall|i: int, j: int|
            0 <= i < j < n ==> (#[trigger] input.identities@[i]).employee_id@ != (
            #[trigger] input.identities@[j]).employee_id@) && (forall|i: int|
            0 <= i < n ==> {
                let x = #[trigger] input.identities@[i];
                &&& !text::is_blank(x.employee_id@)
                &&& x.hire_date.day() <= input.campaign_date.day()
                &&& x.separation_date is Some ==> x.hire_date.day() <= x.separation_date->0.day()
            })),
    decreases n,
{
    if n > 0 {
        identities_hold(input, n - 1);
        let s = input.identities@;
        let x = s[n - 1];
        let own = model::identity_problems(s, input.campaign_date.day(), n - 1);
        assert(own.len() == 0 <==> (!text::is_blank(x.employee_id@) && !model::has_identity(
            s,
            x.employee_id@,
            n - 1,
        ) && x.hire_date.day() <= input.campaign_date.day() && (x.separation_date is Some
            ==> x.hire_date.day() <= x.separation_date->0.day())));
        if model::has_identity(s, x.employee_id@, n - 1) {
            let k = choose|k: int| 0 <= k < n - 1 && (#[trigger] s[k]).employee_id@
                == x.employee_id@;
            assert(s[k].employee_id@ == s[n - 1].employee_id@);
        }
    }
}

proof fn entitlements_hold(input: CampaignInput, n: int)
    requires
        0 <= n <= input.entitlements.len(),
    ensures
        model::entitlements_problems(input.entitlements@, input.campaign_date.day(), n).len() == 0
            <==> ((forall|i: int, j: int|
            0 <= i < j < n ==> (#[trigger] input.entitlements@[i]).entitlement_id@ != (
            #[trigger] input.entitlements@[j]).entitlement_id@) && (forall|i: int|
            0 <= i < n ==> {
                let e = #[trigger] input.entitlements@[i];
                &&& !text::is_blank(e.entitlement_id@)
                &&& !text::is_blank(e.system_id@)
                &&& e.granted_at.day() <= input.campaign_date.day()
                &&& e.last_authenticated_at is Some ==> e.last_authenticated_at->0.day()
                    <= input.campaign_date.day()
            })),
    decreases n,
{
    if n > 0 {
        entitlements_hold(input, n - 1);
        let s = input.entitlements@;
        let e = s[n - 1];
        let own = model::entitlement_problems(s, input.campaign_date.day(), n - 1);
        assert(own.len() == 0 <==> (!text::is_blank(e.entitlement_id@) && !model::has_entitlement(
            s,
            e.entitlement_id@,
            n - 1,
        ) && !text::is_blank(e.system_id@) && e.granted_at.day() <= input.campaign_date.day() && (
        e.last_authenticated_at is Some ==> e.last_authenticated_at->0.day()
            <= input.campaign_date.day())));
        if model::has_entitlement(s, e.entitlement_id@, n - 1) {
            let k = choose|k: int| 0 <= k < n - 1 && (#[trigger] s[k]).entitlement_id@
                == e.entitlement_id@;
            assert(s[k].entitlement_id@ == s[n - 1].entitlement_id@);
        }
    }
}

/// A campaign validates exactly where it holds together.
pub proof fn valid_campaigns_hold_together(input: CampaignInput)
    ensures
        model::problems(input).len() == 0 <==> holds_together(input),
{
    identities_hold(input, input.identities.len() as int);
    entitlements_hold(input, input.entitlements.len() as int);
}

// ---- packs ----

/// Evidence of a campaign holds an approval of every gated finding by a
/// person, approvals by two people of every four-eyes gap, and exactly the
/// findings that its inputs give.
pub proof fn evidence_is_approved_by_people(
    d: PackDocument,
    input: CampaignInput,
    config: RecertConfig,
    inputs: Seq<u8>,
    params: Seq<u8>,
    k: int,
)
    requires
        pack::verification(d, input, config, inputs, params, Ok(())),
        0 <= k < d.pack@.findings.len(),
    ensures
        d.lock_state == LockState::Signed,
        d.pack@.findings == engine::evaluated(input, config, d.pack@.engine_id),
        d.pack@.findings[k].requires_signoff ==> exists|j: int|
            0 <= j < d.pack@.signoffs.len() && #[trigger] is_human_approval(
                d.pack@.signoffs[j],
                d.pack@.engine_id,
                d.pack@.findings[k].subject,
            ),
        d.pack@.findings[k].rule_id == "privileged-four-eyes"@ ==> two_people_approve(
            d.pack@.signoffs,
            d.pack@.engine_id,
            d.pack@.findings[k].subject,
        ),
{
    let p = d.pack@;
    let f = p.findings[k];
    assert(pack::gate_open(p));
    assert(!pack::lacks_two(p, f));
    assert(spine::is_resolved(p, f));
    two_people(p.signoffs, p.engine_id, f.subject);
    if f.requires_signoff {
        let j = choose|j: int|
            0 <= j < p.signoffs.len() && #[trigger] spine::approves(
                p.engine_id,
                p.signoffs[j],
                f.subject,
            );
        assert(is_human_approval(p.signoffs[j], p.engine_id, f.subject));
    }
}

/// A signed document is evidence where its pack is, its findings are those
/// of the campaign, and people approve: every gated finding one, and every
/// four-eyes finding two.
pub proof fn what_people_approve_is_evidence(
    d: PackDocument,
    input: CampaignInput,
    config: RecertConfig,
    inputs: Seq<u8>,
    params: Seq<u8>,
)
    requires
        d.lock_state == LockState::Signed,
        d.pack@.spine_version == spine::SPINE_VERSION@,
        spine::seal_intact(d.pack@),
        d.pack@.inputs_hash == spine::sha256_text(inputs),
        d.pack@.params_hash == spine::sha256_text(params),
        d.pack@.findings == engine::evaluated(input, config, d.pack@.engine_id),
        forall|k: int|
            0 <= k < d.pack@.findings.len() && (#[trigger] d.pack@.findings[k]).requires_signoff
                ==> exists|j: int|
                0 <= j < d.pack@.signoffs.len() && #[trigger] is_human_approval(
                    d.pack@.signoffs[j],
                    d.pack@.engine_id,
                    d.pack@.findings[k].subject,
                ),
        forall|k: int|
            0 <= k < d.pack@.findings.len() && (#[trigger] d.pack@.findings[k]).rule_id
                == "privileged-four-eyes"@ ==> two_people_approve(
                d.pack@.signoffs,
                d.pack@.engine_id,
                d.pack@.findings[k].subject,
            ),
    ensures
        pack::verification(d, input, config, inputs, params, Ok(())),
{
    let p = d.pack@;
    assert forall|k: int| 0 <= k < p.findings.len() implies spine::is_resolved(
        p,
        #[trigger] p.findings[k],
    ) && !pack::lacks_two(p, p.findings[k]) by {
        let f = p.findings[k];
        two_people(p.signoffs, p.engine_id, f.subject);
        if f.requires_signoff {
            let j = choose|j: int|
                0 <= j < p.signoffs.len() && #[trigger] is_human_approval(
                    p.signoffs[j],
                    p.engine_id,
                    f.subject,
                );
            text::blank_texts_are_white(p.signoffs[j].actor);
            assert(spine::approves(p.engine_id, p.signoffs[j], f.subject));
        }
    }
}

// ---- queues ----

/// Leavers and unmanaged systems stand in the queue of revocations, records
/// set aside in quarantine, four-eyes gaps among the gated warnings, and the
/// rest among the open ones: each finding in one queue.
pub proof fn findings_stand_in_their_queue(
    input: CampaignInput,
    c: RecertConfig,
    engine_id: Seq<char>,
    k: int,
)
    requires
        0 <= k < engine::evaluated(input, c, engine_id).len(),
    ensures
        ({
            let f = engine::evaluated(input, c, engine_id)[k];
            let rule = f.rule_id;
            &&& Queue::Revocation.holds(f) <==> rule == "leaver-active-entitlement"@ || rule
                == "orphan-system"@
            &&& Queue::Quarantine.holds(f) <==> rule == "quarantine"@
            &&& Queue::Gated.holds(f) <==> rule == "privileged-four-eyes"@
            &&& Queue::Open.holds(f) <==> rule != "leaver-active-entitlement"@ && rule
                != "orphan-system"@ && rule != "quarantine"@ && rule != "privileged-four-eyes"@
        }),
{
    laws::findings_are_gated_by_rule(input, c, engine_id, k);
    names_differ();
}

proof fn queues_add_up(s: Seq<FindingView>, n: int)
    requires
        0 <= n <= s.len(),
        forall|k: int|
            0 <= k < s.len() ==> !(Queue::Quarantine.holds(#[trigger] s[k]) && (
            Queue::Revocation.holds(s[k]) || Queue::Open.holds(s[k]))),
    ensures
        explain::queued(s, Queue::Revocation, n) + explain::queued(s, Queue::Quarantine, n)
            + explain::queued(s, Queue::Gated, n) + explain::queued(s, Queue::Open, n) == n,
    decreases n,
{
    if n > 0 {
        queues_add_up(s, n - 1);
        assert(s[n - 1] == s[n - 1]);
    }
}

/// The queues hold every finding of a campaign once.
pub proof fn queues_hold_every_finding(input: CampaignInput, c: RecertConfig, engine_id: Seq<char>)
    ensures
        ({
            let s = engine::evaluated(input, c, engine_id);
            let n = s.len() as int;
            explain::queued(s, Queue::Revocation, n) + explain::queued(s, Queue::Quarantine, n)
                + explain::queued(s, Queue::Gated, n) + explain::queued(s, Queue::Open, n) == n
        }),
{
    let s = engine::evaluated(input, c, engine_id);
    names_differ();
    assert forall|k: int| 0 <= k < s.len() implies !(Queue::Quarantine.holds(#[trigger] s[k]) && (
    Queue::Revocation.holds(s[k]) || Queue::Open.holds(s[k]))) by {
        findings_stand_in_their_queue(input, c, engine_id, k);
    }
    queues_add_up(s, s.len() as int);
}

} // verus!
