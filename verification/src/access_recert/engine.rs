//! The findings on a campaign.

use vstd::prelude::*;
use vstd::string::StringExecFns;

use crate::access_recert::model;
use crate::access_recert::model::{
    CampaignInput, EntitlementRecord, IdentityRecord, RecertConfig, SystemRecord,
};
use crate::date;
use crate::date::Date;
use crate::spine;
use crate::spine::{Finding, FindingView, Severity, Signoff, SignoffView};
use crate::text;

verus! {

/// An identity that has left still holds an entitlement.
pub const RULE_LEAVER_ACTIVE: &'static str = "leaver-active-entitlement";

/// An entitlement is on a system that is not managed.
pub const RULE_ORPHAN_SYSTEM: &'static str = "orphan-system";

/// An identity's manager is missing or unknown.
pub const RULE_ORPHAN_MANAGER: &'static str = "orphan-manager";

/// No authentication within the window.
pub const RULE_STALE_AUTH: &'static str = "stale-auth";

/// Privileged access without two approvers.
pub const RULE_PRIVILEGED_FOUR_EYES: &'static str = "privileged-four-eyes";

/// An entitlement whose employee id names no identity.
pub const RULE_QUARANTINE: &'static str = "quarantine";

/// The place of the last one of the first `n` identities with an employee id.
pub open spec fn identity_of(s: Seq<IdentityRecord>, id: Seq<char>, n: int) -> Option<int>
    decreases n,
{
    if n <= 0 {
        None
    } else if s[n - 1].employee_id@ == id {
        Some(n - 1)
    } else {
        identity_of(s, id, n - 1)
    }
}

/// Whether a system is managed.
pub open spec fn is_managed(s: Seq<SystemRecord>, id: Seq<char>) -> bool {
    exists|k: int| 0 <= k < s.len() && (#[trigger] s[k]).system_id@ == id
}

/// Whether an identity is a new hire: hired at most as many days ago as the
/// grace lasts.
pub open spec fn is_new_hire(x: IdentityRecord, campaign: int, c: RecertConfig) -> bool {
    campaign - x.hire_date.day() <= c.new_hire_grace_days
}

/// Whether an identity's manager is an identity.
pub open spec fn has_manager(x: IdentityRecord, s: Seq<IdentityRecord>) -> bool {
    match x.manager_id {
        Some(m) => model::has_identity(s, m@, s.len() as int),
        None => false,
    }
}

/// Whether an authentication is missing or older than the window. One that is
/// exactly as old as the window is not.
pub open spec fn is_stale(e: EntitlementRecord, campaign: int, c: RecertConfig) -> bool {
    match e.last_authenticated_at {
        Some(d) => campaign - d.day() > c.stale_days,
        None => true,
    }
}

/// Whether two receipts are approvals of a subject by two different humans.
pub open spec fn two_approve(
    engine_id: Seq<char>,
    a: SignoffView,
    b: SignoffView,
    subject: Seq<char>,
) -> bool {
    &&& spine::approves(engine_id, a, subject)
    &&& spine::approves(engine_id, b, subject)
    &&& spine::two_signers(a, b)
}

/// Whether two different humans approve a subject.
pub open spec fn approved_twice(
    engine_id: Seq<char>,
    s: Seq<SignoffView>,
    subject: Seq<char>,
) -> bool {
    exists|i: int, j: int|
        0 <= i < j < s.len() && #[trigger] two_approve(engine_id, s[i], s[j], subject)
}

/// Whether two different humans approve a subject. The engine's own approvals
/// are void.
pub fn approved_by_two(engine_id: &str, signoffs: &Vec<Signoff>, subject: &str) -> (r: bool)
    ensures
        r == approved_twice(engine_id@, spine::signoffs_view(signoffs@), subject@),
{
    let ghost all = spine::signoffs_view(signoffs@);
    let mut i: usize = 0;
    while i < signoffs.len()
        invariant
            i <= signoffs.len(),
            all == spine::signoffs_view(signoffs@),
            forall|k: int, j: int|
                0 <= k < i && k < j < all.len() ==> !#[trigger] two_approve(
                    engine_id@,
                    all[k],
                    all[j],
                    subject@,
                ),
        decreases signoffs.len() - i,
    {
        let mut j: usize = i + 1;
        while j < signoffs.len()
            invariant
                i < j <= signoffs.len(),
                all == spine::signoffs_view(signoffs@),
                forall|l: int|
                    i < l < j ==> !#[trigger] two_approve(
                        engine_id@,
                        all[i as int],
                        all[l],
                        subject@,
                    ),
            decreases signoffs.len() - j,
        {
            let a = &signoffs[i];
            let b = &signoffs[j];
            assert(all[i as int] == a@ && all[j as int] == b@);
            if spine::approval_covers(engine_id, a, subject) && spine::approval_covers(
                engine_id,
                b,
                subject,
            ) && !text::eq_ignoring_case(
                text::trim(a.actor.as_str()),
                text::trim(b.actor.as_str()),
            ) {
                assert(two_approve(engine_id@, all[i as int], all[j as int], subject@));
                return true;
            }
            j = j + 1;
        }
        i = i + 1;
    }
    false
}

// ---- findings ----

/// An ungated or gated warning.
pub open spec fn warning(rule: Seq<char>, subject: Seq<char>, message: Seq<char>, gated: bool) -> FindingView {
    FindingView {
        rule_id: rule,
        severity: Severity::Warn,
        subject,
        message,
        requires_signoff: gated,
    }
}

/// One finding, or none.
pub open spec fn finding_if(found: bool, f: FindingView) -> Seq<FindingView> {
    if found {
        seq![f]
    } else {
        Seq::empty()
    }
}

pub open spec fn quarantine_text(e: EntitlementRecord) -> Seq<char> {
    "entitlement "@ + e.entitlement_id@ + " on system "@ + e.system_id@
        + " could not be matched to an HR identity by employee_id "@ + text::debug_text(
        e.employee_id@,
    ) + "; quarantined for manual attribution"@
}

pub open spec fn leaver_text(
    e: EntitlementRecord,
    x: IdentityRecord,
    separated: int,
    campaign: int,
) -> Seq<char> {
    "identity "@ + x.employee_id@ + " was separated on "@ + date::date_text(separated)
        + " (before campaign date "@ + date::date_text(campaign) + ") but retains entitlement "@
        + e.entitlement_id@ + " on system "@ + e.system_id@
}

pub open spec fn orphan_system_text(e: EntitlementRecord) -> Seq<char> {
    "entitlement "@ + e.entitlement_id@ + " references system "@ + e.system_id@
        + " which has no managed-system record"@
}

pub open spec fn orphan_manager_text(x: IdentityRecord) -> Seq<char> {
    match x.manager_id {
        Some(m) => "identity "@ + x.employee_id@ + " has manager of record "@ + m@
            + " which does not resolve to an HR identity"@,
        None => "identity "@ + x.employee_id@ + " has no manager of record"@,
    }
}

pub open spec fn stale_text(e: EntitlementRecord, campaign: int, c: RecertConfig) -> Seq<char> {
    match e.last_authenticated_at {
        Some(d) => "no authentication on entitlement "@ + e.entitlement_id@ + " in "@
            + text::signed_decimal(campaign - d.day()) + " days (last on "@ + date::date_text(
            d.day(),
        ) + ", window is "@ + text::decimal(c.stale_days as nat) + " days)"@,
        None => "entitlement "@ + e.entitlement_id@
            + " has no recorded authentication (window is "@ + text::decimal(c.stale_days as nat)
            + " days)"@,
    }
}

pub open spec fn four_eyes_text(e: EntitlementRecord) -> Seq<char> {
    "privileged entitlement "@ + e.entitlement_id@
        + " lacks four-eyes approval to retain (requires 2 distinct approving signers)"@
}

/// The finding on an entitlement of one who has left. A separation on the
/// campaign date itself has not taken effect.
pub open spec fn leaver_findings(e: EntitlementRecord, x: IdentityRecord, campaign: int) -> Seq<
    FindingView,
> {
    match x.separation_date {
        Some(d) => finding_if(
            d.day() < campaign,
            spine::breach_of(
                RULE_LEAVER_ACTIVE@,
                e.entitlement_id@,
                leaver_text(e, x, d.day(), campaign),
            ),
        ),
        None => Seq::empty(),
    }
}

/// The findings on an entitlement of a known identity.
pub open spec fn matched_findings(
    input: CampaignInput,
    c: RecertConfig,
    engine_id: Seq<char>,
    e: EntitlementRecord,
    x: IdentityRecord,
) -> Seq<FindingView> {
    let campaign = input.campaign_date.day();
    let grace = is_new_hire(x, campaign, c);
    leaver_findings(e, x, campaign) + finding_if(
        !is_managed(input.systems@, e.system_id@),
        spine::breach_of(RULE_ORPHAN_SYSTEM@, e.entitlement_id@, orphan_system_text(e)),
    ) + finding_if(
        !grace && !has_manager(x, input.identities@),
        warning(RULE_ORPHAN_MANAGER@, e.entitlement_id@, orphan_manager_text(x), false),
    ) + finding_if(
        !grace && is_stale(e, campaign, c),
        warning(RULE_STALE_AUTH@, e.entitlement_id@, stale_text(e, campaign, c), false),
    ) + finding_if(
        e.privileged && !approved_twice(
            engine_id,
            spine::signoffs_view(input.retention_approvals@),
            e.entitlement_id@,
        ),
        warning(RULE_PRIVILEGED_FOUR_EYES@, e.entitlement_id@, four_eyes_text(e), true),
    )
}

/// The findings on an entitlement. One that names no identity is set aside,
/// never dropped.
pub open spec fn entitlement_findings(
    input: CampaignInput,
    c: RecertConfig,
    engine_id: Seq<char>,
    e: EntitlementRecord,
) -> Seq<FindingView> {
    match identity_of(input.identities@, e.employee_id@, input.identities.len() as int) {
        None => seq![warning(RULE_QUARANTINE@, e.entitlement_id@, quarantine_text(e), true)],
        Some(k) => matched_findings(input, c, engine_id, e, input.identities@[k]),
    }
}

/// The findings on the first `n` entitlements, in their order.
pub open spec fn findings_upto(
    input: CampaignInput,
    c: RecertConfig,
    engine_id: Seq<char>,
    n: int,
) -> Seq<FindingView>
    decreases n,
{
    if n <= 0 {
        Seq::empty()
    } else {
        findings_upto(input, c, engine_id, n - 1) + entitlement_findings(
            input,
            c,
            engine_id,
            input.entitlements@[n - 1],
        )
    }
}

/// The findings on a campaign, by subject and rule.
pub open spec fn evaluated(input: CampaignInput, c: RecertConfig, engine_id: Seq<char>) -> Seq<
    FindingView,
> {
    spine::by_subject(findings_upto(input, c, engine_id, input.entitlements.len() as int))
}

fn find_identity<'a>(s: &'a Vec<IdentityRecord>, id: &str) -> (r: Option<&'a IdentityRecord>)
    ensures
        (match r {
            Some(x) => {
                let k = identity_of(s@, id@, s.len() as int);
                k is Some && *x == s@[k->0]
            },
            None => identity_of(s@, id@, s.len() as int) is None,
        }),
{
    let mut n: usize = s.len();
    while n > 0
        invariant
            n <= s.len(),
            identity_of(s@, id@, s.len() as int) == identity_of(s@, id@, n as int),
        decreases n,
    {
        if text::same_text(s[n - 1].employee_id.as_str(), id) {
            return Some(&s[n - 1]);
        }
        n = n - 1;
    }
    None
}

fn managed(s: &Vec<SystemRecord>, id: &str) -> (r: bool)
    ensures
        r == is_managed(s@, id@),
{
    let mut k: usize = 0;
    while k < s.len()
        invariant
            k <= s.len(),
            forall|j: int| 0 <= j < k ==> (#[trigger] s@[j]).system_id@ != id@,
        decreases s.len() - k,
    {
        if text::same_text(s[k].system_id.as_str(), id) {
            assert(s@[k as int].system_id@ == id@);
            return true;
        }
        k = k + 1;
    }
    false
}

fn in_new_hire_grace(x: &IdentityRecord, campaign: Date, c: &RecertConfig) -> (r: bool)
    ensures
        r == is_new_hire(*x, campaign.day(), *c),
{
    campaign.day_number() as i64 - x.hire_date.day_number() as i64 <= c.new_hire_grace_days as i64
}

fn manager_resolvable(x: &IdentityRecord, s: &Vec<IdentityRecord>) -> (r: bool)
    ensures
        r == has_manager(*x, s@),
{
    match &x.manager_id {
        Some(m) => model::known_identity(s, m.as_str(), s.len()),
        None => false,
    }
}

fn stale(e: &EntitlementRecord, campaign: Date, c: &RecertConfig) -> (r: bool)
    ensures
        r == is_stale(*e, campaign.day(), *c),
{
    match e.last_authenticated_at {
        Some(d) => campaign.day_number() as i64 - d.day_number() as i64 > c.stale_days as i64,
        None => true,
    }
}

fn push_finding(out: &mut Vec<Finding>, f: Finding)
    ensures
        spine::findings_view(final(out)@) == spine::findings_view(old(out)@) + seq![f@],
{
    let ghost was = out@;
    out.push(f);
    assert(spine::findings_view(out@) =~= spine::findings_view(was) + seq![f@]);
}

fn warn(rule: &str, subject: &str, message: String, gated: bool) -> (r: Finding)
    ensures
        r@ == warning(rule@, subject@, message@, gated),
{
    Finding {
        rule_id: String::from_str(rule),
        severity: Severity::Warn,
        subject: String::from_str(subject),
        message,
        requires_signoff: gated,
    }
}

fn quarantine_message(e: &EntitlementRecord) -> (r: String)
    ensures
        r@ == quarantine_text(*e),
{
    let mut m = String::from_str("entitlement ");
    m.append(e.entitlement_id.as_str());
    m.append(" on system ");
    m.append(e.system_id.as_str());
    m.append(" could not be matched to an HR identity by employee_id ");
    m.append(text::debug_of(e.employee_id.as_str()).as_str());
    m.append("; quarantined for manual attribution");
    m
}

fn leaver_message(e: &EntitlementRecord, x: &IdentityRecord, separated: Date, campaign: Date) -> (r:
    String)
    ensures
        r@ == leaver_text(*e, *x, separated.day(), campaign.day()),
{
    let mut m = String::from_str("identity ");
    m.append(x.employee_id.as_str());
    m.append(" was separated on ");
    m.append(separated.text().as_str());
    m.append(" (before campaign date ");
    m.append(campaign.text().as_str());
    m.append(") but retains entitlement ");
    m.append(e.entitlement_id.as_str());
    m.append(" on system ");
    m.append(e.system_id.as_str());
    m
}

fn orphan_system_message(e: &EntitlementRecord) -> (r: String)
    ensures
        r@ == orphan_system_text(*e),
{
    let mut m = String::from_str("entitlement ");
    m.append(e.entitlement_id.as_str());
    m.append(" references system ");
    m.append(e.system_id.as_str());
    m.append(" which has no managed-system record");
    m
}

fn orphan_manager_message(x: &IdentityRecord) -> (r: String)
    ensures
        r@ == orphan_manager_text(*x),
{
    let mut m = String::from_str("identity ");
    m.append(x.employee_id.as_str());
    match &x.manager_id {
        Some(manager) => {
            m.append(" has manager of record ");
            m.append(manager.as_str());
            m.append(" which does not resolve to an HR identity");
        },
        None => {
            m.append(" has no manager of record");
        },
    }
    m
}

fn stale_message(e: &EntitlementRecord, campaign: Date, c: &RecertConfig) -> (r: String)
    ensures
        r@ == stale_text(*e, campaign.day(), *c),
{
    match e.last_authenticated_at {
        Some(d) => {
            let mut m = String::from_str("no authentication on entitlement ");
            m.append(e.entitlement_id.as_str());
            m.append(" in ");
            let days: i64 = campaign.day_number() as i64 - d.day_number() as i64;
            m.append(text::signed_text(days as i128).as_str());
            m.append(" days (last on ");
            m.append(d.text().as_str());
            m.append(", window is ");
            m.append(text::unsigned_text(c.stale_days as u128).as_str());
            m.append(" days)");
            m
        },
        None => {
            let mut m = String::from_str("entitlement ");
            m.append(e.entitlement_id.as_str());
            m.append(" has no recorded authentication (window is ");
            m.append(text::unsigned_text(c.stale_days as u128).as_str());
            m.append(" days)");
            m
        },
    }
}

fn four_eyes_message(e: &EntitlementRecord) -> (r: String)
    ensures
        r@ == four_eyes_text(*e),
{
    let mut m = String::from_str("privileged entitlement ");
    m.append(e.entitlement_id.as_str());
    m.append(" lacks four-eyes approval to retain (requires 2 distinct approving signers)");
    m
}

fn add_matched(
    out: &mut Vec<Finding>,
    input: &CampaignInput,
    c: &RecertConfig,
    engine_id: &str,
    e: &EntitlementRecord,
    x: &IdentityRecord,
)
    ensures
        spine::findings_view(final(out)@) == spine::findings_view(old(out)@) + matched_findings(
            *input,
            *c,
            engine_id@,
            *e,
            *x,
        ),
{
    let ghost before = spine::findings_view(out@);
    let subject = e.entitlement_id.as_str();
    let campaign = input.campaign_date;
    match x.separation_date {
        Some(d) => {
            if d.day_number() < campaign.day_number() {
                push_finding(
                    out,
                    Finding::breach(RULE_LEAVER_ACTIVE, subject, leaver_message(e, x, d, campaign)),
                );
            }
        },
        None => {},
    }
    if !managed(&input.systems, e.system_id.as_str()) {
        push_finding(
            out,
            Finding::breach(RULE_ORPHAN_SYSTEM, subject, orphan_system_message(e)),
        );
    }
    let grace = in_new_hire_grace(x, campaign, c);
    if !grace && !manager_resolvable(x, &input.identities) {
        push_finding(out, warn(RULE_ORPHAN_MANAGER, subject, orphan_manager_message(x), false));
    }
    if !grace && stale(e, campaign, c) {
        push_finding(out, warn(RULE_STALE_AUTH, subject, stale_message(e, campaign, c), false));
    }
    if e.privileged && !approved_by_two(engine_id, &input.retention_approvals, subject) {
        push_finding(out, warn(RULE_PRIVILEGED_FOUR_EYES, subject, four_eyes_message(e), true));
    }
    assert(spine::findings_view(out@) =~= before + matched_findings(
        *input,
        *c,
        engine_id@,
        *e,
        *x,
    ));
}

/// Hold every entitlement of a campaign against every rule. Findings come by
/// subject and rule.
pub fn evaluate(input: &CampaignInput, config: &RecertConfig, engine_id: &str) -> (r: Vec<Finding>)
    ensures
        spine::findings_view(r@) == evaluated(*input, *config, engine_id@),
{
    let mut out: Vec<Finding> = Vec::new();
    let mut i: usize = 0;
    assert(spine::findings_view(out@) =~= findings_upto(*input, *config, engine_id@, 0));
    while i < input.entitlements.len()
        invariant
            i <= input.entitlements.len(),
            spine::findings_view(out@) == findings_upto(*input, *config, engine_id@, i as int),
        decreases input.entitlements.len() - i,
    {
        let e = &input.entitlements[i];
        match find_identity(&input.identities, e.employee_id.as_str()) {
            None => {
                push_finding(
                    &mut out,
                    warn(RULE_QUARANTINE, e.entitlement_id.as_str(), quarantine_message(e), true),
                );
            },
            Some(x) => {
                add_matched(&mut out, input, config, engine_id, e, x);
            },
        }
        i = i + 1;
    }
    spine::sort_findings(out)
}

} // verus!
