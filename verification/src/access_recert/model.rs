//! A campaign's population and thresholds.

use vstd::prelude::*;
use vstd::string::StringExecFns;

use crate::date;
use crate::date::Date;
use crate::spine::Signoff;
use crate::text;

verus! {

/// The population under review.
#[derive(Debug, Clone)]
pub struct CampaignInput {
    pub campaign_id: String,
    /// The date against which every dated rule is held.
    pub campaign_date: Date,
    pub identities: Vec<IdentityRecord>,
    pub systems: Vec<SystemRecord>,
    pub entitlements: Vec<EntitlementRecord>,
    /// Approvals to retain entitlements. The subject of each is an
    /// entitlement id. They travel on the evidence pack as receipts.
    pub retention_approvals: Vec<Signoff>,
}

/// One identity of the directory. Its employee id is the only match key.
#[derive(Debug, Clone, PartialEq, Eq)]
pub struct IdentityRecord {
    pub employee_id: String,
    pub email: String,
    pub display_name: String,
    pub manager_id: Option<String>,
    pub hire_date: Date,
    pub separation_date: Option<Date>,
}

/// One managed system.
#[derive(Debug, Clone, PartialEq, Eq)]
pub struct SystemRecord {
    pub system_id: String,
    pub display_name: String,
}

/// One entitlement under review.
#[derive(Debug, Clone, PartialEq, Eq)]
pub struct EntitlementRecord {
    pub entitlement_id: String,
    pub system_id: String,
    pub employee_id: String,
    /// Never used to attribute the entitlement.
    pub email: String,
    pub entitlement_key: String,
    /// Privileged access is retained only under two approvals.
    pub privileged: bool,
    pub granted_at: Date,
    pub last_authenticated_at: Option<Date>,
}

/// What an [`IdentityRecord`] says.
#[verifier::ext_equal]
pub struct IdentityView {
    pub employee_id: Seq<char>,
    pub email: Seq<char>,
    pub display_name: Seq<char>,
    pub manager_id: Option<Seq<char>>,
    pub hired: int,
    pub separated: Option<int>,
}

impl View for IdentityRecord {
    type V = IdentityView;

    open spec fn view(&self) -> IdentityView {
        IdentityView {
            employee_id: self.employee_id@,
            email: self.email@,
            display_name: self.display_name@,
            manager_id: match self.manager_id {
                Some(m) => Some(m@),
                None => None,
            },
            hired: self.hire_date.day(),
            separated: match self.separation_date {
                Some(d) => Some(d.day()),
                None => None,
            },
        }
    }
}

/// What a [`SystemRecord`] says.
#[verifier::ext_equal]
pub struct SystemView {
    pub system_id: Seq<char>,
    pub display_name: Seq<char>,
}

impl View for SystemRecord {
    type V = SystemView;

    open spec fn view(&self) -> SystemView {
        SystemView { system_id: self.system_id@, display_name: self.display_name@ }
    }
}

/// What an [`EntitlementRecord`] says.
#[verifier::ext_equal]
pub struct EntitlementView {
    pub entitlement_id: Seq<char>,
    pub system_id: Seq<char>,
    pub employee_id: Seq<char>,
    pub email: Seq<char>,
    pub entitlement_key: Seq<char>,
    pub privileged: bool,
    pub granted: int,
    pub last_authenticated: Option<int>,
}

impl View for EntitlementRecord {
    type V = EntitlementView;

    open spec fn view(&self) -> EntitlementView {
        EntitlementView {
            entitlement_id: self.entitlement_id@,
            system_id: self.system_id@,
            employee_id: self.employee_id@,
            email: self.email@,
            entitlement_key: self.entitlement_key@,
            privileged: self.privileged,
            granted: self.granted_at.day(),
            last_authenticated: match self.last_authenticated_at {
                Some(d) => Some(d.day()),
                None => None,
            },
        }
    }
}

pub open spec fn identities_view(s: Seq<IdentityRecord>) -> Seq<IdentityView> {
    s.map_values(|x: IdentityRecord| x@)
}

pub open spec fn systems_view(s: Seq<SystemRecord>) -> Seq<SystemView> {
    s.map_values(|x: SystemRecord| x@)
}

pub open spec fn entitlements_view(s: Seq<EntitlementRecord>) -> Seq<EntitlementView> {
    s.map_values(|x: EntitlementRecord| x@)
}

/// Thresholds.
#[derive(Debug, Clone, Copy, PartialEq, Eq, Structural)]
pub struct RecertConfig {
    /// An authentication more than this many days old is stale.
    pub stale_days: u32,
    /// An identity hired at most this many days ago is a new hire.
    pub new_hire_grace_days: u32,
}

// ---- validation ----

/// Whether one of the first `n` identities has an employee id.
pub open spec fn has_identity(s: Seq<IdentityRecord>, id: Seq<char>, n: int) -> bool {
    exists|k: int| 0 <= k < n && (#[trigger] s[k]).employee_id@ == id
}

/// Whether one of the first `n` entitlements has an id.
pub open spec fn has_entitlement(s: Seq<EntitlementRecord>, id: Seq<char>, n: int) -> bool {
    exists|k: int| 0 <= k < n && (#[trigger] s[k]).entitlement_id@ == id
}

/// One problem, or none.
pub open spec fn problem_if(wrong: bool, m: Seq<char>) -> Seq<Seq<char>> {
    if wrong {
        seq![m]
    } else {
        Seq::empty()
    }
}

pub open spec fn blank_employee_text(name: Seq<char>) -> Seq<char> {
    "identity "@ + text::debug_text(name) + " has a blank employee_id"@
}

pub open spec fn repeated_employee_text(id: Seq<char>) -> Seq<char> {
    "duplicate identity employee_id "@ + text::debug_text(id)
}

pub open spec fn future_hire_text(id: Seq<char>, hired: int, campaign: int) -> Seq<char> {
    "identity "@ + id + " has hire_date "@ + date::date_text(hired) + " after campaign date "@
        + date::date_text(campaign)
}

pub open spec fn early_separation_text(id: Seq<char>, separated: int, hired: int) -> Seq<char> {
    "identity "@ + id + " has separation_date "@ + date::date_text(separated)
        + " before hire_date "@ + date::date_text(hired)
}

/// What is wrong with the identity at place `i`.
pub open spec fn identity_problems(s: Seq<IdentityRecord>, campaign: int, i: int) -> Seq<Seq<char>> {
    let x = s[i];
    problem_if(text::is_blank(x.employee_id@), blank_employee_text(x.display_name@)) + problem_if(
        has_identity(s, x.employee_id@, i),
        repeated_employee_text(x.employee_id@),
    ) + problem_if(
        x.hire_date.day() > campaign,
        future_hire_text(x.employee_id@, x.hire_date.day(), campaign),
    ) + (match x.separation_date {
        Some(d) => problem_if(
            d.day() < x.hire_date.day(),
            early_separation_text(x.employee_id@, d.day(), x.hire_date.day()),
        ),
        None => Seq::empty(),
    })
}

/// What is wrong with the first `n` identities.
pub open spec fn identities_problems(s: Seq<IdentityRecord>, campaign: int, n: int) -> Seq<
    Seq<char>,
>
    decreases n,
{
    if n <= 0 {
        Seq::empty()
    } else {
        identities_problems(s, campaign, n - 1) + identity_problems(s, campaign, n - 1)
    }
}

pub open spec fn repeated_entitlement_text(id: Seq<char>) -> Seq<char> {
    "duplicate entitlement_id "@ + text::debug_text(id)
}

pub open spec fn blank_system_text(id: Seq<char>) -> Seq<char> {
    "entitlement "@ + id + " has a blank system_id"@
}

pub open spec fn future_grant_text(id: Seq<char>, granted: int, campaign: int) -> Seq<char> {
    "entitlement "@ + id + " has granted_at "@ + date::date_text(granted)
        + " after campaign date "@ + date::date_text(campaign)
}

pub open spec fn future_authentication_text(id: Seq<char>, last: int, campaign: int) -> Seq<char> {
    "entitlement "@ + id + " has last_authenticated_at "@ + date::date_text(last)
        + " after campaign date "@ + date::date_text(campaign)
}

/// What is wrong with the entitlement at place `i`.
pub open spec fn entitlement_problems(s: Seq<EntitlementRecord>, campaign: int, i: int) -> Seq<
    Seq<char>,
> {
    let x = s[i];
    problem_if(text::is_blank(x.entitlement_id@), "entitlement with blank entitlement_id"@)
        + problem_if(
        has_entitlement(s, x.entitlement_id@, i),
        repeated_entitlement_text(x.entitlement_id@),
    ) + problem_if(text::is_blank(x.system_id@), blank_system_text(x.entitlement_id@)) + problem_if(
        x.granted_at.day() > campaign,
        future_grant_text(x.entitlement_id@, x.granted_at.day(), campaign),
    ) + (match x.last_authenticated_at {
        Some(d) => problem_if(
            d.day() > campaign,
            future_authentication_text(x.entitlement_id@, d.day(), campaign),
        ),
        None => Seq::empty(),
    })
}

/// What is wrong with the first `n` entitlements.
pub open spec fn entitlements_problems(s: Seq<EntitlementRecord>, campaign: int, n: int) -> Seq<
    Seq<char>,
>
    decreases n,
{
    if n <= 0 {
        Seq::empty()
    } else {
        entitlements_problems(s, campaign, n - 1) + entitlement_problems(s, campaign, n - 1)
    }
}

/// What is wrong with a campaign.
pub open spec fn problems(input: CampaignInput) -> Seq<Seq<char>> {
    problem_if(text::is_blank(input.campaign_id@), "campaign_id must be non-blank"@)
        + identities_problems(
        input.identities@,
        input.campaign_date.day(),
        input.identities.len() as int,
    ) + entitlements_problems(
        input.entitlements@,
        input.campaign_date.day(),
        input.entitlements.len() as int,
    )
}

/// How problems are reported.
pub open spec fn problems_text(s: Seq<Seq<char>>) -> Seq<char> {
    "campaign input failed schema validation: "@ + text::joined(s, "; "@)
}

fn push_problem(out: &mut Vec<String>, m: String)
    ensures
        text::texts(final(out)@) == text::texts(old(out)@) + seq![m@],
{
    let ghost was = out@;
    out.push(m);
    assert(text::texts(out@) =~= text::texts(was) + seq![m@]);
}

pub(crate) fn known_identity(s: &Vec<IdentityRecord>, id: &str, n: usize) -> (r: bool)
    requires
        n <= s.len(),
    ensures
        r == has_identity(s@, id@, n as int),
{
    let mut k: usize = 0;
    while k < n
        invariant
            k <= n <= s.len(),
            forall|j: int| 0 <= j < k ==> (#[trigger] s@[j]).employee_id@ != id@,
        decreases n - k,
    {
        if text::same_text(s[k].employee_id.as_str(), id) {
            assert(s@[k as int].employee_id@ == id@);
            return true;
        }
        k = k + 1;
    }
    false
}

fn known_entitlement(s: &Vec<EntitlementRecord>, id: &str, n: usize) -> (r: bool)
    requires
        n <= s.len(),
    ensures
        r == has_entitlement(s@, id@, n as int),
{
    let mut k: usize = 0;
    while k < n
        invariant
            k <= n <= s.len(),
            forall|j: int| 0 <= j < k ==> (#[trigger] s@[j]).entitlement_id@ != id@,
        decreases n - k,
    {
        if text::same_text(s[k].entitlement_id.as_str(), id) {
            assert(s@[k as int].entitlement_id@ == id@);
            return true;
        }
        k = k + 1;
    }
    false
}

fn check_identity(out: &mut Vec<String>, s: &Vec<IdentityRecord>, campaign: Date, i: usize)
    requires
        i < s.len(),
    ensures
        text::texts(final(out)@) == text::texts(old(out)@) + identity_problems(
            s@,
            campaign.day(),
            i as int,
        ),
{
    let ghost before = text::texts(out@);
    let x = &s[i];
    if text::blank(x.employee_id.as_str()) {
        let mut m = String::from_str("identity ");
        m.append(text::debug_of(x.display_name.as_str()).as_str());
        m.append(" has a blank employee_id");
        push_problem(out, m);
    }
    if known_identity(s, x.employee_id.as_str(), i) {
        let mut m = String::from_str("duplicate identity employee_id ");
        m.append(text::debug_of(x.employee_id.as_str()).as_str());
        push_problem(out, m);
    }
    if x.hire_date.day_number() > campaign.day_number() {
        let mut m = String::from_str("identity ");
        m.append(x.employee_id.as_str());
        m.append(" has hire_date ");
        m.append(x.hire_date.text().as_str());
        m.append(" after campaign date ");
        m.append(campaign.text().as_str());
        push_problem(out, m);
    }
    match x.separation_date {
        Some(d) => {
            if d.day_number() < x.hire_date.day_number() {
                let mut m = String::from_str("identity ");
                m.append(x.employee_id.as_str());
                m.append(" has separation_date ");
                m.append(d.text().as_str());
                m.append(" before hire_date ");
                m.append(x.hire_date.text().as_str());
                push_problem(out, m);
            }
        },
        None => {},
    }
    assert(text::texts(out@) =~= before + identity_problems(s@, campaign.day(), i as int));
}

fn check_entitlement(out: &mut Vec<String>, s: &Vec<EntitlementRecord>, campaign: Date, i: usize)
    requires
        i < s.len(),
    ensures
        text::texts(final(out)@) == text::texts(old(out)@) + entitlement_problems(
            s@,
            campaign.day(),
            i as int,
        ),
{
    let ghost before = text::texts(out@);
    let x = &s[i];
    if text::blank(x.entitlement_id.as_str()) {
        push_problem(out, String::from_str("entitlement with blank entitlement_id"));
    }
    if known_entitlement(s, x.entitlement_id.as_str(), i) {
        let mut m = String::from_str("duplicate entitlement_id ");
        m.append(text::debug_of(x.entitlement_id.as_str()).as_str());
        push_problem(out, m);
    }
    if text::blank(x.system_id.as_str()) {
        let mut m = String::from_str("entitlement ");
        m.append(x.entitlement_id.as_str());
        m.append(" has a blank system_id");
        push_problem(out, m);
    }
    if x.granted_at.day_number() > campaign.day_number() {
        let mut m = String::from_str("entitlement ");
        m.append(x.entitlement_id.as_str());
        m.append(" has granted_at ");
        m.append(x.granted_at.text().as_str());
        m.append(" after campaign date ");
        m.append(campaign.text().as_str());
        push_problem(out, m);
    }
    match x.last_authenticated_at {
        Some(d) => {
            if d.day_number() > campaign.day_number() {
                let mut m = String::from_str("entitlement ");
                m.append(x.entitlement_id.as_str());
                m.append(" has last_authenticated_at ");
                m.append(d.text().as_str());
                m.append(" after campaign date ");
                m.append(campaign.text().as_str());
                push_problem(out, m);
            }
        },
        None => {},
    }
    assert(text::texts(out@) =~= before + entitlement_problems(s@, campaign.day(), i as int));
}

fn check_identities(out: &mut Vec<String>, s: &Vec<IdentityRecord>, campaign: Date)
    ensures
        text::texts(final(out)@) == text::texts(old(out)@) + identities_problems(
            s@,
            campaign.day(),
            s.len() as int,
        ),
{
    let ghost before = text::texts(out@);
    let mut i: usize = 0;
    assert(before =~= before + identities_problems(s@, campaign.day(), 0));
    while i < s.len()
        invariant
            i <= s.len(),
            text::texts(out@) == before + identities_problems(s@, campaign.day(), i as int),
        decreases s.len() - i,
    {
        check_identity(out, s, campaign, i);
        assert(text::texts(out@) =~= before + identities_problems(s@, campaign.day(), i + 1));
        i = i + 1;
    }
}

fn check_entitlements(out: &mut Vec<String>, s: &Vec<EntitlementRecord>, campaign: Date)
    ensures
        text::texts(final(out)@) == text::texts(old(out)@) + entitlements_problems(
            s@,
            campaign.day(),
            s.len() as int,
        ),
{
    let ghost before = text::texts(out@);
    let mut i: usize = 0;
    assert(before =~= before + entitlements_problems(s@, campaign.day(), 0));
    while i < s.len()
        invariant
            i <= s.len(),
            text::texts(out@) == before + entitlements_problems(s@, campaign.day(), i as int),
        decreases s.len() - i,
    {
        check_entitlement(out, s, campaign, i);
        assert(text::texts(out@) =~= before + entitlements_problems(s@, campaign.day(), i + 1));
        i = i + 1;
    }
}

/// Refuse a campaign whose keys are blank or ambiguous, or whose dates do not
/// fit together. All problems are reported at once. An unknown system, a
/// manager who is not there, or an entitlement without an identity is no
/// problem here: it is for the rules to find.
pub fn validate(input: &CampaignInput) -> (r: Result<(), String>)
    ensures
        (match r {
            Ok(()) => problems(*input).len() == 0,
            Err(m) => problems(*input).len() > 0 && m@ == problems_text(problems(*input)),
        }),
{
    let mut found: Vec<String> = Vec::new();
    assert(text::texts(found@) =~= Seq::<Seq<char>>::empty());
    if text::blank(input.campaign_id.as_str()) {
        push_problem(&mut found, String::from_str("campaign_id must be non-blank"));
    }
    check_identities(&mut found, &input.identities, input.campaign_date);
    check_entitlements(&mut found, &input.entitlements, input.campaign_date);
    assert(text::texts(found@) =~= problems(*input));
    assert(text::texts(found@).len() == found.len());
    if found.len() == 0 {
        Ok(())
    } else {
        let mut m = String::from_str("campaign input failed schema validation: ");
        m.append(text::join(&found, "; ").as_str());
        Err(m)
    }
}

} // verus!
