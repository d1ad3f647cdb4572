//! The requirements matrix: what a vendor of each category must carry.

use vstd::prelude::*;
use vstd::string::StringExecFns;

use crate::coi::error::{CoiError, Refusal};
use crate::table;
use crate::table::Table;

verus! {

/// Security ratings of carriers, the best first.
#[derive(Debug, Clone, Copy, PartialEq, Eq, PartialOrd, Ord, Structural)]
pub enum CarrierRating {
    APlusPlus,
    APlus,
    A,
    AMinus,
    BPlus,
    B,
    BMinus,
    CPlus,
    C,
    CMinus,
    D,
    E,
    F,
}

impl CarrierRating {
    /// The place of a rating in the order, the best being 0.
    pub open spec fn rank(self) -> int {
        match self {
            CarrierRating::APlusPlus => 0,
            CarrierRating::APlus => 1,
            CarrierRating::A => 2,
            CarrierRating::AMinus => 3,
            CarrierRating::BPlus => 4,
            CarrierRating::B => 5,
            CarrierRating::BMinus => 6,
            CarrierRating::CPlus => 7,
            CarrierRating::C => 8,
            CarrierRating::CMinus => 9,
            CarrierRating::D => 10,
            CarrierRating::E => 11,
            CarrierRating::F => 12,
        }
    }

    fn place(self) -> (r: u8)
        ensures
            r == self.rank(),
    {
        match self {
            CarrierRating::APlusPlus => 0,
            CarrierRating::APlus => 1,
            CarrierRating::A => 2,
            CarrierRating::AMinus => 3,
            CarrierRating::BPlus => 4,
            CarrierRating::B => 5,
            CarrierRating::BMinus => 6,
            CarrierRating::CPlus => 7,
            CarrierRating::C => 8,
            CarrierRating::CMinus => 9,
            CarrierRating::D => 10,
            CarrierRating::E => 11,
            CarrierRating::F => 12,
        }
    }

    /// Whether a rating is worse than a floor.
    pub fn is_below(self, floor: CarrierRating) -> (r: bool)
        ensures
            r == (self.rank() > floor.rank()),
    {
        self.place() > floor.place()
    }

    pub open spec fn name(self) -> Seq<char> {
        match self {
            CarrierRating::APlusPlus => "a_plus_plus"@,
            CarrierRating::APlus => "a_plus"@,
            CarrierRating::A => "a"@,
            CarrierRating::AMinus => "a_minus"@,
            CarrierRating::BPlus => "b_plus"@,
            CarrierRating::B => "b"@,
            CarrierRating::BMinus => "b_minus"@,
            CarrierRating::CPlus => "c_plus"@,
            CarrierRating::C => "c"@,
            CarrierRating::CMinus => "c_minus"@,
            CarrierRating::D => "d"@,
            CarrierRating::E => "e"@,
            CarrierRating::F => "f"@,
        }
    }

    /// The rating's name in documents.
    pub fn as_str(self) -> (r: &'static str)
        ensures
            r@ == self.name(),
    {
        match self {
            CarrierRating::APlusPlus => "a_plus_plus",
            CarrierRating::APlus => "a_plus",
            CarrierRating::A => "a",
            CarrierRating::AMinus => "a_minus",
            CarrierRating::BPlus => "b_plus",
            CarrierRating::B => "b",
            CarrierRating::BMinus => "b_minus",
            CarrierRating::CPlus => "c_plus",
            CarrierRating::C => "c",
            CarrierRating::CMinus => "c_minus",
            CarrierRating::D => "d",
            CarrierRating::E => "e",
            CarrierRating::F => "f",
        }
    }

    pub open spec fn sign(self) -> Seq<char> {
        match self {
            CarrierRating::APlusPlus => "A++"@,
            CarrierRating::APlus => "A+"@,
            CarrierRating::A => "A"@,
            CarrierRating::AMinus => "A-"@,
            CarrierRating::BPlus => "B+"@,
            CarrierRating::B => "B"@,
            CarrierRating::BMinus => "B-"@,
            CarrierRating::CPlus => "C+"@,
            CarrierRating::C => "C"@,
            CarrierRating::CMinus => "C-"@,
            CarrierRating::D => "D"@,
            CarrierRating::E => "E"@,
            CarrierRating::F => "F"@,
        }
    }

    /// The rating as people write it.
    pub fn label(self) -> (r: &'static str)
        ensures
            r@ == self.sign(),
    {
        match self {
            CarrierRating::APlusPlus => "A++",
            CarrierRating::APlus => "A+",
            CarrierRating::A => "A",
            CarrierRating::AMinus => "A-",
            CarrierRating::BPlus => "B+",
            CarrierRating::B => "B",
            CarrierRating::BMinus => "B-",
            CarrierRating::CPlus => "C+",
            CarrierRating::C => "C",
            CarrierRating::CMinus => "C-",
            CarrierRating::D => "D",
            CarrierRating::E => "E",
            CarrierRating::F => "F",
        }
    }
}

/// Kinds of coverage. There are no others.
#[derive(Debug, Clone, Copy, PartialEq, Eq, PartialOrd, Ord, Structural)]
pub enum Coverage {
    GeneralLiability,
    Auto,
    WorkersComp,
    Umbrella,
}

impl Coverage {
    pub open spec fn name(self) -> Seq<char> {
        match self {
            Coverage::GeneralLiability => "general_liability"@,
            Coverage::Auto => "auto"@,
            Coverage::WorkersComp => "workers_comp"@,
            Coverage::Umbrella => "umbrella"@,
        }
    }

    /// The coverage's name in documents.
    pub fn as_str(self) -> (r: &'static str)
        ensures
            r@ == self.name(),
    {
        match self {
            Coverage::GeneralLiability => "general_liability",
            Coverage::Auto => "auto",
            Coverage::WorkersComp => "workers_comp",
            Coverage::Umbrella => "umbrella",
        }
    }

    pub open spec fn sign(self) -> Seq<char> {
        match self {
            Coverage::GeneralLiability => "GL"@,
            Coverage::Auto => "Auto"@,
            Coverage::WorkersComp => "WC"@,
            Coverage::Umbrella => "Umbrella"@,
        }
    }

    /// The coverage as people write it.
    pub fn as_label(self) -> (r: &'static str)
        ensures
            r@ == self.sign(),
    {
        match self {
            Coverage::GeneralLiability => "GL",
            Coverage::Auto => "Auto",
            Coverage::WorkersComp => "WC",
            Coverage::Umbrella => "Umbrella",
        }
    }
}

/// Kinds of endorsement. There are no others.
#[derive(Debug, Clone, Copy, PartialEq, Eq, PartialOrd, Ord, Structural)]
pub enum Endorsement {
    AdditionalInsured,
    WaiverOfSubrogation,
}

impl Endorsement {
    pub open spec fn name(self) -> Seq<char> {
        match self {
            Endorsement::AdditionalInsured => "additional_insured"@,
            Endorsement::WaiverOfSubrogation => "waiver_of_subrogation"@,
        }
    }

    /// The endorsement's name in documents.
    pub fn as_str(self) -> (r: &'static str)
        ensures
            r@ == self.name(),
    {
        match self {
            Endorsement::AdditionalInsured => "additional_insured",
            Endorsement::WaiverOfSubrogation => "waiver_of_subrogation",
        }
    }
}

/// What a vendor must carry of one kind of coverage. Limits are in cents.
#[derive(Debug, Clone, PartialEq, Eq)]
pub struct CoverageRequirement {
    pub per_occurrence_cents: i128,
    pub aggregate_cents: i128,
    /// Endorsements that the policy must carry.
    pub endorsements: Vec<Endorsement>,
}

/// Requirements by kind of coverage.
#[derive(Debug, Clone, PartialEq, Eq)]
pub struct CoverageTable {
    pub general_liability: Option<CoverageRequirement>,
    pub auto: Option<CoverageRequirement>,
    pub workers_comp: Option<CoverageRequirement>,
    pub umbrella: Option<CoverageRequirement>,
}

impl CoverageTable {
    /// The requirement on a kind of coverage, if there is one.
    pub open spec fn at(self, coverage: Coverage) -> Option<CoverageRequirement> {
        match coverage {
            Coverage::GeneralLiability => self.general_liability,
            Coverage::Auto => self.auto,
            Coverage::WorkersComp => self.workers_comp,
            Coverage::Umbrella => self.umbrella,
        }
    }

    /// The table without requirements.
    pub fn new() -> (r: CoverageTable)
        ensures
            forall|c: Coverage| #[trigger] r.at(c) is None,
    {
        CoverageTable { general_liability: None, auto: None, workers_comp: None, umbrella: None }
    }

    /// Require a kind of coverage, in place of what was required of it.
    pub fn insert(&mut self, coverage: Coverage, requirement: CoverageRequirement)
        ensures
            final(self).at(coverage) == Some(requirement),
            forall|c: Coverage| c != coverage ==> #[trigger] final(self).at(c) == old(self).at(c),
    {
        match coverage {
            Coverage::GeneralLiability => {
                self.general_liability = Some(requirement);
            },
            Coverage::Auto => {
                self.auto = Some(requirement);
            },
            Coverage::WorkersComp => {
                self.workers_comp = Some(requirement);
            },
            Coverage::Umbrella => {
                self.umbrella = Some(requirement);
            },
        }
    }

    /// The requirement on a kind of coverage.
    pub fn get(&self, coverage: Coverage) -> (r: Option<&CoverageRequirement>)
        ensures
            (match r {
                Some(q) => self.at(coverage) == Some(*q),
                None => self.at(coverage) is None,
            }),
    {
        match coverage {
            Coverage::GeneralLiability => self.general_liability.as_ref(),
            Coverage::Auto => self.auto.as_ref(),
            Coverage::WorkersComp => self.workers_comp.as_ref(),
            Coverage::Umbrella => self.umbrella.as_ref(),
        }
    }

    /// Whether no coverage is required.
    pub open spec fn demands_nothing(self) -> bool {
        forall|c: Coverage| #[trigger] self.at(c) is None
    }

    /// Whether no coverage is required.
    pub fn is_empty(&self) -> (r: bool)
        ensures
            r == self.demands_nothing(),
    {
        let r = self.general_liability.is_none() && self.auto.is_none()
            && self.workers_comp.is_none() && self.umbrella.is_none();
        proof {
            assert(self.at(Coverage::GeneralLiability) == self.general_liability);
            assert(self.at(Coverage::Auto) == self.auto);
            assert(self.at(Coverage::WorkersComp) == self.workers_comp);
            assert(self.at(Coverage::Umbrella) == self.umbrella);
        }
        r
    }
}

/// What vendors of one category must carry.
#[derive(Debug, Clone, PartialEq, Eq)]
pub struct CategoryRequirement {
    /// A breach in a critical category recommends a lockout.
    pub critical: bool,
    pub coverages: CoverageTable,
}

/// The matrix, the expiry window, and the floor on carrier ratings.
#[derive(Debug, Clone, PartialEq, Eq)]
pub struct RequirementsConfig {
    pub categories: Table<CategoryRequirement>,
    /// A policy that expires within this many days is warned of.
    pub expiry_warning_days: i64,
    pub min_carrier_rating: CarrierRating,
}

// ---- validation ----

/// The first endorsement, from place `i` on, that stands at an earlier place
/// too.
pub open spec fn repeated_from(s: Seq<Endorsement>, i: int) -> Option<Endorsement>
    decreases s.len() - i,
{
    if 0 <= i < s.len() {
        if s.take(i).contains(s[i]) {
            Some(s[i])
        } else {
            repeated_from(s, i + 1)
        }
    } else {
        None
    }
}

/// The first endorsement that occurs a second time.
pub fn repeated_endorsement(v: &Vec<Endorsement>) -> (r: Option<Endorsement>)
    ensures
        r == repeated_from(v@, 0),
{
    let mut i: usize = 0;
    while i < v.len()
        invariant
            i <= v.len(),
            repeated_from(v@, 0) == repeated_from(v@, i as int),
        decreases v.len() - i,
    {
        let ghost earlier = v@.take(i as int);
        let mut j: usize = 0;
        while j < i
            invariant
                j <= i < v.len(),
                earlier == v@.take(i as int),
                forall|k: int| 0 <= k < j ==> #[trigger] earlier[k] != v@[i as int],
                repeated_from(v@, 0) == repeated_from(v@, i as int),
            decreases i - j,
        {
            if v[j] == v[i] {
                assert(earlier[j as int] == v@[i as int]);
                return Some(v[i]);
            }
            j = j + 1;
        }
        i = i + 1;
    }
    None
}

/// How a message names a requirement.
pub open spec fn requirement_place(name: Seq<char>, coverage: Coverage) -> Seq<char> {
    "category '"@ + name + "' coverage "@ + coverage.name()
}

/// What is wrong with the requirement on one coverage.
pub open spec fn requirement_error(
    name: Seq<char>,
    coverage: Coverage,
    q: Option<CoverageRequirement>,
) -> Option<Seq<char>> {
    match q {
        None => None,
        Some(q) => {
            let place = requirement_place(name, coverage);
            if q.per_occurrence_cents <= 0 {
                Some(place + ": per_occurrence_cents must be positive"@)
            } else if q.aggregate_cents <= 0 {
                Some(place + ": aggregate_cents must be positive"@)
            } else {
                match repeated_from(q.endorsements@, 0) {
                    Some(e) => Some(place + ": duplicate endorsement "@ + e.name()),
                    None => None,
                }
            }
        },
    }
}

/// What is wrong with a category.
pub open spec fn category_error(name: Seq<char>, c: CategoryRequirement) -> Option<Seq<char>> {
    if name.len() == 0 {
        Some("category name is blank"@)
    } else if c.coverages.demands_nothing() {
        Some("category '"@ + name + "' requires no coverages"@)
    } else {
        match requirement_error(
            name,
            Coverage::GeneralLiability,
            c.coverages.general_liability,
        ) {
            Some(e) => Some(e),
            None => match requirement_error(name, Coverage::Auto, c.coverages.auto) {
                Some(e) => Some(e),
                None => match requirement_error(
                    name,
                    Coverage::WorkersComp,
                    c.coverages.workers_comp,
                ) {
                    Some(e) => Some(e),
                    None => requirement_error(name, Coverage::Umbrella, c.coverages.umbrella),
                },
            },
        }
    }
}

/// What is wrong with the categories from place `i` on.
pub open spec fn categories_error(
    names: Seq<Seq<char>>,
    s: Seq<CategoryRequirement>,
    i: int,
) -> Option<Seq<char>>
    decreases names.len() - i,
{
    if 0 <= i < names.len() {
        match category_error(names[i], s[i]) {
            Some(e) => Some(e),
            None => categories_error(names, s, i + 1),
        }
    } else {
        None
    }
}

/// What is wrong with a window and the categories of a matrix, if anything.
pub open spec fn matrix_error(
    days: int,
    names: Seq<Seq<char>>,
    categories: Seq<CategoryRequirement>,
) -> Option<Seq<char>> {
    if days < 0 {
        Some("expiry_warning_days must be >= 0"@)
    } else if names.len() == 0 {
        Some("requirements matrix has no categories — refuse to run against an empty matrix"@)
    } else {
        categories_error(names, categories, 0)
    }
}

/// What is wrong with a matrix, if anything.
pub open spec fn config_error(c: RequirementsConfig) -> Option<Seq<char>> {
    matrix_error(c.expiry_warning_days as int, c.categories.keys(), c.categories.values())
}

/// What is wrong with a matrix once the names of its categories are trimmed,
/// if anything.
pub open spec fn trimmed_error(c: RequirementsConfig) -> Option<Seq<char>> {
    matrix_error(
        c.expiry_warning_days as int,
        table::trimmed_keys(c.categories.keys()),
        table::trimmed_values(c.categories.keys(), c.categories.values()),
    )
}

/// Whether a matrix is another one with the names of its categories trimmed.
pub open spec fn is_trimmed_of(after: RequirementsConfig, before: RequirementsConfig) -> bool {
    &&& after.expiry_warning_days == before.expiry_warning_days
    &&& after.min_carrier_rating == before.min_carrier_rating
    &&& after.categories.keys() == table::trimmed_keys(before.categories.keys())
    &&& after.categories.values() == table::trimmed_values(
        before.categories.keys(),
        before.categories.values(),
    )
}

fn place_text(name: &str, coverage: Coverage) -> (r: String)
    ensures
        r@ == requirement_place(name@, coverage),
{
    let mut out = String::from_str("category '");
    out.append(name);
    out.append("' coverage ");
    out.append(coverage.as_str());
    out
}

fn check_requirement(name: &str, coverage: Coverage, q: Option<&CoverageRequirement>) -> (r: Option<
    String,
>)
    ensures
        ({
            let wrong = requirement_error(
                name@,
                coverage,
                match q {
                    Some(q) => Some(*q),
                    None => None,
                },
            );
            match r {
                Some(m) => wrong == Some(m@),
                None => wrong is None,
            }
        }),
{
    let q = match q {
        Some(q) => q,
        None => return None,
    };
    if q.per_occurrence_cents <= 0 {
        let mut m = place_text(name, coverage);
        m.append(": per_occurrence_cents must be positive");
        return Some(m);
    }
    if q.aggregate_cents <= 0 {
        let mut m = place_text(name, coverage);
        m.append(": aggregate_cents must be positive");
        return Some(m);
    }
    match repeated_endorsement(&q.endorsements) {
        Some(e) => {
            let mut m = place_text(name, coverage);
            m.append(": duplicate endorsement ");
            m.append(e.as_str());
            Some(m)
        },
        None => None,
    }
}

fn check_category(name: &str, c: &CategoryRequirement) -> (r: Option<String>)
    ensures
        (match r {
            Some(m) => category_error(name@, *c) == Some(m@),
            None => category_error(name@, *c) is None,
        }),
{
    if name.is_empty() {
        return Some(String::from_str("category name is blank"));
    }
    if c.coverages.is_empty() {
        let mut m = String::from_str("category '");
        m.append(name);
        m.append("' requires no coverages");
        return Some(m);
    }
    let first = check_requirement(
        name,
        Coverage::GeneralLiability,
        c.coverages.get(Coverage::GeneralLiability),
    );
    if first.is_some() {
        return first;
    }
    let second = check_requirement(name, Coverage::Auto, c.coverages.get(Coverage::Auto));
    if second.is_some() {
        return second;
    }
    let third = check_requirement(
        name,
        Coverage::WorkersComp,
        c.coverages.get(Coverage::WorkersComp),
    );
    if third.is_some() {
        return third;
    }
    check_requirement(name, Coverage::Umbrella, c.coverages.get(Coverage::Umbrella))
}

impl RequirementsConfig {
    /// Take a matrix as it was read from a document, with the names of its
    /// categories trimmed. One that cannot be read, or that is not valid, is
    /// refused.
    pub fn from_json_str(read: Result<RequirementsConfig, String>) -> (r: Result<
        RequirementsConfig,
        CoiError,
    >)
        ensures
            (match read {
                Err(m) => r matches Err(e) && e@ == Refusal::Schema(
                    "requirements config: "@ + m@,
                ),
                Ok(c) => match trimmed_error(c) {
                    None => r matches Ok(n) && is_trimmed_of(n, c),
                    Some(wrong) => r matches Err(e) && e@ == Refusal::InvalidConfig(wrong),
                },
            }),
    {
        match read {
            Err(m) => {
                let mut message = String::from_str("requirements config: ");
                message.append(m.as_str());
                Err(CoiError::Schema(message))
            },
            Ok(c) => {
                let n = c.normalize();
                match n.validate() {
                    Ok(()) => Ok(n),
                    Err(e) => Err(e),
                }
            },
        }
    }

    /// The matrix with the names of its categories trimmed, so that they
    /// match the trimmed category of a certificate.
    pub fn normalize(self) -> (r: RequirementsConfig)
        ensures
            is_trimmed_of(r, self),
    {
        RequirementsConfig {
            categories: self.categories.with_trimmed_keys(),
            expiry_warning_days: self.expiry_warning_days,
            min_carrier_rating: self.min_carrier_rating,
        }
    }

    /// Refuse a matrix without categories, a category without a name or
    /// without coverages, a limit that is not positive, a repeated
    /// endorsement, or a negative window.
    pub fn validate(&self) -> (r: Result<(), CoiError>)
        ensures
            (match r {
                Ok(()) => config_error(*self) is None,
                Err(e) => config_error(*self) matches Some(m) && e@ == Refusal::InvalidConfig(m),
            }),
    {
        if self.expiry_warning_days < 0 {
            return Err(
                CoiError::InvalidConfig(String::from_str("expiry_warning_days must be >= 0")),
            );
        }
        let n: usize = self.categories.len();
        if n == 0 {
            return Err(
                CoiError::InvalidConfig(
                    String::from_str(
                        "requirements matrix has no categories — refuse to run against an empty matrix",
                    ),
                ),
            );
        }
        let ghost names = self.categories.keys();
        let ghost all = self.categories.values();
        let mut i: usize = 0;
        while i < n
            invariant
                i <= n == names.len() == all.len(),
                names == self.categories.keys(),
                all == self.categories.values(),
                self.expiry_warning_days >= 0,
                n > 0,
                categories_error(names, all, 0) == categories_error(names, all, i as int),
            decreases n - i,
        {
            match check_category(self.categories.key(i), self.categories.value(i)) {
                Some(m) => return Err(CoiError::InvalidConfig(m)),
                None => {},
            }
            i = i + 1;
        }
        Ok(())
    }
}

} // verus!
