//! Commission plans and their validation.

use vstd::prelude::*;
use vstd::string::StringExecFns;

use crate::date;
use crate::date::Date;
use crate::text;

verus! {

/// Attainment is expressed in parts per million of quota.
pub const ATTAINMENT_SCALE: i128 = 1_000_000;

/// Basis points per whole unit.
pub const BASIS_POINTS: i128 = 10_000;

/// How accelerator bands apply to credited revenue.
#[derive(Debug, Clone, Copy, PartialEq, Eq, PartialOrd, Ord, Structural)]
pub enum BandMode {
    /// Each slice of the attainment range is paid at its own band's rate.
    Marginal,
    /// The band of the total attainment sets the rate on all revenue.
    Cliff,
}

/// One accelerator band. Its upper bound is exclusive.
#[derive(Debug, Clone, Copy, PartialEq, Eq, Structural)]
pub struct Band {
    /// Upper attainment bound in ppm; only the last band may have none.
    pub up_to_ppm: Option<u64>,
    /// Rate on credited revenue in basis points.
    pub rate_bps: u32,
}

/// The split weight of a role.
#[derive(Debug, Clone, PartialEq, Eq)]
pub struct RoleWeight {
    pub role: String,
    pub weight_bps: u32,
}

/// One version of a plan. A transaction is computed under the version in
/// force at its date.
#[derive(Debug, Clone, PartialEq, Eq)]
pub struct PlanVersion {
    pub version: u32,
    pub effective_from: Date,
    /// Inclusive; open where there is none.
    pub effective_to: Option<Date>,
    pub quota_cents: i128,
    pub band_mode: BandMode,
    pub bands: Vec<Band>,
    /// Commission basis is capped at this attainment.
    pub windfall_cap_ppm: Option<u64>,
    /// Largest allowed spread between band rates.
    pub max_spread_bps: Option<u32>,
    /// Role split weights; they sum to 10 000.
    pub role_weights: Vec<RoleWeight>,
}

/// A plan: versions in ascending order that do not overlap.
#[derive(Debug, Clone, PartialEq, Eq)]
pub struct PlanConfig {
    pub plan_id: String,
    pub versions: Vec<PlanVersion>,
}

/// Why a plan is refused.
#[derive(Debug, Clone, PartialEq, Eq)]
pub enum ConfigError {
    EmptyPlanId,
    EmptyVersions,
    UnsortedVersions,
    InvertedRange { version: u32, from: Date, to: Date },
    Overlap { version: u32, other: u32 },
    DuplicateVersionNumber { version: u32 },
    NonPositiveQuota { version: u32 },
    EmptyBands { version: u32 },
    UnboundedNotLast { version: u32, index: usize },
    NonPositiveBandBound { version: u32, index: usize },
    BandsNotAscending { version: u32, index: usize },
    RateOutOfRange { version: u32, index: usize },
    SpreadCapExceeded { version: u32, allowed: u32, actual: i64 },
    NonPositiveWindfallCap { version: u32 },
    EmptyRoleWeights { version: u32 },
    DuplicateRole { version: u32, role: String },
    NonPositiveWeight { version: u32, role: String },
    WeightSum { version: u32, sum: i64 },
}

/// What a [`ConfigError`] says.
pub enum ConfigRefusal {
    EmptyPlanId,
    EmptyVersions,
    UnsortedVersions,
    InvertedRange { version: u32, from: int, to: int },
    Overlap { version: u32, other: u32 },
    DuplicateVersionNumber { version: u32 },
    NonPositiveQuota { version: u32 },
    EmptyBands { version: u32 },
    UnboundedNotLast { version: u32, index: int },
    NonPositiveBandBound { version: u32, index: int },
    BandsNotAscending { version: u32, index: int },
    RateOutOfRange { version: u32, index: int },
    SpreadCapExceeded { version: u32, allowed: u32, actual: int },
    NonPositiveWindfallCap { version: u32 },
    EmptyRoleWeights { version: u32 },
    DuplicateRole { version: u32, role: Seq<char> },
    NonPositiveWeight { version: u32, role: Seq<char> },
    WeightSum { version: u32, sum: int },
}

impl View for ConfigError {
    type V = ConfigRefusal;

    open spec fn view(&self) -> ConfigRefusal {
        match self {
            ConfigError::EmptyPlanId => ConfigRefusal::EmptyPlanId,
            ConfigError::EmptyVersions => ConfigRefusal::EmptyVersions,
            ConfigError::UnsortedVersions => ConfigRefusal::UnsortedVersions,
            ConfigError::InvertedRange { version, from, to } => ConfigRefusal::InvertedRange {
                version: *version,
                from: from.day(),
                to: to.day(),
            },
            ConfigError::Overlap { version, other } => ConfigRefusal::Overlap {
                version: *version,
                other: *other,
            },
            ConfigError::DuplicateVersionNumber { version } => {
                ConfigRefusal::DuplicateVersionNumber { version: *version }
            },
            ConfigError::NonPositiveQuota { version } => ConfigRefusal::NonPositiveQuota {
                version: *version,
            },
            ConfigError::EmptyBands { version } => ConfigRefusal::EmptyBands { version: *version },
            ConfigError::UnboundedNotLast { version, index } => ConfigRefusal::UnboundedNotLast {
                version: *version,
                index: *index as int,
            },
            ConfigError::NonPositiveBandBound { version, index } => {
                ConfigRefusal::NonPositiveBandBound { version: *version, index: *index as int }
            },
            ConfigError::BandsNotAscending { version, index } => ConfigRefusal::BandsNotAscending {
                version: *version,
                index: *index as int,
            },
            ConfigError::RateOutOfRange { version, index } => ConfigRefusal::RateOutOfRange {
                version: *version,
                index: *index as int,
            },
            ConfigError::SpreadCapExceeded { version, allowed, actual } => {
                ConfigRefusal::SpreadCapExceeded {
                    version: *version,
                    allowed: *allowed,
                    actual: *actual as int,
                }
            },
            ConfigError::NonPositiveWindfallCap { version } => {
                ConfigRefusal::NonPositiveWindfallCap { version: *version }
            },
            ConfigError::EmptyRoleWeights { version } => ConfigRefusal::EmptyRoleWeights {
                version: *version,
            },
            ConfigError::DuplicateRole { version, role } => ConfigRefusal::DuplicateRole {
                version: *version,
                role: role@,
            },
            ConfigError::NonPositiveWeight { version, role } => ConfigRefusal::NonPositiveWeight {
                version: *version,
                role: role@,
            },
            ConfigError::WeightSum { version, sum } => ConfigRefusal::WeightSum {
                version: *version,
                sum: *sum as int,
            },
        }
    }
}

/// The beginning of every complaint about a version.
pub open spec fn version_prefix(version: u32) -> Seq<char> {
    "plan version "@ + text::decimal(version as nat)
}

/// The beginning of every complaint about a band.
pub open spec fn band_prefix(version: u32, index: int) -> Seq<char> {
    version_prefix(version) + ": band "@ + text::decimal(index as nat)
}

/// A refusal as a line of text.
pub open spec fn refusal_text(e: ConfigRefusal) -> Seq<char> {
    match e {
        ConfigRefusal::EmptyPlanId => "plan_id must be non-empty"@,
        ConfigRefusal::EmptyVersions => "plan has no versions"@,
        ConfigRefusal::UnsortedVersions =>
            "plan versions are not sorted ascending by effective_from"@,
        ConfigRefusal::InvertedRange { version, from, to } => version_prefix(version)
            + ": effective range is inverted ("@ + date::date_text(from) + " after "@ + date::date_text(to)
            + ")"@,
        ConfigRefusal::Overlap { version, other } => version_prefix(version)
            + ": effective range overlaps version "@ + text::decimal(other as nat),
        ConfigRefusal::DuplicateVersionNumber { version } => version_prefix(version)
            + ": duplicate version number"@,
        ConfigRefusal::NonPositiveQuota { version } => version_prefix(version)
            + ": quota must be positive"@,
        ConfigRefusal::EmptyBands { version } => version_prefix(version)
            + ": bands must be non-empty"@,
        ConfigRefusal::UnboundedNotLast { version, index } => band_prefix(version, index)
            + ": only the last band may be unbounded"@,
        ConfigRefusal::NonPositiveBandBound { version, index } => band_prefix(version, index)
            + ": up_to_ppm must be positive"@,
        ConfigRefusal::BandsNotAscending { version, index } => band_prefix(version, index)
            + ": bands must ascend strictly by up_to_ppm"@,
        ConfigRefusal::RateOutOfRange { version, index } => band_prefix(version, index)
            + ": rate_bps must be 1..=10000"@,
        ConfigRefusal::SpreadCapExceeded { version, allowed, actual } => version_prefix(version)
            + ": band rate spread "@ + text::signed_decimal(actual) + " bps exceeds max_spread_bps "@
            + text::decimal(allowed as nat),
        ConfigRefusal::NonPositiveWindfallCap { version } => version_prefix(version)
            + ": windfall cap must be positive"@,
        ConfigRefusal::EmptyRoleWeights { version } => version_prefix(version)
            + ": role weights must be non-empty"@,
        ConfigRefusal::DuplicateRole { version, role } => version_prefix(version)
            + ": duplicate role weight for role "@ + text::debug_text(role),
        ConfigRefusal::NonPositiveWeight { version, role } => version_prefix(version) + ": role "@
            + text::debug_text(role) + ": weight must be positive"@,
        ConfigRefusal::WeightSum { version, sum } => version_prefix(version)
            + ": role weights sum to "@ + text::signed_decimal(sum) + " bps, expected 10000"@,
    }
}

fn version_line(version: u32, rest: &str) -> (r: String)
    ensures
        r@ == version_prefix(version) + rest@,
{
    let mut out = String::from_str("plan version ");
    out.append(text::unsigned_text(version as u128).as_str());
    out.append(rest);
    out
}

fn band_line(version: u32, index: usize, rest: &str) -> (r: String)
    ensures
        r@ == band_prefix(version, index as int) + rest@,
{
    let mut out = version_line(version, ": band ");
    out.append(text::count_text(index).as_str());
    out.append(rest);
    out
}

impl ConfigError {
    /// The error as a line of text.
    pub fn message(&self) -> (r: String)
        ensures
            r@ == refusal_text(self@),
    {
        match self {
            ConfigError::EmptyPlanId => String::from_str("plan_id must be non-empty"),
            ConfigError::EmptyVersions => String::from_str("plan has no versions"),
            ConfigError::UnsortedVersions => String::from_str(
                "plan versions are not sorted ascending by effective_from",
            ),
            ConfigError::InvertedRange { version, from, to } => {
                let mut out = version_line(*version, ": effective range is inverted (");
                out.append(from.text().as_str());
                out.append(" after ");
                out.append(to.text().as_str());
                out.append(")");
                out
            },
            ConfigError::Overlap { version, other } => {
                let mut out = version_line(*version, ": effective range overlaps version ");
                out.append(text::unsigned_text(*other as u128).as_str());
                out
            },
            ConfigError::DuplicateVersionNumber { version } => version_line(
                *version,
                ": duplicate version number",
            ),
            ConfigError::NonPositiveQuota { version } => version_line(
                *version,
                ": quota must be positive",
            ),
            ConfigError::EmptyBands { version } => version_line(
                *version,
                ": bands must be non-empty",
            ),
            ConfigError::UnboundedNotLast { version, index } => band_line(
                *version,
                *index,
                ": only the last band may be unbounded",
            ),
            ConfigError::NonPositiveBandBound { version, index } => band_line(
                *version,
                *index,
                ": up_to_ppm must be positive",
            ),
            ConfigError::BandsNotAscending { version, index } => band_line(
                *version,
                *index,
                ": bands must ascend strictly by up_to_ppm",
            ),
            ConfigError::RateOutOfRange { version, index } => band_line(
                *version,
                *index,
                ": rate_bps must be 1..=10000",
            ),
            ConfigError::SpreadCapExceeded { version, allowed, actual } => {
                let mut out = version_line(*version, ": band rate spread ");
                out.append(text::signed_text(*actual as i128).as_str());
                out.append(" bps exceeds max_spread_bps ");
                out.append(text::unsigned_text(*allowed as u128).as_str());
                out
            },
            ConfigError::NonPositiveWindfallCap { version } => version_line(
                *version,
                ": windfall cap must be positive",
            ),
            ConfigError::EmptyRoleWeights { version } => version_line(
                *version,
                ": role weights must be non-empty",
            ),
            ConfigError::DuplicateRole { version, role } => {
                let mut out = version_line(*version, ": duplicate role weight for role ");
                out.append(text::debug_of(role.as_str()).as_str());
                out
            },
            ConfigError::NonPositiveWeight { version, role } => {
                let mut out = version_line(*version, ": role ");
                out.append(text::debug_of(role.as_str()).as_str());
                out.append(": weight must be positive");
                out
            },
            ConfigError::WeightSum { version, sum } => {
                let mut out = version_line(*version, ": role weights sum to ");
                out.append(text::signed_text(*sum as i128).as_str());
                out.append(" bps, expected 10000");
                out
            },
        }
    }
}

/// Whether a version is in force on a day: both ends count.
pub open spec fn in_force(v: PlanVersion, day: int) -> bool {
    v.effective_from.day() <= day && (v.effective_to is Some ==> day <= v.effective_to->0.day())
}

/// The weight of a role, from the first entry that names it.
pub open spec fn weight_of(weights: Seq<RoleWeight>, role: Seq<char>, i: int) -> Option<u32>
    decreases weights.len() - i,
{
    if i >= weights.len() {
        None
    } else if weights[i].role@ == role {
        Some(weights[i].weight_bps)
    } else {
        weight_of(weights, role, i + 1)
    }
}

/// The first version from `i` on that is in force on a day.
pub open spec fn version_on(versions: Seq<PlanVersion>, day: int, i: int) -> Option<int>
    decreases versions.len() - i,
{
    if i >= versions.len() {
        None
    } else if in_force(versions[i], day) {
        Some(i)
    } else {
        version_on(versions, day, i + 1)
    }
}

impl PlanVersion {
    /// Whether the version is in force on a date: both ends count.
    pub fn covers(&self, date: Date) -> (r: bool)
        ensures
            r == in_force(*self, date.day()),
    {
        let day: i32 = date.day_number();
        let ends = match self.effective_to {
            Some(to) => day <= to.day_number(),
            None => true,
        };
        self.effective_from.day_number() <= day && ends
    }

    /// The split weight of a role, where the version has one.
    pub fn role_weight(&self, role: &str) -> (r: Option<u32>)
        ensures
            r == weight_of(self.role_weights@, role@, 0),
    {
        let mut i: usize = 0;
        while i < self.role_weights.len()
            invariant
                i <= self.role_weights.len(),
                weight_of(self.role_weights@, role@, 0) == weight_of(
                    self.role_weights@,
                    role@,
                    i as int,
                ),
            decreases self.role_weights.len() - i,
        {
            if text::same_text(self.role_weights[i].role.as_str(), role) {
                return Some(self.role_weights[i].weight_bps);
            }
            i = i + 1;
        }
        None
    }
}

/// What is wrong with band `i` of a version.
pub open spec fn band_error(v: PlanVersion, i: int) -> Option<ConfigRefusal> {
    let band = v.bands@[i];
    let before: int = if i > 0 && v.bands@[i - 1].up_to_ppm is Some {
        v.bands@[i - 1].up_to_ppm->0 as int
    } else {
        0
    };
    if band.up_to_ppm is None && i != v.bands.len() - 1 {
        Some(ConfigRefusal::UnboundedNotLast { version: v.version, index: i })
    } else if band.up_to_ppm == Some(0u64) {
        Some(ConfigRefusal::NonPositiveBandBound { version: v.version, index: i })
    } else if band.up_to_ppm is Some && i > 0 && band.up_to_ppm->0 <= before {
        Some(ConfigRefusal::BandsNotAscending { version: v.version, index: i })
    } else if band.rate_bps == 0 || band.rate_bps > 10_000 {
        Some(ConfigRefusal::RateOutOfRange { version: v.version, index: i })
    } else {
        None
    }
}

/// The first thing wrong with the bands from `i` on.
pub open spec fn bands_error(v: PlanVersion, i: int) -> Option<ConfigRefusal>
    decreases v.bands.len() - i,
{
    if i >= v.bands.len() {
        None
    } else {
        match band_error(v, i) {
            Some(e) => Some(e),
            None => bands_error(v, i + 1),
        }
    }
}

/// The highest rate among the first `n` bands.
pub open spec fn highest_rate(bands: Seq<Band>, n: int) -> int
    decreases n,
{
    if n <= 1 {
        bands[0].rate_bps as int
    } else if bands[n - 1].rate_bps > highest_rate(bands, n - 1) {
        bands[n - 1].rate_bps as int
    } else {
        highest_rate(bands, n - 1)
    }
}

/// The lowest rate among the first `n` bands.
pub open spec fn lowest_rate(bands: Seq<Band>, n: int) -> int
    decreases n,
{
    if n <= 1 {
        bands[0].rate_bps as int
    } else if bands[n - 1].rate_bps < lowest_rate(bands, n - 1) {
        bands[n - 1].rate_bps as int
    } else {
        lowest_rate(bands, n - 1)
    }
}

/// The spread between the band rates.
pub open spec fn spread(bands: Seq<Band>) -> int {
    highest_rate(bands, bands.len() as int) - lowest_rate(bands, bands.len() as int)
}

/// Whether one of the first `n` entries names the role.
pub open spec fn role_seen(weights: Seq<RoleWeight>, n: int, role: Seq<char>) -> bool {
    exists|k: int| 0 <= k < n && #[trigger] weights[k].role@ == role
}

/// What is wrong with role weight `i` of a version, given those before it.
pub open spec fn weight_error(v: PlanVersion, i: int) -> Option<ConfigRefusal> {
    let w = v.role_weights@[i];
    if text::is_blank(w.role@) {
        Some(ConfigRefusal::NonPositiveWeight { version: v.version, role: w.role@ })
    } else if role_seen(v.role_weights@, i, w.role@) {
        Some(ConfigRefusal::DuplicateRole { version: v.version, role: w.role@ })
    } else if w.weight_bps == 0 {
        Some(ConfigRefusal::NonPositiveWeight { version: v.version, role: w.role@ })
    } else {
        None
    }
}

/// The first thing wrong with the role weights from `i` on.
pub open spec fn weights_error(v: PlanVersion, i: int) -> Option<ConfigRefusal>
    decreases v.role_weights.len() - i,
{
    if i >= v.role_weights.len() {
        None
    } else {
        match weight_error(v, i) {
            Some(e) => Some(e),
            None => weights_error(v, i + 1),
        }
    }
}

/// The sum of the first `n` role weights.
pub open spec fn weight_sum(weights: Seq<RoleWeight>, n: int) -> int
    decreases n,
{
    if n <= 0 {
        0
    } else {
        weight_sum(weights, n - 1) + weights[n - 1].weight_bps
    }
}

/// How a sum of weights is told: as it is, or as the most that can be told.
pub open spec fn told_sum(sum: int) -> int {
    if sum <= i64::MAX {
        sum
    } else {
        i64::MAX as int
    }
}

/// The first thing wrong with a version on its own.
pub open spec fn version_error(v: PlanVersion) -> Option<ConfigRefusal> {
    if v.bands.len() == 0 {
        Some(ConfigRefusal::EmptyBands { version: v.version })
    } else if bands_error(v, 0) is Some {
        bands_error(v, 0)
    } else if v.windfall_cap_ppm == Some(0u64) {
        Some(ConfigRefusal::NonPositiveWindfallCap { version: v.version })
    } else if v.max_spread_bps is Some && spread(v.bands@) > v.max_spread_bps->0 {
        Some(
            ConfigRefusal::SpreadCapExceeded {
                version: v.version,
                allowed: v.max_spread_bps->0,
                actual: spread(v.bands@),
            },
        )
    } else if v.role_weights.len() == 0 {
        Some(ConfigRefusal::EmptyRoleWeights { version: v.version })
    } else if weights_error(v, 0) is Some {
        weights_error(v, 0)
    } else if weight_sum(v.role_weights@, v.role_weights.len() as int) != 10_000 {
        Some(
            ConfigRefusal::WeightSum {
                version: v.version,
                sum: told_sum(weight_sum(v.role_weights@, v.role_weights.len() as int)),
            },
        )
    } else {
        None
    }
}

/// Whether one of the first `n` versions has the number.
pub open spec fn number_seen(versions: Seq<PlanVersion>, n: int, number: u32) -> bool {
    exists|k: int| 0 <= k < n && (#[trigger] versions[k]).version == number
}

/// What is wrong with version `i` of a plan, given those before it.
pub open spec fn placed_error(versions: Seq<PlanVersion>, i: int) -> Option<ConfigRefusal> {
    let v = versions[i];
    if number_seen(versions, i, v.version) {
        Some(ConfigRefusal::DuplicateVersionNumber { version: v.version })
    } else if v.quota_cents <= 0 {
        Some(ConfigRefusal::NonPositiveQuota { version: v.version })
    } else if v.effective_to is Some && v.effective_from.day() > v.effective_to->0.day() {
        Some(
            ConfigRefusal::InvertedRange {
                version: v.version,
                from: v.effective_from.day(),
                to: v.effective_to->0.day(),
            },
        )
    } else if i > 0 && v.effective_from.day() < versions[i - 1].effective_from.day() {
        Some(ConfigRefusal::UnsortedVersions)
    } else if i > 0 && (versions[i - 1].effective_to is None || v.effective_from.day()
        <= versions[i - 1].effective_to->0.day()) {
        Some(ConfigRefusal::Overlap { version: v.version, other: versions[i - 1].version })
    } else {
        version_error(v)
    }
}

/// The first thing wrong with the versions from `i` on.
pub open spec fn versions_error(versions: Seq<PlanVersion>, i: int) -> Option<ConfigRefusal>
    decreases versions.len() - i,
{
    if i >= versions.len() {
        None
    } else {
        match placed_error(versions, i) {
            Some(e) => Some(e),
            None => versions_error(versions, i + 1),
        }
    }
}

/// The first thing wrong with a plan.
pub open spec fn plan_error(p: PlanConfig) -> Option<ConfigRefusal> {
    if text::is_blank(p.plan_id@) {
        Some(ConfigRefusal::EmptyPlanId)
    } else if p.versions.len() == 0 {
        Some(ConfigRefusal::EmptyVersions)
    } else {
        versions_error(p.versions@, 0)
    }
}

fn check_bands(v: &PlanVersion) -> (r: Result<(), ConfigError>)
    ensures
        (match r {
            Ok(_) => bands_error(*v, 0) is None,
            Err(e) => bands_error(*v, 0) == Some(e@),
        }),
{
    let mut i: usize = 0;
    while i < v.bands.len()
        invariant
            i <= v.bands.len(),
            bands_error(*v, 0) == bands_error(*v, i as int),
        decreases v.bands.len() - i,
    {
        let band = v.bands[i];
        match band.up_to_ppm {
            None => {
                if i != v.bands.len() - 1 {
                    return Err(ConfigError::UnboundedNotLast { version: v.version, index: i });
                }
            },
            Some(up) => {
                if up == 0 {
                    return Err(ConfigError::NonPositiveBandBound { version: v.version, index: i });
                }
                if i > 0 {
                    let before: u64 = match v.bands[i - 1].up_to_ppm {
                        Some(b) => b,
                        None => 0,
                    };
                    if up <= before {
                        return Err(
                            ConfigError::BandsNotAscending { version: v.version, index: i },
                        );
                    }
                }
            },
        }
        if band.rate_bps == 0 || band.rate_bps > 10_000 {
            return Err(ConfigError::RateOutOfRange { version: v.version, index: i });
        }
        i = i + 1;
    }
    Ok(())
}

fn band_spread(bands: &Vec<Band>) -> (r: i64)
    requires
        bands.len() > 0,
    ensures
        r == spread(bands@),
{
    let mut high: u32 = bands[0].rate_bps;
    let mut low: u32 = bands[0].rate_bps;
    let mut i: usize = 1;
    while i < bands.len()
        invariant
            1 <= i <= bands.len(),
            high == highest_rate(bands@, i as int),
            low == lowest_rate(bands@, i as int),
        decreases bands.len() - i,
    {
        let rate: u32 = bands[i].rate_bps;
        if rate > high {
            high = rate;
        }
        if rate < low {
            low = rate;
        }
        i = i + 1;
    }
    high as i64 - low as i64
}

fn seen_role(weights: &Vec<RoleWeight>, n: usize, role: &String) -> (r: bool)
    requires
        n <= weights.len(),
    ensures
        r == role_seen(weights@, n as int, role@),
{
    let mut k: usize = 0;
    while k < n
        invariant
            k <= n <= weights.len(),
            forall|j: int| 0 <= j < k ==> #[trigger] weights@[j].role@ != role@,
        decreases n - k,
    {
        if weights[k].role == *role {
            return true;
        }
        k = k + 1;
    }
    false
}

fn check_weights(v: &PlanVersion) -> (r: Result<i128, ConfigError>)
    ensures
        (match r {
            Ok(sum) => weights_error(*v, 0) is None && 0 <= sum == weight_sum(
                v.role_weights@,
                v.role_weights.len() as int,
            ),
            Err(e) => weights_error(*v, 0) == Some(e@),
        }),
{
    let mut sum: i128 = 0;
    let mut i: usize = 0;
    while i < v.role_weights.len()
        invariant
            i <= v.role_weights.len(),
            weights_error(*v, 0) == weights_error(*v, i as int),
            sum == weight_sum(v.role_weights@, i as int),
            0 <= sum <= i * 0xffff_ffff,
        decreases v.role_weights.len() - i,
    {
        let w = &v.role_weights[i];
        if text::blank(w.role.as_str()) {
            return Err(
                ConfigError::NonPositiveWeight { version: v.version, role: w.role.clone() },
            );
        }
        if seen_role(&v.role_weights, i, &w.role) {
            return Err(ConfigError::DuplicateRole { version: v.version, role: w.role.clone() });
        }
        if w.weight_bps == 0 {
            return Err(
                ConfigError::NonPositiveWeight { version: v.version, role: w.role.clone() },
            );
        }
        sum = sum + w.weight_bps as i128;
        i = i + 1;
    }
    Ok(sum)
}

fn seen_number(versions: &Vec<PlanVersion>, n: usize, number: u32) -> (r: bool)
    requires
        n <= versions.len(),
    ensures
        r == number_seen(versions@, n as int, number),
{
    let mut k: usize = 0;
    while k < n
        invariant
            k <= n <= versions.len(),
            forall|j: int| 0 <= j < k ==> (#[trigger] versions@[j]).version != number,
        decreases n - k,
    {
        if versions[k].version == number {
            return true;
        }
        k = k + 1;
    }
    false
}

impl PlanConfig {
    /// Fail-closed validation: the first refusal found.
    pub fn validate(&self) -> (r: Result<(), ConfigError>)
        ensures
            (match r {
                Ok(_) => plan_error(*self) is None,
                Err(e) => plan_error(*self) == Some(e@),
            }),
    {
        if text::blank(self.plan_id.as_str()) {
            return Err(ConfigError::EmptyPlanId);
        }
        if self.versions.len() == 0 {
            return Err(ConfigError::EmptyVersions);
        }
        let mut i: usize = 0;
        while i < self.versions.len()
            invariant
                i <= self.versions.len(),
                !text::is_blank(self.plan_id@),
                self.versions.len() > 0,
                versions_error(self.versions@, 0) == versions_error(self.versions@, i as int),
            decreases self.versions.len() - i,
        {
            let v = &self.versions[i];
            if seen_number(&self.versions, i, v.version) {
                return Err(ConfigError::DuplicateVersionNumber { version: v.version });
            }
            if v.quota_cents <= 0 {
                return Err(ConfigError::NonPositiveQuota { version: v.version });
            }
            if let Some(to) = v.effective_to {
                if v.effective_from.day_number() > to.day_number() {
                    return Err(
                        ConfigError::InvertedRange {
                            version: v.version,
                            from: v.effective_from,
                            to,
                        },
                    );
                }
            }
            if i > 0 {
                let prev = &self.versions[i - 1];
                if v.effective_from.day_number() < prev.effective_from.day_number() {
                    return Err(ConfigError::UnsortedVersions);
                }
                let overlaps = match prev.effective_to {
                    Some(to) => v.effective_from.day_number() <= to.day_number(),
                    None => true,
                };
                if overlaps {
                    return Err(ConfigError::Overlap { version: v.version, other: prev.version });
                }
            }
            match self.validate_version(v) {
                Ok(_) => {},
                Err(e) => return Err(e),
            }
            i = i + 1;
        }
        Ok(())
    }

    /// Validation of one version on its own.
    pub fn validate_version(&self, v: &PlanVersion) -> (r: Result<(), ConfigError>)
        ensures
            (match r {
                Ok(_) => version_error(*v) is None,
                Err(e) => version_error(*v) == Some(e@),
            }),
    {
        if v.bands.len() == 0 {
            return Err(ConfigError::EmptyBands { version: v.version });
        }
        match check_bands(v) {
            Ok(_) => {},
            Err(e) => return Err(e),
        }
        if let Some(cap) = v.windfall_cap_ppm {
            if cap == 0 {
                return Err(ConfigError::NonPositiveWindfallCap { version: v.version });
            }
        }
        if let Some(allowed) = v.max_spread_bps {
            let actual: i64 = band_spread(&v.bands);
            if actual > allowed as i64 {
                return Err(
                    ConfigError::SpreadCapExceeded { version: v.version, allowed, actual },
                );
            }
        }
        if v.role_weights.len() == 0 {
            return Err(ConfigError::EmptyRoleWeights { version: v.version });
        }
        match check_weights(v) {
            Ok(sum) => {
                if sum != 10_000 {
                    let told: i64 = if sum <= 0x7fff_ffff_ffff_ffff {
                        sum as i64
                    } else {
                        0x7fff_ffff_ffff_ffff
                    };
                    return Err(ConfigError::WeightSum { version: v.version, sum: told });
                }
                Ok(())
            },
            Err(e) => Err(e),
        }
    }

    /// The place of the version in force on a date, where there is one.
    pub fn version_index_for_date(&self, date: Date) -> (r: Option<usize>)
        ensures
            (match r {
                Some(i) => version_on(self.versions@, date.day(), 0) == Some(i as int) && i
                    < self.versions.len(),
                None => version_on(self.versions@, date.day(), 0) is None,
            }),
    {
        let mut i: usize = 0;
        while i < self.versions.len()
            invariant
                i <= self.versions.len(),
                version_on(self.versions@, date.day(), 0) == version_on(
                    self.versions@,
                    date.day(),
                    i as int,
                ),
            decreases self.versions.len() - i,
        {
            if self.versions[i].covers(date) {
                return Some(i);
            }
            i = i + 1;
        }
        None
    }
}

} // verus!
