//! Covenants, cures, projection settings, and their validation.

use vstd::prelude::*;
use vstd::string::StringExecFns;

use crate::covenant::units::{Cents, Ratio};
use crate::date;
use crate::date::Date;
use crate::text;

verus! {

/// What a covenant tests. The kind fixes the formula and the direction.
#[derive(Debug, Clone, Copy, PartialEq, Eq, Structural)]
pub enum CovenantKind {
    MaxLeverage,
    MinInterestCoverage,
    MinCurrentRatio,
    MinFixedChargeCoverage,
}

impl CovenantKind {
    pub open spec fn name(self) -> Seq<char> {
        match self {
            CovenantKind::MaxLeverage => "max leverage"@,
            CovenantKind::MinInterestCoverage => "min interest coverage"@,
            CovenantKind::MinCurrentRatio => "min current ratio"@,
            CovenantKind::MinFixedChargeCoverage => "min fixed-charge coverage"@,
        }
    }

    /// The kind in words.
    pub fn label(self) -> (r: &'static str)
        ensures
            r@ == self.name(),
    {
        match self {
            CovenantKind::MaxLeverage => "max leverage",
            CovenantKind::MinInterestCoverage => "min interest coverage",
            CovenantKind::MinCurrentRatio => "min current ratio",
            CovenantKind::MinFixedChargeCoverage => "min fixed-charge coverage",
        }
    }

    /// Whether the ratio must stay at or below the threshold.
    pub open spec fn caps(self) -> bool {
        self == CovenantKind::MaxLeverage
    }

    /// Whether the ratio must stay at or below the threshold; otherwise it
    /// must reach it.
    pub fn is_maximum(self) -> (r: bool)
        ensures
            r == self.caps(),
    {
        matches!(self, CovenantKind::MaxLeverage)
    }
}

/// What a covenant measures: a quarter, or the four quarters up to it.
#[derive(Debug, Clone, Copy, PartialEq, Eq, Structural)]
pub enum Basis {
    Ltm,
    Quarterly,
}

impl Basis {
    pub open spec fn name(self) -> Seq<char> {
        match self {
            Basis::Ltm => "ltm"@,
            Basis::Quarterly => "quarterly"@,
        }
    }

    /// The basis in words.
    pub fn label(self) -> (r: &'static str)
        ensures
            r@ == self.name(),
    {
        match self {
            Basis::Ltm => "ltm",
            Basis::Quarterly => "quarterly",
        }
    }
}

/// Quarters in a trailing window.
pub const LTM_QUARTERS: usize = 4;

/// Whether a half-open window holds a day.
pub open spec fn window_holds(from: Date, to: Option<Date>, day: int) -> bool {
    from.day() <= day && (to is Some ==> day < to->0.day())
}

fn in_window(from: Date, to: Option<Date>, day: Date) -> (r: bool)
    ensures
        r == window_holds(from, to, day.day()),
{
    from.day_number() <= day.day_number() && match to {
        Some(to) => day.day_number() < to.day_number(),
        None => true,
    }
}

/// One version of a covenant, in force from `effective_from` until before
/// `effective_to`. Versions of one covenant share its id.
#[derive(Debug, Clone, PartialEq, Eq)]
pub struct CovenantRule {
    pub id: String,
    pub kind: CovenantKind,
    pub threshold: Ratio,
    pub basis: Basis,
    pub effective_from: Date,
    pub effective_to: Option<Date>,
}

impl CovenantRule {
    pub open spec fn holds_on(self, day: int) -> bool {
        window_holds(self.effective_from, self.effective_to, day)
    }

    /// Whether this version is in force on a date.
    pub fn is_in_force(&self, date: Date) -> (r: bool)
        ensures
            r == self.holds_on(date.day()),
    {
        in_window(self.effective_from, self.effective_to, date)
    }
}

/// An equity cure: added to EBITDA and taken off debt while in force.
#[derive(Debug, Clone, PartialEq, Eq)]
pub struct EquityCure {
    pub description: String,
    pub effective_from: Date,
    pub effective_to: Option<Date>,
    pub add_to_ebitda_cents: Cents,
    pub reduce_debt_cents: Cents,
}

impl EquityCure {
    pub open spec fn holds_on(self, day: int) -> bool {
        window_holds(self.effective_from, self.effective_to, day)
    }

    /// Whether the cure is in force on a date.
    pub fn is_in_force(&self, date: Date) -> (r: bool)
        ensures
            r == self.holds_on(date.day()),
    {
        in_window(self.effective_from, self.effective_to, date)
    }
}

/// How far the trend is projected, and on how many points.
#[derive(Debug, Clone, Copy, PartialEq, Eq, Structural)]
pub struct ProjectionConfig {
    pub horizon_quarters: u32,
    pub min_history_points: u32,
}

impl Default for ProjectionConfig {
    fn default() -> (r: Self)
        ensures
            r.horizon_quarters == 4,
            r.min_history_points == 2,
    {
        ProjectionConfig { horizon_quarters: 4, min_history_points: 2 }
    }
}

/// The covenants of an entity, its cures, and the projection settings.
#[derive(Debug, Clone, PartialEq, Eq)]
pub struct CovenantConfig {
    pub covenants: Vec<CovenantRule>,
    pub equity_cures: Vec<EquityCure>,
    pub projection: ProjectionConfig,
}

impl Default for CovenantConfig {
    fn default() -> (r: Self)
        ensures
            r.covenants.len() == 0,
            r.equity_cures.len() == 0,
            r.projection.horizon_quarters == 4,
            r.projection.min_history_points == 2,
    {
        CovenantConfig {
            covenants: Vec::new(),
            equity_cures: Vec::new(),
            projection: ProjectionConfig { horizon_quarters: 4, min_history_points: 2 },
        }
    }
}

/// Why a configuration is refused.
#[derive(Debug, Clone, PartialEq, Eq)]
pub enum ConfigError {
    EmptyId { id: String },
    NegativeThreshold { id: String },
    InvalidWindow { id: String, from: Date, to: Date },
    InvalidCureWindow { description: String, from: Date, to: Date },
    HorizonZero,
    MinHistoryTooSmall,
}

/// What a [`ConfigError`] says.
pub enum ConfigRefusal {
    EmptyId { id: Seq<char> },
    NegativeThreshold { id: Seq<char> },
    InvalidWindow { id: Seq<char>, from: int, to: int },
    InvalidCureWindow { description: Seq<char>, from: int, to: int },
    HorizonZero,
    MinHistoryTooSmall,
}

impl View for ConfigError {
    type V = ConfigRefusal;

    open spec fn view(&self) -> ConfigRefusal {
        match self {
            ConfigError::EmptyId { id } => ConfigRefusal::EmptyId { id: id@ },
            ConfigError::NegativeThreshold { id } => ConfigRefusal::NegativeThreshold { id: id@ },
            ConfigError::InvalidWindow { id, from, to } => ConfigRefusal::InvalidWindow {
                id: id@,
                from: from.day(),
                to: to.day(),
            },
            ConfigError::InvalidCureWindow { description, from, to } => {
                ConfigRefusal::InvalidCureWindow {
                    description: description@,
                    from: from.day(),
                    to: to.day(),
                }
            },
            ConfigError::HorizonZero => ConfigRefusal::HorizonZero,
            ConfigError::MinHistoryTooSmall => ConfigRefusal::MinHistoryTooSmall,
        }
    }
}

/// A refusal as a line of text.
pub open spec fn refusal_text(e: ConfigRefusal) -> Seq<char> {
    match e {
        ConfigRefusal::EmptyId { id } => "covenant "@ + text::debug_text(id)
            + ": id must not be empty"@,
        ConfigRefusal::NegativeThreshold { id } => "covenant "@ + id
            + ": threshold must not be negative"@,
        ConfigRefusal::InvalidWindow { id, from, to } => "covenant "@ + id + ": effective_to "@
            + date::date_text(to) + " precedes effective_from "@ + date::date_text(from),
        ConfigRefusal::InvalidCureWindow { description, from, to } => "equity cure "@
            + text::debug_text(description) + ": effective_to "@ + date::date_text(to)
            + " precedes effective_from "@ + date::date_text(from),
        ConfigRefusal::HorizonZero => "projection.horizon_quarters must be at least 1"@,
        ConfigRefusal::MinHistoryTooSmall =>
            "projection.min_history_points must be at least 2 to fit a trend"@,
    }
}

impl ConfigError {
    /// The error as a line of text.
    pub fn message(&self) -> (r: String)
        ensures
            r@ == refusal_text(self@),
    {
        match self {
            ConfigError::EmptyId { id } => {
                let mut out = String::from_str("covenant ");
                out.append(text::debug_of(id.as_str()).as_str());
                out.append(": id must not be empty");
                out
            },
            ConfigError::NegativeThreshold { id } => {
                let mut out = String::from_str("covenant ");
                out.append(id.as_str());
                out.append(": threshold must not be negative");
                out
            },
            ConfigError::InvalidWindow { id, from, to } => {
                let mut out = String::from_str("covenant ");
                out.append(id.as_str());
                out.append(": effective_to ");
                out.append(to.text().as_str());
                out.append(" precedes effective_from ");
                out.append(from.text().as_str());
                out
            },
            ConfigError::InvalidCureWindow { description, from, to } => {
                let mut out = String::from_str("equity cure ");
                out.append(text::debug_of(description.as_str()).as_str());
                out.append(": effective_to ");
                out.append(to.text().as_str());
                out.append(" precedes effective_from ");
                out.append(from.text().as_str());
                out
            },
            ConfigError::HorizonZero => String::from_str(
                "projection.horizon_quarters must be at least 1",
            ),
            ConfigError::MinHistoryTooSmall => String::from_str(
                "projection.min_history_points must be at least 2 to fit a trend",
            ),
        }
    }
}

pub open spec fn rule_error(r: CovenantRule) -> Option<ConfigRefusal> {
    if text::is_blank(r.id@) {
        Some(ConfigRefusal::EmptyId { id: r.id@ })
    } else if r.threshold.0 < 0 {
        Some(ConfigRefusal::NegativeThreshold { id: r.id@ })
    } else if r.effective_to is Some && r.effective_to->0.day() < r.effective_from.day() {
        Some(
            ConfigRefusal::InvalidWindow {
                id: r.id@,
                from: r.effective_from.day(),
                to: r.effective_to->0.day(),
            },
        )
    } else {
        None
    }
}

pub open spec fn rules_error(s: Seq<CovenantRule>, i: int) -> Option<ConfigRefusal>
    decreases s.len() - i,
{
    if 0 <= i < s.len() {
        match rule_error(s[i]) {
            Some(e) => Some(e),
            None => rules_error(s, i + 1),
        }
    } else {
        None
    }
}

pub open spec fn cure_error(c: EquityCure) -> Option<ConfigRefusal> {
    if c.effective_to is Some && c.effective_to->0.day() < c.effective_from.day() {
        Some(
            ConfigRefusal::InvalidCureWindow {
                description: c.description@,
                from: c.effective_from.day(),
                to: c.effective_to->0.day(),
            },
        )
    } else {
        None
    }
}

pub open spec fn cures_error(s: Seq<EquityCure>, i: int) -> Option<ConfigRefusal>
    decreases s.len() - i,
{
    if 0 <= i < s.len() {
        match cure_error(s[i]) {
            Some(e) => Some(e),
            None => cures_error(s, i + 1),
        }
    } else {
        None
    }
}

pub open spec fn projection_error(p: ProjectionConfig) -> Option<ConfigRefusal> {
    if p.horizon_quarters < 1 {
        Some(ConfigRefusal::HorizonZero)
    } else if p.min_history_points < 2 {
        Some(ConfigRefusal::MinHistoryTooSmall)
    } else {
        None
    }
}

/// What is wrong with a configuration, if anything.
pub open spec fn config_error(c: CovenantConfig) -> Option<ConfigRefusal> {
    match rules_error(c.covenants@, 0) {
        Some(e) => Some(e),
        None => match cures_error(c.equity_cures@, 0) {
            Some(e) => Some(e),
            None => projection_error(c.projection),
        },
    }
}

/// Refuse a configuration that does not hold together.
pub fn validate(config: &CovenantConfig) -> (r: Result<(), ConfigError>)
    ensures
        (match r {
            Ok(()) => config_error(*config) is None,
            Err(e) => config_error(*config) == Some(e@),
        }),
{
    let mut i: usize = 0;
    while i < config.covenants.len()
        invariant
            i <= config.covenants.len(),
            rules_error(config.covenants@, 0) == rules_error(config.covenants@, i as int),
        decreases config.covenants.len() - i,
    {
        let rule = &config.covenants[i];
        if text::blank(rule.id.as_str()) {
            return Err(ConfigError::EmptyId { id: rule.id.clone() });
        }
        if rule.threshold.scaled() < 0 {
            return Err(ConfigError::NegativeThreshold { id: rule.id.clone() });
        }
        if let Some(to) = rule.effective_to {
            if to.day_number() < rule.effective_from.day_number() {
                return Err(
                    ConfigError::InvalidWindow {
                        id: rule.id.clone(),
                        from: rule.effective_from,
                        to,
                    },
                );
            }
        }
        i = i + 1;
    }
    let mut i: usize = 0;
    while i < config.equity_cures.len()
        invariant
            i <= config.equity_cures.len(),
            rules_error(config.covenants@, 0) is None,
            cures_error(config.equity_cures@, 0) == cures_error(config.equity_cures@, i as int),
        decreases config.equity_cures.len() - i,
    {
        let cure = &config.equity_cures[i];
        if let Some(to) = cure.effective_to {
            if to.day_number() < cure.effective_from.day_number() {
                return Err(
                    ConfigError::InvalidCureWindow {
                        description: cure.description.clone(),
                        from: cure.effective_from,
                        to,
                    },
                );
            }
        }
        i = i + 1;
    }
    if config.projection.horizon_quarters < 1 {
        return Err(ConfigError::HorizonZero);
    }
    if config.projection.min_history_points < 2 {
        return Err(ConfigError::MinHistoryTooSmall);
    }
    Ok(())
}

// ---- versions ----

/// The covenants among the first `n` rules, in the order in which they first
/// occur.
pub open spec fn first_ids(s: Seq<CovenantRule>, n: int) -> Seq<Seq<char>>
    decreases n,
{
    if n <= 0 {
        Seq::empty()
    } else {
        let before = first_ids(s, n - 1);
        if before.contains(s[n - 1].id@) {
            before
        } else {
            before.push(s[n - 1].id@)
        }
    }
}

/// The places of the versions of `id`, among the first `n` rules, that are in
/// force on a day.
pub open spec fn versions_on(s: Seq<CovenantRule>, id: Seq<char>, day: int, n: int) -> Seq<int>
    decreases n,
{
    if n <= 0 {
        Seq::empty()
    } else {
        let before = versions_on(s, id, day, n - 1);
        if s[n - 1].id@ == id && s[n - 1].holds_on(day) {
            before.push(n - 1)
        } else {
            before
        }
    }
}

/// The covenants, in the order in which they first occur.
pub fn covenant_ids(rules: &Vec<CovenantRule>) -> (r: Vec<String>)
    ensures
        text::texts(r@) == first_ids(rules@, rules.len() as int),
{
    let mut ids: Vec<String> = Vec::new();
    let mut i: usize = 0;
    assert(text::texts(ids@) =~= Seq::<Seq<char>>::empty());
    while i < rules.len()
        invariant
            i <= rules.len(),
            text::texts(ids@) == first_ids(rules@, i as int),
        decreases rules.len() - i,
    {
        if !text::holds_text(&ids, rules[i].id.as_str()) {
            let ghost was = ids@;
            ids.push(rules[i].id.clone());
            assert(text::texts(ids@) =~= text::texts(was).push(rules@[i as int].id@));
        }
        i = i + 1;
    }
    ids
}

pub open spec fn places(s: Seq<usize>) -> Seq<int> {
    s.map_values(|i: usize| i as int)
}

/// The places of the versions of a covenant that are in force on a date.
pub fn versions_in_force(rules: &Vec<CovenantRule>, id: &str, date: Date) -> (r: Vec<usize>)
    ensures
        places(r@) == versions_on(rules@, id@, date.day(), rules.len() as int),
        forall|k: int| 0 <= k < r.len() ==> (#[trigger] r@[k]) < rules.len(),
{
    let mut found: Vec<usize> = Vec::new();
    let mut i: usize = 0;
    assert(places(found@) =~= Seq::<int>::empty());
    while i < rules.len()
        invariant
            i <= rules.len(),
            places(found@) == versions_on(rules@, id@, date.day(), i as int),
            forall|k: int| 0 <= k < found.len() ==> (#[trigger] found@[k]) < rules.len(),
        decreases rules.len() - i,
    {
        if text::same_text(rules[i].id.as_str(), id) && rules[i].is_in_force(date) {
            let ghost was = found@;
            found.push(i);
            assert(places(found@) =~= places(was).push(i as int));
        }
        i = i + 1;
    }
    found
}

} // verus!
