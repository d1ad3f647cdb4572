//! The tables that govern a population, and their validation.

use vstd::prelude::*;
use vstd::string::StringExecFns;

use crate::capa::model::{Category, Detectability};
use crate::spine::Severity;
use crate::text;

verus! {

/// One cell of the severity matrix.
#[derive(Debug, Clone, Copy, PartialEq, Eq, Structural)]
pub struct SeverityCell {
    pub category: Category,
    pub detectability: Detectability,
    pub severity: Severity,
}

/// Hours within which containment is due, by severity. None where it is not
/// required.
#[derive(Debug, Clone, Copy, PartialEq, Eq, Structural)]
pub struct ContainmentHours {
    pub breach: Option<u64>,
    pub warn: Option<u64>,
    pub info: Option<u64>,
}

/// When an open action is overdue.
#[derive(Debug, Clone, Copy, PartialEq, Eq, Structural)]
pub struct AgingRules {
    pub warn_after_days: u64,
    pub breach_after_days: u64,
}

/// The tables.
#[derive(Debug, Clone, PartialEq, Eq)]
pub struct CapaConfig {
    pub severity_matrix: Vec<SeverityCell>,
    pub containment_hours: ContainmentHours,
    pub aging: AgingRules,
    pub effectiveness_window_days: u64,
}

/// Why tables or a population are refused.
#[derive(Debug, Clone, PartialEq, Eq)]
pub enum ConfigError {
    Json(String),
    Schema(String),
    MissingMatrixCell(String, String),
    DuplicateMatrixCell(String, String),
    DuplicateCapaId(String),
    AgingThresholds { warn_after_days: u64, breach_after_days: u64 },
    EffectivenessWindow(u64),
    ContainmentWindow(String),
}

/// What a [`ConfigError`] says.
pub enum ConfigRefusal {
    Json(Seq<char>),
    Schema(Seq<char>),
    MissingMatrixCell(Seq<char>, Seq<char>),
    DuplicateMatrixCell(Seq<char>, Seq<char>),
    DuplicateCapaId(Seq<char>),
    AgingThresholds { warn_after_days: u64, breach_after_days: u64 },
    EffectivenessWindow(u64),
    ContainmentWindow(Seq<char>),
}

impl View for ConfigError {
    type V = ConfigRefusal;

    open spec fn view(&self) -> ConfigRefusal {
        match self {
            ConfigError::Json(m) => ConfigRefusal::Json(m@),
            ConfigError::Schema(m) => ConfigRefusal::Schema(m@),
            ConfigError::MissingMatrixCell(c, d) => ConfigRefusal::MissingMatrixCell(c@, d@),
            ConfigError::DuplicateMatrixCell(c, d) => ConfigRefusal::DuplicateMatrixCell(c@, d@),
            ConfigError::DuplicateCapaId(id) => ConfigRefusal::DuplicateCapaId(id@),
            ConfigError::AgingThresholds { warn_after_days, breach_after_days } => {
                ConfigRefusal::AgingThresholds {
                    warn_after_days: *warn_after_days,
                    breach_after_days: *breach_after_days,
                }
            },
            ConfigError::EffectivenessWindow(days) => ConfigRefusal::EffectivenessWindow(*days),
            ConfigError::ContainmentWindow(label) => ConfigRefusal::ContainmentWindow(label@),
        }
    }
}

/// A refusal as a line of text.
pub open spec fn refusal_text(e: ConfigRefusal) -> Seq<char> {
    match e {
        ConfigRefusal::Json(m) => "config is not valid JSON: "@ + m,
        ConfigRefusal::Schema(m) => "config schema violation: "@ + m,
        ConfigRefusal::MissingMatrixCell(c, d) => "severity matrix incomplete: no cell for "@ + c
            + " × "@ + d,
        ConfigRefusal::DuplicateMatrixCell(c, d) =>
            "severity matrix ambiguous: duplicate cell for "@ + c + " × "@ + d,
        ConfigRefusal::DuplicateCapaId(id) => "population ambiguous: duplicate CAPA id "@ + id
            + " — ids are subject keys for findings and signoff receipts and must be unique"@,
        ConfigRefusal::AgingThresholds { warn_after_days, breach_after_days } =>
            "aging thresholds invalid: warn_after_days ("@ + text::decimal(warn_after_days as nat)
            + ") must be positive and strictly less than breach_after_days ("@ + text::decimal(
            breach_after_days as nat,
        ) + ")"@,
        ConfigRefusal::EffectivenessWindow(days) => "effectiveness_window_days ("@ + text::decimal(
            days as nat,
        ) + ") must be positive"@,
        ConfigRefusal::ContainmentWindow(label) => "containment window for "@ + label
            + "-severity CAPAs must be at least one hour when set"@,
    }
}

impl ConfigError {
    /// The error as a line of text.
    pub fn message(&self) -> (r: String)
        ensures
            r@ == refusal_text(self@),
    {
        match self {
            ConfigError::Json(m) => {
                let mut out = String::from_str("config is not valid JSON: ");
                out.append(m.as_str());
                out
            },
            ConfigError::Schema(m) => {
                let mut out = String::from_str("config schema violation: ");
                out.append(m.as_str());
                out
            },
            ConfigError::MissingMatrixCell(c, d) => {
                let mut out = String::from_str("severity matrix incomplete: no cell for ");
                out.append(c.as_str());
                out.append(" × ");
                out.append(d.as_str());
                out
            },
            ConfigError::DuplicateMatrixCell(c, d) => {
                let mut out = String::from_str("severity matrix ambiguous: duplicate cell for ");
                out.append(c.as_str());
                out.append(" × ");
                out.append(d.as_str());
                out
            },
            ConfigError::DuplicateCapaId(id) => {
                let mut out = String::from_str("population ambiguous: duplicate CAPA id ");
                out.append(id.as_str());
                out.append(
                    " — ids are subject keys for findings and signoff receipts and must be unique",
                );
                out
            },
            ConfigError::AgingThresholds { warn_after_days, breach_after_days } => {
                let mut out = String::from_str("aging thresholds invalid: warn_after_days (");
                out.append(text::unsigned_text(*warn_after_days as u128).as_str());
                out.append(") must be positive and strictly less than breach_after_days (");
                out.append(text::unsigned_text(*breach_after_days as u128).as_str());
                out.append(")");
                out
            },
            ConfigError::EffectivenessWindow(days) => {
                let mut out = String::from_str("effectiveness_window_days (");
                out.append(text::unsigned_text(*days as u128).as_str());
                out.append(") must be positive");
                out
            },
            ConfigError::ContainmentWindow(label) => {
                let mut out = String::from_str("containment window for ");
                out.append(label.as_str());
                out.append("-severity CAPAs must be at least one hour when set");
                out
            },
        }
    }
}

/// What is wrong with a document that holds no tables.
#[derive(Debug, Clone, PartialEq, Eq)]
pub struct ReadFault {
    /// Whether the document is no JSON at all.
    pub syntax: bool,
    pub message: String,
}

// ---- lookups ----

pub open spec fn is_cell(c: SeverityCell, category: Category, detectability: Detectability) -> bool {
    c.category == category && c.detectability == detectability
}

/// How many of the first `n` cells are for a category and a detectability.
pub open spec fn cells(
    s: Seq<SeverityCell>,
    category: Category,
    detectability: Detectability,
    n: int,
) -> int
    decreases n,
{
    if n <= 0 {
        0
    } else {
        cells(s, category, detectability, n - 1) + (if is_cell(s[n - 1], category, detectability) {
            1int
        } else {
            0
        })
    }
}

/// The severity of the first cell, from place `i` on, for a category and a
/// detectability.
pub open spec fn severity_at(
    s: Seq<SeverityCell>,
    category: Category,
    detectability: Detectability,
    i: int,
) -> Option<Severity>
    decreases s.len() - i,
{
    if 0 <= i < s.len() {
        if is_cell(s[i], category, detectability) {
            Some(s[i].severity)
        } else {
            severity_at(s, category, detectability, i + 1)
        }
    } else {
        None
    }
}

pub open spec fn window_of(h: ContainmentHours, severity: Severity) -> Option<u64> {
    match severity {
        Severity::Breach => h.breach,
        Severity::Warn => h.warn,
        Severity::Info => h.info,
    }
}

// ---- validation ----

pub open spec fn cell_error(
    s: Seq<SeverityCell>,
    category: Category,
    detectability: Detectability,
) -> Option<ConfigRefusal> {
    let n = cells(s, category, detectability, s.len() as int);
    if n == 0 {
        Some(ConfigRefusal::MissingMatrixCell(category.name(), detectability.name()))
    } else if n == 1 {
        None
    } else {
        Some(ConfigRefusal::DuplicateMatrixCell(category.name(), detectability.name()))
    }
}

pub open spec fn row_error(s: Seq<SeverityCell>, category: Category) -> Option<ConfigRefusal> {
    match cell_error(s, category, Detectability::High) {
        Some(e) => Some(e),
        None => match cell_error(s, category, Detectability::Medium) {
            Some(e) => Some(e),
            None => cell_error(s, category, Detectability::Low),
        },
    }
}

/// What is wrong with a matrix: every cell must be there exactly once.
pub open spec fn matrix_error(s: Seq<SeverityCell>) -> Option<ConfigRefusal> {
    match row_error(s, Category::Safety) {
        Some(e) => Some(e),
        None => match row_error(s, Category::Regulatory) {
            Some(e) => Some(e),
            None => row_error(s, Category::Quality),
        },
    }
}

/// What is wrong with tables, if anything. The windows come before the
/// matrix.
pub open spec fn config_error(c: CapaConfig) -> Option<ConfigRefusal> {
    if c.containment_hours.breach == Some(0u64) {
        Some(ConfigRefusal::ContainmentWindow("breach"@))
    } else if c.containment_hours.warn == Some(0u64) {
        Some(ConfigRefusal::ContainmentWindow("warn"@))
    } else if c.containment_hours.info == Some(0u64) {
        Some(ConfigRefusal::ContainmentWindow("info"@))
    } else if c.aging.warn_after_days == 0 || c.aging.warn_after_days >= c.aging.breach_after_days {
        Some(
            ConfigRefusal::AgingThresholds {
                warn_after_days: c.aging.warn_after_days,
                breach_after_days: c.aging.breach_after_days,
            },
        )
    } else if c.effectiveness_window_days == 0 {
        Some(ConfigRefusal::EffectivenessWindow(0))
    } else {
        matrix_error(c.severity_matrix@)
    }
}

fn is_zero(hours: Option<u64>) -> (r: bool)
    ensures
        r == (hours == Some(0u64)),
{
    match hours {
        Some(h) => h == 0,
        None => false,
    }
}

fn check_cell(
    matrix: &Vec<SeverityCell>,
    category: Category,
    detectability: Detectability,
) -> (r: Result<(), ConfigError>)
    ensures
        (match r {
            Ok(()) => cell_error(matrix@, category, detectability) is None,
            Err(e) => cell_error(matrix@, category, detectability) == Some(e@),
        }),
{
    let mut count: usize = 0;
    let mut i: usize = 0;
    while i < matrix.len()
        invariant
            i <= matrix.len(),
            count <= i,
            count == cells(matrix@, category, detectability, i as int),
        decreases matrix.len() - i,
    {
        if matrix[i].category == category && matrix[i].detectability == detectability {
            count = count + 1;
        }
        i = i + 1;
    }
    if count == 0 {
        Err(
            ConfigError::MissingMatrixCell(
                String::from_str(category.label()),
                String::from_str(detectability.label()),
            ),
        )
    } else if count == 1 {
        Ok(())
    } else {
        Err(
            ConfigError::DuplicateMatrixCell(
                String::from_str(category.label()),
                String::from_str(detectability.label()),
            ),
        )
    }
}

fn check_row(matrix: &Vec<SeverityCell>, category: Category) -> (r: Result<(), ConfigError>)
    ensures
        (match r {
            Ok(()) => row_error(matrix@, category) is None,
            Err(e) => row_error(matrix@, category) == Some(e@),
        }),
{
    match check_cell(matrix, category, Detectability::High) {
        Ok(()) => {},
        Err(e) => return Err(e),
    }
    match check_cell(matrix, category, Detectability::Medium) {
        Ok(()) => {},
        Err(e) => return Err(e),
    }
    check_cell(matrix, category, Detectability::Low)
}

impl CapaConfig {
    /// Take tables as they were read from a document. Anything in doubt is
    /// refused.
    pub fn parse(read: Result<CapaConfig, ReadFault>) -> (r: Result<CapaConfig, ConfigError>)
        ensures
            (match read {
                Ok(c) => match config_error(c) {
                    None => r == Ok::<CapaConfig, ConfigError>(c),
                    Some(wrong) => r matches Err(e) && e@ == wrong,
                },
                Err(f) => r matches Err(e) && e@ == (if f.syntax {
                    ConfigRefusal::Json(f.message@)
                } else {
                    ConfigRefusal::Schema(f.message@)
                }),
            }),
    {
        match read {
            Ok(config) => {
                match config.validate() {
                    Ok(()) => Ok(config),
                    Err(e) => Err(e),
                }
            },
            Err(fault) => {
                if fault.syntax {
                    Err(ConfigError::Json(fault.message))
                } else {
                    Err(ConfigError::Schema(fault.message))
                }
            },
        }
    }

    /// Refuse tables with a window of nothing, aging thresholds out of
    /// order, or a matrix that is incomplete or ambiguous.
    pub fn validate(&self) -> (r: Result<(), ConfigError>)
        ensures
            (match r {
                Ok(()) => config_error(*self) is None,
                Err(e) => config_error(*self) == Some(e@),
            }),
    {
        if is_zero(self.containment_hours.breach) {
            return Err(ConfigError::ContainmentWindow(String::from_str("breach")));
        }
        if is_zero(self.containment_hours.warn) {
            return Err(ConfigError::ContainmentWindow(String::from_str("warn")));
        }
        if is_zero(self.containment_hours.info) {
            return Err(ConfigError::ContainmentWindow(String::from_str("info")));
        }
        if self.aging.warn_after_days == 0 || self.aging.warn_after_days
            >= self.aging.breach_after_days {
            return Err(
                ConfigError::AgingThresholds {
                    warn_after_days: self.aging.warn_after_days,
                    breach_after_days: self.aging.breach_after_days,
                },
            );
        }
        if self.effectiveness_window_days == 0 {
            return Err(ConfigError::EffectivenessWindow(0));
        }
        match check_row(&self.severity_matrix, Category::Safety) {
            Ok(()) => {},
            Err(e) => return Err(e),
        }
        match check_row(&self.severity_matrix, Category::Regulatory) {
            Ok(()) => {},
            Err(e) => return Err(e),
        }
        check_row(&self.severity_matrix, Category::Quality)
    }

    /// The severity of a category and a detectability. None only for tables
    /// that were not validated.
    pub fn severity_for(&self, category: Category, detectability: Detectability) -> (r: Option<
        Severity,
    >)
        ensures
            r == severity_at(self.severity_matrix@, category, detectability, 0),
    {
        let matrix = &self.severity_matrix;
        let mut i: usize = 0;
        while i < matrix.len()
            invariant
                i <= matrix.len(),
                matrix@ == self.severity_matrix@,
                severity_at(matrix@, category, detectability, 0) == severity_at(
                    matrix@,
                    category,
                    detectability,
                    i as int,
                ),
            decreases matrix.len() - i,
        {
            if matrix[i].category == category && matrix[i].detectability == detectability {
                return Some(matrix[i].severity);
            }
            i = i + 1;
        }
        None
    }

    /// The hours within which containment is due at a severity.
    pub fn containment_hours_for(&self, severity: Severity) -> (r: Option<u64>)
        ensures
            r == window_of(self.containment_hours, severity),
    {
        match severity {
            Severity::Breach => self.containment_hours.breach,
            Severity::Warn => self.containment_hours.warn,
            Severity::Info => self.containment_hours.info,
        }
    }
}

} // verus!
