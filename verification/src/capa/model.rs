//! The records of a population.

use vstd::prelude::*;

use crate::instant::Instant;

verus! {

/// What a nonconformance concerns.
#[derive(Debug, Clone, Copy, PartialEq, Eq, Structural)]
pub enum Category {
    Safety,
    Regulatory,
    Quality,
}

impl Category {
    pub open spec fn name(self) -> Seq<char> {
        match self {
            Category::Safety => "safety"@,
            Category::Regulatory => "regulatory"@,
            Category::Quality => "quality"@,
        }
    }

    /// The category in words.
    pub fn label(self) -> (r: &'static str)
        ensures
            r@ == self.name(),
    {
        match self {
            Category::Safety => "safety",
            Category::Regulatory => "regulatory",
            Category::Quality => "quality",
        }
    }
}

/// How readily a nonconformance is caught before it escapes.
#[derive(Debug, Clone, Copy, PartialEq, Eq, Structural)]
pub enum Detectability {
    High,
    Medium,
    Low,
}

impl Detectability {
    pub open spec fn name(self) -> Seq<char> {
        match self {
            Detectability::High => "high"@,
            Detectability::Medium => "medium"@,
            Detectability::Low => "low"@,
        }
    }

    /// The level in words.
    pub fn label(self) -> (r: &'static str)
        ensures
            r@ == self.name(),
    {
        match self {
            Detectability::High => "high",
            Detectability::Medium => "medium",
            Detectability::Low => "low",
        }
    }
}

/// The status that the caller records.
#[derive(Debug, Clone, Copy, PartialEq, Eq, Structural)]
pub enum Status {
    Open,
    Closed,
}

/// The check that an action was effective.
#[derive(Debug, Clone, Copy, PartialEq, Eq, Structural)]
pub struct EffectivenessCheck {
    pub completed: bool,
    pub completed_at: Option<Instant>,
}

/// One action. Its id occurs once in a population.
#[derive(Debug, Clone, PartialEq, Eq)]
pub struct CapaRecord {
    pub id: String,
    pub description: String,
    pub category: Category,
    pub detectability: Detectability,
    /// The anchor of the containment and aging clocks.
    pub opened_at: Instant,
    pub containment_recorded_at: Option<Instant>,
    pub status: Status,
    /// A closure without it is not honored.
    pub closed_at: Option<Instant>,
    /// A closure without it is not honored.
    pub root_cause: Option<String>,
    pub effectiveness_check: Option<EffectivenessCheck>,
    /// The cycle that this one reopens.
    pub parent_id: Option<String>,
}

} // verus!
