//! The rule table of a reconciliation run.

use vstd::prelude::*;
use vstd::string::StringExecFns;

use crate::bankrec::Error;

verus! {

/// Most ledger lines that may sum to one statement line. A table may only
/// tighten it.
pub const MAX_GROUP_SIZE_LIMIT: u8 = 5;

/// Seed value of `max_group_size`.
pub fn default_max_group_size() -> (r: u8)
    ensures
        r == 5,
{
    5
}

/// Seed value of `stale_days`.
pub fn default_stale_days() -> (r: i64)
    ensures
        r == 14,
{
    14
}

/// Seed value of `many_to_one_candidate_cap`.
pub fn default_candidate_cap() -> (r: u32)
    ensures
        r == 100,
{
    100
}

/// Seed value of `many_to_one_date_window_days`.
pub fn default_date_window_days() -> (r: Option<i64>)
    ensures
        r is None,
{
    None
}

/// Rule table for a reconciliation run.
#[derive(Debug, Clone, Copy, PartialEq, Eq, Structural)]
pub struct BankrecConfig {
    /// Allowed amount difference in cents, for the tolerance tier and for
    /// group sums.
    pub tolerance_cents: i64,
    /// Largest many-to-one group.
    pub max_group_size: u8,
    /// Unmatched items older than this many days are breaches.
    pub stale_days: i64,
    /// At most this many ledger entries, in canonical order, are considered
    /// for the group of one statement line.
    pub many_to_one_candidate_cap: u32,
    /// Where set, every entry of a group lies within this many days of the
    /// statement line.
    pub many_to_one_date_window_days: Option<i64>,
}

/// The first rule that a table breaks.
pub open spec fn config_error(c: BankrecConfig) -> Option<Seq<char>> {
    if c.tolerance_cents < 0 {
        Some("tolerance_cents must be >= 0"@)
    } else if c.max_group_size < 2 || c.max_group_size > MAX_GROUP_SIZE_LIMIT {
        Some("max_group_size must be between 2 and 5 (spec pins N ≤ 5)"@)
    } else if c.stale_days < 0 {
        Some("stale_days must be >= 0"@)
    } else if c.many_to_one_candidate_cap == 0 || c.many_to_one_candidate_cap > 1000 {
        Some("many_to_one_candidate_cap must be between 1 and 1000"@)
    } else if c.many_to_one_date_window_days is Some && c.many_to_one_date_window_days->0 < 0 {
        Some("many_to_one_date_window_days must be >= 0 when set"@)
    } else {
        None
    }
}

impl BankrecConfig {
    /// Range validation.
    pub fn validate(&self) -> (r: Result<(), String>)
        ensures
            (match r {
                Ok(_) => config_error(*self) is None,
                Err(m) => config_error(*self) == Some(m@),
            }),
    {
        if self.tolerance_cents < 0 {
            return Err(String::from_str("tolerance_cents must be >= 0"));
        }
        if self.max_group_size < 2 || self.max_group_size > MAX_GROUP_SIZE_LIMIT {
            return Err(
                String::from_str("max_group_size must be between 2 and 5 (spec pins N ≤ 5)"),
            );
        }
        if self.stale_days < 0 {
            return Err(String::from_str("stale_days must be >= 0"));
        }
        if self.many_to_one_candidate_cap == 0 || self.many_to_one_candidate_cap > 1000 {
            return Err(
                String::from_str("many_to_one_candidate_cap must be between 1 and 1000"),
            );
        }
        if let Some(w) = self.many_to_one_date_window_days {
            if w < 0 {
                return Err(
                    String::from_str("many_to_one_date_window_days must be >= 0 when set"),
                );
            }
        }
        Ok(())
    }
}

/// Admit a table read from a document: a table that breaks a rule is refused
/// with the rule and the whole document.
pub fn parse_config(config: BankrecConfig, document: &str) -> (r: Result<BankrecConfig, Error>)
    ensures
        (match config_error(config) {
            None => r == Ok::<BankrecConfig, Error>(config),
            Some(e) => r matches Err(Error::Config(m)) && m@ == e + " (full value: "@ + document@
                + ")"@,
        }),
{
    match config.validate() {
        Ok(_) => Ok(config),
        Err(e) => {
            let mut m = e;
            m.append(" (full value: ");
            m.append(document);
            m.append(")");
            Err(Error::Config(m))
        },
    }
}

} // verus!
