//! Certificates of insurance against a requirements matrix: coverage gaps,
//! limits, endorsements, carrier ratings, expiry, and an advisory lockout.
//!
//! A certificate arrives as typed data. One that does not fit its schema is
//! refused, never coerced. The lockout is a recommendation: a human executes
//! any hold on new purchase orders.

use vstd::prelude::*;

pub mod cert;
pub mod config;
pub mod engine;
pub mod error;
pub mod explain;
pub mod laws;
pub mod outcomes;
pub mod pack;
pub mod signing;

verus! {

/// The engine's name on its packs. An approval by an actor of this name is
/// void.
pub const ENGINE_ID: &'static str = "coi-spine";

/// The engine's version.
pub const TOOL_VERSION: &'static str = "0.1.0";

} // verus!
