//! Corrective and preventive actions: severity from a matrix, containment
//! windows, closure rules, aging, duplicate detection, and reopen linkage,
//! over a clock that the caller supplies.

use vstd::prelude::*;

pub mod config;
pub mod engine;
pub mod explain;
pub mod laws;
pub mod model;
pub mod outcomes;
pub mod pack;

verus! {

/// The engine's name on its packs. An approval by an actor of this name is
/// void.
pub const ENGINE_ID: &'static str = "capa-spine";

/// The engine's version.
pub const TOOL_VERSION: &'static str = "0.1.0";

} // verus!
