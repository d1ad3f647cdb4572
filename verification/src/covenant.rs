//! Debt covenants: ratio tests over normalized financials, effective-dated
//! amendments, equity cures, headroom, and a linear-trend projection.

use vstd::prelude::*;

pub mod config;
pub mod engine;
pub mod explain;
pub mod input;
pub mod laws;
pub mod outcomes;
pub mod pack;
pub mod units;

verus! {

/// The engine's name on its packs. A receipt by an actor of this name
/// neither approves nor counts as a signer.
pub const ENGINE_ID: &'static str = "covenant-spine";

/// The engine's version.
pub const TOOL_VERSION: &'static str = "0.1.0";

} // verus!
