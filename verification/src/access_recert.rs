//! Access recertification: leavers who still hold access, entitlements on
//! unmanaged systems, identities without a manager, stale authentication,
//! privileged access without two approvers, and records that match no
//! identity.
//!
//! Identities are matched by employee id alone. Email addresses are never
//! used: mailboxes are recycled.

use vstd::prelude::*;

pub mod engine;
pub mod explain;
pub mod laws;
pub mod model;
pub mod outcomes;
pub mod pack;

verus! {

/// The engine's name on its packs. An approval by an actor of this name is
/// void.
pub const ENGINE_ID: &'static str = "access-recert-spine";

/// The engine's version, as its packs record it.
pub const TOOL_VERSION: &'static str = "access-recert-spine v0.1.0";

} // verus!
