//! Contract obligations: a typed register with deadline and renewal-window
//! arithmetic over a clock that the caller supplies.

pub mod engine;
pub mod explain;
pub mod laws;
pub mod model;
pub mod outcomes;
pub mod pack;
pub mod rule_ids;
