//! Sales commissions: effective-dated plans, accelerator bands, role splits,
//! windfall caps, and clawback reversals in integer cents.

pub mod accounts;
pub mod bands;
pub mod config;
pub mod engine;
pub mod evidence;
pub mod explain;
pub mod input;
pub mod laws;
pub mod notices;
pub mod outcomes;
pub mod runs;
pub mod shares;
pub mod split;
pub mod validity;
