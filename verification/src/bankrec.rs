//! Bank reconciliation: tiered matching of bank statement lines to
//! cash-account ledger entries.

use vstd::prelude::*;
use vstd::string::StringExecFns;

pub mod config;
pub mod engine;
pub mod inputs;
pub mod laws;
pub mod outcomes;
pub mod pack;

verus! {

/// Version stamped into every evidence pack.
pub const TOOL_VERSION: &'static str = "0.1.0";

/// Why a document is refused. Matching itself cannot fail.
#[derive(Debug, PartialEq, Eq)]
pub enum Error {
    Config(String),
    Inputs(String),
}

impl Error {
    /// What the error says.
    pub open spec fn text(&self) -> Seq<char> {
        match self {
            Error::Config(m) => "config invalid: "@ + m@,
            Error::Inputs(m) => "inputs invalid: "@ + m@,
        }
    }

    /// The error as a line of text.
    pub fn message(&self) -> (r: String)
        ensures
            r@ == self.text(),
    {
        match self {
            Error::Config(m) => {
                let mut out = String::from_str("config invalid: ");
                out.append(m.as_str());
                out
            },
            Error::Inputs(m) => {
                let mut out = String::from_str("inputs invalid: ");
                out.append(m.as_str());
                out
            },
        }
    }
}

} // verus!
