//! Refusals. No kind is silently turned into another.

use vstd::prelude::*;
use vstd::string::StringExecFns;

verus! {

/// Why a document or a request is refused.
#[derive(Debug, Clone, PartialEq, Eq)]
pub enum CoiError {
    /// A document does not fit its schema.
    Schema(String),
    /// A certificate of the right shape holds what no certificate can.
    MalformedCertificate(String),
    /// A matrix of the right shape holds what no matrix can.
    InvalidConfig(String),
    /// A refusal of the lifecycle.
    Refused(String),
    /// What was asked for is incomplete or cannot be read.
    Usage(String),
    /// A document cannot be read or written.
    Io(String),
}

/// What a [`CoiError`] says.
pub enum Refusal {
    Schema(Seq<char>),
    MalformedCertificate(Seq<char>),
    InvalidConfig(Seq<char>),
    Refused(Seq<char>),
    Usage(Seq<char>),
    Io(Seq<char>),
}

impl View for CoiError {
    type V = Refusal;

    open spec fn view(&self) -> Refusal {
        match self {
            CoiError::Schema(m) => Refusal::Schema(m@),
            CoiError::MalformedCertificate(m) => Refusal::MalformedCertificate(m@),
            CoiError::InvalidConfig(m) => Refusal::InvalidConfig(m@),
            CoiError::Refused(m) => Refusal::Refused(m@),
            CoiError::Usage(m) => Refusal::Usage(m@),
            CoiError::Io(m) => Refusal::Io(m@),
        }
    }
}

/// A refusal as a line of text.
pub open spec fn refusal_text(e: Refusal) -> Seq<char> {
    match e {
        Refusal::Schema(m) => "schema violation: "@ + m,
        Refusal::MalformedCertificate(m) => "malformed certificate: "@ + m,
        Refusal::InvalidConfig(m) => "invalid requirements config: "@ + m,
        Refusal::Refused(m) => "refused: "@ + m,
        Refusal::Usage(m) => "usage: "@ + m,
        Refusal::Io(m) => "io: "@ + m,
    }
}

fn prefixed(prefix: &str, m: &str) -> (r: String)
    ensures
        r@ == prefix@ + m@,
{
    let mut out = String::from_str(prefix);
    out.append(m);
    out
}

impl CoiError {
    /// The error as a line of text.
    pub fn message(&self) -> (r: String)
        ensures
            r@ == refusal_text(self@),
    {
        match self {
            CoiError::Schema(m) => prefixed("schema violation: ", m.as_str()),
            CoiError::MalformedCertificate(m) => prefixed("malformed certificate: ", m.as_str()),
            CoiError::InvalidConfig(m) => prefixed("invalid requirements config: ", m.as_str()),
            CoiError::Refused(m) => prefixed("refused: ", m.as_str()),
            CoiError::Usage(m) => prefixed("usage: ", m.as_str()),
            CoiError::Io(m) => prefixed("io: ", m.as_str()),
        }
    }

    /// The exit code that answers this error.
    pub fn exit_code(&self) -> (r: i32)
        ensures
            r == (if self is Usage {
                2int
            } else {
                1
            }),
    {
        match self {
            CoiError::Usage(_) => 2,
            _ => 1,
        }
    }
}

} // verus!
