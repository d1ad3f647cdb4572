//! The rules. Findings come by obligation id, and those of one obligation in
//! the order of this list.

use vstd::prelude::*;

verus! {

pub const REGISTER_CORRECTION: &'static str = "REGISTER-CORRECTION";

pub const DUE_MET: &'static str = "OBL-DUE-MET";

pub const DUE_UPCOMING: &'static str = "OBL-DUE-UPCOMING";

pub const DUE_OVERDUE: &'static str = "OBL-DUE-OVERDUE";

pub const DEPENDENT_PENDING: &'static str = "OBL-DEPENDENT-PENDING";

pub const SLA_CREDIT_DUE: &'static str = "SLA-CREDIT-DUE";

pub const SLA_BREACH: &'static str = "SLA-BREACH";

pub const SLA_STALE: &'static str = "SLA-STALE";

pub const OPTOUT_OPEN: &'static str = "RENEW-OPTOUT-OPEN";

pub const OPTOUT_CLOSING: &'static str = "RENEW-OPTOUT-CLOSING";

pub const OPTOUT_PASSED: &'static str = "RENEW-OPTOUT-PASSED";

pub const AUTO_RENEWED: &'static str = "RENEW-AUTO-RENEWED";

pub const OPTOUT_EXERCISED: &'static str = "RENEW-OPTOUT-EXERCISED";

pub const TERM_ENDED: &'static str = "RENEW-TERM-ENDED";

} // verus!
