//! The certificate, as typed data.

use vstd::prelude::*;
use vstd::string::StringExecFns;

use crate::coi::config;
use crate::coi::config::{CarrierRating, Coverage, Endorsement};
use crate::coi::error::{CoiError, Refusal};
use crate::date;
use crate::date::Date;
use crate::text;

verus! {

/// The certificate of one vendor.
#[derive(Debug, Clone, PartialEq, Eq)]
pub struct Certificate {
    /// The subject of the vendor's findings.
    pub vendor_id: String,
    pub vendor_category: String,
    /// Policies. With none, every required coverage is missing.
    pub policies: Vec<PolicyLine>,
}

/// One policy of a certificate. Limits are in cents.
#[derive(Debug, Clone, PartialEq, Eq)]
pub struct PolicyLine {
    pub policy_number: String,
    pub carrier_name: String,
    pub carrier_rating: CarrierRating,
    pub coverage: Coverage,
    pub per_occurrence_limit_cents: i128,
    pub aggregate_limit_cents: i128,
    pub effective_date: Date,
    /// The last day on which the policy is valid.
    pub expiration_date: Date,
    pub endorsements: Vec<Endorsement>,
}

/// What a [`PolicyLine`] says.
#[verifier::ext_equal]
pub struct LineView {
    pub policy_number: Seq<char>,
    pub carrier_name: Seq<char>,
    pub carrier_rating: CarrierRating,
    pub coverage: Coverage,
    pub per_occurrence_limit_cents: int,
    pub aggregate_limit_cents: int,
    pub effective_date: int,
    pub expiration_date: int,
    pub endorsements: Seq<Endorsement>,
}

impl View for PolicyLine {
    type V = LineView;

    open spec fn view(&self) -> LineView {
        LineView {
            policy_number: self.policy_number@,
            carrier_name: self.carrier_name@,
            carrier_rating: self.carrier_rating,
            coverage: self.coverage,
            per_occurrence_limit_cents: self.per_occurrence_limit_cents as int,
            aggregate_limit_cents: self.aggregate_limit_cents as int,
            effective_date: self.effective_date.day(),
            expiration_date: self.expiration_date.day(),
            endorsements: self.endorsements@,
        }
    }
}

/// What a sequence of policies says.
pub open spec fn lines_view(s: Seq<PolicyLine>) -> Seq<LineView> {
    s.map_values(|p: PolicyLine| p@)
}

/// What a [`Certificate`] says.
#[verifier::ext_equal]
pub struct CertificateView {
    pub vendor_id: Seq<char>,
    pub vendor_category: Seq<char>,
    pub policies: Seq<LineView>,
}

impl View for Certificate {
    type V = CertificateView;

    open spec fn view(&self) -> CertificateView {
        CertificateView {
            vendor_id: self.vendor_id@,
            vendor_category: self.vendor_category@,
            policies: lines_view(self.policies@),
        }
    }
}

/// A policy with its identifiers trimmed.
pub open spec fn trimmed_line(p: LineView) -> LineView {
    LineView {
        policy_number: text::trimmed(p.policy_number),
        carrier_name: text::trimmed(p.carrier_name),
        ..p
    }
}

/// A certificate with its identifiers trimmed.
pub open spec fn trimmed_certificate(c: CertificateView) -> CertificateView {
    CertificateView {
        vendor_id: text::trimmed(c.vendor_id),
        vendor_category: text::trimmed(c.vendor_category),
        policies: c.policies.map_values(|p: LineView| trimmed_line(p)),
    }
}

/// What is wrong with a policy.
pub open spec fn line_error(p: LineView) -> Option<Seq<char>> {
    if p.policy_number.len() == 0 {
        Some(": policy_number is blank"@)
    } else if p.carrier_name.len() == 0 {
        Some(": carrier_name is blank"@)
    } else if p.per_occurrence_limit_cents <= 0 {
        Some(": per_occurrence_limit_cents must be positive"@)
    } else if p.aggregate_limit_cents <= 0 {
        Some(": aggregate_limit_cents must be positive"@)
    } else if p.effective_date > p.expiration_date {
        Some(
            ": effective_date "@ + date::date_text(p.effective_date) + " is after expiration_date "@
                + date::date_text(p.expiration_date),
        )
    } else {
        match config::repeated_from(p.endorsements, 0) {
            Some(e) => Some(": duplicate endorsement "@ + e.name()),
            None => None,
        }
    }
}

/// What is wrong with the policies from place `i` on.
pub open spec fn lines_error(s: Seq<LineView>, i: int) -> Option<Seq<char>>
    decreases s.len() - i,
{
    if 0 <= i < s.len() {
        match line_error(s[i]) {
            Some(m) => Some("policy["@ + text::decimal(i as nat) + "]"@ + m),
            None => lines_error(s, i + 1),
        }
    } else {
        None
    }
}

/// What is wrong with a certificate, if anything.
pub open spec fn certificate_error(c: CertificateView) -> Option<Seq<char>> {
    if c.vendor_id.len() == 0 {
        Some("vendor_id is blank"@)
    } else if c.vendor_category.len() == 0 {
        Some("vendor_category is blank"@)
    } else {
        lines_error(c.policies, 0)
    }
}

fn check_line(p: &PolicyLine) -> (r: Option<String>)
    ensures
        (match r {
            Some(m) => line_error(p@) == Some(m@),
            None => line_error(p@) is None,
        }),
{
    if p.policy_number.as_str().is_empty() {
        return Some(String::from_str(": policy_number is blank"));
    }
    if p.carrier_name.as_str().is_empty() {
        return Some(String::from_str(": carrier_name is blank"));
    }
    if p.per_occurrence_limit_cents <= 0 {
        return Some(String::from_str(": per_occurrence_limit_cents must be positive"));
    }
    if p.aggregate_limit_cents <= 0 {
        return Some(String::from_str(": aggregate_limit_cents must be positive"));
    }
    if p.effective_date.day_number() > p.expiration_date.day_number() {
        let mut m = String::from_str(": effective_date ");
        m.append(p.effective_date.text().as_str());
        m.append(" is after expiration_date ");
        m.append(p.expiration_date.text().as_str());
        return Some(m);
    }
    match config::repeated_endorsement(&p.endorsements) {
        Some(e) => {
            let mut m = String::from_str(": duplicate endorsement ");
            m.append(e.as_str());
            Some(m)
        },
        None => None,
    }
}

fn trim_line(p: PolicyLine) -> (r: PolicyLine)
    ensures
        r@ == trimmed_line(p@),
{
    PolicyLine {
        policy_number: String::from_str(text::trim(p.policy_number.as_str())),
        carrier_name: String::from_str(text::trim(p.carrier_name.as_str())),
        carrier_rating: p.carrier_rating,
        coverage: p.coverage,
        per_occurrence_limit_cents: p.per_occurrence_limit_cents,
        aggregate_limit_cents: p.aggregate_limit_cents,
        effective_date: p.effective_date,
        expiration_date: p.expiration_date,
        endorsements: p.endorsements,
    }
}

fn trim_lines(lines: Vec<PolicyLine>) -> (r: Vec<PolicyLine>)
    ensures
        lines_view(r@) == lines_view(lines@).map_values(|p: LineView| trimmed_line(p)),
{
    let ghost all = lines@;
    let ghost goal = lines_view(all).map_values(|p: LineView| trimmed_line(p));
    let mut out: Vec<PolicyLine> = Vec::new();
    for p in it: lines
        invariant
            it.seq() == all,
            goal == lines_view(all).map_values(|p: LineView| trimmed_line(p)),
            out.len() == it.index(),
            forall|k: int| 0 <= k < out.len() ==> (#[trigger] out@[k])@ == goal[k],
    {
        out.push(trim_line(p));
    }
    assert(lines_view(out@) =~= goal);
    out
}

impl Certificate {
    /// Take a certificate as it was read from a document, with its
    /// identifiers trimmed. One that cannot be read, or that is not valid, is
    /// refused.
    pub fn from_json_str(read: Result<Certificate, String>) -> (r: Result<Certificate, CoiError>)
        ensures
            (match read {
                Err(m) => r matches Err(e) && e@ == Refusal::Schema("certificate: "@ + m@),
                Ok(c) => match certificate_error(trimmed_certificate(c@)) {
                    None => r matches Ok(n) && n@ == trimmed_certificate(c@),
                    Some(wrong) => r matches Err(e) && e@ == Refusal::MalformedCertificate(wrong),
                },
            }),
    {
        match read {
            Err(m) => {
                let mut message = String::from_str("certificate: ");
                message.append(m.as_str());
                Err(CoiError::Schema(message))
            },
            Ok(c) => {
                let n = c.normalize();
                match n.validate() {
                    Ok(()) => Ok(n),
                    Err(e) => Err(e),
                }
            },
        }
    }

    /// The certificate with its identifiers trimmed, so that lookups and
    /// subjects are exact.
    pub fn normalize(self) -> (r: Certificate)
        ensures
            r@ == trimmed_certificate(self@),
    {
        Certificate {
            vendor_id: String::from_str(text::trim(self.vendor_id.as_str())),
            vendor_category: String::from_str(text::trim(self.vendor_category.as_str())),
            policies: trim_lines(self.policies),
        }
    }

    /// Refuse a certificate with a blank identifier, a limit that is not
    /// positive, dates out of order, or a repeated endorsement.
    pub fn validate(&self) -> (r: Result<(), CoiError>)
        ensures
            (match r {
                Ok(()) => certificate_error(self@) is None,
                Err(e) => certificate_error(self@) matches Some(m) && e@
                    == Refusal::MalformedCertificate(m),
            }),
    {
        if self.vendor_id.as_str().is_empty() {
            return Err(CoiError::MalformedCertificate(String::from_str("vendor_id is blank")));
        }
        if self.vendor_category.as_str().is_empty() {
            return Err(CoiError::MalformedCertificate(String::from_str("vendor_category is blank")));
        }
        let ghost all = lines_view(self.policies@);
        let mut i: usize = 0;
        while i < self.policies.len()
            invariant
                i <= self.policies.len(),
                all == lines_view(self.policies@),
                self@.vendor_id.len() > 0,
                self@.vendor_category.len() > 0,
                lines_error(all, 0) == lines_error(all, i as int),
            decreases self.policies.len() - i,
        {
            assert(all[i as int] == self.policies@[i as int]@);
            match check_line(&self.policies[i]) {
                Some(wrong) => {
                    let mut m = String::from_str("policy[");
                    m.append(text::count_text(i).as_str());
                    m.append("]");
                    m.append(wrong.as_str());
                    return Err(CoiError::MalformedCertificate(m));
                },
                None => {},
            }
            i = i + 1;
        }
        Ok(())
    }
}

} // verus!
