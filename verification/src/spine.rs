//! The evidence kernel: findings, human receipts, evidence packs, the lock
//! lifecycle, and fail-closed verification.

use sha2::Digest;
use vstd::prelude::*;
use vstd::string::StrSliceExecFns;
use vstd::string::StringExecFns;

use crate::order;
use crate::order::Order;
use crate::text;

pub mod laws;

verus! {

/// Version of the pack contract.
pub const SPINE_VERSION: &'static str = "1.0.0";

/// How grave a finding is.
#[derive(Debug, Clone, Copy, PartialEq, Eq, Structural)]
pub enum Severity {
    Breach,
    Warn,
    Info,
}

/// One control finding.
#[derive(Debug, PartialEq, Eq)]
pub struct Finding {
    pub rule_id: String,
    pub severity: Severity,
    pub subject: String,
    pub message: String,
    /// A gated finding: it needs a human approval of its subject.
    pub requires_signoff: bool,
}

/// What a [`Finding`] says.
#[verifier::ext_equal]
pub struct FindingView {
    pub rule_id: Seq<char>,
    pub severity: Severity,
    pub subject: Seq<char>,
    pub message: Seq<char>,
    pub requires_signoff: bool,
}

impl View for Finding {
    type V = FindingView;

    open spec fn view(&self) -> FindingView {
        FindingView {
            rule_id: self.rule_id@,
            severity: self.severity,
            subject: self.subject@,
            message: self.message@,
            requires_signoff: self.requires_signoff,
        }
    }
}

impl Clone for Finding {
    fn clone(&self) -> (r: Self)
        ensures
            r@ == self@,
    {
        Finding {
            rule_id: self.rule_id.clone(),
            severity: self.severity,
            subject: self.subject.clone(),
            message: self.message.clone(),
            requires_signoff: self.requires_signoff,
        }
    }
}

/// What a sequence of findings says.
pub open spec fn findings_view(s: Seq<Finding>) -> Seq<FindingView> {
    s.map_values(|f: Finding| f@)
}

/// A breach: gated, always.
pub open spec fn breach_of(
    rule_id: Seq<char>,
    subject: Seq<char>,
    message: Seq<char>,
) -> FindingView {
    FindingView { rule_id, severity: Severity::Breach, subject, message, requires_signoff: true }
}

/// An ungated finding of a lesser severity.
pub open spec fn note_of(
    rule_id: Seq<char>,
    severity: Severity,
    subject: Seq<char>,
    message: Seq<char>,
) -> FindingView {
    FindingView { rule_id, severity, subject, message, requires_signoff: false }
}

impl Finding {
    /// A breach: gated, always.
    pub fn breach(rule_id: &str, subject: &str, message: String) -> (r: Finding)
        ensures
            r@ == breach_of(rule_id@, subject@, message@),
    {
        Finding {
            rule_id: String::from_str(rule_id),
            severity: Severity::Breach,
            subject: String::from_str(subject),
            message,
            requires_signoff: true,
        }
    }

    /// An ungated finding.
    pub fn note(rule_id: &str, severity: Severity, subject: &str, message: String) -> (r: Finding)
        ensures
            r@ == note_of(rule_id@, severity, subject@, message@),
    {
        Finding {
            rule_id: String::from_str(rule_id),
            severity,
            subject: String::from_str(subject),
            message,
            requires_signoff: false,
        }
    }
}

/// The decision on a receipt.
#[derive(Debug, Clone, Copy, PartialEq, Eq, Structural)]
pub enum SignoffDecision {
    Approve,
    Reject,
}

/// A human receipt.
#[derive(Debug, PartialEq, Eq)]
pub struct Signoff {
    pub actor: String,
    pub role: String,
    pub subject: String,
    pub decision: SignoffDecision,
    pub at: String,
}

/// What a [`Signoff`] says.
#[verifier::ext_equal]
pub struct SignoffView {
    pub actor: Seq<char>,
    pub role: Seq<char>,
    pub subject: Seq<char>,
    pub decision: SignoffDecision,
    pub at: Seq<char>,
}

impl View for Signoff {
    type V = SignoffView;

    open spec fn view(&self) -> SignoffView {
        SignoffView {
            actor: self.actor@,
            role: self.role@,
            subject: self.subject@,
            decision: self.decision,
            at: self.at@,
        }
    }
}

impl Clone for Signoff {
    fn clone(&self) -> (r: Self)
        ensures
            r@ == self@,
    {
        Signoff {
            actor: self.actor.clone(),
            role: self.role.clone(),
            subject: self.subject.clone(),
            decision: self.decision,
            at: self.at.clone(),
        }
    }
}

/// What a sequence of receipts says.
pub open spec fn signoffs_view(s: Seq<Signoff>) -> Seq<SignoffView> {
    s.map_values(|x: Signoff| x@)
}

/// The findings of an engine run with their provenance and receipts.
#[derive(Debug)]
pub struct EvidencePack {
    pub engine_id: String,
    pub tool_version: String,
    pub spine_version: String,
    pub inputs_hash: String,
    pub params_hash: String,
    pub findings: Vec<Finding>,
    pub signoffs: Vec<Signoff>,
    /// Seal over everything above; empty until sealed.
    pub body_hash: String,
}

/// What an [`EvidencePack`] says.
#[verifier::ext_equal]
pub struct PackView {
    pub engine_id: Seq<char>,
    pub tool_version: Seq<char>,
    pub spine_version: Seq<char>,
    pub inputs_hash: Seq<char>,
    pub params_hash: Seq<char>,
    pub findings: Seq<FindingView>,
    pub signoffs: Seq<SignoffView>,
    pub body_hash: Seq<char>,
}

impl View for EvidencePack {
    type V = PackView;

    open spec fn view(&self) -> PackView {
        PackView {
            engine_id: self.engine_id@,
            tool_version: self.tool_version@,
            spine_version: self.spine_version@,
            inputs_hash: self.inputs_hash@,
            params_hash: self.params_hash@,
            findings: findings_view(self.findings@),
            signoffs: signoffs_view(self.signoffs@),
            body_hash: self.body_hash@,
        }
    }
}

/// Put findings behind others.
pub fn extend_findings(out: &mut Vec<Finding>, more: Vec<Finding>)
    ensures
        findings_view(final(out)@) == findings_view(old(out)@) + findings_view(more@),
{
    let ghost was = out@;
    let mut rest = more;
    out.append(&mut rest);
    assert(findings_view(out@) =~= findings_view(was) + findings_view(more@));
}

/// How many of the first `n` findings have a severity.
pub open spec fn severity_count(s: Seq<FindingView>, severity: Severity, n: int) -> int
    decreases n,
{
    if n <= 0 {
        0
    } else {
        severity_count(s, severity, n - 1) + (if s[n - 1].severity == severity {
            1int
        } else {
            0
        })
    }
}

/// How many findings have a severity.
pub fn count_findings(findings: &Vec<Finding>, severity: Severity) -> (r: usize)
    ensures
        r == severity_count(findings_view(findings@), severity, findings.len() as int),
{
    let ghost all = findings_view(findings@);
    let mut count: usize = 0;
    let mut i: usize = 0;
    while i < findings.len()
        invariant
            i <= findings.len(),
            all == findings_view(findings@),
            count <= i,
            count == severity_count(all, severity, i as int),
        decreases findings.len() - i,
    {
        assert(all[i as int] == findings@[i as int]@);
        if findings[i].severity == severity {
            count = count + 1;
        }
        i = i + 1;
    }
    count
}

/// The order of findings by subject, then by rule.
pub open spec fn finding_lt(a: FindingView, b: FindingView) -> bool {
    text::text_lt(a.subject, b.subject) || (a.subject == b.subject && text::text_lt(
        a.rule_id,
        b.rule_id,
    ))
}

/// Findings by subject, then by rule; those that agree in both stay in order.
pub open spec fn by_subject(s: Seq<FindingView>) -> Seq<FindingView> {
    order::stable_sort(s, |a: FindingView, b: FindingView| finding_lt(a, b))
}

/// The order of findings is a strict order.
pub proof fn finding_order()
    ensures
        order::is_order(|a: FindingView, b: FindingView| finding_lt(a, b)),
{
    let lt = |a: FindingView, b: FindingView| finding_lt(a, b);
    assert forall|a: FindingView| !#[trigger] lt(a, a) by {
        text::text_lt_irreflexive(a.subject);
        text::text_lt_irreflexive(a.rule_id);
    }
    assert forall|a: FindingView, b: FindingView, c: FindingView| #[trigger] lt(a, b)
        && #[trigger] lt(b, c) implies lt(a, c) by {
        if text::text_lt(a.subject, b.subject) && text::text_lt(b.subject, c.subject) {
            text::text_lt_transitive(a.subject, b.subject, c.subject);
        } else if a.subject == b.subject && b.subject == c.subject {
            text::text_lt_transitive(a.rule_id, b.rule_id, c.rule_id);
        }
    }
    assert forall|a: FindingView, b: FindingView, c: FindingView| !#[trigger] lt(a, b)
        && !#[trigger] lt(b, c) implies !lt(a, c) by {
        text::text_lt_total(a.subject, b.subject);
        text::text_lt_total(b.subject, c.subject);
        text::text_lt_total(a.rule_id, b.rule_id);
        text::text_lt_total(b.rule_id, c.rule_id);
        if lt(a, c) {
            if text::text_lt(a.subject, c.subject) {
                if text::text_lt(b.subject, a.subject) {
                    text::text_lt_transitive(b.subject, a.subject, c.subject);
                }
            } else {
                if text::text_lt(b.subject, a.subject) {
                    text::text_lt_irreflexive(b.subject);
                    text::text_lt_transitive(c.subject, b.subject, a.subject);
                    text::text_lt_irreflexive(a.subject);
                } else if text::text_lt(b.rule_id, a.rule_id) {
                    text::text_lt_transitive(b.rule_id, a.rule_id, c.rule_id);
                }
            }
        }
    }
}

pub struct SubjectOrder {}

impl Order<Finding> for SubjectOrder {
    open spec fn lt(&self, a: Finding, b: Finding) -> bool {
        finding_lt(a@, b@)
    }

    fn before(&self, a: &Finding, b: &Finding) -> (r: bool) {
        text::text_before(a.subject.as_str(), b.subject.as_str()) || (text::same_text(
            a.subject.as_str(),
            b.subject.as_str(),
        ) && text::text_before(a.rule_id.as_str(), b.rule_id.as_str()))
    }
}

/// Sort findings by subject, then by rule.
pub fn sort_findings(findings: Vec<Finding>) -> (r: Vec<Finding>)
    ensures
        findings_view(r@) == by_subject(findings_view(findings@)),
{
    let ghost all = findings@;
    let rule = SubjectOrder {  };
    let sorted = order::sort_by(findings, &rule);
    proof {
        order::stable_sort_maps(
            all,
            |f: Finding| f@,
            order::order_of(rule),
            |a: FindingView, b: FindingView| finding_lt(a, b),
        );
    }
    sorted
}

/// Copy a sequence of findings.
pub fn copy_findings(v: &Vec<Finding>) -> (r: Vec<Finding>)
    ensures
        findings_view(r@) == findings_view(v@),
{
    let mut out: Vec<Finding> = Vec::new();
    let mut i: usize = 0;
    while i < v.len()
        invariant
            i <= v.len(),
            findings_view(out@) == findings_view(v@.take(i as int)),
        decreases v.len() - i,
    {
        out.push(v[i].clone());
        proof {
            assert(findings_view(v@.take(i + 1)) =~= findings_view(v@.take(i as int)).push(
                v@[i as int]@,
            ));
            assert(findings_view(out@) =~= findings_view(v@.take(i + 1)));
        }
        i = i + 1;
    }
    assert(v@.take(i as int) =~= v@);
    out
}

/// Copy a sequence of receipts.
pub fn copy_signoffs(v: &Vec<Signoff>) -> (r: Vec<Signoff>)
    ensures
        signoffs_view(r@) == signoffs_view(v@),
{
    let mut out: Vec<Signoff> = Vec::new();
    let mut i: usize = 0;
    while i < v.len()
        invariant
            i <= v.len(),
            signoffs_view(out@) == signoffs_view(v@.take(i as int)),
        decreases v.len() - i,
    {
        out.push(v[i].clone());
        proof {
            assert(signoffs_view(v@.take(i + 1)) =~= signoffs_view(v@.take(i as int)).push(
                v@[i as int]@,
            ));
            assert(signoffs_view(out@) =~= signoffs_view(v@.take(i + 1)));
        }
        i = i + 1;
    }
    assert(v@.take(i as int) =~= v@);
    out
}

impl Clone for EvidencePack {
    fn clone(&self) -> (r: Self)
        ensures
            r@ == self@,
    {
        EvidencePack {
            engine_id: self.engine_id.clone(),
            tool_version: self.tool_version.clone(),
            spine_version: self.spine_version.clone(),
            inputs_hash: self.inputs_hash.clone(),
            params_hash: self.params_hash.clone(),
            findings: copy_findings(&self.findings),
            signoffs: copy_signoffs(&self.signoffs),
            body_hash: self.body_hash.clone(),
        }
    }
}

/// The SHA-256 digest of a byte sequence, in lower-case hexadecimal.
pub uninterp spec fn sha256_text(bytes: Seq<u8>) -> Seq<char>;

/// sha2's `Sha256::digest`, written in lower-case hexadecimal: two digits
/// for each of the digest's 32 bytes. The digest is a function of the bytes
/// alone; that two byte sequences have different digests is not claimed.
#[verifier::external_body]
fn digest_hex(bytes: &[u8]) -> (r: String)
    ensures
        r@ == sha256_text(bytes@),
        r@.len() == 64,
{
    format!("{:x}", sha2::Sha256::digest(bytes))
}

/// The SHA-256 digest of `bytes`, in lower-case hexadecimal.
pub fn sha256_hex(bytes: &[u8]) -> (r: String)
    ensures
        r@ == sha256_text(bytes@),
        r@.len() == 64,
{
    digest_hex(bytes)
}

/// One text of the sealed body: its length in characters, a colon, the text.
pub open spec fn framed(s: Seq<char>) -> Seq<char> {
    text::decimal(s.len()) + ":"@ + s
}

pub open spec fn severity_mark(s: Severity) -> Seq<char> {
    match s {
        Severity::Breach => "breach"@,
        Severity::Warn => "warn"@,
        Severity::Info => "info"@,
    }
}

pub open spec fn decision_mark(d: SignoffDecision) -> Seq<char> {
    match d {
        SignoffDecision::Approve => "approve"@,
        SignoffDecision::Reject => "reject"@,
    }
}

pub open spec fn gate_mark(b: bool) -> Seq<char> {
    if b {
        "true"@
    } else {
        "false"@
    }
}

/// A finding in the sealed body.
pub open spec fn framed_finding(f: FindingView) -> Seq<char> {
    framed(f.rule_id) + framed(severity_mark(f.severity)) + framed(f.subject) + framed(f.message)
        + framed(gate_mark(f.requires_signoff))
}

/// A receipt in the sealed body.
pub open spec fn framed_signoff(s: SignoffView) -> Seq<char> {
    framed(s.actor) + framed(s.role) + framed(s.subject) + framed(decision_mark(s.decision))
        + framed(s.at)
}

pub open spec fn framed_findings(s: Seq<FindingView>) -> Seq<char>
    decreases s.len(),
{
    if s.len() == 0 {
        Seq::empty()
    } else {
        framed_findings(s.drop_last()) + framed_finding(s.last())
    }
}

pub open spec fn framed_signoffs(s: Seq<SignoffView>) -> Seq<char>
    decreases s.len(),
{
    if s.len() == 0 {
        Seq::empty()
    } else {
        framed_signoffs(s.drop_last()) + framed_signoff(s.last())
    }
}

/// The text that the seal covers: every field of the pack but the seal.
pub open spec fn body_text(p: PackView) -> Seq<char> {
    framed(p.engine_id) + framed(p.tool_version) + framed(p.spine_version) + framed(p.inputs_hash)
        + framed(p.params_hash) + framed(text::decimal(p.findings.len())) + framed_findings(p.findings)
        + framed(text::decimal(p.signoffs.len())) + framed_signoffs(p.signoffs)
}

/// The seal that belongs on a pack.
pub open spec fn seal_of(p: PackView) -> Seq<char> {
    sha256_text(vstd::utf8::encode_utf8(body_text(p)))
}

/// A pack with its seal in place.
pub open spec fn sealed_view(p: PackView) -> PackView {
    PackView { body_hash: seal_of(p), ..p }
}

fn push_framed(out: &mut String, s: &str)
    ensures
        final(out)@ == old(out)@ + framed(s@),
{
    let ghost before = out@;
    out.append(text::count_text(s.unicode_len()).as_str());
    out.append(":");
    out.append(s);
    assert(out@ =~= before + framed(s@));
}

/// The severity in lower case.
pub fn severity_label(s: Severity) -> (r: &'static str)
    ensures
        r@ == severity_mark(s),
{
    match s {
        Severity::Breach => "breach",
        Severity::Warn => "warn",
        Severity::Info => "info",
    }
}

fn decision_name(d: SignoffDecision) -> (r: &'static str)
    ensures
        r@ == decision_mark(d),
{
    match d {
        SignoffDecision::Approve => "approve",
        SignoffDecision::Reject => "reject",
    }
}

fn push_finding(out: &mut String, f: &Finding)
    ensures
        final(out)@ == old(out)@ + framed_finding(f@),
{
    let ghost before = out@;
    push_framed(out, f.rule_id.as_str());
    push_framed(out, severity_label(f.severity));
    push_framed(out, f.subject.as_str());
    push_framed(out, f.message.as_str());
    push_framed(out, if f.requires_signoff { "true" } else { "false" });
    assert(out@ =~= before + framed_finding(f@));
}

fn push_signoff(out: &mut String, s: &Signoff)
    ensures
        final(out)@ == old(out)@ + framed_signoff(s@),
{
    let ghost before = out@;
    push_framed(out, s.actor.as_str());
    push_framed(out, s.role.as_str());
    push_framed(out, s.subject.as_str());
    push_framed(out, decision_name(s.decision));
    push_framed(out, s.at.as_str());
    assert(out@ =~= before + framed_signoff(s@));
}

fn push_findings(out: &mut String, v: &Vec<Finding>)
    ensures
        final(out)@ == old(out)@ + framed_findings(findings_view(v@)),
{
    let ghost before = out@;
    let ghost all = findings_view(v@);
    let mut i: usize = 0;
    assert(all.take(0) =~= Seq::<FindingView>::empty());
    assert(out@ =~= before + framed_findings(all.take(0)));
    while i < v.len()
        invariant
            i <= v.len(),
            all == findings_view(v@),
            out@ == before + framed_findings(all.take(i as int)),
        decreases v.len() - i,
    {
        push_finding(out, &v[i]);
        proof {
            assert(all.take(i + 1).drop_last() =~= all.take(i as int));
            assert(all.take(i + 1).last() == v@[i as int]@);
            assert(out@ =~= before + framed_findings(all.take(i + 1)));
        }
        i = i + 1;
    }
    assert(all.take(i as int) =~= all);
}

fn push_signoffs(out: &mut String, v: &Vec<Signoff>)
    ensures
        final(out)@ == old(out)@ + framed_signoffs(signoffs_view(v@)),
{
    let ghost before = out@;
    let ghost all = signoffs_view(v@);
    let mut i: usize = 0;
    assert(all.take(0) =~= Seq::<SignoffView>::empty());
    assert(out@ =~= before + framed_signoffs(all.take(0)));
    while i < v.len()
        invariant
            i <= v.len(),
            all == signoffs_view(v@),
            out@ == before + framed_signoffs(all.take(i as int)),
        decreases v.len() - i,
    {
        push_signoff(out, &v[i]);
        proof {
            assert(all.take(i + 1).drop_last() =~= all.take(i as int));
            assert(all.take(i + 1).last() == v@[i as int]@);
            assert(out@ =~= before + framed_signoffs(all.take(i + 1)));
        }
        i = i + 1;
    }
    assert(all.take(i as int) =~= all);
}

impl EvidencePack {
    /// The seal that belongs on this pack.
    pub fn seal(&self) -> (r: String)
        ensures
            r@ == seal_of(self@),
            r@.len() == 64,
    {
        let mut out = String::new();
        push_framed(&mut out, self.engine_id.as_str());
        push_framed(&mut out, self.tool_version.as_str());
        push_framed(&mut out, self.spine_version.as_str());
        push_framed(&mut out, self.inputs_hash.as_str());
        push_framed(&mut out, self.params_hash.as_str());
        push_framed(&mut out, text::count_text(self.findings.len()).as_str());
        push_findings(&mut out, &self.findings);
        push_framed(&mut out, text::count_text(self.signoffs.len()).as_str());
        push_signoffs(&mut out, &self.signoffs);
        assert(out@ =~= body_text(self@));
        sha256_hex(out.as_str().as_bytes())
    }

    /// This pack with its seal in place.
    pub fn sealed(self) -> (r: EvidencePack)
        ensures
            r@ == sealed_view(self@),
            r.findings == self.findings,
            r.signoffs == self.signoffs,
    {
        let mut pack = self;
        pack.body_hash = pack.seal();
        pack
    }
}

/// A fresh, unsealed pack over the given input and parameter bytes.
pub open spec fn pack_of(
    engine_id: Seq<char>,
    tool_version: Seq<char>,
    inputs: Seq<u8>,
    params: Seq<u8>,
    findings: Seq<FindingView>,
    signoffs: Seq<SignoffView>,
) -> PackView {
    PackView {
        engine_id,
        tool_version,
        spine_version: SPINE_VERSION@,
        inputs_hash: sha256_text(inputs),
        params_hash: sha256_text(params),
        findings,
        signoffs,
        body_hash: Seq::empty(),
    }
}

/// Make a fresh, unsealed pack over the given input and parameter bytes.
pub fn new_pack(
    engine_id: &str,
    tool_version: &str,
    inputs: &[u8],
    params: &[u8],
    findings: Vec<Finding>,
    signoffs: Vec<Signoff>,
) -> (r: EvidencePack)
    ensures
        r@ == pack_of(
            engine_id@,
            tool_version@,
            inputs@,
            params@,
            findings_view(findings@),
            signoffs_view(signoffs@),
        ),
        r.findings == findings,
        r.signoffs == signoffs,
{
    EvidencePack {
        engine_id: String::from_str(engine_id),
        tool_version: String::from_str(tool_version),
        spine_version: String::from_str(SPINE_VERSION),
        inputs_hash: sha256_hex(inputs),
        params_hash: sha256_hex(params),
        findings,
        signoffs,
        body_hash: String::new(),
    }
}

/// Whether a receipt approves `subject`: an approval by a named human who is
/// not the producing engine.
pub open spec fn approves(engine_id: Seq<char>, s: SignoffView, subject: Seq<char>) -> bool {
    &&& s.decision == SignoffDecision::Approve
    &&& text::trimmed(s.actor).len() > 0
    &&& !text::same_ignoring_case(text::trimmed(s.actor), text::trimmed(engine_id))
    &&& s.subject == subject
}

/// Whether some receipt approves `subject`.
pub open spec fn is_approved(
    engine_id: Seq<char>,
    signoffs: Seq<SignoffView>,
    subject: Seq<char>,
) -> bool {
    exists|i: int|
        0 <= i < signoffs.len() && #[trigger] approves(engine_id, signoffs[i], subject)
}

/// Whether a finding is ungated or approved.
pub open spec fn is_resolved(p: PackView, f: FindingView) -> bool {
    f.requires_signoff ==> is_approved(p.engine_id, p.signoffs, f.subject)
}

/// Whether every finding of a pack is ungated or approved.
pub open spec fn all_resolved(p: PackView) -> bool {
    forall|i: int| 0 <= i < p.findings.len() ==> is_resolved(p, #[trigger] p.findings[i])
}

/// Whether `i` is the place of the first unresolved finding.
pub open spec fn is_first_unresolved(p: PackView, i: int) -> bool {
    &&& 0 <= i < p.findings.len()
    &&& !is_resolved(p, p.findings[i])
    &&& forall|j: int| 0 <= j < i ==> is_resolved(p, #[trigger] p.findings[j])
}

/// Whether a receipt approves a subject on a pack of `engine_id`.
pub fn approval_covers(engine_id: &str, s: &Signoff, subject: &str) -> (r: bool)
    ensures
        r == approves(engine_id@, s@, subject@),
{
    let actor = text::trim(s.actor.as_str());
    s.decision == SignoffDecision::Approve && !actor.is_empty() && !text::eq_ignoring_case(
        actor,
        text::trim(engine_id),
    ) && text::same_text(s.subject.as_str(), subject)
}

fn approved(pack: &EvidencePack, subject: &str) -> (r: bool)
    ensures
        r == is_approved(pack@.engine_id, pack@.signoffs, subject@),
{
    let mut i: usize = 0;
    while i < pack.signoffs.len()
        invariant
            i <= pack.signoffs.len(),
            forall|j: int|
                0 <= j < i ==> !#[trigger] approves(
                    pack@.engine_id,
                    pack@.signoffs[j],
                    subject@,
                ),
        decreases pack.signoffs.len() - i,
    {
        if approval_covers(pack.engine_id.as_str(), &pack.signoffs[i], subject) {
            assert(approves(pack@.engine_id, pack@.signoffs[i as int], subject@));
            return true;
        }
        i = i + 1;
    }
    false
}

/// The place of the first gated finding that no receipt approves.
pub fn first_unresolved_index(pack: &EvidencePack) -> (r: Option<usize>)
    ensures
        (match r {
            Some(i) => is_first_unresolved(pack@, i as int),
            None => all_resolved(pack@),
        }),
{
    let mut i: usize = 0;
    while i < pack.findings.len()
        invariant
            i <= pack.findings.len(),
            forall|j: int| 0 <= j < i ==> is_resolved(pack@, #[trigger] pack@.findings[j]),
        decreases pack.findings.len() - i,
    {
        let f = &pack.findings[i];
        assert(pack@.findings[i as int] == f@);
        if f.requires_signoff && !approved(pack, f.subject.as_str()) {
            return Some(i);
        }
        i = i + 1;
    }
    None
}

/// The first gated finding that no receipt approves.
pub fn first_unresolved_finding(pack: &EvidencePack) -> (r: Option<&Finding>)
    ensures
        (match r {
            Some(f) => exists|i: int|
                #[trigger] is_first_unresolved(pack@, i) && f@ == pack@.findings[i],
            None => all_resolved(pack@),
        }),
{
    match first_unresolved_index(pack) {
        Some(i) => {
            assert(is_first_unresolved(pack@, i as int));
            assert(pack@.findings[i as int] == pack.findings@[i as int]@);
            Some(&pack.findings[i])
        },
        None => None,
    }
}

/// Whether two receipts are approvals by two different named signers.
pub open spec fn two_signers(a: SignoffView, b: SignoffView) -> bool {
    &&& a.decision == SignoffDecision::Approve
    &&& b.decision == SignoffDecision::Approve
    &&& text::trimmed(a.actor).len() > 0
    &&& text::trimmed(b.actor).len() > 0
    &&& !text::same_ignoring_case(text::trimmed(a.actor), text::trimmed(b.actor))
}

/// Whether the approvals among the receipts name two different signers.
pub open spec fn four_eyes(s: Seq<SignoffView>) -> bool {
    exists|i: int, j: int| 0 <= i < j < s.len() && #[trigger] two_signers(s[i], s[j])
}

/// Whether the approvals among the receipts name two different signers.
/// Signers are told apart without white space and the case of letters.
pub fn four_eyes_satisfied(signoffs: &Vec<Signoff>) -> (r: bool)
    ensures
        r == four_eyes(signoffs_view(signoffs@)),
{
    let ghost all = signoffs_view(signoffs@);
    let mut i: usize = 0;
    while i < signoffs.len()
        invariant
            i <= signoffs.len(),
            all == signoffs_view(signoffs@),
            forall|k: int, j: int| 0 <= k < i && k < j < all.len() ==> !#[trigger] two_signers(all[k], all[j]),
        decreases signoffs.len() - i,
    {
        let mut j: usize = i + 1;
        while j < signoffs.len()
            invariant
                i < j <= signoffs.len(),
                all == signoffs_view(signoffs@),
                forall|l: int| i < l < j ==> !#[trigger] two_signers(all[i as int], all[l]),
            decreases signoffs.len() - j,
        {
            let a = &signoffs[i];
            let b = &signoffs[j];
            assert(all[i as int] == a@ && all[j as int] == b@);
            if a.decision == SignoffDecision::Approve && b.decision == SignoffDecision::Approve
                && !text::blank(a.actor.as_str()) && !text::blank(b.actor.as_str())
                && !text::eq_ignoring_case(
                text::trim(a.actor.as_str()),
                text::trim(b.actor.as_str()),
            ) {
                assert(two_signers(all[i as int], all[j as int]));
                return true;
            }
            j = j + 1;
        }
        i = i + 1;
    }
    false
}

/// Where a pack stands.
#[derive(Debug, Clone, Copy, PartialEq, Eq, Structural)]
pub enum LockState {
    Draft,
    AwaitingSignoff,
    Signed,
}

/// Why the lock does not advance.
#[derive(Debug, Clone, PartialEq, Eq)]
pub enum LockError {
    /// A gated finding has no approval.
    UnresolvedBreach { rule_id: String },
    /// Nothing follows the given state.
    InvalidTransition(LockState),
}

/// What one step of the lock gives back.
pub open spec fn lock_step(
    state: LockState,
    before: PackView,
    after: PackView,
    r: Result<LockState, LockError>,
) -> bool {
    match state {
        LockState::Draft => r == Ok::<LockState, LockError>(LockState::AwaitingSignoff) && after
            == before,
        LockState::AwaitingSignoff => if all_resolved(before) {
            r == Ok::<LockState, LockError>(LockState::Signed) && after == sealed_view(before)
        } else {
            &&& after == before
            &&& r matches Err(LockError::UnresolvedBreach { rule_id })
            &&& exists|i: int|
                #[trigger] is_first_unresolved(before, i) && rule_id@ == before.findings[i].rule_id
        },
        LockState::Signed => after == before && r == Err::<LockState, LockError>(
            LockError::InvalidTransition(LockState::Signed),
        ),
    }
}

/// Advance a pack one step: a draft is submitted; a submitted pack is sealed
/// and signed once every gated finding is approved; nothing follows signing.
pub fn advance_lock(state: LockState, pack: &mut EvidencePack) -> (r: Result<LockState, LockError>)
    ensures
        lock_step(state, old(pack)@, final(pack)@, r),
        final(pack).findings == old(pack).findings,
        final(pack).signoffs == old(pack).signoffs,
        r == Ok::<LockState, LockError>(LockState::Signed) ==> final(pack)@.body_hash.len() == 64,
{
    match state {
        LockState::Draft => Ok(LockState::AwaitingSignoff),
        LockState::AwaitingSignoff => {
            match first_unresolved_index(pack) {
                Some(i) => {
                    assert(is_first_unresolved(pack@, i as int));
                    assert(!is_resolved(pack@, pack@.findings[i as int]));
                    assert(pack@.findings[i as int] == pack.findings@[i as int]@);
                    Err(LockError::UnresolvedBreach { rule_id: pack.findings[i].rule_id.clone() })
                },
                None => {
                    let seal = pack.seal();
                    pack.body_hash = seal;
                    Ok(LockState::Signed)
                },
            }
        },
        LockState::Signed => Err(LockError::InvalidTransition(LockState::Signed)),
    }
}

/// Why a pack is not evidence.
#[derive(Debug, Clone, PartialEq, Eq)]
pub enum VerifyError {
    /// Made under another version of the pack contract.
    ForeignVersion,
    /// The seal is missing or does not cover this body.
    BodyHashMismatch,
    /// The presented bytes are not the ones that the pack was made from.
    HashMismatch { field: &'static str },
    /// A gated finding has no approval.
    UnresolvedBreach { rule_id: String },
}

/// Whether the pack carries the seal that belongs on it.
pub open spec fn seal_intact(p: PackView) -> bool {
    p.body_hash == seal_of(p)
}

/// Whether a pack is evidence for the presented bytes.
pub open spec fn is_evidence(p: PackView, inputs: Seq<u8>, params: Seq<u8>) -> bool {
    &&& p.spine_version == SPINE_VERSION@
    &&& seal_intact(p)
    &&& p.inputs_hash == sha256_text(inputs)
    &&& p.params_hash == sha256_text(params)
    &&& all_resolved(p)
}

/// What verification answers: the first doubt, in the order version, seal,
/// inputs, params, approvals.
pub open spec fn verdict(
    p: PackView,
    inputs: Seq<u8>,
    params: Seq<u8>,
    r: Result<(), VerifyError>,
) -> bool {
    if p.spine_version != SPINE_VERSION@ {
        r == Err::<(), VerifyError>(VerifyError::ForeignVersion)
    } else if !seal_intact(p) {
        r == Err::<(), VerifyError>(VerifyError::BodyHashMismatch)
    } else if p.inputs_hash != sha256_text(inputs) {
        r matches Err(VerifyError::HashMismatch { field }) && field@ == "inputs"@
    } else if p.params_hash != sha256_text(params) {
        r matches Err(VerifyError::HashMismatch { field }) && field@ == "params"@
    } else if !all_resolved(p) {
        &&& r matches Err(VerifyError::UnresolvedBreach { rule_id })
        &&& exists|i: int|
            #[trigger] is_first_unresolved(p, i) && rule_id@ == p.findings[i].rule_id
    } else {
        r == Ok::<(), VerifyError>(())
    }
}

impl EvidencePack {
    /// Fail-closed verification against the presented input and parameter
    /// bytes.
    pub fn verify(&self, inputs: &[u8], params: &[u8]) -> (r: Result<(), VerifyError>)
        ensures
            verdict(self@, inputs@, params@, r),
            r is Ok <==> is_evidence(self@, inputs@, params@),
    {
        if !text::same_text(self.spine_version.as_str(), SPINE_VERSION) {
            return Err(VerifyError::ForeignVersion);
        }
        if self.body_hash != self.seal() {
            return Err(VerifyError::BodyHashMismatch);
        }
        if self.inputs_hash != sha256_hex(inputs) {
            return Err(VerifyError::HashMismatch { field: "inputs" });
        }
        if self.params_hash != sha256_hex(params) {
            return Err(VerifyError::HashMismatch { field: "params" });
        }
        match first_unresolved_index(self) {
            Some(i) => {
                assert(is_first_unresolved(self@, i as int));
                assert(!is_resolved(self@, self@.findings[i as int]));
                assert(self@.findings[i as int] == self.findings@[i as int]@);
                Err(VerifyError::UnresolvedBreach { rule_id: self.findings[i].rule_id.clone() })
            },
            None => Ok(()),
        }
    }
}

pub open spec fn lock_name(state: LockState) -> Seq<char> {
    match state {
        LockState::Draft => "draft"@,
        LockState::AwaitingSignoff => "awaiting_signoff"@,
        LockState::Signed => "signed"@,
    }
}

/// The state's name in pack files.
pub fn lock_label(state: LockState) -> (r: &'static str)
    ensures
        r@ == lock_name(state),
{
    match state {
        LockState::Draft => "draft",
        LockState::AwaitingSignoff => "awaiting_signoff",
        LockState::Signed => "signed",
    }
}

impl LockError {
    pub open spec fn text(&self) -> Seq<char> {
        match self {
            LockError::UnresolvedBreach { rule_id } => "finding "@ + rule_id@
                + " is unresolved: no approval covers its subject"@,
            LockError::InvalidTransition(state) => "no transition leads out of "@ + lock_name(
                *state,
            ),
        }
    }

    /// The error as a line of text.
    pub fn message(&self) -> (r: String)
        ensures
            r@ == self.text(),
    {
        match self {
            LockError::UnresolvedBreach { rule_id } => {
                let mut out = String::from_str("finding ");
                out.append(rule_id.as_str());
                out.append(" is unresolved: no approval covers its subject");
                out
            },
            LockError::InvalidTransition(state) => {
                let mut out = String::from_str("no transition leads out of ");
                out.append(lock_label(*state));
                out
            },
        }
    }
}

impl VerifyError {
    pub open spec fn text(&self) -> Seq<char> {
        match self {
            VerifyError::ForeignVersion => "pack was produced under a foreign spine version"@,
            VerifyError::BodyHashMismatch => "body hash does not match the pack body"@,
            VerifyError::HashMismatch { field } => field@
                + " hash does not match the presented bytes"@,
            VerifyError::UnresolvedBreach { rule_id } => "finding "@ + rule_id@
                + " is unresolved: no approval covers its subject"@,
        }
    }

    /// The error as a line of text.
    pub fn message(&self) -> (r: String)
        ensures
            r@ == self.text(),
    {
        match self {
            VerifyError::ForeignVersion => String::from_str(
                "pack was produced under a foreign spine version",
            ),
            VerifyError::BodyHashMismatch => String::from_str(
                "body hash does not match the pack body",
            ),
            VerifyError::HashMismatch { field } => {
                let mut out = String::from_str(field);
                out.append(" hash does not match the presented bytes");
                out
            },
            VerifyError::UnresolvedBreach { rule_id } => {
                let mut out = String::from_str("finding ");
                out.append(rule_id.as_str());
                out.append(" is unresolved: no approval covers its subject");
                out
            },
        }
    }
}

/// Whether two sequences of findings say the same.
pub fn same_findings(a: &Vec<Finding>, b: &Vec<Finding>) -> (r: bool)
    ensures
        r == (findings_view(a@) == findings_view(b@)),
{
    let ghost x = findings_view(a@);
    let ghost y = findings_view(b@);
    if a.len() != b.len() {
        assert(x.len() != y.len());
        return false;
    }
    let mut i: usize = 0;
    while i < a.len()
        invariant
            i <= a.len() == b.len(),
            x == findings_view(a@),
            y == findings_view(b@),
            forall|k: int| 0 <= k < i ==> #[trigger] x[k] == y[k],
        decreases a.len() - i,
    {
        let f = &a[i];
        let g = &b[i];
        assert(x[i as int] == f@ && y[i as int] == g@);
        if !(f.rule_id == g.rule_id && f.severity == g.severity && f.subject == g.subject
            && f.message == g.message && f.requires_signoff == g.requires_signoff) {
            assert(x[i as int] != y[i as int]);
            return false;
        }
        assert(f@ =~= g@);
        i = i + 1;
    }
    assert(x =~= y);
    true
}

pub open spec fn severity_debug(s: Severity) -> Seq<char> {
    match s {
        Severity::Breach => "Breach"@,
        Severity::Warn => "Warn"@,
        Severity::Info => "Info"@,
    }
}

/// The severity's name as written in code.
pub fn severity_word(s: Severity) -> (r: &'static str)
    ensures
        r@ == severity_debug(s),
{
    match s {
        Severity::Breach => "Breach",
        Severity::Warn => "Warn",
        Severity::Info => "Info",
    }
}

} // verus!
