//! A commission run as text.

use vstd::prelude::*;
use vstd::string::StringExecFns;

use crate::commission::bands::BandSlice;
use crate::commission::config::{BandMode, PlanConfig, PlanVersion};
use crate::commission::engine::{CreditLine, EngineOutput, RepSummary};
use crate::date;
use crate::num;
use crate::spine;
use crate::spine::Finding;
use crate::text;
use crate::text::Writer;

verus! {

pub open spec fn mode_name(m: BandMode) -> Seq<char> {
    match m {
        BandMode::Marginal => "Marginal"@,
        BandMode::Cliff => "Cliff"@,
    }
}

fn mode_word(m: BandMode) -> (r: &'static str)
    ensures
        r@ == mode_name(m),
{
    match m {
        BandMode::Marginal => "Marginal",
        BandMode::Cliff => "Cliff",
    }
}

/// Parts per million as a percentage with four decimals.
pub open spec fn ppm_text(ppm: int) -> Seq<char> {
    let abs = num::magnitude(ppm);
    (if ppm < 0 {
        "-"@
    } else {
        ""@
    }) + text::decimal(abs / 10_000) + "."@ + text::four_digits(abs % 10_000) + "%"@
}

/// Parts per million as a percentage with four decimals.
pub fn fmt_ppm(ppm: i128) -> (r: String)
    ensures
        r@ == ppm_text(ppm as int),
{
    let abs: u128 = num::unsigned_abs(ppm);
    let mut out = String::from_str(if ppm < 0 { "-" } else { "" });
    out.append(text::unsigned_text(abs / 10_000).as_str());
    out.append(".");
    out.append(text::four_digit_text(abs % 10_000).as_str());
    out.append("%");
    out
}

/// A version of the plan on a line of its own.
pub open spec fn version_line(v: PlanVersion) -> Seq<char> {
    "  plan v"@ + text::decimal(v.version as nat) + " effective "@ + date::date_text(
        v.effective_from.day(),
    ) + ".."@ + (match v.effective_to {
        Some(d) => date::date_text(d.day()),
        None => "open"@,
    }) + " — quota "@ + text::signed_decimal(v.quota_cents as int) + " c, "@ + mode_name(v.band_mode)
        + " bands, windfall cap "@ + (match v.windfall_cap_ppm {
        Some(c) => text::decimal(c as nat) + " ppm"@,
        None => "none"@,
    }) + "\n"@
}

/// Writes each version on a line of its own.
pub struct VersionLines {}

impl Writer<PlanVersion> for VersionLines {
    open spec fn written(&self, v: PlanVersion) -> Seq<char> {
        version_line(v)
    }

    fn write_to(&self, v: &PlanVersion, out: &mut String) {
        let mut line = String::from_str("  plan v");
        line.append(text::unsigned_text(v.version as u128).as_str());
        line.append(" effective ");
        line.append(v.effective_from.text().as_str());
        line.append("..");
        match v.effective_to {
            Some(d) => line.append(d.text().as_str()),
            None => line.append("open"),
        }
        line.append(" — quota ");
        line.append(text::signed_text(v.quota_cents).as_str());
        line.append(" c, ");
        line.append(mode_word(v.band_mode));
        line.append(" bands, windfall cap ");
        match v.windfall_cap_ppm {
            Some(c) => {
                let mut cap = text::unsigned_text(c as u128);
                cap.append(" ppm");
                line.append(cap.as_str())
            },
            None => line.append("none"),
        }
        line.append("\n");
        out.append(line.as_str());
    }
}

/// A band slice on a line of its own.
pub open spec fn slice_line(b: BandSlice) -> Seq<char> {
    "    band "@ + text::decimal(b.band_index as nat) + " ≤"@ + (match b.up_to_ppm {
        Some(u) => text::decimal(u as nat) + " ppm"@,
        None => "open"@,
    }) + ": "@ + text::signed_decimal(b.slice_cents as int) + " c × "@ + text::decimal(b.rate_bps as nat)
        + " bps → "@ + text::signed_decimal(b.commission_cents as int) + " c\n"@
}

/// Writes each slice on a line of its own.
pub struct SliceLines {}

impl Writer<BandSlice> for SliceLines {
    open spec fn written(&self, b: BandSlice) -> Seq<char> {
        slice_line(b)
    }

    fn write_to(&self, b: &BandSlice, out: &mut String) {
        let mut line = String::from_str("    band ");
        line.append(text::count_text(b.band_index).as_str());
        line.append(" ≤");
        match b.up_to_ppm {
            Some(u) => {
                let mut bound = text::unsigned_text(u as u128);
                bound.append(" ppm");
                line.append(bound.as_str())
            },
            None => line.append("open"),
        }
        line.append(": ");
        line.append(text::signed_text(b.slice_cents).as_str());
        line.append(" c × ");
        line.append(text::unsigned_text(b.rate_bps as u128).as_str());
        line.append(" bps → ");
        line.append(text::signed_text(b.commission_cents).as_str());
        line.append(" c\n");
        out.append(line.as_str());
    }
}

/// The quota of the first version from `i` on with a number, or zero.
pub open spec fn quota_of(versions: Seq<PlanVersion>, number: u32, i: int) -> int
    decreases versions.len() - i,
{
    if i >= versions.len() {
        0
    } else if versions[i].version == number {
        versions[i].quota_cents as int
    } else {
        quota_of(versions, number, i + 1)
    }
}

fn quota_for(plan: &PlanConfig, number: u32) -> (r: i128)
    ensures
        r == quota_of(plan.versions@, number, 0),
{
    let mut i: usize = 0;
    while i < plan.versions.len()
        invariant
            i <= plan.versions.len(),
            quota_of(plan.versions@, number, 0) == quota_of(plan.versions@, number, i as int),
        decreases plan.versions.len() - i,
    {
        if plan.versions[i].version == number {
            return plan.versions[i].quota_cents;
        }
        i = i + 1;
    }
    0
}

/// A roll-up with its attainment, commission, and slices.
pub open spec fn summary_lines(versions: Seq<PlanVersion>, s: RepSummary) -> Seq<char> {
    "\nrep "@ + s.rep_id@ + " (plan v"@ + text::decimal(s.plan_version as nat) + "): gross "@
        + text::signed_decimal(s.gross_credited_cents as int) + " c, returned "@ + text::signed_decimal(
        s.returned_cents as int,
    ) + " c, net "@ + text::signed_decimal(s.net_credited_cents as int) + " c\n  attainment "@ + ppm_text(
        s.attainment_ppm as int,
    ) + " of quota "@ + text::signed_decimal(quota_of(versions, s.plan_version, 0)) + " c"@ + (match s.windfall_cap_ppm {
        Some(c) => " (windfall cap "@ + text::decimal(c as nat) + " ppm)"@,
        None => ""@,
    }) + (if s.windfall_cap_applied {
        " — windfall cap applied to the payout basis"@
    } else {
        ""@
    }) + "\n  commission: net "@ + text::signed_decimal(s.net_commission_cents as int) + " c (gross "@
        + text::signed_decimal(s.gross_commission_cents as int) + " c, clawback "@ + text::signed_decimal(
        s.clawback_commission_cents as int,
    ) + " c) — "@ + mode_name(s.band_mode) + " mode\n"@ + (if s.band_mode == BandMode::Marginal {
        text::all_written(SliceLines {  }, s.net_band_slices@)
    } else {
        ""@
    })
}

/// Writes the roll-ups of one rep, or of every rep.
pub struct SummaryLines<'a> {
    pub plan: &'a PlanConfig,
    pub rep: Option<&'a str>,
}

impl<'a> Writer<RepSummary> for SummaryLines<'a> {
    open spec fn written(&self, s: RepSummary) -> Seq<char> {
        if self.rep is Some && self.rep->0@ != s.rep_id@ {
            Seq::empty()
        } else {
            summary_lines(self.plan.versions@, s)
        }
    }

    fn write_to(&self, s: &RepSummary, out: &mut String) {
        let ghost before = out@;
        if let Some(rep) = self.rep {
            if !text::same_text(rep, s.rep_id.as_str()) {
                assert(out@ =~= before + self.written(*s));
                return ;
            }
        }
        let mut line = String::from_str("\nrep ");
        line.append(s.rep_id.as_str());
        line.append(" (plan v");
        line.append(text::unsigned_text(s.plan_version as u128).as_str());
        line.append("): gross ");
        line.append(text::signed_text(s.gross_credited_cents).as_str());
        line.append(" c, returned ");
        line.append(text::signed_text(s.returned_cents).as_str());
        line.append(" c, net ");
        line.append(text::signed_text(s.net_credited_cents).as_str());
        line.append(" c\n  attainment ");
        line.append(fmt_ppm(s.attainment_ppm).as_str());
        line.append(" of quota ");
        line.append(text::signed_text(quota_for(self.plan, s.plan_version)).as_str());
        line.append(" c");
        match s.windfall_cap_ppm {
            Some(c) => {
                let mut cap = String::from_str(" (windfall cap ");
                cap.append(text::unsigned_text(c as u128).as_str());
                cap.append(" ppm)");
                line.append(cap.as_str())
            },
            None => line.append(""),
        }
        line.append(
            if s.windfall_cap_applied {
                " — windfall cap applied to the payout basis"
            } else {
                ""
            },
        );
        line.append("\n  commission: net ");
        line.append(text::signed_text(s.net_commission_cents).as_str());
        line.append(" c (gross ");
        line.append(text::signed_text(s.gross_commission_cents).as_str());
        line.append(" c, clawback ");
        line.append(text::signed_text(s.clawback_commission_cents).as_str());
        line.append(" c) — ");
        line.append(mode_word(s.band_mode));
        line.append(" mode\n");
        if s.band_mode == BandMode::Marginal {
            text::write_all(&SliceLines {  }, &s.net_band_slices, &mut line);
        } else {
            line.append("");
        }
        out.append(line.as_str());
    }
}

/// A credit line on a line of its own.
pub open spec fn credit_text(l: CreditLine) -> Seq<char> {
    "  "@ + l.transaction_id@ + " → "@ + l.rep_id@ + " ("@ + l.role@ + ") "@ + text::plus_decimal(
        l.credited_cents as int,
    ) + " c"@ + (match l.links_original {
        Some(o) => " [clawback of "@ + o@ + "]"@,
        None => ""@,
    }) + "\n"@
}

/// Writes each credit line on a line of its own.
pub struct CreditLines {}

impl Writer<CreditLine> for CreditLines {
    open spec fn written(&self, l: CreditLine) -> Seq<char> {
        credit_text(l)
    }

    fn write_to(&self, l: &CreditLine, out: &mut String) {
        let mut line = String::from_str("  ");
        line.append(l.transaction_id.as_str());
        line.append(" → ");
        line.append(l.rep_id.as_str());
        line.append(" (");
        line.append(l.role.as_str());
        line.append(") ");
        line.append(text::plus_text(l.credited_cents).as_str());
        line.append(" c");
        match &l.links_original {
            Some(o) => {
                let mut link = String::from_str(" [clawback of ");
                link.append(o.as_str());
                link.append("]");
                line.append(link.as_str())
            },
            None => line.append(""),
        }
        line.append("\n");
        out.append(line.as_str());
    }
}

/// A finding on a line of its own.
pub open spec fn finding_text(f: Finding) -> Seq<char> {
    "  ["@ + spine::severity_debug(f.severity) + "] "@ + f.rule_id@ + " on "@ + f.subject@ + " — "@
        + f.message@ + (if f.requires_signoff {
        " (signoff required)"@
    } else {
        ""@
    }) + "\n"@
}

/// Writes each finding on a line of its own.
pub struct FindingLines {}

impl Writer<Finding> for FindingLines {
    open spec fn written(&self, f: Finding) -> Seq<char> {
        finding_text(f)
    }

    fn write_to(&self, f: &Finding, out: &mut String) {
        let mut line = String::from_str("  [");
        line.append(spine::severity_word(f.severity));
        line.append("] ");
        line.append(f.rule_id.as_str());
        line.append(" on ");
        line.append(f.subject.as_str());
        line.append(" — ");
        line.append(f.message.as_str());
        line.append(
            if f.requires_signoff {
                " (signoff required)"
            } else {
                ""
            },
        );
        line.append("\n");
        out.append(line.as_str());
    }
}

/// A run as text.
pub open spec fn explanation(plan: PlanConfig, run: EngineOutput, rep: Option<&str>) -> Seq<char> {
    "commission-spine — plan "@ + plan.plan_id@ + "\n"@ + text::all_written(
        VersionLines {  },
        plan.versions@,
    ) + text::all_written(SummaryLines { plan: &plan, rep }, run.rep_summaries@)
        + "\ncredit lines:\n"@ + text::all_written(CreditLines {  }, run.credit_lines@)
        + "\nfindings:\n"@ + text::all_written(FindingLines {  }, run.findings@)
}

/// A run as text, for one rep or for every rep.
pub fn explain(plan: &PlanConfig, run: &EngineOutput, rep: Option<&str>) -> (r: String)
    ensures
        r@ == explanation(*plan, *run, rep),
{
    let mut out = String::from_str("commission-spine — plan ");
    out.append(plan.plan_id.as_str());
    out.append("\n");
    text::write_all(&VersionLines {  }, &plan.versions, &mut out);
    text::write_all(&SummaryLines { plan, rep }, &run.rep_summaries, &mut out);
    out.append("\ncredit lines:\n");
    text::write_all(&CreditLines {  }, &run.credit_lines, &mut out);
    out.append("\nfindings:\n");
    text::write_all(&FindingLines {  }, &run.findings, &mut out);
    out
}

} // verus!
