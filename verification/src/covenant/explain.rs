//! The covenants in force at a date, in plain text.

use vstd::prelude::*;
use vstd::string::StringExecFns;

use crate::covenant::config;
use crate::covenant::config::{CovenantConfig, CovenantRule, EquityCure};
use crate::covenant::engine;
use crate::covenant::units;
use crate::date;
use crate::date::Date;
use crate::text;
use crate::text::Writer;

verus! {

pub open spec fn end_text(to: Option<Date>) -> Seq<char> {
    match to {
        Some(d) => date::date_text(d.day()),
        None => "open"@,
    }
}

/// The line on the one version of a covenant that is in force.
pub open spec fn version_line(id: Seq<char>, r: CovenantRule) -> Seq<char> {
    "  "@ + id + ": "@ + r.kind.name() + " "@ + engine::bound_name(r.kind.caps()) + " "@
        + units::ratio_text(r.threshold.0 as int) + "x, basis "@ + r.basis.name() + ", window ["@
        + date::date_text(r.effective_from.day()) + ", "@ + end_text(r.effective_to) + ")\n"@
}

/// The line on a covenant.
pub open spec fn covenant_line(config: CovenantConfig, day: int, id: Seq<char>) -> Seq<char> {
    let versions = config::versions_on(config.covenants@, id, day, config.covenants.len() as int);
    if versions.len() == 0 {
        "  "@ + id + ": no version in force\n"@
    } else if versions.len() == 1 {
        version_line(id, config.covenants@[versions[0]])
    } else {
        "  "@ + id + ": AMBIGUOUS — "@ + text::decimal(versions.len())
            + " versions in force; compute refuses this config\n"@
    }
}

/// The line on a cure, where it is in force.
pub open spec fn cure_line(c: EquityCure, day: int) -> Seq<char> {
    if c.holds_on(day) {
        "  "@ + c.description@ + ": add_to_ebitda "@ + text::signed_decimal(
            c.add_to_ebitda_cents.0 as int,
        ) + " cents, reduce_debt "@ + text::signed_decimal(c.reduce_debt_cents.0 as int)
            + " cents\n"@
    } else {
        ""@
    }
}

/// The lines on the first `n` covenants, in the order in which the
/// configuration first names them.
pub open spec fn covenant_lines(config: CovenantConfig, day: int, n: int) -> Seq<char>
    decreases n,
{
    if n <= 0 {
        Seq::empty()
    } else {
        covenant_lines(config, day, n - 1) + covenant_line(
            config,
            day,
            config::first_ids(config.covenants@, config.covenants.len() as int)[n - 1],
        )
    }
}

fn covenant_text(config: &CovenantConfig, date: Date, id: &str) -> (r: String)
    ensures
        r@ == covenant_line(*config, date.day(), id@),
{
    let versions = config::versions_in_force(&config.covenants, id, date);
    assert(config::places(versions@).len() == versions.len());
    let mut line = String::from_str("  ");
    line.append(id);
    if versions.len() == 0 {
        line.append(": no version in force\n");
    } else if versions.len() == 1 {
        assert(config::places(versions@)[0] == versions@[0]);
        let r = &config.covenants[versions[0]];
        line.append(": ");
        line.append(r.kind.label());
        line.append(" ");
        line.append(if r.kind.is_maximum() { "max" } else { "min" });
        line.append(" ");
        line.append(r.threshold.to_decimal_string().as_str());
        line.append("x, basis ");
        line.append(r.basis.label());
        line.append(", window [");
        line.append(r.effective_from.text().as_str());
        line.append(", ");
        let end = match r.effective_to {
            Some(d) => d.text(),
            None => String::from_str("open"),
        };
        line.append(end.as_str());
        line.append(")\n");
    } else {
        line.append(": AMBIGUOUS — ");
        line.append(text::count_text(versions.len()).as_str());
        line.append(" versions in force; compute refuses this config\n");
    }
    line
}

fn all_covenants(config: &CovenantConfig, date: Date) -> (r: String)
    ensures
        r@ == covenant_lines(
            *config,
            date.day(),
            config::first_ids(config.covenants@, config.covenants.len() as int).len() as int,
        ),
{
    let ids = config::covenant_ids(&config.covenants);
    let ghost all = config::first_ids(config.covenants@, config.covenants.len() as int);
    assert(all.len() == ids.len());
    let mut out = String::new();
    let mut i: usize = 0;
    while i < ids.len()
        invariant
            i <= ids.len() == all.len(),
            all == text::texts(ids@),
            all == config::first_ids(config.covenants@, config.covenants.len() as int),
            out@ == covenant_lines(*config, date.day(), i as int),
        decreases ids.len() - i,
    {
        assert(all[i as int] == ids@[i as int]@);
        out.append(covenant_text(config, date, ids[i].as_str()).as_str());
        i = i + 1;
    }
    out
}

pub struct CureWriter {
    pub date: Date,
}

impl Writer<EquityCure> for CureWriter {
    open spec fn written(&self, x: EquityCure) -> Seq<char> {
        cure_line(x, self.date.day())
    }

    fn write_to(&self, x: &EquityCure, out: &mut String) {
        let mut line = String::from_str("");
        if x.is_in_force(self.date) {
            line = String::from_str("  ");
            line.append(x.description.as_str());
            line.append(": add_to_ebitda ");
            line.append(x.add_to_ebitda_cents.text().as_str());
            line.append(" cents, reduce_debt ");
            line.append(x.reduce_debt_cents.text().as_str());
            line.append(" cents\n");
        }
        out.append(line.as_str());
    }
}

/// Whether some cure is in force on a day.
pub open spec fn any_cure(s: Seq<EquityCure>, day: int) -> bool {
    exists|i: int| 0 <= i < s.len() && (#[trigger] s[i]).holds_on(day)
}

fn cures_apply(cures: &Vec<EquityCure>, date: Date) -> (r: bool)
    ensures
        r == any_cure(cures@, date.day()),
{
    let mut i: usize = 0;
    while i < cures.len()
        invariant
            i <= cures.len(),
            forall|k: int| 0 <= k < i ==> !(#[trigger] cures@[k]).holds_on(date.day()),
        decreases cures.len() - i,
    {
        if cures[i].is_in_force(date) {
            return true;
        }
        i = i + 1;
    }
    false
}

/// The text on a configuration.
pub open spec fn explanation(config: CovenantConfig, date: Date) -> Seq<char> {
    "covenants in force at "@ + date::date_text(date.day()) + ":\n"@ + covenant_lines(
        config,
        date.day(),
        config::first_ids(config.covenants@, config.covenants.len() as int).len() as int,
    ) + (if any_cure(config.equity_cures@, date.day()) {
        "equity cures in force:\n"@ + text::all_written(
            CureWriter { date },
            config.equity_cures@,
        )
    } else {
        "equity cures in force: (none)\n"@
    }) + "projection: horizon "@ + text::decimal(config.projection.horizon_quarters as nat)
        + " quarters, min history "@ + text::decimal(config.projection.min_history_points as nat)
        + " points (deterministic linear trend over computable points)\n"@ + "formulas:\n"@
        + "  max_leverage              = total debt / EBITDA (<= threshold)\n"@
        + "  min_interest_coverage     = EBITDA / interest expense (>= threshold)\n"@
        + "  min_current_ratio         = current assets / current liabilities (>= threshold)\n"@
        + "  min_fixed_charge_coverage = (EBITDA + rent) / (interest + rent + current maturities) (>= threshold)\n"@
}

/// The covenants and cures in force at a date, the projection settings, and
/// the formulas.
pub fn explain(config: &CovenantConfig, date: Date) -> (r: String)
    ensures
        r@ == explanation(*config, date),
{
    let mut cures = String::from_str("equity cures in force: (none)\n");
    if cures_apply(&config.equity_cures, date) {
        cures = String::from_str("equity cures in force:\n");
        text::write_all(&CureWriter { date }, &config.equity_cures, &mut cures);
    }
    let mut out = String::from_str("covenants in force at ");
    out.append(date.text().as_str());
    out.append(":\n");
    out.append(all_covenants(config, date).as_str());
    out.append(cures.as_str());
    out.append("projection: horizon ");
    out.append(text::unsigned_text(config.projection.horizon_quarters as u128).as_str());
    out.append(" quarters, min history ");
    out.append(text::unsigned_text(config.projection.min_history_points as u128).as_str());
    out.append(" points (deterministic linear trend over computable points)\n");
    out.append("formulas:\n");
    out.append("  max_leverage              = total debt / EBITDA (<= threshold)\n");
    out.append("  min_interest_coverage     = EBITDA / interest expense (>= threshold)\n");
    out.append("  min_current_ratio         = current assets / current liabilities (>= threshold)\n");
    out.append(
        "  min_fixed_charge_coverage = (EBITDA + rent) / (interest + rent + current maturities) (>= threshold)\n",
    );
    out
}

} // verus!
