//! The matrix in plain text.

use vstd::prelude::*;
use vstd::string::StringExecFns;

use crate::coi::config::{CategoryRequirement, Coverage, CoverageRequirement, Endorsement, RequirementsConfig};
use crate::coi::engine;
use crate::coi::TOOL_VERSION;
use crate::spine::SPINE_VERSION;
use crate::text;

verus! {

/// The names of endorsements.
pub open spec fn endorsement_names(s: Seq<Endorsement>) -> Seq<Seq<char>> {
    s.map_values(|e: Endorsement| e.name())
}

pub open spec fn endorsements_text(s: Seq<Endorsement>) -> Seq<char> {
    if s.len() == 0 {
        "none"@
    } else {
        text::joined(endorsement_names(s), ", "@)
    }
}

/// The line on one requirement.
pub open spec fn requirement_line(coverage: Coverage, q: Option<CoverageRequirement>) -> Seq<char> {
    match q {
        None => ""@,
        Some(q) => "  "@ + coverage.sign() + ": per-occurrence ≥ "@ + engine::money_text(
            q.per_occurrence_cents as int,
        ) + ", aggregate ≥ "@ + engine::money_text(q.aggregate_cents as int)
            + ", endorsements: "@ + endorsements_text(q.endorsements@) + "\n"@,
    }
}

/// The lines on a category.
pub open spec fn category_lines(name: Seq<char>, c: CategoryRequirement) -> Seq<char> {
    "\ncategory "@ + name + " ["@ + (if c.critical {
        "critical"@
    } else {
        "standard"@
    }) + "]\n"@ + requirement_line(Coverage::GeneralLiability, c.coverages.general_liability)
        + requirement_line(Coverage::Auto, c.coverages.auto) + requirement_line(
        Coverage::WorkersComp,
        c.coverages.workers_comp,
    ) + requirement_line(Coverage::Umbrella, c.coverages.umbrella)
}

/// The lines on the first `n` categories.
pub open spec fn categories_lines(
    names: Seq<Seq<char>>,
    s: Seq<CategoryRequirement>,
    n: int,
) -> Seq<char>
    decreases n,
{
    if n <= 0 {
        Seq::empty()
    } else {
        categories_lines(names, s, n - 1) + category_lines(names[n - 1], s[n - 1])
    }
}

/// The text on a matrix.
pub open spec fn explanation(cfg: RequirementsConfig) -> Seq<char> {
    "coi-spine "@ + TOOL_VERSION@ + " — rule set in force (spine "@ + SPINE_VERSION@ + ")\n"@
        + "expiry warning window: "@ + text::signed_decimal(cfg.expiry_warning_days as int)
        + " day(s) (inclusive) | carrier rating floor: "@ + cfg.min_carrier_rating.sign()
        + " | lockout: advisory recommendation only — a human executes any PO hold\n"@
        + "money is integer cents; limits shown in dollars\n"@ + categories_lines(
        cfg.categories.keys(),
        cfg.categories.values(),
        cfg.categories.keys().len() as int,
    ) + "\nmatrix is seed data — verify against executed contracts before relying on it\n"@
}

fn endorsement_list(v: &Vec<Endorsement>) -> (r: String)
    ensures
        r@ == endorsements_text(v@),
{
    if v.len() == 0 {
        return String::from_str("none");
    }
    let mut names: Vec<String> = Vec::new();
    let mut i: usize = 0;
    while i < v.len()
        invariant
            i <= v.len(),
            names.len() == i,
            forall|k: int| 0 <= k < i ==> (#[trigger] names@[k])@ == v@[k].name(),
        decreases v.len() - i,
    {
        names.push(String::from_str(v[i].as_str()));
        i = i + 1;
    }
    assert(text::texts(names@) =~= endorsement_names(v@));
    text::join(&names, ", ")
}

fn requirement_text(coverage: Coverage, q: Option<&CoverageRequirement>) -> (r: String)
    ensures
        r@ == requirement_line(
            coverage,
            match q {
                Some(q) => Some(*q),
                None => None,
            },
        ),
{
    let q = match q {
        Some(q) => q,
        None => return String::from_str(""),
    };
    let mut out = String::from_str("  ");
    out.append(coverage.as_label());
    out.append(": per-occurrence ≥ ");
    out.append(engine::format_cents(q.per_occurrence_cents).as_str());
    out.append(", aggregate ≥ ");
    out.append(engine::format_cents(q.aggregate_cents).as_str());
    out.append(", endorsements: ");
    out.append(endorsement_list(&q.endorsements).as_str());
    out.append("\n");
    out
}

fn category_text(name: &str, c: &CategoryRequirement) -> (r: String)
    ensures
        r@ == category_lines(name@, *c),
{
    let mut out = String::from_str("\ncategory ");
    out.append(name);
    out.append(" [");
    out.append(if c.critical { "critical" } else { "standard" });
    out.append("]\n");
    out.append(
        requirement_text(
            Coverage::GeneralLiability,
            c.coverages.get(Coverage::GeneralLiability),
        ).as_str(),
    );
    out.append(requirement_text(Coverage::Auto, c.coverages.get(Coverage::Auto)).as_str());
    out.append(
        requirement_text(Coverage::WorkersComp, c.coverages.get(Coverage::WorkersComp)).as_str(),
    );
    out.append(requirement_text(Coverage::Umbrella, c.coverages.get(Coverage::Umbrella)).as_str());
    out
}

/// The rule set in force under a matrix.
pub fn explain(cfg: &RequirementsConfig) -> (r: String)
    ensures
        r@ == explanation(*cfg),
{
    let n: usize = cfg.categories.len();
    let ghost names = cfg.categories.keys();
    let ghost all = cfg.categories.values();
    let mut lines = String::new();
    let mut i: usize = 0;
    while i < n
        invariant
            i <= n == names.len() == all.len(),
            names == cfg.categories.keys(),
            all == cfg.categories.values(),
            lines@ == categories_lines(names, all, i as int),
        decreases n - i,
    {
        lines.append(category_text(cfg.categories.key(i), cfg.categories.value(i)).as_str());
        i = i + 1;
    }
    let mut out = String::from_str("coi-spine ");
    out.append(TOOL_VERSION);
    out.append(" — rule set in force (spine ");
    out.append(SPINE_VERSION);
    out.append(")\n");
    out.append("expiry warning window: ");
    out.append(text::signed_text(cfg.expiry_warning_days as i128).as_str());
    out.append(" day(s) (inclusive) | carrier rating floor: ");
    out.append(cfg.min_carrier_rating.label());
    out.append(" | lockout: advisory recommendation only — a human executes any PO hold\n");
    out.append("money is integer cents; limits shown in dollars\n");
    out.append(lines.as_str());
    out.append(
        "\nmatrix is seed data — verify against executed contracts before relying on it\n",
    );
    out
}

} // verus!
