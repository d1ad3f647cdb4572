//! Input contract and sign normalisation: the engine only sees canonical
//! signed cents, positive for money into the account.

use vstd::prelude::*;
use vstd::string::StringExecFns;

use crate::bankrec::Error;
use crate::date;
use crate::date::Date;
use crate::text;

verus! {

/// Cash-account side of a ledger entry.
#[derive(Debug, Clone, Copy, PartialEq, Eq, Structural)]
pub enum LedgerSide {
    /// Money into the account.
    Debit,
    /// Money out of the account.
    Credit,
}

/// A bank statement line as read: the amount is signed and not zero.
#[derive(Debug, Clone)]
pub struct StatementLine {
    pub id: String,
    pub date: String,
    pub reference: String,
    pub amount_cents: i128,
}

/// A ledger entry as read: the amount is a positive magnitude.
#[derive(Debug, Clone)]
pub struct LedgerEntry {
    pub id: String,
    pub date: String,
    pub reference: String,
    pub side: LedgerSide,
    pub amount_cents: i128,
}

/// The inputs document as read.
#[derive(Debug, Clone)]
pub struct ReconciliationInputs {
    pub statement_lines: Vec<StatementLine>,
    pub ledger_entries: Vec<LedgerEntry>,
}

/// What the engine knows of a line on either side.
#[verifier::ext_equal]
pub struct LineView {
    pub id: Seq<char>,
    pub day: int,
    pub reference: Seq<char>,
    pub amount: int,
}

/// A statement line in canonical form.
#[derive(Debug, Clone, PartialEq, Eq)]
pub struct CanonicalStatement {
    pub id: String,
    pub date: Date,
    pub reference: String,
    pub amount: i128,
}

impl View for CanonicalStatement {
    type V = LineView;

    open spec fn view(&self) -> LineView {
        LineView {
            id: self.id@,
            day: self.date.day(),
            reference: self.reference@,
            amount: self.amount as int,
        }
    }
}

/// A ledger entry in canonical form.
#[derive(Debug, Clone, PartialEq, Eq)]
pub struct CanonicalLedger {
    pub id: String,
    pub date: Date,
    pub reference: String,
    pub amount: i128,
}

impl View for CanonicalLedger {
    type V = LineView;

    open spec fn view(&self) -> LineView {
        LineView {
            id: self.id@,
            day: self.date.day(),
            reference: self.reference@,
            amount: self.amount as int,
        }
    }
}

/// Validated, normalised inputs.
#[derive(Debug, Clone, PartialEq, Eq)]
pub struct ValidatedInputs {
    pub statements: Vec<CanonicalStatement>,
    pub ledgers: Vec<CanonicalLedger>,
}

/// What [`ValidatedInputs`] holds.
#[verifier::ext_equal]
pub struct InputsView {
    pub statements: Seq<LineView>,
    pub ledgers: Seq<LineView>,
}

/// What statement lines hold.
pub open spec fn statement_lines(s: Seq<CanonicalStatement>) -> Seq<LineView> {
    s.map_values(|x: CanonicalStatement| x@)
}

/// What ledger lines hold.
pub open spec fn ledger_lines(s: Seq<CanonicalLedger>) -> Seq<LineView> {
    s.map_values(|x: CanonicalLedger| x@)
}

impl View for ValidatedInputs {
    type V = InputsView;

    open spec fn view(&self) -> InputsView {
        InputsView {
            statements: statement_lines(self.statements@),
            ledgers: ledger_lines(self.ledgers@),
        }
    }
}

/// Whether one of the first `n` statement lines has the id.
pub open spec fn statement_id_seen(lines: Seq<StatementLine>, n: int, id: Seq<char>) -> bool {
    exists|k: int| 0 <= k < n && #[trigger] lines[k].id@ == id
}

/// Whether one of the first `n` ledger entries has the id.
pub open spec fn ledger_id_seen(entries: Seq<LedgerEntry>, n: int, id: Seq<char>) -> bool {
    exists|k: int| 0 <= k < n && #[trigger] entries[k].id@ == id
}

/// What is said of a text that is no date.
pub open spec fn date_complaint(s: Seq<char>) -> Seq<char> {
    "date "@ + text::debug_text(s) + " is not ISO YYYY-MM-DD"@
}

/// What is wrong with statement line `i`, given the lines before it.
pub open spec fn statement_error(lines: Seq<StatementLine>, i: int) -> Option<Seq<char>> {
    let line = lines[i];
    if line.id@.len() == 0 {
        Some("statement line id must be non-empty"@)
    } else if statement_id_seen(lines, i, line.id@) {
        Some("duplicate item id: "@ + line.id@)
    } else if date::read_date(line.date@) is None {
        Some("statement line "@ + line.id@ + ": "@ + date_complaint(line.date@))
    } else if line.amount_cents == 0 {
        Some(
            "statement line "@ + line.id@
                + ": amount_cents must be non-zero (positive = money into the account)"@,
        )
    } else {
        None
    }
}

/// The first thing wrong with the statement lines from `i` on.
pub open spec fn statements_error(lines: Seq<StatementLine>, i: int) -> Option<Seq<char>>
    decreases lines.len() - i,
{
    if i >= lines.len() {
        None
    } else {
        match statement_error(lines, i) {
            Some(e) => Some(e),
            None => statements_error(lines, i + 1),
        }
    }
}

/// What is wrong with ledger entry `i`, given everything before it.
pub open spec fn ledger_error(
    lines: Seq<StatementLine>,
    entries: Seq<LedgerEntry>,
    i: int,
) -> Option<Seq<char>> {
    let entry = entries[i];
    if entry.id@.len() == 0 {
        Some("ledger entry id must be non-empty"@)
    } else if statement_id_seen(lines, lines.len() as int, entry.id@) || ledger_id_seen(
        entries,
        i,
        entry.id@,
    ) {
        Some("duplicate item id: "@ + entry.id@)
    } else if date::read_date(entry.date@) is None {
        Some("ledger entry "@ + entry.id@ + ": "@ + date_complaint(entry.date@))
    } else if entry.amount_cents <= 0 {
        Some(
            "ledger entry "@ + entry.id@
                + ": amount_cents must be a positive magnitude; direction comes from side"@,
        )
    } else {
        None
    }
}

/// The first thing wrong with the ledger entries from `i` on.
pub open spec fn ledgers_error(
    lines: Seq<StatementLine>,
    entries: Seq<LedgerEntry>,
    i: int,
) -> Option<Seq<char>>
    decreases entries.len() - i,
{
    if i >= entries.len() {
        None
    } else {
        match ledger_error(lines, entries, i) {
            Some(e) => Some(e),
            None => ledgers_error(lines, entries, i + 1),
        }
    }
}

/// The first thing wrong with an inputs document.
pub open spec fn inputs_error(raw: ReconciliationInputs) -> Option<Seq<char>> {
    match statements_error(raw.statement_lines@, 0) {
        Some(e) => Some(e),
        None => ledgers_error(raw.statement_lines@, raw.ledger_entries@, 0),
    }
}

/// A statement line in canonical form.
pub open spec fn canonical_statement(line: StatementLine) -> LineView {
    LineView {
        id: line.id@,
        day: date::read_date(line.date@)->0,
        reference: line.reference@,
        amount: line.amount_cents as int,
    }
}

/// A ledger entry in canonical form: a debit is positive, a credit negative.
pub open spec fn canonical_ledger(entry: LedgerEntry) -> LineView {
    LineView {
        id: entry.id@,
        day: date::read_date(entry.date@)->0,
        reference: entry.reference@,
        amount: match entry.side {
            LedgerSide::Debit => entry.amount_cents as int,
            LedgerSide::Credit => -entry.amount_cents,
        },
    }
}

/// An inputs document in canonical form.
pub open spec fn canonical_inputs(raw: ReconciliationInputs) -> InputsView {
    InputsView {
        statements: raw.statement_lines@.map_values(|s: StatementLine| canonical_statement(s)),
        ledgers: raw.ledger_entries@.map_values(|l: LedgerEntry| canonical_ledger(l)),
    }
}

fn seen_statement(lines: &Vec<StatementLine>, n: usize, id: &String) -> (r: bool)
    requires
        n <= lines.len(),
    ensures
        r == statement_id_seen(lines@, n as int, id@),
{
    let mut k: usize = 0;
    while k < n
        invariant
            k <= n <= lines.len(),
            forall|j: int| 0 <= j < k ==> #[trigger] lines@[j].id@ != id@,
        decreases n - k,
    {
        if lines[k].id == *id {
            return true;
        }
        k = k + 1;
    }
    false
}

fn seen_ledger(entries: &Vec<LedgerEntry>, n: usize, id: &String) -> (r: bool)
    requires
        n <= entries.len(),
    ensures
        r == ledger_id_seen(entries@, n as int, id@),
{
    let mut k: usize = 0;
    while k < n
        invariant
            k <= n <= entries.len(),
            forall|j: int| 0 <= j < k ==> #[trigger] entries@[j].id@ != id@,
        decreases n - k,
    {
        if entries[k].id == *id {
            return true;
        }
        k = k + 1;
    }
    false
}

/// Read a date, or say what is wrong with it.
pub fn parse_date(s: &str) -> (r: Result<Date, String>)
    ensures
        (match r {
            Ok(d) => date::read_date(s@) == Some(d.day()),
            Err(m) => date::read_date(s@) is None && m@ == date_complaint(s@),
        }),
{
    match Date::parse(s) {
        Some(d) => Ok(d),
        None => {
            let mut m = String::from_str("date ");
            m.append(text::debug_of(s).as_str());
            m.append(" is not ISO YYYY-MM-DD");
            Err(m)
        },
    }
}

fn check_statement(lines: &Vec<StatementLine>, i: usize) -> (r: Result<CanonicalStatement, String>)
    requires
        i < lines.len(),
    ensures
        (match r {
            Ok(s) => statement_error(lines@, i as int) is None && s@ == canonical_statement(
                lines@[i as int],
            ),
            Err(m) => statement_error(lines@, i as int) == Some(m@),
        }),
{
    let line = &lines[i];
    if line.id.as_str().is_empty() {
        return Err(String::from_str("statement line id must be non-empty"));
    }
    if seen_statement(lines, i, &line.id) {
        let mut m = String::from_str("duplicate item id: ");
        m.append(line.id.as_str());
        return Err(m);
    }
    let date = match parse_date(line.date.as_str()) {
        Ok(d) => d,
        Err(e) => {
            let mut m = String::from_str("statement line ");
            m.append(line.id.as_str());
            m.append(": ");
            m.append(e.as_str());
            return Err(m);
        },
    };
    if line.amount_cents == 0 {
        let mut m = String::from_str("statement line ");
        m.append(line.id.as_str());
        m.append(": amount_cents must be non-zero (positive = money into the account)");
        return Err(m);
    }
    Ok(
        CanonicalStatement {
            id: line.id.clone(),
            date,
            reference: line.reference.clone(),
            amount: line.amount_cents,
        },
    )
}

fn check_ledger(
    lines: &Vec<StatementLine>,
    entries: &Vec<LedgerEntry>,
    i: usize,
) -> (r: Result<CanonicalLedger, String>)
    requires
        i < entries.len(),
    ensures
        (match r {
            Ok(s) => ledger_error(lines@, entries@, i as int) is None && s@ == canonical_ledger(
                entries@[i as int],
            ),
            Err(m) => ledger_error(lines@, entries@, i as int) == Some(m@),
        }),
{
    let entry = &entries[i];
    if entry.id.as_str().is_empty() {
        return Err(String::from_str("ledger entry id must be non-empty"));
    }
    if seen_statement(lines, lines.len(), &entry.id) || seen_ledger(entries, i, &entry.id) {
        let mut m = String::from_str("duplicate item id: ");
        m.append(entry.id.as_str());
        return Err(m);
    }
    let date = match parse_date(entry.date.as_str()) {
        Ok(d) => d,
        Err(e) => {
            let mut m = String::from_str("ledger entry ");
            m.append(entry.id.as_str());
            m.append(": ");
            m.append(e.as_str());
            return Err(m);
        },
    };
    if entry.amount_cents <= 0 {
        let mut m = String::from_str("ledger entry ");
        m.append(entry.id.as_str());
        m.append(": amount_cents must be a positive magnitude; direction comes from side");
        return Err(m);
    }
    let amount: i128 = match entry.side {
        LedgerSide::Debit => entry.amount_cents,
        LedgerSide::Credit => -entry.amount_cents,
    };
    Ok(
        CanonicalLedger {
            id: entry.id.clone(),
            date,
            reference: entry.reference.clone(),
            amount,
        },
    )
}

/// Validate and normalise an inputs document. Ids are unique across both
/// collections, so that a receipt names exactly one item.
pub fn parse_inputs(raw: &ReconciliationInputs) -> (r: Result<ValidatedInputs, Error>)
    ensures
        (match inputs_error(*raw) {
            None => r matches Ok(v) && v@ == canonical_inputs(*raw),
            Some(e) => r matches Err(Error::Inputs(m)) && m@ == e,
        }),
{
    let lines = &raw.statement_lines;
    let entries = &raw.ledger_entries;
    let mut statements: Vec<CanonicalStatement> = Vec::new();
    let mut i: usize = 0;
    while i < lines.len()
        invariant
            i <= lines.len(),
            *lines == raw.statement_lines,
            statements.len() == i,
            forall|k: int|
                0 <= k < i ==> #[trigger] statements@[k]@ == canonical_statement(lines@[k]),
            statements_error(lines@, 0) == statements_error(lines@, i as int),
        decreases lines.len() - i,
    {
        match check_statement(lines, i) {
            Ok(s) => statements.push(s),
            Err(m) => return Err(Error::Inputs(m)),
        }
        i = i + 1;
    }
    let mut ledgers: Vec<CanonicalLedger> = Vec::new();
    let mut j: usize = 0;
    while j < entries.len()
        invariant
            j <= entries.len(),
            *lines == raw.statement_lines,
            *entries == raw.ledger_entries,
            statements_error(lines@, 0) is None,
            ledgers.len() == j,
            forall|k: int| 0 <= k < j ==> #[trigger] ledgers@[k]@ == canonical_ledger(entries@[k]),
            ledgers_error(lines@, entries@, 0) == ledgers_error(lines@, entries@, j as int),
        decreases entries.len() - j,
    {
        match check_ledger(lines, entries, j) {
            Ok(s) => ledgers.push(s),
            Err(m) => return Err(Error::Inputs(m)),
        }
        j = j + 1;
    }
    let out = ValidatedInputs { statements, ledgers };
    proof {
        assert(out@ =~= canonical_inputs(*raw));
    }
    Ok(out)
}

} // verus!
