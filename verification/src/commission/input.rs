//! Transactions: sales, and returns that reverse them.

use vstd::prelude::*;
use vstd::string::StringExecFns;

use crate::date::Date;
use crate::text;

verus! {

/// What a transaction is. A return reverses credits of the sale that it
/// references.
#[derive(Debug, Clone, Copy, PartialEq, Eq, Structural)]
pub enum TxnKind {
    Sale,
    Return,
}

/// A credited role on a sale. Among credits of one role the lowest priority
/// number wins; a tie drops the role.
#[derive(Debug, Clone, PartialEq, Eq)]
pub struct Credit {
    pub rep_id: String,
    pub role: String,
    pub priority: u32,
}

/// What a [`Credit`] says.
#[verifier::ext_equal]
pub struct CreditView {
    pub rep_id: Seq<char>,
    pub role: Seq<char>,
    pub priority: u32,
}

impl View for Credit {
    type V = CreditView;

    open spec fn view(&self) -> CreditView {
        CreditView { rep_id: self.rep_id@, role: self.role@, priority: self.priority }
    }
}

/// A transaction. Amounts are positive; the kind gives the sign.
#[derive(Debug, Clone, PartialEq, Eq)]
pub struct Transaction {
    pub transaction_id: String,
    pub date: Date,
    pub amount_cents: i128,
    pub kind: TxnKind,
    /// The sale that a return reverses.
    pub original_transaction_id: Option<String>,
    /// One or more on a sale, none on a return.
    pub credits: Vec<Credit>,
}

/// What a [`Transaction`] says.
#[verifier::ext_equal]
pub struct TxnView {
    pub transaction_id: Seq<char>,
    pub day: int,
    pub amount_cents: int,
    pub kind: TxnKind,
    pub original: Option<Seq<char>>,
    pub credits: Seq<CreditView>,
}

pub open spec fn optional_text(s: Option<String>) -> Option<Seq<char>> {
    match s {
        Some(x) => Some(x@),
        None => None,
    }
}

pub open spec fn credits_view(s: Seq<Credit>) -> Seq<CreditView> {
    s.map_values(|c: Credit| c@)
}

impl View for Transaction {
    type V = TxnView;

    open spec fn view(&self) -> TxnView {
        TxnView {
            transaction_id: self.transaction_id@,
            day: self.date.day(),
            amount_cents: self.amount_cents as int,
            kind: self.kind,
            original: optional_text(self.original_transaction_id),
            credits: credits_view(self.credits@),
        }
    }
}

/// A file of transactions.
#[derive(Debug, Clone, PartialEq, Eq)]
pub struct TransactionsFile {
    pub transactions: Vec<Transaction>,
}

pub open spec fn transactions_view(s: Seq<Transaction>) -> Seq<TxnView> {
    s.map_values(|t: Transaction| t@)
}

impl View for TransactionsFile {
    type V = Seq<TxnView>;

    open spec fn view(&self) -> Seq<TxnView> {
        transactions_view(self.transactions@)
    }
}

/// Why a file is refused.
#[derive(Debug, Clone, PartialEq, Eq)]
pub enum InputError {
    Empty,
    EmptyTransactionId { id: String },
    DuplicateTransactionId { id: String },
    NonPositiveAmount { id: String },
    SaleWithoutCredits { id: String },
    SaleWithOriginal { id: String },
    ReturnWithoutOriginal { id: String },
    SelfReferencingReturn { id: String },
    UnknownOriginal { id: String, original: String },
    OriginalNotSale { id: String, original: String },
    ReturnWithCredits { id: String },
    EmptyCreditIdentity { id: String },
}

/// What an [`InputError`] says.
pub enum InputRefusal {
    Empty,
    EmptyTransactionId { id: Seq<char> },
    DuplicateTransactionId { id: Seq<char> },
    NonPositiveAmount { id: Seq<char> },
    SaleWithoutCredits { id: Seq<char> },
    SaleWithOriginal { id: Seq<char> },
    ReturnWithoutOriginal { id: Seq<char> },
    SelfReferencingReturn { id: Seq<char> },
    UnknownOriginal { id: Seq<char>, original: Seq<char> },
    OriginalNotSale { id: Seq<char>, original: Seq<char> },
    ReturnWithCredits { id: Seq<char> },
    EmptyCreditIdentity { id: Seq<char> },
}

impl View for InputError {
    type V = InputRefusal;

    open spec fn view(&self) -> InputRefusal {
        match self {
            InputError::Empty => InputRefusal::Empty,
            InputError::EmptyTransactionId { id } => InputRefusal::EmptyTransactionId { id: id@ },
            InputError::DuplicateTransactionId { id } => InputRefusal::DuplicateTransactionId {
                id: id@,
            },
            InputError::NonPositiveAmount { id } => InputRefusal::NonPositiveAmount { id: id@ },
            InputError::SaleWithoutCredits { id } => InputRefusal::SaleWithoutCredits { id: id@ },
            InputError::SaleWithOriginal { id } => InputRefusal::SaleWithOriginal { id: id@ },
            InputError::ReturnWithoutOriginal { id } => InputRefusal::ReturnWithoutOriginal {
                id: id@,
            },
            InputError::SelfReferencingReturn { id } => InputRefusal::SelfReferencingReturn {
                id: id@,
            },
            InputError::UnknownOriginal { id, original } => InputRefusal::UnknownOriginal {
                id: id@,
                original: original@,
            },
            InputError::OriginalNotSale { id, original } => InputRefusal::OriginalNotSale {
                id: id@,
                original: original@,
            },
            InputError::ReturnWithCredits { id } => InputRefusal::ReturnWithCredits { id: id@ },
            InputError::EmptyCreditIdentity { id } => InputRefusal::EmptyCreditIdentity {
                id: id@,
            },
        }
    }
}

/// The beginning of every complaint about a transaction.
pub open spec fn txn_prefix(id: Seq<char>) -> Seq<char> {
    "transaction "@ + text::debug_text(id)
}

/// A refusal as a line of text.
pub open spec fn refusal_text(e: InputRefusal) -> Seq<char> {
    match e {
        InputRefusal::Empty => "transactions file must not be empty"@,
        InputRefusal::EmptyTransactionId { id } => txn_prefix(id)
            + ": transaction_id must be non-empty"@,
        InputRefusal::DuplicateTransactionId { id } => "duplicate transaction_id "@ + text::debug_text(
            id,
        ),
        InputRefusal::NonPositiveAmount { id } => txn_prefix(id)
            + ": amount_cents must be positive"@,
        InputRefusal::SaleWithoutCredits { id } => txn_prefix(id)
            + ": sale must carry at least one credit"@,
        InputRefusal::SaleWithOriginal { id } => txn_prefix(id)
            + ": sale must not set original_transaction_id"@,
        InputRefusal::ReturnWithoutOriginal { id } => txn_prefix(id)
            + ": return must set original_transaction_id"@,
        InputRefusal::SelfReferencingReturn { id } => txn_prefix(id)
            + ": return must not reference itself"@,
        InputRefusal::UnknownOriginal { id, original } => txn_prefix(id)
            + ": return references unknown transaction "@ + text::debug_text(original),
        InputRefusal::OriginalNotSale { id, original } => txn_prefix(id) + ": return references "@
            + text::debug_text(original) + " which is not a sale"@,
        InputRefusal::ReturnWithCredits { id } => txn_prefix(id)
            + ": return must not carry credits; it mirrors the original's credits"@,
        InputRefusal::EmptyCreditIdentity { id } => txn_prefix(id)
            + ": credit rep_id and role must be non-empty"@,
    }
}

fn txn_line(id: &String, rest: &str) -> (r: String)
    ensures
        r@ == txn_prefix(id@) + rest@,
{
    let mut out = String::from_str("transaction ");
    out.append(text::debug_of(id.as_str()).as_str());
    out.append(rest);
    out
}

impl InputError {
    /// The error as a line of text.
    pub fn message(&self) -> (r: String)
        ensures
            r@ == refusal_text(self@),
    {
        match self {
            InputError::Empty => String::from_str("transactions file must not be empty"),
            InputError::EmptyTransactionId { id } => txn_line(
                id,
                ": transaction_id must be non-empty",
            ),
            InputError::DuplicateTransactionId { id } => {
                let mut out = String::from_str("duplicate transaction_id ");
                out.append(text::debug_of(id.as_str()).as_str());
                out
            },
            InputError::NonPositiveAmount { id } => txn_line(id, ": amount_cents must be positive"),
            InputError::SaleWithoutCredits { id } => txn_line(
                id,
                ": sale must carry at least one credit",
            ),
            InputError::SaleWithOriginal { id } => txn_line(
                id,
                ": sale must not set original_transaction_id",
            ),
            InputError::ReturnWithoutOriginal { id } => txn_line(
                id,
                ": return must set original_transaction_id",
            ),
            InputError::SelfReferencingReturn { id } => txn_line(
                id,
                ": return must not reference itself",
            ),
            InputError::UnknownOriginal { id, original } => {
                let mut out = txn_line(id, ": return references unknown transaction ");
                out.append(text::debug_of(original.as_str()).as_str());
                out
            },
            InputError::OriginalNotSale { id, original } => {
                let mut out = txn_line(id, ": return references ");
                out.append(text::debug_of(original.as_str()).as_str());
                out.append(" which is not a sale");
                out
            },
            InputError::ReturnWithCredits { id } => txn_line(
                id,
                ": return must not carry credits; it mirrors the original's credits",
            ),
            InputError::EmptyCreditIdentity { id } => txn_line(
                id,
                ": credit rep_id and role must be non-empty",
            ),
        }
    }
}

/// Whether one of the first `n` transactions has the id.
pub open spec fn id_seen(s: Seq<TxnView>, n: int, id: Seq<char>) -> bool {
    exists|k: int| 0 <= k < n && (#[trigger] s[k]).transaction_id == id
}

/// Whether every credit names a rep and a role.
pub open spec fn credits_named(s: Seq<CreditView>) -> bool {
    forall|k: int|
        0 <= k < s.len() ==> !text::is_blank((#[trigger] s[k]).rep_id) && !text::is_blank(s[k].role)
}

/// What is wrong with transaction `i` on its own, given those before it.
pub open spec fn txn_error(s: Seq<TxnView>, i: int) -> Option<InputRefusal> {
    let t = s[i];
    let id = t.transaction_id;
    if text::is_blank(id) {
        Some(InputRefusal::EmptyTransactionId { id })
    } else if id_seen(s, i, id) {
        Some(InputRefusal::DuplicateTransactionId { id })
    } else if t.amount_cents <= 0 {
        Some(InputRefusal::NonPositiveAmount { id })
    } else if t.kind == TxnKind::Sale && t.credits.len() == 0 {
        Some(InputRefusal::SaleWithoutCredits { id })
    } else if t.kind == TxnKind::Sale && t.original is Some {
        Some(InputRefusal::SaleWithOriginal { id })
    } else if t.kind == TxnKind::Return && (t.original is None || text::is_blank(t.original->0)) {
        Some(InputRefusal::ReturnWithoutOriginal { id })
    } else if t.kind == TxnKind::Return && t.original->0 == id {
        Some(InputRefusal::SelfReferencingReturn { id })
    } else if t.kind == TxnKind::Return && t.credits.len() > 0 {
        Some(InputRefusal::ReturnWithCredits { id })
    } else if !credits_named(t.credits) {
        Some(InputRefusal::EmptyCreditIdentity { id })
    } else {
        None
    }
}

/// The first thing wrong with the transactions from `i` on.
pub open spec fn txns_error(s: Seq<TxnView>, i: int) -> Option<InputRefusal>
    decreases s.len() - i,
{
    if i >= s.len() {
        None
    } else {
        match txn_error(s, i) {
            Some(e) => Some(e),
            None => txns_error(s, i + 1),
        }
    }
}

/// The first transaction from `i` on with the id.
pub open spec fn find_txn(s: Seq<TxnView>, id: Seq<char>, i: int) -> Option<int>
    decreases s.len() - i,
{
    if i >= s.len() {
        None
    } else if s[i].transaction_id == id {
        Some(i)
    } else {
        find_txn(s, id, i + 1)
    }
}

/// What is wrong with the reference of transaction `i`.
pub open spec fn reference_error(s: Seq<TxnView>, i: int) -> Option<InputRefusal> {
    let t = s[i];
    if t.kind == TxnKind::Return {
        let original = t.original->0;
        match find_txn(s, original, 0) {
            None => Some(InputRefusal::UnknownOriginal { id: t.transaction_id, original }),
            Some(k) => if s[k].kind != TxnKind::Sale {
                Some(InputRefusal::OriginalNotSale { id: t.transaction_id, original })
            } else {
                None
            },
        }
    } else {
        None
    }
}

/// The first thing wrong with the references from `i` on.
pub open spec fn references_error(s: Seq<TxnView>, i: int) -> Option<InputRefusal>
    decreases s.len() - i,
{
    if i >= s.len() {
        None
    } else {
        match reference_error(s, i) {
            Some(e) => Some(e),
            None => references_error(s, i + 1),
        }
    }
}

/// The first thing wrong with a file.
pub open spec fn file_error(s: Seq<TxnView>) -> Option<InputRefusal> {
    if s.len() == 0 {
        Some(InputRefusal::Empty)
    } else if txns_error(s, 0) is Some {
        txns_error(s, 0)
    } else {
        references_error(s, 0)
    }
}

fn seen_id(txns: &Vec<Transaction>, n: usize, id: &String) -> (r: bool)
    requires
        n <= txns.len(),
    ensures
        r == id_seen(transactions_view(txns@), n as int, id@),
{
    let ghost s = transactions_view(txns@);
    let mut k: usize = 0;
    while k < n
        invariant
            k <= n <= txns.len(),
            s == transactions_view(txns@),
            forall|j: int| 0 <= j < k ==> (#[trigger] s[j]).transaction_id != id@,
        decreases n - k,
    {
        assert(s[k as int] == txns@[k as int]@);
        if txns[k].transaction_id == *id {
            return true;
        }
        k = k + 1;
    }
    false
}

fn named(credits: &Vec<Credit>) -> (r: bool)
    ensures
        r == credits_named(credits_view(credits@)),
{
    let ghost s = credits_view(credits@);
    let mut k: usize = 0;
    while k < credits.len()
        invariant
            k <= credits.len(),
            s == credits_view(credits@),
            forall|j: int|
                0 <= j < k ==> !text::is_blank((#[trigger] s[j]).rep_id) && !text::is_blank(
                    s[j].role,
                ),
        decreases credits.len() - k,
    {
        assert(s[k as int] == credits@[k as int]@);
        if text::blank(credits[k].rep_id.as_str()) || text::blank(credits[k].role.as_str()) {
            return false;
        }
        k = k + 1;
    }
    true
}

/// The place of the first transaction with an id.
fn place_of(txns: &Vec<Transaction>, id: &String) -> (r: Option<usize>)
    ensures
        (match r {
            Some(k) => k < txns.len() && find_txn(transactions_view(txns@), id@, 0) == Some(
                k as int,
            ),
            None => find_txn(transactions_view(txns@), id@, 0) is None,
        }),
{
    let ghost s = transactions_view(txns@);
    let mut k: usize = 0;
    while k < txns.len()
        invariant
            k <= txns.len(),
            s == transactions_view(txns@),
            find_txn(s, id@, 0) == find_txn(s, id@, k as int),
        decreases txns.len() - k,
    {
        assert(s[k as int] == txns@[k as int]@);
        if txns[k].transaction_id == *id {
            return Some(k);
        }
        k = k + 1;
    }
    None
}

fn check_txn(txns: &Vec<Transaction>, i: usize) -> (r: Result<(), InputError>)
    requires
        i < txns.len(),
    ensures
        (match r {
            Ok(_) => txn_error(transactions_view(txns@), i as int) is None,
            Err(e) => txn_error(transactions_view(txns@), i as int) == Some(e@),
        }),
{
    let t = &txns[i];
    let ghost view = transactions_view(txns@)[i as int];
    assert(view == t@);
    if text::blank(t.transaction_id.as_str()) {
        return Err(InputError::EmptyTransactionId { id: t.transaction_id.clone() });
    }
    if seen_id(txns, i, &t.transaction_id) {
        return Err(InputError::DuplicateTransactionId { id: t.transaction_id.clone() });
    }
    if t.amount_cents <= 0 {
        return Err(InputError::NonPositiveAmount { id: t.transaction_id.clone() });
    }
    match t.kind {
        TxnKind::Sale => {
            if t.credits.len() == 0 {
                return Err(InputError::SaleWithoutCredits { id: t.transaction_id.clone() });
            }
            if t.original_transaction_id.is_some() {
                return Err(InputError::SaleWithOriginal { id: t.transaction_id.clone() });
            }
        },
        TxnKind::Return => {
            match &t.original_transaction_id {
                None => {
                    return Err(InputError::ReturnWithoutOriginal { id: t.transaction_id.clone() });
                },
                Some(original) => {
                    if text::blank(original.as_str()) {
                        return Err(
                            InputError::ReturnWithoutOriginal { id: t.transaction_id.clone() },
                        );
                    }
                    if *original == t.transaction_id {
                        return Err(
                            InputError::SelfReferencingReturn { id: t.transaction_id.clone() },
                        );
                    }
                },
            }
            if t.credits.len() != 0 {
                return Err(InputError::ReturnWithCredits { id: t.transaction_id.clone() });
            }
        },
    }
    if !named(&t.credits) {
        return Err(InputError::EmptyCreditIdentity { id: t.transaction_id.clone() });
    }
    Ok(())
}

fn check_reference(txns: &Vec<Transaction>, i: usize) -> (r: Result<(), InputError>)
    requires
        i < txns.len(),
        txns@[i as int].kind == TxnKind::Return ==> txns@[i as int].original_transaction_id is Some,
    ensures
        (match r {
            Ok(_) => reference_error(transactions_view(txns@), i as int) is None,
            Err(e) => reference_error(transactions_view(txns@), i as int) == Some(e@),
        }),
{
    let t = &txns[i];
    let ghost s = transactions_view(txns@);
    assert(s[i as int] == t@);
    if t.kind == TxnKind::Return {
        if let Some(original) = &t.original_transaction_id {
            match place_of(txns, original) {
                None => {
                    return Err(
                        InputError::UnknownOriginal {
                            id: t.transaction_id.clone(),
                            original: original.clone(),
                        },
                    );
                },
                Some(k) => {
                    assert(s[k as int] == txns@[k as int]@);
                    if txns[k].kind != TxnKind::Sale {
                        return Err(
                            InputError::OriginalNotSale {
                                id: t.transaction_id.clone(),
                                original: original.clone(),
                            },
                        );
                    }
                },
            }
        }
    }
    Ok(())
}

impl TransactionsFile {
    /// Fail-closed validation: the first refusal found. References are
    /// checked once every transaction is sound on its own.
    pub fn validate(&self) -> (r: Result<(), InputError>)
        ensures
            (match r {
                Ok(_) => file_error(self@) is None,
                Err(e) => file_error(self@) == Some(e@),
            }),
    {
        let txns = &self.transactions;
        if txns.len() == 0 {
            return Err(InputError::Empty);
        }
        let ghost s = self@;
        let mut i: usize = 0;
        while i < txns.len()
            invariant
                i <= txns.len(),
                txns.len() > 0,
                *txns == self.transactions,
                s == self@,
                s == transactions_view(txns@),
                txns_error(s, 0) == txns_error(s, i as int),
                forall|k: int|
                    0 <= k < i ==> (#[trigger] txns@[k]).kind == TxnKind::Return
                        ==> txns@[k].original_transaction_id is Some,
            decreases txns.len() - i,
        {
            assert(s[i as int] == txns@[i as int]@);
            match check_txn(txns, i) {
                Ok(_) => {},
                Err(e) => return Err(e),
            }
            i = i + 1;
        }
        let mut j: usize = 0;
        while j < txns.len()
            invariant
                j <= txns.len(),
                txns.len() > 0,
                *txns == self.transactions,
                s == self@,
                s == transactions_view(txns@),
                txns_error(s, 0) is None,
                references_error(s, 0) == references_error(s, j as int),
                forall|k: int|
                    0 <= k < txns.len() ==> (#[trigger] txns@[k]).kind == TxnKind::Return
                        ==> txns@[k].original_transaction_id is Some,
            decreases txns.len() - j,
        {
            match check_reference(txns, j) {
                Ok(_) => {},
                Err(e) => return Err(e),
            }
            j = j + 1;
        }
        Ok(())
    }
}

} // verus!
