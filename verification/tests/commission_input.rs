//! Commission transactions: validation.

use control_spine::commission::input::{
    Credit, InputError, Transaction, TransactionsFile, TxnKind,
};
use control_spine::date::Date;

fn sale(id: &str, date: &str, amount: i128, credits: Vec<Credit>) -> Transaction {
    Transaction {
        transaction_id: id.to_string(),
        date: Date::parse(date).expect("valid date"),
        amount_cents: amount,
        kind: TxnKind::Sale,
        original_transaction_id: None,
        credits,
    }
}

fn credit(rep: &str, role: &str, priority: u32) -> Credit {
    Credit {
        rep_id: rep.to_string(),
        role: role.to_string(),
        priority,
    }
}

fn ret(id: &str, date: &str, amount: i128, original: &str) -> Transaction {
    Transaction {
        transaction_id: id.to_string(),
        date: Date::parse(date).expect("valid date"),
        amount_cents: amount,
        kind: TxnKind::Return,
        original_transaction_id: Some(original.to_string()),
        credits: Vec::new(),
    }
}

#[test]
fn valid_sales_and_returns_pass_validation() {
    let file = TransactionsFile {
        transactions: vec![
            sale("T1", "2026-02-01", 1_000, vec![credit("rep-1", "ae", 1)]),
            ret("T2", "2026-03-01", 100, "T1"),
        ],
    };
    assert_eq!(file.validate(), Ok(()));
}

#[test]
fn dangling_return_original_is_rejected() {
    let file = TransactionsFile {
        transactions: vec![ret("T2", "2026-03-01", 100, "MISSING")],
    };
    assert_eq!(
        file.validate(),
        Err(InputError::UnknownOriginal {
            id: "T2".to_string(),
            original: "MISSING".to_string()
        })
    );
}

#[test]
fn return_referencing_a_return_is_rejected() {
    let file = TransactionsFile {
        transactions: vec![
            sale("T1", "2026-02-01", 1_000, vec![credit("rep-1", "ae", 1)]),
            ret("T2", "2026-03-01", 100, "T1"),
            ret("T3", "2026-04-01", 100, "T2"),
        ],
    };
    assert_eq!(
        file.validate(),
        Err(InputError::OriginalNotSale {
            id: "T3".to_string(),
            original: "T2".to_string()
        })
    );
}

#[test]
fn return_may_not_carry_its_own_credits() {
    let mut t = ret("T2", "2026-03-01", 100, "T1");
    t.credits = vec![credit("rep-9", "ae", 1)];
    let file = TransactionsFile {
        transactions: vec![
            sale("T1", "2026-02-01", 1_000, vec![credit("rep-1", "ae", 1)]),
            t,
        ],
    };
    assert_eq!(
        file.validate(),
        Err(InputError::ReturnWithCredits {
            id: "T2".to_string()
        })
    );
}

#[test]
fn sale_must_not_reference_an_original() {
    let mut t = sale("T1", "2026-02-01", 1_000, vec![credit("rep-1", "ae", 1)]);
    t.original_transaction_id = Some("T0".to_string());
    let file = TransactionsFile {
        transactions: vec![t],
    };
    assert_eq!(
        file.validate(),
        Err(InputError::SaleWithOriginal {
            id: "T1".to_string()
        })
    );
}

#[test]
fn duplicate_transaction_ids_are_rejected() {
    let file = TransactionsFile {
        transactions: vec![
            sale("T1", "2026-02-01", 1_000, vec![credit("rep-1", "ae", 1)]),
            sale("T1", "2026-02-02", 1_000, vec![credit("rep-1", "ae", 1)]),
        ],
    };
    assert_eq!(
        file.validate(),
        Err(InputError::DuplicateTransactionId {
            id: "T1".to_string()
        })
    );
}

#[test]
fn commission_transaction_errors_read_well() {
    let none = TransactionsFile { transactions: vec![] };
    assert_eq!(none.validate(), Err(InputError::Empty));
    assert_eq!(
        none.validate().unwrap_err().message(),
        "transactions file must not be empty"
    );
    let free = TransactionsFile {
        transactions: vec![sale("T1", "2026-02-01", 0, vec![credit("r", "ae", 1)])],
    };
    assert_eq!(
        free.validate(),
        Err(InputError::NonPositiveAmount { id: "T1".to_string() })
    );
    let bare = TransactionsFile { transactions: vec![sale("T1", "2026-02-01", 1, vec![])] };
    assert_eq!(
        bare.validate(),
        Err(InputError::SaleWithoutCredits { id: "T1".to_string() })
    );
    let mirror = TransactionsFile { transactions: vec![ret("T1", "2026-02-01", 1, "T1")] };
    assert_eq!(
        mirror.validate(),
        Err(InputError::SelfReferencingReturn { id: "T1".to_string() })
    );
    let mut lost = ret("T1", "2026-02-01", 1, "T0");
    lost.original_transaction_id = None;
    let lost = TransactionsFile { transactions: vec![lost] };
    assert_eq!(
        lost.validate(),
        Err(InputError::ReturnWithoutOriginal { id: "T1".to_string() })
    );
}
