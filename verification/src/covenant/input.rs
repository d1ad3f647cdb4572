//! Normalized financials.

use vstd::prelude::*;

use crate::covenant::units::Cents;
use crate::date::Date;

verus! {

/// An entity's quarters, and the date at which its covenants are tested.
#[derive(Debug, Clone, PartialEq, Eq)]
pub struct Financials {
    pub entity: String,
    pub measurement_date: Date,
    pub periods: Vec<PeriodFinancials>,
}

/// One quarter. EBITDA, interest, rent, and maturities are the quarter's
/// amounts; debt, current assets, and current liabilities are balances at
/// its end.
#[derive(Debug, Clone, PartialEq, Eq)]
pub struct PeriodFinancials {
    pub period_id: String,
    pub period_end: Date,
    pub total_debt_cents: Cents,
    pub ebitda_cents: Cents,
    pub interest_expense_cents: Cents,
    pub current_assets_cents: Cents,
    pub current_liabilities_cents: Cents,
    pub rent_expense_cents: Cents,
    pub current_maturities_cents: Cents,
}

/// What a [`PeriodFinancials`] says.
#[verifier::ext_equal]
pub struct PeriodView {
    pub period_id: Seq<char>,
    pub end: int,
    pub total_debt: int,
    pub ebitda: int,
    pub interest_expense: int,
    pub current_assets: int,
    pub current_liabilities: int,
    pub rent_expense: int,
    pub current_maturities: int,
}

impl View for PeriodFinancials {
    type V = PeriodView;

    open spec fn view(&self) -> PeriodView {
        PeriodView {
            period_id: self.period_id@,
            end: self.period_end.day(),
            total_debt: self.total_debt_cents.0 as int,
            ebitda: self.ebitda_cents.0 as int,
            interest_expense: self.interest_expense_cents.0 as int,
            current_assets: self.current_assets_cents.0 as int,
            current_liabilities: self.current_liabilities_cents.0 as int,
            rent_expense: self.rent_expense_cents.0 as int,
            current_maturities: self.current_maturities_cents.0 as int,
        }
    }
}

pub open spec fn periods_view(s: Seq<PeriodFinancials>) -> Seq<PeriodView> {
    s.map_values(|p: PeriodFinancials| p@)
}

} // verus!
