use vstd::prelude::*;

use crate::currency::Currency;

verus! {

/// Monetary amount in the minor currency unit (e.g. kobo or cents).
/// Signed integer; no floating point anywhere in the accounting path.
pub type Kobo = i64;

/// One account of the ledger.  Account ids are assigned sequentially starting
/// at 1; id 0 is the reserved system/bank account created at ledger
/// initialization, the counterparty of every deposit and withdrawal.
pub struct Account {
    pub id: u32,
    pub owner: String,
    pub balance: Kobo,
    pub closed: bool,
    pub currency: Currency,
}

/// Mathematical model of an [`Account`]: the owner name as a character
/// sequence, everything else as plain values.
#[verifier::ext_equal]
pub ghost struct AccountModel {
    pub id: u32,
    pub owner: Seq<char>,
    pub balance: Kobo,
    pub closed: bool,
    pub currency: Currency,
}

impl View for Account {
    type V = AccountModel;

    open spec fn view(&self) -> AccountModel {
        AccountModel {
            id: self.id,
            owner: self.owner@,
            balance: self.balance,
            closed: self.closed,
            currency: self.currency,
        }
    }
}

} // verus!
