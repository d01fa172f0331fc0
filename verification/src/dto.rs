use vstd::prelude::*;

use crate::account::Kobo;
use crate::currency::Currency;

verus! {

/// Payload for creating an account.
pub struct CreateAccountRequest {
    pub owner: String,
    pub initial: Kobo,
    pub currency: Currency,
}

/// Reply to a successful account creation.
pub struct CreateAccountResponse {
    pub id: u32,
    pub currency: Currency,
}

/// Payload for a deposit or a withdrawal against one account.
pub struct TransferRequest {
    pub id: u32,
    pub amount: Kobo,
    pub description: Option<String>,
}

/// Payload for a transfer between two accounts.
pub struct TransferBetweenRequest {
    pub from: u32,
    pub to: u32,
    pub amount: Kobo,
    pub description: Option<String>,
}

/// Reply carrying the id of a committed transaction.
pub struct TxResponse {
    pub tx_id: u64,
}

/// Payload naming the snapshot location for a save or a load.
pub struct SaveLoadRequest {
    pub path: String,
}

/// Query filter for listing accounts by owner name.
pub struct ListAccountsQuery {
    pub owner: Option<String>,
}

/// Query filter for listing transactions touching one account.
pub struct ListTxQuery {
    pub account: Option<u32>,
}

} // verus!
