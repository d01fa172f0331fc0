use vstd::prelude::*;

verus! {

/// Closed enumeration of every way a ledger operation can fail.  All errors
/// are local and recoverable: the operation returns the error to the caller
/// and leaves the ledger exactly as it was.
#[derive(Clone, Copy, Debug, PartialEq, Eq, Structural)]
pub enum LedgerError {
    /// An entry or a query referenced an account id that is not registered.
    AccountNotFound,
    /// An entry referenced an account that has been closed.
    AccountClosed,
    /// A transfer named the same account on both sides.
    SelfTransfer,
    /// A withdrawal or transfer amount was not strictly positive.
    InvalidAmount,
    /// The source account's balance is smaller than the requested amount.
    InsufficientFunds,
    /// A close was attempted on an account whose balance is not zero.
    NonZeroBalance,
    /// A close was attempted on the reserved system/bank account (id 0),
    /// which always exists and is never closed.
    ReservedAccount,
    /// A transaction was submitted with no entries at all.
    EmptyTransaction,
    /// The submitted entries' total debits differ from their total credits.
    UnbalancedTransaction { debit_sum: i128, credit_sum: i128 },
    /// Applying the entries in order would overflow some account's balance.
    BalanceOverflow,
    /// The account id counter cannot advance any further.
    IdOverflow,
    /// The transaction id counter cannot advance any further.
    TxIdOverflow,
    /// A snapshot could not be decoded back into a ledger.
    MalformedSnapshot,
}

} // verus!
