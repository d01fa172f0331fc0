//! In-memory double-entry bookkeeping core.
//!
//! A [`ledger::Ledger`] owns an account registry and an append-only
//! transaction journal.  Every balance mutation funnels through the posting
//! engine (`record_transaction` and its convenience wrappers), which checks
//! the double-entry invariant before touching any balance and applies each
//! transaction atomically.  A verified binary snapshot codec turns the whole
//! ledger into bytes and back, losslessly.

pub mod account;
pub mod codec;
pub mod currency;
pub mod dto;
pub mod errors;
pub mod ledger;
pub mod transaction;
