use vstd::prelude::*;

use crate::account::Kobo;

verus! {

/// One line of a transaction: the effect on `account_id`'s balance is
/// `balance += debit - credit`.  The engine checks only that a transaction's
/// aggregate debits equal its aggregate credits, not per-entry exclusivity.
#[derive(Clone, Copy, Debug, PartialEq, Eq, Structural)]
pub struct TransactionEntry {
    pub account_id: u32,
    pub debit: Kobo,
    pub credit: Kobo,
}

/// One committed transaction: immutable once appended to the journal.
/// The timestamp is the commit time in milliseconds since the Unix epoch, UTC.
pub struct Transaction {
    pub id: u64,
    pub description: Option<String>,
    pub entries: Vec<TransactionEntry>,
    pub timestamp: i64,
}

/// Mathematical model of a [`Transaction`].
#[verifier::ext_equal]
pub ghost struct TxModel {
    pub id: u64,
    pub description: Option<Seq<char>>,
    pub entries: Seq<TransactionEntry>,
    pub timestamp: i64,
}

impl View for Transaction {
    type V = TxModel;

    open spec fn view(&self) -> TxModel {
        TxModel {
            id: self.id,
            description: opt_str_view(self.description),
            entries: self.entries@,
            timestamp: self.timestamp,
        }
    }
}

/// Total of the debit columns of `es`, as an unbounded integer.
pub open spec fn sum_debits(es: Seq<TransactionEntry>) -> int
    decreases es.len(),
{
    if es.len() == 0 {
        0
    } else {
        sum_debits(es.drop_last()) + es.last().debit
    }
}

/// Total of the credit columns of `es`, as an unbounded integer.
pub open spec fn sum_credits(es: Seq<TransactionEntry>) -> int
    decreases es.len(),
{
    if es.len() == 0 {
        0
    } else {
        sum_credits(es.drop_last()) + es.last().credit
    }
}

/// A transaction is balanced when its total debits equal its total credits:
/// the double-entry invariant.
pub open spec fn balanced(es: Seq<TransactionEntry>) -> bool {
    sum_debits(es) == sum_credits(es)
}

/// Net effect of the entries `es` on the balance of account `id`.
pub open spec fn tx_delta(es: Seq<TransactionEntry>, id: u32) -> int
    decreases es.len(),
{
    if es.len() == 0 {
        0
    } else {
        tx_delta(es.drop_last(), id) + if es.last().account_id == id {
            es.last().debit - es.last().credit
        } else {
            0
        }
    }
}

/// Net effect of the whole journal `ts` on the balance of account `id`:
/// the sum of its debits minus the sum of its credits over every entry
/// referencing `id`.
pub open spec fn journal_delta(ts: Seq<TxModel>, id: u32) -> int
    decreases ts.len(),
{
    if ts.len() == 0 {
        0
    } else {
        journal_delta(ts.drop_last(), id) + tx_delta(ts.last().entries, id)
    }
}

/// View of an optional description string.
pub open spec fn opt_str_view(d: Option<String>) -> Option<Seq<char>> {
    match d {
        Some(s) => Some(s@),
        None => None,
    }
}

/// Whether some entry of `t` references account `id`.
pub open spec fn tx_references(t: TxModel, id: u32) -> bool {
    exists|j: int| 0 <= j < t.entries.len() && (#[trigger] t.entries[j]).account_id == id
}

/// The subsequence of the journal consisting of the transactions that
/// reference account `id`, in journal order.
pub open spec fn txs_for(ts: Seq<TxModel>, id: u32) -> Seq<TxModel>
    decreases ts.len(),
{
    if ts.len() == 0 {
        Seq::empty()
    } else {
        txs_for(ts.drop_last(), id) + if tx_references(ts.last(), id) {
            seq![ts.last()]
        } else {
            Seq::empty()
        }
    }
}

/// Whether any entry of `t` references account `id`, decided executably.
pub fn references_account(t: &Transaction, id: u32) -> (r: bool)
    ensures
        r == tx_references(t@, id),
{
    let mut j: usize = 0;
    while j < t.entries.len()
        invariant
            0 <= j <= t.entries.len(),
            forall|j2: int| 0 <= j2 < j ==> (#[trigger] t.entries@[j2]).account_id != id,
        decreases t.entries.len() - j,
    {
        if t.entries[j].account_id == id {
            proof {
                assert((#[trigger] t@.entries[j as int]).account_id == id);
            }
            return true;
        }
        j = j + 1;
    }
    false
}

/// Produces an owned copy of a transaction with the same model.
pub fn clone_transaction(t: &Transaction) -> (r: Transaction)
    ensures
        r@ == t@,
{
    let description: Option<String> = match &t.description {
        Some(s) => Some(s.clone()),
        None => None,
    };
    let mut entries: Vec<TransactionEntry> = Vec::new();
    let mut i: usize = 0;
    while i < t.entries.len()
        invariant
            0 <= i <= t.entries.len(),
            entries@ == t.entries@.take(i as int),
        decreases t.entries.len() - i,
    {
        entries.push(t.entries[i]);
        proof {
            assert(entries@ =~= t.entries@.take(i + 1 as int));
        }
        i = i + 1;
    }
    proof {
        assert(entries@ =~= t.entries@);
    }
    Transaction { id: t.id, description, entries, timestamp: t.timestamp }
}

} // verus!
