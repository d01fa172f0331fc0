use vstd::prelude::*;

use vstd::slice::slice_to_vec;
use vstd::utf8::{
    encode_utf8, encode_utf8_valid_utf8, is_leading_byte_width_1, partial_valid_utf8,
    partial_valid_utf8_extend_ascii_block, valid_utf8, valid_utf8_concat,
};

use crate::account::{Account, AccountModel, Kobo};
use crate::currency::Currency;
use crate::errors::LedgerError;
use crate::transaction::{
    balanced, clone_transaction, journal_delta, opt_str_view, references_account, sum_credits,
    sum_debits, tx_delta, txs_for, Transaction, TransactionEntry, TxModel,
};

verus! {

/// The aggregate root: account registry, append-only transaction journal,
/// and the two id counters.  Account ids are assigned sequentially, so the
/// registry is a vector whose index is the account id; the reserved
/// system/bank account sits at id 0.
pub struct Ledger {
    pub accounts: Vec<Account>,
    pub transactions: Vec<Transaction>,
    pub next_account_id: u32,
    pub next_tx_id: u64,
    pub bank_account_id: u32,
}

/// Mathematical model of a [`Ledger`].
#[verifier::ext_equal]
pub ghost struct LedgerModel {
    pub accounts: Seq<AccountModel>,
    pub txs: Seq<TxModel>,
    pub next_account_id: u32,
    pub next_tx_id: u64,
    pub bank_account_id: u32,
}

impl View for Ledger {
    type V = LedgerModel;

    open spec fn view(&self) -> LedgerModel {
        LedgerModel {
            accounts: self.accounts@.map_values(|a: Account| a@),
            txs: self.transactions@.map_values(|t: Transaction| t@),
            next_account_id: self.next_account_id,
            next_tx_id: self.next_tx_id,
            bank_account_id: self.bank_account_id,
        }
    }
}

impl LedgerModel {
    /// Structural well-formedness: the bank account is id 0, always exists
    /// and is never closed, registry indices coincide with account ids,
    /// transaction ids run 1, 2, ... with no gaps, both counters agree with
    /// the stored data, and every journal entry references a registered
    /// account.
    pub open spec fn wf(self) -> bool {
        &&& self.bank_account_id == 0
        &&& 1 <= self.next_account_id
        &&& self.accounts.len() == self.next_account_id as int
        &&& !self.accounts[0].closed
        &&& forall|i: int|
            0 <= i < self.accounts.len() ==> (#[trigger] self.accounts[i]).id == i
        &&& self.next_tx_id as int == self.txs.len() + 1
        &&& forall|k: int| 0 <= k < self.txs.len() ==> (#[trigger] self.txs[k]).id == k + 1
        &&& forall|k: int, j: int|
            0 <= k < self.txs.len() && 0 <= j < self.txs[k].entries.len()
                ==> (#[trigger] self.txs[k].entries[j]).account_id < self.accounts.len()
    }

    /// The double-entry invariant over the whole journal: every committed
    /// transaction's debits equal its credits.
    pub open spec fn journal_balanced(self) -> bool {
        forall|k: int| 0 <= k < self.txs.len() ==> balanced((#[trigger] self.txs[k]).entries)
    }

    /// The balance account `i` was opened with, reconstructed from the
    /// current balance and the journal.  Every posting preserves this
    /// quantity, and `create_account` sets it to the requested initial
    /// balance, so at any point in time
    /// `balance == opening_balance + journal_delta`.
    pub open spec fn opening_balance(self, i: int) -> int {
        self.accounts[i].balance - journal_delta(self.txs, self.accounts[i].id)
    }
}

/// The balances of the registry, index for index.
pub open spec fn balances_of(accs: Seq<AccountModel>) -> Seq<i64> {
    accs.map_values(|a: AccountModel| a.balance)
}

/// The read-only validation pass of the posting engine: scanning the entries
/// front to back, the first one referencing an unregistered account yields
/// `AccountNotFound`, the first one referencing a closed account yields
/// `AccountClosed`; `None` means every entry may be posted.
pub open spec fn validate_entries(
    accs: Seq<AccountModel>,
    es: Seq<TransactionEntry>,
) -> Option<LedgerError>
    decreases es.len(),
{
    if es.len() == 0 {
        None
    } else if es.first().account_id as int >= accs.len() {
        Some(LedgerError::AccountNotFound)
    } else if accs[es.first().account_id as int].closed {
        Some(LedgerError::AccountClosed)
    } else {
        validate_entries(accs, es.drop_first())
    }
}

/// Sequential, overflow-checked application of the entries to the balances,
/// front to back: `None` means some step leaves the `i64` range (or
/// references an index out of range, which validation rules out).
pub open spec fn apply_entries(bals: Seq<i64>, es: Seq<TransactionEntry>) -> Option<Seq<i64>>
    decreases es.len(),
{
    if es.len() == 0 {
        Some(bals)
    } else {
        let e = es.first();
        if e.account_id as int >= bals.len() {
            None
        } else {
            let nb = bals[e.account_id as int] + e.debit - e.credit;
            if nb < i64::MIN || nb > i64::MAX {
                None
            } else {
                apply_entries(bals.update(e.account_id as int, nb as i64), es.drop_first())
            }
        }
    }
}

/// The exact error `record_transaction` returns for the given entries
/// against the given ledger state, or `None` when the posting succeeds.
/// The checks run in the documented order: empty, unbalanced, unknown or
/// closed account, balance overflow, transaction id exhaustion.
pub open spec fn tx_error(m: LedgerModel, es: Seq<TransactionEntry>) -> Option<LedgerError> {
    if es.len() == 0 {
        Some(LedgerError::EmptyTransaction)
    } else if sum_debits(es) != sum_credits(es) {
        Some(
            LedgerError::UnbalancedTransaction {
                debit_sum: sum_debits(es) as i128,
                credit_sum: sum_credits(es) as i128,
            },
        )
    } else if validate_entries(m.accounts, es) is Some {
        validate_entries(m.accounts, es)
    } else if apply_entries(balances_of(m.accounts), es) is None {
        Some(LedgerError::BalanceOverflow)
    } else if m.next_tx_id == u64::MAX {
        Some(LedgerError::TxIdOverflow)
    } else {
        None
    }
}

/// Everything except the balance of two account records agrees.
pub open spec fn same_but_balance(a: AccountModel, b: AccountModel) -> bool {
    &&& b.id == a.id
    &&& b.owner == a.owner
    &&& b.closed == a.closed
    &&& b.currency == a.currency
}

/// How a successful posting relates the ledger after (`post`) to the ledger
/// before (`pre`): the entries were applied to the balances and to nothing
/// else, one transaction carrying exactly those entries was appended under
/// the next free id, and the id counter advanced by one.
pub open spec fn committed(
    pre: LedgerModel,
    post: LedgerModel,
    desc: Option<Seq<char>>,
    es: Seq<TransactionEntry>,
    tx_id: u64,
    ts: i64,
) -> bool {
    &&& tx_id == pre.next_tx_id
    &&& post.accounts.len() == pre.accounts.len()
    &&& apply_entries(balances_of(pre.accounts), es) == Some(balances_of(post.accounts))
    &&& forall|i: int|
        0 <= i < pre.accounts.len()
            ==> same_but_balance(pre.accounts[i], #[trigger] post.accounts[i])
    &&& post.txs == pre.txs.push(
        TxModel { id: tx_id, description: desc, entries: es, timestamp: ts },
    )
    &&& post.next_account_id == pre.next_account_id
    &&& post.next_tx_id == pre.next_tx_id + 1
    &&& post.bank_account_id == pre.bank_account_id
}

/// A posting with the given data succeeded, at some commit time read from
/// the wall clock.
pub open spec fn committed_at_some_time(
    pre: LedgerModel,
    post: LedgerModel,
    desc: Option<Seq<char>>,
    es: Seq<TransactionEntry>,
    tx_id: u64,
) -> bool {
    exists|ts: i64| committed(pre, post, desc, es, tx_id, ts)
}

/// The two entries a deposit synthesizes: debit the target, credit the bank.
pub open spec fn deposit_entries(to_id: u32, amount: Kobo, bank: u32) -> Seq<TransactionEntry> {
    seq![
        TransactionEntry { account_id: to_id, debit: amount, credit: 0 },
        TransactionEntry { account_id: bank, debit: 0, credit: amount },
    ]
}

/// The two entries a withdrawal synthesizes: credit the source, debit the
/// bank.
pub open spec fn withdraw_entries(from_id: u32, amount: Kobo, bank: u32) -> Seq<
    TransactionEntry,
> {
    seq![
        TransactionEntry { account_id: from_id, debit: 0, credit: amount },
        TransactionEntry { account_id: bank, debit: amount, credit: 0 },
    ]
}

/// The two entries a transfer synthesizes: debit the receiver, credit the
/// sender; the bank is not involved.
pub open spec fn transfer_entries(to_id: u32, from_id: u32, amount: Kobo) -> Seq<
    TransactionEntry,
> {
    seq![
        TransactionEntry { account_id: to_id, debit: amount, credit: 0 },
        TransactionEntry { account_id: from_id, debit: 0, credit: amount },
    ]
}

/// The exact error a withdrawal returns, or `None` when it succeeds: the
/// amount must be positive, the source account registered, its balance
/// sufficient, and the synthesized posting must go through.
pub open spec fn withdraw_error(m: LedgerModel, from_id: u32, amount: Kobo) -> Option<
    LedgerError,
> {
    if amount <= 0 {
        Some(LedgerError::InvalidAmount)
    } else if from_id as int >= m.accounts.len() {
        Some(LedgerError::AccountNotFound)
    } else if m.accounts[from_id as int].balance < amount {
        Some(LedgerError::InsufficientFunds)
    } else {
        tx_error(m, withdraw_entries(from_id, amount, m.bank_account_id))
    }
}

/// The exact error a transfer returns, or `None` when it succeeds: the
/// amount must be positive, the two accounts distinct, the source registered
/// with sufficient balance, and the synthesized posting must go through.
pub open spec fn transfer_error(m: LedgerModel, from_id: u32, to_id: u32, amount: Kobo) -> Option<
    LedgerError,
> {
    if amount <= 0 {
        Some(LedgerError::InvalidAmount)
    } else if from_id == to_id {
        Some(LedgerError::SelfTransfer)
    } else if from_id as int >= m.accounts.len() {
        Some(LedgerError::AccountNotFound)
    } else if m.accounts[from_id as int].balance < amount {
        Some(LedgerError::InsufficientFunds)
    } else {
        tx_error(m, transfer_entries(to_id, from_id, amount))
    }
}

/// The net effect of a two-entry sequence on an account is the sum of the
/// two entries' contributions.
proof fn lemma_tx_delta_pair(e0: TransactionEntry, e1: TransactionEntry, id: u32)
    ensures
        tx_delta(seq![e0, e1], id) == (if e0.account_id == id {
            e0.debit - e0.credit
        } else {
            0
        }) + (if e1.account_id == id {
            e1.debit - e1.credit
        } else {
            0
        }),
{
    let es = seq![e0, e1];
    assert(es.drop_last() =~= seq![e0]);
    assert(seq![e0].drop_last() =~= Seq::<TransactionEntry>::empty());
    assert(es.last() == e1);
    assert(seq![e0].last() == e0);
    assert(tx_delta(Seq::<TransactionEntry>::empty(), id) == 0);
    assert(tx_delta(seq![e0], id) == (if e0.account_id == id {
        e0.debit - e0.credit
    } else {
        0
    }));
}

/// The net effect of a sequence of entries on an account decomposes at the
/// front as well as at the back.
proof fn lemma_tx_delta_first(es: Seq<TransactionEntry>, id: u32)
    requires
        es.len() > 0,
    ensures
        tx_delta(es, id) == (if es.first().account_id == id {
            es.first().debit - es.first().credit
        } else {
            0
        }) + tx_delta(es.drop_first(), id),
    decreases es.len(),
{
    if es.len() == 1 {
        assert(es.drop_last() =~= Seq::<TransactionEntry>::empty());
        assert(es.drop_first() =~= Seq::<TransactionEntry>::empty());
    } else {
        lemma_tx_delta_first(es.drop_last(), id);
        assert(es.drop_last().drop_first() =~= es.drop_first().drop_last());
        assert(es.drop_first().last() == es.last());
    }
}

/// A successful application changes each balance by exactly the entries' net
/// effect on that account.
proof fn lemma_apply_delta(b0: Seq<i64>, es: Seq<TransactionEntry>, b1: Seq<i64>)
    requires
        apply_entries(b0, es) == Some(b1),
        b0.len() <= u32::MAX as int + 1,
    ensures
        b1.len() == b0.len(),
        forall|i: int| 0 <= i < b0.len() ==> b1[i] == b0[i] + tx_delta(es, i as u32),
    decreases es.len(),
{
    if es.len() == 0 {
        assert(forall|i: int| 0 <= i < b0.len() ==> #[trigger] tx_delta(es, i as u32) == 0);
    } else {
        let e = es.first();
        let nb = b0[e.account_id as int] + e.debit - e.credit;
        let b0p = b0.update(e.account_id as int, nb as i64);
        lemma_apply_delta(b0p, es.drop_first(), b1);
        assert forall|i: int| 0 <= i < b0.len() implies b1[i] == b0[i] + tx_delta(es, i as u32) by {
            lemma_tx_delta_first(es, i as u32);
        }
    }
}

/// A validation pass that reports no error certifies every entry: each
/// references a registered, open account.
proof fn lemma_validate_ok(accs: Seq<AccountModel>, es: Seq<TransactionEntry>)
    requires
        validate_entries(accs, es) is None,
    ensures
        forall|j: int|
            0 <= j < es.len()
                ==> (#[trigger] es[j]).account_id < accs.len()
                    && !accs[es[j].account_id as int].closed,
    decreases es.len(),
{
    if es.len() > 0 {
        lemma_validate_ok(accs, es.drop_first());
        assert forall|j: int|
            0 <= j < es.len() implies (#[trigger] es[j]).account_id < accs.len()
                && !accs[es[j].account_id as int].closed by {
            if j > 0 {
                assert(es.drop_first()[j - 1] == es[j]);
            }
        }
    }
}

/// Appending a transaction adds its net effect to the journal's.
proof fn lemma_journal_delta_push(ts: Seq<TxModel>, t: TxModel, id: u32)
    ensures
        journal_delta(ts.push(t), id) == journal_delta(ts, id) + tx_delta(t.entries, id),
{
    assert(ts.push(t).drop_last() =~= ts);
    assert(ts.push(t).last() == t);
}

/// The first registered account (in id order) whose owner name is exactly
/// `name`, searching from index `i` on.
pub open spec fn first_owner_match_from(accs: Seq<AccountModel>, name: Seq<char>, i: int) -> Option<
    int,
>
    decreases accs.len() - i,
{
    if i < 0 || i >= accs.len() {
        None
    } else if accs[i].owner == name {
        Some(i)
    } else {
        first_owner_match_from(accs, name, i + 1)
    }
}

/// Sum of the balances of the first `n` accounts whose id is not `except`.
pub open spec fn sum_balances_except_upto(accs: Seq<AccountModel>, except: u32, n: int) -> int
    decreases n,
{
    if n <= 0 {
        0
    } else {
        sum_balances_except_upto(accs, except, n - 1) + if accs[n - 1].id == except {
            0
        } else {
            accs[n - 1].balance
        }
    }
}

/// Sum of all balances held outside the reserved bank account.
pub open spec fn spec_total_assets(m: LedgerModel) -> int {
    sum_balances_except_upto(m.accounts, m.bank_account_id, m.accounts.len() as int)
}

/// A committed two-entry posting changes each balance by the two entries'
/// contributions and nothing more.
proof fn lemma_pair_posting_balances(
    pre: LedgerModel,
    post: LedgerModel,
    desc: Option<Seq<char>>,
    e0: TransactionEntry,
    e1: TransactionEntry,
    tx_id: u64,
)
    requires
        pre.accounts.len() <= u32::MAX as int,
        committed_at_some_time(pre, post, desc, seq![e0, e1], tx_id),
    ensures
        post.accounts.len() == pre.accounts.len(),
        forall|i: int|
            0 <= i < pre.accounts.len() ==> (#[trigger] post.accounts[i]).balance
                == pre.accounts[i].balance + (if e0.account_id as int == i {
                e0.debit - e0.credit
            } else {
                0
            }) + (if e1.account_id as int == i {
                e1.debit - e1.credit
            } else {
                0
            }),
{
    let es = seq![e0, e1];
    let ts = choose|ts: i64| committed(pre, post, desc, es, tx_id, ts);
    let b0 = balances_of(pre.accounts);
    let b1 = balances_of(post.accounts);
    lemma_apply_delta(b0, es, b1);
    assert forall|i: int|
        0 <= i < pre.accounts.len() implies (#[trigger] post.accounts[i]).balance
        == pre.accounts[i].balance + (if e0.account_id as int == i {
        e0.debit - e0.credit
    } else {
        0
    }) + (if e1.account_id as int == i {
        e1.debit - e1.credit
    } else {
        0
    }) by {
        lemma_tx_delta_pair(e0, e1, i as u32);
        assert(b1[i] == post.accounts[i].balance);
        assert(b0[i] == pre.accounts[i].balance);
    }
}

/// A sequence of entries none of which references `id` has no effect on it.
proof fn lemma_tx_delta_absent(es: Seq<TransactionEntry>, id: u32)
    requires
        forall|j: int| 0 <= j < es.len() ==> (#[trigger] es[j]).account_id != id,
    ensures
        tx_delta(es, id) == 0,
    decreases es.len(),
{
    if es.len() > 0 {
        lemma_tx_delta_absent(es.drop_last(), id);
    }
}

/// A journal whose entries all reference accounts below `id` has no effect
/// on `id`: a freshly created account starts with an untouched history.
proof fn lemma_journal_delta_fresh(ts: Seq<TxModel>, id: u32)
    requires
        forall|k: int, j: int|
            0 <= k < ts.len() && 0 <= j < ts[k].entries.len()
                ==> (#[trigger] ts[k].entries[j]).account_id < id,
    ensures
        journal_delta(ts, id) == 0,
    decreases ts.len(),
{
    if ts.len() > 0 {
        lemma_journal_delta_fresh(ts.drop_last(), id);
        lemma_tx_delta_absent(ts.last().entries, id);
    }
}

/// Relies on chrono's `Utc::now` and `DateTime::timestamp_millis` for the
/// current UTC wall-clock time in milliseconds since the Unix epoch.  The
/// result depends on the system clock, so nothing is promised of it; callers
/// treat it as an arbitrary `i64`.  (`Utc::now` itself panics if the system
/// clock reads earlier than the Unix epoch.)
#[verifier::external_body]
fn now_timestamp_millis() -> i64 {
    chrono::Utc::now().timestamp_millis()
}

impl Ledger {
    /// A fresh ledger: only the reserved bank account (id 0, owner "BANK",
    /// zero balance, naira), an empty journal, and both counters at 1.
    pub fn new() -> (r: Ledger)
        ensures
            r@.wf(),
            r@.journal_balanced(),
            r@.accounts.len() == 1,
            r@.accounts[0].balance == 0,
            r@.accounts[0].owner == "BANK"@,
            r@.accounts[0].closed == false,
            r@.txs.len() == 0,
            r@.next_account_id == 1,
            r@.next_tx_id == 1,
            r@.bank_account_id == 0,
    {
        let mut accounts: Vec<Account> = Vec::new();
        let bank = Account {
            id: 0,
            owner: "BANK".to_owned(),
            balance: 0,
            closed: false,
            currency: Currency::NGN,
        };
        accounts.push(bank);
        Ledger {
            accounts,
            transactions: Vec::new(),
            next_account_id: 1,
            next_tx_id: 1,
            bank_account_id: 0,
        }
    }

    /// Registers a new account under the next sequential id with the given
    /// owner, opening balance and currency.  The opening balance is not
    /// journaled: it bypasses the double-entry check by design.  Fails with
    /// `IdOverflow`, touching nothing, when the id counter cannot advance.
    pub fn create_account(
        &mut self,
        owner: String,
        initial_balance: Kobo,
        currency: Currency,
    ) -> (r: Result<u32, LedgerError>)
        requires
            old(self)@.wf(),
        ensures
            final(self)@.wf(),
            match r {
                Ok(id) => {
                    &&& old(self)@.next_account_id < u32::MAX
                    &&& id == old(self)@.next_account_id
                    &&& final(self)@.accounts == old(self)@.accounts.push(
                        AccountModel {
                            id,
                            owner: owner@,
                            balance: initial_balance,
                            closed: false,
                            currency,
                        },
                    )
                    &&& final(self)@.next_account_id == id + 1
                    &&& final(self)@.txs == old(self)@.txs
                    &&& final(self)@.next_tx_id == old(self)@.next_tx_id
                    &&& final(self)@.bank_account_id == old(self)@.bank_account_id
                    &&& final(self)@.opening_balance(id as int) == initial_balance
                },
                Err(e) => {
                    &&& e == LedgerError::IdOverflow
                    &&& old(self)@.next_account_id == u32::MAX
                    &&& final(self)@ == old(self)@
                },
            },
            old(self)@.journal_balanced() ==> final(self)@.journal_balanced(),
            forall|i: int|
                0 <= i < old(self)@.accounts.len()
                    ==> final(self)@.opening_balance(i) == old(self)@.opening_balance(i),
    {
        let ghost pre = old(self)@;
        let ghost owner_v = owner@;
        if self.next_account_id == u32::MAX {
            return Err(LedgerError::IdOverflow);
        }
        let id = self.next_account_id;
        let account = Account { id, owner, balance: initial_balance, closed: false, currency };
        self.accounts.push(account);
        self.next_account_id = self.next_account_id + 1;
        proof {
            let post = self@;
            assert(post.accounts =~= pre.accounts.push(
                AccountModel {
                    id,
                    owner: owner_v,
                    balance: initial_balance,
                    closed: false,
                    currency,
                },
            ));
            assert(post.txs =~= pre.txs);
            lemma_journal_delta_fresh(pre.txs, id);
        }
        Ok(id)
    }

    /// Marks the account closed, barring it from any future posting.  Fails
    /// with `ReservedAccount` for the bank account, which is never closed,
    /// with `AccountNotFound` for an unregistered id, and with
    /// `NonZeroBalance` when the balance is not zero.  Closing an
    /// already-closed zero-balance account succeeds silently.
    pub fn close_account(&mut self, account_id: u32) -> (r: Result<(), LedgerError>)
        requires
            old(self)@.wf(),
        ensures
            final(self)@.wf(),
            match r {
                Ok(_) => {
                    &&& account_id != old(self)@.bank_account_id
                    &&& account_id < old(self)@.accounts.len()
                    &&& old(self)@.accounts[account_id as int].balance == 0
                    &&& final(self)@.accounts == old(self)@.accounts.update(
                        account_id as int,
                        AccountModel {
                            closed: true,
                            ..old(self)@.accounts[account_id as int]
                        },
                    )
                    &&& final(self)@.txs == old(self)@.txs
                    &&& final(self)@.next_account_id == old(self)@.next_account_id
                    &&& final(self)@.next_tx_id == old(self)@.next_tx_id
                    &&& final(self)@.bank_account_id == old(self)@.bank_account_id
                },
                Err(e) => {
                    &&& final(self)@ == old(self)@
                    &&& if account_id == old(self)@.bank_account_id {
                        e == LedgerError::ReservedAccount
                    } else if account_id as int >= old(self)@.accounts.len() {
                        e == LedgerError::AccountNotFound
                    } else {
                        old(self)@.accounts[account_id as int].balance != 0 && e
                            == LedgerError::NonZeroBalance
                    }
                },
            },
            final(self)@.accounts[0].closed == old(self)@.accounts[0].closed,
            old(self)@.journal_balanced() ==> final(self)@.journal_balanced(),
            forall|i: int|
                0 <= i < old(self)@.accounts.len()
                    ==> final(self)@.opening_balance(i) == old(self)@.opening_balance(i),
    {
        let ghost pre = old(self)@;
        if account_id == self.bank_account_id {
            return Err(LedgerError::ReservedAccount);
        }
        if account_id as usize >= self.accounts.len() {
            return Err(LedgerError::AccountNotFound);
        }
        if self.accounts[account_id as usize].balance != 0 {
            return Err(LedgerError::NonZeroBalance);
        }
        self.accounts[account_id as usize].closed = true;
        proof {
            let post = self@;
            assert(post.accounts =~= pre.accounts.update(
                account_id as int,
                AccountModel { closed: true, ..pre.accounts[account_id as int] },
            ));
            assert(post.txs =~= pre.txs);
        }
        Ok(())
    }

    /// The only balance-mutating primitive.  Checks, in order: the entry list
    /// is non-empty; total debits equal total credits; every referenced
    /// account is registered and open; applying the entries in sequence keeps
    /// every balance in range; the transaction id counter can advance.  Only
    /// then does it mutate: the whole posting is atomic, a failed call leaves
    /// the ledger untouched.
    #[verifier::loop_isolation(false)]
    #[verifier::rlimit(60)]
    pub fn record_transaction(
        &mut self,
        description: Option<String>,
        entries: Vec<TransactionEntry>,
    ) -> (r: Result<u64, LedgerError>)
        requires
            old(self)@.wf(),
        ensures
            final(self)@.wf(),
            match r {
                Ok(tx_id) => {
                    &&& tx_error(old(self)@, entries@) is None
                    &&& committed_at_some_time(
                        old(self)@,
                        final(self)@,
                        opt_str_view(description),
                        entries@,
                        tx_id,
                    )
                },
                Err(e) => {
                    &&& final(self)@ == old(self)@
                    &&& tx_error(old(self)@, entries@) == Some(e)
                },
            },
            old(self)@.journal_balanced() ==> final(self)@.journal_balanced(),
            forall|i: int|
                0 <= i < old(self)@.accounts.len()
                    ==> final(self)@.opening_balance(i) == old(self)@.opening_balance(i),
    {
        let ghost pre = old(self)@;
        let ghost es_v = entries@;
        let ghost desc_v = opt_str_view(description);
        if entries.len() == 0 {
            return Err(LedgerError::EmptyTransaction);
        }
        // Aggregate the two columns in i128, which cannot overflow: each of
        // the at most usize::MAX summands lies in the i64 range.
        let mut d_sum: i128 = 0;
        let mut c_sum: i128 = 0;
        let mut i: usize = 0;
        while i < entries.len()
            invariant
                0 <= i <= es_v.len(),
                entries@ == es_v,
                d_sum == sum_debits(es_v.take(i as int)),
                c_sum == sum_credits(es_v.take(i as int)),
                -(i as int) * 0x8000_0000_0000_0000 <= d_sum
                    <= (i as int) * 0x7fff_ffff_ffff_ffff,
                -(i as int) * 0x8000_0000_0000_0000 <= c_sum
                    <= (i as int) * 0x7fff_ffff_ffff_ffff,
            decreases es_v.len() - i,
        {
            let e = entries[i];
            proof {
                assert(es_v.take(i + 1).drop_last() =~= es_v.take(i as int));
                assert(es_v.take(i + 1).last() == es_v[i as int]);
            }
            d_sum = d_sum + e.debit as i128;
            c_sum = c_sum + e.credit as i128;
            i = i + 1;
        }
        proof {
            assert(es_v.take(es_v.len() as int) =~= es_v);
        }
        if d_sum != c_sum {
            return Err(
                LedgerError::UnbalancedTransaction { debit_sum: d_sum, credit_sum: c_sum },
            );
        }
        // Read-only validation pass: every account exists and is open.
        let mut i: usize = 0;
        while i < entries.len()
            invariant
                0 <= i <= es_v.len(),
                entries@ == es_v,
                self@ == pre,
                pre.wf(),
                validate_entries(pre.accounts, es_v) == validate_entries(
                    pre.accounts,
                    es_v.skip(i as int),
                ),
            decreases es_v.len() - i,
        {
            let e = entries[i];
            proof {
                assert(es_v.skip(i as int).first() == es_v[i as int]);
                assert(es_v.skip(i as int).drop_first() =~= es_v.skip(i + 1));
            }
            if e.account_id as usize >= self.accounts.len() {
                return Err(LedgerError::AccountNotFound);
            }
            if self.accounts[e.account_id as usize].closed {
                return Err(LedgerError::AccountClosed);
            }
            i = i + 1;
        }
        proof {
            assert(es_v.skip(es_v.len() as int) =~= Seq::<TransactionEntry>::empty());
            lemma_validate_ok(pre.accounts, es_v);
        }
        // Apply every entry to a scratch copy of the balances with checked
        // arithmetic, so that an overflow aborts before any state changes.
        let n = self.accounts.len();
        let mut bals: Vec<i64> = Vec::new();
        let mut i: usize = 0;
        while i < n
            invariant
                0 <= i <= n,
                self@ == pre,
                pre.wf(),
                n == pre.accounts.len(),
                bals@.len() == i as int,
                forall|j: int| 0 <= j < i ==> bals@[j] == pre.accounts[j].balance,
            decreases n - i,
        {
            let b = self.accounts[i].balance;
            bals.push(b);
            i = i + 1;
        }
        proof {
            assert(bals@ =~= balances_of(pre.accounts));
        }
        let ghost b0 = balances_of(pre.accounts);
        let mut i: usize = 0;
        while i < entries.len()
            invariant
                0 <= i <= es_v.len(),
                entries@ == es_v,
                self@ == pre,
                pre.wf(),
                bals@.len() == pre.accounts.len(),
                forall|j: int|
                    0 <= j < es_v.len()
                        ==> (#[trigger] es_v[j]).account_id < pre.accounts.len(),
                apply_entries(b0, es_v) == apply_entries(bals@, es_v.skip(i as int)),
            decreases es_v.len() - i,
        {
            let e = entries[i];
            proof {
                assert(es_v.skip(i as int).first() == es_v[i as int]);
                assert(es_v.skip(i as int).drop_first() =~= es_v.skip(i + 1));
            }
            let cur = bals[e.account_id as usize];
            let nb128: i128 = cur as i128 + e.debit as i128 - e.credit as i128;
            if nb128 < i64::MIN as i128 || nb128 > i64::MAX as i128 {
                return Err(LedgerError::BalanceOverflow);
            }
            let nb: i64 = nb128 as i64;
            bals[e.account_id as usize] = nb;
            i = i + 1;
        }
        proof {
            assert(es_v.skip(es_v.len() as int) =~= Seq::<TransactionEntry>::empty());
            assert(apply_entries(b0, es_v) == Some(bals@));
        }
        if self.next_tx_id == u64::MAX {
            return Err(LedgerError::TxIdOverflow);
        }
        // All checks passed: commit.
        let tx_id = self.next_tx_id;
        let ts = now_timestamp_millis();
        let mut i: usize = 0;
        while i < n
            invariant
                0 <= i <= n,
                n == pre.accounts.len(),
                self.accounts@.len() == n,
                bals@.len() == n,
                forall|j: int|
                    0 <= j < i
                        ==> same_but_balance(pre.accounts[j], (#[trigger] self.accounts@[j])@)
                            && self.accounts@[j]@.balance == bals@[j],
                forall|j: int| i <= j < n ==> (#[trigger] self.accounts@[j])@ == pre.accounts[j],
                self.transactions@.map_values(|t: Transaction| t@) == pre.txs,
                self.next_account_id == pre.next_account_id,
                self.next_tx_id == pre.next_tx_id,
                self.bank_account_id == pre.bank_account_id,
            decreases n - i,
        {
            let b = bals[i];
            self.accounts[i].balance = b;
            i = i + 1;
        }
        let tx = Transaction { id: tx_id, description, entries, timestamp: ts };
        self.transactions.push(tx);
        self.next_tx_id = self.next_tx_id + 1;
        proof {
            let post = self@;
            let txm = TxModel { id: tx_id, description: desc_v, entries: es_v, timestamp: ts };
            assert(post.accounts =~= self.accounts@.map_values(|a: Account| a@));
            assert(balances_of(post.accounts) =~= bals@);
            assert(post.txs =~= pre.txs.push(txm));
            assert(committed(pre, post, desc_v, es_v, tx_id, ts));
            assert(committed_at_some_time(pre, post, desc_v, es_v, tx_id));
            // Well-formedness of the new state.
            assert forall|k: int, j: int|
                0 <= k < post.txs.len() && 0 <= j < post.txs[k].entries.len() implies (
            #[trigger] post.txs[k].entries[j]).account_id < post.accounts.len() by {
                if k < pre.txs.len() {
                    assert(post.txs[k] == pre.txs[k]);
                } else {
                    assert(post.txs[k] == txm);
                }
            }
            assert(post.wf());
            // The double-entry invariant extends to the new journal.
            if pre.journal_balanced() {
                assert forall|k: int| 0 <= k < post.txs.len() implies balanced(
                    (#[trigger] post.txs[k]).entries,
                ) by {
                    if k < pre.txs.len() {
                        assert(post.txs[k] == pre.txs[k]);
                    } else {
                        assert(post.txs[k] == txm);
                    }
                }
            }
            // Every opening balance is preserved.
            lemma_apply_delta(b0, es_v, bals@);
            assert forall|i2: int| 0 <= i2 < pre.accounts.len() implies post.opening_balance(i2)
                == pre.opening_balance(i2) by {
                lemma_journal_delta_push(pre.txs, txm, i2 as u32);
                assert(pre.accounts[i2].id == i2);
                assert(post.accounts[i2].balance == b0[i2] + tx_delta(es_v, i2 as u32));
            }
        }
        Ok(tx_id)
    }

    /// Credits the bank and debits `to_id` by `amount`, as one committed
    /// transaction.  The amount's sign is deliberately not checked: any
    /// amount, zero or negative included, is passed through to
    /// `record_transaction`, which only checks aggregate balance.
    pub fn deposit(&mut self, to_id: u32, amount: Kobo, description: Option<String>) -> (r:
        Result<u64, LedgerError>)
        requires
            old(self)@.wf(),
        ensures
            final(self)@.wf(),
            match r {
                Ok(tx_id) => {
                    &&& tx_error(
                        old(self)@,
                        deposit_entries(to_id, amount, old(self)@.bank_account_id),
                    ) is None
                    &&& committed_at_some_time(
                        old(self)@,
                        final(self)@,
                        opt_str_view(description),
                        deposit_entries(to_id, amount, old(self)@.bank_account_id),
                        tx_id,
                    )
                    &&& to_id != 0 ==> final(self)@.accounts[to_id as int].balance == old(
                        self,
                    )@.accounts[to_id as int].balance + amount
                    &&& to_id != 0 ==> final(self)@.accounts[0].balance == old(
                        self,
                    )@.accounts[0].balance - amount
                    &&& to_id == 0 ==> final(self)@.accounts[0].balance == old(
                        self,
                    )@.accounts[0].balance
                    &&& forall|i: int|
                        0 <= i < old(self)@.accounts.len() && i != to_id && i != 0
                            ==> final(self)@.accounts[i].balance == old(
                            self,
                        )@.accounts[i].balance
                },
                Err(e) => {
                    &&& final(self)@ == old(self)@
                    &&& tx_error(
                        old(self)@,
                        deposit_entries(to_id, amount, old(self)@.bank_account_id),
                    ) == Some(e)
                },
            },
            old(self)@.journal_balanced() ==> final(self)@.journal_balanced(),
            forall|i: int|
                0 <= i < old(self)@.accounts.len()
                    ==> final(self)@.opening_balance(i) == old(self)@.opening_balance(i),
    {
        let ghost pre = old(self)@;
        let ghost desc_v = opt_str_view(description);
        let e0 = TransactionEntry { account_id: to_id, debit: amount, credit: 0 };
        let e1 = TransactionEntry { account_id: self.bank_account_id, debit: 0, credit: amount };
        let mut entries: Vec<TransactionEntry> = Vec::new();
        entries.push(e0);
        entries.push(e1);
        proof {
            assert(entries@ =~= deposit_entries(to_id, amount, pre.bank_account_id));
        }
        let ghost es_v = entries@;
        let result = self.record_transaction(description, entries);
        proof {
            if let Ok(tx_id) = result {
                let post = self@;
                assert(es_v =~= seq![e0, e1]);
                lemma_validate_ok(pre.accounts, es_v);
                assert(es_v[0] == e0 && es_v[1] == e1);
                lemma_pair_posting_balances(pre, post, desc_v, e0, e1, tx_id);
            }
        }
        result
    }

    /// Credits `from_id` and debits the bank by `amount`, as one committed
    /// transaction.  Requires a strictly positive amount and a sufficient
    /// balance, both checked before anything is posted.
    pub fn withdraw(&mut self, from_id: u32, amount: Kobo, description: Option<String>) -> (r:
        Result<u64, LedgerError>)
        requires
            old(self)@.wf(),
        ensures
            final(self)@.wf(),
            match r {
                Ok(tx_id) => {
                    &&& withdraw_error(old(self)@, from_id, amount) is None
                    &&& committed_at_some_time(
                        old(self)@,
                        final(self)@,
                        opt_str_view(description),
                        withdraw_entries(from_id, amount, old(self)@.bank_account_id),
                        tx_id,
                    )
                    &&& amount > 0
                    &&& from_id < old(self)@.accounts.len()
                    &&& old(self)@.accounts[from_id as int].balance >= amount
                    &&& from_id != 0 ==> final(self)@.accounts[from_id as int].balance == old(
                        self,
                    )@.accounts[from_id as int].balance - amount
                    &&& from_id != 0 ==> final(self)@.accounts[0].balance == old(
                        self,
                    )@.accounts[0].balance + amount
                    &&& from_id == 0 ==> final(self)@.accounts[0].balance == old(
                        self,
                    )@.accounts[0].balance
                    &&& forall|i: int|
                        0 <= i < old(self)@.accounts.len() && i != from_id && i != 0
                            ==> final(self)@.accounts[i].balance == old(
                            self,
                        )@.accounts[i].balance
                },
                Err(e) => {
                    &&& final(self)@ == old(self)@
                    &&& withdraw_error(old(self)@, from_id, amount) == Some(e)
                },
            },
            old(self)@.journal_balanced() ==> final(self)@.journal_balanced(),
            forall|i: int|
                0 <= i < old(self)@.accounts.len()
                    ==> final(self)@.opening_balance(i) == old(self)@.opening_balance(i),
    {
        let ghost pre = old(self)@;
        let ghost desc_v = opt_str_view(description);
        if amount <= 0 {
            return Err(LedgerError::InvalidAmount);
        }
        if from_id as usize >= self.accounts.len() {
            return Err(LedgerError::AccountNotFound);
        }
        if self.accounts[from_id as usize].balance < amount {
            return Err(LedgerError::InsufficientFunds);
        }
        let e0 = TransactionEntry { account_id: from_id, debit: 0, credit: amount };
        let e1 = TransactionEntry { account_id: self.bank_account_id, debit: amount, credit: 0 };
        let mut entries: Vec<TransactionEntry> = Vec::new();
        entries.push(e0);
        entries.push(e1);
        proof {
            assert(entries@ =~= withdraw_entries(from_id, amount, pre.bank_account_id));
        }
        let ghost es_v = entries@;
        let result = self.record_transaction(description, entries);
        proof {
            if let Ok(tx_id) = result {
                let post = self@;
                assert(es_v =~= seq![e0, e1]);
                lemma_validate_ok(pre.accounts, es_v);
                assert(es_v[0] == e0 && es_v[1] == e1);
                lemma_pair_posting_balances(pre, post, desc_v, e0, e1, tx_id);
            }
        }
        result
    }

    /// Moves `amount` from `from_id` to `to_id` directly, with no bank
    /// involvement, as one committed transaction.  Requires a strictly
    /// positive amount, distinct accounts, and sufficient balance in the
    /// source.
    pub fn transfer(
        &mut self,
        from_id: u32,
        to_id: u32,
        amount: Kobo,
        description: Option<String>,
    ) -> (r: Result<u64, LedgerError>)
        requires
            old(self)@.wf(),
        ensures
            final(self)@.wf(),
            match r {
                Ok(tx_id) => {
                    &&& transfer_error(old(self)@, from_id, to_id, amount) is None
                    &&& committed_at_some_time(
                        old(self)@,
                        final(self)@,
                        opt_str_view(description),
                        transfer_entries(to_id, from_id, amount),
                        tx_id,
                    )
                    &&& amount > 0
                    &&& from_id != to_id
                    &&& from_id < old(self)@.accounts.len()
                    &&& to_id < old(self)@.accounts.len()
                    &&& old(self)@.accounts[from_id as int].balance >= amount
                    &&& final(self)@.accounts[to_id as int].balance == old(
                        self,
                    )@.accounts[to_id as int].balance + amount
                    &&& final(self)@.accounts[from_id as int].balance == old(
                        self,
                    )@.accounts[from_id as int].balance - amount
                    &&& forall|i: int|
                        0 <= i < old(self)@.accounts.len() && i != from_id && i != to_id
                            ==> final(self)@.accounts[i].balance == old(
                            self,
                        )@.accounts[i].balance
                },
                Err(e) => {
                    &&& final(self)@ == old(self)@
                    &&& transfer_error(old(self)@, from_id, to_id, amount) == Some(e)
                },
            },
            old(self)@.journal_balanced() ==> final(self)@.journal_balanced(),
            forall|i: int|
                0 <= i < old(self)@.accounts.len()
                    ==> final(self)@.opening_balance(i) == old(self)@.opening_balance(i),
    {
        let ghost pre = old(self)@;
        let ghost desc_v = opt_str_view(description);
        if amount <= 0 {
            return Err(LedgerError::InvalidAmount);
        }
        if from_id == to_id {
            return Err(LedgerError::SelfTransfer);
        }
        if from_id as usize >= self.accounts.len() {
            return Err(LedgerError::AccountNotFound);
        }
        if self.accounts[from_id as usize].balance < amount {
            return Err(LedgerError::InsufficientFunds);
        }
        let e0 = TransactionEntry { account_id: to_id, debit: amount, credit: 0 };
        let e1 = TransactionEntry { account_id: from_id, debit: 0, credit: amount };
        let mut entries: Vec<TransactionEntry> = Vec::new();
        entries.push(e0);
        entries.push(e1);
        proof {
            assert(entries@ =~= transfer_entries(to_id, from_id, amount));
        }
        let ghost es_v = entries@;
        let result = self.record_transaction(description, entries);
        proof {
            if let Ok(tx_id) = result {
                let post = self@;
                assert(es_v =~= seq![e0, e1]);
                lemma_validate_ok(pre.accounts, es_v);
                assert(es_v[0] == e0 && es_v[1] == e1);
                lemma_pair_posting_balances(pre, post, desc_v, e0, e1, tx_id);
            }
        }
        result
    }

    /// The balance of the given account, or `None` when no such account is
    /// registered.
    pub fn get_balance(&self, account_id: u32) -> (r: Option<Kobo>)
        ensures
            match r {
                Some(b) => (account_id as int) < self@.accounts.len() && b
                    == self@.accounts[account_id as int].balance,
                None => (account_id as int) >= self@.accounts.len(),
            },
    {
        if (account_id as usize) < self.accounts.len() {
            Some(self.accounts[account_id as usize].balance)
        } else {
            None
        }
    }

    /// The first account (in id order) whose owner name matches `name`
    /// exactly, or `None` when no owner matches.
    pub fn find_account_by_owner(&self, name: &str) -> (r: Option<&Account>)
        ensures
            match r {
                Some(a) => {
                    &&& first_owner_match_from(self@.accounts, name@, 0) matches Some(j)
                        && a@ == self@.accounts[j]
                },
                None => first_owner_match_from(self@.accounts, name@, 0) is None,
            },
    {
        let name_owned: String = name.to_owned();
        let mut i: usize = 0;
        while i < self.accounts.len()
            invariant
                0 <= i <= self.accounts@.len(),
                name_owned@ == name@,
                first_owner_match_from(self@.accounts, name@, 0) == first_owner_match_from(
                    self@.accounts,
                    name@,
                    i as int,
                ),
            decreases self.accounts@.len() - i,
        {
            if self.accounts[i].owner == name_owned {
                let a = &self.accounts[i];
                return Some(a);
            }
            i = i + 1;
        }
        None
    }

    /// Sum of every balance outside the reserved bank account: the total
    /// money held by user accounts.  The sum must fit the `Kobo` range.
    pub fn total_assets(&self) -> (r: Kobo)
        requires
            self@.wf(),
            i64::MIN <= spec_total_assets(self@) <= i64::MAX,
        ensures
            r == spec_total_assets(self@),
    {
        let ghost m = self@;
        let n = self.accounts.len();
        let mut acc: i128 = 0;
        let mut i: usize = 0;
        while i < n
            invariant
                0 <= i <= n,
                n == m.accounts.len(),
                self@ == m,
                acc == sum_balances_except_upto(m.accounts, m.bank_account_id, i as int),
                -(i as int) * 0x8000_0000_0000_0000 <= acc <= (i as int) * 0x7fff_ffff_ffff_ffff,
            decreases n - i,
        {
            if self.accounts[i].id != self.bank_account_id {
                let b = self.accounts[i].balance;
                acc = acc + b as i128;
            }
            i = i + 1;
        }
        acc as i64
    }

    /// A non-bank account holding the maximum balance, or `None` when only
    /// the bank account exists.  Which of several equally rich accounts is
    /// returned is unspecified.
    pub fn richest_account(&self) -> (r: Option<&Account>)
        requires
            self@.wf(),
        ensures
            match r {
                Some(a) => {
                    &&& exists|i: int| 1 <= i < self@.accounts.len() && a@ == self@.accounts[i]
                    &&& a@.id != 0
                    &&& forall|j: int|
                        1 <= j < self@.accounts.len() ==> (#[trigger] self@.accounts[j]).balance
                            <= a@.balance
                },
                None => self@.accounts.len() == 1,
            },
    {
        let ghost m = self@;
        let n = self.accounts.len();
        if n == 1 {
            return None;
        }
        let mut best: usize = 1;
        let mut i: usize = 2;
        while i < n
            invariant
                2 <= i <= n,
                1 <= best < i,
                n == m.accounts.len(),
                self@ == m,
                forall|j: int|
                    1 <= j < i ==> (#[trigger] m.accounts[j]).balance
                        <= m.accounts[best as int].balance,
            decreases n - i,
        {
            if self.accounts[i].balance >= self.accounts[best].balance {
                best = i;
            }
            i = i + 1;
        }
        let a = &self.accounts[best];
        proof {
            assert(a@ == m.accounts[best as int]);
        }
        Some(a)
    }

    /// The transactions referencing the given account, in journal order.
    pub fn transactions_for_account(&self, account_id: u32) -> (r: Vec<Transaction>)
        ensures
            r@.map_values(|t: Transaction| t@) == txs_for(self@.txs, account_id),
    {
        let ghost m = self@;
        let mut out: Vec<Transaction> = Vec::new();
        let mut k: usize = 0;
        while k < self.transactions.len()
            invariant
                0 <= k <= self.transactions@.len(),
                self@ == m,
                m.txs.len() == self.transactions@.len(),
                out@.map_values(|t: Transaction| t@) == txs_for(m.txs.take(k as int), account_id),
            decreases self.transactions@.len() - k,
        {
            proof {
                assert(m.txs.take(k + 1).drop_last() =~= m.txs.take(k as int));
                assert(m.txs.take(k + 1).last() == m.txs[k as int]);
            }
            if references_account(&self.transactions[k], account_id) {
                let t = clone_transaction(&self.transactions[k]);
                out.push(t);
                proof {
                    assert(m.txs[k as int] == self.transactions@[k as int]@);
                    assert(out@.map_values(|t: Transaction| t@) =~= txs_for(
                        m.txs.take(k + 1),
                        account_id,
                    ));
                }
            } else {
                proof {
                    assert(m.txs[k as int] == self.transactions@[k as int]@);
                    assert(out@.map_values(|t: Transaction| t@) =~= txs_for(
                        m.txs.take(k + 1),
                        account_id,
                    ));
                }
            }
            k = k + 1;
        }
        proof {
            assert(m.txs.take(m.txs.len() as int) =~= m.txs);
        }
        out
    }
}

/// Sum of the opening balances of the first `n` accounts.
pub open spec fn sum_opening_upto(m: LedgerModel, n: int) -> int
    decreases n,
{
    if n <= 0 {
        0
    } else {
        sum_opening_upto(m, n - 1) + m.opening_balance(n - 1)
    }
}

/// Sum of the opening balances of all accounts, the bank included.
pub open spec fn sum_opening(m: LedgerModel) -> int {
    sum_opening_upto(m, m.accounts.len() as int)
}

/// Sum of the balances of the first `n` accounts.
spec fn sum_balances_upto(accs: Seq<AccountModel>, n: int) -> int
    decreases n,
{
    if n <= 0 {
        0
    } else {
        sum_balances_upto(accs, n - 1) + accs[n - 1].balance
    }
}

/// One entry's effect on the balance of the account at index `i`.
spec fn effect_at(e: TransactionEntry, i: int) -> int {
    if e.account_id as int == i {
        e.debit - e.credit
    } else {
        0
    }
}

/// Sum of one entry's effects over the account indices below `n`.
spec fn sum_effect_upto(e: TransactionEntry, n: int) -> int
    decreases n,
{
    if n <= 0 {
        0
    } else {
        sum_effect_upto(e, n - 1) + effect_at(e, n - 1)
    }
}

/// Sum of the entries' net effects over the account indices below `n`.
spec fn sum_tx_delta_upto(es: Seq<TransactionEntry>, n: int) -> int
    decreases n,
{
    if n <= 0 {
        0
    } else {
        sum_tx_delta_upto(es, n - 1) + tx_delta(es, (n - 1) as u32)
    }
}

/// Sum of the journal's net effects over the account indices below `n`.
spec fn sum_journal_delta_upto(ts: Seq<TxModel>, n: int) -> int
    decreases n,
{
    if n <= 0 {
        0
    } else {
        sum_journal_delta_upto(ts, n - 1) + journal_delta(ts, (n - 1) as u32)
    }
}

/// An entry contributes its net amount exactly once over all indices that
/// cover its account, and nothing otherwise.
proof fn lemma_sum_effect(e: TransactionEntry, n: int)
    requires
        0 <= n <= u32::MAX as int + 1,
    ensures
        sum_effect_upto(e, n) == if (e.account_id as int) < n {
            e.debit - e.credit
        } else {
            0
        },
    decreases n,
{
    if n > 0 {
        lemma_sum_effect(e, n - 1);
    }
}

/// An empty entry sequence has no effect anywhere.
proof fn lemma_sum_tx_delta_empty(es: Seq<TransactionEntry>, n: int)
    requires
        es.len() == 0,
    ensures
        sum_tx_delta_upto(es, n) == 0,
    decreases n,
{
    if n > 0 {
        lemma_sum_tx_delta_empty(es, n - 1);
    }
}

/// Summing entry effects over accounts splits off the last entry.
proof fn lemma_sum_tx_delta_split(es: Seq<TransactionEntry>, n: int)
    requires
        es.len() > 0,
        0 <= n <= u32::MAX as int + 1,
    ensures
        sum_tx_delta_upto(es, n) == sum_tx_delta_upto(es.drop_last(), n) + sum_effect_upto(
            es.last(),
            n,
        ),
    decreases n,
{
    if n > 0 {
        lemma_sum_tx_delta_split(es, n - 1);
    }
}

/// Over account indices that cover every referenced account, a sequence of
/// entries moves in total exactly its debits minus its credits.
proof fn lemma_sum_tx_delta_total(es: Seq<TransactionEntry>, n: int)
    requires
        0 <= n <= u32::MAX as int + 1,
        forall|j: int| 0 <= j < es.len() ==> ((#[trigger] es[j]).account_id as int) < n,
    ensures
        sum_tx_delta_upto(es, n) == sum_debits(es) - sum_credits(es),
    decreases es.len(),
{
    if es.len() == 0 {
        lemma_sum_tx_delta_empty(es, n);
    } else {
        lemma_sum_tx_delta_split(es, n);
        lemma_sum_tx_delta_total(es.drop_last(), n);
        lemma_sum_effect(es.last(), n);
        assert(es[es.len() - 1] == es.last());
    }
}

/// An empty journal has no effect anywhere.
proof fn lemma_sum_journal_delta_empty(ts: Seq<TxModel>, n: int)
    requires
        ts.len() == 0,
    ensures
        sum_journal_delta_upto(ts, n) == 0,
    decreases n,
{
    if n > 0 {
        lemma_sum_journal_delta_empty(ts, n - 1);
    }
}

/// Summing journal effects over accounts splits off the last transaction.
proof fn lemma_sum_journal_delta_split(ts: Seq<TxModel>, n: int)
    requires
        ts.len() > 0,
    ensures
        sum_journal_delta_upto(ts, n) == sum_journal_delta_upto(ts.drop_last(), n)
            + sum_tx_delta_upto(ts.last().entries, n),
    decreases n,
{
    if n > 0 {
        lemma_sum_journal_delta_split(ts, n - 1);
    }
}

/// A journal of balanced transactions that reference only accounts below
/// `n` moves no money in total: every debit is someone's credit.
proof fn lemma_sum_journal_delta_zero(ts: Seq<TxModel>, n: int)
    requires
        0 <= n <= u32::MAX as int + 1,
        forall|k: int| 0 <= k < ts.len() ==> balanced((#[trigger] ts[k]).entries),
        forall|k: int, j: int|
            0 <= k < ts.len() && 0 <= j < ts[k].entries.len()
                ==> ((#[trigger] ts[k].entries[j]).account_id as int) < n,
    ensures
        sum_journal_delta_upto(ts, n) == 0,
    decreases ts.len(),
{
    if ts.len() == 0 {
        lemma_sum_journal_delta_empty(ts, n);
    } else {
        lemma_sum_journal_delta_split(ts, n);
        assert(ts[ts.len() - 1] == ts.last());
        assert forall|k: int, j: int|
            0 <= k < ts.drop_last().len() && 0 <= j
                < ts.drop_last()[k].entries.len() implies ((#[trigger] ts.drop_last()[k].entries[j]).account_id as int)
            < n by {
            assert(ts.drop_last()[k] == ts[k]);
        }
        lemma_sum_journal_delta_zero(ts.drop_last(), n);
        assert forall|j: int|
            0 <= j < ts.last().entries.len() implies ((#[trigger] ts.last().entries[j]).account_id as int)
            < n by {
            assert(ts.last().entries[j] == ts[ts.len() - 1].entries[j]);
        }
        lemma_sum_tx_delta_total(ts.last().entries, n);
    }
}

/// Each balance is its opening balance plus the journal's net effect, so
/// their sums agree too.
proof fn lemma_sum_balances_decompose(m: LedgerModel, n: int)
    requires
        m.wf(),
        0 <= n <= m.accounts.len(),
    ensures
        sum_balances_upto(m.accounts, n) == sum_opening_upto(m, n) + sum_journal_delta_upto(
            m.txs,
            n,
        ),
    decreases n,
{
    if n > 0 {
        lemma_sum_balances_decompose(m, n - 1);
        assert(m.accounts[n - 1].id == (n - 1) as u32);
    }
}

/// Under well-formedness the bank sits exactly at index 0, so the non-bank
/// sum is the whole sum less the bank's balance.
proof fn lemma_sum_except_bank(m: LedgerModel, n: int)
    requires
        m.wf(),
        1 <= n <= m.accounts.len(),
    ensures
        sum_balances_except_upto(m.accounts, 0, n) == sum_balances_upto(m.accounts, n)
            - m.accounts[0].balance,
    decreases n,
{
    if n == 1 {
        assert(m.accounts[0].id == 0);
        assert(sum_balances_except_upto(m.accounts, 0, 0) == 0);
        assert(sum_balances_upto(m.accounts, 0) == 0);
    } else {
        lemma_sum_except_bank(m, n - 1);
        assert(m.accounts[n - 1].id == (n - 1) as u32);
        assert(n - 1 <= u32::MAX as int);
        assert((n - 1) as u32 as int == n - 1);
        assert(m.accounts[n - 1].id != 0);
    }
}

/// Law: at any point in time each account's balance decomposes as its
/// opening balance plus every debit posted against it minus every credit:
/// `balance == opening_balance + journal_delta`.  The posting operations
/// preserve each account's opening balance and `create_account` fixes it at
/// the requested initial balance, so this decomposition ties every balance
/// to the journal.
pub proof fn lemma_balance_decomposition(m: LedgerModel, i: int)
    requires
        m.wf(),
        0 <= i < m.accounts.len(),
    ensures
        m.accounts[i].balance == m.opening_balance(i) + journal_delta(m.txs, m.accounts[i].id),
{
}

/// Law: the ledger is a closed system.  When the accounts were opened with
/// nothing in aggregate (`sum_opening == 0`, as for a ledger funded only by
/// deposits), the total user assets equal the negation of the bank
/// account's balance: money is created only by crediting the bank.
pub proof fn lemma_total_assets_conservation(m: LedgerModel)
    requires
        m.wf(),
        m.journal_balanced(),
        sum_opening(m) == 0,
    ensures
        spec_total_assets(m) == -m.accounts[0].balance,
{
    let n = m.accounts.len() as int;
    lemma_sum_except_bank(m, n);
    lemma_sum_balances_decompose(m, n);
    lemma_sum_journal_delta_zero(m.txs, n);
}

/// Law: a deposit followed by a withdrawal of the same amount on the same
/// account returns every balance — the account's and the bank's included —
/// to its pre-deposit value, and the two commits take consecutive
/// transaction ids with no gap.
pub proof fn lemma_deposit_then_withdraw(
    l0: LedgerModel,
    l1: LedgerModel,
    l2: LedgerModel,
    d0: Option<Seq<char>>,
    d1: Option<Seq<char>>,
    id: u32,
    amount: Kobo,
    t1: u64,
    t2: u64,
)
    requires
        l0.wf(),
        committed_at_some_time(l0, l1, d0, deposit_entries(id, amount, l0.bank_account_id), t1),
        committed_at_some_time(l1, l2, d1, withdraw_entries(id, amount, l1.bank_account_id), t2),
    ensures
        l2.accounts.len() == l0.accounts.len(),
        forall|i: int|
            0 <= i < l0.accounts.len() ==> (#[trigger] l2.accounts[i]).balance
                == l0.accounts[i].balance,
        t2 == t1 + 1,
        l2.txs.len() == l0.txs.len() + 2,
        l2.txs[l0.txs.len() as int].id == t1,
        l2.txs[l0.txs.len() as int + 1].id == t2,
{
    let e0 = TransactionEntry { account_id: id, debit: amount, credit: 0 };
    let e1 = TransactionEntry { account_id: l0.bank_account_id, debit: 0, credit: amount };
    let f0 = TransactionEntry { account_id: id, debit: 0, credit: amount };
    let f1 = TransactionEntry { account_id: l1.bank_account_id, debit: amount, credit: 0 };
    let ts1 = choose|ts: i64|
        committed(l0, l1, d0, deposit_entries(id, amount, l0.bank_account_id), t1, ts);
    let ts2 = choose|ts: i64|
        committed(l1, l2, d1, withdraw_entries(id, amount, l1.bank_account_id), t2, ts);
    assert(deposit_entries(id, amount, l0.bank_account_id) =~= seq![e0, e1]);
    assert(withdraw_entries(id, amount, l1.bank_account_id) =~= seq![f0, f1]);
    lemma_pair_posting_balances(l0, l1, d0, e0, e1, t1);
    lemma_pair_posting_balances(l1, l2, d1, f0, f1, t2);
}

/// The ASCII decimal digits of `n`, most significant first, no leading
/// zeros.
pub open spec fn dec_digit_bytes(n: nat) -> Seq<u8>
    decreases n,
{
    if n < 10 {
        seq![(0x30 + n) as u8]
    } else {
        dec_digit_bytes(n / 10) + seq![(0x30 + (n % 10)) as u8]
    }
}

/// The exact rendering of a kobo amount as naira text — the naira sign
/// U+20A6 (three UTF-8 bytes), a minus sign for negative amounts, the
/// whole-naira digits, a dot, and exactly two kobo digits — as UTF-8 bytes.
pub open spec fn naira_utf8(k: i64) -> Seq<u8> {
    let a = if k < 0 {
        -(k as int)
    } else {
        k as int
    };
    encode_utf8(seq!['\u{20a6}']) + (if k < 0 {
        seq![0x2du8]
    } else {
        Seq::<u8>::empty()
    }) + dec_digit_bytes((a / 100) as nat) + seq![0x2eu8] + seq![
        (0x30 + ((a % 100) / 10)) as u8,
        (0x30 + (a % 10)) as u8,
    ]
}

/// Decimal digits are ASCII.
proof fn lemma_dec_digit_bytes_ascii(n: nat)
    ensures
        forall|i: int|
            0 <= i < dec_digit_bytes(n).len() ==> 0x30 <= #[trigger] dec_digit_bytes(n)[i]
                < 0x3a,
    decreases n,
{
    if n >= 10 {
        lemma_dec_digit_bytes_ascii(n / 10);
    }
    assert forall|i: int|
        0 <= i < dec_digit_bytes(n).len() implies 0x30 <= #[trigger] dec_digit_bytes(n)[i]
        < 0x3a by {
        if n < 10 {
            assert(dec_digit_bytes(n)[i] == (0x30 + n) as u8);
        } else if i < dec_digit_bytes((n / 10) as nat).len() {
            assert(dec_digit_bytes(n)[i] == dec_digit_bytes((n / 10) as nat)[i]);
        } else {
            assert(dec_digit_bytes(n)[i] == (0x30 + (n % 10)) as u8);
        }
    }
}

/// A sequence of ASCII bytes is valid UTF-8.
proof fn lemma_ascii_valid(bs: Seq<u8>)
    requires
        forall|i: int| 0 <= i < bs.len() ==> #[trigger] bs[i] < 0x80,
    ensures
        valid_utf8(bs),
{
    assert(bs.subrange(0, 0) =~= Seq::<u8>::empty());
    assert(partial_valid_utf8(bs, 0));
    assert forall|i: int| 0 <= 0 <= i < bs.len() <= bs.len() implies #[trigger] is_leading_byte_width_1(
        bs[i],
    ) by {
        let b = bs[i];
        assert(b < 0x80 ==> b >> 7 == 0) by (bit_vector);
    }
    partial_valid_utf8_extend_ascii_block(bs, 0, bs.len() as int);
    assert(bs.subrange(0, bs.len() as int) =~= bs);
}

/// Appends the decimal digits of `n`.
fn push_decimal(v: &mut Vec<u8>, n: u64)
    ensures
        final(v)@ == old(v)@ + dec_digit_bytes(n as nat),
    decreases n,
{
    if n < 10 {
        v.push(0x30 + n as u8);
        proof {
            assert(final(v)@ =~= old(v)@ + dec_digit_bytes(n as nat));
        }
    } else {
        push_decimal(v, n / 10);
        v.push(0x30 + (n % 10) as u8);
        proof {
            assert(final(v)@ =~= old(v)@ + dec_digit_bytes(n as nat));
        }
    }
}

/// Renders a kobo amount as naira text, e.g. "₦12.50" or "₦-0.75": the
/// amount divided into whole naira and a two-digit kobo part, in exact
/// integer arithmetic.
pub fn format_naira(k: Kobo) -> (r: String)
    ensures
        encode_utf8(r@) == naira_utf8(k),
{
    let mut tail: Vec<u8> = Vec::new();
    if k < 0 {
        tail.push(0x2d);
    }
    let a: u64 = if k < 0 {
        (-(k as i128)) as u64
    } else {
        k as u64
    };
    push_decimal(&mut tail, a / 100);
    tail.push(0x2e);
    tail.push(0x30 + ((a % 100) / 10) as u8);
    tail.push(0x30 + (a % 10) as u8);
    proof {
        let av = if k < 0 {
            -(k as int)
        } else {
            k as int
        };
        assert(a == av);
        assert(tail@ =~= (if k < 0 {
            seq![0x2du8]
        } else {
            Seq::<u8>::empty()
        }) + dec_digit_bytes((av / 100) as nat) + seq![0x2eu8] + seq![
            (0x30 + ((av % 100) / 10)) as u8,
            (0x30 + (av % 10)) as u8,
        ]);
        lemma_dec_digit_bytes_ascii((av / 100) as nat);
        assert forall|i: int| 0 <= i < tail@.len() implies #[trigger] tail@[i] < 0x80 by {}
        lemma_ascii_valid(tail@);
    }
    let ghost tail_v = tail@;
    let sign: &str = "\u{20a6}";
    proof {
        reveal_strlit("\u{20a6}");
        assert(sign@ =~= seq!['\u{20a6}']);
    }
    let mut bytes: Vec<u8> = slice_to_vec(sign.as_bytes());
    bytes.append(&mut tail);
    proof {
        encode_utf8_valid_utf8(seq!['\u{20a6}']);
        valid_utf8_concat(encode_utf8(seq!['\u{20a6}']), tail_v);
        assert(bytes@ =~= encode_utf8(seq!['\u{20a6}']) + tail_v);
        assert(bytes@ =~= naira_utf8(k));
    }
    match crate::codec::string_from_utf8(bytes) {
        Some(s) => s,
        None => {
            proof {
                assert(false);
            }
            String::new()
        },
    }
}

} // verus!
