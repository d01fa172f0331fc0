use ledger_core::currency::Currency;
use ledger_core::errors::LedgerError;
use ledger_core::ledger::{format_naira, Ledger};
use ledger_core::transaction::TransactionEntry;

#[test]
fn new_ledger_has_only_the_bank_account() {
    let l = Ledger::new();
    assert_eq!(l.accounts.len(), 1);
    assert_eq!(l.accounts[0].id, 0);
    assert_eq!(l.accounts[0].owner, "BANK");
    assert_eq!(l.accounts[0].balance, 0);
    assert!(!l.accounts[0].closed);
    assert_eq!(l.next_account_id, 1);
    assert_eq!(l.next_tx_id, 1);
    assert_eq!(l.bank_account_id, 0);
    assert_eq!(l.transactions.len(), 0);
}

#[test]
fn first_deposit_scenario() {
    let mut l = Ledger::new();
    let id = l.create_account("Alice".to_string(), 0, Currency::NGN).unwrap();
    assert_eq!(id, 1);
    let tx = l.deposit(1, 1000, Some("first".to_string())).unwrap();
    assert_eq!(tx, 1);
    assert_eq!(l.get_balance(1), Some(1000));
    assert_eq!(l.get_balance(0), Some(-1000));
}

#[test]
fn withdraw_scenario() {
    let mut l = Ledger::new();
    let id = l.create_account("Bob".to_string(), 2000, Currency::NGN).unwrap();
    assert_eq!(id, 1);
    let r = l.withdraw(id, 500, Some("atm".to_string()));
    assert!(r.is_ok());
    assert_eq!(l.get_balance(id), Some(1500));
    let r2 = l.withdraw(id, 100000, None);
    assert_eq!(r2.unwrap_err(), LedgerError::InsufficientFunds);
    assert_eq!(l.get_balance(id), Some(1500));
}

#[test]
fn transfer_scenario() {
    let mut l = Ledger::new();
    let alice = l.create_account("Alice".to_string(), 1000, Currency::NGN).unwrap();
    let bob = l.create_account("Bob".to_string(), 500, Currency::NGN).unwrap();
    let r = l.transfer(alice, bob, 300, Some("pay".to_string()));
    assert!(r.is_ok());
    assert_eq!(l.get_balance(alice), Some(700));
    assert_eq!(l.get_balance(bob), Some(800));
    let r2 = l.transfer(alice, alice, 1, None);
    assert_eq!(r2.unwrap_err(), LedgerError::SelfTransfer);
}

#[test]
fn unbalanced_transaction_rejected() {
    let mut l = Ledger::new();
    l.create_account("Alice".to_string(), 0, Currency::NGN).unwrap();
    let entries = vec![TransactionEntry { account_id: 1, debit: 100, credit: 0 }];
    let r = l.record_transaction(None, entries);
    assert_eq!(
        r.unwrap_err(),
        LedgerError::UnbalancedTransaction { debit_sum: 100, credit_sum: 0 }
    );
    assert_eq!(l.get_balance(1), Some(0));
    assert_eq!(l.transactions.len(), 0);
}

#[test]
fn close_account_scenario() {
    let mut l = Ledger::new();
    let a = l.create_account("Ada".to_string(), 0, Currency::USD).unwrap();
    assert!(l.close_account(a).is_ok());
    assert!(l.accounts[a as usize].closed);
    assert_eq!(l.deposit(a, 10, None).unwrap_err(), LedgerError::AccountClosed);
    let b = l.create_account("Ben".to_string(), 50, Currency::USD).unwrap();
    assert_eq!(l.close_account(b).unwrap_err(), LedgerError::NonZeroBalance);
    // a transfer toward the closed account fails at validation
    assert_eq!(l.transfer(b, a, 10, None).unwrap_err(), LedgerError::AccountClosed);
    // a withdrawal from the closed (necessarily empty) account trips the
    // funds check first
    assert_eq!(l.withdraw(a, 1, None).unwrap_err(), LedgerError::InsufficientFunds);
}

#[test]
fn the_bank_account_can_never_be_closed() {
    let mut l = Ledger::new();
    // the bank balance is zero here, yet the close is refused
    assert_eq!(l.close_account(0).unwrap_err(), LedgerError::ReservedAccount);
    assert!(!l.accounts[0].closed);
    // the engine keeps working: deposits still post against the bank
    let a = l.create_account("Ada".to_string(), 0, Currency::NGN).unwrap();
    assert!(l.deposit(a, 100, None).is_ok());
    assert_eq!(l.get_balance(0), Some(-100));
}

#[test]
fn close_twice_is_accepted() {
    let mut l = Ledger::new();
    let a = l.create_account("Ada".to_string(), 0, Currency::EUR).unwrap();
    assert!(l.close_account(a).is_ok());
    assert!(l.close_account(a).is_ok());
    assert!(l.accounts[a as usize].closed);
}

#[test]
fn operations_on_unknown_accounts_fail() {
    let mut l = Ledger::new();
    assert_eq!(l.get_balance(99), None);
    assert_eq!(l.deposit(99, 10, None).unwrap_err(), LedgerError::AccountNotFound);
    assert_eq!(l.withdraw(99, 10, None).unwrap_err(), LedgerError::AccountNotFound);
    assert_eq!(l.transfer(99, 0, 10, None).unwrap_err(), LedgerError::AccountNotFound);
    assert_eq!(l.close_account(99).unwrap_err(), LedgerError::AccountNotFound);
}

#[test]
fn empty_transaction_rejected() {
    let mut l = Ledger::new();
    let r = l.record_transaction(Some("nothing".to_string()), vec![]);
    assert_eq!(r.unwrap_err(), LedgerError::EmptyTransaction);
}

#[test]
fn balance_overflow_aborts_whole_posting() {
    let mut l = Ledger::new();
    let a = l.create_account("Max".to_string(), i64::MAX, Currency::GBP).unwrap();
    let r = l.deposit(a, 1, None);
    assert_eq!(r.unwrap_err(), LedgerError::BalanceOverflow);
    // atomicity: neither side moved, nothing was journaled
    assert_eq!(l.get_balance(a), Some(i64::MAX));
    assert_eq!(l.get_balance(0), Some(0));
    assert_eq!(l.transactions.len(), 0);
}

#[test]
fn deposit_does_not_check_the_sign() {
    let mut l = Ledger::new();
    let a = l.create_account("Ada".to_string(), 100, Currency::NGN).unwrap();
    // a zero or negative deposit is still balanced and goes through
    assert!(l.deposit(a, 0, None).is_ok());
    assert!(l.deposit(a, -40, None).is_ok());
    assert_eq!(l.get_balance(a), Some(60));
    assert_eq!(l.get_balance(0), Some(40));
    // withdraw and transfer, by contrast, reject non-positive amounts
    assert_eq!(l.withdraw(a, -1, None).unwrap_err(), LedgerError::InvalidAmount);
    assert_eq!(l.transfer(a, 0, 0, None).unwrap_err(), LedgerError::InvalidAmount);
}

#[test]
fn deposit_then_withdraw_restores_the_balance() {
    let mut l = Ledger::new();
    let a = l.create_account("Ada".to_string(), 500, Currency::NGN).unwrap();
    let t1 = l.deposit(a, 250, None).unwrap();
    let t2 = l.withdraw(a, 250, None).unwrap();
    assert_eq!(t2, t1 + 1);
    assert_eq!(l.get_balance(a), Some(500));
    assert_eq!(l.get_balance(0), Some(0));
}

#[test]
fn transaction_ids_increase_by_one_with_no_gaps() {
    let mut l = Ledger::new();
    let a = l.create_account("Ada".to_string(), 0, Currency::NGN).unwrap();
    let b = l.create_account("Ben".to_string(), 0, Currency::NGN).unwrap();
    assert_eq!(l.deposit(a, 100, None).unwrap(), 1);
    assert_eq!(l.deposit(b, 100, None).unwrap(), 2);
    assert_eq!(l.transfer(a, b, 30, None).unwrap(), 3);
    assert_eq!(l.withdraw(b, 20, None).unwrap(), 4);
    for (k, tx) in l.transactions.iter().enumerate() {
        assert_eq!(tx.id, (k as u64) + 1);
    }
    assert_eq!(l.next_tx_id, 5);
}

#[test]
fn journal_is_append_only_and_balanced() {
    let mut l = Ledger::new();
    let a = l.create_account("Ada".to_string(), 0, Currency::NGN).unwrap();
    l.deposit(a, 100, None).unwrap();
    l.withdraw(a, 40, None).unwrap();
    for tx in &l.transactions {
        let debits: i64 = tx.entries.iter().map(|e| e.debit).sum();
        let credits: i64 = tx.entries.iter().map(|e| e.credit).sum();
        assert_eq!(debits, credits);
    }
}

#[test]
fn multi_entry_transaction_applies_every_leg() {
    let mut l = Ledger::new();
    let a = l.create_account("Ada".to_string(), 100, Currency::NGN).unwrap();
    let b = l.create_account("Ben".to_string(), 100, Currency::NGN).unwrap();
    let entries = vec![
        TransactionEntry { account_id: a, debit: 0, credit: 30 },
        TransactionEntry { account_id: b, debit: 20, credit: 0 },
        TransactionEntry { account_id: 0, debit: 10, credit: 0 },
    ];
    let tx = l.record_transaction(Some("split".to_string()), entries).unwrap();
    assert_eq!(tx, 1);
    assert_eq!(l.get_balance(a), Some(70));
    assert_eq!(l.get_balance(b), Some(120));
    assert_eq!(l.get_balance(0), Some(10));
}

#[test]
fn total_assets_mirrors_the_bank_balance() {
    let mut l = Ledger::new();
    let a = l.create_account("Ada".to_string(), 0, Currency::NGN).unwrap();
    let b = l.create_account("Ben".to_string(), 0, Currency::NGN).unwrap();
    l.deposit(a, 700, None).unwrap();
    l.deposit(b, 300, None).unwrap();
    l.withdraw(a, 200, None).unwrap();
    assert_eq!(l.total_assets(), 800);
    assert_eq!(l.get_balance(0), Some(-800));
}

#[test]
fn richest_account_ignores_the_bank() {
    let mut l = Ledger::new();
    assert!(l.richest_account().is_none());
    let a = l.create_account("Ada".to_string(), 50, Currency::NGN).unwrap();
    let b = l.create_account("Ben".to_string(), 900, Currency::NGN).unwrap();
    l.deposit(a, 100, None).unwrap();
    // the bank now holds -100, Ada 150, Ben 900
    let rich = l.richest_account().unwrap();
    assert_eq!(rich.id, b);
    assert_eq!(rich.balance, 900);
}

#[test]
fn find_account_by_owner_matches_exactly() {
    let mut l = Ledger::new();
    l.create_account("Ada".to_string(), 0, Currency::NGN).unwrap();
    l.create_account("Ben".to_string(), 0, Currency::NGN).unwrap();
    l.create_account("Ada".to_string(), 0, Currency::NGN).unwrap();
    let found = l.find_account_by_owner("Ada").unwrap();
    assert_eq!(found.id, 1);
    assert!(l.find_account_by_owner("ada").is_none());
    assert!(l.find_account_by_owner("Cleo").is_none());
    assert_eq!(l.find_account_by_owner("BANK").unwrap().id, 0);
}

#[test]
fn transactions_for_account_filters_in_journal_order() {
    let mut l = Ledger::new();
    let a = l.create_account("Ada".to_string(), 0, Currency::NGN).unwrap();
    let b = l.create_account("Ben".to_string(), 0, Currency::NGN).unwrap();
    l.deposit(a, 100, None).unwrap();
    l.deposit(b, 200, None).unwrap();
    l.transfer(a, b, 50, None).unwrap();
    let for_a = l.transactions_for_account(a);
    assert_eq!(for_a.len(), 2);
    assert_eq!(for_a[0].id, 1);
    assert_eq!(for_a[1].id, 3);
    let for_b = l.transactions_for_account(b);
    assert_eq!(for_b.len(), 2);
    assert_eq!(for_b[0].id, 2);
    assert_eq!(for_b[1].id, 3);
    // every deposit and withdrawal also touches the bank
    let for_bank = l.transactions_for_account(0);
    assert_eq!(for_bank.len(), 2);
    assert!(l.transactions_for_account(42).is_empty());
}

#[test]
fn format_naira_renders_exact_amounts() {
    assert_eq!(format_naira(1250), "₦12.50");
    assert_eq!(format_naira(0), "₦0.00");
    assert_eq!(format_naira(-75), "₦-0.75");
    assert_eq!(format_naira(-1), "₦-0.01");
    assert_eq!(format_naira(100050), "₦1000.50");
    assert_eq!(format_naira(5), "₦0.05");
    assert_eq!(format_naira(-123456), "₦-1234.56");
}

#[test]
fn format_naira_handles_the_extreme_amount() {
    assert_eq!(format_naira(i64::MIN), "₦-92233720368547758.08");
    assert_eq!(format_naira(i64::MAX), "₦92233720368547758.07");
}

#[test]
fn deposit_into_the_bank_itself_nets_to_zero() {
    let mut l = Ledger::new();
    let tx = l.deposit(0, 500, None).unwrap();
    assert_eq!(tx, 1);
    assert_eq!(l.get_balance(0), Some(0));
    assert_eq!(l.transactions.len(), 1);
}
