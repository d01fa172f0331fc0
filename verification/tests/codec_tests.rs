use ledger_core::currency::Currency;
use ledger_core::errors::LedgerError;
use ledger_core::ledger::Ledger;

fn sample_ledger() -> Ledger {
    let mut l = Ledger::new();
    let a = l.create_account("Zo\u{eb} \u{20a6}holder".to_string(), 0, Currency::NGN).unwrap();
    let b = l.create_account("Ben".to_string(), 2500, Currency::USD).unwrap();
    l.deposit(a, 1000, Some("first".to_string())).unwrap();
    l.withdraw(b, 500, None).unwrap();
    l.transfer(b, a, 300, Some("pay".to_string())).unwrap();
    let c = l.create_account("Temp".to_string(), 0, Currency::EUR).unwrap();
    l.close_account(c).unwrap();
    l
}

#[test]
fn snapshot_round_trip_preserves_everything() {
    let l = sample_ledger();
    let bytes = l.serialize();
    let l2 = Ledger::deserialize(&bytes).unwrap();
    assert_eq!(l2.accounts.len(), l.accounts.len());
    for (a, b) in l.accounts.iter().zip(l2.accounts.iter()) {
        assert_eq!(a.id, b.id);
        assert_eq!(a.owner, b.owner);
        assert_eq!(a.balance, b.balance);
        assert_eq!(a.closed, b.closed);
        assert_eq!(a.currency, b.currency);
    }
    assert_eq!(l2.transactions.len(), l.transactions.len());
    for (s, t) in l.transactions.iter().zip(l2.transactions.iter()) {
        assert_eq!(s.id, t.id);
        assert_eq!(s.description, t.description);
        assert_eq!(s.timestamp, t.timestamp);
        assert_eq!(s.entries.len(), t.entries.len());
        for (e, f) in s.entries.iter().zip(t.entries.iter()) {
            assert_eq!(e.account_id, f.account_id);
            assert_eq!(e.debit, f.debit);
            assert_eq!(e.credit, f.credit);
        }
    }
    assert_eq!(l2.next_account_id, l.next_account_id);
    assert_eq!(l2.next_tx_id, l.next_tx_id);
    assert_eq!(l2.bank_account_id, l.bank_account_id);
}

#[test]
fn restored_ledger_keeps_working() {
    let l = sample_ledger();
    let bytes = l.serialize();
    let mut l2 = Ledger::deserialize(&bytes).unwrap();
    let a = l2.find_account_by_owner("Zo\u{eb} \u{20a6}holder").unwrap().id;
    let before = l2.get_balance(a).unwrap();
    l2.deposit(a, 70, None).unwrap();
    assert_eq!(l2.get_balance(a), Some(before + 70));
    // the next transaction id carries on from the snapshot with no reuse
    assert_eq!(l2.transactions.last().unwrap().id, l.next_tx_id);
}

#[test]
fn serialization_is_deterministic() {
    let l = sample_ledger();
    assert_eq!(l.serialize(), l.serialize());
}

#[test]
fn empty_ledger_round_trips() {
    let l = Ledger::new();
    let l2 = Ledger::deserialize(&l.serialize()).unwrap();
    assert_eq!(l2.accounts.len(), 1);
    assert_eq!(l2.accounts[0].owner, "BANK");
    assert_eq!(l2.next_account_id, 1);
    assert_eq!(l2.next_tx_id, 1);
}

fn expect_malformed(r: Result<Ledger, LedgerError>) {
    match r {
        Ok(_) => panic!("malformed snapshot was accepted"),
        Err(e) => assert_eq!(e, LedgerError::MalformedSnapshot),
    }
}

#[test]
fn garbage_is_rejected() {
    expect_malformed(Ledger::deserialize(b"not a snapshot"));
    expect_malformed(Ledger::deserialize(&[]));
}

#[test]
fn truncated_snapshot_is_rejected() {
    let l = sample_ledger();
    let bytes = l.serialize();
    let cut = &bytes[..bytes.len() - 3];
    expect_malformed(Ledger::deserialize(cut));
}

#[test]
fn trailing_bytes_are_rejected() {
    let l = Ledger::new();
    let mut bytes = l.serialize();
    bytes.push(0);
    expect_malformed(Ledger::deserialize(&bytes));
}

#[test]
fn corrupt_structure_is_rejected() {
    let l = sample_ledger();
    let mut bytes = l.serialize();
    // damage the magic header
    bytes[0] ^= 0xff;
    expect_malformed(Ledger::deserialize(&bytes));
}

#[test]
fn snapshot_with_a_closed_bank_is_rejected() {
    let l = Ledger::new();
    let mut bytes = l.serialize();
    // account 0's closed flag sits after the magic (4), the account count
    // (8), the account id (4), the length-prefixed owner "BANK" (8 + 4) and
    // the balance (8)
    assert_eq!(bytes[36], 0);
    bytes[36] = 1;
    expect_malformed(Ledger::deserialize(&bytes));
}
