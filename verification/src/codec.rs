use vstd::prelude::*;

use vstd::bytes::{
    lemma_auto_spec_u32_to_from_le_bytes, lemma_auto_spec_u64_to_from_le_bytes,
    spec_u32_from_le_bytes, spec_u32_to_le_bytes, spec_u64_from_le_bytes, spec_u64_to_le_bytes,
    u32_from_le_bytes, u32_to_le_bytes, u64_from_le_bytes, u64_to_le_bytes,
};
use vstd::slice::{slice_subrange, slice_to_vec};
use vstd::utf8::{
    decode_utf8, encode_utf8, encode_utf8_decode_utf8, encode_utf8_valid_utf8, valid_utf8,
};

use crate::account::{Account, AccountModel};
use crate::currency::Currency;
use crate::errors::LedgerError;
use crate::ledger::{Ledger, LedgerModel};
use crate::transaction::{Transaction, TransactionEntry, TxModel};

verus! {

// ----------------------------------------------------------------------------
// The snapshot format.
//
// A snapshot is the magic header "LDGR" followed by the five fields of the
// ledger in order: the account registry and the journal, each as a u64 count
// followed by that many records, then the two id counters and the bank
// account id.  Integers are little-endian and fixed-width; i64 values travel
// as their two's-complement u64 bit pattern; strings are a u64 byte count
// followed by their UTF-8 bytes; an optional string is a one-byte tag (0 or
// 1) followed, when present, by the string.  The encoding is canonical, so
// decoding is its exact inverse.
// ----------------------------------------------------------------------------
/// The four magic bytes "LDGR" opening every snapshot.
pub open spec fn magic_bytes() -> Seq<u8> {
    seq![0x4cu8, 0x44u8, 0x47u8, 0x52u8]
}

pub open spec fn enc_i64(x: i64) -> Seq<u8> {
    spec_u64_to_le_bytes(x as u64)
}

pub open spec fn enc_bool(b: bool) -> Seq<u8> {
    seq![if b { 1u8 } else { 0u8 }]
}

pub open spec fn currency_tag(c: Currency) -> u8 {
    match c {
        Currency::NGN => 0,
        Currency::USD => 1,
        Currency::EUR => 2,
        Currency::GBP => 3,
    }
}

pub open spec fn enc_currency(c: Currency) -> Seq<u8> {
    seq![currency_tag(c)]
}

pub open spec fn enc_str(s: Seq<char>) -> Seq<u8> {
    spec_u64_to_le_bytes(encode_utf8(s).len() as u64) + encode_utf8(s)
}

pub open spec fn enc_opt_str(d: Option<Seq<char>>) -> Seq<u8> {
    match d {
        None => seq![0u8],
        Some(s) => seq![1u8] + enc_str(s),
    }
}

pub open spec fn enc_entry(e: TransactionEntry) -> Seq<u8> {
    spec_u32_to_le_bytes(e.account_id) + enc_i64(e.debit) + enc_i64(e.credit)
}

pub open spec fn enc_entries(es: Seq<TransactionEntry>) -> Seq<u8>
    decreases es.len(),
{
    if es.len() == 0 {
        Seq::empty()
    } else {
        enc_entry(es.first()) + enc_entries(es.drop_first())
    }
}

pub open spec fn enc_account(a: AccountModel) -> Seq<u8> {
    spec_u32_to_le_bytes(a.id) + enc_str(a.owner) + enc_i64(a.balance) + enc_bool(a.closed)
        + enc_currency(a.currency)
}

pub open spec fn enc_accounts(accs: Seq<AccountModel>) -> Seq<u8>
    decreases accs.len(),
{
    if accs.len() == 0 {
        Seq::empty()
    } else {
        enc_account(accs.first()) + enc_accounts(accs.drop_first())
    }
}

pub open spec fn enc_tx(t: TxModel) -> Seq<u8> {
    spec_u64_to_le_bytes(t.id) + enc_opt_str(t.description) + spec_u64_to_le_bytes(
        t.entries.len() as u64,
    ) + enc_entries(t.entries) + enc_i64(t.timestamp)
}

pub open spec fn enc_txs(ts: Seq<TxModel>) -> Seq<u8>
    decreases ts.len(),
{
    if ts.len() == 0 {
        Seq::empty()
    } else {
        enc_tx(ts.first()) + enc_txs(ts.drop_first())
    }
}

/// The full snapshot encoding of a ledger model.
pub open spec fn spec_encode(m: LedgerModel) -> Seq<u8> {
    magic_bytes() + spec_u64_to_le_bytes(m.accounts.len() as u64) + enc_accounts(m.accounts)
        + spec_u64_to_le_bytes(m.txs.len() as u64) + enc_txs(m.txs) + spec_u32_to_le_bytes(
        m.next_account_id,
    ) + spec_u64_to_le_bytes(m.next_tx_id) + spec_u32_to_le_bytes(m.bank_account_id)
}

// ----------------------------------------------------------------------------
// The decoder, as a mathematical function: each piece consumes bytes of `b`
// starting at `pos` and yields the decoded value with the position after it,
// or `None` when the bytes are not an encoding.
// ----------------------------------------------------------------------------
pub open spec fn dec_u8(b: Seq<u8>, pos: int) -> Option<(u8, int)> {
    if 0 <= pos && pos + 1 <= b.len() {
        Some((b[pos], pos + 1))
    } else {
        None
    }
}

pub open spec fn dec_u32(b: Seq<u8>, pos: int) -> Option<(u32, int)> {
    if 0 <= pos && pos + 4 <= b.len() {
        Some((spec_u32_from_le_bytes(b.subrange(pos, pos + 4)), pos + 4))
    } else {
        None
    }
}

pub open spec fn dec_u64(b: Seq<u8>, pos: int) -> Option<(u64, int)> {
    if 0 <= pos && pos + 8 <= b.len() {
        Some((spec_u64_from_le_bytes(b.subrange(pos, pos + 8)), pos + 8))
    } else {
        None
    }
}

pub open spec fn dec_i64(b: Seq<u8>, pos: int) -> Option<(i64, int)> {
    match dec_u64(b, pos) {
        Some((x, p)) => Some((x as i64, p)),
        None => None,
    }
}

pub open spec fn dec_bool(b: Seq<u8>, pos: int) -> Option<(bool, int)> {
    match dec_u8(b, pos) {
        Some((t, p)) => if t == 0 {
            Some((false, p))
        } else if t == 1 {
            Some((true, p))
        } else {
            None
        },
        None => None,
    }
}

pub open spec fn dec_currency(b: Seq<u8>, pos: int) -> Option<(Currency, int)> {
    match dec_u8(b, pos) {
        Some((t, p)) => if t == 0 {
            Some((Currency::NGN, p))
        } else if t == 1 {
            Some((Currency::USD, p))
        } else if t == 2 {
            Some((Currency::EUR, p))
        } else if t == 3 {
            Some((Currency::GBP, p))
        } else {
            None
        },
        None => None,
    }
}

pub open spec fn dec_str(b: Seq<u8>, pos: int) -> Option<(Seq<char>, int)> {
    match dec_u64(b, pos) {
        Some((n, p)) => if p + n <= b.len() {
            let bs = b.subrange(p, p + n);
            if valid_utf8(bs) {
                Some((decode_utf8(bs), p + n))
            } else {
                None
            }
        } else {
            None
        },
        None => None,
    }
}

pub open spec fn dec_opt_str(b: Seq<u8>, pos: int) -> Option<(Option<Seq<char>>, int)> {
    match dec_u8(b, pos) {
        Some((t, p)) => if t == 0 {
            Some((None, p))
        } else if t == 1 {
            match dec_str(b, p) {
                Some((s, p2)) => Some((Some(s), p2)),
                None => None,
            }
        } else {
            None
        },
        None => None,
    }
}

pub open spec fn dec_entry(b: Seq<u8>, pos: int) -> Option<(TransactionEntry, int)> {
    match dec_u32(b, pos) {
        Some((account_id, p1)) => match dec_i64(b, p1) {
            Some((debit, p2)) => match dec_i64(b, p2) {
                Some((credit, p3)) => Some((TransactionEntry { account_id, debit, credit }, p3)),
                None => None,
            },
            None => None,
        },
        None => None,
    }
}

pub open spec fn dec_entries(b: Seq<u8>, pos: int, count: u64) -> Option<(
    Seq<TransactionEntry>,
    int,
)>
    decreases count,
{
    if count == 0 {
        Some((Seq::empty(), pos))
    } else {
        match dec_entry(b, pos) {
            Some((e, p1)) => match dec_entries(b, p1, (count - 1) as u64) {
                Some((rest, p2)) => Some((seq![e] + rest, p2)),
                None => None,
            },
            None => None,
        }
    }
}

pub open spec fn dec_account(b: Seq<u8>, pos: int) -> Option<(AccountModel, int)> {
    match dec_u32(b, pos) {
        Some((id, p1)) => match dec_str(b, p1) {
            Some((owner, p2)) => match dec_i64(b, p2) {
                Some((balance, p3)) => match dec_bool(b, p3) {
                    Some((closed, p4)) => match dec_currency(b, p4) {
                        Some((currency, p5)) => Some(
                            (AccountModel { id, owner, balance, closed, currency }, p5),
                        ),
                        None => None,
                    },
                    None => None,
                },
                None => None,
            },
            None => None,
        },
        None => None,
    }
}

pub open spec fn dec_accounts(b: Seq<u8>, pos: int, count: u64) -> Option<(Seq<AccountModel>, int)>
    decreases count,
{
    if count == 0 {
        Some((Seq::empty(), pos))
    } else {
        match dec_account(b, pos) {
            Some((a, p1)) => match dec_accounts(b, p1, (count - 1) as u64) {
                Some((rest, p2)) => Some((seq![a] + rest, p2)),
                None => None,
            },
            None => None,
        }
    }
}

pub open spec fn dec_tx(b: Seq<u8>, pos: int) -> Option<(TxModel, int)> {
    match dec_u64(b, pos) {
        Some((id, p1)) => match dec_opt_str(b, p1) {
            Some((description, p2)) => match dec_u64(b, p2) {
                Some((n, p3)) => match dec_entries(b, p3, n) {
                    Some((entries, p4)) => match dec_i64(b, p4) {
                        Some((timestamp, p5)) => Some(
                            (TxModel { id, description, entries, timestamp }, p5),
                        ),
                        None => None,
                    },
                    None => None,
                },
                None => None,
            },
            None => None,
        },
        None => None,
    }
}

pub open spec fn dec_txs(b: Seq<u8>, pos: int, count: u64) -> Option<(Seq<TxModel>, int)>
    decreases count,
{
    if count == 0 {
        Some((Seq::empty(), pos))
    } else {
        match dec_tx(b, pos) {
            Some((t, p1)) => match dec_txs(b, p1, (count - 1) as u64) {
                Some((rest, p2)) => Some((seq![t] + rest, p2)),
                None => None,
            },
            None => None,
        }
    }
}

/// The full snapshot decoder: `Some(m)` exactly when `b` is, in its
/// entirety, the canonical encoding of the structurally well-formed ledger
/// model `m`.  No accounting invariant is re-checked: the snapshot is
/// trusted on history, only its shape and referential structure are
/// validated.
pub open spec fn spec_decode(b: Seq<u8>) -> Option<LedgerModel> {
    if b.len() < 4 || b.subrange(0, 4) != magic_bytes() {
        None
    } else {
        match dec_u64(b, 4) {
            Some((na, p1)) => match dec_accounts(b, p1, na) {
                Some((accounts, p2)) => match dec_u64(b, p2) {
                    Some((nt, p3)) => match dec_txs(b, p3, nt) {
                        Some((txs, p4)) => match dec_u32(b, p4) {
                            Some((next_account_id, p5)) => match dec_u64(b, p5) {
                                Some((next_tx_id, p6)) => match dec_u32(b, p6) {
                                    Some((bank_account_id, p7)) => {
                                        let m = LedgerModel {
                                            accounts,
                                            txs,
                                            next_account_id,
                                            next_tx_id,
                                            bank_account_id,
                                        };
                                        if p7 == b.len() && m.wf() {
                                            Some(m)
                                        } else {
                                            None
                                        }
                                    },
                                    None => None,
                                },
                                None => None,
                            },
                            None => None,
                        },
                        None => None,
                    },
                    None => None,
                },
                None => None,
            },
            None => None,
        }
    }
}

// ----------------------------------------------------------------------------
// Round trip: decoding an encoding yields the encoded value.  Each lemma is
// stated over a window of a larger buffer so the pieces chain.
// ----------------------------------------------------------------------------
/// A window holding a concatenation splits into windows of the two parts.
proof fn lemma_subrange_split(b: Seq<u8>, pos: int, s1: Seq<u8>, s2: Seq<u8>)
    requires
        0 <= pos,
        pos + s1.len() + s2.len() <= b.len(),
        b.subrange(pos, pos + s1.len() + s2.len()) == s1 + s2,
    ensures
        b.subrange(pos, pos + s1.len() as int) == s1,
        b.subrange(pos + s1.len() as int, pos + s1.len() + s2.len()) == s2,
{
    let whole = b.subrange(pos, pos + s1.len() + s2.len());
    assert forall|i: int| 0 <= i < s1.len() implies b.subrange(pos, pos + s1.len() as int)[i]
        == s1[i] by {
        assert(whole[i] == (s1 + s2)[i]);
    }
    assert(b.subrange(pos, pos + s1.len() as int) =~= s1);
    assert forall|i: int|
        0 <= i < s2.len() implies b.subrange(
        pos + s1.len() as int,
        pos + s1.len() + s2.len(),
    )[i] == s2[i] by {
        assert(whole[s1.len() + i] == (s1 + s2)[s1.len() + i]);
    }
    assert(b.subrange(pos + s1.len() as int, pos + s1.len() + s2.len()) =~= s2);
}

proof fn lemma_dec_u32_enc(b: Seq<u8>, pos: int, x: u32)
    requires
        0 <= pos,
        pos + 4 <= b.len(),
        b.subrange(pos, pos + 4) == spec_u32_to_le_bytes(x),
    ensures
        dec_u32(b, pos) == Some((x, pos + 4)),
{
    lemma_auto_spec_u32_to_from_le_bytes();
    assert(spec_u32_to_le_bytes(x).len() == 4);
}

proof fn lemma_dec_u64_enc(b: Seq<u8>, pos: int, x: u64)
    requires
        0 <= pos,
        pos + 8 <= b.len(),
        b.subrange(pos, pos + 8) == spec_u64_to_le_bytes(x),
    ensures
        dec_u64(b, pos) == Some((x, pos + 8)),
{
    lemma_auto_spec_u64_to_from_le_bytes();
}

proof fn lemma_dec_i64_enc(b: Seq<u8>, pos: int, x: i64)
    requires
        0 <= pos,
        pos + 8 <= b.len(),
        b.subrange(pos, pos + 8) == enc_i64(x),
    ensures
        dec_i64(b, pos) == Some((x, pos + 8)),
{
    lemma_dec_u64_enc(b, pos, x as u64);
    assert(((x as u64) as i64) == x) by (bit_vector);
}

proof fn lemma_dec_bool_enc(b: Seq<u8>, pos: int, v: bool)
    requires
        0 <= pos,
        pos + 1 <= b.len(),
        b.subrange(pos, pos + 1) == enc_bool(v),
    ensures
        dec_bool(b, pos) == Some((v, pos + 1)),
{
    assert(b[pos] == b.subrange(pos, pos + 1)[0]);
}

proof fn lemma_dec_currency_enc(b: Seq<u8>, pos: int, c: Currency)
    requires
        0 <= pos,
        pos + 1 <= b.len(),
        b.subrange(pos, pos + 1) == enc_currency(c),
    ensures
        dec_currency(b, pos) == Some((c, pos + 1)),
{
    assert(b[pos] == b.subrange(pos, pos + 1)[0]);
}

proof fn lemma_dec_str_enc(b: Seq<u8>, pos: int, s: Seq<char>)
    requires
        0 <= pos,
        pos + enc_str(s).len() <= b.len(),
        b.subrange(pos, pos + enc_str(s).len()) == enc_str(s),
        encode_utf8(s).len() <= u64::MAX,
    ensures
        dec_str(b, pos) == Some((s, pos + enc_str(s).len())),
{
    lemma_auto_spec_u64_to_from_le_bytes();
    let u = encode_utf8(s);
    let prefix = spec_u64_to_le_bytes(u.len() as u64);
    lemma_subrange_split(b, pos, prefix, u);
    lemma_dec_u64_enc(b, pos, u.len() as u64);
    encode_utf8_valid_utf8(s);
    encode_utf8_decode_utf8(s);
}

proof fn lemma_dec_opt_str_enc(b: Seq<u8>, pos: int, d: Option<Seq<char>>)
    requires
        0 <= pos,
        pos + enc_opt_str(d).len() <= b.len(),
        b.subrange(pos, pos + enc_opt_str(d).len()) == enc_opt_str(d),
        d matches Some(s) ==> encode_utf8(s).len() <= u64::MAX,
    ensures
        dec_opt_str(b, pos) == Some((d, pos + enc_opt_str(d).len())),
{
    match d {
        None => {
            assert(b[pos] == b.subrange(pos, pos + 1)[0]);
        },
        Some(s) => {
            lemma_subrange_split(b, pos, seq![1u8], enc_str(s));
            assert(b[pos] == b.subrange(pos, pos + 1)[0]);
            lemma_dec_str_enc(b, pos + 1, s);
        },
    }
}

proof fn lemma_dec_entry_enc(b: Seq<u8>, pos: int, e: TransactionEntry)
    requires
        0 <= pos,
        pos + enc_entry(e).len() <= b.len(),
        b.subrange(pos, pos + enc_entry(e).len()) == enc_entry(e),
    ensures
        enc_entry(e).len() == 20,
        dec_entry(b, pos) == Some((e, pos + 20)),
{
    lemma_auto_spec_u32_to_from_le_bytes();
    lemma_auto_spec_u64_to_from_le_bytes();
    let s1 = spec_u32_to_le_bytes(e.account_id);
    let s2 = enc_i64(e.debit);
    let s3 = enc_i64(e.credit);
    lemma_subrange_split(b, pos, s1 + s2, s3);
    lemma_subrange_split(b, pos, s1, s2);
    lemma_dec_u32_enc(b, pos, e.account_id);
    lemma_dec_i64_enc(b, pos + 4, e.debit);
    lemma_dec_i64_enc(b, pos + 12, e.credit);
}

proof fn lemma_dec_entries_enc(b: Seq<u8>, pos: int, es: Seq<TransactionEntry>)
    requires
        0 <= pos,
        pos + enc_entries(es).len() <= b.len(),
        b.subrange(pos, pos + enc_entries(es).len()) == enc_entries(es),
        es.len() <= u64::MAX,
    ensures
        dec_entries(b, pos, es.len() as u64) == Some((es, pos + enc_entries(es).len())),
    decreases es.len(),
{
    if es.len() == 0 {
        assert(es =~= Seq::<TransactionEntry>::empty());
    } else {
        let e = es.first();
        let rest = es.drop_first();
        lemma_subrange_split(b, pos, enc_entry(e), enc_entries(rest));
        lemma_dec_entry_enc(b, pos, e);
        lemma_dec_entries_enc(b, pos + 20, rest);
        assert(seq![e] + rest =~= es);
    }
}

proof fn lemma_dec_account_enc(b: Seq<u8>, pos: int, a: AccountModel)
    requires
        0 <= pos,
        pos + enc_account(a).len() <= b.len(),
        b.subrange(pos, pos + enc_account(a).len()) == enc_account(a),
        encode_utf8(a.owner).len() <= u64::MAX,
    ensures
        dec_account(b, pos) == Some((a, pos + enc_account(a).len())),
{
    lemma_auto_spec_u32_to_from_le_bytes();
    lemma_auto_spec_u64_to_from_le_bytes();
    let s1 = spec_u32_to_le_bytes(a.id);
    let s2 = enc_str(a.owner);
    let s3 = enc_i64(a.balance);
    let s4 = enc_bool(a.closed);
    let s5 = enc_currency(a.currency);
    lemma_subrange_split(b, pos, s1 + s2 + s3 + s4, s5);
    lemma_subrange_split(b, pos, s1 + s2 + s3, s4);
    lemma_subrange_split(b, pos, s1 + s2, s3);
    lemma_subrange_split(b, pos, s1, s2);
    lemma_dec_u32_enc(b, pos, a.id);
    lemma_dec_str_enc(b, pos + 4, a.owner);
    lemma_dec_i64_enc(b, pos + 4 + s2.len(), a.balance);
    lemma_dec_bool_enc(b, pos + 4 + s2.len() + 8, a.closed);
    lemma_dec_currency_enc(b, pos + 4 + s2.len() + 9, a.currency);
}

/// The per-record size bounds under which a model can be encoded faithfully:
/// every length that travels as a u64 must fit one.  Every ledger actually
/// held in memory satisfies them.
pub open spec fn snapshot_bounded(m: LedgerModel) -> bool {
    &&& forall|i: int|
        0 <= i < m.accounts.len() ==> encode_utf8(
            (#[trigger] m.accounts[i]).owner,
        ).len() <= u64::MAX
    &&& forall|k: int|
        0 <= k < m.txs.len() ==> {
            &&& (#[trigger] m.txs[k]).entries.len() <= u64::MAX
            &&& (m.txs[k].description matches Some(d) ==> encode_utf8(d).len() <= u64::MAX)
        }
}

proof fn lemma_dec_accounts_enc(b: Seq<u8>, pos: int, accs: Seq<AccountModel>)
    requires
        0 <= pos,
        pos + enc_accounts(accs).len() <= b.len(),
        b.subrange(pos, pos + enc_accounts(accs).len()) == enc_accounts(accs),
        accs.len() <= u64::MAX,
        forall|i: int|
            0 <= i < accs.len() ==> encode_utf8((#[trigger] accs[i]).owner).len() <= u64::MAX,
    ensures
        dec_accounts(b, pos, accs.len() as u64) == Some((accs, pos + enc_accounts(accs).len())),
    decreases accs.len(),
{
    if accs.len() == 0 {
        assert(accs =~= Seq::<AccountModel>::empty());
    } else {
        let a = accs.first();
        let rest = accs.drop_first();
        lemma_subrange_split(b, pos, enc_account(a), enc_accounts(rest));
        assert(accs[0] == a);
        lemma_dec_account_enc(b, pos, a);
        assert forall|i: int|
            0 <= i < rest.len() implies encode_utf8((#[trigger] rest[i]).owner).len()
            <= u64::MAX by {
            assert(rest[i] == accs[i + 1]);
        }
        lemma_dec_accounts_enc(b, pos + enc_account(a).len(), rest);
        assert(seq![a] + rest =~= accs);
    }
}

proof fn lemma_dec_tx_enc(b: Seq<u8>, pos: int, t: TxModel)
    requires
        0 <= pos,
        pos + enc_tx(t).len() <= b.len(),
        b.subrange(pos, pos + enc_tx(t).len()) == enc_tx(t),
        t.entries.len() <= u64::MAX,
        t.description matches Some(d) ==> encode_utf8(d).len() <= u64::MAX,
    ensures
        dec_tx(b, pos) == Some((t, pos + enc_tx(t).len())),
{
    lemma_auto_spec_u64_to_from_le_bytes();
    let s1 = spec_u64_to_le_bytes(t.id);
    let s2 = enc_opt_str(t.description);
    let s3 = spec_u64_to_le_bytes(t.entries.len() as u64);
    let s4 = enc_entries(t.entries);
    let s5 = enc_i64(t.timestamp);
    lemma_subrange_split(b, pos, s1 + s2 + s3 + s4, s5);
    lemma_subrange_split(b, pos, s1 + s2 + s3, s4);
    lemma_subrange_split(b, pos, s1 + s2, s3);
    lemma_subrange_split(b, pos, s1, s2);
    lemma_dec_u64_enc(b, pos, t.id);
    lemma_dec_opt_str_enc(b, pos + 8, t.description);
    lemma_dec_u64_enc(b, pos + 8 + s2.len(), t.entries.len() as u64);
    lemma_dec_entries_enc(b, pos + 8 + s2.len() + 8, t.entries);
    lemma_dec_i64_enc(b, pos + 8 + s2.len() + 8 + s4.len(), t.timestamp);
}

proof fn lemma_dec_txs_enc(b: Seq<u8>, pos: int, ts: Seq<TxModel>)
    requires
        0 <= pos,
        pos + enc_txs(ts).len() <= b.len(),
        b.subrange(pos, pos + enc_txs(ts).len()) == enc_txs(ts),
        ts.len() <= u64::MAX,
        forall|k: int|
            0 <= k < ts.len() ==> {
                &&& (#[trigger] ts[k]).entries.len() <= u64::MAX
                &&& (ts[k].description matches Some(d) ==> encode_utf8(d).len() <= u64::MAX)
            },
    ensures
        dec_txs(b, pos, ts.len() as u64) == Some((ts, pos + enc_txs(ts).len())),
    decreases ts.len(),
{
    if ts.len() == 0 {
        assert(ts =~= Seq::<TxModel>::empty());
    } else {
        let t = ts.first();
        let rest = ts.drop_first();
        lemma_subrange_split(b, pos, enc_tx(t), enc_txs(rest));
        assert(ts[0] == t);
        lemma_dec_tx_enc(b, pos, t);
        assert forall|k: int|
            0 <= k < rest.len() implies (#[trigger] rest[k]).entries.len() <= u64::MAX && (
            rest[k].description matches Some(d) ==> encode_utf8(d).len() <= u64::MAX) by {
            assert(rest[k] == ts[k + 1]);
        }
        lemma_dec_txs_enc(b, pos + enc_tx(t).len(), rest);
        assert(seq![t] + rest =~= ts);
    }
}

/// Law: the snapshot codec is lossless.  Decoding the encoding of any
/// structurally well-formed ledger model yields that model back: balances,
/// journal and counters all round-trip exactly.
#[verifier::rlimit(100)]
pub proof fn lemma_snapshot_round_trip(m: LedgerModel)
    requires
        m.wf(),
        snapshot_bounded(m),
    ensures
        spec_decode(spec_encode(m)) == Some(m),
{
    lemma_auto_spec_u32_to_from_le_bytes();
    lemma_auto_spec_u64_to_from_le_bytes();
    let b = spec_encode(m);
    let s1 = magic_bytes();
    let s2 = spec_u64_to_le_bytes(m.accounts.len() as u64);
    let s3 = enc_accounts(m.accounts);
    let s4 = spec_u64_to_le_bytes(m.txs.len() as u64);
    let s5 = enc_txs(m.txs);
    let s6 = spec_u32_to_le_bytes(m.next_account_id);
    let s7 = spec_u64_to_le_bytes(m.next_tx_id);
    let s8 = spec_u32_to_le_bytes(m.bank_account_id);
    assert(b.subrange(0, b.len() as int) =~= b);
    lemma_subrange_split(b, 0, s1 + s2 + s3 + s4 + s5 + s6 + s7, s8);
    lemma_subrange_split(b, 0, s1 + s2 + s3 + s4 + s5 + s6, s7);
    lemma_subrange_split(b, 0, s1 + s2 + s3 + s4 + s5, s6);
    lemma_subrange_split(b, 0, s1 + s2 + s3 + s4, s5);
    lemma_subrange_split(b, 0, s1 + s2 + s3, s4);
    lemma_subrange_split(b, 0, s1 + s2, s3);
    lemma_subrange_split(b, 0, s1, s2);
    lemma_dec_u64_enc(b, 4, m.accounts.len() as u64);
    lemma_dec_accounts_enc(b, 12, m.accounts);
    let p2 = 12 + s3.len() as int;
    lemma_dec_u64_enc(b, p2, m.txs.len() as u64);
    lemma_dec_txs_enc(b, p2 + 8, m.txs);
    let p4 = p2 + 8 + s5.len() as int;
    lemma_dec_u32_enc(b, p4, m.next_account_id);
    lemma_dec_u64_enc(b, p4 + 4, m.next_tx_id);
    lemma_dec_u32_enc(b, p4 + 12, m.bank_account_id);
}

// ----------------------------------------------------------------------------
// The executable encoder.
// ----------------------------------------------------------------------------
/// Relies on std's `String::from_utf8`: it succeeds exactly on valid UTF-8
/// input and returns the string whose UTF-8 encoding is that input.
#[verifier::external_body]
pub(crate) fn string_from_utf8(v: Vec<u8>) -> (r: Option<String>)
    ensures
        match r {
            Some(s) => encode_utf8(s@) == v@,
            None => !valid_utf8(v@),
        },
{
    String::from_utf8(v).ok()
}

fn push_u32(out: &mut Vec<u8>, x: u32)
    ensures
        final(out)@ == old(out)@ + spec_u32_to_le_bytes(x),
{
    let mut bs = u32_to_le_bytes(x);
    out.append(&mut bs);
}

fn push_u64(out: &mut Vec<u8>, x: u64)
    ensures
        final(out)@ == old(out)@ + spec_u64_to_le_bytes(x),
{
    let mut bs = u64_to_le_bytes(x);
    out.append(&mut bs);
}

fn push_i64(out: &mut Vec<u8>, x: i64)
    ensures
        final(out)@ == old(out)@ + enc_i64(x),
{
    push_u64(out, #[verifier::truncate] (x as u64));
}

fn push_bool(out: &mut Vec<u8>, v: bool)
    ensures
        final(out)@ == old(out)@ + enc_bool(v),
{
    out.push(if v { 1 } else { 0 });
    proof {
        assert(final(out)@ =~= old(out)@ + enc_bool(v));
    }
}

fn push_currency(out: &mut Vec<u8>, c: Currency)
    ensures
        final(out)@ == old(out)@ + enc_currency(c),
{
    let tag: u8 = match c {
        Currency::NGN => 0,
        Currency::USD => 1,
        Currency::EUR => 2,
        Currency::GBP => 3,
    };
    out.push(tag);
    proof {
        assert(final(out)@ =~= old(out)@ + enc_currency(c));
    }
}

fn push_str(out: &mut Vec<u8>, s: &str)
    ensures
        final(out)@ == old(out)@ + enc_str(s@),
        encode_utf8(s@).len() <= u64::MAX,
{
    let bs = s.as_bytes();
    let n = bs.len();
    push_u64(out, n as u64);
    let mut v = slice_to_vec(bs);
    out.append(&mut v);
    proof {
        assert(final(out)@ =~= old(out)@ + enc_str(s@));
    }
}

fn push_opt_str(out: &mut Vec<u8>, d: &Option<String>)
    ensures
        final(out)@ == old(out)@ + enc_opt_str(crate::transaction::opt_str_view(*d)),
        crate::transaction::opt_str_view(*d) matches Some(sv) ==> encode_utf8(sv).len()
            <= u64::MAX,
{
    match d {
        None => {
            out.push(0);
            proof {
                assert(final(out)@ =~= old(out)@ + enc_opt_str(None));
            }
        },
        Some(s) => {
            out.push(1);
            push_str(out, s.as_str());
            proof {
                assert(final(out)@ =~= old(out)@ + enc_opt_str(Some(s@)));
            }
        },
    }
}

fn push_entry(out: &mut Vec<u8>, e: &TransactionEntry)
    ensures
        final(out)@ == old(out)@ + enc_entry(*e),
{
    push_u32(out, e.account_id);
    push_i64(out, e.debit);
    push_i64(out, e.credit);
    proof {
        assert(final(out)@ =~= old(out)@ + enc_entry(*e));
    }
}

fn push_entries(out: &mut Vec<u8>, es: &Vec<TransactionEntry>)
    ensures
        final(out)@ == old(out)@ + enc_entries(es@),
{
    let ghost base = old(out)@;
    proof {
        assert(es@.skip(0) =~= es@);
    }
    let mut i: usize = 0;
    while i < es.len()
        invariant
            0 <= i <= es@.len(),
            out@ + enc_entries(es@.skip(i as int)) == base + enc_entries(es@),
        decreases es@.len() - i,
    {
        proof {
            assert(es@.skip(i as int).first() == es@[i as int]);
            assert(es@.skip(i as int).drop_first() =~= es@.skip(i + 1));
        }
        let ghost before = out@;
        push_entry(out, &es[i]);
        proof {
            assert(out@ + enc_entries(es@.skip(i + 1)) =~= before + enc_entries(
                es@.skip(i as int),
            ));
        }
        i = i + 1;
    }
    proof {
        assert(es@.skip(es@.len() as int) =~= Seq::<TransactionEntry>::empty());
        assert(out@ + enc_entries(es@.skip(es@.len() as int)) =~= out@);
    }
}

fn push_account(out: &mut Vec<u8>, a: &Account)
    ensures
        final(out)@ == old(out)@ + enc_account(a@),
        encode_utf8(a@.owner).len() <= u64::MAX,
{
    push_u32(out, a.id);
    push_str(out, a.owner.as_str());
    push_i64(out, a.balance);
    push_bool(out, a.closed);
    push_currency(out, a.currency);
    proof {
        assert(final(out)@ =~= old(out)@ + enc_account(a@));
    }
}

fn push_accounts(out: &mut Vec<u8>, accs: &Vec<Account>)
    ensures
        final(out)@ == old(out)@ + enc_accounts(accs@.map_values(|a: Account| a@)),
        forall|i: int|
            0 <= i < accs@.len() ==> encode_utf8((#[trigger] accs@[i])@.owner).len() <= u64::MAX,
{
    let ghost base = old(out)@;
    let ghost models = accs@.map_values(|a: Account| a@);
    proof {
        assert(models.skip(0) =~= models);
    }
    let mut i: usize = 0;
    while i < accs.len()
        invariant
            0 <= i <= accs@.len(),
            models == accs@.map_values(|a: Account| a@),
            out@ + enc_accounts(models.skip(i as int)) == base + enc_accounts(models),
            forall|j: int|
                0 <= j < i ==> encode_utf8((#[trigger] accs@[j])@.owner).len() <= u64::MAX,
        decreases accs@.len() - i,
    {
        proof {
            assert(models.skip(i as int).first() == models[i as int]);
            assert(models.skip(i as int).drop_first() =~= models.skip(i + 1));
        }
        let ghost before = out@;
        push_account(out, &accs[i]);
        proof {
            assert(out@ + enc_accounts(models.skip(i + 1)) =~= before + enc_accounts(
                models.skip(i as int),
            ));
        }
        i = i + 1;
    }
    proof {
        assert(models.skip(models.len() as int) =~= Seq::<AccountModel>::empty());
        assert(out@ + enc_accounts(models.skip(models.len() as int)) =~= out@);
    }
}

fn push_tx(out: &mut Vec<u8>, t: &Transaction)
    ensures
        final(out)@ == old(out)@ + enc_tx(t@),
        t@.entries.len() <= u64::MAX,
        t@.description matches Some(d) ==> encode_utf8(d).len() <= u64::MAX,
{
    push_u64(out, t.id);
    push_opt_str(out, &t.description);
    push_u64(out, t.entries.len() as u64);
    push_entries(out, &t.entries);
    push_i64(out, t.timestamp);
    proof {
        assert(final(out)@ =~= old(out)@ + enc_tx(t@));
    }
}

fn push_txs(out: &mut Vec<u8>, txs: &Vec<Transaction>)
    ensures
        final(out)@ == old(out)@ + enc_txs(txs@.map_values(|t: Transaction| t@)),
        forall|k: int|
            0 <= k < txs@.len() ==> {
                &&& (#[trigger] txs@[k])@.entries.len() <= u64::MAX
                &&& (txs@[k]@.description matches Some(d) ==> encode_utf8(d).len() <= u64::MAX)
            },
{
    let ghost base = old(out)@;
    let ghost models = txs@.map_values(|t: Transaction| t@);
    proof {
        assert(models.skip(0) =~= models);
    }
    let mut i: usize = 0;
    while i < txs.len()
        invariant
            0 <= i <= txs@.len(),
            models == txs@.map_values(|t: Transaction| t@),
            out@ + enc_txs(models.skip(i as int)) == base + enc_txs(models),
            forall|k: int|
                0 <= k < i ==> {
                    &&& (#[trigger] txs@[k])@.entries.len() <= u64::MAX
                    &&& (txs@[k]@.description matches Some(d) ==> encode_utf8(d).len()
                        <= u64::MAX)
                },
        decreases txs@.len() - i,
    {
        proof {
            assert(models.skip(i as int).first() == models[i as int]);
            assert(models.skip(i as int).drop_first() =~= models.skip(i + 1));
        }
        let ghost before = out@;
        push_tx(out, &txs[i]);
        proof {
            assert(out@ + enc_txs(models.skip(i + 1)) =~= before + enc_txs(
                models.skip(i as int),
            ));
        }
        i = i + 1;
    }
    proof {
        assert(models.skip(models.len() as int) =~= Seq::<TxModel>::empty());
        assert(out@ + enc_txs(models.skip(models.len() as int)) =~= out@);
    }
}

impl Ledger {
    /// Encodes the whole ledger — registry, journal, both counters, bank
    /// account id — as the canonical snapshot byte form.
    pub fn serialize(&self) -> (out: Vec<u8>)
        ensures
            out@ == spec_encode(self@),
            snapshot_bounded(self@),
    {
        let mut out: Vec<u8> = Vec::new();
        out.push(0x4c);
        out.push(0x44);
        out.push(0x47);
        out.push(0x52);
        proof {
            assert(out@ =~= magic_bytes());
        }
        push_u64(&mut out, self.accounts.len() as u64);
        push_accounts(&mut out, &self.accounts);
        push_u64(&mut out, self.transactions.len() as u64);
        push_txs(&mut out, &self.transactions);
        push_u32(&mut out, self.next_account_id);
        push_u64(&mut out, self.next_tx_id);
        push_u32(&mut out, self.bank_account_id);
        proof {
            assert(self@.accounts.len() == self.accounts@.len());
            assert(self@.txs.len() == self.transactions@.len());
            assert(out@ =~= spec_encode(self@));
        }
        out
    }
}

// ----------------------------------------------------------------------------
// The executable decoder: each reader returns exactly what the spec decoder
// says for the same bytes and position.
// ----------------------------------------------------------------------------
fn read_u8(b: &[u8], pos: usize) -> (r: Option<(u8, usize)>)
    ensures
        match r {
            Some((x, p)) => dec_u8(b@, pos as int) == Some((x, p as int)),
            None => dec_u8(b@, pos as int) is None,
        },
{
    if pos < b.len() {
        let x = b[pos];
        Some((x, pos + 1))
    } else {
        None
    }
}

fn read_u32(b: &[u8], pos: usize) -> (r: Option<(u32, usize)>)
    ensures
        match r {
            Some((x, p)) => dec_u32(b@, pos as int) == Some((x, p as int)),
            None => dec_u32(b@, pos as int) is None,
        },
{
    if b.len() >= 4 && pos <= b.len() - 4 {
        let s = slice_subrange(b, pos, pos + 4);
        Some((u32_from_le_bytes(s), pos + 4))
    } else {
        None
    }
}

fn read_u64(b: &[u8], pos: usize) -> (r: Option<(u64, usize)>)
    ensures
        match r {
            Some((x, p)) => dec_u64(b@, pos as int) == Some((x, p as int)),
            None => dec_u64(b@, pos as int) is None,
        },
{
    if b.len() >= 8 && pos <= b.len() - 8 {
        let s = slice_subrange(b, pos, pos + 8);
        Some((u64_from_le_bytes(s), pos + 8))
    } else {
        None
    }
}

fn read_i64(b: &[u8], pos: usize) -> (r: Option<(i64, usize)>)
    ensures
        match r {
            Some((x, p)) => dec_i64(b@, pos as int) == Some((x, p as int)),
            None => dec_i64(b@, pos as int) is None,
        },
{
    match read_u64(b, pos) {
        Some((x, p)) => Some((#[verifier::truncate] (x as i64), p)),
        None => None,
    }
}

fn read_bool(b: &[u8], pos: usize) -> (r: Option<(bool, usize)>)
    ensures
        match r {
            Some((v, p)) => dec_bool(b@, pos as int) == Some((v, p as int)),
            None => dec_bool(b@, pos as int) is None,
        },
{
    match read_u8(b, pos) {
        Some((t, p)) => if t == 0 {
            Some((false, p))
        } else if t == 1 {
            Some((true, p))
        } else {
            None
        },
        None => None,
    }
}

fn read_currency(b: &[u8], pos: usize) -> (r: Option<(Currency, usize)>)
    ensures
        match r {
            Some((c, p)) => dec_currency(b@, pos as int) == Some((c, p as int)),
            None => dec_currency(b@, pos as int) is None,
        },
{
    match read_u8(b, pos) {
        Some((t, p)) => if t == 0 {
            Some((Currency::NGN, p))
        } else if t == 1 {
            Some((Currency::USD, p))
        } else if t == 2 {
            Some((Currency::EUR, p))
        } else if t == 3 {
            Some((Currency::GBP, p))
        } else {
            None
        },
        None => None,
    }
}

fn read_str(b: &[u8], pos: usize) -> (r: Option<(String, usize)>)
    ensures
        match r {
            Some((s, p)) => dec_str(b@, pos as int) == Some((s@, p as int)),
            None => dec_str(b@, pos as int) is None,
        },
{
    match read_u64(b, pos) {
        Some((n, p1)) => {
            let remaining = b.len() - p1;
            if n > remaining as u64 {
                return None;
            }
            let nn = n as usize;
            let bs = slice_subrange(b, p1, p1 + nn);
            let v = slice_to_vec(bs);
            match string_from_utf8(v) {
                Some(s) => {
                    proof {
                        encode_utf8_valid_utf8(s@);
                        encode_utf8_decode_utf8(s@);
                    }
                    Some((s, p1 + nn))
                },
                None => None,
            }
        },
        None => None,
    }
}

fn read_opt_str(b: &[u8], pos: usize) -> (r: Option<(Option<String>, usize)>)
    ensures
        match r {
            Some((d, p)) => dec_opt_str(b@, pos as int) == Some(
                (crate::transaction::opt_str_view(d), p as int),
            ),
            None => dec_opt_str(b@, pos as int) is None,
        },
{
    match read_u8(b, pos) {
        Some((t, p)) => if t == 0 {
            Some((None, p))
        } else if t == 1 {
            match read_str(b, p) {
                Some((s, p2)) => Some((Some(s), p2)),
                None => None,
            }
        } else {
            None
        },
        None => None,
    }
}

fn read_entry(b: &[u8], pos: usize) -> (r: Option<(TransactionEntry, usize)>)
    ensures
        match r {
            Some((e, p)) => dec_entry(b@, pos as int) == Some((e, p as int)),
            None => dec_entry(b@, pos as int) is None,
        },
{
    match read_u32(b, pos) {
        Some((account_id, p1)) => match read_i64(b, p1) {
            Some((debit, p2)) => match read_i64(b, p2) {
                Some((credit, p3)) => Some((TransactionEntry { account_id, debit, credit }, p3)),
                None => None,
            },
            None => None,
        },
        None => None,
    }
}

fn read_entries(b: &[u8], pos: usize, count: u64) -> (r: Option<(Vec<TransactionEntry>, usize)>)
    ensures
        match r {
            Some((v, p)) => dec_entries(b@, pos as int, count) == Some((v@, p as int)),
            None => dec_entries(b@, pos as int, count) is None,
        },
{
    let mut acc: Vec<TransactionEntry> = Vec::new();
    let mut cur: usize = pos;
    let mut i: u64 = 0;
    while i < count
        invariant
            0 <= i <= count,
            match dec_entries(b@, cur as int, (count - i) as u64) {
                Some((rest, p)) => dec_entries(b@, pos as int, count) == Some(
                    (acc@ + rest, p),
                ),
                None => dec_entries(b@, pos as int, count) is None,
            },
        decreases count - i,
    {
        match read_entry(b, cur) {
            Some((e, p1)) => {
                let ghost before = acc@;
                acc.push(e);
                proof {
                    if let Some((rest2, p2)) = dec_entries(b@, p1 as int, (count - i - 1) as u64) {
                        assert(before + (seq![e] + rest2) =~= acc@ + rest2);
                    }
                }
                cur = p1;
                i = i + 1;
            },
            None => {
                return None;
            },
        }
    }
    proof {
        assert(acc@ + Seq::<TransactionEntry>::empty() =~= acc@);
    }
    Some((acc, cur))
}

fn read_account(b: &[u8], pos: usize) -> (r: Option<(Account, usize)>)
    ensures
        match r {
            Some((a, p)) => dec_account(b@, pos as int) == Some((a@, p as int)),
            None => dec_account(b@, pos as int) is None,
        },
{
    match read_u32(b, pos) {
        Some((id, p1)) => match read_str(b, p1) {
            Some((owner, p2)) => match read_i64(b, p2) {
                Some((balance, p3)) => match read_bool(b, p3) {
                    Some((closed, p4)) => match read_currency(b, p4) {
                        Some((currency, p5)) => Some(
                            (Account { id, owner, balance, closed, currency }, p5),
                        ),
                        None => None,
                    },
                    None => None,
                },
                None => None,
            },
            None => None,
        },
        None => None,
    }
}

fn read_accounts(b: &[u8], pos: usize, count: u64) -> (r: Option<(Vec<Account>, usize)>)
    ensures
        match r {
            Some((v, p)) => dec_accounts(b@, pos as int, count) == Some(
                (v@.map_values(|a: Account| a@), p as int),
            ),
            None => dec_accounts(b@, pos as int, count) is None,
        },
{
    let mut acc: Vec<Account> = Vec::new();
    let mut cur: usize = pos;
    let mut i: u64 = 0;
    proof {
        assert(acc@.map_values(|a: Account| a@) =~= Seq::<AccountModel>::empty());
    }
    while i < count
        invariant
            0 <= i <= count,
            match dec_accounts(b@, cur as int, (count - i) as u64) {
                Some((rest, p)) => dec_accounts(b@, pos as int, count) == Some(
                    (acc@.map_values(|a: Account| a@) + rest, p),
                ),
                None => dec_accounts(b@, pos as int, count) is None,
            },
        decreases count - i,
    {
        match read_account(b, cur) {
            Some((a, p1)) => {
                let ghost before = acc@.map_values(|x: Account| x@);
                let ghost av = a@;
                acc.push(a);
                proof {
                    assert(acc@.map_values(|x: Account| x@) =~= before.push(av));
                    if let Some((rest2, p2)) = dec_accounts(b@, p1 as int, (count - i - 1) as u64) {
                        assert(before + (seq![av] + rest2) =~= before.push(av) + rest2);
                    }
                }
                cur = p1;
                i = i + 1;
            },
            None => {
                return None;
            },
        }
    }
    proof {
        assert(acc@.map_values(|a: Account| a@) + Seq::<AccountModel>::empty()
            =~= acc@.map_values(|a: Account| a@));
    }
    Some((acc, cur))
}

fn read_tx(b: &[u8], pos: usize) -> (r: Option<(Transaction, usize)>)
    ensures
        match r {
            Some((t, p)) => dec_tx(b@, pos as int) == Some((t@, p as int)),
            None => dec_tx(b@, pos as int) is None,
        },
{
    match read_u64(b, pos) {
        Some((id, p1)) => match read_opt_str(b, p1) {
            Some((description, p2)) => match read_u64(b, p2) {
                Some((n, p3)) => match read_entries(b, p3, n) {
                    Some((entries, p4)) => match read_i64(b, p4) {
                        Some((timestamp, p5)) => Some(
                            (Transaction { id, description, entries, timestamp }, p5),
                        ),
                        None => None,
                    },
                    None => None,
                },
                None => None,
            },
            None => None,
        },
        None => None,
    }
}

fn read_txs(b: &[u8], pos: usize, count: u64) -> (r: Option<(Vec<Transaction>, usize)>)
    ensures
        match r {
            Some((v, p)) => dec_txs(b@, pos as int, count) == Some(
                (v@.map_values(|t: Transaction| t@), p as int),
            ),
            None => dec_txs(b@, pos as int, count) is None,
        },
{
    let mut acc: Vec<Transaction> = Vec::new();
    let mut cur: usize = pos;
    let mut i: u64 = 0;
    proof {
        assert(acc@.map_values(|t: Transaction| t@) =~= Seq::<TxModel>::empty());
    }
    while i < count
        invariant
            0 <= i <= count,
            match dec_txs(b@, cur as int, (count - i) as u64) {
                Some((rest, p)) => dec_txs(b@, pos as int, count) == Some(
                    (acc@.map_values(|t: Transaction| t@) + rest, p),
                ),
                None => dec_txs(b@, pos as int, count) is None,
            },
        decreases count - i,
    {
        match read_tx(b, cur) {
            Some((t, p1)) => {
                let ghost before = acc@.map_values(|x: Transaction| x@);
                let ghost tv = t@;
                acc.push(t);
                proof {
                    assert(acc@.map_values(|x: Transaction| x@) =~= before.push(tv));
                    if let Some((rest2, p2)) = dec_txs(b@, p1 as int, (count - i - 1) as u64) {
                        assert(before + (seq![tv] + rest2) =~= before.push(tv) + rest2);
                    }
                }
                cur = p1;
                i = i + 1;
            },
            None => {
                return None;
            },
        }
    }
    proof {
        assert(acc@.map_values(|t: Transaction| t@) + Seq::<TxModel>::empty()
            =~= acc@.map_values(|t: Transaction| t@));
    }
    Some((acc, cur))
}

/// Decides structural well-formedness of a ledger value executably.
fn check_wf(l: &Ledger) -> (r: bool)
    ensures
        r == l@.wf(),
{
    let n = l.accounts.len();
    if l.bank_account_id != 0 {
        return false;
    }
    if n < 1 || (l.next_account_id as usize) != n {
        return false;
    }
    if l.accounts[0].closed {
        return false;
    }
    if (l.transactions.len() as u128) + 1 != l.next_tx_id as u128 {
        return false;
    }
    let mut i: usize = 0;
    while i < n
        invariant
            0 <= i <= n,
            n == l.accounts@.len(),
            forall|j: int| 0 <= j < i ==> (#[trigger] l@.accounts[j]).id == j,
        decreases n - i,
    {
        if (l.accounts[i].id as usize) != i {
            proof {
                assert((l@.accounts[i as int].id as int) != i as int);
            }
            return false;
        }
        proof {
            assert((#[trigger] l@.accounts[i as int]).id == i);
        }
        i = i + 1;
    }
    let nt = l.transactions.len();
    let mut k: usize = 0;
    while k < nt
        invariant
            0 <= k <= nt,
            nt == l.transactions@.len(),
            n == l.accounts@.len(),
            (l.transactions@.len() as u128) + 1 == l.next_tx_id as u128,
            forall|j: int| 0 <= j < k ==> (#[trigger] l@.txs[j]).id == j + 1,
            forall|k2: int, j: int|
                0 <= k2 < k && 0 <= j < l@.txs[k2].entries.len()
                    ==> ((#[trigger] l@.txs[k2].entries[j]).account_id as int) < n,
        decreases nt - k,
    {
        if l.transactions[k].id != (k as u64) + 1 {
            proof {
                assert(l@.txs[k as int].id != k + 1);
            }
            return false;
        }
        let ne = l.transactions[k].entries.len();
        let mut j: usize = 0;
        while j < ne
            invariant
                0 <= j <= ne,
                0 <= k < nt,
                nt == l.transactions@.len(),
                n == l.accounts@.len(),
                ne == l@.txs[k as int].entries.len(),
                forall|j2: int|
                    0 <= j2 < j ==> ((#[trigger] l@.txs[k as int].entries[j2]).account_id as int)
                        < n,
            decreases ne - j,
        {
            if (l.transactions[k].entries[j].account_id as usize) >= n {
                proof {
                    assert((l@.txs[k as int].entries[j as int].account_id as int) >= n);
                }
                return false;
            }
            proof {
                assert(((#[trigger] l@.txs[k as int].entries[j as int]).account_id as int) < n);
            }
            j = j + 1;
        }
        proof {
            assert((#[trigger] l@.txs[k as int]).id == k + 1);
        }
        k = k + 1;
    }
    true
}

impl Ledger {
    /// Decodes a snapshot produced by [`Ledger::serialize`], restoring the
    /// whole ledger.  Fails with `MalformedSnapshot` exactly when the bytes
    /// are not, in their entirety, the canonical encoding of a structurally
    /// well-formed ledger; the accounting history itself is trusted and not
    /// re-validated.
    pub fn deserialize(bytes: &[u8]) -> (r: Result<Ledger, LedgerError>)
        ensures
            match r {
                Ok(l) => spec_decode(bytes@) == Some(l@) && l@.wf(),
                Err(e) => e == LedgerError::MalformedSnapshot && spec_decode(bytes@) is None,
            },
    {
        if bytes.len() < 4 || bytes[0] != 0x4c || bytes[1] != 0x44 || bytes[2] != 0x47
            || bytes[3] != 0x52 {
            proof {
                if bytes@.len() >= 4 {
                    assert(bytes@.subrange(0, 4)[0] == bytes@[0]);
                    assert(bytes@.subrange(0, 4)[1] == bytes@[1]);
                    assert(bytes@.subrange(0, 4)[2] == bytes@[2]);
                    assert(bytes@.subrange(0, 4)[3] == bytes@[3]);
                }
            }
            return Err(LedgerError::MalformedSnapshot);
        }
        proof {
            assert(bytes@.subrange(0, 4) =~= magic_bytes());
        }
        let (na, p1) = match read_u64(bytes, 4) {
            Some(x) => x,
            None => {
                return Err(LedgerError::MalformedSnapshot);
            },
        };
        let (accounts, p2) = match read_accounts(bytes, p1, na) {
            Some(x) => x,
            None => {
                return Err(LedgerError::MalformedSnapshot);
            },
        };
        let (nt, p3) = match read_u64(bytes, p2) {
            Some(x) => x,
            None => {
                return Err(LedgerError::MalformedSnapshot);
            },
        };
        let (transactions, p4) = match read_txs(bytes, p3, nt) {
            Some(x) => x,
            None => {
                return Err(LedgerError::MalformedSnapshot);
            },
        };
        let (next_account_id, p5) = match read_u32(bytes, p4) {
            Some(x) => x,
            None => {
                return Err(LedgerError::MalformedSnapshot);
            },
        };
        let (next_tx_id, p6) = match read_u64(bytes, p5) {
            Some(x) => x,
            None => {
                return Err(LedgerError::MalformedSnapshot);
            },
        };
        let (bank_account_id, p7) = match read_u32(bytes, p6) {
            Some(x) => x,
            None => {
                return Err(LedgerError::MalformedSnapshot);
            },
        };
        let ledger = Ledger {
            accounts,
            transactions,
            next_account_id,
            next_tx_id,
            bank_account_id,
        };
        if p7 != bytes.len() {
            return Err(LedgerError::MalformedSnapshot);
        }
        if !check_wf(&ledger) {
            return Err(LedgerError::MalformedSnapshot);
        }
        Ok(ledger)
    }
}

} // verus!
