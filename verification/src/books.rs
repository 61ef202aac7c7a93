//! Entering transactions into a wallet's list.
use crate::accounts::{AccountModel, ManualWallet, WalletModel};
use crate::audit::{log_audit, log_audits, notes_countable, AuditLog, AuditModel};
use crate::height::{BlockHeight, MEMPOOL};
use crate::listing::{find_at, in_order, lemma_find_at, position_at, Listed, Order};
use crate::notes::TxId;
use crate::tx_part::{TxParts, WalletTxPart};
use crate::wallet_tx::WalletTx;
use vstd::prelude::*;

verus! {

/// The place behind the transactions from `from` on that are not above a height.
pub open spec fn place_from(txs: Seq<WalletTx>, from: int, h: u32) -> int
    decreases txs.len() - from,
{
    if 0 <= from < txs.len() && txs[from].h.0 <= h {
        place_from(txs, from + 1, h)
    } else {
        from
    }
}

/// Moves a place in the list behind the transactions that follow it and are not above a height.
pub fn update_insert_i(txs: &[WalletTx], insert_i: &mut usize, block_h: BlockHeight)
    requires
        *old(insert_i) <= txs@.len(),
    ensures
        *final(insert_i) == place_from(txs@, *old(insert_i) as int, block_h.0),
        *old(insert_i) <= *final(insert_i) <= txs@.len(),
{
    let mut i: usize = *insert_i;
    while i < txs.len() && txs[i].h.0 <= block_h.0
        invariant
            *old(insert_i) <= i <= txs@.len(),
            place_from(txs@, i as int, block_h.0) == place_from(
                txs@,
                *old(insert_i) as int,
                block_h.0,
            ),
        decreases txs.len() - i,
    {
        i += 1;
    }
    *insert_i = i;
}

/// Whether a new sighting of a transaction says nothing: it is in no block, and the transaction is
/// known to be in a block of the best chain.
pub open spec fn is_stale(old_tx: WalletTx, new_tx: WalletTx) -> bool {
    old_tx != new_tx && new_tx.h.0 >= MEMPOOL && old_tx.h.in_block() && old_tx.status is OnBc
}

/// A new sighting of a transaction, with what it did not look at taken from an earlier one.
#[verifier::opaque]
pub open spec fn merged(old_tx: WalletTx, new_tx: WalletTx) -> WalletTx {
    let f = new_tx.part_flags;
    let o = old_tx.parts[1];
    let n = new_tx.parts[1];
    let shielded = WalletTxPart {
        recv_note_count: if f & TxParts::SHIELDED_RECV == 0 {
            o.recv_note_count
        } else {
            n.recv_note_count
        },
        recv_zats: if f & TxParts::SHIELDED_RECV == 0 {
            o.recv_zats
        } else {
            n.recv_zats
        },
        spent_note_count: if f & TxParts::SHIELDED_SENT == 0 {
            o.spent_note_count
        } else {
            n.spent_note_count
        },
        spent_zats: if f & TxParts::SHIELDED_SENT == 0 {
            o.spent_zats
        } else {
            n.spent_zats
        },
        sent_note_count: if f & TxParts::SHIELDED_SENT == 0 {
            o.sent_note_count
        } else {
            n.sent_note_count
        },
        sent_zats: if f & TxParts::SHIELDED_SENT == 0 {
            o.sent_zats
        } else {
            n.sent_zats
        },
    };
    if old_tx == new_tx {
        new_tx
    } else {
        WalletTx {
            parts: [
                if f & TxParts::TRANSPARENT == 0 {
                    old_tx.parts[0]
                } else {
                    new_tx.parts[0]
                },
                shielded,
            ],
            memo_count: if f & TxParts::MEMO == 0 {
                old_tx.memo_count
            } else {
                new_tx.memo_count
            },
            memo: if f & TxParts::MEMO == 0 {
                old_tx.memo
            } else {
                new_tx.memo
            },
            staking_action: if f & TxParts::STAKING_ACTION == 0 {
                old_tx.staking_action
            } else {
                new_tx.staking_action
            },
            part_flags: f | old_tx.part_flags,
            ..new_tx
        }
    }
}

fn merge(old_tx: &WalletTx, new_tx: &WalletTx) -> (r: WalletTx)
    ensures
        r == merged(*old_tx, *new_tx),
{
    proof {
        reveal(merged);
    }
    if old_tx.same(new_tx) {
        return *new_tx;
    }
    let f: u8 = new_tx.part_flags;
    let mut t: WalletTxPart = new_tx.parts[0];
    let mut s: WalletTxPart = new_tx.parts[1];
    let o: WalletTxPart = old_tx.parts[1];
    let mut r = *new_tx;
    if f & TxParts::TRANSPARENT == 0 {
        t = old_tx.parts[0];
    }
    if f & TxParts::SHIELDED_RECV == 0 {
        s.recv_note_count = o.recv_note_count;
        s.recv_zats = o.recv_zats;
    }
    if f & TxParts::SHIELDED_SENT == 0 {
        s.spent_note_count = o.spent_note_count;
        s.spent_zats = o.spent_zats;
        s.sent_note_count = o.sent_note_count;
        s.sent_zats = o.sent_zats;
    }
    if f & TxParts::MEMO == 0 {
        r.memo_count = old_tx.memo_count;
        r.memo = old_tx.memo;
    }
    if f & TxParts::STAKING_ACTION == 0 {
        r.staking_action = old_tx.staking_action;
    }
    r.parts = [t, s];
    r.part_flags = f | old_tx.part_flags;
    r
}

/// Whether a transaction has to do with the wallet: it spends, sends or receives a note of it.
pub open spec fn concerns_wallet(tx: WalletTx) -> bool {
    let all = tx.sums(false);
    all.spent_n != 0 || all.recv_n != 0 || all.sent_n != 0
}

/// Where a transaction stands in the wallet's list, as far as the wallet knows.
pub open spec fn known_place(w: WalletModel, txid: TxId) -> Option<int> {
    if w.tx_h_map.contains_key(txid) {
        find_at(w.txs, Order::Recv, w.tx_h_map[txid].0, txid)
    } else {
        None
    }
}

/// Whether a sighting of a transaction is entered into the list.
pub open spec fn is_entered(w: WalletModel, tx: WalletTx) -> bool {
    concerns_wallet(tx) && match known_place(w, tx.txid) {
        Some(i) => !is_stale(w.txs[i], tx),
        None => true,
    }
}

/// What is entered: the sighting, with what it did not look at taken from the entry before.
pub open spec fn entry(w: WalletModel, tx: WalletTx) -> WalletTx {
    match known_place(w, tx.txid) {
        Some(i) => merged(w.txs[i], tx),
        None => tx,
    }
}

/// The place of the entry, where `insert_i` was meant before the earlier entry was taken out.
pub open spec fn entry_place(w: WalletModel, tx: WalletTx, insert_i: int) -> int {
    match known_place(w, tx.txid) {
        Some(i) => if i < insert_i {
            insert_i - 1
        } else {
            insert_i
        },
        None => insert_i,
    }
}

/// The list without the earlier entry of a transaction.
pub open spec fn others(w: WalletModel, txid: TxId) -> Seq<WalletTx> {
    match known_place(w, txid) {
        Some(i) => w.txs.remove(i),
        None => w.txs,
    }
}

/// The wallet after a transaction is entered.
pub open spec fn with_tx(w: WalletModel, tx: WalletTx, insert_i: int) -> WalletModel {
    WalletModel {
        txs: others(w, tx.txid).insert(entry_place(w, tx, insert_i), entry(w, tx)),
        tx_h_map: w.tx_h_map.insert(tx.txid, tx.h),
        ..w
    }
}

/// The log after a transaction was seen: it is audited when it comes, and, if it is entered, as it
/// is entered, and all others with it.
pub open spec fn log_tx(m: AuditModel, w: WalletModel, tx: WalletTx, insert_i: int) -> AuditModel {
    let seen = log_audit(m, w.accounts, tx);
    if is_entered(w, tx) {
        log_audits(
            log_audit(seen, w.accounts, entry(w, tx)),
            w.accounts,
            with_tx(w, tx, insert_i).txs,
        )
    } else {
        seen
    }
}

/// Where a transaction stands in the wallet's list.
pub fn tx_position(wallet: &ManualWallet, txid: &TxId) -> (r: Option<usize>)
    requires
        wallet.tx_h_map.wf(),
    ensures
        match known_place(wallet@, *txid) {
            Some(i) => r matches Some(k) && k == i && i < wallet@.txs.len(),
            None => r is None,
        },
{
    match wallet.tx_h_map.get(txid) {
        Some(h) => position_at(&wallet.txs, Order::Recv, h, txid),
        None => None,
    }
}

/// Enters a sighting of a transaction into the wallet's list, in the place of the earlier one. What
/// does not concern the wallet is not entered, nor a sighting outside any block of what is known to
/// be in one.
pub fn update_with_tx(
    wallet: &mut ManualWallet,
    new_tx: WalletTx,
    insert_i: &mut usize,
    log: &mut AuditLog,
)
    requires
        old(wallet).tx_h_map.wf(),
        old(log).wf(),
        notes_countable(old(wallet)@.accounts),
        new_tx.sums_ok(false),
        *old(insert_i) <= old(wallet)@.txs.len(),
        *old(insert_i) < usize::MAX,
    ensures
        final(wallet).tx_h_map.wf(),
        final(wallet).seen_bond_values == old(wallet).seen_bond_values,
        final(wallet).accounts == old(wallet).accounts,
        final(log).wf(),
        final(log)@ == log_tx(old(log)@, old(wallet)@, new_tx, *old(insert_i) as int),
        is_entered(old(wallet)@, new_tx) ==> final(wallet)@ == with_tx(
            old(wallet)@,
            new_tx,
            *old(insert_i) as int,
        ) && *final(insert_i) == entry_place(old(wallet)@, new_tx, *old(insert_i) as int) + 1,
        !is_entered(old(wallet)@, new_tx) ==> *final(wallet) == *old(wallet) && *final(insert_i)
            == *old(insert_i),
        *final(insert_i) <= final(wallet)@.txs.len() <= old(wallet)@.txs.len() + 1,
{
    let ghost w0 = wallet@;
    let ghost i0 = *insert_i as int;
    let _ = wallet.audit_tx(&new_tx, log);
    let totals = new_tx.totals(false);
    if totals.spent_note_count == 0 && totals.recv_note_count == 0 && totals.sent_note_count == 0 {
        return;
    }
    let known = tx_position(wallet, &new_tx.txid);
    let mut tx = new_tx;
    if let Some(tx_i) = known {
        let old_tx = wallet.txs[tx_i];
        if new_tx.h.0 >= MEMPOOL && old_tx.h.is_in_block() && old_tx.is_on_bc() && !old_tx.same(
            &new_tx,
        ) {
            return;
        }
        tx = merge(&old_tx, &new_tx);
        if tx_i < *insert_i {
            *insert_i = *insert_i - 1;
        }
        let _ = wallet.txs.remove(tx_i);
    }
    wallet.tx_h_map.insert(new_tx.txid, new_tx.h);
    let _ = wallet.audit_tx(&tx, log);
    wallet.txs.insert(*insert_i, tx);
    *insert_i = *insert_i + 1;
    assert(wallet@.tx_h_map == w0.tx_h_map.insert(new_tx.txid, new_tx.h));
    assert(wallet@ == with_tx(w0, new_tx, i0));
    wallet.audit_txs(log);
}

/// The list of transactions and the map of their heights say the same: every entry stands at its
/// height in the map, nothing else does, and no transaction has two entries.
pub open spec fn books_agree(w: WalletModel) -> bool {
    &&& forall|i: int|
        0 <= i < w.txs.len() ==> w.tx_h_map.contains_key((#[trigger] w.txs[i]).txid)
            && w.tx_h_map[w.txs[i].txid] == w.txs[i].h
    &&& forall|i: int, j: int|
        0 <= i < j < w.txs.len() ==> (#[trigger] w.txs[i]).txid != (#[trigger] w.txs[j]).txid
    &&& forall|id: TxId|
        w.tx_h_map.contains_key(id) ==> exists|i: int|
            0 <= i < w.txs.len() && #[trigger] w.txs[i].txid == id
}

/// Where list and map say the same, a transaction is found wherever it stands.
pub proof fn a_listed_transaction_is_found(w: WalletModel, i: int)
    requires
        books_agree(w),
        0 <= i < w.txs.len(),
    ensures
        known_place(w, w.txs[i].txid) == Some(i),
{
    let t = w.txs[i];
    lemma_find_at(w.txs, Order::Recv, t.h.0, t.txid);
    match known_place(w, t.txid) {
        Some(k) => {
            if k < i {
                assert(w.txs[k].txid != w.txs[i].txid);
            }
            if i < k {
                assert(w.txs[i].txid != w.txs[k].txid);
            }
        },
        None => {
            assert(w.txs[i].at(Order::Recv) == t.h.0 && w.txs[i].id() == t.txid);
        },
    }
}

/// What is entered keeps its id and its height.
pub proof fn lemma_entry(w: WalletModel, tx: WalletTx)
    ensures
        entry(w, tx).txid == tx.txid,
        entry(w, tx).h == tx.h,
        entry(w, tx).status == tx.status,
{
    reveal(merged);
}

/// Where an entry of the list without a transaction stands in the whole list.
spec fn source(w: WalletModel, txid: TxId, i: int) -> int {
    match known_place(w, txid) {
        Some(q) => if i < q {
            i
        } else {
            i + 1
        },
        None => i,
    }
}

proof fn lemma_other(w: WalletModel, txid: TxId, i: int)
    requires
        books_agree(w),
        0 <= i < others(w, txid).len(),
    ensures
        0 <= source(w, txid, i) < w.txs.len(),
        others(w, txid)[i] == w.txs[source(w, txid, i)],
        others(w, txid)[i].txid != txid,
{
    lemma_known_bounds(w, txid);
    let k = source(w, txid, i);
    match known_place(w, txid) {
        Some(q) => {
            if k < q {
                assert(w.txs[k].txid != w.txs[q].txid);
            } else {
                assert(w.txs[q].txid != w.txs[k].txid);
            }
        },
        None => {
            if w.txs[i].txid == txid {
                a_listed_transaction_is_found(w, i);
            }
        },
    }
}

proof fn lemma_count(w: WalletModel, txid: TxId)
    requires
        books_agree(w),
    ensures
        known_place(w, txid) is Some == w.tx_h_map.contains_key(txid),
{
    if w.tx_h_map.contains_key(txid) {
        let i = choose|i: int| 0 <= i < w.txs.len() && #[trigger] w.txs[i].txid == txid;
        a_listed_transaction_is_found(w, i);
    }
}

proof fn lemma_entered_heights(w: WalletModel, tx: WalletTx, insert_i: int)
    requires
        books_agree(w),
        0 <= insert_i <= w.txs.len(),
    ensures
        ({
            let r = with_tx(w, tx, insert_i);
            forall|i: int|
                0 <= i < r.txs.len() ==> r.tx_h_map.contains_key((#[trigger] r.txs[i]).txid)
                    && r.tx_h_map[r.txs[i].txid] == r.txs[i].h
        }),
{
    let r = with_tx(w, tx, insert_i);
    let p = entry_place(w, tx, insert_i);
    let o = others(w, tx.txid);
    lemma_entry(w, tx);
    lemma_known_bounds(w, tx.txid);
    assert forall|i: int| 0 <= i < r.txs.len() implies r.tx_h_map.contains_key(
        (#[trigger] r.txs[i]).txid,
    ) && r.tx_h_map[r.txs[i].txid] == r.txs[i].h by {
        if i != p {
            let k = if i < p { i } else { i - 1 };
            assert(r.txs[i] == o[k]);
            lemma_other(w, tx.txid, k);
            let m = source(w, tx.txid, k);
            assert(w.tx_h_map[w.txs[m].txid] == w.txs[m].h);
        }
    }
}

proof fn lemma_entered_distinct(w: WalletModel, tx: WalletTx, insert_i: int)
    requires
        books_agree(w),
        0 <= insert_i <= w.txs.len(),
    ensures
        ({
            let r = with_tx(w, tx, insert_i);
            forall|i: int, j: int|
                0 <= i < j < r.txs.len() ==> (#[trigger] r.txs[i]).txid != (#[trigger] r.txs[j]).txid
        }),
{
    let r = with_tx(w, tx, insert_i);
    let p = entry_place(w, tx, insert_i);
    let o = others(w, tx.txid);
    lemma_entry(w, tx);
    lemma_known_bounds(w, tx.txid);
    assert forall|i: int, j: int| 0 <= i < j < r.txs.len() implies (#[trigger] r.txs[i]).txid != (
    #[trigger] r.txs[j]).txid by {
        let i0 = if i < p { i } else { i - 1 };
        let j0 = if j < p { j } else { j - 1 };
        if i != p {
            assert(r.txs[i] == o[i0]);
            lemma_other(w, tx.txid, i0);
        }
        if j != p {
            assert(r.txs[j] == o[j0]);
            lemma_other(w, tx.txid, j0);
        }
        if i != p && j != p {
            lemma_others_distinct(w, tx.txid, i0, j0);
        }
    }
}

/// Entering a transaction keeps the list and the map of heights in agreement: the transaction is
/// listed once, at its new height, and every other transaction stays as it was.
pub proof fn entering_keeps_the_books(w: WalletModel, tx: WalletTx, insert_i: int)
    requires
        books_agree(w),
        0 <= insert_i <= w.txs.len(),
    ensures
        books_agree(with_tx(w, tx, insert_i)),
        with_tx(w, tx, insert_i).txs[entry_place(w, tx, insert_i)] == entry(w, tx),
        with_tx(w, tx, insert_i).txs.len() == w.txs.len() + if w.tx_h_map.contains_key(tx.txid) {
            0int
        } else {
            1int
        },
        forall|i: int|
            0 <= i < w.txs.len() && (#[trigger] w.txs[i]).txid != tx.txid ==> with_tx(
                w,
                tx,
                insert_i,
            ).txs.contains(w.txs[i]),
{
    let r = with_tx(w, tx, insert_i);
    let p = entry_place(w, tx, insert_i);
    lemma_entry(w, tx);
    lemma_count(w, tx.txid);
    lemma_known_bounds(w, tx.txid);
    lemma_entered_heights(w, tx, insert_i);
    lemma_entered_distinct(w, tx, insert_i);
    assert forall|i: int| 0 <= i < w.txs.len() && (#[trigger] w.txs[i]).txid != tx.txid implies r.txs.contains(
        w.txs[i],
    ) by {
        lemma_other_kept(w, tx, insert_i, i);
    }
    assert forall|id: TxId| r.tx_h_map.contains_key(id) implies exists|i: int|
        0 <= i < r.txs.len() && #[trigger] r.txs[i].txid == id by {
        if id == tx.txid {
            assert(r.txs[p].txid == id);
        } else {
            let k = choose|k: int| 0 <= k < w.txs.len() && #[trigger] w.txs[k].txid == id;
            lemma_other_kept(w, tx, insert_i, k);
            let m = choose|m: int| 0 <= m < r.txs.len() && r.txs[m] == w.txs[k];
            assert(r.txs[m].txid == id);
        }
    }
}

proof fn lemma_others_distinct(w: WalletModel, txid: TxId, i: int, j: int)
    requires
        books_agree(w),
        0 <= i < j < others(w, txid).len(),
    ensures
        others(w, txid)[i].txid != others(w, txid)[j].txid,
{
    lemma_known_bounds(w, txid);
    match known_place(w, txid) {
        Some(q) => {
            let i0 = if i < q { i } else { i + 1 };
            let j0 = if j < q { j } else { j + 1 };
            assert(w.txs[i0].txid != w.txs[j0].txid);
        },
        None => {
            assert(w.txs[i].txid != w.txs[j].txid);
        },
    }
}

proof fn lemma_known_bounds(w: WalletModel, txid: TxId)
    ensures
        known_place(w, txid) matches Some(q) ==> 0 <= q < w.txs.len() && w.txs[q].txid == txid,
{
    if w.tx_h_map.contains_key(txid) {
        lemma_find_at(w.txs, Order::Recv, w.tx_h_map[txid].0, txid);
    }
}

proof fn lemma_other_kept(w: WalletModel, tx: WalletTx, insert_i: int, k: int)
    requires
        0 <= insert_i <= w.txs.len(),
        0 <= k < w.txs.len(),
        w.txs[k].txid != tx.txid,
    ensures
        with_tx(w, tx, insert_i).txs.contains(w.txs[k]),
        exists|m: int|
            0 <= m < with_tx(w, tx, insert_i).txs.len() && with_tx(w, tx, insert_i).txs[m]
                == w.txs[k],
{
    lemma_known_bounds(w, tx.txid);
    let r = with_tx(w, tx, insert_i).txs;
    let o = others(w, tx.txid);
    let p = entry_place(w, tx, insert_i);
    let k0 = match known_place(w, tx.txid) {
        Some(q) => if k < q {
            k
        } else {
            k - 1
        },
        None => k,
    };
    assert(o[k0] == w.txs[k]);
    let m = if k0 < p { k0 } else { k0 + 1 };
    assert(r[m] == w.txs[k]);
}

/// Entering a transaction where its height belongs keeps the list in the order of heights.
pub proof fn entering_keeps_the_order(w: WalletModel, tx: WalletTx, insert_i: int)
    requires
        in_order(w.txs, Order::Recv),
        0 <= insert_i <= w.txs.len(),
        forall|i: int| 0 <= i < insert_i ==> (#[trigger] w.txs[i]).h.0 <= tx.h.0,
        forall|i: int| insert_i <= i < w.txs.len() ==> (#[trigger] w.txs[i]).h.0 >= tx.h.0,
    ensures
        in_order(with_tx(w, tx, insert_i).txs, Order::Recv),
{
    lemma_known_bounds(w, tx.txid);
    lemma_entry(w, tx);
    let r = with_tx(w, tx, insert_i).txs;
    let o = others(w, tx.txid);
    let p = entry_place(w, tx, insert_i);
    assert forall|i: int, j: int| 0 <= i <= j < r.len() implies #[trigger] r[i].at(Order::Recv)
        <= #[trigger] r[j].at(Order::Recv) by {
        let i0 = if i < p { i } else { i - 1 };
        let j0 = if j < p { j } else { j - 1 };
        let (i1, j1) = match known_place(w, tx.txid) {
            Some(q) => (if i0 < q { i0 } else { i0 + 1 }, if j0 < q { j0 } else { j0 + 1 }),
            None => (i0, j0),
        };
        if i != p {
            assert(r[i] == o[i0] && o[i0] == w.txs[i1]);
        }
        if j != p {
            assert(r[j] == o[j0] && o[j0] == w.txs[j1]);
        }
        if i != p && j != p {
            assert(w.txs[i1].at(Order::Recv) <= w.txs[j1].at(Order::Recv));
        }
    }
}

/// In an ordered list, starting from a place behind which everything is at or above what is before
/// it, the place that `update_insert_i` finds is where a transaction of that height belongs.
pub proof fn the_place_belongs_to_the_height(txs: Seq<WalletTx>, from: int, h: u32)
    requires
        in_order(txs, Order::Recv),
        0 <= from <= txs.len(),
        forall|i: int| 0 <= i < from ==> (#[trigger] txs[i]).h.0 <= h,
    ensures
        from <= place_from(txs, from, h) <= txs.len(),
        forall|i: int| 0 <= i < place_from(txs, from, h) ==> (#[trigger] txs[i]).h.0 <= h,
        forall|i: int| place_from(txs, from, h) <= i < txs.len() ==> (#[trigger] txs[i]).h.0 > h,
    decreases txs.len() - from,
{
    if from < txs.len() && txs[from].h.0 <= h {
        the_place_belongs_to_the_height(txs, from + 1, h);
    } else {
        assert forall|i: int| from <= i < txs.len() implies (#[trigger] txs[i]).h.0 > h by {
            assert(txs[from].at(Order::Recv) <= txs[i].at(Order::Recv));
        }
    }
}

/// A sighting outside any block never takes the place of an entry in a block of the best chain.
pub proof fn a_mined_entry_is_not_displaced(w: WalletModel, tx: WalletTx)
    requires
        tx.h.0 >= MEMPOOL,
        known_place(w, tx.txid) matches Some(i) && w.txs[i].h.in_block() && w.txs[i].status is OnBc,
    ensures
        !is_entered(w, tx),
{
    lemma_known_bounds(w, tx.txid);
}

/// A sighting is entered where it spends, sends or receives something of the wallet, and only there.
/// One in a block always is; one in no block is, unless the transaction is known to be in a block of the
/// best chain and the sighting differs from what is known.
pub proof fn what_concerns_the_wallet_is_entered(w: WalletModel, tx: WalletTx, i: int)
    requires
        books_agree(w),
    ensures
        ({
            let (t, s) = (tx.parts[0], tx.parts[1]);
            let moves = t.spent_note_count > 0 || t.sent_note_count > 0 || t.recv_note_count > 0
                || s.spent_note_count > 0 || s.sent_note_count > 0 || s.recv_note_count > 0;
            &&& is_entered(w, tx) ==> moves
            &&& moves && tx.h.0 < MEMPOOL ==> is_entered(w, tx)
            &&& moves && !w.tx_h_map.contains_key(tx.txid) ==> is_entered(w, tx)
            &&& moves && 0 <= i < w.txs.len() && w.txs[i].txid == tx.txid && tx.h.0 >= MEMPOOL ==> (
            is_entered(w, tx) <==> w.txs[i] == tx || w.txs[i].h.0 >= MEMPOOL || !(
            w.txs[i].status is OnBc))
        }),
{
    assert(tx.parts@[0] == tx.parts[0] && tx.parts@[1] == tx.parts[1]);
    if 0 <= i < w.txs.len() && w.txs[i].txid == tx.txid {
        a_listed_transaction_is_found(w, i);
    }
}

/// Where a new sighting of a known transaction does not have a flag, every field that the flag stands
/// for is in the entry afterwards what it was in the earlier entry. Where it has the flag, the field is
/// what the sighting says. What was looked at before or is now has been looked at afterwards. The
/// height, the state and everything else are those of the sighting.
pub proof fn what_was_not_looked_at_stays(w: WalletModel, tx: WalletTx, insert_i: int, i: int, p: int)
    requires
        books_agree(w),
        0 <= insert_i <= w.txs.len(),
        0 <= i < w.txs.len(),
        w.txs[i].txid == tx.txid,
        0 <= p < with_tx(w, tx, insert_i).txs.len(),
        with_tx(w, tx, insert_i).txs[p].txid == tx.txid,
    ensures
        ({
            let old_tx = w.txs[i];
            let e = with_tx(w, tx, insert_i).txs[p];
            let f = tx.part_flags;
            let (o, n, m) = (old_tx.parts[1], tx.parts[1], e.parts[1]);
            &&& e.parts[0] == if f & TxParts::TRANSPARENT == 0 {
                old_tx.parts[0]
            } else {
                tx.parts[0]
            }
            &&& f & TxParts::SHIELDED_RECV == 0 ==> m.recv_note_count == o.recv_note_count
                && m.recv_zats == o.recv_zats
            &&& f & TxParts::SHIELDED_RECV != 0 ==> m.recv_note_count == n.recv_note_count
                && m.recv_zats == n.recv_zats
            &&& f & TxParts::SHIELDED_SENT == 0 ==> m.spent_note_count == o.spent_note_count
                && m.spent_zats == o.spent_zats && m.sent_note_count == o.sent_note_count
                && m.sent_zats == o.sent_zats
            &&& f & TxParts::SHIELDED_SENT != 0 ==> m.spent_note_count == n.spent_note_count
                && m.spent_zats == n.spent_zats && m.sent_note_count == n.sent_note_count
                && m.sent_zats == n.sent_zats
            &&& f & TxParts::MEMO == 0 ==> e.memo == old_tx.memo && e.memo_count == old_tx.memo_count
            &&& f & TxParts::MEMO != 0 ==> e.memo == tx.memo && e.memo_count == tx.memo_count
            &&& f & TxParts::STAKING_ACTION == 0 ==> e.staking_action == old_tx.staking_action
            &&& f & TxParts::STAKING_ACTION != 0 ==> e.staking_action == tx.staking_action
            &&& e.part_flags == f | old_tx.part_flags
            &&& e.account_id == tx.account_id
            &&& e.expiry_h == tx.expiry_h
            &&& e.h == tx.h
            &&& e.status == tx.status
            &&& e.is_coinbase == tx.is_coinbase
        }),
{
    reveal(merged);
    a_listed_transaction_is_found(w, i);
    entering_keeps_the_books(w, tx, insert_i);
    lemma_known_bounds(w, tx.txid);
    let r = with_tx(w, tx, insert_i);
    let q = entry_place(w, tx, insert_i);
    lemma_entry(w, tx);
    if p < q {
        assert(r.txs[p].txid != r.txs[q].txid);
    }
    if q < p {
        assert(r.txs[q].txid != r.txs[p].txid);
    }
    let e = r.txs[p];
    let old_tx = w.txs[i];
    assert(e == merged(old_tx, tx));
    assert(old_tx.parts@[0] == old_tx.parts[0] && old_tx.parts@[1] == old_tx.parts[1]);
    assert(e.parts@[0] == e.parts[0] && e.parts@[1] == e.parts[1]);
    let f = tx.part_flags;
    assert(f | f == f) by (bit_vector);
}

/// A transaction that was not known is entered as it was seen.
pub proof fn a_first_sighting_is_entered_as_it_is(w: WalletModel, tx: WalletTx, insert_i: int)
    requires
        books_agree(w),
        0 <= insert_i <= w.txs.len(),
        !w.tx_h_map.contains_key(tx.txid),
    ensures
        with_tx(w, tx, insert_i).txs == w.txs.insert(insert_i, tx),
        with_tx(w, tx, insert_i).tx_h_map[tx.txid] == tx.h,
{
}

/// Entering a transaction changes nothing of the wallet but its list and the height of that one
/// transaction.
pub proof fn entering_touches_the_list_only(w: WalletModel, tx: WalletTx, insert_i: int)
    ensures
        ({
            let r = with_tx(w, tx, insert_i);
            &&& r.name == w.name
            &&& r.accounts == w.accounts
            &&& r.strms == w.strms
            &&& r.chain_tip_h == w.chain_tip_h
            &&& r.seen_bond_values == w.seen_bond_values
            &&& r.care_about_bonds == w.care_about_bonds
            &&& forall|id: TxId|
                id != tx.txid ==> (#[trigger] r.tx_h_map.contains_key(id)
                    == w.tx_h_map.contains_key(id)) && (w.tx_h_map.contains_key(id)
                    ==> r.tx_h_map[id] == w.tx_h_map[id])
        }),
{
}

/// Every sighting is audited as it comes. Where it is not entered, nothing else is: the log changes as if
/// it had been audited alone. A snapshot that was given up stays so.
pub proof fn every_sighting_is_audited(m: AuditModel, w: WalletModel, tx: WalletTx, insert_i: int)
    ensures
        !is_entered(w, tx) ==> log_tx(m, w, tx, insert_i) == log_audit(m, w.accounts, tx),
        m.marker_dropped ==> log_tx(m, w, tx, insert_i).marker_dropped,
        is_entered(w, tx) && log_audit(m, w.accounts, tx).marker_dropped ==> log_tx(
            m,
            w,
            tx,
            insert_i,
        ).marker_dropped,
{
    let seen = log_audit(m, w.accounts, tx);
    let again = log_audit(seen, w.accounts, entry(w, tx));
    if again.marker_dropped {
        lemma_marker_stays(again, w.accounts, with_tx(w, tx, insert_i).txs);
    }
}

proof fn lemma_marker_stays(m: AuditModel, accounts: Seq<AccountModel>, txs: Seq<WalletTx>)
    requires
        m.marker_dropped,
    ensures
        log_audits(m, accounts, txs).marker_dropped,
    decreases txs.len(),
{
    if txs.len() > 0 {
        lemma_marker_stays(m, accounts, txs.drop_last());
    }
}

} // verus!
