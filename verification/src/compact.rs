//! Reading the transactions of compact blocks.
use crate::accounts::{AccountModel, ManualWallet, WalletModel};
use crate::audit::{note_count, notes_countable, AuditLog, AuditModel};
use crate::books::{is_entered, log_tx, update_with_tx, with_tx, entry_place};
use crate::height::BlockHeight;
use crate::notes::TxId;
use crate::orchard_scan::{
    compact_note, compact_of, compact_ok, decrypt_compact, CompactOrchardAction, PreparedKeys,
    Scope,
};
use crate::scan::{
    action_part, after_action, an_action_keeps_the_notes, handle_orchard_action, notes_amounts_ok,
    ActionSight,
};
use crate::tree::{
    append_marked, leaf_count, shard_tree_size, tree_with_leaf, OrchardShardTree, TreeModel,
};
use crate::tx_part::{TxParts, WalletTxPart};
use crate::wire::{array_of, lemma_array_of};
use crate::wallet_tx::{blank_memo, no_memo, TxStatus, WalletTx};
use crate::zats::MAX_MONEY;
use vstd::prelude::*;

verus! {

/// A transaction of a compact block.
#[derive(Debug)]
pub struct CompactTx {
    pub hash: Vec<u8>,
    pub actions: Vec<CompactOrchardAction>,
}

/// How far the reading of a compact transaction has come.
pub struct CompactState {
    pub account: AccountModel,
    pub tree: TreeModel,
    /// The position of the next note in the commitment tree.
    pub next: u64,
    /// What the actions so far move.
    pub part: WalletTxPart,
    /// Whether the tree has taken every commitment.
    pub ok: bool,
}

/// A sum of parts, or the first where the sum cannot exist.
pub open spec fn plus_or_same(a: WalletTxPart, b: Option<WalletTxPart>) -> WalletTxPart {
    match b {
        Some(p) => match a.plus(p) {
            Some(q) => q,
            None => a,
        },
        None => a,
    }
}

/// What a key sees in a compact action.
pub open spec fn compact_sight(
    keys: PreparedKeys,
    h: BlockHeight,
    txid: TxId,
    next: u64,
    raw: CompactOrchardAction,
) -> ActionSight {
    let a = compact_of(raw);
    ActionSight {
        position: next,
        block_h: h,
        txid,
        spent_nf: a.nullifier,
        received: match keys.orchard_fvk {
            Some(fvk) => compact_note(fvk, keys.scope == Scope::Internal, a),
            None => None,
        },
        sent: None,
    }
}

/// One more action. Fields that are no action are passed over; a commitment that is new to the tree
/// is put into it, where it is the next one.
pub open spec fn compact_step(
    st: CompactState,
    m: Map<TxId, BlockHeight>,
    keys: PreparedKeys,
    h: BlockHeight,
    txid: TxId,
    raw: CompactOrchardAction,
) -> CompactState {
    if !st.ok || !compact_ok(raw) {
        st
    } else {
        let grown = tree_with_leaf(st.tree, compact_of(raw).cmx@);
        let is_new = st.next >= leaf_count(st.tree.shards);
        if is_new && (st.next > leaf_count(st.tree.shards) || grown is None) {
            CompactState { ok: false, ..st }
        } else {
            let sight = compact_sight(keys, h, txid, st.next, raw);
            CompactState {
                account: after_action(st.account, m, keys, sight),
                tree: if is_new {
                    grown->Some_0
                } else {
                    st.tree
                },
                next: (st.next + 1) as u64,
                part: plus_or_same(st.part, action_part(st.account, keys, sight)),
                ok: true,
            }
        }
    }
}

/// The actions of a transaction, one after the other.
pub open spec fn compact_steps(
    st: CompactState,
    m: Map<TxId, BlockHeight>,
    keys: PreparedKeys,
    h: BlockHeight,
    txid: TxId,
    actions: Seq<CompactOrchardAction>,
) -> CompactState
    decreases actions.len(),
{
    if actions.len() == 0 {
        st
    } else {
        compact_step(
            compact_steps(st, m, keys, h, txid, actions.drop_last()),
            m,
            keys,
            h,
            txid,
            actions.last(),
        )
    }
}

/// The state before the first action.
pub open spec fn compact_start(a: AccountModel, tree: TreeModel, next: u64) -> CompactState {
    CompactState { account: a, tree, next, part: WalletTxPart::nothing(), ok: true }
}

/// The entry that a compact transaction gives.
pub open spec fn compact_entry(
    account_i: usize,
    txid: TxId,
    h: BlockHeight,
    part: WalletTxPart,
) -> WalletTx {
    WalletTx {
        account_id: account_i,
        txid,
        expiry_h: None,
        h,
        part_flags: TxParts::SHIELDED_RECV,
        parts: [WalletTxPart::nothing(), part],
        memo_count: 0,
        memo: no_memo(),
        is_coinbase: false,
        status: TxStatus::OnBc,
        staking_action: None,
    }
}

/// Whether anything moves in a part.
pub open spec fn moves_anything(p: WalletTxPart) -> bool {
    p.spent_note_count != 0 || p.sent_note_count != 0 || p.recv_note_count != 0
}

/// The wallet with one account replaced.
pub open spec fn with_account(w: WalletModel, i: int, a: AccountModel) -> WalletModel {
    WalletModel { accounts: w.accounts.update(i, a), ..w }
}

/// The accounts' notes can be counted after one account has got some.
pub proof fn lemma_countable(accounts: Seq<AccountModel>, i: int, a: AccountModel, room: nat)
    requires
        0 <= i < accounts.len(),
        notes_countable(accounts),
        note_count(accounts) + room <= usize::MAX,
        a.recv_orchard_notes.len() <= accounts[i].recv_orchard_notes.len() + room,
        notes_amounts_ok(a),
    ensures
        notes_countable(accounts.update(i, a)),
{
    lemma_note_count_update(accounts, i, a);
    let b = accounts.update(i, a);
    assert forall|j: int, k: int|
        0 <= j < b.len() && 0 <= k < b[j].recv_orchard_notes.len() implies (
    #[trigger] b[j].recv_orchard_notes[k]).note.value <= MAX_MONEY by {
        if j == i {
            assert(a.recv_orchard_notes[k].note.value <= MAX_MONEY);
        } else {
            assert(accounts[j].recv_orchard_notes[k].note.value <= MAX_MONEY);
        }
    }
}

proof fn lemma_note_count_update(accounts: Seq<AccountModel>, i: int, a: AccountModel)
    requires
        0 <= i < accounts.len(),
    ensures
        note_count(accounts.update(i, a)) + accounts[i].recv_orchard_notes.len() == note_count(
            accounts,
        ) + a.recv_orchard_notes.len(),
    decreases accounts.len(),
{
    let b = accounts.update(i, a);
    if i == accounts.len() - 1 {
        assert(b.drop_last() =~= accounts.drop_last());
    } else {
        assert(b.drop_last() =~= accounts.drop_last().update(i, a));
        lemma_note_count_update(accounts.drop_last(), i, a);
    }
}

/// What stays true while the actions of a transaction are read.
spec fn state_ok(st: CompactState, a: AccountModel, n: nat) -> bool {
    &&& notes_amounts_ok(st.account)
    &&& st.account.recv_orchard_notes.len() <= a.recv_orchard_notes.len() + n
    &&& st.part.wf()
    &&& st.part.spent_note_count <= n
    &&& st.part.sent_note_count <= n
    &&& st.part.recv_note_count <= n
}

proof fn lemma_step_ok(
    st: CompactState,
    a: AccountModel,
    n: nat,
    m: Map<TxId, BlockHeight>,
    keys: PreparedKeys,
    s: ActionSight,
)
    requires
        state_ok(st, a, n),
        n < usize::MAX,
    ensures
        notes_amounts_ok(after_action(st.account, m, keys, s)),
        after_action(st.account, m, keys, s).recv_orchard_notes.len() <= a.recv_orchard_notes.len()
            + n + 1,
        ({
            let q = plus_or_same(st.part, action_part(st.account, keys, s));
            q.wf() && q.spent_note_count <= n + 1 && q.sent_note_count <= n + 1 && q.recv_note_count
                <= n + 1
        }),
{
    an_action_keeps_the_notes(st.account, m, keys, s);
}

/// A wallet, the tree, the next position, the place in the list, and the log.
pub struct ScanState {
    pub wallet: WalletModel,
    pub tree: TreeModel,
    pub next: u64,
    pub insert_i: int,
    pub log: AuditModel,
    /// Whether the tree has taken every commitment.
    pub ok: bool,
}

/// The id of a compact transaction.
pub open spec fn compact_id(tx: CompactTx) -> TxId {
    array_of::<32>(tx.hash@)
}

/// How the actions of a transaction are read.
pub open spec fn compact_read(
    st: ScanState,
    account_i: usize,
    keys: PreparedKeys,
    h: BlockHeight,
    tx: CompactTx,
) -> CompactState {
    compact_steps(
        compact_start(st.wallet.accounts[account_i as int], st.tree, st.next),
        st.wallet.tx_h_map,
        keys,
        h,
        compact_id(tx),
        tx.actions@,
    )
}

/// Whether a transaction was read to its end and moved something.
pub open spec fn is_ours(
    st: ScanState,
    account_i: usize,
    keys: PreparedKeys,
    h: BlockHeight,
    tx: CompactTx,
) -> bool {
    let read = compact_read(st, account_i, keys, h, tx);
    read.ok && moves_anything(read.part)
}

/// What comes of reading a transaction of a compact block.
pub open spec fn compact_tx_read(
    st: ScanState,
    account_i: usize,
    keys: PreparedKeys,
    h: BlockHeight,
    tx: CompactTx,
) -> ScanState {
    let read = compact_read(st, account_i, keys, h, tx);
    let w = with_account(st.wallet, account_i as int, read.account);
    let e = compact_entry(account_i, compact_id(tx), h, read.part);
    let enters = is_ours(st, account_i, keys, h, tx) && is_entered(w, e);
    ScanState {
        wallet: if enters {
            with_tx(w, e, st.insert_i)
        } else {
            w
        },
        tree: read.tree,
        next: read.next,
        insert_i: if enters {
            entry_place(w, e, st.insert_i) + 1
        } else {
            st.insert_i
        },
        log: if is_ours(st, account_i, keys, h, tx) {
            log_tx(st.log, w, e, st.insert_i)
        } else {
            st.log
        },
        ok: read.ok,
    }
}

/// Reads a transaction of a compact block into an account: its actions one after the other, and the
/// commitments that are new into the tree. It is entered into the wallet's list if anything moved.
/// The transaction's id, whether anything moved, and whether the tree took every commitment.
pub fn read_compact_tx(
    wallet: &mut ManualWallet,
    account_i: usize,
    keys: &PreparedKeys,
    block_h: BlockHeight,
    tx: &CompactTx,
    next_orchard_pos: &mut u64,
    insert_i: &mut usize,
    orchard_tree: &mut OrchardShardTree,
    log: &mut AuditLog,
) -> (r: (TxId, bool, bool))
    requires
        tx.hash@.len() == 32,
        account_i < old(wallet).accounts@.len(),
        old(wallet).tx_h_map.wf(),
        old(log).wf(),
        notes_countable(old(wallet)@.accounts),
        note_count(old(wallet)@.accounts) + tx.actions@.len() <= usize::MAX,
        notes_amounts_ok(old(wallet)@.accounts[account_i as int]),
        *old(insert_i) <= old(wallet)@.txs.len(),
        *old(insert_i) < usize::MAX,
        *old(next_orchard_pos) + tx.actions@.len() <= u64::MAX,
    ensures
        r.0 == compact_id(*tx),
        r.0@ == tx.hash@,
        ({
            let st = ScanState {
                wallet: old(wallet)@,
                tree: old(orchard_tree)@,
                next: *old(next_orchard_pos),
                insert_i: *old(insert_i) as int,
                log: old(log)@,
                ok: true,
            };
            let after = compact_tx_read(st, account_i, *keys, block_h, *tx);
            &&& final(wallet)@ == after.wallet
            &&& final(orchard_tree)@ == after.tree
            &&& *final(next_orchard_pos) == after.next
            &&& *final(insert_i) == after.insert_i
            &&& final(log)@ == after.log
            &&& r.1 == is_ours(st, account_i, *keys, block_h, *tx)
            &&& r.2 == after.ok
        }),
        final(wallet).tx_h_map.wf(),
        final(wallet).seen_bond_values == old(wallet).seen_bond_values,
        final(wallet).accounts@.len() == old(wallet).accounts@.len(),
        final(log).wf(),
        notes_countable(final(wallet)@.accounts),
        note_count(final(wallet)@.accounts) <= note_count(old(wallet)@.accounts) + tx.actions@.len(),
        notes_amounts_ok(final(wallet)@.accounts[account_i as int]),
        *final(insert_i) <= final(wallet)@.txs.len() <= old(wallet)@.txs.len() + 1,
        *old(next_orchard_pos) <= *final(next_orchard_pos) <= *old(next_orchard_pos)
            + tx.actions@.len(),
        *old(next_orchard_pos) <= leaf_count(old(orchard_tree)@.shards) ==> *final(next_orchard_pos)
            <= leaf_count(final(orchard_tree)@.shards),
{
    let txid: TxId = crate::bytes::array_from_slice::<32>(&tx.hash);
    proof {
        assert(txid@ =~= tx.hash@);
        lemma_array_of(txid);
    }
    let ghost w0 = wallet@;
    let ghost a0 = w0.accounts[account_i as int];
    let ghost m = w0.tx_h_map;
    let ghost st0 = compact_start(a0, orchard_tree@, *next_orchard_pos);
    let mut part = WalletTxPart::zero();
    let mut i: usize = 0;
    assert(wallet@.accounts =~= w0.accounts.update(account_i as int, a0));
    while i < tx.actions.len()
        invariant
            i <= tx.actions@.len(),
            w0 == old(wallet)@,
            account_i < w0.accounts.len(),
            a0 == w0.accounts[account_i as int],
            m == w0.tx_h_map,
            wallet.tx_h_map == old(wallet).tx_h_map,
            wallet.tx_h_map.wf(),
            wallet.seen_bond_values == old(wallet).seen_bond_values,
            wallet.accounts@.len() == w0.accounts.len(),
            notes_countable(w0.accounts),
            note_count(w0.accounts) + tx.actions@.len() <= usize::MAX,
            st0 == compact_start(a0, old(orchard_tree)@, *old(next_orchard_pos)),
            ({
                let st = compact_steps(st0, m, *keys, block_h, txid, tx.actions@.take(i as int));
                &&& st.ok
                &&& state_ok(st, a0, i as nat)
                &&& wallet@ == with_account(w0, account_i as int, st.account)
                &&& orchard_tree@ == st.tree
                &&& *next_orchard_pos == st.next
                &&& part == st.part
            }),
            *old(next_orchard_pos) <= *next_orchard_pos <= *old(next_orchard_pos) + i,
            *old(next_orchard_pos) <= leaf_count(old(orchard_tree)@.shards) ==> *next_orchard_pos
                <= leaf_count(orchard_tree@.shards),
            *old(next_orchard_pos) + tx.actions@.len() <= u64::MAX,
            *log == *old(log),
            log.wf(),
            txid == compact_id(*tx),
            txid@ == tx.hash@,
            notes_amounts_ok(a0),
            *insert_i == *old(insert_i),
            *insert_i <= wallet@.txs.len(),
        decreases tx.actions.len() - i,
    {
        let ghost st = compact_steps(st0, m, *keys, block_h, txid, tx.actions@.take(i as int));
        proof {
            assert(tx.actions@.take(i + 1).drop_last() =~= tx.actions@.take(i as int));
        }
        if let Some(action) = tx.actions[i].to_action() {
            let received = match &keys.orchard_fvk {
                Some(fvk) => {
                    let internal = match keys.scope {
                        Scope::Internal => true,
                        Scope::External => false,
                    };
                    decrypt_compact(fvk, internal, &action)
                },
                None => None,
            };
            let position: u64 = *next_orchard_pos;
            let size = shard_tree_size(orchard_tree);
            if position >= size {
                if position > size || !append_marked(orchard_tree, &action.cmx) {
                    proof {
                        lemma_countable(
                            w0.accounts,
                            account_i as int,
                            wallet@.accounts[account_i as int],
                            tx.actions@.len(),
                        );
                        lemma_note_count_update(
                            w0.accounts,
                            account_i as int,
                            wallet@.accounts[account_i as int],
                        );
                        lemma_stopped(
                            st0,
                            m,
                            *keys,
                            block_h,
                            txid,
                            tx.actions@,
                            i as int + 1,
                        );
                    }
                    return (txid, false, false);
                }
            }
            *next_orchard_pos = position + 1;
            let sight = ActionSight {
                position,
                block_h,
                txid,
                spent_nf: action.nullifier,
                received,
                sent: None,
            };
            proof {
                assert(sight == compact_sight(*keys, block_h, txid, position, tx.actions@[i as int]));
                lemma_step_ok(st, a0, i as nat, m, *keys, sight);
            }
            let moved = handle_orchard_action(wallet, account_i, keys, &sight);
            proof {
                assert(wallet@.accounts =~= w0.accounts.update(
                    account_i as int,
                    after_action(st.account, m, *keys, sight),
                ));
            }
            if let Some(p) = moved {
                if let Some(sum) = part.checked_add(&p) {
                    part = sum;
                }
            }
        }
        i += 1;
    }
    assert(tx.actions@.take(i as int) =~= tx.actions@);
    let ghost st = compact_steps(st0, m, *keys, block_h, txid, tx.actions@);
    let ghost read = with_account(w0, account_i as int, st.account);
    assert(wallet@ == read);
    proof {
        lemma_countable(
            w0.accounts,
            account_i as int,
            wallet@.accounts[account_i as int],
            tx.actions@.len(),
        );
        lemma_note_count_update(
            w0.accounts,
            account_i as int,
            wallet@.accounts[account_i as int],
        );
    }
    if part.spent_note_count != 0 || part.sent_note_count != 0 || part.recv_note_count != 0 {
        let new_tx = WalletTx {
            account_id: account_i,
            txid,
            expiry_h: None,
            h: block_h,
            part_flags: TxParts::SHIELDED_RECV,
            parts: [WalletTxPart::zero(), part],
            memo_count: 0,
            memo: blank_memo(),
            is_coinbase: false,
            status: TxStatus::OnBc,
            staking_action: None,
        };
        proof {
            assert(new_tx == compact_entry(account_i, txid, block_h, st.part));
        }
        update_with_tx(wallet, new_tx, insert_i, log);
        (txid, true, true)
    } else {
        (txid, false, true)
    }
}

proof fn lemma_stopped(
    st: CompactState,
    m: Map<TxId, BlockHeight>,
    keys: PreparedKeys,
    h: BlockHeight,
    txid: TxId,
    actions: Seq<CompactOrchardAction>,
    n: int,
)
    requires
        0 <= n <= actions.len(),
        !compact_steps(st, m, keys, h, txid, actions.take(n)).ok,
    ensures
        compact_steps(st, m, keys, h, txid, actions) == compact_steps(
            st,
            m,
            keys,
            h,
            txid,
            actions.take(n),
        ),
    decreases actions.len() - n,
{
    if n < actions.len() {
        assert(actions.take(n + 1).drop_last() =~= actions.take(n));
        lemma_stopped(st, m, keys, h, txid, actions, n + 1);
    } else {
        assert(actions.take(n) =~= actions);
    }
}

} // verus!
