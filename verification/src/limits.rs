//! Whether a wallet is in a state to go on from: its amounts can exist, and there is room for more.
use crate::accounts::{
    account_models, note_amounts_ok, AccountModel, ManualAccount, ManualWallet,
};
use crate::audit::{note_count, notes_countable};
use crate::blocks::has_room;
use crate::full_tx::FullTx;
use crate::notes::OrchardNote;

use crate::walkback::SyncState;
use crate::wallet_tx::WalletTx;
use crate::zats::MAX_MONEY;
use vstd::prelude::*;

verus! {

fn amounts_exist(v: &Vec<OrchardNote>) -> (r: bool)
    ensures
        r == note_amounts_ok(v@),
{
    let mut i: usize = 0;
    while i < v.len()
        invariant
            i <= v@.len(),
            forall|k: int| 0 <= k < i ==> (#[trigger] v@[k]).note.value <= MAX_MONEY,
        decreases v@.len() - i,
    {
        if v[i].note.value > MAX_MONEY {
            assert(v@[i as int].note.value > MAX_MONEY);
            return false;
        }
        i += 1;
    }
    true
}

/// How many notes some accounts have received, if they can be counted and their amounts can exist.
fn counted_notes(accounts: &Vec<ManualAccount>) -> (r: Option<usize>)
    ensures
        match r {
            Some(n) => notes_countable(account_models(accounts@)) && n == note_count(
                account_models(accounts@),
            ),
            None => !notes_countable(account_models(accounts@)),
        },
{
    let ghost all = account_models(accounts@);
    let mut n: usize = 0;
    let mut i: usize = 0;
    assert(all.take(0) =~= seq![]);
    while i < accounts.len()
        invariant
            i <= accounts@.len(),
            all == account_models(accounts@),
            n == note_count(all.take(i as int)),
            forall|a: int, k: int|
                0 <= a < i && 0 <= k < all[a].recv_orchard_notes.len() ==> (
                #[trigger] all[a].recv_orchard_notes[k]).note.value <= MAX_MONEY,
        decreases accounts@.len() - i,
    {
        let notes = &accounts[i].recv_orchard_notes;
        proof {
            assert(all.take(i + 1).drop_last() =~= all.take(i as int));
            assert(all[i as int].recv_orchard_notes == notes@);
            lemma_note_count_grows(all, i as int + 1);
        }
        if !amounts_exist(notes) {
            proof {
                let k = choose|k: int|
                    0 <= k < notes@.len() && (#[trigger] notes@[k]).note.value > MAX_MONEY;
                assert(all[i as int].recv_orchard_notes[k].note.value > MAX_MONEY);
            }
            return None;
        }
        match n.checked_add(notes.len()) {
            Some(s) => {
                n = s;
            },
            None => {
                return None;
            },
        }
        i += 1;
    }
    assert(all.take(i as int) =~= all);
    Some(n)
}

proof fn lemma_note_count_grows(all: Seq<AccountModel>, n: int)
    requires
        0 <= n <= all.len(),
    ensures
        note_count(all.take(n)) <= note_count(all),
    decreases all.len() - n,
{
    if n < all.len() {
        assert(all.take(n + 1).drop_last() =~= all.take(n));
        lemma_note_count_grows(all, n + 1);
    } else {
        assert(all.take(n) =~= all);
    }
}

impl ManualWallet {
    /// Whether the wallet has room for so many actions and transactions.
    pub fn has_room_for(&self, actions: usize, txs: usize) -> (r: bool)
        requires
            self.tx_h_map.wf(),
        ensures
            r == has_room(self, actions as nat, txs as nat),
    {
        if self.accounts.len() == 0 {
            return false;
        }
        let n: usize = match counted_notes(&self.accounts) {
            Some(n) => n,
            None => {
                return false;
            },
        };
        let a = &self.accounts[0];
        if !amounts_exist(&a.recv_orchard_notes) || !amounts_exist(&a.unspent_orchard_notes)
            || !amounts_exist(&a.spent_orchard_notes) {
            return false;
        }
        n.checked_add(actions).is_some() && match self.txs.len().checked_add(txs) {
            Some(t) => t < usize::MAX,
            None => false,
        }
    }

    /// Whether a proposal for the wallet is small enough to be put together.
    pub fn can_propose(&self, tx: &WalletTx, outputs: usize) -> (r: bool)
        ensures
            r == self.ask_size_ok(*tx, outputs as nat),
    {
        if self.accounts.len() == 0 || self.chain_tip_h.0 == u32::MAX {
            return false;
        }
        if tx.memo_count.checked_add(outputs).is_none() {
            return false;
        }
        let a = &self.accounts[0];
        let coins: usize = match a.utxos.len().checked_add(a.unspent_orchard_notes.len()) {
            Some(n) => n,
            None => {
                return false;
            },
        };
        let all: usize = match coins.checked_add(outputs) {
            Some(n) => n,
            None => {
                return false;
            },
        };
        all <= usize::MAX / 150 - 4
    }
}

/// Whether the parts of a transaction can be numbered.
pub open spec fn can_be_numbered(tx: FullTx) -> bool {
    tx.transparent matches Some(b) ==> {
        &&& b.vout@.len() <= 0x1_0000_0000
        &&& b.vout@.len() < usize::MAX
        &&& b.vin@.len() + tx.actions@.len() <= usize::MAX
        &&& b.vout@.len() + tx.actions@.len() <= usize::MAX
    }
}

/// Whether the parts of a transaction can be numbered.
pub fn is_numbered(tx: &FullTx) -> (r: bool)
    ensures
        r == can_be_numbered(*tx),
{
    match &tx.transparent {
        Some(b) => {
            assert(b.vout.len() == b.vout@.len());
            b.vout.len() as u64 <= 0x1_0000_0000 && b.vout.len() < usize::MAX
                && b.vin.len().checked_add(tx.actions.len()).is_some()
                && b.vout.len().checked_add(tx.actions.len()).is_some()
        },
        None => true,
    }
}

impl SyncState {
    /// Whether there is a tip, and its height is one that a block can have.
    pub fn has_tip(&self) -> (r: bool)
        ensures
            r == self.wf(),
    {
        assert(self.pow_cache.hashes.len() == self.pow_cache.hashes@.len());
        self.pow_cache.hashes.len() as u64 == self.pow_cache.next_tip_h && 0
            < self.pow_cache.next_tip_h && self.pow_cache.next_tip_h <= 0x1_0000_0000
    }
}

} // verus!
