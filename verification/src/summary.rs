//! How a wallet stands as a whole.
use crate::accounts::ManualWallet;
use crate::height::BlockHeight;
use crate::zats::Zatoshis;
use vstd::prelude::*;

verus! {

/// A wallet in short: the balance of each account, the height of the chain, and the height up to
/// which everything was decoded.
#[derive(Debug)]
pub struct WalletSummary {
    pub account_balances: Vec<Zatoshis>,
    pub chain_tip_h: BlockHeight,
    pub fully_scanned_h: BlockHeight,
}

impl ManualWallet {
    /// The height of the chain.
    pub fn chain_height(&self) -> (r: BlockHeight)
        ensures
            r == self.chain_tip_h,
    {
        self.chain_tip_h
    }

    /// The height up to which the transactions of all accounts were detected for good. Nothing is for
    /// good yet.
    pub fn fully_detected_height(&self) -> (r: BlockHeight)
        ensures
            r.0 == 0,
            forall|i: int|
                0 <= i < self.accounts@.len() ==> r.0 <= (#[trigger] self.accounts@[i]).fully_detected_h.0,
    {
        let mut h: u32 = 0;
        let mut i: usize = 0;
        while i < self.accounts.len()
            invariant
                i <= self.accounts@.len(),
                h == 0,
            decreases self.accounts@.len() - i,
        {
            if self.accounts[i].fully_detected_h.0 < h {
                h = self.accounts[i].fully_detected_h.0;
            }
            i += 1;
        }
        BlockHeight(h)
    }

    /// The height up to which the transactions of all accounts were decoded for good. Nothing is for
    /// good yet.
    pub fn fully_decoded_height(&self) -> (r: BlockHeight)
        ensures
            r.0 == 0,
            forall|i: int|
                0 <= i < self.accounts@.len() ==> r.0 <= (#[trigger] self.accounts@[i]).fully_decoded_h.0,
    {
        let mut h: u32 = 0;
        let mut i: usize = 0;
        while i < self.accounts.len()
            invariant
                i <= self.accounts@.len(),
                h == 0,
            decreases self.accounts@.len() - i,
        {
            if self.accounts[i].fully_decoded_h.0 < h {
                h = self.accounts[i].fully_decoded_h.0;
            }
            i += 1;
        }
        BlockHeight(h)
    }

    /// The wallet in short.
    pub fn get_wallet_summary(&self) -> (r: WalletSummary)
        requires
            forall|i: int|
                0 <= i < self.accounts@.len() ==> (#[trigger] self.accounts@[i]).balance_changes@.len()
                    > 0,
        ensures
            r.account_balances@ == Seq::new(
                self.accounts@.len(),
                |i: int| self.accounts@[i].balance_changes@.last().1,
            ),
            r.chain_tip_h == self.chain_tip_h,
            r.fully_scanned_h.0 == 0,
    {
        let mut account_balances: Vec<Zatoshis> = Vec::new();
        let mut i: usize = 0;
        while i < self.accounts.len()
            invariant
                i <= self.accounts@.len(),
                account_balances@.len() == i,
                forall|k: int|
                    0 <= k < self.accounts@.len() ==> (
                    #[trigger] self.accounts@[k]).balance_changes@.len() > 0,
                forall|k: int|
                    0 <= k < i ==> #[trigger] account_balances@[k]
                        == self.accounts@[k].balance_changes@.last().1,
            decreases self.accounts@.len() - i,
        {
            let changes = &self.accounts[i].balance_changes;
            assert(self.accounts@[i as int].balance_changes@.len() > 0);
            account_balances.push(changes[changes.len() - 1].1);
            i += 1;
        }
        assert(account_balances@ =~= Seq::new(
            self.accounts@.len(),
            |i: int| self.accounts@[i].balance_changes@.last().1,
        ));
        WalletSummary {
            account_balances,
            chain_tip_h: self.chain_tip_h,
            fully_scanned_h: self.fully_decoded_height(),
        }
    }
}

} // verus!
