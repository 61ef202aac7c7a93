//! The wallet's books: accounts, address streams and the list of transactions.
use crate::byte_map::{ByteMap, Key};
use crate::height::BlockHeight;
use crate::listing::{in_order, Order};
use crate::notes::{OrchardNote, TransparentAddress, TxId, Txo};
use crate::wallet_tx::WalletTx;
use crate::zats::{Zatoshis, MAX_MONEY};
use vstd::prelude::*;

verus! {

/// One account of a wallet.
#[derive(Debug)]
pub struct ManualAccount {
    pub fully_detected_h: BlockHeight,
    pub fully_decoded_h: BlockHeight,
    /// The account's viewing key, in the text encoding of the wallet's network.
    pub ufvk: String,
    pub birthday: BlockHeight,
    pub balance_changes: Vec<(BlockHeight, Zatoshis)>,
    /// All outputs that were received, by the height at which they were.
    pub recv_txos: Vec<Txo>,
    /// Those that are not spent, by the height at which they were received.
    pub utxos: Vec<Txo>,
    /// Those that are spent, by the height at which they were spent.
    pub stxos: Vec<Txo>,
    pub recv_orchard_notes: Vec<OrchardNote>,
    pub unspent_orchard_notes: Vec<OrchardNote>,
    pub spent_orchard_notes: Vec<OrchardNote>,
}

/// What an account is.
#[verifier::ext_equal]
pub struct AccountModel {
    pub fully_detected_h: BlockHeight,
    pub fully_decoded_h: BlockHeight,
    pub ufvk: Seq<char>,
    pub birthday: BlockHeight,
    pub balance_changes: Seq<(BlockHeight, Zatoshis)>,
    pub recv_txos: Seq<Txo>,
    pub utxos: Seq<Txo>,
    pub stxos: Seq<Txo>,
    pub recv_orchard_notes: Seq<OrchardNote>,
    pub unspent_orchard_notes: Seq<OrchardNote>,
    pub spent_orchard_notes: Seq<OrchardNote>,
}

impl View for ManualAccount {
    type V = AccountModel;

    open spec fn view(&self) -> AccountModel {
        AccountModel {
            fully_detected_h: self.fully_detected_h,
            fully_decoded_h: self.fully_decoded_h,
            ufvk: self.ufvk@,
            birthday: self.birthday,
            balance_changes: self.balance_changes@,
            recv_txos: self.recv_txos@,
            utxos: self.utxos@,
            stxos: self.stxos@,
            recv_orchard_notes: self.recv_orchard_notes@,
            unspent_orchard_notes: self.unspent_orchard_notes@,
            spent_orchard_notes: self.spent_orchard_notes@,
        }
    }
}

/// Amounts that can exist.
pub open spec fn note_amounts_ok(s: Seq<OrchardNote>) -> bool {
    forall|i: int| 0 <= i < s.len() ==> #[trigger] s[i].note.value <= MAX_MONEY
}

impl AccountModel {
    /// Every list is in its order.
    pub open spec fn ordered(self) -> bool {
        &&& in_order(self.recv_txos, Order::Recv)
        &&& in_order(self.utxos, Order::Recv)
        &&& in_order(self.stxos, Order::Spent)
        &&& in_order(self.recv_orchard_notes, Order::Recv)
        &&& in_order(self.unspent_orchard_notes, Order::Recv)
        &&& in_order(self.spent_orchard_notes, Order::Spent)
    }
}

/// An address of an account, and up to where its history is known.
#[derive(Clone, Copy, Debug, PartialEq, Eq)]
pub struct ManualStream {
    pub account_id: usize,
    pub sync_h: BlockHeight,
    pub t_addr: TransparentAddress,
}

/// A wallet.
#[derive(Debug)]
pub struct ManualWallet {
    pub name: &'static str,
    pub accounts: Vec<ManualAccount>,
    pub strms: Vec<ManualStream>,
    pub chain_tip_h: BlockHeight,
    /// By height, and at one height in the order of discovery.
    pub txs: Vec<WalletTx>,
    /// The height at which each transaction stands in the list.
    pub tx_h_map: ByteMap<BlockHeight>,
    pub seen_bond_values: ByteMap<u64>,
    pub care_about_bonds: Vec<Key>,
}

/// What a wallet is.
#[verifier::ext_equal]
pub struct WalletModel {
    pub name: Seq<char>,
    pub accounts: Seq<AccountModel>,
    pub strms: Seq<ManualStream>,
    pub chain_tip_h: BlockHeight,
    pub txs: Seq<WalletTx>,
    pub tx_h_map: Map<TxId, BlockHeight>,
    pub seen_bond_values: Seq<(Key, u64)>,
    pub care_about_bonds: Seq<Key>,
}

/// What some accounts are.
pub open spec fn account_models(s: Seq<ManualAccount>) -> Seq<AccountModel> {
    Seq::new(s.len(), |i: int| s[i]@)
}

impl View for ManualWallet {
    type V = WalletModel;

    open spec fn view(&self) -> WalletModel {
        WalletModel {
            name: self.name@,
            accounts: account_models(self.accounts@),
            strms: self.strms@,
            chain_tip_h: self.chain_tip_h,
            txs: self.txs@,
            tx_h_map: self.tx_h_map@,
            seen_bond_values: self.seen_bond_values.entries@,
            care_about_bonds: self.care_about_bonds@,
        }
    }
}

impl ManualWallet {
    /// No key occurs twice in the wallet's maps.
    pub open spec fn maps_wf(&self) -> bool {
        self.tx_h_map.wf() && self.seen_bond_values.wf()
    }
}

/// The height of each transaction: that of the last entry with its id.
pub open spec fn heights_of(txs: Seq<WalletTx>) -> Map<TxId, BlockHeight>
    decreases txs.len(),
{
    if txs.len() == 0 {
        Map::empty()
    } else {
        heights_of(txs.drop_last()).insert(txs.last().txid, txs.last().h)
    }
}

/// The heights of all transactions of a list.
pub fn height_map(txs: &[WalletTx]) -> (r: ByteMap<BlockHeight>)
    ensures
        r.wf(),
        r@ == heights_of(txs@),
{
    let mut m: ByteMap<BlockHeight> = ByteMap::new();
    let mut i: usize = 0;
    while i < txs.len()
        invariant
            i <= txs.len(),
            m.wf(),
            m@ == heights_of(txs@.take(i as int)),
        decreases txs.len() - i,
    {
        m.insert(txs[i].txid, txs[i].h);
        i += 1;
        assert(txs@.take(i as int).drop_last() =~= txs@.take(i - 1));
    }
    assert(txs@.take(i as int) =~= txs@);
    m
}

} // verus!
