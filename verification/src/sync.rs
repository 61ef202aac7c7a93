//! Following the chain: what to ask the network for, what to keep of its answers, and when to save.
use crate::accounts::{ManualAccount, ManualStream, ManualWallet, WalletModel};
use crate::anchors::{newest, Anchor, AnchorHistory, AnchorModel};
use crate::byte_map::ByteMap;
use crate::bytes::bytes_eq;
use crate::height::{BlockHeight, MEMPOOL};
use crate::network::NetworkType;
use crate::notes::{TransparentAddress, TxId};
use crate::pow_cache::PoWCache;
use crate::records::opening_balance;
use crate::rollback::streams_at;
use crate::snapshot::{
    loaded_from, loading_gives_back_what_was_saved, parse_snapshot, save, snapshot_bytes,
    snapshot_storable, LoadedModel, LoadedSnapshot, Snapshot, SnapshotModel,
};
use crate::tree::{fresh, fresh_tree, tree_ok, TreeModel};
use crate::tree_wire::{is_tree_blob, serialize_orchard_tree};
use crate::tx_part::TxParts;
use crate::walkback::SyncState;
use crate::wallet_tx::WalletTx;
use crate::wire::Fault;
use crate::zats::Zatoshis;
use vstd::prelude::*;

verus! {

/// How many blocks are asked for at a time.
pub const MAX_BLOCKS_TO_DOWNLOAD_AT_TIME: u64 = 64;

/// How many transactions are asked for at a time.
pub const MAX_TXS_TO_DOWNLOAD_AT_TIME: usize = 64;

/// After how many blocks the wallets are saved again.
pub const SAVE_EVERY_BLOCKS: u32 = 100;

/// The height that the network gives with a transaction: zero while it waits to be mined, the largest
/// number where it is on no part of the best chain.
pub open spec fn bc_height(height: u64) -> Option<Option<BlockHeight>> {
    if height == u64::MAX {
        Some(None)
    } else if height > u32::MAX {
        None
    } else if height == 0 {
        Some(Some(BlockHeight(MEMPOOL)))
    } else {
        Some(Some(BlockHeight(height as u32)))
    }
}

pub fn bc_h_from_raw_tx_h(height: u64) -> (r: Option<Option<BlockHeight>>)
    ensures
        r == bc_height(height),
{
    if height == u64::MAX {
        return Some(None);
    }
    if height > 0xffff_ffff {
        return None;
    }
    Some(
        Some(
            if height == 0 {
                BlockHeight(MEMPOOL)
            } else {
                BlockHeight(height as u32)
            },
        ),
    )
}

/// The first and the last block to ask for behind a height.
pub fn block_request(req_start_h: u64) -> (r: (u64, u64))
    requires
        req_start_h <= u64::MAX - MAX_BLOCKS_TO_DOWNLOAD_AT_TIME,
    ensures
        r.0 == req_start_h + 1,
        r.1 == req_start_h + MAX_BLOCKS_TO_DOWNLOAD_AT_TIME,
{
    (req_start_h + 1, req_start_h + MAX_BLOCKS_TO_DOWNLOAD_AT_TIME)
}

/// The heights at which transparent transactions are asked for: around the height up to which a
/// stream is known, and not above the newest block.
pub open spec fn t_range(sync_h: BlockHeight, max_h: u64) -> (u64, u64) {
    (
        if sync_h.0 > MAX_BLOCKS_TO_DOWNLOAD_AT_TIME {
            (sync_h.0 - MAX_BLOCKS_TO_DOWNLOAD_AT_TIME) as u64
        } else {
            1
        },
        if max_h < sync_h.0 + MAX_BLOCKS_TO_DOWNLOAD_AT_TIME {
            max_h
        } else {
            (sync_h.0 + MAX_BLOCKS_TO_DOWNLOAD_AT_TIME) as u64
        },
    )
}

pub fn t_request(sync_h: BlockHeight, max_h: u64) -> (r: (u64, u64))
    ensures
        r == t_range(sync_h, max_h),
{
    let h: u64 = sync_h.0 as u64;
    let end: u64 = h + MAX_BLOCKS_TO_DOWNLOAD_AT_TIME;
    (
        if h > MAX_BLOCKS_TO_DOWNLOAD_AT_TIME {
            h - MAX_BLOCKS_TO_DOWNLOAD_AT_TIME
        } else {
            1
        },
        if max_h < end {
            max_h
        } else {
            end
        },
    )
}

/// A transparent transaction as the network sent it.
#[derive(Clone, Copy, Debug, PartialEq, Eq, Structural)]
pub struct RawTx {
    pub height: u64,
    /// Whether its bytes could be read.
    pub readable: bool,
}

/// A transparent transaction that is to be read into a wallet.
#[derive(Clone, Copy, Debug, PartialEq, Eq, Structural)]
pub struct TTx {
    pub h: BlockHeight,
    pub wallet_i: usize,
    pub strm_i: usize,
    /// Which of those that came it is.
    pub tx_i: usize,
}

/// What is to be done with a transaction that came.
pub enum TStep {
    /// It is on no part of the best chain.
    Skip,
    /// Neither it nor what comes behind it is taken.
    Stop,
    /// Its bytes cannot be read.
    Fail(BlockHeight),
    Take(BlockHeight),
}

pub open spec fn t_step(raw: RawTx, max_h: u64) -> TStep {
    match bc_height(raw.height) {
        Some(None) => TStep::Skip,
        None => TStep::Stop,
        Some(Some(h)) => if !h.in_block() || h.0 > max_h {
            TStep::Stop
        } else if raw.readable {
            TStep::Take(h)
        } else {
            TStep::Fail(h)
        },
    }
}

/// What is left of some transactions when those at the end that are at a height are dropped.
pub open spec fn without_last_at(s: Seq<TTx>, h: BlockHeight) -> Seq<TTx>
    decreases s.len(),
{
    if s.len() > 0 && s.last().h == h {
        without_last_at(s.drop_last(), h)
    } else {
        s
    }
}

/// The transactions that are taken of those that came from `i` on, behind those that were taken, and
/// the height at which reading failed.
pub open spec fn t_taken(
    done: Seq<TTx>,
    raw: Seq<RawTx>,
    i: int,
    max_h: u64,
    wallet_i: usize,
    strm_i: usize,
) -> (Seq<TTx>, Option<u64>)
    decreases raw.len() - i,
{
    if i < 0 || i >= raw.len() {
        (done, None)
    } else {
        match t_step(raw[i], max_h) {
            TStep::Skip => t_taken(done, raw, i + 1, max_h, wallet_i, strm_i),
            TStep::Stop => (done, None),
            TStep::Fail(h) => (without_last_at(done, h), Some(raw[i].height)),
            TStep::Take(h) => t_taken(
                done.push(TTx { h, wallet_i, strm_i, tx_i: i as usize }),
                raw,
                i + 1,
                max_h,
                wallet_i,
                strm_i,
            ),
        }
    }
}

fn drop_last_at(list: &mut Vec<TTx>, h: BlockHeight)
    ensures
        final(list)@ == without_last_at(old(list)@, h),
{
    while list.len() > 0 && list[list.len() - 1].h.0 == h.0
        invariant
            without_last_at(list@, h) == without_last_at(old(list)@, h),
        decreases list@.len(),
    {
        let _ = list.pop();
    }
}

/// Takes the transparent transactions that came for a stream: all up to the first that is above the
/// newest block or whose height makes no sense. Where one cannot be read, none at its height is taken.
/// The height at which reading failed.
pub fn take_t_txs(
    list: &mut Vec<TTx>,
    raw: &Vec<RawTx>,
    max_h: u64,
    wallet_i: usize,
    strm_i: usize,
) -> (r: Option<u64>)
    ensures
        (final(list)@, r) == t_taken(old(list)@, raw@, 0, max_h, wallet_i, strm_i),
{
    let mut i: usize = 0;
    while i < raw.len()
        invariant
            i <= raw@.len(),
            t_taken(list@, raw@, i as int, max_h, wallet_i, strm_i) == t_taken(
                old(list)@,
                raw@,
                0,
                max_h,
                wallet_i,
                strm_i,
            ),
        decreases raw@.len() - i,
    {
        match bc_h_from_raw_tx_h(raw[i].height) {
            None => {
                return None;
            },
            Some(None) => {},
            Some(Some(h)) => {
                if !h.is_in_block() || h.0 as u64 > max_h {
                    return None;
                }
                if !raw[i].readable {
                    drop_last_at(list, h);
                    return Some(raw[i].height);
                }
                list.push(TTx { h, wallet_i, strm_i, tx_i: i });
            },
        }
        i += 1;
    }
    None
}

/// The height up to which a stream is known after a request: the end of what was asked for, or just
/// below the height at which it failed; never less than before.
pub open spec fn stream_height(before: BlockHeight, asked_to: u64, failed: Option<u64>) -> BlockHeight {
    let to = match failed {
        Some(h) => if h > 0 {
            (h - 1) as u64
        } else {
            0
        },
        None => asked_to,
    };
    if to > before.0 {
        BlockHeight(to as u32)
    } else {
        before
    }
}

pub fn next_stream_height(before: BlockHeight, asked_to: u64, failed: Option<u64>) -> (r: BlockHeight)
    requires
        failed is None ==> asked_to <= u32::MAX,
        failed matches Some(h) ==> h <= 0x1_0000_0000,
    ensures
        r == stream_height(before, asked_to, failed),
        r.0 >= before.0,
{
    let to: u64 = match failed {
        Some(h) => h.saturating_sub(1),
        None => asked_to,
    };
    if to > before.0 as u64 {
        BlockHeight(to as u32)
    } else {
        before
    }
}

/// A height at which a request has failed: behind the last transaction that came, or zero.
pub fn failed_behind(raw: &Vec<RawTx>) -> (r: u64)
    requires
        raw@.len() > 0 ==> raw@.last().height < u64::MAX,
    ensures
        raw@.len() == 0 ==> r == 0,
        raw@.len() > 0 ==> r == raw@.last().height + 1,
{
    if raw.len() == 0 {
        0
    } else {
        raw[raw.len() - 1].height + 1
    }
}

/// The height at which a downloaded transaction stands: that which the network gives, or, where it is
/// on no part of the best chain, that which was known. None where the network's makes no sense.
pub fn downloaded_height(raw_height: u64, known: BlockHeight) -> (r: Option<BlockHeight>)
    ensures
        r == match bc_height(raw_height) {
            Some(Some(h)) => Some(h),
            Some(None) => Some(known),
            None => None,
        },
{
    match bc_h_from_raw_tx_h(raw_height) {
        Some(None) => Some(known),
        Some(Some(h)) => Some(h),
        None => None,
    }
}

/// The height whose rules a transaction is read by: its own, or that of the tip where it is in no block.
pub fn rules_height(found: BlockHeight, tip: BlockHeight) -> (r: u32)
    ensures
        r == if found.in_block() {
            found.0
        } else {
            tip.0
        },
{
    if found.is_in_block() {
        found.0
    } else {
        tip.0
    }
}

/// Whether the whole of a transaction is still to be asked for.
pub open spec fn is_wanted(tx: WalletTx) -> bool {
    tx.status is OnBc && tx.part_flags != TxParts::FULL_TX
}

/// The transactions that are on their way after those of a list were asked for, as many as may be.
pub open spec fn with_requests(in_flight: Seq<TxId>, txs: Seq<WalletTx>) -> Seq<TxId>
    decreases txs.len(),
{
    if txs.len() == 0 {
        in_flight
    } else {
        let before = with_requests(in_flight, txs.drop_last());
        let tx = txs.last();
        if before.len() < MAX_TXS_TO_DOWNLOAD_AT_TIME && is_wanted(tx) && !before.contains(tx.txid) {
            before.push(tx.txid)
        } else {
            before
        }
    }
}

fn holds_id(ids: &Vec<TxId>, id: &TxId) -> (r: bool)
    ensures
        r == ids@.contains(*id),
{
    let mut i: usize = 0;
    while i < ids.len()
        invariant
            i <= ids@.len(),
            forall|k: int| 0 <= k < i ==> ids@[k] != *id,
        decreases ids@.len() - i,
    {
        if bytes_eq(&ids[i], id) {
            assert(ids@[i as int] == *id);
            return true;
        }
        i += 1;
    }
    false
}

/// Chooses the transactions of a wallet that are to be asked for, and puts them behind those that are
/// on their way.
pub fn request_txs(in_flight: &mut Vec<TxId>, txs: &Vec<WalletTx>)
    ensures
        final(in_flight)@ == with_requests(old(in_flight)@, txs@),
{
    let mut i: usize = 0;
    assert(txs@.take(0) =~= seq![]);
    while i < txs.len()
        invariant
            i <= txs@.len(),
            in_flight@ == with_requests(old(in_flight)@, txs@.take(i as int)),
        decreases txs@.len() - i,
    {
        assert(txs@.take(i + 1).drop_last() =~= txs@.take(i as int));
        if in_flight.len() < MAX_TXS_TO_DOWNLOAD_AT_TIME && txs[i].is_on_bc() && txs[i].part_flags
            != TxParts::FULL_TX && !holds_id(in_flight, &txs[i].txid) {
            in_flight.push(txs[i].txid);
        }
        i += 1;
    }
    assert(txs@.take(i as int) =~= txs@);
}

/// No transaction is asked for twice at a time, and no more than may be.
pub proof fn requests_are_distinct_and_few(in_flight: Seq<TxId>, txs: Seq<WalletTx>)
    requires
        in_flight.no_duplicates(),
        in_flight.len() <= MAX_TXS_TO_DOWNLOAD_AT_TIME,
    ensures
        with_requests(in_flight, txs).no_duplicates(),
        with_requests(in_flight, txs).len() <= MAX_TXS_TO_DOWNLOAD_AT_TIME,
    decreases txs.len(),
{
    if txs.len() > 0 {
        requests_are_distinct_and_few(in_flight, txs.drop_last());
    }
}

/// A transaction that came is on its way no more.
pub fn request_done(in_flight: &mut Vec<TxId>, id: &TxId)
    ensures
        final(in_flight)@ == without_first(old(in_flight)@, *id),
{
    let mut i: usize = 0;
    while i < in_flight.len()
        invariant
            in_flight@ == old(in_flight)@,
            i <= in_flight@.len(),
            forall|k: int| 0 <= k < i ==> in_flight@[k] != *id,
        decreases in_flight@.len() - i,
    {
        if bytes_eq(&in_flight[i], id) {
            proof {
                lemma_first(in_flight@, *id, i as int);
            }
            let _ = in_flight.remove(i);
            return;
        }
        i += 1;
    }
    proof {
        lemma_no_first(in_flight@, *id);
    }
}

/// Some ids without the first that is a given one.
pub open spec fn without_first(s: Seq<TxId>, id: TxId) -> Seq<TxId>
    decreases s.len(),
{
    if s.len() == 0 {
        s
    } else if s[0] == id {
        s.skip(1)
    } else {
        seq![s[0]] + without_first(s.skip(1), id)
    }
}

proof fn lemma_first(s: Seq<TxId>, id: TxId, i: int)
    requires
        0 <= i < s.len(),
        s[i] == id,
        forall|k: int| 0 <= k < i ==> s[k] != id,
    ensures
        without_first(s, id) == s.remove(i),
    decreases i,
{
    if i > 0 {
        lemma_first(s.skip(1), id, i - 1);
        assert(seq![s[0]] + s.skip(1).remove(i - 1) =~= s.remove(i));
    } else {
        assert(s.skip(1) =~= s.remove(0));
    }
}

proof fn lemma_no_first(s: Seq<TxId>, id: TxId)
    requires
        forall|k: int| 0 <= k < s.len() ==> s[k] != id,
    ensures
        without_first(s, id) == s,
    decreases s.len(),
{
    if s.len() > 0 {
        assert(s[0] != id);
        lemma_no_first(s.skip(1), id);
        assert(seq![s[0]] + s.skip(1) =~= s);
    }
}

impl ManualWallet {
    /// A new wallet of one account, which knows nothing of the chain.
    pub fn fresh(name: &'static str, ufvk: String) -> (r: ManualWallet)
        ensures
            r.maps_wf(),
            r@.name == name@,
            r@.accounts.len() == 1,
            ({
                let a = r@.accounts[0];
                &&& a.ufvk == ufvk@
                &&& a.birthday.0 == 0
                &&& a.fully_decoded_h.0 == 0
                &&& a.fully_detected_h.0 == 0
                &&& a.balance_changes == opening_balance()
                &&& a.recv_txos.len() == 0 && a.utxos.len() == 0 && a.stxos.len() == 0
                &&& a.recv_orchard_notes.len() == 0 && a.unspent_orchard_notes.len() == 0
                &&& a.spent_orchard_notes.len() == 0
            }),
            r@.strms.len() == 0,
            r@.chain_tip_h.0 == 0,
            r@.txs.len() == 0,
            r@.tx_h_map == Map::<TxId, BlockHeight>::empty(),
            r@.seen_bond_values.len() == 0,
            r@.care_about_bonds.len() == 0,
    {
        let zero = BlockHeight(0);
        let account = ManualAccount {
            fully_detected_h: zero,
            fully_decoded_h: zero,
            ufvk,
            birthday: zero,
            balance_changes: vec![(zero, Zatoshis { zats: 0 })],
            recv_txos: Vec::new(),
            utxos: Vec::new(),
            stxos: Vec::new(),
            recv_orchard_notes: Vec::new(),
            unspent_orchard_notes: Vec::new(),
            spent_orchard_notes: Vec::new(),
        };
        assert(account.balance_changes@ =~= opening_balance());
        ManualWallet {
            name,
            accounts: vec![account],
            strms: Vec::new(),
            chain_tip_h: zero,
            txs: Vec::new(),
            tx_h_map: ByteMap::new(),
            seen_bond_values: ByteMap::new(),
            care_about_bonds: Vec::new(),
        }
    }

    /// Watches an address from the start of the chain on, for the first account.
    pub fn watch(&mut self, t_addr: TransparentAddress)
        ensures
            final(self).strms@ == old(self).strms@.push(
                ManualStream { account_id: 0, sync_h: BlockHeight(0), t_addr },
            ),
            *final(self) == (ManualWallet { strms: final(self).strms, ..*old(self) }),
    {
        self.strms.push(ManualStream { account_id: 0, sync_h: BlockHeight(0), t_addr });
    }
}

/// The heights up to which some streams are known.
pub open spec fn stream_heights(s: Seq<ManualStream>) -> Seq<u32> {
    Seq::new(s.len(), |i: int| s[i].sync_h.0)
}

fn push_stream_heights(out: &mut Vec<u32>, strms: &Vec<ManualStream>)
    ensures
        final(out)@ == old(out)@ + stream_heights(strms@),
{
    let mut i: usize = 0;
    assert(out@ =~= old(out)@ + stream_heights(strms@).take(0));
    while i < strms.len()
        invariant
            i <= strms@.len(),
            out@ == old(out)@ + stream_heights(strms@).take(i as int),
        decreases strms@.len() - i,
    {
        out.push(strms[i].sync_h.0);
        i += 1;
        assert(out@ =~= old(out)@ + stream_heights(strms@).take(i as int));
    }
    assert(stream_heights(strms@).take(i as int) =~= stream_heights(strms@));
}

/// Whether some bytes save a snapshot: they are its bytes, and where it can be stored, it is loaded
/// from them with the tree.
pub open spec fn saves(bytes: Seq<u8>, m: SnapshotModel, tree: TreeModel) -> bool {
    &&& bytes == snapshot_bytes(m)
    &&& snapshot_storable(m) ==> parse_snapshot(m.network_type, m.genesis_hash, bytes) == Ok::<
        LoadedModel,
        Fault,
    >(loaded_from(m, tree))
}

impl SyncState {
    /// Two wallets that know nothing of the chain but its first block.
    pub fn start(miner_wallet: ManualWallet, user_wallet: ManualWallet, genesis_hash: [u8; 32]) -> (r:
        SyncState)
        ensures
            r.wf(),
            r.miner_wallet == miner_wallet,
            r.user_wallet == user_wallet,
            r.orchard_tree@ == fresh(),
            r.pow_cache.hashes@ == seq![genesis_hash],
            r.pow_cache.next_tip_h == 1,
            r.anchors@ == Seq::<AnchorModel>::empty(),
            r.last_saved_h == 0,
    {
        SyncState {
            miner_wallet,
            user_wallet,
            orchard_tree: fresh_tree(),
            pow_cache: PoWCache::new(0, genesis_hash),
            anchors: AnchorHistory::default(),
            last_saved_h: 0,
        }
    }

    /// Goes on from a snapshot: with everything in it, but under the names that the wallets have.
    pub fn resume(&mut self, loaded: LoadedSnapshot)
        requires
            loaded.miner_wallet.maps_wf(),
            loaded.user_wallet.maps_wf(),
            tree_ok(loaded.orchard_tree@),
        ensures
            final(self).miner_wallet.maps_wf(),
            final(self).user_wallet.maps_wf(),
            final(self).miner_wallet@ == (WalletModel {
                name: old(self).miner_wallet.name@,
                ..loaded.miner_wallet@
            }),
            final(self).user_wallet@ == (WalletModel {
                name: old(self).user_wallet.name@,
                ..loaded.user_wallet@
            }),
            final(self).orchard_tree@ == loaded.orchard_tree@,
            final(self).pow_cache == loaded.pow_cache,
            final(self).anchors == loaded.anchors,
            final(self).last_saved_h == if loaded.miner_wallet.chain_tip_h.0
                >= loaded.user_wallet.chain_tip_h.0 {
                loaded.miner_wallet.chain_tip_h.0
            } else {
                loaded.user_wallet.chain_tip_h.0
            },
    {
        let LoadedSnapshot {
            network_type: _,
            genesis_hash: _,
            mut miner_wallet,
            mut user_wallet,
            orchard_tree,
            pow_cache,
            anchors,
        } = loaded;
        let (m, u): (u32, u32) = (miner_wallet.chain_tip_h.0, user_wallet.chain_tip_h.0);
        miner_wallet.name = self.miner_wallet.name;
        user_wallet.name = self.user_wallet.name;
        self.miner_wallet = miner_wallet;
        self.user_wallet = user_wallet;
        self.orchard_tree = orchard_tree.open();
        self.pow_cache = pow_cache;
        self.anchors = anchors;
        self.last_saved_h = if m >= u {
            m
        } else {
            u
        };
    }

    /// There is a tip, and its height is one that a block can have.
    pub open spec fn wf(&self) -> bool {
        self.pow_cache.wf() && 0 < self.pow_cache.next_tip_h <= 0x1_0000_0000
    }

    /// The height of the tip.
    pub open spec fn tip(&self) -> u32 {
        (self.pow_cache.next_tip_h - 1) as u32
    }

    pub fn sync_h(&self) -> (r: BlockHeight)
        requires
            self.wf(),
        ensures
            r.0 == self.tip(),
    {
        BlockHeight((self.pow_cache.next_tip_h - 1) as u32)
    }

    /// The tip as an anchor: its hash, and how far the streams have come, the miner's first.
    pub open spec fn tip_anchor(&self) -> AnchorModel {
        AnchorModel {
            height: self.tip(),
            hash: self.pow_cache.hashes@[self.tip() as int],
            stream_heights: stream_heights(self.miner_wallet@.strms) + stream_heights(
                self.user_wallet@.strms,
            ),
        }
    }

    /// Whether the chain has grown enough since the wallets were saved.
    pub fn save_is_due(&self) -> (r: bool)
        requires
            self.wf(),
        ensures
            r == (self.tip() >= self.last_saved_h + SAVE_EVERY_BLOCKS),
    {
        let tip: u32 = self.sync_h().0;
        tip.saturating_sub(self.last_saved_h) >= SAVE_EVERY_BLOCKS && tip > 0
    }

    /// What is saved of this state, with given bytes for the tree.
    pub open spec fn snapshot_of(
        &self,
        net: NetworkType,
        genesis: [u8; 32],
        blob: Seq<u8>,
    ) -> SnapshotModel {
        SnapshotModel {
            network_type: net,
            genesis_hash: genesis,
            miner_wallet: self.miner_wallet@,
            user_wallet: self.user_wallet@,
            orchard_tree_blob: blob,
            hashes: self.pow_cache.hashes@,
            next_tip_h: self.pow_cache.next_tip_h,
            anchors: self.anchors@,
        }
    }

    /// Makes the tip an anchor, and gives the bytes to save.
    pub fn take_snapshot(&mut self, net: NetworkType, genesis: &[u8; 32]) -> (r: Vec<u8>)
        requires
            old(self).wf(),
        ensures
            final(self).anchors@ == newest(old(self).anchors@.push(old(self).tip_anchor())),
            *final(self) == (SyncState { anchors: final(self).anchors, ..*old(self) }),
            exists|blob: Seq<u8>|
                is_tree_blob(blob, old(self).orchard_tree@) && saves(
                    r@,
                    #[trigger] final(self).snapshot_of(net, *genesis, blob),
                    old(self).orchard_tree@,
                ),
    {
        let mut heights: Vec<u32> = Vec::new();
        push_stream_heights(&mut heights, &self.miner_wallet.strms);
        push_stream_heights(&mut heights, &self.user_wallet.strms);
        let height: u32 = self.sync_h().0;
        let hash = self.pow_cache.tip_hash();
        let ghost want = self.tip_anchor();
        assert(heights@ =~= want.stream_heights);
        self.anchors.push(Anchor { height, hash, stream_heights: heights });
        let blob = serialize_orchard_tree(&self.orchard_tree);
        let ghost bytes = blob@;
        let snap = Snapshot {
            network_type: net,
            genesis_hash: *genesis,
            miner_wallet: &self.miner_wallet,
            user_wallet: &self.user_wallet,
            orchard_tree_blob: blob,
            pow_cache: &self.pow_cache,
            anchors: &self.anchors,
        };
        let ghost m = self.snapshot_of(net, *genesis, bytes);
        assert(snap@ == m);
        let r = save(&snap);
        proof {
            if snapshot_storable(m) {
                loading_gives_back_what_was_saved(m, self.orchard_tree@);
            }
        }
        r
    }

    /// The wallets were saved at the tip.
    pub fn saved(&mut self)
        requires
            old(self).wf(),
        ensures
            *final(self) == (SyncState { last_saved_h: old(self).tip(), ..*old(self) }),
    {
        self.last_saved_h = self.sync_h().0;
    }
}

/// Every transaction on the best chain of which not everything was looked at is on its way afterwards,
/// unless as many are as may be. What was on its way stays in front, and nothing else is asked for.
pub proof fn every_wanted_transaction_is_asked_for(in_flight: Seq<TxId>, txs: Seq<WalletTx>, i: int)
    ensures
        ({
            let r = with_requests(in_flight, txs);
            &&& in_flight.len() <= r.len() && r.take(in_flight.len() as int) == in_flight
            &&& 0 <= i < txs.len() && txs[i].status is OnBc && txs[i].part_flags != 31 ==> r.contains(
                txs[i].txid,
            ) || r.len() >= 64
            &&& forall|k: int|
                in_flight.len() <= k < r.len() ==> exists|j: int|
                    0 <= j < txs.len() && (#[trigger] txs[j]).txid == #[trigger] r[k]
                        && txs[j].status is OnBc && txs[j].part_flags != 31
        }),
    decreases txs.len(),
{
    if txs.len() == 0 {
        assert(in_flight.take(in_flight.len() as int) =~= in_flight);
    } else {
        let rest = txs.drop_last();
        every_wanted_transaction_is_asked_for(in_flight, rest, i);
        let before = with_requests(in_flight, rest);
        let r = with_requests(in_flight, txs);
        let last = txs.len() - 1;
        assert(txs[last] == txs.last());
        assert(r.take(in_flight.len() as int) =~= before.take(in_flight.len() as int));
        if i == last && r.len() == before.len() + 1 {
            assert(r[before.len() as int] == txs[last].txid);
        }
        if 0 <= i < last {
            assert(rest[i] == txs[i]);
            if before.contains(txs[i].txid) {
                let k = choose|k: int| 0 <= k < before.len() && before[k] == txs[i].txid;
                assert(r[k] == txs[i].txid);
            }
        }
        assert forall|k: int| in_flight.len() <= k < r.len() implies exists|j: int|
            0 <= j < txs.len() && (#[trigger] txs[j]).txid == #[trigger] r[k] && txs[j].status is OnBc
                && txs[j].part_flags != 31 by {
            if k < before.len() {
                assert(r[k] == before[k]);
                let j = choose|j: int|
                    0 <= j < rest.len() && (#[trigger] rest[j]).txid == before[k]
                        && rest[j].status is OnBc && rest[j].part_flags != 31;
                assert(txs[j] == rest[j]);
            } else {
                assert(txs[last].txid == r[k]);
            }
        }
    }
}

/// A transaction that came is on its way no more, and every other one still is.
pub proof fn what_came_is_on_its_way_no_more(s: Seq<TxId>, id: TxId, other: TxId)
    requires
        s.no_duplicates(),
    ensures
        !without_first(s, id).contains(id),
        other != id ==> (without_first(s, id).contains(other) <==> s.contains(other)),
{
    if s.contains(id) {
        let i = choose|i: int| 0 <= i < s.len() && s[i] == id;
        lemma_first(s, id, i);
        let t = s.remove(i);
        if t.contains(id) {
            let k = choose|k: int| 0 <= k < t.len() && t[k] == id;
            let k0 = if k < i { k } else { k + 1 };
            assert(s[k0] == s[i]);
        }
        if s.contains(other) && other != id {
            let k0 = choose|k: int| 0 <= k < s.len() && s[k] == other;
            let k = if k0 < i { k0 } else { k0 - 1 };
            assert(t[k] == other);
        }
        if t.contains(other) {
            let k = choose|k: int| 0 <= k < t.len() && t[k] == other;
            let k0 = if k < i { k } else { k + 1 };
            assert(s[k0] == other);
        }
    } else {
        assert forall|k: int| 0 <= k < s.len() implies s[k] != id by {
            assert(s.contains(s[k]));
        }
        lemma_no_first(s, id);
    }
}

/// Whether an entry stands for a transaction that came: one in a block up to the newest, and readable.
pub open spec fn stands_for(x: TTx, raw: Seq<RawTx>, max_h: u64, wallet_i: usize, strm_i: usize) -> bool {
    &&& 0 <= x.tx_i < raw.len()
    &&& raw[x.tx_i as int].height == x.h.0
    &&& 1 <= x.h.0 < MEMPOOL
    &&& x.h.0 <= max_h
    &&& raw[x.tx_i as int].readable
    &&& x.wallet_i == wallet_i
    &&& x.strm_i == strm_i
}

/// Whether a transaction that came is on no part of the best chain.
pub open spec fn is_off_chain(raw: RawTx) -> bool {
    raw.height == u64::MAX
}

proof fn lemma_dropped(s: Seq<TTx>, h: BlockHeight)
    ensures
        without_last_at(s, h).len() <= s.len(),
        without_last_at(s, h) == s.take(without_last_at(s, h).len() as int),
        without_last_at(s, h).len() > 0 ==> without_last_at(s, h).last().h != h,
        forall|k: int| without_last_at(s, h).len() <= k < s.len() ==> (#[trigger] s[k]).h == h,
    decreases s.len(),
{
    if s.len() > 0 && s.last().h == h {
        lemma_dropped(s.drop_last(), h);
        let n = without_last_at(s, h).len() as int;
        assert(s.take(n) =~= s.drop_last().take(n));
        assert forall|k: int| n <= k < s.len() implies (#[trigger] s[k]).h == h by {
            if k < s.len() - 1 {
                assert(s.drop_last()[k] == s[k]);
            }
        }
    } else {
        assert(s.take(s.len() as int) =~= s);
    }
}

/// Of the transactions that came for a stream, only readable ones in blocks up to the newest are taken,
/// each as what it is. Reading stops at the first that is in no block up to the newest; where nothing
/// failed, everything before that is taken, but for what is on no part of the best chain. Where one could
/// not be read, nothing at the end of what is taken is at its height.
pub proof fn what_came_is_taken_in_order(
    done: Seq<TTx>,
    raw: Seq<RawTx>,
    i: int,
    max_h: u64,
    wallet_i: usize,
    strm_i: usize,
    k: int,
)
    requires
        0 <= i <= raw.len() <= usize::MAX,
        forall|j: int|
            0 <= j < done.len() ==> stands_for(#[trigger] done[j], raw, max_h, wallet_i, strm_i),
    ensures
        ({
            let (r, failed) = t_taken(done, raw, i, max_h, wallet_i, strm_i);
            &&& forall|j: int|
                0 <= j < r.len() ==> stands_for(#[trigger] r[j], raw, max_h, wallet_i, strm_i)
            &&& failed matches Some(h) ==> r.len() > 0 ==> r.last().h.0 != h
            &&& failed is None ==> done.len() <= r.len() && r.take(done.len() as int) == done
            &&& failed is None && i <= k < raw.len() && !is_off_chain(raw[k]) && (forall|j: int|
                i <= j <= k ==> is_off_chain(#[trigger] raw[j]) || (1 <= raw[j].height < MEMPOOL
                    && raw[j].height <= max_h)) ==> exists|j: int|
                0 <= j < r.len() && (#[trigger] r[j]).tx_i == k
            &&& failed is Some && (forall|j: int|
                i <= j < raw.len() ==> (#[trigger] raw[j]).readable) ==> false
        }),
    decreases raw.len() - i,
{
    if i < raw.len() {
        match t_step(raw[i], max_h) {
            TStep::Skip => {
                what_came_is_taken_in_order(done, raw, i + 1, max_h, wallet_i, strm_i, k);
            },
            TStep::Stop => {
                assert(done.take(done.len() as int) =~= done);
                if i <= k < raw.len() {
                    assert(raw[i] == raw[i]);
                }
            },
            TStep::Fail(h) => {
                lemma_dropped(done, h);
                let r = without_last_at(done, h);
                assert forall|j: int| 0 <= j < r.len() implies stands_for(
                    #[trigger] r[j],
                    raw,
                    max_h,
                    wallet_i,
                    strm_i,
                ) by {
                    assert(r[j] == done[j]);
                }
                assert(!raw[i].readable);
            },
            TStep::Take(h) => {
                let x = TTx { h, wallet_i, strm_i, tx_i: i as usize };
                let next = done.push(x);
                assert forall|j: int| 0 <= j < next.len() implies stands_for(
                    #[trigger] next[j],
                    raw,
                    max_h,
                    wallet_i,
                    strm_i,
                ) by {
                    if j < done.len() {
                        assert(next[j] == done[j]);
                    }
                }
                what_came_is_taken_in_order(next, raw, i + 1, max_h, wallet_i, strm_i, k);
                let (r, failed) = t_taken(done, raw, i, max_h, wallet_i, strm_i);
                if failed is None {
                    assert(r.take(done.len() as int) =~= r.take(next.len() as int).take(
                        done.len() as int,
                    ));
                    assert(r.take(next.len() as int)[done.len() as int] == x);
                    assert(r[done.len() as int].tx_i == i);
                }
            },
        }
    } else {
        assert(done.take(done.len() as int) =~= done);
    }
}

/// A stream is never known less far than before. After a request that failed at a height it is not known
/// beyond the block below, unless it was before; otherwise it is known as far as was asked for.
pub proof fn a_stream_never_goes_back(before: BlockHeight, asked_to: u64, failed: Option<u64>)
    requires
        asked_to <= u32::MAX,
        failed matches Some(h) ==> h <= u32::MAX,
    ensures
        ({
            let r = stream_height(before, asked_to, failed);
            &&& r.0 >= before.0
            &&& failed is None ==> r.0 >= asked_to && (r == before || r.0 == asked_to)
            &&& failed matches Some(h) ==> r == before || r.0 + 1 == h
            &&& failed matches Some(h) ==> h > before.0 + 1 ==> r.0 == h - 1
        }),
{
}

/// Transactions of a stream are asked for from 64 blocks below where it is known to 64 above, but not
/// below the first block and not above the newest.
pub proof fn requests_lap_over(sync_h: BlockHeight, max_h: u64)
    ensures
        ({
            let (from, to) = t_range(sync_h, max_h);
            &&& from >= 1
            &&& from + 64 == sync_h.0 || (from == 1 && sync_h.0 <= 65)
            &&& to <= max_h && to <= sync_h.0 + 64
            &&& to == max_h || to == sync_h.0 + 64
        }),
{
}

/// The height that comes with a transaction is that of its block, but for three marks: zero while it
/// waits, the largest number where it is on no part of the best chain, and what does not fit, which makes
/// no sense.
pub proof fn a_height_is_a_block_or_a_mark(height: u64)
    ensures
        1 <= height <= u32::MAX ==> (bc_height(height) matches Some(Some(h)) && h.0 == height),
        height == 0 ==> (bc_height(height) matches Some(Some(h)) && h.0 == MEMPOOL),
        height == u64::MAX ==> bc_height(height) == Some(None::<BlockHeight>),
        u32::MAX < height < u64::MAX ==> bc_height(height) is None,
{
}

/// An anchor brings every stream back to where it was when the anchor was made, whatever has become of
/// its height since: the miner's and the user's.
pub proof fn an_anchor_brings_the_streams_back(
    miner: Seq<ManualStream>,
    user: Seq<ManualStream>,
    miner_now: Seq<ManualStream>,
    user_now: Seq<ManualStream>,
    tip: u32,
)
    requires
        miner_now.len() == miner.len(),
        user_now.len() == user.len(),
        forall|i: int| 0 <= i < miner.len() ==> (#[trigger] miner[i]).sync_h.0 <= tip,
        forall|i: int| 0 <= i < user.len() ==> (#[trigger] user[i]).sync_h.0 <= tip,
        forall|i: int|
            0 <= i < miner.len() ==> #[trigger] miner_now[i] == (ManualStream {
                sync_h: miner_now[i].sync_h,
                ..miner[i]
            }),
        forall|i: int|
            0 <= i < user.len() ==> #[trigger] user_now[i] == (ManualStream {
                sync_h: user_now[i].sync_h,
                ..user[i]
            }),
    ensures
        ({
            let heights = stream_heights(miner) + stream_heights(user);
            &&& streams_at(miner_now, heights, 0, tip) == miner
            &&& streams_at(user_now, heights, miner.len() as int, tip) == user
        }),
{
    let heights = stream_heights(miner) + stream_heights(user);
    let m = streams_at(miner_now, heights, 0, tip);
    let u = streams_at(user_now, heights, miner.len() as int, tip);
    assert forall|i: int| 0 <= i < miner.len() implies m[i] == miner[i] by {
        assert(heights[i] == miner[i].sync_h.0);
        assert(miner_now[i].t_addr == miner[i].t_addr);
    }
    assert forall|i: int| 0 <= i < user.len() implies u[i] == user[i] by {
        assert(heights[miner.len() + i] == user[i].sync_h.0);
        assert(user_now[i].t_addr == user[i].t_addr);
    }
    assert(m =~= miner);
    assert(u =~= user);
}

/// The anchor that is made of the tip names the newest block: its height and its hash.
pub proof fn the_tip_anchor_is_the_newest_block(s: &SyncState)
    requires
        s.wf(),
    ensures
        s.tip_anchor().height + 1 == s.pow_cache.hashes@.len(),
        s.tip_anchor().hash == s.pow_cache.hashes@.last(),
        s.tip_anchor().stream_heights.len() == s.miner_wallet@.strms.len() + s.user_wallet@.strms.len(),
{
}

} // verus!
