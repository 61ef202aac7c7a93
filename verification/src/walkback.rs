//! Finding the point at which a loaded snapshot still agrees with the chain.
use crate::accounts::{ManualStream, ManualWallet, WalletModel};
use crate::anchors::{anchors_truncate_above, cut_above, AnchorHistory, AnchorModel};
use crate::bytes::{array_from_slice, bytes_eq};
use crate::height::{BlockHeight, MEMPOOL};
use crate::pow_cache::{cut_hashes, truncate_pow_cache_to, PoWCache};
use crate::rollback::{
    a_later_transaction_is_gone, restore_stream_heights, streams_at, truncate_wallet_to, wallet_at,
};
use crate::tree::{
    cut_facts, cut_or_same, cuttable, fresh, fresh_tree, truncate_orchard_tree_to, OrchardShardTree,
};
use crate::wallet_tx::WalletTx;
use vstd::prelude::*;

verus! {

/// What the network says of the block at a height.
#[derive(Clone, Copy, Debug, PartialEq, Eq)]
pub enum FetchHashResult {
    /// Its hash.
    Found([u8; 32]),
    /// The chain does not reach that far.
    OutOfRange,
    /// No answer that means anything.
    Transient,
}

/// The answer that a block's hash is: bytes of another length mean nothing.
pub fn fetched_hash(hash: &[u8]) -> (r: FetchHashResult)
    ensures
        match r {
            FetchHashResult::Found(h) => h@ == hash@,
            FetchHashResult::OutOfRange => false,
            FetchHashResult::Transient => hash@.len() != 32,
        },
{
    if hash.len() != 32 {
        return FetchHashResult::Transient;
    }
    let h: [u8; 32] = array_from_slice::<32>(hash);
    assert(h@ =~= hash@);
    FetchHashResult::Found(h)
}

/// Whether the tip of a snapshot is off the chain: the network says that its block is another, or that
/// there is none. No answer is no reason to think so.
pub fn needs_walkback(saved_tip_hash: &[u8; 32], outcome: &FetchHashResult) -> (r: bool)
    ensures
        r == match *outcome {
            FetchHashResult::Found(h) => h != *saved_tip_hash,
            FetchHashResult::OutOfRange => true,
            FetchHashResult::Transient => false,
        },
{
    match outcome {
        FetchHashResult::Found(h) => !bytes_eq(h, saved_tip_hash),
        FetchHashResult::OutOfRange => true,
        FetchHashResult::Transient => false,
    }
}

/// The newest anchor below the tip that the network confirms, and whether it gave any answer up to
/// there.
pub open spec fn walk(
    anchors: Seq<AnchorModel>,
    tip_h: u32,
    replies: spec_fn(u32) -> FetchHashResult,
) -> (Option<int>, bool)
    decreases anchors.len(),
{
    if anchors.len() == 0 {
        (None, false)
    } else {
        let a = anchors.last();
        let older = walk(anchors.drop_last(), tip_h, replies);
        if a.height >= tip_h {
            older
        } else {
            match replies(a.height) {
                FetchHashResult::Found(h) => if h == a.hash {
                    (Some(anchors.len() - 1), true)
                } else {
                    (older.0, true)
                },
                FetchHashResult::OutOfRange => (older.0, true),
                FetchHashResult::Transient => older,
            }
        }
    }
}

/// A walk through the anchors, from the newest to the oldest.
#[derive(Debug)]
pub struct Walk {
    /// How many anchors have not been looked at: the oldest ones.
    pub left: usize,
    /// Whether any answer has come.
    pub answered: bool,
    /// The anchor that was confirmed.
    pub found: Option<usize>,
}

/// What is to be done with a snapshot whose tip is off the chain.
#[derive(Clone, Copy, Debug, PartialEq, Eq, Structural)]
pub enum WalkVerdict {
    /// Roll back to this anchor.
    RollBack(usize),
    /// No anchor is on the chain: start afresh.
    Reset,
    /// The network gave no answer: leave the snapshot as it is.
    Keep,
}

/// What is to be done, by the outcome of the walk.
pub open spec fn verdict_of(outcome: (Option<int>, bool)) -> WalkVerdict {
    match outcome {
        (Some(i), _) => WalkVerdict::RollBack(i as usize),
        (None, true) => WalkVerdict::Reset,
        (None, false) => WalkVerdict::Keep,
    }
}

impl Walk {
    /// The outcome of the walk, from where it stands.
    pub open spec fn outcome(
        &self,
        anchors: Seq<AnchorModel>,
        tip_h: u32,
        replies: spec_fn(u32) -> FetchHashResult,
    ) -> (Option<int>, bool) {
        match self.found {
            Some(i) => (Some(i as int), true),
            None => {
                let older = walk(anchors.take(self.left as int), tip_h, replies);
                (older.0, older.1 || self.answered)
            },
        }
    }

    /// The walk through a history, at its start.
    pub fn start(history: &AnchorHistory) -> (r: Walk)
        ensures
            r.left == history@.len(),
            r.found is None,
            !r.answered,
            forall|tip_h: u32, replies: spec_fn(u32) -> FetchHashResult|
                r.outcome(history@, tip_h, replies) == #[trigger] walk(history@, tip_h, replies),
    {
        let r = Walk { left: history.anchors.len(), answered: false, found: None };
        assert(history@.take(history@.len() as int) =~= history@);
        r
    }

    /// The height of the next anchor to ask about: one below the tip. None when the walk is at its
    /// end.
    pub fn next_height(&mut self, history: &AnchorHistory, tip_h: u32) -> (r: Option<u32>)
        requires
            old(self).left <= history@.len(),
        ensures
            final(self).left <= old(self).left,
            final(self).answered == old(self).answered,
            final(self).found == old(self).found,
            forall|replies: spec_fn(u32) -> FetchHashResult| #[trigger]
                final(self).outcome(history@, tip_h, replies) == old(self).outcome(
                    history@,
                    tip_h,
                    replies,
                ),
            match r {
                Some(h) => final(self).left > 0 && final(self).found is None && h == history@[
                    final(self).left - 1].height && h < tip_h,
                None => final(self).found is Some || final(self).left == 0,
            },
    {
        if self.found.is_some() {
            return None;
        }
        while self.left > 0 && history.anchors[self.left - 1].height >= tip_h
            invariant
                self.left <= old(self).left <= history@.len(),
                self.answered == old(self).answered,
                self.found == old(self).found,
                self.found is None,
                forall|replies: spec_fn(u32) -> FetchHashResult| #[trigger]
                    self.outcome(history@, tip_h, replies) == old(self).outcome(
                        history@,
                        tip_h,
                        replies,
                    ),
            decreases self.left,
        {
            let ghost before = *self;
            self.left = self.left - 1;
            proof {
                let n = before.left as int;
                assert(history@.take(n).drop_last() =~= history@.take(n - 1));
                assert(history@.take(n).last() == history@[n - 1]);
                assert(history@[n - 1].height >= tip_h);
                assert forall|replies: spec_fn(u32) -> FetchHashResult| #[trigger]
                    self.outcome(history@, tip_h, replies) == old(self).outcome(
                        history@,
                        tip_h,
                        replies,
                    ) by {
                    assert(before.outcome(history@, tip_h, replies) == old(self).outcome(
                        history@,
                        tip_h,
                        replies,
                    ));
                }
            }
        }
        if self.left == 0 {
            None
        } else {
            Some(history.anchors[self.left - 1].height)
        }
    }

    /// Takes the network's answer about the anchor that was asked about.
    pub fn answer(&mut self, history: &AnchorHistory, tip_h: u32, reply: &FetchHashResult)
        requires
            0 < old(self).left <= history@.len(),
            old(self).found is None,
            history@[old(self).left - 1].height < tip_h,
        ensures
            final(self).left < old(self).left,
            forall|replies: spec_fn(u32) -> FetchHashResult|
                replies(history@[old(self).left - 1].height) == *reply ==> #[trigger]
                final(self).outcome(history@, tip_h, replies) == old(self).outcome(
                    history@,
                    tip_h,
                    replies,
                ),
            final(self).found matches Some(i) ==> i < history@.len(),
    {
        let i: usize = self.left - 1;
        let ghost before = *self;
        match reply {
            FetchHashResult::Found(h) => {
                self.answered = true;
                if bytes_eq(h, &history.anchors[i].hash) {
                    self.found = Some(i);
                }
            },
            FetchHashResult::OutOfRange => {
                self.answered = true;
            },
            FetchHashResult::Transient => {},
        }
        self.left = i;
        proof {
            let n = before.left as int;
            assert(history@.take(n).drop_last() =~= history@.take(n - 1));
            assert(history@.take(n).last() == history@[n - 1]);
        }
    }

    /// What is to be done, when the walk is at its end.
    pub fn verdict(&self, history: &AnchorHistory, tip_h: u32) -> (r: WalkVerdict)
        requires
            self.found is Some || self.left == 0,
        ensures
            forall|replies: spec_fn(u32) -> FetchHashResult|
                r == verdict_of(#[trigger] self.outcome(history@, tip_h, replies)),
    {
        assert(history@.take(0).len() == 0);
        match self.found {
            Some(i) => WalkVerdict::RollBack(i),
            None => if self.answered {
                WalkVerdict::Reset
            } else {
                WalkVerdict::Keep
            },
        }
    }
}

/// What the walk finds: an anchor below the tip that the network confirms, and no newer one below the
/// tip is confirmed. It finds none if none is.
pub proof fn the_newest_confirmed_anchor_is_found(
    anchors: Seq<AnchorModel>,
    tip_h: u32,
    replies: spec_fn(u32) -> FetchHashResult,
)
    ensures
        match walk(anchors, tip_h, replies).0 {
            Some(i) => {
                &&& 0 <= i < anchors.len()
                &&& anchors[i].height < tip_h
                &&& replies(anchors[i].height) == FetchHashResult::Found(anchors[i].hash)
                &&& forall|k: int|
                    i < k < anchors.len() && (#[trigger] anchors[k]).height < tip_h ==> replies(
                        anchors[k].height,
                    ) != FetchHashResult::Found(anchors[k].hash)
            },
            None => forall|k: int|
                0 <= k < anchors.len() && (#[trigger] anchors[k]).height < tip_h ==> replies(
                    anchors[k].height,
                ) != FetchHashResult::Found(anchors[k].hash),
        },
    decreases anchors.len(),
{
    if anchors.len() > 0 {
        let t = anchors.drop_last();
        the_newest_confirmed_anchor_is_found(t, tip_h, replies);
        assert forall|k: int| 0 <= k < t.len() implies t[k] == #[trigger] anchors[k] by {
        }
    }
}

/// Where the network gives no answer about any anchor, the snapshot is kept.
pub proof fn silence_keeps_the_snapshot(
    anchors: Seq<AnchorModel>,
    tip_h: u32,
    replies: spec_fn(u32) -> FetchHashResult,
)
    requires
        forall|h: u32| #[trigger] replies(h) == FetchHashResult::Transient,
    ensures
        verdict_of(walk(anchors, tip_h, replies)) == WalkVerdict::Keep,
    decreases anchors.len(),
{
    if anchors.len() > 0 {
        silence_keeps_the_snapshot(anchors.drop_last(), tip_h, replies);
    }
}

/// Everything that follows the chain.
pub struct SyncState {
    pub miner_wallet: ManualWallet,
    pub user_wallet: ManualWallet,
    pub orchard_tree: OrchardShardTree,
    pub pow_cache: PoWCache,
    pub anchors: AnchorHistory,
    pub last_saved_h: u32,
}

/// A wallet as it was at an anchor, with its streams where the anchor says they were.
pub open spec fn wallet_at_anchor(w: WalletModel, a: AnchorModel, from: int) -> WalletModel {
    let r = wallet_at(w, BlockHeight(a.height));
    WalletModel { strms: streams_at(r.strms, a.stream_heights, from, a.height), ..r }
}

/// A wallet as it was before the first block, with its streams at the start.
pub open spec fn wallet_at_start(w: WalletModel) -> WalletModel {
    let r = wallet_at(w, BlockHeight(0));
    WalletModel {
        strms: Seq::new(
            r.strms.len(),
            |i: int| ManualStream { sync_h: BlockHeight(0), ..r.strms[i] },
        ),
        ..r
    }
}

fn restart_streams(strms: &mut Vec<ManualStream>)
    ensures
        final(strms)@ == Seq::new(
            old(strms)@.len(),
            |i: int| (ManualStream { sync_h: BlockHeight(0), ..old(strms)@[i] }),
        ),
{
    let mut i: usize = 0;
    while i < strms.len()
        invariant
            i <= strms@.len() == old(strms)@.len(),
            forall|k: int|
                0 <= k < i ==> #[trigger] strms@[k] == (ManualStream {
                    sync_h: BlockHeight(0),
                    ..old(strms)@[k]
                }),
            forall|k: int| i <= k < strms@.len() ==> #[trigger] strms@[k] == old(strms)@[k],
        decreases strms.len() - i,
    {
        let s = strms[i];
        strms.set(i, ManualStream { sync_h: BlockHeight(0), ..s });
        i += 1;
    }
    assert(strms@ =~= Seq::new(
        old(strms)@.len(),
        |i: int| (ManualStream { sync_h: BlockHeight(0), ..old(strms)@[i] }),
    ));
}

fn copy_heights(v: &Vec<u32>) -> (r: Vec<u32>)
    ensures
        r@ == v@,
{
    let mut r: Vec<u32> = Vec::new();
    let mut i: usize = 0;
    while i < v.len()
        invariant
            i <= v@.len(),
            r@ == v@.take(i as int),
        decreases v.len() - i,
    {
        r.push(v[i]);
        i += 1;
        assert(r@ =~= v@.take(i as int));
    }
    assert(v@.take(i as int) =~= v@);
    r
}

impl SyncState {
    /// Rolls everything back to an anchor.
    pub fn roll_back_to(&mut self, i: usize)
        requires
            i < old(self).anchors@.len(),
        ensures
            ({
                let a = old(self).anchors@[i as int];
                &&& final(self).orchard_tree@ == cut_or_same(old(self).orchard_tree@, a.height)
                &&& cut_facts(
                    old(self).orchard_tree@,
                    final(self).orchard_tree@,
                    a.height,
                    cuttable(old(self).orchard_tree@, a.height),
                )
                &&& final(self).pow_cache.hashes@ == cut_hashes(
                    old(self).pow_cache.hashes@,
                    a.height,
                )
                &&& final(self).pow_cache.next_tip_h == a.height + 1
                &&& final(self).miner_wallet@ == wallet_at_anchor(old(self).miner_wallet@, a, 0)
                &&& final(self).user_wallet@ == wallet_at_anchor(
                    old(self).user_wallet@,
                    a,
                    old(self).miner_wallet@.strms.len() as int,
                )
                &&& final(self).anchors@ == cut_above(old(self).anchors@, a.height)
                &&& final(self).last_saved_h == a.height
            }),
    {
        let h: u32 = self.anchors.anchors[i].height;
        let heights = copy_heights(&self.anchors.anchors[i].stream_heights);
        let target = BlockHeight(h);
        let _ = truncate_orchard_tree_to(&mut self.orchard_tree, target);
        truncate_pow_cache_to(&mut self.pow_cache, h);
        truncate_wallet_to(&mut self.miner_wallet, target);
        truncate_wallet_to(&mut self.user_wallet, target);
        anchors_truncate_above(&mut self.anchors, h);
        restore_stream_heights(&mut self.miner_wallet, &mut self.user_wallet, &heights, h);
        self.last_saved_h = h;
        proof {
            let a = old(self).anchors@[i as int];
            assert(a.height == h && a.stream_heights == heights@);
            assert(self.pow_cache.hashes@ == cut_hashes(old(self).pow_cache.hashes@, a.height));
            assert(self.pow_cache.next_tip_h == a.height + 1);
            assert(self.anchors@ == cut_above(old(self).anchors@, a.height));
            assert(self.miner_wallet@ == wallet_at_anchor(old(self).miner_wallet@, a, 0));
            assert(self.user_wallet@ == wallet_at_anchor(
                old(self).user_wallet@,
                a,
                old(self).miner_wallet@.strms.len() as int,
            ));
        }
    }

    /// Puts everything back to the start of the chain.
    pub fn reset(&mut self, genesis_hash: [u8; 32])
        ensures
            final(self).orchard_tree@ == fresh(),
            final(self).pow_cache.hashes@ == seq![genesis_hash],
            final(self).pow_cache.next_tip_h == 1,
            final(self).miner_wallet@ == wallet_at_start(old(self).miner_wallet@),
            final(self).user_wallet@ == wallet_at_start(old(self).user_wallet@),
            final(self).anchors@ == Seq::<AnchorModel>::empty(),
            final(self).last_saved_h == 0,
    {
        self.pow_cache = PoWCache::new(0, genesis_hash);
        self.orchard_tree = fresh_tree();
        truncate_wallet_to(&mut self.miner_wallet, BlockHeight(0));
        truncate_wallet_to(&mut self.user_wallet, BlockHeight(0));
        restart_streams(&mut self.miner_wallet.strms);
        restart_streams(&mut self.user_wallet.strms);
        self.anchors = AnchorHistory::default();
        self.last_saved_h = 0;
    }
}

/// The walk has an answer exactly where it found an anchor, or where the network gave an answer that
/// means something for an anchor below the tip: then the snapshot is given up, if none was confirmed. One
/// that was never answered is kept.
pub proof fn an_answered_walk_decides(
    anchors: Seq<AnchorModel>,
    tip_h: u32,
    replies: spec_fn(u32) -> FetchHashResult,
)
    ensures
        ({
            let confirmed = exists|k: int|
                0 <= k < anchors.len() && (#[trigger] anchors[k]).height < tip_h && replies(
                    anchors[k].height,
                ) == FetchHashResult::Found(anchors[k].hash);
            let answered = exists|k: int|
                0 <= k < anchors.len() && (#[trigger] anchors[k]).height < tip_h && !(replies(
                    anchors[k].height,
                ) is Transient);
            let v = verdict_of(walk(anchors, tip_h, replies));
            &&& v is RollBack <==> confirmed
            &&& v is Reset <==> answered && !confirmed
            &&& v is Keep <==> !answered
        }),
    decreases anchors.len(),
{
    if anchors.len() > 0 {
        let rest = anchors.drop_last();
        an_answered_walk_decides(rest, tip_h, replies);
        assert forall|k: int| 0 <= k < rest.len() implies #[trigger] rest[k] == anchors[k] by {}
        let last = anchors.len() - 1;
        assert(anchors[last] == anchors.last());
        if exists|k: int|
            0 <= k < anchors.len() && (#[trigger] anchors[k]).height < tip_h && replies(
                anchors[k].height,
            ) == FetchHashResult::Found(anchors[k].hash) {
            let k = choose|k: int|
                0 <= k < anchors.len() && (#[trigger] anchors[k]).height < tip_h && replies(
                    anchors[k].height,
                ) == FetchHashResult::Found(anchors[k].hash);
            if k < last {
                assert(rest[k] == anchors[k]);
            }
        }
        if exists|k: int|
            0 <= k < anchors.len() && (#[trigger] anchors[k]).height < tip_h && !(replies(
                anchors[k].height,
            ) is Transient) {
            let k = choose|k: int|
                0 <= k < anchors.len() && (#[trigger] anchors[k]).height < tip_h && !(replies(
                    anchors[k].height,
                ) is Transient);
            if k < last {
                assert(rest[k] == anchors[k]);
            }
        }
        if exists|k: int|
            0 <= k < rest.len() && (#[trigger] rest[k]).height < tip_h && replies(rest[k].height)
                == FetchHashResult::Found(rest[k].hash) {
            let k = choose|k: int|
                0 <= k < rest.len() && (#[trigger] rest[k]).height < tip_h && replies(
                    rest[k].height,
                ) == FetchHashResult::Found(rest[k].hash);
            assert(anchors[k] == rest[k]);
        }
        if exists|k: int|
            0 <= k < rest.len() && (#[trigger] rest[k]).height < tip_h && !(replies(
                rest[k].height,
            ) is Transient) {
            let k = choose|k: int|
                0 <= k < rest.len() && (#[trigger] rest[k]).height < tip_h && !(replies(
                    rest[k].height,
                ) is Transient);
            assert(anchors[k] == rest[k]);
        }
    }
}

/// A wallet at an anchor knows no block above the anchor: its tip is the anchor's height, and every
/// stream that the anchor knows stands where the anchor says, but not above.
pub proof fn a_wallet_at_an_anchor_ends_there(w: WalletModel, a: AnchorModel, from: int, i: int)
    requires
        0 <= from,
        0 <= i < w.strms.len(),
        from + i < a.stream_heights.len(),
    ensures
        ({
            let r = wallet_at_anchor(w, a, from);
            &&& r.chain_tip_h.0 == a.height
            &&& r.strms.len() == w.strms.len()
            &&& r.strms[i].t_addr == w.strms[i].t_addr
            &&& r.strms[i].account_id == w.strms[i].account_id
            &&& r.strms[i].sync_h.0 <= a.height
            &&& a.stream_heights[from + i] <= a.height ==> r.strms[i].sync_h.0
                == a.stream_heights[from + i]
            &&& r.txs == wallet_at(w, BlockHeight(a.height)).txs
            &&& r.accounts == wallet_at(w, BlockHeight(a.height)).accounts
            &&& r.tx_h_map == wallet_at(w, BlockHeight(a.height)).tx_h_map
        }),
{
}

/// A wallet that starts anew has every stream and its tip at the start of the chain, and lists no
/// transaction of a block above it.
pub proof fn a_wallet_at_the_start_knows_no_block(w: WalletModel, t: WalletTx, i: int)
    ensures
        ({
            let r = wallet_at_start(w);
            &&& r.chain_tip_h.0 == 0
            &&& r.strms.len() == w.strms.len()
            &&& 0 <= i < w.strms.len() ==> r.strms[i] == (ManualStream {
                sync_h: BlockHeight(0),
                ..w.strms[i]
            })
            &&& r.txs.contains(t) <==> w.txs.contains(t) && (t.h.0 == 0 || t.h.0 >= MEMPOOL)
        }),
{
    a_later_transaction_is_gone(w, BlockHeight(0), t, 0);
}

} // verus!
