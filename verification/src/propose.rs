//! Proposing transactions: which outputs to make, what to spend for them, and where the change goes.
use crate::accounts::{AccountModel, ManualAccount, ManualWallet};
use crate::addresses::{addrs_from_ufvk, belongs, first_address, p2pkh_in, t_addr_belongs_to_account};
use crate::bytes::bytes_eq;
use crate::fees::{fee_of, fee_required, ProposedTransparentOutput};
use crate::full_tx::{plus_recv, plus_sent, plus_spent};
use crate::height::{BlockHeight, PROPOSED};
use crate::network::NetworkType;
use crate::notes::{Note, OrchardNote, TransparentAddress, Txo};
use crate::orchard_scan::{orchard_key_in, PreparedKeys};
use crate::staking::{StakingAction, StakingActionKind};
use crate::tree::{
    checkpoint_root, checkpoint_witness, path_ok, root_of, witness_of, OrchardShardTree, TreeModel,
    Witness,
};
use crate::tx_part::{TxParts, WalletTxPart};
use crate::wallet_tx::{blank_memo, memo_is_empty, no_memo, TxStatus, WalletTx};
use crate::zats::{Zatoshis, MAX_MONEY};
use orchard::builder::{Builder, BundleType};
use orchard::bundle::{BundleVersion, Flags};
use orchard::keys::FullViewingKey;
use orchard::note::{NoteVersion, RandomSeed, Rho};
use orchard::tree::{MerkleHashOrchard, MerklePath};
use orchard::value::NoteValue;
use orchard::{Address, Anchor, Note as Unspent};
use vstd::prelude::*;

verus! {

/// An output that is asked for.
#[allow(inconsistent_fields)]
#[derive(Clone, Copy, Debug, PartialEq, Eq)]
pub enum TxOutput {
    Transparent { dst: TransparentAddress, zats: Zatoshis },
    Orchard {
        /// Whether the wallet is to find the note again as one that it sent.
        with_ovk: bool,
        dst: [u8; 43],
        zats: Zatoshis,
        memo: [u8; 512],
    },
}

/// An orchard note that is to be spent, and the way from it to the anchor.
#[derive(Clone, Copy, Debug, PartialEq, Eq)]
pub struct ProposedOrchardSpend {
    pub note: OrchardNote,
    pub path: [[u8; 32]; 32],
}

/// An orchard note that is to be made.
#[derive(Clone, Copy, Debug, PartialEq, Eq)]
pub struct ProposedOrchardOutput {
    pub with_ovk: bool,
    pub dst: [u8; 43],
    pub zats: Zatoshis,
    pub memo: [u8; 512],
}

/// Everything that is needed to build a transaction.
#[derive(Debug)]
pub struct BuildPrep {
    pub block_h: u32,
    /// The root of the commitment tree against which notes are spent, or that of an empty tree.
    pub orchard_anchor: Option<[u8; 32]>,
    pub t_inputs: Vec<Txo>,
    pub t_outputs: Vec<ProposedTransparentOutput>,
    pub o_inputs: Vec<ProposedOrchardSpend>,
    pub o_outputs: Vec<ProposedOrchardOutput>,
    pub staking_action: Option<StakingAction>,
}

/// What a [`BuildPrep`] holds.
#[verifier::ext_equal]
pub struct PrepModel {
    pub block_h: u32,
    pub orchard_anchor: Option<[u8; 32]>,
    pub t_inputs: Seq<Txo>,
    pub t_outputs: Seq<ProposedTransparentOutput>,
    pub o_inputs: Seq<ProposedOrchardSpend>,
    pub o_outputs: Seq<ProposedOrchardOutput>,
    pub staking_action: Option<StakingAction>,
}

impl View for BuildPrep {
    type V = PrepModel;

    open spec fn view(&self) -> PrepModel {
        PrepModel {
            block_h: self.block_h,
            orchard_anchor: self.orchard_anchor,
            t_inputs: self.t_inputs@,
            t_outputs: self.t_outputs@,
            o_inputs: self.o_inputs@,
            o_outputs: self.o_outputs@,
            staking_action: self.staking_action,
        }
    }
}

/// Where the money of a transaction may come from.
pub enum TxPool<'a> {
    Transparent,
    Orchard(&'a OrchardShardTree),
}

/// What a transaction may spend, in the order of preference, and what it does beside paying.
pub struct TxOptions<'a> {
    pub src_pools: &'a [TxPool<'a>],
    pub staking_action: Option<StakingAction>,
}

/// Whether `Builder::add_spend` of `orchard` accepts a note with a way to an anchor, for a key.
pub uninterp spec fn spend_fits(
    fvk: [u8; 96],
    note: Note,
    position: u64,
    path: [[u8; 32]; 32],
    anchor: [u8; 32],
) -> bool;

/// `Builder::add_spend` of `orchard`: whether the note is the key's, and the way leads from it to the
/// anchor. Bytes that are no key, note, anchor or position are not accepted.
#[verifier::external_body]
fn try_spend(
    fvk: &[u8; 96],
    n: &Note,
    position: u64,
    path: &[[u8; 32]; 32],
    anchor: &[u8; 32],
) -> (r: Option<()>)
    requires
        path_ok(*path),
    ensures
        r.is_some() == spend_fits(*fvk, *n, position, *path, *anchor),
{
    let to = Address::from_raw_address_bytes(&n.recipient).into_option()?;
    let rho = Rho::from_bytes(&n.rho).into_option()?;
    let seed = RandomSeed::from_bytes(n.rseed, &rho).into_option()?;
    let value = NoteValue::from_raw(n.value);
    let note = Unspent::from_parts(to, value, rho, seed, NoteVersion::V2).into_option()?;
    let path = path.map(|b| MerkleHashOrchard::from_bytes(&b).unwrap());
    let path = MerklePath::from_parts(position.try_into().ok()?, path);
    let anchor = Anchor::from_bytes(*anchor).into_option()?;
    Builder::new(BundleType::DEFAULT, BundleVersion::orchard_v2(), Flags::ENABLED, anchor)
        .ok()?.add_spend(FullViewingKey::from_bytes(fvk)?, note, path).ok()
}

/// `shuffle` of `rand`, on the numbers below `n`: they come in some order, each once.
#[verifier::external_body]
fn shuffled(n: usize) -> (r: Vec<usize>)
    ensures
        is_order(r@, n as nat),
{
    let mut order: Vec<usize> = (0..n).collect();
    rand::seq::SliceRandom::shuffle(&mut order[..], &mut rand::thread_rng());
    order
}

/// The numbers below `n` in some order: each once.
pub open spec fn is_order(order: Seq<usize>, n: nat) -> bool {
    &&& order.len() == n
    &&& forall|i: int| 0 <= i < n ==> (#[trigger] order[i]) < n
    &&& order.no_duplicates()
}

/// The one who pays: the network, the viewing key, and the orchard address of an account.
pub struct Payer {
    pub net: NetworkType,
    pub ufvk: Seq<char>,
    pub orchard: [u8; 43],
}

/// How far the outputs have come.
pub struct OutState {
    pub t: WalletTxPart,
    pub s: WalletTxPart,
    pub t_outputs: Seq<ProposedTransparentOutput>,
    pub o_outputs: Seq<ProposedOrchardOutput>,
    pub memo_count: nat,
    pub memo: [u8; 512],
    pub ok: bool,
}

/// A part that sends an amount, and receives it if it goes to the one who pays; none where the sum
/// cannot exist.
pub open spec fn paid(p: WalletTxPart, to_me: bool, z: Zatoshis) -> Option<WalletTxPart> {
    match plus_sent(p, z) {
        Some(q) => if to_me {
            plus_recv(q, z)
        } else {
            Some(q)
        },
        None => None,
    }
}

/// One more output.
pub open spec fn out_step(st: OutState, payer: Payer, o: TxOutput) -> OutState {
    if !st.ok {
        st
    } else {
        match o {
            TxOutput::Transparent { dst, zats } => match paid(
                st.t,
                belongs(payer.net, payer.ufvk, dst),
                zats,
            ) {
                Some(t) => OutState {
                    t,
                    t_outputs: st.t_outputs.push(ProposedTransparentOutput { dst, zats }),
                    ..st
                },
                None => OutState { ok: false, ..st },
            },
            TxOutput::Orchard { with_ovk, dst, zats, memo } => match paid(
                st.s,
                dst == payer.orchard,
                zats,
            ) {
                Some(s) => OutState {
                    s,
                    o_outputs: st.o_outputs.push(
                        ProposedOrchardOutput { with_ovk, dst, zats, memo },
                    ),
                    memo_count: st.memo_count + if memo@[0] != 0xf6 {
                        1nat
                    } else {
                        0nat
                    },
                    memo,
                    ..st
                },
                None => OutState { ok: false, ..st },
            },
        }
    }
}

/// The outputs, one after the other.
pub open spec fn out_steps(st: OutState, payer: Payer, outs: Seq<TxOutput>) -> OutState
    decreases outs.len(),
{
    if outs.len() == 0 {
        st
    } else {
        out_step(out_steps(st, payer, outs.drop_last()), payer, outs.last())
    }
}

/// How the search for something to spend stands.
#[derive(Clone, Copy, Debug, PartialEq, Eq, Structural)]
pub enum SpendStage {
    Looking,
    Enough,
    Failed,
}

/// How far the spends have come.
pub struct SpendState {
    pub t: WalletTxPart,
    pub s: WalletTxPart,
    pub t_inputs: Seq<Txo>,
    pub o_inputs: Seq<ProposedOrchardSpend>,
    pub total: nat,
    pub stage: SpendStage,
}

/// What is to be paid: the amount, and the outputs on which the fee depends.
pub struct Bill {
    pub target: nat,
    pub t_outputs: Seq<ProposedTransparentOutput>,
    pub o_outputs: Seq<ProposedOrchardOutput>,
}

/// The fee of what has been chosen.
pub open spec fn state_fee(st: SpendState, bill: Bill) -> Option<u64> {
    fee_of(st.t_inputs.len(), bill.t_outputs, st.o_inputs.len(), bill.o_outputs.len())
}

/// The search after one more spend: it ends when the bill and the fee are covered.
pub open spec fn judged(st: SpendState, bill: Bill) -> SpendState {
    SpendState {
        stage: match state_fee(st, bill) {
            Some(fee) => if st.total >= bill.target + fee {
                SpendStage::Enough
            } else {
                SpendStage::Looking
            },
            None => SpendStage::Failed,
        },
        ..st
    }
}

/// One more output of the account. Only those that pay to the key's address can be spent.
pub open spec fn utxo_step(
    st: SpendState,
    key_addr: TransparentAddress,
    bill: Bill,
    u: Txo,
) -> SpendState {
    if st.stage != SpendStage::Looking || !(u.t_addr is PublicKeyHash) || u.t_addr != key_addr {
        st
    } else {
        match plus_spent(st.t, u.value) {
            Some(t) => judged(
                SpendState {
                    t,
                    t_inputs: st.t_inputs.push(u),
                    total: st.total + u.value.zats as nat,
                    ..st
                },
                bill,
            ),
            None => SpendState { stage: SpendStage::Failed, ..st },
        }
    }
}

pub open spec fn utxo_steps(
    st: SpendState,
    key_addr: TransparentAddress,
    bill: Bill,
    utxos: Seq<Txo>,
) -> SpendState
    decreases utxos.len(),
{
    if utxos.len() == 0 {
        st
    } else {
        utxo_step(
            utxo_steps(st, key_addr, bill, utxos.drop_last()),
            key_addr,
            bill,
            utxos.last(),
        )
    }
}

/// Where notes are spent: the key, the tree, and the checkpoint with its root.
pub struct NoteSource {
    pub fvk: [u8; 96],
    pub tree: TreeModel,
    pub anchor_h: BlockHeight,
    pub anchor: [u8; 32],
}

/// One more note of the account. It must have come by the anchor's height; one that the anchor or the
/// key does not fit is passed over.
pub open spec fn note_step(st: SpendState, src: NoteSource, bill: Bill, n: OrchardNote) -> SpendState {
    if st.stage != SpendStage::Looking || n.recv_h.0 > src.anchor_h.0 {
        st
    } else {
        match witness_of(src.tree, n.position, src.anchor_h.0) {
            Witness::Path(path) => if !spend_fits(src.fvk, n.note, n.position, path, src.anchor) {
                st
            } else if n.note.value > MAX_MONEY {
                SpendState { stage: SpendStage::Failed, ..st }
            } else {
                match plus_spent(st.s, Zatoshis { zats: n.note.value }) {
                    Some(s) => judged(
                        SpendState {
                            s,
                            o_inputs: st.o_inputs.push(ProposedOrchardSpend { note: n, path }),
                            total: st.total + n.note.value as nat,
                            ..st
                        },
                        bill,
                    ),
                    None => SpendState { stage: SpendStage::Failed, ..st },
                }
            },
            _ => SpendState { stage: SpendStage::Failed, ..st },
        }
    }
}

/// The notes in an order, one after the other.
pub open spec fn note_steps(
    st: SpendState,
    src: NoteSource,
    bill: Bill,
    notes: Seq<OrchardNote>,
    order: Seq<usize>,
) -> SpendState
    decreases order.len(),
{
    if order.len() == 0 {
        st
    } else {
        note_step(
            note_steps(st, src, bill, notes, order.drop_last()),
            src,
            bill,
            notes[order.last() as int],
        )
    }
}

/// What the proposal draws on.
pub struct Funds {
    pub account: AccountModel,
    /// The order in which notes are tried.
    pub order: Seq<usize>,
    pub fvk: Option<[u8; 96]>,
    /// The address of the key that signs for transparent outputs.
    pub key_addr: Option<TransparentAddress>,
    pub anchor_h: BlockHeight,
    pub anchor: Option<[u8; 32]>,
}

/// One more pool.
pub open spec fn pool_step(st: SpendState, f: Funds, bill: Bill, p: TxPool) -> SpendState {
    match p {
        TxPool::Transparent => match f.key_addr {
            Some(addr) => utxo_steps(st, addr, bill, f.account.utxos),
            None => st,
        },
        TxPool::Orchard(tree) => match (f.fvk, f.anchor) {
            (Some(fvk), Some(anchor)) => note_steps(
                st,
                NoteSource { fvk, tree: tree@, anchor_h: f.anchor_h, anchor },
                bill,
                f.account.unspent_orchard_notes,
                f.order,
            ),
            _ => st,
        },
    }
}

/// The pools, one after the other.
pub open spec fn pool_steps(st: SpendState, f: Funds, bill: Bill, pools: Seq<TxPool>) -> SpendState
    decreases pools.len(),
{
    if pools.len() == 0 {
        st
    } else {
        pool_step(pool_steps(st, f, bill, pools.drop_last()), f, bill, pools.last())
    }
}

/// The pools that may be spent from: each at most once, and the tree must have a root at the anchor.
pub struct Sources {
    pub transparent: bool,
    pub orchard: bool,
    pub anchor: Option<[u8; 32]>,
}

/// One more source. None where a pool comes twice, or the tree has no root at the anchor.
pub open spec fn source_step(st: Option<Sources>, anchor_h: BlockHeight, p: TxPool) -> Option<Sources> {
    match (st, p) {
        (None, _) => None,
        (Some(s), TxPool::Transparent) => if s.transparent {
            None
        } else {
            Some(Sources { transparent: true, ..s })
        },
        (Some(s), TxPool::Orchard(tree)) => match root_of(tree@, anchor_h.0) {
            Some(root) => if s.orchard {
                None
            } else {
                Some(Sources { orchard: true, anchor: Some(root), ..s })
            },
            None => None,
        },
    }
}

pub open spec fn source_steps(anchor_h: BlockHeight, pools: Seq<TxPool>) -> Option<Sources>
    decreases pools.len(),
{
    if pools.len() == 0 {
        Some(Sources { transparent: false, orchard: false, anchor: None })
    } else {
        source_step(source_steps(anchor_h, pools.drop_last()), anchor_h, pools.last())
    }
}

/// The bond that a transaction begins to unbond, or zeros.
pub open spec fn unbonding_key(t: WalletTx) -> Seq<u8> {
    match t.staking_action {
        Some(a) => if a.kind == StakingActionKind::BeginDelegationUnbonding {
            a.arg32_0@
        } else {
            Seq::new(32, |i: int| 0u8)
        },
        None => Seq::new(32, |i: int| 0u8),
    }
}

/// What a staking action moves. None where its amount cannot exist, or a bond is withdrawn of which
/// no transaction began the unbonding.
pub open spec fn staking_moves(txs: Seq<WalletTx>, action: Option<StakingAction>) -> Option<WalletTxPart> {
    match action {
        Some(a) => if a.kind.moves_money() && a.amount_zats > MAX_MONEY {
            None
        } else if a.kind == StakingActionKind::WithdrawDelegationBond && !(exists|i: int|
            0 <= i < txs.len() && #[trigger] unbonding_key(txs[i]) == a.arg32_0@) {
            None
        } else {
            Some(WalletTxPart::of_staking_action(action))
        },
        None => Some(WalletTxPart::nothing()),
    }
}

/// The staking action of a transaction, unless it is none.
pub open spec fn real_action(action: Option<StakingAction>) -> Option<StakingAction> {
    match action {
        Some(a) => if a.kind == StakingActionKind::Null {
            None
        } else {
            Some(a)
        },
        None => None,
    }
}

fn find_unbonding(txs: &Vec<WalletTx>, bond: &[u8; 32]) -> (r: bool)
    ensures
        r == (exists|i: int| 0 <= i < txs@.len() && #[trigger] unbonding_key(txs@[i]) == bond@),
{
    let zeros: [u8; 32] = [0u8; 32];
    assert(zeros@ =~= Seq::new(32, |i: int| 0u8));
    let mut k: usize = 0;
    while k < txs.len()
        invariant
            k <= txs@.len(),
            zeros@ == Seq::new(32, |i: int| 0u8),
            forall|i: int| 0 <= i < k ==> #[trigger] unbonding_key(txs@[i]) != bond@,
        decreases txs.len() - k,
    {
        let mut key: [u8; 32] = zeros;
        if let Some(a) = &txs[k].staking_action {
            if a.kind == StakingActionKind::BeginDelegationUnbonding {
                key = a.arg32_0;
            }
        }
        assert(key@ == unbonding_key(txs@[k as int]));
        if bytes_eq(&key, bond) {
            return true;
        }
        proof {
            if key@ == bond@ {
                assert(key =~= *bond);
            }
        }
        k += 1;
    }
    false
}

fn staking_part(txs: &Vec<WalletTx>, action: &Option<StakingAction>) -> (r: Option<WalletTxPart>)
    requires
        *action matches Some(a) ==> a.kind.is_accounted(),
    ensures
        r == staking_moves(txs@, *action),
{
    if let Some(a) = action {
        let moves = match a.kind {
            StakingActionKind::CreateNewDelegationBond => true,
            StakingActionKind::WithdrawDelegationBond => true,
            _ => false,
        };
        if moves && Zatoshis::from_u64(a.amount_zats).is_none() {
            return None;
        }
        if a.kind == StakingActionKind::WithdrawDelegationBond && !find_unbonding(txs, &a.arg32_0) {
            return None;
        }
        Some(WalletTxPart::from_staking_action(Some(*a)))
    } else {
        Some(WalletTxPart::zero())
    }
}

fn check_sources<'a>(anchor_h: BlockHeight, pools: &'a [TxPool<'a>]) -> (r: Option<
    (bool, Option<[u8; 32]>),
>)
    ensures
        match source_steps(anchor_h, pools@) {
            Some(s) => r matches Some((t, anchor)) && t == s.transparent && anchor == s.anchor,
            None => r is None,
        },
{
    let mut transparent = false;
    let mut orchard = false;
    let mut anchor: Option<[u8; 32]> = None;
    let mut i: usize = 0;
    while i < pools.len()
        invariant
            i <= pools@.len(),
            source_steps(anchor_h, pools@.take(i as int)) == Some(
                Sources { transparent, orchard, anchor },
            ),
        decreases pools.len() - i,
    {
        proof {
            assert(pools@.take(i + 1).drop_last() =~= pools@.take(i as int));
        }
        match &pools[i] {
            TxPool::Transparent => {
                if transparent {
                    proof {
                        lemma_sources_stopped(anchor_h, pools@, i + 1);
                    }
                    return None;
                }
                transparent = true;
            },
            TxPool::Orchard(tree) => {
                match checkpoint_root(tree, anchor_h.0) {
                    Some(root) => {
                        if orchard {
                            proof {
                                lemma_sources_stopped(anchor_h, pools@, i + 1);
                            }
                            return None;
                        }
                        orchard = true;
                        anchor = Some(root);
                    },
                    None => {
                        proof {
                            lemma_sources_stopped(anchor_h, pools@, i + 1);
                        }
                        return None;
                    },
                }
            },
        }
        i += 1;
    }
    assert(pools@.take(i as int) =~= pools@);
    Some((transparent, anchor))
}

proof fn lemma_sources_stopped(anchor_h: BlockHeight, pools: Seq<TxPool>, n: int)
    requires
        0 <= n <= pools.len(),
        source_steps(anchor_h, pools.take(n)) is None,
    ensures
        source_steps(anchor_h, pools) is None,
    decreases pools.len() - n,
{
    if n < pools.len() {
        assert(pools.take(n + 1).drop_last() =~= pools.take(n));
        lemma_sources_stopped(anchor_h, pools, n + 1);
    } else {
        assert(pools.take(n) =~= pools);
    }
}

/// A proposal that is being put together.
struct Draft {
    t: WalletTxPart,
    s: WalletTxPart,
    total: u64,
    prep: BuildPrep,
}

impl Draft {
    spec fn out_state(&self, memo_count: nat, memo: [u8; 512]) -> OutState {
        OutState {
            t: self.t,
            s: self.s,
            t_outputs: self.prep.t_outputs@,
            o_outputs: self.prep.o_outputs@,
            memo_count,
            memo,
            ok: true,
        }
    }

    spec fn spend_state(&self, stage: SpendStage) -> SpendState {
        SpendState {
            t: self.t,
            s: self.s,
            t_inputs: self.prep.t_inputs@,
            o_inputs: self.prep.o_inputs@,
            total: self.total as nat,
            stage,
        }
    }

    spec fn bill(&self, target: u64) -> Bill {
        Bill {
            target: target as nat,
            t_outputs: self.prep.t_outputs@,
            o_outputs: self.prep.o_outputs@,
        }
    }

    /// What stays as it was while outputs are added.
    spec fn same_inputs(&self, d: &Draft) -> bool {
        &&& self.total == d.total
        &&& self.prep.block_h == d.prep.block_h
        &&& self.prep.orchard_anchor == d.prep.orchard_anchor
        &&& self.prep.t_inputs == d.prep.t_inputs
        &&& self.prep.o_inputs == d.prep.o_inputs
        &&& self.prep.staking_action == d.prep.staking_action
        &&& self.t.spent_note_count == d.t.spent_note_count
        &&& self.t.spent_zats == d.t.spent_zats
        &&& self.s.spent_note_count == d.s.spent_note_count
        &&& self.s.spent_zats == d.s.spent_zats
    }

    /// What stays as it was while spends are added.
    spec fn same_outputs(&self, d: &Draft) -> bool {
        &&& self.prep.block_h == d.prep.block_h
        &&& self.prep.orchard_anchor == d.prep.orchard_anchor
        &&& self.prep.t_outputs == d.prep.t_outputs
        &&& self.prep.o_outputs == d.prep.o_outputs
        &&& self.prep.staking_action == d.prep.staking_action
        &&& self.t.sent_note_count == d.t.sent_note_count
        &&& self.t.sent_zats == d.t.sent_zats
        &&& self.t.recv_note_count == d.t.recv_note_count
        &&& self.t.recv_zats == d.t.recv_zats
        &&& self.s.sent_note_count == d.s.sent_note_count
        &&& self.s.sent_zats == d.s.sent_zats
        &&& self.s.recv_note_count == d.s.recv_note_count
        &&& self.s.recv_zats == d.s.recv_zats
    }

    /// The total is what the parts spend, beside what a bond gives.
    spec fn adds_up(&self, base: nat) -> bool {
        &&& self.total == base + self.t.spent_zats.zats + self.s.spent_zats.zats
        &&& base <= MAX_MONEY
        &&& self.t.spent_zats.wf()
        &&& self.s.spent_zats.wf()
        &&& self.t.spent_note_count == self.prep.t_inputs@.len()
        &&& self.s.spent_note_count == self.prep.o_inputs@.len()
    }
}

/// The most outputs and spends for which the fee can be computed.
pub open spec fn size_ok(n: nat) -> bool {
    (n + 4) * 150 <= usize::MAX
}

proof fn lemma_outs_stopped(st: OutState, payer: Payer, outs: Seq<TxOutput>, n: int)
    requires
        0 <= n <= outs.len(),
        !out_steps(st, payer, outs.take(n)).ok,
    ensures
        out_steps(st, payer, outs) == out_steps(st, payer, outs.take(n)),
    decreases outs.len() - n,
{
    if n < outs.len() {
        assert(outs.take(n + 1).drop_last() =~= outs.take(n));
        lemma_outs_stopped(st, payer, outs, n + 1);
    } else {
        assert(outs.take(n) =~= outs);
    }
}

fn pay(p: WalletTxPart, to_me: bool, z: Zatoshis) -> (r: Option<WalletTxPart>)
    requires
        p.sent_note_count < usize::MAX,
        p.recv_note_count < usize::MAX,
        p.recv_zats.wf(),
    ensures
        r == paid(p, to_me, z),
{
    let mut q = p;
    if q.sent(z).is_none() {
        return None;
    }
    if q.maybe_recv(to_me, z).is_none() {
        return None;
    }
    Some(q)
}

fn add_outputs(
    d: &mut Draft,
    net: NetworkType,
    ufvk: &str,
    orchard: &[u8; 43],
    outs: &[TxOutput],
    memo_count: &mut usize,
    memo: &mut [u8; 512],
) -> (ok: bool)
    requires
        old(d).t == WalletTxPart::nothing(),
        old(d).s == WalletTxPart::nothing(),
        old(d).prep.t_outputs@.len() == 0,
        old(d).prep.o_outputs@.len() == 0,
        *old(memo_count) + outs@.len() <= usize::MAX,
        size_ok(outs@.len()),
    ensures
        ({
            let st = out_steps(
                old(d).out_state(*old(memo_count) as nat, *old(memo)),
                Payer { net, ufvk: ufvk@, orchard: *orchard },
                outs@,
            );
            &&& ok == st.ok
            &&& *final(memo_count) == st.memo_count
            &&& *final(memo) == st.memo
            &&& ok ==> final(d).out_state(st.memo_count, st.memo) == st
        }),
        final(d).same_inputs(old(d)),
        final(d).prep.t_outputs@.len() + final(d).prep.o_outputs@.len() <= outs@.len(),
        final(d).t.wf(),
        final(d).s.wf(),
        final(d).t.sent_note_count <= outs@.len(),
        final(d).t.recv_note_count <= outs@.len(),
        final(d).s.sent_note_count <= outs@.len(),
        final(d).s.recv_note_count <= outs@.len(),
{
    let ghost payer = Payer { net, ufvk: ufvk@, orchard: *orchard };
    let ghost st0 = d.out_state(*memo_count as nat, *memo);
    let mut i: usize = 0;
    while i < outs.len()
        invariant
            i <= outs@.len(),
            size_ok(outs@.len()),
            payer == (Payer { net, ufvk: ufvk@, orchard: *orchard }),
            st0 == old(d).out_state(*old(memo_count) as nat, *old(memo)),
            out_steps(st0, payer, outs@.take(i as int)) == d.out_state(*memo_count as nat, *memo),
            d.same_inputs(old(d)),
            *memo_count <= *old(memo_count) + i,
            *old(memo_count) + outs@.len() <= usize::MAX,
            d.prep.t_outputs@.len() + d.prep.o_outputs@.len() <= i,
            d.t.wf(),
            d.s.wf(),
            d.t.sent_note_count <= i,
            d.t.recv_note_count <= i,
            d.s.sent_note_count <= i,
            d.s.recv_note_count <= i,
        decreases outs.len() - i,
    {
        proof {
            assert(outs@.take(i + 1).drop_last() =~= outs@.take(i as int));
        }
        match &outs[i] {
            TxOutput::Transparent { dst, zats } => {
                let to_me = t_addr_belongs_to_account(net, ufvk, dst);
                match pay(d.t, to_me, *zats) {
                    Some(t) => {
                        d.t = t;
                        d.prep.t_outputs.push(ProposedTransparentOutput { dst: *dst, zats: *zats });
                    },
                    None => {
                        proof {
                            lemma_outs_stopped(st0, payer, outs@, i + 1);
                        }
                        return false;
                    },
                }
            },
            TxOutput::Orchard { with_ovk, dst, zats, memo: text } => {
                let to_me = bytes_eq(dst, orchard);
                match pay(d.s, to_me, *zats) {
                    Some(s) => {
                        d.s = s;
                        if !memo_is_empty(text) {
                            *memo_count = *memo_count + 1;
                        }
                        *memo = *text;
                        d.prep.o_outputs.push(
                            ProposedOrchardOutput {
                                with_ovk: *with_ovk,
                                dst: *dst,
                                zats: *zats,
                                memo: *text,
                            },
                        );
                    },
                    None => {
                        proof {
                            lemma_outs_stopped(st0, payer, outs@, i + 1);
                        }
                        return false;
                    },
                }
            },
        }
        i += 1;
    }
    assert(outs@.take(i as int) =~= outs@);
    true
}

proof fn lemma_utxos_stopped(
    st: SpendState,
    key_addr: TransparentAddress,
    bill: Bill,
    utxos: Seq<Txo>,
    n: int,
)
    requires
        0 <= n <= utxos.len(),
        utxo_steps(st, key_addr, bill, utxos.take(n)).stage != SpendStage::Looking,
    ensures
        utxo_steps(st, key_addr, bill, utxos) == utxo_steps(st, key_addr, bill, utxos.take(n)),
    decreases utxos.len() - n,
{
    if n < utxos.len() {
        assert(utxos.take(n + 1).drop_last() =~= utxos.take(n));
        lemma_utxos_stopped(st, key_addr, bill, utxos, n + 1);
    } else {
        assert(utxos.take(n) =~= utxos);
    }
}

proof fn lemma_notes_stopped(
    st: SpendState,
    src: NoteSource,
    bill: Bill,
    notes: Seq<OrchardNote>,
    order: Seq<usize>,
    n: int,
)
    requires
        0 <= n <= order.len(),
        note_steps(st, src, bill, notes, order.take(n)).stage != SpendStage::Looking,
    ensures
        note_steps(st, src, bill, notes, order) == note_steps(st, src, bill, notes, order.take(n)),
    decreases order.len() - n,
{
    if n < order.len() {
        assert(order.take(n + 1).drop_last() =~= order.take(n));
        lemma_notes_stopped(st, src, bill, notes, order, n + 1);
    } else {
        assert(order.take(n) =~= order);
    }
}

/// Whether what was chosen covers the bill and the fee.
fn judge(d: &Draft, target: u64) -> (r: SpendStage)
    requires
        target <= 3 * MAX_MONEY,
        (d.prep.t_inputs@.len() + d.prep.t_outputs@.len() + d.prep.o_inputs@.len()
            + d.prep.o_outputs@.len() + 2) * 150 <= usize::MAX,
    ensures
        d.spend_state(r) == judged(d.spend_state(SpendStage::Looking), d.bill(target)),
{
    match fee_required(
        d.prep.t_inputs.len(),
        &d.prep.t_outputs,
        d.prep.o_inputs.len(),
        d.prep.o_outputs.len(),
    ) {
        Some(fee) => if d.total >= target + fee {
            SpendStage::Enough
        } else {
            SpendStage::Looking
        },
        None => SpendStage::Failed,
    }
}

fn spend_utxos(
    d: &mut Draft,
    key_addr: &TransparentAddress,
    utxos: &Vec<Txo>,
    target: u64,
    base: Ghost<nat>,
) -> (stage: SpendStage)
    requires
        target <= 3 * MAX_MONEY,
        old(d).prep.t_inputs@.len() == 0,
        size_ok(
            utxos@.len() + old(d).prep.t_outputs@.len() + old(d).prep.o_inputs@.len() + old(
                d,
            ).prep.o_outputs@.len(),
        ),
        old(d).adds_up(base@),
    ensures
        ({
            let st = utxo_steps(
                old(d).spend_state(SpendStage::Looking),
                *key_addr,
                old(d).bill(target),
                utxos@,
            );
            &&& stage == st.stage
            &&& stage != SpendStage::Failed ==> final(d).spend_state(stage) == st
        }),
        final(d).same_outputs(old(d)),
        final(d).adds_up(base@),
        final(d).prep.o_inputs == old(d).prep.o_inputs,
        final(d).prep.t_inputs@.len() <= utxos@.len(),
{
    let ghost st0 = d.spend_state(SpendStage::Looking);
    let ghost bill = d.bill(target);
    let mut i: usize = 0;
    while i < utxos.len()
        invariant
            i <= utxos@.len(),
            target <= 3 * MAX_MONEY,
            size_ok(
                utxos@.len() + d.prep.t_outputs@.len() + d.prep.o_inputs@.len()
                    + d.prep.o_outputs@.len(),
            ),
            st0 == old(d).spend_state(SpendStage::Looking),
            bill == old(d).bill(target),
            utxo_steps(st0, *key_addr, bill, utxos@.take(i as int)) == d.spend_state(
                SpendStage::Looking,
            ),
            d.same_outputs(old(d)),
            d.adds_up(base@),
            d.prep.o_inputs == old(d).prep.o_inputs,
            d.prep.t_inputs@.len() <= i,
        decreases utxos.len() - i,
    {
        proof {
            assert(utxos@.take(i + 1).drop_last() =~= utxos@.take(i as int));
        }
        let u = utxos[i];
        let can_sign = match u.t_addr {
            TransparentAddress::PublicKeyHash(_) => u.t_addr.same(key_addr),
            TransparentAddress::ScriptHash(_) => false,
        };
        if can_sign {
            let mut t = d.t;
            if t.spent(u.value).is_none() {
                proof {
                    lemma_utxos_stopped(st0, *key_addr, bill, utxos@, i + 1);
                }
                return SpendStage::Failed;
            }
            d.t = t;
            d.total = d.total + u.value.into_u64();
            d.prep.t_inputs.push(u);
            let stage = judge(d, target);
            if stage != SpendStage::Looking {
                proof {
                    lemma_utxos_stopped(st0, *key_addr, bill, utxos@, i + 1);
                }
                return stage;
            }
        }
        i += 1;
    }
    assert(utxos@.take(i as int) =~= utxos@);
    SpendStage::Looking
}

fn spend_notes(
    d: &mut Draft,
    fvk: &[u8; 96],
    tree: &OrchardShardTree,
    anchor_h: BlockHeight,
    anchor: &[u8; 32],
    notes: &Vec<OrchardNote>,
    order: &[usize],
    target: u64,
    base: Ghost<nat>,
) -> (stage: SpendStage)
    requires
        target <= 3 * MAX_MONEY,
        forall|i: int| 0 <= i < order@.len() ==> (#[trigger] order@[i]) < notes@.len(),
        old(d).prep.o_inputs@.len() == 0,
        size_ok(
            order@.len() + old(d).prep.t_outputs@.len() + old(d).prep.t_inputs@.len() + old(
                d,
            ).prep.o_outputs@.len(),
        ),
        old(d).adds_up(base@),
    ensures
        ({
            let st = note_steps(
                old(d).spend_state(SpendStage::Looking),
                NoteSource { fvk: *fvk, tree: tree@, anchor_h, anchor: *anchor },
                old(d).bill(target),
                notes@,
                order@,
            );
            &&& stage == st.stage
            &&& stage != SpendStage::Failed ==> final(d).spend_state(stage) == st
        }),
        final(d).same_outputs(old(d)),
        final(d).adds_up(base@),
        final(d).prep.t_inputs == old(d).prep.t_inputs,
        final(d).prep.o_inputs@.len() <= order@.len(),
{
    let ghost st0 = d.spend_state(SpendStage::Looking);
    let ghost bill = d.bill(target);
    let ghost src = NoteSource { fvk: *fvk, tree: tree@, anchor_h, anchor: *anchor };
    let mut i: usize = 0;
    while i < order.len()
        invariant
            i <= order@.len(),
            target <= 3 * MAX_MONEY,
            forall|i: int| 0 <= i < order@.len() ==> (#[trigger] order@[i]) < notes@.len(),
            size_ok(
                order@.len() + d.prep.t_outputs@.len() + d.prep.t_inputs@.len()
                    + d.prep.o_outputs@.len(),
            ),
            st0 == old(d).spend_state(SpendStage::Looking),
            bill == old(d).bill(target),
            src == (NoteSource { fvk: *fvk, tree: tree@, anchor_h, anchor: *anchor }),
            note_steps(st0, src, bill, notes@, order@.take(i as int)) == d.spend_state(
                SpendStage::Looking,
            ),
            d.same_outputs(old(d)),
            d.adds_up(base@),
            d.prep.t_inputs == old(d).prep.t_inputs,
            d.prep.o_inputs@.len() <= i,
        decreases order.len() - i,
    {
        proof {
            assert(order@.take(i + 1).drop_last() =~= order@.take(i as int));
        }
        let k: usize = order[i];
        let n = notes[k];
        if n.recv_h.0 <= anchor_h.0 {
            match checkpoint_witness(tree, n.position, anchor_h.0) {
                Witness::Path(path) => {
                    if try_spend(fvk, &n.note, n.position, &path, anchor).is_some() {
                        let mut s = d.s;
                        let added = match Zatoshis::from_u64(n.note.value) {
                            Some(z) => s.spent(z).is_some(),
                            None => false,
                        };
                        if !added {
                            proof {
                                lemma_notes_stopped(st0, src, bill, notes@, order@, i + 1);
                            }
                            return SpendStage::Failed;
                        }
                        d.s = s;
                        d.total = d.total + n.note.value;
                        d.prep.o_inputs.push(ProposedOrchardSpend { note: n, path });
                        let stage = judge(d, target);
                        if stage != SpendStage::Looking {
                            proof {
                                lemma_notes_stopped(st0, src, bill, notes@, order@, i + 1);
                            }
                            return stage;
                        }
                    }
                },
                _ => {
                    proof {
                        lemma_notes_stopped(st0, src, bill, notes@, order@, i + 1);
                    }
                    return SpendStage::Failed;
                },
            }
        }
        i += 1;
    }
    assert(order@.take(i as int) =~= order@);
    SpendStage::Looking
}

proof fn lemma_pool_idle(st: SpendState, f: Funds, bill: Bill, p: TxPool)
    requires
        st.stage != SpendStage::Looking,
    ensures
        pool_step(st, f, bill, p) == st,
{
    match p {
        TxPool::Transparent => {
            if let Some(addr) = f.key_addr {
                assert(f.account.utxos.take(0).len() == 0);
                lemma_utxos_stopped(st, addr, bill, f.account.utxos, 0);
            }
        },
        TxPool::Orchard(tree) => {
            if let (Some(fvk), Some(anchor)) = (f.fvk, f.anchor) {
                assert(f.order.take(0).len() == 0);
                lemma_notes_stopped(
                    st,
                    NoteSource { fvk, tree: tree@, anchor_h: f.anchor_h, anchor },
                    bill,
                    f.account.unspent_orchard_notes,
                    f.order,
                    0,
                );
            }
        },
    }
}

proof fn lemma_pools_stopped(st: SpendState, f: Funds, bill: Bill, pools: Seq<TxPool>, n: int)
    requires
        0 <= n <= pools.len(),
        pool_steps(st, f, bill, pools.take(n)).stage != SpendStage::Looking,
    ensures
        pool_steps(st, f, bill, pools) == pool_steps(st, f, bill, pools.take(n)),
    decreases pools.len() - n,
{
    if n < pools.len() {
        assert(pools.take(n + 1).drop_last() =~= pools.take(n));
        lemma_pool_idle(pool_steps(st, f, bill, pools.take(n)), f, bill, pools[n]);
        lemma_pools_stopped(st, f, bill, pools, n + 1);
    } else {
        assert(pools.take(n) =~= pools);
    }
}

fn choose_spends<'a>(
    d: &mut Draft,
    account: &ManualAccount,
    order: &[usize],
    fvk: &Option<[u8; 96]>,
    key_addr: &Option<TransparentAddress>,
    anchor_h: BlockHeight,
    anchor: &Option<[u8; 32]>,
    pools: &'a [TxPool<'a>],
    target: u64,
    base: Ghost<nat>,
) -> (stage: SpendStage)
    requires
        target <= 3 * MAX_MONEY,
        source_steps(anchor_h, pools@) is Some,
        is_order(order@, account@.unspent_orchard_notes.len()),
        old(d).prep.t_inputs@.len() == 0,
        old(d).prep.o_inputs@.len() == 0,
        size_ok(
            account@.utxos.len() + account@.unspent_orchard_notes.len() + old(
                d,
            ).prep.t_outputs@.len() + old(d).prep.o_outputs@.len(),
        ),
        old(d).adds_up(base@),
    ensures
        ({
            let st = pool_steps(
                old(d).spend_state(SpendStage::Looking),
                Funds {
                    account: account@,
                    order: order@,
                    fvk: *fvk,
                    key_addr: *key_addr,
                    anchor_h,
                    anchor: *anchor,
                },
                old(d).bill(target),
                pools@,
            );
            &&& stage == st.stage
            &&& stage != SpendStage::Failed ==> final(d).spend_state(stage) == st
        }),
        final(d).same_outputs(old(d)),
        final(d).adds_up(base@),
        final(d).prep.t_inputs@.len() <= account@.utxos.len(),
        final(d).prep.o_inputs@.len() <= account@.unspent_orchard_notes.len(),
{
    let ghost st0 = d.spend_state(SpendStage::Looking);
    let ghost bill = d.bill(target);
    let ghost f = Funds {
        account: account@,
        order: order@,
        fvk: *fvk,
        key_addr: *key_addr,
        anchor_h,
        anchor: *anchor,
    };
    let mut i: usize = 0;
    while i < pools.len()
        invariant
            i <= pools@.len(),
            target <= 3 * MAX_MONEY,
            source_steps(anchor_h, pools@) is Some,
            is_order(order@, account@.unspent_orchard_notes.len()),
            size_ok(
                account@.utxos.len() + account@.unspent_orchard_notes.len()
                    + d.prep.t_outputs@.len() + d.prep.o_outputs@.len(),
            ),
            st0 == old(d).spend_state(SpendStage::Looking),
            bill == old(d).bill(target),
            f == (Funds {
                account: account@,
                order: order@,
                fvk: *fvk,
                key_addr: *key_addr,
                anchor_h,
                anchor: *anchor,
            }),
            pool_steps(st0, f, bill, pools@.take(i as int)) == d.spend_state(SpendStage::Looking),
            source_steps(anchor_h, pools@.take(i as int)) matches Some(s) && (!s.transparent
                ==> d.prep.t_inputs@.len() == 0) && (!s.orchard ==> d.prep.o_inputs@.len() == 0),
            d.same_outputs(old(d)),
            d.adds_up(base@),
            d.prep.t_inputs@.len() <= account@.utxos.len(),
            d.prep.o_inputs@.len() <= account@.unspent_orchard_notes.len(),
        decreases pools.len() - i,
    {
        proof {
            assert(pools@.take(i + 1).drop_last() =~= pools@.take(i as int));
            if source_steps(anchor_h, pools@.take(i + 1)) is None {
                lemma_sources_stopped(anchor_h, pools@, i + 1);
            }
        }
        let stage = match &pools[i] {
            TxPool::Transparent => match key_addr {
                Some(addr) => spend_utxos(d, addr, &account.utxos, target, base),
                None => SpendStage::Looking,
            },
            TxPool::Orchard(tree) => match (fvk, anchor) {
                (Some(fvk), Some(anchor)) => spend_notes(
                    d,
                    fvk,
                    tree,
                    anchor_h,
                    anchor,
                    &account.unspent_orchard_notes,
                    order,
                    target,
                    base,
                ),
                _ => SpendStage::Looking,
            },
        };
        if stage != SpendStage::Looking {
            proof {
                lemma_pools_stopped(st0, f, bill, pools@, i + 1);
            }
            return stage;
        }
        i += 1;
    }
    assert(pools@.take(i as int) =~= pools@);
    SpendStage::Looking
}

/// A transaction on its way to the network.
#[derive(Debug)]
pub struct ProposedTx {
    pub tx: WalletTx,
    pub prep: Option<BuildPrep>,
    /// What was built: the bytes of the transaction, or why it has none.
    pub tx_res: Option<Result<Vec<u8>, String>>,
    /// Whether the user asked the faucet for it.
    pub is_user_faucet: bool,
}

impl ProposedTx {
    /// The entry that stands for no transaction.
    pub fn empty() -> (r: ProposedTx)
        ensures
            r.tx.is_empty(),
            r.prep is None,
            r.tx_res is None,
            !r.is_user_faucet,
    {
        ProposedTx { tx: WalletTx::empty(), prep: None, tx_res: None, is_user_faucet: false }
    }

    /// Whether a transaction is proposed, built or sent, and has not failed.
    pub open spec fn in_progress(&self) -> bool {
        crate::height::SENT <= self.tx.h.0 && self.tx.h.0 <= PROPOSED && self.tx.status is OnBc
    }

    pub fn is_in_progress(&self) -> (r: bool)
        ensures
            r == self.in_progress(),
    {
        crate::height::SENT <= self.tx.h.0 && self.tx.h.0 <= PROPOSED && self.tx.is_on_bc()
    }
}

/// What is asked of a wallet: outputs to make, pools to pay from, and a staking action.
pub struct Ask<'a> {
    pub net: NetworkType,
    pub chain_tip_h: BlockHeight,
    pub account: AccountModel,
    pub txs: Seq<WalletTx>,
    /// The entry of the transaction before.
    pub tx: WalletTx,
    pub outputs: Seq<TxOutput>,
    pub pools: Seq<TxPool<'a>>,
    pub action: Option<StakingAction>,
    pub key_addr: Option<TransparentAddress>,
    pub order: Seq<usize>,
}

/// The account's orchard address and the hash of its first public key.
pub open spec fn own_addresses(net: NetworkType, ufvk: Seq<char>) -> Option<([u8; 43], [u8; 20])> {
    match (first_address(net == NetworkType::Main, ufvk), p2pkh_in(net == NetworkType::Main, ufvk, 0)) {
        (Some((_, Some(orchard))), Some(pkh)) => Some((orchard, pkh)),
        _ => None,
    }
}

/// The outputs of a proposal, and what they move.
pub open spec fn ask_outputs(ask: Ask, orchard: [u8; 43]) -> OutState {
    out_steps(
        OutState {
            t: WalletTxPart::nothing(),
            s: WalletTxPart::nothing(),
            t_outputs: seq![],
            o_outputs: seq![],
            memo_count: ask.tx.memo_count as nat,
            memo: ask.tx.memo,
            ok: true,
        },
        Payer { net: ask.net, ufvk: ask.account.ufvk, orchard },
        ask.outputs,
    )
}

/// The bill of a proposal: what its outputs and its staking action send.
pub open spec fn ask_bill(out: OutState, b: WalletTxPart) -> Bill {
    Bill {
        target: out.t.sent_zats.zats as nat + out.s.sent_zats.zats as nat + b.sent_zats.zats as nat,
        t_outputs: out.t_outputs,
        o_outputs: out.o_outputs,
    }
}

/// The orchard key of the account.
pub open spec fn ask_fvk(ask: Ask) -> Option<[u8; 96]> {
    orchard_key_in(ask.net == NetworkType::Main, ask.account.ufvk)
}

/// The spends of a proposal.
pub open spec fn ask_spends(ask: Ask, src: Sources, out: OutState, b: WalletTxPart) -> SpendState {
    pool_steps(
        SpendState {
            t: out.t,
            s: out.s,
            t_inputs: seq![],
            o_inputs: seq![],
            total: b.spent_zats.zats as nat,
            stage: SpendStage::Looking,
        },
        Funds {
            account: ask.account,
            order: ask.order,
            fvk: ask_fvk(ask),
            key_addr: ask.key_addr,
            anchor_h: ask.chain_tip_h.minus(1),
            anchor: src.anchor,
        },
        ask_bill(out, b),
        ask.pools,
    )
}

/// A proposal: what moves in both pools, and the outputs with the change among them.
pub struct Settled {
    pub t: WalletTxPart,
    pub s: WalletTxPart,
    pub t_outputs: Seq<ProposedTransparentOutput>,
    pub o_outputs: Seq<ProposedOrchardOutput>,
}

/// What is spent over the bill and the fee comes back: to the orchard address if the account has an
/// orchard key, and otherwise to the transparent address. None where the spends do not suffice, or a
/// sum cannot exist.
pub open spec fn settled(
    st: SpendState,
    bill: Bill,
    has_key: bool,
    orchard: [u8; 43],
    pkh: [u8; 20],
) -> Option<Settled> {
    match state_fee(st, bill) {
        None => None,
        Some(fee) => {
            let change = st.total - (bill.target + fee);
            if change < 0 || change > MAX_MONEY {
                None
            } else if change == 0 {
                Some(
                    Settled {
                        t: st.t,
                        s: st.s,
                        t_outputs: bill.t_outputs,
                        o_outputs: bill.o_outputs,
                    },
                )
            } else {
                let zats = Zatoshis { zats: change as u64 };
                if has_key {
                    match paid(st.s, true, zats) {
                        None => None,
                        Some(s) => Some(
                            Settled {
                                t: st.t,
                                s,
                                t_outputs: bill.t_outputs,
                                o_outputs: bill.o_outputs.push(
                                    ProposedOrchardOutput {
                                        with_ovk: true,
                                        dst: orchard,
                                        zats,
                                        memo: no_memo(),
                                    },
                                ),
                            },
                        ),
                    }
                } else {
                    match paid(st.t, true, zats) {
                        None => None,
                        Some(t) => Some(
                            Settled {
                                t,
                                s: st.s,
                                t_outputs: bill.t_outputs.push(
                                    ProposedTransparentOutput {
                                        dst: TransparentAddress::PublicKeyHash(pkh),
                                        zats,
                                    },
                                ),
                                o_outputs: bill.o_outputs,
                            },
                        ),
                    }
                }
            }
        },
    }
}

/// The entry of a transaction after a proposal was tried, and what is needed to build it if the
/// proposal came about.
pub open spec fn proposed(ask: Ask) -> (WalletTx, Option<PrepModel>) {
    match own_addresses(ask.net, ask.account.ufvk) {
        None => (ask.tx, None),
        Some((orchard, pkh)) => {
            let tx1 = WalletTx { account_id: 0, ..ask.tx };
            match (
                source_steps(ask.chain_tip_h.minus(1), ask.pools),
                staking_moves(ask.txs, ask.action),
            ) {
                (Some(src), Some(b)) => if src.transparent && ask.key_addr is None {
                    (tx1, None)
                } else {
                    let action = real_action(ask.action);
                    let out = ask_outputs(ask, orchard);
                    let tx2 = WalletTx {
                        staking_action: if action is Some {
                            action
                        } else {
                            ask.tx.staking_action
                        },
                        memo_count: out.memo_count as usize,
                        memo: out.memo,
                        ..tx1
                    };
                    let st = ask_spends(ask, src, out, b);
                    if !out.ok || st.stage == SpendStage::Failed {
                        (tx2, None)
                    } else {
                        match settled(st, ask_bill(out, b), ask_fvk(ask) is Some, orchard, pkh) {
                            None => (tx2, None),
                            Some(e) => (
                                WalletTx {
                                    part_flags: TxParts::FULL_TX,
                                    parts: [e.t, e.s],
                                    h: BlockHeight(PROPOSED),
                                    status: TxStatus::OnBc,
                                    ..tx2
                                },
                                Some(
                                    PrepModel {
                                        block_h: (ask.chain_tip_h.0 + 1) as u32,
                                        orchard_anchor: src.anchor,
                                        t_inputs: st.t_inputs,
                                        t_outputs: e.t_outputs,
                                        o_inputs: st.o_inputs,
                                        o_outputs: e.o_outputs,
                                        staking_action: action,
                                    },
                                ),
                            ),
                        }
                    }
                },
                _ => (tx1, None),
            }
        },
    }
}

/// Adds the change to a draft whose spends are chosen.
fn settle(
    d: &mut Draft,
    target: u64,
    has_key: bool,
    orchard: &[u8; 43],
    t_addr: &TransparentAddress,
    base: Ghost<nat>,
) -> (ok: bool)
    requires
        target <= 3 * MAX_MONEY,
        t_addr is PublicKeyHash,
        old(d).t.wf(),
        old(d).s.wf(),
        old(d).t.sent_note_count < usize::MAX,
        old(d).t.recv_note_count < usize::MAX,
        old(d).s.sent_note_count < usize::MAX,
        old(d).s.recv_note_count < usize::MAX,
        old(d).adds_up(base@),
        (old(d).prep.t_inputs@.len() + old(d).prep.t_outputs@.len() + old(d).prep.o_inputs@.len()
            + old(d).prep.o_outputs@.len() + 2) * 150 <= usize::MAX,
    ensures
        match settled(
            old(d).spend_state(SpendStage::Looking),
            old(d).bill(target),
            has_key,
            *orchard,
            t_addr->PublicKeyHash_0,
        ) {
            Some(e) => ok && final(d).t == e.t && final(d).s == e.s && final(d).prep@ == (PrepModel {
                t_outputs: e.t_outputs,
                o_outputs: e.o_outputs,
                ..old(d).prep@
            }),
            None => !ok,
        },
{
    let fee = match fee_required(
        d.prep.t_inputs.len(),
        &d.prep.t_outputs,
        d.prep.o_inputs.len(),
        d.prep.o_outputs.len(),
    ) {
        Some(fee) => fee,
        None => {
            return false;
        },
    };
    let min_spend: u64 = target + fee;
    if d.total < min_spend {
        return false;
    }
    if d.total == min_spend {
        return true;
    }
    let change = match Zatoshis::from_u64(d.total - min_spend) {
        Some(z) => z,
        None => {
            return false;
        },
    };
    if has_key {
        match pay(d.s, true, change) {
            Some(s) => {
                d.s = s;
                d.prep.o_outputs.push(
                    ProposedOrchardOutput {
                        with_ovk: true,
                        dst: *orchard,
                        zats: change,
                        memo: blank_memo(),
                    },
                );
                true
            },
            None => false,
        }
    } else {
        match pay(d.t, true, change) {
            Some(t) => {
                d.t = t;
                d.prep.t_outputs.push(
                    ProposedTransparentOutput { dst: *t_addr, zats: change },
                );
                true
            },
            None => false,
        }
    }
}

impl ManualWallet {
    /// What is asked of the wallet.
    pub open spec fn ask<'a>(
        &self,
        net: NetworkType,
        tx: WalletTx,
        outputs: Seq<TxOutput>,
        pools: Seq<TxPool<'a>>,
        action: Option<StakingAction>,
        key_addr: Option<TransparentAddress>,
        order: Seq<usize>,
    ) -> Ask<'a> {
        Ask {
            net,
            chain_tip_h: self.chain_tip_h,
            account: self.accounts@[0]@,
            txs: self.txs@,
            tx,
            outputs,
            pools,
            action,
            key_addr,
            order,
        }
    }

    /// Whether a proposal is small enough to be put together.
    pub open spec fn ask_size_ok(&self, tx: WalletTx, outputs: nat) -> bool {
        &&& self.accounts@.len() > 0
        &&& self.chain_tip_h.0 < u32::MAX
        &&& tx.memo_count + outputs <= usize::MAX
        &&& size_ok(
            self.accounts@[0]@.utxos.len() + self.accounts@[0]@.unspent_orchard_notes.len()
                + outputs,
        )
    }

    /// Proposes a transaction, with the notes of the first account tried in a given order.
    pub fn propose_in_order<'a>(
        &self,
        net: NetworkType,
        tx: &mut ProposedTx,
        outputs: &[TxOutput],
        opts: &TxOptions<'a>,
        key_addr: &Option<TransparentAddress>,
        order: &[usize],
    ) -> (r: Option<()>)
        requires
            self.ask_size_ok(old(tx).tx, outputs@.len()),
            opts.staking_action matches Some(a) ==> a.kind.is_accounted(),
            is_order(order@, self.accounts@[0]@.unspent_orchard_notes.len()),
        ensures
            ({
                let (entry, prep) = proposed(
                    self.ask(
                        net,
                        old(tx).tx,
                        outputs@,
                        opts.src_pools@,
                        opts.staking_action,
                        *key_addr,
                        order@,
                    ),
                );
                &&& final(tx).tx == entry
                &&& final(tx).tx_res == old(tx).tx_res
                &&& final(tx).is_user_faucet == old(tx).is_user_faucet
                &&& match prep {
                    Some(p) => r is Some && (final(tx).prep matches Some(q) && q@ == p),
                    None => r is None && final(tx).prep == old(tx).prep,
                }
            }),
    {
        let account = &self.accounts[0];
        let keys = PreparedKeys::from_ufvk_all(net, account.ufvk.as_str());
        let (t_addr, _, ua) = addrs_from_ufvk(net, account.ufvk.as_str(), 0)?;
        let orchard = ua.orchard?;
        let ghost pkh = t_addr->PublicKeyHash_0;
        assert(own_addresses(net, account.ufvk@) == Some((orchard, pkh)));
        tx.tx.account_id = 0;
        let anchor_h = self.chain_tip_h.sat_sub(1);
        let (has_transparent, anchor) = check_sources(anchor_h, opts.src_pools)?;
        if has_transparent && key_addr.is_none() {
            return None;
        }
        let b = staking_part(&self.txs, &opts.staking_action)?;
        let action = match opts.staking_action {
            Some(a) => if a.kind == StakingActionKind::Null {
                None
            } else {
                Some(a)
            },
            None => None,
        };
        if action.is_some() {
            tx.tx.staking_action = action;
        }
        let mut d = Draft {
            t: WalletTxPart::zero(),
            s: WalletTxPart::zero(),
            total: b.spent_zats.into_u64(),
            prep: BuildPrep {
                block_h: self.chain_tip_h.0 + 1,
                orchard_anchor: anchor,
                t_inputs: Vec::new(),
                t_outputs: Vec::new(),
                o_inputs: Vec::new(),
                o_outputs: Vec::new(),
                staking_action: action,
            },
        };
        let ghost out = ask_outputs(
            self.ask(
                net,
                old(tx).tx,
                outputs@,
                opts.src_pools@,
                opts.staking_action,
                *key_addr,
                order@,
            ),
            orchard,
        );
        let mut memo_count: usize = tx.tx.memo_count;
        let mut memo: [u8; 512] = tx.tx.memo;
        assert(d.prep.t_outputs@ =~= seq![]);
        assert(d.prep.o_outputs@ =~= seq![]);
        let ok = add_outputs(
            &mut d,
            net,
            account.ufvk.as_str(),
            &orchard,
            outputs,
            &mut memo_count,
            &mut memo,
        );
        tx.tx.memo_count = memo_count;
        tx.tx.memo = memo;
        if !ok {
            return None;
        }
        let target: u64 = d.t.sent_zats.into_u64() + d.s.sent_zats.into_u64()
            + b.sent_zats.into_u64();
        let ghost base = b.spent_zats.zats as nat;
        assert(d.prep.t_inputs@ =~= seq![]);
        assert(d.prep.o_inputs@ =~= seq![]);
        let stage = choose_spends(
            &mut d,
            account,
            order,
            &keys.orchard_fvk,
            key_addr,
            anchor_h,
            &anchor,
            opts.src_pools,
            target,
            Ghost(base),
        );
        if stage == SpendStage::Failed {
            return None;
        }
        let has_key = keys.orchard_fvk.is_some();
        if !settle(&mut d, target, has_key, &orchard, &t_addr, Ghost(base)) {
            return None;
        }
        tx.tx.part_flags = TxParts::FULL_TX;
        tx.tx.parts = [d.t, d.s];
        tx.tx.h = BlockHeight(PROPOSED);
        tx.tx.status = TxStatus::OnBc;
        tx.prep = Some(d.prep);
        Some(())
    }
}

/// The pools of a transaction that notes pay for first.
pub open spec fn notes_first<'a>(tree: &'a OrchardShardTree) -> Seq<TxPool<'a>> {
    seq![TxPool::Orchard(tree), TxPool::Transparent]
}

pub open spec fn transparent_only<'a>() -> Seq<TxPool<'a>> {
    seq![TxPool::Transparent]
}

pub open spec fn no_pools<'a>() -> Seq<TxPool<'a>> {
    seq![]
}

/// The outputs of a transaction that pays one note.
pub open spec fn one_note(dst: [u8; 43], zats: u64, memo: [u8; 512]) -> Seq<TxOutput> {
    seq![TxOutput::Orchard { with_ovk: true, dst, zats: Zatoshis { zats }, memo }]
}

pub open spec fn no_outputs() -> Seq<TxOutput> {
    seq![]
}

/// Whether a proposal was tried as asked, with the notes in some order, and came out as it does then.
pub open spec fn tried<'a>(
    w: &ManualWallet,
    net: NetworkType,
    before: ProposedTx,
    after: ProposedTx,
    r: Option<()>,
    outputs: Seq<TxOutput>,
    pools: Seq<TxPool<'a>>,
    action: Option<StakingAction>,
    key_addr: Option<TransparentAddress>,
    order: Seq<usize>,
) -> bool {
    let (entry, prep) = proposed(w.ask(net, before.tx, outputs, pools, action, key_addr, order));
    &&& is_order(order, w.accounts@[0]@.unspent_orchard_notes.len())
    &&& after.tx == entry
    &&& after.tx_res == before.tx_res
    &&& after.is_user_faucet == before.is_user_faucet
    &&& match prep {
        Some(p) => r is Some && (after.prep matches Some(q) && q@ == p),
        None => r is None && after.prep == before.prep,
    }
}

/// Whether a payment of one note was tried, for which notes pay first. Without an orchard key, or for an
/// amount that cannot exist, nothing is tried.
pub open spec fn payment_tried(
    w: &ManualWallet,
    net: NetworkType,
    before: ProposedTx,
    after: ProposedTx,
    r: Option<()>,
    amount: u64,
    dst: [u8; 43],
    memo: [u8; 512],
    tree: &OrchardShardTree,
    key_addr: Option<TransparentAddress>,
) -> bool {
    if w.first_key(net) is None || amount > MAX_MONEY {
        r is None && after == before
    } else {
        exists|order: Seq<usize>|
            #[trigger] tried(
                w,
                net,
                before,
                after,
                r,
                one_note(dst, amount, memo),
                notes_first(tree),
                None,
                key_addr,
                order,
            )
    }
}

/// Whether it was tried to move transparent money to the account's own orchard address.
pub open spec fn shield_tried(
    w: &ManualWallet,
    net: NetworkType,
    before: ProposedTx,
    after: ProposedTx,
    r: Option<()>,
    amount: u64,
    memo: [u8; 512],
    key_addr: Option<TransparentAddress>,
) -> bool {
    match own_addresses(net, w.accounts@[0]@.ufvk) {
        Some((own, _)) if w.first_key(net) is Some && amount <= MAX_MONEY => exists|
            order: Seq<usize>,
        |
            #[trigger] tried(
                w,
                net,
                before,
                after,
                r,
                one_note(own, amount, memo),
                transparent_only(),
                None,
                key_addr,
                order,
            ),
        _ => r is None && after == before,
    }
}

/// What a staking action is to say: what it does, an amount, the bond's key where that is not left to
/// chance, and the finalizer.
pub struct StakeAsk {
    pub kind: StakingActionKind,
    pub amount: u64,
    pub bond_key: Option<[u8; 32]>,
    pub target: Seq<u8>,
}

/// The target of an action that has none.
pub open spec fn no_target() -> Seq<u8> {
    Seq::new(32, |i: int| 0u8)
}

/// Whether a staking action was tried.
pub open spec fn stake_tried<'a>(
    w: &ManualWallet,
    net: NetworkType,
    before: ProposedTx,
    after: ProposedTx,
    r: Option<()>,
    what: StakeAsk,
    pools: Seq<TxPool<'a>>,
    key_addr: Option<TransparentAddress>,
) -> bool {
    exists|order: Seq<usize>, action: StakingAction|
        (what.bond_key matches Some(k) ==> k == action.arg32_0) && action.is_about(
            what.kind,
            what.amount,
            action.arg32_0,
            what.target,
        ) && #[trigger] tried(
            w,
            net,
            before,
            after,
            r,
            no_outputs(),
            pools,
            Some(action),
            key_addr,
            order,
        )
}

/// `random` of `rand`: some 32 bytes.
#[verifier::external_body]
fn random_key() -> (r: [u8; 32])
{
    rand::random()
}

impl ManualWallet {
    /// The orchard key of the first account.
    pub open spec fn first_key(&self, net: NetworkType) -> Option<[u8; 96]> {
        orchard_key_in(net == NetworkType::Main, self.accounts@[0]@.ufvk)
    }

    /// Proposes a transaction. The notes of the first account are tried in an order that chance
    /// decides.
    pub fn send_zats_no_insert<'a>(
        &self,
        net: NetworkType,
        tx: &mut ProposedTx,
        outputs: &[TxOutput],
        opts: &TxOptions<'a>,
        key_addr: &Option<TransparentAddress>,
    ) -> (r: Option<()>)
        requires
            self.ask_size_ok(old(tx).tx, outputs@.len()),
            opts.staking_action matches Some(a) ==> a.kind.is_accounted(),
        ensures
            exists|order: Seq<usize>|
                #[trigger] tried(
                    self,
                    net,
                    *old(tx),
                    *final(tx),
                    r,
                    outputs@,
                    opts.src_pools@,
                    opts.staking_action,
                    *key_addr,
                    order,
                ),
    {
        let order = shuffled(self.accounts[0].unspent_orchard_notes.len());
        let r = self.propose_in_order(net, tx, outputs, opts, key_addr, &order);
        assert(tried(
            self,
            net,
            *old(tx),
            *tx,
            r,
            outputs@,
            opts.src_pools@,
            opts.staking_action,
            *key_addr,
            order@,
        ));
        r
    }

    /// Proposes a transaction.
    pub fn send_zats<'a>(
        &self,
        net: NetworkType,
        tx: &mut ProposedTx,
        outputs: &[TxOutput],
        opts: &TxOptions<'a>,
        key_addr: &Option<TransparentAddress>,
    ) -> (r: Option<()>)
        requires
            self.ask_size_ok(old(tx).tx, outputs@.len()),
            opts.staking_action matches Some(a) ==> a.kind.is_accounted(),
        ensures
            exists|order: Seq<usize>|
                #[trigger] tried(
                    self,
                    net,
                    *old(tx),
                    *final(tx),
                    r,
                    outputs@,
                    opts.src_pools@,
                    opts.staking_action,
                    *key_addr,
                    order,
                ),
    {
        self.send_zats_no_insert(net, tx, outputs, opts, key_addr)
    }

    /// Proposes to move transparent money to the account's orchard address: an amount at least, and
    /// what is over as change.
    pub fn shield_transparent_zats(
        &self,
        net: NetworkType,
        tx: &mut ProposedTx,
        min_zats_to_shield: u64,
        memo: &[u8; 512],
        key_addr: &Option<TransparentAddress>,
    ) -> (r: Option<()>)
        requires
            self.ask_size_ok(old(tx).tx, 1),
        ensures
            shield_tried(
                self,
                net,
                *old(tx),
                *final(tx),
                r,
                min_zats_to_shield,
                *memo,
                *key_addr,
            ),
    {
        let account = &self.accounts[0];
        let keys = PreparedKeys::from_ufvk_all(net, account.ufvk.as_str());
        let (_, _, ua) = addrs_from_ufvk(net, account.ufvk.as_str(), 0)?;
        let dst = ua.orchard?;
        if !keys.finds_sent {
            return None;
        }
        let zats = Zatoshis::from_u64(min_zats_to_shield)?;
        let out = [TxOutput::Orchard { with_ovk: true, dst, zats, memo: *memo }];
        let pools = [TxPool::Transparent];
        let opts = TxOptions { src_pools: &pools, staking_action: None };
        assert(out@ =~= one_note(dst, min_zats_to_shield, *memo));
        assert(opts.src_pools@ =~= transparent_only());
        self.send_zats(net, tx, &out, &opts, key_addr)
    }

    /// Proposes to send an amount to an orchard address, from notes first.
    pub fn send_orchard_to_orchard_zats<'a>(
        &self,
        net: NetworkType,
        tx: &mut ProposedTx,
        exact_amount_to_send: u64,
        orchard_tree: &'a OrchardShardTree,
        dst: &[u8; 43],
        memo: &[u8; 512],
        key_addr: &Option<TransparentAddress>,
    ) -> (r: Option<()>)
        requires
            self.ask_size_ok(old(tx).tx, 1),
        ensures
            payment_tried(
                self,
                net,
                *old(tx),
                *final(tx),
                r,
                exact_amount_to_send,
                *dst,
                *memo,
                orchard_tree,
                *key_addr,
            ),
    {
        let keys = PreparedKeys::from_ufvk_all(net, self.accounts[0].ufvk.as_str());
        if !keys.finds_sent {
            return None;
        }
        let zats = Zatoshis::from_u64(exact_amount_to_send)?;
        let out = [TxOutput::Orchard { with_ovk: true, dst: *dst, zats, memo: *memo }];
        let pools = [TxPool::Orchard(orchard_tree), TxPool::Transparent];
        let opts = TxOptions { src_pools: &pools, staking_action: None };
        assert(out@ =~= one_note(*dst, exact_amount_to_send, *memo));
        assert(opts.src_pools@ =~= notes_first(orchard_tree));
        self.send_zats(net, tx, &out, &opts, key_addr)
    }

    /// Proposes a staking action, for which notes pay first.
    fn propose_action<'a>(
        &self,
        net: NetworkType,
        tx: &mut ProposedTx,
        orchard_tree: &'a OrchardShardTree,
        action: StakingAction,
        key_addr: &Option<TransparentAddress>,
    ) -> (r: Option<()>)
        requires
            self.ask_size_ok(old(tx).tx, 0),
            action.kind.is_accounted(),
        ensures
            exists|order: Seq<usize>|
                #[trigger] tried(
                    self,
                    net,
                    *old(tx),
                    *final(tx),
                    r,
                    no_outputs(),
                    notes_first(orchard_tree),
                    Some(action),
                    *key_addr,
                    order,
                ),
    {
        let out: [TxOutput; 0] = [];
        let pools = [TxPool::Orchard(orchard_tree), TxPool::Transparent];
        let opts = TxOptions { src_pools: &pools, staking_action: Some(action) };
        assert(out@ =~= no_outputs());
        assert(opts.src_pools@ =~= notes_first(orchard_tree));
        self.send_zats(net, tx, &out, &opts, key_addr)
    }

    /// Proposes a new bond with a finalizer, under a key that chance decides.
    pub fn stake_orchard_to_finalizer<'a>(
        &self,
        net: NetworkType,
        tx: &mut ProposedTx,
        exact_amount_to_send: u64,
        orchard_tree: &'a OrchardShardTree,
        target_finalizer: [u8; 32],
        key_addr: &Option<TransparentAddress>,
    ) -> (r: Option<()>)
        requires
            self.ask_size_ok(old(tx).tx, 0),
        ensures
            if self.first_key(net) is None {
                r is None && *final(tx) == *old(tx)
            } else {
                stake_tried(
                    self,
                    net,
                    *old(tx),
                    *final(tx),
                    r,
                    (StakeAsk {
                        kind: StakingActionKind::CreateNewDelegationBond,
                        amount: exact_amount_to_send,
                        bond_key: None,
                        target: target_finalizer@,
                    }),
                    notes_first(orchard_tree),
                    *key_addr,
                )
            },
    {
        let keys = PreparedKeys::from_ufvk_all(net, self.accounts[0].ufvk.as_str());
        if !keys.finds_sent {
            return None;
        }
        let action = StakingAction::create_bond(
            exact_amount_to_send,
            random_key(),
            target_finalizer,
        );
        self.propose_action(net, tx, orchard_tree, action, key_addr)
    }

    /// Proposes to begin the unbonding of a bond.
    pub fn begin_unbonding_using_orchard<'a>(
        &self,
        net: NetworkType,
        tx: &mut ProposedTx,
        orchard_tree: &'a OrchardShardTree,
        bond_key: [u8; 32],
        key_addr: &Option<TransparentAddress>,
    ) -> (r: Option<()>)
        requires
            self.ask_size_ok(old(tx).tx, 0),
        ensures
            stake_tried(
                self,
                net,
                *old(tx),
                *final(tx),
                r,
                (StakeAsk {
                    kind: StakingActionKind::BeginDelegationUnbonding,
                    amount: 0,
                    bond_key: Some(bond_key),
                    target: no_target(),
                }),
                notes_first(orchard_tree),
                *key_addr,
            ),
    {
        let action = StakingAction::begin_unbonding(bond_key);
        self.propose_action(net, tx, orchard_tree, action, key_addr)
    }

    /// Proposes to move a bond to another finalizer.
    pub fn retarget_bond_using_orchard<'a>(
        &self,
        net: NetworkType,
        tx: &mut ProposedTx,
        orchard_tree: &'a OrchardShardTree,
        bond_key: [u8; 32],
        new_target: [u8; 32],
        key_addr: &Option<TransparentAddress>,
    ) -> (r: Option<()>)
        requires
            self.ask_size_ok(old(tx).tx, 0),
        ensures
            stake_tried(
                self,
                net,
                *old(tx),
                *final(tx),
                r,
                (StakeAsk {
                    kind: StakingActionKind::RetargetDelegationBond,
                    amount: 0,
                    bond_key: Some(bond_key),
                    target: new_target@,
                }),
                notes_first(orchard_tree),
                *key_addr,
            ),
    {
        let action = StakingAction::retarget_bond(bond_key, new_target);
        self.propose_action(net, tx, orchard_tree, action, key_addr)
    }

    /// Whether a bond can be claimed at all: the account has an orchard key and its addresses.
    pub fn can_claim(&self, net: NetworkType) -> (r: bool)
        requires
            self.accounts@.len() > 0,
        ensures
            r == (self.first_key(net) is Some && own_addresses(net, self.accounts@[0]@.ufvk) is Some),
    {
        let account = &self.accounts[0];
        let keys = PreparedKeys::from_ufvk_all(net, account.ufvk.as_str());
        match addrs_from_ufvk(net, account.ufvk.as_str(), 0) {
            Some((_, _, ua)) => ua.orchard.is_some() && keys.finds_sent,
            None => false,
        }
    }

    /// Proposes to withdraw a bond, of which the network has said what it is worth. The bond itself
    /// pays, and what it is worth comes as change.
    pub fn claim_bond_using_orchard(
        &mut self,
        net: NetworkType,
        tx: &mut ProposedTx,
        bond_key: [u8; 32],
        amount_zats: u64,
    ) -> (r: Option<()>)
        requires
            old(self).ask_size_ok(old(tx).tx, 0),
            old(self).seen_bond_values.wf(),
        ensures
            final(self).seen_bond_values.wf(),
            ({
                let can = old(self).first_key(net) is Some && own_addresses(
                    net,
                    old(self).accounts@[0]@.ufvk,
                ) is Some;
                &&& !can ==> *final(self) == *old(self)
                &&& can ==> final(self).seen_bond_values@ == old(self).seen_bond_values@.insert(
                    bond_key,
                    amount_zats,
                ) && final(self).accounts == old(self).accounts && final(self).txs == old(self).txs
                    && final(self).tx_h_map == old(self).tx_h_map && final(self).strms == old(
                    self,
                ).strms && final(self).chain_tip_h == old(self).chain_tip_h
                    && final(self).care_about_bonds == old(self).care_about_bonds
                    && final(self).name == old(self).name
                &&& !can || amount_zats > MAX_MONEY ==> r is None && *final(tx) == *old(tx)
                &&& can && amount_zats <= MAX_MONEY ==> stake_tried(
                    final(self),
                    net,
                    *old(tx),
                    *final(tx),
                    r,
                    (StakeAsk {
                        kind: StakingActionKind::WithdrawDelegationBond,
                        amount: amount_zats,
                        bond_key: Some(bond_key),
                        target: no_target(),
                    }),
                    no_pools(),
                    None,
                )
            }),
    {
        if !self.can_claim(net) {
            return None;
        }
        self.seen_bond_values.insert(bond_key, amount_zats);
        if Zatoshis::from_u64(amount_zats).is_none() {
            return None;
        }
        let out: [TxOutput; 0] = [];
        let pools: [TxPool; 0] = [];
        let action = StakingAction::withdraw_bond(amount_zats, bond_key);
        let opts = TxOptions { src_pools: &pools, staking_action: Some(action) };
        assert(out@ =~= no_outputs());
        assert(opts.src_pools@ =~= no_pools());
        self.send_zats(net, tx, &out, &opts, &None)
    }
}

/// What was chosen since is counted in what is spent, and nothing that is sent has changed.
spec fn counted(a: SpendState, b: SpendState) -> bool {
    &&& b.total - b.t.spent_zats.zats - b.s.spent_zats.zats == a.total - a.t.spent_zats.zats
        - a.s.spent_zats.zats
    &&& b.t.sent_zats == a.t.sent_zats
    &&& b.s.sent_zats == a.s.sent_zats
}

proof fn lemma_utxos_counted(
    st: SpendState,
    key_addr: TransparentAddress,
    bill: Bill,
    utxos: Seq<Txo>,
)
    ensures
        counted(st, utxo_steps(st, key_addr, bill, utxos)),
    decreases utxos.len(),
{
    if utxos.len() > 0 {
        lemma_utxos_counted(st, key_addr, bill, utxos.drop_last());
    }
}

proof fn lemma_notes_counted(
    st: SpendState,
    src: NoteSource,
    bill: Bill,
    notes: Seq<OrchardNote>,
    order: Seq<usize>,
)
    ensures
        counted(st, note_steps(st, src, bill, notes, order)),
    decreases order.len(),
{
    if order.len() > 0 {
        lemma_notes_counted(st, src, bill, notes, order.drop_last());
    }
}

proof fn lemma_pools_counted(st: SpendState, f: Funds, bill: Bill, pools: Seq<TxPool>)
    ensures
        counted(st, pool_steps(st, f, bill, pools)),
    decreases pools.len(),
{
    if pools.len() > 0 {
        lemma_pools_counted(st, f, bill, pools.drop_last());
        let before = pool_steps(st, f, bill, pools.drop_last());
        match pools.last() {
            TxPool::Transparent => {
                if let Some(addr) = f.key_addr {
                    lemma_utxos_counted(before, addr, bill, f.account.utxos);
                }
            },
            TxPool::Orchard(tree) => {
                if let (Some(fvk), Some(anchor)) = (f.fvk, f.anchor) {
                    lemma_notes_counted(
                        before,
                        NoteSource { fvk, tree: tree@, anchor_h: f.anchor_h, anchor },
                        bill,
                        f.account.unspent_orchard_notes,
                        f.order,
                    );
                }
            },
        }
    }
}

proof fn lemma_outs_spend_nothing(st: OutState, payer: Payer, outs: Seq<TxOutput>)
    ensures
        out_steps(st, payer, outs).t.spent_zats == st.t.spent_zats,
        out_steps(st, payer, outs).s.spent_zats == st.s.spent_zats,
    decreases outs.len(),
{
    if outs.len() > 0 {
        lemma_outs_spend_nothing(st, payer, outs.drop_last());
    }
}

/// Every proposal balances: what it spends, a withdrawn bond among it, is what it sends, change and a
/// new bond among it, and a fee on top. That fee is the one required for the chosen spends and the
/// outputs that were asked for.
pub proof fn a_proposal_balances(ask: Ask)
    requires
        proposed(ask).1 is Some,
        ask.action matches Some(a) ==> a.kind.is_accounted(),
        ask.tx.staking_action is None || real_action(ask.action) is Some,
    ensures
        ({
            let (tx, prep) = proposed(ask);
            let out = ask_outputs(ask, own_addresses(ask.net, ask.account.ufvk)->Some_0.0);
            let fee = fee_of(
                prep->Some_0.t_inputs.len(),
                out.t_outputs,
                prep->Some_0.o_inputs.len(),
                out.o_outputs.len(),
            );
            &&& fee is Some
            &&& tx.sums(true).spent == tx.sums(true).sent + fee->Some_0
            &&& tx.fee_paid() == Some(Zatoshis { zats: fee->Some_0 })
        }),
{
    let (orchard, pkh) = own_addresses(ask.net, ask.account.ufvk)->Some_0;
    let out = ask_outputs(ask, orchard);
    let b = staking_moves(ask.txs, ask.action)->Some_0;
    let src = source_steps(ask.chain_tip_h.minus(1), ask.pools)->Some_0;
    let st = ask_spends(ask, src, out, b);
    lemma_outs_spend_nothing(
        OutState {
            t: WalletTxPart::nothing(),
            s: WalletTxPart::nothing(),
            t_outputs: seq![],
            o_outputs: seq![],
            memo_count: ask.tx.memo_count as nat,
            memo: ask.tx.memo,
            ok: true,
        },
        Payer { net: ask.net, ufvk: ask.account.ufvk, orchard },
        ask.outputs,
    );
    lemma_pools_counted(
        SpendState {
            t: out.t,
            s: out.s,
            t_inputs: seq![],
            o_inputs: seq![],
            total: b.spent_zats.zats as nat,
            stage: SpendStage::Looking,
        },
        Funds {
            account: ask.account,
            order: ask.order,
            fvk: ask_fvk(ask),
            key_addr: ask.key_addr,
            anchor_h: ask.chain_tip_h.minus(1),
            anchor: src.anchor,
        },
        ask_bill(out, b),
        ask.pools,
    );
    let e = settled(st, ask_bill(out, b), ask_fvk(ask) is Some, orchard, pkh)->Some_0;
    let (tx, prep) = proposed(ask);
    assert(tx.parts@[0] == e.t && tx.parts@[1] == e.s);
    assert(WalletTxPart::of_staking_action(tx.staking_action).spent_zats == b.spent_zats);
    assert(WalletTxPart::of_staking_action(tx.staking_action).sent_zats == b.sent_zats);
    if let Some(a) = ask.action {
        assert(b == WalletTxPart::of_staking_action(ask.action));
    }
}

/// A refused proposal changes neither the height nor the state nor the parts of the entry: it is not
/// in progress unless it was.
pub proof fn a_refused_proposal_is_not_in_progress(ask: Ask)
    requires
        proposed(ask).1 is None,
    ensures
        proposed(ask).0.h == ask.tx.h,
        proposed(ask).0.status == ask.tx.status,
        proposed(ask).0.parts == ask.tx.parts,
{
}

/// Whether some spends are of notes in an order, each of them come by a height, and none twice.
pub open spec fn spends_once(
    spends: Seq<ProposedOrchardSpend>,
    notes: Seq<OrchardNote>,
    order: Seq<usize>,
    anchor_h: u32,
) -> bool {
    &&& forall|i: int|
        0 <= i < spends.len() ==> (#[trigger] spends[i]).note.recv_h.0 <= anchor_h && exists|k: int|
            0 <= k < order.len() && notes[#[trigger] order[k] as int] == spends[i].note
    &&& forall|i: int, j: int|
        0 <= i < j < spends.len() ==> (#[trigger] spends[i]).note.nf != (#[trigger] spends[j]).note.nf
}

/// Whether some inputs are of outputs that a list holds, all with an address, and none twice.
pub open spec fn takes_once(inputs: Seq<Txo>, utxos: Seq<Txo>, key_addr: TransparentAddress) -> bool {
    &&& forall|i: int|
        0 <= i < inputs.len() ==> utxos.contains(#[trigger] inputs[i]) && inputs[i].t_addr == key_addr
    &&& forall|i: int, j: int|
        0 <= i < j < inputs.len() ==> (#[trigger] inputs[i]).id != (#[trigger] inputs[j]).id
}

/// Whether no two notes have one nullifier.
pub open spec fn notes_differ(notes: Seq<OrchardNote>) -> bool {
    forall|i: int, j: int|
        0 <= i < j < notes.len() ==> (#[trigger] notes[i]).nf != (#[trigger] notes[j]).nf
}

/// Whether no two outputs are one.
pub open spec fn txos_differ(utxos: Seq<Txo>) -> bool {
    forall|i: int, j: int|
        0 <= i < j < utxos.len() ==> (#[trigger] utxos[i]).id != (#[trigger] utxos[j]).id
}

proof fn lemma_notes_once(
    st: SpendState,
    src: NoteSource,
    bill: Bill,
    notes: Seq<OrchardNote>,
    order: Seq<usize>,
)
    requires
        st.o_inputs.len() == 0,
        notes_differ(notes),
        order.no_duplicates(),
        forall|i: int| 0 <= i < order.len() ==> (#[trigger] order[i]) < notes.len(),
    ensures
        spends_once(note_steps(st, src, bill, notes, order).o_inputs, notes, order, src.anchor_h.0),
        note_steps(st, src, bill, notes, order).t_inputs == st.t_inputs,
    decreases order.len(),
{
    if order.len() > 0 {
        let before = order.drop_last();
        assert forall|i: int, j: int| 0 <= i < before.len() && 0 <= j < before.len() && i
            != j implies before[i] != before[j] by {
            assert(order[i] != order[j]);
        }
        assert forall|i: int| 0 <= i < before.len() implies (#[trigger] before[i]) < notes.len() by {
            assert(before[i] == order[i]);
        }
        lemma_notes_once(st, src, bill, notes, before);
        let a = note_steps(st, src, bill, notes, before).o_inputs;
        let b = note_steps(st, src, bill, notes, order).o_inputs;
        let last = order.last() as int;
        assert(order[order.len() - 1] < notes.len());
        assert forall|i: int| 0 <= i < a.len() implies (#[trigger] a[i]).note.nf != notes[last].nf
            && exists|k: int| 0 <= k < order.len() && notes[#[trigger] order[k] as int] == a[i].note by {
            let k = choose|k: int|
                0 <= k < before.len() && notes[#[trigger] before[k] as int] == a[i].note;
            assert(order[k] == before[k]);
            assert(order[k] != order[order.len() - 1]);
            let m = order[k] as int;
            if m < last {
                assert(notes[m].nf != notes[last].nf);
            } else {
                assert(notes[last].nf != notes[m].nf);
            }
        }
        assert(b == a || (b.len() == a.len() + 1 && b.drop_last() =~= a && b.last().note
            == notes[last] && notes[last].recv_h.0 <= src.anchor_h.0));
        assert forall|i: int| 0 <= i < b.len() implies (#[trigger] b[i]).note.recv_h.0
            <= src.anchor_h.0 && exists|k: int|
            0 <= k < order.len() && notes[#[trigger] order[k] as int] == b[i].note by {
            if i < a.len() {
                assert(b[i] == a[i]);
            } else {
                assert(notes[order[order.len() - 1] as int] == b[i].note);
            }
        }
        assert forall|i: int, j: int| 0 <= i < j < b.len() implies (#[trigger] b[i]).note.nf != (
        #[trigger] b[j]).note.nf by {
            assert(b[i] == a[i]);
            if j < a.len() {
                assert(b[j] == a[j]);
            }
        }
    }
}

proof fn lemma_utxos_once(
    st: SpendState,
    key_addr: TransparentAddress,
    bill: Bill,
    utxos: Seq<Txo>,
)
    requires
        st.t_inputs.len() == 0,
        txos_differ(utxos),
    ensures
        takes_once(utxo_steps(st, key_addr, bill, utxos).t_inputs, utxos, key_addr),
        utxo_steps(st, key_addr, bill, utxos).o_inputs == st.o_inputs,
    decreases utxos.len(),
{
    if utxos.len() > 0 {
        let before = utxos.drop_last();
        assert forall|i: int, j: int| 0 <= i < j < before.len() implies (#[trigger] before[i]).id != (
        #[trigger] before[j]).id by {
            assert(utxos[i].id != utxos[j].id);
        }
        lemma_utxos_once(st, key_addr, bill, before);
        let a = utxo_steps(st, key_addr, bill, before).t_inputs;
        let b = utxo_steps(st, key_addr, bill, utxos).t_inputs;
        assert forall|i: int| 0 <= i < a.len() implies utxos.contains(#[trigger] a[i]) && a[i].id
            != utxos.last().id by {
            let k = choose|k: int| 0 <= k < before.len() && before[k] == a[i];
            assert(utxos[k] == a[i]);
            assert(utxos[k].id != utxos[utxos.len() - 1].id);
        }
        assert(b == a || (b.len() == a.len() + 1 && b.drop_last() =~= a && b.last() == utxos.last()
            && utxos.last().t_addr == key_addr));
        assert forall|i: int| 0 <= i < b.len() implies utxos.contains(#[trigger] b[i]) && b[i].t_addr
            == key_addr by {
            if i < a.len() {
                assert(b[i] == a[i]);
            } else {
                assert(utxos[utxos.len() - 1] == b[i]);
            }
        }
        assert forall|i: int, j: int| 0 <= i < j < b.len() implies (#[trigger] b[i]).id != (
        #[trigger] b[j]).id by {
            assert(b[i] == a[i]);
            if j < a.len() {
                assert(b[j] == a[j]);
            }
        }
    }
}

proof fn lemma_pools_once(st: SpendState, f: Funds, bill: Bill, pools: Seq<TxPool>, n: nat)
    requires
        st.o_inputs.len() == 0,
        st.t_inputs.len() == 0,
        source_steps(f.anchor_h, pools) is Some,
        notes_differ(f.account.unspent_orchard_notes),
        txos_differ(f.account.utxos),
        n == f.account.unspent_orchard_notes.len(),
        is_order(f.order, n),
    ensures
        ({
            let src = source_steps(f.anchor_h, pools)->Some_0;
            let end = pool_steps(st, f, bill, pools);
            &&& !src.orchard ==> end.o_inputs.len() == 0
            &&& !src.transparent || f.key_addr is None ==> end.t_inputs.len() == 0
            &&& spends_once(
                end.o_inputs,
                f.account.unspent_orchard_notes,
                f.order,
                f.anchor_h.0,
            )
            &&& f.key_addr matches Some(addr) ==> takes_once(
                end.t_inputs,
                f.account.utxos,
                addr,
            )
        }),
    decreases pools.len(),
{
    if pools.len() > 0 {
        lemma_pools_once(st, f, bill, pools.drop_last(), n);
        let before = pool_steps(st, f, bill, pools.drop_last());
        match pools.last() {
            TxPool::Transparent => {
                if let Some(addr) = f.key_addr {
                    lemma_utxos_once(before, addr, bill, f.account.utxos);
                }
            },
            TxPool::Orchard(tree) => {
                if let (Some(fvk), Some(anchor)) = (f.fvk, f.anchor) {
                    lemma_notes_once(
                        before,
                        NoteSource { fvk, tree: tree@, anchor_h: f.anchor_h, anchor },
                        bill,
                        f.account.unspent_orchard_notes,
                        f.order,
                    );
                }
            },
        }
    }
}

/// A proposal spends nothing twice: its notes are notes of the account that had come by the anchor's
/// height, its inputs are outputs of the account to the key's address, and each occurs once.
pub proof fn a_proposal_spends_nothing_twice(ask: Ask)
    requires
        proposed(ask).1 is Some,
        is_order(ask.order, ask.account.unspent_orchard_notes.len()),
        notes_differ(ask.account.unspent_orchard_notes),
        txos_differ(ask.account.utxos),
    ensures
        ({
            let prep = proposed(ask).1->Some_0;
            &&& spends_once(
                prep.o_inputs,
                ask.account.unspent_orchard_notes,
                ask.order,
                ask.chain_tip_h.minus(1).0,
            )
            &&& match ask.key_addr {
                Some(addr) => takes_once(prep.t_inputs, ask.account.utxos, addr),
                None => prep.t_inputs.len() == 0,
            }
        }),
{
    let (orchard, _) = own_addresses(ask.net, ask.account.ufvk)->Some_0;
    let out = ask_outputs(ask, orchard);
    let b = staking_moves(ask.txs, ask.action)->Some_0;
    let src = source_steps(ask.chain_tip_h.minus(1), ask.pools)->Some_0;
    lemma_pools_once(
        SpendState {
            t: out.t,
            s: out.s,
            t_inputs: seq![],
            o_inputs: seq![],
            total: b.spent_zats.zats as nat,
            stage: SpendStage::Looking,
        },
        Funds {
            account: ask.account,
            order: ask.order,
            fvk: ask_fvk(ask),
            key_addr: ask.key_addr,
            anchor_h: ask.chain_tip_h.minus(1),
            anchor: src.anchor,
        },
        ask_bill(out, b),
        ask.pools,
        ask.account.unspent_orchard_notes.len(),
    );
}

} // verus!
