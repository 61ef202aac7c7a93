//! Taking up what the wallet is asked to do, and showing how it stands.
use crate::accounts::ManualWallet;
use crate::addresses::first_address;
use crate::bonds::{
    bond_keys, bonds_to_watch, capped_u64, holdings, stake_positions, value_positions, valued_all,
    worth,
};
use crate::funds::{account_funds, funds_of};
use crate::height::{BlockHeight, PROPOSED};
use crate::network::NetworkType;
use crate::notes::TransparentAddress;
use crate::propose::{
    no_pools, no_target, notes_first, own_addresses, payment_tried, shield_tried, stake_tried,
    ProposedTx, StakeAsk,
};
use crate::proposals::a_payment_pays_what_was_asked;
use crate::queue::{FaucetQ, FAUCET_VALUE};
use crate::staking::StakingActionKind;
use crate::state::{ActionModel, WalletAction, WalletState};
use crate::submit::{faucet_view, push_if_proposed_tx, user_view_of_faucet_tx};
use crate::tree::OrchardShardTree;
use crate::wallet_tx::WalletTx;
use crate::zats::MAX_MONEY;
use vstd::prelude::*;
use vstd::utf8::encode_utf8;

verus! {

/// How much is shielded at least when the miner's transparent money is moved.
pub const SHIELD_VALUE: u64 = 1_000_000_000;

/// The transactions that the wallets have on their way.
#[derive(Debug)]
pub struct Proposals {
    pub faucet: ProposedTx,
    pub miner_shield: ProposedTx,
    pub stake: ProposedTx,
    pub send: ProposedTx,
}

impl Proposals {
    pub fn new() -> (r: Proposals)
        ensures
            r.faucet.tx.is_empty() && r.faucet.prep is None && !r.faucet.is_user_faucet,
            r.miner_shield.tx.is_empty() && r.miner_shield.prep is None,
            r.stake.tx.is_empty() && r.stake.prep is None,
            r.send.tx.is_empty() && r.send.prep is None,
    {
        Proposals {
            faucet: ProposedTx::empty(),
            miner_shield: ProposedTx::empty(),
            stake: ProposedTx::empty(),
            send: ProposedTx::empty(),
        }
    }
}

/// A text as a memo: its bytes, then zeros.
pub open spec fn is_memo_of(m: [u8; 512], text: Seq<char>) -> bool {
    m@ == Seq::new(
        512,
        |i: int|
            if i < encode_utf8(text).len() {
                encode_utf8(text)[i]
            } else {
                0u8
            },
    )
}

/// A text as a memo, if it is short enough.
pub fn memo_from_text(text: &str) -> (r: Option<[u8; 512]>)
    ensures
        match r {
            Some(m) => encode_utf8(text@).len() <= 512 && is_memo_of(m, text@),
            None => encode_utf8(text@).len() > 512,
        },
{
    let b = text.as_bytes();
    if b.len() > 512 {
        return None;
    }
    let mut m = [0u8; 512];
    let mut i: usize = 0;
    while i < b.len()
        invariant
            i <= b@.len() <= 512,
            forall|k: int| 0 <= k < 512 ==> #[trigger] m@[k] == if k < i {
                b@[k]
            } else {
                0u8
            },
        decreases b@.len() - i,
    {
        m[i] = b[i];
        i += 1;
    }
    assert(m@ =~= Seq::new(
        512,
        |i: int|
            if i < b@.len() {
                b@[i]
            } else {
                0u8
            },
    ));
    Some(m)
}

/// What the faucet writes to the one it pays.
pub open spec fn faucet_words() -> Seq<char> {
    "With love from your favourite faucet... Don't spend it all at once!"@
}

/// What the wallet writes to the one it pays.
pub open spec fn send_words() -> Seq<char> {
    "send from user wallet"@
}

/// After how many seconds the miner's transparent money is moved again.
pub const SHIELD_COOLDOWN_SECS: u64 = 15;

/// Whether the miner's transparent money is to be moved now, so many whole seconds after it was last
/// tried: not while a transaction is on its way, and not before the cooldown is over.
pub fn shield_is_due(seconds: Option<u64>, in_progress: bool) -> (r: bool)
    ensures
        r == (!in_progress && (seconds matches Some(s) ==> s > SHIELD_COOLDOWN_SECS)),
{
    match seconds {
        Some(s) => s > SHIELD_COOLDOWN_SECS && !in_progress,
        None => !in_progress,
    }
}

/// What the miner writes to itself.
pub open spec fn shield_words() -> Seq<char> {
    "shielding notes"@
}

/// The memo that holds a text.
pub open spec fn memo_of(text: Seq<char>) -> [u8; 512] {
    choose|m: [u8; 512]| is_memo_of(m, text)
}

proof fn lemma_memo(m: [u8; 512], text: Seq<char>)
    requires
        is_memo_of(m, text),
    ensures
        m == memo_of(text),
{
    let n = memo_of(text);
    assert(is_memo_of(n, text));
    assert(m =~= n);
}

/// A character takes at most four bytes.
proof fn lemma_short_text(text: Seq<char>)
    ensures
        encode_utf8(text).len() <= 4 * text.len(),
    decreases text.len(),
{
    if text.len() > 0 {
        lemma_short_text(text.drop_first());
    }
}

/// The memo of a text that is short enough.
fn short_memo(text: &str) -> (r: [u8; 512])
    requires
        text@.len() <= 128,
    ensures
        r == memo_of(text@),
{
    proof {
        lemma_short_text(text@);
    }
    let m = memo_from_text(text).unwrap();
    proof {
        lemma_memo(m, text@);
    }
    m
}

/// The answer of an attempt.
pub open spec fn outcome(ok: bool) -> Option<()> {
    if ok {
        Some(())
    } else {
        None
    }
}

/// The faucet's transaction after a payment was tried.
pub open spec fn faucet_tried(
    w: &ManualWallet,
    net: NetworkType,
    before: ProposedTx,
    after: ProposedTx,
    r: Option<()>,
    dst: [u8; 43],
    for_user: bool,
    tree: &OrchardShardTree,
    key_addr: Option<TransparentAddress>,
) -> bool {
    &&& after.is_user_faucet == for_user
    &&& payment_tried(
        w,
        net,
        before,
        (ProposedTx { is_user_faucet: before.is_user_faucet, ..after }),
        r,
        FAUCET_VALUE,
        dst,
        memo_of(faucet_words()),
        tree,
        key_addr,
    )
}

/// Tries to pay out of the faucet.
fn pay_from_faucet(
    miner: &ManualWallet,
    net: NetworkType,
    tx: &mut ProposedTx,
    dst: &[u8; 43],
    for_user: bool,
    tree: &OrchardShardTree,
    key_addr: &Option<TransparentAddress>,
) -> (r: Option<()>)
    requires
        miner.ask_size_ok(old(tx).tx, 1),
    ensures
        faucet_tried(miner, net, *old(tx), *final(tx), r, *dst, for_user, tree, *key_addr),
{
    proof {
        reveal_strlit("With love from your favourite faucet... Don't spend it all at once!");
    }
    let memo = short_memo("With love from your favourite faucet... Don't spend it all at once!");
    let ghost before = *tx;
    let r = miner.send_orchard_to_orchard_zats(net, tx, FAUCET_VALUE, tree, dst, &memo, key_addr);
    let ghost after = *tx;
    tx.is_user_faucet = for_user;
    assert(after == (ProposedTx { is_user_faucet: before.is_user_faucet, ..*tx }));
    r
}

/// How an action went: whether it was carried out, and whether a transaction was begun.
#[derive(Clone, Copy, Debug, PartialEq, Eq, Structural)]
pub struct Performed {
    pub ok: bool,
    pub started: bool,
}

/// The wallets' keys and addresses, as far as actions need them.
pub struct Actors {
    pub net: NetworkType,
    /// The user's orchard address.
    pub user_orchard: [u8; 43],
    /// The transparent addresses of the keys.
    pub miner_key: Option<TransparentAddress>,
    pub user_key: Option<TransparentAddress>,
}

/// Whether an action left a transaction of the user's stakes, and nothing else, behind.
pub open spec fn stake_performed(
    w: &ManualWallet,
    who: Actors,
    before: Proposals,
    after: Proposals,
    res: Performed,
    what: StakeAsk,
    tree: &OrchardShardTree,
) -> bool {
    &&& after == (Proposals { stake: after.stake, ..before })
    &&& res.ok == res.started
    &&& stake_tried(
        w,
        who.net,
        before.stake,
        after.stake,
        outcome(res.ok),
        what,
        notes_first(tree),
        who.user_key,
    )
}

fn done(r: Option<()>) -> (p: Performed)
    ensures
        p.ok == p.started,
        outcome(p.ok) == r,
{
    assert(outcome(r is Some) == r);
    Performed { ok: r.is_some(), started: r.is_some() }
}

/// Carries out an action: tries to begin the transaction that it asks for. The faucet pays from the
/// miner's wallet, everything else is the user's. A bond is claimed if the network said what it is
/// worth.
pub fn perform_action(
    action: &WalletAction,
    who: &Actors,
    miner: &ManualWallet,
    user: &mut ManualWallet,
    p: &mut Proposals,
    tree: &OrchardShardTree,
    bond_worth: Option<u64>,
) -> (res: Performed)
    requires
        miner.ask_size_ok(old(p).faucet.tx, 1),
        old(user).ask_size_ok(old(p).stake.tx, 0),
        old(user).ask_size_ok(old(p).send.tx, 1),
        old(user).seen_bond_values.wf(),
    ensures
        final(user).seen_bond_values.wf(),
        !(action is ClaimBond) ==> *final(user) == *old(user),
        match action@ {
            ActionModel::RequestFromFaucet => {
                &&& res.ok
                &&& *final(p) == (Proposals { faucet: final(p).faucet, ..*old(p) })
                &&& faucet_tried(
                    miner,
                    who.net,
                    old(p).faucet,
                    final(p).faucet,
                    outcome(res.started),
                    who.user_orchard,
                    true,
                    tree,
                    who.miner_key,
                )
            },
            ActionModel::TestStakeAction => res.ok && !res.started && *final(p) == *old(p),
            ActionModel::StakeToFinalizer(amount, target) => if old(user).first_key(who.net) is None {
                !res.ok && !res.started && *final(p) == *old(p)
            } else {
                stake_performed(
                    old(user),
                    *who,
                    *old(p),
                    *final(p),
                    res,
                    (StakeAsk {
                        kind: StakingActionKind::CreateNewDelegationBond,
                        amount: amount.zats,
                        bond_key: None,
                        target: target@,
                    }),
                    tree,
                )
            },
            ActionModel::UnstakeFromFinalizer(key) => stake_performed(
                old(user),
                *who,
                *old(p),
                *final(p),
                res,
                (StakeAsk {
                    kind: StakingActionKind::BeginDelegationUnbonding,
                    amount: 0,
                    bond_key: Some(key),
                    target: no_target(),
                }),
                tree,
            ),
            ActionModel::RetargetBond(key, target) => stake_performed(
                old(user),
                *who,
                *old(p),
                *final(p),
                res,
                (StakeAsk {
                    kind: StakingActionKind::RetargetDelegationBond,
                    amount: 0,
                    bond_key: Some(key),
                    target: target@,
                }),
                tree,
            ),
            ActionModel::ClaimBond(key) => {
                let can = old(user).first_key(who.net) is Some && own_addresses(
                    who.net,
                    old(user).accounts@[0]@.ufvk,
                ) is Some;
                &&& *final(p) == (Proposals { stake: final(p).stake, ..*old(p) })
                &&& res.ok == res.started
                &&& match bond_worth {
                    Some(worth) if can => {
                        &&& *final(user) == (ManualWallet {
                            seen_bond_values: final(user).seen_bond_values,
                            ..*old(user)
                        })
                        &&& final(user).seen_bond_values@ == old(user).seen_bond_values@.insert(
                            key,
                            worth,
                        )
                        &&& if worth > MAX_MONEY {
                            !res.ok && *final(p) == *old(p)
                        } else {
                            stake_tried(
                                final(user),
                                who.net,
                                old(p).stake,
                                final(p).stake,
                                outcome(res.ok),
                                (StakeAsk {
                                    kind: StakingActionKind::WithdrawDelegationBond,
                                    amount: worth,
                                    bond_key: Some(key),
                                    target: no_target(),
                                }),
                                no_pools(),
                                None,
                            )
                        }
                    },
                    _ => !res.ok && *final(p) == *old(p) && *final(user) == *old(user),
                }
            },
            ActionModel::SendToAddress(to, amount) => match to.1 {
                Some(dst) => {
                    &&& res.ok
                    &&& *final(p) == (Proposals { send: final(p).send, ..*old(p) })
                    &&& payment_tried(
                        old(user),
                        who.net,
                        old(p).send,
                        final(p).send,
                        outcome(res.started),
                        amount.zats,
                        dst,
                        memo_of(send_words()),
                        tree,
                        who.user_key,
                    )
                },
                None => !res.ok && !res.started && *final(p) == *old(p),
            },
        },
{
    match action {
        WalletAction::RequestFromFaucet => {
            let r = pay_from_faucet(
                miner,
                who.net,
                &mut p.faucet,
                &who.user_orchard,
                true,
                tree,
                &who.miner_key,
            );
            assert(r == outcome(r is Some));
            Performed { ok: true, started: r.is_some() }
        },
        WalletAction::TestStakeAction => Performed { ok: true, started: false },
        WalletAction::StakeToFinalizer(amount, target) => done(
            user.stake_orchard_to_finalizer(
                who.net,
                &mut p.stake,
                amount.zats,
                tree,
                *target,
                &who.user_key,
            ),
        ),
        WalletAction::UnstakeFromFinalizer(key) => done(
            user.begin_unbonding_using_orchard(who.net, &mut p.stake, tree, *key, &who.user_key),
        ),
        WalletAction::RetargetBond(key, target) => done(
            user.retarget_bond_using_orchard(
                who.net,
                &mut p.stake,
                tree,
                *key,
                *target,
                &who.user_key,
            ),
        ),
        WalletAction::ClaimBond(key) => match bond_worth {
            Some(worth) => done(
                user.claim_bond_using_orchard(who.net, &mut p.stake, *key, worth),
            ),
            None => Performed { ok: false, started: false },
        },
        WalletAction::SendToAddress(to, amount) => match &to.orchard {
            Some(dst) => {
                proof {
                    reveal_strlit("send from user wallet");
                }
                let memo = short_memo("send from user wallet");
                let r = user.send_orchard_to_orchard_zats(
                    who.net,
                    &mut p.send,
                    amount.zats,
                    tree,
                    dst,
                    &memo,
                    &who.user_key,
                );
                assert(r == outcome(r is Some));
                Performed { ok: true, started: r.is_some() }
            },
            None => Performed { ok: false, started: false },
        },
    }
}

/// Serves the first one who waits for the faucet, if the faucet is free. Whether a transaction was
/// begun. The one who was served does not wait any more, even if there was no money.
pub fn serve_faucet(
    who: &Actors,
    miner: &ManualWallet,
    p: &mut Proposals,
    q: &mut FaucetQ,
    tree: &OrchardShardTree,
) -> (started: bool)
    requires
        old(q).wf(),
        miner.ask_size_ok(old(p).faucet.tx, 1),
    ensures
        final(q).wf(),
        if old(p).faucet.in_progress() || old(q).items().len() == 0 {
            !started && *final(p) == *old(p) && final(q).items() == old(q).items()
        } else {
            &&& final(q).items() == old(q).items().skip(1)
            &&& *final(p) == (Proposals { faucet: final(p).faucet, ..*old(p) })
            &&& faucet_tried(
                miner,
                who.net,
                old(p).faucet,
                final(p).faucet,
                outcome(started),
                old(q).items()[0],
                false,
                tree,
                who.miner_key,
            )
        },
{
    if p.faucet.is_in_progress() {
        return false;
    }
    match q.pop() {
        Some(dst) => {
            let r = pay_from_faucet(
                miner,
                who.net,
                &mut p.faucet,
                &dst,
                false,
                tree,
                &who.miner_key,
            );
            assert(r == outcome(r is Some));
            r.is_some()
        },
        None => false,
    }
}

/// A transaction as it is shown while it is proposed.
pub open spec fn shown(tx: WalletTx) -> Seq<WalletTx> {
    if tx.h.0 == PROPOSED && tx.status is OnBc {
        seq![tx]
    } else {
        seq![]
    }
}

/// What the user sees of the transactions that are proposed: its own, and what it asked of the faucet.
pub open spec fn shown_to_user(p: Proposals) -> Seq<WalletTx> {
    shown(p.send.tx) + shown(p.stake.tx) + if p.faucet.is_user_faucet {
        shown(faucet_view(p.faucet.tx))
    } else {
        seq![]
    }
}

/// What the miner sees of the transactions that are proposed.
pub open spec fn shown_to_miner(p: Proposals) -> Seq<WalletTx> {
    shown(p.faucet.tx) + shown(p.miner_shield.tx)
}

fn show(list: &mut Vec<WalletTx>, proposed: &ProposedTx) -> (r: bool)
    ensures
        final(list)@ == old(list)@ + shown(proposed.tx),
        r == (shown(proposed.tx).len() > 0),
{
    let r = push_if_proposed_tx(list, proposed, BlockHeight(PROPOSED));
    assert(list@ =~= old(list)@ + shown(proposed.tx));
    r
}

fn copied_txs(txs: &Vec<WalletTx>) -> (r: Vec<WalletTx>)
    ensures
        r@ == txs@,
{
    let mut r: Vec<WalletTx> = Vec::new();
    let mut i: usize = 0;
    while i < txs.len()
        invariant
            i <= txs@.len(),
            r@ == txs@.take(i as int),
        decreases txs@.len() - i,
    {
        r.push(txs[i]);
        i += 1;
        assert(txs@.take(i as int) =~= txs@.take(i - 1).push(txs@[i - 1]));
    }
    assert(txs@.take(i as int) =~= txs@);
    r
}

/// Shows how the wallets stand: their money, their transactions and bonds, and how far they have come.
/// The bonds that the user holds are watched from here on.
pub fn publish(
    state: &mut WalletState,
    miner: &ManualWallet,
    user: &mut ManualWallet,
    p: &Proposals,
    sync_h: BlockHeight,
)
    requires
        miner.accounts@.len() > 0,
        old(user).accounts@.len() > 0,
        old(user).seen_bond_values.wf(),
    ensures
        ({
            let m = funds_of(miner.accounts@[0]@, miner.chain_tip_h);
            let u = funds_of(old(user).accounts@[0]@, old(user).chain_tip_h);
            let seen = old(user).seen_bond_values@;
            let bonded = valued_all(holdings(old(user).txs@).bonded, seen);
            let unbonded = valued_all(holdings(old(user).txs@).unbonded, seen);
            &&& final(user).care_about_bonds@ == bond_keys(bonded) + bond_keys(unbonded)
            &&& *final(user) == (ManualWallet {
                care_about_bonds: final(user).care_about_bonds,
                ..*old(user)
            })
            &&& final(state).stake_positions_bonded@ == bonded
            &&& final(state).stake_positions_unbonded@ == unbonded
            &&& final(state).user_local_txs@ == shown_to_user(*p)
            &&& final(state).miner_local_txs@ == shown_to_miner(*p)
            &&& final(state).user_txs@ == old(user).txs@
            &&& final(state).miner_txs@ == miner.txs@
            &&& *final(state) == (WalletState {
                miner_seen_h: miner.chain_tip_h.0,
                miner_unshielded_funds: m.unshielded,
                miner_shielded_pending_funds: m.shielded_pending,
                miner_shielded_spendable_funds: m.shielded_spendable,
                user_unshielded_funds: u.unshielded,
                user_shielded_pending_funds: u.shielded_pending,
                user_shielded_spendable_funds: u.shielded_spendable,
                staked_balance: capped_u64(worth(bonded)),
                withdrawable_balance: capped_u64(worth(unbonded)),
                waiting_for_faucet: shown(p.faucet.tx).len() > 0,
                waiting_for_stake_to_finalizer: shown(p.stake.tx).len() > 0,
                waiting_for_send: shown(p.send.tx).len() > 0,
                wallets_sync_h: sync_h.0 as u64,
                wallets_tip_h: old(user).chain_tip_h.0 as u64,
                user_local_txs: final(state).user_local_txs,
                miner_local_txs: final(state).miner_local_txs,
                user_txs: final(state).user_txs,
                miner_txs: final(state).miner_txs,
                stake_positions_bonded: final(state).stake_positions_bonded,
                stake_positions_unbonded: final(state).stake_positions_unbonded,
                ..*old(state)
            })
        }),
{
    let m = account_funds(&miner.accounts[0], miner.chain_tip_h);
    let u = account_funds(&user.accounts[0], user.chain_tip_h);
    let (mut bonded, mut unbonded) = stake_positions(&user.txs);
    let staked = value_positions(&mut bonded, &user.seen_bond_values);
    let withdrawable = value_positions(&mut unbonded, &user.seen_bond_values);
    user.care_about_bonds = bonds_to_watch(&bonded, &unbonded);
    let mut user_local: Vec<WalletTx> = Vec::new();
    let mut miner_local: Vec<WalletTx> = Vec::new();
    state.waiting_for_send = show(&mut user_local, &p.send);
    state.waiting_for_stake_to_finalizer = show(&mut user_local, &p.stake);
    state.waiting_for_faucet = show(&mut miner_local, &p.faucet);
    let _ = show(&mut miner_local, &p.miner_shield);
    if p.faucet.is_user_faucet {
        let view = ProposedTx {
            tx: user_view_of_faucet_tx(&p.faucet.tx),
            prep: None,
            tx_res: None,
            is_user_faucet: false,
        };
        let _ = show(&mut user_local, &view);
    }
    assert(user_local@ =~= shown_to_user(*p));
    assert(miner_local@ =~= shown_to_miner(*p));
    state.user_local_txs = user_local;
    state.miner_local_txs = miner_local;
    state.user_txs = copied_txs(&user.txs);
    state.miner_txs = copied_txs(&miner.txs);
    state.miner_unshielded_funds = m.unshielded;
    state.miner_shielded_pending_funds = m.shielded_pending;
    state.miner_shielded_spendable_funds = m.shielded_spendable;
    state.miner_seen_h = miner.chain_tip_h.0;
    state.user_unshielded_funds = u.unshielded;
    state.user_shielded_pending_funds = u.shielded_pending;
    state.user_shielded_spendable_funds = u.shielded_spendable;
    state.stake_positions_bonded = bonded;
    state.stake_positions_unbonded = unbonded;
    state.wallets_sync_h = sync_h.0 as u64;
    state.wallets_tip_h = user.chain_tip_h.0 as u64;
    state.staked_balance = staked;
    state.withdrawable_balance = withdrawable;
}

/// Tries to shield the miner's transparent money, unless that is on its way already.
pub fn shield_mined(
    who: &Actors,
    miner: &ManualWallet,
    p: &mut Proposals,
) -> (r: Option<()>)
    requires
        miner.ask_size_ok(old(p).miner_shield.tx, 1),
    ensures
        *final(p) == (Proposals { miner_shield: final(p).miner_shield, ..*old(p) }),
        if old(p).miner_shield.in_progress() {
            r is None && *final(p) == *old(p)
        } else {
            shield_tried(
                miner,
                who.net,
                old(p).miner_shield,
                final(p).miner_shield,
                r,
                SHIELD_VALUE,
                memo_of(shield_words()),
                who.miner_key,
            )
        },
{
    if p.miner_shield.is_in_progress() {
        return None;
    }
    proof {
        reveal_strlit("shielding notes");
    }
    let memo = short_memo("shielding notes");
    miner.shield_transparent_zats(
        who.net,
        &mut p.miner_shield,
        SHIELD_VALUE,
        &memo,
        &who.miner_key,
    )
}

/// A payment of the faucet that comes about pays who asked, fifty million zatoshis and no more, with the
/// faucet's words, and nobody else but the miner itself. The user for whom it is sees one note of that
/// amount come in, and nothing spent.
pub proof fn the_faucet_pays_who_asked(
    w: &ManualWallet,
    net: NetworkType,
    before: ProposedTx,
    after: ProposedTx,
    r: Option<()>,
    dst: [u8; 43],
    for_user: bool,
    tree: &OrchardShardTree,
    key_addr: Option<TransparentAddress>,
)
    requires
        faucet_tried(w, net, before, after, r, dst, for_user, tree, key_addr),
        r is Some,
    ensures
        ({
            let own = first_address(net == NetworkType::Main, w.accounts@[0]@.ufvk)->Some_0.1->Some_0;
            let q = after.prep->Some_0@;
            let view = faucet_view(after.tx).parts[1];
            &&& after.prep is Some
            &&& after.is_user_faucet == for_user
            &&& q.o_outputs.len() >= 1
            &&& q.o_outputs[0].dst == dst
            &&& q.o_outputs[0].zats.zats == 50_000_000
            &&& is_memo_of(q.o_outputs[0].memo, faucet_words())
            &&& q.t_outputs.len() == 0
            &&& forall|i: int| 1 <= i < q.o_outputs.len() ==> (#[trigger] q.o_outputs[i]).dst == own
            &&& dst != own ==> view.recv_zats.zats == 50_000_000 && view.recv_note_count == 1
                && view.spent_zats.zats == 0 && view.sent_zats.zats == 0
        }),
{
    let given = ProposedTx { is_user_faucet: before.is_user_faucet, ..after };
    a_payment_pays_what_was_asked(
        w,
        net,
        before,
        given,
        r,
        FAUCET_VALUE,
        dst,
        memo_of(faucet_words()),
        tree,
        key_addr,
    );
    let text = faucet_words();
    reveal_strlit("With love from your favourite faucet... Don't spend it all at once!");
    lemma_short_text(text);
    let b = encode_utf8(text);
    let bytes = Seq::new(
        512,
        |i: int|
            if i < b.len() {
                b[i]
            } else {
                0u8
            },
    );
    crate::wire::lemma_array_holds::<512>(bytes);
    assert(is_memo_of(crate::wire::array_of::<512>(bytes), text));
    let v = faucet_view(after.tx);
    assert(v.parts@[1] == v.parts[1]);
}

/// The user sees its own payments and stakes while they are proposed, and what the faucet pays it; it sees
/// no payment of the faucet to another. The miner sees what the faucet pays, and what it shields.
pub proof fn each_sees_its_own_proposals(p: Proposals, t: WalletTx)
    ensures
        shown_to_user(p).contains(t) <==> t.h.0 == PROPOSED && t.status is OnBc && (t == p.send.tx || t
            == p.stake.tx || (p.faucet.is_user_faucet && t == faucet_view(p.faucet.tx))),
        shown_to_miner(p).contains(t) <==> t.h.0 == PROPOSED && t.status is OnBc && (t == p.faucet.tx
            || t == p.miner_shield.tx),
{
    let a = shown(p.send.tx);
    let b = shown(p.stake.tx);
    let c = if p.faucet.is_user_faucet {
        shown(faucet_view(p.faucet.tx))
    } else {
        seq![]
    };
    let all = shown_to_user(p);
    assert(all == a + b + c);
    if a.len() > 0 {
        assert(all[0] == p.send.tx);
    }
    if b.len() > 0 {
        assert(all[a.len() as int] == p.stake.tx);
    }
    if c.len() > 0 {
        assert(all[(a.len() + b.len()) as int] == faucet_view(p.faucet.tx));
    }
    let d = shown(p.faucet.tx);
    let e = shown(p.miner_shield.tx);
    if d.len() > 0 {
        assert(shown_to_miner(p)[0] == p.faucet.tx);
    }
    if e.len() > 0 {
        assert(shown_to_miner(p)[d.len() as int] == p.miner_shield.tx);
    }
}

} // verus!
