//! What the wallet shows, and what it is asked to do.
use crate::addresses::{address_in, unified_address, UnifiedAddress};
use crate::bonds::Position;
use crate::bytes::bytes_eq;
use crate::network::NetworkType;
use crate::notes::TxId;
use crate::queue::StakeQ;
use crate::roster::WalletRosterMember;
use crate::staking::PendingStake;
use crate::text::{append_decimal, append_json, decimal, json_chars};
use crate::wallet_tx::WalletTx;
use crate::zats::{Zatoshis, MAX_MONEY};
use std::collections::VecDeque;
use vstd::prelude::*;
use vstd::string::StringExecFns;

verus! {

/// What the wallet is asked to do.
#[derive(Clone, Debug)]
pub enum WalletAction {
    RequestFromFaucet,
    TestStakeAction,
    StakeToFinalizer(Zatoshis, [u8; 32]),
    UnstakeFromFinalizer(TxId),
    RetargetBond(TxId, [u8; 32]),
    ClaimBond(TxId),
    SendToAddress(UnifiedAddress, Zatoshis),
}

/// What a [`WalletAction`] is.
pub enum ActionModel {
    RequestFromFaucet,
    TestStakeAction,
    StakeToFinalizer(Zatoshis, [u8; 32]),
    UnstakeFromFinalizer(TxId),
    RetargetBond(TxId, [u8; 32]),
    ClaimBond(TxId),
    SendToAddress((Seq<char>, Option<[u8; 43]>), Zatoshis),
}

impl View for WalletAction {
    type V = ActionModel;

    open spec fn view(&self) -> ActionModel {
        match *self {
            WalletAction::RequestFromFaucet => ActionModel::RequestFromFaucet,
            WalletAction::TestStakeAction => ActionModel::TestStakeAction,
            WalletAction::StakeToFinalizer(z, to) => ActionModel::StakeToFinalizer(z, to),
            WalletAction::UnstakeFromFinalizer(id) => ActionModel::UnstakeFromFinalizer(id),
            WalletAction::RetargetBond(id, to) => ActionModel::RetargetBond(id, to),
            WalletAction::ClaimBond(id) => ActionModel::ClaimBond(id),
            WalletAction::SendToAddress(a, z) => ActionModel::SendToAddress(a@, z),
        }
    }
}

/// Whether one action waits in the place of another: a second request to the faucet, a second stake, a
/// second action of a kind on the same bond, or the same payment again.
pub open spec fn same_request(a: ActionModel, b: ActionModel) -> bool {
    match (a, b) {
        (ActionModel::RequestFromFaucet, ActionModel::RequestFromFaucet) => true,
        (ActionModel::StakeToFinalizer(_, _), ActionModel::StakeToFinalizer(_, _)) => true,
        (ActionModel::UnstakeFromFinalizer(x), ActionModel::UnstakeFromFinalizer(y)) => x == y,
        (ActionModel::RetargetBond(x, _), ActionModel::RetargetBond(y, _)) => x == y,
        (ActionModel::ClaimBond(x), ActionModel::ClaimBond(y)) => x == y,
        (ActionModel::SendToAddress(x, v), ActionModel::SendToAddress(y, w)) => x.0 == y.0 && v == w,
        _ => false,
    }
}

/// What some actions are.
pub open spec fn action_models(s: Seq<WalletAction>) -> Seq<ActionModel> {
    Seq::new(s.len(), |i: int| s[i]@)
}

/// Whether an action waits already.
pub open spec fn is_waiting(s: Seq<ActionModel>, a: ActionModel) -> bool {
    exists|i: int| 0 <= i < s.len() && same_request(#[trigger] s[i], a)
}

/// The actions after one was asked for: it waits behind the others, unless it waits already.
pub open spec fn with_request(s: Seq<ActionModel>, a: ActionModel) -> Seq<ActionModel> {
    if is_waiting(s, a) {
        s
    } else {
        s.push(a)
    }
}

fn same_action(a: &WalletAction, b: &WalletAction) -> (r: bool)
    ensures
        r == same_request(a@, b@),
{
    match (a, b) {
        (WalletAction::RequestFromFaucet, WalletAction::RequestFromFaucet) => true,
        (WalletAction::StakeToFinalizer(_, _), WalletAction::StakeToFinalizer(_, _)) => true,
        (WalletAction::UnstakeFromFinalizer(x), WalletAction::UnstakeFromFinalizer(y)) => bytes_eq(
            x,
            y,
        ),
        (WalletAction::RetargetBond(x, _), WalletAction::RetargetBond(y, _)) => bytes_eq(x, y),
        (WalletAction::ClaimBond(x), WalletAction::ClaimBond(y)) => bytes_eq(x, y),
        (WalletAction::SendToAddress(x, v), WalletAction::SendToAddress(y, w)) => x.text == y.text
            && v.zats == w.zats,
        _ => false,
    }
}

/// What the wallet shows, and what it is asked to do.
#[derive(Debug)]
pub struct WalletState {
    pub wallet_is_init: bool,
    pub miner_seen_h: u32,
    pub miner_unshielded_funds: u64,
    pub miner_shielded_pending_funds: u64,
    pub miner_shielded_spendable_funds: u64,
    pub user_unshielded_funds: u64,
    pub user_shielded_pending_funds: u64,
    pub user_shielded_spendable_funds: u64,
    pub staked_balance: u64,
    pub withdrawable_balance: u64,
    pub user_local_txs: Vec<WalletTx>,
    pub user_txs: Vec<WalletTx>,
    pub miner_local_txs: Vec<WalletTx>,
    pub miner_txs: Vec<WalletTx>,
    pub roster: Vec<WalletRosterMember>,
    pub waiting_for_faucet: bool,
    pub waiting_for_stake_to_finalizer: bool,
    pub waiting_for_send: bool,
    pub wallets_sync_h: u64,
    pub wallets_tip_h: u64,
    pub user_recv_ua: String,
    pub user_seed_mnemonic: String,
    pub user_ufvk: String,
    pub actions_in_flight: VecDeque<WalletAction>,
    pub stake_positions_bonded: Vec<Position>,
    pub stake_positions_unbonded: Vec<Position>,
}

impl WalletState {
    /// The actions that wait.
    pub open spec fn actions(&self) -> Seq<ActionModel> {
        action_models(self.actions_in_flight@)
    }

    /// Whether nothing but the actions and what is waited for has changed.
    pub open spec fn same_but_requests(&self, s: &WalletState) -> bool {
        *self == (WalletState {
            waiting_for_faucet: self.waiting_for_faucet,
            waiting_for_stake_to_finalizer: self.waiting_for_stake_to_finalizer,
            waiting_for_send: self.waiting_for_send,
            actions_in_flight: self.actions_in_flight,
            ..*s
        })
    }

    pub fn new() -> (r: WalletState)
        ensures
            !r.wallet_is_init,
            r.miner_seen_h == 0,
            r.miner_unshielded_funds == 0,
            r.miner_shielded_pending_funds == 0,
            r.miner_shielded_spendable_funds == 0,
            r.user_unshielded_funds == 0,
            r.user_shielded_pending_funds == 0,
            r.user_shielded_spendable_funds == 0,
            r.staked_balance == 0,
            r.withdrawable_balance == 0,
            r.user_local_txs@.len() == 0,
            r.user_txs@.len() == 0,
            r.miner_local_txs@.len() == 0,
            r.miner_txs@.len() == 0,
            r.roster@.len() == 0,
            !r.waiting_for_faucet,
            !r.waiting_for_stake_to_finalizer,
            !r.waiting_for_send,
            r.wallets_sync_h == 0,
            r.wallets_tip_h == 0,
            r.user_recv_ua@.len() == 0,
            r.user_seed_mnemonic@.len() == 0,
            r.user_ufvk@.len() == 0,
            r.actions().len() == 0,
            r.stake_positions_bonded@.len() == 0,
            r.stake_positions_unbonded@.len() == 0,
    {
        WalletState {
            wallet_is_init: false,
            miner_seen_h: 0,
            miner_unshielded_funds: 0,
            miner_shielded_pending_funds: 0,
            miner_shielded_spendable_funds: 0,
            user_unshielded_funds: 0,
            user_shielded_pending_funds: 0,
            user_shielded_spendable_funds: 0,
            staked_balance: 0,
            withdrawable_balance: 0,
            user_local_txs: Vec::new(),
            user_txs: Vec::new(),
            miner_local_txs: Vec::new(),
            miner_txs: Vec::new(),
            roster: Vec::new(),
            waiting_for_faucet: false,
            waiting_for_stake_to_finalizer: false,
            waiting_for_send: false,
            wallets_sync_h: 0,
            wallets_tip_h: 0,
            user_recv_ua: String::new(),
            user_seed_mnemonic: String::new(),
            user_ufvk: String::new(),
            actions_in_flight: VecDeque::new(),
            stake_positions_bonded: Vec::new(),
            stake_positions_unbonded: Vec::new(),
        }
    }

    /// What the user has.
    pub open spec fn user_sum(&self) -> int {
        self.user_unshielded_funds + self.user_shielded_spendable_funds
            + self.user_shielded_pending_funds
    }

    /// What the miner has.
    pub open spec fn miner_sum(&self) -> int {
        self.miner_unshielded_funds + self.miner_shielded_spendable_funds
            + self.miner_shielded_pending_funds
    }

    pub fn user_balance(&self) -> (r: u64)
        requires
            self.user_sum() <= u64::MAX,
        ensures
            r == self.user_sum(),
    {
        self.user_unshielded_funds + self.user_shielded_spendable_funds
            + self.user_shielded_pending_funds
    }

    pub fn user_pending_balance(&self) -> (r: u64)
        ensures
            r == self.user_shielded_pending_funds,
    {
        self.user_shielded_pending_funds
    }

    pub fn miner_balance(&self) -> (r: u64)
        requires
            self.miner_sum() <= u64::MAX,
        ensures
            r == self.miner_sum(),
    {
        self.miner_unshielded_funds + self.miner_shielded_spendable_funds
            + self.miner_shielded_pending_funds
    }

    pub fn miner_pending_balance(&self) -> (r: u64)
        ensures
            r == self.miner_shielded_pending_funds,
    {
        self.miner_shielded_pending_funds
    }

    fn waits(&self, a: &WalletAction) -> (r: bool)
        ensures
            r == is_waiting(self.actions(), a@),
    {
        let n: usize = self.actions_in_flight.len();
        let mut i: usize = 0;
        while i < n
            invariant
                i <= n == self.actions_in_flight@.len(),
                forall|k: int| 0 <= k < i ==> !same_request(#[trigger] self.actions()[k], a@),
            decreases n - i,
        {
            if same_action(&self.actions_in_flight[i], a) {
                assert(same_request(self.actions()[i as int], a@));
                return true;
            }
            i += 1;
        }
        false
    }

    /// Puts an action behind the others, unless it waits already. Whether it was put there.
    fn request(&mut self, a: WalletAction) -> (r: bool)
        ensures
            r == !is_waiting(old(self).actions(), a@),
            final(self).actions() == with_request(old(self).actions(), a@),
            *final(self) == (WalletState {
                actions_in_flight: final(self).actions_in_flight,
                ..*old(self)
            }),
            !r ==> *final(self) == *old(self),
    {
        if self.waits(&a) {
            false
        } else {
            self.actions_in_flight.push_back(a);
            assert(self.actions() =~= old(self).actions().push(a@));
            true
        }
    }

    /// Asks for money from the faucet.
    pub fn request_from_faucet(&mut self)
        ensures
            final(self).actions() == with_request(
                old(self).actions(),
                ActionModel::RequestFromFaucet,
            ),
            final(self).waiting_for_faucet,
            *final(self) == (WalletState {
                waiting_for_faucet: true,
                actions_in_flight: final(self).actions_in_flight,
                ..*old(self)
            }),
    {
        self.waiting_for_faucet = true;
        let _ = self.request(WalletAction::RequestFromFaucet);
    }

    /// Asks for a stake with a finalizer. A second one has to wait until the first is taken up.
    pub fn stake_to_finalizer(&mut self, amount: u64, target_finalizer: [u8; 32])
        requires
            amount <= MAX_MONEY || is_waiting(
                old(self).actions(),
                ActionModel::StakeToFinalizer(Zatoshis { zats: amount }, target_finalizer),
            ),
        ensures
            ({
                let a = ActionModel::StakeToFinalizer(Zatoshis { zats: amount }, target_finalizer);
                &&& final(self).actions() == with_request(old(self).actions(), a)
                &&& is_waiting(old(self).actions(), a) ==> *final(self) == *old(self)
                &&& !is_waiting(old(self).actions(), a) ==> *final(self) == (WalletState {
                    waiting_for_stake_to_finalizer: true,
                    actions_in_flight: final(self).actions_in_flight,
                    ..*old(self)
                })
            }),
    {
        if self.request(
            WalletAction::StakeToFinalizer(Zatoshis { zats: amount }, target_finalizer),
        ) {
            self.waiting_for_stake_to_finalizer = true;
        }
    }

    /// Asks to begin the unbonding of a bond.
    pub fn unstake_from_finalizer(&mut self, txid: [u8; 32])
        ensures
            final(self).actions() == with_request(
                old(self).actions(),
                ActionModel::UnstakeFromFinalizer(txid),
            ),
            *final(self) == (WalletState {
                actions_in_flight: final(self).actions_in_flight,
                ..*old(self)
            }),
    {
        let _ = self.request(WalletAction::UnstakeFromFinalizer(txid));
    }

    /// Asks to move a bond to another finalizer.
    pub fn retarget_bond(&mut self, txid: [u8; 32], new_target: [u8; 32])
        ensures
            final(self).actions() == with_request(
                old(self).actions(),
                ActionModel::RetargetBond(txid, new_target),
            ),
            *final(self) == (WalletState {
                actions_in_flight: final(self).actions_in_flight,
                ..*old(self)
            }),
    {
        let _ = self.request(WalletAction::RetargetBond(txid, new_target));
    }

    /// Asks to withdraw a bond.
    pub fn claim_bond(&mut self, txid: [u8; 32])
        ensures
            final(self).actions() == with_request(
                old(self).actions(),
                ActionModel::ClaimBond(txid),
            ),
            *final(self) == (WalletState {
                actions_in_flight: final(self).actions_in_flight,
                ..*old(self)
            }),
    {
        let _ = self.request(WalletAction::ClaimBond(txid));
    }

    /// Asks for a payment to an address of the test network. A text that is no unified address, and an
    /// amount that cannot exist, are passed over.
    pub fn send_to_address(&mut self, address: &str, amount: u64)
        ensures
            match address_in(false, address@) {
                None => *final(self) == *old(self),
                Some(to) => if amount > MAX_MONEY {
                    *final(self) == *old(self)
                } else {
                    let a = ActionModel::SendToAddress(to, Zatoshis { zats: amount });
                    &&& final(self).actions() == with_request(old(self).actions(), a)
                    &&& is_waiting(old(self).actions(), a) ==> *final(self) == *old(self)
                    &&& !is_waiting(old(self).actions(), a) ==> *final(self) == (WalletState {
                        waiting_for_send: true,
                        actions_in_flight: final(self).actions_in_flight,
                        ..*old(self)
                    })
                },
            },
    {
        if let Some(to) = unified_address(NetworkType::Test, address) {
            if let Some(zats) = Zatoshis::from_u64(amount) {
                if self.request(WalletAction::SendToAddress(to, zats)) {
                    self.waiting_for_send = true;
                }
            }
        }
    }

    /// Takes the first action off, if there is one.
    pub fn take_action(&mut self) -> (r: Option<WalletAction>)
        ensures
            match r {
                Some(a) => old(self).actions().len() > 0 && a@ == old(self).actions()[0]
                    && final(self).actions() == old(self).actions().skip(1),
                None => old(self).actions().len() == 0 && final(self).actions() == old(
                    self,
                ).actions(),
            },
            *final(self) == (WalletState {
                actions_in_flight: final(self).actions_in_flight,
                ..*old(self)
            }),
    {
        let r = self.actions_in_flight.pop_front();
        proof {
            if r is Some {
                assert(self.actions() =~= old(self).actions().skip(1));
            }
        }
        r
    }
}

/// The actions after waiting stakes were taken up one after the other. A stake whose amount cannot
/// exist is passed over.
pub open spec fn with_stakes(s: Seq<ActionModel>, stakes: Seq<PendingStake>) -> Seq<ActionModel>
    decreases stakes.len(),
{
    if stakes.len() == 0 {
        s
    } else {
        let before = with_stakes(s, stakes.drop_last());
        let p = stakes.last();
        if p.amount_zats <= MAX_MONEY {
            with_request(
                before,
                ActionModel::StakeToFinalizer(Zatoshis { zats: p.amount_zats }, p.finalizer),
            )
        } else {
            before
        }
    }
}

/// Takes up all waiting stakes.
pub fn drain_stakes(q: &mut StakeQ, state: &mut WalletState)
    requires
        old(q).wf(),
    ensures
        final(q).wf(),
        final(q).items().len() == 0,
        final(state).actions() == with_stakes(old(state).actions(), old(q).items()),
        final(state).same_but_requests(old(state)),
        final(state).waiting_for_faucet == old(state).waiting_for_faucet,
        final(state).waiting_for_send == old(state).waiting_for_send,
        final(state).waiting_for_stake_to_finalizer == (old(state).waiting_for_stake_to_finalizer
            || final(state).actions().len() > old(state).actions().len()),
{
    let ghost all = q.items();
    let ghost mut done: int = 0;
    assert(all.skip(0) =~= all);
    assert(all.take(0) =~= seq![]);
    while q.len() > 0
        invariant
            q.wf(),
            0 <= done <= all.len(),
            all == old(q).items(),
            q.items() == all.skip(done),
            state.actions() == with_stakes(old(state).actions(), all.take(done)),
            state.same_but_requests(old(state)),
            state.waiting_for_faucet == old(state).waiting_for_faucet,
            state.waiting_for_send == old(state).waiting_for_send,
            old(state).actions().len() <= state.actions().len(),
            state.waiting_for_stake_to_finalizer == (old(state).waiting_for_stake_to_finalizer
                || state.actions().len() > old(state).actions().len()),
        decreases q.count(),
    {
        let p = q.pop();
        proof {
            assert(all.skip(done).skip(1) =~= all.skip(done + 1));
            assert(all.take(done + 1).drop_last() =~= all.take(done));
            assert(p == Some(all[done]));
            done = done + 1;
        }
        if let Some(p) = p {
            if p.amount_zats <= MAX_MONEY {
                state.stake_to_finalizer(p.amount_zats, p.finalizer);
            }
        }
    }
    assert(all.take(done) =~= all);
}

/// Whether at most one of some actions is a stake.
pub open spec fn one_stake_at_most(s: Seq<ActionModel>) -> bool {
    forall|i: int, j: int|
        0 <= i < j < s.len() ==> !((#[trigger] s[i]) is StakeToFinalizer && (
        #[trigger] s[j]) is StakeToFinalizer)
}

/// However many stakes are asked for, and whatever else is, at most one stake waits at a time.
pub proof fn at_most_one_stake_waits(s: Seq<ActionModel>, a: ActionModel)
    requires
        one_stake_at_most(s),
    ensures
        one_stake_at_most(with_request(s, a)),
{
    if !is_waiting(s, a) && a is StakeToFinalizer {
        let t = s.push(a);
        assert forall|i: int, j: int| 0 <= i < j < t.len() implies !((
        #[trigger] t[i]) is StakeToFinalizer && (#[trigger] t[j]) is StakeToFinalizer) by {
            if j < s.len() {
                assert(!(s[i] is StakeToFinalizer && s[j] is StakeToFinalizer));
            } else {
                assert(!same_request(s[i], a));
            }
        }
    }
}

/// Asking for the same thing again changes nothing.
pub proof fn asking_again_changes_nothing(s: Seq<ActionModel>, a: ActionModel)
    requires
        !(a is TestStakeAction),
    ensures
        with_request(with_request(s, a), a) == with_request(s, a),
{
    if !is_waiting(s, a) {
        assert(same_request(s.push(a)[s.len() as int], a));
    }
}

/// The fields of a state as they are shown to other programs.
pub open spec fn info_text(s: &WalletState) -> Seq<char> {
    "{\"user_balance_zats\":"@ + decimal(s.user_sum() as nat) + ",\"user_shielded_spendable\":"@
        + decimal(s.user_shielded_spendable_funds as nat) + ",\"user_shielded_pending\":"@
        + decimal(s.user_shielded_pending_funds as nat) + ",\"user_unshielded\":"@ + decimal(
        s.user_unshielded_funds as nat,
    ) + ",\"user_address\":"@ + "\""@ + json_chars(s.user_recv_ua@) + "\""@
        + ",\"miner_balance_zats\":"@ + decimal(s.miner_sum() as nat)
        + ",\"miner_shielded_spendable\":"@ + decimal(s.miner_shielded_spendable_funds as nat)
        + ",\"miner_shielded_pending\":"@ + decimal(s.miner_shielded_pending_funds as nat)
        + ",\"miner_unshielded\":"@ + decimal(s.miner_unshielded_funds as nat)
        + ",\"staked_zats\":"@ + decimal(s.staked_balance as nat) + ",\"withdrawable_zats\":"@
        + decimal(s.withdrawable_balance as nat) + ",\"waiting_for_faucet\":"@ + bool_text(
        s.waiting_for_faucet,
    ) + ",\"waiting_for_stake\":"@ + bool_text(s.waiting_for_stake_to_finalizer)
        + ",\"waiting_for_send\":"@ + bool_text(s.waiting_for_send) + ",\"wallet_sync_h\":"@
        + decimal(s.wallets_sync_h as nat) + ",\"wallet_tip_h\":"@ + decimal(s.wallets_tip_h as nat)
        + ",\"actions_in_flight\":"@ + decimal(s.actions().len())
        + ",\"stake_positions_bonded\":"@ + decimal(s.stake_positions_bonded@.len())
        + ",\"stake_positions_unbonded\":"@ + decimal(s.stake_positions_unbonded@.len()) + "}"@
}

pub open spec fn bool_text(b: bool) -> Seq<char> {
    if b {
        "true"@
    } else {
        "false"@
    }
}

fn bool_str(b: bool) -> (r: &'static str)
    ensures
        r@ == bool_text(b),
{
    if b {
        "true"
    } else {
        "false"
    }
}

fn append_field(out: &mut String, name: &str, v: u64)
    ensures
        final(out)@ == old(out)@ + name@ + decimal(v as nat),
{
    out.append(name);
    append_decimal(out, v);
}

/// The state as a JSON object.
pub fn wallet_info(s: &WalletState) -> (r: String)
    requires
        s.user_sum() <= u64::MAX,
        s.miner_sum() <= u64::MAX,
    ensures
        r@ == info_text(s),
{
    let mut out = "{\"user_balance_zats\":".to_owned();
    append_decimal(&mut out, s.user_balance());
    append_field(&mut out, ",\"user_shielded_spendable\":", s.user_shielded_spendable_funds);
    append_field(&mut out, ",\"user_shielded_pending\":", s.user_shielded_pending_funds);
    append_field(&mut out, ",\"user_unshielded\":", s.user_unshielded_funds);
    out.append(",\"user_address\":");
    append_json(&mut out, s.user_recv_ua.as_str());
    append_field(&mut out, ",\"miner_balance_zats\":", s.miner_balance());
    append_field(&mut out, ",\"miner_shielded_spendable\":", s.miner_shielded_spendable_funds);
    append_field(&mut out, ",\"miner_shielded_pending\":", s.miner_shielded_pending_funds);
    append_field(&mut out, ",\"miner_unshielded\":", s.miner_unshielded_funds);
    append_field(&mut out, ",\"staked_zats\":", s.staked_balance);
    append_field(&mut out, ",\"withdrawable_zats\":", s.withdrawable_balance);
    out.append(",\"waiting_for_faucet\":");
    out.append(bool_str(s.waiting_for_faucet));
    out.append(",\"waiting_for_stake\":");
    out.append(bool_str(s.waiting_for_stake_to_finalizer));
    out.append(",\"waiting_for_send\":");
    out.append(bool_str(s.waiting_for_send));
    append_field(&mut out, ",\"wallet_sync_h\":", s.wallets_sync_h);
    append_field(&mut out, ",\"wallet_tip_h\":", s.wallets_tip_h);
    append_field(&mut out, ",\"actions_in_flight\":", s.actions_in_flight.len() as u64);
    append_field(&mut out, ",\"stake_positions_bonded\":", s.stake_positions_bonded.len() as u64);
    append_field(
        &mut out,
        ",\"stake_positions_unbonded\":",
        s.stake_positions_unbonded.len() as u64,
    );
    out.append("}");
    out
}

/// Whether a stake waits among some actions.
pub open spec fn a_stake_waits(s: Seq<ActionModel>) -> bool {
    exists|i: int| 0 <= i < s.len() && #[trigger] s[i] is StakeToFinalizer
}

/// What is asked for waits behind everything that waits, which stays as it is. It is passed over only
/// where the faucet is asked a second time, a second stake is asked for, a second unbonding, move or
/// withdrawal of the same bond, or a payment of the same amount to the same address.
pub proof fn what_is_asked_for_waits(s: Seq<ActionModel>, a: ActionModel)
    ensures
        ({
            let r = with_request(s, a);
            let again = match a {
                ActionModel::RequestFromFaucet => s.contains(a),
                ActionModel::TestStakeAction => false,
                ActionModel::StakeToFinalizer(_, _) => a_stake_waits(s),
                ActionModel::UnstakeFromFinalizer(_) => s.contains(a),
                ActionModel::RetargetBond(bond, _) => exists|to: [u8; 32]|
                    #[trigger] s.contains(ActionModel::RetargetBond(bond, to)),
                ActionModel::ClaimBond(_) => s.contains(a),
                ActionModel::SendToAddress(to, zats) => exists|o: Option<[u8; 43]>|
                    #[trigger] s.contains(ActionModel::SendToAddress((to.0, o), zats)),
            };
            &&& again ==> r == s
            &&& !again ==> r == s.push(a)
        }),
{
    if is_waiting(s, a) {
        let i = choose|i: int| 0 <= i < s.len() && same_request(#[trigger] s[i], a);
        assert(s.contains(s[i]));
        match (s[i], a) {
            (ActionModel::RetargetBond(bond, to), ActionModel::RetargetBond(_, _)) => {
                assert(s.contains(ActionModel::RetargetBond(bond, to)));
            },
            (ActionModel::SendToAddress(to, zats), ActionModel::SendToAddress(_, _)) => {
                assert(s.contains(ActionModel::SendToAddress((to.0, to.1), zats)));
            },
            (ActionModel::StakeToFinalizer(_, _), _) => {
                assert(s[i] is StakeToFinalizer);
            },
            _ => {},
        }
    } else {
        match a {
            ActionModel::StakeToFinalizer(_, _) => {
                if a_stake_waits(s) {
                    let i = choose|i: int| 0 <= i < s.len() && #[trigger] s[i] is StakeToFinalizer;
                    assert(same_request(s[i], a));
                }
            },
            ActionModel::RetargetBond(bond, _) => {
                assert forall|to: [u8; 32]| !#[trigger] s.contains(
                    ActionModel::RetargetBond(bond, to),
                ) by {
                    let x = ActionModel::RetargetBond(bond, to);
                    if s.contains(x) {
                        let i = choose|i: int| 0 <= i < s.len() && s[i] == x;
                        assert(same_request(s[i], a));
                    }
                }
            },
            ActionModel::SendToAddress(to, zats) => {
                assert forall|o: Option<[u8; 43]>| !#[trigger] s.contains(
                    ActionModel::SendToAddress((to.0, o), zats),
                ) by {
                    let x = ActionModel::SendToAddress((to.0, o), zats);
                    if s.contains(x) {
                        let i = choose|i: int| 0 <= i < s.len() && s[i] == x;
                        assert(same_request(s[i], a));
                    }
                }
            },
            _ => {
                if s.contains(a) && !(a is TestStakeAction) {
                    let i = choose|i: int| 0 <= i < s.len() && s[i] == a;
                    assert(same_request(s[i], a));
                }
            },
        }
    }
}

/// Of some waiting stakes only the first whose amount can exist is taken up, and that only where no stake
/// waits: it then waits behind everything else.
pub proof fn the_first_stake_is_taken_up(s: Seq<ActionModel>, stakes: Seq<PendingStake>, k: int)
    requires
        0 <= k <= stakes.len(),
        forall|i: int| 0 <= i < k ==> (#[trigger] stakes[i]).amount_zats > MAX_MONEY,
        k < stakes.len() ==> stakes[k].amount_zats <= MAX_MONEY,
    ensures
        a_stake_waits(s) || k == stakes.len() ==> with_stakes(s, stakes) == s,
        !a_stake_waits(s) && k < stakes.len() ==> with_stakes(s, stakes) == s.push(
            ActionModel::StakeToFinalizer(
                Zatoshis { zats: stakes[k].amount_zats },
                stakes[k].finalizer,
            ),
        ),
    decreases stakes.len(),
{
    if stakes.len() > 0 {
        let rest = stakes.drop_last();
        let last = stakes.len() - 1;
        assert(stakes[last] == stakes.last());
        assert forall|i: int| 0 <= i < rest.len() implies #[trigger] rest[i] == stakes[i] by {}
        let p = stakes.last();
        let a = ActionModel::StakeToFinalizer(Zatoshis { zats: p.amount_zats }, p.finalizer);
        let before = with_stakes(s, rest);
        the_first_stake_is_taken_up(s, rest, if k <= last { k } else { last as int });
        what_is_asked_for_waits(before, a);
        if k < last && !a_stake_waits(s) {
            assert(before[s.len() as int] is StakeToFinalizer);
        }
    }
}

} // verus!
