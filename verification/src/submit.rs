//! The way of a proposed transaction to the network.
use crate::accounts::{ManualWallet, WalletModel};
use crate::audit::{notes_countable, AuditLog, AuditModel};
use crate::books::{
    books_agree, entering_keeps_the_books, entering_keeps_the_order, is_entered, log_tx, place_from,
    the_place_belongs_to_the_height, update_insert_i, update_with_tx, with_tx,
};
use crate::height::{BlockHeight, BUILT, PROPOSED, SENT};
use crate::listing::{in_order, Order};
use crate::notes::TxId;
use crate::propose::{BuildPrep, ProposedTx};
use crate::tx_part::WalletTxPart;
use crate::wallet_tx::{ErrBuf, TxStatus, WalletTx};
use crate::zats::{Zatoshis, MAX_MONEY};
use vstd::prelude::*;
use vstd::string::StringExecFns;

verus! {

/// What is to be done next for a proposed transaction.
#[derive(Debug)]
pub enum NextStep {
    /// Nothing: no transaction waits for anything.
    Idle,
    /// The transaction is to be built.
    Build(BuildPrep),
    /// It cannot be built.
    CannotBuild,
    /// The bytes are to be sent.
    Send(Vec<u8>),
    /// The transaction has no bytes, and why.
    Unwritable(String),
    /// What was built is gone.
    Lost,
}

fn sum_fits(a: usize, b: usize, c: usize) -> (r: bool)
    ensures
        r == (a + b + c <= usize::MAX),
{
    match a.checked_add(b) {
        Some(s) => s.checked_add(c).is_some(),
        None => false,
    }
}

/// Whether the totals of a transaction, its staking action among them, can be computed.
pub fn totals_fit(tx: &WalletTx) -> (r: bool)
    ensures
        r == tx.sums_ok(true),
{
    if let Some(a) = &tx.staking_action {
        match a.kind {
            crate::staking::StakingActionKind::RegisterFinalizer => {
                return false;
            },
            crate::staking::StakingActionKind::ConvertFinalizerRewardToDelegationBond => {
                return false;
            },
            crate::staking::StakingActionKind::UpdateFinalizerKey => {
                return false;
            },
            crate::staking::StakingActionKind::CreateNewDelegationBond => {
                if a.amount_zats > MAX_MONEY {
                    return false;
                }
            },
            crate::staking::StakingActionKind::WithdrawDelegationBond => {
                if a.amount_zats > MAX_MONEY {
                    return false;
                }
            },
            _ => {},
        }
    }
    let b = WalletTxPart::from_staking_action(tx.staking_action);
    let (x, y) = (tx.parts[0], tx.parts[1]);
    if !(sum_fits(x.spent_note_count, y.spent_note_count, b.spent_note_count) && sum_fits(
        x.sent_note_count,
        y.sent_note_count,
        b.sent_note_count,
    ) && sum_fits(x.recv_note_count, y.recv_note_count, b.recv_note_count)) {
        return false;
    }
    match x.checked_add(&y) {
        Some(s) => s.checked_add(&b).is_some(),
        None => false,
    }
}

/// Whether the totals of a transaction's two pools can be computed.
fn pools_fit(tx: &WalletTx) -> (r: bool)
    ensures
        r == tx.sums_ok(false),
{
    let (x, y) = (tx.parts[0], tx.parts[1]);
    sum_fits(x.spent_note_count, y.spent_note_count, 0) && sum_fits(
        x.sent_note_count,
        y.sent_note_count,
        0,
    ) && sum_fits(x.recv_note_count, y.recv_note_count, 0) && x.checked_add(&y).is_some()
}

/// What is to be done next. A proposal gives up what it is built from.
pub fn next_step(tx: &mut ProposedTx) -> (r: NextStep)
    ensures
        final(tx).tx == old(tx).tx,
        final(tx).is_user_faucet == old(tx).is_user_faucet,
        old(tx).tx.h.0 == PROPOSED ==> final(tx).tx_res == old(tx).tx_res && if old(
            tx,
        ).tx.sums_ok(true) && old(tx).prep is Some {
            final(tx).prep is None && r == NextStep::Build(old(tx).prep->Some_0)
        } else {
            r == NextStep::CannotBuild && final(tx).prep == old(tx).prep
        },
        old(tx).tx.h.0 == BUILT ==> final(tx).prep == old(tx).prep && final(tx).tx_res is None
            && match old(tx).tx_res {
            None => r == NextStep::Lost,
            Some(Ok(raw)) => r == NextStep::Send(raw),
            Some(Err(e)) => r == NextStep::Unwritable(e),
        },
        old(tx).tx.h.0 != PROPOSED && old(tx).tx.h.0 != BUILT ==> r == NextStep::Idle && *final(tx)
            == *old(tx),
{
    if tx.tx.h.0 == PROPOSED {
        if !totals_fit(&tx.tx) {
            return NextStep::CannotBuild;
        }
        match tx.prep.take() {
            Some(prep) => NextStep::Build(prep),
            None => NextStep::CannotBuild,
        }
    } else if tx.tx.h.0 == BUILT {
        match tx.tx_res.take() {
            None => NextStep::Lost,
            Some(Ok(raw)) => NextStep::Send(raw),
            Some(Err(e)) => NextStep::Unwritable(e),
        }
    } else {
        NextStep::Idle
    }
}

/// A wallet after a transaction was entered where its height belongs, unless its totals cannot
/// exist.
pub open spec fn entered(w: WalletModel, tx: WalletTx) -> WalletModel {
    let at = place_from(w.txs, 0, tx.h.0);
    if tx.sums_ok(false) && is_entered(w, tx) {
        with_tx(w, tx, at)
    } else {
        w
    }
}

/// The log after that.
pub open spec fn entered_log(m: AuditModel, w: WalletModel, tx: WalletTx) -> AuditModel {
    if tx.sums_ok(false) {
        log_tx(m, w, tx, place_from(w.txs, 0, tx.h.0))
    } else {
        m
    }
}

/// Enters a transaction where its height belongs.
pub fn enter_tx(wallet: &mut ManualWallet, tx: &WalletTx, log: &mut AuditLog)
    requires
        old(wallet).tx_h_map.wf(),
        old(log).wf(),
        notes_countable(old(wallet)@.accounts),
        old(wallet)@.txs.len() < usize::MAX,
    ensures
        final(wallet).tx_h_map.wf(),
        final(wallet).seen_bond_values == old(wallet).seen_bond_values,
        final(wallet).accounts == old(wallet).accounts,
        final(log).wf(),
        final(wallet)@ == entered(old(wallet)@, *tx),
        final(log)@ == entered_log(old(log)@, old(wallet)@, *tx),
{
    if pools_fit(tx) {
        let mut insert_i: usize = 0;
        update_insert_i(&wallet.txs, &mut insert_i, tx.h);
        update_with_tx(wallet, *tx, &mut insert_i, log);
    }
}

/// Whether an entry says that a transaction could not be built: it failed for good at the height it
/// had, and stands at the tip.
pub open spec fn is_unbuilt(e: WalletTx, tx: WalletTx, tip: BlockHeight) -> bool {
    exists|buf: ErrBuf|
        #[trigger] buf.holds("failed to build"@) && e == (WalletTx {
            status: TxStatus::HardFail(tx.h, buf),
            h: tip,
            ..tx
        })
}

/// Takes note of what came of building a proposal: the id and the bytes of the transaction, or
/// nothing. The transaction is entered into the wallet's list, and what could not be built is given
/// up. The entry.
pub fn finish_build(
    wallet: &mut ManualWallet,
    tx: &mut ProposedTx,
    built: Option<(TxId, Result<Vec<u8>, String>)>,
    log: &mut AuditLog,
) -> (r: WalletTx)
    requires
        old(wallet).tx_h_map.wf(),
        old(log).wf(),
        notes_countable(old(wallet)@.accounts),
        old(wallet)@.txs.len() < usize::MAX,
    ensures
        final(wallet).tx_h_map.wf(),
        final(wallet).seen_bond_values == old(wallet).seen_bond_values,
        final(log).wf(),
        final(wallet)@ == entered(old(wallet)@, r),
        final(log)@ == entered_log(old(log)@, old(wallet)@, r),
        match built {
            Some((txid, res)) => r == (WalletTx {
                txid,
                h: BlockHeight(BUILT),
                status: TxStatus::OnBc,
                ..old(tx).tx
            }) && final(tx).tx == r && final(tx).tx_res == Some(res) && final(tx).prep == old(
                tx,
            ).prep && final(tx).is_user_faucet == old(tx).is_user_faucet,
            None => is_unbuilt(r, old(tx).tx, old(wallet)@.chain_tip_h) && final(tx).tx.is_empty()
                && final(tx).prep is None && final(tx).tx_res is None && !final(tx).is_user_faucet,
        },
{
    match built {
        Some((txid, res)) => {
            tx.tx.txid = txid;
            tx.tx.h = BlockHeight(BUILT);
            tx.tx.status = TxStatus::OnBc;
            tx.tx_res = Some(res);
            enter_tx(wallet, &tx.tx, log);
            tx.tx
        },
        None => {
            let buf = ErrBuf::from_str("failed to build");
            let entry = WalletTx {
                status: TxStatus::HardFail(tx.tx.h, buf),
                h: wallet.chain_tip_h,
                ..tx.tx
            };
            assert(is_unbuilt(entry, old(tx).tx, old(wallet)@.chain_tip_h)) by {
                assert(buf.holds("failed to build"@));
            }
            enter_tx(wallet, &entry, log);
            *tx = ProposedTx::empty();
            entry
        },
    }
}

/// What came of sending a transaction.
#[derive(Debug)]
pub enum SendOutcome {
    /// The network took it.
    Taken,
    /// The network did not take it.
    Refused,
    /// It has no bytes, and why.
    Unwritable(String),
    /// What was built is gone.
    Lost,
}

/// The entry of a transaction after it was sent, or not: a refused one failed for now, one without
/// bytes for good, and both stand at the tip.
pub open spec fn is_sent_entry(e: WalletTx, tx: WalletTx, tip: BlockHeight, outcome: SendOutcome) -> bool {
    match outcome {
        SendOutcome::Taken => e == (WalletTx { h: BlockHeight(SENT), ..tx }),
        SendOutcome::Refused => e == (WalletTx { status: TxStatus::SoftFail(tx.h), h: tip, ..tx }),
        SendOutcome::Unwritable(why) => exists|buf: ErrBuf|
            #[trigger] buf.holds("couldn't serialize: "@ + why@) && e == (WalletTx {
                status: TxStatus::HardFail(tx.h, buf),
                h: tip,
                ..tx
            }),
        SendOutcome::Lost => e.is_empty(),
    }
}

/// Takes note of what came of sending a transaction. It is entered into the wallet's list, and is not
/// sent a second time. The entry.
pub fn finish_send(
    wallet: &mut ManualWallet,
    tx: &mut ProposedTx,
    outcome: SendOutcome,
    log: &mut AuditLog,
) -> (r: WalletTx)
    requires
        old(wallet).tx_h_map.wf(),
        old(log).wf(),
        notes_countable(old(wallet)@.accounts),
        old(wallet)@.txs.len() < usize::MAX,
    ensures
        final(wallet).tx_h_map.wf(),
        final(wallet).seen_bond_values == old(wallet).seen_bond_values,
        final(log).wf(),
        final(wallet)@ == entered(old(wallet)@, r),
        final(log)@ == entered_log(old(log)@, old(wallet)@, r),
        is_sent_entry(r, old(tx).tx, old(wallet)@.chain_tip_h, outcome),
        final(tx).tx.is_empty(),
        final(tx).prep is None,
        final(tx).tx_res is None,
        !final(tx).is_user_faucet,
{
    let entry = match outcome {
        SendOutcome::Taken => WalletTx { h: BlockHeight(SENT), ..tx.tx },
        SendOutcome::Refused => WalletTx {
            status: TxStatus::SoftFail(tx.tx.h),
            h: wallet.chain_tip_h,
            ..tx.tx
        },
        SendOutcome::Unwritable(why) => {
            let text = "couldn't serialize: ".to_owned().concat(why.as_str());
            let buf = ErrBuf::from_str(text.as_str());
            assert(buf.holds("couldn't serialize: "@ + why@));
            WalletTx {
                status: TxStatus::HardFail(tx.tx.h, buf),
                h: wallet.chain_tip_h,
                ..tx.tx
            }
        },
        SendOutcome::Lost => WalletTx::empty(),
    };
    enter_tx(wallet, &entry, log);
    *tx = ProposedTx::empty();
    entry
}

/// What the user sees of a transaction that the faucet sends: one note, of what is sent and does not
/// come back.
pub open spec fn faucet_view(tx: WalletTx) -> WalletTx {
    let s = tx.parts[1];
    let got = if s.sent_zats.zats >= s.recv_zats.zats {
        (s.sent_zats.zats - s.recv_zats.zats) as u64
    } else {
        0
    };
    WalletTx {
        parts: [
            WalletTxPart::nothing(),
            WalletTxPart {
                recv_note_count: 1,
                recv_zats: Zatoshis {
                    zats: if got <= MAX_MONEY {
                        got
                    } else {
                        0
                    },
                },
                ..WalletTxPart::nothing()
            },
        ],
        ..tx
    }
}

pub fn user_view_of_faucet_tx(tx: &WalletTx) -> (r: WalletTx)
    ensures
        r == faucet_view(*tx),
{
    let got: u64 = tx.parts[1].sent_zats.into_u64().saturating_sub(
        tx.parts[1].recv_zats.into_u64(),
    );
    let zero = WalletTxPart::zero();
    let recv_zats = match Zatoshis::from_u64(got) {
        Some(z) => z,
        None => Zatoshis::zero(),
    };
    let r = WalletTx {
        parts: [zero, WalletTxPart { recv_note_count: 1, recv_zats, ..zero }],
        ..*tx
    };
    assert(r.parts =~= faucet_view(*tx).parts);
    r
}

/// Enters into the user's wallet what the user asked the faucet for, once the transaction has an id.
pub fn enter_faucet_tx(
    user_wallet: &mut ManualWallet,
    proposed_faucet: &ProposedTx,
    faucet_tx: &WalletTx,
    log: &mut AuditLog,
)
    requires
        old(user_wallet).tx_h_map.wf(),
        old(log).wf(),
        notes_countable(old(user_wallet)@.accounts),
        old(user_wallet)@.txs.len() < usize::MAX,
    ensures
        final(user_wallet).tx_h_map.wf(),
        final(user_wallet).seen_bond_values == old(user_wallet).seen_bond_values,
        final(log).wf(),
        if proposed_faucet.is_user_faucet && faucet_tx.txid@ != Seq::new(32, |i: int| 0u8) {
            final(user_wallet)@ == entered(old(user_wallet)@, faucet_view(*faucet_tx))
                && final(log)@ == entered_log(
                old(log)@,
                old(user_wallet)@,
                faucet_view(*faucet_tx),
            )
        } else {
            *final(user_wallet) == *old(user_wallet) && *final(log) == *old(log)
        },
{
    let zeros: [u8; 32] = [0u8; 32];
    assert(zeros@ =~= Seq::new(32, |i: int| 0u8));
    proof {
        if faucet_tx.txid@ == zeros@ {
            assert(faucet_tx.txid =~= zeros);
        }
    }
    if proposed_faucet.is_user_faucet && !crate::bytes::bytes_eq(&faucet_tx.txid, &zeros) {
        enter_tx(user_wallet, &user_view_of_faucet_tx(faucet_tx), log);
    }
}

/// Takes up a proposal into a list of local transactions, if it is in progress at some stage or
/// later. Whether it did.
pub fn push_if_proposed_tx(list: &mut Vec<WalletTx>, proposed: &ProposedTx, min_stage: BlockHeight) -> (r:
    bool)
    ensures
        r == (proposed.in_progress() && proposed.tx.h.0 >= min_stage.0),
        r ==> final(list)@ == old(list)@.push(proposed.tx),
        !r ==> final(list)@ == old(list)@,
{
    if proposed.is_in_progress() && proposed.tx.h.0 >= min_stage.0 {
        list.push(proposed.tx);
        true
    } else {
        false
    }
}

/// A transaction that was taken by the network is not sent again: nothing is left to do for it.
pub proof fn a_sent_transaction_is_done(after: ProposedTx)
    requires
        after.tx.is_empty(),
    ensures
        !after.in_progress(),
        after.tx.h.0 != PROPOSED && after.tx.h.0 != BUILT,
{
}

/// What came of sending a transaction is in its entry: one that the network took is on its way still, one
/// that it refused has failed for now, and one without bytes has failed for good. Both stand at the tip
/// and are in progress no more. Everything else of the entry is as it was.
pub proof fn the_entry_says_what_came_of_sending(
    e: WalletTx,
    tx: WalletTx,
    tip: BlockHeight,
    outcome: SendOutcome,
)
    requires
        is_sent_entry(e, tx, tip, outcome),
        !(outcome is Lost),
    ensures
        e.txid == tx.txid,
        e.parts == tx.parts,
        e.memo == tx.memo,
        e.staking_action == tx.staking_action,
        e.part_flags == tx.part_flags,
        outcome is Taken ==> e.h.0 == SENT && e.status == tx.status,
        outcome is Refused ==> e.h == tip && e.status == TxStatus::SoftFail(tx.h),
        outcome is Unwritable ==> e.h == tip && (e.status matches TxStatus::HardFail(h, _) && h == tx.h),
{
}

/// A transaction that could not be built has failed for good, and is otherwise as it was.
pub proof fn an_unbuilt_transaction_has_failed(e: WalletTx, tx: WalletTx, tip: BlockHeight)
    requires
        is_unbuilt(e, tx, tip),
    ensures
        e.txid == tx.txid,
        e.parts == tx.parts,
        e.h == tip,
        e.status matches TxStatus::HardFail(h, _) && h == tx.h,
{
}

/// What the user sees of a transaction of the faucet is what the transaction sends and does not get back:
/// one note, and nothing spent.
pub proof fn the_user_sees_what_the_faucet_gives(tx: WalletTx)
    requires
        tx.parts[1].sent_zats.wf(),
    ensures
        ({
            let (s, v) = (tx.parts[1], faucet_view(tx));
            &&& v.parts[1].recv_note_count == 1
            &&& s.sent_zats.zats >= s.recv_zats.zats ==> v.parts[1].recv_zats.zats
                == s.sent_zats.zats - s.recv_zats.zats
            &&& s.sent_zats.zats < s.recv_zats.zats ==> v.parts[1].recv_zats.zats == 0
            &&& v.parts[1].spent_note_count == 0 && v.parts[1].sent_note_count == 0
            &&& v.parts[0] == WalletTxPart::nothing()
            &&& v.txid == tx.txid && v.h == tx.h && v.status == tx.status
        }),
{
    let v = faucet_view(tx);
    assert(v.parts@[0] == v.parts[0] && v.parts@[1] == v.parts[1]);
}

/// A transaction is entered where its height belongs: the list keeps its order, and the list and the map
/// of heights stay in agreement.
pub proof fn entering_finds_the_place(w: WalletModel, tx: WalletTx)
    requires
        books_agree(w),
        in_order(w.txs, Order::Recv),
    ensures
        books_agree(entered(w, tx)),
        in_order(entered(w, tx).txs, Order::Recv),
        entered(w, tx).accounts == w.accounts,
{
    the_place_belongs_to_the_height(w.txs, 0, tx.h.0);
    let at = place_from(w.txs, 0, tx.h.0);
    entering_keeps_the_books(w, tx, at);
    entering_keeps_the_order(w, tx, at);
}

} // verus!
