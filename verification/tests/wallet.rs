use crosslink::accounts::{ManualAccount, ManualWallet};
use crosslink::addresses::{AddressKind, UnifiedAddress};
use crosslink::anchors::{anchors_truncate_above, Anchor, AnchorHistory};
use crosslink::assemble::{build_steps, BuildStep};
use crosslink::audit::{received_by, AuditLog, AuditTrigger};
use crosslink::bonds::{bonds_to_watch, stake_positions, value_positions};
use crosslink::books::{tx_position, update_insert_i, update_with_tx};
use crosslink::byte_map::ByteMap;
use crosslink::fees::{fee_required, ProposedTransparentOutput};
use crosslink::full_tx::{read_full_tx, FullTx, TransparentBundle, TxOut};
use crosslink::funds::account_funds;
use crosslink::height::{BlockHeight, BUILT, INVALID, MEMPOOL, PROPOSED, SENT};
use crosslink::listing::{insert_by_height, position_at, position_of, sort_coins, Order};
use crosslink::network::NetworkType;
use crosslink::note_log::{DevNote, DevNoteAction, DevNoteActionKind, NoteLog};
use crosslink::notes::{Note, OrchardNote, OutPoint, TransparentAddress, Txo};
use crosslink::orchard_scan::PreparedKeys;
use crosslink::perform::{memo_from_text, publish, Proposals};
use crosslink::pow_cache::{truncate_pow_cache_to, PoWCache};
use crosslink::propose::{BuildPrep, ProposedTx};
use crosslink::queue::{enqueue_faucet, request_stake, FaucetQ, StakeQ, FAUCET_VALUE};
use crosslink::reorg::take_back_wallet;
use crosslink::rollback::{restore_stream_heights, truncate_wallet_to};
use crosslink::staking::{PendingStake, StakingAction, StakingActionKind};
use crosslink::state::{drain_stakes, WalletAction, WalletState};
use crosslink::submit::{
    enter_faucet_tx, finish_build, finish_send, next_step, user_view_of_faucet_tx, NextStep,
    SendOutcome,
};
use crosslink::sync::{
    bc_h_from_raw_tx_h, block_request, downloaded_height, failed_behind, next_stream_height,
    request_done, request_txs, rules_height, t_request, take_t_txs, RawTx,
};
use crosslink::tx_part::{TxParts, WalletTxPart};
use crosslink::walkback::{fetched_hash, needs_walkback, FetchHashResult, Walk, WalkVerdict};
use crosslink::wallet_tx::{blank_memo, memo_is_empty, ErrBuf, TxStatus, WalletTx, WalletTxKind};
use crosslink::zats::{Zatoshis, MAX_MONEY};

fn zats(v: u64) -> Zatoshis {
    Zatoshis::from_u64(v).unwrap()
}

fn h(v: u32) -> BlockHeight {
    BlockHeight(v)
}

fn txo(id: u8, recv: u32, spent: u32, value: u64) -> Txo {
    Txo {
        recv_h: h(recv),
        spent_h: h(spent),
        id: OutPoint { txid: [id; 32], n: 0 },
        value: zats(value),
        t_addr: TransparentAddress::PublicKeyHash([1; 20]),
    }
}

fn note(id: u8, recv: u32, spent: u32, value: u64) -> OrchardNote {
    OrchardNote {
        recv_h: h(recv),
        spent_h: h(spent),
        nf: [id; 32],
        txid: [id; 32],
        note: Note { recipient: [2; 43], value, rho: [3; 32], rseed: [4; 32] },
        position: id as u64,
    }
}

fn account() -> ManualAccount {
    ManualAccount {
        fully_detected_h: h(0),
        fully_decoded_h: h(0),
        ufvk: String::new(),
        birthday: h(0),
        balance_changes: vec![(h(0), zats(0))],
        recv_txos: vec![],
        utxos: vec![],
        stxos: vec![],
        recv_orchard_notes: vec![],
        unspent_orchard_notes: vec![],
        spent_orchard_notes: vec![],
    }
}

fn wallet() -> ManualWallet {
    ManualWallet::fresh("user", String::new())
}

fn tx(id: u8, at: u32) -> WalletTx {
    WalletTx {
        txid: [id; 32],
        ..WalletTx::with_fake_data(0, 5, false, false, "", at)
    }
}

#[test]
fn amounts_end_at_what_can_exist() {
    assert_eq!(Zatoshis::from_u64(MAX_MONEY).unwrap().into_u64(), 2_100_000_000_000_000);
    assert!(Zatoshis::from_u64(MAX_MONEY + 1).is_none());
    assert_eq!(zats(2).checked_sum(zats(3)), Some(zats(5)));
    assert!(zats(MAX_MONEY).checked_sum(zats(1)).is_none());
    assert_eq!(Zatoshis::zero().into_u64(), 0);
}

#[test]
fn heights_stop_at_their_ends() {
    assert_eq!(h(5).sat_sub(7), h(0));
    assert_eq!(h(7).sat_sub(5), h(2));
    assert_eq!(h(7).sat_add(5), h(12));
    assert!(h(0).is_in_block());
    assert!(!h(MEMPOOL).is_in_block());
    assert!(!h(INVALID).is_in_block());
}

#[test]
fn parts_add_up_or_not_at_all() {
    let mut p = WalletTxPart::zero();
    assert_eq!(p.spent(zats(7)), Some(()));
    assert_eq!(p.sent(zats(5)), Some(()));
    assert_eq!(p.recv(zats(2)), Some(()));
    assert_eq!(p.maybe_recv(false, zats(9)), Some(()));
    assert_eq!(p.maybe_recv(true, zats(1)), Some(()));
    assert_eq!((p.spent_note_count, p.sent_note_count, p.recv_note_count), (1, 1, 2));
    assert_eq!((p.spent_zats, p.sent_zats, p.recv_zats), (zats(7), zats(5), zats(3)));
    let sum = p.checked_add(&p).unwrap();
    assert_eq!((sum.recv_note_count, sum.recv_zats), (4, zats(6)));
    assert_eq!(WalletTxPart::checked_sum(&[p, p]), Some(sum));
    assert_eq!(WalletTxPart::unchecked_sum(&[p, p]), sum);
    let mut full = WalletTxPart::zero();
    full.recv(zats(MAX_MONEY)).unwrap();
    assert!(full.checked_add(&p).is_none());
}

#[test]
fn staking_moves_money() {
    let bond = StakingAction::create_bond(40, [1; 32], [2; 32]);
    let p = WalletTxPart::from_staking_action(Some(bond));
    assert_eq!((p.sent_note_count, p.sent_zats), (1, zats(40)));
    let claim = StakingAction::withdraw_bond(40, [1; 32]);
    let p = WalletTxPart::from_staking_action(Some(claim));
    assert_eq!((p.spent_note_count, p.spent_zats), (1, zats(40)));
    assert_eq!(WalletTxPart::from_staking_action(None), WalletTxPart::zero());
    for code in 0..=7 {
        assert_eq!(StakingActionKind::from_u8(code).unwrap().to_u8(), code);
    }
    assert!(StakingActionKind::from_u8(8).is_none());
}

#[test]
fn a_transaction_tells_what_it_is_for() {
    let t = |sent, recv, shielding| WalletTx::with_fake_data(sent, recv, shielding, false, "", 3);
    assert_eq!(t(9, 2, false).kind(), WalletTxKind::Send);
    assert_eq!(t(0, 2, false).kind(), WalletTxKind::Receive);
    assert_eq!(t(9, 9, false).kind(), WalletTxKind::SelfSend);
    assert_eq!(t(9, 0, true).kind(), WalletTxKind::Shield);
    let mined = WalletTx { is_coinbase: true, ..t(0, 2, false) };
    assert_eq!(mined.kind(), WalletTxKind::Mine);
    let with = |a| WalletTx { staking_action: Some(a), ..t(9, 2, false) };
    assert_eq!(with(StakingAction::create_bond(1, [1; 32], [2; 32])).kind(), WalletTxKind::Stake);
    assert_eq!(with(StakingAction::begin_unbonding([1; 32])).kind(), WalletTxKind::BeginUnstake);
    assert_eq!(
        with(StakingAction::retarget_bond([1; 32], [2; 32])).kind(),
        WalletTxKind::Retarget
    );
    assert_eq!(with(StakingAction::withdraw_bond(1, [1; 32])).kind(), WalletTxKind::ClaimUnstake);
}

#[test]
fn the_fee_is_what_is_spent_and_not_sent() {
    let mut t = WalletTx::with_fake_data(9, 2, false, false, "", 3);
    assert_eq!(t.fee(), Some(zats(0)));
    assert_eq!(t.account_value_delta(false), -7);
    t.parts[1].sent_zats = zats(8);
    assert_eq!(t.fee(), Some(zats(1)));
    t.parts[1].sent_zats = zats(10);
    assert_eq!(t.fee(), None);
    t.parts[1].sent_zats = zats(4);
    t.staking_action = Some(StakingAction::create_bond(3, [1; 32], [2; 32]));
    assert_eq!(t.fee(), Some(zats(2)));
    assert_eq!(t.totals(true).sent_zats, zats(7));
    assert_eq!(t.totals(false).sent_zats, zats(4));
    let all = t.totals(true);
    let (spent, sent, recv) =
        (all.spent_zats.into_u64(), all.sent_zats.into_u64(), all.recv_zats.into_u64());
    assert_eq!(spent - recv, t.fee().unwrap().into_u64() + (sent - recv));
}

#[test]
fn a_failed_transaction_reports_the_height_it_had() {
    let t = WalletTx::with_fake_data(1, 0, false, true, "hello", 3);
    assert_eq!(t.status.to_any_fail(), Some(h(3)));
    assert!(!t.is_on_bc());
    let t = WalletTx { h: h(9), ..t };
    assert_eq!(t.reported_height(), h(3));
    assert_eq!(&t.memo[..6], b"hello\0");
    assert_eq!(t.memo_count, 1);
    assert_eq!(WalletTx::with_fake_data(1, 0, false, false, "", 0).h, h(MEMPOOL));
    assert_eq!(WalletTx::with_fake_data(1, 0, false, false, "", 4).reported_height(), h(4));
    assert_eq!(WalletTx::empty().h, h(INVALID));
    assert!(memo_is_empty(&blank_memo()));
    assert!(!memo_is_empty(&t.memo));
}

#[test]
fn errors_are_cut_to_what_fits() {
    assert_eq!(ErrBuf::from_str("no").to_string(), format!("no{}", "\0".repeat(126)));
    let long = "ä".repeat(100);
    let text = ErrBuf::from_str(&long).to_string();
    assert_eq!(text, "ä".repeat(64));
    let odd = format!("a{long}");
    assert!(ErrBuf::from_str(&odd).to_string().ends_with('\u{fffd}'));
    let fail = TxStatus::HardFail(h(4), ErrBuf::from_str("x"));
    assert_eq!(fail.to_any_fail(), Some(h(4)));
    assert!(TxStatus::OnBc.is_on_bc() && !fail.is_on_bc());
}

#[test]
fn memos_are_padded() {
    let m = memo_from_text("ab").unwrap();
    assert_eq!(&m[..3], b"ab\0");
    assert!(m[2..].iter().all(|b| *b == 0));
    assert!(memo_from_text(&"x".repeat(512)).is_some());
    assert!(memo_from_text(&"x".repeat(513)).is_none());
}

#[test]
fn hashes_are_found_by_height() {
    let mut c = PoWCache::new(0, [0; 32]);
    for i in 1..=3u8 {
        c.push_new_tip(i as u64, [i; 32]);
        assert_eq!(c.hash_at_h(i as u64), Some([i; 32]));
    }
    assert_eq!(c.tip_hash(), [3; 32]);
    assert_eq!(c.hash_at_h(4), None);
    c.push_new_tip(2, [9; 32]);
    assert_eq!((c.next_tip_h, c.tip_hash(), c.hashes.len()), (3, [9; 32], 3));
    truncate_pow_cache_to(&mut c, 1);
    assert_eq!((c.next_tip_h, c.hashes.len()), (2, 2));
    let before = c.hashes.clone();
    truncate_pow_cache_to(&mut c, 1);
    assert_eq!(c.hashes, before);
}

fn anchor(height: u32) -> Anchor {
    Anchor { height, hash: [height as u8; 32], stream_heights: vec![height] }
}

#[test]
fn the_newest_anchors_are_kept() {
    let mut a = AnchorHistory::default();
    for i in 0..40 {
        a.push(anchor(i));
    }
    assert_eq!(a.anchors.len(), 32);
    assert_eq!((a.anchors[0].height, a.anchors[31].height), (8, 39));
    anchors_truncate_above(&mut a, 20);
    assert_eq!(a.anchors.back().unwrap().height, 20);
    assert_eq!(a.anchors.len(), 13);
}

#[test]
fn exactly_the_anchors_above_a_height_go() {
    let mut a = AnchorHistory::default();
    a.push(anchor(10));
    a.push(anchor(5));
    anchors_truncate_above(&mut a, 7);
    assert_eq!(a.anchors.iter().map(|x| x.height).collect::<Vec<u32>>(), [5]);
    for i in [7, 9, 6, 8, 7] {
        a.push(anchor(i));
    }
    anchors_truncate_above(&mut a, 7);
    assert_eq!(a.anchors.iter().map(|x| x.height).collect::<Vec<u32>>(), [5, 7, 6, 7]);
}

#[test]
fn rolling_back_in_two_steps_is_rolling_back_once() {
    let full = || {
        let mut w = wallet();
        let a = &mut w.accounts[0];
        a.recv_orchard_notes = vec![note(1, 5, 0, 10), note(2, 8, 0, 20), note(3, 12, 0, 30)];
        a.unspent_orchard_notes = vec![note(3, 12, 0, 30)];
        a.spent_orchard_notes = vec![note(2, 8, 9, 20), note(1, 5, 11, 10)];
        a.recv_txos = vec![txo(1, 3, 0, 5)];
        a.stxos = vec![txo(1, 3, 11, 5)];
        w.txs.push(tx(1, 5));
        w.txs.push(tx(3, 12));
        w
    };
    let (mut a, mut b) = (full(), full());
    truncate_wallet_to(&mut a, h(10));
    truncate_wallet_to(&mut a, h(8));
    truncate_wallet_to(&mut b, h(8));
    assert_eq!(a.accounts[0].unspent_orchard_notes.len(), 2);
    assert_eq!(format!("{a:?}"), format!("{b:?}"));
}

#[test]
fn the_newest_anchor_on_the_chain_is_looked_for() {
    let mut a = AnchorHistory::default();
    for i in [10, 20, 30] {
        a.push(anchor(i));
    }
    let ok = |x: u8| FetchHashResult::Found([x; 32]);
    let mut w = Walk::start(&a);
    assert_eq!(w.next_height(&a, 40), Some(30));
    w.answer(&a, 40, &ok(99));
    assert_eq!(w.next_height(&a, 40), Some(20));
    w.answer(&a, 40, &ok(20));
    assert_eq!(w.next_height(&a, 40), None);
    assert!(matches!(w.verdict(&a, 40), WalkVerdict::RollBack(1)));
    let mut w = Walk::start(&a);
    while w.next_height(&a, 40).is_some() {
        w.answer(&a, 40, &FetchHashResult::Transient);
    }
    assert!(matches!(w.verdict(&a, 40), WalkVerdict::Keep));
    let mut w = Walk::start(&a);
    while w.next_height(&a, 40).is_some() {
        w.answer(&a, 40, &ok(99));
    }
    assert!(matches!(w.verdict(&a, 40), WalkVerdict::Reset));
    assert!(matches!(fetched_hash(&[7; 32]), FetchHashResult::Found(x) if x == [7; 32]));
    assert!(!matches!(fetched_hash(&[7; 31]), FetchHashResult::Found(_)));
    assert!(needs_walkback(&[1; 32], &ok(2)));
    assert!(!needs_walkback(&[2; 32], &ok(2)));
}

#[test]
fn rolling_back_restores_what_was_unspent() {
    let mut w = wallet();
    let a = &mut w.accounts[0];
    a.recv_orchard_notes = vec![note(1, 5, 0, 10), note(2, 8, 0, 20), note(3, 12, 0, 30)];
    a.unspent_orchard_notes = vec![note(3, 12, 0, 30)];
    a.spent_orchard_notes = vec![note(2, 8, 9, 20), note(1, 5, 11, 10)];
    a.recv_txos = vec![txo(1, 3, 0, 5)];
    a.stxos = vec![txo(1, 3, 11, 5)];
    a.fully_decoded_h = h(12);
    w.chain_tip_h = h(13);
    for (id, at) in [(1, 5), (2, 8), (3, 12)] {
        w.txs.push(tx(id, at));
        w.tx_h_map.insert([id; 32], h(at));
    }
    truncate_wallet_to(&mut w, h(10));
    let a = &w.accounts[0];
    assert_eq!(a.recv_orchard_notes.len(), 2);
    assert_eq!(a.unspent_orchard_notes, [note(1, 5, INVALID, 10)]);
    assert_eq!(a.spent_orchard_notes, [note(2, 8, 9, 20)]);
    assert_eq!(a.utxos, [txo(1, 3, INVALID, 5)]);
    assert!(a.stxos.is_empty());
    assert_eq!(a.fully_decoded_h, h(10));
    assert_eq!(w.chain_tip_h, h(10));
    assert_eq!(w.txs.len(), 2);
    assert_eq!(w.tx_h_map.get(&[3; 32]), None);
    assert_eq!(w.tx_h_map.get(&[2; 32]), Some(h(8)));
    let again = format!("{w:?}");
    truncate_wallet_to(&mut w, h(10));
    assert_eq!(format!("{w:?}"), again);
}

#[test]
fn streams_go_back_to_where_they_were() {
    let mut miner = wallet();
    let mut user = wallet();
    for _ in 0..2 {
        miner.watch(TransparentAddress::PublicKeyHash([1; 20]));
        user.watch(TransparentAddress::ScriptHash([2; 20]));
    }
    restore_stream_heights(&mut miner, &mut user, &[5, 50, 6], 10);
    assert_eq!(miner.strms[0].sync_h, h(5));
    assert_eq!(miner.strms[1].sync_h, h(10));
    assert_eq!(user.strms[0].sync_h, h(6));
}

#[test]
fn a_reorg_takes_back_what_came_from_there_on() {
    let mut w = wallet();
    let a = &mut w.accounts[0];
    a.recv_orchard_notes = vec![note(1, 5, 0, 10), note(3, 10, 0, 30)];
    a.unspent_orchard_notes = vec![note(3, 10, 0, 30)];
    a.spent_orchard_notes = vec![note(1, 5, 11, 10)];
    a.balance_changes = vec![(h(0), zats(0)), (h(10), zats(1))];
    w.chain_tip_h = h(13);
    for (id, at) in [(1, 5), (3, 10)] {
        w.txs.push(tx(id, at));
        w.tx_h_map.insert([id; 32], h(at));
    }
    w.txs.push(WalletTx { h: h(PROPOSED), ..tx(7, 1) });
    w.watch(TransparentAddress::PublicKeyHash([1; 20]));
    w.strms[0].sync_h = h(12);
    take_back_wallet(&mut w, h(10));
    let a = &w.accounts[0];
    assert_eq!(a.recv_orchard_notes, [note(1, 5, 0, 10)]);
    assert_eq!(a.unspent_orchard_notes, [note(1, 5, 0, 10)]);
    assert!(a.spent_orchard_notes.is_empty());
    assert_eq!(a.balance_changes.len(), 1);
    assert_eq!(w.strms[0].sync_h, h(9));
    assert_eq!(w.txs[0].status, TxStatus::OnBc);
    assert_eq!(w.txs[1].status, TxStatus::SoftFail(h(10)));
    assert_eq!(w.txs[1].h, h(13));
    assert_eq!(w.txs[2].h, h(PROPOSED));
    assert_eq!(w.tx_h_map.get(&[3; 32]), Some(h(13)));
    let before = format!("{:?}", w.accounts);
    take_back_wallet(&mut w, h(50));
    assert_eq!(format!("{:?}", w.accounts), before);
}

#[test]
fn transactions_are_entered_by_height_and_merged() {
    let mut w = wallet();
    let mut log = AuditLog::new();
    for (id, at) in [(1, 5), (2, 9), (3, 7)] {
        let mut i = 0;
        update_insert_i(&w.txs, &mut i, h(at));
        update_with_tx(&mut w, tx(id, at), &mut i, &mut log);
    }
    let ids: Vec<u8> = w.txs.iter().map(|t| t.txid[0]).collect();
    assert_eq!(ids, [1, 3, 2]);
    assert_eq!(tx_position(&w, &[3; 32]), Some(1));
    assert_eq!(tx_position(&w, &[4; 32]), None);
    let mut part = WalletTxPart::zero();
    part.spent(zats(4)).unwrap();
    let seen = WalletTx {
        part_flags: TxParts::TRANSPARENT,
        parts: [part, WalletTxPart::zero()],
        ..tx(3, 7)
    };
    let mut i = 0;
    update_insert_i(&w.txs, &mut i, h(7));
    update_with_tx(&mut w, seen, &mut i, &mut log);
    assert_eq!(w.txs.len(), 3);
    let t = &w.txs[tx_position(&w, &[3; 32]).unwrap()];
    assert_eq!(t.parts[0].spent_zats, zats(4));
    assert_eq!(t.parts[1].recv_zats, zats(5));
    assert_eq!(t.part_flags, TxParts::FULL_TX);
    assert!(w.txs.windows(2).all(|p| p[0].h.0 <= p[1].h.0));
}

#[test]
fn a_transaction_that_moves_nothing_is_not_entered() {
    let mut w = wallet();
    let mut i = 0;
    let none = WalletTx::with_fake_data(0, 0, false, false, "", 5);
    update_with_tx(&mut w, none, &mut i, &mut AuditLog::new());
    assert!(w.txs.is_empty());
}

#[test]
fn a_mined_transaction_is_not_put_back() {
    let mut w = wallet();
    let mut log = AuditLog::new();
    let mut i = 0;
    update_with_tx(&mut w, tx(1, 5), &mut i, &mut log);
    let waiting = WalletTx { h: h(MEMPOOL), ..tx(1, 5) };
    let mut i = 1;
    update_with_tx(&mut w, waiting, &mut i, &mut log);
    assert_eq!(w.txs.len(), 1);
    assert_eq!(w.txs[0].h, h(5));
}

#[test]
fn coins_are_put_in_their_order() {
    let mut v = vec![txo(1, 3, 0, 1), txo(2, 5, 0, 1), txo(3, 5, 0, 1)];
    insert_by_height(&mut v, Order::Recv, txo(4, 4, 0, 1));
    insert_by_height(&mut v, Order::Recv, txo(5, 9, 0, 1));
    insert_by_height(&mut v, Order::Recv, txo(6, 1, 0, 1));
    let heights: Vec<u32> = v.iter().map(|t| t.recv_h.0).collect();
    assert_eq!(heights, [1, 3, 4, 5, 5, 9]);
    let id = OutPoint { txid: [3; 32], n: 0 };
    let at = position_of(&v, &id).unwrap();
    assert_eq!(position_at(&v, Order::Recv, h(5), &id), Some(at));
    assert_eq!(position_at(&v, Order::Recv, h(4), &id), None);
    let mut turned = v.clone();
    turned.reverse();
    let sorted = sort_coins(&turned);
    assert!(sorted.windows(2).all(|p| p[0].recv_h.0 <= p[1].recv_h.0));
}

#[test]
fn there_is_room_for_some_more() {
    let mut w = wallet();
    assert!(w.has_room_for(10, 10));
    assert!(w.can_propose(&WalletTx::empty(), 2));
    assert!(!w.has_room_for(0, usize::MAX));
    w.accounts[0].recv_orchard_notes = vec![note(1, 5, 0, MAX_MONEY + 1)];
    assert!(!w.has_room_for(1, 1));
    w.chain_tip_h = h(u32::MAX);
    assert!(!w.can_propose(&WalletTx::empty(), 2));
}

#[test]
fn failed_audits_drop_the_marker_once() {
    let mut w = wallet();
    w.accounts[0].recv_orchard_notes = vec![note(1, 5, 0, 10), note(1, 5, 0, 2)];
    assert_eq!(received_by(&w.accounts, &[1; 32]).recv_zats, zats(12));
    let bad = tx(1, 5);
    let mut log = AuditLog::new();
    assert_eq!(w.audit_tx(&bad, &mut log), None);
    assert_eq!(w.audit_tx(&bad, &mut log), None);
    assert_eq!(w.audit_tx(&bad, &mut log), Some(AuditTrigger::PerTxid));
    assert_eq!(w.audit_tx(&bad, &mut log), None);
    assert_eq!(log.total(), 4);
    assert!(log.marker_dropped);
    let mut good = bad;
    good.parts[1].recv_zats = zats(12);
    good.parts[1].recv_note_count = 2;
    let mut log = AuditLog::new();
    w.txs = vec![good, good];
    w.audit_txs(&mut log);
    assert_eq!(log.total(), 0);
}

#[test]
fn many_different_failures_drop_the_marker_too() {
    let w = wallet();
    let mut log = AuditLog::new();
    let mut first = None;
    for id in 0..200u8 {
        if let Some(t) = w.audit_tx(&tx(id, 5), &mut log) {
            first = Some((id, t));
            break;
        }
    }
    assert!(matches!(first, Some((_, AuditTrigger::Total))));
}

#[test]
fn requests_wait_in_their_order() {
    let mut q = StakeQ::new();
    for i in 1..=16 {
        request_stake(&mut q, i, [i as u8; 32]).unwrap();
    }
    assert_eq!(request_stake(&mut q, 1, [0; 32]), Err("stake queue full, come back later"));
    for round in 0..40u64 {
        let p = q.pop().unwrap();
        assert_eq!(p.finalizer[0] as u64, p.amount_zats);
        assert_eq!(p.amount_zats, round % 16 + 1);
        assert!(q.push(PendingStake { ..p }));
    }
    assert_eq!(q.len(), 16);
}

#[test]
fn the_faucet_hears_each_address_once() {
    let mut q = FaucetQ::new();
    let ua = |n: u8| AddressKind::Unified(Some([n; 43]));
    assert_eq!(enqueue_faucet(&mut q, &AddressKind::Invalid), Err("couldn't decode address"));
    assert_eq!(enqueue_faucet(&mut q, &AddressKind::Other), Err("must be an orchard-containing UA"));
    assert_eq!(
        enqueue_faucet(&mut q, &AddressKind::Unified(None)),
        Err("must contain an orchard receiver")
    );
    assert_eq!(enqueue_faucet(&mut q, &ua(1)), Ok(FAUCET_VALUE));
    assert_eq!(
        enqueue_faucet(&mut q, &ua(1)),
        Err("the last request for this address is still pending, come back later")
    );
    for n in 2..=16 {
        enqueue_faucet(&mut q, &ua(n)).unwrap();
    }
    assert_eq!(enqueue_faucet(&mut q, &ua(17)), Err("faucet too busy, come back later"));
    assert_eq!(q.pop(), Some([1; 43]));
    assert_eq!(enqueue_faucet(&mut q, &ua(1)), Ok(FAUCET_VALUE));
}

#[test]
fn actions_wait_once_each() {
    let mut s = WalletState::new();
    s.request_from_faucet();
    s.request_from_faucet();
    s.stake_to_finalizer(5, [1; 32]);
    s.stake_to_finalizer(u64::MAX, [2; 32]);
    s.unstake_from_finalizer([1; 32]);
    s.unstake_from_finalizer([1; 32]);
    s.unstake_from_finalizer([2; 32]);
    s.retarget_bond([1; 32], [3; 32]);
    s.retarget_bond([1; 32], [4; 32]);
    s.claim_bond([1; 32]);
    s.claim_bond([1; 32]);
    s.send_to_address("no address", 5);
    assert_eq!(s.actions_in_flight.len(), 6);
    assert!(s.waiting_for_faucet && s.waiting_for_stake_to_finalizer && !s.waiting_for_send);
    assert!(matches!(s.take_action(), Some(WalletAction::RequestFromFaucet)));
    assert!(matches!(
        s.take_action(),
        Some(WalletAction::StakeToFinalizer(z, to)) if z == zats(5) && to == [1; 32]
    ));
    assert!(matches!(s.take_action(), Some(WalletAction::UnstakeFromFinalizer(k)) if k == [1; 32]));
    assert!(matches!(s.take_action(), Some(WalletAction::UnstakeFromFinalizer(k)) if k == [2; 32]));
    assert!(matches!(s.take_action(), Some(WalletAction::RetargetBond(_, to)) if to == [3; 32]));
    assert!(matches!(s.take_action(), Some(WalletAction::ClaimBond(k)) if k == [1; 32]));
    assert!(s.take_action().is_none());
    s.user_unshielded_funds = 1;
    s.user_shielded_pending_funds = 2;
    s.miner_shielded_pending_funds = 4;
    assert_eq!((s.user_balance(), s.user_pending_balance()), (3, 2));
    assert_eq!((s.miner_balance(), s.miner_pending_balance()), (4, 4));
}

#[test]
fn one_of_the_waiting_stakes_is_taken_up() {
    let mut q = StakeQ::new();
    assert!(q.push(PendingStake { amount_zats: u64::MAX, finalizer: [9; 32] }));
    assert!(q.push(PendingStake { amount_zats: 7, finalizer: [1; 32] }));
    assert!(q.push(PendingStake { amount_zats: 8, finalizer: [2; 32] }));
    let mut s = WalletState::new();
    drain_stakes(&mut StakeQ::new(), &mut s);
    assert!(!s.waiting_for_stake_to_finalizer);
    drain_stakes(&mut q, &mut s);
    assert!(s.waiting_for_stake_to_finalizer);
    assert_eq!(q.len(), 0);
    assert_eq!(s.actions_in_flight.len(), 1);
    assert!(matches!(
        s.take_action(),
        Some(WalletAction::StakeToFinalizer(z, to)) if z == zats(7) && to == [1; 32]
    ));
}

fn staked(id: u8, at: u32, a: StakingAction) -> WalletTx {
    WalletTx { staking_action: Some(a), ..tx(id, at) }
}

#[test]
fn bonds_follow_from_the_transactions() {
    let mut txs = vec![
        staked(1, 1, StakingAction::create_bond(10, [1; 32], [7; 32])),
        staked(2, 2, StakingAction::create_bond(20, [2; 32], [7; 32])),
        staked(3, 3, StakingAction::retarget_bond([1; 32], [8; 32])),
        staked(4, 4, StakingAction::begin_unbonding([2; 32])),
        staked(5, 5, StakingAction::begin_unbonding([3; 32])),
    ];
    let mut lost = staked(6, 6, StakingAction::begin_unbonding([1; 32]));
    lost.status = TxStatus::SoftFail(h(6));
    txs.push(lost);
    let (mut bonded, mut unbonded) = stake_positions(&txs);
    assert_eq!(bonded.len(), 1);
    assert_eq!(unbonded.len(), 2);
    let mut seen = ByteMap::new();
    seen.insert([1; 32], 11);
    seen.insert([3; 32], 33);
    assert_eq!(value_positions(&mut bonded, &seen), 11);
    assert_eq!(value_positions(&mut unbonded, &seen), 53);
    assert_eq!(bonds_to_watch(&bonded, &unbonded), [[1; 32], [2; 32], [3; 32]]);
    txs.push(staked(7, 7, StakingAction::withdraw_bond(20, [2; 32])));
    let (_, unbonded) = stake_positions(&txs);
    assert_eq!(unbonded.len(), 1);
}

#[test]
fn notes_become_spendable_after_some_blocks() {
    let mut a = account();
    a.utxos = vec![txo(1, 3, 0, 5), txo(2, 4, 0, 6)];
    a.unspent_orchard_notes = vec![note(1, 4, 0, 10), note(2, 5, 0, 20), note(3, 9, 0, 40)];
    let f = account_funds(&a, h(10));
    assert_eq!((f.unshielded, f.shielded_spendable, f.shielded_pending), (11, 10, 60));
}

#[test]
fn the_state_is_shown() {
    let miner = wallet();
    let mut user = wallet();
    user.chain_tip_h = h(10);
    user.accounts[0].unspent_orchard_notes = vec![note(1, 4, 0, 10)];
    user.txs = vec![staked(1, 1, StakingAction::create_bond(10, [1; 32], [7; 32]))];
    let mut p = Proposals::new();
    p.faucet.tx = WalletTx { h: h(PROPOSED), ..WalletTx::with_fake_data(9, 2, false, false, "", 1) };
    p.faucet.is_user_faucet = true;
    let mut s = WalletState::new();
    publish(&mut s, &miner, &mut user, &p, h(8));
    assert_eq!(s.user_shielded_spendable_funds, 10);
    assert_eq!((s.wallets_sync_h, s.wallets_tip_h, s.staked_balance), (8, 10, 10));
    assert!(s.waiting_for_faucet && !s.waiting_for_send);
    assert_eq!(s.miner_local_txs.len(), 1);
    assert_eq!(s.user_local_txs.len(), 1);
    assert_eq!(s.user_local_txs[0].parts[1].recv_zats, zats(7));
    assert_eq!(user.care_about_bonds, [[1; 32]]);
    assert_eq!(s.user_txs.len(), 1);
}

#[test]
fn a_proposed_transaction_goes_its_way() {
    let mut w = wallet();
    w.chain_tip_h = h(30);
    let mut log = AuditLog::new();
    let mut p = ProposedTx::empty();
    assert!(matches!(next_step(&mut p), NextStep::Idle));
    p.tx = WalletTx { h: h(PROPOSED), ..WalletTx::with_fake_data(9, 2, false, false, "", 1) };
    assert!(p.is_in_progress());
    assert!(matches!(next_step(&mut p), NextStep::CannotBuild));
    let prep = BuildPrep {
        block_h: 31,
        orchard_anchor: None,
        t_inputs: vec![txo(1, 3, 0, 5)],
        t_outputs: vec![ProposedTransparentOutput {
            dst: TransparentAddress::ScriptHash([5; 20]),
            zats: zats(4),
        }],
        o_inputs: vec![],
        o_outputs: vec![],
        staking_action: Some(StakingAction::begin_unbonding([1; 32])),
    };
    let steps = build_steps(&prep);
    assert_eq!(steps.len(), 3);
    assert!(matches!(steps[0], BuildStep::SpendTransparent(t) if t.value == zats(5)));
    assert!(matches!(steps[1], BuildStep::PayTransparent(_)));
    assert!(matches!(steps[2], BuildStep::Stake(_)));
    p.prep = Some(prep);
    assert!(matches!(next_step(&mut p), NextStep::Build(b) if b.block_h == 31));
    let built = finish_build(&mut w, &mut p, Some(([8; 32], Ok(vec![1, 2]))), &mut log);
    assert_eq!((built.h, built.txid), (h(BUILT), [8; 32]));
    assert!(matches!(next_step(&mut p), NextStep::Send(raw) if raw == [1, 2]));
    let sent = finish_send(&mut w, &mut p, SendOutcome::Taken, &mut log);
    assert_eq!(sent.h, h(SENT));
    assert!(!p.is_in_progress());
    assert_eq!(w.txs.len(), 1);
}

#[test]
fn what_cannot_be_built_or_sent_fails() {
    let mut w = wallet();
    w.chain_tip_h = h(30);
    let mut log = AuditLog::new();
    let proposed = || {
        let mut p = ProposedTx::empty();
        p.tx = WalletTx { h: h(PROPOSED), ..WalletTx::with_fake_data(9, 2, false, false, "", 1) };
        p
    };
    let mut p = proposed();
    let t = finish_build(&mut w, &mut p, None, &mut log);
    assert_eq!(t.status, TxStatus::HardFail(h(PROPOSED), ErrBuf::from_str("failed to build")));
    assert_eq!(t.h, h(30));
    assert!(!p.is_in_progress());
    let mut p = proposed();
    finish_build(&mut w, &mut p, Some(([8; 32], Err("odd".to_string()))), &mut log);
    assert!(matches!(next_step(&mut p), NextStep::Unwritable(e) if e == "odd"));
    let t = finish_send(&mut w, &mut p, SendOutcome::Unwritable("odd".to_string()), &mut log);
    let buf = ErrBuf::from_str("couldn't serialize: odd");
    assert_eq!(t.status, TxStatus::HardFail(h(BUILT), buf));
    let mut p = proposed();
    finish_build(&mut w, &mut p, Some(([9; 32], Ok(vec![]))), &mut log);
    let t = finish_send(&mut w, &mut p, SendOutcome::Refused, &mut log);
    assert_eq!((t.status, t.h), (TxStatus::SoftFail(h(BUILT)), h(30)));
    let t = finish_send(&mut w, &mut p, SendOutcome::Lost, &mut log);
    assert_eq!(t.h, h(INVALID));
}

#[test]
fn the_user_sees_what_the_faucet_sends() {
    let t = WalletTx { txid: [3; 32], ..WalletTx::with_fake_data(9, 2, false, false, "", 1) };
    let v = user_view_of_faucet_tx(&t);
    assert_eq!(v.parts[1].recv_zats, zats(7));
    assert_eq!(v.parts[1].spent_zats, zats(0));
    let mut w = wallet();
    let mut p = ProposedTx::empty();
    enter_faucet_tx(&mut w, &p, &t, &mut AuditLog::new());
    assert!(w.txs.is_empty());
    p.is_user_faucet = true;
    enter_faucet_tx(&mut w, &p, &t, &mut AuditLog::new());
    assert_eq!(w.txs.len(), 1);
}

#[test]
fn heights_of_raw_transactions() {
    assert_eq!(bc_h_from_raw_tx_h(u64::MAX), Some(None));
    assert_eq!(bc_h_from_raw_tx_h(1 << 32), None);
    assert_eq!(bc_h_from_raw_tx_h(0), Some(Some(h(MEMPOOL))));
    assert_eq!(bc_h_from_raw_tx_h(7), Some(Some(h(7))));
    assert_eq!(downloaded_height(u64::MAX, h(4)), Some(h(4)));
    assert_eq!(downloaded_height(5, h(4)), Some(h(5)));
    assert_eq!(downloaded_height(1 << 33, h(4)), None);
    assert_eq!(rules_height(h(4), h(9)), 4);
    assert_eq!(rules_height(h(MEMPOOL), h(9)), 9);
}

#[test]
fn what_is_asked_for() {
    assert_eq!(block_request(10), (11, 74));
    assert_eq!(t_request(h(10), 50), (1, 50));
    assert_eq!(t_request(h(100), 500), (36, 164));
    assert_eq!(next_stream_height(h(10), 50, None), h(50));
    assert_eq!(next_stream_height(h(60), 50, None), h(60));
    assert_eq!(next_stream_height(h(10), 50, Some(20)), h(19));
    assert_eq!(next_stream_height(h(10), 50, Some(0)), h(10));
    assert_eq!(failed_behind(&vec![]), 0);
    assert_eq!(failed_behind(&vec![RawTx { height: 8, readable: true }]), 9);
}

#[test]
fn transparent_transactions_are_taken_up_to_the_first_that_fails() {
    let raw = |height, readable| RawTx { height, readable };
    let mut list = vec![];
    let all = vec![raw(3, true), raw(u64::MAX, true), raw(5, true), raw(5, false), raw(6, true)];
    assert_eq!(take_t_txs(&mut list, &all, 9, 0, 1), Some(5));
    assert_eq!(list.len(), 1);
    assert_eq!((list[0].h, list[0].tx_i, list[0].strm_i), (h(3), 0, 1));
    let all = vec![raw(4, true), raw(10, true), raw(5, true)];
    assert_eq!(take_t_txs(&mut list, &all, 9, 1, 0), None);
    assert_eq!(list.len(), 2);
    let all = vec![raw(0, true), raw(5, true)];
    assert_eq!(take_t_txs(&mut list, &all, 9, 1, 0), None);
    assert_eq!(list.len(), 2);
}

#[test]
fn no_transaction_is_asked_for_twice() {
    let mut known = tx(1, 1);
    known.part_flags = TxParts::SHIELDED_RECV;
    let mut gone = tx(2, 1);
    gone.part_flags = TxParts::SHIELDED_RECV;
    gone.status = TxStatus::SoftFail(h(1));
    let full = tx(3, 1);
    let mut ids = vec![];
    request_txs(&mut ids, &vec![known, gone, full, known]);
    assert_eq!(ids, [[1; 32]]);
    request_txs(&mut ids, &vec![known]);
    assert_eq!(ids.len(), 1);
    let many: Vec<WalletTx> = (2..=100).map(|i| WalletTx { txid: [i; 32], ..known }).collect();
    request_txs(&mut ids, &many);
    assert_eq!(ids.len(), 64);
    request_done(&mut ids, &[1; 32]);
    assert_eq!(ids.len(), 63);
    request_done(&mut ids, &[1; 32]);
    assert_eq!(ids.len(), 63);
}

#[test]
fn the_log_of_notes_is_kept_by_transaction() {
    let mut log = NoteLog::new();
    assert_eq!(log.get_expected("user", &[1; 32]), None);
    let (i, seq) = log.get_or_new("user", &[1; 32]);
    assert_eq!((i, seq), (0, 1));
    log.record(
        i,
        DevNoteAction {
            seq,
            action_h: h(3),
            kind: DevNoteActionKind::Recv,
            note: DevNote::OrchardNote(note(1, 3, 0, 5)),
            tip_h: h(9),
        },
    );
    assert_eq!(log.get_or_new("miner", &[1; 32]), (1, 2));
    assert_eq!(log.get_expected("user", &[1; 32]), Some((0, 3)));
    assert_eq!(log.entries[0].actions.len(), 1);
    assert_eq!(log.next_seq, 4);
}

#[test]
fn a_wallet_in_short() {
    let mut w = wallet();
    w.accounts[0].fully_decoded_h = h(7);
    w.accounts[0].balance_changes.push((h(5), zats(12)));
    w.chain_tip_h = h(9);
    let s = w.get_wallet_summary();
    assert_eq!(s.account_balances, [zats(12)]);
    assert_eq!((s.chain_tip_h, s.fully_scanned_h), (h(9), h(0)));
    assert_eq!(w.chain_height(), h(9));
    assert_eq!((w.fully_detected_height(), w.fully_decoded_height()), (h(0), h(0)));
}

fn outputs(n: usize) -> Vec<ProposedTransparentOutput> {
    (0..n)
        .map(|_| ProposedTransparentOutput {
            dst: TransparentAddress::PublicKeyHash([5; 20]),
            zats: zats(4),
        })
        .collect()
}

#[test]
fn fees_are_those_of_the_actions() {
    assert_eq!(fee_required(1, &outputs(1), 0, 0), Some(10_000));
    assert_eq!(fee_required(3, &outputs(1), 0, 0), Some(15_000));
    assert_eq!(fee_required(0, &vec![], 1, 1), Some(10_000));
    assert_eq!(fee_required(1, &outputs(1), 3, 2), Some(20_000));
    let mut last = 0;
    for n in 0..6 {
        let fee = fee_required(n, &outputs(1), n, 1).unwrap();
        assert!(fee >= last);
        last = fee;
    }
}

fn key_less() -> PreparedKeys {
    PreparedKeys::from_ufvk_all(NetworkType::Test, "no key")
}

#[test]
fn spends_of_transparent_outputs_are_read() {
    let mut w = wallet();
    w.accounts[0].recv_txos = vec![txo(1, 3, 0, 50)];
    w.accounts[0].utxos = vec![txo(1, 3, 0, 50)];
    w.tx_h_map.insert([1; 32], h(3));
    let full = FullTx {
        txid: [9; 32],
        expiry_height: 100,
        transparent: Some(TransparentBundle {
            is_coinbase: false,
            vin: vec![OutPoint { txid: [1; 32], n: 0 }],
            vout: vec![TxOut { value: zats(40), script: vec![0x51] }],
        }),
        actions: vec![],
        staking_action: None,
    };
    let mut i = 0;
    let r = read_full_tx(
        &mut w,
        NetworkType::Test,
        0,
        &key_less(),
        h(6),
        &full,
        &mut i,
        TxStatus::OnBc,
        &mut AuditLog::new(),
    );
    assert_eq!(r, Some(()));
    let a = &w.accounts[0];
    assert!(a.utxos.is_empty());
    assert_eq!(a.stxos, [txo(1, 3, 6, 50)]);
    assert_eq!(w.txs.len(), 1);
    let t = &w.txs[0];
    assert_eq!((t.parts[0].spent_zats, t.parts[0].sent_zats), (zats(50), zats(40)));
    assert_eq!((t.h, t.expiry_h, t.part_flags), (h(6), Some(h(100)), TxParts::FULL_TX));
    assert_eq!(t.fee(), Some(zats(10)));
}

#[test]
fn an_output_pays_to_its_address() {
    let t = txo(1, 3, 0, 50);
    let out = t.txout();
    assert_eq!(out.value, zats(50));
    assert_eq!(out.script.len(), 25);
    assert_eq!(crosslink::addresses::recipient(&out.script), Some(t.t_addr));
    let s = Txo { t_addr: TransparentAddress::ScriptHash([7; 20]), ..t };
    assert_eq!(s.txout().script.len(), 23);
    assert_eq!(crosslink::addresses::recipient(&s.txout().script), Some(s.t_addr));
    assert_eq!(crosslink::addresses::recipient(&[0x51]), None);
    assert_eq!(t.txid(), [1; 32]);
}

#[test]
fn a_note_is_only_ever_completed() {
    let mut n = OrchardNote { position: u64::MAX, ..note(1, 3, 0, 5) };
    n.monotonically_update(&note(1, 3, 0, 5));
    assert_eq!(n.position, 1);
    assert_eq!(n.value(), zats(5));
    assert!(n.same(&note(1, 3, 0, 5)));
    let ua = UnifiedAddress { text: "u".to_string(), orchard: None };
    assert!(ua.orchard.is_none());
}
