use crosslink::bft::{
    call_from_state_to_crosslink_to_ask_about_fat_pointers, fat_pointer_for,
    fat_pointer_to_block_at_height, get_historical_bft_block_at_height, BftBlock,
    FatPointerSignature, FatPointerToBftBlock,
};
use crosslink::block_seq::BlockSequence;
use crosslink::byte_map::ByteMap;
use crosslink::decide::{
    check_bft_block, complete_proposal, finality_candidate, validate_bft_block, TMStatus,
    TMStatusReason,
};
use crosslink::hardfork::{
    namespace_for_bft_height, namespace_input, scheduled_hardforks, terminated_finalizers_at,
    HardForkConfig,
};
use crosslink::issuance::{bonds_value, complete_scan, FoundBond, ScanInfo};
use crosslink::node_key::{
    bft_key_seed, finalizer_address, local_address, node_keys, peer_text,
    rng_private_public_key_from_address,
};
use crosslink::recency::{
    finalizer_statuses, recency_status, Attendance, RoundVotes, TMStep, Viewpoint, VoteCounts,
};
use crosslink::roster::read_roster;
use crosslink::service::{
    finality_gap, needs_best_hash, tfl_block_finality_from_height_hash, tx_finality, Answer, Config,
    Facts, FinalityGap, TFLBlockFinality, TFLServiceError, TFLServiceInternal, TFLServiceRequest,
    TFLServiceResponse,
};
use crosslink::store::{decision_record, read_tail, Decision, Replay};
use crosslink::voters::{roster_at, tenderlink_roster_from_internal, RosterMember};
use rand::SeedableRng;
use std::hash::Hasher;

fn hash(n: u8) -> [u8; 32] {
    [n; 32]
}

fn pointer(n: u8) -> FatPointerToBftBlock {
    FatPointerToBftBlock {
        points_at: hash(n),
        height_round: [0; 12],
        signatures: vec![FatPointerSignature { pub_key: hash(0xf0), vote_signature: [n; 64] }],
    }
}

fn fork(at: u64, from: u64, gone: &[u8], byte: u8) -> HardForkConfig {
    HardForkConfig {
        bft_certificate_height: at,
        pow_activation_height: from,
        terminated_finalizers: gone.iter().map(|g| hash(*g)).collect(),
        bytes: vec![byte],
    }
}

/// The block at a height: its hash is one above its height.
fn block(height: u32, not_before: u64) -> BftBlock {
    BftBlock {
        version: 2,
        height,
        previous_block_fat_ptr: if height == 0 {
            FatPointerToBftBlock::null()
        } else {
            pointer(height as u8)
        },
        headers: vec![hash(0x80 + height as u8)],
        hardforks: vec![],
        do_not_include_until_bc_height: not_before,
        hash: hash(height as u8 + 1),
    }
}

fn member(key: u8, power: u64) -> RosterMember {
    RosterMember { pub_key: hash(key), voting_power: power, txids: vec![] }
}

#[test]
fn pointers_that_go_back_are_refused() {
    let ask = call_from_state_to_crosslink_to_ask_about_fat_pointers;
    let blocks = vec![block(0, 0), block(1, 0), block(2, 100)];
    let null = FatPointerToBftBlock::null();
    assert_eq!(ask(&blocks, &pointer(1), &null, 5), Some(false));
    assert_eq!(ask(&blocks, &null, &null, 5), Some(true));
    assert_eq!(ask(&blocks, &null, &pointer(2), 5), Some(true));
    assert_eq!(ask(&blocks, &pointer(2), &pointer(2), 5), Some(true));
    assert_eq!(ask(&blocks, &pointer(1), &pointer(2), 5), Some(true));
    assert_eq!(ask(&blocks, &pointer(2), &pointer(1), 5), Some(false));
}

#[test]
fn pointers_to_unknown_blocks_are_deferred() {
    let ask = call_from_state_to_crosslink_to_ask_about_fat_pointers;
    let blocks = vec![block(0, 0)];
    assert_eq!(ask(&blocks, &pointer(1), &pointer(9), 5), None);
    assert_eq!(ask(&blocks, &pointer(9), &pointer(1), 5), None);
}

#[test]
fn pointers_before_their_height_are_refused() {
    let ask = call_from_state_to_crosslink_to_ask_about_fat_pointers;
    let blocks = vec![block(0, 0), block(1, 100)];
    assert_eq!(ask(&blocks, &pointer(1), &pointer(2), 99), Some(false));
    assert_eq!(ask(&blocks, &pointer(1), &pointer(2), 100), Some(true));
}

#[test]
fn a_verdict_stays_when_blocks_come() {
    let ask = call_from_state_to_crosslink_to_ask_about_fat_pointers;
    let mut blocks = vec![block(0, 0), block(1, 7)];
    let before: Vec<Option<bool>> = (1..=2)
        .flat_map(|p| (1..=2).map(move |c| (p, c)))
        .map(|(p, c)| ask(&blocks, &pointer(p), &pointer(c), 7))
        .collect();
    blocks.push(block(2, 7));
    blocks.push(block(3, 8));
    let after: Vec<Option<bool>> = (1..=2)
        .flat_map(|p| (1..=2).map(move |c| (p, c)))
        .map(|(p, c)| ask(&blocks, &pointer(p), &pointer(c), 7))
        .collect();
    assert_eq!(before, after);
    assert!(before.iter().all(|v| v.is_some()));
}

#[test]
fn pointers_are_found_by_height() {
    let blocks = vec![block(0, 0), block(1, 0)];
    let tip = pointer(2);
    assert!(fat_pointer_to_block_at_height(&blocks, &tip, 0).is_none());
    assert_eq!(fat_pointer_to_block_at_height(&blocks, &tip, 1).unwrap().points_at, hash(1));
    assert_eq!(fat_pointer_to_block_at_height(&blocks, &tip, 2).unwrap().points_at, hash(2));
    assert!(fat_pointer_to_block_at_height(&blocks, &tip, 3).is_none());
    let (b, p) = get_historical_bft_block_at_height(&blocks, &tip, 1).unwrap();
    assert_eq!((b.height, p.points_at_block_hash()), (0, hash(1)));
    assert!(get_historical_bft_block_at_height(&blocks, &tip, 3).is_none());
}

#[test]
fn a_handed_out_pointer_is_the_newest_that_is_allowed() {
    let blocks = vec![block(0, 5), block(1, 10), block(2, 20)];
    let tip = pointer(3);
    assert!(fat_pointer_for(&blocks, &tip, 4).is_null());
    assert_eq!(fat_pointer_for(&blocks, &tip, 5).points_at, hash(1));
    assert_eq!(fat_pointer_for(&blocks, &tip, 19).points_at, hash(2));
    assert_eq!(fat_pointer_for(&blocks, &tip, 20).points_at, hash(3));
    let ask = call_from_state_to_crosslink_to_ask_about_fat_pointers;
    let mut parent = FatPointerToBftBlock::null();
    for h in 0..30 {
        let child = fat_pointer_for(&blocks, &tip, h as u64);
        assert_eq!(ask(&blocks, &parent, &child, h), Some(true));
        parent = child;
    }
}

#[test]
fn the_candidate_is_confirmed_and_not_too_far_ahead() {
    assert_eq!(finality_candidate(2, 3, None), None);
    assert_eq!(finality_candidate(3, 3, None), Some(0));
    assert_eq!(finality_candidate(100, 3, None), Some(97));
    assert_eq!(finality_candidate(100, 3, Some(97)), None);
    assert_eq!(finality_candidate(100, 3, Some(96)), Some(97));
    assert_eq!(finality_candidate(100, 3, Some(50)), Some(90));
    assert_eq!(finality_candidate(u32::MAX, 3, Some(u32::MAX)), None);
}

#[test]
fn a_proposal_carries_what_is_scheduled_and_passes() {
    let blocks = vec![block(0, 3)];
    let tip = pointer(1);
    let forks = vec![fork(1, 50, &[], 0xaa), fork(1, 60, &[], 0xbb), fork(2, 70, &[], 0xcc)];
    let headers = || vec![hash(0x81), hash(0x82), hash(0x83)];
    let b = complete_proposal(headers(), 2, &blocks, &tip, &forks).with_hash(hash(9));
    assert_eq!((b.version, b.do_not_include_until_bc_height), (2, 60));
    assert_eq!((b.height, b.headers.len(), b.hash), (1, 2, hash(9)));
    assert_eq!(b.headers, [hash(0x81), hash(0x82)]);
    assert_eq!(b.previous_block_fat_ptr.points_at, tip.points_at);
    assert_eq!(b.previous_block_fat_ptr.signatures, tip.signatures);
    assert_eq!(b.hardforks.iter().map(|f| f.bytes[0]).collect::<Vec<u8>>(), [0xaa, 0xbb]);
    assert!(check_bft_block(&b, &blocks, &tip, &forks));
    let plain = complete_proposal(headers(), 5, &blocks, &tip, &vec![]).with_hash(hash(9));
    assert_eq!(plain.headers, headers());
    assert_eq!((plain.hardforks.len(), plain.do_not_include_until_bc_height), (0, 3));
    assert!(check_bft_block(&plain, &blocks, &tip, &vec![]));
}

#[test]
fn a_block_is_judged() {
    let blocks = vec![block(0, 3)];
    let tip = pointer(1);
    let none = vec![];
    let good = block(1, 3);
    assert_eq!(
        validate_bft_block(&good, &blocks, &tip, &none, Some(9)),
        (TMStatus::Pass, TMStatusReason::NoReason)
    );
    assert_eq!(
        validate_bft_block(&good, &blocks, &tip, &none, None),
        (TMStatus::Indeterminate, TMStatusReason::NeedsBlock { hash: hash(0x81) })
    );
    let fail = (TMStatus::Fail, TMStatusReason::NoReason);
    let mut b = block(1, 3);
    b.previous_block_fat_ptr = pointer(7);
    b.headers.clear();
    assert_eq!(validate_bft_block(&b, &blocks, &tip, &none, Some(9)), fail);
    let mut b = block(1, 3);
    b.height = 2;
    assert_eq!(validate_bft_block(&b, &blocks, &tip, &none, Some(9)), fail);
    let mut b = block(1, 3);
    b.version = 1;
    assert_eq!(validate_bft_block(&b, &blocks, &tip, &none, Some(9)), fail);
    assert_eq!(validate_bft_block(&block(1, 2), &blocks, &tip, &none, Some(9)), fail);
    let mut b = block(1, 3);
    b.hardforks = vec![fork(1, 3, &[], 1)];
    assert_eq!(validate_bft_block(&b, &blocks, &tip, &none, Some(9)), fail);
    let scheduled = vec![fork(1, 8, &[], 1)];
    assert_eq!(validate_bft_block(&b, &blocks, &tip, &scheduled, Some(9)), fail);
    b.do_not_include_until_bc_height = 8;
    assert_eq!(
        validate_bft_block(&b, &blocks, &tip, &scheduled, Some(9)),
        (TMStatus::Pass, TMStatusReason::NoReason)
    );
    let early = vec![fork(1, 2, &[], 1)];
    b.do_not_include_until_bc_height = 2;
    assert_eq!(validate_bft_block(&b, &blocks, &tip, &early, Some(9)), fail);
}

#[test]
fn terminated_finalizers_are_out_until_the_fork_is_final() {
    let forks = vec![fork(5, 100, &[1, 2], 0), fork(7, 200, &[2, 3], 0)];
    assert!(terminated_finalizers_at(&forks, 4, 0).is_empty());
    assert_eq!(terminated_finalizers_at(&forks, 5, 0), [hash(1), hash(2)]);
    assert_eq!(terminated_finalizers_at(&forks, 9, 0), [hash(1), hash(2), hash(3)]);
    assert_eq!(terminated_finalizers_at(&forks, 9, 99), [hash(1), hash(2), hash(3)]);
    assert_eq!(terminated_finalizers_at(&forks, 9, 100), [hash(2), hash(3)]);
    assert!(terminated_finalizers_at(&forks, 9, 200).is_empty());
}

#[test]
fn votes_are_separated_by_the_hash_of_the_forks() {
    let forks = vec![fork(5, 100, &[], 0xaa), fork(7, 200, &[], 0xbb)];
    assert_eq!(namespace_for_bft_height(&forks, 4), [0; 32]);
    assert_eq!(namespace_for_bft_height(&forks, 5), *blake3::hash(&[0xaa]).as_bytes());
    assert_eq!(namespace_for_bft_height(&forks, 6), *blake3::hash(&[0xaa]).as_bytes());
    assert_eq!(namespace_for_bft_height(&forks, 7), *blake3::hash(&[0xaa, 0xbb]).as_bytes());
    let mut by_steps = blake3::Hasher::new();
    by_steps.update(&[0xaa]);
    by_steps.update(&[0xbb]);
    assert_eq!(namespace_for_bft_height(&forks, 8), *by_steps.finalize().as_bytes());
    assert_eq!(namespace_for_bft_height(&vec![], 8), [0; 32]);
    assert_eq!(namespace_input(&forks, 7), Some(vec![0xaa, 0xbb]));
    assert_eq!(namespace_input(&forks, 4), None);
    assert_eq!(scheduled_hardforks(&forks, 7).len(), 1);
}

#[test]
fn the_roster_is_sorted_and_summed_up() {
    let vals = vec![member(1, 5), member(2, 9), member(3, 5), member(4, 1)];
    let r = tenderlink_roster_from_internal(&vals, &vec![]);
    let keys: Vec<u8> = r.iter().map(|m| m.pub_key[0]).collect();
    assert_eq!(keys, [2, 3, 1, 4]);
    assert_eq!(r.iter().map(|m| m.cumulative_stake).collect::<Vec<u64>>(), [9, 14, 19, 20]);
    let mut turned = vals;
    turned.reverse();
    assert_eq!(tenderlink_roster_from_internal(&turned, &vec![]), r);
}

#[test]
fn those_who_are_terminated_do_not_vote() {
    let vals = vec![member(1, 5), member(2, 9)];
    let r = tenderlink_roster_from_internal(&vals, &vec![hash(2)]);
    assert_eq!(r.len(), 1);
    assert_eq!((r[0].pub_key, r[0].stake, r[0].cumulative_stake), (hash(1), 5, 5));
    let forks = vec![fork(3, 50, &[1], 0)];
    assert_eq!(roster_at(&vals, &forks, 2, 10).len(), 2);
    assert_eq!(roster_at(&vals, &forks, 3, 10).len(), 1);
    assert_eq!(roster_at(&vals, &forks, 3, 50).len(), 2);
}

#[test]
fn what_was_recorded_is_read_back() {
    let mut m = member(7, 70);
    m.txids = vec![(hash(1), 30), (hash(2), 40)];
    let roster = vec![m, member(8, 80)];
    let sigs = vec![[3u8; 64], [4u8; 64]];
    let record = decision_record(b"block", b"pointer", &roster, &sigs);
    assert_eq!(&record[..12], b"blockpointer");
    assert_eq!(record.len(), 12 + 8 + (48 + 80) + 48 + 8 + 128);
    let mut tail = record[12..].to_vec();
    tail.extend_from_slice(&[9, 9, 9]);
    let (r, s, left) = read_tail(&tail).unwrap();
    assert_eq!(left, 3);
    assert_eq!(s, sigs);
    assert_eq!((r[0].pub_key, r[0].voting_power), (hash(7), 70));
    assert_eq!(r[0].txids, [(hash(1), 30), (hash(2), 40)]);
    assert_eq!((r[1].pub_key, r[1].voting_power), (hash(8), 80));
    for n in 0..record.len() - 12 {
        assert!(read_tail(&record[12..12 + n]).is_none());
    }
}

#[test]
fn the_network_s_roster_is_read() {
    let mut bytes = vec![7u8; 32];
    bytes.extend_from_slice(&70u64.to_le_bytes());
    bytes.extend_from_slice(&1u64.to_le_bytes());
    bytes.extend_from_slice(&[9u8; 32]);
    bytes.extend_from_slice(&70u64.to_le_bytes());
    bytes.extend_from_slice(&[8u8; 32]);
    bytes.extend_from_slice(&5u64.to_le_bytes());
    bytes.extend_from_slice(&0u64.to_le_bytes());
    let r = read_roster(&bytes).unwrap();
    assert_eq!(r.len(), 2);
    assert_eq!((r[0].pub_key, r[0].voting_power), (hash(7), 70));
    assert_eq!(r[0].txids, [(hash(9), 70)]);
    assert_eq!((r[1].pub_key, r[1].voting_power, r[1].txids.len()), (hash(8), 5, 0));
    assert!(read_roster(&[]).is_none());
    assert!(read_roster(&bytes[..bytes.len() - 1]).is_none());
}

fn decision(height: u32, roster: Vec<RosterMember>) -> Decision {
    Decision {
        block: block(height, 0),
        fat_pointer: pointer(height as u8 + 1),
        roster,
        proposal_sigs: vec![[1; 64]],
        proposal: vec![height as u8],
        round: 4,
    }
}

#[test]
fn decided_blocks_are_replayed_in_order() {
    let mut r = Replay::new(vec![member(0xf0, 5), member(2, 9)]);
    let forks = vec![fork(1, 100, &[2], 0xaa)];
    assert!(r.take(&forks, decision(0, vec![member(2, 9), member(3, 1)]), 10));
    assert!(!r.take(&forks, decision(2, vec![]), 10));
    assert!(r.take(&forks, decision(1, vec![member(5, 5)]), 11));
    assert_eq!(r.rounds.len(), 2);
    let first = &r.rounds[0];
    assert_eq!((first.height, first.round, first.precommits, first.yes_precommits), (0, 4, 1, 1));
    assert_eq!(first.roster[1].pub_key, hash(0xf0));
    assert_eq!(first.votes[0], [0; 64]);
    assert_eq!(first.votes[1], [1; 64]);
    assert_eq!(first.proposal_id, hash(1));
    assert_eq!(first.vote_namespace, [0; 32]);
    let second = &r.rounds[1];
    assert_eq!(second.roster.len(), 1);
    assert_eq!(second.roster[0].pub_key, hash(3));
    assert_eq!(second.vote_namespace, *blake3::hash(&[0xaa]).as_bytes());
    assert_eq!(r.roster[0].pub_key, hash(5));
    assert_eq!(r.final_hash(), Some(hash(0x81)));
    assert_eq!(r.settle(Some(33), vec![]), Some((33, hash(0x81))));
    assert_eq!(r.bft_blocks.len(), 2);
}

#[test]
fn a_chain_without_its_final_block_is_dropped() {
    let mut r = Replay::new(vec![member(1, 5)]);
    assert_eq!(r.settle(None, vec![]), None);
    assert_eq!(r.roster.len(), 1);
    assert!(r.take(&vec![], decision(0, vec![]), 0));
    assert_eq!(r.settle(None, vec![member(9, 9)]), None);
    assert!(r.rounds.is_empty() && r.bft_blocks.is_empty() && r.fat_pointer_to_tip.is_null());
    assert_eq!(r.roster[0].pub_key, hash(9));
}

#[test]
fn a_decided_block_becomes_the_tip() {
    let mut s = TFLServiceInternal::new(hash(0xee), vec![member(1, 1)]);
    s.take_decided_block(block(0, 0), pointer(1), 40, &vec![]);
    assert_eq!(s.latest_final_block, Some((40, hash(0x80))));
    s.take_stakes(&vec![]);
    assert_eq!(s.finalizers_at_current_height[0].voting_power, 1);
    s.take_stakes(&vec![(hash(2), 8), (hash(3), 9)]);
    let forks = vec![fork(1, 100, &[3], 0)];
    let r = s.next_roster(&forks, 40);
    assert_eq!(r.len(), 1);
    assert_eq!((r[0].pub_key, r[0].stake), (hash(2), 8));
    s.take_decided_block(block(1, 0), pointer(2), 41, &vec![]);
    assert_eq!(s.bft_blocks.len(), 2);
    assert_eq!(s.fat_pointer_to_tip.points_at, hash(2));
}

#[test]
fn the_service_starts_with_a_replayed_chain() {
    let mut s = TFLServiceInternal::new(hash(0xee), vec![member(1, 1)]);
    let mut r = Replay::new(vec![member(1, 1)]);
    assert!(r.take(&vec![], decision(0, vec![member(4, 4)]), 0));
    let at = r.settle(Some(12), vec![]);
    s.start_with(r, at);
    assert_eq!(s.latest_final_block, Some((12, hash(0x80))));
    assert_eq!(s.current_bc_final, Some((12, hash(0x80))));
    assert_eq!(s.finalizers_at_current_height[0].pub_key, hash(4));
    let mut s = TFLServiceInternal::new(hash(0xee), vec![]);
    s.start_with(Replay::new(vec![]), Some((3, [0; 32])));
    assert_eq!(s.latest_final_block, None);
}

fn facts() -> Facts {
    Facts {
        reorg_final: Some((10, hash(0xa))),
        height_of_hash: Some(20),
        best_hash: Ok(hash(0xb)),
        tx_height: Some(9),
    }
}

#[test]
fn requests_are_answered() {
    let mut s = TFLServiceInternal::new(hash(0xee), vec![member(1, 5)]);
    let reply = |s: &mut TFLServiceInternal, q: TFLServiceRequest| match s.answer(&q, &facts()) {
        Answer::Reply(r) => r,
        other => panic!("{other:?}"),
    };
    assert!(matches!(
        reply(&mut s, TFLServiceRequest::IsTFLActivated),
        TFLServiceResponse::IsTFLActivated(false)
    ));
    assert!(matches!(
        reply(&mut s, TFLServiceRequest::SetFinalBlockHash(hash(0xc))),
        TFLServiceResponse::SetFinalBlockHash(None)
    ));
    assert!(s.activate(None));
    assert!(!s.tfl_is_activated);
    assert!(s.activate(Some(0)));
    assert!(s.tfl_is_activated);
    let TFLServiceResponse::FinalBlockHeightHash(f) =
        reply(&mut s, TFLServiceRequest::FinalBlockHeightHash)
    else {
        panic!()
    };
    assert_eq!(f, Some((10, hash(0xa))));
    let ask = |s: &mut TFLServiceInternal, h: u32, b: u8| {
        match reply(s, TFLServiceRequest::BlockFinalityStatus(h, hash(b))) {
            TFLServiceResponse::BlockFinalityStatus(Some(v)) => v,
            other => panic!("{other:?}"),
        }
    };
    assert_eq!(ask(&mut s, 11, 0xb), TFLBlockFinality::NotYetFinalized);
    assert_eq!(ask(&mut s, 10, 0xa), TFLBlockFinality::Finalized);
    assert_eq!(ask(&mut s, 10, 0xb), TFLBlockFinality::CantBeFinalized);
    assert_eq!(ask(&mut s, 9, 0xb), TFLBlockFinality::Finalized);
    assert_eq!(ask(&mut s, 9, 0xc), TFLBlockFinality::CantBeFinalized);
    assert!(matches!(
        reply(&mut s, TFLServiceRequest::TxFinalityStatus(hash(1))),
        TFLServiceResponse::TxFinalityStatus(Some(TFLBlockFinality::Finalized))
    ));
    assert!(matches!(
        reply(&mut s, TFLServiceRequest::SetFinalBlockHash(hash(0xc))),
        TFLServiceResponse::SetFinalBlockHash(Some(20))
    ));
    assert_eq!(s.latest_final_block, Some((20, hash(0xc))));
    let TFLServiceResponse::Roster(r) = reply(&mut s, TFLServiceRequest::Roster) else { panic!() };
    assert_eq!((r[0].pub_key, r[0].voting_power), (hash(1), 5));
    let TFLServiceResponse::FatPointerToBFTChainTip(p) =
        reply(&mut s, TFLServiceRequest::FatPointerToBFTChainTip(7))
    else {
        panic!()
    };
    assert!(p.is_null());
    let TFLServiceResponse::FinalizersRecencyStatus(st) =
        reply(&mut s, TFLServiceRequest::FinalizersRecencyStatus)
    else {
        panic!()
    };
    assert!(st.finalizer_statuses.is_empty());
    for q in [
        TFLServiceRequest::FinalBlockRx,
        TFLServiceRequest::WalletUfvk,
        TFLServiceRequest::Faucet(String::new()),
        TFLServiceRequest::StakingCmd(String::new()),
        TFLServiceRequest::TotalIssuanceFromKey(vec![], 0, 1),
    ] {
        assert!(matches!(s.answer(&q, &facts()), Answer::Elsewhere));
    }
}

#[test]
fn without_a_final_block_there_is_no_answer() {
    let none = Err(TFLServiceError::Misc("There is no final block.".to_string()));
    assert_eq!(tfl_block_finality_from_height_hash(None, 3, &hash(1), &Ok(hash(1))), none);
    assert_eq!(tx_finality(None, Some(3)), none);
    assert_eq!(tx_finality(None, None), Ok(None));
    assert_eq!(tx_finality(Some((2, hash(1))), Some(3)), Ok(Some(TFLBlockFinality::NotYetFinalized)));
    assert_eq!(
        tfl_block_finality_from_height_hash(
            Some((9, hash(1))),
            3,
            &hash(1),
            &Err("lost".to_string())
        ),
        Err(TFLServiceError::Misc("lost".to_string()))
    );
    assert!(needs_best_hash(Some((9, hash(1))), 3));
    assert!(!needs_best_hash(Some((9, hash(1))), 9));
    assert!(!needs_best_hash(None, 3));
    assert_eq!(TFLServiceError::NotImplemented.to_text(), "TFLServiceError: NotImplemented");
    assert_eq!(
        TFLServiceError::Misc("a\"b".to_string()).to_text(),
        "TFLServiceError: Misc(\"a\\\"b\")"
    );
}

#[test]
fn a_final_block_is_final_from_then_on() {
    let best = |h: u32| hash(h as u8);
    for h in 0..=5 {
        let early =
            tfl_block_finality_from_height_hash(Some((5, best(5))), h, &best(h), &Ok(best(h)));
        let late =
            tfl_block_finality_from_height_hash(Some((9, best(9))), h, &best(h), &Ok(best(h)));
        assert_eq!(early, Ok(Some(TFLBlockFinality::Finalized)));
        assert_eq!(early, late);
    }
}

#[test]
fn the_gap_between_tip_and_finality() {
    assert_eq!(finality_gap(5, 9), FinalityGap::TipIsBehind(4));
    assert_eq!(finality_gap(512, 0), FinalityGap::Small);
    assert_eq!(finality_gap(513, 0), FinalityGap::FinalityIsBehind(513));
}

#[test]
fn flags_add_up() {
    let mut s = TFLServiceInternal::new(hash(0xee), vec![]);
    s.push_new_bft_msg_flags(1, 0);
    s.push_new_bft_msg_flags(4, 2);
    assert_eq!((s.bft_msg_flags, s.bft_err_flags), (5, 2));
    let c = Config::default();
    assert!(c.public_address.is_none() && c.hardforks.is_empty() && !c.disable_zaino);
}

fn votes(anys: u64, nil: u64, yes: u64, pre: u64, yes_pre: u64) -> VoteCounts {
    VoteCounts {
        anys,
        nil_prevotes: nil,
        yes_prevotes: yes,
        precommits: pre,
        yes_precommits: yes_pre,
    }
}

#[test]
fn votes_at_the_current_height_are_counted() {
    let seen = |key: u8, counts, utc| Attendance {
        pub_key: hash(key),
        counts,
        last_packet_utc: utc,
    };
    let rounds = vec![
        RoundVotes {
            height: 8,
            round: 3,
            members: vec![seen(1, votes(2, 0, 1, 1, 1), Some(50))],
        },
        RoundVotes {
            height: 9,
            round: 1,
            members: vec![
                seen(2, votes(2, 1, 0, 1, 0), Some(70)),
                seen(1, votes(2, 0, 1, 1, 1), None),
            ],
        },
        RoundVotes {
            height: 9,
            round: 2,
            members: vec![seen(1, votes(0, 9, 9, 9, 9), Some(40)), seen(3, votes(1, 0, 1, 0, 0), None)],
        },
    ];
    let v = Viewpoint { my_pub_key: hash(3), now_utc: 99, height: 9 };
    let st = finalizer_statuses(&rounds, &v);
    let keys: Vec<u8> = st.iter().map(|s| s.pub_key[0]).collect();
    assert_eq!(keys, [1, 2, 3]);
    assert_eq!((st[0].yes_prevotes, st[0].yes_precommits, st[0].highest_round_vote), (1, 1, 1));
    assert_eq!(st[0].last_direct_connection_utc, Some(50));
    assert_eq!((st[1].no_prevotes, st[1].no_precommits), (1, 1));
    assert_eq!(st[2].last_direct_connection_utc, Some(99));
    assert_eq!(st[2].highest_round_vote, 2);
    let r = recency_status(&rounds, &v, 2, TMStep::Precommit, -1, 1);
    assert_eq!((r.my_height, r.my_round, r.my_step, r.my_locked_round), (9, 2, 2, -1));
    assert_eq!(r.finalizer_statuses, st);
}

#[test]
fn blocks_are_listed_chunk_by_chunk() {
    let mut s = BlockSequence::begin(Some((10, hash(1))), hash(2), Some(20), true).unwrap();
    assert_eq!(s.next_request(), Some(hash(1)));
    assert!(!s.take_chunk(Some(&vec![hash(9)])));
    assert!(s.take_chunk(Some(&vec![hash(2), hash(3)])));
    assert_eq!(s.next_request(), Some(hash(3)));
    assert!(s.take_chunk(Some(&vec![hash(4)])));
    assert!(s.take_chunk(Some(&vec![])));
    assert_eq!(s.next_request(), None);
    assert_eq!(s.hashes, [(10, hash(2)), (11, hash(3)), (12, hash(4))]);
    let s = BlockSequence::begin(Some((10, hash(1))), hash(2), Some(20), false).unwrap();
    assert_eq!((s.start_height, s.next_request()), (11, Some(hash(2))));
    assert!(BlockSequence::begin(None, hash(2), Some(20), true).is_none());
    assert!(BlockSequence::begin(Some((10, hash(1))), hash(2), None, true).is_none());
    assert!(BlockSequence::begin(Some((10, hash(1))), hash(2), Some(9), true).is_none());
    assert!(BlockSequence::begin(Some((10, hash(1))), hash(2), Some(10), false).is_none());
}

#[test]
fn what_bonds_gained_is_issued() {
    let mut worth = ByteMap::new();
    worth.insert(hash(1), 150);
    worth.insert(hash(2), 70);
    let bonds = vec![
        FoundBond { pk: hash(1), initial_val: 100 },
        FoundBond { pk: hash(2), initial_val: 70 },
    ];
    assert_eq!(bonds_value(&bonds, &worth), Ok(50));
    let mut info = ScanInfo {
        ufvk: String::new(),
        coinbases_value: 7,
        bonds,
        bonds_value: 0,
        total_value: 0,
    };
    assert_eq!(complete_scan(&mut info, &worth), Ok(()));
    assert_eq!((info.bonds_value, info.total_value), (50, 57));
    info.bonds.push(FoundBond { pk: hash(3), initial_val: 1 });
    assert_eq!(complete_scan(&mut info, &worth), Err(2));
}

#[test]
fn a_node_s_key_comes_from_its_address() {
    let (seed, key, public) = rng_private_public_key_from_address(b"127.0.0.1:2000");
    let again = rng_private_public_key_from_address(b"127.0.0.1:2000");
    assert_eq!((seed, key, public), again);
    assert_ne!(seed, rng_private_public_key_from_address(b"127.0.0.1:2001").0);
    let mut hasher = std::collections::hash_map::DefaultHasher::new();
    hasher.write(b"127.0.0.1:2000");
    assert_eq!(seed, hasher.finish());
    let drawn = ed25519_zebra::SigningKey::new(rand::rngs::StdRng::seed_from_u64(seed));
    assert_eq!(key, <[u8; 32]>::from(drawn));
    let signing = ed25519_zebra::SigningKey::from(key);
    let want: [u8; 32] = ed25519_zebra::VerificationKeyBytes::from(&signing).into();
    assert_eq!(public, want);
    assert_ne!(public, key);
    let msg = b"vote";
    let sig = signing.sign(msg);
    let verifier = ed25519_zebra::VerificationKey::try_from(public).unwrap();
    assert!(verifier.verify(&sig, msg).is_ok());
}

#[test]
fn a_node_without_a_set_seed_has_one_made() {
    let mut global = [0u8; 32];
    global[0] = 12;
    let text = bft_key_seed(&None, &global);
    assert_eq!(text, format!("adrheardhed{global:?}"));
    assert_eq!(bft_key_seed(&Some("x".to_string()), &global), "x");
    let (_, key, public) = rng_private_public_key_from_address(text.as_bytes());
    assert_eq!(node_keys(&None, &global), (key, public));
}

#[test]
fn addresses_and_peers_in_words() {
    assert_eq!(local_address(0), "127.0.0.1:2000");
    assert_eq!(local_address(45869), "127.0.0.1:2000");
    assert_eq!(finalizer_address(Some("10.0.0.1:8"), "member"), "10.0.0.1:8");
    let (seed, _, _) = rng_private_public_key_from_address(b"member");
    assert_eq!(finalizer_address(None, "member"), format!("127.0.0.1:{}", seed % 4000));
    assert_eq!(peer_text(None, false, 3), "unknown peer disconnected (3)");
    assert_eq!(peer_text(Some("k"), true, 12), "k connected (12)");
}
