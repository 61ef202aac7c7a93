use crosslink::accounts::ManualWallet;
use crosslink::addresses::{
    addrs_from_ufvk, any_address, default_p2pkh_from_entropy, p2pkh_from_ufvk, p2sh_from_p2pkh,
    string_from_t_addr, stuff_from_seed_phrase, t_addr_belongs_to_account, unified_address,
    AddressKind,
};
use crosslink::anchors::{Anchor, AnchorHistory};
use crosslink::assemble::{build_steps, BuildStep};
use crosslink::audit::AuditLog;
use crosslink::blocks::{accept_blocks, scan_new_blocks, BlockVerdict, CompactBlock};
use crosslink::compact::CompactTx;
use crosslink::full_tx::{read_full_tx, FullTx};
use crosslink::height::{BlockHeight, PROPOSED};
use crosslink::issuance::{begin_scan, block_refusal};
use crosslink::memos::{received_memos, sent_memos};
use crosslink::network::NetworkType;
use crosslink::notes::{Note, OrchardNote, TransparentAddress};
use crosslink::orchard_scan::{CompactOrchardAction, OrchardAction, PreparedKeys};
use crosslink::perform::{
    memo_from_text, perform_action, serve_faucet, shield_is_due, shield_mined, Actors, Proposals,
};
use crosslink::pow_cache::PoWCache;
use crosslink::propose::{ProposedTx, TxOptions, TxOutput, TxPool};
use crosslink::queue::{request_donation, FaucetQ, FAUCET_VALUE};
use crosslink::snapshot::{load, save, Snapshot};
use crosslink::staking::StakingActionKind;
use crosslink::state::{WalletAction, WalletState};
use crosslink::tree::{fresh_tree, shard_tree_size, truncate_orchard_tree_to, OrchardShardTree};
use crosslink::tree_wire::{read_orchard_tree, serialize_orchard_tree, StoredTree};
use crosslink::viewing_key::ufvk_text;
use crosslink::walkback::SyncState;
use crosslink::wallet_tx::{TxStatus, WalletTx};
use crosslink::wire::{
    put_opt_height, put_text, put_u32, put_u64, put_zats, take_blob, take_opt_height, take_text,
    take_u32, take_u64, take_zats, PersistError,
};
use crosslink::zats::Zatoshis;
use rand_core::TryRng;
use std::convert::Infallible;
use zcash_keys::keys::UnifiedSpendingKey;
use zcash_protocol::consensus::Network;

const NET: NetworkType = NetworkType::Test;

/// A generator whose numbers everyone knows.
struct Steps(u64);

impl TryRng for Steps {
    type Error = Infallible;

    fn try_next_u32(&mut self) -> Result<u32, Infallible> {
        Ok(self.try_next_u64()? as u32)
    }

    fn try_next_u64(&mut self) -> Result<u64, Infallible> {
        self.0 = self.0.wrapping_add(0x9e37_79b9_7f4a_7c15);
        let mut z = self.0;
        z = (z ^ (z >> 30)).wrapping_mul(0xbf58_476d_1ce4_e5b9);
        z = (z ^ (z >> 27)).wrapping_mul(0x94d0_49bb_1331_11eb);
        Ok(z ^ (z >> 31))
    }

    fn try_fill_bytes(&mut self, dst: &mut [u8]) -> Result<(), Infallible> {
        for b in dst {
            *b = self.try_next_u64()? as u8;
        }
        Ok(())
    }
}

fn phrase() -> String {
    format!("{}art", "abandon ".repeat(23))
}

fn ufvk_of(net: NetworkType) -> String {
    stuff_from_seed_phrase(net, &phrase()).unwrap().1
}

fn zats(v: u64) -> Zatoshis {
    Zatoshis::from_u64(v).unwrap()
}

fn h(v: u32) -> BlockHeight {
    BlockHeight(v)
}

fn orchard_address(ufvk: &str) -> [u8; 43] {
    addrs_from_ufvk(NET, ufvk, 0).unwrap().2.orchard.unwrap()
}

/// An action that pays a note to an address, with a memo that the payer can read too.
fn paying_action(seed: u64, to: &[u8; 43], value: u64, memo: &str) -> OrchardAction {
    let to = orchard::Address::from_raw_address_bytes(to).unwrap();
    let ufvk = zcash_keys::keys::UnifiedFullViewingKey::decode(
        &Network::TestNetwork,
        &ufvk_of(NET),
    )
    .unwrap();
    let ovk = ufvk.orchard().unwrap().to_ovk(orchard::keys::Scope::External);
    let mut b = orchard::builder::Builder::new(
        orchard::builder::BundleType::DEFAULT,
        orchard::bundle::BundleVersion::orchard_v2(),
        orchard::bundle::Flags::ENABLED,
        orchard::Anchor::empty_tree(),
    )
    .unwrap();
    let value = orchard::value::NoteValue::from_raw(value);
    b.add_output(Some(ovk), to, value, memo_from_text(memo).unwrap()).unwrap();
    let (bundle, meta) = b.build::<i64>(Steps(seed)).unwrap().unwrap();
    let i = meta.output_action_index(0).unwrap();
    let a = &bundle.actions()[i];
    let e = a.encrypted_note();
    OrchardAction {
        nullifier: a.nullifier().to_bytes(),
        rk: a.rk().into(),
        cmx: a.cmx().to_bytes(),
        cv_net: a.cv_net().to_bytes(),
        ephemeral_key: e.epk_bytes,
        enc_ciphertext: e.enc_ciphertext.0,
        out_ciphertext: e.out_ciphertext,
    }
}

fn compact(a: &OrchardAction) -> CompactOrchardAction {
    CompactOrchardAction {
        nullifier: a.nullifier.to_vec(),
        cmx: a.cmx.to_vec(),
        ephemeral_key: a.ephemeral_key.to_vec(),
        ciphertext: a.enc_ciphertext[..52].to_vec(),
    }
}

fn block(height: u64, actions: Vec<CompactOrchardAction>) -> CompactBlock {
    CompactBlock {
        height,
        hash: vec![height as u8; 32],
        prev_hash: vec![height as u8 - 1; 32],
        vtx: vec![CompactTx { hash: vec![0x40 + height as u8; 32], actions }],
    }
}

fn scan_into(
    miner: &mut ManualWallet,
    user: &mut ManualWallet,
    blocks: &Vec<CompactBlock>,
    tree: &mut OrchardShardTree,
) -> Option<bool> {
    let keys = [
        PreparedKeys::from_ufvk_ivks(NET, &miner.accounts[0].ufvk),
        PreparedKeys::from_ufvk_ivks(NET, &user.accounts[0].ufvk),
    ];
    scan_new_blocks(miner, user, &keys[0], &keys[1], blocks, tree, &mut AuditLog::new())
}

/// Two wallets, of which the second has found a note in the second of ten blocks.
fn scanned(value: u64) -> (ManualWallet, ManualWallet, OrchardShardTree) {
    scanned_notes(&[value])
}

/// Two wallets, of which the second has found notes in the second of ten blocks.
fn scanned_notes(values: &[u64]) -> (ManualWallet, ManualWallet, OrchardShardTree) {
    let ufvk = ufvk_of(NET);
    let other = stuff_from_seed_phrase(NET, &format!("{}vote", "zoo ".repeat(23))).unwrap().1;
    let mut miner = ManualWallet::fresh("miner_wallet", other.clone());
    let mut user = ManualWallet::fresh("user_wallet", ufvk.clone());
    let mut actions = vec![compact(&paying_action(8, &orchard_address(&other), 5, ""))];
    for (i, value) in values.iter().enumerate() {
        let a = paying_action(70 + i as u64, &orchard_address(&ufvk), *value, "hi");
        actions.push(compact(&a));
    }
    let mut blocks: Vec<CompactBlock> = (1..=10).map(|i| block(i, vec![])).collect();
    blocks[1] = block(2, actions);
    let mut tree = fresh_tree();
    let ok = scan_into(&mut miner, &mut user, &blocks, &mut tree);
    assert_eq!(ok, Some(true));
    miner.chain_tip_h = h(10);
    user.chain_tip_h = h(10);
    (miner, user, tree)
}

#[test]
fn keys_come_from_the_phrase() {
    let (seed, ufvk) = stuff_from_seed_phrase(NET, &phrase()).unwrap();
    let seed64 = bip39::Mnemonic::parse(&phrase()).unwrap().to_seed("");
    assert_eq!(seed[..], seed64[..32]);
    let usk =
        UnifiedSpendingKey::from_seed(&Network::TestNetwork, &seed, zip32::AccountId::ZERO).unwrap();
    let want = usk.to_unified_full_viewing_key().encode(&Network::TestNetwork).unwrap();
    assert_eq!(ufvk, want);
    assert_ne!(ufvk, ufvk_of(NetworkType::Main));
    assert!(stuff_from_seed_phrase(NET, "no such words").is_none());
}

#[test]
fn viewing_keys_are_read_on_their_network() {
    let ufvk = ufvk_of(NET);
    assert_eq!(ufvk_text(NET, &ufvk), Some(ufvk.clone()));
    assert_eq!(ufvk_text(NetworkType::Main, &ufvk), None);
    assert_eq!(ufvk_text(NET, "uview"), None);
    assert!(PreparedKeys::from_ufvk_all(NET, &ufvk).orchard_fvk.is_some());
    assert!(PreparedKeys::from_ufvk_all(NET, "uview").orchard_fvk.is_none());
    assert!(PreparedKeys::from_ufvk_all(NET, &ufvk).finds_sent);
    assert!(!PreparedKeys::from_ufvk_ivks(NET, &ufvk).finds_sent);
}

#[test]
fn addresses_come_from_the_key() {
    let ufvk = ufvk_of(NET);
    let t = p2pkh_from_ufvk(NET, &ufvk, 0).unwrap();
    assert_eq!(default_p2pkh_from_entropy(NET, &[0; 32]), Some(t));
    assert_ne!(default_p2pkh_from_entropy(NET, &[1; 32]), Some(t));
    assert_ne!(p2pkh_from_ufvk(NET, &ufvk, 1), Some(t));
    let (first, p2sh, ua) = addrs_from_ufvk(NET, &ufvk, 0).unwrap();
    assert_eq!(first, t);
    assert_eq!(p2sh_from_p2pkh(&t).0, p2sh);
    assert!(t_addr_belongs_to_account(NET, &ufvk, &t));
    assert!(t_addr_belongs_to_account(NET, &ufvk, &p2sh));
    let foreign = TransparentAddress::PublicKeyHash([9; 20]);
    assert!(!t_addr_belongs_to_account(NET, &ufvk, &foreign));
    let again = unified_address(NET, &ua.text).unwrap();
    assert_eq!((again.text, again.orchard), (ua.text, ua.orchard));
    assert!(p2pkh_from_ufvk(NET, "uview", 0).is_none());
}

#[test]
fn a_script_hash_is_a_hash_of_hashes() {
    let t = TransparentAddress::PublicKeyHash([3; 20]);
    let (a, script) = p2sh_from_p2pkh(&t);
    let mut want = vec![0x76, 0xa9, 0x14];
    want.extend_from_slice(&[3; 20]);
    want.extend_from_slice(&[0x88, 0xac]);
    assert_eq!(script[..], want);
    let sha = <sha2::Sha256 as sha2::Digest>::digest(&want);
    let hash: [u8; 20] = <ripemd::Ripemd160 as ripemd::Digest>::digest(sha).into();
    assert_eq!(a, TransparentAddress::ScriptHash(hash));
}

#[test]
fn addresses_as_text() {
    let pkh = TransparentAddress::PublicKeyHash([0; 20]);
    let sh = TransparentAddress::ScriptHash([0; 20]);
    assert_eq!(string_from_t_addr(NetworkType::Main, pkh), "t1Hsc1LR8yKnbbe3twRp88p6vFfC5t7DLbs");
    assert!(string_from_t_addr(NET, pkh).starts_with("tm"));
    assert!(string_from_t_addr(NetworkType::Main, sh).starts_with("t3"));
    assert!(string_from_t_addr(NET, sh).starts_with("t2"));
    assert_eq!(any_address(NET, &string_from_t_addr(NET, pkh)), AddressKind::Other);
    assert_eq!(any_address(NET, "nowhere"), AddressKind::Invalid);
    let ua = addrs_from_ufvk(NET, &ufvk_of(NET), 0).unwrap().2;
    assert_eq!(any_address(NET, &ua.text), AddressKind::Unified(ua.orchard));
    assert!(unified_address(NET, &string_from_t_addr(NET, pkh)).is_none());
}

#[test]
fn the_faucet_is_asked_by_address() {
    let ua = addrs_from_ufvk(NET, &ufvk_of(NET), 0).unwrap().2;
    let mut q = FaucetQ::new();
    assert_eq!(request_donation(&mut q, NET, "nowhere"), Err("couldn't decode address"));
    assert_eq!(request_donation(&mut q, NET, &ua.text), Ok(FAUCET_VALUE));
    assert_eq!(q.get(0), ua.orchard);
}

#[test]
fn the_same_payment_waits_once() {
    let ua = addrs_from_ufvk(NET, &ufvk_of(NET), 0).unwrap().2;
    let mut s = WalletState::new();
    s.send_to_address(&ua.text, 5);
    s.send_to_address(&ua.text, 5);
    s.send_to_address(&ua.text, 6);
    s.send_to_address(&ua.text, u64::MAX);
    assert!(s.waiting_for_send);
    assert_eq!(s.actions_in_flight.len(), 2);
}

#[test]
fn issuance_is_looked_for_by_key() {
    let ufvk = ufvk_of(NET);
    let v = begin_scan(NET, &vec![ufvk.clone(), ufvk.clone()]).unwrap();
    assert_eq!(v.len(), 2);
    assert_eq!(v[1].0.ufvk, ufvk);
    assert_eq!(Some(v[1].1), p2pkh_from_ufvk(NET, &ufvk, 0));
    assert!(v[0].0.bonds.is_empty());
    let bad = vec![ufvk, "uview".to_string()];
    assert_eq!(begin_scan(NET, &bad).unwrap_err(), "could not create orchard ovks");
}

fn read(w: &mut ManualWallet, actions: Vec<OrchardAction>, id: u8, at: u32) -> Option<()> {
    let keys = PreparedKeys::from_ufvk_all(NET, &w.accounts[0].ufvk);
    let tx = FullTx {
        txid: [id; 32],
        expiry_height: 0,
        transparent: None,
        actions,
        staking_action: None,
    };
    let mut i = 0;
    read_full_tx(w, NET, 0, &keys, h(at), &tx, &mut i, TxStatus::OnBc, &mut AuditLog::new())
}

#[test]
fn a_note_is_found_and_found_spent() {
    let ufvk = ufvk_of(NET);
    let mut w = ManualWallet::fresh("user", ufvk.clone());
    let a = paying_action(1, &orchard_address(&ufvk), 900, "for you");
    assert_eq!(read(&mut w, vec![a], 1, 5), Some(()));
    let n = w.accounts[0].unspent_orchard_notes[0];
    assert_eq!((n.note.value, n.recv_h, n.txid), (900, h(5), [1; 32]));
    assert_eq!(n.note.recipient, orchard_address(&ufvk));
    assert_ne!(n.nf, a.nullifier);
    assert_eq!(w.txs[0].parts[1].recv_zats, zats(900));
    assert_eq!(&w.txs[0].memo[..8], b"for you\0");
    assert_eq!(read(&mut w, vec![a], 1, 5), Some(()));
    assert_eq!(w.accounts[0].recv_orchard_notes.len(), 1);
    let other = stuff_from_seed_phrase(NET, &format!("{}vote", "zoo ".repeat(23))).unwrap().1;
    let pays = paying_action(2, &orchard_address(&other), 0, "");
    let spend = OrchardAction { nullifier: n.nf, ..pays };
    assert_eq!(read(&mut w, vec![spend], 2, 6), Some(()));
    let acc = &w.accounts[0];
    assert!(acc.unspent_orchard_notes.is_empty());
    assert_eq!(acc.spent_orchard_notes[0].spent_h, h(6));
    assert_eq!(w.txs[1].parts[1].spent_zats, zats(900));
}

#[test]
fn memos_are_collected() {
    let ufvk = ufvk_of(NET);
    let keys = PreparedKeys::from_ufvk_all(NET, &ufvk);
    let other = stuff_from_seed_phrase(NET, &format!("{}vote", "zoo ".repeat(23))).unwrap().1;
    let mine = paying_action(1, &orchard_address(&ufvk), 900, "for you");
    let theirs = paying_action(2, &orchard_address(&other), 900, "for them");
    let got = received_memos(&keys, &vec![mine, theirs]);
    assert_eq!(got.len(), 1);
    assert_eq!(got[0].trim_end_matches('\0'), "for you");
    let sent = sent_memos(&keys, &vec![mine, theirs]);
    assert_eq!(sent.len(), 2);
    assert_eq!(sent[1].trim_end_matches('\0'), "for them");
    let internal = PreparedKeys::from_ufvk_all_internal(NET, &ufvk);
    assert!(received_memos(&internal, &vec![mine]).is_empty());
}

#[test]
fn blocks_are_read_into_both_wallets() {
    let (miner, user, tree) = scanned(1_000_000);
    assert_eq!(shard_tree_size(&tree), 2);
    let n = user.accounts[0].unspent_orchard_notes[0];
    assert_eq!((n.note.value, n.position, n.recv_h), (1_000_000, 1, h(2)));
    let m = miner.accounts[0].unspent_orchard_notes[0];
    assert_eq!((m.note.value, m.position), (5, 0));
    assert_eq!(user.txs[0].txid, [0x42; 32]);
    assert_eq!(user.txs[0].h, h(2));
}

#[test]
fn the_tree_is_cut_and_written() {
    let (_, _, mut tree) = scanned(1_000_000);
    let bytes = serialize_orchard_tree(&tree);
    let again = opened(&bytes);
    assert_eq!(serialize_orchard_tree(&again), bytes);
    assert_eq!(shard_tree_size(&again), 2);
    assert!(truncate_orchard_tree_to(&mut tree, h(5)));
    assert_eq!(shard_tree_size(&tree), 2);
    assert!(truncate_orchard_tree_to(&mut tree, h(1)));
    assert_eq!(shard_tree_size(&tree), 0);
    for n in 0..bytes.len() {
        assert!(read_orchard_tree(&bytes[..n]).is_err());
    }
}

/// The bytes of a tree of some shards (level, index, nodes), checkpoints and a cap.
fn tree_blob(shards: &[(u8, u64, Vec<u8>)], checkpoints: &[(u32, Option<u64>)], cap: &[u8]) -> Vec<u8> {
    let mut b = (shards.len() as u64).to_le_bytes().to_vec();
    for (level, index, nodes) in shards {
        b.push(*level);
        b.extend(index.to_le_bytes());
        b.push(1);
        b.extend(nodes);
    }
    b.extend((checkpoints.len() as u64).to_le_bytes());
    for (id, position) in checkpoints {
        b.extend(id.to_le_bytes());
        match position {
            None => b.push(0),
            Some(p) => {
                b.push(1);
                b.extend(p.to_le_bytes());
            }
        }
        b.extend(0u64.to_le_bytes());
    }
    b.push(1);
    b.extend(cap);
    b
}

fn leaf(hash: u8, flags: u8) -> Vec<u8> {
    let mut b = vec![1];
    b.extend([hash; 32]);
    b.push(flags);
    b
}

fn parent(hash: Option<u8>, left: &[u8], right: &[u8]) -> Vec<u8> {
    let mut b = vec![2];
    match hash {
        None => b.push(0),
        Some(h) => {
            b.push(1);
            b.extend([h; 32]);
        }
    }
    b.extend(left);
    b.extend(right);
    b
}

/// Parents that are nested so deep.
fn nested(depth: usize) -> Vec<u8> {
    (0..depth).fold(leaf(3, 2), |n, _| parent(None, &n, &[0]))
}

/// The tree that some bytes hold.
fn opened(b: &[u8]) -> OrchardShardTree {
    let t: StoredTree = read_orchard_tree(b).ok().unwrap();
    assert!(t.is_sound());
    t.open()
}

fn is_sound(b: &[u8]) -> bool {
    read_orchard_tree(b).ok().unwrap().is_sound()
}

fn tree_refusal(b: &[u8]) -> Option<PersistError> {
    read_orchard_tree(b).err()
}

#[test]
fn shards_are_looked_at_when_a_tree_is_read() {
    let invalid = |m| Some(PersistError::InvalidValue(m));
    let one = |level, index, nodes| tree_blob(&[(level, index, nodes)], &[], &[0]);
    let good = one(16, 0, nested(16));
    assert_eq!(shard_tree_size(&opened(&good)), 1);
    assert_eq!(serialize_orchard_tree(&opened(&good)), good);
    let mismatch = invalid("shard root level / address mismatch");
    assert_eq!(tree_refusal(&one(5, 0, nested(6))), mismatch);
    assert_eq!(tree_refusal(&one(16, 0, nested(17))), mismatch);
    assert_eq!(tree_refusal(&one(255, 0, nested(256))), mismatch);
    assert_eq!(tree_refusal(&one(16, 0, nested(1024))), mismatch);
    for odd in [one(5, 0, nested(5)), one(17, 0, nested(16)), one(16, 65_536, nested(1))] {
        assert!(!is_sound(&odd));
    }
    assert!(is_sound(&one(16, 65_535, nested(1))));
    assert!(!is_sound(&one(16, u64::MAX, nested(1))));
    let replaced = [(15, 0, nested(1)), (16, 0, nested(2))];
    assert!(is_sound(&tree_blob(&replaced, &[], &[0])));
    let gap = [(15, 1, nested(1)), (16, 1, nested(2))];
    assert!(!is_sound(&tree_blob(&gap, &[], &[0])));
    let bad = invalid("bad shard data");
    assert_eq!(tree_refusal(&one(16, 0, leaf(0xff, 0))), bad);
    assert_eq!(tree_refusal(&one(16, 0, leaf(3, 8))), bad);
    assert_eq!(tree_refusal(&one(16, 0, vec![3])), bad);
    assert_eq!(tree_refusal(&one(16, 0, nested(1025))), bad);
    assert_eq!(tree_refusal(&one(16, 0, nested(100_000))), bad);
    let deep = tree_blob(&[], &[], &nested(1024));
    assert_eq!(serialize_orchard_tree(&opened(&deep)), deep);
    assert_eq!(tree_refusal(&tree_blob(&[], &[], &nested(1025))), invalid("bad cap data"));
    assert_eq!(tree_refusal(&tree_blob(&[], &[], &leaf(0xff, 0))), invalid("bad cap data"));
}

#[test]
fn shards_that_are_left_out_are_empty() {
    let b = tree_blob(&[(16, 2, leaf(3, 0))], &[], &[0]);
    let t = opened(&b);
    assert_eq!(shard_tree_size(&t), 3 * 65_536);
    let nil = || vec![0];
    let filled = [(16, 0, nil()), (16, 1, nil()), (16, 2, leaf(3, 0))];
    assert_eq!(serialize_orchard_tree(&t), tree_blob(&filled, &[], &[0]));
}

#[test]
fn checkpoints_are_looked_at_when_a_tree_is_read() {
    let at = |p| tree_blob(&[], &[(3, Some(p))], &[0]);
    assert!(!is_sound(&at(u64::MAX)));
    let mut tag = tree_blob(&[], &[(3, None)], &[0]);
    tag[20] = 2;
    assert_eq!(tree_refusal(&tag), Some(PersistError::InvalidValue("bad treestate tag")));
    let far = at(u64::MAX - 1);
    let mut t = opened(&far);
    assert!(!truncate_orchard_tree_to(&mut t, h(3)));
    assert!(!truncate_orchard_tree_to(&mut t, h(2)));
    assert_eq!(serialize_orchard_tree(&t), far);
    let mut t = opened(&tree_blob(&[(16, 0, leaf(3, 0))], &[(3, None)], &[0]));
    assert!(truncate_orchard_tree_to(&mut t, h(3)));
    assert_eq!(serialize_orchard_tree(&t), tree_blob(&[], &[(3, None)], &[0]));
}

#[test]
fn a_tree_is_cut_only_where_the_leaf_is_kept() {
    let two = parent(None, &nested(14), &[0]);
    let shard = parent(None, &two, &[0]);
    let b = tree_blob(&[(16, 0, shard.clone()), (16, 1, leaf(4, 0))], &[(7, Some(0)), (8, Some(5))], &[0]);
    let mut t = opened(&b);
    assert!(!truncate_orchard_tree_to(&mut t, h(8)));
    assert_eq!(serialize_orchard_tree(&t), b);
    assert!(truncate_orchard_tree_to(&mut t, h(7)));
    assert_eq!(serialize_orchard_tree(&t), tree_blob(&[(16, 0, shard)], &[(7, Some(0))], &[0]));
}

#[test]
fn a_tree_of_an_odd_shape_is_read_into() {
    let ufvk = ufvk_of(NET);
    let pay = |seed| compact(&paying_action(seed, &orchard_address(&ufvk), 9, ""));
    let two = || {
        (ManualWallet::fresh("m", ufvk.clone()), ManualWallet::fresh("u", ufvk.clone()))
    };
    let nil = || vec![0];
    let empty = tree_blob(&[(16, 0, nil()), (16, 1, nil())], &[], &[0]);
    let mut t = opened(&empty);
    let (mut m, mut u) = two();
    assert_eq!(shard_tree_size(&t), 0);
    let blocks = vec![block(1, vec![pay(1), pay(2)])];
    assert_eq!(scan_into(&mut m, &mut u, &blocks, &mut t), Some(true));
    assert_eq!(shard_tree_size(&t), 65_537);
    assert_eq!(u.accounts[0].unspent_orchard_notes.len(), 2);

    let hollow = parent(None, &leaf(3, 0), &parent(Some(4), &[0], &[0]));
    let mut t = opened(&tree_blob(&[(16, 0, hollow)], &[], &[0]));
    let (mut m, mut u) = two();
    assert_eq!(shard_tree_size(&t), 65_536);
    let blocks = vec![block(1, vec![])];
    assert_eq!(scan_into(&mut m, &mut u, &blocks, &mut t), Some(true));
    assert_eq!(shard_tree_size(&t), 32_768);
    let hollow = parent(None, &leaf(3, 0), &parent(Some(4), &[0], &[0]));
    let mut t = opened(&tree_blob(&[(16, 0, hollow)], &[], &[0]));
    let blocks = vec![block(1, vec![]), block(2, vec![pay(3)])];
    assert_eq!(scan_into(&mut m, &mut u, &blocks, &mut t), Some(false));
}

#[test]
fn only_the_newest_checkpoints_are_kept() {
    let (mut miner, mut user, mut tree) = scanned(1_000);
    let blocks: Vec<CompactBlock> = (11..=105).map(|i| block(i, vec![])).collect();
    assert_eq!(scan_into(&mut miner, &mut user, &blocks, &mut tree), Some(true));
    assert!(!truncate_orchard_tree_to(&mut tree, h(5)));
    assert!(truncate_orchard_tree_to(&mut tree, h(6)));
}

#[test]
fn blocks_that_cannot_be_looked_through_are_refused() {
    assert_eq!(block_refusal(12, None).as_deref(), Some("failed to get block at height 12"));
    assert_eq!(block_refusal(0, Some(0)).as_deref(), Some("block at height 0 had 0 transactions"));
    assert_eq!(block_refusal(12, Some(1)), None);
}

#[test]
fn mined_money_is_moved_after_a_while() {
    assert!(shield_is_due(None, false));
    assert!(!shield_is_due(None, true));
    assert!(!shield_is_due(Some(15), false));
    assert!(shield_is_due(Some(16), false));
    assert!(!shield_is_due(Some(16), true));
}

#[test]
fn blocks_are_accepted_as_long_as_they_continue_the_chain() {
    let mut c = PoWCache::new(0, [0; 32]);
    let blocks: Vec<CompactBlock> = (1..=3).map(|i| block(i, vec![])).collect();
    assert!(matches!(accept_blocks(&mut c, &blocks, &[0; 32], 0), BlockVerdict::Took(3)));
    assert_eq!(c.tip_hash(), [3; 32]);
    let mut torn: Vec<CompactBlock> = (4..=6).map(|i| block(i, vec![])).collect();
    torn[1].prev_hash = vec![9; 32];
    assert!(matches!(accept_blocks(&mut c, &torn, &[3; 32], 3), BlockVerdict::Took(1)));
    assert_eq!(c.next_tip_h, 5);
    let mut off = vec![block(5, vec![])];
    off[0].prev_hash = vec![8; 32];
    assert!(matches!(accept_blocks(&mut c, &off, &[8; 32], 100), BlockVerdict::AskFrom(36)));
    assert!(matches!(accept_blocks(&mut c, &off, &[7; 32], 100), BlockVerdict::AskFrom(4)));
    off[0].prev_hash = vec![8; 31];
    assert!(matches!(accept_blocks(&mut c, &off, &[8; 32], 100), BlockVerdict::Restart));
}

fn actors(user: &ManualWallet) -> Actors {
    let key = p2pkh_from_ufvk(NET, &user.accounts[0].ufvk, 0);
    Actors {
        net: NET,
        user_orchard: orchard_address(&user.accounts[0].ufvk),
        miner_key: key,
        user_key: key,
    }
}

#[test]
fn a_proposal_balances_on_given_values() {
    let (_, user, tree) = scanned(1_000_000);
    let mut tx = ProposedTx::empty();
    let to = orchard_address(&user.accounts[0].ufvk);
    let key = p2pkh_from_ufvk(NET, &user.accounts[0].ufvk, 0);
    let memo = memo_from_text("x").unwrap();
    let r = user.send_orchard_to_orchard_zats(NET, &mut tx, 300_000, &tree, &to, &memo, &key);
    assert_eq!(r, Some(()));
    assert_eq!(tx.tx.h, h(PROPOSED));
    assert!(tx.is_in_progress());
    let p = tx.tx.parts[1];
    assert_eq!(p.spent_zats, zats(1_000_000));
    assert_eq!(p.sent_zats, zats(990_000));
    assert_eq!(p.recv_zats, zats(990_000));
    assert_eq!(tx.tx.fee(), Some(zats(10_000)));
    let prep = tx.prep.unwrap();
    assert_eq!(prep.block_h, 11);
    assert!(prep.orchard_anchor.is_some());
    let outs: u64 = prep.o_outputs.iter().map(|o| o.zats.into_u64()).sum();
    assert_eq!(outs, 990_000);
    assert_eq!(prep.o_outputs[0].zats, zats(300_000));
    let steps = build_steps(&prep);
    assert!(matches!(steps[0], BuildStep::SpendNote(s) if s.note.note.value == 1_000_000));
    assert_eq!(steps.len(), 3);
}

#[test]
fn each_note_is_spent_once() {
    let (_, user, tree) = scanned_notes(&[300_000, 300_000, 300_000]);
    let to = orchard_address(&user.accounts[0].ufvk);
    let key = p2pkh_from_ufvk(NET, &user.accounts[0].ufvk, 0);
    let memo = memo_from_text("x").unwrap();
    let mut tx = ProposedTx::empty();
    let r = user.send_orchard_to_orchard_zats(NET, &mut tx, 800_000, &tree, &to, &memo, &key);
    assert_eq!(r, Some(()));
    let mut spent: Vec<[u8; 32]> =
        tx.prep.unwrap().o_inputs.iter().map(|s| s.note.nf).collect();
    spent.sort();
    spent.dedup();
    assert_eq!(spent.len(), 3);
}

#[test]
fn what_cannot_be_paid_is_not_proposed() {
    let (_, user, tree) = scanned(1_000_000);
    let to = orchard_address(&user.accounts[0].ufvk);
    let key = p2pkh_from_ufvk(NET, &user.accounts[0].ufvk, 0);
    let memo = memo_from_text("x").unwrap();
    let mut tx = ProposedTx::empty();
    for amount in [995_000, 2_000_000, u64::MAX] {
        let r = user.send_orchard_to_orchard_zats(NET, &mut tx, amount, &tree, &to, &memo, &key);
        assert_eq!(r, None);
        assert!(!tx.is_in_progress());
    }
    let mut late = ManualWallet::fresh("user", ufvk_of(NET));
    late.chain_tip_h = h(90);
    let r = late.send_orchard_to_orchard_zats(NET, &mut tx, 1, &tree, &to, &memo, &key);
    assert_eq!(r, None);
}

#[test]
fn transparent_money_is_spent_and_its_change_comes_back() {
    let (_, mut user, _) = scanned(1_000_000);
    let key = p2pkh_from_ufvk(NET, &user.accounts[0].ufvk, 0);
    user.accounts[0].utxos = vec![crosslink::notes::Txo {
        recv_h: h(3),
        spent_h: h(0),
        id: crosslink::notes::OutPoint { txid: [5; 32], n: 1 },
        value: zats(100_000),
        t_addr: key.unwrap(),
    }];
    let out = [TxOutput::Transparent {
        dst: TransparentAddress::ScriptHash([4; 20]),
        zats: zats(30_000),
    }];
    let pools = [TxPool::Transparent];
    let opts = TxOptions { src_pools: &pools, staking_action: None };
    let mut tx = ProposedTx::empty();
    assert_eq!(user.propose_in_order(NET, &mut tx, &out, &opts, &key, &[0]), Some(()));
    let prep = tx.prep.unwrap();
    assert_eq!(prep.t_inputs.len(), 1);
    assert_eq!(prep.t_outputs[0].zats, zats(30_000));
    let t: u64 = prep.t_outputs.iter().map(|o| o.zats.into_u64()).sum();
    let o: u64 = prep.o_outputs.iter().map(|o| o.zats.into_u64()).sum();
    assert_eq!(t + o + tx.tx.fee().unwrap().into_u64(), 100_000);
}

#[test]
fn actions_are_carried_out() {
    let (miner, mut user, tree) = scanned(1_000_000);
    let who = actors(&user);
    let mut p = Proposals::new();
    let stake = WalletAction::StakeToFinalizer(zats(400_000), [6; 32]);
    let r = perform_action(&stake, &who, &miner, &mut user, &mut p, &tree, None);
    assert!(r.ok && r.started);
    let a = p.stake.tx.staking_action.unwrap();
    assert_eq!((a.kind, a.amount_zats), (StakingActionKind::CreateNewDelegationBond, 400_000));
    assert_eq!(a.arg32_2, [6; 32]);
    let mut p = Proposals::new();
    let claim = WalletAction::ClaimBond([3; 32]);
    let r = perform_action(&claim, &who, &miner, &mut user, &mut p, &tree, None);
    assert!(!r.ok && !r.started);
    let r = perform_action(&claim, &who, &miner, &mut user, &mut p, &tree, Some(70_000));
    assert_eq!(user.seen_bond_values.get(&[3; 32]), Some(70_000));
    assert_eq!(r.ok, r.started);
    let r = perform_action(
        &WalletAction::RequestFromFaucet,
        &who,
        &miner,
        &mut user,
        &mut p,
        &tree,
        None,
    );
    assert!(r.ok && !r.started && p.faucet.is_user_faucet);
    let r = perform_action(
        &WalletAction::TestStakeAction,
        &who,
        &miner,
        &mut user,
        &mut p,
        &tree,
        None,
    );
    assert!(r.ok && !r.started);
    let ua = addrs_from_ufvk(NET, &user.accounts[0].ufvk, 0).unwrap().2;
    let send = WalletAction::SendToAddress(ua, zats(1_000));
    let r = perform_action(&send, &who, &miner, &mut user, &mut p, &tree, None);
    assert!(r.ok && r.started);
    assert_eq!(&p.send.tx.memo[..21], b"send from user wallet");
    for a in [
        WalletAction::UnstakeFromFinalizer([1; 32]),
        WalletAction::RetargetBond([1; 32], [2; 32]),
    ] {
        let mut p = Proposals::new();
        let r = perform_action(&a, &who, &miner, &mut user, &mut p, &tree, None);
        assert_eq!(r.ok, r.started);
    }
}

#[test]
fn the_faucet_serves_who_waits() {
    let (user, miner, tree) = scanned(60_000_000);
    let who = actors(&miner);
    let mut p = Proposals::new();
    let mut q = FaucetQ::new();
    assert!(!serve_faucet(&who, &miner, &mut p, &mut q, &tree));
    let to = orchard_address(&user.accounts[0].ufvk);
    assert!(q.push(to));
    assert!(serve_faucet(&who, &miner, &mut p, &mut q, &tree));
    assert_eq!(q.len(), 0);
    assert!(p.faucet.is_in_progress() && !p.faucet.is_user_faucet);
    let outs = &p.faucet.prep.as_ref().unwrap().o_outputs;
    assert_eq!((outs[0].dst, outs[0].zats), (to, zats(FAUCET_VALUE)));
    assert!(outs[0].memo.starts_with(b"With love from your favourite faucet..."));
    assert!(q.push(to));
    assert!(!serve_faucet(&who, &miner, &mut p, &mut q, &tree));
    assert_eq!(q.len(), 1);
    assert_eq!(shield_mined(&who, &miner, &mut p), None);
}

fn snapshot_of(sync: &SyncState) -> Vec<u8> {
    save(&Snapshot {
        network_type: NET,
        genesis_hash: [7; 32],
        miner_wallet: &sync.miner_wallet,
        user_wallet: &sync.user_wallet,
        orchard_tree_blob: serialize_orchard_tree(&sync.orchard_tree),
        pow_cache: &sync.pow_cache,
        anchors: &sync.anchors,
    })
}

fn synced() -> SyncState {
    let (mut miner_wallet, mut user_wallet, orchard_tree) = scanned(1_000_000);
    let t = p2pkh_from_ufvk(NET, &user_wallet.accounts[0].ufvk, 0).unwrap();
    miner_wallet.watch(t);
    user_wallet.watch(t);
    user_wallet.strms[0].sync_h = h(8);
    user_wallet.seen_bond_values.insert([1; 32], 5);
    user_wallet.care_about_bonds.push([1; 32]);
    user_wallet.txs[0].status = TxStatus::SoftFail(h(2));
    let mut pow_cache = PoWCache::new(0, [7; 32]);
    for i in 1..=10 {
        pow_cache.push_new_tip(i, [i as u8; 32]);
    }
    let mut anchors = AnchorHistory::default();
    anchors.push(Anchor { height: 4, hash: [4; 32], stream_heights: vec![3, 4] });
    SyncState { miner_wallet, user_wallet, orchard_tree, pow_cache, anchors, last_saved_h: 0 }
}

#[test]
fn what_was_saved_is_loaded() {
    let s = synced();
    let bytes = snapshot_of(&s);
    assert_eq!(&bytes[..8], b"CRSLNKW\x01");
    let l = load(&bytes, NET, &[7; 32]).unwrap();
    assert_eq!(format!("{:?}", l.user_wallet.accounts), format!("{:?}", s.user_wallet.accounts));
    assert_eq!(l.user_wallet.txs, s.user_wallet.txs);
    assert_eq!(l.user_wallet.strms, s.user_wallet.strms);
    assert_eq!(l.user_wallet.seen_bond_values.get(&[1; 32]), Some(5));
    assert_eq!(l.user_wallet.care_about_bonds, [[1; 32]]);
    assert_eq!(l.user_wallet.tx_h_map.get(&[0x42; 32]), Some(h(2)));
    assert_eq!(l.pow_cache.hashes, s.pow_cache.hashes);
    assert_eq!(l.anchors.anchors[0].stream_heights, [3, 4]);
    let orchard_tree = l.orchard_tree.open();
    assert_eq!(shard_tree_size(&orchard_tree), 2);
    let again = SyncState {
        miner_wallet: l.miner_wallet,
        user_wallet: l.user_wallet,
        orchard_tree,
        pow_cache: l.pow_cache,
        anchors: l.anchors,
        last_saved_h: 0,
    };
    assert!(snapshot_of(&again) == bytes);
}

fn refusal(bytes: &[u8]) -> PersistError {
    match load(bytes, NET, &[7; 32]) {
        Err(e) => e,
        Ok(_) => panic!("loaded"),
    }
}

#[test]
fn what_is_no_snapshot_of_this_chain_is_refused() {
    let bytes = snapshot_of(&synced());
    let mut b = bytes.clone();
    b[0] = 0;
    assert_eq!(refusal(&b), PersistError::BadMagic);
    let mut b = bytes.clone();
    b[8] = 9;
    assert_eq!(refusal(&b), PersistError::SchemaMismatch { found: 9, expected: 2 });
    let mut b = bytes.clone();
    b[12] = 0;
    assert_eq!(
        refusal(&b),
        PersistError::NetworkMismatch { found: "Main".to_string(), expected: "Test".to_string() }
    );
    b[12] = 3;
    assert_eq!(refusal(&b), PersistError::InvalidValue("unknown network type"));
    let mut b = bytes.clone();
    b[13] = 8;
    assert!(matches!(refusal(&b), PersistError::GenesisMismatch { .. }));
    assert_eq!(refusal(&bytes[..40]), PersistError::Truncated);
    assert_eq!(refusal(&[]), PersistError::Truncated);
}

#[test]
fn a_snapshot_that_is_cut_short_is_refused() {
    let bytes = snapshot_of(&synced());
    let mut n = 0;
    while n < bytes.len() {
        assert!(load(&bytes[..n], NET, &[7; 32]).is_err());
        n += 37;
    }
    assert!(load(&bytes[..bytes.len() - 1], NET, &[7; 32]).is_err());
}

#[test]
fn notes_that_are_none_are_refused() {
    let good = synced().user_wallet.accounts[0].unspent_orchard_notes[0];
    let try_note = |n: OrchardNote| {
        let mut s = synced();
        s.user_wallet.accounts[0].unspent_orchard_notes = vec![n];
        load(&snapshot_of(&s), NET, &[7; 32]).err()
    };
    assert_eq!(try_note(good), None);
    let with = |note: Note| OrchardNote { note, ..good };
    assert_eq!(
        try_note(OrchardNote { nf: [0xff; 32], ..good }),
        Some(PersistError::InvalidValue("bad orchard nullifier"))
    );
    assert_eq!(
        try_note(with(Note { recipient: [0xff; 43], ..good.note })),
        Some(PersistError::InvalidValue("bad orchard recipient"))
    );
    assert_eq!(
        try_note(with(Note { rho: [0xff; 32], ..good.note })),
        Some(PersistError::InvalidValue("bad orchard rho"))
    );
}

#[test]
fn a_key_of_another_network_is_refused() {
    let mut s = synced();
    s.user_wallet.accounts[0].ufvk = ufvk_of(NetworkType::Main);
    assert_eq!(refusal(&snapshot_of(&s)), PersistError::InvalidValue("bad ufvk"));
}

#[test]
fn numbers_lie_least_byte_first() {
    let mut out = vec![];
    put_u32(&mut out, 0x0102_0304);
    put_u64(&mut out, 0x0102_0304_0506_0708);
    assert_eq!(out, [4, 3, 2, 1, 8, 7, 6, 5, 4, 3, 2, 1]);
    let (a, rest) = take_u32(&out).unwrap();
    let (b, rest) = take_u64(rest).unwrap();
    assert_eq!((a, b, rest.len()), (0x0102_0304, 0x0102_0304_0506_0708, 0));
    assert_eq!(take_u64(&out[..7]), Err(PersistError::Truncated));
}

#[test]
fn texts_options_and_amounts_are_checked() {
    let mut out = vec![];
    put_text(&mut out, "hä");
    assert_eq!(take_text(&out).unwrap().0, "hä");
    let last = out.len() - 1;
    out[last] = 0xff;
    assert_eq!(take_text(&out), Err(PersistError::InvalidValue("non-utf8 string")));
    let mut out = vec![];
    put_opt_height(&mut out, Some(h(6)));
    assert_eq!(take_opt_height(&out).unwrap().0, Some(h(6)));
    out[0] = 2;
    assert_eq!(take_opt_height(&out), Err(PersistError::InvalidValue("bad option tag")));
    let mut out = vec![];
    put_zats(&mut out, zats(6));
    assert_eq!(take_zats(&out).unwrap().0, zats(6));
    let mut out = vec![];
    put_u64(&mut out, u64::MAX);
    assert_eq!(take_zats(&out), Err(PersistError::InvalidValue("bad zatoshis")));
    assert_eq!(take_blob(&out), Err(PersistError::InvalidValue("blob too large")));
}

#[test]
fn the_wallets_are_saved_every_hundred_blocks() {
    let mut s = synced();
    assert_eq!(s.sync_h(), h(10));
    assert!(!s.save_is_due());
    for i in 11..=100 {
        s.pow_cache.push_new_tip(i, [i as u8; 32]);
    }
    assert!(s.save_is_due());
    let bytes = s.take_snapshot(NET, &[7; 32]);
    let a = s.anchors.anchors.back().unwrap();
    assert_eq!((a.height, a.hash), (100, [100; 32]));
    assert_eq!(a.stream_heights, [0, 8]);
    s.saved();
    assert!(!s.save_is_due());
    let l = load(&bytes, NET, &[7; 32]).unwrap();
    assert_eq!(l.anchors.anchors.len(), 2);
    assert_eq!(l.pow_cache.next_tip_h, 101);
}

#[test]
fn a_snapshot_is_resumed_under_the_names_there_are() {
    let saved = synced();
    let loaded = load(&snapshot_of(&saved), NET, &[7; 32]).unwrap();
    let mut s = SyncState::start(
        ManualWallet::fresh("miner", ufvk_of(NET)),
        ManualWallet::fresh("user", ufvk_of(NET)),
        [7; 32],
    );
    assert!(s.has_tip() && s.sync_h() == h(0));
    s.resume(loaded);
    assert_eq!((s.miner_wallet.name, s.user_wallet.name), ("miner", "user"));
    assert_eq!(s.last_saved_h, 10);
    assert_eq!(s.sync_h(), h(10));
    assert_eq!(s.user_wallet.txs, saved.user_wallet.txs);
}

#[test]
fn everything_rolls_back_to_an_anchor() {
    let mut s = synced();
    s.roll_back_to(0);
    assert_eq!(s.pow_cache.next_tip_h, 5);
    assert_eq!((s.user_wallet.chain_tip_h, s.last_saved_h), (h(4), 4));
    assert_eq!(s.user_wallet.strms[0].sync_h, h(4));
    assert_eq!(s.miner_wallet.strms[0].sync_h, h(3));
    assert_eq!(shard_tree_size(&s.orchard_tree), 2);
    s.reset([7; 32]);
    assert_eq!(s.pow_cache.hashes, [[7; 32]]);
    assert_eq!(shard_tree_size(&s.orchard_tree), 0);
    assert!(s.anchors.anchors.is_empty());
    assert!(s.user_wallet.accounts[0].recv_orchard_notes.is_empty());
    let t: &Vec<WalletTx> = &s.user_wallet.txs;
    assert!(t.is_empty());
}
