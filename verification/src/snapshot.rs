//! Wallet snapshots: what is saved of a wallet, and what is loaded again.
//!
//! A snapshot holds a header (what it is, of which version, network and chain), the miner's and the
//! user's wallet, the hashes of the best chain, the anchors, and the note commitment tree.
use crate::accounts::{
    height_map, heights_of, AccountModel, ManualAccount, ManualStream, ManualWallet, WalletModel,
};
use crate::anchors::{put_anchors, take_anchors, Anchor, AnchorHistory, AnchorModel};
use crate::byte_map::{collect_entries, keys_distinct, lemma_collect_distinct, ByteMap, Key};
use crate::bytes::bytes_eq;
use crate::height::BlockHeight;
use crate::network::NetworkType;
use crate::pow_cache::PoWCache;
use crate::records::opening_balance;
use crate::rollback::lemma_heights_of;
use crate::tree::{tree_ok, TreeModel};
use crate::tree_wire::{
    is_readable_tree, is_tree_blob, parse_tree, read_orchard_tree, tree_round_trip, StoredTree,
};
use crate::wallet_tx::WalletTx;
use crate::wire::{
    array_of, array_then, blob_then, extended, items_then, lemma_array_of, list_extends,
    list_round_trip, list_storable, list_then, models, parse_array, parse_blob, parse_list,
    parse_text, parse_u32, parse_u64, parse_u8, primitives_extend, primitives_round_trip, put_array,
    put_blob, put_list, put_text, put_u32, put_u64, put_u8, take_array, take_blob, take_list,
    take_text, take_u32, take_u64, take_u8, taken, text_fits, text_then, u32_then, u64_then,
    u8_then, Fault, MAX_BLOB_SIZE, Parsed, PersistError, Taken,
};
use crate::zats::Zatoshis;
use vstd::prelude::*;

verus! {

/// The version of the layout. A snapshot of another version is refused.
pub const SCHEMA_VERSION: u32 = 2;

/// The bytes that mark a snapshot: `CRSLNKW` and a one.
pub open spec fn magic() -> Seq<u8> {
    seq![0x43, 0x52, 0x53, 0x4c, 0x4e, 0x4b, 0x57, 0x01]
}

fn magic_bytes() -> (r: [u8; 8])
    ensures
        r@ == magic(),
{
    let r: [u8; 8] = [0x43, 0x52, 0x53, 0x4c, 0x4e, 0x4b, 0x57, 0x01];
    assert(r@ =~= magic());
    r
}

pub open spec fn network_tag(net: NetworkType) -> u8 {
    match net {
        NetworkType::Main => 0,
        NetworkType::Test => 1,
        NetworkType::Regtest => 2,
    }
}

/// The bytes of a header, followed by `rest`.
pub open spec fn header_then(net: NetworkType, genesis: [u8; 32], rest: Seq<u8>) -> Seq<u8> {
    array_then::<8>(
        array_of::<8>(magic()),
        u32_then(SCHEMA_VERSION, u8_then(network_tag(net), array_then::<32>(genesis, rest))),
    )
}

pub open spec fn parse_network(s: Seq<u8>) -> Parsed<NetworkType> {
    match parse_u8(s) {
        Err(f) => Err(f),
        Ok((tag, s)) => if tag == 0 {
            Ok((NetworkType::Main, s))
        } else if tag == 1 {
            Ok((NetworkType::Test, s))
        } else if tag == 2 {
            Ok((NetworkType::Regtest, s))
        } else {
            Err(Fault::InvalidValue("unknown network type"@))
        },
    }
}

pub open spec fn parse_header(s: Seq<u8>) -> Parsed<(NetworkType, [u8; 32])> {
    match parse_array::<8>(s) {
        Err(f) => Err(f),
        Ok((m, s)) => if m@ != magic() {
            Err(Fault::BadMagic)
        } else {
            match parse_u32(s) {
                Err(f) => Err(f),
                Ok((found, s)) => if found != SCHEMA_VERSION {
                    Err(Fault::SchemaMismatch { found, expected: SCHEMA_VERSION })
                } else {
                    match parse_network(s) {
                        Err(f) => Err(f),
                        Ok((net, s)) => match parse_array::<32>(s) {
                            Err(f) => Err(f),
                            Ok((genesis, s)) => Ok(((net, genesis), s)),
                        },
                    }
                },
            }
        },
    }
}

fn put_header(out: &mut Vec<u8>, net: NetworkType, genesis: &[u8; 32])
    ensures
        forall|rest: Seq<u8>| #[trigger]
            (final(out)@ + rest) == old(out)@ + header_then(net, *genesis, rest),
{
    let m: [u8; 8] = magic_bytes();
    proof {
        lemma_array_of(m);
    }
    put_array::<8>(out, &m);
    put_u32(out, SCHEMA_VERSION);
    put_u8(
        out,
        match net {
            NetworkType::Main => 0,
            NetworkType::Test => 1,
            NetworkType::Regtest => 2,
        },
    );
    put_array::<32>(out, genesis);
}

fn take_network<'a>(s: &'a [u8]) -> (res: Taken<'a, NetworkType>)
    ensures
        taken(res, parse_network(s@)),
{
    let (tag, s) = take_u8(s)?;
    match tag {
        0 => Ok((NetworkType::Main, s)),
        1 => Ok((NetworkType::Test, s)),
        2 => Ok((NetworkType::Regtest, s)),
        _ => Err(PersistError::InvalidValue("unknown network type")),
    }
}

fn take_header<'a>(s: &'a [u8]) -> (res: Taken<'a, (NetworkType, [u8; 32])>)
    ensures
        taken(res, parse_header(s@)),
{
    let (m, s) = take_array::<8>(s)?;
    let expected: [u8; 8] = magic_bytes();
    proof {
        if m@ == magic() {
            assert(m =~= expected);
        }
    }
    if !bytes_eq(&m, &expected) {
        return Err(PersistError::BadMagic);
    }
    let (found, s) = take_u32(s)?;
    if found != SCHEMA_VERSION {
        return Err(PersistError::SchemaMismatch { found, expected: SCHEMA_VERSION });
    }
    let (net, s) = take_network(s)?;
    let (genesis, s) = take_array::<32>(s)?;
    Ok(((net, genesis), s))
}

/// A header is read back as it was written.
pub proof fn header_round_trip(net: NetworkType, genesis: [u8; 32], rest: Seq<u8>)
    ensures
        parse_header(header_then(net, genesis, rest)) == Ok::<
            ((NetworkType, [u8; 32]), Seq<u8>),
            Fault,
        >(((net, genesis), rest)),
{
    broadcast use primitives_round_trip;

    lemma_magic();
}

proof fn lemma_magic()
    ensures
        array_of::<8>(magic())@ == magic(),
{
    let a: [u8; 8] = [0x43, 0x52, 0x53, 0x4c, 0x4e, 0x4b, 0x57, 0x01];
    assert(a@ =~= magic());
    lemma_array_of(a);
}

/// The bytes of a wallet, followed by `rest`. The heights of its transactions are not written a
/// second time.
pub open spec fn wallet_then(m: WalletModel, rest: Seq<u8>) -> Seq<u8> {
    text_then(
        m.name,
        u32_then(
            m.chain_tip_h.0,
            list_then::<ManualAccount>(
                m.accounts,
                list_then::<ManualStream>(
                    m.strms,
                    list_then::<WalletTx>(
                        m.txs,
                        list_then::<(Key, u64)>(
                            m.seen_bond_values,
                            list_then::<Key>(m.care_about_bonds, rest),
                        ),
                    ),
                ),
            ),
        ),
    )
}

/// What comes of reading a wallet. It takes the given name; the heights of its transactions are
/// those of the transactions read.
pub open spec fn parse_wallet(net: NetworkType, name: Seq<char>, s: Seq<u8>) -> Parsed<WalletModel> {
    match parse_text(s) {
        Err(f) => Err(f),
        Ok((_, s)) => match parse_u32(s) {
            Err(f) => Err(f),
            Ok((tip, s)) => match parse_list::<ManualAccount>(net, s) {
                Err(f) => Err(f),
                Ok((accounts, s)) => match parse_list::<ManualStream>(net, s) {
                    Err(f) => Err(f),
                    Ok((strms, s)) => match parse_list::<WalletTx>(net, s) {
                        Err(f) => Err(f),
                        Ok((txs, s)) => match parse_list::<(Key, u64)>(net, s) {
                            Err(f) => Err(f),
                            Ok((bonds, s)) => match parse_list::<Key>(net, s) {
                                Err(f) => Err(f),
                                Ok((care_about_bonds, s)) => Ok(
                                    (
                                        WalletModel {
                                            name,
                                            accounts,
                                            strms,
                                            chain_tip_h: BlockHeight(tip),
                                            txs,
                                            tx_h_map: heights_of(txs),
                                            seen_bond_values: collect_entries(bonds),
                                            care_about_bonds,
                                        },
                                        s,
                                    ),
                                ),
                            },
                        },
                    },
                },
            },
        },
    }
}

fn put_wallet(out: &mut Vec<u8>, w: &ManualWallet)
    ensures
        forall|rest: Seq<u8>| #[trigger] (final(out)@ + rest) == old(out)@ + wallet_then(w@, rest),
{
    proof {
        assert(models(w.accounts@) =~= w@.accounts);
        assert(models(w.strms@) =~= w@.strms);
        assert(models(w.txs@) =~= w@.txs);
        assert(models(w.seen_bond_values.entries@) =~= w@.seen_bond_values);
        assert(models(w.care_about_bonds@) =~= w@.care_about_bonds);
    }
    put_text(out, w.name);
    put_u32(out, w.chain_tip_h.0);
    put_list::<ManualAccount>(out, &w.accounts);
    put_list::<ManualStream>(out, &w.strms);
    put_list::<WalletTx>(out, &w.txs);
    put_list::<(Key, u64)>(out, &w.seen_bond_values.entries);
    put_list::<Key>(out, &w.care_about_bonds);
}

/// Puts pairs into a map one after the other.
fn collect_bonds(pairs: &Vec<(Key, u64)>) -> (m: ByteMap<u64>)
    ensures
        m.wf(),
        m.entries@ == collect_entries(pairs@),
{
    let mut m: ByteMap<u64> = ByteMap::new();
    let mut i: usize = 0;
    while i < pairs.len()
        invariant
            i <= pairs@.len(),
            m.wf(),
            m.entries@ == collect_entries(pairs@.take(i as int)),
        decreases pairs.len() - i,
    {
        m.insert(pairs[i].0, pairs[i].1);
        i += 1;
        assert(pairs@.take(i as int).drop_last() =~= pairs@.take(i - 1));
    }
    assert(pairs@.take(i as int) =~= pairs@);
    m
}

fn take_wallet<'a>(net: NetworkType, name: &'static str, s: &'a [u8]) -> (res: Taken<
    'a,
    ManualWallet,
>)
    ensures
        match parse_wallet(net, name@, s@) {
            Ok((v, rest)) => res matches Ok((w, r)) && w@ == v && w.maps_wf() && r@ == rest,
            Err(f) => res matches Err(e) && e@ == f,
        },
{
    let (_, s) = take_text(s)?;
    let (tip, s) = take_u32(s)?;
    let (accounts, s) = take_list::<ManualAccount>(net, s)?;
    let (strms, s) = take_list::<ManualStream>(net, s)?;
    let (txs, s) = take_list::<WalletTx>(net, s)?;
    let (bonds, s) = take_list::<(Key, u64)>(net, s)?;
    let (care_about_bonds, s) = take_list::<Key>(net, s)?;
    let tx_h_map = height_map(&txs);
    let seen_bond_values = collect_bonds(&bonds);
    let w = ManualWallet {
        name,
        accounts,
        strms,
        chain_tip_h: BlockHeight(tip),
        txs,
        tx_h_map,
        seen_bond_values,
        care_about_bonds,
    };
    proof {
        assert(models(w.accounts@) =~= w@.accounts);
        assert(models(w.strms@) =~= w@.strms);
        assert(models(w.txs@) =~= w@.txs);
        assert(models(bonds@) =~= bonds@);
        assert(models(w.care_about_bonds@) =~= w@.care_about_bonds);
    }
    Ok((w, s))
}

/// An account as it is after loading: the history of its balances starts anew.
pub open spec fn restored_account(a: AccountModel) -> AccountModel {
    AccountModel { balance_changes: opening_balance(), ..a }
}

pub open spec fn restored_accounts(s: Seq<AccountModel>) -> Seq<AccountModel> {
    Seq::new(s.len(), |i: int| restored_account(s[i]))
}

/// A wallet as it is after loading under a name.
pub open spec fn restored_wallet(m: WalletModel, name: Seq<char>) -> WalletModel {
    WalletModel {
        name,
        accounts: restored_accounts(m.accounts),
        tx_h_map: heights_of(m.txs),
        ..m
    }
}

/// Whether a wallet can be read back on a network: its texts and lists are not too long, its
/// amounts can exist, its notes are notes, its viewing keys are in the network's encoding, and no
/// bond occurs twice.
pub open spec fn wallet_storable(net: NetworkType, m: WalletModel) -> bool {
    &&& text_fits(m.name)
    &&& list_storable::<ManualAccount>(net, restored_accounts(m.accounts))
    &&& list_storable::<ManualStream>(net, m.strms)
    &&& list_storable::<WalletTx>(net, m.txs)
    &&& list_storable::<(Key, u64)>(net, m.seen_bond_values)
    &&& keys_distinct(m.seen_bond_values)
    &&& list_storable::<Key>(net, m.care_about_bonds)
}

proof fn lemma_accounts_bytes(s: Seq<AccountModel>, rest: Seq<u8>)
    ensures
        items_then::<ManualAccount>(s, rest) == items_then::<ManualAccount>(
            restored_accounts(s),
            rest,
        ),
    decreases s.len(),
{
    if s.len() > 0 {
        lemma_accounts_bytes(s.skip(1), rest);
        assert(restored_accounts(s).skip(1) =~= restored_accounts(s.skip(1)));
    }
}

/// A wallet is read back as it was written, but for its name, the history of its balances, and the
/// heights of its transactions, which are taken from the transactions.
pub proof fn wallet_round_trip(net: NetworkType, name: Seq<char>, m: WalletModel, rest: Seq<u8>)
    requires
        wallet_storable(net, m),
    ensures
        parse_wallet(net, name, wallet_then(m, rest)) == Ok::<(WalletModel, Seq<u8>), Fault>(
            (restored_wallet(m, name), rest),
        ),
{
    broadcast use {primitives_round_trip, list_round_trip};

    let after = list_then::<ManualStream>(
        m.strms,
        list_then::<WalletTx>(
            m.txs,
            list_then::<(Key, u64)>(
                m.seen_bond_values,
                list_then::<Key>(m.care_about_bonds, rest),
            ),
        ),
    );
    lemma_accounts_bytes(m.accounts, after);
    assert(list_then::<ManualAccount>(m.accounts, after) == list_then::<ManualAccount>(
        restored_accounts(m.accounts),
        after,
    ));
    lemma_collect_distinct(m.seen_bond_values);
}

/// Everything that is saved.
pub struct Snapshot<'a> {
    pub network_type: NetworkType,
    pub genesis_hash: [u8; 32],
    pub miner_wallet: &'a ManualWallet,
    pub user_wallet: &'a ManualWallet,
    pub orchard_tree_blob: Vec<u8>,
    pub pow_cache: &'a PoWCache,
    pub anchors: &'a AnchorHistory,
}

/// What is saved.
pub struct SnapshotModel {
    pub network_type: NetworkType,
    pub genesis_hash: [u8; 32],
    pub miner_wallet: WalletModel,
    pub user_wallet: WalletModel,
    pub orchard_tree_blob: Seq<u8>,
    pub hashes: Seq<[u8; 32]>,
    pub next_tip_h: u64,
    pub anchors: Seq<AnchorModel>,
}

impl<'a> View for Snapshot<'a> {
    type V = SnapshotModel;

    open spec fn view(&self) -> SnapshotModel {
        SnapshotModel {
            network_type: self.network_type,
            genesis_hash: self.genesis_hash,
            miner_wallet: self.miner_wallet@,
            user_wallet: self.user_wallet@,
            orchard_tree_blob: self.orchard_tree_blob@,
            hashes: self.pow_cache.hashes@,
            next_tip_h: self.pow_cache.next_tip_h,
            anchors: self.anchors@,
        }
    }
}

/// Everything that is loaded.
pub struct LoadedSnapshot {
    pub network_type: NetworkType,
    pub genesis_hash: [u8; 32],
    pub miner_wallet: ManualWallet,
    pub user_wallet: ManualWallet,
    pub orchard_tree: StoredTree,
    pub pow_cache: PoWCache,
    pub anchors: AnchorHistory,
}

/// What is loaded.
#[verifier::ext_equal]
pub struct LoadedModel {
    pub network_type: NetworkType,
    pub genesis_hash: [u8; 32],
    pub miner_wallet: WalletModel,
    pub user_wallet: WalletModel,
    pub orchard_tree: TreeModel,
    pub hashes: Seq<[u8; 32]>,
    pub next_tip_h: u64,
    pub anchors: Seq<AnchorModel>,
}

impl View for LoadedSnapshot {
    type V = LoadedModel;

    open spec fn view(&self) -> LoadedModel {
        LoadedModel {
            network_type: self.network_type,
            genesis_hash: self.genesis_hash,
            miner_wallet: self.miner_wallet@,
            user_wallet: self.user_wallet@,
            orchard_tree: self.orchard_tree@,
            hashes: self.pow_cache.hashes@,
            next_tip_h: self.pow_cache.next_tip_h,
            anchors: self.anchors@,
        }
    }
}

/// The bytes behind the header.
pub open spec fn body_bytes(m: SnapshotModel) -> Seq<u8> {
    wallet_then(
        m.miner_wallet,
        wallet_then(
            m.user_wallet,
            u64_then(
                m.next_tip_h,
                list_then::<Key>(
                    m.hashes,
                    list_then::<Anchor>(m.anchors, blob_then(m.orchard_tree_blob, seq![])),
                ),
            ),
        ),
    )
}

/// The bytes of a snapshot.
pub open spec fn snapshot_bytes(m: SnapshotModel) -> Seq<u8> {
    header_then(m.network_type, m.genesis_hash, body_bytes(m))
}

/// What comes of reading what stands behind the header.
pub open spec fn parse_body(net: NetworkType, genesis: [u8; 32], s: Seq<u8>) -> Result<
    LoadedModel,
    Fault,
> {
    match parse_wallet(net, "miner_wallet"@, s) {
        Err(f) => Err(f),
        Ok((miner_wallet, s)) => match parse_wallet(net, "user_wallet"@, s) {
            Err(f) => Err(f),
            Ok((user_wallet, s)) => match parse_u64(s) {
                Err(f) => Err(f),
                Ok((next_tip_h, s)) => match parse_list::<Key>(net, s) {
                    Err(f) => Err(f),
                    Ok((hashes, s)) => match parse_list::<Anchor>(net, s) {
                        Err(f) => Err(f),
                        Ok((anchors, s)) => match parse_blob(s) {
                            Err(f) => Err(f),
                            Ok((blob, s)) => match parse_tree(blob) {
                                Err(f) => Err(f),
                                Ok(orchard_tree) => Ok(
                                    LoadedModel {
                                        network_type: net,
                                        genesis_hash: genesis,
                                        miner_wallet,
                                        user_wallet,
                                        orchard_tree,
                                        hashes,
                                        next_tip_h,
                                        anchors,
                                    },
                                ),
                            },
                        },
                    },
                },
            },
        },
    }
}

/// What comes of loading a snapshot: nothing behind the header is looked at unless the network and
/// the chain are those that are expected.
pub open spec fn parse_snapshot(net: NetworkType, genesis: [u8; 32], s: Seq<u8>) -> Result<
    LoadedModel,
    Fault,
> {
    match parse_header(s) {
        Err(f) => Err(f),
        Ok(((found_net, found_genesis), s)) => if found_net != net {
            Err(Fault::NetworkMismatch { found: found_net.text(), expected: net.text() })
        } else if found_genesis != genesis {
            Err(Fault::GenesisMismatch { found: found_genesis, expected: genesis })
        } else {
            parse_body(net, genesis, s)
        },
    }
}

/// The bytes of a snapshot.
pub fn save(snap: &Snapshot<'_>) -> (r: Vec<u8>)
    ensures
        r@ == snapshot_bytes(snap@),
{
    let mut out: Vec<u8> = Vec::new();
    proof {
        assert(models(snap.pow_cache.hashes@) =~= snap.pow_cache.hashes@);
    }
    put_header(&mut out, snap.network_type, &snap.genesis_hash);
    put_wallet(&mut out, snap.miner_wallet);
    put_wallet(&mut out, snap.user_wallet);
    put_u64(&mut out, snap.pow_cache.next_tip_h);
    put_list::<Key>(&mut out, &snap.pow_cache.hashes);
    put_anchors(&mut out, snap.anchors);
    put_blob(&mut out, &snap.orchard_tree_blob);
    proof {
        let none = Seq::<u8>::empty();
        assert(out@ + none =~= out@);
        assert(out@ + none == none + snapshot_bytes(snap@));
        assert(none + snapshot_bytes(snap@) =~= snapshot_bytes(snap@));
    }
    out
}

/// Loads a snapshot, or says why it cannot be loaded.
pub fn load(bytes: &[u8], expected_network: NetworkType, expected_genesis: &[u8; 32]) -> (res: Result<
    LoadedSnapshot,
    PersistError,
>)
    ensures
        match parse_snapshot(expected_network, *expected_genesis, bytes@) {
            Ok(m) => res matches Ok(l) && l@ == m && l.miner_wallet.maps_wf()
                && l.user_wallet.maps_wf(),
            Err(f) => res matches Err(e) && e@ == f,
        },
{
    let ((net, genesis), s) = take_header(bytes)?;
    if net != expected_network {
        return Err(
            PersistError::NetworkMismatch { found: net.name(), expected: expected_network.name() },
        );
    }
    if !bytes_eq(&genesis, expected_genesis) {
        return Err(
            PersistError::GenesisMismatch { found: genesis, expected: *expected_genesis },
        );
    }
    let (miner_wallet, s) = take_wallet(net, "miner_wallet", s)?;
    let (user_wallet, s) = take_wallet(net, "user_wallet", s)?;
    let (next_tip_h, s) = take_u64(s)?;
    let (hashes, s) = take_list::<Key>(net, s)?;
    let (anchors, s) = take_anchors(net, s)?;
    let (blob, _) = take_blob(s)?;
    let orchard_tree = read_orchard_tree(blob)?;
    proof {
        assert(models(hashes@) =~= hashes@);
    }
    Ok(
        LoadedSnapshot {
            network_type: net,
            genesis_hash: genesis,
            miner_wallet,
            user_wallet,
            orchard_tree,
            pow_cache: PoWCache { hashes, next_tip_h },
            anchors,
        },
    )
}

/// Whether a snapshot can be loaded again.
pub open spec fn snapshot_storable(m: SnapshotModel) -> bool {
    &&& wallet_storable(m.network_type, m.miner_wallet)
    &&& wallet_storable(m.network_type, m.user_wallet)
    &&& list_storable::<Key>(m.network_type, m.hashes)
    &&& list_storable::<Anchor>(m.network_type, m.anchors)
    &&& m.orchard_tree_blob.len() <= MAX_BLOB_SIZE
}

/// What a snapshot holds when it is loaded, with the tree that its blob stands for.
pub open spec fn loaded_from(m: SnapshotModel, tree: TreeModel) -> LoadedModel {
    LoadedModel {
        network_type: m.network_type,
        genesis_hash: m.genesis_hash,
        miner_wallet: restored_wallet(m.miner_wallet, "miner_wallet"@),
        user_wallet: restored_wallet(m.user_wallet, "user_wallet"@),
        orchard_tree: tree,
        hashes: m.hashes,
        next_tip_h: m.next_tip_h,
        anchors: m.anchors,
    }
}

/// What is loaded is what was saved: both wallets but for their names and the history of their
/// balances, the hashes of the chain, the anchors, and the tree that the blob stands for.
pub proof fn loading_gives_back_what_was_saved(m: SnapshotModel, tree: TreeModel)
    requires
        snapshot_storable(m),
        parse_tree(m.orchard_tree_blob) == Ok::<TreeModel, Fault>(tree),
    ensures
        parse_snapshot(m.network_type, m.genesis_hash, snapshot_bytes(m)) == Ok::<
            LoadedModel,
            Fault,
        >(loaded_from(m, tree)),
{
    broadcast use {primitives_round_trip, list_round_trip};

    header_round_trip(m.network_type, m.genesis_hash, body_bytes(m));
    let after_user = u64_then(
        m.next_tip_h,
        list_then::<Key>(
            m.hashes,
            list_then::<Anchor>(m.anchors, blob_then(m.orchard_tree_blob, seq![])),
        ),
    );
    wallet_round_trip(
        m.network_type,
        "miner_wallet"@,
        m.miner_wallet,
        wallet_then(m.user_wallet, after_user),
    );
    wallet_round_trip(m.network_type, "user_wallet"@, m.user_wallet, after_user);
}

/// A snapshot whose blob is the bytes of a tree is loaded with that tree.
pub proof fn loading_gives_back_the_tree(m: SnapshotModel, tree: TreeModel)
    requires
        snapshot_storable(m),
        is_tree_blob(m.orchard_tree_blob, tree),
        tree_ok(tree),
        is_readable_tree(tree),
    ensures
        parse_snapshot(m.network_type, m.genesis_hash, snapshot_bytes(m)) == Ok::<
            LoadedModel,
            Fault,
        >(loaded_from(m, tree)),
{
    tree_round_trip(m.orchard_tree_blob, tree);
    loading_gives_back_what_was_saved(m, tree);
}

/// A snapshot of one network is refused on another, whatever it holds.
pub proof fn another_network_is_refused(m: SnapshotModel, net: NetworkType, genesis: [u8; 32])
    requires
        net != m.network_type,
    ensures
        parse_snapshot(net, genesis, snapshot_bytes(m)) == Err::<LoadedModel, Fault>(
            Fault::NetworkMismatch { found: m.network_type.text(), expected: net.text() },
        ),
{
    header_round_trip(m.network_type, m.genesis_hash, body_bytes(m));
}

/// A snapshot of one chain is refused on another chain of the same network, whatever it holds.
pub proof fn another_chain_is_refused(m: SnapshotModel, genesis: [u8; 32])
    requires
        genesis != m.genesis_hash,
    ensures
        parse_snapshot(m.network_type, genesis, snapshot_bytes(m)) == Err::<LoadedModel, Fault>(
            Fault::GenesisMismatch { found: m.genesis_hash, expected: genesis },
        ),
{
    header_round_trip(m.network_type, m.genesis_hash, body_bytes(m));
}

/// Bytes that are too few for the mark of a snapshot are truncated; other bytes without the mark are
/// no snapshot.
pub proof fn only_marked_bytes_are_read(net: NetworkType, genesis: [u8; 32], s: Seq<u8>)
    ensures
        s.len() < 8 ==> parse_snapshot(net, genesis, s) == Err::<LoadedModel, Fault>(
            Fault::Truncated,
        ),
        s.len() >= 8 && s.take(8) != magic() ==> parse_snapshot(net, genesis, s) == Err::<
            LoadedModel,
            Fault,
        >(Fault::BadMagic),
{
    reveal(parse_array);
    if s.len() >= 8 && s.take(8) != magic() {
        let b = s.take(8);
        let a: [u8; 8] = [b[0], b[1], b[2], b[3], b[4], b[5], b[6], b[7]];
        assert(a@ =~= b);
        lemma_array_of(a);
    }
}

/// What is read of a snapshot up to its end, the tree as bytes, and what follows.
spec fn parse_whole(net: NetworkType, genesis: [u8; 32], s: Seq<u8>) -> Parsed<SnapshotModel> {
    match parse_header(s) {
        Err(f) => Err(f),
        Ok(((n, g), s)) => if n != net {
            Err(Fault::NetworkMismatch { found: n.text(), expected: net.text() })
        } else if g != genesis {
            Err(Fault::GenesisMismatch { found: g, expected: genesis })
        } else {
            match parse_wallet(net, "miner_wallet"@, s) {
                Err(f) => Err(f),
                Ok((miner_wallet, s)) => match parse_wallet(net, "user_wallet"@, s) {
                    Err(f) => Err(f),
                    Ok((user_wallet, s)) => match parse_u64(s) {
                        Err(f) => Err(f),
                        Ok((next_tip_h, s)) => match parse_list::<Key>(net, s) {
                            Err(f) => Err(f),
                            Ok((hashes, s)) => match parse_list::<Anchor>(net, s) {
                                Err(f) => Err(f),
                                Ok((anchors, s)) => match parse_blob(s) {
                                    Err(f) => Err(f),
                                    Ok((orchard_tree_blob, s)) => Ok(
                                        (
                                            SnapshotModel {
                                                network_type: net,
                                                genesis_hash: genesis,
                                                miner_wallet,
                                                user_wallet,
                                                orchard_tree_blob,
                                                hashes,
                                                next_tip_h,
                                                anchors,
                                            },
                                            s,
                                        ),
                                    ),
                                },
                            },
                        },
                    },
                },
            }
        },
    }
}

proof fn lemma_wallet_extends(net: NetworkType, name: Seq<char>, s: Seq<u8>, more: Seq<u8>)
    ensures
        extended(parse_wallet(net, name, s), parse_wallet(net, name, s + more), more),
{
    broadcast use {primitives_extend, list_extends};

}

proof fn lemma_header_extends(s: Seq<u8>, more: Seq<u8>)
    ensures
        extended(parse_header(s), parse_header(s + more), more),
{
    broadcast use primitives_extend;

}

proof fn lemma_whole_extends(net: NetworkType, genesis: [u8; 32], s: Seq<u8>, more: Seq<u8>)
    ensures
        extended(parse_whole(net, genesis, s), parse_whole(net, genesis, s + more), more),
{
    broadcast use {primitives_extend, list_extends};

    lemma_header_extends(s, more);
    if let Ok((_, t)) = parse_header(s) {
        lemma_wallet_extends(net, "miner_wallet"@, t, more);
        if let Ok((_, u)) = parse_wallet(net, "miner_wallet"@, t) {
            lemma_wallet_extends(net, "user_wallet"@, u, more);
        }
    }
}

/// A snapshot that is cut short anywhere is refused as such: no part of one is ever loaded.
pub proof fn a_snapshot_cut_short_is_refused(m: SnapshotModel, n: int)
    requires
        snapshot_storable(m),
        0 <= n < snapshot_bytes(m).len(),
    ensures
        parse_snapshot(m.network_type, m.genesis_hash, snapshot_bytes(m).take(n)) == Err::<
            LoadedModel,
            Fault,
        >(Fault::Truncated),
{
    let all = snapshot_bytes(m);
    let (s, more) = (all.take(n), all.skip(n));
    assert(s + more =~= all);
    lemma_whole_extends(m.network_type, m.genesis_hash, s, more);
    lemma_whole_read_back(m);
    if let Ok((_, rest)) = parse_whole(m.network_type, m.genesis_hash, s) {
        assert((rest + more).len() > 0);
    }
}

proof fn lemma_whole_read_back(m: SnapshotModel)
    requires
        snapshot_storable(m),
    ensures
        parse_whole(m.network_type, m.genesis_hash, snapshot_bytes(m)) matches Ok((_, rest))
            && rest.len() == 0,
{
    broadcast use {primitives_round_trip, list_round_trip};

    header_round_trip(m.network_type, m.genesis_hash, body_bytes(m));
    let after_user = u64_then(
        m.next_tip_h,
        list_then::<Key>(
            m.hashes,
            list_then::<Anchor>(m.anchors, blob_then(m.orchard_tree_blob, seq![])),
        ),
    );
    wallet_round_trip(
        m.network_type,
        "miner_wallet"@,
        m.miner_wallet,
        wallet_then(m.user_wallet, after_user),
    );
    wallet_round_trip(m.network_type, "user_wallet"@, m.user_wallet, after_user);
}

/// What was saved of a wallet is there again after loading: every account with its viewing key, its
/// heights and all its outputs and notes, spent and unspent, every stream, every transaction, the tip, and
/// what was seen of bonds. Every transaction is found at its height.
pub proof fn a_loaded_wallet_has_everything(m: WalletModel, name: Seq<char>, i: int)
    requires
        forall|j: int, k: int|
            0 <= j < k < m.txs.len() ==> (#[trigger] m.txs[j]).txid != (#[trigger] m.txs[k]).txid,
    ensures
        ({
            let r = restored_wallet(m, name);
            &&& r.name == name
            &&& r.txs == m.txs
            &&& r.strms == m.strms
            &&& r.chain_tip_h == m.chain_tip_h
            &&& r.seen_bond_values == m.seen_bond_values
            &&& r.care_about_bonds == m.care_about_bonds
            &&& r.accounts.len() == m.accounts.len()
            &&& 0 <= i < m.accounts.len() ==> {
                let (a, b) = (m.accounts[i], r.accounts[i]);
                &&& b.ufvk == a.ufvk
                &&& b.birthday == a.birthday
                &&& b.fully_detected_h == a.fully_detected_h
                &&& b.fully_decoded_h == a.fully_decoded_h
                &&& b.recv_txos == a.recv_txos
                &&& b.utxos == a.utxos
                &&& b.stxos == a.stxos
                &&& b.recv_orchard_notes == a.recv_orchard_notes
                &&& b.unspent_orchard_notes == a.unspent_orchard_notes
                &&& b.spent_orchard_notes == a.spent_orchard_notes
                &&& b.balance_changes.len() == 1
                &&& b.balance_changes[0] == (BlockHeight(0), Zatoshis { zats: 0 })
            }
            &&& 0 <= i < m.txs.len() ==> r.tx_h_map.contains_key(m.txs[i].txid)
                && r.tx_h_map[m.txs[i].txid] == m.txs[i].h
        }),
{
    lemma_heights_of(m.txs);
}

/// A snapshot is loaded with the wallets in their places, and with the chain and the anchors that were
/// saved.
pub proof fn a_loaded_snapshot_has_everything(m: SnapshotModel, tree: TreeModel, l: LoadedModel)
    requires
        snapshot_storable(m),
        parse_tree(m.orchard_tree_blob) == Ok::<TreeModel, Fault>(tree),
        parse_snapshot(m.network_type, m.genesis_hash, snapshot_bytes(m)) == Ok::<LoadedModel, Fault>(l),
    ensures
        l.miner_wallet.txs == m.miner_wallet.txs,
        l.user_wallet.txs == m.user_wallet.txs,
        l.miner_wallet.strms == m.miner_wallet.strms,
        l.user_wallet.strms == m.user_wallet.strms,
        l.miner_wallet.accounts.len() == m.miner_wallet.accounts.len(),
        l.user_wallet.accounts.len() == m.user_wallet.accounts.len(),
        forall|i: int|
            0 <= i < m.user_wallet.accounts.len() ==> (
            #[trigger] l.user_wallet.accounts[i]).unspent_orchard_notes
                == m.user_wallet.accounts[i].unspent_orchard_notes,
        forall|i: int|
            0 <= i < m.miner_wallet.accounts.len() ==> (
            #[trigger] l.miner_wallet.accounts[i]).unspent_orchard_notes
                == m.miner_wallet.accounts[i].unspent_orchard_notes,
        l.miner_wallet.chain_tip_h == m.miner_wallet.chain_tip_h,
        l.user_wallet.chain_tip_h == m.user_wallet.chain_tip_h,
        l.hashes == m.hashes,
        l.next_tip_h == m.next_tip_h,
        l.anchors == m.anchors,
        l.orchard_tree == tree,
        l.network_type == m.network_type,
        l.genesis_hash == m.genesis_hash,
{
    loading_gives_back_what_was_saved(m, tree);
}

} // verus!
