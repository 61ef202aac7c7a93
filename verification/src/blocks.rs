//! Compact blocks: which of them continue the chain, and what they tell a wallet.
use crate::accounts::ManualWallet;
use crate::audit::{note_count, notes_countable, AuditLog};
use crate::books::{place_from, update_insert_i};
use crate::bytes::{array_from_slice, slices_eq};
use crate::compact::{compact_tx_read, read_compact_tx, CompactTx, ScanState};
use crate::height::BlockHeight;
use crate::orchard_scan::PreparedKeys;
use crate::pow_cache::PoWCache;
use crate::scan::notes_amounts_ok;
use crate::tree::{
    add_checkpoint, leaf_count, shard_tree_size, tree_with_checkpoint, OrchardShardTree, TreeModel,
};
use crate::wire::{array_of, lemma_array_holds, lemma_array_of};
use vstd::prelude::*;

verus! {

/// How many blocks are asked for at a time.
pub const MAX_BLOCKS_TO_DOWNLOAD_AT_TIME: u64 = 64;

/// A compact block, before its fields are looked at.
#[derive(Debug)]
pub struct CompactBlock {
    pub height: u64,
    pub hash: Vec<u8>,
    pub prev_hash: Vec<u8>,
    pub vtx: Vec<CompactTx>,
}

/// The hashes of a chain from height zero on.
pub open spec fn hash_at(hashes: Seq<[u8; 32]>, h: int) -> Option<Seq<u8>> {
    if 0 <= h < hashes.len() {
        Some(hashes[h]@)
    } else {
        None
    }
}

/// Whether every transaction of a block has an id of its length.
pub open spec fn ids_ok(vtx: Seq<CompactTx>) -> bool {
    forall|i: int| 0 <= i < vtx.len() ==> (#[trigger] vtx[i]).hash@.len() == 32
}

/// Whether a block continues a chain: its hash, its predecessor's and its transactions' have their
/// lengths, its height fits, is not zero and is that of the next block at most, and its predecessor
/// is the block below.
pub open spec fn continues(b: CompactBlock, hashes: Seq<[u8; 32]>) -> bool {
    &&& b.hash@.len() == 32
    &&& b.prev_hash@.len() == 32
    &&& ids_ok(b.vtx@)
    &&& 1 <= b.height <= u32::MAX
    &&& b.height <= hashes.len()
    &&& hash_at(hashes, b.height - 1) == Some(b.prev_hash@)
}

/// A chain with a block put on it, in the place of what was at its height and above.
pub open spec fn with_block(hashes: Seq<[u8; 32]>, b: CompactBlock) -> Seq<[u8; 32]> {
    hashes.take(b.height as int).push(array_of::<32>(b.hash@))
}

/// How many blocks continue a chain one after the other.
pub open spec fn continuing(blocks: Seq<CompactBlock>, hashes: Seq<[u8; 32]>) -> nat
    decreases blocks.len(),
{
    if blocks.len() == 0 || !continues(blocks[0], hashes) {
        0
    } else {
        1 + continuing(blocks.skip(1), with_block(hashes, blocks[0]))
    }
}

/// A chain with the first `n` of some blocks put on it.
pub open spec fn with_blocks(hashes: Seq<[u8; 32]>, blocks: Seq<CompactBlock>, n: nat) -> Seq<[u8; 32]>
    decreases n,
{
    if n == 0 || blocks.len() == 0 {
        hashes
    } else {
        with_blocks(with_block(hashes, blocks[0]), blocks.skip(1), (n - 1) as nat)
    }
}

/// What is to be done about the blocks of a range.
#[derive(Clone, Copy, Debug, PartialEq, Eq, Structural)]
pub enum BlockVerdict {
    /// The data cannot be used: ask again.
    Restart,
    /// The chain divides further back: ask again from there.
    AskFrom(u64),
    /// The first blocks continue the chain; none may.
    Took(usize),
}

/// From where to ask again, where the first block of a range does not continue the chain: 32 blocks
/// further back if the tree state is of another chain, and 64 if the hashes are.
pub open spec fn ask_again(req_start_h: u64, torn: bool, reorged: bool) -> u64 {
    let a = if torn {
        if req_start_h >= 32 {
            (req_start_h - 32) as u64
        } else {
            0
        }
    } else {
        req_start_h
    };
    if reorged {
        if a >= 64 {
            (a - 64) as u64
        } else {
            0
        }
    } else {
        a
    }
}

/// What is done about the blocks of a range that was asked for.
pub open spec fn block_verdict(
    blocks: Seq<CompactBlock>,
    hashes: Seq<[u8; 32]>,
    state_hash: Seq<u8>,
    req_start_h: u64,
) -> BlockVerdict {
    if blocks.len() == 0 {
        BlockVerdict::Took(0)
    } else if blocks[0].prev_hash@.len() != 32 || blocks[0].height == 0 {
        BlockVerdict::Restart
    } else {
        let torn = blocks[0].prev_hash@ != state_hash;
        let reorged = hash_at(hashes, blocks[0].height - 1) != Some(blocks[0].prev_hash@);
        if torn || reorged {
            BlockVerdict::AskFrom(ask_again(req_start_h, torn, reorged))
        } else {
            BlockVerdict::Took(continuing(blocks, hashes) as usize)
        }
    }
}

fn hash_is(c: &PoWCache, h: u64, hash: &[u8]) -> (r: bool)
    requires
        c.wf(),
    ensures
        r == (hash_at(c.hashes@, h as int) == Some(hash@)),
{
    match c.hash_at_h(h) {
        Some(x) => slices_eq(&x, hash),
        None => false,
    }
}

fn check_ids(vtx: &Vec<CompactTx>) -> (r: bool)
    ensures
        r == ids_ok(vtx@),
{
    let mut i: usize = 0;
    while i < vtx.len()
        invariant
            i <= vtx@.len(),
            forall|k: int| 0 <= k < i ==> (#[trigger] vtx@[k]).hash@.len() == 32,
        decreases vtx.len() - i,
    {
        if vtx[i].hash.len() != 32 {
            return false;
        }
        i += 1;
    }
    true
}

fn check_block(b: &CompactBlock, c: &PoWCache) -> (r: bool)
    requires
        c.wf(),
    ensures
        r == continues(*b, c.hashes@),
{
    b.hash.len() == 32 && b.prev_hash.len() == 32 && check_ids(&b.vtx) && b.height >= 1 && b.height
        <= 0xffff_ffff && b.height <= c.next_tip_h && hash_is(c, b.height - 1, &b.prev_hash)
}

/// Puts the blocks of a range onto the chain, as far as they continue it. What is to be done next.
pub fn accept_blocks(
    c: &mut PoWCache,
    blocks: &Vec<CompactBlock>,
    state_hash: &[u8; 32],
    req_start_h: u64,
) -> (r: BlockVerdict)
    requires
        old(c).wf(),
    ensures
        final(c).wf(),
        r == block_verdict(blocks@, old(c).hashes@, state_hash@, req_start_h),
        match r {
            BlockVerdict::Took(n) => n <= blocks@.len() && final(c).hashes@ == with_blocks(
                old(c).hashes@,
                blocks@,
                n as nat,
            ),
            _ => *final(c) == *old(c),
        },
{
    if blocks.len() == 0 {
        return BlockVerdict::Took(0);
    }
    if blocks[0].prev_hash.len() != 32 || blocks[0].height == 0 {
        return BlockVerdict::Restart;
    }
    let torn = !slices_eq(&blocks[0].prev_hash, state_hash);
    let reorged = !hash_is(c, blocks[0].height - 1, &blocks[0].prev_hash);
    if torn || reorged {
        let mut from: u64 = req_start_h;
        if torn {
            from = from.saturating_sub(MAX_BLOCKS_TO_DOWNLOAD_AT_TIME / 2);
        }
        if reorged {
            from = from.saturating_sub(MAX_BLOCKS_TO_DOWNLOAD_AT_TIME);
        }
        return BlockVerdict::AskFrom(from);
    }
    let ghost start = c.hashes@;
    let mut i: usize = 0;
    assert(blocks@.skip(0) =~= blocks@);
    while i < blocks.len() && check_block(&blocks[i], c)
        invariant
            i <= blocks@.len(),
            c.wf(),
            start == old(c).hashes@,
            continuing(blocks@, start) == i + continuing(blocks@.skip(i as int), c.hashes@),
            forall|n: nat|
                n <= blocks@.len() - i ==> #[trigger] with_blocks(
                    c.hashes@,
                    blocks@.skip(i as int),
                    n,
                ) == with_blocks(start, blocks@, (n + i) as nat),
        decreases blocks.len() - i,
    {
        let ghost before = c.hashes@;
        let b = &blocks[i];
        let hash: [u8; 32] = array_from_slice::<32>(&b.hash);
        proof {
            assert(hash@ =~= b.hash@);
            lemma_array_of(hash);
            assert(before.take(b.height as int) =~= if b.height == before.len() {
                before
            } else {
                before.take(b.height as int)
            });
        }
        c.push_new_tip(b.height, hash);
        i += 1;
        proof {
            let rest = blocks@.skip(i - 1);
            assert(rest.skip(1) =~= blocks@.skip(i as int));
            assert(rest[0] == blocks@[i - 1]);
            assert(c.hashes@ =~= with_block(before, rest[0]));
            assert forall|n: nat| n <= blocks@.len() - i implies #[trigger] with_blocks(
                c.hashes@,
                blocks@.skip(i as int),
                n,
            ) == with_blocks(start, blocks@, (n + i) as nat) by {
                assert(with_blocks(before, rest, (n + 1) as nat) == with_blocks(
                    start,
                    blocks@,
                    (n + 1 + (i - 1)) as nat,
                ));
            }
        }
    }
    proof {
        assert(with_blocks(c.hashes@, blocks@.skip(i as int), 0) == c.hashes@);
        assert(continuing(blocks@.skip(i as int), c.hashes@) == 0) by {
            if i < blocks@.len() {
                assert(blocks@.skip(i as int)[0] == blocks@[i as int]);
            }
        }
    }
    BlockVerdict::Took(i)
}

/// A chain never has a gap, and each block that was put on it has the block below as its
/// predecessor.
pub proof fn accepted_blocks_form_a_chain(blocks: Seq<CompactBlock>, hashes: Seq<[u8; 32]>)
    requires
        blocks.len() > 0,
        continues(blocks[0], hashes),
    ensures
        with_block(hashes, blocks[0]).len() == blocks[0].height + 1,
        hash_at(with_block(hashes, blocks[0]), blocks[0].height as int) == Some(
            array_of::<32>(blocks[0].hash@)@,
        ),
        hash_at(with_block(hashes, blocks[0]), blocks[0].height - 1) == Some(blocks[0].prev_hash@),
        forall|h: int|
            0 <= h < blocks[0].height ==> #[trigger] hash_at(with_block(hashes, blocks[0]), h)
                == hash_at(hashes, h),
{
}

/// How the transactions of a block are read, one after the other.
pub open spec fn scan_txs(
    st: ScanState,
    account_i: usize,
    keys: PreparedKeys,
    h: BlockHeight,
    vtx: Seq<CompactTx>,
) -> ScanState
    decreases vtx.len(),
{
    if vtx.len() == 0 {
        st
    } else {
        let before = scan_txs(st, account_i, keys, h, vtx.drop_last());
        if before.ok {
            compact_tx_read(before, account_i, keys, h, vtx.last())
        } else {
            before
        }
    }
}

/// The tree after a block: a checkpoint is made when the tree ends with the block, unless there is one
/// with its height or a higher one.
pub open spec fn checkpointed(tree: TreeModel, next: u64, h: u32) -> TreeModel {
    if next == leaf_count(tree.shards) && forall|k: u32| #[trigger]
        tree.checkpoints.contains_key(k) ==> k < h {
        tree_with_checkpoint(tree, h)
    } else {
        tree
    }
}

/// How a block is read.
pub open spec fn scan_block(st: ScanState, account_i: usize, keys: PreparedKeys, b: CompactBlock) -> ScanState {
    let h = BlockHeight(b.height as u32);
    let start = ScanState { insert_i: place_from(st.wallet.txs, st.insert_i, h.0), ..st };
    let read = scan_txs(start, account_i, keys, h, b.vtx@);
    if read.ok {
        ScanState { tree: checkpointed(read.tree, read.next, h.0), ..read }
    } else {
        read
    }
}

/// How some blocks are read, one after the other.
pub open spec fn scan_blocks_read(
    st: ScanState,
    account_i: usize,
    keys: PreparedKeys,
    blocks: Seq<CompactBlock>,
) -> ScanState
    decreases blocks.len(),
{
    if blocks.len() == 0 {
        st
    } else {
        let before = scan_blocks_read(st, account_i, keys, blocks.drop_last());
        if before.ok {
            scan_block(before, account_i, keys, blocks.last())
        } else {
            before
        }
    }
}

/// The number of actions in some transactions.
pub open spec fn action_count(vtx: Seq<CompactTx>) -> nat
    decreases vtx.len(),
{
    if vtx.len() == 0 {
        0
    } else {
        action_count(vtx.drop_last()) + vtx.last().actions@.len()
    }
}

/// The numbers of actions and of transactions in some blocks.
pub open spec fn block_sizes(blocks: Seq<CompactBlock>) -> (nat, nat)
    decreases blocks.len(),
{
    if blocks.len() == 0 {
        (0, 0)
    } else {
        let before = block_sizes(blocks.drop_last());
        let b = blocks.last();
        (before.0 + action_count(b.vtx@), before.1 + b.vtx@.len())
    }
}

proof fn lemma_txs_stopped(
    st: ScanState,
    account_i: usize,
    keys: PreparedKeys,
    h: BlockHeight,
    vtx: Seq<CompactTx>,
    n: int,
)
    requires
        0 <= n <= vtx.len(),
        !scan_txs(st, account_i, keys, h, vtx.take(n)).ok,
    ensures
        scan_txs(st, account_i, keys, h, vtx) == scan_txs(st, account_i, keys, h, vtx.take(n)),
    decreases vtx.len() - n,
{
    if n < vtx.len() {
        assert(vtx.take(n + 1).drop_last() =~= vtx.take(n));
        lemma_txs_stopped(st, account_i, keys, h, vtx, n + 1);
    } else {
        assert(vtx.take(n) =~= vtx);
    }
}

proof fn lemma_blocks_stopped(
    st: ScanState,
    account_i: usize,
    keys: PreparedKeys,
    blocks: Seq<CompactBlock>,
    n: int,
)
    requires
        0 <= n <= blocks.len(),
        !scan_blocks_read(st, account_i, keys, blocks.take(n)).ok,
    ensures
        scan_blocks_read(st, account_i, keys, blocks) == scan_blocks_read(
            st,
            account_i,
            keys,
            blocks.take(n),
        ),
    decreases blocks.len() - n,
{
    if n < blocks.len() {
        assert(blocks.take(n + 1).drop_last() =~= blocks.take(n));
        lemma_blocks_stopped(st, account_i, keys, blocks, n + 1);
    } else {
        assert(blocks.take(n) =~= blocks);
    }
}

proof fn lemma_action_count(vtx: Seq<CompactTx>, n: int)
    requires
        0 <= n <= vtx.len(),
    ensures
        action_count(vtx.take(n)) <= action_count(vtx),
    decreases vtx.len() - n,
{
    if n < vtx.len() {
        assert(vtx.take(n + 1).drop_last() =~= vtx.take(n));
        lemma_action_count(vtx, n + 1);
    } else {
        assert(vtx.take(n) =~= vtx);
    }
}

proof fn lemma_block_sizes(blocks: Seq<CompactBlock>, n: int)
    requires
        0 <= n <= blocks.len(),
    ensures
        block_sizes(blocks.take(n)).0 <= block_sizes(blocks).0,
        block_sizes(blocks.take(n)).1 <= block_sizes(blocks).1,
    decreases blocks.len() - n,
{
    if n < blocks.len() {
        assert(blocks.take(n + 1).drop_last() =~= blocks.take(n));
        lemma_block_sizes(blocks, n + 1);
    } else {
        assert(blocks.take(n) =~= blocks);
    }
}

/// The state of a scan.
pub open spec fn scan_state(
    wallet: &ManualWallet,
    tree: &OrchardShardTree,
    next: u64,
    insert_i: usize,
    log: &AuditLog,
) -> ScanState {
    ScanState {
        wallet: wallet@,
        tree: tree@,
        next,
        insert_i: insert_i as int,
        log: log@,
        ok: true,
    }
}

/// Whether a scan can go on over so many actions and transactions.
pub open spec fn scan_ok(
    wallet: &ManualWallet,
    account_i: usize,
    tree: &OrchardShardTree,
    next: u64,
    insert_i: usize,
    log: &AuditLog,
    actions: nat,
    txs: nat,
) -> bool {
    &&& account_i < wallet.accounts@.len()
    &&& wallet.tx_h_map.wf()
    &&& log.wf()
    &&& notes_countable(wallet@.accounts)
    &&& note_count(wallet@.accounts) + actions <= usize::MAX
    &&& notes_amounts_ok(wallet@.accounts[account_i as int])
    &&& insert_i <= wallet@.txs.len()
    &&& wallet@.txs.len() + txs < usize::MAX
    &&& next + actions <= u64::MAX
}

fn scan_block_txs(
    wallet: &mut ManualWallet,
    account_i: usize,
    keys: &PreparedKeys,
    h: BlockHeight,
    vtx: &Vec<CompactTx>,
    next: &mut u64,
    insert_i: &mut usize,
    tree: &mut OrchardShardTree,
    log: &mut AuditLog,
    more: Ghost<(nat, nat)>,
) -> (ok: bool)
    requires
        ids_ok(vtx@),
        scan_ok(
            old(wallet),
            account_i,
            old(tree),
            *old(next),
            *old(insert_i),
            old(log),
            action_count(vtx@) + more@.0,
            vtx@.len() + more@.1,
        ),
    ensures
        ({
            let after = scan_txs(
                scan_state(old(wallet), old(tree), *old(next), *old(insert_i), old(log)),
                account_i,
                *keys,
                h,
                vtx@,
            );
            &&& ok == after.ok
            &&& after == (ScanState {
                ok,
                ..scan_state(final(wallet), final(tree), *final(next), *final(insert_i), final(log))
            })
        }),
        scan_ok(
            final(wallet),
            account_i,
            final(tree),
            *final(next),
            *final(insert_i),
            final(log),
            more@.0,
            more@.1,
        ),
        final(wallet).seen_bond_values == old(wallet).seen_bond_values,
        *old(next) <= *final(next),
{
    let ghost st0 = scan_state(wallet, tree, *next, *insert_i, log);
    let mut i: usize = 0;
    while i < vtx.len()
        invariant
            i <= vtx@.len(),
            ids_ok(vtx@),
            st0 == scan_state(old(wallet), old(tree), *old(next), *old(insert_i), old(log)),
            scan_txs(st0, account_i, *keys, h, vtx@.take(i as int)) == scan_state(
                wallet,
                tree,
                *next,
                *insert_i,
                log,
            ),
            scan_ok(
                wallet,
                account_i,
                tree,
                *next,
                *insert_i,
                log,
                (action_count(vtx@) - action_count(vtx@.take(i as int)) + more@.0) as nat,
                (vtx@.len() - i + more@.1) as nat,
            ),
            action_count(vtx@.take(i as int)) <= action_count(vtx@),
            wallet.seen_bond_values == old(wallet).seen_bond_values,
            *old(next) <= *next,
        decreases vtx.len() - i,
    {
        proof {
            assert(vtx@.take(i + 1).drop_last() =~= vtx@.take(i as int));
            lemma_action_count(vtx@, i as int + 1);
        }
        let (_, _, ok) = read_compact_tx(
            wallet,
            account_i,
            keys,
            h,
            &vtx[i],
            next,
            insert_i,
            tree,
            log,
        );
        if !ok {
            proof {
                lemma_txs_stopped(st0, account_i, *keys, h, vtx@, i + 1);
            }
            return false;
        }
        i += 1;
    }
    assert(vtx@.take(i as int) =~= vtx@);
    true
}

/// Reads some blocks into an account of a wallet, and their commitments into the tree, with a
/// checkpoint after each block. Whether the tree took every commitment.
pub fn scan_blocks(
    wallet: &mut ManualWallet,
    account_i: usize,
    keys: &PreparedKeys,
    blocks: &Vec<CompactBlock>,
    start_pos: u64,
    tree: &mut OrchardShardTree,
    log: &mut AuditLog,
) -> (ok: bool)
    requires
        forall|i: int|
            0 <= i < blocks@.len() ==> ids_ok((#[trigger] blocks@[i]).vtx@) && blocks@[i].height
                <= u32::MAX,
        scan_ok(
            old(wallet),
            account_i,
            old(tree),
            start_pos,
            0,
            old(log),
            block_sizes(blocks@).0,
            block_sizes(blocks@).1,
        ),
    ensures
        ({
            let after = scan_blocks_read(
                scan_state(old(wallet), old(tree), start_pos, 0, old(log)),
                account_i,
                *keys,
                blocks@,
            );
            &&& ok == after.ok
            &&& final(wallet)@ == after.wallet
            &&& final(tree)@ == after.tree
            &&& final(log)@ == after.log
        }),
        final(wallet).tx_h_map.wf(),
        final(wallet).seen_bond_values == old(wallet).seen_bond_values,
        final(log).wf(),
        notes_countable(final(wallet)@.accounts),
{
    let mut next: u64 = start_pos;
    let mut insert_i: usize = 0;
    let ghost st0 = scan_state(wallet, tree, next, insert_i, log);
    let mut i: usize = 0;
    while i < blocks.len()
        invariant
            i <= blocks@.len(),
            forall|i: int|
                0 <= i < blocks@.len() ==> ids_ok((#[trigger] blocks@[i]).vtx@) && blocks@[i].height
                    <= u32::MAX,
            st0 == scan_state(old(wallet), old(tree), start_pos, 0, old(log)),
            scan_blocks_read(st0, account_i, *keys, blocks@.take(i as int)) == scan_state(
                wallet,
                tree,
                next,
                insert_i,
                log,
            ),
            block_sizes(blocks@.take(i as int)).0 <= block_sizes(blocks@).0,
            block_sizes(blocks@.take(i as int)).1 <= block_sizes(blocks@).1,
            scan_ok(
                wallet,
                account_i,
                tree,
                next,
                insert_i,
                log,
                (block_sizes(blocks@).0 - block_sizes(blocks@.take(i as int)).0) as nat,
                (block_sizes(blocks@).1 - block_sizes(blocks@.take(i as int)).1) as nat,
            ),
            wallet.seen_bond_values == old(wallet).seen_bond_values,
            start_pos <= next,
        decreases blocks.len() - i,
    {
        let b = &blocks[i];
        let h = BlockHeight(b.height as u32);
        proof {
            assert(blocks@.take(i + 1).drop_last() =~= blocks@.take(i as int));
            lemma_block_sizes(blocks@, i as int + 1);
        }
        let ghost done = block_sizes(blocks@.take(i + 1));
        update_insert_i(&wallet.txs, &mut insert_i, h);
        let ok = scan_block_txs(
            wallet,
            account_i,
            keys,
            h,
            &b.vtx,
            &mut next,
            &mut insert_i,
            tree,
            log,
            Ghost(
                (
                    (block_sizes(blocks@).0 - done.0) as nat,
                    (block_sizes(blocks@).1 - done.1) as nat,
                ),
            ),
        );
        if !ok {
            proof {
                lemma_blocks_stopped(st0, account_i, *keys, blocks@, i + 1);
            }
            return false;
        }
        if next == shard_tree_size(tree) {
            let _ = add_checkpoint(tree, h.0);
        }
        i += 1;
    }
    assert(blocks@.take(i as int) =~= blocks@);
    true
}

/// Whether a wallet has room for so many actions and transactions.
pub open spec fn has_room(wallet: &ManualWallet, actions: nat, txs: nat) -> bool {
    &&& wallet.accounts@.len() > 0
    &&& wallet.tx_h_map.wf()
    &&& notes_countable(wallet@.accounts)
    &&& note_count(wallet@.accounts) + actions <= usize::MAX
    &&& notes_amounts_ok(wallet@.accounts[0])
    &&& wallet@.txs.len() + txs < usize::MAX
}

/// Reads new blocks into the first accounts of two wallets, one after the other. The first of them
/// brings the commitments into the tree, behind those that are there. Whether the tree took them all;
/// nothing is read where its positions would run out.
pub fn scan_new_blocks(
    first: &mut ManualWallet,
    second: &mut ManualWallet,
    first_keys: &PreparedKeys,
    second_keys: &PreparedKeys,
    blocks: &Vec<CompactBlock>,
    tree: &mut OrchardShardTree,
    log: &mut AuditLog,
) -> (r: Option<bool>)
    requires
        forall|i: int|
            0 <= i < blocks@.len() ==> ids_ok((#[trigger] blocks@[i]).vtx@) && blocks@[i].height
                <= u32::MAX,
        has_room(old(first), block_sizes(blocks@).0, block_sizes(blocks@).1),
        has_room(old(second), block_sizes(blocks@).0, block_sizes(blocks@).1),
        block_sizes(blocks@).0 <= usize::MAX,
        old(log).wf(),
    ensures
        final(log).wf(),
        final(first).tx_h_map.wf() && final(second).tx_h_map.wf(),
        r is None == (leaf_count(old(tree)@.shards) + block_sizes(blocks@).0 > u64::MAX),
        match r {
            None => final(first)@ == old(first)@ && final(second)@ == old(second)@
                && final(tree)@ == old(tree)@ && final(log)@ == old(log)@,
            Some(ok) => {
                let at = leaf_count(old(tree)@.shards);
                let a = scan_blocks_read(
                    scan_state(old(first), old(tree), at, 0, old(log)),
                    0,
                    *first_keys,
                    blocks@,
                );
                let b = scan_blocks_read(
                    (ScanState { wallet: old(second)@, next: at, insert_i: 0, ..a }),
                    0,
                    *second_keys,
                    blocks@,
                );
                &&& final(first)@ == a.wallet
                &&& !a.ok ==> !ok && final(second)@ == old(second)@ && final(tree)@ == a.tree
                    && final(log)@ == a.log
                &&& a.ok ==> ok == b.ok && final(second)@ == b.wallet && final(tree)@ == b.tree
                    && final(log)@ == b.log
            },
        },
{
    let at: u64 = shard_tree_size(tree);
    let sizes = block_size(blocks);
    if sizes as u64 > u64::MAX - at {
        return None;
    }
    if !scan_blocks(first, 0, first_keys, blocks, at, tree, log) {
        return Some(false);
    }
    let ghost a = scan_blocks_read(
        scan_state(old(first), old(tree), at, 0, old(log)),
        0,
        *first_keys,
        blocks@,
    );
    assert(scan_state(second, tree, at, 0, log) == (ScanState {
        wallet: old(second)@,
        next: at,
        insert_i: 0,
        ..a
    }));
    Some(scan_blocks(second, 0, second_keys, blocks, at, tree, log))
}

/// How many actions some blocks hold.
fn block_size(blocks: &Vec<CompactBlock>) -> (r: usize)
    requires
        block_sizes(blocks@).0 <= usize::MAX,
    ensures
        r == block_sizes(blocks@).0,
{
    let mut n: usize = 0;
    let mut i: usize = 0;
    assert(blocks@.take(0) =~= seq![]);
    while i < blocks.len()
        invariant
            i <= blocks@.len(),
            block_sizes(blocks@).0 <= usize::MAX,
            n == block_sizes(blocks@.take(i as int)).0,
        decreases blocks.len() - i,
    {
        let vtx = &blocks[i].vtx;
        let ghost before = n as nat;
        proof {
            assert(blocks@.take(i + 1).drop_last() =~= blocks@.take(i as int));
            lemma_block_sizes(blocks@, i as int + 1);
            assert(block_sizes(blocks@.take(i + 1)).0 <= block_sizes(blocks@).0);
        }
        let mut k: usize = 0;
        assert(vtx@.take(0) =~= seq![]);
        while k < vtx.len()
            invariant
                k <= vtx@.len(),
                before + action_count(vtx@) <= usize::MAX,
                n == before + action_count(vtx@.take(k as int)),
            decreases vtx.len() - k,
        {
            proof {
                assert(vtx@.take(k + 1).drop_last() =~= vtx@.take(k as int));
                lemma_action_count(vtx@, k as int + 1);
            }
            n = n + vtx[k].actions.len();
            k += 1;
        }
        assert(vtx@.take(k as int) =~= vtx@);
        i += 1;
    }
    assert(blocks@.take(i as int) =~= blocks@);
    n
}

/// A block does not continue a chain that has another block, or none, where its predecessor is to be, nor
/// one that ends further below it.
pub proof fn a_block_needs_its_predecessor(b: CompactBlock, hashes: Seq<[u8; 32]>)
    ensures
        continues(b, hashes) ==> 1 <= b.height <= hashes.len() && hashes[b.height - 1]@
            == b.prev_hash@ && b.hash@.len() == 32,
        1 <= b.height <= hashes.len() && b.height <= u32::MAX && hashes[b.height - 1]@ == b.prev_hash@
            && b.hash@.len() == 32 && (forall|i: int|
            0 <= i < b.vtx@.len() ==> (#[trigger] b.vtx@[i]).hash@.len() == 32) ==> continues(b, hashes),
{
}

/// As many blocks are taken as continue the chain: each of them the chain with those before it, and the
/// next one, if there is one, does not. The chain then ends with the last of them, on top of its
/// predecessor, and is unchanged below the first.
pub proof fn as_many_blocks_are_taken_as_fit(blocks: Seq<CompactBlock>, hashes: Seq<[u8; 32]>, i: int)
    ensures
        ({
            let n = continuing(blocks, hashes);
            let r = with_blocks(hashes, blocks, n);
            &&& n <= blocks.len()
            &&& 0 <= i < n ==> continues(blocks[i], with_blocks(hashes, blocks, i as nat))
            &&& n < blocks.len() ==> !continues(blocks[n as int], r)
            &&& n == 0 ==> r == hashes
            &&& n > 0 ==> {
                let last = blocks[n - 1];
                &&& r.len() == last.height + 1
                &&& r.last()@ == last.hash@
                &&& r[last.height - 1]@ == last.prev_hash@
            }
        }),
    decreases blocks.len(),
{
    if blocks.len() > 0 && continues(blocks[0], hashes) {
        let rest = blocks.skip(1);
        let next = with_block(hashes, blocks[0]);
        as_many_blocks_are_taken_as_fit(rest, next, i - 1);
        lemma_array_holds::<32>(blocks[0].hash@);
        let n = continuing(blocks, hashes);
        if n > 1 {
            assert(rest[n - 2] == blocks[n - 1]);
        }
        if n < blocks.len() {
            assert(rest[n - 1] == blocks[n as int]);
        }
        if 0 < i < n {
            assert(rest[i - 1] == blocks[i]);
        }
        assert(with_blocks(hashes, blocks, n) == with_blocks(next, rest, (n - 1) as nat));
    }
}

/// Blocks whose first one does not fit are not taken. It is asked again from a place further back: 32
/// blocks if only the tree state is of another chain, 64 if only the hashes are, and 96 if both are, and
/// from the start where there are not as many.
pub proof fn what_does_not_fit_is_asked_again(
    blocks: Seq<CompactBlock>,
    hashes: Seq<[u8; 32]>,
    state_hash: Seq<u8>,
    req_start_h: u64,
)
    requires
        blocks.len() > 0,
        blocks[0].prev_hash@.len() == 32,
        blocks[0].height > 0,
    ensures
        ({
            let b = blocks[0];
            let v = block_verdict(blocks, hashes, state_hash, req_start_h);
            let torn = b.prev_hash@ != state_hash;
            let known = b.height <= hashes.len() && hashes[b.height - 1]@ == b.prev_hash@;
            let back: int = (if torn {
                32int
            } else {
                0
            }) + if known {
                0int
            } else {
                64
            };
            &&& v is AskFrom <==> torn || !known
            &&& v is AskFrom ==> v->AskFrom_0 == if req_start_h >= back {
                req_start_h - back
            } else {
                0
            }
            &&& !torn && known ==> v is Took
        }),
{
}

/// The transactions of a block are read one after the other, each at the block's height, up to the first
/// that cannot be read to its end.
pub proof fn a_block_is_read_in_order(
    st: ScanState,
    account_i: usize,
    keys: PreparedKeys,
    b: CompactBlock,
    rest: Seq<CompactTx>,
    tx: CompactTx,
)
    requires
        b.vtx@ == rest.push(tx),
        b.height <= u32::MAX,
    ensures
        ({
            let h = BlockHeight(b.height as u32);
            let start = ScanState { insert_i: place_from(st.wallet.txs, st.insert_i, h.0), ..st };
            let before = scan_txs(start, account_i, keys, h, rest);
            let after = scan_block(st, account_i, keys, b);
            &&& !before.ok ==> !after.ok
            &&& before.ok ==> after.wallet == compact_tx_read(before, account_i, keys, h, tx).wallet
                && after.next == compact_tx_read(before, account_i, keys, h, tx).next && after.ok
                == compact_tx_read(before, account_i, keys, h, tx).ok
        }),
{
    assert(rest.push(tx).drop_last() =~= rest);
}

/// After a block is read to its end, the tree has the checkpoint of the block, if the tree ends with the
/// block and every checkpoint was below. In every other case its checkpoints stay as they were.
pub proof fn a_block_leaves_a_checkpoint(
    st: ScanState,
    account_i: usize,
    keys: PreparedKeys,
    b: CompactBlock,
)
    requires
        b.height <= u32::MAX,
    ensures
        ({
            let h = BlockHeight(b.height as u32);
            let start = ScanState { insert_i: place_from(st.wallet.txs, st.insert_i, h.0), ..st };
            let read = scan_txs(start, account_i, keys, h, b.vtx@);
            let after = scan_block(st, account_i, keys, b);
            let ends = read.next == leaf_count(read.tree.shards);
            let first = forall|k: u32| #[trigger] read.tree.checkpoints.contains_key(k) ==> k < b.height;
            &&& after.ok == read.ok
            &&& read.ok && ends && first ==> after.tree == tree_with_checkpoint(read.tree, h.0)
            &&& !read.ok || !ends || !first ==> after.tree == read.tree
        }),
{
    let h = BlockHeight(b.height as u32);
    let start = ScanState { insert_i: place_from(st.wallet.txs, st.insert_i, h.0), ..st };
    let read = scan_txs(start, account_i, keys, h, b.vtx@);
    assert((forall|k: u32| #[trigger] read.tree.checkpoints.contains_key(k) ==> k < b.height) == (
    forall|k: u32| #[trigger] read.tree.checkpoints.contains_key(k) ==> k < h.0));
}

} // verus!
