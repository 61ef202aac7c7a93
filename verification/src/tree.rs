//! The orchard note commitment tree, and its form in a snapshot.
use crate::height::BlockHeight;
use crate::orchard_parts::canonical_base;
use crate::shard_form::{can_be_cut, is_shard, MAX_NESTING};
use vstd::prelude::*;

verus! {

/// How many of the tree's checkpoints are kept.
pub const ORCHARD_REORG_DEPTH: usize = 100;

/// The number of shards of a tree of depth 32 whose shards have height 16.
pub const MAX_SHARDS: u64 = 65_536;

/// The level of a shard's root.
pub const SHARD_LEVEL: u8 = 16;

/// What a tree holds.
#[verifier::ext_equal]
pub struct TreeModel {
    pub shards: Seq<(u8, u64, Seq<u8>)>,
    pub checkpoints: Map<u32, (Option<u64>, Set<u64>)>,
    pub cap: Seq<u8>,
}

/// A `ShardTree` of `shardtree` that is held in memory, of depth 32, with shards of height 16.
#[verifier::external_body]
pub struct TreeStore {
    tree: shardtree::ShardTree<
        shardtree::store::memory::MemoryShardStore<orchard::tree::MerkleHashOrchard, u32>,
        32,
        16,
    >,
}

/// The orchard note commitment tree, with a checkpoint for each block height.
pub struct OrchardShardTree {
    store: TreeStore,
}

/// The tree's shards from the left: level and index of the root, and the bytes that `write_shard`
/// of `zcash_client_backend` gives.
pub uninterp spec fn tree_shards(t: TreeStore) -> Seq<(u8, u64, Seq<u8>)>;

/// The tree's checkpoints: under each id the position of the last leaf, if there was one, and the
/// positions whose marks were removed since the checkpoint before.
pub uninterp spec fn tree_checkpoints(t: TreeStore) -> Map<u32, (Option<u64>, Set<u64>)>;

/// The tree above the shards, as the bytes that `write_shard` of `zcash_client_backend` gives.
pub uninterp spec fn tree_cap(t: TreeStore) -> Seq<u8>;

/// Whether `read_shard` of `zcash_client_backend` accepts some bytes that are those of one shard: the
/// version, the hashes and the flags.
pub uninterp spec fn shard_reads(s: Seq<u8>) -> bool;

/// The number of leaves that shards hold: one more than the position that `max_leaf_position` of
/// `shardtree` gives for a tree with these shards, or none.
pub uninterp spec fn leaf_count(shards: Seq<(u8, u64, Seq<u8>)>) -> u64;

impl View for TreeStore {
    type V = TreeModel;

    open spec fn view(&self) -> TreeModel {
        TreeModel {
            shards: tree_shards(*self),
            checkpoints: tree_checkpoints(*self),
            cap: tree_cap(*self),
        }
    }
}

impl View for OrchardShardTree {
    type V = TreeModel;

    closed spec fn view(&self) -> TreeModel {
        self.store@
    }
}

/// Whether each of some shards has the index of its place.
pub open spec fn in_place(v: Seq<(u8, u64, Seq<u8>)>) -> bool {
    forall|i: int| 0 <= i < v.len() ==> (#[trigger] v[i]).1 == i
}

/// Shards that make up a tree: each at the level of shards and at the index of its place, no deeper
/// than that level, and no more of them than a tree has.
pub open spec fn shards_ok(v: Seq<(u8, u64, Seq<u8>)>) -> bool {
    &&& v.len() <= MAX_SHARDS
    &&& forall|i: int|
        0 <= i < v.len() ==> (#[trigger] v[i]).0 == SHARD_LEVEL && v[i].1 == i && is_shard(
            v[i].2,
            SHARD_LEVEL as nat,
        )
}

/// Whether the shard that holds a position can be addressed.
pub open spec fn addressable(position: u64) -> bool {
    position / 65536 <= usize::MAX
}

/// Whether a checkpoint can stand at a position, of which there is a next one.
pub open spec fn position_ok(position: Option<u64>) -> bool {
    position matches Some(p) ==> p < u64::MAX && addressable(p)
}

/// Whether each of some marks is at a position that can be addressed.
pub open spec fn marks_ok(marks: Set<u64>) -> bool {
    forall|m: u64| #[trigger] marks.contains(m) ==> addressable(m)
}

pub open spec fn checkpoints_ok(c: Map<u32, (Option<u64>, Set<u64>)>) -> bool {
    &&& c.dom().finite()
    &&& forall|id: u32| #[trigger]
        c.contains_key(id) ==> position_ok(c[id].0) && marks_ok(c[id].1)
}

/// What holds of every tree.
pub open spec fn tree_ok(m: TreeModel) -> bool {
    &&& shards_ok(m.shards)
    &&& checkpoints_ok(m.checkpoints)
    &&& is_shard(m.cap, MAX_NESTING as nat)
}

impl OrchardShardTree {
    /// What holds of every tree.
    #[verifier::type_invariant]
    pub open spec fn inv(self) -> bool {
        tree_ok(self@)
    }

    /// A tree of its parts.
    pub(crate) fn from_store(store: TreeStore) -> (t: OrchardShardTree)
        requires
            tree_ok(store@),
        ensures
            t@ == store@,
    {
        OrchardShardTree { store }
    }

    pub(crate) fn store(&self) -> (r: &TreeStore)
        ensures
            r@ == self@,
            tree_ok(self@),
    {
        proof {
            use_type_invariant(self);
        }
        &self.store
    }
}

/// A tree after `ShardTree::append` of `shardtree` has put a marked leaf behind all others; none where
/// it refuses to.
pub uninterp spec fn tree_with_leaf(m: TreeModel, leaf: Seq<u8>) -> Option<TreeModel>;

/// A tree after `ShardTree::checkpoint` of `shardtree` has made a checkpoint.
pub uninterp spec fn tree_with_checkpoint(m: TreeModel, id: u32) -> TreeModel;

/// A tree after `ShardTree::truncate_to_checkpoint` of `shardtree` has cut it back to a checkpoint; none
/// where it does not.
pub uninterp spec fn tree_cut_to(m: TreeModel, id: u32) -> Option<TreeModel>;

/// The root that `ShardTree::root_at_checkpoint_id` of `shardtree` gives for a checkpoint of a tree.
pub uninterp spec fn root_of(m: TreeModel, id: u32) -> Option<[u8; 32]>;

/// What the tree says of the way from a leaf to the root of a checkpoint.
#[derive(Clone, Copy, Debug, PartialEq, Eq)]
pub enum Witness {
    /// The hashes beside the way, from the leaf up.
    Path([[u8; 32]; 32]),
    /// There is no such checkpoint.
    NoCheckpoint,
    /// The way cannot be given.
    Failed,
}

/// Whether the hashes of a way are elements of the curve's base field.
pub open spec fn path_ok(p: [[u8; 32]; 32]) -> bool {
    forall|i: int| 0 <= i < 32 ==> canonical_base((#[trigger] p@[i])@)
}

/// The witness that `ShardTree::witness_at_checkpoint_id` of `shardtree` gives for a leaf and a
/// checkpoint of a tree.
pub uninterp spec fn witness_of(m: TreeModel, position: u64, id: u32) -> Witness;

/// The bytes of a tree without leaves.
pub open spec fn empty_shard() -> Seq<u8> {
    seq![1u8, 0u8]
}

pub open spec fn no_shards() -> Seq<(u8, u64, Seq<u8>)> {
    seq![]
}

pub open spec fn no_marks() -> Set<u64> {
    Set::empty()
}

pub open spec fn no_checkpoints() -> Map<u32, (Option<u64>, Set<u64>)> {
    Map::empty()
}

/// Shards with one put in its place. Empty ones fill the gap before it.
pub open spec fn with_shard(
    shards: Seq<(u8, u64, Seq<u8>)>,
    level: u8,
    index: u64,
    shard: Seq<u8>,
) -> Seq<(u8, u64, Seq<u8>)> {
    if index < shards.len() {
        shards.update(index as int, (level, index, shard))
    } else {
        let gap = Seq::new(
            (index - shards.len()) as nat,
            |i: int| (level, (shards.len() + i) as u64, empty_shard()),
        );
        (shards + gap).push((level, index, shard))
    }
}

/// The newest of some checkpoints, as many as are kept.
pub open spec fn newest_of(
    before: Map<u32, (Option<u64>, Set<u64>)>,
    after: Map<u32, (Option<u64>, Set<u64>)>,
) -> bool {
    &&& after.submap_of(before)
    &&& after.dom().len() == if before.dom().len() < ORCHARD_REORG_DEPTH {
        before.dom().len()
    } else {
        ORCHARD_REORG_DEPTH as nat
    }
    &&& forall|gone: u32, kept: u32|
        #![trigger before.contains_key(gone), after.contains_key(kept)]
        before.contains_key(gone) && !after.contains_key(gone) && after.contains_key(kept) ==> gone
            < kept
}

/// `ShardTree::new` of `shardtree` over an empty `MemoryShardStore`: no shard, no checkpoint, and
/// nothing above the shards.
#[verifier::external_body]
pub(crate) fn new_tree() -> (t: TreeStore)
    ensures
        tree_shards(t) == no_shards(),
        tree_checkpoints(t) == no_checkpoints(),
        tree_cap(t) == empty_shard(),
{
    let store = shardtree::store::memory::MemoryShardStore::empty();
    TreeStore { tree: shardtree::ShardTree::new(store, ORCHARD_REORG_DEPTH) }
}

/// `read_shard` of `zcash_client_backend`: whether it accepts the bytes of a shard. It calls itself
/// for each parent, so the shard must not be nested deeper than may be.
#[verifier::external_body]
pub(crate) fn is_readable(shard: &[u8]) -> (r: bool)
    requires
        is_shard(shard@, MAX_NESTING as nat),
    ensures
        r == shard_reads(shard@),
{
    zcash_client_backend::serialization::shardtree::read_shard::<
        orchard::tree::MerkleHashOrchard,
        _,
    >(shard).is_ok()
}

/// `LocatedPrunableTree::from_parts` of `shardtree`, on the shard that `read_shard` reads: whether
/// the shard is nested no deeper than the level of its root.
#[verifier::external_body]
pub(crate) fn is_located(level: u8, index: u64, shard: &[u8]) -> (r: bool)
    requires
        is_shard(shard@, MAX_NESTING as nat),
        shard_reads(shard@),
    ensures
        r == is_shard(shard@, level as nat),
{
    let root = incrementalmerkletree::Address::from_parts(level.into(), index);
    let tree = zcash_client_backend::serialization::shardtree::read_shard::<
        orchard::tree::MerkleHashOrchard,
        _,
    >(shard).unwrap();
    shardtree::LocatedPrunableTree::from_parts(root, tree).is_ok()
}

/// `put_shard` of `shardtree`'s `MemoryShardStore`: the shard is put in its place, behind empty
/// ones where there were fewer, and nothing else changes.
#[verifier::external_body]
pub(crate) fn put_shard(t: &mut TreeStore, level: u8, index: u64, shard: &[u8])
    requires
        in_place(old(t)@.shards),
        is_shard(shard@, level as nat),
        shard_reads(shard@),
        index < MAX_SHARDS,
    ensures
        tree_shards(*final(t)) == with_shard(tree_shards(*old(t)), level, index, shard@),
        tree_checkpoints(*final(t)) == tree_checkpoints(*old(t)),
        tree_cap(*final(t)) == tree_cap(*old(t)),
{
    let root = incrementalmerkletree::Address::from_parts(level.into(), index);
    let tree = zcash_client_backend::serialization::shardtree::read_shard(shard).unwrap();
    let located = shardtree::LocatedPrunableTree::from_parts(root, tree).unwrap();
    let Ok(()) = shardtree::store::ShardStore::put_shard(t.tree.store_mut(), located);
}

/// `add_checkpoint` of `shardtree`'s `MemoryShardStore`: the checkpoint stands under its id, in the
/// place of one that was there, and nothing else changes.
#[verifier::external_body]
pub(crate) fn put_checkpoint(t: &mut TreeStore, id: u32, position: Option<u64>, marks: &[u64])
    ensures
        tree_checkpoints(*final(t)) == tree_checkpoints(*old(t)).insert(
            id,
            (position, marks@.to_set()),
        ),
        tree_shards(*final(t)) == tree_shards(*old(t)),
        tree_cap(*final(t)) == tree_cap(*old(t)),
{
    let state = match position {
        Some(p) => shardtree::store::TreeState::AtPosition(p.into()),
        None => shardtree::store::TreeState::Empty,
    };
    let marks = marks.iter().map(|m| incrementalmerkletree::Position::from(*m)).collect();
    let c = shardtree::store::Checkpoint::from_parts(state, marks);
    let Ok(()) = shardtree::store::ShardStore::add_checkpoint(t.tree.store_mut(), id, c);
}

/// `put_cap` of `shardtree`'s `MemoryShardStore`, on the tree that `read_shard` reads: it stands
/// above the shards, and nothing else changes.
#[verifier::external_body]
pub(crate) fn put_cap(t: &mut TreeStore, cap: &[u8])
    requires
        is_shard(cap@, MAX_NESTING as nat),
        shard_reads(cap@),
    ensures
        tree_cap(*final(t)) == cap@,
        tree_shards(*final(t)) == tree_shards(*old(t)),
        tree_checkpoints(*final(t)) == tree_checkpoints(*old(t)),
{
    let cap = zcash_client_backend::serialization::shardtree::read_shard(cap).unwrap();
    let Ok(()) = shardtree::store::ShardStore::put_cap(t.tree.store_mut(), cap);
}

/// `get_shard_roots` of `shardtree`'s `MemoryShardStore`: level and index of each shard's root, from
/// the left.
#[verifier::external_body]
pub(crate) fn shard_roots(t: &TreeStore) -> (r: Vec<(u8, u64)>)
    ensures
        r@.len() == tree_shards(*t).len(),
        forall|i: int|
            0 <= i < r@.len() ==> #[trigger] r@[i] == (tree_shards(*t)[i].0, tree_shards(*t)[i].1),
{
    let Ok(roots) = shardtree::store::ShardStore::get_shard_roots(t.tree.store());
    roots.iter().map(|a| (u8::from(a.level()), a.index())).collect()
}

/// `get_shard` of `shardtree`'s `MemoryShardStore`, and `write_shard` of `zcash_client_backend`: the
/// bytes of a shard, which `read_shard` accepts.
#[verifier::external_body]
pub(crate) fn shard_bytes(t: &TreeStore, level: u8, index: u64) -> (r: Vec<u8>)
    requires
        shards_ok(t@.shards),
        index < t@.shards.len(),
        level == SHARD_LEVEL,
    ensures
        r@ == tree_shards(*t)[index as int].2,
        shard_reads(r@),
{
    let root = incrementalmerkletree::Address::from_parts(level.into(), index);
    let Ok(shard) = shardtree::store::ShardStore::get_shard(t.tree.store(), root);
    let mut out = Vec::new();
    let written = zcash_client_backend::serialization::shardtree::write_shard(
        &mut out,
        shard.unwrap().root(),
    );
    written.unwrap();
    out
}

/// `for_each_checkpoint` of `shardtree`'s `MemoryShardStore`: every checkpoint with its id, the ids
/// in ascending order, and the positions whose marks were removed in ascending order.
#[verifier::external_body]
pub(crate) fn checkpoint_list(t: &TreeStore) -> (r: Vec<(u32, Option<u64>, Vec<u64>)>)
    ensures
        forall|i: int, j: int| 0 <= i < j < r@.len() ==> #[trigger] r@[i].0 < #[trigger] r@[j].0,
        forall|i: int|
            0 <= i < r@.len() ==> tree_checkpoints(*t).contains_key(#[trigger] r@[i].0)
                && tree_checkpoints(*t)[r@[i].0] == (r@[i].1, r@[i].2@.to_set()),
        forall|id: u32|
            tree_checkpoints(*t).contains_key(id) ==> exists|i: int|
                0 <= i < r@.len() && #[trigger] r@[i].0 == id,
{
    let mut r = Vec::new();
    let Ok(()) = shardtree::store::ShardStore::for_each_checkpoint(
        t.tree.store(),
        usize::MAX,
        |id, c| {
            let marks = c.marks_removed().iter().map(|m| u64::from(*m)).collect();
            Ok(r.push((*id, c.position().map(u64::from), marks)))
        },
    );
    r
}

/// `get_cap` of `shardtree`'s `MemoryShardStore`, and `write_shard` of `zcash_client_backend`: the
/// bytes of the tree above the shards, which `read_shard` accepts.
#[verifier::external_body]
pub(crate) fn cap_bytes(t: &TreeStore) -> (r: Vec<u8>)
    requires
        is_shard(t@.cap, MAX_NESTING as nat),
    ensures
        r@ == tree_cap(*t),
        shard_reads(r@),
{
    let Ok(cap) = shardtree::store::ShardStore::get_cap(t.tree.store());
    let mut out = Vec::new();
    zcash_client_backend::serialization::shardtree::write_shard(&mut out, &cap).unwrap();
    out
}

/// What is left of some checkpoints when the tree is truncated to one of them: those up to it, and
/// of it no removed marks.
pub open spec fn checkpoints_up_to(
    c: Map<u32, (Option<u64>, Set<u64>)>,
    id: u32,
) -> Map<u32, (Option<u64>, Set<u64>)> {
    Map::new(
        |k: u32| k <= id && c.contains_key(k),
        |k: u32| if k == id { (c[k].0, no_marks()) } else { c[k] },
    )
}

/// `ShardTree::truncate_to_checkpoint` of `shardtree`: whether the tree was cut back to a checkpoint;
/// otherwise it stays what it was. It is cut where there is that checkpoint, unless the shard with the
/// checkpoint's leaf is missing or cannot be cut behind it. An empty checkpoint leaves no shard. Otherwise
/// the shards left of the checkpoint's leaf stay, and there is no leaf behind it.
#[verifier::external_body]
fn truncate_tree(t: &mut TreeStore, id: u32) -> (r: bool)
    requires
        tree_ok(old(t)@),
    ensures
        r == tree_cut_to(old(t)@, id) is Some,
        r ==> Some(final(t)@) == tree_cut_to(old(t)@, id),
        !r ==> final(t)@ == old(t)@,
        cut_facts(old(t)@, final(t)@, id, r),
        tree_ok(final(t)@),
    no_unwind
{
    t.tree.truncate_to_checkpoint(&id).unwrap_or(false)
}

/// Whether a tree can be cut back to a checkpoint: there is one, and either it is empty, or the shard with
/// its leaf can be cut behind that.
pub open spec fn cuttable(m: TreeModel, id: u32) -> bool {
    m.checkpoints.contains_key(id) && match m.checkpoints[id].0 {
        None => true,
        Some(p) => p / 65536 < m.shards.len() && can_be_cut(
            m.shards[p as int / 65536].2,
            1,
            65536,
            p as int % 65536,
        ),
    }
}

/// What is seen of a tree after it was cut back to a checkpoint (`done`), or was not.
pub open spec fn cut_facts(before: TreeModel, after: TreeModel, id: u32, done: bool) -> bool {
    &&& done == cuttable(before, id)
    &&& done ==> after.checkpoints == checkpoints_up_to(before.checkpoints, id)
    &&& done ==> match before.checkpoints[id].0 {
        None => after.shards == no_shards() && after.cap == empty_shard(),
        Some(p) => leaf_count(after.shards) <= p + 1 && after.shards.len() == p / 65536 + 1
            && after.shards.take(p as int / 65536) == before.shards.take(p as int / 65536),
    }
}

/// A tree after an attempt to cut it back to a checkpoint: it is cut where that can be done, and stays
/// what it was where not.
pub open spec fn cut_or_same(m: TreeModel, id: u32) -> TreeModel {
    match tree_cut_to(m, id) {
        Some(cut) => cut,
        None => m,
    }
}

/// Cuts the tree back to the checkpoint of a height. Whether it did so.
pub fn truncate_orchard_tree_to(tree: &mut OrchardShardTree, target_h: BlockHeight) -> (r: bool)
    ensures
        r == tree_cut_to(old(tree)@, target_h.0) is Some,
        final(tree)@ == cut_or_same(old(tree)@, target_h.0),
        cut_facts(old(tree)@, final(tree)@, target_h.0, r),
{
    proof {
        use_type_invariant(&*tree);
    }
    truncate_tree(&mut tree.store, target_h.0)
}

/// A tree without leaves, with a checkpoint at height zero.
pub open spec fn fresh() -> TreeModel {
    TreeModel {
        shards: no_shards(),
        checkpoints: map![0u32 => (None::<u64>, no_marks())],
        cap: empty_shard(),
    }
}

/// A tree without leaves, with a checkpoint at height zero.
pub fn fresh_tree() -> (t: OrchardShardTree)
    ensures
        t@ == fresh(),
{
    let mut t = new_tree();
    assert(is_shard(empty_shard(), MAX_NESTING as nat));
    let _ = checkpoint_store(&mut t, 0);
    OrchardShardTree::from_store(t)
}

/// How many leaves there are after one was put behind all others. In a tree whose last shard has none
/// it is the first of that shard.
pub open spec fn count_with_leaf(shards: Seq<(u8, u64, Seq<u8>)>) -> int {
    if shards.len() > 0 && leaf_count(shards) == 0 {
        (shards.len() - 1) * 65536 + 1
    } else {
        leaf_count(shards) + 1
    }
}

/// `ShardTree::append` of `shardtree`, of a marked leaf: it comes behind all others, and nothing stands
/// above the shards that did not before. Of the checkpoints the newest stay. A tree that is full, or
/// whose cap contradicts the leaf, refuses it and stays what it was.
#[verifier::external_body]
fn append_to_store(t: &mut TreeStore, cmx: &[u8; 32]) -> (r: bool)
    requires
        canonical_base(cmx@),
        tree_ok(old(t)@),
    ensures
        r == tree_with_leaf(old(t)@, cmx@) is Some,
        !r ==> final(t)@ == old(t)@,
        r ==> Some(final(t)@) == tree_with_leaf(old(t)@, cmx@),
        r ==> leaf_count(final(t)@.shards) == count_with_leaf(old(t)@.shards),
        r ==> final(t)@.cap == old(t)@.cap,
        r ==> newest_of(old(t)@.checkpoints, final(t)@.checkpoints),
        tree_ok(final(t)@),
    no_unwind
{
    let cmx = orchard::note::ExtractedNoteCommitment::from_bytes(cmx).unwrap();
    let leaf = orchard::tree::MerkleHashOrchard::from_cmx(&cmx);
    t.tree.append(leaf, incrementalmerkletree::Retention::Marked).is_ok()
}

/// Puts a marked leaf behind all others. Whether the tree took it.
pub(crate) fn append_marked(tree: &mut OrchardShardTree, cmx: &[u8; 32]) -> (r: bool)
    requires
        canonical_base(cmx@),
    ensures
        r == tree_with_leaf(old(tree)@, cmx@) is Some,
        !r ==> final(tree)@ == old(tree)@,
        r ==> Some(final(tree)@) == tree_with_leaf(old(tree)@, cmx@),
        r ==> leaf_count(final(tree)@.shards) == count_with_leaf(old(tree)@.shards),
{
    proof {
        use_type_invariant(&*tree);
    }
    append_to_store(&mut tree.store, cmx)
}

/// `ShardTree::checkpoint` of `shardtree`: a checkpoint is made unless there is one with that id or
/// a higher one, and then the tree stays what it was. It has no removed marks, and no position in a tree
/// without shards; of all checkpoints the newest stay. What stands above the shards does not change, nor
/// how many shards there are. There are no more leaves than before: where what a shard ends with is a
/// parent that has a hash and nothing below it, that goes.
#[verifier::external_body]
fn checkpoint_store(t: &mut TreeStore, id: u32) -> (r: bool)
    requires
        tree_ok(old(t)@),
    ensures
        r == (forall|k: u32| #[trigger] old(t)@.checkpoints.contains_key(k) ==> k < id),
        !r ==> final(t)@ == old(t)@,
        r ==> final(t)@ == tree_with_checkpoint(old(t)@, id),
        r ==> final(t)@.checkpoints.contains_key(id),
        r ==> final(t)@.checkpoints[id].1 == no_marks(),
        r && old(t)@.shards.len() == 0 ==> final(t)@.checkpoints[id].0 is None && final(t)@.shards
            == old(t)@.shards,
        r ==> newest_of(
            old(t)@.checkpoints.insert(id, final(t)@.checkpoints[id]),
            final(t)@.checkpoints,
        ),
        final(t)@.shards.len() == old(t)@.shards.len(),
        leaf_count(final(t)@.shards) <= leaf_count(old(t)@.shards),
        final(t)@.cap == old(t)@.cap,
        tree_ok(final(t)@),
    no_unwind
{
    t.tree.checkpoint(id).unwrap()
}

/// Makes a checkpoint, unless there is one with that id or a higher one. Whether it did so.
pub(crate) fn add_checkpoint(tree: &mut OrchardShardTree, id: u32) -> (r: bool)
    ensures
        r == (forall|k: u32| #[trigger] old(tree)@.checkpoints.contains_key(k) ==> k < id),
        !r ==> final(tree)@ == old(tree)@,
        r ==> final(tree)@ == tree_with_checkpoint(old(tree)@, id),
{
    proof {
        use_type_invariant(&*tree);
    }
    checkpoint_store(&mut tree.store, id)
}

/// `ShardTree::root_at_checkpoint_id` of `shardtree`: the tree's root as of a checkpoint, if there is
/// such a checkpoint and the root can be given.
#[verifier::external_body]
fn store_root(t: &TreeStore, id: u32) -> (r: Option<[u8; 32]>)
    requires
        tree_ok(t@),
    ensures
        r == root_of(t@, id),
        !t@.checkpoints.contains_key(id) ==> r is None,
{
    let root = t.tree.root_at_checkpoint_id(&id).ok()??;
    Some(root.to_bytes())
}

/// The tree's root as of a checkpoint.
pub(crate) fn checkpoint_root(tree: &OrchardShardTree, id: u32) -> (r: Option<[u8; 32]>)
    ensures
        r == root_of(tree@, id),
        !tree@.checkpoints.contains_key(id) ==> r is None,
{
    store_root(tree.store(), id)
}

/// `ShardTree::witness_at_checkpoint_id` of `shardtree`: the hashes beside the way from a leaf to the
/// root as of a checkpoint, each of them an element of the curve's base field. There is no such
/// checkpoint if and only if the tree has none.
#[verifier::external_body]
fn store_witness(t: &TreeStore, position: u64, id: u32) -> (r: Witness)
    requires
        tree_ok(t@),
    ensures
        r == witness_of(t@, position, id),
        (r is NoCheckpoint) == !t@.checkpoints.contains_key(id),
        r matches Witness::Path(p) ==> path_ok(p),
{
    match t.tree.witness_at_checkpoint_id(position.into(), &id) {
        Ok(Some(path)) => Witness::Path(core::array::from_fn(|i| path.path_elems()[i].to_bytes())),
        Ok(None) => Witness::NoCheckpoint,
        Err(_) => Witness::Failed,
    }
}

/// The way from a leaf to the tree's root as of a checkpoint.
pub(crate) fn checkpoint_witness(tree: &OrchardShardTree, position: u64, id: u32) -> (r: Witness)
    ensures
        r == witness_of(tree@, position, id),
        (r is NoCheckpoint) == !tree@.checkpoints.contains_key(id),
        r matches Witness::Path(p) ==> path_ok(p),
{
    store_witness(tree.store(), position, id)
}

/// `ShardTree::max_leaf_position` of `shardtree`, for the whole tree: the number of leaves is one
/// more than the position of the last.
#[verifier::external_body]
fn last_leaf(t: &TreeStore) -> (r: Option<u64>)
    requires
        tree_ok(t@),
    ensures
        leaf_count(tree_shards(*t)) == (match r {
            Some(p) => p + 1,
            None => 0,
        }),
{
    t.tree.max_leaf_position(None).unwrap().map(u64::from)
}

/// The number of leaves in the tree.
pub fn shard_tree_size(tree: &OrchardShardTree) -> (r: u64)
    ensures
        r == leaf_count(tree@.shards),
{
    match last_leaf(tree.store()) {
        Some(p) => p + 1,
        None => 0,
    }
}

} // verus!
