//! The chain of decided BFT blocks, and what points into it.
use crate::byte_map::Key;
use crate::bytes::bytes_eq;
use crate::hardfork::{forks, HardFork, HardForkConfig};
use vstd::prelude::*;

verus! {

/// A 32-byte hash of a block.
pub type BlockHash = [u8; 32];

/// The signature of a finalizer on its vote.
#[derive(Clone, Copy, Debug, PartialEq, Eq)]
pub struct FatPointerSignature {
    pub pub_key: Key,
    pub vote_signature: [u8; 64],
}

/// A pointer to a BFT block together with the votes that decided it.
#[derive(Debug)]
pub struct FatPointerToBftBlock {
    /// The hash of the block that was voted for.
    pub points_at: BlockHash,
    /// The height and the round of the vote.
    pub height_round: [u8; 12],
    pub signatures: Vec<FatPointerSignature>,
}

/// What a fat pointer is.
#[verifier::ext_equal]
pub struct FatPointer {
    pub points_at: BlockHash,
    pub height_round: [u8; 12],
    pub signatures: Seq<FatPointerSignature>,
}

impl View for FatPointerToBftBlock {
    type V = FatPointer;

    open spec fn view(&self) -> FatPointer {
        FatPointer {
            points_at: self.points_at,
            height_round: self.height_round,
            signatures: self.signatures@,
        }
    }
}

/// Whether a hash is that of no block.
pub open spec fn is_no_hash(h: BlockHash) -> bool {
    h@ == Seq::new(32, |i: int| 0u8)
}

impl FatPointer {
    /// Whether this points nowhere: there is nothing but zeros, and no signature.
    pub open spec fn is_null(self) -> bool {
        &&& is_no_hash(self.points_at)
        &&& self.height_round@ == Seq::new(12, |i: int| 0u8)
        &&& self.signatures.len() == 0
    }
}

impl FatPointerToBftBlock {
    /// The pointer that points nowhere.
    pub fn null() -> (r: FatPointerToBftBlock)
        ensures
            r@.is_null(),
    {
        let r = FatPointerToBftBlock {
            points_at: [0; 32],
            height_round: [0; 12],
            signatures: Vec::new(),
        };
        assert(r.points_at@ =~= Seq::new(32, |i: int| 0u8));
        assert(r.height_round@ =~= Seq::new(12, |i: int| 0u8));
        r
    }

    /// Whether this points nowhere.
    pub fn is_null(&self) -> (r: bool)
        ensures
            r == self@.is_null(),
    {
        let no_hash = [0u8; 32];
        let no_vote = [0u8; 12];
        assert(no_hash@ =~= Seq::new(32, |i: int| 0u8));
        assert(no_vote@ =~= Seq::new(12, |i: int| 0u8));
        proof {
            if self.points_at@ == no_hash@ {
                assert(self.points_at =~= no_hash);
            }
            if self.height_round@ == no_vote@ {
                assert(self.height_round =~= no_vote);
            }
        }
        bytes_eq(&self.points_at, &no_hash) && bytes_eq(&self.height_round, &no_vote)
            && self.signatures.len() == 0
    }

    /// The hash of the block that this points at.
    pub fn points_at_block_hash(&self) -> (r: BlockHash)
        ensures
            r == self.points_at,
    {
        self.points_at
    }

    /// The same pointer once more.
    pub fn copied(&self) -> (r: FatPointerToBftBlock)
        ensures
            r@ == self@,
    {
        let mut signatures: Vec<FatPointerSignature> = Vec::new();
        let mut i: usize = 0;
        while i < self.signatures.len()
            invariant
                i <= self.signatures@.len(),
                signatures@ == self.signatures@.take(i as int),
            decreases self.signatures@.len() - i,
        {
            signatures.push(self.signatures[i]);
            i += 1;
            assert(signatures@ =~= self.signatures@.take(i as int));
        }
        assert(self.signatures@.take(i as int) =~= self.signatures@);
        FatPointerToBftBlock {
            points_at: self.points_at,
            height_round: self.height_round,
            signatures,
        }
    }
}

/// A BFT block.
#[derive(Debug)]
pub struct BftBlock {
    pub version: u32,
    /// Its place in the chain.
    pub height: u32,
    pub previous_block_fat_ptr: FatPointerToBftBlock,
    /// The hashes of the headers of the best chain that it confirms: the first is that of the block
    /// that becomes final.
    pub headers: Vec<BlockHash>,
    pub hardforks: Vec<HardForkConfig>,
    /// The first height of the best chain at which a block may point at it.
    pub do_not_include_until_bc_height: u64,
    /// The hash of the block itself.
    pub hash: BlockHash,
}

/// What a BFT block is.
#[verifier::ext_equal]
pub struct BftModel {
    pub version: u32,
    pub height: u32,
    pub previous: FatPointer,
    pub headers: Seq<BlockHash>,
    pub hardforks: Seq<HardFork>,
    pub not_before: u64,
    pub hash: BlockHash,
}

impl View for BftBlock {
    type V = BftModel;

    open spec fn view(&self) -> BftModel {
        BftModel {
            version: self.version,
            height: self.height,
            previous: self.previous_block_fat_ptr@,
            headers: self.headers@,
            hardforks: forks(self.hardforks@),
            not_before: self.do_not_include_until_bc_height,
            hash: self.hash,
        }
    }
}

/// What some blocks are.
pub open spec fn chain(s: Seq<BftBlock>) -> Seq<BftModel> {
    Seq::new(s.len(), |i: int| s[i]@)
}

/// Whether some blocks form a chain that ends in a pointer: each stands at its height, points at the
/// one before it, which has a hash, and makes a block final. Versions, and the heights from which on
/// blocks may be pointed at, never go down.
pub open spec fn is_chain(s: Seq<BftModel>, tip: FatPointer) -> bool {
    &&& forall|i: int| 0 <= i < s.len() ==> (#[trigger] s[i]).height == i && s[i].headers.len() > 0
    &&& forall|i: int|
        0 < i < s.len() ==> (#[trigger] s[i]).previous.points_at == s[i - 1].hash && !is_no_hash(
            s[i].previous.points_at,
        )
    &&& forall|i: int, j: int|
        0 <= i <= j < s.len() ==> (#[trigger] s[i]).version <= (#[trigger] s[j]).version
            && s[i].not_before <= s[j].not_before
    &&& s.len() > 0 ==> tip.points_at == s.last().hash
    &&& s.len() == 0 ==> tip.is_null()
}

/// The place of the first block with a hash.
pub open spec fn place_of(s: Seq<BftModel>, hash: BlockHash) -> Option<int>
    decreases s.len(),
{
    if s.len() == 0 {
        None
    } else {
        match place_of(s.drop_last(), hash) {
            Some(i) => Some(i),
            None => if s.last().hash == hash {
                Some(s.len() - 1)
            } else {
                None
            },
        }
    }
}

proof fn lemma_place_of(s: Seq<BftModel>, hash: BlockHash)
    ensures
        match place_of(s, hash) {
            Some(i) => 0 <= i < s.len() && s[i].hash == hash && forall|k: int|
                0 <= k < i ==> (#[trigger] s[k]).hash != hash,
            None => forall|k: int| 0 <= k < s.len() ==> (#[trigger] s[k]).hash != hash,
        },
    decreases s.len(),
{
    if s.len() > 0 {
        let t = s.drop_last();
        lemma_place_of(t, hash);
        match place_of(t, hash) {
            Some(i) => {
                assert(s[i] == t[i]);
                assert forall|k: int| 0 <= k < i implies (#[trigger] s[k]).hash != hash by {
                    assert(s[k] == t[k]);
                }
            },
            None => {
                assert forall|k: int| 0 <= k < t.len() implies (#[trigger] s[k]).hash != hash by {
                    assert(s[k] == t[k]);
                }
            },
        }
    }
}

proof fn lemma_place_is(s: Seq<BftModel>, hash: BlockHash, i: int)
    requires
        0 <= i < s.len(),
        s[i].hash == hash,
        forall|k: int| 0 <= k < i ==> (#[trigger] s[k]).hash != hash,
    ensures
        place_of(s, hash) == Some(i),
{
    lemma_place_of(s, hash);
    match place_of(s, hash) {
        Some(j) => {
            assert(j < i ==> s[j].hash != hash);
            assert(i < j ==> s[i].hash != hash);
        },
        None => {
            assert(s[i].hash != hash);
        },
    }
}

/// Finds the first block with a hash.
pub fn bft_position(blocks: &Vec<BftBlock>, hash: &BlockHash) -> (r: Option<usize>)
    ensures
        match r {
            Some(i) => place_of(chain(blocks@), *hash) == Some(i as int),
            None => place_of(chain(blocks@), *hash) is None,
        },
        r matches Some(i) ==> i < blocks@.len(),
{
    let ghost s = chain(blocks@);
    let mut i: usize = 0;
    while i < blocks.len()
        invariant
            i <= blocks@.len(),
            s == chain(blocks@),
            forall|k: int| 0 <= k < i ==> (#[trigger] s[k]).hash != *hash,
        decreases blocks@.len() - i,
    {
        if bytes_eq(&blocks[i].hash, hash) {
            proof {
                assert(s[i as int].hash == *hash);
                lemma_place_is(s, *hash, i as int);
            }
            return Some(i);
        }
        i += 1;
    }
    proof {
        lemma_place_of(s, *hash);
    }
    None
}

/// How new the block is that a pointer points at: null is older than any, and an unknown block has no
/// place yet.
pub open spec fn rank_of(s: Seq<BftModel>, p: FatPointer) -> Option<int> {
    if p.is_null() {
        Some(0)
    } else {
        match place_of(s, p.points_at) {
            Some(i) => Some(i + 1),
            None => None,
        }
    }
}

/// Whether a block of the best chain may point where it does, given where its parent points: `None`
/// while that cannot be known. It may not go back from a pointer to none, nor point at a block before
/// the height from which on that is allowed, nor at an older block than its parent.
pub open spec fn pointer_verdict(
    s: Seq<BftModel>,
    parent: FatPointer,
    child: FatPointer,
    pow_height: u32,
) -> Option<bool> {
    if child.is_null() && !parent.is_null() {
        Some(false)
    } else {
        match rank_of(s, child) {
            None => None,
            Some(c) => if c > 0 && (pow_height as u64) < s[c - 1].not_before {
                Some(false)
            } else {
                match rank_of(s, parent) {
                    None => None,
                    Some(p) => Some(c >= p),
                }
            },
        }
    }
}

/// Whether a block of the best chain may point where it does. `None` defers the answer; the others are
/// for good.
pub fn call_from_state_to_crosslink_to_ask_about_fat_pointers(
    bft_blocks: &Vec<BftBlock>,
    parent: &FatPointerToBftBlock,
    child: &FatPointerToBftBlock,
    pow_block_height: u32,
) -> (r: Option<bool>)
    ensures
        r == pointer_verdict(chain(bft_blocks@), parent@, child@, pow_block_height),
{
    let parent_is_null = parent.is_null();
    let child_is_null = child.is_null();
    if child_is_null && !parent_is_null {
        return Some(false);
    }
    let child_index = if child_is_null {
        None
    } else {
        match bft_position(bft_blocks, &child.points_at) {
            Some(h) => Some(h),
            None => {
                return None;
            },
        }
    };
    if let Some(h) = child_index {
        if (pow_block_height as u64) < bft_blocks[h].do_not_include_until_bc_height {
            return Some(false);
        }
    }
    let parent_index = if parent_is_null {
        None
    } else {
        match bft_position(bft_blocks, &parent.points_at) {
            Some(h) => Some(h),
            None => {
                return None;
            },
        }
    };
    match (child_index, parent_index) {
        (Some(c), Some(p)) => Some(c >= p),
        (_, None) => Some(true),
        (None, Some(_)) => Some(false),
    }
}

proof fn lemma_place_stays(s: Seq<BftModel>, more: Seq<BftModel>, hash: BlockHash)
    requires
        place_of(s, hash) is Some,
    ensures
        place_of(s + more, hash) == place_of(s, hash),
{
    lemma_place_of(s, hash);
    let i = place_of(s, hash)->Some_0;
    let t = s + more;
    assert(t[i] == s[i]);
    assert forall|k: int| 0 <= k < i implies (#[trigger] t[k]).hash != hash by {
        assert(t[k] == s[k]);
    }
    lemma_place_is(t, hash, i);
}

/// A verdict is for good: whatever blocks are decided later, it stays the same.
pub proof fn a_verdict_is_permanent(
    s: Seq<BftModel>,
    more: Seq<BftModel>,
    parent: FatPointer,
    child: FatPointer,
    pow_height: u32,
)
    requires
        pointer_verdict(s, parent, child, pow_height) is Some,
    ensures
        pointer_verdict(s + more, parent, child, pow_height) == pointer_verdict(
            s,
            parent,
            child,
            pow_height,
        ),
{
    if !(child.is_null() && !parent.is_null()) {
        if !child.is_null() {
            lemma_place_of(s, child.points_at);
            lemma_place_stays(s, more, child.points_at);
            let i = place_of(s, child.points_at)->Some_0;
            assert((s + more)[i] == s[i]);
        }
        if rank_of(s, parent) is Some && !parent.is_null() {
            lemma_place_stays(s, more, parent.points_at);
        }
    }
}

/// The pointer to the block before a place, counted from one: that of the block behind it, or the one
/// to the tip.
pub open spec fn pointer_at(s: Seq<BftModel>, tip: FatPointer, at_height: u64) -> Option<FatPointer> {
    if at_height == 0 || at_height > s.len() {
        None
    } else if at_height == s.len() {
        Some(tip)
    } else {
        Some(s[at_height as int].previous)
    }
}

/// The pointer to a block, where the first block is at height one.
pub fn fat_pointer_to_block_at_height(
    bft_blocks: &Vec<BftBlock>,
    fat_pointer_to_tip: &FatPointerToBftBlock,
    at_height: u64,
) -> (r: Option<FatPointerToBftBlock>)
    ensures
        match r {
            Some(p) => pointer_at(chain(bft_blocks@), fat_pointer_to_tip@, at_height) == Some(p@),
            None => pointer_at(chain(bft_blocks@), fat_pointer_to_tip@, at_height) is None,
        },
{
    assert(bft_blocks.len() == bft_blocks@.len());
    if at_height == 0 || at_height > bft_blocks.len() as u64 {
        return None;
    }
    let i: usize = at_height as usize;
    if i == bft_blocks.len() {
        Some(fat_pointer_to_tip.copied())
    } else {
        Some(bft_blocks[i].previous_block_fat_ptr.copied())
    }
}

/// A block and the pointer to it, where the first block is at height one.
pub fn get_historical_bft_block_at_height<'a>(
    bft_blocks: &'a Vec<BftBlock>,
    fat_pointer_to_tip: &FatPointerToBftBlock,
    at_height: u64,
) -> (r: Option<(&'a BftBlock, FatPointerToBftBlock)>)
    ensures
        match r {
            Some((b, p)) => 0 < at_height <= bft_blocks@.len() && *b == bft_blocks@[at_height - 1]
                && pointer_at(chain(bft_blocks@), fat_pointer_to_tip@, at_height) == Some(p@),
            None => at_height == 0 || at_height > bft_blocks@.len(),
        },
{
    assert(bft_blocks.len() == bft_blocks@.len());
    match fat_pointer_to_block_at_height(bft_blocks, fat_pointer_to_tip, at_height) {
        Some(p) => Some((&bft_blocks[at_height as usize - 1], p)),
        None => None,
    }
}

/// The pointer at a height points at the block of that height.
pub proof fn the_pointer_at_a_height_points_there(s: Seq<BftModel>, tip: FatPointer, at_height: u64)
    requires
        is_chain(s, tip),
        0 < at_height <= s.len(),
    ensures
        pointer_at(s, tip, at_height) matches Some(p) && p.points_at == s[at_height - 1].hash,
{
}

/// How many blocks from the first on to count to come to the last that may be pointed at from a height
/// of the best chain.
pub open spec fn suitable(s: Seq<BftModel>, pow_height: u64) -> nat
    decreases s.len(),
{
    if s.len() == 0 {
        0
    } else if s.last().not_before <= pow_height {
        s.len()
    } else {
        suitable(s.drop_last(), pow_height)
    }
}

/// Whether a pointer is the one that a block at a height of the best chain is to have: that to the
/// newest block that may be pointed at from there, or null.
pub open spec fn is_pointer_for(
    p: FatPointer,
    s: Seq<BftModel>,
    tip: FatPointer,
    pow_height: u64,
) -> bool {
    if suitable(s, pow_height) == 0 {
        p.is_null()
    } else {
        Some(p) == pointer_at(s, tip, suitable(s, pow_height) as u64)
    }
}

proof fn lemma_suitable(s: Seq<BftModel>, pow_height: u64)
    ensures
        suitable(s, pow_height) <= s.len(),
        suitable(s, pow_height) > 0 ==> s[suitable(s, pow_height) - 1].not_before <= pow_height,
        forall|k: int| suitable(s, pow_height) <= k < s.len() ==> (#[trigger] s[k]).not_before > pow_height,
    decreases s.len(),
{
    if s.len() > 0 && s.last().not_before > pow_height {
        let t = s.drop_last();
        lemma_suitable(t, pow_height);
        assert forall|k: int| suitable(s, pow_height) <= k < s.len() implies (
        #[trigger] s[k]).not_before > pow_height by {
            if k < t.len() {
                assert(s[k] == t[k]);
            }
        }
        if suitable(t, pow_height) > 0 {
            assert(t[suitable(t, pow_height) - 1] == s[suitable(t, pow_height) - 1]);
        }
    }
}

/// The pointer that a block at a height of the best chain is to have.
pub fn fat_pointer_for(
    bft_blocks: &Vec<BftBlock>,
    fat_pointer_to_tip: &FatPointerToBftBlock,
    proposed_pow_height: u64,
) -> (r: FatPointerToBftBlock)
    ensures
        is_pointer_for(r@, chain(bft_blocks@), fat_pointer_to_tip@, proposed_pow_height),
{
    let ghost s = chain(bft_blocks@);
    let mut n: usize = bft_blocks.len();
    assert(s.take(n as int) =~= s);
    while n > 0 && bft_blocks[n - 1].do_not_include_until_bc_height > proposed_pow_height
        invariant
            n <= bft_blocks@.len(),
            s == chain(bft_blocks@),
            suitable(s.take(n as int), proposed_pow_height) == suitable(s, proposed_pow_height),
        decreases n,
    {
        assert(s.take(n as int).drop_last() =~= s.take(n - 1));
        n -= 1;
    }
    if n == 0 {
        return FatPointerToBftBlock::null();
    }
    match fat_pointer_to_block_at_height(bft_blocks, fat_pointer_to_tip, n as u64) {
        Some(p) => p,
        None => FatPointerToBftBlock::null(),
    }
}

/// A pointer that is handed out for a height of the best chain is accepted there, from a block whose
/// parent points nowhere.
pub proof fn a_handed_out_pointer_is_accepted(
    s: Seq<BftModel>,
    tip: FatPointer,
    p: FatPointer,
    parent: FatPointer,
    pow_height: u32,
)
    requires
        is_chain(s, tip),
        s.len() <= u64::MAX,
        is_pointer_for(p, s, tip, pow_height as u64),
        parent.is_null(),
    ensures
        pointer_verdict(s, parent, p, pow_height) == Some(true),
{
    let n = suitable(s, pow_height as u64);
    lemma_suitable(s, pow_height as u64);
    if n > 0 && !p.is_null() {
        the_pointer_at_a_height_points_there(s, tip, n as u64);
        lemma_place_of(s, p.points_at);
        let i = place_of(s, p.points_at)->Some_0;
        if place_of(s, p.points_at) is None {
            assert(s[n - 1].hash != p.points_at);
        }
        assert(i <= n - 1) by {
            if i > n - 1 {
                assert(s[n - 1].hash != p.points_at);
            }
        }
        assert(s[i].not_before <= s[n - 1].not_before);
    }
}

/// Pointers that are handed out for growing heights never go back: from a block whose parent has the
/// pointer for a lower height, the one for its own height is accepted.
pub proof fn handed_out_pointers_never_go_back(
    s: Seq<BftModel>,
    tip: FatPointer,
    low: FatPointer,
    high: FatPointer,
    low_height: u32,
    high_height: u32,
)
    requires
        is_chain(s, tip),
        s.len() <= u64::MAX,
        low_height <= high_height,
        is_pointer_for(low, s, tip, low_height as u64),
        is_pointer_for(high, s, tip, high_height as u64),
        s.len() > 0 ==> !tip.is_null(),
        forall|i: int, j: int|
            0 <= i < j < s.len() ==> (#[trigger] s[i]).hash != (#[trigger] s[j]).hash,
    ensures
        pointer_verdict(s, low, high, high_height) == Some(true),
{
    let m = suitable(s, low_height as u64);
    let n = suitable(s, high_height as u64);
    lemma_suitable(s, low_height as u64);
    lemma_suitable(s, high_height as u64);
    assert(m <= n) by {
        if m > n {
            assert(s[m - 1].not_before > high_height);
        }
    }
    if n > 0 && !high.is_null() {
        the_pointer_at_a_height_points_there(s, tip, n as u64);
        assert forall|k: int| 0 <= k < n - 1 implies (#[trigger] s[k]).hash != high.points_at by {
            assert(s[k].hash != s[n - 1].hash);
        }
        lemma_place_is(s, high.points_at, n - 1);
    }
    if m > 0 && !low.is_null() {
        the_pointer_at_a_height_points_there(s, tip, m as u64);
        assert forall|k: int| 0 <= k < m - 1 implies (#[trigger] s[k]).hash != low.points_at by {
            assert(s[k].hash != s[m - 1].hash);
        }
        lemma_place_is(s, low.points_at, m - 1);
    }
}

/// A block of the best chain may point where it does exactly where that is a known block, which may be
/// pointed at from its height, and which is no older than the one its parent points at. To point nowhere
/// is allowed where the parent does. What points at an unknown block is not judged.
pub proof fn a_pointer_may_not_go_back(
    s: Seq<BftModel>,
    parent: FatPointer,
    child: FatPointer,
    pow_height: u32,
    p: int,
    c: int,
)
    requires
        forall|i: int, j: int|
            0 <= i < j < s.len() ==> (#[trigger] s[i]).hash != (#[trigger] s[j]).hash,
        !parent.is_null() ==> 0 <= p < s.len() && s[p].hash == parent.points_at,
    ensures
        child.is_null() ==> pointer_verdict(s, parent, child, pow_height) == Some(parent.is_null()),
        !child.is_null() && 0 <= c < s.len() && s[c].hash == child.points_at ==> pointer_verdict(
            s,
            parent,
            child,
            pow_height,
        ) == Some(s[c].not_before <= pow_height && (!parent.is_null() ==> p <= c)),
        !child.is_null() && (forall|k: int|
            0 <= k < s.len() ==> (#[trigger] s[k]).hash != child.points_at) ==> pointer_verdict(
            s,
            parent,
            child,
            pow_height,
        ) is None,
{
    if !parent.is_null() {
        assert forall|k: int| 0 <= k < p implies (#[trigger] s[k]).hash != parent.points_at by {
            assert(s[k].hash != s[p].hash);
        }
        lemma_place_is(s, parent.points_at, p);
    }
    if !child.is_null() {
        lemma_place_of(s, child.points_at);
        if 0 <= c < s.len() && s[c].hash == child.points_at {
            assert forall|k: int| 0 <= k < c implies (#[trigger] s[k]).hash != child.points_at by {
                assert(s[k].hash != s[c].hash);
            }
            lemma_place_is(s, child.points_at, c);
        }
    }
}

/// The pointer for a height of the best chain points at the newest block that may be pointed at from
/// there, and nowhere where there is none.
pub proof fn the_newest_allowed_block_is_pointed_at(
    s: Seq<BftModel>,
    tip: FatPointer,
    p: FatPointer,
    pow_height: u64,
    i: int,
)
    requires
        is_chain(s, tip),
        s.len() <= u64::MAX,
        is_pointer_for(p, s, tip, pow_height),
        0 <= i < s.len(),
    ensures
        s[i].not_before <= pow_height && (forall|k: int|
            i < k < s.len() ==> (#[trigger] s[k]).not_before > pow_height) ==> p.points_at == s[i].hash,
        (forall|k: int| 0 <= k < s.len() ==> (#[trigger] s[k]).not_before > pow_height) ==> p.is_null(),
{
    lemma_suitable(s, pow_height);
    let n = suitable(s, pow_height);
    if n > 0 {
        the_pointer_at_a_height_points_there(s, tip, n as u64);
        assert(s[n - 1].not_before <= pow_height);
    }
}

} // verus!
