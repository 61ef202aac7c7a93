//! Proposing, checking and deciding BFT blocks.
use crate::bft::{
    chain, is_chain, is_no_hash, BftBlock, BftModel, FatPointer, FatPointerToBftBlock, BlockHash,
};
use crate::bytes::{bytes_eq, slices_eq};
use crate::hardfork::{forks, scheduled_at, scheduled_hardforks, HardFork, HardForkConfig};
use vstd::prelude::*;

verus! {

/// By how many blocks the final height may grow at a time.
pub const MAX_FINAL_STEP: u32 = 40;

/// The version of the blocks that are proposed.
pub const BFT_VERSION: u32 = 2;

/// The height of the block that is proposed to become final: as far below the tip as blocks have to be
/// confirmed, but not too far above what is final; none where that is not above it.
pub open spec fn candidate(tip_height: u32, sigma: u64, latest_final: Option<u32>) -> Option<u32> {
    if tip_height < sigma {
        None
    } else {
        let h = (tip_height - sigma) as u32;
        match latest_final {
            None => Some(h),
            Some(f) => if h <= f {
                None
            } else if h > f + MAX_FINAL_STEP {
                Some((f + MAX_FINAL_STEP) as u32)
            } else {
                Some(h)
            },
        }
    }
}

/// The height of the block that is to be proposed to become final.
pub fn finality_candidate(tip_height: u32, sigma: u64, latest_final: Option<u32>) -> (r: Option<u32>)
    requires
        latest_final matches Some(f) ==> (sigma <= tip_height && tip_height - sigma > f ==> f
            <= u32::MAX - MAX_FINAL_STEP),
    ensures
        r == candidate(tip_height, sigma, latest_final),
{
    if (tip_height as u64) < sigma {
        return None;
    }
    let h: u32 = (tip_height as u64 - sigma) as u32;
    match latest_final {
        None => Some(h),
        Some(f) => {
            if h <= f {
                None
            } else if h > f + MAX_FINAL_STEP {
                Some(f + MAX_FINAL_STEP)
            } else {
                Some(h)
            }
        },
    }
}

/// What is proposed is above what is final, and confirmed.
pub proof fn a_candidate_improves(tip_height: u32, sigma: u64, latest_final: Option<u32>)
    requires
        candidate(tip_height, sigma, latest_final) is Some,
    ensures
        ({
            let h = candidate(tip_height, sigma, latest_final)->Some_0;
            &&& h + sigma <= tip_height
            &&& latest_final matches Some(f) ==> f < h <= f + MAX_FINAL_STEP
        }),
{
}

/// From which height on blocks may point at the last block of a chain.
pub open spec fn last_not_before(s: Seq<BftModel>) -> u64 {
    if s.len() > 0 {
        s.last().not_before
    } else {
        0
    }
}

/// From which height on blocks may point at a block that carries some hardforks: from the last one's
/// activation on, or from where they may point at its parent.
pub open spec fn not_before_with(carried: Seq<HardFork>, parent: u64) -> u64 {
    if carried.len() > 0 {
        carried.last().pow_activation_height
    } else {
        parent
    }
}

/// A block that is to be proposed. It has no hash until it is complete.
#[derive(Debug)]
pub struct BftDraft {
    pub version: u32,
    pub height: u32,
    pub previous_block_fat_ptr: FatPointerToBftBlock,
    pub headers: Vec<BlockHash>,
    pub hardforks: Vec<HardForkConfig>,
    pub do_not_include_until_bc_height: u64,
}

/// The block that is proposed on the tip of a chain, with its hash: it stands at the next height, points
/// at the tip, has the headers behind the candidate as far as they confirm it, and carries the hardforks
/// that are scheduled for its height.
pub open spec fn proposal(
    headers: Seq<BlockHash>,
    sigma: usize,
    s: Seq<BftModel>,
    tip: FatPointer,
    schedule: Seq<HardFork>,
    hash: BlockHash,
) -> BftModel {
    let carried = scheduled_at(schedule, s.len() as u64);
    BftModel {
        version: BFT_VERSION,
        height: s.len() as u32,
        previous: tip,
        headers: if headers.len() > sigma {
            headers.take(sigma as int)
        } else {
            headers
        },
        hardforks: carried,
        not_before: not_before_with(carried, last_not_before(s)),
        hash,
    }
}

impl BftDraft {
    /// The block that this is with a hash.
    pub open spec fn hashed(&self, hash: BlockHash) -> BftModel {
        BftModel {
            version: self.version,
            height: self.height,
            previous: self.previous_block_fat_ptr@,
            headers: self.headers@,
            hardforks: forks(self.hardforks@),
            not_before: self.do_not_include_until_bc_height,
            hash,
        }
    }

    /// The block, once its hash is known.
    pub fn with_hash(self, hash: BlockHash) -> (r: BftBlock)
        ensures
            r@ == self.hashed(hash),
    {
        BftBlock {
            version: self.version,
            height: self.height,
            previous_block_fat_ptr: self.previous_block_fat_ptr,
            headers: self.headers,
            hardforks: self.hardforks,
            do_not_include_until_bc_height: self.do_not_include_until_bc_height,
            hash,
        }
    }
}

/// Completes a block that is to be proposed, but for its hash. `headers` are those behind the candidate,
/// and `sigma` of them confirm it.
pub fn complete_proposal(
    headers: Vec<BlockHash>,
    sigma: usize,
    bft_blocks: &Vec<BftBlock>,
    fat_pointer_to_tip: &FatPointerToBftBlock,
    hardforks: &Vec<HardForkConfig>,
) -> (r: BftDraft)
    ensures
        forall|hash: BlockHash| #[trigger]
            r.hashed(hash) == proposal(
                headers@,
                sigma,
                chain(bft_blocks@),
                fat_pointer_to_tip@,
                forks(hardforks@),
                hash,
            ),
{
    let mut headers: Vec<BlockHash> = headers;
    let ghost all = headers@;
    headers.truncate(sigma);
    assert(headers@ =~= if all.len() > sigma {
        all.take(sigma as int)
    } else {
        all
    });
    let n: usize = bft_blocks.len();
    assert(n == bft_blocks@.len());
    let ghost s = chain(bft_blocks@);
    let carried = scheduled_hardforks(hardforks, n as u64);
    let ghost want = forks(carried@);
    assert(want.len() == carried@.len());
    let not_before: u64 = if carried.len() > 0 {
        assert(want.last() == carried@[carried@.len() - 1]@);
        carried[carried.len() - 1].pow_activation_height
    } else if n > 0 {
        assert(s.last() == bft_blocks@[n - 1]@);
        bft_blocks[n - 1].do_not_include_until_bc_height
    } else {
        0
    };
    BftDraft {
        version: BFT_VERSION,
        height: n as u32,
        previous_block_fat_ptr: fat_pointer_to_tip.copied(),
        headers,
        hardforks: carried,
        do_not_include_until_bc_height: not_before,
    }
}

/// What came of checking a block.
#[derive(Clone, Copy, Debug, PartialEq, Eq, Structural)]
pub enum TMStatus {
    Pass,
    Fail,
    Indeterminate,
}

/// Why a block could not be judged.
#[derive(Clone, Copy, Debug, PartialEq, Eq)]
pub enum TMStatusReason {
    NoReason,
    /// The block of the best chain with this hash is not known yet.
    NeedsBlock { hash: BlockHash },
}

/// Whether a block carries exactly some hardforks: the same bytes in the same order.
pub open spec fn carries(block: Seq<HardFork>, scheduled: Seq<HardFork>) -> bool {
    &&& block.len() == scheduled.len()
    &&& forall|i: int| 0 <= i < block.len() ==> (#[trigger] block[i]).bytes == scheduled[i].bytes
}

/// Whether a block may follow a chain: it points at its tip, stands at the next height, does not go
/// back in its version, carries exactly the hardforks that are scheduled there, and may be pointed at
/// from the last one's activation on, and not before its parent may.
pub open spec fn may_follow(
    b: BftModel,
    s: Seq<BftModel>,
    tip: FatPointer,
    schedule: Seq<HardFork>,
) -> bool {
    let scheduled = scheduled_at(schedule, s.len() as u64);
    &&& b.previous.points_at == tip.points_at
    &&& b.height == s.len()
    &&& s.len() > 0 ==> b.version >= s.last().version
    &&& carries(b.hardforks, scheduled)
    &&& scheduled.len() > 0 ==> b.not_before == scheduled.last().pow_activation_height
    &&& b.not_before >= last_not_before(s)
}

fn carries_scheduled(block: &Vec<HardForkConfig>, scheduled: &Vec<HardForkConfig>) -> (r: bool)
    ensures
        r == carries(forks(block@), forks(scheduled@)),
{
    let ghost a = forks(block@);
    let ghost b = forks(scheduled@);
    if block.len() != scheduled.len() {
        return false;
    }
    let mut i: usize = 0;
    while i < block.len()
        invariant
            i <= block@.len() == scheduled@.len(),
            a == forks(block@),
            b == forks(scheduled@),
            forall|k: int| 0 <= k < i ==> (#[trigger] a[k]).bytes == b[k].bytes,
        decreases block@.len() - i,
    {
        if !slices_eq(&block[i].bytes, &scheduled[i].bytes) {
            assert(a[i as int].bytes != b[i as int].bytes);
            return false;
        }
        i += 1;
    }
    true
}

/// Checks whether a block may follow the chain.
pub fn check_bft_block(
    new_block: &BftBlock,
    bft_blocks: &Vec<BftBlock>,
    fat_pointer_to_tip: &FatPointerToBftBlock,
    hardforks: &Vec<HardForkConfig>,
) -> (r: bool)
    ensures
        r == may_follow(
            new_block@,
            chain(bft_blocks@),
            fat_pointer_to_tip@,
            forks(hardforks@),
        ),
{
    let ghost s = chain(bft_blocks@);
    if !bytes_eq(
        &new_block.previous_block_fat_ptr.points_at,
        &fat_pointer_to_tip.points_at,
    ) {
        return false;
    }
    let n: usize = bft_blocks.len();
    let bft_height: u64 = n as u64;
    assert(n == bft_blocks@.len());
    if new_block.height as u64 != bft_height {
        return false;
    }
    let (parent_version, parent_not_before) = if n > 0 {
        (bft_blocks[n - 1].version, bft_blocks[n - 1].do_not_include_until_bc_height)
    } else {
        (0, 0)
    };
    assert(parent_not_before == last_not_before(s));
    if new_block.version < parent_version {
        return false;
    }
    let scheduled = scheduled_hardforks(hardforks, bft_height);
    let ghost want = forks(scheduled@);
    assert(want.len() == scheduled@.len());
    if !carries_scheduled(&new_block.hardforks, &scheduled) {
        return false;
    }
    if scheduled.len() > 0 {
        let last: u64 = scheduled[scheduled.len() - 1].pow_activation_height;
        assert(want.last() == scheduled@[scheduled@.len() - 1]@);
        if new_block.do_not_include_until_bc_height != last {
            return false;
        }
        if last < parent_not_before {
            return false;
        }
    }
    new_block.do_not_include_until_bc_height >= parent_not_before
}

/// Judges a block. Where it may follow the chain, everything depends on whether the block of the best
/// chain that it makes final is known.
pub fn validate_bft_block(
    new_block: &BftBlock,
    bft_blocks: &Vec<BftBlock>,
    fat_pointer_to_tip: &FatPointerToBftBlock,
    hardforks: &Vec<HardForkConfig>,
    final_height: Option<u32>,
) -> (r: (TMStatus, TMStatusReason))
    requires
        may_follow(new_block@, chain(bft_blocks@), fat_pointer_to_tip@, forks(hardforks@))
            ==> new_block.headers@.len() > 0,
    ensures
        r == if !may_follow(
            new_block@,
            chain(bft_blocks@),
            fat_pointer_to_tip@,
            forks(hardforks@),
        ) {
            (TMStatus::Fail, TMStatusReason::NoReason)
        } else if final_height is Some {
            (TMStatus::Pass, TMStatusReason::NoReason)
        } else {
            (TMStatus::Indeterminate, (TMStatusReason::NeedsBlock { hash: new_block.headers@[0] }))
        },
{
    if !check_bft_block(new_block, bft_blocks, fat_pointer_to_tip, hardforks) {
        return (TMStatus::Fail, TMStatusReason::NoReason);
    }
    match final_height {
        Some(_) => (TMStatus::Pass, TMStatusReason::NoReason),
        None => (
            TMStatus::Indeterminate,
            TMStatusReason::NeedsBlock { hash: new_block.headers[0] },
        ),
    }
}

/// A block that is proposed on the tip of a chain may follow it, where the hardforks that are scheduled
/// for it do not activate before blocks may point at its parent.
pub proof fn a_proposed_block_may_follow(
    headers: Seq<BlockHash>,
    sigma: usize,
    s: Seq<BftModel>,
    tip: FatPointer,
    schedule: Seq<HardFork>,
    hash: BlockHash,
)
    requires
        s.len() <= u32::MAX,
        is_chain(s, tip),
        forall|i: int| 0 <= i < s.len() ==> (#[trigger] s[i]).version <= BFT_VERSION,
        ({
            let carried = scheduled_at(schedule, s.len() as u64);
            carried.len() > 0 ==> carried.last().pow_activation_height >= last_not_before(s)
        }),
    ensures
        may_follow(proposal(headers, sigma, s, tip, schedule, hash), s, tip, schedule),
{
    if s.len() > 0 {
        assert(s.last() == s[s.len() - 1]);
    }
}

/// A block that may follow a chain makes it longer, and it stays a chain.
pub proof fn a_chain_grows(
    s: Seq<BftModel>,
    tip: FatPointer,
    b: BftModel,
    to: FatPointer,
    schedule: Seq<HardFork>,
)
    requires
        is_chain(s, tip),
        may_follow(b, s, tip, schedule),
        b.headers.len() > 0,
        s.len() > 0 ==> !is_no_hash(b.previous.points_at),
        to.points_at == b.hash,
    ensures
        is_chain(s.push(b), to),
{
    let t = s.push(b);
    assert forall|i: int, j: int| 0 <= i <= j < t.len() implies (#[trigger] t[i]).version <= (
    #[trigger] t[j]).version && t[i].not_before <= t[j].not_before by {
        if j < s.len() {
            assert(s[i].version <= s[j].version);
        } else if i < s.len() {
            assert(s[i].version <= s[s.len() - 1].version);
        }
    }
    assert forall|i: int| 0 <= i < t.len() implies (#[trigger] t[i]).height == i && t[i].headers.len()
        > 0 by {
        if i < s.len() {
            assert(t[i] == s[i]);
        }
    }
    assert forall|i: int| 0 < i < t.len() implies (#[trigger] t[i]).previous.points_at == t[i
        - 1].hash && !is_no_hash(t[i].previous.points_at) by {
        if i < s.len() {
            assert(t[i] == s[i]);
            assert(t[i - 1] == s[i - 1]);
        } else {
            assert(t[i - 1] == s.last());
        }
    }
}

/// A block is proposed to become final exactly where one below the tip by as many blocks as have to
/// confirm it is above what is final, and then the highest such within forty blocks.
pub proof fn the_candidate_is_the_highest(tip_height: u32, sigma: u64, latest_final: Option<u32>, h: u32)
    requires
        latest_final matches Some(f) ==> f <= u32::MAX - 40,
    ensures
        ({
            let fits = h + sigma <= tip_height && (latest_final matches Some(f) ==> f < h <= f + 40);
            let c = candidate(tip_height, sigma, latest_final);
            &&& c == Some(h) ==> fits
            &&& fits ==> c is Some && c->Some_0 >= h
        }),
{
}

/// Only a block on the tip of the chain may follow it: one at the next height whose version is not below
/// that of the tip, that may not be pointed at before the tip may, and that carries the hardforks that
/// are scheduled for its height, all of them and no others, in their order.
pub proof fn only_a_block_on_the_tip_may_follow(
    b: BftModel,
    s: Seq<BftModel>,
    tip: FatPointer,
    schedule: Seq<HardFork>,
)
    requires
        s.len() > 0,
    ensures
        ({
            let scheduled = scheduled_at(schedule, s.len() as u64);
            let same = b.hardforks.len() == scheduled.len() && forall|k: int|
                0 <= k < scheduled.len() ==> (#[trigger] b.hardforks[k]).bytes == scheduled[k].bytes;
            may_follow(b, s, tip, schedule) <==> b.previous.points_at == tip.points_at && b.height
                == s.len() && b.version >= s.last().version && b.not_before >= s.last().not_before
                && same && (scheduled.len() > 0 ==> b.not_before
                == scheduled.last().pow_activation_height)
        }),
{
}

} // verus!
