//! The hashes of the best chain's blocks, by height.
use vstd::prelude::*;

verus! {

/// The hashes of the blocks from height zero on.
#[derive(Debug)]
pub struct PoWCache {
    pub hashes: Vec<[u8; 32]>,
    /// The height of the block that comes next.
    pub next_tip_h: u64,
}

impl PoWCache {
    /// There is a hash for every height below the next.
    pub open spec fn wf(&self) -> bool {
        self.hashes@.len() == self.next_tip_h
    }

    /// The hash at a height.
    pub open spec fn at(&self, h: u64) -> Option<[u8; 32]> {
        if h < self.next_tip_h {
            Some(self.hashes@[h as int])
        } else {
            None
        }
    }

    pub fn new(init_h: u64, init_hash: [u8; 32]) -> (r: PoWCache)
        requires
            init_h < u64::MAX,
        ensures
            r.hashes@ == seq![init_hash],
            r.next_tip_h == init_h + 1,
            init_h == 0 ==> r.wf(),
    {
        PoWCache { hashes: vec![init_hash], next_tip_h: init_h + 1 }
    }

    /// Makes a block the tip: the next one, or one that takes the place of what was at its height
    /// and above.
    pub fn push_new_tip(&mut self, h: u64, hash: [u8; 32])
        requires
            h <= old(self).next_tip_h,
            h < old(self).next_tip_h ==> h < old(self).hashes@.len(),
            h < u64::MAX,
        ensures
            final(self).next_tip_h == h + 1,
            h < old(self).next_tip_h ==> final(self).hashes@ == old(self).hashes@.take(
                h as int,
            ).push(hash),
            h == old(self).next_tip_h ==> final(self).hashes@ == old(self).hashes@.push(hash),
            old(self).wf() ==> final(self).wf(),
    {
        if h < self.next_tip_h {
            self.hashes.truncate(h as usize);
            self.hashes.push(hash);
        } else {
            self.hashes.push(hash);
        }
        self.next_tip_h = h + 1;
    }

    pub fn hash_at_h(&self, h: u64) -> (r: Option<[u8; 32]>)
        requires
            h < self.next_tip_h ==> h < self.hashes@.len(),
        ensures
            r == self.at(h),
    {
        assert(self.hashes.len() == self.hashes@.len());
        if h < self.next_tip_h {
            Some(self.hashes[h as usize])
        } else {
            None
        }
    }

    pub fn tip_hash(&self) -> (r: [u8; 32])
        requires
            0 < self.next_tip_h <= self.hashes@.len(),
        ensures
            r == self.hashes@[self.next_tip_h - 1],
            Some(r) == self.at((self.next_tip_h - 1) as u64),
    {
        assert(self.hashes.len() == self.hashes@.len());
        self.hashes[self.next_tip_h as usize - 1]
    }
}

/// What is left of some hashes when the block at `target_h` becomes the tip.
pub open spec fn cut_hashes(hashes: Seq<[u8; 32]>, target_h: u32) -> Seq<[u8; 32]> {
    if target_h < hashes.len() {
        hashes.take(target_h + 1)
    } else {
        hashes
    }
}

/// Makes the block at `target_h` the tip.
pub fn truncate_pow_cache_to(c: &mut PoWCache, target_h: u32)
    ensures
        final(c).hashes@ == cut_hashes(old(c).hashes@, target_h),
        final(c).next_tip_h == target_h + 1,
        old(c).wf() && target_h < old(c).next_tip_h ==> final(c).wf(),
{
    if (target_h as usize) < c.hashes.len() {
        c.hashes.truncate(target_h as usize + 1);
    }
    c.next_tip_h = target_h as u64 + 1;
}

/// What was pushed is found at its height, and what was below it still is where it was.
pub proof fn pushed_tip_is_found(before: PoWCache, after: PoWCache, h: u64, hash: [u8; 32])
    requires
        before.wf(),
        h <= before.next_tip_h,
        h < u64::MAX,
        after.next_tip_h == h + 1,
        after.hashes@ == before.hashes@.take(h as int).push(hash),
    ensures
        after.at(h) == Some(hash),
        forall|k: u64| k < h ==> #[trigger] after.at(k) == before.at(k),
        forall|k: u64| k > h ==> #[trigger] after.at(k) == None::<[u8; 32]>,
{
}

/// Truncating a second time to the same height, or to a higher one, drops nothing more.
pub proof fn truncating_hashes_again_drops_nothing(hashes: Seq<[u8; 32]>, low: u32, high: u32)
    requires
        low <= high,
    ensures
        cut_hashes(cut_hashes(hashes, low), high) == cut_hashes(hashes, low),
{
}

/// When the block at a height becomes the tip, the hashes up to there stay, and those above are gone.
pub proof fn truncating_keeps_what_is_below(hashes: Seq<[u8; 32]>, target_h: u32, i: int)
    ensures
        ({
            let r = cut_hashes(hashes, target_h);
            &&& target_h < hashes.len() ==> r.len() == target_h + 1
            &&& target_h >= hashes.len() ==> r.len() == hashes.len()
            &&& 0 <= i < hashes.len() && i <= target_h ==> r[i] == hashes[i]
        }),
{
}

} // verus!
