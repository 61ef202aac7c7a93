//! Block heights.
use vstd::prelude::*;

verus! {

/// No height at all.
pub const INVALID: u32 = 0xffff_ffff;

/// The height of a transaction that is proposed and has no id yet.
pub const PROPOSED: u32 = 0xffff_fffe;

/// The height of a transaction that is built and not sent.
pub const BUILT: u32 = 0xffff_fffd;

/// The height of a transaction that is sent and not seen yet.
pub const SENT: u32 = 0xffff_fffc;

/// The height of a transaction in the mempool.
pub const MEMPOOL: u32 = 0xffff_fffb;

/// A block height, or one of the marks above every height that a block can have.
/// The lower a value, the surer is the continued existence of what stands there.
#[derive(Clone, Copy, Debug, PartialEq, Eq, Structural, PartialOrd, Ord, Hash)]
pub struct BlockHeight(pub u32);

impl BlockHeight {
    /// Whether this is the height of a block, and none of the marks.
    pub open spec fn in_block(self) -> bool {
        self.0 < MEMPOOL
    }

    pub fn is_in_block(&self) -> (b: bool)
        ensures
            b == self.in_block(),
    {
        self.0 < MEMPOOL
    }

    /// The height `b` blocks above; a mark stays what it is.
    pub fn sat_add(&self, b: u32) -> (h: BlockHeight)
        requires
            self.in_block() ==> self.0 + b <= u32::MAX,
        ensures
            self.in_block() ==> h.0 == self.0 + b,
            !self.in_block() ==> h == *self,
    {
        if self.is_in_block() {
            BlockHeight(self.0 + b)
        } else {
            *self
        }
    }

    /// What `sat_sub` gives.
    pub open spec fn minus(self, b: u32) -> BlockHeight {
        if !self.in_block() {
            self
        } else if self.0 < b {
            BlockHeight(0)
        } else {
            BlockHeight((self.0 - b) as u32)
        }
    }

    /// The height `b` blocks below, and not below zero; a mark stays what it is.
    pub fn sat_sub(&self, b: u32) -> (h: BlockHeight)
        ensures
            h == self.minus(b),
    {
        if self.is_in_block() {
            BlockHeight(self.0.saturating_sub(b))
        } else {
            *self
        }
    }
}

/// So many blocks below a height in a block is that height less so many, or the start where there are not
/// as many; a mark has nothing below it.
pub proof fn below_a_height(h: BlockHeight, b: u32)
    ensures
        h.0 < MEMPOOL && h.0 >= b ==> h.minus(b).0 + b == h.0,
        h.0 < MEMPOOL && h.0 < b ==> h.minus(b).0 == 0,
        h.0 >= MEMPOOL ==> h.minus(b) == h,
{
}

} // verus!
