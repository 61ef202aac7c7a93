//! Listing the blocks of the best chain from one block to another, chunk by chunk.
use crate::bft::BlockHash;
use crate::bytes::bytes_eq;
use vstd::prelude::*;

verus! {

/// Where a list starts: the height of its first block, and the hash of the block before it.
pub open spec fn sequence_start(
    height: u32,
    previous: BlockHash,
    start_hash: BlockHash,
    with_start: bool,
) -> (int, BlockHash) {
    if with_start {
        (height as int, previous)
    } else {
        (height + 1, start_hash)
    }
}

/// A list of blocks that is being put together.
#[derive(Debug)]
pub struct BlockSequence {
    pub start_height: u32,
    /// The hash behind which the next chunk starts.
    pub ask_behind: BlockHash,
    /// The hash that must come first, if one must.
    pub first: Option<BlockHash>,
    pub hashes: Vec<(u32, BlockHash)>,
    pub done: bool,
}

/// Hashes with their heights, counted up from the first.
pub open spec fn numbered(start_height: u32, hashes: Seq<BlockHash>) -> Seq<(u32, BlockHash)> {
    Seq::new(hashes.len(), |i: int| ((start_height + i) as u32, hashes[i]))
}

/// The hashes of a list without their heights.
pub open spec fn bare(s: Seq<(u32, BlockHash)>) -> Seq<BlockHash> {
    Seq::new(s.len(), |i: int| s[i].1)
}

impl BlockSequence {
    /// The heights count up from the first.
    pub open spec fn wf(&self) -> bool {
        self.hashes@ == numbered(self.start_height, bare(self.hashes@))
    }

    /// Begins a list: with the block itself or behind it. None where the block is not known, where there
    /// is no block to end with, or where that is below the first.
    pub fn begin(
        start: Option<(u32, BlockHash)>,
        start_hash: BlockHash,
        final_height: Option<u32>,
        include_start_hash: bool,
    ) -> (r: Option<BlockSequence>)
        requires
            !include_start_hash ==> (start matches Some((h, _)) ==> h < u32::MAX),
        ensures
            match (start, final_height) {
                (Some((h, prev)), Some(end)) => {
                    let (first, behind) = sequence_start(h, prev, start_hash, include_start_hash);
                    if end < first {
                        r is None
                    } else {
                        r matches Some(s) && s.wf() && s.start_height == first && s.ask_behind
                            == behind && s.hashes@.len() == 0 && !s.done && s.first
                            == if include_start_hash {
                            Some(start_hash)
                        } else {
                            None
                        }
                    }
                },
                _ => r is None,
            },
    {
        let (height, previous) = start?;
        let end: u32 = final_height?;
        let (start_height, ask_behind): (u32, BlockHash) = if include_start_hash {
            (height, previous)
        } else {
            (height + 1, start_hash)
        };
        if end < start_height {
            return None;
        }
        let first = if include_start_hash {
            Some(start_hash)
        } else {
            None
        };
        let s = BlockSequence { start_height, ask_behind, first, hashes: Vec::new(), done: false };
        assert(s.hashes@ =~= numbered(start_height, bare(s.hashes@)));
        Some(s)
    }

    /// The hash behind which to ask for the next chunk, as long as there is more.
    pub fn next_request(&self) -> (r: Option<BlockHash>)
        ensures
            r == if self.done {
                None
            } else {
                Some(self.ask_behind)
            },
    {
        if self.done {
            None
        } else {
            Some(self.ask_behind)
        }
    }

    /// Whether a chunk starts as it must: the first one with the block that was asked for, if that is
    /// to be in the list.
    pub open spec fn starts_well(&self, chunk: Seq<BlockHash>) -> bool {
        match self.first {
            Some(f) => self.hashes@.len() == 0 && chunk.len() > 0 ==> chunk[0] == f,
            None => true,
        }
    }

    /// Takes a chunk. An empty one, or none, ends the list. One that does not start as it must is not
    /// taken.
    pub fn take_chunk(&mut self, chunk: Option<&Vec<BlockHash>>) -> (r: bool)
        requires
            old(self).wf(),
            chunk matches Some(c) ==> old(self).start_height + old(self).hashes@.len() + c@.len()
                <= u32::MAX,
        ensures
            final(self).wf(),
            final(self).start_height == old(self).start_height,
            final(self).first == old(self).first,
            r == (chunk matches Some(c) ==> old(self).starts_well(c@)),
            !r ==> *final(self) == *old(self),
            r ==> match chunk {
                Some(c) if c@.len() > 0 => {
                    &&& bare(final(self).hashes@) == bare(old(self).hashes@) + c@
                    &&& final(self).ask_behind == c@.last()
                    &&& final(self).done == old(self).done
                },
                _ => {
                    &&& final(self).hashes == old(self).hashes
                    &&& final(self).ask_behind == old(self).ask_behind
                    &&& final(self).done
                },
            },
    {
        match chunk {
            Some(c) if c.len() > 0 => {
                if let Some(f) = &self.first {
                    if self.hashes.len() == 0 && !bytes_eq(&c[0], f) {
                        return false;
                    }
                }
                let ghost before = bare(self.hashes@);
                let mut i: usize = 0;
                assert(before + c@.take(0) =~= before);
                while i < c.len()
                    invariant
                        i <= c@.len(),
                        self.start_height == old(self).start_height,
                        self.done == old(self).done,
                        self.first == old(self).first,
                        old(self).starts_well(c@),
                        self.wf(),
                        before == bare(old(self).hashes@),
                        bare(self.hashes@) == before + c@.take(i as int),
                        self.start_height + old(self).hashes@.len() + c@.len() <= u32::MAX,
                    decreases c@.len() - i,
                {
                    assert(bare(self.hashes@).len() == self.hashes@.len());
                    let h: u32 = self.start_height + self.hashes.len() as u32;
                    let ghost list = self.hashes@;
                    self.hashes.push((h, c[i]));
                    proof {
                        assert(bare(self.hashes@) =~= bare(list).push(c@[i as int]));
                        assert(c@.take(i + 1) =~= c@.take(i as int).push(c@[i as int]));
                        assert(bare(self.hashes@) =~= before + c@.take(i + 1));
                        assert(self.hashes@ =~= numbered(self.start_height, bare(self.hashes@)))
                            by {
                            assert forall|k: int| 0 <= k < list.len() implies list[k] == (
                                ((self.start_height + k) as u32),
                                list[k].1,
                            ) by {
                                assert(list[k] == numbered(self.start_height, bare(list))[k]);
                            }
                        }
                    }
                    i += 1;
                }
                assert(c@.take(i as int) =~= c@);
                self.ask_behind = c[c.len() - 1];
            },
            _ => {
                self.done = true;
            },
        }
        true
    }
}

/// The heights of a list count up from the first, without a gap: each hash stands at its height.
pub proof fn a_list_has_no_gap(s: &BlockSequence, i: int)
    requires
        s.wf(),
        0 <= i < s.hashes@.len(),
        s.start_height + s.hashes@.len() <= u32::MAX,
    ensures
        s.hashes@[i].0 == s.start_height + i,
        s.hashes@[i].1 == bare(s.hashes@)[i],
{
    assert(s.hashes@[i] == numbered(s.start_height, bare(s.hashes@))[i]);
}

/// A list that holds its first block starts at that block's height and is asked for behind the block
/// before it; one that does not starts a block higher and is asked for behind the block itself.
pub proof fn a_list_starts_where_it_was_asked_to(
    height: u32,
    previous: BlockHash,
    start_hash: BlockHash,
)
    ensures
        sequence_start(height, previous, start_hash, true).0 + 1 == sequence_start(
            height,
            previous,
            start_hash,
            false,
        ).0,
        sequence_start(height, previous, start_hash, true) == (height as int, previous),
        sequence_start(height, previous, start_hash, false).1 == start_hash,
{
}

} // verus!
