//! Hashes in short, for people to read.
use crate::bft::BlockHash;
use crate::bytes::slices_eq;
use crate::text::{lemma_hex_len, reversed_hex, LEHash};
use vstd::prelude::*;
use vstd::string::{StrSliceExecFns, StringExecFns};

verus! {

/// The first half-bytes of a hash: whole bytes, and behind an odd number the lower half of the next.
pub open spec fn nibbles(h: BlockHash, n: nat) -> Seq<u8> {
    Seq::new(
        (n + 1) / 2,
        |i: int|
            if i < n / 2 {
                h@[i]
            } else {
                h@[i] % 16
            },
    )
}

/// Whether the first half-bytes tell some hashes apart.
pub open spec fn tells_apart(s: Seq<BlockHash>, n: nat) -> bool {
    forall|i: int, j: int|
        0 <= i < j < s.len() ==> nibbles(#[trigger] s[i], n) != nibbles(#[trigger] s[j], n)
}

fn short_form(h: &BlockHash, n: usize) -> (r: Vec<u8>)
    requires
        n <= 64,
    ensures
        r@ == nibbles(*h, n as nat),
{
    let mut r: Vec<u8> = Vec::new();
    let mut i: usize = 0;
    while i < n / 2
        invariant
            i <= n / 2,
            n <= 64,
            r@.len() == i,
            forall|k: int| 0 <= k < i ==> r@[k] == h@[k],
        decreases n / 2 - i,
    {
        r.push(h[i]);
        i += 1;
    }
    if n % 2 != 0 {
        r.push(h[i] % 16);
    }
    assert(r@ =~= nibbles(*h, n as nat));
    r
}

fn is_unique(prefix_len: usize, hashes: &Vec<BlockHash>) -> (r: bool)
    requires
        prefix_len <= 64,
    ensures
        r == tells_apart(hashes@, prefix_len as nat),
{
    let mut j: usize = 0;
    while j < hashes.len()
        invariant
            j <= hashes@.len(),
            prefix_len <= 64,
            forall|a: int, b: int|
                0 <= a < b < j ==> nibbles(#[trigger] hashes@[a], prefix_len as nat) != nibbles(
                    #[trigger] hashes@[b],
                    prefix_len as nat,
                ),
        decreases hashes@.len() - j,
    {
        let form = short_form(&hashes[j], prefix_len);
        let mut i: usize = 0;
        while i < j
            invariant
                i <= j < hashes@.len(),
                prefix_len <= 64,
                form@ == nibbles(hashes@[j as int], prefix_len as nat),
                forall|a: int|
                    0 <= a < i ==> nibbles(#[trigger] hashes@[a], prefix_len as nat) != form@,
            decreases j - i,
        {
            let other = short_form(&hashes[i], prefix_len);
            if slices_eq(&other, &form) {
                assert(nibbles(hashes@[i as int], prefix_len as nat) == nibbles(
                    hashes@[j as int],
                    prefix_len as nat,
                ));
                return false;
            }
            i += 1;
        }
        j += 1;
    }
    true
}

/// How many characters tell some hashes apart: the least number, but at least one.
pub fn block_hash_unique_chars_n(hashes: &Vec<BlockHash>) -> (r: usize)
    requires
        hashes@.no_duplicates(),
    ensures
        1 <= r <= 64,
        tells_apart(hashes@, r as nat),
        forall|n: nat| 1 <= n < r ==> !#[trigger] tells_apart(hashes@, n),
{
    let mut n: usize = 1;
    while n < 64 && !is_unique(n, hashes)
        invariant
            1 <= n <= 64,
            forall|m: nat| 1 <= m < n ==> !#[trigger] tells_apart(hashes@, m),
        decreases 64 - n,
    {
        n += 1;
    }
    proof {
        if n == 64 {
            assert forall|i: int, j: int| 0 <= i < j < hashes@.len() implies nibbles(
                #[trigger] hashes@[i],
                64,
            ) != nibbles(#[trigger] hashes@[j], 64) by {
                if nibbles(hashes@[i], 64) == nibbles(hashes@[j], 64) {
                    assert forall|k: int| 0 <= k < 32 implies hashes@[i]@[k] == hashes@[j]@[k] by {
                        assert(nibbles(hashes@[i], 64)[k] == hashes@[i]@[k]);
                        assert(nibbles(hashes@[j], 64)[k] == hashes@[j]@[k]);
                    }
                    assert(hashes@[i] =~= hashes@[j]);
                }
            }
        }
    }
    n
}

/// A hash as it is shown, with all but its last characters in grey.
pub open spec fn highlighted(hash: BlockHash, n: nat) -> Seq<char> {
    let text = reversed_hex(hash@, 32);
    let grey = text.len() - n;
    "\x1b[90m"@ + text.take(grey) + "\x1b[0m"@ + text.skip(grey)
}

/// A hash as it is shown, with all but its last characters in grey.
pub fn hash_highlight_lo(hash: &BlockHash, highlight_chars_n: usize) -> (r: String)
    requires
        highlight_chars_n <= 64,
    ensures
        r@ == highlighted(*hash, highlight_chars_n as nat),
{
    proof {
        lemma_hex_len(hash@, 32);
    }
    let text = LEHash(*hash).to_text(None);
    let s = text.as_str();
    let all: usize = s.unicode_len();
    let grey: usize = all - highlight_chars_n;
    let mut out = "\x1b[90m".to_owned();
    out.append(s.substring_char(0, grey));
    out.append("\x1b[0m");
    out.append(s.substring_char(grey, all));
    assert(s@.subrange(0, grey as int) =~= s@.take(grey as int));
    assert(s@.subrange(grey as int, all as int) =~= s@.skip(grey as int));
    out
}

/// How an instruction of a test went.
#[derive(Clone, Copy, Debug, PartialEq, Eq, Structural)]
pub enum InstrMark {
    /// It failed: which of the recorded failures it is.
    Failed(usize),
    Passed,
    NotRun,
}

/// The marks of the first instructions, and how many of the recorded failures they have used up. The
/// failures are in the order of the instructions.
pub open spec fn marks(n: nat, done: usize, failed: Seq<usize>) -> (Seq<InstrMark>, nat)
    decreases n,
{
    if n == 0 {
        (seq![], 0)
    } else {
        let (before, used) = marks((n - 1) as nat, done, failed);
        if used < failed.len() && failed[used as int] == n - 1 {
            (before.push(InstrMark::Failed(used as usize)), used + 1)
        } else if n - 1 < done {
            (before.push(InstrMark::Passed), used)
        } else {
            (before.push(InstrMark::NotRun), used)
        }
    }
}

/// How each instruction of a test went.
pub fn instr_marks(n: usize, done: usize, failed: &Vec<usize>) -> (r: Vec<InstrMark>)
    ensures
        r@ == marks(n as nat, done, failed@).0,
{
    let mut r: Vec<InstrMark> = Vec::new();
    let mut used: usize = 0;
    let mut i: usize = 0;
    while i < n
        invariant
            i <= n,
            used <= failed@.len(),
            (r@, used as nat) == marks(i as nat, done, failed@),
        decreases n - i,
    {
        if used < failed.len() && failed[used] == i {
            r.push(InstrMark::Failed(used));
            used += 1;
        } else if i < done {
            r.push(InstrMark::Passed);
        } else {
            r.push(InstrMark::NotRun);
        }
        i += 1;
    }
    r
}

proof fn lemma_marks(n: nat, done: usize, failed: Seq<usize>)
    requires
        forall|i: int, j: int| 0 <= i < j < failed.len() ==> (#[trigger] failed[i]) < (#[trigger] failed[j]),
        failed.len() <= usize::MAX,
    ensures
        ({
            let (r, used) = marks(n, done, failed);
            &&& r.len() == n
            &&& used <= failed.len()
            &&& forall|k: int| 0 <= k < failed.len() ==> ((#[trigger] failed[k]) < n <==> k < used)
            &&& forall|k: int|
                0 <= k < used ==> r[(#[trigger] failed[k]) as int] == InstrMark::Failed(k as usize)
            &&& forall|i: int|
                0 <= i < n && (forall|k: int| 0 <= k < failed.len() ==> (#[trigger] failed[k]) != i)
                    ==> #[trigger] r[i] == if i < done {
                    InstrMark::Passed
                } else {
                    InstrMark::NotRun
                }
        }),
    decreases n,
{
    if n > 0 {
        lemma_marks((n - 1) as nat, done, failed);
        let (before, used) = marks((n - 1) as nat, done, failed);
        let (r, after) = marks(n, done, failed);
        assert forall|i: int| 0 <= i < before.len() implies #[trigger] r[i] == before[i] by {}
        if used < failed.len() {
            assert(failed[used as int] >= n - 1);
        }
        assert forall|k: int| 0 <= k < failed.len() implies ((#[trigger] failed[k]) < n <==> k < after) by {
            if k > used {
                assert(failed[used as int] < failed[k]);
            }
        }
        assert forall|i: int|
            0 <= i < n && (forall|k: int| 0 <= k < failed.len() ==> (#[trigger] failed[k]) != i) implies
        #[trigger] r[i] == if i < done {
            InstrMark::Passed
        } else {
            InstrMark::NotRun
        } by {
            if i < n - 1 {
                assert(r[i] == before[i]);
            }
        }
    }
}

/// An instruction is marked as failed exactly where a failure was recorded for it, with that failure. Any
/// other one has passed if it was done, and has not run otherwise.
pub proof fn every_instruction_has_its_mark(n: nat, done: usize, failed: Seq<usize>, i: int, k: int)
    requires
        0 <= i < n,
        forall|a: int, b: int| 0 <= a < b < failed.len() ==> (#[trigger] failed[a]) < (#[trigger] failed[b]),
        failed.len() <= usize::MAX,
    ensures
        ({
            let r = marks(n, done, failed).0;
            &&& r.len() == n
            &&& 0 <= k < failed.len() && failed[k] == i ==> r[i] == InstrMark::Failed(k as usize)
            &&& (forall|j: int| 0 <= j < failed.len() ==> (#[trigger] failed[j]) != i) ==> r[i] == if i
                < done {
                InstrMark::Passed
            } else {
                InstrMark::NotRun
            }
        }),
{
    lemma_marks(n, done, failed);
}

} // verus!
