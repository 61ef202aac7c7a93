//! The bytes of a shard: a version, and the nodes of a binary tree from the root down.
use vstd::prelude::*;

verus! {

/// How deep nodes may be nested: what reads them calls itself for each parent, and the stack takes that
/// many calls.
pub const MAX_NESTING: u16 = 1024;

/// Where a hash that may be missing ends, if it starts at `at`.
pub open spec fn hash_end(s: Seq<u8>, at: int) -> Option<int> {
    if at < s.len() && s[at] == 0 {
        Some(at + 1)
    } else if at + 33 <= s.len() && s[at] == 1 {
        Some(at + 33)
    } else {
        None
    }
}

/// Where the node that starts at `at` ends, if it is whole and its parents are nested no deeper than
/// `depth`. A node is nothing (tag 0), a leaf (tag 1) with its hash and its flags, or a parent (tag 2)
/// with a hash that may be missing and two nodes.
pub open spec fn node_end(s: Seq<u8>, at: int, depth: nat) -> Option<int>
    decreases depth,
{
    if at >= s.len() {
        None
    } else if s[at] == 0 {
        Some(at + 1)
    } else if s[at] == 1 {
        if at + 34 <= s.len() {
            Some(at + 34)
        } else {
            None
        }
    } else if s[at] == 2 && depth > 0 {
        match hash_end(s, at + 1) {
            None => None,
            Some(l) => match node_end(s, l, (depth - 1) as nat) {
                None => None,
                Some(r) => node_end(s, r, (depth - 1) as nat),
            },
        }
    } else {
        None
    }
}

/// Where the shard at the front of some bytes ends, if it is whole and nested no deeper than `depth`.
pub open spec fn shard_end(s: Seq<u8>, depth: nat) -> Option<int> {
    node_end(s, 1, depth)
}

/// Whether some bytes are those of one shard that is nested no deeper than `depth`.
pub open spec fn is_shard(s: Seq<u8>, depth: nat) -> bool {
    shard_end(s, depth) == Some(s.len() as int)
}

/// Whether the node that starts at `at`, over so many leaves, can be cut behind leaf `p`: all of it stays,
/// or it is a parent whose half with that leaf can be cut there.
pub open spec fn can_be_cut(s: Seq<u8>, at: int, size: nat, p: int) -> bool
    decreases size,
{
    p + 1 == size || (size > 1 && at < s.len() && s[at] == 2 && match hash_end(s, at + 1) {
        None => false,
        Some(l) => if p < size / 2 {
            can_be_cut(s, l, size / 2, p)
        } else {
            match node_end(s, l, MAX_NESTING as nat) {
                None => false,
                Some(r) => can_be_cut(s, r, size / 2, p - size / 2),
            }
        },
    })
}

/// A node ends where it does whatever follows it.
proof fn lemma_node_end(s: Seq<u8>, t: Seq<u8>, at: int, depth: nat, end: int)
    requires
        0 <= at,
        node_end(s, at, depth) == Some(end),
        end <= t.len(),
        forall|i: int| 0 <= i < end && i < s.len() ==> #[trigger] s[i] == t[i],
    ensures
        at < end <= s.len(),
        node_end(t, at, depth) == Some(end),
    decreases depth,
{
    if s[at] == 2 {
        let l = hash_end(s, at + 1)->Some_0;
        let r = node_end(s, l, (depth - 1) as nat)->Some_0;
        lemma_node_bounds(s, l, (depth - 1) as nat);
        lemma_node_bounds(s, r, (depth - 1) as nat);
        lemma_node_end(s, t, l, (depth - 1) as nat, r);
        lemma_node_end(s, t, r, (depth - 1) as nat, end);
    }
}

proof fn lemma_node_bounds(s: Seq<u8>, at: int, depth: nat)
    requires
        0 <= at,
    ensures
        node_end(s, at, depth) matches Some(end) ==> at < end <= s.len(),
    decreases depth,
{
    if node_end(s, at, depth) is Some && s[at] == 2 {
        let l = hash_end(s, at + 1)->Some_0;
        let r = node_end(s, l, (depth - 1) as nat)->Some_0;
        lemma_node_bounds(s, l, (depth - 1) as nat);
        lemma_node_bounds(s, r, (depth - 1) as nat);
    }
}

/// What may be nested less deep may be nested deeper.
proof fn lemma_deeper(s: Seq<u8>, at: int, depth: nat, deeper: nat)
    requires
        node_end(s, at, depth) is Some,
        depth <= deeper,
    ensures
        node_end(s, at, deeper) == node_end(s, at, depth),
    decreases depth,
{
    if s[at] == 2 {
        let l = hash_end(s, at + 1)->Some_0;
        let r = node_end(s, l, (depth - 1) as nat)->Some_0;
        lemma_deeper(s, l, (depth - 1) as nat, (deeper - 1) as nat);
        lemma_deeper(s, r, (depth - 1) as nat, (deeper - 1) as nat);
    }
}

/// A shard is found at the front of its bytes, whatever follows them.
pub proof fn a_shard_is_found(s: Seq<u8>, rest: Seq<u8>, depth: nat, deeper: nat)
    requires
        is_shard(s, depth),
        depth <= deeper,
    ensures
        shard_end(s + rest, deeper) == Some(s.len() as int),
{
    lemma_node_end(s, s + rest, 1, depth, s.len() as int);
    lemma_deeper(s + rest, 1, depth, deeper);
}

/// The bytes up to the end of a shard are a shard.
proof fn lemma_shard_alone(s: Seq<u8>, depth: nat)
    ensures
        shard_end(s, depth) matches Some(k) ==> 1 < k <= s.len() && is_shard(s.take(k), depth),
{
    lemma_node_bounds(s, 1, depth);
    if let Some(k) = shard_end(s, depth) {
        lemma_node_end(s, s.take(k), 1, depth, k);
    }
}

fn skip_hash(s: &[u8], at: usize) -> (r: Option<usize>)
    requires
        at <= s@.len(),
    ensures
        match r {
            Some(e) => hash_end(s@, at as int) == Some(e as int) && e <= s@.len(),
            None => hash_end(s@, at as int) is None,
        },
{
    let left: usize = s.len() - at;
    if left == 0 {
        None
    } else if s[at] == 0 {
        Some(at + 1)
    } else if left >= 33 && s[at] == 1 {
        Some(at + 33)
    } else {
        None
    }
}

fn skip_node(s: &[u8], at: usize, depth: u16) -> (r: Option<usize>)
    requires
        at <= s@.len(),
    ensures
        match r {
            Some(e) => node_end(s@, at as int, depth as nat) == Some(e as int) && e <= s@.len(),
            None => node_end(s@, at as int, depth as nat) is None,
        },
    decreases depth,
{
    let left: usize = s.len() - at;
    if left == 0 {
        return None;
    }
    if s[at] == 0 {
        return Some(at + 1);
    }
    if s[at] == 1 {
        return if left >= 34 {
            Some(at + 34)
        } else {
            None
        };
    }
    if s[at] != 2 || depth == 0 {
        return None;
    }
    match skip_hash(s, at + 1) {
        None => None,
        Some(l) => match skip_node(s, l, depth - 1) {
            None => None,
            Some(r) => skip_node(s, r, depth - 1),
        },
    }
}

/// Where the shard at the front of some bytes ends, if it is whole and nested no deeper than may be.
pub fn shard_length(s: &[u8]) -> (r: Option<usize>)
    ensures
        match r {
            Some(k) => shard_end(s@, MAX_NESTING as nat) == Some(k as int) && 1 < k <= s@.len()
                && is_shard(s@.take(k as int), MAX_NESTING as nat),
            None => shard_end(s@, MAX_NESTING as nat) is None,
        },
{
    proof {
        lemma_shard_alone(s@, MAX_NESTING as nat);
    }
    if s.len() == 0 {
        return None;
    }
    skip_node(s, 1, MAX_NESTING)
}

} // verus!
