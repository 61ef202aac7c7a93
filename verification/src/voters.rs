//! The roster of those who vote: who is in it, in which order, and with how much behind them.
use crate::byte_map::Key;
use crate::hardfork::{
    forks, holds_key, is_terminated, terminated_finalizers_at, HardFork, HardForkConfig,
};
use crate::roster::{members, MemberModel, WalletRosterMember};
use vstd::prelude::*;
use vstd::relations::{sorted_by, total_ordering};
use vstd::seq_lib::lemma_sorted_unique;

verus! {

/// A finalizer with the stake behind it.
pub type RosterMember = WalletRosterMember;

/// A finalizer that votes.
#[derive(Clone, Copy, Debug, PartialEq, Eq)]
pub struct SortedRosterMember {
    pub pub_key: Key,
    pub stake: u64,
    /// The stake of this one and of all before it.
    pub cumulative_stake: u64,
}

/// Whether a key is less than another: at the first place where they differ.
pub open spec fn key_less(a: Key, b: Key) -> bool {
    exists|i: int|
        0 <= i < 32 && #[trigger] a@[i] < b@[i] && forall|j: int|
            0 <= j < i ==> #[trigger] a@[j] == b@[j]
}

/// Whether a voter, a key with a stake, stands before another or is the same: the greater stake first,
/// and of equal stakes the greater key.
pub open spec fn ranks(a: (Key, u64), b: (Key, u64)) -> bool {
    a.1 > b.1 || (a.1 == b.1 && (a.0 == b.0 || key_less(b.0, a.0)))
}

/// Two keys are equal, or they differ at a first place.
proof fn lemma_differ(a: Key, b: Key, n: int)
    requires
        0 <= n <= 32,
    ensures
        (forall|i: int| 0 <= i < n ==> a@[i] == b@[i]) || (exists|i: int|
            0 <= i < n && a@[i] != b@[i] && forall|j: int| 0 <= j < i ==> #[trigger] a@[j] == b@[j]),
    decreases n,
{
    if n > 0 {
        lemma_differ(a, b, n - 1);
    }
}

proof fn lemma_key_total(a: Key, b: Key)
    ensures
        a == b || key_less(a, b) || key_less(b, a),
        !(key_less(a, b) && key_less(b, a)),
        !key_less(a, a),
{
    lemma_differ(a, b, 32);
    if forall|i: int| 0 <= i < 32 ==> a@[i] == b@[i] {
        assert(a =~= b);
    } else {
        let i = choose|i: int|
            0 <= i < 32 && a@[i] != b@[i] && forall|j: int| 0 <= j < i ==> #[trigger] a@[j] == b@[j];
        if a@[i] < b@[i] {
            assert(key_less(a, b));
        } else {
            assert(b@[i] < a@[i]);
            assert(forall|j: int| 0 <= j < i ==> #[trigger] b@[j] == a@[j]);
            assert(key_less(b, a));
        }
    }
    if key_less(a, b) && key_less(b, a) {
        let i = choose|i: int|
            0 <= i < 32 && #[trigger] a@[i] < b@[i] && forall|j: int|
                0 <= j < i ==> #[trigger] a@[j] == b@[j];
        let k = choose|k: int|
            0 <= k < 32 && #[trigger] b@[k] < a@[k] && forall|j: int|
                0 <= j < k ==> #[trigger] b@[j] == a@[j];
        assert(i < k ==> b@[i] == a@[i]);
        assert(k < i ==> a@[k] == b@[k]);
    }
}

proof fn lemma_key_transitive(a: Key, b: Key, c: Key)
    requires
        key_less(a, b),
        key_less(b, c),
    ensures
        key_less(a, c),
{
    let i = choose|i: int|
        0 <= i < 32 && #[trigger] a@[i] < b@[i] && forall|j: int|
            0 <= j < i ==> #[trigger] a@[j] == b@[j];
    let k = choose|k: int|
        0 <= k < 32 && #[trigger] b@[k] < c@[k] && forall|j: int|
            0 <= j < k ==> #[trigger] b@[j] == c@[j];
    let m = if i < k {
        i
    } else {
        k
    };
    assert(a@[m] < c@[m]) by {
        if i < k {
            assert(b@[i] == c@[i]);
        } else if k < i {
            assert(a@[k] == b@[k]);
        }
    }
    assert forall|j: int| 0 <= j < m implies #[trigger] a@[j] == c@[j] by {
        assert(a@[j] == b@[j]);
        assert(b@[j] == c@[j]);
    }
}

/// Voters are ranked without ties.
pub proof fn the_rank_is_total()
    ensures
        total_ordering(|a: (Key, u64), b: (Key, u64)| ranks(a, b)),
{
    let leq = |a: (Key, u64), b: (Key, u64)| ranks(a, b);
    assert forall|a: (Key, u64), b: (Key, u64)| #[trigger] leq(a, b) || #[trigger] leq(b, a) by {
        lemma_key_total(a.0, b.0);
    }
    assert forall|a: (Key, u64), b: (Key, u64)| #[trigger] leq(a, b) && #[trigger] leq(b, a) implies a
        == b by {
        lemma_key_total(a.0, b.0);
    }
    assert forall|a: (Key, u64), b: (Key, u64), c: (Key, u64)| #[trigger] leq(a, b) && #[trigger] leq(
        b,
        c,
    ) implies leq(a, c) by {
        if a.1 == b.1 && b.1 == c.1 && key_less(b.0, a.0) && key_less(c.0, b.0) {
            lemma_key_transitive(c.0, b.0, a.0);
        }
    }
}

fn is_key_less(a: &Key, b: &Key) -> (r: bool)
    ensures
        r == key_less(*a, *b),
{
    let mut i: usize = 0;
    while i < 32
        invariant
            i <= 32,
            forall|j: int| 0 <= j < i ==> #[trigger] a@[j] == b@[j],
        decreases 32 - i,
    {
        if a[i] != b[i] {
            proof {
                lemma_key_total(*a, *b);
                if a@[i as int] < b@[i as int] {
                    assert(key_less(*a, *b));
                } else {
                    assert(b@[i as int] < a@[i as int]);
                    assert(forall|j: int| 0 <= j < i ==> #[trigger] b@[j] == a@[j]);
                    assert(key_less(*b, *a));
                }
            }
            return a[i] < b[i];
        }
        i += 1;
    }
    assert(*a =~= *b);
    proof {
        lemma_key_total(*a, *b);
    }
    false
}

/// Those who vote: all but the terminated ones.
pub open spec fn voters(vals: Seq<MemberModel>, terminated: Seq<Key>) -> Seq<(Key, u64)>
    decreases vals.len(),
{
    if vals.len() == 0 {
        seq![]
    } else {
        let before = voters(vals.drop_last(), terminated);
        let v = vals.last();
        if terminated.contains(v.pub_key) {
            before
        } else {
            before.push((v.pub_key, v.voting_power))
        }
    }
}

/// The stake of some voters together.
pub open spec fn total_stake(s: Seq<(Key, u64)>) -> nat
    decreases s.len(),
{
    if s.len() == 0 {
        0
    } else {
        total_stake(s.drop_last()) + s.last().1 as nat
    }
}

/// The voters of a roster.
pub open spec fn stakes(r: Seq<SortedRosterMember>) -> Seq<(Key, u64)> {
    Seq::new(r.len(), |i: int| (r[i].pub_key, r[i].stake))
}

/// Whether some voters are others in the order of their rank.
pub open spec fn is_ranked(s: Seq<(Key, u64)>, of: Seq<(Key, u64)>) -> bool {
    &&& s.to_multiset() == of.to_multiset()
    &&& sorted_by(s, |a: (Key, u64), b: (Key, u64)| ranks(a, b))
}

/// Whether a roster is that of some voters: they stand by rank, each with the stake up to it.
pub open spec fn is_roster_of(r: Seq<SortedRosterMember>, of: Seq<(Key, u64)>) -> bool {
    &&& is_ranked(stakes(r), of)
    &&& forall|i: int|
        0 <= i < r.len() ==> (#[trigger] r[i]).cumulative_stake == total_stake(stakes(r).take(i + 1))
}

/// The roster does not depend on the order in which one heard of the voters: everyone has the same.
pub proof fn everyone_has_the_same_roster(
    r: Seq<SortedRosterMember>,
    q: Seq<SortedRosterMember>,
    a: Seq<(Key, u64)>,
    b: Seq<(Key, u64)>,
)
    requires
        is_roster_of(r, a),
        is_roster_of(q, b),
        a.to_multiset() == b.to_multiset(),
    ensures
        r == q,
{
    the_rank_is_total();
    lemma_sorted_unique(stakes(r), stakes(q), |a: (Key, u64), b: (Key, u64)| ranks(a, b));
    assert(stakes(r) == stakes(q));
    assert forall|i: int| 0 <= i < r.len() implies r[i] == q[i] by {
        assert(stakes(r)[i] == stakes(q)[i]);
        assert(r[i].cumulative_stake == q[i].cumulative_stake);
    }
    assert(r =~= q);
}

/// A terminated finalizer does not vote.
pub proof fn a_terminated_finalizer_does_not_vote(
    vals: Seq<MemberModel>,
    terminated: Seq<Key>,
    r: Seq<SortedRosterMember>,
    i: int,
)
    requires
        is_roster_of(r, voters(vals, terminated)),
        0 <= i < r.len(),
    ensures
        !terminated.contains(r[i].pub_key),
{
    broadcast use vstd::seq_lib::group_to_multiset_ensures;

    let s = stakes(r);
    let of = voters(vals, terminated);
    assert(s.contains(s[i]));
    assert(of.to_multiset().count(s[i]) > 0);
    assert(of.contains(s[i]));
    lemma_voters(vals, terminated);
}

proof fn lemma_voters(vals: Seq<MemberModel>, terminated: Seq<Key>)
    ensures
        forall|v: (Key, u64)| #[trigger]
            voters(vals, terminated).contains(v) ==> !terminated.contains(v.0),
    decreases vals.len(),
{
    if vals.len() > 0 {
        lemma_voters(vals.drop_last(), terminated);
        let before = voters(vals.drop_last(), terminated);
        assert forall|v: (Key, u64)| #[trigger]
            voters(vals, terminated).contains(v) implies !terminated.contains(v.0) by {
            let s = voters(vals, terminated);
            let i = choose|i: int| 0 <= i < s.len() && s[i] == v;
            if i < before.len() {
                assert(before[i] == v);
                assert(before.contains(v));
            }
        }
    }
}

/// The last of a roster has the whole stake up to it.
pub proof fn the_last_has_the_whole_stake(r: Seq<SortedRosterMember>, of: Seq<(Key, u64)>)
    requires
        is_roster_of(r, of),
        r.len() > 0,
    ensures
        r.last().cumulative_stake == total_stake(of),
{
    let s = stakes(r);
    assert(s.take(s.len() as int) =~= s);
    assert(r[r.len() - 1].cumulative_stake == total_stake(s.take(r.len() - 1 + 1)));
    lemma_stake_of_multiset(s, of);
}

proof fn lemma_stake_remove(s: Seq<(Key, u64)>, i: int)
    requires
        0 <= i < s.len(),
    ensures
        total_stake(s) == total_stake(s.remove(i)) + s[i].1,
    decreases s.len(),
{
    if i < s.len() - 1 {
        lemma_stake_remove(s.drop_last(), i);
        assert(s.remove(i).drop_last() =~= s.drop_last().remove(i));
    } else {
        assert(s.remove(i) =~= s.drop_last());
    }
}

proof fn lemma_stake_of_multiset(a: Seq<(Key, u64)>, b: Seq<(Key, u64)>)
    requires
        a.to_multiset() == b.to_multiset(),
    ensures
        total_stake(a) == total_stake(b),
        a.len() == b.len(),
    decreases a.len(),
{
    broadcast use vstd::seq_lib::group_to_multiset_ensures;

    assert(a.len() == a.to_multiset().len());
    assert(b.len() == b.to_multiset().len());
    if a.len() > 0 {
        let x = a.last();
        assert(a.contains(a[a.len() - 1]));
        assert(b.to_multiset().count(x) > 0);
        assert(b.contains(x));
        let i = choose|i: int| 0 <= i < b.len() && b[i] == x;
        assert(a.remove(a.len() - 1) =~= a.drop_last());
        assert(a.drop_last().to_multiset() =~= b.remove(i).to_multiset());
        lemma_stake_of_multiset(a.drop_last(), b.remove(i));
        lemma_stake_remove(b, i);
    }
}

fn outranks(a: &(Key, u64), b: &(Key, u64)) -> (r: bool)
    ensures
        r == !ranks(*b, *a),
{
    proof {
        lemma_key_total(a.0, b.0);
    }
    a.1 > b.1 || (a.1 == b.1 && is_key_less(&b.0, &a.0))
}

/// Puts a voter where its rank is.
fn enlist(list: &mut Vec<(Key, u64)>, v: (Key, u64), Ghost(of): Ghost<Seq<(Key, u64)>>)
    requires
        is_ranked(old(list)@, of),
    ensures
        is_ranked(final(list)@, of.push(v)),
{
    let ghost leq = |a: (Key, u64), b: (Key, u64)| ranks(a, b);
    let ghost before = list@;
    let mut i: usize = 0;
    while i < list.len() && !outranks(&v, &list[i])
        invariant
            list@ == before,
            i <= list@.len(),
            forall|k: int| 0 <= k < i ==> ranks(#[trigger] list@[k], v),
        decreases list@.len() - i,
    {
        i += 1;
    }
    list.insert(i, v);
    proof {
        broadcast use vstd::seq_lib::group_to_multiset_ensures;

        the_rank_is_total();
        if i < before.len() {
            lemma_key_total(v.0, before[i as int].0);
            assert(ranks(v, before[i as int]));
        }
        assert(list@ == before.insert(i as int, v));
        assert(of.push(v).to_multiset() =~= of.to_multiset().insert(v));
        assert(list@.to_multiset() =~= before.to_multiset().insert(v));
        assert forall|a: int, b: int| 0 <= a < b < list@.len() implies #[trigger] leq(
            list@[a],
            list@[b],
        ) by {
            let x = if a < i {
                before[a]
            } else if a == i {
                v
            } else {
                before[a - 1]
            };
            let y = if b < i {
                before[b]
            } else if b == i {
                v
            } else {
                before[b - 1]
            };
            assert(list@[a] == x && list@[b] == y);
            if b < i {
                assert(leq(before[a], before[b]));
            } else if b == i {
                assert(ranks(before[a], v));
            } else if a == i {
                assert(leq(v, before[i as int]));
                if b - 1 > i {
                    assert(leq(before[i as int], before[b - 1]));
                }
            } else if a < i {
                assert(leq(before[a], before[b - 1]));
            } else {
                assert(leq(before[a - 1], before[b - 1]));
            }
        }
    }
}

/// The roster of those who vote.
pub fn tenderlink_roster_from_internal(vals: &Vec<RosterMember>, terminated: &Vec<Key>) -> (r: Vec<
    SortedRosterMember,
>)
    requires
        total_stake(voters(members(vals@), terminated@)) <= u64::MAX,
    ensures
        is_roster_of(r@, voters(members(vals@), terminated@)),
{
    let ghost all = members(vals@);
    let mut list: Vec<(Key, u64)> = Vec::new();
    let mut i: usize = 0;
    assert(all.take(0) =~= seq![]);
    assert(list@ =~= voters(all.take(0), terminated@));
    while i < vals.len()
        invariant
            i <= vals@.len(),
            all == members(vals@),
            is_ranked(list@, voters(all.take(i as int), terminated@)),
        decreases vals@.len() - i,
    {
        assert(all.take(i + 1).drop_last() =~= all.take(i as int));
        assert(all.take(i + 1).last() == vals@[i as int]@);
        if !holds_key(terminated, &vals[i].pub_key) {
            enlist(
                &mut list,
                (vals[i].pub_key, vals[i].voting_power),
                Ghost(voters(all.take(i as int), terminated@)),
            );
        }
        i += 1;
    }
    assert(all.take(i as int) =~= all);
    let ghost of = voters(all, terminated@);
    let mut r: Vec<SortedRosterMember> = Vec::new();
    let mut cumulative_stake: u64 = 0;
    let mut k: usize = 0;
    proof {
        lemma_stake_of_multiset(list@, of);
        assert(stakes(r@) =~= list@.take(0));
        assert(list@.take(0) =~= seq![]);
    }
    while k < list.len()
        invariant
            k <= list@.len(),
            total_stake(list@) <= u64::MAX,
            stakes(r@) == list@.take(k as int),
            r@.len() == k,
            cumulative_stake == total_stake(list@.take(k as int)),
            forall|j: int|
                0 <= j < k ==> (#[trigger] r@[j]).cumulative_stake == total_stake(
                    list@.take(j + 1),
                ),
        decreases list@.len() - k,
    {
        proof {
            lemma_stake_prefix(list@, k + 1);
            assert(list@.take(k + 1).drop_last() =~= list@.take(k as int));
        }
        cumulative_stake = cumulative_stake + list[k].1;
        r.push(SortedRosterMember { pub_key: list[k].0, stake: list[k].1, cumulative_stake });
        k += 1;
        assert(stakes(r@) =~= list@.take(k as int));
    }
    proof {
        assert(list@.take(k as int) =~= list@);
        assert forall|j: int| 0 <= j < r@.len() implies (#[trigger] r@[j]).cumulative_stake
            == total_stake(stakes(r@).take(j + 1)) by {
            assert(stakes(r@) == list@);
        }
    }
    r
}

proof fn lemma_stake_prefix(s: Seq<(Key, u64)>, n: int)
    requires
        0 <= n <= s.len(),
    ensures
        total_stake(s.take(n)) <= total_stake(s),
    decreases s.len() - n,
{
    if n < s.len() {
        assert(s.take(n + 1).drop_last() =~= s.take(n));
        lemma_stake_prefix(s, n + 1);
    } else {
        assert(s.take(n) =~= s);
    }
}

/// Those who vote at a BFT height: all that no hardfork of a schedule terminates there.
pub open spec fn voters_at(
    vals: Seq<MemberModel>,
    schedule: Seq<HardFork>,
    bft_height: u64,
    finalized_bc_height: u64,
) -> Seq<(Key, u64)>
    decreases vals.len(),
{
    if vals.len() == 0 {
        seq![]
    } else {
        let before = voters_at(vals.drop_last(), schedule, bft_height, finalized_bc_height);
        let v = vals.last();
        if is_terminated(schedule, bft_height, finalized_bc_height, v.pub_key) {
            before
        } else {
            before.push((v.pub_key, v.voting_power))
        }
    }
}

proof fn lemma_voters_at(
    vals: Seq<MemberModel>,
    gone: Seq<Key>,
    schedule: Seq<HardFork>,
    bft_height: u64,
    finalized_bc_height: u64,
)
    requires
        forall|key: Key| #[trigger]
            gone.contains(key) <==> is_terminated(schedule, bft_height, finalized_bc_height, key),
    ensures
        voters(vals, gone) == voters_at(vals, schedule, bft_height, finalized_bc_height),
    decreases vals.len(),
{
    if vals.len() > 0 {
        lemma_voters_at(vals.drop_last(), gone, schedule, bft_height, finalized_bc_height);
        assert(gone.contains(vals.last().pub_key) <==> is_terminated(
            schedule,
            bft_height,
            finalized_bc_height,
            vals.last().pub_key,
        ));
    }
}

/// The roster of those who vote at a BFT height, once a height of the best chain is final.
pub fn roster_at(
    vals: &Vec<RosterMember>,
    hardforks: &Vec<HardForkConfig>,
    bft_height: u64,
    finalized_bc_height: u64,
) -> (r: Vec<SortedRosterMember>)
    requires
        total_stake(
            voters_at(members(vals@), forks(hardforks@), bft_height, finalized_bc_height),
        ) <= u64::MAX,
    ensures
        is_roster_of(
            r@,
            voters_at(members(vals@), forks(hardforks@), bft_height, finalized_bc_height),
        ),
{
    let terminated = terminated_finalizers_at(hardforks, bft_height, finalized_bc_height);
    proof {
        lemma_voters_at(
            members(vals@),
            terminated@,
            forks(hardforks@),
            bft_height,
            finalized_bc_height,
        );
    }
    tenderlink_roster_from_internal(vals, &terminated)
}

/// A finalizer votes exactly where it is not terminated, and with the voting power that it has.
pub proof fn every_other_finalizer_votes(vals: Seq<MemberModel>, terminated: Seq<Key>, v: (Key, u64))
    ensures
        voters(vals, terminated).contains(v) <==> !terminated.contains(v.0) && exists|i: int|
            0 <= i < vals.len() && (#[trigger] vals[i]).pub_key == v.0 && vals[i].voting_power == v.1,
    decreases vals.len(),
{
    let s = voters(vals, terminated);
    if vals.len() > 0 {
        let rest = vals.drop_last();
        every_other_finalizer_votes(rest, terminated, v);
        let before = voters(rest, terminated);
        let last = vals.len() - 1;
        assert(vals[last] == vals.last());
        assert forall|i: int| 0 <= i < rest.len() implies #[trigger] rest[i] == vals[i] by {}
        if s.contains(v) {
            let k = choose|k: int| 0 <= k < s.len() && s[k] == v;
            if k < before.len() {
                assert(before[k] == v);
                let i = choose|i: int|
                    0 <= i < rest.len() && (#[trigger] rest[i]).pub_key == v.0
                        && rest[i].voting_power == v.1;
                assert(vals[i] == rest[i]);
            } else {
                assert(vals[last].pub_key == v.0);
            }
        }
        if !terminated.contains(v.0) && exists|i: int|
            0 <= i < vals.len() && (#[trigger] vals[i]).pub_key == v.0 && vals[i].voting_power == v.1 {
            let i = choose|i: int|
                0 <= i < vals.len() && (#[trigger] vals[i]).pub_key == v.0 && vals[i].voting_power
                    == v.1;
            if i < last {
                assert(rest[i].pub_key == v.0);
                let k = choose|k: int| 0 <= k < before.len() && before[k] == v;
                assert(s[k] == v);
            } else {
                assert(s[s.len() - 1] == v);
            }
        }
    }
}

/// The roster holds every finalizer that is not terminated, with its voting power as its stake, and each
/// as often as it was listed.
pub proof fn the_roster_holds_every_voter(
    r: Seq<SortedRosterMember>,
    vals: Seq<MemberModel>,
    terminated: Seq<Key>,
    i: int,
)
    requires
        is_roster_of(r, voters(vals, terminated)),
        0 <= i < vals.len(),
        !terminated.contains(vals[i].pub_key),
    ensures
        exists|k: int|
            0 <= k < r.len() && (#[trigger] r[k]).pub_key == vals[i].pub_key && r[k].stake
                == vals[i].voting_power,
        r.len() == voters(vals, terminated).len(),
{
    broadcast use vstd::seq_lib::group_to_multiset_ensures;

    let v = (vals[i].pub_key, vals[i].voting_power);
    let s = stakes(r);
    every_other_finalizer_votes(vals, terminated, v);
    assert(voters(vals, terminated).to_multiset().count(v) > 0);
    assert(s.contains(v));
    let k = choose|k: int| 0 <= k < s.len() && s[k] == v;
    assert(r[k].pub_key == vals[i].pub_key);
    lemma_stake_of_multiset(s, voters(vals, terminated));
}

/// In a roster no one stands before one with more stake, and of two with the same stake the one with the
/// greater key stands first. The stake up to each is that up to the one before it and its own.
pub proof fn the_roster_is_ranked(r: Seq<SortedRosterMember>, of: Seq<(Key, u64)>, i: int, j: int)
    requires
        is_roster_of(r, of),
        0 <= i < j < r.len(),
    ensures
        r[i].stake >= r[j].stake,
        r[i].stake == r[j].stake ==> r[i].pub_key == r[j].pub_key || key_less(
            r[j].pub_key,
            r[i].pub_key,
        ),
        r[0].cumulative_stake == r[0].stake,
        r[j].cumulative_stake == r[j - 1].cumulative_stake + r[j].stake,
{
    let s = stakes(r);
    let leq = |a: (Key, u64), b: (Key, u64)| ranks(a, b);
    assert(leq(s[i], s[j]));
    assert(s.take(j + 1).drop_last() =~= s.take(j));
    assert(r[j].cumulative_stake == total_stake(s.take(j + 1)));
    assert(r[j - 1].cumulative_stake == total_stake(s.take(j - 1 + 1)));
    assert(r[0].cumulative_stake == total_stake(s.take(0int + 1)));
    assert(s.take(1).drop_last() =~= s.take(0));
    assert(total_stake(s.take(0)) == 0);
}

/// At a BFT height exactly those vote whom no hardfork has terminated there, each with its voting power.
pub proof fn every_finalizer_votes_until_terminated(
    vals: Seq<MemberModel>,
    schedule: Seq<HardFork>,
    bft_height: u64,
    finalized_bc_height: u64,
    v: (Key, u64),
)
    ensures
        voters_at(vals, schedule, bft_height, finalized_bc_height).contains(v) <==> !is_terminated(
            schedule,
            bft_height,
            finalized_bc_height,
            v.0,
        ) && exists|i: int|
            0 <= i < vals.len() && (#[trigger] vals[i]).pub_key == v.0 && vals[i].voting_power == v.1,
    decreases vals.len(),
{
    let s = voters_at(vals, schedule, bft_height, finalized_bc_height);
    if vals.len() > 0 {
        let rest = vals.drop_last();
        every_finalizer_votes_until_terminated(rest, schedule, bft_height, finalized_bc_height, v);
        let before = voters_at(rest, schedule, bft_height, finalized_bc_height);
        let last = vals.len() - 1;
        assert(vals[last] == vals.last());
        assert forall|i: int| 0 <= i < rest.len() implies #[trigger] rest[i] == vals[i] by {}
        if s.contains(v) {
            let k = choose|k: int| 0 <= k < s.len() && s[k] == v;
            if k < before.len() {
                assert(before[k] == v);
                let i = choose|i: int|
                    0 <= i < rest.len() && (#[trigger] rest[i]).pub_key == v.0
                        && rest[i].voting_power == v.1;
                assert(vals[i] == rest[i]);
            } else {
                assert(vals[last].pub_key == v.0);
            }
        }
        if !is_terminated(schedule, bft_height, finalized_bc_height, v.0) && exists|i: int|
            0 <= i < vals.len() && (#[trigger] vals[i]).pub_key == v.0 && vals[i].voting_power == v.1 {
            let i = choose|i: int|
                0 <= i < vals.len() && (#[trigger] vals[i]).pub_key == v.0 && vals[i].voting_power
                    == v.1;
            if i < last {
                assert(rest[i].pub_key == v.0);
                let k = choose|k: int| 0 <= k < before.len() && before[k] == v;
                assert(s[k] == v);
            } else {
                assert(s[s.len() - 1] == v);
            }
        }
    }
}

} // verus!
