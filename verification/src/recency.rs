//! When finalizers were last heard of, and how they vote.
use crate::byte_map::Key;
use crate::bytes::bytes_eq;
use vstd::prelude::*;

verus! {

/// How a finalizer voted in a round: simple counts.
#[derive(Clone, Copy, Debug, PartialEq, Eq, Structural)]
pub struct VoteCounts {
    pub anys: u64,
    pub nil_prevotes: u64,
    pub yes_prevotes: u64,
    pub precommits: u64,
    pub yes_precommits: u64,
}

/// A finalizer in a round.
#[derive(Clone, Copy, Debug, PartialEq, Eq)]
pub struct Attendance {
    pub pub_key: Key,
    pub counts: VoteCounts,
    /// When a packet last came from it.
    pub last_packet_utc: Option<i64>,
}

/// A round of voting.
#[derive(Debug)]
pub struct RoundVotes {
    pub height: u64,
    pub round: u32,
    pub members: Vec<Attendance>,
}

/// What is known of a finalizer.
#[derive(Clone, Copy, Debug, PartialEq, Eq)]
pub struct FinalizerRecencyStatus {
    pub pub_key: Key,
    pub no_prevotes: u64,
    pub yes_prevotes: u64,
    pub no_precommits: u64,
    pub yes_precommits: u64,
    pub highest_round_vote: u32,
    pub last_direct_connection_utc: Option<i64>,
}

/// The steps of a round.
#[derive(Clone, Copy, Debug, PartialEq, Eq, Structural)]
pub enum TMStep {
    Propose,
    Prevote,
    Precommit,
}

/// How the vote stands.
#[derive(Debug)]
pub struct TFLRecencyStatus {
    pub now_utc: i64,
    pub my_height: u64,
    pub my_round: u32,
    pub my_step: u8,
    pub my_locked_round: i64,
    pub my_valid_round: i64,
    pub finalizer_statuses: Vec<FinalizerRecencyStatus>,
}

/// A finalizer of which nothing is known.
pub open spec fn unheard(key: Key) -> FinalizerRecencyStatus {
    FinalizerRecencyStatus {
        pub_key: key,
        no_prevotes: 0,
        yes_prevotes: 0,
        no_precommits: 0,
        yes_precommits: 0,
        highest_round_vote: 0,
        last_direct_connection_utc: None,
    }
}

/// The place of a finalizer, or the length where there is none.
pub open spec fn status_place(s: Seq<FinalizerRecencyStatus>, key: Key) -> int
    decreases s.len(),
{
    if s.len() == 0 {
        0
    } else if s[0].pub_key == key {
        0
    } else {
        1 + status_place(s.skip(1), key)
    }
}

/// The later of two times; no time is before any.
pub open spec fn later(a: Option<i64>, b: Option<i64>) -> Option<i64> {
    match (a, b) {
        (Some(x), Some(y)) => if x >= y {
            a
        } else {
            b
        },
        (Some(_), None) => a,
        (None, _) => b,
    }
}

/// Two counts together, as far as they can be counted.
pub open spec fn counted(a: u64, b: u64) -> u64 {
    if a + b > u64::MAX {
        u64::MAX
    } else {
        (a + b) as u64
    }
}

/// A finalizer after it was seen in a round. Votes count at the current height only; the node itself is
/// heard of now.
pub open spec fn heard(
    st: FinalizerRecencyStatus,
    m: Attendance,
    current: bool,
    round: u32,
    me: Key,
    now_utc: i64,
) -> FinalizerRecencyStatus {
    let votes = current && m.counts.anys > 0;
    let c = m.counts;
    FinalizerRecencyStatus {
        pub_key: st.pub_key,
        no_prevotes: if votes {
            counted(st.no_prevotes, c.nil_prevotes)
        } else {
            st.no_prevotes
        },
        yes_prevotes: if votes {
            counted(st.yes_prevotes, c.yes_prevotes)
        } else {
            st.yes_prevotes
        },
        no_precommits: if votes {
            counted(
                st.no_precommits,
                if c.precommits >= c.yes_precommits {
                    (c.precommits - c.yes_precommits) as u64
                } else {
                    0
                },
            )
        } else {
            st.no_precommits
        },
        yes_precommits: if votes {
            counted(st.yes_precommits, c.yes_precommits)
        } else {
            st.yes_precommits
        },
        highest_round_vote: if votes && round > st.highest_round_vote {
            round
        } else {
            st.highest_round_vote
        },
        last_direct_connection_utc: if m.pub_key == me {
            Some(now_utc)
        } else {
            later(st.last_direct_connection_utc, m.last_packet_utc)
        },
    }
}

/// The vote as one node sees it.
#[derive(Clone, Copy, Debug, PartialEq, Eq)]
pub struct Viewpoint {
    pub my_pub_key: Key,
    pub now_utc: i64,
    pub height: u64,
}

/// What is known of the finalizers after one was seen in a round.
pub open spec fn with_member(
    s: Seq<FinalizerRecencyStatus>,
    m: Attendance,
    height: u64,
    round: u32,
    v: Viewpoint,
) -> Seq<FinalizerRecencyStatus> {
    let i = status_place(s, m.pub_key);
    let current = height == v.height;
    if i < s.len() {
        s.update(i, heard(s[i], m, current, round, v.my_pub_key, v.now_utc))
    } else {
        s.push(heard(unheard(m.pub_key), m, current, round, v.my_pub_key, v.now_utc))
    }
}

pub open spec fn with_members(
    s: Seq<FinalizerRecencyStatus>,
    ms: Seq<Attendance>,
    height: u64,
    round: u32,
    v: Viewpoint,
) -> Seq<FinalizerRecencyStatus>
    decreases ms.len(),
{
    if ms.len() == 0 {
        s
    } else {
        with_member(with_members(s, ms.drop_last(), height, round, v), ms.last(), height, round, v)
    }
}

/// What is known of the finalizers after some rounds.
pub open spec fn with_rounds(rounds: Seq<RoundVotes>, v: Viewpoint) -> Seq<FinalizerRecencyStatus>
    decreases rounds.len(),
{
    if rounds.len() == 0 {
        seq![]
    } else {
        let r = rounds.last();
        with_members(with_rounds(rounds.drop_last(), v), r.members@, r.height, r.round, v)
    }
}

proof fn lemma_status_place(s: Seq<FinalizerRecencyStatus>, key: Key, i: int)
    requires
        0 <= i <= s.len(),
        i < s.len() ==> s[i].pub_key == key,
        forall|k: int| 0 <= k < i ==> (#[trigger] s[k]).pub_key != key,
    ensures
        status_place(s, key) == i,
    decreases i,
{
    if i > 0 {
        assert(s[0].pub_key != key);
        let t = s.skip(1);
        assert forall|k: int| 0 <= k < i - 1 implies (#[trigger] t[k]).pub_key != key by {
            assert(t[k] == s[k + 1]);
        }
        lemma_status_place(t, key, i - 1);
    }
}

fn find_status(v: &Vec<FinalizerRecencyStatus>, key: &Key) -> (r: usize)
    ensures
        r == status_place(v@, *key),
        r <= v@.len(),
{
    let mut i: usize = 0;
    while i < v.len()
        invariant
            i <= v@.len(),
            forall|k: int| 0 <= k < i ==> (#[trigger] v@[k]).pub_key != *key,
        decreases v@.len() - i,
    {
        if bytes_eq(&v[i].pub_key, key) {
            proof {
                lemma_status_place(v@, *key, i as int);
            }
            return i;
        }
        i += 1;
    }
    proof {
        lemma_status_place(v@, *key, i as int);
    }
    i
}

fn hear(st: &FinalizerRecencyStatus, m: &Attendance, current: bool, round: u32, v: &Viewpoint) -> (r:
    FinalizerRecencyStatus)
    ensures
        r == heard(*st, *m, current, round, v.my_pub_key, v.now_utc),
{
    let mut r = *st;
    let c = &m.counts;
    if current && c.anys > 0 {
        r.no_prevotes = r.no_prevotes.saturating_add(c.nil_prevotes);
        r.yes_prevotes = r.yes_prevotes.saturating_add(c.yes_prevotes);
        r.no_precommits = r.no_precommits.saturating_add(
            c.precommits.saturating_sub(c.yes_precommits),
        );
        r.yes_precommits = r.yes_precommits.saturating_add(c.yes_precommits);
        if round > r.highest_round_vote {
            r.highest_round_vote = round;
        }
    }
    if bytes_eq(&m.pub_key, &v.my_pub_key) {
        r.last_direct_connection_utc = Some(v.now_utc);
    } else {
        r.last_direct_connection_utc = match (r.last_direct_connection_utc, m.last_packet_utc) {
            (Some(x), Some(y)) => if x >= y {
                Some(x)
            } else {
                Some(y)
            },
            (Some(x), None) => Some(x),
            (None, b) => b,
        };
    }
    r
}

/// What the rounds say of the finalizers, in the order in which they are first seen.
pub fn finalizer_statuses(rounds: &Vec<RoundVotes>, v: &Viewpoint) -> (r: Vec<FinalizerRecencyStatus>)
    ensures
        r@ == with_rounds(rounds@, *v),
{
    let mut list: Vec<FinalizerRecencyStatus> = Vec::new();
    let mut i: usize = 0;
    assert(rounds@.take(0) =~= seq![]);
    while i < rounds.len()
        invariant
            i <= rounds@.len(),
            list@ == with_rounds(rounds@.take(i as int), *v),
        decreases rounds@.len() - i,
    {
        let round = &rounds[i];
        let ghost before = list@;
        let ghost ms = round.members@;
        assert(rounds@.take(i + 1).drop_last() =~= rounds@.take(i as int));
        let mut k: usize = 0;
        assert(ms.take(0) =~= seq![]);
        while k < round.members.len()
            invariant
                k <= round.members@.len(),
                ms == round.members@,
                list@ == with_members(before, ms.take(k as int), round.height, round.round, *v),
            decreases round.members@.len() - k,
        {
            assert(ms.take(k + 1).drop_last() =~= ms.take(k as int));
            let m = &round.members[k];
            let at: usize = find_status(&list, &m.pub_key);
            let current = round.height == v.height;
            if at < list.len() {
                let st = hear(&list[at], m, current, round.round, v);
                list.set(at, st);
            } else {
                let st = FinalizerRecencyStatus {
                    pub_key: m.pub_key,
                    no_prevotes: 0,
                    yes_prevotes: 0,
                    no_precommits: 0,
                    yes_precommits: 0,
                    highest_round_vote: 0,
                    last_direct_connection_utc: None,
                };
                list.push(hear(&st, m, current, round.round, v));
            }
            k += 1;
        }
        assert(ms.take(k as int) =~= ms);
        i += 1;
    }
    assert(rounds@.take(i as int) =~= rounds@);
    list
}

/// How the vote stands, as the node sees it.
pub fn recency_status(
    rounds: &Vec<RoundVotes>,
    v: &Viewpoint,
    round: u32,
    step: TMStep,
    locked_round: i64,
    valid_round: i64,
) -> (r: TFLRecencyStatus)
    ensures
        r.now_utc == v.now_utc,
        r.my_height == v.height,
        r.my_round == round,
        r.my_step == match step {
            TMStep::Propose => 0u8,
            TMStep::Prevote => 1,
            TMStep::Precommit => 2,
        },
        r.my_locked_round == locked_round,
        r.my_valid_round == valid_round,
        r.finalizer_statuses@ == with_rounds(rounds@, *v),
{
    TFLRecencyStatus {
        now_utc: v.now_utc,
        my_height: v.height,
        my_round: round,
        my_step: match step {
            TMStep::Propose => 0,
            TMStep::Prevote => 1,
            TMStep::Precommit => 2,
        },
        my_locked_round: locked_round,
        my_valid_round: valid_round,
        finalizer_statuses: finalizer_statuses(rounds, v),
    }
}

/// Whether no finalizer is listed twice.
pub open spec fn listed_once(s: Seq<FinalizerRecencyStatus>) -> bool {
    forall|i: int, j: int|
        0 <= i < j < s.len() ==> (#[trigger] s[i]).pub_key != (#[trigger] s[j]).pub_key
}

proof fn lemma_place_bounds(s: Seq<FinalizerRecencyStatus>, key: Key)
    ensures
        0 <= status_place(s, key) <= s.len(),
        status_place(s, key) < s.len() ==> s[status_place(s, key)].pub_key == key,
        forall|k: int| 0 <= k < status_place(s, key) ==> (#[trigger] s[k]).pub_key != key,
    decreases s.len(),
{
    if s.len() > 0 && s[0].pub_key != key {
        let t = s.skip(1);
        lemma_place_bounds(t, key);
        assert forall|k: int| 0 <= k < status_place(s, key) implies (#[trigger] s[k]).pub_key != key by {
            if k > 0 {
                assert(t[k - 1] == s[k]);
            }
        }
    }
}

proof fn lemma_members_listed_once(
    s: Seq<FinalizerRecencyStatus>,
    ms: Seq<Attendance>,
    height: u64,
    round: u32,
    v: Viewpoint,
)
    requires
        listed_once(s),
    ensures
        listed_once(with_members(s, ms, height, round, v)),
    decreases ms.len(),
{
    if ms.len() > 0 {
        lemma_members_listed_once(s, ms.drop_last(), height, round, v);
        let t = with_members(s, ms.drop_last(), height, round, v);
        lemma_place_bounds(t, ms.last().pub_key);
    }
}

/// However often a finalizer is seen, it is listed once.
pub proof fn each_finalizer_is_listed_once(rounds: Seq<RoundVotes>, v: Viewpoint)
    ensures
        listed_once(with_rounds(rounds, v)),
    decreases rounds.len(),
{
    if rounds.len() > 0 {
        each_finalizer_is_listed_once(rounds.drop_last(), v);
        let r = rounds.last();
        lemma_members_listed_once(
            with_rounds(rounds.drop_last(), v),
            r.members@,
            r.height,
            r.round,
            v,
        );
    }
}

/// When a finalizer is seen in a round, every other one stays as it was. The one that is seen is listed,
/// and its votes are added to those that were known of it if the round is at the current height and it
/// voted: its prevotes for and against, its precommits for, and its other precommits as against. The
/// highest round in which it voted never falls.
pub proof fn a_vote_is_counted_for_its_finalizer(
    s: Seq<FinalizerRecencyStatus>,
    m: Attendance,
    height: u64,
    round: u32,
    v: Viewpoint,
    i: int,
)
    requires
        listed_once(s),
        0 <= i < with_member(s, m, height, round, v).len(),
    ensures
        ({
            let r = with_member(s, m, height, round, v);
            let known = exists|k: int| 0 <= k < s.len() && (#[trigger] s[k]).pub_key == m.pub_key;
            let new = r[i];
            let c = m.counts;
            &&& r.len() == s.len() + if known {
                0int
            } else {
                1int
            }
            &&& i < s.len() ==> r[i].pub_key == s[i].pub_key
            &&& i < s.len() && s[i].pub_key != m.pub_key ==> r[i] == s[i]
            &&& i >= s.len() ==> r[i].pub_key == m.pub_key
            &&& r[i].pub_key == m.pub_key ==> {
                let (a, b, d, e, f) = if i < s.len() {
                    (
                        s[i].no_prevotes,
                        s[i].yes_prevotes,
                        s[i].no_precommits,
                        s[i].yes_precommits,
                        s[i].highest_round_vote,
                    )
                } else {
                    (0, 0, 0, 0, 0)
                };
                &&& height == v.height && c.anys > 0 ==> {
                    &&& a + c.nil_prevotes <= u64::MAX ==> new.no_prevotes == a + c.nil_prevotes
                    &&& b + c.yes_prevotes <= u64::MAX ==> new.yes_prevotes == b + c.yes_prevotes
                    &&& c.precommits >= c.yes_precommits && d + c.precommits - c.yes_precommits
                        <= u64::MAX ==> new.no_precommits == d + c.precommits - c.yes_precommits
                    &&& e + c.yes_precommits <= u64::MAX ==> new.yes_precommits == e
                        + c.yes_precommits
                    &&& new.highest_round_vote >= round && new.highest_round_vote >= f
                    &&& new.highest_round_vote == round || new.highest_round_vote == f
                }
                &&& height != v.height || c.anys == 0 ==> new.no_prevotes == a && new.yes_prevotes == b
                    && new.no_precommits == d && new.yes_precommits == e && new.highest_round_vote
                    == f
            }
        }),
{
    lemma_place_bounds(s, m.pub_key);
    let p = status_place(s, m.pub_key);
    if p < s.len() {
        assert(s[p].pub_key == m.pub_key);
        if i < p {
            assert(s[i].pub_key != s[p].pub_key);
        }
        if p < i {
            assert(s[p].pub_key != s[i].pub_key);
        }
    } else {
        assert forall|k: int| 0 <= k < s.len() implies (#[trigger] s[k]).pub_key != m.pub_key by {}
    }
}

/// A finalizer was last heard of when its latest packet came, whatever the order of the rounds; the node
/// itself is heard of now.
pub proof fn the_latest_packet_counts(
    st: FinalizerRecencyStatus,
    m: Attendance,
    current: bool,
    round: u32,
    me: Key,
    now_utc: i64,
)
    ensures
        ({
            let r = heard(st, m, current, round, me, now_utc).last_direct_connection_utc;
            let (a, b) = (st.last_direct_connection_utc, m.last_packet_utc);
            &&& m.pub_key == me ==> r == Some(now_utc)
            &&& m.pub_key != me ==> {
                &&& r == a || r == b
                &&& a is Some ==> r is Some && r->Some_0 >= a->Some_0
                &&& b is Some ==> r is Some && r->Some_0 >= b->Some_0
            }
        }),
{
}

} // verus!
