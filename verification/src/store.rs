//! The file of decided BFT blocks: what is appended to it, and how it is replayed.
use crate::bft::{BftBlock, BlockHash, FatPointerSignature, FatPointerToBftBlock};
use crate::byte_map::Key;
use crate::bytes::{bytes_eq, push_all};
use crate::hardfork::{forks, namespace, namespace_for_bft_height, HardFork, HardForkConfig};
use crate::network::NetworkType;
use crate::roster::{members, parse_member, take_member, MemberModel};
use crate::voters::{
    is_roster_of, roster_at, total_stake, voters_at, RosterMember, SortedRosterMember,
};
use crate::wire::{
    array_extends, array_round_trip, array_then, extended, items_extend, items_round_trip,
    list_then, models, parse_array, parse_items, parse_u64, primitives_extend,
    primitives_round_trip, put_array, put_list, put_u64, take_array, take_items, take_u64, u64_then,
    Fault, Parsed, Taken, Wire,
};
use vstd::prelude::*;

verus! {

/// A signature.
pub type Sig = [u8; 64];

impl Wire for Sig {
    type Model = Sig;

    open spec fn model(&self) -> Sig {
        *self
    }

    open spec fn then_bytes(m: Sig, rest: Seq<u8>) -> Seq<u8> {
        array_then::<64>(m, rest)
    }

    open spec fn parse(net: NetworkType, s: Seq<u8>) -> Parsed<Sig> {
        parse_array::<64>(s)
    }

    open spec fn storable(net: NetworkType, m: Sig) -> bool {
        true
    }

    proof fn round_trip(net: NetworkType, m: Sig, rest: Seq<u8>) {
        broadcast use array_round_trip;

    }

    proof fn extends(net: NetworkType, s: Seq<u8>, more: Seq<u8>) {
        broadcast use array_extends;

    }

    fn put(&self, out: &mut Vec<u8>) {
        put_array::<64>(out, self);
    }

    fn take<'a>(net: NetworkType, s: &'a [u8]) -> (res: Taken<'a, Sig>) {
        take_array::<64>(s)
    }
}

/// A finalizer: its key, its voting power, and the stakes behind it.
impl Wire for RosterMember {
    type Model = MemberModel;

    open spec fn model(&self) -> MemberModel {
        self@
    }

    open spec fn then_bytes(m: MemberModel, rest: Seq<u8>) -> Seq<u8> {
        array_then::<32>(
            m.pub_key,
            u64_then(m.voting_power, list_then::<(Key, u64)>(m.txids, rest)),
        )
    }

    open spec fn parse(net: NetworkType, s: Seq<u8>) -> Parsed<MemberModel> {
        parse_member(s)
    }

    open spec fn storable(net: NetworkType, m: MemberModel) -> bool {
        m.txids.len() <= u64::MAX
    }

    proof fn round_trip(net: NetworkType, m: MemberModel, rest: Seq<u8>) {
        broadcast use primitives_round_trip;

        items_round_trip::<(Key, u64)>(NetworkType::Test, m.txids, rest);
    }

    proof fn extends(net: NetworkType, s: Seq<u8>, more: Seq<u8>) {
        broadcast use primitives_extend;

        if let Ok((_, s)) = parse_array::<32>(s) {
            if let Ok((_, s)) = parse_u64(s) {
                if let Ok((n, s)) = parse_u64(s) {
                    items_extend::<(Key, u64)>(NetworkType::Test, n as nat, s, more);
                }
            }
        }
    }

    fn put(&self, out: &mut Vec<u8>) {
        proof {
            assert(models(self.txids@) =~= self.txids@);
        }
        put_array::<32>(out, &self.pub_key);
        put_u64(out, self.voting_power);
        put_list::<(Key, u64)>(out, &self.txids);
    }

    fn take<'a>(net: NetworkType, s: &'a [u8]) -> (res: Taken<'a, RosterMember>) {
        take_member(s)
    }
}

/// What stands behind a decided block: the finalizers from then on, and the signatures of the proposal.
pub open spec fn tail_then(roster: Seq<MemberModel>, sigs: Seq<Sig>, rest: Seq<u8>) -> Seq<u8> {
    list_then::<RosterMember>(roster, list_then::<Sig>(sigs, rest))
}

/// What comes of reading what stands behind a decided block.
pub open spec fn parse_tail(s: Seq<u8>) -> Parsed<(Seq<MemberModel>, Seq<Sig>)> {
    match parse_u64(s) {
        Err(f) => Err(f),
        Ok((n, s)) => match parse_items::<RosterMember>(NetworkType::Test, n as nat, s) {
            Err(f) => Err(f),
            Ok((roster, s)) => match parse_u64(s) {
                Err(f) => Err(f),
                Ok((n, s)) => match parse_items::<Sig>(NetworkType::Test, n as nat, s) {
                    Err(f) => Err(f),
                    Ok((sigs, s)) => Ok(((roster, sigs), s)),
                },
            },
        },
    }
}

/// What was written behind a decided block is read back.
pub proof fn the_tail_is_read_back(roster: Seq<MemberModel>, sigs: Seq<Sig>, rest: Seq<u8>)
    requires
        roster.len() <= u64::MAX,
        sigs.len() <= u64::MAX,
        forall|i: int| 0 <= i < roster.len() ==> (#[trigger] roster[i]).txids.len() <= u64::MAX,
    ensures
        parse_tail(tail_then(roster, sigs, rest)) == Ok::<
            ((Seq<MemberModel>, Seq<Sig>), Seq<u8>),
            Fault,
        >(((roster, sigs), rest)),
{
    broadcast use primitives_round_trip;

    items_round_trip::<Sig>(NetworkType::Test, sigs, rest);
    assert forall|i: int| 0 <= i < roster.len() implies <RosterMember as Wire>::storable(
        NetworkType::Test,
        #[trigger] roster[i],
    ) by {
        assert(roster[i].txids.len() <= u64::MAX);
    }
    items_round_trip::<RosterMember>(NetworkType::Test, roster, list_then::<Sig>(sigs, rest));
}

proof fn lemma_tail_extends(s: Seq<u8>, more: Seq<u8>)
    ensures
        extended(parse_tail(s), parse_tail(s + more), more),
{
    broadcast use primitives_extend;

    if let Ok((n, s)) = parse_u64(s) {
        items_extend::<RosterMember>(NetworkType::Test, n as nat, s, more);
        if let Ok((_, s)) = parse_items::<RosterMember>(NetworkType::Test, n as nat, s) {
            if let Ok((n, s)) = parse_u64(s) {
                items_extend::<Sig>(NetworkType::Test, n as nat, s, more);
            }
        }
    }
}

/// What was written behind a decided block and is cut short is not read: the block was not decided as
/// far as the file goes.
pub proof fn a_tail_cut_short_is_not_read(roster: Seq<MemberModel>, sigs: Seq<Sig>, n: int)
    requires
        roster.len() <= u64::MAX,
        sigs.len() <= u64::MAX,
        forall|i: int| 0 <= i < roster.len() ==> (#[trigger] roster[i]).txids.len() <= u64::MAX,
        0 <= n < tail_then(roster, sigs, Seq::empty()).len(),
    ensures
        parse_tail(tail_then(roster, sigs, Seq::empty()).take(n)) is Err,
{
    let all = tail_then(roster, sigs, Seq::empty());
    let (s, more) = (all.take(n), all.skip(n));
    assert(s + more =~= all);
    the_tail_is_read_back(roster, sigs, Seq::empty());
    lemma_tail_extends(s, more);
    if let Ok((_, rest)) = parse_tail(s) {
        assert((rest + more).len() > 0);
    }
}

/// What is appended to the file for a decided block: the block and the pointer to it as they are
/// serialized, the finalizers from then on, and the signatures of the proposal.
pub fn decision_record(block: &[u8], fat_pointer: &[u8], roster: &Vec<RosterMember>, sigs: &Vec<Sig>) -> (r:
    Vec<u8>)
    ensures
        r@ == block@ + fat_pointer@ + tail_then(members(roster@), sigs@, Seq::empty()),
{
    let mut out: Vec<u8> = Vec::new();
    push_all(&mut out, block);
    push_all(&mut out, fat_pointer);
    let ghost front = out@;
    assert(front =~= block@ + fat_pointer@);
    proof {
        assert(models(roster@) =~= members(roster@));
        assert(models(sigs@) =~= sigs@);
    }
    put_list::<RosterMember>(&mut out, roster);
    let ghost mid = out@;
    put_list::<Sig>(&mut out, sigs);
    proof {
        let none = Seq::<u8>::empty();
        assert(out@ + none =~= out@);
        assert(out@ + none == mid + list_then::<Sig>(sigs@, none));
        assert(mid + list_then::<Sig>(sigs@, none) == front + tail_then(
            members(roster@),
            sigs@,
            none,
        ));
    }
    out
}

/// Reads what stands behind a decided block: the finalizers, the signatures, and how many bytes follow.
/// None where it is cut short.
pub fn read_tail(s: &[u8]) -> (r: Option<(Vec<RosterMember>, Vec<Sig>, usize)>)
    ensures
        match parse_tail(s@) {
            Ok(((roster, sigs), rest)) => r matches Some((v, w, n)) && members(v@) == roster && w@
                == sigs && n == rest.len(),
            Err(_) => r is None,
        },
{
    let Ok((n, s)) = take_u64(s) else {
        return None;
    };
    let Ok((roster, s)) = take_items::<RosterMember>(NetworkType::Test, n, s) else {
        return None;
    };
    let Ok((n, s)) = take_u64(s) else {
        return None;
    };
    let Ok((sigs, s)) = take_items::<Sig>(NetworkType::Test, n, s) else {
        return None;
    };
    proof {
        assert(models(roster@) =~= members(roster@));
        assert(models(sigs@) =~= sigs@);
    }
    Some((roster, sigs, s.len()))
}

/// A decided block as it stands in the file.
#[derive(Debug)]
pub struct Decision {
    pub block: BftBlock,
    pub fat_pointer: FatPointerToBftBlock,
    /// The finalizers from then on.
    pub roster: Vec<RosterMember>,
    pub proposal_sigs: Vec<Sig>,
    /// The block as it is serialized.
    pub proposal: Vec<u8>,
    /// The round in which it was decided.
    pub round: u32,
}

/// A round in which a block was decided.
#[derive(Debug)]
pub struct RoundData {
    pub height: u64,
    pub round: u32,
    pub roster: Vec<SortedRosterMember>,
    /// The signature of each of the roster on its vote, or zeros.
    pub votes: Vec<Sig>,
    pub precommits: u64,
    pub yes_precommits: u64,
    pub proposal: Vec<u8>,
    pub proposal_id: BlockHash,
    pub proposal_sigs: Vec<Sig>,
    pub vote_namespace: [u8; 32],
}

/// The vote of a finalizer: the first signature with its key, or zeros.
pub open spec fn vote_of(sigs: Seq<FatPointerSignature>, key: Key) -> Seq<u8>
    decreases sigs.len(),
{
    if sigs.len() == 0 {
        Seq::new(64, |i: int| 0u8)
    } else if sigs[0].pub_key == key {
        sigs[0].vote_signature@
    } else {
        vote_of(sigs.skip(1), key)
    }
}

fn find_vote(sigs: &Vec<FatPointerSignature>, key: &Key) -> (r: Sig)
    ensures
        r@ == vote_of(sigs@, *key),
{
    let mut i: usize = 0;
    assert(sigs@.skip(0) =~= sigs@);
    while i < sigs.len()
        invariant
            i <= sigs@.len(),
            vote_of(sigs@, *key) == vote_of(sigs@.skip(i as int), *key),
        decreases sigs@.len() - i,
    {
        assert(sigs@.skip(i as int).skip(1) =~= sigs@.skip(i + 1));
        if bytes_eq(&sigs[i].pub_key, key) {
            return sigs[i].vote_signature;
        }
        i += 1;
    }
    let zeros = [0u8; 64];
    assert(zeros@ =~= Seq::new(64, |i: int| 0u8));
    zeros
}

fn votes_of(roster: &Vec<SortedRosterMember>, sigs: &Vec<FatPointerSignature>) -> (r: Vec<Sig>)
    ensures
        r@.len() == roster@.len(),
        forall|i: int|
            0 <= i < r@.len() ==> (#[trigger] r@[i])@ == vote_of(sigs@, roster@[i].pub_key),
{
    let mut votes: Vec<Sig> = Vec::new();
    let mut i: usize = 0;
    while i < roster.len()
        invariant
            i <= roster@.len(),
            votes@.len() == i,
            forall|k: int|
                0 <= k < i ==> (#[trigger] votes@[k])@ == vote_of(sigs@, roster@[k].pub_key),
        decreases roster@.len() - i,
    {
        votes.push(find_vote(sigs, &roster[i].pub_key));
        i += 1;
    }
    votes
}

/// Whether a round is the one in which a block was decided, at a height, by the finalizers before it.
pub open spec fn is_round_of(
    r: RoundData,
    d: Decision,
    height: u64,
    before: Seq<MemberModel>,
    schedule: Seq<HardFork>,
    finalized_bc_height: u64,
) -> bool {
    &&& r.height == height
    &&& r.round == d.round
    &&& is_roster_of(r.roster@, voters_at(before, schedule, height, finalized_bc_height))
    &&& r.votes@.len() == r.roster@.len()
    &&& forall|i: int|
        0 <= i < r.votes@.len() ==> (#[trigger] r.votes@[i])@ == vote_of(
            d.fat_pointer.signatures@,
            r.roster@[i].pub_key,
        )
    &&& r.precommits == d.fat_pointer.signatures@.len()
    &&& r.yes_precommits == d.fat_pointer.signatures@.len()
    &&& r.proposal@ == d.proposal@
    &&& r.proposal_id == d.fat_pointer.points_at
    &&& r.proposal_sigs@ == d.proposal_sigs@
    &&& r.vote_namespace@ == namespace(schedule, height)
}

/// The chain as far as it was replayed.
#[derive(Debug)]
pub struct Replay {
    pub rounds: Vec<RoundData>,
    pub bft_blocks: Vec<BftBlock>,
    pub fat_pointer_to_tip: FatPointerToBftBlock,
    pub roster: Vec<RosterMember>,
}

impl Replay {
    /// There is a round for each block.
    pub open spec fn wf(&self) -> bool {
        self.rounds@.len() == self.bft_blocks@.len()
    }

    /// The last block, if there is one, makes a block final.
    pub open spec fn ends_well(&self) -> bool {
        self.bft_blocks@.len() > 0 ==> self.bft_blocks@.last().headers@.len() > 0
    }

    pub fn new(roster: Vec<RosterMember>) -> (r: Replay)
        ensures
            r.wf(),
            r.rounds@.len() == 0,
            r.bft_blocks@.len() == 0,
            r.fat_pointer_to_tip@.is_null(),
            r.roster == roster,
    {
        Replay {
            rounds: Vec::new(),
            bft_blocks: Vec::new(),
            fat_pointer_to_tip: FatPointerToBftBlock::null(),
            roster,
        }
    }

    /// Takes one more decided block of the file. It must point at the one before it, otherwise it is not
    /// taken and nothing changes.
    pub fn take(
        &mut self,
        hardforks: &Vec<HardForkConfig>,
        d: Decision,
        finalized_bc_height: u64,
    ) -> (r: bool)
        requires
            old(self).wf(),
            total_stake(
                voters_at(
                    members(old(self).roster@),
                    forks(hardforks@),
                    old(self).rounds@.len() as u64,
                    finalized_bc_height,
                ),
            ) <= u64::MAX,
        ensures
            final(self).wf(),
            r == (d.block.previous_block_fat_ptr.points_at == old(
                self,
            ).fat_pointer_to_tip.points_at),
            !r ==> *final(self) == *old(self),
            r ==> {
                let n = old(self).rounds@.len();
                &&& final(self).rounds@.len() == n + 1
                &&& final(self).rounds@.take(n as int) == old(self).rounds@
                &&& is_round_of(
                    final(self).rounds@[n as int],
                    d,
                    n as u64,
                    members(old(self).roster@),
                    forks(hardforks@),
                    finalized_bc_height,
                )
                &&& final(self).bft_blocks@ == old(self).bft_blocks@.push(d.block)
                &&& final(self).fat_pointer_to_tip == d.fat_pointer
                &&& final(self).roster == d.roster
            },
    {
        if !bytes_eq(
            &d.block.previous_block_fat_ptr.points_at,
            &self.fat_pointer_to_tip.points_at,
        ) {
            return false;
        }
        let n: usize = self.rounds.len();
        assert(n == self.rounds@.len());
        let height: u64 = n as u64;
        let roster = roster_at(&self.roster, hardforks, height, finalized_bc_height);
        let votes = votes_of(&roster, &d.fat_pointer.signatures);
        let count: u64 = d.fat_pointer.signatures.len() as u64;
        let ghost before = self.rounds@;
        let Decision { block, fat_pointer, roster: next, proposal_sigs, proposal, round } = d;
        self.rounds.push(
            RoundData {
                height,
                round,
                roster,
                votes,
                precommits: count,
                yes_precommits: count,
                proposal,
                proposal_id: fat_pointer.points_at,
                proposal_sigs,
                vote_namespace: namespace_for_bft_height(hardforks, height),
            },
        );
        assert(self.rounds@.take(n as int) =~= before);
        self.bft_blocks.push(block);
        self.fat_pointer_to_tip = fat_pointer;
        self.roster = next;
        true
    }

    /// The hash of the block that the last decided block makes final.
    pub fn final_hash(&self) -> (r: Option<BlockHash>)
        requires
            self.ends_well(),
        ensures
            r == if self.bft_blocks@.len() > 0 {
                Some(self.bft_blocks@.last().headers@[0])
            } else {
                None
            },
    {
        let n: usize = self.bft_blocks.len();
        if n > 0 {
            Some(self.bft_blocks[n - 1].headers[0])
        } else {
            None
        }
    }

    /// Drops what was replayed where the block that it makes final is not known: a chain without its
    /// final block is worth nothing.
    pub fn settle(&mut self, final_height: Option<u32>, initial_roster: Vec<RosterMember>) -> (r: Option<
        (u32, BlockHash),
    >)
        requires
            old(self).wf(),
            old(self).ends_well(),
        ensures
            final(self).wf(),
            old(self).bft_blocks@.len() == 0 ==> r is None && *final(self) == *old(self),
            old(self).bft_blocks@.len() > 0 ==> match final_height {
                Some(h) => r == Some((h, old(self).bft_blocks@.last().headers@[0]))
                    && *final(self) == *old(self),
                None => {
                    &&& r is None
                    &&& final(self).rounds@.len() == 0
                    &&& final(self).bft_blocks@.len() == 0
                    &&& final(self).fat_pointer_to_tip@.is_null()
                    &&& final(self).roster == initial_roster
                },
            },
    {
        match self.final_hash() {
            None => None,
            Some(hash) => match final_height {
                Some(h) => Some((h, hash)),
                None => {
                    *self = Replay::new(initial_roster);
                    None
                },
            },
        }
    }
}

/// The vote of a finalizer is its own signature, and nobody else's: the first with its key, or zeros where
/// it did not sign.
pub proof fn a_vote_is_the_finalizers_own(sigs: Seq<FatPointerSignature>, key: Key, i: int)
    requires
        0 <= i <= sigs.len(),
        forall|k: int| 0 <= k < i ==> (#[trigger] sigs[k]).pub_key != key,
        i < sigs.len() ==> sigs[i].pub_key == key,
    ensures
        i < sigs.len() ==> vote_of(sigs, key) == sigs[i].vote_signature@,
        i == sigs.len() ==> vote_of(sigs, key) == Seq::new(64, |k: int| 0u8),
    decreases i,
{
    if i > 0 {
        let t = sigs.skip(1);
        assert(sigs[0].pub_key != key);
        assert forall|k: int| 0 <= k < i - 1 implies (#[trigger] t[k]).pub_key != key by {
            assert(t[k] == sigs[k + 1]);
        }
        a_vote_is_the_finalizers_own(t, key, i - 1);
    }
}

} // verus!
