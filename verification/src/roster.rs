//! The finalizers as the network lists them.
use crate::byte_map::Key;
use crate::network::NetworkType;
use crate::notes::TxId;
use crate::wire::{
    array_then, items_round_trip, items_then, list_then, models, parse_array, parse_items, parse_u64,
    primitives_round_trip, take_array, take_items, take_u64, u64_then, Fault, Parsed, Taken, Wire,
};
use vstd::prelude::*;

verus! {

/// A finalizer as the wallet shows it: its key, its voting power, and the stakes behind it.
#[derive(Debug)]
pub struct WalletRosterMember {
    pub pub_key: [u8; 32],
    pub voting_power: u64,
    pub txids: Vec<(TxId, u64)>,
}

/// What a finalizer is.
#[verifier::ext_equal]
pub struct MemberModel {
    pub pub_key: [u8; 32],
    pub voting_power: u64,
    pub txids: Seq<(TxId, u64)>,
}

impl View for WalletRosterMember {
    type V = MemberModel;

    open spec fn view(&self) -> MemberModel {
        MemberModel {
            pub_key: self.pub_key,
            voting_power: self.voting_power,
            txids: self.txids@,
        }
    }
}

/// What some finalizers are.
pub open spec fn members(s: Seq<WalletRosterMember>) -> Seq<MemberModel> {
    Seq::new(s.len(), |i: int| s[i]@)
}

/// What comes of reading some stakes.
pub open spec fn parse_stakes(n: nat, s: Seq<u8>) -> Parsed<Seq<(TxId, u64)>> {
    parse_items::<(Key, u64)>(NetworkType::Test, n, s)
}

/// What comes of reading a finalizer.
pub open spec fn parse_member(s: Seq<u8>) -> Parsed<MemberModel> {
    match parse_array::<32>(s) {
        Err(f) => Err(f),
        Ok((pub_key, s)) => match parse_u64(s) {
            Err(f) => Err(f),
            Ok((voting_power, s)) => match parse_u64(s) {
                Err(f) => Err(f),
                Ok((n, s)) => match parse_stakes(n as nat, s) {
                    Err(f) => Err(f),
                    Ok((txids, s)) => Ok((MemberModel { pub_key, voting_power, txids }, s)),
                },
            },
        },
    }
}

/// The finalizers in some bytes, one after the other to the end; none if something is cut short.
pub open spec fn parse_members(s: Seq<u8>) -> Option<Seq<MemberModel>>
    decreases s.len(),
{
    if s.len() == 0 {
        Some(seq![])
    } else {
        match parse_member(s) {
            Err(_) => None,
            Ok((m, rest)) => if rest.len() >= s.len() {
                None
            } else {
                match parse_members(rest) {
                    None => None,
                    Some(ms) => Some(seq![m] + ms),
                }
            },
        }
    }
}

/// Reading stakes leaves no more than there was.
proof fn lemma_stakes_take(n: nat, s: Seq<u8>)
    ensures
        parse_stakes(n, s) matches Ok((_, rest)) ==> rest.len() <= s.len(),
    decreases n,
{
    reveal(parse_array);
    reveal(parse_u64);
    if n > 0 {
        if let Ok((_, t)) = <(Key, u64) as Wire>::parse(NetworkType::Test, s) {
            assert(t.len() <= s.len());
            lemma_stakes_take((n - 1) as nat, t);
        }
    }
}

/// Reads a finalizer.
pub fn take_member<'a>(s: &'a [u8]) -> (res: Taken<'a, WalletRosterMember>)
    ensures
        match parse_member(s@) {
            Ok((m, rest)) => res matches Ok((w, r)) && w@ == m && r@ == rest && rest.len()
                < s@.len(),
            Err(f) => res matches Err(e) && e@ == f,
        },
{
    let ghost all = s@;
    let (pub_key, s) = take_array::<32>(s)?;
    let (voting_power, s) = take_u64(s)?;
    let (n, s) = take_u64(s)?;
    proof {
        reveal(parse_array);
        reveal(parse_u64);
        assert(s@.len() < all.len());
        lemma_stakes_take(n as nat, s@);
    }
    let (txids, s) = take_items::<(Key, u64)>(NetworkType::Test, n, s)?;
    assert(models(txids@) =~= txids@);
    Ok((WalletRosterMember { pub_key, voting_power, txids }, s))
}

/// Reads the finalizers that the network lists. An empty list, and one that is cut short, is none.
pub fn read_roster(bytes: &[u8]) -> (r: Option<Vec<WalletRosterMember>>)
    ensures
        match parse_members(bytes@) {
            Some(ms) if bytes@.len() > 0 => r matches Some(v) && members(v@) == ms,
            _ => r is None,
        },
{
    if bytes.len() == 0 {
        return None;
    }
    let mut v: Vec<WalletRosterMember> = Vec::new();
    let mut left: &[u8] = bytes;
    proof {
        assert(members(v@) =~= seq![]);
        if let Some(ms) = parse_members(bytes@) {
            assert(seq![] + ms =~= ms);
        }
    }
    while left.len() > 0
        invariant
            match parse_members(left@) {
                Some(ms) => parse_members(bytes@) == Some(members(v@) + ms),
                None => parse_members(bytes@) is None,
            },
        decreases left@.len(),
    {
        let ghost done = members(v@);
        let (m, rest) = match take_member(left) {
            Ok(x) => x,
            Err(_) => {
                return None;
            },
        };
        let ghost model = m@;
        v.push(m);
        left = rest;
        proof {
            assert(members(v@) =~= done.push(model));
            if let Some(ms) = parse_members(left@) {
                assert(done + (seq![model] + ms) =~= done.push(model) + ms);
            }
        }
    }
    assert(members(v@) + Seq::<MemberModel>::empty() =~= members(v@));
    Some(v)
}

/// The bytes of a finalizer: its key, its voting power, the number of its stakes, and each of them by its
/// transaction and its amount, followed by `rest`.
pub open spec fn member_then(m: MemberModel, rest: Seq<u8>) -> Seq<u8> {
    array_then::<32>(m.pub_key, u64_then(m.voting_power, list_then::<(Key, u64)>(m.txids, rest)))
}

/// The bytes of some finalizers, one after the other.
pub open spec fn members_bytes(ms: Seq<MemberModel>) -> Seq<u8>
    decreases ms.len(),
{
    if ms.len() == 0 {
        seq![]
    } else {
        member_then(ms[0], members_bytes(ms.skip(1)))
    }
}

/// A list of finalizers is read as it was written.
pub proof fn a_roster_is_read_as_it_was_written(ms: Seq<MemberModel>)
    requires
        forall|i: int| 0 <= i < ms.len() ==> (#[trigger] ms[i]).txids.len() <= u64::MAX,
    ensures
        parse_members(members_bytes(ms)) == Some(ms),
    decreases ms.len(),
{
    broadcast use primitives_round_trip;

    if ms.len() > 0 {
        let rest = ms.skip(1);
        assert forall|i: int| 0 <= i < rest.len() implies (#[trigger] rest[i]).txids.len() <= u64::MAX by {
            assert(rest[i] == ms[i + 1]);
        }
        a_roster_is_read_as_it_was_written(rest);
        let m = ms[0];
        let tail = members_bytes(rest);
        let s = members_bytes(ms);
        let items = items_then::<(Key, u64)>(m.txids, tail);
        items_round_trip::<(Key, u64)>(NetworkType::Test, m.txids, tail);
        lemma_stakes_take(m.txids.len(), items);
        reveal(array_then);
        reveal(u64_then);
        assert(s.len() > tail.len());
        assert(parse_member(s) == Ok::<(MemberModel, Seq<u8>), Fault>((m, tail)));
        assert(seq![m] + rest =~= ms);
    } else {
        assert(ms =~= seq![]);
    }
}

} // verus!
