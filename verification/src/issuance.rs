//! What was issued to the holder of a key.
use crate::addresses::{addrs_from_ufvk, first_address, p2pkh_in, ufvk_p2pkh};
use crate::byte_map::{ByteMap, Key};
use crate::network::NetworkType;
use crate::notes::TransparentAddress;
use crate::orchard_scan::{orchard_key_in, PreparedKeys};
use crate::text::{append_decimal, decimal, texts};
use vstd::prelude::*;

verus! {

/// A bond that was found: its key, and what it was worth at first.
#[derive(Clone, Copy, Debug, PartialEq, Eq)]
pub struct FoundBond {
    pub pk: Key,
    pub initial_val: u64,
}

/// What some bonds have gained, where each is worth something in the end.
pub open spec fn gained(bonds: Seq<FoundBond>, worth: Map<Key, u64>) -> int
    decreases bonds.len(),
{
    if bonds.len() == 0 {
        0
    } else {
        gained(bonds.drop_last(), worth) + worth[bonds.last().pk] - bonds.last().initial_val
    }
}

/// Whether a bond is worth something in the end, and no less than at first.
pub open spec fn grows(b: FoundBond, worth: Map<Key, u64>) -> bool {
    worth.contains_key(b.pk) ==> worth[b.pk] >= b.initial_val
}

/// The first bond of which nothing is known in the end.
pub open spec fn is_first_lost(bonds: Seq<FoundBond>, worth: Map<Key, u64>, i: int) -> bool {
    &&& 0 <= i < bonds.len()
    &&& !worth.contains_key(bonds[i].pk)
    &&& forall|k: int| 0 <= k < i ==> worth.contains_key((#[trigger] bonds[k]).pk)
}

/// What some bonds have gained, or the first of which nothing is known in the end.
pub fn bonds_value(bonds: &Vec<FoundBond>, worth: &ByteMap<u64>) -> (r: Result<u64, usize>)
    requires
        worth.wf(),
        forall|i: int| 0 <= i < bonds@.len() ==> grows(#[trigger] bonds@[i], worth@),
        forall|n: int|
            0 <= n <= bonds@.len() ==> #[trigger] gained(bonds@.take(n), worth@) <= u64::MAX,
    ensures
        match r {
            Ok(v) => v == gained(bonds@, worth@) && forall|i: int|
                0 <= i < bonds@.len() ==> worth@.contains_key((#[trigger] bonds@[i]).pk),
            Err(i) => is_first_lost(bonds@, worth@, i as int),
        },
{
    let mut total: u64 = 0;
    let mut i: usize = 0;
    assert(bonds@.take(0) =~= seq![]);
    while i < bonds.len()
        invariant
            i <= bonds@.len(),
            worth.wf(),
            forall|k: int| 0 <= k < bonds@.len() ==> grows(#[trigger] bonds@[k], worth@),
            forall|n: int|
                0 <= n <= bonds@.len() ==> #[trigger] gained(bonds@.take(n), worth@) <= u64::MAX,
            forall|k: int| 0 <= k < i ==> worth@.contains_key((#[trigger] bonds@[k]).pk),
            total == gained(bonds@.take(i as int), worth@),
        decreases bonds@.len() - i,
    {
        let b = bonds[i];
        match worth.get(&b.pk) {
            None => {
                return Err(i);
            },
            Some(v) => {
                proof {
                    assert(grows(bonds@[i as int], worth@));
                    assert(bonds@.take(i + 1).drop_last() =~= bonds@.take(i as int));
                    assert(gained(bonds@.take(i + 1), worth@) <= u64::MAX);
                }
                total = total + (v - b.initial_val);
            },
        }
        i += 1;
    }
    assert(bonds@.take(i as int) =~= bonds@);
    Ok(total)
}

/// What was found for a key.
#[derive(Debug)]
pub struct ScanInfo {
    pub ufvk: String,
    /// What it got as a miner.
    pub coinbases_value: u64,
    pub bonds: Vec<FoundBond>,
    /// What its bonds have gained.
    pub bonds_value: u64,
    pub total_value: u64,
}

/// Completes what was found for a key with what its bonds have gained. The first bond of which nothing
/// is known in the end, if there is one.
pub fn complete_scan(info: &mut ScanInfo, worth: &ByteMap<u64>) -> (r: Result<(), usize>)
    requires
        worth.wf(),
        forall|i: int|
            0 <= i < old(info).bonds@.len() ==> grows(#[trigger] old(info).bonds@[i], worth@),
        forall|n: int|
            0 <= n <= old(info).bonds@.len() ==> old(info).coinbases_value + #[trigger] gained(
                old(info).bonds@.take(n),
                worth@,
            ) <= u64::MAX,
    ensures
        match r {
            Ok(()) => {
                &&& forall|i: int|
                    0 <= i < old(info).bonds@.len() ==> worth@.contains_key(
                        (#[trigger] old(info).bonds@[i]).pk,
                    )
                &&& *final(info) == (ScanInfo {
                    bonds_value: gained(old(info).bonds@, worth@) as u64,
                    total_value: (old(info).coinbases_value + gained(
                        old(info).bonds@,
                        worth@,
                    )) as u64,
                    ..*old(info)
                })
            },
            Err(i) => is_first_lost(old(info).bonds@, worth@, i as int) && *final(info) == *old(
                info,
            ),
        },
{
    assert(info.bonds@.take(info.bonds@.len() as int) =~= info.bonds@);
    assert forall|n: int| 0 <= n <= info.bonds@.len() implies #[trigger] gained(
        info.bonds@.take(n),
        worth@,
    ) <= u64::MAX by {
        assert(info.coinbases_value + gained(info.bonds@.take(n), worth@) <= u64::MAX);
    }
    match bonds_value(&info.bonds, worth) {
        Ok(v) => {
            info.bonds_value = v;
            info.total_value = info.coinbases_value + v;
            Ok(())
        },
        Err(i) => Err(i),
    }
}

/// Why what was issued to a key cannot be found out: it has no orchard key, or no address.
pub open spec fn key_refusal(net: NetworkType, ufvk: Seq<char>) -> Option<Seq<char>> {
    let main = net == NetworkType::Main;
    if orchard_key_in(main, ufvk) is None {
        Some("could not create orchard ovks"@)
    } else if first_address(main, ufvk) is None || p2pkh_in(main, ufvk, 0) is None {
        Some("Could not get an address"@)
    } else {
        None
    }
}

/// Whether nothing was found for a key yet, and its first address is a given one.
pub open spec fn is_start_for(
    start: (ScanInfo, TransparentAddress),
    net: NetworkType,
    ufvk: Seq<char>,
) -> bool {
    let (info, t_addr) = start;
    &&& key_refusal(net, ufvk) is None
    &&& info.ufvk@ == ufvk
    &&& info.coinbases_value == 0 && info.bonds_value == 0 && info.total_value == 0
    &&& info.bonds@.len() == 0
    &&& Some(t_addr) == ufvk_p2pkh(net, ufvk, 0)
}

/// The first key of which nothing can be found out.
pub open spec fn is_first_refused(net: NetworkType, ufvks: Seq<Seq<char>>, i: int) -> bool {
    &&& 0 <= i < ufvks.len()
    &&& key_refusal(net, ufvks[i]) is Some
    &&& forall|k: int| 0 <= k < i ==> key_refusal(net, #[trigger] ufvks[k]) is None
}

/// Why a block cannot be looked through: there is none at the height, or it holds nothing.
pub open spec fn block_refused(height: u32, txs: Option<usize>) -> Option<Seq<char>> {
    match txs {
        None => Some("failed to get block at height "@ + decimal(height as nat)),
        Some(n) => if n == 0 {
            Some("block at height "@ + decimal(height as nat) + " had 0 transactions"@)
        } else {
            None
        },
    }
}

/// Why the block at a height cannot be looked through, of which is known how many transactions it
/// holds, if there is one.
pub fn block_refusal(height: u32, txs: Option<usize>) -> (r: Option<String>)
    ensures
        match r {
            Some(e) => block_refused(height, txs) == Some(e@),
            None => block_refused(height, txs) is None,
        },
{
    match txs {
        None => {
            let mut out: String = "failed to get block at height ".to_owned();
            append_decimal(&mut out, height as u64);
            Some(out)
        },
        Some(n) => {
            if n > 0 {
                return None;
            }
            let mut out: String = "block at height ".to_owned();
            append_decimal(&mut out, height as u64);
            out.append(" had 0 transactions");
            Some(out)
        },
    }
}

/// Begins to find out what was issued to some keys: for each there is nothing yet, and the first
/// address. Where one key does not do, why the first such does not.
pub fn begin_scan(net: NetworkType, ufvks: &Vec<String>) -> (r: Result<
    Vec<(ScanInfo, TransparentAddress)>,
    &'static str,
>)
    ensures
        match r {
            Ok(v) => v@.len() == ufvks@.len() && forall|i: int|
                0 <= i < v@.len() ==> #[trigger] is_start_for(v@[i], net, ufvks@[i]@),
            Err(e) => exists|i: int|
                #[trigger] is_first_refused(net, texts(ufvks@), i) && key_refusal(net, ufvks@[i]@)
                    == Some(e@),
        },
{
    let mut v: Vec<(ScanInfo, TransparentAddress)> = Vec::new();
    let mut i: usize = 0;
    while i < ufvks.len()
        invariant
            i <= ufvks@.len(),
            v@.len() == i,
            forall|k: int|
                0 <= k < i ==> #[trigger] is_start_for(v@[k], net, ufvks@[k]@),
        decreases ufvks@.len() - i,
    {
        let ufvk = ufvks[i].as_str();
        proof {
            assert forall|k: int| 0 <= k < i implies key_refusal(
                net,
                #[trigger] texts(ufvks@)[k],
            ) is None by {
                assert(is_start_for(v@[k], net, ufvks@[k]@));
            }
        }
        let external = PreparedKeys::from_ufvk_all(net, ufvk);
        let internal = PreparedKeys::from_ufvk_all_internal(net, ufvk);
        if !external.finds_sent || !internal.finds_sent {
            assert(is_first_refused(net, texts(ufvks@), i as int));
            return Err("could not create orchard ovks");
        }
        match addrs_from_ufvk(net, ufvk, 0) {
            None => {
                assert(is_first_refused(net, texts(ufvks@), i as int));
                return Err("Could not get an address");
            },
            Some((t_addr, _, _)) => {
                let info = ScanInfo {
                    ufvk: ufvk.to_owned(),
                    coinbases_value: 0,
                    bonds: Vec::new(),
                    bonds_value: 0,
                    total_value: 0,
                };
                let ghost before = v@;
                v.push((info, t_addr));
                proof {
                    assert(is_start_for(v@[i as int], net, ufvks@[i as int]@));
                    assert forall|k: int| 0 <= k < i implies #[trigger] is_start_for(
                        v@[k],
                        net,
                        ufvks@[k]@,
                    ) by {
                        assert(is_start_for(before[k], net, ufvks@[k]@));
                    }
                }
            },
        }
        i += 1;
    }
    Ok(v)
}

/// What bonds have gained is what they are worth in the end, less what they were worth at first: one more
/// bond adds its own gain, wherever it stands.
pub proof fn every_bond_adds_its_gain(bonds: Seq<FoundBond>, worth: Map<Key, u64>, i: int)
    requires
        0 <= i < bonds.len(),
    ensures
        gained(bonds, worth) == gained(bonds.take(i), worth) + worth[bonds[i].pk]
            - bonds[i].initial_val + gained(bonds.skip(i + 1), worth),
    decreases bonds.len(),
{
    if i == bonds.len() - 1 {
        assert(bonds.take(i) =~= bonds.drop_last());
        assert(bonds.skip(i + 1) =~= seq![]);
    } else {
        let d = bonds.drop_last();
        every_bond_adds_its_gain(d, worth, i);
        assert(d.take(i) =~= bonds.take(i));
        assert(bonds.skip(i + 1).drop_last() =~= d.skip(i + 1));
    }
}

} // verus!
