//! The bonds that a wallet holds.
use crate::byte_map::{ByteMap, Key};
use crate::bytes::bytes_eq;
use crate::height::MEMPOOL;
use crate::staking::{StakingAction, StakingActionKind};
use crate::wallet_tx::WalletTx;
use vstd::prelude::*;

verus! {

/// A bond: its key, the finalizer that it is with, and what it is worth.
#[derive(Clone, Copy, Debug, PartialEq, Eq)]
pub struct Position {
    pub bond_key: Key,
    pub finalizer: [u8; 32],
    pub zats: u64,
}

/// The bonds of a wallet: those that are bonded, and those that are being or have been unbonded and
/// are not withdrawn.
#[verifier::ext_equal]
pub struct Holdings {
    pub bonded: Seq<Position>,
    pub unbonded: Seq<Position>,
}

/// The place of the first bond with a key.
pub open spec fn bond_place(s: Seq<Position>, key: Key) -> Option<int>
    decreases s.len(),
{
    if s.len() == 0 {
        None
    } else {
        match bond_place(s.drop_last(), key) {
            Some(i) => Some(i),
            None => if s.last().bond_key == key {
                Some(s.len() - 1)
            } else {
                None
            },
        }
    }
}

/// What an action makes of the bonds. A bond whose making was not seen is unbonded with an unknown
/// finalizer and an unknown worth.
pub open spec fn after_staking(h: Holdings, a: StakingAction) -> Holdings {
    let key = a.arg32_0;
    if a.kind == StakingActionKind::CreateNewDelegationBond {
        Holdings {
            bonded: h.bonded.push(
                Position { bond_key: key, finalizer: a.arg32_2, zats: a.amount_zats },
            ),
            ..h
        }
    } else if a.kind == StakingActionKind::RetargetDelegationBond {
        match bond_place(h.bonded, key) {
            Some(i) => Holdings {
                bonded: h.bonded.update(i, Position { finalizer: a.arg32_2, ..h.bonded[i] }),
                ..h
            },
            None => h,
        }
    } else if a.kind == StakingActionKind::BeginDelegationUnbonding {
        match bond_place(h.bonded, key) {
            Some(i) => Holdings {
                bonded: h.bonded.remove(i),
                unbonded: h.unbonded.push(Position { bond_key: key, ..h.bonded[i] }),
            },
            None => Holdings { unbonded: h.unbonded.push(unknown_bond(key)), ..h },
        }
    } else if a.kind == StakingActionKind::WithdrawDelegationBond {
        match bond_place(h.unbonded, key) {
            Some(i) => Holdings { unbonded: h.unbonded.remove(i), ..h },
            None => h,
        }
    } else {
        h
    }
}

/// A bond of which nothing but the key is known.
pub open spec fn unknown_bond(key: Key) -> Position {
    Position {
        bond_key: key,
        finalizer: crate::wire::array_of::<32>(Seq::new(32, |i: int| 0u8)),
        zats: u64::MAX,
    }
}

/// The bonds after some transactions. Those that are in no block of the best chain do not count.
pub open spec fn holdings(txs: Seq<WalletTx>) -> Holdings
    decreases txs.len(),
{
    if txs.len() == 0 {
        Holdings { bonded: seq![], unbonded: seq![] }
    } else {
        let before = holdings(txs.drop_last());
        let t = txs.last();
        match t.staking_action {
            Some(a) => if t.status is OnBc && t.h.in_block() {
                after_staking(before, a)
            } else {
                before
            },
            None => before,
        }
    }
}

fn find_bond(v: &Vec<Position>, key: &Key) -> (r: Option<usize>)
    ensures
        match bond_place(v@, *key) {
            Some(i) => r matches Some(k) && k == i && 0 <= i < v@.len(),
            None => r is None,
        },
{
    let mut i: usize = 0;
    while i < v.len()
        invariant
            i <= v@.len(),
            bond_place(v@.take(i as int), *key) is None,
        decreases v.len() - i,
    {
        proof {
            assert(v@.take(i + 1).drop_last() =~= v@.take(i as int));
        }
        if bytes_eq(&v[i].bond_key, key) {
            proof {
                lemma_bond_place(v@, *key, i as int + 1);
            }
            return Some(i);
        }
        i += 1;
    }
    assert(v@.take(i as int) =~= v@);
    None
}

proof fn lemma_bond_place(s: Seq<Position>, key: Key, n: int)
    requires
        0 <= n <= s.len(),
        bond_place(s.take(n), key) is Some,
    ensures
        bond_place(s, key) == bond_place(s.take(n), key),
    decreases s.len() - n,
{
    if n < s.len() {
        assert(s.take(n + 1).drop_last() =~= s.take(n));
        lemma_bond_place(s, key, n + 1);
    } else {
        assert(s.take(n) =~= s);
    }
}

/// The bonds of a wallet: those that are bonded, and those that are not any more.
pub fn stake_positions(txs: &Vec<WalletTx>) -> (r: (Vec<Position>, Vec<Position>))
    ensures
        r.0@ == holdings(txs@).bonded,
        r.1@ == holdings(txs@).unbonded,
{
    let mut bonded: Vec<Position> = Vec::new();
    let mut unbonded: Vec<Position> = Vec::new();
    let zeros: [u8; 32] = [0u8; 32];
    proof {
        assert(zeros@ =~= Seq::new(32, |i: int| 0u8));
        crate::wire::lemma_array_of(zeros);
    }
    let mut k: usize = 0;
    while k < txs.len()
        invariant
            k <= txs@.len(),
            zeros == crate::wire::array_of::<32>(Seq::new(32, |i: int| 0u8)),
            bonded@ == holdings(txs@.take(k as int)).bonded,
            unbonded@ == holdings(txs@.take(k as int)).unbonded,
        decreases txs.len() - k,
    {
        let t = &txs[k];
        proof {
            assert(txs@.take(k + 1).drop_last() =~= txs@.take(k as int));
        }
        if t.is_on_bc() && t.h.is_in_block() {
            if let Some(a) = &t.staking_action {
                match a.kind {
                    StakingActionKind::CreateNewDelegationBond => {
                        bonded.push(
                            Position {
                                bond_key: a.arg32_0,
                                finalizer: a.arg32_2,
                                zats: a.amount_zats,
                            },
                        );
                    },
                    StakingActionKind::RetargetDelegationBond => {
                        if let Some(i) = find_bond(&bonded, &a.arg32_0) {
                            let p = bonded[i];
                            bonded.set(i, Position { finalizer: a.arg32_2, ..p });
                        }
                    },
                    StakingActionKind::BeginDelegationUnbonding => {
                        if let Some(i) = find_bond(&bonded, &a.arg32_0) {
                            let p = bonded.remove(i);
                            unbonded.push(Position { bond_key: a.arg32_0, ..p });
                        } else {
                            unbonded.push(
                                Position { bond_key: a.arg32_0, finalizer: zeros, zats: u64::MAX },
                            );
                        }
                    },
                    StakingActionKind::WithdrawDelegationBond => {
                        if let Some(i) = find_bond(&unbonded, &a.arg32_0) {
                            let _ = unbonded.remove(i);
                        }
                    },
                    _ => {},
                }
            }
        }
        k += 1;
    }
    assert(txs@.take(k as int) =~= txs@);
    (bonded, unbonded)
}

/// A bond with the worth that was last seen of it, if one was.
pub open spec fn valued(p: Position, seen: Map<Key, u64>) -> Position {
    if seen.contains_key(p.bond_key) {
        Position { zats: seen[p.bond_key], ..p }
    } else {
        p
    }
}

pub open spec fn valued_all(s: Seq<Position>, seen: Map<Key, u64>) -> Seq<Position> {
    Seq::new(s.len(), |i: int| valued(s[i], seen))
}

/// What some bonds are worth together.
pub open spec fn worth(s: Seq<Position>) -> nat
    decreases s.len(),
{
    if s.len() == 0 {
        0
    } else {
        worth(s.drop_last()) + s.last().zats as nat
    }
}

/// A number, or the largest `u64` if it is larger.
pub open spec fn capped_u64(n: nat) -> u64 {
    if n > u64::MAX {
        u64::MAX
    } else {
        n as u64
    }
}

/// Puts the worth that was last seen to each bond. What they are worth together, as far as it can be
/// counted.
pub fn value_positions(v: &mut Vec<Position>, seen: &ByteMap<u64>) -> (r: u64)
    requires
        seen.wf(),
    ensures
        final(v)@ == valued_all(old(v)@, seen@),
        r == capped_u64(worth(final(v)@)),
{
    let mut sum: u64 = 0;
    let mut i: usize = 0;
    while i < v.len()
        invariant
            i <= v@.len() == old(v)@.len(),
            seen.wf(),
            forall|k: int| 0 <= k < i ==> #[trigger] v@[k] == valued(old(v)@[k], seen@),
            forall|k: int| i <= k < v@.len() ==> #[trigger] v@[k] == old(v)@[k],
            sum == capped_u64(worth(v@.take(i as int))),
        decreases v.len() - i,
    {
        let ghost before = v@;
        let p = v[i];
        let q = match seen.get(&p.bond_key) {
            Some(zats) => Position { zats, ..p },
            None => p,
        };
        v.set(i, q);
        sum = sum.saturating_add(q.zats);
        i += 1;
        proof {
            assert(v@.take(i as int).drop_last() =~= before.take(i - 1));
        }
    }
    assert(v@ =~= valued_all(old(v)@, seen@));
    assert(v@.take(i as int) =~= v@);
    sum
}

/// The keys of some bonds.
pub open spec fn bond_keys(s: Seq<Position>) -> Seq<Key> {
    Seq::new(s.len(), |i: int| s[i].bond_key)
}

/// The keys of all bonds: those that are bonded first.
pub fn bonds_to_watch(bonded: &Vec<Position>, unbonded: &Vec<Position>) -> (r: Vec<Key>)
    ensures
        r@ == bond_keys(bonded@) + bond_keys(unbonded@),
{
    let mut r: Vec<Key> = Vec::new();
    let mut i: usize = 0;
    while i < bonded.len()
        invariant
            i <= bonded@.len(),
            r@ == bond_keys(bonded@).take(i as int),
        decreases bonded.len() - i,
    {
        r.push(bonded[i].bond_key);
        i += 1;
        assert(r@ =~= bond_keys(bonded@).take(i as int));
    }
    let mut k: usize = 0;
    assert(r@ =~= bond_keys(bonded@) + bond_keys(unbonded@).take(0));
    while k < unbonded.len()
        invariant
            k <= unbonded@.len(),
            r@ == bond_keys(bonded@) + bond_keys(unbonded@).take(k as int),
        decreases unbonded.len() - k,
    {
        r.push(unbonded[k].bond_key);
        k += 1;
        assert(r@ =~= bond_keys(bonded@) + bond_keys(unbonded@).take(k as int));
    }
    assert(bond_keys(unbonded@).take(k as int) =~= bond_keys(unbonded@));
    r
}

/// A bond that was made and then unbonded is among the unbonded ones, with the finalizer and the worth
/// with which it was made, and not among the bonded ones.
pub proof fn unbonding_moves_the_bond(h: Holdings, make: StakingAction, unbond: StakingAction)
    requires
        make.kind == StakingActionKind::CreateNewDelegationBond,
        unbond.kind == StakingActionKind::BeginDelegationUnbonding,
        unbond.arg32_0 == make.arg32_0,
        bond_place(h.bonded, make.arg32_0) is None,
    ensures
        after_staking(after_staking(h, make), unbond) == (Holdings {
            bonded: h.bonded,
            unbonded: h.unbonded.push(
                Position {
                    bond_key: make.arg32_0,
                    finalizer: make.arg32_2,
                    zats: make.amount_zats,
                },
            ),
        }),
{
    let made = after_staking(h, make);
    assert(made.bonded.drop_last() =~= h.bonded);
    assert(bond_place(made.bonded, make.arg32_0) == Some(h.bonded.len() as int));
    assert(made.bonded.remove(h.bonded.len() as int) =~= h.bonded);
}

/// A bond that is withdrawn after it was unbonded is gone.
pub proof fn withdrawing_removes_the_bond(h: Holdings, unbond: StakingAction, withdraw: StakingAction)
    requires
        unbond.kind == StakingActionKind::BeginDelegationUnbonding,
        withdraw.kind == StakingActionKind::WithdrawDelegationBond,
        withdraw.arg32_0 == unbond.arg32_0,
        bond_place(h.unbonded, unbond.arg32_0) is None,
    ensures
        after_staking(after_staking(h, unbond), withdraw).unbonded == h.unbonded,
{
    let u = after_staking(h, unbond);
    assert(u.unbonded.drop_last() =~= h.unbonded);
    assert(bond_place(u.unbonded, unbond.arg32_0) == Some(h.unbonded.len() as int));
    assert(u.unbonded.remove(h.unbonded.len() as int) =~= h.unbonded);
}

/// The place of a bond is that of the first with its key, and there is none only where no bond has the
/// key.
proof fn lemma_first_bond(s: Seq<Position>, key: Key)
    ensures
        match bond_place(s, key) {
            Some(i) => 0 <= i < s.len() && s[i].bond_key == key && forall|k: int|
                0 <= k < i ==> (#[trigger] s[k]).bond_key != key,
            None => forall|k: int| 0 <= k < s.len() ==> (#[trigger] s[k]).bond_key != key,
        },
    decreases s.len(),
{
    if s.len() > 0 {
        lemma_first_bond(s.drop_last(), key);
        match bond_place(s.drop_last(), key) {
            Some(i) => {
                assert forall|k: int| 0 <= k < i implies (#[trigger] s[k]).bond_key != key by {
                    assert(s.drop_last()[k] == s[k]);
                }
            },
            None => {
                assert forall|k: int| 0 <= k < s.len() - 1 implies (#[trigger] s[k]).bond_key
                    != key by {
                    assert(s.drop_last()[k] == s[k]);
                }
            },
        }
    }
}

/// A transaction that is in no block of the best chain, or that carries no staking action, changes no
/// bond.
pub proof fn only_the_chain_moves_bonds(txs: Seq<WalletTx>, t: WalletTx)
    requires
        !(t.status is OnBc) || t.h.0 >= MEMPOOL || t.staking_action is None,
    ensures
        holdings(txs.push(t)) == holdings(txs),
{
    assert(txs.push(t).drop_last() =~= txs);
}

/// A new bond on the chain is the last of the bonded ones, with the key, the finalizer and the amount
/// that the action names, and every other bond is as before.
pub proof fn a_new_bond_is_bonded(txs: Seq<WalletTx>, t: WalletTx, a: StakingAction)
    requires
        t.status is OnBc && t.h.0 < MEMPOOL && t.staking_action == Some(a),
        a.kind == StakingActionKind::CreateNewDelegationBond,
    ensures
        ({
            let (before, after) = (holdings(txs), holdings(txs.push(t)));
            &&& after.bonded.len() == before.bonded.len() + 1
            &&& after.bonded.last().bond_key == a.arg32_0
            &&& after.bonded.last().finalizer == a.arg32_2
            &&& after.bonded.last().zats == a.amount_zats
            &&& forall|k: int|
                0 <= k < before.bonded.len() ==> #[trigger] after.bonded[k] == before.bonded[k]
            &&& after.unbonded == before.unbonded
        }),
{
    assert(txs.push(t).drop_last() =~= txs);
}

/// After a retarget action on the chain with the key of a bonded position, that position has the
/// finalizer that the action names: the first one, if several have the key. Its key and its worth and all
/// other positions are as before. An action with another key changes nothing.
pub proof fn retargeting_moves_the_bond(txs: Seq<WalletTx>, t: WalletTx, a: StakingAction, i: int)
    requires
        t.status is OnBc && t.h.0 < MEMPOOL && t.staking_action == Some(a),
        a.kind == StakingActionKind::RetargetDelegationBond,
    ensures
        ({
            let (before, after) = (holdings(txs), holdings(txs.push(t)));
            &&& after.unbonded == before.unbonded
            &&& after.bonded.len() == before.bonded.len()
            &&& forall|k: int|
                0 <= k < before.bonded.len() ==> (#[trigger] after.bonded[k]).bond_key
                    == before.bonded[k].bond_key && after.bonded[k].zats == before.bonded[k].zats
            &&& forall|k: int|
                0 <= k < before.bonded.len() && before.bonded[k].bond_key != a.arg32_0
                    ==> #[trigger] after.bonded[k] == before.bonded[k]
            &&& (0 <= i < before.bonded.len() && before.bonded[i].bond_key == a.arg32_0 && forall|
                k: int,
            |
                0 <= k < i ==> (#[trigger] before.bonded[k]).bond_key != a.arg32_0)
                ==> after.bonded[i].finalizer == a.arg32_2 && forall|k: int|
                0 <= k < before.bonded.len() && k != i ==> #[trigger] after.bonded[k]
                    == before.bonded[k]
            &&& (exists|k: int|
                0 <= k < before.bonded.len() && (#[trigger] before.bonded[k]).bond_key
                    == a.arg32_0) ==> exists|k: int|
                0 <= k < before.bonded.len() && (#[trigger] before.bonded[k]).bond_key == a.arg32_0
                    && after.bonded[k].finalizer == a.arg32_2
        }),
{
    assert(txs.push(t).drop_last() =~= txs);
    let before = holdings(txs);
    lemma_first_bond(before.bonded, a.arg32_0);
    match bond_place(before.bonded, a.arg32_0) {
        Some(n) => {
            assert(before.bonded[n].bond_key == a.arg32_0);
        },
        None => {},
    }
}

/// After the unbonding of a bonded position began on the chain, the position is not among the bonded
/// ones, and is the last of the unbonded ones, with its finalizer and its worth. Of a bond that is not
/// known nothing but the key is taken up. Every other position is as before.
pub proof fn a_bond_that_unbonds_is_not_bonded(
    txs: Seq<WalletTx>,
    t: WalletTx,
    a: StakingAction,
    i: int,
)
    requires
        t.status is OnBc && t.h.0 < MEMPOOL && t.staking_action == Some(a),
        a.kind == StakingActionKind::BeginDelegationUnbonding,
    ensures
        ({
            let (before, after) = (holdings(txs), holdings(txs.push(t)));
            &&& after.unbonded.len() == before.unbonded.len() + 1
            &&& after.unbonded.drop_last() == before.unbonded
            &&& after.unbonded.last().bond_key == a.arg32_0
            &&& (0 <= i < before.bonded.len() && before.bonded[i].bond_key == a.arg32_0 && forall|
                k: int,
            |
                0 <= k < i ==> (#[trigger] before.bonded[k]).bond_key != a.arg32_0)
                ==> after.unbonded.last() == before.bonded[i] && after.bonded
                == before.bonded.take(i) + before.bonded.skip(i + 1)
            &&& (forall|k: int|
                0 <= k < before.bonded.len() ==> (#[trigger] before.bonded[k]).bond_key
                    != a.arg32_0) ==> after.bonded == before.bonded && after.unbonded.last().zats
                == u64::MAX && after.unbonded.last().finalizer@ == Seq::new(32, |k: int| 0u8)
        }),
{
    assert(txs.push(t).drop_last() =~= txs);
    let before = holdings(txs);
    let after = holdings(txs.push(t));
    lemma_first_bond(before.bonded, a.arg32_0);
    let zeros = Seq::new(32, |k: int| 0u8);
    crate::wire::lemma_array_holds::<32>(zeros);
    assert(after.unbonded.drop_last() =~= before.unbonded);
    match bond_place(before.bonded, a.arg32_0) {
        Some(n) => {
            if 0 <= i < before.bonded.len() && before.bonded[i].bond_key == a.arg32_0 && forall|k: int|
                0 <= k < i ==> (#[trigger] before.bonded[k]).bond_key != a.arg32_0 {
                if n < i {
                    assert(before.bonded[n].bond_key == a.arg32_0);
                }
                if i < n {
                    assert(before.bonded[i].bond_key == a.arg32_0);
                }
                assert(before.bonded.remove(n) =~= before.bonded.take(i) + before.bonded.skip(
                    i + 1,
                ));
            }
        },
        None => {},
    }
}

/// After an unbonded position was withdrawn on the chain, it is gone, and every other position is as
/// before. A withdrawal of a bond that is not unbonded changes nothing.
pub proof fn a_withdrawn_bond_is_gone(txs: Seq<WalletTx>, t: WalletTx, a: StakingAction, i: int)
    requires
        t.status is OnBc && t.h.0 < MEMPOOL && t.staking_action == Some(a),
        a.kind == StakingActionKind::WithdrawDelegationBond,
    ensures
        ({
            let (before, after) = (holdings(txs), holdings(txs.push(t)));
            &&& after.bonded == before.bonded
            &&& (0 <= i < before.unbonded.len() && before.unbonded[i].bond_key == a.arg32_0
                && forall|k: int|
                0 <= k < i ==> (#[trigger] before.unbonded[k]).bond_key != a.arg32_0)
                ==> after.unbonded == before.unbonded.take(i) + before.unbonded.skip(i + 1)
            &&& (forall|k: int|
                0 <= k < before.unbonded.len() ==> (#[trigger] before.unbonded[k]).bond_key
                    != a.arg32_0) ==> after.unbonded == before.unbonded
        }),
{
    assert(txs.push(t).drop_last() =~= txs);
    let before = holdings(txs);
    lemma_first_bond(before.unbonded, a.arg32_0);
    match bond_place(before.unbonded, a.arg32_0) {
        Some(n) => {
            if 0 <= i < before.unbonded.len() && before.unbonded[i].bond_key == a.arg32_0
                && forall|k: int|
                0 <= k < i ==> (#[trigger] before.unbonded[k]).bond_key != a.arg32_0 {
                if n < i {
                    assert(before.unbonded[n].bond_key == a.arg32_0);
                }
                if i < n {
                    assert(before.unbonded[i].bond_key == a.arg32_0);
                }
                assert(before.unbonded.remove(n) =~= before.unbonded.take(i)
                    + before.unbonded.skip(i + 1));
            }
        },
        None => {},
    }
}

/// A staking action of another kind changes no bond.
pub proof fn other_actions_move_no_bond(txs: Seq<WalletTx>, t: WalletTx, a: StakingAction)
    requires
        t.staking_action == Some(a),
        a.kind == StakingActionKind::Null || a.kind == StakingActionKind::RegisterFinalizer || a.kind
            == StakingActionKind::ConvertFinalizerRewardToDelegationBond || a.kind
            == StakingActionKind::UpdateFinalizerKey,
    ensures
        holdings(txs.push(t)) == holdings(txs),
{
    assert(txs.push(t).drop_last() =~= txs);
}

/// To put the worth that was last seen to each bond changes neither its key nor its finalizer, and no
/// bond of which nothing was seen. What some bonds are worth together is the sum of what each is.
pub proof fn valuing_changes_worths_only(s: Seq<Position>, seen: Map<Key, u64>, i: int)
    requires
        0 <= i < s.len(),
    ensures
        valued_all(s, seen).len() == s.len(),
        valued_all(s, seen)[i].bond_key == s[i].bond_key,
        valued_all(s, seen)[i].finalizer == s[i].finalizer,
        seen.contains_key(s[i].bond_key) ==> valued_all(s, seen)[i].zats == seen[s[i].bond_key],
        !seen.contains_key(s[i].bond_key) ==> valued_all(s, seen)[i] == s[i],
        worth(s) == worth(s.take(i)) + s[i].zats + worth(s.skip(i + 1)),
    decreases s.len(),
{
    if i == s.len() - 1 {
        assert(s.take(i) =~= s.drop_last());
        assert(s.skip(i + 1) =~= seq![]);
    } else {
        let d = s.drop_last();
        valuing_changes_worths_only(d, seen, i);
        assert(d.take(i) =~= s.take(i));
        assert(s.skip(i + 1).drop_last() =~= d.skip(i + 1));
    }
}

} // verus!
