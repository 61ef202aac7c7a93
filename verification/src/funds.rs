//! What a wallet has.
use crate::accounts::{AccountModel, ManualAccount};
use crate::bonds::capped_u64;
use crate::height::{BlockHeight, MEMPOOL};
use crate::notes::{OrchardNote, Txo};
use vstd::prelude::*;

verus! {

/// What an account has: in transparent outputs, in notes that are too new to be spent, and in notes
/// that can be spent.
#[derive(Clone, Copy, Debug, PartialEq, Eq, Structural)]
pub struct Funds {
    pub unshielded: u64,
    pub shielded_pending: u64,
    pub shielded_spendable: u64,
}

pub open spec fn txo_sum(s: Seq<Txo>) -> nat
    decreases s.len(),
{
    if s.len() == 0 {
        0
    } else {
        txo_sum(s.drop_last()) + s.last().value.zats as nat
    }
}

/// Whether a note is old enough to be spent: it came more than five blocks below the tip.
pub open spec fn is_spendable(n: OrchardNote, tip: BlockHeight) -> bool {
    n.recv_h.0 < tip.minus(5).0
}

/// The sum of the notes that can be spent, or of those that cannot yet.
pub open spec fn note_sum(s: Seq<OrchardNote>, tip: BlockHeight, spendable: bool) -> nat
    decreases s.len(),
{
    if s.len() == 0 {
        0
    } else {
        note_sum(s.drop_last(), tip, spendable) + if is_spendable(s.last(), tip) == spendable {
            s.last().note.value as nat
        } else {
            0
        }
    }
}

/// What an account has, as far as it can be counted.
pub open spec fn funds_of(a: AccountModel, tip: BlockHeight) -> Funds {
    Funds {
        unshielded: capped_u64(txo_sum(a.utxos)),
        shielded_pending: capped_u64(note_sum(a.unspent_orchard_notes, tip, false)),
        shielded_spendable: capped_u64(note_sum(a.unspent_orchard_notes, tip, true)),
    }
}

/// What an account has at a tip.
pub fn account_funds(a: &ManualAccount, tip: BlockHeight) -> (r: Funds)
    ensures
        r == funds_of(a@, tip),
{
    let mut unshielded: u64 = 0;
    let mut i: usize = 0;
    while i < a.utxos.len()
        invariant
            i <= a.utxos@.len(),
            unshielded == capped_u64(txo_sum(a.utxos@.take(i as int))),
        decreases a.utxos.len() - i,
    {
        unshielded = unshielded.saturating_add(a.utxos[i].value.into_u64());
        i += 1;
        assert(a.utxos@.take(i as int).drop_last() =~= a.utxos@.take(i - 1));
    }
    assert(a.utxos@.take(i as int) =~= a.utxos@);
    let notes = &a.unspent_orchard_notes;
    let limit = tip.sat_sub(5);
    let mut pending: u64 = 0;
    let mut spendable: u64 = 0;
    let mut k: usize = 0;
    while k < notes.len()
        invariant
            k <= notes@.len(),
            limit == tip.minus(5),
            pending == capped_u64(note_sum(notes@.take(k as int), tip, false)),
            spendable == capped_u64(note_sum(notes@.take(k as int), tip, true)),
        decreases notes.len() - k,
    {
        let v: u64 = notes[k].note.value;
        if notes[k].recv_h.0 < limit.0 {
            spendable = spendable.saturating_add(v);
        } else {
            pending = pending.saturating_add(v);
        }
        k += 1;
        assert(notes@.take(k as int).drop_last() =~= notes@.take(k - 1));
    }
    assert(notes@.take(k as int) =~= notes@);
    Funds { unshielded, shielded_pending: pending, shielded_spendable: spendable }
}

pub open spec fn all_notes(s: Seq<OrchardNote>) -> nat
    decreases s.len(),
{
    if s.len() == 0 {
        0
    } else {
        all_notes(s.drop_last()) + s.last().note.value as nat
    }
}

/// Every note counts once: as spendable or as pending.
pub proof fn every_note_counts_once(s: Seq<OrchardNote>, tip: BlockHeight)
    ensures
        note_sum(s, tip, true) + note_sum(s, tip, false) == all_notes(s),
    decreases s.len(),
{
    if s.len() > 0 {
        every_note_counts_once(s.drop_last(), tip);
    }
}

/// What an account has in transparent outputs is the sum of what each unspent one is worth: one more adds
/// what it is worth.
pub proof fn every_output_counts_once(s: Seq<Txo>, i: int)
    requires
        0 <= i < s.len(),
    ensures
        txo_sum(s) == txo_sum(s.take(i)) + s[i].value.zats + txo_sum(s.skip(i + 1)),
    decreases s.len(),
{
    if i == s.len() - 1 {
        assert(s.take(i) =~= s.drop_last());
        assert(s.skip(i + 1) =~= seq![]);
    } else {
        let d = s.drop_last();
        every_output_counts_once(d, i);
        assert(d.take(i) =~= s.take(i));
        assert(s.skip(i + 1).drop_last() =~= d.skip(i + 1));
    }
}

/// A note counts with its whole amount: as spendable where it came more than five blocks below the tip,
/// and as pending otherwise.
pub proof fn a_note_counts_by_its_age(s: Seq<OrchardNote>, tip: BlockHeight, n: OrchardNote)
    requires
        tip.0 < MEMPOOL,
    ensures
        n.recv_h.0 + 5 < tip.0 ==> note_sum(s.push(n), tip, true) == note_sum(s, tip, true)
            + n.note.value && note_sum(s.push(n), tip, false) == note_sum(s, tip, false),
        n.recv_h.0 + 5 >= tip.0 ==> note_sum(s.push(n), tip, false) == note_sum(s, tip, false)
            + n.note.value && note_sum(s.push(n), tip, true) == note_sum(s, tip, true),
        all_notes(s.push(n)) == all_notes(s) + n.note.value,
{
    assert(s.push(n).drop_last() =~= s);
}

/// As the tip grows, what was spendable stays so: no part of it falls back to pending.
pub proof fn what_is_spendable_stays_so(s: Seq<OrchardNote>, low: BlockHeight, high: BlockHeight)
    requires
        low.0 <= high.0 < MEMPOOL,
    ensures
        note_sum(s, low, true) <= note_sum(s, high, true),
        note_sum(s, low, false) >= note_sum(s, high, false),
    decreases s.len(),
{
    if s.len() > 0 {
        what_is_spendable_stays_so(s.drop_last(), low, high);
    }
}

/// What an account has is counted from what is unspent, and where it can be counted nothing is lost: the
/// three amounts together are what its unspent outputs and notes are worth.
pub proof fn funds_are_what_is_unspent(a: AccountModel, tip: BlockHeight)
    ensures
        ({
            let f = funds_of(a, tip);
            &&& txo_sum(a.utxos) <= u64::MAX ==> f.unshielded == txo_sum(a.utxos)
            &&& all_notes(a.unspent_orchard_notes) <= u64::MAX ==> f.shielded_pending
                + f.shielded_spendable == all_notes(a.unspent_orchard_notes)
            &&& f.shielded_spendable <= note_sum(a.unspent_orchard_notes, tip, true)
        }),
{
    every_note_counts_once(a.unspent_orchard_notes, tip);
}

} // verus!
