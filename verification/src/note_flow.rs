//! How notes come and go when the actions of a transaction are read.
use crate::accounts::AccountModel;
use crate::blocks::{action_count, scan_block, scan_txs, CompactBlock};
use crate::books::place_from;
use crate::compact::{
    compact_entry, compact_id, compact_read, compact_sight, compact_start, compact_steps,
    compact_tx_read, plus_or_same, CompactState, CompactTx, ScanState,
};
use crate::full_tx::{
    action_steps, full_entry, full_read, full_sight, input_steps, output_steps, transparent_read,
    FullTx, ShieldedState, TransparentState, TxOut,
};
use crate::height::BlockHeight;
use crate::listing::{
    find_at, find_id, inserting_adds_one_item, lemma_find_at, lemma_find_id, place, with_item,
    Listed, Order,
};
use crate::network::NetworkType;
use crate::notes::{Note, OrchardNote, OutPoint, TxId, UNKNOWN_TREE_POSITION};
use crate::orchard_scan::{
    compact_note, compact_of, compact_ok, nullifier_of, received_note, sent_note,
    CompactOrchardAction, FoundNote, OrchardAction, PreparedKeys, Scope,
};
use crate::propose::notes_differ;
use crate::scan::{
    action_part, after_action, after_receive, after_sighting, after_spend, known_height, new_note,
    received_nf, sight_ok, spent_amount, ActionSight,
};
use crate::tree::{leaf_count, tree_with_leaf};
use crate::tx_part::{TxParts, WalletTxPart};
use crate::wallet_tx::{is_blank_memo, no_memo, TxStatus};
use crate::wire::{array_of, lemma_array_holds};
use crate::zats::MAX_MONEY;
use vstd::prelude::*;

verus! {

/// Whether no note of a list has a nullifier.
pub open spec fn none_with(s: Seq<OrchardNote>, nf: [u8; 32]) -> bool {
    forall|i: int| 0 <= i < s.len() ==> (#[trigger] s[i]).nf != nf
}

/// Whether a list holds a note, and no other with its nullifier.
pub open spec fn holds_alone(s: Seq<OrchardNote>, n: OrchardNote) -> bool {
    exists|i: int|
        0 <= i < s.len() && #[trigger] s[i] == n && forall|k: int|
            0 <= k < s.len() && k != i ==> (#[trigger] s[k]).nf != n.nf
}

/// Where no two notes of a list have one nullifier, the list holds each of its notes alone.
pub proof fn lemma_alone(s: Seq<OrchardNote>, n: OrchardNote)
    requires
        notes_differ(s),
        s.contains(n),
    ensures
        holds_alone(s, n),
{
    let i = choose|i: int| 0 <= i < s.len() && s[i] == n;
    assert forall|k: int| 0 <= k < s.len() && k != i implies (#[trigger] s[k]).nf != n.nf by {
        if k < i {
            assert(s[k].nf != s[i].nf);
        } else {
            assert(s[i].nf != s[k].nf);
        }
    }
    assert(s[i] == n);
}

proof fn lemma_removed(s: Seq<OrchardNote>, i: int)
    requires
        0 <= i < s.len(),
    ensures
        forall|nf: [u8; 32]| #[trigger] none_with(s, nf) ==> none_with(s.remove(i), nf),
        forall|n: OrchardNote|
            #[trigger] holds_alone(s, n) && s[i].nf != n.nf ==> holds_alone(s.remove(i), n),
        forall|n: OrchardNote|
            #[trigger] holds_alone(s, n) && s[i].nf == n.nf ==> s[i] == n && none_with(
                s.remove(i),
                n.nf,
            ),
        forall|n: OrchardNote| #[trigger] s.contains(n) && s[i] != n ==> s.remove(i).contains(n),
{
    let t = s.remove(i);
    assert forall|k: int| 0 <= k < t.len() implies #[trigger] t[k] == s[if k < i { k } else { k + 1 }] by {}
    assert forall|n: OrchardNote| #[trigger] holds_alone(s, n) && s[i].nf != n.nf implies holds_alone(
        t,
        n,
    ) by {
        let p = choose|p: int|
            0 <= p < s.len() && #[trigger] s[p] == n && forall|k: int|
                0 <= k < s.len() && k != p ==> (#[trigger] s[k]).nf != n.nf;
        let q = if p < i { p } else { p - 1 };
        assert(t[q] == n);
    }
    assert forall|n: OrchardNote| #[trigger] s.contains(n) && s[i] != n implies t.contains(n) by {
        let p = choose|p: int| 0 <= p < s.len() && s[p] == n;
        let q = if p < i { p } else { p - 1 };
        assert(t[q] == n);
    }
}

proof fn lemma_inserted(s: Seq<OrchardNote>, o: Order, x: OrchardNote)
    ensures
        forall|nf: [u8; 32]|
            #[trigger] none_with(s, nf) && x.nf != nf ==> none_with(with_item(s, o, x), nf),
        forall|n: OrchardNote|
            #[trigger] holds_alone(s, n) && x.nf != n.nf ==> holds_alone(with_item(s, o, x), n),
        none_with(s, x.nf) ==> holds_alone(with_item(s, o, x), x),
        forall|n: OrchardNote| #[trigger] s.contains(n) ==> with_item(s, o, x).contains(n),
        with_item(s, o, x).contains(x),
{
    inserting_adds_one_item(s, o, x);
    let t = with_item(s, o, x);
    assert forall|nf: [u8; 32]| #[trigger] none_with(s, nf) && x.nf != nf implies none_with(t, nf) by {
        lemma_inserted_none(s, o, x, nf);
    }
    assert forall|n: OrchardNote| #[trigger] holds_alone(s, n) && x.nf != n.nf implies holds_alone(
        t,
        n,
    ) by {
        lemma_inserted_alone(s, o, x, n);
    }
    if none_with(s, x.nf) {
        let i = place(s, o, x.at(o));
        assert forall|k: int| 0 <= k < t.len() && k != i implies (#[trigger] t[k]).nf != x.nf by {
            let k0 = if k < i { k } else { k - 1 };
            assert(t[k] == s[k0]);
        }
        assert(t[i] == x);
    }
}

proof fn lemma_inserted_none(s: Seq<OrchardNote>, o: Order, x: OrchardNote, nf: [u8; 32])
    requires
        none_with(s, nf),
        x.nf != nf,
    ensures
        none_with(with_item(s, o, x), nf),
{
    inserting_adds_one_item(s, o, x);
    let t = with_item(s, o, x);
    let i = place(s, o, x.at(o));
    assert forall|k: int| 0 <= k < t.len() implies (#[trigger] t[k]).nf != nf by {
        if k != i {
            let k0 = if k < i { k } else { k - 1 };
            assert(t[k] == s[k0]);
        }
    }
}

proof fn lemma_inserted_alone(s: Seq<OrchardNote>, o: Order, x: OrchardNote, n: OrchardNote)
    requires
        holds_alone(s, n),
        x.nf != n.nf,
    ensures
        holds_alone(with_item(s, o, x), n),
{
    inserting_adds_one_item(s, o, x);
    let t = with_item(s, o, x);
    let i = place(s, o, x.at(o));
    let p = choose|p: int|
        0 <= p < s.len() && #[trigger] s[p] == n && forall|k: int|
            0 <= k < s.len() && k != p ==> (#[trigger] s[k]).nf != n.nf;
    let q = if p < i { p } else { p + 1 };
    assert(t[q] == n);
    assert forall|k: int| 0 <= k < t.len() && k != q implies (#[trigger] t[k]).nf != n.nf by {
        if k != i {
            let k0 = if k < i { k } else { k - 1 };
            assert(t[k] == s[k0]);
        }
    }
}

proof fn lemma_seen(s: Seq<OrchardNote>, x: OrchardNote, at: BlockHeight)
    ensures
        forall|nf: [u8; 32]|
            #[trigger] none_with(s, nf) && x.nf != nf ==> none_with(after_sighting(s, x, at), nf),
        forall|n: OrchardNote|
            #[trigger] holds_alone(s, n) && x.nf != n.nf ==> holds_alone(after_sighting(s, x, at), n),
        none_with(s, x.nf) ==> holds_alone(after_sighting(s, x, at), x),
        forall|n: OrchardNote|
            #[trigger] s.contains(n) && n.nf != x.nf ==> after_sighting(s, x, at).contains(n),
{
    lemma_find_at(s, Order::Recv, at.0, x.nf);
    lemma_inserted(s, Order::Recv, x);
    if let Some(i) = find_at(s, Order::Recv, at.0, x.nf) {
        let t = after_sighting(s, x, at);
        assert(s[i].nf == x.nf);
        assert forall|k: int| 0 <= k < t.len() implies (#[trigger] t[k]).nf == s[k].nf && (k != i
            ==> t[k] == s[k]) by {}
        assert forall|n: OrchardNote| #[trigger] holds_alone(s, n) && x.nf != n.nf implies holds_alone(
            t,
            n,
        ) by {
            let p = choose|p: int|
                0 <= p < s.len() && #[trigger] s[p] == n && forall|k: int|
                    0 <= k < s.len() && k != p ==> (#[trigger] s[k]).nf != n.nf;
            assert(t[p] == n);
        }
        assert forall|n: OrchardNote| #[trigger] s.contains(n) && n.nf != x.nf implies t.contains(n) by {
            let p = choose|p: int| 0 <= p < s.len() && s[p] == n;
            assert(t[p] == n);
        }
    }
}

/// An account and what moved after some actions, one after the other.
pub open spec fn after_sights(
    a: AccountModel,
    part: WalletTxPart,
    m: Map<TxId, BlockHeight>,
    keys: PreparedKeys,
    sights: Seq<ActionSight>,
) -> (AccountModel, WalletTxPart)
    decreases sights.len(),
{
    if sights.len() == 0 {
        (a, part)
    } else {
        let (b, p) = after_sights(a, part, m, keys, sights.drop_last());
        (
            after_action(b, m, keys, sights.last()),
            plus_or_same(p, action_part(b, keys, sights.last())),
        )
    }
}

/// Whether one of some actions spends a nullifier.
pub open spec fn one_spends(sights: Seq<ActionSight>, nf: [u8; 32]) -> bool {
    exists|k: int| 0 <= k < sights.len() && (#[trigger] sights[k]).spent_nf == nf
}

/// Whether no action brings a note with a nullifier.
pub open spec fn none_brings(keys: PreparedKeys, sights: Seq<ActionSight>, nf: [u8; 32]) -> bool {
    forall|k: int| 0 <= k < sights.len() ==> received_nf(keys, #[trigger] sights[k]) != Some(nf)
}

proof fn lemma_rest(keys: PreparedKeys, sights: Seq<ActionSight>, nf: [u8; 32])
    requires
        sights.len() > 0,
    ensures
        none_brings(keys, sights, nf) ==> none_brings(keys, sights.drop_last(), nf) && received_nf(
            keys,
            sights.last(),
        ) != Some(nf),
        one_spends(sights, nf) <==> one_spends(sights.drop_last(), nf) || sights.last().spent_nf == nf,
{
    let rest = sights.drop_last();
    assert(sights[sights.len() - 1] == sights.last());
    if none_brings(keys, sights, nf) {
        assert forall|k: int| 0 <= k < rest.len() implies received_nf(keys, #[trigger] rest[k])
            != Some(nf) by {
            assert(rest[k] == sights[k]);
        }
    }
    if one_spends(sights, nf) {
        let k = choose|k: int| 0 <= k < sights.len() && (#[trigger] sights[k]).spent_nf == nf;
        if k < rest.len() {
            assert(rest[k].spent_nf == nf);
        }
    }
    if one_spends(rest, nf) {
        let k = choose|k: int| 0 <= k < rest.len() && (#[trigger] rest[k]).spent_nf == nf;
        assert(sights[k].spent_nf == nf);
    }
}

/// What one action does with the notes of a nullifier that it does not bring.
proof fn lemma_action_on_note(
    a: AccountModel,
    m: Map<TxId, BlockHeight>,
    keys: PreparedKeys,
    s: ActionSight,
    nf: [u8; 32],
)
    requires
        received_nf(keys, s) != Some(nf),
    ensures
        ({
            let r = after_action(a, m, keys, s);
            &&& none_with(a.unspent_orchard_notes, nf) ==> none_with(r.unspent_orchard_notes, nf)
            &&& s.spent_nf != nf ==> {
                &&& none_with(a.spent_orchard_notes, nf) ==> none_with(r.spent_orchard_notes, nf)
                &&& forall|n: OrchardNote|
                    n.nf == nf && #[trigger] holds_alone(a.unspent_orchard_notes, n) ==> holds_alone(
                        r.unspent_orchard_notes,
                        n,
                    )
                &&& forall|n: OrchardNote|
                    n.nf == nf && #[trigger] holds_alone(a.spent_orchard_notes, n) ==> holds_alone(
                        r.spent_orchard_notes,
                        n,
                    )
            }
            &&& none_with(a.unspent_orchard_notes, nf) ==> {
                &&& none_with(a.spent_orchard_notes, nf) ==> none_with(r.spent_orchard_notes, nf)
                &&& forall|n: OrchardNote|
                    n.nf == nf && #[trigger] holds_alone(a.spent_orchard_notes, n) ==> holds_alone(
                        r.spent_orchard_notes,
                        n,
                    )
            }
            &&& s.spent_nf == nf ==> forall|n: OrchardNote|
                n.nf == nf && #[trigger] holds_alone(a.unspent_orchard_notes, n) ==> {
                    let gone = OrchardNote { spent_h: s.block_h, ..n };
                    &&& none_with(r.unspent_orchard_notes, nf)
                    &&& r.spent_orchard_notes.contains(gone)
                    &&& none_with(a.spent_orchard_notes, nf) ==> holds_alone(
                        r.spent_orchard_notes,
                        gone,
                    )
                }
            &&& forall|n: OrchardNote|
                #[trigger] a.spent_orchard_notes.contains(n) ==> r.spent_orchard_notes.contains(n)
            &&& none_with(a.recv_orchard_notes, nf) ==> none_with(r.recv_orchard_notes, nf)
            &&& forall|n: OrchardNote|
                n.nf == nf && #[trigger] holds_alone(a.recv_orchard_notes, n) ==> holds_alone(
                    r.recv_orchard_notes,
                    n,
                )
        }),
{
    let u = a.unspent_orchard_notes;
    let b = after_spend(a, s.spent_nf, s.block_h);
    lemma_find_id(u, s.spent_nf);
    match find_id(u, s.spent_nf) {
        Some(i) => {
            lemma_removed(u, i);
            lemma_inserted(
                a.spent_orchard_notes,
                Order::Spent,
                OrchardNote { spent_h: s.block_h, ..u[i] },
            );
            assert(u[i].id() == s.spent_nf);
        },
        None => {
            assert forall|k: int| 0 <= k < u.len() implies (#[trigger] u[k]).nf != s.spent_nf by {
                assert(u[k].id() != s.spent_nf);
            }
        },
    }
    if sight_ok(keys, s) && s.received is Some {
        let x = new_note(s, received_nf(keys, s)->Some_0);
        let at = known_height(m, s.txid, s.block_h);
        lemma_seen(b.unspent_orchard_notes, x, at);
        lemma_seen(b.recv_orchard_notes, x, at);
    }
}

/// What becomes of an unspent note, whose nullifier no action brings: it is spent if an action spends
/// it, and unspent otherwise. What is spent stays spent.
proof fn lemma_note_after(
    a: AccountModel,
    part: WalletTxPart,
    m: Map<TxId, BlockHeight>,
    keys: PreparedKeys,
    sights: Seq<ActionSight>,
    h: BlockHeight,
    n: OrchardNote,
)
    requires
        none_brings(keys, sights, n.nf),
        holds_alone(a.unspent_orchard_notes, n),
        forall|k: int| 0 <= k < sights.len() ==> (#[trigger] sights[k]).block_h == h,
    ensures
        ({
            let r = after_sights(a, part, m, keys, sights).0;
            &&& one_spends(sights, n.nf) ==> none_with(r.unspent_orchard_notes, n.nf)
                && r.spent_orchard_notes.contains(OrchardNote { spent_h: h, ..n })
            &&& !one_spends(sights, n.nf) ==> holds_alone(r.unspent_orchard_notes, n)
        }),
    decreases sights.len(),
{
    if sights.len() > 0 {
        let rest = sights.drop_last();
        lemma_rest(keys, sights, n.nf);
        assert forall|k: int| 0 <= k < rest.len() implies (#[trigger] rest[k]).block_h == h by {
            assert(rest[k] == sights[k]);
        }
        assert(sights[sights.len() - 1] == sights.last());
        lemma_note_after(a, part, m, keys, rest, h, n);
        let b = after_sights(a, part, m, keys, rest).0;
        lemma_action_on_note(b, m, keys, sights.last(), n.nf);
    }
}

proof fn lemma_spent_stays(
    a: AccountModel,
    part: WalletTxPart,
    m: Map<TxId, BlockHeight>,
    keys: PreparedKeys,
    sights: Seq<ActionSight>,
    n: OrchardNote,
)
    requires
        a.spent_orchard_notes.contains(n),
    ensures
        after_sights(a, part, m, keys, sights).0.spent_orchard_notes.contains(n),
    decreases sights.len(),
{
    if sights.len() > 0 {
        lemma_spent_stays(a, part, m, keys, sights.drop_last(), n);
        let b = after_sights(a, part, m, keys, sights.drop_last()).0;
        let s = sights.last();
        lemma_find_id(b.unspent_orchard_notes, s.spent_nf);
        if let Some(i) = find_id(b.unspent_orchard_notes, s.spent_nf) {
            lemma_inserted(
                b.spent_orchard_notes,
                Order::Spent,
                OrchardNote { spent_h: s.block_h, ..b.unspent_orchard_notes[i] },
            );
        }
    }
}

/// What the notes of a list with a nullifier are worth.
pub open spec fn worth_with(s: Seq<OrchardNote>, nf: [u8; 32]) -> nat
    decreases s.len(),
{
    if s.len() == 0 {
        0
    } else {
        worth_with(s.drop_last(), nf) + if s.last().nf == nf {
            s.last().note.value as nat
        } else {
            0
        }
    }
}

/// How many notes of a list have a nullifier.
pub open spec fn count_with(s: Seq<OrchardNote>, nf: [u8; 32]) -> nat
    decreases s.len(),
{
    if s.len() == 0 {
        0
    } else {
        count_with(s.drop_last(), nf) + if s.last().nf == nf {
            1nat
        } else {
            0
        }
    }
}

proof fn lemma_worth(s: Seq<OrchardNote>, nf: [u8; 32])
    ensures
        none_with(s, nf) ==> worth_with(s, nf) == 0 && count_with(s, nf) == 0,
        forall|n: OrchardNote|
            n.nf == nf && #[trigger] holds_alone(s, n) ==> worth_with(s, nf) == n.note.value
                && count_with(s, nf) == 1,
    decreases s.len(),
{
    if s.len() > 0 {
        let t = s.drop_last();
        lemma_worth(t, nf);
        let last = s.len() - 1;
        assert forall|k: int| 0 <= k < t.len() implies #[trigger] t[k] == s[k] by {}
        assert(s[last] == s.last());
        assert forall|n: OrchardNote| n.nf == nf && #[trigger] holds_alone(s, n) implies worth_with(
            s,
            nf,
        ) == n.note.value && count_with(s, nf) == 1 by {
            let p = choose|p: int|
                0 <= p < s.len() && #[trigger] s[p] == n && forall|k: int|
                    0 <= k < s.len() && k != p ==> (#[trigger] s[k]).nf != n.nf;
            if p == last {
                assert(none_with(t, nf)) by {
                    assert forall|k: int| 0 <= k < t.len() implies (#[trigger] t[k]).nf != nf by {
                        assert(s[k].nf != n.nf);
                    }
                }
            } else {
                assert(s[last].nf != n.nf);
                assert(t[p] == n);
                assert(holds_alone(t, n)) by {
                    assert forall|k: int| 0 <= k < t.len() && k != p implies (#[trigger] t[k]).nf
                        != n.nf by {
                        assert(s[k].nf != n.nf);
                    }
                }
            }
        }
    }
}

/// Whether no two notes of an account have one nullifier, spent ones and unspent ones together.
pub open spec fn notes_sound(a: AccountModel) -> bool {
    notes_differ(a.unspent_orchard_notes + a.spent_orchard_notes)
}

/// What an account's notes with a nullifier are worth, spent ones and unspent ones.
pub open spec fn own_worth(a: AccountModel, nf: [u8; 32]) -> nat {
    worth_with(a.unspent_orchard_notes, nf) + worth_with(a.spent_orchard_notes, nf)
}

/// How many notes of an account have a nullifier, spent ones and unspent ones.
pub open spec fn own_count(a: AccountModel, nf: [u8; 32]) -> nat {
    count_with(a.unspent_orchard_notes, nf) + count_with(a.spent_orchard_notes, nf)
}

/// Whether a note is the account's only one with its nullifier.
spec fn is_only_note(a: AccountModel, n: OrchardNote) -> bool {
    let (u, s) = (a.unspent_orchard_notes, a.spent_orchard_notes);
    (holds_alone(u, n) && none_with(s, n.nf)) || (none_with(u, n.nf) && holds_alone(s, n))
}

/// Whether an account has at most one note with a nullifier, and what it is worth.
spec fn amount_is(a: AccountModel, nf: [u8; 32], v: Option<u64>) -> bool {
    match v {
        None => none_with(a.unspent_orchard_notes, nf) && none_with(a.spent_orchard_notes, nf),
        Some(v) => exists|n: OrchardNote|
            #[trigger] is_only_note(a, n) && n.nf == nf && n.note.value == v,
    }
}

proof fn lemma_amount(a: AccountModel, nf: [u8; 32], v: Option<u64>)
    requires
        amount_is(a, nf, v),
    ensures
        spent_amount(a, nf) == v,
        own_worth(a, nf) == (if let Some(x) = v { x as nat } else { 0 }),
        own_count(a, nf) == if v is Some { 1nat } else { 0 },
{
    let (u, s) = (a.unspent_orchard_notes, a.spent_orchard_notes);
    lemma_worth(u, nf);
    lemma_worth(s, nf);
    lemma_find_id(u, nf);
    lemma_find_id(s, nf);
    if let Some(i) = find_id(u, nf) {
        assert(u[i].nf == nf);
    }
    if let Some(i) = find_id(s, nf) {
        assert(s[i].nf == nf);
    }
    if let Some(x) = v {
        let n = choose|n: OrchardNote|
            #[trigger] is_only_note(a, n) && n.nf == nf && n.note.value == x;
        if holds_alone(u, n) && none_with(s, nf) {
            let p = choose|p: int|
                0 <= p < u.len() && #[trigger] u[p] == n && forall|k: int|
                    0 <= k < u.len() && k != p ==> (#[trigger] u[k]).nf != n.nf;
            assert(u[p].id() == nf);
        } else {
            let p = choose|p: int|
                0 <= p < s.len() && #[trigger] s[p] == n && forall|k: int|
                    0 <= k < s.len() && k != p ==> (#[trigger] s[k]).nf != n.nf;
            assert(s[p].id() == nf);
        }
    }
}

proof fn lemma_has_amount(a: AccountModel, nf: [u8; 32])
    requires
        notes_sound(a),
    ensures
        amount_is(a, nf, spent_amount(a, nf)),
{
    let (u, s) = (a.unspent_orchard_notes, a.spent_orchard_notes);
    let all = u + s;
    lemma_find_id(u, nf);
    lemma_find_id(s, nf);
    assert forall|k: int| 0 <= k < u.len() implies #[trigger] u[k] == all[k] by {}
    assert forall|k: int| 0 <= k < s.len() implies #[trigger] s[k] == all[u.len() + k] by {}
    match find_id(u, nf) {
        Some(i) => {
            let n = u[i];
            assert(n.id() == nf);
            assert forall|k: int| 0 <= k < u.len() && k != i implies (#[trigger] u[k]).nf != nf by {
                if k < i {
                    assert(all[k].nf != all[i].nf);
                } else {
                    assert(all[i].nf != all[k].nf);
                }
            }
            assert(holds_alone(u, n));
            assert forall|k: int| 0 <= k < s.len() implies (#[trigger] s[k]).nf != nf by {
                assert(all[i].nf != all[u.len() + k].nf);
            }
            assert(is_only_note(a, n));
        },
        None => {
            assert forall|k: int| 0 <= k < u.len() implies (#[trigger] u[k]).nf != nf by {
                assert(u[k].id() != nf);
            }
            match find_id(s, nf) {
                Some(i) => {
                    let n = s[i];
                    assert(n.id() == nf);
                    assert forall|k: int| 0 <= k < s.len() && k != i implies (#[trigger] s[k]).nf
                        != nf by {
                        if k < i {
                            assert(all[u.len() + k].nf != all[u.len() + i].nf);
                        } else {
                            assert(all[u.len() + i].nf != all[u.len() + k].nf);
                        }
                    }
                    assert(holds_alone(s, n));
                    assert(is_only_note(a, n));
                },
                None => {
                    assert forall|k: int| 0 <= k < s.len() implies (#[trigger] s[k]).nf != nf by {
                        assert(s[k].id() != nf);
                    }
                },
            }
        },
    }
}

proof fn lemma_amount_stays(
    a: AccountModel,
    part: WalletTxPart,
    m: Map<TxId, BlockHeight>,
    keys: PreparedKeys,
    sights: Seq<ActionSight>,
    nf: [u8; 32],
)
    requires
        notes_sound(a),
        none_brings(keys, sights, nf),
    ensures
        amount_is(after_sights(a, part, m, keys, sights).0, nf, spent_amount(a, nf)),
    decreases sights.len(),
{
    if sights.len() == 0 {
        lemma_has_amount(a, nf);
    } else {
        let rest = sights.drop_last();
        lemma_rest(keys, sights, nf);
        lemma_amount_stays(a, part, m, keys, rest, nf);
        let b = after_sights(a, part, m, keys, rest).0;
        let r = after_sights(a, part, m, keys, sights).0;
        let s = sights.last();
        lemma_action_on_note(b, m, keys, s, nf);
        if let Some(v) = spent_amount(a, nf) {
            let (u, t) = (b.unspent_orchard_notes, b.spent_orchard_notes);
            let n = choose|n: OrchardNote|
                #[trigger] is_only_note(b, n) && n.nf == nf && n.note.value == v;
            if holds_alone(u, n) && none_with(t, nf) {
                if s.spent_nf == nf {
                    let gone = OrchardNote { spent_h: s.block_h, ..n };
                    assert(is_only_note(r, gone));
                } else {
                    assert(is_only_note(r, n));
                }
            } else {
                assert(is_only_note(r, n));
            }
        }
    }
}

/// What the account's notes are worth that some actions spend.
pub open spec fn spent_total(a: AccountModel, sights: Seq<ActionSight>) -> nat
    decreases sights.len(),
{
    if sights.len() == 0 {
        0
    } else {
        spent_total(a, sights.drop_last()) + own_worth(a, sights.last().spent_nf)
    }
}

/// How many of the account's notes some actions spend.
pub open spec fn spent_number(a: AccountModel, sights: Seq<ActionSight>) -> nat
    decreases sights.len(),
{
    if sights.len() == 0 {
        0
    } else {
        spent_number(a, sights.drop_last()) + own_count(a, sights.last().spent_nf)
    }
}

/// What a note is worth, if there is one.
pub open spec fn worth_of(n: Option<Note>) -> nat {
    match n {
        Some(n) => n.value as nat,
        None => 0,
    }
}

/// What the notes are worth that some actions bring.
pub open spec fn brought_total(sights: Seq<ActionSight>) -> nat
    decreases sights.len(),
{
    if sights.len() == 0 {
        0
    } else {
        brought_total(sights.drop_last()) + worth_of(sights.last().received)
    }
}

/// What the notes are worth that some actions send.
pub open spec fn sent_total(sights: Seq<ActionSight>) -> nat
    decreases sights.len(),
{
    if sights.len() == 0 {
        0
    } else {
        sent_total(sights.drop_last()) + worth_of(sights.last().sent)
    }
}

/// Whether everything that some actions move can be counted: each amount and each sum can exist, and no
/// action brings a note that another one spends.
pub open spec fn is_countable(a: AccountModel, keys: PreparedKeys, sights: Seq<ActionSight>) -> bool {
    &&& sights.len() <= usize::MAX
    &&& forall|k: int| 0 <= k < sights.len() ==> sight_ok(keys, #[trigger] sights[k])
    &&& forall|k: int|
        0 <= k < sights.len() ==> none_brings(keys, sights, (#[trigger] sights[k]).spent_nf)
    &&& spent_total(a, sights) <= MAX_MONEY
    &&& brought_total(sights) <= MAX_MONEY
    &&& sent_total(sights) <= MAX_MONEY
}

proof fn lemma_part_counts(
    a: AccountModel,
    m: Map<TxId, BlockHeight>,
    keys: PreparedKeys,
    sights: Seq<ActionSight>,
)
    requires
        notes_sound(a),
        is_countable(a, keys, sights),
    ensures
        ({
            let p = after_sights(a, WalletTxPart::nothing(), m, keys, sights).1;
            &&& p.spent_zats.zats == spent_total(a, sights)
            &&& p.spent_note_count == spent_number(a, sights)
            &&& p.recv_zats.zats == brought_total(sights)
            &&& p.sent_zats.zats == sent_total(sights)
            &&& p.spent_note_count <= sights.len()
            &&& p.recv_note_count <= sights.len()
            &&& p.sent_note_count <= sights.len()
        }),
    decreases sights.len(),
{
    if sights.len() > 0 {
        let rest = sights.drop_last();
        let s = sights.last();
        assert(sights[sights.len() - 1] == s);
        assert forall|k: int| 0 <= k < rest.len() implies sight_ok(keys, #[trigger] rest[k])
            && none_brings(keys, rest, rest[k].spent_nf) by {
            assert(rest[k] == sights[k]);
            lemma_rest(keys, sights, sights[k].spent_nf);
        }
        lemma_part_counts(a, m, keys, rest);
        lemma_rest(keys, sights, s.spent_nf);
        lemma_amount_stays(a, WalletTxPart::nothing(), m, keys, rest, s.spent_nf);
        let b = after_sights(a, WalletTxPart::nothing(), m, keys, rest).0;
        lemma_amount(b, s.spent_nf, spent_amount(a, s.spent_nf));
        lemma_has_amount(a, s.spent_nf);
        lemma_amount(a, s.spent_nf, spent_amount(a, s.spent_nf));
    }
}

/// A note as it is when it was just received.
pub open spec fn fresh_note(
    h: BlockHeight,
    nf: [u8; 32],
    txid: TxId,
    note: Note,
    position: u64,
) -> OrchardNote {
    OrchardNote { recv_h: h, spent_h: BlockHeight(0), nf, txid, note, position }
}

proof fn lemma_brought(
    a: AccountModel,
    part: WalletTxPart,
    m: Map<TxId, BlockHeight>,
    keys: PreparedKeys,
    sights: Seq<ActionSight>,
    k: int,
    nf: [u8; 32],
)
    requires
        0 <= k < sights.len(),
        sight_ok(keys, sights[k]),
        sights[k].received is Some,
        received_nf(keys, sights[k]) == Some(nf),
        forall|j: int|
            0 <= j < sights.len() && j != k ==> received_nf(keys, #[trigger] sights[j]) != Some(nf),
        !one_spends(sights, nf),
        none_with(a.unspent_orchard_notes, nf),
        none_with(a.recv_orchard_notes, nf),
    ensures
        ({
            let r = after_sights(a, part, m, keys, sights).0;
            let s = sights[k];
            let n = fresh_note(s.block_h, nf, s.txid, s.received->Some_0, s.position);
            holds_alone(r.unspent_orchard_notes, n) && holds_alone(r.recv_orchard_notes, n)
        }),
    decreases sights.len(),
{
    let rest = sights.drop_last();
    let last = sights.len() - 1;
    lemma_rest(keys, sights, nf);
    assert(sights[last] == sights.last());
    assert forall|j: int| 0 <= j < rest.len() implies #[trigger] rest[j] == sights[j] by {}
    let b = after_sights(a, part, m, keys, rest).0;
    if k < last {
        lemma_brought(a, part, m, keys, rest, k, nf);
        lemma_action_on_note(b, m, keys, sights.last(), nf);
    } else {
        assert forall|j: int| 0 <= j < rest.len() implies received_nf(keys, #[trigger] rest[j])
            != Some(nf) by {
            assert(received_nf(keys, sights[j]) != Some(nf));
        }
        lemma_not_brought(a, part, m, keys, rest, nf);
        let s = sights.last();
        let c = after_spend(b, s.spent_nf, s.block_h);
        lemma_find_id(b.unspent_orchard_notes, s.spent_nf);
        if let Some(i) = find_id(b.unspent_orchard_notes, s.spent_nf) {
            lemma_removed(b.unspent_orchard_notes, i);
        }
        let x = new_note(s, nf);
        let at = known_height(m, s.txid, s.block_h);
        lemma_seen(c.unspent_orchard_notes, x, at);
        lemma_seen(c.recv_orchard_notes, x, at);
        lemma_find_at(c.recv_orchard_notes, Order::Recv, at.0, nf);
        if let Some(i) = find_at(c.recv_orchard_notes, Order::Recv, at.0, nf) {
            assert(c.recv_orchard_notes[i].nf == nf);
        }
        assert(after_action(b, m, keys, s) == after_receive(c, x, at));
    }
}

proof fn lemma_not_brought(
    a: AccountModel,
    part: WalletTxPart,
    m: Map<TxId, BlockHeight>,
    keys: PreparedKeys,
    sights: Seq<ActionSight>,
    nf: [u8; 32],
)
    requires
        none_brings(keys, sights, nf),
        none_with(a.unspent_orchard_notes, nf),
        none_with(a.recv_orchard_notes, nf),
    ensures
        none_with(after_sights(a, part, m, keys, sights).0.unspent_orchard_notes, nf),
        none_with(after_sights(a, part, m, keys, sights).0.recv_orchard_notes, nf),
    decreases sights.len(),
{
    if sights.len() > 0 {
        lemma_rest(keys, sights, nf);
        lemma_not_brought(a, part, m, keys, sights.drop_last(), nf);
        lemma_action_on_note(
            after_sights(a, part, m, keys, sights.drop_last()).0,
            m,
            keys,
            sights.last(),
            nf,
        );
    }
}

/// The fields of a well-formed compact action make the action.
pub proof fn the_fields_make_the_action(raw: CompactOrchardAction)
    requires
        compact_ok(raw),
    ensures
        compact_of(raw).nullifier@ == raw.nullifier@,
        compact_of(raw).cmx@ == raw.cmx@,
        compact_of(raw).ephemeral_key@ == raw.ephemeral_key@,
        compact_of(raw).ciphertext@ == raw.ciphertext@,
{
    lemma_array_holds::<32>(raw.nullifier@);
    lemma_array_holds::<32>(raw.cmx@);
    lemma_array_holds::<32>(raw.ephemeral_key@);
    lemma_array_holds::<52>(raw.ciphertext@);
}

/// How many of some actions are well-formed.
pub open spec fn ok_count(actions: Seq<CompactOrchardAction>) -> nat
    decreases actions.len(),
{
    if actions.len() == 0 {
        0
    } else {
        ok_count(actions.drop_last()) + if compact_ok(actions.last()) {
            1nat
        } else {
            0
        }
    }
}

/// What a key sees in the well-formed ones of some actions.
spec fn compact_sights(
    keys: PreparedKeys,
    h: BlockHeight,
    txid: TxId,
    next: u64,
    actions: Seq<CompactOrchardAction>,
) -> Seq<ActionSight>
    decreases actions.len(),
{
    if actions.len() == 0 {
        seq![]
    } else {
        let rest = actions.drop_last();
        let before = compact_sights(keys, h, txid, next, rest);
        if compact_ok(actions.last()) {
            before.push(
                compact_sight(keys, h, txid, (next + ok_count(rest)) as u64, actions.last()),
            )
        } else {
            before
        }
    }
}

proof fn lemma_compact_sights(
    st: CompactState,
    m: Map<TxId, BlockHeight>,
    keys: PreparedKeys,
    h: BlockHeight,
    txid: TxId,
    actions: Seq<CompactOrchardAction>,
)
    requires
        st.next + actions.len() <= u64::MAX,
    ensures
        compact_steps(st, m, keys, h, txid, actions).ok ==> {
            let r = compact_steps(st, m, keys, h, txid, actions);
            let sights = compact_sights(keys, h, txid, st.next, actions);
            &&& (r.account, r.part) == after_sights(st.account, st.part, m, keys, sights)
            &&& r.next == st.next + ok_count(actions)
        },
        ok_count(actions) <= actions.len(),
        compact_sights(keys, h, txid, st.next, actions).len() == ok_count(actions),
    decreases actions.len(),
{
    if actions.len() > 0 {
        let rest = actions.drop_last();
        lemma_compact_sights(st, m, keys, h, txid, rest);
        let before = compact_sights(keys, h, txid, st.next, rest);
        if compact_ok(actions.last()) {
            assert(compact_sights(keys, h, txid, st.next, actions).drop_last() =~= before);
        }
    }
}

/// The sight of a well-formed action stands behind those of the well-formed ones before it.
proof fn lemma_sight_at(
    keys: PreparedKeys,
    h: BlockHeight,
    txid: TxId,
    next: u64,
    actions: Seq<CompactOrchardAction>,
    k: int,
)
    requires
        0 <= k < actions.len(),
        compact_ok(actions[k]),
    ensures
        ({
            let sights = compact_sights(keys, h, txid, next, actions);
            let p = ok_count(actions.take(k)) as int;
            &&& 0 <= p < sights.len()
            &&& sights[p] == compact_sight(keys, h, txid, (next + p) as u64, actions[k])
        }),
    decreases actions.len(),
{
    let rest = actions.drop_last();
    lemma_sights_len(keys, h, txid, next, rest);
    if k < rest.len() {
        lemma_sight_at(keys, h, txid, next, rest, k);
        assert(rest.take(k) =~= actions.take(k));
    } else {
        assert(actions.take(k) =~= rest);
    }
}

proof fn lemma_sights_len(
    keys: PreparedKeys,
    h: BlockHeight,
    txid: TxId,
    next: u64,
    actions: Seq<CompactOrchardAction>,
)
    ensures
        compact_sights(keys, h, txid, next, actions).len() == ok_count(actions),
    decreases actions.len(),
{
    if actions.len() > 0 {
        lemma_sights_len(keys, h, txid, next, actions.drop_last());
    }
}

/// Every sight is that of a well-formed action.
proof fn lemma_sight_of(
    keys: PreparedKeys,
    h: BlockHeight,
    txid: TxId,
    next: u64,
    actions: Seq<CompactOrchardAction>,
    p: int,
) -> (k: int)
    requires
        0 <= p < compact_sights(keys, h, txid, next, actions).len(),
    ensures
        0 <= k < actions.len(),
        compact_ok(actions[k]),
        p == ok_count(actions.take(k)),
        compact_sights(keys, h, txid, next, actions)[p] == compact_sight(
            keys,
            h,
            txid,
            (next + p) as u64,
            actions[k],
        ),
    decreases actions.len(),
{
    let rest = actions.drop_last();
    let before = compact_sights(keys, h, txid, next, rest);
    lemma_sights_len(keys, h, txid, next, rest);
    if p < before.len() {
        let k = lemma_sight_of(keys, h, txid, next, rest, p);
        assert(rest.take(k) =~= actions.take(k));
        k
    } else {
        assert(actions.take(actions.len() - 1) =~= rest);
        actions.len() - 1
    }
}

/// Whether a compact action brings a note of a key with a nullifier.
pub open spec fn brings(keys: PreparedKeys, raw: CompactOrchardAction, nf: [u8; 32]) -> bool {
    &&& compact_ok(raw)
    &&& keys.orchard_fvk matches Some(fvk) && (compact_note(
        fvk,
        keys.scope == Scope::Internal,
        compact_of(raw),
    ) matches Some(n) && nullifier_of(fvk, n) == Some(nf))
}

/// Whether one of some compact actions is well-formed and names a nullifier.
pub open spec fn one_names(actions: Seq<CompactOrchardAction>, nf: Seq<u8>) -> bool {
    exists|k: int|
        0 <= k < actions.len() && compact_ok(#[trigger] actions[k]) && actions[k].nullifier@ == nf
}

proof fn lemma_names(
    keys: PreparedKeys,
    h: BlockHeight,
    txid: TxId,
    next: u64,
    actions: Seq<CompactOrchardAction>,
    nf: [u8; 32],
)
    ensures
        ({
            let sights = compact_sights(keys, h, txid, next, actions);
            &&& one_spends(sights, nf) <==> one_names(actions, nf@)
            &&& (forall|k: int| 0 <= k < actions.len() ==> !brings(keys, #[trigger] actions[k], nf))
                ==> none_brings(keys, sights, nf)
            &&& forall|p: int|
                0 <= p < sights.len() ==> (#[trigger] sights[p]).block_h == h && sights[p].txid
                    == txid
        }),
{
    let sights = compact_sights(keys, h, txid, next, actions);
    if one_spends(sights, nf) {
        let p = choose|p: int| 0 <= p < sights.len() && (#[trigger] sights[p]).spent_nf == nf;
        let k = lemma_sight_of(keys, h, txid, next, actions, p);
        the_fields_make_the_action(actions[k]);
        assert(actions[k].nullifier@ == nf@);
    }
    if one_names(actions, nf@) {
        let k = choose|k: int|
            0 <= k < actions.len() && compact_ok(#[trigger] actions[k]) && actions[k].nullifier@
                == nf@;
        lemma_sight_at(keys, h, txid, next, actions, k);
        the_fields_make_the_action(actions[k]);
        let p = ok_count(actions.take(k)) as int;
        assert(sights[p].spent_nf =~= nf);
    }
    assert forall|p: int| 0 <= p < sights.len() implies (#[trigger] sights[p]).block_h == h
        && sights[p].txid == txid by {
        let _ = lemma_sight_of(keys, h, txid, next, actions, p);
    }
    if forall|k: int| 0 <= k < actions.len() ==> !brings(keys, #[trigger] actions[k], nf) {
        assert forall|p: int| 0 <= p < sights.len() implies received_nf(keys, #[trigger] sights[p])
            != Some(nf) by {
            let k = lemma_sight_of(keys, h, txid, next, actions, p);
            assert(!brings(keys, actions[k], nf));
        }
    }
}

/// After a compact transaction is read to its end, no note that was the account's before and whose
/// nullifier is the nullifier of one of its well-formed actions is unspent: it is among the spent notes,
/// at the block's height. A note that none of them names stays unspent, and what was spent stays spent.
/// Left out are nullifiers of which the transaction itself brings a note.
pub proof fn a_named_note_is_spent(
    st: ScanState,
    account_i: usize,
    keys: PreparedKeys,
    h: BlockHeight,
    tx: CompactTx,
    n: OrchardNote,
)
    requires
        account_i < st.wallet.accounts.len(),
        st.next + tx.actions@.len() <= u64::MAX,
        notes_differ(st.wallet.accounts[account_i as int].unspent_orchard_notes),
        forall|k: int|
            0 <= k < tx.actions@.len() ==> !brings(keys, #[trigger] tx.actions@[k], n.nf),
        compact_tx_read(st, account_i, keys, h, tx).ok,
    ensures
        ({
            let a = st.wallet.accounts[account_i as int];
            let r = compact_tx_read(st, account_i, keys, h, tx).wallet.accounts[account_i as int];
            &&& a.unspent_orchard_notes.contains(n) && one_names(tx.actions@, n.nf@) ==> none_with(
                r.unspent_orchard_notes,
                n.nf,
            ) && r.spent_orchard_notes.contains(OrchardNote { spent_h: h, ..n })
            &&& a.unspent_orchard_notes.contains(n) && !one_names(tx.actions@, n.nf@)
                ==> r.unspent_orchard_notes.contains(n)
            &&& a.spent_orchard_notes.contains(n) ==> r.spent_orchard_notes.contains(n)
        }),
{
    let a = st.wallet.accounts[account_i as int];
    let m = st.wallet.tx_h_map;
    let txid = compact_id(tx);
    let start = compact_start(a, st.tree, st.next);
    let sights = compact_sights(keys, h, txid, st.next, tx.actions@);
    lemma_compact_sights(start, m, keys, h, txid, tx.actions@);
    lemma_names(keys, h, txid, st.next, tx.actions@, n.nf);
    if a.unspent_orchard_notes.contains(n) {
        lemma_alone(a.unspent_orchard_notes, n);
        lemma_note_after(a, WalletTxPart::nothing(), m, keys, sights, h, n);
    }
    if a.spent_orchard_notes.contains(n) {
        lemma_spent_stays(a, WalletTxPart::nothing(), m, keys, sights, n);
    }
}

/// What the account's notes are worth that some compact actions spend.
pub open spec fn compact_spent(a: AccountModel, actions: Seq<CompactOrchardAction>) -> nat
    decreases actions.len(),
{
    if actions.len() == 0 {
        0
    } else {
        compact_spent(a, actions.drop_last()) + if compact_ok(actions.last()) {
            own_worth(a, array_of::<32>(actions.last().nullifier@))
        } else {
            0
        }
    }
}

/// How many of the account's notes some compact actions spend.
pub open spec fn compact_spends(a: AccountModel, actions: Seq<CompactOrchardAction>) -> nat
    decreases actions.len(),
{
    if actions.len() == 0 {
        0
    } else {
        compact_spends(a, actions.drop_last()) + if compact_ok(actions.last()) {
            own_count(a, array_of::<32>(actions.last().nullifier@))
        } else {
            0
        }
    }
}

/// The note of a key in a compact action.
pub open spec fn compact_find(keys: PreparedKeys, raw: CompactOrchardAction) -> Option<Note> {
    match keys.orchard_fvk {
        Some(fvk) => compact_note(fvk, keys.scope == Scope::Internal, compact_of(raw)),
        None => None,
    }
}

/// What the notes of a key are worth that some compact actions bring.
pub open spec fn compact_brought(keys: PreparedKeys, actions: Seq<CompactOrchardAction>) -> nat
    decreases actions.len(),
{
    if actions.len() == 0 {
        0
    } else {
        compact_brought(keys, actions.drop_last()) + if compact_ok(actions.last()) {
            worth_of(compact_find(keys, actions.last()))
        } else {
            0
        }
    }
}

proof fn lemma_compact_totals(
    a: AccountModel,
    keys: PreparedKeys,
    h: BlockHeight,
    txid: TxId,
    next: u64,
    actions: Seq<CompactOrchardAction>,
)
    ensures
        ({
            let sights = compact_sights(keys, h, txid, next, actions);
            &&& spent_total(a, sights) == compact_spent(a, actions)
            &&& spent_number(a, sights) == compact_spends(a, actions)
            &&& brought_total(sights) == compact_brought(keys, actions)
            &&& sent_total(sights) == 0
        }),
    decreases actions.len(),
{
    if actions.len() > 0 {
        let rest = actions.drop_last();
        lemma_compact_totals(a, keys, h, txid, next, rest);
        let before = compact_sights(keys, h, txid, next, rest);
        let all = compact_sights(keys, h, txid, next, actions);
        if compact_ok(actions.last()) {
            assert(all.drop_last() =~= before);
        }
    }
}

/// Whether everything that compact actions move can be counted: the notes that they bring have a
/// nullifier and an amount that can exist, none of those nullifiers is spent at once, and the sums can
/// exist.
pub open spec fn compact_countable(
    a: AccountModel,
    keys: PreparedKeys,
    actions: Seq<CompactOrchardAction>,
) -> bool {
    &&& actions.len() <= usize::MAX
    &&& forall|k: int|
        0 <= k < actions.len() && compact_ok(#[trigger] actions[k]) ==> (compact_find(
            keys,
            actions[k],
        ) matches Some(n) ==> n.value <= MAX_MONEY && nullifier_of(keys.orchard_fvk->Some_0, n) is Some)
    &&& forall|j: int, k: int|
        0 <= j < actions.len() && 0 <= k < actions.len() && compact_ok(#[trigger] actions[j])
            ==> !brings(keys, #[trigger] actions[k], array_of::<32>(actions[j].nullifier@))
    &&& compact_spent(a, actions) <= MAX_MONEY
    &&& compact_brought(keys, actions) <= MAX_MONEY
}

proof fn lemma_compact_counted(
    a: AccountModel,
    keys: PreparedKeys,
    h: BlockHeight,
    txid: TxId,
    next: u64,
    actions: Seq<CompactOrchardAction>,
)
    requires
        compact_countable(a, keys, actions),
        next + actions.len() <= u64::MAX,
    ensures
        is_countable(a, keys, compact_sights(keys, h, txid, next, actions)),
{
    let sights = compact_sights(keys, h, txid, next, actions);
    lemma_compact_totals(a, keys, h, txid, next, actions);
    lemma_sights_len(keys, h, txid, next, actions);
    lemma_ok_count(actions);
    assert forall|p: int| 0 <= p < sights.len() implies sight_ok(keys, #[trigger] sights[p])
        && none_brings(keys, sights, sights[p].spent_nf) by {
        let j = lemma_sight_of(keys, h, txid, next, actions, p);
        lemma_names(keys, h, txid, next, actions, sights[p].spent_nf);
        assert forall|k: int| 0 <= k < actions.len() implies !brings(
            keys,
            #[trigger] actions[k],
            sights[p].spent_nf,
        ) by {
            assert(compact_ok(actions[j]));
        }
    }
}

proof fn lemma_ok_count(actions: Seq<CompactOrchardAction>)
    ensures
        ok_count(actions) <= actions.len(),
    decreases actions.len(),
{
    if actions.len() > 0 {
        lemma_ok_count(actions.drop_last());
    }
}

/// After a compact transaction is read to its end, what its entry counts as spent is exactly what the
/// account's notes are worth that its actions name, and what it counts as received exactly what the
/// notes are worth that it brings. A transaction that was not known before, and that moves something,
/// stands in the list with these sums, at the block's height.
pub proof fn a_compact_transaction_is_counted(
    st: ScanState,
    account_i: usize,
    keys: PreparedKeys,
    h: BlockHeight,
    tx: CompactTx,
)
    requires
        account_i < st.wallet.accounts.len(),
        st.next + tx.actions@.len() <= u64::MAX,
        0 <= st.insert_i <= st.wallet.txs.len(),
        tx.hash@.len() == 32,
        notes_sound(st.wallet.accounts[account_i as int]),
        compact_countable(st.wallet.accounts[account_i as int], keys, tx.actions@),
        compact_tx_read(st, account_i, keys, h, tx).ok,
    ensures
        ({
            let a = st.wallet.accounts[account_i as int];
            let r = compact_tx_read(st, account_i, keys, h, tx);
            let p = compact_read(st, account_i, keys, h, tx).part;
            let e = r.wallet.txs[st.insert_i];
            let txid = array_of::<32>(tx.hash@);
            &&& p.spent_zats.zats == compact_spent(a, tx.actions@)
            &&& p.spent_note_count == compact_spends(a, tx.actions@)
            &&& p.recv_zats.zats == compact_brought(keys, tx.actions@)
            &&& p.sent_zats.zats == 0
            &&& !st.wallet.tx_h_map.contains_key(txid) && (compact_spends(a, tx.actions@) > 0
                || compact_brought(keys, tx.actions@) > 0) ==> {
                &&& r.wallet.txs == st.wallet.txs.insert(st.insert_i, e)
                &&& e.txid@ == tx.hash@
                &&& e.h == h
                &&& e.status is OnBc
                &&& e.account_id == account_i
                &&& e.part_flags == TxParts::SHIELDED_RECV
                &&& e.memo_count == 0 && !e.is_coinbase && e.staking_action is None
                &&& e.parts[1].spent_zats.zats == compact_spent(a, tx.actions@)
                &&& e.parts[1].recv_zats.zats == compact_brought(keys, tx.actions@)
                &&& e.parts[0] == WalletTxPart::nothing()
            }
        }),
{
    let a = st.wallet.accounts[account_i as int];
    let m = st.wallet.tx_h_map;
    let txid = compact_id(tx);
    let start = compact_start(a, st.tree, st.next);
    let sights = compact_sights(keys, h, txid, st.next, tx.actions@);
    lemma_compact_sights(start, m, keys, h, txid, tx.actions@);
    lemma_compact_totals(a, keys, h, txid, st.next, tx.actions@);
    lemma_compact_counted(a, keys, h, txid, st.next, tx.actions@);
    lemma_part_counts(a, m, keys, sights);
    if brought_total(sights) > 0 {
        lemma_recv_count(a, m, keys, sights);
    }
    lemma_array_holds::<32>(tx.hash@);
    let p = compact_read(st, account_i, keys, h, tx).part;
    let r = compact_tx_read(st, account_i, keys, h, tx);
    if !m.contains_key(txid) && (compact_spends(a, tx.actions@) > 0 || compact_brought(
        keys,
        tx.actions@,
    ) > 0) {
        let e = compact_entry(account_i, txid, h, p);
        assert(e.parts@[0] == WalletTxPart::nothing() && e.parts@[1] == p);
        assert(r.wallet.txs =~= st.wallet.txs.insert(st.insert_i, e));
        assert(r.wallet.txs[st.insert_i] == e);
    }
}

/// Where something is received, a note is.
proof fn lemma_recv_count(
    a: AccountModel,
    m: Map<TxId, BlockHeight>,
    keys: PreparedKeys,
    sights: Seq<ActionSight>,
)
    requires
        notes_sound(a),
        is_countable(a, keys, sights),
        brought_total(sights) > 0,
    ensures
        after_sights(a, WalletTxPart::nothing(), m, keys, sights).1.recv_note_count > 0,
    decreases sights.len(),
{
    let rest = sights.drop_last();
    let s = sights.last();
    assert(sights[sights.len() - 1] == s);
    assert forall|k: int| 0 <= k < rest.len() implies sight_ok(keys, #[trigger] rest[k])
        && none_brings(keys, rest, rest[k].spent_nf) by {
        assert(rest[k] == sights[k]);
        lemma_rest(keys, sights, sights[k].spent_nf);
    }
    lemma_part_counts(a, m, keys, rest);
    lemma_rest(keys, sights, s.spent_nf);
    lemma_amount_stays(a, WalletTxPart::nothing(), m, keys, rest, s.spent_nf);
    let b = after_sights(a, WalletTxPart::nothing(), m, keys, rest).0;
    lemma_amount(b, s.spent_nf, spent_amount(a, s.spent_nf));
    lemma_has_amount(a, s.spent_nf);
    lemma_amount(a, s.spent_nf, spent_amount(a, s.spent_nf));
    if s.received is None {
        lemma_recv_count(a, m, keys, rest);
    }
}

/// After a compact transaction is read to its end, a note that one of its actions brings and that was
/// not known before is the account's: it is among the received and the unspent notes, with its
/// nullifier, at the block's height and at its position in the tree.
pub proof fn a_brought_note_is_unspent(
    st: ScanState,
    account_i: usize,
    keys: PreparedKeys,
    h: BlockHeight,
    tx: CompactTx,
    k: int,
    note: Note,
    nf: [u8; 32],
)
    requires
        account_i < st.wallet.accounts.len(),
        st.next + tx.actions@.len() <= u64::MAX,
        tx.hash@.len() == 32,
        0 <= k < tx.actions@.len(),
        compact_ok(tx.actions@[k]),
        compact_find(keys, tx.actions@[k]) == Some(note),
        note.value <= MAX_MONEY,
        nullifier_of(keys.orchard_fvk->Some_0, note) == Some(nf),
        forall|j: int|
            0 <= j < tx.actions@.len() && j != k ==> !brings(keys, #[trigger] tx.actions@[j], nf),
        !one_names(tx.actions@, nf@),
        none_with(st.wallet.accounts[account_i as int].unspent_orchard_notes, nf),
        none_with(st.wallet.accounts[account_i as int].recv_orchard_notes, nf),
        compact_tx_read(st, account_i, keys, h, tx).ok,
    ensures
        ({
            let r = compact_tx_read(st, account_i, keys, h, tx).wallet.accounts[account_i as int];
            let n = OrchardNote {
                recv_h: h,
                spent_h: BlockHeight(0),
                nf,
                txid: array_of::<32>(tx.hash@),
                note,
                position: (st.next + ok_count(tx.actions@.take(k))) as u64,
            };
            holds_alone(r.unspent_orchard_notes, n) && holds_alone(r.recv_orchard_notes, n)
        }),
{
    let a = st.wallet.accounts[account_i as int];
    let m = st.wallet.tx_h_map;
    let txid = compact_id(tx);
    let actions = tx.actions@;
    let start = compact_start(a, st.tree, st.next);
    let sights = compact_sights(keys, h, txid, st.next, actions);
    lemma_compact_sights(start, m, keys, h, txid, actions);
    lemma_names(keys, h, txid, st.next, actions, nf);
    lemma_sight_at(keys, h, txid, st.next, actions, k);
    let p = ok_count(actions.take(k)) as int;
    assert forall|q: int| 0 <= q < sights.len() && q != p implies received_nf(
        keys,
        #[trigger] sights[q],
    ) != Some(nf) by {
        let j = lemma_sight_of(keys, h, txid, st.next, actions, q);
        assert(!brings(keys, actions[j], nf));
    }
    lemma_brought(a, WalletTxPart::nothing(), m, keys, sights, p, nf);
}

/// Every well-formed action takes one position. Its commitment becomes the tree's next leaf where the
/// tree ends at that position, and is in the tree already where the tree goes further. A tree that ends
/// before the position ends the reading. Fields that are no action change nothing.
pub proof fn a_commitment_is_put_into_the_tree_once(
    st: CompactState,
    m: Map<TxId, BlockHeight>,
    keys: PreparedKeys,
    h: BlockHeight,
    txid: TxId,
    actions: Seq<CompactOrchardAction>,
    raw: CompactOrchardAction,
)
    ensures
        ({
            let b = compact_steps(st, m, keys, h, txid, actions);
            let r = compact_steps(st, m, keys, h, txid, actions.push(raw));
            let size = leaf_count(b.tree.shards);
            &&& r.ok ==> b.ok
            &&& !b.ok || !compact_ok(raw) ==> r == b
            &&& b.ok && compact_ok(raw) ==> {
                &&& r.ok <==> b.next < size || (b.next == size && tree_with_leaf(b.tree, raw.cmx@) is Some)
                &&& r.ok && b.next < u64::MAX ==> r.next == b.next + 1
                &&& r.ok && b.next < size ==> r.tree == b.tree
                &&& r.ok && b.next >= size ==> tree_with_leaf(b.tree, raw.cmx@) == Some(r.tree)
            }
        }),
{
    assert(actions.push(raw).drop_last() =~= actions);
    if compact_ok(raw) {
        the_fields_make_the_action(raw);
    }
}

/// What a key sees in the actions of a full transaction.
spec fn full_sights(
    keys: PreparedKeys,
    h: BlockHeight,
    txid: TxId,
    actions: Seq<OrchardAction>,
) -> Seq<ActionSight> {
    Seq::new(actions.len(), |i: int| full_sight(keys, h, txid, actions[i]))
}

proof fn lemma_full_sights(
    st: ShieldedState,
    m: Map<TxId, BlockHeight>,
    keys: PreparedKeys,
    h: BlockHeight,
    txid: TxId,
    actions: Seq<OrchardAction>,
)
    ensures
        ({
            let r = action_steps(st, m, keys, h, txid, actions);
            (r.account, r.part) == after_sights(
                st.account,
                st.part,
                m,
                keys,
                full_sights(keys, h, txid, actions),
            )
        }),
    decreases actions.len(),
{
    if actions.len() > 0 {
        let rest = actions.drop_last();
        lemma_full_sights(st, m, keys, h, txid, rest);
        assert(full_sights(keys, h, txid, actions).drop_last() =~= full_sights(
            keys,
            h,
            txid,
            rest,
        ));
    }
}

proof fn lemma_inputs_keep_notes(
    st: TransparentState,
    m: Map<TxId, BlockHeight>,
    h: BlockHeight,
    vin: Seq<OutPoint>,
)
    ensures
        same_notes(st.account, input_steps(st, m, h, vin).account),
    decreases vin.len(),
{
    if vin.len() > 0 {
        lemma_inputs_keep_notes(st, m, h, vin.drop_last());
    }
}

proof fn lemma_outputs_keep_notes(
    st: TransparentState,
    net: NetworkType,
    m: Map<TxId, BlockHeight>,
    h: BlockHeight,
    txid: TxId,
    vout: Seq<TxOut>,
)
    ensures
        same_notes(st.account, output_steps(st, net, m, h, txid, vout).account),
    decreases vout.len(),
{
    if vout.len() > 0 {
        lemma_outputs_keep_notes(st, net, m, h, txid, vout.drop_last());
    }
}

/// Whether two accounts have the same notes.
spec fn same_notes(a: AccountModel, b: AccountModel) -> bool {
    &&& a.recv_orchard_notes == b.recv_orchard_notes
    &&& a.unspent_orchard_notes == b.unspent_orchard_notes
    &&& a.spent_orchard_notes == b.spent_orchard_notes
}

/// The account after the transparent part of a transaction, which has the notes that it had, and the
/// sights of the actions.
proof fn lemma_full_read(
    a: AccountModel,
    net: NetworkType,
    m: Map<TxId, BlockHeight>,
    keys: PreparedKeys,
    h: BlockHeight,
    tx: FullTx,
)
    requires
        full_read(a, net, m, keys, h, tx).0 is Some,
    ensures
        ({
            let t = transparent_read(a, net, m, h, tx).account;
            let r = full_read(a, net, m, keys, h, tx).1;
            let sights = full_sights(keys, h, tx.txid, tx.actions@);
            &&& same_notes(a, t)
            &&& (r.account, r.part) == after_sights(t, WalletTxPart::nothing(), m, keys, sights)
        }),
{
    let start = TransparentState { account: a, part: Some(WalletTxPart::nothing()) };
    let t = transparent_read(a, net, m, h, tx);
    if let Some(b) = tx.transparent {
        let st = if b.is_coinbase {
            start
        } else {
            input_steps(start, m, h, b.vin@)
        };
        lemma_inputs_keep_notes(start, m, h, b.vin@);
        lemma_outputs_keep_notes(st, net, m, h, tx.txid, b.vout@);
    }
    lemma_full_sights(
        ShieldedState {
            account: t.account,
            part: WalletTxPart::nothing(),
            memo_count: 0,
            memo: no_memo(),
        },
        m,
        keys,
        h,
        tx.txid,
        tx.actions@,
    );
}

/// The note of a key that an action brings, as the one who receives it finds it.
pub open spec fn full_find(keys: PreparedKeys, a: OrchardAction) -> Option<FoundNote> {
    match keys.orchard_fvk {
        Some(fvk) => received_note(fvk, keys.scope == Scope::Internal, a.bytes()),
        None => None,
    }
}

/// The note that an action makes, as the one who sent it finds it.
pub open spec fn full_recover(keys: PreparedKeys, a: OrchardAction) -> Option<FoundNote> {
    match keys.orchard_fvk {
        Some(fvk) => if keys.finds_sent {
            sent_note(fvk, keys.scope == Scope::Internal, a.bytes())
        } else {
            None
        },
        None => None,
    }
}

/// Whether an action brings a note of a key with a nullifier.
pub open spec fn full_brings(keys: PreparedKeys, a: OrchardAction, nf: [u8; 32]) -> bool {
    full_find(keys, a) matches Some(f) && nullifier_of(keys.orchard_fvk->Some_0, f.note) == Some(nf)
}

/// Whether one of some actions reveals a nullifier.
pub open spec fn one_reveals(actions: Seq<OrchardAction>, nf: [u8; 32]) -> bool {
    exists|k: int| 0 <= k < actions.len() && (#[trigger] actions[k]).nullifier == nf
}

proof fn lemma_reveals(
    keys: PreparedKeys,
    h: BlockHeight,
    txid: TxId,
    actions: Seq<OrchardAction>,
    nf: [u8; 32],
)
    ensures
        ({
            let sights = full_sights(keys, h, txid, actions);
            &&& one_spends(sights, nf) <==> one_reveals(actions, nf)
            &&& (forall|k: int|
                0 <= k < actions.len() ==> !full_brings(keys, #[trigger] actions[k], nf))
                ==> none_brings(keys, sights, nf)
        }),
{
    let sights = full_sights(keys, h, txid, actions);
    if one_reveals(actions, nf) {
        let k = choose|k: int| 0 <= k < actions.len() && (#[trigger] actions[k]).nullifier == nf;
        assert(sights[k].spent_nf == nf);
    }
    if one_spends(sights, nf) {
        let k = choose|k: int| 0 <= k < sights.len() && (#[trigger] sights[k]).spent_nf == nf;
        assert(actions[k].nullifier == nf);
    }
    if forall|k: int| 0 <= k < actions.len() ==> !full_brings(keys, #[trigger] actions[k], nf) {
        assert forall|k: int| 0 <= k < sights.len() implies received_nf(keys, #[trigger] sights[k])
            != Some(nf) by {
            assert(!full_brings(keys, actions[k], nf));
        }
    }
}

/// After a full transaction is read, no note that was the account's before and whose nullifier one of its
/// actions reveals is unspent: it is among the spent notes, at the transaction's height. A note whose
/// nullifier none of them reveals stays unspent, and what was spent stays spent. Left out are nullifiers
/// of which the transaction itself brings a note.
pub proof fn a_revealed_note_is_spent(
    a: AccountModel,
    net: NetworkType,
    m: Map<TxId, BlockHeight>,
    keys: PreparedKeys,
    h: BlockHeight,
    tx: FullTx,
    n: OrchardNote,
)
    requires
        full_read(a, net, m, keys, h, tx).0 is Some,
        notes_differ(a.unspent_orchard_notes),
        forall|k: int|
            0 <= k < tx.actions@.len() ==> !full_brings(keys, #[trigger] tx.actions@[k], n.nf),
    ensures
        ({
            let r = full_read(a, net, m, keys, h, tx).1.account;
            &&& a.unspent_orchard_notes.contains(n) && one_reveals(tx.actions@, n.nf) ==> none_with(
                r.unspent_orchard_notes,
                n.nf,
            ) && r.spent_orchard_notes.contains(OrchardNote { spent_h: h, ..n })
            &&& a.unspent_orchard_notes.contains(n) && !one_reveals(tx.actions@, n.nf)
                ==> r.unspent_orchard_notes.contains(n)
            &&& a.spent_orchard_notes.contains(n) ==> r.spent_orchard_notes.contains(n)
        }),
{
    lemma_full_read(a, net, m, keys, h, tx);
    let t = transparent_read(a, net, m, h, tx).account;
    let sights = full_sights(keys, h, tx.txid, tx.actions@);
    lemma_reveals(keys, h, tx.txid, tx.actions@, n.nf);
    if a.unspent_orchard_notes.contains(n) {
        lemma_alone(a.unspent_orchard_notes, n);
        lemma_note_after(t, WalletTxPart::nothing(), m, keys, sights, h, n);
    }
    if a.spent_orchard_notes.contains(n) {
        lemma_spent_stays(t, WalletTxPart::nothing(), m, keys, sights, n);
    }
}

/// What the account's notes are worth that some actions spend.
pub open spec fn full_spent(a: AccountModel, actions: Seq<OrchardAction>) -> nat
    decreases actions.len(),
{
    if actions.len() == 0 {
        0
    } else {
        full_spent(a, actions.drop_last()) + own_worth(a, actions.last().nullifier)
    }
}

/// What a note that was found is worth, if one was.
pub open spec fn found_worth(f: Option<FoundNote>) -> nat {
    match f {
        Some(f) => f.note.value as nat,
        None => 0,
    }
}

/// What the notes of a key are worth that some actions bring.
pub open spec fn full_brought(keys: PreparedKeys, actions: Seq<OrchardAction>) -> nat
    decreases actions.len(),
{
    if actions.len() == 0 {
        0
    } else {
        full_brought(keys, actions.drop_last()) + found_worth(full_find(keys, actions.last()))
    }
}

/// What the notes are worth that a key sent by some actions.
pub open spec fn full_sent(keys: PreparedKeys, actions: Seq<OrchardAction>) -> nat
    decreases actions.len(),
{
    if actions.len() == 0 {
        0
    } else {
        full_sent(keys, actions.drop_last()) + found_worth(full_recover(keys, actions.last()))
    }
}

/// Whether everything that actions move can be counted: the notes that they bring have a nullifier and
/// an amount that can exist, and so do those that are sent have an amount, none of those nullifiers is
/// spent at once, and the sums can exist.
pub open spec fn full_countable(
    a: AccountModel,
    keys: PreparedKeys,
    actions: Seq<OrchardAction>,
) -> bool {
    &&& actions.len() <= usize::MAX
    &&& forall|k: int|
        0 <= k < actions.len() ==> (full_find(keys, #[trigger] actions[k]) matches Some(f)
            ==> f.note.value <= MAX_MONEY && nullifier_of(keys.orchard_fvk->Some_0, f.note) is Some)
    &&& forall|k: int|
        0 <= k < actions.len() ==> (full_recover(keys, #[trigger] actions[k]) matches Some(f)
            ==> f.note.value <= MAX_MONEY)
    &&& forall|j: int, k: int|
        0 <= j < actions.len() && 0 <= k < actions.len() ==> !full_brings(
            keys,
            #[trigger] actions[k],
            (#[trigger] actions[j]).nullifier,
        )
    &&& full_spent(a, actions) <= MAX_MONEY
    &&& full_brought(keys, actions) <= MAX_MONEY
    &&& full_sent(keys, actions) <= MAX_MONEY
}

proof fn lemma_full_totals(
    a: AccountModel,
    keys: PreparedKeys,
    h: BlockHeight,
    txid: TxId,
    actions: Seq<OrchardAction>,
)
    ensures
        ({
            let sights = full_sights(keys, h, txid, actions);
            &&& spent_total(a, sights) == full_spent(a, actions)
            &&& brought_total(sights) == full_brought(keys, actions)
            &&& sent_total(sights) == full_sent(keys, actions)
        }),
    decreases actions.len(),
{
    if actions.len() > 0 {
        lemma_full_totals(a, keys, h, txid, actions.drop_last());
        assert(full_sights(keys, h, txid, actions).drop_last() =~= full_sights(
            keys,
            h,
            txid,
            actions.drop_last(),
        ));
    }
}

/// What the shielded part of a full transaction counts is exactly what moves: as spent what the account's
/// notes are worth whose nullifiers its actions reveal, as received what the notes are worth that it
/// brings to the key, and as sent what the notes are worth that the key can tell to have made.
pub proof fn the_actions_are_counted(
    a: AccountModel,
    net: NetworkType,
    m: Map<TxId, BlockHeight>,
    keys: PreparedKeys,
    h: BlockHeight,
    tx: FullTx,
)
    requires
        full_read(a, net, m, keys, h, tx).0 is Some,
        notes_sound(a),
        full_countable(a, keys, tx.actions@),
    ensures
        ({
            let p = full_read(a, net, m, keys, h, tx).1.part;
            &&& p.spent_zats.zats == full_spent(a, tx.actions@)
            &&& p.recv_zats.zats == full_brought(keys, tx.actions@)
            &&& p.sent_zats.zats == full_sent(keys, tx.actions@)
        }),
{
    lemma_full_read(a, net, m, keys, h, tx);
    let t = transparent_read(a, net, m, h, tx).account;
    let sights = full_sights(keys, h, tx.txid, tx.actions@);
    lemma_full_totals(a, keys, h, tx.txid, tx.actions@);
    lemma_same_totals(a, t, sights);
    assert forall|k: int| 0 <= k < sights.len() implies sight_ok(keys, #[trigger] sights[k])
        && none_brings(keys, sights, sights[k].spent_nf) by {
        lemma_reveals(keys, h, tx.txid, tx.actions@, sights[k].spent_nf);
        assert(full_find(keys, tx.actions@[k]) is Some || full_find(keys, tx.actions@[k]) is None);
        assert forall|j: int| 0 <= j < tx.actions@.len() implies !full_brings(
            keys,
            #[trigger] tx.actions@[j],
            sights[k].spent_nf,
        ) by {
            assert(tx.actions@[k].nullifier == sights[k].spent_nf);
        }
    }
    lemma_part_counts(t, m, keys, sights);
}

proof fn lemma_same_totals(a: AccountModel, b: AccountModel, sights: Seq<ActionSight>)
    requires
        same_notes(a, b),
    ensures
        spent_total(a, sights) == spent_total(b, sights),
    decreases sights.len(),
{
    if sights.len() > 0 {
        lemma_same_totals(a, b, sights.drop_last());
    }
}

/// After a full transaction is read, a note that one of its actions brings and that was not known before
/// is the account's: it is among the received and the unspent notes, with its nullifier and at the
/// transaction's height. Its position is left open.
pub proof fn a_found_note_is_unspent(
    a: AccountModel,
    net: NetworkType,
    m: Map<TxId, BlockHeight>,
    keys: PreparedKeys,
    h: BlockHeight,
    tx: FullTx,
    k: int,
    nf: [u8; 32],
)
    requires
        full_read(a, net, m, keys, h, tx).0 is Some,
        0 <= k < tx.actions@.len(),
        full_find(keys, tx.actions@[k]) is Some,
        full_find(keys, tx.actions@[k])->Some_0.note.value <= MAX_MONEY,
        full_recover(keys, tx.actions@[k]) matches Some(f) ==> f.note.value <= MAX_MONEY,
        full_brings(keys, tx.actions@[k], nf),
        forall|j: int|
            0 <= j < tx.actions@.len() && j != k ==> !full_brings(
                keys,
                #[trigger] tx.actions@[j],
                nf,
            ),
        !one_reveals(tx.actions@, nf),
        none_with(a.unspent_orchard_notes, nf),
        none_with(a.recv_orchard_notes, nf),
    ensures
        ({
            let r = full_read(a, net, m, keys, h, tx).1.account;
            let n = OrchardNote {
                recv_h: h,
                spent_h: BlockHeight(0),
                nf,
                txid: tx.txid,
                note: full_find(keys, tx.actions@[k])->Some_0.note,
                position: UNKNOWN_TREE_POSITION,
            };
            holds_alone(r.unspent_orchard_notes, n) && holds_alone(r.recv_orchard_notes, n)
        }),
{
    lemma_full_read(a, net, m, keys, h, tx);
    let t = transparent_read(a, net, m, h, tx).account;
    let sights = full_sights(keys, h, tx.txid, tx.actions@);
    lemma_reveals(keys, h, tx.txid, tx.actions@, nf);
    assert forall|j: int| 0 <= j < sights.len() && j != k implies received_nf(
        keys,
        #[trigger] sights[j],
    ) != Some(nf) by {
        assert(!full_brings(keys, tx.actions@[j], nf));
    }
    lemma_brought(t, WalletTxPart::nothing(), m, keys, sights, k, nf);
}

/// The memo that the wallet sees in an action: that of the note that it receives, or else of the one that
/// it sent, unless the memo says nothing.
pub open spec fn seen_memo(keys: PreparedKeys, a: OrchardAction) -> Option<[u8; 512]> {
    let f = if full_find(keys, a) is Some {
        full_find(keys, a)
    } else {
        full_recover(keys, a)
    };
    if f is Some && f->Some_0.memo@[0] != 0xf6 {
        Some(f->Some_0.memo)
    } else {
        None
    }
}

/// In how many of some actions the wallet sees a memo.
pub open spec fn memos_seen(keys: PreparedKeys, actions: Seq<OrchardAction>) -> nat
    decreases actions.len(),
{
    if actions.len() == 0 {
        0
    } else {
        memos_seen(keys, actions.drop_last()) + if seen_memo(keys, actions.last()) is Some {
            1nat
        } else {
            0
        }
    }
}

/// A full transaction shows the memo of the last action that carries one, and counts those that do. With
/// none it shows none.
pub proof fn the_last_memo_is_shown(
    a: AccountModel,
    net: NetworkType,
    m: Map<TxId, BlockHeight>,
    keys: PreparedKeys,
    h: BlockHeight,
    tx: FullTx,
    k: int,
)
    requires
        full_read(a, net, m, keys, h, tx).0 is Some,
        0 <= k <= tx.actions@.len(),
        forall|j: int|
            k <= j < tx.actions@.len() ==> seen_memo(keys, #[trigger] tx.actions@[j]) is None,
    ensures
        ({
            let r = full_read(a, net, m, keys, h, tx).1;
            &&& r.memo_count == memos_seen(keys, tx.actions@)
            &&& k == 0 ==> is_blank_memo(r.memo)
            &&& k > 0 && seen_memo(keys, tx.actions@[k - 1]) is Some ==> r.memo == seen_memo(
                keys,
                tx.actions@[k - 1],
            )->Some_0
        }),
{
    let start = ShieldedState {
        account: transparent_read(a, net, m, h, tx).account,
        part: WalletTxPart::nothing(),
        memo_count: 0,
        memo: no_memo(),
    };
    lemma_array_holds::<512>(Seq::new(512, |i: int| if i == 0 { 0xf6u8 } else { 0u8 }));
    lemma_memo(start, m, keys, h, tx.txid, tx.actions@, k);
}

proof fn lemma_memo(
    st: ShieldedState,
    m: Map<TxId, BlockHeight>,
    keys: PreparedKeys,
    h: BlockHeight,
    txid: TxId,
    actions: Seq<OrchardAction>,
    k: int,
)
    requires
        0 <= k <= actions.len(),
        forall|j: int| k <= j < actions.len() ==> seen_memo(keys, #[trigger] actions[j]) is None,
    ensures
        ({
            let r = action_steps(st, m, keys, h, txid, actions);
            &&& r.memo_count == st.memo_count + memos_seen(keys, actions)
            &&& k == 0 ==> r.memo == st.memo
            &&& k > 0 && seen_memo(keys, actions[k - 1]) is Some ==> r.memo == seen_memo(
                keys,
                actions[k - 1],
            )->Some_0
        }),
    decreases actions.len(),
{
    if actions.len() > 0 {
        let rest = actions.drop_last();
        let last = actions.len() - 1;
        assert(actions[last] == actions.last());
        assert forall|j: int| 0 <= j < rest.len() implies #[trigger] rest[j] == actions[j] by {}
        lemma_memo(st, m, keys, h, txid, rest, if k <= last { k } else { last as int });
        if k <= last {
            assert(seen_memo(keys, actions[last]) is None);
        }
    }
}

proof fn lemma_seen_again(s: Seq<OrchardNote>, x: OrchardNote, at: BlockHeight, n: OrchardNote)
    requires
        holds_alone(s, n),
        n.nf == x.nf,
        n.recv_h == at,
    ensures
        holds_alone(
            after_sighting(s, x, at),
            if x.position < UNKNOWN_TREE_POSITION {
                OrchardNote { position: x.position, ..n }
            } else {
                n
            },
        ),
{
    let p = choose|p: int|
        0 <= p < s.len() && #[trigger] s[p] == n && forall|k: int|
            0 <= k < s.len() && k != p ==> (#[trigger] s[k]).nf != n.nf;
    lemma_find_at(s, Order::Recv, at.0, x.nf);
    assert(s[p].at(Order::Recv) == at.0 && s[p].id() == x.nf);
    let i = find_at(s, Order::Recv, at.0, x.nf)->Some_0;
    assert(s[i].nf == n.nf);
    assert(i == p);
    let t = after_sighting(s, x, at);
    let y = if x.position < UNKNOWN_TREE_POSITION {
        OrchardNote { position: x.position, ..n }
    } else {
        n
    };
    assert(t[p] == y);
    assert forall|k: int| 0 <= k < t.len() && k != p implies (#[trigger] t[k]).nf != y.nf by {
        assert(t[k] == s[k]);
    }
}

proof fn lemma_brought_again(
    a: AccountModel,
    part: WalletTxPart,
    m: Map<TxId, BlockHeight>,
    keys: PreparedKeys,
    sights: Seq<ActionSight>,
    k: int,
    nf: [u8; 32],
    n: OrchardNote,
)
    requires
        0 <= k < sights.len(),
        sight_ok(keys, sights[k]),
        sights[k].received is Some,
        received_nf(keys, sights[k]) == Some(nf),
        forall|j: int|
            0 <= j < sights.len() && j != k ==> received_nf(keys, #[trigger] sights[j]) != Some(nf),
        !one_spends(sights, nf),
        n.nf == nf,
        n.recv_h == known_height(m, sights[k].txid, sights[k].block_h),
        holds_alone(a.recv_orchard_notes, n),
    ensures
        ({
            let r = after_sights(a, part, m, keys, sights).0;
            let y = if sights[k].position < UNKNOWN_TREE_POSITION {
                OrchardNote { position: sights[k].position, ..n }
            } else {
                n
            };
            &&& holds_alone(r.recv_orchard_notes, y)
            &&& holds_alone(a.unspent_orchard_notes, n) ==> holds_alone(r.unspent_orchard_notes, y)
            &&& none_with(a.unspent_orchard_notes, nf) ==> none_with(r.unspent_orchard_notes, nf)
        }),
    decreases sights.len(),
{
    let rest = sights.drop_last();
    let last = sights.len() - 1;
    lemma_rest(keys, sights, nf);
    assert(sights[last] == sights.last());
    assert forall|j: int| 0 <= j < rest.len() implies #[trigger] rest[j] == sights[j] by {}
    let b = after_sights(a, part, m, keys, rest).0;
    if k < last {
        lemma_brought_again(a, part, m, keys, rest, k, nf, n);
        lemma_action_on_note(b, m, keys, sights.last(), nf);
    } else {
        assert forall|j: int| 0 <= j < rest.len() implies received_nf(keys, #[trigger] rest[j])
            != Some(nf) by {
            assert(received_nf(keys, sights[j]) != Some(nf));
        }
        lemma_untouched(a, part, m, keys, rest, nf, n);
        let s = sights.last();
        let c = after_spend(b, s.spent_nf, s.block_h);
        lemma_find_id(b.unspent_orchard_notes, s.spent_nf);
        if let Some(i) = find_id(b.unspent_orchard_notes, s.spent_nf) {
            lemma_removed(b.unspent_orchard_notes, i);
            assert(b.unspent_orchard_notes[i].nf == s.spent_nf);
        }
        let x = new_note(s, nf);
        let at = known_height(m, s.txid, s.block_h);
        lemma_seen_again(c.recv_orchard_notes, x, at, n);
        lemma_find_at(c.recv_orchard_notes, Order::Recv, at.0, nf);
        lemma_find_at(c.unspent_orchard_notes, Order::Recv, at.0, nf);
        let p = choose|p: int|
            0 <= p < c.recv_orchard_notes.len() && #[trigger] c.recv_orchard_notes[p] == n && forall|
                j: int,
            |
                0 <= j < c.recv_orchard_notes.len() && j != p ==> (
                #[trigger] c.recv_orchard_notes[j]).nf != n.nf;
        assert(c.recv_orchard_notes[p].at(Order::Recv) == at.0 && c.recv_orchard_notes[p].id() == nf);
        if holds_alone(a.unspent_orchard_notes, n) {
            assert(holds_alone(c.unspent_orchard_notes, n));
            lemma_seen_again(c.unspent_orchard_notes, x, at, n);
            let q = choose|q: int|
                0 <= q < c.unspent_orchard_notes.len() && #[trigger] c.unspent_orchard_notes[q] == n
                    && forall|j: int|
                    0 <= j < c.unspent_orchard_notes.len() && j != q ==> (
                    #[trigger] c.unspent_orchard_notes[j]).nf != n.nf;
            assert(c.unspent_orchard_notes[q].at(Order::Recv) == at.0
                && c.unspent_orchard_notes[q].id() == nf);
        }
        if none_with(a.unspent_orchard_notes, nf) {
            if let Some(i) = find_at(c.unspent_orchard_notes, Order::Recv, at.0, nf) {
                assert(c.unspent_orchard_notes[i].nf == nf);
            }
        }
        assert(after_action(b, m, keys, s) == after_receive(c, x, at));
    }
}

proof fn lemma_untouched(
    a: AccountModel,
    part: WalletTxPart,
    m: Map<TxId, BlockHeight>,
    keys: PreparedKeys,
    sights: Seq<ActionSight>,
    nf: [u8; 32],
    n: OrchardNote,
)
    requires
        none_brings(keys, sights, nf),
        !one_spends(sights, nf),
        n.nf == nf,
    ensures
        ({
            let r = after_sights(a, part, m, keys, sights).0;
            &&& holds_alone(a.recv_orchard_notes, n) ==> holds_alone(r.recv_orchard_notes, n)
            &&& holds_alone(a.unspent_orchard_notes, n) ==> holds_alone(r.unspent_orchard_notes, n)
            &&& none_with(a.unspent_orchard_notes, nf) ==> none_with(r.unspent_orchard_notes, nf)
        }),
    decreases sights.len(),
{
    if sights.len() > 0 {
        lemma_rest(keys, sights, nf);
        lemma_untouched(a, part, m, keys, sights.drop_last(), nf, n);
        lemma_action_on_note(
            after_sights(a, part, m, keys, sights.drop_last()).0,
            m,
            keys,
            sights.last(),
            nf,
        );
    }
}

/// When a compact transaction is read to its end that brings a note which is known already at the height
/// of the transaction, the note is not received again: it takes over its position in the tree, and stays
/// unspent if it was. One that was spent does not come back.
pub proof fn a_known_note_takes_its_position(
    st: ScanState,
    account_i: usize,
    keys: PreparedKeys,
    h: BlockHeight,
    tx: CompactTx,
    k: int,
    note: Note,
    n: OrchardNote,
)
    requires
        account_i < st.wallet.accounts.len(),
        st.next + tx.actions@.len() < u64::MAX,
        tx.hash@.len() == 32,
        0 <= k < tx.actions@.len(),
        compact_ok(tx.actions@[k]),
        compact_find(keys, tx.actions@[k]) == Some(note),
        note.value <= MAX_MONEY,
        nullifier_of(keys.orchard_fvk->Some_0, note) == Some(n.nf),
        forall|j: int|
            0 <= j < tx.actions@.len() && j != k ==> !brings(keys, #[trigger] tx.actions@[j], n.nf),
        !one_names(tx.actions@, n.nf@),
        holds_alone(st.wallet.accounts[account_i as int].recv_orchard_notes, n),
        n.recv_h == if st.wallet.tx_h_map.contains_key(array_of::<32>(tx.hash@)) {
            st.wallet.tx_h_map[array_of::<32>(tx.hash@)]
        } else {
            h
        },
        compact_tx_read(st, account_i, keys, h, tx).ok,
    ensures
        ({
            let a = st.wallet.accounts[account_i as int];
            let r = compact_tx_read(st, account_i, keys, h, tx).wallet.accounts[account_i as int];
            let y = OrchardNote {
                position: (st.next + ok_count(tx.actions@.take(k))) as u64,
                ..n
            };
            &&& holds_alone(r.recv_orchard_notes, y)
            &&& holds_alone(a.unspent_orchard_notes, n) ==> holds_alone(r.unspent_orchard_notes, y)
            &&& none_with(a.unspent_orchard_notes, n.nf) ==> none_with(
                r.unspent_orchard_notes,
                n.nf,
            )
        }),
{
    let a = st.wallet.accounts[account_i as int];
    let m = st.wallet.tx_h_map;
    let txid = compact_id(tx);
    let actions = tx.actions@;
    let start = compact_start(a, st.tree, st.next);
    let sights = compact_sights(keys, h, txid, st.next, actions);
    lemma_compact_sights(start, m, keys, h, txid, actions);
    lemma_names(keys, h, txid, st.next, actions, n.nf);
    lemma_sight_at(keys, h, txid, st.next, actions, k);
    lemma_ok_count(actions.take(k));
    let p = ok_count(actions.take(k)) as int;
    assert forall|q: int| 0 <= q < sights.len() && q != p implies received_nf(
        keys,
        #[trigger] sights[q],
    ) != Some(n.nf) by {
        let j = lemma_sight_of(keys, h, txid, st.next, actions, q);
        assert(!brings(keys, actions[j], n.nf));
    }
    lemma_brought_again(a, WalletTxPart::nothing(), m, keys, sights, p, n.nf, n);
}

/// The entry of a full transaction says what was read of it: its id, height and state, when it expires,
/// whether it is a coinbase, its staking action, and that every part was looked at.
pub proof fn a_full_entry_says_what_was_read(
    tx: FullTx,
    h: BlockHeight,
    t: WalletTxPart,
    s: ShieldedState,
    status: TxStatus,
)
    requires
        s.memo_count <= usize::MAX,
    ensures
        ({
            let e = full_entry(tx, h, t, s, status);
            &&& e.txid == tx.txid
            &&& e.h == h
            &&& e.status == status
            &&& e.parts[0] == t
            &&& e.parts[1] == s.part
            &&& e.memo == s.memo
            &&& e.memo_count == s.memo_count
            &&& e.staking_action == tx.staking_action
            &&& e.part_flags == 31
            &&& tx.expiry_height == 0 ==> e.expiry_h is None
            &&& tx.expiry_height != 0 ==> e.expiry_h == Some(BlockHeight(tx.expiry_height))
            &&& e.is_coinbase <==> tx.transparent is Some && tx.transparent->Some_0.is_coinbase
        }),
{
    let e = full_entry(tx, h, t, s, status);
    assert(e.parts@[0] == t && e.parts@[1] == s.part);
}

proof fn lemma_tx_on_note(
    st: ScanState,
    account_i: usize,
    keys: PreparedKeys,
    h: BlockHeight,
    tx: CompactTx,
    n: OrchardNote,
)
    requires
        account_i < st.wallet.accounts.len(),
        st.next + tx.actions@.len() <= u64::MAX,
        forall|k: int|
            0 <= k < tx.actions@.len() ==> !brings(keys, #[trigger] tx.actions@[k], n.nf),
        compact_tx_read(st, account_i, keys, h, tx).ok,
    ensures
        ({
            let a = st.wallet.accounts[account_i as int];
            let after = compact_tx_read(st, account_i, keys, h, tx);
            let r = after.wallet.accounts[account_i as int];
            &&& after.wallet.accounts.len() == st.wallet.accounts.len()
            &&& after.next <= st.next + tx.actions@.len()
            &&& holds_alone(a.unspent_orchard_notes, n) && one_names(tx.actions@, n.nf@) ==> none_with(
                r.unspent_orchard_notes,
                n.nf,
            ) && r.spent_orchard_notes.contains(OrchardNote { spent_h: h, ..n })
            &&& holds_alone(a.unspent_orchard_notes, n) && !one_names(tx.actions@, n.nf@)
                ==> holds_alone(r.unspent_orchard_notes, n)
            &&& none_with(a.unspent_orchard_notes, n.nf) ==> none_with(r.unspent_orchard_notes, n.nf)
            &&& forall|x: OrchardNote|
                #[trigger] a.spent_orchard_notes.contains(x) ==> r.spent_orchard_notes.contains(x)
        }),
{
    let a = st.wallet.accounts[account_i as int];
    let m = st.wallet.tx_h_map;
    let txid = compact_id(tx);
    let start = compact_start(a, st.tree, st.next);
    let sights = compact_sights(keys, h, txid, st.next, tx.actions@);
    lemma_compact_sights(start, m, keys, h, txid, tx.actions@);
    lemma_names(keys, h, txid, st.next, tx.actions@, n.nf);
    if holds_alone(a.unspent_orchard_notes, n) {
        lemma_note_after(a, WalletTxPart::nothing(), m, keys, sights, h, n);
    }
    if none_with(a.unspent_orchard_notes, n.nf) {
        lemma_none_stays(a, WalletTxPart::nothing(), m, keys, sights, n.nf);
    }
    let r = compact_tx_read(st, account_i, keys, h, tx).wallet.accounts[account_i as int];
    assert forall|x: OrchardNote| #[trigger] a.spent_orchard_notes.contains(x) implies r.spent_orchard_notes.contains(
        x,
    ) by {
        lemma_spent_stays(a, WalletTxPart::nothing(), m, keys, sights, x);
    }
}

proof fn lemma_none_stays(
    a: AccountModel,
    part: WalletTxPart,
    m: Map<TxId, BlockHeight>,
    keys: PreparedKeys,
    sights: Seq<ActionSight>,
    nf: [u8; 32],
)
    requires
        none_brings(keys, sights, nf),
        none_with(a.unspent_orchard_notes, nf),
    ensures
        none_with(after_sights(a, part, m, keys, sights).0.unspent_orchard_notes, nf),
    decreases sights.len(),
{
    if sights.len() > 0 {
        lemma_rest(keys, sights, nf);
        lemma_none_stays(a, part, m, keys, sights.drop_last(), nf);
        lemma_action_on_note(
            after_sights(a, part, m, keys, sights.drop_last()).0,
            m,
            keys,
            sights.last(),
            nf,
        );
    }
}

/// Whether a transaction of a block has a well-formed action with a nullifier.
pub open spec fn a_tx_names(vtx: Seq<CompactTx>, nf: Seq<u8>) -> bool {
    exists|j: int| 0 <= j < vtx.len() && one_names((#[trigger] vtx[j]).actions@, nf)
}

/// Whether no transaction of a block brings a note of a key with a nullifier.
pub open spec fn no_tx_brings(keys: PreparedKeys, vtx: Seq<CompactTx>, nf: [u8; 32]) -> bool {
    forall|j: int, k: int|
        0 <= j < vtx.len() && 0 <= k < vtx[j].actions@.len() ==> !brings(
            keys,
            #[trigger] vtx[j].actions@[k],
            nf,
        )
}

proof fn lemma_txs_on_note(
    st: ScanState,
    account_i: usize,
    keys: PreparedKeys,
    h: BlockHeight,
    vtx: Seq<CompactTx>,
    n: OrchardNote,
)
    requires
        account_i < st.wallet.accounts.len(),
        st.next + action_count(vtx) <= u64::MAX,
        no_tx_brings(keys, vtx, n.nf),
        holds_alone(st.wallet.accounts[account_i as int].unspent_orchard_notes, n),
        scan_txs(st, account_i, keys, h, vtx).ok,
    ensures
        ({
            let after = scan_txs(st, account_i, keys, h, vtx);
            let r = after.wallet.accounts[account_i as int];
            &&& after.wallet.accounts.len() == st.wallet.accounts.len()
            &&& after.next <= st.next + action_count(vtx)
            &&& a_tx_names(vtx, n.nf@) ==> none_with(r.unspent_orchard_notes, n.nf)
                && r.spent_orchard_notes.contains(OrchardNote { spent_h: h, ..n })
            &&& !a_tx_names(vtx, n.nf@) ==> holds_alone(r.unspent_orchard_notes, n)
        }),
    decreases vtx.len(),
{
    if vtx.len() > 0 {
        let rest = vtx.drop_last();
        let last = vtx.len() - 1;
        let tx = vtx.last();
        let before = scan_txs(st, account_i, keys, h, rest);
        assert(before.ok);
        assert(vtx[last] == tx);
        assert forall|j: int| 0 <= j < rest.len() implies #[trigger] rest[j] == vtx[j] by {}
        assert forall|j: int, k: int|
            0 <= j < rest.len() && 0 <= k < rest[j].actions@.len() implies !brings(
            keys,
            #[trigger] rest[j].actions@[k],
            n.nf,
        ) by {
            assert(!brings(keys, vtx[j].actions@[k], n.nf));
        }
        lemma_txs_on_note(st, account_i, keys, h, rest, n);
        assert forall|k: int| 0 <= k < tx.actions@.len() implies !brings(
            keys,
            #[trigger] tx.actions@[k],
            n.nf,
        ) by {
            assert(!brings(keys, vtx[last].actions@[k], n.nf));
        }
        lemma_tx_on_note(before, account_i, keys, h, tx, n);
        if a_tx_names(rest, n.nf@) {
            let j = choose|j: int|
                0 <= j < rest.len() && one_names((#[trigger] rest[j]).actions@, n.nf@);
            assert(one_names(vtx[j].actions@, n.nf@));
        }
        if a_tx_names(vtx, n.nf@) {
            let j = choose|j: int|
                0 <= j < vtx.len() && one_names((#[trigger] vtx[j]).actions@, n.nf@);
            if j < last {
                assert(one_names(rest[j].actions@, n.nf@));
            }
        }
    }
}

/// After a block is read to its end, an unspent note of the account is spent exactly where a transaction
/// of the block names its nullifier: it is then among the spent notes at the block's height and no note
/// with the nullifier is unspent; otherwise it is unspent still. Left out are nullifiers of which the
/// block itself brings a note.
pub proof fn a_note_named_in_a_block_is_spent(
    st: ScanState,
    account_i: usize,
    keys: PreparedKeys,
    b: CompactBlock,
    n: OrchardNote,
)
    requires
        account_i < st.wallet.accounts.len(),
        b.height <= u32::MAX,
        st.next + action_count(b.vtx@) <= u64::MAX,
        no_tx_brings(keys, b.vtx@, n.nf),
        holds_alone(st.wallet.accounts[account_i as int].unspent_orchard_notes, n),
        scan_block(st, account_i, keys, b).ok,
    ensures
        ({
            let r = scan_block(st, account_i, keys, b).wallet.accounts[account_i as int];
            &&& a_tx_names(b.vtx@, n.nf@) ==> none_with(r.unspent_orchard_notes, n.nf)
                && r.spent_orchard_notes.contains(
                OrchardNote { spent_h: BlockHeight(b.height as u32), ..n },
            )
            &&& !a_tx_names(b.vtx@, n.nf@) ==> r.unspent_orchard_notes.contains(n)
        }),
{
    let h = BlockHeight(b.height as u32);
    let start = ScanState { insert_i: place_from(st.wallet.txs, st.insert_i, h.0), ..st };
    lemma_txs_on_note(start, account_i, keys, h, b.vtx@, n);
}

} // verus!
