//! What a wallet learns from an orchard action.
use crate::accounts::{note_amounts_ok, AccountModel, ManualAccount, ManualWallet, WalletModel};
use crate::height::BlockHeight;
use crate::listing::{
    find_at, find_id, in_order, insert_by_height, inserting_keeps_the_order, lemma_find_at,
    lemma_find_id, lemma_place, place, position_at, position_of, with_item, Listed, Order,
};
use crate::notes::{Note, OrchardNote, TxId};
use crate::orchard_scan::{note_nullifier, nullifier_of, PreparedKeys};
use crate::tx_part::WalletTxPart;
use crate::zats::{Zatoshis, MAX_MONEY};
use vstd::prelude::*;

verus! {

/// An account after the note with a nullifier was spent at a height: it moves from the notes that
/// are not spent to those that are.
pub open spec fn after_spend(a: AccountModel, nf: [u8; 32], h: BlockHeight) -> AccountModel {
    match find_id(a.unspent_orchard_notes, nf) {
        Some(i) => AccountModel {
            unspent_orchard_notes: a.unspent_orchard_notes.remove(i),
            spent_orchard_notes: with_item(
                a.spent_orchard_notes,
                Order::Spent,
                OrchardNote { spent_h: h, ..a.unspent_orchard_notes[i] },
            ),
            ..a
        },
        None => a,
    }
}

/// The amount of the account's note with a nullifier: one that is not spent, or else one that is.
pub open spec fn spent_amount(a: AccountModel, nf: [u8; 32]) -> Option<u64> {
    match find_id(a.unspent_orchard_notes, nf) {
        Some(i) => Some(a.unspent_orchard_notes[i].note.value),
        None => match find_id(a.spent_orchard_notes, nf) {
            Some(i) => Some(a.spent_orchard_notes[i].note.value),
            None => None,
        },
    }
}

/// Received notes after a sighting of one that is known to stand at a height, if it is known.
pub open spec fn after_sighting(s: Seq<OrchardNote>, n: OrchardNote, at: BlockHeight) -> Seq<
    OrchardNote,
> {
    match find_at(s, Order::Recv, at.0, n.nf) {
        Some(i) => s.update(i, s[i].updated(n)),
        None => with_item(s, Order::Recv, n),
    }
}

/// An account after a note was received. One that was seen before is not received again: only its
/// position is taken over.
pub open spec fn after_receive(a: AccountModel, n: OrchardNote, at: BlockHeight) -> AccountModel {
    AccountModel {
        recv_orchard_notes: after_sighting(a.recv_orchard_notes, n, at),
        unspent_orchard_notes: if find_at(a.unspent_orchard_notes, Order::Recv, at.0, n.nf) is None
            && find_at(a.recv_orchard_notes, Order::Recv, at.0, n.nf) is Some {
            a.unspent_orchard_notes
        } else {
            after_sighting(a.unspent_orchard_notes, n, at)
        },
        ..a
    }
}

/// What an action tells the wallet.
pub struct ActionSight {
    /// The position of the new note in the commitment tree.
    pub position: u64,
    pub block_h: BlockHeight,
    pub txid: TxId,
    /// The nullifier of the note that is spent.
    pub spent_nf: [u8; 32],
    /// The new note, if the wallet receives it.
    pub received: Option<Note>,
    /// The new note, if the wallet sent it.
    pub sent: Option<Note>,
}

/// The amount of a note, if there is one.
pub open spec fn opt_amount(n: Option<Note>) -> Option<u64> {
    match n {
        Some(n) => Some(n.value),
        None => None,
    }
}

/// Whether the amount of a note, if there is one, can exist.
pub open spec fn amount_ok(n: Option<Note>) -> bool {
    n matches Some(n) ==> n.value <= MAX_MONEY
}

/// What an action moves.
pub open spec fn moved(spent: Option<u64>, sent: Option<u64>, received: Option<u64>) -> WalletTxPart {
    WalletTxPart {
        spent_note_count: if spent is Some { 1 } else { 0 },
        spent_zats: Zatoshis { zats: if let Some(v) = spent { v } else { 0 } },
        sent_note_count: if sent is Some { 1 } else { 0 },
        sent_zats: Zatoshis { zats: if let Some(v) = sent { v } else { 0 } },
        recv_note_count: if received is Some { 1 } else { 0 },
        recv_zats: Zatoshis { zats: if let Some(v) = received { v } else { 0 } },
    }
}

/// The nullifier of the received note, if a note is received.
pub open spec fn received_nf(keys: PreparedKeys, s: ActionSight) -> Option<[u8; 32]> {
    match (s.received, keys.orchard_fvk) {
        (Some(n), Some(fvk)) => nullifier_of(fvk, n),
        _ => None,
    }
}

/// Whether an action can be accounted for: its amounts can exist, and a received note has a
/// nullifier.
pub open spec fn sight_ok(keys: PreparedKeys, s: ActionSight) -> bool {
    amount_ok(s.sent) && amount_ok(s.received) && (s.received is Some ==> received_nf(keys, s) is Some)
}

/// The height at which a transaction is known to stand, or else that of the block it is seen in.
pub open spec fn known_height(m: Map<TxId, BlockHeight>, txid: TxId, block_h: BlockHeight) -> BlockHeight {
    if m.contains_key(txid) {
        m[txid]
    } else {
        block_h
    }
}

/// The note that an action brings.
pub open spec fn new_note(s: ActionSight, nf: [u8; 32]) -> OrchardNote {
    OrchardNote {
        recv_h: s.block_h,
        spent_h: BlockHeight(0),
        nf,
        txid: s.txid,
        note: s.received->Some_0,
        position: s.position,
    }
}

/// An account after an action. What is spent is entered in any case; what is received only if the
/// action can be accounted for.
pub open spec fn after_action(
    a: AccountModel,
    m: Map<TxId, BlockHeight>,
    keys: PreparedKeys,
    s: ActionSight,
) -> AccountModel {
    let spent = after_spend(a, s.spent_nf, s.block_h);
    if sight_ok(keys, s) && s.received is Some {
        after_receive(
            spent,
            new_note(s, received_nf(keys, s)->Some_0),
            known_height(m, s.txid, s.block_h),
        )
    } else {
        spent
    }
}

/// What an action moves, if it can be accounted for.
pub open spec fn action_part(a: AccountModel, keys: PreparedKeys, s: ActionSight) -> Option<WalletTxPart> {
    if sight_ok(keys, s) {
        Some(moved(spent_amount(a, s.spent_nf), opt_amount(s.sent), opt_amount(s.received)))
    } else {
        None
    }
}

fn enter_sighting(v: &mut Vec<OrchardNote>, n: &OrchardNote, at: BlockHeight)
    ensures
        final(v)@ == after_sighting(old(v)@, *n, at),
{
    match position_at(v, Order::Recv, at, &n.nf) {
        Some(i) => {
            let mut seen = v[i];
            seen.monotonically_update(n);
            v.set(i, seen);
        },
        None => insert_by_height(v, Order::Recv, *n),
    }
}

fn receive_note(account: &mut ManualAccount, n: &OrchardNote, at: BlockHeight)
    ensures
        final(account)@ == after_receive(old(account)@, *n, at),
{
    let seen = position_at(&account.recv_orchard_notes, Order::Recv, at, &n.nf).is_some();
    let unspent = position_at(&account.unspent_orchard_notes, Order::Recv, at, &n.nf).is_some();
    enter_sighting(&mut account.recv_orchard_notes, n, at);
    if unspent || !seen {
        enter_sighting(&mut account.unspent_orchard_notes, n, at);
    }
}

fn spend_note(account: &mut ManualAccount, nf: &[u8; 32], h: BlockHeight) -> (r: Option<u64>)
    ensures
        final(account)@ == after_spend(old(account)@, *nf, h),
        r == spent_amount(old(account)@, *nf),
{
    match position_of(&account.unspent_orchard_notes, nf) {
        Some(i) => {
            let n = account.unspent_orchard_notes.remove(i);
            insert_by_height(
                &mut account.spent_orchard_notes,
                Order::Spent,
                OrchardNote { spent_h: h, ..n },
            );
            Some(n.note.value)
        },
        None => match position_of(&account.spent_orchard_notes, nf) {
            Some(i) => Some(account.spent_orchard_notes[i].note.value),
            None => None,
        },
    }
}

/// Enters an action into an account: the note that it spends, if it is the account's, and the note
/// that it brings, if the account receives it. What it moves, unless it cannot be accounted for.
pub fn handle_orchard_action(
    wallet: &mut ManualWallet,
    account_i: usize,
    keys: &PreparedKeys,
    s: &ActionSight,
) -> (r: Option<WalletTxPart>)
    requires
        account_i < old(wallet).accounts@.len(),
        old(wallet).tx_h_map.wf(),
        note_amounts_ok(old(wallet)@.accounts[account_i as int].unspent_orchard_notes),
        note_amounts_ok(old(wallet)@.accounts[account_i as int].spent_orchard_notes),
    ensures
        r == action_part(old(wallet)@.accounts[account_i as int], *keys, *s),
        final(wallet)@ == (WalletModel {
            accounts: old(wallet)@.accounts.update(
                account_i as int,
                after_action(
                    old(wallet)@.accounts[account_i as int],
                    old(wallet)@.tx_h_map,
                    *keys,
                    *s,
                ),
            ),
            ..old(wallet)@
        }),
        final(wallet).tx_h_map == old(wallet).tx_h_map,
        final(wallet).seen_bond_values == old(wallet).seen_bond_values,
{
    let at = match wallet.tx_h_map.get(&s.txid) {
        Some(h) => h,
        None => s.block_h,
    };
    let ghost a0 = wallet.accounts@[account_i as int]@;
    let mut part = WalletTxPart::zero();
    let spent = spend_note(&mut wallet.accounts[account_i], &s.spent_nf, s.block_h);
    assert(wallet@.accounts =~= old(wallet)@.accounts.update(
        account_i as int,
        after_spend(a0, s.spent_nf, s.block_h),
    ));
    proof {
        lemma_find_id(a0.unspent_orchard_notes, s.spent_nf);
        lemma_find_id(a0.spent_orchard_notes, s.spent_nf);
    }
    if let Some(v) = spent {
        if let Some(z) = Zatoshis::from_u64(v) {
            let _ = part.spent(z);
        }
    }
    if let Some(n) = &s.sent {
        match Zatoshis::from_u64(n.value) {
            Some(z) => {
                let _ = part.sent(z);
            },
            None => {
                return None;
            },
        }
    }
    if let Some(n) = &s.received {
        match Zatoshis::from_u64(n.value) {
            Some(z) => {
                let _ = part.recv(z);
            },
            None => {
                return None;
            },
        }
        let nf = match &keys.orchard_fvk {
            Some(fvk) => note_nullifier(fvk, n),
            None => None,
        };
        match nf {
            Some(nf) => {
                let note = OrchardNote {
                    recv_h: s.block_h,
                    spent_h: BlockHeight(0),
                    nf,
                    txid: s.txid,
                    note: *n,
                    position: s.position,
                };
                receive_note(&mut wallet.accounts[account_i], &note, at);
                assert(wallet@.accounts =~= old(wallet)@.accounts.update(
                    account_i as int,
                    after_action(a0, old(wallet)@.tx_h_map, *keys, *s),
                ));
            },
            None => {
                return None;
            },
        }
    }
    Some(part)
}

/// Removing an item keeps the order of the others.
proof fn lemma_remove_order(s: Seq<OrchardNote>, i: int, o: Order)
    requires
        in_order(s, o),
        0 <= i < s.len(),
    ensures
        in_order(s.remove(i), o),
{
    let t = s.remove(i);
    assert forall|a: int, b: int| 0 <= a <= b < t.len() implies #[trigger] t[a].at(o)
        <= #[trigger] t[b].at(o) by {
        let a0 = if a < i { a } else { a + 1 };
        let b0 = if b < i { b } else { b + 1 };
        assert(s[a0].at(o) <= s[b0].at(o));
    }
}

proof fn lemma_sighting_order(s: Seq<OrchardNote>, n: OrchardNote, at: BlockHeight)
    requires
        in_order(s, Order::Recv),
    ensures
        in_order(after_sighting(s, n, at), Order::Recv),
{
    lemma_find_at(s, Order::Recv, at.0, n.nf);
    let t = after_sighting(s, n, at);
    match find_at(s, Order::Recv, at.0, n.nf) {
        Some(i) => {
            assert forall|a: int, b: int| 0 <= a <= b < t.len() implies #[trigger] t[a].at(
                Order::Recv,
            ) <= #[trigger] t[b].at(Order::Recv) by {
                assert(s[a].at(Order::Recv) <= s[b].at(Order::Recv));
            }
        },
        None => {
            inserting_keeps_the_order(s, Order::Recv, n);
        },
    }
}

proof fn lemma_sighting_amounts(s: Seq<OrchardNote>, n: OrchardNote, at: BlockHeight)
    requires
        note_amounts_ok(s),
        n.note.value <= MAX_MONEY,
    ensures
        note_amounts_ok(after_sighting(s, n, at)),
{
    lemma_find_at(s, Order::Recv, at.0, n.nf);
    lemma_place(s, Order::Recv, n.recv_h.0);
    let t = after_sighting(s, n, at);
    let p = place(s, Order::Recv, n.recv_h.0);
    assert forall|a: int| 0 <= a < t.len() implies (#[trigger] t[a]).note.value <= MAX_MONEY by {
        match find_at(s, Order::Recv, at.0, n.nf) {
            Some(i) => {
                assert(s[a].note.value <= MAX_MONEY);
            },
            None => {
                if a != p {
                    let a0 = if a < p { a } else { a - 1 };
                    assert(t[a] == s[a0]);
                }
            },
        }
    }
}

proof fn lemma_sighting(s: Seq<OrchardNote>, n: OrchardNote, at: BlockHeight)
    ensures
        in_order(s, Order::Recv) ==> in_order(after_sighting(s, n, at), Order::Recv),
        note_amounts_ok(s) && n.note.value <= MAX_MONEY ==> note_amounts_ok(
            after_sighting(s, n, at),
        ),
        s.len() <= after_sighting(s, n, at).len() <= s.len() + 1,
{
    lemma_find_at(s, Order::Recv, at.0, n.nf);
    lemma_place(s, Order::Recv, n.recv_h.0);
    if in_order(s, Order::Recv) {
        lemma_sighting_order(s, n, at);
    }
    if note_amounts_ok(s) && n.note.value <= MAX_MONEY {
        lemma_sighting_amounts(s, n, at);
    }
}

/// Whether the account's orchard notes are in their order.
pub open spec fn notes_ordered(a: AccountModel) -> bool {
    &&& in_order(a.recv_orchard_notes, Order::Recv)
    &&& in_order(a.unspent_orchard_notes, Order::Recv)
    &&& in_order(a.spent_orchard_notes, Order::Spent)
}

/// Whether the amounts of the account's orchard notes can exist.
pub open spec fn notes_amounts_ok(a: AccountModel) -> bool {
    &&& note_amounts_ok(a.recv_orchard_notes)
    &&& note_amounts_ok(a.unspent_orchard_notes)
    &&& note_amounts_ok(a.spent_orchard_notes)
}

/// A spend keeps the account's lists in their order and its amounts possible, and neither adds nor
/// loses a note.
pub proof fn spending_moves_one_note(a: AccountModel, nf: [u8; 32], h: BlockHeight)
    ensures
        notes_ordered(a) ==> notes_ordered(after_spend(a, nf, h)),
        notes_amounts_ok(a) ==> notes_amounts_ok(after_spend(a, nf, h)),
        after_spend(a, nf, h).unspent_orchard_notes.len() + after_spend(
            a,
            nf,
            h,
        ).spent_orchard_notes.len() == a.unspent_orchard_notes.len() + a.spent_orchard_notes.len(),
        after_spend(a, nf, h).recv_orchard_notes == a.recv_orchard_notes,
{
    lemma_find_id(a.unspent_orchard_notes, nf);
    match find_id(a.unspent_orchard_notes, nf) {
        Some(i) => {
            let n = OrchardNote { spent_h: h, ..a.unspent_orchard_notes[i] };
            lemma_place(a.spent_orchard_notes, Order::Spent, h.0);
            if notes_ordered(a) {
                lemma_remove_order(a.unspent_orchard_notes, i, Order::Recv);
                inserting_keeps_the_order(a.spent_orchard_notes, Order::Spent, n);
            }
            if notes_amounts_ok(a) {
                let p = place(a.spent_orchard_notes, Order::Spent, h.0);
                let t = with_item(a.spent_orchard_notes, Order::Spent, n);
                assert forall|k: int| 0 <= k < t.len() implies (#[trigger] t[k]).note.value
                    <= MAX_MONEY by {
                    if k != p {
                        let k0 = if k < p { k } else { k - 1 };
                        assert(t[k] == a.spent_orchard_notes[k0]);
                    } else {
                        assert(a.unspent_orchard_notes[i].note.value <= MAX_MONEY);
                    }
                }
                let u = a.unspent_orchard_notes.remove(i);
                assert forall|k: int| 0 <= k < u.len() implies (#[trigger] u[k]).note.value
                    <= MAX_MONEY by {
                    let k0 = if k < i { k } else { k + 1 };
                    assert(u[k] == a.unspent_orchard_notes[k0]);
                }
            }
        },
        None => {},
    }
}

/// An action keeps the account's lists in their order and its amounts possible, and brings at most
/// one note.
pub proof fn an_action_keeps_the_notes(
    a: AccountModel,
    m: Map<TxId, BlockHeight>,
    keys: PreparedKeys,
    s: ActionSight,
)
    ensures
        notes_ordered(a) ==> notes_ordered(after_action(a, m, keys, s)),
        notes_amounts_ok(a) ==> notes_amounts_ok(after_action(a, m, keys, s)),
        after_action(a, m, keys, s).recv_orchard_notes.len() <= a.recv_orchard_notes.len() + 1,
        ({
            let r = after_action(a, m, keys, s);
            r == (AccountModel {
                recv_orchard_notes: r.recv_orchard_notes,
                unspent_orchard_notes: r.unspent_orchard_notes,
                spent_orchard_notes: r.spent_orchard_notes,
                ..a
            })
        }),
{
    spending_moves_one_note(a, s.spent_nf, s.block_h);
    let b = after_spend(a, s.spent_nf, s.block_h);
    if sight_ok(keys, s) && s.received is Some {
        let n = new_note(s, received_nf(keys, s)->Some_0);
        let at = known_height(m, s.txid, s.block_h);
        lemma_sighting(b.recv_orchard_notes, n, at);
        lemma_sighting(b.unspent_orchard_notes, n, at);
    }
}

proof fn lemma_inserted_is_found(s: Seq<OrchardNote>, n: OrchardNote)
    requires
        find_at(s, Order::Recv, n.recv_h.0, n.nf) is None,
    ensures
        find_at(with_item(s, Order::Recv, n), Order::Recv, n.recv_h.0, n.nf) == Some(
            place(s, Order::Recv, n.recv_h.0),
        ),
{
    let p = place(s, Order::Recv, n.recv_h.0);
    let t = with_item(s, Order::Recv, n);
    lemma_place(s, Order::Recv, n.recv_h.0);
    lemma_find_at(s, Order::Recv, n.recv_h.0, n.nf);
    assert(t[p] == n);
    assert forall|k: int| 0 <= k < p implies !(#[trigger] t[k].at(Order::Recv) == n.recv_h.0
        && t[k].id() == n.nf) by {
        assert(t[k] == s[k]);
        assert(!(s[k].at(Order::Recv) == n.recv_h.0 && s[k].id() == n.nf));
    }
    crate::listing::lemma_find_at_is(t, Order::Recv, n.recv_h.0, n.nf, p);
}

/// Seeing a note a second time where it was received changes nothing: no note is ever received
/// twice by reading a block again.
pub proof fn a_note_is_received_once(a: AccountModel, n: OrchardNote)
    requires
        find_at(a.recv_orchard_notes, Order::Recv, n.recv_h.0, n.nf) is None,
        find_at(a.unspent_orchard_notes, Order::Recv, n.recv_h.0, n.nf) is None,
    ensures
        after_receive(after_receive(a, n, n.recv_h), n, n.recv_h) == after_receive(a, n, n.recv_h),
{
    let once = after_receive(a, n, n.recv_h);
    let twice = after_receive(once, n, n.recv_h);
    lemma_inserted_is_found(a.recv_orchard_notes, n);
    lemma_inserted_is_found(a.unspent_orchard_notes, n);
    lemma_place(a.recv_orchard_notes, Order::Recv, n.recv_h.0);
    lemma_place(a.unspent_orchard_notes, Order::Recv, n.recv_h.0);
    assert(n.updated(n) == n);
    assert(twice.recv_orchard_notes =~= once.recv_orchard_notes);
    assert(twice.unspent_orchard_notes =~= once.unspent_orchard_notes);
}

/// A note that is spent is not spendable any more, and its spend is found again: reading the action
/// a second time moves nothing and gives the same amount.
pub proof fn a_note_is_spent_once(a: AccountModel, nf: [u8; 32], h: BlockHeight)
    requires
        find_id(a.unspent_orchard_notes, nf) matches Some(i) && find_id(
            a.unspent_orchard_notes.remove(i),
            nf,
        ) is None,
        find_id(a.spent_orchard_notes, nf) is None,
    ensures
        find_id(after_spend(a, nf, h).unspent_orchard_notes, nf) is None,
        after_spend(after_spend(a, nf, h), nf, h) == after_spend(a, nf, h),
        spent_amount(after_spend(a, nf, h), nf) == spent_amount(a, nf),
{
    let i = find_id(a.unspent_orchard_notes, nf)->Some_0;
    lemma_find_id(a.unspent_orchard_notes, nf);
    let n = OrchardNote { spent_h: h, ..a.unspent_orchard_notes[i] };
    let b = after_spend(a, nf, h);
    let p = place(a.spent_orchard_notes, Order::Spent, h.0);
    lemma_place(a.spent_orchard_notes, Order::Spent, h.0);
    lemma_find_id(a.spent_orchard_notes, nf);
    lemma_find_id(b.spent_orchard_notes, nf);
    assert(b.spent_orchard_notes[p] == n);
    match find_id(b.spent_orchard_notes, nf) {
        Some(k) => {
            if k != p {
                let k0 = if k < p { k } else { k - 1 };
                assert(b.spent_orchard_notes[k] == a.spent_orchard_notes[k0]);
                assert(a.spent_orchard_notes[k0].id() != nf);
            }
        },
        None => {
            assert(b.spent_orchard_notes[p].id() != nf);
        },
    }
}

} // verus!
