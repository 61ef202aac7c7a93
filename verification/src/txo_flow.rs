//! How transparent outputs come and go when a transaction is read.
use crate::accounts::AccountModel;
use crate::addresses::{belongs, recipient_of};
use crate::full_tx::{
    a_script_pays_to_its_address, action_steps, full_read, full_sight, input_steps, output_step,
    output_steps, script_to, transparent_read, FullTx, ShieldedState, TransparentState, TxOut,
};
use crate::funds::txo_sum;
use crate::height::BlockHeight;
use crate::listing::{find_at, inserting_adds_one_item, lemma_find_at, place, with_item, Listed, Order};
use crate::network::NetworkType;
use crate::notes::{OutPoint, TransparentAddress, TxId, Txo};
use crate::orchard_scan::{OrchardAction, PreparedKeys};
use crate::propose::txos_differ;
use crate::scan::an_action_keeps_the_notes;
use crate::tx_part::WalletTxPart;
use vstd::prelude::*;

verus! {

/// Whether an account knows nothing of an output.
pub open spec fn is_unknown(a: AccountModel, id: OutPoint) -> bool {
    &&& forall|x: Txo| #[trigger] a.utxos.contains(x) ==> x.id != id
    &&& forall|x: Txo| #[trigger] a.recv_txos.contains(x) ==> x.id != id
}

/// Whether an account knows nothing of any output of a transaction.
pub open spec fn is_new_tx(a: AccountModel, txid: TxId) -> bool {
    &&& forall|x: Txo| #[trigger] a.utxos.contains(x) ==> x.id.txid != txid
    &&& forall|x: Txo| #[trigger] a.recv_txos.contains(x) ==> x.id.txid != txid
}

/// Whether an output pays to an address of an account.
pub open spec fn pays_home(out: TxOut, net: NetworkType, ufvk: Seq<char>) -> bool {
    exists|to: TransparentAddress| #[trigger] script_to(to) == out.script@ && belongs(net, ufvk, to)
}

/// What the outputs to an account's addresses are worth.
pub open spec fn home_sum(vout: Seq<TxOut>, net: NetworkType, ufvk: Seq<char>) -> nat
    decreases vout.len(),
{
    if vout.len() == 0 {
        0
    } else {
        home_sum(vout.drop_last(), net, ufvk) + if pays_home(vout.last(), net, ufvk) {
            vout.last().value.zats as nat
        } else {
            0
        }
    }
}

/// What all outputs are worth.
pub open spec fn out_sum(vout: Seq<TxOut>) -> nat
    decreases vout.len(),
{
    if vout.len() == 0 {
        0
    } else {
        out_sum(vout.drop_last()) + vout.last().value.zats as nat
    }
}

/// The sum of a list without an item is less by what the item is worth.
pub proof fn removing_takes_from_the_sum(s: Seq<Txo>, i: int)
    requires
        0 <= i < s.len(),
    ensures
        txo_sum(s) == txo_sum(s.remove(i)) + s[i].value.zats,
    decreases s.len(),
{
    if i == s.len() - 1 {
        assert(s.remove(i) =~= s.drop_last());
    } else {
        removing_takes_from_the_sum(s.drop_last(), i);
        assert(s.remove(i).drop_last() =~= s.drop_last().remove(i));
    }
}

/// A list with one more item is worth that much more.
pub proof fn inserting_adds_to_the_sum(s: Seq<Txo>, o: Order, x: Txo)
    ensures
        txo_sum(with_item(s, o, x)) == txo_sum(s) + x.value.zats,
{
    inserting_adds_one_item(s, o, x);
    removing_takes_from_the_sum(
        with_item(s, o, x),
        place(s, o, x.at(o)),
    );
}

proof fn lemma_home(out: TxOut, net: NetworkType, ufvk: Seq<char>)
    ensures
        pays_home(out, net, ufvk) == (recipient_of(out.script@) matches Some(to) && belongs(
            net,
            ufvk,
            to,
        )),
{
    if pays_home(out, net, ufvk) {
        let to = choose|to: TransparentAddress|
            #[trigger] script_to(to) == out.script@ && belongs(net, ufvk, to);
        a_script_pays_to_its_address(to);
    }
    if let Some(to) = recipient_of(out.script@) {
        crate::addresses::a_script_has_a_recipient(out.script@);
        assert(script_to(to) == out.script@);
    }
}

proof fn lemma_unknown_is_not_found(a: AccountModel, id: OutPoint, at: u32)
    requires
        is_unknown(a, id),
    ensures
        find_at(a.utxos, Order::Recv, at, id) is None,
        find_at(a.recv_txos, Order::Recv, at, id) is None,
{
    lemma_find_at(a.utxos, Order::Recv, at, id);
    lemma_find_at(a.recv_txos, Order::Recv, at, id);
    if let Some(i) = find_at(a.utxos, Order::Recv, at, id) {
        assert(a.utxos.contains(a.utxos[i]));
    }
    if let Some(i) = find_at(a.recv_txos, Order::Recv, at, id) {
        assert(a.recv_txos.contains(a.recv_txos[i]));
    }
}

proof fn lemma_inputs_shrink(
    st: TransparentState,
    m: Map<TxId, BlockHeight>,
    h: BlockHeight,
    vin: Seq<OutPoint>,
)
    ensures
        ({
            let r = input_steps(st, m, h, vin);
            &&& r.account.recv_txos == st.account.recv_txos
            &&& r.account.ufvk == st.account.ufvk
            &&& r.part is Some ==> st.part is Some
            &&& r.part is Some ==> r.part->Some_0.recv_zats == st.part->Some_0.recv_zats
                && r.part->Some_0.sent_zats == st.part->Some_0.sent_zats
                && r.part->Some_0.recv_note_count == st.part->Some_0.recv_note_count
                && r.part->Some_0.sent_note_count == st.part->Some_0.sent_note_count
            &&& forall|x: Txo|
                #[trigger] r.account.utxos.contains(x) ==> st.account.utxos.contains(x)
            &&& r.part is Some ==> txo_sum(r.account.utxos) + txo_sum(r.account.stxos) == txo_sum(
                st.account.utxos,
            ) + txo_sum(st.account.stxos)
        }),
    decreases vin.len(),
{
    if vin.len() > 0 {
        lemma_inputs_shrink(st, m, h, vin.drop_last());
        let before = input_steps(st, m, h, vin.drop_last());
        let a = before.account;
        let prevout = vin.last();
        if before.part is Some && m.contains_key(prevout.txid) {
            let at = m[prevout.txid].0;
            lemma_find_at(a.utxos, Order::Recv, at, prevout);
            if let Some(i) = find_at(a.utxos, Order::Recv, at, prevout) {
                let left = a.utxos.remove(i);
                assert forall|x: Txo| #[trigger] left.contains(x) implies a.utxos.contains(x) by {
                    let k = choose|k: int| 0 <= k < left.len() && left[k] == x;
                    let k0 = if k < i { k } else { k + 1 };
                    assert(a.utxos[k0] == x);
                }
                removing_takes_from_the_sum(a.utxos, i);
                inserting_adds_to_the_sum(
                    a.stxos,
                    Order::Spent,
                    Txo { spent_h: h, ..a.utxos[i] },
                );
            }
        }
    }
}

/// What some outputs have made of an account.
spec fn outputs_grew(
    st: TransparentState,
    r: TransparentState,
    net: NetworkType,
    h: BlockHeight,
    txid: TxId,
    vout: Seq<TxOut>,
) -> bool {
    &&& r.account.ufvk == st.account.ufvk
    &&& r.account.stxos == st.account.stxos
    &&& r.part is Some ==> st.part is Some
    &&& forall|x: Txo| #[trigger] st.account.utxos.contains(x) ==> r.account.utxos.contains(x)
    &&& forall|x: Txo| #[trigger] st.account.recv_txos.contains(x) ==> r.account.recv_txos.contains(x)
    &&& forall|x: Txo|
        #[trigger] r.account.utxos.contains(x) ==> st.account.utxos.contains(x) || (x.id.txid == txid
            && x.id.n < vout.len())
    &&& forall|x: Txo|
        #[trigger] r.account.recv_txos.contains(x) ==> st.account.recv_txos.contains(x) || (
        x.id.txid == txid && x.id.n < vout.len())
}

proof fn lemma_output_grows(
    st: TransparentState,
    net: NetworkType,
    m: Map<TxId, BlockHeight>,
    h: BlockHeight,
    txid: TxId,
    n: int,
    out: TxOut,
)
    requires
        0 <= n <= u32::MAX,
    ensures
        ({
            let r = output_step(st, net, m, h, txid, n, out);
            &&& r.account.ufvk == st.account.ufvk
            &&& r.account.stxos == st.account.stxos
            &&& r.part is Some ==> st.part is Some
            &&& forall|x: Txo|
                #[trigger] st.account.utxos.contains(x) ==> r.account.utxos.contains(x)
            &&& forall|x: Txo|
                #[trigger] st.account.recv_txos.contains(x) ==> r.account.recv_txos.contains(x)
            &&& forall|x: Txo|
                #[trigger] r.account.utxos.contains(x) ==> st.account.utxos.contains(x) || (
                x.id.txid == txid && x.id.n == n)
            &&& forall|x: Txo|
                #[trigger] r.account.recv_txos.contains(x) ==> st.account.recv_txos.contains(x) || (
                x.id.txid == txid && x.id.n == n)
        }),
{
    if let Some(to) = recipient_of(out.script@) {
        let u = crate::full_tx::new_txo(txid, n, h, out, to);
        inserting_adds_one_item(st.account.utxos, Order::Recv, u);
        inserting_adds_one_item(st.account.recv_txos, Order::Recv, u);
    }
}

proof fn lemma_outputs_grow(
    st: TransparentState,
    net: NetworkType,
    m: Map<TxId, BlockHeight>,
    h: BlockHeight,
    txid: TxId,
    vout: Seq<TxOut>,
)
    requires
        vout.len() <= 0x1_0000_0000,
    ensures
        outputs_grew(st, output_steps(st, net, m, h, txid, vout), net, h, txid, vout),
    decreases vout.len(),
{
    if vout.len() > 0 {
        let before = output_steps(st, net, m, h, txid, vout.drop_last());
        lemma_outputs_grow(st, net, m, h, txid, vout.drop_last());
        lemma_output_grows(before, net, m, h, txid, vout.len() - 1, vout.last());
    }
}

/// An output that was received.
pub open spec fn received_txo(
    txid: TxId,
    n: int,
    h: BlockHeight,
    out: TxOut,
    to: TransparentAddress,
) -> Txo {
    Txo {
        recv_h: h,
        spent_h: BlockHeight(0),
        id: OutPoint { txid, n: n as u32 },
        value: out.value,
        t_addr: to,
    }
}

proof fn lemma_output_is_held(
    st: TransparentState,
    net: NetworkType,
    m: Map<TxId, BlockHeight>,
    h: BlockHeight,
    txid: TxId,
    vout: Seq<TxOut>,
    i: int,
    to: TransparentAddress,
)
    requires
        vout.len() <= 0x1_0000_0000,
        0 <= i < vout.len(),
        output_steps(st, net, m, h, txid, vout).part is Some,
        vout[i].script@ == script_to(to),
        belongs(net, st.account.ufvk, to),
        is_unknown(st.account, OutPoint { txid, n: i as u32 }),
    ensures
        ({
            let r = output_steps(st, net, m, h, txid, vout).account;
            let u = received_txo(txid, i, h, vout[i], to);
            r.utxos.contains(u) && r.recv_txos.contains(u)
        }),
    decreases vout.len(),
{
    let rest = vout.drop_last();
    let before = output_steps(st, net, m, h, txid, rest);
    lemma_output_grows(before, net, m, h, txid, vout.len() - 1, vout.last());
    lemma_outputs_grow(st, net, m, h, txid, rest);
    if i < vout.len() - 1 {
        lemma_output_is_held(st, net, m, h, txid, rest, i, to);
    } else {
        let id = OutPoint { txid, n: i as u32 };
        a_script_pays_to_its_address(to);
        assert(is_unknown(before.account, id));
        lemma_unknown_is_not_found(
            before.account,
            id,
            crate::scan::known_height(m, txid, h).0,
        );
        let u = received_txo(txid, i, h, vout[i], to);
        inserting_adds_one_item(before.account.utxos, Order::Recv, u);
        inserting_adds_one_item(before.account.recv_txos, Order::Recv, u);
    }
}

/// The actions of a transaction leave the account's transparent outputs as they are.
proof fn lemma_actions_keep_outputs(
    st: ShieldedState,
    m: Map<TxId, BlockHeight>,
    keys: PreparedKeys,
    h: BlockHeight,
    txid: TxId,
    actions: Seq<OrchardAction>,
)
    ensures
        ({
            let r = action_steps(st, m, keys, h, txid, actions).account;
            &&& r.utxos == st.account.utxos
            &&& r.recv_txos == st.account.recv_txos
            &&& r.stxos == st.account.stxos
        }),
    decreases actions.len(),
{
    if actions.len() > 0 {
        let before = action_steps(st, m, keys, h, txid, actions.drop_last());
        lemma_actions_keep_outputs(st, m, keys, h, txid, actions.drop_last());
        an_action_keeps_the_notes(before.account, m, keys, full_sight(keys, h, txid, actions.last()));
    }
}

proof fn lemma_full_outputs(
    a: AccountModel,
    net: NetworkType,
    m: Map<TxId, BlockHeight>,
    keys: PreparedKeys,
    h: BlockHeight,
    tx: FullTx,
)
    ensures
        ({
            let r = full_read(a, net, m, keys, h, tx).1.account;
            let t = transparent_read(a, net, m, h, tx).account;
            &&& r.utxos == t.utxos
            &&& r.recv_txos == t.recv_txos
            &&& r.stxos == t.stxos
        }),
{
    let t = transparent_read(a, net, m, h, tx);
    lemma_actions_keep_outputs(
        ShieldedState {
            account: t.account,
            part: WalletTxPart::nothing(),
            memo_count: 0,
            memo: crate::wallet_tx::no_memo(),
        },
        m,
        keys,
        h,
        tx.txid,
        tx.actions@,
    );
}

/// After a transaction is read whose output pays to an address of the account and was not known before,
/// the account's unspent transparent outputs hold that output: its id, its amount, its address and the
/// height. So do the received ones.
pub proof fn a_received_output_is_unspent(
    a: AccountModel,
    net: NetworkType,
    m: Map<TxId, BlockHeight>,
    keys: PreparedKeys,
    h: BlockHeight,
    tx: FullTx,
    i: int,
    to: TransparentAddress,
)
    requires
        tx.transparent is Some,
        tx.transparent->Some_0.vout@.len() <= 0x1_0000_0000,
        0 <= i < tx.transparent->Some_0.vout@.len(),
        tx.transparent->Some_0.vout@[i].script@ == script_to(to),
        belongs(net, a.ufvk, to),
        is_unknown(a, OutPoint { txid: tx.txid, n: i as u32 }),
        full_read(a, net, m, keys, h, tx).0 is Some,
    ensures
        ({
            let r = full_read(a, net, m, keys, h, tx).1.account;
            let u = Txo {
                recv_h: h,
                spent_h: BlockHeight(0),
                id: OutPoint { txid: tx.txid, n: i as u32 },
                value: tx.transparent->Some_0.vout@[i].value,
                t_addr: to,
            };
            r.utxos.contains(u) && r.recv_txos.contains(u)
        }),
{
    lemma_full_outputs(a, net, m, keys, h, tx);
    let b = tx.transparent->Some_0;
    let start = TransparentState { account: a, part: Some(WalletTxPart::nothing()) };
    let st = if b.is_coinbase {
        start
    } else {
        input_steps(start, m, h, b.vin@)
    };
    lemma_inputs_shrink(start, m, h, b.vin@);
    lemma_output_is_held(st, net, m, h, tx.txid, b.vout@, i, to);
}

proof fn lemma_output_sums(
    st: TransparentState,
    net: NetworkType,
    m: Map<TxId, BlockHeight>,
    h: BlockHeight,
    txid: TxId,
    vout: Seq<TxOut>,
)
    requires
        vout.len() <= 0x1_0000_0000,
        is_new_tx(st.account, txid),
        output_steps(st, net, m, h, txid, vout).part is Some,
    ensures
        ({
            let r = output_steps(st, net, m, h, txid, vout);
            let home = home_sum(vout, net, st.account.ufvk);
            let (p, q) = (st.part->Some_0, r.part->Some_0);
            &&& txo_sum(r.account.utxos) == txo_sum(st.account.utxos) + home
            &&& txo_sum(r.account.recv_txos) == txo_sum(st.account.recv_txos) + home
            &&& q.recv_zats.zats == p.recv_zats.zats + home
            &&& q.spent_zats == p.spent_zats && q.spent_note_count == p.spent_note_count
            &&& q.sent_zats.zats == p.sent_zats.zats + if p.spent_note_count > 0 {
                out_sum(vout)
            } else {
                0
            }
        }),
    decreases vout.len(),
{
    if vout.len() > 0 {
        let rest = vout.drop_last();
        let before = output_steps(st, net, m, h, txid, rest);
        let n = vout.len() - 1;
        lemma_output_grows(before, net, m, h, txid, n, vout.last());
        lemma_output_sums(st, net, m, h, txid, rest);
        lemma_outputs_grow(st, net, m, h, txid, rest);
        lemma_home(vout.last(), net, st.account.ufvk);
        if let Some(to) = recipient_of(vout.last().script@) {
            let id = OutPoint { txid, n: n as u32 };
            assert(is_unknown(before.account, id));
            lemma_unknown_is_not_found(
                before.account,
                id,
                crate::scan::known_height(m, txid, h).0,
            );
            let u = received_txo(txid, n, h, vout.last(), to);
            inserting_adds_to_the_sum(before.account.utxos, Order::Recv, u);
            inserting_adds_to_the_sum(before.account.recv_txos, Order::Recv, u);
        }
    }
}

/// Of a transaction that was not known before, everything that it pays to the account's addresses is
/// added to the account's transparent outputs, spent and unspent ones together, and nothing else is.
/// The entry counts that sum as received, and everything that the transaction pays as sent, if the
/// account spends in it.
pub proof fn what_is_paid_home_is_added(
    a: AccountModel,
    net: NetworkType,
    m: Map<TxId, BlockHeight>,
    keys: PreparedKeys,
    h: BlockHeight,
    tx: FullTx,
)
    requires
        tx.transparent is Some,
        tx.transparent->Some_0.vout@.len() <= 0x1_0000_0000,
        is_new_tx(a, tx.txid),
        full_read(a, net, m, keys, h, tx).0 is Some,
    ensures
        ({
            let (t, s) = full_read(a, net, m, keys, h, tx);
            let (r, p) = (s.account, t->Some_0);
            let b = tx.transparent->Some_0;
            let home = home_sum(b.vout@, net, a.ufvk);
            &&& txo_sum(r.utxos) + txo_sum(r.stxos) == txo_sum(a.utxos) + txo_sum(a.stxos) + home
            &&& txo_sum(r.recv_txos) == txo_sum(a.recv_txos) + home
            &&& p.recv_zats.zats == home
            &&& p.sent_zats.zats == if p.spent_note_count > 0 {
                out_sum(b.vout@)
            } else {
                0
            }
            &&& b.is_coinbase || b.vin@.len() == 0 ==> p.spent_note_count == 0 && txo_sum(r.utxos)
                == txo_sum(a.utxos) + home
        }),
{
    lemma_full_outputs(a, net, m, keys, h, tx);
    let b = tx.transparent->Some_0;
    let start = TransparentState { account: a, part: Some(WalletTxPart::nothing()) };
    let st = if b.is_coinbase {
        start
    } else {
        input_steps(start, m, h, b.vin@)
    };
    lemma_inputs_shrink(start, m, h, b.vin@);
    lemma_outputs_grow(st, net, m, h, tx.txid, b.vout@);
    lemma_output_sums(st, net, m, h, tx.txid, b.vout@);
}

/// Whether an account's outputs are in order: no two unspent ones are one, nor two received ones, every
/// unspent one was received, and the transaction of each is known to stand where the output came.
pub open spec fn outputs_sound(a: AccountModel, m: Map<TxId, BlockHeight>) -> bool {
    &&& txos_differ(a.utxos)
    &&& txos_differ(a.recv_txos)
    &&& forall|x: Txo| #[trigger] a.utxos.contains(x) ==> a.recv_txos.contains(x)
    &&& forall|x: Txo|
        #[trigger] a.recv_txos.contains(x) ==> m.contains_key(x.id.txid) && m[x.id.txid] == x.recv_h
}

/// What the outputs with an id are worth.
pub open spec fn value_of(s: Seq<Txo>, id: OutPoint) -> nat
    decreases s.len(),
{
    if s.len() == 0 {
        0
    } else {
        value_of(s.drop_last(), id) + if s.last().id == id {
            s.last().value.zats as nat
        } else {
            0
        }
    }
}

/// What the outputs that some inputs name are worth, among those of a list.
pub open spec fn inputs_sum(vin: Seq<OutPoint>, s: Seq<Txo>) -> nat
    decreases vin.len(),
{
    if vin.len() == 0 {
        0
    } else {
        inputs_sum(vin.drop_last(), s) + value_of(s, vin.last())
    }
}

proof fn lemma_value_of(s: Seq<Txo>, id: OutPoint)
    requires
        txos_differ(s),
    ensures
        (forall|x: Txo| #[trigger] s.contains(x) ==> x.id != id) ==> value_of(s, id) == 0,
        forall|x: Txo| #[trigger] s.contains(x) && x.id == id ==> value_of(s, id) == x.value.zats,
    decreases s.len(),
{
    if s.len() > 0 {
        let t = s.drop_last();
        assert forall|i: int, j: int| 0 <= i < j < t.len() implies (#[trigger] t[i]).id != (
        #[trigger] t[j]).id by {
            assert(s[i].id != s[j].id);
        }
        lemma_value_of(t, id);
        assert(s.contains(s[s.len() - 1]));
        assert forall|x: Txo| #[trigger] t.contains(x) implies s.contains(x) && x.id != s.last().id by {
            let k = choose|k: int| 0 <= k < t.len() && t[k] == x;
            assert(s[k] == x);
            assert(s[k].id != s[s.len() - 1].id);
        }
        assert forall|x: Txo| #[trigger] s.contains(x) implies x == s.last() || t.contains(x) by {
            let k = choose|k: int| 0 <= k < s.len() && s[k] == x;
            if k < t.len() {
                assert(t[k] == x);
            }
        }
        if s.last().id == id {
            assert forall|x: Txo| #[trigger] t.contains(x) implies x.id != id by {}
        }
    }
}

/// What some inputs have made of an account.
spec fn inputs_spent(
    a: AccountModel,
    r: TransparentState,
    h: BlockHeight,
    vin: Seq<OutPoint>,
) -> bool {
    &&& txos_differ(r.account.utxos)
    &&& forall|x: Txo|
        #[trigger] r.account.utxos.contains(x) <==> a.utxos.contains(x) && !vin.contains(x.id)
    &&& forall|x: Txo| #[trigger] a.stxos.contains(x) ==> r.account.stxos.contains(x)
    &&& forall|x: Txo|
        #[trigger] a.utxos.contains(x) && vin.contains(x.id) ==> r.account.stxos.contains(
            Txo { spent_h: h, ..x },
        )
}

proof fn lemma_inputs_spend(
    a: AccountModel,
    m: Map<TxId, BlockHeight>,
    h: BlockHeight,
    vin: Seq<OutPoint>,
)
    requires
        outputs_sound(a, m),
        input_steps(
            TransparentState { account: a, part: Some(WalletTxPart::nothing()) },
            m,
            h,
            vin,
        ).part is Some,
    ensures
        ({
            let r = input_steps(
                TransparentState { account: a, part: Some(WalletTxPart::nothing()) },
                m,
                h,
                vin,
            );
            &&& inputs_spent(a, r, h, vin)
            &&& r.part->Some_0.spent_zats.zats == inputs_sum(vin, a.recv_txos)
            &&& vin.no_duplicates() ==> txo_sum(r.account.stxos) == txo_sum(a.stxos) + inputs_sum(
                vin,
                a.utxos,
            )
        }),
    decreases vin.len(),
{
    let start = TransparentState { account: a, part: Some(WalletTxPart::nothing()) };
    lemma_inputs_shrink(start, m, h, vin);
    if vin.len() > 0 {
        let rest = vin.drop_last();
        let id = vin.last();
        let before = input_steps(start, m, h, rest);
        let r = input_steps(start, m, h, vin);
        lemma_inputs_shrink(start, m, h, rest);
        lemma_inputs_spend(a, m, h, rest);
        lemma_value_of(a.utxos, id);
        lemma_value_of(a.recv_txos, id);
        let b = before.account;
        if vin.no_duplicates() {
            assert(rest.no_duplicates());
            assert(!rest.contains(id)) by {
                if rest.contains(id) {
                    let k = choose|k: int| 0 <= k < rest.len() && rest[k] == id;
                    assert(vin[k] == vin[vin.len() - 1]);
                }
            }
        }
        assert forall|y: OutPoint| #[trigger] vin.contains(y) <==> rest.contains(y) || y == id by {
            if vin.contains(y) {
                let k = choose|k: int| 0 <= k < vin.len() && vin[k] == y;
                if k < rest.len() {
                    assert(rest[k] == y);
                }
            }
            if rest.contains(y) {
                let k = choose|k: int| 0 <= k < rest.len() && rest[k] == y;
                assert(vin[k] == y);
            }
            assert(vin[vin.len() - 1] == id);
        }
        if m.contains_key(id.txid) {
            let at = m[id.txid].0;
            lemma_find_at(b.utxos, Order::Recv, at, id);
            lemma_find_at(b.recv_txos, Order::Recv, at, id);
            match find_at(b.utxos, Order::Recv, at, id) {
                Some(i) => {
                    let u = b.utxos[i];
                    assert(b.utxos.contains(u));
                    assert(a.utxos.contains(u));
                    assert(a.recv_txos.contains(u));
                    let spent = Txo { spent_h: h, ..u };
                    inserting_adds_one_item(b.stxos, Order::Spent, spent);
                    inserting_adds_to_the_sum(b.stxos, Order::Spent, spent);
                    lemma_removed(b.utxos, i);
                    assert forall|x: Txo| #[trigger] r.account.utxos.contains(x) <==> a.utxos.contains(
                        x,
                    ) && !vin.contains(x.id) by {}
                    assert forall|x: Txo| #[trigger] a.utxos.contains(x) && vin.contains(x.id) implies
                    r.account.stxos.contains(Txo { spent_h: h, ..x }) by {
                        if !rest.contains(x.id) {
                            assert(b.utxos.contains(x));
                            assert(x == u);
                        }
                    }
                },
                None => {
                    assert forall|x: Txo| #[trigger] b.utxos.contains(x) implies x.id != id by {
                        let k = choose|k: int| 0 <= k < b.utxos.len() && b.utxos[k] == x;
                        assert(a.recv_txos.contains(x));
                        assert(m[x.id.txid] == x.recv_h);
                        assert(!(b.utxos[k].at(Order::Recv) == at && b.utxos[k].id() == id));
                    }
                    assert forall|x: Txo| #[trigger] a.utxos.contains(x) && x.id == id implies rest.contains(
                        id,
                    ) by {
                        if !rest.contains(id) {
                            assert(b.utxos.contains(x));
                        }
                    }
                    match find_at(b.recv_txos, Order::Recv, at, id) {
                        Some(i) => {
                            assert(a.recv_txos.contains(b.recv_txos[i]));
                        },
                        None => {
                            assert forall|x: Txo| #[trigger] a.recv_txos.contains(x) implies x.id
                                != id by {
                                let k = choose|k: int|
                                    0 <= k < b.recv_txos.len() && b.recv_txos[k] == x;
                                assert(m[x.id.txid] == x.recv_h);
                                assert(!(b.recv_txos[k].at(Order::Recv) == at && b.recv_txos[k].id()
                                    == id));
                            }
                        },
                    }
                },
            }
        } else {
            assert forall|x: Txo| #[trigger] a.recv_txos.contains(x) implies x.id != id by {}
            assert forall|x: Txo| #[trigger] a.utxos.contains(x) implies x.id != id by {
                assert(a.recv_txos.contains(x));
            }
        }
    } else {
        assert forall|x: Txo| #[trigger] a.utxos.contains(x) implies !vin.contains(x.id) by {}
    }
}

/// A list without one of its items, where no two are one, holds the others.
proof fn lemma_removed(s: Seq<Txo>, i: int)
    requires
        txos_differ(s),
        0 <= i < s.len(),
    ensures
        txos_differ(s.remove(i)),
        forall|x: Txo| #[trigger] s.remove(i).contains(x) <==> s.contains(x) && x.id != s[i].id,
{
    let t = s.remove(i);
    assert forall|a: int, b: int| 0 <= a < b < t.len() implies (#[trigger] t[a]).id != (
    #[trigger] t[b]).id by {
        let a0 = if a < i { a } else { a + 1 };
        let b0 = if b < i { b } else { b + 1 };
        assert(s[a0].id != s[b0].id);
    }
    assert forall|x: Txo| #[trigger] t.contains(x) <==> s.contains(x) && x.id != s[i].id by {
        if t.contains(x) {
            let k = choose|k: int| 0 <= k < t.len() && t[k] == x;
            let k0 = if k < i { k } else { k + 1 };
            assert(s[k0] == x);
            if k0 < i {
                assert(s[k0].id != s[i].id);
            } else {
                assert(s[i].id != s[k0].id);
            }
        }
        if s.contains(x) && x.id != s[i].id {
            let k0 = choose|k: int| 0 <= k < s.len() && s[k] == x;
            let k = if k0 < i { k0 } else { k0 - 1 };
            assert(t[k] == x);
        }
    }
}

/// After a transaction is read that spends an unspent output of the account, the output is not unspent
/// any more: it is among the spent ones, at the height of the transaction. An output that no input names
/// stays unspent, and what was spent stays spent. The entry counts what the inputs take of the account's
/// outputs as spent, and the unspent outputs are worth that much less, and what comes home more.
pub proof fn a_spent_output_is_not_unspent(
    a: AccountModel,
    net: NetworkType,
    m: Map<TxId, BlockHeight>,
    keys: PreparedKeys,
    h: BlockHeight,
    tx: FullTx,
    u: Txo,
)
    requires
        tx.transparent is Some,
        !tx.transparent->Some_0.is_coinbase,
        tx.transparent->Some_0.vout@.len() <= 0x1_0000_0000,
        outputs_sound(a, m),
        is_new_tx(a, tx.txid),
        full_read(a, net, m, keys, h, tx).0 is Some,
    ensures
        ({
            let (t, s) = full_read(a, net, m, keys, h, tx);
            let (r, p) = (s.account, t->Some_0);
            let b = tx.transparent->Some_0;
            &&& a.utxos.contains(u) && b.vin@.contains(u.id) ==> r.stxos.contains(
                Txo { spent_h: h, ..u },
            ) && forall|x: Txo| #[trigger] r.utxos.contains(x) ==> x.id != u.id
            &&& a.utxos.contains(u) && !b.vin@.contains(u.id) ==> r.utxos.contains(u)
            &&& a.stxos.contains(u) ==> r.stxos.contains(u)
            &&& p.spent_zats.zats == inputs_sum(b.vin@, a.recv_txos)
            &&& b.vin@.no_duplicates() ==> txo_sum(r.stxos) == txo_sum(a.stxos) + inputs_sum(
                b.vin@,
                a.utxos,
            ) && txo_sum(r.utxos) + inputs_sum(b.vin@, a.utxos) == txo_sum(a.utxos) + home_sum(
                b.vout@,
                net,
                a.ufvk,
            )
        }),
{
    lemma_full_outputs(a, net, m, keys, h, tx);
    let b = tx.transparent->Some_0;
    let start = TransparentState { account: a, part: Some(WalletTxPart::nothing()) };
    let st = input_steps(start, m, h, b.vin@);
    lemma_inputs_shrink(start, m, h, b.vin@);
    lemma_outputs_grow(st, net, m, h, tx.txid, b.vout@);
    lemma_output_sums(st, net, m, h, tx.txid, b.vout@);
    lemma_inputs_spend(a, m, h, b.vin@);
    let r = full_read(a, net, m, keys, h, tx).1.account;
    if a.utxos.contains(u) && b.vin@.contains(u.id) {
        assert forall|x: Txo| #[trigger] r.utxos.contains(x) implies x.id != u.id by {
            if x.id.txid != tx.txid {
                assert(st.account.utxos.contains(x));
            }
        }
    }
    if a.utxos.contains(u) && !b.vin@.contains(u.id) {
        assert(st.account.utxos.contains(u));
    }
}

/// Reading a transaction a second time brings no output twice: where every output to the account is
/// known at the height at which the transaction is, the outputs stay as they are.
pub proof fn a_known_output_is_not_received_again(
    st: TransparentState,
    net: NetworkType,
    m: Map<TxId, BlockHeight>,
    h: BlockHeight,
    txid: TxId,
    vout: Seq<TxOut>,
)
    requires
        vout.len() <= 0x1_0000_0000,
        m.contains_key(txid),
        forall|i: int|
            0 <= i < vout.len() && pays_home(#[trigger] vout[i], net, st.account.ufvk) ==> exists|
                x: Txo,
            |
                #[trigger] st.account.recv_txos.contains(x) && x.id == (OutPoint {
                    txid,
                    n: i as u32,
                }) && x.recv_h == m[txid],
    ensures
        output_steps(st, net, m, h, txid, vout).account == st.account,
    decreases vout.len(),
{
    if vout.len() > 0 {
        let rest = vout.drop_last();
        assert forall|i: int|
            0 <= i < rest.len() && pays_home(#[trigger] rest[i], net, st.account.ufvk) implies exists|
            x: Txo,
        |
            #[trigger] st.account.recv_txos.contains(x) && x.id == (OutPoint { txid, n: i as u32 })
                && x.recv_h == m[txid] by {
            assert(rest[i] == vout[i]);
        }
        a_known_output_is_not_received_again(st, net, m, h, txid, rest);
        lemma_home(vout.last(), net, st.account.ufvk);
        let n = vout.len() - 1;
        assert(vout[n] == vout.last());
        if pays_home(vout[n], net, st.account.ufvk) {
            let id = OutPoint { txid, n: n as u32 };
            let s = st.account.recv_txos;
            let x = choose|x: Txo|
                #[trigger] s.contains(x) && x.id == id && x.recv_h == m[txid];
            lemma_find_at(s, Order::Recv, m[txid].0, id);
            let k = choose|k: int| 0 <= k < s.len() && s[k] == x;
            assert(s[k].at(Order::Recv) == m[txid].0 && s[k].id() == id);
        }
    }
}

} // verus!
