//! Reading full transactions.
use crate::accounts::{AccountModel, ManualAccount, ManualWallet};
use crate::addresses::{
    a_script_pays_to_one_address, belongs, p2pkh_script, p2sh_script, recipient, recipient_of,
    script_pays, t_addr_belongs_to_account,
};
use crate::audit::{note_count, notes_countable, AuditLog};
use crate::books::{
    entry_place, is_entered, log_tx, place_from, update_insert_i, update_with_tx, with_tx,
};
use crate::byte_map::ByteMap;
use crate::bytes::push_all;
use crate::compact::{lemma_countable, plus_or_same, with_account};
use crate::height::BlockHeight;
use crate::listing::{find_at, insert_by_height, position_at, with_item, Order};
use crate::network::NetworkType;
use crate::notes::{OutPoint, TransparentAddress, TxId, Txo, UNKNOWN_TREE_POSITION};
use crate::orchard_scan::{
    decrypt_action, received_note, recover_action, sent_note, FoundNote, OrchardAction,
    PreparedKeys, Scope,
};
use crate::scan::{
    action_part, after_action, an_action_keeps_the_notes, handle_orchard_action, known_height,
    notes_amounts_ok, ActionSight,
};
use crate::staking::StakingAction;
use crate::tx_part::{TxParts, WalletTxPart};
use crate::wallet_tx::{blank_memo, memo_is_empty, no_memo, TxStatus, WalletTx};
use crate::zats::Zatoshis;
use vstd::prelude::*;

verus! {

/// A transparent output of a transaction.
#[derive(Debug)]
pub struct TxOut {
    pub value: Zatoshis,
    pub script: Vec<u8>,
}

/// The script that pays to an address.
pub open spec fn script_to(a: TransparentAddress) -> Seq<u8> {
    match a {
        TransparentAddress::PublicKeyHash(h) => p2pkh_script(h@),
        TransparentAddress::ScriptHash(h) => p2sh_script(h@),
    }
}

impl Txo {
    /// The output as it stands in a transaction.
    pub fn txout(&self) -> (r: TxOut)
        ensures
            r.value == self.value,
            r.script@ == script_to(self.t_addr),
    {
        let mut script: Vec<u8> = Vec::new();
        match &self.t_addr {
            TransparentAddress::PublicKeyHash(h) => {
                push_all(&mut script, &[0x76u8, 0xa9, 0x14]);
                push_all(&mut script, h);
                push_all(&mut script, &[0x88u8, 0xac]);
                assert(script@ =~= p2pkh_script(h@));
            },
            TransparentAddress::ScriptHash(h) => {
                push_all(&mut script, &[0xa9u8, 0x14]);
                push_all(&mut script, h);
                push_all(&mut script, &[0x87u8]);
                assert(script@ =~= p2sh_script(h@));
            },
        }
        TxOut { value: self.value, script }
    }
}

/// The script of an address pays to that address.
pub proof fn a_script_pays_to_its_address(a: TransparentAddress)
    ensures
        recipient_of(script_to(a)) == Some(a),
{
    assert(script_pays(script_to(a), Some(a)));
    a_script_pays_to_one_address(script_to(a), Some(a), recipient_of(script_to(a)));
}

/// The transparent part of a transaction.
#[derive(Debug)]
pub struct TransparentBundle {
    pub is_coinbase: bool,
    /// The outputs that the inputs spend.
    pub vin: Vec<OutPoint>,
    pub vout: Vec<TxOut>,
}

/// A full transaction.
#[derive(Debug)]
pub struct FullTx {
    pub txid: TxId,
    /// The height from which on the transaction cannot be mined, or zero.
    pub expiry_height: u32,
    pub transparent: Option<TransparentBundle>,
    pub actions: Vec<OrchardAction>,
    pub staking_action: Option<StakingAction>,
}

/// A part with one more note spent, unless the sum cannot exist.
pub open spec fn plus_spent(p: WalletTxPart, z: Zatoshis) -> Option<WalletTxPart> {
    match p.spent_zats.plus(z) {
        Some(sum) => Some(
            WalletTxPart {
                spent_note_count: (p.spent_note_count + 1) as usize,
                spent_zats: sum,
                ..p
            },
        ),
        None => None,
    }
}

/// A part with one more note sent, unless the sum cannot exist.
pub open spec fn plus_sent(p: WalletTxPart, z: Zatoshis) -> Option<WalletTxPart> {
    match p.sent_zats.plus(z) {
        Some(sum) => Some(
            WalletTxPart { sent_note_count: (p.sent_note_count + 1) as usize, sent_zats: sum, ..p },
        ),
        None => None,
    }
}

/// A part with one more note received, unless the sum cannot exist.
pub open spec fn plus_recv(p: WalletTxPart, z: Zatoshis) -> Option<WalletTxPart> {
    match p.recv_zats.plus(z) {
        Some(sum) => Some(
            WalletTxPart { recv_note_count: (p.recv_note_count + 1) as usize, recv_zats: sum, ..p },
        ),
        None => None,
    }
}

/// How far the reading of the transparent part has come: the account, and what moved, unless a sum
/// could not exist, which ends the reading.
pub struct TransparentState {
    pub account: AccountModel,
    pub part: Option<WalletTxPart>,
}

/// One more input. An output that the account holds is spent; one that it held before is counted.
pub open spec fn input_step(
    st: TransparentState,
    m: Map<TxId, BlockHeight>,
    h: BlockHeight,
    prevout: OutPoint,
) -> TransparentState {
    if st.part is None || !m.contains_key(prevout.txid) {
        st
    } else {
        let t = st.part->Some_0;
        let a = st.account;
        let at = m[prevout.txid].0;
        match find_at(a.utxos, Order::Recv, at, prevout) {
            Some(i) => {
                let left = AccountModel { utxos: a.utxos.remove(i), ..a };
                match plus_spent(t, a.utxos[i].value) {
                    Some(p) => TransparentState {
                        account: AccountModel {
                            stxos: with_item(
                                a.stxos,
                                Order::Spent,
                                Txo { spent_h: h, ..a.utxos[i] },
                            ),
                            ..left
                        },
                        part: Some(p),
                    },
                    None => TransparentState { account: left, part: None },
                }
            },
            None => match find_at(a.recv_txos, Order::Recv, at, prevout) {
                Some(i) => TransparentState {
                    account: a,
                    part: plus_spent(t, a.recv_txos[i].value),
                },
                None => st,
            },
        }
    }
}

/// The inputs, one after the other.
pub open spec fn input_steps(
    st: TransparentState,
    m: Map<TxId, BlockHeight>,
    h: BlockHeight,
    vin: Seq<OutPoint>,
) -> TransparentState
    decreases vin.len(),
{
    if vin.len() == 0 {
        st
    } else {
        input_step(input_steps(st, m, h, vin.drop_last()), m, h, vin.last())
    }
}

/// The output that a transaction makes for the account.
pub open spec fn new_txo(txid: TxId, n: int, h: BlockHeight, out: TxOut, to: TransparentAddress) -> Txo {
    Txo {
        recv_h: h,
        spent_h: BlockHeight(0),
        id: OutPoint { txid, n: n as u32 },
        value: out.value,
        t_addr: to,
    }
}

/// The account with an output received, unless it is known.
pub open spec fn receive_txo(a: AccountModel, u: Txo, at: BlockHeight) -> AccountModel {
    if find_at(a.utxos, Order::Recv, at.0, u.id) is None && find_at(
        a.recv_txos,
        Order::Recv,
        at.0,
        u.id,
    ) is None {
        AccountModel {
            recv_txos: with_item(a.recv_txos, Order::Recv, u),
            utxos: with_item(a.utxos, Order::Recv, u),
            ..a
        }
    } else {
        a
    }
}

/// One more output. If the wallet spends in the transaction, it sends every output; one that pays to
/// an address of the account is received.
pub open spec fn output_step(
    st: TransparentState,
    net: NetworkType,
    m: Map<TxId, BlockHeight>,
    h: BlockHeight,
    txid: TxId,
    n: int,
    out: TxOut,
) -> TransparentState {
    if st.part is None {
        st
    } else {
        let t = st.part->Some_0;
        let sent = if t.spent_note_count > 0 {
            plus_sent(t, out.value)
        } else {
            Some(t)
        };
        match (sent, recipient_of(out.script@)) {
            (Some(s), Some(to)) => if belongs(net, st.account.ufvk, to) {
                match plus_recv(s, out.value) {
                    Some(p) => TransparentState {
                        account: receive_txo(
                            st.account,
                            new_txo(txid, n, h, out, to),
                            known_height(m, txid, h),
                        ),
                        part: Some(p),
                    },
                    None => TransparentState { part: None, ..st },
                }
            } else {
                TransparentState { part: Some(s), ..st }
            },
            _ => TransparentState { part: sent, ..st },
        }
    }
}

/// The outputs, one after the other.
pub open spec fn output_steps(
    st: TransparentState,
    net: NetworkType,
    m: Map<TxId, BlockHeight>,
    h: BlockHeight,
    txid: TxId,
    vout: Seq<TxOut>,
) -> TransparentState
    decreases vout.len(),
{
    if vout.len() == 0 {
        st
    } else {
        output_step(
            output_steps(st, net, m, h, txid, vout.drop_last()),
            net,
            m,
            h,
            txid,
            vout.len() - 1,
            vout.last(),
        )
    }
}

/// The account, and what moved, after the transparent part of a transaction.
pub open spec fn transparent_read(
    a: AccountModel,
    net: NetworkType,
    m: Map<TxId, BlockHeight>,
    h: BlockHeight,
    tx: FullTx,
) -> TransparentState {
    let start = TransparentState { account: a, part: Some(WalletTxPart::nothing()) };
    match tx.transparent {
        Some(b) => output_steps(
            if b.is_coinbase {
                start
            } else {
                input_steps(start, m, h, b.vin@)
            },
            net,
            m,
            h,
            tx.txid,
            b.vout@,
        ),
        None => start,
    }
}

/// How far the reading of the actions has come.
pub struct ShieldedState {
    pub account: AccountModel,
    pub part: WalletTxPart,
    pub memo_count: nat,
    pub memo: [u8; 512],
}

/// What a key finds in an action as the one who receives.
pub open spec fn found_received(keys: PreparedKeys, a: OrchardAction) -> Option<FoundNote> {
    match keys.orchard_fvk {
        Some(fvk) => received_note(fvk, keys.scope == Scope::Internal, a.bytes()),
        None => None,
    }
}

/// What a key finds in an action as the one who sent.
pub open spec fn found_sent(keys: PreparedKeys, a: OrchardAction) -> Option<FoundNote> {
    match keys.orchard_fvk {
        Some(fvk) => if keys.finds_sent {
            sent_note(fvk, keys.scope == Scope::Internal, a.bytes())
        } else {
            None
        },
        None => None,
    }
}

/// What a key finds in an action as the one who receives.
pub(crate) fn see_received(keys: &PreparedKeys, action: &OrchardAction) -> (r: Option<FoundNote>)
    ensures
        r == found_received(*keys, *action),
{
    match &keys.orchard_fvk {
        Some(fvk) => decrypt_action(fvk, keys.scope == Scope::Internal, &action.to_bytes()),
        None => None,
    }
}

/// What a key finds in an action as the one who sent.
pub(crate) fn see_sent(keys: &PreparedKeys, action: &OrchardAction) -> (r: Option<FoundNote>)
    ensures
        r == found_sent(*keys, *action),
{
    match &keys.orchard_fvk {
        Some(fvk) => if keys.finds_sent {
            recover_action(fvk, keys.scope == Scope::Internal, &action.to_bytes())
        } else {
            None
        },
        None => None,
    }
}

pub open spec fn note_in(f: Option<FoundNote>) -> Option<crate::notes::Note> {
    match f {
        Some(f) => Some(f.note),
        None => None,
    }
}

/// What a key sees in an action.
pub open spec fn full_sight(
    keys: PreparedKeys,
    h: BlockHeight,
    txid: TxId,
    a: OrchardAction,
) -> ActionSight {
    ActionSight {
        position: UNKNOWN_TREE_POSITION,
        block_h: h,
        txid,
        spent_nf: a.nullifier,
        received: note_in(found_received(keys, a)),
        sent: note_in(found_sent(keys, a)),
    }
}

/// The memo of an action, if it says something: that of the received note, or else of the sent one.
pub open spec fn action_memo(keys: PreparedKeys, a: OrchardAction) -> Option<[u8; 512]> {
    let f = match found_received(keys, a) {
        Some(f) => Some(f),
        None => found_sent(keys, a),
    };
    match f {
        Some(f) => if f.memo@[0] != 0xf6 {
            Some(f.memo)
        } else {
            None
        },
        None => None,
    }
}

/// One more action.
pub open spec fn action_step(
    st: ShieldedState,
    m: Map<TxId, BlockHeight>,
    keys: PreparedKeys,
    h: BlockHeight,
    txid: TxId,
    a: OrchardAction,
) -> ShieldedState {
    let sight = full_sight(keys, h, txid, a);
    ShieldedState {
        account: after_action(st.account, m, keys, sight),
        part: plus_or_same(st.part, action_part(st.account, keys, sight)),
        memo_count: st.memo_count + if action_memo(keys, a) is Some {
            1nat
        } else {
            0nat
        },
        memo: match action_memo(keys, a) {
            Some(memo) => memo,
            None => st.memo,
        },
    }
}

/// The actions, one after the other.
pub open spec fn action_steps(
    st: ShieldedState,
    m: Map<TxId, BlockHeight>,
    keys: PreparedKeys,
    h: BlockHeight,
    txid: TxId,
    actions: Seq<OrchardAction>,
) -> ShieldedState
    decreases actions.len(),
{
    if actions.len() == 0 {
        st
    } else {
        action_step(
            action_steps(st, m, keys, h, txid, actions.drop_last()),
            m,
            keys,
            h,
            txid,
            actions.last(),
        )
    }
}

/// The entry that a full transaction gives.
pub open spec fn full_entry(
    tx: FullTx,
    h: BlockHeight,
    t: WalletTxPart,
    s: ShieldedState,
    status: TxStatus,
) -> WalletTx {
    WalletTx {
        account_id: 0,
        txid: tx.txid,
        expiry_h: if tx.expiry_height == 0 {
            None
        } else {
            Some(BlockHeight(tx.expiry_height))
        },
        h,
        part_flags: TxParts::FULL_TX,
        parts: [t, s.part],
        memo_count: s.memo_count as usize,
        memo: s.memo,
        is_coinbase: tx.transparent matches Some(b) && b.is_coinbase,
        status,
        staking_action: tx.staking_action,
    }
}

fn spend_input(
    account: &mut ManualAccount,
    tx_h_map: &ByteMap<BlockHeight>,
    h: BlockHeight,
    prevout: &OutPoint,
    t: WalletTxPart,
) -> (r: Option<WalletTxPart>)
    requires
        tx_h_map.wf(),
        t.spent_note_count < usize::MAX,
    ensures
        final(account)@ == input_step(
            TransparentState { account: old(account)@, part: Some(t) },
            tx_h_map@,
            h,
            *prevout,
        ).account,
        r == input_step(
            TransparentState { account: old(account)@, part: Some(t) },
            tx_h_map@,
            h,
            *prevout,
        ).part,
{
    let at = match tx_h_map.get(&prevout.txid) {
        Some(at) => at,
        None => {
            return Some(t);
        },
    };
    let mut t = t;
    if let Some(i) = position_at(&account.utxos, Order::Recv, at, prevout) {
        let utxo = account.utxos.remove(i);
        match t.spent(utxo.value) {
            Some(_) => {
                insert_by_height(&mut account.stxos, Order::Spent, Txo { spent_h: h, ..utxo });
                Some(t)
            },
            None => None,
        }
    } else if let Some(i) = position_at(&account.recv_txos, Order::Recv, at, prevout) {
        match t.spent(account.recv_txos[i].value) {
            Some(_) => Some(t),
            None => None,
        }
    } else {
        Some(t)
    }
}

fn read_output(
    account: &mut ManualAccount,
    net: NetworkType,
    tx_h_map: &ByteMap<BlockHeight>,
    h: BlockHeight,
    txid: &TxId,
    n: u32,
    out: &TxOut,
    t: WalletTxPart,
) -> (r: Option<WalletTxPart>)
    requires
        tx_h_map.wf(),
        t.sent_note_count < usize::MAX,
        t.recv_note_count < usize::MAX,
    ensures
        final(account)@ == output_step(
            TransparentState { account: old(account)@, part: Some(t) },
            net,
            tx_h_map@,
            h,
            *txid,
            n as int,
            *out,
        ).account,
        r == output_step(
            TransparentState { account: old(account)@, part: Some(t) },
            net,
            tx_h_map@,
            h,
            *txid,
            n as int,
            *out,
        ).part,
{
    let mut t = t;
    if t.spent_note_count > 0 {
        if t.sent(out.value).is_none() {
            return None;
        }
    }
    if let Some(t_addr) = recipient(&out.script) {
        if t_addr_belongs_to_account(net, account.ufvk.as_str(), &t_addr) {
            let utxo = Txo {
                recv_h: h,
                spent_h: BlockHeight(0),
                id: OutPoint { txid: *txid, n },
                value: out.value,
                t_addr,
            };
            if t.recv(out.value).is_none() {
                return None;
            }
            let at = match tx_h_map.get(txid) {
                Some(at) => at,
                None => h,
            };
            if position_at(&account.utxos, Order::Recv, at, &utxo.id).is_none() && position_at(
                &account.recv_txos,
                Order::Recv,
                at,
                &utxo.id,
            ).is_none() {
                insert_by_height(&mut account.recv_txos, Order::Recv, utxo);
                insert_by_height(&mut account.utxos, Order::Recv, utxo);
            }
        }
    }
    Some(t)
}

/// How much a transparent part can have counted.
spec fn counts_within(p: WalletTxPart, spent: nat, sent: nat) -> bool {
    p.spent_note_count <= spent && p.sent_note_count <= sent && p.recv_note_count <= sent && p.wf()
}

/// The part of a transaction that is not looked at stays the account's own.
spec fn notes_kept(a: AccountModel, b: AccountModel) -> bool {
    &&& b.recv_orchard_notes == a.recv_orchard_notes
    &&& b.unspent_orchard_notes == a.unspent_orchard_notes
    &&& b.spent_orchard_notes == a.spent_orchard_notes
    &&& b.ufvk == a.ufvk
}

proof fn lemma_inputs_stopped(
    st: TransparentState,
    m: Map<TxId, BlockHeight>,
    h: BlockHeight,
    vin: Seq<OutPoint>,
    n: int,
)
    requires
        0 <= n <= vin.len(),
        input_steps(st, m, h, vin.take(n)).part is None,
    ensures
        input_steps(st, m, h, vin) == input_steps(st, m, h, vin.take(n)),
    decreases vin.len() - n,
{
    if n < vin.len() {
        assert(vin.take(n + 1).drop_last() =~= vin.take(n));
        lemma_inputs_stopped(st, m, h, vin, n + 1);
    } else {
        assert(vin.take(n) =~= vin);
    }
}

proof fn lemma_outputs_stopped(
    st: TransparentState,
    net: NetworkType,
    m: Map<TxId, BlockHeight>,
    h: BlockHeight,
    txid: TxId,
    vout: Seq<TxOut>,
    n: int,
)
    requires
        0 <= n <= vout.len(),
        output_steps(st, net, m, h, txid, vout.take(n)).part is None,
    ensures
        output_steps(st, net, m, h, txid, vout) == output_steps(
            st,
            net,
            m,
            h,
            txid,
            vout.take(n),
        ),
    decreases vout.len() - n,
{
    if n < vout.len() {
        assert(vout.take(n + 1).drop_last() =~= vout.take(n));
        lemma_outputs_stopped(st, net, m, h, txid, vout, n + 1);
    } else {
        assert(vout.take(n) =~= vout);
    }
}

fn read_inputs(
    account: &mut ManualAccount,
    tx_h_map: &ByteMap<BlockHeight>,
    h: BlockHeight,
    vin: &Vec<OutPoint>,
) -> (r: Option<WalletTxPart>)
    requires
        tx_h_map.wf(),
    ensures
        ({
            let st = input_steps(
                TransparentState { account: old(account)@, part: Some(WalletTxPart::nothing()) },
                tx_h_map@,
                h,
                vin@,
            );
            final(account)@ == st.account && r == st.part
        }),
        notes_kept(old(account)@, final(account)@),
        r matches Some(p) ==> counts_within(p, vin@.len(), 0),
{
    let ghost st0 = TransparentState {
        account: account@,
        part: Some(WalletTxPart::nothing()),
    };
    let mut t = WalletTxPart::zero();
    let mut i: usize = 0;
    while i < vin.len()
        invariant
            i <= vin@.len(),
            tx_h_map.wf(),
            st0.account == old(account)@,
            st0.part == Some(WalletTxPart::nothing()),
            input_steps(st0, tx_h_map@, h, vin@.take(i as int)) == (TransparentState {
                account: account@,
                part: Some(t),
            }),
            notes_kept(old(account)@, account@),
            counts_within(t, i as nat, 0),
        decreases vin.len() - i,
    {
        proof {
            assert(vin@.take(i + 1).drop_last() =~= vin@.take(i as int));
        }
        match spend_input(account, tx_h_map, h, &vin[i], t) {
            Some(p) => {
                t = p;
            },
            None => {
                proof {
                    lemma_inputs_stopped(st0, tx_h_map@, h, vin@, i + 1);
                }
                return None;
            },
        }
        i += 1;
    }
    assert(vin@.take(i as int) =~= vin@);
    Some(t)
}

fn read_outputs(
    account: &mut ManualAccount,
    net: NetworkType,
    tx_h_map: &ByteMap<BlockHeight>,
    h: BlockHeight,
    txid: &TxId,
    vout: &Vec<TxOut>,
    t0: WalletTxPart,
    spent_max: Ghost<nat>,
) -> (r: Option<WalletTxPart>)
    requires
        tx_h_map.wf(),
        vout@.len() <= 0x1_0000_0000,
        vout@.len() < usize::MAX,
        counts_within(t0, spent_max@, 0),
    ensures
        ({
            let st = output_steps(
                TransparentState { account: old(account)@, part: Some(t0) },
                net,
                tx_h_map@,
                h,
                *txid,
                vout@,
            );
            final(account)@ == st.account && r == st.part
        }),
        notes_kept(old(account)@, final(account)@),
        r matches Some(p) ==> counts_within(p, spent_max@, vout@.len()),
{
    let ghost st0 = TransparentState { account: account@, part: Some(t0) };
    let mut t = t0;
    let mut i: usize = 0;
    while i < vout.len()
        invariant
            i <= vout@.len(),
            vout@.len() <= 0x1_0000_0000,
            vout@.len() < usize::MAX,
            tx_h_map.wf(),
            st0 == (TransparentState { account: old(account)@, part: Some(t0) }),
            output_steps(st0, net, tx_h_map@, h, *txid, vout@.take(i as int)) == (TransparentState {
                account: account@,
                part: Some(t),
            }),
            notes_kept(old(account)@, account@),
            counts_within(t, spent_max@, i as nat),
        decreases vout.len() - i,
    {
        proof {
            assert(vout@.take(i + 1).drop_last() =~= vout@.take(i as int));
        }
        match read_output(account, net, tx_h_map, h, txid, i as u32, &vout[i], t) {
            Some(p) => {
                t = p;
            },
            None => {
                proof {
                    lemma_outputs_stopped(st0, net, tx_h_map@, h, *txid, vout@, i + 1);
                }
                return None;
            },
        }
        i += 1;
    }
    assert(vout@.take(i as int) =~= vout@);
    Some(t)
}

/// What stays true while the actions are read.
spec fn shielded_ok(st: ShieldedState, a: AccountModel, n: nat) -> bool {
    &&& notes_amounts_ok(st.account)
    &&& st.account.recv_orchard_notes.len() <= a.recv_orchard_notes.len() + n
    &&& st.part.wf()
    &&& st.part.spent_note_count <= n
    &&& st.part.sent_note_count <= n
    &&& st.part.recv_note_count <= n
    &&& st.memo_count <= n
}

/// What the account has after a full transaction: its transparent part and its actions, or only the
/// transparent part where a sum could not exist.
pub open spec fn full_read(
    a: AccountModel,
    net: NetworkType,
    m: Map<TxId, BlockHeight>,
    keys: PreparedKeys,
    h: BlockHeight,
    tx: FullTx,
) -> (Option<WalletTxPart>, ShieldedState) {
    let t = transparent_read(a, net, m, h, tx);
    let start = ShieldedState {
        account: t.account,
        part: WalletTxPart::nothing(),
        memo_count: 0,
        memo: no_memo(),
    };
    match t.part {
        Some(p) => (Some(p), action_steps(start, m, keys, h, tx.txid, tx.actions@)),
        None => (None, start),
    }
}

fn read_actions(
    wallet: &mut ManualWallet,
    account_i: usize,
    keys: &PreparedKeys,
    block_h: BlockHeight,
    txid: &TxId,
    actions: &Vec<OrchardAction>,
    start_memo: &[u8; 512],
) -> (r: (WalletTxPart, usize, [u8; 512]))
    requires
        account_i < old(wallet).accounts@.len(),
        old(wallet).tx_h_map.wf(),
        notes_amounts_ok(old(wallet)@.accounts[account_i as int]),
    ensures
        ({
            let a = old(wallet)@.accounts[account_i as int];
            let st = action_steps(
                ShieldedState {
                    account: a,
                    part: WalletTxPart::nothing(),
                    memo_count: 0,
                    memo: *start_memo,
                },
                old(wallet)@.tx_h_map,
                *keys,
                block_h,
                *txid,
                actions@,
            );
            &&& final(wallet)@ == with_account(old(wallet)@, account_i as int, st.account)
            &&& r.0 == st.part
            &&& r.1 == st.memo_count
            &&& r.2 == st.memo
            &&& shielded_ok(st, a, actions@.len())
        }),
        final(wallet).tx_h_map == old(wallet).tx_h_map,
        final(wallet).seen_bond_values == old(wallet).seen_bond_values,
        final(wallet).accounts@.len() == old(wallet).accounts@.len(),
{
    let ghost w0 = wallet@;
    let ghost a0 = w0.accounts[account_i as int];
    let ghost m = w0.tx_h_map;
    let ghost st0 = ShieldedState {
        account: a0,
        part: WalletTxPart::nothing(),
        memo_count: 0,
        memo: *start_memo,
    };
    let mut part = WalletTxPart::zero();
    let mut memo_count: usize = 0;
    let mut memo: [u8; 512] = *start_memo;
    let internal = match keys.scope {
        Scope::Internal => true,
        Scope::External => false,
    };
    let mut i: usize = 0;
    assert(wallet@.accounts =~= w0.accounts.update(account_i as int, a0));
    while i < actions.len()
        invariant
            i <= actions@.len(),
            account_i < w0.accounts.len(),
            internal == (keys.scope == Scope::Internal),
            m == w0.tx_h_map,
            wallet.tx_h_map == old(wallet).tx_h_map,
            wallet.tx_h_map.wf(),
            wallet.seen_bond_values == old(wallet).seen_bond_values,
            wallet.accounts@.len() == old(wallet).accounts@.len() == w0.accounts.len(),
            ({
                let st = action_steps(st0, m, *keys, block_h, *txid, actions@.take(i as int));
                &&& shielded_ok(st, a0, i as nat)
                &&& wallet@ == with_account(w0, account_i as int, st.account)
                &&& part == st.part
                &&& memo_count == st.memo_count
                &&& memo == st.memo
            }),
        decreases actions.len() - i,
    {
        let ghost st = action_steps(st0, m, *keys, block_h, *txid, actions@.take(i as int));
        let action = &actions[i];
        let received = see_received(keys, action);
        let sent = see_sent(keys, action);
        let found = match &received {
            Some(f) => Some(f.memo),
            None => match &sent {
                Some(f) => Some(f.memo),
                None => None,
            },
        };
        if let Some(text) = found {
            if !memo_is_empty(&text) {
                memo_count += 1;
                memo = text;
            }
        }
        let sight = ActionSight {
            position: UNKNOWN_TREE_POSITION,
            block_h,
            txid: *txid,
            spent_nf: action.nullifier,
            received: match &received {
                Some(f) => Some(f.note),
                None => None,
            },
            sent: match &sent {
                Some(f) => Some(f.note),
                None => None,
            },
        };
        proof {
            assert(actions@.take(i + 1).drop_last() =~= actions@.take(i as int));
            assert(sight == full_sight(*keys, block_h, *txid, actions@[i as int]));
            an_action_keeps_the_notes(st.account, m, *keys, sight);
        }
        let moved = handle_orchard_action(wallet, account_i, keys, &sight);
        proof {
            assert(wallet@.accounts =~= w0.accounts.update(
                account_i as int,
                after_action(st.account, m, *keys, sight),
            ));
        }
        if let Some(p) = moved {
            if let Some(sum) = part.checked_add(&p) {
                part = sum;
            }
        }
        i += 1;
    }
    assert(actions@.take(i as int) =~= actions@);
    (part, memo_count, memo)
}

/// Reads a full transaction into an account, and enters it into the wallet's list. Nothing is entered
/// where amounts add up to more than can exist.
pub fn read_full_tx(
    wallet: &mut ManualWallet,
    net: NetworkType,
    account_i: usize,
    keys: &PreparedKeys,
    block_h: BlockHeight,
    tx: &FullTx,
    insert_i: &mut usize,
    status: TxStatus,
    log: &mut AuditLog,
) -> (r: Option<()>)
    requires
        account_i < old(wallet).accounts@.len(),
        old(wallet).tx_h_map.wf(),
        old(log).wf(),
        notes_countable(old(wallet)@.accounts),
        note_count(old(wallet)@.accounts) + tx.actions@.len() <= usize::MAX,
        notes_amounts_ok(old(wallet)@.accounts[account_i as int]),
        tx.transparent matches Some(b) ==> b.vout@.len() <= 0x1_0000_0000 && b.vout@.len()
            < usize::MAX,
        tx.transparent matches Some(b) ==> b.vin@.len() + tx.actions@.len() <= usize::MAX
            && b.vout@.len() + tx.actions@.len() <= usize::MAX,
        *old(insert_i) <= old(wallet)@.txs.len(),
        old(wallet)@.txs.len() < usize::MAX,
    ensures
        final(wallet).tx_h_map.wf(),
        final(wallet).seen_bond_values == old(wallet).seen_bond_values,
        final(log).wf(),
        ({
            let w = old(wallet)@;
            let (t, s) = full_read(
                w.accounts[account_i as int],
                net,
                w.tx_h_map,
                *keys,
                block_h,
                *tx,
            );
            let read = with_account(w, account_i as int, s.account);
            &&& r is Some == (t matches Some(p) && full_entry(*tx, block_h, p, s, status).sums_ok(
                false,
            ))
            &&& r is None ==> final(wallet)@ == read && *final(insert_i) == *old(insert_i)
                && final(log)@ == old(log)@
            &&& r is Some ==> {
                let e = full_entry(*tx, block_h, t->Some_0, s, status);
                let at = place_from(w.txs, *old(insert_i) as int, block_h.0);
                &&& final(log)@ == log_tx(old(log)@, read, e, at)
                &&& is_entered(read, e) ==> final(wallet)@ == with_tx(read, e, at)
                    && *final(insert_i) == entry_place(read, e, at) + 1
                &&& !is_entered(read, e) ==> final(wallet)@ == read && *final(insert_i) == at
            }
        }),
        *final(insert_i) <= final(wallet)@.txs.len(),
{
    let ghost w0 = wallet@;
    let ghost a0 = w0.accounts[account_i as int];
    let blank: [u8; 512] = blank_memo();
    let ghost (want_t, want_s) = full_read(a0, net, w0.tx_h_map, *keys, block_h, *tx);
    let mut t = Some(WalletTxPart::zero());
    let mut is_coinbase = false;
    let mut account = wallet.accounts.remove(account_i);
    assert(account@ == a0);
    if let Some(b) = &tx.transparent {
        is_coinbase = b.is_coinbase;
        if !is_coinbase {
            t = read_inputs(&mut account, &wallet.tx_h_map, block_h, &b.vin);
        }
        proof {
            if t is None {
                lemma_outputs_stopped(
                    input_steps(
                        TransparentState { account: a0, part: Some(WalletTxPart::nothing()) },
                        w0.tx_h_map,
                        block_h,
                        b.vin@,
                    ),
                    net,
                    w0.tx_h_map,
                    block_h,
                    tx.txid,
                    b.vout@,
                    0,
                );
                assert(b.vout@.take(0).len() == 0);
            }
        }
        if let Some(p) = t {
            t = read_outputs(
                &mut account,
                net,
                &wallet.tx_h_map,
                block_h,
                &tx.txid,
                &b.vout,
                p,
                Ghost(b.vin@.len()),
            );
        }
    }
    let ghost ta = account@;
    wallet.accounts.insert(account_i, account);
    assert(wallet@.accounts =~= w0.accounts.update(account_i as int, ta));
    assert(wallet@ == with_account(w0, account_i as int, ta));
    let t = match t {
        Some(p) => p,
        None => {
            return None;
        },
    };
    let (s, memo_count, memo) = read_actions(
        wallet,
        account_i,
        keys,
        block_h,
        &tx.txid,
        &tx.actions,
        &blank,
    );
    assert(wallet@.accounts =~= w0.accounts.update(account_i as int, want_s.account));
    let new_tx = WalletTx {
        account_id: 0,
        txid: tx.txid,
        expiry_h: if tx.expiry_height == 0 {
            None
        } else {
            Some(BlockHeight(tx.expiry_height))
        },
        h: block_h,
        part_flags: TxParts::FULL_TX,
        parts: [t, s],
        memo_count,
        memo,
        is_coinbase,
        status,
        staking_action: tx.staking_action,
    };
    assert(new_tx == full_entry(*tx, block_h, t, want_s, status));
    assert(new_tx.sums(false).counts_fit());
    if t.checked_add(&s).is_none() {
        return None;
    }
    proof {
        lemma_countable(w0.accounts, account_i as int, want_s.account, tx.actions@.len());
    }
    update_insert_i(&wallet.txs, insert_i, block_h);
    update_with_tx(wallet, new_tx, insert_i, log);
    Some(())
}

} // verus!
