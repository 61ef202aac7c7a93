//! What holds of every proposal: who is paid, what is spent, and what comes back.
use crate::accounts::ManualWallet;
use crate::addresses::{belongs, first_address, p2pkh_in};
use crate::fees::{fee_of, ProposedTransparentOutput};
use crate::funds::txo_sum;
use crate::height::{BlockHeight, PROPOSED};
use crate::network::NetworkType;
use crate::notes::{OrchardNote, TransparentAddress, Txo};
use crate::orchard_scan::orchard_key_in;
use crate::propose::{
    ask_bill, ask_fvk, ask_outputs, ask_spends, is_order, no_outputs, note_steps, notes_first, one_note,
    out_steps, own_addresses, payment_tried, pool_steps, proposed, settled, shield_tried,
    source_steps, spend_fits, stake_tried, staking_moves, transparent_only, tried, unbonding_key,
    utxo_steps, Ask, Bill, Funds, NoteSource, OutState, Payer, ProposedOrchardOutput,
    ProposedOrchardSpend, ProposedTx, Sources, SpendStage, SpendState, StakeAsk, TxOutput, TxPool,
};
use crate::staking::{StakingAction, StakingActionKind};
use crate::tree::{root_of, witness_of, OrchardShardTree, TreeModel, Witness};
use crate::tx_part::WalletTxPart;
use crate::wallet_tx::{is_blank_memo, TxStatus};
use crate::zats::{Zatoshis, MAX_MONEY};
use vstd::prelude::*;

verus! {

/// The transparent outputs among those that are asked for.
pub open spec fn asked_payments(outs: Seq<TxOutput>) -> Seq<ProposedTransparentOutput>
    decreases outs.len(),
{
    if outs.len() == 0 {
        seq![]
    } else {
        let before = asked_payments(outs.drop_last());
        match outs.last() {
            TxOutput::Transparent { dst, zats } => before.push(
                ProposedTransparentOutput { dst, zats },
            ),
            TxOutput::Orchard { .. } => before,
        }
    }
}

/// The notes among the outputs that are asked for.
pub open spec fn asked_notes(outs: Seq<TxOutput>) -> Seq<ProposedOrchardOutput>
    decreases outs.len(),
{
    if outs.len() == 0 {
        seq![]
    } else {
        let before = asked_notes(outs.drop_last());
        match outs.last() {
            TxOutput::Transparent { .. } => before,
            TxOutput::Orchard { with_ovk, dst, zats, memo } => before.push(
                ProposedOrchardOutput { with_ovk, dst, zats, memo },
            ),
        }
    }
}

/// What some transparent outputs pay in all.
pub open spec fn payments_sum(s: Seq<ProposedTransparentOutput>) -> nat
    decreases s.len(),
{
    if s.len() == 0 {
        0
    } else {
        payments_sum(s.drop_last()) + s.last().zats.zats as nat
    }
}

/// What some transparent outputs pay to an address.
pub open spec fn payments_to(s: Seq<ProposedTransparentOutput>, dst: TransparentAddress) -> nat
    decreases s.len(),
{
    if s.len() == 0 {
        0
    } else {
        payments_to(s.drop_last(), dst) + if s.last().dst == dst {
            s.last().zats.zats as nat
        } else {
            0
        }
    }
}

/// What some notes are worth in all.
pub open spec fn notes_sum(s: Seq<ProposedOrchardOutput>) -> nat
    decreases s.len(),
{
    if s.len() == 0 {
        0
    } else {
        notes_sum(s.drop_last()) + s.last().zats.zats as nat
    }
}

/// What the notes to an address are worth.
pub open spec fn notes_to(s: Seq<ProposedOrchardOutput>, dst: [u8; 43]) -> nat
    decreases s.len(),
{
    if s.len() == 0 {
        0
    } else {
        notes_to(s.drop_last(), dst) + if s.last().dst == dst {
            s.last().zats.zats as nat
        } else {
            0
        }
    }
}

/// What some transparent outputs pay to addresses of an account.
pub open spec fn payments_home(
    s: Seq<ProposedTransparentOutput>,
    net: NetworkType,
    ufvk: Seq<char>,
) -> nat
    decreases s.len(),
{
    if s.len() == 0 {
        0
    } else {
        payments_home(s.drop_last(), net, ufvk) + if belongs(net, ufvk, s.last().dst) {
            s.last().zats.zats as nat
        } else {
            0
        }
    }
}

/// What some notes that are spent are worth.
pub open spec fn spends_sum(s: Seq<ProposedOrchardSpend>) -> nat
    decreases s.len(),
{
    if s.len() == 0 {
        0
    } else {
        spends_sum(s.drop_last()) + s.last().note.note.value as nat
    }
}

/// How many of some notes carry a memo.
pub open spec fn memos_in(s: Seq<ProposedOrchardOutput>) -> nat
    decreases s.len(),
{
    if s.len() == 0 {
        0
    } else {
        memos_in(s.drop_last()) + if s.last().memo@[0] != 0xf6 {
            1nat
        } else {
            0
        }
    }
}

/// Whether what was made of outputs is those outputs, and what moves is what they pay.
spec fn outs_agree(st: OutState, payer: Payer, memo_count: nat, memo: [u8; 512]) -> bool {
    &&& st.t.sent_zats.zats == payments_sum(st.t_outputs)
    &&& st.s.sent_zats.zats == notes_sum(st.o_outputs)
    &&& st.t.recv_zats.zats == payments_home(st.t_outputs, payer.net, payer.ufvk)
    &&& st.s.recv_zats.zats == notes_to(st.o_outputs, payer.orchard)
    &&& st.t_outputs.len() <= usize::MAX ==> st.t.sent_note_count == st.t_outputs.len()
    &&& st.o_outputs.len() <= usize::MAX ==> st.s.sent_note_count == st.o_outputs.len()
    &&& st.t.spent_zats.zats == 0 && st.t.spent_note_count == 0
    &&& st.s.spent_zats.zats == 0 && st.s.spent_note_count == 0
    &&& st.memo_count == memo_count + memos_in(st.o_outputs)
    &&& st.memo == if st.o_outputs.len() == 0 {
        memo
    } else {
        st.o_outputs.last().memo
    }
}

proof fn lemma_outs_agree(st: OutState, payer: Payer, outs: Seq<TxOutput>)
    requires
        st.t == WalletTxPart::nothing(),
        st.s == WalletTxPart::nothing(),
        st.t_outputs.len() == 0,
        st.o_outputs.len() == 0,
        st.ok,
    ensures
        out_steps(st, payer, outs).ok ==> {
            let r = out_steps(st, payer, outs);
            &&& r.t_outputs == asked_payments(outs)
            &&& r.o_outputs == asked_notes(outs)
            &&& outs_agree(r, payer, st.memo_count, st.memo)
        },
    decreases outs.len(),
{
    if outs.len() > 0 {
        let before = out_steps(st, payer, outs.drop_last());
        let r = out_steps(st, payer, outs);
        lemma_outs_agree(st, payer, outs.drop_last());
        if r.ok {
            assert(before.ok);
            match outs.last() {
                TxOutput::Transparent { dst, zats } => {
                    assert(r.t_outputs.drop_last() =~= before.t_outputs);
                },
                TxOutput::Orchard { with_ovk, dst, zats, memo } => {
                    assert(r.o_outputs.drop_last() =~= before.o_outputs);
                },
            }
        }
    } else {
        assert(st.t_outputs =~= seq![]);
        assert(st.o_outputs =~= seq![]);
    }
}

/// Whether what was chosen to be spent is what moves, and nothing that is sent has changed.
spec fn spends_agree(first: SpendState, st: SpendState) -> bool {
    &&& st.t.spent_zats.zats == txo_sum(st.t_inputs)
    &&& st.s.spent_zats.zats == spends_sum(st.o_inputs)
    &&& st.total == first.total + txo_sum(st.t_inputs) + spends_sum(st.o_inputs)
    &&& st.t_inputs.len() <= usize::MAX ==> st.t.spent_note_count == st.t_inputs.len()
    &&& st.o_inputs.len() <= usize::MAX ==> st.s.spent_note_count == st.o_inputs.len()
    &&& st.t.sent_zats == first.t.sent_zats && st.t.sent_note_count == first.t.sent_note_count
    &&& st.s.sent_zats == first.s.sent_zats && st.s.sent_note_count == first.s.sent_note_count
    &&& st.t.recv_zats == first.t.recv_zats && st.t.recv_note_count == first.t.recv_note_count
    &&& st.s.recv_zats == first.s.recv_zats && st.s.recv_note_count == first.s.recv_note_count
}

/// Whether some inputs fall short of a bill and the fee.
pub open spec fn falls_short(
    base: nat,
    bill: Bill,
    t_inputs: Seq<Txo>,
    o_inputs: Seq<ProposedOrchardSpend>,
) -> bool {
    match fee_of(t_inputs.len(), bill.t_outputs, o_inputs.len(), bill.o_outputs.len()) {
        Some(fee) => base + txo_sum(t_inputs) + spends_sum(o_inputs) < bill.target + fee,
        None => false,
    }
}

/// Whether nothing was chosen, or all but the last input falls short.
pub open spec fn none_too_many(
    base: nat,
    bill: Bill,
    t_inputs: Seq<Txo>,
    o_inputs: Seq<ProposedOrchardSpend>,
) -> bool {
    ||| t_inputs.len() == 0 && o_inputs.len() == 0
    ||| t_inputs.len() + o_inputs.len() == 1
    ||| t_inputs.len() > 0 && falls_short(base, bill, t_inputs.drop_last(), o_inputs)
    ||| o_inputs.len() > 0 && falls_short(base, bill, t_inputs, o_inputs.drop_last())
}

spec fn is_frugal(base: nat, bill: Bill, st: SpendState) -> bool {
    &&& none_too_many(base, bill, st.t_inputs, st.o_inputs)
    &&& st.stage == SpendStage::Looking ==> (st.t_inputs.len() == 0 && st.o_inputs.len() == 0)
        || falls_short(base, bill, st.t_inputs, st.o_inputs)
}

proof fn lemma_utxos_agree(
    first: SpendState,
    st: SpendState,
    key_addr: TransparentAddress,
    bill: Bill,
    utxos: Seq<Txo>,
)
    requires
        spends_agree(first, st),
        is_frugal(first.total, bill, st),
    ensures
        spends_agree(first, utxo_steps(st, key_addr, bill, utxos)),
        is_frugal(first.total, bill, utxo_steps(st, key_addr, bill, utxos)),
        utxo_steps(st, key_addr, bill, utxos).o_inputs == st.o_inputs,
    decreases utxos.len(),
{
    if utxos.len() > 0 {
        lemma_utxos_agree(first, st, key_addr, bill, utxos.drop_last());
        let before = utxo_steps(st, key_addr, bill, utxos.drop_last());
        let after = utxo_steps(st, key_addr, bill, utxos);
        if after.t_inputs != before.t_inputs {
            assert(after.t_inputs.drop_last() =~= before.t_inputs);
            if before.t_inputs.len() == 0 && before.o_inputs.len() == 0 {
                assert(after.t_inputs.len() + after.o_inputs.len() == 1);
            }
        }
    }
}

proof fn lemma_notes_agree(
    first: SpendState,
    st: SpendState,
    src: NoteSource,
    bill: Bill,
    notes: Seq<OrchardNote>,
    order: Seq<usize>,
)
    requires
        spends_agree(first, st),
        is_frugal(first.total, bill, st),
    ensures
        spends_agree(first, note_steps(st, src, bill, notes, order)),
        is_frugal(first.total, bill, note_steps(st, src, bill, notes, order)),
        note_steps(st, src, bill, notes, order).t_inputs == st.t_inputs,
    decreases order.len(),
{
    if order.len() > 0 {
        lemma_notes_agree(first, st, src, bill, notes, order.drop_last());
        let before = note_steps(st, src, bill, notes, order.drop_last());
        let after = note_steps(st, src, bill, notes, order);
        if after.o_inputs != before.o_inputs {
            assert(after.o_inputs.drop_last() =~= before.o_inputs);
            if before.t_inputs.len() == 0 && before.o_inputs.len() == 0 {
                assert(after.t_inputs.len() + after.o_inputs.len() == 1);
            }
        }
    }
}

proof fn lemma_pools_agree(first: SpendState, f: Funds, bill: Bill, pools: Seq<TxPool>)
    requires
        spends_agree(first, first),
        first.t_inputs.len() == 0,
        first.o_inputs.len() == 0,
    ensures
        spends_agree(first, pool_steps(first, f, bill, pools)),
        is_frugal(first.total, bill, pool_steps(first, f, bill, pools)),
    decreases pools.len(),
{
    if pools.len() > 0 {
        lemma_pools_agree(first, f, bill, pools.drop_last());
        let before = pool_steps(first, f, bill, pools.drop_last());
        match pools.last() {
            TxPool::Transparent => {
                if let Some(addr) = f.key_addr {
                    lemma_utxos_agree(first, before, addr, bill, f.account.utxos);
                }
            },
            TxPool::Orchard(tree) => {
                if let (Some(fvk), Some(anchor)) = (f.fvk, f.anchor) {
                    lemma_notes_agree(
                        first,
                        before,
                        NoteSource { fvk, tree: tree@, anchor_h: f.anchor_h, anchor },
                        bill,
                        f.account.unspent_orchard_notes,
                        f.order,
                    );
                }
            },
        }
    }
}

/// What a proposal begins with.
spec fn first_state(out: OutState, b: WalletTxPart) -> SpendState {
    SpendState {
        t: out.t,
        s: out.s,
        t_inputs: seq![],
        o_inputs: seq![],
        total: b.spent_zats.zats as nat,
        stage: SpendStage::Looking,
    }
}

proof fn lemma_ask_outputs(ask: Ask, orchard: [u8; 43])
    requires
        ask_outputs(ask, orchard).ok,
    ensures
        ask_outputs(ask, orchard).t_outputs == asked_payments(ask.outputs),
        ask_outputs(ask, orchard).o_outputs == asked_notes(ask.outputs),
        outs_agree(
            ask_outputs(ask, orchard),
            Payer { net: ask.net, ufvk: ask.account.ufvk, orchard },
            ask.tx.memo_count as nat,
            ask.tx.memo,
        ),
{
    lemma_outs_agree(
        OutState {
            t: WalletTxPart::nothing(),
            s: WalletTxPart::nothing(),
            t_outputs: seq![],
            o_outputs: seq![],
            memo_count: ask.tx.memo_count as nat,
            memo: ask.tx.memo,
            ok: true,
        },
        Payer { net: ask.net, ufvk: ask.account.ufvk, orchard },
        ask.outputs,
    );
}

proof fn lemma_blank(memo: [u8; 512])
    requires
        memo == crate::wallet_tx::no_memo(),
    ensures
        is_blank_memo(memo),
{
    crate::wire::lemma_array_holds::<512>(
        Seq::new(512, |i: int| if i == 0 { 0xf6u8 } else { 0u8 }),
    );
}

/// In every proposal the outputs that were asked for are exactly the first ones, in their order. At most
/// one output comes beyond them. It is paid to an address of the paying account: to its own orchard
/// address if the account has an orchard key, without a memo and so that the wallet finds it again, and
/// to its own transparent address otherwise.
pub proof fn the_change_goes_to_the_payer(ask: Ask)
    requires
        proposed(ask).1 is Some,
    ensures
        ({
            let prep = proposed(ask).1->Some_0;
            let main = ask.net == NetworkType::Main;
            let own = first_address(main, ask.account.ufvk);
            let pkh = p2pkh_in(main, ask.account.ufvk, 0);
            let (t, o) = (asked_payments(ask.outputs), asked_notes(ask.outputs));
            &&& own is Some && own->Some_0.1 is Some && pkh is Some
            &&& t.len() <= prep.t_outputs.len() && prep.t_outputs.take(t.len() as int) == t
            &&& o.len() <= prep.o_outputs.len() && prep.o_outputs.take(o.len() as int) == o
            &&& prep.t_outputs.len() + prep.o_outputs.len() <= t.len() + o.len() + 1
            &&& forall|i: int|
                t.len() <= i < prep.t_outputs.len() ==> (#[trigger] prep.t_outputs[i]).dst
                    == TransparentAddress::PublicKeyHash(pkh->Some_0) && prep.t_outputs[i].zats.zats
                    > 0
            &&& forall|i: int|
                o.len() <= i < prep.o_outputs.len() ==> (#[trigger] prep.o_outputs[i]).dst
                    == own->Some_0.1->Some_0 && prep.o_outputs[i].with_ovk
                    && prep.o_outputs[i].zats.zats > 0 && is_blank_memo(prep.o_outputs[i].memo)
            &&& orchard_key_in(main, ask.account.ufvk) is Some ==> prep.t_outputs == t
            &&& orchard_key_in(main, ask.account.ufvk) is None ==> prep.o_outputs == o
        }),
{
    let (orchard, pkh) = own_addresses(ask.net, ask.account.ufvk)->Some_0;
    lemma_ask_outputs(ask, orchard);
    let prep = proposed(ask).1->Some_0;
    let (t, o) = (asked_payments(ask.outputs), asked_notes(ask.outputs));
    assert(prep.t_outputs.take(t.len() as int) =~= t);
    assert(prep.o_outputs.take(o.len() as int) =~= o);
    if prep.o_outputs.len() > o.len() {
        lemma_blank(prep.o_outputs.last().memo);
    }
}

/// Any other recipient gets exactly the amount that was asked for.
pub proof fn others_get_what_was_asked(ask: Ask, t_dst: TransparentAddress, o_dst: [u8; 43])
    requires
        proposed(ask).1 is Some,
    ensures
        ({
            let prep = proposed(ask).1->Some_0;
            let main = ask.net == NetworkType::Main;
            let own = first_address(main, ask.account.ufvk)->Some_0.1->Some_0;
            let pkh = p2pkh_in(main, ask.account.ufvk, 0)->Some_0;
            &&& t_dst != TransparentAddress::PublicKeyHash(pkh) ==> payments_to(
                prep.t_outputs,
                t_dst,
            ) == payments_to(asked_payments(ask.outputs), t_dst)
            &&& o_dst != own ==> notes_to(prep.o_outputs, o_dst) == notes_to(
                asked_notes(ask.outputs),
                o_dst,
            )
        }),
{
    the_change_goes_to_the_payer(ask);
    let prep = proposed(ask).1->Some_0;
    let (t, o) = (asked_payments(ask.outputs), asked_notes(ask.outputs));
    if prep.t_outputs.len() > t.len() {
        assert(prep.t_outputs.drop_last() =~= prep.t_outputs.take(t.len() as int));
    } else {
        assert(prep.t_outputs =~= prep.t_outputs.take(t.len() as int));
    }
    if prep.o_outputs.len() > o.len() {
        assert(prep.o_outputs.drop_last() =~= prep.o_outputs.take(o.len() as int));
    } else {
        assert(prep.o_outputs =~= prep.o_outputs.take(o.len() as int));
    }
}

/// What a withdrawn bond gives to a proposal.
pub open spec fn withdrawn(action: Option<StakingAction>) -> nat {
    match action {
        Some(a) => if a.kind == StakingActionKind::WithdrawDelegationBond {
            a.amount_zats as nat
        } else {
            0
        },
        None => 0,
    }
}

/// What a new bond takes of a proposal.
pub open spec fn bonded(action: Option<StakingAction>) -> nat {
    match action {
        Some(a) => if a.kind == StakingActionKind::CreateNewDelegationBond {
            a.amount_zats as nat
        } else {
            0
        },
        None => 0,
    }
}

/// A proposal is paid for to the last zatoshi: its inputs and a withdrawn bond are worth what its
/// outputs and a new bond are worth, and the fee. Nothing is spent beyond need: without the input that
/// was chosen last, the others fall short, unless it is the only one. The entry says what the inputs and
/// outputs are worth and how many there are.
pub proof fn a_proposal_adds_up(ask: Ask)
    requires
        proposed(ask).1 is Some,
        ask.action matches Some(a) ==> a.kind.is_accounted(),
    ensures
        ({
            let (tx, prep) = (proposed(ask).0, proposed(ask).1->Some_0);
            let main = ask.net == NetworkType::Main;
            let own = first_address(main, ask.account.ufvk)->Some_0.1->Some_0;
            let (t, o) = (asked_payments(ask.outputs), asked_notes(ask.outputs));
            let fee = fee_of(prep.t_inputs.len(), t, prep.o_inputs.len(), o.len());
            let target = payments_sum(t) + notes_sum(o) + bonded(ask.action);
            &&& fee is Some
            &&& txo_sum(prep.t_inputs) + spends_sum(prep.o_inputs) + withdrawn(ask.action)
                == payments_sum(prep.t_outputs) + notes_sum(prep.o_outputs) + bonded(ask.action)
                + fee->Some_0
            &&& none_too_many(
                withdrawn(ask.action),
                Bill { target, t_outputs: t, o_outputs: o },
                prep.t_inputs,
                prep.o_inputs,
            )
            &&& tx.parts[0].spent_zats.zats == txo_sum(prep.t_inputs)
            &&& tx.parts[1].spent_zats.zats == spends_sum(prep.o_inputs)
            &&& tx.parts[0].sent_zats.zats == payments_sum(prep.t_outputs)
            &&& tx.parts[1].sent_zats.zats == notes_sum(prep.o_outputs)
            &&& tx.parts[0].recv_zats.zats == payments_home(
                prep.t_outputs,
                ask.net,
                ask.account.ufvk,
            )
            &&& tx.parts[1].recv_zats.zats == notes_to(prep.o_outputs, own)
            &&& prep.t_inputs.len() <= usize::MAX ==> tx.parts[0].spent_note_count
                == prep.t_inputs.len()
            &&& prep.o_inputs.len() <= usize::MAX ==> tx.parts[1].spent_note_count
                == prep.o_inputs.len()
            &&& prep.t_outputs.len() <= usize::MAX ==> tx.parts[0].sent_note_count
                == prep.t_outputs.len()
            &&& prep.o_outputs.len() <= usize::MAX ==> tx.parts[1].sent_note_count
                == prep.o_outputs.len()
        }),
{
    let (orchard, pkh) = own_addresses(ask.net, ask.account.ufvk)->Some_0;
    lemma_ask_outputs(ask, orchard);
    let out = ask_outputs(ask, orchard);
    let b = staking_moves(ask.txs, ask.action)->Some_0;
    let src = source_steps(ask.chain_tip_h.minus(1), ask.pools)->Some_0;
    let first = first_state(out, b);
    let f = Funds {
        account: ask.account,
        order: ask.order,
        fvk: ask_fvk(ask),
        key_addr: ask.key_addr,
        anchor_h: ask.chain_tip_h.minus(1),
        anchor: src.anchor,
    };
    assert(b.sent_zats.zats == bonded(ask.action));
    assert(b.spent_zats.zats == withdrawn(ask.action));
    let bill = ask_bill(out, b);
    lemma_pools_agree(first, f, bill, ask.pools);
    let st = ask_spends(ask, src, out, b);
    assert(st == pool_steps(first, f, bill, ask.pools));
    let e = settled(st, bill, ask_fvk(ask) is Some, orchard, pkh)->Some_0;
    let (tx, prep) = (proposed(ask).0, proposed(ask).1->Some_0);
    assert(tx.parts@[0] == e.t && tx.parts@[1] == e.s);
    if prep.t_outputs != out.t_outputs {
        assert(prep.t_outputs.drop_last() =~= out.t_outputs);
        assert(belongs(ask.net, ask.account.ufvk, prep.t_outputs.last().dst));
    }
    if prep.o_outputs != out.o_outputs {
        assert(prep.o_outputs.drop_last() =~= out.o_outputs);
    }
}

/// A proposal names the next block, the root of the tree of the notes that it may spend, and the staking
/// action that was asked for. Its entry is marked as proposed, has every part looked at, and shows the
/// memo of the last note that was asked for and how many notes carry one.
pub proof fn a_proposal_is_for_the_next_block(ask: Ask, k: int)
    requires
        proposed(ask).1 is Some,
        ask.chain_tip_h.0 < u32::MAX,
        ask.tx.memo_count + ask.outputs.len() <= usize::MAX,
    ensures
        ({
            let (tx, prep) = (proposed(ask).0, proposed(ask).1->Some_0);
            let o = asked_notes(ask.outputs);
            &&& prep.block_h == ask.chain_tip_h.0 + 1
            &&& 0 <= k < ask.pools.len() ==> (ask.pools[k] matches TxPool::Orchard(tree) ==> root_of(
                tree@,
                ask.chain_tip_h.minus(1).0,
            ) is Some && prep.orchard_anchor == root_of(tree@, ask.chain_tip_h.minus(1).0))
            &&& ask.action is Some && ask.action->Some_0.kind != StakingActionKind::Null
                ==> prep.staking_action == ask.action && tx.staking_action == ask.action
            &&& (ask.action is None || ask.action->Some_0.kind == StakingActionKind::Null)
                ==> prep.staking_action is None && tx.staking_action == ask.tx.staking_action
            &&& tx.account_id == 0
            &&& tx.txid == ask.tx.txid
            &&& tx.h == BlockHeight(PROPOSED)
            &&& tx.status == TxStatus::OnBc
            &&& tx.part_flags == 31
            &&& tx.memo == if o.len() == 0 {
                ask.tx.memo
            } else {
                o.last().memo
            }
            &&& tx.memo_count == ask.tx.memo_count + memos_in(o)
        }),
{
    let (orchard, pkh) = own_addresses(ask.net, ask.account.ufvk)->Some_0;
    lemma_ask_outputs(ask, orchard);
    lemma_memos(ask.outputs);
    if 0 <= k < ask.pools.len() {
        lemma_anchor(ask.chain_tip_h.minus(1), ask.pools, k);
    }
}

proof fn lemma_memos(outs: Seq<TxOutput>)
    ensures
        memos_in(asked_notes(outs)) <= outs.len(),
        asked_notes(outs).len() <= outs.len(),
    decreases outs.len(),
{
    if outs.len() > 0 {
        lemma_memos(outs.drop_last());
        let before = asked_notes(outs.drop_last());
        match outs.last() {
            TxOutput::Transparent { .. } => {},
            TxOutput::Orchard { with_ovk, dst, zats, memo } => {
                assert(asked_notes(outs).drop_last() =~= before);
            },
        }
    }
}

proof fn lemma_anchor(anchor_h: BlockHeight, pools: Seq<TxPool>, k: int)
    requires
        source_steps(anchor_h, pools) is Some,
        0 <= k < pools.len(),
    ensures
        pools[k] matches TxPool::Orchard(tree) ==> root_of(tree@, anchor_h.0) is Some
            && source_steps(anchor_h, pools)->Some_0.anchor == root_of(tree@, anchor_h.0)
            && source_steps(anchor_h, pools)->Some_0.orchard,
        pools[k] is Transparent ==> source_steps(anchor_h, pools)->Some_0.transparent,
    decreases pools.len(),
{
    if k < pools.len() - 1 {
        lemma_anchor(anchor_h, pools.drop_last(), k);
    }
}

/// Whether the key can spend a note that a tree holds, by the way from the note to the tree's root at a
/// height.
pub open spec fn can_be_spent(
    x: ProposedOrchardSpend,
    fvk: [u8; 96],
    tree: TreeModel,
    anchor_h: BlockHeight,
) -> bool {
    &&& x.note.recv_h.0 <= anchor_h.0
    &&& witness_of(tree, x.note.position, anchor_h.0) == Witness::Path(x.path)
    &&& root_of(tree, anchor_h.0) is Some
    &&& spend_fits(fvk, x.note.note, x.note.position, x.path, root_of(tree, anchor_h.0)->Some_0)
}

/// Whether one of some pools is the tree of a note.
pub open spec fn a_pool_holds(
    x: ProposedOrchardSpend,
    fvk: [u8; 96],
    anchor_h: BlockHeight,
    pools: Seq<TxPool>,
) -> bool {
    exists|k: int|
        0 <= k < pools.len() && (#[trigger] pools[k] matches TxPool::Orchard(tree) && can_be_spent(
            x,
            fvk,
            tree@,
            anchor_h,
        ))
}

proof fn lemma_notes_fit(
    st: SpendState,
    src: NoteSource,
    bill: Bill,
    notes: Seq<OrchardNote>,
    order: Seq<usize>,
)
    requires
        root_of(src.tree, src.anchor_h.0) == Some(src.anchor),
    ensures
        ({
            let r = note_steps(st, src, bill, notes, order);
            &&& st.o_inputs.len() <= r.o_inputs.len()
            &&& r.t_inputs == st.t_inputs
            &&& forall|i: int|
                0 <= i < st.o_inputs.len() ==> #[trigger] r.o_inputs[i] == st.o_inputs[i]
            &&& forall|i: int|
                st.o_inputs.len() <= i < r.o_inputs.len() ==> can_be_spent(
                    #[trigger] r.o_inputs[i],
                    src.fvk,
                    src.tree,
                    src.anchor_h,
                )
        }),
    decreases order.len(),
{
    if order.len() > 0 {
        lemma_notes_fit(st, src, bill, notes, order.drop_last());
        let a = note_steps(st, src, bill, notes, order.drop_last()).o_inputs;
        let b = note_steps(st, src, bill, notes, order).o_inputs;
        assert forall|i: int| st.o_inputs.len() <= i < b.len() implies can_be_spent(
            #[trigger] b[i],
            src.fvk,
            src.tree,
            src.anchor_h,
        ) by {
            if i < a.len() {
                assert(b[i] == a[i]);
            }
        }
    }
}

proof fn lemma_utxos_take_no_note(
    st: SpendState,
    key_addr: TransparentAddress,
    bill: Bill,
    utxos: Seq<Txo>,
)
    ensures
        utxo_steps(st, key_addr, bill, utxos).o_inputs == st.o_inputs,
    decreases utxos.len(),
{
    if utxos.len() > 0 {
        lemma_utxos_take_no_note(st, key_addr, bill, utxos.drop_last());
    }
}

proof fn lemma_pools_fit(st: SpendState, f: Funds, bill: Bill, pools: Seq<TxPool>, i: int)
    requires
        st.o_inputs.len() == 0,
        source_steps(f.anchor_h, pools) is Some,
        f.anchor is Some,
        forall|k: int|
            0 <= k < pools.len() ==> (#[trigger] pools[k] matches TxPool::Orchard(tree) ==> root_of(
                tree@,
                f.anchor_h.0,
            ) == f.anchor),
        0 <= i < pool_steps(st, f, bill, pools).o_inputs.len(),
    ensures
        f.fvk is Some,
        a_pool_holds(
            pool_steps(st, f, bill, pools).o_inputs[i],
            f.fvk->Some_0,
            f.anchor_h,
            pools,
        ),
    decreases pools.len(),
{
    if pools.len() > 0 {
        let rest = pools.drop_last();
        let before = pool_steps(st, f, bill, rest);
        let after = pool_steps(st, f, bill, pools);
        let last = pools.len() - 1;
        assert(pools[last] == pools.last());
        assert forall|k: int| 0 <= k < rest.len() implies (
        #[trigger] rest[k] matches TxPool::Orchard(tree) ==> root_of(tree@, f.anchor_h.0)
            == f.anchor) by {
            assert(rest[k] == pools[k]);
        }
        match pools.last() {
            TxPool::Transparent => {
                if let Some(addr) = f.key_addr {
                    lemma_utxos_take_no_note(before, addr, bill, f.account.utxos);
                }
                assert(after.o_inputs == before.o_inputs);
            },
            TxPool::Orchard(tree) => {
                if let (Some(fvk), Some(anchor)) = (f.fvk, f.anchor) {
                    lemma_notes_fit(
                        before,
                        NoteSource { fvk, tree: tree@, anchor_h: f.anchor_h, anchor },
                        bill,
                        f.account.unspent_orchard_notes,
                        f.order,
                    );
                }
            },
        }
        if i < before.o_inputs.len() {
            lemma_pools_fit(st, f, bill, rest, i);
            let x = before.o_inputs[i];
            assert(after.o_inputs[i] == x);
            let k = choose|k: int|
                0 <= k < rest.len() && (#[trigger] rest[k] matches TxPool::Orchard(tree)
                    && can_be_spent(x, f.fvk->Some_0, tree@, f.anchor_h));
            assert(pools[k] == rest[k]);
        }
    }
}

proof fn lemma_no_pool_no_input(st: SpendState, f: Funds, bill: Bill, pools: Seq<TxPool>)
    requires
        st.t_inputs.len() == 0,
        st.o_inputs.len() == 0,
    ensures
        (forall|k: int| 0 <= k < pools.len() ==> !(#[trigger] pools[k] is Transparent))
            ==> pool_steps(st, f, bill, pools).t_inputs.len() == 0,
        (forall|k: int| 0 <= k < pools.len() ==> !(#[trigger] pools[k] is Orchard)) || f.fvk is None
            ==> pool_steps(st, f, bill, pools).o_inputs.len() == 0,
    decreases pools.len(),
{
    if pools.len() > 0 {
        let rest = pools.drop_last();
        lemma_no_pool_no_input(st, f, bill, rest);
        let before = pool_steps(st, f, bill, rest);
        assert forall|k: int| 0 <= k < rest.len() implies #[trigger] rest[k] == pools[k] by {}
        assert(pools[pools.len() - 1] == pools.last());
        match pools.last() {
            TxPool::Transparent => {
                if let Some(addr) = f.key_addr {
                    lemma_utxos_take_no_note(before, addr, bill, f.account.utxos);
                }
            },
            TxPool::Orchard(tree) => {
                if let (Some(fvk), Some(anchor)) = (f.fvk, f.anchor) {
                    lemma_notes_take_no_output(
                        before,
                        NoteSource { fvk, tree: tree@, anchor_h: f.anchor_h, anchor },
                        bill,
                        f.account.unspent_orchard_notes,
                        f.order,
                    );
                }
            },
        }
    }
}

proof fn lemma_notes_take_no_output(
    st: SpendState,
    src: NoteSource,
    bill: Bill,
    notes: Seq<OrchardNote>,
    order: Seq<usize>,
)
    ensures
        note_steps(st, src, bill, notes, order).t_inputs == st.t_inputs,
    decreases order.len(),
{
    if order.len() > 0 {
        lemma_notes_take_no_output(st, src, bill, notes, order.drop_last());
    }
}

/// Every note that a proposal spends can be spent: it came by the block below the tip, a tree among the
/// pools has a way from it to the root at that block, and the builder accepts it for the account's key
/// with that way and that root. Nothing is spent from a pool that was not offered.
pub proof fn a_proposal_can_be_signed(ask: Ask, i: int)
    requires
        proposed(ask).1 is Some,
    ensures
        ({
            let prep = proposed(ask).1->Some_0;
            let fvk = orchard_key_in(ask.net == NetworkType::Main, ask.account.ufvk);
            &&& 0 <= i < prep.o_inputs.len() ==> fvk is Some && a_pool_holds(
                prep.o_inputs[i],
                fvk->Some_0,
                ask.chain_tip_h.minus(1),
                ask.pools,
            )
            &&& (forall|k: int| 0 <= k < ask.pools.len() ==> !(#[trigger] ask.pools[k] is Orchard))
                ==> prep.o_inputs.len() == 0
            &&& (forall|k: int|
                0 <= k < ask.pools.len() ==> !(#[trigger] ask.pools[k] is Transparent))
                ==> prep.t_inputs.len() == 0
        }),
{
    let (orchard, pkh) = own_addresses(ask.net, ask.account.ufvk)->Some_0;
    let out = ask_outputs(ask, orchard);
    let b = staking_moves(ask.txs, ask.action)->Some_0;
    let anchor_h = ask.chain_tip_h.minus(1);
    let src = source_steps(anchor_h, ask.pools)->Some_0;
    let first = first_state(out, b);
    let f = Funds {
        account: ask.account,
        order: ask.order,
        fvk: ask_fvk(ask),
        key_addr: ask.key_addr,
        anchor_h,
        anchor: src.anchor,
    };
    let bill = ask_bill(out, b);
    let st = ask_spends(ask, src, out, b);
    assert(st == pool_steps(first, f, bill, ask.pools));
    lemma_no_pool_no_input(first, f, bill, ask.pools);
    assert forall|k: int| 0 <= k < ask.pools.len() implies (
    #[trigger] ask.pools[k] matches TxPool::Orchard(tree) ==> root_of(tree@, anchor_h.0)
        == src.anchor && src.anchor is Some) by {
        lemma_anchor(anchor_h, ask.pools, k);
    }
    if 0 <= i < proposed(ask).1->Some_0.o_inputs.len() {
        if src.anchor is None {
            assert forall|k: int| 0 <= k < ask.pools.len() implies !(
            #[trigger] ask.pools[k] is Orchard) by {}
        }
        lemma_pools_fit(first, f, bill, ask.pools, i);
    }
}

/// A bond can only be withdrawn if a transaction of the wallet began its unbonding. A bond whose key is
/// all zeros is no such bond.
pub proof fn only_an_unbonded_bond_is_withdrawn(ask: Ask, a: StakingAction)
    requires
        proposed(ask).1 is Some,
        ask.action == Some(a),
        a.kind == StakingActionKind::WithdrawDelegationBond,
        a.arg32_0@ != Seq::new(32, |i: int| 0u8),
    ensures
        a.amount_zats <= MAX_MONEY,
        exists|i: int|
            0 <= i < ask.txs.len() && ((#[trigger] ask.txs[i]).staking_action matches Some(u)
                && u.kind == StakingActionKind::BeginDelegationUnbonding && u.arg32_0 == a.arg32_0),
{
    let i = choose|i: int|
        0 <= i < ask.txs.len() && #[trigger] unbonding_key(ask.txs[i]) == a.arg32_0@;
    let u = ask.txs[i].staking_action->Some_0;
    assert(u.arg32_0 =~= a.arg32_0);
}

/// A payment that comes about pays the address that was named the amount that was named, with the memo.
/// Everything else that it pays comes back to the account.
pub proof fn a_payment_pays_what_was_asked(
    w: &ManualWallet,
    net: NetworkType,
    before: ProposedTx,
    after: ProposedTx,
    r: Option<()>,
    amount: u64,
    dst: [u8; 43],
    memo: [u8; 512],
    tree: &OrchardShardTree,
    key_addr: Option<TransparentAddress>,
)
    requires
        payment_tried(w, net, before, after, r, amount, dst, memo, tree, key_addr),
        r is Some,
    ensures
        ({
            let main = net == NetworkType::Main;
            let own = first_address(main, w.accounts@[0]@.ufvk)->Some_0.1->Some_0;
            let q = after.prep->Some_0@;
            &&& amount <= MAX_MONEY
            &&& after.prep is Some
            &&& q.o_outputs.len() >= 1
            &&& q.o_outputs[0] == (ProposedOrchardOutput {
                with_ovk: true,
                dst,
                zats: Zatoshis { zats: amount },
                memo,
            })
            &&& q.t_outputs.len() == 0
            &&& forall|i: int| 1 <= i < q.o_outputs.len() ==> (#[trigger] q.o_outputs[i]).dst == own
            &&& dst != own ==> notes_to(q.o_outputs, dst) == amount
            &&& dst != own ==> after.tx.parts[1].sent_zats.zats == after.tx.parts[1].recv_zats.zats
                + amount
            &&& q.staking_action is None
        }),
{
    let outs = one_note(dst, amount, memo);
    let order = choose|order: Seq<usize>|
        #[trigger] tried(
            w,
            net,
            before,
            after,
            r,
            outs,
            notes_first(tree),
            None,
            key_addr,
            order,
        );
    let ask = w.ask(net, before.tx, outs, notes_first(tree), None, key_addr, order);
    the_change_goes_to_the_payer(ask);
    let pkh = p2pkh_in(net == NetworkType::Main, ask.account.ufvk, 0)->Some_0;
    let t_dst = TransparentAddress::PublicKeyHash(pkh);
    others_get_what_was_asked(ask, t_dst, dst);
    lemma_one_note(dst, amount, memo);
    let q = after.prep->Some_0@;
    assert(q.o_outputs.take(1)[0] == q.o_outputs[0]);
    a_proposal_adds_up(ask);
    let o = q.o_outputs;
    let own = first_address(net == NetworkType::Main, ask.account.ufvk)->Some_0.1->Some_0;
    assert(o.take(1).drop_last() =~= seq![]);
    assert(notes_sum(o.take(1)) == amount && (dst != own ==> notes_to(o.take(1), own) == 0)) by {
        assert(notes_sum(o.take(1).drop_last()) == 0);
        assert(notes_to(o.take(1).drop_last(), own) == 0);
    }
    if o.len() == 2 {
        assert(o.drop_last() =~= o.take(1));
        assert(o[1].dst == own);
    } else {
        assert(o =~= o.take(1));
    }
}

proof fn lemma_one_note(dst: [u8; 43], amount: u64, memo: [u8; 512])
    ensures
        asked_payments(one_note(dst, amount, memo)) == Seq::<ProposedTransparentOutput>::empty(),
        asked_notes(one_note(dst, amount, memo)) == seq![
            ProposedOrchardOutput { with_ovk: true, dst, zats: Zatoshis { zats: amount }, memo },
        ],
        notes_to(asked_notes(one_note(dst, amount, memo)), dst) == amount,
{
    let outs = one_note(dst, amount, memo);
    assert(outs.drop_last() =~= seq![]);
    assert(asked_payments(outs.drop_last()) =~= seq![]);
    assert(asked_notes(outs.drop_last()) =~= seq![]);
    let notes = asked_notes(outs);
    assert(notes =~= seq![
        ProposedOrchardOutput { with_ovk: true, dst, zats: Zatoshis { zats: amount }, memo },
    ]);
    assert(notes.drop_last() =~= seq![]);
    assert(notes_to(notes.drop_last(), dst) == 0);
}

/// Shielding spends transparent outputs only, and everything that it pays goes to the account's own
/// orchard address: the amount that was named first.
pub proof fn shielding_pays_the_account(
    w: &ManualWallet,
    net: NetworkType,
    before: ProposedTx,
    after: ProposedTx,
    r: Option<()>,
    amount: u64,
    memo: [u8; 512],
    key_addr: Option<TransparentAddress>,
)
    requires
        shield_tried(w, net, before, after, r, amount, memo, key_addr),
        r is Some,
    ensures
        ({
            let main = net == NetworkType::Main;
            let own = first_address(main, w.accounts@[0]@.ufvk)->Some_0.1->Some_0;
            let q = after.prep->Some_0@;
            &&& after.prep is Some
            &&& q.o_inputs.len() == 0
            &&& q.t_outputs.len() == 0
            &&& q.o_outputs.len() >= 1
            &&& q.o_outputs[0].zats.zats == amount
            &&& q.o_outputs[0].memo == memo
            &&& forall|i: int| 0 <= i < q.o_outputs.len() ==> (#[trigger] q.o_outputs[i]).dst == own
            &&& q.staking_action is None
        }),
{
    let own = own_addresses(net, w.accounts@[0]@.ufvk)->Some_0.0;
    let outs = one_note(own, amount, memo);
    let order = choose|order: Seq<usize>|
        #[trigger] tried(
            w,
            net,
            before,
            after,
            r,
            outs,
            transparent_only(),
            None,
            key_addr,
            order,
        );
    let ask = w.ask(net, before.tx, outs, transparent_only(), None, key_addr, order);
    the_change_goes_to_the_payer(ask);
    lemma_one_note(own, amount, memo);
    a_proposal_can_be_signed(ask, 0);
    let q = after.prep->Some_0@;
    assert(q.o_outputs.take(1)[0] == q.o_outputs[0]);
    assert forall|i: int| 0 <= i < q.o_outputs.len() implies (#[trigger] q.o_outputs[i]).dst == own by {
        if i == 0 {
        } else {
            assert(q.o_outputs[i].dst == own);
        }
    }
}

/// A staking transaction that comes about carries the action that was asked for, and pays nobody but the
/// account: all its outputs, at most one, are change.
pub proof fn staking_pays_nobody_else<'a>(
    w: &ManualWallet,
    net: NetworkType,
    before: ProposedTx,
    after: ProposedTx,
    r: Option<()>,
    what: StakeAsk,
    pools: Seq<TxPool<'a>>,
    key_addr: Option<TransparentAddress>,
)
    requires
        stake_tried(w, net, before, after, r, what, pools, key_addr),
        r is Some,
        what.kind != StakingActionKind::Null,
    ensures
        ({
            let main = net == NetworkType::Main;
            let own = first_address(main, w.accounts@[0]@.ufvk)->Some_0.1->Some_0;
            let pkh = p2pkh_in(main, w.accounts@[0]@.ufvk, 0)->Some_0;
            let q = after.prep->Some_0@;
            &&& after.prep is Some
            &&& q.staking_action is Some
            &&& after.tx.staking_action == q.staking_action
            &&& q.staking_action->Some_0.kind == what.kind
            &&& q.staking_action->Some_0.amount_zats == what.amount
            &&& q.staking_action->Some_0.arg32_2@ == what.target
            &&& what.bond_key matches Some(k) ==> q.staking_action->Some_0.arg32_0 == k
            &&& q.t_outputs.len() + q.o_outputs.len() <= 1
            &&& forall|i: int| 0 <= i < q.o_outputs.len() ==> (#[trigger] q.o_outputs[i]).dst == own
            &&& forall|i: int|
                0 <= i < q.t_outputs.len() ==> (#[trigger] q.t_outputs[i]).dst
                    == TransparentAddress::PublicKeyHash(pkh)
        }),
{
    let (order, action) = choose|order: Seq<usize>, action: StakingAction|
        (what.bond_key matches Some(k) ==> k == action.arg32_0) && action.is_about(
            what.kind,
            what.amount,
            action.arg32_0,
            what.target,
        ) && #[trigger] tried(
            w,
            net,
            before,
            after,
            r,
            no_outputs(),
            pools,
            Some(action),
            key_addr,
            order,
        );
    let ask = w.ask(net, before.tx, no_outputs(), pools, Some(action), key_addr, order);
    the_change_goes_to_the_payer(ask);
}

proof fn lemma_utxos_tried(
    st: SpendState,
    key_addr: TransparentAddress,
    bill: Bill,
    utxos: Seq<Txo>,
)
    requires
        utxo_steps(st, key_addr, bill, utxos).stage == SpendStage::Looking,
    ensures
        ({
            let r = utxo_steps(st, key_addr, bill, utxos);
            &&& st.stage == SpendStage::Looking
            &&& r.o_inputs == st.o_inputs
            &&& forall|u: Txo| #[trigger] st.t_inputs.contains(u) ==> r.t_inputs.contains(u)
            &&& forall|i: int|
                0 <= i < utxos.len() && (#[trigger] utxos[i]).t_addr == key_addr
                    && key_addr is PublicKeyHash ==> r.t_inputs.contains(utxos[i])
        }),
    decreases utxos.len(),
{
    if utxos.len() > 0 {
        let rest = utxos.drop_last();
        let b = utxo_steps(st, key_addr, bill, rest);
        let r = utxo_steps(st, key_addr, bill, utxos);
        assert(b.stage == SpendStage::Looking);
        lemma_utxos_tried(st, key_addr, bill, rest);
        let last = utxos.len() - 1;
        assert(utxos[last] == utxos.last());
        assert forall|u: Txo| #[trigger] b.t_inputs.contains(u) implies r.t_inputs.contains(u) by {
            let k = choose|k: int| 0 <= k < b.t_inputs.len() && b.t_inputs[k] == u;
            assert(r.t_inputs[k] == u);
        }
        assert forall|i: int|
            0 <= i < utxos.len() && (#[trigger] utxos[i]).t_addr == key_addr
                && key_addr is PublicKeyHash implies r.t_inputs.contains(utxos[i]) by {
            if i < last {
                assert(rest[i] == utxos[i]);
            } else {
                assert(r.t_inputs[b.t_inputs.len() as int] == utxos[last]);
            }
        }
    }
}

/// Whether some spends hold a note.
pub open spec fn spends_note(s: Seq<ProposedOrchardSpend>, n: OrchardNote) -> bool {
    exists|k: int| 0 <= k < s.len() && (#[trigger] s[k]).note == n
}

/// Whether a note can be spent from a tree at a height, with a key.
pub open spec fn is_ready(n: OrchardNote, fvk: [u8; 96], tree: TreeModel, anchor_h: BlockHeight) -> bool {
    &&& n.recv_h.0 <= anchor_h.0
    &&& witness_of(tree, n.position, anchor_h.0) matches Witness::Path(path) && (root_of(
        tree,
        anchor_h.0,
    ) matches Some(root) && spend_fits(fvk, n.note, n.position, path, root))
}

proof fn lemma_notes_tried(
    st: SpendState,
    src: NoteSource,
    bill: Bill,
    notes: Seq<OrchardNote>,
    order: Seq<usize>,
)
    requires
        note_steps(st, src, bill, notes, order).stage == SpendStage::Looking,
        root_of(src.tree, src.anchor_h.0) == Some(src.anchor),
    ensures
        ({
            let r = note_steps(st, src, bill, notes, order);
            &&& st.stage == SpendStage::Looking
            &&& r.t_inputs == st.t_inputs
            &&& forall|n: OrchardNote|
                #[trigger] spends_note(st.o_inputs, n) ==> spends_note(r.o_inputs, n)
            &&& forall|i: int|
                0 <= i < order.len() && is_ready(
                    notes[#[trigger] order[i] as int],
                    src.fvk,
                    src.tree,
                    src.anchor_h,
                ) ==> spends_note(r.o_inputs, notes[order[i] as int])
        }),
    decreases order.len(),
{
    if order.len() > 0 {
        let rest = order.drop_last();
        let b = note_steps(st, src, bill, notes, rest);
        let r = note_steps(st, src, bill, notes, order);
        assert(b.stage == SpendStage::Looking);
        lemma_notes_tried(st, src, bill, notes, rest);
        let last = order.len() - 1;
        assert(order[last] == order.last());
        assert forall|n: OrchardNote| #[trigger] spends_note(b.o_inputs, n) implies spends_note(
            r.o_inputs,
            n,
        ) by {
            let k = choose|k: int| 0 <= k < b.o_inputs.len() && (#[trigger] b.o_inputs[k]).note == n;
            assert(r.o_inputs[k].note == n);
        }
        assert forall|i: int|
            0 <= i < order.len() && is_ready(
                notes[#[trigger] order[i] as int],
                src.fvk,
                src.tree,
                src.anchor_h,
            ) implies spends_note(r.o_inputs, notes[order[i] as int]) by {
            if i < last {
                assert(rest[i] == order[i]);
            } else {
                assert(r.o_inputs[b.o_inputs.len() as int].note == notes[order[last] as int]);
            }
        }
    }
}

proof fn lemma_pools_tried(st: SpendState, f: Funds, bill: Bill, pools: Seq<TxPool>, k: int)
    requires
        pool_steps(st, f, bill, pools).stage == SpendStage::Looking,
        forall|j: int|
            0 <= j < pools.len() ==> (#[trigger] pools[j] matches TxPool::Orchard(tree) ==> root_of(
                tree@,
                f.anchor_h.0,
            ) == f.anchor && f.anchor is Some),
        0 <= k < pools.len(),
    ensures
        ({
            let r = pool_steps(st, f, bill, pools);
            &&& pools[k] is Transparent && f.key_addr is Some ==> forall|i: int|
                0 <= i < f.account.utxos.len() && Some((#[trigger] f.account.utxos[i]).t_addr)
                    == f.key_addr && f.key_addr->Some_0 is PublicKeyHash ==> r.t_inputs.contains(
                    f.account.utxos[i],
                )
            &&& pools[k] matches TxPool::Orchard(tree) ==> f.fvk is Some ==> forall|i: int|
                0 <= i < f.order.len() && is_ready(
                    f.account.unspent_orchard_notes[#[trigger] f.order[i] as int],
                    f.fvk->Some_0,
                    tree@,
                    f.anchor_h,
                ) ==> spends_note(
                    r.o_inputs,
                    f.account.unspent_orchard_notes[f.order[i] as int],
                )
        }),
    decreases pools.len(),
{
    let rest = pools.drop_last();
    let b = pool_steps(st, f, bill, rest);
    let last = pools.len() - 1;
    assert(pools[last] == pools.last());
    assert forall|j: int| 0 <= j < rest.len() implies #[trigger] rest[j] == pools[j] by {}
    match pools.last() {
        TxPool::Transparent => {
            if let Some(addr) = f.key_addr {
                lemma_utxos_tried(b, addr, bill, f.account.utxos);
            }
        },
        TxPool::Orchard(tree) => {
            assert(pools[last] matches TxPool::Orchard(tree) && root_of(tree@, f.anchor_h.0)
                == f.anchor);
            if let (Some(fvk), Some(anchor)) = (f.fvk, f.anchor) {
                lemma_notes_tried(
                    b,
                    NoteSource { fvk, tree: tree@, anchor_h: f.anchor_h, anchor },
                    bill,
                    f.account.unspent_orchard_notes,
                    f.order,
                );
            }
        },
    }
    if k < last {
        assert forall|j: int| 0 <= j < rest.len() implies (
        #[trigger] rest[j] matches TxPool::Orchard(tree) ==> root_of(tree@, f.anchor_h.0) == f.anchor
            && f.anchor is Some) by {
            assert(pools[j] == rest[j]);
        }
        lemma_pools_tried(st, f, bill, rest, k);
    }
}

/// Money is only found wanting after everything was tried: where the search ends without enough, every
/// output to the key's address was chosen, if transparent money was offered, and every note that can be
/// spent from a tree that was offered.
pub proof fn everything_is_tried(ask: Ask, src: Sources, out: OutState, b: WalletTxPart, k: int, i: int)
    requires
        source_steps(ask.chain_tip_h.minus(1), ask.pools) == Some(src),
        ask_spends(ask, src, out, b).stage == SpendStage::Looking,
        0 <= k < ask.pools.len(),
        is_order(ask.order, ask.account.unspent_orchard_notes.len()),
    ensures
        ({
            let st = ask_spends(ask, src, out, b);
            let fvk = orchard_key_in(ask.net == NetworkType::Main, ask.account.ufvk);
            &&& ask.pools[k] is Transparent && 0 <= i < ask.account.utxos.len() && (
            ask.key_addr matches Some(addr) && addr is PublicKeyHash && ask.account.utxos[i].t_addr
                == addr) ==> st.t_inputs.contains(ask.account.utxos[i])
            &&& ask.pools[k] matches TxPool::Orchard(tree) ==> fvk is Some && 0 <= i
                < ask.account.unspent_orchard_notes.len() && is_ready(
                ask.account.unspent_orchard_notes[i],
                fvk->Some_0,
                tree@,
                ask.chain_tip_h.minus(1),
            ) ==> spends_note(st.o_inputs, ask.account.unspent_orchard_notes[i])
        }),
{
    let anchor_h = ask.chain_tip_h.minus(1);
    let f = Funds {
        account: ask.account,
        order: ask.order,
        fvk: ask_fvk(ask),
        key_addr: ask.key_addr,
        anchor_h,
        anchor: src.anchor,
    };
    assert forall|j: int| 0 <= j < ask.pools.len() implies (
    #[trigger] ask.pools[j] matches TxPool::Orchard(tree) ==> root_of(tree@, anchor_h.0) == f.anchor
        && f.anchor is Some) by {
        lemma_anchor(anchor_h, ask.pools, j);
    }
    lemma_pools_tried(first_state(out, b), f, ask_bill(out, b), ask.pools, k);
    if 0 <= i < ask.account.unspent_orchard_notes.len() {
        let j = lemma_order_holds(ask.order, ask.account.unspent_orchard_notes.len(), i);
        assert(ask.order[j] == i);
    }
}

/// Every number below `n` stands somewhere in an order.
proof fn lemma_order_holds(order: Seq<usize>, n: nat, i: int) -> (j: int)
    requires
        is_order(order, n),
        0 <= i < n,
    ensures
        0 <= j < order.len(),
        order[j] == i,
{
    let all = Seq::new(n, |k: int| order[k] as int);
    assert(all.no_duplicates());
    assert forall|k: int| 0 <= k < all.len() implies 0 <= #[trigger] all[k] < n by {
        assert(order[k] < n);
    }
    if !all.contains(i) {
        let s = all.to_set();
        all.unique_seq_to_set();
        let range = vstd::set_lib::set_int_range(0, n as int);
        vstd::set_lib::lemma_int_range(0, n as int);
        assert(s.subset_of(range.remove(i)));
        vstd::set_lib::lemma_len_subset(s, range.remove(i));
    }
    choose|k: int| 0 <= k < all.len() && all[k] == i
}

/// A proposal for which enough was found comes about: where the account has its addresses, every source
/// and the staking action will do, the outputs and the spends can be counted, and what is spent covers
/// what is asked for and the fee, and no sum with the change is too large.
pub proof fn enough_money_is_enough(ask: Ask)
    requires
        first_address(ask.net == NetworkType::Main, ask.account.ufvk) matches Some((_, Some(_))),
        p2pkh_in(ask.net == NetworkType::Main, ask.account.ufvk, 0) is Some,
        source_steps(ask.chain_tip_h.minus(1), ask.pools) is Some,
        staking_moves(ask.txs, ask.action) is Some,
        ask.action matches Some(a) ==> a.kind.is_accounted(),
        source_steps(ask.chain_tip_h.minus(1), ask.pools)->Some_0.transparent ==> ask.key_addr is Some,
        ({
            let own = first_address(ask.net == NetworkType::Main, ask.account.ufvk)->Some_0.1->Some_0;
            let src = source_steps(ask.chain_tip_h.minus(1), ask.pools)->Some_0;
            let b = staking_moves(ask.txs, ask.action)->Some_0;
            let out = ask_outputs(ask, own);
            let st = ask_spends(ask, src, out, b);
            let (t, o) = (asked_payments(ask.outputs), asked_notes(ask.outputs));
            let fee = fee_of(st.t_inputs.len(), t, st.o_inputs.len(), o.len());
            let found = withdrawn(ask.action) + txo_sum(st.t_inputs) + spends_sum(st.o_inputs);
            &&& out.ok
            &&& st.stage != SpendStage::Failed
            &&& fee is Some
            &&& found >= payments_sum(t) + notes_sum(o) + bonded(ask.action) + fee->Some_0
            &&& found <= MAX_MONEY
        }),
    ensures
        proposed(ask).1 is Some,
{
    let (orchard, pkh) = own_addresses(ask.net, ask.account.ufvk)->Some_0;
    lemma_ask_outputs(ask, orchard);
    let out = ask_outputs(ask, orchard);
    let b = staking_moves(ask.txs, ask.action)->Some_0;
    let src = source_steps(ask.chain_tip_h.minus(1), ask.pools)->Some_0;
    let first = first_state(out, b);
    let f = Funds {
        account: ask.account,
        order: ask.order,
        fvk: ask_fvk(ask),
        key_addr: ask.key_addr,
        anchor_h: ask.chain_tip_h.minus(1),
        anchor: src.anchor,
    };
    assert(b.sent_zats.zats == bonded(ask.action));
    assert(b.spent_zats.zats == withdrawn(ask.action));
    let bill = ask_bill(out, b);
    lemma_pools_agree(first, f, bill, ask.pools);
    let st = ask_spends(ask, src, out, b);
    assert(st == pool_steps(first, f, bill, ask.pools));
    lemma_home_sum(out.t_outputs, ask.net, ask.account.ufvk);
    lemma_notes_to(out.o_outputs, orchard);
}

proof fn lemma_home_sum(s: Seq<ProposedTransparentOutput>, net: NetworkType, ufvk: Seq<char>)
    ensures
        payments_home(s, net, ufvk) <= payments_sum(s),
    decreases s.len(),
{
    if s.len() > 0 {
        lemma_home_sum(s.drop_last(), net, ufvk);
    }
}

proof fn lemma_notes_to(s: Seq<ProposedOrchardOutput>, dst: [u8; 43])
    ensures
        notes_to(s, dst) <= notes_sum(s),
    decreases s.len(),
{
    if s.len() > 0 {
        lemma_notes_to(s.drop_last(), dst);
    }
}

} // verus!
