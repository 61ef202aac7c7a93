//! What a transaction costs.
use crate::notes::TransparentAddress;
use crate::zats::MAX_MONEY;
use vstd::prelude::*;
use zcash_primitives::transaction::fees::{transparent::InputSize, zip317, FeeRule};

verus! {

/// The actions of an orchard bundle: as many as there are spends or outputs, whichever are more, and
/// two at least if there are any.
pub open spec fn bundle_actions(spends: nat, outputs: nat) -> nat {
    let n = if spends > outputs { spends } else { outputs };
    if n == 0 {
        0
    } else if n < 2 {
        2
    } else {
        n
    }
}

/// `BundleType::num_actions` of `orchard`, for a default bundle in which spends and outputs are
/// enabled: the larger of both numbers, and two at least unless both are zero.
#[verifier::external_body]
fn orchard_actions(spends: usize, outputs: usize) -> (r: usize)
    ensures
        r == bundle_actions(spends as nat, outputs as nat),
{
    let flags = orchard::bundle::Flags::ENABLED;
    orchard::builder::BundleType::DEFAULT.num_actions(flags, spends, outputs).unwrap()
}

/// How often `d` goes into `n`, rounded up.
pub open spec fn div_up(n: nat, d: nat) -> nat
    recommends
        d > 0,
{
    ((n + d - 1) / d as int) as nat
}

/// The fee for some transparent inputs, for transparent outputs of some size in all, and for some
/// orchard actions: five thousand for each logical action, and for two at least.
pub open spec fn fee_for(t_inputs: nat, t_out_size: nat, actions: nat) -> nat {
    let outs = div_up(t_out_size, 34);
    let logical = if t_inputs > outs { t_inputs } else { outs } + actions;
    5000 * if logical > 2 { logical } else { 2 }
}

/// `FeeRule::fee_required` of `zcash_primitives`, for the standard rule: five thousand zatoshis for
/// each logical action, and for two at least, as long as the sum can exist. A logical action is an
/// input of the standard size or 34 bytes of outputs, whichever are more, and each orchard action.
#[verifier::external_body]
fn zip317_fee(t_inputs: usize, t_out_size: usize, actions: usize) -> (r: Option<u64>)
    requires
        t_inputs * 150 <= usize::MAX,
        t_inputs + t_out_size + actions <= usize::MAX,
    ensures
        r == (if fee_for(t_inputs as nat, t_out_size as nat, actions as nat) <= MAX_MONEY {
            Some(fee_for(t_inputs as nat, t_out_size as nat, actions as nat) as u64)
        } else {
            None
        }),
{
    let sizes = core::iter::repeat(InputSize::STANDARD_P2PKH).take(t_inputs);
    let net = zcash_protocol::consensus::TEST_NETWORK;
    let h = zcash_protocol::consensus::BlockHeight::from_u32(0);
    let rule = zip317::FeeRule::standard();
    let fee = rule.fee_required(&net, h, sizes, [t_out_size], 0, 0, actions, 0);
    fee.ok().map(|f| f.into_u64())
}

/// The number of operations in the script that pays to an address.
pub open spec fn script_ops(to: TransparentAddress) -> nat {
    match to {
        TransparentAddress::PublicKeyHash(_) => 5,
        TransparentAddress::ScriptHash(_) => 3,
    }
}

/// `TransparentAddress::script` of `zcash_transparent`, and the length of what it gives: duplicate,
/// hash, push, compare and check for the hash of a public key; hash, push and compare for that of a
/// script.
#[verifier::external_body]
fn count_script_ops(to: &TransparentAddress) -> (r: usize)
    ensures
        r == script_ops(*to),
{
    match to {
        TransparentAddress::PublicKeyHash(
            h,
        ) => zcash_transparent::address::TransparentAddress::PublicKeyHash(*h).script().0.len(),
        TransparentAddress::ScriptHash(
            h,
        ) => zcash_transparent::address::TransparentAddress::ScriptHash(*h).script().0.len(),
    }
}

/// A transparent output of a transaction that is being proposed.
#[derive(Clone, Copy, Debug, PartialEq, Eq)]
pub struct ProposedTransparentOutput {
    pub dst: TransparentAddress,
    pub zats: crate::zats::Zatoshis,
}

/// The size of some outputs: eight for each, and one for each operation of its script.
pub open spec fn outputs_size(outs: Seq<ProposedTransparentOutput>) -> nat
    decreases outs.len(),
{
    if outs.len() == 0 {
        0
    } else {
        outputs_size(outs.drop_last()) + 8 + script_ops(outs.last().dst)
    }
}

/// The fee of a transaction with so many transparent inputs, with transparent outputs, and with so
/// many orchard spends and outputs, if it can exist.
pub open spec fn fee_of(
    t_inputs: nat,
    t_outputs: Seq<ProposedTransparentOutput>,
    o_inputs: nat,
    o_outputs: nat,
) -> Option<u64> {
    let fee = fee_for(t_inputs, outputs_size(t_outputs), bundle_actions(o_inputs, o_outputs));
    if fee <= MAX_MONEY {
        Some(fee as u64)
    } else {
        None
    }
}

/// The size of outputs is at most thirteen for each.
pub proof fn lemma_outputs_size(outs: Seq<ProposedTransparentOutput>)
    ensures
        outputs_size(outs) <= 13 * outs.len(),
    decreases outs.len(),
{
    if outs.len() > 0 {
        lemma_outputs_size(outs.drop_last());
    }
}

/// The fee that a transaction needs.
pub fn fee_required(
    t_inputs: usize,
    t_outputs: &Vec<ProposedTransparentOutput>,
    o_inputs: usize,
    o_outputs: usize,
) -> (r: Option<u64>)
    requires
        (t_inputs + t_outputs@.len() + o_inputs + o_outputs + 2) * 150 <= usize::MAX,
    ensures
        r == fee_of(t_inputs as nat, t_outputs@, o_inputs as nat, o_outputs as nat),
{
    let mut size: usize = 0;
    let mut i: usize = 0;
    while i < t_outputs.len()
        invariant
            i <= t_outputs@.len(),
            size == outputs_size(t_outputs@.take(i as int)),
            13 * t_outputs@.len() <= usize::MAX,
        decreases t_outputs.len() - i,
    {
        proof {
            lemma_outputs_size(t_outputs@.take(i as int + 1));
            assert(t_outputs@.take(i + 1).drop_last() =~= t_outputs@.take(i as int));
        }
        size = size + 8 + count_script_ops(&t_outputs[i].dst);
        i += 1;
    }
    assert(t_outputs@.take(i as int) =~= t_outputs@);
    proof {
        lemma_outputs_size(t_outputs@);
    }
    let actions: usize = orchard_actions(o_inputs, o_outputs);
    zip317_fee(t_inputs, size, actions)
}

/// A transaction costs ten thousand zatoshis at least, and more inputs or actions never cost less.
pub proof fn the_fee_grows(t_inputs: nat, more: nat, t_out_size: nat, actions: nat, extra: nat)
    ensures
        fee_for(t_inputs, t_out_size, actions) >= 10000,
        fee_for(t_inputs + more, t_out_size, actions + extra) >= fee_for(
            t_inputs,
            t_out_size,
            actions,
        ),
{
}

/// The fee is five thousand zatoshis for each logical action, and it is the least that will do: two
/// actions at least, one for each input and one for each 34 bytes of outputs, whichever are more, and one
/// for each spend or output of the orchard bundle, whichever are more, but two if there is any.
pub proof fn the_fee_is_the_least_that_will_do(
    t_inputs: nat,
    t_outputs: Seq<ProposedTransparentOutput>,
    o_inputs: nat,
    o_outputs: nat,
)
    requires
        fee_of(t_inputs, t_outputs, o_inputs, o_outputs) is Some,
    ensures
        ({
            let fee = fee_of(t_inputs, t_outputs, o_inputs, o_outputs)->Some_0 as int;
            let size = outputs_size(t_outputs) as int;
            let most: int = if o_inputs > o_outputs {
                o_inputs as int
            } else {
                o_outputs as int
            };
            let actions: int = if most == 1 {
                2
            } else {
                most
            };
            let k = fee / 5000;
            &&& fee == 5000 * k
            &&& k >= 2
            &&& k >= t_inputs + actions
            &&& 34 * (k - actions) >= size
            &&& k == 2 || k == t_inputs + actions || 34 * (k - actions - 1) < size
        }),
{
    let size = outputs_size(t_outputs);
    let outs = div_up(size, 34);
    assert(34 * outs >= size && 34 * (outs - 1) < size) by {
        let q = (size + 33) / 34;
        assert(outs == q);
    }
}

/// Every output adds to the size that is paid for: thirteen for one to the hash of a public key, eleven for
/// one to the hash of a script.
pub proof fn every_output_adds_to_the_size(
    outs: Seq<ProposedTransparentOutput>,
    o: ProposedTransparentOutput,
)
    ensures
        outputs_size(outs.push(o)) == outputs_size(outs) + if o.dst is PublicKeyHash {
            13nat
        } else {
            11
        },
{
    assert(outs.push(o).drop_last() =~= outs);
}

} // verus!
