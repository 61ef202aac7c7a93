//! Putting a transaction together from what was prepared for it.
use crate::fees::ProposedTransparentOutput;
use crate::notes::Txo;
use crate::propose::{BuildPrep, PrepModel, ProposedOrchardOutput, ProposedOrchardSpend};
use crate::staking::StakingAction;
use vstd::prelude::*;

verus! {

/// One thing to hand to the one who puts the transaction together.
#[derive(Clone, Copy, Debug, PartialEq, Eq)]
pub enum BuildStep {
    SpendTransparent(Txo),
    PayTransparent(ProposedTransparentOutput),
    SpendNote(ProposedOrchardSpend),
    MakeNote(ProposedOrchardOutput),
    Stake(StakingAction),
}

/// What is to be handed over, in this order: the transparent inputs and outputs, the notes to spend and
/// to make, and the staking action.
pub open spec fn steps_of(p: PrepModel) -> Seq<BuildStep> {
    Seq::new(p.t_inputs.len(), |i: int| BuildStep::SpendTransparent(p.t_inputs[i])) + Seq::new(
        p.t_outputs.len(),
        |i: int| BuildStep::PayTransparent(p.t_outputs[i]),
    ) + Seq::new(p.o_inputs.len(), |i: int| BuildStep::SpendNote(p.o_inputs[i])) + Seq::new(
        p.o_outputs.len(),
        |i: int| BuildStep::MakeNote(p.o_outputs[i]),
    ) + match p.staking_action {
        Some(a) => seq![BuildStep::Stake(a)],
        None => seq![],
    }
}

/// Lists what is to be handed over to put a transaction together. Where one thing is refused, there is
/// no transaction.
pub fn build_steps(prep: &BuildPrep) -> (r: Vec<BuildStep>)
    ensures
        r@ == steps_of(prep@),
{
    let mut steps: Vec<BuildStep> = Vec::new();
    let ghost t_in = Seq::new(
        prep.t_inputs@.len(),
        |i: int| BuildStep::SpendTransparent(prep.t_inputs@[i]),
    );
    let ghost t_out = Seq::new(
        prep.t_outputs@.len(),
        |i: int| BuildStep::PayTransparent(prep.t_outputs@[i]),
    );
    let ghost o_in = Seq::new(
        prep.o_inputs@.len(),
        |i: int| BuildStep::SpendNote(prep.o_inputs@[i]),
    );
    let ghost o_out = Seq::new(
        prep.o_outputs@.len(),
        |i: int| BuildStep::MakeNote(prep.o_outputs@[i]),
    );
    let mut i: usize = 0;
    assert(steps@ =~= t_in.take(0));
    while i < prep.t_inputs.len()
        invariant
            i <= prep.t_inputs@.len(),
            t_in == Seq::new(
                prep.t_inputs@.len(),
                |i: int| BuildStep::SpendTransparent(prep.t_inputs@[i]),
            ),
            steps@ == t_in.take(i as int),
        decreases prep.t_inputs@.len() - i,
    {
        steps.push(BuildStep::SpendTransparent(prep.t_inputs[i]));
        i += 1;
        assert(steps@ =~= t_in.take(i as int));
    }
    assert(steps@ =~= t_in);
    i = 0;
    assert(steps@ =~= t_in + t_out.take(0));
    while i < prep.t_outputs.len()
        invariant
            i <= prep.t_outputs@.len(),
            t_out == Seq::new(
                prep.t_outputs@.len(),
                |i: int| BuildStep::PayTransparent(prep.t_outputs@[i]),
            ),
            steps@ == t_in + t_out.take(i as int),
        decreases prep.t_outputs@.len() - i,
    {
        steps.push(BuildStep::PayTransparent(prep.t_outputs[i]));
        i += 1;
        assert(steps@ =~= t_in + t_out.take(i as int));
    }
    assert(steps@ =~= t_in + t_out);
    i = 0;
    assert(steps@ =~= t_in + t_out + o_in.take(0));
    while i < prep.o_inputs.len()
        invariant
            i <= prep.o_inputs@.len(),
            o_in == Seq::new(
                prep.o_inputs@.len(),
                |i: int| BuildStep::SpendNote(prep.o_inputs@[i]),
            ),
            steps@ == t_in + t_out + o_in.take(i as int),
        decreases prep.o_inputs@.len() - i,
    {
        steps.push(BuildStep::SpendNote(prep.o_inputs[i]));
        i += 1;
        assert(steps@ =~= t_in + t_out + o_in.take(i as int));
    }
    assert(steps@ =~= t_in + t_out + o_in);
    i = 0;
    assert(steps@ =~= t_in + t_out + o_in + o_out.take(0));
    while i < prep.o_outputs.len()
        invariant
            i <= prep.o_outputs@.len(),
            o_out == Seq::new(
                prep.o_outputs@.len(),
                |i: int| BuildStep::MakeNote(prep.o_outputs@[i]),
            ),
            steps@ == t_in + t_out + o_in + o_out.take(i as int),
        decreases prep.o_outputs@.len() - i,
    {
        steps.push(BuildStep::MakeNote(prep.o_outputs[i]));
        i += 1;
        assert(steps@ =~= t_in + t_out + o_in + o_out.take(i as int));
    }
    if let Some(a) = prep.staking_action {
        steps.push(BuildStep::Stake(a));
    }
    assert(steps@ =~= steps_of(prep@));
    steps
}

/// Everything that was prepared is handed over, each thing once and nothing else: inputs are spent as
/// inputs, outputs are paid as outputs, and the staking action comes last.
pub proof fn everything_prepared_is_handed_over(p: PrepModel, i: int)
    ensures
        ({
            let s = steps_of(p);
            let (a, b, c, d) = (
                p.t_inputs.len() as int,
                p.t_outputs.len() as int,
                p.o_inputs.len() as int,
                p.o_outputs.len() as int,
            );
            &&& s.len() == a + b + c + d + if p.staking_action is Some {
                1int
            } else {
                0
            }
            &&& 0 <= i < a ==> s[i] == BuildStep::SpendTransparent(p.t_inputs[i])
            &&& 0 <= i < b ==> s[a + i] == BuildStep::PayTransparent(p.t_outputs[i])
            &&& 0 <= i < c ==> s[a + b + i] == BuildStep::SpendNote(p.o_inputs[i])
            &&& 0 <= i < d ==> s[a + b + c + i] == BuildStep::MakeNote(p.o_outputs[i])
            &&& p.staking_action matches Some(x) ==> s.last() == BuildStep::Stake(x)
        }),
{
}

} // verus!
