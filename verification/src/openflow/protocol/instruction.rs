//! Instructions attached to a flow.
use vstd::prelude::*;
use crate::bytes::{be16, patch_u16_be, push_u16_be, push_zeros, sat_len_u16, sat_u16, zeros};
use super::action::{Action, lemma_action_aligned};
use super::constants::OFPIT_APPLY_ACTIONS;

verus! {

#[derive(Debug, Clone, PartialEq, Eq)]
pub enum Instruction {
    ApplyActions(Vec<Action>),
}

/// The encodings of `actions`, one after the other, the first starting at absolute offset `base`.
pub open spec fn actions_bytes(actions: Seq<Action>, base: int) -> Seq<u8>
    decreases actions.len(),
{
    if actions.len() == 0 {
        Seq::empty()
    } else {
        let prev = actions_bytes(actions.drop_last(), base);
        prev + actions.last().spec_bytes(base + prev.len())
    }
}

/// The encodings of `instructions`, one after the other, the first starting at absolute offset `base`.
pub open spec fn instructions_bytes(instructions: Seq<Instruction>, base: int) -> Seq<u8>
    decreases instructions.len(),
{
    if instructions.len() == 0 {
        Seq::empty()
    } else {
        let prev = instructions_bytes(instructions.drop_last(), base);
        prev + instructions.last().spec_bytes(base + prev.len())
    }
}

impl Instruction {
    /// The encoding of this instruction when it starts at absolute offset `base`:
    /// type, length, four reserved bytes, then the actions.
    pub open spec fn spec_bytes(self, base: int) -> Seq<u8> {
        match self {
            Instruction::ApplyActions(actions) => {
                let body = actions_bytes(actions@, base + 8);
                be16(OFPIT_APPLY_ACTIONS) + be16(sat_u16(8 + body.len() as int)) + zeros(4) + body
            },
        }
    }

    pub fn apply_actions(actions: Vec<Action>) -> (i: Self)
        ensures
            i == Instruction::ApplyActions(actions),
    {
        Self::ApplyActions(actions)
    }

    pub fn encode(&self, out: &mut Vec<u8>)
        ensures
            final(out)@ == old(out)@ + self.spec_bytes(old(out)@.len() as int),
    {
        let ghost start_seq = out@;
        match self {
            Self::ApplyActions(actions) => {
                let start = out.len();
                push_u16_be(out, OFPIT_APPLY_ACTIONS);
                push_u16_be(out, 0);
                push_zeros(out, 4);
                let ghost head = out@;
                let ghost base: int = start_seq.len() as int + 8;
                let mut i: usize = 0;
                while i < actions.len()
                    invariant
                        i <= actions@.len(),
                        head.len() == base,
                        out@ == head + actions_bytes(actions@.take(i as int), base),
                    decreases actions@.len() - i,
                {
                    actions[i].encode(out);
                    proof {
                        assert(actions@.take(i + 1).drop_last() =~= actions@.take(i as int));
                        assert(actions@.take(i + 1).last() == actions@[i as int]);
                    }
                    i = i + 1;
                    assert(out@ =~= head + actions_bytes(actions@.take(i as int), base));
                }
                assert(actions@.take(actions@.len() as int) =~= actions@);
                let len = sat_len_u16(out.len() - start);
                patch_u16_be(out, start + 2, len);
                assert(out@ =~= start_seq + self.spec_bytes(start_seq.len() as int));
            },
        }
    }
}

/// A run of actions that starts on a multiple of eight ends on one.
pub proof fn lemma_actions_aligned(actions: Seq<Action>, base: int)
    requires
        base % 8 == 0,
    ensures
        (base + actions_bytes(actions, base).len()) % 8 == 0,
    decreases actions.len(),
{
    if actions.len() > 0 {
        let prev = actions_bytes(actions.drop_last(), base);
        lemma_actions_aligned(actions.drop_last(), base);
        lemma_action_aligned(actions.last(), base + prev.len());
    }
}

/// An instruction that starts on a multiple of eight ends on one.
pub proof fn lemma_instruction_aligned(i: Instruction, base: int)
    requires
        base % 8 == 0,
    ensures
        (base + i.spec_bytes(base).len()) % 8 == 0,
{
    match i {
        Instruction::ApplyActions(actions) => {
            lemma_actions_aligned(actions@, base + 8);
        },
    }
}

/// A run of instructions that starts on a multiple of eight ends on one.
pub proof fn lemma_instructions_aligned(instructions: Seq<Instruction>, base: int)
    requires
        base % 8 == 0,
    ensures
        (base + instructions_bytes(instructions, base).len()) % 8 == 0,
    decreases instructions.len(),
{
    if instructions.len() > 0 {
        let prev = instructions_bytes(instructions.drop_last(), base);
        lemma_instructions_aligned(instructions.drop_last(), base);
        lemma_instruction_aligned(instructions.last(), base + prev.len());
    }
}

} // verus!
