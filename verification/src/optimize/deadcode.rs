//! Dead-code elimination: remove every rotation whose angle is an exact
//! IEEE-754 zero, of either sign. Controlled-Z and measurement instructions
//! are never removed; measurement is always treated as externally
//! observable.

use vstd::prelude::*;

use crate::angle::is_zero_angle;
use crate::instruction::{lemma_wf_concat, lemma_wf_subrange, wf_program, Instruction};

verus! {

/// Whether the instruction is a rotation by an exact zero angle (either
/// sign), and so has no effect.
pub open spec fn spec_is_dead(instr: Instruction) -> bool {
    match instr {
        Instruction::RX(a, _) => is_zero_angle(a),
        Instruction::RZ(a, _) => is_zero_angle(a),
        _ => false,
    }
}

/// The program with every zero-angle rotation removed, all other
/// instructions kept in order.
pub open spec fn spec_deadcode(p: Seq<Instruction>) -> Seq<Instruction>
    decreases p.len(),
{
    if p.len() == 0 {
        Seq::empty()
    } else if spec_is_dead(p[0]) {
        spec_deadcode(p.drop_first())
    } else {
        seq![p[0]] + spec_deadcode(p.drop_first())
    }
}

/// Whether the program is free of zero-angle rotations.
pub open spec fn no_dead_rotations(p: Seq<Instruction>) -> bool {
    forall|i: int| 0 <= i < p.len() ==> !spec_is_dead(#[trigger] p[i])
}

/// Dead-code elimination is complete: its output never holds a zero-angle
/// rotation.
pub proof fn lemma_deadcode_complete(p: Seq<Instruction>)
    ensures
        no_dead_rotations(spec_deadcode(p)),
    decreases p.len(),
{
    if p.len() > 0 {
        lemma_deadcode_complete(p.drop_first());
        if !spec_is_dead(p[0]) {
            let rest = spec_deadcode(p.drop_first());
            let out = seq![p[0]] + rest;
            assert forall|i: int| 0 <= i < out.len() implies !spec_is_dead(#[trigger] out[i]) by {
                if i == 0 {
                    assert(out[0] == p[0]);
                } else {
                    assert(out[i] == rest[i - 1]);
                }
            }
        }
    }
}

/// Dead-code elimination never introduces the parsing sentinel: a
/// well-formed program stays well formed.
pub proof fn lemma_deadcode_preserves_wf(p: Seq<Instruction>)
    requires
        wf_program(p),
    ensures
        wf_program(spec_deadcode(p)),
    decreases p.len(),
{
    if p.len() > 0 {
        lemma_wf_subrange(p, 1, p.len() as int);
        lemma_deadcode_preserves_wf(p.drop_first());
        if !spec_is_dead(p[0]) {
            lemma_wf_concat(seq![p[0]], spec_deadcode(p.drop_first()));
        }
    }
}

/// Remove every zero-angle rotation from the program. Always succeeds.
pub fn deadcode_pass(program: Vec<Instruction>) -> (r: Result<Vec<Instruction>, String>)
    ensures
        r is Ok,
        r->Ok_0@ == spec_deadcode(program@),
{
    let mut new_prog: Vec<Instruction> = Vec::new();
    let mut i: usize = 0;
    proof {
        assert(program@.skip(0) =~= program@);
        assert(Seq::<Instruction>::empty() + spec_deadcode(program@) =~= spec_deadcode(program@));
    }
    while i < program.len()
        invariant
            i <= program.len(),
            new_prog@ + spec_deadcode(program@.skip(i as int)) == spec_deadcode(program@),
        decreases program.len() - i,
    {
        let instr = program[i];
        let ghost pre = new_prog@;
        let ghost tail = spec_deadcode(program@.skip(i as int + 1));
        proof {
            assert(program@.skip(i as int)[0] == instr);
            assert(program@.skip(i as int).drop_first() =~= program@.skip(i as int + 1));
        }
        let keep = match instr {
            Instruction::RX(a, _) => a & crate::angle::ABS_MASK != 0,
            Instruction::RZ(a, _) => a & crate::angle::ABS_MASK != 0,
            _ => true,
        };
        if keep {
            new_prog.push(instr);
            proof {
                assert(new_prog@ + tail =~= pre + (seq![instr] + tail));
            }
        }
        i = i + 1;
    }
    proof {
        assert(program@.skip(program@.len() as int) =~= Seq::<Instruction>::empty());
        assert(new_prog@ + Seq::<Instruction>::empty() =~= new_prog@);
    }
    Ok(new_prog)
}

} // verus!
