//! Rotation merge: two adjacent rotations of the same axis on the same
//! qubit become one rotation whose angle is the exact IEEE-754 binary64 sum
//! of both angles, with no renormalization into any canonical range. One
//! left-to-right scan; after a merge the scan resumes past the merged
//! instruction, so a run of three same-axis rotations collapses by at most
//! one pair per call.

use vstd::prelude::*;

use crate::angle::{add_angle_bits, add_bits};
use crate::instruction::{lemma_wf_concat, lemma_wf_subrange, wf_program, Instruction};

verus! {

/// The merged instruction for an adjacent pair, if the two instructions are
/// rotations of the same axis on the same qubit: one rotation by the IEEE
/// double sum of the angles. `None` otherwise.
pub open spec fn spec_merge_pair(x: Instruction, y: Instruction) -> Option<Instruction> {
    match (x, y) {
        (Instruction::RX(a1, q1), Instruction::RX(a2, q2)) => if q1 == q2 {
            Some(Instruction::RX(add_bits(a2, a1), q1))
        } else {
            None
        },
        (Instruction::RZ(a1, q1), Instruction::RZ(a2, q2)) => if q1 == q2 {
            Some(Instruction::RZ(add_bits(a2, a1), q1))
        } else {
            None
        },
        _ => None,
    }
}

/// The program after one merging scan: wherever the current and next
/// instruction merge, the pair is replaced by the merged rotation and the
/// scan continues past the pair; otherwise the current instruction is kept.
pub open spec fn spec_rotation_merge(p: Seq<Instruction>) -> Seq<Instruction>
    decreases p.len(),
{
    if p.len() < 2 {
        p
    } else {
        match spec_merge_pair(p[0], p[1]) {
            Some(m) => seq![m] + spec_rotation_merge(p.skip(2)),
            None => seq![p[0]] + spec_rotation_merge(p.drop_first()),
        }
    }
}

/// Merging never introduces the parsing sentinel: a merged pair becomes a
/// rotation, so a well-formed program stays well formed.
pub proof fn lemma_rotation_merge_preserves_wf(p: Seq<Instruction>)
    requires
        wf_program(p),
    ensures
        wf_program(spec_rotation_merge(p)),
    decreases p.len(),
{
    if p.len() >= 2 {
        match spec_merge_pair(p[0], p[1]) {
            Some(m) => {
                lemma_wf_subrange(p, 2, p.len() as int);
                lemma_rotation_merge_preserves_wf(p.skip(2));
                lemma_wf_concat(seq![m], spec_rotation_merge(p.skip(2)));
            },
            None => {
                lemma_wf_subrange(p, 1, p.len() as int);
                lemma_rotation_merge_preserves_wf(p.drop_first());
                lemma_wf_concat(seq![p[0]], spec_rotation_merge(p.drop_first()));
            },
        }
    }
}

/// The merged instruction for an adjacent pair, as [`spec_merge_pair`]
/// defines it. The angle sum is taken with the later instruction's angle as
/// the left operand, as the merge scan does.
fn merge_pair(x: Instruction, y: Instruction) -> (r: Option<Instruction>)
    ensures
        r == spec_merge_pair(x, y),
{
    match (x, y) {
        (Instruction::RX(a1, q1), Instruction::RX(a2, q2)) => if q1 == q2 {
            Some(Instruction::RX(add_angle_bits(a2, a1), q1))
        } else {
            None
        },
        (Instruction::RZ(a1, q1), Instruction::RZ(a2, q2)) => if q1 == q2 {
            Some(Instruction::RZ(add_angle_bits(a2, a1), q1))
        } else {
            None
        },
        _ => None,
    }
}

/// Merge adjacent same-axis, same-qubit rotation pairs found in one
/// left-to-right scan. Always succeeds.
pub fn rotation_merge_pass(program: Vec<Instruction>) -> (r: Result<Vec<Instruction>, String>)
    ensures
        r is Ok,
        r->Ok_0@ == spec_rotation_merge(program@),
{
    let mut new_prog: Vec<Instruction> = Vec::new();
    let mut i: usize = 0;
    proof {
        assert(program@.skip(0) =~= program@);
        assert(Seq::<Instruction>::empty() + spec_rotation_merge(program@)
            =~= spec_rotation_merge(program@));
    }
    while i < program.len()
        invariant
            i <= program.len(),
            new_prog@ + spec_rotation_merge(program@.skip(i as int))
                == spec_rotation_merge(program@),
        decreases program.len() - i,
    {
        let ghost pre = new_prog@;
        proof {
            assert(program@.skip(i as int)[0] == program@[i as int]);
        }
        let mut merged: Option<Instruction> = None;
        if i + 1 < program.len() {
            merged = merge_pair(program[i], program[i + 1]);
            proof {
                assert(program@.skip(i as int)[1] == program@[i as int + 1]);
            }
        }
        match merged {
            Some(m) => {
                new_prog.push(m);
                proof {
                    let tail = spec_rotation_merge(program@.skip(i as int + 2));
                    assert(program@.skip(i as int).skip(2) =~= program@.skip(i as int + 2));
                    assert(new_prog@ + tail =~= pre + (seq![m] + tail));
                }
                i = i + 2;
            },
            None => {
                let instr = program[i];
                new_prog.push(instr);
                proof {
                    if program@.len() - i >= 2 {
                        let tail = spec_rotation_merge(program@.skip(i as int + 1));
                        assert(program@.skip(i as int).drop_first()
                            =~= program@.skip(i as int + 1));
                        assert(new_prog@ + tail =~= pre + (seq![instr] + tail));
                    } else {
                        assert(program@.skip(i as int) =~= seq![instr]);
                        assert(program@.skip(i as int + 1) =~= Seq::<Instruction>::empty());
                        assert(spec_rotation_merge(program@.skip(i as int + 1))
                            == Seq::<Instruction>::empty());
                        assert(new_prog@ + Seq::<Instruction>::empty() =~= pre + seq![instr]);
                    }
                }
                i = i + 1;
            },
        }
    }
    proof {
        assert(program@.skip(program@.len() as int) =~= Seq::<Instruction>::empty());
        assert(new_prog@ + Seq::<Instruction>::empty() =~= new_prog@);
    }
    Ok(new_prog)
}

} // verus!
