//! Controlled-Z cancellation: two adjacent controlled-Z instructions on the
//! same unordered qubit pair compose to the identity, so both are dropped.
//! One left-to-right scan; at most one cancellation per two positions per
//! call, so an odd run of identical controlled-Z instructions leaves one
//! survivor and may need another round to resolve fully.

use vstd::prelude::*;

use crate::instruction::{lemma_wf_concat, lemma_wf_subrange, wf_program, Instruction};

verus! {

/// Whether the two instructions are a cancellable pair: both controlled-Z,
/// on the same unordered qubit pair. Controlled-Z is semantically symmetric
/// in its operands, so `CZ(a, b)` also cancels `CZ(b, a)`.
pub open spec fn spec_cancellable(x: Instruction, y: Instruction) -> bool {
    match (x, y) {
        (Instruction::CZ(q1, q2), Instruction::CZ(q3, q4)) => (q1 == q3 && q2 == q4) || (q1
            == q4 && q2 == q3),
        _ => false,
    }
}

/// The program after one cancelling scan: whenever the current and next
/// instruction form a cancellable pair, both are dropped and the scan
/// continues past them; otherwise the current instruction is kept.
pub open spec fn spec_cz_cancel(p: Seq<Instruction>) -> Seq<Instruction>
    decreases p.len(),
{
    if p.len() < 2 {
        p
    } else if spec_cancellable(p[0], p[1]) {
        spec_cz_cancel(p.skip(2))
    } else {
        seq![p[0]] + spec_cz_cancel(p.drop_first())
    }
}

/// Cancellation never introduces the parsing sentinel: a well-formed
/// program stays well formed.
pub proof fn lemma_cz_cancel_preserves_wf(p: Seq<Instruction>)
    requires
        wf_program(p),
    ensures
        wf_program(spec_cz_cancel(p)),
    decreases p.len(),
{
    if p.len() >= 2 {
        if spec_cancellable(p[0], p[1]) {
            lemma_wf_subrange(p, 2, p.len() as int);
            lemma_cz_cancel_preserves_wf(p.skip(2));
        } else {
            lemma_wf_subrange(p, 1, p.len() as int);
            lemma_cz_cancel_preserves_wf(p.drop_first());
            lemma_wf_concat(seq![p[0]], spec_cz_cancel(p.drop_first()));
        }
    }
}

/// Whether the two instructions are a cancellable pair, as
/// [`spec_cancellable`] defines it.
pub fn cancellable(cz1: &Instruction, cz2: &Instruction) -> (r: bool)
    ensures
        r == spec_cancellable(*cz1, *cz2),
{
    if let Instruction::CZ(q1, q2) = *cz1 {
        if let Instruction::CZ(q3, q4) = *cz2 {
            return (q1 == q3 && q2 == q4) || (q1 == q4 && q2 == q3);
        }
    }
    false
}

/// Drop every adjacent cancellable controlled-Z pair found in one
/// left-to-right scan. Always succeeds.
pub fn cz_cancel_pass(program: Vec<Instruction>) -> (r: Result<Vec<Instruction>, String>)
    ensures
        r is Ok,
        r->Ok_0@ == spec_cz_cancel(program@),
{
    let mut new_prog: Vec<Instruction> = Vec::new();
    let mut i: usize = 0;
    proof {
        assert(program@.skip(0) =~= program@);
        assert(Seq::<Instruction>::empty() + spec_cz_cancel(program@)
            =~= spec_cz_cancel(program@));
    }
    while i < program.len()
        invariant
            i <= program.len(),
            new_prog@ + spec_cz_cancel(program@.skip(i as int)) == spec_cz_cancel(program@),
        decreases program.len() - i,
    {
        let ghost pre = new_prog@;
        proof {
            assert(program@.skip(i as int)[0] == program@[i as int]);
        }
        if i + 1 < program.len() && cancellable(&program[i], &program[i + 1]) {
            proof {
                assert(program@.skip(i as int)[1] == program@[i as int + 1]);
                assert(program@.skip(i as int).skip(2) =~= program@.skip(i as int + 2));
            }
            i = i + 2;
        } else {
            let instr = program[i];
            new_prog.push(instr);
            proof {
                if program@.len() - i >= 2 {
                    let tail = spec_cz_cancel(program@.skip(i as int + 1));
                    assert(program@.skip(i as int).drop_first() =~= program@.skip(i as int + 1));
                    assert(new_prog@ + tail =~= pre + (seq![instr] + tail));
                } else {
                    assert(program@.skip(i as int) =~= seq![instr]);
                    assert(program@.skip(i as int + 1) =~= Seq::<Instruction>::empty());
                    assert(spec_cz_cancel(program@.skip(i as int + 1))
                        == Seq::<Instruction>::empty());
                    assert(new_prog@ + Seq::<Instruction>::empty() =~= pre + seq![instr]);
                }
            }
            i = i + 1;
        }
    }
    proof {
        assert(program@.skip(program@.len() as int) =~= Seq::<Instruction>::empty());
        assert(new_prog@ + Seq::<Instruction>::empty() =~= new_prog@);
    }
    Ok(new_prog)
}

} // verus!
