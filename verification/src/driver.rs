//! The pipeline driver: native translation once, then rounds of the four
//! peephole passes — reorder, rotation merge, controlled-Z cancel, dead-code
//! elimination, in that fixed order — until a round leaves the instruction
//! count unchanged or the configured round bound is reached.
//!
//! Count stability is a cheap, conservative convergence signal: a round that
//! changes instruction content without changing count (pure reordering) is
//! indistinguishable from true convergence, so the driver can stop one round
//! early in rare cases. This is deliberate and kept for output
//! compatibility.

use vstd::prelude::*;

use crate::instruction::{wf_program, Instruction};
use crate::optimize::cz_cancel::{cz_cancel_pass, spec_cz_cancel};
use crate::optimize::deadcode::{deadcode_pass, no_dead_rotations, spec_deadcode};
use crate::optimize::native_translation::{native_translation_pass, spec_native_translation};
use crate::optimize::reorder::{reorder_pass, spec_reorder};
use crate::optimize::rotation_merge::{rotation_merge_pass, spec_rotation_merge};

verus! {

/// One full round: the four peephole passes applied in order.
pub open spec fn spec_round(p: Seq<Instruction>) -> Seq<Instruction> {
    spec_deadcode(spec_cz_cancel(spec_rotation_merge(spec_reorder(p))))
}

/// Up to `rounds` rounds applied to `p`, stopping after the first round
/// that leaves the instruction count unchanged.
pub open spec fn spec_optimize_rounds(p: Seq<Instruction>, rounds: nat) -> Seq<Instruction>
    decreases rounds,
{
    if rounds == 0 {
        p
    } else {
        let q = spec_round(p);
        if q.len() == p.len() {
            q
        } else {
            spec_optimize_rounds(q, (rounds - 1) as nat)
        }
    }
}

/// The whole pipeline: native translation once, then up to `max_rounds`
/// peephole rounds.
pub open spec fn spec_optimize_program(p: Seq<Instruction>, max_rounds: nat) -> Seq<
    Instruction,
> {
    spec_optimize_rounds(spec_native_translation(p), max_rounds)
}

/// One round never introduces the parsing sentinel.
pub proof fn lemma_round_preserves_wf(p: Seq<Instruction>)
    requires
        wf_program(p),
    ensures
        wf_program(spec_round(p)),
{
    crate::optimize::reorder::lemma_reorder_preserves_wf(p);
    crate::optimize::rotation_merge::lemma_rotation_merge_preserves_wf(spec_reorder(p));
    crate::optimize::cz_cancel::lemma_cz_cancel_preserves_wf(
        spec_rotation_merge(spec_reorder(p)),
    );
    crate::optimize::deadcode::lemma_deadcode_preserves_wf(
        spec_cz_cancel(spec_rotation_merge(spec_reorder(p))),
    );
}

/// Any number of rounds never introduces the parsing sentinel.
pub proof fn lemma_rounds_preserve_wf(p: Seq<Instruction>, rounds: nat)
    requires
        wf_program(p),
    ensures
        wf_program(spec_optimize_rounds(p, rounds)),
    decreases rounds,
{
    if rounds > 0 {
        lemma_round_preserves_wf(p);
        let q = spec_round(p);
        if q.len() != p.len() {
            lemma_rounds_preserve_wf(q, (rounds - 1) as nat);
        }
    }
}

/// The whole pipeline never emits the parsing sentinel downstream: the
/// optimized form of a well-formed program is well formed.
pub proof fn lemma_optimize_preserves_wf(p: Seq<Instruction>, max_rounds: nat)
    requires
        wf_program(p),
    ensures
        wf_program(spec_optimize_program(p, max_rounds)),
{
    crate::optimize::native_translation::lemma_native_translation_preserves_wf(p);
    lemma_rounds_preserve_wf(spec_native_translation(p), max_rounds);
}

/// After at least one round, no zero-angle rotation survives: every round
/// ends with dead-code elimination, which is complete.
pub proof fn lemma_rounds_remove_dead(p: Seq<Instruction>, rounds: nat)
    requires
        rounds >= 1,
    ensures
        no_dead_rotations(spec_optimize_rounds(p, rounds)),
    decreases rounds,
{
    let q = spec_round(p);
    crate::optimize::deadcode::lemma_deadcode_complete(
        spec_cz_cancel(spec_rotation_merge(spec_reorder(p))),
    );
    if q.len() != p.len() {
        if rounds >= 2 {
            lemma_rounds_remove_dead(q, (rounds - 1) as nat);
        } else {
            assert(spec_optimize_rounds(q, 0) == q);
        }
    }
}

/// The pipeline's output never holds a zero-angle rotation, whatever the
/// input: the driver runs at least one round, and each round ends with
/// dead-code elimination.
pub proof fn lemma_optimize_removes_dead(p: Seq<Instruction>, max_rounds: nat)
    requires
        max_rounds >= 1,
    ensures
        no_dead_rotations(spec_optimize_program(p, max_rounds)),
{
    lemma_rounds_remove_dead(spec_native_translation(p), max_rounds);
}

/// Run the pipeline on a program: native translation exactly once, then
/// rounds of [reorder, rotation merge, controlled-Z cancel, dead-code], at
/// most `max_rounds` of them, stopping as soon as a round leaves the
/// instruction count unchanged.
///
/// Every pass is total, so the error arms below are provably never taken:
/// the driver always returns the optimized program.
pub fn optimize_program(program: Vec<Instruction>, max_rounds: u32) -> (r: Result<
    Vec<Instruction>,
    String,
>)
    requires
        max_rounds >= 1,
    ensures
        r is Ok,
        r->Ok_0@ == spec_optimize_program(program@, max_rounds as nat),
        wf_program(program@) ==> wf_program(r->Ok_0@),
        no_dead_rotations(r->Ok_0@),
{
    proof {
        if wf_program(program@) {
            lemma_optimize_preserves_wf(program@, max_rounds as nat);
        }
        lemma_optimize_removes_dead(program@, max_rounds as nat);
    }
    let mut prog = match native_translation_pass(program) {
        Ok(p) => p,
        Err(e) => { return Err(e) },
    };
    let ghost start = prog@;
    let mut prev_len = prog.len();
    let mut round: u32 = 0;
    while round < max_rounds
        invariant_except_break
            round <= max_rounds,
            prev_len == prog@.len(),
            spec_optimize_rounds(prog@, (max_rounds - round) as nat) == spec_optimize_rounds(
                start,
                max_rounds as nat,
            ),
        ensures
            prog@ == spec_optimize_rounds(start, max_rounds as nat),
        decreases max_rounds - round,
    {
        let ghost before = prog@;
        let p1 = match reorder_pass(prog) {
            Ok(p) => p,
            Err(e) => { return Err(e) },
        };
        let p2 = match rotation_merge_pass(p1) {
            Ok(p) => p,
            Err(e) => { return Err(e) },
        };
        let p3 = match cz_cancel_pass(p2) {
            Ok(p) => p,
            Err(e) => { return Err(e) },
        };
        let p4 = match deadcode_pass(p3) {
            Ok(p) => p,
            Err(e) => { return Err(e) },
        };
        prog = p4;
        proof {
            assert(prog@ == spec_round(before));
        }
        if prog.len() == prev_len {
            break ;
        }
        prev_len = prog.len();
        round = round + 1;
    }
    Ok(prog)
}

} // verus!
