//! Native-gate translation: rewrite every rotation-X whose angle lies
//! outside the native set {0, pi, -pi, pi/2, -pi/2} into a five-instruction
//! decomposition of native primitives. All other instructions pass through
//! unchanged, in order. Runs exactly once, before the peephole rounds.

use vstd::prelude::*;

use crate::angle::{is_native_rx_angle, ABS_MASK, HALF_PI_BITS, NEG_HALF_PI_BITS, PI_BITS};
use crate::instruction::{lemma_wf_concat, lemma_wf_subrange, wf_program, Instruction};

verus! {

/// Whether the instruction is directly executable without decomposition:
/// everything but a rotation-X, and a rotation-X whose angle lies in
/// {0, pi, -pi, pi/2, -pi/2} under exact bit equality.
pub open spec fn spec_is_native_instruction(instr: Instruction) -> bool {
    match instr {
        Instruction::RX(a, _) => is_native_rx_angle(a),
        _ => true,
    }
}

/// Whether every instruction of the program is native.
pub open spec fn native_program(p: Seq<Instruction>) -> bool {
    forall|i: int| 0 <= i < p.len() ==> spec_is_native_instruction(#[trigger] p[i])
}

/// The five-instruction decomposition that replaces a non-native
/// `RX(a, q)`: `RZ(pi/2, q)`, `RX(pi/2, q)`, `RZ(a, q)`, `RX(-pi/2, q)`,
/// `RZ(-pi/2, q)`, in that order (a standard decomposition of an arbitrary
/// rotation-X into native primitives, correct up to global phase).
pub open spec fn rx_expansion(a: u64, q: u32) -> Seq<Instruction> {
    seq![
        Instruction::RZ(HALF_PI_BITS, q),
        Instruction::RX(HALF_PI_BITS, q),
        Instruction::RZ(a, q),
        Instruction::RX(NEG_HALF_PI_BITS, q),
        Instruction::RZ(NEG_HALF_PI_BITS, q),
    ]
}

/// The translated program: each non-native rotation-X replaced, in place, by
/// its expansion; every other instruction kept unchanged, in order.
pub open spec fn spec_native_translation(p: Seq<Instruction>) -> Seq<Instruction>
    decreases p.len(),
{
    if p.len() == 0 {
        Seq::empty()
    } else {
        let rest = spec_native_translation(p.drop_first());
        match p[0] {
            Instruction::RX(a, q) => if is_native_rx_angle(a) {
                seq![p[0]] + rest
            } else {
                rx_expansion(a, q) + rest
            },
            _ => seq![p[0]] + rest,
        }
    }
}

/// A program already restricted to the native set is left unchanged by
/// native translation.
pub proof fn lemma_native_translation_noop(p: Seq<Instruction>)
    requires
        native_program(p),
    ensures
        spec_native_translation(p) == p,
    decreases p.len(),
{
    if p.len() > 0 {
        assert(spec_is_native_instruction(p[0]));
        assert(native_program(p.drop_first())) by {
            assert(forall|i: int| 0 <= i < p.drop_first().len()
                ==> #[trigger] p.drop_first()[i] == p[i + 1]);
        }
        lemma_native_translation_noop(p.drop_first());
        assert(seq![p[0]] + p.drop_first() =~= p);
    } else {
        assert(spec_native_translation(p) =~= p);
    }
}

/// Native translation always yields a program restricted to the native set.
pub proof fn lemma_native_translation_native(p: Seq<Instruction>)
    ensures
        native_program(spec_native_translation(p)),
    decreases p.len(),
{
    if p.len() > 0 {
        lemma_native_translation_native(p.drop_first());
        let rest = spec_native_translation(p.drop_first());
        match p[0] {
            Instruction::RX(a, q) => {
                if is_native_rx_angle(a) {
                    assert(native_program(seq![p[0]] + rest));
                } else {
                    crate::angle::lemma_native_angle_consts();
                    assert(native_program(rx_expansion(a, q) + rest));
                }
            },
            _ => {
                assert(native_program(seq![p[0]] + rest));
            },
        }
    }
}

/// Native translation is idempotent: translating a second time changes
/// nothing, since the first translation leaves only native instructions.
pub proof fn lemma_native_translation_idempotent(p: Seq<Instruction>)
    ensures
        spec_native_translation(spec_native_translation(p)) == spec_native_translation(p),
{
    lemma_native_translation_native(p);
    lemma_native_translation_noop(spec_native_translation(p));
}

/// Native translation never introduces the parsing sentinel: every inserted
/// instruction is a rotation, so a well-formed program stays well formed.
pub proof fn lemma_native_translation_preserves_wf(p: Seq<Instruction>)
    requires
        wf_program(p),
    ensures
        wf_program(spec_native_translation(p)),
    decreases p.len(),
{
    if p.len() > 0 {
        lemma_wf_subrange(p, 1, p.len() as int);
        lemma_native_translation_preserves_wf(p.drop_first());
        let rest = spec_native_translation(p.drop_first());
        match p[0] {
            Instruction::RX(a, q) => {
                if is_native_rx_angle(a) {
                    lemma_wf_concat(seq![p[0]], rest);
                } else {
                    assert(wf_program(rx_expansion(a, q)));
                    lemma_wf_concat(rx_expansion(a, q), rest);
                }
            },
            _ => {
                lemma_wf_concat(seq![p[0]], rest);
            },
        }
    }
}

/// A single non-native rotation-X translates to exactly its five-instruction
/// expansion, in order.
pub proof fn lemma_rx_expands(a: u64, q: u32)
    requires
        !is_native_rx_angle(a),
    ensures
        spec_native_translation(seq![Instruction::RX(a, q)]) == rx_expansion(a, q),
{
    let s = seq![Instruction::RX(a, q)];
    assert(s.drop_first() =~= Seq::<Instruction>::empty());
    assert(spec_native_translation(Seq::<Instruction>::empty())
        =~= Seq::<Instruction>::empty());
    assert(rx_expansion(a, q) + Seq::<Instruction>::empty() =~= rx_expansion(a, q));
}

/// Whether the instruction is native, as [`spec_is_native_instruction`]
/// defines it.
pub fn is_native_instruction(instr: &Instruction) -> (r: bool)
    ensures
        r == spec_is_native_instruction(*instr),
{
    match *instr {
        Instruction::RX(a, _) => {
            let m = a & ABS_MASK;
            m == 0 || m == PI_BITS || m == HALF_PI_BITS
        },
        _ => true,
    }
}

/// Translate the program to native instructions only. Always succeeds; the
/// result may be up to five times as long as the input.
pub fn native_translation_pass(program: Vec<Instruction>) -> (r: Result<
    Vec<Instruction>,
    String,
>)
    ensures
        r is Ok,
        r->Ok_0@ == spec_native_translation(program@),
{
    let mut new_prog: Vec<Instruction> = Vec::new();
    let mut i: usize = 0;
    proof {
        assert(program@.skip(0) =~= program@);
        assert(Seq::<Instruction>::empty() + spec_native_translation(program@)
            =~= spec_native_translation(program@));
    }
    while i < program.len()
        invariant
            i <= program.len(),
            new_prog@ + spec_native_translation(program@.skip(i as int))
                == spec_native_translation(program@),
        decreases program.len() - i,
    {
        let instr = program[i];
        let ghost pre = new_prog@;
        let ghost tail = spec_native_translation(program@.skip(i as int + 1));
        proof {
            assert(program@.skip(i as int)[0] == instr);
            assert(program@.skip(i as int).drop_first() =~= program@.skip(i as int + 1));
        }
        match instr {
            Instruction::RX(a, q) => {
                if is_native_instruction(&instr) {
                    new_prog.push(instr);
                    proof {
                        assert(new_prog@ + tail =~= pre + (seq![instr] + tail));
                    }
                } else {
                    new_prog.push(Instruction::RZ(HALF_PI_BITS, q));
                    new_prog.push(Instruction::RX(HALF_PI_BITS, q));
                    new_prog.push(Instruction::RZ(a, q));
                    new_prog.push(Instruction::RX(NEG_HALF_PI_BITS, q));
                    new_prog.push(Instruction::RZ(NEG_HALF_PI_BITS, q));
                    proof {
                        assert(new_prog@ + tail =~= pre + (rx_expansion(a, q) + tail));
                    }
                }
            },
            _ => {
                new_prog.push(instr);
                proof {
                    assert(new_prog@ + tail =~= pre + (seq![instr] + tail));
                }
            },
        }
        i = i + 1;
    }
    proof {
        assert(program@.skip(program@.len() as int) =~= Seq::<Instruction>::empty());
        assert(new_prog@ + Seq::<Instruction>::empty() =~= new_prog@);
    }
    Ok(new_prog)
}

} // verus!
