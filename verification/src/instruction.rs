use vstd::prelude::*;

verus! {

/// One gate of the tiny instruction set.
///
/// A rotation carries its angle as the bit pattern of an IEEE-754 binary64
/// value (see the [`crate::angle`] module): the passes compare angles
/// bit-exactly and never approximate. The qubit operands are plain indices.
///
/// `INVALID` is an internal sentinel used only for parsing bookkeeping by
/// upstream code; a well-formed program (see [`wf_program`]) never contains
/// it, and it never appears in any pass's output.
#[allow(non_camel_case_types)]
#[derive(Clone, Copy, Debug, PartialEq, Eq, Structural)]
pub enum Instruction {
    INVALID,
    /// Rotation about the X axis: angle bits, qubit.
    RX(u64, u32),
    /// Rotation about the Z axis: angle bits, qubit.
    RZ(u64, u32),
    /// Controlled-Z on two qubits; semantically symmetric in its operands,
    /// though `CZ(a, b)` and `CZ(b, a)` are not structurally equal.
    CZ(u32, u32),
    /// Measurement of one qubit.
    MEASURE(u32),
}

/// A program is well formed when the parsing sentinel does not occur in it.
/// Upstream guarantees this of every program handed to the passes, and every
/// pass preserves it (see [`crate::driver::lemma_optimize_preserves_wf`]).
pub open spec fn wf_program(p: Seq<Instruction>) -> bool {
    forall|i: int| 0 <= i < p.len() ==> !(#[trigger] p[i] is INVALID)
}

/// Two programs are well formed exactly when their concatenation is.
pub proof fn lemma_wf_concat(a: Seq<Instruction>, b: Seq<Instruction>)
    ensures
        wf_program(a + b) <==> (wf_program(a) && wf_program(b)),
{
    if wf_program(a) && wf_program(b) {
        assert forall|i: int| 0 <= i < (a + b).len() implies !(#[trigger] (a + b)[i]
            is INVALID) by {
            if i < a.len() {
                assert((a + b)[i] == a[i]);
            } else {
                assert((a + b)[i] == b[i - a.len()]);
            }
        }
    }
    if wf_program(a + b) {
        assert forall|i: int| 0 <= i < a.len() implies !(#[trigger] a[i] is INVALID) by {
            assert(a[i] == (a + b)[i]);
        }
        assert forall|i: int| 0 <= i < b.len() implies !(#[trigger] b[i] is INVALID) by {
            assert(b[i] == (a + b)[i + a.len()]);
        }
    }
}

/// Any contiguous part of a well-formed program is well formed.
pub proof fn lemma_wf_subrange(p: Seq<Instruction>, lo: int, hi: int)
    requires
        wf_program(p),
        0 <= lo <= hi <= p.len(),
    ensures
        wf_program(p.subrange(lo, hi)),
{
    assert forall|i: int| 0 <= i < p.subrange(lo, hi).len() implies !(#[trigger] p.subrange(
        lo,
        hi,
    )[i] is INVALID) by {
        assert(p.subrange(lo, hi)[i] == p[lo + i]);
    }
}

} // verus!
