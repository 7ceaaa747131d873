//! Reorder: canonicalize each maximal contiguous run of rotation-Z and
//! controlled-Z instructions that share an anchor qubit — the anchor being
//! the first operand of the run's first instruction. Within a run, every
//! rotation-Z comes before every controlled-Z, rotations keep their input
//! order, and controlled-Z instructions are grouped so that all members of
//! one unordered qubit pair stand together: groups appear in order of their
//! first occurrence, and within a group the input order is kept, so the
//! relative order of instructions is never changed beyond what grouping
//! forces. Instructions outside such a run stay in place as run boundaries.
//! The pass surfaces adjacent mergeable rotations and cancellable
//! controlled-Z pairs for the passes that follow it in the same round.

use vstd::prelude::*;

use vstd::seq_lib::lemma_multiset_commutative;

use crate::instruction::{lemma_wf_concat, lemma_wf_subrange, wf_program, Instruction};
use crate::optimize::cz_cancel::{cancellable, spec_cancellable};

verus! {

/// The anchor qubit an instruction would give a run it starts: a
/// rotation-Z's qubit, or a controlled-Z's first operand. Instructions of
/// any other kind start no run.
pub open spec fn spec_anchor(instr: Instruction) -> Option<u32> {
    match instr {
        Instruction::RZ(_, q) => Some(q),
        Instruction::CZ(q, _) => Some(q),
        _ => None,
    }
}

/// Whether the instruction belongs to a run anchored at `q`: a rotation-Z
/// on `q`, or a controlled-Z whose first operand is `q`.
pub open spec fn spec_in_run(instr: Instruction, q: u32) -> bool {
    match instr {
        Instruction::RZ(_, q2) => q2 == q,
        Instruction::CZ(q2, _) => q2 == q,
        _ => false,
    }
}

/// The length of the maximal prefix of `p` whose instructions all belong to
/// a run anchored at `q`.
pub open spec fn run_len(p: Seq<Instruction>, q: u32) -> nat
    decreases p.len(),
{
    if p.len() == 0 || !spec_in_run(p[0], q) {
        0
    } else {
        1 + run_len(p.drop_first(), q)
    }
}

/// The rotation-Z instructions of the sequence, in order.
pub open spec fn rzs_of(s: Seq<Instruction>) -> Seq<Instruction>
    decreases s.len(),
{
    if s.len() == 0 {
        Seq::empty()
    } else if s[0] is RZ {
        seq![s[0]] + rzs_of(s.drop_first())
    } else {
        rzs_of(s.drop_first())
    }
}

/// The controlled-Z instructions of the sequence, in order.
pub open spec fn czs_of(s: Seq<Instruction>) -> Seq<Instruction>
    decreases s.len(),
{
    if s.len() == 0 {
        Seq::empty()
    } else if s[0] is CZ {
        seq![s[0]] + czs_of(s.drop_first())
    } else {
        czs_of(s.drop_first())
    }
}

/// The instructions of the sequence that cancel against `c` (same unordered
/// qubit pair), in order.
pub open spec fn matching_czs(s: Seq<Instruction>, c: Instruction) -> Seq<Instruction>
    decreases s.len(),
{
    if s.len() == 0 {
        Seq::empty()
    } else if spec_cancellable(c, s[0]) {
        seq![s[0]] + matching_czs(s.drop_first(), c)
    } else {
        matching_czs(s.drop_first(), c)
    }
}

/// The instructions of the sequence that do not cancel against `c`, in
/// order.
pub open spec fn other_czs(s: Seq<Instruction>, c: Instruction) -> Seq<Instruction>
    decreases s.len(),
{
    if s.len() == 0 {
        Seq::empty()
    } else if spec_cancellable(c, s[0]) {
        other_czs(s.drop_first(), c)
    } else {
        seq![s[0]] + other_czs(s.drop_first(), c)
    }
}

/// Keeping only some instructions never lengthens a sequence.
proof fn lemma_other_czs_len(s: Seq<Instruction>, c: Instruction)
    ensures
        other_czs(s, c).len() <= s.len(),
    decreases s.len(),
{
    if s.len() > 0 {
        lemma_other_czs_len(s.drop_first(), c);
    }
}

/// The controlled-Z instructions regrouped by unordered qubit pair: groups
/// in order of first occurrence, input order within each group.
pub open spec fn spec_group_czs(s: Seq<Instruction>) -> Seq<Instruction>
    decreases s.len(),
    via spec_group_czs_decreases
{
    if s.len() == 0 {
        Seq::empty()
    } else {
        seq![s[0]] + matching_czs(s.drop_first(), s[0]) + spec_group_czs(
            other_czs(s.drop_first(), s[0]),
        )
    }
}

#[via_fn]
proof fn spec_group_czs_decreases(s: Seq<Instruction>) {
    if s.len() > 0 {
        lemma_other_czs_len(s.drop_first(), s[0]);
    }
}

/// The canonical order of one run: every rotation-Z first, in input order,
/// then the controlled-Z instructions grouped by unordered qubit pair.
pub open spec fn spec_reorder_run(run: Seq<Instruction>) -> Seq<Instruction> {
    rzs_of(run) + spec_group_czs(czs_of(run))
}

/// A run prefix never reaches past the end of the sequence.
proof fn lemma_run_len_le(p: Seq<Instruction>, q: u32)
    ensures
        run_len(p, q) <= p.len(),
    decreases p.len(),
{
    if p.len() > 0 && spec_in_run(p[0], q) {
        lemma_run_len_le(p.drop_first(), q);
    }
}

/// The reordered program: each maximal anchored run replaced by its
/// canonical order, everything else kept in place.
pub open spec fn spec_reorder(p: Seq<Instruction>) -> Seq<Instruction>
    decreases p.len(),
    via spec_reorder_decreases
{
    if p.len() == 0 {
        Seq::empty()
    } else {
        match spec_anchor(p[0]) {
            Some(q) => spec_reorder_run(p.take(run_len(p, q) as int)) + spec_reorder(
                p.skip(run_len(p, q) as int),
            ),
            None => seq![p[0]] + spec_reorder(p.drop_first()),
        }
    }
}

#[via_fn]
proof fn spec_reorder_decreases(p: Seq<Instruction>) {
    if p.len() > 0 {
        match spec_anchor(p[0]) {
            Some(q) => {
                lemma_run_len_le(p, q);
                assert(spec_in_run(p[0], q));
            },
            None => {},
        }
    }
}

/// The rotation-Z part of a run holds rotations only, so it never holds the
/// parsing sentinel.
proof fn lemma_rzs_of_wf(s: Seq<Instruction>)
    ensures
        wf_program(rzs_of(s)),
    decreases s.len(),
{
    if s.len() > 0 {
        lemma_rzs_of_wf(s.drop_first());
        if s[0] is RZ {
            lemma_wf_concat(seq![s[0]], rzs_of(s.drop_first()));
        }
    }
}

/// The controlled-Z part of a run holds controlled-Z instructions only, so
/// it never holds the parsing sentinel.
proof fn lemma_czs_of_wf(s: Seq<Instruction>)
    ensures
        wf_program(czs_of(s)),
    decreases s.len(),
{
    if s.len() > 0 {
        lemma_czs_of_wf(s.drop_first());
        if s[0] is CZ {
            lemma_wf_concat(seq![s[0]], czs_of(s.drop_first()));
        }
    }
}

/// Instructions that cancel against something are controlled-Z, so the
/// matching part never holds the parsing sentinel.
proof fn lemma_matching_czs_wf(s: Seq<Instruction>, c: Instruction)
    ensures
        wf_program(matching_czs(s, c)),
    decreases s.len(),
{
    if s.len() > 0 {
        lemma_matching_czs_wf(s.drop_first(), c);
        if spec_cancellable(c, s[0]) {
            lemma_wf_concat(seq![s[0]], matching_czs(s.drop_first(), c));
        }
    }
}

/// Keeping only some instructions of a well-formed sequence leaves it well
/// formed.
proof fn lemma_other_czs_wf(s: Seq<Instruction>, c: Instruction)
    requires
        wf_program(s),
    ensures
        wf_program(other_czs(s, c)),
    decreases s.len(),
{
    if s.len() > 0 {
        lemma_wf_subrange(s, 1, s.len() as int);
        lemma_other_czs_wf(s.drop_first(), c);
        if !spec_cancellable(c, s[0]) {
            lemma_wf_concat(seq![s[0]], other_czs(s.drop_first(), c));
        }
    }
}

/// Grouping a well-formed sequence of instructions leaves it well formed.
proof fn lemma_group_czs_wf(s: Seq<Instruction>)
    requires
        wf_program(s),
    ensures
        wf_program(spec_group_czs(s)),
    decreases s.len(),
{
    if s.len() > 0 {
        lemma_wf_subrange(s, 1, s.len() as int);
        lemma_matching_czs_wf(s.drop_first(), s[0]);
        lemma_other_czs_wf(s.drop_first(), s[0]);
        lemma_other_czs_len(s.drop_first(), s[0]);
        lemma_group_czs_wf(other_czs(s.drop_first(), s[0]));
        lemma_wf_concat(seq![s[0]], matching_czs(s.drop_first(), s[0]));
        lemma_wf_concat(
            seq![s[0]] + matching_czs(s.drop_first(), s[0]),
            spec_group_czs(other_czs(s.drop_first(), s[0])),
        );
    }
}

/// Reordering never introduces the parsing sentinel: a well-formed program
/// stays well formed.
pub proof fn lemma_reorder_preserves_wf(p: Seq<Instruction>)
    requires
        wf_program(p),
    ensures
        wf_program(spec_reorder(p)),
    decreases p.len(),
{
    if p.len() > 0 {
        match spec_anchor(p[0]) {
            Some(q) => {
                lemma_run_len_le(p, q);
                assert(spec_in_run(p[0], q));
                let n = run_len(p, q) as int;
                lemma_wf_subrange(p, n, p.len() as int);
                lemma_reorder_preserves_wf(p.skip(n));
                lemma_rzs_of_wf(p.take(n));
                lemma_czs_of_wf(p.take(n));
                lemma_group_czs_wf(czs_of(p.take(n)));
                lemma_wf_concat(rzs_of(p.take(n)), spec_group_czs(czs_of(p.take(n))));
                lemma_wf_concat(spec_reorder_run(p.take(n)), spec_reorder(p.skip(n)));
            },
            None => {
                lemma_wf_subrange(p, 1, p.len() as int);
                lemma_reorder_preserves_wf(p.drop_first());
                lemma_wf_concat(seq![p[0]], spec_reorder(p.drop_first()));
            },
        }
    }
}

/// Every instruction of the maximal run prefix belongs to the run.
proof fn lemma_run_prefix_members(p: Seq<Instruction>, q: u32)
    ensures
        forall|i: int| 0 <= i < run_len(p, q) ==> spec_in_run(#[trigger] p[i], q),
    decreases p.len(),
{
    if p.len() > 0 && spec_in_run(p[0], q) {
        let rest = p.drop_first();
        lemma_run_len_le(p, q);
        lemma_run_prefix_members(rest, q);
        assert forall|i: int| 0 <= i < run_len(p, q) implies spec_in_run(#[trigger] p[i], q) by {
            if i > 0 {
                assert(rest[i - 1] == p[i]);
            }
        }
    }
}

/// Reordering is count-neutral: it rearranges instructions within runs and
/// never adds or removes one. The driver's convergence check relies on
/// this: a round that only reorders leaves the instruction count unchanged.
pub proof fn lemma_reorder_preserves_len(p: Seq<Instruction>)
    ensures
        spec_reorder(p).len() == p.len(),
{
    broadcast use vstd::seq_lib::group_to_multiset_ensures;

    lemma_reorder_is_permutation(p);
    assert(spec_reorder(p).len() == spec_reorder(p).to_multiset().len());
    assert(p.len() == p.to_multiset().len());
}

/// Taking off the first instruction decomposes the multiset of a sequence.
proof fn lemma_first_rest_multiset(s: Seq<Instruction>)
    requires
        s.len() > 0,
    ensures
        s.to_multiset() == seq![s[0]].to_multiset().add(s.drop_first().to_multiset()),
{
    assert(s =~= seq![s[0]] + s.drop_first());
    lemma_multiset_commutative(seq![s[0]], s.drop_first());
}

/// Splitting against one instruction partitions a sequence's multiset.
proof fn lemma_matching_other_partition_multiset(s: Seq<Instruction>, c: Instruction)
    ensures
        matching_czs(s, c).to_multiset().add(other_czs(s, c).to_multiset()) == s.to_multiset(),
    decreases s.len(),
{
    broadcast use vstd::multiset::group_multiset_axioms;
    broadcast use vstd::seq_lib::group_to_multiset_ensures;

    if s.len() == 0 {
        assert(matching_czs(s, c).to_multiset().add(other_czs(s, c).to_multiset())
            =~= s.to_multiset());
    } else {
        lemma_first_rest_multiset(s);
        lemma_matching_other_partition_multiset(s.drop_first(), c);
        if spec_cancellable(c, s[0]) {
            lemma_multiset_commutative(seq![s[0]], matching_czs(s.drop_first(), c));
        } else {
            lemma_multiset_commutative(seq![s[0]], other_czs(s.drop_first(), c));
        }
        assert(matching_czs(s, c).to_multiset().add(other_czs(s, c).to_multiset())
            =~= s.to_multiset());
    }
}

/// Grouping only rearranges: it keeps the multiset of instructions.
proof fn lemma_group_czs_multiset(s: Seq<Instruction>)
    ensures
        spec_group_czs(s).to_multiset() == s.to_multiset(),
    decreases s.len(),
{
    broadcast use vstd::multiset::group_multiset_axioms;
    broadcast use vstd::seq_lib::group_to_multiset_ensures;

    if s.len() == 0 {
        assert(spec_group_czs(s).to_multiset() =~= s.to_multiset());
    } else {
        let rest = s.drop_first();
        let m = matching_czs(rest, s[0]);
        let o = other_czs(rest, s[0]);
        lemma_first_rest_multiset(s);
        lemma_matching_other_partition_multiset(rest, s[0]);
        lemma_other_czs_len(rest, s[0]);
        lemma_group_czs_multiset(o);
        lemma_multiset_commutative(seq![s[0]] + m, spec_group_czs(o));
        lemma_multiset_commutative(seq![s[0]], m);
        assert(spec_group_czs(s).to_multiset() =~= s.to_multiset());
    }
}

/// On a sequence of rotation-Z and controlled-Z instructions only, the two
/// parts together carry exactly the instructions of the whole.
proof fn lemma_rz_cz_partition_multiset(s: Seq<Instruction>)
    requires
        forall|i: int| 0 <= i < s.len() ==> (#[trigger] s[i] is RZ || s[i] is CZ),
    ensures
        rzs_of(s).to_multiset().add(czs_of(s).to_multiset()) == s.to_multiset(),
    decreases s.len(),
{
    broadcast use vstd::multiset::group_multiset_axioms;
    broadcast use vstd::seq_lib::group_to_multiset_ensures;

    if s.len() == 0 {
        assert(rzs_of(s).to_multiset().add(czs_of(s).to_multiset()) =~= s.to_multiset());
    } else {
        let rest = s.drop_first();
        assert(forall|i: int| 0 <= i < rest.len() ==> #[trigger] rest[i] == s[i + 1]);
        lemma_first_rest_multiset(s);
        lemma_rz_cz_partition_multiset(rest);
        if s[0] is RZ {
            lemma_multiset_commutative(seq![s[0]], rzs_of(rest));
        } else {
            lemma_multiset_commutative(seq![s[0]], czs_of(rest));
        }
        assert(rzs_of(s).to_multiset().add(czs_of(s).to_multiset()) =~= s.to_multiset());
    }
}

/// Reordering is a permutation: the output holds exactly the instructions
/// of the input, each as often as before — nothing is added, dropped or
/// rewritten, only rearranged within runs.
pub proof fn lemma_reorder_is_permutation(p: Seq<Instruction>)
    ensures
        spec_reorder(p).to_multiset() == p.to_multiset(),
    decreases p.len(),
{
    broadcast use vstd::multiset::group_multiset_axioms;
    broadcast use vstd::seq_lib::group_to_multiset_ensures;

    if p.len() == 0 {
        assert(spec_reorder(p).to_multiset() =~= p.to_multiset());
    } else {
        match spec_anchor(p[0]) {
            Some(q) => {
                lemma_run_len_le(p, q);
                assert(spec_in_run(p[0], q));
                let n = run_len(p, q) as int;
                let run = p.take(n);
                lemma_run_prefix_members(p, q);
                assert(forall|i: int| 0 <= i < run.len() ==> #[trigger] run[i] == p[i]);
                assert(forall|i: int| 0 <= i < run.len() ==> (#[trigger] run[i] is RZ || run[i]
                    is CZ));
                lemma_rz_cz_partition_multiset(run);
                lemma_group_czs_multiset(czs_of(run));
                lemma_reorder_is_permutation(p.skip(n));
                lemma_multiset_commutative(rzs_of(run), spec_group_czs(czs_of(run)));
                lemma_multiset_commutative(spec_reorder_run(run), spec_reorder(p.skip(n)));
                assert(p =~= run + p.skip(n));
                lemma_multiset_commutative(run, p.skip(n));
                assert(spec_reorder(p).to_multiset() =~= p.to_multiset());
            },
            None => {
                lemma_first_rest_multiset(p);
                lemma_reorder_is_permutation(p.drop_first());
                lemma_multiset_commutative(seq![p[0]], spec_reorder(p.drop_first()));
                assert(spec_reorder(p).to_multiset() =~= p.to_multiset());
            },
        }
    }
}

/// A scan that sees `m` run members and then stops — at the end or at a
/// non-member — has found exactly the maximal run prefix.
proof fn lemma_run_len_exact(s: Seq<Instruction>, q: u32, m: int)
    requires
        0 <= m <= s.len(),
        forall|k: int| 0 <= k < m ==> spec_in_run(#[trigger] s[k], q),
        m == s.len() || !spec_in_run(s[m], q),
    ensures
        run_len(s, q) == m,
    decreases s.len(),
{
    if m == 0 {
        if s.len() > 0 {
            assert(!spec_in_run(s[0], q));
        }
    } else {
        assert(spec_in_run(s[0], q));
        let rest = s.drop_first();
        assert(forall|k: int| 0 <= k < m - 1 ==> #[trigger] rest[k] == s[k + 1]);
        lemma_run_len_exact(rest, q, m - 1);
    }
}

/// Whether the instruction belongs to a run anchored at `q`, as
/// [`spec_in_run`] defines it.
fn is_in_run(instr: &Instruction, q: u32) -> (r: bool)
    ensures
        r == spec_in_run(*instr, q),
{
    match *instr {
        Instruction::RZ(_, q2) => q2 == q,
        Instruction::CZ(q2, _) => q2 == q,
        _ => false,
    }
}

/// Put one run into its canonical order, as [`spec_reorder_run`] defines
/// it.
fn reorder_run(run: Vec<Instruction>) -> (r: Vec<Instruction>)
    ensures
        r@ == spec_reorder_run(run@),
{
    let mut rzs: Vec<Instruction> = Vec::new();
    let mut czs: Vec<Instruction> = Vec::new();
    let mut k: usize = 0;
    proof {
        assert(run@.skip(0) =~= run@);
        assert(Seq::<Instruction>::empty() + rzs_of(run@) =~= rzs_of(run@));
        assert(Seq::<Instruction>::empty() + czs_of(run@) =~= czs_of(run@));
    }
    while k < run.len()
        invariant
            k <= run.len(),
            rzs@ + rzs_of(run@.skip(k as int)) == rzs_of(run@),
            czs@ + czs_of(run@.skip(k as int)) == czs_of(run@),
        decreases run.len() - k,
    {
        let instr = run[k];
        let ghost pre_rzs = rzs@;
        let ghost pre_czs = czs@;
        let ghost rz_tail = rzs_of(run@.skip(k as int + 1));
        let ghost cz_tail = czs_of(run@.skip(k as int + 1));
        proof {
            assert(run@.skip(k as int)[0] == instr);
            assert(run@.skip(k as int).drop_first() =~= run@.skip(k as int + 1));
        }
        match instr {
            Instruction::RZ(_, _) => {
                rzs.push(instr);
                proof {
                    assert(rzs@ + rz_tail =~= pre_rzs + (seq![instr] + rz_tail));
                }
            },
            Instruction::CZ(_, _) => {
                czs.push(instr);
                proof {
                    assert(czs@ + cz_tail =~= pre_czs + (seq![instr] + cz_tail));
                }
            },
            _ => {},
        }
        k = k + 1;
    }
    proof {
        assert(run@.skip(run@.len() as int) =~= Seq::<Instruction>::empty());
        assert(rzs@ + Seq::<Instruction>::empty() =~= rzs@);
        assert(czs@ + Seq::<Instruction>::empty() =~= czs@);
    }
    let ghost all_czs = czs@;
    let mut grouped: Vec<Instruction> = Vec::new();
    let mut rest: Vec<Instruction> = czs;
    proof {
        assert(Seq::<Instruction>::empty() + spec_group_czs(all_czs) =~= spec_group_czs(all_czs));
    }
    while rest.len() > 0
        invariant
            grouped@ + spec_group_czs(rest@) == spec_group_czs(all_czs),
        decreases rest.len(),
    {
        let ghost old_rest = rest@;
        let ghost pre_grouped = grouped@;
        let head = rest[0];
        grouped.push(head);
        let mut next_rest: Vec<Instruction> = Vec::new();
        let mut t: usize = 1;
        proof {
            assert(grouped@ + matching_czs(old_rest.skip(1), head) =~= pre_grouped + (seq![head]
                + matching_czs(old_rest.skip(1), head)));
            assert(Seq::<Instruction>::empty() + other_czs(old_rest.skip(1), head) =~= other_czs(
                old_rest.skip(1),
                head,
            ));
        }
        while t < rest.len()
            invariant
                1 <= t <= rest.len(),
                rest@ == old_rest,
                head == old_rest[0],
                grouped@ + matching_czs(old_rest.skip(t as int), head) == pre_grouped + (seq![head]
                    + matching_czs(old_rest.skip(1), head)),
                next_rest@ + other_czs(old_rest.skip(t as int), head) == other_czs(
                    old_rest.skip(1),
                    head,
                ),
            decreases rest.len() - t,
        {
            let c = rest[t];
            let ghost pre_g = grouped@;
            let ghost pre_n = next_rest@;
            let ghost m_tail = matching_czs(old_rest.skip(t as int + 1), head);
            let ghost o_tail = other_czs(old_rest.skip(t as int + 1), head);
            proof {
                assert(old_rest.skip(t as int)[0] == c);
                assert(old_rest.skip(t as int).drop_first() =~= old_rest.skip(t as int + 1));
            }
            if cancellable(&head, &c) {
                grouped.push(c);
                proof {
                    assert(grouped@ + m_tail =~= pre_g + (seq![c] + m_tail));
                }
            } else {
                next_rest.push(c);
                proof {
                    assert(next_rest@ + o_tail =~= pre_n + (seq![c] + o_tail));
                }
            }
            t = t + 1;
        }
        proof {
            assert(old_rest.skip(old_rest.len() as int) =~= Seq::<Instruction>::empty());
            assert(grouped@ + Seq::<Instruction>::empty() =~= grouped@);
            assert(next_rest@ + Seq::<Instruction>::empty() =~= next_rest@);
            assert(old_rest.drop_first() =~= old_rest.skip(1));
            assert(pre_grouped + spec_group_czs(old_rest) =~= (pre_grouped + (seq![head]
                + matching_czs(old_rest.skip(1), head))) + spec_group_czs(
                other_czs(old_rest.skip(1), head),
            ));
            lemma_other_czs_len(old_rest.skip(1), head);
        }
        rest = next_rest;
    }
    proof {
        assert(grouped@ + Seq::<Instruction>::empty() =~= grouped@);
    }
    let mut result = rzs;
    let mut tail = grouped;
    result.append(&mut tail);
    result
}

/// Canonicalize every maximal anchored run of the program. Always succeeds.
pub fn reorder_pass(program: Vec<Instruction>) -> (r: Result<Vec<Instruction>, String>)
    ensures
        r is Ok,
        r->Ok_0@ == spec_reorder(program@),
{
    let mut new_prog: Vec<Instruction> = Vec::new();
    let mut i: usize = 0;
    proof {
        assert(program@.skip(0) =~= program@);
        assert(Seq::<Instruction>::empty() + spec_reorder(program@) =~= spec_reorder(program@));
    }
    while i < program.len()
        invariant
            i <= program.len(),
            new_prog@ + spec_reorder(program@.skip(i as int)) == spec_reorder(program@),
        decreases program.len() - i,
    {
        let instr = program[i];
        let ghost pre = new_prog@;
        proof {
            assert(program@.skip(i as int)[0] == instr);
        }
        let anchor = match instr {
            Instruction::RZ(_, q) => Some(q),
            Instruction::CZ(q, _) => Some(q),
            _ => None,
        };
        match anchor {
            None => {
                new_prog.push(instr);
                proof {
                    let tail = spec_reorder(program@.skip(i as int + 1));
                    assert(program@.skip(i as int).drop_first() =~= program@.skip(i as int + 1));
                    assert(new_prog@ + tail =~= pre + (seq![instr] + tail));
                }
                i = i + 1;
            },
            Some(q) => {
                let mut j = i + 1;
                while j < program.len()
                    invariant
                        i < j <= program.len(),
                        forall|k: int| i < k < j ==> spec_in_run(#[trigger] program@[k], q),
                    ensures
                        i < j <= program.len(),
                        forall|k: int| i < k < j ==> spec_in_run(#[trigger] program@[k], q),
                        j == program.len() || !spec_in_run(program@[j as int], q),
                    decreases program.len() - j,
                {
                    if !is_in_run(&program[j], q) {
                        break ;
                    }
                    j = j + 1;
                }
                proof {
                    let s = program@.skip(i as int);
                    assert(spec_in_run(program@[i as int], q));
                    assert(forall|k: int| 0 <= k < j - i ==> #[trigger] s[k] == program@[k
                        + i as int]);
                    lemma_run_len_exact(s, q, j - i);
                }
                let mut run: Vec<Instruction> = Vec::new();
                let mut k = i;
                while k < j
                    invariant
                        i <= k <= j <= program.len(),
                        run@ == program@.subrange(i as int, k as int),
                    decreases j - k,
                {
                    run.push(program[k]);
                    proof {
                        assert(program@.subrange(i as int, k as int + 1) =~= program@.subrange(
                            i as int,
                            k as int,
                        ).push(program@[k as int]));
                    }
                    k = k + 1;
                }
                let mut sorted = reorder_run(run);
                new_prog.append(&mut sorted);
                proof {
                    let s = program@.skip(i as int);
                    assert(spec_anchor(instr) == Some(q));
                    assert(s.take((j - i) as int) =~= program@.subrange(i as int, j as int));
                    assert(s.skip((j - i) as int) =~= program@.skip(j as int));
                    let tail = spec_reorder(program@.skip(j as int));
                    assert(new_prog@ + tail =~= pre + (spec_reorder_run(
                        program@.subrange(i as int, j as int),
                    ) + tail));
                }
                i = j;
            },
        }
    }
    proof {
        assert(program@.skip(program@.len() as int) =~= Seq::<Instruction>::empty());
        assert(new_prog@ + Seq::<Instruction>::empty() =~= new_prog@);
    }
    Ok(new_prog)
}

} // verus!
