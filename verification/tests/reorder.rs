use qc_peephole::instruction::Instruction;
use qc_peephole::optimize::reorder::reorder_pass;

fn b(x: f64) -> u64 {
    x.to_bits()
}

#[test]
fn no_reordering_pass() {
    let init_instrs = vec![
        Instruction::RX(b(0.0), 1),
        Instruction::RZ(b(1.1), 1),
        Instruction::RZ(b(1.1), 2),
        Instruction::CZ(3, 2),
        Instruction::RZ(b(1.1), 1),
        Instruction::CZ(1, 0),
        Instruction::CZ(0, 2),
        Instruction::RZ(b(0.45), 2),
        Instruction::CZ(1, 2),
        Instruction::RZ(b(1.4), 2),
    ];

    let expected_instrs = init_instrs.clone();

    let actual_instrs = reorder_pass(init_instrs).unwrap();

    println!("Expected: {:?}", expected_instrs);
    println!("Actual:   {:?}", actual_instrs);

    assert_eq!(expected_instrs.len(), actual_instrs.len());

    for (i, instr) in expected_instrs.iter().enumerate() {
        assert_eq!(instr, &actual_instrs[i]);
    }
}

#[test]
fn test_reorder_pass() {
    let init_instrs = vec![
        Instruction::RX(b(0.0), 1),
        Instruction::RZ(b(1.1), 1),
        Instruction::RZ(b(1.1), 1),
        Instruction::CZ(1, 2),
        Instruction::RZ(b(1.1), 1),
        Instruction::CZ(1, 0),
        Instruction::CZ(1, 2),
        Instruction::RZ(b(0.45), 2),
        Instruction::CZ(1, 2),
        Instruction::RZ(b(1.4), 1),
    ];

    // Within the run anchored at qubit 1, the rotations come first in input
    // order; the controlled-Z instructions group by unordered pair, groups
    // in order of first occurrence, so the {1,2} pair stands before the
    // lone {1,0} instruction.
    let expected_instrs = vec![
        Instruction::RX(b(0.0), 1),
        Instruction::RZ(b(1.1), 1),
        Instruction::RZ(b(1.1), 1),
        Instruction::RZ(b(1.1), 1),
        Instruction::CZ(1, 2),
        Instruction::CZ(1, 2),
        Instruction::CZ(1, 0),
        Instruction::RZ(b(0.45), 2),
        Instruction::RZ(b(1.4), 1),
        Instruction::CZ(1, 2),
    ];

    let actual_instrs = reorder_pass(init_instrs).unwrap();

    println!("Expected: {:?}", expected_instrs);
    println!("Actual:   {:?}", actual_instrs);

    assert_eq!(expected_instrs.len(), actual_instrs.len());

    for (i, instr) in expected_instrs.iter().enumerate() {
        assert_eq!(instr, &actual_instrs[i]);
    }
}

#[test]
fn reorder_groups_cancellable_pair_adjacent() {
    let init_instrs = vec![
        Instruction::RZ(b(1.1), 1),
        Instruction::RZ(b(1.1), 1),
        Instruction::CZ(1, 2),
        Instruction::RZ(b(1.1), 1),
        Instruction::CZ(1, 0),
        Instruction::CZ(1, 2),
        Instruction::RZ(b(0.45), 2),
        Instruction::CZ(1, 2),
        Instruction::RZ(b(1.4), 1),
    ];

    let actual_instrs = reorder_pass(init_instrs).unwrap();

    // All rotations of the first anchored run come before its controlled-Z
    // instructions, and the two CZ(1,2) of that run are adjacent.
    let expected_instrs = vec![
        Instruction::RZ(b(1.1), 1),
        Instruction::RZ(b(1.1), 1),
        Instruction::RZ(b(1.1), 1),
        Instruction::CZ(1, 2),
        Instruction::CZ(1, 2),
        Instruction::CZ(1, 0),
        Instruction::RZ(b(0.45), 2),
        Instruction::RZ(b(1.4), 1),
        Instruction::CZ(1, 2),
    ];
    assert_eq!(actual_instrs, expected_instrs);
}

#[test]
fn reorder_keeps_non_cancellable_order() {
    // Three controlled-Z on pairwise different qubit pairs, sharing the
    // anchor qubit 1: nothing is cancellable, so the input order is kept.
    let init_instrs = vec![
        Instruction::CZ(1, 2),
        Instruction::CZ(1, 0),
        Instruction::CZ(1, 3),
    ];
    let expected_instrs = init_instrs.clone();
    let actual_instrs = reorder_pass(init_instrs).unwrap();
    assert_eq!(actual_instrs, expected_instrs);
}

#[test]
fn reorder_groups_two_pairs() {
    // Two interleaved cancellable pairs on one anchor: each pair becomes
    // adjacent; groups keep first-occurrence order, members keep input
    // order.
    let init_instrs = vec![
        Instruction::CZ(1, 2),
        Instruction::CZ(1, 0),
        Instruction::CZ(1, 2),
        Instruction::CZ(1, 0),
    ];
    let expected_instrs = vec![
        Instruction::CZ(1, 2),
        Instruction::CZ(1, 2),
        Instruction::CZ(1, 0),
        Instruction::CZ(1, 0),
    ];
    let actual_instrs = reorder_pass(init_instrs).unwrap();
    assert_eq!(actual_instrs, expected_instrs);
}

#[test]
fn reorder_empty_program() {
    let actual_instrs = reorder_pass(Vec::new()).unwrap();
    assert_eq!(actual_instrs, Vec::<Instruction>::new());
}
