use qc_peephole::instruction::Instruction;
use qc_peephole::optimize::cz_cancel::{cancellable, cz_cancel_pass};

use std::f64::consts::PI;

fn b(x: f64) -> u64 {
    x.to_bits()
}

#[test]
fn test_cancellable() {
    assert!(cancellable(&Instruction::CZ(1, 0), &Instruction::CZ(1, 0)));
    assert!(cancellable(&Instruction::CZ(1, 0), &Instruction::CZ(0, 1)));
    assert!(!cancellable(&Instruction::CZ(1, 0), &Instruction::CZ(1, 2)));
    assert!(!cancellable(&Instruction::CZ(3, 0), &Instruction::CZ(1, 2)));
}

#[test]
fn no_consecutive_cz_instructions() {
    let init_instr = vec![
        Instruction::RZ(b(0.45), 0),
        Instruction::CZ(0, 1),
        Instruction::RX(b(PI / 2.0), 0),
        Instruction::CZ(0, 1),
        Instruction::RX(b(-PI / 2.0), 0),
        Instruction::CZ(0, 1),
    ];

    let expected_instr = init_instr.clone();

    let actual_instr = cz_cancel_pass(init_instr).unwrap();

    assert_eq!(expected_instr.len(), actual_instr.len());

    for (i, instr) in expected_instr.iter().enumerate() {
        assert_eq!(instr, &actual_instr[i]);
    }
}

#[test]
fn cz_cancel_cancel_consecutive_cz_instructions() {
    let init_instr = vec![
        Instruction::CZ(1, 2),
        Instruction::CZ(1, 2),
        Instruction::RZ(b(0.0), 77),
        Instruction::RX(b(-PI), 0),
        Instruction::CZ(0, 1),
        Instruction::CZ(0, 1),
        Instruction::MEASURE(1),
        Instruction::RX(b(0.0), 77),
        Instruction::CZ(3, 1),
        Instruction::CZ(1, 3),
    ];

    // Each adjacent pair on one unordered qubit pair composes to the
    // identity, so both members are dropped.
    let expected_instr = vec![
        Instruction::RZ(b(0.0), 77),
        Instruction::RX(b(-PI), 0),
        Instruction::MEASURE(1),
        Instruction::RX(b(0.0), 77),
    ];

    let actual_instr = cz_cancel_pass(init_instr).unwrap();

    assert_eq!(expected_instr.len(), actual_instr.len());

    for (i, instr) in expected_instr.iter().enumerate() {
        assert_eq!(instr, &actual_instr[i]);
    }
}

#[test]
fn cancel_symmetric_pair_to_empty() {
    let init_instr = vec![Instruction::CZ(1, 2), Instruction::CZ(2, 1)];
    let actual_instr = cz_cancel_pass(init_instr).unwrap();
    assert_eq!(actual_instr, Vec::<Instruction>::new());
}

#[test]
fn keep_non_cancellable_pair() {
    let init_instr = vec![Instruction::CZ(1, 2), Instruction::CZ(1, 3)];
    let expected_instr = init_instr.clone();
    let actual_instr = cz_cancel_pass(init_instr).unwrap();
    assert_eq!(actual_instr, expected_instr);
}

#[test]
fn odd_run_leaves_one_survivor() {
    let init_instr = vec![
        Instruction::CZ(4, 5),
        Instruction::CZ(4, 5),
        Instruction::CZ(4, 5),
    ];
    let expected_instr = vec![Instruction::CZ(4, 5)];
    let actual_instr = cz_cancel_pass(init_instr).unwrap();
    assert_eq!(actual_instr, expected_instr);
}

#[test]
fn cancel_empty_program() {
    let actual_instr = cz_cancel_pass(Vec::new()).unwrap();
    assert_eq!(actual_instr, Vec::<Instruction>::new());
}
