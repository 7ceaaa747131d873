use qc_peephole::driver::optimize_program;
use qc_peephole::instruction::Instruction;
use qc_peephole::optimize::cz_cancel::cancellable;
use qc_peephole::optimize::native_translation::is_native_instruction;

use std::f64::consts::PI;

fn b(x: f64) -> u64 {
    x.to_bits()
}

fn is_zero_rotation(instr: &Instruction) -> bool {
    match instr {
        Instruction::RX(a, _) | Instruction::RZ(a, _) => f64::from_bits(*a) == 0.0,
        _ => false,
    }
}

#[test]
fn end_to_end_sample() {
    // RX(0.45) 0; RZ(-1.0) 0; RZ(1.0) 1; RX(0.45) 1; CZ 0 1; MEASURE 0;
    // MEASURE 1 — compiled through the full pipeline.
    let program = vec![
        Instruction::RX(b(0.45), 0),
        Instruction::RZ(b(-1.0), 0),
        Instruction::RZ(b(1.0), 1),
        Instruction::RX(b(0.45), 1),
        Instruction::CZ(0, 1),
        Instruction::MEASURE(0),
        Instruction::MEASURE(1),
    ];

    let actual = optimize_program(program.clone(), 100).unwrap();

    // The fixed, deterministic output: both non-native rotations expanded,
    // then the adjacent same-qubit rotations merged.
    let h = PI / 2.0;
    let expected = vec![
        Instruction::RZ(b(h), 0),
        Instruction::RX(b(h), 0),
        Instruction::RZ(b(0.45), 0),
        Instruction::RX(b(-h), 0),
        Instruction::RZ(b(-1.0 + -h), 0),
        Instruction::RZ(b(h + 1.0), 1),
        Instruction::RX(b(h), 1),
        Instruction::RZ(b(0.45), 1),
        Instruction::RX(b(-h), 1),
        Instruction::RZ(b(-h), 1),
        Instruction::CZ(0, 1),
        Instruction::MEASURE(0),
        Instruction::MEASURE(1),
    ];
    assert_eq!(actual, expected);

    // No zero-angle rotations, only native rotation-X angles, no adjacent
    // cancellable controlled-Z pairs.
    for instr in &actual {
        assert!(!is_zero_rotation(instr));
        assert!(is_native_instruction(instr));
    }
    for w in actual.windows(2) {
        assert!(!cancellable(&w[0], &w[1]));
    }

    // Deterministic: a second compilation gives the same output.
    let again = optimize_program(program, 100).unwrap();
    assert_eq!(actual, again);
}

#[test]
fn pipeline_interacting_passes() {
    // Reordering exposes the rotation merge and makes the controlled-Z pair
    // adjacent; merging creates dead code; cancellation and dead-code
    // elimination then leave only the measurement.
    let program = vec![
        Instruction::RZ(b(0.75), 3),
        Instruction::CZ(3, 4),
        Instruction::RZ(b(-0.75), 3),
        Instruction::CZ(3, 4),
        Instruction::MEASURE(3),
    ];

    let actual = optimize_program(program, 100).unwrap();
    let expected = vec![Instruction::MEASURE(3)];
    assert_eq!(actual, expected);
}

#[test]
fn round_bound_stops_early() {
    // Three same-qubit rotations need two merging rounds; a bound of one
    // round stops after the first merge.
    let program = vec![
        Instruction::RZ(b(0.1), 0),
        Instruction::RZ(b(0.2), 0),
        Instruction::RZ(b(0.4), 0),
    ];

    let one_round = optimize_program(program.clone(), 1).unwrap();
    let expected_one = vec![
        Instruction::RZ(b(0.30000000000000004), 0),
        Instruction::RZ(b(0.4), 0),
    ];
    assert_eq!(one_round, expected_one);

    let two_rounds = optimize_program(program, 2).unwrap();
    let expected_two = vec![Instruction::RZ(b(0.30000000000000004 + 0.4), 0)];
    assert_eq!(two_rounds, expected_two);
}

#[test]
fn pipeline_empty_program() {
    let actual = optimize_program(Vec::new(), 100).unwrap();
    assert_eq!(actual, Vec::<Instruction>::new());
}

#[test]
fn pipeline_fixed_point_is_stable() {
    // A program the pipeline cannot improve passes through unchanged.
    let program = vec![
        Instruction::RX(b(PI), 2),
        Instruction::MEASURE(2),
        Instruction::CZ(0, 1),
    ];
    let actual = optimize_program(program.clone(), 100).unwrap();
    assert_eq!(actual, program);
}
