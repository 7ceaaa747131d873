use qc_peephole::instruction::Instruction;
use qc_peephole::optimize::native_translation::{is_native_instruction, native_translation_pass};

use std::f64::consts::PI;

fn b(x: f64) -> u64 {
    x.to_bits()
}

#[test]
fn test_is_native_instruction() {
    assert!(is_native_instruction(&Instruction::RZ(b(1.11), 0)));
    assert!(is_native_instruction(&Instruction::RX(b(0.0), 1)));
    assert!(is_native_instruction(&Instruction::RX(b(PI / 2.0), 2)));
    assert!(is_native_instruction(&Instruction::RX(b(-PI / 2.0), 3)));
    assert!(is_native_instruction(&Instruction::RX(b(PI), 4)));
    assert!(is_native_instruction(&Instruction::RX(b(-PI), 5)));
    assert!(!is_native_instruction(&Instruction::RX(b(1.11), 6)));
}

#[test]
fn no_non_native_instructions() {
    let init_instr = vec![
        Instruction::RZ(b(0.45), 0),
        Instruction::RX(b(0.0), 0),
        Instruction::RX(b(PI / 2.0), 0),
        Instruction::RX(b(-PI / 2.0), 0),
        Instruction::RX(b(PI), 0),
        Instruction::RX(b(-PI), 0),
        Instruction::CZ(0, 1),
        Instruction::MEASURE(1),
    ];

    let expected_instr = init_instr.clone();

    let actual_instr = native_translation_pass(init_instr).unwrap();

    assert_eq!(expected_instr.len(), actual_instr.len());

    for (i, instr) in expected_instr.iter().enumerate() {
        assert_eq!(instr, &actual_instr[i]);
    }
}

#[test]
fn expand_non_native_instruction() {
    let init_instr = vec![Instruction::RX(b(0.45), 0)];

    let expected_instr = vec![
        Instruction::RZ(b(PI / 2.0), 0),
        Instruction::RX(b(PI / 2.0), 0),
        Instruction::RZ(b(0.45), 0),
        Instruction::RX(b(-PI / 2.0), 0),
        Instruction::RZ(b(-PI / 2.0), 0),
    ];

    let actual_instr = native_translation_pass(init_instr).unwrap();

    assert_eq!(expected_instr.len(), actual_instr.len());

    for (i, instr) in expected_instr.iter().enumerate() {
        assert_eq!(instr, &actual_instr[i]);
    }
}

#[test]
fn non_native_fp_precision() {
    let init_instr = vec![
        // Enough decimal places to be bit-equal to PI/2.
        Instruction::RX(b(1.5707963267948966), 0),
        // One decimal place too short: expanded, not snapped to PI/2.
        Instruction::RX(b(1.570796326794896), 1),
    ];

    let expected_instr = vec![
        Instruction::RX(b(1.5707963267948966), 0),
        Instruction::RZ(b(PI / 2.0), 1),
        Instruction::RX(b(PI / 2.0), 1),
        Instruction::RZ(b(1.570796326794896), 1),
        Instruction::RX(b(-PI / 2.0), 1),
        Instruction::RZ(b(-PI / 2.0), 1),
    ];

    let actual_instr = native_translation_pass(init_instr).unwrap();

    assert_eq!(expected_instr.len(), actual_instr.len());

    for (i, instr) in expected_instr.iter().enumerate() {
        assert_eq!(instr, &actual_instr[i]);
    }
}

#[test]
fn translation_idempotent_on_native_output() {
    let init_instr = vec![
        Instruction::RX(b(0.45), 0),
        Instruction::RZ(b(-1.0), 0),
        Instruction::RX(b(2.25), 1),
        Instruction::CZ(0, 1),
        Instruction::MEASURE(0),
    ];

    let once = native_translation_pass(init_instr).unwrap();
    for instr in &once {
        assert!(is_native_instruction(instr));
    }
    let twice = native_translation_pass(once.clone()).unwrap();
    assert_eq!(once, twice);
}

#[test]
fn expand_each_non_native_in_place() {
    let init_instr = vec![
        Instruction::MEASURE(9),
        Instruction::RX(b(-2.5), 7),
        Instruction::CZ(7, 8),
    ];

    let expected_instr = vec![
        Instruction::MEASURE(9),
        Instruction::RZ(b(PI / 2.0), 7),
        Instruction::RX(b(PI / 2.0), 7),
        Instruction::RZ(b(-2.5), 7),
        Instruction::RX(b(-PI / 2.0), 7),
        Instruction::RZ(b(-PI / 2.0), 7),
        Instruction::CZ(7, 8),
    ];

    let actual_instr = native_translation_pass(init_instr).unwrap();
    assert_eq!(actual_instr, expected_instr);
}
