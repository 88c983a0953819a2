//! One scenario for every failure kind of the machine.

use intcode::{Failure, IntcodeComputer, State};

#[test]
fn invalid_opcode_zero() {
    let mut c = IntcodeComputer::new(vec![0, 0, 0]);
    assert_eq!(c.run(false), Err(Failure::InvalidOpcode));
}

#[test]
fn invalid_opcode_unknown() {
    let mut c = IntcodeComputer::new(vec![98]);
    assert_eq!(c.run(false), Err(Failure::InvalidOpcode));
}

#[test]
fn invalid_opcode_negative_word() {
    let mut c = IntcodeComputer::new(vec![-1]);
    assert_eq!(c.run(false), Err(Failure::InvalidOpcode));
}

#[test]
fn empty_program_reads_zero_and_fails() {
    let mut c = IntcodeComputer::new(vec![]);
    assert_eq!(c.run(false), Err(Failure::InvalidOpcode));
}

#[test]
fn running_off_the_end_fails() {
    // After the add at 0..3 the pointer reaches cell 4, which reads as 0.
    let mut c = IntcodeComputer::new(vec![1101, 1, 1, 0]);
    assert_eq!(c.run(false), Err(Failure::InvalidOpcode));
}

#[test]
fn invalid_parameter_mode_digit() {
    // Mode digit 3 is undefined, even on a halt instruction.
    let mut c = IntcodeComputer::new(vec![399]);
    assert_eq!(c.run(false), Err(Failure::InvalidParameterMode));
}

#[test]
fn illegal_write_target_immediate_destination() {
    let mut c = IntcodeComputer::new(vec![11101, 1, 2, 0, 99]);
    assert_eq!(c.run(false), Err(Failure::IllegalWriteTarget));
}

#[test]
fn negative_address_position_read() {
    let mut c = IntcodeComputer::new_with_io(vec![4, -1, 99], vec![]);
    assert_eq!(c.run(false), Err(Failure::NegativeAddress));
}

#[test]
fn negative_address_jump_target() {
    let mut c = IntcodeComputer::new(vec![1105, 1, -5, 99]);
    assert_eq!(c.run(false), Err(Failure::NegativeAddress));
}

#[test]
fn negative_address_relative_read_surfaces_on_resume() {
    // Base becomes -3, then the output parameter resolves to address -1.
    let mut c = IntcodeComputer::new(vec![109, -3, 204, 2, 99]);
    c.run(false).unwrap();
    assert_eq!(c.get_state(), State::BlockedOnOutput);
    assert_eq!(c.get_output(false), Err(Failure::NegativeAddress));
}

#[test]
fn negative_address_write_destination() {
    let mut c = IntcodeComputer::new(vec![1101, 1, 1, -7, 99]);
    assert_eq!(c.run(false), Err(Failure::NegativeAddress));
}

#[test]
fn uninitialized_io_on_exhausted_queue() {
    let mut c = IntcodeComputer::new_with_io(vec![3, 0, 99], vec![]);
    assert_eq!(c.run(false), Err(Failure::UninitializedIo));
}

#[test]
fn uninitialized_io_after_consuming_all_inputs() {
    let mut c = IntcodeComputer::new_with_io(vec![3, 0, 3, 1, 99], vec![5]);
    assert_eq!(c.run(false), Err(Failure::UninitializedIo));
}

#[test]
fn overflow_on_add() {
    let mut c = IntcodeComputer::new(vec![1101, i64::MAX, 1, 0, 99]);
    assert_eq!(c.run(false), Err(Failure::Overflow));
}

#[test]
fn overflow_on_multiply() {
    let mut c = IntcodeComputer::new(vec![1102, i64::MAX, 2, 0, 99]);
    assert_eq!(c.run(false), Err(Failure::Overflow));
}

#[test]
fn overflow_on_relative_base_adjustment() {
    let mut c = IntcodeComputer::new(vec![109, i64::MAX, 109, 1, 99]);
    assert_eq!(c.run(false), Err(Failure::Overflow));
}

#[test]
fn overflow_on_relative_address_computation() {
    // Base i64::MAX plus literal 1 leaves the representable range.
    let mut c = IntcodeComputer::new_with_io(vec![109, i64::MAX, 204, 1, 99], vec![]);
    assert_eq!(c.run(false), Err(Failure::Overflow));
}

#[test]
fn failure_leaves_memory_at_last_good_state() {
    // The first add succeeds, the second hits an invalid opcode.
    let mut c = IntcodeComputer::new(vec![1101, 2, 3, 0, 98]);
    assert_eq!(c.run(false), Err(Failure::InvalidOpcode));
    assert_eq!(c.get_day2_output(), 5);
}
