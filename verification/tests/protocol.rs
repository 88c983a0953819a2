//! The cooperative suspend/resume protocol and its out-of-phase failures.

use intcode::{Failure, IntcodeComputer, State, TraceEntry};

#[test]
fn cooperative_round_trip() {
    let mut c = IntcodeComputer::new(vec![3, 0, 4, 0, 99]);
    c.run(false).unwrap();
    assert_eq!(c.get_state(), State::BlockedOnInput);
    c.provide_input(77, false).unwrap();
    assert_eq!(c.get_state(), State::WaitingToRun);
    c.run(false).unwrap();
    assert_eq!(c.get_state(), State::BlockedOnOutput);
    assert_eq!(c.get_output(false), Ok(77));
    c.run(false).unwrap();
    assert_eq!(c.get_state(), State::Terminated);
}

#[test]
fn provide_input_on_terminated_fails() {
    let mut c = IntcodeComputer::new(vec![99]);
    c.run(false).unwrap();
    assert_eq!(c.get_state(), State::Terminated);
    assert_eq!(c.provide_input(1, false), Err(Failure::OutOfPhaseCall));
}

#[test]
fn provide_input_on_waiting_fails() {
    let mut c = IntcodeComputer::new(vec![3, 0, 99]);
    assert_eq!(c.get_state(), State::WaitingToRun);
    assert_eq!(c.provide_input(1, false), Err(Failure::OutOfPhaseCall));
}

#[test]
fn provide_input_while_blocked_on_output_fails() {
    let mut c = IntcodeComputer::new(vec![104, 5, 99]);
    c.run(false).unwrap();
    assert_eq!(c.get_state(), State::BlockedOnOutput);
    assert_eq!(c.provide_input(1, false), Err(Failure::OutOfPhaseCall));
    // The failed call did not disturb the suspended machine.
    assert_eq!(c.get_output(false), Ok(5));
}

#[test]
fn get_output_out_of_phase_fails() {
    let mut c = IntcodeComputer::new(vec![3, 0, 99]);
    assert_eq!(c.get_output(false), Err(Failure::OutOfPhaseCall));
    c.run(false).unwrap();
    assert_eq!(c.get_state(), State::BlockedOnInput);
    assert_eq!(c.get_output(false), Err(Failure::OutOfPhaseCall));
}

#[test]
fn run_after_termination_fails() {
    let mut c = IntcodeComputer::new(vec![99]);
    c.run(false).unwrap();
    assert_eq!(c.run(false), Err(Failure::OutOfPhaseCall));
}

#[test]
fn run_while_blocked_is_a_no_op() {
    let mut c = IntcodeComputer::new(vec![3, 0, 99]);
    c.run(false).unwrap();
    assert_eq!(c.get_state(), State::BlockedOnInput);
    c.run(false).unwrap();
    assert_eq!(c.get_state(), State::BlockedOnInput);
    c.provide_input(4, false).unwrap();
    c.run(false).unwrap();
    assert_eq!(c.get_state(), State::Terminated);
}

#[test]
fn queued_mode_never_suspends() {
    let mut c = IntcodeComputer::new_with_io(vec![3, 0, 4, 0, 99], vec![42]);
    c.run(false).unwrap();
    assert_eq!(c.get_state(), State::Terminated);
    assert_eq!(c.outputs(), &vec![42]);
}

#[test]
fn queued_inputs_are_consumed_in_order() {
    let mut c = IntcodeComputer::new_with_io(vec![3, 0, 3, 1, 4, 0, 4, 1, 99], vec![10, 20]);
    c.run(false).unwrap();
    assert_eq!(c.outputs(), &vec![10, 20]);
}

#[test]
fn trace_records_instruction_effects() {
    let mut c = IntcodeComputer::new(vec![1101, 1, 1, 0, 99]);
    c.run(true).unwrap();
    assert_eq!(c.trace(), &vec![TraceEntry::Store { addr: 0, value: 2 }]);
}

#[test]
fn trace_stays_empty_without_verbose() {
    let mut c = IntcodeComputer::new(vec![1101, 1, 1, 0, 99]);
    c.run(false).unwrap();
    assert!(c.trace().is_empty());
}
