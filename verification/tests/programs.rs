//! Whole-program scenarios: arithmetic, addressing modes, growable memory.

use intcode::{Failure, IntcodeComputer, Memory, State};

#[test]
fn add_stores_into_program() {
    let mut c = IntcodeComputer::new(vec![1, 0, 0, 0, 99]);
    c.run(false).unwrap();
    assert_eq!(c.get_state(), State::Terminated);
    assert_eq!(c.get_day2_output(), 2);
}

#[test]
fn immediate_add_with_negative_operand() {
    let mut c = IntcodeComputer::new(vec![1101, 100, -1, 4, 0]);
    c.run(false).unwrap();
    assert_eq!(c.get_state(), State::Terminated);
    assert_eq!(c.get_mem(4), Ok(99));
}

#[test]
fn multiply_examples() {
    let mut c = IntcodeComputer::new(vec![2, 3, 0, 3, 99]);
    c.run(false).unwrap();
    assert_eq!(c.get_mem(3), Ok(6));

    let mut c = IntcodeComputer::new(vec![2, 4, 4, 5, 99, 0]);
    c.run(false).unwrap();
    assert_eq!(c.get_mem(5), Ok(9801));

    let mut c = IntcodeComputer::new(vec![1, 1, 1, 4, 99, 5, 6, 0, 99]);
    c.run(false).unwrap();
    assert_eq!(c.get_day2_output(), 30);
}

#[test]
fn large_value_through_output() {
    let mut c = IntcodeComputer::new(vec![104, 1125899906842624, 99]);
    c.run(false).unwrap();
    assert_eq!(c.get_state(), State::BlockedOnOutput);
    assert_eq!(c.get_output(false), Ok(1125899906842624));
    c.run(false).unwrap();
    assert_eq!(c.get_state(), State::Terminated);
}

#[test]
fn quine_reproduces_itself_cooperatively() {
    let program = vec![
        109, 1, 204, -1, 1001, 100, 1, 100, 1008, 100, 16, 101, 1006, 101, 0, 99,
    ];
    let mut c = IntcodeComputer::new(program.clone());
    let mut emitted = Vec::new();
    loop {
        c.run(false).unwrap();
        match c.get_state() {
            State::BlockedOnOutput => emitted.push(c.get_output(false).unwrap()),
            State::Terminated => break,
            other => panic!("unexpected state {:?}", other),
        }
    }
    assert_eq!(emitted, program);
}

#[test]
fn quine_reproduces_itself_queued() {
    let program = vec![
        109, 1, 204, -1, 1001, 100, 1, 100, 1008, 100, 16, 101, 1006, 101, 0, 99,
    ];
    let mut c = IntcodeComputer::new_with_io(program.clone(), vec![]);
    c.run(false).unwrap();
    assert_eq!(c.get_state(), State::Terminated);
    assert_eq!(c.outputs(), &program);
}

#[test]
fn sixteen_digit_multiply() {
    let mut c = IntcodeComputer::new_with_io(vec![1102, 34915192, 34915192, 7, 4, 7, 99, 0], vec![]);
    c.run(false).unwrap();
    assert_eq!(c.outputs(), &vec![1219070632396864]);
}

#[test]
fn equals_and_less_than_position_mode() {
    // Outputs 1 when the input equals 8, else 0.
    let program = vec![3, 9, 8, 9, 10, 9, 4, 9, 99, -1, 8];
    let mut c = IntcodeComputer::new_with_io(program.clone(), vec![8]);
    c.run(false).unwrap();
    assert_eq!(c.outputs(), &vec![1]);
    let mut c = IntcodeComputer::new_with_io(program, vec![7]);
    c.run(false).unwrap();
    assert_eq!(c.outputs(), &vec![0]);

    // Outputs 1 when the input is less than 8, else 0.
    let program = vec![3, 9, 7, 9, 10, 9, 4, 9, 99, -1, 8];
    let mut c = IntcodeComputer::new_with_io(program.clone(), vec![3]);
    c.run(false).unwrap();
    assert_eq!(c.outputs(), &vec![1]);
    let mut c = IntcodeComputer::new_with_io(program, vec![9]);
    c.run(false).unwrap();
    assert_eq!(c.outputs(), &vec![0]);
}

#[test]
fn jump_tests_choose_branch() {
    // Outputs 0 when the input is 0, else 1 (position-mode jumps).
    let program = vec![3, 12, 6, 12, 15, 1, 13, 14, 13, 4, 13, 99, -1, 0, 1, 9];
    let mut c = IntcodeComputer::new_with_io(program.clone(), vec![0]);
    c.run(false).unwrap();
    assert_eq!(c.outputs(), &vec![0]);
    let mut c = IntcodeComputer::new_with_io(program, vec![5]);
    c.run(false).unwrap();
    assert_eq!(c.outputs(), &vec![1]);

    // The same with immediate-mode jumps.
    let program = vec![3, 3, 1105, -1, 9, 1101, 0, 0, 12, 4, 12, 99, 1];
    let mut c = IntcodeComputer::new_with_io(program, vec![0]);
    c.run(false).unwrap();
    assert_eq!(c.outputs(), &vec![0]);
}

#[test]
fn larger_branching_program() {
    // Outputs 999, 1000 or 1001 for input below, equal to, or above 8.
    let program = vec![
        3, 21, 1008, 21, 8, 20, 1005, 20, 22, 107, 8, 21, 20, 1006, 20, 31, 1106, 0, 36, 98, 0, 0,
        1002, 21, 125, 20, 4, 20, 1105, 1, 46, 104, 999, 1105, 1, 46, 1101, 1000, 1, 20, 4, 20,
        1105, 1, 46, 98, 99,
    ];
    for (input, expected) in [(5, 999), (8, 1000), (11, 1001)] {
        let mut c = IntcodeComputer::new_with_io(program.clone(), vec![input]);
        c.run(false).unwrap();
        assert_eq!(c.outputs(), &vec![expected]);
    }
}

#[test]
fn write_beyond_length_grows_memory() {
    // Adds 2 + 3 and stores the result at address 7, past the five-cell image.
    let mut c = IntcodeComputer::new(vec![1101, 2, 3, 7, 99]);
    c.run(false).unwrap();
    assert_eq!(c.get_state(), State::Terminated);
    assert_eq!(c.get_mem(5), Ok(0));
    assert_eq!(c.get_mem(6), Ok(0));
    assert_eq!(c.get_mem(7), Ok(5));
    assert_eq!(c.get_mem(8), Ok(0));
}

#[test]
fn memory_grows_on_write_and_reads_zero() {
    let mut m = Memory::new(vec![1, 2, 3]);
    m.write(10, 42).unwrap();
    assert_eq!(m.read(2), Ok(3));
    assert_eq!(m.read(5), Ok(0));
    assert_eq!(m.read(9), Ok(0));
    assert_eq!(m.read(10), Ok(42));
    assert_eq!(m.read(11), Ok(0));
    assert_eq!(m.read(1000), Ok(0));
}

#[test]
fn memory_rejects_negative_addresses() {
    let mut m = Memory::new(vec![1, 2, 3]);
    assert_eq!(m.read(-1), Err(Failure::NegativeAddress));
    assert_eq!(m.write(-5, 9), Err(Failure::NegativeAddress));
    assert_eq!(m.read(0), Ok(1));
}

#[test]
fn relative_base_addressing_reads_and_writes() {
    // 109,10 sets the base to 10; 203,0 stores the input at base + 0,
    // past the seven-cell image; 204,0 emits it back.
    let program = vec![109, 10, 203, 0, 204, 0, 99];
    let mut c = IntcodeComputer::new_with_io(program, vec![77]);
    c.run(false).unwrap();
    assert_eq!(c.get_mem(7), Ok(0));
    assert_eq!(c.get_mem(10), Ok(77));
    assert_eq!(c.outputs(), &vec![77]);
}

#[test]
fn set_day2_inputs_before_run() {
    let mut c = IntcodeComputer::new(vec![1, 0, 0, 0, 99]);
    c.set_day2_input(4, 4);
    c.run(false).unwrap();
    // 1,4,4,0,99 adds mem[4] + mem[4] = 99 + 99 into cell 0.
    assert_eq!(c.get_day2_output(), 198);
}

#[test]
fn set_day2_input_grows_a_short_image() {
    let mut c = IntcodeComputer::new(vec![99]);
    c.set_day2_input(5, 7);
    assert_eq!(c.get_mem(1), Ok(5));
    assert_eq!(c.get_mem(2), Ok(7));
    assert_eq!(c.get_mem(0), Ok(99));
}
