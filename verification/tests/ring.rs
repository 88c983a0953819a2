//! A five-instance feedback ring: each machine's output becomes the next
//! machine's input, the last wrapping to the first.  Round-robin polling must
//! finish with every instance terminated and one deterministic final signal.

use intcode::{Failure, IntcodeComputer, State};

/// Runs the feedback ring over `program`, seeding machine `k` with
/// `phases[k]`, then feeding the signal around until every machine halts.
fn feedback_ring(program: &[i64], phases: &[i64]) -> Result<i64, Failure> {
    let mut machines: Vec<IntcodeComputer> = phases
        .iter()
        .map(|_| IntcodeComputer::new(program.to_vec()))
        .collect();

    for (k, m) in machines.iter_mut().enumerate() {
        m.run(false)?;
        if m.get_state() != State::BlockedOnInput {
            return Err(Failure::OutOfPhaseCall);
        }
        m.provide_input(phases[k], false)?;
    }

    let mut i: usize = 0;
    let mut signal: i64 = 0;
    loop {
        match machines[i].get_state() {
            State::WaitingToRun => {}
            State::BlockedOnInput => machines[i].provide_input(signal, false)?,
            _ => return Err(Failure::OutOfPhaseCall),
        }

        machines[i].run(false)?;

        match machines[i].get_state() {
            State::BlockedOnInput => {
                i = (i + 1) % machines.len();
            }
            State::BlockedOnOutput => {
                signal = machines[i].get_output(false)?;
            }
            State::Terminated => {
                if i == machines.len() - 1 {
                    break;
                }
                i = (i + 1) % machines.len();
            }
            _ => return Err(Failure::OutOfPhaseCall),
        }
    }

    for m in &machines {
        assert_eq!(m.get_state(), State::Terminated);
    }
    Ok(signal)
}

fn permutations(values: &[i64]) -> Vec<Vec<i64>> {
    fn go(k: usize, v: &mut Vec<i64>, out: &mut Vec<Vec<i64>>) {
        if k == 1 {
            out.push(v.clone());
            return;
        }
        for i in 0..k {
            go(k - 1, v, out);
            if k % 2 == 0 {
                v.swap(i, k - 1);
            } else {
                v.swap(0, k - 1);
            }
        }
    }
    let mut v = values.to_vec();
    let mut out = Vec::new();
    let k = v.len();
    go(k, &mut v, &mut out);
    out
}

const RING_PROGRAM_A: [i64; 29] = [
    3, 26, 1001, 26, -4, 26, 3, 27, 1002, 27, 2, 27, 1, 27, 26, 27, 4, 27, 1001, 28, -1, 28, 1005,
    28, 6, 99, 0, 0, 5,
];

const RING_PROGRAM_B: [i64; 57] = [
    3, 52, 1001, 52, -5, 52, 3, 53, 1, 52, 56, 54, 1007, 54, 5, 55, 1005, 55, 26, 1001, 54, -5,
    54, 1105, 1, 12, 1, 53, 54, 53, 1008, 54, 0, 55, 1001, 55, 1, 55, 2, 53, 55, 53, 4, 53, 1001,
    56, -1, 56, 1005, 56, 6, 99, 0, 0, 0, 0, 10,
];

#[test]
fn ring_reference_signal_a() {
    assert_eq!(feedback_ring(&RING_PROGRAM_A, &[9, 8, 7, 6, 5]), Ok(139629729));
}

#[test]
fn ring_reference_signal_b() {
    assert_eq!(feedback_ring(&RING_PROGRAM_B, &[9, 7, 8, 5, 6]), Ok(18216));
}

#[test]
fn ring_is_deterministic() {
    let first = feedback_ring(&RING_PROGRAM_A, &[9, 8, 7, 6, 5]).unwrap();
    let second = feedback_ring(&RING_PROGRAM_A, &[9, 8, 7, 6, 5]).unwrap();
    assert_eq!(first, second);
}

#[test]
fn library_ring_driver_matches_reference() {
    let sig = intcode::try_phase_part2(RING_PROGRAM_A.to_vec(), &vec![9, 8, 7, 6, 5]);
    assert_eq!(sig, Ok(139629729));
    let sig = intcode::try_phase_part2(RING_PROGRAM_B.to_vec(), &vec![9, 7, 8, 5, 6]);
    assert_eq!(sig, Ok(18216));
}

#[test]
fn library_ring_driver_agrees_with_inline_ring() {
    for p in permutations(&[5, 6, 7, 8, 9]) {
        assert_eq!(
            intcode::try_phase_part2(RING_PROGRAM_A.to_vec(), &p),
            feedback_ring(&RING_PROGRAM_A, &p)
        );
    }
}

#[test]
fn serial_chain_reference_signals() {
    let program = vec![3, 15, 3, 16, 1002, 16, 10, 16, 1, 16, 15, 15, 4, 15, 99, 0, 0];
    assert_eq!(
        intcode::try_phase_part1(program, &vec![4, 3, 2, 1, 0]),
        Ok(43210)
    );
    let program = vec![
        3, 23, 3, 24, 1002, 24, 10, 24, 1002, 23, -1, 23, 101, 5, 23, 23, 1, 24, 23, 23, 4, 23,
        99, 0, 0,
    ];
    assert_eq!(
        intcode::try_phase_part1(program, &vec![0, 1, 2, 3, 4]),
        Ok(54321)
    );
    let program = vec![
        3, 31, 3, 32, 1002, 32, 10, 32, 1001, 31, -2, 31, 1007, 31, 0, 33, 1002, 33, 7, 33, 1,
        33, 31, 31, 1, 32, 31, 31, 4, 31, 99, 0, 0, 0,
    ];
    assert_eq!(
        intcode::try_phase_part1(program, &vec![1, 0, 4, 3, 2]),
        Ok(65210)
    );
}

#[test]
fn serial_chain_with_no_phases_keeps_starting_signal() {
    assert_eq!(intcode::try_phase_part1(vec![99], &vec![]), Ok(0));
}

#[test]
fn serial_chain_propagates_stage_failure() {
    assert_eq!(
        intcode::try_phase_part1(vec![98], &vec![1, 2]),
        Err(Failure::InvalidOpcode)
    );
}

#[test]
fn ring_rejects_a_program_that_never_asks_for_its_phase() {
    assert_eq!(
        intcode::try_phase_part2(vec![99], &vec![1, 2]),
        Err(Failure::OutOfPhaseCall)
    );
}

#[test]
fn ring_propagates_machine_failure() {
    assert_eq!(
        intcode::try_phase_part2(vec![3, 0, 98], &vec![5]),
        Err(Failure::InvalidOpcode)
    );
}

#[test]
fn ring_never_deadlocks_on_any_permutation() {
    let mut best = i64::MIN;
    for p in permutations(&[5, 6, 7, 8, 9]) {
        let signal = feedback_ring(&RING_PROGRAM_A, &p).unwrap();
        if signal > best {
            best = signal;
        }
    }
    assert_eq!(best, 139629729);
}
