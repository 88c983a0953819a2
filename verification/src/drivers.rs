//! Drivers that chain several machine instances, passing a signal value from
//! one to the next, each instance first seeded with one phase value.
//!
//! [`try_phase_part1`] runs the instances one after another to termination,
//! in queued mode.  [`try_phase_part2`] wires them into a feedback ring —
//! each instance's output becomes the next instance's input, the last
//! wrapping to the first — and polls them round-robin through the
//! cooperative suspend/resume protocol until every instance has terminated.
//!
//! Both drivers are specified against protocol-level descriptions built from
//! the machine model: the chain by [`chain_result`], the ring by
//! [`ring_result`] over the transition function [`ring_step`].

use vstd::prelude::*;

use crate::errors::Failure;
use crate::machine::steps;
use crate::machine::IntcodeComputer;
use crate::machine::State;
use crate::machine::VmModel;
use crate::machine::MAX_RUN_STEPS;

verus! {

/// A machine as `IntcodeComputer::new` creates it: cooperative, at rest.
pub open spec fn fresh_machine(mem: Seq<i64>) -> VmModel {
    VmModel {
        mem,
        ip: 0,
        rb: 0,
        state: State::WaitingToRun,
        cooperative: true,
        inputs: Seq::<i64>::empty(),
        outputs: Seq::<i64>::empty(),
    }
}

/// A machine as `IntcodeComputer::new_with_io` creates it: queued mode.
pub open spec fn fresh_queued(mem: Seq<i64>, inputs: Seq<i64>) -> VmModel {
    VmModel {
        mem,
        ip: 0,
        rb: 0,
        state: State::WaitingToRun,
        cooperative: false,
        inputs,
        outputs: Seq::<i64>::empty(),
    }
}

/// One chain stage: a queued machine over `mem` with inputs `[phase,
/// sig_in]`, run to termination.  Its outgoing signal is its last output, or
/// `sig_in` unchanged if it emitted nothing.  A failing stage reports the
/// failure its machine's next step raises; `OutOfPhaseCall` also covers the
/// (practically unreachable) case of a stage still ready after a whole run
/// budget.
pub open spec fn stage_result(
    mem: Seq<i64>,
    phase: i64,
    sig_in: i64,
    r: Result<i64, Failure>,
) -> bool {
    let init = fresh_queued(mem, seq![phase, sig_in]);
    match r {
        Ok(sig_out) => exists|n: nat, v: VmModel|
            #![auto]
            steps(init, n) == Ok::<VmModel, Failure>(v) && v.state == State::Terminated && sig_out
                == if v.outputs.len() > 0 {
                v.outputs.last()
            } else {
                sig_in
            },
        Err(f) => {
            ||| exists|n: nat, v: VmModel|
                #![auto]
                steps(init, n) == Ok::<VmModel, Failure>(v) && v.step() == Err::<
                    VmModel,
                    Failure,
                >(f)
            ||| (f == Failure::OutOfPhaseCall && exists|v: VmModel|
                #![auto]
                steps(init, MAX_RUN_STEPS as nat) == Ok::<VmModel, Failure>(v) && v.state
                    == State::WaitingToRun)
        },
    }
}

/// The signal entering stage `i`: the driver's starting signal for the first
/// stage, else the signal that left the previous stage.
pub open spec fn sig_before(s0: i64, sigs: Seq<i64>, i: int) -> i64 {
    if i == 0 {
        s0
    } else {
        sigs[i - 1]
    }
}

/// `sigs[i]` is the signal that leaves stage `i`, for a chain in which every
/// stage succeeds.
pub open spec fn chain_signals(
    mem: Seq<i64>,
    phases: Seq<i64>,
    s0: i64,
    sigs: Seq<i64>,
) -> bool {
    &&& sigs.len() == phases.len()
    &&& forall|i: int|
        0 <= i < phases.len() ==> #[trigger] stage_result(
            mem,
            phases[i],
            sig_before(s0, sigs, i),
            Ok(sigs[i]),
        )
}

/// The serial chain over `phases`, started with signal `s0`: on success
/// every stage ran to termination and the result is the last stage's signal;
/// on failure some prefix of stages succeeded and the next one failed.
pub open spec fn chain_result(
    mem: Seq<i64>,
    phases: Seq<i64>,
    s0: i64,
    r: Result<i64, Failure>,
) -> bool {
    match r {
        Ok(out) => exists|sigs: Seq<i64>|
            #[trigger] chain_signals(mem, phases, s0, sigs) && out == sig_before(
                s0,
                sigs,
                phases.len() as int,
            ),
        Err(f) => exists|k: int, sigs: Seq<i64>|
            #![auto]
            0 <= k < phases.len() && chain_signals(mem, phases.take(k), s0, sigs) && stage_result(
                mem,
                phases[k],
                sig_before(s0, sigs, k),
                Err(f),
            ),
    }
}

/// Copies a memory image cell by cell.
fn clone_image(v: &Vec<i64>) -> (r: Vec<i64>)
    ensures
        r@ == v@,
{
    let mut r: Vec<i64> = Vec::new();
    let mut i: usize = 0;
    while i < v.len()
        invariant
            i <= v@.len(),
            r@ == v@.take(i as int),
        decreases v@.len() - i,
    {
        r.push(v[i]);
        i = i + 1;
        proof {
            assert(r@ =~= v@.take(i as int));
        }
    }
    proof {
        assert(r@ =~= v@);
    }
    r
}

/// Runs the serial chain: one queued-mode machine per phase value, each fed
/// its phase and the signal so far, each run to termination, its last output
/// becoming the next stage's signal.  The signal starts at 0; the result is
/// the last stage's signal, or the first stage failure.
pub fn try_phase_part1(memory: Vec<i64>, phase: &Vec<i64>) -> (r: Result<i64, Failure>)
    requires
        memory@.len() <= i64::MAX as int,
    ensures
        chain_result(memory@, phase@, 0, r),
{
    let mut signal: i64 = 0;
    let mut k: usize = 0;
    let ghost mut sigs: Seq<i64> = Seq::<i64>::empty();
    while k < phase.len()
        invariant
            k <= phase@.len(),
            memory@.len() <= i64::MAX as int,
            sigs.len() == k,
            chain_signals(memory@, phase@.take(k as int), 0, sigs),
            signal == sig_before(0, sigs, k as int),
        decreases phase@.len() - k,
    {
        let ghost sig_in = signal;
        let img = clone_image(&memory);
        let mut inputs: Vec<i64> = Vec::new();
        inputs.push(phase[k]);
        inputs.push(signal);
        let mut c = IntcodeComputer::new_with_io(img, inputs);
        let ghost init = c@;
        proof {
            assert(init.inputs =~= seq![phase@[k as int], sig_in]);
            assert(init =~= fresh_queued(memory@, seq![phase@[k as int], sig_in]));
        }
        match c.run(false) {
            Err(f) => {
                proof {
                    assert(stage_result(memory@, phase@[k as int], sig_in, Err(f)));
                }
                return Err(f);
            },
            Ok(()) => {},
        }
        if !(c.get_state() == State::Terminated) {
            // Still ready after a whole run budget: in queued mode a run
            // only stops ready when the budget is spent.
            proof {
                let n = choose|n: nat|
                    n <= MAX_RUN_STEPS && steps(init, n) == Ok::<VmModel, Failure>(c@) && (c@.state
                        != State::WaitingToRun || n == MAX_RUN_STEPS);
                crate::machine::lemma_queued_steps(init, n);
                assert(c@.state == State::WaitingToRun);
                assert(steps(init, MAX_RUN_STEPS as nat) == Ok::<VmModel, Failure>(c@));
                assert(stage_result(
                    memory@,
                    phase@[k as int],
                    sig_in,
                    Err(Failure::OutOfPhaseCall),
                ));
            }
            return Err(Failure::OutOfPhaseCall);
        }
        let outs = c.outputs();
        if outs.len() > 0 {
            signal = outs[outs.len() - 1];
        }
        proof {
            let n = choose|n: nat|
                n <= MAX_RUN_STEPS && steps(init, n) == Ok::<VmModel, Failure>(c@) && (c@.state
                    != State::WaitingToRun || n == MAX_RUN_STEPS);
            assert(steps(init, n) == Ok::<VmModel, Failure>(c@));
            assert(stage_result(memory@, phase@[k as int], sig_in, Ok(signal)));
            let prev = sigs;
            sigs = sigs.push(signal);
            assert forall|i: int| 0 <= i < k as int + 1 implies #[trigger] stage_result(
                memory@,
                phase@.take(k as int + 1)[i],
                sig_before(0, sigs, i),
                Ok(sigs[i]),
            ) by {
                if i < k as int {
                    assert(stage_result(
                        memory@,
                        phase@.take(k as int)[i],
                        sig_before(0, prev, i),
                        Ok(prev[i]),
                    ));
                    assert(prev[i] == sigs[i]);
                    assert(sig_before(0, prev, i) == sig_before(0, sigs, i));
                    assert(phase@.take(k as int)[i] == phase@.take(k as int + 1)[i]);
                } else {
                    assert(sig_before(0, sigs, i) == sig_in);
                    assert(phase@.take(k as int + 1)[i] == phase@[k as int]);
                }
            }
            assert(chain_signals(memory@, phase@.take(k as int + 1), 0, sigs));
        }
        k = k + 1;
    }
    proof {
        assert(phase@.take(k as int) =~= phase@);
        assert(chain_signals(memory@, phase@, 0, sigs));
    }
    Ok(signal)
}

/// One snapshot of the feedback-ring protocol: the machines, how many have
/// been seeded with their phase so far, the machine the round-robin loop is
/// at, the signal in flight, and whether the loop just moved to that machine
/// and has not yet inspected it.
#[verifier::ext_equal]
pub struct RingConfig {
    /// The model of every machine in the ring.
    pub machines: Seq<VmModel>,
    /// The phase value each machine is seeded with.
    pub phases: Seq<i64>,
    /// How many machines have already received their phase.
    pub seeded: int,
    /// The machine the driver is at.
    pub idx: int,
    /// The signal in flight between machines.
    pub signal: i64,
    /// True when the driver just moved to `idx` and has not yet inspected it.
    pub arrived: bool,
}

/// The outcome of one protocol step: either the protocol goes on, or the
/// last machine terminated and the final signal is fixed.
pub enum RingStep {
    Going(RingConfig),
    Done(i64),
}

/// The protocol's starting snapshot: one fresh cooperative machine per
/// phase, none seeded, the driver at machine 0 with signal 0.
pub open spec fn ring_init(mem: Seq<i64>, phases: Seq<i64>) -> RingConfig {
    RingConfig {
        machines: Seq::new(phases.len(), |q: int| fresh_machine(mem)),
        phases,
        seeded: 0,
        idx: 0,
        signal: 0,
        arrived: false,
    }
}

/// The machine the protocol works on next: the one being seeded, then the
/// one the round-robin loop is at.
pub open spec fn active(c: RingConfig) -> int {
    if c.seeded < c.machines.len() {
        c.seeded
    } else {
        c.idx
    }
}

/// `c` with its active machine replaced.
pub open spec fn cfg_with(c: RingConfig, m: VmModel) -> RingConfig {
    RingConfig { machines: c.machines.update(active(c), m), ..c }
}

/// One step of the feedback-ring protocol.
///
/// While machines remain to be seeded, the machine being seeded runs until
/// it suspends; it must suspend on input, and then receives its phase —
/// anything else is a protocol violation.  Seeding the last machine starts
/// the round-robin loop at machine 0.
///
/// In the loop, a machine the driver just arrived at may be ready (nothing
/// to do) or blocked on input (it receives the signal); a ready machine
/// steps; one that blocks on input sends the driver onward; one that blocks
/// on output hands its value into the signal; a terminated machine ends the
/// protocol if it is the last, else sends the driver onward.
pub open spec fn ring_step(c: RingConfig) -> Result<RingStep, Failure>
    recommends
        1 <= c.machines.len(),
        0 <= c.seeded <= c.machines.len(),
        0 <= c.idx < c.machines.len(),
{
    let len = c.machines.len() as int;
    if c.seeded < len {
        let m = c.machines[c.seeded];
        if m.state == State::WaitingToRun {
            match m.step() {
                Err(f) => Err(f),
                Ok(m2) => Ok(RingStep::Going(cfg_with(c, m2))),
            }
        } else if m.state == State::BlockedOnInput {
            match m.resume_with_input(c.phases[c.seeded]) {
                Err(f) => Err(f),
                Ok(m2) => Ok(
                    RingStep::Going(
                        RingConfig {
                            machines: c.machines.update(c.seeded, m2),
                            seeded: c.seeded + 1,
                            arrived: c.seeded + 1 == len,
                            ..c
                        },
                    ),
                ),
            }
        } else {
            Err(Failure::OutOfPhaseCall)
        }
    } else {
        let m = c.machines[c.idx];
        if c.arrived {
            if m.state == State::WaitingToRun {
                Ok(RingStep::Going(RingConfig { arrived: false, ..c }))
            } else if m.state == State::BlockedOnInput {
                match m.resume_with_input(c.signal) {
                    Err(f) => Err(f),
                    Ok(m2) => Ok(
                        RingStep::Going(
                            RingConfig {
                                machines: c.machines.update(c.idx, m2),
                                arrived: false,
                                ..c
                            },
                        ),
                    ),
                }
            } else {
                Err(Failure::OutOfPhaseCall)
            }
        } else {
            if m.state == State::WaitingToRun {
                match m.step() {
                    Err(f) => Err(f),
                    Ok(m2) => Ok(RingStep::Going(cfg_with(c, m2))),
                }
            } else if m.state == State::BlockedOnInput {
                Ok(
                    RingStep::Going(
                        RingConfig { idx: (c.idx + 1) % len, arrived: true, ..c },
                    ),
                )
            } else if m.state == State::BlockedOnOutput {
                match m.resume_take_output() {
                    Err(f) => Err(f),
                    Ok((m2, out)) => Ok(
                        RingStep::Going(
                            RingConfig {
                                machines: c.machines.update(c.idx, m2),
                                signal: out,
                                ..c
                            },
                        ),
                    ),
                }
            } else {
                if c.idx == len - 1 {
                    Ok(RingStep::Done(c.signal))
                } else {
                    Ok(RingStep::Going(RingConfig { idx: c.idx + 1, arrived: true, ..c }))
                }
            }
        }
    }
}

/// `n` protocol steps; the first failure is final, and a finished protocol
/// stays finished.
pub open spec fn ring_steps(c: RingConfig, n: nat) -> Result<RingStep, Failure>
    decreases n,
{
    if n == 0 {
        Ok(RingStep::Going(c))
    } else {
        match ring_step(c) {
            Err(f) => Err(f),
            Ok(RingStep::Done(s)) => Ok(RingStep::Done(s)),
            Ok(RingStep::Going(c2)) => ring_steps(c2, (n - 1) as nat),
        }
    }
}

/// The active machine of `c` would run a whole step budget without
/// suspending or terminating — the only way a driver gives up on a
/// configuration that has not failed.
pub open spec fn ring_stuck(c: RingConfig) -> bool {
    exists|v: VmModel|
        #![auto]
        steps(c.machines[active(c)], MAX_RUN_STEPS as nat) == Ok::<VmModel, Failure>(v) && v.state
            == State::WaitingToRun
}

/// What `try_phase_part2` may return: a final signal the protocol reaches,
/// or the failure the protocol first raises — with `OutOfPhaseCall` also
/// covering the two (practically unreachable) ways of exhausting a step
/// budget: one machine running a whole run budget, or the protocol itself
/// outlasting the driver's round budget.
pub open spec fn ring_result(mem: Seq<i64>, phases: Seq<i64>, r: Result<i64, Failure>) -> bool {
    let cfg0 = ring_init(mem, phases);
    match r {
        Ok(sig) => exists|n: nat|
            #[trigger] ring_steps(cfg0, n) == Ok::<RingStep, Failure>(RingStep::Done(sig)),
        Err(f) => {
            ||| exists|n: nat| #[trigger] ring_steps(cfg0, n) == Err::<RingStep, Failure>(f)
            ||| (f == Failure::OutOfPhaseCall && exists|n: nat, c: RingConfig|
                #![auto]
                ring_steps(cfg0, n) == Ok::<RingStep, Failure>(RingStep::Going(c)) && ring_stuck(
                    c,
                ))
            ||| (f == Failure::OutOfPhaseCall && exists|n: nat, c: RingConfig|
                #![auto]
                n >= MAX_RUN_STEPS && ring_steps(cfg0, n) == Ok::<RingStep, Failure>(
                    RingStep::Going(c),
                ))
        },
    }
}

/// A finished ring stays finished with the same signal.
proof fn lemma_ring_done_absorbing(c: RingConfig, n: nat, m: nat, s: i64)
    requires
        ring_steps(c, n) == Ok::<RingStep, Failure>(RingStep::Done(s)),
        n <= m,
    ensures
        ring_steps(c, m) == Ok::<RingStep, Failure>(RingStep::Done(s)),
    decreases n,
{
    if n == 0 {
    } else {
        match ring_step(c) {
            Ok(RingStep::Going(c2)) => {
                lemma_ring_done_absorbing(c2, (n - 1) as nat, (m - 1) as nat, s);
            },
            Ok(RingStep::Done(_)) => {
                assert(m >= 1);
            },
            Err(_) => {},
        }
    }
}

/// The ring's final signal is deterministic: however many protocol steps two
/// observers take, a finished ring shows them the same value.
pub proof fn lemma_ring_outcome_unique(c: RingConfig, n1: nat, n2: nat, s1: i64, s2: i64)
    requires
        ring_steps(c, n1) == Ok::<RingStep, Failure>(RingStep::Done(s1)),
        ring_steps(c, n2) == Ok::<RingStep, Failure>(RingStep::Done(s2)),
    ensures
        s1 == s2,
{
    if n1 <= n2 {
        lemma_ring_done_absorbing(c, n1, n2, s1);
    } else {
        lemma_ring_done_absorbing(c, n2, n1, s2);
    }
}

/// One protocol step, as one iteration of `ring_steps`.
proof fn lemma_ring_one(c: RingConfig)
    ensures
        ring_steps(c, 1) == match ring_step(c) {
            Ok(s) => Ok::<RingStep, Failure>(s),
            Err(f) => Err::<RingStep, Failure>(f),
        },
{
    match ring_step(c) {
        Ok(RingStep::Going(c2)) => {
            assert(ring_steps(c2, 0) == Ok::<RingStep, Failure>(RingStep::Going(c2)));
        },
        _ => {},
    }
}

/// Protocol runs compose: `n1` steps to `c1`, then `n2` steps from `c1`.
proof fn lemma_ring_compose(c0: RingConfig, n1: nat, c1: RingConfig, n2: nat)
    requires
        ring_steps(c0, n1) == Ok::<RingStep, Failure>(RingStep::Going(c1)),
    ensures
        ring_steps(c0, n1 + n2) == ring_steps(c1, n2),
    decreases n1,
{
    if n1 == 0 {
    } else {
        match ring_step(c0) {
            Ok(RingStep::Going(cm)) => {
                lemma_ring_compose(cm, (n1 - 1) as nat, c1, n2);
            },
            _ => {},
        }
    }
}

/// Machine steps lift into the protocol: if the active machine goes from its
/// current model to `m2` in `k` machine steps, the protocol reaches the
/// configuration with `m2` in place within `k` protocol steps.
proof fn lemma_ring_lift(c: RingConfig, k: nat, m2: VmModel)
    requires
        1 <= c.machines.len(),
        0 <= c.seeded <= c.machines.len(),
        0 <= c.idx < c.machines.len(),
        c.seeded == c.machines.len() ==> !c.arrived,
        steps(c.machines[active(c)], k) == Ok::<VmModel, Failure>(m2),
    ensures
        exists|j: nat|
            j <= k && #[trigger] ring_steps(c, j) == Ok::<RingStep, Failure>(
                RingStep::Going(cfg_with(c, m2)),
            ),
    decreases k,
{
    let a = active(c);
    let m = c.machines[a];
    if k == 0 {
        assert(m2 == m);
        assert(cfg_with(c, m2).machines =~= c.machines);
        assert(cfg_with(c, m2) =~= c);
        assert(ring_steps(c, 0) == Ok::<RingStep, Failure>(RingStep::Going(c)));
    } else {
        if m.state != State::WaitingToRun {
            assert(m.step() == Ok::<VmModel, Failure>(m));
            assert(steps(m, k) == steps(m, (k - 1) as nat));
            lemma_ring_lift(c, (k - 1) as nat, m2);
            let j = choose|j: nat|
                j <= k - 1 && #[trigger] ring_steps(c, j) == Ok::<RingStep, Failure>(
                    RingStep::Going(cfg_with(c, m2)),
                );
            assert(j <= k && ring_steps(c, j) == Ok::<RingStep, Failure>(
                RingStep::Going(cfg_with(c, m2)),
            ));
        } else {
            match m.step() {
                Ok(m1) => {
                    let c1 = cfg_with(c, m1);
                    assert(ring_step(c) == Ok::<RingStep, Failure>(RingStep::Going(c1)));
                    assert(active(c1) == a);
                    assert(c1.machines[a] == m1);
                    lemma_ring_lift(c1, (k - 1) as nat, m2);
                    let j1 = choose|j1: nat|
                        j1 <= k - 1 && #[trigger] ring_steps(c1, j1) == Ok::<RingStep, Failure>(
                            RingStep::Going(cfg_with(c1, m2)),
                        );
                    assert(cfg_with(c1, m2).machines =~= cfg_with(c, m2).machines);
                    assert(cfg_with(c1, m2) =~= cfg_with(c, m2));
                    assert(ring_steps(c, j1 + 1) == ring_steps(c1, j1));
                    assert(j1 + 1 <= k && ring_steps(c, j1 + 1) == Ok::<RingStep, Failure>(
                        RingStep::Going(cfg_with(c, m2)),
                    ));
                },
                Err(_) => {
                    assert(false);
                },
            }
        }
    }
}

/// Runs the feedback ring: one cooperative machine per phase value, each
/// seeded with its phase, then polled round-robin — providing the signal to
/// a machine blocked on input, harvesting from one blocked on output,
/// moving on past one that blocked on input or terminated — until the last
/// machine terminates, which fixes the final signal.
pub fn try_phase_part2(memory: Vec<i64>, phase: &Vec<i64>) -> (r: Result<i64, Failure>)
    requires
        memory@.len() <= i64::MAX as int,
        1 <= phase@.len(),
    ensures
        ring_result(memory@, phase@, r),
{
    let n = phase.len();
    let ghost cfg0 = ring_init(memory@, phase@);
    let mut computers: Vec<IntcodeComputer> = Vec::new();
    let mut t: usize = 0;
    while t < n
        invariant
            t <= n,
            n == phase@.len(),
            memory@.len() <= i64::MAX as int,
            computers@.len() == t,
            forall|q: int|
                0 <= q < t ==> (#[trigger] computers@[q]).wf() && computers@[q]@ == fresh_machine(
                    memory@,
                ),
        decreases n - t,
    {
        let img = clone_image(&memory);
        let c = IntcodeComputer::new(img);
        proof {
            assert(c@ =~= fresh_machine(memory@));
        }
        computers.push(c);
        t = t + 1;
    }
    let ghost mut cfg = cfg0;
    let ghost mut done: nat = 0nat;
    proof {
        assert(ring_steps(cfg0, 0nat) == Ok::<RingStep, Failure>(RingStep::Going(cfg0)));
    }

    // Seed each machine with its phase value.
    let mut j: usize = 0;
    while j < n
        invariant
            j <= n,
            n == phase@.len(),
            1 <= n,
            computers@.len() == n,
            memory@.len() <= i64::MAX as int,
            cfg0 == ring_init(memory@, phase@),
            ring_steps(cfg0, done) == Ok::<RingStep, Failure>(RingStep::Going(cfg)),
            cfg.machines.len() == n as int,
            cfg.phases == phase@,
            cfg.seeded == j as int,
            cfg.idx == 0,
            cfg.signal == 0,
            cfg.arrived == (j == n),
            forall|q: int| 0 <= q < n ==> (#[trigger] computers@[q]).wf(),
            forall|q: int| 0 <= q < n ==> #[trigger] cfg.machines[q] == computers@[q]@,
            forall|q: int|
                j as int <= q < n ==> #[trigger] cfg.machines[q] == fresh_machine(memory@),
        decreases n - j,
    {
        let ghost cfg_pre = cfg;
        let ghost done_pre = done;
        let cj = &mut computers[j];
        let ghost m_pre = cj@;
        proof {
            assert(m_pre == cfg.machines[j as int]);
            assert(active(cfg) == j as int);
        }
        match cj.run(false) {
            Ok(()) => {},
            Err(f) => {
                proof {
                    let ghost m_run = cj@;
                    let k = choose|k: nat|
                        #[trigger] steps(m_pre, k) == Ok::<VmModel, Failure>(m_run) && m_run.step()
                            == Err::<VmModel, Failure>(f);
                    lemma_ring_lift(cfg_pre, k, m_run);
                    let jj = choose|jj: nat|
                        jj <= k && #[trigger] ring_steps(cfg_pre, jj) == Ok::<RingStep, Failure>(
                            RingStep::Going(cfg_with(cfg_pre, m_run)),
                        );
                    let cmid = cfg_with(cfg_pre, m_run);
                    lemma_ring_compose(cfg0, done, cfg_pre, jj);
                    assert(cmid.machines[cmid.seeded] == m_run);
                    assert(ring_step(cmid) == Err::<RingStep, Failure>(f));
                    lemma_ring_one(cmid);
                    lemma_ring_compose(cfg0, (done + jj) as nat, cmid, 1nat);
                    assert(ring_steps(cfg0, (done + jj + 1) as nat) == Err::<RingStep, Failure>(f));
                }
                return Err(f);
            },
        }
        let ghost m_run = cj@;
        let st = cj.get_state();
        if !(st == State::BlockedOnInput) {
            if st == State::WaitingToRun {
                // The machine ran a whole step budget without suspending.
                proof {
                    let k = choose|k: nat|
                        k <= MAX_RUN_STEPS && #[trigger] steps(m_pre, k) == Ok::<VmModel, Failure>(
                            m_run,
                        ) && (m_run.state != State::WaitingToRun || k == MAX_RUN_STEPS);
                    assert(steps(m_pre, MAX_RUN_STEPS as nat) == Ok::<VmModel, Failure>(m_run));
                    assert(ring_stuck(cfg_pre));
                }
                return Err(Failure::OutOfPhaseCall);
            }
            // Terminated or blocked on output while being seeded.
            proof {
                let k = choose|k: nat|
                    k <= MAX_RUN_STEPS && #[trigger] steps(m_pre, k) == Ok::<VmModel, Failure>(
                        m_run,
                    ) && (m_run.state != State::WaitingToRun || k == MAX_RUN_STEPS);
                lemma_ring_lift(cfg_pre, k, m_run);
                let jj = choose|jj: nat|
                    jj <= k && #[trigger] ring_steps(cfg_pre, jj) == Ok::<RingStep, Failure>(
                        RingStep::Going(cfg_with(cfg_pre, m_run)),
                    );
                let cmid = cfg_with(cfg_pre, m_run);
                lemma_ring_compose(cfg0, done, cfg_pre, jj);
                assert(cmid.machines[cmid.seeded] == m_run);
                assert(ring_step(cmid) == Err::<RingStep, Failure>(Failure::OutOfPhaseCall));
                lemma_ring_one(cmid);
                lemma_ring_compose(cfg0, (done + jj) as nat, cmid, 1nat);
                assert(ring_steps(cfg0, (done + jj + 1) as nat) == Err::<RingStep, Failure>(
                    Failure::OutOfPhaseCall,
                ));
            }
            return Err(Failure::OutOfPhaseCall);
        }
        proof {
            let k = choose|k: nat|
                k <= MAX_RUN_STEPS && #[trigger] steps(m_pre, k) == Ok::<VmModel, Failure>(m_run)
                    && (m_run.state != State::WaitingToRun || k == MAX_RUN_STEPS);
            lemma_ring_lift(cfg_pre, k, m_run);
            let jj = choose|jj: nat|
                jj <= k && #[trigger] ring_steps(cfg_pre, jj) == Ok::<RingStep, Failure>(
                    RingStep::Going(cfg_with(cfg_pre, m_run)),
                );
            lemma_ring_compose(cfg0, done, cfg_pre, jj);
            done = done + jj;
            cfg = cfg_with(cfg_pre, m_run);
        }
        match cj.provide_input(phase[j], false) {
            Ok(()) => {
                proof {
                    assert(m_run.resume_with_input(phase@[j as int]) == Ok::<VmModel, Failure>(
                        cj@,
                    ));
                    let c2 = RingConfig {
                        machines: cfg.machines.update(j as int, cj@),
                        seeded: j as int + 1,
                        arrived: j as int + 1 == n as int,
                        ..cfg
                    };
                    assert(ring_step(cfg) == Ok::<RingStep, Failure>(RingStep::Going(c2)));
                    lemma_ring_one(cfg);
                    lemma_ring_compose(cfg0, done, cfg, 1nat);
                    done = done + 1;
                    cfg = c2;
                }
            },
            Err(f) => {
                proof {
                    assert(ring_step(cfg) == Err::<RingStep, Failure>(f));
                    lemma_ring_one(cfg);
                    lemma_ring_compose(cfg0, done, cfg, 1nat);
                    assert(ring_steps(cfg0, (done + 1) as nat) == Err::<RingStep, Failure>(f));
                }
                return Err(f);
            },
        }
        j = j + 1;
    }

    // Round-robin until the last machine terminates.
    let mut i: usize = 0;
    let mut signal: i64 = 0;
    let mut fuel: u64 = MAX_RUN_STEPS;
    while fuel > 0
        invariant
            n == phase@.len(),
            1 <= n,
            computers@.len() == n,
            i < n,
            memory@.len() <= i64::MAX as int,
            cfg0 == ring_init(memory@, phase@),
            ring_steps(cfg0, done) == Ok::<RingStep, Failure>(RingStep::Going(cfg)),
            cfg.machines.len() == n as int,
            cfg.phases == phase@,
            cfg.seeded == n as int,
            cfg.idx == i as int,
            cfg.signal == signal,
            cfg.arrived || cfg.machines[i as int].state == State::WaitingToRun,
            forall|q: int| 0 <= q < n ==> (#[trigger] computers@[q]).wf(),
            forall|q: int| 0 <= q < n ==> #[trigger] cfg.machines[q] == computers@[q]@,
            done + fuel >= MAX_RUN_STEPS,
        decreases fuel,
    {
        let st0 = computers[i].get_state();
        if st0 == State::WaitingToRun {
            proof {
                if cfg.arrived {
                    let c2 = RingConfig { arrived: false, ..cfg };
                    assert(ring_step(cfg) == Ok::<RingStep, Failure>(RingStep::Going(c2)));
                    lemma_ring_one(cfg);
                    lemma_ring_compose(cfg0, done, cfg, 1nat);
                    done = done + 1;
                    cfg = c2;
                }
            }
        } else if st0 == State::BlockedOnInput {
            proof {
                assert(cfg.arrived);
            }
            let ci = &mut computers[i];
            let ghost m_pre = ci@;
            match ci.provide_input(signal, false) {
                Ok(()) => {
                    proof {
                        let c2 = RingConfig {
                            machines: cfg.machines.update(i as int, ci@),
                            arrived: false,
                            ..cfg
                        };
                        assert(ring_step(cfg) == Ok::<RingStep, Failure>(RingStep::Going(c2)));
                        lemma_ring_one(cfg);
                        lemma_ring_compose(cfg0, done, cfg, 1nat);
                        done = done + 1;
                        cfg = c2;
                    }
                },
                Err(f) => {
                    proof {
                        assert(ring_step(cfg) == Err::<RingStep, Failure>(f));
                        lemma_ring_one(cfg);
                        lemma_ring_compose(cfg0, done, cfg, 1nat);
                        assert(ring_steps(cfg0, (done + 1) as nat) == Err::<RingStep, Failure>(f));
                    }
                    return Err(f);
                },
            }
        } else {
            // Arrived at a machine already terminated or blocked on output.
            proof {
                assert(cfg.arrived);
                assert(ring_step(cfg) == Err::<RingStep, Failure>(Failure::OutOfPhaseCall));
                lemma_ring_one(cfg);
                lemma_ring_compose(cfg0, done, cfg, 1nat);
                assert(ring_steps(cfg0, (done + 1) as nat) == Err::<RingStep, Failure>(
                    Failure::OutOfPhaseCall,
                ));
            }
            return Err(Failure::OutOfPhaseCall);
        }

        let ghost cfg_pre = cfg;
        let ghost done_pre = done;
        let ci = &mut computers[i];
        let ghost m_pre = ci@;
        proof {
            assert(m_pre == cfg.machines[i as int]);
            assert(active(cfg) == i as int);
            assert(m_pre.state == State::WaitingToRun);
        }
        match ci.run(false) {
            Ok(()) => {},
            Err(f) => {
                proof {
                    let ghost m_run = ci@;
                    let k = choose|k: nat|
                        #[trigger] steps(m_pre, k) == Ok::<VmModel, Failure>(m_run) && m_run.step()
                            == Err::<VmModel, Failure>(f);
                    lemma_ring_lift(cfg_pre, k, m_run);
                    let jj = choose|jj: nat|
                        jj <= k && #[trigger] ring_steps(cfg_pre, jj) == Ok::<RingStep, Failure>(
                            RingStep::Going(cfg_with(cfg_pre, m_run)),
                        );
                    let cmid = cfg_with(cfg_pre, m_run);
                    lemma_ring_compose(cfg0, done, cfg_pre, jj);
                    assert(cmid.machines[cmid.idx] == m_run);
                    assert(ring_step(cmid) == Err::<RingStep, Failure>(f));
                    lemma_ring_one(cmid);
                    lemma_ring_compose(cfg0, (done + jj) as nat, cmid, 1nat);
                    assert(ring_steps(cfg0, (done + jj + 1) as nat) == Err::<RingStep, Failure>(f));
                }
                return Err(f);
            },
        }
        let ghost m_run = ci@;
        let st = ci.get_state();
        if st == State::WaitingToRun {
            // The machine ran a whole step budget without suspending.
            proof {
                let k = choose|k: nat|
                    k <= MAX_RUN_STEPS && #[trigger] steps(m_pre, k) == Ok::<VmModel, Failure>(
                        m_run,
                    ) && (m_run.state != State::WaitingToRun || k == MAX_RUN_STEPS);
                assert(steps(m_pre, MAX_RUN_STEPS as nat) == Ok::<VmModel, Failure>(m_run));
                assert(ring_stuck(cfg_pre));
            }
            return Err(Failure::OutOfPhaseCall);
        }
        proof {
            let k = choose|k: nat|
                k <= MAX_RUN_STEPS && #[trigger] steps(m_pre, k) == Ok::<VmModel, Failure>(m_run)
                    && (m_run.state != State::WaitingToRun || k == MAX_RUN_STEPS);
            lemma_ring_lift(cfg_pre, k, m_run);
            let jj = choose|jj: nat|
                jj <= k && #[trigger] ring_steps(cfg_pre, jj) == Ok::<RingStep, Failure>(
                    RingStep::Going(cfg_with(cfg_pre, m_run)),
                );
            lemma_ring_compose(cfg0, done, cfg_pre, jj);
            assert(cfg_with(cfg_pre, m_run).machines[i as int] == m_run);
            assert(m_run != m_pre);
            assert(cfg_with(cfg_pre, m_run).machines[i as int] != cfg_pre.machines[i as int]);
            if jj == 0 {
                assert(ring_steps(cfg_pre, 0nat) == Ok::<RingStep, Failure>(
                    RingStep::Going(cfg_pre),
                ));
                assert(cfg_with(cfg_pre, m_run) == cfg_pre);
                assert(false);
            }
            done = done + jj;
            cfg = cfg_with(cfg_pre, m_run);
        }
        if st == State::BlockedOnInput {
            proof {
                let c2 = RingConfig { idx: (i as int + 1) % (n as int), arrived: true, ..cfg };
                assert(ring_step(cfg) == Ok::<RingStep, Failure>(RingStep::Going(c2)));
                lemma_ring_one(cfg);
                lemma_ring_compose(cfg0, done, cfg, 1nat);
                done = done + 1;
                cfg = c2;
            }
            i = (i + 1) % n;
        } else if st == State::BlockedOnOutput {
            match ci.get_output(false) {
                Ok(s) => {
                    proof {
                        let c2 = RingConfig {
                            machines: cfg.machines.update(i as int, ci@),
                            signal: s,
                            ..cfg
                        };
                        assert(ring_step(cfg) == Ok::<RingStep, Failure>(RingStep::Going(c2)));
                        lemma_ring_one(cfg);
                        lemma_ring_compose(cfg0, done, cfg, 1nat);
                        done = done + 1;
                        cfg = c2;
                    }
                    signal = s;
                },
                Err(f) => {
                    proof {
                        assert(ring_step(cfg) == Err::<RingStep, Failure>(f));
                        lemma_ring_one(cfg);
                        lemma_ring_compose(cfg0, done, cfg, 1nat);
                        assert(ring_steps(cfg0, (done + 1) as nat) == Err::<RingStep, Failure>(f));
                    }
                    return Err(f);
                },
            }
        } else {
            // Terminated.
            if i == n - 1 {
                proof {
                    assert(ring_step(cfg) == Ok::<RingStep, Failure>(RingStep::Done(signal)));
                    lemma_ring_one(cfg);
                    lemma_ring_compose(cfg0, done, cfg, 1nat);
                    assert(ring_steps(cfg0, (done + 1) as nat) == Ok::<RingStep, Failure>(
                        RingStep::Done(signal),
                    ));
                }
                return Ok(signal);
            }
            proof {
                let c2 = RingConfig { idx: i as int + 1, arrived: true, ..cfg };
                assert(ring_step(cfg) == Ok::<RingStep, Failure>(RingStep::Going(c2)));
                lemma_ring_one(cfg);
                lemma_ring_compose(cfg0, done, cfg, 1nat);
                done = done + 1;
                cfg = c2;
            }
            i = i + 1;
        }
        fuel = fuel - 1;
    }
    // The driver's own round budget was spent: the protocol genuinely ran
    // that many steps without finishing.
    proof {
        assert(done >= MAX_RUN_STEPS);
    }
    Err(Failure::OutOfPhaseCall)
}

} // verus!
