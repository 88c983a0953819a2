//! The machine itself: decode → resolve → execute, one instruction at a time,
//! with a cooperative suspend/resume protocol for drivers.
//!
//! The mathematical model is [`VmModel`], and the whole behaviour of one
//! instruction is the spec function [`VmModel::step`].  The executable
//! interpreter is proved to follow `step` exactly; [`IntcodeComputer::run`]
//! then relates a whole run to the iterated model [`steps`].
//!
//! Two operating modes are chosen at construction.  In *cooperative* mode
//! ([`IntcodeComputer::new`]) the machine suspends at every input or output
//! instruction and the driver resumes it through
//! [`IntcodeComputer::provide_input`] and [`IntcodeComputer::get_output`].  In
//! *queued* mode ([`IntcodeComputer::new_with_io`]) the machine pulls inputs
//! from a queue supplied up front and pushes outputs to an internal buffer,
//! and `run` only stops at termination or on a failure; an input instruction
//! that finds the queue exhausted fails with
//! [`Failure::UninitializedIo`](crate::errors::Failure).
//!
//! Arithmetic policy: every add, multiply, address computation and
//! relative-base adjustment is checked; a result outside the signed 64-bit
//! range raises [`Failure::Overflow`](crate::errors::Failure), never wraps.

use vstd::prelude::*;

use crate::decode::check_modes;
use crate::decode::mode_digit;
use crate::decode::modes_valid;
use crate::decode::opcode_of;
use crate::decode::param_mode;
use crate::decode::Opcode;
use crate::decode::ParameterMode;
use crate::errors::Failure;
use crate::memory::mem_read;
use crate::memory::mem_write;
use crate::memory::Memory;

verus! {

/// The execution state of one machine instance.
#[derive(Copy, Clone, Debug, PartialEq, Eq, Structural)]
pub enum State {
    /// Ready to execute the instruction at the instruction pointer.
    WaitingToRun,
    /// Cooperative mode only: suspended at an input instruction, before
    /// consuming it; resumed by `provide_input`.
    BlockedOnInput,
    /// Cooperative mode only: suspended at an output instruction, before
    /// consuming it; resumed by `get_output`.
    BlockedOnOutput,
    /// The halt instruction was executed.  Absorbing.
    Terminated,
}

/// One entry of the optional trace side channel: a description of an
/// instruction's effect, recorded when tracing is requested.  The trace has no
/// effect on control flow or results and is not part of the machine's
/// functional contract.
#[derive(Copy, Clone, Debug, PartialEq, Eq, Structural)]
pub enum TraceEntry {
    /// An add, multiply or comparison stored `value` at `addr`.
    Store { addr: i64, value: i64 },
    /// An input instruction stored `value` at `addr`.
    InputStored { addr: i64, value: i64 },
    /// An output instruction emitted `value`.
    OutputEmitted { value: i64 },
    /// A jump was taken to `target`.
    Jumped { target: i64 },
    /// A jump condition was false; execution fell through.
    NotTaken,
    /// The relative base was adjusted by `delta`, giving `new_base`.
    BaseAdjusted { delta: i64, new_base: i64 },
}

/// The mathematical state of one machine instance.
#[verifier::ext_equal]
pub struct VmModel {
    /// The store; reads at or beyond its length yield 0.
    pub mem: Seq<i64>,
    /// The instruction pointer.
    pub ip: int,
    /// The relative-base register.
    pub rb: int,
    /// The execution state.
    pub state: State,
    /// True in cooperative mode, false in queued mode.
    pub cooperative: bool,
    /// Queued mode: the input values not yet consumed.
    pub inputs: Seq<i64>,
    /// Queued mode: the output values emitted so far.
    pub outputs: Seq<i64>,
}

impl VmModel {
    /// Bounds every reachable machine state satisfies: the pointer and the
    /// store stay within the range that 64-bit addresses can name, and a
    /// suspended machine still points at its suspended instruction.
    pub open spec fn wf(self) -> bool {
        &&& 0 <= self.ip <= i64::MAX as int + 4
        &&& i64::MIN as int <= self.rb <= i64::MAX as int
        &&& self.mem.len() <= i64::MAX as int + 1
        &&& ((self.state == State::BlockedOnInput || self.state == State::BlockedOnOutput)
            ==> self.ip <= i64::MAX as int)
    }

    /// The instruction word at the instruction pointer.
    pub open spec fn word(self) -> int {
        mem_read(self.mem, self.ip) as int
    }

    /// The raw stored word of parameter `i`, read just after the opcode word.
    pub open spec fn literal(self, i: int) -> i64 {
        mem_read(self.mem, self.ip + i)
    }

    /// Source resolution of parameter `i`: the value the instruction reads.
    pub open spec fn src_value(self, i: int) -> Result<i64, Failure>
        recommends
            self.word() >= 0,
            1 <= i,
    {
        let lit = self.literal(i);
        let d = mode_digit(self.word(), i);
        if d == 0 {
            if lit < 0 {
                Err(Failure::NegativeAddress)
            } else {
                Ok(mem_read(self.mem, lit as int))
            }
        } else if d == 1 {
            Ok(lit)
        } else {
            let a = lit + self.rb;
            if a > i64::MAX as int || a < i64::MIN as int {
                Err(Failure::Overflow)
            } else if a < 0 {
                Err(Failure::NegativeAddress)
            } else {
                Ok(mem_read(self.mem, a))
            }
        }
    }

    /// Destination resolution of parameter `i`: the address the instruction
    /// writes.  Immediate mode is an illegal write target.  A negative
    /// resolved address is reported by the write itself.
    pub open spec fn dst_addr(self, i: int) -> Result<int, Failure>
        recommends
            self.word() >= 0,
            1 <= i,
    {
        let lit = self.literal(i);
        let d = mode_digit(self.word(), i);
        if d == 0 {
            Ok(lit as int)
        } else if d == 1 {
            Err(Failure::IllegalWriteTarget)
        } else {
            let a = lit + self.rb;
            if a > i64::MAX as int || a < i64::MIN as int {
                Err(Failure::Overflow)
            } else {
                Ok(a)
            }
        }
    }

    /// An add or multiply: source, source, destination, width 4.
    pub open spec fn step_arith(self, is_add: bool) -> Result<VmModel, Failure> {
        match self.src_value(1) {
            Err(f) => Err(f),
            Ok(s1) => match self.src_value(2) {
                Err(f) => Err(f),
                Ok(s2) => match self.dst_addr(3) {
                    Err(f) => Err(f),
                    Ok(d) => {
                        let r = if is_add {
                            s1 + s2
                        } else {
                            s1 * s2
                        };
                        if r > i64::MAX as int || r < i64::MIN as int {
                            Err(Failure::Overflow)
                        } else if d < 0 {
                            Err(Failure::NegativeAddress)
                        } else {
                            Ok(
                                VmModel {
                                    mem: mem_write(self.mem, d, r as i64),
                                    ip: self.ip + 4,
                                    ..self
                                },
                            )
                        }
                    },
                },
            },
        }
    }

    /// An input instruction.  Cooperative mode suspends without consuming the
    /// instruction; queued mode consumes the next queued value, or fails if
    /// none was supplied.
    pub open spec fn step_input(self) -> Result<VmModel, Failure> {
        if self.cooperative {
            Ok(VmModel { state: State::BlockedOnInput, ..self })
        } else {
            match self.dst_addr(1) {
                Err(f) => Err(f),
                Ok(d) => {
                    if self.inputs.len() == 0 {
                        Err(Failure::UninitializedIo)
                    } else if d < 0 {
                        Err(Failure::NegativeAddress)
                    } else {
                        Ok(
                            VmModel {
                                mem: mem_write(self.mem, d, self.inputs[0]),
                                inputs: self.inputs.drop_first(),
                                ip: self.ip + 2,
                                ..self
                            },
                        )
                    }
                },
            }
        }
    }

    /// An output instruction.  Cooperative mode suspends without consuming the
    /// instruction; queued mode appends the resolved value to the output
    /// buffer.
    pub open spec fn step_output(self) -> Result<VmModel, Failure> {
        if self.cooperative {
            Ok(VmModel { state: State::BlockedOnOutput, ..self })
        } else {
            match self.src_value(1) {
                Err(f) => Err(f),
                Ok(s) => Ok(
                    VmModel { outputs: self.outputs.push(s), ip: self.ip + 2, ..self },
                ),
            }
        }
    }

    /// A conditional jump: taken when the first source is nonzero
    /// (`when_nonzero`) or zero (otherwise).
    pub open spec fn step_jump(self, when_nonzero: bool) -> Result<VmModel, Failure> {
        match self.src_value(1) {
            Err(f) => Err(f),
            Ok(s) => match self.src_value(2) {
                Err(f) => Err(f),
                Ok(t) => {
                    if (s != 0) == when_nonzero {
                        if t < 0 {
                            Err(Failure::NegativeAddress)
                        } else {
                            Ok(VmModel { ip: t as int, ..self })
                        }
                    } else {
                        Ok(VmModel { ip: self.ip + 3, ..self })
                    }
                },
            },
        }
    }

    /// A comparison: stores 1 when the relation holds, else 0.
    pub open spec fn step_compare(self, is_less: bool) -> Result<VmModel, Failure> {
        match self.src_value(1) {
            Err(f) => Err(f),
            Ok(s1) => match self.src_value(2) {
                Err(f) => Err(f),
                Ok(s2) => match self.dst_addr(3) {
                    Err(f) => Err(f),
                    Ok(d) => {
                        let holds = if is_less {
                            s1 < s2
                        } else {
                            s1 == s2
                        };
                        let v: i64 = if holds {
                            1
                        } else {
                            0
                        };
                        if d < 0 {
                            Err(Failure::NegativeAddress)
                        } else {
                            Ok(
                                VmModel {
                                    mem: mem_write(self.mem, d, v),
                                    ip: self.ip + 4,
                                    ..self
                                },
                            )
                        }
                    },
                },
            },
        }
    }

    /// A relative-base adjustment.
    pub open spec fn step_adjust_base(self) -> Result<VmModel, Failure> {
        match self.src_value(1) {
            Err(f) => Err(f),
            Ok(s) => {
                let nb = self.rb + s;
                if nb > i64::MAX as int || nb < i64::MIN as int {
                    Err(Failure::Overflow)
                } else {
                    Ok(VmModel { rb: nb, ip: self.ip + 2, ..self })
                }
            },
        }
    }

    /// The effect of the decoded opcode, after a successful decode.
    pub open spec fn dispatch(self, op: Opcode) -> Result<VmModel, Failure> {
        match op {
            Opcode::Add => self.step_arith(true),
            Opcode::Multiply => self.step_arith(false),
            Opcode::Input => self.step_input(),
            Opcode::Output => self.step_output(),
            Opcode::JumpIfTrue => self.step_jump(true),
            Opcode::JumpIfFalse => self.step_jump(false),
            Opcode::LessThan => self.step_compare(true),
            Opcode::Equals => self.step_compare(false),
            Opcode::RelativeBaseOffset => self.step_adjust_base(),
            Opcode::Terminate => Ok(VmModel { state: State::Terminated, ..self }),
        }
    }

    /// One small step of the machine: decode the word at the instruction
    /// pointer and apply it.  A machine that is not ready to run is left
    /// unchanged — suspension and termination are absorbing at this level.
    pub open spec fn step(self) -> Result<VmModel, Failure> {
        if self.state != State::WaitingToRun {
            Ok(self)
        } else {
            let w = self.word();
            if w < 0 {
                Err(Failure::InvalidOpcode)
            } else {
                match opcode_of(w % 100) {
                    None => Err(Failure::InvalidOpcode),
                    Some(op) => {
                        if !modes_valid(w / 100) {
                            Err(Failure::InvalidParameterMode)
                        } else {
                            self.dispatch(op)
                        }
                    },
                }
            }
        }
    }

    /// The resumption a driver performs for a machine suspended at an input
    /// instruction: exactly the write the instruction would have performed,
    /// then advance by 2 and become ready again.  The parameter mode is
    /// re-derived from the suspended instruction word.
    pub open spec fn resume_with_input(self, value: i64) -> Result<VmModel, Failure> {
        if self.state != State::BlockedOnInput {
            Err(Failure::OutOfPhaseCall)
        } else if self.word() < 0 {
            Err(Failure::InvalidOpcode)
        } else if mode_digit(self.word(), 1) > 2 {
            Err(Failure::InvalidParameterMode)
        } else {
            match self.dst_addr(1) {
                Err(f) => Err(f),
                Ok(d) => {
                    if d < 0 {
                        Err(Failure::NegativeAddress)
                    } else {
                        Ok(
                            VmModel {
                                mem: mem_write(self.mem, d, value),
                                ip: self.ip + 2,
                                state: State::WaitingToRun,
                                ..self
                            },
                        )
                    }
                },
            }
        }
    }

    /// The resumption a driver performs for a machine suspended at an output
    /// instruction: resolve and hand out the value the instruction emits,
    /// then advance by 2 and become ready again.
    pub open spec fn resume_take_output(self) -> Result<(VmModel, i64), Failure> {
        if self.state != State::BlockedOnOutput {
            Err(Failure::OutOfPhaseCall)
        } else if self.word() < 0 {
            Err(Failure::InvalidOpcode)
        } else if mode_digit(self.word(), 1) > 2 {
            Err(Failure::InvalidParameterMode)
        } else {
            match self.src_value(1) {
                Err(f) => Err(f),
                Ok(s) => Ok(
                    (VmModel { ip: self.ip + 2, state: State::WaitingToRun, ..self }, s),
                ),
            }
        }
    }
}

/// `n` small steps from `v`; the first failure is final.
pub open spec fn steps(v: VmModel, n: nat) -> Result<VmModel, Failure>
    decreases n,
{
    if n == 0 {
        Ok(v)
    } else {
        match v.step() {
            Ok(v2) => steps(v2, (n - 1) as nat),
            Err(f) => Err(f),
        }
    }
}

/// Peeling a step off the end: `n + 1` steps are `n` steps followed by one.
pub proof fn lemma_steps_extend(v: VmModel, n: nat)
    ensures
        steps(v, n + 1) == match steps(v, n) {
            Ok(u) => u.step(),
            Err(f) => Err::<VmModel, Failure>(f),
        },
    decreases n,
{
    if n == 0 {
        match v.step() {
            Ok(v2) => {
                assert(steps(v2, 0) == Ok::<VmModel, Failure>(v2));
                assert(steps(v, 1) == Ok::<VmModel, Failure>(v2));
            },
            Err(f) => {
                assert(steps(v, 1) == Err::<VmModel, Failure>(f));
            },
        }
    } else {
        match v.step() {
            Ok(v2) => {
                lemma_steps_extend(v2, (n - 1) as nat);
            },
            Err(_) => {},
        }
    }
}

/// A step taken from a well-formed state lands in a well-formed state, and
/// never changes the operating mode.
pub proof fn lemma_step_wf(v: VmModel)
    requires
        v.wf(),
    ensures
        v.step() matches Ok(u) ==> u.wf() && u.cooperative == v.cooperative,
{
}

/// A queued-mode machine never suspends: every step from a ready state leaves
/// it ready or terminated, still in queued mode.
pub proof fn lemma_queued_never_blocks(v: VmModel)
    requires
        !v.cooperative,
        v.state == State::WaitingToRun || v.state == State::Terminated,
    ensures
        v.step() matches Ok(u) ==> (u.state == State::WaitingToRun || u.state
            == State::Terminated) && !u.cooperative,
{
}

/// Step counts compose: `a + b` steps are `a` steps and then `b` more.
pub proof fn lemma_steps_compose(v: VmModel, a: nat, b: nat)
    ensures
        steps(v, a + b) == match steps(v, a) {
            Ok(u) => steps(u, b),
            Err(f) => Err::<VmModel, Failure>(f),
        },
    decreases a,
{
    if a == 0 {
    } else {
        match v.step() {
            Ok(v2) => {
                lemma_steps_compose(v2, (a - 1) as nat, b);
            },
            Err(_) => {},
        }
    }
}

/// A machine that is no longer ready — suspended or terminated — does not
/// move under `steps`: termination is permanent, and only the resumption
/// calls advance a suspended machine.
pub proof fn lemma_settled_absorbing(v: VmModel, n: nat)
    requires
        v.state != State::WaitingToRun,
    ensures
        steps(v, n) == Ok::<VmModel, Failure>(v),
    decreases n,
{
    if n > 0 {
        lemma_settled_absorbing(v, (n - 1) as nat);
    }
}

/// A run's stopping point is unique: if the iterated model reaches a machine
/// that is no longer ready at two step counts, it is the same machine both
/// times.  Together with `run`'s postcondition this fully determines the
/// machine a `run` call leaves behind.
pub proof fn lemma_stop_unique(v: VmModel, n1: nat, n2: nat, u1: VmModel, u2: VmModel)
    requires
        steps(v, n1) == Ok::<VmModel, Failure>(u1),
        u1.state != State::WaitingToRun,
        steps(v, n2) == Ok::<VmModel, Failure>(u2),
        u2.state != State::WaitingToRun,
    ensures
        u1 == u2,
{
    if n1 <= n2 {
        lemma_steps_compose(v, n1, (n2 - n1) as nat);
        lemma_settled_absorbing(u1, (n2 - n1) as nat);
    } else {
        lemma_steps_compose(v, n2, (n1 - n2) as nat);
        lemma_settled_absorbing(u2, (n1 - n2) as nat);
    }
}

/// Iterating from a ready (or terminated) queued-mode machine keeps it ready
/// or terminated, still in queued mode, at every step count.
pub proof fn lemma_queued_steps(v: VmModel, n: nat)
    requires
        !v.cooperative,
        v.state == State::WaitingToRun || v.state == State::Terminated,
    ensures
        steps(v, n) matches Ok(u) ==> (u.state == State::WaitingToRun || u.state
            == State::Terminated) && !u.cooperative,
    decreases n,
{
    if n > 0 {
        lemma_queued_never_blocks(v);
        match v.step() {
            Ok(u) => {
                lemma_queued_steps(u, (n - 1) as nat);
            },
            Err(_) => {},
        }
    }
}

/// The largest number of instructions one `run` call will execute before
/// returning control with the machine still ready; in practice beyond any
/// feasible computation, so `run` returns only at a suspension point, at
/// termination, or on a failure.
pub const MAX_RUN_STEPS: u64 = u64::MAX;

/// One machine instance: a memory image, an instruction pointer, a relative
/// base, an execution state, and — in queued mode — its input queue and
/// output buffer.
pub struct IntcodeComputer {
    memory: Memory,
    instr: u64,
    relative_base: i64,
    state: State,
    cooperative: bool,
    inputs: Vec<i64>,
    next_input: usize,
    outputs: Vec<i64>,
    trace_log: Vec<TraceEntry>,
}

impl View for IntcodeComputer {
    type V = VmModel;

    closed spec fn view(&self) -> VmModel {
        VmModel {
            mem: self.memory@,
            ip: self.instr as int,
            rb: self.relative_base as int,
            state: self.state,
            cooperative: self.cooperative,
            inputs: self.inputs@.skip(self.next_input as int),
            outputs: self.outputs@,
        }
    }
}

impl IntcodeComputer {
    /// Validity of the representation: the model is well formed and the input
    /// cursor lies within the queue.
    pub closed spec fn wf(self) -> bool {
        &&& self@.wf()
        &&& self.next_input <= self.inputs@.len()
    }

    /// Constructs a cooperative-mode machine over `memory`: it will suspend
    /// at every input and output instruction.  The image must be addressable
    /// by signed 64-bit offsets.
    pub fn new(memory: Vec<i64>) -> (c: IntcodeComputer)
        requires
            memory@.len() <= i64::MAX as int,
        ensures
            c.wf(),
            c@ == (VmModel {
                mem: memory@,
                ip: 0,
                rb: 0,
                state: State::WaitingToRun,
                cooperative: true,
                inputs: Seq::<i64>::empty(),
                outputs: Seq::<i64>::empty(),
            }),
    {
        let ghost image = memory@;
        let c = IntcodeComputer {
            memory: Memory::new(memory),
            instr: 0,
            relative_base: 0,
            state: State::WaitingToRun,
            cooperative: true,
            inputs: Vec::new(),
            next_input: 0,
            outputs: Vec::new(),
            trace_log: Vec::new(),
        };
        proof {
            assert(c@ =~= (VmModel {
                mem: image,
                ip: 0,
                rb: 0,
                state: State::WaitingToRun,
                cooperative: true,
                inputs: Seq::<i64>::empty(),
                outputs: Seq::<i64>::empty(),
            }));
        }
        c
    }

    /// Constructs a queued-mode machine over `memory` with its whole input
    /// supplied up front: `run` never suspends, inputs are pulled from the
    /// queue in order, and outputs accumulate for [`Self::outputs`].
    pub fn new_with_io(memory: Vec<i64>, inputs: Vec<i64>) -> (c: IntcodeComputer)
        requires
            memory@.len() <= i64::MAX as int,
        ensures
            c.wf(),
            c@ == (VmModel {
                mem: memory@,
                ip: 0,
                rb: 0,
                state: State::WaitingToRun,
                cooperative: false,
                inputs: inputs@,
                outputs: Seq::<i64>::empty(),
            }),
    {
        let ghost image = memory@;
        let ghost queue = inputs@;
        let c = IntcodeComputer {
            memory: Memory::new(memory),
            instr: 0,
            relative_base: 0,
            state: State::WaitingToRun,
            cooperative: false,
            inputs,
            next_input: 0,
            outputs: Vec::new(),
            trace_log: Vec::new(),
        };
        proof {
            assert(c@ =~= (VmModel {
                mem: image,
                ip: 0,
                rb: 0,
                state: State::WaitingToRun,
                cooperative: false,
                inputs: queue,
                outputs: Seq::<i64>::empty(),
            }));
        }
        c
    }

    /// The current execution state.
    pub fn get_state(&self) -> (s: State)
        ensures
            s == self@.state,
    {
        self.state
    }

    /// Sets memory cells 1 and 2 — the two scalar "parameters" the simplest
    /// programs read — before the first run.
    pub fn set_day2_input(&mut self, noun: i64, verb: i64)
        requires
            old(self).wf(),
        ensures
            final(self).wf(),
            final(self)@ == (VmModel {
                mem: mem_write(mem_write(old(self)@.mem, 1, noun), 2, verb),
                ..old(self)@
            }),
    {
        let r1 = self.memory.write(1, noun);
        let r2 = self.memory.write(2, verb);
        proof {
            assert(r1 is Ok && r2 is Ok);
            assert(self@ =~= (VmModel {
                mem: mem_write(mem_write(old(self)@.mem, 1, noun), 2, verb),
                ..old(self)@
            }));
        }
    }

    /// Reads memory cell 0, the conventional scalar result of the simplest
    /// programs.
    pub fn get_day2_output(&self) -> (r: i64)
        ensures
            r == mem_read(self@.mem, 0),
    {
        self.memory.read_at(0)
    }

    /// Reads the memory cell at `src`; a cell at or beyond the current length
    /// reads as 0, and a negative address fails.
    pub fn get_mem(&self, src: i64) -> (r: Result<i64, Failure>)
        ensures
            src >= 0 ==> r == Ok::<i64, Failure>(mem_read(self@.mem, src as int)),
            src < 0 ==> r == Err::<i64, Failure>(Failure::NegativeAddress),
    {
        self.memory.read(src)
    }

    /// Writes the memory cell at `dst`, growing the store as needed; a
    /// negative address fails and leaves the machine unchanged.
    pub fn set_mem(&mut self, dst: i64, value: i64) -> (r: Result<(), Failure>)
        requires
            old(self).wf(),
        ensures
            final(self).wf(),
            dst >= 0 ==> r == Ok::<(), Failure>(()) && final(self)@ == (VmModel {
                mem: mem_write(old(self)@.mem, dst as int, value),
                ..old(self)@
            }),
            dst < 0 ==> r == Err::<(), Failure>(Failure::NegativeAddress) && final(self)@ == old(
                self,
            )@,
    {
        let r = self.memory.write(dst, value);
        proof {
            if dst >= 0 {
                assert(self@ =~= (VmModel {
                    mem: mem_write(old(self)@.mem, dst as int, value),
                    ..old(self)@
                }));
            } else {
                assert(self@ =~= old(self)@);
            }
        }
        r
    }

    /// The outputs a queued-mode machine has emitted so far, oldest first.
    pub fn outputs(&self) -> (r: &Vec<i64>)
        ensures
            r@ == self@.outputs,
    {
        &self.outputs
    }

    /// The trace entries recorded so far.  The trace is a human-oriented side
    /// channel; nothing about it is part of the machine's contract.
    pub fn trace(&self) -> &Vec<TraceEntry> {
        &self.trace_log
    }

    /// Source resolution of parameter `i` of the current instruction.
    fn get_src_param(&self, i: u64) -> (r: Result<i64, Failure>)
        requires
            self.wf(),
            1 <= i <= 3,
            self@.word() >= 0,
            0 <= mode_digit(self@.word(), i as int) <= 2,
        ensures
            r == self@.src_value(i as int),
    {
        let w = self.memory.read_at(self.instr);
        let lit = self.memory.read_at(self.instr + i);
        match param_mode(w, i) {
            ParameterMode::Position => {
                if lit < 0 {
                    Err(Failure::NegativeAddress)
                } else {
                    Ok(self.memory.read_at(lit as u64))
                }
            },
            ParameterMode::Immediate => Ok(lit),
            ParameterMode::Relative => {
                match lit.checked_add(self.relative_base) {
                    None => Err(Failure::Overflow),
                    Some(a) => {
                        if a < 0 {
                            Err(Failure::NegativeAddress)
                        } else {
                            Ok(self.memory.read_at(a as u64))
                        }
                    },
                }
            },
        }
    }

    /// Destination resolution of parameter `i` of the current instruction.
    fn get_dst_param(&self, i: u64) -> (r: Result<i64, Failure>)
        requires
            self.wf(),
            1 <= i <= 3,
            self@.word() >= 0,
            0 <= mode_digit(self@.word(), i as int) <= 2,
        ensures
            match r {
                Ok(a) => self@.dst_addr(i as int) == Ok::<int, Failure>(a as int),
                Err(f) => self@.dst_addr(i as int) == Err::<int, Failure>(f),
            },
    {
        let w = self.memory.read_at(self.instr);
        let lit = self.memory.read_at(self.instr + i);
        match param_mode(w, i) {
            ParameterMode::Position => Ok(lit),
            ParameterMode::Immediate => Err(Failure::IllegalWriteTarget),
            ParameterMode::Relative => {
                match lit.checked_add(self.relative_base) {
                    None => Err(Failure::Overflow),
                    Some(a) => Ok(a),
                }
            },
        }
    }

    /// Executes the single instruction at the instruction pointer, exactly as
    /// the model's step function describes.  On failure the machine is left
    /// unchanged, but it must not be resumed.
    fn step(&mut self, verbose: bool) -> (r: Result<(), Failure>)
        requires
            old(self).wf(),
        ensures
            final(self).wf(),
            match r {
                Ok(()) => old(self)@.step() == Ok::<VmModel, Failure>(final(self)@),
                Err(f) => old(self)@.step() == Err::<VmModel, Failure>(f) && final(self)@ == old(
                    self,
                )@,
            },
    {
        if !(self.state == State::WaitingToRun) {
            return Ok(());
        }
        let w = self.memory.read_at(self.instr);
        if w < 0 {
            return Err(Failure::InvalidOpcode);
        }
        let op = match Opcode::try_from(w % 100) {
            Ok(op) => op,
            Err(f) => {
                return Err(f);
            },
        };
        if !check_modes(w / 100) {
            return Err(Failure::InvalidParameterMode);
        }
        proof {
            // A successful decode means the word is nonzero, so the pointer
            // lies inside the store and advancing keeps it in bounds.
            assert(self@.ip < self@.mem.len());
            crate::decode::lemma_modes_valid_digit(w as int / 100, 0);
            crate::decode::lemma_modes_valid_digit(w as int / 100, 1);
            crate::decode::lemma_modes_valid_digit(w as int / 100, 2);
        }
        match op {
            Opcode::Add | Opcode::Multiply => {
                let s1 = match self.get_src_param(1) {
                    Ok(v) => v,
                    Err(f) => return Err(f),
                };
                let s2 = match self.get_src_param(2) {
                    Ok(v) => v,
                    Err(f) => return Err(f),
                };
                let d = match self.get_dst_param(3) {
                    Ok(v) => v,
                    Err(f) => return Err(f),
                };
                let sum = if op == Opcode::Add {
                    s1.checked_add(s2)
                } else {
                    s1.checked_mul(s2)
                };
                let value = match sum {
                    Some(x) => x,
                    None => return Err(Failure::Overflow),
                };
                match self.memory.write(d, value) {
                    Ok(()) => {},
                    Err(f) => return Err(f),
                }
                if verbose {
                    self.trace_log.push(TraceEntry::Store { addr: d, value });
                }
                self.instr = self.instr + 4;
                Ok(())
            },
            Opcode::Input => {
                if self.cooperative {
                    self.state = State::BlockedOnInput;
                    return Ok(());
                }
                let d = match self.get_dst_param(1) {
                    Ok(v) => v,
                    Err(f) => return Err(f),
                };
                if self.next_input >= self.inputs.len() {
                    return Err(Failure::UninitializedIo);
                }
                let value = self.inputs[self.next_input];
                match self.memory.write(d, value) {
                    Ok(()) => {},
                    Err(f) => return Err(f),
                }
                self.next_input = self.next_input + 1;
                if verbose {
                    self.trace_log.push(TraceEntry::InputStored { addr: d, value });
                }
                self.instr = self.instr + 2;
                proof {
                    assert(self.inputs@.skip(self.next_input as int) =~= old(
                        self,
                    )@.inputs.drop_first());
                }
                Ok(())
            },
            Opcode::Output => {
                if self.cooperative {
                    self.state = State::BlockedOnOutput;
                    return Ok(());
                }
                let s = match self.get_src_param(1) {
                    Ok(v) => v,
                    Err(f) => return Err(f),
                };
                self.outputs.push(s);
                if verbose {
                    self.trace_log.push(TraceEntry::OutputEmitted { value: s });
                }
                self.instr = self.instr + 2;
                Ok(())
            },
            Opcode::JumpIfTrue | Opcode::JumpIfFalse => {
                let s = match self.get_src_param(1) {
                    Ok(v) => v,
                    Err(f) => return Err(f),
                };
                let t = match self.get_src_param(2) {
                    Ok(v) => v,
                    Err(f) => return Err(f),
                };
                let taken = if op == Opcode::JumpIfTrue {
                    s != 0
                } else {
                    s == 0
                };
                if taken {
                    if t < 0 {
                        return Err(Failure::NegativeAddress);
                    }
                    self.instr = t as u64;
                    if verbose {
                        self.trace_log.push(TraceEntry::Jumped { target: t });
                    }
                } else {
                    self.instr = self.instr + 3;
                    if verbose {
                        self.trace_log.push(TraceEntry::NotTaken);
                    }
                }
                Ok(())
            },
            Opcode::LessThan | Opcode::Equals => {
                let s1 = match self.get_src_param(1) {
                    Ok(v) => v,
                    Err(f) => return Err(f),
                };
                let s2 = match self.get_src_param(2) {
                    Ok(v) => v,
                    Err(f) => return Err(f),
                };
                let d = match self.get_dst_param(3) {
                    Ok(v) => v,
                    Err(f) => return Err(f),
                };
                let holds = if op == Opcode::LessThan {
                    s1 < s2
                } else {
                    s1 == s2
                };
                let value: i64 = if holds {
                    1
                } else {
                    0
                };
                match self.memory.write(d, value) {
                    Ok(()) => {},
                    Err(f) => return Err(f),
                }
                if verbose {
                    self.trace_log.push(TraceEntry::Store { addr: d, value });
                }
                self.instr = self.instr + 4;
                Ok(())
            },
            Opcode::RelativeBaseOffset => {
                let s = match self.get_src_param(1) {
                    Ok(v) => v,
                    Err(f) => return Err(f),
                };
                let nb = match self.relative_base.checked_add(s) {
                    Some(x) => x,
                    None => return Err(Failure::Overflow),
                };
                self.relative_base = nb;
                if verbose {
                    self.trace_log.push(TraceEntry::BaseAdjusted { delta: s, new_base: nb });
                }
                self.instr = self.instr + 2;
                Ok(())
            },
            Opcode::Terminate => {
                self.state = State::Terminated;
                Ok(())
            },
        }
    }

    /// Advances execution until a suspension point (cooperative mode),
    /// termination, or a failure.  Calling `run` on a terminated machine
    /// fails; calling it on a suspended machine is a no-op.
    ///
    /// The postcondition states that the machine reached is exactly the one
    /// the model reaches by iterating [`VmModel::step`]: some number of steps
    /// lead from the old state to the new one, and the machine only stops
    /// while still ready if the (practically unreachable) step budget of one
    /// call was spent.  On a failure, the machine is left at the last
    /// well-formed state, whose next step is the failing one; it must not be
    /// resumed.
    pub fn run(&mut self, verbose: bool) -> (r: Result<(), Failure>)
        requires
            old(self).wf(),
        ensures
            final(self).wf(),
            old(self)@.state == State::Terminated ==> r == Err::<(), Failure>(
                Failure::OutOfPhaseCall,
            ) && final(self)@ == old(self)@,
            old(self)@.state != State::Terminated ==> match r {
                Ok(()) => exists|n: nat|
                    n <= MAX_RUN_STEPS && #[trigger] steps(old(self)@, n) == Ok::<
                        VmModel,
                        Failure,
                    >(final(self)@) && (final(self)@.state != State::WaitingToRun || n
                        == MAX_RUN_STEPS),
                Err(f) => exists|n: nat|
                    #[trigger] steps(old(self)@, n) == Ok::<VmModel, Failure>(final(self)@)
                        && final(self)@.step() == Err::<VmModel, Failure>(f),
            },
    {
        if self.state == State::Terminated {
            return Err(Failure::OutOfPhaseCall);
        }
        let ghost init = self@;
        let ghost mut done: nat = 0nat;
        let mut fuel: u64 = MAX_RUN_STEPS;
        while fuel > 0 && self.state == State::WaitingToRun
            invariant
                self.wf(),
                init == old(self)@,
                init.state != State::Terminated,
                fuel <= MAX_RUN_STEPS,
                done + fuel == MAX_RUN_STEPS,
                steps(init, done) == Ok::<VmModel, Failure>(self@),
            decreases fuel,
        {
            let res = self.step(verbose);
            proof {
                lemma_steps_extend(init, done);
            }
            match res {
                Ok(()) => {
                    proof {
                        done = done + 1;
                    }
                    fuel = fuel - 1;
                },
                Err(f) => {
                    return Err(f);
                },
            }
        }
        Ok(())
    }

    /// Cooperative-mode resumption with an input value: performs exactly the
    /// write the suspended input instruction would have performed, advances
    /// past it, and makes the machine ready again.  Fails with
    /// `OutOfPhaseCall`, leaving the machine unchanged, whenever the machine
    /// is not blocked on input.
    pub fn provide_input(&mut self, i: i64, verbose: bool) -> (r: Result<(), Failure>)
        requires
            old(self).wf(),
        ensures
            final(self).wf(),
            match old(self)@.resume_with_input(i) {
                Ok(v2) => r == Ok::<(), Failure>(()) && final(self)@ == v2,
                Err(f) => r == Err::<(), Failure>(f) && final(self)@ == old(self)@,
            },
            old(self)@.state != State::BlockedOnInput ==> r == Err::<(), Failure>(
                Failure::OutOfPhaseCall,
            ),
    {
        if !(self.state == State::BlockedOnInput) {
            return Err(Failure::OutOfPhaseCall);
        }
        let w = self.memory.read_at(self.instr);
        if w < 0 {
            return Err(Failure::InvalidOpcode);
        }
        let d1 = (w / 100) % 10;
        if d1 > 2 {
            return Err(Failure::InvalidParameterMode);
        }
        let d = match self.get_dst_param(1) {
            Ok(v) => v,
            Err(f) => return Err(f),
        };
        if d < 0 {
            return Err(Failure::NegativeAddress);
        }
        match self.memory.write(d, i) {
            Ok(()) => {},
            Err(f) => return Err(f),
        }
        if verbose {
            self.trace_log.push(TraceEntry::InputStored { addr: d, value: i });
        }
        self.instr = self.instr + 2;
        self.state = State::WaitingToRun;
        Ok(())
    }

    /// Cooperative-mode resumption retrieving an output value: resolves and
    /// returns the value the suspended output instruction emits, advances
    /// past it, and makes the machine ready again.  Fails with
    /// `OutOfPhaseCall`, leaving the machine unchanged, whenever the machine
    /// is not blocked on output.
    pub fn get_output(&mut self, verbose: bool) -> (r: Result<i64, Failure>)
        requires
            old(self).wf(),
        ensures
            final(self).wf(),
            match old(self)@.resume_take_output() {
                Ok((v2, value)) => r == Ok::<i64, Failure>(value) && final(self)@ == v2,
                Err(f) => r == Err::<i64, Failure>(f) && final(self)@ == old(self)@,
            },
            old(self)@.state != State::BlockedOnOutput ==> r == Err::<i64, Failure>(
                Failure::OutOfPhaseCall,
            ),
    {
        if !(self.state == State::BlockedOnOutput) {
            return Err(Failure::OutOfPhaseCall);
        }
        let w = self.memory.read_at(self.instr);
        if w < 0 {
            return Err(Failure::InvalidOpcode);
        }
        let d1 = (w / 100) % 10;
        if d1 > 2 {
            return Err(Failure::InvalidParameterMode);
        }
        let s = match self.get_src_param(1) {
            Ok(v) => v,
            Err(f) => return Err(f),
        };
        if verbose {
            self.trace_log.push(TraceEntry::OutputEmitted { value: s });
        }
        self.instr = self.instr + 2;
        self.state = State::WaitingToRun;
        Ok(s)
    }
}

} // verus!
