//! The per-instance logic of the concurrent ("duet") mode.
//!
//! Two instances of the same program run in parallel and exchange values over
//! a pair of one-directional channels. The channels, the threads and the
//! receive timeout live outside this library; here stands the whole decision
//! logic of one instance: `next` runs the instance up to its next interaction
//! (a value to send, a need for input, the end of the program, a fault, or an
//! exhausted step budget) and `receive` feeds a received value back in. Every
//! contract is stated against a small-step semantics on a ghost state, so a
//! run of an instance is a function of the program, the seed, and the
//! sequence of values delivered to it — and of nothing else, in particular
//! not of thread scheduling.

use vstd::prelude::*;
use crate::parse::Command;
use crate::parse::InstructionLine;
use crate::registers::Registers;
use crate::registers::empty_bank;
use crate::registers::operand_value;
use crate::registers::reg_value;
use crate::standalone::trunc_rem;
use crate::standalone::lemma_trunc_rem_bounds;

verus! {

/// The whole state of one duet instance: its bank, its program counter, and
/// how many values it has sent so far.
pub struct DuetState {
    pub bank: Map<char, i64>,
    pub pc: int,
    pub sent: i64,
}

/// What one step of a duet instance yields.
pub enum DuetOutcome {
    /// A silent instruction was executed and the instance is in this state.
    Step(DuetState),
    /// A send was executed: the instance is in this state and the value is
    /// on its way to the counterpart.
    Emit(DuetState, i64),
    /// The instance stands on a receive and cannot move without input; the
    /// state is unchanged.
    AwaitInput(DuetState),
    /// The program counter left the program; the payload is the final state,
    /// whose program counter is out of range.
    Finished(DuetState),
    /// An addition or multiplication left the 64-bit range, a modulo had
    /// divisor 0, or the sent counter itself would overflow.
    Fault,
}

/// One step of a duet instance over `prog`.
pub open spec fn duet_step(prog: Seq<InstructionLine>, m: DuetState) -> DuetOutcome {
    if !(0 <= m.pc < prog.len()) {
        DuetOutcome::Finished(m)
    } else {
        let ins = prog[m.pc];
        let rv = reg_value(m.bank, ins.register);
        let ov = operand_value(m.bank, ins.value);
        match ins.command {
            Command::Assign => DuetOutcome::Step(
                DuetState { bank: m.bank.insert(ins.register, ov), pc: m.pc + 1, sent: m.sent },
            ),
            Command::Add => if i64::MIN <= rv + ov <= i64::MAX {
                DuetOutcome::Step(
                    DuetState {
                        bank: m.bank.insert(ins.register, (rv + ov) as i64),
                        pc: m.pc + 1,
                        sent: m.sent,
                    },
                )
            } else {
                DuetOutcome::Fault
            },
            Command::Mul => if i64::MIN <= rv * ov <= i64::MAX {
                DuetOutcome::Step(
                    DuetState {
                        bank: m.bank.insert(ins.register, (rv * ov) as i64),
                        pc: m.pc + 1,
                        sent: m.sent,
                    },
                )
            } else {
                DuetOutcome::Fault
            },
            Command::Mod => if ov == 0 || (rv == i64::MIN && ov == -1) {
                DuetOutcome::Fault
            } else {
                DuetOutcome::Step(
                    DuetState {
                        bank: m.bank.insert(ins.register, trunc_rem(rv as int, ov as int) as i64),
                        pc: m.pc + 1,
                        sent: m.sent,
                    },
                )
            },
            Command::Snd => if m.sent == i64::MAX {
                DuetOutcome::Fault
            } else {
                DuetOutcome::Emit(
                    (DuetState { bank: m.bank, pc: m.pc + 1, sent: (m.sent + 1) as i64 }),
                    rv,
                )
            },
            Command::Rcv => DuetOutcome::AwaitInput(m),
            Command::Jgz => DuetOutcome::Step(
                DuetState {
                    bank: m.bank,
                    pc: if rv > 0 {
                        m.pc + ov
                    } else {
                        m.pc + 1
                    },
                    sent: m.sent,
                },
            ),
        }
    }
}

/// Run a duet instance for up to `n` silent steps; anything that is not a
/// silent step is absorbing.
pub open spec fn duet_advance(prog: Seq<InstructionLine>, m: DuetState, n: nat) -> DuetOutcome
    decreases n,
{
    if n == 0 {
        DuetOutcome::Step(m)
    } else {
        match duet_step(prog, m) {
            DuetOutcome::Step(m2) => duet_advance(prog, m2, (n - 1) as nat),
            o => o,
        }
    }
}

/// Advancing one step further takes one more step from wherever the run
/// stood, unless it had already yielded.
pub proof fn lemma_duet_snoc(prog: Seq<InstructionLine>, m: DuetState, n: nat)
    ensures
        duet_advance(prog, m, (n + 1) as nat) == (match duet_advance(prog, m, n) {
            DuetOutcome::Step(m2) => duet_step(prog, m2),
            o => o,
        }),
    decreases n,
{
    if n == 0 {
        match duet_step(prog, m) {
            DuetOutcome::Step(m2) => {
                assert(duet_advance(prog, m2, 0) == DuetOutcome::Step(m2));
            },
            _ => {},
        }
    } else {
        match duet_step(prog, m) {
            DuetOutcome::Step(m2) => {
                lemma_duet_snoc(prog, m2, (n - 1) as nat);
            },
            _ => {},
        }
    }
}

/// A yielded outcome stays what it is under extra fuel.
pub proof fn lemma_duet_terminal_stable(
    prog: Seq<InstructionLine>,
    m: DuetState,
    n1: nat,
    n2: nat,
)
    requires
        n1 <= n2,
        !(duet_advance(prog, m, n1) is Step),
    ensures
        duet_advance(prog, m, n2) == duet_advance(prog, m, n1),
    decreases n1,
{
    if n1 > 0 {
        match duet_step(prog, m) {
            DuetOutcome::Step(m2) => {
                lemma_duet_terminal_stable(prog, m2, (n1 - 1) as nat, (n2 - 1) as nat);
            },
            _ => {},
        }
    }
}

/// The instance stands on a receive instruction and cannot move without
/// input.
pub open spec fn awaiting(prog: Seq<InstructionLine>, m: DuetState) -> bool {
    &&& 0 <= m.pc < prog.len()
    &&& prog[m.pc].command is Rcv
}

/// The state after a waiting instance takes one delivered value: the value is
/// stored in the receive's target register and the counter moves on.
pub open spec fn deliver(prog: Seq<InstructionLine>, m: DuetState, v: i64) -> DuetState {
    DuetState { bank: m.bank.insert(prog[m.pc].register, v), pc: m.pc + 1, sent: m.sent }
}

/// How `next` reports the instance's next interaction to its driver.
#[derive(Debug, Clone, Copy, PartialEq, Eq)]
pub enum DuetEvent {
    /// A send was executed; push this value to the counterpart.
    Sent(i64),
    /// The instance stands on a receive: pop a value from the counterpart
    /// (waiting up to the timeout) and hand it to `receive`, or stop the
    /// instance if none arrives.
    AwaitingInput,
    /// The program counter left the program; the payload is the count of
    /// values this instance sent.
    Finished(i64),
    /// An addition or multiplication left the 64-bit range, a modulo had
    /// divisor 0, or the sent counter overflowed.
    Fault,
    /// The step budget ran out; calling `next` again resumes the run.
    OutOfFuel,
}

/// One instance of the duet program: its own register bank, its own copy of
/// the program, its program counter and its sent counter. It owns no channel:
/// the driver moves values between two instances.
pub struct DuetPlayingProgram {
    pub registers: Registers,
    pub instructions: Vec<InstructionLine>,
    pub position: i128,
    pub sent: i64,
}

impl DuetPlayingProgram {
    /// The program this instance runs.
    pub open spec fn prog(&self) -> Seq<InstructionLine> {
        self.instructions@
    }

    /// The instance's state, as the small-step semantics sees it.
    pub open spec fn state(&self) -> DuetState {
        DuetState { bank: self.registers@, pc: self.position as int, sent: self.sent }
    }

    /// A fresh instance of `instructions` with register `p` seeded to the
    /// program id and everything else zero.
    pub fn new(instructions: &Vec<InstructionLine>, program_id: i64) -> (r: DuetPlayingProgram)
        ensures
            r.prog() == instructions@,
            r.state() == (DuetState {
                bank: empty_bank().insert('p', program_id),
                pc: 0,
                sent: 0,
            }),
    {
        let mut registers = Registers::new();
        registers.insert('p', program_id);
        let mut prog_copy: Vec<InstructionLine> = Vec::new();
        let mut i: usize = 0;
        while i < instructions.len()
            invariant
                0 <= i <= instructions@.len(),
                prog_copy@ == instructions@.take(i as int),
            decreases instructions@.len() - i,
        {
            prog_copy.push(instructions[i]);
            proof {
                assert(prog_copy@ =~= instructions@.take(i as int + 1));
            }
            i = i + 1;
        }
        proof {
            assert(instructions@.take(instructions@.len() as int) =~= instructions@);
        }
        DuetPlayingProgram { registers, instructions: prog_copy, position: 0, sent: 0 }
    }

    /// Whether the instance stands on a receive and needs a value before
    /// `next` can make progress.
    pub fn awaiting_input(&self) -> (r: bool)
        ensures
            r == awaiting(self.prog(), self.state()),
    {
        if self.position < 0 {
            return false;
        }
        let n = self.instructions.len();
        if self.position >= (n as i128) {
            return false;
        }
        let ins = self.instructions[self.position as usize];
        match ins.command {
            Command::Rcv => true,
            _ => false,
        }
    }

    /// The count of values this instance has sent so far.
    pub fn sent_count(&self) -> (r: i64)
        ensures
            r == self.state().sent,
    {
        self.sent
    }

    /// Run the instance until its next interaction, for at most `fuel` silent
    /// steps: the returned event is exactly what the small-step semantics
    /// reaches in that budget, and the instance's state moves accordingly.
    pub fn next(&mut self, fuel: u64) -> (e: DuetEvent)
        ensures
            final(self).prog() == old(self).prog(),
            match duet_advance(old(self).prog(), old(self).state(), fuel as nat) {
                DuetOutcome::Step(_) => e == DuetEvent::OutOfFuel,
                DuetOutcome::Emit(m2, v) => e == DuetEvent::Sent(v) && final(self).state() == m2,
                DuetOutcome::AwaitInput(m1) => e == DuetEvent::AwaitingInput && final(self).state()
                    == m1 && awaiting(old(self).prog(), final(self).state()),
                DuetOutcome::Finished(m1) => e == DuetEvent::Finished(m1.sent)
                    && final(self).state() == m1 && !(0 <= m1.pc < old(self).prog().len()),
                DuetOutcome::Fault => e == DuetEvent::Fault,
            },
            e == DuetEvent::OutOfFuel ==> exists|k: nat|
                k <= fuel as nat && duet_advance(old(self).prog(), old(self).state(), k)
                    == DuetOutcome::Step(final(self).state()),
    {
        let ghost prog = self.instructions@;
        let ghost m0 = self.state();
        let mut used: u64 = 0;
        let n = self.instructions.len();
        proof {
            assert(duet_advance(prog, m0, 0) == DuetOutcome::Step(m0));
        }
        while self.position >= 0 && self.position < (n as i128) && used < fuel
            invariant
                prog == self.instructions@,
                prog == old(self).prog(),
                n == prog.len(),
                used <= fuel,
                m0 == old(self).state(),
                duet_advance(prog, m0, used as nat) == DuetOutcome::Step(self.state()),
            decreases fuel - used,
        {
            let ghost m = self.state();
            let ins = self.instructions[self.position as usize];
            let register_value = crate::registers::get_register_value(
                &self.registers,
                ins.register,
            );
            let value = crate::registers::get_value(&self.registers, ins.value);
            proof {
                lemma_duet_snoc(prog, m0, used as nat);
            }
            match ins.command {
                Command::Assign => {
                    self.registers.insert(ins.register, value);
                    self.position = self.position + 1;
                },
                Command::Add => {
                    match register_value.checked_add(value) {
                        Some(s) => {
                            self.registers.insert(ins.register, s);
                            self.position = self.position + 1;
                        },
                        None => {
                            proof {
                                lemma_duet_terminal_stable(prog, m0, (used + 1) as nat, fuel as nat);
                            }
                            return DuetEvent::Fault;
                        },
                    }
                },
                Command::Mul => {
                    match register_value.checked_mul(value) {
                        Some(s) => {
                            self.registers.insert(ins.register, s);
                            self.position = self.position + 1;
                        },
                        None => {
                            proof {
                                lemma_duet_terminal_stable(prog, m0, (used + 1) as nat, fuel as nat);
                            }
                            return DuetEvent::Fault;
                        },
                    }
                },
                Command::Mod => {
                    proof {
                        if value != 0 {
                            lemma_trunc_rem_bounds(register_value as int, value as int);
                        }
                    }
                    match register_value.checked_rem(value) {
                        Some(s) => {
                            self.registers.insert(ins.register, s);
                            self.position = self.position + 1;
                        },
                        None => {
                            proof {
                                lemma_duet_terminal_stable(prog, m0, (used + 1) as nat, fuel as nat);
                            }
                            return DuetEvent::Fault;
                        },
                    }
                },
                Command::Snd => {
                    if self.sent == i64::MAX {
                        proof {
                            lemma_duet_terminal_stable(prog, m0, (used + 1) as nat, fuel as nat);
                        }
                        return DuetEvent::Fault;
                    }
                    self.sent = self.sent + 1;
                    self.position = self.position + 1;
                    proof {
                        lemma_duet_terminal_stable(prog, m0, (used + 1) as nat, fuel as nat);
                    }
                    return DuetEvent::Sent(register_value);
                },
                Command::Rcv => {
                    proof {
                        lemma_duet_terminal_stable(prog, m0, (used + 1) as nat, fuel as nat);
                    }
                    return DuetEvent::AwaitingInput;
                },
                Command::Jgz => {
                    if register_value > 0 {
                        self.position = self.position + (value as i128);
                    } else {
                        self.position = self.position + 1;
                    }
                },
            }
            used = used + 1;
        }
        if used < fuel {
            proof {
                lemma_duet_snoc(prog, m0, used as nat);
                lemma_duet_terminal_stable(prog, m0, (used + 1) as nat, fuel as nat);
            }
            DuetEvent::Finished(self.sent)
        } else {
            DuetEvent::OutOfFuel
        }
    }

    /// Hand the instance one value received from its counterpart; it must be
    /// standing on a receive. The value lands in the receive's target
    /// register and the program counter moves on.
    pub fn receive(&mut self, value: i64)
        requires
            awaiting(old(self).prog(), old(self).state()),
        ensures
            final(self).prog() == old(self).prog(),
            final(self).state() == deliver(old(self).prog(), old(self).state(), value),
    {
        let n = self.instructions.len();
        let ins = self.instructions[self.position as usize];
        proof {
            // The position fits in usize: it is below the vector's length.
            assert((self.position as int) < (n as int));
            assert(ins == self.instructions@[self.position as int]);
        }
        self.registers.insert(ins.register, value);
        self.position = self.position + 1;
    }
}

/// What a whole run of one instance on a given input tape yields, with the
/// values it sent collected in order after `outputs`.
pub enum DuetRunResult {
    /// The budget ran out with the instance still running.
    Continuing(DuetState, Seq<i64>),
    /// The program counter left the program: the final state, and every
    /// value sent.
    Completed(DuetState, Seq<i64>),
    /// The instance stands on a receive with the input tape exhausted — the
    /// situation the timeout resolves in the running system.
    Stalled(DuetState, Seq<i64>),
    /// The instance faulted.
    Faulted(Seq<i64>),
}

/// Run one instance to completion on a fixed input tape. This is a function
/// of the program, the starting state and the tape alone: thread scheduling
/// has no handle on it.
pub open spec fn duet_run(
    prog: Seq<InstructionLine>,
    m: DuetState,
    inputs: Seq<i64>,
    outputs: Seq<i64>,
    fuel: nat,
) -> DuetRunResult
    decreases fuel,
{
    if fuel == 0 {
        DuetRunResult::Continuing(m, outputs)
    } else {
        match duet_step(prog, m) {
            DuetOutcome::Step(m2) => duet_run(prog, m2, inputs, outputs, (fuel - 1) as nat),
            DuetOutcome::Emit(m2, v) => duet_run(prog, m2, inputs, outputs.push(v), (fuel - 1) as nat),
            DuetOutcome::AwaitInput(m1) => if inputs.len() == 0 {
                DuetRunResult::Stalled(m1, outputs)
            } else {
                duet_run(prog, deliver(prog, m1, inputs[0]), inputs.drop_first(), outputs, (fuel - 1) as nat)
            },
            DuetOutcome::Finished(m1) => DuetRunResult::Completed(m1, outputs),
            DuetOutcome::Fault => DuetRunResult::Faulted(outputs),
        }
    }
}

/// The sent counter counts exactly the values sent: however a run of one
/// instance ends (short of a fault), the growth of its counter equals the
/// number of values it put on its outbound channel. In particular, an
/// instance that finishes by leaving the program reports exactly the number
/// of send instructions it executed — whatever the scheduling, since the run
/// is a function of the delivered values alone.
pub proof fn lemma_sent_counts_sends(
    prog: Seq<InstructionLine>,
    m: DuetState,
    inputs: Seq<i64>,
    outputs: Seq<i64>,
    fuel: nat,
)
    ensures
        match duet_run(prog, m, inputs, outputs, fuel) {
            DuetRunResult::Continuing(m1, out) => m1.sent as int - m.sent as int == out.len()
                - outputs.len(),
            DuetRunResult::Completed(m1, out) => m1.sent as int - m.sent as int == out.len()
                - outputs.len(),
            DuetRunResult::Stalled(m1, out) => m1.sent as int - m.sent as int == out.len()
                - outputs.len(),
            DuetRunResult::Faulted(_) => true,
        },
    decreases fuel,
{
    if fuel > 0 {
        match duet_step(prog, m) {
            DuetOutcome::Step(m2) => {
                lemma_sent_counts_sends(prog, m2, inputs, outputs, (fuel - 1) as nat);
            },
            DuetOutcome::Emit(m2, v) => {
                lemma_sent_counts_sends(prog, m2, inputs, outputs.push(v), (fuel - 1) as nat);
            },
            DuetOutcome::AwaitInput(m1) => {
                if inputs.len() > 0 {
                    lemma_sent_counts_sends(
                        prog,
                        deliver(prog, m1, inputs[0]),
                        inputs.drop_first(),
                        outputs,
                        (fuel - 1) as nat,
                    );
                }
            },
            _ => {},
        }
    }
}

} // verus!
