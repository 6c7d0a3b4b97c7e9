//! Standalone execution (part one semantics): run from program counter 0
//! until a receive on a non-zero register halts the run with the last played
//! value, or the program counter leaves the program.
//!
//! The semantics is a small-step relation on a ghost machine state; the
//! executable interpreter is proved to return exactly the outcome of running
//! that relation for the given number of steps.

use vstd::prelude::*;
use crate::parse::Command;
use crate::parse::InstructionLine;
use crate::registers::Registers;
use crate::registers::empty_bank;
use crate::registers::operand_value;
use crate::registers::reg_value;
use vstd::arithmetic::div_mod::lemma_mod_bound;

verus! {

/// The whole state of a standalone run: the register bank, the program
/// counter, and the most recently played (sent) value.
pub struct MachineState {
    pub bank: Map<char, i64>,
    pub pc: int,
    pub played: i64,
}

/// What one step of the standalone machine yields.
pub enum StepOutcome {
    /// The machine took the step and is in this state.
    Step(MachineState),
    /// A receive on a non-zero register halted the run: the answer is the
    /// last played value.
    Received(i64),
    /// The program counter left the program: a silent halt with no answer.
    RangeExit,
    /// The step could not be taken as written: an addition or multiplication
    /// left the 64-bit range, or a modulo had divisor 0 (or overflowed).
    Fault,
}

/// Remainder with truncation toward zero, as the `%` of the executable
/// language computes it on signed integers.
pub open spec fn trunc_rem(x: int, d: int) -> int {
    if x == 0 {
        0
    } else if x > 0 && d > 0 {
        x % d
    } else if x < 0 && d < 0 {
        ((x * -1) % (d * -1)) * -1
    } else if x < 0 {
        ((x * -1) % d) * -1
    } else {
        x % (d * -1)
    }
}

/// On 64-bit operands with a usable divisor, the truncated remainder is a
/// 64-bit value again.
pub proof fn lemma_trunc_rem_bounds(x: int, d: int)
    requires
        i64::MIN <= x <= i64::MAX,
        i64::MIN <= d <= i64::MAX,
        d != 0,
    ensures
        i64::MIN <= trunc_rem(x, d) <= i64::MAX,
{
    if x == 0 {
    } else if x > 0 && d > 0 {
        lemma_mod_bound(x, d);
    } else if x < 0 && d < 0 {
        lemma_mod_bound(x * -1, d * -1);
    } else if x < 0 {
        lemma_mod_bound(x * -1, d);
    } else {
        lemma_mod_bound(x, d * -1);
    }
}

/// One step of the standalone machine over `prog`.
pub open spec fn standalone_step(prog: Seq<InstructionLine>, m: MachineState) -> StepOutcome {
    if !(0 <= m.pc < prog.len()) {
        StepOutcome::RangeExit
    } else {
        let ins = prog[m.pc];
        let rv = reg_value(m.bank, ins.register);
        let ov = operand_value(m.bank, ins.value);
        match ins.command {
            Command::Assign => StepOutcome::Step(
                MachineState { bank: m.bank.insert(ins.register, ov), pc: m.pc + 1, played: m.played },
            ),
            Command::Add => if i64::MIN <= rv + ov <= i64::MAX {
                StepOutcome::Step(
                    MachineState {
                        bank: m.bank.insert(ins.register, (rv + ov) as i64),
                        pc: m.pc + 1,
                        played: m.played,
                    },
                )
            } else {
                StepOutcome::Fault
            },
            Command::Mul => if i64::MIN <= rv * ov <= i64::MAX {
                StepOutcome::Step(
                    MachineState {
                        bank: m.bank.insert(ins.register, (rv * ov) as i64),
                        pc: m.pc + 1,
                        played: m.played,
                    },
                )
            } else {
                StepOutcome::Fault
            },
            Command::Mod => if ov == 0 || (rv == i64::MIN && ov == -1) {
                StepOutcome::Fault
            } else {
                StepOutcome::Step(
                    MachineState {
                        bank: m.bank.insert(ins.register, trunc_rem(rv as int, ov as int) as i64),
                        pc: m.pc + 1,
                        played: m.played,
                    },
                )
            },
            Command::Snd => StepOutcome::Step(
                MachineState { bank: m.bank, pc: m.pc + 1, played: rv },
            ),
            Command::Rcv => if rv != 0 {
                StepOutcome::Received(m.played)
            } else {
                StepOutcome::Step(MachineState { bank: m.bank, pc: m.pc + 1, played: m.played })
            },
            Command::Jgz => StepOutcome::Step(
                MachineState {
                    bank: m.bank,
                    pc: if rv > 0 {
                        m.pc + ov
                    } else {
                        m.pc + 1
                    },
                    played: m.played,
                },
            ),
        }
    }
}

/// Run the standalone machine for up to `n` steps; a terminal outcome is
/// absorbing.
pub open spec fn standalone_run(prog: Seq<InstructionLine>, m: MachineState, n: nat) -> StepOutcome
    decreases n,
{
    if n == 0 {
        StepOutcome::Step(m)
    } else {
        match standalone_step(prog, m) {
            StepOutcome::Step(m2) => standalone_run(prog, m2, (n - 1) as nat),
            o => o,
        }
    }
}

/// Running one step longer means taking one more step from wherever the run
/// stood, unless it had already halted.
pub proof fn lemma_run_snoc(prog: Seq<InstructionLine>, m: MachineState, n: nat)
    ensures
        standalone_run(prog, m, (n + 1) as nat) == (match standalone_run(prog, m, n) {
            StepOutcome::Step(m2) => standalone_step(prog, m2),
            o => o,
        }),
    decreases n,
{
    if n == 0 {
        match standalone_step(prog, m) {
            StepOutcome::Step(m2) => {
                assert(standalone_run(prog, m2, 0) == StepOutcome::Step(m2));
            },
            _ => {},
        }
    } else {
        match standalone_step(prog, m) {
            StepOutcome::Step(m2) => {
                lemma_run_snoc(prog, m2, (n - 1) as nat);
            },
            _ => {},
        }
    }
}

/// A halted run stays halted: extra fuel does not change the outcome.
pub proof fn lemma_run_terminal_stable(prog: Seq<InstructionLine>, m: MachineState, n1: nat, n2: nat)
    requires
        n1 <= n2,
        !(standalone_run(prog, m, n1) is Step),
    ensures
        standalone_run(prog, m, n2) == standalone_run(prog, m, n1),
    decreases n1,
{
    if n1 > 0 {
        match standalone_step(prog, m) {
            StepOutcome::Step(m2) => {
                lemma_run_terminal_stable(prog, m2, (n1 - 1) as nat, (n2 - 1) as nat);
            },
            _ => {},
        }
    }
}

/// Execution is deterministic: whatever fuel suffices to reach a halt, the
/// halt reached is the same.
pub proof fn lemma_standalone_deterministic(
    prog: Seq<InstructionLine>,
    m: MachineState,
    n1: nat,
    n2: nat,
)
    requires
        !(standalone_run(prog, m, n1) is Step),
        !(standalone_run(prog, m, n2) is Step),
    ensures
        standalone_run(prog, m, n1) == standalone_run(prog, m, n2),
{
    if n1 <= n2 {
        lemma_run_terminal_stable(prog, m, n1, n2);
    } else {
        lemma_run_terminal_stable(prog, m, n2, n1);
    }
}

/// A receive on a register holding exactly 0 never halts the standalone
/// machine: the step is a plain no-op advance of the program counter.
pub proof fn lemma_receive_zero_never_halts(prog: Seq<InstructionLine>, m: MachineState)
    requires
        0 <= m.pc < prog.len(),
        prog[m.pc].command is Rcv,
        reg_value(m.bank, prog[m.pc].register) == 0,
    ensures
        standalone_step(prog, m) == StepOutcome::Step(
            MachineState { bank: m.bank, pc: m.pc + 1, played: m.played },
        ),
{
}

/// A jump whose operand is 0, or whose register reads 0 or less, never moves
/// the program counter past the default advance of one: with operand 0 the
/// counter either stays or advances by one, and with a non-positive register
/// it always advances by exactly one. The bank and the played value are
/// untouched either way.
pub proof fn lemma_jgz_bounded(prog: Seq<InstructionLine>, m: MachineState)
    requires
        0 <= m.pc < prog.len(),
        prog[m.pc].command is Jgz,
        operand_value(m.bank, prog[m.pc].value) == 0 || reg_value(m.bank, prog[m.pc].register)
            <= 0,
    ensures
        standalone_step(prog, m) matches StepOutcome::Step(m2) && m2.pc <= m.pc + 1 && m2.bank
            == m.bank && m2.played == m.played,
        reg_value(m.bank, prog[m.pc].register) <= 0 ==> (standalone_step(prog, m)
            matches StepOutcome::Step(m2) && m2.pc == m.pc + 1),
{
}

/// The machine every standalone run starts from.
pub open spec fn init_machine() -> MachineState {
    MachineState { bank: empty_bank(), pc: 0, played: 0 }
}

/// How a standalone run reports its end to the caller.
#[derive(Debug, Clone, Copy, PartialEq, Eq)]
pub enum StandaloneOutcome {
    /// A receive on a non-zero register halted the run; the payload is the
    /// last played value, the puzzle's part-one answer.
    Received(i64),
    /// The program counter left the program before any receive halted it.
    RangeExit,
    /// An addition or multiplication left the 64-bit range, or a modulo had
    /// divisor 0: an unrecoverable fault.
    Fault,
    /// The step budget ran out with the machine still running.
    OutOfFuel,
}

/// The outcome a finished run reports for a given terminal of the small-step
/// relation.
pub open spec fn run_outcome(o: StepOutcome) -> StandaloneOutcome {
    match o {
        StepOutcome::Step(_) => StandaloneOutcome::OutOfFuel,
        StepOutcome::Received(v) => StandaloneOutcome::Received(v),
        StepOutcome::RangeExit => StandaloneOutcome::RangeExit,
        StepOutcome::Fault => StandaloneOutcome::Fault,
    }
}

/// Interpret the program in standalone mode for at most `fuel` steps,
/// reporting exactly what the small-step semantics reaches in that budget.
pub fn part1(instructions: &Vec<InstructionLine>, fuel: u64) -> (r: StandaloneOutcome)
    ensures
        r == run_outcome(standalone_run(instructions@, init_machine(), fuel as nat)),
{
    let ghost prog = instructions@;
    let mut registers = Registers::new();
    let mut position: i128 = 0;
    let mut played: i64 = 0;
    let mut used: u64 = 0;
    let n = instructions.len();
    proof {
        assert(standalone_run(prog, init_machine(), 0) == StepOutcome::Step(init_machine()));
    }
    while position >= 0 && position < (n as i128) && used < fuel
        invariant
            prog == instructions@,
            n == prog.len(),
            used <= fuel,
            standalone_run(prog, init_machine(), used as nat) == StepOutcome::Step(
                (MachineState { bank: registers@, pc: position as int, played: played }),
            ),
        decreases fuel - used,
    {
        let ghost m = MachineState { bank: registers@, pc: position as int, played: played };
        let ins = instructions[position as usize];
        let register_value = crate::registers::get_register_value(&registers, ins.register);
        let value = crate::registers::get_value(&registers, ins.value);
        proof {
            lemma_run_snoc(prog, init_machine(), used as nat);
        }
        match ins.command {
            Command::Assign => {
                registers.insert(ins.register, value);
                position = position + 1;
            },
            Command::Add => {
                match register_value.checked_add(value) {
                    Some(s) => {
                        registers.insert(ins.register, s);
                        position = position + 1;
                    },
                    None => {
                        proof {
                            lemma_run_terminal_stable(
                                prog,
                                init_machine(),
                                (used + 1) as nat,
                                fuel as nat,
                            );
                        }
                        return StandaloneOutcome::Fault;
                    },
                }
            },
            Command::Mul => {
                match register_value.checked_mul(value) {
                    Some(s) => {
                        registers.insert(ins.register, s);
                        position = position + 1;
                    },
                    None => {
                        proof {
                            lemma_run_terminal_stable(
                                prog,
                                init_machine(),
                                (used + 1) as nat,
                                fuel as nat,
                            );
                        }
                        return StandaloneOutcome::Fault;
                    },
                }
            },
            Command::Mod => {
                proof {
                    if value != 0 {
                        lemma_trunc_rem_bounds(register_value as int, value as int);
                    }
                }
                match register_value.checked_rem(value) {
                    Some(s) => {
                        registers.insert(ins.register, s);
                        position = position + 1;
                    },
                    None => {
                        proof {
                            lemma_run_terminal_stable(
                                prog,
                                init_machine(),
                                (used + 1) as nat,
                                fuel as nat,
                            );
                        }
                        return StandaloneOutcome::Fault;
                    },
                }
            },
            Command::Snd => {
                played = register_value;
                position = position + 1;
            },
            Command::Rcv => {
                if register_value != 0 {
                    proof {
                        lemma_run_terminal_stable(
                            prog,
                            init_machine(),
                            (used + 1) as nat,
                            fuel as nat,
                        );
                    }
                    return StandaloneOutcome::Received(played);
                }
                position = position + 1;
            },
            Command::Jgz => {
                if register_value > 0 {
                    position = position + (value as i128);
                } else {
                    position = position + 1;
                }
            },
        }
        used = used + 1;
    }
    if used < fuel {
        proof {
            lemma_run_snoc(prog, init_machine(), used as nat);
            lemma_run_terminal_stable(prog, init_machine(), (used + 1) as nat, fuel as nat);
        }
        StandaloneOutcome::RangeExit
    } else {
        StandaloneOutcome::OutOfFuel
    }
}

} // verus!
