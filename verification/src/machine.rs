//! Small-step semantics of the two interpreting engines: an abstract
//! machine state over a growable byte tape, one step relation for the
//! coalesced IR and one for raw commands with a bracket jump table, and
//! bounded-iteration run functions that the interpreters are proved
//! against.

use vstd::prelude::*;

use crate::ir::IR;
use crate::opcode::Opcode;

verus! {

/// The abstract machine: a growable tape of byte cells with a cursor, a
/// program counter, the not-yet-consumed part of the input stream, and the
/// output written so far.
#[verifier::ext_equal]
pub ghost struct MState {
    pub tape: Seq<u8>,
    pub cursor: nat,
    pub pc: nat,
    pub input: Seq<u8>,
    pub read: nat,
    pub output: Seq<u8>,
}

/// The machine at the start of a run: cursor and program counter at zero,
/// nothing read, nothing written.
pub open spec fn init_state(tape: Seq<u8>, input: Seq<u8>) -> MState {
    MState { tape, cursor: 0, pc: 0, input, read: 0, output: Seq::empty() }
}

/// The cursor rests on an existing cell and no more input was consumed than
/// exists.
pub open spec fn state_wf(s: MState) -> bool {
    s.cursor < s.tape.len() && s.read <= s.input.len()
}

/// The result of one machine step: the next state, or the failure met.
pub ghost enum Step {
    Next(MState),
    /// A read command found the input stream exhausted.
    NoInput,
    /// A bracket wanted to jump but the jump table has no entry for it
    /// (a loop-open left pending at end of input).
    NoJump,
}

/// The outcome of running a bounded number of steps.
pub ghost enum Outcome {
    /// The step budget ran out with the machine still going.
    Running(MState),
    /// The program counter moved past the end of the program.
    Halted(MState),
    /// A step failed; the state at the failure is kept.
    Failed(MState),
}

/// The tape grown with zero cells until position `c` exists.
pub open spec fn grow_tape(tape: Seq<u8>, c: nat) -> Seq<u8> {
    if c < tape.len() {
        tape
    } else {
        tape + Seq::new((c + 1 - tape.len()) as nat, |i: int| 0u8)
    }
}

/// Growing the tape to one position further either leaves it unchanged or
/// appends exactly one zero cell.
pub proof fn lemma_grow_tape_push(tape: Seq<u8>, c: nat)
    ensures
        grow_tape(tape, (c + 1) as nat) == (if c + 1 < tape.len() {
            tape
        } else {
            grow_tape(tape, c).push(0u8)
        }),
{
    if c + 1 >= tape.len() {
        assert(grow_tape(tape, (c + 1) as nat) =~= grow_tape(tape, c).push(0u8));
    }
}

/// Byte addition wrapping modulo 256.
pub open spec fn add_wrap(b: u8, x: u8) -> u8 {
    ((b + x) % 256) as u8
}

/// Byte subtraction wrapping modulo 256.
pub open spec fn sub_wrap(b: u8, x: u8) -> u8 {
    ((b + 256 - x) % 256) as u8
}

/// One step of the optimized engine on coalesced IR. A left move of count
/// `x` clamps at cell zero; a right move grows the tape on demand; a taken
/// jump sets the program counter to the target and then, like every step,
/// advances it by one, landing just past the matched bracket.
pub open spec fn ir_step(code: Seq<IR>, s: MState) -> Step
    recommends
        s.pc < code.len(),
        state_wf(s),
{
    match code[s.pc as int] {
        IR::SHL(x) => Step::Next(
            MState {
                cursor: if s.cursor >= x { (s.cursor - x) as nat } else { 0 },
                pc: s.pc + 1,
                ..s
            },
        ),
        IR::SHR(x) => Step::Next(
            MState {
                cursor: (s.cursor + x) as nat,
                tape: grow_tape(s.tape, (s.cursor + x) as nat),
                pc: s.pc + 1,
                ..s
            },
        ),
        IR::ADD(x) => Step::Next(
            MState {
                tape: s.tape.update(s.cursor as int, add_wrap(s.tape[s.cursor as int], x)),
                pc: s.pc + 1,
                ..s
            },
        ),
        IR::SUB(x) => Step::Next(
            MState {
                tape: s.tape.update(s.cursor as int, sub_wrap(s.tape[s.cursor as int], x)),
                pc: s.pc + 1,
                ..s
            },
        ),
        IR::PUTCHAR => Step::Next(
            MState { output: s.output.push(s.tape[s.cursor as int]), pc: s.pc + 1, ..s },
        ),
        IR::GETCHAR => if s.read < s.input.len() {
            Step::Next(
                MState {
                    tape: s.tape.update(s.cursor as int, s.input[s.read as int]),
                    read: s.read + 1,
                    pc: s.pc + 1,
                    ..s
                },
            )
        } else {
            Step::NoInput
        },
        IR::JIZ(t) => Step::Next(
            MState {
                pc: if s.tape[s.cursor as int] == 0 {
                    (t + 1) as nat
                } else {
                    s.pc + 1
                },
                ..s
            },
        ),
        IR::JNZ(t) => Step::Next(
            MState {
                pc: if s.tape[s.cursor as int] != 0 {
                    (t + 1) as nat
                } else {
                    s.pc + 1
                },
                ..s
            },
        ),
    }
}

/// The optimized engine run for at most `n` steps from `s`.
pub open spec fn ir_run(code: Seq<IR>, s: MState, n: nat) -> Outcome
    decreases n,
{
    if s.pc >= code.len() {
        Outcome::Halted(s)
    } else if n == 0 {
        Outcome::Running(s)
    } else {
        match ir_step(code, s) {
            Step::Next(s2) => ir_run(code, s2, (n - 1) as nat),
            _ => Outcome::Failed(s),
        }
    }
}

/// Extending a run that is still going by one step: the outcome after
/// `n + 1` steps is decided by one step from the state after `n`.
pub proof fn lemma_ir_run_snoc(code: Seq<IR>, s0: MState, n: nat)
    requires
        ir_run(code, s0, n) matches Outcome::Running(s),
    ensures
        ir_run(code, s0, n) matches Outcome::Running(s) && ir_run(code, s0, n + 1) == match ir_step(
            code,
            s,
        ) {
            Step::Next(s2) => if s2.pc >= code.len() {
                Outcome::Halted(s2)
            } else {
                Outcome::Running(s2)
            },
            _ => Outcome::Failed(s),
        },
    decreases n,
{
    if n == 0 {
        match ir_step(code, s0) {
            Step::Next(s2) => {
                assert(ir_run(code, s2, 0) == if s2.pc >= code.len() {
                    Outcome::Halted(s2)
                } else {
                    Outcome::Running(s2)
                });
            },
            _ => {},
        }
    } else if s0.pc < code.len() {
        match ir_step(code, s0) {
            Step::Next(s1) => {
                lemma_ir_run_snoc(code, s1, (n - 1) as nat);
            },
            _ => {},
        }
    }
}

/// A run that has halted or failed keeps that outcome under any larger
/// step budget.
pub proof fn lemma_ir_run_persists(code: Seq<IR>, s0: MState, n: nat, m: nat)
    requires
        n <= m,
        !(ir_run(code, s0, n) matches Outcome::Running(_)),
    ensures
        ir_run(code, s0, m) == ir_run(code, s0, n),
    decreases n,
{
    if s0.pc < code.len() {
        match ir_step(code, s0) {
            Step::Next(s1) => {
                lemma_ir_run_persists(code, s1, (n - 1) as nat, (m - 1) as nat);
            },
            _ => {},
        }
    }
}

/// One step of the naive engine on raw commands with a bracket jump table.
/// Moves go one cell at a time; arithmetic changes the cell by one; a taken
/// bracket jump looks its partner up in the table and then advances by one.
pub open spec fn op_step(cmds: Seq<Opcode>, table: Map<usize, usize>, s: MState) -> Step
    recommends
        s.pc < cmds.len(),
        state_wf(s),
{
    match cmds[s.pc as int] {
        Opcode::SHL => Step::Next(
            MState {
                cursor: if s.cursor >= 1 { (s.cursor - 1) as nat } else { 0 },
                pc: s.pc + 1,
                ..s
            },
        ),
        Opcode::SHR => Step::Next(
            MState {
                cursor: s.cursor + 1,
                tape: grow_tape(s.tape, s.cursor + 1),
                pc: s.pc + 1,
                ..s
            },
        ),
        Opcode::ADD => Step::Next(
            MState {
                tape: s.tape.update(s.cursor as int, add_wrap(s.tape[s.cursor as int], 1)),
                pc: s.pc + 1,
                ..s
            },
        ),
        Opcode::SUB => Step::Next(
            MState {
                tape: s.tape.update(s.cursor as int, sub_wrap(s.tape[s.cursor as int], 1)),
                pc: s.pc + 1,
                ..s
            },
        ),
        Opcode::PUTCHAR => Step::Next(
            MState { output: s.output.push(s.tape[s.cursor as int]), pc: s.pc + 1, ..s },
        ),
        Opcode::GETCHAR => if s.read < s.input.len() {
            Step::Next(
                MState {
                    tape: s.tape.update(s.cursor as int, s.input[s.read as int]),
                    read: s.read + 1,
                    pc: s.pc + 1,
                    ..s
                },
            )
        } else {
            Step::NoInput
        },
        Opcode::LB => if s.tape[s.cursor as int] == 0 {
            if table.contains_key(s.pc as usize) {
                Step::Next(MState { pc: (table[s.pc as usize] + 1) as nat, ..s })
            } else {
                Step::NoJump
            }
        } else {
            Step::Next(MState { pc: s.pc + 1, ..s })
        },
        Opcode::RB => if s.tape[s.cursor as int] != 0 {
            if table.contains_key(s.pc as usize) {
                Step::Next(MState { pc: (table[s.pc as usize] + 1) as nat, ..s })
            } else {
                Step::NoJump
            }
        } else {
            Step::Next(MState { pc: s.pc + 1, ..s })
        },
    }
}

/// The naive engine run for at most `n` steps from `s`.
pub open spec fn op_run(cmds: Seq<Opcode>, table: Map<usize, usize>, s: MState, n: nat) -> Outcome
    decreases n,
{
    if s.pc >= cmds.len() {
        Outcome::Halted(s)
    } else if n == 0 {
        Outcome::Running(s)
    } else {
        match op_step(cmds, table, s) {
            Step::Next(s2) => op_run(cmds, table, s2, (n - 1) as nat),
            _ => Outcome::Failed(s),
        }
    }
}

/// Extending a naive run that is still going by one step.
pub proof fn lemma_op_run_snoc(cmds: Seq<Opcode>, table: Map<usize, usize>, s0: MState, n: nat)
    requires
        op_run(cmds, table, s0, n) matches Outcome::Running(s),
    ensures
        op_run(cmds, table, s0, n) matches Outcome::Running(s) && op_run(cmds, table, s0, n + 1)
            == match op_step(cmds, table, s) {
            Step::Next(s2) => if s2.pc >= cmds.len() {
                Outcome::Halted(s2)
            } else {
                Outcome::Running(s2)
            },
            _ => Outcome::Failed(s),
        },
    decreases n,
{
    if n == 0 {
        match op_step(cmds, table, s0) {
            Step::Next(s2) => {
                assert(op_run(cmds, table, s2, 0) == if s2.pc >= cmds.len() {
                    Outcome::Halted(s2)
                } else {
                    Outcome::Running(s2)
                });
            },
            _ => {},
        }
    } else if s0.pc < cmds.len() {
        match op_step(cmds, table, s0) {
            Step::Next(s1) => {
                lemma_op_run_snoc(cmds, table, s1, (n - 1) as nat);
            },
            _ => {},
        }
    }
}

/// A naive run that has halted or failed keeps that outcome under any
/// larger step budget.
pub proof fn lemma_op_run_persists(
    cmds: Seq<Opcode>,
    table: Map<usize, usize>,
    s0: MState,
    n: nat,
    m: nat,
)
    requires
        n <= m,
        !(op_run(cmds, table, s0, n) matches Outcome::Running(_)),
    ensures
        op_run(cmds, table, s0, m) == op_run(cmds, table, s0, n),
    decreases n,
{
    if s0.pc < cmds.len() {
        match op_step(cmds, table, s0) {
            Step::Next(s1) => {
                lemma_op_run_persists(cmds, table, s1, (n - 1) as nat, (m - 1) as nat);
            },
            _ => {},
        }
    }
}

} // verus!
