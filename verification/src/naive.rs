//! The naive interpreter: a direct dispatcher over the raw command stream,
//! one command per step, using the bracket jump table for loops. It is the
//! baseline the optimized engine is measured against; input and output are
//! plain byte sequences, so a whole run is a pure function of the source,
//! the input stream and the step budget.

use vstd::prelude::*;

use crate::Error;
use crate::RunResult;
use crate::machine::{
    MState, Outcome, Step, add_wrap, grow_tape, init_state, lemma_grow_tape_push,
    lemma_op_run_persists, lemma_op_run_snoc, op_run, op_step, sub_wrap,
};
use crate::opcode;

verus! {

broadcast use vstd::std_specs::hash::group_hash_axioms;

/// The naive engine; `stack` is its tape, initially one zero cell.
pub struct Interpreter {
    pub stack: Vec<u8>,
}

impl Interpreter {
    /// A fresh engine with a one-cell zeroed tape.
    pub fn new() -> (r: Interpreter)
        ensures
            r.stack@ == seq![0u8],
    {
        Interpreter { stack: vec![0u8] }
    }

    /// Tokenize `data` and dispatch it command by command against the tape,
    /// with `input` as the input stream and at most `max_steps` commands
    /// executed. The result is exactly what the small-step semantics says
    /// the machine reaches within that budget. `UnmatchedBracket` comes
    /// either from tokenizing (a loop-close with no pending open, before
    /// anything runs) or from a taken jump at a loop-open that the table
    /// has no entry for (one left pending at end of input);
    /// `InputExhausted` from a read that finds no input left.
    #[verifier::rlimit(60)]
    pub fn run(&mut self, data: Vec<u8>, input: Vec<u8>, max_steps: u64) -> (r: Result<
        RunResult,
        Error,
    >)
        requires
            old(self).stack@.len() >= 1,
        ensures
            ({
                let cmds = opcode::tokens_spec(data@);
                let init = init_state(old(self).stack@, input@);
                match opcode::table_spec(cmds) {
                    None => r == Err::<RunResult, Error>(Error::UnmatchedBracket)
                        && final(self).stack@ == old(self).stack@,
                    Some(tst) => match op_run(cmds, tst.table, init, max_steps as nat) {
                        Outcome::Halted(t) => (r matches Ok(RunResult::Done(out)) && out@
                            == t.output) && final(self).stack@ == t.tape,
                        Outcome::Running(t) => (r matches Ok(RunResult::OutOfSteps(out)) && out@
                            == t.output) && final(self).stack@ == t.tape,
                        Outcome::Failed(t) => final(self).stack@ == t.tape
                            && r == Err::<RunResult, Error>(
                            if (op_step(cmds, tst.table, t) matches Step::NoInput) {
                                Error::InputExhausted
                            } else {
                                Error::UnmatchedBracket
                            },
                        ),
                    },
                }
            }),
    {
        let ghost data_view = data@;
        let ghost cmds = opcode::tokens_spec(data@);
        let ghost init = init_state(old(self).stack@, input@);
        let code = match opcode::Code::from(data) {
            Ok(c) => c,
            Err(_) => {
                return Err(Error::UnmatchedBracket);
            },
        };
        let ghost table = opcode::table_spec(cmds)->Some_0.table;
        proof {
            opcode::lemma_table_bounds(cmds, cmds.len());
        }

        let code_len = code.instructions.len();
        let mut pc: usize = 0;
        let mut sp: usize = 0;
        let mut rp: usize = 0;
        let mut out: Vec<u8> = Vec::new();
        let mut steps: u64 = 0;

        while pc < code_len && steps < max_steps
            invariant
                cmds == opcode::tokens_spec(data_view),
                data_view == data@,
                init == init_state(old(self).stack@, input@),
                opcode::table_spec(cmds) matches Some(tst) && tst.table == table,
                forall|k: usize| #[trigger] table.contains_key(k) ==> k < cmds.len()
                    && table[k] < cmds.len(),
                code.instructions@ == cmds,
                code.jump_table@ == table,
                code_len == cmds.len(),
                sp < self.stack@.len(),
                rp <= input@.len(),
                steps <= max_steps,
                op_run(cmds, table, init, steps as nat) == (if (pc as nat) < cmds.len() {
                    Outcome::Running(
                        MState {
                            tape: self.stack@,
                            cursor: sp as nat,
                            pc: pc as nat,
                            input: input@,
                            read: rp as nat,
                            output: out@,
                        },
                    )
                } else {
                    Outcome::Halted(
                        MState {
                            tape: self.stack@,
                            cursor: sp as nat,
                            pc: pc as nat,
                            input: input@,
                            read: rp as nat,
                            output: out@,
                        },
                    )
                }),
            decreases max_steps - steps,
        {
            let ghost cur = MState {
                tape: self.stack@,
                cursor: sp as nat,
                pc: pc as nat,
                input: input@,
                read: rp as nat,
                output: out@,
            };
            proof {
                lemma_op_run_snoc(cmds, table, init, steps as nat);
            }
            match code.instructions[pc] {
                opcode::Opcode::SHL => {
                    if sp != 0 {
                        sp = sp - 1;
                    }
                },
                opcode::Opcode::SHR => {
                    proof {
                        lemma_grow_tape_push(self.stack@, sp as nat);
                    }
                    let len = self.stack.len();
                    sp = sp + 1;
                    if sp == len {
                        self.stack.push(0);
                    }
                },
                opcode::Opcode::ADD => {
                    let b = self.stack[sp];
                    self.stack.set(sp, b.wrapping_add(1));
                    proof {
                        assert(b.wrapping_add(1) == add_wrap(b, 1));
                    }
                },
                opcode::Opcode::SUB => {
                    let b = self.stack[sp];
                    self.stack.set(sp, b.wrapping_sub(1));
                    proof {
                        assert(b.wrapping_sub(1) == sub_wrap(b, 1));
                    }
                },
                opcode::Opcode::PUTCHAR => {
                    out.push(self.stack[sp]);
                },
                opcode::Opcode::GETCHAR => {
                    if rp < input.len() {
                        let b = input[rp];
                        self.stack.set(sp, b);
                        rp = rp + 1;
                    } else {
                        proof {
                            assert(op_run(cmds, table, init, (steps + 1) as nat)
                                == Outcome::Failed(cur));
                            lemma_op_run_persists(
                                cmds,
                                table,
                                init,
                                (steps + 1) as nat,
                                max_steps as nat,
                            );
                        }
                        return Err(Error::InputExhausted);
                    }
                },
                opcode::Opcode::LB => {
                    if self.stack[sp] == 0 {
                        match code.jump_table.get(&pc) {
                            Some(j) => {
                                pc = *j;
                            },
                            None => {
                                proof {
                                    assert(op_run(cmds, table, init, (steps + 1) as nat)
                                        == Outcome::Failed(cur));
                                    lemma_op_run_persists(
                                        cmds,
                                        table,
                                        init,
                                        (steps + 1) as nat,
                                        max_steps as nat,
                                    );
                                }
                                return Err(Error::UnmatchedBracket);
                            },
                        }
                    }
                },
                opcode::Opcode::RB => {
                    if self.stack[sp] != 0 {
                        match code.jump_table.get(&pc) {
                            Some(j) => {
                                pc = *j;
                            },
                            None => {
                                proof {
                                    assert(op_run(cmds, table, init, (steps + 1) as nat)
                                        == Outcome::Failed(cur));
                                    lemma_op_run_persists(
                                        cmds,
                                        table,
                                        init,
                                        (steps + 1) as nat,
                                        max_steps as nat,
                                    );
                                }
                                return Err(Error::UnmatchedBracket);
                            },
                        }
                    }
                },
            }
            pc = pc + 1;
            steps = steps + 1;
        }
        proof {
            if (pc as nat) >= cmds.len() {
                lemma_op_run_persists(cmds, table, init, steps as nat, max_steps as nat);
            }
        }
        if pc >= code_len {
            Ok(RunResult::Done(out))
        } else {
            Ok(RunResult::OutOfSteps(out))
        }
    }
}

} // verus!
