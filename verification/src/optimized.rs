//! The optimized interpreter: tokenizes the source, builds the coalesced
//! IR, and executes it against a growable tape. Input and output are plain
//! byte sequences, so a whole run is a pure function of the source, the
//! input stream and the step budget.

use vstd::prelude::*;

use crate::Error;
use crate::RunResult;
use crate::ir;
use crate::machine::{
    MState, Outcome, add_wrap, grow_tape, init_state, ir_run, lemma_grow_tape_push,
    lemma_ir_run_persists, lemma_ir_run_snoc, sub_wrap,
};
use crate::opcode;

verus! {

/// The optimized engine; `stack` is its tape, initially one zero cell.
pub struct Interpreter {
    pub stack: Vec<u8>,
}

impl Interpreter {
    /// A fresh engine with a one-cell zeroed tape.
    pub fn new() -> (r: Interpreter)
        ensures
            r.stack@ == seq![0u8],
    {
        Interpreter { stack: vec![0u8] }
    }

    /// Compile `data` to coalesced IR and run it against the tape, with
    /// `input` as the input stream and at most `max_steps` instructions
    /// executed. The result is exactly what the small-step semantics says
    /// the machine reaches within that budget: the output stream on a halt,
    /// the output so far when the budget runs out, `InputExhausted` when a
    /// read finds no input left, and `UnmatchedBracket` (before any
    /// instruction runs, the tape untouched) exactly when some loop-close
    /// has no pending open.
    #[verifier::rlimit(60)]
    pub fn run(&mut self, data: Vec<u8>, input: Vec<u8>, max_steps: u64) -> (r: Result<
        RunResult,
        Error,
    >)
        requires
            old(self).stack@.len() >= 1,
            data@.len() <= u32::MAX,
        ensures
            ({
                let cmds = opcode::tokens_spec(data@);
                let init = init_state(old(self).stack@, input@);
                match ir::build_spec(cmds) {
                    None => r == Err::<RunResult, Error>(Error::UnmatchedBracket)
                        && final(self).stack@ == old(self).stack@,
                    Some(bst) => match ir_run(bst.instrs, init, max_steps as nat) {
                        Outcome::Halted(t) => (r matches Ok(RunResult::Done(out)) && out@
                            == t.output) && final(self).stack@ == t.tape,
                        Outcome::Running(t) => (r matches Ok(RunResult::OutOfSteps(out)) && out@
                            == t.output) && final(self).stack@ == t.tape,
                        Outcome::Failed(t) => r == Err::<RunResult, Error>(Error::InputExhausted)
                            && final(self).stack@ == t.tape,
                    },
                }
            }),
    {
        let ghost data_view = data@;
        let ghost cmds = opcode::tokens_spec(data@);
        let ghost init = init_state(old(self).stack@, input@);
        proof {
            opcode::lemma_tokens_len(data@);
            ir::lemma_table_build_agree(cmds, cmds.len());
        }
        let opcode_code = match opcode::Code::from(data) {
            Ok(c) => c,
            Err(_) => {
                return Err(Error::UnmatchedBracket);
            },
        };
        let code = match ir::Code::from(opcode_code.instructions) {
            Ok(c) => c,
            Err(_) => {
                return Err(Error::UnmatchedBracket);
            },
        };
        let ghost irs = ir::build_spec(cmds)->Some_0.instrs;
        proof {
            ir::lemma_build_len(cmds, cmds.len());
        }

        let code_len = code.instructions.len();
        let mut pc: usize = 0;
        let mut sp: usize = 0;
        let mut rp: usize = 0;
        let mut out: Vec<u8> = Vec::new();
        let mut steps: u64 = 0;

        while pc < code_len && steps < max_steps
            invariant
                cmds == opcode::tokens_spec(data_view),
                data_view == data@,
                init == init_state(old(self).stack@, input@),
                ir::build_spec(cmds) matches Some(bst) && bst.instrs == irs,
                code.instructions@ == irs,
                code_len == code.instructions@.len(),
                ir::jump_targets_ok(irs),
                sp < self.stack@.len(),
                rp <= input@.len(),
                steps <= max_steps,
                ir_run(irs, init, steps as nat) == (if (pc as nat) < irs.len() {
                    Outcome::Running(
                        MState {
                            tape: self.stack@,
                            cursor: sp as nat,
                            pc: pc as nat,
                            input: input@,
                            read: rp as nat,
                            output: out@,
                        },
                    )
                } else {
                    Outcome::Halted(
                        MState {
                            tape: self.stack@,
                            cursor: sp as nat,
                            pc: pc as nat,
                            input: input@,
                            read: rp as nat,
                            output: out@,
                        },
                    )
                }),
            decreases max_steps - steps,
        {
            let ghost cur = MState {
                tape: self.stack@,
                cursor: sp as nat,
                pc: pc as nat,
                input: input@,
                read: rp as nat,
                output: out@,
            };
            proof {
                lemma_ir_run_snoc(irs, init, steps as nat);
            }
            match code.instructions[pc] {
                ir::IR::SHL(x) => {
                    sp = if (x as usize) <= sp {
                        sp - x as usize
                    } else {
                        0
                    };
                },
                ir::IR::SHR(x) => {
                    let ghost tape_b = self.stack@;
                    let ghost sp_b = sp as nat;
                    let mut k: u32 = 0;
                    while k < x
                        invariant
                            k <= x,
                            sp as nat == sp_b + k,
                            sp < self.stack@.len(),
                            self.stack@ == grow_tape(tape_b, (sp_b + k) as nat),
                        decreases x - k,
                    {
                        proof {
                            lemma_grow_tape_push(tape_b, (sp_b + k) as nat);
                        }
                        let len = self.stack.len();
                        sp = sp + 1;
                        if sp == len {
                            self.stack.push(0);
                        }
                        k = k + 1;
                    }
                },
                ir::IR::ADD(x) => {
                    let b = self.stack[sp];
                    self.stack.set(sp, b.wrapping_add(x));
                    proof {
                        assert(b.wrapping_add(x) == add_wrap(b, x));
                    }
                },
                ir::IR::SUB(x) => {
                    let b = self.stack[sp];
                    self.stack.set(sp, b.wrapping_sub(x));
                    proof {
                        assert(b.wrapping_sub(x) == sub_wrap(b, x));
                    }
                },
                ir::IR::PUTCHAR => {
                    out.push(self.stack[sp]);
                },
                ir::IR::GETCHAR => {
                    if rp < input.len() {
                        let b = input[rp];
                        self.stack.set(sp, b);
                        rp = rp + 1;
                    } else {
                        proof {
                            assert(ir_run(irs, init, (steps + 1) as nat) == Outcome::Failed(cur));
                            lemma_ir_run_persists(
                                irs,
                                init,
                                (steps + 1) as nat,
                                max_steps as nat,
                            );
                        }
                        return Err(Error::InputExhausted);
                    }
                },
                ir::IR::JIZ(t) => {
                    if self.stack[sp] == 0 {
                        proof {
                            assert((t as nat) < irs.len());
                        }
                        pc = t as usize;
                    }
                },
                ir::IR::JNZ(t) => {
                    if self.stack[sp] != 0 {
                        proof {
                            assert((t as nat) < irs.len());
                        }
                        pc = t as usize;
                    }
                },
            }
            pc = pc + 1;
            steps = steps + 1;
        }
        proof {
            if (pc as nat) >= irs.len() {
                lemma_ir_run_persists(irs, init, steps as nat, max_steps as nat);
            }
        }
        if pc >= code_len {
            Ok(RunResult::Done(out))
        } else {
            Ok(RunResult::OutOfSteps(out))
        }
    }
}

} // verus!
