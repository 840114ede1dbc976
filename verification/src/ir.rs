//! The coalesced intermediate representation and its builder: a single
//! left-to-right fold over the command stream that merges runs of identical
//! pointer/arithmetic commands into counted instructions and resolves loop
//! brackets into instruction-index jump targets.

use vstd::prelude::*;

use crate::Error;
use crate::opcode::Opcode;

verus! {

/// One coalesced instruction. Move counts accumulate without wraparound;
/// arithmetic amounts accumulate modulo 256, matching byte-cell semantics.
/// A jump target is the index of the matching bracket instruction; execution
/// that takes the jump lands on the instruction after the target.
#[derive(Debug, PartialEq, Eq, Structural, Clone, Copy)]
pub enum IR {
    /// Move the cursor left by the held count, clamping at cell zero.
    SHL(u32),
    /// Move the cursor right by the held count, growing the tape on demand.
    SHR(u32),
    /// Add the held amount to the cell at the cursor, modulo 256.
    ADD(u8),
    /// Subtract the held amount from the cell at the cursor, modulo 256.
    SUB(u8),
    /// Write the cell at the cursor to the output stream.
    PUTCHAR,
    /// Read one input byte into the cell at the cursor.
    GETCHAR,
    /// Jump past the matching `JNZ` when the cell at the cursor is zero.
    /// A loop-open still pending at end of input keeps the placeholder
    /// target `0`: if such a jump is ever taken, execution lands on
    /// instruction index 1.
    JIZ(u32),
    /// Jump back past the matching `JIZ` when the cell at the cursor is
    /// nonzero.
    JNZ(u32),
}

/// The builder's state: the instructions emitted so far and the LIFO stack
/// of indices of loop-opens whose targets are still unresolved.
pub ghost struct BuildSt {
    pub instrs: Seq<IR>,
    pub opens: Seq<u32>,
}

/// One step of the builder fold. A pointer or arithmetic command merges into
/// a trailing instruction of the same kind, else appends a fresh one with
/// count 1. A loop-open appends `JIZ(0)` and remembers its index; a
/// loop-close appends a `JNZ` aimed at the pending open and back-patches
/// that open's target, or fails when no open is pending.
pub open spec fn build_step(st: BuildSt, op: Opcode) -> Option<BuildSt> {
    let n = st.instrs.len();
    match op {
        Opcode::SHL => Some(
            if n > 0 && (st.instrs.last() matches IR::SHL(_)) {
                BuildSt {
                    instrs: st.instrs.update(
                        n - 1,
                        match st.instrs.last() {
                            IR::SHL(x) => IR::SHL((x + 1) as u32),
                            _ => st.instrs.last(),
                        },
                    ),
                    opens: st.opens,
                }
            } else {
                BuildSt { instrs: st.instrs.push(IR::SHL(1)), opens: st.opens }
            },
        ),
        Opcode::SHR => Some(
            if n > 0 && (st.instrs.last() matches IR::SHR(_)) {
                BuildSt {
                    instrs: st.instrs.update(
                        n - 1,
                        match st.instrs.last() {
                            IR::SHR(x) => IR::SHR((x + 1) as u32),
                            _ => st.instrs.last(),
                        },
                    ),
                    opens: st.opens,
                }
            } else {
                BuildSt { instrs: st.instrs.push(IR::SHR(1)), opens: st.opens }
            },
        ),
        Opcode::ADD => Some(
            if n > 0 && (st.instrs.last() matches IR::ADD(_)) {
                BuildSt {
                    instrs: st.instrs.update(
                        n - 1,
                        match st.instrs.last() {
                            IR::ADD(x) => IR::ADD(((x + 1) % 256) as u8),
                            _ => st.instrs.last(),
                        },
                    ),
                    opens: st.opens,
                }
            } else {
                BuildSt { instrs: st.instrs.push(IR::ADD(1)), opens: st.opens }
            },
        ),
        Opcode::SUB => Some(
            if n > 0 && (st.instrs.last() matches IR::SUB(_)) {
                BuildSt {
                    instrs: st.instrs.update(
                        n - 1,
                        match st.instrs.last() {
                            IR::SUB(x) => IR::SUB(((x + 1) % 256) as u8),
                            _ => st.instrs.last(),
                        },
                    ),
                    opens: st.opens,
                }
            } else {
                BuildSt { instrs: st.instrs.push(IR::SUB(1)), opens: st.opens }
            },
        ),
        Opcode::PUTCHAR => Some(
            BuildSt { instrs: st.instrs.push(IR::PUTCHAR), opens: st.opens },
        ),
        Opcode::GETCHAR => Some(
            BuildSt { instrs: st.instrs.push(IR::GETCHAR), opens: st.opens },
        ),
        Opcode::LB => Some(
            BuildSt { instrs: st.instrs.push(IR::JIZ(0)), opens: st.opens.push(n as u32) },
        ),
        Opcode::RB => if st.opens.len() == 0 {
            None
        } else {
            let j = st.opens.last();
            let pushed = st.instrs.push(IR::JNZ(j));
            Some(
                BuildSt {
                    instrs: pushed.update(j as int, IR::JIZ((pushed.len() - 1) as u32)),
                    opens: st.opens.drop_last(),
                },
            )
        },
    }
}

/// The builder's state after the first `n` commands, or `None` once a
/// loop-close without a pending open has been seen.
pub open spec fn build_upto(cmds: Seq<Opcode>, n: nat) -> Option<BuildSt>
    recommends
        n <= cmds.len(),
    decreases n,
{
    if n == 0 {
        Some(BuildSt { instrs: Seq::empty(), opens: Seq::empty() })
    } else {
        match build_upto(cmds, (n - 1) as nat) {
            None => None,
            Some(st) => build_step(st, cmds[n - 1]),
        }
    }
}

/// The builder's result on a whole command sequence.
pub open spec fn build_spec(cmds: Seq<Opcode>) -> Option<BuildSt> {
    build_upto(cmds, cmds.len())
}

/// Once the builder fold has failed it stays failed.
pub proof fn lemma_build_none_persists(cmds: Seq<Opcode>, n: nat, m: nat)
    requires
        n <= m,
        build_upto(cmds, n) is None,
    ensures
        build_upto(cmds, m) is None,
    decreases m,
{
    if m > n {
        lemma_build_none_persists(cmds, n, (m - 1) as nat);
    }
}

/// A builder state is well formed when every pending loop-open index names
/// an existing instruction.
pub open spec fn build_wf(st: BuildSt) -> bool {
    forall|k: int| 0 <= k < st.opens.len() ==> (#[trigger] st.opens[k]) < st.instrs.len()
}

/// Every jump target names an instruction of the program: back-patched
/// targets point at the matching bracket, and the placeholder target `0` of
/// a still-pending loop-open is an index of the nonempty program around it.
pub open spec fn jump_targets_ok(code: Seq<IR>) -> bool {
    forall|k: int|
        0 <= k < code.len() ==> match #[trigger] code[k] {
            IR::JIZ(t) => (t as nat) < code.len(),
            IR::JNZ(t) => (t as nat) < code.len(),
            _ => true,
        }
}

/// The builder never emits more instructions than it has read commands, and
/// its pending loop-open indices always name existing instructions.
pub proof fn lemma_build_len(cmds: Seq<Opcode>, n: nat)
    requires
        build_upto(cmds, n) matches Some(st),
    ensures
        build_upto(cmds, n) matches Some(st) && st.instrs.len() <= n && build_wf(st)
            && jump_targets_ok(st.instrs),
    decreases n,
{
    if n > 0 {
        assert(build_upto(cmds, (n - 1) as nat) is Some);
        lemma_build_len(cmds, (n - 1) as nat);
        let prev = build_upto(cmds, (n - 1) as nat)->Some_0;
        let cur = build_upto(cmds, n)->Some_0;
        assert(cur.instrs.len() <= prev.instrs.len() + 1);
        assert(build_wf(cur));
        assert(jump_targets_ok(cur.instrs));
    }
}

/// The tokenizer's bracket pass and the IR builder fail on exactly the same
/// command sequences: both push one pending open per loop-open and pop one
/// per loop-close, so their stacks always have equal height.
pub proof fn lemma_table_build_agree(cmds: Seq<Opcode>, n: nat)
    ensures
        match (crate::opcode::table_upto(cmds, n), build_upto(cmds, n)) {
            (Some(t), Some(b)) => t.opens.len() == b.opens.len(),
            (None, None) => true,
            _ => false,
        },
    decreases n,
{
    if n > 0 {
        lemma_table_build_agree(cmds, (n - 1) as nat);
    }
}

/// The coalesced program.
pub struct Code {
    pub instructions: Vec<IR>,
}

impl Code {
    /// Fold a command sequence into coalesced instructions, resolving the
    /// loop brackets. Fails with `UnmatchedBracket` exactly when some
    /// loop-close has no pending loop-open; loop-opens left pending at end
    /// of input are accepted and keep their placeholder target `0`.
    pub fn from(data: Vec<Opcode>) -> (r: Result<Code, Error>)
        requires
            data@.len() <= u32::MAX,
        ensures
            match r {
                Ok(code) => build_spec(data@) matches Some(st) && code.instructions@ == st.instrs,
                Err(e) => e == Error::UnmatchedBracket && build_spec(data@) is None,
            },
    {
        let mut instructions: Vec<IR> = Vec::new();
        let mut jump_stack: Vec<u32> = Vec::new();
        let mut i: usize = 0;
        while i < data.len()
            invariant
                i <= data.len(),
                data@.len() <= u32::MAX,
                build_upto(data@, i as nat) matches Some(st) && st.instrs == instructions@
                    && st.opens == jump_stack@,
                instructions@.len() <= i,
                forall|k: int|
                    0 <= k < instructions@.len() ==> #[trigger] ir_count(instructions@[k])
                        <= i,
                forall|k: int|
                    0 <= k < jump_stack@.len() ==> #[trigger] jump_stack@[k]
                        < instructions@.len(),
            decreases data.len() - i,
        {
            let n = instructions.len();
            proof {
                if n > 0 {
                    assert(ir_count(instructions@[n - 1]) <= i);
                }
            }
            match data[i] {
                Opcode::SHL => {
                    let mut merged = false;
                    if n > 0 {
                        match instructions[n - 1] {
                            IR::SHL(x) => {
                                instructions.set(n - 1, IR::SHL(x + 1));
                                merged = true;
                            },
                            _ => {},
                        }
                    }
                    if !merged {
                        instructions.push(IR::SHL(1));
                    }
                },
                Opcode::SHR => {
                    let mut merged = false;
                    if n > 0 {
                        match instructions[n - 1] {
                            IR::SHR(x) => {
                                instructions.set(n - 1, IR::SHR(x + 1));
                                merged = true;
                            },
                            _ => {},
                        }
                    }
                    if !merged {
                        instructions.push(IR::SHR(1));
                    }
                },
                Opcode::ADD => {
                    let mut merged = false;
                    if n > 0 {
                        match instructions[n - 1] {
                            IR::ADD(x) => {
                                instructions.set(n - 1, IR::ADD(x.wrapping_add(1)));
                                merged = true;
                            },
                            _ => {},
                        }
                    }
                    if !merged {
                        instructions.push(IR::ADD(1));
                    }
                },
                Opcode::SUB => {
                    let mut merged = false;
                    if n > 0 {
                        match instructions[n - 1] {
                            IR::SUB(x) => {
                                instructions.set(n - 1, IR::SUB(x.wrapping_add(1)));
                                merged = true;
                            },
                            _ => {},
                        }
                    }
                    if !merged {
                        instructions.push(IR::SUB(1));
                    }
                },
                Opcode::PUTCHAR => {
                    instructions.push(IR::PUTCHAR);
                },
                Opcode::GETCHAR => {
                    instructions.push(IR::GETCHAR);
                },
                Opcode::LB => {
                    instructions.push(IR::JIZ(0));
                    jump_stack.push((instructions.len() - 1) as u32);
                },
                Opcode::RB => {
                    match jump_stack.pop() {
                        Some(j) => {
                            instructions.push(IR::JNZ(j));
                            let target = (instructions.len() - 1) as u32;
                            instructions.set(j as usize, IR::JIZ(target));
                        },
                        None => {
                            proof {
                                assert(build_upto(data@, (i + 1) as nat) is None);
                                lemma_build_none_persists(data@, (i + 1) as nat, data@.len());
                            }
                            return Err(Error::UnmatchedBracket);
                        },
                    }
                },
            }
            i = i + 1;
        }
        Ok(Code { instructions })
    }
}

/// The count field of a counted move instruction, zero for the rest; the
/// builder keeps every such count no larger than the number of commands
/// read, so incrementing one cannot overflow.
pub open spec fn ir_count(instr: IR) -> nat {
    match instr {
        IR::SHL(x) => x as nat,
        IR::SHR(x) => x as nat,
        _ => 0,
    }
}

} // verus!
