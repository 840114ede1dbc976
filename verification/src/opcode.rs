//! The eight primitive commands, the tokenizer that filters raw source
//! bytes down to them, and the bracket jump table used by the naive
//! interpreter.

use vstd::prelude::*;

use crate::Error;
use std::collections::HashMap;

verus! {

broadcast use vstd::std_specs::hash::group_hash_axioms;

/// One primitive command, decoded from a single source byte.
#[derive(Debug, PartialEq, Eq, Structural, Clone, Copy)]
pub enum Opcode {
    /// `>`: move the cursor one cell to the right.
    SHR,
    /// `<`: move the cursor one cell to the left.
    SHL,
    /// `+`: increment the byte at the cursor, wrapping modulo 256.
    ADD,
    /// `-`: decrement the byte at the cursor, wrapping modulo 256.
    SUB,
    /// `.`: write the byte at the cursor to the output stream.
    PUTCHAR,
    /// `,`: read one byte from the input stream into the cell at the cursor.
    GETCHAR,
    /// `[`: jump past the matching `]` if the byte at the cursor is zero.
    LB,
    /// `]`: jump back past the matching `[` if the byte at the cursor is nonzero.
    RB,
}

/// Whether a source byte is one of the eight command bytes.
pub open spec fn is_command_byte(b: u8) -> bool {
    b == 0x3E || b == 0x3C || b == 0x2B || b == 0x2D || b == 0x2E || b == 0x2C || b == 0x5B
        || b == 0x5D
}

/// The command a recognized source byte stands for.
pub open spec fn opcode_of(b: u8) -> Opcode
    recommends
        is_command_byte(b),
{
    if b == 0x3E {
        Opcode::SHR
    } else if b == 0x3C {
        Opcode::SHL
    } else if b == 0x2B {
        Opcode::ADD
    } else if b == 0x2D {
        Opcode::SUB
    } else if b == 0x2E {
        Opcode::PUTCHAR
    } else if b == 0x2C {
        Opcode::GETCHAR
    } else if b == 0x5B {
        Opcode::LB
    } else {
        Opcode::RB
    }
}

/// The source byte a command is written as.
pub open spec fn byte_of(op: Opcode) -> u8 {
    match op {
        Opcode::SHR => 0x3E,
        Opcode::SHL => 0x3C,
        Opcode::ADD => 0x2B,
        Opcode::SUB => 0x2D,
        Opcode::PUTCHAR => 0x2E,
        Opcode::GETCHAR => 0x2C,
        Opcode::LB => 0x5B,
        Opcode::RB => 0x5D,
    }
}

impl Opcode {
    /// Decode one source byte; bytes other than the eight commands give `None`.
    pub fn from(u: u8) -> (r: Option<Opcode>)
        ensures
            r == if is_command_byte(u) {
                Some(opcode_of(u))
            } else {
                None::<Opcode>
            },
    {
        match u {
            0x3E => Some(Opcode::SHR),
            0x3C => Some(Opcode::SHL),
            0x2B => Some(Opcode::ADD),
            0x2D => Some(Opcode::SUB),
            0x2E => Some(Opcode::PUTCHAR),
            0x2C => Some(Opcode::GETCHAR),
            0x5B => Some(Opcode::LB),
            0x5D => Some(Opcode::RB),
            _ => None,
        }
    }

    /// Encode a command back to its source byte.
    pub fn into(self) -> (r: u8)
        ensures
            r == byte_of(self),
            is_command_byte(r),
            opcode_of(r) == self,
    {
        match self {
            Opcode::SHR => 0x3E,
            Opcode::SHL => 0x3C,
            Opcode::ADD => 0x2B,
            Opcode::SUB => 0x2D,
            Opcode::PUTCHAR => 0x2E,
            Opcode::GETCHAR => 0x2C,
            Opcode::LB => 0x5B,
            Opcode::RB => 0x5D,
        }
    }
}

/// The command sequence a raw byte sequence tokenizes to: the recognized
/// command bytes, decoded, in source order; every other byte is dropped.
pub open spec fn tokens_spec(data: Seq<u8>) -> Seq<Opcode>
    decreases data.len(),
{
    if data.len() == 0 {
        Seq::empty()
    } else {
        let rest = tokens_spec(data.drop_last());
        if is_command_byte(data.last()) {
            rest.push(opcode_of(data.last()))
        } else {
            rest
        }
    }
}

/// Tokenizing never yields more commands than there were bytes.
pub proof fn lemma_tokens_len(data: Seq<u8>)
    ensures
        tokens_spec(data).len() <= data.len(),
    decreases data.len(),
{
    if data.len() > 0 {
        lemma_tokens_len(data.drop_last());
    }
}

/// The state of the single left-to-right bracket-matching pass: the table
/// built so far and the LIFO stack of pending loop-open indices.
pub ghost struct TableSt {
    pub table: Map<usize, usize>,
    pub opens: Seq<usize>,
}

/// One step of bracket matching at command index `i`: a loop-open is pushed,
/// a loop-close pops its partner and records both directions in the table;
/// a close with no pending open is the failure case.
pub open spec fn table_step(st: TableSt, op: Opcode, i: usize) -> Option<TableSt> {
    match op {
        Opcode::LB => Some(TableSt { table: st.table, opens: st.opens.push(i) }),
        Opcode::RB => if st.opens.len() == 0 {
            None
        } else {
            let j = st.opens.last();
            Some(
                TableSt {
                    table: st.table.insert(j, i).insert(i, j),
                    opens: st.opens.drop_last(),
                },
            )
        },
        _ => Some(st),
    }
}

/// The bracket-matching state after the first `n` commands, or `None` once a
/// loop-close without a pending open has been seen.
pub open spec fn table_upto(cmds: Seq<Opcode>, n: nat) -> Option<TableSt>
    recommends
        n <= cmds.len(),
    decreases n,
{
    if n == 0 {
        Some(TableSt { table: Map::empty(), opens: Seq::empty() })
    } else {
        match table_upto(cmds, (n - 1) as nat) {
            None => None,
            Some(st) => table_step(st, cmds[n - 1], (n - 1) as usize),
        }
    }
}

/// The bracket table of a whole command sequence.
pub open spec fn table_spec(cmds: Seq<Opcode>) -> Option<TableSt> {
    table_upto(cmds, cmds.len())
}

/// Once the bracket pass has failed it stays failed.
pub proof fn lemma_table_none_persists(cmds: Seq<Opcode>, n: nat, m: nat)
    requires
        n <= m,
        table_upto(cmds, n) is None,
    ensures
        table_upto(cmds, m) is None,
    decreases m,
{
    if m > n {
        lemma_table_none_persists(cmds, n, (m - 1) as nat);
    }
}

/// Every index in the bracket table and on the pending stack names a
/// command already read.
pub proof fn lemma_table_bounds(cmds: Seq<Opcode>, n: nat)
    requires
        table_upto(cmds, n) matches Some(st),
    ensures
        table_upto(cmds, n) matches Some(st) && (forall|k: usize|
            #[trigger] st.table.contains_key(k) ==> k < n && st.table[k] < n) && (forall|i: int|
            0 <= i < st.opens.len() ==> (#[trigger] st.opens[i]) < n),
    decreases n,
{
    if n > 0 {
        assert(table_upto(cmds, (n - 1) as nat) is Some);
        lemma_table_bounds(cmds, (n - 1) as nat);
    }
}

/// A tokenized program: its commands and the loop jump table pairing each
/// loop-open index with its matching loop-close index and vice versa.
pub struct Code {
    pub instructions: Vec<Opcode>,
    pub jump_table: HashMap<usize, usize>,
}

impl Code {
    /// Tokenize raw source bytes and match the loop brackets in one pass.
    /// Fails with `UnmatchedBracket` exactly when some loop-close has no
    /// pending loop-open; pending opens left at the end are not rejected.
    pub fn from(data: Vec<u8>) -> (r: Result<Code, Error>)
        ensures
            ({
                let cmds = tokens_spec(data@);
                match r {
                    Ok(code) => code.instructions@ == cmds && (table_spec(cmds) matches Some(st)
                        && code.jump_table@ == st.table),
                    Err(e) => e == Error::UnmatchedBracket && table_spec(cmds) is None,
                }
            }),
    {
        let mut instructions: Vec<Opcode> = Vec::new();
        let mut i: usize = 0;
        while i < data.len()
            invariant
                i <= data.len(),
                instructions@ == tokens_spec(data@.take(i as int)),
            decreases data.len() - i,
        {
            proof {
                assert(data@.take(i + 1).drop_last() =~= data@.take(i as int));
            }
            match Opcode::from(data[i]) {
                Some(op) => instructions.push(op),
                None => {},
            }
            i = i + 1;
        }
        proof {
            assert(data@.take(data@.len() as int) =~= data@);
        }

        let ghost cmds = tokens_spec(data@);
        let mut jump_stack: Vec<usize> = Vec::new();
        let mut jump_table: HashMap<usize, usize> = HashMap::new();
        let mut k: usize = 0;
        while k < instructions.len()
            invariant
                k <= instructions.len(),
                instructions@ == cmds,
                cmds == tokens_spec(data@),
                table_upto(cmds, k as nat) matches Some(st) && st.table == jump_table@
                    && st.opens == jump_stack@,
            decreases instructions.len() - k,
        {
            let op = instructions[k];
            match op {
                Opcode::LB => {
                    jump_stack.push(k);
                },
                Opcode::RB => {
                    match jump_stack.pop() {
                        Some(j) => {
                            jump_table.insert(j, k);
                            jump_table.insert(k, j);
                        },
                        None => {
                            proof {
                                assert(table_upto(cmds, (k + 1) as nat) is None);
                                lemma_table_none_persists(cmds, (k + 1) as nat, cmds.len());
                            }
                            return Err(Error::UnmatchedBracket);
                        },
                    }
                },
                _ => {},
            }
            k = k + 1;
        }
        Ok(Code { instructions, jump_table })
    }
}

} // verus!
