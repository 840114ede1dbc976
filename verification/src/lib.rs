//! A compiler and execution pipeline for a minimal eight-command tape
//! language: a tokenizer that keeps only the eight command bytes, an IR
//! builder that coalesces runs of identical commands and resolves loop
//! brackets, two interpreters (a naive one over raw commands and an
//! optimized one over the coalesced IR), and a native x64 code generator
//! whose output is placed in executable memory through `dynasmrt`.

use vstd::prelude::*;

pub mod ir;
pub mod jit;
pub mod laws;
pub mod machine;
pub mod naive;
pub mod opcode;
pub mod optimized;

verus! {

/// The recoverable failures of compilation and execution.
#[derive(Debug, PartialEq, Eq, Structural, Clone, Copy)]
pub enum Error {
    /// A loop-close command had no pending loop-open.
    UnmatchedBracket,
    /// The input stream ran out while a read command was pending.
    InputExhausted,
    /// Memory for the executable code buffer could not be obtained.
    IoError,
}

/// What an interpreting engine produced within its step budget. The budget
/// makes every run provably finite; callers that want the behavior of an
/// unbounded run pass `u64::MAX`, a budget no real program exhausts.
#[derive(Debug)]
pub enum RunResult {
    /// The program ran to completion; the bytes it wrote, in order.
    Done(Vec<u8>),
    /// The step budget ran out first; the bytes written so far.
    OutOfSteps(Vec<u8>),
}

} // verus!
