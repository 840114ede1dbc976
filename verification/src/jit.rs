//! The native code generator: lowers the coalesced IR into one linear
//! block of x64 machine code operating on a fixed-size tape, as an explicit
//! code buffer of encoded instruction bytes with a label-resolution pass
//! folded into the emission loop. The bytes themselves are produced by
//! verified code; `dynasmrt` is used only at the very end, to place them in
//! executable memory.
//!
//! Register convention: `rcx` holds the current cell address throughout,
//! initialized from the first argument (the tape start) at entry, and saved
//! in `r12` across calls to the output intrinsic. The intrinsic's address
//! is an argument of code generation; the generated call passes the cell's
//! byte in the first argument register and preserves nothing else. A read
//! command emits no instructions at all: the native engine does not support
//! input, and leaves the cell as it was.

use vstd::prelude::*;

use crate::Error;
use crate::ir;
use crate::opcode;

verus! {

/// The most instructions one generated block may lower. Each instruction
/// encodes to at most 22 bytes, so this keeps every branch displacement of
/// the block within the signed 32-bit range of an x64 relative jump.
pub const MAX_PROGRAM: usize = 90000000;

/// The four little-endian bytes of a 32-bit word.
pub open spec fn le32(w: u32) -> Seq<u8> {
    seq![
        (w % 256) as u8,
        ((w / 256) % 256) as u8,
        ((w / 65536) % 256) as u8,
        ((w / 16777216) % 256) as u8,
    ]
}

/// The eight little-endian bytes of a 64-bit word.
pub open spec fn le64(w: u64) -> Seq<u8> {
    seq![
        (w % 256) as u8,
        ((w / 256) % 256) as u8,
        ((w / 65536) % 256) as u8,
        ((w / 16777216) % 256) as u8,
        ((w / 4294967296) % 256) as u8,
        ((w / 1099511627776) % 256) as u8,
        ((w / 281474976710656) % 256) as u8,
        ((w / 72057594037927936) % 256) as u8,
    ]
}

/// The 32-bit two's-complement displacement that moves execution from
/// position `from` (the end of the jump instruction) to position `to`.
pub open spec fn rel32(from: nat, to: nat) -> u32 {
    if to >= from {
        ((to - from) as nat % 0x1_0000_0000) as u32
    } else {
        ((0x1_0000_0000 - ((from - to) as nat % 0x1_0000_0000)) % 0x1_0000_0000) as u32
    }
}

/// A sequence with the four little-endian bytes of `w` written at `pos`.
pub open spec fn write4(s: Seq<u8>, pos: int, w: u32) -> Seq<u8> {
    s.update(pos, le32(w)[0]).update(pos + 1, le32(w)[1]).update(pos + 2, le32(w)[2]).update(
        pos + 3,
        le32(w)[3],
    )
}

/// The emitter's state: the code buffer so far and the LIFO stack of loop
/// frames, each the body-start position of a pending loop and the position
/// of its loop-open branch's displacement field, still to be back-patched.
/// The stack is transient compiler state of the generation pass, not part
/// of the IR.
pub ghost struct JState {
    pub code: Seq<u8>,
    pub frames: Seq<(usize, usize)>,
}

/// One step of the emitter fold over the IR at intrinsic address
/// `intrinsic`. Moves adjust `rcx` by an immediate; arithmetic adds to or
/// subtracts from the byte at `[rcx]`; output saves `rcx` in `r12`, loads
/// the cell byte into `rdi`, calls the intrinsic through `rax` and restores
/// `rcx`; input emits nothing. A loop-open compares the cell with zero,
/// branches (displacement patched later) past the body when it is zero, and
/// pushes a frame; a loop-close compares, branches back to the body start
/// when nonzero, and patches the open's displacement to land here. A
/// loop-close with no pending frame emits no branch; the IR builder never
/// produces such a sequence. A loop-open never closed keeps displacement 0:
/// its branch falls through into the body.
pub open spec fn jit_step(st: JState, instr: ir::IR, intrinsic: u64) -> JState {
    let base = st.code.len();
    match instr {
        ir::IR::SHL(x) => JState {
            code: st.code + seq![0x48u8, 0x81u8, 0xE9u8] + le32(x),
            frames: st.frames,
        },
        ir::IR::SHR(x) => JState {
            code: st.code + seq![0x48u8, 0x81u8, 0xC1u8] + le32(x),
            frames: st.frames,
        },
        ir::IR::ADD(x) => JState { code: st.code + seq![0x80u8, 0x01u8, x], frames: st.frames },
        ir::IR::SUB(x) => JState { code: st.code + seq![0x80u8, 0x29u8, x], frames: st.frames },
        ir::IR::PUTCHAR => JState {
            code: st.code + seq![0x49u8, 0x89u8, 0xCCu8, 0x48u8, 0x0Fu8, 0xB6u8, 0x39u8, 0x48u8, 0xB8u8]
                + le64(intrinsic) + seq![0xFFu8, 0xD0u8, 0x4Cu8, 0x89u8, 0xE1u8],
            frames: st.frames,
        },
        ir::IR::GETCHAR => st,
        ir::IR::JIZ(_) => JState {
            code: st.code + seq![0x80u8, 0x39u8, 0x00u8, 0x0Fu8, 0x84u8] + le32(0),
            frames: st.frames.push((((base + 9) as usize), ((base + 5) as usize))),
        },
        ir::IR::JNZ(_) => if st.frames.len() == 0 {
            st
        } else {
            let body_start = st.frames.last().0;
            let fixup = st.frames.last().1;
            let code1 = st.code + seq![0x80u8, 0x39u8, 0x00u8, 0x0Fu8, 0x85u8] + le32(
                rel32((base + 9) as nat, body_start as nat),
            );
            JState {
                code: write4(code1, fixup as int, rel32((fixup + 4) as nat, code1.len())),
                frames: st.frames.drop_last(),
            }
        },
    }
}

/// The emitter's state after the first `n` instructions; the code buffer
/// opens with `mov rcx, rdi`, loading the tape start into the cell
/// register.
pub open spec fn jit_upto(code: Seq<ir::IR>, intrinsic: u64, n: nat) -> JState
    recommends
        n <= code.len(),
    decreases n,
{
    if n == 0 {
        JState { code: seq![0x48u8, 0x89u8, 0xF9u8], frames: Seq::empty() }
    } else {
        jit_step(jit_upto(code, intrinsic, (n - 1) as nat), code[n - 1], intrinsic)
    }
}

/// The whole generated block: prologue, the lowered instructions, and a
/// final `ret`.
pub open spec fn jit_spec(code: Seq<ir::IR>, intrinsic: u64) -> Seq<u8> {
    jit_upto(code, intrinsic, code.len()).code + seq![0xC3u8]
}

/// Append the four little-endian bytes of `w`.
fn push_le32(buf: &mut Vec<u8>, w: u32)
    ensures
        final(buf)@ == old(buf)@ + le32(w),
{
    buf.push((w % 256) as u8);
    buf.push(((w / 256) % 256) as u8);
    buf.push(((w / 65536) % 256) as u8);
    buf.push(((w / 16777216) % 256) as u8);
    proof {
        assert(buf@ =~= old(buf)@ + le32(w));
    }
}

/// Append the eight little-endian bytes of `w`.
fn push_le64(buf: &mut Vec<u8>, w: u64)
    ensures
        final(buf)@ == old(buf)@ + le64(w),
{
    buf.push((w % 256) as u8);
    buf.push(((w / 256) % 256) as u8);
    buf.push(((w / 65536) % 256) as u8);
    buf.push(((w / 16777216) % 256) as u8);
    buf.push(((w / 4294967296) % 256) as u8);
    buf.push(((w / 1099511627776) % 256) as u8);
    buf.push(((w / 281474976710656) % 256) as u8);
    buf.push(((w / 72057594037927936) % 256) as u8);
    proof {
        assert(buf@ =~= old(buf)@ + le64(w));
    }
}

/// The displacement from `from` to `to`, as the 32-bit word to encode.
fn rel32_exec(from: usize, to: usize) -> (w: u32)
    requires
        from <= 0x7FFFFFFF,
        to <= 0x7FFFFFFF,
    ensures
        w == rel32(from as nat, to as nat),
{
    if to >= from {
        (to - from) as u32
    } else {
        (0x100000000u64 - ((from - to) as u64)) as u32
    }
}

/// Overwrite the four bytes at `pos` with the little-endian bytes of `w`.
fn patch_le32(buf: &mut Vec<u8>, pos: usize, w: u32)
    requires
        pos + 4 <= old(buf)@.len(),
    ensures
        final(buf)@ == write4(old(buf)@, pos as int, w),
{
    let len = buf.len();
    proof {
        assert(pos + 4 <= len);
    }
    buf.set(pos, (w % 256) as u8);
    buf.set(pos + 1, ((w / 256) % 256) as u8);
    buf.set(pos + 2, ((w / 65536) % 256) as u8);
    buf.set(pos + 3, ((w / 16777216) % 256) as u8);
}

/// Lower a coalesced program to one block of x64 machine code that runs it
/// against the tape whose start address is the block's first argument,
/// calling the output intrinsic at address `intrinsic` for each output
/// command.
#[verifier::rlimit(80)]
pub fn compile(code: &ir::Code, intrinsic: u64) -> (r: Vec<u8>)
    requires
        code.instructions@.len() <= MAX_PROGRAM,
    ensures
        r@ == jit_spec(code.instructions@, intrinsic),
{
    let ghost irs = code.instructions@;
    let n = code.instructions.len();
    let mut buf: Vec<u8> = Vec::new();
    let mut frames: Vec<(usize, usize)> = Vec::new();
    buf.push(0x48);
    buf.push(0x89);
    buf.push(0xF9);
    proof {
        assert(buf@ =~= jit_upto(irs, intrinsic, 0).code);
    }
    let mut i: usize = 0;
    while i < n
        invariant
            irs == code.instructions@,
            n == irs.len(),
            n <= MAX_PROGRAM,
            i <= n,
            buf@ == jit_upto(irs, intrinsic, i as nat).code,
            frames@ == jit_upto(irs, intrinsic, i as nat).frames,
            buf@.len() <= 3 + 22 * i,
            forall|f: int|
                0 <= f < frames@.len() ==> (#[trigger] frames@[f]).1 + 4 <= buf@.len()
                    && frames@[f].0 <= buf@.len(),
        decreases n - i,
    {
        let ghost st = jit_upto(irs, intrinsic, i as nat);
        match code.instructions[i] {
            ir::IR::SHL(x) => {
                buf.push(0x48);
                buf.push(0x81);
                buf.push(0xE9);
                push_le32(&mut buf, x);
                proof {
                    assert(buf@ =~= jit_upto(irs, intrinsic, (i + 1) as nat).code);
                }
            },
            ir::IR::SHR(x) => {
                buf.push(0x48);
                buf.push(0x81);
                buf.push(0xC1);
                push_le32(&mut buf, x);
                proof {
                    assert(buf@ =~= jit_upto(irs, intrinsic, (i + 1) as nat).code);
                }
            },
            ir::IR::ADD(x) => {
                buf.push(0x80);
                buf.push(0x01);
                buf.push(x);
                proof {
                    assert(buf@ =~= jit_upto(irs, intrinsic, (i + 1) as nat).code);
                }
            },
            ir::IR::SUB(x) => {
                buf.push(0x80);
                buf.push(0x29);
                buf.push(x);
                proof {
                    assert(buf@ =~= jit_upto(irs, intrinsic, (i + 1) as nat).code);
                }
            },
            ir::IR::PUTCHAR => {
                buf.push(0x49);
                buf.push(0x89);
                buf.push(0xCC);
                buf.push(0x48);
                buf.push(0x0F);
                buf.push(0xB6);
                buf.push(0x39);
                buf.push(0x48);
                buf.push(0xB8);
                push_le64(&mut buf, intrinsic);
                buf.push(0xFF);
                buf.push(0xD0);
                buf.push(0x4C);
                buf.push(0x89);
                buf.push(0xE1);
                proof {
                    assert(buf@ =~= jit_upto(irs, intrinsic, (i + 1) as nat).code);
                }
            },
            ir::IR::GETCHAR => {
                proof {
                    assert(buf@ =~= jit_upto(irs, intrinsic, (i + 1) as nat).code);
                }
            },
            ir::IR::JIZ(_) => {
                let base = buf.len();
                buf.push(0x80);
                buf.push(0x39);
                buf.push(0x00);
                buf.push(0x0F);
                buf.push(0x84);
                push_le32(&mut buf, 0);
                frames.push((base + 9, base + 5));
                proof {
                    assert(buf@ =~= jit_upto(irs, intrinsic, (i + 1) as nat).code);
                    assert(frames@ =~= jit_upto(irs, intrinsic, (i + 1) as nat).frames);
                }
            },
            ir::IR::JNZ(_) => {
                match frames.pop() {
                    Some(frame) => {
                        let base = buf.len();
                        buf.push(0x80);
                        buf.push(0x39);
                        buf.push(0x00);
                        buf.push(0x0F);
                        buf.push(0x85);
                        let back = rel32_exec(base + 9, frame.0);
                        push_le32(&mut buf, back);
                        let body_end = buf.len();
                        let fwd = rel32_exec(frame.1 + 4, body_end);
                        patch_le32(&mut buf, frame.1, fwd);
                        proof {
                            assert(frames@ =~= jit_upto(irs, intrinsic, (i + 1) as nat).frames);
                        }
                    },
                    None => {},
                }
                proof {
                    assert(buf@ =~= jit_upto(irs, intrinsic, (i + 1) as nat).code);
                }
            },
        }
        i = i + 1;
    }
    buf.push(0xC3);
    proof {
        assert(buf@ =~= jit_spec(irs, intrinsic));
    }
    buf
}

#[verifier::external_type_specification]
#[verifier::external_body]
pub struct ExExecutableBuffer(dynasmrt::ExecutableBuffer);

/// An x64 assembler of `dynasmrt`, held opaquely (its type is generic over
/// a relocation trait that cannot be declared here) while verified code
/// feeds it machine-code bytes.
#[verifier::external_body]
pub struct CodeAssembler {
    inner: dynasmrt::x64::Assembler,
}

/// The bytes an assembler's code buffer holds.
pub uninterp spec fn asm_bytes(a: CodeAssembler) -> Seq<u8>;

/// The bytes an executable buffer holds.
pub uninterp spec fn exec_buffer_bytes(b: dynasmrt::ExecutableBuffer) -> Seq<u8>;

/// Relies on dynasmrt::Assembler::new: a fresh assembler holds no code;
/// it fails only when the operating system refuses the initial mapping.
#[verifier::external_body]
fn asm_new() -> (r: Result<CodeAssembler, Error>)
    ensures
        r matches Ok(a) ==> asm_bytes(a) == Seq::<u8>::empty(),
        r matches Err(e) ==> e == Error::IoError,
{
    match dynasmrt::x64::Assembler::new() {
        Ok(inner) => Ok(CodeAssembler { inner }),
        Err(_) => Err(Error::IoError),
    }
}

/// Relies on dynasmrt's `Extend<&u8> for Assembler`: extending appends the
/// given bytes, in order, to the assembler's code buffer.
#[verifier::external_body]
fn asm_extend(a: &mut CodeAssembler, bytes: &Vec<u8>)
    ensures
        asm_bytes(*final(a)) == asm_bytes(*old(a)) + bytes@,
{
    a.inner.extend(bytes);
}

/// Relies on dynasmrt::Assembler::finalize: committing copies the code
/// buffer verbatim into executable memory, and the returned buffer holds
/// exactly those bytes. With no labels or relocations ever registered (this
/// crate only extends), committing cannot fail, and finalizing fails only
/// when the memory mapping cannot be remapped or is still shared.
#[verifier::external_body]
fn asm_finalize(a: CodeAssembler) -> (r: Result<dynasmrt::ExecutableBuffer, Error>)
    ensures
        r matches Ok(b) ==> exec_buffer_bytes(b) == asm_bytes(a),
        r matches Err(e) ==> e == Error::IoError,
{
    a.inner.finalize().map_err(|_| Error::IoError)
}

/// Place a block of machine code into executable memory, unchanged.
pub fn assemble(machine_code: &Vec<u8>) -> (r: Result<dynasmrt::ExecutableBuffer, Error>)
    ensures
        r matches Ok(b) ==> exec_buffer_bytes(b) == machine_code@,
        r matches Err(e) ==> e == Error::IoError,
{
    let mut ops = match asm_new() {
        Ok(a) => a,
        Err(e) => {
            return Err(e);
        },
    };
    asm_extend(&mut ops, machine_code);
    asm_finalize(ops)
}

/// Tokenize the source, build the coalesced IR, lower it to x64 machine
/// code and place that code in executable memory, ready to be invoked on a
/// tape. The buffer holds exactly the bytes the lowering specification
/// gives for the built IR; entry is at offset 0. `UnmatchedBracket` comes
/// exactly when some loop-close has no pending open; `IoError` only when
/// executable memory cannot be obtained.
pub fn compile_program(data: Vec<u8>, intrinsic: u64) -> (r: Result<
    dynasmrt::ExecutableBuffer,
    Error,
>)
    requires
        data@.len() <= MAX_PROGRAM,
    ensures
        ({
            let cmds = opcode::tokens_spec(data@);
            match r {
                Ok(buf) => ir::build_spec(cmds) matches Some(b) && exec_buffer_bytes(buf)
                    == jit_spec(b.instrs, intrinsic),
                Err(Error::UnmatchedBracket) => ir::build_spec(cmds) is None,
                Err(Error::IoError) => ir::build_spec(cmds) is Some,
                Err(Error::InputExhausted) => false,
            }
        }),
{
    let ghost cmds = opcode::tokens_spec(data@);
    proof {
        opcode::lemma_tokens_len(data@);
        ir::lemma_table_build_agree(cmds, cmds.len());
    }
    let opcode_code = match opcode::Code::from(data) {
        Ok(c) => c,
        Err(_) => {
            return Err(Error::UnmatchedBracket);
        },
    };
    let code = match ir::Code::from(opcode_code.instructions) {
        Ok(c) => c,
        Err(_) => {
            return Err(Error::UnmatchedBracket);
        },
    };
    proof {
        ir::lemma_build_len(cmds, cmds.len());
    }
    let machine_code = compile(&code, intrinsic);
    assemble(&machine_code)
}

} // verus!
