use bf_jit::Error;
use bf_jit::ir::Code as IrCode;
use bf_jit::jit;
use bf_jit::opcode::Code as OpCode;

const INTRINSIC: u64 = 0x1122334455667788;

fn compile_src(src: &[u8]) -> Vec<u8> {
    let tokens = OpCode::from(src.to_vec()).unwrap();
    let code = IrCode::from(tokens.instructions).unwrap();
    jit::compile(&code, INTRINSIC)
}

#[test]
fn empty_program_is_prologue_and_ret() {
    assert_eq!(compile_src(b""), vec![0x48, 0x89, 0xF9, 0xC3]);
}

#[test]
fn moves_and_arithmetic_encode_with_coalesced_immediates() {
    assert_eq!(
        compile_src(b">>><<++---"),
        vec![
            0x48, 0x89, 0xF9, // mov rcx, rdi
            0x48, 0x81, 0xC1, 0x03, 0x00, 0x00, 0x00, // add rcx, 3
            0x48, 0x81, 0xE9, 0x02, 0x00, 0x00, 0x00, // sub rcx, 2
            0x80, 0x01, 0x02, // add byte [rcx], 2
            0x80, 0x29, 0x03, // sub byte [rcx], 3
            0xC3, // ret
        ]
    );
}

#[test]
fn output_saves_and_restores_the_cell_register() {
    assert_eq!(
        compile_src(b"."),
        vec![
            0x48, 0x89, 0xF9, // mov rcx, rdi
            0x49, 0x89, 0xCC, // mov r12, rcx
            0x48, 0x0F, 0xB6, 0x39, // movzx rdi, byte [rcx]
            0x48, 0xB8, 0x88, 0x77, 0x66, 0x55, 0x44, 0x33, 0x22, 0x11, // mov rax, imm64
            0xFF, 0xD0, // call rax
            0x4C, 0x89, 0xE1, // mov rcx, r12
            0xC3, // ret
        ]
    );
}

#[test]
fn input_emits_no_instructions() {
    assert_eq!(compile_src(b","), vec![0x48, 0x89, 0xF9, 0xC3]);
    assert_eq!(compile_src(b",,.,"), compile_src(b"."));
}

#[test]
fn loop_branches_are_patched_to_matching_brackets() {
    assert_eq!(
        compile_src(b"[+]"),
        vec![
            0x48, 0x89, 0xF9, // 0: mov rcx, rdi
            0x80, 0x39, 0x00, // 3: cmp byte [rcx], 0
            0x0F, 0x84, 0x0C, 0x00, 0x00, 0x00, // 6: jz +12 (to 24, past the close)
            0x80, 0x01, 0x01, // 12: add byte [rcx], 1
            0x80, 0x39, 0x00, // 15: cmp byte [rcx], 0
            0x0F, 0x85, 0xF4, 0xFF, 0xFF, 0xFF, // 18: jnz -12 (back to 12)
            0xC3, // 24: ret
        ]
    );
}

#[test]
fn unclosed_open_keeps_zero_displacement() {
    assert_eq!(
        compile_src(b"["),
        vec![
            0x48, 0x89, 0xF9, // mov rcx, rdi
            0x80, 0x39, 0x00, // cmp byte [rcx], 0
            0x0F, 0x84, 0x00, 0x00, 0x00, 0x00, // jz +0: falls through either way
            0xC3, // ret
        ]
    );
}

#[test]
fn executable_buffer_holds_the_compiled_bytes() {
    let src = b"++++++++[>++++++++<-]>.";
    let expected = compile_src(src);
    let buf = jit::compile_program(src.to_vec(), INTRINSIC).unwrap();
    assert_eq!(&buf[..], &expected[..]);
}

#[test]
fn compile_program_rejects_lone_close() {
    match jit::compile_program(b"]".to_vec(), INTRINSIC) {
        Err(Error::UnmatchedBracket) => {},
        _ => panic!("expected UnmatchedBracket"),
    }
}
