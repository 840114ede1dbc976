use bf_jit::Error;
use bf_jit::RunResult;
use bf_jit::ir::{Code as IrCode, IR};
use bf_jit::naive;
use bf_jit::opcode::{Code as OpCode, Opcode};
use bf_jit::optimized;

fn run_optimized(src: &[u8], input: &[u8]) -> Result<RunResult, Error> {
    let mut interp = optimized::Interpreter::new();
    interp.run(src.to_vec(), input.to_vec(), u64::MAX)
}

fn run_naive(src: &[u8], input: &[u8]) -> Result<RunResult, Error> {
    let mut interp = naive::Interpreter::new();
    interp.run(src.to_vec(), input.to_vec(), u64::MAX)
}

fn done(r: Result<RunResult, Error>) -> Vec<u8> {
    match r {
        Ok(RunResult::Done(out)) => out,
        other => panic!("expected a completed run, got {:?}", other),
    }
}

#[test]
fn opcode_roundtrip() {
    let bytes = [0x3E, 0x3C, 0x2B, 0x2D, 0x2E, 0x2C, 0x5B, 0x5D];
    for b in bytes {
        let op = Opcode::from(b).unwrap();
        assert_eq!(op.into(), b);
    }
    assert!(Opcode::from(b'a').is_none());
    assert!(Opcode::from(0x00).is_none());
}

#[test]
fn tokenizer_ignores_unrecognized_bytes() {
    let code = OpCode::from(b"a + b .\n".to_vec()).unwrap();
    assert_eq!(code.instructions, vec![Opcode::ADD, Opcode::PUTCHAR]);
}

#[test]
fn jump_table_pairs_brackets_both_ways() {
    let code = OpCode::from(b"[[]]".to_vec()).unwrap();
    assert_eq!(code.jump_table.get(&0), Some(&3));
    assert_eq!(code.jump_table.get(&3), Some(&0));
    assert_eq!(code.jump_table.get(&1), Some(&2));
    assert_eq!(code.jump_table.get(&2), Some(&1));
}

#[test]
fn ir_coalesces_runs() {
    let tokens = OpCode::from(b"+++>>><<--".to_vec()).unwrap();
    let code = IrCode::from(tokens.instructions).unwrap();
    assert_eq!(
        code.instructions,
        vec![IR::ADD(3), IR::SHR(3), IR::SHL(2), IR::SUB(2)]
    );
}

#[test]
fn ir_never_coalesces_output_or_input() {
    let tokens = OpCode::from(b"..,,".to_vec()).unwrap();
    let code = IrCode::from(tokens.instructions).unwrap();
    assert_eq!(
        code.instructions,
        vec![IR::PUTCHAR, IR::PUTCHAR, IR::GETCHAR, IR::GETCHAR]
    );
}

#[test]
fn ir_resolves_jump_targets() {
    let tokens = OpCode::from(b"[->+<]".to_vec()).unwrap();
    let code = IrCode::from(tokens.instructions).unwrap();
    assert_eq!(
        code.instructions,
        vec![IR::JIZ(5), IR::SUB(1), IR::SHR(1), IR::ADD(1), IR::SHL(1), IR::JNZ(0)]
    );
}

#[test]
fn unclosed_open_compiles_with_placeholder_target() {
    let tokens = OpCode::from(b"[".to_vec()).unwrap();
    let code = IrCode::from(tokens.instructions).unwrap();
    assert_eq!(code.instructions, vec![IR::JIZ(0)]);
}

#[test]
fn lone_close_fails_with_unmatched_bracket() {
    let tokens = vec![Opcode::RB];
    match IrCode::from(tokens) {
        Err(Error::UnmatchedBracket) => {},
        other => panic!("expected UnmatchedBracket, got {:?}", other.is_ok()),
    }
    match OpCode::from(b"]".to_vec()) {
        Err(Error::UnmatchedBracket) => {},
        _ => panic!("expected UnmatchedBracket from the tokenizer pass"),
    }
    match run_optimized(b"]", &[]) {
        Err(Error::UnmatchedBracket) => {},
        other => panic!("expected UnmatchedBracket, got {:?}", other),
    }
    match run_naive(b"]", &[]) {
        Err(Error::UnmatchedBracket) => {},
        other => panic!("expected UnmatchedBracket, got {:?}", other),
    }
}

#[test]
fn multiplication_loop_outputs_64() {
    let src = b"++++++++[>++++++++<-]>.";
    assert_eq!(done(run_optimized(src, &[])), vec![64]);
    assert_eq!(done(run_naive(src, &[])), vec![64]);
}

#[test]
fn echo_one_byte() {
    let src = b",.";
    assert_eq!(done(run_optimized(src, &[0x41])), vec![0x41]);
    assert_eq!(done(run_naive(src, &[0x41])), vec![0x41]);
}

#[test]
fn read_without_input_is_input_exhausted() {
    match run_optimized(b",", &[]) {
        Err(Error::InputExhausted) => {},
        other => panic!("expected InputExhausted, got {:?}", other),
    }
    match run_naive(b",", &[]) {
        Err(Error::InputExhausted) => {},
        other => panic!("expected InputExhausted, got {:?}", other),
    }
}

#[test]
fn increments_wrap_modulo_256() {
    let mut src: Vec<u8> = vec![b'+'; 256];
    src.push(b'.');
    assert_eq!(done(run_optimized(&src, &[])), vec![0]);
    assert_eq!(done(run_naive(&src, &[])), vec![0]);
    let mut src2: Vec<u8> = vec![b'-'; 256];
    src2.push(b'.');
    assert_eq!(done(run_optimized(&src2, &[])), vec![0]);
    assert_eq!(done(run_naive(&src2, &[])), vec![0]);
}

#[test]
fn left_moves_clamp_at_cell_zero() {
    let src = b"<<<+.";
    assert_eq!(done(run_optimized(src, &[])), vec![1]);
    assert_eq!(done(run_naive(src, &[])), vec![1]);
}

#[test]
fn executing_unclosed_open_on_zero_cell_halts() {
    assert_eq!(done(run_optimized(b"[", &[])), Vec::<u8>::new());
}

#[test]
fn naive_taken_jump_without_table_entry_is_unmatched_bracket() {
    match run_naive(b"[", &[]) {
        Err(Error::UnmatchedBracket) => {},
        other => panic!("expected UnmatchedBracket, got {:?}", other),
    }
}

#[test]
fn endless_loop_runs_out_of_steps() {
    let mut interp = optimized::Interpreter::new();
    match interp.run(b"+[]".to_vec(), Vec::new(), 1000) {
        Ok(RunResult::OutOfSteps(out)) => assert_eq!(out, Vec::<u8>::new()),
        other => panic!("expected an exhausted step budget, got {:?}", other),
    }
}

#[test]
fn engines_agree_on_input_free_programs() {
    let programs: [&[u8]; 4] = [
        b"++++++++[>++++++++<-]>.",
        b"+++.---.",
        b">>+++[<+>-]<.",
        b"+[->++<]>.",
    ];
    for src in programs {
        assert_eq!(done(run_optimized(src, &[])), done(run_naive(src, &[])));
    }
}

fn expand_ir(code: &[IR]) -> Vec<u8> {
    let mut cmds = Vec::new();
    for instr in code {
        match instr {
            IR::SHL(x) => cmds.extend(std::iter::repeat(b'<').take(*x as usize)),
            IR::SHR(x) => cmds.extend(std::iter::repeat(b'>').take(*x as usize)),
            IR::ADD(x) => cmds.extend(std::iter::repeat(b'+').take(*x as usize)),
            IR::SUB(x) => cmds.extend(std::iter::repeat(b'-').take(*x as usize)),
            IR::PUTCHAR => cmds.push(b'.'),
            IR::GETCHAR => cmds.push(b','),
            IR::JIZ(_) => cmds.push(b'['),
            IR::JNZ(_) => cmds.push(b']'),
        }
    }
    cmds
}

#[test]
fn rebuilding_serialized_ir_is_stable() {
    let programs: [&[u8]; 3] = [b"+++>><<..", b"++[->+++<]>.", b"[[-]>]"];
    for src in programs {
        let tokens = OpCode::from(src.to_vec()).unwrap();
        let code = IrCode::from(tokens.instructions).unwrap();
        let serialized = expand_ir(&code.instructions);
        let tokens2 = OpCode::from(serialized).unwrap();
        let code2 = IrCode::from(tokens2.instructions).unwrap();
        assert_eq!(code.instructions, code2.instructions);
    }
}
