//! Laws of the pipeline, stated over the specification-level folds and
//! semantics and proved once and for all.

use vstd::prelude::*;

use vstd::arithmetic::div_mod::lemma_add_mod_noop;

use crate::ir;
use crate::machine::{
    MState, Outcome, add_wrap, init_state, ir_run, lemma_ir_run_persists, lemma_op_run_persists,
    op_run,
};
use crate::opcode::Opcode;

verus! {

/// How many of the first `n` commands are `op`.
pub open spec fn count_of(cmds: Seq<Opcode>, op: Opcode, n: nat) -> nat
    recommends
        n <= cmds.len(),
    decreases n,
{
    if n == 0 {
        0
    } else {
        count_of(cmds, op, (n - 1) as nat) + if cmds[n - 1] == op {
            1nat
        } else {
            0nat
        }
    }
}

/// While the builder is alive, its pending stack height is the number of
/// loop-opens read minus the number of loop-closes read, and no prefix has
/// closed more loops than it opened.
pub proof fn lemma_build_counts(cmds: Seq<Opcode>, n: nat)
    ensures
        (ir::build_upto(cmds, n) matches Some(st) ==> st.opens.len() + count_of(
            cmds,
            Opcode::RB,
            n,
        ) == count_of(cmds, Opcode::LB, n) && forall|j: nat|
            j <= n ==> count_of(cmds, Opcode::RB, j) <= count_of(cmds, Opcode::LB, j)),
        (ir::build_upto(cmds, n) is None <==> exists|j: nat|
            j <= n && count_of(cmds, Opcode::RB, j) > count_of(cmds, Opcode::LB, j)),
    decreases n,
{
    if n > 0 {
        lemma_build_counts(cmds, (n - 1) as nat);
        match ir::build_upto(cmds, (n - 1) as nat) {
            Some(st) => {
                if cmds[n - 1] == Opcode::RB && st.opens.len() == 0 {
                    assert(count_of(cmds, Opcode::RB, n) > count_of(cmds, Opcode::LB, n));
                } else {
                    assert(forall|j: nat|
                        j <= n ==> count_of(cmds, Opcode::RB, j) <= count_of(
                            cmds,
                            Opcode::LB,
                            j,
                        ));
                }
            },
            None => {},
        }
    }
}

/// IR construction fails exactly on programs that close a loop never
/// opened: some prefix holds more loop-closes than loop-opens. That no
/// instruction then executes is part of each engine's contract: on this
/// failure the run returns the tape untouched and writes nothing.
pub proof fn lemma_unmatched_close(cmds: Seq<Opcode>)
    ensures
        ir::build_spec(cmds) is None <==> exists|j: nat|
            j <= cmds.len() && count_of(cmds, Opcode::RB, j) > count_of(cmds, Opcode::LB, j),
{
    lemma_build_counts(cmds, cmds.len());
}

/// The cell value after `k` single increments starting from `b`.
pub open spec fn iter_inc(b: u8, k: nat) -> u8
    decreases k,
{
    if k == 0 {
        b
    } else {
        add_wrap(iter_inc(b, (k - 1) as nat), 1)
    }
}

/// Repeated single increments add up modulo 256.
pub proof fn lemma_iter_inc(b: u8, k: nat)
    ensures
        iter_inc(b, k) == ((b + k) % 256) as u8,
    decreases k,
{
    if k > 0 {
        lemma_iter_inc(b, (k - 1) as nat);
        lemma_add_mod_noop(b + (k - 1), 1, 256);
    }
}

/// A sequence of `n` increment commands.
pub open spec fn adds(n: nat) -> Seq<Opcode> {
    Seq::new(n, |i: int| Opcode::ADD)
}

/// The builder coalesces `k >= 1` increment commands into one ADD whose
/// amount is the increments added up modulo 256.
pub proof fn lemma_build_adds(n: nat, k: nat)
    requires
        1 <= k <= n,
    ensures
        ir::build_upto(adds(n), k) == Some(
            ir::BuildSt { instrs: seq![ir::IR::ADD(iter_inc(0, k))], opens: Seq::empty() },
        ),
    decreases k,
{
    if k == 1 {
        assert(ir::build_upto(adds(n), 0) == Some(
            ir::BuildSt { instrs: Seq::<ir::IR>::empty(), opens: Seq::<u32>::empty() },
        ));
    } else {
        lemma_build_adds(n, (k - 1) as nat);
        let prev = seq![ir::IR::ADD(iter_inc(0, (k - 1) as nat))];
        assert(prev.update(0, ir::IR::ADD(iter_inc(0, k))) =~= seq![ir::IR::ADD(iter_inc(0, k))]);
    }
}

/// Increment/decrement wraparound in the optimized engine: a program of 256
/// increment commands coalesces to a single ADD of amount 0, and running it
/// returns every tape unchanged (and writes nothing).
pub proof fn lemma_increments_wrap_optimized(tape: Seq<u8>, input: Seq<u8>, n: u64)
    requires
        tape.len() >= 1,
        n >= 1,
    ensures
        ir::build_spec(adds(256)) matches Some(b) && ir_run(
            b.instrs,
            init_state(tape, input),
            n as nat,
        ) == Outcome::Halted(
            MState {
                tape,
                cursor: 0,
                pc: 1,
                input,
                read: 0,
                output: Seq::<u8>::empty(),
            },
        ),
{
    lemma_build_adds(256, 256);
    lemma_iter_inc(0, 256);
    assert(iter_inc(0, 256) == 0);
    let code = seq![ir::IR::ADD(0u8)];
    let init = init_state(tape, input);
    let halted = MState { tape, cursor: 0, pc: 1, input, read: 0, output: Seq::<u8>::empty() };
    assert(add_wrap(tape[0], 0) == tape[0]);
    assert(tape.update(0, tape[0]) =~= tape);
    assert(ir_run(code, halted, 0) == Outcome::Halted(halted));
    assert(ir_run(code, init, 1) == Outcome::Halted(halted));
    lemma_ir_run_persists(code, init, 1, n as nat);
}

/// The state of the naive engine after `p` of the 256 increments.
pub open spec fn adds_state(tape: Seq<u8>, input: Seq<u8>, p: nat) -> MState {
    MState {
        tape: tape.update(0, iter_inc(tape[0], p)),
        cursor: 0,
        pc: p,
        input,
        read: 0,
        output: Seq::<u8>::empty(),
    }
}

/// Dispatching the remaining increments one at a time halts with the cell
/// incremented the full 256 times.
proof fn lemma_adds_run_naive(
    table: Map<usize, usize>,
    tape: Seq<u8>,
    input: Seq<u8>,
    p: nat,
)
    requires
        tape.len() >= 1,
        p <= 256,
    ensures
        op_run(adds(256), table, adds_state(tape, input, p), (256 - p) as nat) == Outcome::Halted(
            adds_state(tape, input, 256),
        ),
    decreases 256 - p,
{
    if p < 256 {
        let s = adds_state(tape, input, p);
        let s2 = adds_state(tape, input, p + 1);
        assert(s.tape[0] == iter_inc(tape[0], p));
        assert(s.tape.update(0, add_wrap(iter_inc(tape[0], p), 1)) =~= s2.tape);
        lemma_adds_run_naive(table, tape, input, p + 1);
    }
}

/// Increment/decrement wraparound in the naive engine: 256 single
/// increments return every tape to its original value (and write nothing),
/// whatever the jump table.
pub proof fn lemma_increments_wrap_naive(
    table: Map<usize, usize>,
    tape: Seq<u8>,
    input: Seq<u8>,
    n: u64,
)
    requires
        tape.len() >= 1,
        n >= 256,
    ensures
        op_run(adds(256), table, init_state(tape, input), n as nat) == Outcome::Halted(
            MState {
                tape,
                cursor: 0,
                pc: 256,
                input,
                read: 0,
                output: Seq::<u8>::empty(),
            },
        ),
{
    let init = init_state(tape, input);
    assert(tape.update(0, iter_inc(tape[0], 0)) =~= tape);
    assert(init == adds_state(tape, input, 0));
    lemma_adds_run_naive(table, tape, input, 0);
    lemma_iter_inc(tape[0], 256);
    assert(iter_inc(tape[0], 256) == tape[0]);
    assert(tape.update(0, tape[0]) =~= tape);
    assert(adds_state(tape, input, 256) == MState {
        tape,
        cursor: 0,
        pc: 256,
        input,
        read: 0,
        output: Seq::<u8>::empty(),
    });
    lemma_op_run_persists(adds(256), table, init, 256, n as nat);
}

/// One instruction serialized back to commands: a counted instruction
/// becomes that many copies of its command, every other instruction one
/// command; jump targets are implicit in the brackets and are dropped.
pub open spec fn expand_ir(instr: ir::IR) -> Seq<Opcode> {
    match instr {
        ir::IR::SHL(x) => Seq::new(x as nat, |i: int| Opcode::SHL),
        ir::IR::SHR(x) => Seq::new(x as nat, |i: int| Opcode::SHR),
        ir::IR::ADD(x) => Seq::new(x as nat, |i: int| Opcode::ADD),
        ir::IR::SUB(x) => Seq::new(x as nat, |i: int| Opcode::SUB),
        ir::IR::PUTCHAR => seq![Opcode::PUTCHAR],
        ir::IR::GETCHAR => seq![Opcode::GETCHAR],
        ir::IR::JIZ(_) => seq![Opcode::LB],
        ir::IR::JNZ(_) => seq![Opcode::RB],
    }
}

/// The first `n` instructions serialized back to a command sequence.
pub open spec fn expand(code: Seq<ir::IR>, n: nat) -> Seq<Opcode>
    recommends
        n <= code.len(),
    decreases n,
{
    if n == 0 {
        Seq::empty()
    } else {
        expand(code, (n - 1) as nat) + expand_ir(code[n - 1])
    }
}

/// Expansion reads only the instructions it is given.
proof fn lemma_expand_congruent(a: Seq<ir::IR>, b: Seq<ir::IR>, n: nat)
    requires
        forall|k: int| 0 <= k < n ==> expand_ir(#[trigger] a[k]) == expand_ir(b[k]),
    ensures
        expand(a, n) == expand(b, n),
    decreases n,
{
    if n > 0 {
        lemma_expand_congruent(a, b, (n - 1) as nat);
    }
}

/// The builder fold reads only the commands it is given.
proof fn lemma_build_congruent(a: Seq<Opcode>, b: Seq<Opcode>, n: nat)
    requires
        forall|k: int| 0 <= k < n ==> #[trigger] a[k] == b[k],
    ensures
        ir::build_upto(a, n) == ir::build_upto(b, n),
    decreases n,
{
    if n > 0 {
        lemma_build_congruent(a, b, (n - 1) as nat);
    }
}

/// Folding one more command onto a command sequence.
proof fn lemma_build_snoc(e: Seq<Opcode>, c: Opcode)
    ensures
        ir::build_upto(e.push(c), e.len() + 1) == (match ir::build_upto(e, e.len()) {
            None => None,
            Some(st) => ir::build_step(st, c),
        }),
{
    assert forall|k: int| 0 <= k < e.len() implies #[trigger] e.push(c)[k] == e[k] by {}
    lemma_build_congruent(e.push(c), e, e.len());
    assert(e.push(c)[e.len() as int] == c);
}

/// The builder introduces a read instruction only for a read command.
pub proof fn lemma_build_input_free(cmds: Seq<Opcode>, n: nat)
    requires
        forall|k: int| 0 <= k < n ==> #[trigger] cmds[k] != Opcode::GETCHAR,
    ensures
        ir::build_upto(cmds, n) matches Some(st) ==> forall|k: int|
            0 <= k < st.instrs.len() ==> #[trigger] st.instrs[k] != ir::IR::GETCHAR,
    decreases n,
{
    if n > 0 {
        lemma_build_input_free(cmds, (n - 1) as nat);
        if ir::build_upto(cmds, (n - 1) as nat) is Some {
            ir::lemma_build_len(cmds, (n - 1) as nat);
        }
    }
}

/// A program that never holds the read instruction consumes no input and
/// cannot fail: within any step budget it either halts or is still
/// running, with the input stream untouched. (This is the reason the
/// native engine, which does not support input, diverges from the
/// interpreters only on programs that read: what the generated code then
/// does lies outside this library.)
pub proof fn lemma_input_free_run(code: Seq<ir::IR>, s: MState, n: nat)
    requires
        forall|k: int| 0 <= k < code.len() ==> #[trigger] code[k] != ir::IR::GETCHAR,
    ensures
        match ir_run(code, s, n) {
            Outcome::Halted(t) => t.read == s.read && t.input == s.input,
            Outcome::Running(t) => t.read == s.read && t.input == s.input,
            Outcome::Failed(_) => false,
        },
    decreases n,
{
    if s.pc < code.len() && n > 0 {
        match crate::machine::ir_step(code, s) {
            crate::machine::Step::Next(s2) => {
                lemma_input_free_run(code, s2, (n - 1) as nat);
            },
            _ => {},
        }
    }
}

/// An arithmetic instruction whose amount has wrapped to zero; it
/// serializes to no commands at all.
pub open spec fn arith_zero(instr: ir::IR) -> bool {
    instr == ir::IR::ADD(0u8) || instr == ir::IR::SUB(0u8)
}

/// An arithmetic instruction.
pub open spec fn is_arith(instr: ir::IR) -> bool {
    (instr matches ir::IR::ADD(_)) || (instr matches ir::IR::SUB(_))
}

/// Two instructions the builder would coalesce if adjacent.
pub open spec fn same_counted_kind(a: ir::IR, b: ir::IR) -> bool {
    match (a, b) {
        (ir::IR::SHL(_), ir::IR::SHL(_)) => true,
        (ir::IR::SHR(_), ir::IR::SHR(_)) => true,
        (ir::IR::ADD(_), ir::IR::ADD(_)) => true,
        (ir::IR::SUB(_), ir::IR::SUB(_)) => true,
        _ => false,
    }
}

/// No instruction before the last has an amount wrapped to zero.
pub open spec fn no_zero_interior(code: Seq<ir::IR>) -> bool {
    forall|k: int| 0 <= k < code.len() - 1 ==> !arith_zero(#[trigger] code[k])
}

/// What rebuilding a serialization can reproduce: the code itself, except
/// that a trailing zero-amount instruction leaves no trace.
pub open spec fn trim(code: Seq<ir::IR>) -> Seq<ir::IR> {
    if code.len() > 0 && arith_zero(code.last()) {
        code.drop_last()
    } else {
        code
    }
}

/// Structure the builder keeps: counted moves have positive bounded
/// counts, no two adjacent instructions would coalesce, and every pending
/// open names a loop-open instruction.
pub open spec fn shape_ok(st: ir::BuildSt, n: nat) -> bool {
    &&& forall|k: int|
        0 <= k < st.instrs.len() ==> (match #[trigger] st.instrs[k] {
            ir::IR::SHL(x) => 1 <= x <= n,
            ir::IR::SHR(x) => 1 <= x <= n,
            _ => true,
        })
    &&& forall|k: int|
        0 <= k && k + 1 < st.instrs.len() ==> !same_counted_kind(
            #[trigger] st.instrs[k],
            st.instrs[k + 1],
        )
    &&& forall|k: int|
        0 <= k < st.opens.len() ==> (st.instrs[#[trigger] st.opens[k] as int] matches ir::IR::JIZ(
            _,
        ))
}

/// Rebuilding the whole serialization reproduces the state.
pub open spec fn rebuild_ok(st: ir::BuildSt) -> bool {
    ir::build_spec(expand(st.instrs, st.instrs.len())) == Some(
        ir::BuildSt { instrs: trim(st.instrs), opens: st.opens },
    )
}

/// When the last instruction is arithmetic, rebuilding the serialization
/// of everything before it reproduces the state without it.
pub open spec fn rebuild_prefix_ok(st: ir::BuildSt) -> bool {
    st.instrs.len() > 0 && is_arith(st.instrs.last()) ==> ir::build_spec(
        expand(st.instrs, (st.instrs.len() - 1) as nat),
    ) == Some(ir::BuildSt { instrs: st.instrs.drop_last(), opens: st.opens })
}

/// A merge step rebuilds: the extra command either extends the trailing
/// instruction's serialization by one copy, vanishes with a wrapped
/// amount, or restarts a fresh instruction after one.
proof fn lemma_rebuild_merge(prev: ir::BuildSt, st: ir::BuildSt, c: Opcode)
    requires
        ir::build_step(prev, c) == Some(st),
        c != Opcode::RB,
        prev.instrs.len() > 0,
        st.instrs.len() == prev.instrs.len(),
        shape_ok(prev, (u32::MAX - 1) as nat),
        no_zero_interior(st.instrs),
        no_zero_interior(prev.instrs) ==> rebuild_ok(prev) && rebuild_prefix_ok(prev),
    ensures
        rebuild_ok(st),
        rebuild_prefix_ok(st),
{
    let pl = prev.instrs.len();
    let last_prev = prev.instrs.last();
    let last_new = st.instrs.last();
    match c {
        Opcode::SHL => {
            assert(prev.instrs.last() matches ir::IR::SHL(_));
            assert(st.instrs == prev.instrs.update(pl - 1, last_new));
        },
        Opcode::SHR => {
            assert(prev.instrs.last() matches ir::IR::SHR(_));
            assert(st.instrs == prev.instrs.update(pl - 1, last_new));
        },
        Opcode::ADD => {
            assert(prev.instrs.last() matches ir::IR::ADD(_));
            assert(st.instrs == prev.instrs.update(pl - 1, last_new));
        },
        Opcode::SUB => {
            assert(prev.instrs.last() matches ir::IR::SUB(_));
            assert(st.instrs == prev.instrs.update(pl - 1, last_new));
        },
        _ => {
            assert(false);
        },
    }
    assert(st.instrs == prev.instrs.update(pl - 1, last_new));
    assert(st.opens == prev.opens);
    assert(same_counted_kind(last_prev, last_new));
    assert(st.instrs.drop_last() =~= prev.instrs.drop_last());
    assert forall|k: int| 0 <= k < pl - 1 implies !arith_zero(#[trigger] prev.instrs[k]) by {
        assert(prev.instrs[k] == st.instrs[k]);
    }
    assert(no_zero_interior(prev.instrs));
    assert forall|k: int|
        0 <= k < pl - 1 implies expand_ir(#[trigger] st.instrs[k]) == expand_ir(
        prev.instrs[k],
    ) by {
        assert(prev.instrs[k] == st.instrs[k]);
    }
    lemma_expand_congruent(st.instrs, prev.instrs, (pl - 1) as nat);
    let full = expand(st.instrs, pl);
    if arith_zero(last_new) {
        assert(expand_ir(last_new) =~= Seq::<Opcode>::empty());
        assert(full =~= expand(prev.instrs, (pl - 1) as nat));
        assert(is_arith(last_prev));
        assert(rebuild_ok(st));
        assert(rebuild_prefix_ok(st));
    } else {
        let e = expand(prev.instrs, pl);
        assert(expand_ir(last_prev).push(c) =~= expand_ir(last_new));
        assert(full =~= e.push(c));
        lemma_build_snoc(e, c);
        if arith_zero(last_prev) {
            assert(expand_ir(last_prev) =~= Seq::<Opcode>::empty());
            assert(e =~= expand(prev.instrs, (pl - 1) as nat));
            assert(is_arith(last_prev));
            assert(ir::build_spec(e) == Some(
                ir::BuildSt { instrs: prev.instrs.drop_last(), opens: prev.opens },
            ));
            if pl >= 2 {
                assert(!same_counted_kind(prev.instrs[pl - 2], prev.instrs[pl - 1]));
                assert(prev.instrs.drop_last().last() == prev.instrs[pl - 2]);
            }
            assert(ir::build_step(
                ir::BuildSt { instrs: prev.instrs.drop_last(), opens: prev.opens },
                c,
            ) == Some(
                ir::BuildSt { instrs: prev.instrs.drop_last().push(last_new), opens: prev.opens },
            ));
            assert(trim(st.instrs) =~= prev.instrs.drop_last().push(last_new));
            assert(rebuild_ok(st));
        } else {
            assert(trim(prev.instrs) == prev.instrs);
            assert(ir::build_spec(e) == Some(
                ir::BuildSt { instrs: prev.instrs, opens: prev.opens },
            ));
            assert(ir::build_step(ir::BuildSt { instrs: prev.instrs, opens: prev.opens }, c)
                == Some(ir::BuildSt { instrs: st.instrs, opens: prev.opens }));
            assert(trim(st.instrs) == st.instrs);
            assert(rebuild_ok(st));
        }
        if is_arith(last_new) {
            assert(expand(st.instrs, (pl - 1) as nat) == expand(prev.instrs, (pl - 1) as nat));
            assert(rebuild_prefix_ok(st));
        }
    }
}

/// A step that appends a fresh instruction (anything but a loop-close)
/// rebuilds: the serialization grows by exactly that one command.
proof fn lemma_rebuild_push(prev: ir::BuildSt, st: ir::BuildSt, c: Opcode)
    requires
        ir::build_step(prev, c) == Some(st),
        c != Opcode::RB,
        st.instrs.len() == prev.instrs.len() + 1,
        shape_ok(prev, (u32::MAX - 1) as nat),
        no_zero_interior(st.instrs),
        no_zero_interior(prev.instrs) ==> rebuild_ok(prev) && rebuild_prefix_ok(prev),
    ensures
        rebuild_ok(st),
        rebuild_prefix_ok(st),
{
    let pl = prev.instrs.len();
    let last_new = st.instrs.last();
    match c {
        Opcode::SHL => {
            assert(st.instrs == prev.instrs.push(ir::IR::SHL(1)));
        },
        Opcode::SHR => {
            assert(st.instrs == prev.instrs.push(ir::IR::SHR(1)));
        },
        Opcode::ADD => {
            assert(st.instrs == prev.instrs.push(ir::IR::ADD(1)));
        },
        Opcode::SUB => {
            assert(st.instrs == prev.instrs.push(ir::IR::SUB(1)));
        },
        Opcode::PUTCHAR => {
            assert(st.instrs == prev.instrs.push(ir::IR::PUTCHAR));
        },
        Opcode::GETCHAR => {
            assert(st.instrs == prev.instrs.push(ir::IR::GETCHAR));
        },
        Opcode::LB => {
            assert(st.instrs == prev.instrs.push(ir::IR::JIZ(0)));
        },
        Opcode::RB => {
            assert(false);
        },
    }
    assert(st.instrs == prev.instrs.push(last_new));
    assert forall|k: int| 0 <= k < pl - 1 implies !arith_zero(#[trigger] prev.instrs[k]) by {
        assert(prev.instrs[k] == st.instrs[k]);
    }
    assert(no_zero_interior(prev.instrs));
    assert(pl > 0 ==> prev.instrs.last() == st.instrs[pl - 1]);
    assert(pl > 0 ==> !arith_zero(prev.instrs.last()));
    assert(trim(prev.instrs) == prev.instrs);
    assert forall|k: int|
        0 <= k < pl implies expand_ir(#[trigger] st.instrs[k]) == expand_ir(prev.instrs[k]) by {
        assert(prev.instrs[k] == st.instrs[k]);
    }
    lemma_expand_congruent(st.instrs, prev.instrs, pl);
    let e = expand(prev.instrs, pl);
    assert(expand_ir(last_new) =~= seq![c]);
    assert(expand(st.instrs, pl + 1) =~= e.push(c));
    lemma_build_snoc(e, c);
    assert(ir::build_spec(e) == Some(ir::BuildSt { instrs: prev.instrs, opens: prev.opens }));
    assert(ir::build_step(ir::BuildSt { instrs: prev.instrs, opens: prev.opens }, c) == Some(
        ir::BuildSt { instrs: st.instrs, opens: st.opens },
    ));
    assert(trim(st.instrs) == st.instrs);
    assert(rebuild_ok(st));
    if is_arith(last_new) {
        assert(expand(st.instrs, pl) == e);
        assert(st.instrs.drop_last() =~= prev.instrs);
        assert(rebuild_prefix_ok(st));
    }
}

/// A loop-close step rebuilds: it appends one close command, and the
/// rebuilt fold pops the same pending open and patches the same target.
proof fn lemma_rebuild_close(prev: ir::BuildSt, st: ir::BuildSt)
    requires
        ir::build_step(prev, Opcode::RB) == Some(st),
        prev.opens.len() > 0,
        shape_ok(prev, (u32::MAX - 1) as nat),
        ir::build_wf(prev),
        no_zero_interior(st.instrs),
        no_zero_interior(prev.instrs) ==> rebuild_ok(prev) && rebuild_prefix_ok(prev),
    ensures
        rebuild_ok(st),
        rebuild_prefix_ok(st),
{
    let pl = prev.instrs.len();
    let j = prev.opens.last();
    let target = pl as u32;
    assert(st.instrs == prev.instrs.push(ir::IR::JNZ(j)).update(j as int, ir::IR::JIZ(target)));
    assert(st.opens == prev.opens.drop_last());
    assert(prev.instrs[j as int] matches ir::IR::JIZ(_));
    assert(st.instrs.len() == pl + 1);
    assert(st.instrs[pl as int] == ir::IR::JNZ(j));
    assert forall|k: int| 0 <= k < pl - 1 implies !arith_zero(#[trigger] prev.instrs[k]) by {
        if k == j {
            assert(prev.instrs[k] matches ir::IR::JIZ(_));
        } else {
            assert(prev.instrs[k] == st.instrs[k]);
            assert(!arith_zero(st.instrs[k]));
        }
    }
    assert(no_zero_interior(prev.instrs));
    if pl > 0 {
        if j as int == pl - 1 {
            assert(prev.instrs[pl - 1] matches ir::IR::JIZ(_));
        } else {
            assert(st.instrs[pl - 1] == prev.instrs[pl - 1]);
            assert(!arith_zero(st.instrs[pl - 1]));
        }
    }
    assert(pl > 0 ==> !arith_zero(prev.instrs.last()));
    assert(trim(prev.instrs) == prev.instrs);
    assert forall|k: int|
        0 <= k < pl implies expand_ir(#[trigger] st.instrs[k]) == expand_ir(prev.instrs[k]) by {
        if k == j {
            assert(st.instrs[k] matches ir::IR::JIZ(_));
            assert(prev.instrs[k] matches ir::IR::JIZ(_));
        } else {
            assert(prev.instrs[k] == st.instrs[k]);
        }
    }
    lemma_expand_congruent(st.instrs, prev.instrs, pl);
    let e = expand(prev.instrs, pl);
    assert(expand_ir(st.instrs[pl as int]) =~= seq![Opcode::RB]);
    assert(expand(st.instrs, pl + 1) =~= e.push(Opcode::RB));
    lemma_build_snoc(e, Opcode::RB);
    assert(ir::build_spec(e) == Some(ir::BuildSt { instrs: prev.instrs, opens: prev.opens }));
    assert(ir::build_step(ir::BuildSt { instrs: prev.instrs, opens: prev.opens }, Opcode::RB)
        == Some(ir::BuildSt { instrs: st.instrs, opens: st.opens }));
    assert(trim(st.instrs) == st.instrs);
    assert(rebuild_ok(st));
    assert(rebuild_prefix_ok(st));
}

/// The builder's fold, replayed on the serialization of its own state,
/// reproduces that state step for step.
#[verifier::rlimit(100)]
proof fn lemma_rebuild_invariant(cmds: Seq<Opcode>, n: nat)
    requires
        n <= cmds.len(),
        cmds.len() <= u32::MAX,
    ensures
        ir::build_upto(cmds, n) matches Some(st) ==> shape_ok(st, n) && (no_zero_interior(
            st.instrs,
        ) ==> rebuild_ok(st) && rebuild_prefix_ok(st)),
    decreases n,
{
    if n == 0 {
        let e = Seq::<Opcode>::empty();
        assert(ir::build_upto(e, 0) == Some(
            ir::BuildSt { instrs: Seq::<ir::IR>::empty(), opens: Seq::<u32>::empty() },
        ));
        assert(expand(Seq::<ir::IR>::empty(), 0) == e);
        return;
    }
    lemma_rebuild_invariant(cmds, (n - 1) as nat);
    if ir::build_upto(cmds, n) is None {
        return;
    }
    ir::lemma_build_len(cmds, (n - 1) as nat);
    let prev = ir::build_upto(cmds, (n - 1) as nat)->Some_0;
    let st = ir::build_upto(cmds, n)->Some_0;
    let c = cmds[n - 1];
    assert(ir::build_step(prev, c) == Some(st));
    assert(shape_ok(prev, (u32::MAX - 1) as nat));
    assert(shape_ok(st, n));
    if no_zero_interior(st.instrs) {
        if c == Opcode::RB {
            lemma_rebuild_close(prev, st);
        } else if st.instrs.len() == prev.instrs.len() {
            lemma_rebuild_merge(prev, st, c);
        } else {
            lemma_rebuild_push(prev, st, c);
        }
    }
}

/// Coalescing idempotence: serializing the builder's output back to
/// commands and rebuilding it yields the very same instruction sequence,
/// for outputs in which no arithmetic amount wrapped to zero (an amount
/// that wrapped, say from 256 increment commands, serializes to no
/// commands and cannot be rebuilt).
pub proof fn lemma_coalescing_idempotent(cmds: Seq<Opcode>)
    requires
        cmds.len() <= u32::MAX,
        ir::build_spec(cmds) is Some,
        forall|k: int|
            0 <= k < ir::build_spec(cmds)->Some_0.instrs.len() ==> !arith_zero(
                #[trigger] ir::build_spec(cmds)->Some_0.instrs[k],
            ),
    ensures
        ({
            let b = ir::build_spec(cmds)->Some_0;
            ir::build_spec(expand(b.instrs, b.instrs.len())) matches Some(b2) && b2.instrs
                == b.instrs && b2.opens == b.opens
        }),
{
    lemma_rebuild_invariant(cmds, cmds.len());
    let b = ir::build_spec(cmds)->Some_0;
    if b.instrs.len() > 0 {
        assert(!arith_zero(b.instrs[b.instrs.len() - 1]));
    }
    assert(trim(b.instrs) == b.instrs);
}

} // verus!
