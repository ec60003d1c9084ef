//! What the target machine does with a whole program, jumps included, and
//! what the translations of comparisons, calls and returns therefore do.

use crate::assembly::{Cell, Comp, Dest, Instr, Jump};
use crate::codegen::{
    call_code, call_to, compare_code, compare_jump, else_label, enter_code, function_code, goto_code,
    if_goto_code, leave_code, loop_label, push_code, push_from_d, restore_code, return_code, return_label,
    save_code, true_label, unit_symbol,
};
use crate::command::{BooleanOperator, Segment};
use crate::machine::{
    after_push, after_push_constant, cell_address, jump_free, lemma_run_concat,
    lemma_run_push_constant, lemma_run_push_from_d, lemma_transfer_jump_free, run, run_upto,
    step, store, value, word, words, wrap, Machine,
};
use vstd::prelude::*;

verus! {

/// A machine at work: its registers and memory, and the index in the
/// program of the instruction that comes next.
pub struct Running {
    pub m: Machine,
    pub pc: int,
}

/// Whether a jump is taken on the word `v`, read as a signed number.
pub open spec fn jumps(j: Jump, v: int) -> bool {
    match j {
        Jump::Never => false,
        Jump::IfZero => v == 0,
        Jump::IfPositive => 0 < v < 32768,
        Jump::IfNegative => v >= 32768,
        Jump::IfNonZero => v != 0,
        Jump::Always => true,
    }
}

/// The index of the instruction that follows `i`, which stands at `pc`: the
/// address in `A` where `i` jumps, else the next index.
pub open spec fn next_pc(m: Machine, i: Instr, pc: int) -> int {
    match i {
        Instr::Compute(_, c, j) => if jumps(j, wrap(value(c, m))) {
            m.a
        } else {
            pc + 1
        },
        _ => pc + 1,
    }
}

/// The machine after the instruction at its program counter.
pub open spec fn advance(program: Seq<Instr>, symbols: Map<Seq<char>, int>, r: Running) -> Running {
    Running {
        m: step(r.m, program[r.pc], symbols),
        pc: next_pc(r.m, program[r.pc], r.pc),
    }
}

/// The machine after `n` instructions.
pub open spec fn after(program: Seq<Instr>, symbols: Map<Seq<char>, int>, r: Running, n: nat) -> Running
    decreases n,
{
    if n == 0 {
        r
    } else {
        advance(program, symbols, after(program, symbols, r, (n - 1) as nat))
    }
}

/// Whether `symbols` gives each label of `program` the index at which the
/// program defines it. (Code addresses count the labels too.)
pub open spec fn placed(program: Seq<Instr>, symbols: Map<Seq<char>, int>) -> bool {
    forall|k: int, name: Seq<char>|
        0 <= k < program.len() && #[trigger] program[k] == Instr::Label(name) ==> #[trigger] symbols[name] == k
}

/// Whether `code` stands in `program` from index `at` on.
pub open spec fn holds_at(program: Seq<Instr>, at: int, code: Seq<Instr>) -> bool {
    0 <= at && at + code.len() <= program.len() && program.subrange(at, at + code.len()) == code
}

/// The address of a label that the program defines at index `k`.
pub proof fn lemma_label_address(
    program: Seq<Instr>,
    symbols: Map<Seq<char>, int>,
    k: int,
    name: Seq<char>,
)
    requires
        placed(program, symbols),
        0 <= k < program.len(),
        program[k] == Instr::Label(name),
    ensures
        symbols[name] == k,
{
}

/// Running `a` instructions and then `b` more is running `a + b`.
pub proof fn lemma_after_sum(
    program: Seq<Instr>,
    symbols: Map<Seq<char>, int>,
    r: Running,
    a: nat,
    b: nat,
)
    ensures
        after(program, symbols, r, a + b) == after(program, symbols, after(program, symbols, r, a), b),
    decreases b,
{
    if b > 0 {
        lemma_after_sum(program, symbols, r, a, (b - 1) as nat);
        assert((a + b - 1) as nat == a + (b - 1) as nat);
    }
}

/// A stretch of the program without jumps is run from its start to its
/// end, one instruction after the other.
pub proof fn lemma_after_stretch(
    program: Seq<Instr>,
    symbols: Map<Seq<char>, int>,
    r: Running,
    code: Seq<Instr>,
)
    requires
        holds_at(program, r.pc, code),
        jump_free(code),
    ensures
        after(program, symbols, r, code.len()) == (Running {
            m: run(r.m, code, symbols),
            pc: r.pc + code.len(),
        }),
{
    lemma_after_stretch_upto(program, symbols, r, code, code.len());
}

proof fn lemma_after_stretch_upto(
    program: Seq<Instr>,
    symbols: Map<Seq<char>, int>,
    r: Running,
    code: Seq<Instr>,
    n: nat,
)
    requires
        holds_at(program, r.pc, code),
        jump_free(code),
        n <= code.len(),
    ensures
        after(program, symbols, r, n) == (Running {
            m: run_upto(r.m, code, symbols, n as int),
            pc: r.pc + n,
        }),
    decreases n,
{
    if n > 0 {
        lemma_after_stretch_upto(program, symbols, r, code, (n - 1) as nat);
        assert(program[r.pc + n - 1] == program.subrange(r.pc, r.pc + code.len())[n - 1]);
        assert(program[r.pc + n - 1] == code[n - 1]);
    }
}

/// The instruction at an index of `code` when `code` stands at `at`.
pub proof fn lemma_holds_index(program: Seq<Instr>, at: int, code: Seq<Instr>, k: int)
    requires
        holds_at(program, at, code),
        0 <= k < code.len(),
    ensures
        program[at + k] == code[k],
{
    assert(program[at + k] == program.subrange(at, at + code.len())[k]);
}

/// Where a part of `code` stands when `code` stands at `at`.
pub proof fn lemma_holds_part(program: Seq<Instr>, at: int, code: Seq<Instr>, from: int, to: int)
    requires
        holds_at(program, at, code),
        0 <= from <= to <= code.len(),
    ensures
        holds_at(program, at + from, code.subrange(from, to)),
{
    assert(program.subrange(at + from, at + to) =~= code.subrange(from, to)) by {
        assert forall|k: int| 0 <= k < to - from implies program.subrange(at + from, at + to)[k]
            == code.subrange(from, to)[k] by {
            assert(program[at + from + k] == program.subrange(at, at + code.len())[from + k]);
        }
    }
}

/// The word that a comparison leaves: all ones where it holds, zero where
/// it does not.
pub open spec fn sentinel(holds: bool) -> int {
    if holds {
        65535
    } else {
        0
    }
}

/// Whether a comparison holds of the left operand `x` and the right
/// operand `y`: by the sign of their difference in 16-bit arithmetic.
pub open spec fn compares(op: BooleanOperator, x: int, y: int) -> bool {
    jumps(compare_jump(op), wrap(x - y))
}

/// The memory after a comparison: the two topmost slots of the stack gave
/// way to one that holds the sentinel.
pub open spec fn after_compare(m: Machine, op: BooleanOperator) -> spec_fn(int) -> int {
    let right_at = wrap((m.ram)(0) - 1);
    let left_at = wrap(right_at - 1);
    let holds = compares(op, (m.ram)(left_at), (m.ram)(right_at));
    let stored = store(m.ram, left_at, sentinel(holds));
    store(stored, 0, wrap(stored(0) - 1))
}

/// The number of instructions that a comparison runs through.
pub open spec fn compare_steps(holds: bool) -> nat {
    if holds {
        16
    } else {
        17
    }
}

/// A comparison, whichever branch it takes, ends behind its last
/// instruction, with the sentinel of its outcome in place of its two
/// operands and the stack pointer one slot down.
pub proof fn lemma_compare(
    program: Seq<Instr>,
    symbols: Map<Seq<char>, int>,
    r: Running,
    op: BooleanOperator,
    ordinal: nat,
)
    requires
        placed(program, symbols),
        holds_at(program, r.pc, compare_code(op, ordinal)),
        words(r.m),
    ensures
        ({
            let right_at = wrap((r.m.ram)(0) - 1);
            let left_at = wrap(right_at - 1);
            let holds = compares(op, (r.m.ram)(left_at), (r.m.ram)(right_at));
            let end = after(program, symbols, r, compare_steps(holds));
            &&& end.pc == r.pc + compare_code(op, ordinal).len()
            &&& end.m.ram == after_compare(r.m, op)
        }),
{
    let code = compare_code(op, ordinal);
    let m = r.m;
    let o = r.pc;
    let sp = (m.ram)(0);
    let right_at = wrap(sp - 1);
    let left_at = wrap(right_at - 1);
    let x = (m.ram)(left_at);
    let y = (m.ram)(right_at);
    let holds = compares(op, x, y);
    assert(word(sp) && word(x) && word(y));
    lemma_holds_index(program, o, code, 6);
    lemma_holds_index(program, o, code, 9);
    lemma_holds_index(program, o, code, 10);
    lemma_holds_index(program, o, code, 12);
    lemma_label_address(program, symbols, o + 10, true_label(ordinal));
    lemma_label_address(program, symbols, o + 12, else_label(ordinal));

    // up to the test
    let head = code.subrange(0, 6);
    lemma_holds_part(program, o, code, 0, 6);
    assert(jump_free(head));
    lemma_after_stretch(program, symbols, r, head);
    let r1 = after(program, symbols, r, 6);
    assert(r1.pc == o + 6);
    lemma_compare_head(m, op, ordinal, symbols);
    assert(r1.m == Machine { a: o + 10, d: wrap(x - y), ram: m.ram });
    // the test
    let r2 = after(program, symbols, r, 7);
    assert(r2 == advance(program, symbols, r1));
    assert(program[o + 6] == code[6]);
    assert(r2.m == r1.m);
    let tail = code.subrange(13, 19);
    lemma_holds_part(program, o, code, 13, 19);
    assert(jump_free(tail));
    if holds {
        assert(r2.pc == o + 10);
        // (TRUE), D=-1, (ELSE)
        let set_true = code.subrange(10, 13);
        lemma_holds_part(program, o, code, 10, 13);
        assert(jump_free(set_true));
        lemma_after_stretch(program, symbols, r2, set_true);
        lemma_after_sum(program, symbols, r, 7, 3);
        let r3 = after(program, symbols, r, 10);
        assert(r3.pc == o + 13);
        lemma_compare_branches(r2.m, op, ordinal, symbols);
        assert(r3.m == Machine { d: 65535, ..r2.m });
        lemma_after_stretch(program, symbols, r3, tail);
        lemma_after_sum(program, symbols, r, 10, 6);
        lemma_compare_tail(r3.m, tail, symbols, op, ordinal);
    } else {
        assert(r2.pc == o + 7);
        // D=0, @ELSE, 0;JMP
        let set_false = code.subrange(7, 9);
        lemma_holds_part(program, o, code, 7, 9);
        assert(jump_free(set_false));
        lemma_after_stretch(program, symbols, r2, set_false);
        lemma_after_sum(program, symbols, r, 7, 2);
        let r3 = after(program, symbols, r, 9);
        assert(r3.pc == o + 9);
        lemma_compare_branches(r2.m, op, ordinal, symbols);
        assert(r3.m == Machine { a: o + 12, d: 0, ram: m.ram });
        let r4 = after(program, symbols, r, 10);
        assert(r4 == advance(program, symbols, r3));
        assert(program[o + 9] == code[9]);
        assert(r4.pc == o + 12 && r4.m == r3.m);
        // (ELSE)
        let meet = code.subrange(12, 13);
        lemma_holds_part(program, o, code, 12, 13);
        assert(jump_free(meet));
        lemma_after_stretch(program, symbols, r4, meet);
        lemma_after_sum(program, symbols, r, 10, 1);
        let r5 = after(program, symbols, r, 11);
        assert(r5.pc == o + 13);
        lemma_compare_branches(r4.m, op, ordinal, symbols);
        assert(r5.m == r4.m);
        lemma_after_stretch(program, symbols, r5, tail);
        lemma_after_sum(program, symbols, r, 11, 6);
        lemma_compare_tail(r5.m, tail, symbols, op, ordinal);
    }
}

/// What a comparison does up to its test: `D` holds the left operand minus
/// the right one, `A` the address of the label for a comparison that
/// holds.
proof fn lemma_compare_head(
    m: Machine,
    op: BooleanOperator,
    ordinal: nat,
    symbols: Map<Seq<char>, int>,
)
    requires
        words(m),
    ensures
        ({
            let right_at = wrap((m.ram)(0) - 1);
            let left_at = wrap(right_at - 1);
            run(m, compare_code(op, ordinal).subrange(0, 6), symbols) == (Machine {
                a: symbols[true_label(ordinal)],
                d: wrap((m.ram)(left_at) - (m.ram)(right_at)),
                ram: m.ram,
            })
        }),
{
    let head = compare_code(op, ordinal).subrange(0, 6);
    let right_at = wrap((m.ram)(0) - 1);
    let left_at = wrap(right_at - 1);
    assert(word((m.ram)(0)) && word((m.ram)(right_at)) && word((m.ram)(left_at)));
    reveal_with_fuel(run_upto, 7);
    let m3 = run_upto(m, head, symbols, 3);
    assert(m3 == Machine { a: right_at, d: (m.ram)(right_at), ram: m.ram });
    let m5 = run_upto(m, head, symbols, 5);
    assert(m5 == Machine { a: left_at, d: wrap((m.ram)(left_at) - (m.ram)(right_at)), ram: m.ram });
}

/// What the two branches of a comparison and the label where they meet do
/// to the registers.
proof fn lemma_compare_branches(
    m: Machine,
    op: BooleanOperator,
    ordinal: nat,
    symbols: Map<Seq<char>, int>,
)
    ensures
        run(m, compare_code(op, ordinal).subrange(7, 9), symbols) == (Machine {
            a: symbols[else_label(ordinal)],
            d: 0,
            ram: m.ram,
        }),
        run(m, compare_code(op, ordinal).subrange(10, 13), symbols) == (Machine { d: 65535, ..m }),
        run(m, compare_code(op, ordinal).subrange(12, 13), symbols) == m,
{
    reveal_with_fuel(run_upto, 4);
}

/// What the last six instructions of a comparison do: they store `D` over
/// the left operand and move the stack pointer one slot down.
proof fn lemma_compare_tail(
    m: Machine,
    tail: Seq<Instr>,
    symbols: Map<Seq<char>, int>,
    op: BooleanOperator,
    ordinal: nat,
)
    requires
        tail == compare_code(op, ordinal).subrange(13, 19),
        word(m.d),
        forall|x: int| word(#[trigger] (m.ram)(x)),
    ensures
        ({
            let left_at = wrap(wrap((m.ram)(0) - 1) - 1);
            let stored = store(m.ram, left_at, m.d);
            run(m, tail, symbols).ram == store(stored, 0, wrap(stored(0) - 1))
        }),
{
    let sp = (m.ram)(0);
    assert(word(sp));
    let left_at = wrap(wrap(sp - 1) - 1);
    reveal_with_fuel(run_upto, 7);
    let m3 = run_upto(m, tail, symbols, 3);
    assert(m3 == Machine { a: left_at, ..m });
    let m4 = run_upto(m, tail, symbols, 4);
    assert(m4 == Machine { ram: store(m.ram, left_at, m.d), ..m3 });
}

/// The machine after the value of a named cell was pushed.
pub open spec fn after_save(m: Machine, c: Cell) -> Machine {
    after_push(Machine { a: cell_address(c), d: (m.ram)(cell_address(c)), ram: m.ram })
}

/// What the code that pushes a named cell does.
pub proof fn lemma_run_save(m: Machine, c: Cell, symbols: Map<Seq<char>, int>)
    requires
        forall|x: int| word(#[trigger] (m.ram)(x)),
    ensures
        run(m, save_code(c), symbols) == after_save(m, c),
{
    let head = seq![
        Instr::Address(c),
        Instr::Compute(Dest::D, Comp::M, Jump::Never),
    ];
    assert(save_code(c) == head + push_from_d());
    lemma_run_concat(m, head, push_from_d(), symbols);
    let at = cell_address(c);
    assert(word((m.ram)(at)) && word((m.ram)(0)));
    let m1 = run(m, head, symbols);
    assert(m1 == Machine { a: at, d: (m.ram)(at), ram: m.ram }) by {
        reveal_with_fuel(run_upto, 3);
    }
    lemma_run_push_from_d(m1, symbols);
}

/// The machine when a call jumps: `ARG` points below the arguments and the
/// saved frame, `LCL` at the top of the stack, and `A` at the function.
pub open spec fn after_enter(m: Machine, target: int, args: nat) -> Machine {
    let sp = (m.ram)(0);
    let moved = store(m.ram, 2, wrap(wrap(sp - 5) - wrap(args as int)));
    Machine { a: target, d: sp, ram: store(moved, 1, sp) }
}

/// What the end of a call does up to its jump.
pub proof fn lemma_run_enter(
    m: Machine,
    back: Seq<char>,
    name: Seq<char>,
    args: nat,
    symbols: Map<Seq<char>, int>,
)
    requires
        forall|x: int| word(#[trigger] (m.ram)(x)),
    ensures
        run(m, enter_code(back, name, args).subrange(0, 13), symbols) == after_enter(
            m,
            symbols[name],
            args,
        ),
{
    let code = enter_code(back, name, args).subrange(0, 13);
    let sp = (m.ram)(0);
    assert(word(sp));
    reveal_with_fuel(run_upto, 14);
    let m2 = run_upto(m, code, symbols, 2);
    assert(m2 == Machine { a: 0, d: sp, ram: m.ram });
    let m4 = run_upto(m, code, symbols, 4);
    assert(m4 == Machine { a: 5, d: wrap(sp - 5), ram: m.ram });
    let m6 = run_upto(m, code, symbols, 6);
    assert(m6 == Machine {
        a: wrap(args as int),
        d: wrap(wrap(sp - 5) - wrap(args as int)),
        ram: m.ram,
    });
    let m8 = run_upto(m, code, symbols, 8);
    let moved = store(m.ram, 2, wrap(wrap(sp - 5) - wrap(args as int)));
    assert(m8 == Machine { a: 2, d: m6.d, ram: moved });
    let m10 = run_upto(m, code, symbols, 10);
    assert(m10 == Machine { a: 0, d: sp, ram: moved });
    let m12 = run_upto(m, code, symbols, 12);
    assert(m12 == Machine { a: 1, d: sp, ram: store(moved, 1, sp) });
}

/// The machine after the start of a return: the return address is in cell
/// 13, the returned value where `ARG` points, and the stack pointer one
/// cell above it.
pub open spec fn after_leave(m: Machine) -> Machine {
    let back = (m.ram)(wrap((m.ram)(1) - 5));
    let stashed = store(m.ram, 13, back);
    let lowered = store(stashed, 0, wrap(stashed(0) - 1));
    let top = lowered(lowered(0));
    let handed = store(lowered, lowered(2), top);
    Machine { a: 0, d: handed(2), ram: store(handed, 0, wrap(handed(2) + 1)) }
}

/// What the start of a return does.
pub proof fn lemma_run_leave(m: Machine, symbols: Map<Seq<char>, int>)
    requires
        forall|x: int| word(#[trigger] (m.ram)(x)),
    ensures
        run(m, leave_code(), symbols) == after_leave(m),
{
    let code = leave_code();
    let first = code.subrange(0, 9);
    let second = code.subrange(9, 18);
    assert(code =~= first + second);
    lemma_run_concat(m, first, second, symbols);
    let lcl = (m.ram)(1);
    let back = (m.ram)(wrap(lcl - 5));
    assert(word(lcl) && word(back));
    let stashed = store(m.ram, 13, back);
    assert(word(stashed(0))) by {
        assert(word((m.ram)(0)));
    }
    let lowered = store(stashed, 0, wrap(stashed(0) - 1));
    let m9 = run(m, first, symbols);
    assert(m9 == Machine { a: 0, d: back, ram: lowered }) by {
        reveal_with_fuel(run_upto, 10);
        let m2 = run_upto(m, first, symbols, 2);
        assert(m2 == Machine { a: 1, d: lcl, ram: m.ram });
        let m5 = run_upto(m, first, symbols, 5);
        assert(m5 == Machine { a: wrap(lcl - 5), d: back, ram: m.ram });
        let m7 = run_upto(m, first, symbols, 7);
        assert(m7 == Machine { a: 13, d: back, ram: stashed });
    }
    assert forall|x: int| word(#[trigger] lowered(x)) by {
        assert(word((m.ram)(x)));
    }
    let top = lowered(lowered(0));
    let handed = store(lowered, lowered(2), top);
    assert(word(top) && word(lowered(0)) && word(lowered(2)));
    assert(word(handed(2)));
    assert(run(m9, second, symbols) == after_leave(m)) by {
        reveal_with_fuel(run_upto, 10);
        let n2 = run_upto(m9, second, symbols, 2);
        assert(n2 == Machine { a: lowered(0), d: top, ram: lowered });
        let n5 = run_upto(m9, second, symbols, 5);
        assert(n5 == Machine { a: lowered(2), d: top, ram: handed });
        let n7 = run_upto(m9, second, symbols, 7);
        assert(n7 == Machine { a: 2, d: handed(2), ram: handed });
    }
}

/// The machine after `LCL` went one cell down and the cell it then points
/// at was copied to a named cell.
pub open spec fn after_restore(m: Machine, c: Cell) -> Machine {
    let stepped = store(m.ram, 1, wrap((m.ram)(1) - 1));
    let saved = stepped(stepped(1));
    Machine { a: cell_address(c), d: saved, ram: store(stepped, cell_address(c), saved) }
}

/// What the code that restores a named cell does.
pub proof fn lemma_run_restore(m: Machine, c: Cell, symbols: Map<Seq<char>, int>)
    requires
        forall|x: int| word(#[trigger] (m.ram)(x)),
    ensures
        run(m, restore_code(c), symbols) == after_restore(m, c),
{
    let code = restore_code(c);
    let stepped = store(m.ram, 1, wrap((m.ram)(1) - 1));
    assert(word((m.ram)(1)));
    assert(word(stepped(1)));
    assert(word(stepped(stepped(1)))) by {
        assert(word((m.ram)(stepped(1))));
    }
    reveal_with_fuel(run_upto, 7);
    let m2 = run_upto(m, code, symbols, 2);
    assert(m2 == Machine { a: 1, d: m.d, ram: stepped });
    let m4 = run_upto(m, code, symbols, 4);
    assert(m4 == Machine { a: stepped(1), d: stepped(stepped(1)), ram: stepped });
}

/// Storing a word keeps a memory of words one.
pub proof fn lemma_store_words(ram: spec_fn(int) -> int, at: int, v: int)
    requires
        forall|x: int| word(#[trigger] ram(x)),
        word(v),
    ensures
        forall|x: int| word(#[trigger] store(ram, at, v)(x)),
{
    assert forall|x: int| word(#[trigger] store(ram, at, v)(x)) by {
        assert(word(ram(x)));
    }
}

/// Pushing a word keeps a memory of words one.
pub proof fn lemma_push_words(m: Machine)
    requires
        forall|x: int| word(#[trigger] (m.ram)(x)),
        word(m.d),
    ensures
        forall|x: int| word(#[trigger] (after_push(m).ram)(x)),
{
    let stored = store(m.ram, (m.ram)(0), m.d);
    lemma_store_words(m.ram, (m.ram)(0), m.d);
    lemma_store_words(stored, 0, wrap(stored(0) + 1));
}

/// What a call does up to its jump: it pushes the return address and the
/// four base pointers, points `ARG` at the first argument and `LCL` at the
/// top of the stack, and has the function's address in `A`. This is stated
/// of every machine whose stack lies above the named cells and has room
/// for the five saved cells, and which holds at least `args` cells.
pub proof fn lemma_run_call(
    m: Machine,
    back: Seq<char>,
    name: Seq<char>,
    args: nat,
    symbols: Map<Seq<char>, int>,
)
    requires
        words(m),
        word(symbols[back]),
        4 < (m.ram)(0),
        (m.ram)(0) + 5 < 65536,
        args <= (m.ram)(0),
    ensures
        jump_free(call_to(back, name, args).subrange(0, 48)),
        ({
            let f = run(m, call_to(back, name, args).subrange(0, 48), symbols);
            let sp = (m.ram)(0);
            &&& f.a == symbols[name]
            &&& (f.ram)(0) == sp + 5
            &&& (f.ram)(1) == sp + 5
            &&& (f.ram)(2) == sp - args
            &&& (f.ram)(3) == (m.ram)(3)
            &&& (f.ram)(4) == (m.ram)(4)
            &&& (f.ram)(sp) == symbols[back]
            &&& (f.ram)(sp + 1) == (m.ram)(1)
            &&& (f.ram)(sp + 2) == (m.ram)(2)
            &&& (f.ram)(sp + 3) == (m.ram)(3)
            &&& (f.ram)(sp + 4) == (m.ram)(4)
            &&& forall|x: int| 4 < x && !(sp <= x <= sp + 4) ==> #[trigger] (f.ram)(x) == (m.ram)(x)
            &&& forall|x: int| word(#[trigger] (f.ram)(x))
        }),
{
    let sp = (m.ram)(0);
    let address = symbols[back];
    let code = call_to(back, name, args).subrange(0, 48);
    let head = seq![
        Instr::Symbol(back),
        Instr::Compute(Dest::D, Comp::A, Jump::Never),
    ];
    let enter = enter_code(back, name, args).subrange(0, 13);
    let p1 = head + push_from_d();
    let p2 = p1 + save_code(Cell::Lcl);
    let p3 = p2 + save_code(Cell::Arg);
    let p4 = p3 + save_code(Cell::This);
    let p5 = p4 + save_code(Cell::That);
    assert(code =~= p5 + enter);
    assert(jump_free(code));
    assert(word(sp));
    lemma_run_concat(m, p5, enter, symbols);
    lemma_run_concat(m, p4, save_code(Cell::That), symbols);
    lemma_run_concat(m, p3, save_code(Cell::This), symbols);
    lemma_run_concat(m, p2, save_code(Cell::Arg), symbols);
    lemma_run_concat(m, p1, save_code(Cell::Lcl), symbols);
    lemma_run_concat(m, head, push_from_d(), symbols);
    let m0 = run(m, head, symbols);
    assert(m0 == Machine { a: address, d: address, ram: m.ram }) by {
        reveal_with_fuel(run_upto, 3);
    }
    lemma_run_push_from_d(m0, symbols);
    let m1 = after_push(m0);
    lemma_push_words(m0);
    assert((m1.ram)(0) == sp + 1 && (m1.ram)(sp) == address);
    lemma_run_save(m1, Cell::Lcl, symbols);
    let m2 = after_save(m1, Cell::Lcl);
    assert(word((m1.ram)(1)));
    lemma_push_words(Machine { a: 1, d: (m1.ram)(1), ram: m1.ram });
    assert((m2.ram)(0) == sp + 2 && (m2.ram)(sp) == address && (m2.ram)(sp + 1) == (m.ram)(1));
    assert(forall|x: int| 0 < x && !(sp <= x <= sp + 1) ==> #[trigger] (m2.ram)(x) == (m.ram)(x));
    lemma_run_save(m2, Cell::Arg, symbols);
    let m3 = after_save(m2, Cell::Arg);
    assert(word((m2.ram)(2)));
    lemma_push_words(Machine { a: 2, d: (m2.ram)(2), ram: m2.ram });
    assert((m3.ram)(0) == sp + 3 && (m3.ram)(sp) == address && (m3.ram)(sp + 1) == (m.ram)(1) && (
    m3.ram)(sp + 2) == (m.ram)(2));
    assert(forall|x: int| 0 < x && !(sp <= x <= sp + 2) ==> #[trigger] (m3.ram)(x) == (m.ram)(x));
    lemma_run_save(m3, Cell::This, symbols);
    let m4 = after_save(m3, Cell::This);
    assert(word((m3.ram)(3)));
    lemma_push_words(Machine { a: 3, d: (m3.ram)(3), ram: m3.ram });
    assert((m4.ram)(0) == sp + 4 && (m4.ram)(sp) == address && (m4.ram)(sp + 1) == (m.ram)(1) && (
    m4.ram)(sp + 2) == (m.ram)(2) && (m4.ram)(sp + 3) == (m.ram)(3));
    assert(forall|x: int| 0 < x && !(sp <= x <= sp + 3) ==> #[trigger] (m4.ram)(x) == (m.ram)(x));
    lemma_run_save(m4, Cell::That, symbols);
    let m5 = after_save(m4, Cell::That);
    assert(word((m4.ram)(4)));
    lemma_push_words(Machine { a: 4, d: (m4.ram)(4), ram: m4.ram });
    assert((m5.ram)(0) == sp + 5 && (m5.ram)(sp) == address && (m5.ram)(sp + 1) == (m.ram)(1) && (
    m5.ram)(sp + 2) == (m.ram)(2) && (m5.ram)(sp + 3) == (m.ram)(3) && (m5.ram)(sp + 4) == (
    m.ram)(4));
    assert(forall|x: int| 0 < x && !(sp <= x <= sp + 4) ==> #[trigger] (m5.ram)(x) == (m.ram)(x));
    lemma_run_enter(m5, back, name, args, symbols);
    let f = after_enter(m5, symbols[name], args);
    assert(wrap(sp + 5 - 5) == sp && wrap(args as int) == args && wrap(sp - args) == sp - args);
    let moved = store(m5.ram, 2, sp - args);
    lemma_store_words(m5.ram, 2, sp - args);
    lemma_store_words(moved, 1, sp + 5);
    assert(f.ram == store(moved, 1, sp + 5));
}

/// What a return does up to its jump: the value on top of the stack is
/// where `ARG` pointed, the stack pointer one cell above it, the four base
/// pointers are those saved below `LCL`, and `A` holds the return address
/// saved there. This is stated of every machine where `ARG` points above
/// cell 13 and at least five cells below `LCL`, and where the stack holds
/// a value at or above `LCL`.
pub proof fn lemma_run_return(m: Machine, symbols: Map<Seq<char>, int>)
    requires
        forall|x: int| word(#[trigger] (m.ram)(x)),
        13 < (m.ram)(2),
        (m.ram)(2) + 5 <= (m.ram)(1),
        (m.ram)(1) < (m.ram)(0),
    ensures
        jump_free(return_code().subrange(0, 44)),
        ({
            let f = run(m, return_code().subrange(0, 44), symbols);
            let lcl = (m.ram)(1);
            let arg = (m.ram)(2);
            &&& f.a == (m.ram)(lcl - 5)
            &&& (f.ram)(0) == arg + 1
            &&& (f.ram)(1) == (m.ram)(lcl - 4)
            &&& (f.ram)(2) == (m.ram)(lcl - 3)
            &&& (f.ram)(3) == (m.ram)(lcl - 2)
            &&& (f.ram)(4) == (m.ram)(lcl - 1)
            &&& (f.ram)(arg) == (m.ram)((m.ram)(0) - 1)
            &&& forall|x: int| 4 < x && x != 13 && x != arg ==> #[trigger] (f.ram)(x) == (m.ram)(x)
        }),
{
    let code = return_code().subrange(0, 44);
    let lcl = (m.ram)(1);
    let arg = (m.ram)(2);
    let sp = (m.ram)(0);
    assert(word(lcl) && word(arg) && word(sp));
    let last = seq![Instr::Number(13), Instr::Compute(Dest::A, Comp::M, Jump::Never)];
    let p1 = leave_code() + restore_code(Cell::That);
    let p2 = p1 + restore_code(Cell::This);
    let p3 = p2 + restore_code(Cell::Arg);
    let p4 = p3 + restore_code(Cell::Lcl);
    assert(code =~= p4 + last);
    assert(jump_free(code));
    lemma_run_concat(m, p4, last, symbols);
    lemma_run_concat(m, p3, restore_code(Cell::Lcl), symbols);
    lemma_run_concat(m, p2, restore_code(Cell::Arg), symbols);
    lemma_run_concat(m, p1, restore_code(Cell::This), symbols);
    lemma_run_concat(m, leave_code(), restore_code(Cell::That), symbols);
    // the start
    lemma_run_leave(m, symbols);
    let m1 = after_leave(m);
    let back = (m.ram)(lcl - 5);
    let top = (m.ram)(sp - 1);
    assert(wrap(lcl - 5) == lcl - 5 && wrap(sp - 1) == sp - 1 && wrap(arg + 1) == arg + 1);
    assert(word(back) && word(top));
    let stashed = store(m.ram, 13, back);
    let lowered = store(stashed, 0, sp - 1);
    let handed = store(lowered, arg, top);
    assert(m1.ram == store(handed, 0, arg + 1));
    lemma_store_words(m.ram, 13, back);
    lemma_store_words(stashed, 0, sp - 1);
    lemma_store_words(lowered, arg, top);
    lemma_store_words(handed, 0, arg + 1);
    assert((m1.ram)(1) == lcl);
    assert(forall|k: int| 1 <= k <= 4 ==> (m1.ram)(lcl - k) == #[trigger] (m.ram)(lcl - k));
    // the four base pointers
    lemma_run_restore(m1, Cell::That, symbols);
    let m2 = after_restore(m1, Cell::That);
    assert(wrap(lcl - 1) == lcl - 1);
    let s2 = store(m1.ram, 1, lcl - 1);
    assert(m2.ram == store(s2, 4, (m.ram)(lcl - 1)));
    lemma_store_words(m1.ram, 1, lcl - 1);
    lemma_store_words(s2, 4, (m.ram)(lcl - 1));
    lemma_run_restore(m2, Cell::This, symbols);
    let m3 = after_restore(m2, Cell::This);
    assert(wrap(lcl - 2) == lcl - 2);
    let s3 = store(m2.ram, 1, lcl - 2);
    assert(m3.ram == store(s3, 3, (m.ram)(lcl - 2)));
    lemma_store_words(m2.ram, 1, lcl - 2);
    lemma_store_words(s3, 3, (m.ram)(lcl - 2));
    lemma_run_restore(m3, Cell::Arg, symbols);
    let m4 = after_restore(m3, Cell::Arg);
    assert(wrap(lcl - 3) == lcl - 3);
    let s4 = store(m3.ram, 1, lcl - 3);
    assert(m4.ram == store(s4, 2, (m.ram)(lcl - 3)));
    lemma_store_words(m3.ram, 1, lcl - 3);
    lemma_store_words(s4, 2, (m.ram)(lcl - 3));
    lemma_run_restore(m4, Cell::Lcl, symbols);
    let m5 = after_restore(m4, Cell::Lcl);
    assert(wrap(lcl - 4) == lcl - 4);
    let s5 = store(m4.ram, 1, lcl - 4);
    assert(m5.ram == store(s5, 1, (m.ram)(lcl - 4)));
    // the return address
    let f = run(m5, last, symbols);
    assert(f == Machine { a: (m5.ram)(13), ..m5 }) by {
        reveal_with_fuel(run_upto, 3);
        lemma_store_words(m4.ram, 1, lcl - 4);
        lemma_store_words(s5, 1, (m.ram)(lcl - 4));
    }
    assert((m5.ram)(13) == back);
    assert((f.ram)(arg) == top);
    assert forall|x: int| 4 < x && x != 13 && x != arg implies #[trigger] (f.ram)(x) == (m.ram)(
        x,
    ) by {}
}

/// The number of instructions from a call to the label behind it, through
/// a function that clears its local slots and returns at once.
pub open spec fn round_trip_steps(locals: nat) -> nat {
    49 + entry_steps(locals) + 45
}

/// A call of a function that has local slots and returns at once comes
/// back behind the call with the four base pointers as they were before
/// it, the arguments replaced by one returned value (the zero of the last
/// local slot) and nothing changed below them but the scratch cell 13.
/// This is stated of every machine whose arguments lie above cell 13,
/// whose stack has room for the saved frame and the local slots, and where
/// the address behind the call is a word.
pub proof fn lemma_call_and_return(
    program: Seq<Instr>,
    symbols: Map<Seq<char>, int>,
    r: Running,
    ordinal: nat,
    name: Seq<char>,
    args: nat,
    locals: nat,
    entry: int,
)
    requires
        placed(program, symbols),
        holds_at(program, r.pc, call_code(ordinal, name, args)),
        holds_at(program, entry, function_code(name, locals) + return_code()),
        words(r.m),
        0 < locals,
        13 + args < (r.m.ram)(0),
        (r.m.ram)(0) + 5 + locals < 65536,
        r.pc + 49 < 65536,
    ensures
        ({
            let sp = (r.m.ram)(0);
            let end = after(program, symbols, r, round_trip_steps(locals));
            &&& end.pc == r.pc + 49
            &&& (end.m.ram)(0) == sp - args + 1
            &&& (end.m.ram)(1) == (r.m.ram)(1)
            &&& (end.m.ram)(2) == (r.m.ram)(2)
            &&& (end.m.ram)(3) == (r.m.ram)(3)
            &&& (end.m.ram)(4) == (r.m.ram)(4)
            &&& (end.m.ram)(sp - args) == 0
            &&& forall|x: int|
                4 < x < sp - args && x != 13 ==> #[trigger] (end.m.ram)(x) == (r.m.ram)(x)
        }),
{
    let m = r.m;
    let c = r.pc;
    let sp = (m.ram)(0);
    let call = call_code(ordinal, name, args);
    let function = function_code(name, locals);
    let body = function + return_code();
    let n = entry_steps(locals);
    assert(call.len() == 50 && function.len() == 14 && return_code().len() == 45);
    // where the labels are
    lemma_holds_index(program, c, call, 48);
    lemma_holds_index(program, c, call, 49);
    lemma_holds_index(program, entry, body, 0);
    lemma_holds_index(program, entry, body, 58);
    lemma_label_address(program, symbols, c + 49, return_label(ordinal, name));
    lemma_label_address(program, symbols, entry, name);
    // the call, up to its jump
    let prefix = call.subrange(0, 48);
    lemma_holds_part(program, c, call, 0, 48);
    lemma_run_call(m, return_label(ordinal, name), name, args, symbols);
    lemma_after_stretch(program, symbols, r, prefix);
    let r1 = after(program, symbols, r, 48);
    let r2 = after(program, symbols, r, 49);
    assert(r2 == advance(program, symbols, r1));
    assert(r2.pc == entry && r2.m == r1.m);
    // the function's entry
    lemma_holds_part(program, entry, body, 0, 14);
    assert(body.subrange(0, 14) =~= function);
    lemma_function(program, symbols, r2, name, locals);
    lemma_after_sum(program, symbols, r, 49, n);
    let r3 = after(program, symbols, r, 49 + n);
    assert(r3.pc == entry + 14);
    assert(r3.m.ram == cleared(r2.m.ram, sp + 5, locals));
    assert forall|x: int| word(#[trigger] (r3.m.ram)(x)) by {
        assert(word((r2.m.ram)(x)));
    }
    // the return, up to its jump
    lemma_holds_part(program, entry, body, 14, 59);
    assert(body.subrange(14, 59) =~= return_code());
    let back = return_code().subrange(0, 44);
    lemma_holds_part(program, entry + 14, return_code(), 0, 44);
    assert((r3.m.ram)(1) == sp + 5 && (r3.m.ram)(2) == sp - args && (r3.m.ram)(0) == sp + 5
        + locals);
    lemma_run_return(r3.m, symbols);
    lemma_after_stretch(program, symbols, r3, back);
    lemma_after_sum(program, symbols, r, 49 + n, 44);
    let r4 = after(program, symbols, r, 49 + n + 44);
    assert(r4.pc == entry + 58);
    assert(r4.m.a == c + 49);
    lemma_after_sum(program, symbols, r, 49 + n + 44, 1);
    let r5 = after(program, symbols, r, round_trip_steps(locals));
    assert(r5 == advance(program, symbols, r4)) by {
        reveal_with_fuel(after, 2);
    }
    assert(program[entry + 58] == return_code()[44]);
    assert(r5.pc == c + 49 && r5.m == r4.m);
    assert((r5.m.ram)(sp - args) == 0);
    assert forall|x: int| 4 < x < sp - args && x != 13 implies #[trigger] (r5.m.ram)(x) == (
    m.ram)(x) by {
        assert((r3.m.ram)(x) == (r1.m.ram)(x));
    }
}

/// `goto` leaves the memory as it is and goes on at its label.
pub proof fn lemma_goto(
    program: Seq<Instr>,
    symbols: Map<Seq<char>, int>,
    r: Running,
    unit: Seq<char>,
    name: Seq<char>,
)
    requires
        holds_at(program, r.pc, goto_code(unit, name)),
    ensures
        after(program, symbols, r, 2).pc == symbols[unit_symbol(unit, name)],
        after(program, symbols, r, 2).m.ram == r.m.ram,
{
    let code = goto_code(unit, name);
    lemma_holds_index(program, r.pc, code, 0);
    lemma_holds_index(program, r.pc, code, 1);
    reveal_with_fuel(after, 3);
}

/// `if-goto` takes the top of the stack off, whether it jumps or not, and
/// goes on at its label where that value is not zero, behind itself where
/// it is.
pub proof fn lemma_if_goto(
    program: Seq<Instr>,
    symbols: Map<Seq<char>, int>,
    r: Running,
    unit: Seq<char>,
    name: Seq<char>,
)
    requires
        holds_at(program, r.pc, if_goto_code(unit, name)),
        words(r.m),
    ensures
        ({
            let lowered = store(r.m.ram, 0, wrap((r.m.ram)(0) - 1));
            let top = lowered(lowered(0));
            let end = after(program, symbols, r, 6);
            &&& end.m.ram == lowered
            &&& end.pc == if top != 0 {
                symbols[unit_symbol(unit, name)]
            } else {
                r.pc + 6
            }
        }),
{
    let code = if_goto_code(unit, name);
    let m = r.m;
    lemma_holds_index(program, r.pc, code, 5);
    let head = code.subrange(0, 5);
    lemma_holds_part(program, r.pc, code, 0, 5);
    assert(jump_free(head));
    lemma_after_stretch(program, symbols, r, head);
    let lowered = store(m.ram, 0, wrap((m.ram)(0) - 1));
    let top = lowered(lowered(0));
    assert(word((m.ram)(0)));
    lemma_store_words(m.ram, 0, wrap((m.ram)(0) - 1));
    assert(word(lowered(0)) && word(top));
    let r1 = after(program, symbols, r, 5);
    assert(r1.m == Machine { a: symbols[unit_symbol(unit, name)], d: top, ram: lowered }) by {
        reveal_with_fuel(run_upto, 6);
        let m2 = run_upto(m, head, symbols, 2);
        assert(m2 == Machine { a: 0, d: m.d, ram: lowered });
        let m4 = run_upto(m, head, symbols, 4);
        assert(m4 == Machine { a: lowered(0), d: top, ram: lowered });
    }
    assert(after(program, symbols, r, 6) == advance(program, symbols, r1));
}

/// The memory after `count` cells from `from` on were cleared and the
/// stack pointer moved behind them.
pub open spec fn cleared(ram: spec_fn(int) -> int, from: int, count: nat) -> spec_fn(int) -> int {
    |x: int|
        if x == 0 {
            from + count
        } else if from <= x < from + count {
            0
        } else {
            ram(x)
        }
}

/// The number of instructions that `function` runs through.
pub open spec fn entry_steps(locals: nat) -> nat {
    if locals == 0 {
        1
    } else {
        6 + 8 * locals
    }
}

/// The loop of `function`, entered at its label with the number of slots
/// still to clear in `D`, pushes that many zeros and ends at the label
/// behind it.
proof fn lemma_clear_loop(
    program: Seq<Instr>,
    symbols: Map<Seq<char>, int>,
    r: Running,
    name: Seq<char>,
    locals: nat,
    entry: int,
    left: nat,
)
    requires
        placed(program, symbols),
        holds_at(program, entry, function_code(name, locals)),
        locals > 0,
        r.pc == entry + 5,
        forall|x: int| word(#[trigger] (r.m.ram)(x)),
        0 < left < 65536,
        r.m.d == left,
        0 < (r.m.ram)(0),
        (r.m.ram)(0) + left < 65536,
    ensures
        after(program, symbols, r, 8 * left).pc == entry + 13,
        after(program, symbols, r, 8 * left).m.ram =~= cleared(r.m.ram, (r.m.ram)(0), left),
    decreases left,
{
    let code = function_code(name, locals);
    let m = r.m;
    let sp = (m.ram)(0);
    assert(word(sp));
    lemma_holds_index(program, entry, code, 5);
    lemma_holds_index(program, entry, code, 12);
    lemma_label_address(program, symbols, entry + 5, loop_label(name));
    let body = code.subrange(5, 12);
    lemma_holds_part(program, entry, code, 5, 12);
    assert(jump_free(body));
    lemma_after_stretch(program, symbols, r, body);
    let r1 = after(program, symbols, r, 7);
    let pushed = store(store(m.ram, sp, 0), 0, sp + 1);
    assert(r1.m == Machine { a: entry + 5, d: left as int, ram: pushed }) by {
        reveal_with_fuel(run_upto, 8);
        let n3 = run_upto(m, body, symbols, 3);
        assert(n3 == Machine { a: sp, ..m });
        let n4 = run_upto(m, body, symbols, 4);
        assert(n4 == Machine { a: sp, d: m.d, ram: store(m.ram, sp, 0) });
        let n6 = run_upto(m, body, symbols, 6);
        assert(n6 == Machine { a: 0, d: m.d, ram: pushed });
    }
    let r2 = after(program, symbols, r, 8);
    assert(r2 == advance(program, symbols, r1));
    assert(wrap(left - 1) == left - 1);
    assert(r2.m == Machine { d: left - 1, ..r1.m });
    lemma_store_words(m.ram, sp, 0);
    lemma_store_words(store(m.ram, sp, 0), 0, sp + 1);
    if left == 1 {
        assert(r2.pc == entry + 13);
        assert(r2.m.ram =~= cleared(m.ram, sp, 1));
    } else {
        assert(r2.pc == entry + 5);
        lemma_clear_loop(program, symbols, r2, name, locals, entry, (left - 1) as nat);
        lemma_after_sum(program, symbols, r, 8, (8 * (left - 1)) as nat);
        assert(8 + 8 * (left - 1) == 8 * left);
        assert(cleared(pushed, sp + 1, (left - 1) as nat) =~= cleared(m.ram, sp, left));
    }
}

/// `function` pushes one zero for each local slot, none where it has none,
/// and ends behind its last instruction. This is stated of every machine
/// whose stack lies above the stack pointer's own cell and has room for
/// the slots.
pub proof fn lemma_function(
    program: Seq<Instr>,
    symbols: Map<Seq<char>, int>,
    r: Running,
    name: Seq<char>,
    locals: nat,
)
    requires
        placed(program, symbols),
        holds_at(program, r.pc, function_code(name, locals)),
        forall|x: int| word(#[trigger] (r.m.ram)(x)),
        0 < (r.m.ram)(0),
        (r.m.ram)(0) + locals < 65536,
    ensures
        ({
            let end = after(program, symbols, r, entry_steps(locals));
            &&& end.pc == r.pc + function_code(name, locals).len()
            &&& end.m.ram =~= cleared(r.m.ram, (r.m.ram)(0), locals)
        }),
{
    let code = function_code(name, locals);
    let o = r.pc;
    let m = r.m;
    assert(word((m.ram)(0)));
    if locals == 0 {
        lemma_holds_index(program, o, code, 0);
        reveal_with_fuel(after, 2);
        assert(after(program, symbols, r, 1) == advance(program, symbols, r));
    } else {
        lemma_holds_index(program, o, code, 4);
        lemma_holds_index(program, o, code, 13);
        let a = code.subrange(0, 4);
        lemma_holds_part(program, o, code, 0, 4);
        assert(jump_free(a));
        lemma_after_stretch(program, symbols, r, a);
        let r1 = after(program, symbols, r, 4);
        assert(wrap(locals as int) == locals);
        assert(r1.m.d == locals && r1.m.ram == m.ram && r1.pc == o + 4) by {
            reveal_with_fuel(run_upto, 5);
        }
        let r2 = after(program, symbols, r, 5);
        assert(r2 == advance(program, symbols, r1));
        assert(r2.pc == o + 5 && r2.m == r1.m);
        lemma_clear_loop(program, symbols, r2, name, locals, o, locals);
        lemma_after_sum(program, symbols, r, 5, 8 * locals);
        let r3 = after(program, symbols, r, 5 + 8 * locals);
        assert(r3.pc == o + 13);
        let r4 = after(program, symbols, r, 6 + 8 * locals);
        assert(r4 == advance(program, symbols, r3));
        assert(r4.pc == o + 14 && r4.m == r3.m);
    }
}

/// Pushing two constants and comparing them leaves the sentinel of the
/// comparison on top of the stack, one slot above where the stack ended
/// before, whichever branch is taken: all ones where the comparison holds
/// of the first constant and the second, zero where it does not. This is
/// stated of every machine whose stack has two free slots that lie above
/// the stack pointer's own cell.
pub proof fn lemma_compare_constants(
    program: Seq<Instr>,
    symbols: Map<Seq<char>, int>,
    r: Running,
    x: nat,
    y: nat,
    op: BooleanOperator,
    ordinal: nat,
    unit: Seq<char>,
)
    requires
        placed(program, symbols),
        holds_at(
            program,
            r.pc,
            push_code(Segment::Constant, x, unit) + push_code(Segment::Constant, y, unit)
                + compare_code(op, ordinal),
        ),
        words(r.m),
        0 < (r.m.ram)(0) < 65534,
    ensures
        ({
            let sp = (r.m.ram)(0);
            let holds = compares(op, wrap(x as int), wrap(y as int));
            let end = after(program, symbols, r, 14 + compare_steps(holds));
            &&& end.pc == r.pc + 33
            &&& (end.m.ram)(0) == sp + 1
            &&& (end.m.ram)(sp) == sentinel(holds)
            &&& forall|a: int|
                a != 0 && a != sp && a != sp + 1 ==> #[trigger] (end.m.ram)(a) == (r.m.ram)(a)
        }),
{
    let m = r.m;
    let sp = (m.ram)(0);
    let first = push_code(Segment::Constant, x, unit);
    let second = push_code(Segment::Constant, y, unit);
    let pushes = first + second;
    let compare = compare_code(op, ordinal);
    let all = pushes + compare;
    let holds = compares(op, wrap(x as int), wrap(y as int));
    assert(word(sp));
    assert(pushes.len() == 14 && compare.len() == 19);
    lemma_holds_part(program, r.pc, all, 0, 14);
    assert(all.subrange(0, 14) =~= pushes);
    lemma_holds_part(program, r.pc, all, 14, 33);
    assert(all.subrange(14, 33) =~= compare);
    lemma_transfer_jump_free(Segment::Constant, x, unit);
    lemma_transfer_jump_free(Segment::Constant, y, unit);
    assert(jump_free(pushes));
    lemma_after_stretch(program, symbols, r, pushes);
    lemma_run_concat(m, first, second, symbols);
    lemma_run_push_constant(m, x, unit, symbols);
    let m1 = after_push_constant(m, x);
    assert((m1.ram)(0) == sp + 1 && (m1.ram)(sp) == wrap(x as int));
    lemma_push_words(Machine { a: wrap(x as int), d: wrap(x as int), ram: m.ram });
    assert(words(m1));
    lemma_run_push_constant(m1, y, unit, symbols);
    let m2 = after_push_constant(m1, y);
    lemma_push_words(Machine { a: wrap(y as int), d: wrap(y as int), ram: m1.ram });
    assert(words(m2));
    assert((m2.ram)(0) == sp + 2 && (m2.ram)(sp) == wrap(x as int) && (m2.ram)(sp + 1) == wrap(
        y as int,
    ));
    let r1 = after(program, symbols, r, 14);
    assert(r1.m == m2 && r1.pc == r.pc + 14);
    lemma_compare(program, symbols, r1, op, ordinal);
    lemma_after_sum(program, symbols, r, 14, compare_steps(holds));
    assert(wrap(sp + 2 - 1) == sp + 1 && wrap(sp + 1 - 1) == sp);
    let end = after(program, symbols, r, 14 + compare_steps(holds));
    assert(end.m.ram == after_compare(m2, op));
    assert((end.m.ram)(sp) == sentinel(holds));
    assert forall|a: int| a != 0 && a != sp && a != sp + 1 implies #[trigger] (end.m.ram)(a) == (
    m.ram)(a) by {}
}

/// `eq` on two constants that are words leaves all ones where they are the
/// same number and zero where they are not.
pub proof fn lemma_eq_constants(x: nat, y: nat)
    requires
        x < 65536,
        y < 65536,
    ensures
        sentinel(compares(BooleanOperator::Equal, wrap(x as int), wrap(y as int))) == (if x == y {
            65535int
        } else {
            0int
        }),
{
}

/// What a call does from its first instruction to its jump: the frame of
/// the caller is saved in the five cells from the stack pointer on, `ARG`
/// points at the first argument, `LCL` and the stack pointer behind the
/// frame, and the program goes on at the function.
pub proof fn lemma_call(
    program: Seq<Instr>,
    symbols: Map<Seq<char>, int>,
    r: Running,
    ordinal: nat,
    name: Seq<char>,
    args: nat,
)
    requires
        placed(program, symbols),
        holds_at(program, r.pc, call_code(ordinal, name, args)),
        words(r.m),
        4 < (r.m.ram)(0),
        (r.m.ram)(0) + 5 < 65536,
        args <= (r.m.ram)(0),
        r.pc + 49 < 65536,
    ensures
        ({
            let sp = (r.m.ram)(0);
            let end = after(program, symbols, r, 49);
            &&& end.pc == symbols[name]
            &&& (end.m.ram)(0) == sp + 5
            &&& (end.m.ram)(1) == sp + 5
            &&& (end.m.ram)(2) == sp - args
            &&& (end.m.ram)(3) == (r.m.ram)(3)
            &&& (end.m.ram)(4) == (r.m.ram)(4)
            &&& (end.m.ram)(sp) == r.pc + 49
            &&& (end.m.ram)(sp + 1) == (r.m.ram)(1)
            &&& (end.m.ram)(sp + 2) == (r.m.ram)(2)
            &&& (end.m.ram)(sp + 3) == (r.m.ram)(3)
            &&& (end.m.ram)(sp + 4) == (r.m.ram)(4)
            &&& forall|x: int|
                4 < x && !(sp <= x <= sp + 4) ==> #[trigger] (end.m.ram)(x) == (r.m.ram)(x)
            &&& forall|x: int| word(#[trigger] (end.m.ram)(x))
        }),
{
    let call = call_code(ordinal, name, args);
    let back = return_label(ordinal, name);
    assert(call.len() == 50);
    lemma_holds_index(program, r.pc, call, 48);
    lemma_holds_index(program, r.pc, call, 49);
    lemma_label_address(program, symbols, r.pc + 49, back);
    lemma_holds_part(program, r.pc, call, 0, 48);
    lemma_run_call(r.m, back, name, args, symbols);
    lemma_after_stretch(program, symbols, r, call.subrange(0, 48));
    let r1 = after(program, symbols, r, 48);
    assert(after(program, symbols, r, 49) == advance(program, symbols, r1));
}

/// What a return does from its first instruction to its jump: the value on
/// top of the stack is where `ARG` pointed, the stack pointer one cell
/// above it, the four base pointers are those saved below `LCL`, and the
/// program goes on at the address saved there.
pub proof fn lemma_return(program: Seq<Instr>, symbols: Map<Seq<char>, int>, r: Running)
    requires
        holds_at(program, r.pc, return_code()),
        forall|x: int| word(#[trigger] (r.m.ram)(x)),
        13 < (r.m.ram)(2),
        (r.m.ram)(2) + 5 <= (r.m.ram)(1),
        (r.m.ram)(1) < (r.m.ram)(0),
    ensures
        ({
            let m = r.m;
            let lcl = (m.ram)(1);
            let arg = (m.ram)(2);
            let end = after(program, symbols, r, 45);
            &&& end.pc == (m.ram)(lcl - 5)
            &&& (end.m.ram)(0) == arg + 1
            &&& (end.m.ram)(1) == (m.ram)(lcl - 4)
            &&& (end.m.ram)(2) == (m.ram)(lcl - 3)
            &&& (end.m.ram)(3) == (m.ram)(lcl - 2)
            &&& (end.m.ram)(4) == (m.ram)(lcl - 1)
            &&& (end.m.ram)(arg) == (m.ram)((m.ram)(0) - 1)
            &&& forall|x: int|
                4 < x && x != 13 && x != arg ==> #[trigger] (end.m.ram)(x) == (m.ram)(x)
        }),
{
    let code = return_code();
    assert(code.len() == 45);
    lemma_holds_index(program, r.pc, code, 44);
    lemma_holds_part(program, r.pc, code, 0, 44);
    lemma_run_return(r.m, symbols);
    lemma_after_stretch(program, symbols, r, code.subrange(0, 44));
    let r1 = after(program, symbols, r, 44);
    assert(after(program, symbols, r, 45) == advance(program, symbols, r1));
}

/// A call and the return of its callee, whatever the callee does between
/// them as long as it keeps `LCL`, `ARG` and the five saved cells and has
/// a value on its stack: the program goes on behind the call with the four
/// base pointers as they were before it, the arguments replaced by the
/// value that was on top of the callee's stack, and the stack pointer one
/// cell above that value. `caller` is the machine at the call, `callee`
/// the machine at the callee's `return`.
pub proof fn lemma_call_then_return(
    program: Seq<Instr>,
    symbols: Map<Seq<char>, int>,
    caller: Running,
    callee: Running,
    ordinal: nat,
    name: Seq<char>,
    args: nat,
)
    requires
        placed(program, symbols),
        holds_at(program, caller.pc, call_code(ordinal, name, args)),
        holds_at(program, callee.pc, return_code()),
        words(caller.m),
        13 + args < (caller.m.ram)(0),
        (caller.m.ram)(0) + 5 < 65536,
        caller.pc + 49 < 65536,
        forall|x: int| word(#[trigger] (callee.m.ram)(x)),
        ({
            let sp = (caller.m.ram)(0);
            let entered = after(program, symbols, caller, 49);
            &&& (callee.m.ram)(1) == (entered.m.ram)(1)
            &&& (callee.m.ram)(2) == (entered.m.ram)(2)
            &&& forall|k: int|
                0 <= k < 5 ==> (callee.m.ram)(sp + k) == #[trigger] (entered.m.ram)(sp + k)
            &&& (callee.m.ram)(0) > sp + 5
        }),
    ensures
        ({
            let sp = (caller.m.ram)(0);
            let end = after(program, symbols, callee, 45);
            &&& end.pc == caller.pc + 49
            &&& (end.m.ram)(0) == sp - args + 1
            &&& (end.m.ram)(1) == (caller.m.ram)(1)
            &&& (end.m.ram)(2) == (caller.m.ram)(2)
            &&& (end.m.ram)(3) == (caller.m.ram)(3)
            &&& (end.m.ram)(4) == (caller.m.ram)(4)
            &&& (end.m.ram)(sp - args) == (callee.m.ram)((callee.m.ram)(0) - 1)
            &&& forall|x: int|
                4 < x && x != 13 && x != sp - args ==> #[trigger] (end.m.ram)(x) == (
                callee.m.ram)(x)
        }),
{
    let sp = (caller.m.ram)(0);
    let entered = after(program, symbols, caller, 49);
    lemma_call(program, symbols, caller, ordinal, name, args);
    assert((callee.m.ram)(sp + 0) == (entered.m.ram)(sp + 0));
    assert((callee.m.ram)(sp + 1) == (entered.m.ram)(sp + 1));
    assert((callee.m.ram)(sp + 2) == (entered.m.ram)(sp + 2));
    assert((callee.m.ram)(sp + 3) == (entered.m.ram)(sp + 3));
    assert((callee.m.ram)(sp + 4) == (entered.m.ram)(sp + 4));
    lemma_return(program, symbols, callee);
}

} // verus!
