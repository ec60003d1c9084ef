//! What the target machine does with straight-line assembly, and what the
//! translations of the stack commands therefore do to its memory.

use crate::assembly::{Cell, Comp, Dest, Instr, Jump};
use crate::codegen::{
    aim_code, base_cell, binary_code, binary_comp, drop_top, load_code, pointer_cell, pop_code,
    push_code, push_from_d, static_symbol, steps, top_to_d, unary_code,
};
use crate::command::{
    is_based, valid, BinaryArithmeticOperator, Operation, Segment, UnaryOperator, INDEX_MAX,
};
use vstd::prelude::*;

verus! {

/// The registers `A` and `D` and the memory, all holding 16-bit words.
pub struct Machine {
    pub a: int,
    pub d: int,
    pub ram: spec_fn(int) -> int,
}

/// The memory `ram` with `v` stored at the address `at`.
pub open spec fn store(ram: spec_fn(int) -> int, at: int, v: int) -> spec_fn(int) -> int {
    |x: int| if x == at { v } else { ram(x) }
}

/// Whether `x` is a 16-bit word.
pub open spec fn word(x: int) -> bool {
    0 <= x < 65536
}

/// The word that the 16-bit arithmetic gives for `x`.
pub open spec fn wrap(x: int) -> int {
    x % 65536
}

/// Whether the registers and every memory cell hold a word.
pub open spec fn words(m: Machine) -> bool {
    word(m.a) && word(m.d) && forall|x: int| word(#[trigger] (m.ram)(x))
}

/// The address of a named cell.
pub open spec fn cell_address(c: Cell) -> int {
    match c {
        Cell::Sp => 0,
        Cell::Lcl => 1,
        Cell::Arg => 2,
        Cell::This => 3,
        Cell::That => 4,
    }
}

/// The value of a computation, before it is cut to a word.
pub open spec fn value(c: Comp, m: Machine) -> int {
    let mem = (m.ram)(m.a);
    match c {
        Comp::Zero => 0,
        Comp::MinusOne => -1,
        Comp::A => m.a,
        Comp::D => m.d,
        Comp::M => mem,
        Comp::NotM => 65535 - mem,
        Comp::MPlusD => mem + m.d,
        Comp::MMinusD => mem - m.d,
        Comp::MAndD => ((mem as u16) & (m.d as u16)) as int,
        Comp::MOrD => ((mem as u16) | (m.d as u16)) as int,
        Comp::AMinusD => m.a - m.d,
        Comp::DMinusA => m.d - m.a,
        Comp::APlusOne => m.a + 1,
        Comp::AMinusOne => m.a - 1,
        Comp::DPlusOne => m.d + 1,
        Comp::DMinusOne => m.d - 1,
        Comp::MPlusOne => mem + 1,
        Comp::MMinusOne => mem - 1,
    }
}

/// The machine after one instruction that does not jump. `symbols` gives
/// each symbol its address. A label does nothing.
pub open spec fn step(m: Machine, i: Instr, symbols: Map<Seq<char>, int>) -> Machine {
    match i {
        Instr::Address(c) => Machine { a: cell_address(c), ..m },
        Instr::Number(n) => Machine { a: wrap(n as int), ..m },
        Instr::Symbol(name) => Machine { a: symbols[name], ..m },
        Instr::Label(_) => m,
        Instr::Compute(dest, c, _) => {
            let v = wrap(value(c, m));
            match dest {
                Dest::Nowhere => m,
                Dest::A => Machine { a: v, ..m },
                Dest::D => Machine { d: v, ..m },
                Dest::M => Machine { ram: store(m.ram, m.a, v), ..m },
            }
        },
    }
}

/// Whether no instruction of `code` jumps.
pub open spec fn jump_free(code: Seq<Instr>) -> bool {
    forall|k: int|
        0 <= k < code.len() ==> match #[trigger] code[k] {
            Instr::Compute(_, _, j) => j == Jump::Never,
            _ => true,
        }
}

/// The machine after the first `n` instructions of `code`.
pub open spec fn run_upto(m: Machine, code: Seq<Instr>, symbols: Map<Seq<char>, int>, n: int) -> Machine
    decreases n,
{
    if n <= 0 {
        m
    } else {
        step(run_upto(m, code, symbols, n - 1), code[n - 1], symbols)
    }
}

/// The machine after `code`, which is meant to be free of jumps.
pub open spec fn run(m: Machine, code: Seq<Instr>, symbols: Map<Seq<char>, int>) -> Machine {
    run_upto(m, code, symbols, code.len() as int)
}

/// Running two pieces of code in a row is running their concatenation.
pub proof fn lemma_run_concat(
    m: Machine,
    a: Seq<Instr>,
    b: Seq<Instr>,
    symbols: Map<Seq<char>, int>,
)
    ensures
        run(m, a + b, symbols) == run(run(m, a, symbols), b, symbols),
{
    lemma_run_concat_upto(m, a, b, symbols, b.len() as int);
}

proof fn lemma_run_concat_upto(
    m: Machine,
    a: Seq<Instr>,
    b: Seq<Instr>,
    symbols: Map<Seq<char>, int>,
    n: int,
)
    requires
        0 <= n <= b.len(),
    ensures
        run_upto(m, a + b, symbols, a.len() + n) == run_upto(run(m, a, symbols), b, symbols, n),
    decreases n,
{
    if n == 0 {
        lemma_run_prefix(m, a, b, symbols, a.len() as int);
    } else {
        lemma_run_concat_upto(m, a, b, symbols, n - 1);
        assert((a + b)[a.len() + n - 1] == b[n - 1]);
    }
}

proof fn lemma_run_prefix(
    m: Machine,
    a: Seq<Instr>,
    b: Seq<Instr>,
    symbols: Map<Seq<char>, int>,
    n: int,
)
    requires
        0 <= n <= a.len(),
    ensures
        run_upto(m, a + b, symbols, n) == run_upto(m, a, symbols, n),
    decreases n,
{
    if n > 0 {
        lemma_run_prefix(m, a, b, symbols, n - 1);
        assert((a + b)[n - 1] == a[n - 1]);
    }
}

/// Moving `A` up `n` cells in steps of one.
pub proof fn lemma_run_steps(m: Machine, n: nat, symbols: Map<Seq<char>, int>)
    requires
        word(m.a),
    ensures
        run(m, steps(n), symbols) == (Machine { a: wrap(m.a + n), ..m }),
{
    lemma_run_steps_upto(m, n, symbols, n as int);
}

proof fn lemma_run_steps_upto(m: Machine, n: nat, symbols: Map<Seq<char>, int>, k: int)
    requires
        word(m.a),
        0 <= k <= n,
    ensures
        run_upto(m, steps(n), symbols, k) == (Machine { a: wrap(m.a + k), ..m }),
    decreases k,
{
    if k > 0 {
        lemma_run_steps_upto(m, n, symbols, k - 1);
    }
}

/// The machine after `D` was pushed.
pub open spec fn after_push(m: Machine) -> Machine {
    let stored = store(m.ram, (m.ram)(0), m.d);
    Machine { a: 0, d: m.d, ram: store(stored, 0, wrap(stored(0) + 1)) }
}

/// What the five instructions that push `D` do.
pub proof fn lemma_run_push_from_d(m: Machine, symbols: Map<Seq<char>, int>)
    requires
        word(m.d),
        word((m.ram)(0)),
    ensures
        run(m, push_from_d(), symbols) == after_push(m),
{
    reveal_with_fuel(run_upto, 6);
}

/// The cell that a segment's index names.
pub open spec fn target(
    m: Machine,
    segment: Segment,
    index: nat,
    unit: Seq<char>,
    symbols: Map<Seq<char>, int>,
) -> int {
    match segment {
        Segment::Temp => (5 + index) as int,
        Segment::Static => symbols[static_symbol(unit, index)],
        Segment::Pointer => cell_address(pointer_cell(index)),
        _ => wrap((m.ram)(cell_address(base_cell(segment))) + index),
    }
}

/// The machine after a segment's cell was read into `D`.
pub open spec fn after_load(
    m: Machine,
    segment: Segment,
    index: nat,
    unit: Seq<char>,
    symbols: Map<Seq<char>, int>,
) -> Machine {
    let t = target(m, segment, index, unit, symbols);
    Machine { a: t, d: (m.ram)(t), ram: m.ram }
}

/// What the instructions that read a segment's cell do.
pub proof fn lemma_run_load(
    m: Machine,
    segment: Segment,
    index: nat,
    unit: Seq<char>,
    symbols: Map<Seq<char>, int>,
)
    requires
        words(m),
        !(segment is Constant),
        segment is Static || word((5 + index) as int),
    ensures
        run(m, load_code(segment, index, unit), symbols) == after_load(
            m,
            segment,
            index,
            unit,
            symbols,
        ),
{
    reveal_with_fuel(run_upto, 6);
    let t = target(m, segment, index, unit, symbols);
    if !(segment is Static) {
        assert(wrap(index as int) == index);
        assert(wrap((5 + index) as int) == 5 + index);
    }
    assert(word((m.ram)(t)));
    match segment {
        Segment::Temp => {},
        Segment::Static => {},
        Segment::Pointer => {},
        _ => {
            let base = cell_address(base_cell(segment));
            assert(word((m.ram)(base)));
            let code = load_code(segment, index, unit);
            let m1 = run_upto(m, code, symbols, 1);
            assert(m1 == Machine { a: index as int, ..m });
            let m2 = run_upto(m, code, symbols, 2);
            assert(m2 == Machine { d: index as int, ..m1 });
            let m3 = run_upto(m, code, symbols, 3);
            assert(m3 == Machine { a: base, ..m2 });
            let m4 = run_upto(m, code, symbols, 4);
            assert(m4 == Machine { a: t, ..m3 });
        },
    }
}

/// What the instructions that point `A` at a segment's cell do.
pub proof fn lemma_run_aim(
    m: Machine,
    segment: Segment,
    index: nat,
    unit: Seq<char>,
    symbols: Map<Seq<char>, int>,
)
    requires
        words(m),
        !(segment is Constant),
        segment is Static || word((5 + index) as int),
    ensures
        run(m, aim_code(segment, index, unit), symbols) == (Machine {
            a: target(m, segment, index, unit, symbols),
            ..m
        }),
{
    reveal_with_fuel(run_upto, 3);
    if !(segment is Static) {
        assert(wrap((5 + index) as int) == 5 + index);
    }
    match segment {
        Segment::Temp => {},
        Segment::Static => {},
        Segment::Pointer => {},
        _ => {
            let base = cell_address(base_cell(segment));
            let head = seq![
                Instr::Address(base_cell(segment)),
                Instr::Compute(Dest::A, Comp::M, Jump::Never),
            ];
            assert(aim_code(segment, index, unit) == head + steps(index));
            lemma_run_concat(m, head, steps(index), symbols);
            let mid = run(m, head, symbols);
            assert(word((m.ram)(base)));
            assert(mid == Machine { a: (m.ram)(base), ..m });
            lemma_run_steps(mid, index, symbols);
        },
    }
}

/// The machine after the top of the stack was popped to a segment's cell.
pub open spec fn after_pop(
    m: Machine,
    segment: Segment,
    index: nat,
    unit: Seq<char>,
    symbols: Map<Seq<char>, int>,
) -> Machine {
    let top = (m.ram)(wrap((m.ram)(0) - 1));
    let stored = store(m.ram, target(m, segment, index, unit, symbols), top);
    Machine { a: 0, d: top, ram: store(stored, 0, wrap(stored(0) - 1)) }
}

/// What the code of a pop does.
pub proof fn lemma_run_pop(
    m: Machine,
    segment: Segment,
    index: nat,
    unit: Seq<char>,
    symbols: Map<Seq<char>, int>,
)
    requires
        words(m),
        !(segment is Constant),
        segment is Static || word((5 + index) as int),
    ensures
        run(m, pop_code(segment, index, unit), symbols) == after_pop(
            m,
            segment,
            index,
            unit,
            symbols,
        ),
{
    let aim = aim_code(segment, index, unit);
    let store_d = seq![Instr::Compute(Dest::M, Comp::D, Jump::Never)];
    lemma_run_concat(m, (top_to_d() + aim) + store_d, drop_top(), symbols);
    lemma_run_concat(m, top_to_d() + aim, store_d, symbols);
    lemma_run_concat(m, top_to_d(), aim, symbols);
    let top = (m.ram)(wrap((m.ram)(0) - 1));
    let m1 = run(m, top_to_d(), symbols);
    assert(m1 == Machine { a: wrap((m.ram)(0) - 1), d: top, ram: m.ram }) by {
        reveal_with_fuel(run_upto, 4);
        assert(word(top));
    }
    assert(words(m1)) by {
        assert(word((m.ram)(0)));
        assert forall|x: int| word(#[trigger] (m1.ram)(x)) by {
            assert(word((m.ram)(x)));
        }
    }
    lemma_run_aim(m1, segment, index, unit, symbols);
    let m2 = run(m1, aim, symbols);
    let m3 = run(m2, store_d, symbols);
    assert(m3 == Machine { ram: store(m2.ram, m2.a, top), ..m2 }) by {
        reveal_with_fuel(run_upto, 2);
        assert(word(top));
    }
    let m4 = run(m3, drop_top(), symbols);
    assert(m4 == Machine { a: 0, d: top, ram: store(m3.ram, 0, wrap((m3.ram)(0) - 1)) }) by {
        reveal_with_fuel(run_upto, 3);
    }
}

/// What the code of a push from a segment's cell does.
pub proof fn lemma_run_push(
    m: Machine,
    segment: Segment,
    index: nat,
    unit: Seq<char>,
    symbols: Map<Seq<char>, int>,
)
    requires
        words(m),
        !(segment is Constant),
        segment is Static || word((5 + index) as int),
    ensures
        run(m, push_code(segment, index, unit), symbols) == after_push(
            after_load(m, segment, index, unit, symbols),
        ),
{
    lemma_run_concat(m, load_code(segment, index, unit), push_from_d(), symbols);
    lemma_run_load(m, segment, index, unit, symbols);
    assert(word((m.ram)(0)));
    assert(word((m.ram)(target(m, segment, index, unit, symbols))));
    lemma_run_push_from_d(after_load(m, segment, index, unit, symbols), symbols);
}

/// Pushing a cell of a segment and popping to the same cell at once
/// changes neither the stack pointer nor any cell in use: only the free
/// slot that the stack pointer points at then holds a copy of the cell.
/// This is stated of every machine whose stack pointer points neither at
/// itself nor at the segment's base pointer, and where the cell is not the
/// stack pointer.
pub proof fn lemma_push_then_pop(
    m: Machine,
    segment: Segment,
    index: nat,
    unit: Seq<char>,
    symbols: Map<Seq<char>, int>,
)
    requires
        words(m),
        valid(Operation::Push { segment, index }),
        valid(Operation::Pop { segment, index }),
        index <= INDEX_MAX,
        (m.ram)(0) != 0,
        is_based(segment) ==> (m.ram)(0) != cell_address(base_cell(segment)),
        target(m, segment, index, unit, symbols) != 0,
    ensures
        jump_free(push_code(segment, index, unit) + pop_code(segment, index, unit)),
        ({
            let f = run(
                m,
                push_code(segment, index, unit) + pop_code(segment, index, unit),
                symbols,
            );
            &&& (f.ram)(0) == (m.ram)(0)
            &&& forall|x: int| x != (m.ram)(0) ==> #[trigger] (f.ram)(x) == (m.ram)(x)
            &&& (f.ram)((m.ram)(0)) == (m.ram)(target(m, segment, index, unit, symbols))
        }),
{
    let sp = (m.ram)(0);
    let t = target(m, segment, index, unit, symbols);
    let push = push_code(segment, index, unit);
    let pop = pop_code(segment, index, unit);
    lemma_transfer_jump_free(segment, index, unit);
    lemma_run_concat(m, push, pop, symbols);
    lemma_run_push(m, segment, index, unit, symbols);
    let m1 = after_push(after_load(m, segment, index, unit, symbols));
    assert(word(sp));
    assert(word((m.ram)(t)));
    assert((m1.ram)(0) == wrap(sp + 1));
    assert(wrap(wrap(sp + 1) - 1) == sp);
    assert(words(m1)) by {
        assert forall|x: int| word(#[trigger] (m1.ram)(x)) by {
            assert(word((m.ram)(x)));
        }
    }
    lemma_run_pop(m1, segment, index, unit, symbols);
    let f = after_pop(m1, segment, index, unit, symbols);
    assert(target(m1, segment, index, unit, symbols) == t);
    assert((m1.ram)(sp) == (m.ram)(t));
    assert((f.ram)(0) == sp);
    assert forall|x: int| x != sp implies #[trigger] (f.ram)(x) == (m.ram)(x) by {}
    assert((f.ram)(sp) == (m.ram)(t));
}

/// The code of a push and of a pop holds no jump.
pub proof fn lemma_transfer_jump_free(segment: Segment, index: nat, unit: Seq<char>)
    ensures
        jump_free(push_code(segment, index, unit)),
        jump_free(pop_code(segment, index, unit)),
        jump_free(push_code(segment, index, unit) + pop_code(segment, index, unit)),
{
    let push = push_code(segment, index, unit);
    let pop = pop_code(segment, index, unit);
    assert(jump_free(load_code(segment, index, unit)));
    assert(jump_free(push_from_d()));
    assert(jump_free(push));
    assert(jump_free(top_to_d()));
    assert(jump_free(steps(index)));
    assert(jump_free(aim_code(segment, index, unit)));
    assert(jump_free(drop_top()));
    assert(jump_free(pop));
}

/// What a binary operator makes of the left operand `x` and the right
/// operand `y`, before the result is cut to a word.
pub open spec fn binary_value(op: BinaryArithmeticOperator, x: int, y: int) -> int {
    match op {
        BinaryArithmeticOperator::Add => x + y,
        BinaryArithmeticOperator::Sub => x - y,
        BinaryArithmeticOperator::And => ((x as u16) & (y as u16)) as int,
        BinaryArithmeticOperator::Or => ((x as u16) | (y as u16)) as int,
    }
}

/// The machine after a binary operator: the two topmost slots of the stack
/// gave way to one that holds the result.
pub open spec fn after_binary(m: Machine, op: BinaryArithmeticOperator) -> Machine {
    let right_at = wrap((m.ram)(0) - 1);
    let left_at = wrap(right_at - 1);
    let right = (m.ram)(right_at);
    let stored = store(m.ram, left_at, wrap(binary_value(op, (m.ram)(left_at), right)));
    Machine { a: 0, d: right, ram: store(stored, 0, wrap(stored(0) - 1)) }
}

/// What the code of a binary operator does.
pub proof fn lemma_run_binary(
    m: Machine,
    op: BinaryArithmeticOperator,
    symbols: Map<Seq<char>, int>,
)
    requires
        words(m),
    ensures
        run(m, binary_code(op), symbols) == after_binary(m, op),
{
    let code = binary_code(op);
    let sp = (m.ram)(0);
    let right_at = wrap(sp - 1);
    let left_at = wrap(right_at - 1);
    assert(word(sp) && word((m.ram)(right_at)) && word((m.ram)(left_at)));
    reveal_with_fuel(run_upto, 8);
    let m3 = run_upto(m, code, symbols, 3);
    assert(m3 == Machine { a: right_at, d: (m.ram)(right_at), ram: m.ram });
    let m4 = run_upto(m, code, symbols, 4);
    assert(m4 == Machine { a: left_at, ..m3 });
    let m5 = run_upto(m, code, symbols, 5);
    assert(value(binary_comp(op), m4) == binary_value(op, (m.ram)(left_at), (m.ram)(right_at)));
    assert(m5 == Machine {
        ram: store(m.ram, left_at, wrap(binary_value(op, (m.ram)(left_at), (m.ram)(right_at)))),
        ..m4
    });
}

/// The machine after the constant `k` was pushed.
pub open spec fn after_push_constant(m: Machine, k: nat) -> Machine {
    after_push(Machine { a: wrap(k as int), d: wrap(k as int), ram: m.ram })
}

/// What the code that pushes a constant does.
pub proof fn lemma_run_push_constant(
    m: Machine,
    k: nat,
    unit: Seq<char>,
    symbols: Map<Seq<char>, int>,
)
    requires
        words(m),
    ensures
        run(m, push_code(Segment::Constant, k, unit), symbols) == after_push_constant(m, k),
{
    let load = load_code(Segment::Constant, k, unit);
    lemma_run_concat(m, load, push_from_d(), symbols);
    let m1 = run(m, load, symbols);
    assert(m1 == Machine { a: wrap(k as int), d: wrap(k as int), ram: m.ram }) by {
        reveal_with_fuel(run_upto, 3);
    }
    assert(word((m.ram)(0)));
    lemma_run_push_from_d(m1, symbols);
}

/// Pushing two constants and applying a binary operator leaves the
/// operator's result on top of the stack, one slot above where the stack
/// ended before, and changes no cell below. This is stated of every
/// machine whose stack has two free slots that lie above the stack
/// pointer's own cell.
pub proof fn lemma_binary_on_constants(
    m: Machine,
    x: nat,
    y: nat,
    op: BinaryArithmeticOperator,
    unit: Seq<char>,
    symbols: Map<Seq<char>, int>,
)
    requires
        words(m),
        0 < (m.ram)(0) < 65535,
    ensures
        ({
            let f = run(
                m,
                push_code(Segment::Constant, x, unit) + push_code(Segment::Constant, y, unit)
                    + binary_code(op),
                symbols,
            );
            let sp = (m.ram)(0);
            &&& (f.ram)(0) == sp + 1
            &&& (f.ram)(sp) == wrap(binary_value(op, wrap(x as int), wrap(y as int)))
            &&& forall|a: int|
                a != 0 && a != sp && a != sp + 1 ==> #[trigger] (f.ram)(a) == (m.ram)(a)
        }),
{
    let sp = (m.ram)(0);
    let first = push_code(Segment::Constant, x, unit);
    let second = push_code(Segment::Constant, y, unit);
    assert(word(sp));
    lemma_run_concat(m, first + second, binary_code(op), symbols);
    lemma_run_concat(m, first, second, symbols);
    lemma_run_push_constant(m, x, unit, symbols);
    let m1 = after_push_constant(m, x);
    assert((m1.ram)(0) == sp + 1 && (m1.ram)(sp) == wrap(x as int));
    assert(words(m1)) by {
        assert forall|a: int| word(#[trigger] (m1.ram)(a)) by {
            assert(word((m.ram)(a)));
        }
    }
    lemma_run_push_constant(m1, y, unit, symbols);
    let m2 = after_push_constant(m1, y);
    assert((m2.ram)(0) == wrap(sp + 2) && (m2.ram)(sp) == wrap(x as int) && (m2.ram)(sp + 1)
        == wrap(y as int));
    assert(words(m2)) by {
        assert forall|a: int| word(#[trigger] (m2.ram)(a)) by {
            assert(word((m1.ram)(a)));
        }
    }
    lemma_run_binary(m2, op, symbols);
    let f = after_binary(m2, op);
    assert(wrap(wrap(sp + 2) - 1) == sp + 1 && wrap(sp + 1 - 1) == sp);
    assert((f.ram)(0) == sp + 1);
    assert((f.ram)(sp) == wrap(binary_value(op, wrap(x as int), wrap(y as int))));
    assert forall|a: int| a != 0 && a != sp && a != sp + 1 implies #[trigger] (f.ram)(a) == (
    m.ram)(a) by {}
}

/// Adding zero to a constant gives what pushing the constant alone gives:
/// the same stack pointer, the same top of the stack (the constant, where
/// it is a word), and the same value in every cell but the free slot above
/// the top.
pub proof fn lemma_add_zero(m: Machine, k: nat, unit: Seq<char>, symbols: Map<Seq<char>, int>)
    requires
        words(m),
        0 < (m.ram)(0) < 65535,
    ensures
        ({
            let f = run(
                m,
                push_code(Segment::Constant, k, unit) + push_code(Segment::Constant, 0, unit)
                    + binary_code(BinaryArithmeticOperator::Add),
                symbols,
            );
            let g = run(m, push_code(Segment::Constant, k, unit), symbols);
            let sp = (m.ram)(0);
            &&& (f.ram)(0) == (g.ram)(0) == sp + 1
            &&& (f.ram)(sp) == (g.ram)(sp) == wrap(k as int)
            &&& k < 65536 ==> (f.ram)(sp) == k
            &&& forall|a: int| a != sp + 1 ==> #[trigger] (f.ram)(a) == (g.ram)(a)
        }),
{
    let sp = (m.ram)(0);
    assert(word(sp));
    lemma_binary_on_constants(m, k, 0, BinaryArithmeticOperator::Add, unit, symbols);
    lemma_run_push_constant(m, k, unit, symbols);
    let f = run(
        m,
        push_code(Segment::Constant, k, unit) + push_code(Segment::Constant, 0, unit)
            + binary_code(BinaryArithmeticOperator::Add),
        symbols,
    );
    let g = after_push_constant(m, k);
    assert(wrap(0) == 0);
    assert(wrap(wrap(k as int) + 0) == wrap(k as int));
    assert forall|a: int| a != sp + 1 implies #[trigger] (f.ram)(a) == (g.ram)(a) by {
        if a != 0 && a != sp {
            assert((f.ram)(a) == (m.ram)(a));
        }
    }
}

/// What a unary operator makes of its operand, before the result is cut to
/// a word: `neg` the difference from zero, `not` the complement of each
/// bit.
pub open spec fn unary_value(op: UnaryOperator, x: int) -> int {
    match op {
        UnaryOperator::Neg => 0 - x,
        UnaryOperator::Not => 65535 - x,
    }
}

/// A unary operator replaces the top of the stack by its result and leaves
/// the stack pointer and every other cell as they are.
pub proof fn lemma_run_unary(m: Machine, op: UnaryOperator, symbols: Map<Seq<char>, int>)
    requires
        words(m),
    ensures
        ({
            let top_at = wrap((m.ram)(0) - 1);
            run(m, unary_code(op), symbols).ram == store(
                m.ram,
                top_at,
                wrap(unary_value(op, (m.ram)(top_at))),
            )
        }),
{
    let code = unary_code(op);
    let top_at = wrap((m.ram)(0) - 1);
    let top = (m.ram)(top_at);
    assert(word((m.ram)(0)) && word(top));
    reveal_with_fuel(run_upto, 9);
    match op {
        UnaryOperator::Neg => {
            let m3 = run_upto(m, code, symbols, 3);
            assert(m3 == Machine { a: top_at, d: top, ram: m.ram });
            let m5 = run_upto(m, code, symbols, 5);
            assert(m5 == Machine { a: 0, d: wrap(0 - top), ram: m.ram });
            let m7 = run_upto(m, code, symbols, 7);
            assert(m7 == Machine { a: top_at, ..m5 });
        },
        UnaryOperator::Not => {
            let m2 = run_upto(m, code, symbols, 2);
            assert(m2 == Machine { a: top_at, ..m });
        },
    }
}

} // verus!
