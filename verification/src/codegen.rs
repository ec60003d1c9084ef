//! The assembly that each command is translated to.

use crate::assembly::{render_all, Cell, Comp, Dest, Emitter, Instr, Jump};
use crate::command::{
    arity_message, message, parse_branch, parse_call, parse_function, parse_plain, parse_transfer,
    read_branch, read_call, read_function, read_transfer, valid, BinaryArithmeticOperator,
    BooleanOperator, Branch, Command, Operation, Segment, UnaryOperator,
};
use crate::text::{
    decimal, is_digit, lemma_decimal_injective, lemma_decimal_value, push_decimal, slices, texts,
};
use vstd::prelude::*;

verus! {

/// Load the address of a named cell.
pub open spec fn at(c: Cell) -> Instr {
    Instr::Address(c)
}

/// Load a number.
pub open spec fn num(n: nat) -> Instr {
    Instr::Number(n)
}

/// Load a symbol.
pub open spec fn sym(name: Seq<char>) -> Instr {
    Instr::Symbol(name)
}

/// Compute and store, without a jump.
pub open spec fn put(d: Dest, c: Comp) -> Instr {
    Instr::Compute(d, c, Jump::Never)
}

/// Compute and jump, without a store.
pub open spec fn go(c: Comp, j: Jump) -> Instr {
    Instr::Compute(Dest::Nowhere, c, j)
}

/// The symbol of a unit's static cell.
pub open spec fn static_symbol(unit: Seq<char>, index: nat) -> Seq<char> {
    unit + "."@ + decimal(index)
}

/// The symbol of a label inside a unit.
pub open spec fn unit_symbol(unit: Seq<char>, name: Seq<char>) -> Seq<char> {
    unit + "."@ + name
}

/// The label that a comparison jumps to when it holds.
pub open spec fn true_label(ordinal: nat) -> Seq<char> {
    "TRUE"@ + decimal(ordinal)
}

/// The label at which both branches of a comparison meet.
pub open spec fn else_label(ordinal: nat) -> Seq<char> {
    "ELSE"@ + decimal(ordinal)
}

/// The label that a call returns to.
pub open spec fn return_label(ordinal: nat, name: Seq<char>) -> Seq<char> {
    decimal(ordinal) + name + ".ReturnAddress"@
}

/// The label of the loop that clears a function's local slots.
pub open spec fn loop_label(name: Seq<char>) -> Seq<char> {
    name + ".Loop"@
}

/// The label behind that loop.
pub open spec fn end_label(name: Seq<char>) -> Seq<char> {
    name + ".End"@
}

/// The base pointer of a segment that has one (`Lcl` stands for the rest).
pub open spec fn base_cell(segment: Segment) -> Cell {
    match segment {
        Segment::Argument => Cell::Arg,
        Segment::This => Cell::This,
        Segment::That => Cell::That,
        _ => Cell::Lcl,
    }
}

/// The cell that an index of the pointer segment names.
pub open spec fn pointer_cell(index: nat) -> Cell {
    if index == 0 {
        Cell::This
    } else {
        Cell::That
    }
}

/// Store `D` where the stack pointer points, then advance the stack
/// pointer.
pub open spec fn push_from_d() -> Seq<Instr> {
    seq![
        at(Cell::Sp),
        put(Dest::A, Comp::M),
        put(Dest::M, Comp::D),
        at(Cell::Sp),
        put(Dest::M, Comp::MPlusOne),
    ]
}

/// Read the top of the stack into `D`.
pub open spec fn top_to_d() -> Seq<Instr> {
    seq![at(Cell::Sp), put(Dest::A, Comp::MMinusOne), put(Dest::D, Comp::M)]
}

/// Move the stack pointer one slot down.
pub open spec fn drop_top() -> Seq<Instr> {
    seq![at(Cell::Sp), put(Dest::M, Comp::MMinusOne)]
}

/// Read the cell that a push takes its value from into `D`.
pub open spec fn load_code(segment: Segment, index: nat, unit: Seq<char>) -> Seq<Instr> {
    match segment {
        Segment::Temp => seq![num(5 + index), put(Dest::D, Comp::M)],
        Segment::Static => seq![sym(static_symbol(unit, index)), put(Dest::D, Comp::M)],
        Segment::Pointer => seq![at(pointer_cell(index)), put(Dest::D, Comp::M)],
        Segment::Constant => seq![num(index), put(Dest::D, Comp::A)],
        _ => seq![
            num(index),
            put(Dest::D, Comp::A),
            at(base_cell(segment)),
            put(Dest::A, Comp::MPlusD),
            put(Dest::D, Comp::M),
        ],
    }
}

/// `push segment index`.
pub open spec fn push_code(segment: Segment, index: nat, unit: Seq<char>) -> Seq<Instr> {
    load_code(segment, index, unit) + push_from_d()
}

/// `n` times the instruction that moves `A` one cell up.
pub open spec fn steps(n: nat) -> Seq<Instr> {
    Seq::new(n, |i: int| put(Dest::A, Comp::APlusOne))
}

/// Point `A` at the cell that a pop writes to.
pub open spec fn aim_code(segment: Segment, index: nat, unit: Seq<char>) -> Seq<Instr> {
    match segment {
        Segment::Temp => seq![num(5 + index)],
        Segment::Static => seq![sym(static_symbol(unit, index))],
        Segment::Pointer => seq![at(pointer_cell(index))],
        _ => seq![at(base_cell(segment)), put(Dest::A, Comp::M)] + steps(index),
    }
}

/// `pop segment index`, for every segment but the constant one.
pub open spec fn pop_code(segment: Segment, index: nat, unit: Seq<char>) -> Seq<Instr> {
    top_to_d() + aim_code(segment, index, unit) + seq![put(Dest::M, Comp::D)] + drop_top()
}

/// What a binary operator computes from the left operand in `M` and the
/// right one in `D`.
pub open spec fn binary_comp(op: BinaryArithmeticOperator) -> Comp {
    match op {
        BinaryArithmeticOperator::Add => Comp::MPlusD,
        BinaryArithmeticOperator::Sub => Comp::MMinusD,
        BinaryArithmeticOperator::And => Comp::MAndD,
        BinaryArithmeticOperator::Or => Comp::MOrD,
    }
}

/// `add`, `sub`, `and`, `or`.
pub open spec fn binary_code(op: BinaryArithmeticOperator) -> Seq<Instr> {
    seq![
        at(Cell::Sp),
        put(Dest::A, Comp::MMinusOne),
        put(Dest::D, Comp::M),
        put(Dest::A, Comp::AMinusOne),
        put(Dest::M, binary_comp(op)),
        at(Cell::Sp),
        put(Dest::M, Comp::MMinusOne),
    ]
}

/// `neg`, `not`.
pub open spec fn unary_code(op: UnaryOperator) -> Seq<Instr> {
    match op {
        UnaryOperator::Neg => seq![
            at(Cell::Sp),
            put(Dest::A, Comp::MMinusOne),
            put(Dest::D, Comp::M),
            num(0),
            put(Dest::D, Comp::AMinusD),
            at(Cell::Sp),
            put(Dest::A, Comp::MMinusOne),
            put(Dest::M, Comp::D),
        ],
        UnaryOperator::Not => seq![
            at(Cell::Sp),
            put(Dest::A, Comp::MMinusOne),
            put(Dest::M, Comp::NotM),
        ],
    }
}

/// The jump that a comparison takes when it holds of left minus right.
pub open spec fn compare_jump(op: BooleanOperator) -> Jump {
    match op {
        BooleanOperator::GreaterThan => Jump::IfPositive,
        BooleanOperator::LesserThan => Jump::IfNegative,
        BooleanOperator::Equal => Jump::IfZero,
    }
}

/// `eq`, `gt`, `lt` on the line with the given ordinal.
pub open spec fn compare_code(op: BooleanOperator, ordinal: nat) -> Seq<Instr> {
    seq![
        at(Cell::Sp),
        put(Dest::A, Comp::MMinusOne),
        put(Dest::D, Comp::M),
        put(Dest::A, Comp::AMinusOne),
        put(Dest::D, Comp::MMinusD),
        sym(true_label(ordinal)),
        go(Comp::D, compare_jump(op)),
        put(Dest::D, Comp::Zero),
        sym(else_label(ordinal)),
        go(Comp::Zero, Jump::Always),
        Instr::Label(true_label(ordinal)),
        put(Dest::D, Comp::MinusOne),
        Instr::Label(else_label(ordinal)),
        at(Cell::Sp),
        put(Dest::A, Comp::MMinusOne),
        put(Dest::A, Comp::AMinusOne),
        put(Dest::M, Comp::D),
        at(Cell::Sp),
        put(Dest::M, Comp::MMinusOne),
    ]
}

/// `label name`.
pub open spec fn label_code(unit: Seq<char>, name: Seq<char>) -> Seq<Instr> {
    seq![Instr::Label(unit_symbol(unit, name))]
}

/// `goto name`.
pub open spec fn goto_code(unit: Seq<char>, name: Seq<char>) -> Seq<Instr> {
    seq![sym(unit_symbol(unit, name)), go(Comp::Zero, Jump::Always)]
}

/// `if-goto name`.
pub open spec fn if_goto_code(unit: Seq<char>, name: Seq<char>) -> Seq<Instr> {
    seq![
        at(Cell::Sp),
        put(Dest::M, Comp::MMinusOne),
        put(Dest::A, Comp::M),
        put(Dest::D, Comp::M),
        sym(unit_symbol(unit, name)),
        go(Comp::D, Jump::IfNonZero),
    ]
}

/// Push the value of a named cell.
pub open spec fn save_code(c: Cell) -> Seq<Instr> {
    seq![at(c), put(Dest::D, Comp::M)] + push_from_d()
}

/// The end of a call: move `ARG` and `LCL`, jump, and define the label to
/// return to.
pub open spec fn enter_code(back: Seq<char>, name: Seq<char>, args: nat) -> Seq<Instr> {
    seq![
        at(Cell::Sp),
        put(Dest::D, Comp::M),
        num(5),
        put(Dest::D, Comp::DMinusA),
        num(args),
        put(Dest::D, Comp::DMinusA),
        at(Cell::Arg),
        put(Dest::M, Comp::D),
        at(Cell::Sp),
        put(Dest::D, Comp::M),
        at(Cell::Lcl),
        put(Dest::M, Comp::D),
        sym(name),
        go(Comp::Zero, Jump::Always),
        Instr::Label(back),
    ]
}

/// A call of `name` with `args` arguments that returns to the label `back`.
pub open spec fn call_to(back: Seq<char>, name: Seq<char>, args: nat) -> Seq<Instr> {
    seq![sym(back), put(Dest::D, Comp::A)] + push_from_d() + save_code(Cell::Lcl) + save_code(
        Cell::Arg,
    ) + save_code(Cell::This) + save_code(Cell::That) + enter_code(back, name, args)
}

/// `call name args` on the line with the given ordinal.
pub open spec fn call_code(ordinal: nat, name: Seq<char>, args: nat) -> Seq<Instr> {
    call_to(return_label(ordinal, name), name, args)
}

/// `function name locals`: the function's label and, where it has local
/// slots, the loop that pushes a zero for each.
pub open spec fn function_code(name: Seq<char>, locals: nat) -> Seq<Instr> {
    if locals == 0 {
        seq![Instr::Label(name)]
    } else {
        seq![
            Instr::Label(name),
            num(locals),
            put(Dest::D, Comp::A),
            sym(end_label(name)),
            go(Comp::D, Jump::IfZero),
            Instr::Label(loop_label(name)),
            at(Cell::Sp),
            put(Dest::A, Comp::M),
            put(Dest::M, Comp::Zero),
            at(Cell::Sp),
            put(Dest::M, Comp::MPlusOne),
            sym(loop_label(name)),
            Instr::Compute(Dest::D, Comp::DMinusOne, Jump::IfNonZero),
            Instr::Label(end_label(name)),
        ]
    }
}

/// Step `LCL` one cell down and copy the cell it then points at to `c`.
pub open spec fn restore_code(c: Cell) -> Seq<Instr> {
    seq![
        at(Cell::Lcl),
        put(Dest::M, Comp::MMinusOne),
        put(Dest::A, Comp::M),
        put(Dest::D, Comp::M),
        at(c),
        put(Dest::M, Comp::D),
    ]
}

/// The start of a return: stash the return address in cell 13, hand the
/// top of the stack to the caller and reset the stack pointer.
pub open spec fn leave_code() -> Seq<Instr> {
    seq![
        at(Cell::Lcl),
        put(Dest::D, Comp::M),
        num(5),
        put(Dest::A, Comp::DMinusA),
        put(Dest::D, Comp::M),
        num(13),
        put(Dest::M, Comp::D),
        at(Cell::Sp),
        put(Dest::M, Comp::MMinusOne),
        put(Dest::A, Comp::M),
        put(Dest::D, Comp::M),
        at(Cell::Arg),
        put(Dest::A, Comp::M),
        put(Dest::M, Comp::D),
        at(Cell::Arg),
        put(Dest::D, Comp::M),
        at(Cell::Sp),
        put(Dest::M, Comp::DPlusOne),
    ]
}

/// `return`.
pub open spec fn return_code() -> Seq<Instr> {
    leave_code() + restore_code(Cell::That) + restore_code(Cell::This) + restore_code(Cell::Arg)
        + restore_code(Cell::Lcl) + seq![
        num(13),
        put(Dest::A, Comp::M),
        go(Comp::Zero, Jump::Always),
    ]
}

/// The assembly of an operation that stands on the line with the given
/// ordinal of the unit `unit`.
pub open spec fn code_of(op: Operation, ordinal: nat, unit: Seq<char>) -> Seq<Instr> {
    match op {
        Operation::Push { segment, index } => push_code(segment, index, unit),
        Operation::Pop { segment, index } => pop_code(segment, index, unit),
        Operation::Binary { op } => binary_code(op),
        Operation::Unary { op } => unary_code(op),
        Operation::Compare { op } => compare_code(op, ordinal),
        Operation::Label { name } => label_code(unit, name),
        Operation::Goto { name } => goto_code(unit, name),
        Operation::IfGoto { name } => if_goto_code(unit, name),
        Operation::Function { name, locals } => function_code(name, locals),
        Operation::Call { name, args } => call_code(ordinal, name, args),
        Operation::Return => return_code(),
    }
}

/// The lines of a line's translation, or the message that says why it has
/// none.
pub open spec fn translation(
    read: Result<Operation, Seq<char>>,
    ordinal: nat,
    unit: Seq<char>,
) -> Result<Seq<Seq<char>>, Seq<char>> {
    match read {
        Ok(op) => Ok(render_all(code_of(op, ordinal, unit))),
        Err(message) => Err(message),
    }
}

/// Whether an executable result is the one that `expected` describes.
pub open spec fn yields(
    r: Result<Vec<String>, String>,
    expected: Result<Seq<Seq<char>>, Seq<char>>,
) -> bool {
    match expected {
        Ok(lines) => r is Ok && texts(r->Ok_0@) == lines,
        Err(message) => r is Err && r->Err_0@ == message,
    }
}

fn emit_push_from_d(e: &mut Emitter)
    requires
        old(e).wf(),
    ensures
        final(e).wf(),
        final(e).code() == old(e).code() + push_from_d(),
{
    e.address(Cell::Sp);
    e.compute(Dest::A, Comp::M, Jump::Never);
    e.compute(Dest::M, Comp::D, Jump::Never);
    e.address(Cell::Sp);
    e.compute(Dest::M, Comp::MPlusOne, Jump::Never);
    assert(e.code() =~= old(e).code() + push_from_d());
}

fn emit_top_to_d(e: &mut Emitter)
    requires
        old(e).wf(),
    ensures
        final(e).wf(),
        final(e).code() == old(e).code() + top_to_d(),
{
    e.address(Cell::Sp);
    e.compute(Dest::A, Comp::MMinusOne, Jump::Never);
    e.compute(Dest::D, Comp::M, Jump::Never);
    assert(e.code() =~= old(e).code() + top_to_d());
}

fn emit_drop_top(e: &mut Emitter)
    requires
        old(e).wf(),
    ensures
        final(e).wf(),
        final(e).code() == old(e).code() + drop_top(),
{
    e.address(Cell::Sp);
    e.compute(Dest::M, Comp::MMinusOne, Jump::Never);
    assert(e.code() =~= old(e).code() + drop_top());
}

fn base_of(segment: Segment) -> (c: Cell)
    ensures
        c == base_cell(segment),
{
    match segment {
        Segment::Argument => Cell::Arg,
        Segment::This => Cell::This,
        Segment::That => Cell::That,
        _ => Cell::Lcl,
    }
}

fn pointer_of(index: u16) -> (c: Cell)
    ensures
        c == pointer_cell(index as nat),
{
    if index == 0 {
        Cell::This
    } else {
        Cell::That
    }
}

fn static_name(unit: &str, index: u16) -> (s: String)
    ensures
        s@ == static_symbol(unit@, index as nat),
{
    let mut s: String = String::from_str(unit);
    s.append(".");
    push_decimal(&mut s, index as u64);
    s
}

fn unit_name(unit: &str, name: &str) -> (s: String)
    ensures
        s@ == unit_symbol(unit@, name@),
{
    let mut s: String = String::from_str(unit);
    s.append(".");
    s.append(name);
    s
}

fn emit_load(e: &mut Emitter, segment: Segment, index: u16, unit: &str)
    requires
        old(e).wf(),
    ensures
        final(e).wf(),
        final(e).code() == old(e).code() + load_code(segment, index as nat, unit@),
{
    match segment {
        Segment::Temp => {
            e.number(5 + index as u64);
            e.compute(Dest::D, Comp::M, Jump::Never);
        },
        Segment::Static => {
            let name: String = static_name(unit, index);
            e.symbol(name.as_str());
            e.compute(Dest::D, Comp::M, Jump::Never);
        },
        Segment::Pointer => {
            e.address(pointer_of(index));
            e.compute(Dest::D, Comp::M, Jump::Never);
        },
        Segment::Constant => {
            e.number(index as u64);
            e.compute(Dest::D, Comp::A, Jump::Never);
        },
        _ => {
            e.number(index as u64);
            e.compute(Dest::D, Comp::A, Jump::Never);
            e.address(base_of(segment));
            e.compute(Dest::A, Comp::MPlusD, Jump::Never);
            e.compute(Dest::D, Comp::M, Jump::Never);
        },
    }
    assert(e.code() =~= old(e).code() + load_code(segment, index as nat, unit@));
}

fn emit_aim(e: &mut Emitter, segment: Segment, index: u16, unit: &str)
    requires
        old(e).wf(),
    ensures
        final(e).wf(),
        final(e).code() == old(e).code() + aim_code(segment, index as nat, unit@),
{
    match segment {
        Segment::Temp => {
            e.number(5 + index as u64);
        },
        Segment::Static => {
            let name: String = static_name(unit, index);
            e.symbol(name.as_str());
        },
        Segment::Pointer => {
            e.address(pointer_of(index));
        },
        _ => {
            e.address(base_of(segment));
            e.compute(Dest::A, Comp::M, Jump::Never);
            let ghost start = e.code();
            let mut i: u16 = 0;
            assert(e.code() =~= start + steps(0));
            while i < index
                invariant
                    e.wf(),
                    i <= index,
                    e.code() == start + steps(i as nat),
                decreases index - i,
            {
                e.compute(Dest::A, Comp::APlusOne, Jump::Never);
                i = i + 1;
                assert(e.code() =~= start + steps(i as nat));
            }
        },
    }
    assert(e.code() =~= old(e).code() + aim_code(segment, index as nat, unit@));
}

/// The lines that store `D` on top of the stack and advance the stack
/// pointer.
pub fn gen_push_to_sp_and_inc() -> (lines: Vec<String>)
    ensures
        texts(lines@) == render_all(push_from_d()),
{
    let mut e: Emitter = Emitter::new();
    emit_push_from_d(&mut e);
    assert(e.code() =~= push_from_d());
    e.finish()
}

/// The lines of a binary operator.
pub fn compile_binary_operation(operator: BinaryArithmeticOperator) -> (lines: Vec<String>)
    ensures
        texts(lines@) == render_all(binary_code(operator)),
{
    let comp: Comp = match operator {
        BinaryArithmeticOperator::Add => Comp::MPlusD,
        BinaryArithmeticOperator::Sub => Comp::MMinusD,
        BinaryArithmeticOperator::And => Comp::MAndD,
        BinaryArithmeticOperator::Or => Comp::MOrD,
    };
    let mut e: Emitter = Emitter::new();
    e.address(Cell::Sp);
    e.compute(Dest::A, Comp::MMinusOne, Jump::Never);
    e.compute(Dest::D, Comp::M, Jump::Never);
    e.compute(Dest::A, Comp::AMinusOne, Jump::Never);
    e.compute(Dest::M, comp, Jump::Never);
    e.address(Cell::Sp);
    e.compute(Dest::M, Comp::MMinusOne, Jump::Never);
    assert(e.code() =~= binary_code(operator));
    e.finish()
}

fn compile_unary_operation(operator: UnaryOperator) -> (lines: Vec<String>)
    ensures
        texts(lines@) == render_all(unary_code(operator)),
{
    let mut e: Emitter = Emitter::new();
    e.address(Cell::Sp);
    e.compute(Dest::A, Comp::MMinusOne, Jump::Never);
    match operator {
        UnaryOperator::Neg => {
            e.compute(Dest::D, Comp::M, Jump::Never);
            e.number(0);
            e.compute(Dest::D, Comp::AMinusD, Jump::Never);
            e.address(Cell::Sp);
            e.compute(Dest::A, Comp::MMinusOne, Jump::Never);
            e.compute(Dest::M, Comp::D, Jump::Never);
        },
        UnaryOperator::Not => {
            e.compute(Dest::M, Comp::NotM, Jump::Never);
        },
    }
    assert(e.code() =~= unary_code(operator));
    e.finish()
}

fn true_name(index: usize) -> (s: String)
    ensures
        s@ == true_label(index as nat),
{
    let mut s: String = String::from_str("TRUE");
    push_decimal(&mut s, index as u64);
    s
}

fn else_name(index: usize) -> (s: String)
    ensures
        s@ == else_label(index as nat),
{
    let mut s: String = String::from_str("ELSE");
    push_decimal(&mut s, index as u64);
    s
}

/// The lines of a comparison that stands on the line with ordinal `index`.
pub fn compile_boolean_operation(index: usize, operator: BooleanOperator) -> (lines: Vec<String>)
    ensures
        texts(lines@) == render_all(compare_code(operator, index as nat)),
{
    let jump: Jump = match operator {
        BooleanOperator::GreaterThan => Jump::IfPositive,
        BooleanOperator::LesserThan => Jump::IfNegative,
        BooleanOperator::Equal => Jump::IfZero,
    };
    let holds: String = true_name(index);
    let meet: String = else_name(index);
    let mut e: Emitter = Emitter::new();
    e.address(Cell::Sp);
    e.compute(Dest::A, Comp::MMinusOne, Jump::Never);
    e.compute(Dest::D, Comp::M, Jump::Never);
    e.compute(Dest::A, Comp::AMinusOne, Jump::Never);
    e.compute(Dest::D, Comp::MMinusD, Jump::Never);
    e.symbol(holds.as_str());
    e.compute(Dest::Nowhere, Comp::D, jump);
    e.compute(Dest::D, Comp::Zero, Jump::Never);
    e.symbol(meet.as_str());
    e.compute(Dest::Nowhere, Comp::Zero, Jump::Always);
    e.label(holds.as_str());
    e.compute(Dest::D, Comp::MinusOne, Jump::Never);
    e.label(meet.as_str());
    e.address(Cell::Sp);
    e.compute(Dest::A, Comp::MMinusOne, Jump::Never);
    e.compute(Dest::A, Comp::AMinusOne, Jump::Never);
    e.compute(Dest::M, Comp::D, Jump::Never);
    e.address(Cell::Sp);
    e.compute(Dest::M, Comp::MMinusOne, Jump::Never);
    assert(e.code() =~= compare_code(operator, index as nat));
    e.finish()
}

fn emit_save(e: &mut Emitter, c: Cell)
    requires
        old(e).wf(),
    ensures
        final(e).wf(),
        final(e).code() == old(e).code() + save_code(c),
{
    e.address(c);
    e.compute(Dest::D, Comp::M, Jump::Never);
    emit_push_from_d(e);
    assert(e.code() =~= old(e).code() + save_code(c));
}

fn return_name(index: usize, name: &str) -> (s: String)
    ensures
        s@ == return_label(index as nat, name@),
{
    let mut s: String = String::new();
    push_decimal(&mut s, index as u64);
    s.append(name);
    s.append(".ReturnAddress");
    assert(s@ =~= return_label(index as nat, name@));
    s
}

fn emit_enter(e: &mut Emitter, back: &str, name: &str, args: u16)
    requires
        old(e).wf(),
    ensures
        final(e).wf(),
        final(e).code() == old(e).code() + enter_code(back@, name@, args as nat),
{
    e.address(Cell::Sp);
    e.compute(Dest::D, Comp::M, Jump::Never);
    e.number(5);
    e.compute(Dest::D, Comp::DMinusA, Jump::Never);
    e.number(args as u64);
    e.compute(Dest::D, Comp::DMinusA, Jump::Never);
    e.address(Cell::Arg);
    e.compute(Dest::M, Comp::D, Jump::Never);
    e.address(Cell::Sp);
    e.compute(Dest::D, Comp::M, Jump::Never);
    e.address(Cell::Lcl);
    e.compute(Dest::M, Comp::D, Jump::Never);
    e.symbol(name);
    e.compute(Dest::Nowhere, Comp::Zero, Jump::Always);
    e.label(back);
    assert(e.code() =~= old(e).code() + enter_code(back@, name@, args as nat));
}

pub(crate) fn emit_call_to(e: &mut Emitter, back: &str, name: &str, args: u16)
    requires
        old(e).wf(),
    ensures
        final(e).wf(),
        final(e).code() == old(e).code() + call_to(back@, name@, args as nat),
{
    e.symbol(back);
    e.compute(Dest::D, Comp::A, Jump::Never);
    emit_push_from_d(e);
    emit_save(e, Cell::Lcl);
    emit_save(e, Cell::Arg);
    emit_save(e, Cell::This);
    emit_save(e, Cell::That);
    emit_enter(e, back, name, args);
    assert(e.code() =~= old(e).code() + call_to(back@, name@, args as nat));
}

fn emit_call(e: &mut Emitter, index: usize, name: &str, args: u16)
    requires
        old(e).wf(),
    ensures
        final(e).wf(),
        final(e).code() == old(e).code() + call_code(index as nat, name@, args as nat),
{
    let back: String = return_name(index, name);
    emit_call_to(e, back.as_str(), name, args);
}

fn emit_function(e: &mut Emitter, name: &str, locals: u16)
    requires
        old(e).wf(),
    ensures
        final(e).wf(),
        final(e).code() == old(e).code() + function_code(name@, locals as nat),
{
    e.label(name);
    if locals != 0 {
        let again: String = message(name, ".Loop");
        let done: String = message(name, ".End");
        e.number(locals as u64);
        e.compute(Dest::D, Comp::A, Jump::Never);
        e.symbol(done.as_str());
        e.compute(Dest::Nowhere, Comp::D, Jump::IfZero);
        e.label(again.as_str());
        e.address(Cell::Sp);
        e.compute(Dest::A, Comp::M, Jump::Never);
        e.compute(Dest::M, Comp::Zero, Jump::Never);
        e.address(Cell::Sp);
        e.compute(Dest::M, Comp::MPlusOne, Jump::Never);
        e.symbol(again.as_str());
        e.compute(Dest::D, Comp::DMinusOne, Jump::IfNonZero);
        e.label(done.as_str());
    }
    assert(e.code() =~= old(e).code() + function_code(name@, locals as nat));
}

fn emit_restore(e: &mut Emitter, c: Cell)
    requires
        old(e).wf(),
    ensures
        final(e).wf(),
        final(e).code() == old(e).code() + restore_code(c),
{
    e.address(Cell::Lcl);
    e.compute(Dest::M, Comp::MMinusOne, Jump::Never);
    e.compute(Dest::A, Comp::M, Jump::Never);
    e.compute(Dest::D, Comp::M, Jump::Never);
    e.address(c);
    e.compute(Dest::M, Comp::D, Jump::Never);
    assert(e.code() =~= old(e).code() + restore_code(c));
}

fn emit_leave(e: &mut Emitter)
    requires
        old(e).wf(),
    ensures
        final(e).wf(),
        final(e).code() == old(e).code() + leave_code(),
{
    e.address(Cell::Lcl);
    e.compute(Dest::D, Comp::M, Jump::Never);
    e.number(5);
    e.compute(Dest::A, Comp::DMinusA, Jump::Never);
    e.compute(Dest::D, Comp::M, Jump::Never);
    e.number(13);
    e.compute(Dest::M, Comp::D, Jump::Never);
    e.address(Cell::Sp);
    e.compute(Dest::M, Comp::MMinusOne, Jump::Never);
    e.compute(Dest::A, Comp::M, Jump::Never);
    e.compute(Dest::D, Comp::M, Jump::Never);
    e.address(Cell::Arg);
    e.compute(Dest::A, Comp::M, Jump::Never);
    e.compute(Dest::M, Comp::D, Jump::Never);
    e.address(Cell::Arg);
    e.compute(Dest::D, Comp::M, Jump::Never);
    e.address(Cell::Sp);
    e.compute(Dest::M, Comp::DPlusOne, Jump::Never);
    assert(e.code() =~= old(e).code() + leave_code());
}

fn emit_return(e: &mut Emitter)
    requires
        old(e).wf(),
    ensures
        final(e).wf(),
        final(e).code() == old(e).code() + return_code(),
{
    emit_leave(e);
    emit_restore(e, Cell::That);
    emit_restore(e, Cell::This);
    emit_restore(e, Cell::Arg);
    emit_restore(e, Cell::Lcl);
    e.number(13);
    e.compute(Dest::A, Comp::M, Jump::Never);
    e.compute(Dest::Nowhere, Comp::Zero, Jump::Always);
    assert(e.code() =~= old(e).code() + return_code());
}

/// The lines of a command that stands on the line with ordinal `index` of
/// the unit `unit`.
pub fn generate(command: &Command, index: usize, unit: &str) -> (lines: Vec<String>)
    requires
        valid(command@),
    ensures
        texts(lines@) == render_all(code_of(command@, index as nat, unit@)),
{
    let ghost expected = code_of(command@, index as nat, unit@);
    match command {
        Command::BinaryOp { op } => compile_binary_operation(*op),
        Command::UnaryOp { op } => compile_unary_operation(*op),
        Command::Compare { op } => compile_boolean_operation(index, *op),
        _ => {
            let mut e: Emitter = Emitter::new();
            match command {
                Command::PushSegment { segment, index: at } => {
                    emit_load(&mut e, *segment, *at, unit);
                    emit_push_from_d(&mut e);
                },
                Command::PopSegment { segment, index: at } => {
                    emit_top_to_d(&mut e);
                    emit_aim(&mut e, *segment, *at, unit);
                    e.compute(Dest::M, Comp::D, Jump::Never);
                    emit_drop_top(&mut e);
                },
                Command::Label { name } => {
                    let target: String = unit_name(unit, name.as_str());
                    e.label(target.as_str());
                },
                Command::Goto { name } => {
                    let target: String = unit_name(unit, name.as_str());
                    e.symbol(target.as_str());
                    e.compute(Dest::Nowhere, Comp::Zero, Jump::Always);
                },
                Command::IfGoto { name } => {
                    let target: String = unit_name(unit, name.as_str());
                    e.address(Cell::Sp);
                    e.compute(Dest::M, Comp::MMinusOne, Jump::Never);
                    e.compute(Dest::A, Comp::M, Jump::Never);
                    e.compute(Dest::D, Comp::M, Jump::Never);
                    e.symbol(target.as_str());
                    e.compute(Dest::Nowhere, Comp::D, Jump::IfNonZero);
                },
                Command::Function { qualified_name, local_count } => {
                    emit_function(&mut e, qualified_name.as_str(), *local_count);
                },
                Command::Call { name, arg_count } => {
                    emit_call(&mut e, index, name.as_str(), *arg_count);
                },
                _ => {
                    emit_return(&mut e);
                },
            }
            assert(e.code() =~= expected);
            e.finish()
        },
    }
}

/// The unit of a command that names none.
fn no_unit() -> (unit: &'static str)
    ensures
        unit@ == Seq::<char>::empty(),
{
    proof {
        reveal_strlit("");
    }
    assert(""@ =~= Seq::<char>::empty());
    ""
}

fn finish_with(parsed: Result<Command, String>, index: usize, unit: &str) -> (r: Result<
    Vec<String>,
    String,
>)
    requires
        parsed matches Ok(c) ==> valid(c@),
    ensures
        match parsed {
            Ok(c) => r is Ok && texts(r->Ok_0@) == render_all(
                code_of(c@, index as nat, unit@),
            ),
            Err(m) => r is Err && r->Err_0@ == m@,
        },
{
    match parsed {
        Ok(c) => Ok(generate(&c, index, unit)),
        Err(m) => Err(m),
    }
}

/// Translates `push` with the operands `args` in the unit `unit`.
pub fn compile_push(args: &[&str], unit: &String) -> (r: Result<Vec<String>, String>)
    ensures
        yields(r, translation(read_transfer(true, slices(args@)), 0, unit@)),
{
    finish_with(parse_transfer(true, args), 0, unit.as_str())
}

/// Translates `pop` with the operands `args` in the unit `unit`.
pub fn compile_pop(args: &[&str], unit: &String) -> (r: Result<Vec<String>, String>)
    ensures
        yields(r, translation(read_transfer(false, slices(args@)), 0, unit@)),
{
    finish_with(parse_transfer(false, args), 0, unit.as_str())
}

/// What a command without operands is translated to: its code where it has
/// no operand, the message that counts them where it has.
pub open spec fn plain_translation(
    mnemonic: Seq<char>,
    args: Seq<Seq<char>>,
    code: Seq<Instr>,
) -> Result<Seq<Seq<char>>, Seq<char>> {
    if args.len() == 0 {
        Ok(render_all(code))
    } else {
        Err(arity_message(mnemonic, 0, args.len()))
    }
}

/// Translates `add`.
pub fn compile_add(args: &[&str]) -> (r: Result<Vec<String>, String>)
    ensures
        yields(
            r,
            plain_translation(
                "add"@,
                slices(args@),
                code_of(Operation::Binary { op: BinaryArithmeticOperator::Add }, 0 as nat, Seq::empty()),
            ),
        ),
{
    finish_with(parse_plain("add", args, Command::BinaryOp { op: BinaryArithmeticOperator::Add }), 0, no_unit())
}

/// Translates `sub`.
pub fn compile_sub(args: &[&str]) -> (r: Result<Vec<String>, String>)
    ensures
        yields(
            r,
            plain_translation(
                "sub"@,
                slices(args@),
                code_of(Operation::Binary { op: BinaryArithmeticOperator::Sub }, 0 as nat, Seq::empty()),
            ),
        ),
{
    finish_with(parse_plain("sub", args, Command::BinaryOp { op: BinaryArithmeticOperator::Sub }), 0, no_unit())
}

/// Translates `neg`.
pub fn compile_neg(args: &[&str]) -> (r: Result<Vec<String>, String>)
    ensures
        yields(
            r,
            plain_translation(
                "neg"@,
                slices(args@),
                code_of(Operation::Unary { op: UnaryOperator::Neg }, 0 as nat, Seq::empty()),
            ),
        ),
{
    finish_with(parse_plain("neg", args, Command::UnaryOp { op: UnaryOperator::Neg }), 0, no_unit())
}

/// Translates `eq` on the line with ordinal `index`.
pub fn compile_eq(index: usize, args: &[&str]) -> (r: Result<Vec<String>, String>)
    ensures
        yields(
            r,
            plain_translation(
                "eq"@,
                slices(args@),
                code_of(Operation::Compare { op: BooleanOperator::Equal }, index as nat, Seq::empty()),
            ),
        ),
{
    finish_with(parse_plain("eq", args, Command::Compare { op: BooleanOperator::Equal }), index, no_unit())
}

/// Translates `gt` on the line with ordinal `index`.
pub fn compile_gt(index: usize, args: &[&str]) -> (r: Result<Vec<String>, String>)
    ensures
        yields(
            r,
            plain_translation(
                "gt"@,
                slices(args@),
                code_of(Operation::Compare { op: BooleanOperator::GreaterThan }, index as nat, Seq::empty()),
            ),
        ),
{
    finish_with(parse_plain("gt", args, Command::Compare { op: BooleanOperator::GreaterThan }), index, no_unit())
}

/// Translates `lt` on the line with ordinal `index`.
pub fn compile_lt(index: usize, args: &[&str]) -> (r: Result<Vec<String>, String>)
    ensures
        yields(
            r,
            plain_translation(
                "lt"@,
                slices(args@),
                code_of(Operation::Compare { op: BooleanOperator::LesserThan }, index as nat, Seq::empty()),
            ),
        ),
{
    finish_with(parse_plain("lt", args, Command::Compare { op: BooleanOperator::LesserThan }), index, no_unit())
}

/// Translates `and`.
pub fn compile_and(args: &[&str]) -> (r: Result<Vec<String>, String>)
    ensures
        yields(
            r,
            plain_translation(
                "and"@,
                slices(args@),
                code_of(Operation::Binary { op: BinaryArithmeticOperator::And }, 0 as nat, Seq::empty()),
            ),
        ),
{
    finish_with(parse_plain("and", args, Command::BinaryOp { op: BinaryArithmeticOperator::And }), 0, no_unit())
}

/// Translates `or`.
pub fn compile_or(args: &[&str]) -> (r: Result<Vec<String>, String>)
    ensures
        yields(
            r,
            plain_translation(
                "or"@,
                slices(args@),
                code_of(Operation::Binary { op: BinaryArithmeticOperator::Or }, 0 as nat, Seq::empty()),
            ),
        ),
{
    finish_with(parse_plain("or", args, Command::BinaryOp { op: BinaryArithmeticOperator::Or }), 0, no_unit())
}

/// Translates `not`.
pub fn compile_not(args: &[&str]) -> (r: Result<Vec<String>, String>)
    ensures
        yields(
            r,
            plain_translation(
                "not"@,
                slices(args@),
                code_of(Operation::Unary { op: UnaryOperator::Not }, 0 as nat, Seq::empty()),
            ),
        ),
{
    finish_with(parse_plain("not", args, Command::UnaryOp { op: UnaryOperator::Not }), 0, no_unit())
}

/// Translates `return`.
pub fn compile_return(args: &[&str]) -> (r: Result<Vec<String>, String>)
    ensures
        yields(
            r,
            plain_translation(
                "return"@,
                slices(args@),
                code_of(Operation::Return, 0 as nat, Seq::empty()),
            ),
        ),
{
    finish_with(parse_plain("return", args, Command::Return), 0, no_unit())
}

/// Translates `label` with the operands `args` in the unit `unit`.
pub fn compile_label(args: &[&str], unit: &String) -> (r: Result<Vec<String>, String>)
    ensures
        yields(r, translation(read_branch(Branch::Label, slices(args@)), 0, unit@)),
{
    finish_with(parse_branch(Branch::Label, args), 0, unit.as_str())
}

/// Translates `goto` with the operands `args` in the unit `unit`.
pub fn compile_goto(args: &[&str], unit: &String) -> (r: Result<Vec<String>, String>)
    ensures
        yields(r, translation(read_branch(Branch::Goto, slices(args@)), 0, unit@)),
{
    finish_with(parse_branch(Branch::Goto, args), 0, unit.as_str())
}

/// Translates `if-goto` with the operands `args` in the unit `unit`.
pub fn compile_if_goto(args: &[&str], unit: &String) -> (r: Result<Vec<String>, String>)
    ensures
        yields(r, translation(read_branch(Branch::IfGoto, slices(args@)), 0, unit@)),
{
    finish_with(parse_branch(Branch::IfGoto, args), 0, unit.as_str())
}

/// Translates `call` with the operands `args` on the line with ordinal
/// `index`.
pub fn compile_call(index: usize, args: &[&str]) -> (r: Result<Vec<String>, String>)
    ensures
        yields(r, translation(read_call(slices(args@)), index as nat, Seq::empty())),
{
    finish_with(parse_call(args), index, no_unit())
}

/// Translates `function` with the operands `args`.
pub fn compile_function(args: &[&str]) -> (r: Result<Vec<String>, String>)
    ensures
        yields(r, translation(read_function(slices(args@)), 0, Seq::empty())),
{
    finish_with(parse_function(args), 0, no_unit())
}

/// Whether `code` defines the label `name`.
pub open spec fn defines(code: Seq<Instr>, name: Seq<char>) -> bool {
    exists|k: int| 0 <= k < code.len() && #[trigger] code[k] == Instr::Label(name)
}

/// The labels of comparisons: those of different lines differ, and no
/// label that a comparison jumps to is one at which branches meet.
pub proof fn lemma_compare_labels_differ(i: nat, j: nat)
    ensures
        i != j ==> true_label(i) != true_label(j) && else_label(i) != else_label(j),
        true_label(i) != else_label(j),
{
    reveal_strlit("TRUE");
    reveal_strlit("ELSE");
    let t = "TRUE"@;
    let e = "ELSE"@;
    assert(true_label(i)[0] == 'T' && else_label(j)[0] == 'E');
    if true_label(i) == true_label(j) {
        assert(decimal(i) =~= true_label(i).subrange(4, true_label(i).len() as int));
        assert(decimal(j) =~= true_label(j).subrange(4, true_label(j).len() as int));
        lemma_decimal_injective(i, j);
    }
    if else_label(i) == else_label(j) {
        assert(decimal(i) =~= else_label(i).subrange(4, else_label(i).len() as int));
        assert(decimal(j) =~= else_label(j).subrange(4, else_label(j).len() as int));
        lemma_decimal_injective(i, j);
    }
}

/// Calls of one function on different lines return to different labels.
pub proof fn lemma_return_labels_differ(i: nat, j: nat, name: Seq<char>)
    requires
        i != j,
    ensures
        return_label(i, name) != return_label(j, name),
{
    let a = return_label(i, name);
    let b = return_label(j, name);
    if a == b {
        assert(a.len() == decimal(i).len() + name.len() + ".ReturnAddress"@.len());
        assert(b.len() == decimal(j).len() + name.len() + ".ReturnAddress"@.len());
        assert(decimal(i) =~= a.subrange(0, decimal(i).len() as int));
        assert(decimal(j) =~= b.subrange(0, decimal(j).len() as int));
        lemma_decimal_injective(i, j);
    }
}

/// Two comparisons on different lines define no label in common, whatever
/// their operators.
pub proof fn lemma_compare_code_labels_disjoint(
    p: BooleanOperator,
    q: BooleanOperator,
    i: nat,
    j: nat,
    name: Seq<char>,
)
    requires
        i != j,
    ensures
        !(defines(compare_code(p, i), name) && defines(compare_code(q, j), name)),
{
    lemma_compare_labels_differ(i, j);
    lemma_compare_labels_differ(j, i);
    if defines(compare_code(p, i), name) && defines(compare_code(q, j), name) {
        let k = choose|k: int|
            0 <= k < compare_code(p, i).len() && #[trigger] compare_code(p, i)[k] == Instr::Label(
                name,
            );
        let l = choose|l: int|
            0 <= l < compare_code(q, j).len() && #[trigger] compare_code(q, j)[l] == Instr::Label(
                name,
            );
        assert(k == 10 || k == 12);
        assert(l == 10 || l == 12);
    }
}

/// Whether a name opens with a digit.
pub open spec fn opens_with_digit(name: Seq<char>) -> bool {
    name.len() > 0 && is_digit(name[0])
}

/// Calls on different lines return to different labels, whatever they
/// call, where no called name opens with a digit. (A name that does can
/// extend the numeral of its line: `2X` called on line 1 and `X` called on
/// line 12 share a label.)
pub proof fn lemma_call_labels_differ(i: nat, f: Seq<char>, j: nat, g: Seq<char>)
    requires
        i != j,
        !opens_with_digit(f),
        !opens_with_digit(g),
    ensures
        return_label(i, f) != return_label(j, g),
{
    reveal_strlit(".ReturnAddress");
    let a = return_label(i, f);
    let b = return_label(j, g);
    let di = decimal(i);
    let dj = decimal(j);
    lemma_decimal_value(i);
    lemma_decimal_value(j);
    let fa = f + ".ReturnAddress"@;
    let gb = g + ".ReturnAddress"@;
    assert(a =~= di + fa && b =~= dj + gb);
    assert(fa.len() > 0 && !is_digit(fa[0]));
    assert(gb.len() > 0 && !is_digit(gb[0]));
    if a == b {
        if di.len() < dj.len() {
            assert(a[di.len() as int] == fa[0]);
            assert(b[di.len() as int] == dj[di.len() as int]);
        } else if dj.len() < di.len() {
            assert(b[dj.len() as int] == gb[0]);
            assert(a[dj.len() as int] == di[dj.len() as int]);
        } else {
            assert(di =~= a.subrange(0, di.len() as int));
            assert(dj =~= b.subrange(0, dj.len() as int));
            lemma_decimal_injective(i, j);
        }
    }
}

/// No call returns to a label of a comparison.
pub proof fn lemma_call_and_compare_labels_differ(i: nat, f: Seq<char>, j: nat)
    ensures
        return_label(i, f) != true_label(j),
        return_label(i, f) != else_label(j),
{
    reveal_strlit("TRUE");
    reveal_strlit("ELSE");
    lemma_decimal_value(i);
    let di = decimal(i);
    assert(is_digit(di[0]));
    assert(return_label(i, f)[0] == di[0]);
    assert(true_label(j)[0] == 'T' && else_label(j)[0] == 'E');
}

/// The one label that a call defines is the label it returns to.
pub proof fn lemma_call_defines(back: Seq<char>, callee: Seq<char>, args: nat, name: Seq<char>)
    ensures
        defines(call_to(back, callee, args), name) <==> name == back,
{
    let a = call_to(back, callee, args);
    assert(a.len() == 50);
    assert(a[49] == Instr::Label(back));
    if defines(a, name) {
        let k = choose|k: int| 0 <= k < a.len() && #[trigger] a[k] == Instr::Label(name);
        assert(k == 49);
    }
}

/// Two calls of one function on different lines define no label in common,
/// whatever their argument counts.
pub proof fn lemma_call_code_labels_disjoint(
    callee: Seq<char>,
    m: nat,
    n: nat,
    i: nat,
    j: nat,
    name: Seq<char>,
)
    requires
        i != j,
    ensures
        !(defines(call_code(i, callee, m), name) && defines(call_code(j, callee, n), name)),
{
    lemma_return_labels_differ(i, j, callee);
    lemma_call_defines(return_label(i, callee), callee, m, name);
    lemma_call_defines(return_label(j, callee), callee, n, name);
}

/// Two calls on different lines define no label in common, whatever they
/// call, where no called name opens with a digit.
pub proof fn lemma_calls_labels_disjoint(
    f: Seq<char>,
    m: nat,
    i: nat,
    g: Seq<char>,
    n: nat,
    j: nat,
    name: Seq<char>,
)
    requires
        i != j,
        !opens_with_digit(f),
        !opens_with_digit(g),
    ensures
        !(defines(call_code(i, f, m), name) && defines(call_code(j, g, n), name)),
{
    lemma_call_labels_differ(i, f, j, g);
    lemma_call_defines(return_label(i, f), f, m, name);
    lemma_call_defines(return_label(j, g), g, n, name);
}

/// A call and a comparison define no label in common.
pub proof fn lemma_call_and_compare_labels_disjoint(
    f: Seq<char>,
    m: nat,
    i: nat,
    op: BooleanOperator,
    j: nat,
    name: Seq<char>,
)
    ensures
        !(defines(call_code(i, f, m), name) && defines(compare_code(op, j), name)),
{
    lemma_call_and_compare_labels_differ(i, f, j);
    lemma_call_defines(return_label(i, f), f, m, name);
    if defines(compare_code(op, j), name) {
        let k = choose|k: int|
            0 <= k < compare_code(op, j).len() && #[trigger] compare_code(op, j)[k]
                == Instr::Label(name);
        assert(k == 10 || k == 12);
    }
}

/// Whether a name can be the label of no command: it holds no dot and
/// opens with neither `T` nor `E`.
pub open spec fn free_label(name: Seq<char>) -> bool {
    name.len() > 0 && !name.contains('.') && name[0] != 'T' && name[0] != 'E'
}

/// Whether no instruction of `code` defines a label.
pub open spec fn label_free(code: Seq<Instr>) -> bool {
    forall|k: int| 0 <= k < code.len() ==> !(#[trigger] code[k] is Label)
}

/// Every label that the code of a command defines holds a dot or opens
/// with `T` or `E`: no command defines a free label.
pub proof fn lemma_defined_labels(op: Operation, ordinal: nat, unit: Seq<char>, name: Seq<char>)
    requires
        valid(op),
        defines(code_of(op, ordinal, unit), name),
    ensures
        !free_label(name),
{
    reveal_strlit(".");
    reveal_strlit("TRUE");
    reveal_strlit("ELSE");
    reveal_strlit(".Loop");
    reveal_strlit(".End");
    reveal_strlit(".ReturnAddress");
    let code = code_of(op, ordinal, unit);
    let k = choose|k: int| 0 <= k < code.len() && #[trigger] code[k] == Instr::Label(name);
    assert(code[k] is Label);
    match op {
        Operation::Push { segment, index } => {
            assert(label_free(load_code(segment, index, unit)));
            assert(label_free(push_from_d()));
            assert(label_free(code));
        },
        Operation::Pop { segment, index } => {
            assert(label_free(top_to_d()));
            assert(label_free(steps(index)));
            assert(label_free(aim_code(segment, index, unit)));
            assert(label_free(drop_top()));
            assert(label_free(code));
        },
        Operation::Binary { op } => {
            assert(label_free(code));
        },
        Operation::Unary { op } => {
            assert(label_free(code));
        },
        Operation::Compare { op } => {
            assert(k == 10 || k == 12);
            assert(true_label(ordinal)[0] == 'T' && else_label(ordinal)[0] == 'E');
        },
        Operation::Label { name: n } => {
            assert(name == unit_symbol(unit, n));
            assert(name[unit.len() as int] == '.');
        },
        Operation::Goto { name: n } => {
            assert(label_free(code));
        },
        Operation::IfGoto { name: n } => {
            assert(label_free(code));
        },
        Operation::Function { name: n, locals } => {
            if name == n {
            } else if name == loop_label(n) {
                assert(name[n.len() as int] == '.');
            } else {
                assert(name == end_label(n));
                assert(name[n.len() as int] == '.');
            }
        },
        Operation::Call { name: n, args } => {
            lemma_call_defines(return_label(ordinal, n), n, args, name);
            let at = decimal(ordinal).len() + n.len();
            assert(name[at as int] == '.');
        },
        Operation::Return => {
            assert(label_free(leave_code()));
            assert(label_free(restore_code(Cell::That)));
            assert(label_free(restore_code(Cell::This)));
            assert(label_free(restore_code(Cell::Arg)));
            assert(label_free(restore_code(Cell::Lcl)));
            assert(label_free(code));
        },
    }
}

/// The static cells of two units, or two static cells of one unit, have
/// different symbols: a symbol belongs to one unit and one index.
pub proof fn lemma_static_symbols_differ(unit: Seq<char>, i: nat, other: Seq<char>, j: nat)
    requires
        static_symbol(unit, i) == static_symbol(other, j),
    ensures
        unit == other,
        i == j,
{
    reveal_strlit(".");
    let a = static_symbol(unit, i);
    let b = static_symbol(other, j);
    lemma_decimal_value(i);
    lemma_decimal_value(j);
    assert(a.len() == unit.len() + 1 + decimal(i).len());
    assert(b.len() == other.len() + 1 + decimal(j).len());
    assert(a[unit.len() as int] == '.');
    assert(b[other.len() as int] == '.');
    if unit.len() < other.len() {
        // the dot before the index of `other` would be a digit of `i`
        let k = other.len() - unit.len() - 1;
        assert(a[other.len() as int] == decimal(i)[k]);
        assert(is_digit(decimal(i)[k]));
    } else if other.len() < unit.len() {
        let k = unit.len() - other.len() - 1;
        assert(b[unit.len() as int] == decimal(j)[k]);
        assert(is_digit(decimal(j)[k]));
    } else {
        assert(unit =~= a.subrange(0, unit.len() as int));
        assert(other =~= b.subrange(0, other.len() as int));
        assert(decimal(i) =~= a.subrange(unit.len() as int + 1, a.len() as int));
        assert(decimal(j) =~= b.subrange(other.len() as int + 1, b.len() as int));
        lemma_decimal_injective(i, j);
    }
}

} // verus!
