//! The commands of the virtual machine, and how a line's fragments are read
//! as one.

use crate::text::{decimal, number_of, parse_number, push_decimal, slices, to_chars};
use vstd::prelude::*;
use vstd::slice::slice_subrange;

verus! {

/// A named region of the virtual machine's memory.
#[derive(Clone, Copy, Debug, PartialEq, Eq)]
pub enum Segment {
    Local,
    Argument,
    This,
    That,
    Temp,
    Static,
    Pointer,
    Constant,
}

/// The operators that take two operands off the stack and leave one value.
#[derive(Clone, Copy, Debug, PartialEq, Eq)]
pub enum BinaryArithmeticOperator {
    Add,
    Sub,
    And,
    Or,
}

/// The operators that change the top of the stack in place.
#[derive(Clone, Copy, Debug, PartialEq, Eq)]
pub enum UnaryOperator {
    Neg,
    Not,
}

/// The comparisons.
#[derive(Clone, Copy, Debug, PartialEq, Eq)]
pub enum BooleanOperator {
    GreaterThan,
    LesserThan,
    Equal,
}

/// One instruction of the virtual machine.
#[allow(inconsistent_fields)]
#[derive(Debug, PartialEq, Eq)]
pub enum Command {
    PushSegment { segment: Segment, index: u16 },
    PopSegment { segment: Segment, index: u16 },
    BinaryOp { op: BinaryArithmeticOperator },
    UnaryOp { op: UnaryOperator },
    Compare { op: BooleanOperator },
    Label { name: String },
    Goto { name: String },
    IfGoto { name: String },
    Function { qualified_name: String, local_count: u16 },
    Call { name: String, arg_count: u16 },
    Return,
}

/// What a `Command` stands for.
#[allow(inconsistent_fields)]
pub enum Operation {
    Push { segment: Segment, index: nat },
    Pop { segment: Segment, index: nat },
    Binary { op: BinaryArithmeticOperator },
    Unary { op: UnaryOperator },
    Compare { op: BooleanOperator },
    Label { name: Seq<char> },
    Goto { name: Seq<char> },
    IfGoto { name: Seq<char> },
    Function { name: Seq<char>, locals: nat },
    Call { name: Seq<char>, args: nat },
    Return,
}

impl View for Command {
    type V = Operation;

    open spec fn view(&self) -> Operation {
        match *self {
            Command::PushSegment { segment, index } => Operation::Push {
                segment,
                index: index as nat,
            },
            Command::PopSegment { segment, index } => Operation::Pop {
                segment,
                index: index as nat,
            },
            Command::BinaryOp { op } => Operation::Binary { op },
            Command::UnaryOp { op } => Operation::Unary { op },
            Command::Compare { op } => Operation::Compare { op },
            Command::Label { name } => Operation::Label { name: name@ },
            Command::Goto { name } => Operation::Goto { name: name@ },
            Command::IfGoto { name } => Operation::IfGoto { name: name@ },
            Command::Function { qualified_name, local_count } => Operation::Function {
                name: qualified_name@,
                locals: local_count as nat,
            },
            Command::Call { name, arg_count } => Operation::Call {
                name: name@,
                args: arg_count as nat,
            },
            Command::Return => Operation::Return,
        }
    }
}

/// The largest number that an operand can be: the largest that the target's
/// load instruction holds, which has 15 bits for it.
pub const INDEX_MAX: u32 = 32767;

/// Whether a segment is addressed through a base pointer.
pub open spec fn is_based(segment: Segment) -> bool {
    segment is Local || segment is Argument || segment is This || segment is That
}

/// Whether `index` lies in the range that `segment` has.
pub open spec fn index_in_range(segment: Segment, index: nat) -> bool {
    match segment {
        Segment::Temp => index <= 7,
        Segment::Pointer => index <= 1,
        _ => true,
    }
}

/// The invariant of an operation: the constant segment is never popped to,
/// an index of `temp` or `pointer` lies within its segment, and a
/// function's name is qualified.
pub open spec fn valid(op: Operation) -> bool {
    match op {
        Operation::Push { segment, index } => index_in_range(segment, index),
        Operation::Pop { segment, index } => !(segment is Constant) && index_in_range(
            segment,
            index,
        ),
        Operation::Function { name, locals } => name.contains('.'),
        _ => true,
    }
}

/// The segment that a word names.
pub open spec fn segment_of(word: Seq<char>) -> Option<Segment> {
    if word == "local"@ {
        Some(Segment::Local)
    } else if word == "argument"@ {
        Some(Segment::Argument)
    } else if word == "this"@ {
        Some(Segment::This)
    } else if word == "that"@ {
        Some(Segment::That)
    } else if word == "temp"@ {
        Some(Segment::Temp)
    } else if word == "static"@ {
        Some(Segment::Static)
    } else if word == "pointer"@ {
        Some(Segment::Pointer)
    } else if word == "constant"@ {
        Some(Segment::Constant)
    } else {
        None
    }
}

/// The message for a wrong number of operands.
pub open spec fn arity_message(mnemonic: Seq<char>, expected: nat, got: nat) -> Seq<char> {
    "Syntax error: "@ + mnemonic + ": expected "@ + decimal(expected) + " operands, got "@
        + decimal(got)
}

/// The message for an index of a segment that is no number.
pub open spec fn not_a_number_message(segment: Segment, pushing: bool, token: Seq<char>) -> Seq<
    char,
> {
    if pushing {
        match segment {
            Segment::Temp => "Syntax error: push temp argument must be an integer, received "@
                + token,
            Segment::Static => "Syntax error: push static argument must be an integer, received "@
                + token,
            Segment::Pointer => "Syntax error: push pointer argument must be 0 or 1, received "@
                + token,
            Segment::Constant => "Syntax error: push constant argument must be an integer, received "@
                + token,
            _ => "Syntax error: push takes an integer as a second argument, received "@ + token,
        }
    } else {
        match segment {
            Segment::Temp => "Syntax error: pop temp argument must be an integer, received "@
                + token,
            Segment::Static => "Syntax error: pop static argument must be an integer, received "@
                + token,
            Segment::Pointer => "Syntax error: pop pointer argument must be an integer, received "@
                + token,
            _ => "Invalid syntax: pop second operand must be an integer, received "@ + token,
        }
    }
}

/// The message for an index outside its segment's range.
pub open spec fn out_of_range_message(
    segment: Segment,
    pushing: bool,
    token: Seq<char>,
    index: nat,
) -> Seq<char> {
    if pushing {
        if segment is Temp {
            "Syntax error: push temp argument must be between 0 and 7, received "@ + token
        } else {
            "Syntax error: pointer must be 0 or 1, received "@ + token
        }
    } else {
        if segment is Temp {
            "Syntax error: pop temp must be between 0 and 7, received "@ + token
        } else {
            "Syntax error: pop pointer must be 0 or 1, received "@ + decimal(index)
        }
    }
}

/// The message for a segment that cannot be pushed from.
pub open spec fn push_segment_message() -> Seq<char> {
    "Syntax error: push first argument must be {local, argument, this, that, temp, static, pointer, constant}"@
}

/// The message for a segment that cannot be popped to.
pub open spec fn pop_segment_message(word: Seq<char>) -> Seq<char> {
    "Syntax error: pop first argument must be {local, argument, this, that, temp, static, pointer}, received "@
        + word
}

/// The message for a mnemonic that names no command.
pub open spec fn unsupported_message(mnemonic: Seq<char>) -> Seq<char> {
    "Unsupported operation: "@ + mnemonic
}

/// What the operands of `push` or `pop` are read as.
pub open spec fn read_transfer(pushing: bool, args: Seq<Seq<char>>) -> Result<
    Operation,
    Seq<char>,
> {
    if args.len() != 2 {
        Err(arity_message(if pushing { "push"@ } else { "pop"@ }, 2, args.len()))
    } else {
        match segment_of(args[0]) {
            None => Err(
                if pushing {
                    push_segment_message()
                } else {
                    pop_segment_message(args[0])
                },
            ),
            Some(segment) => if !pushing && segment is Constant {
                Err(pop_segment_message(args[0]))
            } else {
                match number_of(args[1], INDEX_MAX as nat) {
                    None => Err(not_a_number_message(segment, pushing, args[1])),
                    Some(index) => if !index_in_range(segment, index) {
                        Err(out_of_range_message(segment, pushing, args[1], index))
                    } else if pushing {
                        Ok(Operation::Push { segment, index })
                    } else {
                        Ok(Operation::Pop { segment, index })
                    },
                }
            },
        }
    }
}

/// What the operands of a command without operands are read as.
pub open spec fn read_plain(mnemonic: Seq<char>, args: Seq<Seq<char>>, op: Operation) -> Result<
    Operation,
    Seq<char>,
> {
    if args.len() != 0 {
        Err(arity_message(mnemonic, 0, args.len()))
    } else {
        Ok(op)
    }
}

/// The three commands that take a label.
#[derive(Clone, Copy, Debug, PartialEq, Eq)]
pub enum Branch {
    Label,
    Goto,
    IfGoto,
}

/// The mnemonic of a command that takes a label.
pub open spec fn branch_word(kind: Branch) -> Seq<char> {
    match kind {
        Branch::Label => "label"@,
        Branch::Goto => "goto"@,
        Branch::IfGoto => "if-goto"@,
    }
}

/// What the operands of `label`, `goto` or `if-goto` are read as.
pub open spec fn read_branch(kind: Branch, args: Seq<Seq<char>>) -> Result<Operation, Seq<char>> {
    if args.len() != 1 {
        Err(arity_message(branch_word(kind), 1, args.len()))
    } else {
        Ok(
            match kind {
                Branch::Label => Operation::Label { name: args[0] },
                Branch::Goto => Operation::Goto { name: args[0] },
                Branch::IfGoto => Operation::IfGoto { name: args[0] },
            },
        )
    }
}

/// What the operands of `function` are read as.
pub open spec fn read_function(args: Seq<Seq<char>>) -> Result<Operation, Seq<char>> {
    if args.len() != 2 {
        Err(arity_message("function"@, 2, args.len()))
    } else if !args[0].contains('.') {
        Err("Syntax error: function first argument must be class.name, received "@ + args[0])
    } else {
        match number_of(args[1], INDEX_MAX as nat) {
            None => Err(
                "Syntax error: function second argument must be an integer, received "@ + args[1],
            ),
            Some(locals) => Ok(Operation::Function { name: args[0], locals }),
        }
    }
}

/// What the operands of `call` are read as.
pub open spec fn read_call(args: Seq<Seq<char>>) -> Result<Operation, Seq<char>> {
    if args.len() != 2 {
        Err(arity_message("call"@, 2, args.len()))
    } else {
        match number_of(args[1], INDEX_MAX as nat) {
            None => Err(
                "Syntax error: call second argument must be an integer, received "@ + args[1],
            ),
            Some(count) => Ok(Operation::Call { name: args[0], args: count }),
        }
    }
}

/// What a line's fragments are read as: the first is the mnemonic, the
/// others are its operands.
pub open spec fn read_command(fragments: Seq<Seq<char>>) -> Result<Operation, Seq<char>> {
    if fragments.len() == 0 {
        Err(unsupported_message(Seq::empty()))
    } else {
        let m = fragments[0];
        let args = fragments.subrange(1, fragments.len() as int);
        if m == "push"@ {
            read_transfer(true, args)
        } else if m == "pop"@ {
            read_transfer(false, args)
        } else if m == "add"@ {
            read_plain(m, args, Operation::Binary { op: BinaryArithmeticOperator::Add })
        } else if m == "sub"@ {
            read_plain(m, args, Operation::Binary { op: BinaryArithmeticOperator::Sub })
        } else if m == "neg"@ {
            read_plain(m, args, Operation::Unary { op: UnaryOperator::Neg })
        } else if m == "eq"@ {
            read_plain(m, args, Operation::Compare { op: BooleanOperator::Equal })
        } else if m == "gt"@ {
            read_plain(m, args, Operation::Compare { op: BooleanOperator::GreaterThan })
        } else if m == "lt"@ {
            read_plain(m, args, Operation::Compare { op: BooleanOperator::LesserThan })
        } else if m == "and"@ {
            read_plain(m, args, Operation::Binary { op: BinaryArithmeticOperator::And })
        } else if m == "or"@ {
            read_plain(m, args, Operation::Binary { op: BinaryArithmeticOperator::Or })
        } else if m == "not"@ {
            read_plain(m, args, Operation::Unary { op: UnaryOperator::Not })
        } else if m == "label"@ {
            read_branch(Branch::Label, args)
        } else if m == "goto"@ {
            read_branch(Branch::Goto, args)
        } else if m == "if-goto"@ {
            read_branch(Branch::IfGoto, args)
        } else if m == "function"@ {
            read_function(args)
        } else if m == "call"@ {
            read_call(args)
        } else if m == "return"@ {
            read_plain(m, args, Operation::Return)
        } else {
            Err(unsupported_message(m))
        }
    }
}

/// Whether an executable result is the one that `expected` describes.
pub open spec fn reads_as(r: Result<Command, String>, expected: Result<Operation, Seq<char>>) -> bool {
    match expected {
        Ok(op) => r is Ok && r->Ok_0@ == op,
        Err(message) => r is Err && r->Err_0@ == message,
    }
}

/// Every operation that is read from fragments is valid.
pub proof fn lemma_read_is_valid(fragments: Seq<Seq<char>>)
    ensures
        read_command(fragments) matches Ok(op) ==> valid(op),
{
}

/// Whether two strings hold the same text.
pub fn same(a: &str, b: &str) -> (r: bool)
    ensures
        r == (a@ == b@),
{
    let x: String = String::from_str(a);
    let y: String = String::from_str(b);
    x == y
}

/// A message made of a fixed opening and a token.
pub fn message(opening: &str, token: &str) -> (m: String)
    ensures
        m@ == opening@ + token@,
{
    let mut m: String = String::from_str(opening);
    m.append(token);
    m
}

fn arity_error(mnemonic: &str, expected: u64, got: usize) -> (m: String)
    ensures
        m@ == arity_message(mnemonic@, expected as nat, got as nat),
{
    let mut m: String = String::from_str("Syntax error: ");
    m.append(mnemonic);
    m.append(": expected ");
    push_decimal(&mut m, expected);
    m.append(" operands, got ");
    push_decimal(&mut m, got as u64);
    m
}

/// Reads the name of a segment.
pub fn parse_segment(word: &str) -> (r: Option<Segment>)
    ensures
        r == segment_of(word@),
{
    if same(word, "local") {
        Some(Segment::Local)
    } else if same(word, "argument") {
        Some(Segment::Argument)
    } else if same(word, "this") {
        Some(Segment::This)
    } else if same(word, "that") {
        Some(Segment::That)
    } else if same(word, "temp") {
        Some(Segment::Temp)
    } else if same(word, "static") {
        Some(Segment::Static)
    } else if same(word, "pointer") {
        Some(Segment::Pointer)
    } else if same(word, "constant") {
        Some(Segment::Constant)
    } else {
        None
    }
}

fn not_a_number(segment: Segment, pushing: bool, token: &str) -> (m: String)
    ensures
        m@ == not_a_number_message(segment, pushing, token@),
{
    if pushing {
        match segment {
            Segment::Temp => message(
                "Syntax error: push temp argument must be an integer, received ",
                token,
            ),
            Segment::Static => message(
                "Syntax error: push static argument must be an integer, received ",
                token,
            ),
            Segment::Pointer => message(
                "Syntax error: push pointer argument must be 0 or 1, received ",
                token,
            ),
            Segment::Constant => message(
                "Syntax error: push constant argument must be an integer, received ",
                token,
            ),
            _ => message(
                "Syntax error: push takes an integer as a second argument, received ",
                token,
            ),
        }
    } else {
        match segment {
            Segment::Temp => message(
                "Syntax error: pop temp argument must be an integer, received ",
                token,
            ),
            Segment::Static => message(
                "Syntax error: pop static argument must be an integer, received ",
                token,
            ),
            Segment::Pointer => message(
                "Syntax error: pop pointer argument must be an integer, received ",
                token,
            ),
            _ => message("Invalid syntax: pop second operand must be an integer, received ", token),
        }
    }
}

fn out_of_range(segment: Segment, pushing: bool, token: &str, index: u16) -> (m: String)
    ensures
        m@ == out_of_range_message(segment, pushing, token@, index as nat),
{
    let temp: bool = match segment {
        Segment::Temp => true,
        _ => false,
    };
    if pushing {
        if temp {
            message("Syntax error: push temp argument must be between 0 and 7, received ", token)
        } else {
            message("Syntax error: pointer must be 0 or 1, received ", token)
        }
    } else {
        if temp {
            message("Syntax error: pop temp must be between 0 and 7, received ", token)
        } else {
            let mut m: String = String::from_str(
                "Syntax error: pop pointer must be 0 or 1, received ",
            );
            push_decimal(&mut m, index as u64);
            m
        }
    }
}

/// Reads the operands of `push` (`pushing`) or of `pop`.
pub fn parse_transfer(pushing: bool, args: &[&str]) -> (r: Result<Command, String>)
    ensures
        reads_as(r, read_transfer(pushing, slices(args@))),
{
    if args.len() != 2 {
        return Err(arity_error(if pushing { "push" } else { "pop" }, 2, args.len()));
    }
    let segment: Segment = match parse_segment(args[0]) {
        Some(segment) => segment,
        None => {
            if pushing {
                return Err(
                    String::from_str(
                        "Syntax error: push first argument must be {local, argument, this, that, temp, static, pointer, constant}",
                    ),
                );
            } else {
                return Err(
                    message(
                        "Syntax error: pop first argument must be {local, argument, this, that, temp, static, pointer}, received ",
                        args[0],
                    ),
                );
            }
        },
    };
    let constant: bool = match segment {
        Segment::Constant => true,
        _ => false,
    };
    if !pushing && constant {
        return Err(
            message(
                "Syntax error: pop first argument must be {local, argument, this, that, temp, static, pointer}, received ",
                args[0],
            ),
        );
    }
    let index: u16 = match parse_number(args[1], INDEX_MAX) {
        Some(index) => index as u16,
        None => {
            return Err(not_a_number(segment, pushing, args[1]));
        },
    };
    let in_range: bool = match segment {
        Segment::Temp => index <= 7,
        Segment::Pointer => index <= 1,
        _ => true,
    };
    if !in_range {
        Err(out_of_range(segment, pushing, args[1], index))
    } else if pushing {
        Ok(Command::PushSegment { segment, index })
    } else {
        Ok(Command::PopSegment { segment, index })
    }
}

/// Reads the operands of a command that takes none.
pub fn parse_plain(mnemonic: &str, args: &[&str], command: Command) -> (r: Result<
    Command,
    String,
>)
    ensures
        reads_as(r, read_plain(mnemonic@, slices(args@), command@)),
{
    if args.len() != 0 {
        Err(arity_error(mnemonic, 0, args.len()))
    } else {
        Ok(command)
    }
}

/// Reads the operand of `label`, `goto` or `if-goto`.
pub fn parse_branch(kind: Branch, args: &[&str]) -> (r: Result<Command, String>)
    ensures
        reads_as(r, read_branch(kind, slices(args@))),
{
    if args.len() != 1 {
        let word: &str = match kind {
            Branch::Label => "label",
            Branch::Goto => "goto",
            Branch::IfGoto => "if-goto",
        };
        return Err(arity_error(word, 1, args.len()));
    }
    let name: String = String::from_str(args[0]);
    Ok(
        match kind {
            Branch::Label => Command::Label { name },
            Branch::Goto => Command::Goto { name },
            Branch::IfGoto => Command::IfGoto { name },
        },
    )
}

/// Whether a word holds a dot.
pub fn has_dot(word: &str) -> (r: bool)
    ensures
        r == word@.contains('.'),
{
    let chars: Vec<char> = to_chars(word);
    let mut i: usize = 0;
    while i < chars.len()
        invariant
            chars@ == word@,
            i <= chars.len(),
            forall|j: int| 0 <= j < i ==> word@[j] != '.',
        decreases chars.len() - i,
    {
        if chars[i] == '.' {
            return true;
        }
        i = i + 1;
    }
    false
}

/// Reads the operands of `function`.
pub fn parse_function(args: &[&str]) -> (r: Result<Command, String>)
    ensures
        reads_as(r, read_function(slices(args@))),
{
    if args.len() != 2 {
        return Err(arity_error("function", 2, args.len()));
    }
    if !has_dot(args[0]) {
        return Err(
            message("Syntax error: function first argument must be class.name, received ", args[0]),
        );
    }
    match parse_number(args[1], INDEX_MAX) {
        None => Err(
            message("Syntax error: function second argument must be an integer, received ", args[1]),
        ),
        Some(count) => Ok(
            Command::Function { qualified_name: String::from_str(args[0]), local_count: count as u16 },
        ),
    }
}

/// Reads the operands of `call`.
pub fn parse_call(args: &[&str]) -> (r: Result<Command, String>)
    ensures
        reads_as(r, read_call(slices(args@))),
{
    if args.len() != 2 {
        return Err(arity_error("call", 2, args.len()));
    }
    match parse_number(args[1], INDEX_MAX) {
        None => Err(
            message("Syntax error: call second argument must be an integer, received ", args[1]),
        ),
        Some(count) => Ok(Command::Call { name: String::from_str(args[0]), arg_count: count as u16 }),
    }
}

/// Reads a command from the fragments of a line.
pub fn parse_command(fragments: &[&str]) -> (r: Result<Command, String>)
    ensures
        reads_as(r, read_command(slices(fragments@))),
        r matches Ok(c) ==> valid(c@),
{
    if fragments.len() == 0 {
        proof {
            reveal_strlit("");
            assert(""@ =~= Seq::<char>::empty());
        }
        return Err(message("Unsupported operation: ", ""));
    }
    let m: &str = fragments[0];
    let args: &[&str] = slice_subrange(fragments, 1, fragments.len());
    proof {
        assert(slices(args@) =~= slices(fragments@).subrange(1, fragments@.len() as int));
        lemma_read_is_valid(slices(fragments@));
    }
    if same(m, "push") {
        parse_transfer(true, args)
    } else if same(m, "pop") {
        parse_transfer(false, args)
    } else if same(m, "add") {
        parse_plain(m, args, Command::BinaryOp { op: BinaryArithmeticOperator::Add })
    } else if same(m, "sub") {
        parse_plain(m, args, Command::BinaryOp { op: BinaryArithmeticOperator::Sub })
    } else if same(m, "neg") {
        parse_plain(m, args, Command::UnaryOp { op: UnaryOperator::Neg })
    } else if same(m, "eq") {
        parse_plain(m, args, Command::Compare { op: BooleanOperator::Equal })
    } else if same(m, "gt") {
        parse_plain(m, args, Command::Compare { op: BooleanOperator::GreaterThan })
    } else if same(m, "lt") {
        parse_plain(m, args, Command::Compare { op: BooleanOperator::LesserThan })
    } else if same(m, "and") {
        parse_plain(m, args, Command::BinaryOp { op: BinaryArithmeticOperator::And })
    } else if same(m, "or") {
        parse_plain(m, args, Command::BinaryOp { op: BinaryArithmeticOperator::Or })
    } else if same(m, "not") {
        parse_plain(m, args, Command::UnaryOp { op: UnaryOperator::Not })
    } else if same(m, "label") {
        parse_branch(Branch::Label, args)
    } else if same(m, "goto") {
        parse_branch(Branch::Goto, args)
    } else if same(m, "if-goto") {
        parse_branch(Branch::IfGoto, args)
    } else if same(m, "function") {
        parse_function(args)
    } else if same(m, "call") {
        parse_call(args)
    } else if same(m, "return") {
        parse_plain(m, args, Command::Return)
    } else {
        Err(message("Unsupported operation: ", m))
    }
}

} // verus!
