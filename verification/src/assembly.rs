//! The target's assembly language: instructions, their text, and a builder
//! that writes the text of an instruction sequence.

use crate::text::{decimal, push_decimal, texts};
use vstd::prelude::*;

verus! {

/// A memory cell that the assembly language knows by name: the stack
/// pointer and the four segment base pointers.
#[derive(Clone, Copy, Debug, PartialEq, Eq)]
pub enum Cell {
    Sp,
    Lcl,
    Arg,
    This,
    That,
}

/// Where a computation's value goes.
#[derive(Clone, Copy, Debug, PartialEq, Eq)]
pub enum Dest {
    Nowhere,
    A,
    D,
    M,
}

/// What an instruction computes from the registers `A` and `D` and from
/// `M`, the memory cell that `A` addresses.
#[derive(Clone, Copy, Debug, PartialEq, Eq)]
pub enum Comp {
    Zero,
    MinusOne,
    A,
    D,
    M,
    NotM,
    MPlusD,
    MMinusD,
    MAndD,
    MOrD,
    AMinusD,
    DMinusA,
    APlusOne,
    AMinusOne,
    DPlusOne,
    DMinusOne,
    MPlusOne,
    MMinusOne,
}

/// When an instruction jumps, by the sign of the value it computed.
#[derive(Clone, Copy, Debug, PartialEq, Eq)]
pub enum Jump {
    Never,
    IfZero,
    IfPositive,
    IfNegative,
    IfNonZero,
    Always,
}

/// One line of assembly.
pub enum Instr {
    /// Load the address of a named cell into `A`.
    Address(Cell),
    /// Load a number into `A`.
    Number(nat),
    /// Load the value of a symbol into `A`.
    Symbol(Seq<char>),
    /// Define a symbol as the address of the next instruction.
    Label(Seq<char>),
    /// Compute, store and possibly jump to the address in `A`.
    Compute(Dest, Comp, Jump),
}

/// The name of a named cell.
pub open spec fn cell_text(c: Cell) -> Seq<char> {
    match c {
        Cell::Sp => "SP"@,
        Cell::Lcl => "LCL"@,
        Cell::Arg => "ARG"@,
        Cell::This => "THIS"@,
        Cell::That => "THAT"@,
    }
}

/// The text of a destination, its equals sign included.
pub open spec fn dest_text(d: Dest) -> Seq<char> {
    match d {
        Dest::Nowhere => ""@,
        Dest::A => "A="@,
        Dest::D => "D="@,
        Dest::M => "M="@,
    }
}

/// The text of a computation.
pub open spec fn comp_text(c: Comp) -> Seq<char> {
    match c {
        Comp::Zero => "0"@,
        Comp::MinusOne => "-1"@,
        Comp::A => "A"@,
        Comp::D => "D"@,
        Comp::M => "M"@,
        Comp::NotM => "!M"@,
        Comp::MPlusD => "M+D"@,
        Comp::MMinusD => "M-D"@,
        Comp::MAndD => "M&D"@,
        Comp::MOrD => "M|D"@,
        Comp::AMinusD => "A-D"@,
        Comp::DMinusA => "D-A"@,
        Comp::APlusOne => "A+1"@,
        Comp::AMinusOne => "A-1"@,
        Comp::DPlusOne => "D+1"@,
        Comp::DMinusOne => "D-1"@,
        Comp::MPlusOne => "M+1"@,
        Comp::MMinusOne => "M-1"@,
    }
}

/// The text of a jump, its semicolon included.
pub open spec fn jump_text(j: Jump) -> Seq<char> {
    match j {
        Jump::Never => ""@,
        Jump::IfZero => ";JEQ"@,
        Jump::IfPositive => ";JGT"@,
        Jump::IfNegative => ";JLT"@,
        Jump::IfNonZero => ";JNE"@,
        Jump::Always => ";JMP"@,
    }
}

/// The text of an instruction, its line end included.
pub open spec fn render(i: Instr) -> Seq<char> {
    match i {
        Instr::Address(c) => "@"@ + cell_text(c) + "\n"@,
        Instr::Number(n) => "@"@ + decimal(n) + "\n"@,
        Instr::Symbol(name) => "@"@ + name + "\n"@,
        Instr::Label(name) => "("@ + name + ")\n"@,
        Instr::Compute(d, c, j) => dest_text(d) + comp_text(c) + jump_text(j) + "\n"@,
    }
}

/// The text of each instruction of `code`, in order.
pub open spec fn render_all(code: Seq<Instr>) -> Seq<Seq<char>> {
    Seq::new(code.len(), |i: int| render(code[i]))
}

fn cell_name(c: Cell) -> (s: &'static str)
    ensures
        s@ == cell_text(c),
{
    match c {
        Cell::Sp => "SP",
        Cell::Lcl => "LCL",
        Cell::Arg => "ARG",
        Cell::This => "THIS",
        Cell::That => "THAT",
    }
}

fn dest_name(d: Dest) -> (s: &'static str)
    ensures
        s@ == dest_text(d),
{
    match d {
        Dest::Nowhere => "",
        Dest::A => "A=",
        Dest::D => "D=",
        Dest::M => "M=",
    }
}

fn comp_name(c: Comp) -> (s: &'static str)
    ensures
        s@ == comp_text(c),
{
    match c {
        Comp::Zero => "0",
        Comp::MinusOne => "-1",
        Comp::A => "A",
        Comp::D => "D",
        Comp::M => "M",
        Comp::NotM => "!M",
        Comp::MPlusD => "M+D",
        Comp::MMinusD => "M-D",
        Comp::MAndD => "M&D",
        Comp::MOrD => "M|D",
        Comp::AMinusD => "A-D",
        Comp::DMinusA => "D-A",
        Comp::APlusOne => "A+1",
        Comp::AMinusOne => "A-1",
        Comp::DPlusOne => "D+1",
        Comp::DMinusOne => "D-1",
        Comp::MPlusOne => "M+1",
        Comp::MMinusOne => "M-1",
    }
}

fn jump_name(j: Jump) -> (s: &'static str)
    ensures
        s@ == jump_text(j),
{
    match j {
        Jump::Never => "",
        Jump::IfZero => ";JEQ",
        Jump::IfPositive => ";JGT",
        Jump::IfNegative => ";JLT",
        Jump::IfNonZero => ";JNE",
        Jump::Always => ";JMP",
    }
}

/// Writes assembly line by line and keeps the instruction sequence that the
/// lines written so far are the text of.
pub struct Emitter {
    lines: Vec<String>,
    code: Ghost<Seq<Instr>>,
}

impl Emitter {
    /// The lines are the text of the instructions.
    pub closed spec fn wf(&self) -> bool {
        texts(self.lines@) == render_all(self.code@)
    }

    /// The instructions written so far.
    pub closed spec fn code(&self) -> Seq<Instr> {
        self.code@
    }

    /// An emitter that has written nothing.
    pub fn new() -> (e: Emitter)
        ensures
            e.wf(),
            e.code() == Seq::<Instr>::empty(),
    {
        let e = Emitter { lines: Vec::new(), code: Ghost(Seq::empty()) };
        assert(texts(e.lines@) =~= render_all(e.code@));
        e
    }

    fn line(&mut self, text: String, Ghost(i): Ghost<Instr>)
        requires
            old(self).wf(),
            text@ == render(i),
        ensures
            final(self).wf(),
            final(self).code() == old(self).code().push(i),
    {
        let ghost lines0 = self.lines@;
        let ghost code0 = self.code@;
        self.lines.push(text);
        self.code = Ghost(self.code@.push(i));
        assert(texts(lines0).len() == render_all(code0).len());
        assert forall|k: int| 0 <= k < self.lines@.len() implies texts(self.lines@)[k]
            == render_all(self.code@)[k] by {
            if k < lines0.len() {
                assert(texts(lines0)[k] == render_all(code0)[k]);
            }
        }
        assert(texts(self.lines@) =~= render_all(self.code@));
    }

    /// Writes the load of a named cell's address.
    pub fn address(&mut self, c: Cell)
        requires
            old(self).wf(),
        ensures
            final(self).wf(),
            final(self).code() == old(self).code().push(Instr::Address(c)),
    {
        let mut s: String = String::from_str("@");
        s.append(cell_name(c));
        s.append("\n");
        self.line(s, Ghost(Instr::Address(c)));
    }

    /// Writes the load of a number.
    pub fn number(&mut self, n: u64)
        requires
            old(self).wf(),
        ensures
            final(self).wf(),
            final(self).code() == old(self).code().push(Instr::Number(n as nat)),
    {
        let mut s: String = String::from_str("@");
        push_decimal(&mut s, n);
        s.append("\n");
        self.line(s, Ghost(Instr::Number(n as nat)));
    }

    /// Writes the load of a symbol.
    pub fn symbol(&mut self, name: &str)
        requires
            old(self).wf(),
        ensures
            final(self).wf(),
            final(self).code() == old(self).code().push(Instr::Symbol(name@)),
    {
        let mut s: String = String::from_str("@");
        s.append(name);
        s.append("\n");
        self.line(s, Ghost(Instr::Symbol(name@)));
    }

    /// Writes the definition of a label.
    pub fn label(&mut self, name: &str)
        requires
            old(self).wf(),
        ensures
            final(self).wf(),
            final(self).code() == old(self).code().push(Instr::Label(name@)),
    {
        let mut s: String = String::from_str("(");
        s.append(name);
        s.append(")\n");
        self.line(s, Ghost(Instr::Label(name@)));
    }

    /// Writes a computation with its destination and its jump.
    pub fn compute(&mut self, d: Dest, c: Comp, j: Jump)
        requires
            old(self).wf(),
        ensures
            final(self).wf(),
            final(self).code() == old(self).code().push(Instr::Compute(d, c, j)),
    {
        let mut s: String = String::from_str(dest_name(d));
        s.append(comp_name(c));
        s.append(jump_name(j));
        s.append("\n");
        self.line(s, Ghost(Instr::Compute(d, c, j)));
    }

    /// Hands out the lines written.
    pub fn finish(self) -> (lines: Vec<String>)
        requires
            self.wf(),
        ensures
            texts(lines@) == render_all(self.code()),
    {
        self.lines
    }
}

} // verus!
