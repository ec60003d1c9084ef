//! The whole program: one start-up sequence, then the output of each unit.

use crate::assembly::{render, render_all, Cell, Comp, Dest, Emitter, Instr, Jump};
use crate::codegen::{at, call_to, emit_call_to, free_label, num, put};
use crate::control::{
    advance, after, holds_at, lemma_after_stretch, lemma_after_sum, lemma_holds_index,
    lemma_holds_part, lemma_label_address, lemma_run_call, lemma_store_words, placed, Running,
};
use crate::machine::{
    cell_address, jump_free, lemma_run_concat, run, run_upto, store, word, wrap, Machine,
};
use crate::driver::{
    compile_file, diagnostics, echo, lemma_outputs_labels, lemma_outputs_shape,
    lemma_render_first, lemma_render_label, lemma_texts_concat,
    outputs, reports, Diagnostic, Report,
};
use crate::text::{texts, to_chars};
use vstd::prelude::*;

verus! {

/// Where the stack starts.
pub const SP: u64 = 256;

/// Where the local segment starts.
pub const LCL: u64 = 512;

/// Where the argument segment starts.
pub const ARG: u64 = 768;

/// Where the `this` segment starts.
pub const THIS: u64 = 1024;

/// Where the `that` segment starts.
pub const THAT: u64 = 1280;

/// Store a number in a named cell.
pub open spec fn init_cell(value: nat, c: Cell) -> Seq<Instr> {
    seq![num(value), put(Dest::D, Comp::A), at(c), put(Dest::M, Comp::D)]
}

/// The label that the start-up call returns to. It has a form of its own,
/// without a dot, so that no command defines it.
pub open spec fn start_label() -> Seq<char> {
    "StartReturnAddress"@
}

/// The start-up code: set the stack pointer and the four base pointers,
/// then call `Sys.init` without arguments.
pub open spec fn init_code() -> Seq<Instr> {
    init_cell(SP as nat, Cell::Sp) + init_cell(LCL as nat, Cell::Lcl) + init_cell(
        ARG as nat,
        Cell::Arg,
    ) + init_cell(THIS as nat, Cell::This) + init_cell(THAT as nat, Cell::That) + call_to(
        start_label(),
        "Sys.init"@,
        0,
    )
}

/// The lines that every program starts with: a heading, the start-up code
/// and an empty line.
pub open spec fn bootstrap() -> Seq<Seq<char>> {
    seq!["// Initialisation code\n"@] + render_all(init_code()) + seq!["\n"@]
}

fn emit_init_cell(e: &mut Emitter, value: u64, c: Cell)
    requires
        old(e).wf(),
    ensures
        final(e).wf(),
        final(e).code() == old(e).code() + init_cell(value as nat, c),
{
    e.number(value);
    e.compute(Dest::D, Comp::A, Jump::Never);
    e.address(c);
    e.compute(Dest::M, Comp::D, Jump::Never);
    assert(e.code() =~= old(e).code() + init_cell(value as nat, c));
}

/// The lines that every program starts with.
pub fn gen_init_code() -> (lines: Vec<String>)
    ensures
        texts(lines@) == bootstrap(),
{
    let mut e: Emitter = Emitter::new();
    emit_init_cell(&mut e, SP, Cell::Sp);
    emit_init_cell(&mut e, LCL, Cell::Lcl);
    emit_init_cell(&mut e, ARG, Cell::Arg);
    emit_init_cell(&mut e, THIS, Cell::This);
    emit_init_cell(&mut e, THAT, Cell::That);
    emit_call_to(&mut e, "StartReturnAddress", "Sys.init", 0);
    assert(e.code() =~= init_code());
    let mut code: Vec<String> = e.finish();
    let ghost code0 = code@;
    let heading: String = String::from_str("// Initialisation code\n");
    let blank: String = String::from_str("\n");
    let mut lines: Vec<String> = Vec::new();
    lines.push(heading);
    lines.append(&mut code);
    lines.push(blank);
    proof {
        assert(lines@ =~= seq![heading] + code0 + seq![blank]);
        assert(texts(lines@) =~= bootstrap());
    }
    lines
}

/// Whether a file name ends in the suffix of source files, `.vm`.
pub open spec fn has_suffix(name: Seq<char>) -> bool {
    name.len() >= 3 && name[name.len() - 3] == '.' && name[name.len() - 2] == 'v' && name[name.len()
        - 1] == 'm'
}

/// A file name without its last three characters.
pub open spec fn stem(name: Seq<char>) -> Seq<char> {
    name.subrange(0, name.len() - 3)
}

/// The name of the unit that a file holds: the file's name without the
/// suffix. `None` for a file that is no source file.
pub fn unit_name(file_name: &str) -> (r: Option<String>)
    ensures
        has_suffix(file_name@) ==> r is Some && r->Some_0@ == stem(file_name@),
        !has_suffix(file_name@) ==> r is None,
{
    let chars: Vec<char> = to_chars(file_name);
    let n: usize = chars.len();
    if n >= 3 && chars[n - 3] == '.' && chars[n - 2] == 'v' && chars[n - 1] == 'm' {
        Some(String::from_str(file_name.substring_char(0, n - 3)))
    } else {
        None
    }
}

/// A source file that was read: its name and its lines.
#[derive(Debug)]
pub struct SourceUnit {
    pub file_name: String,
    pub lines: Vec<String>,
}

/// What a `SourceUnit` stands for.
pub struct SourceText {
    pub file_name: Seq<char>,
    pub lines: Seq<Seq<char>>,
}

impl View for SourceUnit {
    type V = SourceText;

    open spec fn view(&self) -> SourceText {
        SourceText { file_name: self.file_name@, lines: texts(self.lines@) }
    }
}

/// The view of every source unit in a sequence.
pub open spec fn sources(v: Seq<SourceUnit>) -> Seq<SourceText> {
    Seq::new(v.len(), |i: int| v[i]@)
}

/// The number of lines in the source files among the first `k` files.
pub open spec fn lines_before(units: Seq<SourceText>, k: int) -> nat
    decreases k,
{
    if k <= 0 {
        0
    } else if has_suffix(units[k - 1].file_name) {
        lines_before(units, k - 1) + units[k - 1].lines.len()
    } else {
        lines_before(units, k - 1)
    }
}

/// The output of the first `k` files: for each source file, in order, a
/// comment that names it and the output of its lines, whose ordinals go on
/// from those of the source files before it. Other files add nothing.
pub open spec fn blocks(units: Seq<SourceText>, k: int) -> Seq<Seq<char>>
    decreases k,
{
    if k <= 0 {
        Seq::empty()
    } else if has_suffix(units[k - 1].file_name) {
        blocks(units, k - 1) + seq![echo(units[k - 1].file_name)] + outputs(
            stem(units[k - 1].file_name),
            units[k - 1].lines,
            lines_before(units, k - 1),
            0,
            units[k - 1].lines.len() as int,
        )
    } else {
        blocks(units, k - 1)
    }
}

/// The diagnostics of the first `k` files, in the same order.
pub open spec fn all_reports(units: Seq<SourceText>, k: int) -> Seq<Report>
    decreases k,
{
    if k <= 0 {
        Seq::empty()
    } else if has_suffix(units[k - 1].file_name) {
        all_reports(units, k - 1) + diagnostics(
            stem(units[k - 1].file_name),
            units[k - 1].lines,
            lines_before(units, k - 1),
            0,
            units[k - 1].lines.len() as int,
        )
    } else {
        all_reports(units, k - 1)
    }
}

/// The program linked from a directory's files.
pub open spec fn linked(units: Seq<SourceText>) -> Seq<Seq<char>> {
    bootstrap() + blocks(units, units.len() as int)
}

/// The source files among more files hold at least as many lines.
pub proof fn lemma_lines_before_grows(units: Seq<SourceText>, j: int, k: int)
    requires
        j <= k,
    ensures
        lines_before(units, j) <= lines_before(units, k),
    decreases k - j,
{
    if j < k {
        lemma_lines_before_grows(units, j, k - 1);
        if k <= 0 {
            assert(lines_before(units, j) == 0);
        }
    }
}

/// The views of two sequences of diagnostics, one after the other.
pub proof fn lemma_reports_concat(a: Seq<Diagnostic>, b: Seq<Diagnostic>)
    ensures
        reports(a + b) == reports(a) + reports(b),
{
    assert(reports(a + b) =~= reports(a) + reports(b));
}

/// Links the files of a directory: the start-up lines, then the block of
/// each source file in the order given. Files without the suffix are passed
/// over.
pub fn link_directory(units: &Vec<SourceUnit>) -> (r: (Vec<String>, Vec<Diagnostic>))
    requires
        lines_before(sources(units@), units.len() as int) <= usize::MAX,
    ensures
        texts(r.0@) == linked(sources(units@)),
        reports(r.1@) == all_reports(sources(units@), units.len() as int),
{
    let mut output: Vec<String> = gen_init_code();
    let mut errors: Vec<Diagnostic> = Vec::new();
    let n: usize = units.len();
    let mut first: usize = 0;
    let mut k: usize = 0;
    let ghost all = sources(units@);
    assert(texts(output@) =~= bootstrap() + blocks(all, 0));
    assert(reports(errors@) =~= all_reports(all, 0));
    while k < n
        invariant
            n == units.len(),
            k <= n,
            all == sources(units@),
            lines_before(all, n as int) <= usize::MAX,
            first == lines_before(all, k as int),
            texts(output@) == bootstrap() + blocks(all, k as int),
            reports(errors@) == all_reports(all, k as int),
        decreases n - k,
    {
        let unit: &SourceUnit = &units[k];
        assert(all[k as int] == unit@);
        proof {
            lemma_lines_before_grows(all, k + 1, n as int);
        }
        match unit_name(unit.file_name.as_str()) {
            Some(name) => {
                let ghost output0 = output@;
                let ghost errors0 = errors@;
                let (code, found) = compile_file(&name, &unit.lines, first);
                let mut code = code;
                let mut found = found;
                let ghost code0 = code@;
                let ghost found0 = found@;
                let mut heading: String = String::from_str("// ");
                heading.append(unit.file_name.as_str());
                heading.append("\n");
                output.push(heading);
                output.append(&mut code);
                errors.append(&mut found);
                first = first + unit.lines.len();
                proof {
                    assert(output@ =~= output0 + seq![heading] + code0);
                    lemma_texts_concat(output0 + seq![heading], code0);
                    lemma_texts_concat(output0, seq![heading]);
                    assert(texts(seq![heading]) =~= seq![echo(unit@.file_name)]);
                    lemma_reports_concat(errors0, found0);
                    assert(texts(output@) =~= bootstrap() + blocks(all, k + 1));
                }
            },
            None => {},
        }
        k = k + 1;
    }
    (output, errors)
}

/// Links one source file: the start-up lines, then the output of the
/// file's lines. `None` for a file without the suffix.
pub fn link_file(unit: &SourceUnit) -> (r: Option<(Vec<String>, Vec<Diagnostic>)>)
    ensures
        !has_suffix(unit@.file_name) ==> r is None,
        has_suffix(unit@.file_name) ==> r is Some && texts(r->Some_0.0@) == bootstrap() + outputs(
            stem(unit@.file_name),
            unit@.lines,
            0,
            0,
            unit@.lines.len() as int,
        ) && reports(r->Some_0.1@) == diagnostics(
            stem(unit@.file_name),
            unit@.lines,
            0,
            0,
            unit@.lines.len() as int,
        ),
{
    match unit_name(unit.file_name.as_str()) {
        Some(name) => {
            let mut output: Vec<String> = gen_init_code();
            let ghost output0 = output@;
            let (code, found) = compile_file(&name, &unit.lines, 0);
            let mut code = code;
            let ghost code0 = code@;
            output.append(&mut code);
            proof {
                lemma_texts_concat(output0, code0);
            }
            Some((output, found))
        },
        None => None,
    }
}

/// The files after the first `k` only add to the output of the first `k`:
/// the block of a file stands behind the blocks of the files before it.
pub proof fn lemma_blocks_extend(units: Seq<SourceText>, j: int, k: int)
    requires
        0 <= j <= k,
    ensures
        blocks(units, j).len() <= blocks(units, k).len(),
        blocks(units, k).subrange(0, blocks(units, j).len() as int) == blocks(units, j),
    decreases k - j,
{
    if j < k {
        lemma_blocks_extend(units, j, k - 1);
        assert(blocks(units, k).subrange(0, blocks(units, j).len() as int) =~= blocks(
            units,
            k - 1,
        ).subrange(0, blocks(units, j).len() as int));
    } else {
        assert(blocks(units, k).subrange(0, blocks(units, j).len() as int) =~= blocks(units, j));
    }
}

/// However many files are linked, the program opens with the start-up
/// lines, and what follows them is the files' blocks and nothing else.
pub proof fn lemma_linked_shape(units: Seq<SourceText>)
    ensures
        linked(units).len() == bootstrap().len() + blocks(units, units.len() as int).len(),
        linked(units).subrange(0, bootstrap().len() as int) == bootstrap(),
        linked(units).subrange(bootstrap().len() as int, linked(units).len() as int) == blocks(
            units,
            units.len() as int,
        ),
{
    assert(linked(units).subrange(0, bootstrap().len() as int) =~= bootstrap());
    assert(linked(units).subrange(bootstrap().len() as int, linked(units).len() as int)
        =~= blocks(units, units.len() as int));
}

/// The first of the start-up lines.
pub open spec fn heading() -> Seq<char> {
    "// Initialisation code\n"@
}

/// The echo of a text is the heading of the start-up lines only for a text
/// that opens with a capital letter and does not end like the name of a
/// source file.
pub proof fn lemma_echo_heading(source: Seq<char>)
    requires
        echo(source) == heading(),
    ensures
        source.len() > 0,
        source[0] == 'I',
        !has_suffix(source),
{
    reveal_strlit("// Initialisation code\n");
    reveal_strlit("// ");
    reveal_strlit("\n");
    let e = echo(source);
    assert(e.len() == 3 + source.len() + 1);
    assert(source.len() == 19);
    assert(e[3] == source[0]);
    assert(e[21] == source[18]);
}

/// The heading of the start-up lines stands nowhere in the blocks of the
/// files.
pub proof fn lemma_blocks_without_heading(units: Seq<SourceText>, n: int, k: int)
    requires
        0 <= k < blocks(units, n).len(),
    ensures
        blocks(units, n)[k] != heading(),
    decreases n,
{
    reveal_strlit("// Initialisation code\n");
    reveal_strlit("\n");
    if n > 0 {
        let before = blocks(units, n - 1);
        if has_suffix(units[n - 1].file_name) {
            let name = units[n - 1].file_name;
            let body = outputs(
                stem(name),
                units[n - 1].lines,
                lines_before(units, n - 1),
                0,
                units[n - 1].lines.len() as int,
            );
            assert(blocks(units, n) == before + seq![echo(name)] + body);
            if k < before.len() {
                lemma_blocks_without_heading(units, n - 1, k);
            } else if k == before.len() {
                if echo(name) == heading() {
                    lemma_echo_heading(name);
                }
            } else {
                let j = k - before.len() - 1;
                assert(blocks(units, n)[k] == body[j]);
                lemma_outputs_shape(
                    stem(name),
                    units[n - 1].lines,
                    lines_before(units, n - 1),
                    0,
                    units[n - 1].lines.len() as int,
                    j,
                );
                if body[j] == heading() {
                    let source = choose|source: Seq<char>|
                        body[j] == #[trigger] echo(source) && source.len() > 0 && 97
                            <= source[0] as u32 <= 122;
                    lemma_echo_heading(source);
                }
            }
        } else {
            lemma_blocks_without_heading(units, n - 1, k);
        }
    }
}

/// However many files are linked, the heading of the start-up lines stands
/// first in the program and nowhere else in it: the start-up lines stand
/// once.
pub proof fn lemma_heading_once(units: Seq<SourceText>, k: int)
    requires
        0 <= k < linked(units).len(),
    ensures
        linked(units)[k] == heading() <==> k == 0,
{
    reveal_strlit("// Initialisation code\n");
    reveal_strlit("\n");
    let code = render_all(init_code());
    let start = bootstrap();
    assert(start == seq![heading()] + code + seq!["\n"@]);
    if k == 0 {
        assert(linked(units)[0] == start[0]);
    } else if k <= code.len() {
        assert(linked(units)[k] == code[k - 1]);
        lemma_render_first(init_code()[k - 1]);
    } else if k < start.len() {
        assert(linked(units)[k] == "\n"@);
    } else {
        assert(linked(units)[k] == blocks(units, units.len() as int)[k - start.len()]);
        lemma_blocks_without_heading(units, units.len() as int, k - start.len());
    }
}

/// No two lines of a linked program have the same ordinal, be they lines
/// of one source file or of two.
pub proof fn lemma_ordinals_differ(units: Seq<SourceText>, j: int, a: int, k: int, b: int)
    requires
        0 <= j <= k < units.len(),
        has_suffix(units[j].file_name),
        has_suffix(units[k].file_name),
        0 <= a < units[j].lines.len(),
        0 <= b < units[k].lines.len(),
        j != k || a != b,
    ensures
        lines_before(units, j) + a != lines_before(units, k) + b,
{
    if j < k {
        lemma_lines_before_grows(units, j + 1, k);
        assert(lines_before(units, j + 1) == lines_before(units, j) + units[j].lines.len());
    }
}

/// What the four instructions that store a number in a named cell do.
pub proof fn lemma_run_init_cell(m: Machine, value: nat, c: Cell, symbols: Map<Seq<char>, int>)
    ensures
        run(m, init_cell(value, c), symbols) == (Machine {
            a: cell_address(c),
            d: wrap(value as int),
            ram: store(m.ram, cell_address(c), wrap(value as int)),
        }),
{
    reveal_with_fuel(run_upto, 5);
    let code = init_cell(value, c);
    let m2 = run_upto(m, code, symbols, 2);
    assert(m2 == Machine { a: wrap(value as int), d: wrap(value as int), ram: m.ram });
    assert(wrap(wrap(value as int)) == wrap(value as int));
}

/// What the start-up code does from the first instruction of a program to
/// its jump: the stack starts at 256, the frame of the call lies in its
/// first five cells, `ARG` and `LCL` point below and above that frame,
/// `THIS` and `THAT` hold their first addresses, and the program goes on
/// at `Sys.init`.
pub proof fn lemma_start_up(program: Seq<Instr>, symbols: Map<Seq<char>, int>, r: Running)
    requires
        placed(program, symbols),
        holds_at(program, 0, init_code()),
        r.pc == 0,
        forall|x: int| word(#[trigger] (r.m.ram)(x)),
    ensures
        ({
            let end = after(program, symbols, r, 69);
            &&& end.pc == symbols["Sys.init"@]
            &&& (end.m.ram)(0) == SP + 5
            &&& (end.m.ram)(1) == SP + 5
            &&& (end.m.ram)(2) == SP
            &&& (end.m.ram)(3) == THIS
            &&& (end.m.ram)(4) == THAT
            &&& (end.m.ram)(SP as int) == 69
            &&& (end.m.ram)(SP + 1) == LCL
            &&& (end.m.ram)(SP + 2) == ARG
            &&& (end.m.ram)(SP + 3) == THIS
            &&& (end.m.ram)(SP + 4) == THAT
        }),
{
    let name = "Sys.init"@;
    let code = init_code();
    let call = call_to(start_label(), name, 0);
    let c1 = init_cell(SP as nat, Cell::Sp);
    let c2 = c1 + init_cell(LCL as nat, Cell::Lcl);
    let c3 = c2 + init_cell(ARG as nat, Cell::Arg);
    let c4 = c3 + init_cell(THIS as nat, Cell::This);
    let c5 = c4 + init_cell(THAT as nat, Cell::That);
    assert(code == c5 + call);
    assert(c5.len() == 20 && call.len() == 50);
    // the five cells
    lemma_holds_part(program, 0, code, 0, 20);
    assert(code.subrange(0, 20) =~= c5);
    assert(jump_free(c5));
    lemma_after_stretch(program, symbols, r, c5);
    lemma_run_concat(r.m, c4, init_cell(THAT as nat, Cell::That), symbols);
    lemma_run_concat(r.m, c3, init_cell(THIS as nat, Cell::This), symbols);
    lemma_run_concat(r.m, c2, init_cell(ARG as nat, Cell::Arg), symbols);
    lemma_run_concat(r.m, c1, init_cell(LCL as nat, Cell::Lcl), symbols);
    let m1 = run(r.m, c1, symbols);
    lemma_run_init_cell(r.m, SP as nat, Cell::Sp, symbols);
    lemma_store_words(r.m.ram, 0, 256);
    let m2 = run(m1, init_cell(LCL as nat, Cell::Lcl), symbols);
    lemma_run_init_cell(m1, LCL as nat, Cell::Lcl, symbols);
    lemma_store_words(m1.ram, 1, 512);
    let m3 = run(m2, init_cell(ARG as nat, Cell::Arg), symbols);
    lemma_run_init_cell(m2, ARG as nat, Cell::Arg, symbols);
    lemma_store_words(m2.ram, 2, 768);
    let m4 = run(m3, init_cell(THIS as nat, Cell::This), symbols);
    lemma_run_init_cell(m3, THIS as nat, Cell::This, symbols);
    lemma_store_words(m3.ram, 3, 1024);
    let m5 = run(m4, init_cell(THAT as nat, Cell::That), symbols);
    lemma_run_init_cell(m4, THAT as nat, Cell::That, symbols);
    lemma_store_words(m4.ram, 4, 1280);
    let r1 = after(program, symbols, r, 20);
    assert(r1.m == m5 && r1.pc == 20);
    assert((m5.ram)(0) == 256 && (m5.ram)(1) == 512 && (m5.ram)(2) == 768 && (m5.ram)(3) == 1024
        && (m5.ram)(4) == 1280);
    // the call
    lemma_holds_part(program, 0, code, 20, 70);
    assert(code.subrange(20, 70) =~= call);
    lemma_holds_index(program, 20, call, 48);
    lemma_holds_index(program, 20, call, 49);
    lemma_label_address(program, symbols, 69, start_label());
    lemma_holds_part(program, 20, call, 0, 48);
    lemma_run_call(m5, start_label(), name, 0, symbols);
    lemma_after_stretch(program, symbols, r1, call.subrange(0, 48));
    lemma_after_sum(program, symbols, r, 20, 48);
    let r2 = after(program, symbols, r, 68);
    lemma_after_sum(program, symbols, r, 68, 1);
    assert(after(program, symbols, r, 69) == advance(program, symbols, r2)) by {
        reveal_with_fuel(after, 2);
    }
}

/// The line that defines the label to which the start-up call returns.
pub open spec fn start_definition() -> Seq<char> {
    render(Instr::Label(start_label()))
}

/// No command defines the label to which the start-up call returns.
pub proof fn lemma_start_label_free()
    ensures
        free_label(start_label()),
{
    reveal_strlit("StartReturnAddress");
    let s = start_label();
    assert(s.len() == 18);
    assert forall|i: int| 0 <= i < s.len() implies s[i] != '.' by {}
}

/// No line in the blocks of the files defines a free label.
pub proof fn lemma_blocks_labels(units: Seq<SourceText>, n: int, k: int, name: Seq<char>)
    requires
        0 <= k < blocks(units, n).len(),
        free_label(name),
    ensures
        blocks(units, n)[k] != render(Instr::Label(name)),
    decreases n,
{
    if n > 0 {
        let before = blocks(units, n - 1);
        if has_suffix(units[n - 1].file_name) {
            let file = units[n - 1].file_name;
            let body = outputs(
                stem(file),
                units[n - 1].lines,
                lines_before(units, n - 1),
                0,
                units[n - 1].lines.len() as int,
            );
            assert(blocks(units, n) == before + seq![echo(file)] + body);
            if k < before.len() {
                lemma_blocks_labels(units, n - 1, k, name);
            } else if k == before.len() {
                reveal_strlit("// ");
                lemma_render_first(Instr::Label(name));
                assert(echo(file)[0] == '/');
            } else {
                let j = k - before.len() - 1;
                assert(blocks(units, n)[k] == body[j]);
                lemma_outputs_labels(
                    stem(file),
                    units[n - 1].lines,
                    lines_before(units, n - 1),
                    0,
                    units[n - 1].lines.len() as int,
                    j,
                    name,
                );
            }
        } else {
            lemma_blocks_labels(units, n - 1, k, name);
        }
    }
}

/// The label to which the start-up call returns is defined once in a
/// linked program, by the last line of the start-up code, whatever the
/// files hold: no line of theirs defines it.
pub proof fn lemma_start_label_once(units: Seq<SourceText>, k: int)
    requires
        0 <= k < linked(units).len(),
    ensures
        linked(units)[k] == start_definition() <==> k == 70,
{
    reveal_strlit("// Initialisation code\n");
    reveal_strlit("\n");
    reveal_strlit("(");
    reveal_strlit(")\n");
    let init = init_code();
    let code = render_all(init);
    let start = bootstrap();
    assert(init.len() == 70);
    assert(start == seq![heading()] + code + seq!["\n"@]);
    lemma_render_first(Instr::Label(start_label()));
    lemma_start_label_free();
    if k == 0 {
        assert(linked(units)[0] == heading());
    } else if k <= 70 {
        assert(linked(units)[k] == render(init[k - 1]));
        if k == 70 {
            assert(init[69] == Instr::Label(start_label()));
        } else {
            assert(!(init[k - 1] is Label));
            if linked(units)[k] == start_definition() {
                lemma_render_label(init[k - 1], start_label());
            }
        }
    } else if k < start.len() {
        assert(linked(units)[k] == "\n"@);
        assert(start_definition().len() >= 3);
    } else {
        assert(linked(units)[k] == blocks(units, units.len() as int)[k - start.len()]);
        lemma_blocks_labels(units, units.len() as int, k - start.len(), start_label());
    }
}

} // verus!
