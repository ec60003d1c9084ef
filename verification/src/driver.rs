//! Translation of one unit: from its source lines to assembly lines and
//! diagnostics.

use crate::assembly::{comp_text, dest_text, render, render_all, Instr};
use crate::codegen::{
    code_of, defines, free_label, generate, lemma_defined_labels, translation, yields,
};
use crate::command::{lemma_read_is_valid, parse_command, read_command, unsupported_message};
use crate::text::{
    comment_start, decimal, is_blank, is_comment, lemma_comment_start_bounds, lemma_first_piece,
    lemma_trim_end_keeps_first, push_decimal, slices, split_blank, starts_with_comment,
    strip_comment, texts, trim, trim_end, trim_start, trimmed, without_comment,
};
use vstd::prelude::*;

verus! {

/// A line that was rejected: the unit, the line's number counted from one,
/// and the reason.
#[derive(Debug, PartialEq, Eq)]
pub struct Diagnostic {
    pub unit: String,
    pub line: usize,
    pub message: String,
}

/// What a `Diagnostic` stands for.
pub struct Report {
    pub unit: Seq<char>,
    pub line: nat,
    pub message: Seq<char>,
}

impl View for Diagnostic {
    type V = Report;

    open spec fn view(&self) -> Report {
        Report { unit: self.unit@, line: self.line as nat, message: self.message@ }
    }
}

/// The view of every diagnostic in a sequence.
pub open spec fn reports(v: Seq<Diagnostic>) -> Seq<Report> {
    Seq::new(v.len(), |i: int| v[i]@)
}

/// The text that announces a rejected line.
pub open spec fn report_text(r: Report) -> Seq<char> {
    "Error on line "@ + decimal(r.line) + ":\n"@ + r.message
}

impl Diagnostic {
    /// The text that announces the rejected line.
    pub fn to_text(&self) -> (s: String)
        ensures
            s@ == report_text(self@),
    {
        let mut s: String = String::from_str("Error on line ");
        push_decimal(&mut s, self.line as u64);
        s.append(":\n");
        s.append(self.message.as_str());
        s
    }
}

/// The fragments of a line: what stands before its first comment, without
/// the blanks around it, split at runs of blanks.
pub open spec fn line_fragments(line: Seq<char>) -> Seq<Seq<char>> {
    split_blank(trimmed(without_comment(line)))
}

/// Compiles `pattern` with `regex::Regex::new` and splits `text` with
/// `regex::Regex::split`. Believed, not proved: for the one pattern
/// admitted, `\s+`, which matches a maximal run of characters with the
/// Unicode property White_Space, the parts are the stretches of `text`
/// between the runs, in order, and a run at the start or at the end of
/// `text` leaves an empty part beside it.
#[verifier::external_body]
fn split_runs<'a>(pattern: &str, text: &'a str) -> (parts: Vec<&'a str>)
    requires
        pattern@ == "\\s+"@,
    ensures
        slices(parts@) == split_blank(text@),
{
    regex::Regex::new(pattern).unwrap().split(text).collect()
}

/// Translates the fragments of a line that stands at ordinal `index` of
/// the unit `unit`.
pub fn compile_fragments(index: usize, fragments: &[&str], unit: &String) -> (r: Result<
    Vec<String>,
    String,
>)
    ensures
        yields(r, translation(read_command(slices(fragments@)), index as nat, unit@)),
{
    match parse_command(fragments) {
        Ok(command) => Ok(generate(&command, index, unit.as_str())),
        Err(message) => Err(message),
    }
}

/// Translates one line that stands at ordinal `index` of the unit `unit`.
pub fn compile_line(index: usize, line: &String, unit: &String) -> (r: Result<Vec<String>, String>)
    ensures
        yields(r, translation(read_command(line_fragments(line@)), index as nat, unit@)),
{
    let code: &str = trim(strip_comment(line.as_str()));
    let fragments: Vec<&str> = split_runs("\\s+", code);
    compile_fragments(index, fragments.as_slice(), unit)
}

/// Whether a source line holds a command: something but blanks and a
/// comment.
pub open spec fn is_code_line(raw: Seq<char>) -> bool {
    trimmed(raw).len() > 0 && !is_comment(trimmed(raw))
}

/// What a source line is translated to.
pub open spec fn line_translation(unit: Seq<char>, raw: Seq<char>, ordinal: nat) -> Result<
    Seq<Seq<char>>,
    Seq<char>,
> {
    translation(read_command(line_fragments(trimmed(raw))), ordinal, unit)
}

/// The comment line that repeats a source line.
pub open spec fn echo(source: Seq<char>) -> Seq<char> {
    "// "@ + source + "\n"@
}

/// The output lines that a source line contributes: for a command that
/// translates, its echo, its code and an empty line; else none.
pub open spec fn line_output(unit: Seq<char>, raw: Seq<char>, ordinal: nat) -> Seq<Seq<char>> {
    if !is_code_line(raw) {
        Seq::empty()
    } else {
        match line_translation(unit, raw, ordinal) {
            Ok(code) => seq![echo(trimmed(raw))] + code + seq!["\n"@],
            Err(_) => Seq::empty(),
        }
    }
}

/// The diagnostics that the source line with the given number contributes:
/// one for a command that does not translate; else none.
pub open spec fn line_reports(unit: Seq<char>, raw: Seq<char>, number: nat, ordinal: nat) -> Seq<
    Report,
> {
    if !is_code_line(raw) {
        Seq::empty()
    } else {
        match line_translation(unit, raw, ordinal) {
            Ok(_) => Seq::empty(),
            Err(message) => seq![Report { unit, line: number, message }],
        }
    }
}

/// The output of the source lines from index `lo` up to `hi`, where the
/// line at index `i` has the ordinal `first + i`.
pub open spec fn outputs(unit: Seq<char>, lines: Seq<Seq<char>>, first: nat, lo: int, hi: int) -> Seq<
    Seq<char>,
>
    decreases hi - lo,
{
    if hi <= lo || hi <= 0 {
        Seq::empty()
    } else {
        outputs(unit, lines, first, lo, hi - 1) + line_output(
            unit,
            lines[hi - 1],
            (first + hi - 1) as nat,
        )
    }
}

/// The diagnostics of the source lines from index `lo` up to `hi`, where
/// the line at index `i` has the number `i + 1` and the ordinal
/// `first + i`.
pub open spec fn diagnostics(
    unit: Seq<char>,
    lines: Seq<Seq<char>>,
    first: nat,
    lo: int,
    hi: int,
) -> Seq<Report>
    decreases hi - lo,
{
    if hi <= lo || hi <= 0 {
        Seq::empty()
    } else {
        diagnostics(unit, lines, first, lo, hi - 1) + line_reports(
            unit,
            lines[hi - 1],
            hi as nat,
            (first + hi - 1) as nat,
        )
    }
}

/// The views of two sequences of strings, one after the other.
pub proof fn lemma_texts_concat(a: Seq<String>, b: Seq<String>)
    ensures
        texts(a + b) == texts(a) + texts(b),
{
    assert(texts(a + b) =~= texts(a) + texts(b));
}

/// Translates the lines of the unit `unit`, of which the first has the
/// ordinal `first`. Gives the output lines and the diagnostics.
pub fn compile_file(unit: &String, lines: &Vec<String>, first: usize) -> (r: (
    Vec<String>,
    Vec<Diagnostic>,
))
    requires
        first + lines.len() <= usize::MAX,
    ensures
        texts(r.0@) == outputs(unit@, texts(lines@), first as nat, 0, lines.len() as int),
        reports(r.1@) == diagnostics(unit@, texts(lines@), first as nat, 0, lines.len() as int),
{
    let mut output: Vec<String> = Vec::new();
    let mut errors: Vec<Diagnostic> = Vec::new();
    let n: usize = lines.len();
    let mut i: usize = 0;
    assert(texts(output@) =~= Seq::<Seq<char>>::empty());
    assert(reports(errors@) =~= Seq::<Report>::empty());
    while i < n
        invariant
            n == lines.len(),
            i <= n,
            first + n <= usize::MAX,
            texts(output@) == outputs(unit@, texts(lines@), first as nat, 0, i as int),
            reports(errors@) == diagnostics(unit@, texts(lines@), first as nat, 0, i as int),
        decreases n - i,
    {
        let ghost raw = lines[i as int]@;
        assert(texts(lines@)[i as int] == raw);
        let ghost output0 = output@;
        let ghost errors0 = errors@;
        let source: &str = trim(lines[i].as_str());
        if source.unicode_len() != 0 && !starts_with_comment(source) {
            let line: String = String::from_str(source);
            match compile_line(first + i, &line, unit) {
                Ok(code) => {
                    let mut code = code;
                    let ghost code0 = code@;
                    let mut heading: String = String::from_str("// ");
                    heading.append(source);
                    heading.append("\n");
                    let blank: String = String::from_str("\n");
                    output.push(heading);
                    output.append(&mut code);
                    output.push(blank);
                    proof {
                        assert(output@ =~= output0 + seq![heading] + code0 + seq![blank]);
                        assert(texts(output@) =~= texts(output0) + (seq![echo(trimmed(raw))]
                            + texts(code0) + seq!["\n"@]));
                    }
                },
                Err(message) => {
                    errors.push(Diagnostic { unit: unit.clone(), line: i + 1, message });
                    proof {
                        assert(reports(errors@) =~= reports(errors0) + line_reports(
                            unit@,
                            raw,
                            (i + 1) as nat,
                            (first + i) as nat,
                        ));
                    }
                },
            }
        }
        proof {
            assert(texts(output@) =~= texts(output0) + line_output(
                unit@,
                raw,
                (first + i) as nat,
            ));
            assert(reports(errors@) =~= reports(errors0) + line_reports(
                unit@,
                raw,
                (i + 1) as nat,
                (first + i) as nat,
            ));
        }
        i = i + 1;
    }
    (output, errors)
}

/// Whether a word is the mnemonic of a command.
pub open spec fn is_mnemonic(word: Seq<char>) -> bool {
    ||| word == "push"@
    ||| word == "pop"@
    ||| word == "add"@
    ||| word == "sub"@
    ||| word == "neg"@
    ||| word == "eq"@
    ||| word == "gt"@
    ||| word == "lt"@
    ||| word == "and"@
    ||| word == "or"@
    ||| word == "not"@
    ||| word == "label"@
    ||| word == "goto"@
    ||| word == "if-goto"@
    ||| word == "function"@
    ||| word == "call"@
    ||| word == "return"@
}

/// Whether a source line holds a command whose first word is no mnemonic.
pub open spec fn has_unknown_mnemonic(raw: Seq<char>) -> bool {
    let fragments = line_fragments(trimmed(raw));
    is_code_line(raw) && (fragments.len() == 0 || !is_mnemonic(fragments[0]))
}

/// The message that a line with an unknown mnemonic is rejected with.
pub open spec fn unknown_mnemonic_message(raw: Seq<char>) -> Seq<char> {
    let fragments = line_fragments(trimmed(raw));
    unsupported_message(
        if fragments.len() == 0 {
            Seq::empty()
        } else {
            fragments[0]
        },
    )
}

/// A range of lines gives the output and the diagnostics of its two parts,
/// in order.
pub proof fn lemma_split_range(
    unit: Seq<char>,
    lines: Seq<Seq<char>>,
    first: nat,
    lo: int,
    mid: int,
    hi: int,
)
    requires
        0 <= lo <= mid <= hi,
    ensures
        outputs(unit, lines, first, lo, hi) == outputs(unit, lines, first, lo, mid) + outputs(
            unit,
            lines,
            first,
            mid,
            hi,
        ),
        diagnostics(unit, lines, first, lo, hi) == diagnostics(unit, lines, first, lo, mid)
            + diagnostics(unit, lines, first, mid, hi),
    decreases hi - mid,
{
    if mid < hi {
        lemma_split_range(unit, lines, first, lo, mid, hi - 1);
    }
    assert(outputs(unit, lines, first, lo, hi) =~= outputs(unit, lines, first, lo, mid) + outputs(
        unit,
        lines,
        first,
        mid,
        hi,
    ));
    assert(diagnostics(unit, lines, first, lo, hi) =~= diagnostics(unit, lines, first, lo, mid)
        + diagnostics(unit, lines, first, mid, hi));
}

/// Every diagnostic of a range of lines names the unit and cites a line of
/// the range.
pub proof fn lemma_reports_cite_range(
    unit: Seq<char>,
    lines: Seq<Seq<char>>,
    first: nat,
    lo: int,
    hi: int,
)
    requires
        0 <= lo,
    ensures
        forall|k: int|
            0 <= k < diagnostics(unit, lines, first, lo, hi).len() ==> {
                let d = #[trigger] diagnostics(unit, lines, first, lo, hi)[k];
                d.unit == unit && lo < d.line <= hi
            },
    decreases hi - lo,
{
    let all = diagnostics(unit, lines, first, lo, hi);
    if lo < hi {
        lemma_reports_cite_range(unit, lines, first, lo, hi - 1);
        let before = diagnostics(unit, lines, first, lo, hi - 1);
        let last = line_reports(unit, lines[hi - 1], hi as nat, (first + hi - 1) as nat);
        assert(all == before + last);
        assert forall|k: int| 0 <= k < all.len() implies ({
            let d = #[trigger] all[k];
            d.unit == unit && lo < d.line <= hi
        }) by {
            if k < before.len() {
                assert(all[k] == before[k]);
            } else {
                assert(all[k] == last[k - before.len()]);
            }
        }
    } else {
        assert(all.len() == 0);
    }
}

/// A line with an unknown mnemonic adds nothing to the output and exactly
/// one diagnostic, which cites the line's number counted from one; the
/// lines before and after it are translated as they are without it, each
/// under its own ordinal.
pub proof fn lemma_unknown_mnemonic(unit: Seq<char>, lines: Seq<Seq<char>>, first: nat, k: int)
    requires
        0 <= k < lines.len(),
        has_unknown_mnemonic(lines[k]),
    ensures
        outputs(unit, lines, first, 0, lines.len() as int) == outputs(unit, lines, first, 0, k)
            + outputs(unit, lines, first, k + 1, lines.len() as int),
        diagnostics(unit, lines, first, 0, lines.len() as int) == diagnostics(
            unit,
            lines,
            first,
            0,
            k,
        ) + seq![
            Report { unit, line: (k + 1) as nat, message: unknown_mnemonic_message(lines[k]) },
        ] + diagnostics(unit, lines, first, k + 1, lines.len() as int),
        forall|i: int|
            0 <= i < diagnostics(unit, lines, first, 0, k).len() ==> (
            #[trigger] diagnostics(unit, lines, first, 0, k)[i]).line != k + 1,
        forall|i: int|
            0 <= i < diagnostics(unit, lines, first, k + 1, lines.len() as int).len() ==> (
            #[trigger] diagnostics(unit, lines, first, k + 1, lines.len() as int)[i]).line != k
                + 1,
{
    let n = lines.len() as int;
    lemma_split_range(unit, lines, first, 0, k, n);
    lemma_split_range(unit, lines, first, k, k + 1, n);
    lemma_reports_cite_range(unit, lines, first, 0, k);
    lemma_reports_cite_range(unit, lines, first, k + 1, n);
    assert(outputs(unit, lines, first, k, k) =~= Seq::empty());
    assert(diagnostics(unit, lines, first, k, k) =~= Seq::empty());
    assert(outputs(unit, lines, first, k, k + 1) =~= Seq::empty());
    assert(diagnostics(unit, lines, first, k, k + 1) =~= seq![
        Report { unit, line: (k + 1) as nat, message: unknown_mnemonic_message(lines[k]) },
    ]);
    assert(outputs(unit, lines, first, 0, n) =~= outputs(unit, lines, first, 0, k) + outputs(
        unit,
        lines,
        first,
        k + 1,
        n,
    ));
}

/// The first fragment of a line that opens with something but a blank or a
/// comment opens with the line's first character.
pub proof fn lemma_first_fragment(line: Seq<char>)
    requires
        line.len() > 0,
        !is_blank(line[0]),
        !is_comment(line),
    ensures
        line_fragments(line).len() > 0,
        line_fragments(line)[0].len() > 0,
        line_fragments(line)[0][0] == line[0],
{
    lemma_comment_start_bounds(line, 1);
    let code = without_comment(line);
    assert(comment_start(line, 0) == comment_start(line, 1));
    assert(code.len() > 0 && code[0] == line[0]);
    assert(trim_start(code) == code);
    lemma_trim_end_keeps_first(code);
    lemma_first_piece(trimmed(code));
}

/// Every mnemonic opens with a small letter.
pub proof fn lemma_mnemonic_first(word: Seq<char>)
    requires
        is_mnemonic(word),
    ensures
        word.len() > 0,
        97 <= word[0] as u32 <= 122,
{
    reveal_strlit("push");
    reveal_strlit("pop");
    reveal_strlit("add");
    reveal_strlit("sub");
    reveal_strlit("neg");
    reveal_strlit("eq");
    reveal_strlit("gt");
    reveal_strlit("lt");
    reveal_strlit("and");
    reveal_strlit("or");
    reveal_strlit("not");
    reveal_strlit("label");
    reveal_strlit("goto");
    reveal_strlit("if-goto");
    reveal_strlit("function");
    reveal_strlit("call");
    reveal_strlit("return");
}

/// No line of assembly opens like a comment.
pub proof fn lemma_render_first(i: Instr)
    ensures
        render(i).len() > 0,
        render(i)[0] != '/',
        render(i)[0] == '(' <==> i is Label,
{
    reveal_strlit("@");
    reveal_strlit("(");
    reveal_strlit("");
    reveal_strlit("\n");
    reveal_strlit("A=");
    reveal_strlit("D=");
    reveal_strlit("M=");
    reveal_strlit("0");
    reveal_strlit("-1");
    reveal_strlit("A");
    reveal_strlit("D");
    reveal_strlit("M");
    reveal_strlit("!M");
    reveal_strlit("M+D");
    reveal_strlit("M-D");
    reveal_strlit("M&D");
    reveal_strlit("M|D");
    reveal_strlit("A-D");
    reveal_strlit("D-A");
    reveal_strlit("A+1");
    reveal_strlit("A-1");
    reveal_strlit("D+1");
    reveal_strlit("D-1");
    reveal_strlit("M+1");
    reveal_strlit("M-1");
    match i {
        Instr::Compute(d, c, j) => {
            assert(comp_text(c).len() > 0 && comp_text(c)[0] != '/' && comp_text(c)[0] != '(');
            let head = dest_text(d) + comp_text(c);
            assert(head.len() > 0 && head[0] != '/' && head[0] != '(');
            assert(render(i)[0] == head[0]);
        },
        _ => {},
    }
}

/// A source line adds no line to the output that opens like a comment but
/// the echo of itself, and that echo only where the line's first word is a
/// mnemonic.
pub proof fn lemma_line_output_shape(unit: Seq<char>, raw: Seq<char>, ordinal: nat, k: int)
    requires
        0 <= k < line_output(unit, raw, ordinal).len(),
    ensures
        ({
            let line = line_output(unit, raw, ordinal)[k];
            let source = trimmed(raw);
            ||| line == "\n"@
            ||| line.len() > 0 && line[0] != '/'
            ||| line == echo(source) && source.len() > 0 && 97 <= source[0] as u32 <= 122
        }),
{
    let source = trimmed(raw);
    let out = line_output(unit, raw, ordinal);
    let read = read_command(line_fragments(source));
    assert(is_code_line(raw) && read is Ok);
    let code = render_all(code_of(read->Ok_0, ordinal, unit));
    assert(out == seq![echo(source)] + code + seq!["\n"@]);
    if k == 0 {
        assert(out[k] == echo(source));
        lemma_trimmed_first(raw);
        lemma_first_fragment(source);
        let first = line_fragments(source)[0];
        assert(is_mnemonic(first));
        lemma_mnemonic_first(first);
    } else if k <= code.len() {
        assert(out[k] == code[k - 1]);
        lemma_render_first(code_of(read->Ok_0, ordinal, unit)[k - 1]);
    } else {
        assert(out[k] == "\n"@);
    }
}

/// A text without its leading and trailing blanks opens with something but
/// a blank, where anything is left of it.
pub proof fn lemma_trimmed_first(s: Seq<char>)
    requires
        trimmed(s).len() > 0,
    ensures
        !is_blank(trimmed(s)[0]),
{
    lemma_trim_start_first(s);
    let t = trim_start(s);
    if t.len() > 0 {
        lemma_trim_end_keeps_first(t);
    } else {
        assert(trim_end(t) == t);
    }
}

/// A text without its leading blanks opens with something but a blank,
/// where anything is left of it.
pub proof fn lemma_trim_start_first(s: Seq<char>)
    ensures
        trim_start(s).len() > 0 ==> !is_blank(trim_start(s)[0]),
    decreases s.len(),
{
    if s.len() > 0 && is_blank(s[0]) {
        lemma_trim_start_first(s.drop_first());
    }
}

/// Every line in the output of a range of source lines is an empty line, a
/// line that does not open like a comment, or the echo of a text that
/// opens with a small letter.
pub proof fn lemma_outputs_shape(
    unit: Seq<char>,
    lines: Seq<Seq<char>>,
    first: nat,
    lo: int,
    hi: int,
    k: int,
)
    requires
        0 <= k < outputs(unit, lines, first, lo, hi).len(),
    ensures
        ({
            let line = outputs(unit, lines, first, lo, hi)[k];
            ||| line == "\n"@
            ||| line.len() > 0 && line[0] != '/'
            ||| exists|source: Seq<char>|
                line == #[trigger] echo(source) && source.len() > 0 && 97 <= source[0] as u32
                    <= 122
        }),
    decreases hi - lo,
{
    if hi <= lo || hi <= 0 {
    } else {
        let before = outputs(unit, lines, first, lo, hi - 1);
        let last = line_output(unit, lines[hi - 1], (first + hi - 1) as nat);
        assert(outputs(unit, lines, first, lo, hi) == before + last);
        if k < before.len() {
            lemma_outputs_shape(unit, lines, first, lo, hi - 1, k);
            assert((before + last)[k] == before[k]);
        } else {
            lemma_line_output_shape(unit, lines[hi - 1], (first + hi - 1) as nat, k - before.len());
            assert((before + last)[k] == last[k - before.len()]);
            let line = last[k - before.len()];
            let source = trimmed(lines[hi - 1]);
            if line == echo(source) && source.len() > 0 && 97 <= source[0] as u32 <= 122 {
                assert(line == echo(source));
            }
        }
    }
}

/// The text of a label's definition is the text of no other instruction.
pub proof fn lemma_render_label(i: Instr, name: Seq<char>)
    requires
        render(i) == render(Instr::Label(name)),
    ensures
        i == Instr::Label(name),
{
    reveal_strlit("(");
    reveal_strlit(")\n");
    lemma_render_first(i);
    lemma_render_first(Instr::Label(name));
    match i {
        Instr::Label(other) => {
            let a = render(i);
            assert(a.len() == 1 + other.len() + 2);
            assert(a.len() == 1 + name.len() + 2);
            assert(other =~= a.subrange(1, 1 + other.len() as int));
            assert(name =~= a.subrange(1, 1 + name.len() as int));
        },
        _ => {},
    }
}

/// No line that a source line adds to the output defines a free label.
pub proof fn lemma_line_output_labels(
    unit: Seq<char>,
    raw: Seq<char>,
    ordinal: nat,
    k: int,
    name: Seq<char>,
)
    requires
        0 <= k < line_output(unit, raw, ordinal).len(),
        free_label(name),
    ensures
        line_output(unit, raw, ordinal)[k] != render(Instr::Label(name)),
{
    reveal_strlit("// ");
    reveal_strlit("\n");
    let source = trimmed(raw);
    let out = line_output(unit, raw, ordinal);
    let read = read_command(line_fragments(source));
    assert(is_code_line(raw) && read is Ok);
    let op = read->Ok_0;
    let code = code_of(op, ordinal, unit);
    let lines = render_all(code);
    let definition = render(Instr::Label(name));
    assert(out == seq![echo(source)] + lines + seq!["\n"@]);
    lemma_render_first(Instr::Label(name));
    if k == 0 {
        assert(out[k] == echo(source));
        assert(echo(source)[0] == '/');
    } else if k <= lines.len() {
        assert(out[k] == render(code[k - 1]));
        if out[k] == definition {
            lemma_render_label(code[k - 1], name);
            lemma_read_is_valid(line_fragments(source));
            assert(defines(code, name));
            lemma_defined_labels(op, ordinal, unit, name);
        }
    } else {
        assert(out[k] == "\n"@);
        assert(definition.len() >= 2) by {
            reveal_strlit("(");
            reveal_strlit(")\n");
        }
    }
}

/// No line in the output of a range of source lines defines a free label.
pub proof fn lemma_outputs_labels(
    unit: Seq<char>,
    lines: Seq<Seq<char>>,
    first: nat,
    lo: int,
    hi: int,
    k: int,
    name: Seq<char>,
)
    requires
        0 <= k < outputs(unit, lines, first, lo, hi).len(),
        free_label(name),
    ensures
        outputs(unit, lines, first, lo, hi)[k] != render(Instr::Label(name)),
    decreases hi - lo,
{
    if hi <= lo || hi <= 0 {
    } else {
        let before = outputs(unit, lines, first, lo, hi - 1);
        let last = line_output(unit, lines[hi - 1], (first + hi - 1) as nat);
        assert(outputs(unit, lines, first, lo, hi) == before + last);
        if k < before.len() {
            lemma_outputs_labels(unit, lines, first, lo, hi - 1, k, name);
        } else {
            lemma_line_output_labels(
                unit,
                lines[hi - 1],
                (first + hi - 1) as nat,
                k - before.len(),
                name,
            );
        }
    }
}

} // verus!
