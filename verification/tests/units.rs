use vmcomp::codegen::{compile_call, compile_eq, compile_push};
use vmcomp::driver::{compile_file, compile_fragments, compile_line, Diagnostic};
use vmcomp::linker::{gen_init_code, link_directory, link_file, unit_name, SourceUnit};
use vmcomp::text::{blank, parse_number, starts_with_comment, strip_comment, to_chars, trim};

fn text(lines: &[&str]) -> Vec<String> {
    lines.iter().map(|l| l.to_string()).collect()
}

fn unit() -> String {
    String::from("Foo")
}

fn block(source: &str, code: Vec<String>) -> Vec<String> {
    let mut all = vec![format!("// {}\n", source)];
    all.extend(code);
    all.push(String::from("\n"));
    all
}

#[test]
fn blanks_are_the_white_space_characters() {
    for code in 0..=0x10FFFFu32 {
        if let Some(c) = char::from_u32(code) {
            assert_eq!(blank(c), c.is_whitespace(), "U+{:04X}", code);
        }
    }
}

#[test]
fn trim_removes_blanks_at_both_ends() {
    for s in [
        "",
        " ",
        "add",
        "  add",
        "add  ",
        " \t push constant 1 \r\n",
        "\u{3000}a b\u{a0}",
        "   ",
        "a",
        " a",
        "a ",
        "\u{feff}x ",
    ] {
        assert_eq!(trim(s), s.trim());
    }
}

#[test]
fn characters_in_order() {
    assert_eq!(to_chars("a\u{e9}b"), vec!['a', '\u{e9}', 'b']);
    assert_eq!(to_chars(""), Vec::<char>::new());
}

#[test]
fn comments_are_cut() {
    assert_eq!(strip_comment("push constant 1 // one"), "push constant 1 ");
    assert_eq!(strip_comment("add//x"), "add");
    assert_eq!(strip_comment("// all"), "");
    assert_eq!(strip_comment("a / b"), "a / b");
    assert_eq!(strip_comment("a /"), "a /");
    assert_eq!(strip_comment(""), "");
    assert_eq!(strip_comment("a // b // c"), "a ");
    assert!(starts_with_comment("// x"));
    assert!(starts_with_comment("//"));
    assert!(!starts_with_comment("/ /"));
    assert!(!starts_with_comment("/"));
    assert!(!starts_with_comment(""));
    assert!(!starts_with_comment(" //"));
}

#[test]
fn numbers_are_read_as_std_reads_them() {
    for s in [
        "0", "7", "007", "255", "256", "+5", "+", "", "-1", "-0", "1a", "a1", " 1", "1 ", "99999",
        "4294967295", "4294967296", "18446744073709551616", "2147483647", "2147483648", "++1",
        "1+", "١",
    ] {
        assert_eq!(parse_number(s, 255), s.parse::<u8>().ok().map(u32::from), "{:?}", s);
        assert_eq!(parse_number(s, u32::MAX), s.parse::<u32>().ok(), "{:?}", s);
        assert_eq!(
            parse_number(s, 2147483647),
            s.parse::<u32>().ok().filter(|v| *v <= 2147483647),
            "{:?}",
            s
        );
    }
    assert_eq!(parse_number("12", 11), None);
    assert_eq!(parse_number("12", 12), Some(12));
    assert_eq!(parse_number("0", 0), Some(0));
}

#[test]
fn lines_are_split_at_runs_of_blanks() {
    let expected = compile_push(&["constant", "5"], &unit());
    assert!(expected.is_ok());
    for line in [
        "push constant 5",
        "push  constant   5",
        "push\tconstant\t5",
        "  push constant 5  ",
        "push constant 5 // five",
        "push constant 5// five",
        "push \t constant \u{a0} 5\r",
    ] {
        assert_eq!(compile_line(0, &line.to_string(), &unit()), expected, "{:?}", line);
    }
}

#[test]
fn a_line_without_a_command_is_unsupported() {
    assert_eq!(
        compile_line(0, &String::new(), &unit()),
        Err(String::from("Unsupported operation: "))
    );
    assert_eq!(
        compile_line(0, &String::from("   // only a comment"), &unit()),
        Err(String::from("Unsupported operation: "))
    );
    assert_eq!(
        compile_line(3, &String::from("pushconstant 5"), &unit()),
        Err(String::from("Unsupported operation: pushconstant"))
    );
    assert_eq!(
        compile_fragments(3, &[], &unit()),
        Err(String::from("Unsupported operation: "))
    );
}

#[test]
fn the_ordinal_of_a_line_names_its_labels() {
    assert_eq!(compile_line(12, &String::from("eq"), &unit()), compile_eq(12, &[]));
    assert_eq!(
        compile_line(12, &String::from("call Main.f 2"), &unit()),
        compile_call(12, &["Main.f", "2"])
    );
    assert_eq!(compile_fragments(7, &["eq"], &unit()), compile_eq(7, &[]));
}

#[test]
fn diagnostic_text() {
    let d = Diagnostic {
        unit: String::from("Foo"),
        line: 12,
        message: String::from("Unsupported operation: mul"),
    };
    assert_eq!(d.to_text(), "Error on line 12:\nUnsupported operation: mul");
    let big = Diagnostic { unit: String::new(), line: 1234567890, message: String::new() };
    assert_eq!(big.to_text(), "Error on line 1234567890:\n");
}

#[test]
fn a_unit_is_translated_line_by_line() {
    let source = text(&[
        "// a program",
        "",
        "  push constant 1   // one",
        "\tpush\tconstant\t2",
        "   ",
        "eq",
    ]);
    let (output, errors) = compile_file(&unit(), &source, 0);
    assert!(errors.is_empty());
    let mut expected = Vec::new();
    expected.extend(block(
        "push constant 1   // one",
        compile_push(&["constant", "1"], &unit()).unwrap(),
    ));
    expected.extend(block(
        "push\tconstant\t2",
        compile_push(&["constant", "2"], &unit()).unwrap(),
    ));
    expected.extend(block("eq", compile_eq(5, &[]).unwrap()));
    assert_eq!(output, expected);
}

#[test]
fn ordinals_go_on_from_the_first() {
    let source = text(&["eq", "// nothing", "call A.b 0"]);
    let (output, errors) = compile_file(&unit(), &source, 40);
    assert!(errors.is_empty());
    let mut expected = Vec::new();
    expected.extend(block("eq", compile_eq(40, &[]).unwrap()));
    expected.extend(block("call A.b 0", compile_call(42, &["A.b", "0"]).unwrap()));
    assert_eq!(output, expected);
}

#[test]
fn an_unknown_mnemonic_gives_one_diagnostic_and_no_output() {
    let good = text(&["push constant 1", "push constant 2", "add"]);
    let bad = text(&["push constant 1", "mul 3", "push constant 2", "add"]);
    let (good_output, good_errors) = compile_file(&unit(), &good, 0);
    let (bad_output, bad_errors) = compile_file(&unit(), &bad, 0);
    assert!(good_errors.is_empty());
    assert_eq!(
        bad_errors,
        vec![Diagnostic {
            unit: unit(),
            line: 2,
            message: String::from("Unsupported operation: mul"),
        }]
    );
    assert_eq!(bad_output, good_output);
    assert!(bad_output.iter().all(|l| !l.contains("mul")));
}

#[test]
fn rejected_lines_keep_the_ordinals_of_the_others() {
    let source = text(&["eq", "pop constant 1", "eq", "push local x", "eq"]);
    let (output, errors) = compile_file(&unit(), &source, 0);
    assert_eq!(errors.len(), 2);
    assert_eq!(errors[0].line, 2);
    assert_eq!(errors[1].line, 4);
    assert_eq!(
        errors[1].message,
        "Syntax error: push takes an integer as a second argument, received x"
    );
    let mut expected = Vec::new();
    expected.extend(block("eq", compile_eq(0, &[]).unwrap()));
    expected.extend(block("eq", compile_eq(2, &[]).unwrap()));
    expected.extend(block("eq", compile_eq(4, &[]).unwrap()));
    assert_eq!(output, expected);
}

#[test]
fn an_empty_unit_gives_nothing() {
    let (output, errors) = compile_file(&unit(), &Vec::new(), 0);
    assert!(output.is_empty());
    assert!(errors.is_empty());
}

#[test]
fn start_up_lines() {
    let init = gen_init_code();
    let mut expected = text(&[
        "// Initialisation code\n",
        "@256\n",
        "D=A\n",
        "@SP\n",
        "M=D\n",
        "@512\n",
        "D=A\n",
        "@LCL\n",
        "M=D\n",
        "@768\n",
        "D=A\n",
        "@ARG\n",
        "M=D\n",
        "@1024\n",
        "D=A\n",
        "@THIS\n",
        "M=D\n",
        "@1280\n",
        "D=A\n",
        "@THAT\n",
        "M=D\n",
    ]);
    // the call of `Sys.init`, with a return label of its own
    let call: Vec<String> = compile_call(0, &["Sys.init", "0"])
        .unwrap()
        .iter()
        .map(|l| l.replace("0Sys.init.ReturnAddress", "StartReturnAddress"))
        .collect();
    assert_eq!(call[0], "@StartReturnAddress\n");
    assert_eq!(call[49], "(StartReturnAddress)\n");
    expected.extend(call);
    expected.push(String::from("\n"));
    assert_eq!(init, expected);
}

#[test]
fn no_unit_defines_the_label_of_the_start_up_call() {
    let hostile = [
        "call Sys.init 0",
        "label StartReturnAddress",
        "function Start.ReturnAddress 0",
        "call StartReturnAddress 0",
        "goto StartReturnAddress",
        "eq",
        "call Sys.init 0",
    ];
    let units = vec![
        SourceUnit { file_name: String::from("A.vm"), lines: text(&hostile) },
        SourceUnit { file_name: String::from("Start.vm"), lines: text(&hostile) },
    ];
    let (output, errors) = link_directory(&units);
    assert!(errors.is_empty());
    let definition = String::from("(StartReturnAddress)\n");
    assert_eq!(output.iter().filter(|l| **l == definition).count(), 1);
    assert_eq!(output[70], definition);
    let labels: Vec<&String> = output.iter().filter(|l| l.starts_with('(')).collect();
    assert!(labels.contains(&&String::from("(0Sys.init.ReturnAddress)\n")));
    let (single, _) =
        link_file(&SourceUnit { file_name: String::from("A.vm"), lines: text(&hostile[..1]) })
            .unwrap();
    let defined: Vec<&String> = single.iter().filter(|l| l.starts_with('(')).collect();
    assert_eq!(defined.len(), 2);
    assert_ne!(defined[0], defined[1]);
}

#[test]
fn unit_names() {
    assert_eq!(unit_name("Foo.vm"), Some(String::from("Foo")));
    assert_eq!(unit_name("a.b.vm"), Some(String::from("a.b")));
    assert_eq!(unit_name(".vm"), Some(String::new()));
    assert_eq!(unit_name("Foo.vm.bak"), None);
    assert_eq!(unit_name("Foo.VM"), None);
    assert_eq!(unit_name("vm"), None);
    assert_eq!(unit_name(""), None);
    assert_eq!(unit_name("Foo.asm"), None);
}

fn source(name: &str, lines: &[&str]) -> SourceUnit {
    SourceUnit { file_name: name.to_string(), lines: text(lines) }
}

#[test]
fn a_directory_is_linked_in_the_order_given() {
    let units = vec![
        source("Main.vm", &["push static 0", "eq"]),
        source("notes.txt", &["eq", "eq", "eq"]),
        source("Sys.vm", &["push static 0", "eq", "bogus"]),
    ];
    let (output, errors) = link_directory(&units);
    let main = String::from("Main");
    let sys = String::from("Sys");
    let mut expected = gen_init_code();
    expected.push(String::from("// Main.vm\n"));
    expected.extend(block("push static 0", compile_push(&["static", "0"], &main).unwrap()));
    expected.extend(block("eq", compile_eq(1, &[]).unwrap()));
    expected.push(String::from("// Sys.vm\n"));
    expected.extend(block("push static 0", compile_push(&["static", "0"], &sys).unwrap()));
    expected.extend(block("eq", compile_eq(3, &[]).unwrap()));
    assert_eq!(output, expected);
    assert_eq!(
        errors,
        vec![Diagnostic {
            unit: sys,
            line: 3,
            message: String::from("Unsupported operation: bogus"),
        }]
    );
    assert!(output.contains(&String::from("@Main.0\n")));
    assert!(output.contains(&String::from("@Sys.0\n")));
}

fn count_start_ups(output: &[String]) -> usize {
    let init = gen_init_code();
    (0..output.len())
        .filter(|i| output.len() - i >= init.len() && output[*i..*i + init.len()] == init[..])
        .count()
}

#[test]
fn the_start_up_lines_stand_once_whatever_the_number_of_files() {
    for n in 0..6usize {
        let units: Vec<SourceUnit> = (0..n)
            .map(|k| SourceUnit {
                file_name: format!("U{}.vm", k),
                lines: text(&["call Sys.init 0", "// Initialisation code", "eq"]),
            })
            .collect();
        let (output, errors) = link_directory(&units);
        assert!(errors.is_empty());
        assert_eq!(count_start_ups(&output), 1);
        assert_eq!(output.iter().filter(|l| *l == "// Initialisation code\n").count(), 1);
        assert_eq!(output[..gen_init_code().len()], gen_init_code()[..]);
        let (again, _) = link_directory(&units);
        assert_eq!(again, output);
        let headings: Vec<&String> =
            output.iter().filter(|l| l.starts_with("// U") && l.ends_with(".vm\n")).collect();
        let names: Vec<String> = (0..n).map(|k| format!("// U{}.vm\n", k)).collect();
        assert_eq!(headings, names.iter().collect::<Vec<&String>>());
    }
}

#[test]
fn a_single_file_needs_the_suffix() {
    assert!(link_file(&source("Foo.txt", &["add"])).is_none());
    assert!(link_file(&source("Foo", &["add"])).is_none());
    let (output, errors) = link_file(&source("Foo.vm", &["push static 1", "nope"])).unwrap();
    let mut expected = gen_init_code();
    expected.extend(block("push static 1", compile_push(&["static", "1"], &unit()).unwrap()));
    assert_eq!(output, expected);
    assert_eq!(errors.len(), 1);
    assert_eq!(errors[0].unit, "Foo");
    assert_eq!(errors[0].line, 2);
}
