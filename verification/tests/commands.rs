use vmcomp::codegen::{
    compile_add, compile_and, compile_binary_operation, compile_boolean_operation, compile_call,
    compile_eq, compile_function, compile_goto, compile_gt, compile_if_goto, compile_label,
    compile_lt, compile_neg, compile_not, compile_or, compile_pop, compile_push, compile_return,
    compile_sub, gen_push_to_sp_and_inc, generate,
};
use vmcomp::command::{
    parse_command, BinaryArithmeticOperator, BooleanOperator, Command, Segment, UnaryOperator,
};

fn unit() -> String {
    String::from("Foo")
}

fn lines(expected: &[&str]) -> Vec<String> {
    expected.iter().map(|l| format!("{}\n", l)).collect()
}

const PUSH_TAIL: [&str; 5] = ["@SP", "A=M", "M=D", "@SP", "M=M+1"];

fn with_tail(head: &[&str]) -> Vec<String> {
    let mut all: Vec<&str> = head.to_vec();
    all.extend_from_slice(&PUSH_TAIL);
    lines(&all)
}

#[test]
fn push_tail_lines() {
    assert_eq!(gen_push_to_sp_and_inc(), lines(&PUSH_TAIL));
}

#[test]
fn push_constant() {
    assert_eq!(compile_push(&["constant", "7"], &unit()), Ok(with_tail(&["@7", "D=A"])));
    assert_eq!(compile_push(&["constant", "32767"], &unit()), Ok(with_tail(&["@32767", "D=A"])));
    assert_eq!(compile_push(&["constant", "0"], &unit()), Ok(with_tail(&["@0", "D=A"])));
}

#[test]
fn push_constant_needs_a_number() {
    assert_eq!(
        compile_push(&["constant", "seven"], &unit()),
        Err(String::from(
            "Syntax error: push constant argument must be an integer, received seven"
        ))
    );
    assert_eq!(
        compile_push(&["constant", "-1"], &unit()),
        Err(String::from("Syntax error: push constant argument must be an integer, received -1"))
    );
    assert_eq!(
        compile_push(&["constant", "32768"], &unit()),
        Err(String::from(
            "Syntax error: push constant argument must be an integer, received 32768"
        ))
    );
    assert_eq!(
        compile_push(&["constant", "032767"], &unit()),
        Ok(with_tail(&["@32767", "D=A"]))
    );
}

#[test]
fn push_based_segments() {
    assert_eq!(
        compile_push(&["local", "3"], &unit()),
        Ok(with_tail(&["@3", "D=A", "@LCL", "A=M+D", "D=M"]))
    );
    assert_eq!(
        compile_push(&["argument", "0"], &unit()),
        Ok(with_tail(&["@0", "D=A", "@ARG", "A=M+D", "D=M"]))
    );
    assert_eq!(
        compile_push(&["this", "255"], &unit()),
        Ok(with_tail(&["@255", "D=A", "@THIS", "A=M+D", "D=M"]))
    );
    assert_eq!(
        compile_push(&["that", "+12"], &unit()),
        Ok(with_tail(&["@12", "D=A", "@THAT", "A=M+D", "D=M"]))
    );
}

#[test]
fn push_and_pop_take_the_same_indices() {
    for segment in ["local", "argument", "this", "that", "static"] {
        for index in ["0", "255", "256", "1000", "32767"] {
            assert!(compile_push(&[segment, index], &unit()).is_ok(), "{} {}", segment, index);
            assert!(compile_pop(&[segment, index], &unit()).is_ok(), "{} {}", segment, index);
        }
        for index in ["32768", "65536", "-1", "x", "", "+"] {
            assert!(compile_push(&[segment, index], &unit()).is_err(), "{} {}", segment, index);
            assert!(compile_pop(&[segment, index], &unit()).is_err(), "{} {}", segment, index);
        }
    }
    assert_eq!(
        compile_push(&["local", "256"], &unit()),
        Ok(with_tail(&["@256", "D=A", "@LCL", "A=M+D", "D=M"]))
    );
}

#[test]
fn push_based_index_must_be_a_number() {
    assert_eq!(
        compile_push(&["local", "32768"], &unit()),
        Err(String::from(
            "Syntax error: push takes an integer as a second argument, received 32768"
        ))
    );
    assert_eq!(
        compile_push(&["local", "x"], &unit()),
        Err(String::from("Syntax error: push takes an integer as a second argument, received x"))
    );
    assert_eq!(
        compile_push(&["local", ""], &unit()),
        Err(String::from("Syntax error: push takes an integer as a second argument, received "))
    );
    assert_eq!(
        compile_push(&["local", "+"], &unit()),
        Err(String::from("Syntax error: push takes an integer as a second argument, received +"))
    );
}

#[test]
fn push_temp() {
    assert_eq!(compile_push(&["temp", "0"], &unit()), Ok(with_tail(&["@5", "D=M"])));
    assert_eq!(compile_push(&["temp", "7"], &unit()), Ok(with_tail(&["@12", "D=M"])));
    assert_eq!(
        compile_push(&["temp", "8"], &unit()),
        Err(String::from("Syntax error: push temp argument must be between 0 and 7, received 8"))
    );
    assert_eq!(
        compile_push(&["temp", "255"], &unit()),
        Err(String::from("Syntax error: push temp argument must be between 0 and 7, received 255"))
    );
    assert_eq!(
        compile_push(&["temp", "300"], &unit()),
        Err(String::from("Syntax error: push temp argument must be between 0 and 7, received 300"))
    );
    assert_eq!(
        compile_push(&["temp", "32768"], &unit()),
        Err(String::from("Syntax error: push temp argument must be an integer, received 32768"))
    );
}

#[test]
fn push_static_is_keyed_by_unit() {
    assert_eq!(compile_push(&["static", "3"], &unit()), Ok(with_tail(&["@Foo.3", "D=M"])));
    assert_eq!(
        compile_push(&["static", "3"], &String::from("Bar")),
        Ok(with_tail(&["@Bar.3", "D=M"]))
    );
    assert_eq!(
        compile_push(&["static", "a"], &unit()),
        Err(String::from("Syntax error: push static argument must be an integer, received a"))
    );
}

#[test]
fn push_pointer() {
    assert_eq!(compile_push(&["pointer", "0"], &unit()), Ok(with_tail(&["@THIS", "D=M"])));
    assert_eq!(compile_push(&["pointer", "1"], &unit()), Ok(with_tail(&["@THAT", "D=M"])));
    assert_eq!(
        compile_push(&["pointer", "2"], &unit()),
        Err(String::from("Syntax error: pointer must be 0 or 1, received 2"))
    );
    assert_eq!(
        compile_push(&["pointer", "p"], &unit()),
        Err(String::from("Syntax error: push pointer argument must be 0 or 1, received p"))
    );
}

#[test]
fn push_rejects_other_operands() {
    assert_eq!(
        compile_push(&["heap", "0"], &unit()),
        Err(String::from(
            "Syntax error: push first argument must be {local, argument, this, that, temp, static, pointer, constant}"
        ))
    );
    assert_eq!(
        compile_push(&["constant"], &unit()),
        Err(String::from("Syntax error: push: expected 2 operands, got 1"))
    );
    assert_eq!(
        compile_push(&[], &unit()),
        Err(String::from("Syntax error: push: expected 2 operands, got 0"))
    );
    assert_eq!(
        compile_push(&["constant", "1", "2"], &unit()),
        Err(String::from("Syntax error: push: expected 2 operands, got 3"))
    );
}

#[test]
fn pop_based_segments() {
    assert_eq!(
        compile_pop(&["local", "0"], &unit()),
        Ok(lines(&["@SP", "A=M-1", "D=M", "@LCL", "A=M", "M=D", "@SP", "M=M-1"]))
    );
    assert_eq!(
        compile_pop(&["argument", "2"], &unit()),
        Ok(lines(&[
            "@SP", "A=M-1", "D=M", "@ARG", "A=M", "A=A+1", "A=A+1", "M=D", "@SP", "M=M-1"
        ]))
    );
    assert_eq!(
        compile_pop(&["this", "1"], &unit()),
        Ok(lines(&["@SP", "A=M-1", "D=M", "@THIS", "A=M", "A=A+1", "M=D", "@SP", "M=M-1"]))
    );
    assert_eq!(
        compile_pop(&["that", "1"], &unit()),
        Ok(lines(&["@SP", "A=M-1", "D=M", "@THAT", "A=M", "A=A+1", "M=D", "@SP", "M=M-1"]))
    );
    let long = compile_pop(&["local", "300"], &unit()).unwrap();
    assert_eq!(long.len(), 308);
    assert_eq!(long[5], "A=A+1\n");
    assert_eq!(long[304], "A=A+1\n");
    assert_eq!(long[305], "M=D\n");
}

#[test]
fn pop_other_segments() {
    assert_eq!(
        compile_pop(&["temp", "6"], &unit()),
        Ok(lines(&["@SP", "A=M-1", "D=M", "@11", "M=D", "@SP", "M=M-1"]))
    );
    assert_eq!(
        compile_pop(&["static", "8"], &unit()),
        Ok(lines(&["@SP", "A=M-1", "D=M", "@Foo.8", "M=D", "@SP", "M=M-1"]))
    );
    assert_eq!(
        compile_pop(&["pointer", "0"], &unit()),
        Ok(lines(&["@SP", "A=M-1", "D=M", "@THIS", "M=D", "@SP", "M=M-1"]))
    );
    assert_eq!(
        compile_pop(&["pointer", "1"], &unit()),
        Ok(lines(&["@SP", "A=M-1", "D=M", "@THAT", "M=D", "@SP", "M=M-1"]))
    );
}

#[test]
fn pop_errors() {
    assert_eq!(
        compile_pop(&["constant", "1"], &unit()),
        Err(String::from(
            "Syntax error: pop first argument must be {local, argument, this, that, temp, static, pointer}, received constant"
        ))
    );
    assert_eq!(
        compile_pop(&["nowhere", "1"], &unit()),
        Err(String::from(
            "Syntax error: pop first argument must be {local, argument, this, that, temp, static, pointer}, received nowhere"
        ))
    );
    assert_eq!(
        compile_pop(&["local", "-3"], &unit()),
        Err(String::from("Invalid syntax: pop second operand must be an integer, received -3"))
    );
    assert_eq!(
        compile_pop(&["temp", "x"], &unit()),
        Err(String::from("Syntax error: pop temp argument must be an integer, received x"))
    );
    assert_eq!(
        compile_pop(&["temp", "8"], &unit()),
        Err(String::from("Syntax error: pop temp must be between 0 and 7, received 8"))
    );
    assert_eq!(
        compile_pop(&["static", "x"], &unit()),
        Err(String::from("Syntax error: pop static argument must be an integer, received x"))
    );
    assert_eq!(
        compile_pop(&["pointer", "002"], &unit()),
        Err(String::from("Syntax error: pop pointer must be 0 or 1, received 2"))
    );
    assert_eq!(
        compile_pop(&["pointer", "x"], &unit()),
        Err(String::from("Syntax error: pop pointer argument must be an integer, received x"))
    );
    assert_eq!(
        compile_pop(&["local"], &unit()),
        Err(String::from("Syntax error: pop: expected 2 operands, got 1"))
    );
}

#[test]
fn binary_operators() {
    let expect = |op: &str| {
        lines(&["@SP", "A=M-1", "D=M", "A=A-1", op, "@SP", "M=M-1"])
    };
    assert_eq!(compile_add(&[]), Ok(expect("M=M+D")));
    assert_eq!(compile_sub(&[]), Ok(expect("M=M-D")));
    assert_eq!(compile_and(&[]), Ok(expect("M=M&D")));
    assert_eq!(compile_or(&[]), Ok(expect("M=M|D")));
    assert_eq!(compile_binary_operation(BinaryArithmeticOperator::Add), expect("M=M+D"));
    assert_eq!(compile_binary_operation(BinaryArithmeticOperator::Sub), expect("M=M-D"));
    assert_eq!(compile_binary_operation(BinaryArithmeticOperator::And), expect("M=M&D"));
    assert_eq!(compile_binary_operation(BinaryArithmeticOperator::Or), expect("M=M|D"));
}

#[test]
fn unary_operators() {
    assert_eq!(
        compile_neg(&[]),
        Ok(lines(&["@SP", "A=M-1", "D=M", "@0", "D=A-D", "@SP", "A=M-1", "M=D"]))
    );
    assert_eq!(compile_not(&[]), Ok(lines(&["@SP", "A=M-1", "M=!M"])));
}

#[test]
fn commands_without_operands_count_them() {
    assert_eq!(
        compile_add(&["1"]),
        Err(String::from("Syntax error: add: expected 0 operands, got 1"))
    );
    assert_eq!(
        compile_sub(&["1", "2"]),
        Err(String::from("Syntax error: sub: expected 0 operands, got 2"))
    );
    assert_eq!(
        compile_neg(&["1"]),
        Err(String::from("Syntax error: neg: expected 0 operands, got 1"))
    );
    assert_eq!(
        compile_eq(4, &["1"]),
        Err(String::from("Syntax error: eq: expected 0 operands, got 1"))
    );
    assert_eq!(
        compile_gt(4, &["1"]),
        Err(String::from("Syntax error: gt: expected 0 operands, got 1"))
    );
    assert_eq!(
        compile_lt(4, &["1"]),
        Err(String::from("Syntax error: lt: expected 0 operands, got 1"))
    );
    assert_eq!(
        compile_and(&["1"]),
        Err(String::from("Syntax error: and: expected 0 operands, got 1"))
    );
    assert_eq!(
        compile_or(&["1"]),
        Err(String::from("Syntax error: or: expected 0 operands, got 1"))
    );
    assert_eq!(
        compile_not(&["1"]),
        Err(String::from("Syntax error: not: expected 0 operands, got 1"))
    );
    assert_eq!(
        compile_return(&["1"]),
        Err(String::from("Syntax error: return: expected 0 operands, got 1"))
    );
}

fn comparison(jump: &str, ordinal: &str) -> Vec<String> {
    let at_true = format!("@TRUE{}", ordinal);
    let at_else = format!("@ELSE{}", ordinal);
    let def_true = format!("(TRUE{})", ordinal);
    let def_else = format!("(ELSE{})", ordinal);
    let test = format!("D;{}", jump);
    lines(&[
        "@SP", "A=M-1", "D=M", "A=A-1", "D=M-D", &at_true, &test, "D=0", &at_else, "0;JMP",
        &def_true, "D=-1", &def_else, "@SP", "A=M-1", "A=A-1", "M=D", "@SP", "M=M-1",
    ])
}

#[test]
fn comparisons() {
    assert_eq!(compile_eq(0, &[]), Ok(comparison("JEQ", "0")));
    assert_eq!(compile_gt(17, &[]), Ok(comparison("JGT", "17")));
    assert_eq!(compile_lt(1234, &[]), Ok(comparison("JLT", "1234")));
    assert_eq!(compile_boolean_operation(9, BooleanOperator::Equal), comparison("JEQ", "9"));
    assert_eq!(
        compile_boolean_operation(10, BooleanOperator::GreaterThan),
        comparison("JGT", "10")
    );
    assert_eq!(
        compile_boolean_operation(100, BooleanOperator::LesserThan),
        comparison("JLT", "100")
    );
}

fn labels_of(code: &[String]) -> Vec<String> {
    code.iter().filter(|l| l.starts_with('(')).cloned().collect()
}

#[test]
fn comparisons_on_different_lines_share_no_label() {
    for i in 0..40usize {
        for j in 0..40usize {
            if i != j {
                let a = labels_of(&compile_eq(i, &[]).unwrap());
                let b = labels_of(&compile_eq(j, &[]).unwrap());
                assert_eq!(a.len(), 2);
                assert!(a.iter().all(|l| !b.contains(l)));
            }
        }
    }
}

#[test]
fn calls_on_different_lines_share_no_label() {
    for i in [0usize, 1, 9, 10, 11, 99, 100, 101, 110, 111] {
        for j in [0usize, 1, 9, 10, 11, 99, 100, 101, 110, 111] {
            if i != j {
                let a = labels_of(&compile_call(i, &["Main.f", "2"]).unwrap());
                let b = labels_of(&compile_call(j, &["Main.f", "0"]).unwrap());
                assert_eq!(a.len(), 1);
                assert!(!b.contains(&a[0]));
            }
        }
    }
}

#[test]
fn calls_of_different_functions_share_no_label() {
    let names = ["Main.f", "Main.g", "X", "X1", "f.ReturnAddress", "a", "a1"];
    for (p, f) in names.iter().enumerate() {
        for (q, g) in names.iter().enumerate() {
            for i in [0usize, 1, 2, 10, 11, 12, 21, 100, 101] {
                for j in [0usize, 1, 2, 10, 11, 12, 21, 100, 101] {
                    if i != j {
                        let a = labels_of(&compile_call(i, &[f, "0"]).unwrap());
                        let b = labels_of(&compile_call(j, &[g, "1"]).unwrap());
                        assert_ne!(a, b, "{} {} / {} {}", i, names[p], j, names[q]);
                    }
                }
            }
        }
    }
}

#[test]
fn calls_and_comparisons_share_no_label() {
    for i in 0..30usize {
        for j in 0..30usize {
            let a = labels_of(&compile_call(i, &["TRUE", "0"]).unwrap());
            let b = labels_of(&compile_eq(j, &[]).unwrap());
            assert!(!b.contains(&a[0]));
        }
    }
}

#[test]
fn branching() {
    assert_eq!(compile_label(&["LOOP"], &unit()), Ok(lines(&["(Foo.LOOP)"])));
    assert_eq!(compile_goto(&["LOOP"], &unit()), Ok(lines(&["@Foo.LOOP", "0;JMP"])));
    assert_eq!(
        compile_if_goto(&["END"], &String::from("Bar")),
        Ok(lines(&["@SP", "M=M-1", "A=M", "D=M", "@Bar.END", "D;JNE"]))
    );
    assert_eq!(
        compile_label(&[], &unit()),
        Err(String::from("Syntax error: label: expected 1 operands, got 0"))
    );
    assert_eq!(
        compile_goto(&["a", "b"], &unit()),
        Err(String::from("Syntax error: goto: expected 1 operands, got 2"))
    );
    assert_eq!(
        compile_if_goto(&[], &unit()),
        Err(String::from("Syntax error: if-goto: expected 1 operands, got 0"))
    );
}

fn call_lines(ordinal: &str, name: &str, args: &str) -> Vec<String> {
    let ret = format!("{}{}.ReturnAddress", ordinal, name);
    let at_ret = format!("@{}", ret);
    let def_ret = format!("({})", ret);
    let at_name = format!("@{}", name);
    let at_args = format!("@{}", args);
    lines(&[
        &at_ret, "D=A", "@SP", "A=M", "M=D", "@SP", "M=M+1", "@LCL", "D=M", "@SP", "A=M", "M=D",
        "@SP", "M=M+1", "@ARG", "D=M", "@SP", "A=M", "M=D", "@SP", "M=M+1", "@THIS", "D=M",
        "@SP", "A=M", "M=D", "@SP", "M=M+1", "@THAT", "D=M", "@SP", "A=M", "M=D", "@SP", "M=M+1",
        "@SP", "D=M", "@5", "D=D-A", &at_args, "D=D-A", "@ARG", "M=D", "@SP", "D=M", "@LCL",
        "M=D", &at_name, "0;JMP", &def_ret,
    ])
}

#[test]
fn call() {
    assert_eq!(compile_call(3, &["Main.f", "2"]), Ok(call_lines("3", "Main.f", "2")));
    assert_eq!(compile_call(0, &["Sys.init", "0"]), Ok(call_lines("0", "Sys.init", "0")));
    assert_eq!(compile_call(120, &["g", "255"]), Ok(call_lines("120", "g", "255")));
    assert_eq!(compile_call(1, &["g", "256"]), Ok(call_lines("1", "g", "256")));
    assert_eq!(compile_call(1, &["g", "32767"]), Ok(call_lines("1", "g", "32767")));
    assert_eq!(
        compile_call(1, &["g", "32768"]),
        Err(String::from("Syntax error: call second argument must be an integer, received 32768"))
    );
    assert_eq!(
        compile_call(1, &["g", "two"]),
        Err(String::from("Syntax error: call second argument must be an integer, received two"))
    );
    assert_eq!(
        compile_call(1, &["g"]),
        Err(String::from("Syntax error: call: expected 2 operands, got 1"))
    );
}

#[test]
fn function_with_locals() {
    assert_eq!(
        compile_function(&["Main.f", "2"]),
        Ok(lines(&[
            "(Main.f)", "@2", "D=A", "@Main.f.End", "D;JEQ", "(Main.f.Loop)", "@SP", "A=M",
            "M=0", "@SP", "M=M+1", "@Main.f.Loop", "D=D-1;JNE", "(Main.f.End)",
        ]))
    );
}

#[test]
fn function_without_locals_has_no_loop() {
    assert_eq!(compile_function(&["Main.f", "0"]), Ok(lines(&["(Main.f)"])));
}

#[test]
fn function_errors() {
    assert_eq!(
        compile_function(&["f", "2"]),
        Err(String::from("Syntax error: function first argument must be class.name, received f"))
    );
    assert_eq!(
        compile_function(&["Main.f", "many"]),
        Err(String::from(
            "Syntax error: function second argument must be an integer, received many"
        ))
    );
    assert_eq!(
        compile_function(&["Main.f", "32768"]),
        Err(String::from(
            "Syntax error: function second argument must be an integer, received 32768"
        ))
    );
    assert_eq!(compile_function(&["Main.f", "256"]).unwrap()[1], "@256\n");
    assert_eq!(compile_function(&["Main.f", "32767"]).unwrap().len(), 14);
    assert_eq!(
        compile_function(&["Main.f"]),
        Err(String::from("Syntax error: function: expected 2 operands, got 1"))
    );
}

#[test]
fn return_lines() {
    assert_eq!(
        compile_return(&[]),
        Ok(lines(&[
            "@LCL", "D=M", "@5", "A=D-A", "D=M", "@13", "M=D", "@SP", "M=M-1", "A=M", "D=M",
            "@ARG", "A=M", "M=D", "@ARG", "D=M", "@SP", "M=D+1", "@LCL", "M=M-1", "A=M", "D=M",
            "@THAT", "M=D", "@LCL", "M=M-1", "A=M", "D=M", "@THIS", "M=D", "@LCL", "M=M-1",
            "A=M", "D=M", "@ARG", "M=D", "@LCL", "M=M-1", "A=M", "D=M", "@LCL", "M=D", "@13",
            "A=M", "0;JMP",
        ]))
    );
}

#[test]
fn parse_builds_commands() {
    assert_eq!(
        parse_command(&["push", "constant", "5"]),
        Ok(Command::PushSegment { segment: Segment::Constant, index: 5 })
    );
    assert_eq!(
        parse_command(&["pop", "that", "4"]),
        Ok(Command::PopSegment { segment: Segment::That, index: 4 })
    );
    assert_eq!(
        parse_command(&["add"]),
        Ok(Command::BinaryOp { op: BinaryArithmeticOperator::Add })
    );
    assert_eq!(parse_command(&["not"]), Ok(Command::UnaryOp { op: UnaryOperator::Not }));
    assert_eq!(parse_command(&["lt"]), Ok(Command::Compare { op: BooleanOperator::LesserThan }));
    assert_eq!(parse_command(&["label", "A"]), Ok(Command::Label { name: String::from("A") }));
    assert_eq!(parse_command(&["goto", "A"]), Ok(Command::Goto { name: String::from("A") }));
    assert_eq!(parse_command(&["if-goto", "A"]), Ok(Command::IfGoto { name: String::from("A") }));
    assert_eq!(
        parse_command(&["function", "A.b", "3"]),
        Ok(Command::Function { qualified_name: String::from("A.b"), local_count: 3 })
    );
    assert_eq!(
        parse_command(&["call", "A.b", "1"]),
        Ok(Command::Call { name: String::from("A.b"), arg_count: 1 })
    );
    assert_eq!(parse_command(&["return"]), Ok(Command::Return));
    assert_eq!(parse_command(&["mul"]), Err(String::from("Unsupported operation: mul")));
    assert_eq!(parse_command(&[]), Err(String::from("Unsupported operation: ")));
    assert_eq!(parse_command(&["Push"]), Err(String::from("Unsupported operation: Push")));
}

#[test]
fn generate_matches_the_line_translators() {
    let u = unit();
    assert_eq!(
        generate(&Command::PushSegment { segment: Segment::Static, index: 2 }, 0, &u),
        compile_push(&["static", "2"], &u).unwrap()
    );
    assert_eq!(
        generate(&Command::Compare { op: BooleanOperator::Equal }, 8, &u),
        compile_eq(8, &[]).unwrap()
    );
    assert_eq!(
        generate(&Command::Call { name: String::from("A.b"), arg_count: 1 }, 8, &u),
        compile_call(8, &["A.b", "1"]).unwrap()
    );
    assert_eq!(generate(&Command::Return, 8, &u), compile_return(&[]).unwrap());
}

#[test]
fn static_symbols_belong_to_one_unit_and_index() {
    let cases = [("A", "11"), ("A.1", "1"), ("A", "1"), ("A.", "1"), ("B", "11"), ("A", "110")];
    for (i, (unit_a, index_a)) in cases.iter().enumerate() {
        for (j, (unit_b, index_b)) in cases.iter().enumerate() {
            let a = compile_push(&["static", index_a], &unit_a.to_string()).unwrap();
            let b = compile_push(&["static", index_b], &unit_b.to_string()).unwrap();
            assert_eq!(a[0] == b[0], i == j, "{} {} / {} {}", unit_a, index_a, unit_b, index_b);
        }
    }
}
