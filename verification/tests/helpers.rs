use vmcomp::assembly::{Cell, Comp, Dest, Emitter, Jump};
use vmcomp::command::{
    has_dot, message, parse_branch, parse_call, parse_function, parse_plain, parse_segment,
    parse_transfer, same, Branch, Command, Segment, INDEX_MAX,
};
use vmcomp::text::push_decimal;

#[test]
fn emitter_writes_each_kind_of_line() {
    let mut e = Emitter::new();
    e.address(Cell::Sp);
    e.address(Cell::Lcl);
    e.address(Cell::Arg);
    e.address(Cell::This);
    e.address(Cell::That);
    e.number(0);
    e.number(90210);
    e.symbol("Foo.3");
    e.label("Foo.LOOP");
    e.compute(Dest::M, Comp::MPlusOne, Jump::Never);
    e.compute(Dest::Nowhere, Comp::Zero, Jump::Always);
    e.compute(Dest::D, Comp::DMinusOne, Jump::IfNonZero);
    e.compute(Dest::A, Comp::DMinusA, Jump::Never);
    e.compute(Dest::Nowhere, Comp::D, Jump::IfZero);
    e.compute(Dest::Nowhere, Comp::D, Jump::IfPositive);
    e.compute(Dest::Nowhere, Comp::D, Jump::IfNegative);
    assert_eq!(
        e.finish(),
        vec![
            "@SP\n", "@LCL\n", "@ARG\n", "@THIS\n", "@THAT\n", "@0\n", "@90210\n", "@Foo.3\n",
            "(Foo.LOOP)\n", "M=M+1\n", "0;JMP\n", "D=D-1;JNE\n", "A=D-A\n", "D;JEQ\n", "D;JGT\n",
            "D;JLT\n",
        ]
    );
    assert!(Emitter::new().finish().is_empty());
}

#[test]
fn emitter_writes_each_computation() {
    let all = [
        (Comp::Zero, "0"),
        (Comp::MinusOne, "-1"),
        (Comp::A, "A"),
        (Comp::D, "D"),
        (Comp::M, "M"),
        (Comp::NotM, "!M"),
        (Comp::MPlusD, "M+D"),
        (Comp::MMinusD, "M-D"),
        (Comp::MAndD, "M&D"),
        (Comp::MOrD, "M|D"),
        (Comp::AMinusD, "A-D"),
        (Comp::DMinusA, "D-A"),
        (Comp::APlusOne, "A+1"),
        (Comp::AMinusOne, "A-1"),
        (Comp::DPlusOne, "D+1"),
        (Comp::DMinusOne, "D-1"),
        (Comp::MPlusOne, "M+1"),
        (Comp::MMinusOne, "M-1"),
    ];
    for (comp, text) in all {
        let mut e = Emitter::new();
        e.compute(Dest::D, comp, Jump::Never);
        assert_eq!(e.finish(), vec![format!("D={}\n", text)]);
    }
}

#[test]
fn decimal_numerals() {
    for n in [0u64, 1, 9, 10, 11, 99, 100, 101, 255, 256, 1000, 65535, 4294967295, u64::MAX] {
        let mut s = String::from("n=");
        push_decimal(&mut s, n);
        assert_eq!(s, format!("n={}", n));
    }
}

#[test]
fn words_and_messages() {
    assert!(same("push", "push"));
    assert!(!same("push", "pus"));
    assert!(!same("push", "Push"));
    assert!(same("", ""));
    assert_eq!(message("a: ", "b"), "a: b");
    assert_eq!(message("", ""), "");
    assert!(has_dot("Main.f"));
    assert!(has_dot("."));
    assert!(has_dot("f."));
    assert!(!has_dot("Main"));
    assert!(!has_dot(""));
}

#[test]
fn segments_by_name() {
    assert_eq!(parse_segment("local"), Some(Segment::Local));
    assert_eq!(parse_segment("argument"), Some(Segment::Argument));
    assert_eq!(parse_segment("this"), Some(Segment::This));
    assert_eq!(parse_segment("that"), Some(Segment::That));
    assert_eq!(parse_segment("temp"), Some(Segment::Temp));
    assert_eq!(parse_segment("static"), Some(Segment::Static));
    assert_eq!(parse_segment("pointer"), Some(Segment::Pointer));
    assert_eq!(parse_segment("constant"), Some(Segment::Constant));
    assert_eq!(parse_segment("Local"), None);
    assert_eq!(parse_segment(""), None);
}

#[test]
fn operands_are_read() {
    assert_eq!(INDEX_MAX, 32767);
    assert_eq!(
        parse_transfer(true, &["local", "256"]),
        Ok(Command::PushSegment { segment: Segment::Local, index: 256 })
    );
    assert_eq!(
        parse_transfer(false, &["local", "256"]),
        Ok(Command::PopSegment { segment: Segment::Local, index: 256 })
    );
    assert_eq!(
        parse_transfer(false, &["that", "32767"]),
        Ok(Command::PopSegment { segment: Segment::That, index: 32767 })
    );
    assert_eq!(
        parse_transfer(true, &["constant", "32767"]),
        Ok(Command::PushSegment { segment: Segment::Constant, index: 32767 })
    );
    assert_eq!(
        parse_transfer(false, &["that", "32768"]),
        Err(String::from("Invalid syntax: pop second operand must be an integer, received 32768"))
    );
    assert_eq!(
        parse_transfer(true, &["pointer", "32768"]),
        Err(String::from("Syntax error: push pointer argument must be 0 or 1, received 32768"))
    );
    assert_eq!(
        parse_transfer(true, &["pointer", "32767"]),
        Err(String::from("Syntax error: pointer must be 0 or 1, received 32767"))
    );
    assert_eq!(parse_plain("return", &[], Command::Return), Ok(Command::Return));
    assert_eq!(
        parse_plain("return", &["x"], Command::Return),
        Err(String::from("Syntax error: return: expected 0 operands, got 1"))
    );
    assert_eq!(
        parse_branch(Branch::Goto, &["X"]),
        Ok(Command::Goto { name: String::from("X") })
    );
    assert_eq!(
        parse_branch(Branch::Label, &["X"]),
        Ok(Command::Label { name: String::from("X") })
    );
    assert_eq!(
        parse_branch(Branch::IfGoto, &["X"]),
        Ok(Command::IfGoto { name: String::from("X") })
    );
    assert_eq!(
        parse_function(&["A.b", "300"]),
        Ok(Command::Function { qualified_name: String::from("A.b"), local_count: 300 })
    );
    assert_eq!(
        parse_call(&["anything", "32767"]),
        Ok(Command::Call { name: String::from("anything"), arg_count: 32767 })
    );
}
