use std::collections::HashMap;
use vmcomp::driver::compile_file;
use vmcomp::linker::{link_directory, SourceUnit};

/// A small interpreter of the target's assembly, to run what the library
/// writes.
struct Computer {
    ram: Vec<i16>,
    a: i16,
    d: i16,
    pc: usize,
    rom: Vec<String>,
    symbols: HashMap<String, usize>,
}

fn operand(name: &str, a: i16, d: i16, m: i16) -> i16 {
    match name {
        "0" => 0,
        "1" => 1,
        "A" => a,
        "D" => d,
        "M" => m,
        other => panic!("operand {}", other),
    }
}

fn compute(comp: &str, a: i16, d: i16, m: i16) -> i16 {
    if let Some(rest) = comp.strip_prefix('!') {
        return !operand(rest, a, d, m);
    }
    if let Some(rest) = comp.strip_prefix('-') {
        return operand(rest, a, d, m).wrapping_neg();
    }
    for (i, c) in comp.char_indices() {
        let (l, r) = (&comp[..i], &comp[i + 1..]);
        match c {
            '+' => return operand(l, a, d, m).wrapping_add(operand(r, a, d, m)),
            '-' => return operand(l, a, d, m).wrapping_sub(operand(r, a, d, m)),
            '&' => return operand(l, a, d, m) & operand(r, a, d, m),
            '|' => return operand(l, a, d, m) | operand(r, a, d, m),
            _ => {}
        }
    }
    operand(comp, a, d, m)
}

impl Computer {
    fn load(lines: &[String]) -> Computer {
        let mut symbols: HashMap<String, usize> = HashMap::new();
        for (name, at) in [("SP", 0), ("LCL", 1), ("ARG", 2), ("THIS", 3), ("THAT", 4)] {
            symbols.insert(name.to_string(), at);
        }
        let mut rom = Vec::new();
        for line in lines {
            assert!(line.ends_with('\n'));
            let body = &line[..line.len() - 1];
            if body.is_empty() || body.starts_with("//") {
                continue;
            }
            if body.starts_with('(') {
                let name = &body[1..body.len() - 1];
                assert!(
                    symbols.insert(name.to_string(), rom.len()).is_none(),
                    "label {} defined twice",
                    name
                );
            } else {
                rom.push(body.to_string());
            }
        }
        let mut next = 16;
        for line in &rom {
            if let Some(name) = line.strip_prefix('@') {
                if name.parse::<usize>().is_err() && !symbols.contains_key(name) {
                    symbols.insert(name.to_string(), next);
                    next += 1;
                }
            }
        }
        Computer { ram: vec![0; 32768], a: 0, d: 0, pc: 0, rom, symbols }
    }

    fn step(&mut self) {
        let line = self.rom[self.pc].clone();
        self.pc += 1;
        if let Some(name) = line.strip_prefix('@') {
            let value = match name.parse::<usize>() {
                Ok(n) => n,
                Err(_) => self.symbols[name],
            };
            self.a = value as i16;
            return;
        }
        let (head, jump) = match line.split_once(';') {
            Some((h, j)) => (h, j),
            None => (line.as_str(), ""),
        };
        let (dest, comp) = match head.split_once('=') {
            Some((t, c)) => (t, c),
            None => ("", head),
        };
        let at = self.a as u16 as usize;
        let m = if comp.contains('M') || dest.contains('M') { self.ram[at] } else { 0 };
        let v = compute(comp, self.a, self.d, m);
        if dest.contains('M') {
            self.ram[at] = v;
        }
        if dest.contains('A') {
            self.a = v;
        }
        if dest.contains('D') {
            self.d = v;
        }
        let taken = match jump {
            "" => false,
            "JEQ" => v == 0,
            "JGT" => v > 0,
            "JLT" => v < 0,
            "JNE" => v != 0,
            "JMP" => true,
            other => panic!("jump {}", other),
        };
        if taken {
            self.pc = at;
        }
    }

    /// Runs until the end of the program, or until `stop` is reached.
    fn run(&mut self, stop: Option<&str>) {
        let stop = stop.map(|name| self.symbols[name]);
        let mut steps = 0;
        while self.pc < self.rom.len() && Some(self.pc) != stop {
            self.step();
            steps += 1;
            assert!(steps < 1_000_000, "the program does not end");
        }
    }
}

fn translate(lines: &[&str]) -> Vec<String> {
    let source: Vec<String> = lines.iter().map(|l| l.to_string()).collect();
    let (output, errors) = compile_file(&String::from("Foo"), &source, 0);
    assert!(errors.is_empty(), "{:?}", errors);
    output
}

fn machine(lines: &[&str]) -> Computer {
    let mut c = Computer::load(&translate(lines));
    c.ram[0] = 256;
    c.ram[1] = 300;
    c.ram[2] = 400;
    c.ram[3] = 3000;
    c.ram[4] = 3010;
    c
}

#[test]
fn sub_of_seven_and_three() {
    let mut c = machine(&["push constant 7", "push constant 3", "sub"]);
    c.run(None);
    assert_eq!(c.ram[0], 257);
    assert_eq!(c.ram[256], 4);
}

#[test]
fn add_and_or() {
    let mut c = machine(&["push constant 12", "push constant 10", "add"]);
    c.run(None);
    assert_eq!((c.ram[0], c.ram[256]), (257, 22));
    let mut c = machine(&["push constant 12", "push constant 10", "and"]);
    c.run(None);
    assert_eq!((c.ram[0], c.ram[256]), (257, 8));
    let mut c = machine(&["push constant 12", "push constant 10", "or"]);
    c.run(None);
    assert_eq!((c.ram[0], c.ram[256]), (257, 14));
}

#[test]
fn neg_and_not() {
    let mut c = machine(&["push constant 5", "neg"]);
    c.run(None);
    assert_eq!((c.ram[0], c.ram[256]), (257, -5));
    let mut c = machine(&["push constant 5", "not"]);
    c.run(None);
    assert_eq!((c.ram[0], c.ram[256]), (257, !5));
    let mut c = machine(&["push constant 0", "neg"]);
    c.run(None);
    assert_eq!((c.ram[0], c.ram[256]), (257, 0));
}

#[test]
fn eq_gives_the_sentinels() {
    let mut c = machine(&["push constant 5", "push constant 5", "eq"]);
    c.run(None);
    assert_eq!(c.ram[0], 257);
    assert_eq!(c.ram[256], -1);
    assert_eq!(c.ram[256] as u16, 0xFFFF);
    let mut c = machine(&["push constant 5", "push constant 6", "eq"]);
    c.run(None);
    assert_eq!(c.ram[0], 257);
    assert_eq!(c.ram[256], 0);
}

#[test]
fn gt_and_lt_give_the_sentinels() {
    for (x, y) in [(5, 6), (6, 5), (5, 5), (0, 32767), (32767, 0)] {
        let px = format!("push constant {}", x);
        let py = format!("push constant {}", y);
        let mut c = machine(&[&px, &py, "gt"]);
        c.run(None);
        assert_eq!((c.ram[0], c.ram[256]), (257, if x > y { -1 } else { 0 }));
        let mut c = machine(&[&px, &py, "lt"]);
        c.run(None);
        assert_eq!((c.ram[0], c.ram[256]), (257, if x < y { -1 } else { 0 }));
    }
}

#[test]
fn several_comparisons_in_one_unit() {
    let mut c = machine(&[
        "push constant 1",
        "push constant 1",
        "eq",
        "push constant 1",
        "push constant 2",
        "eq",
        "eq",
    ]);
    c.run(None);
    assert_eq!((c.ram[0], c.ram[256]), (257, 0));
}

#[test]
fn adding_zero_changes_nothing() {
    for k in [0, 1, 7, 255, 256, 32767] {
        let push = format!("push constant {}", k);
        let mut one = machine(&[&push]);
        one.run(None);
        let mut two = machine(&[&push, "push constant 0", "add"]);
        two.run(None);
        assert_eq!(one.ram[0], 257);
        assert_eq!(two.ram[0], 257);
        assert_eq!(one.ram[256] as i32, k);
        assert_eq!(two.ram[256], one.ram[256]);
    }
}

#[test]
fn push_then_pop_of_one_cell_changes_nothing() {
    for (segment, index) in [
        ("local", 0),
        ("local", 2),
        ("argument", 3),
        ("this", 1),
        ("that", 7),
        ("temp", 0),
        ("temp", 7),
        ("static", 4),
        ("pointer", 0),
        ("pointer", 1),
    ] {
        let push = format!("push {} {}", segment, index);
        let pop = format!("pop {} {}", segment, index);
        let mut c = machine(&[&push, &pop]);
        for at in 5..4000 {
            c.ram[at] = (at * 3) as i16;
        }
        let before = c.ram.clone();
        c.run(None);
        for at in 0..c.ram.len() {
            if at != 256 {
                assert_eq!(c.ram[at], before[at], "{} {} at {}", segment, index, at);
            }
        }
    }
}

#[test]
fn pop_writes_the_cell_that_push_reads() {
    let mut c = machine(&[
        "push constant 41",
        "pop local 3",
        "push constant 42",
        "pop static 1",
        "push constant 43",
        "pop temp 2",
        "push constant 3333",
        "pop pointer 1",
        "push local 3",
        "push static 1",
        "push temp 2",
        "push pointer 1",
    ]);
    c.run(None);
    assert_eq!(c.ram[303], 41);
    assert_eq!(c.ram[7], 43);
    assert_eq!(c.ram[4], 3333);
    assert_eq!(c.ram[0], 260);
    assert_eq!(&c.ram[256..260], &[41, 42, 43, 3333]);
}

#[test]
fn if_goto_pops_and_jumps_on_nonzero() {
    let mut c = machine(&[
        "push constant 0",
        "if-goto SKIP",
        "push constant 10",
        "label SKIP",
        "push constant 1",
        "if-goto END",
        "push constant 20",
        "label END",
    ]);
    c.run(None);
    assert_eq!(c.ram[0], 257);
    assert_eq!(c.ram[256], 10);
}

#[test]
fn goto_jumps() {
    let mut c = machine(&["goto END", "push constant 1", "label END", "push constant 2"]);
    c.run(None);
    assert_eq!((c.ram[0], c.ram[256]), (257, 2));
}

#[test]
fn call_and_return_restore_the_frame() {
    let mut c = machine(&[
        "push constant 11",
        "push constant 22",
        "call Main.f 2",
        "label END",
        "goto END",
        "function Main.f 1",
        "return",
    ]);
    c.run(Some("Foo.END"));
    assert_eq!(c.ram[1], 300);
    assert_eq!(c.ram[2], 400);
    assert_eq!(c.ram[3], 3000);
    assert_eq!(c.ram[4], 3010);
    let pre_call_sp = 258;
    assert_eq!(c.ram[0], pre_call_sp - 2 + 1);
}

#[test]
fn a_function_sees_its_arguments_and_returns_a_value() {
    let mut c = machine(&[
        "push constant 11",
        "push constant 22",
        "call Main.sub 2",
        "label END",
        "goto END",
        "function Main.sub 2",
        "push constant 3000",
        "pop pointer 0",
        "push argument 0",
        "push argument 1",
        "sub",
        "pop local 1",
        "push local 0",
        "push local 1",
        "add",
        "return",
    ]);
    c.run(Some("Foo.END"));
    assert_eq!(c.ram[0], 257);
    assert_eq!(c.ram[256], -11);
    assert_eq!((c.ram[1], c.ram[2], c.ram[3], c.ram[4]), (300, 400, 3000, 3010));
}

#[test]
fn a_function_without_arguments_returns() {
    let mut c = machine(&[
        "call Main.seven 0",
        "label END",
        "goto END",
        "function Main.seven 0",
        "push constant 7",
        "return",
    ]);
    c.run(Some("Foo.END"));
    assert_eq!((c.ram[0], c.ram[256]), (257, 7));
    assert_eq!((c.ram[1], c.ram[2], c.ram[3], c.ram[4]), (300, 400, 3000, 3010));
}

#[test]
fn local_slots_start_at_zero() {
    let mut c = machine(&[
        "call Main.f 0",
        "label END",
        "goto END",
        "function Main.f 3",
        "push local 0",
        "push local 1",
        "add",
        "push local 2",
        "add",
        "return",
    ]);
    for at in 256..300 {
        c.ram[at] = 99;
    }
    c.run(Some("Foo.END"));
    assert_eq!((c.ram[0], c.ram[256]), (257, 0));
}

#[test]
fn a_linked_program_starts_in_sys_init() {
    let units = vec![
        SourceUnit {
            file_name: String::from("Main.vm"),
            lines: vec![
                String::from("function Main.twice 0"),
                String::from("push argument 0"),
                String::from("push argument 0"),
                String::from("add"),
                String::from("pop static 0"),
                String::from("push static 0"),
                String::from("return"),
            ],
        },
        SourceUnit {
            file_name: String::from("Sys.vm"),
            lines: vec![
                String::from("function Sys.init 0"),
                String::from("push constant 21"),
                String::from("pop static 0"),
                String::from("push constant 4"),
                String::from("call Main.twice 1"),
                String::from("push static 0"),
                String::from("label HALT"),
                String::from("goto HALT"),
            ],
        },
    ];
    let (output, errors) = link_directory(&units);
    assert!(errors.is_empty());
    let mut c = Computer::load(&output);
    c.run(Some("Sys.HALT"));
    // five saved cells of the start-up call, then the two values pushed
    assert_eq!(c.ram[0], 256 + 5 + 2);
    assert_eq!(c.ram[261], 8);
    assert_eq!(c.ram[262], 21);
    assert_eq!(c.ram[c.symbols["Main.0"]], 8);
    assert_eq!(c.ram[c.symbols["Sys.0"]], 21);
}

#[test]
fn a_unit_that_opens_with_a_call_of_sys_init_links() {
    let unit = SourceUnit {
        file_name: String::from("Sys.vm"),
        lines: vec![
            String::from("call Sys.init 0"),
            String::from("function Sys.init 0"),
            String::from("push constant 9"),
            String::from("label HALT"),
            String::from("goto HALT"),
        ],
    };
    let (output, errors) = link_directory(&[unit].into_iter().collect::<Vec<SourceUnit>>());
    assert!(errors.is_empty());
    // loading fails on a label that is defined twice
    let mut c = Computer::load(&output);
    c.run(Some("Sys.HALT"));
    assert_eq!(c.ram[0], 256 + 5 + 1);
    assert_eq!(c.ram[261], 9);
    assert_eq!(c.ram[256] as usize, c.symbols["StartReturnAddress"]);
}

#[test]
fn eq_on_constants_for_many_values() {
    for (x, y) in [(0, 0), (0, 1), (1, 0), (32767, 32767), (32767, 0), (255, 256), (256, 256)] {
        let px = format!("push constant {}", x);
        let py = format!("push constant {}", y);
        let mut c = machine(&[&px, &py, "eq"]);
        c.run(None);
        assert_eq!((c.ram[0], c.ram[256]), (257, if x == y { -1 } else { 0 }));
    }
}

#[test]
fn push_then_pop_with_a_large_index() {
    let mut c = machine(&["push local 300", "pop local 300", "push that 1000", "pop that 1000"]);
    for at in 5..6000 {
        c.ram[at] = (at * 5) as i16;
    }
    let before = c.ram.clone();
    c.run(None);
    for at in 0..c.ram.len() {
        if at != 256 {
            assert_eq!(c.ram[at], before[at], "at {}", at);
        }
    }
}

#[test]
fn a_callee_with_a_body_returns_its_top_value() {
    let mut c = machine(&[
        "push constant 11",
        "push constant 22",
        "call Main.f 2",
        "label END",
        "goto END",
        "function Main.f 1",
        "push constant 4000",
        "pop pointer 0",
        "push constant 4010",
        "pop pointer 1",
        "push constant 5",
        "pop local 0",
        "push constant 77",
        "return",
    ]);
    c.run(Some("Foo.END"));
    assert_eq!((c.ram[1], c.ram[2], c.ram[3], c.ram[4]), (300, 400, 3000, 3010));
    assert_eq!(c.ram[0], 258 - 2 + 1);
    assert_eq!(c.ram[256], 77);
}
