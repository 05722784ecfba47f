use oplang::compiler::Compiler;
use oplang::options::Options;
use oplang::runtime::chunk::Chunk;
use oplang::runtime::disassembler::Disassembler;
use oplang::runtime::value::Value;
use oplang::runtime::vm::{Event, VirtualMachine};

fn run(chunk: &Chunk) -> Vec<Event> {
    let mut vm = VirtualMachine::new();
    let mut events = Vec::new();
    for _ in 0..10_000 {
        let e = vm.step(chunk);
        events.push(e);
        match e {
            Event::Continue => {}
            Event::PrintInt(_) | Event::PrintBool(_) => {}
            _ => break,
        }
    }
    events.into_iter().filter(|e| *e != Event::Continue).collect()
}

#[test]
fn test_compile_stmtexpr() {
    let mut compiler = Compiler::new();
    let chunk = compiler.compile(b"1 + 2 * 3;", Options::new()).unwrap();
    let constants = vec![
        Value::new_int(1),
        Value::new_int(2),
        Value::new_int(3),
        Value::new_int(0),
    ];
    let bytecode = vec![6, 0, 0, 0, 6, 1, 0, 0, 6, 2, 0, 0, 3, 1, 8, 6, 3, 0, 0, 0];

    assert_eq!(chunk, Chunk::new_from_existing(bytecode, constants));
}

#[test]
fn compile_declaration_and_print() {
    let mut compiler = Compiler::new();
    let chunk = compiler.compile(b"let x: int = 5; print(x);", Options::new()).unwrap();
    let bytecode = vec![6, 0, 0, 0, 10, 0, 0, 0, 9, 0, 0, 0, 7, 6, 1, 0, 0, 0];
    let constants = vec![Value::new_int(5), Value::new_int(0)];
    assert_eq!(chunk, Chunk::new_from_existing(bytecode, constants));
}

#[test]
fn compile_reports_parse_errors() {
    let mut compiler = Compiler::new();
    match compiler.compile(b"print (1;", Options::new()) {
        Err(diagnostics) => assert!(!diagnostics.is_empty()),
        Ok(_) => panic!("a parse error must be reported"),
    }
}

#[test]
fn compile_reports_undeclared_names() {
    let mut compiler = Compiler::new();
    match compiler.compile(b"print(y);", Options::new()) {
        Err(diagnostics) => assert_eq!(1, diagnostics.len()),
        Ok(_) => panic!("an undeclared name must be reported"),
    }
}

#[test]
fn compiled_program_runs_and_prints() {
    let mut compiler = Compiler::new();
    let chunk = compiler.compile(b"print(1 + 2 * 3);", Options::new()).unwrap();
    assert_eq!(vec![Event::PrintInt(7), Event::Halt(0)], run(&chunk));
}

#[test]
fn compiled_loop_counts_to_three() {
    let mut compiler = Compiler::new();
    let source = b"let i: int = 0; while (i < 3) { print(i); i = i + 1; }";
    let chunk = compiler.compile(source, Options::new()).unwrap();
    assert_eq!(
        vec![Event::PrintInt(0), Event::PrintInt(1), Event::PrintInt(2), Event::Halt(0)],
        run(&chunk)
    );
}

#[test]
fn compiled_branch_takes_else() {
    let mut compiler = Compiler::new();
    let source = b"if (1 > 2) { print(1); } else { print(2); }";
    let chunk = compiler.compile(source, Options::new()).unwrap();
    assert_eq!(vec![Event::PrintInt(2), Event::Halt(0)], run(&chunk));
}

#[test]
fn compiled_listing() {
    let mut compiler = Compiler::new();
    let chunk = compiler.compile(b"1 + 2 * 3;", Options::new()).unwrap();
    let d = Disassembler::new(&chunk);
    assert!(d.can_list());
    let expected = vec![
        "LOADCONST 0 0 0",
        "LOADCONST 1 0 0",
        "LOADCONST 2 0 0",
        "I32MUL",
        "I32ADD",
        "POP",
        "LOADCONST 3 0 0",
        "HALT",
    ];
    assert_eq!(expected, d.lines());
}

#[test]
fn listing_of_jumps_and_unknown_bytes() {
    let chunk = Chunk::new_from_existing(vec![22, 5, 0, 0, 0, 200, 24, 255, 255, 255, 255], vec![]);
    let d = Disassembler::new(&chunk);
    assert!(d.can_list());
    assert_eq!(vec!["JMP 5 0 0 0", "UNKNOWN 200", "JMPFALSE 255 255 255 255"], d.lines());
}

#[test]
fn truncated_operands_cannot_be_listed() {
    let chunk = Chunk::new_from_existing(vec![6, 0, 0], vec![]);
    assert!(!Disassembler::new(&chunk).can_list());
}

#[test]
fn declared_variable_is_read_back() {
    let mut compiler = Compiler::new();
    let source = b"let x: int = 5; let y: int = x * 2; print(y - x); print(-x);";
    let chunk = compiler.compile(source, Options::new()).unwrap();
    assert_eq!(vec![Event::PrintInt(5), Event::PrintInt(-5), Event::Halt(0)], run(&chunk));
}

#[test]
fn for_loops_are_not_compiled() {
    let mut compiler = Compiler::new();
    match compiler.compile(b"for (let i: int = 0; i < 3; i = i + 1) { print(i); }", Options::new()) {
        Err(diagnostics) => assert!(diagnostics.is_empty()),
        Ok(_) => panic!("code is not made for a for loop"),
    }
}

#[test]
fn booleans_print_and_compare() {
    let mut compiler = Compiler::new();
    let source = b"let b: bool = 1 < 2 && 3 == 3; print(b); print(b && false);";
    let chunk = compiler.compile(source, Options::new()).unwrap();
    assert_eq!(vec![Event::PrintBool(true), Event::PrintBool(false), Event::Halt(0)], run(&chunk));
}

#[test]
fn disassembly_lists_headers_instructions_and_constants() {
    let chunk = Chunk::new_from_existing(
        vec![0x06, 0, 0, 0, 0x16, 5, 0, 0, 0, 0x08, 0x00],
        vec![Value::new_int(0), Value::new_int(-12), Value::new_bool(true), Value::new_uninitialized()],
    );
    let d = Disassembler::new(&chunk);
    assert!(d.can_list());
    let expected = vec![
        "Chunk:",
        "Bytecode:",
        "LOADCONST 0 0 0",
        "JMP 5 0 0 0",
        "POP",
        "HALT",
        "Constants:",
        "0 kind: Integer, value: 0",
        "1 kind: Integer, value: -12",
        "2 kind: Boolean, value: true",
        "3 kind: Uninitialized, value: unitialized value",
    ];
    assert_eq!(expected, d.disassemble());
}

#[test]
fn compile_reports_undeclared_name_text_and_span() {
    let mut compiler = Compiler::new();
    match compiler.compile(b"print(y);", Options::new()) {
        Err(diagnostics) => {
            assert_eq!(1, diagnostics.len());
            assert_eq!("use of undeclared identifer: 'y'", diagnostics[0].message);
            assert_eq!(oplang::span::Span::new(6, 1), diagnostics[0].span);
        }
        Ok(_) => panic!("an undeclared name must be reported"),
    }
}

#[test]
fn compile_reports_bad_condition_at_the_condition() {
    let mut compiler = Compiler::new();
    match compiler.compile(b"while (1) { print(1); }", Options::new()) {
        Err(diagnostics) => {
            assert_eq!(1, diagnostics.len());
            assert_eq!("while statement condition must have type 'bool'", diagnostics[0].message);
            assert_eq!(oplang::span::Span::new(7, 1), diagnostics[0].span);
        }
        Ok(_) => panic!("a condition that is not bool must be reported"),
    }
}

#[test]
fn compile_reports_mismatched_assignment() {
    let mut compiler = Compiler::new();
    match compiler.compile(b"let x: bool = true; x = 1;", Options::new()) {
        Err(diagnostics) => {
            assert_eq!(1, diagnostics.len());
            assert_eq!("mismatched types", diagnostics[0].message);
            assert_eq!(oplang::span::Span::new(20, 5), diagnostics[0].span);
        }
        Ok(_) => panic!("a mismatched assignment must be reported"),
    }
}

#[test]
fn compile_reports_redeclaration() {
    let mut compiler = Compiler::new();
    match compiler.compile(b"let x: int = 1; let x: int = 2;", Options::new()) {
        Err(diagnostics) => {
            assert_eq!(1, diagnostics.len());
            assert_eq!("redeclaration of identifer 'x'", diagnostics[0].message);
        }
        Ok(_) => panic!("a redeclaration must be reported"),
    }
}

#[test]
fn unexpected_token_is_shown_by_its_bytes() {
    let mut compiler = Compiler::new();
    match compiler.compile(b"1 + );", Options::new()) {
        Err(diagnostics) => {
            assert!(diagnostics
                .iter()
                .any(|d| d.message == "unexpected token: '[\n    41,\n]'" && d.span == oplang::span::Span::new(4, 1)));
        }
        Ok(_) => panic!("an unexpected token must be reported"),
    }
}

#[test]
fn compile_returns_every_parse_report_in_order() {
    let mut compiler = Compiler::new();
    match compiler.compile(b"1 2;\n3 4;", Options::new()) {
        Err(diagnostics) => {
            assert_eq!(2, diagnostics.len());
            assert_eq!("expected ';' after statement", diagnostics[0].message);
            assert_eq!(oplang::span::Span::new(2, 1), diagnostics[0].span);
            assert_eq!("expected ';' after statement", diagnostics[1].message);
            assert_eq!(oplang::span::Span::new(7, 1), diagnostics[1].span);
        }
        Ok(_) => panic!("both missing semicolons must be reported"),
    }
}
