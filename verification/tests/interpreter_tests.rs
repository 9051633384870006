use sphinx_lang::codegen::chunk::Program;
use sphinx_lang::codegen::compiler::{compile, CompiledProgram};
use sphinx_lang::codegen::errors::{CompileError, ErrorKind as CompileErrorKind};
use sphinx_lang::codegen::opcodes::OpCode;
use sphinx_lang::debug::dasm::disassemble;
use sphinx_lang::debug::symbol::table::DebugSymbolTable;
use sphinx_lang::debug::symbol::DebugSymbol;
use sphinx_lang::debug::traceback::{resolve_trace, TraceSite};
use sphinx_lang::frontend::{build_module, compile_ast, parse_source, BuildErrors};
use sphinx_lang::parser::binop::BinaryOp;
use sphinx_lang::parser::errors::ParserErrorKind;
use sphinx_lang::parser::expr::{Expr, ExprMeta, UnaryOp};
use sphinx_lang::parser::primary::Atom;
use sphinx_lang::parser::stmt::{Stmt, StmtList, StmtMeta};
use sphinx_lang::repl::{classify_line, echo_last, Action, Repl};
use sphinx_lang::runtime::echo::{Piece, Rendering};
use sphinx_lang::runtime::errors::{ErrorKind, RuntimeError};
use sphinx_lang::runtime::globals::GlobalEnv;
use sphinx_lang::runtime::strings::{Interner, StringTable};
use sphinx_lang::runtime::variant::{TypeTag, Variant};
use sphinx_lang::runtime::vm::{Flow, VirtualMachine};
use sphinx_lang::source::{ModuleSource, ParseContext, SourceText, SourceType};
use sphinx_lang::parser::parser::error_symbol;

fn text_of(out: &Rendering) -> String {
    let mut text = String::new();
    for piece in out.pieces() {
        match piece {
            Piece::Text(part) => text.push_str(part),
            Piece::Float(bytes) => text.push_str(&format!("{:?}", f64::from_le_bytes(*bytes))),
        }
    }
    text
}

/// A session: the strings and the global variables that programs share.
struct Session {
    table: StringTable,
    globals: GlobalEnv,
}

struct Outcome {
    printed: Vec<String>,
    result: Result<Flow, Box<RuntimeError>>,
    symbols: DebugSymbolTable,
}

impl Session {
    fn new() -> Self {
        Session { table: StringTable::new(), globals: GlobalEnv::new() }
    }

    fn run_program(&mut self, compiled: CompiledProgram) -> Outcome {
        let program = Program::load(compiled.program, &mut self.table);
        let mut vm = VirtualMachine::new(&program);
        let result = vm.run(&mut self.globals, &mut self.table, 100_000);
        let printed = vm.output().iter().map(text_of).collect();
        Outcome { printed, result, symbols: compiled.symbols }
    }

    fn run(&mut self, source: &str) -> Outcome {
        let compiled = build_module(source.chars().collect(), Interner::new()).unwrap();
        self.run_program(compiled)
    }

    /// What the prompt does with a submitted input: a last expression is
    /// echoed.
    fn submit(&mut self, source: &str) -> Outcome {
        let parsed = parse_source(source.chars().collect(), Interner::new());
        let ast = echo_last(parsed.ast.unwrap());
        let compiled = compile_ast(parsed.strings, ast).unwrap();
        self.run_program(compiled)
    }
}

fn printed(source: &str) -> Vec<String> {
    let outcome = Session::new().run(source);
    assert!(matches!(outcome.result, Ok(Flow::Return)), "{:?}", outcome.result);
    outcome.printed
}

fn failure(source: &str) -> (Box<RuntimeError>, Vec<Option<DebugSymbol>>, Vec<String>) {
    let outcome = Session::new().run(source);
    let error = outcome.result.unwrap_err();
    let trace = resolve_trace(&vec![outcome.symbols], error.traceback());
    (error, trace, outcome.printed)
}

#[test]
fn echo_one_plus_two_prints_three() {
    assert_eq!(printed("echo 1 + 2;"), vec!["3"]);
}

#[test]
fn a_variable_is_squared() {
    assert_eq!(printed("var x = 10; echo x * x;"), vec!["100"]);
}

#[test]
fn expressions_are_computed() {
    assert_eq!(printed("echo 1 + 2 * 3; echo (1 + 2) * 3; echo 7 / 2; echo -7 % 3;"), vec!["7", "9", "3", "-1"]);
    assert_eq!(printed("echo 1 << 4; echo -16 >> 2; echo 6 & 3; echo 6 | 3; echo 6 ^ 3; echo ~5;"), vec!["16", "-4", "2", "7", "5", "-6"]);
    assert_eq!(printed("echo 1 < 2; echo 2 <= 1; echo 3 == 3; echo 3 != 3; echo 1 < 2 == true; echo nil == false"), vec!["true", "false", "true", "false", "true", "false"]);
    assert_eq!(printed("echo -3; echo - -3; echo !true; echo !nil; echo +4"), vec!["-3", "3", "false", "true", "4"]);
    assert_eq!(printed("echo \"a\" + \"b\"; echo \"a\" < \"b\"; echo \"ab\" == \"a\" + \"b\""), vec!["ab", "true", "true"]);
    assert_eq!(printed("echo nil; echo (); echo true; echo \"\""), vec!["nil", "()", "true", ""]);
    assert_eq!(printed("echo 9223372036854775807"), vec!["9223372036854775807"]);
    assert_eq!(printed(""), Vec::<String>::new());
}

#[test]
fn and_and_or_leave_out_what_does_not_decide() {
    assert_eq!(printed("echo nil or 5; echo 0 and 7; echo false and missing; echo 1 or missing;"), vec!["5", "7", "false", "1"]);
    assert_eq!(printed("echo nil and 1 or 2; echo 1 and nil or 3; echo false or nil"), vec!["2", "3", "nil"]);
    let (error, _, _) = failure("echo true and missing;");
    assert!(matches!(error.kind(), ErrorKind::NameNotDefined(name) if name == "missing"));
}

#[test]
fn globals_are_declared_and_assigned() {
    assert_eq!(printed("var x = 1; x = x + 1; echo x; echo x = 5; echo x;"), vec!["2", "5", "5"]);
    assert_eq!(printed("let y = 2; var y = y * 2; y = y + 1; echo y"), vec!["5"]);
    let (error, trace, printed) = failure("let y = 1;\necho y;\ny = 2;\necho y;");
    assert!(matches!(error.kind(), ErrorKind::CantAssignImmutable));
    assert_eq!(printed, vec!["1"]);
    assert_eq!(trace, vec![Some(DebugSymbol::new(19, 24))]);
    let (error, trace, _) = failure("echo 1; echo zed + 1;");
    assert!(matches!(error.kind(), ErrorKind::NameNotDefined(name) if name == "zed"));
    assert_eq!(trace, vec![Some(DebugSymbol::new(13, 20))]);
    let (error, _, _) = failure("zed = 1;");
    assert!(matches!(error.kind(), ErrorKind::NameNotDefined(name) if name == "zed"));
}

#[test]
fn errors_of_running_programs() {
    let (error, trace, _) = failure("1 / 0");
    assert!(matches!(error.kind(), ErrorKind::DivideByZero));
    assert_eq!(trace, vec![Some(DebugSymbol::new(0, 5))]);
    let (error, _, _) = failure("1 % 0;");
    assert!(matches!(error.kind(), ErrorKind::DivideByZero));
    let (error, _, _) = failure("1 << -1;");
    assert!(matches!(error.kind(), ErrorKind::NegativeShiftCount));
    let (error, _, _) = failure("\"a\" + 1;");
    assert!(matches!(
        error.kind(),
        ErrorKind::InvalidBinaryOperand(TypeTag::String, TypeTag::Integer)
    ));
    let (error, _, _) = failure("echo 9223372036854775807 + 1;");
    assert!(matches!(error.kind(), ErrorKind::OverflowError));
    let (error, _, _) = failure("echo -\"a\";");
    assert!(matches!(error.kind(), ErrorKind::InvalidUnaryOperand(TypeTag::String)));
    let (error, _, _) = failure("echo ~nil;");
    assert!(matches!(error.kind(), ErrorKind::InvalidUnaryOperand(TypeTag::Nil)));
}

#[test]
fn a_failed_assertion_points_at_its_statement() {
    let source = "assert false;";
    let (error, trace, _) = failure(source);
    assert!(matches!(error.kind(), ErrorKind::AssertFailed));
    assert_eq!(error.traceback().len(), 1);
    assert_eq!(error.traceback()[0].chunk_id, 0);
    assert_eq!(trace, vec![Some(DebugSymbol::new(0, 13))]);
    let symbol = trace[0].unwrap();
    assert_eq!(&source[symbol.start()..symbol.end()], "assert false;");

    let (error, trace, before) = failure("echo 1;\n  assert 1 == 2;\necho 2;");
    assert!(matches!(error.kind(), ErrorKind::AssertFailed));
    assert_eq!(before, vec!["1"]);
    assert_eq!(trace, vec![Some(DebugSymbol::new(10, 24))]);
    assert_eq!(printed("assert 1 == 1; assert \"\"; echo 3"), vec!["3"]);
}

#[test]
fn the_prompt_keeps_its_variables() {
    let mut session = Session::new();
    let outcome = session.submit("var x = 1;");
    assert!(matches!(outcome.result, Ok(Flow::Return)));
    assert!(outcome.printed.is_empty());
    let outcome = session.submit("x + 1;");
    assert!(matches!(outcome.result, Ok(Flow::Return)));
    assert_eq!(outcome.printed, vec!["2"]);
    // a name that another program interned first is still the same variable
    let outcome = session.submit("var y = \"x\"; x = x + 41; y + \"!\"");
    assert_eq!(outcome.printed, vec!["x!"]);
    assert_eq!(session.submit("x").printed, vec!["42"]);
}

#[test]
fn the_prompt_waits_for_input_that_parses() {
    let parses = |text: &str| parse_source(text.chars().collect(), Interner::new()).ast.is_ok();
    let mut repl = Repl::new();
    let mut lines = vec!["echo (1 +", "2", ")"].into_iter();
    let mut submitted = None;
    while submitted.is_none() {
        let line = lines.next().expect("the prompt asked for a line too many");
        let action = match repl.on_line(classify_line(line)) {
            Action::TryParse => {
                let parsed = parses(repl.input());
                repl.on_parse(parsed)
            },
            other => other,
        };
        match action {
            Action::Submit => submitted = Some(repl.take_input()),
            Action::Prompt => {},
            other => panic!("unexpected {:?}", other),
        }
    }
    assert_eq!(submitted.as_deref(), Some("echo (1 +\n2\n)"));
    assert_eq!(Session::new().submit(submitted.as_deref().unwrap()).printed, vec!["3"]);

    // a block is not submitted before its brace is closed
    let mut repl = Repl::new();
    for line in ["if true {", "echo 1", "echo 2"] {
        assert_eq!(repl.on_line(classify_line(line)), Action::TryParse);
        let parsed = parses(repl.input());
        assert!(!parsed);
        assert_eq!(repl.on_parse(parsed), Action::Prompt);
    }
    assert_eq!(repl.on_line(classify_line("}")), Action::TryParse);
    let parsed = parses(repl.input());
    assert!(parsed);
    assert_eq!(repl.on_parse(parsed), Action::Submit);
    let input = repl.take_input();
    assert_eq!(input, "if true {\necho 1\necho 2\n}");
    assert_eq!(Session::new().submit(&input).printed, vec!["1", "2"]);

    // an input that does not parse is submitted by an empty line, and is an error
    let mut repl = Repl::new();
    assert_eq!(repl.on_line(classify_line("if true {")), Action::TryParse);
    let parsed = parses(repl.input());
    assert!(!parsed);
    assert_eq!(repl.on_parse(parsed), Action::Prompt);
    assert_eq!(repl.on_line(classify_line("")), Action::Submit);
    let input = repl.take_input();
    let errors = parse_source(input.chars().collect(), Interner::new()).ast.unwrap_err();
    assert_eq!(errors.len(), 1);
    assert_eq!(errors[0].kind, ParserErrorKind::ExpectedCloseBrace);

    // and so it is by a line that ends with a semicolon
    let mut repl = Repl::new();
    assert_eq!(repl.on_line(classify_line("while true {")), Action::TryParse);
    assert_eq!(repl.on_parse(false), Action::Prompt);
    assert_eq!(repl.on_line(classify_line("echo 1;")), Action::Submit);
    let input = repl.take_input();
    assert!(parse_source(input.chars().collect(), Interner::new()).ast.is_err());
}

#[test]
fn sources_with_errors_are_not_built() {
    match build_module("x = ;\ny = 1;".chars().collect(), Interner::new()) {
        Err(BuildErrors::Syntax(errors)) => {
            assert_eq!(errors.len(), 1);
            assert_eq!(errors[0].kind, ParserErrorKind::ExpectedStartOfExpr);
        },
        other => panic!("unexpected {:?}", other.map(|_| ())),
    }
    // more constants than ids
    let statements: Vec<StmtMeta> = (0..0x1_0001i64)
        .map(|value| {
            let meta = ExprMeta {
                expr: Expr::Atom(Atom::IntegerLiteral(value)),
                symbol: DebugSymbol::new(value as usize, value as usize + 1),
            };
            StmtMeta::new(Stmt::Expression(meta), DebugSymbol::new(value as usize, value as usize + 2))
        })
        .collect();
    let errors = compile(&statements, Interner::new()).err().unwrap();
    assert_eq!(errors.len(), 1);
    assert_eq!(errors[0].kind, CompileErrorKind::ConstPoolLimit);
    assert_eq!(errors[0].symbol, Some(DebugSymbol::new(0x1_0000, 0x1_0002)));
}

#[test]
fn the_compiled_code_is_a_run_of_instructions() {
    let compiled = build_module("var x = 1 + 2; echo x and nil or \"s\"; x = -x;".chars().collect(), Interner::new()).unwrap();
    let code = compiled.program.chunk(0).to_vec();
    let instructions = disassemble(&code).unwrap();
    let opcodes: Vec<OpCode> = instructions.iter().map(|instr| instr.opcode).collect();
    assert_eq!(
        opcodes,
        vec![
            OpCode::LoadConst,
            OpCode::LoadConst,
            OpCode::Add,
            OpCode::LoadConst,
            OpCode::InsertGlobalMut,
            OpCode::LoadConst,
            OpCode::LoadGlobal,
            OpCode::JumpIfFalse,
            OpCode::Pop,
            OpCode::Nil,
            OpCode::JumpIfTrue,
            OpCode::Pop,
            OpCode::LoadConst,
            OpCode::Echo,
            OpCode::LoadConst,
            OpCode::LoadGlobal,
            OpCode::Neg,
            OpCode::LoadConst,
            OpCode::StoreGlobal,
            OpCode::Pop,
            OpCode::Return,
        ]
    );
    // the name is one constant, however often it is used
    let names: Vec<u16> = instructions
        .iter()
        .filter(|instr| instr.opcode == OpCode::LoadConst)
        .map(|instr| instr.operand)
        .collect();
    assert_eq!(names, vec![0, 1, 2, 2, 3, 2, 2]);
    // every jump lands where an instruction starts
    for jump in instructions.iter().filter(|instr| instr.opcode.is_jump()) {
        let target = jump.offset + 3 + jump.operand as usize;
        assert!(instructions.iter().any(|instr| instr.offset == target), "{:?}", jump);
    }
    // the debug symbols come in the order of their instructions
    let entries = compiled.symbols.iter();
    for pair in entries.windows(2) {
        assert!(pair[0].0 < pair[1].0);
    }
    for (offset, symbol) in entries {
        assert!(instructions.iter().any(|instr| instr.offset == offset));
        assert!(symbol.is_some());
    }
}

#[test]
fn floats_are_left_to_the_host() {
    let float = |value: f64| Expr::Atom(Atom::FloatLiteral(value.to_le_bytes()));
    let sum = Expr::BinaryOp(BinaryOp::Add, Box::new(float(1.5)), Box::new(Expr::Atom(Atom::IntegerLiteral(2))));
    let statements = vec![StmtMeta::new(
        Stmt::Echo(ExprMeta { expr: sum, symbol: DebugSymbol::new(5, 12) }),
        DebugSymbol::new(0, 13),
    )];
    let compiled = compile(&statements, Interner::new()).ok().unwrap();
    let mut table = StringTable::new();
    let mut globals = GlobalEnv::new();
    let program = Program::load(compiled.program, &mut table);
    let mut vm = VirtualMachine::new(&program);
    assert!(matches!(vm.run(&mut globals, &mut table, 100), Ok(Flow::Host)));
    // the host finds the operands on the stack and computes
    let operands: Vec<f64> = vm
        .stack()
        .iter()
        .map(|value| match value {
            Variant::Float(bytes) => f64::from_le_bytes(*bytes),
            Variant::Integer(value) => *value as f64,
            other => panic!("unexpected {:?}", other),
        })
        .collect();
    assert_eq!(operands, vec![1.5, 2.0]);
    assert!(vm.resume(Variant::Float((operands[0] + operands[1]).to_le_bytes())));
    assert!(matches!(vm.run(&mut globals, &mut table, 100), Ok(Flow::Return)));
    assert_eq!(vm.output().iter().map(text_of).collect::<Vec<_>>(), vec!["3.5"]);
    assert!(!vm.resume(Variant::Nil));
}

#[test]
fn the_machine_stops_when_its_steps_are_used_up() {
    let compiled = build_module("echo 1; echo 2; echo 3;".chars().collect(), Interner::new()).unwrap();
    let mut table = StringTable::new();
    let mut globals = GlobalEnv::new();
    let program = Program::load(compiled.program, &mut table);
    let mut vm = VirtualMachine::new(&program);
    assert!(matches!(vm.run(&mut globals, &mut table, 3), Ok(Flow::Continue)));
    assert_eq!(vm.output().len(), 1);
    assert_eq!(vm.ip(), 5);
    assert!(matches!(vm.step(&mut globals, &mut table), Ok(Flow::Continue)));
    assert!(matches!(vm.run(&mut globals, &mut table, 0), Ok(Flow::Continue)));
    assert!(matches!(vm.run(&mut globals, &mut table, 1000), Ok(Flow::Return)));
    assert_eq!(vm.output().iter().map(text_of).collect::<Vec<_>>(), vec!["1", "2", "3"]);
    assert!(vm.stack().is_empty());
    // a program that has returned stays where it is
    assert!(matches!(vm.run(&mut globals, &mut table, 10), Ok(Flow::Return)));
    assert_eq!(TraceSite { chunk_id: 0, offset: 1 }, TraceSite { chunk_id: 0, offset: 1 });
}

#[test]
fn a_context_parses_one_source_after_another() {
    let mut context = ParseContext::new(Interner::new());
    let first = context.parse_ast(SourceText::from("var name = \"text\";".to_string())).unwrap();
    assert_eq!(first.len(), 1);
    let second = context.parse_ast(SourceText::File("echo name; echo other".chars().collect())).unwrap();
    assert_eq!(second.len(), 2);
    let errors = context.parse_ast(SourceText::String("echo )".to_string())).unwrap_err();
    assert_eq!(errors.len(), 1);
    // the strings of all of them, each once, in the order in which they were found
    let strings = context.into_interner();
    assert_eq!(strings.len(), 3);
    assert_eq!(strings.get("name").map(|symbol| symbol.to_usize()), Some(0));
    assert_eq!(strings.get("text").map(|symbol| symbol.to_usize()), Some(1));
    assert_eq!(strings.get("other").map(|symbol| symbol.to_usize()), Some(2));

    let module = ModuleSource::new("<cmd>", SourceType::String("echo 1".to_string()));
    assert!(matches!(module.source_text(), Some(SourceText::String(text)) if text == "echo 1"));
    let module = ModuleSource::new("script", SourceType::File("script.sph".to_string()));
    assert!(module.source_text().is_none());
}

#[test]
fn a_syntax_error_names_its_piece_of_the_source() {
    let source = "x = 1;\necho (1 + ;\ny = 2;";
    let parsed = parse_source(source.chars().collect(), Interner::new());
    let errors = parsed.ast.unwrap_err();
    assert_eq!(errors.len(), 1);
    assert_eq!(errors[0].kind, ParserErrorKind::ExpectedStartOfExpr);
    let symbol = error_symbol(&parsed.tokens, &errors[0]).unwrap();
    // the innermost construct that was being parsed: the operand that is not there
    assert_eq!((symbol.start(), symbol.end()), (17, 18));
    assert_eq!(&source[symbol.start()..symbol.end()], ";");
    assert!(error_symbol(&Vec::new(), &errors[0]).is_none());
}

fn expression_of(stmt: &Stmt) -> &ExprMeta {
    match stmt {
        Stmt::Expression(expr) | Stmt::Echo(expr) | Stmt::Assert(expr) => expr,
        Stmt::Declaration { init, .. } => init,
        Stmt::If { cond, .. } | Stmt::While { cond, .. } => cond,
        other => panic!("unexpected {:?}", other),
    }
}

/// The symbols of a statement and of what it holds, in their order.
fn symbols_of(meta: &StmtMeta, found: &mut Vec<DebugSymbol>) {
    found.push(*meta.debug_symbol());
    match meta.variant() {
        Stmt::Block(list) => {
            let mut at = list;
            while let StmtList::Cons(first, rest) = at {
                symbols_of(first, found);
                at = rest;
            }
        },
        Stmt::If { cond, then, otherwise } => {
            found.push(cond.symbol);
            symbols_of(then, found);
            if let Some(second) = otherwise {
                symbols_of(second, found);
            }
        },
        Stmt::While { cond, body } => {
            found.push(cond.symbol);
            symbols_of(body, found);
        },
        other => found.push(expression_of(other).symbol),
    }
}

#[test]
fn the_text_of_a_statement_with_statements_is_read_as_that_statement_again() {
    let source = "echo 0;\n  while i < 3 { if i == 1 { echo i; } else if i echo -i; i = i + 1 } ;\n{ } echo 4";
    let parsed = parse_source(source.chars().collect(), Interner::new());
    let ast = parsed.ast.unwrap();
    assert_eq!(ast.len(), 4);
    let mut strings = parsed.strings;
    for meta in &ast {
        let (start, end) = (meta.debug_symbol().start(), meta.debug_symbol().end());
        let again = parse_source(source[start..end].chars().collect(), strings);
        let found = again.ast.unwrap();
        assert_eq!(found.len(), 1);
        // the same statement, but for where it stands
        let (mut here, mut there) = (Vec::new(), Vec::new());
        symbols_of(meta, &mut here);
        symbols_of(&found[0], &mut there);
        let moved: Vec<DebugSymbol> =
            here.iter().map(|symbol| DebugSymbol::new(symbol.start() - start, symbol.end() - start)).collect();
        assert_eq!(there, moved);
        let plain = |text: String| {
            let mut out = String::new();
            let mut rest = text.as_str();
            // leave out the numbers behind `start:` and `end:`
            while let Some(at) = rest.find("DebugSymbol {") {
                let close = at + rest[at..].find('}').unwrap();
                out.push_str(&rest[..at]);
                rest = &rest[close + 1..];
            }
            out.push_str(rest);
            out
        };
        assert_eq!(plain(format!("{:?}", found[0].variant())), plain(format!("{:?}", meta.variant())));
        strings = again.strings;
    }
    assert_eq!(strings.len(), 1);
    let texts: Vec<&str> =
        ast.iter().map(|meta| &source[meta.debug_symbol().start()..meta.debug_symbol().end()]).collect();
    assert_eq!(
        texts,
        vec![
            "echo 0;",
            "while i < 3 { if i == 1 { echo i; } else if i echo -i; i = i + 1 } ;",
            "{ }",
            "echo 4",
        ]
    );
}

#[test]
fn the_text_of_a_node_is_read_as_that_node_again() {
    let source = "var total = 10;\n  echo total * (total + 1) ;\nassert !(total < 3) and true\ntotal = -total let s=\"a b\"";
    let parsed = parse_source(source.chars().collect(), Interner::new());
    let ast = parsed.ast.unwrap();
    let mut strings = parsed.strings;
    assert_eq!(ast.len(), 5);
    let texts: Vec<&str> = ast
        .iter()
        .map(|meta| &source[meta.debug_symbol().start()..meta.debug_symbol().end()])
        .collect();
    assert_eq!(
        texts,
        vec![
            "var total = 10;",
            "echo total * (total + 1) ;",
            "assert !(total < 3) and true",
            "total = -total",
            "let s=\"a b\"",
        ]
    );
    for (meta, text) in ast.iter().zip(texts) {
        let start = meta.debug_symbol().start();
        // the text of the statement is that statement
        let again = parse_source(text.chars().collect(), strings);
        let found = again.ast.unwrap();
        assert_eq!(found.len(), 1);
        assert_eq!(found[0].debug_symbol(), &DebugSymbol::new(0, text.len()));
        assert_eq!(std::mem::discriminant(found[0].variant()), std::mem::discriminant(meta.variant()));
        let (expr, other) = (expression_of(meta.variant()), expression_of(found[0].variant()));
        assert_eq!(format!("{:?}", other.expr), format!("{:?}", expr.expr));
        assert_eq!(other.symbol, DebugSymbol::new(expr.symbol.start() - start, expr.symbol.end() - start));

        // the text of its expression is that expression
        let text = &source[expr.symbol.start()..expr.symbol.end()];
        let again = parse_source(text.chars().collect(), again.strings);
        let found = again.ast.unwrap();
        assert_eq!(found.len(), 1);
        assert!(matches!(found[0].variant(), Stmt::Expression(..)));
        let other = expression_of(found[0].variant());
        assert_eq!(format!("{:?}", other.expr), format!("{:?}", expr.expr));
        assert_eq!(other.symbol, DebugSymbol::new(0, text.len()));
        strings = again.strings;
    }
    // reading the pieces interned no string
    assert_eq!(strings.len(), 3);
}

#[test]
fn statements_are_run_while_and_if_their_conditions_hold() {
    assert_eq!(
        printed("var i = 0; var sum = 0; while i < 5 { sum = sum + i; i = i + 1; } echo sum; echo i"),
        vec!["10", "5"]
    );
    assert_eq!(printed("if 1 < 2 { echo \"yes\"; } else { echo \"no\"; } echo 3"), vec!["yes", "3"]);
    assert_eq!(printed("if 2 < 1 { echo \"yes\"; } else { echo \"no\"; } echo 3"), vec!["no", "3"]);
    assert_eq!(printed("if nil { echo 1 } echo 2"), vec!["2"]);
    assert_eq!(printed("if 0 echo 1 else echo 2"), vec!["1"]);
    assert_eq!(printed("while false { echo 1 } echo 2"), vec!["2"]);
    assert_eq!(printed("{ echo 1; { echo 2 } {} echo 3; }"), vec!["1", "2", "3"]);
    // an else belongs to the nearest if
    let source = "var n = 7;
        if n < 5 { echo \"small\" } else if n < 10 { echo \"middle\" } else { echo \"large\" }
        if n < 5 if n < 3 echo \"tiny\" else echo \"small\"";
    assert_eq!(printed(source), vec!["middle"]);
    // loops in loops
    let source = "var i = 0; var found = 0;
        while i < 4 {
            var j = 0;
            while j < 4 { if i * j == 6 { found = found + 1 } j = j + 1 }
            i = i + 1
        }
        echo found;";
    assert_eq!(printed(source), vec!["2"]);
    // an error inside a loop ends the program where it is
    let (error, trace, before) = failure("var i = 3;\nwhile true {\n  echo 6 / i;\n  i = i - 1\n}");
    assert!(matches!(error.kind(), ErrorKind::DivideByZero));
    assert_eq!(before, vec!["2", "3", "6"]);
    assert_eq!(trace, vec![Some(DebugSymbol::new(31, 36))]);
}

#[test]
fn a_loop_jumps_to_where_instructions_start() {
    let source = "var i = 0; while i < 3 { if i == 1 { echo i } else { echo -i } i = i + 1 }";
    let compiled = build_module(source.chars().collect(), Interner::new()).unwrap();
    let code = compiled.program.chunk(0).to_vec();
    let instructions = disassemble(&code).unwrap();
    let jumps: Vec<_> = instructions.iter().filter(|instr| instr.opcode.is_jump()).collect();
    assert_eq!(
        jumps.iter().map(|instr| instr.opcode).collect::<Vec<_>>(),
        vec![OpCode::Jump, OpCode::Jump, OpCode::JumpIfFalse, OpCode::JumpIfFalse, OpCode::Jump, OpCode::Jump]
    );
    for jump in &jumps {
        // the distance is a signed number of 16 bits, counted from behind the jump
        let target = (jump.offset as i64 + 3 + (jump.operand as i16) as i64) as usize;
        assert!(
            target == code.len() || instructions.iter().any(|instr| instr.offset == target),
            "{:?}",
            jump
        );
    }
    // the last jump goes back to the condition of the loop
    let back = jumps[5];
    assert!((back.operand as i16) < 0);
    let target = (back.offset as i64 + 3 + (back.operand as i16) as i64) as usize;
    let first_of_condition = instructions.iter().find(|instr| instr.offset == target).unwrap();
    assert_eq!(first_of_condition.opcode, OpCode::LoadConst);
    assert_eq!(first_of_condition.offset, jumps[1].offset + 3);
    assert!(jumps[..5].iter().all(|jump| (jump.operand as i16) > 0));
    // the first jump goes over the one that leaves the loop, which goes behind the loop
    assert_eq!(jumps[0].operand, 3);
    assert_eq!(jumps[1].offset + 3 + jumps[1].operand as usize, code.len() - 1);
}

#[test]
fn statements_that_are_not_compiled_are_errors() {
    let text = |value: i64, at: usize| ExprMeta {
        expr: Expr::Atom(Atom::IntegerLiteral(value)),
        symbol: DebugSymbol::new(at, at + 1),
    };
    let statements = vec![
        StmtMeta::new(Stmt::Echo(text(1, 5)), DebugSymbol::new(0, 7)),
        StmtMeta::new(Stmt::Break, DebugSymbol::new(8, 13)),
        StmtMeta::new(
            Stmt::While {
                cond: text(2, 20),
                body: Box::new(StmtMeta::new(Stmt::Continue, DebugSymbol::new(22, 30))),
            },
            DebugSymbol::new(14, 30),
        ),
        StmtMeta::new(Stmt::Return(None), DebugSymbol::new(31, 37)),
        StmtMeta::new(Stmt::Echo(text(3, 43)), DebugSymbol::new(38, 45)),
    ];
    let errors = compile(&statements, Interner::new()).err().unwrap();
    // a `continue` in a loop is compiled, a `break` outside of one is not
    assert_eq!(
        errors,
        vec![
            CompileError { kind: CompileErrorKind::NotInLoop, symbol: Some(DebugSymbol::new(8, 13)) },
            CompileError { kind: CompileErrorKind::NotSupported, symbol: Some(DebugSymbol::new(31, 37)) },
        ]
    );
    match build_module("echo 1; if true { continue }".chars().collect(), Interner::new()) {
        Err(BuildErrors::Compile(errors)) => assert_eq!(
            errors,
            vec![CompileError { kind: CompileErrorKind::NotInLoop, symbol: Some(DebugSymbol::new(8, 28)) }]
        ),
        other => panic!("unexpected {:?}", other.map(|_| ())),
    }
    let errors = parse_source("if true { echo 1".chars().collect(), Interner::new()).ast.unwrap_err();
    assert_eq!(errors[0].kind, ParserErrorKind::ExpectedCloseBrace);
    let errors = parse_source("while".chars().collect(), Interner::new()).ast.unwrap_err();
    assert_eq!(errors[0].kind, ParserErrorKind::ExpectedStartOfExpr);
    let errors = parse_source("if 1".chars().collect(), Interner::new()).ast.unwrap_err();
    assert_eq!(errors[0].kind, ParserErrorKind::ExpectedStartOfExpr);
}

#[test]
fn loops_are_left_and_gone_on_with() {
    let source = "var i = 0;
        while true {
            i = i + 1
            if i == 2 continue
            if i > 4 { break }
            echo i
        }
        echo \"done\"";
    assert_eq!(printed(source), vec!["1", "3", "4", "done"]);
    // a break leaves the nearest loop only
    let source = "var i = 0; var seen = 0;
        while i < 3 {
            var j = 0;
            while true { j = j + 1; if j > i break; seen = seen + 1 }
            i = i + 1
        }
        echo seen; echo i";
    assert_eq!(printed(source), vec!["3", "3"]);
    // nothing is left on the stack, however the loop was left
    let compiled = build_module("while true { if 1 { break } }".chars().collect(), Interner::new()).unwrap();
    let mut table = StringTable::new();
    let mut globals = GlobalEnv::new();
    let program = Program::load(compiled.program, &mut table);
    let mut vm = VirtualMachine::new(&program);
    assert!(matches!(vm.run(&mut globals, &mut table, 1000), Ok(Flow::Return)));
    assert!(vm.stack().is_empty());
    // a loop that does not end uses up its steps
    let compiled = build_module("while true { continue }".chars().collect(), Interner::new()).unwrap();
    let program = Program::load(compiled.program, &mut table);
    let mut vm = VirtualMachine::new(&program);
    assert!(matches!(vm.run(&mut globals, &mut table, 10_000), Ok(Flow::Continue)));
    assert!(vm.stack().len() <= 1);
}

#[test]
fn expressions_that_are_not_compiled_are_errors() {
    let statement = |expr: Expr, at: usize| {
        StmtMeta::new(
            Stmt::Expression(ExprMeta { expr, symbol: DebugSymbol::new(at, at + 4) }),
            DebugSymbol::new(at, at + 5),
        )
    };
    let number = || Box::new(Expr::Atom(Atom::IntegerLiteral(1)));
    let statements = vec![
        statement(Expr::Atom(Atom::Self_), 0),
        statement(Expr::Atom(Atom::Nil), 10),
        statement(Expr::Assignment(number(), number()), 20),
        statement(Expr::UnaryOp(UnaryOp::Neg, Box::new(Expr::Atom(Atom::Super))), 30),
    ];
    let errors = compile(&statements, Interner::new()).err().unwrap();
    assert_eq!(
        errors,
        vec![
            CompileError { kind: CompileErrorKind::NotSupported, symbol: Some(DebugSymbol::new(0, 5)) },
            CompileError { kind: CompileErrorKind::NotSupported, symbol: Some(DebugSymbol::new(20, 25)) },
            CompileError { kind: CompileErrorKind::NotSupported, symbol: Some(DebugSymbol::new(30, 35)) },
        ]
    );
    assert_eq!(CompileErrorKind::NotSupported.message(), "statement not supported");
    assert_eq!(CompileErrorKind::NotInLoop.message(), "not inside a loop");
}
