use toy_compiler::error::CompileError;
use toy_compiler::lexer::Lexer;
use toy_compiler::parser::Parser;
use toy_compiler::transpiler::{Instructions, Registers, Transpiler, MAX_STACK_SIZE};
use toy_compiler::utterances::{ArithmeticOperator, Construct, Kind};

const STAMP: &str = "12:00:00 /  1 Jan 2024";
const HEADER: &str = "# 12:00:00 /  1 Jan 2024\n\nglobal _start\n_start:\n";

fn parse(src: &str) -> Result<Construct, CompileError> {
    let mut parser = Parser::new(Lexer::new(src));
    parser.program()
}

fn compile_with(src: &str, transpiler: &mut Transpiler) -> Result<String, CompileError> {
    let ast = parse(src)?;
    transpiler.construct_stamped(STAMP, ast)
}

fn compile(src: &str) -> Result<String, CompileError> {
    compile_with(src, &mut Transpiler::new())
}

fn count(text: &str, pattern: &str) -> usize {
    text.matches(pattern).count()
}

#[test]
fn scenario_let_then_exit() {
    let mut t = Transpiler::new();
    let out = compile_with("let x = 5; syscall exit x;", &mut t).unwrap();
    let expected = format!(
        "{}{}{}{}",
        HEADER,
        "\tmov rax, 5\n\tpush rax\n\n",
        "\tpush QWORD [rsp+0]\n\n",
        "\tmov rax, 60\n\tpop rdi\n\n\tsyscall\n\n"
    );
    assert_eq!(out, expected);
    assert_eq!(t.stack_len(), 1);
}

#[test]
fn scenario_explicit_exit_before_default_exit() {
    let mut t = Transpiler::new().with_default_exit(true);
    let out = compile_with("syscall exit 100;", &mut t).unwrap();
    let explicit = "\tmov rax, 100\n\tpush rax\n\n\tmov rax, 60\n\tpop rdi\n\n\tsyscall\n\n";
    let default = "\tmov rax, 0\n\tpush rax\n\n\tmov rax, 60\n\tpop rdi\n\n\tsyscall\n\n";
    assert_eq!(out, format!("{}{}{}", HEADER, explicit, default));
    assert!(out.find(explicit).unwrap() < out.find(default).unwrap());
}

#[test]
fn default_exit_is_off_by_default() {
    let out = compile("syscall exit 100;").unwrap();
    assert_eq!(count(&out, "\tsyscall\n"), 1);
}

#[test]
fn scenario_redeclaration_aborts() {
    match compile("let a = 1; let a = 2; syscall exit a;") {
        Err(CompileError::AlreadyDeclared { alias }) => assert_eq!(alias, "a"),
        other => panic!("unexpected {:?}", other),
    }
}

#[test]
fn scenario_undeclared_alias_aborts() {
    match compile("let x = 1; syscall exit y;") {
        Err(CompileError::UndeclaredAlias { alias }) => assert_eq!(alias, "y"),
        other => panic!("unexpected {:?}", other),
    }
}

#[test]
fn pushes_less_pops_is_final_depth() {
    let src = "let a = 1; let b = a + 2; syscall exit a + b + 3; let c = b;";
    let mut t = Transpiler::new();
    let out = compile_with(src, &mut t).unwrap();
    let pushes = count(&out, "\tpush ");
    let pops = count(&out, "\tpop ");
    assert_eq!(pushes - pops, t.stack_len());
    assert_eq!(t.stack_len(), 3);
    assert!(t.stack_len() <= t.max_stack_size());
}

#[test]
fn alias_offset_follows_depth() {
    let out = compile("let a = 7; syscall exit a + a;").unwrap();
    // first read at depth 1, second at depth 2: offsets 0 and 8 bytes
    assert!(out.contains("\tpush QWORD [rsp+0]\n"));
    assert!(out.contains("\tpush QWORD [rsp+8]\n"));
    let out = compile("let a = 1; let b = 2; let c = 3; syscall exit a;").unwrap();
    assert!(out.contains("\tpush QWORD [rsp+16]\n"));
}

#[test]
fn redeclaration_regardless_of_value() {
    for src in ["let a = 1; let a = a;", "let a = 1; let a = 1 + 2;", "let a = 9; let b = 1; let a = b;"] {
        match compile(src) {
            Err(CompileError::AlreadyDeclared { alias }) => assert_eq!(alias, "a"),
            other => panic!("unexpected {:?}", other),
        }
    }
}

#[test]
fn undeclared_alias_in_operation() {
    match compile("syscall exit 1 + z;") {
        Err(CompileError::UndeclaredAlias { alias }) => assert_eq!(alias, "z"),
        other => panic!("unexpected {:?}", other),
    }
    // an alias is declared only once its own value is computed
    match compile("let q = q;") {
        Err(CompileError::UndeclaredAlias { alias }) => assert_eq!(alias, "q"),
        other => panic!("unexpected {:?}", other),
    }
}

#[test]
fn empty_program_is_refused() {
    assert!(matches!(parse(""), Err(CompileError::NoStatementsFound)));
    assert!(matches!(
        parse("  // nothing here\n /* nor here */ \t"),
        Err(CompileError::NoStatementsFound)
    ));
}

#[test]
fn unimplemented_operators_abort() {
    for (src, op) in [
        ("syscall exit 1 - 2;", ArithmeticOperator::Sub),
        ("syscall exit 1 * 2;", ArithmeticOperator::Mul),
        ("let a = 4; syscall exit a / 2;", ArithmeticOperator::Div),
    ] {
        match compile(src) {
            Err(CompileError::UnimplementedOperator { operator }) => assert_eq!(operator, op),
            other => panic!("unexpected {:?}", other),
        }
    }
}

#[test]
fn one_add_per_plus() {
    let out = compile("syscall exit 1 + 2;").unwrap();
    assert_eq!(count(&out, "\tadd "), 1);
    assert!(out.contains("\tpop rax\n\n\tpop rbx\n\n\tadd rax, rbx\n\tpush rax\n\n"));
    let out = compile("let a = 1; syscall exit a + 2 + a + 4;").unwrap();
    assert_eq!(count(&out, "\tadd "), 3);
}

#[test]
fn operations_nest_to_the_right() {
    match parse("syscall exit 1 - 2 + 3;").unwrap() {
        Construct::Program(statements) => {
            assert_eq!(statements.len(), 1);
            assert_eq!(statements[0].to_text(), "STATEMENT SYSCALL EXIT (1 - (2 + 3))");
        }
    }
}

#[test]
fn pretty_printer_layout() {
    let ast = parse("let x = 5; syscall exit x + 1;").unwrap();
    assert_eq!(
        ast.to_text(),
        "CONSTRUCT\n  STATEMENT LET x ASSIGN 5;\n  STATEMENT SYSCALL EXIT (x + 1)\n"
    );
}

#[test]
fn number_bounds() {
    let out = compile("syscall exit 4294967295;").unwrap();
    assert!(out.contains("\tmov rax, 4294967295\n"));
    assert!(matches!(
        compile("syscall exit 4294967296;"),
        Err(CompileError::InvalidNumber { position: 13 })
    ));
    let out = compile("syscall exit 007;").unwrap();
    assert!(out.contains("\tmov rax, 7\n"));
}

#[test]
fn lexical_error_position() {
    assert!(matches!(compile("let x = 5 $;"), Err(CompileError::Lexical { position: 10 })));
    assert!(matches!(compile("let x = $;"), Err(CompileError::Lexical { position: 8 })));
    // a carriage return is not whitespace
    assert!(matches!(compile("let x = 1;\r\n"), Err(CompileError::Lexical { position: 10 })));
}

#[test]
fn syntax_errors() {
    assert!(matches!(
        compile("x = 5;"),
        Err(CompileError::UnexpectedStatement { found: Kind::AliasSnakeCase, position: 0 })
    ));
    assert!(matches!(
        compile("syscall print 1;"),
        Err(CompileError::UnknownSyscall { position: 8 })
    ));
    assert!(matches!(
        compile("let 5 = 1;"),
        Err(CompileError::UnexpectedToken {
            expected: Kind::AliasSnakeCase,
            found: Kind::Number,
            position: 4
        })
    ));
    assert!(matches!(
        compile("let x 1;"),
        Err(CompileError::UnexpectedToken { expected: Kind::Assign, found: Kind::Number, position: 6 })
    ));
    assert!(matches!(compile("let x = 5"), Err(CompileError::UnexpectedEnd)));
    assert!(matches!(
        compile("let x = ;"),
        Err(CompileError::UnexpectedInExpression { found: Kind::SemiColon, position: 8 })
    ));
    assert!(matches!(
        compile("let x = 5 5;"),
        Err(CompileError::UnexpectedInExpression { found: Kind::Number, position: 10 })
    ));
}

#[test]
fn comments_are_skipped() {
    let out = compile("// first\nlet x = 1; /* block */ syscall exit x; // done").unwrap();
    assert_eq!(count(&out, "\tsyscall\n"), 1);
    // a block comment cannot hold a star: the slash is then division
    assert!(matches!(
        compile("/* a * b */ let x = 1;"),
        Err(CompileError::UnexpectedStatement { found: Kind::Div, position: 0 })
    ));
}

#[test]
fn stack_bound() {
    let mut src = String::new();
    for i in 0..MAX_STACK_SIZE {
        src.push_str(&format!("let v{} = {};", i, i));
    }
    let mut t = Transpiler::new();
    compile_with(&src, &mut t).unwrap();
    assert_eq!(t.stack_len(), MAX_STACK_SIZE);
    src.push_str("let w = 1;");
    assert!(matches!(compile(&src), Err(CompileError::StackOverflow)));
}

#[test]
fn stack_underflow() {
    let mut t = Transpiler::new();
    assert!(matches!(
        t.instructions(vec![Instructions::Pop(Registers::Rax.to_string())]),
        Err(CompileError::StackUnderflow)
    ));
}

#[test]
fn instruction_text() {
    let mut t = Transpiler::new();
    t.instructions(vec![
        Instructions::Mov("rbx".to_string(), 42),
        Instructions::Push("rbx".to_string()),
        Instructions::Add("rax".to_string(), "rbx".to_string()),
    ])
    .unwrap();
    assert_eq!(t.output(), "\tmov rbx, 42\n\tpush rbx\n\tadd rax, rbx\n\n");
    assert_eq!(t.stack_len(), 1);
    t.instructions(vec![Instructions::Syscall]).unwrap();
    assert_eq!(
        t.output(),
        "\tmov rbx, 42\n\tpush rbx\n\tadd rax, rbx\n\n\tmov rax, 60\n\tpop rdi\n\n\tsyscall\n\n"
    );
    assert_eq!(t.stack_len(), 0);
}

#[test]
fn empty_program_is_refused_by_code_generation() {
    let mut t = Transpiler::new();
    assert!(matches!(
        t.construct_stamped(STAMP, Construct::Program(vec![])),
        Err(CompileError::NoStatementsFound)
    ));
    let mut t = Transpiler::new().with_default_exit(true);
    assert!(matches!(t.construct(Construct::Program(vec![])), Err(CompileError::NoStatementsFound)));
}

#[test]
fn register_names() {
    assert_eq!(Registers::Rsp.to_string(), "rsp");
    assert_eq!(Registers::Rax.to_string(), "rax");
    assert_eq!(Registers::Rbx.to_string(), "rbx");
    assert_eq!(Registers::Rdi.name(), "rdi");
}

#[test]
fn lexer_hands_out_tokens() {
    let mut lexer = Lexer::new("let letter = 42;");
    assert!(matches!(lexer.peek(), Some(Ok(Kind::KeywordLet))));
    assert!(matches!(lexer.next(), Some(Ok(Kind::KeywordLet))));
    assert_eq!(lexer.slice(), "let");
    assert!(matches!(lexer.next(), Some(Ok(Kind::AliasSnakeCase))));
    assert_eq!(lexer.slice(), "letter");
    assert!(matches!(lexer.next(), Some(Ok(Kind::Assign))));
    assert!(matches!(lexer.next(), Some(Ok(Kind::Number))));
    assert_eq!(lexer.slice(), "42");
    assert!(matches!(lexer.next(), Some(Ok(Kind::SemiColon))));
    assert!(lexer.next().is_none());
    let mut lexer = Lexer::new("syscall (){}+-*/ @");
    let mut kinds = Vec::new();
    while let Some(Ok(k)) = lexer.next() {
        kinds.push(k);
    }
    assert_eq!(
        kinds,
        vec![
            Kind::SystemCall,
            Kind::ParenthesisOpen,
            Kind::ParenthesisClose,
            Kind::BracketOpen,
            Kind::BracketClose,
            Kind::Add,
            Kind::Sub,
            Kind::Mul,
            Kind::Div
        ]
    );
    assert!(matches!(lexer.next(), Some(Err(CompileError::Lexical { position: 17 }))));
}

#[test]
fn header_carries_local_time() {
    let mut t = Transpiler::new();
    let ast = parse("syscall exit 0;").unwrap();
    let out = t.construct(ast).unwrap();
    let first = out.lines().next().unwrap();
    assert!(first.starts_with("# "));
    assert!(first.contains(" / "));
    assert!(first.len() > "# ".len() + " / ".len());
    assert!(out.contains("\nglobal _start\n_start:\n"));
}

#[test]
fn each_program_starts_afresh() {
    let mut t = Transpiler::new();
    compile_with("let a = 1;", &mut t).unwrap();
    assert_eq!(t.stack_len(), 1);
    let second = compile_with("syscall exit 3;", &mut t).unwrap();
    assert!(second.starts_with(HEADER));
    assert_eq!(count(&second, "# "), 1);
    assert_eq!(t.stack_len(), 0);
    // an alias of an earlier program is not declared in a later one
    match compile_with("syscall exit a;", &mut t) {
        Err(CompileError::UndeclaredAlias { alias }) => assert_eq!(alias, "a"),
        other => panic!("unexpected {:?}", other),
    }
}

#[test]
fn redeclared_alias_keeps_its_slot() {
    let mut t = Transpiler::new();
    let ast = parse("let a = 1; let b = 2;").unwrap();
    t.construct_stamped(STAMP, ast).unwrap();
    let before = t.output().to_string();
    let again = match parse("let a = 5 + 6;").unwrap() {
        Construct::Program(mut v) => v.remove(0),
    };
    match t.statement(&again) {
        Err(CompileError::AlreadyDeclared { alias }) => assert_eq!(alias, "a"),
        other => panic!("unexpected {:?}", other),
    }
    assert_eq!(t.output(), before);
    assert_eq!(t.stack_len(), 2);
    let read = match parse("syscall exit a;").unwrap() {
        Construct::Program(mut v) => v.remove(0),
    };
    t.statement(&read).unwrap();
    assert!(t.output().ends_with("\tpush QWORD [rsp+8]\n\n\tmov rax, 60\n\tpop rdi\n\n\tsyscall\n\n"));
}

#[test]
fn final_depth_is_number_of_lets() {
    let mut t = Transpiler::new().with_default_exit(true);
    let out = compile_with("let a = 1; syscall exit a; let b = a + a; let c = 2 + b;", &mut t).unwrap();
    assert_eq!(t.stack_len(), 3);
    assert_eq!(count(&out, "\tpush ") - count(&out, "\tpop "), 3);
}
