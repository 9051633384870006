use sphinx_lang::lexer::language::language_tokenizer;
use sphinx_lang::lexer::lexer::Span;
use sphinx_lang::lexer::token::Token;
use sphinx_lang::parser::binop::BinaryOp;
use sphinx_lang::parser::errors::{ContextTag, ParserErrorKind};
use sphinx_lang::parser::expr::{Expr, UnaryOp};
use sphinx_lang::parser::parser::{parse_program, Lexed, SyntaxError};
use sphinx_lang::parser::primary::Atom;
use sphinx_lang::parser::stmt::{Stmt, StmtMeta};
use sphinx_lang::debug::symbol::DebugSymbol;
use sphinx_lang::runtime::strings::Interner;

fn lex(source: &str) -> (Vec<Lexed>, Interner) {
    let mut tokenizer = language_tokenizer(source.chars().collect(), Interner::new());
    let tokens = tokenizer.tokenize();
    (tokens, tokenizer.into_strings())
}

fn parse(source: &str) -> (Vec<Result<StmtMeta, SyntaxError>>, Interner) {
    let (tokens, strings) = lex(source);
    (parse_program(&tokens), strings)
}

/// An expression written out with every operation in parentheses.
fn shape(expr: &Expr, strings: &Interner) -> String {
    match expr {
        Expr::Atom(Atom::Nil) => "nil".to_string(),
        Expr::Atom(Atom::EmptyTuple) => "()".to_string(),
        Expr::Atom(Atom::BooleanLiteral(value)) => value.to_string(),
        Expr::Atom(Atom::IntegerLiteral(value)) => value.to_string(),
        Expr::Atom(Atom::Identifier(name)) => strings.resolve(*name).unwrap().to_string(),
        Expr::Atom(Atom::StringLiteral(text)) => format!("{:?}", strings.resolve(*text).unwrap()),
        Expr::Atom(Atom::Group(inner)) => format!("[{}]", shape(inner, strings)),
        Expr::UnaryOp(op, operand) => format!("({:?} {})", op, shape(operand, strings)),
        Expr::BinaryOp(op, lhs, rhs) => {
            format!("({} {} {})", shape(lhs, strings), op.symbol(), shape(rhs, strings))
        },
        Expr::Assignment(target, value) => {
            format!("({} = {})", shape(target, strings), shape(value, strings))
        },
        other => panic!("unexpected {:?}", other),
    }
}

fn expression_shape(source: &str) -> String {
    let (statements, strings) = parse(source);
    assert_eq!(statements.len(), 1, "{:?}", statements);
    match statements[0].as_ref().unwrap().variant() {
        Stmt::Expression(meta) => shape(&meta.expr, &strings),
        other => panic!("unexpected {:?}", other),
    }
}

#[test]
fn the_language_is_scanned() {
    let (tokens, strings) = lex("var x1 = 10;\necho x1 * \"a b\" <= iffy");
    let tokens: Vec<_> = tokens.into_iter().map(|item| item.unwrap()).collect();
    let kinds: Vec<Token> = tokens.iter().map(|out| out.token).collect();
    let x1 = strings.get("x1").unwrap();
    let text = strings.get("a b").unwrap();
    let iffy = strings.get("iffy").unwrap();
    assert_eq!(
        kinds,
        vec![
            Token::Var,
            Token::Identifier(x1),
            Token::OpAssign,
            Token::IntegerLiteral(10),
            Token::Semicolon,
            Token::Echo,
            Token::Identifier(x1),
            Token::OpMul,
            Token::StringLiteral(text),
            Token::OpLE,
            Token::Identifier(iffy),
            Token::EOF,
        ]
    );
    assert_eq!(strings.len(), 3);
    assert_eq!(tokens[1].location, Span { index: 4, length: 2 });
    assert_eq!(tokens[3].location, Span { index: 9, length: 2 });
    assert_eq!(tokens[4].location, Span { index: 11, length: 1 });
    assert_eq!(tokens[8].location, Span { index: 23, length: 5 });
    assert_eq!(tokens[5].lineno, 2);
    assert_eq!(tokens[11].location, Span { index: 36, length: 0 });
}

#[test]
fn nothing_is_lost_between_tokens() {
    let (tokens, _) = lex("if(x==1)y=-2;");
    let kinds: Vec<Token> = tokens.iter().map(|item| item.as_ref().unwrap().token).collect();
    assert!(matches!(
        kinds.as_slice(),
        [
            Token::If,
            Token::OpenParen,
            Token::Identifier(_),
            Token::OpEQ,
            Token::IntegerLiteral(1),
            Token::CloseParen,
            Token::Identifier(_),
            Token::OpAssign,
            Token::OpSub,
            Token::IntegerLiteral(2),
            Token::Semicolon,
            Token::EOF
        ]
    ));
    let mut at = 0;
    for item in tokens.iter() {
        let out = item.as_ref().unwrap();
        assert_eq!(out.location.index, at);
        at += out.location.length;
    }
    assert_eq!(at, 13);
}

#[test]
fn keywords_and_names_are_told_apart() {
    let words = [
        ("and", Token::And),
        ("or", Token::Or),
        ("true", Token::True),
        ("false", Token::False),
        ("nil", Token::Nil),
        ("let", Token::Let),
        ("var", Token::Var),
        ("if", Token::If),
        ("else", Token::Else),
        ("while", Token::While),
        ("for", Token::For),
        ("in", Token::In),
        ("fun", Token::Fun),
        ("class", Token::Class),
        ("self", Token::Self_),
        ("super", Token::Super),
        ("echo", Token::Echo),
        ("assert", Token::Assert),
        ("return", Token::Return),
        ("break", Token::Break),
        ("continue", Token::Continue),
    ];
    for (word, token) in words {
        // the keyword by itself, and with something behind it
        for source in [word.to_string(), format!("{} ", word), format!("{};", word), format!("{}\n(", word)] {
            let (tokens, _) = lex(&source);
            assert_eq!(tokens[0].as_ref().unwrap().token, token, "{:?}", source);
            assert_eq!(tokens[0].as_ref().unwrap().location.length, word.len());
        }
        // a word that goes on is a name
        for source in [format!("{}_x", word), format!("{}s", word), format!("{}9 ", word), format!("x{}", word)] {
            let (tokens, strings) = lex(&source);
            let name = source.trim_end();
            assert_eq!(
                tokens[0].as_ref().unwrap().token,
                Token::Identifier(strings.get(name).unwrap()),
                "{:?}",
                source
            );
            assert_eq!(tokens[0].as_ref().unwrap().location.length, name.len());
        }
    }
}

#[test]
fn literals_that_do_not_end_are_errors() {
    let (tokens, _) = lex("\"abc");
    assert_eq!(tokens[0].as_ref().unwrap_err().message, "could not parse symbol");
    assert!(matches!(tokens[1], Ok(ref out) if out.token == Token::EOF));
    let (tokens, _) = lex("99999999999999999999 1");
    assert_eq!(tokens[0].as_ref().unwrap_err().location, Span { index: 0, length: 20 });
    assert_eq!(tokens[1].as_ref().unwrap().token, Token::IntegerLiteral(1));
    let (tokens, _) = lex("9223372036854775808");
    assert!(tokens[0].is_err());
    let (tokens, _) = lex("9223372036854775807");
    assert_eq!(tokens[0].as_ref().unwrap().token, Token::IntegerLiteral(i64::MAX));
    let (tokens, _) = lex("#");
    assert_eq!(tokens[0].as_ref().unwrap_err().location, Span { index: 0, length: 1 });
}

#[test]
fn operators_bind_by_their_levels() {
    assert_eq!(expression_shape("1 + 2 * 3"), "(1 + (2 * 3))");
    assert_eq!(expression_shape("a or b and c"), "(a or (b and c))");
    assert_eq!(expression_shape("a == b < c"), "((a == b) < c)");
    assert_eq!(expression_shape("1 - 2 - 3"), "((1 - 2) - 3)");
    assert_eq!(expression_shape("1 * 2 + 3 * 4"), "((1 * 2) + (3 * 4))");
    assert_eq!(expression_shape("a | b ^ c & d << e + f * g"), "(a | (b ^ (c & (d << (e + (f * g))))))");
    assert_eq!(expression_shape("a * b + c << d & e ^ f | g"), "((((((a * b) + c) << d) & e) ^ f) | g)");
    assert_eq!(expression_shape("a < b and c > d or e"), "(((a < b) and (c > d)) or e)");
    assert_eq!(expression_shape("-a * !b"), "((Neg a) * (Not b))");
    assert_eq!(expression_shape("- - 1"), "(Neg (Neg 1))");
    assert_eq!(expression_shape("(1 + 2) * 3"), "([(1 + 2)] * 3)");
    assert_eq!(expression_shape("x = y = 1 + 2"), "(x = (y = (1 + 2)))");
    assert_eq!(expression_shape("\"a\" + 1"), "(\"a\" + 1)");
    assert_eq!(expression_shape("() == nil"), "(() == nil)");
    assert_eq!(expression_shape("true != false;"), "(true != false)");
}

#[test]
fn a_parse_error_does_not_end_the_pass() {
    let (statements, strings) = parse("x = ;\ny = 1;");
    assert_eq!(statements.len(), 2);
    assert_eq!(
        statements[0].as_ref().unwrap_err(),
        &SyntaxError {
            kind: ParserErrorKind::ExpectedStartOfExpr,
            context: ContextTag::Atom,
            start: 2,
            at: 2
        }
    );
    let valid = statements[1].as_ref().unwrap();
    match valid.variant() {
        Stmt::Expression(meta) => {
            assert_eq!(shape(&meta.expr, &strings), "(y = 1)");
            assert_eq!(meta.symbol, DebugSymbol::new(6, 11));
        },
        other => panic!("unexpected {:?}", other),
    }
    assert_eq!(valid.debug_symbol(), &DebugSymbol::new(6, 12));
    let errors = statements.iter().filter(|item| item.is_err()).count();
    assert_eq!(errors, 1);
}

#[test]
fn errors_of_the_parser() {
    let kinds = |source: &str| -> Vec<Result<(), (ParserErrorKind, ContextTag, usize, usize)>> {
        parse(source)
            .0
            .into_iter()
            .map(|item| item.map(|_| ()).map_err(|e| (e.kind, e.context, e.start, e.at)))
            .collect()
    };
    assert_eq!(
        kinds("(1 + 2; echo 3"),
        vec![Err((ParserErrorKind::ExpectedCloseParen, ContextTag::Group, 0, 4)), Ok(())]
    );
    assert_eq!(
        kinds("var = 1; let y = 2"),
        vec![Err((ParserErrorKind::ExpectedIdentifier, ContextTag::Statement, 0, 1)), Ok(())]
    );
    assert_eq!(
        kinds("1 = 2; x"),
        vec![Err((ParserErrorKind::InvalidAssignmentLHS, ContextTag::AssignmentExpr, 0, 1)), Ok(())]
    );
    assert_eq!(
        kinds("echo # 1; echo 2;"),
        vec![Err((ParserErrorKind::LexerError, ContextTag::Token, 1, 1)), Ok(())]
    );
    assert_eq!(
        kinds("echo ) ) echo 1"),
        vec![Err((ParserErrorKind::ExpectedStartOfExpr, ContextTag::Atom, 1, 1)), Ok(())]
    );
    assert_eq!(kinds("var x"), vec![Err((ParserErrorKind::ExpectedStartOfExpr, ContextTag::Statement, 0, 2))]);
    assert_eq!(kinds("1 +"), vec![Err((ParserErrorKind::ExpectedStartOfExpr, ContextTag::Atom, 2, 2))]);
    assert_eq!(kinds(""), vec![]);
    assert_eq!(kinds(" ;"), vec![Err((ParserErrorKind::ExpectedStartOfExpr, ContextTag::Atom, 0, 0))]);
    assert_eq!(kinds("1 2 ; 3"), vec![Ok(()), Ok(()), Ok(())]);
}

#[test]
fn statements_of_the_language() {
    let (statements, strings) = parse("var x = 10; let y = x\necho x * x; assert y == 10;\nx + 1");
    let statements: Vec<StmtMeta> = statements.into_iter().map(|item| item.unwrap()).collect();
    assert_eq!(statements.len(), 5);
    let x = strings.get("x").unwrap();
    let y = strings.get("y").unwrap();
    assert!(matches!(statements[0].variant(), Stmt::Declaration { name, mutable: true, .. } if *name == x));
    assert!(matches!(statements[1].variant(), Stmt::Declaration { name, mutable: false, .. } if *name == y));
    assert!(matches!(statements[2].variant(), Stmt::Echo(..)));
    assert!(matches!(statements[3].variant(), Stmt::Assert(..)));
    assert!(matches!(statements[4].variant(), Stmt::Expression(..)));
    assert_eq!(statements[0].debug_symbol(), &DebugSymbol::new(0, 11));
    assert_eq!(statements[1].debug_symbol(), &DebugSymbol::new(12, 21));
    assert_eq!(statements[4].debug_symbol(), &DebugSymbol::new(50, 55));
    if let Stmt::Echo(meta) = statements[2].variant() {
        assert_eq!(meta.symbol, DebugSymbol::new(27, 32));
        assert!(matches!(&meta.expr, Expr::BinaryOp(BinaryOp::Mul, ..)));
    }
    assert!(matches!(UnaryOp::Neg, UnaryOp::Neg));
}

#[test]
fn a_long_text_is_scanned_token_by_token() {
    let source = "x1 = 23;\n".repeat(20_000);
    let (tokens, strings) = lex(&source);
    assert_eq!(tokens.len(), 4 * 20_000 + 1);
    assert_eq!(strings.len(), 1);
    let last = tokens.last().unwrap().as_ref().unwrap();
    assert_eq!(last.token, Token::EOF);
    assert_eq!(last.lineno, 20_001);
    assert_eq!((last.location.index, last.location.length), (source.len(), 0));
    let third = tokens[4 * 19_999 + 2].as_ref().unwrap();
    assert_eq!(third.token, Token::IntegerLiteral(23));
    assert_eq!((third.location.index, third.location.length), (9 * 19_999 + 5, 2));
    assert_eq!(third.lineno, 20_000);
    let statements = parse_program(&tokens);
    assert_eq!(statements.len(), 20_000);
    assert!(statements.iter().all(|statement| statement.is_ok()));
}
