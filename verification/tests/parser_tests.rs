use sphinx_lang::debug::symbol::DebugSymbol;
use sphinx_lang::lexer::lexer::{LexerError, Span, TokenOut};
use sphinx_lang::lexer::token::Token;
use sphinx_lang::parser::binop::BinaryOp;
use sphinx_lang::parser::errors::{
    span_lt, ContextFrame, ContextTag, ErrorContext, ErrorPrototype, ParserError, ParserErrorKind,
};
use sphinx_lang::parser::expr::{Expr, ExprMeta};
use sphinx_lang::parser::primary::{AccessItem, Atom, Primary};
use sphinx_lang::parser::stmt::{Stmt, StmtMeta};
use sphinx_lang::repl::echo_last;
use sphinx_lang::runtime::strings::InternSymbol;
use sphinx_lang::source::{ModuleSource, SourceType};

fn token_at(index: usize, length: usize) -> TokenOut {
    TokenOut { token: Token::If, location: Span { index, length }, lineno: 1 }
}

#[test]
fn binary_operators_have_their_levels() {
    let levels = [
        (BinaryOp::Mul, 2, "*"),
        (BinaryOp::Div, 2, "/"),
        (BinaryOp::Mod, 2, "%"),
        (BinaryOp::Add, 3, "+"),
        (BinaryOp::Sub, 3, "-"),
        (BinaryOp::LShift, 4, "<<"),
        (BinaryOp::RShift, 4, ">>"),
        (BinaryOp::BitAnd, 5, "&"),
        (BinaryOp::BitXor, 6, "^"),
        (BinaryOp::BitOr, 7, "|"),
        (BinaryOp::LT, 8, "<"),
        (BinaryOp::GT, 8, ">"),
        (BinaryOp::LE, 8, "<="),
        (BinaryOp::GE, 8, ">="),
        (BinaryOp::EQ, 8, "=="),
        (BinaryOp::NE, 8, "!="),
        (BinaryOp::And, 9, "and"),
        (BinaryOp::Or, 10, "or"),
    ];
    for (op, level, symbol) in levels {
        assert_eq!(op.precedence_level(), level);
        assert_eq!(op.symbol(), symbol);
    }
    // `*` binds tighter than `+`, `and` tighter than `or`, `==` as tight as `<`
    assert!(BinaryOp::Mul.precedence_level() < BinaryOp::Add.precedence_level());
    assert!(BinaryOp::And.precedence_level() < BinaryOp::Or.precedence_level());
    assert_eq!(BinaryOp::EQ.precedence_level(), BinaryOp::LT.precedence_level());
}

#[test]
fn parser_error_kinds_have_messages() {
    assert_eq!(ParserErrorKind::LexerError.message(), "could not parse token");
    assert_eq!(ParserErrorKind::ExpectedStartOfExpr.message(), "expected start of expression");
    assert_eq!(ParserErrorKind::ExpectedCloseParen.message(), "expected closing ')'");
    assert_eq!(ParserErrorKind::ExpectedCloseSquare.message(), "expected closing ']'");
    assert_eq!(ParserErrorKind::ExpectedCloseBrace.message(), "expected closing '}'");
    assert_eq!(ParserErrorKind::ExpectedIdentifier.message(), "expected an identifier");
    assert_eq!(
        ParserErrorKind::InvalidAssignmentLHS.message(),
        "the left hand side of an assignment was invalid"
    );
}

#[test]
fn context_frames_extend_over_each_other() {
    let mut frame = ContextFrame::new(ContextTag::Expr);
    assert_eq!(frame.context(), ContextTag::Expr);
    assert_eq!(frame.start(), None);
    assert_eq!(frame.end(), None);

    // an empty frame takes what the other has
    let mut other = ContextFrame::new(ContextTag::Atom);
    other.set_start(&token_at(4, 2));
    other.set_end(&token_at(9, 1));
    frame.extend(other);
    assert_eq!(frame.context(), ContextTag::Expr);
    assert_eq!(frame.start(), Some(&Span { index: 4, length: 2 }));
    assert_eq!(frame.end(), Some(&Span { index: 9, length: 1 }));

    // an earlier start and a later end are taken over, others are not
    let mut wider = ContextFrame::new(ContextTag::Group);
    wider.set_span(Some(Span { index: 1, length: 1 }), Some(Span { index: 12, length: 3 }));
    frame.extend(wider);
    assert_eq!(frame.start(), Some(&Span { index: 1, length: 1 }));
    assert_eq!(frame.end(), Some(&Span { index: 12, length: 3 }));
    let mut narrower = ContextFrame::new(ContextTag::Group);
    narrower.set_span(Some(Span { index: 1, length: 5 }), Some(Span { index: 12, length: 9 }));
    frame.extend(narrower);
    assert_eq!(frame.start(), Some(&Span { index: 1, length: 1 }));
    assert_eq!(frame.end(), Some(&Span { index: 12, length: 3 }));
    frame.extend(ContextFrame::new(ContextTag::Token));
    assert_eq!(frame.start(), Some(&Span { index: 1, length: 1 }));

    assert_eq!(frame.as_debug_symbol(), DebugSymbol::new(1, 15));
    let mut only_start = ContextFrame::new(ContextTag::Atom);
    only_start.set_start(&token_at(3, 4));
    assert_eq!(only_start.as_debug_symbol(), DebugSymbol::new(3, 7));
    let mut only_end = ContextFrame::new(ContextTag::Atom);
    only_end.set_end(&token_at(5, 1));
    assert_eq!(only_end.as_debug_symbol(), DebugSymbol::new(5, 6));

    assert!(span_lt(&Span { index: 1, length: 9 }, &Span { index: 2, length: 0 }));
    assert!(!span_lt(&Span { index: 2, length: 0 }, &Span { index: 2, length: 5 }));
}

#[test]
fn the_context_is_a_stack_of_frames() {
    let module = ModuleSource::new("<test>", SourceType::String("x = ;".to_string()));
    let mut context = ErrorContext::new(&module, ContextTag::Statement);
    assert_eq!(context.context(), ContextTag::Statement);
    context.set_start(&token_at(0, 1));

    context.push(ContextTag::Expr);
    assert_eq!(context.context(), ContextTag::Expr);
    assert_eq!(context.frame().start(), None);
    context.set_start(&token_at(2, 1));
    context.set_end(&token_at(4, 1));

    // a continuation starts where the frame around it started
    context.push_continuation(ContextTag::BinaryOpExpr);
    assert_eq!(context.context(), ContextTag::BinaryOpExpr);
    assert_eq!(context.frame().start(), Some(&Span { index: 2, length: 1 }));
    assert_eq!(context.frame().end(), None);
    context.frame_mut().set_end(&token_at(6, 2));

    let popped = context.pop();
    assert_eq!(popped.context(), ContextTag::BinaryOpExpr);
    assert_eq!(popped.end(), Some(&Span { index: 6, length: 2 }));
    assert_eq!(context.context(), ContextTag::Expr);

    // the outer frame is extended over the inner one
    context.pop_extend();
    assert_eq!(context.context(), ContextTag::Statement);
    assert_eq!(context.frame().start(), Some(&Span { index: 0, length: 1 }));
    assert_eq!(context.frame().end(), Some(&Span { index: 4, length: 1 }));

    let frame = context.take();
    assert_eq!(frame.as_debug_symbol(), DebugSymbol::new(0, 5));
}

#[test]
fn a_parser_error_takes_the_innermost_frame() {
    let module = ModuleSource::new("<test>", SourceType::String("(1".to_string()));
    let mut context = ErrorContext::new(&module, ContextTag::Statement);
    context.push(ContextTag::Group);
    context.set_start(&token_at(0, 1));
    let error = ParserError::from_prototype(
        ErrorPrototype::new(ParserErrorKind::ExpectedCloseParen),
        context,
    );
    assert_eq!(error.kind(), &ParserErrorKind::ExpectedCloseParen);
    assert_eq!(error.frame().context(), ContextTag::Group);
    assert_eq!(error.module().name(), "<test>");
    assert!(error.source().is_none());
    assert_eq!(error.text(), "expected closing ')'");

    let context = ErrorContext::new(&module, ContextTag::Token);
    let cause = LexerError {
        message: "could not parse symbol".to_string(),
        location: Span { index: 1, length: 1 },
        lineno: 1,
    };
    let error = ParserError::from_prototype(
        ErrorPrototype::caused_by(cause, ParserErrorKind::LexerError),
        context,
    );
    assert_eq!(error.source().unwrap().location, Span { index: 1, length: 1 });
    assert_eq!(error.text(), "could not parse token: could not parse symbol");
}

#[test]
fn a_primary_is_an_atom_with_a_path() {
    let name = InternSymbol::try_from_usize(3).unwrap();
    let mut primary = Primary::new(Atom::Identifier(name), vec![AccessItem::Attribute(name)]);
    assert!(matches!(primary.atom(), Atom::Identifier(symbol) if *symbol == name));
    assert_eq!(primary.path().len(), 1);
    primary.path_mut().push(AccessItem::Invoke());
    primary.path_mut().push(AccessItem::Index(ExprMeta {
        expr: Expr::Atom(Atom::IntegerLiteral(0)),
        symbol: DebugSymbol::new(2, 3),
    }));
    assert_eq!(primary.path().len(), 3);
    assert!(matches!(primary.path()[1], AccessItem::Invoke()));
    assert!(matches!(primary.take_atom(), Atom::Identifier(symbol) if symbol == name));
}

fn expression(value: i64, at: usize) -> ExprMeta {
    ExprMeta { expr: Expr::Atom(Atom::IntegerLiteral(value)), symbol: DebugSymbol::new(at, at + 1) }
}

#[test]
fn the_prompt_echoes_a_last_expression() {
    let ast = vec![
        StmtMeta::new(Stmt::Expression(expression(1, 0)), DebugSymbol::new(0, 2)),
        StmtMeta::new(Stmt::Expression(expression(2, 3)), DebugSymbol::new(3, 5)),
    ];
    let ast = echo_last(ast);
    assert_eq!(ast.len(), 2);
    assert!(matches!(ast[0].variant(), Stmt::Expression(..)));
    assert!(matches!(
        ast[1].variant(),
        Stmt::Echo(ExprMeta { expr: Expr::Atom(Atom::IntegerLiteral(2)), .. })
    ));
    assert_eq!(ast[1].debug_symbol(), &DebugSymbol::new(3, 5));

    // other statements stay as they are
    let ast = echo_last(vec![StmtMeta::new(Stmt::Assert(expression(1, 7)), DebugSymbol::new(0, 9))]);
    assert!(matches!(ast[0].variant(), Stmt::Assert(..)));
    let (stmt, symbol) = ast.into_iter().next().unwrap().take();
    assert!(matches!(stmt, Stmt::Assert(..)));
    assert_eq!(symbol, DebugSymbol::new(0, 9));
    assert!(echo_last(vec![]).is_empty());
}
