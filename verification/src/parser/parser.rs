//! The parser: it turns the tokens of a source into statements.
//!
//! Expressions are parsed by precedence: an operator of a level takes as its
//! operands what the operators of the tighter levels make, and the operators
//! of one level group from the left. A statement ends with its expression,
//! or with the statement or the block that it holds; a semicolon behind it
//! is taken with it.

use vstd::prelude::*;
use crate::debug::symbol::DebugSymbol;
use crate::lexer::lexer::{LexerError, Span, TokenOut};
use crate::lexer::token::Token;
use crate::parser::binop::BinaryOp;
use crate::parser::errors::{ContextTag, ParserErrorKind};
use crate::parser::expr::{Expr, ExprMeta, UnaryOp};
use crate::parser::primary::Atom;
use crate::parser::stmt::{Stmt, StmtList, StmtMeta};

verus! {

/// What the lexer made of one lexeme.
pub type Lexed = Result<TokenOut, LexerError>;

/// The loosest level of the binary operators.
pub const LOOSEST: i8 = 10;

/// What went wrong in a piece of the source: the kind of the error, the
/// construct that was being parsed, and the tokens that it was about, from
/// the first of the construct to the one that did not fit.
#[derive(Debug, PartialEq, Eq)]
pub struct SyntaxError {
    pub kind: ParserErrorKind,
    pub context: ContextTag,
    /// The position of the first token of the construct.
    pub start: usize,
    /// The position of the token that did not fit.
    pub at: usize,
}

/// What one parsing function gives: a node or an error, and the position of
/// the first token that it did not take.
pub ghost struct Parsed<T> {
    pub result: Result<T, SyntaxError>,
    pub next: int,
}

/// The token at position `pos`, if the lexer made one there.
pub open spec fn token_at(toks: Seq<Lexed>, pos: int) -> Option<Token> {
    if 0 <= pos < toks.len() {
        match toks[pos] {
            Ok(out) => Some(out.token),
            Err(_) => None,
        }
    } else {
        None
    }
}

/// The binary operator that `token` stands for, if it stands for one.
pub open spec fn spec_binary_op(token: Token) -> Option<BinaryOp> {
    match token {
        Token::OpMul => Some(BinaryOp::Mul),
        Token::OpDiv => Some(BinaryOp::Div),
        Token::OpMod => Some(BinaryOp::Mod),
        Token::OpAdd => Some(BinaryOp::Add),
        Token::OpSub => Some(BinaryOp::Sub),
        Token::OpLShift => Some(BinaryOp::LShift),
        Token::OpRShift => Some(BinaryOp::RShift),
        Token::OpAnd => Some(BinaryOp::BitAnd),
        Token::OpXor => Some(BinaryOp::BitXor),
        Token::OpOr => Some(BinaryOp::BitOr),
        Token::OpLT => Some(BinaryOp::LT),
        Token::OpGT => Some(BinaryOp::GT),
        Token::OpLE => Some(BinaryOp::LE),
        Token::OpGE => Some(BinaryOp::GE),
        Token::OpEQ => Some(BinaryOp::EQ),
        Token::OpNE => Some(BinaryOp::NE),
        Token::And => Some(BinaryOp::And),
        Token::Or => Some(BinaryOp::Or),
        _ => None,
    }
}

#[verifier::when_used_as_spec(spec_binary_op)]
pub fn binary_op(token: Token) -> (op: Option<BinaryOp>)
    ensures
        op == spec_binary_op(token),
{
    match token {
        Token::OpMul => Some(BinaryOp::Mul),
        Token::OpDiv => Some(BinaryOp::Div),
        Token::OpMod => Some(BinaryOp::Mod),
        Token::OpAdd => Some(BinaryOp::Add),
        Token::OpSub => Some(BinaryOp::Sub),
        Token::OpLShift => Some(BinaryOp::LShift),
        Token::OpRShift => Some(BinaryOp::RShift),
        Token::OpAnd => Some(BinaryOp::BitAnd),
        Token::OpXor => Some(BinaryOp::BitXor),
        Token::OpOr => Some(BinaryOp::BitOr),
        Token::OpLT => Some(BinaryOp::LT),
        Token::OpGT => Some(BinaryOp::GT),
        Token::OpLE => Some(BinaryOp::LE),
        Token::OpGE => Some(BinaryOp::GE),
        Token::OpEQ => Some(BinaryOp::EQ),
        Token::OpNE => Some(BinaryOp::NE),
        Token::And => Some(BinaryOp::And),
        Token::Or => Some(BinaryOp::Or),
        _ => None,
    }
}

/// The unary operator that `token` stands for, if it stands for one.
pub open spec fn spec_unary_op(token: Token) -> Option<UnaryOp> {
    match token {
        Token::OpSub => Some(UnaryOp::Neg),
        Token::OpAdd => Some(UnaryOp::Pos),
        Token::OpInv => Some(UnaryOp::Inv),
        Token::OpNot => Some(UnaryOp::Not),
        _ => None,
    }
}

#[verifier::when_used_as_spec(spec_unary_op)]
pub fn unary_op(token: Token) -> (op: Option<UnaryOp>)
    ensures
        op == spec_unary_op(token),
{
    match token {
        Token::OpSub => Some(UnaryOp::Neg),
        Token::OpAdd => Some(UnaryOp::Pos),
        Token::OpInv => Some(UnaryOp::Inv),
        Token::OpNot => Some(UnaryOp::Not),
        _ => None,
    }
}

/// The error of kind `kind` in the construct `context` that starts at
/// `start`, about the token at `at`.
pub open spec fn failed<T>(kind: ParserErrorKind, context: ContextTag, start: int, at: int)
    -> Parsed<T> {
    Parsed { result: Err(SyntaxError { kind, context, start: start as usize, at: at as usize }), next: at }
}

/// The error about the token at `at`: a lexeme that the lexer could not
/// read, or a token that cannot start an expression.
pub open spec fn no_expression<T>(toks: Seq<Lexed>, context: ContextTag, start: int, at: int)
    -> Parsed<T> {
    if 0 <= at < toks.len() && toks[at] is Err {
        failed(ParserErrorKind::LexerError, ContextTag::Token, start, at)
    } else {
        failed(ParserErrorKind::ExpectedStartOfExpr, context, start, at)
    }
}

/// An atom at `pos`: a literal, a name, the empty tuple, or an expression in
/// parentheses.
pub open spec fn atom(toks: Seq<Lexed>, pos: int) -> Parsed<Expr>
    decreases toks.len() - pos, 0int,
{
    match token_at(toks, pos) {
        Some(Token::Nil) => Parsed { result: Ok(Expr::Atom(Atom::Nil)), next: pos + 1 },
        Some(Token::True) => Parsed {
            result: Ok(Expr::Atom(Atom::BooleanLiteral(true))),
            next: pos + 1,
        },
        Some(Token::False) => Parsed {
            result: Ok(Expr::Atom(Atom::BooleanLiteral(false))),
            next: pos + 1,
        },
        Some(Token::IntegerLiteral(value)) => Parsed {
            result: Ok(Expr::Atom(Atom::IntegerLiteral(value))),
            next: pos + 1,
        },
        Some(Token::StringLiteral(symbol)) => Parsed {
            result: Ok(Expr::Atom(Atom::StringLiteral(symbol))),
            next: pos + 1,
        },
        Some(Token::Identifier(symbol)) => Parsed {
            result: Ok(Expr::Atom(Atom::Identifier(symbol))),
            next: pos + 1,
        },
        Some(Token::OpenParen) => if token_at(toks, pos + 1) == Some(Token::CloseParen) {
            Parsed { result: Ok(Expr::Atom(Atom::EmptyTuple)), next: pos + 2 }
        } else {
            let inner = expression(toks, pos + 1);
            match inner.result {
                Ok(expr) => if token_at(toks, inner.next) == Some(Token::CloseParen) {
                    Parsed { result: Ok(Expr::Atom(Atom::Group(Box::new(expr)))), next: inner.next + 1 }
                } else {
                    failed(ParserErrorKind::ExpectedCloseParen, ContextTag::Group, pos, inner.next)
                },
                Err(error) => Parsed { result: Err(error), next: inner.next },
            }
        },
        _ => no_expression(toks, ContextTag::Atom, pos, pos),
    }
}

/// A unary expression at `pos`: unary operators, then an atom.
pub open spec fn unary(toks: Seq<Lexed>, pos: int) -> Parsed<Expr>
    decreases toks.len() - pos, 1int,
{
    match token_at(toks, pos) {
        Some(token) => match spec_unary_op(token) {
            Some(op) => {
                let operand = unary(toks, pos + 1);
                match operand.result {
                    Ok(expr) => Parsed {
                        result: Ok(Expr::UnaryOp(op, Box::new(expr))),
                        next: operand.next,
                    },
                    Err(error) => Parsed { result: Err(error), next: operand.next },
                }
            },
            None => atom(toks, pos),
        },
        None => atom(toks, pos),
    }
}

/// The operands and operators of level `level` that follow `lhs` from
/// `pos` on, grouped from the left.
pub open spec fn binary_tail(toks: Seq<Lexed>, lhs: Expr, pos: int, level: nat) -> Parsed<Expr>
    decreases toks.len() - pos, level + 1,
{
    match token_at(toks, pos) {
        Some(token) => match spec_binary_op(token) {
            Some(op) => if op.level() == level && level >= 2 {
                let rhs = binary(toks, pos + 1, (level - 1) as nat);
                match rhs.result {
                    Ok(expr) => if pos < rhs.next <= toks.len() {
                        binary_tail(
                            toks,
                            Expr::BinaryOp(op, Box::new(lhs), Box::new(expr)),
                            rhs.next,
                            level,
                        )
                    } else {
                        Parsed { result: Ok(lhs), next: pos }
                    },
                    Err(error) => Parsed { result: Err(error), next: rhs.next },
                }
            } else {
                Parsed { result: Ok(lhs), next: pos }
            },
            None => Parsed { result: Ok(lhs), next: pos },
        },
        None => Parsed { result: Ok(lhs), next: pos },
    }
}

/// A binary expression at `pos` whose operators are of level `level` or
/// tighter.
pub open spec fn binary(toks: Seq<Lexed>, pos: int, level: nat) -> Parsed<Expr>
    decreases toks.len() - pos, level + 2,
{
    if pos < 0 || pos > toks.len() {
        no_expression(toks, ContextTag::Atom, pos, pos)
    } else if level < 2 {
        unary(toks, pos)
    } else {
        let lhs = binary(toks, pos, (level - 1) as nat);
        match lhs.result {
            Ok(expr) => if pos < lhs.next <= toks.len() {
                binary_tail(toks, expr, lhs.next, level)
            } else {
                lhs
            },
            Err(_) => lhs,
        }
    }
}

/// Whether `expr` can be assigned to.
pub open spec fn spec_is_lvalue(expr: &Expr) -> bool {
    expr matches Expr::Atom(Atom::Identifier(_))
}

#[verifier::when_used_as_spec(spec_is_lvalue)]
pub fn is_lvalue(expr: &Expr) -> (res: bool)
    ensures
        res == spec_is_lvalue(expr),
{
    matches!(expr, Expr::Atom(Atom::Identifier(_)))
}

/// An expression at `pos`: a binary expression, or an assignment of an
/// expression to a target.
pub open spec fn expression(toks: Seq<Lexed>, pos: int) -> Parsed<Expr>
    decreases toks.len() - pos, 14int,
{
    if pos < 0 || pos > toks.len() {
        no_expression(toks, ContextTag::Atom, pos, pos)
    } else {
        expression_from(toks, pos, binary(toks, pos, LOOSEST as nat))
    }
}

/// An expression at `pos` that starts with the binary expression `lhs`:
/// that expression, or the assignment of an expression to it.
pub open spec fn expression_from(toks: Seq<Lexed>, pos: int, lhs: Parsed<Expr>) -> Parsed<Expr>
    decreases toks.len() - pos, 13int,
{
    match lhs.result {
        Ok(target) => if token_at(toks, lhs.next) == Some(Token::OpAssign) && lhs.next >= pos {
            if spec_is_lvalue(&target) {
                let rhs = expression(toks, lhs.next + 1);
                match rhs.result {
                    Ok(value) => Parsed {
                        result: Ok(Expr::Assignment(Box::new(target), Box::new(value))),
                        next: rhs.next,
                    },
                    Err(error) => Parsed { result: Err(error), next: rhs.next },
                }
            } else {
                failed(
                    ParserErrorKind::InvalidAssignmentLHS,
                    ContextTag::AssignmentExpr,
                    pos,
                    lhs.next,
                )
            }
        } else {
            lhs
        },
        Err(_) => lhs,
    }
}

/// The token at position `pos`, if the lexer made one there.
pub fn peek(toks: &Vec<Lexed>, pos: usize) -> (token: Option<Token>)
    ensures
        token == token_at(toks@, pos as int),
{
    if pos < toks.len() {
        match &toks[pos] {
            Ok(out) => Some(out.token),
            Err(_) => None,
        }
    } else {
        None
    }
}

/// Whether `result` with the next position `next` is what `parsed` says.
pub open spec fn agrees<T>(parsed: Parsed<T>, result: Result<T, SyntaxError>, next: usize) -> bool {
    parsed.result == result && parsed.next == next
}

fn fail<T>(kind: ParserErrorKind, context: ContextTag, start: usize, at: usize) -> (out: (
    Result<T, SyntaxError>,
    usize,
))
    ensures
        agrees(failed::<T>(kind, context, start as int, at as int), out.0, out.1),
{
    (Err(SyntaxError { kind, context, start, at }), at)
}

fn fail_no_expression<T>(toks: &Vec<Lexed>, context: ContextTag, start: usize, at: usize) -> (out: (
    Result<T, SyntaxError>,
    usize,
))
    ensures
        agrees(no_expression::<T>(toks@, context, start as int, at as int), out.0, out.1),
{
    if at < toks.len() && toks[at].is_err() {
        fail(ParserErrorKind::LexerError, ContextTag::Token, start, at)
    } else {
        fail(ParserErrorKind::ExpectedStartOfExpr, context, start, at)
    }
}

/// Parses an atom at `pos`.
pub fn parse_atom(toks: &Vec<Lexed>, pos: usize) -> (out: (Result<Expr, SyntaxError>, usize))
    requires
        toks@.len() < usize::MAX,
        pos <= toks@.len(),
    ensures
        agrees(atom(toks@, pos as int), out.0, out.1),
        out.1 <= toks@.len(),
        out.0 is Ok ==> pos < out.1,
        pos <= toks@.len() ==> pos <= out.1,
    decreases toks@.len() - pos, 0int,
{
    match peek(toks, pos) {
        Some(Token::Nil) => (Ok(Expr::Atom(Atom::Nil)), pos + 1),
        Some(Token::True) => (Ok(Expr::Atom(Atom::BooleanLiteral(true))), pos + 1),
        Some(Token::False) => (Ok(Expr::Atom(Atom::BooleanLiteral(false))), pos + 1),
        Some(Token::IntegerLiteral(value)) => (Ok(Expr::Atom(Atom::IntegerLiteral(value))), pos + 1),
        Some(Token::StringLiteral(symbol)) => (Ok(Expr::Atom(Atom::StringLiteral(symbol))), pos + 1),
        Some(Token::Identifier(symbol)) => (Ok(Expr::Atom(Atom::Identifier(symbol))), pos + 1),
        Some(Token::OpenParen) => {
            if matches!(peek(toks, pos + 1), Some(Token::CloseParen)) {
                return (Ok(Expr::Atom(Atom::EmptyTuple)), pos + 2);
            }
            let (inner, next) = parse_expression(toks, pos + 1);
            match inner {
                Ok(expr) => {
                    if matches!(peek(toks, next), Some(Token::CloseParen)) {
                        (Ok(Expr::Atom(Atom::Group(Box::new(expr)))), next + 1)
                    } else {
                        fail(ParserErrorKind::ExpectedCloseParen, ContextTag::Group, pos, next)
                    }
                },
                Err(error) => (Err(error), next),
            }
        },
        _ => fail_no_expression(toks, ContextTag::Atom, pos, pos),
    }
}

/// Parses a unary expression at `pos`.
pub fn parse_unary(toks: &Vec<Lexed>, pos: usize) -> (out: (Result<Expr, SyntaxError>, usize))
    requires
        toks@.len() < usize::MAX,
        pos <= toks@.len(),
    ensures
        agrees(unary(toks@, pos as int), out.0, out.1),
        out.1 <= toks@.len(),
        out.0 is Ok ==> pos < out.1,
        pos <= toks@.len() ==> pos <= out.1,
    decreases toks@.len() - pos, 1int,
{
    match peek(toks, pos) {
        Some(token) => match unary_op(token) {
            Some(op) => {
                let (operand, next) = parse_unary(toks, pos + 1);
                match operand {
                    Ok(expr) => (Ok(Expr::UnaryOp(op, Box::new(expr))), next),
                    Err(error) => (Err(error), next),
                }
            },
            None => parse_atom(toks, pos),
        },
        None => parse_atom(toks, pos),
    }
}

/// Parses the operands and operators of level `level` that follow `lhs`.
pub fn parse_binary_tail(toks: &Vec<Lexed>, lhs: Expr, pos: usize, level: i8) -> (out: (
    Result<Expr, SyntaxError>,
    usize,
))
    requires
        toks@.len() < usize::MAX,
        pos <= toks@.len(),
        0 <= level <= LOOSEST,
    ensures
        agrees(binary_tail(toks@, lhs, pos as int, level as nat), out.0, out.1),
        out.1 <= toks@.len(),
        pos <= out.1,
    decreases toks@.len() - pos, level + 1,
{
    match peek(toks, pos) {
        Some(token) => match binary_op(token) {
            Some(op) => {
                if op.precedence_level() == level && level >= 2 {
                    let (rhs, next) = parse_binary(toks, pos + 1, level - 1);
                    match rhs {
                        Ok(expr) => parse_binary_tail(
                            toks,
                            Expr::BinaryOp(op, Box::new(lhs), Box::new(expr)),
                            next,
                            level,
                        ),
                        Err(error) => (Err(error), next),
                    }
                } else {
                    (Ok(lhs), pos)
                }
            },
            None => (Ok(lhs), pos),
        },
        None => (Ok(lhs), pos),
    }
}

/// Parses a binary expression at `pos` whose operators are of level
/// `level` or tighter.
pub fn parse_binary(toks: &Vec<Lexed>, pos: usize, level: i8) -> (out: (
    Result<Expr, SyntaxError>,
    usize,
))
    requires
        toks@.len() < usize::MAX,
        pos <= toks@.len(),
        0 <= level <= LOOSEST,
    ensures
        agrees(binary(toks@, pos as int, level as nat), out.0, out.1),
        out.1 <= toks@.len(),
        out.0 is Ok ==> pos < out.1,
        pos <= toks@.len() ==> pos <= out.1,
    decreases toks@.len() - pos, level + 2,
{
    if level < 2 {
        return parse_unary(toks, pos);
    }
    let (lhs, next) = parse_binary(toks, pos, level - 1);
    match lhs {
        Ok(expr) => parse_binary_tail(toks, expr, next, level),
        Err(error) => (Err(error), next),
    }
}

/// Parses an expression at `pos`.
pub fn parse_expression(toks: &Vec<Lexed>, pos: usize) -> (out: (Result<Expr, SyntaxError>, usize))
    requires
        toks@.len() < usize::MAX,
        pos <= toks@.len(),
    ensures
        agrees(expression(toks@, pos as int), out.0, out.1),
        out.1 <= toks@.len(),
        out.0 is Ok ==> pos < out.1,
        pos <= toks@.len() ==> pos <= out.1,
    decreases toks@.len() - pos, 14int,
{
    let (lhs, next) = parse_binary(toks, pos, LOOSEST);
    match lhs {
        Ok(target) => {
            if matches!(peek(toks, next), Some(Token::OpAssign)) {
                if is_lvalue(&target) {
                    let (rhs, after) = parse_expression(toks, next + 1);
                    match rhs {
                        Ok(value) => (Ok(Expr::Assignment(Box::new(target), Box::new(value))), after),
                        Err(error) => (Err(error), after),
                    }
                } else {
                    fail(
                        ParserErrorKind::InvalidAssignmentLHS,
                        ContextTag::AssignmentExpr,
                        pos,
                        next,
                    )
                }
            } else {
                (Ok(target), next)
            }
        },
        Err(error) => (Err(error), next),
    }
}

/// Where the lexeme at position `pos` lies in the source.
pub open spec fn location_at(toks: Seq<Lexed>, pos: int) -> Span {
    match toks[pos] {
        Ok(out) => out.location,
        Err(error) => error.location,
    }
}

/// The source text from the lexeme at `first` to the one at `last`.
pub open spec fn symbol_between(toks: Seq<Lexed>, first: int, last: int) -> DebugSymbol {
    let from = location_at(toks, first);
    let to = location_at(toks, last);
    DebugSymbol {
        start: from.index,
        end: if to.length > usize::MAX - to.index {
            usize::MAX
        } else {
            (to.index + to.length) as usize
        },
    }
}

/// The source text from the lexeme at `first` to the one at `last`.
pub fn symbol_of(toks: &Vec<Lexed>, first: usize, last: usize) -> (symbol: DebugSymbol)
    requires
        first < toks@.len(),
        last < toks@.len(),
    ensures
        symbol == symbol_between(toks@, first as int, last as int),
{
    let from = match &toks[first] {
        Ok(out) => out.location,
        Err(error) => error.location,
    };
    let to = match &toks[last] {
        Ok(out) => out.location,
        Err(error) => error.location,
    };
    let end = if to.length > usize::MAX - to.index {
        usize::MAX
    } else {
        to.index + to.length
    };
    DebugSymbol::new(from.index, end)
}

/// The source text that `error` is about, from the first token of its
/// construct to the one that did not fit; none if `toks` are not the tokens
/// that it speaks of.
pub fn error_symbol(toks: &Vec<Lexed>, error: &SyntaxError) -> (symbol: Option<DebugSymbol>)
    ensures
        symbol == (if error.start < toks@.len() && error.at < toks@.len() {
            Some(symbol_between(toks@, error.start as int, error.at as int))
        } else {
            None
        }),
{
    if error.start < toks.len() && error.at < toks.len() {
        Some(symbol_of(toks, error.start, error.at))
    } else {
        None
    }
}

/// The expression that `parsed` holds, with the source text that it came
/// from: the tokens from `pos` on that it took.
pub open spec fn with_symbol(toks: Seq<Lexed>, pos: int, parsed: Parsed<Expr>) -> Parsed<ExprMeta> {
    match parsed.result {
        Ok(expr) => Parsed {
            result: Ok(ExprMeta { expr, symbol: symbol_between(toks, pos, parsed.next - 1) }),
            next: parsed.next,
        },
        Err(error) => Parsed { result: Err(error), next: parsed.next },
    }
}

/// Parses an expression at `pos`, and tells the source text that it came
/// from.
pub fn parse_expr_meta(toks: &Vec<Lexed>, pos: usize) -> (out: (Result<ExprMeta, SyntaxError>, usize))
    requires
        toks@.len() < usize::MAX,
        pos <= toks@.len(),
    ensures
        agrees(with_symbol(toks@, pos as int, expression(toks@, pos as int)), out.0, out.1),
        out.1 <= toks@.len(),
        out.0 is Ok ==> pos < out.1,
        pos <= out.1,
{
    let (result, next) = parse_expression(toks, pos);
    match result {
        Ok(expr) => (Ok(ExprMeta { expr, symbol: symbol_of(toks, pos, next - 1) }), next),
        Err(error) => (Err(error), next),
    }
}

/// Where a statement that ends at `next` ends with the semicolon that may
/// follow it.
pub open spec fn behind_semicolon(toks: Seq<Lexed>, next: int) -> int {
    if token_at(toks, next) == Some(Token::Semicolon) {
        next + 1
    } else {
        next
    }
}

/// A statement of its own inside the statement that starts at `outer`: the
/// statement at `pos` with its source text.
pub open spec fn inner_statement(toks: Seq<Lexed>, outer: int, pos: int) -> Parsed<StmtMeta>
    decreases toks.len() - pos, 16int,
{
    if 0 <= pos < toks.len() {
        let parsed = statement(toks, pos);
        match parsed.result {
            Ok(stmt) => if pos < parsed.next <= toks.len() {
                Parsed {
                    result: Ok(StmtMeta::spec_new(stmt, symbol_between(toks, pos, parsed.next - 1))),
                    next: parsed.next,
                }
            } else {
                no_expression(toks, ContextTag::Statement, outer, pos)
            },
            Err(error) => Parsed { result: Err(error), next: parsed.next },
        }
    } else {
        no_expression(toks, ContextTag::Statement, outer, pos)
    }
}

/// The statements of a block from `pos` on, up to the brace that closes
/// it; each may be followed by a semicolon.
pub open spec fn block_items(toks: Seq<Lexed>, pos: int) -> Parsed<StmtList>
    decreases toks.len() - pos, 17int,
{
    if pos < 0 || pos >= toks.len() {
        failed(ParserErrorKind::ExpectedCloseBrace, ContextTag::Statement, pos, pos)
    } else {
        match token_at(toks, pos) {
            Some(Token::CloseBrace) => Parsed { result: Ok(StmtList::Nil), next: pos + 1 },
            Some(Token::EOF) => failed(
                ParserErrorKind::ExpectedCloseBrace,
                ContextTag::Statement,
                pos,
                pos,
            ),
            _ => {
                let first = inner_statement(toks, pos, pos);
                match first.result {
                    Ok(meta) => {
                        let end = behind_semicolon(toks, first.next);
                        if pos < end <= toks.len() {
                            let rest = block_items(toks, end);
                            match rest.result {
                                Ok(list) => Parsed {
                                    result: Ok(
                                        StmtList::Cons(
                                            Box::new(
                                                StmtMeta::spec_new(
                                                    meta.stmt,
                                                    symbol_between(toks, pos, end - 1),
                                                ),
                                            ),
                                            Box::new(list),
                                        ),
                                    ),
                                    next: rest.next,
                                },
                                Err(error) => Parsed { result: Err(error), next: rest.next },
                            }
                        } else {
                            failed(ParserErrorKind::ExpectedCloseBrace, ContextTag::Statement, pos, pos)
                        }
                    },
                    Err(error) => Parsed { result: Err(error), next: first.next },
                }
            },
        }
    }
}

/// The statement behind the condition of an `if` or a `while` that starts
/// at `pos`; the condition ends at `next`.
pub open spec fn body_statement(toks: Seq<Lexed>, pos: int, next: int) -> Parsed<StmtMeta>
    decreases toks.len() - pos, 12int,
{
    if pos < next <= toks.len() {
        inner_statement(toks, pos, next)
    } else {
        no_expression(toks, ContextTag::Statement, pos, next)
    }
}

/// The statement at `pos`, without the semicolon that may follow it.
///
/// `echo` and `assert` take an expression, `var` and `let` a name and the
/// expression of its first value. `if` takes a condition, a statement, and
/// behind `else` another one; `while` a condition and a statement. A brace
/// opens a block of statements. `break` and `continue` stand alone.
/// Anything else is an expression.
pub open spec fn statement(toks: Seq<Lexed>, pos: int) -> Parsed<Stmt>
    decreases toks.len() - pos, 15int,
{
    match token_at(toks, pos) {
        Some(Token::Echo) => {
            let value = with_symbol(toks, pos + 1, expression(toks, pos + 1));
            match value.result {
                Ok(expr) => Parsed { result: Ok(Stmt::Echo(expr)), next: value.next },
                Err(error) => Parsed { result: Err(error), next: value.next },
            }
        },
        Some(Token::Assert) => {
            let value = with_symbol(toks, pos + 1, expression(toks, pos + 1));
            match value.result {
                Ok(expr) => Parsed { result: Ok(Stmt::Assert(expr)), next: value.next },
                Err(error) => Parsed { result: Err(error), next: value.next },
            }
        },
        Some(Token::Var) | Some(Token::Let) => match token_at(toks, pos + 1) {
            Some(Token::Identifier(name)) => if token_at(toks, pos + 2) == Some(Token::OpAssign) {
                let value = with_symbol(toks, pos + 3, expression(toks, pos + 3));
                match value.result {
                    Ok(init) => Parsed {
                        result: Ok(
                            Stmt::Declaration {
                                name,
                                init,
                                mutable: token_at(toks, pos) == Some(Token::Var),
                            },
                        ),
                        next: value.next,
                    },
                    Err(error) => Parsed { result: Err(error), next: value.next },
                }
            } else {
                no_expression(toks, ContextTag::Statement, pos, pos + 2)
            },
            _ => failed(ParserErrorKind::ExpectedIdentifier, ContextTag::Statement, pos, pos + 1),
        },
        Some(Token::Break) => Parsed { result: Ok(Stmt::Break), next: pos + 1 },
        Some(Token::Continue) => Parsed { result: Ok(Stmt::Continue), next: pos + 1 },
        Some(Token::OpenBrace) => {
            let items = block_items(toks, pos + 1);
            match items.result {
                Ok(list) => Parsed { result: Ok(Stmt::Block(list)), next: items.next },
                Err(error) => Parsed { result: Err(error), next: items.next },
            }
        },
        Some(Token::If) => {
            let cond = with_symbol(toks, pos + 1, expression(toks, pos + 1));
            match cond.result {
                Ok(test) => {
                    let then = body_statement(toks, pos, cond.next);
                    match then.result {
                        Ok(first) => if token_at(toks, then.next) == Some(Token::Else) && pos
                            < then.next {
                            let other = body_statement(toks, pos, then.next + 1);
                            match other.result {
                                Ok(second) => Parsed {
                                    result: Ok(
                                        Stmt::If {
                                            cond: test,
                                            then: Box::new(first),
                                            otherwise: Some(Box::new(second)),
                                        },
                                    ),
                                    next: other.next,
                                },
                                Err(error) => Parsed { result: Err(error), next: other.next },
                            }
                        } else {
                            Parsed {
                                result: Ok(
                                    Stmt::If { cond: test, then: Box::new(first), otherwise: None },
                                ),
                                next: then.next,
                            }
                        },
                        Err(error) => Parsed { result: Err(error), next: then.next },
                    }
                },
                Err(error) => Parsed { result: Err(error), next: cond.next },
            }
        },
        Some(Token::While) => {
            let cond = with_symbol(toks, pos + 1, expression(toks, pos + 1));
            match cond.result {
                Ok(test) => {
                    let body = body_statement(toks, pos, cond.next);
                    match body.result {
                        Ok(run) => Parsed {
                            result: Ok(Stmt::While { cond: test, body: Box::new(run) }),
                            next: body.next,
                        },
                        Err(error) => Parsed { result: Err(error), next: body.next },
                    }
                },
                Err(error) => Parsed { result: Err(error), next: cond.next },
            }
        },
        _ => {
            let value = with_symbol(toks, pos, expression(toks, pos));
            match value.result {
                Ok(expr) => Parsed { result: Ok(Stmt::Expression(expr)), next: value.next },
                Err(error) => Parsed { result: Err(error), next: value.next },
            }
        },
    }
}

/// Parses a statement of its own inside the statement that starts at
/// `outer`.
pub fn parse_inner(toks: &Vec<Lexed>, outer: usize, pos: usize) -> (out: (
    Result<StmtMeta, SyntaxError>,
    usize,
))
    requires
        toks@.len() < usize::MAX,
        pos <= toks@.len(),
    ensures
        agrees(inner_statement(toks@, outer as int, pos as int), out.0, out.1),
        out.1 <= toks@.len(),
        out.0 is Ok ==> pos < out.1,
        pos <= out.1,
    decreases toks@.len() - pos, 16int,
{
    if pos < toks.len() {
        let (result, next) = parse_statement(toks, pos);
        match result {
            Ok(stmt) => {
                if pos < next {
                    (Ok(StmtMeta::new(stmt, symbol_of(toks, pos, next - 1))), next)
                } else {
                    fail_no_expression(toks, ContextTag::Statement, outer, pos)
                }
            },
            Err(error) => (Err(error), next),
        }
    } else {
        fail_no_expression(toks, ContextTag::Statement, outer, pos)
    }
}

/// Parses the statements of a block from `pos` on, up to the brace that
/// closes it.
pub fn parse_block_items(toks: &Vec<Lexed>, pos: usize) -> (out: (Result<StmtList, SyntaxError>, usize))
    requires
        toks@.len() < usize::MAX,
        pos <= toks@.len(),
    ensures
        agrees(block_items(toks@, pos as int), out.0, out.1),
        out.1 <= toks@.len(),
        out.0 is Ok ==> pos < out.1,
        pos <= out.1,
    decreases toks@.len() - pos, 17int,
{
    if pos >= toks.len() {
        return fail(ParserErrorKind::ExpectedCloseBrace, ContextTag::Statement, pos, pos);
    }
    match peek(toks, pos) {
        Some(Token::CloseBrace) => (Ok(StmtList::Nil), pos + 1),
        Some(Token::EOF) => fail(ParserErrorKind::ExpectedCloseBrace, ContextTag::Statement, pos, pos),
        _ => {
            let (first, next) = parse_inner(toks, pos, pos);
            let meta = match first {
                Ok(meta) => meta,
                Err(error) => {
                    return (Err(error), next);
                },
            };
            let end = if matches!(peek(toks, next), Some(Token::Semicolon)) {
                next + 1
            } else {
                next
            };
            if !(pos < end && end <= toks.len()) {
                return fail(ParserErrorKind::ExpectedCloseBrace, ContextTag::Statement, pos, pos);
            }
            let (stmt, _) = meta.take();
            let item = StmtMeta::new(stmt, symbol_of(toks, pos, end - 1));
            let (rest, after) = parse_block_items(toks, end);
            match rest {
                Ok(list) => (Ok(StmtList::Cons(Box::new(item), Box::new(list))), after),
                Err(error) => (Err(error), after),
            }
        },
    }
}

/// Parses the statement behind the condition of an `if` or a `while` that
/// starts at `pos`; the condition ends at `next`.
pub fn parse_body(toks: &Vec<Lexed>, pos: usize, next: usize) -> (out: (
    Result<StmtMeta, SyntaxError>,
    usize,
))
    requires
        toks@.len() < usize::MAX,
        pos <= next <= toks@.len(),
    ensures
        agrees(body_statement(toks@, pos as int, next as int), out.0, out.1),
        out.1 <= toks@.len(),
        out.0 is Ok ==> pos < out.1,
        next <= out.1,
    decreases toks@.len() - pos, 12int,
{
    if pos < next {
        parse_inner(toks, pos, next)
    } else {
        fail_no_expression(toks, ContextTag::Statement, pos, next)
    }
}

/// Parses the statement at `pos`, without the semicolon that may follow it.
pub fn parse_statement(toks: &Vec<Lexed>, pos: usize) -> (out: (Result<Stmt, SyntaxError>, usize))
    requires
        toks@.len() < usize::MAX,
        pos < toks@.len(),
    ensures
        agrees(statement(toks@, pos as int), out.0, out.1),
        out.1 <= toks@.len(),
        out.0 is Ok ==> pos < out.1,
        pos <= out.1,
    decreases toks@.len() - pos, 15int,
{
    match peek(toks, pos) {
        Some(Token::Echo) => {
            let (value, next) = parse_expr_meta(toks, pos + 1);
            match value {
                Ok(expr) => (Ok(Stmt::Echo(expr)), next),
                Err(error) => (Err(error), next),
            }
        },
        Some(Token::Assert) => {
            let (value, next) = parse_expr_meta(toks, pos + 1);
            match value {
                Ok(expr) => (Ok(Stmt::Assert(expr)), next),
                Err(error) => (Err(error), next),
            }
        },
        Some(Token::Var) | Some(Token::Let) => {
            let mutable = matches!(peek(toks, pos), Some(Token::Var));
            match peek(toks, pos + 1) {
                Some(Token::Identifier(name)) => {
                    if matches!(peek(toks, pos + 2), Some(Token::OpAssign)) {
                        let (value, next) = parse_expr_meta(toks, pos + 3);
                        match value {
                            Ok(init) => (Ok(Stmt::Declaration { name, init, mutable }), next),
                            Err(error) => (Err(error), next),
                        }
                    } else {
                        fail_no_expression(toks, ContextTag::Statement, pos, pos + 2)
                    }
                },
                _ => fail(ParserErrorKind::ExpectedIdentifier, ContextTag::Statement, pos, pos + 1),
            }
        },
        Some(Token::Break) => (Ok(Stmt::Break), pos + 1),
        Some(Token::Continue) => (Ok(Stmt::Continue), pos + 1),
        Some(Token::OpenBrace) => {
            let (items, next) = parse_block_items(toks, pos + 1);
            match items {
                Ok(list) => (Ok(Stmt::Block(list)), next),
                Err(error) => (Err(error), next),
            }
        },
        Some(Token::If) => {
            let (cond, next) = parse_expr_meta(toks, pos + 1);
            let test = match cond {
                Ok(test) => test,
                Err(error) => {
                    return (Err(error), next);
                },
            };
            let (then, next) = parse_body(toks, pos, next);
            let first = match then {
                Ok(first) => first,
                Err(error) => {
                    return (Err(error), next);
                },
            };
            if matches!(peek(toks, next), Some(Token::Else)) && pos < next {
                let (other, next) = parse_body(toks, pos, next + 1);
                match other {
                    Ok(second) => (
                        Ok(
                            Stmt::If {
                                cond: test,
                                then: Box::new(first),
                                otherwise: Some(Box::new(second)),
                            },
                        ),
                        next,
                    ),
                    Err(error) => (Err(error), next),
                }
            } else {
                (Ok(Stmt::If { cond: test, then: Box::new(first), otherwise: None }), next)
            }
        },
        Some(Token::While) => {
            let (cond, next) = parse_expr_meta(toks, pos + 1);
            let test = match cond {
                Ok(test) => test,
                Err(error) => {
                    return (Err(error), next);
                },
            };
            let (body, next) = parse_body(toks, pos, next);
            match body {
                Ok(run) => (Ok(Stmt::While { cond: test, body: Box::new(run) }), next),
                Err(error) => (Err(error), next),
            }
        },
        _ => {
            let (value, next) = parse_expr_meta(toks, pos);
            match value {
                Ok(expr) => (Ok(Stmt::Expression(expr)), next),
                Err(error) => (Err(error), next),
            }
        },
    }
}

/// Whether a statement may start with `token`.
pub open spec fn spec_starts_statement(token: Token) -> bool {
    matches!(
        token,
        Token::Echo | Token::Assert | Token::Var | Token::Let | Token::If | Token::While
            | Token::For | Token::Fun | Token::Class | Token::Return | Token::Break
            | Token::Continue
    )
}

#[verifier::when_used_as_spec(spec_starts_statement)]
pub fn starts_statement(token: Token) -> (res: bool)
    ensures
        res == spec_starts_statement(token),
{
    matches!(
        token,
        Token::Echo | Token::Assert | Token::Var | Token::Let | Token::If | Token::While
            | Token::For | Token::Fun | Token::Class | Token::Return | Token::Break
            | Token::Continue
    )
}

/// Where parsing goes on after an error, looking from `pos` on: behind the
/// next semicolon, or at the next word that starts a statement, or at the
/// end of the tokens.
pub open spec fn synchronize(toks: Seq<Lexed>, pos: int) -> int
    decreases toks.len() - pos,
{
    if pos < 0 || pos >= toks.len() {
        pos
    } else {
        match token_at(toks, pos) {
            Some(Token::Semicolon) => pos + 1,
            Some(Token::EOF) => pos,
            Some(token) => if spec_starts_statement(token) {
                pos
            } else {
                synchronize(toks, pos + 1)
            },
            None => synchronize(toks, pos + 1),
        }
    }
}

/// Finds where parsing goes on after an error.
pub fn skip_to_statement(toks: &Vec<Lexed>, pos: usize) -> (next: usize)
    requires
        pos <= toks@.len(),
    ensures
        next == synchronize(toks@, pos as int),
        pos <= next <= toks@.len(),
{
    let mut at = pos;
    while at < toks.len()
        invariant
            pos <= at <= toks@.len(),
            synchronize(toks@, pos as int) == synchronize(toks@, at as int),
        decreases toks@.len() - at,
    {
        match peek(toks, at) {
            Some(Token::Semicolon) => {
                return at + 1;
            },
            Some(Token::EOF) => {
                return at;
            },
            Some(token) => {
                if starts_statement(token) {
                    return at;
                }
            },
            None => {},
        }
        at += 1;
    }
    at
}

/// The statements from `pos` on, each with the source text that it came
/// from, and the errors in their places. After an error parsing goes on
/// where `synchronize` says, at the least behind the token that the
/// statement with the error started with.
pub open spec fn program(toks: Seq<Lexed>, pos: int) -> Seq<Result<StmtMeta, SyntaxError>>
    decreases toks.len() - pos,
{
    if pos < 0 || pos >= toks.len() || token_at(toks, pos) == Some(Token::EOF) {
        Seq::empty()
    } else {
        let parsed = statement(toks, pos);
        match parsed.result {
            Ok(stmt) => {
                let next = if token_at(toks, parsed.next) == Some(Token::Semicolon) {
                    parsed.next + 1
                } else {
                    parsed.next
                };
                if pos < next <= toks.len() {
                    seq![Ok(StmtMeta::spec_new(stmt, symbol_between(toks, pos, next - 1)))]
                        + program(toks, next)
                } else {
                    Seq::empty()
                }
            },
            Err(error) => {
                let resume = synchronize(
                    toks,
                    if parsed.next > pos {
                        parsed.next
                    } else {
                        pos + 1
                    },
                );
                if pos < resume <= toks.len() {
                    seq![Err(error)] + program(toks, resume)
                } else {
                    Seq::empty()
                }
            },
        }
    }
}

/// Parses the statements of a source from its tokens. An error does not
/// end the pass: parsing goes on with the next statement.
pub fn parse_program(toks: &Vec<Lexed>) -> (output: Vec<Result<StmtMeta, SyntaxError>>)
    requires
        toks@.len() < usize::MAX,
    ensures
        output@ == program(toks@, 0),
{
    let mut output: Vec<Result<StmtMeta, SyntaxError>> = Vec::new();
    let mut pos: usize = 0;
    while pos < toks.len() && !matches!(peek(toks, pos), Some(Token::EOF))
        invariant
            toks@.len() < usize::MAX,
            pos <= toks@.len(),
            program(toks@, 0) == output@ + program(toks@, pos as int),
        decreases toks@.len() - pos,
    {
        let ghost before = output@;
        let (result, next) = parse_statement(toks, pos);
        match result {
            Ok(stmt) => {
                let next = if matches!(peek(toks, next), Some(Token::Semicolon)) {
                    next + 1
                } else {
                    next
                };
                let meta = StmtMeta::new(stmt, symbol_of(toks, pos, next - 1));
                output.push(Ok(meta));
                proof {
                    assert(output@ + program(toks@, next as int) =~= before + (seq![Ok(meta)]
                        + program(toks@, next as int)));
                }
                pos = next;
            },
            Err(error) => {
                let from = if next > pos {
                    next
                } else {
                    pos + 1
                };
                let resume = skip_to_statement(toks, from);
                output.push(Err(error));
                proof {
                    assert(output@ + program(toks@, resume as int) =~= before + (seq![Err(error)]
                        + program(toks@, resume as int)));
                }
                pos = resume;
            },
        }
    }
    proof {
        assert(output@ + Seq::<Result<StmtMeta, SyntaxError>>::empty() =~= output@);
    }
    output
}

} // verus!
