//! Laws of the parser: an expression ends inside the tokens, what it is
//! depends on its own tokens only, and the source text of an expression or
//! a statement is read as that expression or statement again.

use vstd::prelude::*;
use crate::debug::symbol::DebugSymbol;
use crate::lexer::language::{language_grammar, lemma_language_is_blind, starts_keyword};
use crate::lexer::laws::{
    all_blind_to, blind_at, is_end, lemma_blind_at, lemma_item_location, lemma_position_rises,
    lemma_tokenized_grows, lemma_tokens_of_lexemes, location_of, span_from, token_of,
};
use crate::lexer::lexer::{
    char_before, lemma_position_after, lemma_scan_step, position_after, skip_blank,
};
use crate::lexer::rules::{word_boundary, RuleSpec};
use crate::lexer::token::Token;
use crate::lexer::tokenizer::tokenized;
use crate::parser::expr::{Expr, ExprMeta};
use crate::parser::parser::{
    atom, behind_semicolon, binary, binary_tail, block_items, body_statement, expression,
    inner_statement, location_at, program, spec_binary_op, spec_is_lvalue,
    spec_unary_op, statement, symbol_between, token_at, unary, Lexed, Parsed, SyntaxError, LOOSEST,
};
use crate::parser::stmt::{Stmt, StmtList, StmtMeta};
use crate::runtime::strings::distinct;

verus! {

/// Whether the `n` tokens of `other` from `at` on are those of `toks` from
/// `pos` on, and the token behind them is the one behind those, or the end
/// of the text.
pub open spec fn same_tokens(toks: Seq<Lexed>, pos: int, other: Seq<Lexed>, at: int, n: int) -> bool {
    &&& 0 <= pos
    &&& 0 <= at
    &&& 0 <= n
    &&& pos + n <= toks.len()
    &&& at + n < other.len()
    &&& forall|j: int| at <= j < at + n ==> #[trigger] token_at(other, j) == token_at(toks, j - at + pos)
    &&& (token_at(other, at + n) == token_at(toks, pos + n) || token_at(other, at + n) == Some(
        Token::EOF,
    ))
}

/// What was parsed in `toks` from `pos` on, moved to the place `at`.
pub open spec fn moved<T>(parsed: Parsed<T>, pos: int, at: int) -> Parsed<T> {
    Parsed { result: parsed.result, next: parsed.next - pos + at }
}

/// Tokens that are the same over a stretch are the same over a stretch
/// inside it.
proof fn lemma_same_tokens_within(
    toks: Seq<Lexed>,
    pos: int,
    other: Seq<Lexed>,
    at: int,
    n: int,
    from: int,
    m: int,
)
    requires
        same_tokens(toks, pos, other, at, n),
        pos <= from,
        0 <= m,
        from + m <= pos + n,
    ensures
        same_tokens(toks, from, other, from - pos + at, m),
        from < pos + n ==> token_at(other, from - pos + at) == token_at(toks, from),
{
    let start = from - pos + at;
    assert forall|j: int| start <= j < start + m implies #[trigger] token_at(other, j) == token_at(
        toks,
        j - start + from,
    ) by {
        assert(token_at(other, j) == token_at(toks, j - at + pos));
    }
    if from + m < pos + n {
        assert(token_at(other, start + m) == token_at(toks, (start + m) - at + pos));
    }
    if from < pos + n {
        assert(token_at(other, start) == token_at(toks, start - at + pos));
    }
}

/// An atom that was parsed ends behind its first token, inside the tokens.
pub proof fn lemma_atom_ends(toks: Seq<Lexed>, pos: int)
    requires
        atom(toks, pos).result is Ok,
    ensures
        0 <= pos < atom(toks, pos).next <= toks.len(),
    decreases toks.len() - pos, 0int,
{
    if token_at(toks, pos) == Some(Token::OpenParen) && token_at(toks, pos + 1) != Some(
        Token::CloseParen,
    ) {
        lemma_expression_ends(toks, pos + 1);
    }
}

/// A unary expression that was parsed ends behind its first token, inside
/// the tokens.
pub proof fn lemma_unary_ends(toks: Seq<Lexed>, pos: int)
    requires
        unary_ok(toks, pos),
    ensures
        0 <= pos < unary(toks, pos).next <= toks.len(),
    decreases toks.len() - pos, 1int,
{
    match token_at(toks, pos) {
        Some(token) => match spec_unary_op(token) {
            Some(_) => lemma_unary_ends(toks, pos + 1),
            None => lemma_atom_ends(toks, pos),
        },
        None => lemma_atom_ends(toks, pos),
    }
}

/// Whether a unary expression was parsed at `pos`.
pub open spec fn unary_ok(toks: Seq<Lexed>, pos: int) -> bool {
    unary(toks, pos).result is Ok
}

/// The operators and operands that were parsed behind an operand end
/// inside the tokens, not before they start.
pub proof fn lemma_binary_tail_ends(toks: Seq<Lexed>, lhs: Expr, pos: int, level: nat)
    requires
        0 <= pos <= toks.len(),
        binary_tail(toks, lhs, pos, level).result is Ok,
    ensures
        pos <= binary_tail(toks, lhs, pos, level).next <= toks.len(),
        binary_tail(toks, lhs, pos, level).next > pos <==> continues(toks, pos, level),
    decreases toks.len() - pos, level + 1,
{
    if continues(toks, pos, level) {
        let op = spec_binary_op(token_at(toks, pos).unwrap()).unwrap();
        let rhs = binary(toks, pos + 1, (level - 1) as nat);
        lemma_binary_ends(toks, pos + 1, (level - 1) as nat);
        lemma_binary_tail_ends(
            toks,
            Expr::BinaryOp(op, Box::new(lhs), Box::new(rhs.result->Ok_0)),
            rhs.next,
            level,
        );
    }
}

/// Whether the token at `pos` is an operator of the level `level`, so that
/// a binary expression of that level goes on there.
pub open spec fn continues(toks: Seq<Lexed>, pos: int, level: nat) -> bool {
    match token_at(toks, pos) {
        Some(token) => match spec_binary_op(token) {
            Some(op) => op.level() == level && level >= 2,
            None => false,
        },
        None => false,
    }
}

/// A binary expression that was parsed ends behind its first token, inside
/// the tokens.
pub proof fn lemma_binary_ends(toks: Seq<Lexed>, pos: int, level: nat)
    requires
        binary(toks, pos, level).result is Ok,
    ensures
        0 <= pos < binary(toks, pos, level).next <= toks.len(),
    decreases toks.len() - pos, level + 2,
{
    if pos < 0 || pos > toks.len() {
    } else if level < 2 {
        lemma_unary_ends(toks, pos);
    } else {
        let lhs = binary(toks, pos, (level - 1) as nat);
        lemma_binary_ends(toks, pos, (level - 1) as nat);
        lemma_binary_tail_ends(toks, lhs.result->Ok_0, lhs.next, level);
    }
}

/// Whether the expression at `pos` is an assignment: a target, `=`, and
/// the expression that is assigned.
pub open spec fn assigns(toks: Seq<Lexed>, pos: int) -> bool {
    let lhs = binary(toks, pos, LOOSEST as nat);
    &&& lhs.result matches Ok(target)
    &&& token_at(toks, lhs.next) == Some(Token::OpAssign)
    &&& lhs.next >= pos
}

/// An expression that was parsed ends behind its first token, inside the
/// tokens.
pub proof fn lemma_expression_ends(toks: Seq<Lexed>, pos: int)
    requires
        expression(toks, pos).result is Ok,
    ensures
        0 <= pos < expression(toks, pos).next <= toks.len(),
    decreases toks.len() - pos, 14int,
{
    if pos < 0 || pos > toks.len() {
    } else {
        let lhs = binary(toks, pos, LOOSEST as nat);
        lemma_binary_ends(toks, pos, LOOSEST as nat);
        if assigns(toks, pos) {
            lemma_expression_ends(toks, lhs.next + 1);
        }
    }
}

/// An atom is the atom of its own tokens, wherever they stand.
pub proof fn lemma_atom_is_local(toks: Seq<Lexed>, pos: int, other: Seq<Lexed>, at: int)
    requires
        atom(toks, pos).result is Ok,
        same_tokens(toks, pos, other, at, atom(toks, pos).next - pos),
    ensures
        atom(other, at) == moved(atom(toks, pos), pos, at),
    decreases toks.len() - pos, 0int,
{
    let n = atom(toks, pos).next - pos;
    lemma_atom_ends(toks, pos);
    lemma_same_tokens_within(toks, pos, other, at, n, pos, 0);
    if token_at(toks, pos) == Some(Token::OpenParen) {
        lemma_same_tokens_within(toks, pos, other, at, n, pos + 1, 0);
        if token_at(toks, pos + 1) != Some(Token::CloseParen) {
            let inner = expression(toks, pos + 1);
            lemma_expression_ends(toks, pos + 1);
            lemma_same_tokens_within(toks, pos, other, at, n, pos + 1, inner.next - pos - 1);
            lemma_expression_is_local(toks, pos + 1, other, at + 1);
            lemma_same_tokens_within(toks, pos, other, at, n, inner.next, 0);
        }
    }
}

/// A unary expression is that of its own tokens, wherever they stand.
pub proof fn lemma_unary_is_local(toks: Seq<Lexed>, pos: int, other: Seq<Lexed>, at: int)
    requires
        unary(toks, pos).result is Ok,
        same_tokens(toks, pos, other, at, unary(toks, pos).next - pos),
    ensures
        unary(other, at) == moved(unary(toks, pos), pos, at),
    decreases toks.len() - pos, 1int,
{
    let n = unary(toks, pos).next - pos;
    lemma_unary_ends(toks, pos);
    lemma_same_tokens_within(toks, pos, other, at, n, pos, 0);
    match token_at(toks, pos) {
        Some(token) => match spec_unary_op(token) {
            Some(_) => {
                lemma_unary_ends(toks, pos + 1);
                lemma_same_tokens_within(toks, pos, other, at, n, pos + 1, n - 1);
                lemma_unary_is_local(toks, pos + 1, other, at + 1);
            },
            None => lemma_atom_is_local(toks, pos, other, at),
        },
        None => lemma_atom_is_local(toks, pos, other, at),
    }
}

/// The operators and operands behind an operand are those of their own
/// tokens, wherever they stand.
pub proof fn lemma_binary_tail_is_local(
    toks: Seq<Lexed>,
    lhs: Expr,
    pos: int,
    level: nat,
    other: Seq<Lexed>,
    at: int,
)
    requires
        0 <= pos <= toks.len(),
        binary_tail(toks, lhs, pos, level).result is Ok,
        same_tokens(toks, pos, other, at, binary_tail(toks, lhs, pos, level).next - pos),
    ensures
        binary_tail(other, lhs, at, level) == moved(binary_tail(toks, lhs, pos, level), pos, at),
    decreases toks.len() - pos, level + 1,
{
    let n = binary_tail(toks, lhs, pos, level).next - pos;
    lemma_binary_tail_ends(toks, lhs, pos, level);
    if continues(toks, pos, level) {
        let op = spec_binary_op(token_at(toks, pos).unwrap()).unwrap();
        let rhs = binary(toks, pos + 1, (level - 1) as nat);
        let joined = Expr::BinaryOp(op, Box::new(lhs), Box::new(rhs.result->Ok_0));
        lemma_binary_ends(toks, pos + 1, (level - 1) as nat);
        lemma_binary_tail_ends(toks, joined, rhs.next, level);
        lemma_same_tokens_within(toks, pos, other, at, n, pos, 0);
        lemma_same_tokens_within(toks, pos, other, at, n, pos + 1, rhs.next - pos - 1);
        lemma_binary_is_local(toks, pos + 1, (level - 1) as nat, other, at + 1);
        lemma_same_tokens_within(toks, pos, other, at, n, rhs.next, n - (rhs.next - pos));
        lemma_binary_tail_is_local(toks, joined, rhs.next, level, other, rhs.next - pos + at);
    } else {
        assert(n == 0);
        assert(!continues(other, at, level));
    }
}

/// A binary expression is that of its own tokens, wherever they stand.
pub proof fn lemma_binary_is_local(toks: Seq<Lexed>, pos: int, level: nat, other: Seq<Lexed>, at: int)
    requires
        binary(toks, pos, level).result is Ok,
        same_tokens(toks, pos, other, at, binary(toks, pos, level).next - pos),
    ensures
        binary(other, at, level) == moved(binary(toks, pos, level), pos, at),
    decreases toks.len() - pos, level + 2,
{
    let n = binary(toks, pos, level).next - pos;
    lemma_binary_ends(toks, pos, level);
    if level < 2 {
        lemma_unary_is_local(toks, pos, other, at);
    } else {
        let lhs = binary(toks, pos, (level - 1) as nat);
        lemma_binary_ends(toks, pos, (level - 1) as nat);
        lemma_binary_tail_ends(toks, lhs.result->Ok_0, lhs.next, level);
        lemma_same_tokens_within(toks, pos, other, at, n, pos, lhs.next - pos);
        lemma_binary_is_local(toks, pos, (level - 1) as nat, other, at);
        lemma_same_tokens_within(toks, pos, other, at, n, lhs.next, n - (lhs.next - pos));
        lemma_binary_tail_is_local(toks, lhs.result->Ok_0, lhs.next, level, other, lhs.next - pos + at);
    }
}

/// What an expression is depends on its own tokens only: where the tokens
/// of an expression that was parsed stand in other tokens, with the token
/// behind it or the end of the text behind them, they are parsed to the
/// same expression, which ends where they end.
pub proof fn lemma_expression_is_local(toks: Seq<Lexed>, pos: int, other: Seq<Lexed>, at: int)
    requires
        expression(toks, pos).result is Ok,
        same_tokens(toks, pos, other, at, expression(toks, pos).next - pos),
    ensures
        expression(other, at) == moved(expression(toks, pos), pos, at),
    decreases toks.len() - pos, 14int,
{
    let n = expression(toks, pos).next - pos;
    lemma_expression_ends(toks, pos);
    let lhs = binary(toks, pos, LOOSEST as nat);
    lemma_binary_ends(toks, pos, LOOSEST as nat);
    if assigns(toks, pos) {
        assert(spec_is_lvalue(&lhs.result->Ok_0));
        let rhs = expression(toks, lhs.next + 1);
        lemma_expression_ends(toks, lhs.next + 1);
        lemma_same_tokens_within(toks, pos, other, at, n, pos, lhs.next - pos);
        lemma_binary_is_local(toks, pos, LOOSEST as nat, other, at);
        lemma_same_tokens_within(toks, pos, other, at, n, lhs.next, 0);
        lemma_same_tokens_within(toks, pos, other, at, n, lhs.next + 1, n - (lhs.next + 1 - pos));
        lemma_expression_is_local(toks, lhs.next + 1, other, lhs.next + 1 - pos + at);
    } else {
        lemma_binary_is_local(toks, pos, LOOSEST as nat, other, at);
        assert(!assigns(other, at));
    }
}

/// Whether an operand can end with `token`: with a literal, a name or a
/// closing parenthesis.
pub open spec fn ends_operand(token: Option<Token>) -> bool {
    match token {
        Some(Token::Nil) => true,
        Some(Token::True) => true,
        Some(Token::False) => true,
        Some(Token::IntegerLiteral(_)) => true,
        Some(Token::StringLiteral(_)) => true,
        Some(Token::Identifier(_)) => true,
        Some(Token::CloseParen) => true,
        _ => false,
    }
}

/// An atom ends with a token that can end an operand.
pub proof fn lemma_atom_last(toks: Seq<Lexed>, pos: int)
    requires
        atom(toks, pos).result is Ok,
    ensures
        ends_operand(token_at(toks, atom(toks, pos).next - 1)),
{
}

/// A unary expression ends with a token that can end an operand.
pub proof fn lemma_unary_last(toks: Seq<Lexed>, pos: int)
    requires
        unary(toks, pos).result is Ok,
    ensures
        ends_operand(token_at(toks, unary(toks, pos).next - 1)),
    decreases toks.len() - pos,
{
    match token_at(toks, pos) {
        Some(token) => match spec_unary_op(token) {
            Some(_) => lemma_unary_last(toks, pos + 1),
            None => lemma_atom_last(toks, pos),
        },
        None => lemma_atom_last(toks, pos),
    }
}

/// What follows an operand ends with a token that can end an operand, as
/// the operand does.
pub proof fn lemma_binary_tail_last(toks: Seq<Lexed>, lhs: Expr, pos: int, level: nat)
    requires
        0 <= pos <= toks.len(),
        binary_tail(toks, lhs, pos, level).result is Ok,
        ends_operand(token_at(toks, pos - 1)),
    ensures
        ends_operand(token_at(toks, binary_tail(toks, lhs, pos, level).next - 1)),
    decreases toks.len() - pos, level + 1,
{
    if continues(toks, pos, level) {
        let op = spec_binary_op(token_at(toks, pos).unwrap()).unwrap();
        let rhs = binary(toks, pos + 1, (level - 1) as nat);
        lemma_binary_ends(toks, pos + 1, (level - 1) as nat);
        lemma_binary_last(toks, pos + 1, (level - 1) as nat);
        lemma_binary_tail_last(
            toks,
            Expr::BinaryOp(op, Box::new(lhs), Box::new(rhs.result->Ok_0)),
            rhs.next,
            level,
        );
    }
}

/// A binary expression ends with a token that can end an operand.
pub proof fn lemma_binary_last(toks: Seq<Lexed>, pos: int, level: nat)
    requires
        binary(toks, pos, level).result is Ok,
    ensures
        ends_operand(token_at(toks, binary(toks, pos, level).next - 1)),
    decreases toks.len() - pos, level + 2,
{
    if pos < 0 || pos > toks.len() {
    } else if level < 2 {
        lemma_unary_last(toks, pos);
    } else {
        let lhs = binary(toks, pos, (level - 1) as nat);
        lemma_binary_ends(toks, pos, (level - 1) as nat);
        lemma_binary_last(toks, pos, (level - 1) as nat);
        lemma_binary_tail_last(toks, lhs.result->Ok_0, lhs.next, level);
    }
}

/// An expression ends with a token that can end an operand.
pub proof fn lemma_expression_last(toks: Seq<Lexed>, pos: int)
    requires
        expression(toks, pos).result is Ok,
    ensures
        ends_operand(token_at(toks, expression(toks, pos).next - 1)),
    decreases toks.len() - pos, 14int,
{
    if pos < 0 || pos > toks.len() {
    } else {
        let lhs = binary(toks, pos, LOOSEST as nat);
        lemma_binary_ends(toks, pos, LOOSEST as nat);
        lemma_binary_last(toks, pos, LOOSEST as nat);
        if assigns(toks, pos) {
            lemma_expression_last(toks, lhs.next + 1);
        }
    }
}

/// The source text from the lexeme of one item of a tokenized text to that
/// of another goes from where the first lexeme starts up to where the lexer
/// stands after the last.
pub proof fn lemma_symbol_of_lexemes(
    rules: Seq<RuleSpec>,
    src: Seq<char>,
    before: Seq<Seq<char>>,
    toks: Seq<Lexed>,
    after: Seq<Seq<char>>,
    first: nat,
    last: nat,
)
    requires
        src.len() <= usize::MAX,
        tokenized(rules, src, 0, before, toks, after),
        first <= last < toks.len(),
    ensures
        symbol_between(toks, first as int, last as int).start == skip_blank(
            src,
            position_after(rules, src, 0, first),
        ),
        symbol_between(toks, first as int, last as int).end == position_after(rules, src, 0, last + 1),
{
    lemma_position_after(rules, src, 0, first);
    lemma_position_after(rules, src, 0, last);
    lemma_position_after(rules, src, 0, last + 1);
    lemma_scan_step(rules, src, position_after(rules, src, 0, first));
    lemma_scan_step(rules, src, position_after(rules, src, 0, last));
    lemma_item_location(rules, src, 0, before, toks, after, first);
    lemma_item_location(rules, src, 0, before, toks, after, last);
    assert(location_at(toks, first as int) == location_of(toks[first as int]));
    assert(location_at(toks, last as int) == location_of(toks[last as int]));
}

/// The source text of an expression is read as that expression again,
/// whatever the rules of the lexer are, if they do not heed what stands
/// before the expression.
///
/// Where an expression was parsed in the tokens of a text, the tokens of
/// the piece of the text from its first lexeme to its last are parsed to
/// the same expression, which takes all of them; with the strings of the
/// text interned, no string is added.
pub proof fn lemma_expression_round_trip_with(
    rules: Seq<RuleSpec>,
    src: Seq<char>,
    before: Seq<Seq<char>>,
    toks: Seq<Lexed>,
    after: Seq<Seq<char>>,
    pos: int,
    sub_toks: Seq<Lexed>,
    sub_after: Seq<Seq<char>>,
)
    requires
        src.len() <= usize::MAX,
        distinct(before),
        tokenized(rules, src, 0, before, toks, after),
        expression(toks, pos).result is Ok,
        ({
            let symbol = symbol_between(toks, pos, expression(toks, pos).next - 1);
            &&& symbol.start < src.len() ==> all_blind_to(
                rules,
                char_before(src, symbol.start as int),
                src[symbol.start as int],
            )
            &&& tokenized(
                rules,
                src.subrange(symbol.start as int, symbol.end as int),
                0,
                after,
                sub_toks,
                sub_after,
            )
        }),
    ensures
        expression(sub_toks, 0) == moved(expression(toks, pos), pos, 0),
        sub_toks.len() == expression(toks, pos).next - pos + 1,
        sub_after == after,
{
    let next = expression(toks, pos).next;
    lemma_expression_ends(toks, pos);
    lemma_expression_last(toks, pos);
    lemma_tokenized_grows(rules, src, 0, before, toks, after);
    assert(token_at(toks, next - 1) == token_of(toks[next - 1]));
    assert(!is_end(toks[next - 1]));
    let n = (next - pos) as nat;
    let first = pos as nat;
    let a = skip_blank(src, position_after(rules, src, 0, first));
    let b = position_after(rules, src, 0, first + n);
    lemma_symbol_of_lexemes(rules, src, before, toks, after, first, (next - 1) as nat);
    lemma_position_after(rules, src, 0, first);
    lemma_scan_step(rules, src, position_after(rules, src, 0, first));
    lemma_position_rises(rules, src, 0, first + 1, first + n);
    lemma_position_after(rules, src, 0, first + n);
    if a < src.len() {
        lemma_blind_at(rules, src, a, b - a);
    } else {
        assert(blind_at(rules, src, a, b - a));
    }
    lemma_tokens_of_lexemes(rules, src, before, toks, after, first, n, sub_toks, sub_after);
    assert forall|j: int| 0 <= j < n implies #[trigger] token_at(sub_toks, j) == token_at(
        toks,
        j - 0 + pos,
    ) by {
        assert(token_of(sub_toks[j]) == token_of(toks[first + j]));
    }
    assert(same_tokens(toks, pos, sub_toks, 0, n as int));
    lemma_expression_is_local(toks, pos, sub_toks, 0);
}

/// The source text of an expression of the language is read as that
/// expression again.
///
/// Where an expression was parsed in the tokens of a text, and the piece of
/// the text from its first lexeme to its last starts at a word boundary or
/// as no keyword does, the tokens of that piece are parsed to the same
/// expression, which takes all of them; with the strings of the text
/// interned, no string is added.
pub proof fn lemma_expression_round_trip(
    src: Seq<char>,
    before: Seq<Seq<char>>,
    toks: Seq<Lexed>,
    after: Seq<Seq<char>>,
    pos: int,
    sub_toks: Seq<Lexed>,
    sub_after: Seq<Seq<char>>,
)
    requires
        src.len() <= usize::MAX,
        distinct(before),
        tokenized(language_grammar(), src, 0, before, toks, after),
        expression(toks, pos).result is Ok,
        ({
            let symbol = symbol_between(toks, pos, expression(toks, pos).next - 1);
            &&& symbol.start < src.len() ==> word_boundary(char_before(src, symbol.start as int))
                || !starts_keyword(src[symbol.start as int])
            &&& tokenized(
                language_grammar(),
                src.subrange(symbol.start as int, symbol.end as int),
                0,
                after,
                sub_toks,
                sub_after,
            )
        }),
    ensures
        expression(sub_toks, 0) == moved(expression(toks, pos), pos, 0),
        sub_toks.len() == expression(toks, pos).next - pos + 1,
        sub_after == after,
{
    let symbol = symbol_between(toks, pos, expression(toks, pos).next - 1);
    if symbol.start < src.len() {
        lemma_language_is_blind(char_before(src, symbol.start as int), src[symbol.start as int]);
    }
    lemma_expression_round_trip_with(language_grammar(), src, before, toks, after, pos, sub_toks, sub_after);
}

/// The source text `symbol`, seen from the piece of the text that starts
/// at `a`.
pub open spec fn symbol_from(symbol: DebugSymbol, a: int) -> DebugSymbol {
    DebugSymbol { start: (symbol.start - a) as usize, end: (symbol.end - a) as usize }
}

/// Whether `other` is the expression `expr` with its source text seen from
/// the piece of the text that starts at `a`.
pub open spec fn same_expression(expr: ExprMeta, other: ExprMeta, a: int) -> bool {
    other.expr == expr.expr && other.symbol == symbol_from(expr.symbol, a)
}

/// Whether `other` is the statement `stmt`, one that the parser makes, with
/// its source text, and that of the statements in it, seen from the piece
/// of the text that starts at `a`.
pub open spec fn same_statement(stmt: Stmt, other: Stmt, a: int) -> bool
    decreases stmt,
{
    match stmt {
        Stmt::Expression(expr) => other matches Stmt::Expression(found) && same_expression(
            expr,
            found,
            a,
        ),
        Stmt::Echo(expr) => other matches Stmt::Echo(found) && same_expression(expr, found, a),
        Stmt::Assert(expr) => other matches Stmt::Assert(found) && same_expression(expr, found, a),
        Stmt::Declaration { name, init, mutable } => other matches Stmt::Declaration {
            name: other_name,
            init: other_init,
            mutable: other_mutable,
        } && other_name == name && other_mutable == mutable && same_expression(init, other_init, a),
        Stmt::Break => other is Break,
        Stmt::Continue => other is Continue,
        Stmt::Block(list) => other matches Stmt::Block(found) && same_list(list, found, a),
        Stmt::If { cond, then, otherwise } => {
            &&& other is If
            &&& same_expression(cond, other->If_cond, a)
            &&& other->If_then.symbol == symbol_from(then.symbol, a)
            &&& same_statement(then.stmt, other->If_then.stmt, a)
            &&& match otherwise {
                Some(second) => {
                    &&& other->If_otherwise is Some
                    &&& other->If_otherwise->Some_0.symbol == symbol_from(second.symbol, a)
                    &&& same_statement(second.stmt, other->If_otherwise->Some_0.stmt, a)
                },
                None => other->If_otherwise is None,
            }
        },
        Stmt::While { cond, body } => {
            &&& other is While
            &&& same_expression(cond, other->While_cond, a)
            &&& other->While_body.symbol == symbol_from(body.symbol, a)
            &&& same_statement(body.stmt, other->While_body.stmt, a)
        },
        _ => false,
    }
}

/// Whether `other` holds the statements of `list`, with their source text
/// seen from the piece of the text that starts at `a`.
pub open spec fn same_list(list: StmtList, other: StmtList, a: int) -> bool
    decreases list,
{
    match list {
        StmtList::Nil => other is Nil,
        StmtList::Cons(first, rest) => {
            &&& other is Cons
            &&& other->Cons_0.symbol == symbol_from(first.symbol, a)
            &&& same_statement(first.stmt, other->Cons_0.stmt, a)
            &&& same_list(*rest, *other->Cons_1, a)
        },
    }
}

/// Whether `other` is the statement `meta` with its source text seen from
/// the piece of the text that starts at `a`.
pub open spec fn same_meta(meta: StmtMeta, other: StmtMeta, a: int) -> bool {
    other.symbol == symbol_from(meta.symbol, a) && same_statement(meta.stmt, other.stmt, a)
}

/// Whether the `n` lexemes of `other` from `at` on lie where those of
/// `toks` from `pos` on lie, seen from the piece of the text that starts at
/// `a`; the lexemes lie in that piece, in a text that can be addressed.
pub open spec fn same_places(toks: Seq<Lexed>, pos: int, other: Seq<Lexed>, at: int, n: int, a: int) -> bool {
    &&& 0 <= a
    &&& 0 <= pos
    &&& 0 <= at
    &&& pos + n <= toks.len()
    &&& at + n <= other.len()
    &&& forall|j: int|
        at <= j < at + n ==> #[trigger] location_at(other, j) == span_from(
            location_at(toks, j - at + pos),
            a,
        )
    &&& forall|j: int|
        pos <= j < pos + n ==> a <= (#[trigger] location_at(toks, j)).index && location_at(toks, j).index
            + location_at(toks, j).length <= usize::MAX
}

/// The source text between two lexemes is the same text seen from a piece
/// that holds both.
pub proof fn lemma_symbol_moves(
    toks: Seq<Lexed>,
    pos: int,
    other: Seq<Lexed>,
    at: int,
    n: int,
    a: int,
    first: int,
    last: int,
)
    requires
        same_places(toks, pos, other, at, n, a),
        pos <= first <= last < pos + n,
    ensures
        symbol_between(other, first - pos + at, last - pos + at) == symbol_from(
            symbol_between(toks, first, last),
            a,
        ),
{
    let f = first - pos + at;
    let l = last - pos + at;
    assert(location_at(other, f) == span_from(location_at(toks, f - at + pos), a));
    assert(location_at(other, l) == span_from(location_at(toks, l - at + pos), a));
    assert(a <= location_at(toks, first).index);
    assert(a <= location_at(toks, last).index);
}

/// Whether a statement can end with `token`: with what can end an
/// operand, with the brace that closes a block, or with `break` or
/// `continue`.
pub open spec fn ends_statement(token: Option<Token>) -> bool {
    ends_operand(token) || token == Some(Token::CloseBrace) || token == Some(Token::Break) || token
        == Some(Token::Continue)
}

/// A statement that was parsed ends behind its first token, inside the
/// tokens, with a token that can end a statement.
pub proof fn lemma_statement_ends(toks: Seq<Lexed>, pos: int)
    requires
        statement(toks, pos).result is Ok,
    ensures
        0 <= pos < statement(toks, pos).next <= toks.len(),
        ends_statement(token_at(toks, statement(toks, pos).next - 1)),
    decreases toks.len() - pos, 15int,
{
    match token_at(toks, pos) {
        Some(Token::Echo) | Some(Token::Assert) => {
            lemma_expression_ends(toks, pos + 1);
            lemma_expression_last(toks, pos + 1);
        },
        Some(Token::Var) | Some(Token::Let) => {
            lemma_expression_ends(toks, pos + 3);
            lemma_expression_last(toks, pos + 3);
        },
        Some(Token::Break) | Some(Token::Continue) => {},
        Some(Token::OpenBrace) => {
            lemma_block_ends(toks, pos + 1);
        },
        Some(Token::If) => {
            let cond = expression(toks, pos + 1);
            lemma_expression_ends(toks, pos + 1);
            lemma_body_is_statement(toks, pos, cond.next);
            lemma_statement_ends(toks, cond.next);
            let then = body_statement(toks, pos, cond.next);
            if token_at(toks, then.next) == Some(Token::Else) {
                lemma_body_is_statement(toks, pos, then.next + 1);
                lemma_statement_ends(toks, then.next + 1);
            }
        },
        Some(Token::While) => {
            let cond = expression(toks, pos + 1);
            lemma_expression_ends(toks, pos + 1);
            lemma_body_is_statement(toks, pos, cond.next);
            lemma_statement_ends(toks, cond.next);
        },
        _ => {
            lemma_expression_ends(toks, pos);
            lemma_expression_last(toks, pos);
        },
    }
}

/// The statement behind a condition, where one was parsed, is the
/// statement that stands there, with its source text.
pub proof fn lemma_body_is_statement(toks: Seq<Lexed>, pos: int, next: int)
    requires
        body_statement(toks, pos, next).result is Ok,
    ensures
        pos < next < toks.len(),
        statement(toks, next).result is Ok,
        next < statement(toks, next).next <= toks.len(),
        body_statement(toks, pos, next) == (Parsed {
            result: Ok::<StmtMeta, SyntaxError>(
                StmtMeta::spec_new(
                    statement(toks, next).result->Ok_0,
                    symbol_between(toks, next, statement(toks, next).next - 1),
                ),
            ),
            next: statement(toks, next).next,
        }),
{
    let inner = inner_statement(toks, pos, next);
    assert(inner.result is Ok);
}

/// The statements of a block that was parsed end with the brace that
/// closes the block, inside the tokens.
pub proof fn lemma_block_ends(toks: Seq<Lexed>, pos: int)
    requires
        block_items(toks, pos).result is Ok,
    ensures
        0 <= pos < block_items(toks, pos).next <= toks.len(),
        token_at(toks, block_items(toks, pos).next - 1) == Some(Token::CloseBrace),
    decreases toks.len() - pos, 17int,
{
    if token_at(toks, pos) != Some(Token::CloseBrace) {
        let first = inner_statement(toks, pos, pos);
        assert(first.result is Ok);
        assert(statement(toks, pos).result is Ok);
        lemma_statement_ends(toks, pos);
        let end = behind_semicolon(toks, statement(toks, pos).next);
        assert(block_items(toks, end).result is Ok);
        lemma_block_ends(toks, end);
    }
}

/// Lexemes that lie in the same places over a stretch do so over a
/// stretch inside it.
proof fn lemma_same_places_within(
    toks: Seq<Lexed>,
    pos: int,
    other: Seq<Lexed>,
    at: int,
    n: int,
    a: int,
    from: int,
    m: int,
)
    requires
        same_places(toks, pos, other, at, n, a),
        pos <= from,
        0 <= m,
        from + m <= pos + n,
    ensures
        same_places(toks, from, other, from - pos + at, m, a),
{
    let start = from - pos + at;
    assert forall|j: int| start <= j < start + m implies #[trigger] location_at(other, j) == span_from(
        location_at(toks, j - start + from),
        a,
    ) by {
        assert(location_at(other, j) == span_from(location_at(toks, j - at + pos), a));
    }
}

/// See `lemma_statement_is_local`: the statements that hold no other
/// statement.
proof fn lemma_plain_is_local(toks: Seq<Lexed>, pos: int, other: Seq<Lexed>, at: int, a: int)
    requires
        statement(toks, pos).result is Ok,
        token_at(toks, pos) != Some(Token::OpenBrace),
        token_at(toks, pos) != Some(Token::If),
        token_at(toks, pos) != Some(Token::While),
        token_at(toks, pos) != Some(Token::Break),
        token_at(toks, pos) != Some(Token::Continue),
        same_tokens(toks, pos, other, at, statement(toks, pos).next - pos),
        same_places(toks, pos, other, at, statement(toks, pos).next - pos, a),
    ensures
        statement(other, at).result is Ok,
        statement(other, at).next == statement(toks, pos).next - pos + at,
        same_statement(statement(toks, pos).result->Ok_0, statement(other, at).result->Ok_0, a),
{
    let next = statement(toks, pos).next;
    let n = next - pos;
    lemma_statement_ends(toks, pos);
    lemma_same_tokens_within(toks, pos, other, at, n, pos, 0);
    let skip: int = match token_at(toks, pos) {
        Some(Token::Echo) => 1,
        Some(Token::Assert) => 1,
        Some(Token::Var) | Some(Token::Let) => 3,
        _ => 0,
    };
    if skip == 3 {
        lemma_same_tokens_within(toks, pos, other, at, n, pos + 1, 0);
        lemma_same_tokens_within(toks, pos, other, at, n, pos + 2, 0);
    }
    lemma_expression_ends(toks, pos + skip);
    lemma_same_tokens_within(toks, pos, other, at, n, pos + skip, n - skip);
    lemma_expression_is_local(toks, pos + skip, other, at + skip);
    lemma_symbol_moves(toks, pos, other, at, n, a, pos + skip, next - 1);
}

/// See `lemma_statement_is_local`: the statement behind a condition.
proof fn lemma_body_is_local(
    toks: Seq<Lexed>,
    pos: int,
    next: int,
    other: Seq<Lexed>,
    at: int,
    a: int,
)
    requires
        body_statement(toks, pos, next).result is Ok,
        0 <= at,
        same_tokens(
            toks,
            next,
            other,
            next - pos + at,
            body_statement(toks, pos, next).next - next,
        ),
        same_places(
            toks,
            next,
            other,
            next - pos + at,
            body_statement(toks, pos, next).next - next,
            a,
        ),
    ensures
        body_statement(other, at, next - pos + at).result is Ok,
        body_statement(other, at, next - pos + at).next == body_statement(toks, pos, next).next - pos
            + at,
        same_meta(
            body_statement(toks, pos, next).result->Ok_0,
            body_statement(other, at, next - pos + at).result->Ok_0,
            a,
        ),
    decreases toks.len() - next, 16int,
{
    let end = body_statement(toks, pos, next).next;
    let from = next - pos + at;
    lemma_body_is_statement(toks, pos, next);
    lemma_statement_is_local(toks, next, other, from, a);
    lemma_symbol_moves(toks, next, other, from, end - next, a, next, end - 1);
    let inner = inner_statement(other, at, from);
    assert(inner.result is Ok);
    assert(body_statement(other, at, from) == inner);
}

/// See `lemma_statement_is_local`: `if`.
#[verifier::rlimit(100)]
proof fn lemma_if_is_local(toks: Seq<Lexed>, pos: int, other: Seq<Lexed>, at: int, a: int)
    requires
        statement(toks, pos).result is Ok,
        token_at(toks, pos) == Some(Token::If),
        same_tokens(toks, pos, other, at, statement(toks, pos).next - pos),
        same_places(toks, pos, other, at, statement(toks, pos).next - pos, a),
    ensures
        statement(other, at).result is Ok,
        statement(other, at).next == statement(toks, pos).next - pos + at,
        same_statement(statement(toks, pos).result->Ok_0, statement(other, at).result->Ok_0, a),
    decreases toks.len() - pos, 14int,
{
    let next = statement(toks, pos).next;
    let n = next - pos;
    lemma_statement_ends(toks, pos);
    lemma_same_tokens_within(toks, pos, other, at, n, pos, 0);
    let cond = expression(toks, pos + 1);
    lemma_expression_ends(toks, pos + 1);
    let then = body_statement(toks, pos, cond.next);
    lemma_body_is_statement(toks, pos, cond.next);
    let more = token_at(toks, then.next) == Some(Token::Else);
    if more {
        lemma_body_is_statement(toks, pos, then.next + 1);
    }
    lemma_same_tokens_within(toks, pos, other, at, n, pos + 1, cond.next - pos - 1);
    lemma_expression_is_local(toks, pos + 1, other, at + 1);
    lemma_symbol_moves(toks, pos, other, at, n, a, pos + 1, cond.next - 1);
    lemma_same_tokens_within(toks, pos, other, at, n, cond.next, then.next - cond.next);
    lemma_same_places_within(toks, pos, other, at, n, a, cond.next, then.next - cond.next);
    lemma_body_is_local(toks, pos, cond.next, other, at, a);
    lemma_same_tokens_within(toks, pos, other, at, n, then.next, 0);
    if more {
        let from = then.next + 1;
        lemma_same_tokens_within(toks, pos, other, at, n, from, next - from);
        lemma_same_places_within(toks, pos, other, at, n, a, from, next - from);
        lemma_body_is_local(toks, pos, from, other, at, a);
    }
}

/// See `lemma_statement_is_local`: `while`.
proof fn lemma_while_is_local(toks: Seq<Lexed>, pos: int, other: Seq<Lexed>, at: int, a: int)
    requires
        statement(toks, pos).result is Ok,
        token_at(toks, pos) == Some(Token::While),
        same_tokens(toks, pos, other, at, statement(toks, pos).next - pos),
        same_places(toks, pos, other, at, statement(toks, pos).next - pos, a),
    ensures
        statement(other, at).result is Ok,
        statement(other, at).next == statement(toks, pos).next - pos + at,
        same_statement(statement(toks, pos).result->Ok_0, statement(other, at).result->Ok_0, a),
    decreases toks.len() - pos, 14int,
{
    let next = statement(toks, pos).next;
    let n = next - pos;
    lemma_statement_ends(toks, pos);
    lemma_same_tokens_within(toks, pos, other, at, n, pos, 0);
    let cond = expression(toks, pos + 1);
    lemma_expression_ends(toks, pos + 1);
    lemma_body_is_statement(toks, pos, cond.next);
    lemma_same_tokens_within(toks, pos, other, at, n, pos + 1, cond.next - pos - 1);
    lemma_expression_is_local(toks, pos + 1, other, at + 1);
    lemma_symbol_moves(toks, pos, other, at, n, a, pos + 1, cond.next - 1);
    lemma_same_tokens_within(toks, pos, other, at, n, cond.next, next - cond.next);
    lemma_same_places_within(toks, pos, other, at, n, a, cond.next, next - cond.next);
    lemma_body_is_local(toks, pos, cond.next, other, at, a);
}

/// A statement is that of its own tokens, wherever they stand, with its
/// source text seen from where the tokens lie.
pub proof fn lemma_statement_is_local(toks: Seq<Lexed>, pos: int, other: Seq<Lexed>, at: int, a: int)
    requires
        statement(toks, pos).result is Ok,
        same_tokens(toks, pos, other, at, statement(toks, pos).next - pos),
        same_places(toks, pos, other, at, statement(toks, pos).next - pos, a),
    ensures
        statement(other, at).result is Ok,
        statement(other, at).next == statement(toks, pos).next - pos + at,
        same_statement(statement(toks, pos).result->Ok_0, statement(other, at).result->Ok_0, a),
    decreases toks.len() - pos, 15int,
{
    let next = statement(toks, pos).next;
    let n = next - pos;
    lemma_statement_ends(toks, pos);
    match token_at(toks, pos) {
        Some(Token::OpenBrace) => {
            lemma_same_tokens_within(toks, pos, other, at, n, pos, 0);
            assert(block_items(toks, pos + 1).result is Ok);
            lemma_block_ends(toks, pos + 1);
            lemma_same_tokens_within(toks, pos, other, at, n, pos + 1, n - 1);
            lemma_same_places_within(toks, pos, other, at, n, a, pos + 1, n - 1);
            lemma_block_is_local(toks, pos + 1, other, at + 1, a);
        },
        Some(Token::If) => lemma_if_is_local(toks, pos, other, at, a),
        Some(Token::While) => lemma_while_is_local(toks, pos, other, at, a),
        Some(Token::Break) | Some(Token::Continue) => {
            lemma_same_tokens_within(toks, pos, other, at, n, pos, 0);
        },
        _ => lemma_plain_is_local(toks, pos, other, at, a),
    }
}

/// The statements of a block are those of their own tokens, wherever they
/// stand, with their source text seen from where the tokens lie.
pub proof fn lemma_block_is_local(toks: Seq<Lexed>, pos: int, other: Seq<Lexed>, at: int, a: int)
    requires
        block_items(toks, pos).result is Ok,
        same_tokens(toks, pos, other, at, block_items(toks, pos).next - pos),
        same_places(toks, pos, other, at, block_items(toks, pos).next - pos, a),
    ensures
        block_items(other, at).result is Ok,
        block_items(other, at).next == block_items(toks, pos).next - pos + at,
        same_list(block_items(toks, pos).result->Ok_0, block_items(other, at).result->Ok_0, a),
    decreases toks.len() - pos, 17int,
{
    let next = block_items(toks, pos).next;
    let n = next - pos;
    lemma_block_ends(toks, pos);
    lemma_same_tokens_within(toks, pos, other, at, n, pos, 0);
    if token_at(toks, pos) != Some(Token::CloseBrace) {
        let inner = inner_statement(toks, pos, pos);
        assert(inner.result is Ok);
        let first = statement(toks, pos);
        assert(first.result is Ok);
        let end = behind_semicolon(toks, first.next);
        lemma_statement_ends(toks, pos);
        assert(block_items(toks, end).result is Ok);
        lemma_block_ends(toks, end);
        lemma_same_tokens_within(toks, pos, other, at, n, pos, first.next - pos);
        lemma_same_places_within(toks, pos, other, at, n, a, pos, first.next - pos);
        lemma_statement_is_local(toks, pos, other, at, a);
        lemma_same_tokens_within(toks, pos, other, at, n, first.next, 0);
        lemma_symbol_moves(toks, pos, other, at, n, a, pos, first.next - 1);
        lemma_symbol_moves(toks, pos, other, at, n, a, pos, end - 1);
        lemma_same_tokens_within(toks, pos, other, at, n, end, next - end);
        lemma_same_places_within(toks, pos, other, at, n, a, end, next - end);
        lemma_block_is_local(toks, end, other, end - pos + at, a);
        let other_inner = inner_statement(other, at, at);
        assert(other_inner.result is Ok);
        assert(behind_semicolon(other, statement(other, at).next) == end - pos + at);
    }
}

/// Where a statement ends in the tokens, the semicolon behind it
/// included.
pub open spec fn statement_end(toks: Seq<Lexed>, pos: int) -> int {
    behind_semicolon(toks, statement(toks, pos).next)
}

/// The lexemes of a piece of a text lie in the piece where they lie in
/// the text, and their tokens are the same: what `lemma_tokens_of_lexemes`
/// says, for the tokens as the parser reads them.
pub proof fn lemma_lexemes_of_piece(
    rules: Seq<RuleSpec>,
    src: Seq<char>,
    before: Seq<Seq<char>>,
    toks: Seq<Lexed>,
    after: Seq<Seq<char>>,
    first: nat,
    n: nat,
    sub_toks: Seq<Lexed>,
    sub_after: Seq<Seq<char>>,
)
    requires
        src.len() <= usize::MAX,
        distinct(before),
        tokenized(rules, src, 0, before, toks, after),
        n >= 1,
        first + n < toks.len(),
        ({
            let a = skip_blank(src, position_after(rules, src, 0, first));
            let b = position_after(rules, src, 0, first + n);
            &&& blind_at(rules, src, a, b - a)
            &&& tokenized(rules, src.subrange(a, b), 0, after, sub_toks, sub_after)
        }),
    ensures
        sub_after == after,
        sub_toks.len() == n + 1,
        token_at(sub_toks, n as int) == Some(Token::EOF),
        forall|j: int| 0 <= j < n ==> #[trigger] token_at(sub_toks, j) == token_at(toks, j + first),
        same_places(
            toks,
            first as int,
            sub_toks,
            0,
            n as int,
            skip_blank(src, position_after(rules, src, 0, first)),
        ),
{
    let pos = first as int;
    let a = skip_blank(src, position_after(rules, src, 0, first));
    lemma_position_after(rules, src, 0, first);
    lemma_scan_step(rules, src, position_after(rules, src, 0, first));
    lemma_tokens_of_lexemes(rules, src, before, toks, after, first, n, sub_toks, sub_after);
    assert forall|j: int| 0 <= j < n implies #[trigger] token_at(sub_toks, j) == token_at(
        toks,
        j + first,
    ) by {
        assert(token_of(sub_toks[j]) == token_of(toks[first + j]));
    }
    assert forall|j: int| 0 <= j < 0 + n implies #[trigger] location_at(sub_toks, j) == span_from(
        location_at(toks, j - 0 + pos),
        a,
    ) by {
        assert(location_of(sub_toks[j]) == span_from(location_of(toks[first + j]), a));
    }
    assert forall|j: int| pos <= j < pos + n implies a <= (#[trigger] location_at(toks, j)).index
        && location_at(toks, j).index + location_at(toks, j).length <= usize::MAX by {
        let k = j as nat;
        lemma_item_location(rules, src, 0, before, toks, after, k);
        lemma_position_rises(rules, src, 0, first, k);
        lemma_position_after(rules, src, 0, k);
        lemma_position_after(rules, src, 0, k + 1);
        lemma_scan_step(rules, src, position_after(rules, src, 0, k));
        assert(location_at(toks, j) == location_of(toks[j]));
        if k > first {
            lemma_position_rises(rules, src, 0, first + 1, k);
        }
    }
}

/// Tokens that hold one statement, the semicolon that may follow it and
/// the end of the text are parsed to that statement alone.
pub proof fn lemma_program_of_one(toks: Seq<Lexed>, symbol: DebugSymbol)
    requires
        token_at(toks, 0) != Some(Token::EOF),
        statement(toks, 0).result is Ok,
        0 < statement(toks, 0).next,
        statement_end(toks, 0) < toks.len(),
        token_at(toks, statement_end(toks, 0)) == Some(Token::EOF),
        symbol == symbol_between(toks, 0, statement_end(toks, 0) - 1),
    ensures
        program(toks, 0) == seq![
            Ok::<StmtMeta, SyntaxError>(StmtMeta::spec_new(statement(toks, 0).result->Ok_0, symbol)),
        ],
{
    let last = statement_end(toks, 0);
    assert(program(toks, last) =~= Seq::<Result<StmtMeta, SyntaxError>>::empty());
    assert(program(toks, 0) =~= seq![
        Ok::<StmtMeta, SyntaxError>(StmtMeta::spec_new(statement(toks, 0).result->Ok_0, symbol)),
    ] + program(toks, last));
}

/// The source text of a statement is read as that statement again,
/// whatever the rules of the lexer are, if they do not heed what stands
/// before the statement.
///
/// Where a statement was parsed in the tokens of a text, the tokens of the
/// piece of the text from its first lexeme to its last, the semicolon
/// behind it included, are parsed to that one statement, with its source
/// text and that of the statements in it seen from the piece; with the
/// strings of the text interned, no string is added.
#[verifier::rlimit(100)]
pub proof fn lemma_statement_round_trip_with(
    rules: Seq<RuleSpec>,
    src: Seq<char>,
    before: Seq<Seq<char>>,
    toks: Seq<Lexed>,
    after: Seq<Seq<char>>,
    pos: int,
    sub_toks: Seq<Lexed>,
    sub_after: Seq<Seq<char>>,
)
    requires
        src.len() <= usize::MAX,
        distinct(before),
        tokenized(rules, src, 0, before, toks, after),
        statement(toks, pos).result is Ok,
        ({
            let symbol = symbol_between(toks, pos, statement_end(toks, pos) - 1);
            &&& symbol.start < src.len() ==> all_blind_to(
                rules,
                char_before(src, symbol.start as int),
                src[symbol.start as int],
            )
            &&& tokenized(
                rules,
                src.subrange(symbol.start as int, symbol.end as int),
                0,
                after,
                sub_toks,
                sub_after,
            )
        }),
    ensures
        sub_after == after,
        statement(sub_toks, 0).result is Ok,
        ({
            let symbol = symbol_between(toks, pos, statement_end(toks, pos) - 1);
            &&& same_statement(
                statement(toks, pos).result->Ok_0,
                statement(sub_toks, 0).result->Ok_0,
                symbol.start as int,
            )
            &&& program(sub_toks, 0) == seq![
                Ok::<StmtMeta, SyntaxError>(
                    StmtMeta::spec_new(
                        statement(sub_toks, 0).result->Ok_0,
                        symbol_from(symbol, symbol.start as int),
                    ),
                ),
            ]
        }),
{
    let next = statement(toks, pos).next;
    let end = statement_end(toks, pos);
    lemma_statement_ends(toks, pos);
    lemma_tokenized_grows(rules, src, 0, before, toks, after);
    assert(token_at(toks, end - 1) == token_of(toks[end - 1]));
    assert(!is_end(toks[end - 1]));
    let n = (end - pos) as nat;
    let first = pos as nat;
    let a = skip_blank(src, position_after(rules, src, 0, first));
    let b = position_after(rules, src, 0, first + n);
    lemma_symbol_of_lexemes(rules, src, before, toks, after, first, (end - 1) as nat);
    lemma_position_after(rules, src, 0, first);
    lemma_scan_step(rules, src, position_after(rules, src, 0, first));
    lemma_position_rises(rules, src, 0, first + 1, first + n);
    lemma_position_after(rules, src, 0, first + n);
    if a < src.len() {
        lemma_blind_at(rules, src, a, b - a);
    } else {
        assert(blind_at(rules, src, a, b - a));
    }
    lemma_lexemes_of_piece(rules, src, before, toks, after, first, n, sub_toks, sub_after);
    assert forall|j: int| 0 <= j < next - pos implies #[trigger] token_at(sub_toks, j) == token_at(
        toks,
        j - 0 + pos,
    ) by {
        assert(token_at(sub_toks, j) == token_at(toks, j + first));
    }
    if next < end {
        assert(token_at(sub_toks, next - pos) == token_at(toks, (next - pos) + first));
    }
    assert(same_tokens(toks, pos, sub_toks, 0, next - pos));
    assert(same_places(toks, pos, sub_toks, 0, next - pos, a));
    lemma_statement_is_local(toks, pos, sub_toks, 0, a);
    lemma_symbol_moves(toks, pos, sub_toks, 0, n as int, a, pos, end - 1);
    assert(token_at(sub_toks, 0) == token_at(toks, 0int + first));
    assert(statement_end(sub_toks, 0) == n);
    lemma_program_of_one(sub_toks, symbol_from(symbol_between(toks, pos, end - 1), a));
}

/// The source text of a statement of the language is read as that
/// statement again.
///
/// Where a statement was parsed in the tokens of a text, and the piece of
/// the text from its first lexeme to its last, the semicolon behind it
/// included, starts at a word boundary or as no keyword does, the tokens of
/// that piece are parsed to that one statement, with its source text seen
/// from the piece; with the strings of the text interned, no string is
/// added.
pub proof fn lemma_statement_round_trip(
    src: Seq<char>,
    before: Seq<Seq<char>>,
    toks: Seq<Lexed>,
    after: Seq<Seq<char>>,
    pos: int,
    sub_toks: Seq<Lexed>,
    sub_after: Seq<Seq<char>>,
)
    requires
        src.len() <= usize::MAX,
        distinct(before),
        tokenized(language_grammar(), src, 0, before, toks, after),
        statement(toks, pos).result is Ok,
        ({
            let symbol = symbol_between(toks, pos, statement_end(toks, pos) - 1);
            &&& symbol.start < src.len() ==> word_boundary(char_before(src, symbol.start as int))
                || !starts_keyword(src[symbol.start as int])
            &&& tokenized(
                language_grammar(),
                src.subrange(symbol.start as int, symbol.end as int),
                0,
                after,
                sub_toks,
                sub_after,
            )
        }),
    ensures
        sub_after == after,
        statement(sub_toks, 0).result is Ok,
        ({
            let symbol = symbol_between(toks, pos, statement_end(toks, pos) - 1);
            &&& same_statement(
                statement(toks, pos).result->Ok_0,
                statement(sub_toks, 0).result->Ok_0,
                symbol.start as int,
            )
            &&& program(sub_toks, 0) == seq![
                Ok::<StmtMeta, SyntaxError>(
                    StmtMeta::spec_new(
                        statement(sub_toks, 0).result->Ok_0,
                        symbol_from(symbol, symbol.start as int),
                    ),
                ),
            ]
        }),
{
    let symbol = symbol_between(toks, pos, statement_end(toks, pos) - 1);
    if symbol.start < src.len() {
        lemma_language_is_blind(char_before(src, symbol.start as int), src[symbol.start as int]);
    }
    lemma_statement_round_trip_with(language_grammar(), src, before, toks, after, pos, sub_toks, sub_after);
}

} // verus!
