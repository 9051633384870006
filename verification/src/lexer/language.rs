//! The rules of the language.

use vstd::prelude::*;
use crate::lexer::lexer::{Lexer, LexerBuilder};
use crate::lexer::rules::general::{
    exact_spec, integer_spec, name_spec, string_spec, words_of, ExactRule, IdentifierRule,
    IntegerRule, StringRule, TokenRule,
};
use crate::lexer::rules::keywords::{keyword_spec, KeywordRule};
use crate::lexer::laws::{all_blind_to, blind_to};
use crate::lexer::rules::{word_boundary, LexerRule, MatchResult, RuleSpec};
use crate::lexer::token::Token;
use crate::lexer::tokenizer::Tokenizer;
use crate::runtime::strings::Interner;
use crate::utils::chars_of;


verus! {

/// The words that are no names: the keywords of the language.
pub open spec fn reserved_words() -> Seq<Seq<char>> {
    Seq::<Seq<char>>::empty()
        .push("and"@)
        .push("or"@)
        .push("true"@)
        .push("false"@)
        .push("nil"@)
        .push("let"@)
        .push("var"@)
        .push("if"@)
        .push("else"@)
        .push("while"@)
        .push("for"@)
        .push("in"@)
        .push("fun"@)
        .push("class"@)
        .push("self"@)
        .push("super"@)
        .push("echo"@)
        .push("assert"@)
        .push("return"@)
        .push("break"@)
        .push("continue"@)
}

/// What the rules of the language recognise: the keywords, the operators
/// and the punctuation, then integers, names and string literals.
pub open spec fn language_grammar() -> Seq<RuleSpec> {
    Seq::<RuleSpec>::empty()
        .push(keyword_spec(Token::And, "and"@))
        .push(keyword_spec(Token::Or, "or"@))
        .push(keyword_spec(Token::True, "true"@))
        .push(keyword_spec(Token::False, "false"@))
        .push(keyword_spec(Token::Nil, "nil"@))
        .push(keyword_spec(Token::Let, "let"@))
        .push(keyword_spec(Token::Var, "var"@))
        .push(keyword_spec(Token::If, "if"@))
        .push(keyword_spec(Token::Else, "else"@))
        .push(keyword_spec(Token::While, "while"@))
        .push(keyword_spec(Token::For, "for"@))
        .push(keyword_spec(Token::In, "in"@))
        .push(keyword_spec(Token::Fun, "fun"@))
        .push(keyword_spec(Token::Class, "class"@))
        .push(keyword_spec(Token::Self_, "self"@))
        .push(keyword_spec(Token::Super, "super"@))
        .push(keyword_spec(Token::Echo, "echo"@))
        .push(keyword_spec(Token::Assert, "assert"@))
        .push(keyword_spec(Token::Return, "return"@))
        .push(keyword_spec(Token::Break, "break"@))
        .push(keyword_spec(Token::Continue, "continue"@))
        .push(exact_spec(Token::OpenParen, "("@))
        .push(exact_spec(Token::CloseParen, ")"@))
        .push(exact_spec(Token::OpenSquare, "["@))
        .push(exact_spec(Token::CloseSquare, "]"@))
        .push(exact_spec(Token::OpenBrace, "{"@))
        .push(exact_spec(Token::CloseBrace, "}"@))
        .push(exact_spec(Token::Comma, ","@))
        .push(exact_spec(Token::Colon, ":"@))
        .push(exact_spec(Token::Semicolon, ";"@))
        .push(exact_spec(Token::Ellipsis, "..."@))
        .push(exact_spec(Token::OpAccess, "."@))
        .push(exact_spec(Token::OpAssign, "="@))
        .push(exact_spec(Token::OpAdd, "+"@))
        .push(exact_spec(Token::OpSub, "-"@))
        .push(exact_spec(Token::OpMul, "*"@))
        .push(exact_spec(Token::OpDiv, "/"@))
        .push(exact_spec(Token::OpMod, "%"@))
        .push(exact_spec(Token::OpInv, "~"@))
        .push(exact_spec(Token::OpNot, "!"@))
        .push(exact_spec(Token::OpAnd, "&"@))
        .push(exact_spec(Token::OpOr, "|"@))
        .push(exact_spec(Token::OpXor, "^"@))
        .push(exact_spec(Token::OpLShift, "<<"@))
        .push(exact_spec(Token::OpRShift, ">>"@))
        .push(exact_spec(Token::OpLT, "<"@))
        .push(exact_spec(Token::OpLE, "<="@))
        .push(exact_spec(Token::OpGT, ">"@))
        .push(exact_spec(Token::OpGE, ">="@))
        .push(exact_spec(Token::OpEQ, "=="@))
        .push(exact_spec(Token::OpNE, "!="@))
        .push(integer_spec())
        .push(name_spec(reserved_words()))
        .push(string_spec())
}

/// Adds `word` to `words`.
fn push_word(words: &mut Vec<Vec<char>>, word: &str)
    ensures
        words_of(final(words)@) == words_of(old(words)@).push(word@),
{
    words.push(chars_of(word));
    assert(words@.drop_last() =~= old(words)@);
}

/// The keywords of the language.
fn reserved() -> (words: Vec<Vec<char>>)
    ensures
        words_of(words@) == reserved_words(),
{
    let mut words: Vec<Vec<char>> = Vec::new();
    push_word(&mut words, "and");
    push_word(&mut words, "or");
    push_word(&mut words, "true");
    push_word(&mut words, "false");
    push_word(&mut words, "nil");
    push_word(&mut words, "let");
    push_word(&mut words, "var");
    push_word(&mut words, "if");
    push_word(&mut words, "else");
    push_word(&mut words, "while");
    push_word(&mut words, "for");
    push_word(&mut words, "in");
    push_word(&mut words, "fun");
    push_word(&mut words, "class");
    push_word(&mut words, "self");
    push_word(&mut words, "super");
    push_word(&mut words, "echo");
    push_word(&mut words, "assert");
    push_word(&mut words, "return");
    push_word(&mut words, "break");
    push_word(&mut words, "continue");
    words
}

/// The rules of the language.
pub fn language_rules() -> (builder: LexerBuilder<TokenRule>)
    ensures
        builder.grammar() == language_grammar(),
{
    LexerBuilder::new()
        .add_rule(TokenRule::Keyword(KeywordRule::new(Token::And, "and")))
        .add_rule(TokenRule::Keyword(KeywordRule::new(Token::Or, "or")))
        .add_rule(TokenRule::Keyword(KeywordRule::new(Token::True, "true")))
        .add_rule(TokenRule::Keyword(KeywordRule::new(Token::False, "false")))
        .add_rule(TokenRule::Keyword(KeywordRule::new(Token::Nil, "nil")))
        .add_rule(TokenRule::Keyword(KeywordRule::new(Token::Let, "let")))
        .add_rule(TokenRule::Keyword(KeywordRule::new(Token::Var, "var")))
        .add_rule(TokenRule::Keyword(KeywordRule::new(Token::If, "if")))
        .add_rule(TokenRule::Keyword(KeywordRule::new(Token::Else, "else")))
        .add_rule(TokenRule::Keyword(KeywordRule::new(Token::While, "while")))
        .add_rule(TokenRule::Keyword(KeywordRule::new(Token::For, "for")))
        .add_rule(TokenRule::Keyword(KeywordRule::new(Token::In, "in")))
        .add_rule(TokenRule::Keyword(KeywordRule::new(Token::Fun, "fun")))
        .add_rule(TokenRule::Keyword(KeywordRule::new(Token::Class, "class")))
        .add_rule(TokenRule::Keyword(KeywordRule::new(Token::Self_, "self")))
        .add_rule(TokenRule::Keyword(KeywordRule::new(Token::Super, "super")))
        .add_rule(TokenRule::Keyword(KeywordRule::new(Token::Echo, "echo")))
        .add_rule(TokenRule::Keyword(KeywordRule::new(Token::Assert, "assert")))
        .add_rule(TokenRule::Keyword(KeywordRule::new(Token::Return, "return")))
        .add_rule(TokenRule::Keyword(KeywordRule::new(Token::Break, "break")))
        .add_rule(TokenRule::Keyword(KeywordRule::new(Token::Continue, "continue")))
        .add_rule(TokenRule::Exact(ExactRule::new(Token::OpenParen, "(")))
        .add_rule(TokenRule::Exact(ExactRule::new(Token::CloseParen, ")")))
        .add_rule(TokenRule::Exact(ExactRule::new(Token::OpenSquare, "[")))
        .add_rule(TokenRule::Exact(ExactRule::new(Token::CloseSquare, "]")))
        .add_rule(TokenRule::Exact(ExactRule::new(Token::OpenBrace, "{")))
        .add_rule(TokenRule::Exact(ExactRule::new(Token::CloseBrace, "}")))
        .add_rule(TokenRule::Exact(ExactRule::new(Token::Comma, ",")))
        .add_rule(TokenRule::Exact(ExactRule::new(Token::Colon, ":")))
        .add_rule(TokenRule::Exact(ExactRule::new(Token::Semicolon, ";")))
        .add_rule(TokenRule::Exact(ExactRule::new(Token::Ellipsis, "...")))
        .add_rule(TokenRule::Exact(ExactRule::new(Token::OpAccess, ".")))
        .add_rule(TokenRule::Exact(ExactRule::new(Token::OpAssign, "=")))
        .add_rule(TokenRule::Exact(ExactRule::new(Token::OpAdd, "+")))
        .add_rule(TokenRule::Exact(ExactRule::new(Token::OpSub, "-")))
        .add_rule(TokenRule::Exact(ExactRule::new(Token::OpMul, "*")))
        .add_rule(TokenRule::Exact(ExactRule::new(Token::OpDiv, "/")))
        .add_rule(TokenRule::Exact(ExactRule::new(Token::OpMod, "%")))
        .add_rule(TokenRule::Exact(ExactRule::new(Token::OpInv, "~")))
        .add_rule(TokenRule::Exact(ExactRule::new(Token::OpNot, "!")))
        .add_rule(TokenRule::Exact(ExactRule::new(Token::OpAnd, "&")))
        .add_rule(TokenRule::Exact(ExactRule::new(Token::OpOr, "|")))
        .add_rule(TokenRule::Exact(ExactRule::new(Token::OpXor, "^")))
        .add_rule(TokenRule::Exact(ExactRule::new(Token::OpLShift, "<<")))
        .add_rule(TokenRule::Exact(ExactRule::new(Token::OpRShift, ">>")))
        .add_rule(TokenRule::Exact(ExactRule::new(Token::OpLT, "<")))
        .add_rule(TokenRule::Exact(ExactRule::new(Token::OpLE, "<=")))
        .add_rule(TokenRule::Exact(ExactRule::new(Token::OpGT, ">")))
        .add_rule(TokenRule::Exact(ExactRule::new(Token::OpGE, ">=")))
        .add_rule(TokenRule::Exact(ExactRule::new(Token::OpEQ, "==")))
        .add_rule(TokenRule::Exact(ExactRule::new(Token::OpNE, "!=")))
        .add_rule(TokenRule::Integer(IntegerRule::new()))
        .add_rule(TokenRule::Identifier(IdentifierRule::new(reserved())))
        .add_rule(TokenRule::String(StringRule::new()))
}

/// A tokenizer for `source` with the rules of the language, which interns
/// names and string literals behind `strings`.
pub fn language_tokenizer(source: Vec<char>, strings: Interner) -> (tokenizer: Tokenizer<TokenRule>)
    requires
        source@.len() < usize::MAX,
    ensures
        tokenizer.wf(),
        tokenizer.lexer().grammar() == language_grammar(),
        tokenizer.lexer().source() == source@,
        tokenizer.lexer().position() == 0,
        tokenizer.lexer().line() == 1,
        tokenizer.strings() == strings@,
{
    Tokenizer::new(language_rules().build(source), strings)
}

/// Whether a keyword of the language starts with `c`.
pub open spec fn starts_keyword(c: char) -> bool {
    c == 'a' || c == 'b' || c == 'c' || c == 'e' || c == 'f' || c == 'i' || c == 'l' || c == 'n' || c == 'o' || c == 'r' || c == 's' || c == 't' || c == 'v' || c == 'w'
}

/// The rules of the language heed of what stands before a lexeme only
/// whether a lexeme that may be a keyword starts at a word boundary: a
/// lexeme at a word boundary, or one that starts as no keyword does, gets
/// the verdicts that it gets at the start of a text.
pub proof fn lemma_language_is_blind(pre: Option<char>, first: char)
    requires
        word_boundary(pre) || !starts_keyword(first),
    ensures
        all_blind_to(language_grammar(), pre, first),
{
    reveal_strlit("and");
    reveal_strlit("or");
    reveal_strlit("true");
    reveal_strlit("false");
    reveal_strlit("nil");
    reveal_strlit("let");
    reveal_strlit("var");
    reveal_strlit("if");
    reveal_strlit("else");
    reveal_strlit("while");
    reveal_strlit("for");
    reveal_strlit("in");
    reveal_strlit("fun");
    reveal_strlit("class");
    reveal_strlit("self");
    reveal_strlit("super");
    reveal_strlit("echo");
    reveal_strlit("assert");
    reveal_strlit("return");
    reveal_strlit("break");
    reveal_strlit("continue");
    let g = language_grammar();
    assert(word_boundary(None));
    assert forall|i: int| 0 <= i < g.len() implies blind_to(#[trigger] g[i], pre, first) by {
        assert forall|text: Seq<char>| text.len() >= 1 && text[0] == first implies #[trigger] (
        g[i].verdict)(pre, text) == (g[i].verdict)(None, text) by {
            if !word_boundary(pre) && i < 21 {
                assert((g[i].verdict)(None, text) == MatchResult::NoMatch);
            }
        }
    }
}

} // verus!
