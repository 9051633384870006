//! The tokens of a source as the parser takes them: names and string
//! literals carry the symbols of their texts.

use vstd::prelude::*;
use crate::lexer::lexer::{
    lemma_newlines_split, lemma_scan_step, newlines, scan, skip_blank, span_between, Fault, Lexer,
    LexerError, Scan, TokenOut,
};
use crate::lexer::rules::{LexerRule, RuleSpec};
use crate::lexer::token::Token;
use crate::runtime::strings::{InternSymbol, Interner, SYMBOL_LIMIT};
use crate::utils::text_of_chars;

verus! {

/// The text that the token of `lexeme` stands for: the name itself, or
/// what stands between the quotes of a string literal.
pub open spec fn token_text(template: Token, lexeme: Seq<char>) -> Seq<char> {
    match template {
        Token::StringLiteral(_) => if lexeme.len() >= 2 {
            lexeme.subrange(1, lexeme.len() - 1)
        } else {
            lexeme
        },
        _ => lexeme,
    }
}

/// Whether `token` is the token that a rule gave as `template` for
/// `lexeme`, with its text interned in `strings`: a name or a string literal
/// holds the symbol of its text, any other token is as the rule gave it.
pub open spec fn finished(template: Token, lexeme: Seq<char>, strings: Seq<Seq<char>>, token: Token) -> bool {
    match template {
        Token::Identifier(_) => token matches Token::Identifier(symbol) && symbol.index()
            < strings.len() && strings[symbol.index() as int] == token_text(template, lexeme),
        Token::StringLiteral(_) => token matches Token::StringLiteral(symbol) && symbol.index()
            < strings.len() && strings[symbol.index() as int] == token_text(template, lexeme),
        _ => token == template,
    }
}

/// Whether the token `template` holds a text to intern.
pub open spec fn holds_text(template: Token) -> bool {
    template is Identifier || template is StringLiteral
}

/// Whether `item` is what the scan from position `from` yields, with the
/// strings `before` interned before it and `after` behind it: the token that
/// the rules give for the lexeme, finished, or the error that they give. The
/// text of a name or a string literal is added to the strings unless they
/// hold it; nothing else is.
pub open spec fn yields(
    rules: Seq<RuleSpec>,
    src: Seq<char>,
    from: int,
    before: Seq<Seq<char>>,
    item: Result<TokenOut, LexerError>,
    after: Seq<Seq<char>>,
) -> bool {
    let found = scan(rules, src, from);
    let start = skip_blank(src, from);
    let lexeme = src.subrange(start, found.end);
    &&& before.len() <= after.len() <= before.len() + 1
    &&& after.take(before.len() as int) == before
    &&& match item {
        Ok(out) => {
            &&& found.outcome matches Ok(template)
            &&& finished(template, lexeme, after, out.token)
            &&& after == if holds_text(template) && !before.contains(token_text(template, lexeme)) {
                before.push(token_text(template, lexeme))
            } else {
                before
            }
            &&& out.location == span_between(start, found.end)
            &&& out.lineno == 1 + newlines(src, 0, found.end)
        },
        Err(err) => {
            &&& found.outcome matches Err(fault)
            &&& err.message@ == fault.message()
            &&& err.location == span_between(start, found.end)
            &&& err.lineno == 1 + newlines(src, 0, found.end)
            &&& after == before
        },
    }
}

/// Whether `items` are what the scans from position `from` on yield, up to
/// the end of the text, with the strings `before` interned before them and
/// `after` behind them. The last item is the token of the end of the text.
pub open spec fn tokenized(
    rules: Seq<RuleSpec>,
    src: Seq<char>,
    from: int,
    before: Seq<Seq<char>>,
    items: Seq<Result<TokenOut, LexerError>>,
    after: Seq<Seq<char>>,
) -> bool
    decreases items.len(),
{
    if items.len() == 0 {
        false
    } else {
        exists|between: Seq<Seq<char>>|
            {
                &&& #[trigger] yields(rules, src, from, before, items[0], between)
                &&& if items[0] matches Ok(out) && out.token == Token::EOF {
                    items.len() == 1 && after == between
                } else {
                    tokenized(rules, src, scan(rules, src, from).end, between, items.skip(1), after)
                }
            }
    }
}

/// Whether `items` are what the first scans from position `from` on
/// yield, none of them the end of the text, with the strings `before`
/// interned before them and `after` behind them, and the lexer at `at`
/// behind the last.
pub open spec fn scanned_so_far(
    rules: Seq<RuleSpec>,
    src: Seq<char>,
    from: int,
    before: Seq<Seq<char>>,
    items: Seq<Result<TokenOut, LexerError>>,
    after: Seq<Seq<char>>,
    at: int,
) -> bool
    decreases items.len(),
{
    if items.len() == 0 {
        after == before && at == from
    } else {
        exists|mid: Seq<Seq<char>>, p: int|
            {
                &&& scanned_so_far(rules, src, from, before, items.drop_last(), mid, p)
                &&& #[trigger] yields(rules, src, p, mid, items.last(), after)
                &&& !(items.last() matches Ok(out) && out.token == Token::EOF)
                &&& at == scan(rules, src, p).end
            }
    }
}

/// The first items of a text and the items of the rest of it are the items
/// of the text.
pub proof fn lemma_scanned_then_tokenized(
    rules: Seq<RuleSpec>,
    src: Seq<char>,
    from: int,
    before: Seq<Seq<char>>,
    items: Seq<Result<TokenOut, LexerError>>,
    mid: Seq<Seq<char>>,
    at: int,
    rest: Seq<Result<TokenOut, LexerError>>,
    after: Seq<Seq<char>>,
)
    requires
        scanned_so_far(rules, src, from, before, items, mid, at),
        tokenized(rules, src, at, mid, rest, after),
    ensures
        tokenized(rules, src, from, before, items + rest, after),
    decreases items.len(),
{
    if items.len() == 0 {
        assert(items + rest =~= rest);
    } else {
        let (inner, p) = choose|inner: Seq<Seq<char>>, p: int|
            {
                &&& scanned_so_far(rules, src, from, before, items.drop_last(), inner, p)
                &&& #[trigger] yields(rules, src, p, inner, items.last(), mid)
                &&& !(items.last() matches Ok(out) && out.token == Token::EOF)
                &&& at == scan(rules, src, p).end
            };
        let more = seq![items.last()] + rest;
        assert(more.skip(1) =~= rest);
        assert(more[0] == items.last());
        assert(tokenized(rules, src, p, inner, more, after));
        lemma_scanned_then_tokenized(rules, src, from, before, items.drop_last(), inner, p, more, after);
        assert(items.drop_last() + more =~= items + rest);
    }
}

/// A lexer together with the strings of the names and literals that it has
/// scanned.
pub struct Tokenizer<R: LexerRule> {
    lexer: Lexer<R>,
    strings: Interner,
}

impl<R: LexerRule> Tokenizer<R> {
    pub closed spec fn lexer(&self) -> &Lexer<R> {
        &self.lexer
    }

    /// The strings interned so far.
    pub closed spec fn strings(&self) -> Seq<Seq<char>> {
        self.strings@
    }

    /// The invariant of the tokenizer: its lexer is in order and has
    /// counted the lines of what it has read.
    pub open spec fn wf(&self) -> bool {
        &&& self.lexer().wf()
        &&& 0 <= self.lexer().position() <= self.lexer().source().len()
        &&& self.lexer().line() == 1 + newlines(
            self.lexer().source(),
            0,
            self.lexer().position(),
        )
    }

    pub fn new(lexer: Lexer<R>, strings: Interner) -> (tokenizer: Tokenizer<R>)
        requires
            lexer.wf(),
            0 <= lexer.position() <= lexer.source().len(),
            lexer.line() == 1 + newlines(lexer.source(), 0, lexer.position()),
        ensures
            tokenizer.wf(),
            *tokenizer.lexer() == lexer,
            tokenizer.strings() == strings@,
    {
        Tokenizer { lexer, strings }
    }

    /// The strings interned, the tokenizer being given up.
    pub fn into_strings(self) -> (strings: Interner)
        ensures
            strings@ == self.strings(),
    {
        self.strings
    }

    /// The next token of the text, as the lexer scans it, with the text of
    /// a name or a string literal interned.
    pub fn next_token(&mut self) -> (result: Result<TokenOut, LexerError>)
        requires
            old(self).wf(),
            old(self).strings().len() < SYMBOL_LIMIT,
        ensures
            final(self).wf(),
            final(self).lexer().source() == old(self).lexer().source(),
            final(self).lexer().grammar() == old(self).lexer().grammar(),
            final(self).lexer().position() == scan(
                old(self).lexer().grammar(),
                old(self).lexer().source(),
                old(self).lexer().position(),
            ).end,
            old(self).lexer().position() <= final(self).lexer().position() <= old(self).lexer().source().len(),
            final(self).lexer().line() == old(self).lexer().line() + newlines(
                old(self).lexer().source(),
                old(self).lexer().position(),
                final(self).lexer().position(),
            ),
            yields(
                old(self).lexer().grammar(),
                old(self).lexer().source(),
                old(self).lexer().position(),
                old(self).strings(),
                result,
                final(self).strings(),
            ),
    {
        let ghost before = self.strings@;
        assert(before.take(before.len() as int) =~= before);
        proof {
            lemma_scan_step(self.lexer.grammar(), self.lexer.source(), self.lexer.position());
            lemma_newlines_split(
                self.lexer.source(),
                0,
                self.lexer.position(),
                scan(self.lexer.grammar(), self.lexer.source(), self.lexer.position()).end,
            );
        }
        let out = match self.lexer.next_token() {
            Ok(out) => out,
            Err(err) => {
                return Err(err);
            },
        };
        let len = self.lexer.lexeme(&out.location).len();
        match out.token {
            Token::Identifier(_) => {
                let text = text_of_chars(self.lexer.lexeme(&out.location));
                let symbol = self.strings.get_or_intern(text.as_str());
                assert(self.strings@.take(before.len() as int) =~= before);
                Ok(
                    TokenOut {
                        token: Token::Identifier(symbol),
                        location: out.location,
                        lineno: out.lineno,
                    },
                )
            },
            Token::StringLiteral(_) => {
                let lexeme = self.lexer.lexeme(&out.location);
                let inner = if lexeme.len() >= 2 {
                    vstd::slice::slice_subrange(lexeme, 1, lexeme.len() - 1)
                } else {
                    lexeme
                };
                let text = text_of_chars(inner);
                let symbol = self.strings.get_or_intern(text.as_str());
                assert(self.strings@.take(before.len() as int) =~= before);
                Ok(
                    TokenOut {
                        token: Token::StringLiteral(symbol),
                        location: out.location,
                        lineno: out.lineno,
                    },
                )
            },
            _ => Ok(out),
        }
    }

    /// Scans the rest of the text: every token and every error up to the
    /// end, the token of the end of the text last. The strings must have
    /// room for a name or a literal at every character that is left.
    pub fn tokenize(&mut self) -> (items: Vec<Result<TokenOut, LexerError>>)
        requires
            old(self).wf(),
            old(self).strings().len() + (old(self).lexer().source().len() - old(self).lexer().position()) < SYMBOL_LIMIT,
        ensures
            final(self).wf(),
            final(self).lexer().source() == old(self).lexer().source(),
            final(self).lexer().grammar() == old(self).lexer().grammar(),
            tokenized(
                old(self).lexer().grammar(),
                old(self).lexer().source(),
                old(self).lexer().position(),
                old(self).strings(),
                items@,
                final(self).strings(),
            ),
            items@.len() <= old(self).lexer().source().len() - old(self).lexer().position() + 1,
    {
        let ghost rules = self.lexer.grammar();
        let ghost src = self.lexer.source();
        let ghost from = self.lexer.position();
        let ghost before = self.strings@;
        let mut items: Vec<Result<TokenOut, LexerError>> = Vec::new();
        loop
            invariant_except_break
                from <= self.lexer().position() <= src.len(),
                self.strings().len() + (src.len() - self.lexer().position()) < SYMBOL_LIMIT,
                items@.len() <= self.lexer().position() - from,
                scanned_so_far(rules, src, from, before, items@, self.strings(), self.lexer().position()),
            invariant
                self.wf(),
                self.lexer().source() == src,
                self.lexer().grammar() == rules,
            ensures
                self.wf(),
                self.lexer().source() == src,
                self.lexer().grammar() == rules,
                tokenized(rules, src, from, before, items@, self.strings()),
                items@.len() <= src.len() - from + 1,
            decreases src.len() - self.lexer().position(),
        {
            let ghost at = self.lexer.position();
            let ghost mid = self.strings@;
            let ghost so_far = items@;
            proof {
                lemma_scan_step(rules, src, at);
            }
            let item = self.next_token();
            let done = match &item {
                Ok(out) => matches!(out.token, Token::EOF),
                Err(_) => false,
            };
            items.push(item);
            proof {
                assert(items@.drop_last() =~= so_far);
                assert(yields(rules, src, at, mid, items@.last(), self.strings()));
            }
            if done {
                proof {
                    let rest = seq![item];
                    assert(rest[0] == item);
                    assert(tokenized(rules, src, at, mid, rest, self.strings()));
                    lemma_scanned_then_tokenized(rules, src, from, before, so_far, mid, at, rest, self.strings());
                    assert(so_far + rest =~= items@);
                }
                break ;
            }
            proof {
                // what is no end of the text took at least one character
                assert(skip_blank(src, at) < src.len()) by {
                    if skip_blank(src, at) >= src.len() {
                        assert(scan(rules, src, at).outcome == Ok::<Token, Fault>(Token::EOF));
                    }
                }
            }
        }
        items
    }
}

} // verus!
