//! Lexer rules: small state machines fed one character at a time.

use vstd::prelude::*;
use crate::lexer::token::Token;

pub mod general;
pub mod keywords;
pub mod strmatcher;

verus! {

/// How far a rule has got with the characters it was fed.
#[derive(Debug, Clone, Copy, PartialEq, Eq, Structural)]
pub enum MatchResult {
    /// The characters cannot begin a lexeme of the rule.
    NoMatch,
    /// The characters begin a lexeme of the rule and are not one yet.
    IncompleteMatch,
    /// The characters are a lexeme of the rule.
    CompleteMatch,
}

impl MatchResult {
    pub open spec fn matches(self) -> bool {
        self != MatchResult::NoMatch
    }

    pub fn is_match(&self) -> (res: bool)
        ensures
            res == self.matches(),
    {
        !matches!(self, MatchResult::NoMatch)
    }

    pub fn is_no_match(&self) -> (res: bool)
        ensures
            res == (*self == MatchResult::NoMatch),
    {
        matches!(self, MatchResult::NoMatch)
    }

    pub fn is_complete_match(&self) -> (res: bool)
        ensures
            res == (*self == MatchResult::CompleteMatch),
    {
        matches!(self, MatchResult::CompleteMatch)
    }

    pub fn is_incomplete_match(&self) -> (res: bool)
        ensures
            res == (*self == MatchResult::IncompleteMatch),
    {
        matches!(self, MatchResult::IncompleteMatch)
    }
}

/// Whether `c` is alphanumeric, as `char::is_alphanumeric` tells it.
pub uninterp spec fn alphanumeric(c: char) -> bool;

/// Whether `c` is a letter, as `char::is_alphabetic` tells it.
pub uninterp spec fn alphabetic(c: char) -> bool;

/// Whether `c` is white space, as `char::is_whitespace` tells it.
pub uninterp spec fn whitespace(c: char) -> bool;

/// Calls `char::is_alphanumeric`: whether `c` is a letter or a number of
/// Unicode. The answer depends on `c` alone.
#[verifier::external_body]
pub(crate) fn char_is_alphanumeric(c: char) -> (res: bool)
    ensures
        res == alphanumeric(c),
{
    c.is_alphanumeric()
}

/// Calls `char::is_alphabetic`: whether `c` is a letter of Unicode. The
/// answer depends on `c` alone.
#[verifier::external_body]
pub(crate) fn char_is_alphabetic(c: char) -> (res: bool)
    ensures
        res == alphabetic(c),
{
    c.is_alphabetic()
}

/// Calls `char::is_whitespace`: whether `c` has the Unicode property
/// `White_Space`. The answer depends on `c` alone.
#[verifier::external_body]
pub(crate) fn char_is_whitespace(c: char) -> (res: bool)
    ensures
        res == whitespace(c),
{
    c.is_whitespace()
}

/// Whether `c` can stand inside a word: a letter, a number or an underscore.
pub open spec fn word_char(c: char) -> bool {
    c == '_' || alphanumeric(c)
}

pub fn is_word_alphanumeric(c: char) -> (res: bool)
    ensures
        res == word_char(c),
{
    c == '_' || char_is_alphanumeric(c)
}

/// Whether a word can start with `c`: with a letter or an underscore.
pub open spec fn word_start(c: char) -> bool {
    c == '_' || alphabetic(c)
}

pub fn is_word_start(c: char) -> (res: bool)
    ensures
        res == word_start(c),
{
    c == '_' || char_is_alphabetic(c)
}

/// Whether a lexeme that follows `pre` starts at a word boundary: at the
/// start of the input, or after a character that is no word character.
pub open spec fn word_boundary(pre: Option<char>) -> bool {
    match pre {
        Some(c) => !word_char(c),
        None => true,
    }
}

/// What a rule recognises, whatever state a match is in.
pub ghost struct RuleSpec {
    /// The verdict on `text`, a non-empty run of characters that starts right
    /// after the character `pre`.
    pub verdict: spec_fn(Option<char>, Seq<char>) -> MatchResult,
    /// The token that stands for the lexeme `text`.
    pub token: spec_fn(Seq<char>) -> Token,
}

/// The verdict of a rule that was fed `fed` after `pre`. A rule that was fed
/// nothing yet counts as an incomplete match.
pub open spec fn verdict_so_far(spec: RuleSpec, pre: Option<char>, fed: Seq<char>) -> MatchResult {
    if fed.len() == 0 {
        MatchResult::IncompleteMatch
    } else {
        (spec.verdict)(pre, fed)
    }
}

/// The character before a match, once `prev` is offered as the character
/// before `next`: `prev` itself at the start of a match, after that what the
/// match started with.
pub open spec fn match_origin(fed: Seq<char>, pre: Option<char>, prev: Option<char>) -> Option<char> {
    if fed.len() == 0 {
        prev
    } else {
        pre
    }
}

/// A rule of the lexer. Between two resets it takes the characters of one
/// lexeme: a character that it accepts is added to what it was fed, one that it
/// refuses leaves it as it was.
pub trait LexerRule {
    /// What the rule recognises.
    spec fn definition(&self) -> RuleSpec;

    /// The characters accepted since the last reset.
    spec fn fed(&self) -> Seq<char>;

    /// The character before the first accepted one.
    spec fn pre(&self) -> Option<char>;

    /// The invariant of the rule's state.
    spec fn inv(&self) -> bool;

    /// Forgets what was fed.
    fn reset(&mut self)
        requires
            old(self).inv(),
        ensures
            final(self).inv(),
            final(self).definition() == old(self).definition(),
            final(self).fed() == Seq::<char>::empty(),
    ;

    /// The verdict on what was fed so far.
    fn current_state(&self) -> (res: MatchResult)
        requires
            self.inv(),
        ensures
            res == verdict_so_far(self.definition(), self.pre(), self.fed()),
    ;

    /// Offers `next`, which follows `prev` in the input, and tells the
    /// verdict on what was fed with `next` added. `next` is accepted unless
    /// that verdict is `NoMatch`.
    fn try_match(&mut self, prev: Option<char>, next: char) -> (res: MatchResult)
        requires
            old(self).inv(),
        ensures
            final(self).inv(),
            final(self).definition() == old(self).definition(),
            res == (old(self).definition().verdict)(
                match_origin(old(self).fed(), old(self).pre(), prev),
                old(self).fed().push(next),
            ),
            res.matches() ==> final(self).fed() == old(self).fed().push(next) && final(self).pre()
                == match_origin(old(self).fed(), old(self).pre(), prev),
            !res.matches() ==> final(self).fed() == old(self).fed() && final(self).pre() == old(self).pre(),
    ;

    /// The token of the lexeme that was fed, if it is one.
    fn get_token(&self) -> (token: Option<Token>)
        requires
            self.inv(),
        ensures
            token == if verdict_so_far(self.definition(), self.pre(), self.fed())
                == MatchResult::CompleteMatch {
                Some((self.definition().token)(self.fed()))
            } else {
                None
            },
    ;
}

} // verus!
