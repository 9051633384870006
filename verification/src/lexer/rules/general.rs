//! Rules for fixed lexemes, names and literals.

use vstd::prelude::*;
use crate::lexer::rules::strmatcher::{prefix_verdict, StrMatcher};
use crate::lexer::rules::keywords::KeywordRule;
use crate::lexer::rules::{
    is_word_alphanumeric, is_word_start, word_char, word_start, LexerRule, MatchResult, RuleSpec,
};
use crate::lexer::token::Token;
use crate::runtime::strings::InternSymbol;

verus! {

/// What the rule of the fixed lexeme `target` recognises, and the token it
/// gives.
pub open spec fn exact_spec(result: Token, target: Seq<char>) -> RuleSpec {
    RuleSpec {
        verdict: |pre: Option<char>, text: Seq<char>| prefix_verdict(target, text),
        token: |text: Seq<char>| result,
    }
}

/// Matches one fixed lexeme, such as an operator.
pub struct ExactRule {
    result: Token,
    matcher: StrMatcher,
    origin: Ghost<Option<char>>,
}

impl ExactRule {
    pub fn new(result: Token, target: &'static str) -> (rule: ExactRule)
        ensures
            rule.inv(),
            rule.definition() == exact_spec(result, target@),
            rule.fed() == Seq::<char>::empty(),
    {
        ExactRule { result, matcher: StrMatcher::new(target), origin: Ghost(None) }
    }
}

impl LexerRule for ExactRule {
    closed spec fn definition(&self) -> RuleSpec {
        exact_spec(self.result, self.matcher.target())
    }

    closed spec fn fed(&self) -> Seq<char> {
        self.matcher.matched()
    }

    closed spec fn pre(&self) -> Option<char> {
        self.origin@
    }

    closed spec fn inv(&self) -> bool {
        true
    }

    fn reset(&mut self) {
        self.matcher.reset();
    }

    fn current_state(&self) -> (res: MatchResult) {
        self.matcher.last_match_result()
    }

    fn try_match(&mut self, prev: Option<char>, next: char) -> (res: MatchResult) {
        let ghost first = self.matcher.matched().len() == 0;
        let res = self.matcher.try_match(next);
        if res.is_match() {
            proof {
                if first {
                    self.origin = Ghost(prev);
                }
            }
        }
        res
    }

    fn get_token(&self) -> (token: Option<Token>) {
        if self.current_state().is_complete_match() {
            return Some(self.result);
        }
        return None;
    }
}

/// Whether the characters of `text` are digits.
pub open spec fn all_digits(text: Seq<char>) -> bool {
    forall|i: int| 0 <= i < text.len() ==> '0' <= #[trigger] text[i] <= '9'
}

/// The number that the digits of `text` spell.
pub open spec fn digits_value(text: Seq<char>) -> int
    decreases text.len(),
{
    if text.len() == 0 {
        0
    } else {
        10 * digits_value(text.drop_last()) + (text.last() as int - '0' as int)
    }
}

/// The verdict on `text` as an integer literal: digits are one if they
/// spell an integer of the language; digits that spell a greater number are
/// none, and neither is what they start.
pub open spec fn integer_verdict(text: Seq<char>) -> MatchResult {
    if text.len() > 0 && all_digits(text) {
        if digits_value(text) <= i64::MAX {
            MatchResult::CompleteMatch
        } else {
            MatchResult::IncompleteMatch
        }
    } else {
        MatchResult::NoMatch
    }
}

/// What the rule of integer literals recognises, and the token it gives.
pub open spec fn integer_spec() -> RuleSpec {
    RuleSpec {
        verdict: |pre: Option<char>, text: Seq<char>| integer_verdict(text),
        token: |text: Seq<char>| Token::IntegerLiteral(digits_value(text) as i64),
    }
}

/// Matches an integer literal: decimal digits.
pub struct IntegerRule {
    value: i64,
    digits: Ghost<Seq<char>>,
    any: bool,
    too_big: bool,
    origin: Ghost<Option<char>>,
}

impl IntegerRule {
    pub fn new() -> (rule: IntegerRule)
        ensures
            rule.inv(),
            rule.definition() == integer_spec(),
            rule.fed() == Seq::<char>::empty(),
    {
        IntegerRule {
            value: 0,
            digits: Ghost(Seq::empty()),
            any: false,
            too_big: false,
            origin: Ghost(None),
        }
    }
}

impl LexerRule for IntegerRule {
    closed spec fn definition(&self) -> RuleSpec {
        integer_spec()
    }

    closed spec fn fed(&self) -> Seq<char> {
        self.digits@
    }

    closed spec fn pre(&self) -> Option<char> {
        self.origin@
    }

    closed spec fn inv(&self) -> bool {
        &&& self.any == (self.digits@.len() > 0)
        &&& all_digits(self.digits@)
        &&& self.too_big == (digits_value(self.digits@) > i64::MAX)
        &&& !self.too_big ==> self.value == digits_value(self.digits@)
        &&& self.value >= 0
    }

    fn reset(&mut self) {
        self.value = 0;
        self.any = false;
        self.too_big = false;
        proof {
            self.digits = Ghost(Seq::empty());
        }
    }

    fn current_state(&self) -> (res: MatchResult) {
        if self.any && !self.too_big {
            MatchResult::CompleteMatch
        } else {
            MatchResult::IncompleteMatch
        }
    }

    fn try_match(&mut self, prev: Option<char>, next: char) -> (res: MatchResult) {
        let ghost text = self.digits@.push(next);
        proof {
            assert(text.drop_last() =~= self.digits@);
        }
        if next < '0' || next > '9' {
            proof {
                assert(text[text.len() - 1] == next);
            }
            return MatchResult::NoMatch;
        }
        let digit = (next as u32 - '0' as u32) as i64;
        proof {
            assert forall|i: int| 0 <= i < text.len() implies '0' <= #[trigger] text[i] <= '9' by {
                if i < self.digits@.len() {
                    assert(text[i] == self.digits@[i]);
                }
            }
        }
        proof {
            assert(digits_value(text) == 10 * digits_value(self.digits@) + digit);
            if !self.any {
                self.origin = Ghost(prev);
            }
        }
        if self.too_big || self.value > (i64::MAX - digit) / 10 {
            self.too_big = true;
        } else {
            self.value = self.value * 10 + digit;
        }
        proof {
            self.digits = Ghost(text);
        }
        self.any = true;
        if self.too_big {
            MatchResult::IncompleteMatch
        } else {
            MatchResult::CompleteMatch
        }
    }

    fn get_token(&self) -> (token: Option<Token>) {
        if self.any && !self.too_big {
            Some(Token::IntegerLiteral(self.value))
        } else {
            None
        }
    }
}

/// Whether `text` has the shape of a name: it starts as a word starts and
/// goes on with word characters.
pub open spec fn name_shape(text: Seq<char>) -> bool
    decreases text.len(),
{
    if text.len() == 0 {
        true
    } else if text.len() == 1 {
        word_start(text[0])
    } else {
        name_shape(text.drop_last()) && word_char(text.last())
    }
}

/// The verdict on `text` as a name: a word with the shape of a name is one,
/// unless it is one of `reserved`; a reserved word may still be the start of
/// a name.
pub open spec fn name_verdict(reserved: Seq<Seq<char>>, text: Seq<char>) -> MatchResult {
    if text.len() > 0 && name_shape(text) {
        if reserved.contains(text) {
            MatchResult::IncompleteMatch
        } else {
            MatchResult::CompleteMatch
        }
    } else {
        MatchResult::NoMatch
    }
}

/// The token of a name, before the name is interned: the lexer puts the
/// symbol of the lexeme in its place.
pub open spec fn name_token() -> Token {
    Token::Identifier(InternSymbol::spec_first())
}

/// The token of a string literal, before its text is interned: the lexer
/// puts the symbol of the text between the quotes in its place.
pub open spec fn string_token() -> Token {
    Token::StringLiteral(InternSymbol::spec_first())
}

/// What the rule of names recognises, and the token it gives.
pub open spec fn name_spec(reserved: Seq<Seq<char>>) -> RuleSpec {
    RuleSpec {
        verdict: |pre: Option<char>, text: Seq<char>| name_verdict(reserved, text),
        token: |text: Seq<char>| name_token(),
    }
}

/// The words of `words`.
pub open spec fn words_of(words: Seq<Vec<char>>) -> Seq<Seq<char>>
    decreases words.len(),
{
    if words.len() == 0 {
        Seq::empty()
    } else {
        words_of(words.drop_last()).push(words.last()@)
    }
}

/// `words_of` goes word by word.
pub proof fn lemma_words_of(words: Seq<Vec<char>>)
    ensures
        words_of(words).len() == words.len(),
        forall|i: int| 0 <= i < words.len() ==> (#[trigger] words_of(words)[i]) == words[i]@,
    decreases words.len(),
{
    if words.len() > 0 {
        lemma_words_of(words.drop_last());
    }
}

/// Whether `text` is one of `words`.
pub fn is_one_of(words: &Vec<Vec<char>>, text: &Vec<char>) -> (res: bool)
    ensures
        res == words_of(words@).contains(text@),
{
    proof {
        lemma_words_of(words@);
    }
    let mut i: usize = 0;
    while i < words.len()
        invariant
            i <= words@.len(),
            words_of(words@).len() == words@.len(),
            forall|j: int| 0 <= j < words@.len() ==> (#[trigger] words_of(words@)[j]) == words@[j]@,
            forall|j: int| 0 <= j < i ==> (#[trigger] words_of(words@)[j]) != text@,
        decreases words@.len() - i,
    {
        if same_chars(&words[i], text) {
            assert(words_of(words@)[i as int] == text@);
            return true;
        }
        i += 1;
    }
    false
}

/// Whether the two hold the same characters.
pub fn same_chars(a: &Vec<char>, b: &Vec<char>) -> (res: bool)
    ensures
        res == (a@ == b@),
{
    if a.len() != b.len() {
        return false;
    }
    let mut i: usize = 0;
    while i < a.len()
        invariant
            i <= a@.len(),
            a@.len() == b@.len(),
            forall|j: int| 0 <= j < i ==> a@[j] == b@[j],
        decreases a@.len() - i,
    {
        if a[i] != b[i] {
            return false;
        }
        i += 1;
    }
    assert(a@ =~= b@);
    true
}

/// Matches a name: a word that is not reserved.
pub struct IdentifierRule {
    reserved: Vec<Vec<char>>,
    text: Vec<char>,
    origin: Ghost<Option<char>>,
}

impl IdentifierRule {
    /// The rule of the names that are none of `reserved`.
    pub fn new(reserved: Vec<Vec<char>>) -> (rule: IdentifierRule)
        ensures
            rule.inv(),
            rule.definition() == name_spec(words_of(reserved@)),
            rule.fed() == Seq::<char>::empty(),
    {
        IdentifierRule { reserved, text: Vec::new(), origin: Ghost(None) }
    }
}

impl LexerRule for IdentifierRule {
    closed spec fn definition(&self) -> RuleSpec {
        name_spec(words_of(self.reserved@))
    }

    closed spec fn fed(&self) -> Seq<char> {
        self.text@
    }

    closed spec fn pre(&self) -> Option<char> {
        self.origin@
    }

    closed spec fn inv(&self) -> bool {
        name_shape(self.text@)
    }

    fn reset(&mut self) {
        self.text.clear();
    }

    fn current_state(&self) -> (res: MatchResult) {
        if self.text.len() == 0 || is_one_of(&self.reserved, &self.text) {
            MatchResult::IncompleteMatch
        } else {
            MatchResult::CompleteMatch
        }
    }

    fn try_match(&mut self, prev: Option<char>, next: char) -> (res: MatchResult) {
        let ghost longer = self.text@.push(next);
        proof {
            assert(longer.drop_last() =~= self.text@);
        }
        let fits = if self.text.len() == 0 {
            is_word_start(next)
        } else {
            is_word_alphanumeric(next)
        };
        if !fits {
            return MatchResult::NoMatch;
        }
        proof {
            if self.text@.len() == 0 {
                self.origin = Ghost(prev);
            }
        }
        self.text.push(next);
        if is_one_of(&self.reserved, &self.text) {
            MatchResult::IncompleteMatch
        } else {
            MatchResult::CompleteMatch
        }
    }

    fn get_token(&self) -> (token: Option<Token>) {
        if self.current_state().is_complete_match() {
            Some(Token::Identifier(InternSymbol::first()))
        } else {
            None
        }
    }
}

/// The verdict on `text` as a string literal: a double quote, then
/// characters that are none, then a double quote.
pub open spec fn string_verdict(text: Seq<char>) -> MatchResult
    decreases text.len(),
{
    if text.len() == 0 {
        MatchResult::IncompleteMatch
    } else if text.len() == 1 {
        if text[0] == '"' {
            MatchResult::IncompleteMatch
        } else {
            MatchResult::NoMatch
        }
    } else {
        match string_verdict(text.drop_last()) {
            MatchResult::IncompleteMatch => if text.last() == '"' {
                MatchResult::CompleteMatch
            } else {
                MatchResult::IncompleteMatch
            },
            _ => MatchResult::NoMatch,
        }
    }
}

/// What the rule of string literals recognises, and the token it gives.
pub open spec fn string_spec() -> RuleSpec {
    RuleSpec {
        verdict: |pre: Option<char>, text: Seq<char>| string_verdict(text),
        token: |text: Seq<char>| string_token(),
    }
}

/// Matches a string literal between double quotes.
pub struct StringRule {
    state: MatchResult,
    any: bool,
    text: Ghost<Seq<char>>,
    origin: Ghost<Option<char>>,
}

impl StringRule {
    pub fn new() -> (rule: StringRule)
        ensures
            rule.inv(),
            rule.definition() == string_spec(),
            rule.fed() == Seq::<char>::empty(),
    {
        StringRule {
            state: MatchResult::IncompleteMatch,
            any: false,
            text: Ghost(Seq::empty()),
            origin: Ghost(None),
        }
    }
}

impl LexerRule for StringRule {
    closed spec fn definition(&self) -> RuleSpec {
        string_spec()
    }

    closed spec fn fed(&self) -> Seq<char> {
        self.text@
    }

    closed spec fn pre(&self) -> Option<char> {
        self.origin@
    }

    closed spec fn inv(&self) -> bool {
        &&& self.state == string_verdict(self.text@)
        &&& self.state.matches()
        &&& self.any == (self.text@.len() > 0)
    }

    fn reset(&mut self) {
        self.state = MatchResult::IncompleteMatch;
        self.any = false;
        proof {
            self.text = Ghost(Seq::empty());
        }
    }

    fn current_state(&self) -> (res: MatchResult) {
        self.state
    }

    fn try_match(&mut self, prev: Option<char>, next: char) -> (res: MatchResult) {
        let ghost longer = self.text@.push(next);
        proof {
            assert(longer.drop_last() =~= self.text@);
        }
        let res = if !self.any {
            if next == '"' {
                MatchResult::IncompleteMatch
            } else {
                MatchResult::NoMatch
            }
        } else {
            match self.state {
                MatchResult::IncompleteMatch => if next == '"' {
                    MatchResult::CompleteMatch
                } else {
                    MatchResult::IncompleteMatch
                },
                _ => MatchResult::NoMatch,
            }
        };
        if res.is_match() {
            proof {
                if !self.any {
                    self.origin = Ghost(prev);
                }
                self.text = Ghost(longer);
            }
            self.state = res;
            self.any = true;
        }
        res
    }

    fn get_token(&self) -> (token: Option<Token>) {
        if self.state.is_complete_match() {
            Some(Token::StringLiteral(InternSymbol::first()))
        } else {
            None
        }
    }
}

/// A rule of the language: one of the kinds of rules above.
pub enum TokenRule {
    Keyword(KeywordRule),
    Exact(ExactRule),
    Integer(IntegerRule),
    Identifier(IdentifierRule),
    String(StringRule),
}

impl LexerRule for TokenRule {
    open spec fn definition(&self) -> RuleSpec {
        match self {
            TokenRule::Keyword(rule) => rule.definition(),
            TokenRule::Exact(rule) => rule.definition(),
            TokenRule::Integer(rule) => rule.definition(),
            TokenRule::Identifier(rule) => rule.definition(),
            TokenRule::String(rule) => rule.definition(),
        }
    }

    open spec fn fed(&self) -> Seq<char> {
        match self {
            TokenRule::Keyword(rule) => rule.fed(),
            TokenRule::Exact(rule) => rule.fed(),
            TokenRule::Integer(rule) => rule.fed(),
            TokenRule::Identifier(rule) => rule.fed(),
            TokenRule::String(rule) => rule.fed(),
        }
    }

    open spec fn pre(&self) -> Option<char> {
        match self {
            TokenRule::Keyword(rule) => rule.pre(),
            TokenRule::Exact(rule) => rule.pre(),
            TokenRule::Integer(rule) => rule.pre(),
            TokenRule::Identifier(rule) => rule.pre(),
            TokenRule::String(rule) => rule.pre(),
        }
    }

    open spec fn inv(&self) -> bool {
        match self {
            TokenRule::Keyword(rule) => rule.inv(),
            TokenRule::Exact(rule) => rule.inv(),
            TokenRule::Integer(rule) => rule.inv(),
            TokenRule::Identifier(rule) => rule.inv(),
            TokenRule::String(rule) => rule.inv(),
        }
    }

    fn reset(&mut self) {
        match self {
            TokenRule::Keyword(rule) => rule.reset(),
            TokenRule::Exact(rule) => rule.reset(),
            TokenRule::Integer(rule) => rule.reset(),
            TokenRule::Identifier(rule) => rule.reset(),
            TokenRule::String(rule) => rule.reset(),
        }
    }

    fn current_state(&self) -> (res: MatchResult) {
        match self {
            TokenRule::Keyword(rule) => rule.current_state(),
            TokenRule::Exact(rule) => rule.current_state(),
            TokenRule::Integer(rule) => rule.current_state(),
            TokenRule::Identifier(rule) => rule.current_state(),
            TokenRule::String(rule) => rule.current_state(),
        }
    }

    fn try_match(&mut self, prev: Option<char>, next: char) -> (res: MatchResult) {
        match self {
            TokenRule::Keyword(rule) => rule.try_match(prev, next),
            TokenRule::Exact(rule) => rule.try_match(prev, next),
            TokenRule::Integer(rule) => rule.try_match(prev, next),
            TokenRule::Identifier(rule) => rule.try_match(prev, next),
            TokenRule::String(rule) => rule.try_match(prev, next),
        }
    }

    fn get_token(&self) -> (token: Option<Token>) {
        match self {
            TokenRule::Keyword(rule) => rule.get_token(),
            TokenRule::Exact(rule) => rule.get_token(),
            TokenRule::Integer(rule) => rule.get_token(),
            TokenRule::Identifier(rule) => rule.get_token(),
            TokenRule::String(rule) => rule.get_token(),
        }
    }
}

} // verus!
