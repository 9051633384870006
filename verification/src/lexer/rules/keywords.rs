//! Keywords: fixed words that must start at a word boundary.

use vstd::prelude::*;
use crate::lexer::lexer::{
    char_before, exhaust_len, lemma_skip_blank, none_alive, scan, skip_blank, sole_alive,
    verdict_at, Scan,
};
use crate::lexer::rules::strmatcher::{prefix_verdict, StrMatcher};
use crate::lexer::rules::{
    is_word_alphanumeric, word_boundary, word_char, LexerRule, MatchResult, RuleSpec,
};
use crate::lexer::token::Token;

verus! {

/// The verdict of the keyword `target` on `text`, which follows `pre`: that
/// of the fixed string, unless `pre` is a word character.
pub open spec fn keyword_verdict(target: Seq<char>, pre: Option<char>, text: Seq<char>)
    -> MatchResult {
    if word_boundary(pre) {
        prefix_verdict(target, text)
    } else {
        MatchResult::NoMatch
    }
}

/// What the rule of the keyword `target` recognises, and the token it gives.
pub open spec fn keyword_spec(result: Token, target: Seq<char>) -> RuleSpec {
    RuleSpec {
        verdict: |pre: Option<char>, text: Seq<char>| keyword_verdict(target, pre, text),
        token: |text: Seq<char>| result,
    }
}

/// Matches one keyword, and only where it starts at a word boundary.
pub struct KeywordRule {
    result: Token,
    matcher: StrMatcher,
    origin: Ghost<Option<char>>,
}

impl KeywordRule {
    /// The token that the keyword stands for.
    pub closed spec fn result(&self) -> Token {
        self.result
    }

    /// The keyword.
    pub closed spec fn target(&self) -> Seq<char> {
        self.matcher.target()
    }

    pub fn new(result: Token, target: &'static str) -> (rule: KeywordRule)
        ensures
            rule.inv(),
            rule.result() == result,
            rule.target() == target@,
            rule.definition() == keyword_spec(result, target@),
            rule.fed() == Seq::<char>::empty(),
    {
        KeywordRule { result, matcher: StrMatcher::new(target), origin: Ghost(None) }
    }
}

impl LexerRule for KeywordRule {
    closed spec fn definition(&self) -> RuleSpec {
        keyword_spec(self.result, self.matcher.target())
    }

    closed spec fn fed(&self) -> Seq<char> {
        self.matcher.matched()
    }

    closed spec fn pre(&self) -> Option<char> {
        self.origin@
    }

    closed spec fn inv(&self) -> bool {
        self.matcher.matched().len() > 0 ==> word_boundary(self.origin@)
    }

    fn reset(&mut self) {
        self.matcher.reset();
    }

    fn current_state(&self) -> (res: MatchResult) {
        self.matcher.last_match_result()
    }

    fn try_match(&mut self, prev: Option<char>, next: char) -> (res: MatchResult) {
        if self.matcher.count() == 0 {
            let at_word_boundary = match prev {
                Some(ch) => !is_word_alphanumeric(ch),
                None => true,
            };
            if !at_word_boundary {
                return MatchResult::NoMatch;
            }
        }
        let res = self.matcher.try_match(next);
        if res.is_match() {
            proof {
                if old(self).matcher.matched().len() == 0 {
                    self.origin = Ghost(prev);
                }
            }
        }
        res
    }

    fn get_token(&self) -> (token: Option<Token>) {
        if self.current_state().is_complete_match() {
            return Some(self.result);
        }
        return None;
    }
}

/// A keyword that starts at a word boundary is matched: its proper
/// beginnings are incomplete matches, the keyword itself a complete one.
pub proof fn lemma_keyword_matches_itself(target: Seq<char>, pre: Option<char>, k: int)
    requires
        word_boundary(pre),
        1 <= k <= target.len(),
    ensures
        keyword_verdict(target, pre, target.take(k)) == if k == target.len() {
            MatchResult::CompleteMatch
        } else {
            MatchResult::IncompleteMatch
        },
{
    assert(target.take(k).len() == k);
    assert(target.take(target.take(k).len() as int) =~= target.take(k));
}

/// A word that goes on behind a keyword is not that keyword: whatever
/// follows the keyword without a break, the rule refuses.
pub proof fn lemma_keyword_refuses_longer(target: Seq<char>, pre: Option<char>, suffix: Seq<char>)
    requires
        suffix.len() > 0,
    ensures
        keyword_verdict(target, pre, target + suffix) == MatchResult::NoMatch,
{
}

/// A keyword inside a word is not matched: behind a word character the rule
/// refuses every text.
pub proof fn lemma_keyword_needs_boundary(target: Seq<char>, pre: char, text: Seq<char>)
    requires
        word_char(pre),
    ensures
        keyword_verdict(target, Some(pre), text) == MatchResult::NoMatch,
{
}

/// Where the rule of a keyword is the one rule that takes the first
/// character of a lexeme, and the lexeme starts with the keyword, the scan
/// gives the keyword's token and ends behind the keyword.
pub proof fn lemma_keyword_is_scanned(
    rules: Seq<RuleSpec>,
    i: int,
    result: Token,
    target: Seq<char>,
    src: Seq<char>,
    from: int,
)
    requires
        0 <= from <= src.len(),
        0 <= i < rules.len(),
        rules[i] == keyword_spec(result, target),
        target.len() > 0,
        skip_blank(src, from) + target.len() <= src.len(),
        src.subrange(skip_blank(src, from), skip_blank(src, from) + target.len()) == target,
        word_boundary(char_before(src, skip_blank(src, from))),
        sole_alive(rules, src, skip_blank(src, from), 1, i),
    ensures
        scan(rules, src, from) == (Scan {
            end: skip_blank(src, from) + target.len(),
            outcome: Ok(result),
        }),
{
    let start = skip_blank(src, from);
    lemma_skip_blank(src, from);
    let pre = char_before(src, start);
    let rule = rules[i];
    assert forall|k: int| 1 <= k <= target.len() implies src.subrange(start, start + k)
        == target.take(k) by {
        assert(src.subrange(start, start + k) =~= src.subrange(
            start,
            start + target.len(),
        ).take(k));
    }
    assert forall|k: int| 1 <= k <= target.len() implies (#[trigger] verdict_at(
        rule,
        src,
        start,
        k,
    )) == if k == target.len() {
        MatchResult::CompleteMatch
    } else {
        MatchResult::IncompleteMatch
    } by {
        lemma_keyword_matches_itself(target, pre, k);
    }
    lemma_keyword_runs(rule, result, target, src, start, 1);
    let chosen = choose|j: int| sole_alive(rules, src, start, 1, j);
    assert(chosen == i);
    assert(!none_alive(rules, src, start, 1));
    assert(src.subrange(start, start + target.len()) =~= target);
}

/// Left alone after `k` characters of the keyword, the rule of a keyword
/// takes the rest of it and no more.
proof fn lemma_keyword_runs(
    rule: RuleSpec,
    result: Token,
    target: Seq<char>,
    src: Seq<char>,
    start: int,
    k: int,
)
    requires
        rule == keyword_spec(result, target),
        1 <= k <= target.len(),
        0 <= start,
        start + target.len() <= src.len(),
        src.subrange(start, start + target.len()) == target,
        forall|j: int|
            1 <= j <= target.len() ==> (#[trigger] verdict_at(rule, src, start, j)).matches(),
    ensures
        exhaust_len(rule, src, start, k) == target.len(),
    decreases target.len() - k,
{
    if k < target.len() {
        assert(verdict_at(rule, src, start, k + 1).matches());
        lemma_keyword_runs(rule, result, target, src, start, k + 1);
    } else if start + k < src.len() {
        let longer = src.subrange(start, start + k + 1);
        assert(longer.len() == target.len() + 1);
        assert(verdict_at(rule, src, start, k + 1) == MatchResult::NoMatch);
    }
}

} // verus!
