//! The lexer: it feeds the source text to its rules, one character at a time,
//! and hands out one token per call.

use vstd::pervasive::unreached;
use vstd::prelude::*;
use vstd::string::StringExecFns;
use crate::lexer::rules::{
    char_is_whitespace, match_origin, whitespace, LexerRule, MatchResult, RuleSpec,
};
use crate::lexer::token::Token;

verus! {

/// A run of characters of the source text: `length` characters from `index`.
#[derive(Debug, Clone, Copy, PartialEq, Eq, Structural)]
pub struct Span {
    pub index: usize,
    pub length: usize,
}

/// A token with its place in the source text.
#[derive(Debug)]
pub struct TokenOut {
    pub token: Token,
    pub location: Span,
    pub lineno: u64,
}

/// A lexeme that no token stands for, with its place in the source text.
#[derive(Debug)]
pub struct LexerError {
    pub message: String,
    pub location: Span,
    pub lineno: u64,
}

/// Why a run of characters gave no token.
pub enum Fault {
    /// The rules gave up, or the text ended, and none had a complete match.
    NoMatchingRule,
    /// No rule was left, and several had a complete match.
    AmbiguousMatch,
}

impl Fault {
    /// The message of a lexer error with this cause.
    pub open spec fn message(self) -> Seq<char> {
        match self {
            Fault::NoMatchingRule => "could not parse symbol"@,
            Fault::AmbiguousMatch => "ambiguous symbol"@,
        }
    }
}

/// What one scan gives: the position after it, and a token or a fault.
pub ghost struct Scan {
    pub end: int,
    pub outcome: Result<Token, Fault>,
}

/// The character before position `at`, if there is one.
pub open spec fn char_before(src: Seq<char>, at: int) -> Option<char> {
    if 0 < at <= src.len() {
        Some(src[at - 1])
    } else {
        None
    }
}

/// The first position from `from` on that holds no white space, or the end
/// of the text.
pub open spec fn skip_blank(src: Seq<char>, from: int) -> int
    decreases src.len() - from,
{
    if 0 <= from < src.len() && whitespace(src[from]) {
        skip_blank(src, from + 1)
    } else {
        from
    }
}

/// The number of line feeds in `src` from `from` up to `to`.
pub open spec fn newlines(src: Seq<char>, from: int, to: int) -> nat
    decreases to - from,
{
    if from < to {
        newlines(src, from, to - 1) + if src[to - 1] == '\n' {
            1nat
        } else {
            0nat
        }
    } else {
        0
    }
}

/// The verdict of `rule` on the first `k` characters from `start`.
pub open spec fn verdict_at(rule: RuleSpec, src: Seq<char>, start: int, k: int) -> MatchResult {
    (rule.verdict)(char_before(src, start), src.subrange(start, start + k))
}

/// Whether `rule` is still in contention once the first `k` characters from
/// `start` were fed: it refused none of them.
pub open spec fn alive(rule: RuleSpec, src: Seq<char>, start: int, k: int) -> bool {
    forall|j: int| 1 <= j <= k ==> (#[trigger] verdict_at(rule, src, start, j)).matches()
}

/// Whether `rule` has a complete match on the first `k` characters from
/// `start`, and was in contention up to there.
pub open spec fn complete_at(rule: RuleSpec, src: Seq<char>, start: int, k: int) -> bool {
    k >= 1 && alive(rule, src, start, k) && verdict_at(rule, src, start, k)
        == MatchResult::CompleteMatch
}

/// Whether no rule is in contention after `k` characters.
pub open spec fn none_alive(rules: Seq<RuleSpec>, src: Seq<char>, start: int, k: int) -> bool {
    forall|i: int| 0 <= i < rules.len() ==> !alive(#[trigger] rules[i], src, start, k)
}

/// Whether rule `i` is the one rule in contention after `k` characters.
pub open spec fn sole_alive(rules: Seq<RuleSpec>, src: Seq<char>, start: int, k: int, i: int)
    -> bool {
    &&& 0 <= i < rules.len()
    &&& alive(rules[i], src, start, k)
    &&& forall|j: int| 0 <= j < rules.len() && alive(#[trigger] rules[j], src, start, k) ==> j == i
}

/// Whether no rule has a complete match after `k` characters.
pub open spec fn none_complete(rules: Seq<RuleSpec>, src: Seq<char>, start: int, k: int) -> bool {
    forall|i: int| 0 <= i < rules.len() ==> !complete_at(#[trigger] rules[i], src, start, k)
}

/// Whether rule `i` is the one rule with a complete match after `k`
/// characters.
pub open spec fn sole_complete(rules: Seq<RuleSpec>, src: Seq<char>, start: int, k: int, i: int)
    -> bool {
    &&& 0 <= i < rules.len()
    &&& complete_at(rules[i], src, start, k)
    &&& forall|j: int|
        0 <= j < rules.len() && complete_at(#[trigger] rules[j], src, start, k) ==> j == i
}

/// The lexeme of the first `k` characters, once no rule takes more: the
/// token of the one rule that has a complete match on them.
pub open spec fn decide(rules: Seq<RuleSpec>, src: Seq<char>, start: int, k: int) -> Result<
    Token,
    Fault,
> {
    if none_complete(rules, src, start, k) {
        Err(Fault::NoMatchingRule)
    } else if exists|i: int| sole_complete(rules, src, start, k, i) {
        let i = choose|i: int| sole_complete(rules, src, start, k, i);
        Ok((rules[i].token)(src.subrange(start, start + k)))
    } else {
        Err(Fault::AmbiguousMatch)
    }
}

/// How many characters from `start` the rule takes when it is left alone
/// after `k` of them: it goes on until it refuses one or the input ends.
pub open spec fn exhaust_len(rule: RuleSpec, src: Seq<char>, start: int, k: int) -> int
    decreases src.len() - (start + k),
{
    if start + k < src.len() && verdict_at(rule, src, start, k + 1).matches() {
        exhaust_len(rule, src, start, k + 1)
    } else {
        k
    }
}

/// What the one rule left after `k` characters gives.
pub open spec fn exhaust(rule: RuleSpec, src: Seq<char>, start: int, k: int) -> Scan {
    let m = exhaust_len(rule, src, start, k);
    Scan {
        end: start + m,
        outcome: if verdict_at(rule, src, start, m) == MatchResult::CompleteMatch {
            Ok((rule.token)(src.subrange(start, start + m)))
        } else {
            Err(Fault::NoMatchingRule)
        },
    }
}

/// The scan of a lexeme that starts at `start`, once `k` of its characters
/// were fed to the rules in contention.
///
/// With no rule left the lexeme ends before the last character fed, and the
/// rules that had a complete match before it decide; a first character that
/// no rule takes is passed over. One rule left is run until it refuses a
/// character. With more rules left the next character is fed; if there is
/// none, the lexeme ends with the text, and the rules that have a complete
/// match decide.
pub open spec fn scan_rounds(rules: Seq<RuleSpec>, src: Seq<char>, start: int, k: int) -> Scan
    decreases src.len() - (start + k),
{
    if none_alive(rules, src, start, k) {
        Scan {
            end: if k <= 1 {
                start + 1
            } else {
                start + k - 1
            },
            outcome: decide(rules, src, start, k - 1),
        }
    } else if exists|i: int| sole_alive(rules, src, start, k, i) {
        let i = choose|i: int| sole_alive(rules, src, start, k, i);
        exhaust(rules[i], src, start, k)
    } else if start + k >= src.len() {
        Scan { end: start + k, outcome: decide(rules, src, start, k) }
    } else {
        scan_rounds(rules, src, start, k + 1)
    }
}

/// The scan of the next token from position `from`: white space is passed
/// over; at the end of the text the token is `EOF`.
pub open spec fn scan(rules: Seq<RuleSpec>, src: Seq<char>, from: int) -> Scan {
    let start = skip_blank(src, from);
    if start >= src.len() {
        Scan { end: start, outcome: Ok(Token::EOF) }
    } else {
        scan_rounds(rules, src, start, 1)
    }
}

/// The span from `start` up to `end`.
pub open spec fn span_between(start: int, end: int) -> Span {
    Span { index: start as usize, length: (end - start) as usize }
}

/// `skip_blank` stops at or after `from`, inside the text; all that it passes
/// is white space, and it stops on a character that is none.
pub proof fn lemma_skip_blank(src: Seq<char>, from: int)
    requires
        0 <= from <= src.len(),
    ensures
        from <= skip_blank(src, from) <= src.len(),
        forall|i: int| from <= i < skip_blank(src, from) ==> whitespace(#[trigger] src[i]),
        skip_blank(src, from) < src.len() ==> !whitespace(src[skip_blank(src, from)]),
    decreases src.len() - from,
{
    if from < src.len() && whitespace(src[from]) {
        lemma_skip_blank(src, from + 1);
    }
}

/// Line feeds are counted piece by piece.
pub proof fn lemma_newlines_split(src: Seq<char>, from: int, mid: int, to: int)
    requires
        from <= mid <= to,
    ensures
        newlines(src, from, to) == newlines(src, from, mid) + newlines(src, mid, to),
    decreases to - mid,
{
    if mid < to {
        lemma_newlines_split(src, from, mid, to - 1);
    }
}

/// A rule is in contention after `k` characters if it was after `k - 1` and
/// took the next one.
pub proof fn lemma_alive_step(rule: RuleSpec, src: Seq<char>, start: int, k: int)
    requires
        k >= 1,
    ensures
        alive(rule, src, start, k) <==> alive(rule, src, start, k - 1) && verdict_at(
            rule,
            src,
            start,
            k,
        ).matches(),
{
    if alive(rule, src, start, k - 1) && verdict_at(rule, src, start, k).matches() {
        assert forall|j: int| 1 <= j <= k implies (#[trigger] verdict_at(
            rule,
            src,
            start,
            j,
        )).matches() by {
            if j < k {
            }
        }
    }
    if alive(rule, src, start, k) {
        assert(verdict_at(rule, src, start, k).matches());
        assert forall|j: int| 1 <= j <= k - 1 implies (#[trigger] verdict_at(
            rule,
            src,
            start,
            j,
        )).matches() by {}
    }
}

/// The one rule left takes no more characters than the text has.
pub proof fn lemma_exhaust_len(rule: RuleSpec, src: Seq<char>, start: int, k: int)
    requires
        start + k <= src.len(),
    ensures
        k <= exhaust_len(rule, src, start, k),
        start + exhaust_len(rule, src, start, k) <= src.len(),
    decreases src.len() - (start + k),
{
    if start + k < src.len() && verdict_at(rule, src, start, k + 1).matches() {
        lemma_exhaust_len(rule, src, start, k + 1);
    }
}

/// A lexeme ends behind the characters that were read for it, inside the
/// text.
pub proof fn lemma_scan_rounds_end(rules: Seq<RuleSpec>, src: Seq<char>, start: int, k: int)
    requires
        k >= 1,
        start + k <= src.len(),
    ensures
        start + 1 <= scan_rounds(rules, src, start, k).end <= src.len(),
        start + k - 1 <= scan_rounds(rules, src, start, k).end,
    decreases src.len() - (start + k),
{
    if none_alive(rules, src, start, k) {
    } else if exists|i: int| sole_alive(rules, src, start, k, i) {
        let i = choose|i: int| sole_alive(rules, src, start, k, i);
        lemma_exhaust_len(rules[i], src, start, k);
    } else if start + k >= src.len() {
    } else {
        lemma_scan_rounds_end(rules, src, start, k + 1);
    }
}

/// One scan: it passes over white space only, starts its lexeme on a
/// character that is none, reads at least that character, and stays inside
/// the text.
pub proof fn lemma_scan_step(rules: Seq<RuleSpec>, src: Seq<char>, from: int)
    requires
        0 <= from <= src.len(),
    ensures
        from <= skip_blank(src, from) <= scan(rules, src, from).end <= src.len(),
        forall|i: int| from <= i < skip_blank(src, from) ==> whitespace(#[trigger] src[i]),
        skip_blank(src, from) < src.len() ==> !whitespace(src[skip_blank(src, from)])
            && skip_blank(src, from) < scan(rules, src, from).end,
{
    lemma_skip_blank(src, from);
    let start = skip_blank(src, from);
    if start < src.len() {
        lemma_scan_rounds_end(rules, src, start, 1);
    }
}

/// The position of the lexer after `n` scans from `from`.
pub open spec fn position_after(rules: Seq<RuleSpec>, src: Seq<char>, from: int, n: nat) -> int
    decreases n,
{
    if n == 0 {
        from
    } else {
        scan(rules, src, position_after(rules, src, from, (n - 1) as nat)).end
    }
}

/// Whether position `x` lies in the span of one of the first `n` lexemes
/// scanned from `from`.
pub open spec fn in_lexeme(rules: Seq<RuleSpec>, src: Seq<char>, from: int, n: nat, x: int) -> bool {
    exists|k: nat|
        k < n && skip_blank(src, #[trigger] position_after(rules, src, from, k)) <= x
            < position_after(rules, src, from, k + 1)
}

/// The lexer never moves back, and stays inside the text.
pub proof fn lemma_position_after(rules: Seq<RuleSpec>, src: Seq<char>, from: int, n: nat)
    requires
        0 <= from <= src.len(),
    ensures
        from <= position_after(rules, src, from, n) <= src.len(),
    decreases n,
{
    if n > 0 {
        lemma_position_after(rules, src, from, (n - 1) as nat);
        lemma_scan_step(rules, src, position_after(rules, src, from, (n - 1) as nat));
    }
}

/// The spans of the lexemes leave out nothing but white space: every
/// character that the lexer has passed after `n` scans is white space or
/// lies in the span of one of the `n` lexemes.
pub proof fn lemma_spans_cover_text(
    rules: Seq<RuleSpec>,
    src: Seq<char>,
    from: int,
    n: nat,
    x: int,
)
    requires
        0 <= from <= src.len(),
        from <= x < position_after(rules, src, from, n),
    ensures
        whitespace(src[x]) || in_lexeme(rules, src, from, n, x),
    decreases n,
{
    if n > 0 {
        let m = (n - 1) as nat;
        let before = position_after(rules, src, from, m);
        lemma_position_after(rules, src, from, m);
        lemma_scan_step(rules, src, before);
        if x < before {
            lemma_spans_cover_text(rules, src, from, m, x);
            if !whitespace(src[x]) {
                let k = choose|k: nat|
                    k < m && skip_blank(src, #[trigger] position_after(rules, src, from, k)) <= x
                        < position_after(rules, src, from, k + 1);
                assert(k < n);
            }
        } else if x >= skip_blank(src, before) {
            assert(position_after(rules, src, from, m + 1) == scan(rules, src, before).end);
            assert(m < n && skip_blank(src, position_after(rules, src, from, m)) <= x
                < position_after(rules, src, from, m + 1));
        }
    }
}

/// Whether `list` holds indices below `n` in rising order.
pub open spec fn rising(list: Seq<usize>, n: int) -> bool {
    &&& forall|a: int| 0 <= a < list.len() ==> (#[trigger] list[a]) < n
    &&& forall|a: int, b: int| 0 <= a < b < list.len() ==> list[a] < list[b]
}

/// Whether `list` holds, in rising order, the rules in contention after `k`
/// characters.
pub open spec fn lists_alive(
    list: Seq<usize>,
    rules: Seq<RuleSpec>,
    src: Seq<char>,
    start: int,
    k: int,
) -> bool {
    &&& rising(list, rules.len() as int)
    &&& forall|i: int|
        0 <= i < rules.len() ==> (alive(#[trigger] rules[i], src, start, k) <==> list.contains(
            i as usize,
        ))
}

/// Whether `list` holds, in rising order, the rules with a complete match
/// after `k` characters.
pub open spec fn lists_complete(
    list: Seq<usize>,
    rules: Seq<RuleSpec>,
    src: Seq<char>,
    start: int,
    k: int,
) -> bool {
    &&& rising(list, rules.len() as int)
    &&& forall|i: int|
        0 <= i < rules.len() ==> (complete_at(#[trigger] rules[i], src, start, k)
            <==> list.contains(i as usize))
}

/// What a list holds once `x` is added at its end.
pub proof fn lemma_push_contains(list: Seq<usize>, x: usize)
    ensures
        forall|y: usize| #[trigger] list.push(x).contains(y) <==> list.contains(y) || y == x,
{
    assert forall|y: usize| #[trigger] list.push(x).contains(y) <==> list.contains(y) || y == x by {
        if list.contains(y) {
            let a = choose|a: int| 0 <= a < list.len() && list[a] == y;
            assert(list.push(x)[a] == y);
        }
        if y == x {
            assert(list.push(x)[list.len() as int] == y);
        }
        if list.push(x).contains(y) {
            let a = choose|a: int| 0 <= a < list.push(x).len() && list.push(x)[a] == y;
            if a < list.len() {
                assert(list[a] == y);
            }
        }
    }
}

/// Collects the rules of a lexer. A lexer over rules of several kinds takes
/// an enum of them for `R`.
pub struct LexerBuilder<R: LexerRule> {
    rules: Vec<R>,
}

impl<R: LexerRule> LexerBuilder<R> {
    /// What the rules recognise, in the order in which they were added.
    pub closed spec fn grammar(&self) -> Seq<RuleSpec> {
        Seq::new(self.rules@.len(), |i: int| self.rules@[i].definition())
    }

    #[verifier::type_invariant]
    spec fn type_inv(&self) -> bool {
        forall|i: int| 0 <= i < self.rules@.len() ==> (#[trigger] self.rules@[i]).inv()
    }

    pub fn new() -> (builder: LexerBuilder<R>)
        ensures
            builder.grammar() == Seq::<RuleSpec>::empty(),
    {
        LexerBuilder { rules: Vec::new() }
    }

    pub fn add_rule(self, rule: R) -> (builder: LexerBuilder<R>)
        requires
            rule.inv(),
        ensures
            builder.grammar() == self.grammar().push(rule.definition()),
    {
        proof {
            use_type_invariant(&self);
        }
        let mut rules = self.rules;
        let ghost before = rules@;
        rules.push(rule);
        let builder = LexerBuilder { rules };
        assert(builder.grammar() =~= self.grammar().push(rule.definition()));
        builder
    }

    /// A lexer over `source` that starts at its first character, on line 1.
    pub fn build(self, source: Vec<char>) -> (lexer: Lexer<R>)
        requires
            source@.len() < usize::MAX,
        ensures
            lexer.wf(),
            lexer.grammar() == self.grammar(),
            lexer.source() == source@,
            lexer.position() == 0,
            lexer.line() == 1,
    {
        proof {
            use_type_invariant(&self);
        }
        let lexer = Lexer { source, rules: self.rules, current: 0, lineno: 1 };
        assert(lexer.grammar() =~= self.grammar());
        lexer
    }
}

/// Turns a source text into tokens, one per call of `next_token`.
pub struct Lexer<R: LexerRule> {
    source: Vec<char>,
    rules: Vec<R>,
    current: usize,
    lineno: u64,
}

impl<R: LexerRule> Lexer<R> {
    /// The text that is scanned.
    pub closed spec fn source(&self) -> Seq<char> {
        self.source@
    }

    /// The position of the next character to read.
    pub closed spec fn position(&self) -> int {
        self.current as int
    }

    /// The line of the last character read, counted from 1.
    pub closed spec fn line(&self) -> int {
        self.lineno as int
    }

    /// What the rules recognise.
    pub closed spec fn grammar(&self) -> Seq<RuleSpec> {
        Seq::new(self.rules@.len(), |i: int| self.rules@[i].definition())
    }

    /// The invariant of the lexer: it stands inside the text, has counted no
    /// more lines than characters, and its rules are in order.
    pub closed spec fn wf(&self) -> bool {
        &&& self.source@.len() < usize::MAX
        &&& self.current <= self.source@.len()
        &&& self.lineno <= self.current + 1
        &&& forall|i: int| 0 <= i < self.rules@.len() ==> (#[trigger] self.rules@[i]).inv()
    }

    /// Whether rule `i` was fed the first `k` characters from `start`.
    spec fn rule_fed(&self, i: int, start: int, k: int) -> bool {
        &&& self.rules@[i].fed() == self.source@.subrange(start, start + k)
        &&& k >= 1 ==> self.rules@[i].pre() == char_before(self.source@, start)
    }

    /// The characters of the text that `span` covers.
    pub fn lexeme(&self, span: &Span) -> (text: &[char])
        requires
            span.index + span.length <= self.source().len(),
        ensures
            text@ == self.source().subrange(span.index as int, span.index + span.length),
    {
        let len = self.source.len();
        vstd::slice::slice_subrange(self.source.as_slice(), span.index, span.index + span.length)
    }

    fn current_span(&self, start_idx: usize) -> (span: Span)
        ensures
            span.index == start_idx,
            span.length == if self.position() > start_idx {
                self.position() - start_idx
            } else {
                0
            },
    {
        if self.current > start_idx {
            Span { index: start_idx, length: self.current - start_idx }
        } else {
            Span { index: start_idx, length: 0 }
        }
    }

    /// Reads one character, if there is one left.
    fn advance(&mut self) -> (next: Option<char>)
        requires
            old(self).wf(),
        ensures
            final(self).wf(),
            final(self).source() == old(self).source(),
            final(self).rules == old(self).rules,
            old(self).position() < old(self).source().len() ==> next == Some(
                old(self).source()[old(self).position()],
            ) && final(self).position() == old(self).position() + 1,
            old(self).position() >= old(self).source().len() ==> next.is_none() && final(self).position() == old(self).position(),
            final(self).line() == old(self).line() + newlines(
                old(self).source(),
                old(self).position(),
                final(self).position(),
            ),
    {
        if self.current < self.source.len() {
            let next = self.source[self.current];
            self.current += 1;
            if next == '\n' {
                self.lineno += 1;
            }
            assert(newlines(self.source@, self.current - 1, self.current - 1) == 0);
            Some(next)
        } else {
            None
        }
    }

    /// The next character, which stays unread.
    fn peek(&self) -> (next: Option<char>)
        ensures
            self.position() < self.source().len() ==> next == Some(self.source()[self.position()]),
            self.position() >= self.source().len() ==> next.is_none(),
    {
        if self.current < self.source.len() {
            Some(self.source[self.current])
        } else {
            None
        }
    }

    /// The character read last.
    fn last(&self) -> (prev: Option<char>)
        requires
            self.wf(),
        ensures
            prev == char_before(self.source(), self.position()),
    {
        if self.current > 0 {
            Some(self.source[self.current - 1])
        } else {
            None
        }
    }

    fn skip_whitespace(&mut self)
        requires
            old(self).wf(),
        ensures
            final(self).wf(),
            final(self).source() == old(self).source(),
            final(self).rules == old(self).rules,
            final(self).position() == skip_blank(old(self).source(), old(self).position()),
            final(self).line() == old(self).line() + newlines(
                old(self).source(),
                old(self).position(),
                final(self).position(),
            ),
    {
        loop
            invariant
                self.wf(),
                self.source() == old(self).source(),
                self.rules == old(self).rules,
                old(self).position() <= self.position() <= self.source().len(),
                skip_blank(self.source(), self.position()) == skip_blank(
                    old(self).source(),
                    old(self).position(),
                ),
                self.line() == old(self).line() + newlines(
                    old(self).source(),
                    old(self).position(),
                    self.position(),
                ),
            ensures
                self.position() == skip_blank(old(self).source(), old(self).position()),
            decreases self.source().len() - self.position(),
        {
            match self.peek() {
                None => break ,
                Some(ch) => {
                    if !char_is_whitespace(ch) {
                        break ;
                    }
                    let ghost before = self.position();
                    self.advance();
                    proof {
                        lemma_newlines_split(
                            self.source(),
                            old(self).position(),
                            before,
                            self.position(),
                        );
                    }
                },
            }
        }
    }

    /// Reads on to the end of the line.
    fn skip_until_next_line(&mut self)
        requires
            old(self).wf(),
        ensures
            final(self).wf(),
            final(self).source() == old(self).source(),
            final(self).rules == old(self).rules,
            old(self).position() <= final(self).position() <= final(self).source().len(),
            forall|i: int|
                old(self).position() <= i < final(self).position() - 1 ==> #[trigger] final(self).source()[i] != '\n',
            final(self).position() < final(self).source().len() ==> final(self).position() > old(self).position() && final(self).source()[final(self).position() - 1] == '\n',
            final(self).line() == old(self).line() + newlines(
                old(self).source(),
                old(self).position(),
                final(self).position(),
            ),
    {
        loop
            invariant_except_break
                forall|i: int|
                    old(self).position() <= i < self.position() ==> #[trigger] self.source()[i]
                        != '\n',
            invariant
                self.wf(),
                self.source() == old(self).source(),
                self.rules == old(self).rules,
                old(self).position() <= self.position() <= self.source().len(),
                self.line() == old(self).line() + newlines(
                    old(self).source(),
                    old(self).position(),
                    self.position(),
                ),
            ensures
                self.source() == old(self).source(),
                self.rules == old(self).rules,
                old(self).position() <= self.position() <= self.source().len(),
                forall|i: int|
                    old(self).position() <= i < self.position() - 1 ==> #[trigger] self.source()[i]
                        != '\n',
                self.position() < self.source().len() ==> self.position() > old(self).position()
                    && self.source()[self.position() - 1] == '\n',
                self.line() == old(self).line() + newlines(
                    old(self).source(),
                    old(self).position(),
                    self.position(),
                ),
            decreases self.source().len() - self.position(),
        {
            let ghost before = self.position();
            let next = self.advance();
            proof {
                lemma_newlines_split(self.source(), old(self).position(), before, self.position());
            }
            match next {
                None => break ,
                Some(ch) => {
                    if ch == '\n' {
                        break ;
                    }
                },
            }
        }
    }

    /// Resets every rule.
    fn reset_rules(&mut self)
        requires
            old(self).wf(),
        ensures
            final(self).wf(),
            final(self).source() == old(self).source(),
            final(self).position() == old(self).position(),
            final(self).line() == old(self).line(),
            final(self).grammar() == old(self).grammar(),
            forall|i: int|
                0 <= i < final(self).rules@.len() ==> (#[trigger] final(self).rules@[i]).fed()
                    == Seq::<char>::empty(),
    {
        let n = self.rules.len();
        let mut i: usize = 0;
        while i < n
            invariant
                self.wf(),
                self.source@ == old(self).source@,
                self.current == old(self).current,
                self.lineno == old(self).lineno,
                self.rules@.len() == n,
                old(self).rules@.len() == n,
                i <= n,
                forall|j: int|
                    0 <= j < n ==> (#[trigger] self.rules@[j]).definition() == old(self).rules@[j].definition(),
                forall|j: int|
                    0 <= j < i ==> (#[trigger] self.rules@[j]).fed() == Seq::<char>::empty(),
            decreases n - i,
        {
            let rule = &mut self.rules[i];
            rule.reset();
            i += 1;
        }
        assert(self.grammar() =~= old(self).grammar());
    }

    /// Offers `next` to the rules of `active`, and tells which of them took
    /// it, and which of those have a complete match with it.
    fn feed_round(
        &mut self,
        active: &Vec<usize>,
        prev: Option<char>,
        next: char,
        Ghost(start): Ghost<int>,
        Ghost(k): Ghost<int>,
    ) -> (lists: (Vec<usize>, Vec<usize>))
        requires
            old(self).wf(),
            k >= 1,
            0 <= start,
            start + k <= old(self).source().len(),
            next == old(self).source()[start + k - 1],
            prev == char_before(old(self).source(), start + k - 1),
            rising(active@, old(self).rules@.len() as int),
            forall|a: int| 0 <= a < active@.len() ==> old(self).rule_fed(active@[a] as int, start, k - 1),
        ensures
            final(self).wf(),
            final(self).source() == old(self).source(),
            final(self).position() == old(self).position(),
            final(self).line() == old(self).line(),
            final(self).grammar() == old(self).grammar(),
            final(self).rules@.len() == old(self).rules@.len(),
            rising(lists.0@, old(self).rules@.len() as int),
            rising(lists.1@, old(self).rules@.len() as int),
            forall|i: int|
                0 <= i < old(self).rules@.len() ==> (lists.0@.contains(i as usize) <==> active@.contains(
                    i as usize,
                ) && verdict_at(
                    #[trigger] old(self).grammar()[i],
                    old(self).source(),
                    start,
                    k,
                ).matches()),
            forall|i: int|
                0 <= i < old(self).rules@.len() ==> (lists.1@.contains(i as usize) <==> active@.contains(
                    i as usize,
                ) && verdict_at(#[trigger] old(self).grammar()[i], old(self).source(), start, k)
                    == MatchResult::CompleteMatch),
            forall|a: int|
                0 <= a < active@.len() ==> if verdict_at(
                    old(self).grammar()[#[trigger] active@[a] as int],
                    old(self).source(),
                    start,
                    k,
                ).matches() {
                    final(self).rule_fed(active@[a] as int, start, k)
                } else {
                    final(self).rule_fed(active@[a] as int, start, k - 1)
                },
    {
        let ghost src = self.source();
        let ghost g = self.grammar();
        let count = self.rules.len();
        let ghost n = count as int;
        let ghost text = src.subrange(start, start + k);
        let mut next_active: Vec<usize> = Vec::new();
        let mut next_complete: Vec<usize> = Vec::new();
        let mut idx: usize = 0;
        while idx < active.len()
            invariant
                self.wf(),
                self.source@ == old(self).source@,
                self.current == old(self).current,
                self.lineno == old(self).lineno,
                self.rules@.len() == n,
                n == count,
                src == old(self).source(),
                g == old(self).grammar(),
                n == old(self).rules@.len(),
                text == src.subrange(start, start + k),
                k >= 1,
                0 <= start,
                start + k <= src.len(),
                next == src[start + k - 1],
                prev == char_before(src, start + k - 1),
                idx <= active@.len(),
                rising(active@, n),
                forall|j: int| 0 <= j < n ==> (#[trigger] self.rules@[j]).definition() == g[j],
                rising(next_active@, n),
                rising(next_complete@, n),
                forall|a: int|
                    0 <= a < next_active@.len() && idx < active@.len() ==> (
                    #[trigger] next_active@[a]) < active@[idx as int],
                forall|a: int|
                    0 <= a < next_complete@.len() && idx < active@.len() ==> (
                    #[trigger] next_complete@[a]) < active@[idx as int],
                forall|a: int|
                    0 <= a < next_active@.len() ==> active@.contains(#[trigger] next_active@[a])
                        && verdict_at(g[next_active@[a] as int], src, start, k).matches(),
                forall|a: int|
                    0 <= a < next_complete@.len() ==> active@.contains(#[trigger] next_complete@[a])
                        && verdict_at(g[next_complete@[a] as int], src, start, k)
                        == MatchResult::CompleteMatch,
                forall|b: int|
                    0 <= b < idx && verdict_at(g[#[trigger] active@[b] as int], src, start, k).matches()
                        ==> next_active@.contains(active@[b]),
                forall|b: int|
                    0 <= b < idx && verdict_at(g[#[trigger] active@[b] as int], src, start, k)
                        == MatchResult::CompleteMatch ==> next_complete@.contains(active@[b]),
                forall|b: int|
                    0 <= b < idx ==> if verdict_at(
                        g[#[trigger] active@[b] as int],
                        src,
                        start,
                        k,
                    ).matches() {
                        self.rule_fed(active@[b] as int, start, k)
                    } else {
                        self.rule_fed(active@[b] as int, start, k - 1)
                    },
                forall|b: int|
                    idx <= b < active@.len() ==> self.rule_fed(
                        #[trigger] active@[b] as int,
                        start,
                        k - 1,
                    ),
            decreases active@.len() - idx,
        {
            let rule_idx = active[idx];
            let ghost before = self.rules@;
            let rule = &mut self.rules[rule_idx];
            let res = rule.try_match(prev, next);
            proof {
                let i = rule_idx as int;
                assert(before[i].fed() == src.subrange(start, start + k - 1));
                assert(before[i].fed().push(next) =~= text);
                assert(match_origin(before[i].fed(), before[i].pre(), prev) == char_before(
                    src,
                    start,
                ));
                assert(res == verdict_at(g[i], src, start, k));
                assert forall|b: int| 0 <= b < active@.len() && b != idx implies self.rules@[active@[b] as int]
                    == before[active@[b] as int] by {
                    if b < idx {
                        assert(active@[b] < active@[idx as int]);
                    } else {
                        assert(active@[idx as int] < active@[b]);
                    }
                }
                lemma_push_contains(next_active@, rule_idx);
                lemma_push_contains(next_complete@, rule_idx);
                assert(active@.contains(rule_idx));
            }
            let ghost na = next_active@;
            if res.is_match() {
                next_active.push(rule_idx);
                if res.is_complete_match() {
                    next_complete.push(rule_idx);
                }
            }
            proof {
                assert(res.matches() ==> next_active@ == na.push(rule_idx));
                assert(!res.matches() ==> next_active@ == na);
                assert forall|b: int|
                    0 <= b < idx + 1 && verdict_at(g[#[trigger] active@[b] as int], src, start, k).matches()
                    implies next_active@.contains(active@[b]) by {
                    if b < idx {
                        assert(na.contains(active@[b]));
                    } else {
                        assert(active@[b] == rule_idx);
                        assert(res.matches());
                        assert(na.push(rule_idx).contains(rule_idx));
                    }
                }
            }
            idx += 1;
        }
        proof {
            assert(self.grammar() =~= g);
            assert forall|i: int| 0 <= i < n implies (next_active@.contains(i as usize)
                <==> active@.contains(i as usize) && verdict_at(#[trigger] g[i], src, start, k).matches()) by {
                if active@.contains(i as usize) && verdict_at(g[i], src, start, k).matches() {
                    let b = choose|b: int| 0 <= b < active@.len() && active@[b] == i as usize;
                    assert(next_active@.contains(active@[b]));
                }
                if next_active@.contains(i as usize) {
                    let a = choose|a: int| 0 <= a < next_active@.len() && next_active@[a] == i as usize;
                    assert(active@.contains(next_active@[a]));
                }
            }
            assert forall|i: int| 0 <= i < n implies (next_complete@.contains(i as usize)
                <==> active@.contains(i as usize) && verdict_at(#[trigger] g[i], src, start, k)
                == MatchResult::CompleteMatch) by {
                if active@.contains(i as usize) && verdict_at(g[i], src, start, k)
                    == MatchResult::CompleteMatch {
                    let b = choose|b: int| 0 <= b < active@.len() && active@[b] == i as usize;
                    assert(next_complete@.contains(active@[b]));
                }
                if next_complete@.contains(i as usize) {
                    let a = choose|a: int|
                        0 <= a < next_complete@.len() && next_complete@[a] == i as usize;
                    assert(active@.contains(next_complete@[a]));
                }
            }
        }
        (next_active, next_complete)
    }

    /// The next token of the text, or the lexeme that gave none.
    ///
    /// White space is passed over first. The characters after it are read and
    /// fed to the rules until one rule or none is left: see `scan`.
    pub fn next_token(&mut self) -> (result: Result<TokenOut, LexerError>)
        requires
            old(self).wf(),
        ensures
            final(self).wf(),
            final(self).source() == old(self).source(),
            match result {
                Ok(out) => out.location.index == skip_blank(
                    old(self).source(),
                    old(self).position(),
                ) && out.location.index + out.location.length == final(self).position(),
                Err(err) => err.location.index == skip_blank(
                    old(self).source(),
                    old(self).position(),
                ) && err.location.index + err.location.length == final(self).position(),
            },
            final(self).grammar() == old(self).grammar(),
            final(self).position() == scan(
                old(self).grammar(),
                old(self).source(),
                old(self).position(),
            ).end,
            old(self).position() <= skip_blank(old(self).source(), old(self).position()) <= final(self).position() <= old(self).source().len(),
            final(self).line() == old(self).line() + newlines(
                old(self).source(),
                old(self).position(),
                final(self).position(),
            ),
            match result {
                Ok(out) => {
                    &&& scan(old(self).grammar(), old(self).source(), old(self).position()).outcome
                        == Ok::<Token, Fault>(out.token)
                    &&& out.location == span_between(
                        skip_blank(old(self).source(), old(self).position()),
                        final(self).position(),
                    )
                    &&& out.lineno == final(self).line()
                },
                Err(err) => {
                    &&& scan(
                        old(self).grammar(),
                        old(self).source(),
                        old(self).position(),
                    ).outcome is Err
                    &&& err.message@ == scan(
                        old(self).grammar(),
                        old(self).source(),
                        old(self).position(),
                    ).outcome->Err_0.message()
                    &&& err.location == span_between(
                        skip_blank(old(self).source(), old(self).position()),
                        final(self).position(),
                    )
                    &&& err.lineno == final(self).line()
                },
            },
    {
        let ghost src = self.source();
        let ghost from = self.position();
        let ghost g = self.grammar();
        self.skip_whitespace();
        let token_start = self.current;
        let ghost start = token_start as int;
        proof {
            lemma_skip_blank(src, from);
        }
        self.reset_rules();
        let mut next = match self.peek() {
            Some(ch) => ch,
            None => {
                return Ok(self.token_data(token_start, Token::EOF));
            },
        };
        let count = self.rules.len();
        let mut complete: Vec<usize> = Vec::new();
        let mut active: Vec<usize> = Vec::new();
        let mut i: usize = 0;
        while i < count
            invariant
                i <= count,
                active@.len() == i,
                forall|a: int| 0 <= a < i ==> (#[trigger] active@[a]) == a,
            decreases count - i,
        {
            active.push(i);
            i += 1;
        }
        let ghost mut k: int = 1;
        proof {
            assert forall|i: int| 0 <= i < g.len() implies (alive(#[trigger] g[i], src, start, 0)
                <==> active@.contains(i as usize)) by {
                assert(active@[i] == i as usize);
            }
            assert(src.subrange(start, start) =~= Seq::<char>::empty());
        }
        loop
            invariant
                self.wf(),
                src == old(self).source(),
                g == old(self).grammar(),
                from == old(self).position(),
                self.source() == src,
                self.grammar() == g,
                self.rules@.len() == count,
                g.len() == count,
                0 <= from <= start,
                start == token_start,
                start == skip_blank(src, from),
                k >= 1,
                start + k - 1 == self.position(),
                start + k <= src.len(),
                next == src[start + k - 1],
                lists_alive(active@, g, src, start, k - 1),
                lists_complete(complete@, g, src, start, k - 1),
                forall|a: int|
                    0 <= a < active@.len() ==> self.rule_fed(
                        #[trigger] active@[a] as int,
                        start,
                        k - 1,
                    ),
                scan(g, src, from) == scan_rounds(g, src, start, k),
                self.line() == old(self).line() + newlines(src, from, self.position()),
            decreases src.len() - self.position(),
        {
            let prev = self.last();
            let (next_active, next_complete) = self.feed_round(
                &active,
                prev,
                next,
                Ghost(start),
                Ghost(k),
            );
            proof {
                assert forall|i: int| 0 <= i < g.len() implies (alive(
                    #[trigger] g[i],
                    src,
                    start,
                    k,
                ) <==> next_active@.contains(i as usize)) by {
                    lemma_alive_step(g[i], src, start, k);
                }
                assert forall|i: int| 0 <= i < g.len() implies (complete_at(
                    #[trigger] g[i],
                    src,
                    start,
                    k,
                ) <==> next_complete@.contains(i as usize)) by {
                    lemma_alive_step(g[i], src, start, k);
                }
                assert forall|a: int| 0 <= a < next_active@.len() implies self.rule_fed(
                    #[trigger] next_active@[a] as int,
                    start,
                    k,
                ) by {
                    let i = next_active@[a];
                    assert(next_active@.contains(i));
                    assert(verdict_at(g[i as int], src, start, k).matches());
                    let b = choose|b: int| 0 <= b < active@.len() && active@[b] == i;
                    assert(active@[b] == i);
                }
            }
            if next_active.len() == 0 {
                proof {
                    assert(none_alive(g, src, start, k)) by {
                        assert forall|i: int| 0 <= i < g.len() implies !alive(
                            #[trigger] g[i],
                            src,
                            start,
                            k,
                        ) by {
                            if next_active@.contains(i as usize) {
                                let a = choose|a: int|
                                    0 <= a < next_active@.len() && next_active@[a] == i as usize;
                            }
                        }
                    }
                    // every rule refused the character, so each holds what it held
                    assert forall|a: int| 0 <= a < complete@.len() implies self.rule_fed(
                        #[trigger] complete@[a] as int,
                        start,
                        k - 1,
                    ) by {
                        let c = complete@[a];
                        assert(complete@.contains(c));
                        assert(alive(g[c as int], src, start, k - 1));
                        assert(active@.contains(c));
                        let b = choose|b: int| 0 <= b < active@.len() && active@[b] == c;
                        assert(active@[b] == c);
                        if next_active@.contains(c) {
                            let n = choose|n: int| 0 <= n < next_active@.len() && next_active@[n] == c;
                        }
                    }
                }
                if self.current == token_start {
                    // a first character that no rule takes is passed over
                    let ghost before = self.position();
                    self.advance();
                    proof {
                        lemma_newlines_split(src, from, before, self.position());
                    }
                }
                return self.decide(token_start, &complete, Ghost(k - 1));
            }
            let ghost before = self.position();
            self.advance();
            proof {
                lemma_newlines_split(src, from, before, self.position());
            }
            if next_active.len() == 1 {
                let match_idx = next_active[0];
                proof {
                    let c = match_idx as int;
                    assert(next_active@.contains(next_active@[0]));
                    assert(sole_alive(g, src, start, k, c)) by {
                        assert forall|j: int|
                            0 <= j < g.len() && alive(#[trigger] g[j], src, start, k) implies j
                            == c by {
                            assert(next_active@.contains(j as usize));
                            let a = choose|a: int|
                                0 <= a < next_active@.len() && next_active@[a] == j as usize;
                        }
                    }
                    assert(!none_alive(g, src, start, k));
                    let chosen = choose|i: int| sole_alive(g, src, start, k, i);
                    assert(chosen == c);
                    assert(self.rule_fed(next_active@[0] as int, start, k));
                }
                return self.exhaust_rule(token_start, match_idx, Ghost(k), Ghost(from));
            }
            proof {
                let c0 = next_active@[0] as int;
                let c1 = next_active@[1] as int;
                assert(next_active@.contains(next_active@[0]));
                assert(next_active@.contains(next_active@[1]));
                assert(alive(g[c0], src, start, k));
                assert(alive(g[c1], src, start, k));
                assert(c0 != c1);
                assert(!none_alive(g, src, start, k));
                assert forall|i: int| !(#[trigger] sole_alive(g, src, start, k, i)) by {
                    if sole_alive(g, src, start, k, i) {
                        assert(c0 == i);
                        assert(c1 == i);
                    }
                }
            }
            next = match self.peek() {
                Some(ch) => ch,
                None => {
                    // the text ends with the lexeme
                    proof {
                        assert forall|a: int| 0 <= a < next_complete@.len() implies self.rule_fed(
                            #[trigger] next_complete@[a] as int,
                            start,
                            k,
                        ) by {
                            let c = next_complete@[a];
                            assert(next_complete@.contains(c));
                            assert(alive(g[c as int], src, start, k));
                            assert(next_active@.contains(c));
                            let n = choose|n: int| 0 <= n < next_active@.len() && next_active@[n] == c;
                            assert(next_active@[n] == c);
                        }
                    }
                    return self.decide(token_start, &next_complete, Ghost(k));
                },
            };
            proof {
                k = k + 1;
            }
            active = next_active;
            complete = next_complete;
        }
    }

    /// Ends a lexeme of `k` characters on which no rule goes on: the one
    /// rule of `complete` gives its token; none, or more than one, are an
    /// error.
    fn decide(&self, token_start: usize, complete: &Vec<usize>, Ghost(k): Ghost<int>) -> (result:
        Result<TokenOut, LexerError>)
        requires
            self.wf(),
            k >= 0,
            token_start <= self.position(),
            token_start + k <= self.source().len(),
            lists_complete(complete@, self.grammar(), self.source(), token_start as int, k),
            self.grammar().len() == self.rules@.len(),
            forall|a: int|
                0 <= a < complete@.len() ==> self.rule_fed(
                    #[trigger] complete@[a] as int,
                    token_start as int,
                    k,
                ),
        ensures
            match result {
                Ok(out) => {
                    &&& decide(self.grammar(), self.source(), token_start as int, k) == Ok::<Token, Fault>(out.token)
                    &&& out.location == span_between(token_start as int, self.position())
                    &&& out.lineno == self.line()
                },
                Err(err) => {
                    &&& decide(self.grammar(), self.source(), token_start as int, k) is Err
                    &&& err.message@ == decide(
                        self.grammar(),
                        self.source(),
                        token_start as int,
                        k,
                    )->Err_0.message()
                    &&& err.location == span_between(token_start as int, self.position())
                    &&& err.lineno == self.line()
                },
            },
    {
        let ghost g = self.grammar();
        let ghost src = self.source();
        let ghost start = token_start as int;
        let count = self.rules.len();
        assert(g.len() == count);
        if complete.len() == 0 {
            proof {
                assert(none_complete(g, src, start, k)) by {
                    assert forall|i: int| 0 <= i < g.len() implies !complete_at(
                        #[trigger] g[i],
                        src,
                        start,
                        k,
                    ) by {
                        if complete@.contains(i as usize) {
                            let a = choose|a: int|
                                0 <= a < complete@.len() && complete@[a] == i as usize;
                        }
                    }
                }
            }
            return Err(self.error(token_start, "could not parse symbol"));
        }
        if complete.len() > 1 {
            proof {
                let c0 = complete@[0] as int;
                let c1 = complete@[1] as int;
                assert(complete@.contains(complete@[0]));
                assert(complete@.contains(complete@[1]));
                assert(complete_at(g[c0], src, start, k));
                assert(complete_at(g[c1], src, start, k));
                assert(c0 != c1);
                assert(!none_complete(g, src, start, k));
                assert forall|i: int| !(#[trigger] sole_complete(g, src, start, k, i)) by {
                    if sole_complete(g, src, start, k, i) {
                        assert(c0 == i);
                        assert(c1 == i);
                    }
                }
            }
            return Err(self.error(token_start, "ambiguous symbol"));
        }
        let match_idx = complete[0];
        proof {
            let c = match_idx as int;
            assert(complete@.contains(complete@[0]));
            assert(complete_at(g[c], src, start, k));
            assert(!none_complete(g, src, start, k));
            assert(sole_complete(g, src, start, k, c)) by {
                assert forall|j: int|
                    0 <= j < g.len() && complete_at(#[trigger] g[j], src, start, k) implies j
                    == c by {
                    assert(complete@.contains(j as usize));
                    let a = choose|a: int| 0 <= a < complete@.len() && complete@[a] == j as usize;
                }
            }
            let chosen = choose|i: int| sole_complete(g, src, start, k, i);
            assert(chosen == c);
            assert(self.rule_fed(complete@[0] as int, start, k));
            assert(g[c] == self.rules@[c].definition());
            assert(k >= 1);
            assert(verdict_at(g[c], src, start, k) == MatchResult::CompleteMatch);
            assert(self.rules@[c].fed().len() == k);
        }
        let matching_rule = &self.rules[match_idx];
        match matching_rule.get_token() {
            Some(token) => Ok(self.token_data(token_start, token)),
            None => unreached(),
        }
    }

    /// Runs the one rule that is left after `k` characters: it is offered the
    /// characters that follow until it refuses one or the text ends. Its
    /// token is handed out if it ends on a complete match.
    fn exhaust_rule(
        &mut self,
        token_start: usize,
        rule_idx: usize,
        Ghost(k): Ghost<int>,
        Ghost(from): Ghost<int>,
    ) -> (result: Result<TokenOut, LexerError>)
        requires
            old(self).wf(),
            rule_idx < old(self).rules@.len(),
            k >= 1,
            0 <= from <= token_start,
            token_start + k == old(self).position(),
            old(self).rule_fed(rule_idx as int, token_start as int, k),
        ensures
            final(self).wf(),
            final(self).source() == old(self).source(),
            final(self).grammar() == old(self).grammar(),
            final(self).position() == exhaust(
                old(self).grammar()[rule_idx as int],
                old(self).source(),
                token_start as int,
                k,
            ).end,
            old(self).position() <= final(self).position() <= old(self).source().len(),
            final(self).line() - newlines(old(self).source(), from, final(self).position()) == old(self).line() - newlines(old(self).source(), from, old(self).position()),
            match result {
                Ok(out) => {
                    &&& exhaust(
                        old(self).grammar()[rule_idx as int],
                        old(self).source(),
                        token_start as int,
                        k,
                    ).outcome == Ok::<Token, Fault>(out.token)
                    &&& out.location == span_between(token_start as int, final(self).position())
                    &&& out.lineno == final(self).line()
                },
                Err(err) => {
                    &&& exhaust(
                        old(self).grammar()[rule_idx as int],
                        old(self).source(),
                        token_start as int,
                        k,
                    ).outcome is Err
                    &&& err.message@ == exhaust(
                        old(self).grammar()[rule_idx as int],
                        old(self).source(),
                        token_start as int,
                        k,
                    ).outcome->Err_0.message()
                    &&& err.location == span_between(token_start as int, final(self).position())
                    &&& err.lineno == final(self).line()
                },
            },
    {
        let ghost src = self.source();
        let ghost g = self.grammar();
        let ghost rule = g[rule_idx as int];
        let ghost start = token_start as int;
        let ghost mut m: int = k;
        let count = self.rules.len();
        loop
            invariant
                self.wf(),
                src == old(self).source(),
                g == old(self).grammar(),
                self.source() == src,
                self.rules@.len() == count,
                rule_idx < count,
                g.len() == count,
                forall|j: int| 0 <= j < count ==> (#[trigger] self.rules@[j]).definition() == g[j],
                rule == g[rule_idx as int],
                k <= m,
                k >= 1,
                0 <= from <= start,
                start == token_start,
                start + m == self.position(),
                start + m <= src.len(),
                self.rule_fed(rule_idx as int, start, m),
                exhaust_len(rule, src, start, m) == exhaust_len(rule, src, start, k),
                self.line() - newlines(src, from, self.position()) == old(self).line() - newlines(
                    src,
                    from,
                    old(self).position(),
                ),
            ensures
                self.wf(),
                src == old(self).source(),
                g == old(self).grammar(),
                self.source() == src,
                self.rules@.len() == count,
                forall|j: int| 0 <= j < count ==> (#[trigger] self.rules@[j]).definition() == g[j],
                start + m == self.position(),
                start + m <= src.len(),
                k <= m,
                self.rule_fed(rule_idx as int, start, m),
                m == exhaust_len(rule, src, start, k),
                self.line() - newlines(src, from, self.position()) == old(self).line() - newlines(
                    src,
                    from,
                    old(self).position(),
                ),
            decreases src.len() - self.position(),
        {
            let next = match self.peek() {
                Some(ch) => ch,
                None => break ,
            };
            let prev = self.last();
            let ghost before = self.rules@;
            let rule_state = &mut self.rules[rule_idx];
            let match_result = rule_state.try_match(prev, next);
            proof {
                assert(before[rule_idx as int].fed().push(next) =~= src.subrange(
                    start,
                    start + m + 1,
                ));
                assert(match_result == verdict_at(rule, src, start, m + 1));
            }
            if match_result.is_no_match() {
                break ;
            }
            let ghost before_pos = self.position();
            self.advance();
            proof {
                lemma_newlines_split(src, from, before_pos, self.position());
                m = m + 1;
            }
        }
        assert(self.grammar() =~= g);
        let rule_state = &self.rules[rule_idx];
        match rule_state.get_token() {
            Some(token) => Ok(self.token_data(token_start, token)),
            None => Err(self.error(token_start, "could not parse symbol")),
        }
    }

    fn token_data(&self, token_start: usize, token: Token) -> (out: TokenOut)
        ensures
            out.token == token,
            out.location.index == token_start,
            out.location.length == if self.position() > token_start {
                self.position() - token_start
            } else {
                0
            },
            out.lineno == self.line(),
    {
        TokenOut { token, location: self.current_span(token_start), lineno: self.lineno }
    }

    fn error(&self, token_start: usize, message: &str) -> (err: LexerError)
        ensures
            err.message@ == message@,
            err.location.index == token_start,
            err.location.length == if self.position() > token_start {
                self.position() - token_start
            } else {
                0
            },
            err.lineno == self.line(),
    {
        LexerError {
            message: String::from_str(message),
            location: self.current_span(token_start),
            lineno: self.lineno,
        }
    }
}

} // verus!
