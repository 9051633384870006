//! Laws of the lexer: the longest match wins, and what is scanned in a
//! piece of a text is what is scanned there in the whole text.

use vstd::prelude::*;
use crate::lexer::lexer::{
    alive, char_before, complete_at, decide, exhaust, exhaust_len, lemma_alive_step, lemma_exhaust_len,
    lemma_position_after, lemma_scan_rounds_end, lemma_scan_step, lemma_skip_blank, none_alive,
    none_complete, position_after, scan, scan_rounds, skip_blank, sole_alive, sole_complete,
    span_between, verdict_at, Fault, LexerError, Scan, Span, TokenOut,
};
use crate::lexer::rules::{whitespace, RuleSpec};
use crate::lexer::token::Token;
use crate::lexer::tokenizer::{finished, token_text, tokenized, yields};
use crate::runtime::strings::distinct;

verus! {

/// Whether the rules give the lexeme at `a` the verdicts that they give it
/// at the start of a text, on each of its first `n` lengths.
pub open spec fn blind_at(rules: Seq<RuleSpec>, src: Seq<char>, a: int, n: int) -> bool {
    forall|i: int, k: int|
        0 <= i < rules.len() && 1 <= k <= n ==> #[trigger] verdict_at(rules[i], src, a, k) == (
        rules[i].verdict)(None, src.subrange(a, a + k))
}

/// Whether a lexeme that starts at `start` can be scanned in the piece of
/// `src` from `a` up to `b` as in `src`: the piece lies in the text, the
/// lexeme starts in it, and where it starts the piece, the rules do not heed
/// what stands before it.
pub open spec fn scans_alike(rules: Seq<RuleSpec>, src: Seq<char>, a: int, b: int, start: int) -> bool {
    &&& 0 <= a <= start <= b <= src.len()
    &&& (start > a || blind_at(rules, src, a, b - a))
}

/// A scan in a text, seen from the piece of the text that starts at `a`.
pub open spec fn scan_from(found: Scan, a: int) -> Scan {
    Scan { end: found.end - a, outcome: found.outcome }
}

/// The verdict on a lexeme inside a piece of the text is the verdict on it
/// in the text.
pub proof fn lemma_verdict_is_local(
    rules: Seq<RuleSpec>,
    i: int,
    src: Seq<char>,
    a: int,
    b: int,
    start: int,
    k: int,
)
    requires
        scans_alike(rules, src, a, b, start),
        0 <= i < rules.len(),
        1 <= k,
        start + k <= b,
    ensures
        verdict_at(rules[i], src.subrange(a, b), start - a, k) == verdict_at(rules[i], src, start, k),
{
    let sub = src.subrange(a, b);
    assert(sub.subrange(start - a, start - a + k) =~= src.subrange(start, start + k));
    if start > a {
        assert(char_before(sub, start - a) == Some(src[start - 1]));
    } else {
        assert(verdict_at(rules[i], src, a, k) == (rules[i].verdict)(None, src.subrange(a, a + k)));
    }
}

/// A rule is in contention inside a piece of the text as it is in the text.
pub proof fn lemma_alive_is_local(
    rules: Seq<RuleSpec>,
    i: int,
    src: Seq<char>,
    a: int,
    b: int,
    start: int,
    k: int,
)
    requires
        scans_alike(rules, src, a, b, start),
        0 <= i < rules.len(),
        0 <= k,
        start + k <= b,
    ensures
        alive(rules[i], src.subrange(a, b), start - a, k) == alive(rules[i], src, start, k),
        complete_at(rules[i], src.subrange(a, b), start - a, k) == complete_at(rules[i], src, start, k),
{
    let sub = src.subrange(a, b);
    assert forall|j: int| 1 <= j <= k implies #[trigger] verdict_at(rules[i], sub, start - a, j)
        == verdict_at(rules[i], src, start, j) by {
        lemma_verdict_is_local(rules, i, src, a, b, start, j);
    }
    if alive(rules[i], src, start, k) {
        assert forall|j: int| 1 <= j <= k implies (#[trigger] verdict_at(
            rules[i],
            sub,
            start - a,
            j,
        )).matches() by {
            assert(verdict_at(rules[i], src, start, j).matches());
        }
    }
    if alive(rules[i], sub, start - a, k) {
        assert forall|j: int| 1 <= j <= k implies (#[trigger] verdict_at(rules[i], src, start, j)).matches() by {
            assert(verdict_at(rules[i], sub, start - a, j).matches());
        }
    }
}

/// The rules in contention, and those with a complete match, are the same
/// inside a piece of the text as in the text.
pub proof fn lemma_contention_is_local(rules: Seq<RuleSpec>, src: Seq<char>, a: int, b: int, start: int, k: int)
    requires
        scans_alike(rules, src, a, b, start),
        0 <= k,
        start + k <= b,
    ensures
        none_alive(rules, src.subrange(a, b), start - a, k) == none_alive(rules, src, start, k),
        forall|i: int|
            sole_alive(rules, src.subrange(a, b), start - a, k, i) == sole_alive(rules, src, start, k, i),
        none_complete(rules, src.subrange(a, b), start - a, k) == none_complete(rules, src, start, k),
        forall|i: int|
            sole_complete(rules, src.subrange(a, b), start - a, k, i) == sole_complete(
                rules,
                src,
                start,
                k,
                i,
            ),
        decide(rules, src.subrange(a, b), start - a, k) == decide(rules, src, start, k),
{
    let sub = src.subrange(a, b);
    assert forall|i: int| 0 <= i < rules.len() implies alive(#[trigger] rules[i], sub, start - a, k)
        == alive(rules[i], src, start, k) && complete_at(rules[i], sub, start - a, k) == complete_at(
        rules[i],
        src,
        start,
        k,
    ) by {
        lemma_alive_is_local(rules, i, src, a, b, start, k);
    }
    let at = start - a;
    assert(sub.subrange(at, at + k) =~= src.subrange(start, start + k));
    assert forall|i: int| sole_alive(rules, sub, at, k, i) == sole_alive(rules, src, start, k, i) by {
        if sole_alive(rules, src, start, k, i) {
            assert forall|j: int| 0 <= j < rules.len() && alive(#[trigger] rules[j], sub, at, k) implies j
                == i by {
                assert(alive(rules[j], src, start, k));
            }
        }
        if sole_alive(rules, sub, at, k, i) {
            assert forall|j: int| 0 <= j < rules.len() && alive(#[trigger] rules[j], src, start, k) implies j
                == i by {
                assert(alive(rules[j], sub, at, k));
            }
        }
    }
    assert forall|i: int| sole_complete(rules, sub, at, k, i) == sole_complete(rules, src, start, k, i) by {
        if sole_complete(rules, src, start, k, i) {
            assert forall|j: int|
                0 <= j < rules.len() && complete_at(#[trigger] rules[j], sub, at, k) implies j == i by {
                assert(complete_at(rules[j], src, start, k));
            }
        }
        if sole_complete(rules, sub, at, k, i) {
            assert forall|j: int|
                0 <= j < rules.len() && complete_at(#[trigger] rules[j], src, start, k) implies j == i by {
                assert(complete_at(rules[j], sub, at, k));
            }
        }
    }
    if none_complete(rules, src, start, k) {
        assert(none_complete(rules, sub, at, k));
    } else {
        let w = choose|w: int| 0 <= w < rules.len() && complete_at(#[trigger] rules[w], src, start, k);
        assert(complete_at(rules[w], sub, at, k));
        assert(!none_complete(rules, sub, at, k));
    }
    if none_alive(rules, src, start, k) {
        assert(none_alive(rules, sub, at, k));
    } else {
        let w = choose|w: int| 0 <= w < rules.len() && alive(#[trigger] rules[w], src, start, k);
        assert(alive(rules[w], sub, at, k));
        assert(!none_alive(rules, sub, at, k));
    }
    if exists|i: int| sole_complete(rules, src, start, k, i) {
        let i = choose|i: int| sole_complete(rules, src, start, k, i);
        assert(sole_complete(rules, sub, at, k, i));
        let j = choose|j: int| sole_complete(rules, sub, at, k, j);
        assert(i == j);
    } else {
        assert(!exists|j: int| sole_complete(rules, sub, at, k, j));
    }
    assert(decide(rules, sub, at, k) == decide(rules, src, start, k));
}

/// A rule that is left alone takes the same characters inside a piece of
/// the text as in the text, if it takes none behind the piece.
pub proof fn lemma_exhaust_is_local(
    rules: Seq<RuleSpec>,
    i: int,
    src: Seq<char>,
    a: int,
    b: int,
    start: int,
    k: int,
)
    requires
        scans_alike(rules, src, a, b, start),
        0 <= i < rules.len(),
        1 <= k,
        start + k <= b,
        start + exhaust_len(rules[i], src, start, k) <= b,
    ensures
        exhaust_len(rules[i], src.subrange(a, b), start - a, k) == exhaust_len(rules[i], src, start, k),
        exhaust(rules[i], src.subrange(a, b), start - a, k) == scan_from(
            exhaust(rules[i], src, start, k),
            a,
        ),
    decreases src.len() - (start + k),
{
    let sub = src.subrange(a, b);
    let m = exhaust_len(rules[i], src, start, k);
    lemma_exhaust_len(rules[i], src, start, k);
    if start + k < src.len() && verdict_at(rules[i], src, start, k + 1).matches() {
        lemma_exhaust_len(rules[i], src, start, k + 1);
        lemma_verdict_is_local(rules, i, src, a, b, start, k + 1);
        lemma_exhaust_is_local(rules, i, src, a, b, start, k + 1);
    } else if start + k < b {
        lemma_verdict_is_local(rules, i, src, a, b, start, k + 1);
    }
    lemma_verdict_is_local(rules, i, src, a, b, start, m);
    assert(sub.subrange(start - a, start - a + m) =~= src.subrange(start, start + m));
}

/// The rounds of a scan give the same lexeme inside a piece of the text as
/// in the text, if the lexeme ends in the piece.
pub proof fn lemma_scan_rounds_are_local(
    rules: Seq<RuleSpec>,
    src: Seq<char>,
    a: int,
    b: int,
    start: int,
    k: int,
)
    requires
        scans_alike(rules, src, a, b, start),
        1 <= k,
        start + k <= b,
        scan_rounds(rules, src, start, k).end <= b,
    ensures
        scan_rounds(rules, src.subrange(a, b), start - a, k) == scan_from(
            scan_rounds(rules, src, start, k),
            a,
        ),
    decreases src.len() - (start + k),
{
    let sub = src.subrange(a, b);
    let at = start - a;
    let found = scan_rounds(rules, src, start, k);
    lemma_contention_is_local(rules, src, a, b, start, k);
    lemma_contention_is_local(rules, src, a, b, start, k - 1);
    if none_alive(rules, src, start, k) {
        assert(scan_rounds(rules, sub, at, k) == scan_from(found, a));
    } else if exists|i: int| sole_alive(rules, src, start, k, i) {
        let i = choose|i: int| sole_alive(rules, src, start, k, i);
        assert(sole_alive(rules, sub, at, k, i));
        let j = choose|j: int| sole_alive(rules, sub, at, k, j);
        assert(i == j);
        lemma_exhaust_is_local(rules, i, src, a, b, start, k);
        assert(scan_rounds(rules, sub, at, k) == exhaust(rules[i], sub, at, k));
        assert(scan_rounds(rules, sub, at, k) == scan_from(found, a));
    } else {
        assert forall|j: int| !sole_alive(rules, sub, at, k, j) by {
            assert(!sole_alive(rules, src, start, k, j));
        }
        if start + k >= src.len() {
            assert(scan_rounds(rules, sub, at, k) == scan_from(found, a));
        } else {
            lemma_scan_rounds_end(rules, src, start, k + 1);
            if start + k < b {
                lemma_scan_rounds_are_local(rules, src, a, b, start, k + 1);
                assert(scan_rounds(rules, sub, at, k) == scan_from(found, a));
            } else {
                // the lexeme ends with the piece: the next character ended it
                let more = k + 1;
                if none_alive(rules, src, start, more) {
                } else if exists|i: int| sole_alive(rules, src, start, more, i) {
                    let i = choose|i: int| sole_alive(rules, src, start, more, i);
                    lemma_exhaust_len(rules[i], src, start, more);
                } else if start + more >= src.len() {
                } else {
                    lemma_scan_rounds_end(rules, src, start, more + 1);
                }
                assert(found == Scan { end: start + k, outcome: decide(rules, src, start, k) });
                assert(scan_rounds(rules, sub, at, k) == scan_from(found, a));
            }
        }
    }
}

/// White space is passed over inside a piece of the text as in the text,
/// up to the end of the piece.
pub proof fn lemma_skip_blank_is_local(src: Seq<char>, a: int, b: int, from: int)
    requires
        0 <= a <= from <= b <= src.len(),
    ensures
        skip_blank(src.subrange(a, b), from - a) == (if skip_blank(src, from) <= b {
            skip_blank(src, from)
        } else {
            b
        }) - a,
    decreases b - from,
{
    lemma_skip_blank(src, from);
    if from < b {
        if whitespace(src[from]) {
            lemma_skip_blank(src, from + 1);
            lemma_skip_blank_is_local(src, a, b, from + 1);
        }
    }
}

/// What is scanned in a piece of a text is what is scanned there in the
/// whole text: the same lexeme with the same token or fault, if the lexeme
/// lies in the piece.
pub proof fn lemma_scan_is_local(rules: Seq<RuleSpec>, src: Seq<char>, a: int, b: int, from: int)
    requires
        0 <= a <= from <= b <= src.len(),
        skip_blank(src, from) < b,
        scan(rules, src, from).end <= b,
        scans_alike(rules, src, a, b, skip_blank(src, from)),
    ensures
        skip_blank(src.subrange(a, b), from - a) == skip_blank(src, from) - a,
        scan(rules, src.subrange(a, b), from - a) == scan_from(scan(rules, src, from), a),
{
    lemma_skip_blank(src, from);
    lemma_skip_blank_is_local(src, a, b, from);
    lemma_scan_rounds_are_local(rules, src, a, b, skip_blank(src, from), 1);
}

/// The token of an item of a tokenized text, if it is one.
pub open spec fn token_of(item: Result<TokenOut, LexerError>) -> Option<Token> {
    match item {
        Ok(out) => Some(out.token),
        Err(_) => None,
    }
}

/// Whether `item` is the token of the end of the text.
pub open spec fn is_end(item: Result<TokenOut, LexerError>) -> bool {
    token_of(item) == Some(Token::EOF)
}

/// Whether the strings `all` start with the strings `part`.
pub open spec fn begins_with(all: Seq<Seq<char>>, part: Seq<Seq<char>>) -> bool {
    part.len() <= all.len() && all.take(part.len() as int) == part
}

/// The first item of a tokenized text is what the first scan yields, and
/// the items behind it are those of the text behind its lexeme. What comes
/// back is the strings interned between the two.
pub proof fn lemma_tokenized_first(
    rules: Seq<RuleSpec>,
    src: Seq<char>,
    from: int,
    before: Seq<Seq<char>>,
    items: Seq<Result<TokenOut, LexerError>>,
    after: Seq<Seq<char>>,
) -> (between: Seq<Seq<char>>)
    requires
        tokenized(rules, src, from, before, items, after),
    ensures
        items.len() >= 1,
        yields(rules, src, from, before, items[0], between),
        begins_with(between, before),
        distinct(before) ==> distinct(between),
        if is_end(items[0]) {
            items.len() == 1 && after == between
        } else {
            tokenized(rules, src, scan(rules, src, from).end, between, items.skip(1), after)
        },
{
    let between = choose|between: Seq<Seq<char>>|
        {
            &&& #[trigger] yields(rules, src, from, before, items[0], between)
            &&& if items[0] matches Ok(out) && out.token == Token::EOF {
                items.len() == 1 && after == between
            } else {
                tokenized(rules, src, scan(rules, src, from).end, between, items.skip(1), after)
            }
        };
    if distinct(before) && between != before {
        let text = between.last();
        assert(between == before.push(text));
        assert(!before.contains(text));
        assert forall|i: int, j: int|
            0 <= i < between.len() && 0 <= j < between.len() && #[trigger] between[i]
                == #[trigger] between[j] implies i == j by {
            if i < before.len() && j < before.len() {
                assert(before[i] == before[j]);
            } else if i < before.len() {
                assert(before.contains(before[i]));
            } else if j < before.len() {
                assert(before.contains(before[j]));
            }
        }
    }
    between
}

/// Tokenizing adds strings behind those that were interned, and none
/// twice.
pub proof fn lemma_tokenized_grows(
    rules: Seq<RuleSpec>,
    src: Seq<char>,
    from: int,
    before: Seq<Seq<char>>,
    items: Seq<Result<TokenOut, LexerError>>,
    after: Seq<Seq<char>>,
)
    requires
        tokenized(rules, src, from, before, items, after),
    ensures
        begins_with(after, before),
        distinct(before) ==> distinct(after),
        is_end(items.last()),
        forall|j: int| 0 <= j < items.len() - 1 ==> !is_end(#[trigger] items[j]),
    decreases items.len(),
{
    let between = lemma_tokenized_first(rules, src, from, before, items, after);
    if !is_end(items[0]) {
        let rest = items.skip(1);
        lemma_tokenized_grows(rules, src, scan(rules, src, from).end, between, rest, after);
        assert(after.take(before.len() as int) =~= after.take(between.len() as int).take(
            before.len() as int,
        ));
        assert(items.last() == rest.last());
        assert forall|j: int| 0 <= j < items.len() - 1 implies !is_end(#[trigger] items[j]) by {
            if j > 0 {
                assert(items[j] == rest[j - 1]);
            }
        }
    } else {
        assert(after.take(before.len() as int) =~= before);
    }
}

/// The items of a tokenized text from the `n`-th on are those of the text
/// from where the lexer stands after `n` scans. What comes back is the
/// strings interned by then.
pub proof fn lemma_tokenized_suffix(
    rules: Seq<RuleSpec>,
    src: Seq<char>,
    from: int,
    before: Seq<Seq<char>>,
    items: Seq<Result<TokenOut, LexerError>>,
    after: Seq<Seq<char>>,
    n: nat,
) -> (between: Seq<Seq<char>>)
    requires
        tokenized(rules, src, from, before, items, after),
        n < items.len(),
    ensures
        tokenized(rules, src, position_after(rules, src, from, n), between, items.skip(n as int), after),
        begins_with(between, before),
        distinct(before) ==> distinct(between),
    decreases n,
{
    if n == 0 {
        assert(items.skip(0) =~= items);
        assert(before.take(before.len() as int) =~= before);
        before
    } else {
        let m = (n - 1) as nat;
        let mid = lemma_tokenized_suffix(rules, src, from, before, items, after, m);
        let at = position_after(rules, src, from, m);
        let rest = items.skip(m as int);
        let between = lemma_tokenized_first(rules, src, at, mid, rest, after);
        assert(rest.len() >= 2);
        assert(rest.skip(1) =~= items.skip(n as int));
        assert(between.take(before.len() as int) =~= between.take(mid.len() as int).take(
            before.len() as int,
        ));
        between
    }
}

/// After one scan the lexer stands where it stands after the others, seen
/// from there.
pub proof fn lemma_position_shift(rules: Seq<RuleSpec>, src: Seq<char>, from: int, n: nat)
    requires
        n >= 1,
    ensures
        position_after(rules, src, from, n) == position_after(
            rules,
            src,
            scan(rules, src, from).end,
            (n - 1) as nat,
        ),
    decreases n,
{
    let m = (n - 1) as nat;
    let next = scan(rules, src, from).end;
    assert(position_after(rules, src, from, n) == scan(rules, src, position_after(rules, src, from, m)).end);
    if n > 1 {
        lemma_position_shift(rules, src, from, m);
        assert(position_after(rules, src, next, m) == scan(
            rules,
            src,
            position_after(rules, src, next, (m - 1) as nat),
        ).end);
    } else {
        assert(position_after(rules, src, from, 0) == from);
        assert(position_after(rules, src, next, 0) == next);
    }
}

/// Where an item of a tokenized text lies in the text.
pub open spec fn location_of(item: Result<TokenOut, LexerError>) -> Span {
    match item {
        Ok(out) => out.location,
        Err(error) => error.location,
    }
}

/// The span `span` of a text, seen from the piece of the text that starts
/// at `a`.
pub open spec fn span_from(span: Span, a: int) -> Span {
    Span { index: (span.index - a) as usize, length: span.length }
}

/// What a scan yields in a piece of a text is what it yields there in the
/// whole text, where the strings of the text are interned already: the
/// same token.
pub proof fn lemma_yields_is_local(
    rules: Seq<RuleSpec>,
    src: Seq<char>,
    a: int,
    b: int,
    from: int,
    before: Seq<Seq<char>>,
    item: Result<TokenOut, LexerError>,
    between: Seq<Seq<char>>,
    all: Seq<Seq<char>>,
    sub_item: Result<TokenOut, LexerError>,
    sub_after: Seq<Seq<char>>,
)
    requires
        0 <= a <= from <= b <= src.len(),
        skip_blank(src, from) < b,
        scan(rules, src, from).end <= b,
        scans_alike(rules, src, a, b, skip_blank(src, from)),
        yields(rules, src, from, before, item, between),
        begins_with(all, between),
        distinct(all),
        yields(rules, src.subrange(a, b), from - a, all, sub_item, sub_after),
    ensures
        sub_after == all,
        token_of(sub_item) == token_of(item),
        src.len() <= usize::MAX ==> location_of(sub_item) == span_from(location_of(item), a),
{
    let sub = src.subrange(a, b);
    let start = skip_blank(src, from);
    let found = scan(rules, src, from);
    lemma_scan_is_local(rules, src, a, b, from);
    lemma_scan_step(rules, src, from);
    let at = from - a;
    assert(skip_blank(sub, at) == start - a);
    assert(scan(rules, sub, at) == scan_from(found, a));
    let lexeme = src.subrange(start, found.end);
    assert(sub.subrange(start - a, found.end - a) =~= lexeme);
    match item {
        Ok(out) => {
            let template = found.outcome->Ok_0;
            let text = token_text(template, lexeme);
            assert(sub_item is Ok);
            let sub_out = sub_item->Ok_0;
            assert(finished(template, lexeme, all, sub_out.token));
            match template {
                Token::Identifier(_) => {
                    let symbol = out.token->Identifier_0;
                    let other = sub_out.token->Identifier_0;
                    assert(all[symbol.index() as int] == all.take(between.len() as int)[symbol.index() as int]);
                    assert(all.contains(text));
                    symbol.lemma_at();
                    other.lemma_at();
                },
                Token::StringLiteral(_) => {
                    let symbol = out.token->StringLiteral_0;
                    let other = sub_out.token->StringLiteral_0;
                    assert(all[symbol.index() as int] == all.take(between.len() as int)[symbol.index() as int]);
                    assert(all.contains(text));
                    symbol.lemma_at();
                    other.lemma_at();
                },
                _ => {},
            }
        },
        Err(_) => {
            assert(sub_item is Err);
        },
    }
}

/// The tokens of a piece of a text are the tokens of the lexemes of the
/// text that lie in it, then the end of the text: where the lexer stands at
/// `from`, at or behind the start `a` of the piece, and after `n` scans at
/// its end `b`, tokenizing the piece with all strings of the text interned
/// gives the tokens of those `n` lexemes, and interns nothing.
pub proof fn lemma_tokens_of_piece(
    rules: Seq<RuleSpec>,
    src: Seq<char>,
    a: int,
    b: int,
    from: int,
    before: Seq<Seq<char>>,
    items: Seq<Result<TokenOut, LexerError>>,
    after: Seq<Seq<char>>,
    all: Seq<Seq<char>>,
    n: nat,
    sub_items: Seq<Result<TokenOut, LexerError>>,
    sub_after: Seq<Seq<char>>,
)
    requires
        0 <= a <= from <= b <= src.len(),
        tokenized(rules, src, from, before, items, after),
        n < items.len(),
        position_after(rules, src, from, n) == b,
        skip_blank(src, from) > a || blind_at(rules, src, a, b - a),
        begins_with(all, after),
        distinct(all),
        tokenized(rules, src.subrange(a, b), from - a, all, sub_items, sub_after),
    ensures
        sub_items.len() == n + 1,
        sub_after == all,
        forall|j: int| 0 <= j < n ==> token_of(#[trigger] sub_items[j]) == token_of(items[j]),
        src.len() <= usize::MAX ==> forall|j: int|
            0 <= j < n ==> location_of(#[trigger] sub_items[j]) == span_from(location_of(items[j]), a),
        is_end(sub_items[n as int]),
    decreases n,
{
    let sub = src.subrange(a, b);
    let at = from - a;
    let between = lemma_tokenized_first(rules, src, from, before, items, after);
    let sub_between = lemma_tokenized_first(rules, sub, at, all, sub_items, sub_after);
    lemma_tokenized_grows(rules, src, from, before, items, after);
    if n == 0 {
        assert(skip_blank(sub, at) == at);
        assert(scan(rules, sub, at).outcome == Ok::<Token, Fault>(Token::EOF));
        assert(sub_items[0] is Ok);
        assert(is_end(sub_items[0]));
    } else {
        let m = (n - 1) as nat;
        let start = skip_blank(src, from);
        let next = scan(rules, src, from).end;
        let rest = items.skip(1);
        assert(!is_end(items[0]));
        lemma_scan_step(rules, src, from);
        if start >= src.len() {
            assert(scan(rules, src, from).outcome == Ok::<Token, Fault>(
                Token::EOF,
            ));
            assert(items[0] is Ok);
            assert(false);
        }
        lemma_position_shift(rules, src, from, n);
        lemma_position_after(rules, src, next, m);
        lemma_tokenized_grows(rules, src, next, between, rest, after);
        assert(all.take(between.len() as int) =~= all.take(after.len() as int).take(
            between.len() as int,
        ));
        lemma_yields_is_local(
            rules,
            src,
            a,
            b,
            from,
            before,
            items[0],
            between,
            all,
            sub_items[0],
            sub_between,
        );
        lemma_scan_is_local(rules, src, a, b, from);
        let sub_rest = sub_items.skip(1);
        lemma_skip_blank(src, next);
        lemma_tokens_of_piece(rules, src, a, b, next, between, rest, after, all, m, sub_rest, sub_after);
        assert forall|j: int| 0 <= j < n implies token_of(#[trigger] sub_items[j]) == token_of(
            items[j],
        ) && (src.len() <= usize::MAX ==> location_of(sub_items[j]) == span_from(
            location_of(items[j]),
            a,
        )) by {
            if j > 0 {
                assert(sub_items[j] == sub_rest[j - 1]);
                assert(items[j] == rest[j - 1]);
            }
        }
        assert(sub_items[n as int] == sub_rest[m as int]);
    }
}

/// Whether the rule gives a lexeme that starts with `first` behind `pre`
/// the verdicts that it gives it at the start of a text.
pub open spec fn blind_to(rule: RuleSpec, pre: Option<char>, first: char) -> bool {
    forall|text: Seq<char>|
        text.len() >= 1 && text[0] == first ==> #[trigger] (rule.verdict)(pre, text) == (
        rule.verdict)(None, text)
}

/// Whether each of the rules gives a lexeme that starts with `first`
/// behind `pre` the verdicts that it gives it at the start of a text.
pub open spec fn all_blind_to(rules: Seq<RuleSpec>, pre: Option<char>, first: char) -> bool {
    forall|i: int| 0 <= i < rules.len() ==> blind_to(#[trigger] rules[i], pre, first)
}

/// Rules that do not heed what stands before the first character of a
/// lexeme give the lexeme the verdicts that they give it at the start of a
/// text.
pub proof fn lemma_blind_at(rules: Seq<RuleSpec>, src: Seq<char>, a: int, n: int)
    requires
        0 <= a < src.len(),
        a + n <= src.len(),
        all_blind_to(rules, char_before(src, a), src[a]),
    ensures
        blind_at(rules, src, a, n),
{
    assert forall|i: int, k: int| 0 <= i < rules.len() && 1 <= k <= n implies #[trigger] verdict_at(
        rules[i],
        src,
        a,
        k,
    ) == (rules[i].verdict)(None, src.subrange(a, a + k)) by {
        assert(blind_to(rules[i], char_before(src, a), src[a]));
        assert(src.subrange(a, a + k)[0] == src[a]);
    }
}

/// The items of a tokenized text are those of the text from its first
/// lexeme on.
pub proof fn lemma_tokenized_from_start(
    rules: Seq<RuleSpec>,
    src: Seq<char>,
    from: int,
    before: Seq<Seq<char>>,
    items: Seq<Result<TokenOut, LexerError>>,
    after: Seq<Seq<char>>,
)
    requires
        0 <= from <= src.len(),
        tokenized(rules, src, from, before, items, after),
    ensures
        tokenized(rules, src, skip_blank(src, from), before, items, after),
{
    let start = skip_blank(src, from);
    let between = lemma_tokenized_first(rules, src, from, before, items, after);
    lemma_skip_blank(src, from);
    assert(skip_blank(src, start) == start);
    assert(scan(rules, src, start) == scan(rules, src, from));
    assert(yields(rules, src, start, before, items[0], between));
}

/// The `n`-th item of a tokenized text lies where the `n`-th scan found
/// its lexeme: from the first character behind the white space up to where
/// the lexer stands after the scan.
pub proof fn lemma_item_location(
    rules: Seq<RuleSpec>,
    src: Seq<char>,
    from: int,
    before: Seq<Seq<char>>,
    items: Seq<Result<TokenOut, LexerError>>,
    after: Seq<Seq<char>>,
    n: nat,
)
    requires
        tokenized(rules, src, from, before, items, after),
        n < items.len(),
    ensures
        location_of(items[n as int]) == span_between(
            skip_blank(src, position_after(rules, src, from, n)),
            position_after(rules, src, from, n + 1),
        ),
{
    let mid = lemma_tokenized_suffix(rules, src, from, before, items, after, n);
    let at = position_after(rules, src, from, n);
    let rest = items.skip(n as int);
    let between = lemma_tokenized_first(rules, src, at, mid, rest, after);
    assert(rest[0] == items[n as int]);
    assert(position_after(rules, src, from, n + 1) == scan(rules, src, at).end);
}

/// The lexer stands after `m + n` scans where it stands after `n` scans
/// from where it stood after `m`.
pub proof fn lemma_position_add(rules: Seq<RuleSpec>, src: Seq<char>, from: int, m: nat, n: nat)
    ensures
        position_after(rules, src, from, m + n) == position_after(
            rules,
            src,
            position_after(rules, src, from, m),
            n,
        ),
    decreases n,
{
    if n > 0 {
        let k = (n - 1) as nat;
        lemma_position_add(rules, src, from, m, k);
        assert(position_after(rules, src, from, m + n) == scan(
            rules,
            src,
            position_after(rules, src, from, (m + n - 1) as nat),
        ).end);
    }
}

/// The white space before a lexeme does not change where the lexer stands
/// after it.
pub proof fn lemma_position_from_start(rules: Seq<RuleSpec>, src: Seq<char>, from: int, n: nat)
    requires
        0 <= from <= src.len(),
        n >= 1,
    ensures
        position_after(rules, src, skip_blank(src, from), n) == position_after(rules, src, from, n),
{
    let start = skip_blank(src, from);
    lemma_skip_blank(src, from);
    assert(skip_blank(src, start) == start);
    assert(scan(rules, src, start) == scan(rules, src, from));
    lemma_position_shift(rules, src, from, n);
    lemma_position_shift(rules, src, start, n);
}

/// The lexer never moves back.
pub proof fn lemma_position_rises(rules: Seq<RuleSpec>, src: Seq<char>, from: int, m: nat, n: nat)
    requires
        0 <= from <= src.len(),
        m <= n,
    ensures
        from <= position_after(rules, src, from, m) <= position_after(rules, src, from, n) <= src.len(),
{
    lemma_position_after(rules, src, from, m);
    lemma_position_add(rules, src, from, m, (n - m) as nat);
    lemma_position_after(rules, src, position_after(rules, src, from, m), (n - m) as nat);
}

/// The tokens of the piece of a text that holds `n` of its lexemes, from
/// the `first` on: the tokens of those lexemes, then the end of the text.
/// The strings of the text are interned already, so none is added.
pub proof fn lemma_tokens_of_lexemes(
    rules: Seq<RuleSpec>,
    src: Seq<char>,
    before: Seq<Seq<char>>,
    items: Seq<Result<TokenOut, LexerError>>,
    after: Seq<Seq<char>>,
    first: nat,
    n: nat,
    sub_items: Seq<Result<TokenOut, LexerError>>,
    sub_after: Seq<Seq<char>>,
)
    requires
        distinct(before),
        tokenized(rules, src, 0, before, items, after),
        n >= 1,
        first + n < items.len(),
        ({
            let a = skip_blank(src, position_after(rules, src, 0, first));
            let b = position_after(rules, src, 0, first + n);
            &&& blind_at(rules, src, a, b - a)
            &&& tokenized(rules, src.subrange(a, b), 0, after, sub_items, sub_after)
        }),
    ensures
        sub_items.len() == n + 1,
        sub_after == after,
        forall|j: int| 0 <= j < n ==> token_of(#[trigger] sub_items[j]) == token_of(items[first + j]),
        src.len() <= usize::MAX ==> forall|j: int|
            0 <= j < n ==> location_of(#[trigger] sub_items[j]) == span_from(
                location_of(items[first + j]),
                skip_blank(src, position_after(rules, src, 0, first)),
            ),
        is_end(sub_items[n as int]),
{
    let p = position_after(rules, src, 0, first);
    let a = skip_blank(src, p);
    let b = position_after(rules, src, 0, first + n);
    lemma_position_after(rules, src, 0, first);
    lemma_scan_step(rules, src, p);
    lemma_tokenized_grows(rules, src, 0, before, items, after);
    let mid = lemma_tokenized_suffix(rules, src, 0, before, items, after, first);
    let rest = items.skip(first as int);
    lemma_tokenized_from_start(rules, src, p, mid, rest, after);
    lemma_position_add(rules, src, 0, first, n);
    lemma_position_from_start(rules, src, p, n);
    lemma_position_after(rules, src, a, n);
    assert(after.take(after.len() as int) =~= after);
    lemma_tokens_of_piece(rules, src, a, b, a, mid, rest, after, after, n, sub_items, sub_after);
    assert forall|j: int| 0 <= j < n implies token_of(#[trigger] sub_items[j]) == token_of(
        items[first + j],
    ) && (src.len() <= usize::MAX ==> location_of(sub_items[j]) == span_from(
        location_of(items[first + j]),
        a,
    )) by {
        assert(rest[j] == items[first + j]);
    }
}

/// The one rule left, run alone, takes a lexeme that it matches up to its
/// end, if it refuses the character behind it or the text ends there.
proof fn lemma_exhaust_reaches(rule: RuleSpec, src: Seq<char>, start: int, k: int, m: int)
    requires
        1 <= k <= m,
        start + m <= src.len(),
        alive(rule, src, start, m),
        start + m == src.len() || !verdict_at(rule, src, start, m + 1).matches(),
    ensures
        exhaust_len(rule, src, start, k) == m,
    decreases m - k,
{
    if k < m {
        assert(verdict_at(rule, src, start, k + 1).matches());
        lemma_exhaust_reaches(rule, src, start, k + 1, m);
    }
}

/// The rounds of a scan end with the longest match: see
/// `lemma_longest_match_wins`.
proof fn lemma_rounds_reach_longest(
    rules: Seq<RuleSpec>,
    src: Seq<char>,
    start: int,
    k: int,
    m: int,
    i: int,
)
    requires
        0 <= start,
        1 <= k <= m,
        start + m <= src.len(),
        sole_complete(rules, src, start, m, i),
        start + m == src.len() || none_alive(rules, src, start, m + 1),
    ensures
        scan_rounds(rules, src, start, k) == (Scan {
            end: start + m,
            outcome: Ok((rules[i].token)(src.subrange(start, start + m))),
        }),
    decreases m - k,
{
    assert(alive(rules[i], src, start, m));
    assert(alive(rules[i], src, start, k)) by {
        assert forall|j: int| 1 <= j <= k implies (#[trigger] verdict_at(rules[i], src, start, j)).matches() by {
            assert(verdict_at(rules[i], src, start, j).matches());
        }
    }
    let chosen = choose|w: int| sole_complete(rules, src, start, m, w);
    assert(chosen == i);
    if exists|w: int| sole_alive(rules, src, start, k, w) {
        let w = choose|w: int| sole_alive(rules, src, start, k, w);
        assert(w == i);
        if start + m < src.len() {
            assert(!alive(rules[i], src, start, m + 1));
            lemma_alive_step(rules[i], src, start, m + 1);
        }
        lemma_exhaust_reaches(rules[i], src, start, k, m);
    } else if k < m {
        lemma_rounds_reach_longest(rules, src, start, k + 1, m, i);
    } else if start + m < src.len() {
        let more = m + 1;
        assert(scan_rounds(rules, src, start, m) == scan_rounds(rules, src, start, more));
    }
}

/// The longest match wins: where one rule has a complete match on the
/// first `m` characters of a lexeme and no other rule has, and no rule
/// takes the character behind them, or the text ends there, the scan gives
/// the token of that rule for those characters.
pub proof fn lemma_longest_match_wins(rules: Seq<RuleSpec>, src: Seq<char>, from: int, m: int, i: int)
    requires
        0 <= from <= src.len(),
        1 <= m,
        skip_blank(src, from) + m <= src.len(),
        sole_complete(rules, src, skip_blank(src, from), m, i),
        skip_blank(src, from) + m == src.len() || none_alive(rules, src, skip_blank(src, from), m + 1),
    ensures
        scan(rules, src, from) == (Scan {
            end: skip_blank(src, from) + m,
            outcome: Ok((rules[i].token)(src.subrange(skip_blank(src, from), skip_blank(src, from) + m))),
        }),
{
    lemma_skip_blank(src, from);
    lemma_rounds_reach_longest(rules, src, skip_blank(src, from), 1, m, i);
}

} // verus!
