use sphinx_lang::lexer::lexer::{Lexer, LexerBuilder, Span};
use sphinx_lang::lexer::rules::keywords::KeywordRule;
use sphinx_lang::lexer::rules::strmatcher::StrMatcher;
use sphinx_lang::lexer::rules::{is_word_alphanumeric, LexerRule, MatchResult};
use sphinx_lang::lexer::token::Token;

fn keyword_lexer(source: &str) -> Lexer<KeywordRule> {
    LexerBuilder::new()
        .add_rule(KeywordRule::new(Token::While, "while"))
        .add_rule(KeywordRule::new(Token::If, "if"))
        .add_rule(KeywordRule::new(Token::Echo, "echo"))
        .build(source.chars().collect())
}

#[test]
fn keywords_are_scanned_with_their_spans() {
    let mut lexer = keyword_lexer("if  while\nif");

    let out = lexer.next_token().unwrap();
    assert_eq!(out.token, Token::If);
    assert_eq!(out.location, Span { index: 0, length: 2 });
    assert_eq!(out.lineno, 1);

    let out = lexer.next_token().unwrap();
    assert_eq!(out.token, Token::While);
    assert_eq!(out.location, Span { index: 4, length: 5 });
    assert_eq!(out.lineno, 1);

    let out = lexer.next_token().unwrap();
    assert_eq!(out.token, Token::If);
    assert_eq!(out.location, Span { index: 10, length: 2 });
    assert_eq!(out.lineno, 2);

    let out = lexer.next_token().unwrap();
    assert_eq!(out.token, Token::EOF);
    assert_eq!(out.location, Span { index: 12, length: 0 });
}

#[test]
fn end_of_input_is_told_again_and_again() {
    let mut lexer = keyword_lexer("  \n ");
    for _ in 0..3 {
        let out = lexer.next_token().unwrap();
        assert_eq!(out.token, Token::EOF);
        assert_eq!(out.location, Span { index: 4, length: 0 });
        assert_eq!(out.lineno, 2);
    }
}

#[test]
fn spans_cover_all_but_white_space() {
    let source = " echo\t if\n\nwhile   echo ";
    let chars: Vec<char> = source.chars().collect();
    let mut lexer = keyword_lexer(source);
    let mut covered = vec![false; chars.len()];
    loop {
        let out = lexer.next_token().unwrap();
        if out.token == Token::EOF {
            break;
        }
        for at in out.location.index..out.location.index + out.location.length {
            assert!(!covered[at]);
            covered[at] = true;
        }
    }
    for (at, ch) in chars.iter().enumerate() {
        assert_eq!(covered[at], !ch.is_whitespace(), "position {}", at);
    }
}

#[test]
fn line_numbers_count_line_feeds() {
    let mut lexer = keyword_lexer("if\n\n\nif\r\nif");
    assert_eq!(lexer.next_token().unwrap().lineno, 1);
    assert_eq!(lexer.next_token().unwrap().lineno, 4);
    assert_eq!(lexer.next_token().unwrap().lineno, 5);
}

#[test]
fn a_character_that_no_rule_takes_is_an_error() {
    let mut lexer = keyword_lexer("  ?if");
    let err = lexer.next_token().unwrap_err();
    assert_eq!(err.message, "could not parse symbol");
    assert_eq!(err.location, Span { index: 2, length: 1 });
    assert_eq!(err.lineno, 1);
    // the lexer goes on behind the character
    let out = lexer.next_token().unwrap();
    assert_eq!(out.token, Token::If);
    assert_eq!(out.location, Span { index: 3, length: 2 });
}

#[test]
fn a_keyword_cut_short_is_an_error() {
    let mut lexer = keyword_lexer("whi le");
    let err = lexer.next_token().unwrap_err();
    assert_eq!(err.message, "could not parse symbol");
    assert_eq!(err.location, Span { index: 0, length: 3 });

    let mut lexer = keyword_lexer("whi");
    let err = lexer.next_token().unwrap_err();
    assert_eq!(err.message, "could not parse symbol");
    assert_eq!(err.location, Span { index: 0, length: 3 });
    assert_eq!(lexer.next_token().unwrap().token, Token::EOF);
}

#[test]
fn two_complete_rules_are_ambiguous() {
    let mut lexer = LexerBuilder::new()
        .add_rule(KeywordRule::new(Token::If, "if"))
        .add_rule(KeywordRule::new(Token::In, "if"))
        .build("if ".chars().collect());
    let err = lexer.next_token().unwrap_err();
    assert_eq!(err.message, "ambiguous symbol");
    assert_eq!(err.location, Span { index: 0, length: 2 });
    // at the end of the text as well
    let mut lexer = LexerBuilder::new()
        .add_rule(KeywordRule::new(Token::If, "if"))
        .add_rule(KeywordRule::new(Token::In, "if"))
        .build("if".chars().collect());
    let err = lexer.next_token().unwrap_err();
    assert_eq!(err.message, "ambiguous symbol");
    assert_eq!(err.location, Span { index: 0, length: 2 });
}

#[test]
fn rules_left_at_the_end_of_input_decide() {
    let mut lexer = LexerBuilder::new()
        .add_rule(KeywordRule::new(Token::If, "if"))
        .add_rule(KeywordRule::new(Token::In, "iffy"))
        .build("if".chars().collect());
    let out = lexer.next_token().unwrap();
    assert_eq!(out.token, Token::If);
    assert_eq!(out.location, Span { index: 0, length: 2 });
    // no rule has a complete match where the text ends
    let mut lexer = LexerBuilder::new()
        .add_rule(KeywordRule::new(Token::While, "iffier"))
        .add_rule(KeywordRule::new(Token::In, "iffy"))
        .build("iff".chars().collect());
    let err = lexer.next_token().unwrap_err();
    assert_eq!(err.message, "could not parse symbol");
    assert_eq!(err.location, Span { index: 0, length: 3 });
}

#[test]
fn the_character_that_ends_a_contest_stays_unread() {
    // two rules are in contention up to the blank, which both refuse
    let mut lexer = LexerBuilder::new()
        .add_rule(KeywordRule::new(Token::If, "if"))
        .add_rule(KeywordRule::new(Token::In, "iffy"))
        .build("if\nif".chars().collect());
    let out = lexer.next_token().unwrap();
    assert_eq!(out.token, Token::If);
    assert_eq!(out.location, Span { index: 0, length: 2 });
    assert_eq!(out.lineno, 1);
    let out = lexer.next_token().unwrap();
    assert_eq!(out.token, Token::If);
    assert_eq!(out.location, Span { index: 3, length: 2 });
    assert_eq!(out.lineno, 2);
    // the longer keyword wins once the shorter one has given up
    let mut lexer = LexerBuilder::new()
        .add_rule(KeywordRule::new(Token::If, "if"))
        .add_rule(KeywordRule::new(Token::In, "iffy"))
        .build("iffy if".chars().collect());
    let out = lexer.next_token().unwrap();
    assert_eq!(out.token, Token::In);
    assert_eq!(out.location, Span { index: 0, length: 4 });
}

#[test]
fn keyword_rule_needs_a_word_boundary() {
    let mut rule = KeywordRule::new(Token::If, "if");
    assert_eq!(rule.try_match(Some('x'), 'i'), MatchResult::NoMatch);
    assert_eq!(rule.try_match(Some('_'), 'i'), MatchResult::NoMatch);
    assert_eq!(rule.try_match(Some('9'), 'i'), MatchResult::NoMatch);
    assert_eq!(rule.get_token(), None);
    assert_eq!(rule.try_match(Some(' '), 'i'), MatchResult::IncompleteMatch);
    assert_eq!(rule.current_state(), MatchResult::IncompleteMatch);
    assert_eq!(rule.try_match(Some('i'), 'f'), MatchResult::CompleteMatch);
    assert_eq!(rule.get_token(), Some(Token::If));
    // a word that goes on is not the keyword; the rule stays as it was
    assert_eq!(rule.try_match(Some('f'), 'f'), MatchResult::NoMatch);
    assert_eq!(rule.current_state(), MatchResult::CompleteMatch);
    rule.reset();
    assert_eq!(rule.get_token(), None);
    assert_eq!(rule.try_match(None, 'i'), MatchResult::IncompleteMatch);
}

#[test]
fn every_keyword_lexes_as_itself() {
    let keywords = [
        (Token::And, "and"),
        (Token::Or, "or"),
        (Token::True, "true"),
        (Token::False, "false"),
        (Token::Nil, "nil"),
        (Token::Let, "let"),
        (Token::Var, "var"),
        (Token::If, "if"),
        (Token::Else, "else"),
        (Token::While, "while"),
        (Token::For, "for"),
        (Token::Fun, "fun"),
        (Token::Echo, "echo"),
        (Token::Assert, "assert"),
        (Token::Return, "return"),
    ];
    for (token, word) in keywords {
        let mut lexer = LexerBuilder::new()
            .add_rule(KeywordRule::new(token, word))
            .build(word.chars().collect());
        let out = lexer.next_token().unwrap();
        assert_eq!(out.token, token);
        assert_eq!(out.location, Span { index: 0, length: word.chars().count() });
        // with a word character behind it, the keyword is matched and the rest is left
        let longer = format!("{}_x", word);
        let mut lexer = LexerBuilder::new()
            .add_rule(KeywordRule::new(token, word))
            .build(longer.chars().collect());
        let out = lexer.next_token().unwrap();
        assert_eq!(out.location.length, word.chars().count());
        assert!(lexer.next_token().is_err());
    }
}

#[test]
fn str_matcher_follows_its_target() {
    let mut matcher = StrMatcher::new("ab");
    assert_eq!(matcher.count(), 0);
    assert_eq!(matcher.last_match_result(), MatchResult::IncompleteMatch);
    assert_eq!(matcher.peek_match('a'), MatchResult::IncompleteMatch);
    assert_eq!(matcher.count(), 0);
    assert_eq!(matcher.try_match('x'), MatchResult::NoMatch);
    assert_eq!(matcher.count(), 0);
    assert_eq!(matcher.try_match('a'), MatchResult::IncompleteMatch);
    assert_eq!(matcher.try_match('b'), MatchResult::CompleteMatch);
    assert_eq!(matcher.count(), 2);
    assert_eq!(matcher.last_match_result(), MatchResult::CompleteMatch);
    assert_eq!(matcher.try_match('c'), MatchResult::NoMatch);
    assert_eq!(matcher.count(), 2);
    matcher.reset();
    assert_eq!(matcher.count(), 0);

    let mut empty = StrMatcher::new("");
    assert_eq!(empty.try_match('a'), MatchResult::NoMatch);
}

#[test]
fn word_characters() {
    assert!(is_word_alphanumeric('_'));
    assert!(is_word_alphanumeric('a'));
    assert!(is_word_alphanumeric('Z'));
    assert!(is_word_alphanumeric('7'));
    assert!(is_word_alphanumeric('é'));
    assert!(!is_word_alphanumeric(' '));
    assert!(!is_word_alphanumeric('-'));
    assert!(!is_word_alphanumeric(';'));
}

#[test]
fn match_results_tell_what_they_are() {
    assert!(MatchResult::CompleteMatch.is_match());
    assert!(MatchResult::IncompleteMatch.is_match());
    assert!(!MatchResult::NoMatch.is_match());
    assert!(MatchResult::NoMatch.is_no_match());
    assert!(MatchResult::CompleteMatch.is_complete_match());
    assert!(!MatchResult::IncompleteMatch.is_complete_match());
    assert!(MatchResult::IncompleteMatch.is_incomplete_match());
}
