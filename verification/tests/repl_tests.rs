use sphinx_lang::repl::{classify_line, trimmed_end, Action, ReadLine, Repl, PROMT_CONTINUE, PROMT_START};
use sphinx_lang::utils::{chars_of, text_of_chars};

#[test]
fn lines_are_told_apart() {
    assert!(matches!(classify_line(""), ReadLine::Empty));
    assert!(matches!(classify_line("  \t\r\n"), ReadLine::Empty));
    assert!(matches!(classify_line("quit"), ReadLine::Quit));
    assert!(matches!(classify_line("quit \n"), ReadLine::Quit));
    assert!(matches!(classify_line("\x04"), ReadLine::Quit));
    assert!(matches!(classify_line("echo 1;\x04 \n"), ReadLine::Quit));
    assert!(matches!(classify_line("var x = 1;\n"), ReadLine::Line(line) if line == "var x = 1;"));
    assert!(matches!(classify_line("  quit"), ReadLine::Line(line) if line == "  quit"));
    assert!(matches!(classify_line("quits"), ReadLine::Line(line) if line == "quits"));
    assert!(matches!(classify_line("quit;"), ReadLine::Line(line) if line == "quit;"));
    assert!(matches!(classify_line("if true {  \u{A0}\n"), ReadLine::Line(line) if line == "if true {"));
    for input in ["", " ", "a", "a ", " a \t", "\n\n", "x\u{2003}\u{3000}", "é "] {
        let chars: Vec<char> = input.chars().collect();
        assert_eq!(trimmed_end(&chars), input.trim_end().chars().count(), "{:?}", input);
    }
}

#[test]
fn a_statement_that_ends_is_submitted() {
    let mut repl = Repl::new();
    assert_eq!(repl.prompt(), PROMT_START);
    assert_eq!(repl.prompt(), ">>> ");
    assert_eq!(repl.on_line(classify_line("var x = 1;\n")), Action::Submit);
    assert_eq!(repl.input(), "var x = 1;");
    assert_eq!(repl.take_input(), "var x = 1;");
    assert_eq!(repl.input(), "");
    assert_eq!(repl.prompt(), PROMT_START);
    // an expression without a semicolon is submitted once it parses
    assert_eq!(repl.on_line(classify_line("x + 1")), Action::TryParse);
    assert_eq!(repl.on_parse(true), Action::Submit);
    assert_eq!(repl.take_input(), "x + 1");
}

#[test]
fn a_block_is_not_submitted_before_it_parses() {
    let mut repl = Repl::new();
    assert_eq!(repl.on_line(classify_line("if true {\n")), Action::TryParse);
    assert_eq!(repl.on_parse(false), Action::Prompt);
    assert_eq!(repl.input(), "if true {\n");
    assert_eq!(repl.prompt(), PROMT_CONTINUE);
    assert_eq!(repl.prompt(), "... ");
    assert_eq!(repl.on_line(classify_line("  echo 1\n")), Action::TryParse);
    assert_eq!(repl.on_parse(false), Action::Prompt);
    assert_eq!(repl.on_line(classify_line("}\n")), Action::TryParse);
    assert_eq!(repl.on_parse(true), Action::Submit);
    assert_eq!(repl.take_input(), "if true {\n  echo 1\n}");
}

#[test]
fn an_empty_line_submits_what_was_typed() {
    let mut repl = Repl::new();
    assert_eq!(repl.on_line(ReadLine::Empty), Action::Prompt);
    assert_eq!(repl.on_line(ReadLine::Restart), Action::Prompt);
    assert_eq!(repl.input(), "");
    assert_eq!(repl.on_line(classify_line("if true {")), Action::TryParse);
    assert_eq!(repl.on_parse(false), Action::Prompt);
    assert_eq!(repl.on_line(ReadLine::Restart), Action::Prompt);
    // what is left unfinished is submitted as it is, for the parser to refuse
    assert_eq!(repl.on_line(classify_line("   \n")), Action::Submit);
    assert_eq!(repl.take_input(), "if true {\n");
    assert_eq!(repl.on_line(classify_line("quit")), Action::Quit);
    assert_eq!(repl.on_line(ReadLine::Line("echo 1; ".to_string())), Action::Submit);
}

#[test]
fn text_and_characters_turn_into_each_other() {
    for text in ["", "abc", "héllo wörld", "a\nb", "\u{10FFFF}"] {
        let chars = chars_of(text);
        assert_eq!(chars, text.chars().collect::<Vec<char>>());
        assert_eq!(text_of_chars(&chars), text);
    }
}
