//! The decisions of the interactive prompt. The prompt itself reads lines,
//! parses and runs what was typed; what to do with a line that was read,
//! and when to run what was typed so far, is decided here.

use vstd::prelude::*;
use vstd::string::StringExecFns;
use crate::lexer::rules::{char_is_whitespace, whitespace};
use crate::parser::stmt::{Stmt, StmtMeta};
use crate::utils::{chars_of, string_push, text_of_chars};

verus! {

/// The prompt for the first line of an input.
pub const PROMT_START: &'static str = ">>> ";

/// The prompt for the lines that follow.
pub const PROMT_CONTINUE: &'static str = "... ";

/// What a line that was read is.
#[derive(Debug)]
pub enum ReadLine {
    /// A line of input, without the white space at its end.
    Line(String),
    /// A line that holds white space only.
    Empty,
    /// The line could not be read: ask again.
    Restart,
    /// The request to leave.
    Quit,
}

/// The length of `text` without the white space at its end.
pub open spec fn trimmed_len(text: Seq<char>) -> nat
    decreases text.len(),
{
    if text.len() > 0 && whitespace(text.last()) {
        trimmed_len(text.drop_last())
    } else {
        text.len()
    }
}

/// `text` without the white space at its end.
pub open spec fn trim_end(text: Seq<char>) -> Seq<char> {
    text.take(trimmed_len(text) as int)
}

/// Whether `text` asks to leave: it is the word `quit`, or it holds the
/// character that ends a transmission.
pub open spec fn asks_to_quit(text: Seq<char>) -> bool {
    text == "quit"@ || text.contains('\x04')
}

/// Whether `text` ends with a semicolon.
pub open spec fn ends_statement(text: Seq<char>) -> bool {
    text.len() > 0 && text.last() == ';'
}

/// `trimmed_len` stays inside the text.
pub proof fn lemma_trimmed_len(text: Seq<char>)
    ensures
        trimmed_len(text) <= text.len(),
        trimmed_len(text) > 0 ==> !whitespace(text[trimmed_len(text) - 1]),
    decreases text.len(),
{
    if text.len() > 0 && whitespace(text.last()) {
        lemma_trimmed_len(text.drop_last());
    }
}

/// The length of `chars` without the white space at their end.
pub fn trimmed_end(chars: &Vec<char>) -> (end: usize)
    ensures
        end == trimmed_len(chars@),
        end <= chars@.len(),
{
    let mut end: usize = chars.len();
    assert(chars@.take(end as int) =~= chars@);
    while end > 0 && char_is_whitespace(chars[end - 1])
        invariant
            end <= chars@.len(),
            trimmed_len(chars@) == trimmed_len(chars@.take(end as int)),
        decreases end,
    {
        proof {
            assert(chars@.take(end as int).drop_last() =~= chars@.take(end - 1));
            assert(chars@.take(end as int).last() == chars@[end - 1]);
        }
        end -= 1;
    }
    proof {
        if end > 0 {
            assert(chars@.take(end as int).last() == chars@[end - 1]);
        }
    }
    end
}

/// What the line `input` is: white space at its end does not count; a line
/// with nothing else is empty; `quit` and the end of transmission ask to
/// leave.
pub fn classify_line(input: &str) -> (line: ReadLine)
    ensures
        match line {
            ReadLine::Line(text) => text@ == trim_end(input@) && text@.len() > 0 && !asks_to_quit(text@),
            ReadLine::Empty => trim_end(input@).len() == 0,
            ReadLine::Quit => trim_end(input@).len() > 0 && asks_to_quit(trim_end(input@)),
            ReadLine::Restart => false,
        },
{
    let chars = chars_of(input);
    let end = trimmed_end(&chars);
    if end == 0 {
        return ReadLine::Empty;
    }
    let ghost trimmed = trim_end(input@);
    let mut has_eot = false;
    let mut i: usize = 0;
    while i < end
        invariant
            i <= end <= chars@.len(),
            trimmed == chars@.take(end as int),
            has_eot == chars@.take(i as int).contains('\x04'),
        decreases end - i,
    {
        proof {
            let upto = chars@.take(i as int);
            let next = chars@.take(i + 1);
            assert(next =~= upto.push(chars@[i as int]));
            if upto.contains('\x04') {
                let k = choose|k: int| 0 <= k < upto.len() && upto[k] == '\x04';
                assert(next[k] == '\x04');
            }
            if chars@[i as int] == '\x04' {
                assert(next[i as int] == '\x04');
            }
            if next.contains('\x04') {
                let k = choose|k: int| 0 <= k < next.len() && next[k] == '\x04';
                if k < i {
                    assert(upto[k] == '\x04');
                }
            }
        }
        if chars[i] == '\x04' {
            has_eot = true;
        }
        i += 1;
    }
    let text = text_of_chars(vstd::slice::slice_subrange(chars.as_slice(), 0, end));
    proof {
        reveal_strlit("quit");
        assert(chars@.subrange(0, end as int) =~= chars@.take(end as int));
    }
    let is_quit = end == 4 && chars[0] == 'q' && chars[1] == 'u' && chars[2] == 'i' && chars[3]
        == 't';
    proof {
        let word = "quit"@;
        assert(word.len() == 4);
        assert(word[0] == 'q' && word[1] == 'u' && word[2] == 'i' && word[3] == 't');
        assert(text@ =~= chars@.take(end as int));
        if is_quit {
            assert(text@ =~= word);
        } else if text@ == word {
            assert(text@[0] == word[0] && text@[1] == word[1] && text@[2] == word[2] && text@[3]
                == word[3]);
        }
    }
    if is_quit || has_eot {
        return ReadLine::Quit;
    }
    ReadLine::Line(text)
}

/// What the prompt does next.
#[derive(Debug, Clone, Copy, PartialEq, Eq, Structural)]
pub enum Action {
    /// Leave.
    Quit,
    /// Read another line.
    Prompt,
    /// Parse what was typed so far, and tell with `on_parse` whether it
    /// parsed.
    TryParse,
    /// Parse and run what was typed so far, then start over.
    Submit,
}

/// What was typed since the last submission.
#[derive(Debug)]
pub struct Repl {
    input: String,
}

impl View for Repl {
    type V = Seq<char>;

    closed spec fn view(&self) -> Seq<char> {
        self.input@
    }
}

impl Repl {
    pub fn new() -> (repl: Repl)
        ensures
            repl@ == Seq::<char>::empty(),
    {
        Repl { input: String::new() }
    }

    /// What was typed since the last submission.
    pub fn input(&self) -> (input: &str)
        ensures
            input@ == self@,
    {
        self.input.as_str()
    }

    /// The prompt for the next line: one for the first line of an input,
    /// another for the lines that follow.
    pub fn prompt(&self) -> (prompt: &'static str)
        ensures
            prompt@ == if self@.len() == 0 {
                PROMT_START@
            } else {
                PROMT_CONTINUE@
            },
    {
        if self.input.as_str().unicode_len() == 0 {
            PROMT_START
        } else {
            PROMT_CONTINUE
        }
    }

    /// Takes a line that was read. A line of input is added to what was
    /// typed; if it ends with a semicolon the input is submitted, else it is
    /// submitted once it parses. An empty line submits what was typed, if
    /// anything was.
    pub fn on_line(&mut self, line: ReadLine) -> (action: Action)
        ensures
            match line {
                ReadLine::Quit => action == Action::Quit && final(self)@ == old(self)@,
                ReadLine::Restart => action == Action::Prompt && final(self)@ == old(self)@,
                ReadLine::Empty => final(self)@ == old(self)@ && action == if old(self)@.len()
                    == 0 {
                    Action::Prompt
                } else {
                    Action::Submit
                },
                ReadLine::Line(text) => final(self)@ == old(self)@ + text@ && action
                    == if ends_statement(trim_end(text@)) {
                    Action::Submit
                } else {
                    Action::TryParse
                },
            },
    {
        match line {
            ReadLine::Quit => Action::Quit,
            ReadLine::Restart => Action::Prompt,
            ReadLine::Empty => {
                if self.input.as_str().unicode_len() == 0 {
                    Action::Prompt
                } else {
                    Action::Submit
                }
            },
            ReadLine::Line(text) => {
                self.input.append(text.as_str());
                let chars = chars_of(text.as_str());
                let end = trimmed_end(&chars);
                if end > 0 && chars[end - 1] == ';' {
                    Action::Submit
                } else {
                    Action::TryParse
                }
            },
        }
    }

    /// Takes the outcome of the parse that `on_line` asked for: input that
    /// parsed is submitted; to input that did not, a line feed is added and
    /// another line is read.
    pub fn on_parse(&mut self, parsed: bool) -> (action: Action)
        ensures
            parsed ==> action == Action::Submit && final(self)@ == old(self)@,
            !parsed ==> action == Action::Prompt && final(self)@ == old(self)@.push('\n'),
    {
        if parsed {
            Action::Submit
        } else {
            string_push(&mut self.input, '\n');
            Action::Prompt
        }
    }

    /// Starts over, and hands out what was typed.
    pub fn take_input(&mut self) -> (input: String)
        ensures
            input@ == old(self)@,
            final(self)@ == Seq::<char>::empty(),
    {
        let mut input = String::new();
        core::mem::swap(&mut self.input, &mut input);
        input
    }
}

/// The statements for the prompt: if the last one is an expression, it is
/// echoed, so that the prompt shows its value.
pub fn echo_last(ast: Vec<StmtMeta>) -> (statements: Vec<StmtMeta>)
    ensures
        statements@.len() == ast@.len(),
        forall|i: int| 0 <= i < ast@.len() - 1 ==> statements@[i] == ast@[i],
        ast@.len() > 0 ==> statements@.last().spec_symbol() == ast@.last().spec_symbol()
            && statements@.last().spec_stmt() == match ast@.last().spec_stmt() {
            Stmt::Expression(expr) => Stmt::Echo(expr),
            other => other,
        },
{
    let mut ast = ast;
    let ghost before = ast@;
    if let Some(stmt) = ast.pop() {
        let (mut stmt, symbol) = stmt.take();
        if let Stmt::Expression(expr) = stmt {
            stmt = Stmt::Echo(expr);
        }
        ast.push(StmtMeta::new(stmt, symbol));
    }
    ast
}

} // verus!
