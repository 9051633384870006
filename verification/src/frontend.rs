//! From source text to a program: scanning, parsing and compiling in one
//! go.

use vstd::prelude::*;
use crate::codegen::compiler::{compile, nothing_emitted, with_op, with_statements, CompiledProgram};
use crate::codegen::errors::CompileError;
use crate::codegen::opcodes::OpCode;
use crate::lexer::language::{language_grammar, language_tokenizer};
use crate::lexer::tokenizer::tokenized;
use crate::parser::parser::{parse_program, program, Lexed, SyntaxError};
use crate::parser::stmt::StmtMeta;
use crate::runtime::strings::{Interner, SYMBOL_LIMIT};
use crate::source::{collect_output, errors_of, values_of};

verus! {

/// Why a source could not be built.
#[derive(Debug)]
pub enum BuildErrors {
    /// The errors that the parser found.
    Syntax(Vec<SyntaxError>),
    /// The errors that the compiler found.
    Compile(Vec<CompileError>),
}

/// What was parsed: the tokens of the source, which the errors speak of by
/// their positions; its statements, or the errors in it; and the strings of
/// its names and literals.
pub struct Parsed {
    pub tokens: Vec<Lexed>,
    pub ast: Result<Vec<StmtMeta>, Vec<SyntaxError>>,
    pub strings: Interner,
}

/// Whether `source` can be scanned with `strings` interned already: the
/// positions of its tokens, and the symbols of the strings that it may add,
/// can be told apart.
pub open spec fn scannable(source: Seq<char>, strings: Seq<Seq<char>>) -> bool {
    source.len() + 1 < usize::MAX && strings.len() + source.len() < SYMBOL_LIMIT
}

/// Whether `toks`, `ast` and `strings` are what parsing `source` gives,
/// `before` being the strings interned before: the source is scanned with
/// the rules of the language, its tokens are parsed, and the statements are
/// given if no error was found, else the errors.
pub open spec fn parses(
    source: Seq<char>,
    before: Seq<Seq<char>>,
    toks: Seq<Lexed>,
    ast: Result<Vec<StmtMeta>, Vec<SyntaxError>>,
    strings: Seq<Seq<char>>,
) -> bool {
    &&& tokenized(language_grammar(), source, 0, before, toks, strings)
    &&& match ast {
        Ok(statements) => errors_of(program(toks, 0)).len() == 0 && statements@ == values_of(
            program(toks, 0),
        ),
        Err(errors) => errors@.len() > 0 && errors@ == errors_of(program(toks, 0)),
    }
}

/// Parses `source`, whose names and string literals are interned behind
/// `strings`.
pub fn parse_source(source: Vec<char>, strings: Interner) -> (parsed: Parsed)
    requires
        scannable(source@, strings@),
    ensures
        parses(source@, strings@, parsed.tokens@, parsed.ast, parsed.strings@),
{
    let mut tokenizer = language_tokenizer(source, strings);
    let tokens = tokenizer.tokenize();
    let output = parse_program(&tokens);
    let ast = collect_output(output);
    let out = tokenizer.into_strings();
    Parsed { tokens, ast, strings: out }
}

/// Whether `result` is what building `source` gives: the program of its
/// statements if it parses and compiles, else the errors of the first of
/// the two that found any.
pub open spec fn builds(
    source: Seq<char>,
    before: Seq<Seq<char>>,
    result: Result<CompiledProgram, BuildErrors>,
) -> bool {
    exists|toks: Seq<Lexed>, ast: Result<Vec<StmtMeta>, Vec<SyntaxError>>, strings: Seq<Seq<char>>|
        {
            &&& #[trigger] parses(source, before, toks, ast, strings)
            &&& match ast {
                Err(errors) => result matches Err(BuildErrors::Syntax(found)) && found == errors,
                Ok(statements) => {
                    let emitted = with_statements(nothing_emitted(), statements@, 0);
                    if emitted.1.len() == 0 {
                        &&& result matches Ok(compiled)
                        &&& compiled.symbols.wf()
                        &&& compiled.symbols@ == emitted.0.symbols
                        &&& compiled.program@.chunks == seq![
                            with_op(emitted.0, OpCode::Return).code,
                        ]
                        &&& compiled.program@.consts == emitted.0.pool
                        &&& compiled.program@.strings == strings
                    } else {
                        result matches Err(BuildErrors::Compile(found)) && found@ == emitted.1
                    }
                },
            }
        }
}

/// Compiles statements whose names and string literals are the strings
/// `strings`.
pub fn compile_ast(strings: Interner, ast: Vec<StmtMeta>) -> (result: Result<
    CompiledProgram,
    Vec<CompileError>,
>)
    ensures
        match result {
            Ok(compiled) => {
                let emitted = with_statements(nothing_emitted(), ast@, 0);
                &&& emitted.1.len() == 0
                &&& compiled.symbols.wf()
                &&& compiled.symbols@ == emitted.0.symbols
                &&& compiled.program@.chunks == seq![with_op(emitted.0, OpCode::Return).code]
                &&& compiled.program@.consts == emitted.0.pool
                &&& compiled.program@.strings == strings@
            },
            Err(errors) => errors@.len() > 0 && errors@ == with_statements(
                nothing_emitted(),
                ast@,
                0,
            ).1,
        },
{
    compile(&ast, strings)
}

/// Builds the program of `source`: it is parsed, and its statements are
/// compiled.
pub fn build_module(source: Vec<char>, strings: Interner) -> (result: Result<
    CompiledProgram,
    BuildErrors,
>)
    requires
        scannable(source@, strings@),
    ensures
        builds(source@, strings@, result),
{
    let parsed = parse_source(source, strings);
    let ghost toks = parsed.tokens@;
    let ghost ast = parsed.ast;
    let ghost after = parsed.strings@;
    let result = match parsed.ast {
        Err(errors) => Err(BuildErrors::Syntax(errors)),
        Ok(statements) => match compile_ast(parsed.strings, statements) {
            Ok(compiled) => Ok(compiled),
            Err(errors) => Err(BuildErrors::Compile(errors)),
        },
    };
    assert(parses(source@, strings@, toks, ast, after));
    result
}

} // verus!
