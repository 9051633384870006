//! Where source text comes from.

use vstd::prelude::*;
use vstd::std_specs::convert::FromSpecImpl;
use vstd::string::StringExecFns;
use crate::debug::symbol::{resolve_symbols, DebugSymbol, ResolvedSymbol};
use crate::frontend::{parse_source, parses, scannable};
use crate::parser::parser::{Lexed, SyntaxError};
use crate::parser::stmt::StmtMeta;
use crate::runtime::strings::Interner;
use crate::utils::chars_of;

verus! {

/// The source of a module: text held in memory, or the path of a file.
#[derive(Debug, Hash)]
pub enum SourceType {
    String(String),
    File(String),
}

/// The text of a source, once it was loaded: a string, or the characters
/// that were read from a file.
#[derive(Debug)]
pub enum SourceText {
    String(String),
    File(Vec<char>),
}

impl SourceText {
    /// The characters of the text.
    pub open spec fn text(&self) -> Seq<char> {
        match self {
            SourceText::String(text) => text@,
            SourceText::File(chars) => chars@,
        }
    }

    /// The characters of the text.
    pub fn into_chars(self) -> (chars: Vec<char>)
        ensures
            chars@ == self.text(),
    {
        match self {
            SourceText::String(text) => chars_of(text.as_str()),
            SourceText::File(chars) => chars,
        }
    }
}

impl From<String> for SourceText {
    fn from(text: String) -> (source: SourceText) {
        SourceText::String(text)
    }
}

impl FromSpecImpl<String> for SourceText {
    open spec fn obeys_from_spec() -> bool {
        true
    }

    open spec fn from_spec(text: String) -> SourceText {
        SourceText::String(text)
    }
}

/// A module's name and where its text comes from.
#[derive(Debug, Hash)]
pub struct ModuleSource {
    name: String,
    source: SourceType,
}

impl ModuleSource {
    pub closed spec fn spec_name(&self) -> Seq<char> {
        self.name@
    }

    pub closed spec fn spec_source(&self) -> &SourceType {
        &self.source
    }

    pub fn new(name: &str, source: SourceType) -> (module: ModuleSource)
        ensures
            module.spec_name() == name@,
            *module.spec_source() == source,
    {
        ModuleSource { name: String::from_str(name), source }
    }

    pub fn name(&self) -> (name: &str)
        ensures
            name@ == self.spec_name(),
    {
        self.name.as_str()
    }

    #[verifier::when_used_as_spec(spec_source)]
    pub fn source(&self) -> (source: &SourceType)
        ensures
            source == self.spec_source(),
    {
        &self.source
    }

    /// The module's text, where it is held in memory. The text of a file has
    /// to be read first.
    pub fn source_text(&self) -> (text: Option<SourceText>)
        ensures
            match self.spec_source() {
                SourceType::String(string) => text matches Some(SourceText::String(found))
                    && found@ == string@,
                SourceType::File(_) => text.is_none(),
            },
    {
        match &self.source {
            SourceType::String(string) => Some(SourceText::String(String::from_str(string.as_str()))),
            SourceType::File(_) => None,
        }
    }

    /// The characters of the module's text, where it is held in memory. The
    /// text of a file has to be read first.
    pub fn source_chars(&self) -> (chars: Option<Vec<char>>)
        ensures
            match self.spec_source() {
                SourceType::String(text) => chars.is_some() && chars.unwrap()@ == text@,
                SourceType::File(_) => chars.is_none(),
            },
    {
        match &self.source {
            SourceType::String(text) => Some(chars_of(text.as_str())),
            SourceType::File(_) => None,
        }
    }

    /// Resolves each of `symbols` in the module's text, where that is held in
    /// memory and short of the longest text that can be addressed.
    pub fn resolve_symbols(&self, symbols: &Vec<DebugSymbol>) -> (resolved: Option<
        Vec<Option<ResolvedSymbol>>,
    >)
        ensures
            match self.spec_source() {
                SourceType::String(text) => if text@.len() < usize::MAX {
                    &&& resolved.is_some()
                    &&& resolved.unwrap()@.len() == symbols@.len()
                    &&& forall|i: int|
                        0 <= i < symbols@.len() ==> {
                            &&& (#[trigger] resolved.unwrap()@[i]).is_some() <==> symbols@[i].start
                                <= symbols@[i].end <= text@.len()
                            &&& resolved.unwrap()@[i].is_some() ==> resolved.unwrap()@[i].unwrap().resolves(
                                text@,
                                symbols@[i],
                            )
                        }
                } else {
                    resolved.is_none()
                },
                SourceType::File(_) => resolved.is_none(),
            },
    {
        match self.source_chars() {
            Some(chars) => {
                if chars.len() < usize::MAX {
                    Some(resolve_symbols(&chars, symbols))
                } else {
                    None
                }
            },
            None => None,
        }
    }
}

/// What parsing needs from one source to the next: the strings of the names
/// and literals that were found so far.
pub struct ParseContext {
    interner: Interner,
}

impl ParseContext {
    /// The strings that were interned so far.
    pub closed spec fn strings(&self) -> Seq<Seq<char>> {
        self.interner@
    }

    pub fn new(interner: Interner) -> (context: ParseContext)
        ensures
            context.strings() == interner@,
    {
        ParseContext { interner }
    }

    /// The statements of `source` if no error was found in it, else the
    /// errors; the names and string literals of the source are interned.
    pub fn parse_ast(&mut self, source: SourceText) -> (result: Result<Vec<StmtMeta>, Vec<SyntaxError>>)
        requires
            scannable(source.text(), old(self).strings()),
        ensures
            exists|toks: Seq<Lexed>| #[trigger]
                parses(source.text(), old(self).strings(), toks, result, final(self).strings()),
    {
        let mut strings = Interner::new();
        core::mem::swap(&mut self.interner, &mut strings);
        let parsed = parse_source(source.into_chars(), strings);
        self.interner = parsed.strings;
        assert(parses(source.text(), old(self).strings(), parsed.tokens@, parsed.ast, self.strings()));
        parsed.ast
    }

    /// The strings that were interned.
    pub fn into_interner(self) -> (interner: Interner)
        ensures
            interner@ == self.strings(),
    {
        self.interner
    }
}

/// The values among `output`, in their order.
pub open spec fn values_of<T, E>(output: Seq<Result<T, E>>) -> Seq<T>
    decreases output.len(),
{
    if output.len() == 0 {
        Seq::empty()
    } else {
        match output.last() {
            Ok(value) => values_of(output.drop_last()).push(value),
            Err(_) => values_of(output.drop_last()),
        }
    }
}

/// The errors among `output`, in their order.
pub open spec fn errors_of<T, E>(output: Seq<Result<T, E>>) -> Seq<E>
    decreases output.len(),
{
    if output.len() == 0 {
        Seq::empty()
    } else {
        match output.last() {
            Ok(_) => errors_of(output.drop_last()),
            Err(error) => errors_of(output.drop_last()).push(error),
        }
    }
}

/// What a pass over a source comes to, given what it made of each statement:
/// all the statements if there was no error, else all the errors.
pub fn collect_output<T, E>(output: Vec<Result<T, E>>) -> (result: Result<Vec<T>, Vec<E>>)
    ensures
        match result {
            Ok(values) => errors_of(output@).len() == 0 && values@ == values_of(output@),
            Err(errors) => errors@.len() > 0 && errors@ == errors_of(output@),
        },
{
    let mut output = output;
    let ghost all = output@;
    let mut values: Vec<T> = Vec::new();
    let mut errors: Vec<E> = Vec::new();
    // the results are taken from the end, so both lists come out reversed
    while output.len() > 0
        invariant
            output@.len() <= all.len(),
            output@ == all.take(output@.len() as int),
            values_of(all) == values_of(output@) + values@.reverse(),
            errors_of(all) == errors_of(output@) + errors@.reverse(),
        decreases output@.len(),
    {
        let ghost before = output@;
        let ghost values_before = values@;
        let ghost errors_before = errors@;
        let last = output.pop();
        proof {
            assert(output@ =~= before.drop_last());
            assert(output@ =~= all.take(output@.len() as int));
        }
        match last {
            Some(Ok(value)) => {
                values.push(value);
                proof {
                    assert(values@.reverse() =~= seq![value] + values_before.reverse());
                    assert(values_of(before) + values_before.reverse() =~= values_of(output@)
                        + values@.reverse());
                }
            },
            Some(Err(error)) => {
                errors.push(error);
                proof {
                    assert(errors@.reverse() =~= seq![error] + errors_before.reverse());
                    assert(errors_of(before) + errors_before.reverse() =~= errors_of(output@)
                        + errors@.reverse());
                }
            },
            None => {},
        }
    }
    proof {
        assert(values_of(all) =~= values@.reverse());
        assert(errors_of(all) =~= errors@.reverse());
    }
    if errors.len() > 0 {
        Err(reversed(errors))
    } else {
        Ok(reversed(values))
    }
}

/// The items of `items` from the last to the first.
fn reversed<T>(items: Vec<T>) -> (result: Vec<T>)
    ensures
        result@ == items@.reverse(),
{
    let mut items = items;
    let ghost all = items@;
    let mut result: Vec<T> = Vec::new();
    while items.len() > 0
        invariant
            items@.len() <= all.len(),
            items@ == all.take(items@.len() as int),
            result@.len() + items@.len() == all.len(),
            forall|i: int| 0 <= i < result@.len() ==> result@[i] == all[all.len() - 1 - i],
        decreases items@.len(),
    {
        let ghost before = items@;
        match items.pop() {
            Some(item) => {
                proof {
                    assert(items@ =~= before.drop_last());
                    assert(items@ =~= all.take(items@.len() as int));
                    assert(item == all[before.len() - 1]);
                }
                result.push(item);
            },
            None => {},
        }
    }
    assert(result@ =~= all.reverse());
    result
}

} // verus!
