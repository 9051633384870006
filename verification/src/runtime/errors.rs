//! Runtime errors, and their messages.

use vstd::prelude::*;
use vstd::std_specs::convert::FromSpecImpl;
use vstd::string::StringExecFns;
use crate::debug::traceback::TraceSite;
use crate::runtime::echo::{glyphs, lemma_glyphs_concat, Glyph, Rendering};
use crate::runtime::function::signature::{Signature, SignatureView};
use crate::runtime::strings::StringTable;
use crate::runtime::types::{MethodTag, Type};
use crate::runtime::variant::{known, show, Variant};
use crate::utils::{decimal, write_decimal};

verus! {

pub type ExecResult<T> = Result<T, Box<RuntimeError>>;

/// What went wrong while a program ran.
#[derive(Debug)]
pub enum ErrorKind {
    /// The operand of a unary operator has a type that the operator does not
    /// take.
    InvalidUnaryOperand(Type),
    InvalidBinaryOperand(Type, Type),
    OverflowError,
    DivideByZero,
    NegativeShiftCount,
    NameNotDefined(String),
    /// An immutable global variable was assigned to.
    CantAssignImmutable,
    UnhashableValue(Variant),
    MissingArguments { signature: Box<Signature>, nargs: usize },
    TooManyArguments { signature: Box<Signature>, nargs: usize },
    MethodNotSupported(Type, MethodTag),
    AssertFailed,
    InvalidValue(Variant, String),
    Other(String),
}

/// The number of required arguments that a call with `nargs` arguments left
/// out.
pub open spec fn missing_count(signature: SignatureView, nargs: nat) -> nat {
    if signature.min_arity() >= nargs {
        (signature.min_arity() - nargs) as nat
    } else {
        0
    }
}

/// The names of `signature`'s required parameters from the one at `from` on,
/// with `, ` between them.
pub open spec fn missing_names(signature: SignatureView, from: int, table: Seq<Seq<char>>) -> Seq<
    char,
>
    decreases signature.required.len() - from,
{
    if from < 0 || from >= signature.required.len() {
        Seq::empty()
    } else if from + 1 == signature.required.len() {
        table[signature.required[from].spec_name().index() as int]
    } else {
        table[signature.required[from].spec_name().index() as int] + ", "@ + missing_names(
            signature,
            from + 1,
            table,
        )
    }
}

/// The message of an error that names a type's failing to support `method`.
pub open spec fn unsupported_text(receiver: Type, method: MethodTag) -> Seq<char> {
    match method {
        MethodTag::AsBits => "can't interpret '"@ + receiver.spec_name() + "' as bitfield"@,
        MethodTag::AsInt => "can't interpret '"@ + receiver.spec_name() + "' as int"@,
        MethodTag::AsFloat => "can't interpret '"@ + receiver.spec_name() + "' as float"@,
        MethodTag::Invoke => "type '"@ + receiver.spec_name() + "' is not callable"@,
        MethodTag::Next => "type '"@ + receiver.spec_name() + "' is not an iterator"@,
        MethodTag::Iter => "type '"@ + receiver.spec_name() + "' is not iterable"@,
        _ => "type '"@ + receiver.spec_name() + "' does not support '__"@ + method.spec_name()
            + "'"@,
    }
}

impl ErrorKind {
    /// Whether every string and every name that the message of the error
    /// shows is a string of `table`.
    pub open spec fn known(&self, table: Seq<Seq<char>>) -> bool {
        match self {
            ErrorKind::UnhashableValue(value) => known(value@, table),
            ErrorKind::InvalidValue(value, _) => known(value@, table),
            ErrorKind::MissingArguments { signature, .. } => signature@.names_known(table),
            ErrorKind::TooManyArguments { signature, .. } => signature@.names_known(table),
            _ => true,
        }
    }

    /// The message of the error.
    pub open spec fn text(&self, table: Seq<Seq<char>>) -> Seq<Glyph> {
        match self {
            ErrorKind::InvalidUnaryOperand(operand) => glyphs(
                "unsupported operand: '"@ + operand.spec_name() + "'"@,
            ),
            ErrorKind::InvalidBinaryOperand(lhs, rhs) => glyphs(
                "unsupported operands: '"@ + lhs.spec_name() + "' and '"@ + rhs.spec_name() + "'"@,
            ),
            ErrorKind::DivideByZero => glyphs("divide by zero"@),
            ErrorKind::OverflowError => glyphs("integer overflow"@),
            ErrorKind::NegativeShiftCount => glyphs("negative bitshift count"@),
            ErrorKind::NameNotDefined(name) => glyphs("undefined variable \""@ + name@ + "\""@),
            ErrorKind::CantAssignImmutable => glyphs("can't assign to an immutable variable"@),
            ErrorKind::UnhashableValue(value) => show(value@, table, true) + glyphs(
                " is not hashable"@,
            ),
            ErrorKind::AssertFailed => glyphs("assertion failed"@),
            ErrorKind::Other(message) => glyphs(message@),
            ErrorKind::InvalidValue(value, message) => if message@.len() == 0 {
                glyphs("invalid value "@) + show(value@, table, true)
            } else {
                glyphs("invalid value "@) + show(value@, table, true) + glyphs(": "@ + message@)
            },
            ErrorKind::MethodNotSupported(receiver, method) => glyphs(
                unsupported_text(*receiver, *method),
            ),
            ErrorKind::MissingArguments { signature, nargs } => glyphs(
                signature@.short_text(table) + " missing "@ + decimal(
                    missing_count(signature@, *nargs as nat),
                ) + " required "@ + (if missing_count(signature@, *nargs as nat) == 1 {
                    "argument"@
                } else {
                    "arguments"@
                }) + ": "@ + missing_names(signature@, *nargs as int, table),
            ),
            ErrorKind::TooManyArguments { signature, nargs } => glyphs(
                signature@.short_text(table) + " takes "@ + (match signature@.max_arity() {
                    Some(max) => decimal(max),
                    None => "any number of"@,
                }) + " arguments but "@ + decimal(*nargs as nat) + " were given"@,
            ),
        }
    }

    /// Writes the message of the error behind `out`.
    pub fn write_message(&self, table: &StringTable, out: &mut Rendering)
        requires
            self.known(table@),
        ensures
            final(out)@ == old(out)@ + self.text(table@),
    {
        match self {
            ErrorKind::InvalidUnaryOperand(operand) => {
                let mut text = String::from_str("unsupported operand: '");
                text.append(operand.name());
                text.append("'");
                out.push_str(text.as_str());
            },
            ErrorKind::InvalidBinaryOperand(lhs, rhs) => {
                let mut text = String::from_str("unsupported operands: '");
                text.append(lhs.name());
                text.append("' and '");
                text.append(rhs.name());
                text.append("'");
                out.push_str(text.as_str());
            },
            ErrorKind::DivideByZero => out.push_str("divide by zero"),
            ErrorKind::OverflowError => out.push_str("integer overflow"),
            ErrorKind::NegativeShiftCount => out.push_str("negative bitshift count"),
            ErrorKind::NameNotDefined(name) => {
                let mut text = String::from_str("undefined variable \"");
                text.append(name.as_str());
                text.append("\"");
                out.push_str(text.as_str());
            },
            ErrorKind::CantAssignImmutable => out.push_str("can't assign to an immutable variable"),
            ErrorKind::UnhashableValue(value) => {
                value.write(table, true, out);
                out.push_str(" is not hashable");
                assert(out@ =~= old(out)@ + self.text(table@));
            },
            ErrorKind::AssertFailed => out.push_str("assertion failed"),
            ErrorKind::Other(message) => out.push_str(message.as_str()),
            ErrorKind::InvalidValue(value, message) => {
                out.push_str("invalid value ");
                value.write(table, true, out);
                if message.as_str().unicode_len() > 0 {
                    let mut text = String::from_str(": ");
                    text.append(message.as_str());
                    out.push_str(text.as_str());
                }
                assert(out@ =~= old(out)@ + self.text(table@));
            },
            ErrorKind::MethodNotSupported(receiver, method) => {
                let mut text = String::new();
                match method {
                    MethodTag::AsBits => {
                        text.append("can't interpret '");
                        text.append(receiver.name());
                        text.append("' as bitfield");
                    },
                    MethodTag::AsInt => {
                        text.append("can't interpret '");
                        text.append(receiver.name());
                        text.append("' as int");
                    },
                    MethodTag::AsFloat => {
                        text.append("can't interpret '");
                        text.append(receiver.name());
                        text.append("' as float");
                    },
                    MethodTag::Invoke => {
                        text.append("type '");
                        text.append(receiver.name());
                        text.append("' is not callable");
                    },
                    MethodTag::Next => {
                        text.append("type '");
                        text.append(receiver.name());
                        text.append("' is not an iterator");
                    },
                    MethodTag::Iter => {
                        text.append("type '");
                        text.append(receiver.name());
                        text.append("' is not iterable");
                    },
                    _ => {
                        text.append("type '");
                        text.append(receiver.name());
                        text.append("' does not support '__");
                        text.append(method.name());
                        text.append("'");
                    },
                }
                assert(text@ =~= unsupported_text(*receiver, *method));
                out.push_str(text.as_str());
            },
            ErrorKind::MissingArguments { signature, nargs } => {
                let mut text = signature.display_short(table);
                text.append(" missing ");
                let min = signature.min_arity();
                let count = if min >= *nargs {
                    min - *nargs
                } else {
                    0
                };
                write_decimal(count as u64, &mut text);
                text.append(" required ");
                if count == 1 {
                    text.append("argument");
                } else {
                    text.append("arguments");
                }
                text.append(": ");
                let ghost before = text@;
                let required = signature.required();
                let mut i: usize = *nargs;
                while i < required.len()
                    invariant
                        signature@.names_known(table@),
                        required@ == signature@.required,
                        *nargs <= i,
                        text@ + missing_names(signature@, i as int, table@) == before
                            + missing_names(signature@, *nargs as int, table@),
                    decreases required@.len() - i,
                {
                    let ghost prior = text@;
                    let name = required[i].name();
                    assert(signature@.required[i as int].spec_name().index() < table@.len());
                    text.append(table.resolve(&name));
                    if i + 1 < required.len() {
                        text.append(", ");
                    }
                    proof {
                        assert(text@ + missing_names(signature@, i + 1, table@) =~= prior
                            + missing_names(signature@, i as int, table@));
                    }
                    i += 1;
                }
                proof {
                    assert(missing_names(signature@, i as int, table@) =~= Seq::<char>::empty());
                    assert(text@ =~= before + missing_names(signature@, *nargs as int, table@));
                }
                out.push_str(text.as_str());
            },
            ErrorKind::TooManyArguments { signature, nargs } => {
                let mut text = signature.display_short(table);
                text.append(" takes ");
                match signature.max_arity() {
                    Some(max) => write_decimal(max as u64, &mut text),
                    None => text.append("any number of"),
                }
                text.append(" arguments but ");
                write_decimal(*nargs as u64, &mut text);
                text.append(" were given");
                out.push_str(text.as_str());
            },
        }
    }
}

/// An error that stopped a program: what went wrong, the places in the
/// bytecode that it passed on its way out, and the error behind it if there
/// is one.
#[derive(Debug)]
pub struct RuntimeError {
    kind: ErrorKind,
    traceback: Vec<TraceSite>,
    cause: Option<Box<RuntimeError>>,
}

impl From<ErrorKind> for RuntimeError {
    fn from(kind: ErrorKind) -> (error: RuntimeError) {
        RuntimeError::new(kind)
    }
}

impl FromSpecImpl<ErrorKind> for RuntimeError {
    open spec fn obeys_from_spec() -> bool {
        false
    }

    open spec fn from_spec(kind: ErrorKind) -> RuntimeError {
        arbitrary()
    }
}

impl RuntimeError {
    pub closed spec fn spec_kind(&self) -> &ErrorKind {
        &self.kind
    }

    /// The places that the error passed, the innermost first.
    pub closed spec fn trace(&self) -> Seq<TraceSite> {
        self.traceback@
    }

    pub closed spec fn spec_cause(&self) -> Option<Box<RuntimeError>> {
        self.cause
    }

    /// An error of the kind `kind` that has passed no place yet.
    pub fn new(kind: ErrorKind) -> (error: RuntimeError)
        ensures
            *error.spec_kind() == kind,
            error.trace() == Seq::<TraceSite>::empty(),
            error.spec_cause().is_none(),
    {
        RuntimeError { kind, traceback: Vec::new(), cause: None }
    }

    /// An error of the kind `kind`, boxed as results carry it.
    pub fn boxed(kind: ErrorKind) -> (error: Box<RuntimeError>)
        ensures
            *error.spec_kind() == kind,
            error.trace() == Seq::<TraceSite>::empty(),
            error.spec_cause().is_none(),
    {
        Box::new(RuntimeError::new(kind))
    }

    pub fn caused_by(self: Box<Self>, cause: Box<RuntimeError>) -> (error: Box<RuntimeError>)
        ensures
            *error.spec_kind() == *self.spec_kind(),
            error.trace() == self.trace(),
            error.spec_cause() == Some(cause),
    {
        let mut error = self;
        error.cause = Some(cause);
        error
    }

    pub fn extend_trace(self: Box<Self>, trace: Vec<TraceSite>) -> (error: Box<RuntimeError>)
        ensures
            *error.spec_kind() == *self.spec_kind(),
            error.trace() == self.trace() + trace@,
            error.spec_cause() == self.spec_cause(),
    {
        let mut error = self;
        let mut trace = trace;
        error.traceback.append(&mut trace);
        error
    }

    pub fn push_frame(self: Box<Self>, site: TraceSite) -> (error: Box<RuntimeError>)
        ensures
            *error.spec_kind() == *self.spec_kind(),
            error.trace() == self.trace().push(site),
            error.spec_cause() == self.spec_cause(),
    {
        let mut error = self;
        error.traceback.push(site);
        error
    }

    #[verifier::when_used_as_spec(spec_kind)]
    pub fn kind(&self) -> (kind: &ErrorKind)
        ensures
            kind == self.spec_kind(),
    {
        &self.kind
    }

    pub fn traceback(&self) -> (trace: &Vec<TraceSite>)
        ensures
            trace@ == self.trace(),
    {
        &self.traceback
    }

    /// The error behind this one, if there is one.
    pub fn source(&self) -> (cause: Option<&RuntimeError>)
        ensures
            cause == match self.spec_cause() {
                Some(error) => Some(&*error),
                None => None,
            },
    {
        match &self.cause {
            Some(error) => Some(&**error),
            None => None,
        }
    }

    /// Whether every string and every name that the text of the error shows
    /// is a string of `table`.
    pub open spec fn known(&self, table: Seq<Seq<char>>) -> bool
        decreases self,
    {
        &&& self.spec_kind().known(table)
        &&& match self.spec_cause() {
            Some(error) => error.known(table),
            None => true,
        }
    }

    /// The text of the error: its title and its message, then the text of the
    /// error behind it, with colons between them.
    pub open spec fn text(&self, table: Seq<Seq<char>>) -> Seq<Glyph>
        decreases self,
    {
        match self.spec_cause() {
            Some(error) => glyphs("Runtime error: "@) + self.spec_kind().text(table) + glyphs(
                ": "@,
            ) + error.text(table),
            None => glyphs("Runtime error: "@) + self.spec_kind().text(table),
        }
    }

    /// Writes the text of the error behind `out`.
    pub fn write_text(&self, table: &StringTable, out: &mut Rendering)
        requires
            self.known(table@),
        ensures
            final(out)@ == old(out)@ + self.text(table@),
        decreases self,
    {
        out.push_str("Runtime error: ");
        self.kind.write_message(table, out);
        match &self.cause {
            Some(error) => {
                out.push_str(": ");
                error.write_text(table, out);
                assert(out@ =~= old(out)@ + self.text(table@));
            },
            None => {
                assert(out@ =~= old(out)@ + self.text(table@));
            },
        }
    }

    /// The text of the error.
    pub fn message(&self, table: &StringTable) -> (out: Rendering)
        requires
            self.known(table@),
        ensures
            out@ == self.text(table@),
    {
        let mut out = Rendering::new();
        self.write_text(table, &mut out);
        assert(out@ =~= self.text(table@));
        out
    }
}

} // verus!
