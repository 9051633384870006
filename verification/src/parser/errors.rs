//! Parser errors, and the context that gives each error its place in the
//! source text.

use vstd::pervasive::unreached;
use vstd::prelude::*;
use vstd::string::StringExecFns;
use crate::debug::symbol::DebugSymbol;
use crate::lexer::lexer::{LexerError, Span, TokenOut};
use crate::source::ModuleSource;

verus! {

pub type ErrorKind = ParserErrorKind;

/// What went wrong.
#[derive(Debug, Clone, Copy, PartialEq, Eq, Structural)]
pub enum ParserErrorKind {
    LexerError,
    /// The start of an expression was expected.
    ExpectedStartOfExpr,
    ExpectedCloseParen,
    ExpectedCloseSquare,
    ExpectedCloseBrace,
    ExpectedIdentifier,
    /// The left hand side of an assignment cannot be assigned to.
    InvalidAssignmentLHS,
}

impl ParserErrorKind {
    pub open spec fn spec_message(&self) -> Seq<char> {
        match self {
            Self::LexerError => "could not parse token"@,
            Self::ExpectedStartOfExpr => "expected start of expression"@,
            Self::ExpectedCloseParen => "expected closing ')'"@,
            Self::ExpectedCloseSquare => "expected closing ']'"@,
            Self::ExpectedCloseBrace => "expected closing '}'"@,
            Self::ExpectedIdentifier => "expected an identifier"@,
            Self::InvalidAssignmentLHS => "the left hand side of an assignment was invalid"@,
        }
    }

    pub fn message(&self) -> (message: &'static str)
        ensures
            message@ == self.spec_message(),
    {
        match self {
            Self::LexerError => "could not parse token",
            Self::ExpectedStartOfExpr => "expected start of expression",
            Self::ExpectedCloseParen => "expected closing ')'",
            Self::ExpectedCloseSquare => "expected closing ']'",
            Self::ExpectedCloseBrace => "expected closing '}'",
            Self::ExpectedIdentifier => "expected an identifier",
            Self::InvalidAssignmentLHS => "the left hand side of an assignment was invalid",
        }
    }
}

/// The kind of construct that an error came from.
#[derive(Debug, Clone, Copy, PartialEq, Eq, Structural)]
pub enum ContextTag {
    /// Errors in getting the tokens themselves.
    Token,
    Expr,
    Statement,
    AssignmentExpr,
    BinaryOpExpr,
    UnaryOpExpr,
    PrimaryExpr,
    MemberAccess,
    IndexAccess,
    ObjectCtor,
    TupleCtor,
    Atom,
    Group,
}

/// An error that does not know its place yet: the context is added where the
/// parser has it at hand.
#[derive(Debug)]
pub struct ErrorPrototype {
    kind: ErrorKind,
    cause: Option<LexerError>,
}

impl ErrorPrototype {
    pub closed spec fn spec_kind(&self) -> ErrorKind {
        self.kind
    }

    pub closed spec fn spec_cause(&self) -> Option<LexerError> {
        self.cause
    }

    pub fn new(kind: ErrorKind) -> (proto: ErrorPrototype)
        ensures
            proto.spec_kind() == kind,
            proto.spec_cause().is_none(),
    {
        ErrorPrototype { kind, cause: None }
    }

    pub fn caused_by(error: LexerError, kind: ErrorKind) -> (proto: ErrorPrototype)
        ensures
            proto.spec_kind() == kind,
            proto.spec_cause() == Some(error),
    {
        ErrorPrototype { kind, cause: Some(error) }
    }
}

/// A parser error with the construct it is about.
#[derive(Debug)]
pub struct ParserError<'m> {
    kind: ErrorKind,
    module: &'m ModuleSource,
    frame: ContextFrame,
    cause: Option<LexerError>,
}

impl<'m> ParserError<'m> {
    pub closed spec fn spec_kind(&self) -> &ErrorKind {
        &self.kind
    }

    pub closed spec fn spec_module(&self) -> &'m ModuleSource {
        self.module
    }

    pub closed spec fn spec_frame(&self) -> &ContextFrame {
        &self.frame
    }

    pub closed spec fn spec_cause(&self) -> Option<LexerError> {
        self.cause
    }

    /// The error of `proto`, placed at the innermost construct of `context`.
    pub fn from_prototype(proto: ErrorPrototype, context: ErrorContext<'m>) -> (error: ParserError<'m>)
        requires
            context.wf(),
        ensures
            *error.spec_kind() == proto.spec_kind(),
            error.spec_cause() == proto.spec_cause(),
            error.spec_module() == context.spec_module(),
            *error.spec_frame() == context@.last(),
    {
        ParserError {
            kind: proto.kind,
            module: context.module,
            frame: context.take(),
            cause: proto.cause,
        }
    }

    #[verifier::when_used_as_spec(spec_kind)]
    pub fn kind(&self) -> (kind: &ErrorKind)
        ensures
            kind == self.spec_kind(),
    {
        &self.kind
    }

    pub fn module(&self) -> (module: &'m ModuleSource)
        ensures
            module == self.spec_module(),
    {
        self.module
    }

    pub fn frame(&self) -> (frame: &ContextFrame)
        ensures
            frame == self.spec_frame(),
    {
        &self.frame
    }

    /// The lexer error behind this error, if there is one.
    pub fn source(&self) -> (cause: Option<&LexerError>)
        ensures
            cause == match self.spec_cause() {
                Some(error) => Some(&error),
                None => None,
            },
    {
        self.cause.as_ref()
    }

    /// The text of the error: the message of its kind, then a colon and the
    /// message of its cause where it has one.
    pub open spec fn spec_text(&self) -> Seq<char> {
        match self.spec_cause() {
            Some(error) => self.spec_kind().spec_message() + ": "@ + error.message@,
            None => self.spec_kind().spec_message(),
        }
    }

    pub fn text(&self) -> (text: String)
        ensures
            text@ == self.spec_text(),
    {
        let mut text = String::from_str(self.kind.message());
        if let Some(error) = self.source() {
            text.append(": ");
            text.append(error.message.as_str());
        }
        text
    }
}

/// The constructs that the parser is inside of, the innermost last. The
/// parser pushes a frame when it goes into a construct, and pops it when it
/// comes back.
#[derive(Debug)]
pub struct ErrorContext<'m> {
    module: &'m ModuleSource,
    stack: Vec<ContextFrame>,
}

impl<'m> View for ErrorContext<'m> {
    type V = Seq<ContextFrame>;

    closed spec fn view(&self) -> Seq<ContextFrame> {
        self.stack@
    }
}

impl<'m> ErrorContext<'m> {
    pub closed spec fn spec_module(&self) -> &'m ModuleSource {
        self.module
    }

    /// The invariant of the context: it holds a frame.
    pub open spec fn wf(&self) -> bool {
        self@.len() >= 1
    }

    pub fn new(module: &'m ModuleSource, base: ContextTag) -> (context: ErrorContext<'m>)
        ensures
            context.wf(),
            context.spec_module() == module,
            context@ == seq![ContextFrame::spec_new(base)],
    {
        let mut stack: Vec<ContextFrame> = Vec::new();
        stack.push(ContextFrame::new(base));
        ErrorContext { module, stack }
    }

    /// The innermost frame.
    pub fn frame(&self) -> (frame: &ContextFrame)
        requires
            self.wf(),
        ensures
            *frame == self@.last(),
    {
        &self.stack[self.stack.len() - 1]
    }

    pub fn frame_mut(&mut self) -> (frame: &mut ContextFrame)
        requires
            old(self).wf(),
        ensures
            *frame == old(self)@.last(),
            final(self)@ == old(self)@.update(old(self)@.len() - 1, *final(frame)),
            final(self).spec_module() == old(self).spec_module(),
    {
        let last = self.stack.len() - 1;
        &mut self.stack[last]
    }

    /// Goes into a construct.
    pub fn push(&mut self, tag: ContextTag)
        ensures
            final(self)@ == old(self)@.push(ContextFrame::spec_new(tag)),
            final(self).spec_module() == old(self).spec_module(),
    {
        self.stack.push(ContextFrame::new(tag))
    }

    /// Goes into a construct that started where the surrounding one did.
    pub fn push_continuation(&mut self, tag: ContextTag)
        requires
            old(self).wf(),
        ensures
            final(self)@ == old(self)@.push(
                ContextFrame { tag, start: old(self)@.last().start, end: None },
            ),
            final(self).spec_module() == old(self).spec_module(),
    {
        let start = self.frame().start;
        let mut frame = ContextFrame::new(tag);
        frame.set_span(start, None);
        self.stack.push(frame);
    }

    /// Leaves the innermost construct. The outermost one stays.
    pub fn pop(&mut self) -> (frame: ContextFrame)
        requires
            old(self)@.len() > 1,
        ensures
            frame == old(self)@.last(),
            final(self)@ == old(self)@.drop_last(),
            final(self).spec_module() == old(self).spec_module(),
    {
        match self.stack.pop() {
            Some(frame) => frame,
            None => unreached(),
        }
    }

    /// Leaves the innermost construct, and extends the one around it to
    /// cover what the inner one covered.
    pub fn pop_extend(&mut self)
        requires
            old(self)@.len() > 1,
        ensures
            final(self)@ == old(self)@.drop_last().drop_last().push(
                old(self)@[old(self)@.len() - 2].extended(old(self)@.last()),
            ),
            final(self).spec_module() == old(self).spec_module(),
    {
        let inner_frame = self.pop();
        let last = self.stack.len() - 1;
        let mut frame = self.stack[last];
        frame.extend(inner_frame);
        self.stack.set(last, frame);
        assert(self@ =~= old(self)@.drop_last().drop_last().push(
            old(self)@[old(self)@.len() - 2].extended(old(self)@.last()),
        ));
    }

    /// The innermost frame, the context being given up.
    pub fn take(self) -> (frame: ContextFrame)
        requires
            self.wf(),
        ensures
            frame == self@.last(),
    {
        let mut stack = self.stack;
        match stack.pop() {
            Some(frame) => frame,
            None => unreached(),
        }
    }

    /// The kind of the innermost construct.
    pub fn context(&self) -> (tag: ContextTag)
        requires
            self.wf(),
        ensures
            tag == self@.last().tag,
    {
        self.frame().context()
    }

    /// Lets the innermost construct start at `token`.
    pub fn set_start(&mut self, token: &TokenOut)
        requires
            old(self).wf(),
        ensures
            final(self)@ == old(self)@.update(
                old(self)@.len() - 1,
                ContextFrame { start: Some(token.location), ..old(self)@.last() },
            ),
            final(self).spec_module() == old(self).spec_module(),
    {
        let last = self.stack.len() - 1;
        let mut frame = self.stack[last];
        frame.set_start(token);
        self.stack.set(last, frame);
    }

    /// Lets the innermost construct end at `token`.
    pub fn set_end(&mut self, token: &TokenOut)
        requires
            old(self).wf(),
        ensures
            final(self)@ == old(self)@.update(
                old(self)@.len() - 1,
                ContextFrame { end: Some(token.location), ..old(self)@.last() },
            ),
            final(self).spec_module() == old(self).spec_module(),
    {
        let last = self.stack.len() - 1;
        let mut frame = self.stack[last];
        frame.set_end(token);
        self.stack.set(last, frame);
    }
}

/// A construct that the parser is inside of: its kind, and the tokens that
/// it starts and ends with, as far as they are known.
#[derive(Debug, Clone, Copy, PartialEq, Eq, Structural)]
pub struct ContextFrame {
    pub tag: ContextTag,
    pub start: Option<Span>,
    pub end: Option<Span>,
}

/// Whether `first` starts before `second`.
pub open spec fn spec_span_lt(first: &Span, second: &Span) -> bool {
    first.index < second.index
}

#[verifier::when_used_as_spec(spec_span_lt)]
pub fn span_lt(first: &Span, second: &Span) -> (res: bool)
    ensures
        res == spec_span_lt(first, second),
{
    first.index < second.index
}

/// Of two starts the one that comes first, if both are known; else the one
/// that is known.
pub open spec fn earlier(own: Option<Span>, other: Option<Span>) -> Option<Span> {
    match (own, other) {
        (Some(a), Some(b)) => if spec_span_lt(&b, &a) {
            Some(b)
        } else {
            Some(a)
        },
        (None, Some(b)) => Some(b),
        (_, None) => own,
    }
}

/// Of two ends the one that starts last, if both are known; else the one
/// that is known.
pub open spec fn later(own: Option<Span>, other: Option<Span>) -> Option<Span> {
    match (own, other) {
        (Some(a), Some(b)) => if spec_span_lt(&a, &b) {
            Some(b)
        } else {
            Some(a)
        },
        (None, Some(b)) => Some(b),
        (_, None) => own,
    }
}

impl ContextFrame {
    pub open spec fn spec_new(tag: ContextTag) -> ContextFrame {
        ContextFrame { tag, start: None, end: None }
    }

    #[verifier::when_used_as_spec(spec_new)]
    pub fn new(tag: ContextTag) -> (frame: ContextFrame)
        ensures
            frame == ContextFrame::spec_new(tag),
    {
        ContextFrame { tag, start: None, end: None }
    }

    pub fn context(&self) -> (tag: ContextTag)
        ensures
            tag == self.tag,
    {
        self.tag
    }

    pub fn start(&self) -> (start: Option<&Span>)
        ensures
            start == match self.start {
                Some(span) => Some(&span),
                None => None,
            },
    {
        self.start.as_ref()
    }

    pub fn end(&self) -> (end: Option<&Span>)
        ensures
            end == match self.end {
                Some(span) => Some(&span),
                None => None,
            },
    {
        self.end.as_ref()
    }

    pub fn set_start(&mut self, token: &TokenOut)
        ensures
            *final(self) == (ContextFrame { start: Some(token.location), ..*old(self) }),
    {
        self.start = Some(token.location);
    }

    pub fn set_end(&mut self, token: &TokenOut)
        ensures
            *final(self) == (ContextFrame { end: Some(token.location), ..*old(self) }),
    {
        self.end = Some(token.location);
    }

    pub fn set_span(&mut self, start: Option<Span>, end: Option<Span>)
        ensures
            *final(self) == (ContextFrame { start, end, ..*old(self) }),
    {
        self.start = start;
        self.end = end;
    }

    /// The frame extended to cover `other` too: it starts with the earlier
    /// of the two starts and ends with the later of the two ends.
    pub open spec fn extended(self, other: ContextFrame) -> ContextFrame {
        ContextFrame {
            tag: self.tag,
            start: earlier(self.start, other.start),
            end: later(self.end, other.end),
        }
    }

    pub fn extend(&mut self, other: ContextFrame)
        ensures
            *final(self) == old(self).extended(other),
    {
        if self.start.is_some() && other.start.is_some() {
            if span_lt(&other.start.unwrap(), &self.start.unwrap()) {
                self.start = other.start;
            }
        } else if other.start.is_some() {
            self.start = other.start;
        }
        if self.end.is_some() && other.end.is_some() {
            if span_lt(&self.end.unwrap(), &other.end.unwrap()) {
                self.end = other.end;
            }
        } else if other.end.is_some() {
            self.end = other.end;
        }
    }

    /// The first position of the source text that the frame covers, and the
    /// position after the last: from its start to the end of its end, or
    /// the one of the two that is known.
    pub open spec fn covers(&self) -> (int, int) {
        match (self.start, self.end) {
            (Some(start), Some(end)) => (start.index as int, end.index + end.length),
            (Some(span), None) | (None, Some(span)) => (span.index as int, span.index + span.length),
            (None, None) => (0, 0),
        }
    }

    /// The debug symbol of the source text that the frame covers. The frame
    /// must know its start or its end.
    pub fn as_debug_symbol(&self) -> (symbol: DebugSymbol)
        requires
            self.start.is_some() || self.end.is_some(),
            self.covers().1 <= usize::MAX,
        ensures
            symbol.start == self.covers().0,
            symbol.end == self.covers().1,
    {
        match (self.start, self.end) {
            (Some(start), Some(end)) => DebugSymbol::new(start.index, end.index + end.length),
            (Some(span), None) => DebugSymbol::new(span.index, span.index + span.length),
            (None, Some(span)) => DebugSymbol::new(span.index, span.index + span.length),
            (None, None) => unreached(),
        }
    }
}

} // verus!
