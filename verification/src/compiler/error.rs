//! Compile errors and the text of their messages.

use vstd::prelude::*;
use vstd::string::StringExecFns;
use crate::span::Span;

verus! {

/// What went wrong.
#[derive(Clone, Copy, Debug, PartialEq, Eq, Structural)]
pub enum ErrorKind {
    /// A reference to a name that the current function does not bind.
    UndefinedVariable,
    /// A reference to `_`, which binds nothing.
    IllegalDiscardReference,
    /// A call of a function that has not been defined yet.
    UndefinedFunction,
    /// A call with `actual` arguments of a function of `expected` parameters.
    ArityMismatch { expected: usize, actual: usize },
    /// A block without an expression has no value.
    EmptyBlock,
    /// The backend's verifier refused a function; the message is its dump.
    FunctionVerificationFailed,
    /// The backend's verifier refused the module; the message is its
    /// diagnostic.
    ModuleVerificationFailed,
}

/// A compile error: its kind, the source range it arose from, and a message.
#[derive(Debug, PartialEq, Eq)]
pub struct CompilerError {
    pub kind: ErrorKind,
    pub span: Span,
    pub message: String,
}

/// Model of [`CompilerError`].
pub struct CompilerErrorView {
    pub kind: ErrorKind,
    pub span: Span,
    pub message: Seq<char>,
}

impl View for CompilerError {
    type V = CompilerErrorView;

    open spec fn view(&self) -> CompilerErrorView {
        CompilerErrorView { kind: self.kind, span: self.span, message: self.message@ }
    }
}

/// The decimal digit `d`.
pub open spec fn digit(d: nat) -> Seq<char> {
    if d == 0 {
        "0"@
    } else if d == 1 {
        "1"@
    } else if d == 2 {
        "2"@
    } else if d == 3 {
        "3"@
    } else if d == 4 {
        "4"@
    } else if d == 5 {
        "5"@
    } else if d == 6 {
        "6"@
    } else if d == 7 {
        "7"@
    } else if d == 8 {
        "8"@
    } else {
        "9"@
    }
}

/// `n` in decimal, without leading zeros.
pub open spec fn decimal(n: nat) -> Seq<char>
    decreases n,
{
    if n < 10 {
        digit(n)
    } else {
        decimal(n / 10) + digit(n % 10)
    }
}

/// A span as `line:lo..hi`.
pub open spec fn span_text(span: Span) -> Seq<char> {
    decimal(span.line as nat) + ":"@ + decimal(span.lo as nat) + ".."@ + decimal(span.hi as nat)
}

/// The message of each kind of error that the generator raises itself, for
/// the name (where the kind has one) and the place it arose at.
pub open spec fn message_text(kind: ErrorKind, name: Seq<char>, span: Span) -> Seq<char> {
    match kind {
        ErrorKind::UndefinedVariable => "Unknown variable ref "@ + name + " at "@ + span_text(span),
        ErrorKind::IllegalDiscardReference => "Illegal reference _ at "@ + span_text(span),
        ErrorKind::UndefinedFunction => "Unknown function ref "@ + name + " at "@ + span_text(span),
        ErrorKind::ArityMismatch { expected, actual } => "WrongArgumentsCount { expected: "@ + decimal(
            expected as nat,
        ) + ", actual: "@ + decimal(actual as nat) + " }"@,
        ErrorKind::EmptyBlock => "Found empty block which is invalid value! "@ + span_text(span),
        ErrorKind::FunctionVerificationFailed => name,
        ErrorKind::ModuleVerificationFailed => name,
    }
}

/// The error of the given kind at `span`; `name` is the name the error is
/// about or, for a refusal by the verifier, the verifier's text.
pub open spec fn error_of(kind: ErrorKind, name: Seq<char>, span: Span) -> CompilerErrorView {
    CompilerErrorView { kind, span, message: message_text(kind, name, span) }
}

fn digit_str(d: usize) -> (s: &'static str)
    requires
        d < 10,
    ensures
        s@ == digit(d as nat),
{
    if d == 0 {
        "0"
    } else if d == 1 {
        "1"
    } else if d == 2 {
        "2"
    } else if d == 3 {
        "3"
    } else if d == 4 {
        "4"
    } else if d == 5 {
        "5"
    } else if d == 6 {
        "6"
    } else if d == 7 {
        "7"
    } else if d == 8 {
        "8"
    } else {
        "9"
    }
}

/// `n` written in decimal.
pub fn decimal_string(n: usize) -> (s: String)
    ensures
        s@ == decimal(n as nat),
    decreases n,
{
    if n < 10 {
        String::from_str(digit_str(n))
    } else {
        let mut s = decimal_string(n / 10);
        s.append(digit_str(n % 10));
        s
    }
}

/// A span written as `line:lo..hi`.
pub fn pretty_span(span: &Span) -> (s: String)
    ensures
        s@ == span_text(*span),
{
    let mut s = decimal_string(span.line);
    s.append(":");
    let lo = decimal_string(span.lo);
    s.append(lo.as_str());
    s.append("..");
    let hi = decimal_string(span.hi);
    s.append(hi.as_str());
    s
}

impl CompilerError {
    /// The error of the given kind at `span`, with its message.
    pub fn new(kind: ErrorKind, name: &str, span: Span) -> (e: CompilerError)
        ensures
            e@ == error_of(kind, name@, span),
    {
        let message = match kind {
            ErrorKind::UndefinedVariable => {
                let mut m = String::from_str("Unknown variable ref ");
                m.append(name);
                m.append(" at ");
                let at = pretty_span(&span);
                m.append(at.as_str());
                m
            },
            ErrorKind::IllegalDiscardReference => {
                let mut m = String::from_str("Illegal reference _ at ");
                let at = pretty_span(&span);
                m.append(at.as_str());
                m
            },
            ErrorKind::UndefinedFunction => {
                let mut m = String::from_str("Unknown function ref ");
                m.append(name);
                m.append(" at ");
                let at = pretty_span(&span);
                m.append(at.as_str());
                m
            },
            ErrorKind::ArityMismatch { expected, actual } => {
                let mut m = String::from_str("WrongArgumentsCount { expected: ");
                let e = decimal_string(expected);
                m.append(e.as_str());
                m.append(", actual: ");
                let a = decimal_string(actual);
                m.append(a.as_str());
                m.append(" }");
                m
            },
            ErrorKind::EmptyBlock => {
                let mut m = String::from_str("Found empty block which is invalid value! ");
                let at = pretty_span(&span);
                m.append(at.as_str());
                m
            },
            ErrorKind::FunctionVerificationFailed => String::from_str(name),
            ErrorKind::ModuleVerificationFailed => String::from_str(name),
        };
        CompilerError { kind, span, message }
    }

    /// The message, for display.
    pub fn to_string(&self) -> (s: String)
        ensures
            s@ == self.message@,
    {
        self.message.clone()
    }
}

} // verus!
