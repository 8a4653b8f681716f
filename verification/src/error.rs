use vstd::prelude::*;

verus! {

// Structured, span-tagged diagnostics from compiling one expression. The X
// and Y axes compile independently, so a pair of expressions yields up to
// two of these, one per axis.

/// A byte range of the source text implicated in an error.
#[derive(Clone, Copy, Debug, PartialEq, Eq, Structural)]
pub struct Span {
    pub start: usize,
    pub end: usize,
}

/// What went wrong while compiling an expression.
#[derive(Clone, Copy, Debug, PartialEq, Eq, Structural)]
pub enum ErrorKind {
    /// A byte that no token may contain.
    InvalidChar,
    /// A numeric literal that does not denote a value.
    BadNumber,
    /// An identifier that names no channel, no constant, and not `time`.
    UnknownIdent,
    /// A call of a name that is not a known function.
    UnknownFun,
    /// A function called with the wrong number of arguments.
    WrongArgCount,
    /// An operand was needed but something else (or the end) was found.
    ExpectedOperand,
    /// A closing parenthesis was needed.
    ExpectedParen,
    /// Input continued after a complete expression.
    TrailingToken,
    /// The expression was empty.
    EmptyExpr,
    /// The compiled code failed its final well-formedness check.
    Malformed,
}

/// One compile diagnostic: its kind and the source spans it implicates.
#[derive(Clone, Debug)]
pub struct CompileError {
    pub kind: ErrorKind,
    pub spans: Vec<Span>,
}

impl CompileError {
    /// A diagnostic with a single span.
    pub fn new(kind: ErrorKind, start: usize, end: usize) -> (r: CompileError)
        ensures
            r.kind == kind,
            r.spans@.len() == 1,
            r.spans@[0] == (Span { start, end }),
    {
        CompileError { kind, spans: vec![Span { start, end }] }
    }

    /// A short description of the kind, for display beside the input.
    pub fn message(&self) -> (r: &'static str)
        ensures
            r@ == spec_message(self.kind),
    {
        match self.kind {
            ErrorKind::InvalidChar => "invalid character",
            ErrorKind::BadNumber => "invalid number literal",
            ErrorKind::UnknownIdent => "unknown variable",
            ErrorKind::UnknownFun => "unknown function",
            ErrorKind::WrongArgCount => "wrong number of arguments",
            ErrorKind::ExpectedOperand => "expected an operand",
            ErrorKind::ExpectedParen => "expected a closing parenthesis",
            ErrorKind::TrailingToken => "unexpected trailing input",
            ErrorKind::EmptyExpr => "empty expression",
            ErrorKind::Malformed => "malformed program",
        }
    }
}

/// The message text that belongs to each error kind.
pub open spec fn spec_message(kind: ErrorKind) -> Seq<char> {
    match kind {
        ErrorKind::InvalidChar => "invalid character"@,
        ErrorKind::BadNumber => "invalid number literal"@,
        ErrorKind::UnknownIdent => "unknown variable"@,
        ErrorKind::UnknownFun => "unknown function"@,
        ErrorKind::WrongArgCount => "wrong number of arguments"@,
        ErrorKind::ExpectedOperand => "expected an operand"@,
        ErrorKind::ExpectedParen => "expected a closing parenthesis"@,
        ErrorKind::TrailingToken => "unexpected trailing input"@,
        ErrorKind::EmptyExpr => "empty expression"@,
        ErrorKind::Malformed => "malformed program"@,
    }
}

/// The per-axis diagnostics of one expression pair: `x` or `y` is `Some`
/// exactly when that axis failed to compile. The two are independent.
#[derive(Debug)]
pub struct ExprError {
    pub x: Option<CompileError>,
    pub y: Option<CompileError>,
}

} // verus!
