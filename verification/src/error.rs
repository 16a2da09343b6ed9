//! The ways in which a literal is refused.

use crate::tokens::{stream_new, stream_view, Delim, Tok};
use proc_macro2::TokenStream;
use vstd::prelude::*;

verus! {

/// The three shapes of a literal.
#[derive(Clone, Copy, Debug, PartialEq, Eq, Structural)]
pub enum Shape {
    /// No fields: nothing, or a name alone.
    Unit,
    /// Fields by position, in parentheses.
    Tuple,
    /// Fields by name, in braces.
    Named,
}

/// Why a literal is refused.
#[derive(Clone, Copy, Debug, PartialEq, Eq, Structural)]
pub enum ErrorKind {
    /// A tuple or named literal without a single field.
    EmptyArguments(Shape),
    /// The group that the shape begins with is not there.
    ExpectedGroup(Delim),
    /// A field does not begin with an identifier.
    ExpectedIdentifier,
    /// A field is followed by something other than a comma.
    ExpectedComma,
    /// A token stands where the literal has ended, or an expression was
    /// read without a token of it being used up.
    UnexpectedToken,
    /// What stands in the place of an expression is none.
    InvalidExpression,
}

impl ErrorKind {
    /// The words of the diagnostic.
    pub open spec fn message_text(self) -> Seq<char> {
        match self {
            ErrorKind::EmptyArguments(_) => "expect at least one argument"@,
            ErrorKind::ExpectedGroup(Delim::Paren) => "expected parentheses"@,
            ErrorKind::ExpectedGroup(Delim::Brace) => "expected curly braces"@,
            ErrorKind::ExpectedGroup(Delim::Bracket) => "expected square brackets"@,
            ErrorKind::ExpectedGroup(Delim::Invisible) => "expected invisible group"@,
            ErrorKind::ExpectedIdentifier => "expected identifier"@,
            ErrorKind::ExpectedComma => "expected `,`"@,
            ErrorKind::UnexpectedToken => "unexpected token"@,
            ErrorKind::InvalidExpression => "expected an expression"@,
        }
    }

    /// The words of the diagnostic.
    pub fn message(&self) -> (text: &'static str)
        ensures
            text@ == self.message_text(),
    {
        match self {
            ErrorKind::EmptyArguments(_) => "expect at least one argument",
            ErrorKind::ExpectedGroup(Delim::Paren) => "expected parentheses",
            ErrorKind::ExpectedGroup(Delim::Brace) => "expected curly braces",
            ErrorKind::ExpectedGroup(Delim::Bracket) => "expected square brackets",
            ErrorKind::ExpectedGroup(Delim::Invisible) => "expected invisible group",
            ErrorKind::ExpectedIdentifier => "expected identifier",
            ErrorKind::ExpectedComma => "expected `,`",
            ErrorKind::UnexpectedToken => "unexpected token",
            ErrorKind::InvalidExpression => "expected an expression",
        }
    }
}

/// A refusal, spans left aside: the reason, and the token that the
/// diagnostic points at, or no token where it points at the invocation as a
/// whole.
pub struct Refusal {
    pub kind: ErrorKind,
    pub at: Seq<Tok>,
}

/// A literal that was refused: why, the token to report it at (none for
/// the call site), and what the parser of expressions had to say where it
/// was the one to refuse.
#[derive(Debug)]
pub struct ExpandError {
    pub kind: ErrorKind,
    pub at: TokenStream,
    pub source: Option<syn::Error>,
}

impl ExpandError {
    /// True of the refusal `refusal`, which carries the words of the
    /// parser of expressions if and only if it was that parser that
    /// refused.
    pub open spec fn is_refusal(&self, refusal: Refusal) -> bool {
        &&& self.kind == refusal.kind
        &&& stream_view(self.at) == refusal.at
        &&& self.source is Some <==> refusal.kind == ErrorKind::InvalidExpression
    }

    /// A refusal of the library's own, to be reported at `at`.
    pub fn new(kind: ErrorKind, at: TokenStream) -> (e: ExpandError)
        ensures
            e.kind == kind,
            e.at == at,
            e.source is None,
    {
        ExpandError { kind, at, source: None }
    }

    /// A refusal by the parser of expressions, which says itself where it
    /// is to be reported.
    pub fn expression(source: syn::Error) -> (e: ExpandError)
        ensures
            e.kind == ErrorKind::InvalidExpression,
            stream_view(e.at) == Seq::<Tok>::empty(),
            e.source == Some(source),
    {
        ExpandError { kind: ErrorKind::InvalidExpression, at: stream_new(), source: Some(source) }
    }
}

} // verus!
