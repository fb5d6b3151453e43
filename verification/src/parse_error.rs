use vstd::prelude::*;

use crate::span::Span;

verus! {

/// What the parser expected and did not find.
#[derive(Clone, Copy, Debug, PartialEq, Eq)]
pub enum ParseErrorKind {
    ExpectedItem,
    ExpectedToken(&'static str),
    ExpectedIdentifier,
    ExpectedExpression,
    ExpectedType,
}

impl ParseErrorKind {
    /// The human-readable message of each kind.
    pub open spec fn spec_message(self) -> Seq<char> {
        match self {
            ParseErrorKind::ExpectedItem => "Expected a top-level item (like `fn`, `struct`, or `let`)"@,
            ParseErrorKind::ExpectedToken(token) => "Expected `"@ + token@ + "`"@,
            ParseErrorKind::ExpectedIdentifier => "Expected an identifier"@,
            ParseErrorKind::ExpectedExpression => "Expected an expression"@,
            ParseErrorKind::ExpectedType => "Expected a type"@,
        }
    }

    pub fn message(&self) -> (r: String)
        ensures
            r@ == self.spec_message(),
    {
        match self {
            ParseErrorKind::ExpectedItem => String::from_str(
                "Expected a top-level item (like `fn`, `struct`, or `let`)",
            ),
            ParseErrorKind::ExpectedToken(token) => {
                let mut s = String::from_str("Expected `");
                s.append(token);
                s.append("`");
                s
            },
            ParseErrorKind::ExpectedIdentifier => String::from_str("Expected an identifier"),
            ParseErrorKind::ExpectedExpression => String::from_str("Expected an expression"),
            ParseErrorKind::ExpectedType => String::from_str("Expected a type"),
        }
    }
}

/// A parse error: what was expected, and where.
#[derive(Clone, Copy, Debug, PartialEq, Eq)]
pub struct ParseError {
    pub kind: ParseErrorKind,
    pub span: Span,
}

impl ParseError {
    pub fn new(kind: ParseErrorKind, span: Span) -> (r: Self)
        ensures
            r.kind == kind,
            r.span == span,
    {
        ParseError { kind, span }
    }
}

} // verus!
