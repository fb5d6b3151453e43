use vstd::prelude::*;

use crate::diagnostic::{coded_diagnostic, coded_message, Diagnostic, Severity};
use crate::span::Span;

verus! {

/// Error codes reported by name resolution.
#[derive(Clone, Copy, Debug, PartialEq, Eq, Structural)]
pub enum ResolverErrorCode {
    UnknownName,
    UnknownVariable,
    UnknownFunction,
    DuplicateName,
    UnknownField,
    UnknownEnumVariant,
    NotCallable,
    DuplicateField,
    DuplicateVariant,
    DangerousNameCollision,
}

impl ResolverErrorCode {
    /// The textual code, `E0100` through `E0109`, in declaration order.
    pub open spec fn spec_code(self) -> Seq<char> {
        match self {
            ResolverErrorCode::UnknownName => "E0100"@,
            ResolverErrorCode::UnknownVariable => "E0101"@,
            ResolverErrorCode::UnknownFunction => "E0102"@,
            ResolverErrorCode::DuplicateName => "E0103"@,
            ResolverErrorCode::UnknownField => "E0104"@,
            ResolverErrorCode::UnknownEnumVariant => "E0105"@,
            ResolverErrorCode::NotCallable => "E0106"@,
            ResolverErrorCode::DuplicateField => "E0107"@,
            ResolverErrorCode::DuplicateVariant => "E0108"@,
            ResolverErrorCode::DangerousNameCollision => "E0109"@,
        }
    }

    pub fn as_str(self) -> (r: &'static str)
        ensures
            r@ == self.spec_code(),
    {
        match self {
            ResolverErrorCode::UnknownName => "E0100",
            ResolverErrorCode::UnknownVariable => "E0101",
            ResolverErrorCode::UnknownFunction => "E0102",
            ResolverErrorCode::DuplicateName => "E0103",
            ResolverErrorCode::UnknownField => "E0104",
            ResolverErrorCode::UnknownEnumVariant => "E0105",
            ResolverErrorCode::NotCallable => "E0106",
            ResolverErrorCode::DuplicateField => "E0107",
            ResolverErrorCode::DuplicateVariant => "E0108",
            ResolverErrorCode::DangerousNameCollision => "E0109",
        }
    }
}

/// A resolver diagnostic: its message is `<code>: <message>`.
pub fn diagnostic(code: ResolverErrorCode, message: &str, span: Span) -> (r: Diagnostic)
    ensures
        reported_as(r, code, span),
        r.message@ == coded_message(code.spec_code(), message@),
        r.span == span,
        r.hints@.len() == 0,
{
    coded_diagnostic(code.as_str(), message, span)
}

/// `d` is an error with code `code` at `span`: its message is the code,
/// a colon and a text.
pub open spec fn reported_as(d: Diagnostic, code: ResolverErrorCode, span: Span) -> bool {
    &&& d.severity == Severity::Error
    &&& d.span == span
    &&& exists|t: Seq<char>| d.message@ == coded_message(code.spec_code(), t)
}

/// Distinct resolver errors carry distinct codes.
pub proof fn lemma_resolver_codes_distinct(a: ResolverErrorCode, b: ResolverErrorCode)
    requires
        a != b,
    ensures
        a.spec_code() != b.spec_code(),
{
    reveal_strlit("E0100");
    reveal_strlit("E0101");
    reveal_strlit("E0102");
    reveal_strlit("E0103");
    reveal_strlit("E0104");
    reveal_strlit("E0105");
    reveal_strlit("E0106");
    reveal_strlit("E0107");
    reveal_strlit("E0108");
    reveal_strlit("E0109");
    if a.spec_code() == b.spec_code() {
        assert(a.spec_code()[4] == b.spec_code()[4]);
    }
}

} // verus!
