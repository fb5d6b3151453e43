use vstd::prelude::*;

use crate::diagnostic::Severity;
use crate::diagnostic::{coded_diagnostic, coded_message, Diagnostic};
use crate::span::Span;

verus! {

/// Error codes reported by the memory-safety checker.
#[derive(Clone, Copy, Debug, PartialEq, Eq, Structural)]
pub enum MemoryErrorCode {
    UseAfterMove,
    MoveWhileBorrowed,
    ReturnReferenceToLocal,
    ReferenceEscapesFunction,
    BorrowConflict,
    MutableBorrowConflict,
    ImmutableBorrowConflict,
    MutationWhileBorrowed,
    MutationWithoutMut,
    MutableRefToImmutable,
}

impl MemoryErrorCode {
    /// Moves are `E030x`, borrow conflicts `E040x`, mutability `E041x`.
    pub open spec fn spec_code(self) -> Seq<char> {
        match self {
            MemoryErrorCode::UseAfterMove => "E0300"@,
            MemoryErrorCode::MoveWhileBorrowed => "E0301"@,
            MemoryErrorCode::ReturnReferenceToLocal => "E0302"@,
            MemoryErrorCode::ReferenceEscapesFunction => "E0303"@,
            MemoryErrorCode::BorrowConflict => "E0400"@,
            MemoryErrorCode::MutableBorrowConflict => "E0401"@,
            MemoryErrorCode::ImmutableBorrowConflict => "E0402"@,
            MemoryErrorCode::MutationWhileBorrowed => "E0403"@,
            MemoryErrorCode::MutationWithoutMut => "E0410"@,
            MemoryErrorCode::MutableRefToImmutable => "E0411"@,
        }
    }

    pub fn as_str(self) -> (r: &'static str)
        ensures
            r@ == self.spec_code(),
    {
        match self {
            MemoryErrorCode::UseAfterMove => "E0300",
            MemoryErrorCode::MoveWhileBorrowed => "E0301",
            MemoryErrorCode::ReturnReferenceToLocal => "E0302",
            MemoryErrorCode::ReferenceEscapesFunction => "E0303",
            MemoryErrorCode::BorrowConflict => "E0400",
            MemoryErrorCode::MutableBorrowConflict => "E0401",
            MemoryErrorCode::ImmutableBorrowConflict => "E0402",
            MemoryErrorCode::MutationWhileBorrowed => "E0403",
            MemoryErrorCode::MutationWithoutMut => "E0410",
            MemoryErrorCode::MutableRefToImmutable => "E0411",
        }
    }
}

/// A memory-checker diagnostic: its message is `<code>: <message>`.
pub fn diagnostic(code: MemoryErrorCode, message: &str, span: Span) -> (r: Diagnostic)
    ensures
        r.severity == Severity::Error,
        r.code is None,
        r.message@ == coded_message(code.spec_code(), message@),
        r.span == span,
        r.hints@.len() == 0,
{
    coded_diagnostic(code.as_str(), message, span)
}

/// Distinct memory errors carry distinct codes.
pub proof fn lemma_memory_codes_distinct(a: MemoryErrorCode, b: MemoryErrorCode)
    requires
        a != b,
    ensures
        a.spec_code() != b.spec_code(),
{
    reveal_strlit("E0300");
    reveal_strlit("E0301");
    reveal_strlit("E0302");
    reveal_strlit("E0303");
    reveal_strlit("E0400");
    reveal_strlit("E0401");
    reveal_strlit("E0402");
    reveal_strlit("E0403");
    reveal_strlit("E0410");
    reveal_strlit("E0411");
    if a.spec_code() == b.spec_code() {
        assert(a.spec_code()[2] == b.spec_code()[2]);
        assert(a.spec_code()[3] == b.spec_code()[3]);
        assert(a.spec_code()[4] == b.spec_code()[4]);
    }
}

} // verus!
