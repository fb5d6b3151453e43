use vstd::prelude::*;

use crate::span::Span;

verus! {

/// How serious a diagnostic is.
#[derive(Clone, Copy, Debug, PartialEq, Eq, Structural)]
pub enum Severity {
    Error,
    Warning,
    Hint,
    Information,
}

/// A language diagnostic: a message attached to a source span, with its
/// severity, an optional code, and hints.
#[derive(Debug)]
pub struct Diagnostic {
    pub severity: Severity,
    pub code: Option<String>,
    pub message: String,
    pub span: Span,
    pub hints: Vec<String>,
}

impl Diagnostic {
    /// An error with no code and no hint.
    pub fn new(message: String, span: Span) -> (r: Self)
        ensures
            r.severity == Severity::Error,
            r.code is None,
            r.message@ == message@,
            r.span == span,
            r.hints@.len() == 0,
    {
        Diagnostic { severity: Severity::Error, code: None, message, span, hints: Vec::new() }
    }

    /// Attach one more hint.
    pub fn with_hint(self, hint: &str) -> (r: Self)
        ensures
            r.severity == self.severity,
            r.code == self.code,
            r.message@ == self.message@,
            r.span == self.span,
            r.hints@.len() == self.hints@.len() + 1,
            forall|i: int| 0 <= i < self.hints@.len() ==> r.hints@[i]@ == #[trigger] self.hints@[i]@,
            r.hints@[self.hints@.len() as int]@ == hint@,
    {
        let mut d = self;
        d.hints.push(String::from_str(hint));
        d
    }
}

/// `code: message`, the form every coded diagnostic message takes.
pub open spec fn coded_message(code: Seq<char>, message: Seq<char>) -> Seq<char> {
    code + ": "@ + message
}

/// Builds a diagnostic whose message is `code: message`.
pub fn coded_diagnostic(code: &str, message: &str, span: Span) -> (r: Diagnostic)
    ensures
        r.severity == Severity::Error,
        r.code is None,
        r.message@ == coded_message(code@, message@),
        r.span == span,
        r.hints@.len() == 0,
{
    let mut text = String::from_str(code);
    text.append(": ");
    text.append(message);
    Diagnostic::new(text, span)
}

} // verus!
