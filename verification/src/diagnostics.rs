use vstd::prelude::*;
use vstd::utf8::is_char_boundary;

use crate::chars::{
    char_is_alphanumeric, char_is_white_space, is_white_space, push_all, push_str,
    string_from_chars, sub_vec, trim_start, unicode_alphanumeric,
};
use crate::diagnostic::{Diagnostic, Severity};
use crate::document::{spec_offset_to_position, Document, Position, Range};
use crate::rope::byte_offset;
use crate::span::Span;
use crate::text::bytes_of;
use crate::utf::chars_of;

verus! {

/// `offset`, but no further than the end of `s`.
pub open spec fn clamp_offset(s: Seq<char>, offset: int) -> int {
    if offset < bytes_of(s).len() {
        offset
    } else {
        bytes_of(s).len() as int
    }
}

/// Whether `offset`, clamped to the text, falls between two characters.
pub open spec fn on_boundary(s: Seq<char>, offset: int) -> bool {
    exists|k: int| 0 <= k <= s.len() && byte_offset(s, k) == clamp_offset(s, offset)
}

/// The position of byte `offset`, clamped to the text.
pub open spec fn position_at(s: Seq<char>, offset: int) -> Position {
    spec_offset_to_position(
        s,
        choose|k: int| 0 <= k <= s.len() && byte_offset(s, k) == clamp_offset(s, offset),
    )
}

/// Where an empty span ends: one byte after its start.
pub open spec fn span_end(span: Span) -> int {
    if span.end > span.start + 1 {
        span.end as int
    } else {
        span.start + 1
    }
}

/// The editor range of `span`; an empty span covers one byte.
pub fn span_to_range(document: &Document, span: Span) -> (r: Range)
    requires
        span.start < u32::MAX,
        on_boundary(document.text_view(), span.start as int),
        on_boundary(document.text_view(), span_end(span)),
    ensures
        r.start == position_at(document.text_view(), span.start as int),
        r.end == position_at(document.text_view(), span_end(span)),
{
    let end = if span.end > span.start + 1 {
        span.end
    } else {
        span.start + 1
    };
    let start = document.offset_to_position(span.start as usize);
    let end = document.offset_to_position(end as usize);
    Range::new(start, end)
}

/// A byte that may stand in an identifier when read as a character.
pub open spec fn ident_byte(b: u8) -> bool {
    unicode_alphanumeric(b as char) || b == 0x5fu8
}

/// Whether the occurrence of `nm` at `p` in `sub` stands alone: no
/// identifier byte right before or right after it.
pub open spec fn stands_alone(sub: Seq<u8>, nm: Seq<u8>, p: int) -> bool {
    &&& (p == 0 || !ident_byte(sub[p - 1]))
    &&& (p + nm.len() >= sub.len() || !ident_byte(sub[p + nm.len()]))
}

/// Scanning `sub` from `pos` for `nm`: an occurrence that stands alone is
/// the answer; after one that does not, the scan resumes past its end.
pub open spec fn scan_name(sub: Seq<u8>, nm: Seq<u8>, pos: int) -> Option<int>
    decreases sub.len() - pos,
{
    if nm.len() == 0 || pos < 0 || pos + nm.len() > sub.len() {
        None
    } else if sub.subrange(pos, pos + nm.len()) == nm {
        if stands_alone(sub, nm, pos) {
            Some(pos)
        } else {
            scan_name(sub, nm, pos + nm.len())
        }
    } else {
        scan_name(sub, nm, pos + 1)
    }
}

/// The span of `name` itself inside `span`: the first occurrence found by
/// `scan_name` in the text of the span. The span stays as it is when it is
/// no longer than the name, does not lie within the text, or holds no
/// such occurrence.
pub open spec fn spec_adjust_span(t: Seq<u8>, span: Span, nm: Seq<u8>) -> Span {
    if span.end - span.start <= nm.len() {
        span
    } else if span.end > t.len() || span.start >= span.end {
        span
    } else {
        match scan_name(t.subrange(span.start as int, span.end as int), nm, 0) {
            Some(p) => Span {
                file: span.file,
                start: (span.start + p) as u32,
                end: (span.start + p + nm.len()) as u32,
            },
            None => span,
        }
    }
}

fn byte_is_ident(b: u8) -> (r: bool)
    ensures
        r == ident_byte(b),
{
    char_is_alphanumeric(b as char) || b == 0x5fu8
}

/// Whether `nm` occurs in `t` at `at`.
fn occurs_at(t: &[u8], at: usize, nm: &[u8]) -> (r: bool)
    requires
        at + nm@.len() <= t@.len(),
    ensures
        r == (t@.subrange(at as int, at + nm@.len()) == nm@),
{
    let tl = t.len();
    let mut j: usize = 0;
    while j < nm.len()
        invariant
            tl == t@.len(),
            at + nm@.len() <= t@.len(),
            0 <= j <= nm@.len(),
            forall|k: int| 0 <= k < j ==> t@[at + k] == nm@[k],
        decreases nm@.len() - j,
    {
        if t[at + j] != nm[j] {
            proof {
                assert(t@.subrange(at as int, at + nm@.len())[j as int] != nm@[j as int]);
            }
            return false;
        }
        j = j + 1;
    }
    proof {
        assert(t@.subrange(at as int, at + nm@.len()) =~= nm@);
    }
    true
}

/// Narrows `span` to the occurrence of `name` in `text` that stands alone
/// (see `spec_adjust_span`).
pub fn adjust_span(text: &str, span: Span, name: &str) -> (r: Span)
    requires
        span.start <= span.end,
        bytes_of(name@).len() > 0,
        span.end - span.start > bytes_of(name@).len() && span.end <= bytes_of(text@).len()
            && span.start < span.end ==> is_char_boundary(bytes_of(text@), span.start as int)
            && is_char_boundary(bytes_of(text@), span.end as int),
    ensures
        r == spec_adjust_span(bytes_of(text@), span, bytes_of(name@)),
{
    let t = text.as_bytes();
    let nm = name.as_bytes();
    let ghost tb = bytes_of(text@);
    let ghost nb = bytes_of(name@);
    assert(t@ == tb);
    assert(nm@ == nb);
    if ((span.end - span.start) as usize) <= nm.len() {
        return span;
    }
    let start = span.start as usize;
    let end = span.end as usize;
    if end > t.len() || start >= end {
        return span;
    }
    let ghost sub = tb.subrange(start as int, end as int);
    let n = nm.len();
    let len = end - start;
    let mut pos: usize = 0;
    while pos <= len - n
        invariant
            t@ == tb,
            nm@ == nb,
            tb == bytes_of(text@),
            nb == bytes_of(name@),
            n == nb.len(),
            0 < n < len,
            len == end - start,
            start == span.start,
            end == span.end,
            start < end <= tb.len(),
            sub == tb.subrange(start as int, end as int),
            pos <= len,
            scan_name(sub, nb, 0) == scan_name(sub, nb, pos as int),
            span.end - span.start > nb.len(),
        decreases len - pos,
    {
        let here = occurs_at(t, start + pos, nm);
        proof {
            assert(tb.subrange(start + pos, start + pos + n) =~= sub.subrange(pos as int, pos + n));
        }
        if here {
            let before_ok = if pos == 0 {
                true
            } else {
                !byte_is_ident(t[start + pos - 1])
            };
            let after_ok = if pos + n >= len {
                true
            } else {
                !byte_is_ident(t[start + pos + n])
            };
            proof {
                if pos > 0 {
                    assert(sub[pos - 1] == tb[start + pos - 1]);
                }
                if pos + n < len {
                    assert(sub[pos + n] == tb[start + pos + n]);
                }
            }
            if before_ok && after_ok {
                proof {
                    assert(sub.len() == len);
                    assert(stands_alone(sub, nb, pos as int));
                    assert(sub.subrange(pos as int, pos + nb.len()) == nb);
                    assert(scan_name(sub, nb, pos as int) == Some(pos as int));
                    assert(pos + n <= len <= u32::MAX);
                }
                let p32 = pos as u32;
                let n32 = n as u32;
                let new_start = span.start + p32;
                let r = Span::new(span.file, new_start, new_start + n32);
                proof {
                    assert(!(span.end - span.start <= nb.len()));
                    assert(!(span.end > tb.len() || span.start >= span.end));
                    assert(tb.subrange(span.start as int, span.end as int) == sub);
                    assert(scan_name(tb.subrange(span.start as int, span.end as int), nb, 0) == Some(pos as int));
                    assert(r.start == (span.start + pos) as u32);
                    assert(r.end == (span.start + pos + nb.len()) as u32);
                }
                return r;
            }
            pos = pos + n;
        } else {
            pos = pos + 1;
        }
    }
    proof {
        assert(scan_name(sub, nb, pos as int) is None);
    }
    span
}

/// The first white-space-separated word of `s`, if there is one.
pub open spec fn first_word(s: Seq<char>) -> Option<Seq<char>> {
    let t = trim_start(s);
    if t.len() == 0 {
        None
    } else {
        Some(t.take(word_len(t)))
    }
}

/// Length of the run of characters before the first white space.
pub open spec fn word_len(t: Seq<char>) -> int
    decreases t.len(),
{
    if t.len() == 0 || is_white_space(t[0]) {
        0
    } else {
        1 + word_len(t.drop_first())
    }
}

/// The code a message starts with: a first word made of `E` and four
/// ASCII digits.
pub open spec fn spec_diagnostic_code(message: Seq<char>) -> Option<Seq<char>> {
    match first_word(message) {
        Some(w) => if w.len() == 5 && w[0] == 'E' && forall|i: int|
            1 <= i < 5 ==> '0' <= #[trigger] w[i] <= '9' {
            Some(w)
        } else {
            None
        },
        None => None,
    }
}

proof fn lemma_trim_start_skip(s: Seq<char>, i: int)
    requires
        0 <= i <= s.len(),
        forall|j: int| 0 <= j < i ==> is_white_space(#[trigger] s[j]),
    ensures
        trim_start(s) == trim_start(s.skip(i)),
    decreases i,
{
    if i > 0 {
        assert(s.drop_first().skip(i - 1) =~= s.skip(i));
        assert forall|j: int| 0 <= j < i - 1 implies is_white_space(#[trigger] s.drop_first()[j]) by {
            assert(s.drop_first()[j] == s[j + 1]);
        }
        lemma_trim_start_skip(s.drop_first(), i - 1);
    } else {
        assert(s.skip(0) =~= s);
    }
}

proof fn lemma_word_len(t: Seq<char>, i: int)
    requires
        0 <= i <= t.len(),
        forall|j: int| 0 <= j < i ==> !is_white_space(#[trigger] t[j]),
        i == t.len() || is_white_space(t[i]),
    ensures
        word_len(t) == i,
    decreases i,
{
    if i > 0 {
        assert forall|j: int| 0 <= j < i - 1 implies !is_white_space(#[trigger] t.drop_first()[j]) by {
            assert(t.drop_first()[j] == t[j + 1]);
        }
        if i < t.len() {
            assert(t.drop_first()[i - 1] == t[i]);
        }
        lemma_word_len(t.drop_first(), i - 1);
    }
}

/// The code at the start of `message`, if it has one (see
/// `spec_diagnostic_code`).
pub fn diagnostic_code(message: &str) -> (r: Option<String>)
    ensures
        match spec_diagnostic_code(message@) {
            Some(c) => r matches Some(x) && x@ == c,
            None => r is None,
        },
{
    let cs = chars_of(message);
    let mut lo: usize = 0;
    while lo < cs.len() && char_is_white_space(cs[lo])
        invariant
            0 <= lo <= cs@.len(),
            forall|j: int| 0 <= j < lo ==> is_white_space(#[trigger] cs@[j]),
        decreases cs@.len() - lo,
    {
        lo = lo + 1;
    }
    proof {
        lemma_trim_start_skip(cs@, lo as int);
        if lo < cs@.len() {
            assert(trim_start(cs@.skip(lo as int)) == cs@.skip(lo as int)) by {
                assert(cs@.skip(lo as int)[0] == cs@[lo as int]);
            }
        } else {
            assert(cs@.skip(lo as int) =~= Seq::<char>::empty());
        }
    }
    if lo == cs.len() {
        return None;
    }
    let mut hi: usize = lo;
    while hi < cs.len() && !char_is_white_space(cs[hi])
        invariant
            lo <= hi <= cs@.len(),
            forall|j: int| lo <= j < hi ==> !is_white_space(#[trigger] cs@[j]),
        decreases cs@.len() - hi,
    {
        hi = hi + 1;
    }
    let ghost t = cs@.skip(lo as int);
    proof {
        assert forall|j: int| 0 <= j < hi - lo implies !is_white_space(#[trigger] t[j]) by {
            assert(t[j] == cs@[lo + j]);
        }
        if hi < cs@.len() {
            assert(t[hi - lo] == cs@[hi as int]);
        }
        lemma_word_len(t, hi - lo);
        assert(t.take(hi - lo) =~= cs@.subrange(lo as int, hi as int));
        assert(first_word(message@) == Some(t.take(hi - lo)));
    }
    if hi - lo != 5 || cs[lo] != 'E' {
        return None;
    }
    let mut k: usize = 1;
    while k < 5
        invariant
            t == cs@.skip(lo as int),
            cs@ == message@,
            first_word(message@) == Some(t.take(5)),
            t.take(5)[0] == 'E',
            hi - lo == 5,
            lo + 5 <= cs@.len(),
            1 <= k <= 5,
            forall|i: int| 1 <= i < k ==> '0' <= #[trigger] cs@[lo + i] <= '9',
        decreases 5 - k,
    {
        let c = cs[lo + k];
        if !('0' <= c && c <= '9') {
            proof {
                assert(t.take(5)[k as int] == c);
            }
            return None;
        }
        k = k + 1;
    }
    proof {
        assert forall|i: int| 1 <= i < 5 implies '0' <= #[trigger] t.take(5)[i] <= '9' by {
            assert(t.take(5)[i] == cs@[lo + i]);
        }
    }
    let word = sub_vec(&cs, lo, hi);
    Some(string_from_chars(&word))
}

/// The message shown in the editor: the diagnostic's message, then each
/// hint after a blank line and `Hint: `.
pub open spec fn message_with_hints(message: Seq<char>, hints: Seq<Seq<char>>) -> Seq<char>
    decreases hints.len(),
{
    if hints.len() == 0 {
        message
    } else {
        message_with_hints(message, hints.drop_last()) + "\n\nHint: "@ + hints.last()
    }
}

/// A diagnostic as the editor protocol carries it.
#[derive(Debug)]
pub struct LspDiagnostic {
    pub range: Range,
    pub severity: Severity,
    pub code: Option<String>,
    pub source: String,
    pub message: String,
}

/// The hints of `d`, as character sequences.
pub open spec fn hints_of(d: Diagnostic) -> Seq<Seq<char>> {
    d.hints@.map_values(|h: String| h@)
}

/// The span of `d` can be shown in the text `s`.
pub open spec fn showable(s: Seq<char>, d: Diagnostic) -> bool {
    &&& d.span.start < u32::MAX
    &&& on_boundary(s, d.span.start as int)
    &&& on_boundary(s, span_end(d.span))
}

/// `r` is `d` as the editor is shown it in the text `s`.
pub open spec fn converted(s: Seq<char>, d: Diagnostic, r: LspDiagnostic) -> bool {
    &&& r.range.start == position_at(s, d.span.start as int)
    &&& r.range.end == position_at(s, span_end(d.span))
    &&& r.severity == d.severity
    &&& match d.code {
        Some(c) => r.code matches Some(x) && x@ == c@,
        None => match spec_diagnostic_code(d.message@) {
            Some(c) => r.code matches Some(x) && x@ == c,
            None => r.code is None,
        },
    }
    &&& r.source@ == "siscript"@
    &&& r.message@ == message_with_hints(d.message@, hints_of(d))
}

/// Converts the diagnostics of a report on the text `text` for the editor,
/// in order.
pub fn report_to_lsp(uri: &lsp_types::Url, text: &str, report: &Vec<Diagnostic>) -> (r: Vec<LspDiagnostic>)
    requires
        forall|i: int| 0 <= i < report@.len() ==> showable(text@, #[trigger] report@[i]),
    ensures
        r@.len() == report@.len(),
        forall|i: int| 0 <= i < report@.len() ==> converted(text@, report@[i], #[trigger] r@[i]),
{
    let document = Document::new(uri.clone(), None, String::from_str(text));
    let mut out: Vec<LspDiagnostic> = Vec::new();
    let mut i: usize = 0;
    while i < report.len()
        invariant
            0 <= i <= report@.len(),
            document.wf(),
            document.text_view() == text@,
            out@.len() == i,
            forall|j: int| 0 <= j < i ==> converted(text@, report@[j], #[trigger] out@[j]),
            forall|j: int| 0 <= j < report@.len() ==> showable(text@, #[trigger] report@[j]),
        decreases report@.len() - i,
    {
        let d = diagnostic_to_lsp(&document, &report[i]);
        out.push(d);
        i = i + 1;
    }
    out
}

/// Converts a diagnostic for the editor: its span as a range, its own code
/// or else the code its message starts with, and its hints appended to the
/// message.
pub fn diagnostic_to_lsp(document: &Document, diagnostic: &Diagnostic) -> (r: LspDiagnostic)
    requires
        showable(document.text_view(), *diagnostic),
    ensures
        converted(document.text_view(), *diagnostic, r),
{
    let mut message: Vec<char> = Vec::new();
    push_str(&mut message, diagnostic.message.as_str());
    let mut i: usize = 0;
    let ghost hints = hints_of(*diagnostic);
    proof {
        assert(hints.take(0) =~= Seq::<Seq<char>>::empty());
    }
    while i < diagnostic.hints.len()
        invariant
            hints == hints_of(*diagnostic),
            0 <= i <= hints.len(),
            message@ == message_with_hints(diagnostic.message@, hints.take(i as int)),
        decreases hints.len() - i,
    {
        proof {
            assert(hints.take(i + 1).drop_last() =~= hints.take(i as int));
            assert(hints.take(i + 1).last() == diagnostic.hints@[i as int]@);
            reveal_strlit("\n\nHint: ");
        }
        push_str(&mut message, "\n\nHint: ");
        push_str(&mut message, diagnostic.hints[i].as_str());
        proof {
            assert(message@ =~= message_with_hints(diagnostic.message@, hints.take(i as int))
                + "\n\nHint: "@ + diagnostic.hints@[i as int]@);
        }
        i = i + 1;
    }
    proof {
        assert(hints.take(i as int) =~= hints);
    }
    let code = match &diagnostic.code {
        Some(c) => Some(c.clone()),
        None => diagnostic_code(diagnostic.message.as_str()),
    };
    LspDiagnostic {
        range: span_to_range(document, diagnostic.span),
        severity: diagnostic.severity,
        code,
        source: String::from_str("siscript"),
        message: string_from_chars(&message),
    }
}

} // verus!
