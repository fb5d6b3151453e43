use vstd::prelude::*;
use vstd::utf8::is_char_boundary;

use ropey::Rope;
use std::sync::Arc;

use crate::rope::{
    line_count, rope_byte_to_char, rope_insert, rope_remove, rope_to_string, breaks_before, byte_offset, is_break_at, line_start, line_start_from, rope_byte_slice_string,
    rope_byte_to_line, rope_from_str, rope_len_bytes, rope_len_lines, rope_line_to_byte, rope_text,
};
use crate::span::Span;
use crate::text::{bytes_of, lemma_bytes_injective};
use crate::utf::{
    column_scan, lemma_bytes_concat, lemma_bytes_prefix, lemma_char_offset_is_boundary,
    utf16_column_to_byte, utf16_count, utf16_len,
};

verus! {

#[verifier::external_type_specification]
#[verifier::external_body]
pub struct ExUrl(lsp_types::Url);

/// `Url::clone` (derived): an equal address.
pub assume_specification[ <lsp_types::Url as std::clone::Clone>::clone ](u: &lsp_types::Url) -> (r: lsp_types::Url)
    ensures
        r == *u,
;

/// A zero-based line and UTF-16 column, as the editor protocol counts them.
#[derive(Clone, Copy, Debug, PartialEq, Eq, Structural)]
pub struct Position {
    pub line: u32,
    pub character: u32,
}

impl Position {
    pub fn new(line: u32, character: u32) -> (r: Self)
        ensures
            r.line == line,
            r.character == character,
    {
        Position { line, character }
    }
}

/// A range between two positions.
#[derive(Clone, Copy, Debug, PartialEq, Eq, Structural)]
pub struct Range {
    pub start: Position,
    pub end: Position,
}

impl Range {
    pub fn new(start: Position, end: Position) -> (r: Self)
        ensures
            r.start == start,
            r.end == end,
    {
        Range { start, end }
    }
}

/// One edit sent by the editor: a replacement of `range`, or of the whole
/// text when there is no range.
#[derive(Debug)]
pub struct ContentChange {
    pub range: Option<Range>,
    pub text: String,
}

/// `Arc::clone`: another handle to the same value.
#[verifier::external_body]
fn arc_clone(a: &Arc<String>) -> (r: Arc<String>)
    ensures
        r@ == a@,
{
    Arc::clone(a)
}

/// The character index of line `line` clamped to the last line.
pub open spec fn clamp_line(s: Seq<char>, line: int) -> nat {
    let n = breaks_before(s, s.len() as int);
    if line < n { line as nat } else { n }
}

/// Where the line `l` ends (its next line starts), or the end of text.
pub open spec fn line_end(s: Seq<char>, l: nat) -> int {
    if l < breaks_before(s, s.len() as int) { line_start(s, l + 1) } else { s.len() as int }
}

/// The byte offset a position denotes: the line is clamped to the last
/// line; the column is resolved within the line's text (see
/// `column_scan`).
pub open spec fn spec_position_to_offset(s: Seq<char>, p: Position) -> int {
    let l = clamp_line(s, p.line as int);
    let cs = line_start(s, l);
    let ce = line_end(s, l);
    (byte_offset(s, cs) + column_scan(s.subrange(cs, ce), p.character as int, 0)) as int
}

/// The position of the character boundary after `k` characters.
pub open spec fn spec_offset_to_position(s: Seq<char>, k: int) -> Position {
    let line = breaks_before(s, k);
    Position {
        line: line as u32,
        character: utf16_count(s.subrange(line_start(s, line), k)) as u32,
    }
}

/// An open text document: its identity, version and text.
#[derive(Debug, Clone)]
pub struct Document {
    pub uri: lsp_types::Url,
    pub version: Option<i32>,
    text: Rope,
    text_string: Arc<String>,
}

proof fn lemma_breaks_mono(s: Seq<char>, a: int, b: int)
    requires
        a <= b,
    ensures
        breaks_before(s, a) <= breaks_before(s, b),
    decreases b - a,
{
    if a < b {
        lemma_breaks_mono(s, a, b - 1);
    }
}

proof fn lemma_line_start_from_bounds(s: Seq<char>, line: nat, from: int)
    requires
        0 <= from,
    ensures
        from <= line_start_from(s, line, from) <= s.len() || (from > s.len() && line_start_from(
            s,
            line,
            from,
        ) == s.len()),
    decreases s.len() - from,
{
    if line == 0 || from >= s.len() {
    } else if is_break_at(s, from) {
        lemma_line_start_from_bounds(s, (line - 1) as nat, from + 1);
    } else {
        lemma_line_start_from_bounds(s, line, from + 1);
    }
}

proof fn lemma_line_start_from_mono(s: Seq<char>, line: nat, from: int)
    requires
        0 <= from <= s.len(),
    ensures
        line_start_from(s, line, from) <= line_start_from(s, line + 1, from),
    decreases s.len() - from,
{
    if from >= s.len() {
    } else if line == 0 {
        lemma_line_start_from_bounds(s, 1, from);
    } else if is_break_at(s, from) {
        lemma_line_start_from_mono(s, (line - 1) as nat, from + 1);
    } else {
        lemma_line_start_from_mono(s, line, from + 1);
    }
}

/// The start of the line holding position `k` comes no later than `k`.
proof fn lemma_line_start_before(s: Seq<char>, k: int, from: int)
    requires
        0 <= from <= k <= s.len(),
    ensures
        line_start_from(s, (breaks_before(s, k) - breaks_before(s, from)) as nat, from) <= k,
    decreases k - from,
{
    lemma_breaks_mono(s, from, k);
    if from == k {
    } else {
        lemma_breaks_mono(s, from + 1, k);
        if is_break_at(s, from) {
            lemma_line_start_before(s, k, from + 1);
        } else {
            lemma_line_start_before(s, k, from + 1);
        }
    }
}

/// Splitting a text at two character positions splits its bytes there.
proof fn lemma_bytes_subrange(s: Seq<char>, a: int, b: int)
    requires
        0 <= a <= b <= s.len(),
    ensures
        bytes_of(s.subrange(a, b)) == bytes_of(s).subrange(
            byte_offset(s, a) as int,
            byte_offset(s, b) as int,
        ),
        byte_offset(s, a) <= byte_offset(s, b) <= bytes_of(s).len(),
{
    lemma_bytes_prefix(s, b);
    lemma_bytes_prefix(s.take(b), a);
    assert(s.take(b).take(a) =~= s.take(a));
    assert(s.take(b).skip(a) =~= s.subrange(a, b));
    let x = bytes_of(s.take(a));
    let y = bytes_of(s.subrange(a, b));
    let z = bytes_of(s.skip(b));
    assert(bytes_of(s) == x + y + z);
    assert(bytes_of(s).subrange(x.len() as int, (x.len() + y.len()) as int) =~= y);
}

proof fn lemma_column_scan_le_bytes(s: Seq<char>, column: int, utf16: int)
    ensures
        column_scan(s, column, utf16) <= bytes_of(s).len(),
    decreases s.len(),
{
    if s.len() > 0 {
        lemma_column_scan_le_bytes(s.drop_first(), column, utf16 + crate::utf::utf16_width(s[0]));
        assert(seq![s[0]] + s.drop_first() =~= s);
        lemma_bytes_concat(seq![s[0]], s.drop_first());
        crate::utf::lemma_bytes_single(s[0]);
    }
}

impl Document {
    /// The document's text.
    pub closed spec fn text_view(&self) -> Seq<char> {
        rope_text(self.text)
    }

    /// The document's address.
    pub closed spec fn uri_view(&self) -> lsp_types::Url {
        self.uri
    }

    /// The document's address.
    pub fn uri_ref(&self) -> (r: &lsp_types::Url)
        ensures
            *r == self.uri_view(),
    {
        &self.uri
    }

    /// The document's version.
    pub closed spec fn version_view(&self) -> Option<i32> {
        self.version
    }

    /// The rope and the cached string hold the same text.
    pub closed spec fn wf(&self) -> bool {
        rope_text(self.text) == self.text_string@
    }

    pub fn new(uri: lsp_types::Url, version: Option<i32>, text: String) -> (r: Self)
        ensures
            r.wf(),
            r.text_view() == text@,
            r.uri_view() == uri,
            r.version_view() == version,
    {
        let rope = rope_from_str(text.as_str());
        Document { uri, version, text: rope, text_string: Arc::new(text) }
    }

    pub fn with_arc(uri: lsp_types::Url, version: Option<i32>, text_string: Arc<String>) -> (r: Self)
        ensures
            r.wf(),
            r.text_view() == text_string@,
            r.uri_view() == uri,
            r.version_view() == version,
    {
        let rope = rope_from_str(text_string.as_str());
        Document { uri, version, text: rope, text_string }
    }

    /// Replaces the whole text and the version.
    pub fn apply_full_change(&mut self, text: String, version: Option<i32>)
        ensures
            final(self).wf(),
            final(self).text_view() == text@,
            final(self).version_view() == version,
            final(self).uri_view() == old(self).uri_view(),
    {
        self.text = rope_from_str(text.as_str());
        self.text_string = Arc::new(text);
        self.version = version;
    }

    pub fn text(&self) -> (r: Arc<String>)
        requires
            self.wf(),
        ensures
            r@ == self.text_view(),
    {
        arc_clone(&self.text_string)
    }

    /// Byte offset of an editor position (see `spec_position_to_offset`).
    pub fn position_to_offset(&self, position: Position) -> (r: usize)
        ensures
            r == spec_position_to_offset(self.text_view(), position),
    {
        let ghost s = self.text_view();
        let line = position.line as usize;
        let len_lines = rope_len_lines(&self.text);
        if len_lines == 0 {
            return 0;
        }
        let clamped_line = if line < len_lines - 1 { line } else { len_lines - 1 };
        proof {
            lemma_line_start_from_bounds(s, clamped_line as nat, 0);
            lemma_line_start_from_bounds(s, (clamped_line + 1) as nat, 0);
            lemma_line_start_from_mono(s, clamped_line as nat, 0);
        }
        let start_byte = rope_line_to_byte(&self.text, clamped_line);
        let end_byte = if clamped_line + 1 < len_lines {
            rope_line_to_byte(&self.text, clamped_line + 1)
        } else {
            rope_len_bytes(&self.text)
        };
        let ghost cs = line_start(s, clamped_line as nat);
        let ghost ce = line_end(s, clamped_line as nat);
        proof {
            assert(s.take(s.len() as int) =~= s);
            lemma_bytes_subrange(s, cs, ce);
            lemma_char_offset_is_boundary(s, cs);
            lemma_char_offset_is_boundary(s, ce);
        }
        let line_text = rope_byte_slice_string(&self.text, start_byte, end_byte);
        proof {
            lemma_bytes_injective(line_text@, s.subrange(cs, ce));
            lemma_column_scan_le_bytes(s.subrange(cs, ce), position.character as int, 0);
        }
        let column = utf16_column_to_byte(line_text.as_str(), position.character as usize);
        start_byte + column
    }

    /// Editor position of the byte offset `offset`, which is clamped to the
    /// end of the text and must fall on a character boundary.
    pub fn offset_to_position(&self, offset: usize) -> (r: Position)
        requires
            exists|k: int|
                0 <= k <= self.text_view().len() && byte_offset(self.text_view(), k) == (if offset
                    < bytes_of(self.text_view()).len() {
                    offset as int
                } else {
                    bytes_of(self.text_view()).len() as int
                }),
        ensures
            forall|k: int|
                0 <= k <= self.text_view().len() && byte_offset(self.text_view(), k) == (if offset
                    < bytes_of(self.text_view()).len() {
                    offset as int
                } else {
                    bytes_of(self.text_view()).len() as int
                }) ==> r == spec_offset_to_position(self.text_view(), k),
    {
        let ghost s = self.text_view();
        let len_bytes = rope_len_bytes(&self.text);
        let clamped = if offset < len_bytes { offset } else { len_bytes };
        let ghost k = choose|k: int| 0 <= k <= s.len() && byte_offset(s, k) == clamped;
        let line = rope_byte_to_line(&self.text, clamped);
        proof {
            lemma_breaks_mono(s, k, s.len() as int);
            lemma_line_start_before(s, k, 0);
            lemma_line_start_from_bounds(s, line as nat, 0);
            assert(s.take(s.len() as int) =~= s);
        }
        let start_byte = rope_line_to_byte(&self.text, line);
        let ghost ls = line_start(s, line as nat);
        proof {
            lemma_bytes_subrange(s, ls, k);
            lemma_bytes_subrange(s, k, s.len() as int);
            lemma_char_offset_is_boundary(s, ls);
            lemma_char_offset_is_boundary(s, k);
        }
        let line_text = rope_byte_slice_string(&self.text, start_byte, clamped);
        proof {
            lemma_bytes_injective(line_text@, s.subrange(ls, k));
            assert forall|j: int|
                0 <= j <= s.len() && byte_offset(s, j) == clamped implies j == k by {
                lemma_offset_injective(s, j, k);
            }
        }
        let character = utf16_len(line_text.as_str());
        Position::new(line as u32, character as u32)
    }
}

/// Distinct character positions have distinct byte offsets.
proof fn lemma_offset_injective(s: Seq<char>, a: int, b: int)
    requires
        0 <= a <= s.len(),
        0 <= b <= s.len(),
        byte_offset(s, a) == byte_offset(s, b),
    ensures
        a == b,
{
    if a < b {
        lemma_bytes_subrange(s, a, b);
        assert(s.subrange(a, b).len() > 0);
        assert(bytes_of(s.subrange(a, b)).len() > 0) by {
            let t = s.subrange(a, b);
            assert(t =~= seq![t[0]] + t.drop_first());
            lemma_bytes_concat(seq![t[0]], t.drop_first());
            crate::utf::lemma_bytes_single(t[0]);
        }
    } else if b < a {
        lemma_bytes_subrange(s, b, a);
        assert(bytes_of(s.subrange(b, a)).len() > 0) by {
            let t = s.subrange(b, a);
            assert(t =~= seq![t[0]] + t.drop_first());
            lemma_bytes_concat(seq![t[0]], t.drop_first());
            crate::utf::lemma_bytes_single(t[0]);
        }
    }
}

/// The column scan always stops after a whole number of characters.
proof fn lemma_column_scan_chars(t: Seq<char>, column: int, utf16: int) -> (j: int)
    ensures
        0 <= j <= t.len(),
        column_scan(t, column, utf16) == bytes_of(t.take(j)).len(),
    decreases t.len(),
{
    if t.len() == 0 {
        assert(t.take(0) =~= Seq::<char>::empty());
        assert(bytes_of(Seq::<char>::empty()) =~= Seq::<u8>::empty());
        0
    } else if utf16 >= column || t[0] == '\n' || t[0] == '\r' || utf16 + crate::utf::utf16_width(
        t[0],
    ) > column {
        assert(t.take(0) =~= Seq::<char>::empty());
        assert(bytes_of(Seq::<char>::empty()) =~= Seq::<u8>::empty());
        0
    } else {
        let j0 = lemma_column_scan_chars(
            t.drop_first(),
            column,
            utf16 + crate::utf::utf16_width(t[0]),
        );
        assert(t.take(j0 + 1) =~= seq![t[0]] + t.drop_first().take(j0));
        lemma_bytes_concat(seq![t[0]], t.drop_first().take(j0));
        crate::utf::lemma_bytes_single(t[0]);
        j0 + 1
    }
}

/// The offset of any position is the byte offset of some character
/// position, and so lies on a character boundary.
pub proof fn lemma_position_offset_is_char_offset(s: Seq<char>, p: Position) -> (k: int)
    ensures
        0 <= k <= s.len(),
        byte_offset(s, k) == spec_position_to_offset(s, p),
{
    let l = clamp_line(s, p.line as int);
    lemma_line_start_from_bounds(s, l, 0);
    lemma_line_start_from_bounds(s, l + 1, 0);
    lemma_line_start_from_mono(s, l, 0);
    let cs = line_start(s, l);
    let ce = line_end(s, l);
    let t = s.subrange(cs, ce);
    let j = lemma_column_scan_chars(t, p.character as int, 0);
    lemma_bytes_prefix(s.take(cs + j), cs);
    assert(s.take(cs + j).take(cs) =~= s.take(cs));
    assert(s.take(cs + j).skip(cs) =~= t.take(j));
    cs + j
}

/// Whether `change` can be applied to the text `s`: a range, if it has
/// one, does not end before it starts.
pub open spec fn applicable(s: Seq<char>, change: ContentChange) -> bool {
    change.range matches Some(range) ==> spec_position_to_offset(s, range.start) <= spec_position_to_offset(s, range.end)
}

/// `b` is the text `a` after `change` (see `apply_change`).
pub open spec fn text_after(a: Seq<char>, b: Seq<char>, change: ContentChange) -> bool {
    match change.range {
        None => b == change.text@,
        Some(range) => bytes_of(b) == bytes_of(a).take(spec_position_to_offset(a, range.start)) + bytes_of(change.text@)
            + bytes_of(a).skip(spec_position_to_offset(a, range.end)),
    }
}

/// `texts` are the texts that `changes` pass through, one after another,
/// each change applicable to the text it meets.
pub open spec fn changes_chain(texts: Seq<Seq<char>>, changes: Seq<ContentChange>) -> bool {
    &&& texts.len() == changes.len() + 1
    &&& forall|j: int|
        0 <= j < changes.len() ==> applicable(#[trigger] texts[j], changes[j]) && text_after(texts[j], texts[j + 1], changes[j])
}

impl Document {
    /// A copy with the same address, version and text.
    pub fn duplicate(&self) -> (r: Document)
        ensures
            r.wf() == self.wf(),
            r.uri_view() == self.uri_view(),
            r.version_view() == self.version_view(),
            r.text_view() == self.text_view(),
    {
        Document { uri: self.uri.clone(), version: self.version, text: self.text.clone(), text_string: arc_clone(&self.text_string) }
    }

    /// The version.
    pub fn version_value(&self) -> (r: Option<i32>)
        ensures
            r == self.version_view(),
    {
        self.version
    }

    /// Sets the version.
    pub fn set_version(&mut self, version: Option<i32>)
        ensures
            final(self).wf() == old(self).wf(),
            final(self).uri_view() == old(self).uri_view(),
            final(self).version_view() == version,
            final(self).text_view() == old(self).text_view(),
    {
        self.version = version;
    }

    /// Applies one edit: a ranged edit replaces the bytes between the
    /// offsets of its two positions (each clamped to the end of the text);
    /// an edit without a range replaces the whole text.
    pub fn apply_change(&mut self, change: &ContentChange)
        requires
            old(self).wf(),
            applicable(old(self).text_view(), *change),
        ensures
            final(self).wf(),
            final(self).uri_view() == old(self).uri_view(),
            final(self).version_view() == old(self).version_view(),
            text_after(old(self).text_view(), final(self).text_view(), *change),
    {
        match change.range {
            Some(range) => {
                let ghost s = self.text_view();
                let start = self.position_to_offset(range.start);
                let end = self.position_to_offset(range.end);
                let len_bytes = rope_len_bytes(&self.text);
                let ghost ks = lemma_position_offset_is_char_offset(s, range.start);
                let ghost ke = lemma_position_offset_is_char_offset(s, range.end);
                proof {
                    assert(s.take(s.len() as int) =~= s);
                    lemma_bytes_subrange(s, ks, s.len() as int);
                    lemma_bytes_subrange(s, ke, s.len() as int);
                }
                let start = if start < len_bytes { start } else { len_bytes };
                let end = if end < len_bytes { end } else { len_bytes };
                let start_char = rope_byte_to_char(&self.text, start);
                let end_char = rope_byte_to_char(&self.text, end);
                proof {
                    lemma_offset_injective(s, start_char as int, ks);
                    lemma_offset_injective(s, end_char as int, ke);
                    if start_char > end_char {
                        lemma_bytes_subrange(s, end_char as int, start_char as int);
                        lemma_offset_injective(s, end_char as int, start_char as int);
                    }
                }
                rope_remove(&mut self.text, start_char, end_char);
                rope_insert(&mut self.text, start_char, change.text.as_str());
                self.text_string = Arc::new(rope_to_string(&self.text));
                proof {
                    let t = change.text@;
                    let ns = s.take(start_char as int) + t + s.skip(end_char as int);
                    assert(self.text_view() =~= ns) by {
                        assert((s.take(start_char as int) + s.skip(end_char as int)).take(
                            start_char as int,
                        ) =~= s.take(start_char as int));
                        assert((s.take(start_char as int) + s.skip(end_char as int)).skip(
                            start_char as int,
                        ) =~= s.skip(end_char as int));
                    }
                    lemma_bytes_concat(s.take(start_char as int) + t, s.skip(end_char as int));
                    lemma_bytes_concat(s.take(start_char as int), t);
                    lemma_bytes_prefix(s, start_char as int);
                    lemma_bytes_prefix(s, end_char as int);
                    let bs = bytes_of(s);
                    assert(bs.take(start as int) =~= bytes_of(s.take(start_char as int)));
                    assert(bs.skip(end as int) =~= bytes_of(s.skip(end_char as int)));
                }
            },
            None => {
                let version = self.version;
                self.apply_full_change(change.text.clone(), version);
            },
        }
    }

    /// The range a span covers, each end clamped to the text; `None` when
    /// the span is inverted. Both ends must fall on character boundaries.
    pub fn span_to_range_safe(&self, span: Span) -> (r: Option<Range>)
        requires
            exists|k: int|
                0 <= k <= self.text_view().len() && byte_offset(self.text_view(), k) == (if span.start
                    < bytes_of(self.text_view()).len() {
                    span.start as int
                } else {
                    bytes_of(self.text_view()).len() as int
                }),
            exists|k: int|
                0 <= k <= self.text_view().len() && byte_offset(self.text_view(), k) == (if span.end
                    < bytes_of(self.text_view()).len() {
                    span.end as int
                } else {
                    bytes_of(self.text_view()).len() as int
                }),
        ensures
            ({
                let n = bytes_of(self.text_view()).len() as int;
                let a = if span.start < n { span.start as int } else { n };
                let b = if span.end < n { span.end as int } else { n };
                &&& (a > b <==> r is None)
                &&& r matches Some(range) ==> (forall|k: int|
                    0 <= k <= self.text_view().len() && byte_offset(self.text_view(), k) == a
                        ==> range.start == spec_offset_to_position(self.text_view(), k)) && (forall|
                    k: int,
                |
                    0 <= k <= self.text_view().len() && byte_offset(self.text_view(), k) == b
                        ==> range.end == spec_offset_to_position(self.text_view(), k))
            }),
    {
        let text_len = rope_len_bytes(&self.text);
        let start = if (span.start as usize) < text_len { span.start as usize } else { text_len };
        let end = if (span.end as usize) < text_len { span.end as usize } else { text_len };
        if start > end {
            return None;
        }
        Some(Range::new(self.offset_to_position(start), self.offset_to_position(end)))
    }

    /// Like `position_to_offset`, but a line past the last one maps to the
    /// end of the text.
    pub fn position_to_offset_safe(&self, pos: Position) -> (r: Option<usize>)
        ensures
            r == Some(
                if pos.line >= line_count(self.text_view()) {
                    bytes_of(self.text_view()).len() as usize
                } else {
                    spec_position_to_offset(self.text_view(), pos) as usize
                },
            ),
    {
        let line = pos.line as usize;
        if line >= rope_len_lines(&self.text) {
            return Some(rope_len_bytes(&self.text));
        }
        Some(self.position_to_offset(pos))
    }

    /// `offset_to_position`, always answered.
    pub fn offset_to_position_safe(&self, offset: usize) -> (r: Option<Position>)
        requires
            exists|k: int|
                0 <= k <= self.text_view().len() && byte_offset(self.text_view(), k) == (if offset
                    < bytes_of(self.text_view()).len() {
                    offset as int
                } else {
                    bytes_of(self.text_view()).len() as int
                }),
        ensures
            forall|k: int|
                0 <= k <= self.text_view().len() && byte_offset(self.text_view(), k) == (if offset
                    < bytes_of(self.text_view()).len() {
                    offset as int
                } else {
                    bytes_of(self.text_view()).len() as int
                }) ==> r == Some(spec_offset_to_position(self.text_view(), k)),
    {
        let len_bytes = rope_len_bytes(&self.text);
        let clamped = if offset < len_bytes { offset } else { len_bytes };
        Some(self.offset_to_position(clamped))
    }
}

} // verus!
