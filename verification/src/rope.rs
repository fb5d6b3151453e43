use vstd::prelude::*;
use vstd::utf8::is_char_boundary;

use ropey::Rope;

use crate::text::bytes_of;

verus! {

#[verifier::external_type_specification]
#[verifier::external_body]
pub struct ExRope(Rope);

/// The text a rope holds.
pub uninterp spec fn rope_text(r: Rope) -> Seq<char>;

/// `Rope::clone` (derived): a rope sharing the same text.
pub assume_specification[ <Rope as std::clone::Clone>::clone ](r: &Rope) -> (c: Rope)
    ensures
        rope_text(c) == rope_text(*r),
;

/// The line breaks ropey recognises (all of Unicode Annex #14): LF, VT, FF,
/// CR, NEL, LINE SEPARATOR and PARAGRAPH SEPARATOR.
pub open spec fn is_break_char(c: char) -> bool {
    c == '\n' || c == '\u{0B}' || c == '\u{0C}' || c == '\r' || c == '\u{85}' || c == '\u{2028}'
        || c == '\u{2029}'
}

/// A line ends at character `i`: a break character, except a carriage
/// return directly followed by a line feed (the pair ends one line, at the
/// line feed).
pub open spec fn is_break_at(s: Seq<char>, i: int) -> bool {
    &&& 0 <= i < s.len()
    &&& is_break_char(s[i])
    &&& !(s[i] == '\r' && i + 1 < s.len() && s[i + 1] == '\n')
}

/// Number of line ends among the first `k` characters.
pub open spec fn breaks_before(s: Seq<char>, k: int) -> nat
    decreases k,
{
    if k <= 0 {
        0
    } else {
        breaks_before(s, k - 1) + if is_break_at(s, k - 1) { 1nat } else { 0nat }
    }
}

/// Number of lines: one more than the number of line ends.
pub open spec fn line_count(s: Seq<char>) -> nat {
    breaks_before(s, s.len() as int) + 1
}

/// Character index where line `line` starts; past the last line, the end.
pub open spec fn line_start_from(s: Seq<char>, line: nat, from: int) -> int
    decreases s.len() - from,
{
    if line == 0 || from >= s.len() {
        if from >= s.len() { s.len() as int } else { from }
    } else if is_break_at(s, from) {
        line_start_from(s, (line - 1) as nat, from + 1)
    } else {
        line_start_from(s, line, from + 1)
    }
}

pub open spec fn line_start(s: Seq<char>, line: nat) -> int {
    line_start_from(s, line, 0)
}

/// Byte offset of the first `k` characters.
pub open spec fn byte_offset(s: Seq<char>, k: int) -> nat {
    bytes_of(s.take(k)).len()
}

/// `Rope::from_str`: a rope holding exactly `text`.
#[verifier::external_body]
pub fn rope_from_str(text: &str) -> (r: Rope)
    ensures
        rope_text(r) == text@,
{
    Rope::from_str(text)
}

/// `Rope::len_bytes`: the UTF-8 length of the text.
#[verifier::external_body]
pub fn rope_len_bytes(r: &Rope) -> (n: usize)
    ensures
        n == bytes_of(rope_text(*r)).len(),
{
    r.len_bytes()
}

/// `Rope::len_lines`: the number of line breaks plus one.
#[verifier::external_body]
pub fn rope_len_lines(r: &Rope) -> (n: usize)
    ensures
        n == line_count(rope_text(*r)),
{
    r.len_lines()
}

/// `Rope::line_to_byte`: byte offset where a line starts; the line index
/// may be one past the last line, which gives the end of the text.
#[verifier::external_body]
pub fn rope_line_to_byte(r: &Rope, line: usize) -> (n: usize)
    requires
        line <= line_count(rope_text(*r)),
    ensures
        n == byte_offset(rope_text(*r), line_start(rope_text(*r), line as nat)),
{
    r.line_to_byte(line)
}

/// `Rope::byte_to_line`, for a byte offset on a character boundary: the
/// number of line breaks before it.
#[verifier::external_body]
pub fn rope_byte_to_line(r: &Rope, byte_idx: usize) -> (n: usize)
    requires
        exists|k: int| 0 <= k <= rope_text(*r).len() && byte_offset(rope_text(*r), k) == byte_idx,
    ensures
        forall|k: int|
            0 <= k <= rope_text(*r).len() && byte_offset(rope_text(*r), k) == byte_idx ==> n
                == breaks_before(rope_text(*r), k),
{
    r.byte_to_line(byte_idx)
}

/// `Rope::byte_to_char`, for a byte offset on a character boundary: the
/// number of characters before it.
#[verifier::external_body]
pub fn rope_byte_to_char(r: &Rope, byte_idx: usize) -> (n: usize)
    requires
        exists|k: int| 0 <= k <= rope_text(*r).len() && byte_offset(rope_text(*r), k) == byte_idx,
    ensures
        0 <= n <= rope_text(*r).len(),
        byte_offset(rope_text(*r), n as int) == byte_idx,
{
    r.byte_to_char(byte_idx)
}

/// `Rope::byte_slice(..).to_string()`: the text between two character
/// boundaries.
#[verifier::external_body]
pub fn rope_byte_slice_string(r: &Rope, start: usize, end: usize) -> (s: String)
    requires
        start <= end <= bytes_of(rope_text(*r)).len(),
        is_char_boundary(bytes_of(rope_text(*r)), start as int),
        is_char_boundary(bytes_of(rope_text(*r)), end as int),
    ensures
        bytes_of(s@) == bytes_of(rope_text(*r)).subrange(start as int, end as int),
{
    r.byte_slice(start..end).to_string()
}

/// `Rope::remove(start..end)` over character indices.
#[verifier::external_body]
pub fn rope_remove(r: &mut Rope, start: usize, end: usize)
    requires
        start <= end <= rope_text(*old(r)).len(),
    ensures
        rope_text(*final(r)) == rope_text(*old(r)).take(start as int) + rope_text(*old(r)).skip(
            end as int,
        ),
{
    r.remove(start..end)
}

/// `Rope::insert` at a character index.
#[verifier::external_body]
pub fn rope_insert(r: &mut Rope, at: usize, text: &str)
    requires
        at <= rope_text(*old(r)).len(),
    ensures
        rope_text(*final(r)) == rope_text(*old(r)).take(at as int) + text@ + rope_text(
            *old(r),
        ).skip(at as int),
{
    r.insert(at, text)
}

/// `Rope::to_string`: the whole text.
#[verifier::external_body]
pub fn rope_to_string(r: &Rope) -> (s: String)
    ensures
        s@ == rope_text(*r),
{
    r.to_string()
}

} // verus!
