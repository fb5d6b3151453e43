use vstd::prelude::*;
use vstd::utf8::*;

use vstd::std_specs::iter::IteratorSpec;

use crate::text::bytes_of;

verus! {

/// Bytes in the UTF-8 encoding of a character.
pub open spec fn utf8_width(c: char) -> nat {
    if (c as u32) < 0x80 {
        1
    } else if (c as u32) < 0x800 {
        2
    } else if (c as u32) < 0x10000 {
        3
    } else {
        4
    }
}

/// Code units in the UTF-16 encoding of a character.
pub open spec fn utf16_width(c: char) -> nat {
    if (c as u32) < 0x10000 {
        1
    } else {
        2
    }
}

/// Code units in the UTF-16 encoding of a text.
pub open spec fn utf16_count(s: Seq<char>) -> nat
    decreases s.len(),
{
    if s.len() == 0 {
        0
    } else {
        utf16_count(s.drop_last()) + utf16_width(s.last())
    }
}

pub fn char_utf8_width(c: char) -> (r: usize)
    ensures
        r == utf8_width(c),
{
    let v = c as u32;
    if v < 0x80 {
        1
    } else if v < 0x800 {
        2
    } else if v < 0x10000 {
        3
    } else {
        4
    }
}

pub fn char_utf16_width(c: char) -> (r: usize)
    ensures
        r == utf16_width(c),
{
    if (c as u32) < 0x10000 {
        1
    } else {
        2
    }
}

/// The encoding of a concatenation is the concatenation of the encodings.
pub proof fn lemma_bytes_concat(a: Seq<char>, b: Seq<char>)
    ensures
        bytes_of(a + b) == bytes_of(a) + bytes_of(b),
    decreases a.len(),
{
    if a.len() == 0 {
        assert(a + b =~= b);
        assert(bytes_of(a) =~= Seq::<u8>::empty());
        assert(bytes_of(a) + bytes_of(b) =~= bytes_of(b));
    } else {
        lemma_bytes_concat(a.drop_first(), b);
        assert((a + b).drop_first() =~= a.drop_first() + b);
        assert((a + b)[0] == a[0]);
        assert(bytes_of(a + b) =~= encode_scalar(a[0] as u32) + bytes_of(a.drop_first() + b));
    }
}

/// One character takes `utf8_width` bytes.
pub proof fn lemma_bytes_single(c: char)
    ensures
        bytes_of(seq![c]).len() == utf8_width(c),
{
    char_is_scalar(c);
    assert(seq![c].drop_first() =~= Seq::<char>::empty());
    assert(bytes_of(seq![c]) == encode_scalar(c as u32) + bytes_of(Seq::<char>::empty()));
}

/// Appending a character adds its width to the byte length.
pub proof fn lemma_bytes_push(s: Seq<char>, c: char)
    ensures
        bytes_of(s.push(c)).len() == bytes_of(s).len() + utf8_width(c),
{
    lemma_bytes_concat(s, seq![c]);
    assert(s.push(c) =~= s + seq![c]);
    lemma_bytes_single(c);
}

/// The byte length of a prefix never exceeds that of the whole text.
pub proof fn lemma_bytes_prefix(s: Seq<char>, k: int)
    requires
        0 <= k <= s.len(),
    ensures
        bytes_of(s.take(k)).len() <= bytes_of(s).len(),
        bytes_of(s) == bytes_of(s.take(k)) + bytes_of(s.skip(k)),
{
    lemma_bytes_concat(s.take(k), s.skip(k));
    assert(s.take(k) + s.skip(k) =~= s);
}

/// The characters of `text`, in order.
pub fn chars_of(text: &str) -> (r: Vec<char>)
    ensures
        r@ == text@,
{
    broadcast use vstd::string::group_string_axioms;

    let mut out: Vec<char> = Vec::new();
    let mut it = text.chars();
    let ghost s = text@;
    loop
        invariant
            s == text@,
            it.remaining() == s.skip(out@.len() as int),
            out@ == s.take(out@.len() as int),
            out@.len() <= s.len(),
            it.obeys_prophetic_iter_laws(),
        decreases s.len() - out@.len(),
    {
        let ghost before = it;
        match it.next() {
            Some(c) => {
                proof {
                    assert(s.skip(out@.len() as int).len() > 0);
                    assert(c == s[out@.len() as int]);
                    assert(s.skip(out@.len() as int).drop_first() =~= s.skip(out@.len() as int + 1));
                }
                out.push(c);
                proof {
                    assert(out@ =~= s.take(out@.len() as int));
                }
            },
            None => {
                proof {
                    assert(s.skip(out@.len() as int).len() == 0);
                    assert(out@ =~= s);
                    assert(out@ == text@);
                }
                return out;
            },
        }
    }
}

/// Number of UTF-16 code units needed to encode `text`.
pub fn utf16_len(text: &str) -> (r: usize)
    ensures
        r == utf16_count(text@),
{
    let chars = chars_of(text);
    let nbytes = text.as_bytes().len();
    assert(nbytes == bytes_of(text@).len());
    let mut count: usize = 0;
    let mut i: usize = 0;
    proof {
        lemma_utf16_le_bytes(text@);
    }
    while i < chars.len()
        invariant
            chars@ == text@,
            0 <= i <= chars@.len(),
            count == utf16_count(chars@.take(i as int)),
            count <= bytes_of(chars@.take(i as int)).len(),
            bytes_of(text@).len() <= usize::MAX,
        decreases chars@.len() - i,
    {
        proof {
            assert(chars@.take(i + 1).drop_last() =~= chars@.take(i as int));
            assert(chars@.take(i + 1) =~= chars@.take(i as int).push(chars@[i as int]));
            lemma_bytes_push(chars@.take(i as int), chars@[i as int]);
            lemma_bytes_prefix(chars@, i + 1);
        }
        count = count + char_utf16_width(chars[i]);
        i = i + 1;
    }
    proof {
        assert(chars@.take(i as int) =~= text@);
    }
    count
}

/// A text never needs more UTF-16 code units than UTF-8 bytes.
pub proof fn lemma_utf16_le_bytes(s: Seq<char>)
    ensures
        utf16_count(s) <= bytes_of(s).len(),
    decreases s.len(),
{
    if s.len() > 0 {
        lemma_utf16_le_bytes(s.drop_last());
        assert(s.drop_last().push(s.last()) =~= s);
        lemma_bytes_push(s.drop_last(), s.last());
    }
}

/// Byte length of the longest prefix of `s` that holds no line feed or
/// carriage return and whose UTF-16 length, counted from `utf16`, stays
/// within `column`.
pub open spec fn column_scan(s: Seq<char>, column: int, utf16: int) -> nat
    decreases s.len(),
{
    if s.len() == 0 {
        0
    } else if utf16 >= column || s[0] == '\n' || s[0] == '\r' {
        0
    } else if utf16 + utf16_width(s[0]) > column {
        0
    } else {
        utf8_width(s[0]) + column_scan(s.drop_first(), column, utf16 + utf16_width(s[0]))
    }
}

proof fn lemma_column_scan_step(s: Seq<char>, i: int, column: int, utf16: int)
    requires
        0 <= i < s.len(),
    ensures
        column_scan(s.skip(i), column, utf16) == if utf16 >= column || s[i] == '\n' || s[i]
            == '\r' || utf16 + utf16_width(s[i]) > column {
            0
        } else {
            utf8_width(s[i]) + column_scan(s.skip(i + 1), column, utf16 + utf16_width(s[i]))
        },
{
    assert(s.skip(i).drop_first() =~= s.skip(i + 1));
    assert(s.skip(i)[0] == s[i]);
}

/// Byte offset, within one line of text, of the UTF-16 column `column`.
/// A column inside a surrogate pair maps to the start of that character;
/// a column past the end of the line maps to the line break (or the end).
pub fn utf16_column_to_byte(text: &str, column: usize) -> (r: usize)
    ensures
        r == column_scan(text@, column as int, 0),
{
    let chars = chars_of(text);
    let nbytes = text.as_bytes().len();
    assert(nbytes == bytes_of(text@).len());
    let mut utf16: usize = 0;
    let mut byte_idx: usize = 0;
    let mut i: usize = 0;
    proof {
        assert(text@.skip(0) =~= text@);
        assert(chars@.take(0) =~= Seq::<char>::empty());
    }
    while i < chars.len()
        invariant
            chars@ == text@,
            0 <= i <= chars@.len(),
            byte_idx == bytes_of(chars@.take(i as int)).len(),
            utf16 == utf16_count(chars@.take(i as int)),
            bytes_of(text@).len() <= usize::MAX,
            column_scan(text@, column as int, 0) == byte_idx + column_scan(
                text@.skip(i as int),
                column as int,
                utf16 as int,
            ),
        decreases chars@.len() - i,
    {
        let ch = chars[i];
        proof {
            lemma_column_scan_step(text@, i as int, column as int, utf16 as int);
            assert(chars@.take(i + 1) =~= chars@.take(i as int).push(ch));
            assert(chars@.take(i + 1).drop_last() =~= chars@.take(i as int));
            lemma_bytes_push(chars@.take(i as int), ch);
            lemma_bytes_prefix(chars@, i + 1);
            lemma_utf16_le_bytes(chars@.take(i + 1));
        }
        if utf16 >= column || ch == '\n' || ch == '\r' {
            return byte_idx;
        }
        utf16 = utf16 + char_utf16_width(ch);
        if utf16 > column {
            return byte_idx;
        }
        byte_idx = byte_idx + char_utf8_width(ch);
        i = i + 1;
    }
    proof {
        assert(text@.skip(i as int) =~= Seq::<char>::empty());
        assert(chars@.take(i as int) =~= text@);
    }
    nbytes
}

/// The byte offset of every character position is a character boundary.
pub proof fn lemma_char_offset_is_boundary(s: Seq<char>, k: int)
    requires
        0 <= k <= s.len(),
    ensures
        is_char_boundary(bytes_of(s), bytes_of(s.take(k)).len() as int),
    decreases k,
{
    encode_utf8_valid_utf8(s);
    if k == 0 {
        assert(s.take(0) =~= Seq::<char>::empty());
        assert(bytes_of(Seq::<char>::empty()) =~= Seq::<u8>::empty());
    } else {
        let bytes = bytes_of(s);
        encode_utf8_first_scalar(s);
        assert(pop_first_scalar(bytes) =~= encode_utf8(s.drop_first()));
        lemma_char_offset_is_boundary(s.drop_first(), k - 1);
        assert(s.take(k) =~= seq![s[0]] + s.drop_first().take(k - 1));
        lemma_bytes_concat(seq![s[0]], s.drop_first().take(k - 1));
        lemma_bytes_single(s[0]);
        assert(bytes_of(seq![s[0]]) =~= encode_scalar(s[0] as u32) + bytes_of(
            Seq::<char>::empty(),
        )) by {
            assert(seq![s[0]].drop_first() =~= Seq::<char>::empty());
        }
        lemma_bytes_prefix(s, k);
    }
}

} // verus!

verus! {

/// Appending one more character of `s` to a prefix adds its width in bytes.
pub proof fn lemma_prefix_bytes_step(s: Seq<char>, i: int)
    requires
        0 <= i < s.len(),
    ensures
        bytes_of(s.take(i + 1)).len() == bytes_of(s.take(i)).len() + utf8_width(s[i]),
{
    assert(s.take(i + 1) =~= s.take(i).push(s[i]));
    lemma_bytes_push(s.take(i), s[i]);
}

/// Longer prefixes take strictly more bytes.
pub proof fn lemma_prefix_bytes_strict(s: Seq<char>, i: int, j: int)
    requires
        0 <= i < j <= s.len(),
    ensures
        bytes_of(s.take(i)).len() < bytes_of(s.take(j)).len(),
    decreases j - i,
{
    lemma_prefix_bytes_step(s, j - 1);
    if i < j - 1 {
        lemma_prefix_bytes_strict(s, i, j - 1);
    }
}

/// The number of characters of `s` whose encoding takes exactly `byte`
/// bytes, if `byte` falls between two characters.
pub open spec fn char_index_at_byte(s: Seq<char>, byte: int) -> Option<int> {
    if exists|k: int| 0 <= k <= s.len() && bytes_of(#[trigger] s.take(k)).len() == byte {
        Some(choose|k: int| 0 <= k <= s.len() && bytes_of(#[trigger] s.take(k)).len() == byte)
    } else {
        None
    }
}

/// A character position is found again from its byte offset.
pub proof fn lemma_char_index_at_byte(s: Seq<char>, k: int)
    requires
        0 <= k <= s.len(),
    ensures
        char_index_at_byte(s, bytes_of(s.take(k)).len() as int) == Some(k),
{
    let b = bytes_of(s.take(k)).len() as int;
    assert(0 <= k <= s.len() && bytes_of(s.take(k)).len() == b);
    let c = choose|c: int| 0 <= c <= s.len() && bytes_of(#[trigger] s.take(c)).len() == b;
    if c < k {
        lemma_prefix_bytes_strict(s, c, k);
    } else if k < c {
        lemma_prefix_bytes_strict(s, k, c);
    }
}

/// The character position whose byte offset is `byte`, if there is one.
pub fn char_index_of_byte(cs: &Vec<char>, byte: usize) -> (r: Option<usize>)
    requires
        bytes_of(cs@).len() <= usize::MAX,
    ensures
        match char_index_at_byte(cs@, byte as int) {
            Some(k) => r == Some(k as usize) && k <= cs@.len(),
            None => r is None,
        },
{
    let mut i: usize = 0;
    let mut nb: usize = 0;
    proof {
        assert(cs@.take(0) =~= Seq::<char>::empty());
        assert(bytes_of(Seq::<char>::empty()) =~= Seq::<u8>::empty());
    }
    while i < cs.len() && nb < byte
        invariant
            0 <= i <= cs@.len(),
            nb == bytes_of(cs@.take(i as int)).len(),
            bytes_of(cs@).len() <= usize::MAX,
            i > 0 ==> bytes_of(cs@.take(i - 1)).len() < byte,
        decreases cs@.len() - i,
    {
        proof {
            lemma_prefix_bytes_step(cs@, i as int);
            lemma_bytes_prefix(cs@, i + 1);
        }
        nb = nb + char_utf8_width(cs[i]);
        i = i + 1;
    }
    if nb == byte {
        proof {
            lemma_char_index_at_byte(cs@, i as int);
        }
        Some(i)
    } else {
        proof {
            assert forall|k: int| 0 <= k <= cs@.len() implies bytes_of(#[trigger] cs@.take(k)).len()
                != byte by {
                if k < i {
                    if k < i - 1 {
                        lemma_prefix_bytes_strict(cs@, k, i - 1);
                    }
                } else if k > i {
                    lemma_prefix_bytes_strict(cs@, i as int, k);
                }
            }
        }
        None
    }
}

} // verus!
