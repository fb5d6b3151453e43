use vstd::prelude::*;
use vstd::utf8::*;

verus! {

/// The UTF-8 bytes of a character sequence.
pub open spec fn bytes_of(s: Seq<char>) -> Seq<u8> {
    encode_utf8(s)
}

/// Two strings are equal exactly when their UTF-8 encodings are.
pub proof fn lemma_bytes_injective(a: Seq<char>, b: Seq<char>)
    ensures
        bytes_of(a) == bytes_of(b) <==> a == b,
{
    encode_utf8_decode_utf8(a);
    encode_utf8_decode_utf8(b);
}

/// Byte-wise equality of two strings.
pub fn str_eq(a: &str, b: &str) -> (r: bool)
    ensures
        r == (a@ == b@),
{
    let x = a.as_bytes();
    let y = b.as_bytes();
    proof {
        lemma_bytes_injective(a@, b@);
    }
    if x.len() != y.len() {
        return false;
    }
    let mut i: usize = 0;
    while i < x.len()
        invariant
            x@ == bytes_of(a@),
            y@ == bytes_of(b@),
            x@.len() == y@.len(),
            0 <= i <= x@.len(),
            forall|j: int| 0 <= j < i ==> x@[j] == y@[j],
        decreases x@.len() - i,
    {
        if x[i] != y[i] {
            return false;
        }
        i = i + 1;
    }
    assert(x@ =~= y@);
    true
}

} // verus!

verus! {

/// ASCII whitespace as Rust's `u8::is_ascii_whitespace` defines it:
/// space, tab, line feed, form feed and carriage return.
pub open spec fn is_ascii_ws(b: u8) -> bool {
    b == 0x20u8 || b == 0x09u8 || b == 0x0au8 || b == 0x0cu8 || b == 0x0du8
}

pub fn byte_is_ascii_ws(b: u8) -> (r: bool)
    ensures
        r == is_ascii_ws(b),
{
    b == 0x20u8 || b == 0x09u8 || b == 0x0au8 || b == 0x0cu8 || b == 0x0du8
}

/// ASCII letters and digits.
pub open spec fn is_ascii_alnum(b: u8) -> bool {
    (0x30u8 <= b <= 0x39u8) || (0x41u8 <= b <= 0x5au8) || (0x61u8 <= b <= 0x7au8)
}

pub fn byte_is_ascii_alnum(b: u8) -> (r: bool)
    ensures
        r == is_ascii_alnum(b),
{
    (0x30u8 <= b && b <= 0x39u8) || (0x41u8 <= b && b <= 0x5au8) || (0x61u8 <= b && b <= 0x7au8)
}

/// In UTF-8 text, every position holding an ASCII byte starts a character,
/// and so does the end of the text.
pub proof fn lemma_ascii_is_boundary(s: Seq<char>, i: int)
    requires
        0 <= i <= bytes_of(s).len(),
        i < bytes_of(s).len() ==> bytes_of(s)[i] < 0x80u8,
    ensures
        is_char_boundary(bytes_of(s), i),
{
    encode_utf8_valid_utf8(s);
    if i == bytes_of(s).len() {
        is_char_boundary_start_end_of_seq(bytes_of(s));
    } else {
        is_char_boundary_iff_not_is_continuation_byte(bytes_of(s), i);
    }
}

/// The substring of `s` between two character boundaries, given in bytes.
pub fn substring<'a>(s: &'a str, start: usize, end: usize) -> (r: &'a str)
    requires
        start <= end <= bytes_of(s@).len(),
        is_char_boundary(bytes_of(s@), start as int),
        is_char_boundary(bytes_of(s@), end as int),
    ensures
        bytes_of(r@) == bytes_of(s@).subrange(start as int, end as int),
{
    let (head, _) = s.split_at(end);
    proof {
        encode_utf8_valid_utf8(s@);
        valid_utf8_split(bytes_of(s@), end as int);
        assert(bytes_of(head@) == bytes_of(s@).subrange(0, end as int));
        let hb = bytes_of(head@);
        assert forall|k: int| 0 <= k <= start implies #[trigger] bytes_of(s@).subrange(0, k)
            == hb.subrange(0, k) by {
            assert(bytes_of(s@).subrange(0, k) =~= hb.subrange(0, k));
        }
        lemma_boundary_of_prefix(bytes_of(s@), end as int, start as int);
    }
    let (_, tail) = head.split_at(start);
    proof {
        assert(bytes_of(tail@) =~= bytes_of(s@).subrange(start as int, end as int));
    }
    tail
}

/// A boundary of a text stays a boundary of every prefix that contains it.
pub proof fn lemma_boundary_of_prefix(bytes: Seq<u8>, end: int, i: int)
    requires
        valid_utf8(bytes),
        0 <= i <= end <= bytes.len(),
        is_char_boundary(bytes, end),
        is_char_boundary(bytes, i),
    ensures
        is_char_boundary(bytes.subrange(0, end), i),
{
    valid_utf8_split(bytes, end);
    let pre = bytes.subrange(0, end);
    if i == end {
        is_char_boundary_start_end_of_seq(pre);
    } else {
        is_char_boundary_iff_not_is_continuation_byte(bytes, i);
        is_char_boundary_iff_not_is_continuation_byte(pre, i);
    }
}

} // verus!
