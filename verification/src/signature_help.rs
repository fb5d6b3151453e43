use vstd::prelude::*;
use vstd::utf8::*;

use crate::analysis_model::{AnalysisResult, SymbolEntry, SymbolEntryKind};
use crate::chars::{first_index, first_index_of, trim, trim_range, trim_start};
use crate::document::{spec_position_to_offset, Document, Position};
use crate::rope::byte_offset;
use crate::text::{
    byte_is_ascii_alnum, byte_is_ascii_ws, bytes_of, is_ascii_alnum, is_ascii_ws,
    lemma_ascii_is_boundary, str_eq, substring,
};
use crate::utf::{char_utf8_width, chars_of, lemma_bytes_prefix, lemma_bytes_push};

verus! {

/// How a byte changes the parenthesis depth when scanning leftwards.
pub open spec fn paren_delta(b: u8) -> int {
    if b == 0x29u8 {
        1
    } else if b == 0x28u8 {
        -1
    } else {
        0
    }
}

/// Closing minus opening parentheses among `b[lo..hi]`.
pub open spec fn balance(b: Seq<u8>, lo: int, hi: int) -> int
    decreases hi - lo,
{
    if hi <= lo {
        0
    } else {
        paren_delta(b[lo]) + balance(b, lo + 1, hi)
    }
}

/// Scanning leftwards from `pos` down to index 1, the first position at
/// which the text up to the cursor has more `(` than `)`.
pub open spec fn open_paren_from(b: Seq<u8>, pos: int, cursor: int) -> Option<int>
    decreases pos,
{
    if pos < 1 {
        None
    } else if balance(b, pos, cursor) < 0 {
        Some(pos)
    } else {
        open_paren_from(b, pos - 1, cursor)
    }
}

/// Commas at nesting depth zero among `b[lo..cursor]`.
pub open spec fn top_level_commas(b: Seq<u8>, lo: int, cursor: int) -> nat
    decreases cursor - lo,
{
    if cursor <= lo {
        0
    } else {
        (if b[lo] == 0x2cu8 && balance(b, lo + 1, cursor) == 0 { 1nat } else { 0nat })
            + top_level_commas(b, lo + 1, cursor)
    }
}

/// Moves `end` left over ASCII whitespace.
pub open spec fn skip_ws_left(b: Seq<u8>, end: int) -> int
    decreases end,
{
    if end > 0 && is_ascii_ws(b[end - 1]) {
        skip_ws_left(b, end - 1)
    } else {
        end
    }
}

/// Characters that may appear in a callee: letters, digits, `_`, `:`, `.`.
pub open spec fn is_callee_byte(b: u8) -> bool {
    is_ascii_alnum(b) || b == 0x5fu8 || b == 0x3au8 || b == 0x2eu8
}

/// Moves `end` left over callee characters.
pub open spec fn spec_callee_start(b: Seq<u8>, end: int) -> int
    decreases end,
{
    if end > 0 && is_callee_byte(b[end - 1]) {
        spec_callee_start(b, end - 1)
    } else {
        end
    }
}

/// The call whose argument list surrounds byte `offset`: the bytes of the
/// callee name written before the unmatched `(`, and the number of commas
/// at the call's top level between that `(` and the cursor.
pub open spec fn spec_active_call(b: Seq<u8>, offset: int) -> Option<(Seq<u8>, nat)> {
    if offset == 0 || offset > b.len() {
        None
    } else {
        match open_paren_from(b, offset - 1, offset) {
            None => None,
            Some(p) => {
                let end = skip_ws_left(b, p);
                let start = spec_callee_start(b, end);
                if start < end {
                    Some((b.subrange(start, end), top_level_commas(b, p + 1, offset)))
                } else {
                    None
                }
            },
        }
    }
}

proof fn lemma_balance_step(b: Seq<u8>, lo: int, hi: int)
    requires
        lo < hi,
    ensures
        balance(b, lo, hi) == paren_delta(b[lo]) + balance(b, lo + 1, hi),
{
}

proof fn lemma_balance_bound(b: Seq<u8>, lo: int, hi: int)
    requires
        lo <= hi,
    ensures
        -(hi - lo) <= balance(b, lo, hi) <= hi - lo,
    decreases hi - lo,
{
    if lo < hi {
        lemma_balance_bound(b, lo + 1, hi);
    }
}

proof fn lemma_skip_ws_bounds(b: Seq<u8>, end: int)
    requires
        0 <= end,
    ensures
        0 <= skip_ws_left(b, end) <= end,
        forall|k: int| skip_ws_left(b, end) <= k < end ==> is_ascii_ws(#[trigger] b[k]),
    decreases end,
{
    if end > 0 && is_ascii_ws(b[end - 1]) {
        lemma_skip_ws_bounds(b, end - 1);
    }
}

proof fn lemma_callee_start_bounds(b: Seq<u8>, end: int)
    requires
        0 <= end,
    ensures
        0 <= spec_callee_start(b, end) <= end,
        forall|k: int| spec_callee_start(b, end) <= k < end ==> is_callee_byte(#[trigger] b[k]),
    decreases end,
{
    if end > 0 && is_callee_byte(b[end - 1]) {
        lemma_callee_start_bounds(b, end - 1);
    }
}

/// Finds the call whose argument list contains the cursor at byte `offset`:
/// returns the callee text and the index of the active argument.
pub fn find_active_call(text: &str, offset: usize) -> (r: Option<(String, usize)>)
    requires
        bytes_of(text@).len() < 0x7fff_ffff_ffff_ffffint,
    ensures
        match (spec_active_call(bytes_of(text@), offset as int), r) {
            (None, None) => true,
            (Some((callee, commas)), Some((name, n))) => bytes_of(name@) == callee && n == commas,
            _ => false,
        },
{
    let bytes = text.as_bytes();
    let ghost b = bytes@;
    if offset == 0 || offset > bytes.len() {
        return None;
    }
    let mut nesting: i64 = 0;
    let mut commas: usize = 0;
    let mut start: usize = offset - 1;
    let mut found = false;
    while start > 0
        invariant_except_break
            b == bytes@,
            b == bytes_of(text@),
            b.len() < 0x7fff_ffff_ffff_ffffint,
            0 < offset <= b.len(),
            start < offset,
            nesting == balance(b, start + 1, offset as int),
            nesting >= 0,
            commas == top_level_commas(b, start + 1, offset as int),
            commas <= offset - 1 - start,
            open_paren_from(b, offset - 1, offset as int) == open_paren_from(
                b,
                start as int,
                offset as int,
            ),
            !found,
        ensures
            b == bytes@,
            b == bytes_of(text@),
            0 < offset <= b.len(),
            start < offset,
            found ==> open_paren_from(b, offset - 1, offset as int) == Some(start as int),
            found ==> b[start as int] == 0x28u8,
            found ==> commas == top_level_commas(b, start + 1, offset as int),
            found ==> start > 0,
            !found ==> open_paren_from(b, offset - 1, offset as int) is None,
        decreases start,
    {
        proof {
            lemma_balance_bound(b, start + 1, offset as int);
            lemma_balance_step(b, start as int, offset as int);
        }
        let c = bytes[start];
        if c == 0x29u8 {
            nesting = nesting + 1;
        } else if c == 0x28u8 {
            nesting = nesting - 1;
            if nesting < 0 {
                found = true;
                break;
            }
        } else if c == 0x2cu8 && nesting == 0 {
            commas = commas + 1;
        }
        start = start - 1;
    }
    if !found {
        return None;
    }
    let mut callee_end = start;
    while callee_end > 0 && byte_is_ascii_ws(bytes[callee_end - 1])
        invariant
            b == bytes@,
            0 <= callee_end <= start < b.len(),
            skip_ws_left(b, callee_end as int) == skip_ws_left(b, start as int),
        decreases callee_end,
    {
        callee_end = callee_end - 1;
    }
    let mut callee_start: usize = callee_end;
    while callee_start > 0 && (byte_is_ascii_alnum(bytes[callee_start - 1])
        || bytes[callee_start - 1] == 0x5fu8 || bytes[callee_start - 1] == 0x3au8
        || bytes[callee_start - 1] == 0x2eu8)
        invariant
            b == bytes@,
            0 <= callee_start <= callee_end <= start < b.len(),
            spec_callee_start(b, callee_start as int) == spec_callee_start(b, callee_end as int),
        decreases callee_start,
    {
        callee_start = callee_start - 1;
    }
    if callee_start < callee_end {
        proof {
            lemma_skip_ws_bounds(b, start as int);
            lemma_callee_start_bounds(b, callee_end as int);
            assert(b[start as int] == 0x28u8);
            lemma_ascii_is_boundary(text@, callee_start as int);
            if callee_end < start {
                assert(is_ascii_ws(b[callee_end as int]));
            }
            lemma_ascii_is_boundary(text@, callee_end as int);
        }
        let callee = substring(text, callee_start, callee_end);
        return Some((String::from_str(callee), commas));
    }
    None
}


// ---------------------------------------------------------------------
// Signature of the active call
// ---------------------------------------------------------------------

/// The signatures of the built-in functions, by name.
pub open spec fn spec_builtin_signature(name: Seq<char>) -> Option<Seq<char>> {
    if name == "print"@ {
        Some("fn print(s: cstr)"@)
    } else if name == "println"@ {
        Some("fn println(s: cstr)"@)
    } else if name == "print_i32"@ {
        Some("fn print_i32(v: i32)"@)
    } else if name == "println_i32"@ {
        Some("fn println_i32(v: i32)"@)
    } else if name == "print_f32"@ {
        Some("fn print_f32(v: f32)"@)
    } else if name == "println_f32"@ {
        Some("fn println_f32(v: f32)"@)
    } else if name == "print_bool"@ {
        Some("fn print_bool(v: bool)"@)
    } else if name == "println_bool"@ {
        Some("fn println_bool(v: bool)"@)
    } else if name == "sqrt_f32"@ {
        Some("fn sqrt_f32(x: f32) -> f32"@)
    } else if name == "sqrt_f64"@ {
        Some("fn sqrt_f64(x: f64) -> f64"@)
    } else if name == "sin_f32"@ {
        Some("fn sin_f32(x: f32) -> f32"@)
    } else if name == "cos_f32"@ {
        Some("fn cos_f32(x: f32) -> f32"@)
    } else if name == "abs_i32"@ {
        Some("fn abs_i32(x: i32) -> i32"@)
    } else if name == "abs_f32"@ {
        Some("fn abs_f32(x: f32) -> f32"@)
    } else if name == "min_i32"@ {
        Some("fn min_i32(a: i32, b: i32) -> i32"@)
    } else if name == "max_i32"@ {
        Some("fn max_i32(a: i32, b: i32) -> i32"@)
    } else if name == "min_f32"@ {
        Some("fn min_f32(a: f32, b: f32) -> i32"@)
    } else if name == "max_f32"@ {
        Some("fn max_f32(a: f32, b: f32) -> i32"@)
    } else if name == "clone"@ {
        Some("fn clone(value: T) -> T"@)
    } else {
        None
    }
}

fn some_text(s: &str) -> (r: Option<String>)
    ensures
        r matches Some(t) && t@ == s@,
{
    Some(String::from_str(s))
}

/// The signature of the built-in function `name`, if it is one.
pub fn builtin_signature(name: &str) -> (r: Option<String>)
    ensures
        match r {
            Some(t) => spec_builtin_signature(name@) == Some(t@),
            None => spec_builtin_signature(name@) is None,
        },
{
    if str_eq(name, "print") {
        some_text("fn print(s: cstr)")
    } else if str_eq(name, "println") {
        some_text("fn println(s: cstr)")
    } else if str_eq(name, "print_i32") {
        some_text("fn print_i32(v: i32)")
    } else if str_eq(name, "println_i32") {
        some_text("fn println_i32(v: i32)")
    } else if str_eq(name, "print_f32") {
        some_text("fn print_f32(v: f32)")
    } else if str_eq(name, "println_f32") {
        some_text("fn println_f32(v: f32)")
    } else if str_eq(name, "print_bool") {
        some_text("fn print_bool(v: bool)")
    } else if str_eq(name, "println_bool") {
        some_text("fn println_bool(v: bool)")
    } else if str_eq(name, "sqrt_f32") {
        some_text("fn sqrt_f32(x: f32) -> f32")
    } else if str_eq(name, "sqrt_f64") {
        some_text("fn sqrt_f64(x: f64) -> f64")
    } else if str_eq(name, "sin_f32") {
        some_text("fn sin_f32(x: f32) -> f32")
    } else if str_eq(name, "cos_f32") {
        some_text("fn cos_f32(x: f32) -> f32")
    } else if str_eq(name, "abs_i32") {
        some_text("fn abs_i32(x: i32) -> i32")
    } else if str_eq(name, "abs_f32") {
        some_text("fn abs_f32(x: f32) -> f32")
    } else if str_eq(name, "min_i32") {
        some_text("fn min_i32(a: i32, b: i32) -> i32")
    } else if str_eq(name, "max_i32") {
        some_text("fn max_i32(a: i32, b: i32) -> i32")
    } else if str_eq(name, "min_f32") {
        some_text("fn min_f32(a: f32, b: f32) -> i32")
    } else if str_eq(name, "max_f32") {
        some_text("fn max_f32(a: f32, b: f32) -> i32")
    } else if str_eq(name, "clone") {
        some_text("fn clone(value: T) -> T")
    } else {
        None
    }
}

/// The last position of `c` in `s`, if any.
pub open spec fn last_index(s: Seq<char>, c: char) -> Option<int>
    decreases s.len(),
{
    if s.len() == 0 {
        None
    } else if s.last() == c {
        Some(s.len() - 1)
    } else {
        last_index(s.drop_last(), c)
    }
}

/// The start of the last `::` in `s`, if any.
pub open spec fn last_path_sep(s: Seq<char>) -> Option<int>
    decreases s.len(),
{
    if s.len() < 2 {
        None
    } else if s[s.len() - 2] == ':' && s.last() == ':' {
        Some(s.len() - 2)
    } else {
        last_path_sep(s.drop_last())
    }
}

/// The name a callee is looked up by: what follows its last `.`, else
/// what follows its last `::`, else the whole callee.
pub open spec fn search_name(callee: Seq<char>) -> Seq<char> {
    match last_index(callee, '.') {
        Some(i) => callee.skip(i + 1),
        None => match last_path_sep(callee) {
            Some(i) => callee.skip(i + 2),
            None => callee,
        },
    }
}

proof fn lemma_last_index(s: Seq<char>, c: char)
    ensures
        last_index(s, c) matches Some(i) ==> 0 <= i < s.len(),
    decreases s.len(),
{
    if s.len() > 0 && s.last() != c {
        lemma_last_index(s.drop_last(), c);
    }
}

proof fn lemma_last_path_sep(s: Seq<char>)
    ensures
        last_path_sep(s) matches Some(i) ==> 0 <= i && i + 2 <= s.len(),
    decreases s.len(),
{
    if s.len() >= 2 && !(s[s.len() - 2] == ':' && s.last() == ':') {
        lemma_last_path_sep(s.drop_last());
    }
}

/// The callee's search name (see `search_name`).
fn callee_search_name(callee: &Vec<char>) -> (r: Vec<char>)
    ensures
        r@ == search_name(callee@),
{
    let mut i = callee.len();
    proof {
        assert(callee@.take(i as int) =~= callee@);
    }
    while i > 0 && callee[i - 1] != '.'
        invariant
            i <= callee@.len(),
            last_index(callee@, '.') == last_index(callee@.take(i as int), '.'),
        decreases i,
    {
        proof {
            assert(callee@.take(i as int).drop_last() =~= callee@.take(i - 1));
        }
        i = i - 1;
    }
    if i > 0 {
        proof {
            assert(callee@.take(i as int).last() == callee@[i - 1]);
        }
        return crate::chars::sub_vec(callee, i, callee.len());
    }
    proof {
        assert(callee@.take(0) =~= Seq::<char>::empty());
    }
    let mut j = callee.len();
    proof {
        assert(callee@.take(j as int) =~= callee@);
    }
    while j >= 2 && !(callee[j - 2] == ':' && callee[j - 1] == ':')
        invariant
            j <= callee@.len(),
            last_path_sep(callee@) == last_path_sep(callee@.take(j as int)),
        decreases j,
    {
        proof {
            assert(callee@.take(j as int).drop_last() =~= callee@.take(j - 1));
        }
        j = j - 1;
    }
    if j >= 2 {
        proof {
            let t = callee@.take(j as int);
            assert(t[t.len() - 2] == callee@[j - 2] && t.last() == callee@[j - 1]);
        }
        crate::chars::sub_vec(callee, j, callee.len())
    } else {
        proof {
            assert(last_path_sep(callee@.take(j as int)) is None);
        }
        crate::chars::sub_vec(callee, 0, callee.len())
    }
}

/// Whether an entry kind is a function of some sort.
pub open spec fn is_function_kind(k: SymbolEntryKind) -> bool {
    k == SymbolEntryKind::Function || k == SymbolEntryKind::ExportFunction || k
        == SymbolEntryKind::ExternFunction
}

/// Whether an entry named `name` answers to the search name `s`: it is
/// `s`, or ends with `::` and `s`.
pub open spec fn answers_to(name: Seq<char>, s: Seq<char>) -> bool {
    name == s || (name.len() >= s.len() + 2 && name.skip(name.len() - s.len() - 2) == seq![':', ':'] + s)
}

/// The first function entry at or after `i` that answers to `s`.
pub open spec fn first_function_from(entries: Seq<SymbolEntry>, s: Seq<char>, i: int) -> Option<int>
    decreases entries.len() - i,
{
    if i < 0 || i >= entries.len() {
        None
    } else if is_function_kind(entries[i].kind) && answers_to(entries[i].name@, s) {
        Some(i)
    } else {
        first_function_from(entries, s, i + 1)
    }
}

fn name_answers_to(name: &str, s: &Vec<char>) -> (r: bool)
    ensures
        r == answers_to(name@, s@),
{
    let n = chars_of(name);
    if n.len() == s.len() {
        let mut k: usize = 0;
        while k < n.len()
            invariant
                n@ == name@,
                n@.len() == s@.len(),
                k <= n@.len(),
                forall|j: int| 0 <= j < k ==> n@[j] == s@[j],
            decreases n@.len() - k,
        {
            if n[k] != s[k] {
                proof {
                    assert(n@[k as int] != s@[k as int]);
                    assert(n@ != s@);
                }
                return false;
            }
            k = k + 1;
        }
        proof {
            assert(n@ =~= s@);
        }
        return true;
    }
    if n.len() < 2 || n.len() - 2 < s.len() {
        return false;
    }
    let base = n.len() - s.len() - 2;
    let off = base + 2;
    if n[base] != ':' || n[base + 1] != ':' {
        proof {
            let tail = n@.skip(base as int);
            assert(tail[0] == n@[base as int] && tail[1] == n@[base + 1]);
            assert((seq![':', ':'] + s@)[0] == ':' && (seq![':', ':'] + s@)[1] == ':');
        }
        return false;
    }
    let mut k: usize = 0;
    while k < s.len()
        invariant
            n@ == name@,
            n@.len() <= usize::MAX,
            off == base + 2,
            off + s@.len() == n@.len(),
            n@.len() != s@.len(),
            k <= s@.len(),
            forall|j: int| 0 <= j < k ==> n@[off + j] == s@[j],
        decreases s@.len() - k,
    {
        if n[off + k] != s[k] {
            proof {
                let tail = n@.skip(base as int);
                let target = seq![':', ':'] + s@;
                assert(tail[2 + k] == n@[off + k]);
                assert(target[2 + k] == s@[k as int]);
                assert(tail != target);
                assert(n@ != s@);
            }
            return false;
        }
        k = k + 1;
    }
    proof {
        assert(n@.skip(base as int) =~= seq![':', ':'] + s@);
    }
    true
}

/// What the signature of the callee `callee` is: a built-in one, else the
/// detail of the first function entry answering to its search name.
pub open spec fn signature_text(entries: Seq<SymbolEntry>, callee: Seq<char>) -> Option<Seq<char>> {
    match spec_builtin_signature(callee) {
        Some(s) => Some(s),
        None => match first_function_from(entries, search_name(callee), 0) {
            Some(i) => match entries[i].detail {
                Some(d) => Some(d@),
                None => None,
            },
            None => None,
        },
    }
}

fn signature_for(analysis: &AnalysisResult, callee: &str) -> (r: Option<String>)
    ensures
        match r {
            Some(t) => signature_text(analysis.symbol_index.entries@, callee@) == Some(t@),
            None => signature_text(analysis.symbol_index.entries@, callee@) is None,
        },
{
    match builtin_signature(callee) {
        Some(s) => return Some(s),
        None => {},
    }
    let cs = chars_of(callee);
    let s = callee_search_name(&cs);
    let entries = &analysis.symbol_index.entries;
    let mut i: usize = 0;
    while i < entries.len()
        invariant
            i <= entries@.len(),
            entries@ == analysis.symbol_index.entries@,
            s@ == search_name(callee@),
            spec_builtin_signature(callee@) is None,
            first_function_from(entries@, s@, 0) == first_function_from(entries@, s@, i as int),
        decreases entries@.len() - i,
    {
        let e = &entries[i];
        let kind_ok = match e.kind {
            SymbolEntryKind::Function | SymbolEntryKind::ExportFunction | SymbolEntryKind::ExternFunction => true,
            _ => false,
        };
        if kind_ok && name_answers_to(e.name.as_str(), &s) {
            proof {
                assert(is_function_kind(entries@[i as int].kind));
                assert(first_function_from(entries@, s@, i as int) == Some(i as int));
                assert(search_name(callee@) == s@);
            }
            return match &e.detail {
                Some(d) => Some(d.clone()),
                None => None,
            };
        }
        i = i + 1;
    }
    None
}

/// The label of a parameter between `lo` and `end`: the byte bounds of its
/// text without surrounding white space, if any is left.
pub open spec fn piece_label(s: Seq<char>, lo: int, end: int) -> Seq<(u32, u32)> {
    let piece = s.subrange(lo, end);
    let a = lo + piece.len() - trim_start(piece).len();
    let b = a + trim(piece).len();
    if trim(piece).len() > 0 {
        seq![(byte_offset(s, a) as u32, byte_offset(s, b) as u32)]
    } else {
        seq![]
    }
}

/// The labels of the comma-separated parameters of `s[start..hi]`, the
/// current one starting at `start` and the scan being at `k`.
pub open spec fn labels_scan(s: Seq<char>, start: int, k: int, hi: int) -> Seq<(u32, u32)>
    decreases hi - k,
{
    if k >= hi {
        piece_label(s, start, hi)
    } else if s[k] == ',' {
        piece_label(s, start, k) + labels_scan(s, k + 1, k + 1, hi)
    } else {
        labels_scan(s, start, k + 1, hi)
    }
}

/// The parameter labels of a signature: the pieces between its first `(`
/// and its first `)`, as byte bounds in the signature.
pub open spec fn parameter_labels(sig: Seq<char>) -> Seq<(u32, u32)> {
    match (first_index(sig, '('), first_index(sig, ')')) {
        (Some(o), Some(c)) => if o < c {
            labels_scan(sig, o + 1, o + 1, c)
        } else {
            seq![]
        },
        _ => seq![],
    }
}

/// The byte offset of character `k` of `v`.
pub(crate) fn byte_offset_of(v: &Vec<char>, k: usize) -> (r: usize)
    requires
        k <= v@.len(),
        bytes_of(v@).len() <= usize::MAX,
    ensures
        r == byte_offset(v@, k as int),
{
    let mut i: usize = 0;
    let mut n: usize = 0;
    while i < k
        invariant
            i <= k <= v@.len(),
            bytes_of(v@).len() <= usize::MAX,
            n == byte_offset(v@, i as int),
        decreases k - i,
    {
        proof {
            assert(v@.take(i + 1) =~= v@.take(i as int).push(v@[i as int]));
            lemma_bytes_push(v@.take(i as int), v@[i as int]);
            lemma_bytes_prefix(v@, i + 1);
        }
        n = n + char_utf8_width(v[i]);
        i = i + 1;
    }
    n
}

fn push_piece_label(out: &mut Vec<(u32, u32)>, v: &Vec<char>, lo: usize, end: usize)
    requires
        lo <= end <= v@.len(),
        bytes_of(v@).len() <= usize::MAX,
    ensures
        final(out)@ == old(out)@ + piece_label(v@, lo as int, end as int),
{
    let (a, b) = trim_range(v, lo, end);
    if a < b {
        let x = byte_offset_of(v, a);
        let y = byte_offset_of(v, b);
        out.push((x as u32, y as u32));
    }
    proof {
        let piece = v@.subrange(lo as int, end as int);
        assert(v@.subrange(a as int, b as int).len() == b - a);
    }
}

/// The labels of the parameters of `v[lo..hi]` (see `labels_scan`).
fn parameter_pieces(v: &Vec<char>, lo: usize, hi: usize) -> (r: Vec<(u32, u32)>)
    requires
        lo <= hi <= v@.len(),
        bytes_of(v@).len() <= usize::MAX,
    ensures
        r@ == labels_scan(v@, lo as int, lo as int, hi as int),
{
    let mut out: Vec<(u32, u32)> = Vec::new();
    let mut start = lo;
    let mut k = lo;
    while k < hi
        invariant
            lo <= start <= k <= hi <= v@.len(),
            bytes_of(v@).len() <= usize::MAX,
            out@ + labels_scan(v@, start as int, k as int, hi as int) == labels_scan(
                v@,
                lo as int,
                lo as int,
                hi as int,
            ),
        decreases hi - k,
    {
        if v[k] == ',' {
            let ghost before = out@;
            push_piece_label(&mut out, v, start, k);
            proof {
                assert(out@ + labels_scan(v@, k + 1, k + 1, hi as int) =~= before + labels_scan(
                    v@,
                    start as int,
                    k as int,
                    hi as int,
                ));
            }
            start = k + 1;
        }
        k = k + 1;
    }
    let ghost before = out@;
    push_piece_label(&mut out, v, start, hi);
    proof {
        assert(labels_scan(v@, start as int, k as int, hi as int) == piece_label(v@, start as int, hi as int));
    }
    out
}

/// One signature and the parameter labels found in it.
#[derive(Debug)]
pub struct SignatureInformation {
    pub label: String,
    pub parameters: Option<Vec<(u32, u32)>>,
}

/// The signatures offered at a call, with the active one and the active
/// parameter.
#[derive(Debug)]
pub struct SignatureHelp {
    pub signatures: Vec<SignatureInformation>,
    pub active_signature: Option<u32>,
    pub active_parameter: Option<u32>,
}

/// The signature help for a cursor at `position`: the call around it, its
/// signature, that signature's parameters and the index of the active one.
pub fn signature_help(document: &Document, position: Position, analysis: &AnalysisResult) -> (r: Option<SignatureHelp>)
    requires
        document.wf(),
        bytes_of(document.text_view()).len() < 0x7fff_ffff_ffff_ffffint,
        spec_active_call(bytes_of(document.text_view()), spec_position_to_offset(document.text_view(), position))
            matches Some((callee_bytes, _)) ==> forall|callee: Seq<char>|
            bytes_of(callee) == callee_bytes ==> (#[trigger] signature_text(analysis.symbol_index.entries@, callee)
                matches Some(sig) ==> parens_in_order(sig)),
    ensures
        match spec_active_call(bytes_of(document.text_view()), spec_position_to_offset(document.text_view(), position)) {
            None => r is None,
            Some((callee_bytes, commas)) => exists|callee: Seq<char>|
                bytes_of(callee) == callee_bytes && match signature_text(analysis.symbol_index.entries@, callee) {
                    None => r is None,
                    Some(sig) => r matches Some(h) && {
                        &&& h.signatures@.len() == 1
                        &&& h.signatures@[0].label@ == sig
                        &&& h.signatures@[0].parameters matches Some(ps) && ps@ == parameter_labels(sig)
                        &&& h.active_signature == Some(0u32)
                        &&& h.active_parameter == Some(commas as u32)
                    },
                },
        },
{
    let offset = document.position_to_offset(position);
    let text = document.text();
    let t: &str = text.as_str();
    let (callee, commas) = match find_active_call(t, offset) {
        Some(found) => found,
        None => return None,
    };
    let label = match signature_for(analysis, callee.as_str()) {
        Some(s) => s,
        None => return None,
    };
    let sig = chars_of(label.as_str());
    let n = label.as_str().as_bytes().len();
    proof {
        assert(bytes_of(sig@).len() == n);
    }
    let mut parameters: Vec<(u32, u32)> = Vec::new();
    match (first_index_of(&sig, '('), first_index_of(&sig, ')')) {
        (Some(open), Some(close)) => {
            if open < close {
                parameters = parameter_pieces(&sig, open + 1, close);
            }
        },
        _ => {},
    }
    let info = SignatureInformation { label, parameters: Some(parameters) };
    Some(SignatureHelp { signatures: vec![info], active_signature: Some(0), active_parameter: Some(commas as u32) })
}

/// The first `)` of a signature does not come before its first `(`.
pub open spec fn parens_in_order(s: Seq<char>) -> bool {
    match (first_index(s, '('), first_index(s, ')')) {
        (Some(o), Some(c)) => o < c,
        _ => true,
    }
}

} // verus!
