use vstd::prelude::*;

use crate::analysis_model::{AnalysisResult, SymbolEntry, SymbolEntryKind};
use crate::chars::{char_is_uppercase, sub_vec, unicode_uppercase};
use crate::diagnostics::{on_boundary, position_at};
use crate::document::{Document, Position};
use crate::rope::byte_offset;
use crate::signature_help::byte_offset_of;
use crate::text::{bytes_of, str_eq};
use crate::token::{Keyword, LiteralKind, Token, TokenKind};
use crate::ty::spec_primitive_type;
use crate::utf::{char_index_at_byte, char_index_of_byte, chars_of};

verus! {

/// One token in the editor protocol's relative encoding.
#[derive(Clone, Copy, Debug, PartialEq, Eq, Structural)]
pub struct SemanticToken {
    pub delta_line: u32,
    pub delta_start: u32,
    pub length: u32,
    pub token_type: u32,
    pub token_modifiers_bitset: u32,
}

/// An absolute token: where it starts, its length and its type.
pub type RawToken = (Position, u32, u32);

/// Tokens ordered by line, and by column within a line.
pub open spec fn tokens_sorted(tokens: Seq<RawToken>) -> bool {
    forall|i: int| 0 < i < tokens.len() ==> #[trigger] position_le(tokens[i - 1].0, tokens[i].0)
}

/// `p` comes no later than `q`.
pub open spec fn position_le(p: Position, q: Position) -> bool {
    p.line < q.line || (p.line == q.line && p.character <= q.character)
}

/// The relative encoding of token `i`: its line relative to the previous
/// token's line, and its column relative to the previous token's column
/// when both are on the same line (the first token is relative to 0:0).
pub open spec fn encode_one(tokens: Seq<RawToken>, i: int) -> SemanticToken {
    let p = tokens[i].0;
    let (pl, pc) = if i == 0 {
        (0u32, 0u32)
    } else {
        (tokens[i - 1].0.line, tokens[i - 1].0.character)
    };
    let dl = (p.line - pl) as u32;
    SemanticToken {
        delta_line: dl,
        delta_start: if dl == 0 { (p.character - pc) as u32 } else { p.character },
        length: tokens[i].1,
        token_type: tokens[i].2,
        token_modifiers_bitset: 0,
    }
}

/// Encodes sorted absolute tokens relatively, as the protocol requires.
pub fn encode_delta(tokens: Vec<RawToken>) -> (r: Vec<SemanticToken>)
    requires
        tokens_sorted(tokens@),
    ensures
        r@.len() == tokens@.len(),
        forall|i: int| 0 <= i < r@.len() ==> r@[i] == encode_one(tokens@, i),
{
    let mut previous_line: u32 = 0;
    let mut previous_start: u32 = 0;
    let mut encoded: Vec<SemanticToken> = Vec::with_capacity(tokens.len());
    let mut i: usize = 0;
    while i < tokens.len()
        invariant
            tokens_sorted(tokens@),
            0 <= i <= tokens@.len(),
            encoded@.len() == i,
            forall|j: int| 0 <= j < i ==> encoded@[j] == encode_one(tokens@, j),
            i == 0 ==> previous_line == 0 && previous_start == 0,
            i > 0 ==> previous_line == tokens@[i - 1].0.line && previous_start == tokens@[i
                - 1].0.character,
        decreases tokens@.len() - i,
    {
        let (position, length, token_type) = tokens[i];
        proof {
            if i > 0 {
                assert(position_le(tokens@[i - 1].0, tokens@[i as int].0));
            }
        }
        let delta_line = position.line - previous_line;
        let delta_start = if delta_line == 0 {
            position.character - previous_start
        } else {
            position.character
        };
        encoded.push(
            SemanticToken {
                delta_line,
                delta_start,
                length,
                token_type,
                token_modifiers_bitset: 0,
            },
        );
        previous_line = position.line;
        previous_start = position.character;
        i = i + 1;
    }
    encoded
}

/// The absolute position of token `i`, recovered from relative tokens.
pub open spec fn decode_position(encoded: Seq<SemanticToken>, i: int) -> Position
    decreases i + 1,
{
    if i < 0 {
        Position { line: 0, character: 0 }
    } else {
        let prev = decode_position(encoded, i - 1);
        let t = encoded[i];
        Position {
            line: (prev.line + t.delta_line) as u32,
            character: if t.delta_line == 0 {
                (prev.character + t.delta_start) as u32
            } else {
                t.delta_start
            },
        }
    }
}

/// Decoding the relative encoding gives back every token's absolute
/// position, length and type.
pub proof fn lemma_decode_encode(tokens: Seq<RawToken>, encoded: Seq<SemanticToken>, i: int)
    requires
        tokens_sorted(tokens),
        encoded.len() == tokens.len(),
        forall|j: int| 0 <= j < encoded.len() ==> encoded[j] == encode_one(tokens, j),
        0 <= i < tokens.len(),
    ensures
        decode_position(encoded, i) == tokens[i].0,
        encoded[i].length == tokens[i].1,
        encoded[i].token_type == tokens[i].2,
    decreases i,
{
    if i > 0 {
        lemma_decode_encode(tokens, encoded, i - 1);
        assert(position_le(tokens[i - 1].0, tokens[i].0));
    }
    assert(decode_position(encoded, i - 1) == if i == 0 {
        Position { line: 0, character: 0 }
    } else {
        tokens[i - 1].0
    });
}

/// Names of the built-in scalar types, and `void`.
pub open spec fn spec_primitive_name(name: Seq<char>) -> bool {
    spec_primitive_type(name) is Some || name == "void"@
}

/// Whether an identifier names a built-in type.
pub fn primitive_name(name: &str) -> (r: bool)
    ensures
        r == spec_primitive_name(name@),
{
    crate::ty::primitive_type(name).is_some() || str_eq(name, "void")
}


// ---------------------------------------------------------------------
// The legend
// ---------------------------------------------------------------------

/// The token types and modifiers a client is told about.
#[derive(Debug)]
pub struct SemanticTokensLegend {
    pub token_types: Vec<String>,
    pub token_modifiers: Vec<String>,
}

/// The token type names, numbered by their position.
pub open spec fn legend_names() -> Seq<Seq<char>> {
    seq![
        "keyword"@,
        "function"@,
        "method"@,
        "variable"@,
        "parameter"@,
        "type"@,
        "struct"@,
        "enum"@,
        "enumMember"@,
        "property"@,
        "number"@,
        "string"@,
        "operator"@,
    ]
}

/// The legend: the token types in order, and no modifiers.
pub fn legend() -> (r: SemanticTokensLegend)
    ensures
        r.token_types@.len() == legend_names().len(),
        forall|i: int| 0 <= i < r.token_types@.len() ==> (#[trigger] r.token_types@[i])@ == legend_names()[i],
        r.token_modifiers@.len() == 0,
{
    let names = [
        "keyword",
        "function",
        "method",
        "variable",
        "parameter",
        "type",
        "struct",
        "enum",
        "enumMember",
        "property",
        "number",
        "string",
        "operator",
    ];
    let mut token_types: Vec<String> = Vec::new();
    let mut i: usize = 0;
    while i < 13
        invariant
            i <= 13,
            names@ == seq![
                "keyword",
                "function",
                "method",
                "variable",
                "parameter",
                "type",
                "struct",
                "enum",
                "enumMember",
                "property",
                "number",
                "string",
                "operator",
            ],
            token_types@.len() == i,
            forall|j: int| 0 <= j < i ==> (#[trigger] token_types@[j])@ == names@[j]@,
        decreases 13 - i,
    {
        token_types.push(String::from_str(names[i]));
        i = i + 1;
    }
    proof {
        assert forall|j: int| 0 <= j < 13 implies (#[trigger] token_types@[j])@ == legend_names()[j] by {
            assert(token_types@[j]@ == names@[j]@);
        }
    }
    SemanticTokensLegend { token_types, token_modifiers: Vec::new() }
}

// ---------------------------------------------------------------------
// Tokens of the symbol index
// ---------------------------------------------------------------------

/// The token type of a symbol entry: methods (functions with a parent)
/// apart from other functions.
pub open spec fn entry_token_type(e: SymbolEntry) -> u32 {
    match e.kind {
        SymbolEntryKind::Function | SymbolEntryKind::ExportFunction | SymbolEntryKind::ExternFunction => if e.parent is Some {
            2
        } else {
            1
        },
        SymbolEntryKind::Struct | SymbolEntryKind::TypeAlias => 6,
        SymbolEntryKind::Enum => 7,
        SymbolEntryKind::Variant => 8,
        SymbolEntryKind::Field => 9,
        SymbolEntryKind::Parameter => 4,
        SymbolEntryKind::Const | SymbolEntryKind::Local => 3,
    }
}

fn token_type_of_entry(e: &SymbolEntry) -> (r: u32)
    ensures
        r == entry_token_type(*e),
{
    match e.kind {
        SymbolEntryKind::Function | SymbolEntryKind::ExportFunction | SymbolEntryKind::ExternFunction => if e.parent.is_some() {
            2
        } else {
            1
        },
        SymbolEntryKind::Struct | SymbolEntryKind::TypeAlias => 6,
        SymbolEntryKind::Enum => 7,
        SymbolEntryKind::Variant => 8,
        SymbolEntryKind::Field => 9,
        SymbolEntryKind::Parameter => 4,
        SymbolEntryKind::Const | SymbolEntryKind::Local => 3,
    }
}

/// The first position at or after `i` where `n` occurs in `h`.
pub open spec fn first_sub_from(h: Seq<char>, n: Seq<char>, i: int) -> Option<int>
    decreases h.len() + 1 - i,
{
    if i < 0 || i + n.len() > h.len() {
        None
    } else if h.subrange(i, i + n.len()) == n {
        Some(i)
    } else {
        first_sub_from(h, n, i + 1)
    }
}

fn find_chars(h: &Vec<char>, n: &Vec<char>) -> (r: Option<usize>)
    ensures
        r matches Some(j) ==> first_sub_from(h@, n@, 0) == Some(j as int) && j + n@.len() <= h@.len(),
        r is None ==> first_sub_from(h@, n@, 0) is None,
{
    let hl = h.len();
    let nl = n.len();
    if nl == 0 {
        proof {
            assert(h@.subrange(0, 0) =~= n@);
        }
        return Some(0);
    }
    if nl > hl {
        return None;
    }
    let last = hl - nl;
    let mut i: usize = 0;
    while i <= last
        invariant
            hl == h@.len(),
            nl == n@.len(),
            nl >= 1,
            last + nl == hl,
            i <= last + 1,
            first_sub_from(h@, n@, 0) == first_sub_from(h@, n@, i as int),
        decreases last + 1 - i,
    {
        let mut k: usize = 0;
        let mut same = true;
        while k < nl
            invariant
                hl == h@.len(),
                nl == n@.len(),
                last + nl == hl,
                i <= last,
                k <= nl,
                same ==> forall|j: int| 0 <= j < k ==> h@[i + j] == n@[j],
                !same ==> h@.subrange(i as int, i + n@.len()) != n@,
            decreases nl - k,
        {
            if h[i + k] != n[k] {
                proof {
                    assert(h@.subrange(i as int, i + n@.len())[k as int] == h@[i + k]);
                }
                same = false;
            }
            k = k + 1;
        }
        if same {
            proof {
                assert(h@.subrange(i as int, i + n@.len()) =~= n@);
            }
            return Some(i);
        }
        i = i + 1;
    }
    None
}

/// Where the name of a symbol starts: its first occurrence between the
/// byte offsets `start` and `end` when they fall between characters, else
/// `start`.
pub open spec fn spec_name_offset(s: Seq<char>, start: int, end: int, name: Seq<char>) -> int {
    match (char_index_at_byte(s, start), char_index_at_byte(s, end)) {
        (Some(a), Some(b)) => if a <= b {
            match first_sub_from(s.subrange(a, b), name, 0) {
                Some(j) => byte_offset(s, a + j) as int,
                None => start,
            }
        } else {
            start
        },
        _ => start,
    }
}

fn name_offset(cs: &Vec<char>, start: usize, end: usize, name: &str) -> (r: usize)
    requires
        bytes_of(cs@).len() <= usize::MAX,
    ensures
        r == spec_name_offset(cs@, start as int, end as int, name@),
        r != start ==> exists|k: int| 0 <= k <= cs@.len() && byte_offset(cs@, k) == r,
{
    let cl = cs.len();
    match (char_index_of_byte(cs, start), char_index_of_byte(cs, end)) {
        (Some(a), Some(b)) => {
            if a <= b {
                let sub = sub_vec(cs, a, b);
                let n = chars_of(name);
                proof {
                    assert(sub@.len() == b - a);
                }
                match find_chars(&sub, &n) {
                    Some(j) => {
                        proof {
                            assert(j + n@.len() <= b - a);
                            assert(a + j <= cl);
                        }
                        let off = byte_offset_of(cs, a + j);
                        off
                    },
                    None => start,
                }
            } else {
                start
            }
        },
        _ => start,
    }
}

/// The token of a symbol entry, if its name is not empty.
pub open spec fn entry_raw(s: Seq<char>, e: SymbolEntry) -> Option<RawToken> {
    if bytes_of(e.name@).len() == 0 {
        None
    } else {
        Some(
            (
                position_at(s, spec_name_offset(s, e.selection_span.start as int, e.selection_span.end as int, e.name@)),
                bytes_of(e.name@).len() as u32,
                entry_token_type(e),
            ),
        )
    }
}

/// The tokens of the entries, in order.
pub open spec fn symbol_raws(s: Seq<char>, entries: Seq<SymbolEntry>) -> Seq<RawToken>
    decreases entries.len(),
{
    if entries.len() == 0 {
        seq![]
    } else {
        symbol_raws(s, entries.drop_last()) + match entry_raw(s, entries.last()) {
            Some(t) => seq![t],
            None => seq![],
        }
    }
}

/// Every entry's name span starts between two characters.
pub open spec fn entries_on_boundaries(s: Seq<char>, entries: Seq<SymbolEntry>) -> bool {
    forall|i: int| 0 <= i < entries.len() ==> on_boundary(s, (#[trigger] entries[i]).selection_span.start as int)
}

// ---------------------------------------------------------------------
// Tokens of the lexer
// ---------------------------------------------------------------------

/// The token type of an identifier: `self`, a built-in type, a function
/// name after `fn`, a field after `.`, a method after `::`, a type when
/// capitalized, and otherwise a variable.
pub open spec fn ident_token_type(tokens: Seq<Token>, i: int, name: Seq<char>) -> u32 {
    if name == "self"@ {
        3
    } else if spec_primitive_name(name) {
        5
    } else if i > 0 && tokens[i - 1].kind == TokenKind::Keyword(Keyword::Fn) {
        1
    } else if i > 0 && tokens[i - 1].kind is Dot {
        9
    } else if i > 0 && tokens[i - 1].kind is ColonColon {
        2
    } else if name.len() > 0 && unicode_uppercase(name[0]) {
        6
    } else {
        3
    }
}

/// The token type of lexer token `i`, if it gets one.
pub open spec fn lexer_token_type(tokens: Seq<Token>, i: int) -> Option<u32> {
    match tokens[i].kind {
        TokenKind::Keyword(_) => Some(0),
        TokenKind::Literal(LiteralKind::Integer(_)) | TokenKind::Literal(LiteralKind::Float(_)) => Some(10),
        TokenKind::Literal(_) => Some(11),
        TokenKind::Ident(name) => Some(ident_token_type(tokens, i, name@)),
        TokenKind::Plus | TokenKind::Minus | TokenKind::Star | TokenKind::Slash | TokenKind::Percent | TokenKind::Eq
        | TokenKind::EqEq | TokenKind::Bang | TokenKind::BangEq | TokenKind::Lt | TokenKind::LtEq | TokenKind::Gt
        | TokenKind::GtEq | TokenKind::Amp | TokenKind::AmpAmp | TokenKind::Pipe | TokenKind::PipePipe
        | TokenKind::Arrow | TokenKind::FatArrow => Some(12),
        _ => None,
    }
}

/// Literal tokens are typed by what they denote, as the legend names the
/// types: integer and float literals are numbers; string, C string and
/// character literals are strings; keywords are keywords; binary operators
/// are operators.
pub proof fn law_literal_token_types(tokens: Seq<Token>, i: int)
    requires
        0 <= i < tokens.len(),
    ensures
        tokens[i].kind is Literal ==> (lexer_token_type(tokens, i) matches Some(t) && 0 <= t < legend_names().len()),
        (tokens[i].kind matches TokenKind::Literal(LiteralKind::Integer(_))) || (tokens[i].kind matches TokenKind::Literal(
            LiteralKind::Float(_),
        )) ==> legend_names()[lexer_token_type(tokens, i)->0 as int] == "number"@,
        (tokens[i].kind matches TokenKind::Literal(LiteralKind::String(_))) || (tokens[i].kind matches TokenKind::Literal(
            LiteralKind::CString(_),
        )) || (tokens[i].kind matches TokenKind::Literal(LiteralKind::Char(_))) ==> legend_names()[lexer_token_type(
            tokens,
            i,
        )->0 as int] == "string"@,
        tokens[i].kind is Keyword ==> legend_names()[lexer_token_type(tokens, i)->0 as int] == "keyword"@,
        tokens[i].kind is Plus || tokens[i].kind is Minus || tokens[i].kind is Star || tokens[i].kind is Slash
            || tokens[i].kind is Percent || tokens[i].kind is EqEq || tokens[i].kind is BangEq || tokens[i].kind is Lt
            || tokens[i].kind is LtEq || tokens[i].kind is Gt || tokens[i].kind is GtEq || tokens[i].kind is AmpAmp
            || tokens[i].kind is PipePipe ==> legend_names()[lexer_token_type(tokens, i)->0 as int] == "operator"@,
{
    reveal_strlit("operator");
    reveal_strlit("number");
    reveal_strlit("string");
    reveal_strlit("keyword");
}

fn ident_type(tokens: &Vec<Token>, i: usize, name: &str) -> (r: u32)
    requires
        i < tokens@.len(),
    ensures
        r == ident_token_type(tokens@, i as int, name@),
{
    if str_eq(name, "self") {
        return 3;
    }
    if primitive_name(name) {
        return 5;
    }
    if i > 0 {
        match &tokens[i - 1].kind {
            TokenKind::Keyword(Keyword::Fn) => return 1,
            TokenKind::Dot => return 9,
            TokenKind::ColonColon => return 2,
            _ => {},
        }
    }
    let cs = chars_of(name);
    if cs.len() > 0 && char_is_uppercase(cs[0]) {
        6
    } else {
        3
    }
}

fn lexer_type(tokens: &Vec<Token>, i: usize) -> (r: Option<u32>)
    requires
        i < tokens@.len(),
    ensures
        r == lexer_token_type(tokens@, i as int),
{
    match &tokens[i].kind {
        TokenKind::Keyword(_) => Some(0),
        TokenKind::Literal(LiteralKind::Integer(_)) | TokenKind::Literal(LiteralKind::Float(_)) => Some(10),
        TokenKind::Literal(_) => Some(11),
        TokenKind::Ident(name) => Some(ident_type(tokens, i, name.as_str())),
        TokenKind::Plus | TokenKind::Minus | TokenKind::Star | TokenKind::Slash | TokenKind::Percent | TokenKind::Eq
        | TokenKind::EqEq | TokenKind::Bang | TokenKind::BangEq | TokenKind::Lt | TokenKind::LtEq | TokenKind::Gt
        | TokenKind::GtEq | TokenKind::Amp | TokenKind::AmpAmp | TokenKind::Pipe | TokenKind::PipePipe
        | TokenKind::Arrow | TokenKind::FatArrow => Some(12),
        _ => None,
    }
}

/// The token lexer token `i` gives, if it gets a type and is not empty.
pub open spec fn lexer_raw(s: Seq<char>, tokens: Seq<Token>, i: int) -> Option<RawToken> {
    match lexer_token_type(tokens, i) {
        None => None,
        Some(ty) => if tokens[i].span.spec_len() == 0 {
            None
        } else {
            Some((position_at(s, tokens[i].span.start as int), tokens[i].span.spec_len() as u32, ty))
        },
    }
}

/// The tokens of the first `n` lexer tokens, in order.
pub open spec fn lexer_raws(s: Seq<char>, tokens: Seq<Token>, n: int) -> Seq<RawToken>
    decreases n,
{
    if n <= 0 {
        seq![]
    } else {
        lexer_raws(s, tokens, n - 1) + match lexer_raw(s, tokens, n - 1) {
            Some(t) => seq![t],
            None => seq![],
        }
    }
}

/// Every lexer token starts between two characters.
pub open spec fn tokens_on_boundaries(s: Seq<char>, tokens: Seq<Token>) -> bool {
    forall|i: int| 0 <= i < tokens.len() ==> on_boundary(s, (#[trigger] tokens[i]).span.start as int)
}

// ---------------------------------------------------------------------
// Merging: one type per start and length, the last one given winning
// ---------------------------------------------------------------------

/// A token's key: line, column and length.
pub type TokenKey = (u32, u32, u32);

pub open spec fn key_of(t: RawToken) -> TokenKey {
    (t.0.line, t.0.character, t.1)
}

pub open spec fn key_lt(a: TokenKey, b: TokenKey) -> bool {
    a.0 < b.0 || (a.0 == b.0 && (a.1 < b.1 || (a.1 == b.1 && a.2 < b.2)))
}

fn key_less(a: TokenKey, b: TokenKey) -> (r: bool)
    ensures
        r == key_lt(a, b),
{
    a.0 < b.0 || (a.0 == b.0 && (a.1 < b.1 || (a.1 == b.1 && a.2 < b.2)))
}

/// `m` with each token's type stored under its key, later tokens winning.
pub open spec fn put_all(m: Map<TokenKey, u32>, ts: Seq<RawToken>) -> Map<TokenKey, u32>
    decreases ts.len(),
{
    if ts.len() == 0 {
        m
    } else {
        put_all(m, ts.drop_last()).insert(key_of(ts.last()), ts.last().2)
    }
}

/// `v` lists the entries of `m`, ordered by key.
pub open spec fn lists_map(v: Seq<(TokenKey, u32)>, m: Map<TokenKey, u32>) -> bool {
    &&& forall|i: int, j: int| 0 <= i < j < v.len() ==> key_lt(#[trigger] v[i].0, #[trigger] v[j].0)
    &&& forall|i: int| 0 <= i < v.len() ==> m.contains_key(#[trigger] v[i].0) && m[v[i].0] == v[i].1
    &&& forall|k: TokenKey| m.contains_key(k) ==> exists|i: int| 0 <= i < v.len() && (#[trigger] v[i]).0 == k
}

/// Stores `val` under `k` in the ordered list `v`.
fn put(v: &mut Vec<(TokenKey, u32)>, k: TokenKey, val: u32, Ghost(m): Ghost<Map<TokenKey, u32>>)
    requires
        lists_map(old(v)@, m),
    ensures
        lists_map(final(v)@, m.insert(k, val)),
{
    let mut i: usize = 0;
    while i < v.len() && key_less(v[i].0, k)
        invariant
            i <= v@.len(),
            lists_map(v@, m),
            forall|j: int| 0 <= j < i ==> key_lt(#[trigger] v@[j].0, k),
        decreases v@.len() - i,
    {
        i = i + 1;
    }
    let ghost before = v@;
    let m2 = Ghost(m.insert(k, val));
    if i < v.len() && v[i].0.0 == k.0 && v[i].0.1 == k.1 && v[i].0.2 == k.2 {
        v.set(i, (k, val));
        proof {
            assert forall|a: int, b: int| 0 <= a < b < v@.len() implies key_lt(#[trigger] v@[a].0, #[trigger] v@[b].0) by {
                assert(v@[a].0 == before[a].0 && v@[b].0 == before[b].0);
            }
            assert forall|a: int| 0 <= a < v@.len() implies m2@.contains_key(#[trigger] v@[a].0) && m2@[v@[a].0] == v@[a].1 by {
                if a != i {
                    assert(v@[a] == before[a]);
                    assert(key_lt(before[a].0, before[i as int].0) || key_lt(before[i as int].0, before[a].0));
                }
            }
            assert forall|q: TokenKey| m2@.contains_key(q) implies exists|a: int| 0 <= a < v@.len() && (#[trigger] v@[a]).0 == q by {
                if q == k {
                    assert(v@[i as int].0 == q);
                } else {
                    let a = choose|a: int| 0 <= a < before.len() && (#[trigger] before[a]).0 == q;
                    assert(v@[a].0 == q);
                }
            }
        }
    } else {
        v.insert(i, (k, val));
        proof {
            assert(v@ == before.insert(i as int, (k, val)));
            if i < before.len() {
                assert(!key_lt(before[i as int].0, k));
                assert(before[i as int].0 != k);
                assert(key_lt(k, before[i as int].0));
            }
            assert forall|a: int, b: int| 0 <= a < b < v@.len() implies key_lt(#[trigger] v@[a].0, #[trigger] v@[b].0) by {
                if b < i {
                    assert(v@[a] == before[a] && v@[b] == before[b]);
                } else if b == i {
                    assert(v@[a] == before[a]);
                } else if a == i {
                    assert(v@[b] == before[b - 1]);
                    if b - 1 > i {
                        assert(key_lt(before[i as int].0, before[b - 1].0));
                    }
                } else if a < i {
                    assert(v@[a] == before[a] && v@[b] == before[b - 1]);
                    assert(key_lt(before[a].0, before[b - 1].0));
                } else {
                    assert(v@[a] == before[a - 1] && v@[b] == before[b - 1]);
                    assert(key_lt(before[a - 1].0, before[b - 1].0));
                }
            }
            assert forall|a: int| 0 <= a < v@.len() implies m2@.contains_key(#[trigger] v@[a].0) && m2@[v@[a].0] == v@[a].1 by {
                if a < i {
                    assert(v@[a] == before[a]);
                    assert(key_lt(before[a].0, k));
                } else if a > i {
                    assert(v@[a] == before[a - 1]);
                    assert(key_lt(k, before[a - 1].0)) by {
                        if a - 1 > i {
                            assert(key_lt(before[i as int].0, before[a - 1].0));
                        }
                    }
                }
            }
            assert forall|q: TokenKey| m2@.contains_key(q) implies exists|a: int| 0 <= a < v@.len() && (#[trigger] v@[a]).0 == q by {
                if q == k {
                    assert(v@[i as int].0 == q);
                } else {
                    let a = choose|a: int| 0 <= a < before.len() && (#[trigger] before[a]).0 == q;
                    if a < i {
                        assert(v@[a].0 == q);
                    } else {
                        assert(v@[a + 1].0 == q);
                    }
                }
            }
        }
    }
}

/// The absolute tokens of an ordered list.
pub open spec fn raws_of(v: Seq<(TokenKey, u32)>) -> Seq<RawToken> {
    v.map_values(|e: (TokenKey, u32)| (Position { line: e.0.0, character: e.0.1 }, e.0.2, e.1))
}

/// The types of the tokens of a document: the lexer's tokens, when given,
/// then the symbol index's, one type per start and length.
pub open spec fn token_map(s: Seq<char>, entries: Seq<SymbolEntry>, lexed: Option<Seq<Token>>) -> Map<TokenKey, u32> {
    let from_lexer = match lexed {
        Some(ts) => put_all(Map::empty(), lexer_raws(s, ts, ts.len() as int)),
        None => Map::empty(),
    };
    put_all(from_lexer, symbol_raws(s, entries))
}

/// The tokens given, if any.
pub open spec fn lexed_view(lexed: Option<&Vec<Token>>) -> Option<Seq<Token>> {
    match lexed {
        Some(ts) => Some(ts@),
        None => None,
    }
}

/// Semantic tokens in the relative encoding.
#[derive(Debug)]
pub struct SemanticTokens {
    pub result_id: Option<String>,
    pub data: Vec<SemanticToken>,
}

fn position_of(document: &Document, offset: usize) -> (r: Position)
    requires
        document.wf(),
        on_boundary(document.text_view(), offset as int),
    ensures
        r == position_at(document.text_view(), offset as int),
{
    document.offset_to_position(offset)
}

/// The semantic tokens of a document: those of the lexer's tokens `lexed`
/// (`None` when the lexer is not used or failed), then those of the
/// symbol index, which win where both give a token with the same start and
/// length; ordered by position and length, relatively encoded.
pub fn semantic_tokens(document: &Document, analysis: &AnalysisResult, lexed: Option<&Vec<Token>>) -> (r: SemanticTokens)
    requires
        document.wf(),
        entries_on_boundaries(document.text_view(), analysis.symbol_index.entries@),
        lexed matches Some(ts) ==> tokens_on_boundaries(document.text_view(), ts@),
    ensures
        r.result_id is None,
        exists|v: Seq<(TokenKey, u32)>|
            #[trigger] lists_map(
                v,
                token_map(document.text_view(), analysis.symbol_index.entries@, lexed_view(lexed)),
            ) && r.data@.len() == v.len() && forall|i: int| 0 <= i < v.len() ==> #[trigger] r.data@[i] == encode_one(raws_of(v), i),
{
    let ghost s = document.text_view();
    let text = document.text();
    let t: &str = text.as_str();
    let cs = chars_of(t);
    let nbytes = t.as_bytes().len();
    proof {
        assert(nbytes == bytes_of(s).len());
    }
    let mut sorted: Vec<(TokenKey, u32)> = Vec::new();
    let ghost mut m: Map<TokenKey, u32> = Map::empty();
    match lexed {
        Some(tokens) => {
            let mut i: usize = 0;
            while i < tokens.len()
                invariant
                    document.wf(),
                    s == document.text_view(),
                    tokens_on_boundaries(s, tokens@),
                    i <= tokens@.len(),
                    m == put_all(Map::empty(), lexer_raws(s, tokens@, i as int)),
                    lists_map(sorted@, m),
                decreases tokens@.len() - i,
            {
                match lexer_type(tokens, i) {
                    Some(ty) => {
                        let len = tokens[i].span.len();
                        if len != 0 {
                            let start = tokens[i].span.start as usize;
                            let position = position_of(document, start);
                            put(&mut sorted, (position.line, position.character, len), ty, Ghost(m));
                            proof {
                                let raw = (position, len, ty);
                                assert(lexer_raw(s, tokens@, i as int) == Some(raw));
                                assert(lexer_raws(s, tokens@, i + 1) == lexer_raws(s, tokens@, i as int).push(raw));
                                assert(lexer_raws(s, tokens@, i + 1).drop_last() == lexer_raws(s, tokens@, i as int));
                                m = m.insert(key_of(raw), ty);
                            }
                        } else {
                            proof {
                                assert(lexer_raws(s, tokens@, i + 1) =~= lexer_raws(s, tokens@, i as int));
                            }
                        }
                    },
                    None => {
                        proof {
                            assert(lexer_raws(s, tokens@, i + 1) =~= lexer_raws(s, tokens@, i as int));
                        }
                    },
                }
                i = i + 1;
            }
        },
        None => {},
    }
    let ghost m0 = m;
    let entries = &analysis.symbol_index.entries;
    let mut j: usize = 0;
    proof {
        assert(symbol_raws(s, entries@.take(0)) =~= Seq::<RawToken>::empty());
    }
    while j < entries.len()
        invariant
            document.wf(),
            s == document.text_view(),
            entries@ == analysis.symbol_index.entries@,
            entries_on_boundaries(s, entries@),
            bytes_of(cs@).len() <= usize::MAX,
            cs@ == s,
            j <= entries@.len(),
            m == put_all(m0, symbol_raws(s, entries@.take(j as int))),
            lists_map(sorted@, m),
        decreases entries@.len() - j,
    {
        let e = &entries[j];
        proof {
            assert(entries@.take(j + 1).drop_last() =~= entries@.take(j as int));
            assert(entries@.take(j + 1).last() == entries@[j as int]);
        }
        let name_len = e.name.as_str().as_bytes().len();
        if name_len != 0 {
            let start = e.selection_span.start as usize;
            let off = name_offset(&cs, start, e.selection_span.end as usize, e.name.as_str());
            proof {
                assert(on_boundary(s, start as int));
                if off != start {
                    let k = choose|k: int| 0 <= k <= cs@.len() && byte_offset(cs@, k) == off;
                    crate::utf::lemma_bytes_prefix(s, k);
                    assert(on_boundary(s, off as int));
                }
            }
            let position = position_of(document, off);
            let ty = token_type_of_entry(e);
            put(&mut sorted, (position.line, position.character, name_len as u32), ty, Ghost(m));
            proof {
                let raw = (position, name_len as u32, ty);
                assert(entry_raw(s, entries@[j as int]) == Some(raw));
                assert(symbol_raws(s, entries@.take(j + 1)) == symbol_raws(s, entries@.take(j as int)).push(raw));
                assert(symbol_raws(s, entries@.take(j + 1)).drop_last() == symbol_raws(s, entries@.take(j as int)));
                m = m.insert(key_of(raw), ty);
            }
        } else {
            proof {
                assert(entry_raw(s, entries@[j as int]) is None);
                assert(symbol_raws(s, entries@.take(j + 1)) =~= symbol_raws(s, entries@.take(j as int)));
            }
        }
        j = j + 1;
    }
    proof {
        assert(entries@.take(entries@.len() as int) =~= entries@);
    }
    let mut raws: Vec<RawToken> = Vec::new();
    let mut k: usize = 0;
    while k < sorted.len()
        invariant
            k <= sorted@.len(),
            raws@ == raws_of(sorted@.take(k as int)),
        decreases sorted@.len() - k,
    {
        let (key, ty) = sorted[k];
        raws.push((Position::new(key.0, key.1), key.2, ty));
        k = k + 1;
        proof {
            assert(raws_of(sorted@.take(k as int)) =~= raws_of(sorted@.take(k - 1)).push((Position { line: key.0, character: key.1 }, key.2, ty)));
        }
    }
    proof {
        assert(sorted@.take(sorted@.len() as int) =~= sorted@);
        assert forall|i: int| 0 < i < raws@.len() implies #[trigger] position_le(raws@[i - 1].0, raws@[i].0) by {
            assert(key_lt(sorted@[i - 1].0, sorted@[i].0));
        }
    }
    let data = encode_delta(raws);
    proof {
        assert(token_map(s, analysis.symbol_index.entries@, lexed_view(lexed)) == m);
        assert(lists_map(sorted@, token_map(s, analysis.symbol_index.entries@, lexed_view(lexed))));
    }
    SemanticTokens { result_id: None, data }
}

} // verus!
