use vstd::prelude::*;

use crate::analysis_model::{type_text, type_to_string, AnalysisResult, SymbolEntry, SymbolEntryKind};
use crate::ast::{Ast, EnumItem, EnumVariant, FunctionItem, FunctionParam, Item, ItemKind, StructField, StructItem};
use crate::chars::{decimal, first_index, lemma_first_index, push_decimal, push_str, string_from_chars, sub_vec};
use crate::completion::{function_snippet, lemma_split_last, lemma_split_step, spec_function_snippet, split_commas};
use crate::config::LspConfig;
use crate::completion_context::{current_function, cursor_index, derive_context, derived_context, find_current_function, path_cut_in_char, CompletionContext};
use crate::document::{spec_position_to_offset, Document, Position};
use crate::symbol_info::{is_function_kind, opt_view};
use crate::text::str_eq;
use crate::ty::{primitive_to_string, spec_primitive_to_string, PrimitiveType};
use crate::utf::chars_of;

verus! {

/// What a completion proposes.
#[derive(Clone, Copy, Debug, PartialEq, Eq, Structural)]
pub enum CompletionKind {
    Field,
    Method,
    Function,
    Variable,
    Constant,
    Keyword,
    Struct,
    Enum,
    Interface,
    EnumMember,
}

/// One completion proposal: its label, what it is, a detail, the text it
/// sorts by, and what to insert (a snippet when `snippet` is set).
#[derive(Debug)]
pub struct CompletionEntry {
    pub label: String,
    pub kind: CompletionKind,
    pub detail: Option<String>,
    pub sort_text: String,
    pub insert_text: Option<String>,
    pub snippet: bool,
}

/// A proposal with its texts as character sequences.
pub ghost struct CandView {
    pub label: Seq<char>,
    pub kind: CompletionKind,
    pub detail: Option<Seq<char>>,
    pub sort_text: Seq<char>,
    pub insert_text: Option<Seq<char>>,
    pub snippet: bool,
}

pub open spec fn cand_view(e: CompletionEntry) -> CandView {
    CandView {
        label: e.label@,
        kind: e.kind,
        detail: opt_view(e.detail),
        sort_text: e.sort_text@,
        insert_text: opt_view(e.insert_text),
        snippet: e.snippet,
    }
}

pub open spec fn cands_view(es: Seq<CompletionEntry>) -> Seq<CandView> {
    es.map_values(|e: CompletionEntry| cand_view(e))
}

/// A plain proposal, sorted by `sort_prefix` followed by its label.
pub open spec fn plain(
    label: Seq<char>,
    kind: CompletionKind,
    sort_prefix: Seq<char>,
    detail: Option<Seq<char>>,
    insert: Option<Seq<char>>,
) -> CandView {
    CandView { label, kind, detail, sort_text: sort_prefix + label, insert_text: insert, snippet: false }
}

/// A callable proposal: detailed by its signature; with snippets on, it
/// inserts a call snippet, else its name.
pub open spec fn callable(
    name: Seq<char>,
    kind: CompletionKind,
    sort_prefix: Seq<char>,
    signature: Seq<char>,
    config: LspConfig,
) -> CandView {
    CandView {
        label: name,
        kind,
        detail: Some(signature),
        sort_text: sort_prefix + name,
        insert_text: Some(
            if config.completion_snippets {
                spec_function_snippet(name, signature)
            } else {
                name
            },
        ),
        snippet: config.completion_snippets,
    }
}

/// A signature a call snippet can be made from: its first `(` comes
/// before its first `)`, if it has both.
pub open spec fn snippet_safe(signature: Seq<char>) -> bool {
    match (first_index(signature, '('), first_index(signature, ')')) {
        (Some(o), Some(c)) => o < c,
        _ => true,
    }
}

fn item(label: &str, kind: CompletionKind, sort_prefix: &str, detail: Option<String>, insert: Option<String>) -> (r: CompletionEntry)
    ensures
        cand_view(r) == plain(label@, kind, sort_prefix@, opt_view(detail), opt_view(insert)),
{
    let mut sort: Vec<char> = Vec::new();
    push_str(&mut sort, sort_prefix);
    push_str(&mut sort, label);
    CompletionEntry {
        label: String::from_str(label),
        kind,
        detail,
        sort_text: string_from_chars(&sort),
        insert_text: insert,
        snippet: false,
    }
}

fn callable_item(name: &str, kind: CompletionKind, sort_prefix: &str, signature: &str, config: &LspConfig) -> (r: CompletionEntry)
    requires
        config.completion_snippets ==> snippet_safe(signature@),
    ensures
        cand_view(r) == callable(name@, kind, sort_prefix@, signature@, *config),
{
    let insert = if config.completion_snippets {
        function_snippet(name, signature)
    } else {
        String::from_str(name)
    };
    let mut sort: Vec<char> = Vec::new();
    push_str(&mut sort, sort_prefix);
    push_str(&mut sort, name);
    CompletionEntry {
        label: String::from_str(name),
        kind,
        detail: Some(String::from_str(signature)),
        sort_text: string_from_chars(&sort),
        insert_text: Some(insert),
        snippet: config.completion_snippets,
    }
}

/// Appends one proposal.
fn propose(out: &mut Vec<CompletionEntry>, e: CompletionEntry)
    ensures
        cands_view(final(out)@) == cands_view(old(out)@) + seq![cand_view(e)],
{
    let ghost v = cand_view(e);
    out.push(e);
    proof {
        assert(cands_view(out@) =~= cands_view(old(out)@) + seq![v]);
    }
}

// ---------------------------------------------------------------------
// Fixed proposals
// ---------------------------------------------------------------------

/// The primitive type names, in declaration order.
pub open spec fn primitive_labels() -> Seq<Seq<char>> {
    seq![
        spec_primitive_to_string(PrimitiveType::I8),
        spec_primitive_to_string(PrimitiveType::I16),
        spec_primitive_to_string(PrimitiveType::I32),
        spec_primitive_to_string(PrimitiveType::I64),
        spec_primitive_to_string(PrimitiveType::U8),
        spec_primitive_to_string(PrimitiveType::U16),
        spec_primitive_to_string(PrimitiveType::U32),
        spec_primitive_to_string(PrimitiveType::U64),
        spec_primitive_to_string(PrimitiveType::F32),
        spec_primitive_to_string(PrimitiveType::F64),
        spec_primitive_to_string(PrimitiveType::Bool),
        spec_primitive_to_string(PrimitiveType::Char),
        spec_primitive_to_string(PrimitiveType::Str),
        spec_primitive_to_string(PrimitiveType::CStr),
    ]
}

/// The keywords proposed inside a function body.
pub open spec fn block_keywords() -> Seq<Seq<char>> {
    seq![
        "let"@,
        "mut"@,
        "if"@,
        "else"@,
        "while"@,
        "for"@,
        "in"@,
        "match"@,
        "return"@,
        "break"@,
        "continue"@,
        "true"@,
        "false"@,
    ]
}

/// The keywords proposed at the top level.
pub open spec fn global_keywords() -> Seq<Seq<char>> {
    seq!["struct"@, "enum"@, "type"@, "const"@, "fn"@, "export"@, "extern"@]
}

/// The host functions every script can call, with their signatures.
pub open spec fn builtins() -> Seq<(Seq<char>, Seq<char>)> {
    seq![
        ("print"@, "fn print(s: cstr)"@),
        ("println"@, "fn println(s: cstr)"@),
        ("print_i32"@, "fn print_i32(v: i32)"@),
        ("println_i32"@, "fn println_i32(v: i32)"@),
        ("print_f32"@, "fn print_f32(v: f32)"@),
        ("println_f32"@, "fn println_f32(v: f32)"@),
        ("print_bool"@, "fn print_bool(v: bool)"@),
        ("println_bool"@, "fn println_bool(v: bool)"@),
        ("sqrt_f32"@, "fn sqrt_f32(x: f32) -> f32"@),
        ("sqrt_f64"@, "fn sqrt_f64(x: f64) -> f64"@),
        ("sin_f32"@, "fn sin_f32(x: f32) -> f32"@),
        ("cos_f32"@, "fn cos_f32(x: f32) -> f32"@),
        ("abs_i32"@, "fn abs_i32(x: i32) -> i32"@),
        ("abs_f32"@, "fn abs_f32(x: f32) -> f32"@),
        ("min_i32"@, "fn min_i32(a: i32, b: i32) -> i32"@),
        ("max_i32"@, "fn max_i32(a: i32, b: i32) -> i32"@),
        ("min_f32"@, "fn min_f32(a: f32, b: f32) -> i32"@),
        ("max_f32"@, "fn max_f32(a: f32, b: f32) -> i32"@),
        ("clone"@, "fn clone(value: T) -> T"@),
    ]
}

pub open spec fn keyword_cands(kws: Seq<Seq<char>>) -> Seq<CandView> {
    kws.map_values(|k: Seq<char>| plain(k, CompletionKind::Keyword, "04_"@, None, None))
}

pub open spec fn primitive_cands() -> Seq<CandView> {
    primitive_labels().map_values(|k: Seq<char>| plain(k, CompletionKind::Keyword, "03_"@, None, None))
}

pub open spec fn builtin_cands(config: LspConfig) -> Seq<CandView> {
    builtins().map_values(|b: (Seq<char>, Seq<char>)| callable(b.0, CompletionKind::Function, "05_"@, b.1, config))
}

fn add_keywords(out: &mut Vec<CompletionEntry>, kws: &[&str])
    ensures
        cands_view(final(out)@) == cands_view(old(out)@) + keyword_cands(kws@.map_values(|k: &str| k@)),
{
    let ghost v0 = cands_view(out@);
    let ghost all = keyword_cands(kws@.map_values(|k: &str| k@));
    let mut i: usize = 0;
    proof {
        assert(all.take(0) =~= Seq::<CandView>::empty());
    }
    while i < kws.len()
        invariant
            0 <= i <= kws@.len(),
            all == keyword_cands(kws@.map_values(|k: &str| k@)),
            cands_view(out@) == v0 + all.take(i as int),
        decreases kws@.len() - i,
    {
        propose(out, item(kws[i], CompletionKind::Keyword, "04_", None, None));
        proof {
            assert(all.take(i + 1) =~= all.take(i as int).push(all[i as int]));
        }
        i = i + 1;
    }
    proof {
        assert(all.take(i as int) =~= all);
    }
}

fn add_block_keywords(out: &mut Vec<CompletionEntry>)
    ensures
        cands_view(final(out)@) == cands_view(old(out)@) + keyword_cands(block_keywords()),
{
    let kws: [&str; 13] = ["let", "mut", "if", "else", "while", "for", "in", "match", "return", "break", "continue", "true", "false"];
    add_keywords(out, &kws);
    proof {
        assert(kws@.map_values(|k: &str| k@) =~= block_keywords());
    }
}

fn add_global_keywords(out: &mut Vec<CompletionEntry>)
    ensures
        cands_view(final(out)@) == cands_view(old(out)@) + keyword_cands(global_keywords()),
{
    let kws: [&str; 7] = ["struct", "enum", "type", "const", "fn", "export", "extern"];
    add_keywords(out, &kws);
    proof {
        assert(kws@.map_values(|k: &str| k@) =~= global_keywords());
    }
}

fn add_primitives(out: &mut Vec<CompletionEntry>)
    ensures
        cands_view(final(out)@) == cands_view(old(out)@) + primitive_cands(),
{
    let ghost v0 = cands_view(out@);
    let ps: [PrimitiveType; 14] = [
        PrimitiveType::I8,
        PrimitiveType::I16,
        PrimitiveType::I32,
        PrimitiveType::I64,
        PrimitiveType::U8,
        PrimitiveType::U16,
        PrimitiveType::U32,
        PrimitiveType::U64,
        PrimitiveType::F32,
        PrimitiveType::F64,
        PrimitiveType::Bool,
        PrimitiveType::Char,
        PrimitiveType::Str,
        PrimitiveType::CStr,
    ];
    let ghost all = primitive_cands();
    proof {
        assert(ps@.map_values(|p: PrimitiveType| spec_primitive_to_string(p)) =~= primitive_labels());
        assert(all.take(0) =~= Seq::<CandView>::empty());
    }
    let mut i: usize = 0;
    while i < 14
        invariant
            0 <= i <= 14,
            ps@.len() == 14,
            ps@.map_values(|p: PrimitiveType| spec_primitive_to_string(p)) == primitive_labels(),
            all == primitive_cands(),
            cands_view(out@) == v0 + all.take(i as int),
        decreases 14 - i,
    {
        proof {
            assert(ps@.map_values(|p: PrimitiveType| spec_primitive_to_string(p))[i as int] == spec_primitive_to_string(ps@[i as int]));
        }
        propose(out, item(primitive_to_string(ps[i]), CompletionKind::Keyword, "03_", None, None));
        proof {
            assert(all.take(i + 1) =~= all.take(i as int).push(all[i as int]));
        }
        i = i + 1;
    }
    proof {
        assert(all.take(14) =~= all);
    }
}

fn add_builtins(out: &mut Vec<CompletionEntry>, config: &LspConfig)
    ensures
        cands_view(final(out)@) == cands_view(old(out)@) + builtin_cands(*config),
{
    let ghost v0 = cands_view(out@);
    let table: [(&str, &str); 19] = [
        ("print", "fn print(s: cstr)"),
        ("println", "fn println(s: cstr)"),
        ("print_i32", "fn print_i32(v: i32)"),
        ("println_i32", "fn println_i32(v: i32)"),
        ("print_f32", "fn print_f32(v: f32)"),
        ("println_f32", "fn println_f32(v: f32)"),
        ("print_bool", "fn print_bool(v: bool)"),
        ("println_bool", "fn println_bool(v: bool)"),
        ("sqrt_f32", "fn sqrt_f32(x: f32) -> f32"),
        ("sqrt_f64", "fn sqrt_f64(x: f64) -> f64"),
        ("sin_f32", "fn sin_f32(x: f32) -> f32"),
        ("cos_f32", "fn cos_f32(x: f32) -> f32"),
        ("abs_i32", "fn abs_i32(x: i32) -> i32"),
        ("abs_f32", "fn abs_f32(x: f32) -> f32"),
        ("min_i32", "fn min_i32(a: i32, b: i32) -> i32"),
        ("max_i32", "fn max_i32(a: i32, b: i32) -> i32"),
        ("min_f32", "fn min_f32(a: f32, b: f32) -> i32"),
        ("max_f32", "fn max_f32(a: f32, b: f32) -> i32"),
        ("clone", "fn clone(value: T) -> T"),
    ];
    let ghost all = builtin_cands(*config);
    let ghost tv = table@.map_values(|b: (&str, &str)| (b.0@, b.1@));
    proof {
        assert(tv =~= builtins());
        assert(all.take(0) =~= Seq::<CandView>::empty());
    }
    let mut i: usize = 0;
    while i < 19
        invariant
            0 <= i <= 19,
            table@.len() == 19,
            tv == table@.map_values(|b: (&str, &str)| (b.0@, b.1@)),
            tv == builtins(),
            all == builtin_cands(*config),
            cands_view(out@) == v0 + all.take(i as int),
        decreases 19 - i,
    {
        let (name, signature) = table[i];
        proof {
            assert(tv[i as int] == (name@, signature@));
            lemma_builtin_signatures_safe(i as int);
        }
        propose(out, callable_item(name, CompletionKind::Function, "05_", signature, config));
        proof {
            assert(all.take(i + 1) =~= all.take(i as int).push(all[i as int]));
        }
        i = i + 1;
    }
    proof {
        assert(all.take(19) =~= all);
    }
}

/// Every built-in signature has its `(` before its `)`.
proof fn lemma_builtin_signatures_safe(i: int)
    requires
        0 <= i < 19,
    ensures
        snippet_safe(builtins()[i].1),
{
    if i == 0 {
        lemma_builtin_safe_0();
    } else if i == 1 {
        lemma_builtin_safe_1();
    } else if i == 2 {
        lemma_builtin_safe_2();
    } else if i == 3 {
        lemma_builtin_safe_3();
    } else if i == 4 {
        lemma_builtin_safe_4();
    } else if i == 5 {
        lemma_builtin_safe_5();
    } else if i == 6 {
        lemma_builtin_safe_6();
    } else if i == 7 {
        lemma_builtin_safe_7();
    } else if i == 8 {
        lemma_builtin_safe_8();
    } else if i == 9 {
        lemma_builtin_safe_9();
    } else if i == 10 {
        lemma_builtin_safe_10();
    } else if i == 11 {
        lemma_builtin_safe_11();
    } else if i == 12 {
        lemma_builtin_safe_12();
    } else if i == 13 {
        lemma_builtin_safe_13();
    } else if i == 14 {
        lemma_builtin_safe_14();
    } else if i == 15 {
        lemma_builtin_safe_15();
    } else if i == 16 {
        lemma_builtin_safe_16();
    } else if i == 17 {
        lemma_builtin_safe_17();
    } else if i == 18 {
        lemma_builtin_safe_18();
    }
}

#[verifier::rlimit(40)]
proof fn lemma_builtin_safe_0()
    ensures
        snippet_safe("fn print(s: cstr)"@),
{
    reveal_strlit("fn print(s: cstr)");
    reveal_with_fuel(first_index, 18);
}

#[verifier::rlimit(40)]
proof fn lemma_builtin_safe_1()
    ensures
        snippet_safe("fn println(s: cstr)"@),
{
    reveal_strlit("fn println(s: cstr)");
    reveal_with_fuel(first_index, 20);
}

#[verifier::rlimit(40)]
proof fn lemma_builtin_safe_2()
    ensures
        snippet_safe("fn print_i32(v: i32)"@),
{
    reveal_strlit("fn print_i32(v: i32)");
    reveal_with_fuel(first_index, 21);
}

#[verifier::rlimit(40)]
proof fn lemma_builtin_safe_3()
    ensures
        snippet_safe("fn println_i32(v: i32)"@),
{
    reveal_strlit("fn println_i32(v: i32)");
    reveal_with_fuel(first_index, 23);
}

#[verifier::rlimit(40)]
proof fn lemma_builtin_safe_4()
    ensures
        snippet_safe("fn print_f32(v: f32)"@),
{
    reveal_strlit("fn print_f32(v: f32)");
    reveal_with_fuel(first_index, 21);
}

#[verifier::rlimit(40)]
proof fn lemma_builtin_safe_5()
    ensures
        snippet_safe("fn println_f32(v: f32)"@),
{
    reveal_strlit("fn println_f32(v: f32)");
    reveal_with_fuel(first_index, 23);
}

#[verifier::rlimit(40)]
proof fn lemma_builtin_safe_6()
    ensures
        snippet_safe("fn print_bool(v: bool)"@),
{
    reveal_strlit("fn print_bool(v: bool)");
    reveal_with_fuel(first_index, 23);
}

#[verifier::rlimit(40)]
proof fn lemma_builtin_safe_7()
    ensures
        snippet_safe("fn println_bool(v: bool)"@),
{
    reveal_strlit("fn println_bool(v: bool)");
    reveal_with_fuel(first_index, 25);
}

#[verifier::rlimit(40)]
proof fn lemma_builtin_safe_8()
    ensures
        snippet_safe("fn sqrt_f32(x: f32) -> f32"@),
{
    reveal_strlit("fn sqrt_f32(x: f32) -> f32");
    reveal_with_fuel(first_index, 20);
}

#[verifier::rlimit(40)]
proof fn lemma_builtin_safe_9()
    ensures
        snippet_safe("fn sqrt_f64(x: f64) -> f64"@),
{
    reveal_strlit("fn sqrt_f64(x: f64) -> f64");
    reveal_with_fuel(first_index, 20);
}

#[verifier::rlimit(40)]
proof fn lemma_builtin_safe_10()
    ensures
        snippet_safe("fn sin_f32(x: f32) -> f32"@),
{
    reveal_strlit("fn sin_f32(x: f32) -> f32");
    reveal_with_fuel(first_index, 19);
}

#[verifier::rlimit(40)]
proof fn lemma_builtin_safe_11()
    ensures
        snippet_safe("fn cos_f32(x: f32) -> f32"@),
{
    reveal_strlit("fn cos_f32(x: f32) -> f32");
    reveal_with_fuel(first_index, 19);
}

#[verifier::rlimit(40)]
proof fn lemma_builtin_safe_12()
    ensures
        snippet_safe("fn abs_i32(x: i32) -> i32"@),
{
    reveal_strlit("fn abs_i32(x: i32) -> i32");
    reveal_with_fuel(first_index, 19);
}

#[verifier::rlimit(40)]
proof fn lemma_builtin_safe_13()
    ensures
        snippet_safe("fn abs_f32(x: f32) -> f32"@),
{
    reveal_strlit("fn abs_f32(x: f32) -> f32");
    reveal_with_fuel(first_index, 19);
}

#[verifier::rlimit(40)]
proof fn lemma_builtin_safe_14()
    ensures
        snippet_safe("fn min_i32(a: i32, b: i32) -> i32"@),
{
    reveal_strlit("fn min_i32(a: i32, b: i32) -> i32");
    reveal_with_fuel(first_index, 27);
}

#[verifier::rlimit(40)]
proof fn lemma_builtin_safe_15()
    ensures
        snippet_safe("fn max_i32(a: i32, b: i32) -> i32"@),
{
    reveal_strlit("fn max_i32(a: i32, b: i32) -> i32");
    reveal_with_fuel(first_index, 27);
}

#[verifier::rlimit(40)]
proof fn lemma_builtin_safe_16()
    ensures
        snippet_safe("fn min_f32(a: f32, b: f32) -> i32"@),
{
    reveal_strlit("fn min_f32(a: f32, b: f32) -> i32");
    reveal_with_fuel(first_index, 27);
}

#[verifier::rlimit(40)]
proof fn lemma_builtin_safe_17()
    ensures
        snippet_safe("fn max_f32(a: f32, b: f32) -> i32"@),
{
    reveal_strlit("fn max_f32(a: f32, b: f32) -> i32");
    reveal_with_fuel(first_index, 27);
}

#[verifier::rlimit(40)]
proof fn lemma_builtin_safe_18()
    ensures
        snippet_safe("fn clone(value: T) -> T"@),
{
    reveal_strlit("fn clone(value: T) -> T");
    reveal_with_fuel(first_index, 19);
}


// ---------------------------------------------------------------------
// Text helpers
// ---------------------------------------------------------------------

/// Whether `s` holds `::`.
pub open spec fn has_path_sep(s: Seq<char>) -> bool {
    exists|i: int| 0 <= i < s.len() - 1 && s[i] == ':' && #[trigger] s[i + 1] == ':'
}

pub open spec fn starts_with(s: Seq<char>, p: Seq<char>) -> bool {
    p.len() <= s.len() && s.take(p.len() as int) == p
}

pub open spec fn ends_with(s: Seq<char>, p: Seq<char>) -> bool {
    p.len() <= s.len() && s.skip(s.len() - p.len()) == p
}

/// `s` without the prefix `p`, when it has it.
pub open spec fn strip_prefix(s: Seq<char>, p: Seq<char>) -> Seq<char> {
    if starts_with(s, p) {
        s.skip(p.len() as int)
    } else {
        s
    }
}

pub open spec fn or_empty(d: Option<Seq<char>>) -> Seq<char> {
    match d {
        Some(x) => x,
        None => seq![],
    }
}

pub(crate) fn contains_path_sep(s: &str) -> (r: bool)
    ensures
        r == has_path_sep(s@),
{
    let cs = chars_of(s);
    let mut i: usize = 0;
    while i < cs.len()
        invariant
            cs@ == s@,
            0 <= i <= cs@.len(),
            forall|j: int| 0 <= j < i && j < cs@.len() - 1 ==> !(cs@[j] == ':' && #[trigger] cs@[j + 1] == ':'),
        decreases cs@.len() - i,
    {
        if i + 1 < cs.len() && cs[i] == ':' && cs[i + 1] == ':' {
            return true;
        }
        i = i + 1;
    }
    false
}

fn chars_start_with(s: &Vec<char>, p: &Vec<char>) -> (r: bool)
    ensures
        r == starts_with(s@, p@),
{
    if p.len() > s.len() {
        return false;
    }
    let mut i: usize = 0;
    while i < p.len()
        invariant
            p@.len() <= s@.len(),
            0 <= i <= p@.len(),
            forall|j: int| 0 <= j < i ==> s@[j] == p@[j],
        decreases p@.len() - i,
    {
        if s[i] != p[i] {
            proof {
                assert(s@.take(p@.len() as int)[i as int] != p@[i as int]);
            }
            return false;
        }
        i = i + 1;
    }
    proof {
        assert(s@.take(p@.len() as int) =~= p@);
    }
    true
}

pub(crate) fn text_starts_with(s: &str, p: &str) -> (r: bool)
    ensures
        r == starts_with(s@, p@),
{
    let a = chars_of(s);
    let b = chars_of(p);
    chars_start_with(&a, &b)
}

fn text_ends_with(s: &str, p: &str) -> (r: bool)
    ensures
        r == ends_with(s@, p@),
{
    let a = chars_of(s);
    let b = chars_of(p);
    if b.len() > a.len() {
        return false;
    }
    let n = a.len();
    let off = n - b.len();
    let mut i: usize = 0;
    while i < b.len()
        invariant
            a@ == s@,
            b@ == p@,
            n == a@.len(),
            b@.len() <= a@.len(),
            off == a@.len() - b@.len(),
            0 <= i <= b@.len(),
            forall|j: int| 0 <= j < i ==> a@[off + j] == b@[j],
        decreases b@.len() - i,
    {
        if a[off + i] != b[i] {
            proof {
                assert(a@.skip(off as int)[i as int] != b@[i as int]);
            }
            return false;
        }
        i = i + 1;
    }
    proof {
        assert(a@.skip(off as int) =~= b@);
    }
    true
}

/// `owner` followed by `::`.
pub(crate) fn qualified_prefix(owner: &str) -> (r: Vec<char>)
    ensures
        r@ == owner@ + "::"@,
{
    let mut out: Vec<char> = Vec::new();
    push_str(&mut out, owner);
    push_str(&mut out, "::");
    out
}

/// `name` without `pre`, as a string.
pub(crate) fn strip_to_string(name: &str, pre: &Vec<char>) -> (r: String)
    ensures
        r@ == strip_prefix(name@, pre@),
{
    let cs = chars_of(name);
    if chars_start_with(&cs, pre) {
        let mut out: Vec<char> = Vec::new();
        let mut i: usize = pre.len();
        while i < cs.len()
            invariant
                pre@.len() <= i <= cs@.len(),
                out@ == cs@.subrange(pre@.len() as int, i as int),
            decreases cs@.len() - i,
        {
            out.push(cs[i]);
            proof {
                assert(cs@.subrange(pre@.len() as int, i + 1) =~= cs@.subrange(pre@.len() as int, i as int).push(cs@[i as int]));
            }
            i = i + 1;
        }
        proof {
            assert(cs@.skip(pre@.len() as int) =~= cs@.subrange(pre@.len() as int, cs@.len() as int));
        }
        string_from_chars(&out)
    } else {
        String::from_str(name)
    }
}

fn detail_text(d: &Option<String>) -> (r: String)
    ensures
        r@ == or_empty(opt_view(*d)),
{
    match d {
        Some(x) => x.clone(),
        None => String::new(),
    }
}

// ---------------------------------------------------------------------
// Proposals from the symbol index
// ---------------------------------------------------------------------

pub open spec fn opt_seq(o: Option<CandView>) -> Seq<CandView> {
    match o {
        Some(c) => seq![c],
        None => seq![],
    }
}

/// Whether an entry is a top-level name: no parent and no `::`.
pub open spec fn top_level(e: SymbolEntry) -> bool {
    e.parent is None && !has_path_sep(e.name@)
}

/// A top-level struct, enum or type alias, proposed as a type.
pub open spec fn type_entry_cand(e: SymbolEntry) -> Option<CandView> {
    if top_level(e) {
        match e.kind {
            SymbolEntryKind::Struct => Some(plain(e.name@, CompletionKind::Struct, "03_"@, opt_view(e.detail), None)),
            SymbolEntryKind::Enum => Some(plain(e.name@, CompletionKind::Enum, "03_"@, opt_view(e.detail), None)),
            SymbolEntryKind::TypeAlias => Some(plain(e.name@, CompletionKind::Interface, "03_"@, opt_view(e.detail), None)),
            _ => None,
        }
    } else {
        None
    }
}

pub open spec fn type_entry_cands(es: Seq<SymbolEntry>) -> Seq<CandView>
    decreases es.len(),
{
    if es.len() == 0 {
        seq![]
    } else {
        type_entry_cands(es.drop_last()) + opt_seq(type_entry_cand(es.last()))
    }
}

/// The primitive types, then the declared types.
pub open spec fn type_cands(es: Seq<SymbolEntry>) -> Seq<CandView> {
    primitive_cands() + type_entry_cands(es)
}

/// A constant without parent.
pub open spec fn const_cand(e: SymbolEntry) -> Option<CandView> {
    if e.kind == SymbolEntryKind::Const && e.parent is None {
        Some(plain(e.name@, CompletionKind::Constant, "01_"@, opt_view(e.detail), None))
    } else {
        None
    }
}

pub open spec fn const_cands(es: Seq<SymbolEntry>) -> Seq<CandView>
    decreases es.len(),
{
    if es.len() == 0 {
        seq![]
    } else {
        const_cands(es.drop_last()) + opt_seq(const_cand(es.last()))
    }
}

/// A top-level function, proposed for a call.
pub open spec fn scope_fn_cand(e: SymbolEntry, config: LspConfig) -> Option<CandView> {
    if is_function_kind(e.kind) && top_level(e) {
        Some(callable(e.name@, CompletionKind::Function, "02_"@, or_empty(opt_view(e.detail)), config))
    } else {
        None
    }
}

pub open spec fn scope_fn_cands(es: Seq<SymbolEntry>, config: LspConfig) -> Seq<CandView>
    decreases es.len(),
{
    if es.len() == 0 {
        seq![]
    } else {
        scope_fn_cands(es.drop_last(), config) + opt_seq(scope_fn_cand(es.last(), config))
    }
}

/// A top-level declaration proposed at the top level: functions for a
/// call, types and constants by name.
pub open spec fn global_entry_cand(e: SymbolEntry, config: LspConfig) -> Option<CandView> {
    if top_level(e) {
        match e.kind {
            SymbolEntryKind::Struct => Some(plain(e.name@, CompletionKind::Struct, "03_"@, opt_view(e.detail), None)),
            SymbolEntryKind::Enum => Some(plain(e.name@, CompletionKind::Enum, "03_"@, opt_view(e.detail), None)),
            SymbolEntryKind::TypeAlias => Some(plain(e.name@, CompletionKind::Interface, "03_"@, opt_view(e.detail), None)),
            SymbolEntryKind::Const => Some(plain(e.name@, CompletionKind::Constant, "03_"@, opt_view(e.detail), None)),
            SymbolEntryKind::Function | SymbolEntryKind::ExportFunction | SymbolEntryKind::ExternFunction => Some(
                callable(e.name@, CompletionKind::Function, "02_"@, or_empty(opt_view(e.detail)), config),
            ),
            _ => None,
        }
    } else {
        None
    }
}

pub open spec fn global_entry_cands(es: Seq<SymbolEntry>, config: LspConfig) -> Seq<CandView>
    decreases es.len(),
{
    if es.len() == 0 {
        seq![]
    } else {
        global_entry_cands(es.drop_last(), config) + opt_seq(global_entry_cand(es.last(), config))
    }
}

/// A function of the struct `owner` (its parent, or named `owner::...`),
/// proposed as a method under its name without the `owner::` prefix.
pub open spec fn method_cand(e: SymbolEntry, owner: Seq<char>, config: LspConfig) -> Option<CandView> {
    if is_function_kind(e.kind) && (opt_view(e.parent) == Some(owner) || starts_with(e.name@, owner + "::"@)) {
        Some(
            callable(
                strip_prefix(e.name@, owner + "::"@),
                CompletionKind::Method,
                "01_"@,
                or_empty(opt_view(e.detail)),
                config,
            ),
        )
    } else {
        None
    }
}

pub open spec fn method_cands(es: Seq<SymbolEntry>, owner: Seq<char>, config: LspConfig) -> Seq<CandView>
    decreases es.len(),
{
    if es.len() == 0 {
        seq![]
    } else {
        method_cands(es.drop_last(), owner, config) + opt_seq(method_cand(es.last(), owner, config))
    }
}

/// The signature of every top-level function among `es` can be made into a
/// call snippet.
pub open spec fn top_fns_snippet_safe(es: Seq<SymbolEntry>) -> bool {
    forall|i: int|
        0 <= i < es.len() && is_function_kind(#[trigger] es[i].kind) && top_level(es[i]) ==> snippet_safe(
            or_empty(opt_view(es[i].detail)),
        )
}

/// The signatures of the methods of `owner` among `es` can be made into
/// call snippets.
pub open spec fn methods_snippet_safe(es: Seq<SymbolEntry>, owner: Seq<char>) -> bool {
    forall|i: int|
        0 <= i < es.len() && is_function_kind(#[trigger] es[i].kind) && (opt_view(es[i].parent) == Some(owner)
            || starts_with(es[i].name@, owner + "::"@)) ==> snippet_safe(or_empty(opt_view(es[i].detail)))
}

/// The methods proposed after `.` on a receiver of type `rt` have signatures
/// that can be made into call snippets.
pub open spec fn receiver_snippets_safe(rt: Seq<char>, m: bool, analysis: AnalysisResult) -> bool {
    let t = strip_ref_type(rt, m).0;
    if (starts_with(t, "("@) && ends_with(t, ")"@)) || ends_with(t, "[]"@) || starts_with(t, "["@) || t == "str"@
        || t == "cstr"@ || is_number_type(t) {
        true
    } else {
        match analysis.ast {
            Some(ast) => struct_named(ast.items@, t) is Some ==> methods_snippet_safe(analysis.symbol_index.entries@, t),
            None => true,
        }
    }
}

/// The methods proposed after `path::` have signatures that can be made
/// into call snippets.
pub open spec fn path_snippets_safe(path: Seq<char>, analysis: AnalysisResult) -> bool {
    match analysis.ast {
        Some(ast) => match enum_named(ast.items@, path) {
            Some(_) => true,
            None => match struct_named(ast.items@, path) {
                Some(s) => methods_snippet_safe(analysis.symbol_index.entries@, s.name@),
                None => true,
            },
        },
        None => true,
    }
}

/// Every function or method proposed in context `ctx` has a signature that
/// can be made into a call snippet.
pub open spec fn context_snippets_safe(ctx: CompletionContext, analysis: AnalysisResult) -> bool {
    match ctx.trigger {
        Some(t) => if t@ == "."@ {
            match ctx.receiver_type {
                Some(rt) => receiver_snippets_safe(rt@, ctx.receiver_is_mut, analysis),
                None => true,
            }
        } else if t@ == "::"@ {
            match ctx.path_context {
                Some(p) => path_snippets_safe(p@, analysis),
                None => true,
            }
        } else {
            true
        },
        None => if ctx.inside_struct || ctx.inside_enum {
            true
        } else {
            top_fns_snippet_safe(analysis.symbol_index.entries@)
        },
    }
}

/// Proposes, for each entry in order, what `pick` proposes for it.
fn add_type_entries(out: &mut Vec<CompletionEntry>, es: &Vec<SymbolEntry>)
    ensures
        cands_view(final(out)@) == cands_view(old(out)@) + type_entry_cands(es@),
{
    let ghost v0 = cands_view(out@);
    let mut i: usize = 0;
    proof {
        assert(es@.take(0) =~= Seq::<SymbolEntry>::empty());
        assert(v0 + type_entry_cands(es@.take(0)) =~= v0);
    }
    while i < es.len()
        invariant
            0 <= i <= es@.len(),
            cands_view(out@) == v0 + type_entry_cands(es@.take(i as int)),
        decreases es@.len() - i,
    {
        proof {
            assert(es@.take(i + 1).drop_last() =~= es@.take(i as int));
            assert(es@.take(i + 1).last() == es@[i as int]);
        }
        let ghost before = cands_view(out@);
        let e = &es[i];
        if e.parent.is_none() && !contains_path_sep(e.name.as_str()) {
            let kind = match e.kind {
                SymbolEntryKind::Struct => Some(CompletionKind::Struct),
                SymbolEntryKind::Enum => Some(CompletionKind::Enum),
                SymbolEntryKind::TypeAlias => Some(CompletionKind::Interface),
                _ => None,
            };
            if let Some(k) = kind {
                propose(out, item(e.name.as_str(), k, "03_", e.detail.clone(), None));
            }
        }
        proof {
            assert(cands_view(out@) =~= before + opt_seq(type_entry_cand(es@[i as int])));
            assert(before + opt_seq(type_entry_cand(es@[i as int])) =~= v0 + type_entry_cands(es@.take(i + 1)));
        }
        i = i + 1;
    }
    proof {
        assert(es@.take(i as int) =~= es@);
    }
}


fn add_const_entries(out: &mut Vec<CompletionEntry>, es: &Vec<SymbolEntry>)
    ensures
        cands_view(final(out)@) == cands_view(old(out)@) + const_cands(es@),
{
    let ghost v0 = cands_view(out@);
    let mut i: usize = 0;
    proof {
        assert(es@.take(0) =~= Seq::<SymbolEntry>::empty());
        assert(v0 + const_cands(es@.take(0)) =~= v0);
    }
    while i < es.len()
        invariant
            0 <= i <= es@.len(),
            cands_view(out@) == v0 + const_cands(es@.take(i as int)),
        decreases es@.len() - i,
    {
        proof {
            assert(es@.take(i + 1).drop_last() =~= es@.take(i as int));
            assert(es@.take(i + 1).last() == es@[i as int]);
        }
        let ghost before = cands_view(out@);
        let e = &es[i];
        if e.kind == SymbolEntryKind::Const && e.parent.is_none() {
            propose(out, item(e.name.as_str(), CompletionKind::Constant, "01_", e.detail.clone(), None));
        }
        proof {
            assert(cands_view(out@) =~= before + opt_seq(const_cand(es@[i as int])));
            assert(before + opt_seq(const_cand(es@[i as int])) =~= v0 + const_cands(es@.take(i + 1)));
        }
        i = i + 1;
    }
    proof {
        assert(es@.take(i as int) =~= es@);
    }
}

fn is_fn_entry(k: SymbolEntryKind) -> (r: bool)
    ensures
        r == is_function_kind(k),
{
    k == SymbolEntryKind::Function || k == SymbolEntryKind::ExportFunction || k == SymbolEntryKind::ExternFunction
}

fn add_scope_functions(out: &mut Vec<CompletionEntry>, es: &Vec<SymbolEntry>, config: &LspConfig)
    requires
        config.completion_snippets ==> top_fns_snippet_safe(es@),
    ensures
        cands_view(final(out)@) == cands_view(old(out)@) + scope_fn_cands(es@, *config),
{
    let ghost v0 = cands_view(out@);
    let mut i: usize = 0;
    proof {
        assert(es@.take(0) =~= Seq::<SymbolEntry>::empty());
        assert(v0 + scope_fn_cands(es@.take(0), *config) =~= v0);
    }
    while i < es.len()
        invariant
            0 <= i <= es@.len(),
            config.completion_snippets ==> top_fns_snippet_safe(es@),
            cands_view(out@) == v0 + scope_fn_cands(es@.take(i as int), *config),
        decreases es@.len() - i,
    {
        proof {
            assert(es@.take(i + 1).drop_last() =~= es@.take(i as int));
            assert(es@.take(i + 1).last() == es@[i as int]);
        }
        let ghost before = cands_view(out@);
        let e = &es[i];
        if is_fn_entry(e.kind) && e.parent.is_none() && !contains_path_sep(e.name.as_str()) {
            let sig = detail_text(&e.detail);
            propose(out, callable_item(e.name.as_str(), CompletionKind::Function, "02_", sig.as_str(), config));
        }
        proof {
            assert(cands_view(out@) =~= before + opt_seq(scope_fn_cand(es@[i as int], *config)));
            assert(before + opt_seq(scope_fn_cand(es@[i as int], *config)) =~= v0 + scope_fn_cands(es@.take(i + 1), *config));
        }
        i = i + 1;
    }
    proof {
        assert(es@.take(i as int) =~= es@);
    }
}

fn add_global_entries(out: &mut Vec<CompletionEntry>, es: &Vec<SymbolEntry>, config: &LspConfig)
    requires
        config.completion_snippets ==> top_fns_snippet_safe(es@),
    ensures
        cands_view(final(out)@) == cands_view(old(out)@) + global_entry_cands(es@, *config),
{
    let ghost v0 = cands_view(out@);
    let mut i: usize = 0;
    proof {
        assert(es@.take(0) =~= Seq::<SymbolEntry>::empty());
        assert(v0 + global_entry_cands(es@.take(0), *config) =~= v0);
    }
    while i < es.len()
        invariant
            0 <= i <= es@.len(),
            config.completion_snippets ==> top_fns_snippet_safe(es@),
            cands_view(out@) == v0 + global_entry_cands(es@.take(i as int), *config),
        decreases es@.len() - i,
    {
        proof {
            assert(es@.take(i + 1).drop_last() =~= es@.take(i as int));
            assert(es@.take(i + 1).last() == es@[i as int]);
        }
        let ghost before = cands_view(out@);
        let e = &es[i];
        if e.parent.is_none() && !contains_path_sep(e.name.as_str()) {
            let kind = match e.kind {
                SymbolEntryKind::Struct => Some(CompletionKind::Struct),
                SymbolEntryKind::Enum => Some(CompletionKind::Enum),
                SymbolEntryKind::TypeAlias => Some(CompletionKind::Interface),
                SymbolEntryKind::Const => Some(CompletionKind::Constant),
                SymbolEntryKind::Function | SymbolEntryKind::ExportFunction | SymbolEntryKind::ExternFunction => Some(
                    CompletionKind::Function,
                ),
                _ => None,
            };
            if let Some(k) = kind {
                if k == CompletionKind::Function {
                    let sig = detail_text(&e.detail);
                    propose(out, callable_item(e.name.as_str(), CompletionKind::Function, "02_", sig.as_str(), config));
                } else {
                    propose(out, item(e.name.as_str(), k, "03_", e.detail.clone(), None));
                }
            }
        }
        proof {
            assert(cands_view(out@) =~= before + opt_seq(global_entry_cand(es@[i as int], *config)));
            assert(before + opt_seq(global_entry_cand(es@[i as int], *config)) =~= v0 + global_entry_cands(es@.take(i + 1), *config));
        }
        i = i + 1;
    }
    proof {
        assert(es@.take(i as int) =~= es@);
    }
}

fn add_methods(out: &mut Vec<CompletionEntry>, es: &Vec<SymbolEntry>, owner: &str, config: &LspConfig)
    requires
        config.completion_snippets ==> methods_snippet_safe(es@, owner@),
    ensures
        cands_view(final(out)@) == cands_view(old(out)@) + method_cands(es@, owner@, *config),
{
    let ghost v0 = cands_view(out@);
    let pre = qualified_prefix(owner);
    let mut i: usize = 0;
    proof {
        assert(es@.take(0) =~= Seq::<SymbolEntry>::empty());
        assert(v0 + method_cands(es@.take(0), owner@, *config) =~= v0);
    }
    while i < es.len()
        invariant
            0 <= i <= es@.len(),
            pre@ == owner@ + "::"@,
            config.completion_snippets ==> methods_snippet_safe(es@, owner@),
            cands_view(out@) == v0 + method_cands(es@.take(i as int), owner@, *config),
        decreases es@.len() - i,
    {
        proof {
            assert(es@.take(i + 1).drop_last() =~= es@.take(i as int));
            assert(es@.take(i + 1).last() == es@[i as int]);
        }
        let ghost before = cands_view(out@);
        let e = &es[i];
        let of_owner = match &e.parent {
            Some(p) => str_eq(p.as_str(), owner),
            None => false,
        };
        if is_fn_entry(e.kind) && (of_owner || text_starts_with(e.name.as_str(), string_from_chars(&pre).as_str())) {
            let name = strip_to_string(e.name.as_str(), &pre);
            let sig = detail_text(&e.detail);
            propose(out, callable_item(name.as_str(), CompletionKind::Method, "01_", sig.as_str(), config));
        }
        proof {
            assert(cands_view(out@) =~= before + opt_seq(method_cand(es@[i as int], owner@, *config)));
            assert(before + opt_seq(method_cand(es@[i as int], owner@, *config)) =~= v0 + method_cands(es@.take(i + 1), owner@, *config));
        }
        i = i + 1;
    }
    proof {
        assert(es@.take(i as int) =~= es@);
    }
}

// ---------------------------------------------------------------------
// Declarations looked up by name
// ---------------------------------------------------------------------

/// The first struct declared under `name`.
pub open spec fn struct_named(items: Seq<Item>, name: Seq<char>) -> Option<StructItem>
    decreases items.len(),
{
    if items.len() == 0 {
        None
    } else {
        match items[0].kind {
            ItemKind::Struct(s) => if s.name@ == name {
                Some(s)
            } else {
                struct_named(items.drop_first(), name)
            },
            _ => struct_named(items.drop_first(), name),
        }
    }
}

/// The first enum declared under `name`.
pub open spec fn enum_named(items: Seq<Item>, name: Seq<char>) -> Option<EnumItem>
    decreases items.len(),
{
    if items.len() == 0 {
        None
    } else {
        match items[0].kind {
            ItemKind::Enum(e) => if e.name@ == name {
                Some(e)
            } else {
                enum_named(items.drop_first(), name)
            },
            _ => enum_named(items.drop_first(), name),
        }
    }
}

/// The first struct of `ast` declared under `name`.
pub fn find_struct_item<'a>(ast: &'a Ast, name: &str) -> (r: Option<&'a StructItem>)
    ensures
        match struct_named(ast.items@, name@) {
            Some(s) => r matches Some(x) && *x == s,
            None => r is None,
        },
{
    let ghost items = ast.items@;
    let mut i: usize = 0;
    proof {
        assert(items.skip(0) =~= items);
    }
    while i < ast.items.len()
        invariant
            0 <= i <= items.len(),
            items == ast.items@,
            struct_named(items, name@) == struct_named(items.skip(i as int), name@),
        decreases items.len() - i,
    {
        proof {
            let rest = items.skip(i as int);
            assert(rest[0] == items[i as int]);
            assert(rest.drop_first() =~= items.skip(i + 1));
        }
        if let ItemKind::Struct(s) = &ast.items[i].kind {
            if str_eq(s.name.as_str(), name) {
                return Some(s);
            }
        }
        i = i + 1;
    }
    proof {
        assert(items.skip(i as int) =~= Seq::<Item>::empty());
    }
    None
}

/// The first enum of `ast` declared under `name`.
pub fn find_enum_item<'a>(ast: &'a Ast, name: &str) -> (r: Option<&'a EnumItem>)
    ensures
        match enum_named(ast.items@, name@) {
            Some(e) => r matches Some(x) && *x == e,
            None => r is None,
        },
{
    let ghost items = ast.items@;
    let mut i: usize = 0;
    proof {
        assert(items.skip(0) =~= items);
    }
    while i < ast.items.len()
        invariant
            0 <= i <= items.len(),
            items == ast.items@,
            enum_named(items, name@) == enum_named(items.skip(i as int), name@),
        decreases items.len() - i,
    {
        proof {
            let rest = items.skip(i as int);
            assert(rest[0] == items[i as int]);
            assert(rest.drop_first() =~= items.skip(i + 1));
        }
        if let ItemKind::Enum(e) = &ast.items[i].kind {
            if str_eq(e.name.as_str(), name) {
                return Some(e);
            }
        }
        i = i + 1;
    }
    proof {
        assert(items.skip(i as int) =~= Seq::<Item>::empty());
    }
    None
}


// ---------------------------------------------------------------------
// After a `.`
// ---------------------------------------------------------------------

/// A receiver type without its leading `&mut ` (which makes it mutable)
/// or `&`.
pub open spec fn strip_ref_type(t: Seq<char>, m: bool) -> (Seq<char>, bool) {
    if starts_with(t, "&mut "@) {
        (t.skip(5), true)
    } else if starts_with(t, "&"@) {
        (t.skip(1), m)
    } else {
        (t, m)
    }
}

/// Fields `0`, `1`, ... of a tuple with `n` items.
pub open spec fn numbered_fields(n: nat) -> Seq<CandView>
    decreases n,
{
    if n == 0 {
        seq![]
    } else {
        numbered_fields((n - 1) as nat).push(plain(decimal((n - 1) as nat), CompletionKind::Field, "01_"@, None, None))
    }
}

pub open spec fn str_method_cands(config: LspConfig) -> Seq<CandView> {
    seq![
        callable("len"@, CompletionKind::Method, "01_"@, "fn len() -> i32"@, config),
        callable("is_empty"@, CompletionKind::Method, "01_"@, "fn is_empty() -> bool"@, config),
        callable("chars"@, CompletionKind::Method, "01_"@, "fn chars() -> [char]"@, config),
        callable("trim"@, CompletionKind::Method, "01_"@, "fn trim() -> str"@, config),
        callable("starts_with"@, CompletionKind::Method, "01_"@, "fn starts_with(prefix: str) -> bool"@, config),
        callable("ends_with"@, CompletionKind::Method, "01_"@, "fn ends_with(suffix: str) -> bool"@, config),
        callable("contains"@, CompletionKind::Method, "01_"@, "fn contains(sub: str) -> bool"@, config),
        callable("to_lowercase"@, CompletionKind::Method, "01_"@, "fn to_lowercase() -> str"@, config),
        callable("to_uppercase"@, CompletionKind::Method, "01_"@, "fn to_uppercase() -> str"@, config),
    ]
}

pub open spec fn number_method_cands(t: Seq<char>, config: LspConfig) -> Seq<CandView> {
    seq![
        callable("abs"@, CompletionKind::Method, "01_"@, "fn abs() -> "@ + t, config),
        callable("min"@, CompletionKind::Method, "01_"@, "fn min(other: "@ + t + ") -> "@ + t, config),
        callable("max"@, CompletionKind::Method, "01_"@, "fn max(other: "@ + t + ") -> "@ + t, config),
        callable("clamp"@, CompletionKind::Method, "01_"@, "fn clamp(min: "@ + t + ", max: "@ + t + ") -> "@ + t, config),
    ]
}

pub open spec fn is_number_type(t: Seq<char>) -> bool {
    t == "i32"@ || t == "i64"@ || t == "f32"@ || t == "f64"@
}

pub open spec fn field_cands(fs: Seq<StructField>) -> Seq<CandView> {
    fs.map_values(|f: StructField| plain(f.name@, CompletionKind::Field, "01_"@, Some(type_text(f.ty.shape())), None))
}

/// What is proposed after `receiver.` when the receiver's type is `rt`
/// (mutable when `m`): tuple fields by number; `length` for arrays and
/// slices, and `push`/`clear` when mutable; string and number methods;
/// else a struct's fields and methods, if it is a struct.
pub open spec fn receiver_cands(rt: Seq<char>, m: bool, analysis: AnalysisResult, config: LspConfig) -> Seq<CandView> {
    let (t, mm) = strip_ref_type(rt, m);
    if starts_with(t, "("@) && ends_with(t, ")"@) {
        numbered_fields(split_commas(t.subrange(1, t.len() - 1)).len())
    } else if ends_with(t, "[]"@) || starts_with(t, "["@) {
        seq![plain("length"@, CompletionKind::Field, "01_"@, Some("length"@), Some("fn length() -> i32"@))] + if mm {
            seq![
                callable("push"@, CompletionKind::Method, "01_"@, "fn push(value: T)"@, config),
                callable("clear"@, CompletionKind::Method, "01_"@, "fn clear()"@, config),
            ]
        } else {
            seq![]
        }
    } else if t == "str"@ || t == "cstr"@ {
        str_method_cands(config)
    } else if is_number_type(t) {
        number_method_cands(t, config)
    } else {
        match analysis.ast {
            Some(ast) => match struct_named(ast.items@, t) {
                Some(s) => field_cands(s.fields@) + method_cands(analysis.symbol_index.entries@, t, config),
                None => seq![],
            },
            None => seq![],
        }
    }
}

/// How many pieces `s` splits into at commas.
fn count_pieces(s: &Vec<char>) -> (r: usize)
    requires
        s@.len() < usize::MAX,
    ensures
        r == split_commas(s@).len(),
{
    let mut count: usize = 0;
    let mut last: usize = 0;
    let mut i: usize = 0;
    proof {
        assert(s@.skip(0) =~= s@);
    }
    while i < s.len()
        invariant
            0 <= last <= i <= s@.len(),
            s@.len() < usize::MAX,
            count <= i,
            split_commas(s@).len() == count + split_commas(s@.skip(last as int)).len(),
            forall|j: int| last <= j < i ==> s@[j] != ',',
        decreases s@.len() - i,
    {
        if s[i] == ',' {
            proof {
                let rest = s@.skip(last as int);
                let k = i - last;
                assert forall|j: int| 0 <= j < k implies rest[j] != ',' by {
                    assert(rest[j] == s@[last + j]);
                }
                assert(rest[k] == ',');
                lemma_split_step(rest, k);
                assert(rest.skip(k + 1) =~= s@.skip(i + 1));
            }
            count = count + 1;
            last = i + 1;
        }
        i = i + 1;
    }
    proof {
        let rest = s@.skip(last as int);
        assert forall|j: int| 0 <= j < rest.len() implies rest[j] != ',' by {
            assert(rest[j] == s@[last + j]);
        }
        lemma_split_last(rest);
    }
    count + 1
}

fn add_numbered_fields(out: &mut Vec<CompletionEntry>, n: usize)
    ensures
        cands_view(final(out)@) == cands_view(old(out)@) + numbered_fields(n as nat),
{
    let ghost v0 = cands_view(out@);
    let mut i: usize = 0;
    while i < n
        invariant
            0 <= i <= n,
            cands_view(out@) == v0 + numbered_fields(i as nat),
        decreases n - i,
    {
        let mut label: Vec<char> = Vec::new();
        push_decimal(&mut label, i as u64);
        proof {
            assert(label@ =~= decimal(i as nat));
        }
        let text = string_from_chars(&label);
        propose(out, item(text.as_str(), CompletionKind::Field, "01_", None, None));
        proof {
            assert(numbered_fields((i + 1) as nat) == numbered_fields(i as nat).push(
                plain(decimal(i as nat), CompletionKind::Field, "01_"@, None, None),
            ));
            assert(cands_view(out@) =~= v0 + numbered_fields((i + 1) as nat));
        }
        i = i + 1;
    }
}

fn add_fields(out: &mut Vec<CompletionEntry>, fs: &Vec<StructField>)
    ensures
        cands_view(final(out)@) == cands_view(old(out)@) + field_cands(fs@),
{
    let ghost v0 = cands_view(out@);
    let ghost all = field_cands(fs@);
    let mut i: usize = 0;
    proof {
        assert(all.take(0) =~= Seq::<CandView>::empty());
    }
    while i < fs.len()
        invariant
            0 <= i <= fs@.len(),
            all == field_cands(fs@),
            cands_view(out@) == v0 + all.take(i as int),
        decreases fs@.len() - i,
    {
        let f = &fs[i];
        let t = type_to_string(&f.ty);
        propose(out, item(f.name.as_str(), CompletionKind::Field, "01_", Some(t), None));
        proof {
            assert(all.take(i + 1) =~= all.take(i as int).push(all[i as int]));
        }
        i = i + 1;
    }
    proof {
        assert(all.take(i as int) =~= all);
    }
}

/// The first position of `c` in `a + b`.
pub proof fn lemma_first_index_concat(a: Seq<char>, b: Seq<char>, c: char)
    ensures
        first_index(a + b, c) == match first_index(a, c) {
            Some(k) => Some(k),
            None => match first_index(b, c) {
                Some(k) => Some(k + a.len()),
                None => None,
            },
        },
    decreases a.len(),
{
    if a.len() == 0 {
        assert(a + b =~= b);
    } else {
        assert((a + b).drop_first() =~= a.drop_first() + b);
        assert((a + b)[0] == a[0]);
        lemma_first_index_concat(a.drop_first(), b, c);
    }
}

/// The number type names hold no parenthesis.
proof fn lemma_number_type_no_parens(t: Seq<char>)
    requires
        is_number_type(t),
    ensures
        first_index(t, '(') is None,
        first_index(t, ')') is None,
{
    reveal_strlit("i32");
    reveal_strlit("i64");
    reveal_strlit("f32");
    reveal_strlit("f64");
    reveal_with_fuel(first_index, 4);
}

/// `open + t + ") -> " + t` has its `(` (in `open`) before its `)`.
proof fn lemma_one_param_signature_safe(open: Seq<char>, t: Seq<char>)
    requires
        is_number_type(t),
        first_index(open, '(') is Some,
        first_index(open, ')') is None,
    ensures
        snippet_safe(open + t + ") -> "@ + t),
{
    lemma_number_type_no_parens(t);
    lemma_first_index(open, '(');
    assert(first_index(") -> "@, ')') == Some(0int)) by {
        reveal_strlit(") -> ");
        reveal_with_fuel(first_index, 2);
    }
    lemma_first_index_concat(open, t, '(');
    lemma_first_index_concat(open, t, ')');
    lemma_first_index_concat(open + t, ") -> "@, '(');
    lemma_first_index_concat(open + t, ") -> "@, ')');
    lemma_first_index_concat(open + t + ") -> "@, t, '(');
    lemma_first_index_concat(open + t + ") -> "@, t, ')');
}

/// The number method signatures can be made into call snippets.
proof fn lemma_number_signatures_safe(t: Seq<char>)
    requires
        is_number_type(t),
    ensures
        snippet_safe("fn abs() -> "@ + t),
        snippet_safe("fn min(other: "@ + t + ") -> "@ + t),
        snippet_safe("fn max(other: "@ + t + ") -> "@ + t),
        snippet_safe("fn clamp(min: "@ + t + ", max: "@ + t + ") -> "@ + t),
{
    lemma_abs_signature_safe(t);
    lemma_min_max_signatures_safe(t);
    lemma_clamp_signature_safe(t);
}

proof fn lemma_abs_signature_safe(t: Seq<char>)
    requires
        is_number_type(t),
    ensures
        snippet_safe("fn abs() -> "@ + t),
{
    lemma_number_type_no_parens(t);
    assert(first_index("fn abs() -> "@, '(') == Some(6int) && first_index("fn abs() -> "@, ')') == Some(7int)) by {
        reveal_strlit("fn abs() -> ");
        reveal_with_fuel(first_index, 10);
    }
    lemma_first_index_concat("fn abs() -> "@, t, '(');
    lemma_first_index_concat("fn abs() -> "@, t, ')');
}

proof fn lemma_min_max_signatures_safe(t: Seq<char>)
    requires
        is_number_type(t),
    ensures
        snippet_safe("fn min(other: "@ + t + ") -> "@ + t),
        snippet_safe("fn max(other: "@ + t + ") -> "@ + t),
{
    lemma_min_open();
    lemma_max_open();
    lemma_one_param_signature_safe("fn min(other: "@, t);
    lemma_one_param_signature_safe("fn max(other: "@, t);
}

proof fn lemma_min_open()
    ensures
        first_index("fn min(other: "@, '(') == Some(6int),
        first_index("fn min(other: "@, ')') is None,
{
    reveal_strlit("fn min(other: ");
    reveal_with_fuel(first_index, 16);
}

proof fn lemma_max_open()
    ensures
        first_index("fn max(other: "@, '(') == Some(6int),
        first_index("fn max(other: "@, ')') is None,
{
    reveal_strlit("fn max(other: ");
    reveal_with_fuel(first_index, 16);
}

proof fn lemma_clamp_signature_safe(t: Seq<char>)
    requires
        is_number_type(t),
    ensures
        snippet_safe("fn clamp(min: "@ + t + ", max: "@ + t + ") -> "@ + t),
{
    lemma_number_type_no_parens(t);
    lemma_clamp_pieces();
    let open = "fn clamp(min: "@ + t + ", max: "@;
    lemma_first_index_concat("fn clamp(min: "@, t, '(');
    lemma_first_index_concat("fn clamp(min: "@, t, ')');
    lemma_first_index_concat("fn clamp(min: "@ + t, ", max: "@, '(');
    lemma_first_index_concat("fn clamp(min: "@ + t, ", max: "@, ')');
    assert(first_index(open, '(') is Some);
    assert(first_index(open, ')') is None);
    lemma_one_param_signature_safe(open, t);
}

proof fn lemma_clamp_pieces()
    ensures
        first_index("fn clamp(min: "@, '(') == Some(8int),
        first_index("fn clamp(min: "@, ')') is None,
        first_index(", max: "@, ')') is None,
{
    assert(first_index("fn clamp(min: "@, '(') == Some(8int) && first_index("fn clamp(min: "@, ')') is None) by {
        reveal_strlit("fn clamp(min: ");
        reveal_with_fuel(first_index, 16);
    }
    assert(first_index(", max: "@, ')') is None) by {
        reveal_strlit(", max: ");
        reveal_with_fuel(first_index, 8);
    }
}

#[verifier::rlimit(40)]
proof fn lemma_method_safe_0()
    ensures
        snippet_safe("fn push(value: T)"@),
{
    reveal_strlit("fn push(value: T)");
    reveal_with_fuel(first_index, 18);
}

#[verifier::rlimit(40)]
proof fn lemma_method_safe_1()
    ensures
        snippet_safe("fn clear()"@),
{
    reveal_strlit("fn clear()");
    reveal_with_fuel(first_index, 11);
}

#[verifier::rlimit(40)]
proof fn lemma_method_safe_2()
    ensures
        snippet_safe("fn len() -> i32"@),
{
    reveal_strlit("fn len() -> i32");
    reveal_with_fuel(first_index, 9);
}

#[verifier::rlimit(40)]
proof fn lemma_method_safe_3()
    ensures
        snippet_safe("fn is_empty() -> bool"@),
{
    reveal_strlit("fn is_empty() -> bool");
    reveal_with_fuel(first_index, 14);
}

#[verifier::rlimit(40)]
proof fn lemma_method_safe_4()
    ensures
        snippet_safe("fn chars() -> [char]"@),
{
    reveal_strlit("fn chars() -> [char]");
    reveal_with_fuel(first_index, 11);
}

#[verifier::rlimit(40)]
proof fn lemma_method_safe_5()
    ensures
        snippet_safe("fn trim() -> str"@),
{
    reveal_strlit("fn trim() -> str");
    reveal_with_fuel(first_index, 10);
}

#[verifier::rlimit(40)]
proof fn lemma_method_safe_6()
    ensures
        snippet_safe("fn starts_with(prefix: str) -> bool"@),
{
    reveal_strlit("fn starts_with(prefix: str) -> bool");
    reveal_with_fuel(first_index, 28);
}

#[verifier::rlimit(40)]
proof fn lemma_method_safe_7()
    ensures
        snippet_safe("fn ends_with(suffix: str) -> bool"@),
{
    reveal_strlit("fn ends_with(suffix: str) -> bool");
    reveal_with_fuel(first_index, 26);
}

#[verifier::rlimit(40)]
proof fn lemma_method_safe_8()
    ensures
        snippet_safe("fn contains(sub: str) -> bool"@),
{
    reveal_strlit("fn contains(sub: str) -> bool");
    reveal_with_fuel(first_index, 22);
}

#[verifier::rlimit(40)]
proof fn lemma_method_safe_9()
    ensures
        snippet_safe("fn to_lowercase() -> str"@),
{
    reveal_strlit("fn to_lowercase() -> str");
    reveal_with_fuel(first_index, 18);
}

#[verifier::rlimit(40)]
proof fn lemma_method_safe_10()
    ensures
        snippet_safe("fn to_uppercase() -> str"@),
{
    reveal_strlit("fn to_uppercase() -> str");
    reveal_with_fuel(first_index, 18);
}



/// `prefix + t + middle + t + suffix` as a string (`middle`, `suffix`
/// may be empty).
fn signature_with(prefix: &str, t: &str, middle: &str, second: bool, suffix: &str) -> (r: String)
    ensures
        r@ == prefix@ + t@ + middle@ + (if second {
            t@
        } else {
            seq![]
        }) + suffix@,
{
    let mut out: Vec<char> = Vec::new();
    push_str(&mut out, prefix);
    push_str(&mut out, t);
    push_str(&mut out, middle);
    if second {
        push_str(&mut out, t);
    }
    push_str(&mut out, suffix);
    string_from_chars(&out)
}

fn add_receiver_items(out: &mut Vec<CompletionEntry>, rt: &str, m: bool, analysis: &AnalysisResult, config: &LspConfig)
    requires
        config.completion_snippets ==> receiver_snippets_safe(rt@, m, *analysis),
    ensures
        cands_view(final(out)@) == cands_view(old(out)@) + receiver_cands(rt@, m, *analysis, *config),
{
    let ghost v0 = cands_view(out@);
    proof {
        reveal_strlit("&mut ");
        reveal_strlit("&");
        reveal_strlit("(");
        reveal_strlit(")");
        reveal_strlit("[");
        reveal_strlit("");
    }
    let cs = chars_of(rt);
    let amp_mut = chars_of("&mut ");
    let ghost st = strip_ref_type(rt@, m);
    let (clean_v, is_mut) = if chars_start_with(&cs, &amp_mut) {
        (sub_vec(&cs, 5, cs.len()), true)
    } else if cs.len() > 0 && cs[0] == '&' {
        proof {
            assert(rt@.take(1) =~= "&"@);
        }
        (sub_vec(&cs, 1, cs.len()), m)
    } else {
        proof {
            if starts_with(rt@, "&"@) {
                assert(rt@.take(1)[0] == '&');
            }
        }
        (cs, m)
    };
    proof {
        assert(clean_v@ =~= st.0);
        assert(is_mut == st.1);
    }
    let clean = string_from_chars(&clean_v);
    let n = clean_v.len();
    let tuple_like = n > 0 && clean_v[0] == '(' && clean_v[n - 1] == ')';
    proof {
        let t = st.0;
        if starts_with(t, "("@) {
            assert(t.take(1)[0] == t[0]);
        }
        if ends_with(t, ")"@) {
            assert(t.skip(t.len() - 1)[0] == t[t.len() - 1]);
        }
        if tuple_like {
            assert(t.take(1) =~= "("@);
            assert(t.skip(t.len() - 1) =~= ")"@);
        }
        assert(tuple_like == (starts_with(t, "("@) && ends_with(t, ")"@)));
    }
    if tuple_like {
        let inner = sub_vec(&clean_v, 1, n - 1);
        let count = count_pieces(&inner);
        add_numbered_fields(out, count);
        return;
    }
    let array_like = text_ends_with(clean.as_str(), "[]") || (n > 0 && clean_v[0] == '[');
    proof {
        let t = st.0;
        if starts_with(t, "["@) {
            assert(t.take(1)[0] == t[0]);
        }
        if n > 0 && clean_v[0] == '[' {
            assert(t.take(1) =~= "["@);
        }
        assert(array_like == (ends_with(t, "[]"@) || starts_with(t, "["@)));
    }
    if array_like {
        propose(
            out,
            item("length", CompletionKind::Field, "01_", Some(String::from_str("length")), Some(String::from_str("fn length() -> i32"))),
        );
        if is_mut {
            proof {
                lemma_method_safe_0();
                lemma_method_safe_1();
            }
            propose(out, callable_item("push", CompletionKind::Method, "01_", "fn push(value: T)", config));
            propose(out, callable_item("clear", CompletionKind::Method, "01_", "fn clear()", config));
        }
        proof {
            assert(cands_view(out@) =~= v0 + receiver_cands(rt@, m, *analysis, *config));
        }
        return;
    }
    if str_eq(clean.as_str(), "str") || str_eq(clean.as_str(), "cstr") {
        proof {
            lemma_method_safe_2();
            lemma_method_safe_3();
            lemma_method_safe_4();
            lemma_method_safe_5();
            lemma_method_safe_6();
            lemma_method_safe_7();
            lemma_method_safe_8();
            lemma_method_safe_9();
            lemma_method_safe_10();
        }
        propose(out, callable_item("len", CompletionKind::Method, "01_", "fn len() -> i32", config));
        propose(out, callable_item("is_empty", CompletionKind::Method, "01_", "fn is_empty() -> bool", config));
        propose(out, callable_item("chars", CompletionKind::Method, "01_", "fn chars() -> [char]", config));
        propose(out, callable_item("trim", CompletionKind::Method, "01_", "fn trim() -> str", config));
        propose(out, callable_item("starts_with", CompletionKind::Method, "01_", "fn starts_with(prefix: str) -> bool", config));
        propose(out, callable_item("ends_with", CompletionKind::Method, "01_", "fn ends_with(suffix: str) -> bool", config));
        propose(out, callable_item("contains", CompletionKind::Method, "01_", "fn contains(sub: str) -> bool", config));
        propose(out, callable_item("to_lowercase", CompletionKind::Method, "01_", "fn to_lowercase() -> str", config));
        propose(out, callable_item("to_uppercase", CompletionKind::Method, "01_", "fn to_uppercase() -> str", config));
        proof {
            assert(cands_view(out@) =~= v0 + receiver_cands(rt@, m, *analysis, *config));
        }
        return;
    }
    if str_eq(clean.as_str(), "i32") || str_eq(clean.as_str(), "i64") || str_eq(clean.as_str(), "f32") || str_eq(clean.as_str(), "f64") {
        let t = clean.as_str();
        proof {
            lemma_number_signatures_safe(t@);
        }
        let abs = signature_with("fn abs() -> ", t, "", false, "");
        let min = signature_with("fn min(other: ", t, ") -> ", true, "");
        let max = signature_with("fn max(other: ", t, ") -> ", true, "");
        let clamp = signature_with("fn clamp(min: ", t, ", max: ", true, ") -> ");
        proof {
            assert(abs@ =~= "fn abs() -> "@ + t@);
            assert(min@ =~= "fn min(other: "@ + t@ + ") -> "@ + t@);
            assert(max@ =~= "fn max(other: "@ + t@ + ") -> "@ + t@);
        }
        let clamp2 = {
            let mut v: Vec<char> = Vec::new();
            push_str(&mut v, clamp.as_str());
            push_str(&mut v, t);
            string_from_chars(&v)
        };
        proof {
            assert(clamp2@ =~= "fn clamp(min: "@ + t@ + ", max: "@ + t@ + ") -> "@ + t@);
        }
        propose(out, callable_item("abs", CompletionKind::Method, "01_", abs.as_str(), config));
        propose(out, callable_item("min", CompletionKind::Method, "01_", min.as_str(), config));
        propose(out, callable_item("max", CompletionKind::Method, "01_", max.as_str(), config));
        propose(out, callable_item("clamp", CompletionKind::Method, "01_", clamp2.as_str(), config));
        proof {
            assert(cands_view(out@) =~= v0 + receiver_cands(rt@, m, *analysis, *config));
        }
        return;
    }
    match &analysis.ast {
        Some(ast) => match find_struct_item(ast, clean.as_str()) {
            Some(st_item) => {
                add_fields(out, &st_item.fields);
                let ghost v1 = cands_view(out@);
                add_methods(out, &analysis.symbol_index.entries, clean.as_str(), config);
                proof {
                    assert(cands_view(out@) =~= v0 + receiver_cands(rt@, m, *analysis, *config));
                }
            },
            None => {
                proof {
                    assert(cands_view(out@) =~= v0 + receiver_cands(rt@, m, *analysis, *config));
                }
            },
        },
        None => {
            proof {
                assert(cands_view(out@) =~= v0 + receiver_cands(rt@, m, *analysis, *config));
            }
        },
    }
}


// ---------------------------------------------------------------------
// After a `::`
// ---------------------------------------------------------------------

pub open spec fn variant_cands(vs: Seq<EnumVariant>, path: Seq<char>) -> Seq<CandView> {
    vs.map_values(|v: EnumVariant| plain(v.name@, CompletionKind::EnumMember, "01_"@, Some(path + "::"@ + v.name@), None))
}

/// What is proposed after `path::`: the variants of the enum `path`, else
/// the functions of the struct `path`.
pub open spec fn path_cands(path: Seq<char>, analysis: AnalysisResult, config: LspConfig) -> Seq<CandView> {
    match analysis.ast {
        Some(ast) => match enum_named(ast.items@, path) {
            Some(e) => variant_cands(e.variants@, path),
            None => match struct_named(ast.items@, path) {
                Some(s) => method_cands(analysis.symbol_index.entries@, s.name@, config),
                None => seq![],
            },
        },
        None => seq![],
    }
}

fn add_path_items(out: &mut Vec<CompletionEntry>, path: &str, analysis: &AnalysisResult, config: &LspConfig)
    requires
        config.completion_snippets ==> path_snippets_safe(path@, *analysis),
    ensures
        cands_view(final(out)@) == cands_view(old(out)@) + path_cands(path@, *analysis, *config),
{
    let ghost v0 = cands_view(out@);
    match &analysis.ast {
        Some(ast) => match find_enum_item(ast, path) {
            Some(e) => {
                let ghost all = variant_cands(e.variants@, path@);
                let mut i: usize = 0;
                proof {
                    assert(all.take(0) =~= Seq::<CandView>::empty());
                }
                while i < e.variants.len()
                    invariant
                        0 <= i <= e.variants@.len(),
                        all == variant_cands(e.variants@, path@),
                        cands_view(out@) == v0 + all.take(i as int),
                    decreases e.variants@.len() - i,
                {
                    let v = &e.variants[i];
                    let mut d: Vec<char> = Vec::new();
                    push_str(&mut d, path);
                    push_str(&mut d, "::");
                    push_str(&mut d, v.name.as_str());
                    let detail = string_from_chars(&d);
                    propose(out, item(v.name.as_str(), CompletionKind::EnumMember, "01_", Some(detail), None));
                    proof {
                        assert(all.take(i + 1) =~= all.take(i as int).push(all[i as int]));
                    }
                    i = i + 1;
                }
                proof {
                    assert(all.take(i as int) =~= all);
                }
            },
            None => match find_struct_item(ast, path) {
                Some(st) => {
                    add_methods(out, &analysis.symbol_index.entries, st.name.as_str(), config);
                },
                None => {
                    proof {
                        assert(cands_view(out@) =~= v0 + Seq::<CandView>::empty());
                    }
                },
            },
        },
        None => {
            proof {
                assert(cands_view(out@) =~= v0 + Seq::<CandView>::empty());
            }
        },
    }
}

// ---------------------------------------------------------------------
// Inside a function body
// ---------------------------------------------------------------------

pub open spec fn has_label(s: Seq<CandView>, l: Seq<char>) -> bool {
    exists|i: int| 0 <= i < s.len() && #[trigger] s[i].label == l
}

/// The proposals of `cs` whose label no earlier proposal has.
pub open spec fn first_of_each(cs: Seq<CandView>) -> Seq<CandView>
    decreases cs.len(),
{
    if cs.len() == 0 {
        seq![]
    } else {
        let prev = first_of_each(cs.drop_last());
        if has_label(prev, cs.last().label) {
            prev
        } else {
            prev.push(cs.last())
        }
    }
}

pub open spec fn param_cand(p: FunctionParam) -> CandView {
    plain(p.name@, CompletionKind::Variable, "00_"@, Some(type_text(p.ty.shape())), None)
}

/// A local or parameter entry of `f`'s body that ends at or before `o`.
pub open spec fn local_entry_cand(f: FunctionItem, e: SymbolEntry, o: int) -> Option<CandView> {
    if (e.kind == SymbolEntryKind::Local || e.kind == SymbolEntryKind::Parameter) && e.span.end <= o && (f.body matches Some(b)
        && b.span.start <= e.span.start && e.span.end <= b.span.end) {
        Some(plain(e.name@, CompletionKind::Variable, "00_"@, opt_view(e.detail), None))
    } else {
        None
    }
}

/// The local entries, latest first.
pub open spec fn rev_local_cands(f: FunctionItem, es: Seq<SymbolEntry>, o: int) -> Seq<CandView>
    decreases es.len(),
{
    if es.len() == 0 {
        seq![]
    } else {
        opt_seq(local_entry_cand(f, es.last(), o)) + rev_local_cands(f, es.drop_last(), o)
    }
}

/// The parameters of the function around `o`, then the locals declared
/// in its body before `o`, latest first; a name is proposed once, for its
/// first occurrence (so an inner binding shadows an outer one).
pub open spec fn local_cands(analysis: AnalysisResult, o: int) -> Seq<CandView> {
    match analysis.ast {
        Some(ast) => match current_function(ast.items@, o) {
            Some(f) => first_of_each(
                f.params@.map_values(|p: FunctionParam| param_cand(p)) + rev_local_cands(f, analysis.symbol_index.entries@, o),
            ),
            None => seq![],
        },
        None => seq![],
    }
}

/// Some entry of `es` is a local or parameter named `label` whose
/// declaration ends at or before `o`.
pub open spec fn declared_before(es: Seq<SymbolEntry>, label: Seq<char>, o: int) -> bool {
    exists|j: int|
        0 <= j < es.len() && ((#[trigger] es[j]).kind == SymbolEntryKind::Local || es[j].kind == SymbolEntryKind::Parameter)
            && es[j].span.end <= o && es[j].name@ == label
}

/// Function `f` has a parameter named `label`.
pub open spec fn param_named(f: FunctionItem, label: Seq<char>) -> bool {
    exists|p: int| 0 <= p < f.params@.len() && (#[trigger] f.params@[p]).name@ == label
}

proof fn lemma_rev_local_cands_declared(f: FunctionItem, es: Seq<SymbolEntry>, o: int)
    ensures
        forall|k: int|
            0 <= k < rev_local_cands(f, es, o).len() ==> declared_before(es, (#[trigger] rev_local_cands(f, es, o)[k]).label, o),
    decreases es.len(),
{
    if es.len() > 0 {
        let d = es.drop_last();
        lemma_rev_local_cands_declared(f, d, o);
        let head = opt_seq(local_entry_cand(f, es.last(), o));
        let r = rev_local_cands(f, es, o);
        assert(r == head + rev_local_cands(f, d, o));
        assert forall|k: int| 0 <= k < r.len() implies declared_before(es, (#[trigger] r[k]).label, o) by {
            if k < head.len() {
                assert(r[k] == head[k]);
                assert(es[es.len() - 1] == es.last());
            } else {
                assert(r[k] == rev_local_cands(f, d, o)[k - head.len()]);
                let c = rev_local_cands(f, d, o)[k - head.len()];
                assert(declared_before(d, c.label, o));
                let j = choose|j: int|
                    0 <= j < d.len() && ((#[trigger] d[j]).kind == SymbolEntryKind::Local || d[j].kind == SymbolEntryKind::Parameter)
                        && d[j].span.end <= o && d[j].name@ == c.label;
                assert(es[j] == d[j]);
            }
        }
    }
}

proof fn lemma_first_of_each_from(cs: Seq<CandView>)
    ensures
        forall|k: int| 0 <= k < first_of_each(cs).len() ==> exists|m: int| 0 <= m < cs.len() && cs[m] == #[trigger] first_of_each(cs)[k],
    decreases cs.len(),
{
    if cs.len() > 0 {
        let d = cs.drop_last();
        lemma_first_of_each_from(d);
        let fo = first_of_each(cs);
        assert forall|k: int| 0 <= k < fo.len() implies exists|m: int| 0 <= m < cs.len() && cs[m] == #[trigger] fo[k] by {
            if k < first_of_each(d).len() {
                assert(fo[k] == first_of_each(d)[k]);
                let m = choose|m: int| 0 <= m < d.len() && d[m] == first_of_each(d)[k];
                assert(cs[m] == d[m]);
            } else {
                assert(fo[k] == cs.last());
                assert(cs[cs.len() - 1] == cs.last());
            }
        }
    }
}

/// Every variable proposed in a function body is a parameter of that
/// function, or a local or parameter whose declaration ends at or before
/// the cursor: nothing declared later is proposed.
pub proof fn law_locals_declared_before(analysis: AnalysisResult, o: int)
    ensures
        forall|k: int|
            0 <= k < local_cands(analysis, o).len() ==> ({
                let c = #[trigger] local_cands(analysis, o)[k];
                ||| (analysis.ast matches Some(ast) && current_function(ast.items@, o) matches Some(f) && param_named(f, c.label))
                ||| declared_before(analysis.symbol_index.entries@, c.label, o)
            }),
{
    match analysis.ast {
        Some(ast) => match current_function(ast.items@, o) {
            Some(f) => {
                let es = analysis.symbol_index.entries@;
                let ps = f.params@.map_values(|p: FunctionParam| param_cand(p));
                let rl = rev_local_cands(f, es, o);
                let cs = ps + rl;
                lemma_first_of_each_from(cs);
                lemma_rev_local_cands_declared(f, es, o);
                assert forall|k: int| 0 <= k < local_cands(analysis, o).len() implies ({
                    let c = #[trigger] local_cands(analysis, o)[k];
                    ||| (analysis.ast matches Some(ast) && current_function(ast.items@, o) matches Some(f) && param_named(f, c.label))
                    ||| declared_before(analysis.symbol_index.entries@, c.label, o)
                }) by {
                    let c = local_cands(analysis, o)[k];
                    let m = choose|m: int| 0 <= m < cs.len() && cs[m] == #[trigger] first_of_each(cs)[k];
                    if m < ps.len() {
                        assert(cs[m] == param_cand(f.params@[m]));
                        assert(param_named(f, c.label));
                    } else {
                        assert(cs[m] == rl[m - ps.len()]);
                    }
                }
            },
            None => {},
        },
        None => {},
    }
}

/// Proposes the proposals of `pending` whose label no earlier one has.
fn add_first_of_each(out: &mut Vec<CompletionEntry>, pending: Vec<CompletionEntry>)
    ensures
        cands_view(final(out)@) == cands_view(old(out)@) + first_of_each(cands_view(pending@)),
{
    let ghost v0 = cands_view(out@);
    let ghost pv = cands_view(pending@);
    let ghost orig = pending@;
    let mut pending = pending;
    let mut labels: Vec<String> = Vec::new();
    let mut k: usize = 0;
    let n = pending.len();
    proof {
        assert(pv.take(0) =~= Seq::<CandView>::empty());
        assert(orig.skip(0) =~= orig);
    }
    while k < n
        invariant
            n == orig.len(),
            pv == cands_view(orig),
            0 <= k <= n,
            pending@ == orig.skip(k as int),
            cands_view(out@) == v0 + first_of_each(pv.take(k as int)),
            labels@.len() == first_of_each(pv.take(k as int)).len(),
            forall|j: int| 0 <= j < labels@.len() ==> #[trigger] labels@[j]@ == first_of_each(pv.take(k as int))[j].label,
        decreases n - k,
    {
        let ghost prev = first_of_each(pv.take(k as int));
        proof {
            assert(pv.take(k + 1).drop_last() =~= pv.take(k as int));
            assert(pv.take(k + 1).last() == pv[k as int]);
            assert(orig.skip(k as int)[0] == orig[k as int]);
        }
        let c = pending.remove(0);
        proof {
            assert(pending@ =~= orig.skip(k + 1));
            assert(cand_view(c) == pv[k as int]);
        }
        let mut seen = false;
        let mut j: usize = 0;
        while j < labels.len()
            invariant
                0 <= j <= labels@.len(),
                labels@.len() == prev.len(),
                forall|q: int| 0 <= q < labels@.len() ==> #[trigger] labels@[q]@ == prev[q].label,
                seen <==> exists|q: int| 0 <= q < j && #[trigger] prev[q].label == c.label@,
            decreases labels@.len() - j,
        {
            if str_eq(labels[j].as_str(), c.label.as_str()) {
                seen = true;
            }
            j = j + 1;
        }
        proof {
            assert(seen == has_label(prev, c.label@));
        }
        if !seen {
            labels.push(c.label.clone());
            propose(out, c);
            proof {
                assert(first_of_each(pv.take(k + 1)) == prev.push(pv[k as int]));
                assert(cands_view(out@) =~= v0 + first_of_each(pv.take(k + 1)));
            }
        } else {
            proof {
                assert(first_of_each(pv.take(k + 1)) == prev);
            }
        }
        k = k + 1;
    }
    proof {
        assert(pv.take(k as int) =~= pv);
    }
}

fn add_locals(out: &mut Vec<CompletionEntry>, analysis: &AnalysisResult, offset: usize)
    ensures
        cands_view(final(out)@) == cands_view(old(out)@) + local_cands(*analysis, offset as int),
{
    let ghost v0 = cands_view(out@);
    match &analysis.ast {
        Some(ast) => match find_current_function(&ast.items, offset) {
            Some(fi) => {
                if let ItemKind::Function(f) = &ast.items[fi].kind {
                    let mut pending: Vec<CompletionEntry> = Vec::new();
                    let ghost params = f.params@.map_values(|p: FunctionParam| param_cand(p));
                    let mut i: usize = 0;
                    proof {
                        assert(params.take(0) =~= Seq::<CandView>::empty());
                        assert(cands_view(pending@) =~= Seq::<CandView>::empty());
                    }
                    while i < f.params.len()
                        invariant
                            0 <= i <= f.params@.len(),
                            params == f.params@.map_values(|p: FunctionParam| param_cand(p)),
                            cands_view(pending@) == params.take(i as int),
                        decreases f.params@.len() - i,
                    {
                        let p = &f.params[i];
                        let t = type_to_string(&p.ty);
                        propose(&mut pending, item(p.name.as_str(), CompletionKind::Variable, "00_", Some(t), None));
                        proof {
                            assert(params.take(i + 1) =~= params.take(i as int).push(params[i as int]));
                        }
                        i = i + 1;
                    }
                    proof {
                        assert(params.take(i as int) =~= params);
                    }
                    let es = &analysis.symbol_index.entries;
                    let mut j: usize = es.len();
                    proof {
                        assert(rev_local_cands(*f, es@.skip(es@.len() as int), offset as int) =~= Seq::<CandView>::empty());
                        assert(cands_view(pending@) =~= params + Seq::<CandView>::empty());
                    }
                    while j > 0
                        invariant
                            0 <= j <= es@.len(),
                            cands_view(pending@) == params + rev_local_cands_from(*f, es@, j as int, offset as int),
                        decreases j,
                    {
                        let e = &es[j - 1];
                        let ghost before = cands_view(pending@);
                        let within = match &f.body {
                            Some(b) => b.span.start <= e.span.start && e.span.end <= b.span.end,
                            None => false,
                        };
                        if (e.kind == SymbolEntryKind::Local || e.kind == SymbolEntryKind::Parameter) && e.span.end as usize <= offset && within {
                            propose(&mut pending, item(e.name.as_str(), CompletionKind::Variable, "00_", e.detail.clone(), None));
                        }
                        proof {
                            assert(cands_view(pending@) =~= before + opt_seq(local_entry_cand(*f, es@[j - 1], offset as int)));
                            lemma_rev_local_step(*f, es@, j as int, offset as int);
                            assert(cands_view(pending@) =~= params + rev_local_cands_from(*f, es@, j - 1, offset as int));
                        }
                        j = j - 1;
                    }
                    proof {
                        lemma_rev_local_all(*f, es@, offset as int);
                    }
                    add_first_of_each(out, pending);
                } else {
                    proof {
                        assert(false);
                    }
                }
            },
            None => {
                proof {
                    assert(cands_view(out@) =~= v0 + Seq::<CandView>::empty());
                }
            },
        },
        None => {
            proof {
                assert(cands_view(out@) =~= v0 + Seq::<CandView>::empty());
            }
        },
    }
}

/// The local proposals of the entries from `j` on, latest first.
pub open spec fn rev_local_cands_from(f: FunctionItem, es: Seq<SymbolEntry>, j: int, o: int) -> Seq<CandView>
    decreases es.len() - j,
{
    if j >= es.len() || j < 0 {
        seq![]
    } else {
        rev_local_cands_from(f, es, j + 1, o) + opt_seq(local_entry_cand(f, es[j], o))
    }
}

proof fn lemma_rev_local_step(f: FunctionItem, es: Seq<SymbolEntry>, j: int, o: int)
    requires
        0 < j <= es.len(),
    ensures
        rev_local_cands_from(f, es, j - 1, o) == rev_local_cands_from(f, es, j, o) + opt_seq(local_entry_cand(f, es[j - 1], o)),
{
}

/// Reading the entries from the last to the first gives `rev_local_cands`.
proof fn lemma_rev_local_all(f: FunctionItem, es: Seq<SymbolEntry>, o: int)
    ensures
        rev_local_cands_from(f, es, 0, o) == rev_local_cands(f, es, o),
    decreases es.len(),
{
    if es.len() > 0 {
        lemma_rev_local_all(f, es.drop_last(), o);
        lemma_rev_local_prefix(f, es, 0, o);
    }
}

/// Dropping the last entry removes its proposal from the front.
proof fn lemma_rev_local_prefix(f: FunctionItem, es: Seq<SymbolEntry>, j: int, o: int)
    requires
        es.len() > 0,
        0 <= j <= es.len() - 1,
    ensures
        rev_local_cands_from(f, es, j, o) == opt_seq(local_entry_cand(f, es.last(), o)) + rev_local_cands_from(f, es.drop_last(), j, o),
    decreases es.len() - j,
{
    if j == es.len() - 1 {
        assert(rev_local_cands_from(f, es, j + 1, o) =~= Seq::<CandView>::empty());
        assert(rev_local_cands_from(f, es.drop_last(), j, o) =~= Seq::<CandView>::empty());
        assert(opt_seq(local_entry_cand(f, es.last(), o)) + Seq::<CandView>::empty() =~= opt_seq(local_entry_cand(f, es.last(), o)));
    } else {
        lemma_rev_local_prefix(f, es, j + 1, o);
        assert(es.drop_last()[j] == es[j]);
        assert(opt_seq(local_entry_cand(f, es.last(), o)) + rev_local_cands_from(f, es.drop_last(), j + 1, o) + opt_seq(
            local_entry_cand(f, es[j], o),
        ) =~= opt_seq(local_entry_cand(f, es.last(), o)) + (rev_local_cands_from(f, es.drop_last(), j + 1, o) + opt_seq(
            local_entry_cand(f, es[j], o),
        )));
    }
}


/// What is proposed inside a function body: locals and parameters,
/// constants, functions, types, then (when enabled) keywords and
/// built-ins.
pub open spec fn scope_cands(analysis: AnalysisResult, o: int, config: LspConfig) -> Seq<CandView> {
    let es = analysis.symbol_index.entries@;
    local_cands(analysis, o) + const_cands(es) + scope_fn_cands(es, config) + type_cands(es) + (if config.completion_keywords {
        keyword_cands(block_keywords())
    } else {
        seq![]
    }) + (if config.completion_builtins {
        builtin_cands(config)
    } else {
        seq![]
    })
}

/// What is proposed at the top level: declaration keywords (when
/// enabled), types, then the top-level declarations.
pub open spec fn global_cands(analysis: AnalysisResult, config: LspConfig) -> Seq<CandView> {
    let es = analysis.symbol_index.entries@;
    (if config.completion_keywords {
        keyword_cands(global_keywords())
    } else {
        seq![]
    }) + type_cands(es) + global_entry_cands(es, config)
}

fn add_types(out: &mut Vec<CompletionEntry>, analysis: &AnalysisResult)
    ensures
        cands_view(final(out)@) == cands_view(old(out)@) + type_cands(analysis.symbol_index.entries@),
{
    let ghost v0 = cands_view(out@);
    add_primitives(out);
    add_type_entries(out, &analysis.symbol_index.entries);
    proof {
        assert(cands_view(out@) =~= v0 + type_cands(analysis.symbol_index.entries@));
    }
}

fn add_scope_items(out: &mut Vec<CompletionEntry>, analysis: &AnalysisResult, offset: usize, config: &LspConfig)
    requires
        config.completion_snippets ==> top_fns_snippet_safe(analysis.symbol_index.entries@),
    ensures
        cands_view(final(out)@) == cands_view(old(out)@) + scope_cands(*analysis, offset as int, *config),
{
    let ghost v0 = cands_view(out@);
    let ghost es = analysis.symbol_index.entries@;
    add_locals(out, analysis, offset);
    add_const_entries(out, &analysis.symbol_index.entries);
    add_scope_functions(out, &analysis.symbol_index.entries, config);
    add_types(out, analysis);
    let ghost v1 = cands_view(out@);
    if config.completion_keywords {
        add_block_keywords(out);
    }
    let ghost v2 = cands_view(out@);
    if config.completion_builtins {
        add_builtins(out, config);
    }
    proof {
        let kw = if config.completion_keywords {
            keyword_cands(block_keywords())
        } else {
            Seq::<CandView>::empty()
        };
        let bi = if config.completion_builtins {
            builtin_cands(*config)
        } else {
            Seq::<CandView>::empty()
        };
        assert(v2 =~= v1 + kw);
        assert(cands_view(out@) =~= v2 + bi);
        assert(cands_view(out@) =~= v0 + scope_cands(*analysis, offset as int, *config));
    }
}

fn add_global_items(out: &mut Vec<CompletionEntry>, analysis: &AnalysisResult, config: &LspConfig)
    requires
        config.completion_snippets ==> top_fns_snippet_safe(analysis.symbol_index.entries@),
    ensures
        cands_view(final(out)@) == cands_view(old(out)@) + global_cands(*analysis, *config),
{
    let ghost v0 = cands_view(out@);
    if config.completion_keywords {
        add_global_keywords(out);
    }
    let ghost v1 = cands_view(out@);
    add_types(out, analysis);
    add_global_entries(out, &analysis.symbol_index.entries, config);
    proof {
        let kw = if config.completion_keywords {
            keyword_cands(global_keywords())
        } else {
            Seq::<CandView>::empty()
        };
        assert(v1 =~= v0 + kw);
        assert(cands_view(out@) =~= v0 + global_cands(*analysis, *config));
    }
}


// ---------------------------------------------------------------------
// Filtering, ordering, limiting
// ---------------------------------------------------------------------

/// The lower-case form of `s`, as std's `str::to_lowercase` gives it.
pub uninterp spec fn spec_lowercase(s: Seq<char>) -> Seq<char>;

/// Calls `str::to_lowercase`; the result is named `spec_lowercase` of the
/// argument (it depends on the text alone).
#[verifier::external_body]
pub(crate) fn lowercase(s: &str) -> (r: String)
    ensures
        r@ == spec_lowercase(s@),
{
    s.to_lowercase()
}

/// Whether `n` occurs in `h`.
pub open spec fn has_sub(h: Seq<char>, n: Seq<char>) -> bool {
    exists|i: int| 0 <= i <= h.len() - n.len() && #[trigger] h.subrange(i, i + n.len()) == n
}

pub(crate) fn chars_contain(h: &Vec<char>, n: &Vec<char>) -> (r: bool)
    ensures
        r == has_sub(h@, n@),
{
    if n.len() > h.len() {
        return false;
    }
    let hl = h.len();
    let last = hl - n.len();
    let mut i: usize = 0;
    while i <= last
        invariant
            last == h@.len() - n@.len(),
            hl == h@.len(),
            n@.len() <= h@.len(),
            0 <= i <= last + 1,
            forall|j: int| 0 <= j < i ==> #[trigger] h@.subrange(j, j + n@.len()) != n@,
        decreases last + 1 - i,
    {
        let mut k: usize = 0;
        let mut same = true;
        while k < n.len()
            invariant
                0 <= k <= n@.len(),
                n@.len() <= h@.len(),
                hl == h@.len(),
                i <= last,
                last == h@.len() - n@.len(),
                same <==> forall|q: int| 0 <= q < k ==> h@[i + q] == n@[q],
            decreases n@.len() - k,
        {
            if h[i + k] != n[k] {
                same = false;
            }
            k = k + 1;
        }
        if same {
            proof {
                assert(h@.subrange(i as int, i + n@.len()) =~= n@);
            }
            return true;
        }
        proof {
            let q = choose|q: int| 0 <= q < n@.len() && h@[i + q] != n@[q];
            assert(h@.subrange(i as int, i + n@.len())[q] != n@[q]);
        }
        if i == last {
            proof {
                assert forall|j: int| 0 <= j <= h@.len() - n@.len() implies #[trigger] h@.subrange(j, j + n@.len()) != n@ by {
                    assert(j < i || j == i);
                }
            }
            return false;
        }
        i = i + 1;
    }
    false
}

/// The proposals whose lower-cased label holds `lp`, in order.
pub open spec fn keep_matching(cs: Seq<CandView>, lp: Seq<char>) -> Seq<CandView>
    decreases cs.len(),
{
    if cs.len() == 0 {
        seq![]
    } else {
        keep_matching(cs.drop_last(), lp) + if has_sub(spec_lowercase(cs.last().label), lp) {
            seq![cs.last()]
        } else {
            seq![]
        }
    }
}

/// With a typed prefix, the proposals whose label holds it, case
/// ignored; with none, all of them.
pub open spec fn filter_prefix(cs: Seq<CandView>, prefix: Seq<char>) -> Seq<CandView> {
    if prefix.len() == 0 {
        cs
    } else {
        keep_matching(cs, spec_lowercase(prefix))
    }
}

/// Lexicographic order of labels, character by character.
pub open spec fn label_lt(a: Seq<char>, b: Seq<char>) -> bool
    decreases a.len(),
{
    if b.len() == 0 {
        false
    } else if a.len() == 0 {
        true
    } else if a[0] != b[0] {
        (a[0] as u32) < (b[0] as u32)
    } else {
        label_lt(a.drop_first(), b.drop_first())
    }
}

/// Where a proposal labelled `l` goes among `s`: before the first one
/// whose label is greater.
pub open spec fn insert_pos(s: Seq<CandView>, l: Seq<char>) -> int
    decreases s.len(),
{
    if s.len() == 0 {
        0
    } else if label_lt(l, s[0].label) {
        0
    } else {
        1 + insert_pos(s.drop_first(), l)
    }
}

/// `s` with `c` put in place, unless a proposal with its label is there.
pub open spec fn insert_unique(s: Seq<CandView>, c: CandView) -> Seq<CandView> {
    if has_label(s, c.label) {
        s
    } else {
        s.insert(insert_pos(s, c.label), c)
    }
}

/// The proposals ordered by label, keeping the first of each label.
pub open spec fn sorted_unique(cs: Seq<CandView>) -> Seq<CandView>
    decreases cs.len(),
{
    if cs.len() == 0 {
        seq![]
    } else {
        insert_unique(sorted_unique(cs.drop_last()), cs.last())
    }
}

proof fn lemma_label_lt_irreflexive(a: Seq<char>)
    ensures
        !label_lt(a, a),
    decreases a.len(),
{
    if a.len() > 0 {
        lemma_label_lt_irreflexive(a.drop_first());
    }
}

proof fn lemma_label_lt_trans(a: Seq<char>, b: Seq<char>, c: Seq<char>)
    requires
        label_lt(a, b),
        label_lt(b, c),
    ensures
        label_lt(a, c),
    decreases a.len(),
{
    if a.len() > 0 && b.len() > 0 && c.len() > 0 && a[0] == b[0] && b[0] == c[0] {
        lemma_label_lt_trans(a.drop_first(), b.drop_first(), c.drop_first());
    }
}

proof fn lemma_label_lt_total(a: Seq<char>, b: Seq<char>)
    ensures
        a == b || label_lt(a, b) || label_lt(b, a),
    decreases a.len(),
{
    if a.len() > 0 && b.len() > 0 && a[0] == b[0] {
        lemma_label_lt_total(a.drop_first(), b.drop_first());
        if a.drop_first() == b.drop_first() {
            assert(a =~= seq![a[0]] + a.drop_first());
            assert(b =~= seq![b[0]] + b.drop_first());
        }
    } else if a.len() > 0 && b.len() > 0 {
        vstd::utf8::char_u32_cast(a[0], a[0] as u32);
        vstd::utf8::char_u32_cast(b[0], b[0] as u32);
    } else if a.len() == 0 && b.len() == 0 {
        assert(a =~= b);
    }
}

/// Labels strictly increase along `s`.
pub open spec fn strictly_ordered(s: Seq<CandView>) -> bool {
    forall|i: int, j: int| 0 <= i < j < s.len() ==> label_lt(#[trigger] s[i].label, #[trigger] s[j].label)
}

proof fn lemma_insert_pos_bounds(s: Seq<CandView>, l: Seq<char>)
    ensures
        0 <= insert_pos(s, l) <= s.len(),
        forall|i: int| 0 <= i < insert_pos(s, l) ==> !label_lt(l, #[trigger] s[i].label),
        insert_pos(s, l) < s.len() ==> label_lt(l, s[insert_pos(s, l)].label),
    decreases s.len(),
{
    if s.len() > 0 && !label_lt(l, s[0].label) {
        lemma_insert_pos_bounds(s.drop_first(), l);
        assert forall|i: int| 0 <= i < insert_pos(s, l) implies !label_lt(l, #[trigger] s[i].label) by {
            if i > 0 {
                assert(s[i] == s.drop_first()[i - 1]);
            }
        }
    }
}

proof fn lemma_insert_unique_ordered(s: Seq<CandView>, c: CandView)
    requires
        strictly_ordered(s),
    ensures
        strictly_ordered(insert_unique(s, c)),
{
    if !has_label(s, c.label) {
        let l = c.label;
        let p = insert_pos(s, l);
        lemma_insert_pos_bounds(s, l);
        let t = s.insert(p, c);
        assert forall|i: int| 0 <= i < p implies label_lt(#[trigger] s[i].label, l) by {
            lemma_label_lt_total(s[i].label, l);
        }
        assert forall|i: int| p <= i < s.len() implies label_lt(l, #[trigger] s[i].label) by {
            if i > p {
                lemma_label_lt_trans(l, s[p].label, s[i].label);
            }
        }
        assert forall|i: int, j: int| 0 <= i < j < t.len() implies label_lt(#[trigger] t[i].label, #[trigger] t[j].label) by {
            if j < p {
                assert(t[i] == s[i] && t[j] == s[j]);
            } else if j == p {
                assert(t[i] == s[i]);
            } else if i == p {
                assert(t[j] == s[j - 1]);
            } else if i < p {
                assert(t[i] == s[i] && t[j] == s[j - 1]);
            } else {
                assert(t[i] == s[i - 1] && t[j] == s[j - 1]);
            }
        }
    }
}

proof fn lemma_sorted_unique_ordered(cs: Seq<CandView>)
    ensures
        strictly_ordered(sorted_unique(cs)),
    decreases cs.len(),
{
    if cs.len() > 0 {
        lemma_sorted_unique_ordered(cs.drop_last());
        lemma_insert_unique_ordered(sorted_unique(cs.drop_last()), cs.last());
    }
}

/// Completion proposals come strictly ordered by label, so no label is
/// proposed twice.
pub proof fn law_proposals_strictly_ordered(cs: Seq<CandView>, prefix: Seq<char>, max: usize)
    ensures
        strictly_ordered(finish(cs, prefix, max)),
        forall|i: int, j: int|
            0 <= i < j < finish(cs, prefix, max).len() ==> #[trigger] finish(cs, prefix, max)[i].label
                != #[trigger] finish(cs, prefix, max)[j].label,
{
    let d = sorted_unique(filter_prefix(cs, prefix));
    lemma_sorted_unique_ordered(filter_prefix(cs, prefix));
    let f = finish(cs, prefix, max);
    assert forall|i: int, j: int| 0 <= i < j < f.len() implies label_lt(#[trigger] f[i].label, #[trigger] f[j].label) by {
        assert(f[i] == d[i] && f[j] == d[j]);
    }
    assert forall|i: int, j: int| 0 <= i < j < f.len() implies #[trigger] f[i].label != #[trigger] f[j].label by {
        lemma_label_lt_irreflexive(f[i].label);
    }
}

/// Filtered by the typed prefix, ordered and deduplicated by label, and
/// cut to at most `max` proposals.
pub open spec fn finish(cs: Seq<CandView>, prefix: Seq<char>, max: usize) -> Seq<CandView> {
    let d = sorted_unique(filter_prefix(cs, prefix));
    if d.len() > max {
        d.take(max as int)
    } else {
        d
    }
}

fn chars_lt(a: &Vec<char>, b: &Vec<char>) -> (r: bool)
    ensures
        r == label_lt(a@, b@),
{
    let mut i: usize = 0;
    proof {
        assert(a@.skip(0) =~= a@);
        assert(b@.skip(0) =~= b@);
    }
    while i < a.len() && i < b.len()
        invariant
            0 <= i <= a@.len(),
            i <= b@.len(),
            label_lt(a@, b@) == label_lt(a@.skip(i as int), b@.skip(i as int)),
        decreases a@.len() - i,
    {
        proof {
            assert(a@.skip(i as int)[0] == a@[i as int]);
            assert(b@.skip(i as int)[0] == b@[i as int]);
            assert(a@.skip(i as int).drop_first() =~= a@.skip(i + 1));
            assert(b@.skip(i as int).drop_first() =~= b@.skip(i + 1));
        }
        if a[i] != b[i] {
            return (a[i] as u32) < (b[i] as u32);
        }
        i = i + 1;
    }
    i < b.len()
}

proof fn lemma_insert_pos(s: Seq<CandView>, l: Seq<char>, i: int)
    requires
        0 <= i <= s.len(),
        forall|j: int| 0 <= j < i ==> !label_lt(l, #[trigger] s[j].label),
        i == s.len() || label_lt(l, s[i].label),
    ensures
        insert_pos(s, l) == i,
    decreases i,
{
    if i > 0 {
        assert(!label_lt(l, s[0].label));
        assert forall|j: int| 0 <= j < i - 1 implies !label_lt(l, #[trigger] s.drop_first()[j].label) by {
            assert(s.drop_first()[j] == s[j + 1]);
        }
        if i < s.len() {
            assert(s.drop_first()[i - 1] == s[i]);
        }
        lemma_insert_pos(s.drop_first(), l, i - 1);
    }
}

/// The proposals ordered by label, the first of each label kept.
fn sort_unique(items: Vec<CompletionEntry>) -> (r: Vec<CompletionEntry>)
    ensures
        cands_view(r@) == sorted_unique(cands_view(items@)),
{
    let ghost iv = cands_view(items@);
    let ghost orig = items@;
    let mut items = items;
    let mut out: Vec<CompletionEntry> = Vec::new();
    let n = items.len();
    let mut k: usize = 0;
    proof {
        assert(iv.take(0) =~= Seq::<CandView>::empty());
        assert(orig.skip(0) =~= orig);
        assert(cands_view(out@) =~= Seq::<CandView>::empty());
    }
    while k < n
        invariant
            n == orig.len(),
            iv == cands_view(orig),
            0 <= k <= n,
            items@ == orig.skip(k as int),
            cands_view(out@) == sorted_unique(iv.take(k as int)),
        decreases n - k,
    {
        let ghost prev = cands_view(out@);
        proof {
            assert(iv.take(k + 1).drop_last() =~= iv.take(k as int));
            assert(iv.take(k + 1).last() == iv[k as int]);
            assert(orig.skip(k as int)[0] == orig[k as int]);
        }
        let c = items.remove(0);
        proof {
            assert(items@ =~= orig.skip(k + 1));
        }
        let lc = chars_of(c.label.as_str());
        let mut found = false;
        let mut pos: usize = 0;
        let mut pos_set = false;
        let mut i: usize = 0;
        while i < out.len()
            invariant
                0 <= i <= out@.len(),
                prev == cands_view(out@),
                lc@ == c.label@,
                found <==> exists|q: int| 0 <= q < i && #[trigger] prev[q].label == c.label@,
                pos_set ==> pos < i && label_lt(c.label@, prev[pos as int].label) && forall|q: int| 0 <= q < pos ==> !label_lt(c.label@, #[trigger] prev[q].label),
                !pos_set ==> forall|q: int| 0 <= q < i ==> !label_lt(c.label@, #[trigger] prev[q].label),
            decreases out@.len() - i,
        {
            proof {
                assert(prev[i as int] == cand_view(out@[i as int]));
            }
            if str_eq(out[i].label.as_str(), c.label.as_str()) {
                found = true;
                proof {
                    assert(prev[i as int].label == c.label@);
                }
            }
            if !pos_set {
                let other = chars_of(out[i].label.as_str());
                if chars_lt(&lc, &other) {
                    pos = i;
                    pos_set = true;
                }
            }
            i = i + 1;
        }
        if !pos_set {
            pos = out.len();
        }
        proof {
            assert(found == has_label(prev, c.label@));
            lemma_insert_pos(prev, c.label@, pos as int);
            assert(cand_view(c) == iv[k as int]);
        }
        if !found {
            let ghost cv = cand_view(c);
            out.insert(pos, c);
            proof {
                assert(cands_view(out@) =~= prev.insert(pos as int, cv));
            }
        }
        k = k + 1;
    }
    proof {
        assert(iv.take(k as int) =~= iv);
    }
    out
}

/// Keeps the proposals whose lower-cased label holds `lp`.
fn keep_matching_items(items: Vec<CompletionEntry>, lp: &Vec<char>) -> (r: Vec<CompletionEntry>)
    ensures
        cands_view(r@) == keep_matching(cands_view(items@), lp@),
{
    let ghost iv = cands_view(items@);
    let ghost orig = items@;
    let mut items = items;
    let mut out: Vec<CompletionEntry> = Vec::new();
    let n = items.len();
    let mut k: usize = 0;
    proof {
        assert(iv.take(0) =~= Seq::<CandView>::empty());
        assert(orig.skip(0) =~= orig);
        assert(cands_view(out@) =~= Seq::<CandView>::empty());
    }
    while k < n
        invariant
            n == orig.len(),
            iv == cands_view(orig),
            0 <= k <= n,
            items@ == orig.skip(k as int),
            cands_view(out@) == keep_matching(iv.take(k as int), lp@),
        decreases n - k,
    {
        let ghost prev = cands_view(out@);
        proof {
            assert(iv.take(k + 1).drop_last() =~= iv.take(k as int));
            assert(iv.take(k + 1).last() == iv[k as int]);
            assert(orig.skip(k as int)[0] == orig[k as int]);
        }
        let c = items.remove(0);
        proof {
            assert(items@ =~= orig.skip(k + 1));
            assert(cand_view(c) == iv[k as int]);
        }
        let low = lowercase(c.label.as_str());
        let lc = chars_of(low.as_str());
        if chars_contain(&lc, lp) {
            propose(&mut out, c);
        } else {
            proof {
                assert(prev + Seq::<CandView>::empty() =~= prev);
            }
        }
        k = k + 1;
    }
    proof {
        assert(iv.take(k as int) =~= iv);
    }
    out
}

/// Filters by `prefix`, orders and deduplicates by label, and keeps at
/// most `max` proposals.
fn finish_items(items: Vec<CompletionEntry>, prefix: &str, max: usize) -> (r: Vec<CompletionEntry>)
    ensures
        cands_view(r@) == finish(cands_view(items@), prefix@, max),
{
    let pc = chars_of(prefix);
    let filtered = if pc.len() > 0 {
        let low = lowercase(prefix);
        let lp = chars_of(low.as_str());
        keep_matching_items(items, &lp)
    } else {
        items
    };
    let mut out = sort_unique(filtered);
    if out.len() > max {
        out.truncate(max);
        proof {
            assert(cands_view(out@) =~= finish(cands_view(items@), prefix@, max));
        }
    }
    out
}


// ---------------------------------------------------------------------
// Completion
// ---------------------------------------------------------------------

/// What is proposed, before filtering, in context `ctx` at byte `o`:
/// after `.`, the receiver's members; after `::`, the path's variants or
/// functions; inside a struct or enum, types; inside a function body,
/// what is in scope there; elsewhere, top-level proposals.
pub open spec fn candidates(ctx: CompletionContext, o: int, analysis: AnalysisResult, config: LspConfig) -> Seq<CandView> {
    match ctx.trigger {
        Some(t) => if t@ == "."@ {
            match ctx.receiver_type {
                Some(rt) => receiver_cands(rt@, ctx.receiver_is_mut, analysis, config),
                None => seq![],
            }
        } else if t@ == "::"@ {
            match ctx.path_context {
                Some(p) => path_cands(p@, analysis, config),
                None => seq![],
            }
        } else {
            seq![]
        },
        None => if ctx.inside_struct || ctx.inside_enum {
            type_cands(analysis.symbol_index.entries@)
        } else if ctx.inside_function {
            scope_cands(analysis, o, config)
        } else {
            global_cands(analysis, config)
        },
    }
}

/// The proposals for context `ctx` at byte `offset`: the candidates,
/// filtered by the typed prefix, ordered and deduplicated by label, at
/// most `completion_max_items` of them.
pub fn completion_items(ctx: &CompletionContext, offset: usize, analysis: &AnalysisResult, config: &LspConfig) -> (r: Vec<
    CompletionEntry,
>)
    requires
        config.completion_snippets ==> context_snippets_safe(*ctx, *analysis),
    ensures
        cands_view(r@) == finish(candidates(*ctx, offset as int, *analysis, *config), ctx.prefix@, config.completion_max_items),
{
    let mut items: Vec<CompletionEntry> = Vec::new();
    proof {
        assert(cands_view(items@) =~= Seq::<CandView>::empty());
        reveal_strlit(".");
        reveal_strlit("::");
    }
    match &ctx.trigger {
        Some(trigger) => {
            if str_eq(trigger.as_str(), ".") {
                if let Some(receiver) = &ctx.receiver_type {
                    add_receiver_items(&mut items, receiver.as_str(), ctx.receiver_is_mut, analysis, config);
                }
            } else if str_eq(trigger.as_str(), "::") {
                if let Some(path) = &ctx.path_context {
                    add_path_items(&mut items, path.as_str(), analysis, config);
                }
            }
        },
        None => {
            if ctx.inside_struct || ctx.inside_enum {
                add_types(&mut items, analysis);
            } else if ctx.inside_function {
                add_scope_items(&mut items, analysis, offset, config);
            } else {
                add_global_items(&mut items, analysis, config);
            }
        },
    }
    proof {
        assert(cands_view(items@) =~= candidates(*ctx, offset as int, *analysis, *config));
    }
    finish_items(items, ctx.prefix.as_str(), config.completion_max_items)
}

/// Completion at `position`: the context is worked out as
/// `derive_context` does, then `completion_items` proposes for it.
pub fn completion(document: &Document, position: Position, analysis: &AnalysisResult, config: &LspConfig) -> (r: Option<
    Vec<CompletionEntry>,
>)
    requires
        document.wf(),
        !path_cut_in_char(document.text_view(), cursor_index(document.text_view(), position)),
        config.completion_snippets ==> forall|ctx: CompletionContext|
            #[trigger] derived_context(*document, position, *analysis, ctx) ==> context_snippets_safe(ctx, *analysis),
    ensures
        r matches Some(items) && exists|ctx: CompletionContext|
            derived_context(*document, position, *analysis, ctx) && cands_view(items@) == finish(
                candidates(ctx, spec_position_to_offset(document.text_view(), position), *analysis, *config),
                ctx.prefix@,
                config.completion_max_items,
            ),
{
    let offset = document.position_to_offset(position);
    let ctx = derive_context(document, position, analysis);
    let items = completion_items(&ctx, offset, analysis, config);
    Some(items)
}

} // verus!
