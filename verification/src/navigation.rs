use vstd::prelude::*;

use crate::analysis_model::{references_view, spans_bounded, type_text, type_to_string, AnalysisResult, SymbolEntryKind};
use crate::def::DefId;
use crate::diagnostics::{adjust_span, span_to_range, spec_adjust_span};
use crate::document::Range;
use crate::outline::range_of;
use crate::span::Span;
use crate::symbol_index::lookup;
use crate::symbol_info::{first_def_entry, span_showable};
use crate::text::bytes_of;
use vstd::utf8::is_char_boundary;
use crate::ast::{EnumVariant, Expr, ExprKind, LiteralExpr, StructField};
use crate::chars::{decimal, join, lemma_join_push, push_decimal, push_str, string_from_chars};
use crate::completion_items::{enum_named, find_enum_item, find_struct_item, or_empty, struct_named};
use crate::document::{Document, Position};
use crate::symbol_info::{opt_view, picked_showable, position_to_symbol, symbol_at, SymbolInfo};

verus! {

/// How an expression is shown: a literal as written (strings and
/// characters quoted), anything else as `...`.
pub open spec fn spec_expr_to_string(e: Expr) -> Seq<char> {
    match e.kind {
        ExprKind::Literal(lit) => match lit {
            LiteralExpr::Integer(s) => s@,
            LiteralExpr::Float(s) => s@,
            LiteralExpr::String(s) => "\""@ + s@ + "\""@,
            LiteralExpr::CString(s) => "c\""@ + s@ + "\""@,
            LiteralExpr::Char(s) => "'"@ + s@ + "'"@,
            LiteralExpr::Bool(b) => if b {
                "true"@
            } else {
                "false"@
            },
        },
        _ => "..."@,
    }
}

/// How `expr` is shown (see `spec_expr_to_string`).
pub fn expr_to_string(expr: &Expr) -> (r: String)
    ensures
        r@ == spec_expr_to_string(*expr),
{
    match &expr.kind {
        ExprKind::Literal(lit) => match lit {
            LiteralExpr::Integer(s) => s.clone(),
            LiteralExpr::Float(s) => s.clone(),
            LiteralExpr::String(s) => {
                let mut out: Vec<char> = Vec::new();
                push_str(&mut out, "\"");
                push_str(&mut out, s.as_str());
                push_str(&mut out, "\"");
                string_from_chars(&out)
            },
            LiteralExpr::CString(s) => {
                let mut out: Vec<char> = Vec::new();
                push_str(&mut out, "c\"");
                push_str(&mut out, s.as_str());
                push_str(&mut out, "\"");
                string_from_chars(&out)
            },
            LiteralExpr::Char(s) => {
                let mut out: Vec<char> = Vec::new();
                push_str(&mut out, "'");
                push_str(&mut out, s.as_str());
                push_str(&mut out, "'");
                string_from_chars(&out)
            },
            LiteralExpr::Bool(b) => if *b {
                String::from_str("true")
            } else {
                String::from_str("false")
            },
        },
        _ => String::from_str("..."),
    }
}

pub open spec fn field_line(f: StructField) -> Seq<char> {
    "* "@ + f.name@ + ":"@ + type_text(f.ty.shape())
}

/// A variant's value: its written discriminant, else its position.
pub open spec fn variant_line(v: EnumVariant, i: int) -> Seq<char> {
    "* "@ + v.name@ + "="@ + match v.discriminant {
        Some(e) => spec_expr_to_string(e),
        None => decimal(i as nat),
    }
}

pub open spec fn variant_lines(vs: Seq<EnumVariant>) -> Seq<Seq<char>> {
    Seq::new(vs.len(), |i: int| variant_line(vs[i], i))
}

/// The decimal digits of `n` are digits that denote `n`.
pub proof fn lemma_decimal_denotes(n: nat)
    ensures
        crate::parser::all_digits(decimal(n)),
        crate::parser::decimal_value(decimal(n)) == n,
        decimal(n).len() > 0,
    decreases n,
{
    let d = (n % 10) as nat;
    assert((crate::chars::digit_char(d) as u32) - ('0' as u32) == d) by {
        if d == 0 {} else if d == 1 {} else if d == 2 {} else if d == 3 {} else if d == 4 {} else if d == 5 {}
        else if d == 6 {} else if d == 7 {} else if d == 8 {} else {}
    }
    assert(crate::parser::is_digit(crate::chars::digit_char(d)));
    if n >= 10 {
        lemma_decimal_denotes(n / 10);
        let s = decimal(n / 10);
        let t = s.push(crate::chars::digit_char(d));
        assert(t.drop_last() =~= s);
        assert forall|k: int| 0 <= k < t.len() implies crate::parser::is_digit(#[trigger] t[k]) by {
            if k < s.len() {
                assert(t[k] == s[k]);
            }
        }
        assert(decimal(n) == t);
        assert(crate::parser::decimal_value(t) == crate::parser::decimal_value(s) * 10 + d);
        assert((n / 10) * 10 + n % 10 == n) by (nonlinear_arith);
    } else {
        let t = decimal(n);
        assert(t.drop_last() =~= Seq::<char>::empty());
        assert(crate::parser::decimal_value(t) == crate::parser::decimal_value(t.drop_last()) * 10 + d);
    }
}

/// Hovering an enum shows, for each of its variants written without a
/// value, a line `* name=` followed by the digits of the variant's index
/// among the variants.
pub proof fn law_enum_hover_values(info: SymbolInfo, analysis: AnalysisResult, i: int)
    requires
        info.kind == SymbolEntryKind::Enum,
        analysis.ast matches Some(ast) && enum_named(ast.items@, info.name@) matches Some(e) && 0 <= i < e.variants@.len()
            && e.variants@[i].discriminant is None,
    ensures
        ({
            let e = enum_named(analysis.ast->0.items@, info.name@)->0;
            let line = hover_lines(info, analysis)[i + 2];
            let pre = "* "@ + e.variants@[i].name@ + "="@;
            &&& i + 2 < hover_lines(info, analysis).len()
            &&& pre.len() < line.len()
            &&& line.subrange(0, pre.len() as int) == pre
            &&& crate::parser::all_digits(line.subrange(pre.len() as int, line.len() as int))
            &&& crate::parser::decimal_value(line.subrange(pre.len() as int, line.len() as int)) == i
        }),
{
    let e = enum_named(analysis.ast->0.items@, info.name@)->0;
    let hl = hover_lines(info, analysis);
    let vl = variant_lines(e.variants@);
    assert(hl =~= seq!["enum "@ + info.name@ + ":i32"@] + (seq!["variants:"@] + vl));
    assert(hl[i + 2] == vl[i]);
    let pre = "* "@ + e.variants@[i].name@ + "="@;
    let line = vl[i];
    lemma_decimal_denotes(i as nat);
    assert(line == pre + decimal(i as nat));
    assert(line.subrange(0, pre.len() as int) =~= pre);
    assert(line.subrange(pre.len() as int, line.len() as int) =~= decimal(i as nat));
}

/// The lines shown when hovering a symbol: a struct with its fields and
/// layout, an enum with its variants' values, anything else by its
/// signature.
pub open spec fn hover_lines(info: SymbolInfo, analysis: AnalysisResult) -> Seq<Seq<char>> {
    match info.kind {
        SymbolEntryKind::Struct => seq!["struct "@ + info.name@] + match analysis.ast {
            Some(ast) => match struct_named(ast.items@, info.name@) {
                Some(s) => seq!["fields:"@] + s.fields@.map_values(|f: StructField| field_line(f)),
                None => seq![],
            },
            None => seq![],
        } + seq!["layout:"@ + match opt_view(info.abi_info) {
            Some(a) => a,
            None => "stable"@,
        }],
        SymbolEntryKind::Enum => seq!["enum "@ + info.name@ + ":i32"@] + match analysis.ast {
            Some(ast) => match enum_named(ast.items@, info.name@) {
                Some(e) => seq!["variants:"@] + variant_lines(e.variants@),
                None => seq![],
            },
            None => seq![],
        },
        _ => seq![or_empty(opt_view(info.signature))],
    }
}

/// The hover text: the hover lines joined by line breaks.
pub open spec fn spec_hover_text(info: SymbolInfo, analysis: AnalysisResult) -> Seq<char> {
    join(hover_lines(info, analysis), "\n"@)
}

/// Appends a line to text holding the lines `lines`.
fn push_line(out: &mut Vec<char>, lines: Ghost<Seq<Seq<char>>>, first: bool, line: &str)
    requires
        old(out)@ == join(lines@, "\n"@),
        first == (lines@.len() == 0),
    ensures
        final(out)@ == join(lines@.push(line@), "\n"@),
{
    proof {
        lemma_join_push(lines@, line@, "\n"@);
    }
    if !first {
        push_str(out, "\n");
    }
    push_str(out, line);
}

/// The text shown when hovering `info` (see `spec_hover_text`).
pub fn hover_text(info: &SymbolInfo, analysis: &AnalysisResult) -> (r: String)
    ensures
        r@ == spec_hover_text(*info, *analysis),
{
    let mut out: Vec<char> = Vec::new();
    let ghost mut lines: Seq<Seq<char>> = seq![];
    proof {
        assert(out@ =~= join(lines, "\n"@));
    }
    match info.kind {
        SymbolEntryKind::Struct => {
            let first = crate::resolver::concat3("struct ", info.name.as_str(), "");
            proof {
                reveal_strlit("");
                assert(first@ =~= "struct "@ + info.name@);
            }
            push_line(&mut out, Ghost(lines), true, first.as_str());
            proof {
                lines = lines.push(first@);
                assert(lines =~= seq!["struct "@ + info.name@]);
            }
            let ghost middle: Seq<Seq<char>> = seq![];
            if let Some(ast) = &analysis.ast {
                if let Some(s) = find_struct_item(ast, info.name.as_str()) {
                    push_line(&mut out, Ghost(lines), false, "fields:");
                    proof {
                        lines = lines.push("fields:"@);
                        middle = seq!["fields:"@];
                    }
                    let ghost fl = s.fields@.map_values(|f: StructField| field_line(f));
                    let mut i: usize = 0;
                    proof {
                        assert(fl.take(0) =~= Seq::<Seq<char>>::empty());
                        assert(lines =~= seq!["struct "@ + info.name@] + middle + fl.take(0));
                    }
                    while i < s.fields.len()
                        invariant
                            0 <= i <= s.fields@.len(),
                            fl == s.fields@.map_values(|f: StructField| field_line(f)),
                            lines == seq!["struct "@ + info.name@] + middle + fl.take(i as int),
                            middle == seq!["fields:"@],
                            out@ == join(lines, "\n"@),
                        decreases s.fields@.len() - i,
                    {
                        let f = &s.fields[i];
                        let t = type_to_string(&f.ty);
                        let mut line: Vec<char> = Vec::new();
                        push_str(&mut line, "* ");
                        push_str(&mut line, f.name.as_str());
                        push_str(&mut line, ":");
                        push_str(&mut line, t.as_str());
                        let line = string_from_chars(&line);
                        proof {
                            assert(line@ =~= fl[i as int]);
                        }
                        push_line(&mut out, Ghost(lines), false, line.as_str());
                        proof {
                            lines = lines.push(line@);
                            assert(fl.take(i + 1) =~= fl.take(i as int).push(fl[i as int]));
                            assert(lines =~= seq!["struct "@ + info.name@] + middle + fl.take(i + 1));
                        }
                        i = i + 1;
                    }
                    proof {
                        assert(fl.take(i as int) =~= fl);
                        middle = middle + fl;
                        assert(lines =~= seq!["struct "@ + info.name@] + middle);
                    }
                }
            }
            proof {
                assert(lines =~= seq!["struct "@ + info.name@] + middle);
            }
            let abi = match &info.abi_info {
                Some(a) => a.clone(),
                None => String::from_str("stable"),
            };
            let last = crate::resolver::concat3("layout:", abi.as_str(), "");
            proof {
                reveal_strlit("");
                reveal_strlit("stable");
                assert(last@ =~= "layout:"@ + abi@);
            }
            push_line(&mut out, Ghost(lines), false, last.as_str());
            proof {
                lines = lines.push(last@);
                assert(lines =~= hover_lines(*info, *analysis));
            }
        },
        SymbolEntryKind::Enum => {
            let first = crate::resolver::concat3("enum ", info.name.as_str(), ":i32");
            push_line(&mut out, Ghost(lines), true, first.as_str());
            proof {
                lines = lines.push(first@);
            }
            if let Some(ast) = &analysis.ast {
                if let Some(e) = find_enum_item(ast, info.name.as_str()) {
                    push_line(&mut out, Ghost(lines), false, "variants:");
                    proof {
                        lines = lines.push("variants:"@);
                    }
                    let ghost head = lines;
                    let ghost vl = variant_lines(e.variants@);
                    let mut i: usize = 0;
                    proof {
                        assert(head + vl.take(0) =~= head);
                    }
                    while i < e.variants.len()
                        invariant
                            0 <= i <= e.variants@.len(),
                            vl == variant_lines(e.variants@),
                            lines == head + vl.take(i as int),
                            head.len() > 0,
                            out@ == join(lines, "\n"@),
                        decreases e.variants@.len() - i,
                    {
                        let v = &e.variants[i];
                        let disc = match &v.discriminant {
                            Some(x) => expr_to_string(x),
                            None => {
                                let mut d: Vec<char> = Vec::new();
                                push_decimal(&mut d, i as u64);
                                string_from_chars(&d)
                            },
                        };
                        let mut line: Vec<char> = Vec::new();
                        push_str(&mut line, "* ");
                        push_str(&mut line, v.name.as_str());
                        push_str(&mut line, "=");
                        push_str(&mut line, disc.as_str());
                        let line = string_from_chars(&line);
                        proof {
                            assert(line@ =~= vl[i as int]);
                        }
                        push_line(&mut out, Ghost(lines), false, line.as_str());
                        proof {
                            lines = lines.push(line@);
                            assert(vl.take(i + 1) =~= vl.take(i as int).push(vl[i as int]));
                            assert(lines =~= head + vl.take(i + 1));
                        }
                        i = i + 1;
                    }
                    proof {
                        assert(vl.take(i as int) =~= vl);
                    }
                }
            }
            proof {
                assert(lines =~= hover_lines(*info, *analysis));
            }
        },
        _ => {
            let sig = match &info.signature {
                Some(x) => x.clone(),
                None => String::new(),
            };
            push_line(&mut out, Ghost(lines), true, sig.as_str());
            proof {
                lines = lines.push(sig@);
                assert(lines =~= hover_lines(*info, *analysis));
            }
        },
    }
    string_from_chars(&out)
}

/// The hover text for the symbol at `position`, if there is one.
pub fn hover(document: &Document, position: Position, analysis: &AnalysisResult) -> (r: Option<String>)
    requires
        spans_bounded(analysis.symbol_index.entries@),
        picked_showable(document, analysis, position),
    ensures
        exists|info: Option<SymbolInfo>|
            symbol_at(document, analysis, position, info) && match info {
                Some(i) => r matches Some(t) && t@ == spec_hover_text(i, *analysis),
                None => r is None,
            },
{
    let symbol = position_to_symbol(document, analysis, position);
    match &symbol {
        Some(info) => Some(hover_text(info, analysis)),
        None => None,
    }
}


// ---------------------------------------------------------------------
// Definitions and references
// ---------------------------------------------------------------------

/// A place in a document.
#[derive(Debug)]
pub struct Location {
    pub uri: lsp_types::Url,
    pub range: Range,
}

/// Where the definition of the symbol at `position` is, if known.
pub fn goto_definition(document: &Document, position: Position, analysis: &AnalysisResult) -> (r: Option<Location>)
    requires
        spans_bounded(analysis.symbol_index.entries@),
        picked_showable(document, analysis, position),
    ensures
        exists|info: Option<SymbolInfo>|
            symbol_at(document, analysis, position, info) && match info {
                Some(i) => match i.definition_range {
                    Some(dr) => r matches Some(l) && l.uri == analysis.uri && l.range == dr,
                    None => r is None,
                },
                None => r is None,
            },
{
    let symbol = position_to_symbol(document, analysis, position);
    match &symbol {
        Some(info) => match info.definition_range {
            Some(range) => Some(Location { uri: analysis.uri.clone(), range }),
            None => None,
        },
        None => None,
    }
}

/// The same as `goto_definition`.
pub fn goto_declaration(document: &Document, position: Position, analysis: &AnalysisResult) -> (r: Option<Location>)
    requires
        spans_bounded(analysis.symbol_index.entries@),
        picked_showable(document, analysis, position),
    ensures
        exists|info: Option<SymbolInfo>|
            symbol_at(document, analysis, position, info) && match info {
                Some(i) => match i.definition_range {
                    Some(dr) => r matches Some(l) && l.uri == analysis.uri && l.range == dr,
                    None => r is None,
                },
                None => r is None,
            },
{
    goto_definition(document, position, analysis)
}

/// A sort key: start line, start column, end line, end column.
pub type Key4 = (u32, u32, u32, u32);

pub open spec fn key_lt(a: Key4, b: Key4) -> bool {
    a.0 < b.0 || (a.0 == b.0 && (a.1 < b.1 || (a.1 == b.1 && (a.2 < b.2 || (a.2 == b.2 && a.3 < b.3)))))
}

/// Where an element with key `k` goes among `s`: after every element
/// whose key is not greater.
pub open spec fn upper_pos<T>(s: Seq<(Key4, T)>, k: Key4) -> int
    decreases s.len(),
{
    if s.len() == 0 {
        0
    } else if key_lt(k, s[0].0) {
        0
    } else {
        1 + upper_pos(s.drop_first(), k)
    }
}

/// `s` sorted by key, equal keys in their original order.
pub open spec fn stable_sort<T>(s: Seq<(Key4, T)>) -> Seq<(Key4, T)>
    decreases s.len(),
{
    if s.len() == 0 {
        seq![]
    } else {
        let p = stable_sort(s.drop_last());
        p.insert(upper_pos(p, s.last().0), s.last())
    }
}

proof fn lemma_upper_pos<T>(s: Seq<(Key4, T)>, k: Key4, i: int)
    requires
        0 <= i <= s.len(),
        forall|j: int| 0 <= j < i ==> !key_lt(k, #[trigger] s[j].0),
        i == s.len() || key_lt(k, s[i].0),
    ensures
        upper_pos(s, k) == i,
    decreases i,
{
    if i > 0 {
        assert(!key_lt(k, s[0].0));
        assert forall|j: int| 0 <= j < i - 1 implies !key_lt(k, #[trigger] s.drop_first()[j].0) by {
            assert(s.drop_first()[j] == s[j + 1]);
        }
        if i < s.len() {
            assert(s.drop_first()[i - 1] == s[i]);
        }
        lemma_upper_pos(s.drop_first(), k, i - 1);
    }
}

fn key_less(a: Key4, b: Key4) -> (r: bool)
    ensures
        r == key_lt(a, b),
{
    a.0 < b.0 || (a.0 == b.0 && (a.1 < b.1 || (a.1 == b.1 && (a.2 < b.2 || (a.2 == b.2 && a.3 < b.3)))))
}

/// Sorts by key, keeping equal keys in order (see `stable_sort`).
fn sort_keyed<T>(v: Vec<(Key4, T)>) -> (r: Vec<(Key4, T)>)
    ensures
        r@ == stable_sort(v@),
{
    let ghost orig = v@;
    let mut v = v;
    let mut out: Vec<(Key4, T)> = Vec::new();
    let n = v.len();
    let mut k: usize = 0;
    proof {
        assert(orig.take(0) =~= Seq::<(Key4, T)>::empty());
        assert(orig.skip(0) =~= orig);
    }
    while k < n
        invariant
            n == orig.len(),
            0 <= k <= n,
            v@ == orig.skip(k as int),
            out@ == stable_sort(orig.take(k as int)),
        decreases n - k,
    {
        let ghost prev = out@;
        proof {
            assert(orig.take(k + 1).drop_last() =~= orig.take(k as int));
            assert(orig.take(k + 1).last() == orig[k as int]);
            assert(orig.skip(k as int)[0] == orig[k as int]);
        }
        let x = v.remove(0);
        proof {
            assert(v@ =~= orig.skip(k + 1));
        }
        let mut pos: usize = 0;
        while pos < out.len() && !key_less(x.0, out[pos].0)
            invariant
                0 <= pos <= out@.len(),
                out@ == prev,
                forall|j: int| 0 <= j < pos ==> !key_lt(x.0, #[trigger] prev[j].0),
            decreases out@.len() - pos,
        {
            pos = pos + 1;
        }
        proof {
            lemma_upper_pos(prev, x.0, pos as int);
        }
        out.insert(pos, x);
        k = k + 1;
    }
    proof {
        assert(orig.take(k as int) =~= orig);
    }
    out
}

/// `s` without each element whose start equals that of the element kept
/// before it.
pub open spec fn dedup_starts<T>(s: Seq<(Key4, T)>) -> Seq<(Key4, T)>
    decreases s.len(),
{
    if s.len() == 0 {
        seq![]
    } else {
        let d = dedup_starts(s.drop_last());
        if d.len() > 0 && d.last().0.0 == s.last().0.0 && d.last().0.1 == s.last().0.1 {
            d
        } else {
            d.push(s.last())
        }
    }
}

fn dedup_by_start<T>(v: Vec<(Key4, T)>) -> (r: Vec<(Key4, T)>)
    ensures
        r@ == dedup_starts(v@),
{
    let ghost orig = v@;
    let mut v = v;
    let mut out: Vec<(Key4, T)> = Vec::new();
    let n = v.len();
    let mut k: usize = 0;
    proof {
        assert(orig.take(0) =~= Seq::<(Key4, T)>::empty());
        assert(orig.skip(0) =~= orig);
    }
    while k < n
        invariant
            n == orig.len(),
            0 <= k <= n,
            v@ == orig.skip(k as int),
            out@ == dedup_starts(orig.take(k as int)),
        decreases n - k,
    {
        proof {
            assert(orig.take(k + 1).drop_last() =~= orig.take(k as int));
            assert(orig.take(k + 1).last() == orig[k as int]);
            assert(orig.skip(k as int)[0] == orig[k as int]);
        }
        let x = v.remove(0);
        proof {
            assert(v@ =~= orig.skip(k + 1));
        }
        let m = out.len();
        let same = m > 0 && out[m - 1].0.0 == x.0.0 && out[m - 1].0.1 == x.0.1;
        if !same {
            out.push(x);
        }
        k = k + 1;
    }
    proof {
        assert(orig.take(k as int) =~= orig);
    }
    out
}

/// The preconditions under which `adjust_span` may narrow `span` to `name`.
pub open spec fn adjustable(t: Seq<u8>, span: Span, name: Seq<char>) -> bool {
    &&& span.start <= span.end
    &&& bytes_of(name).len() > 0
    &&& (span.end - span.start > bytes_of(name).len() && span.end <= t.len() && span.start < span.end ==> is_char_boundary(
        t,
        span.start as int,
    ) && is_char_boundary(t, span.end as int))
}

/// The span shown for a reference `span` to `d`: at the declaration, the
/// declared name within it.
pub open spec fn shown_span(a: AnalysisResult, t: Seq<u8>, d: DefId, span: Span) -> Span {
    if lookup(a.definition_index.definitions@, d.0) == Some(span) {
        match first_def_entry(a.symbol_index.entries@, d, span) {
            Some(e) => spec_adjust_span(t, span, bytes_of(e.name@)),
            None => span,
        }
    } else {
        span
    }
}

/// Whether a reference `span` to `d` is the declaration.
pub open spec fn is_declaration(a: AnalysisResult, d: DefId, span: Span) -> bool {
    lookup(a.definition_index.definitions@, d.0) == Some(span)
}

/// The references to `d` that are kept, each with the key of the range it
/// is shown at, in index order.
pub open spec fn kept_refs(s: Seq<char>, a: AnalysisResult, d: DefId, with_decl: bool, spans: Seq<Span>) -> Seq<(Key4, Range)>
    decreases spans.len(),
{
    if spans.len() == 0 {
        seq![]
    } else {
        let sp = spans.last();
        kept_refs(s, a, d, with_decl, spans.drop_last()) + if is_declaration(a, d, sp) && !with_decl {
            seq![]
        } else {
            let r = range_of(s, shown_span(a, bytes_of(s), d, sp));
            seq![((r.start.line, r.start.character, r.end.line, r.end.character), r)]
        }
    }
}

/// Every reference to `d` can be shown: at the declaration, narrowing to
/// the declared name is possible, and the shown span lies on character
/// boundaries.
pub open spec fn refs_showable(s: Seq<char>, a: AnalysisResult, d: DefId) -> bool {
    let refs = references_view(a.reference_index);
    refs.contains_key(d.0) ==> forall|k: int|
        0 <= k < refs[d.0].len() ==> {
            let sp = #[trigger] refs[d.0][k];
            &&& (is_declaration(a, d, sp) ==> match first_def_entry(a.symbol_index.entries@, d, sp) {
                Some(e) => adjustable(bytes_of(s), sp, e.name@),
                None => true,
            })
            &&& span_showable(s, shown_span(a, bytes_of(s), d, sp))
        }
}

/// The ranges of the references to `d` (without the declaration unless
/// `include_declaration`), ordered by position, one per start.
pub open spec fn reference_ranges(s: Seq<char>, a: AnalysisResult, d: DefId, with_decl: bool) -> Seq<Range> {
    let refs = references_view(a.reference_index);
    let kept = if refs.contains_key(d.0) {
        kept_refs(s, a, d, with_decl, refs[d.0])
    } else {
        seq![]
    };
    dedup_starts(stable_sort(kept)).map_values(|x: (Key4, Range)| x.1)
}

/// `s` is ordered by key.
pub open spec fn keyed_sorted<T>(s: Seq<(Key4, T)>) -> bool {
    forall|i: int, j: int| 0 <= i < j < s.len() ==> !key_lt(#[trigger] s[j].0, #[trigger] s[i].0)
}

/// The start of a key: line, then column.
pub open spec fn start_lt(a: Key4, b: Key4) -> bool {
    a.0 < b.0 || (a.0 == b.0 && a.1 < b.1)
}

/// `rs` are ordered by start, no two starting at the same place.
pub open spec fn starts_increasing(rs: Seq<Range>) -> bool {
    forall|i: int, j: int|
        0 <= i < j < rs.len() ==> (#[trigger] rs[i]).start.line < (#[trigger] rs[j]).start.line || (rs[i].start.line
            == rs[j].start.line && rs[i].start.character < rs[j].start.character)
}

proof fn lemma_upper_pos_props<T>(s: Seq<(Key4, T)>, k: Key4)
    ensures
        0 <= upper_pos(s, k) <= s.len(),
        forall|j: int| 0 <= j < upper_pos(s, k) ==> !key_lt(k, #[trigger] s[j].0),
        upper_pos(s, k) < s.len() ==> key_lt(k, s[upper_pos(s, k)].0),
    decreases s.len(),
{
    if s.len() > 0 && !key_lt(k, s[0].0) {
        lemma_upper_pos_props(s.drop_first(), k);
        assert forall|j: int| 0 <= j < upper_pos(s, k) implies !key_lt(k, #[trigger] s[j].0) by {
            if j > 0 {
                assert(s[j] == s.drop_first()[j - 1]);
            }
        }
        if upper_pos(s, k) < s.len() {
            assert(s[upper_pos(s, k)] == s.drop_first()[upper_pos(s, k) - 1]);
        }
    }
}

/// Sorting orders by key.
pub proof fn lemma_stable_sort_sorted<T>(s: Seq<(Key4, T)>)
    ensures
        keyed_sorted(stable_sort(s)),
        stable_sort(s).len() == s.len(),
    decreases s.len(),
{
    if s.len() > 0 {
        let p = stable_sort(s.drop_last());
        lemma_stable_sort_sorted(s.drop_last());
        let k = s.last().0;
        let u = upper_pos(p, k);
        lemma_upper_pos_props(p, k);
        let q = p.insert(u, s.last());
        assert forall|i: int, j: int| 0 <= i < j < q.len() implies !key_lt(#[trigger] q[j].0, #[trigger] q[i].0) by {
            if j < u {
                assert(q[i] == p[i] && q[j] == p[j]);
            } else if j == u {
                assert(q[j] == s.last());
                assert(q[i] == p[i]);
            } else if i < u {
                assert(q[i] == p[i] && q[j] == p[j - 1]);
                if j - 1 >= u {
                    assert(!key_lt(p[j - 1].0, p[u].0) || j - 1 == u);
                }
            } else if i == u {
                assert(q[i] == s.last() && q[j] == p[j - 1]);
                assert(key_lt(k, p[u].0));
                if j - 1 > u {
                    assert(!key_lt(p[j - 1].0, p[u].0));
                }
            } else {
                assert(q[i] == p[i - 1] && q[j] == p[j - 1]);
            }
        }
    }
}

/// Dropping entries that start where the one before starts, from entries
/// ordered by key, leaves entries ordered by start, each start once.
pub proof fn lemma_dedup_starts_increasing<T>(s: Seq<(Key4, T)>)
    requires
        keyed_sorted(s),
    ensures
        forall|i: int, j: int|
            0 <= i < j < dedup_starts(s).len() ==> start_lt(#[trigger] dedup_starts(s)[i].0, #[trigger] dedup_starts(s)[j].0),
        dedup_starts(s).len() > 0 ==> s.len() > 0 && dedup_starts(s).last().0.0 == s.last().0.0 && dedup_starts(s).last().0.1
            == s.last().0.1,
        dedup_starts(s).len() <= s.len(),
    decreases s.len(),
{
    if s.len() > 0 {
        let t = s.drop_last();
        assert(keyed_sorted(t)) by {
            assert forall|i: int, j: int| 0 <= i < j < t.len() implies !key_lt(#[trigger] t[j].0, #[trigger] t[i].0) by {
                assert(t[i] == s[i] && t[j] == s[j]);
            }
        }
        lemma_dedup_starts_increasing(t);
        let d = dedup_starts(t);
        if d.len() > 0 {
            assert(!key_lt(s.last().0, t.last().0)) by {
                assert(t.last() == s[s.len() - 2]);
            }
        }
    }
}

/// Each entry's key is its range's start and end.
pub open spec fn keys_match(s: Seq<(Key4, Range)>) -> bool {
    forall|i: int|
        0 <= i < s.len() ==> (#[trigger] s[i]).0 == (s[i].1.start.line, s[i].1.start.character, s[i].1.end.line, s[i].1.end.character)
}

proof fn lemma_kept_keys(s: Seq<char>, a: AnalysisResult, d: DefId, with_decl: bool, spans: Seq<Span>)
    requires
        keys_match(kept_refs(s, a, d, with_decl, seq![])),
    ensures
        keys_match(kept_refs(s, a, d, with_decl, spans)),
    decreases spans.len(),
{
    if spans.len() > 0 {
        lemma_kept_keys(s, a, d, with_decl, spans.drop_last());
        let k0 = kept_refs(s, a, d, with_decl, spans.drop_last());
        let k1 = kept_refs(s, a, d, with_decl, spans);
        assert forall|i: int| 0 <= i < k1.len() implies (#[trigger] k1[i]).0 == (k1[i].1.start.line, k1[i].1.start.character, k1[i].1.end.line, k1[i].1.end.character) by {
            if i < k0.len() {
                assert(k1[i] == k0[i]);
            }
        }
    }
}

proof fn lemma_stable_sort_keys(s: Seq<(Key4, Range)>)
    requires
        keys_match(s),
    ensures
        keys_match(stable_sort(s)),
    decreases s.len(),
{
    if s.len() > 0 {
        let t = s.drop_last();
        assert(keys_match(t)) by {
            assert forall|i: int| 0 <= i < t.len() implies (#[trigger] t[i]).0 == (t[i].1.start.line, t[i].1.start.character, t[i].1.end.line, t[i].1.end.character) by {
                assert(t[i] == s[i]);
            }
        }
        lemma_stable_sort_keys(t);
        let p = stable_sort(t);
        lemma_upper_pos_props(p, s.last().0);
        let u = upper_pos(p, s.last().0);
        let q = p.insert(u, s.last());
        assert forall|i: int| 0 <= i < q.len() implies (#[trigger] q[i]).0 == (q[i].1.start.line, q[i].1.start.character, q[i].1.end.line, q[i].1.end.character) by {
            if i < u {
                assert(q[i] == p[i]);
            } else if i > u {
                assert(q[i] == p[i - 1]);
            }
        }
    }
}

proof fn lemma_dedup_keys(s: Seq<(Key4, Range)>)
    requires
        keys_match(s),
    ensures
        keys_match(dedup_starts(s)),
    decreases s.len(),
{
    if s.len() > 0 {
        let t = s.drop_last();
        assert(keys_match(t)) by {
            assert forall|i: int| 0 <= i < t.len() implies (#[trigger] t[i]).0 == (t[i].1.start.line, t[i].1.start.character, t[i].1.end.line, t[i].1.end.character) by {
                assert(t[i] == s[i]);
            }
        }
        lemma_dedup_keys(t);
    }
}

/// The references are ordered by start, one per start.
pub proof fn law_reference_ranges_ordered(s: Seq<char>, a: AnalysisResult, d: DefId, with_decl: bool)
    ensures
        starts_increasing(reference_ranges(s, a, d, with_decl)),
{
    let refs = references_view(a.reference_index);
    let kept = if refs.contains_key(d.0) {
        kept_refs(s, a, d, with_decl, refs[d.0])
    } else {
        seq![]
    };
    lemma_stable_sort_sorted(kept);
    if refs.contains_key(d.0) {
        lemma_kept_keys(s, a, d, with_decl, refs[d.0]);
    }
    lemma_stable_sort_keys(kept);
    let srt = stable_sort(kept);
    lemma_dedup_starts_increasing(srt);
    lemma_dedup_keys(srt);
    let dd = dedup_starts(srt);
    let rs = dd.map_values(|x: (Key4, Range)| x.1);
    assert forall|i: int, j: int| 0 <= i < j < rs.len() implies (#[trigger] rs[i]).start.line < (#[trigger] rs[j]).start.line || (rs[i].start.line
        == rs[j].start.line && rs[i].start.character < rs[j].start.character) by {
        assert(start_lt(dd[i].0, dd[j].0));
        assert(rs[i] == dd[i].1 && rs[j] == dd[j].1);
    }
    assert(rs == reference_ranges(s, a, d, with_decl));
}

/// The locations of the references to `def_id`, ordered by position, one
/// per start; the declaration (narrowed to its name) only when
/// `include_declaration`.
pub fn def_to_references(document: &Document, analysis: &AnalysisResult, def_id: DefId, include_declaration: bool) -> (r: Vec<Location>)
    requires
        document.wf(),
        refs_showable(document.text_view(), *analysis, def_id),
    ensures
        r@.len() == reference_ranges(document.text_view(), *analysis, def_id, include_declaration).len(),
        forall|i: int| 0 <= i < r@.len() ==> (#[trigger] r@[i]).uri == analysis.uri && r@[i].range == reference_ranges(
            document.text_view(),
            *analysis,
            def_id,
            include_declaration,
        )[i],
{
    let ghost s = document.text_view();
    let ghost refs = references_view(analysis.reference_index);
    let mut keyed: Vec<(Key4, Range)> = Vec::new();
    match analysis.reference_index.references.get(&def_id.0) {
        Some(spans) => {
            let text = document.text();
            let t: &str = text.as_str();
            proof {
                assert(refs.contains_key(def_id.0));
                assert(refs[def_id.0] == spans@);
                assert(keyed@ =~= kept_refs(s, *analysis, def_id, include_declaration, spans@.take(0)));
            }
            let decl = match analysis.definition_index.definitions.get(&def_id.0) {
                Some(d) => Some(*d),
                None => None,
            };
            let mut i: usize = 0;
            while i < spans.len()
                invariant
                    0 <= i <= spans@.len(),
                    s == document.text_view(),
                    t@ == s,
                    refs == references_view(analysis.reference_index),
                    refs.contains_key(def_id.0),
                    refs[def_id.0] == spans@,
                    refs_showable(s, *analysis, def_id),
                    decl == lookup(analysis.definition_index.definitions@, def_id.0),
                    keyed@ == kept_refs(s, *analysis, def_id, include_declaration, spans@.take(i as int)),
                decreases spans@.len() - i,
            {
                proof {
                    assert(spans@.take(i + 1).drop_last() =~= spans@.take(i as int));
                    assert(spans@.take(i + 1).last() == spans@[i as int]);
                    assert(refs[def_id.0][i as int] == spans@[i as int]);
                }
                let span = spans[i];
                let is_decl = decl == Some(span);
                if !(is_decl && !include_declaration) {
                    let shown = if is_decl {
                        match first_def_entry_of(&analysis.symbol_index.entries, def_id, span) {
                            Some(j) => adjust_span(t, span, analysis.symbol_index.entries[j].name.as_str()),
                            None => span,
                        }
                    } else {
                        span
                    };
                    let range = span_to_range(document, shown);
                    keyed.push(((range.start.line, range.start.character, range.end.line, range.end.character), range));
                    proof {
                        assert(keyed@ =~= kept_refs(s, *analysis, def_id, include_declaration, spans@.take(i + 1)));
                    }
                } else {
                    proof {
                        assert(keyed@ =~= kept_refs(s, *analysis, def_id, include_declaration, spans@.take(i + 1)));
                    }
                }
                i = i + 1;
            }
            proof {
                assert(spans@.take(i as int) =~= spans@);
            }
        },
        None => {
            proof {
                assert(!refs.contains_key(def_id.0));
            }
        },
    }
    let sorted = sort_keyed(keyed);
    let deduped = dedup_by_start(sorted);
    let ghost dv = deduped@;
    let mut out: Vec<Location> = Vec::new();
    let mut j: usize = 0;
    while j < deduped.len()
        invariant
            0 <= j <= dv.len(),
            dv == deduped@,
            out@.len() == j,
            forall|q: int| 0 <= q < j ==> (#[trigger] out@[q]).uri == analysis.uri && out@[q].range == dv[q].1,
        decreases dv.len() - j,
    {
        out.push(Location { uri: analysis.uri.clone(), range: deduped[j].1 });
        j = j + 1;
    }
    out
}

/// The index of the first entry for `id` at `span`.
fn first_def_entry_of(entries: &Vec<crate::analysis_model::SymbolEntry>, id: DefId, span: Span) -> (r: Option<usize>)
    ensures
        match first_def_entry(entries@, id, span) {
            Some(e) => r matches Some(j) && j < entries@.len() && entries@[j as int] == e,
            None => r is None,
        },
{
    let mut i: usize = 0;
    proof {
        assert(entries@.skip(0) =~= entries@);
    }
    while i < entries.len()
        invariant
            0 <= i <= entries@.len(),
            first_def_entry(entries@, id, span) == first_def_entry(entries@.skip(i as int), id, span),
        decreases entries@.len() - i,
    {
        proof {
            let rest = entries@.skip(i as int);
            assert(rest[0] == entries@[i as int]);
            assert(rest.subrange(1, rest.len() as int) =~= entries@.skip(i + 1));
        }
        if entries[i].def_id == Some(id) && entries[i].span == span {
            return Some(i);
        }
        i = i + 1;
    }
    proof {
        assert(entries@.skip(i as int) =~= Seq::<crate::analysis_model::SymbolEntry>::empty());
    }
    None
}



/// The references of the definition the symbol at `position` names can be
/// shown.
pub open spec fn picked_refs_showable(document: &Document, analysis: &AnalysisResult, position: Position) -> bool {
    let o = crate::symbol_info::cursor_offset(document, position);
    (exists|i: int| crate::analysis_model::is_best_symbol(analysis.symbol_index.entries@, o, i)) ==> match crate::symbol_info::picked(
        *analysis,
        o,
    ).def_id {
        Some(d) => refs_showable(document.text_view(), *analysis, d),
        None => true,
    }
}

/// The occurrences of the definition the symbol at `position` names can be
/// highlighted.
pub open spec fn picked_highlights_showable(document: &Document, analysis: &AnalysisResult, position: Position) -> bool {
    let o = crate::symbol_info::cursor_offset(document, position);
    let e = crate::symbol_info::picked(*analysis, o);
    (exists|i: int| crate::analysis_model::is_best_symbol(analysis.symbol_index.entries@, o, i)) ==> match e.def_id {
        Some(d) => highlights_showable(document.text_view(), *analysis, d, e.name@),
        None => true,
    }
}

/// The references to the symbol at `position`, if it names a definition
/// (see `def_to_references`).
pub fn references(document: &Document, position: Position, analysis: &AnalysisResult, include_declaration: bool) -> (r: Option<Vec<Location>>)
    requires
        document.wf(),
        spans_bounded(analysis.symbol_index.entries@),
        picked_showable(document, analysis, position),
        picked_refs_showable(document, analysis, position),
    ensures
        exists|info: Option<SymbolInfo>|
            symbol_at(document, analysis, position, info) && match info {
                Some(i) => match i.def_id {
                    Some(d) => r matches Some(locs) && locs@.len() == reference_ranges(document.text_view(), *analysis, d, include_declaration).len()
                        && forall|k: int| 0 <= k < locs@.len() ==> (#[trigger] locs@[k]).uri == analysis.uri && locs@[k].range
                            == reference_ranges(document.text_view(), *analysis, d, include_declaration)[k],
                    None => r is None,
                },
                None => r is None,
            },
{
    let symbol = position_to_symbol(document, analysis, position);
    match &symbol {
        Some(info) => match info.def_id {
            Some(d) => {
                proof {
                    assert(refs_showable(document.text_view(), *analysis, d));
                }
                Some(def_to_references(document, analysis, d, include_declaration))
            },
            None => None,
        },
        None => None,
    }
}

/// Whether a highlight reads or writes its symbol.
#[derive(Clone, Copy, Debug, PartialEq, Eq, Structural)]
pub enum HighlightKind {
    Read,
    Write,
}

/// A highlighted occurrence of a symbol.
#[derive(Clone, Copy, Debug, PartialEq, Eq, Structural)]
pub struct Highlight {
    pub range: Range,
    pub kind: HighlightKind,
}

/// The span highlighted for a reference `span` to `d` named `name`: at
/// the declaration, the name within it.
pub open spec fn highlight_span(a: AnalysisResult, t: Seq<u8>, d: DefId, name: Seq<char>, span: Span) -> Span {
    if is_declaration(a, d, span) {
        spec_adjust_span(t, span, bytes_of(name))
    } else {
        span
    }
}

/// The highlights of the references `spans` to `d`, each with its sort
/// key (position, then the write first).
pub open spec fn highlights_of(s: Seq<char>, a: AnalysisResult, d: DefId, name: Seq<char>, spans: Seq<Span>) -> Seq<(Key4, Highlight)>
    decreases spans.len(),
{
    if spans.len() == 0 {
        seq![]
    } else {
        let sp = spans.last();
        let r = range_of(s, highlight_span(a, bytes_of(s), d, name, sp));
        let w = is_declaration(a, d, sp);
        highlights_of(s, a, d, name, spans.drop_last()) + seq![(
            (r.start.line, r.start.character, if w {
                0u32
            } else {
                1u32
            }, 0u32),
            Highlight {
                range: r,
                kind: if w {
                    HighlightKind::Write
                } else {
                    HighlightKind::Read
                },
            },
        )]
    }
}

/// `s` without each element whose range equals that of the element kept
/// before it.
pub open spec fn dedup_ranges(s: Seq<(Key4, Highlight)>) -> Seq<(Key4, Highlight)>
    decreases s.len(),
{
    if s.len() == 0 {
        seq![]
    } else {
        let d = dedup_ranges(s.drop_last());
        if d.len() > 0 && d.last().1.range == s.last().1.range {
            d
        } else {
            d.push(s.last())
        }
    }
}

/// The highlights of the references to `d` named `name`: ordered by
/// position, the write (the declaration) first among equal positions, one
/// per range.
pub open spec fn spec_highlights(s: Seq<char>, a: AnalysisResult, d: DefId, name: Seq<char>) -> Seq<Highlight> {
    let refs = references_view(a.reference_index);
    dedup_ranges(stable_sort(highlights_of(s, a, d, name, refs[d.0]))).map_values(|x: (Key4, Highlight)| x.1)
}

/// Every reference to `d` can be highlighted with the name `name`.
pub open spec fn highlights_showable(s: Seq<char>, a: AnalysisResult, d: DefId, name: Seq<char>) -> bool {
    let refs = references_view(a.reference_index);
    refs.contains_key(d.0) ==> forall|k: int|
        0 <= k < refs[d.0].len() ==> {
            let sp = #[trigger] refs[d.0][k];
            &&& (is_declaration(a, d, sp) ==> adjustable(bytes_of(s), sp, name))
            &&& span_showable(s, highlight_span(a, bytes_of(s), d, name, sp))
        }
}

fn dedup_by_range(v: Vec<(Key4, Highlight)>) -> (r: Vec<(Key4, Highlight)>)
    ensures
        r@ == dedup_ranges(v@),
{
    let ghost orig = v@;
    let mut v = v;
    let mut out: Vec<(Key4, Highlight)> = Vec::new();
    let n = v.len();
    let mut k: usize = 0;
    proof {
        assert(orig.take(0) =~= Seq::<(Key4, Highlight)>::empty());
        assert(orig.skip(0) =~= orig);
    }
    while k < n
        invariant
            n == orig.len(),
            0 <= k <= n,
            v@ == orig.skip(k as int),
            out@ == dedup_ranges(orig.take(k as int)),
        decreases n - k,
    {
        proof {
            assert(orig.take(k + 1).drop_last() =~= orig.take(k as int));
            assert(orig.take(k + 1).last() == orig[k as int]);
            assert(orig.skip(k as int)[0] == orig[k as int]);
        }
        let x = v.remove(0);
        proof {
            assert(v@ =~= orig.skip(k + 1));
        }
        let m = out.len();
        let same = m > 0 && out[m - 1].1.range == x.1.range;
        if !same {
            out.push(x);
        }
        k = k + 1;
    }
    proof {
        assert(orig.take(k as int) =~= orig);
    }
    out
}

/// The occurrences of the symbol at `position` to highlight, if it names a
/// definition with references.
pub fn document_highlight(document: &Document, position: Position, analysis: &AnalysisResult) -> (r: Option<Vec<Highlight>>)
    requires
        document.wf(),
        spans_bounded(analysis.symbol_index.entries@),
        picked_showable(document, analysis, position),
        picked_highlights_showable(document, analysis, position),
    ensures
        exists|info: Option<SymbolInfo>|
            symbol_at(document, analysis, position, info) && match info {
                Some(i) => match i.def_id {
                    Some(d) => if references_view(analysis.reference_index).contains_key(d.0) {
                        r matches Some(hs) && hs@ == spec_highlights(document.text_view(), *analysis, d, i.name@)
                    } else {
                        r is None
                    },
                    None => r is None,
                },
                None => r is None,
            },
{
    let ghost s = document.text_view();
    let symbol = position_to_symbol(document, analysis, position);
    let info = match &symbol {
        Some(i) => i,
        None => return None,
    };
    let def_id = match info.def_id {
        Some(d) => d,
        None => return None,
    };
    let ghost refs = references_view(analysis.reference_index);
    let spans = match analysis.reference_index.references.get(&def_id.0) {
        Some(sp) => sp,
        None => {
            proof {
                assert(!refs.contains_key(def_id.0));
            }
            return None;
        },
    };
    proof {
        assert(refs.contains_key(def_id.0));
        assert(refs[def_id.0] == spans@);
        assert(highlights_showable(s, *analysis, def_id, info.name@));
    }
    let def_span = match analysis.definition_index.definitions.get(&def_id.0) {
        Some(d) => Some(*d),
        None => None,
    };
    let text = document.text();
    let t: &str = text.as_str();
    let mut keyed: Vec<(Key4, Highlight)> = Vec::new();
    let mut i: usize = 0;
    proof {
        assert(keyed@ =~= highlights_of(s, *analysis, def_id, info.name@, spans@.take(0)));
    }
    while i < spans.len()
        invariant
            0 <= i <= spans@.len(),
            s == document.text_view(),
            t@ == s,
            refs == references_view(analysis.reference_index),
            refs.contains_key(def_id.0),
            refs[def_id.0] == spans@,
            highlights_showable(s, *analysis, def_id, info.name@),
            def_span == lookup(analysis.definition_index.definitions@, def_id.0),
            keyed@ == highlights_of(s, *analysis, def_id, info.name@, spans@.take(i as int)),
        decreases spans@.len() - i,
    {
        proof {
            assert(spans@.take(i + 1).drop_last() =~= spans@.take(i as int));
            assert(spans@.take(i + 1).last() == spans@[i as int]);
            assert(refs[def_id.0][i as int] == spans@[i as int]);
        }
        let span = spans[i];
        let is_decl = def_span == Some(span);
        let shown = if is_decl {
            adjust_span(t, span, info.name.as_str())
        } else {
            span
        };
        let range = span_to_range(document, shown);
        let h = if is_decl {
            Highlight { range, kind: HighlightKind::Write }
        } else {
            Highlight { range, kind: HighlightKind::Read }
        };
        let order: u32 = if is_decl {
            0
        } else {
            1
        };
        keyed.push(((range.start.line, range.start.character, order, 0), h));
        proof {
            assert(keyed@ =~= highlights_of(s, *analysis, def_id, info.name@, spans@.take(i + 1)));
        }
        i = i + 1;
    }
    proof {
        assert(spans@.take(i as int) =~= spans@);
    }
    let sorted = sort_keyed(keyed);
    let deduped = dedup_by_range(sorted);
    let ghost dv = deduped@;
    let mut out: Vec<Highlight> = Vec::new();
    let mut j: usize = 0;
    while j < deduped.len()
        invariant
            0 <= j <= dv.len(),
            dv == deduped@,
            out@ == dv.take(j as int).map_values(|x: (Key4, Highlight)| x.1),
        decreases dv.len() - j,
    {
        out.push(deduped[j].1);
        proof {
            assert(dv.take(j + 1).map_values(|x: (Key4, Highlight)| x.1) =~= dv.take(j as int).map_values(|x: (Key4, Highlight)| x.1).push(dv[j as int].1));
        }
        j = j + 1;
    }
    proof {
        assert(dv.take(j as int) =~= dv);
    }
    Some(out)
}

} // verus!
