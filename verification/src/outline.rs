use vstd::prelude::*;

use crate::analysis_model::{AnalysisResult, SymbolEntry, SymbolEntryKind};
use crate::completion_items::{has_path_sep, starts_with, strip_prefix};
use crate::diagnostics::{position_at, span_end, span_to_range};
use crate::document::{Document, Range};
use crate::span::Span;
use crate::symbol_info::{is_function_kind, opt_view, span_showable};

verus! {

/// What an outline symbol is.
#[derive(Clone, Copy, Debug, PartialEq, Eq, Structural)]
pub enum OutlineKind {
    Struct,
    Enum,
    Constant,
    TypeParameter,
    Function,
    Field,
    Method,
    EnumMember,
    Variable,
}

/// One symbol of a document's outline, with its members.
#[derive(Debug)]
pub struct DocumentSymbol {
    pub name: String,
    pub detail: Option<String>,
    pub kind: OutlineKind,
    pub range: Range,
    pub selection_range: Range,
    pub children: Option<Vec<DocumentSymbol>>,
}

/// An outline symbol, its members left out.
pub ghost struct OutlineView {
    pub name: Seq<char>,
    pub detail: Option<Seq<char>>,
    pub kind: OutlineKind,
    pub range: Range,
    pub selection_range: Range,
}

pub open spec fn outline_view(d: DocumentSymbol) -> OutlineView {
    OutlineView { name: d.name@, detail: opt_view(d.detail), kind: d.kind, range: d.range, selection_range: d.selection_range }
}

/// A member has no members of its own.
pub open spec fn leaf(d: DocumentSymbol) -> bool {
    d.children is None
}

/// The members of `d` have no members.
pub open spec fn members_are_leaves(d: DocumentSymbol) -> bool {
    match d.children {
        Some(cs) => forall|j: int| 0 <= j < cs@.len() ==> leaf(#[trigger] cs@[j]),
        None => true,
    }
}

/// The members of an outline symbol.
pub open spec fn members_view(d: DocumentSymbol) -> Option<Seq<OutlineView>> {
    match d.children {
        Some(cs) => Some(cs@.map_values(|c: DocumentSymbol| outline_view(c))),
        None => None,
    }
}

/// The editor range of a span of `s`.
pub open spec fn range_of(s: Seq<char>, span: Span) -> Range {
    Range { start: position_at(s, span.start as int), end: position_at(s, span_end(span)) }
}

/// An entry shown as `name` of kind `kind`.
pub open spec fn shown(s: Seq<char>, e: SymbolEntry, kind: OutlineKind, name: Seq<char>) -> OutlineView {
    OutlineView {
        name,
        detail: opt_view(e.detail),
        kind,
        range: range_of(s, e.span),
        selection_range: range_of(s, e.selection_span),
    }
}

/// The outline kind of a top-level entry kind.
pub open spec fn top_kind(k: SymbolEntryKind) -> Option<OutlineKind> {
    match k {
        SymbolEntryKind::Struct => Some(OutlineKind::Struct),
        SymbolEntryKind::Enum => Some(OutlineKind::Enum),
        SymbolEntryKind::Const => Some(OutlineKind::Constant),
        SymbolEntryKind::TypeAlias => Some(OutlineKind::TypeParameter),
        SymbolEntryKind::Function => Some(OutlineKind::Function),
        SymbolEntryKind::ExportFunction => Some(OutlineKind::Function),
        SymbolEntryKind::ExternFunction => Some(OutlineKind::Function),
        _ => None,
    }
}

/// An entry shown at the top of the outline: without parent, of a
/// declaration kind, not named with `::`.
pub open spec fn is_top(e: SymbolEntry) -> bool {
    e.parent is None && top_kind(e.kind) is Some && !has_path_sep(e.name@)
}

/// The fields of the struct `owner`, in order.
pub open spec fn field_members(s: Seq<char>, es: Seq<SymbolEntry>, owner: Seq<char>) -> Seq<OutlineView>
    decreases es.len(),
{
    if es.len() == 0 {
        seq![]
    } else {
        field_members(s, es.drop_last(), owner) + if es.last().kind == SymbolEntryKind::Field && opt_view(es.last().parent) == Some(
            owner,
        ) {
            seq![shown(s, es.last(), OutlineKind::Field, es.last().name@)]
        } else {
            seq![]
        }
    }
}

/// The functions of the struct `owner` (its parent, or named
/// `owner::...`), shown without the `owner::` prefix.
pub open spec fn method_members(s: Seq<char>, es: Seq<SymbolEntry>, owner: Seq<char>) -> Seq<OutlineView>
    decreases es.len(),
{
    if es.len() == 0 {
        seq![]
    } else {
        let e = es.last();
        method_members(s, es.drop_last(), owner) + if is_function_kind(e.kind) && (opt_view(e.parent) == Some(owner)
            || starts_with(e.name@, owner + "::"@)) {
            seq![shown(s, e, OutlineKind::Method, strip_prefix(e.name@, owner + "::"@))]
        } else {
            seq![]
        }
    }
}

/// The variants of the enum `owner`, in order.
pub open spec fn variant_members(s: Seq<char>, es: Seq<SymbolEntry>, owner: Seq<char>) -> Seq<OutlineView>
    decreases es.len(),
{
    if es.len() == 0 {
        seq![]
    } else {
        variant_members(s, es.drop_last(), owner) + if es.last().kind == SymbolEntryKind::Variant && opt_view(es.last().parent)
            == Some(owner) {
            seq![shown(s, es.last(), OutlineKind::EnumMember, es.last().name@)]
        } else {
            seq![]
        }
    }
}

/// The parameters of the function `owner`, in order.
pub open spec fn param_members(s: Seq<char>, es: Seq<SymbolEntry>, owner: Seq<char>) -> Seq<OutlineView>
    decreases es.len(),
{
    if es.len() == 0 {
        seq![]
    } else {
        param_members(s, es.drop_last(), owner) + if es.last().kind == SymbolEntryKind::Parameter && opt_view(es.last().parent)
            == Some(owner) {
            seq![shown(s, es.last(), OutlineKind::Variable, es.last().name@)]
        } else {
            seq![]
        }
    }
}

/// The members shown under a top-level entry: a struct's fields then
/// methods, an enum's variants, a function's parameters.
pub open spec fn members_of(s: Seq<char>, es: Seq<SymbolEntry>, e: SymbolEntry) -> Option<Seq<OutlineView>> {
    match e.kind {
        SymbolEntryKind::Struct => Some(field_members(s, es, e.name@) + method_members(s, es, e.name@)),
        SymbolEntryKind::Enum => Some(variant_members(s, es, e.name@)),
        SymbolEntryKind::Function | SymbolEntryKind::ExportFunction | SymbolEntryKind::ExternFunction => Some(
            param_members(s, es, e.name@),
        ),
        _ => None,
    }
}

/// The top-level symbols among `tops`, each with its members found in
/// all of `es`.
pub open spec fn outline(s: Seq<char>, es: Seq<SymbolEntry>, tops: Seq<SymbolEntry>) -> Seq<(OutlineView, Option<Seq<OutlineView>>)>
    decreases tops.len(),
{
    if tops.len() == 0 {
        seq![]
    } else {
        let e = tops.last();
        outline(s, es, tops.drop_last()) + if is_top(e) {
            seq![(shown(s, e, top_kind(e.kind).unwrap(), e.name@), members_of(s, es, e))]
        } else {
            seq![]
        }
    }
}

/// Both spans of `e` can be shown in `s`.
pub open spec fn entry_showable(s: Seq<char>, e: SymbolEntry) -> bool {
    span_showable(s, e.span) && span_showable(s, e.selection_span)
}

/// `e` is a field of the struct `owner`.
pub open spec fn field_of(e: SymbolEntry, owner: Seq<char>) -> bool {
    e.kind == SymbolEntryKind::Field && opt_view(e.parent) == Some(owner)
}

/// `e` is a function of the struct `owner`: its parent, or named
/// `owner::...`.
pub open spec fn method_of(e: SymbolEntry, owner: Seq<char>) -> bool {
    is_function_kind(e.kind) && (opt_view(e.parent) == Some(owner) || starts_with(e.name@, owner + "::"@))
}

/// `e` is a variant of the enum `owner`.
pub open spec fn variant_of(e: SymbolEntry, owner: Seq<char>) -> bool {
    e.kind == SymbolEntryKind::Variant && opt_view(e.parent) == Some(owner)
}

/// `e` is a parameter of the function `owner`.
pub open spec fn param_of(e: SymbolEntry, owner: Seq<char>) -> bool {
    e.kind == SymbolEntryKind::Parameter && opt_view(e.parent) == Some(owner)
}

/// `e` is shown under the top-level entry `owner`: a field or function of
/// a struct, a variant of an enum, a parameter of a function.
pub open spec fn is_member_of(e: SymbolEntry, owner: SymbolEntry) -> bool {
    match owner.kind {
        SymbolEntryKind::Struct => field_of(e, owner.name@) || method_of(e, owner.name@),
        SymbolEntryKind::Enum => variant_of(e, owner.name@),
        SymbolEntryKind::Function | SymbolEntryKind::ExportFunction | SymbolEntryKind::ExternFunction => param_of(
            e,
            owner.name@,
        ),
        _ => false,
    }
}

/// The spans the outline shows can be shown in `s`: those of the
/// top-level entries and of their members.
pub open spec fn outline_showable(s: Seq<char>, es: Seq<SymbolEntry>) -> bool {
    &&& forall|i: int| 0 <= i < es.len() && is_top(#[trigger] es[i]) ==> entry_showable(s, es[i])
    &&& forall|i: int, j: int|
        0 <= i < es.len() && 0 <= j < es.len() && is_top(es[i]) && #[trigger] is_member_of(es[j], es[i]) ==> entry_showable(s, es[j])
}

fn show(document: &Document, e: &SymbolEntry, kind: OutlineKind, name: String) -> (r: DocumentSymbol)
    requires
        span_showable(document.text_view(), e.span),
        span_showable(document.text_view(), e.selection_span),
    ensures
        outline_view(r) == shown(document.text_view(), *e, kind, name@),
        leaf(r),
{
    let range = span_to_range(document, e.span);
    let selection_range = span_to_range(document, e.selection_span);
    DocumentSymbol { name, detail: e.detail.clone(), kind, range, selection_range, children: None }
}

fn push_member(out: &mut Vec<DocumentSymbol>, d: DocumentSymbol)
    requires
        leaf(d),
        forall|j: int| 0 <= j < old(out)@.len() ==> leaf(#[trigger] old(out)@[j]),
    ensures
        views(final(out)@) == views(old(out)@).push(outline_view(d)),
        forall|j: int| 0 <= j < final(out)@.len() ==> leaf(#[trigger] final(out)@[j]),
{
    let ghost v = outline_view(d);
    out.push(d);
    proof {
        assert(views(out@) =~= views(old(out)@).push(v));
    }
}

pub open spec fn views(v: Seq<DocumentSymbol>) -> Seq<OutlineView> {
    v.map_values(|c: DocumentSymbol| outline_view(c))
}


fn collect_field(document: &Document, es: &Vec<SymbolEntry>, owner: &str, out: &mut Vec<DocumentSymbol>)
    requires
        forall|j: int| 0 <= j < es@.len() && #[trigger] field_of(es@[j], owner@) ==> entry_showable(document.text_view(), es@[j]),
        forall|j: int| 0 <= j < old(out)@.len() ==> leaf(#[trigger] old(out)@[j]),
    ensures
        views(final(out)@) == views(old(out)@) + field_members(document.text_view(), es@, owner@),
        forall|j: int| 0 <= j < final(out)@.len() ==> leaf(#[trigger] final(out)@[j]),
{
    let ghost s = document.text_view();
    let ghost v0 = views(out@);
    let mut i: usize = 0;
    proof {
        assert(es@.take(0) =~= Seq::<SymbolEntry>::empty());
        assert(v0 + field_members(s, es@.take(0), owner@) =~= v0);
    }
    while i < es.len()
        invariant
            0 <= i <= es@.len(),
            s == document.text_view(),
            forall|j: int| 0 <= j < es@.len() && #[trigger] field_of(es@[j], owner@) ==> entry_showable(s, es@[j]),
            forall|j: int| 0 <= j < out@.len() ==> leaf(#[trigger] out@[j]),
            views(out@) == v0 + field_members(s, es@.take(i as int), owner@),
        decreases es@.len() - i,
    {
        proof {
            assert(es@.take(i + 1).drop_last() =~= es@.take(i as int));
            assert(es@.take(i + 1).last() == es@[i as int]);
            if field_of(es@[i as int], owner@) {
                assert(entry_showable(s, es@[i as int]));
            }
        }
        let ghost before = views(out@);
        let c = &es[i];
        let of_owner = match &c.parent {
            Some(p) => crate::text::str_eq(p.as_str(), owner),
            None => false,
        };
        if c.kind == SymbolEntryKind::Field && of_owner {
            let d = show(document, c, OutlineKind::Field, c.name.clone());
            push_member(out, d);
        }
        proof {
            assert(views(out@) =~= v0 + field_members(s, es@.take(i + 1), owner@));
        }
        i = i + 1;
    }
    proof {
        assert(es@.take(i as int) =~= es@);
    }
}

fn collect_variant(document: &Document, es: &Vec<SymbolEntry>, owner: &str, out: &mut Vec<DocumentSymbol>)
    requires
        forall|j: int| 0 <= j < es@.len() && #[trigger] variant_of(es@[j], owner@) ==> entry_showable(document.text_view(), es@[j]),
        forall|j: int| 0 <= j < old(out)@.len() ==> leaf(#[trigger] old(out)@[j]),
    ensures
        views(final(out)@) == views(old(out)@) + variant_members(document.text_view(), es@, owner@),
        forall|j: int| 0 <= j < final(out)@.len() ==> leaf(#[trigger] final(out)@[j]),
{
    let ghost s = document.text_view();
    let ghost v0 = views(out@);
    let mut i: usize = 0;
    proof {
        assert(es@.take(0) =~= Seq::<SymbolEntry>::empty());
        assert(v0 + variant_members(s, es@.take(0), owner@) =~= v0);
    }
    while i < es.len()
        invariant
            0 <= i <= es@.len(),
            s == document.text_view(),
            forall|j: int| 0 <= j < es@.len() && #[trigger] variant_of(es@[j], owner@) ==> entry_showable(s, es@[j]),
            forall|j: int| 0 <= j < out@.len() ==> leaf(#[trigger] out@[j]),
            views(out@) == v0 + variant_members(s, es@.take(i as int), owner@),
        decreases es@.len() - i,
    {
        proof {
            assert(es@.take(i + 1).drop_last() =~= es@.take(i as int));
            assert(es@.take(i + 1).last() == es@[i as int]);
            if variant_of(es@[i as int], owner@) {
                assert(entry_showable(s, es@[i as int]));
            }
        }
        let ghost before = views(out@);
        let c = &es[i];
        let of_owner = match &c.parent {
            Some(p) => crate::text::str_eq(p.as_str(), owner),
            None => false,
        };
        if c.kind == SymbolEntryKind::Variant && of_owner {
            let d = show(document, c, OutlineKind::EnumMember, c.name.clone());
            push_member(out, d);
        }
        proof {
            assert(views(out@) =~= v0 + variant_members(s, es@.take(i + 1), owner@));
        }
        i = i + 1;
    }
    proof {
        assert(es@.take(i as int) =~= es@);
    }
}

fn collect_param(document: &Document, es: &Vec<SymbolEntry>, owner: &str, out: &mut Vec<DocumentSymbol>)
    requires
        forall|j: int| 0 <= j < es@.len() && #[trigger] param_of(es@[j], owner@) ==> entry_showable(document.text_view(), es@[j]),
        forall|j: int| 0 <= j < old(out)@.len() ==> leaf(#[trigger] old(out)@[j]),
    ensures
        views(final(out)@) == views(old(out)@) + param_members(document.text_view(), es@, owner@),
        forall|j: int| 0 <= j < final(out)@.len() ==> leaf(#[trigger] final(out)@[j]),
{
    let ghost s = document.text_view();
    let ghost v0 = views(out@);
    let mut i: usize = 0;
    proof {
        assert(es@.take(0) =~= Seq::<SymbolEntry>::empty());
        assert(v0 + param_members(s, es@.take(0), owner@) =~= v0);
    }
    while i < es.len()
        invariant
            0 <= i <= es@.len(),
            s == document.text_view(),
            forall|j: int| 0 <= j < es@.len() && #[trigger] param_of(es@[j], owner@) ==> entry_showable(s, es@[j]),
            forall|j: int| 0 <= j < out@.len() ==> leaf(#[trigger] out@[j]),
            views(out@) == v0 + param_members(s, es@.take(i as int), owner@),
        decreases es@.len() - i,
    {
        proof {
            assert(es@.take(i + 1).drop_last() =~= es@.take(i as int));
            assert(es@.take(i + 1).last() == es@[i as int]);
            if param_of(es@[i as int], owner@) {
                assert(entry_showable(s, es@[i as int]));
            }
        }
        let ghost before = views(out@);
        let c = &es[i];
        let of_owner = match &c.parent {
            Some(p) => crate::text::str_eq(p.as_str(), owner),
            None => false,
        };
        if c.kind == SymbolEntryKind::Parameter && of_owner {
            let d = show(document, c, OutlineKind::Variable, c.name.clone());
            push_member(out, d);
        }
        proof {
            assert(views(out@) =~= v0 + param_members(s, es@.take(i + 1), owner@));
        }
        i = i + 1;
    }
    proof {
        assert(es@.take(i as int) =~= es@);
    }
}

fn collect_method(document: &Document, es: &Vec<SymbolEntry>, owner: &str, out: &mut Vec<DocumentSymbol>)
    requires
        forall|j: int| 0 <= j < es@.len() && #[trigger] method_of(es@[j], owner@) ==> entry_showable(document.text_view(), es@[j]),
        forall|j: int| 0 <= j < old(out)@.len() ==> leaf(#[trigger] old(out)@[j]),
    ensures
        views(final(out)@) == views(old(out)@) + method_members(document.text_view(), es@, owner@),
        forall|j: int| 0 <= j < final(out)@.len() ==> leaf(#[trigger] final(out)@[j]),
{
    let ghost s = document.text_view();
    let ghost v0 = views(out@);
    let pre = crate::completion_items::qualified_prefix(owner);
    let mut i: usize = 0;
    proof {
        assert(es@.take(0) =~= Seq::<SymbolEntry>::empty());
        assert(v0 + method_members(s, es@.take(0), owner@) =~= v0);
    }
    while i < es.len()
        invariant
            0 <= i <= es@.len(),
            s == document.text_view(),
            forall|j: int| 0 <= j < es@.len() && #[trigger] method_of(es@[j], owner@) ==> entry_showable(s, es@[j]),
            pre@ == owner@ + "::"@,
            forall|j: int| 0 <= j < out@.len() ==> leaf(#[trigger] out@[j]),
            views(out@) == v0 + method_members(s, es@.take(i as int), owner@),
        decreases es@.len() - i,
    {
        proof {
            assert(es@.take(i + 1).drop_last() =~= es@.take(i as int));
            assert(es@.take(i + 1).last() == es@[i as int]);
            if method_of(es@[i as int], owner@) {
                assert(entry_showable(s, es@[i as int]));
            }
        }
        let ghost before = views(out@);
        let c = &es[i];
        let of_owner = match &c.parent {
            Some(p) => crate::text::str_eq(p.as_str(), owner),
            None => false,
        };
        if (c.kind == SymbolEntryKind::Function || c.kind == SymbolEntryKind::ExportFunction || c.kind == SymbolEntryKind::ExternFunction) && (of_owner || crate::completion_items::text_starts_with(c.name.as_str(), crate::chars::string_from_chars(&pre).as_str())) {
            let d = show(document, c, OutlineKind::Method, crate::completion_items::strip_to_string(c.name.as_str(), &pre));
            push_member(out, d);
        }
        proof {
            assert(views(out@) =~= v0 + method_members(s, es@.take(i + 1), owner@));
        }
        i = i + 1;
    }
    proof {
        assert(es@.take(i as int) =~= es@);
    }
}

/// The document's outline: its top-level declarations in order, each
/// with its members (a struct's fields and methods, an enum's variants,
/// a function's parameters).
pub fn document_symbols(document: &Document, analysis: &AnalysisResult) -> (r: Vec<DocumentSymbol>)
    requires
        outline_showable(document.text_view(), analysis.symbol_index.entries@),
    ensures
        r@.map_values(|d: DocumentSymbol| (outline_view(d), members_view(d))) == outline(
            document.text_view(),
            analysis.symbol_index.entries@,
            analysis.symbol_index.entries@,
        ),
        forall|i: int| 0 <= i < r@.len() ==> members_are_leaves(#[trigger] r@[i]),
{
    let ghost s = document.text_view();
    let es = &analysis.symbol_index.entries;
    let mut symbols: Vec<DocumentSymbol> = Vec::new();
    let mut i: usize = 0;
    proof {
        assert(es@.take(0) =~= Seq::<SymbolEntry>::empty());
        assert(symbols@.map_values(|d: DocumentSymbol| (outline_view(d), members_view(d))) =~= outline(s, es@, es@.take(0)));
    }
    while i < es.len()
        invariant
            0 <= i <= es@.len(),
            s == document.text_view(),
            *es == analysis.symbol_index.entries,
            outline_showable(s, es@),
            symbols@.map_values(|d: DocumentSymbol| (outline_view(d), members_view(d))) == outline(s, es@, es@.take(i as int)),
            forall|k: int| 0 <= k < symbols@.len() ==> members_are_leaves(#[trigger] symbols@[k]),
        decreases es@.len() - i,
    {
        proof {
            assert(es@.take(i + 1).drop_last() =~= es@.take(i as int));
            assert(es@.take(i + 1).last() == es@[i as int]);
            if is_top(es@[i as int]) {
                assert(entry_showable(s, es@[i as int]));
                assert forall|j: int| 0 <= j < es@.len() && #[trigger] field_of(es@[j], es@[i as int].name@) && es@[i as int].kind == SymbolEntryKind::Struct implies entry_showable(s, es@[j]) by {
                    assert(is_member_of(es@[j], es@[i as int]));
                }
                assert forall|j: int| 0 <= j < es@.len() && #[trigger] method_of(es@[j], es@[i as int].name@) && es@[i as int].kind == SymbolEntryKind::Struct implies entry_showable(s, es@[j]) by {
                    assert(is_member_of(es@[j], es@[i as int]));
                }
                assert forall|j: int| 0 <= j < es@.len() && #[trigger] variant_of(es@[j], es@[i as int].name@) && es@[i as int].kind == SymbolEntryKind::Enum implies entry_showable(s, es@[j]) by {
                    assert(is_member_of(es@[j], es@[i as int]));
                }
                assert forall|j: int| 0 <= j < es@.len() && #[trigger] param_of(es@[j], es@[i as int].name@) && is_function_kind(es@[i as int].kind) implies entry_showable(s, es@[j]) by {
                    assert(is_member_of(es@[j], es@[i as int]));
                }
            }
        }
        let ghost before = symbols@;
        let e = &es[i];
        let kind = match e.kind {
            SymbolEntryKind::Struct => Some(OutlineKind::Struct),
            SymbolEntryKind::Enum => Some(OutlineKind::Enum),
            SymbolEntryKind::Const => Some(OutlineKind::Constant),
            SymbolEntryKind::TypeAlias => Some(OutlineKind::TypeParameter),
            SymbolEntryKind::Function => Some(OutlineKind::Function),
            SymbolEntryKind::ExportFunction => Some(OutlineKind::Function),
            SymbolEntryKind::ExternFunction => Some(OutlineKind::Function),
            _ => None,
        };
        if e.parent.is_none() && kind.is_some() && !crate::completion_items::contains_path_sep(e.name.as_str()) {
            let k = kind.unwrap();
            let children = match e.kind {
                SymbolEntryKind::Struct => {
                    let mut cs: Vec<DocumentSymbol> = Vec::new();
                    collect_field(document, es, e.name.as_str(), &mut cs);
                    collect_method(document, es, e.name.as_str(), &mut cs);
                    proof {
                        assert(views(cs@) =~= field_members(s, es@, e.name@) + method_members(s, es@, e.name@));
                    }
                    Some(cs)
                },
                SymbolEntryKind::Enum => {
                    let mut cs: Vec<DocumentSymbol> = Vec::new();
                    collect_variant(document, es, e.name.as_str(), &mut cs);
                    proof {
                        assert(views(cs@) =~= variant_members(s, es@, e.name@));
                    }
                    Some(cs)
                },
                SymbolEntryKind::Function | SymbolEntryKind::ExportFunction | SymbolEntryKind::ExternFunction => {
                    let mut cs: Vec<DocumentSymbol> = Vec::new();
                    collect_param(document, es, e.name.as_str(), &mut cs);
                    proof {
                        assert(views(cs@) =~= param_members(s, es@, e.name@));
                    }
                    Some(cs)
                },
                _ => None,
            };
            let range = span_to_range(document, e.span);
            let selection_range = span_to_range(document, e.selection_span);
            let d = DocumentSymbol { name: e.name.clone(), detail: e.detail.clone(), kind: k, range, selection_range, children };
            proof {
                assert(members_view(d) == members_of(s, es@, es@[i as int]));
            }
            symbols.push(d);
        }
        proof {
            assert(symbols@.map_values(|d: DocumentSymbol| (outline_view(d), members_view(d))) =~= outline(s, es@, es@.take(i + 1)));
        }
        i = i + 1;
    }
    proof {
        assert(es@.take(i as int) =~= es@);
    }
    symbols
}

} // verus!
