use vstd::prelude::*;

use crate::analysis_model::{
    is_best_symbol, lemma_best_unique, spans_bounded, AnalysisResult, SymbolEntry, SymbolEntryKind,
};
use crate::ast::{Item, ItemKind};
use crate::def::DefId;
use crate::diagnostics::{on_boundary, position_at, span_end, span_to_range};
use crate::document::{lemma_position_offset_is_char_offset, spec_position_to_offset, Document, Position, Range};
use crate::mutability_finder::{block_binds, block_find, MutabilityFinder};
use crate::span::Span;

verus! {

broadcast use vstd::std_specs::hash::group_hash_axioms;

/// What hovering or jumping needs to know about the symbol under the
/// cursor.
#[derive(Debug)]
pub struct SymbolInfo {
    pub def_id: Option<DefId>,
    pub name: String,
    pub kind: SymbolEntryKind,
    pub range: Range,
    pub selection_range: Range,
    pub definition_range: Option<Range>,
    pub type_info: Option<String>,
    pub signature: Option<String>,
    pub container: Option<String>,
    pub is_export: bool,
    pub is_extern: bool,
    pub abi_info: Option<String>,
}

/// A span the editor can show: it starts before the largest offset and both
/// of its ends fall between characters of `s`.
pub open spec fn span_showable(s: Seq<char>, span: Span) -> bool {
    span.start < u32::MAX && on_boundary(s, span.start as int) && on_boundary(s, span_end(span))
}

/// The spans shown for the symbol at `position` can be shown: those of the
/// entry picked there and the span of its definition.
pub open spec fn picked_showable(document: &Document, analysis: &AnalysisResult, position: Position) -> bool {
    let o = cursor_offset(document, position);
    let s = document.text_view();
    (exists|i: int| is_best_symbol(analysis.symbol_index.entries@, o, i)) ==> {
        &&& span_showable(s, picked(*analysis, o).span)
        &&& span_showable(s, picked(*analysis, o).selection_span)
        &&& def_span_of(*analysis, o) matches Some(sp) ==> span_showable(s, sp)
    }
}

/// The entry a position at `o` picks.
pub open spec fn best_entry(entries: Seq<SymbolEntry>, o: int) -> SymbolEntry {
    entries[choose|i: int| is_best_symbol(entries, o, i)]
}

/// The first entry for definition `id` whose span is `span`.
pub open spec fn first_def_entry(entries: Seq<SymbolEntry>, id: DefId, span: Span) -> Option<SymbolEntry>
    decreases entries.len(),
{
    if entries.len() == 0 {
        None
    } else if entries[0].def_id == Some(id) && entries[0].span == span {
        Some(entries[0])
    } else {
        first_def_entry(entries.subrange(1, entries.len() as int), id, span)
    }
}

/// The entry that describes the definition of `e`: the entry at the
/// definition's span, or `e` itself.
pub open spec fn defining_entry(entries: Seq<SymbolEntry>, defs: Map<u32, Span>, e: SymbolEntry) -> SymbolEntry {
    match e.def_id {
        Some(id) => if defs.contains_key(id.0) {
            match first_def_entry(entries, id, defs[id.0]) {
                Some(d) => d,
                None => e,
            }
        } else {
            e
        },
        None => e,
    }
}

/// Whether the entry kind is one of the three function kinds.
pub open spec fn is_function_kind(k: SymbolEntryKind) -> bool {
    k == SymbolEntryKind::Function || k == SymbolEntryKind::ExportFunction || k == SymbolEntryKind::ExternFunction
}

/// Some function body among `items` binds at `span` with mutability `m`.
pub open spec fn bodies_bind(items: Seq<Item>, span: Span, m: bool) -> bool {
    exists|i: int|
        0 <= i < items.len() && (#[trigger] items[i].kind matches ItemKind::Function(f) && (f.body matches Some(b)
            && block_binds(b, span, m)))
}

/// The byte offset of the cursor.
pub open spec fn cursor_offset(document: &Document, position: Position) -> int {
    spec_position_to_offset(document.text_view(), position)
}

/// The entry picked at byte `o`.
pub open spec fn picked(analysis: AnalysisResult, o: int) -> SymbolEntry {
    best_entry(analysis.symbol_index.entries@, o)
}

/// The entry of the definition of the picked entry.
pub open spec fn defining(analysis: AnalysisResult, o: int) -> SymbolEntry {
    defining_entry(analysis.symbol_index.entries@, analysis.definition_index.definitions@, picked(analysis, o))
}

/// The span of the picked entry's definition, if it is recorded.
pub open spec fn def_span_of(analysis: AnalysisResult, o: int) -> Option<Span> {
    match picked(analysis, o).def_id {
        Some(id) => if analysis.definition_index.definitions@.contains_key(id.0) {
            Some(analysis.definition_index.definitions@[id.0])
        } else {
            None
        },
        None => None,
    }
}

/// The type shown: the defining entry's detail, except for functions.
pub open spec fn type_of(analysis: AnalysisResult, o: int) -> Option<Seq<char>> {
    let d = defining(analysis, o);
    if is_function_kind(d.kind) {
        None
    } else {
        opt_view(d.detail)
    }
}

/// `range` is how `span` is shown in `s`.
pub open spec fn shows_span(s: Seq<char>, range: Range, span: Span) -> bool {
    range.start == position_at(s, span.start as int) && range.end == position_at(s, span_end(span))
}

/// The signature owed for the symbol at `o`: a function's detail; for a
/// local, `let` with `mut` exactly when its binding is mutable; the fixed
/// forms of `spec_signature` otherwise.
pub open spec fn signature_owed(analysis: AnalysisResult, o: int, sig: Option<Seq<char>>) -> bool {
    let d = defining(analysis, o);
    let ty = type_of(analysis, o);
    if is_function_kind(d.kind) {
        sig == opt_view(d.detail)
    } else if d.kind == SymbolEntryKind::Local {
        sig == Some(
            spec_signature(d.kind, d.name@, opt_view(d.detail), ty, opt_view(d.parent), local_mut(analysis, def_span_of(analysis, o))),
        )
    } else {
        sig == Some(spec_signature(d.kind, d.name@, opt_view(d.detail), ty, opt_view(d.parent), false))
    }
}

/// Whether the local defined at `def_span` is mutable: the search through
/// the function bodies in order found a mutable binding there.
pub open spec fn local_mut(analysis: AnalysisResult, def_span: Option<Span>) -> bool {
    match (analysis.ast, def_span) {
        (Some(ast), Some(sp)) => bodies_find(ast.items@, sp) == Some(true),
        _ => false,
    }
}

/// The search for the binding at `span` through the bodies of the
/// functions among `items`, in order.
pub open spec fn bodies_find(items: Seq<Item>, span: Span) -> Option<bool>
    decreases items.len(),
{
    if items.len() == 0 {
        None
    } else {
        let f = bodies_find(items.drop_last(), span);
        match items.last().kind {
            ItemKind::Function(fi) => match fi.body {
                Some(b) => block_find(f, b, span),
                None => f,
            },
            _ => f,
        }
    }
}

/// A written type, or `void` when there is none.
pub open spec fn or_void(t: Option<Seq<char>>) -> Seq<char> {
    match t {
        Some(x) => x,
        None => "void"@,
    }
}

/// The signature shown for a definition of kind `kind` called `name`.
pub open spec fn spec_signature(
    kind: SymbolEntryKind,
    name: Seq<char>,
    detail: Option<Seq<char>>,
    ty: Option<Seq<char>>,
    container: Option<Seq<char>>,
    is_mut: bool,
) -> Seq<char> {
    match kind {
        SymbolEntryKind::Function | SymbolEntryKind::ExportFunction | SymbolEntryKind::ExternFunction => detail.unwrap(),
        SymbolEntryKind::Local => "let "@ + (if is_mut {
            "mut "@
        } else {
            ""@
        }) + name + ": "@ + or_void(ty),
        SymbolEntryKind::Parameter => name + ": "@ + or_void(ty),
        SymbolEntryKind::Struct => "struct "@ + name,
        SymbolEntryKind::Enum => "enum "@ + name + ":i32"@,
        SymbolEntryKind::Const => "const "@ + name + ": "@ + or_void(ty),
        SymbolEntryKind::TypeAlias => "type "@ + name + " = "@ + or_void(ty),
        SymbolEntryKind::Field => "field "@ + name + ":"@ + or_void(ty),
        SymbolEntryKind::Variant => (match container {
            Some(c) => c,
            None => "Enum"@,
        }) + "::"@ + name,
    }
}

pub open spec fn opt_view(o: Option<String>) -> Option<Seq<char>> {
    match o {
        Some(s) => Some(s@),
        None => None,
    }
}

fn first_def_entry_index(entries: &Vec<SymbolEntry>, id: DefId, span: Span) -> (r: Option<usize>)
    ensures
        match first_def_entry(entries@, id, span) {
            Some(e) => r matches Some(j) && j < entries@.len() && entries@[j as int] == e,
            None => r is None,
        },
{
    let mut i: usize = 0;
    proof {
        assert(entries@.skip(0) =~= entries@);
    }
    while i < entries.len()
        invariant
            0 <= i <= entries@.len(),
            first_def_entry(entries@, id, span) == first_def_entry(entries@.skip(i as int), id, span),
        decreases entries@.len() - i,
    {
        proof {
            let rest = entries@.skip(i as int);
            assert(rest[0] == entries@[i as int]);
            assert(rest.subrange(1, rest.len() as int) =~= entries@.skip(i + 1));
        }
        if entries[i].def_id == Some(id) && entries[i].span == span {
            return Some(i);
        }
        i = i + 1;
    }
    proof {
        assert(entries@.skip(i as int) =~= Seq::<SymbolEntry>::empty());
    }
    None
}

/// Whether the binding at `span` in some function body is mutable; bodies
/// are searched in order.
fn bodies_mutability(items: &Vec<Item>, span: Span) -> (r: bool)
    ensures
        r ==> bodies_bind(items@, span, true),
        !r ==> !bodies_bind(items@, span, true) || bodies_bind(items@, span, false),
        r == (bodies_find(items@, span) == Some(true)),
{
    let mut finder = MutabilityFinder { span, found_mut: None };
    let mut i: usize = 0;
    while i < items.len()
        invariant
            0 <= i <= items@.len(),
            finder.span == span,
            finder.found_mut matches Some(m) ==> bodies_bind(items@, span, m),
            finder.found_mut == bodies_find(items@.take(i as int), span),
            finder.found_mut is None ==> forall|j: int| 0 <= j < i ==> !(#[trigger] items@[j].kind matches ItemKind::Function(f)
                && (f.body matches Some(b) && (block_binds(b, span, true) || block_binds(b, span, false)))),
        decreases items@.len() - i,
    {
        proof {
            assert(items@.take(i + 1).drop_last() =~= items@.take(i as int));
            assert(items@.take(i + 1).last() == items@[i as int]);
        }
        if let ItemKind::Function(f) = &items[i].kind {
            if let Some(body) = &f.body {
                finder.block(body);
            }
        }
        i = i + 1;
    }
    proof {
        assert(items@.take(i as int) =~= items@);
    }
    match finder.found_mut {
        Some(m) => m,
        None => {
            proof {
                assert forall|m: bool| !bodies_bind(items@, span, m) by {
                    if bodies_bind(items@, span, m) {
                        let j = choose|j: int| 0 <= j < items@.len() && (#[trigger] items@[j].kind matches ItemKind::Function(f)
                            && (f.body matches Some(b) && block_binds(b, span, m)));
                    }
                }
            }
            false
        },
    }
}

fn str_or_void(t: &Option<String>) -> (r: &str)
    ensures
        r@ == or_void(opt_view(*t)),
{
    match t {
        Some(s) => s.as_str(),
        None => "void",
    }
}

fn signature_of(kind: SymbolEntryKind, name: &str, detail: &Option<String>, ty: &Option<String>, container: &Option<String>, is_mut: bool) -> (r: String)
    requires
        is_function_kind(kind) ==> detail is Some,
    ensures
        r@ == spec_signature(kind, name@, opt_view(*detail), opt_view(*ty), opt_view(*container), is_mut),
{
    proof {
        reveal_strlit("let ");
        reveal_strlit("mut ");
        reveal_strlit("");
        reveal_strlit(": ");
        reveal_strlit("struct ");
        reveal_strlit("enum ");
        reveal_strlit(":i32");
        reveal_strlit("const ");
        reveal_strlit("type ");
        reveal_strlit(" = ");
        reveal_strlit("field ");
        reveal_strlit(":");
        reveal_strlit("Enum");
        reveal_strlit("::");
    }
    let t = str_or_void(ty);
    match kind {
        SymbolEntryKind::Function | SymbolEntryKind::ExportFunction | SymbolEntryKind::ExternFunction => {
            match detail {
                Some(d) => d.clone(),
                None => String::new(),
            }
        },
        SymbolEntryKind::Local => {
            let mut out = String::from_str("let ");
            if is_mut {
                out.append("mut ");
            }
            out.append(name);
            out.append(": ");
            out.append(t);
            proof {
                assert(out@ =~= spec_signature(kind, name@, opt_view(*detail), opt_view(*ty), opt_view(*container), is_mut));
            }
            out
        },
        SymbolEntryKind::Parameter => {
            let mut out = String::from_str(name);
            out.append(": ");
            out.append(t);
            out
        },
        SymbolEntryKind::Struct => {
            let mut out = String::from_str("struct ");
            out.append(name);
            out
        },
        SymbolEntryKind::Enum => {
            let mut out = String::from_str("enum ");
            out.append(name);
            out.append(":i32");
            out
        },
        SymbolEntryKind::Const => {
            let mut out = String::from_str("const ");
            out.append(name);
            out.append(": ");
            out.append(t);
            out
        },
        SymbolEntryKind::TypeAlias => {
            let mut out = String::from_str("type ");
            out.append(name);
            out.append(" = ");
            out.append(t);
            out
        },
        SymbolEntryKind::Field => {
            let mut out = String::from_str("field ");
            out.append(name);
            out.append(":");
            out.append(t);
            out
        },
        SymbolEntryKind::Variant => {
            let mut out = match container {
                Some(c) => c.clone(),
                None => String::from_str("Enum"),
            };
            out.append("::");
            out.append(name);
            out
        },
    }
}

/// What `position_to_symbol` gives for `position`.
pub open spec fn symbol_at(document: &Document, analysis: &AnalysisResult, position: Position, r: Option<SymbolInfo>) -> bool {
    let o = cursor_offset(document, position);
    let s = document.text_view();
    &&& (r is None ==> forall|j: int|
        0 <= j < analysis.symbol_index.entries@.len() ==> !crate::analysis_model::span_contains(
            #[trigger] analysis.symbol_index.entries@[j].selection_span,
            o,
        ))
    &&& (r is Some ==> exists|i: int| is_best_symbol(analysis.symbol_index.entries@, o, i))
    &&& (r matches Some(info) ==> info.def_id == picked(*analysis, o).def_id)
    &&& (r matches Some(info) ==> info.name@ == picked(*analysis, o).name@)
    &&& (r matches Some(info) ==> info.kind == picked(*analysis, o).kind)
    &&& (r matches Some(info) ==> shows_span(s, info.range, picked(*analysis, o).span))
    &&& (r matches Some(info) ==> shows_span(s, info.selection_range, picked(*analysis, o).selection_span))
    &&& (r matches Some(info) ==> match def_span_of(*analysis, o) {
        Some(sp) => (info.definition_range matches Some(dr) && shows_span(s, dr, sp)),
        None => info.definition_range is None,
    })
    &&& (r matches Some(info) ==> opt_view(info.type_info) == type_of(*analysis, o))
    &&& (r matches Some(info) ==> opt_view(info.container) == opt_view(defining(*analysis, o).parent))
    &&& (r matches Some(info) ==> info.is_export == (defining(*analysis, o).kind == SymbolEntryKind::ExportFunction))
    &&& (r matches Some(info) ==> info.is_extern == (defining(*analysis, o).kind == SymbolEntryKind::ExternFunction))
    &&& (r matches Some(info) ==> opt_view(info.abi_info) == (if defining(*analysis, o).kind == SymbolEntryKind::Struct {
        Some("stable"@)
    } else {
        None
    }))
    &&& (r matches Some(info) ==> signature_owed(*analysis, o, opt_view(info.signature)))
}

/// Describes the symbol at `position`: its ranges, the range of its
/// definition, and, taken from the entry of its definition, its type, its
/// container, whether it is exported or external, and the signature shown
/// for it. None when no symbol is there.
pub fn position_to_symbol(document: &Document, analysis: &AnalysisResult, position: Position) -> (r: Option<SymbolInfo>)
    requires
        spans_bounded(analysis.symbol_index.entries@),
        picked_showable(document, analysis, position),
    ensures
        symbol_at(document, analysis, position, r),
{
    let ghost s = document.text_view();
    let ghost entries = analysis.symbol_index.entries@;
    let offset = document.position_to_offset(position);
    let entry = match analysis.find_symbol_at(offset) {
        Some(e) => e,
        None => {
            return None;
        },
    };
    let ghost bi = choose|i: int| is_best_symbol(entries, offset as int, i) && *entry == entries[i];
    proof {
        let c = choose|c: int| is_best_symbol(entries, offset as int, c);
        lemma_best_unique(entries, offset as int, bi, c);
        assert(*entry == best_entry(entries, offset as int));
    }
    let def_id = entry.def_id;
    let def_span: Option<Span> = match def_id {
        Some(id) => match analysis.definition_index.definitions.get(&id.0) {
            Some(sp) => Some(*sp),
            None => None,
        },
        None => None,
    };
    let mut def_entry: &SymbolEntry = entry;
    if let Some(id) = def_id {
        if let Some(sp) = def_span {
            if let Some(j) = first_def_entry_index(&analysis.symbol_index.entries, id, sp) {
                def_entry = &analysis.symbol_index.entries[j];
            }
        }
    }
    let is_export = def_entry.kind == SymbolEntryKind::ExportFunction;
    let is_extern = def_entry.kind == SymbolEntryKind::ExternFunction;
    let container = match &def_entry.parent {
        Some(p) => Some(p.clone()),
        None => None,
    };
    let is_fn = def_entry.kind == SymbolEntryKind::Function || def_entry.kind == SymbolEntryKind::ExportFunction
        || def_entry.kind == SymbolEntryKind::ExternFunction;
    let type_info = if is_fn {
        None
    } else {
        match &def_entry.detail {
            Some(d) => Some(d.clone()),
            None => None,
        }
    };
    let mut is_mut = false;
    if def_entry.kind == SymbolEntryKind::Local {
        if let Some(ast) = &analysis.ast {
            if let Some(sp) = def_span {
                is_mut = bodies_mutability(&ast.items, sp);
            }
        }
    }
    let signature = if is_fn {
        match &def_entry.detail {
            Some(d) => Some(d.clone()),
            None => None,
        }
    } else {
        Some(signature_of(def_entry.kind, def_entry.name.as_str(), &def_entry.detail, &type_info, &container, is_mut))
    };
    let abi_info = if def_entry.kind == SymbolEntryKind::Struct {
        Some(String::from_str("stable"))
    } else {
        None
    };
    proof {
        assert(is_best_symbol(entries, offset as int, bi));
        assert(picked(*analysis, offset as int) == *entry);
        if let Some(sp) = def_span {
            assert(analysis.definition_index.definitions@.contains_key(def_id.unwrap().0));
            assert(def_span_of(*analysis, offset as int) == Some(sp));
        }
    }
    let definition_range = match def_span {
        Some(sp) => Some(span_to_range(document, sp)),
        None => None,
    };
    Some(SymbolInfo {
        def_id,
        name: entry.name.clone(),
        kind: entry.kind,
        range: span_to_range(document, entry.span),
        selection_range: span_to_range(document, entry.selection_span),
        definition_range,
        type_info,
        signature,
        container,
        is_export,
        is_extern,
        abi_info,
    })
}

} // verus!
