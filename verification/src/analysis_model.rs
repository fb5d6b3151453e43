use vstd::prelude::*;

use std::collections::HashMap;
use vstd::std_specs::hash::spec_keys_iter;
use vstd::std_specs::iter::IteratorSpec;

use crate::ast::Ast;
use crate::chars::{decimal, join, lemma_join_push, push_all, push_decimal, push_str, string_from_chars};
use crate::def::DefId;
use crate::diagnostic::Diagnostic;
use crate::span::Span;
use crate::symbol_table::SymbolTable;
use crate::ty::{primitive_to_string, spec_primitive_to_string, Type, TypeKind, TypeShape};

verus! {

broadcast use vstd::std_specs::hash::group_hash_axioms;

/// Whether the memory check ran.
#[derive(Clone, Copy, Debug, PartialEq, Eq, Structural)]
pub struct BorrowResult {
    pub checked: bool,
}

/// What a symbol-index entry names.
#[derive(Clone, Copy, Debug, PartialEq, Eq, Structural)]
pub enum SymbolEntryKind {
    Function,
    ExportFunction,
    ExternFunction,
    Struct,
    Enum,
    Const,
    TypeAlias,
    Local,
    Parameter,
    Field,
    Variant,
}

/// A named thing in a document: its whole span, the span of its name, the
/// definition it stands for, a detail (a type or signature) and its parent.
#[derive(Debug)]
pub struct SymbolEntry {
    pub name: String,
    pub kind: SymbolEntryKind,
    pub span: Span,
    pub selection_span: Span,
    pub def_id: Option<DefId>,
    pub detail: Option<String>,
    pub parent: Option<String>,
}

/// All symbol entries of a document, in the order they were found.
#[derive(Debug)]
pub struct SymbolIndex {
    pub entries: Vec<SymbolEntry>,
}

/// Where each definition is, by raw definition id.
#[derive(Debug)]
pub struct DefinitionIndex {
    pub definitions: HashMap<u32, Span>,
}

/// Where each definition is used, by raw definition id.
#[derive(Debug)]
pub struct ReferenceIndex {
    pub references: HashMap<u32, Vec<Span>>,
}

/// The type shown for expression nodes, by raw node id.
#[derive(Debug)]
pub struct TypeIndex {
    pub types: HashMap<u32, String>,
}

/// The types found for a document.
#[derive(Debug)]
pub struct LspTyped {
    pub types: TypeIndex,
}

/// Name resolution results: the symbol table and, by raw node id, the
/// definitions that names, calls, fields and variants resolved to.
#[derive(Debug)]
pub struct LspResolved {
    pub symbols: SymbolTable,
    pub resolved_names: HashMap<u32, DefId>,
    pub resolved_calls: HashMap<u32, DefId>,
    pub resolved_fields: HashMap<u32, DefId>,
    pub resolved_variants: HashMap<u32, DefId>,
}

/// Facts about the analysed source.
#[derive(Clone, Copy, Debug, PartialEq, Eq, Structural)]
pub struct AnalysisMetadata {
    pub source_len: usize,
}

/// Everything the language server knows about one document.
#[derive(Debug)]
pub struct AnalysisResult {
    pub uri: lsp_types::Url,
    pub version: Option<i32>,
    pub ast: Option<Ast>,
    pub resolved: Option<LspResolved>,
    pub typed: Option<LspTyped>,
    pub borrow_result: Option<BorrowResult>,
    pub diagnostics: Vec<Diagnostic>,
    pub symbol_index: SymbolIndex,
    pub definition_index: DefinitionIndex,
    pub reference_index: ReferenceIndex,
    pub type_index: TypeIndex,
    pub metadata: Option<AnalysisMetadata>,
}

impl Default for SymbolIndex {
    fn default() -> (r: Self)
        ensures
            r.entries@.len() == 0,
    {
        SymbolIndex { entries: Vec::new() }
    }
}

impl Default for DefinitionIndex {
    fn default() -> (r: Self)
        ensures
            r.definitions@ == Map::<u32, Span>::empty(),
    {
        DefinitionIndex { definitions: HashMap::new() }
    }
}

impl Default for ReferenceIndex {
    fn default() -> (r: Self)
        ensures
            r.references@ == Map::<u32, Vec<Span>>::empty(),
    {
        ReferenceIndex { references: HashMap::new() }
    }
}

impl Default for TypeIndex {
    fn default() -> (r: Self)
        ensures
            r.types@ == Map::<u32, String>::empty(),
    {
        TypeIndex { types: HashMap::new() }
    }
}

impl Default for LspTyped {
    fn default() -> (r: Self)
        ensures
            r.types.types@ == Map::<u32, String>::empty(),
    {
        LspTyped { types: TypeIndex::default() }
    }
}

/// Whether byte `offset` falls in `span`; an empty span still covers its
/// start.
pub open spec fn span_contains(span: Span, offset: int) -> bool {
    let end = if span.end > span.start + 1 {
        span.end as int
    } else {
        span.start + 1
    };
    span.start <= offset && offset < end
}

/// Whether byte `offset` falls in `span` (see `span_contains`).
pub fn contains(span: Span, offset: usize) -> (r: bool)
    requires
        span.start < u32::MAX,
    ensures
        r == span_contains(span, offset as int),
{
    let start = span.start as usize;
    let end = if span.end > span.start + 1 {
        span.end as usize
    } else {
        (span.start + 1) as usize
    };
    start <= offset && offset < end
}

/// Entry `i` is the one a position at `offset` picks: it covers `offset`
/// with the shortest name span, the first such in order.
pub open spec fn is_best_symbol(entries: Seq<SymbolEntry>, offset: int, i: int) -> bool {
    &&& 0 <= i < entries.len()
    &&& span_contains(entries[i].selection_span, offset)
    &&& forall|j: int|
        0 <= j < entries.len() && span_contains(#[trigger] entries[j].selection_span, offset)
            ==> entries[i].selection_span.spec_len() <= entries[j].selection_span.spec_len()
    &&& forall|j: int|
        0 <= j < i && span_contains(#[trigger] entries[j].selection_span, offset)
            ==> entries[i].selection_span.spec_len() < entries[j].selection_span.spec_len()
}

/// Every name span in `entries` starts before the largest offset.
pub open spec fn spans_bounded(entries: Seq<SymbolEntry>) -> bool {
    forall|i: int| 0 <= i < entries.len() ==> (#[trigger] entries[i]).selection_span.start < u32::MAX
}

/// The definition of the entry a position at `offset` picks, if it has one.
pub open spec fn symbol_def_at(entries: Seq<SymbolEntry>, offset: int) -> Option<DefId> {
    if exists|i: int| is_best_symbol(entries, offset, i) {
        entries[choose|i: int| is_best_symbol(entries, offset, i)].def_id
    } else {
        None
    }
}

/// The reference spans by raw definition id.
pub open spec fn references_view(idx: ReferenceIndex) -> Map<u32, Seq<Span>> {
    Map::new(|k: u32| idx.references@.contains_key(k), |k: u32| idx.references@[k]@)
}

/// Whether some use of definition `d` covers `offset`.
pub open spec fn referenced_at(refs: Map<u32, Seq<Span>>, d: u32, offset: int) -> bool {
    refs.contains_key(d) && exists|k: int| 0 <= k < refs[d].len() && span_contains(#[trigger] refs[d][k], offset)
}

/// Every reference span starts before the largest offset.
pub open spec fn references_bounded(refs: Map<u32, Seq<Span>>) -> bool {
    forall|d: u32, k: int| refs.contains_key(d) && 0 <= k < refs[d].len() ==> (#[trigger] refs[d][k]).start < u32::MAX
}

impl AnalysisResult {
    /// A result with no analysis yet, for a source of `source_len` bytes.
    pub fn empty(uri: lsp_types::Url, version: Option<i32>, source_len: usize) -> (r: Self)
        ensures
            r.uri == uri,
            r.version == version,
            r.ast is None,
            r.resolved is None,
            r.typed is None,
            r.borrow_result is None,
            r.diagnostics@.len() == 0,
            r.symbol_index.entries@.len() == 0,
            r.definition_index.definitions@ == Map::<u32, Span>::empty(),
            r.reference_index.references@ == Map::<u32, Vec<Span>>::empty(),
            r.type_index.types@ == Map::<u32, String>::empty(),
            r.metadata == Some(AnalysisMetadata { source_len }),
    {
        AnalysisResult {
            uri,
            version,
            ast: None,
            resolved: None,
            typed: None,
            borrow_result: None,
            diagnostics: Vec::new(),
            symbol_index: SymbolIndex::default(),
            definition_index: DefinitionIndex::default(),
            reference_index: ReferenceIndex::default(),
            type_index: TypeIndex::default(),
            metadata: Some(AnalysisMetadata { source_len }),
        }
    }

    /// The symbol at byte `offset`: among the entries whose name span
    /// covers it, the one with the shortest name span (the first of those).
    pub fn find_symbol_at(&self, offset: usize) -> (r: Option<&SymbolEntry>)
        requires
            spans_bounded(self.symbol_index.entries@),
        ensures
            match r {
                Some(e) => exists|i: int|
                    is_best_symbol(self.symbol_index.entries@, offset as int, i) && *e
                        == self.symbol_index.entries@[i],
                None => forall|j: int|
                    0 <= j < self.symbol_index.entries@.len() ==> !span_contains(
                        #[trigger] self.symbol_index.entries@[j].selection_span,
                        offset as int,
                    ),
            },
    {
        let entries = &self.symbol_index.entries;
        let mut best: Option<usize> = None;
        let mut best_len: u32 = 0;
        let mut i: usize = 0;
        while i < entries.len()
            invariant
                0 <= i <= entries@.len(),
                spans_bounded(entries@),
                match best {
                    Some(b) => {
                        &&& b < i
                        &&& span_contains(entries@[b as int].selection_span, offset as int)
                        &&& best_len == entries@[b as int].selection_span.spec_len()
                        &&& forall|j: int|
                            0 <= j < i && span_contains(#[trigger] entries@[j].selection_span, offset as int)
                                ==> best_len <= entries@[j].selection_span.spec_len()
                        &&& forall|j: int|
                            0 <= j < b && span_contains(#[trigger] entries@[j].selection_span, offset as int)
                                ==> best_len < entries@[j].selection_span.spec_len()
                    },
                    None => forall|j: int|
                        0 <= j < i ==> !span_contains(#[trigger] entries@[j].selection_span, offset as int),
                },
            decreases entries@.len() - i,
        {
            if contains(entries[i].selection_span, offset) {
                let len = entries[i].selection_span.len();
                match best {
                    None => {
                        best = Some(i);
                        best_len = len;
                    },
                    Some(_) => {
                        if len < best_len {
                            best = Some(i);
                            best_len = len;
                        }
                    },
                }
            }
            i = i + 1;
        }
        match best {
            Some(b) => {
                proof {
                    assert(is_best_symbol(entries@, offset as int, b as int));
                }
                Some(&entries[b])
            },
            None => None,
        }
    }

    /// The definition at byte `offset`: that of the symbol there if it has
    /// one, else one whose uses cover `offset`; which one, when several
    /// do, depends on the order the reference table is walked in.
    pub fn def_at(&self, offset: usize) -> (r: Option<DefId>)
        requires
            spans_bounded(self.symbol_index.entries@),
            references_bounded(references_view(self.reference_index)),
        ensures
            symbol_def_at(self.symbol_index.entries@, offset as int) is Some ==> r == symbol_def_at(
                self.symbol_index.entries@,
                offset as int,
            ),
            symbol_def_at(self.symbol_index.entries@, offset as int) is None ==> match r {
                Some(d) => referenced_at(references_view(self.reference_index), d.0, offset as int),
                None => forall|d: u32| !referenced_at(references_view(self.reference_index), d, offset as int),
            },
    {
        let ghost entries = self.symbol_index.entries@;
        if let Some(entry) = self.find_symbol_at(offset) {
            proof {
                let i = choose|i: int| is_best_symbol(entries, offset as int, i) && *entry == entries[i];
                let c = choose|c: int| is_best_symbol(entries, offset as int, c);
                lemma_best_unique(entries, offset as int, i, c);
            }
            if let Some(d) = entry.def_id {
                return Some(d);
            }
            proof {
                assert(symbol_def_at(entries, offset as int) is None);
            }
        } else {
            proof {
                assert(!exists|i: int| is_best_symbol(entries, offset as int, i));
            }
        }
        let table = &self.reference_index.references;
        let ghost refs = references_view(self.reference_index);
        let ghost ks = spec_keys_iter(table).remaining().unref();
        let ghost mut n: int = 0;
        for key in it: table.keys()
            invariant
                refs == references_view(self.reference_index),
                references_bounded(refs),
                ks == spec_keys_iter(table).remaining().unref(),
                it.seq() == spec_keys_iter(table).remaining(),
                n == it.index(),
                forall|j: int| 0 <= j < n ==> !referenced_at(refs, #[trigger] ks[j], offset as int),
                entries == self.symbol_index.entries@,
                symbol_def_at(entries, offset as int) is None,
                *table == self.reference_index.references,
        {
            let k: u32 = *key;
            proof {
                assert(ks[n] == k);
                assert(ks.to_set().contains(k));
            }
            match table.get(&k) {
                Some(spans) => {
                    proof {
                        assert(self.reference_index.references@.contains_key(k));
                        assert(refs.contains_key(k));
                        assert(refs[k] == spans@);
                    }
                    let mut j: usize = 0;
                    while j < spans.len()
                        invariant
                            refs.contains_key(k),
                            refs[k] == spans@,
                            entries == self.symbol_index.entries@,
                            symbol_def_at(entries, offset as int) is None,
                            refs == references_view(self.reference_index),
                            references_bounded(refs),
                            0 <= j <= spans@.len(),
                            forall|m: int| 0 <= m < j ==> !span_contains(#[trigger] spans@[m], offset as int),
                        decreases spans@.len() - j,
                    {
                        proof {
                            assert(refs[k][j as int] == spans@[j as int]);
                        }
                        if contains(spans[j], offset) {
                            proof {
                                assert(span_contains(refs[k][j as int], offset as int));
                                assert(referenced_at(refs, k, offset as int));
                            }
                            return Some(DefId::new(k));
                        }
                        j = j + 1;
                    }
                },
                None => {},
            }
            proof {
                n = n + 1;
            }
        }
        proof {
            assert forall|d: u32| !referenced_at(refs, d, offset as int) by {
                if refs.contains_key(d) {
                    assert(ks.to_set().contains(d));
                }
            }
        }
        None
    }
}

/// Two picks for the same offset are the same entry.
pub proof fn lemma_best_unique(entries: Seq<SymbolEntry>, offset: int, i: int, j: int)
    requires
        is_best_symbol(entries, offset, i),
        is_best_symbol(entries, offset, j),
    ensures
        i == j,
{
}

/// How a type is written.
pub open spec fn type_text(t: TypeShape) -> Seq<char>
    decreases t, 0nat,
{
    match t {
        TypeShape::Primitive(p) => spec_primitive_to_string(p),
        TypeShape::Path(names) => join(names, "::"@),
        TypeShape::Ref { mutable, ty } => (if mutable {
            "&mut "@
        } else {
            "&"@
        }) + type_text(*ty),
        TypeShape::Slice(ty) => type_text(*ty) + "[]"@,
        TypeShape::Array { ty, len } => "["@ + type_text(*ty) + "; "@ + decimal(len as nat) + "]"@,
        TypeShape::Tuple(items) => "("@ + join(types_text(items), ", "@) + ")"@,
        TypeShape::Void => "void"@,
    }
}

/// How each of `ts` is written.
pub open spec fn types_text(ts: Seq<TypeShape>) -> Seq<Seq<char>>
    decreases ts, 1nat,
{
    if ts.len() == 0 {
        seq![]
    } else {
        types_text(ts.subrange(0, ts.len() - 1)).push(type_text(ts[ts.len() - 1]))
    }
}

fn push_type_text(out: &mut Vec<char>, ty: &Type)
    ensures
        final(out)@ == old(out)@ + type_text(ty.shape()),
    decreases ty,
{
    match &ty.kind {
        TypeKind::Primitive(p) => {
            push_str(out, primitive_to_string(*p));
        },
        TypeKind::Path(path) => {
            let ghost names = path.names();
            let ghost start = out@;
            let mut i: usize = 0;
            proof {
                assert(names.take(0) =~= Seq::<Seq<char>>::empty());
                assert(start + join(names.take(0), "::"@) =~= start);
            }
            while i < path.segments.len()
                invariant
                    names == path.names(),
                    0 <= i <= names.len(),
                    out@ == start + join(names.take(i as int), "::"@),
                decreases names.len() - i,
            {
                proof {
                    reveal_strlit("::");
                    assert(names.take(i + 1) =~= names.take(i as int).push(names[i as int]));
                    lemma_join_push(names.take(i as int), names[i as int], "::"@);
                }
                if i > 0 {
                    out.push(':');
                    out.push(':');
                }
                push_str(out, path.segments[i].name.as_str());
                proof {
                    assert(names[i as int] == path.segments@[i as int].name@);
                    if i > 0 {
                        assert(out@ =~= start + (join(names.take(i as int), "::"@) + "::"@ + names[i as int]));
                    } else {
                        assert(out@ =~= start + names[i as int]);
                    }
                }
                i = i + 1;
            }
            proof {
                assert(names.take(i as int) =~= names);
            }
        },
        TypeKind::Ref { mutable, ty: inner } => {
            if *mutable {
                push_str(out, "&mut ");
            } else {
                push_str(out, "&");
            }
            push_type_text(out, inner);
            proof {
                assert(final(out)@ =~= old(out)@ + type_text(ty.shape()));
            }
        },
        TypeKind::Slice(inner) => {
            push_type_text(out, inner);
            push_str(out, "[]");
            proof {
                assert(final(out)@ =~= old(out)@ + type_text(ty.shape()));
            }
        },
        TypeKind::Array { ty: inner, len } => {
            push_str(out, "[");
            push_type_text(out, inner);
            push_str(out, "; ");
            push_decimal(out, *len);
            push_str(out, "]");
            proof {
                assert(final(out)@ =~= old(out)@ + type_text(ty.shape()));
            }
        },
        TypeKind::Tuple(items) => {
            let ghost shapes = ty.shape()->Tuple_0;
            push_str(out, "(");
            let ghost start = out@;
            let mut i: usize = 0;
            proof {
                assert(shapes.subrange(0, 0) =~= Seq::<TypeShape>::empty());
                assert(types_text(shapes.subrange(0, 0)) =~= Seq::<Seq<char>>::empty());
                assert(start + join(types_text(shapes.subrange(0, 0)), ", "@) =~= start);
            }
            while i < items.len()
                invariant
                    ty.kind == TypeKind::Tuple(*items),
                    shapes == ty.shape()->Tuple_0,
                    shapes.len() == items@.len(),
                    forall|k: int| 0 <= k < items@.len() ==> #[trigger] shapes[k] == items@[k].shape(),
                    0 <= i <= items@.len(),
                    out@ == start + join(types_text(shapes.subrange(0, i as int)), ", "@),
                decreases items@.len() - i,
            {
                proof {
                    reveal_strlit(", ");
                    let pre = shapes.subrange(0, i as int);
                    let next = shapes.subrange(0, i + 1);
                    assert(next.subrange(0, next.len() - 1) =~= pre);
                    assert(next[next.len() - 1] == shapes[i as int]);
                    assert(types_text(next) == types_text(pre).push(type_text(shapes[i as int])));
                    lemma_join_push(types_text(pre), type_text(shapes[i as int]), ", "@);
                    assert(decreases_to!(*ty => ty.kind));
                    assert(decreases_to!(ty.kind => ty.kind->Tuple_0));
                    assert(decreases_to!(*items => items[i as int]));
                    assert(decreases_to!(*ty => items[i as int]));
                }
                let ghost before = out@;
                if i > 0 {
                    out.push(',');
                    out.push(' ');
                }
                push_type_text(out, &items[i]);
                proof {
                    let pre = shapes.subrange(0, i as int);
                    if i > 0 {
                        assert(out@ =~= start + (join(types_text(pre), ", "@) + ", "@ + type_text(shapes[i as int])));
                    } else {
                        assert(types_text(pre) =~= Seq::<Seq<char>>::empty());
                        assert(out@ =~= start + type_text(shapes[i as int]));
                    }
                }
                i = i + 1;
            }
            push_str(out, ")");
            proof {
                assert(shapes.subrange(0, i as int) =~= shapes);
                assert(final(out)@ =~= old(out)@ + type_text(ty.shape()));
            }
        },
        TypeKind::Void => {
            push_str(out, "void");
        },
    }
}

/// How `ty` is written, as shown to the user.
pub fn type_to_string(ty: &Type) -> (r: String)
    ensures
        r@ == type_text(ty.shape()),
{
    let mut out: Vec<char> = Vec::new();
    push_type_text(&mut out, ty);
    proof {
        assert(out@ =~= type_text(ty.shape()));
    }
    string_from_chars(&out)
}

} // verus!
