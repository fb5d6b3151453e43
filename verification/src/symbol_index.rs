use vstd::prelude::*;

use std::collections::HashMap;

use crate::analysis_model::{type_text, type_to_string, LspResolved, SymbolEntry, SymbolEntryKind, SymbolIndex, TypeIndex};
use crate::ast::{Ast, Block, Expr, ExprKind, FieldInit, FunctionItem, FunctionKind, FunctionParam, Item, ItemKind, MatchArm, Pattern, PatternKind, Stmt, StmtKind};
use crate::chars::{join, lemma_join_push, push_str, string_from_chars};
use crate::def::{Def, DefId, DefKind};
use crate::span::{Span, Symbol};
use crate::symbol_info::opt_view;
use crate::text::{bytes_of, str_eq};
use crate::ty::Path;

verus! {

broadcast use vstd::std_specs::hash::group_hash_axioms;

/// A symbol entry with its texts as character sequences.
pub ghost struct EntryView {
    pub name: Seq<char>,
    pub kind: SymbolEntryKind,
    pub span: Span,
    pub selection_span: Span,
    pub def_id: Option<DefId>,
    pub detail: Option<Seq<char>>,
    pub parent: Option<Seq<char>>,
}

pub open spec fn entry_view(e: SymbolEntry) -> EntryView {
    EntryView {
        name: e.name@,
        kind: e.kind,
        span: e.span,
        selection_span: e.selection_span,
        def_id: e.def_id,
        detail: opt_view(e.detail),
        parent: opt_view(e.parent),
    }
}

pub open spec fn entries_view(es: Seq<SymbolEntry>) -> Seq<EntryView> {
    es.map_values(|e: SymbolEntry| entry_view(e))
}

/// What the index is built from: the resolution results, if any, and the
/// type shown for each node.
pub ghost struct IndexEnv {
    pub resolved: Option<LspResolved>,
    pub types: Map<u32, Seq<char>>,
}

pub open spec fn lookup<V>(m: Map<u32, V>, k: u32) -> Option<V> {
    if m.contains_key(k) {
        Some(m[k])
    } else {
        None
    }
}

/// The text of a symbol, or `<invalid>` for one never interned.
pub open spec fn sym_text(names: Seq<Seq<char>>, s: Symbol) -> Seq<char> {
    if s.0 < names.len() {
        names[s.0 as int]
    } else {
        "<invalid>"@
    }
}

/// The first definition of kind `kind` called `name`.
pub open spec fn def_by_kind_name(defs: Seq<Def>, names: Seq<Seq<char>>, kind: DefKind, name: Seq<char>) -> Option<DefId>
    decreases defs.len(),
{
    if defs.len() == 0 {
        None
    } else if defs[0].kind == kind && sym_text(names, defs[0].name) == name {
        Some(defs[0].id)
    } else {
        def_by_kind_name(defs.drop_first(), names, kind, name)
    }
}

/// The first definition at `span` called `name`.
pub open spec fn def_by_span_name(defs: Seq<Def>, names: Seq<Seq<char>>, span: Span, name: Seq<char>) -> Option<DefId>
    decreases defs.len(),
{
    if defs.len() == 0 {
        None
    } else if defs[0].span == span && sym_text(names, defs[0].name) == name {
        Some(defs[0].id)
    } else {
        def_by_span_name(defs.drop_first(), names, span, name)
    }
}

/// The entry kind shown for a definition kind; methods show as functions.
pub open spec fn entry_kind(k: DefKind) -> SymbolEntryKind {
    match k {
        DefKind::Function => SymbolEntryKind::Function,
        DefKind::Method => SymbolEntryKind::Function,
        DefKind::ExportFunction => SymbolEntryKind::ExportFunction,
        DefKind::ExternFunction => SymbolEntryKind::ExternFunction,
        DefKind::Struct => SymbolEntryKind::Struct,
        DefKind::Enum => SymbolEntryKind::Enum,
        DefKind::Const => SymbolEntryKind::Const,
        DefKind::Local => SymbolEntryKind::Local,
        DefKind::Field => SymbolEntryKind::Field,
        DefKind::Variant => SymbolEntryKind::Variant,
        DefKind::TypeAlias => SymbolEntryKind::TypeAlias,
    }
}

impl IndexEnv {
    pub open spec fn kind_name_def(self, kind: DefKind, name: Seq<char>) -> Option<DefId> {
        match self.resolved {
            Some(r) => def_by_kind_name(r.symbols.defs@, r.symbols.names(), kind, name),
            None => None,
        }
    }

    pub open spec fn span_name_def(self, span: Span, name: Seq<char>) -> Option<DefId> {
        match self.resolved {
            Some(r) => def_by_span_name(r.symbols.defs@, r.symbols.names(), span, name),
            None => None,
        }
    }

    /// What the name at `node` resolved to.
    pub open spec fn name_def(self, node: u32) -> Option<DefId> {
        match self.resolved {
            Some(r) => lookup(r.resolved_names@, node),
            None => None,
        }
    }

    /// What the path at `node` resolved to, as a name, a call or a variant.
    pub open spec fn path_def(self, node: u32) -> Option<DefId> {
        match self.resolved {
            Some(r) => match lookup(r.resolved_names@, node) {
                Some(d) => Some(d),
                None => match lookup(r.resolved_calls@, node) {
                    Some(d) => Some(d),
                    None => lookup(r.resolved_variants@, node),
                },
            },
            None => None,
        }
    }

    pub open spec fn field_def(self, node: u32) -> Option<DefId> {
        match self.resolved {
            Some(r) => lookup(r.resolved_fields@, node),
            None => None,
        }
    }

    /// The entry kind of a recorded definition.
    pub open spec fn def_kind(self, d: Option<DefId>) -> Option<SymbolEntryKind> {
        match self.resolved {
            Some(r) => match d {
                Some(d) => if d.0 < r.symbols.defs@.len() {
                    Some(entry_kind(r.symbols.defs@[d.0 as int].kind))
                } else {
                    None
                },
                None => None,
            },
            None => None,
        }
    }
}

/// The span of `name` at the end of `span`.
pub open spec fn spec_tail_span(span: Span, name: Seq<char>) -> Span {
    let n = bytes_of(name).len() as u32;
    Span {
        file: span.file,
        start: if n <= span.end {
            (span.end - n) as u32
        } else {
            0
        },
        end: span.end,
    }
}

/// The keyword(s) that open a function of kind `k`.
pub open spec fn fn_prefix(k: FunctionKind) -> Seq<char> {
    match k {
        FunctionKind::Normal => "fn"@,
        FunctionKind::Export => "export fn"@,
        FunctionKind::Extern => "extern fn"@,
    }
}

pub open spec fn param_text(p: FunctionParam) -> Seq<char> {
    p.name@ + ": "@ + type_text(p.ty.shape())
}

/// A function's signature as shown to the user:
/// `fn name(a: i32, b: str) -> i32`.
pub open spec fn fn_signature(f: FunctionItem) -> Seq<char> {
    fn_prefix(f.kind) + " "@ + f.name@ + "("@ + join(f.params@.map_values(|p: FunctionParam| param_text(p)), ", "@) + ")"@
        + match f.return_ty {
        Some(t) => " -> "@ + type_text(t.shape()),
        None => ""@,
    }
}

/// The signature of `function`.
pub fn function_signature(function: &FunctionItem) -> (r: String)
    ensures
        r@ == fn_signature(*function),
{
    proof {
        reveal_strlit("fn");
        reveal_strlit("export fn");
        reveal_strlit("extern fn");
        reveal_strlit(" ");
        reveal_strlit("(");
        reveal_strlit(": ");
        reveal_strlit(", ");
        reveal_strlit(")");
        reveal_strlit(" -> ");
        reveal_strlit("");
    }
    let mut out: Vec<char> = Vec::new();
    match function.kind {
        FunctionKind::Normal => push_str(&mut out, "fn"),
        FunctionKind::Export => push_str(&mut out, "export fn"),
        FunctionKind::Extern => push_str(&mut out, "extern fn"),
    }
    push_str(&mut out, " ");
    push_str(&mut out, function.name.as_str());
    push_str(&mut out, "(");
    let ghost start = out@;
    let ghost texts = function.params@.map_values(|p: FunctionParam| param_text(p));
    let mut i: usize = 0;
    proof {
        assert(texts.take(0) =~= Seq::<Seq<char>>::empty());
    }
    while i < function.params.len()
        invariant
            0 <= i <= function.params@.len(),
            texts == function.params@.map_values(|p: FunctionParam| param_text(p)),
            out@ == start + join(texts.take(i as int), ", "@),
        decreases function.params@.len() - i,
    {
        let ghost before = out@;
        proof {
            assert(texts.take(i + 1) =~= texts.take(i as int).push(texts[i as int]));
            lemma_join_push(texts.take(i as int), texts[i as int], ", "@);
        }
        if i > 0 {
            push_str(&mut out, ", ");
        }
        let p = &function.params[i];
        push_str(&mut out, p.name.as_str());
        push_str(&mut out, ": ");
        let t = type_to_string(&p.ty);
        push_str(&mut out, t.as_str());
        proof {
            if i > 0 {
                assert(out@ =~= start + (join(texts.take(i as int), ", "@) + ", "@ + texts[i as int]));
            } else {
                assert(join(texts.take(0), ", "@) =~= Seq::<char>::empty());
                assert(out@ =~= start + texts[i as int]);
            }
        }
        i = i + 1;
    }
    proof {
        assert(texts.take(i as int) =~= texts);
    }
    push_str(&mut out, ")");
    match &function.return_ty {
        Some(t) => {
            push_str(&mut out, " -> ");
            let s = type_to_string(t);
            push_str(&mut out, s.as_str());
        },
        None => {},
    }
    proof {
        assert(out@ =~= fn_signature(*function));
    }
    string_from_chars(&out)
}

/// The span of `name` when it ends where `span` ends (a field name after
/// its base).
pub fn tail_span(span: Span, name: &str) -> (r: Span)
    ensures
        r == spec_tail_span(span, name@),
{
    let n = name.as_bytes().len() as u32;
    let start = span.end.saturating_sub(n);
    Span::new(span.file, start, span.end)
}


/// The maps the index reads.
pub struct Env<'a> {
    pub resolved: &'a Option<LspResolved>,
    pub type_index: &'a TypeIndex,
}

impl<'a> Env<'a> {
    pub open spec fn view(&self) -> IndexEnv {
        IndexEnv { resolved: *self.resolved, types: self.type_index.types@.map_values(|s: String| s@) }
    }
}

fn lookup_def(m: &HashMap<u32, DefId>, k: u32) -> (r: Option<DefId>)
    ensures
        r == lookup(m@, k),
{
    match m.get(&k) {
        Some(d) => Some(*d),
        None => None,
    }
}

/// The type text recorded for `node`.
fn type_detail(env: &Env, node: u32) -> (r: Option<String>)
    ensures
        opt_view(r) == lookup(env.view().types, node),
{
    match env.type_index.types.get(&node) {
        Some(s) => Some(s.clone()),
        None => None,
    }
}

fn name_def(env: &Env, node: u32) -> (r: Option<DefId>)
    ensures
        r == env.view().name_def(node),
{
    match env.resolved {
        Some(res) => lookup_def(&res.resolved_names, node),
        None => None,
    }
}

fn path_def(env: &Env, node: u32) -> (r: Option<DefId>)
    ensures
        r == env.view().path_def(node),
{
    match env.resolved {
        Some(res) => match lookup_def(&res.resolved_names, node) {
            Some(d) => Some(d),
            None => match lookup_def(&res.resolved_calls, node) {
                Some(d) => Some(d),
                None => lookup_def(&res.resolved_variants, node),
            },
        },
        None => None,
    }
}

fn field_def(env: &Env, node: u32) -> (r: Option<DefId>)
    ensures
        r == env.view().field_def(node),
{
    match env.resolved {
        Some(res) => lookup_def(&res.resolved_fields, node),
        None => None,
    }
}

fn to_entry_kind(k: DefKind) -> (r: SymbolEntryKind)
    ensures
        r == entry_kind(k),
{
    match k {
        DefKind::Function => SymbolEntryKind::Function,
        DefKind::Method => SymbolEntryKind::Function,
        DefKind::ExportFunction => SymbolEntryKind::ExportFunction,
        DefKind::ExternFunction => SymbolEntryKind::ExternFunction,
        DefKind::Struct => SymbolEntryKind::Struct,
        DefKind::Enum => SymbolEntryKind::Enum,
        DefKind::Const => SymbolEntryKind::Const,
        DefKind::Local => SymbolEntryKind::Local,
        DefKind::Field => SymbolEntryKind::Field,
        DefKind::Variant => SymbolEntryKind::Variant,
        DefKind::TypeAlias => SymbolEntryKind::TypeAlias,
    }
}

fn kind_for_def(env: &Env, d: Option<DefId>) -> (r: Option<SymbolEntryKind>)
    ensures
        r == env.view().def_kind(d),
{
    match env.resolved {
        Some(res) => match d {
            Some(id) => match res.symbols.def(id) {
                Some(def) => Some(to_entry_kind(def.kind)),
                None => None,
            },
            None => None,
        },
        None => None,
    }
}

fn def_for_kind_name(env: &Env, kind: DefKind, name: &str) -> (r: Option<DefId>)
    ensures
        r == env.view().kind_name_def(kind, name@),
{
    match env.resolved {
        Some(res) => {
            let ghost names = res.symbols.names();
            let ghost defs = res.symbols.defs@;
            let mut i: usize = 0;
            proof {
                assert(defs.skip(0) =~= defs);
            }
            while i < res.symbols.defs.len()
                invariant
                    0 <= i <= defs.len(),
                    env.view().resolved == Some(*res),
                    defs == res.symbols.defs@,
                    names == res.symbols.names(),
                    def_by_kind_name(defs, names, kind, name@) == def_by_kind_name(defs.skip(i as int), names, kind, name@),
                decreases defs.len() - i,
            {
                proof {
                    let rest = defs.skip(i as int);
                    assert(rest[0] == defs[i as int]);
                    assert(rest.drop_first() =~= defs.skip(i + 1));
                }
                let def = &res.symbols.defs[i];
                let text = res.symbols.name(def.name);
                if def.kind == kind && str_eq(text, name) {
                    proof {
                        let rest = defs.skip(i as int);
                        assert(text@ == sym_text(names, rest[0].name));
                        assert(rest.len() > 0);
                    }
                    return Some(def.id);
                }
                i = i + 1;
            }
            proof {
                assert(defs.skip(i as int) =~= Seq::<Def>::empty());
            }
            None
        },
        None => None,
    }
}

fn def_for_span_name(env: &Env, span: Span, name: &str) -> (r: Option<DefId>)
    ensures
        r == env.view().span_name_def(span, name@),
{
    match env.resolved {
        Some(res) => {
            let ghost names = res.symbols.names();
            let ghost defs = res.symbols.defs@;
            let mut i: usize = 0;
            proof {
                assert(defs.skip(0) =~= defs);
            }
            while i < res.symbols.defs.len()
                invariant
                    0 <= i <= defs.len(),
                    env.view().resolved == Some(*res),
                    defs == res.symbols.defs@,
                    names == res.symbols.names(),
                    def_by_span_name(defs, names, span, name@) == def_by_span_name(defs.skip(i as int), names, span, name@),
                decreases defs.len() - i,
            {
                proof {
                    let rest = defs.skip(i as int);
                    assert(rest[0] == defs[i as int]);
                    assert(rest.drop_first() =~= defs.skip(i + 1));
                }
                let def = &res.symbols.defs[i];
                let text = res.symbols.name(def.name);
                if def.span == span && str_eq(text, name) {
                    proof {
                        let rest = defs.skip(i as int);
                        assert(text@ == sym_text(names, rest[0].name));
                        assert(rest.len() > 0);
                    }
                    return Some(def.id);
                }
                i = i + 1;
            }
            proof {
                assert(defs.skip(i as int) =~= Seq::<Def>::empty());
            }
            None
        },
        None => None,
    }
}


// ---------------------------------------------------------------------
// What the index holds
// ---------------------------------------------------------------------

/// An entry for a declaration at `node`: its definition is what the name
/// at `node` resolved to; without a given detail, the detail is the type
/// recorded for `node`.
pub open spec fn seeded(
    env: IndexEnv,
    name: Seq<char>,
    kind: SymbolEntryKind,
    span: Span,
    node: u32,
    detail: Option<Seq<char>>,
    parent: Option<Seq<char>>,
) -> EntryView {
    EntryView {
        name,
        kind,
        span,
        selection_span: span,
        def_id: env.name_def(node),
        detail: match detail {
            Some(d) => Some(d),
            None => lookup(env.types, node),
        },
        parent,
    }
}

/// A use of a path at `node`: its last segment, with what the path
/// resolved to and that definition's kind (a local when unknown).
pub open spec fn path_symbols(env: IndexEnv, p: Path, node: u32) -> Seq<EntryView> {
    if p.segments@.len() == 0 {
        seq![]
    } else {
        let seg = p.segments@[p.segments@.len() - 1];
        let d = env.path_def(node);
        seq![EntryView {
            name: seg.name@,
            kind: match env.def_kind(d) {
                Some(k) => k,
                None => SymbolEntryKind::Local,
            },
            span: seg.span,
            selection_span: seg.span,
            def_id: d,
            detail: None,
            parent: None,
        }]
    }
}

/// The entries of a pattern: a binding is a local, detailed by the given
/// type text or else the type recorded for the pattern.
pub open spec fn pattern_symbols(env: IndexEnv, p: Pattern, ty: Option<Seq<char>>) -> Seq<EntryView>
    decreases p, 0nat,
{
    match p.kind {
        PatternKind::Binding { name, .. } => seq![EntryView {
            name: name@,
            kind: SymbolEntryKind::Local,
            span: p.span,
            selection_span: p.span,
            def_id: env.span_name_def(p.span, name@),
            detail: match ty {
                Some(t) => Some(t),
                None => lookup(env.types, p.id.0),
            },
            parent: None,
        }],
        PatternKind::Tuple(ps) => patterns_symbols(env, ps@),
        PatternKind::Path(path) => path_symbols(env, path, p.id.0),
        PatternKind::Wildcard => seq![],
    }
}

pub open spec fn patterns_symbols(env: IndexEnv, ps: Seq<Pattern>) -> Seq<EntryView>
    decreases ps, 1nat,
{
    if ps.len() == 0 {
        seq![]
    } else {
        patterns_symbols(env, ps.subrange(0, ps.len() - 1)) + pattern_symbols(env, ps[ps.len() - 1], None)
    }
}

pub open spec fn opt_type_text(t: Option<crate::ty::Type>) -> Option<Seq<char>> {
    match t {
        Some(t) => Some(type_text(t.shape())),
        None => None,
    }
}

/// A field named in a struct literal.
pub open spec fn field_use(env: IndexEnv, f: FieldInit) -> EntryView {
    EntryView {
        name: f.name@,
        kind: SymbolEntryKind::Field,
        span: f.span,
        selection_span: f.span,
        def_id: env.kind_name_def(DefKind::Field, f.name@),
        detail: None,
        parent: None,
    }
}

/// The entries of an expression, in source order: path uses, field
/// accesses (spanning the field name at the end of the access), struct
/// literal fields, and the patterns of match arms.
pub open spec fn expr_symbols(env: IndexEnv, e: Expr) -> Seq<EntryView>
    decreases e, 1nat,
{
    match e.kind {
        ExprKind::Path(p) => path_symbols(env, p, e.id.0),
        ExprKind::Unary { expr, .. } => expr_symbols(env, *expr),
        ExprKind::Binary { left, right, .. } => expr_symbols(env, *left) + expr_symbols(env, *right),
        ExprKind::Assign { target, value } => expr_symbols(env, *target) + expr_symbols(env, *value),
        ExprKind::Call { callee, args } => expr_symbols(env, *callee) + exprs_symbols(env, args@),
        ExprKind::Field { base, field } => expr_symbols(env, *base) + seq![EntryView {
            name: field@,
            kind: SymbolEntryKind::Field,
            span: spec_tail_span(e.span, field@),
            selection_span: spec_tail_span(e.span, field@),
            def_id: env.field_def(e.id.0),
            detail: None,
            parent: None,
        }],
        ExprKind::Index { base, index } => expr_symbols(env, *base) + expr_symbols(env, *index),
        ExprKind::Tuple(items) => exprs_symbols(env, items@),
        ExprKind::Array(items) => exprs_symbols(env, items@),
        ExprKind::StructInit { path, fields } => path_symbols(env, path, path.id.0) + inits_symbols(env, fields@),
        ExprKind::If { condition, then_block, else_branch } => expr_symbols(env, *condition) + block_symbols(env, then_block)
            + match else_branch {
            Some(b) => expr_symbols(env, *b),
            None => seq![],
        },
        ExprKind::Match { value, arms } => expr_symbols(env, *value) + arms_symbols(env, arms@),
        ExprKind::Block(b) => block_symbols(env, b),
        ExprKind::Literal(_) => seq![],
    }
}

pub open spec fn exprs_symbols(env: IndexEnv, es: Seq<Expr>) -> Seq<EntryView>
    decreases es, 1nat,
{
    if es.len() == 0 {
        seq![]
    } else {
        exprs_symbols(env, es.subrange(0, es.len() - 1)) + expr_symbols(env, es[es.len() - 1])
    }
}

pub open spec fn inits_symbols(env: IndexEnv, fs: Seq<FieldInit>) -> Seq<EntryView>
    decreases fs, 1nat,
{
    if fs.len() == 0 {
        seq![]
    } else {
        inits_symbols(env, fs.subrange(0, fs.len() - 1)) + seq![field_use(env, fs[fs.len() - 1])] + expr_symbols(env, fs[fs.len() - 1].value)
    }
}

pub open spec fn arms_symbols(env: IndexEnv, arms: Seq<MatchArm>) -> Seq<EntryView>
    decreases arms, 1nat,
{
    if arms.len() == 0 {
        seq![]
    } else {
        let a = arms[arms.len() - 1];
        arms_symbols(env, arms.subrange(0, arms.len() - 1)) + pattern_symbols(env, a.pattern, None) + match a.guard {
            Some(g) => expr_symbols(env, g),
            None => seq![],
        } + expr_symbols(env, a.body)
    }
}

pub open spec fn block_symbols(env: IndexEnv, b: Block) -> Seq<EntryView>
    decreases b, 0nat,
{
    stmts_symbols(env, b.statements@)
}

pub open spec fn stmts_symbols(env: IndexEnv, ss: Seq<Stmt>) -> Seq<EntryView>
    decreases ss, 1nat,
{
    if ss.len() == 0 {
        seq![]
    } else {
        stmts_symbols(env, ss.subrange(0, ss.len() - 1)) + stmt_symbols(env, ss[ss.len() - 1])
    }
}

/// The entries of a statement; a `let` details its binding with the
/// written type, if any.
pub open spec fn stmt_symbols(env: IndexEnv, s: Stmt) -> Seq<EntryView>
    decreases s, 0nat,
{
    match s.kind {
        StmtKind::Let { pattern, ty, value } => pattern_symbols(env, pattern, opt_type_text(ty)) + match value {
            Some(v) => expr_symbols(env, v),
            None => seq![],
        },
        StmtKind::Expr(e) => expr_symbols(env, e),
        StmtKind::Semi(e) => expr_symbols(env, e),
        StmtKind::Return(v) => match v {
            Some(e) => expr_symbols(env, e),
            None => seq![],
        },
        StmtKind::While { condition, body } => expr_symbols(env, condition) + block_symbols(env, body),
        StmtKind::For { pattern, iter, body } => pattern_symbols(env, pattern, None) + expr_symbols(env, iter) + block_symbols(env, body),
        _ => seq![],
    }
}


// ---------------------------------------------------------------------
// The walk
// ---------------------------------------------------------------------

fn emit(out: &mut Vec<SymbolEntry>, e: SymbolEntry)
    ensures
        entries_view(final(out)@) == entries_view(old(out)@) + seq![entry_view(e)],
{
    let ghost ev = entry_view(e);
    out.push(e);
    proof {
        assert(entries_view(out@) =~= entries_view(old(out)@) + seq![ev]);
    }
}

fn path_reference(out: &mut Vec<SymbolEntry>, env: &Env, path: &Path, node: u32)
    ensures
        entries_view(final(out)@) == entries_view(old(out)@) + path_symbols(env.view(), *path, node),
{
    let n = path.segments.len();
    if n == 0 {
        proof {
            assert(entries_view(out@) =~= entries_view(old(out)@) + Seq::<EntryView>::empty());
        }
        return;
    }
    let segment = &path.segments[n - 1];
    let def_id = path_def(env, node);
    let kind = match kind_for_def(env, def_id) {
        Some(k) => k,
        None => SymbolEntryKind::Local,
    };
    emit(
        out,
        SymbolEntry {
            name: segment.name.clone(),
            kind,
            span: segment.span,
            selection_span: segment.span,
            def_id,
            detail: None,
            parent: None,
        },
    );
}

fn pattern(out: &mut Vec<SymbolEntry>, env: &Env, p: &Pattern, ty: &Option<crate::ty::Type>)
    ensures
        entries_view(final(out)@) == entries_view(old(out)@) + pattern_symbols(env.view(), *p, opt_type_text(*ty)),
    decreases p, 0nat,
{
    let ghost v0 = entries_view(out@);
    proof {
        assert(decreases_to!(*p => p.kind));
    }
    match &p.kind {
        PatternKind::Binding { name, .. } => {
            let detail = match ty {
                Some(t) => Some(type_to_string(t)),
                None => type_detail(env, p.id.0),
            };
            let def_id = def_for_span_name(env, p.span, name.as_str());
            emit(
                out,
                SymbolEntry {
                    name: name.clone(),
                    kind: SymbolEntryKind::Local,
                    span: p.span,
                    selection_span: p.span,
                    def_id,
                    detail,
                    parent: None,
                },
            );
        },
        PatternKind::Tuple(ps) => {
            let none: Option<crate::ty::Type> = None;
            let mut i: usize = 0;
            proof {
                assert(ps@.subrange(0, 0) =~= Seq::<Pattern>::empty());
            }
            while i < ps.len()
                invariant
                    p.kind == PatternKind::Tuple(*ps),
                    none is None,
                    0 <= i <= ps@.len(),
                    entries_view(out@) == v0 + patterns_symbols(env.view(), ps@.subrange(0, i as int)),
                decreases ps@.len() - i,
            {
                proof {
                    let next = ps@.subrange(0, i + 1);
                    assert(next.subrange(0, next.len() - 1) =~= ps@.subrange(0, i as int));
                    assert(next[next.len() - 1] == ps@[i as int]);
                    assert(decreases_to!(p.kind => p.kind->Tuple_0));
                    assert(decreases_to!(*ps => ps[i as int]));
                    assert(decreases_to!(*p => ps[i as int]));
                }
                pattern(out, env, &ps[i], &none);
                proof {
                    assert(v0 + patterns_symbols(env.view(), ps@.subrange(0, i as int)) + pattern_symbols(env.view(), ps@[i as int], None)
                        =~= v0 + patterns_symbols(env.view(), ps@.subrange(0, i + 1)));
                }
                i = i + 1;
            }
            proof {
                assert(ps@.subrange(0, i as int) =~= ps@);
            }
        },
        PatternKind::Path(path) => {
            path_reference(out, env, path, p.id.0);
        },
        PatternKind::Wildcard => {
            proof {
                assert(entries_view(out@) =~= v0 + Seq::<EntryView>::empty());
            }
        },
    }
}

fn block(out: &mut Vec<SymbolEntry>, env: &Env, b: &Block)
    ensures
        entries_view(final(out)@) == entries_view(old(out)@) + block_symbols(env.view(), *b),
    decreases b, 0nat,
{
    let ghost ss = b.statements@;
    let ghost v0 = entries_view(out@);
    let mut i: usize = 0;
    proof {
        assert(ss.subrange(0, 0) =~= Seq::<Stmt>::empty());
        assert(v0 + stmts_symbols(env.view(), ss.subrange(0, 0)) =~= v0);
    }
    while i < b.statements.len()
        invariant
            ss == b.statements@,
            0 <= i <= ss.len(),
            entries_view(out@) == v0 + stmts_symbols(env.view(), ss.subrange(0, i as int)),
        decreases ss.len() - i,
    {
        proof {
            let next = ss.subrange(0, i + 1);
            assert(next.subrange(0, next.len() - 1) =~= ss.subrange(0, i as int));
            assert(next[next.len() - 1] == ss[i as int]);
            assert(decreases_to!(*b => b.statements));
            assert(decreases_to!(b.statements => b.statements[i as int]));
        }
        stmt(out, env, &b.statements[i]);
        proof {
            assert(v0 + stmts_symbols(env.view(), ss.subrange(0, i as int)) + stmt_symbols(env.view(), ss[i as int])
                =~= v0 + stmts_symbols(env.view(), ss.subrange(0, i + 1)));
        }
        i = i + 1;
    }
    proof {
        assert(ss.subrange(0, i as int) =~= ss);
    }
}

fn stmt(out: &mut Vec<SymbolEntry>, env: &Env, s: &Stmt)
    ensures
        entries_view(final(out)@) == entries_view(old(out)@) + stmt_symbols(env.view(), *s),
    decreases s, 0nat,
{
    let ghost v0 = entries_view(out@);
    let ghost e = env.view();
    proof {
        assert(decreases_to!(*s => s.kind));
    }
    match &s.kind {
        StmtKind::Let { pattern: pat, ty, value } => {
            pattern(out, env, pat, ty);
            let ghost v1 = entries_view(out@);
            if let Some(v) = value {
                expr(out, env, v);
                proof {
                    assert(v1 + expr_symbols(e, *v) =~= v0 + (pattern_symbols(e, *pat, opt_type_text(*ty)) + expr_symbols(e, *v)));
                }
            } else {
                proof {
                    assert(v1 =~= v0 + (pattern_symbols(e, *pat, opt_type_text(*ty)) + Seq::<EntryView>::empty()));
                }
            }
        },
        StmtKind::Expr(x) => {
            expr(out, env, x);
        },
        StmtKind::Semi(x) => {
            expr(out, env, x);
        },
        StmtKind::Return(value) => {
            if let Some(x) = value {
                expr(out, env, x);
            } else {
                proof {
                    assert(entries_view(out@) =~= v0 + Seq::<EntryView>::empty());
                }
            }
        },
        StmtKind::While { condition, body } => {
            expr(out, env, condition);
            let ghost v1 = entries_view(out@);
            block(out, env, body);
            proof {
                assert(v1 + block_symbols(e, *body) =~= v0 + (expr_symbols(e, *condition) + block_symbols(e, *body)));
            }
        },
        StmtKind::For { pattern: pat, iter, body } => {
            let none: Option<crate::ty::Type> = None;
            pattern(out, env, pat, &none);
            let ghost v1 = entries_view(out@);
            expr(out, env, iter);
            let ghost v2 = entries_view(out@);
            block(out, env, body);
            proof {
                assert(v2 + block_symbols(e, *body) =~= v0 + (pattern_symbols(e, *pat, None) + expr_symbols(e, *iter) + block_symbols(e, *body)));
            }
        },
        _ => {
            proof {
                assert(entries_view(out@) =~= v0 + Seq::<EntryView>::empty());
            }
        },
    }
}

fn exprs(out: &mut Vec<SymbolEntry>, env: &Env, parent: &Expr, items: &Vec<Expr>)
    requires
        parent.kind == ExprKind::Tuple(*items) || parent.kind == ExprKind::Array(*items)
            || (parent.kind matches ExprKind::Call { args, .. } && args == *items),
    ensures
        entries_view(final(out)@) == entries_view(old(out)@) + exprs_symbols(env.view(), items@),
    decreases parent, 0nat,
{
    let ghost v0 = entries_view(out@);
    let mut i: usize = 0;
    proof {
        assert(items@.subrange(0, 0) =~= Seq::<Expr>::empty());
        assert(v0 + exprs_symbols(env.view(), items@.subrange(0, 0)) =~= v0);
    }
    while i < items.len()
        invariant
            parent.kind == ExprKind::Tuple(*items) || parent.kind == ExprKind::Array(*items)
                || (parent.kind matches ExprKind::Call { args, .. } && args == *items),
            0 <= i <= items@.len(),
            entries_view(out@) == v0 + exprs_symbols(env.view(), items@.subrange(0, i as int)),
        decreases items@.len() - i,
    {
        proof {
            let next = items@.subrange(0, i + 1);
            assert(next.subrange(0, next.len() - 1) =~= items@.subrange(0, i as int));
            assert(next[next.len() - 1] == items@[i as int]);
            assert(decreases_to!(*parent => parent.kind));
            if parent.kind == ExprKind::Tuple(*items) {
                assert(decreases_to!(parent.kind => parent.kind->Tuple_0));
            } else if parent.kind == ExprKind::Array(*items) {
                assert(decreases_to!(parent.kind => parent.kind->Array_0));
            } else {
                assert(decreases_to!(parent.kind => parent.kind->args));
            }
            assert(decreases_to!(*items => items[i as int]));
            assert(decreases_to!(*parent => items[i as int]));
        }
        expr(out, env, &items[i]);
        proof {
            assert(v0 + exprs_symbols(env.view(), items@.subrange(0, i as int)) + expr_symbols(env.view(), items@[i as int])
                =~= v0 + exprs_symbols(env.view(), items@.subrange(0, i + 1)));
        }
        i = i + 1;
    }
    proof {
        assert(items@.subrange(0, i as int) =~= items@);
    }
}

fn expr(out: &mut Vec<SymbolEntry>, env: &Env, x: &Expr)
    ensures
        entries_view(final(out)@) == entries_view(old(out)@) + expr_symbols(env.view(), *x),
    decreases x, 1nat,
{
    let ghost v0 = entries_view(out@);
    let ghost e = env.view();
    proof {
        assert(decreases_to!(*x => x.kind));
    }
    match &x.kind {
        ExprKind::Path(path) => {
            path_reference(out, env, path, x.id.0);
        },
        ExprKind::Unary { expr: inner, .. } => {
            expr(out, env, inner);
        },
        ExprKind::Binary { left, right, .. } => {
            expr(out, env, left);
            let ghost v1 = entries_view(out@);
            expr(out, env, right);
            proof {
                assert(v1 + expr_symbols(e, **right) =~= v0 + (expr_symbols(e, **left) + expr_symbols(e, **right)));
            }
        },
        ExprKind::Assign { target, value } => {
            expr(out, env, target);
            let ghost v1 = entries_view(out@);
            expr(out, env, value);
            proof {
                assert(v1 + expr_symbols(e, **value) =~= v0 + (expr_symbols(e, **target) + expr_symbols(e, **value)));
            }
        },
        ExprKind::Call { callee, args } => {
            expr(out, env, callee);
            let ghost v1 = entries_view(out@);
            exprs(out, env, x, args);
            proof {
                assert(v1 + exprs_symbols(e, args@) =~= v0 + (expr_symbols(e, **callee) + exprs_symbols(e, args@)));
            }
        },
        ExprKind::Field { base, field } => {
            expr(out, env, base);
            let ghost v1 = entries_view(out@);
            let span = tail_span(x.span, field.as_str());
            let def_id = field_def(env, x.id.0);
            emit(
                out,
                SymbolEntry {
                    name: field.clone(),
                    kind: SymbolEntryKind::Field,
                    span,
                    selection_span: span,
                    def_id,
                    detail: None,
                    parent: None,
                },
            );
            proof {
                assert(entries_view(out@) =~= v0 + expr_symbols(e, *x));
            }
        },
        ExprKind::Index { base, index } => {
            expr(out, env, base);
            let ghost v1 = entries_view(out@);
            expr(out, env, index);
            proof {
                assert(v1 + expr_symbols(e, **index) =~= v0 + (expr_symbols(e, **base) + expr_symbols(e, **index)));
            }
        },
        ExprKind::Tuple(items) => {
            exprs(out, env, x, items);
        },
        ExprKind::Array(items) => {
            exprs(out, env, x, items);
        },
        ExprKind::StructInit { path, fields } => {
            path_reference(out, env, path, path.id.0);
            let ghost v1 = entries_view(out@);
            let mut i: usize = 0;
            proof {
                assert(fields@.subrange(0, 0) =~= Seq::<FieldInit>::empty());
                assert(v1 + inits_symbols(e, fields@.subrange(0, 0)) =~= v1);
            }
            while i < fields.len()
                invariant
                    x.kind matches ExprKind::StructInit { fields: f, .. } && f == *fields,
                    e == env.view(),
                    0 <= i <= fields@.len(),
                    entries_view(out@) == v1 + inits_symbols(e, fields@.subrange(0, i as int)),
                decreases fields@.len() - i,
            {
                let ghost before = entries_view(out@);
                proof {
                    let next = fields@.subrange(0, i + 1);
                    assert(next.subrange(0, next.len() - 1) =~= fields@.subrange(0, i as int));
                    assert(next[next.len() - 1] == fields@[i as int]);
                    assert(decreases_to!(x.kind => x.kind->fields));
                    assert(decreases_to!(*fields => fields[i as int]));
                    assert(decreases_to!(fields[i as int] => fields[i as int].value));
                    assert(decreases_to!(*x => fields[i as int].value));
                }
                let f = &fields[i];
                let def_id = def_for_kind_name(env, DefKind::Field, f.name.as_str());
                emit(
                    out,
                    SymbolEntry {
                        name: f.name.clone(),
                        kind: SymbolEntryKind::Field,
                        span: f.span,
                        selection_span: f.span,
                        def_id,
                        detail: None,
                        parent: None,
                    },
                );
                proof {
                    assert(entries_view(out@) == before + seq![field_use(e, fields@[i as int])]);
                }
                let ghost mid = entries_view(out@);
                expr(out, env, &f.value);
                proof {
                    assert(mid + expr_symbols(e, fields@[i as int].value) =~= v1 + inits_symbols(e, fields@.subrange(0, i + 1)));
                }
                i = i + 1;
            }
            proof {
                assert(fields@.subrange(0, i as int) =~= fields@);
                assert(entries_view(out@) =~= v0 + (path_symbols(e, *path, path.id.0) + inits_symbols(e, fields@)));
            }
        },
        ExprKind::If { condition, then_block, else_branch } => {
            expr(out, env, condition);
            proof {
                assert(decreases_to!(x.kind => x.kind->then_block));
            }
            block(out, env, then_block);
            let ghost v2 = entries_view(out@);
            if let Some(other) = else_branch {
                expr(out, env, other);
                proof {
                    assert(v2 + expr_symbols(e, **other) =~= v0 + (expr_symbols(e, **condition) + block_symbols(e, *then_block) + expr_symbols(e, **other)));
                }
            } else {
                proof {
                    assert(v2 =~= v0 + (expr_symbols(e, **condition) + block_symbols(e, *then_block) + Seq::<EntryView>::empty()));
                }
            }
        },
        ExprKind::Match { value, arms } => {
            expr(out, env, value);
            let ghost v1 = entries_view(out@);
            let none: Option<crate::ty::Type> = None;
            let mut i: usize = 0;
            proof {
                assert(arms@.subrange(0, 0) =~= Seq::<MatchArm>::empty());
                assert(v1 + arms_symbols(e, arms@.subrange(0, 0)) =~= v1);
            }
            while i < arms.len()
                invariant
                    x.kind matches ExprKind::Match { arms: a, .. } && a == *arms,
                    e == env.view(),
                    none is None,
                    0 <= i <= arms@.len(),
                    entries_view(out@) == v1 + arms_symbols(e, arms@.subrange(0, i as int)),
                decreases arms@.len() - i,
            {
                let ghost before = entries_view(out@);
                let ghost a = arms@[i as int];
                proof {
                    let next = arms@.subrange(0, i + 1);
                    assert(next.subrange(0, next.len() - 1) =~= arms@.subrange(0, i as int));
                    assert(next[next.len() - 1] == arms@[i as int]);
                    assert(decreases_to!(x.kind => x.kind->arms));
                    assert(decreases_to!(*arms => arms[i as int]));
                    assert(decreases_to!(arms[i as int] => arms[i as int].body));
                    assert(decreases_to!(*x => arms[i as int].body));
                }
                let arm = &arms[i];
                pattern(out, env, &arm.pattern, &none);
                let ghost p1 = entries_view(out@);
                let ghost guard = match a.guard {
                    Some(g) => expr_symbols(e, g),
                    None => Seq::<EntryView>::empty(),
                };
                if let Some(g) = &arm.guard {
                    proof {
                        assert(decreases_to!(arms[i as int] => arms[i as int].guard));
                        assert(decreases_to!(*x => *g));
                    }
                    expr(out, env, g);
                } else {
                    proof {
                        assert(entries_view(out@) =~= p1 + guard);
                    }
                }
                let ghost p2 = entries_view(out@);
                expr(out, env, &arm.body);
                proof {
                    assert(p2 + expr_symbols(e, a.body) =~= v1 + arms_symbols(e, arms@.subrange(0, i + 1)));
                }
                i = i + 1;
            }
            proof {
                assert(arms@.subrange(0, i as int) =~= arms@);
                assert(entries_view(out@) =~= v0 + (expr_symbols(e, **value) + arms_symbols(e, arms@)));
            }
        },
        ExprKind::Block(b) => {
            block(out, env, b);
        },
        ExprKind::Literal(_) => {
            proof {
                assert(entries_view(out@) =~= v0 + Seq::<EntryView>::empty());
            }
        },
    }
}


// ---------------------------------------------------------------------
// Items
// ---------------------------------------------------------------------

pub open spec fn fn_entry_kind(k: FunctionKind) -> SymbolEntryKind {
    match k {
        FunctionKind::Normal => SymbolEntryKind::Function,
        FunctionKind::Export => SymbolEntryKind::ExportFunction,
        FunctionKind::Extern => SymbolEntryKind::ExternFunction,
    }
}

/// A parameter of the function called `owner`, detailed by its type.
pub open spec fn param_symbol(env: IndexEnv, owner: Seq<char>, p: FunctionParam) -> EntryView {
    EntryView {
        name: p.name@,
        kind: SymbolEntryKind::Parameter,
        span: p.span,
        selection_span: p.span,
        def_id: env.span_name_def(p.span, p.name@),
        detail: Some(type_text(p.ty.shape())),
        parent: Some(owner),
    }
}

pub open spec fn params_symbols(env: IndexEnv, owner: Seq<char>, ps: Seq<FunctionParam>) -> Seq<EntryView> {
    ps.map_values(|p: FunctionParam| param_symbol(env, owner, p))
}

pub open spec fn body_symbols(env: IndexEnv, b: Option<Block>) -> Seq<EntryView> {
    match b {
        Some(b) => block_symbols(env, b),
        None => seq![],
    }
}

/// A top-level function: itself (detailed by its signature), its
/// parameters, then its body.
pub open spec fn function_symbols(env: IndexEnv, item: Item, f: FunctionItem) -> Seq<EntryView> {
    seq![seeded(env, f.name@, fn_entry_kind(f.kind), item.span, item.id.0, Some(fn_signature(f)), None)]
        + params_symbols(env, f.name@, f.params@) + body_symbols(env, f.body)
}

/// A method of the struct called `owner`, spanning the whole struct item.
pub open spec fn method_symbols(env: IndexEnv, item_span: Span, owner: Seq<char>, m: FunctionItem) -> Seq<EntryView> {
    seq![EntryView {
        name: m.name@,
        kind: SymbolEntryKind::Function,
        span: item_span,
        selection_span: item_span,
        def_id: env.kind_name_def(DefKind::Method, m.name@),
        detail: Some(fn_signature(m)),
        parent: Some(owner),
    }] + params_symbols(env, m.name@, m.params@) + body_symbols(env, m.body)
}

pub open spec fn methods_symbols(env: IndexEnv, item_span: Span, owner: Seq<char>, ms: Seq<FunctionItem>) -> Seq<EntryView>
    decreases ms.len(),
{
    if ms.len() == 0 {
        seq![]
    } else {
        methods_symbols(env, item_span, owner, ms.drop_last()) + method_symbols(env, item_span, owner, ms.last())
    }
}

pub open spec fn field_symbol(env: IndexEnv, owner: Seq<char>, f: crate::ast::StructField) -> EntryView {
    EntryView {
        name: f.name@,
        kind: SymbolEntryKind::Field,
        span: f.span,
        selection_span: f.span,
        def_id: env.kind_name_def(DefKind::Field, f.name@),
        detail: Some(type_text(f.ty.shape())),
        parent: Some(owner),
    }
}

/// A variant of the enum called `owner`, detailed as `Enum::Variant`.
pub open spec fn variant_symbol(env: IndexEnv, owner: Seq<char>, v: crate::ast::EnumVariant) -> EntryView {
    EntryView {
        name: v.name@,
        kind: SymbolEntryKind::Variant,
        span: v.span,
        selection_span: v.span,
        def_id: env.kind_name_def(DefKind::Variant, v.name@),
        detail: Some(owner + "::"@ + v.name@),
        parent: Some(owner),
    }
}

/// The entries of a top-level item, in source order.
pub open spec fn item_symbols(env: IndexEnv, item: Item) -> Seq<EntryView> {
    match item.kind {
        ItemKind::Struct(d) => seq![seeded(env, d.name@, SymbolEntryKind::Struct, item.span, item.id.0, None, None)]
            + d.fields@.map_values(|f: crate::ast::StructField| field_symbol(env, d.name@, f))
            + methods_symbols(env, item.span, d.name@, d.methods@),
        ItemKind::Enum(d) => seq![seeded(env, d.name@, SymbolEntryKind::Enum, item.span, item.id.0, None, None)]
            + d.variants@.map_values(|v: crate::ast::EnumVariant| variant_symbol(env, d.name@, v)),
        ItemKind::Const(c) => seq![seeded(env, c.name@, SymbolEntryKind::Const, item.span, item.id.0, Some(type_text(c.ty.shape())), None)],
        ItemKind::TypeAlias(t) => seq![seeded(env, t.name@, SymbolEntryKind::TypeAlias, item.span, item.id.0, Some(type_text(t.ty.shape())), None)],
        ItemKind::Function(f) => function_symbols(env, item, f),
    }
}

pub open spec fn items_symbols(env: IndexEnv, items: Seq<Item>) -> Seq<EntryView>
    decreases items.len(),
{
    if items.len() == 0 {
        seq![]
    } else {
        items_symbols(env, items.drop_last()) + item_symbols(env, items.last())
    }
}

/// Emits the entry of a declaration at `node` (see `seeded`).
fn push_seeded(
    out: &mut Vec<SymbolEntry>,
    env: &Env,
    name: &str,
    kind: SymbolEntryKind,
    span: Span,
    node: u32,
    detail: Option<String>,
    parent: Option<String>,
)
    ensures
        entries_view(final(out)@) == entries_view(old(out)@) + seq![seeded(env.view(), name@, kind, span, node, opt_view(detail), opt_view(parent))],
{
    let def_id = name_def(env, node);
    let detail = match detail {
        Some(d) => Some(d),
        None => type_detail(env, node),
    };
    emit(
        out,
        SymbolEntry {
            name: String::from_str(name),
            kind,
            span,
            selection_span: span,
            def_id,
            detail,
            parent,
        },
    );
}

fn params(out: &mut Vec<SymbolEntry>, env: &Env, owner: &str, ps: &Vec<FunctionParam>)
    ensures
        entries_view(final(out)@) == entries_view(old(out)@) + params_symbols(env.view(), owner@, ps@),
{
    let ghost v0 = entries_view(out@);
    let mut i: usize = 0;
    proof {
        assert(params_symbols(env.view(), owner@, ps@.take(0)) =~= Seq::<EntryView>::empty());
    }
    while i < ps.len()
        invariant
            0 <= i <= ps@.len(),
            entries_view(out@) == v0 + params_symbols(env.view(), owner@, ps@.take(i as int)),
        decreases ps@.len() - i,
    {
        let p = &ps[i];
        let def_id = def_for_span_name(env, p.span, p.name.as_str());
        let detail = type_to_string(&p.ty);
        emit(
            out,
            SymbolEntry {
                name: p.name.clone(),
                kind: SymbolEntryKind::Parameter,
                span: p.span,
                selection_span: p.span,
                def_id,
                detail: Some(detail),
                parent: Some(String::from_str(owner)),
            },
        );
        proof {
            assert(params_symbols(env.view(), owner@, ps@.take(i + 1)) =~= params_symbols(env.view(), owner@, ps@.take(i as int)).push(
                param_symbol(env.view(), owner@, ps@[i as int]),
            ));
            assert(entries_view(out@) =~= v0 + params_symbols(env.view(), owner@, ps@.take(i + 1)));
        }
        i = i + 1;
    }
    proof {
        assert(ps@.take(i as int) =~= ps@);
    }
}

fn body(out: &mut Vec<SymbolEntry>, env: &Env, b: &Option<Block>)
    ensures
        entries_view(final(out)@) == entries_view(old(out)@) + body_symbols(env.view(), *b),
{
    match b {
        Some(b) => block(out, env, b),
        None => {
            proof {
                assert(entries_view(out@) =~= entries_view(old(out)@) + Seq::<EntryView>::empty());
            }
        },
    }
}

fn function(out: &mut Vec<SymbolEntry>, env: &Env, item: &Item, f: &FunctionItem)
    ensures
        entries_view(final(out)@) == entries_view(old(out)@) + function_symbols(env.view(), *item, *f),
{
    let ghost v0 = entries_view(out@);
    let kind = match f.kind {
        FunctionKind::Normal => SymbolEntryKind::Function,
        FunctionKind::Export => SymbolEntryKind::ExportFunction,
        FunctionKind::Extern => SymbolEntryKind::ExternFunction,
    };
    let signature = function_signature(f);
    push_seeded(out, env, f.name.as_str(), kind, item.span, item.id.0, Some(signature), None);
    let ghost v1 = entries_view(out@);
    params(out, env, f.name.as_str(), &f.params);
    let ghost v2 = entries_view(out@);
    body(out, env, &f.body);
    proof {
        assert(entries_view(out@) =~= v0 + function_symbols(env.view(), *item, *f));
    }
}

fn struct_method(out: &mut Vec<SymbolEntry>, env: &Env, item_span: Span, owner: &str, m: &FunctionItem)
    ensures
        entries_view(final(out)@) == entries_view(old(out)@) + method_symbols(env.view(), item_span, owner@, *m),
{
    let ghost v0 = entries_view(out@);
    let def_id = def_for_kind_name(env, DefKind::Method, m.name.as_str());
    let signature = function_signature(m);
    emit(
        out,
        SymbolEntry {
            name: m.name.clone(),
            kind: SymbolEntryKind::Function,
            span: item_span,
            selection_span: item_span,
            def_id,
            detail: Some(signature),
            parent: Some(String::from_str(owner)),
        },
    );
    params(out, env, m.name.as_str(), &m.params);
    body(out, env, &m.body);
    proof {
        assert(entries_view(out@) =~= v0 + method_symbols(env.view(), item_span, owner@, *m));
    }
}

fn item(out: &mut Vec<SymbolEntry>, env: &Env, it: &Item)
    ensures
        entries_view(final(out)@) == entries_view(old(out)@) + item_symbols(env.view(), *it),
{
    let ghost v0 = entries_view(out@);
    let ghost e = env.view();
    match &it.kind {
        ItemKind::Struct(data) => {
            push_seeded(out, env, data.name.as_str(), SymbolEntryKind::Struct, it.span, it.id.0, None, None);
            let ghost v1 = entries_view(out@);
            let ghost fields = data.fields@.map_values(|f: crate::ast::StructField| field_symbol(e, data.name@, f));
            let mut i: usize = 0;
            proof {
                assert(fields.take(0) =~= Seq::<EntryView>::empty());
            }
            while i < data.fields.len()
                invariant
                    0 <= i <= data.fields@.len(),
                    e == env.view(),
                    fields == data.fields@.map_values(|f: crate::ast::StructField| field_symbol(e, data.name@, f)),
                    entries_view(out@) == v1 + fields.take(i as int),
                decreases data.fields@.len() - i,
            {
                let field = &data.fields[i];
                let def_id = def_for_kind_name(env, DefKind::Field, field.name.as_str());
                let detail = type_to_string(&field.ty);
                emit(
                    out,
                    SymbolEntry {
                        name: field.name.clone(),
                        kind: SymbolEntryKind::Field,
                        span: field.span,
                        selection_span: field.span,
                        def_id,
                        detail: Some(detail),
                        parent: Some(data.name.clone()),
                    },
                );
                proof {
                    assert(fields.take(i + 1) =~= fields.take(i as int).push(fields[i as int]));
                }
                i = i + 1;
            }
            proof {
                assert(fields.take(i as int) =~= fields);
            }
            let ghost v2 = entries_view(out@);
            let mut j: usize = 0;
            proof {
                assert(data.methods@.take(0) =~= Seq::<FunctionItem>::empty());
                assert(v2 + methods_symbols(e, it.span, data.name@, data.methods@.take(0)) =~= v2);
            }
            while j < data.methods.len()
                invariant
                    0 <= j <= data.methods@.len(),
                    e == env.view(),
                    entries_view(out@) == v2 + methods_symbols(e, it.span, data.name@, data.methods@.take(j as int)),
                decreases data.methods@.len() - j,
            {
                proof {
                    assert(data.methods@.take(j + 1).drop_last() =~= data.methods@.take(j as int));
                    assert(data.methods@.take(j + 1).last() == data.methods@[j as int]);
                }
                let ghost before = entries_view(out@);
                struct_method(out, env, it.span, data.name.as_str(), &data.methods[j]);
                proof {
                    assert(before + method_symbols(e, it.span, data.name@, data.methods@[j as int])
                        =~= v2 + methods_symbols(e, it.span, data.name@, data.methods@.take(j + 1)));
                }
                j = j + 1;
            }
            proof {
                assert(data.methods@.take(j as int) =~= data.methods@);
                assert(entries_view(out@) =~= v0 + item_symbols(e, *it));
            }
        },
        ItemKind::Enum(data) => {
            push_seeded(out, env, data.name.as_str(), SymbolEntryKind::Enum, it.span, it.id.0, None, None);
            let ghost v1 = entries_view(out@);
            let ghost variants = data.variants@.map_values(|v: crate::ast::EnumVariant| variant_symbol(e, data.name@, v));
            let mut i: usize = 0;
            proof {
                assert(variants.take(0) =~= Seq::<EntryView>::empty());
                reveal_strlit("::");
            }
            while i < data.variants.len()
                invariant
                    0 <= i <= data.variants@.len(),
                    e == env.view(),
                    variants == data.variants@.map_values(|v: crate::ast::EnumVariant| variant_symbol(e, data.name@, v)),
                    entries_view(out@) == v1 + variants.take(i as int),
                    "::"@ == seq![':', ':'],
                decreases data.variants@.len() - i,
            {
                let variant = &data.variants[i];
                let def_id = def_for_kind_name(env, DefKind::Variant, variant.name.as_str());
                let mut text: Vec<char> = Vec::new();
                push_str(&mut text, data.name.as_str());
                push_str(&mut text, "::");
                push_str(&mut text, variant.name.as_str());
                let detail = string_from_chars(&text);
                emit(
                    out,
                    SymbolEntry {
                        name: variant.name.clone(),
                        kind: SymbolEntryKind::Variant,
                        span: variant.span,
                        selection_span: variant.span,
                        def_id,
                        detail: Some(detail),
                        parent: Some(data.name.clone()),
                    },
                );
                proof {
                    assert(variants.take(i + 1) =~= variants.take(i as int).push(variants[i as int]));
                }
                i = i + 1;
            }
            proof {
                assert(variants.take(i as int) =~= variants);
                assert(entries_view(out@) =~= v0 + item_symbols(e, *it));
            }
        },
        ItemKind::Const(data) => {
            let detail = type_to_string(&data.ty);
            push_seeded(out, env, data.name.as_str(), SymbolEntryKind::Const, it.span, it.id.0, Some(detail), None);
        },
        ItemKind::TypeAlias(data) => {
            let detail = type_to_string(&data.ty);
            push_seeded(out, env, data.name.as_str(), SymbolEntryKind::TypeAlias, it.span, it.id.0, Some(detail), None);
        },
        ItemKind::Function(f) => {
            function(out, env, it, f);
        },
    }
}

/// Every symbol entry of `ast`, in source order.
pub fn build_symbol_index(ast: &Ast, resolved: &Option<LspResolved>, type_index: &TypeIndex) -> (r: SymbolIndex)
    ensures
        entries_view(r.entries@) == items_symbols(
            IndexEnv { resolved: *resolved, types: type_index.types@.map_values(|s: String| s@) },
            ast.items@,
        ),
{
    let env = Env { resolved, type_index };
    let ghost e = env.view();
    let mut entries: Vec<SymbolEntry> = Vec::new();
    let mut i: usize = 0;
    proof {
        assert(ast.items@.take(0) =~= Seq::<Item>::empty());
        assert(entries_view(entries@) =~= Seq::<EntryView>::empty());
    }
    while i < ast.items.len()
        invariant
            0 <= i <= ast.items@.len(),
            e == env.view(),
            entries_view(entries@) == items_symbols(e, ast.items@.take(i as int)),
        decreases ast.items@.len() - i,
    {
        proof {
            assert(ast.items@.take(i + 1).drop_last() =~= ast.items@.take(i as int));
            assert(ast.items@.take(i + 1).last() == ast.items@[i as int]);
        }
        item(&mut entries, &env, &ast.items[i]);
        i = i + 1;
    }
    proof {
        assert(ast.items@.take(i as int) =~= ast.items@);
    }
    SymbolIndex { entries }
}

} // verus!
