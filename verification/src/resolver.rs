use vstd::prelude::*;

use std::collections::HashMap;

use crate::ast::{Ast, Block, Expr, ExprKind, FieldInit, FunctionItem, FunctionKind, FunctionParam, Item, ItemKind, MatchArm, Pattern, PatternKind, Stmt, StmtKind};
use crate::chars::{push_str, string_from_chars};
use crate::def::{Def, DefId, DefKind};
use crate::diagnostic::{Diagnostic, Severity};
use crate::resolver_error::{diagnostic, reported_as, ResolverErrorCode};
use crate::diagnostic::coded_message;
use crate::scope::{lookup_in, ScopeStack};
use crate::span::{Span, Symbol};
use crate::symbol_table::{is_owner_of, members_view, unique_member, SymbolTable};
use crate::ty::Path;

verus! {

broadcast use vstd::std_specs::hash::group_hash_axioms;

// ---------------------------------------------------------------------
// What resolution keeps true
// ---------------------------------------------------------------------

/// Every id of `m` names a recorded definition.
pub open spec fn ids_valid(m: Map<u32, DefId>, defs: Seq<Def>) -> bool {
    forall|k: u32| #[trigger] m.contains_key(k) ==> m[k].0 < defs.len()
}

/// Every id of `m` names a recorded definition of kind `kind`.
pub open spec fn ids_of_kind(m: Map<u32, DefId>, defs: Seq<Def>, kind: DefKind) -> bool {
    forall|k: u32| #[trigger] m.contains_key(k) ==> m[k].0 < defs.len() && defs[m[k].0 as int].kind == kind
}

/// Every id of `m` names a recorded callable definition.
pub open spec fn ids_callable(m: Map<u32, DefId>, defs: Seq<Def>) -> bool {
    forall|k: u32| #[trigger] m.contains_key(k) ==> m[k].0 < defs.len() && defs[m[k].0 as int].kind.spec_is_callable()
}

/// Every member of the tables `t` is a recorded definition of kind `kind`.
pub open spec fn members_of_kind(t: Map<u32, Map<u32, DefId>>, defs: Seq<Def>, kind: DefKind) -> bool {
    forall|o: u32, n: u32| #[trigger] is_owner_of(t, o, n) ==> t[o][n].0 < defs.len() && defs[t[o][n].0 as int].kind == kind
}

/// Every binding of the scopes names a recorded definition.
pub open spec fn scopes_valid(scopes: Seq<Map<u32, DefId>>, defs: Seq<Def>) -> bool {
    forall|i: int| 0 <= i < scopes.len() ==> ids_valid(#[trigger] scopes[i], defs)
}

/// A well-kept symbol table: names interned once, each definition's id its
/// position, globals recorded, fields, methods and variants of their kind.
pub open spec fn table_valid(t: SymbolTable) -> bool {
    &&& t.wf()
    &&& forall|i: int| 0 <= i < t.defs@.len() ==> (#[trigger] t.defs@[i]).id.0 == i
    &&& ids_valid(t.globals@, t.defs@)
    &&& members_of_kind(members_view(t.struct_fields), t.defs@, DefKind::Field)
    &&& members_of_kind(members_view(t.struct_methods), t.defs@, DefKind::Method)
    &&& members_of_kind(members_view(t.enum_variants), t.defs@, DefKind::Variant)
}

/// What the resolution maps promise: names resolve to recorded
/// definitions, calls to callable ones, fields to fields, variants to
/// variants.
pub open spec fn resolution_sound(
    t: SymbolTable,
    names: Map<u32, DefId>,
    calls: Map<u32, DefId>,
    fields: Map<u32, DefId>,
    variants: Map<u32, DefId>,
) -> bool {
    &&& table_valid(t)
    &&& ids_valid(names, t.defs@)
    &&& ids_callable(calls, t.defs@)
    &&& ids_of_kind(fields, t.defs@, DefKind::Field)
    &&& ids_of_kind(variants, t.defs@, DefKind::Variant)
}

/// The member a name lookup finds is one of the tables' members.
pub proof fn lemma_unique_member_is_member(t: Map<u32, Map<u32, DefId>>, name: u32)
    ensures
        unique_member(t, name) matches Some(d) ==> exists|o: u32| is_owner_of(t, o, name) && t[o][name] == d,
{
    if unique_member(t, name) is Some {
        let o = choose|o: u32|
            is_owner_of(t, o, name) && forall|o2: u32| #[trigger] is_owner_of(t, o2, name) ==> o2 == o;
        assert(is_owner_of(t, o, name) && t[o][name] == unique_member(t, name).unwrap());
    }
}

/// The name of a top-level item and the kind of definition it makes.
pub open spec fn spec_global_def(item: Item) -> (Seq<char>, DefKind) {
    match item.kind {
        ItemKind::Struct(s) => (s.name@, DefKind::Struct),
        ItemKind::Enum(e) => (e.name@, DefKind::Enum),
        ItemKind::Const(c) => (c.name@, DefKind::Const),
        ItemKind::TypeAlias(t) => (t.name@, DefKind::TypeAlias),
        ItemKind::Function(f) => (f.name@, match f.kind {
            FunctionKind::Normal => DefKind::Function,
            FunctionKind::Export => DefKind::ExportFunction,
            FunctionKind::Extern => DefKind::ExternFunction,
        }),
    }
}

fn global_def(item: &Item) -> (r: (&str, DefKind))
    ensures
        (r.0@, r.1) == spec_global_def(*item),
{
    match &item.kind {
        ItemKind::Struct(s) => (s.name.as_str(), DefKind::Struct),
        ItemKind::Enum(e) => (e.name.as_str(), DefKind::Enum),
        ItemKind::Const(c) => (c.name.as_str(), DefKind::Const),
        ItemKind::TypeAlias(t) => (t.name.as_str(), DefKind::TypeAlias),
        ItemKind::Function(f) => {
            let kind = match f.kind {
                FunctionKind::Normal => DefKind::Function,
                FunctionKind::Export => DefKind::ExportFunction,
                FunctionKind::Extern => DefKind::ExternFunction,
            };
            (f.name.as_str(), kind)
        },
    }
}

/// The code reported when a global name is declared again: a clash
/// between a function and a type is dangerous, any other a duplicate.
pub open spec fn collision_code(previous: Option<DefKind>, kind: DefKind) -> ResolverErrorCode {
    match previous {
        Some(old) => if (old.spec_is_callable() && kind.spec_is_type_namespace()) || (old.spec_is_type_namespace()
            && kind.spec_is_callable()) {
            ResolverErrorCode::DangerousNameCollision
        } else {
            ResolverErrorCode::DuplicateName
        },
        None => ResolverErrorCode::DuplicateName,
    }
}

/// How names are used where a path stands.
#[derive(Clone, Copy, Debug, PartialEq, Eq, Structural)]
pub enum NameUse {
    Value,
    Call,
    Type,
    Variant,
}

/// The code reported for a name that cannot be found.
pub open spec fn unknown_name_code(use_kind: NameUse) -> ResolverErrorCode {
    match use_kind {
        NameUse::Value => ResolverErrorCode::UnknownVariable,
        NameUse::Call => ResolverErrorCode::UnknownFunction,
        NameUse::Type => ResolverErrorCode::UnknownName,
        NameUse::Variant => ResolverErrorCode::UnknownName,
    }
}

/// The result of a successful resolution.
#[derive(Debug)]
pub struct ResolvedAst<'a> {
    pub ast: &'a Ast,
    pub symbols: SymbolTable,
    pub resolved_names: HashMap<u32, DefId>,
    pub resolved_calls: HashMap<u32, DefId>,
    pub resolved_fields: HashMap<u32, DefId>,
    pub resolved_variants: HashMap<u32, DefId>,
}

/// Resolves the names of a syntax tree.
pub struct Resolver<'a> {
    pub ast: &'a Ast,
    pub symbols: SymbolTable,
    pub scopes: ScopeStack,
    pub diagnostics: Vec<Diagnostic>,
    pub resolved_names: HashMap<u32, DefId>,
    pub resolved_calls: HashMap<u32, DefId>,
    pub resolved_fields: HashMap<u32, DefId>,
    pub resolved_variants: HashMap<u32, DefId>,
}

impl<'a> Resolver<'a> {
    /// The tables are well kept and every resolution recorded so far is
    /// sound.
    pub open spec fn wf(&self) -> bool {
        &&& resolution_sound(
            self.symbols,
            self.resolved_names@,
            self.resolved_calls@,
            self.resolved_fields@,
            self.resolved_variants@,
        )
        &&& scopes_valid(self.scopes@, self.symbols.defs@)
    }

    /// The tree being resolved.
    pub open spec fn tree(&self) -> &'a Ast {
        self.ast
    }

    /// What has been reported so far.
    pub open spec fn reported(&self) -> Seq<Diagnostic> {
        self.diagnostics@
    }

    /// A resolver for `ast` that has recorded nothing yet.
    pub fn new(ast: &'a Ast) -> (r: Self)
        ensures
            r.wf(),
            r.tree() == ast,
            r.reported().len() == 0,
            r.fresh(ast),
    {
        let r = Resolver {
            ast,
            symbols: SymbolTable::default(),
            scopes: ScopeStack::new(),
            diagnostics: Vec::new(),
            resolved_names: HashMap::new(),
            resolved_calls: HashMap::new(),
            resolved_fields: HashMap::new(),
            resolved_variants: HashMap::new(),
        };
        proof {
            assert(members_view(r.symbols.struct_fields) =~= Map::<u32, Map<u32, DefId>>::empty());
            assert(members_view(r.symbols.struct_methods) =~= Map::<u32, Map<u32, DefId>>::empty());
            assert(members_view(r.symbols.enum_variants) =~= Map::<u32, Map<u32, DefId>>::empty());
        }
        r
    }

    /// Whether `k` more names and definitions fit in 32-bit ids.
    fn room(&self, k: usize) -> (r: bool)
        ensures
            r == (self.symbols.names().len() + k < u32::MAX && self.symbols.defs@.len() + k < u32::MAX),
    {
        let names = self.symbols.strings.len();
        let defs = self.symbols.defs.len();
        k < 4294967295 && names < 4294967295 - k && defs < 4294967295 - k
    }
}


/// `a`, `b` and `c` run together.
pub(crate) fn concat3(a: &str, b: &str, c: &str) -> (r: String)
    ensures
        r@ == a@ + b@ + c@,
{
    let mut out: Vec<char> = Vec::new();
    push_str(&mut out, a);
    push_str(&mut out, b);
    push_str(&mut out, c);
    string_from_chars(&out)
}

impl<'a> Resolver<'a> {
    /// Everything but the diagnostics is as in `other`.
    pub open spec fn same_but_reported(&self, other: &Self) -> bool {
        &&& self.ast == other.ast
        &&& self.symbols == other.symbols
        &&& self.scopes@ == other.scopes@
        &&& self.resolved_names@ == other.resolved_names@
        &&& self.resolved_calls@ == other.resolved_calls@
        &&& self.resolved_fields@ == other.resolved_fields@
        &&& self.resolved_variants@ == other.resolved_variants@
    }

    /// Reports `message` with code `code` and a hint at `span`.
    fn push_with_hint(&mut self, code: ResolverErrorCode, message: &str, hint: &str, span: Span)
        requires
            old(self).wf(),
        ensures
            final(self).wf(),
            final(self).same_but_reported(&*old(self)),
            final(self).diagnostics@.len() == old(self).diagnostics@.len() + 1,
            final(self).extends(&*old(self)),
            reported_as(final(self).diagnostics@.last(), code, span),
    {
        let d0 = diagnostic(code, message, span);
        let d = d0.with_hint(hint);
        self.diagnostics.push(d);
        proof {
            let t = choose|t: Seq<char>| d0.message@ == coded_message(code.spec_code(), t);
            assert(d.message@ == coded_message(code.spec_code(), t));
            assert(self.diagnostics@.take(old(self).diagnostics@.len() as int) =~= old(self).diagnostics@);
        }
    }

    /// Interns `name`; nothing else changes.
    fn intern(&mut self, name: &str) -> (r: Symbol)
        requires
            old(self).wf(),
            old(self).symbols.names().len() < u32::MAX,
        ensures
            final(self).wf(),
            (final(self).symbols.names(), r.0 as int) == crate::symbol_table::intern_result(old(self).symbols.names(), name@),
            final(self).symbols.names().len() <= old(self).symbols.names().len() + 1,
            final(self).symbols.defs@ == old(self).symbols.defs@,
            final(self).symbols.globals@ == old(self).symbols.globals@,
            members_view(final(self).symbols.struct_fields) == members_view(old(self).symbols.struct_fields),
            members_view(final(self).symbols.struct_methods) == members_view(old(self).symbols.struct_methods),
            members_view(final(self).symbols.enum_variants) == members_view(old(self).symbols.enum_variants),
            final(self).ast == old(self).ast,
            final(self).scopes@ == old(self).scopes@,
            final(self).diagnostics@ == old(self).diagnostics@,
            final(self).resolved_names@ == old(self).resolved_names@,
            final(self).resolved_calls@ == old(self).resolved_calls@,
            final(self).resolved_fields@ == old(self).resolved_fields@,
            final(self).resolved_variants@ == old(self).resolved_variants@,
    {
        let r = self.symbols.intern(name);
        proof {
            assert(members_view(self.symbols.struct_fields) =~= members_view(old(self).symbols.struct_fields));
            assert(members_view(self.symbols.struct_methods) =~= members_view(old(self).symbols.struct_methods));
            assert(members_view(self.symbols.enum_variants) =~= members_view(old(self).symbols.enum_variants));
        }
        r
    }

    /// Records a new definition; its id is its position.
    fn add_def(&mut self, name: Symbol, kind: DefKind, span: Span) -> (r: DefId)
        requires
            old(self).wf(),
            old(self).symbols.defs@.len() < u32::MAX,
        ensures
            final(self).wf(),
            r.0 == old(self).symbols.defs@.len(),
            final(self).symbols.defs@ == old(self).symbols.defs@.push(Def { id: r, name, kind, span }),
            final(self).symbols.names() == old(self).symbols.names(),
            final(self).symbols.globals@ == old(self).symbols.globals@,
            members_view(final(self).symbols.struct_fields) == members_view(old(self).symbols.struct_fields),
            members_view(final(self).symbols.struct_methods) == members_view(old(self).symbols.struct_methods),
            members_view(final(self).symbols.enum_variants) == members_view(old(self).symbols.enum_variants),
            final(self).ast == old(self).ast,
            final(self).scopes@ == old(self).scopes@,
            final(self).diagnostics@ == old(self).diagnostics@,
            final(self).resolved_names@ == old(self).resolved_names@,
            final(self).resolved_calls@ == old(self).resolved_calls@,
            final(self).resolved_fields@ == old(self).resolved_fields@,
            final(self).resolved_variants@ == old(self).resolved_variants@,
    {
        let r = self.symbols.add_def(name, kind, span);
        proof {
            let defs = self.symbols.defs@;
            let od = old(self).symbols.defs@;
            assert(members_view(self.symbols.struct_fields) =~= members_view(old(self).symbols.struct_fields));
            assert(members_view(self.symbols.struct_methods) =~= members_view(old(self).symbols.struct_methods));
            assert(members_view(self.symbols.enum_variants) =~= members_view(old(self).symbols.enum_variants));
            assert forall|i: int| 0 <= i < defs.len() implies (#[trigger] defs[i]).id.0 == i by {
                if i < od.len() {
                    assert(defs[i] == od[i]);
                }
            }
            assert forall|i: int| 0 <= i < self.scopes@.len() implies ids_valid(#[trigger] self.scopes@[i], defs) by {
                assert(ids_valid(old(self).scopes@[i], od));
            }
            let fv = members_view(self.symbols.struct_fields);
            assert forall|o: u32, n: u32| #[trigger] is_owner_of(fv, o, n) implies fv[o][n].0 < defs.len() && defs[fv[o][n].0 as int].kind
                == DefKind::Field by {
                assert(defs[fv[o][n].0 as int] == od[fv[o][n].0 as int]);
            }
            let mv = members_view(self.symbols.struct_methods);
            assert forall|o: u32, n: u32| #[trigger] is_owner_of(mv, o, n) implies mv[o][n].0 < defs.len() && defs[mv[o][n].0 as int].kind
                == DefKind::Method by {
                assert(defs[mv[o][n].0 as int] == od[mv[o][n].0 as int]);
            }
            let vv = members_view(self.symbols.enum_variants);
            assert forall|o: u32, n: u32| #[trigger] is_owner_of(vv, o, n) implies vv[o][n].0 < defs.len() && defs[vv[o][n].0 as int].kind
                == DefKind::Variant by {
                assert(defs[vv[o][n].0 as int] == od[vv[o][n].0 as int]);
            }
            assert forall|k: u32| #[trigger] self.resolved_calls@.contains_key(k) implies self.resolved_calls@[k].0 < defs.len()
                && defs[self.resolved_calls@[k].0 as int].kind.spec_is_callable() by {
                assert(defs[self.resolved_calls@[k].0 as int] == od[self.resolved_calls@[k].0 as int]);
            }
            assert forall|k: u32| #[trigger] self.resolved_fields@.contains_key(k) implies self.resolved_fields@[k].0 < defs.len()
                && defs[self.resolved_fields@[k].0 as int].kind == DefKind::Field by {
                assert(defs[self.resolved_fields@[k].0 as int] == od[self.resolved_fields@[k].0 as int]);
            }
            assert forall|k: u32| #[trigger] self.resolved_variants@.contains_key(k) implies self.resolved_variants@[k].0 < defs.len()
                && defs[self.resolved_variants@[k].0 as int].kind == DefKind::Variant by {
                assert(defs[self.resolved_variants@[k].0 as int] == od[self.resolved_variants@[k].0 as int]);
            }
        }
        r
    }

    /// The global definition of `name`, interning it.
    fn global_def_id(&mut self, name: &str) -> (r: Option<DefId>)
        requires
            old(self).wf(),
            old(self).symbols.names().len() < u32::MAX,
        ensures
            final(self).wf(),
            final(self).symbols.names().len() <= old(self).symbols.names().len() + 1,
            old(self).interned(&*final(self), name@),
            r matches Some(d) ==> d.0 < final(self).symbols.defs@.len(),
            r == old(self).global_lookup(name@),
    {
        let symbol = self.intern(name);
        match self.symbols.globals.get(&symbol.0) {
            Some(d) => Some(*d),
            None => None,
        }
    }

    /// Reports a global declared twice.
    fn report_global_collision(&mut self, symbol: Symbol, kind: DefKind, previous: DefId, span: Span)
        requires
            old(self).wf(),
        ensures
            final(self).wf(),
            final(self).extends(&*old(self)),
            final(self).same_but_reported(&*old(self)),
            final(self).diagnostics@.len() == old(self).diagnostics@.len() + 1,
            reported_as(
                final(self).diagnostics@.last(),
                collision_code(
                    if previous.0 < old(self).symbols.defs@.len() {
                        Some(old(self).symbols.defs@[previous.0 as int].kind)
                    } else {
                        None
                    },
                    kind,
                ),
                span,
            ),
    {
        let previous_kind = match self.symbols.def(previous) {
            Some(def) => Some(def.kind),
            None => None,
        };
        let dangerous = match previous_kind {
            Some(old) => (old.is_function_namespace() && kind.is_type_namespace()) || (old.is_type_namespace()
                && kind.is_function_namespace()),
            None => false,
        };
        let code = if dangerous {
            ResolverErrorCode::DangerousNameCollision
        } else {
            ResolverErrorCode::DuplicateName
        };
        let function_first = match previous_kind {
            Some(old) => old.is_function_namespace(),
            None => false,
        };
        let hint = if function_first {
            "`fn` and `struct` items cannot share the same name."
        } else {
            "Consider renaming one of the items."
        };
        let message = concat3("the name `", self.symbols.name(symbol), "` is defined multiple times");
        self.push_with_hint(code, message.as_str(), hint, span);
    }
}


impl<'a> Resolver<'a> {
    /// `self` came from `other` by resolution steps: same tree, the same
    /// reports and perhaps more.
    pub open spec fn extends(&self, other: &Self) -> bool {
        &&& self.ast == other.ast
        &&& other.symbols.defs@.len() <= self.symbols.defs@.len()
        &&& forall|i: int| 0 <= i < other.symbols.defs@.len() ==> #[trigger] self.symbols.defs@[i] == other.symbols.defs@[i]
        &&& other.diagnostics@.len() <= self.diagnostics@.len()
        &&& forall|i: int| 0 <= i < other.diagnostics@.len() ==> #[trigger] self.diagnostics@[i] == other.diagnostics@[i]
    }

    /// Only the innermost scope may differ from `other`'s.
    pub open spec fn same_outer_scopes(&self, other: &Self) -> bool {
        &&& self.scopes@.len() == other.scopes@.len()
        &&& self.scopes@.drop_last() == other.scopes@.drop_last()
    }

    /// Reports `message` with code `code` at `span`.
    fn push(&mut self, code: ResolverErrorCode, message: &str, span: Span)
        requires
            old(self).wf(),
        ensures
            final(self).wf(),
            final(self).same_but_reported(&*old(self)),
            final(self).extends(&*old(self)),
            final(self).diagnostics@.len() == old(self).diagnostics@.len() + 1,
            final(self).diagnostics@.last().message@ == crate::diagnostic::coded_message(code.spec_code(), message@),
            reported_as(final(self).diagnostics@.last(), code, span),
    {
        let d = diagnostic(code, message, span);
        self.diagnostics.push(d);
        proof {
            assert(self.diagnostics@.take(old(self).diagnostics@.len() as int) =~= old(self).diagnostics@);
        }
    }

    fn report_unknown_name(&mut self, name: &str, span: Span, use_kind: NameUse)
        requires
            old(self).wf(),
        ensures
            final(self).wf(),
            final(self).same_but_reported(&*old(self)),
            final(self).extends(&*old(self)),
            final(self).diagnostics@.len() == old(self).diagnostics@.len() + 1,
            reported_as(final(self).diagnostics@.last(), unknown_name_code(use_kind), span),
    {
        let code = match use_kind {
            NameUse::Value => ResolverErrorCode::UnknownVariable,
            NameUse::Call => ResolverErrorCode::UnknownFunction,
            NameUse::Type | NameUse::Variant => ResolverErrorCode::UnknownName,
        };
        let message = concat3("cannot find `", name, "` in this scope");
        self.push_with_hint(code, message.as_str(), "Is it defined or imported?", span);
    }

    /// Resolves a one-segment name at `node`: a local (for values and
    /// calls), else a global, else (in a pattern) a variant declared by one
    /// enum only; otherwise it is reported.
    fn resolve_single_segment(&mut self, name: &str, node: u32, span: Span, use_kind: NameUse) -> (r: Option<DefId>)
        requires
            old(self).wf(),
        ensures
            final(self).wf(),
            final(self).extends(&*old(self)),
            final(self).scopes@ == old(self).scopes@,
            r matches Some(d) ==> d.0 < final(self).symbols.defs@.len(),
            old(self).room_for(1) ==> r == old(self).single_result(name@, use_kind),
            final(self).symbols.defs@ == old(self).symbols.defs@,
            r is Some ==> final(self).diagnostics@ == old(self).diagnostics@,
            r is None && old(self).room_for(1) ==> final(self).diagnostics@.len() == old(self).diagnostics@.len() + 1
                && reported_as(final(self).diagnostics@.last(), unknown_name_code(use_kind), span),
            final(self).resolved_calls@ == old(self).resolved_calls@,
            r is None ==> final(self).resolved_names@ == old(self).resolved_names@,
            use_kind != NameUse::Variant ==> (r matches Some(d) ==> final(self).resolved_names@ == old(self).resolved_names@.insert(node, d)),
    {
        if !self.room(1) {
            return None;
        }
        let symbol = self.intern(name);
        if use_kind == NameUse::Value || use_kind == NameUse::Call {
            if let Some(local) = self.scopes.lookup(symbol) {
                proof {
                    self.lemma_lookup_valid(symbol.0);
                }
                self.resolved_names.insert(node, local);
                return Some(local);
            }
        }
        if let Some(global) = self.symbols.globals.get(&symbol.0) {
            let g = *global;
            self.resolved_names.insert(node, g);
            return Some(g);
        }
        if use_kind == NameUse::Variant {
            if let Some(variant) = self.symbols.find_variant_by_name(symbol) {
                proof {
                    lemma_unique_member_is_member(members_view(self.symbols.enum_variants), symbol.0);
                }
                self.resolved_variants.insert(node, variant);
                return Some(variant);
            }
        }
        self.report_unknown_name(name, span, use_kind);
        None
    }

    /// What a one-segment name resolves to: a local (for values and calls),
    /// else a global, else (in a pattern) a variant declared by one enum only.
    pub open spec fn single_result(&self, name: Seq<char>, use_kind: NameUse) -> Option<DefId> {
        let sym = crate::symbol_table::intern_result(self.symbols.names(), name).1 as u32;
        let local = if use_kind == NameUse::Value || use_kind == NameUse::Call {
            lookup_in(self.scopes@, sym)
        } else {
            None
        };
        match local {
            Some(l) => Some(l),
            None => if self.symbols.globals@.contains_key(sym) {
                Some(self.symbols.globals@[sym])
            } else if use_kind == NameUse::Variant {
                unique_member(members_view(self.symbols.enum_variants), sym)
            } else {
                None
            },
        }
    }

    /// What `owner::member` resolves to: a variant of the enum `owner`, else
    /// a method of the struct `owner`.
    pub open spec fn qualified_result(&self, owner: Seq<char>, member: Seq<char>) -> Option<DefId> {
        let (names1, t) = crate::symbol_table::intern_result(self.symbols.names(), owner);
        let m = crate::symbol_table::intern_result(names1, member).1 as u32;
        let ts = t as u32;
        if !self.symbols.globals@.contains_key(ts) {
            None
        } else {
            let td = self.symbols.globals@[ts].0;
            let vs = members_view(self.symbols.enum_variants);
            let ms = members_view(self.symbols.struct_methods);
            if vs.contains_key(td) && vs[td].contains_key(m) {
                Some(vs[td][m])
            } else if ms.contains_key(td) && ms[td].contains_key(m) {
                Some(ms[td][m])
            } else {
                None
            }
        }
    }

    /// Whether `k` more names and definitions fit in 32-bit ids.
    pub open spec fn room_for(&self, k: int) -> bool {
        self.symbols.names().len() + k < u32::MAX && self.symbols.defs@.len() + k < u32::MAX
    }

    proof fn lemma_lookup_valid(&self, name: u32)
        requires
            scopes_valid(self.scopes@, self.symbols.defs@),
        ensures
            lookup_in(self.scopes@, name) matches Some(d) ==> d.0 < self.symbols.defs@.len(),
    {
        lemma_lookup_in_valid(self.scopes@, self.symbols.defs@, name);
    }

    /// Resolves `Type::member` at `node`: a variant of the enum `Type`,
    /// else a method of the struct `Type`; otherwise it is reported.
    fn resolve_qualified_path(&mut self, owner_name: &str, member_name: &str, node: u32, span: Span) -> (r: Option<DefId>)
        requires
            old(self).wf(),
        ensures
            final(self).wf(),
            final(self).extends(&*old(self)),
            final(self).scopes@ == old(self).scopes@,
            r matches Some(d) ==> d.0 < final(self).symbols.defs@.len(),
            old(self).room_for(2) ==> r == old(self).qualified_result(owner_name@, member_name@),
            final(self).symbols.defs@ == old(self).symbols.defs@,
            r is Some ==> final(self).diagnostics@ == old(self).diagnostics@,
            r is None ==> final(self).diagnostics@.len() > old(self).diagnostics@.len() || !old(self).room_for(2),
            final(self).resolved_calls@ == old(self).resolved_calls@,
            r is None ==> final(self).resolved_names@ == old(self).resolved_names@,
    {
        if !self.room(2) {
            return None;
        }
        let type_symbol = self.intern(owner_name);
        let member_symbol = self.intern(member_name);
        let type_def = match self.symbols.globals.get(&type_symbol.0) {
            Some(d) => *d,
            None => {
                let message = concat3("cannot find type `", owner_name, "` in this scope");
                self.push_with_hint(
                    ResolverErrorCode::UnknownName,
                    message.as_str(),
                    "Make sure the type is defined (e.g. `struct` or `enum`).",
                    span,
                );
                return None;
            },
        };
        let variant = match self.symbols.enum_variants.get(&type_def.0) {
            Some(vs) => match vs.get(&member_symbol.0) {
                Some(v) => Some(*v),
                None => None,
            },
            None => None,
        };
        if let Some(v) = variant {
            proof {
                let t = members_view(self.symbols.enum_variants);
                assert(is_owner_of(t, type_def.0, member_symbol.0));
            }
            self.resolved_variants.insert(node, v);
            return Some(v);
        }
        let method = match self.symbols.struct_methods.get(&type_def.0) {
            Some(ms) => match ms.get(&member_symbol.0) {
                Some(m) => Some(*m),
                None => None,
            },
            None => None,
        };
        if let Some(m) = method {
            proof {
                let t = members_view(self.symbols.struct_methods);
                assert(is_owner_of(t, type_def.0, member_symbol.0));
            }
            self.resolved_names.insert(node, m);
            return Some(m);
        }
        let mut message: Vec<char> = Vec::new();
        push_str(&mut message, "no variant or associated item named `");
        push_str(&mut message, member_name);
        push_str(&mut message, "` found for enum `");
        push_str(&mut message, owner_name);
        push_str(&mut message, "`");
        let mut hint: Vec<char> = Vec::new();
        push_str(&mut hint, "Check if `");
        push_str(&mut hint, member_name);
        push_str(&mut hint, "` is correctly spelled and is a member of `");
        push_str(&mut hint, owner_name);
        push_str(&mut hint, "`.");
        let message = string_from_chars(&message);
        let hint = string_from_chars(&hint);
        self.push_with_hint(ResolverErrorCode::UnknownEnumVariant, message.as_str(), hint.as_str(), span);
        None
    }

    /// Resolves a path at `node` by its number of segments.
    fn resolve_path(&mut self, path: &Path, node: u32, use_kind: NameUse) -> (r: Option<DefId>)
        requires
            old(self).wf(),
        ensures
            final(self).wf(),
            final(self).extends(&*old(self)),
            final(self).scopes@ == old(self).scopes@,
            r matches Some(d) ==> d.0 < final(self).symbols.defs@.len(),
            path.segments@.len() == 0 ==> r is None && *final(self) == *old(self),
            path.segments@.len() == 1 && old(self).room_for(1) ==> r == old(self).single_result(path.segments@[0].name@, use_kind),
            path.segments@.len() == 2 && old(self).room_for(2) ==> r == old(self).qualified_result(
                path.segments@[0].name@,
                path.segments@[1].name@,
            ),
            path.segments@.len() > 2 ==> r is None && final(self).diagnostics@.len() == old(self).diagnostics@.len() + 1,
            final(self).symbols.defs@ == old(self).symbols.defs@,
            r is Some ==> final(self).diagnostics@ == old(self).diagnostics@,
            r is None && path.segments@.len() == 1 && old(self).room_for(1) ==> final(self).diagnostics@.len()
                == old(self).diagnostics@.len() + 1 && reported_as(
                final(self).diagnostics@.last(),
                unknown_name_code(use_kind),
                path.segments@[0].span,
            ),
            r is None && path.segments@.len() == 2 && old(self).room_for(2) ==> final(self).diagnostics@.len()
                > old(self).diagnostics@.len(),
            final(self).resolved_calls@ == old(self).resolved_calls@,
            r is None ==> final(self).resolved_names@ == old(self).resolved_names@,
            path.segments@.len() == 1 && use_kind != NameUse::Variant ==> (r matches Some(d)
                ==> final(self).resolved_names@ == old(self).resolved_names@.insert(node, d)),
    {
        let n = path.segments.len();
        if n == 0 {
            None
        } else if n == 1 {
            self.resolve_single_segment(path.segments[0].name.as_str(), node, path.segments[0].span, use_kind)
        } else if n == 2 {
            self.resolve_qualified_path(path.segments[0].name.as_str(), path.segments[1].name.as_str(), node, path.segments[1].span)
        } else {
            self.push(ResolverErrorCode::UnknownName, "paths with more than two segments are not supported yet", path.span);
            None
        }
    }
}

/// A binding the scopes find names a recorded definition.
pub proof fn lemma_lookup_in_valid(scopes: Seq<Map<u32, DefId>>, defs: Seq<Def>, name: u32)
    requires
        scopes_valid(scopes, defs),
    ensures
        lookup_in(scopes, name) matches Some(d) ==> d.0 < defs.len(),
    decreases scopes.len(),
{
    if scopes.len() > 0 {
        assert(ids_valid(scopes[scopes.len() - 1], defs));
        assert(scopes_valid(scopes.drop_last(), defs)) by {
            assert forall|i: int| 0 <= i < scopes.drop_last().len() implies ids_valid(#[trigger] scopes.drop_last()[i], defs) by {
                assert(scopes.drop_last()[i] == scopes[i]);
            }
        }
        lemma_lookup_in_valid(scopes.drop_last(), defs, name);
    }
}


impl<'a> Resolver<'a> {
    fn push_scope(&mut self)
        requires
            old(self).wf(),
        ensures
            final(self).wf(),
            final(self).same_but_scopes(&*old(self)),
            final(self).scopes@ == old(self).scopes@.push(Map::<u32, DefId>::empty()),
    {
        self.scopes.push();
        proof {
            assert forall|i: int| 0 <= i < self.scopes@.len() implies ids_valid(#[trigger] self.scopes@[i], self.symbols.defs@) by {
                if i < old(self).scopes@.len() {
                    assert(self.scopes@[i] == old(self).scopes@[i]);
                }
            }
        }
    }

    fn pop_scope(&mut self)
        requires
            old(self).wf(),
            old(self).scopes@.len() > 0,
        ensures
            final(self).wf(),
            final(self).same_but_scopes(&*old(self)),
            final(self).scopes@ == old(self).scopes@.drop_last(),
    {
        self.scopes.pop();
        proof {
            assert forall|i: int| 0 <= i < self.scopes@.len() implies ids_valid(#[trigger] self.scopes@[i], self.symbols.defs@) by {
                assert(self.scopes@[i] == old(self).scopes@[i]);
            }
        }
    }

    /// Everything but the scopes is as in `other`.
    pub open spec fn same_but_scopes(&self, other: &Self) -> bool {
        &&& self.ast == other.ast
        &&& self.symbols == other.symbols
        &&& self.diagnostics@ == other.diagnostics@
        &&& self.resolved_names@ == other.resolved_names@
        &&& self.resolved_calls@ == other.resolved_calls@
        &&& self.resolved_fields@ == other.resolved_fields@
        &&& self.resolved_variants@ == other.resolved_variants@
    }

    /// What resolving the one-segment name `name` written at `span` at
    /// `node` took `self` to `after` with: the binding found is recorded, or
    /// the name is reported as unknown (see `unknown_name_code`).
    pub open spec fn single_post(&self, after: &Self, name: Seq<char>, use_kind: NameUse, node: u32, span: Span) -> bool {
        match self.single_result(name, use_kind) {
            Some(d) => after.resolved_names@ == self.resolved_names@.insert(node, d) && after.diagnostics@
                == self.diagnostics@,
            None => after.resolved_names@ == self.resolved_names@ && after.diagnostics@.len() == self.diagnostics@.len()
                + 1 && reported_as(after.diagnostics@.last(), unknown_name_code(use_kind), span),
        }
    }

    /// Binding `name` at `node` in the innermost scope took `self` to `after`.
    pub open spec fn local_post(&self, after: &Self, name: Seq<char>, node: u32, span: Span) -> bool {
        &&& !self.room_for(1) ==> *after == *self
        &&& self.room_for(1) ==> ({
            let sym = crate::symbol_table::intern_result(self.symbols.names(), name).1 as u32;
            let d = DefId(self.symbols.defs@.len() as u32);
            &&& after.symbols.defs@ == self.symbols.defs@.push(Def { id: d, name: Symbol(sym), kind: DefKind::Local, span })
            &&& after.scopes@.last() == self.scopes@.last().insert(sym, d)
            &&& self.scopes@.last().contains_key(sym) ==> after.diagnostics@.len() == self.diagnostics@.len() + 1
                && after.resolved_names@ == self.resolved_names@
            &&& !self.scopes@.last().contains_key(sym) ==> after.diagnostics@ == self.diagnostics@
                && after.resolved_names@ == self.resolved_names@.insert(node, d)
        })
    }

    /// A resolver for `ast` that has recorded nothing: no names, no
    /// definitions, no scopes, no reports and no resolutions.
    pub open spec fn fresh(&self, ast: &'a Ast) -> bool {
        &&& self.ast == ast
        &&& self.symbols.names().len() == 0
        &&& self.symbols.defs@.len() == 0
        &&& self.symbols.globals@ == Map::<u32, DefId>::empty()
        &&& members_view(self.symbols.struct_fields) == Map::<u32, Map<u32, DefId>>::empty()
        &&& members_view(self.symbols.struct_methods) == Map::<u32, Map<u32, DefId>>::empty()
        &&& members_view(self.symbols.enum_variants) == Map::<u32, Map<u32, DefId>>::empty()
        &&& self.scopes@.len() == 0
        &&& self.diagnostics@.len() == 0
        &&& self.resolved_names@ == Map::<u32, DefId>::empty()
        &&& self.resolved_calls@ == Map::<u32, DefId>::empty()
        &&& self.resolved_fields@ == Map::<u32, DefId>::empty()
        &&& self.resolved_variants@ == Map::<u32, DefId>::empty()
    }

    /// Only the symbol table's names, definitions and globals, the reports
    /// and the resolved names may differ between `self` and `after`.
    pub open spec fn same_tables(&self, after: &Self) -> bool {
        &&& after.ast == self.ast
        &&& after.scopes@ == self.scopes@
        &&& members_view(after.symbols.struct_fields) == members_view(self.symbols.struct_fields)
        &&& members_view(after.symbols.struct_methods) == members_view(self.symbols.struct_methods)
        &&& members_view(after.symbols.enum_variants) == members_view(self.symbols.enum_variants)
        &&& after.resolved_calls@ == self.resolved_calls@
        &&& after.resolved_fields@ == self.resolved_fields@
        &&& after.resolved_variants@ == self.resolved_variants@
    }

    /// Collecting the global of `item` took `self` to `after`: its name is
    /// interned; a name not yet global gets a new definition of the item's
    /// kind at the item's span, recorded as the global of the name and as
    /// the resolution of the item; a name already global is reported (see
    /// `collision_code`) and keeps its definition. With no room for a
    /// further name or definition nothing changes.
    pub open spec fn global_step(&self, after: &Self, item: Item) -> bool {
        let (name, kind) = spec_global_def(item);
        if !self.room_for(1) {
            *after == *self
        } else {
            let (names1, k) = crate::symbol_table::intern_result(self.symbols.names(), name);
            let sym = k as u32;
            &&& after.symbols.names() == names1
            &&& self.same_tables(after)
            &&& if self.symbols.globals@.contains_key(sym) {
                let prev = self.symbols.globals@[sym];
                &&& after.symbols.defs@ == self.symbols.defs@
                &&& after.symbols.globals@ == self.symbols.globals@
                &&& after.resolved_names@ == self.resolved_names@
                &&& after.diagnostics@ == self.diagnostics@.push(after.diagnostics@.last())
                &&& reported_as(
                    after.diagnostics@.last(),
                    collision_code(Some(self.symbols.defs@[prev.0 as int].kind), kind),
                    item.span,
                )
            } else {
                let d = DefId(self.symbols.defs@.len() as u32);
                &&& after.symbols.defs@ == self.symbols.defs@.push(Def { id: d, name: Symbol(sym), kind, span: item.span })
                &&& after.symbols.globals@ == self.symbols.globals@.insert(sym, d)
                &&& after.resolved_names@ == self.resolved_names@.insert(item.id.0, d)
                &&& after.diagnostics@ == self.diagnostics@
            }
        }
    }

    /// `rs` collects the globals of `items` one item at a time.
    pub open spec fn globals_chain(rs: Seq<Self>, items: Seq<Item>) -> bool {
        &&& rs.len() == items.len() + 1
        &&& forall|j: int| 0 <= j < items.len() ==> (#[trigger] rs[j]).global_step(&rs[j + 1], items[j])
    }

    /// Collecting the globals took `self` to `after`: each item's name that
    /// is not yet global gets a new definition, a name declared again is
    /// reported and keeps its first definition, and no member table
    /// changes.
    pub open spec fn globals_collected(&self, after: &Self) -> bool {
        &&& exists|rs: Seq<Self>| #[trigger] Self::globals_chain(rs, self.ast.items@) && rs[0] == *self && rs.last() == *after
        &&& globals_grown(self.symbols.globals@, after.symbols.globals@, after.symbols.defs@, self.symbols.defs@.len() as int)
        &&& members_view(after.symbols.struct_fields) == members_view(self.symbols.struct_fields)
        &&& members_view(after.symbols.struct_methods) == members_view(self.symbols.struct_methods)
        &&& members_view(after.symbols.enum_variants) == members_view(self.symbols.enum_variants)
        &&& self.room_for(self.ast.items@.len() as int) ==> after.symbols.defs@.len() - self.symbols.defs@.len()
            + after.diagnostics@.len() - self.diagnostics@.len() == self.ast.items@.len()
    }

    /// Collecting the struct and enum members took `self` to `after`, one
    /// item at a time.
    pub open spec fn members_collected(&self, after: &Self) -> bool {
        exists|rs: Seq<Self>| #[trigger] Self::items_chain(rs, self.ast.items@) && rs[0] == *self && rs.last() == *after
    }

    /// Resolving the function and method bodies took `self` to `after`,
    /// one function at a time.
    pub open spec fn bodies_resolved(&self, after: &Self) -> bool {
        exists|rs: Seq<Self>|
            #[trigger] Self::functions_chain(rs, resolved_functions(self.ast.items@)) && rs[0] == *self && rs.last() == *after
    }

    /// The three passes took `self` to `after`: globals, then members, then
    /// bodies.
    pub open spec fn passes(&self, after: &Self) -> bool {
        exists|g: Self, m: Self|
            #![trigger self.globals_collected(&g), g.members_collected(&m)]
            self.globals_collected(&g) && g.members_collected(&m) && m.bodies_resolved(after)
    }

    /// What `resolve` gives from the state `fin` the passes end in: the
    /// reports when one of them is an error, else the tables.
    pub open spec fn outcome(&self, r: Result<ResolvedAst<'a>, Vec<Diagnostic>>) -> bool {
        match r {
            Ok(res) => !has_error(self.diagnostics@) && res.ast == self.ast && res.symbols == self.symbols
                && res.resolved_names@ == self.resolved_names@ && res.resolved_calls@ == self.resolved_calls@
                && res.resolved_fields@ == self.resolved_fields@ && res.resolved_variants@ == self.resolved_variants@,
            Err(ds) => has_error(self.diagnostics@) && ds@ == self.diagnostics@,
        }
    }

    /// Every definition `self` has beyond those of `before` is a local.
    pub open spec fn only_locals_added(&self, before: &Self) -> bool {
        forall|i: int|
            before.symbols.defs@.len() <= i < self.symbols.defs@.len() ==> (#[trigger] self.symbols.defs@[i]).kind
                == DefKind::Local
    }

    /// `after` is `self` with `name` interned.
    pub open spec fn interned(&self, after: &Self, name: Seq<char>) -> bool {
        &&& after.symbols.names() == crate::symbol_table::intern_result(self.symbols.names(), name).0
        &&& after.symbols.defs@ == self.symbols.defs@
        &&& after.symbols.globals@ == self.symbols.globals@
        &&& members_view(after.symbols.struct_fields) == members_view(self.symbols.struct_fields)
        &&& members_view(after.symbols.struct_methods) == members_view(self.symbols.struct_methods)
        &&& members_view(after.symbols.enum_variants) == members_view(self.symbols.enum_variants)
        &&& after.ast == self.ast
        &&& after.scopes@ == self.scopes@
        &&& after.diagnostics@ == self.diagnostics@
        &&& after.resolved_names@ == self.resolved_names@
        &&& after.resolved_calls@ == self.resolved_calls@
        &&& after.resolved_fields@ == self.resolved_fields@
        &&& after.resolved_variants@ == self.resolved_variants@
    }

    /// The global definition of `name`, if there is one.
    pub open spec fn global_lookup(&self, name: Seq<char>) -> Option<DefId> {
        let sym = crate::symbol_table::intern_result(self.symbols.names(), name).1 as u32;
        if self.symbols.globals@.contains_key(sym) {
            Some(self.symbols.globals@[sym])
        } else {
            None
        }
    }

    /// Collecting struct `data` under `struct_def` took `self` to `after`:
    /// its field and method tables are recorded, each mapping names to new
    /// definitions of those names.
    pub open spec fn struct_post(&self, after: &Self, item: Item, data: crate::ast::StructItem, struct_def: DefId) -> bool {
        let f = members_view(after.symbols.struct_fields);
        let m = members_view(after.symbols.struct_methods);
        let from = self.symbols.defs@.len() as int;
        &&& f.contains_key(struct_def.0) && members_fresh(f[struct_def.0], after.symbols.defs@, from)
        &&& ids_of_kind(f[struct_def.0], after.symbols.defs@, DefKind::Field)
        &&& kind_covered(f[struct_def.0], after.symbols.defs@, from, DefKind::Field)
        &&& m.contains_key(struct_def.0) && members_fresh(m[struct_def.0], after.symbols.defs@, from)
        &&& ids_of_kind(m[struct_def.0], after.symbols.defs@, DefKind::Method)
        &&& kind_covered(m[struct_def.0], after.symbols.defs@, from, DefKind::Method)
        &&& forall|i: int|
            from <= i < after.symbols.defs@.len() ==> (#[trigger] after.symbols.defs@[i]).kind == DefKind::Field
                || after.symbols.defs@[i].kind == DefKind::Method || after.symbols.defs@[i].kind == DefKind::Local
        &&& no_defaults(data.fields@) ==> forall|j: int|
            self.diagnostics@.len() <= j < after.diagnostics@.len() ==> field_report(#[trigger] after.diagnostics@[j], data.fields@)
                || reported_as(after.diagnostics@[j], ResolverErrorCode::DuplicateName, item.span)
    }

    /// Collecting enum `data` under `enum_def` took `self` to `after`: its
    /// variant table maps the name of each new definition, a variant, to
    /// it; each variant is defined or reported.
    pub open spec fn enum_post(&self, after: &Self, data: crate::ast::EnumItem, enum_def: DefId) -> bool {
        let t = members_view(after.symbols.enum_variants);
        &&& t == members_view(self.symbols.enum_variants).insert(enum_def.0, t[enum_def.0])
        &&& members_exact(t[enum_def.0], after.symbols.defs@, self.symbols.defs@.len() as int, DefKind::Variant)
        &&& members_view(after.symbols.struct_fields) == members_view(self.symbols.struct_fields)
        &&& members_view(after.symbols.struct_methods) == members_view(self.symbols.struct_methods)
        &&& after.symbols.globals@ == self.symbols.globals@
        &&& after.resolved_names@ == self.resolved_names@
        &&& self.room_for(data.variants@.len() as int) ==> after.symbols.defs@.len() - self.symbols.defs@.len()
            + after.diagnostics@.len() - self.diagnostics@.len() == data.variants@.len()
        &&& forall|j: int|
            self.diagnostics@.len() <= j < after.diagnostics@.len() ==> variant_report(#[trigger] after.diagnostics@[j], data.variants@)
    }

    /// Collecting the members of `item` took `self` to `after`: a struct or
    /// an enum that names a global gets its member tables; nothing else
    /// changes but the names interned.
    pub open spec fn item_members_post(&self, after: &Self, item: Item) -> bool {
        match item.kind {
            ItemKind::Struct(data) => if self.room_for(1) {
                exists|mid: Self| #[trigger] self.interned(&mid, data.name@) && match self.global_lookup(data.name@) {
                    Some(sd) => mid.struct_post(after, item, data, sd),
                    None => *after == mid,
                }
            } else {
                *after == *self
            },
            ItemKind::Enum(data) => if self.room_for(1) {
                exists|mid: Self| #[trigger] self.interned(&mid, data.name@) && match self.global_lookup(data.name@) {
                    Some(ed) => mid.enum_post(after, data, ed),
                    None => *after == mid,
                }
            } else {
                *after == *self
            },
            _ => *after == *self,
        }
    }

    /// `rs` collects the members of `items` one item at a time.
    pub open spec fn items_chain(rs: Seq<Self>, items: Seq<Item>) -> bool {
        &&& rs.len() == items.len() + 1
        &&& forall|j: int| 0 <= j < items.len() ==> (#[trigger] rs[j]).item_members_post(&rs[j + 1], items[j])
    }

    /// Binding parameter `param` in the innermost scope took `self` to
    /// `after`; a name bound twice is reported.
    pub open spec fn param_post(&self, after: &Self, param: FunctionParam) -> bool {
        &&& !self.room_for(1) ==> *after == *self
        &&& self.room_for(1) ==> ({
            let sym = crate::symbol_table::intern_result(self.symbols.names(), param.name@).1 as u32;
            let d = DefId(self.symbols.defs@.len() as u32);
            &&& after.symbols.defs@ == self.symbols.defs@.push(
                Def { id: d, name: Symbol(sym), kind: DefKind::Local, span: param.span },
            )
            &&& after.scopes@.last() == self.scopes@.last().insert(sym, d)
            &&& after.resolved_names@ == self.resolved_names@
            &&& after.diagnostics@.len() == self.diagnostics@.len() + if self.scopes@.last().contains_key(sym) {
                1int
            } else {
                0int
            }
        })
    }

    /// `rs` binds `params` one at a time.
    pub open spec fn params_chain(rs: Seq<Self>, params: Seq<FunctionParam>) -> bool {
        &&& rs.len() == params.len() + 1
        &&& forall|j: int| 0 <= j < params.len() ==> (#[trigger] rs[j]).param_post(&rs[j + 1], params[j])
    }

    /// Resolving a function with `params` and `body` took `self` to
    /// `after`: a scope is opened, the parameters bound in turn, the body
    /// resolved as a block, and the scope closed.
    pub open spec fn function_post(&self, after: &Self, params: Seq<FunctionParam>, body: Option<Block>) -> bool {
        exists|rs: Seq<Self>, y: Self|
            #![trigger Self::params_chain(rs, params), y.scope_closed(after)]
            Self::params_chain(rs, params) && self.scope_opened(&rs[0]) && match body {
                Some(b) => rs.last().block_post(&y, b),
                None => y == rs.last(),
            } && y.scope_closed(after)
    }

    /// `rs` resolves the functions `fs` one at a time.
    pub open spec fn functions_chain(rs: Seq<Self>, fs: Seq<FunctionItem>) -> bool {
        &&& rs.len() == fs.len() + 1
        &&& forall|j: int| 0 <= j < fs.len() ==> (#[trigger] rs[j]).function_post(&rs[j + 1], fs[j].params@, fs[j].body)
    }

    proof fn lemma_functions_chain_push(rs: Seq<Self>, fs: Seq<FunctionItem>, r: Self, f: FunctionItem)
        requires
            Self::functions_chain(rs, fs),
            rs.last().function_post(&r, f.params@, f.body),
        ensures
            Self::functions_chain(rs.push(r), fs.push(f)),
            rs.push(r)[0] == rs[0],
    {
        let rs1 = rs.push(r);
        let fs1 = fs.push(f);
        assert forall|j: int| 0 <= j < fs1.len() implies (#[trigger] rs1[j]).function_post(&rs1[j + 1], fs1[j].params@, fs1[j].body) by {
            if j < fs.len() {
                assert(rs1[j] == rs[j] && rs1[j + 1] == rs[j + 1] && fs1[j] == fs[j]);
            }
        }
    }

    /// Resolving expression `e` took `self` to `after`: a literal changes
    /// nothing, a one-segment path resolves as a value, a unary operand is
    /// resolved, binary operands, assignment sides and index parts are
    /// resolved left to right, and a field access resolves its base and
    /// then the field.
    pub open spec fn expr_post(&self, after: &Self, e: Expr) -> bool
        decreases e,
    {
        match e.kind {
            ExprKind::Literal(_) => *after == *self,
            ExprKind::Path(p) => p.segments@.len() == 1 && self.room_for(1) ==> self.single_post(
                after,
                p.segments@[0].name@,
                NameUse::Value,
                e.id.0,
                p.segments@[0].span,
            ),
            ExprKind::Unary { expr: inner, .. } => self.expr_post(after, *inner),
            ExprKind::Binary { left, right, .. } => exists|mid: Self|
                #[trigger] mid.stage() && self.expr_post(&mid, *left) && mid.expr_post(after, *right),
            ExprKind::Assign { target, value } => exists|mid: Self|
                #[trigger] mid.stage() && self.expr_post(&mid, *target) && mid.expr_post(after, *value),
            ExprKind::Index { base, index } => exists|mid: Self|
                #[trigger] mid.stage() && self.expr_post(&mid, *base) && mid.expr_post(after, *index),
            ExprKind::Field { base, field } => exists|mid: Self|
                #[trigger] mid.stage() && self.expr_post(&mid, *base) && mid.field_post(after, e.id.0, field@, e.span),
            _ => true,
        }
    }

    /// A state that a resolution step passes through.
    pub open spec fn stage(&self) -> bool {
        true
    }

    /// Resolving the field `field` of an access at `node` took `self` to
    /// `after`: the field of that name is recorded, provided one struct
    /// only declares it; otherwise it is reported as unknown at `span`.
    pub open spec fn field_post(&self, after: &Self, node: u32, field: Seq<char>, span: Span) -> bool {
        &&& !self.room_for(1) ==> *after == *self
        &&& self.room_for(1) ==> ({
            let sym = crate::symbol_table::intern_result(self.symbols.names(), field).1 as u32;
            match unique_member(members_view(self.symbols.struct_fields), sym) {
                Some(d) => after.resolved_fields@ == self.resolved_fields@.insert(node, d) && after.diagnostics@
                    == self.diagnostics@,
                None => after.resolved_fields@ == self.resolved_fields@ && after.diagnostics@.len() == self.diagnostics@.len()
                    + 1 && reported_as(after.diagnostics@.last(), ResolverErrorCode::UnknownField, span),
            }
        })
    }

    /// Binding pattern `p` took `self` to `after`: a wildcard binds
    /// nothing, a binding binds its name.
    pub open spec fn pattern_post(&self, after: &Self, p: Pattern) -> bool {
        &&& p.kind is Wildcard ==> *after == *self
        &&& p.kind matches PatternKind::Binding { name, .. } ==> self.local_post(after, name@, p.id.0, p.span)
    }

    /// Resolving statement `s` took `self` to `after`: an expression, or
    /// the value of a `return`, is resolved; a `let` resolves its value, if
    /// any, then binds its pattern; `break`, `continue` and an empty
    /// `return` change nothing.
    pub open spec fn stmt_post(&self, after: &Self, s: Stmt) -> bool {
        &&& s.kind matches StmtKind::Expr(e) ==> self.expr_post(after, e)
        &&& s.kind matches StmtKind::Semi(e) ==> self.expr_post(after, e)
        &&& s.kind is Break || s.kind is Continue || s.kind == StmtKind::Return(None) ==> *after == *self
        &&& s.kind matches StmtKind::Return(Some(e)) ==> self.expr_post(after, e)
        &&& s.kind matches StmtKind::Let { pattern, value, .. } ==> match value {
            None => self.pattern_post(after, pattern),
            Some(v) => exists|mid: Self| #[trigger] mid.stage() && self.expr_post(&mid, v) && mid.pattern_post(after, pattern),
        }
    }

    /// `rs` resolves `stmts` one statement at a time.
    pub open spec fn stmts_chain(rs: Seq<Self>, stmts: Seq<Stmt>) -> bool {
        &&& rs.len() == stmts.len() + 1
        &&& forall|j: int| 0 <= j < stmts.len() ==> (#[trigger] rs[j]).stmt_post(&rs[j + 1], stmts[j])
    }

    /// Resolving `stmts` in turn took `self` to `after`.
    pub open spec fn stmts_post(&self, after: &Self, stmts: Seq<Stmt>) -> bool {
        exists|rs: Seq<Self>| #[trigger] Self::stmts_chain(rs, stmts) && rs[0] == *self && rs.last() == *after
    }

    /// `rs` resolves `items` one expression at a time.
    pub open spec fn exprs_chain(rs: Seq<Self>, items: Seq<Expr>) -> bool {
        &&& rs.len() == items.len() + 1
        &&& forall|j: int| 0 <= j < items.len() ==> (#[trigger] rs[j]).expr_post(&rs[j + 1], items[j])
    }

    /// Resolving `items` in turn took `self` to `after`.
    pub open spec fn exprs_post(&self, after: &Self, items: Seq<Expr>) -> bool {
        exists|rs: Seq<Self>| #[trigger] Self::exprs_chain(rs, items) && rs[0] == *self && rs.last() == *after
    }

    /// `after` is `self` with a new, empty innermost scope.
    pub open spec fn scope_opened(&self, after: &Self) -> bool {
        after.same_but_scopes(self) && after.scopes@ == self.scopes@.push(Map::<u32, DefId>::empty())
    }

    /// `after` is `self` without its innermost scope.
    pub open spec fn scope_closed(&self, after: &Self) -> bool {
        after.same_but_scopes(self) && after.scopes@ == self.scopes@.drop_last()
    }

    /// Resolving block `b` took `self` to `after`: a scope is opened, the
    /// statements are resolved in turn, and the scope is closed.
    pub open spec fn block_post(&self, after: &Self, b: Block) -> bool {
        exists|x: Self, y: Self| #[trigger] x.stmts_post(&y, b.statements@) && self.scope_opened(&x) && y.scope_closed(after)
    }

    /// Resolving the guard, if any, and then the body of `arm` took `self`
    /// to `after`.
    pub open spec fn guard_body_post(&self, after: &Self, arm: MatchArm) -> bool {
        match arm.guard {
            None => self.expr_post(after, arm.body),
            Some(g) => exists|w: Self| #[trigger] self.expr_post(&w, g) && w.expr_post(after, arm.body),
        }
    }

    /// Resolving `arm` took `self` to `after`: a scope is opened, the
    /// pattern bound, guard and body resolved, and the scope closed.
    pub open spec fn arm_post(&self, after: &Self, arm: MatchArm) -> bool {
        exists|x: Self, y: Self, z: Self|
            #![trigger x.pattern_post(&y, arm.pattern), y.guard_body_post(&z, arm)]
            self.scope_opened(&x) && x.pattern_post(&y, arm.pattern) && y.guard_body_post(&z, arm) && z.scope_closed(after)
    }

    /// Binds `name` at `node` in the innermost scope; a name bound twice in
    /// one scope is reported.
    fn add_local(&mut self, name: &str, node: u32, span: Span)
        requires
            old(self).wf(),
            old(self).scopes@.len() > 0,
        ensures
            final(self).only_locals_added(&*old(self)),
            final(self).wf(),
            final(self).extends(&*old(self)),
            final(self).same_outer_scopes(&*old(self)),
            old(self).local_post(&*final(self), name@, node, span),
    {
        if !self.room(1) {
            return;
        }
        let symbol = self.intern(name);
        let def = self.add_def(symbol, DefKind::Local, span);
        let previous = self.scopes.insert_current(symbol, def);
        proof {
            self.lemma_scopes_after_insert(&*old(self), symbol.0, def);
        }
        if previous.is_some() {
            let message = concat3("cannot find value `", name, "` in this scope");
            self.push_with_hint(ResolverErrorCode::UnknownVariable, message.as_str(), "Have you declared it with `let`?", span);
        } else {
            self.resolved_names.insert(node, def);
        }
    }

    proof fn lemma_scopes_after_insert(&self, start: &Self, name: u32, def: DefId)
        requires
            start.scopes@.len() > 0,
            def.0 < self.symbols.defs@.len(),
            scopes_valid(start.scopes@, self.symbols.defs@),
            self.scopes@ == start.scopes@.update(start.scopes@.len() - 1, start.scopes@.last().insert(name, def)),
        ensures
            scopes_valid(self.scopes@, self.symbols.defs@),
            self.scopes@.len() == start.scopes@.len(),
            self.scopes@.drop_last() == start.scopes@.drop_last(),
    {
        assert forall|i: int| 0 <= i < self.scopes@.len() implies ids_valid(#[trigger] self.scopes@[i], self.symbols.defs@) by {
            if i < start.scopes@.len() - 1 {
                assert(self.scopes@[i] == start.scopes@[i]);
            } else {
                assert(ids_valid(start.scopes@[i], self.symbols.defs@));
            }
        }
        assert(self.scopes@.drop_last() =~= start.scopes@.drop_last());
    }

    /// Binds a parameter in the innermost scope; a name bound twice is
    /// reported.
    fn add_param(&mut self, param: &FunctionParam)
        requires
            old(self).wf(),
            old(self).scopes@.len() > 0,
        ensures
            final(self).only_locals_added(&*old(self)),
            final(self).wf(),
            final(self).extends(&*old(self)),
            final(self).same_outer_scopes(&*old(self)),
            old(self).param_post(&*final(self), *param),
    {
        if !self.room(1) {
            return;
        }
        let symbol = self.intern(param.name.as_str());
        let def = self.add_def(symbol, DefKind::Local, param.span);
        let previous = self.scopes.insert_current(symbol, def);
        proof {
            self.lemma_scopes_after_insert(&*old(self), symbol.0, def);
        }
        if previous.is_some() {
            let message = concat3("identifier `", param.name.as_str(), "` is bound more than once in this parameter list");
            self.push_with_hint(ResolverErrorCode::DuplicateName, message.as_str(), "Function parameters must have unique names.", param.span);
        }
    }

    /// Binds the names of a pattern; a path pattern resolves as a variant.
    fn bind_pattern(&mut self, pattern: &Pattern)
        requires
            old(self).wf(),
            old(self).scopes@.len() > 0,
        ensures
            final(self).only_locals_added(&*old(self)),
            final(self).wf(),
            final(self).extends(&*old(self)),
            final(self).same_outer_scopes(&*old(self)),
            old(self).pattern_post(&*final(self), *pattern),
        decreases pattern,
    {
        proof {
            assert(decreases_to!(*pattern => pattern.kind));
        }
        match &pattern.kind {
            PatternKind::Wildcard => {},
            PatternKind::Binding { name, .. } => self.add_local(name.as_str(), pattern.id.0, pattern.span),
            PatternKind::Path(path) => {
                self.resolve_path(path, pattern.id.0, NameUse::Variant);
            },
            PatternKind::Tuple(patterns) => {
                let mut i: usize = 0;
                while i < patterns.len()
                    invariant
                        self.only_locals_added(&*old(self)),
                        pattern.kind == PatternKind::Tuple(*patterns),
                        old(self).scopes@.len() > 0,
                        0 <= i <= patterns@.len(),
                        self.wf(),
                        self.extends(&*old(self)),
                        self.same_outer_scopes(&*old(self)),
                    decreases patterns@.len() - i,
                {
                    proof {
                        assert(decreases_to!(pattern.kind => pattern.kind->Tuple_0));
                        assert(decreases_to!(*patterns => patterns[i as int]));
                        assert(decreases_to!(*pattern => patterns[i as int]));
                    }
                    self.bind_pattern(&patterns[i]);
                    i = i + 1;
                }
            },
        }
    }

    /// Resolves a field access at `node`: the field of that name, provided
    /// one struct only declares it; otherwise it is reported.
    fn resolve_field(&mut self, node: u32, field: &str, span: Span)
        requires
            old(self).wf(),
        ensures
            final(self).only_locals_added(&*old(self)),
            final(self).wf(),
            final(self).extends(&*old(self)),
            final(self).scopes@ == old(self).scopes@,
            old(self).field_post(&*final(self), node, field@, span),
    {
        if !self.room(1) {
            return;
        }
        let symbol = self.intern(field);
        if let Some(def) = self.symbols.find_field_by_name(symbol) {
            proof {
                lemma_unique_member_is_member(members_view(self.symbols.struct_fields), symbol.0);
            }
            self.resolved_fields.insert(node, def);
        } else {
            let message = concat3("no field `", field, "` on this type");
            let hint = concat3("Check if `", field, "` is correctly spelled and exists in the struct.");
            self.push_with_hint(ResolverErrorCode::UnknownField, message.as_str(), hint.as_str(), span);
        }
    }

    /// A struct literal must name a struct.
    fn resolve_struct_init(&mut self, path: &Path)
        requires
            old(self).wf(),
        ensures
            final(self).only_locals_added(&*old(self)),
            final(self).wf(),
            final(self).extends(&*old(self)),
            final(self).scopes@ == old(self).scopes@,
            final(self).symbols.defs@ == old(self).symbols.defs@,
            path.segments@.len() == 1 && old(self).room_for(1) ==> final(self).diagnostics@.len() == old(self).diagnostics@.len()
                + match old(self).single_result(path.segments@[0].name@, NameUse::Type) {
                Some(d) => if old(self).symbols.defs@[d.0 as int].kind == DefKind::Struct {
                    0int
                } else {
                    1int
                },
                None => 1int,
            },
            path.segments@.len() == 2 && old(self).room_for(2) ==> match old(self).qualified_result(
                path.segments@[0].name@,
                path.segments@[1].name@,
            ) {
                Some(d) => final(self).diagnostics@.len() == old(self).diagnostics@.len() + if old(self).symbols.defs@[d.0 as int].kind
                    == DefKind::Struct {
                    0int
                } else {
                    1int
                },
                None => final(self).diagnostics@.len() > old(self).diagnostics@.len(),
            },
    {
        let def = match self.resolve_path(path, path.id.0, NameUse::Type) {
            Some(d) => d,
            None => return,
        };
        let is_struct = match self.symbols.def(def) {
            Some(d) => d.kind == DefKind::Struct,
            None => false,
        };
        if !is_struct {
            self.push_with_hint(
                ResolverErrorCode::UnknownName,
                "expected struct, found other item",
                "Make sure you are instantiating a valid struct.",
                path.span,
            );
        }
    }

    /// A field of a struct literal resolves to the field of that name of
    /// the struct the literal's path resolved to; its value is resolved.
    fn resolve_field_init(&mut self, path: &Path, field: &FieldInit)
        requires
            old(self).wf(),
        ensures
            final(self).only_locals_added(&*old(self)),
            final(self).wf(),
            final(self).extends(&*old(self)),
            final(self).scopes@ == old(self).scopes@,
            !(old(self).resolved_names@.contains_key(path.id.0) && old(self).room_for(1)) ==> *final(self) == *old(self),
            old(self).resolved_names@.contains_key(path.id.0) && old(self).room_for(1) ==> ({
                let sd = old(self).resolved_names@[path.id.0].0;
                let sym = crate::symbol_table::intern_result(old(self).symbols.names(), field.name@).1 as u32;
                let fs = members_view(old(self).symbols.struct_fields);
                exists|mid: Self| #[trigger] mid.expr_post(&*final(self), field.value) && if fs.contains_key(sd) && fs[sd].contains_key(sym) {
                    mid.resolved_fields@ == old(self).resolved_fields@.insert(field.value.id.0, fs[sd][sym])
                        && mid.diagnostics@ == old(self).diagnostics@
                } else {
                    mid.resolved_fields@ == old(self).resolved_fields@ && mid.diagnostics@.len() == old(self).diagnostics@.len() + 1
                }
            }),
        decreases field, 2nat,
    {
        let struct_def = match self.resolved_names.get(&path.id.0) {
            Some(d) => *d,
            None => return,
        };
        if !self.room(1) {
            return;
        }
        let symbol = self.intern(field.name.as_str());
        let def = match self.symbols.struct_fields.get(&struct_def.0) {
            Some(fs) => match fs.get(&symbol.0) {
                Some(d) => Some(*d),
                None => None,
            },
            None => None,
        };
        proof {
            assert(decreases_to!(*field => field.value));
        }
        match def {
            Some(d) => {
                proof {
                    let t = members_view(self.symbols.struct_fields);
                    assert(is_owner_of(t, struct_def.0, symbol.0));
                }
                self.resolved_fields.insert(field.value.id.0, d);
                let ghost mid = *self;
                self.resolve_expr(&field.value);
                proof {
                    assert(mid.expr_post(&*self, field.value));
                }
            },
            None => {
                let message = concat3("no field `", field.name.as_str(), "` on this type");
                self.push_with_hint(
                    ResolverErrorCode::UnknownField,
                    message.as_str(),
                    "Check if the field is correctly spelled and exists in the struct.",
                    field.span,
                );
                let ghost mid = *self;
                self.resolve_expr(&field.value);
                proof {
                    assert(mid.expr_post(&*self, field.value));
                }
            },
        }
    }

    /// A call records what its callee resolved to, if that is callable;
    /// a callee that is not callable is reported.
    fn resolve_call(&mut self, parent: &Expr, call_id: u32, callee: &Expr)
        requires
            old(self).wf(),
            parent.kind matches ExprKind::Call { callee: c, .. } && *c == *callee,
        ensures
            final(self).only_locals_added(&*old(self)),
            final(self).wf(),
            final(self).extends(&*old(self)),
            final(self).scopes@ == old(self).scopes@,
            callee.kind matches ExprKind::Path(p) ==> (p.segments@.len() == 1 && old(self).room_for(1) ==> match old(
                self,
            ).single_result(p.segments@[0].name@, NameUse::Call) {
                Some(d) => {
                    &&& final(self).resolved_names@ == old(self).resolved_names@.insert(callee.id.0, d)
                    &&& old(self).symbols.defs@[d.0 as int].kind.spec_is_callable() ==> final(self).resolved_calls@
                        == old(self).resolved_calls@.insert(call_id, d) && final(self).diagnostics@ == old(self).diagnostics@
                    &&& !old(self).symbols.defs@[d.0 as int].kind.spec_is_callable() ==> final(self).resolved_calls@
                        == old(self).resolved_calls@ && final(self).diagnostics@.len() == old(self).diagnostics@.len() + 1
                        && reported_as(final(self).diagnostics@.last(), ResolverErrorCode::NotCallable, callee.span)
                },
                None => final(self).diagnostics@.len() > old(self).diagnostics@.len() && reported_as(
                    final(self).diagnostics@[old(self).diagnostics@.len() as int],
                    ResolverErrorCode::UnknownFunction,
                    p.segments@[0].span,
                ),
            }),
        decreases parent, 0nat,
    {
        proof {
            assert(decreases_to!(*parent => parent.kind));
            assert(decreases_to!(parent.kind => parent.kind->callee));
        }
        match &callee.kind {
            ExprKind::Path(path) => {
                self.resolve_path(path, callee.id.0, NameUse::Call);
            },
            ExprKind::Field { base, field } => {
                proof {
                    assert(decreases_to!(*callee => callee.kind));
                    assert(decreases_to!(callee.kind => callee.kind->Field_base));
                }
                self.resolve_expr(base);
                if self.room(1) {
                    let symbol = self.intern(field.as_str());
                    if let Some(def) = self.symbols.find_method_by_name(symbol) {
                        proof {
                            lemma_unique_member_is_member(members_view(self.symbols.struct_methods), symbol.0);
                        }
                        self.resolved_names.insert(callee.id.0, def);
                    }
                }
            },
            _ => {
                self.resolve_expr(callee);
            },
        }
        let def = match self.resolved_names.get(&callee.id.0) {
            Some(d) => *d,
            None => return,
        };
        let callable = match self.symbols.def(def) {
            Some(d) => d.kind.is_callable(),
            None => return,
        };
        if callable {
            self.resolved_calls.insert(call_id, def);
        } else {
            self.push_with_hint(
                ResolverErrorCode::NotCallable,
                "expected function, found other type",
                "Only functions and closures can be called.",
                callee.span,
            );
        }
    }

    /// An arm binds its pattern in a scope of its own.
    fn resolve_match_arm(&mut self, arm: &MatchArm)
        requires
            old(self).wf(),
        ensures
            final(self).only_locals_added(&*old(self)),
            final(self).wf(),
            final(self).extends(&*old(self)),
            final(self).scopes@ == old(self).scopes@,
            old(self).arm_post(&*final(self), *arm),
        decreases arm, 2nat,
    {
        self.push_scope();
        let ghost x = *self;
        self.bind_pattern(&arm.pattern);
        let ghost y = *self;
        proof {
            assert(decreases_to!(*arm => arm.body));
        }
        if let Some(guard) = &arm.guard {
            proof {
                assert(decreases_to!(*arm => arm.guard));
                assert(decreases_to!(arm.guard => *guard));
            }
            self.resolve_expr(guard);
        }
        let ghost w = *self;
        self.resolve_expr(&arm.body);
        let ghost z = *self;
        self.pop_scope();
        proof {
            if arm.guard is Some {
                assert(y.expr_post(&w, arm.guard->0));
            } else {
                assert(w == y);
            }
            assert(y.guard_body_post(&z, *arm));
            assert(x.pattern_post(&y, arm.pattern));
            assert(self.scopes@ =~= old(self).scopes@);
        }
    }

    fn resolve_expr(&mut self, expr: &Expr)
        requires
            old(self).wf(),
        ensures
            final(self).only_locals_added(&*old(self)),
            final(self).wf(),
            final(self).extends(&*old(self)),
            final(self).scopes@ == old(self).scopes@,
            old(self).expr_post(&*final(self), *expr),
        decreases expr, 1nat,
    {
        proof {
            assert(decreases_to!(*expr => expr.kind));
        }
        match &expr.kind {
            ExprKind::Literal(_) => {},
            ExprKind::Path(path) => {
                self.resolve_path(path, expr.id.0, NameUse::Value);
            },
            ExprKind::Unary { expr: inner, .. } => self.resolve_expr(inner),
            ExprKind::Binary { left, right, .. } => {
                self.resolve_expr(left);
                let ghost mid = *self;
                self.resolve_expr(right);
                proof {
                    assert(old(self).expr_post(&mid, **left));
                    assert(mid.stage());
                }
            },
            ExprKind::Assign { target, value } => {
                self.resolve_expr(target);
                let ghost mid = *self;
                self.resolve_expr(value);
                proof {
                    assert(old(self).expr_post(&mid, **target));
                    assert(mid.stage());
                }
            },
            ExprKind::Call { callee, args } => {
                self.resolve_call(expr, expr.id.0, callee);
                let mut i: usize = 0;
                while i < args.len()
                    invariant
                        self.only_locals_added(&*old(self)),
                        expr.kind matches ExprKind::Call { args: a, .. } && a == *args,
                        0 <= i <= args@.len(),
                        self.wf(),
                        self.extends(&*old(self)),
                        self.scopes@ == old(self).scopes@,
                    decreases args@.len() - i,
                {
                    proof {
                        assert(decreases_to!(expr.kind => expr.kind->args));
                        assert(decreases_to!(*args => args[i as int]));
                        assert(decreases_to!(*expr => args[i as int]));
                    }
                    self.resolve_expr(&args[i]);
                    i = i + 1;
                }
            },
            ExprKind::Field { base, field } => {
                self.resolve_expr(base);
                let ghost mid = *self;
                self.resolve_field(expr.id.0, field.as_str(), expr.span);
                proof {
                    assert(old(self).expr_post(&mid, **base));
                    assert(mid.stage());
                }
            },
            ExprKind::Index { base, index } => {
                self.resolve_expr(base);
                let ghost mid = *self;
                self.resolve_expr(index);
                proof {
                    assert(old(self).expr_post(&mid, **base));
                    assert(mid.stage());
                }
            },
            ExprKind::Tuple(items) => {
                self.resolve_exprs(expr, items);
            },
            ExprKind::Array(items) => {
                self.resolve_exprs(expr, items);
            },
            ExprKind::StructInit { path, fields } => {
                self.resolve_struct_init(path);
                let mut i: usize = 0;
                while i < fields.len()
                    invariant
                        self.only_locals_added(&*old(self)),
                        expr.kind matches ExprKind::StructInit { fields: f, path: p } && f == *fields && p == *path,
                        0 <= i <= fields@.len(),
                        self.wf(),
                        self.extends(&*old(self)),
                        self.scopes@ == old(self).scopes@,
                    decreases fields@.len() - i,
                {
                    proof {
                        assert(decreases_to!(expr.kind => expr.kind->fields));
                        assert(decreases_to!(*fields => fields[i as int]));
                        assert(decreases_to!(*expr => fields[i as int]));
                    }
                    self.resolve_field_init(path, &fields[i]);
                    i = i + 1;
                }
            },
            ExprKind::If { condition, then_block, else_branch } => {
                self.resolve_expr(condition);
                proof {
                    assert(decreases_to!(expr.kind => expr.kind->then_block));
                }
                self.resolve_block(then_block);
                if let Some(other) = else_branch {
                    self.resolve_expr(other);
                }
            },
            ExprKind::Match { value, arms } => {
                self.resolve_expr(value);
                let mut i: usize = 0;
                while i < arms.len()
                    invariant
                        self.only_locals_added(&*old(self)),
                        expr.kind matches ExprKind::Match { arms: a, .. } && a == *arms,
                        0 <= i <= arms@.len(),
                        self.wf(),
                        self.extends(&*old(self)),
                        self.scopes@ == old(self).scopes@,
                    decreases arms@.len() - i,
                {
                    proof {
                        assert(decreases_to!(expr.kind => expr.kind->arms));
                        assert(decreases_to!(*arms => arms[i as int]));
                        assert(decreases_to!(*expr => arms[i as int]));
                    }
                    self.resolve_match_arm(&arms[i]);
                    i = i + 1;
                }
            },
            ExprKind::Block(block) => self.resolve_block(block),
        }
    }

    fn resolve_exprs(&mut self, parent: &Expr, items: &Vec<Expr>)
        requires
            old(self).wf(),
            parent.kind == ExprKind::Tuple(*items) || parent.kind == ExprKind::Array(*items),
        ensures
            final(self).only_locals_added(&*old(self)),
            final(self).wf(),
            final(self).extends(&*old(self)),
            final(self).scopes@ == old(self).scopes@,
            old(self).exprs_post(&*final(self), items@),
        decreases parent, 0nat,
    {
        let ghost mut rs: Seq<Self> = seq![*self];
        let mut i: usize = 0;
        while i < items.len()
            invariant
                self.only_locals_added(&*old(self)),
                parent.kind == ExprKind::Tuple(*items) || parent.kind == ExprKind::Array(*items),
                Self::exprs_chain(rs, items@.take(i as int)),
                rs[0] == *old(self),
                rs.last() == *self,
                0 <= i <= items@.len(),
                self.wf(),
                self.extends(&*old(self)),
                self.scopes@ == old(self).scopes@,
            decreases items@.len() - i,
        {
            proof {
                assert(decreases_to!(*parent => parent.kind));
                if parent.kind == ExprKind::Tuple(*items) {
                    assert(decreases_to!(parent.kind => parent.kind->Tuple_0));
                } else {
                    assert(decreases_to!(parent.kind => parent.kind->Array_0));
                }
                assert(decreases_to!(*items => items[i as int]));
                assert(decreases_to!(*parent => items[i as int]));
            }
            self.resolve_expr(&items[i]);
            proof {
                let rs0 = rs;
                rs = rs.push(*self);
                let t = items@.take(i + 1);
                assert forall|j: int| 0 <= j < t.len() implies (#[trigger] rs[j]).expr_post(&rs[j + 1], t[j]) by {
                    if j < i {
                        assert(rs[j] == rs0[j] && rs[j + 1] == rs0[j + 1]);
                        assert(t[j] == items@.take(i as int)[j]);
                    }
                }
            }
            i = i + 1;
        }
        proof {
            assert(items@.take(i as int) =~= items@);
            assert(Self::exprs_chain(rs, items@));
        }
    }

    /// A block resolves its statements in a scope of its own.
    fn resolve_block(&mut self, block: &Block)
        requires
            old(self).wf(),
        ensures
            final(self).only_locals_added(&*old(self)),
            final(self).wf(),
            final(self).extends(&*old(self)),
            final(self).scopes@ == old(self).scopes@,
            old(self).block_post(&*final(self), *block),
        decreases block, 1nat,
    {
        self.push_scope();
        let ghost inner = *self;
        self.resolve_stmts(block);
        self.pop_scope();
        proof {
            assert(self.scopes@ =~= old(self).scopes@);
        }
    }

    fn resolve_stmts(&mut self, block: &Block)
        requires
            old(self).wf(),
            old(self).scopes@.len() > 0,
        ensures
            final(self).only_locals_added(&*old(self)),
            final(self).wf(),
            final(self).extends(&*old(self)),
            final(self).same_outer_scopes(&*old(self)),
            old(self).stmts_post(&*final(self), block.statements@),
        decreases block, 0nat,
    {
        let ghost mut rs: Seq<Self> = seq![*self];
        let mut i: usize = 0;
        while i < block.statements.len()
            invariant
                self.only_locals_added(&*old(self)),
                0 <= i <= block.statements@.len(),
                Self::stmts_chain(rs, block.statements@.take(i as int)),
                rs[0] == *old(self),
                rs.last() == *self,
                self.wf(),
                self.extends(&*old(self)),
                self.same_outer_scopes(&*old(self)),
                old(self).scopes@.len() > 0,
            decreases block.statements@.len() - i,
        {
            proof {
                assert(decreases_to!(*block => block.statements));
                assert(decreases_to!(block.statements => block.statements[i as int]));
            }
            self.resolve_stmt(&block.statements[i]);
            proof {
                let rs0 = rs;
                rs = rs.push(*self);
                let t = block.statements@.take(i + 1);
                assert forall|j: int| 0 <= j < t.len() implies (#[trigger] rs[j]).stmt_post(&rs[j + 1], t[j]) by {
                    if j < i {
                        assert(rs[j] == rs0[j] && rs[j + 1] == rs0[j + 1]);
                        assert(t[j] == block.statements@.take(i as int)[j]);
                    }
                }
            }
            i = i + 1;
        }
        proof {
            assert(block.statements@.take(i as int) =~= block.statements@);
            assert(Self::stmts_chain(rs, block.statements@));
        }
    }

    fn resolve_stmt(&mut self, stmt: &Stmt)
        requires
            old(self).wf(),
            old(self).scopes@.len() > 0,
        ensures
            final(self).only_locals_added(&*old(self)),
            final(self).wf(),
            final(self).extends(&*old(self)),
            final(self).same_outer_scopes(&*old(self)),
            old(self).stmt_post(&*final(self), *stmt),
        decreases stmt, 0nat,
    {
        proof {
            assert(decreases_to!(*stmt => stmt.kind));
        }
        match &stmt.kind {
            StmtKind::Let { pattern, value, .. } => {
                if let Some(v) = value {
                    self.resolve_expr(v);
                }
                let ghost mid = *self;
                self.bind_pattern(pattern);
                proof {
                    assert(mid.stage());
                }
            },
            StmtKind::Expr(e) => self.resolve_expr(e),
            StmtKind::Semi(e) => self.resolve_expr(e),
            StmtKind::Return(value) => {
                if let Some(e) = value {
                    self.resolve_expr(e);
                }
            },
            StmtKind::Break | StmtKind::Continue => {},
            StmtKind::While { condition, body } => {
                self.resolve_expr(condition);
                self.resolve_block(body);
            },
            StmtKind::For { pattern, iter, body } => {
                self.resolve_expr(iter);
                self.push_scope();
                self.bind_pattern(pattern);
                let mut i: usize = 0;
                while i < body.statements.len()
                    invariant
                        self.only_locals_added(&*old(self)),
                        stmt.kind matches StmtKind::For { body: b, .. } && b == *body,
                        0 <= i <= body.statements@.len(),
                        self.wf(),
                        self.extends(&*old(self)),
                        self.scopes@.len() == old(self).scopes@.len() + 1,
                        self.scopes@.drop_last() == old(self).scopes@,
                    decreases body.statements@.len() - i,
                {
                    proof {
                        assert(decreases_to!(stmt.kind => stmt.kind->For_body));
                        assert(decreases_to!(*body => body.statements));
                        assert(decreases_to!(body.statements => body.statements[i as int]));
                    }
                    self.resolve_stmt(&body.statements[i]);
                    i = i + 1;
                }
                self.pop_scope();
            },
        }
        proof {
            assert(self.scopes@.drop_last() =~= old(self).scopes@.drop_last());
        }
    }
}


/// Whether `ds` holds an error.
pub open spec fn has_error(ds: Seq<Diagnostic>) -> bool {
    exists|i: int| 0 <= i < ds.len() && (#[trigger] ds[i]).severity == Severity::Error
}

/// Every definition after the first `from` of `defs` of kind `kind` is
/// in `table`, under its name.
pub open spec fn kind_covered(table: Map<u32, DefId>, defs: Seq<Def>, from: int, kind: DefKind) -> bool {
    forall|i: int|
        from <= i < defs.len() && (#[trigger] defs[i]).kind == kind ==> table.contains_key(defs[i].name.0) && table[defs[i].name.0]
            == DefId(i as u32)
}

/// `d` reports a field of `fields` declared again.
pub open spec fn field_report(d: Diagnostic, fields: Seq<crate::ast::StructField>) -> bool {
    exists|f: int| 0 <= f < fields.len() && reported_as(d, ResolverErrorCode::DuplicateField, #[trigger] fields[f].span)
}

/// No field of `fields` has a default value.
pub open spec fn no_defaults(fields: Seq<crate::ast::StructField>) -> bool {
    forall|k: int| 0 <= k < fields.len() ==> (#[trigger] fields[k]).default is None
}

/// `d` reports a variant of `variants` declared again.
pub open spec fn variant_report(d: Diagnostic, variants: Seq<crate::ast::EnumVariant>) -> bool {
    exists|v: int| 0 <= v < variants.len() && reported_as(d, ResolverErrorCode::DuplicateVariant, #[trigger] variants[v].span)
}

/// `table` maps each name to a definition made after the first `from` of
/// `defs`, whose name it is.
pub open spec fn members_fresh(table: Map<u32, DefId>, defs: Seq<Def>, from: int) -> bool {
    forall|k: u32| #[trigger] table.contains_key(k) ==> from <= table[k].0 < defs.len() && defs[table[k].0 as int].name == Symbol(k)
}

/// `table` maps the names of the definitions made after the first `from`
/// of `defs`, all of kind `kind`, each to its definition, and nothing else.
pub open spec fn members_exact(table: Map<u32, DefId>, defs: Seq<Def>, from: int, kind: DefKind) -> bool {
    &&& members_fresh(table, defs, from)
    &&& forall|i: int| from <= i < defs.len() ==> (#[trigger] defs[i]).kind == kind && table.contains_key(defs[i].name.0)
        && table[defs[i].name.0] == DefId(i as u32)
}

/// `g` keeps every entry of `g0`, and adds for each definition made after
/// the first `from` of `defs` its name, mapped to it, and nothing else.
pub open spec fn globals_grown(g0: Map<u32, DefId>, g: Map<u32, DefId>, defs: Seq<Def>, from: int) -> bool {
    &&& forall|k: u32| #[trigger] g0.contains_key(k) ==> g.contains_key(k) && g[k] == g0[k]
    &&& forall|k: u32| #[trigger] g.contains_key(k) && !g0.contains_key(k) ==> from <= g[k].0 < defs.len()
        && defs[g[k].0 as int].name == Symbol(k)
    &&& forall|i: int| from <= i < defs.len() ==> !g0.contains_key((#[trigger] defs[i]).name.0)
        && g.contains_key(defs[i].name.0) && g[defs[i].name.0] == DefId(i as u32)
}

/// The functions and methods of `item` whose bodies are resolved: a
/// function that is not extern, or the methods of a struct.
pub open spec fn item_functions(item: Item) -> Seq<FunctionItem> {
    match item.kind {
        ItemKind::Function(f) => if f.kind != FunctionKind::Extern {
            seq![f]
        } else {
            seq![]
        },
        ItemKind::Struct(data) => data.methods@,
        _ => seq![],
    }
}

/// The functions and methods of `items` whose bodies are resolved, in order.
pub open spec fn resolved_functions(items: Seq<Item>) -> Seq<FunctionItem>
    decreases items.len(),
{
    if items.len() == 0 {
        seq![]
    } else {
        resolved_functions(items.drop_last()) + item_functions(items.last())
    }
}

impl<'a> Resolver<'a> {
    fn resolve_function_body(&mut self, params: &Vec<FunctionParam>, body: &Option<Block>)
        requires
            old(self).wf(),
        ensures
            final(self).wf(),
            final(self).extends(&*old(self)),
            final(self).scopes@ == old(self).scopes@,
            old(self).function_post(&*final(self), params@, *body),
    {
        self.push_scope();
        let ghost mut rs: Seq<Self> = seq![*self];
        let mut i: usize = 0;
        while i < params.len()
            invariant
                0 <= i <= params@.len(),
                Self::params_chain(rs, params@.take(i as int)),
                old(self).scope_opened(&rs[0]),
                rs.last() == *self,
                self.wf(),
                self.extends(&*old(self)),
                self.scopes@.len() == old(self).scopes@.len() + 1,
                self.scopes@.drop_last() == old(self).scopes@,
            decreases params@.len() - i,
        {
            self.add_param(&params[i]);
            proof {
                let rs0 = rs;
                rs = rs.push(*self);
                let t = params@.take(i + 1);
                assert forall|j: int| 0 <= j < t.len() implies (#[trigger] rs[j]).param_post(&rs[j + 1], t[j]) by {
                    if j < i {
                        assert(rs[j] == rs0[j] && rs[j + 1] == rs0[j + 1]);
                        assert(t[j] == params@.take(i as int)[j]);
                    }
                }
            }
            i = i + 1;
        }
        proof {
            assert(params@.take(i as int) =~= params@);
        }
        if let Some(b) = body {
            self.resolve_block(b);
        }
        let ghost y = *self;
        self.pop_scope();
        proof {
            assert(Self::params_chain(rs, params@));
            assert(y.scope_closed(&*self));
            match body {
                Some(b) => assert(rs.last().block_post(&y, *b)),
                None => assert(y == rs.last()),
            }
        }
    }

    /// Resolves the bodies of the functions (but extern ones) and methods.
    fn resolve_functions(&mut self)
        requires
            old(self).wf(),
        ensures
            final(self).wf(),
            final(self).extends(&*old(self)),
            final(self).scopes@ == old(self).scopes@,
            old(self).bodies_resolved(&*final(self)),
    {
        let ast = self.ast;
        let ghost mut rs: Seq<Self> = seq![*self];
        proof {
            assert(ast.items@.take(0) =~= Seq::<Item>::empty());
        }
        let mut i: usize = 0;
        while i < ast.items.len()
            invariant
                0 <= i <= ast.items@.len(),
                Self::functions_chain(rs, resolved_functions(ast.items@.take(i as int))),
                rs[0] == *old(self),
                rs.last() == *self,
                ast == old(self).ast,
                self.wf(),
                self.extends(&*old(self)),
                self.scopes@ == old(self).scopes@,
            decreases ast.items@.len() - i,
        {
            let ghost before = resolved_functions(ast.items@.take(i as int));
            proof {
                assert(ast.items@.take(i + 1).drop_last() =~= ast.items@.take(i as int));
                assert(ast.items@.take(i + 1).last() == ast.items@[i as int]);
            }
            match &ast.items[i].kind {
                ItemKind::Function(function) => {
                    if function.kind != FunctionKind::Extern {
                        let ghost r0 = *self;
                        self.resolve_function_body(&function.params, &function.body);
                        proof {
                            Self::lemma_functions_chain_push(rs, before, *self, *function);
                            rs = rs.push(*self);
                            assert(before.push(*function) =~= resolved_functions(ast.items@.take(i + 1)));
                        }
                    } else {
                        proof {
                            assert(before =~= resolved_functions(ast.items@.take(i + 1)));
                        }
                    }
                },
                ItemKind::Struct(data) => {
                    let mut j: usize = 0;
                    proof {
                        assert(before + data.methods@.take(0) =~= before);
                    }
                    while j < data.methods.len()
                        invariant
                            0 <= j <= data.methods@.len(),
                            ast.items@[i as int].kind == ItemKind::Struct(*data),
                            Self::functions_chain(rs, before + data.methods@.take(j as int)),
                            rs[0] == *old(self),
                            rs.last() == *self,
                            ast == old(self).ast,
                            self.wf(),
                            self.extends(&*old(self)),
                            self.scopes@ == old(self).scopes@,
                        decreases data.methods@.len() - j,
                    {
                        self.resolve_function_body(&data.methods[j].params, &data.methods[j].body);
                        proof {
                            Self::lemma_functions_chain_push(rs, before + data.methods@.take(j as int), *self, data.methods@[j as int]);
                            rs = rs.push(*self);
                            assert((before + data.methods@.take(j as int)).push(data.methods@[j as int])
                                =~= before + data.methods@.take(j + 1));
                        }
                        j = j + 1;
                    }
                    proof {
                        assert(data.methods@.take(j as int) =~= data.methods@);
                    }
                },
                _ => {
                    proof {
                        assert(before =~= resolved_functions(ast.items@.take(i + 1)));
                    }
                },
            }
            i = i + 1;
        }
        proof {
            assert(ast.items@.take(i as int) =~= ast.items@);
        }
    }

    /// Records a global definition for each top-level item; a name
    /// declared again is reported and keeps its first definition.
    fn collect_globals(&mut self)
        requires
            old(self).wf(),
        ensures
            final(self).wf(),
            final(self).extends(&*old(self)),
            final(self).scopes@ == old(self).scopes@,
            old(self).globals_collected(&*final(self)),
    {
        let ast = self.ast;
        let ghost mut rs: Seq<Self> = seq![*self];
        proof {
            assert(ast.items@.take(0) =~= Seq::<Item>::empty());
        }
        let mut i: usize = 0;
        while i < ast.items.len()
            invariant
                0 <= i <= ast.items@.len(),
                ast == old(self).ast,
                self.wf(),
                self.extends(&*old(self)),
                self.scopes@ == old(self).scopes@,
                Self::globals_chain(rs, ast.items@.take(i as int)),
                rs[0] == *old(self),
                rs.last() == *self,
                globals_grown(
                    old(self).symbols.globals@,
                    self.symbols.globals@,
                    self.symbols.defs@,
                    old(self).symbols.defs@.len() as int,
                ),
                members_view(self.symbols.struct_fields) == members_view(old(self).symbols.struct_fields),
                members_view(self.symbols.struct_methods) == members_view(old(self).symbols.struct_methods),
                members_view(self.symbols.enum_variants) == members_view(old(self).symbols.enum_variants),
                self.symbols.names().len() <= old(self).symbols.names().len() + i,
                self.symbols.defs@.len() <= old(self).symbols.defs@.len() + i,
                old(self).room_for(ast.items@.len() as int) ==> self.symbols.defs@.len() - old(self).symbols.defs@.len()
                    + self.diagnostics@.len() - old(self).diagnostics@.len() == i,
            decreases ast.items@.len() - i,
        {
            let item = &ast.items[i];
            let ghost before = *self;
            let (name, kind) = global_def(item);
            if self.room(1) {
                let symbol = self.intern(name);
                let ghost interned = *self;
                match self.symbols.globals.get(&symbol.0) {
                    Some(previous) => {
                        let previous = *previous;
                        proof {
                            assert(interned.symbols.globals@ == before.symbols.globals@);
                            assert(ids_valid(interned.symbols.globals@, interned.symbols.defs@));
                        }
                        self.report_global_collision(symbol, kind, previous, item.span);
                        proof {
                            assert(self.diagnostics@.drop_last() =~= before.diagnostics@);
                            assert(self.diagnostics@ =~= before.diagnostics@.push(self.diagnostics@.last()));
                        }
                    },
                    None => {
                        let def = self.add_def(symbol, kind, item.span);
                        self.symbols.globals.insert(symbol.0, def);
                        self.resolved_names.insert(item.id.0, def);
                    },
                }
                proof {
                    assert(members_view(self.symbols.struct_fields) == members_view(before.symbols.struct_fields));
                    assert(before.global_step(&*self, *item));
                }
            }
            proof {
                let rs0 = rs;
                rs = rs.push(*self);
                let t = ast.items@.take(i + 1);
                assert(t[i as int] == *item);
                assert forall|j: int| 0 <= j < t.len() implies (#[trigger] rs[j]).global_step(&rs[j + 1], t[j]) by {
                    if j < i {
                        assert(rs[j] == rs0[j] && rs[j + 1] == rs0[j + 1]);
                        assert(t[j] == ast.items@.take(i as int)[j]);
                    }
                }
            }
            i = i + 1;
        }
        proof {
            assert(ast.items@.take(i as int) =~= ast.items@);
            assert(Self::globals_chain(rs, ast.items@));
        }
    }

    /// Records the fields and methods of each struct and the variants of
    /// each enum; a member declared twice is reported and skipped. Field
    /// defaults are resolved.
    fn collect_structs_and_enums(&mut self)
        requires
            old(self).wf(),
        ensures
            final(self).wf(),
            final(self).extends(&*old(self)),
            final(self).scopes@ == old(self).scopes@,
            old(self).members_collected(&*final(self)),
    {
        let ast = self.ast;
        let ghost mut rs: Seq<Self> = seq![*self];
        let mut i: usize = 0;
        while i < ast.items.len()
            invariant
                0 <= i <= ast.items@.len(),
                Self::items_chain(rs, ast.items@.take(i as int)),
                rs[0] == *old(self),
                rs.last() == *self,
                ast == old(self).ast,
                self.wf(),
                self.extends(&*old(self)),
                self.scopes@ == old(self).scopes@,
            decreases ast.items@.len() - i,
        {
            let item = &ast.items[i];
            let ghost r0 = *self;
            match &item.kind {
                ItemKind::Struct(data) => {
                    if self.room(1) {
                        let found = self.global_def_id(data.name.as_str());
                        let ghost mid = *self;
                        if let Some(struct_def) = found {
                            self.collect_struct(item, data, struct_def);
                        }
                        proof {
                            assert(r0.interned(&mid, data.name@));
                        }
                    }
                },
                ItemKind::Enum(data) => {
                    if self.room(1) {
                        let found = self.global_def_id(data.name.as_str());
                        let ghost mid = *self;
                        if let Some(enum_def) = found {
                            self.collect_enum(data, enum_def);
                        }
                        proof {
                            assert(r0.interned(&mid, data.name@));
                        }
                    }
                },
                _ => {},
            }
            proof {
                assert(r0.item_members_post(&*self, ast.items@[i as int]));
                let rs0 = rs;
                rs = rs.push(*self);
                let t = ast.items@.take(i + 1);
                assert forall|j: int| 0 <= j < t.len() implies (#[trigger] rs[j]).item_members_post(&rs[j + 1], t[j]) by {
                    if j < i {
                        assert(rs[j] == rs0[j] && rs[j + 1] == rs0[j + 1]);
                        assert(t[j] == ast.items@.take(i as int)[j]);
                    }
                }
            }
            i = i + 1;
        }
        proof {
            assert(ast.items@.take(i as int) =~= ast.items@);
        }
    }

    fn collect_struct(&mut self, item: &Item, data: &crate::ast::StructItem, struct_def: DefId)
        requires
            old(self).wf(),
        ensures
            final(self).wf(),
            final(self).extends(&*old(self)),
            final(self).scopes@ == old(self).scopes@,
            old(self).struct_post(&*final(self), *item, *data, struct_def),
    {
        let mut fields: HashMap<u32, DefId> = HashMap::new();
        let mut i: usize = 0;
        while i < data.fields.len()
            invariant
                0 <= i <= data.fields@.len(),
                self.wf(),
                self.extends(&*old(self)),
                self.scopes@ == old(self).scopes@,
                ids_of_kind(fields@, self.symbols.defs@, DefKind::Field),
                members_fresh(fields@, self.symbols.defs@, old(self).symbols.defs@.len() as int),
                kind_covered(fields@, self.symbols.defs@, old(self).symbols.defs@.len() as int, DefKind::Field),
                forall|k: int|
                    old(self).symbols.defs@.len() <= k < self.symbols.defs@.len() ==> (#[trigger] self.symbols.defs@[k]).kind
                        == DefKind::Field || self.symbols.defs@[k].kind == DefKind::Local,
                no_defaults(data.fields@) ==> forall|j: int|
                    old(self).diagnostics@.len() <= j < self.diagnostics@.len() ==> field_report(#[trigger] self.diagnostics@[j], data.fields@),
            decreases data.fields@.len() - i,
        {
            let field = &data.fields[i];
            if self.room(1) {
                let symbol = self.intern(field.name.as_str());
                if fields.contains_key(&symbol.0) {
                    let message = concat3("field `", field.name.as_str(), "` is already declared");
                    let ghost b0 = *self;
                    self.push_with_hint(ResolverErrorCode::DuplicateField, message.as_str(), "Struct fields must have unique names.", field.span);
                    proof {
                        assert forall|j: int| old(self).diagnostics@.len() <= j < self.diagnostics@.len() && no_defaults(data.fields@)
                            implies field_report(#[trigger] self.diagnostics@[j], data.fields@) by {
                            if j < b0.diagnostics@.len() {
                                assert(self.diagnostics@[j] == b0.diagnostics@[j]);
                            } else {
                                assert(reported_as(self.diagnostics@[j], ResolverErrorCode::DuplicateField, data.fields@[i as int].span));
                            }
                        }
                    }
                } else {
                    let def = self.add_def(symbol, DefKind::Field, field.span);
                    fields.insert(symbol.0, def);
                    if let Some(default) = &field.default {
                        let ghost before = *self;
                        proof {
                            assert(!no_defaults(data.fields@)) by {
                                assert(data.fields@[i as int].default is Some);
                            }
                        }
                        self.resolve_expr(default);
                        proof {
                            assert forall|k: u32| #[trigger] fields@.contains_key(k) implies fields@[k].0 < self.symbols.defs@.len()
                                && self.symbols.defs@[fields@[k].0 as int].kind == DefKind::Field by {
                                assert(self.symbols.defs@[fields@[k].0 as int] == before.symbols.defs@[fields@[k].0 as int]);
                            }
                        }
                    }
                }
            }
            i = i + 1;
        }
        let ghost fv = fields@;
        let ghost before_insert = *self;
        self.symbols.struct_fields.insert(struct_def.0, fields);
        proof {
            self.lemma_member_insert(&before_insert, struct_def.0, fv, DefKind::Field);
        }
        let ghost after_fields = *self;
        proof {
            assert(members_view(self.symbols.struct_fields) =~= members_view(before_insert.symbols.struct_fields).insert(struct_def.0, fv));
        }
        let mut methods: HashMap<u32, DefId> = HashMap::new();
        let mut j: usize = 0;
        while j < data.methods.len()
            invariant
                0 <= j <= data.methods@.len(),
                self.wf(),
                self.extends(&*old(self)),
                self.extends(&after_fields),
                self.scopes@ == old(self).scopes@,
                ids_of_kind(methods@, self.symbols.defs@, DefKind::Method),
                members_fresh(methods@, self.symbols.defs@, old(self).symbols.defs@.len() as int),
                members_view(self.symbols.struct_fields) == members_view(after_fields.symbols.struct_fields),
                members_fresh(fv, after_fields.symbols.defs@, old(self).symbols.defs@.len() as int),
                members_view(after_fields.symbols.struct_fields).contains_key(struct_def.0),
                members_view(after_fields.symbols.struct_fields)[struct_def.0] == fv,
                kind_covered(fv, self.symbols.defs@, old(self).symbols.defs@.len() as int, DefKind::Field),
                kind_covered(methods@, self.symbols.defs@, old(self).symbols.defs@.len() as int, DefKind::Method),
                forall|k: int|
                    old(self).symbols.defs@.len() <= k < self.symbols.defs@.len() ==> (#[trigger] self.symbols.defs@[k]).kind
                        == DefKind::Field || self.symbols.defs@[k].kind == DefKind::Local || self.symbols.defs@[k].kind == DefKind::Method,
                forall|k: int|
                    old(self).symbols.defs@.len() <= k < after_fields.symbols.defs@.len() ==> (#[trigger] self.symbols.defs@[k]).kind
                        != DefKind::Method,
                no_defaults(data.fields@) ==> forall|j: int|
                    old(self).diagnostics@.len() <= j < self.diagnostics@.len() ==> field_report(#[trigger] self.diagnostics@[j], data.fields@)
                        || reported_as(self.diagnostics@[j], ResolverErrorCode::DuplicateName, item.span),
            decreases data.methods@.len() - j,
        {
            let method = &data.methods[j];
            if self.room(1) {
                let symbol = self.intern(method.name.as_str());
                if methods.contains_key(&symbol.0) {
                    let message = concat3("method `", method.name.as_str(), "` is already declared");
                    let ghost b0 = *self;
                    self.push_with_hint(ResolverErrorCode::DuplicateName, message.as_str(), "Struct methods must have unique names.", item.span);
                    proof {
                        assert forall|jj: int| old(self).diagnostics@.len() <= jj < self.diagnostics@.len() && no_defaults(data.fields@)
                            implies field_report(#[trigger] self.diagnostics@[jj], data.fields@)
                            || reported_as(self.diagnostics@[jj], ResolverErrorCode::DuplicateName, item.span) by {
                            if jj < b0.diagnostics@.len() {
                                assert(self.diagnostics@[jj] == b0.diagnostics@[jj]);
                            }
                        }
                    }
                } else {
                    let def = self.add_def(symbol, DefKind::Method, item.span);
                    methods.insert(symbol.0, def);
                }
            }
            j = j + 1;
        }
        let ghost mv = methods@;
        let ghost before_methods = *self;
        self.symbols.struct_methods.insert(struct_def.0, methods);
        proof {
            self.lemma_member_insert(&before_methods, struct_def.0, mv, DefKind::Method);
            assert(members_view(self.symbols.struct_methods) =~= members_view(before_methods.symbols.struct_methods).insert(struct_def.0, mv));
            assert(members_view(self.symbols.struct_fields) =~= members_view(before_methods.symbols.struct_fields));
            let defs = self.symbols.defs@;
            assert forall|k: u32| #[trigger] fv.contains_key(k) implies old(self).symbols.defs@.len() <= fv[k].0 < defs.len()
                && defs[fv[k].0 as int].name == Symbol(k) by {
                assert(defs[fv[k].0 as int] == after_fields.symbols.defs@[fv[k].0 as int]);
            }
        }
    }

    fn collect_enum(&mut self, data: &crate::ast::EnumItem, enum_def: DefId)
        requires
            old(self).wf(),
        ensures
            final(self).wf(),
            final(self).extends(&*old(self)),
            final(self).scopes@ == old(self).scopes@,
            old(self).enum_post(&*final(self), *data, enum_def),
    {
        let mut variants: HashMap<u32, DefId> = HashMap::new();
        let mut i: usize = 0;
        while i < data.variants.len()
            invariant
                0 <= i <= data.variants@.len(),
                self.wf(),
                self.extends(&*old(self)),
                self.scopes@ == old(self).scopes@,
                ids_of_kind(variants@, self.symbols.defs@, DefKind::Variant),
                members_exact(variants@, self.symbols.defs@, old(self).symbols.defs@.len() as int, DefKind::Variant),
                members_view(self.symbols.enum_variants) == members_view(old(self).symbols.enum_variants),
                members_view(self.symbols.struct_fields) == members_view(old(self).symbols.struct_fields),
                members_view(self.symbols.struct_methods) == members_view(old(self).symbols.struct_methods),
                self.symbols.globals@ == old(self).symbols.globals@,
                self.resolved_names@ == old(self).resolved_names@,
                self.symbols.names().len() <= old(self).symbols.names().len() + i,
                self.symbols.defs@.len() <= old(self).symbols.defs@.len() + i,
                old(self).room_for(data.variants@.len() as int) ==> self.symbols.defs@.len() - old(self).symbols.defs@.len()
                    + self.diagnostics@.len() - old(self).diagnostics@.len() == i,
                forall|j: int|
                    old(self).diagnostics@.len() <= j < self.diagnostics@.len() ==> variant_report(#[trigger] self.diagnostics@[j], data.variants@),
            decreases data.variants@.len() - i,
        {
            let variant = &data.variants[i];
            if self.room(1) {
                let symbol = self.intern(variant.name.as_str());
                if variants.contains_key(&symbol.0) {
                    let message = concat3("variant `", variant.name.as_str(), "` is already declared");
                    let ghost before = *self;
                    self.push_with_hint(ResolverErrorCode::DuplicateVariant, message.as_str(), "Enum variants must have unique names.", variant.span);
                    proof {
                        assert forall|j: int| old(self).diagnostics@.len() <= j < self.diagnostics@.len() implies variant_report(#[trigger] self.diagnostics@[j], data.variants@) by {
                            if j < before.diagnostics@.len() {
                                assert(self.diagnostics@[j] == before.diagnostics@[j]);
                            } else {
                                assert(reported_as(self.diagnostics@[j], ResolverErrorCode::DuplicateVariant, data.variants@[i as int].span));
                                assert(variant_report(self.diagnostics@[j], data.variants@));
                            }
                        }
                    }
                } else {
                    let def = self.add_def(symbol, DefKind::Variant, variant.span);
                    variants.insert(symbol.0, def);
                }
            }
            i = i + 1;
        }
        let ghost vv = variants@;
        let ghost before_insert = *self;
        self.symbols.enum_variants.insert(enum_def.0, variants);
        proof {
            self.lemma_member_insert(&before_insert, enum_def.0, vv, DefKind::Variant);
            assert(self.diagnostics@ == before_insert.diagnostics@);
            assert forall|j: int| old(self).diagnostics@.len() <= j < self.diagnostics@.len() implies variant_report(#[trigger] self.diagnostics@[j], data.variants@) by {
                assert(self.diagnostics@[j] == before_insert.diagnostics@[j]);
            }
            assert(members_view(self.symbols.enum_variants) =~= members_view(before_insert.symbols.enum_variants).insert(enum_def.0, vv));
            assert(members_view(self.symbols.struct_fields) =~= members_view(before_insert.symbols.struct_fields));
            assert(members_view(self.symbols.struct_methods) =~= members_view(before_insert.symbols.struct_methods));
        }
    }

    /// Inserting a member table of the right kind keeps the resolver
    /// well kept.
    proof fn lemma_member_insert(&self, before: &Self, owner: u32, members: Map<u32, DefId>, kind: DefKind)
        requires
            before.wf(),
            ids_of_kind(members, before.symbols.defs@, kind),
            kind == DefKind::Field || kind == DefKind::Method || kind == DefKind::Variant,
            self.ast == before.ast,
            self.scopes@ == before.scopes@,
            self.diagnostics@ == before.diagnostics@,
            self.resolved_names@ == before.resolved_names@,
            self.resolved_calls@ == before.resolved_calls@,
            self.resolved_fields@ == before.resolved_fields@,
            self.resolved_variants@ == before.resolved_variants@,
            self.symbols.defs@ == before.symbols.defs@,
            self.symbols.strings@ == before.symbols.strings@,
            self.symbols.globals@ == before.symbols.globals@,
            kind == DefKind::Field ==> self.symbols.struct_fields@.contains_key(owner) && self.symbols.struct_fields@ == before.symbols.struct_fields@.insert(owner, self.symbols.struct_fields@[owner])
                && self.symbols.struct_fields@[owner]@ == members && self.symbols.struct_methods@ == before.symbols.struct_methods@
                && self.symbols.enum_variants@ == before.symbols.enum_variants@,
            kind == DefKind::Method ==> self.symbols.struct_methods@.contains_key(owner) && self.symbols.struct_methods@ == before.symbols.struct_methods@.insert(owner, self.symbols.struct_methods@[owner])
                && self.symbols.struct_methods@[owner]@ == members && self.symbols.struct_fields@ == before.symbols.struct_fields@
                && self.symbols.enum_variants@ == before.symbols.enum_variants@,
            kind == DefKind::Variant ==> self.symbols.enum_variants@.contains_key(owner) && self.symbols.enum_variants@ == before.symbols.enum_variants@.insert(owner, self.symbols.enum_variants@[owner])
                && self.symbols.enum_variants@[owner]@ == members && self.symbols.struct_fields@ == before.symbols.struct_fields@
                && self.symbols.struct_methods@ == before.symbols.struct_methods@,
        ensures
            self.wf(),
            self.extends(before),
    {
        assert(self.symbols.names() =~= before.symbols.names());
        if kind == DefKind::Field {
            let t = members_view(self.symbols.struct_fields);
            let t0 = members_view(before.symbols.struct_fields);
            assert(t =~= t0.insert(owner, members));
            lemma_members_insert_kind(t0, owner, members, self.symbols.defs@, kind);
            assert(members_view(self.symbols.struct_methods) =~= members_view(before.symbols.struct_methods));
            assert(members_view(self.symbols.enum_variants) =~= members_view(before.symbols.enum_variants));
        } else if kind == DefKind::Method {
            let t = members_view(self.symbols.struct_methods);
            let t0 = members_view(before.symbols.struct_methods);
            assert(t =~= t0.insert(owner, members));
            lemma_members_insert_kind(t0, owner, members, self.symbols.defs@, kind);
            assert(members_view(self.symbols.struct_fields) =~= members_view(before.symbols.struct_fields));
            assert(members_view(self.symbols.enum_variants) =~= members_view(before.symbols.enum_variants));
        } else {
            let t = members_view(self.symbols.enum_variants);
            let t0 = members_view(before.symbols.enum_variants);
            assert(t =~= t0.insert(owner, members));
            lemma_members_insert_kind(t0, owner, members, self.symbols.defs@, kind);
            assert(members_view(self.symbols.struct_fields) =~= members_view(before.symbols.struct_fields));
            assert(members_view(self.symbols.struct_methods) =~= members_view(before.symbols.struct_methods));
        }
    }

    /// Resolves the whole tree: globals, then struct and enum members, then
    /// function bodies. It succeeds when nothing was reported; what it
    /// gives back is sound (see `resolution_sound`).
    pub fn resolve(self) -> (r: Result<ResolvedAst<'a>, Vec<Diagnostic>>)
        requires
            self.wf(),
        ensures
            match r {
                Ok(res) => res.ast == self.tree() && resolution_sound(
                    res.symbols,
                    res.resolved_names@,
                    res.resolved_calls@,
                    res.resolved_fields@,
                    res.resolved_variants@,
                ),
                Err(ds) => has_error(ds@) && ds@.len() >= self.reported().len(),
            },
            exists|fin: Self| #[trigger] self.passes(&fin) && fin.outcome(r),
    {
        let mut r = self;
        r.collect_globals();
        let ghost g = r;
        r.collect_structs_and_enums();
        let ghost m = r;
        r.resolve_functions();
        let ghost fin = r;
        proof {
            assert(self.globals_collected(&g) && g.members_collected(&m));
            assert(self.passes(&fin));
        }
        let mut errors = false;
        let mut i: usize = 0;
        while i < r.diagnostics.len()
            invariant
                0 <= i <= r.diagnostics@.len(),
                errors <==> exists|j: int| 0 <= j < i && (#[trigger] r.diagnostics@[j]).severity == Severity::Error,
            decreases r.diagnostics@.len() - i,
        {
            if r.diagnostics[i].severity == Severity::Error {
                errors = true;
            }
            i = i + 1;
        }
        if errors {
            Err(r.diagnostics)
        } else {
            Ok(ResolvedAst {
                ast: r.ast,
                symbols: r.symbols,
                resolved_names: r.resolved_names,
                resolved_calls: r.resolved_calls,
                resolved_fields: r.resolved_fields,
                resolved_variants: r.resolved_variants,
            })
        }
    }
}

/// Adding a member table whose members are of `kind` keeps all members
/// of `kind`.
pub proof fn lemma_members_insert_kind(t: Map<u32, Map<u32, DefId>>, owner: u32, members: Map<u32, DefId>, defs: Seq<Def>, kind: DefKind)
    requires
        members_of_kind(t, defs, kind),
        ids_of_kind(members, defs, kind),
    ensures
        members_of_kind(t.insert(owner, members), defs, kind),
{
    let t2 = t.insert(owner, members);
    assert forall|o: u32, n: u32| #[trigger] is_owner_of(t2, o, n) implies t2[o][n].0 < defs.len() && defs[t2[o][n].0 as int].kind == kind by {
        if o == owner {
            assert(members.contains_key(n));
        } else {
            assert(is_owner_of(t, o, n));
        }
    }
}

/// Resolves the names of `ast` (see `Resolver::resolve`).
pub fn resolve(ast: &Ast) -> (r: Result<ResolvedAst<'_>, Vec<Diagnostic>>)
    ensures
        match r {
            Ok(res) => res.ast == ast && resolution_sound(
                res.symbols,
                res.resolved_names@,
                res.resolved_calls@,
                res.resolved_fields@,
                res.resolved_variants@,
            ),
            Err(ds) => has_error(ds@),
        },
        exists|start: Resolver, fin: Resolver| #![trigger start.passes(&fin)] start.fresh(ast) && start.passes(&fin) && fin.outcome(r),
{
    let start = Resolver::new(ast);
    let ghost s0 = start;
    let r = start.resolve();
    proof {
        let fin = choose|fin: Resolver| #[trigger] s0.passes(&fin) && fin.outcome(r);
        assert(s0.passes(&fin));
    }
    r
}

} // verus!
