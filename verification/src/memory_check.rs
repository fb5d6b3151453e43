use vstd::prelude::*;

use crate::borrow::{
    has_mut_at, imm_count, imm_count_at, lemma_count_at_prefix, lemma_counts_push,
    lemma_has_mut_at_push, mut_count, records_kept, BorrowRecord, BorrowState, RefValue,
};
use crate::copy_move::CopyMove;
use crate::diagnostic::{coded_message, Diagnostic, Severity};
use crate::memory_error::{diagnostic, MemoryErrorCode};
use crate::memory_model::{
    assign_model, borrow_model, borrow_ref, borrow_refusal, lemma_assign_wf, lemma_borrow_wf,
    lemma_use_wf, use_model, lemma_set_local,
    lemma_pop_scope_wf, lemma_release_all, lemma_released_local_wf,
    pop_scope_model, release_all, released_local, remove_all,
    add_borrow_model, borrowed_local, lemma_add_borrow_wf, lemma_find_local, local_wf, lookup,
    define_local_model, define_param_model, depth, diag, distinct_names, find_local, fresh_local,
    lemma_define_local_wf, lemma_define_param_wf, lemma_push_scope_wf, model_wf, note_defined,
    push_scope_model, quoted, set_local, CheckerModel, DiagModel, LocalModel, RefModel,
};
use crate::mutability::Mutability;
use crate::span::{NodeId, Span};
use crate::text::str_eq;
use crate::ast::{
    arms_weight, block_weight, expr_weight, exprs_weight, field_inits_weight, stmt_weight,
    stmts_weight, Block, Expr, ExprKind, FieldInit, LiteralExpr, MatchArm, Pattern, PatternKind,
    Stmt, StmtKind, UnaryOp, Ast, FunctionItem, FunctionKind, FunctionParam, Item, ItemKind,
};
use crate::memory_rules::{
    arg_flag, args_eval, arms_eval, assign_eval, bind_eval, block_eval, borrow_eval, call_eval, call_value,
    callee_sig, expr_eval, fields_eval, function_eval, initial_model, items_eval, last_sig, literal_shape,
    lvalue_root_name, memory_diags, opt_shape, param_step, params_eval, path_expr_name, pats_eval,
    program_eval, push_diag, ref_flag, sigs_of, sig_of, stmt_eval, stmts_eval, use_value, void_value,
    SigModel, ValueModel,
};
use crate::type_context::TypeContext;
use crate::ty::{Path, PrimitiveType, Type, TypeKind, TypeShape};

verus! {

/// What the checker keeps of one local.
struct LocalState {
    ty: Type,
    mutable: Mutability,
    moved: Option<Span>,
    borrow: BorrowState,
    scope_depth: usize,
    ref_value: Option<RefValue>,
}

struct LocalEntry {
    name: String,
    state: LocalState,
}

/// The parameter types and return type of a function.
struct FunctionSig {
    params: Vec<Type>,
    return_ty: Option<Type>,
}

struct FunctionEntry {
    name: String,
    sig: FunctionSig,
}

pub open spec fn ref_model(r: RefValue) -> RefModel {
    RefModel {
        origin: r.origin@,
        origin_depth: r.origin_depth as nat,
        mutable: r.mutable,
        from_param: r.from_param,
    }
}

pub open spec fn opt_ref_model(r: Option<RefValue>) -> Option<RefModel> {
    match r {
        Some(v) => Some(ref_model(v)),
        None => None,
    }
}

spec fn local_model(st: LocalState) -> LocalModel {
    LocalModel {
        ty: st.ty.shape(),
        mutable: st.mutable.spec_is_mutable(),
        moved: st.moved,
        imm_borrows: st.borrow.imm_borrows as nat,
        mut_borrow: st.borrow.mut_borrow,
        records: st.borrow.borrow_scopes@,
        scope_depth: st.scope_depth as nat,
        ref_value: opt_ref_model(st.ref_value),
    }
}

/// `d` is an error with no code of its own and no hints.
pub open spec fn plain_error(d: Diagnostic) -> bool {
    d.severity == Severity::Error && d.code is None && d.hints@.len() == 0
}

/// The message of `d` starts with a memory error code and a colon.
pub open spec fn is_coded(d: DiagModel) -> bool {
    exists|c: MemoryErrorCode, t: Seq<char>| d.message == coded_message(c.spec_code(), t)
}

/// Every message of `ds` starts with a memory error code.
pub open spec fn all_coded(ds: Seq<DiagModel>) -> bool {
    forall|i: int| 0 <= i < ds.len() ==> is_coded(#[trigger] ds[i])
}

/// The signature an entry of the function table records.
spec fn entry_sig(e: FunctionEntry) -> SigModel {
    SigModel {
        name: e.name@,
        params: e.sig.params@.map_values(|t: Type| t.shape()),
        ret: opt_shape(e.sig.return_ty),
    }
}

/// What a checked value is, as the rules see it.
spec fn vm(v: ValueInfo) -> ValueModel {
    ValueModel { ty: v.ty.shape(), ref_value: opt_ref_model(v.ref_value) }
}

pub open spec fn diag_model(d: Diagnostic) -> DiagModel {
    DiagModel { message: d.message@, span: d.span }
}

pub open spec fn names_of(v: Vec<String>) -> Seq<Seq<char>> {
    v@.map_values(|s: String| s@)
}

/// `pre`, then `name`, then `post`.
fn quote(pre: &str, name: &str, post: &str) -> (r: String)
    ensures
        r@ == quoted(pre@, name@, post@),
{
    let mut s = String::from_str(pre);
    s.append(name);
    s.append(post);
    s
}

/// The state of the memory-safety checker while it walks one function.
struct MemoryChecker {
    copy_move: CopyMove,
    functions: Vec<FunctionEntry>,
    current_return: Option<Type>,
    scopes: Vec<Vec<String>>,
    scope_borrows: Vec<Vec<String>>,
    locals: Vec<LocalEntry>,
    diagnostics: Vec<Diagnostic>,
    made: Ghost<nat>,
}

impl MemoryChecker {
    spec fn model(&self) -> CheckerModel {
        CheckerModel {
            locals: self.locals@.map_values(|e: LocalEntry| (e.name@, local_model(e.state))),
            scopes: self.scopes@.map_values(|v: Vec<String>| names_of(v)),
            scope_borrows: self.scope_borrows@.map_values(|v: Vec<String>| names_of(v)),
            diags: self.diagnostics@.map_values(|d: Diagnostic| diag_model(d)),
            made: self.made@,
            kinds: self.copy_move@,
        }
    }

    spec fn wf(&self) -> bool {
        &&& model_wf(self.model())
        &&& all_coded(self.model().diags)
        &&& forall|i: int| 0 <= i < self.diagnostics@.len() ==> plain_error(#[trigger] self.diagnostics@[i])
    }

    /// The function table, as signatures.
    spec fn sigs(&self) -> Seq<SigModel> {
        self.functions@.map_values(|e: FunctionEntry| entry_sig(e))
    }

    fn depth(&self) -> (r: usize)
        ensures
            r == depth(self.model()),
    {
        self.scopes.len()
    }

    fn push(&mut self, code: MemoryErrorCode, text: &str, span: Span)
        ensures
            all_coded(old(self).model().diags) ==> all_coded(final(self).model().diags),
            (forall|i: int| 0 <= i < old(self).diagnostics@.len() ==> plain_error(#[trigger] old(self).diagnostics@[i]))
                ==> (forall|i: int| 0 <= i < final(self).diagnostics@.len() ==> plain_error(#[trigger] final(self).diagnostics@[i])),
            final(self).model() == (CheckerModel {
                diags: old(self).model().diags.push(diag(code, text@, span)),
                ..old(self).model()
            }),
            final(self).copy_move == old(self).copy_move,
            final(self).functions == old(self).functions,
    {
        self.diagnostics.push(diagnostic(code, text, span));
        proof {
            let ds = self.model().diags;
            assert(is_coded(ds.last())) by {
                assert(ds.last().message == coded_message(code.spec_code(), text@));
            }
            if all_coded(old(self).model().diags) {
                assert forall|i: int| 0 <= i < ds.len() implies is_coded(#[trigger] ds[i]) by {
                    if i < ds.len() - 1 {
                        assert(ds[i] == old(self).model().diags[i]);
                    }
                }
            }
            assert(self.model().diags =~= old(self).model().diags.push(diag(code, text@, span)));
            assert(self.model().locals =~= old(self).model().locals);
            assert(self.model().scopes =~= old(self).model().scopes);
            assert(self.model().scope_borrows =~= old(self).model().scope_borrows);
        }
    }

    /// Position of the entry for `name`.
    fn find_local(&self, name: &str) -> (r: Option<usize>)
        ensures
            match r {
                Some(k) => find_local(self.model().locals, name@) == Some(k as int) && k
                    < self.locals@.len(),
                None => find_local(self.model().locals, name@) is None,
            },
    {
        let ghost locals = self.model().locals;
        let mut i: usize = self.locals.len();
        proof {
            assert(locals.take(i as int) =~= locals);
        }
        while i > 0
            invariant
                0 <= i <= self.locals@.len(),
                locals == self.model().locals,
                find_local(locals, name@) == find_local(locals.take(i as int), name@),
            decreases i,
        {
            let ghost pre = locals.take(i as int);
            proof {
                assert(pre.last() == locals[i - 1]);
                assert(pre.drop_last() =~= locals.take(i - 1));
            }
            if str_eq(self.locals[i - 1].name.as_str(), name) {
                return Some(i - 1);
            }
            i = i - 1;
        }
        None
    }

    fn push_scope(&mut self)
        requires
            old(self).wf(),
        ensures
            final(self).diagnostics@ == old(self).diagnostics@,
            final(self).model() == push_scope_model(old(self).model()),
            final(self).wf(),
            final(self).copy_move == old(self).copy_move,
            final(self).functions == old(self).functions,
    {
        self.scopes.push(Vec::new());
        self.scope_borrows.push(Vec::new());
        let n = self.scopes.len();
        proof {
            let e: Vec<String> = self.scopes@.last();
            assert(names_of(e) =~= Seq::<Seq<char>>::empty());
            let f: Vec<String> = self.scope_borrows@.last();
            assert(names_of(f) =~= Seq::<Seq<char>>::empty());
            assert(self.model().scopes =~= old(self).model().scopes.push(seq![]));
            assert(self.model().scope_borrows =~= old(self).model().scope_borrows.push(seq![]));
            assert(self.model().locals =~= old(self).model().locals);
            assert(self.model().diags =~= old(self).model().diags);
            lemma_push_scope_wf(old(self).model());
        }
    }

    /// Adds `name` to the innermost scope's list of defined names.
    fn note_defined(&mut self, name: &str)
        ensures
            final(self).diagnostics@ == old(self).diagnostics@,
            final(self).model() == (CheckerModel {
                scopes: note_defined(old(self).model(), name@),
                ..old(self).model()
            }),
            final(self).copy_move == old(self).copy_move,
            final(self).functions == old(self).functions,
    {
        let n = self.scopes.len();
        if n > 0 {
            self.scopes[n - 1].push(String::from_str(name));
            proof {
                assert(names_of(self.scopes@[n - 1]) =~= names_of(old(self).scopes@[n - 1]).push(
                    name@,
                ));
            }
        }
        proof {
            assert(self.model().scopes =~= note_defined(old(self).model(), name@));
            assert(self.model().locals =~= old(self).model().locals);
            assert(self.model().scope_borrows =~= old(self).model().scope_borrows);
            assert(self.model().diags =~= old(self).model().diags);
        }
    }

    /// Stores `st` as the entry for `name`, replacing any earlier one.
    fn set_local(&mut self, name: &str, st: LocalState)
        requires
            distinct_names(old(self).model().locals),
        ensures
            final(self).diagnostics@ == old(self).diagnostics@,
            final(self).model() == (CheckerModel {
                locals: set_local(old(self).model().locals, name@, local_model(st)),
                ..old(self).model()
            }),
            final(self).copy_move == old(self).copy_move,
            final(self).functions == old(self).functions,
    {
        match self.find_local(name) {
            Some(k) => {
                self.locals.set(k, LocalEntry { name: String::from_str(name), state: st });
            },
            None => {
                self.locals.push(LocalEntry { name: String::from_str(name), state: st });
            },
        }
        proof {
            assert(self.model().locals =~= set_local(
                old(self).model().locals,
                name@,
                local_model(st),
            ));
            assert(self.model().scopes =~= old(self).model().scopes);
            assert(self.model().scope_borrows =~= old(self).model().scope_borrows);
            assert(self.model().diags =~= old(self).model().diags);
        }
    }

    /// Defines a `let` binding (see `define_local_model`).
    fn define_local(
        &mut self,
        name: &str,
        ty: &Type,
        mutable: bool,
        span: Span,
        ref_value: Option<RefValue>,
    )
        requires
            old(self).wf(),
        ensures
            final(self).model() == define_local_model(
                old(self).model(),
                name@,
                ty.shape(),
                mutable,
                span,
                opt_ref_model(ref_value),
            ),
            final(self).wf(),
            final(self).copy_move == old(self).copy_move,
            final(self).functions == old(self).functions,
    {
        let ghost m0 = self.model();
        let d = self.depth();
        let escapes = match &ref_value {
            Some(r) => r.from_param || r.origin_depth < d,
            None => false,
        };
        if escapes {
            let text = quote("reference `", name, "` escapes its origin scope");
            self.push(MemoryErrorCode::ReferenceEscapesFunction, text.as_str(), span);
        }
        let st = LocalState {
            ty: ty.duplicate(),
            mutable: Mutability::from_bool(mutable),
            moved: None,
            borrow: BorrowState::new(),
            scope_depth: d,
            ref_value,
        };
        proof {
            assert(local_model(st) == fresh_local(ty.shape(), mutable, depth(m0), opt_ref_model(ref_value)));
        }
        self.set_local(name, st);
        self.note_defined(name);
        proof {
            lemma_define_local_wf(m0, name@, ty.shape(), mutable, span, opt_ref_model(ref_value));
        }
    }

    /// Defines a parameter (see `define_param_model`).
    fn define_param(&mut self, name: &str, ty: &Type, ref_value: Option<RefValue>)
        requires
            old(self).wf(),
        ensures
            final(self).model() == define_param_model(
                old(self).model(),
                name@,
                ty.shape(),
                opt_ref_model(ref_value),
            ),
            final(self).wf(),
            final(self).copy_move == old(self).copy_move,
            final(self).functions == old(self).functions,
    {
        let ghost m0 = self.model();
        let d = self.depth();
        let st = LocalState {
            ty: ty.duplicate(),
            mutable: Mutability::Mutable,
            moved: None,
            borrow: BorrowState::new(),
            scope_depth: d,
            ref_value,
        };
        proof {
            assert(local_model(st) == fresh_local(ty.shape(), true, depth(m0), opt_ref_model(ref_value)));
        }
        self.set_local(name, st);
        self.note_defined(name);
        proof {
            lemma_define_param_wf(m0, name@, ty.shape(), opt_ref_model(ref_value));
        }
    }

    /// Records a borrow of `name` in the current scope (see
    /// `add_borrow_model`); the rules must allow it.
    fn add_borrow(&mut self, name: &str, mutable: bool, span: Span)
        requires
            old(self).wf(),
            depth(old(self).model()) >= 1,
            old(self).model().made < u32::MAX,
            lookup(old(self).model(), name@) matches Some(l) ==> (if mutable {
                l.imm_borrows == 0 && !l.mut_borrow
            } else {
                !l.mut_borrow
            }),
        ensures
            final(self).diagnostics@ == old(self).diagnostics@,
            final(self).model() == add_borrow_model(old(self).model(), name@, mutable, span),
            final(self).wf(),
            final(self).copy_move == old(self).copy_move,
            final(self).functions == old(self).functions,
    {
        let ghost m0 = self.model();
        let d = self.depth();
        match self.find_local(name) {
            Some(k) => {
                proof {
                    lemma_find_local(m0.locals, name@);
                    assert(local_wf(m0, m0.locals[k as int].0, m0.locals[k as int].1));
                }
                let ghost before = self.locals@[k as int].state;
                let mut entry = self.locals.remove(k);
                if mutable {
                    entry.state.borrow.mut_borrow = true;
                } else {
                    entry.state.borrow.imm_borrows = entry.state.borrow.imm_borrows + 1;
                }
                entry.state.borrow.borrow_scopes.push(BorrowRecord { mutable, scope_depth: d, span });
                proof {
                    assert(local_model(entry.state) == borrowed_local(local_model(before), mutable, depth(m0), span));
                }
                self.locals.insert(k, entry);
                proof {
                    assert(self.model().locals =~= set_local(m0.locals, name@, borrowed_local(local_model(before), mutable, depth(m0), span)));
                }
            },
            None => {},
        }
        let n = self.scope_borrows.len();
        if n > 0 {
            if !names_contain(&self.scope_borrows[n - 1], name) {
                self.scope_borrows[n - 1].push(String::from_str(name));
                proof {
                    assert(names_of(self.scope_borrows@[n - 1]) =~= names_of(old(self).scope_borrows@[n - 1]).push(name@));
                }
            }
        }
        self.made = Ghost(self.made@ + 1);
        proof {
            assert(self.model().scope_borrows =~= add_borrow_model(m0, name@, mutable, span).scope_borrows);
            assert(self.model().scopes =~= m0.scopes);
            assert(self.model().diags =~= m0.diags);
            if find_local(m0.locals, name@) is None {
                assert(self.model().locals =~= m0.locals);
            }
            lemma_add_borrow_wf(m0, name@, mutable, span);
        }
    }

    /// Drops the borrows taken at depth `d` from the entry at `k`.
    fn release_at(&mut self, k: usize, d: usize)
        requires
            k < old(self).locals@.len(),
            old(self).model().locals[k as int].1.imm_borrows == imm_count(
                old(self).model().locals[k as int].1.records,
            ),
        ensures
            final(self).diagnostics@ == old(self).diagnostics@,
            final(self).model() == (CheckerModel {
                locals: old(self).model().locals.update(
                    k as int,
                    (old(self).model().locals[k as int].0, released_local(old(self).model().locals[k as int].1, d as int)),
                ),
                ..old(self).model()
            }),
            final(self).copy_move == old(self).copy_move,
            final(self).functions == old(self).functions,
    {
        let ghost m0 = self.model();
        let mut entry = self.locals.remove(k);
        let ghost recs = entry.state.borrow.borrow_scopes@;
        let mut kept: Vec<BorrowRecord> = Vec::new();
        let mut imm_removed: u32 = 0;
        let mut remove_mut = false;
        let mut j: usize = 0;
        proof {
            assert(recs.take(0) =~= Seq::<BorrowRecord>::empty());
            lemma_count_at_prefix(recs, d as int, 0);
        }
        while j < entry.state.borrow.borrow_scopes.len()
            invariant
                recs == entry.state.borrow.borrow_scopes@,
                0 <= j <= recs.len(),
                kept@ == records_kept(recs.take(j as int), d as int),
                imm_removed == imm_count_at(recs.take(j as int), d as int),
                remove_mut == has_mut_at(recs.take(j as int), d as int),
                imm_count(recs) <= u32::MAX,
            decreases recs.len() - j,
        {
            let r = entry.state.borrow.borrow_scopes[j];
            proof {
                assert(recs.take(j + 1) =~= recs.take(j as int).push(r));
                lemma_counts_push(recs.take(j as int), r, d as int);
                lemma_has_mut_at_push(recs.take(j as int), r, d as int);
                lemma_count_at_prefix(recs, d as int, j + 1);
            }
            if r.scope_depth == d {
                if r.mutable {
                    remove_mut = true;
                } else {
                    imm_removed = imm_removed + 1;
                }
            } else {
                kept.push(r);
            }
            j = j + 1;
        }
        proof {
            assert(recs.take(j as int) =~= recs);
        }
        entry.state.borrow.borrow_scopes = kept;
        entry.state.borrow.imm_borrows = entry.state.borrow.imm_borrows.saturating_sub(imm_removed);
        if remove_mut {
            entry.state.borrow.mut_borrow = false;
        }
        self.locals.insert(k, entry);
        proof {
            assert(local_model(entry.state) == released_local(m0.locals[k as int].1, d as int));
            assert(self.model().locals =~= m0.locals.update(
                k as int,
                (m0.locals[k as int].0, released_local(m0.locals[k as int].1, d as int)),
            ));
        }
    }

    /// Closes the innermost scope (see `pop_scope_model`).
    fn pop_scope(&mut self)
        requires
            old(self).wf(),
        ensures
            final(self).model() == pop_scope_model(old(self).model()),
            final(self).wf(),
            final(self).copy_move == old(self).copy_move,
            final(self).functions == old(self).functions,
    {
        let ghost m0 = self.model();
        let d = self.depth();
        let ghost released = if m0.scopes.len() == 0 {
            m0.locals
        } else {
            release_all(m0.locals, m0.scope_borrows.last(), d as int)
        };
        match self.scope_borrows.pop() {
            Some(borrowed) => {
                let ghost names = names_of(borrowed);
                proof {
                    assert(names == m0.scope_borrows.last());
                    assert(names.take(0) =~= Seq::<Seq<char>>::empty());
                    assert forall|i: int| 0 <= i < m0.locals.len() implies (#[trigger] m0.locals[i]).1.imm_borrows == imm_count(m0.locals[i].1.records)
                        && m0.locals[i].1.mut_borrow == (mut_count(m0.locals[i].1.records) > 0)
                        && mut_count(m0.locals[i].1.records) <= 1
                        && (m0.locals[i].1.mut_borrow ==> m0.locals[i].1.imm_borrows == 0) by {
                        assert(local_wf(m0, m0.locals[i].0, m0.locals[i].1));
                    }
                }
                let mut i: usize = 0;
                while i < borrowed.len()
                    invariant
                        self.diagnostics@ == old(self).diagnostics@,
                        names == names_of(borrowed),
                        0 <= i <= names.len(),
                        d == depth(m0),
                        self.model().locals == release_all(m0.locals, names.take(i as int), d as int),
                        self.copy_move == old(self).copy_move,
                        self.functions == old(self).functions,
                        self.model().scopes == m0.scopes,
                        self.model().scope_borrows == m0.scope_borrows.drop_last(),
                        self.model().diags == m0.diags,
                        self.model().made == m0.made,
                        model_wf(m0),
                        forall|i: int| 0 <= i < m0.locals.len() ==> (#[trigger] m0.locals[i]).1.imm_borrows == imm_count(m0.locals[i].1.records)
                            && m0.locals[i].1.mut_borrow == (mut_count(m0.locals[i].1.records) > 0)
                            && mut_count(m0.locals[i].1.records) <= 1
                            && (m0.locals[i].1.mut_borrow ==> m0.locals[i].1.imm_borrows == 0),
                    decreases names.len() - i,
                {
                    let ghost before = self.model();
                    proof {
                        assert(names.take(i + 1).drop_last() =~= names.take(i as int));
                        assert(names.take(i + 1).last() == names[i as int]);
                        lemma_release_all(m0.locals, names.take(i as int), d as int);
                    }
                    match self.find_local(borrowed[i].as_str()) {
                        Some(k) => {
                            proof {
                                lemma_find_local(before.locals, names[i as int]);
                                let n = before.locals[k as int].0;
                                assert(n == m0.locals[k as int].0);
                                assert(local_wf(m0, n, m0.locals[k as int].1));
                                let l = before.locals[k as int].1;
                                if names.take(i as int).contains(n) {
                                    lemma_released_local_wf(m0, n, m0.locals[k as int].1, d as int);
                                    assert(l == released_local(m0.locals[k as int].1, d as int));
                                } else {
                                    assert(l == m0.locals[k as int].1);
                                }
                            }
                            self.release_at(k, d);
                        },
                        None => {},
                    }
                    i = i + 1;
                    proof {
                        assert(self.model().locals =~= release_all(m0.locals, names.take(i as int), d as int));
                    }
                }
                proof {
                    assert(names.take(i as int) =~= names);
                }
            },
            None => {},
        }
        match self.scopes.pop() {
            Some(defined) => {
                let ghost names = names_of(defined);
                proof {
                    assert(names == m0.scopes.last());
                    assert(names.take(0) =~= Seq::<Seq<char>>::empty());
                }
                let mut i: usize = 0;
                while i < defined.len()
                    invariant
                        self.diagnostics@ == old(self).diagnostics@,
                        names == names_of(defined),
                        0 <= i <= names.len(),
                        self.model().locals == remove_all(released, names.take(i as int)),
                        self.copy_move == old(self).copy_move,
                        self.functions == old(self).functions,
                        self.model().scopes == m0.scopes.drop_last(),
                        self.model().scope_borrows == m0.scope_borrows.drop_last(),
                        self.model().diags == m0.diags,
                        self.model().made == m0.made,
                    decreases names.len() - i,
                {
                    proof {
                        assert(names.take(i + 1).drop_last() =~= names.take(i as int));
                        assert(names.take(i + 1).last() == names[i as int]);
                    }
                    match self.find_local(defined[i].as_str()) {
                        Some(k) => {
                            self.locals.remove(k);
                        },
                        None => {},
                    }
                    i = i + 1;
                    proof {
                        assert(self.model().locals =~= remove_all(released, names.take(i as int)));
                    }
                }
                proof {
                    assert(names.take(i as int) =~= names);
                }
            },
            None => {},
        }
        proof {
            lemma_pop_scope_wf(m0);
            if m0.scopes.len() == 0 {
                assert(self.model().locals =~= m0.locals);
                assert(self.model().scopes =~= m0.scopes);
                assert(self.model().scope_borrows =~= m0.scope_borrows);
            }
        }
    }

    /// Borrows `name` at `span` (see `borrow_model`); on success, the
    /// reference value the borrow yields.
    fn borrow_name(&mut self, name: &str, mutable: bool, span: Span) -> (r: Option<RefValue>)
        requires
            old(self).wf(),
            depth(old(self).model()) >= 1,
            old(self).model().made < u32::MAX,
        ensures
            final(self).model() == borrow_model(old(self).model(), name@, mutable, span),
            final(self).wf(),
            final(self).copy_move == old(self).copy_move,
            final(self).functions == old(self).functions,
            r is Some <==> borrow_refusal(old(self).model(), name@, mutable) is None,
            r matches Some(v) ==> ref_model(v) == borrow_ref(old(self).model(), name@, mutable),
    {
        let ghost m0 = self.model();
        let found = self.find_local(name);
        proof {
            lemma_find_local(m0.locals, name@);
            lemma_borrow_wf(m0, name@, mutable, span);
        }
        if mutable {
            let is_mut = match found {
                Some(k) => self.locals[k].state.mutable.is_mutable(),
                None => false,
            };
            if !is_mut {
                let text = quote("cannot take mutable reference to immutable `", name, "`");
                self.push(MemoryErrorCode::MutableRefToImmutable, text.as_str(), span);
                return None;
            }
            if let Some(k) = found {
                if self.locals[k].state.borrow.imm_borrows > 0 {
                    let text = quote("cannot mutably borrow `", name, "` while immutably borrowed");
                    self.push(MemoryErrorCode::MutableBorrowConflict, text.as_str(), span);
                    return None;
                }
                if self.locals[k].state.borrow.mut_borrow {
                    let text = quote("cannot mutably borrow `", name, "` more than once");
                    self.push(MemoryErrorCode::MutableBorrowConflict, text.as_str(), span);
                    return None;
                }
            }
        } else if let Some(k) = found {
            if self.locals[k].state.borrow.mut_borrow {
                let text = quote("cannot immutably borrow `", name, "` while mutably borrowed");
                self.push(MemoryErrorCode::ImmutableBorrowConflict, text.as_str(), span);
                return None;
            }
        }
        let origin_depth = match found {
            Some(k) => self.locals[k].state.scope_depth,
            None => self.depth(),
        };
        self.add_borrow(name, mutable, span);
        Some(RefValue { origin: String::from_str(name), origin_depth, mutable, from_param: false })
    }

    /// Assigning to `name` at `span` (see `assign_model`).
    fn assign_name(&mut self, name: &str, span: Span)
        requires
            old(self).wf(),
        ensures
            final(self).model() == assign_model(old(self).model(), name@, span),
            final(self).wf(),
            final(self).copy_move == old(self).copy_move,
            final(self).functions == old(self).functions,
    {
        let ghost m0 = self.model();
        proof {
            lemma_find_local(m0.locals, name@);
            lemma_assign_wf(m0, name@, span);
        }
        let k = match self.find_local(name) {
            Some(k) => k,
            None => {
                return;
            },
        };
        if !self.locals[k].state.mutable.is_mutable() {
            let text = quote("cannot mutate immutable `", name, "`");
            self.push(MemoryErrorCode::MutationWithoutMut, text.as_str(), span);
            return;
        }
        if self.locals[k].state.borrow.is_borrowed() {
            let text = quote("cannot mutate `", name, "` while borrowed");
            self.push(MemoryErrorCode::MutationWhileBorrowed, text.as_str(), span);
            return;
        }
        let mut entry = self.locals.remove(k);
        entry.state.moved = None;
        self.locals.insert(k, entry);
        proof {
            assert(self.model().locals =~= set_local(
                m0.locals,
                name@,
                LocalModel { moved: None, ..m0.locals[k as int].1 },
            ));
        }
    }

    /// Uses local `name` at `span` (see `use_model`); the value it gives.
    fn use_path(&mut self, name: Option<&str>, span: Span, mode: UseMode) -> (r: ValueInfo)
        requires
            old(self).wf(),
        ensures
            final(self).model() == match name {
                Some(n) => use_model(old(self).model(), n@, span, mode == UseMode::Move),
                None => old(self).model(),
            },
            final(self).wf(),
            final(self).copy_move == old(self).copy_move,
            final(self).functions == old(self).functions,
            match name {
                Some(n) => match lookup(old(self).model(), n@) {
                    Some(l) => r.ty.shape() == l.ty && opt_ref_model(r.ref_value) == (if l.moved is Some {
                        None
                    } else {
                        l.ref_value
                    }),
                    None => r.ty.shape() == TypeShape::Void && r.ref_value is None,
                },
                None => r.ty.shape() == TypeShape::Void && r.ref_value is None,
            },
    {
        let ghost m0 = self.model();
        let name = match name {
            Some(n) => n,
            None => {
                return ValueInfo::unknown();
            },
        };
        proof {
            lemma_find_local(m0.locals, name@);
            lemma_use_wf(m0, name@, span, mode == UseMode::Move);
        }
        let k = match self.find_local(name) {
            Some(k) => k,
            None => {
                return ValueInfo::unknown();
            },
        };
        let ty = self.locals[k].state.ty.duplicate();
        let ref_value = match &self.locals[k].state.ref_value {
            Some(v) => Some(v.duplicate()),
            None => None,
        };
        if let Some(moved_at) = self.locals[k].state.moved {
            let text = quote("use of `", name, "` after move");
            self.push(MemoryErrorCode::UseAfterMove, text.as_str(), moved_at);
            return ValueInfo::typed(ty);
        }
        let moving = match mode {
            UseMode::Move => true,
            UseMode::Read => false,
        };
        if moving && !self.copy_move.is_copy(&self.locals[k].state.ty) {
            if self.locals[k].state.borrow.is_borrowed() {
                let text = quote("cannot move `", name, "` while borrowed");
                self.push(MemoryErrorCode::MoveWhileBorrowed, text.as_str(), span);
            } else {
                let mut entry = self.locals.remove(k);
                entry.state.moved = Some(span);
                self.locals.insert(k, entry);
                proof {
                    assert(self.model().locals =~= set_local(
                        m0.locals,
                        name@,
                        LocalModel { moved: Some(span), ..m0.locals[k as int].1 },
                    ));
                }
            }
        }
        ValueInfo { ty, ref_value }
    }
}

/// How an expression's value is used.
#[derive(Clone, Copy, PartialEq, Eq, Structural)]
enum UseMode {
    Read,
    Move,
}

/// What checking an expression yields: its type, as far as known, and the
/// reference it holds, if any.
struct ValueInfo {
    ty: Type,
    ref_value: Option<RefValue>,
}

impl ValueInfo {
    fn typed(ty: Type) -> (r: ValueInfo)
        ensures
            r.ty == ty,
            r.ref_value is None,
    {
        ValueInfo { ty, ref_value: None }
    }

    fn unknown() -> (r: ValueInfo)
        ensures
            r.ty.shape() == TypeShape::Void,
            r.ref_value is None,
    {
        ValueInfo::typed(void_type(Span::new(0, 0, 0)))
    }

    fn with_span(self, span: Span) -> (r: ValueInfo)
        ensures
            r.ty.shape() == self.ty.shape(),
            r.ty.span == span,
            r.ref_value == self.ref_value,
    {
        let mut s = self;
        s.ty.span = span;
        s
    }
}

/// The unit type `()` at `span`.
fn void_type(span: Span) -> (r: Type)
    ensures
        r.shape() == TypeShape::Void,
        r.span == span,
        r.id == NodeId(0),
{
    Type { id: NodeId::new(0), kind: TypeKind::Void, span }
}

/// Whether `v` lists `name`.
fn names_contain(v: &Vec<String>, name: &str) -> (r: bool)
    ensures
        r == names_of(*v).contains(name@),
{
    let mut i: usize = 0;
    while i < v.len()
        invariant
            0 <= i <= v@.len(),
            forall|k: int| 0 <= k < i ==> v@[k]@ != name@,
        decreases v@.len() - i,
    {
        if str_eq(v[i].as_str(), name) {
            proof {
                assert(names_of(*v)[i as int] == name@);
            }
            return true;
        }
        i = i + 1;
    }
    proof {
        if names_of(*v).contains(name@) {
            let k = choose|k: int| 0 <= k < names_of(*v).len() && names_of(*v)[k] == name@;
            assert(v@[k]@ == name@);
        }
    }
    false
}

fn last_segment(path: &Path) -> (r: Option<&str>)
    ensures
        match r {
            Some(s) => path.segments@.len() > 0 && s@ == path.segments@.last().name@,
            None => path.segments@.len() == 0,
        },
{
    let n = path.segments.len();
    if n == 0 {
        None
    } else {
        Some(path.segments[n - 1].name.as_str())
    }
}

fn path_name(expr: &Expr) -> (r: Option<&str>)
    ensures
        match r {
            Some(s) => path_expr_name(*expr) == Some(s@),
            None => path_expr_name(*expr) is None,
        },
{
    match &expr.kind {
        ExprKind::Path(path) => last_segment(path),
        _ => None,
    }
}

fn lvalue_root(expr: &Expr) -> (r: Option<&str>)
    ensures
        match r {
            Some(s) => lvalue_root_name(*expr) == Some(s@),
            None => lvalue_root_name(*expr) is None,
        },
    decreases expr,
{
    match &expr.kind {
        ExprKind::Path(path) => last_segment(path),
        ExprKind::Field { base, .. } => lvalue_root(base),
        ExprKind::Index { base, .. } => lvalue_root(base),
        _ => None,
    }
}

/// The type of a literal.
fn literal_type(literal: &LiteralExpr) -> (r: Type)
    ensures
        r.shape() == literal_shape(*literal),
{
    let p = match literal {
        LiteralExpr::Integer(_) => PrimitiveType::I32,
        LiteralExpr::Float(_) => PrimitiveType::F64,
        LiteralExpr::String(_) => PrimitiveType::Str,
        LiteralExpr::CString(_) => PrimitiveType::CStr,
        LiteralExpr::Char(_) => PrimitiveType::Char,
        LiteralExpr::Bool(_) => PrimitiveType::Bool,
    };
    Type { id: NodeId::new(0), kind: TypeKind::Primitive(p), span: Span::new(0, 0, 0) }
}

/// What every step of the walk keeps: the invariant, the depth, the
/// diagnostics so far, the program tables, and at most `w` more borrows.
spec fn walked(a: MemoryChecker, b: MemoryChecker, w: nat) -> bool {
    &&& b.wf()
    &&& depth(b.model()) == depth(a.model())
    &&& a.model().diags.is_prefix_of(b.model().diags)
    &&& b.model().made <= a.model().made + w
    &&& b.copy_move == a.copy_move
    &&& b.functions == a.functions
}

proof fn lemma_walked_trans(a: MemoryChecker, b: MemoryChecker, c: MemoryChecker, w1: nat, w2: nat)
    requires
        walked(a, b, w1),
        walked(b, c, w2),
    ensures
        walked(a, c, w1 + w2),
{
    let x = a.model().diags;
    let y = b.model().diags;
    let z = c.model().diags;
    assert(x =~= z.subrange(0, x.len() as int)) by {
        assert forall|i: int| 0 <= i < x.len() implies x[i] == z[i] by {
            assert(x[i] == y[i]);
            assert(y[i] == z[i]);
        }
    }
}

proof fn lemma_walked_more(a: MemoryChecker, b: MemoryChecker, w1: nat, w2: nat)
    requires
        walked(a, b, w1),
        w1 <= w2,
    ensures
        walked(a, b, w2),
{
}

/// A walk inside a scope opened and closed around it is a walk.
proof fn lemma_scoped_walk(a: MemoryChecker, p: MemoryChecker, q: MemoryChecker, r: MemoryChecker, w: nat)
    requires
        a.wf(),
        p.model() == push_scope_model(a.model()),
        p.copy_move == a.copy_move,
        p.functions == a.functions,
        walked(p, q, w),
        r.model() == pop_scope_model(q.model()),
        r.wf(),
        r.copy_move == q.copy_move,
        r.functions == q.functions,
    ensures
        walked(a, r, w),
{
    assert(depth(q.model()) == depth(a.model()) + 1);
    assert(r.model().diags == q.model().diags);
    assert(a.model().diags == p.model().diags);
}

proof fn lemma_walked_push(m: CheckerModel, d: DiagModel)
    ensures
        m.diags.is_prefix_of(m.diags.push(d)),
        m.diags.is_prefix_of(m.diags),
{
    assert(m.diags =~= m.diags.push(d).subrange(0, m.diags.len() as int));
    assert(m.diags =~= m.diags.subrange(0, m.diags.len() as int));
}

proof fn lemma_exprs_weight_step(es: Seq<Expr>, i: int)
    requires
        0 <= i < es.len(),
    ensures
        exprs_weight(es.skip(i)) == expr_weight(es[i]) + exprs_weight(es.skip(i + 1)),
        expr_weight(es[i]) >= 1,
{
    let t = es.skip(i);
    assert(t[0] == es[i]);
    assert(t.subrange(1, t.len() as int) =~= es.skip(i + 1));
}

proof fn lemma_stmts_weight_step(ss: Seq<Stmt>, i: int)
    requires
        0 <= i < ss.len(),
    ensures
        stmts_weight(ss.skip(i)) == stmt_weight(ss[i]) + stmts_weight(ss.skip(i + 1)),
{
    let t = ss.skip(i);
    assert(t[0] == ss[i]);
    assert(t.subrange(1, t.len() as int) =~= ss.skip(i + 1));
}

proof fn lemma_fields_weight_step(fs: Seq<FieldInit>, i: int)
    requires
        0 <= i < fs.len(),
    ensures
        field_inits_weight(fs.skip(i)) == expr_weight(fs[i].value) + field_inits_weight(fs.skip(i + 1)),
{
    let t = fs.skip(i);
    assert(t[0] == fs[i]);
    assert(t.subrange(1, t.len() as int) =~= fs.skip(i + 1));
}

proof fn lemma_arms_weight_step(arms: Seq<MatchArm>, i: int)
    requires
        0 <= i < arms.len(),
    ensures
        arms_weight(arms.skip(i)) == (match arms[i].guard {
            Some(g) => expr_weight(g),
            None => 0nat,
        }) + expr_weight(arms[i].body) + arms_weight(arms.skip(i + 1)),
{
    let t = arms.skip(i);
    assert(t[0] == arms[i]);
    assert(t.subrange(1, t.len() as int) =~= arms.skip(i + 1));
}

impl MemoryChecker {
    /// Binds the names of `pattern`: a binding takes the written type, else
    /// the value's type, and the value's reference.
    fn bind_pattern(&mut self, pattern: &Pattern, ty: Option<&Type>, value: Option<ValueInfo>, span: Span)
        requires
            old(self).wf(),
        ensures
            walked(*old(self), *final(self), 0),
            final(self).model() == bind_eval(
                old(self).model(),
                *pattern,
                match ty {
                    Some(t) => Some(t.shape()),
                    None => None,
                },
                match value {
                    Some(v) => Some(vm(v)),
                    None => None,
                },
            ),
        decreases pattern,
    {
        let ghost m0 = self.model();
        proof {
            lemma_walked_push(m0, diag(MemoryErrorCode::ReferenceEscapesFunction, seq![], span));
        }
        match &pattern.kind {
            PatternKind::Binding { name, mutable } => {
                let local_ty = match ty {
                    Some(t) => t.duplicate(),
                    None => match &value {
                        Some(info) => info.ty.duplicate(),
                        None => void_type(span),
                    },
                };
                let ref_value = match value {
                    Some(info) => info.ref_value,
                    None => None,
                };
                self.define_local(name.as_str(), &local_ty, *mutable, pattern.span, ref_value);
                proof {
                    let m1 = self.model();
                    if m1.diags != m0.diags {
                        let d = diag(
                            MemoryErrorCode::ReferenceEscapesFunction,
                            quoted("reference `"@, name@, "` escapes its origin scope"@),
                            pattern.span,
                        );
                        assert(m1.diags == m0.diags.push(d));
                        lemma_walked_push(m0, d);
                    }
                }
            },
            PatternKind::Tuple(items) => {
                let mut i: usize = 0;
                while i < items.len()
                    invariant
                        pattern.kind == PatternKind::Tuple(*items),
                        0 <= i <= items@.len(),
                        walked(*old(self), *self, 0),
                        self.model() == pats_eval(old(self).model(), *items, i as nat),
                    decreases items@.len() - i,
                {
                    proof {
                        assert(decreases_to!(*pattern => pattern.kind));
                        assert(decreases_to!(pattern.kind => pattern.kind->Tuple_0));
                        assert(decreases_to!(*items => items[i as int]));
                        assert(decreases_to!(*pattern => items[i as int]));
                    }
                    let ghost before = *self;
                    self.bind_pattern(&items[i], None, None, items[i].span);
                    proof {
                        lemma_walked_trans(*old(self), before, *self, 0, 0);
                    }
                    i = i + 1;
                }
            },
            PatternKind::Wildcard => {},
            PatternKind::Path(_) => {},
        }
    }
}

/// The last entry named `n` gives the last signature named `n`.
proof fn lemma_last_sig(fs: Seq<FunctionEntry>, n: Seq<char>, k: int)
    requires
        -1 <= k < fs.len(),
        forall|j: int| k < j < fs.len() ==> (#[trigger] fs[j]).name@ != n,
        k >= 0 ==> fs[k].name@ == n,
    ensures
        last_sig(fs.map_values(|e: FunctionEntry| entry_sig(e)), n) == if k >= 0 {
            Some(entry_sig(fs[k]))
        } else {
            None::<SigModel>
        },
    decreases fs.len(),
{
    let ss = fs.map_values(|e: FunctionEntry| entry_sig(e));
    if fs.len() > 0 {
        let d = fs.drop_last();
        assert(ss.drop_last() =~= d.map_values(|e: FunctionEntry| entry_sig(e)));
        if k < fs.len() - 1 {
            assert(fs[fs.len() - 1].name@ != n);
            assert forall|j: int| k < j < d.len() implies (#[trigger] d[j]).name@ != n by {
                assert(d[j] == fs[j]);
            }
            if k >= 0 {
                assert(d[k] == fs[k]);
            }
            lemma_last_sig(d, n, k);
        }
    }
}

impl MemoryChecker {
    /// Checks an expression used in `mode`; the value it gives.
    #[verifier::spinoff_prover]
    #[verifier::rlimit(60)]
    fn check_expr(&mut self, expr: &Expr, mode: UseMode) -> (r: ValueInfo)
        requires
            old(self).wf(),
            depth(old(self).model()) >= 1,
            old(self).model().made + expr_weight(*expr) <= u32::MAX,
        ensures
            walked(*old(self), *final(self), expr_weight(*expr)),
            (final(self).model(), vm(r)) == expr_eval(old(self).sigs(), old(self).model(), *expr, mode == UseMode::Move),
        decreases expr, 1nat,
    {
        let ghost m0 = self.model();
        let ghost w = expr_weight(*expr);
        proof {
            lemma_walked_push(m0, diag(MemoryErrorCode::UseAfterMove, seq![], expr.span));
        }
        match &expr.kind {
            ExprKind::Literal(literal) => ValueInfo::typed(literal_type(literal)),
            ExprKind::Path(path) => {
                let name = last_segment(path);
                let r = self.use_path(name, expr.span, mode);
                proof {
                    let m1 = self.model();
                    if m1.diags != m0.diags {
                        lemma_walked_push(m0, m1.diags.last());
                        assert(m1.diags =~= m0.diags.push(m1.diags.last()));
                    }
                }
                r
            },
            ExprKind::Unary { op, expr: inner } => {
                match op {
                    UnaryOp::Ref => self.borrow_expr(inner, false, expr.span),
                    UnaryOp::RefMut => self.borrow_expr(inner, true, expr.span),
                    _ => self.check_expr(inner, UseMode::Read),
                }
            },
            ExprKind::Assign { target, value } => {
                let info = self.check_expr(value, UseMode::Move);
                let ghost mid = *self;
                self.assign_target(target, expr.span);
                proof {
                    lemma_walked_trans(*old(self), mid, *self, expr_weight(**value), expr_weight(**target));
                }
                info
            },
            ExprKind::Call { callee, args } => {
                proof {
                    assert(decreases_to!(*expr => expr.kind));
                    assert(decreases_to!(expr.kind => expr.kind->args));
                }
                self.check_call(callee, args, expr.span)
            },
            ExprKind::Field { base, .. } => {
                self.check_expr(base, UseMode::Read);
                ValueInfo::unknown()
            },
            ExprKind::Index { base, index } => {
                self.check_expr(index, UseMode::Read);
                let ghost mid = *self;
                let r = self.check_expr(base, mode);
                proof {
                    lemma_walked_trans(*old(self), mid, *self, expr_weight(**index), expr_weight(**base));
                }
                r
            },
            ExprKind::Tuple(items) => {
                let mut tys: Vec<Type> = Vec::new();
                let ghost mut vs: Seq<ValueModel> = seq![];
                let mut i: usize = 0;
                proof {
                    assert(items@.skip(0) =~= items@);
                }
                while i < items.len()
                    invariant
                        expr.kind == ExprKind::Tuple(*items),
                        0 <= i <= items@.len(),
                        tys@.len() == i,
                        items_eval(old(self).sigs(), m0, *items, i as nat) == (self.model(), vs),
                        vs.len() == i,
                        forall|q: int| 0 <= q < i ==> #[trigger] tys@[q].shape() == vs[q].ty,
                        exprs_weight(items@.skip(i as int)) <= exprs_weight(items@),
                        exprs_weight(items@) < w,
                        depth(old(self).model()) >= 1,
                        old(self).model().made + w <= u32::MAX,
                        walked(*old(self), *self, (exprs_weight(items@) - exprs_weight(items@.skip(i as int))) as nat),
                    decreases items@.len() - i,
                {
                    proof {
                        lemma_exprs_weight_step(items@, i as int);
                        assert(decreases_to!(*expr => expr.kind));
                        assert(decreases_to!(expr.kind => expr.kind->Tuple_0));
                        assert(decreases_to!(*items => items[i as int]));
                        assert(decreases_to!(*expr => items[i as int]));
                    }
                    let ghost before = *self;
                    let info = self.check_expr(&items[i], UseMode::Move);
                    proof {
                        lemma_walked_trans(*old(self), before, *self,
                            (exprs_weight(items@) - exprs_weight(items@.skip(i as int))) as nat,
                            expr_weight(items@[i as int]));
                    }
                    proof {
                        vs = vs.push(vm(info));
                    }
                    tys.push(info.ty);
                    i = i + 1;
                }
                let ghost tv = tys@;
                let t = Type { id: expr.id, kind: TypeKind::Tuple(tys), span: expr.span };
                proof {
                    let sh = t.shape()->Tuple_0;
                    assert(t.kind == TypeKind::Tuple(tys));
                    assert(sh.len() == vs.len());
                    assert forall|q: int| 0 <= q < sh.len() implies sh[q] == vs.map_values(|v: ValueModel| v.ty)[q] by {
                        assert(sh[q] == tv[q].shape());
                    }
                    assert(sh =~= vs.map_values(|v: ValueModel| v.ty));
                }
                ValueInfo::typed(t)
            },
            ExprKind::Array(items) => {
                let mut i: usize = 0;
                proof {
                    assert(items@.skip(0) =~= items@);
                }
                while i < items.len()
                    invariant
                        expr.kind == ExprKind::Array(*items),
                        0 <= i <= items@.len(),
                        self.model() == items_eval(old(self).sigs(), m0, *items, i as nat).0,
                        exprs_weight(items@.skip(i as int)) <= exprs_weight(items@),
                        exprs_weight(items@) < w,
                        depth(old(self).model()) >= 1,
                        old(self).model().made + w <= u32::MAX,
                        walked(*old(self), *self, (exprs_weight(items@) - exprs_weight(items@.skip(i as int))) as nat),
                    decreases items@.len() - i,
                {
                    proof {
                        lemma_exprs_weight_step(items@, i as int);
                        assert(decreases_to!(*expr => expr.kind));
                        assert(decreases_to!(expr.kind => expr.kind->Array_0));
                        assert(decreases_to!(*items => items[i as int]));
                        assert(decreases_to!(*expr => items[i as int]));
                    }
                    let ghost before = *self;
                    self.check_expr(&items[i], UseMode::Move);
                    proof {
                        lemma_walked_trans(*old(self), before, *self,
                            (exprs_weight(items@) - exprs_weight(items@.skip(i as int))) as nat,
                            expr_weight(items@[i as int]));
                    }
                    i = i + 1;
                }
                ValueInfo::typed(Type {
                    id: expr.id,
                    kind: TypeKind::Slice(Box::new(void_type(expr.span))),
                    span: expr.span,
                })
            },
            ExprKind::StructInit { fields, .. } => {
                let mut i: usize = 0;
                proof {
                    assert(fields@.skip(0) =~= fields@);
                }
                while i < fields.len()
                    invariant
                        expr.kind matches ExprKind::StructInit { fields: f, .. } && f == *fields,
                        0 <= i <= fields@.len(),
                        self.model() == fields_eval(old(self).sigs(), m0, *fields, i as nat),
                        field_inits_weight(fields@.skip(i as int)) <= field_inits_weight(fields@),
                        field_inits_weight(fields@) < w,
                        depth(old(self).model()) >= 1,
                        old(self).model().made + w <= u32::MAX,
                        walked(*old(self), *self, (field_inits_weight(fields@) - field_inits_weight(fields@.skip(i as int))) as nat),
                    decreases fields@.len() - i,
                {
                    proof {
                        lemma_fields_weight_step(fields@, i as int);
                        assert(decreases_to!(*expr => expr.kind));
                        assert(decreases_to!(expr.kind => expr.kind->fields));
                        assert(decreases_to!(*fields => fields[i as int]));
                        assert(decreases_to!(fields[i as int] => fields[i as int].value));
                        assert(decreases_to!(*expr => fields[i as int].value));
                    }
                    let ghost before = *self;
                    let info = self.check_expr(&fields[i].value, UseMode::Move);
                    proof {
                        lemma_walked_trans(*old(self), before, *self,
                            (field_inits_weight(fields@) - field_inits_weight(fields@.skip(i as int))) as nat,
                            expr_weight(fields@[i as int].value));
                    }
                    if info.ref_value.is_some() {
                        let ghost b2 = *self;
                        self.push(
                            MemoryErrorCode::ReferenceEscapesFunction,
                            "reference stored in persistent struct value",
                            fields[i].span,
                        );
                        proof {
                            lemma_walked_push(b2.model(), self.model().diags.last());
                            lemma_walked_trans(*old(self), b2, *self,
                                (field_inits_weight(fields@) - field_inits_weight(fields@.skip(i + 1))) as nat, 0);
                        }
                    }
                    i = i + 1;
                }
                ValueInfo::unknown()
            },
            ExprKind::If { condition, then_block, else_branch } => {
                self.check_expr(condition, UseMode::Read);
                let ghost mid = *self;
                proof {
                    assert(decreases_to!(*expr => expr.kind));
                    assert(decreases_to!(expr.kind => expr.kind->then_block));
                }
                self.check_block(then_block);
                proof {
                    lemma_walked_trans(*old(self), mid, *self, expr_weight(**condition), block_weight(*then_block));
                }
                match else_branch {
                    Some(e) => {
                        let ghost mid2 = *self;
                        self.check_expr(e, UseMode::Move);
                        proof {
                            lemma_walked_trans(*old(self), mid2, *self,
                                expr_weight(**condition) + block_weight(*then_block), expr_weight(**e));
                        }
                    },
                    None => {},
                }
                ValueInfo::unknown()
            },
            ExprKind::Match { value, arms } => {
                self.check_expr(value, UseMode::Read);
                let ghost mv = self.model();
                let mut i: usize = 0;
                proof {
                    assert(arms@.skip(0) =~= arms@);
                }
                while i < arms.len()
                    invariant
                        expr.kind matches ExprKind::Match { value: v, arms: a } && v == *value && a == *arms,
                        0 <= i <= arms@.len(),
                        mv == expr_eval(old(self).sigs(), m0, **value, false).0,
                        self.model() == arms_eval(old(self).sigs(), mv, *arms, i as nat),
                        arms_weight(arms@.skip(i as int)) <= arms_weight(arms@),
                        expr_weight(**value) + arms_weight(arms@) < w,
                        depth(old(self).model()) >= 1,
                        old(self).model().made + w <= u32::MAX,
                        walked(*old(self), *self, (expr_weight(**value) + arms_weight(arms@) - arms_weight(arms@.skip(i as int))) as nat),
                    decreases arms@.len() - i,
                {
                    let arm = &arms[i];
                    proof {
                        lemma_arms_weight_step(arms@, i as int);
                        assert(decreases_to!(*expr => expr.kind));
                        assert(decreases_to!(expr.kind => expr.kind->arms));
                        assert(decreases_to!(*arms => arms[i as int]));
                        assert(decreases_to!(arms[i as int] => arms[i as int].body));
                        assert(decreases_to!(*expr => arm.body));
                    }
                    let ghost used = (expr_weight(**value) + arms_weight(arms@) - arms_weight(arms@.skip(i as int))) as nat;
                    let ghost gw: nat = match &arm.guard {
                        Some(g) => expr_weight(*g),
                        None => 0nat,
                    };
                    let ghost b0 = *self;
                    self.push_scope();
                    let ghost p0 = *self;
                    self.bind_pattern(&arm.pattern, None, None, arm.pattern.span);
                    match &arm.guard {
                        Some(guard) => {
                            proof {
                                assert(decreases_to!(arms[i as int] => arms[i as int].guard));
                                assert(decreases_to!(arms[i as int].guard => arms[i as int].guard->0));
                                assert(decreases_to!(*expr => *guard));
                            }
                            let ghost b1 = *self;
                            self.check_expr(guard, UseMode::Read);
                            proof {
                                lemma_walked_trans(p0, b1, *self, 0, gw);
                            }
                        },
                        None => {},
                    }
                    let ghost b2 = *self;
                    self.check_expr(&arm.body, UseMode::Move);
                    proof {
                        lemma_walked_trans(p0, b2, *self, gw, expr_weight(arm.body));
                    }
                    let ghost q = *self;
                    self.pop_scope();
                    proof {
                        lemma_scoped_walk(b0, p0, q, *self, gw + expr_weight(arm.body));
                        lemma_walked_trans(*old(self), b0, *self, used, gw + expr_weight(arm.body));
                    }
                    i = i + 1;
                }
                ValueInfo::unknown()
            },
            ExprKind::Block(block) => {
                self.check_block(block);
                ValueInfo::unknown()
            },
            ExprKind::Binary { left, right, .. } => {
                self.check_expr(left, UseMode::Read);
                let ghost mid = *self;
                self.check_expr(right, UseMode::Read);
                proof {
                    lemma_walked_trans(*old(self), mid, *self, expr_weight(**left), expr_weight(**right));
                }
                ValueInfo::unknown()
            },
        }
    }

    /// Borrows the place `expr` (mutably when `mutable`) at `span`.
    fn borrow_expr(&mut self, expr: &Expr, mutable: bool, span: Span) -> (r: ValueInfo)
        requires
            old(self).wf(),
            depth(old(self).model()) >= 1,
            old(self).model().made + expr_weight(*expr) <= u32::MAX,
        ensures
            walked(*old(self), *final(self), expr_weight(*expr)),
            (final(self).model(), vm(r)) == borrow_eval(old(self).sigs(), old(self).model(), *expr, mutable, span),
        decreases expr, 2nat,
    {
        let ghost m0 = self.model();
        match lvalue_root(expr) {
            None => {
                self.check_expr(expr, UseMode::Read);
                ValueInfo::unknown()
            },
            Some(name) => {
                let granted = self.borrow_name(name, mutable, span);
                proof {
                    let m1 = self.model();
                    if m1.diags != m0.diags {
                        assert(m1.diags =~= m0.diags.push(m1.diags.last()));
                        lemma_walked_push(m0, m1.diags.last());
                    } else {
                        lemma_walked_push(m0, diag(MemoryErrorCode::UseAfterMove, seq![], span));
                    }
                }
                match granted {
                    None => ValueInfo::unknown(),
                    Some(rv) => ValueInfo {
                        ty: Type {
                            id: expr.id,
                            kind: TypeKind::Ref { mutable, ty: Box::new(void_type(span)) },
                            span,
                        },
                        ref_value: Some(rv),
                    },
                }
            },
        }
    }

    /// Checks an assignment to the place `target` at `span`.
    fn assign_target(&mut self, target: &Expr, span: Span)
        requires
            old(self).wf(),
            depth(old(self).model()) >= 1,
            old(self).model().made + expr_weight(*target) <= u32::MAX,
        ensures
            walked(*old(self), *final(self), expr_weight(*target)),
            final(self).model() == assign_eval(old(self).sigs(), old(self).model(), *target, span),
        decreases target, 2nat,
    {
        let ghost m0 = self.model();
        match lvalue_root(target) {
            None => {
                self.check_expr(target, UseMode::Read);
            },
            Some(name) => {
                self.assign_name(name, span);
                proof {
                    let m1 = self.model();
                    if m1.diags != m0.diags {
                        assert(m1.diags =~= m0.diags.push(m1.diags.last()));
                        lemma_walked_push(m0, m1.diags.last());
                    } else {
                        lemma_walked_push(m0, diag(MemoryErrorCode::UseAfterMove, seq![], span));
                    }
                }
            },
        }
    }

    /// Checks a call of `callee` with `args` at `span`.
    fn check_call(&mut self, callee: &Expr, args: &Vec<Expr>, span: Span) -> (r: ValueInfo)
        requires
            old(self).wf(),
            depth(old(self).model()) >= 1,
            old(self).model().made + exprs_weight(args@) <= u32::MAX,
        ensures
            walked(*old(self), *final(self), exprs_weight(args@)),
            (final(self).model(), vm(r)) == call_eval(old(self).sigs(), old(self).model(), *callee, *args, span),
        decreases args, 0nat,
    {
        let ghost m0 = self.model();
        proof {
            lemma_walked_push(m0, diag(MemoryErrorCode::UseAfterMove, seq![], span));
            assert(args@.skip(0) =~= args@);
        }
        let callee_name = path_name(callee);
        let is_clone = match callee_name {
            Some(n) => str_eq(n, "clone"),
            None => false,
        };
        if is_clone && args.len() > 0 {
            proof {
                lemma_exprs_weight_step(args@, 0);
                assert(decreases_to!(*args => args[0]));
            }
            let r = self.check_expr(&args[0], UseMode::Read);
            proof {
                lemma_walked_more(*old(self), *self, expr_weight(args@[0]), exprs_weight(args@));
            }
            return r;
        }
        let sig = match callee_name {
            Some(n) => self.find_function(n),
            None => None,
        };
        proof {
            if let Some(n) = callee_name {
                match sig {
                    Some(k) => lemma_last_sig(self.functions@, n@, k as int),
                    None => lemma_last_sig(self.functions@, n@, -1),
                }
            }
        }
        let mut ref_params: Vec<Option<bool>> = Vec::new();
        let mut return_ty: Option<Type> = None;
        match sig {
            Some(k) => {
                let mut j: usize = 0;
                while j < self.functions[k].sig.params.len()
                    invariant
                        k < self.functions@.len(),
                        0 <= j <= self.functions@[k as int].sig.params@.len(),
                        ref_params@.len() == j,
                        forall|q: int| 0 <= q < j ==> #[trigger] ref_params@[q] == ref_flag(self.functions@[k as int].sig.params@[q].shape()),
                    decreases self.functions@[k as int].sig.params@.len() - j,
                {
                    let flag = match &self.functions[k].sig.params[j].kind {
                        TypeKind::Ref { mutable, .. } => Some(*mutable),
                        _ => None,
                    };
                    ref_params.push(flag);
                    j = j + 1;
                }
                return_ty = match &self.functions[k].sig.return_ty {
                    Some(t) => Some(t.duplicate()),
                    None => None,
                };
            },
            None => {},
        }
        let ghost csig = callee_sig(old(self).sigs(), *callee);
        proof {
            match sig {
                Some(k) => {
                    let e = self.functions@[k as int];
                    assert(self.sigs()[k as int] == entry_sig(e));
                    assert(csig == Some(entry_sig(e)));
                    assert forall|q: int| 0 <= q < args@.len() implies (if q < ref_params@.len() {
                        ref_params@[q]
                    } else {
                        None
                    }) == #[trigger] arg_flag(csig, q) by {
                        if q < ref_params@.len() {
                            assert(entry_sig(e).params[q] == e.sig.params@[q].shape());
                        }
                    }
                },
                None => {
                    assert(csig is None);
                },
            }
        }
        let mut i: usize = 0;
        while i < args.len()
            invariant
                0 <= i <= args@.len(),
                self.model() == args_eval(old(self).sigs(), m0, *args, csig, i as nat),
                forall|q: int| 0 <= q < args@.len() ==> (if q < ref_params@.len() {
                    ref_params@[q]
                } else {
                    None
                }) == #[trigger] arg_flag(csig, q),
                exprs_weight(args@.skip(i as int)) <= exprs_weight(args@),
                depth(old(self).model()) >= 1,
                old(self).model().made + exprs_weight(args@) <= u32::MAX,
                walked(*old(self), *self, (exprs_weight(args@) - exprs_weight(args@.skip(i as int))) as nat),
            decreases args@.len() - i,
        {
            proof {
                lemma_exprs_weight_step(args@, i as int);
                assert(decreases_to!(*args => args[i as int]));
            }
            let ghost before = *self;
            let flag = if i < ref_params.len() {
                ref_params[i]
            } else {
                None
            };
            match flag {
                Some(mutable) => {
                    self.borrow_expr(&args[i], mutable, args[i].span);
                },
                None => {
                    self.check_expr(&args[i], UseMode::Move);
                },
            }
            proof {
                lemma_walked_trans(*old(self), before, *self,
                    (exprs_weight(args@) - exprs_weight(args@.skip(i as int))) as nat,
                    expr_weight(args@[i as int]));
            }
            i = i + 1;
        }
        let info = match return_ty {
            Some(t) => ValueInfo::typed(t),
            None => ValueInfo::unknown(),
        };
        proof {
            assert(vm(info) == call_value(csig));
        }
        info.with_span(span)
    }

    /// Index of the last function declared under `name`.
    fn find_function(&self, name: &str) -> (r: Option<usize>)
        ensures
            r matches Some(k) ==> k < self.functions@.len() && self.functions@[k as int].name@ == name@ && forall|j: int|
                k < j < self.functions@.len() ==> (#[trigger] self.functions@[j]).name@ != name@,
            r is None ==> forall|j: int| 0 <= j < self.functions@.len() ==> (#[trigger] self.functions@[j]).name@ != name@,
    {
        let mut i: usize = self.functions.len();
        while i > 0
            invariant
                0 <= i <= self.functions@.len(),
                forall|j: int| i <= j < self.functions@.len() ==> (#[trigger] self.functions@[j]).name@ != name@,
            decreases i,
        {
            if str_eq(self.functions[i - 1].name.as_str(), name) {
                return Some(i - 1);
            }
            i = i - 1;
        }
        None
    }

    /// Checks a block in a scope of its own.
    fn check_block(&mut self, block: &Block)
        requires
            old(self).wf(),
            depth(old(self).model()) >= 1,
            old(self).model().made + block_weight(*block) <= u32::MAX,
        ensures
            walked(*old(self), *final(self), block_weight(*block)),
            final(self).model() == block_eval(old(self).sigs(), old(self).model(), *block),
        decreases block, 0nat,
    {
        let ghost m0 = self.model();
        self.push_scope();
        proof {
            lemma_walked_push(m0, diag(MemoryErrorCode::UseAfterMove, seq![], block.span));
            assert(block.statements@.skip(0) =~= block.statements@);
        }
        let ghost b0 = *self;
        let mut i: usize = 0;
        while i < block.statements.len()
            invariant
                0 <= i <= block.statements@.len(),
                stmts_weight(block.statements@.skip(i as int)) <= stmts_weight(block.statements@),
                block_weight(*block) == stmts_weight(block.statements@),
                depth(b0.model()) >= 2,
                b0.model().made + block_weight(*block) <= u32::MAX,
                walked(b0, *self, (stmts_weight(block.statements@) - stmts_weight(block.statements@.skip(i as int))) as nat),
                b0.model() == push_scope_model(m0),
                b0.functions == old(self).functions,
                self.model() == stmts_eval(old(self).sigs(), b0.model(), block.statements, i as nat),
            decreases block.statements@.len() - i,
        {
            proof {
                lemma_stmts_weight_step(block.statements@, i as int);
                assert(decreases_to!(*block => block.statements));
                assert(decreases_to!(block.statements => block.statements[i as int]));
            }
            let ghost before = *self;
            self.check_stmt(&block.statements[i]);
            proof {
                lemma_walked_trans(b0, before, *self,
                    (stmts_weight(block.statements@) - stmts_weight(block.statements@.skip(i as int))) as nat,
                    stmt_weight(block.statements@[i as int]));
            }
            i = i + 1;
        }
        let ghost b1 = *self;
        self.pop_scope();
        proof {
            lemma_pop_scope_wf(b1.model());
            assert(b1.model().diags =~= self.model().diags);
            assert(m0.diags.is_prefix_of(b1.model().diags));
        }
    }

    /// Checks one statement.
    fn check_stmt(&mut self, stmt: &Stmt)
        requires
            old(self).wf(),
            depth(old(self).model()) >= 1,
            old(self).model().made + stmt_weight(*stmt) <= u32::MAX,
        ensures
            walked(*old(self), *final(self), stmt_weight(*stmt)),
            final(self).model() == stmt_eval(old(self).sigs(), old(self).model(), *stmt),
        decreases stmt, 0nat,
    {
        let ghost m0 = self.model();
        proof {
            lemma_walked_push(m0, diag(MemoryErrorCode::UseAfterMove, seq![], stmt.span));
        }
        match &stmt.kind {
            StmtKind::Let { pattern, ty, value } => {
                let info = match value {
                    Some(e) => Some(self.check_expr(e, UseMode::Move)),
                    None => None,
                };
                let ghost mid = *self;
                let ty_ref = match ty {
                    Some(t) => Some(t),
                    None => None,
                };
                self.bind_pattern(pattern, ty_ref, info, stmt.span);
                proof {
                    let vw: nat = match value {
                        Some(v) => expr_weight(*v),
                        None => 0nat,
                    };
                    lemma_walked_trans(*old(self), mid, *self, vw, 0);
                }
            },
            StmtKind::Expr(e) => {
                self.check_expr(e, UseMode::Move);
            },
            StmtKind::Semi(e) => {
                self.check_expr(e, UseMode::Move);
            },
            StmtKind::Return(value) => {
                match value {
                    Some(v) => {
                        let info = self.check_expr(v, UseMode::Move);
                        let ghost b1 = *self;
                        let ghost val = vm(info);
                        if info.ref_value.is_some() {
                            self.push(
                                MemoryErrorCode::ReturnReferenceToLocal,
                                "cannot return a reference to local data",
                                v.span,
                            );
                            proof {
                                lemma_walked_push(b1.model(), self.model().diags.last());
                                lemma_walked_trans(*old(self), b1, *self, expr_weight(*v), 0);
                            }
                        }
                        let from_param = match &info.ref_value {
                            Some(rv) => rv.from_param,
                            None => false,
                        };
                        let ghost b2 = *self;
                        proof {
                            assert(from_param == (val.ref_value matches Some(r) && r.from_param));
                        }
                        if from_param {
                            self.push(
                                MemoryErrorCode::ReferenceEscapesFunction,
                                "reference parameter escapes through return value",
                                v.span,
                            );
                            proof {
                                lemma_walked_push(b2.model(), self.model().diags.last());
                                lemma_walked_trans(*old(self), b2, *self, expr_weight(*v), 0);
                            }
                        }
                    },
                    None => {},
                }
            },
            StmtKind::Break => {},
            StmtKind::Continue => {},
            StmtKind::While { condition, body } => {
                self.check_expr(condition, UseMode::Read);
                let ghost mid = *self;
                self.check_block(body);
                proof {
                    lemma_walked_trans(*old(self), mid, *self, expr_weight(*condition), block_weight(*body));
                }
            },
            StmtKind::For { pattern, iter, body } => {
                self.check_expr(iter, UseMode::Move);
                let ghost mid = *self;
                self.push_scope();
                let ghost p0 = *self;
                self.bind_pattern(pattern, None, None, pattern.span);
                let ghost b0 = *self;
                proof {
                    assert(body.statements@.skip(0) =~= body.statements@);
                }
                let mut i: usize = 0;
                while i < body.statements.len()
                    invariant
                        stmt.kind matches StmtKind::For { body: bd, .. } && bd == *body,
                        0 <= i <= body.statements@.len(),
                        b0.functions == old(self).functions,
                        self.model() == stmts_eval(old(self).sigs(), b0.model(), body.statements, i as nat),
                        stmts_weight(body.statements@.skip(i as int)) <= stmts_weight(body.statements@),
                        depth(b0.model()) >= 2,
                        b0.model().made + stmts_weight(body.statements@) <= u32::MAX,
                        walked(b0, *self, (stmts_weight(body.statements@) - stmts_weight(body.statements@.skip(i as int))) as nat),
                    decreases body.statements@.len() - i,
                {
                    proof {
                        lemma_stmts_weight_step(body.statements@, i as int);
                        assert(decreases_to!(*stmt => stmt.kind));
                        assert(decreases_to!(stmt.kind => stmt.kind->For_body));
                        assert(decreases_to!(*body => body.statements));
                        assert(decreases_to!(body.statements => body.statements[i as int]));
                        assert(decreases_to!(*stmt => body.statements[i as int]));
                    }
                    let ghost before = *self;
                    self.check_stmt(&body.statements[i]);
                    proof {
                        lemma_walked_trans(b0, before, *self,
                            (stmts_weight(body.statements@) - stmts_weight(body.statements@.skip(i as int))) as nat,
                            stmt_weight(body.statements@[i as int]));
                    }
                    i = i + 1;
                }
                let ghost q = *self;
                self.pop_scope();
                proof {
                    lemma_walked_trans(p0, b0, q, 0, stmts_weight(body.statements@));
                    lemma_scoped_walk(mid, p0, q, *self, stmts_weight(body.statements@));
                    lemma_walked_trans(*old(self), mid, *self, expr_weight(*iter), stmts_weight(body.statements@));
                }
            },
        }
    }
}

/// Borrows a function can take: one per parameter, and the nodes of its body.
pub open spec fn function_weight(f: FunctionItem) -> nat {
    f.params@.len() + match f.body {
        Some(b) => block_weight(b),
        None => 0nat,
    }
}

/// Total weight of the functions among `items`.
pub open spec fn functions_weight(items: Seq<Item>) -> nat
    decreases items.len(),
{
    if items.len() == 0 {
        0
    } else {
        functions_weight(items.drop_last()) + match items.last().kind {
            ItemKind::Function(f) => function_weight(f),
            _ => 0nat,
        }
    }
}

proof fn lemma_functions_weight_prefix(items: Seq<Item>, i: int)
    requires
        0 <= i <= items.len(),
    ensures
        functions_weight(items.take(i)) <= functions_weight(items),
    decreases items.len(),
{
    if i < items.len() {
        assert(items.take(i) =~= items.drop_last().take(i));
        lemma_functions_weight_prefix(items.drop_last(), i);
    } else {
        assert(items.take(i) =~= items);
    }
}

/// The result of a successful memory check.
pub struct CheckedAst<'a> {
    pub ast: &'a Ast,
}

impl MemoryChecker {
    /// A checker for `ast`, with its copy-or-move model and function table.
    fn new(ast: &Ast) -> (r: MemoryChecker)
        ensures
            r.wf(),
            r.model().made == 0,
            r.model().diags.len() == 0,
            depth(r.model()) == 0,
            r.model() == initial_model(ast.items@),
            r.sigs() == sigs_of(ast.items@),
    {
        let copy_move = CopyMove::from_ast(ast);
        let mut functions: Vec<FunctionEntry> = Vec::new();
        let mut i: usize = 0;
        proof {
            assert(ast.items@.take(0) =~= Seq::<Item>::empty());
            assert(functions@.map_values(|e: FunctionEntry| entry_sig(e)) =~= Seq::<SigModel>::empty());
        }
        while i < ast.items.len()
            invariant
                0 <= i <= ast.items@.len(),
                functions@.map_values(|e: FunctionEntry| entry_sig(e)) == sigs_of(ast.items@.take(i as int)),
            decreases ast.items@.len() - i,
        {
            proof {
                assert(ast.items@.take(i + 1).drop_last() =~= ast.items@.take(i as int));
                assert(ast.items@.take(i + 1).last() == ast.items@[i as int]);
            }
            let ghost before = functions@;
            if let ItemKind::Function(function) = &ast.items[i].kind {
                let mut params: Vec<Type> = Vec::new();
                let mut j: usize = 0;
                while j < function.params.len()
                    invariant
                        0 <= j <= function.params@.len(),
                        params@.len() == j,
                        forall|q: int| 0 <= q < j ==> #[trigger] params@[q].shape() == function.params@[q].ty.shape(),
                    decreases function.params@.len() - j,
                {
                    params.push(function.params[j].ty.duplicate());
                    j = j + 1;
                }
                let return_ty = match &function.return_ty {
                    Some(t) => Some(t.duplicate()),
                    None => None,
                };
                let name = function.name.clone();
                let ghost pv = params@;
                let entry = FunctionEntry { name, sig: FunctionSig { params, return_ty } };
                proof {
                    assert(name@ == function.name@);
                    assert(entry.sig.params@.map_values(|t: Type| t.shape()) =~= function.params@.map_values(|p: FunctionParam| p.ty.shape()));
                    assert(entry_sig(entry) == sig_of(*function));
                }
                functions.push(entry);
                proof {
                    assert(functions@.map_values(|e: FunctionEntry| entry_sig(e)) =~= before.map_values(|e: FunctionEntry| entry_sig(e)).push(entry_sig(entry)));
                }
            } else {
                proof {
                    assert(sigs_of(ast.items@.take(i + 1)) =~= sigs_of(ast.items@.take(i as int)));
                }
            }
            i = i + 1;
        }
        let r = MemoryChecker {
            copy_move,
            functions,
            current_return: None,
            scopes: Vec::new(),
            scope_borrows: Vec::new(),
            locals: Vec::new(),
            diagnostics: Vec::new(),
            made: Ghost(0),
        };
        proof {
            assert(r.model().locals =~= Seq::<(Seq<char>, LocalModel)>::empty());
            assert(r.model().scopes =~= Seq::<Seq<Seq<char>>>::empty());
            assert(r.model().scope_borrows =~= Seq::<Seq<Seq<char>>>::empty());
            assert(r.model().diags =~= Seq::<DiagModel>::empty());
            assert(ast.items@.take(i as int) =~= ast.items@);
        }
        r
    }

    /// Checks one function from a fresh state: parameters are defined in
    /// the outermost scope, and a reference parameter of an exported
    /// function is held borrowed for the whole body.
    fn check_function(&mut self, function: &FunctionItem)
        requires
            old(self).wf(),
            old(self).model().made + function_weight(*function) <= u32::MAX,
        ensures
            final(self).wf(),
            old(self).model().diags.is_prefix_of(final(self).model().diags),
            final(self).model().made <= old(self).model().made + function_weight(*function),
            final(self).copy_move == old(self).copy_move,
            final(self).functions == old(self).functions,
            final(self).model() == function_eval(old(self).sigs(), old(self).model(), *function),
    {
        let ghost m0 = self.model();
        self.locals.clear();
        self.scopes.clear();
        self.scope_borrows.clear();
        self.current_return = match &function.return_ty {
            Some(t) => Some(t.duplicate()),
            None => None,
        };
        proof {
            assert(self.model().locals =~= Seq::<(Seq<char>, LocalModel)>::empty());
            assert(self.model().scopes =~= Seq::<Seq<Seq<char>>>::empty());
            assert(self.model().scope_borrows =~= Seq::<Seq<Seq<char>>>::empty());
            assert(self.model().diags == m0.diags);
        }
        let ghost cleared = CheckerModel { locals: seq![], scopes: seq![], scope_borrows: seq![], ..m0 };
        proof {
            assert(self.model() == cleared);
        }
        self.push_scope();
        let ghost export: bool = function.kind == FunctionKind::Export;
        proof {
            assert(function.params@.take(0) =~= Seq::<FunctionParam>::empty());
        }
        let mut i: usize = 0;
        while i < function.params.len()
            invariant
                0 <= i <= function.params@.len(),
                self.wf(),
                depth(self.model()) == 1,
                self.model().diags == m0.diags,
                self.model().made <= m0.made + i,
                m0.made + function_weight(*function) <= u32::MAX,
                self.copy_move == old(self).copy_move,
                self.functions == old(self).functions,
                self.model() == params_eval(push_scope_model(cleared), function.params@.take(i as int), export),
                export == (function.kind == FunctionKind::Export),
            decreases function.params@.len() - i,
        {
            let param = &function.params[i];
            let d = self.depth();
            let pflag = match &param.ty.kind {
                TypeKind::Ref { mutable, .. } => Some(*mutable),
                _ => None,
            };
            let ref_value = match pflag {
                Some(mutable) => Some(RefValue { origin: param.name.clone(), origin_depth: d, mutable, from_param: true }),
                None => None,
            };
            let ghost before = self.model();
            self.define_param(param.name.as_str(), &param.ty, ref_value);
            let is_export = match function.kind {
                FunctionKind::Export => true,
                _ => false,
            };
            if is_export {
                if let Some(mutable) = pflag {
                    proof {
                        let fl = fresh_local(param.ty.shape(), true, depth(before), opt_ref_model(ref_value));
                        lemma_set_local(before.locals, param.name@, fl);
                        assert(lookup(self.model(), param.name@) == Some(fl));
                    }
                    self.add_borrow(param.name.as_str(), mutable, param.span);
                }
            }
            proof {
                assert(function.params@.take(i + 1).drop_last() =~= function.params@.take(i as int));
                assert(function.params@.take(i + 1).last() == function.params@[i as int]);
                assert(ref_flag(param.ty.shape()) == pflag);
                assert(self.model() == param_step(before, *param, export));
            }
            i = i + 1;
        }
        proof {
            assert(function.params@.take(i as int) =~= function.params@);
        }
        let ghost b0 = *self;
        match &function.body {
            Some(body) => {
                self.check_block(body);
            },
            None => {},
        }
        let ghost q = *self;
        self.pop_scope();
        proof {
            lemma_pop_scope_wf(q.model());
            lemma_walked_push(m0, diag(MemoryErrorCode::UseAfterMove, seq![], Span { file: 0, start: 0, end: 0 }));
            if function.body is None {
                lemma_walked_push(q.model(), diag(MemoryErrorCode::UseAfterMove, seq![], Span { file: 0, start: 0, end: 0 }));
            }
            assert(q.model().diags == self.model().diags);
        }
    }

    /// Checks every function of `ast`.
    fn check<'a>(self, ast: &'a Ast) -> (r: Result<CheckedAst<'a>, Vec<Diagnostic>>)
        requires
            self.wf(),
            self.model().made + functions_weight(ast.items@) <= u32::MAX,
        ensures
            match r {
                Ok(c) => c.ast == ast && program_eval(self.sigs(), self.model(), ast.items@).diags.len() == 0,
                Err(d) => d@.len() > 0 && d@.map_values(|x: Diagnostic| diag_model(x)) == program_eval(
                    self.sigs(),
                    self.model(),
                    ast.items@,
                ).diags,
            },
            all_coded(program_eval(self.sigs(), self.model(), ast.items@).diags),
            r matches Err(d) ==> forall|i: int| 0 <= i < d@.len() ==> plain_error(#[trigger] d@[i]),
    {
        let ghost made0 = self.model().made;
        let mut checker = self;
        let mut i: usize = 0;
        proof {
            assert(ast.items@.take(0) =~= Seq::<Item>::empty());
        }
        while i < ast.items.len()
            invariant
                0 <= i <= ast.items@.len(),
                checker.wf(),
                checker.model().made <= made0 + functions_weight(ast.items@.take(i as int)),
                made0 + functions_weight(ast.items@) <= u32::MAX,
                checker.functions == self.functions,
                checker.model() == program_eval(self.sigs(), self.model(), ast.items@.take(i as int)),
            decreases ast.items@.len() - i,
        {
            proof {
                assert(ast.items@.take(i + 1).drop_last() =~= ast.items@.take(i as int));
                assert(ast.items@.take(i + 1).last() == ast.items@[i as int]);
                lemma_functions_weight_prefix(ast.items@, i + 1);
            }
            if let ItemKind::Function(function) = &ast.items[i].kind {
                checker.check_function(function);
            }
            i = i + 1;
        }
        proof {
            assert(ast.items@.take(i as int) =~= ast.items@);
        }
        if checker.diagnostics.len() > 0 {
            Err(checker.diagnostics)
        } else {
            Ok(CheckedAst { ast })
        }
    }
}

/// Checks the memory-safety rules of `ast`: moves, borrows, mutation and
/// references that outlive what they point into. Every violation is
/// reported; the check succeeds when there is none.
pub fn check_memory<'a>(ctx: &TypeContext, ast: &'a Ast) -> (r: Result<CheckedAst<'a>, Vec<Diagnostic>>)
    requires
        functions_weight(ast.items@) <= u32::MAX,
    ensures
        r is Err <==> memory_diags(ast.items@).len() > 0,
        all_coded(memory_diags(ast.items@)),
        r matches Err(d) ==> forall|i: int| 0 <= i < d@.len() ==> plain_error(#[trigger] d@[i]),
        match r {
            Ok(c) => c.ast == ast,
            Err(d) => d@.map_values(|x: Diagnostic| diag_model(x)) == memory_diags(ast.items@),
        },
{
    let checker = MemoryChecker::new(ast);
    checker.check(ast)
}

} // verus!
