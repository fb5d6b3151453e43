use vstd::prelude::*;

use std::collections::HashMap;

use vstd::std_specs::hash::spec_keys_iter;
use vstd::std_specs::iter::IteratorSpec;

use crate::analysis_model::{type_text, type_to_string, AnalysisResult, DefinitionIndex, LspResolved, ReferenceIndex, TypeIndex};
use crate::symbol_index::{build_symbol_index, entries_view, items_symbols, IndexEnv};
use crate::def::DefId;
use crate::ast::{Ast, Block, Expr, ExprKind, FieldInit, FunctionItem, Item, ItemKind, MatchArm, Stmt, StmtKind, StructField};
use crate::def::Def;
use crate::infer::{insert_all, lemma_insert_all_concat};
use crate::span::Span;
use crate::ty::{Path, Type, TypeKind};
use crate::type_context::TypeContext;

verus! {

broadcast use vstd::std_specs::hash::group_hash_axioms;

/// `insert_all` of a single pair is one `insert`.
pub proof fn lemma_insert_all_one<V>(m: Map<u32, V>, k: u32, v: V)
    ensures
        insert_all(m, seq![(k, v)]) == m.insert(k, v),
{
    let one = seq![(k, v)];
    assert(one.drop_last() =~= Seq::<(u32, V)>::empty());
    assert(insert_all(m, Seq::<(u32, V)>::empty()) == m);
}

// ---------------------------------------------------------------------
// Node spans
// ---------------------------------------------------------------------

/// The span a path is found at: that of its last segment, or the whole
/// path when it has none.
pub open spec fn path_tail_span(p: Path) -> Span {
    if p.segments@.len() > 0 {
        p.segments@[p.segments@.len() - 1].span
    } else {
        p.span
    }
}

/// The (node id, span) pairs recorded for an expression, in order: the
/// expression itself, the path of a path or struct literal, then the
/// expressions, blocks and patterns inside.
pub open spec fn expr_spans(e: Expr) -> Seq<(u32, Span)>
    decreases e, 1nat,
{
    seq![(e.id.0, e.span)] + match e.kind {
        ExprKind::Path(p) => seq![(p.id.0, path_tail_span(p))],
        ExprKind::StructInit { path, fields } => seq![(path.id.0, path_tail_span(path))] + inits_spans(fields@),
        ExprKind::Unary { expr, .. } => expr_spans(*expr),
        ExprKind::Binary { left, right, .. } => expr_spans(*left) + expr_spans(*right),
        ExprKind::Assign { target, value } => expr_spans(*target) + expr_spans(*value),
        ExprKind::Call { callee, args } => expr_spans(*callee) + exprs_spans(args@),
        ExprKind::Field { base, .. } => expr_spans(*base),
        ExprKind::Index { base, index } => expr_spans(*base) + expr_spans(*index),
        ExprKind::Tuple(items) => exprs_spans(items@),
        ExprKind::Array(items) => exprs_spans(items@),
        ExprKind::If { condition, then_block, else_branch } => expr_spans(*condition) + block_spans(then_block)
            + match else_branch {
            Some(b) => expr_spans(*b),
            None => seq![],
        },
        ExprKind::Match { value, arms } => expr_spans(*value) + arms_spans(arms@),
        ExprKind::Block(b) => block_spans(b),
        ExprKind::Literal(_) => seq![],
    }
}

pub open spec fn exprs_spans(es: Seq<Expr>) -> Seq<(u32, Span)>
    decreases es, 1nat,
{
    if es.len() == 0 {
        seq![]
    } else {
        exprs_spans(es.subrange(0, es.len() - 1)) + expr_spans(es[es.len() - 1])
    }
}

pub open spec fn inits_spans(fs: Seq<FieldInit>) -> Seq<(u32, Span)>
    decreases fs, 1nat,
{
    if fs.len() == 0 {
        seq![]
    } else {
        inits_spans(fs.subrange(0, fs.len() - 1)) + expr_spans(fs[fs.len() - 1].value)
    }
}

/// An arm records its pattern, then its guard and its body.
pub open spec fn arms_spans(arms: Seq<MatchArm>) -> Seq<(u32, Span)>
    decreases arms, 1nat,
{
    if arms.len() == 0 {
        seq![]
    } else {
        let a = arms[arms.len() - 1];
        arms_spans(arms.subrange(0, arms.len() - 1)) + seq![(a.pattern.id.0, a.pattern.span)] + match a.guard {
            Some(g) => expr_spans(g),
            None => seq![],
        } + expr_spans(a.body)
    }
}

pub open spec fn block_spans(b: Block) -> Seq<(u32, Span)>
    decreases b, 0nat,
{
    stmts_spans(b.statements@)
}

pub open spec fn stmts_spans(ss: Seq<Stmt>) -> Seq<(u32, Span)>
    decreases ss, 1nat,
{
    if ss.len() == 0 {
        seq![]
    } else {
        stmts_spans(ss.subrange(0, ss.len() - 1)) + stmt_spans(ss[ss.len() - 1])
    }
}

/// A statement records itself, then the pattern it binds and the
/// expressions and blocks inside.
pub open spec fn stmt_spans(s: Stmt) -> Seq<(u32, Span)>
    decreases s, 0nat,
{
    seq![(s.id.0, s.span)] + match s.kind {
        StmtKind::Let { pattern, value, .. } => seq![(pattern.id.0, pattern.span)] + match value {
            Some(v) => expr_spans(v),
            None => seq![],
        },
        StmtKind::Expr(e) => expr_spans(e),
        StmtKind::Semi(e) => expr_spans(e),
        StmtKind::Return(v) => match v {
            Some(e) => expr_spans(e),
            None => seq![],
        },
        StmtKind::While { condition, body } => expr_spans(condition) + block_spans(body),
        StmtKind::For { pattern, iter, body } => seq![(pattern.id.0, pattern.span)] + expr_spans(iter) + block_spans(body),
        _ => seq![],
    }
}

pub open spec fn opt_block_spans(b: Option<Block>) -> Seq<(u32, Span)> {
    match b {
        Some(b) => block_spans(b),
        None => seq![],
    }
}

/// The default values of struct fields, in order.
pub open spec fn defaults_spans(fs: Seq<StructField>) -> Seq<(u32, Span)>
    decreases fs.len(),
{
    if fs.len() == 0 {
        seq![]
    } else {
        defaults_spans(fs.drop_last()) + match fs.last().default {
            Some(e) => expr_spans(e),
            None => seq![],
        }
    }
}

/// The bodies of methods, in order.
pub open spec fn methods_spans(ms: Seq<FunctionItem>) -> Seq<(u32, Span)>
    decreases ms.len(),
{
    if ms.len() == 0 {
        seq![]
    } else {
        methods_spans(ms.drop_last()) + opt_block_spans(ms.last().body)
    }
}

/// An item records itself, then the bodies, defaults and values inside;
/// enums and type aliases record nothing more.
pub open spec fn item_spans(item: Item) -> Seq<(u32, Span)> {
    seq![(item.id.0, item.span)] + match item.kind {
        ItemKind::Function(f) => opt_block_spans(f.body),
        ItemKind::Struct(d) => defaults_spans(d.fields@) + methods_spans(d.methods@),
        ItemKind::Const(c) => expr_spans(c.value),
        _ => seq![],
    }
}

pub open spec fn items_spans(items: Seq<Item>) -> Seq<(u32, Span)>
    decreases items.len(),
{
    if items.len() == 0 {
        seq![]
    } else {
        items_spans(items.drop_last()) + item_spans(items.last())
    }
}

struct SpanCollector {
    map: HashMap<u32, Span>,
}

impl SpanCollector {
    fn record(&mut self, id: u32, span: Span)
        ensures
            final(self).map@ == insert_all(old(self).map@, seq![(id, span)]),
    {
        self.map.insert(id, span);
        proof {
            lemma_insert_all_one(old(self).map@, id, span);
        }
    }

    fn item(&mut self, item: &Item)
        ensures
            final(self).map@ == insert_all(old(self).map@, item_spans(*item)),
    {
        let ghost m0 = self.map@;
        self.record(item.id.0, item.span);
        let ghost head = seq![(item.id.0, item.span)];
        match &item.kind {
            ItemKind::Function(function) => {
                self.opt_block(&function.body);
                proof {
                    lemma_insert_all_concat(m0, head, opt_block_spans(function.body));
                }
            },
            ItemKind::Struct(data) => {
                let ghost m1 = self.map@;
                let mut i: usize = 0;
                while i < data.fields.len()
                    invariant
                        0 <= i <= data.fields@.len(),
                        self.map@ == insert_all(m1, defaults_spans(data.fields@.take(i as int))),
                    decreases data.fields@.len() - i,
                {
                    proof {
                        assert(data.fields@.take(i + 1).drop_last() =~= data.fields@.take(i as int));
                        assert(data.fields@.take(i + 1).last() == data.fields@[i as int]);
                    }
                    if let Some(default) = &data.fields[i].default {
                        self.expr(default);
                        proof {
                            lemma_insert_all_concat(m1, defaults_spans(data.fields@.take(i as int)), expr_spans(*default));
                        }
                    } else {
                        proof {
                            assert(defaults_spans(data.fields@.take(i + 1)) =~= defaults_spans(data.fields@.take(i as int)));
                        }
                    }
                    i = i + 1;
                }
                proof {
                    assert(data.fields@.take(i as int) =~= data.fields@);
                }
                let ghost m2 = self.map@;
                let mut j: usize = 0;
                while j < data.methods.len()
                    invariant
                        0 <= j <= data.methods@.len(),
                        self.map@ == insert_all(m2, methods_spans(data.methods@.take(j as int))),
                    decreases data.methods@.len() - j,
                {
                    proof {
                        assert(data.methods@.take(j + 1).drop_last() =~= data.methods@.take(j as int));
                        assert(data.methods@.take(j + 1).last() == data.methods@[j as int]);
                    }
                    self.opt_block(&data.methods[j].body);
                    proof {
                        lemma_insert_all_concat(m2, methods_spans(data.methods@.take(j as int)), opt_block_spans(data.methods@[j as int].body));
                    }
                    j = j + 1;
                }
                proof {
                    assert(data.methods@.take(j as int) =~= data.methods@);
                    lemma_insert_all_concat(m1, defaults_spans(data.fields@), methods_spans(data.methods@));
                    lemma_insert_all_concat(m0, head, defaults_spans(data.fields@) + methods_spans(data.methods@));
                }
            },
            ItemKind::Const(data) => {
                self.expr(&data.value);
                proof {
                    lemma_insert_all_concat(m0, head, expr_spans(data.value));
                }
            },
            _ => {
                proof {
                    assert(item_spans(*item) =~= head);
                }
            },
        }
    }

    fn opt_block(&mut self, block: &Option<Block>)
        ensures
            final(self).map@ == insert_all(old(self).map@, opt_block_spans(*block)),
    {
        if let Some(b) = block {
            self.block(b);
        }
    }

    fn block(&mut self, block: &Block)
        ensures
            final(self).map@ == insert_all(old(self).map@, block_spans(*block)),
        decreases block, 0nat,
    {
        let ghost ss = block.statements@;
        let ghost m0 = self.map@;
        let mut i: usize = 0;
        proof {
            assert(ss.subrange(0, 0) =~= Seq::<Stmt>::empty());
        }
        while i < block.statements.len()
            invariant
                ss == block.statements@,
                0 <= i <= ss.len(),
                self.map@ == insert_all(m0, stmts_spans(ss.subrange(0, i as int))),
            decreases ss.len() - i,
        {
            proof {
                let next = ss.subrange(0, i + 1);
                assert(next.subrange(0, next.len() - 1) =~= ss.subrange(0, i as int));
                assert(next[next.len() - 1] == ss[i as int]);
                assert(decreases_to!(*block => block.statements));
                assert(decreases_to!(block.statements => block.statements[i as int]));
            }
            self.stmt(&block.statements[i]);
            proof {
                lemma_insert_all_concat(m0, stmts_spans(ss.subrange(0, i as int)), stmt_spans(ss[i as int]));
            }
            i = i + 1;
        }
        proof {
            assert(ss.subrange(0, i as int) =~= ss);
        }
    }

    fn stmt(&mut self, stmt: &Stmt)
        ensures
            final(self).map@ == insert_all(old(self).map@, stmt_spans(*stmt)),
        decreases stmt, 0nat,
    {
        let ghost m0 = self.map@;
        let ghost head = seq![(stmt.id.0, stmt.span)];
        self.record(stmt.id.0, stmt.span);
        proof {
            assert(decreases_to!(*stmt => stmt.kind));
        }
        match &stmt.kind {
            StmtKind::Let { pattern, value, .. } => {
                self.record(pattern.id.0, pattern.span);
                let ghost pat = seq![(pattern.id.0, pattern.span)];
                proof {
                    lemma_insert_all_concat(m0, head, pat);
                }
                if let Some(v) = value {
                    self.expr(v);
                    proof {
                        lemma_insert_all_concat(m0, head + pat, expr_spans(*v));
                        assert(head + pat + expr_spans(*v) =~= head + (pat + expr_spans(*v)));
                    }
                } else {
                    proof {
                        assert(stmt_spans(*stmt) =~= head + pat);
                    }
                }
            },
            StmtKind::Expr(e) => {
                self.expr(e);
                proof {
                    lemma_insert_all_concat(m0, head, expr_spans(*e));
                }
            },
            StmtKind::Semi(e) => {
                self.expr(e);
                proof {
                    lemma_insert_all_concat(m0, head, expr_spans(*e));
                }
            },
            StmtKind::Return(value) => {
                if let Some(e) = value {
                    self.expr(e);
                    proof {
                        lemma_insert_all_concat(m0, head, expr_spans(*e));
                    }
                } else {
                    proof {
                        assert(stmt_spans(*stmt) =~= head);
                    }
                }
            },
            StmtKind::While { condition, body } => {
                self.expr(condition);
                self.block(body);
                proof {
                    lemma_insert_all_concat(m0, head, expr_spans(*condition));
                    lemma_insert_all_concat(m0, head + expr_spans(*condition), block_spans(*body));
                    assert(head + expr_spans(*condition) + block_spans(*body) =~= head + (expr_spans(*condition) + block_spans(*body)));
                }
            },
            StmtKind::For { pattern, iter, body } => {
                self.record(pattern.id.0, pattern.span);
                let ghost pat = seq![(pattern.id.0, pattern.span)];
                self.expr(iter);
                self.block(body);
                proof {
                    lemma_insert_all_concat(m0, head, pat);
                    lemma_insert_all_concat(m0, head + pat, expr_spans(*iter));
                    lemma_insert_all_concat(m0, head + pat + expr_spans(*iter), block_spans(*body));
                    assert(head + pat + expr_spans(*iter) + block_spans(*body) =~= head + (pat + expr_spans(*iter) + block_spans(*body)));
                }
            },
            _ => {
                proof {
                    assert(stmt_spans(*stmt) =~= head);
                }
            },
        }
    }

    fn expr(&mut self, expr: &Expr)
        ensures
            final(self).map@ == insert_all(old(self).map@, expr_spans(*expr)),
        decreases expr, 1nat,
    {
        let ghost m0 = self.map@;
        let ghost head = seq![(expr.id.0, expr.span)];
        self.record(expr.id.0, expr.span);
        proof {
            assert(decreases_to!(*expr => expr.kind));
        }
        match &expr.kind {
            ExprKind::Path(path) => {
                let tail = path_tail(path);
                self.record(path.id.0, tail);
                proof {
                    lemma_insert_all_concat(m0, head, seq![(path.id.0, path_tail_span(*path))]);
                }
            },
            ExprKind::StructInit { path, fields } => {
                let tail = path_tail(path);
                self.record(path.id.0, tail);
                let ghost pre = head + seq![(path.id.0, path_tail_span(*path))];
                proof {
                    lemma_insert_all_concat(m0, head, seq![(path.id.0, path_tail_span(*path))]);
                }
                let ghost m1 = self.map@;
                let mut i: usize = 0;
                proof {
                    assert(fields@.subrange(0, 0) =~= Seq::<FieldInit>::empty());
                }
                while i < fields.len()
                    invariant
                        expr.kind matches ExprKind::StructInit { fields: f, .. } && f == *fields,
                        0 <= i <= fields@.len(),
                        self.map@ == insert_all(m1, inits_spans(fields@.subrange(0, i as int))),
                    decreases fields@.len() - i,
                {
                    proof {
                        let next = fields@.subrange(0, i + 1);
                        assert(next.subrange(0, next.len() - 1) =~= fields@.subrange(0, i as int));
                        assert(next[next.len() - 1] == fields@[i as int]);
                        assert(decreases_to!(expr.kind => expr.kind->fields));
                        assert(decreases_to!(*fields => fields[i as int]));
                        assert(decreases_to!(fields[i as int] => fields[i as int].value));
                        assert(decreases_to!(*expr => fields[i as int].value));
                    }
                    self.expr(&fields[i].value);
                    proof {
                        lemma_insert_all_concat(m1, inits_spans(fields@.subrange(0, i as int)), expr_spans(fields@[i as int].value));
                    }
                    i = i + 1;
                }
                proof {
                    assert(fields@.subrange(0, i as int) =~= fields@);
                    lemma_insert_all_concat(m0, pre, inits_spans(fields@));
                    assert(pre + inits_spans(fields@) =~= head + (seq![(path.id.0, path_tail_span(*path))] + inits_spans(fields@)));
                }
            },
            ExprKind::Unary { expr: inner, .. } => {
                self.expr(inner);
                proof {
                    lemma_insert_all_concat(m0, head, expr_spans(**inner));
                }
            },
            ExprKind::Binary { left, right, .. } => {
                self.expr(left);
                self.expr(right);
                proof {
                    lemma_insert_all_concat(m0, head, expr_spans(**left));
                    lemma_insert_all_concat(m0, head + expr_spans(**left), expr_spans(**right));
                    assert(head + expr_spans(**left) + expr_spans(**right) =~= head + (expr_spans(**left) + expr_spans(**right)));
                }
            },
            ExprKind::Assign { target, value } => {
                self.expr(target);
                self.expr(value);
                proof {
                    lemma_insert_all_concat(m0, head, expr_spans(**target));
                    lemma_insert_all_concat(m0, head + expr_spans(**target), expr_spans(**value));
                    assert(head + expr_spans(**target) + expr_spans(**value) =~= head + (expr_spans(**target) + expr_spans(**value)));
                }
            },
            ExprKind::Call { callee, args } => {
                self.expr(callee);
                proof {
                    lemma_insert_all_concat(m0, head, expr_spans(**callee));
                }
                let ghost pre = head + expr_spans(**callee);
                let ghost m1 = self.map@;
                let mut i: usize = 0;
                proof {
                    assert(args@.subrange(0, 0) =~= Seq::<Expr>::empty());
                }
                while i < args.len()
                    invariant
                        expr.kind matches ExprKind::Call { args: a, .. } && a == *args,
                        0 <= i <= args@.len(),
                        self.map@ == insert_all(m1, exprs_spans(args@.subrange(0, i as int))),
                    decreases args@.len() - i,
                {
                    proof {
                        let next = args@.subrange(0, i + 1);
                        assert(next.subrange(0, next.len() - 1) =~= args@.subrange(0, i as int));
                        assert(next[next.len() - 1] == args@[i as int]);
                        assert(decreases_to!(expr.kind => expr.kind->args));
                        assert(decreases_to!(*args => args[i as int]));
                        assert(decreases_to!(*expr => args[i as int]));
                    }
                    self.expr(&args[i]);
                    proof {
                        lemma_insert_all_concat(m1, exprs_spans(args@.subrange(0, i as int)), expr_spans(args@[i as int]));
                    }
                    i = i + 1;
                }
                proof {
                    assert(args@.subrange(0, i as int) =~= args@);
                    lemma_insert_all_concat(m0, pre, exprs_spans(args@));
                    assert(pre + exprs_spans(args@) =~= head + (expr_spans(**callee) + exprs_spans(args@)));
                }
            },
            ExprKind::Field { base, .. } => {
                self.expr(base);
                proof {
                    lemma_insert_all_concat(m0, head, expr_spans(**base));
                }
            },
            ExprKind::Index { base, index } => {
                self.expr(base);
                self.expr(index);
                proof {
                    lemma_insert_all_concat(m0, head, expr_spans(**base));
                    lemma_insert_all_concat(m0, head + expr_spans(**base), expr_spans(**index));
                    assert(head + expr_spans(**base) + expr_spans(**index) =~= head + (expr_spans(**base) + expr_spans(**index)));
                }
            },
            ExprKind::Tuple(items) => {
                self.exprs(expr, items);
                proof {
                    lemma_insert_all_concat(m0, head, exprs_spans(items@));
                }
            },
            ExprKind::Array(items) => {
                self.exprs(expr, items);
                proof {
                    lemma_insert_all_concat(m0, head, exprs_spans(items@));
                }
            },
            ExprKind::If { condition, then_block, else_branch } => {
                self.expr(condition);
                proof {
                    assert(decreases_to!(expr.kind => expr.kind->then_block));
                }
                self.block(then_block);
                proof {
                    lemma_insert_all_concat(m0, head, expr_spans(**condition));
                    lemma_insert_all_concat(m0, head + expr_spans(**condition), block_spans(*then_block));
                }
                let ghost pre = head + expr_spans(**condition) + block_spans(*then_block);
                if let Some(e) = else_branch {
                    self.expr(e);
                    proof {
                        lemma_insert_all_concat(m0, pre, expr_spans(**e));
                        assert(pre + expr_spans(**e) =~= head + (expr_spans(**condition) + block_spans(*then_block) + expr_spans(**e)));
                    }
                } else {
                    proof {
                        assert(pre =~= head + (expr_spans(**condition) + block_spans(*then_block) + Seq::<(u32, Span)>::empty()));
                    }
                }
            },
            ExprKind::Match { value, arms } => {
                self.expr(value);
                proof {
                    lemma_insert_all_concat(m0, head, expr_spans(**value));
                }
                let ghost pre = head + expr_spans(**value);
                let ghost m1 = self.map@;
                let mut i: usize = 0;
                proof {
                    assert(arms@.subrange(0, 0) =~= Seq::<MatchArm>::empty());
                }
                while i < arms.len()
                    invariant
                        expr.kind matches ExprKind::Match { arms: a, .. } && a == *arms,
                        0 <= i <= arms@.len(),
                        self.map@ == insert_all(m1, arms_spans(arms@.subrange(0, i as int))),
                    decreases arms@.len() - i,
                {
                    let ghost before = arms_spans(arms@.subrange(0, i as int));
                    let ghost a = arms@[i as int];
                    proof {
                        let next = arms@.subrange(0, i + 1);
                        assert(next.subrange(0, next.len() - 1) =~= arms@.subrange(0, i as int));
                        assert(next[next.len() - 1] == arms@[i as int]);
                        assert(decreases_to!(expr.kind => expr.kind->arms));
                        assert(decreases_to!(*arms => arms[i as int]));
                        assert(decreases_to!(arms[i as int] => arms[i as int].body));
                        assert(decreases_to!(*expr => arms[i as int].body));
                    }
                    let arm = &arms[i];
                    self.record(arm.pattern.id.0, arm.pattern.span);
                    let ghost pat = seq![(a.pattern.id.0, a.pattern.span)];
                    proof {
                        lemma_insert_all_concat(m1, before, pat);
                    }
                    let ghost guard = match a.guard {
                        Some(g) => expr_spans(g),
                        None => Seq::<(u32, Span)>::empty(),
                    };
                    if let Some(g) = &arm.guard {
                        proof {
                            assert(decreases_to!(arms[i as int] => arms[i as int].guard));
                            assert(decreases_to!(*expr => *g));
                        }
                        self.expr(g);
                        proof {
                            lemma_insert_all_concat(m1, before + pat, expr_spans(*g));
                        }
                    } else {
                        proof {
                            assert(before + pat + guard =~= before + pat);
                        }
                    }
                    self.expr(&arm.body);
                    proof {
                        lemma_insert_all_concat(m1, before + pat + guard, expr_spans(a.body));
                    }
                    i = i + 1;
                }
                proof {
                    assert(arms@.subrange(0, i as int) =~= arms@);
                    lemma_insert_all_concat(m0, pre, arms_spans(arms@));
                    assert(pre + arms_spans(arms@) =~= head + (expr_spans(**value) + arms_spans(arms@)));
                }
            },
            ExprKind::Block(b) => {
                self.block(b);
                proof {
                    lemma_insert_all_concat(m0, head, block_spans(*b));
                }
            },
            ExprKind::Literal(_) => {
                proof {
                    assert(expr_spans(*expr) =~= head);
                }
            },
        }
    }

    fn exprs(&mut self, parent: &Expr, items: &Vec<Expr>)
        requires
            parent.kind == ExprKind::Tuple(*items) || parent.kind == ExprKind::Array(*items),
        ensures
            final(self).map@ == insert_all(old(self).map@, exprs_spans(items@)),
        decreases parent, 0nat,
    {
        let ghost m1 = self.map@;
        let mut i: usize = 0;
        proof {
            assert(items@.subrange(0, 0) =~= Seq::<Expr>::empty());
        }
        while i < items.len()
            invariant
                parent.kind == ExprKind::Tuple(*items) || parent.kind == ExprKind::Array(*items),
                0 <= i <= items@.len(),
                self.map@ == insert_all(m1, exprs_spans(items@.subrange(0, i as int))),
            decreases items@.len() - i,
        {
            proof {
                let next = items@.subrange(0, i + 1);
                assert(next.subrange(0, next.len() - 1) =~= items@.subrange(0, i as int));
                assert(next[next.len() - 1] == items@[i as int]);
                assert(decreases_to!(*parent => parent.kind));
                if parent.kind == ExprKind::Tuple(*items) {
                    assert(decreases_to!(parent.kind => parent.kind->Tuple_0));
                } else {
                    assert(decreases_to!(parent.kind => parent.kind->Array_0));
                }
                assert(decreases_to!(*items => items[i as int]));
                assert(decreases_to!(*parent => items[i as int]));
            }
            self.expr(&items[i]);
            proof {
                lemma_insert_all_concat(m1, exprs_spans(items@.subrange(0, i as int)), expr_spans(items@[i as int]));
            }
            i = i + 1;
        }
        proof {
            assert(items@.subrange(0, i as int) =~= items@);
        }
    }

}

fn path_tail(path: &Path) -> (r: Span)
    ensures
        r == path_tail_span(*path),
{
    let n = path.segments.len();
    if n > 0 {
        path.segments[n - 1].span
    } else {
        path.span
    }
}

/// Every (node id, span) pair of `ast`, found in one walk; a node met
/// twice keeps the span met last.
pub fn collect_node_spans(ast: &Ast) -> (r: HashMap<u32, Span>)
    ensures
        r@ == insert_all(Map::<u32, Span>::empty(), items_spans(ast.items@)),
{
    let mut collector = SpanCollector { map: HashMap::new() };
    let ghost m0 = collector.map@;
    let mut i: usize = 0;
    proof {
        assert(ast.items@.take(0) =~= Seq::<Item>::empty());
    }
    while i < ast.items.len()
        invariant
            0 <= i <= ast.items@.len(),
            m0 == Map::<u32, Span>::empty(),
            collector.map@ == insert_all(m0, items_spans(ast.items@.take(i as int))),
        decreases ast.items@.len() - i,
    {
        proof {
            assert(ast.items@.take(i + 1).drop_last() =~= ast.items@.take(i as int));
            assert(ast.items@.take(i + 1).last() == ast.items@[i as int]);
        }
        collector.item(&ast.items[i]);
        proof {
            lemma_insert_all_concat(m0, items_spans(ast.items@.take(i as int)), item_spans(ast.items@[i as int]));
        }
        i = i + 1;
    }
    proof {
        assert(ast.items@.take(i as int) =~= ast.items@);
    }
    collector.map
}


// ---------------------------------------------------------------------
// Definitions and types
// ---------------------------------------------------------------------

/// Where each definition is, by raw definition id.
pub fn build_definition_index(resolved: &LspResolved) -> (r: DefinitionIndex)
    ensures
        r.definitions@ == insert_all(
            Map::<u32, Span>::empty(),
            resolved.symbols.defs@.map_values(|d: Def| (d.id.0, d.span)),
        ),
{
    let ghost pairs = resolved.symbols.defs@.map_values(|d: Def| (d.id.0, d.span));
    let mut definitions: HashMap<u32, Span> = HashMap::new();
    let mut i: usize = 0;
    proof {
        assert(pairs.take(0) =~= Seq::<(u32, Span)>::empty());
    }
    while i < resolved.symbols.defs.len()
        invariant
            0 <= i <= resolved.symbols.defs@.len(),
            pairs == resolved.symbols.defs@.map_values(|d: Def| (d.id.0, d.span)),
            definitions@ == insert_all(Map::<u32, Span>::empty(), pairs.take(i as int)),
        decreases resolved.symbols.defs@.len() - i,
    {
        let def = &resolved.symbols.defs[i];
        definitions.insert(def.id.0, def.span);
        proof {
            assert(pairs.take(i + 1).drop_last() =~= pairs.take(i as int));
            assert(pairs.take(i + 1).last() == pairs[i as int]);
        }
        i = i + 1;
    }
    proof {
        assert(pairs.take(i as int) =~= pairs);
    }
    DefinitionIndex { definitions }
}

/// The texts of a type index.
pub open spec fn texts_view(m: Map<u32, String>) -> Map<u32, Seq<char>> {
    m.map_values(|s: String| s@)
}

/// A type and the types inside it, each with its text, outermost first.
pub open spec fn type_entries(t: Type) -> Seq<(u32, Seq<char>)>
    decreases t, 1nat,
{
    seq![(t.id.0, type_text(t.shape()))] + match t.kind {
        TypeKind::Ref { ty, .. } => type_entries(*ty),
        TypeKind::Slice(ty) => type_entries(*ty),
        TypeKind::Array { ty, .. } => type_entries(*ty),
        TypeKind::Tuple(ts) => types_entries(ts@),
        _ => seq![],
    }
}

pub open spec fn types_entries(ts: Seq<Type>) -> Seq<(u32, Seq<char>)>
    decreases ts, 0nat,
{
    if ts.len() == 0 {
        seq![]
    } else {
        types_entries(ts.subrange(0, ts.len() - 1)) + type_entries(ts[ts.len() - 1])
    }
}

/// The types written in a list of struct fields.
pub open spec fn field_types_entries(fs: Seq<StructField>) -> Seq<(u32, Seq<char>)>
    decreases fs.len(),
{
    if fs.len() == 0 {
        seq![]
    } else {
        field_types_entries(fs.drop_last()) + type_entries(fs.last().ty)
    }
}

/// The types written in a list of parameters.
pub open spec fn param_types_entries(ps: Seq<crate::ast::FunctionParam>) -> Seq<(u32, Seq<char>)>
    decreases ps.len(),
{
    if ps.len() == 0 {
        seq![]
    } else {
        param_types_entries(ps.drop_last()) + type_entries(ps.last().ty)
    }
}

/// The types written in the fields of a list of variants.
pub open spec fn variant_types_entries(vs: Seq<crate::ast::EnumVariant>) -> Seq<(u32, Seq<char>)>
    decreases vs.len(),
{
    if vs.len() == 0 {
        seq![]
    } else {
        variant_types_entries(vs.drop_last()) + types_entries(vs.last().fields@)
    }
}

/// The types written in an item's signature: field types, a constant's or
/// alias's type, parameter and return types, variant field types.
pub open spec fn item_types_entries(item: Item) -> Seq<(u32, Seq<char>)> {
    match item.kind {
        ItemKind::Struct(d) => field_types_entries(d.fields@),
        ItemKind::Const(c) => type_entries(c.ty),
        ItemKind::TypeAlias(t) => type_entries(t.ty),
        ItemKind::Function(f) => param_types_entries(f.params@) + match f.return_ty {
            Some(t) => type_entries(t),
            None => seq![],
        },
        ItemKind::Enum(d) => variant_types_entries(d.variants@),
    }
}

pub open spec fn items_types_entries(items: Seq<Item>) -> Seq<(u32, Seq<char>)>
    decreases items.len(),
{
    if items.len() == 0 {
        seq![]
    } else {
        items_types_entries(items.drop_last()) + item_types_entries(items.last())
    }
}

fn insert_text(index: &mut TypeIndex, id: u32, text: String)
    ensures
        texts_view(final(index).types@) == insert_all(texts_view(old(index).types@), seq![(id, text@)]),
{
    let ghost t = text@;
    index.types.insert(id, text);
    proof {
        lemma_insert_all_one(texts_view(old(index).types@), id, t);
        assert(texts_view(index.types@) =~= texts_view(old(index).types@).insert(id, t));
    }
}

fn collect_type(index: &mut TypeIndex, ty: &Type)
    ensures
        texts_view(final(index).types@) == insert_all(texts_view(old(index).types@), type_entries(*ty)),
    decreases ty, 1nat,
{
    let ghost m0 = texts_view(index.types@);
    let ghost head = seq![(ty.id.0, type_text(ty.shape()))];
    let text = type_to_string(ty);
    insert_text(index, ty.id.0, text);
    proof {
        assert(decreases_to!(*ty => ty.kind));
    }
    match &ty.kind {
        TypeKind::Ref { ty: inner, .. } => {
            collect_type(index, inner);
            proof {
                lemma_insert_all_concat(m0, head, type_entries(**inner));
            }
        },
        TypeKind::Slice(inner) => {
            collect_type(index, inner);
            proof {
                lemma_insert_all_concat(m0, head, type_entries(**inner));
            }
        },
        TypeKind::Array { ty: inner, .. } => {
            collect_type(index, inner);
            proof {
                lemma_insert_all_concat(m0, head, type_entries(**inner));
            }
        },
        TypeKind::Tuple(types) => {
            collect_types(index, ty, types);
            proof {
                lemma_insert_all_concat(m0, head, types_entries(types@));
            }
        },
        _ => {
            proof {
                assert(type_entries(*ty) =~= head);
            }
        },
    }
}

fn collect_types(index: &mut TypeIndex, parent: &Type, types: &Vec<Type>)
    requires
        parent.kind == TypeKind::Tuple(*types),
    ensures
        texts_view(final(index).types@) == insert_all(texts_view(old(index).types@), types_entries(types@)),
    decreases parent, 0nat,
{
    let ghost m0 = texts_view(index.types@);
    let mut i: usize = 0;
    proof {
        assert(types@.subrange(0, 0) =~= Seq::<Type>::empty());
    }
    while i < types.len()
        invariant
            parent.kind == TypeKind::Tuple(*types),
            0 <= i <= types@.len(),
            texts_view(index.types@) == insert_all(m0, types_entries(types@.subrange(0, i as int))),
        decreases types@.len() - i,
    {
        proof {
            let next = types@.subrange(0, i + 1);
            assert(next.subrange(0, next.len() - 1) =~= types@.subrange(0, i as int));
            assert(next[next.len() - 1] == types@[i as int]);
            assert(decreases_to!(*parent => parent.kind));
            assert(decreases_to!(parent.kind => parent.kind->Tuple_0));
            assert(decreases_to!(*types => types[i as int]));
            assert(decreases_to!(*parent => types[i as int]));
        }
        collect_type(index, &types[i]);
        proof {
            lemma_insert_all_concat(m0, types_entries(types@.subrange(0, i as int)), type_entries(types@[i as int]));
        }
        i = i + 1;
    }
    proof {
        assert(types@.subrange(0, i as int) =~= types@);
    }
}

fn collect_item_types(index: &mut TypeIndex, item: &Item)
    ensures
        texts_view(final(index).types@) == insert_all(texts_view(old(index).types@), item_types_entries(*item)),
{
    let ghost m0 = texts_view(index.types@);
    match &item.kind {
        ItemKind::Struct(data) => {
            let mut i: usize = 0;
            proof {
                assert(data.fields@.take(0) =~= Seq::<StructField>::empty());
            }
            while i < data.fields.len()
                invariant
                    0 <= i <= data.fields@.len(),
                    texts_view(index.types@) == insert_all(m0, field_types_entries(data.fields@.take(i as int))),
                decreases data.fields@.len() - i,
            {
                proof {
                    assert(data.fields@.take(i + 1).drop_last() =~= data.fields@.take(i as int));
                    assert(data.fields@.take(i + 1).last() == data.fields@[i as int]);
                }
                collect_type(index, &data.fields[i].ty);
                proof {
                    lemma_insert_all_concat(m0, field_types_entries(data.fields@.take(i as int)), type_entries(data.fields@[i as int].ty));
                }
                i = i + 1;
            }
            proof {
                assert(data.fields@.take(i as int) =~= data.fields@);
            }
        },
        ItemKind::Const(data) => collect_type(index, &data.ty),
        ItemKind::TypeAlias(data) => collect_type(index, &data.ty),
        ItemKind::Function(data) => {
            let mut i: usize = 0;
            proof {
                assert(data.params@.take(0) =~= Seq::<crate::ast::FunctionParam>::empty());
            }
            while i < data.params.len()
                invariant
                    0 <= i <= data.params@.len(),
                    texts_view(index.types@) == insert_all(m0, param_types_entries(data.params@.take(i as int))),
                decreases data.params@.len() - i,
            {
                proof {
                    assert(data.params@.take(i + 1).drop_last() =~= data.params@.take(i as int));
                    assert(data.params@.take(i + 1).last() == data.params@[i as int]);
                }
                collect_type(index, &data.params[i].ty);
                proof {
                    lemma_insert_all_concat(m0, param_types_entries(data.params@.take(i as int)), type_entries(data.params@[i as int].ty));
                }
                i = i + 1;
            }
            proof {
                assert(data.params@.take(i as int) =~= data.params@);
            }
            if let Some(t) = &data.return_ty {
                collect_type(index, t);
                proof {
                    lemma_insert_all_concat(m0, param_types_entries(data.params@), type_entries(*t));
                }
            } else {
                proof {
                    assert(item_types_entries(*item) =~= param_types_entries(data.params@));
                }
            }
        },
        ItemKind::Enum(data) => {
            let mut i: usize = 0;
            proof {
                assert(data.variants@.take(0) =~= Seq::<crate::ast::EnumVariant>::empty());
            }
            while i < data.variants.len()
                invariant
                    0 <= i <= data.variants@.len(),
                    texts_view(index.types@) == insert_all(m0, variant_types_entries(data.variants@.take(i as int))),
                decreases data.variants@.len() - i,
            {
                proof {
                    assert(data.variants@.take(i + 1).drop_last() =~= data.variants@.take(i as int));
                    assert(data.variants@.take(i + 1).last() == data.variants@[i as int]);
                }
                let fields = &data.variants[i].fields;
                let ghost m1 = texts_view(index.types@);
                let mut j: usize = 0;
                proof {
                    assert(fields@.subrange(0, 0) =~= Seq::<Type>::empty());
                }
                while j < fields.len()
                    invariant
                        0 <= j <= fields@.len(),
                        texts_view(index.types@) == insert_all(m1, types_entries(fields@.subrange(0, j as int))),
                    decreases fields@.len() - j,
                {
                    proof {
                        let next = fields@.subrange(0, j + 1);
                        assert(next.subrange(0, next.len() - 1) =~= fields@.subrange(0, j as int));
                        assert(next[next.len() - 1] == fields@[j as int]);
                    }
                    collect_type(index, &fields[j]);
                    proof {
                        lemma_insert_all_concat(m1, types_entries(fields@.subrange(0, j as int)), type_entries(fields@[j as int]));
                    }
                    j = j + 1;
                }
                proof {
                    assert(fields@.subrange(0, j as int) =~= fields@);
                    lemma_insert_all_concat(m0, variant_types_entries(data.variants@.take(i as int)), types_entries(fields@));
                }
                i = i + 1;
            }
            proof {
                assert(data.variants@.take(i as int) =~= data.variants@);
            }
        },
    }
}

/// The type texts of the recorded types.
pub open spec fn context_texts(ctx: TypeContext) -> Map<u32, Seq<char>> {
    ctx.types@.map_values(|t: Type| type_text(t.shape()))
}

/// The text of every type the checker recorded, then of every type
/// written in an item's signature (these win).
pub fn build_type_index(ast: &Ast, ctx: &TypeContext) -> (r: TypeIndex)
    ensures
        texts_view(r.types@) == insert_all(context_texts(*ctx), items_types_entries(ast.items@)),
{
    let mut index = TypeIndex { types: HashMap::new() };
    let table = &ctx.types;
    let ghost ks = spec_keys_iter(table).remaining().unref();
    let ghost want = context_texts(*ctx);
    let ghost mut n: int = 0;
    for key in it: table.keys()
        invariant
            ks == spec_keys_iter(table).remaining().unref(),
            it.seq() == spec_keys_iter(table).remaining(),
            n == it.index(),
            *table == ctx.types,
            want == context_texts(*ctx),
            forall|k: u32| #[trigger] index.types@.contains_key(k) <==> ks.take(n).contains(k),
            forall|k: u32| #[trigger] index.types@.contains_key(k) ==> texts_view(index.types@)[k] == want[k],
    {
        let k: u32 = *key;
        proof {
            assert(ks[n] == k);
            assert(ks.to_set().contains(k));
            assert(ks.take(n + 1) =~= ks.take(n).push(k));
            assert(table@.dom().contains(k));
        }
        match table.get(&k) {
            Some(t) => {
                let text = type_to_string(t);
                index.types.insert(k, text);
            },
            None => {},
        }
        proof {
            let before = ks.take(n);
            let after = ks.take(n + 1);
            assert forall|k2: u32| #[trigger] index.types@.contains_key(k2) <==> after.contains(k2) by {
                if after.contains(k2) {
                    let j = choose|j: int| 0 <= j < after.len() && after[j] == k2;
                    if j < n {
                        assert(before[j] == k2);
                    }
                }
                if before.contains(k2) {
                    let j = choose|j: int| 0 <= j < before.len() && before[j] == k2;
                    assert(after[j] == k2);
                }
                if k2 == k {
                    assert(after[n] == k2);
                }
            }
            n = n + 1;
        }
    }
    proof {
        assert(ks.take(n) =~= ks);
        assert(texts_view(index.types@) =~= want);
    }
    let ghost m0 = texts_view(index.types@);
    let mut i: usize = 0;
    proof {
        assert(ast.items@.take(0) =~= Seq::<Item>::empty());
    }
    while i < ast.items.len()
        invariant
            0 <= i <= ast.items@.len(),
            texts_view(index.types@) == insert_all(m0, items_types_entries(ast.items@.take(i as int))),
        decreases ast.items@.len() - i,
    {
        proof {
            assert(ast.items@.take(i + 1).drop_last() =~= ast.items@.take(i as int));
            assert(ast.items@.take(i + 1).last() == ast.items@[i as int]);
        }
        collect_item_types(&mut index, &ast.items[i]);
        proof {
            lemma_insert_all_concat(m0, items_types_entries(ast.items@.take(i as int)), item_types_entries(ast.items@[i as int]));
        }
        i = i + 1;
    }
    proof {
        assert(ast.items@.take(i as int) =~= ast.items@);
    }
    index
}


// ---------------------------------------------------------------------
// References
// ---------------------------------------------------------------------

/// Whether `refs` lists span `s` for definition `d`.
pub open spec fn lists(refs: Map<u32, Vec<Span>>, d: u32, s: Span) -> bool {
    refs.contains_key(d) && refs[d]@.contains(s)
}

/// Whether every listed definition has at least one span.
pub open spec fn none_empty(refs: Map<u32, Vec<Span>>) -> bool {
    forall|d: u32| #[trigger] refs.contains_key(d) ==> refs[d]@.len() > 0
}

/// Whether a node at span `s` resolved to `d` in `m`.
pub open spec fn used_at(m: Map<u32, DefId>, spans: Map<u32, Span>, d: u32, s: Span) -> bool {
    exists|n: u32| #[trigger] m.contains_key(n) && m[n].0 == d && spans.contains_key(n) && spans[n] == s
}

/// The same, among the nodes `keys`.
pub open spec fn used_among(m: Map<u32, DefId>, spans: Map<u32, Span>, keys: Seq<u32>, d: u32, s: Span) -> bool {
    exists|j: int|
        0 <= j < keys.len() && #[trigger] m.contains_key(keys[j]) && m[keys[j]].0 == d && spans.contains_key(keys[j])
            && spans[keys[j]] == s
}

/// Whether `d` is defined at span `s`.
pub open spec fn defined_at(defs: Seq<Def>, d: u32, s: Span) -> bool {
    exists|i: int| 0 <= i < defs.len() && #[trigger] defs[i].id.0 == d && defs[i].span == s
}

/// Whether `s` is a reference to `d`: a name, call, field or variant
/// that resolved to `d` stands there, or `d` is defined there.
pub open spec fn is_reference(r: LspResolved, spans: Map<u32, Span>, d: u32, s: Span) -> bool {
    ||| used_at(r.resolved_names@, spans, d, s)
    ||| used_at(r.resolved_calls@, spans, d, s)
    ||| used_at(r.resolved_fields@, spans, d, s)
    ||| used_at(r.resolved_variants@, spans, d, s)
    ||| defined_at(r.symbols.defs@, d, s)
}

fn push_ref(refs: &mut HashMap<u32, Vec<Span>>, d: u32, s: Span)
    requires
        none_empty(old(refs)@),
    ensures
        none_empty(final(refs)@),
        forall|d2: u32, s2: Span| #[trigger] lists(final(refs)@, d2, s2) <==> lists(old(refs)@, d2, s2) || (d2 == d && s2 == s),
{
    let mut spans = match refs.remove(&d) {
        Some(v) => v,
        None => Vec::new(),
    };
    let ghost before = spans@;
    spans.push(s);
    refs.insert(d, spans);
    proof {
        assert forall|d2: u32, s2: Span| #[trigger] lists(refs@, d2, s2) <==> lists(old(refs)@, d2, s2) || (d2 == d && s2 == s) by {
            if d2 == d {
                assert(refs@[d]@ == before.push(s));
                if before.contains(s2) {
                    let j = choose|j: int| 0 <= j < before.len() && before[j] == s2;
                    assert(refs@[d]@[j] == s2);
                }
                if refs@[d]@.contains(s2) && s2 != s {
                    let j = choose|j: int| 0 <= j < refs@[d]@.len() && refs@[d]@[j] == s2;
                    assert(before[j] == s2);
                }
                assert(refs@[d]@[before.len() as int] == s);
            }
        }
    }
}

/// Adds a reference for every node of `m` that has a span.
fn add_uses(refs: &mut HashMap<u32, Vec<Span>>, m: &HashMap<u32, DefId>, spans: &HashMap<u32, Span>)
    requires
        none_empty(old(refs)@),
    ensures
        none_empty(final(refs)@),
        forall|d: u32, s: Span| #[trigger] lists(final(refs)@, d, s) <==> lists(old(refs)@, d, s) || used_at(m@, spans@, d, s),
{
    let ghost r0 = refs@;
    let ghost ks = spec_keys_iter(m).remaining().unref();
    let ghost mut n: int = 0;
    proof {
        assert forall|d: u32, s: Span| #[trigger] lists(refs@, d, s) <==> lists(r0, d, s) || used_among(m@, spans@, ks.take(n), d, s) by {
            assert(!used_among(m@, spans@, ks.take(0), d, s));
        }
    }
    for key in it: m.keys()
        invariant
            ks == spec_keys_iter(m).remaining().unref(),
            it.seq() == spec_keys_iter(m).remaining(),
            n == it.index(),
            none_empty(refs@),
            forall|d: u32, s: Span| #[trigger] lists(refs@, d, s) <==> lists(r0, d, s) || used_among(m@, spans@, ks.take(n), d, s),
    {
        let k: u32 = *key;
        let ghost pre = ks.take(n);
        let ghost post = ks.take(n + 1);
        proof {
            assert(ks[n] == k);
            assert(ks.to_set().contains(k));
            assert(m@.dom().contains(k));
            assert(post[n] == k);
        }
        let ghost before = refs@;
        match m.get(&k) {
            Some(def) => match spans.get(&k) {
                Some(span) => {
                    push_ref(refs, def.0, *span);
                    proof {
                        assert forall|d: u32, s: Span| #[trigger] lists(refs@, d, s) <==> lists(r0, d, s) || used_among(m@, spans@, post, d, s) by {
                            if used_among(m@, spans@, post, d, s) {
                                let j = choose|j: int|
                                    0 <= j < post.len() && #[trigger] m@.contains_key(post[j]) && m@[post[j]].0 == d
                                        && spans@.contains_key(post[j]) && spans@[post[j]] == s;
                                if j < n {
                                    assert(pre[j] == post[j]);
                                    assert(used_among(m@, spans@, pre, d, s));
                                }
                            }
                            if used_among(m@, spans@, pre, d, s) {
                                let j = choose|j: int|
                                    0 <= j < pre.len() && #[trigger] m@.contains_key(pre[j]) && m@[pre[j]].0 == d
                                        && spans@.contains_key(pre[j]) && spans@[pre[j]] == s;
                                assert(post[j] == pre[j]);
                            }
                        }
                    }
                },
                None => {
                    proof {
                        assert forall|d: u32, s: Span| #[trigger] lists(refs@, d, s) <==> lists(r0, d, s) || used_among(m@, spans@, post, d, s) by {
                            if used_among(m@, spans@, post, d, s) {
                                let j = choose|j: int|
                                    0 <= j < post.len() && #[trigger] m@.contains_key(post[j]) && m@[post[j]].0 == d
                                        && spans@.contains_key(post[j]) && spans@[post[j]] == s;
                                assert(pre[j] == post[j]);
                                assert(used_among(m@, spans@, pre, d, s));
                            }
                            if used_among(m@, spans@, pre, d, s) {
                                let j = choose|j: int|
                                    0 <= j < pre.len() && #[trigger] m@.contains_key(pre[j]) && m@[pre[j]].0 == d
                                        && spans@.contains_key(pre[j]) && spans@[pre[j]] == s;
                                assert(post[j] == pre[j]);
                            }
                        }
                    }
                },
            },
            None => {},
        }
        proof {
            n = n + 1;
        }
    }
    proof {
        assert(ks.take(n) =~= ks);
        assert forall|d: u32, s: Span| used_among(m@, spans@, ks, d, s) <==> #[trigger] used_at(m@, spans@, d, s) by {
            if used_at(m@, spans@, d, s) {
                let x = choose|x: u32| #[trigger] m@.contains_key(x) && m@[x].0 == d && spans@.contains_key(x) && spans@[x] == s;
                assert(ks.to_set().contains(x));
                let j = choose|j: int| 0 <= j < ks.len() && ks[j] == x;
                assert(m@.contains_key(ks[j]));
            }
            if used_among(m@, spans@, ks, d, s) {
                let j = choose|j: int|
                    0 <= j < ks.len() && #[trigger] m@.contains_key(ks[j]) && m@[ks[j]].0 == d && spans@.contains_key(ks[j])
                        && spans@[ks[j]] == s;
                assert(m@.contains_key(ks[j]));
            }
        }
    }
}

/// Where each definition is used or defined, by raw definition id. Each
/// listed definition has at least one span, and lists exactly the spans
/// that are references to it (see `is_reference`).
pub fn build_reference_index(ast: &Ast, resolved: &LspResolved) -> (r: ReferenceIndex)
    ensures
        none_empty(r.references@),
        forall|d: u32, s: Span| #[trigger] lists(r.references@, d, s) <==> is_reference(
            *resolved,
            insert_all(Map::<u32, Span>::empty(), items_spans(ast.items@)),
            d,
            s,
        ),
{
    let node_spans = collect_node_spans(ast);
    let ghost spans = node_spans@;
    let mut refs: HashMap<u32, Vec<Span>> = HashMap::new();
    add_uses(&mut refs, &resolved.resolved_names, &node_spans);
    add_uses(&mut refs, &resolved.resolved_calls, &node_spans);
    add_uses(&mut refs, &resolved.resolved_fields, &node_spans);
    add_uses(&mut refs, &resolved.resolved_variants, &node_spans);
    let ghost r1 = refs@;
    let ghost defs = resolved.symbols.defs@;
    let mut i: usize = 0;
    while i < resolved.symbols.defs.len()
        invariant
            0 <= i <= defs.len(),
            defs == resolved.symbols.defs@,
            none_empty(refs@),
            forall|d: u32, s: Span| #[trigger] lists(refs@, d, s) <==> lists(r1, d, s) || defined_at(defs.take(i as int), d, s),
        decreases defs.len() - i,
    {
        let def = &resolved.symbols.defs[i];
        push_ref(&mut refs, def.id.0, def.span);
        proof {
            let pre = defs.take(i as int);
            let post = defs.take(i + 1);
            assert forall|d: u32, s: Span| #[trigger] lists(refs@, d, s) <==> lists(r1, d, s) || defined_at(post, d, s) by {
                if defined_at(post, d, s) {
                    let j = choose|j: int| 0 <= j < post.len() && #[trigger] post[j].id.0 == d && post[j].span == s;
                    if j < i {
                        assert(pre[j] == post[j]);
                    }
                }
                if defined_at(pre, d, s) {
                    let j = choose|j: int| 0 <= j < pre.len() && #[trigger] pre[j].id.0 == d && pre[j].span == s;
                    assert(post[j] == pre[j]);
                }
                assert(post[i as int] == defs[i as int]);
            }
        }
        i = i + 1;
    }
    proof {
        assert(defs.take(i as int) =~= defs);
    }
    ReferenceIndex { references: refs }
}


// ---------------------------------------------------------------------
// All indexes
// ---------------------------------------------------------------------

/// Rebuilds the indexes of an analysis from its syntax tree, its
/// resolution results and the types in `ctx`; without a syntax tree,
/// nothing changes, and without resolution results the definition and
/// reference indexes are kept.
pub fn rebuild_indexes(result: &mut AnalysisResult, ctx: &TypeContext)
    ensures
        old(result).ast is None ==> *final(result) == *old(result),
        final(result).ast == old(result).ast,
        final(result).resolved == old(result).resolved,
        final(result).uri == old(result).uri,
        final(result).version == old(result).version,
        final(result).typed == old(result).typed,
        final(result).borrow_result == old(result).borrow_result,
        final(result).diagnostics == old(result).diagnostics,
        final(result).metadata == old(result).metadata,
        old(result).ast matches Some(ast) ==> texts_view(final(result).type_index.types@) == insert_all(
            context_texts(*ctx),
            items_types_entries(ast.items@),
        ),
        old(result).ast matches Some(ast) ==> entries_view(final(result).symbol_index.entries@) == items_symbols(
            IndexEnv { resolved: old(result).resolved, types: texts_view(final(result).type_index.types@) },
            ast.items@,
        ),
        old(result).resolved is None ==> final(result).definition_index == old(result).definition_index
            && final(result).reference_index == old(result).reference_index,
        old(result).ast matches Some(ast) ==> old(result).resolved matches Some(res) ==> {
            &&& final(result).definition_index.definitions@ == insert_all(
                Map::<u32, Span>::empty(),
                res.symbols.defs@.map_values(|d: Def| (d.id.0, d.span)),
            )
            &&& none_empty(final(result).reference_index.references@)
            &&& forall|d: u32, s: Span| #[trigger] lists(final(result).reference_index.references@, d, s) <==> is_reference(
                res,
                insert_all(Map::<u32, Span>::empty(), items_spans(ast.items@)),
                d,
                s,
            )
        },
{
    let built = match &result.ast {
        None => return,
        Some(ast) => {
            let type_index = build_type_index(ast, ctx);
            let symbol_index = build_symbol_index(ast, &result.resolved, &type_index);
            let by_def = match &result.resolved {
                Some(resolved) => Some((build_definition_index(resolved), build_reference_index(ast, resolved))),
                None => None,
            };
            (type_index, symbol_index, by_def)
        },
    };
    let (type_index, symbol_index, by_def) = built;
    result.type_index = type_index;
    result.symbol_index = symbol_index;
    if let Some((definitions, references)) = by_def {
        result.definition_index = definitions;
        result.reference_index = references;
    }
}

} // verus!
