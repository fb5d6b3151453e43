use vstd::prelude::*;

use crate::ast::{Block, Expr, ExprKind, FieldInit, MatchArm, Pattern, PatternKind, Stmt, StmtKind};
use crate::span::Span;

verus! {

/// Some binding in pattern `p` is written at `span` with mutability `m`.
pub open spec fn pattern_binds(p: Pattern, span: Span, m: bool) -> bool
    decreases p, 0nat,
{
    ||| (p.span == span && (p.kind matches PatternKind::Binding { mutable, .. } && mutable == m))
    ||| (p.kind matches PatternKind::Tuple(items) && patterns_bind(items@, span, m))
}

pub open spec fn patterns_bind(ps: Seq<Pattern>, span: Span, m: bool) -> bool
    decreases ps, 1nat,
{
    ps.len() > 0 && (pattern_binds(ps[0], span, m) || patterns_bind(ps.subrange(1, ps.len() as int), span, m))
}

/// Some `let`, `for` or `match` pattern inside `e` binds at `span` with
/// mutability `m`.
pub open spec fn expr_binds(e: Expr, span: Span, m: bool) -> bool
    decreases e, 0nat,
{
    match e.kind {
        ExprKind::Unary { expr, .. } => expr_binds(*expr, span, m),
        ExprKind::Binary { left, right, .. } => expr_binds(*left, span, m) || expr_binds(*right, span, m),
        ExprKind::Assign { target, value } => expr_binds(*target, span, m) || expr_binds(*value, span, m),
        ExprKind::Call { callee, args } => expr_binds(*callee, span, m) || exprs_bind(args@, span, m),
        ExprKind::Field { base, .. } => expr_binds(*base, span, m),
        ExprKind::Index { base, index } => expr_binds(*base, span, m) || expr_binds(*index, span, m),
        ExprKind::Tuple(items) => exprs_bind(items@, span, m),
        ExprKind::Array(items) => exprs_bind(items@, span, m),
        ExprKind::StructInit { fields, .. } => fields_bind(fields@, span, m),
        ExprKind::If { condition, then_block, else_branch } => {
            ||| expr_binds(*condition, span, m)
            ||| block_binds(then_block, span, m)
            ||| (else_branch matches Some(b) && expr_binds(*b, span, m))
        },
        ExprKind::Match { value, arms } => expr_binds(*value, span, m) || arms_bind(arms@, span, m),
        ExprKind::Block(b) => block_binds(b, span, m),
        _ => false,
    }
}

pub open spec fn exprs_bind(es: Seq<Expr>, span: Span, m: bool) -> bool
    decreases es, 1nat,
{
    es.len() > 0 && (expr_binds(es[0], span, m) || exprs_bind(es.subrange(1, es.len() as int), span, m))
}

pub open spec fn fields_bind(fs: Seq<FieldInit>, span: Span, m: bool) -> bool
    decreases fs, 1nat,
{
    fs.len() > 0 && (expr_binds(fs[0].value, span, m) || fields_bind(fs.subrange(1, fs.len() as int), span, m))
}

pub open spec fn arms_bind(arms: Seq<MatchArm>, span: Span, m: bool) -> bool
    decreases arms, 1nat,
{
    arms.len() > 0 && (
        pattern_binds(arms[0].pattern, span, m)
        || (arms[0].guard matches Some(g) && expr_binds(g, span, m))
        || expr_binds(arms[0].body, span, m)
        || arms_bind(arms.subrange(1, arms.len() as int), span, m))
}

pub open spec fn block_binds(b: Block, span: Span, m: bool) -> bool
    decreases b, 0nat,
{
    stmts_bind(b.statements@, span, m)
}

pub open spec fn stmts_bind(ss: Seq<Stmt>, span: Span, m: bool) -> bool
    decreases ss, 1nat,
{
    ss.len() > 0 && (stmt_binds(ss[0], span, m) || stmts_bind(ss.subrange(1, ss.len() as int), span, m))
}

pub open spec fn stmt_binds(s: Stmt, span: Span, m: bool) -> bool
    decreases s, 0nat,
{
    match s.kind {
        StmtKind::Let { pattern, value, .. } => pattern_binds(pattern, span, m) || (value matches Some(v)
            && expr_binds(v, span, m)),
        StmtKind::Expr(e) => expr_binds(e, span, m),
        StmtKind::Semi(e) => expr_binds(e, span, m),
        StmtKind::Return(v) => v matches Some(e) && expr_binds(e, span, m),
        StmtKind::While { condition, body } => expr_binds(condition, span, m) || block_binds(body, span, m),
        StmtKind::For { pattern, iter, body } => pattern_binds(pattern, span, m) || expr_binds(iter, span, m)
            || block_binds(body, span, m),
        _ => false,
    }
}

/// What the search has found after pattern `p`, having found `f` before:
/// a binding written at `span` records its mutability (a later one
/// replacing an earlier), and a tuple is searched item by item.
pub open spec fn pattern_find(f: Option<bool>, p: Pattern, span: Span) -> Option<bool>
    decreases p, 1nat, 0nat,
{
    let f1 = if p.span == span && p.kind is Binding {
        Some(p.kind->mutable)
    } else {
        f
    };
    match p.kind {
        PatternKind::Tuple(items) => pats_find(f1, items, items@.len(), span),
        _ => f1,
    }
}

/// The search through the first `n` of `ps`.
pub open spec fn pats_find(f: Option<bool>, ps: Vec<Pattern>, n: nat, span: Span) -> Option<bool>
    decreases ps, 0nat, n,
{
    if n == 0 || n > ps@.len() {
        f
    } else {
        pattern_find(pats_find(f, ps, (n - 1) as nat, span), ps@[n - 1], span)
    }
}

/// The search through expression `e`: nothing more once something is
/// found; else its parts in order, a match's arms each by pattern, guard
/// and body.
pub open spec fn expr_find(f: Option<bool>, e: Expr, span: Span) -> Option<bool>
    decreases e, 2nat, 0nat,
{
    if f is Some {
        f
    } else {
        match e.kind {
            ExprKind::Unary { expr, .. } => expr_find(f, *expr, span),
            ExprKind::Binary { left, right, .. } => expr_find(expr_find(f, *left, span), *right, span),
            ExprKind::Assign { target, value } => expr_find(expr_find(f, *target, span), *value, span),
            ExprKind::Call { callee, args } => exprs_find(expr_find(f, *callee, span), args, args@.len(), span),
            ExprKind::Field { base, .. } => expr_find(f, *base, span),
            ExprKind::Index { base, index } => expr_find(expr_find(f, *base, span), *index, span),
            ExprKind::Tuple(items) => exprs_find(f, items, items@.len(), span),
            ExprKind::Array(items) => exprs_find(f, items, items@.len(), span),
            ExprKind::StructInit { fields, .. } => fields_find(f, fields, fields@.len(), span),
            ExprKind::If { condition, then_block, else_branch } => {
                let f2 = block_find(expr_find(f, *condition, span), then_block, span);
                match else_branch {
                    Some(b) => expr_find(f2, *b, span),
                    None => f2,
                }
            },
            ExprKind::Match { value, arms } => arms_find(expr_find(f, *value, span), arms, arms@.len(), span),
            ExprKind::Block(b) => block_find(f, b, span),
            _ => f,
        }
    }
}

/// The search through the first `n` of `es`.
pub open spec fn exprs_find(f: Option<bool>, es: Vec<Expr>, n: nat, span: Span) -> Option<bool>
    decreases es, 0nat, n,
{
    if n == 0 || n > es@.len() {
        f
    } else {
        expr_find(exprs_find(f, es, (n - 1) as nat, span), es@[n - 1], span)
    }
}

/// The search through the values of the first `n` of `fs`.
pub open spec fn fields_find(f: Option<bool>, fs: Vec<FieldInit>, n: nat, span: Span) -> Option<bool>
    decreases fs, 0nat, n,
{
    if n == 0 || n > fs@.len() {
        f
    } else {
        expr_find(fields_find(f, fs, (n - 1) as nat, span), fs@[n - 1].value, span)
    }
}

/// The search through the first `n` of `arms`: pattern, guard, body.
pub open spec fn arms_find(f: Option<bool>, arms: Vec<MatchArm>, n: nat, span: Span) -> Option<bool>
    decreases arms, 0nat, n,
{
    if n == 0 || n > arms@.len() {
        f
    } else {
        let a = arms@[n - 1];
        let f2 = pattern_find(arms_find(f, arms, (n - 1) as nat, span), a.pattern, span);
        let f3 = match a.guard {
            Some(g) => expr_find(f2, g, span),
            None => f2,
        };
        expr_find(f3, a.body, span)
    }
}

/// The search through a block's statements, stopping once something is
/// found.
pub open spec fn block_find(f: Option<bool>, b: Block, span: Span) -> Option<bool>
    decreases b, 1nat, 0nat,
{
    stmts_find(f, b.statements, b.statements@.len(), span)
}

/// The search through the first `n` of `ss`.
pub open spec fn stmts_find(f: Option<bool>, ss: Vec<Stmt>, n: nat, span: Span) -> Option<bool>
    decreases ss, 0nat, n,
{
    if n == 0 || n > ss@.len() {
        f
    } else {
        let f1 = stmts_find(f, ss, (n - 1) as nat, span);
        if f1 is Some {
            f1
        } else {
            stmt_find(f1, ss@[n - 1], span)
        }
    }
}

/// The search through one statement.
pub open spec fn stmt_find(f: Option<bool>, s: Stmt, span: Span) -> Option<bool>
    decreases s, 2nat, 0nat,
{
    match s.kind {
        StmtKind::Let { pattern, value, .. } => {
            let f1 = pattern_find(f, pattern, span);
            match value {
                Some(v) => expr_find(f1, v, span),
                None => f1,
            }
        },
        StmtKind::Expr(e) => expr_find(f, e, span),
        StmtKind::Semi(e) => expr_find(f, e, span),
        StmtKind::Return(v) => match v {
            Some(e) => expr_find(f, e, span),
            None => f,
        },
        StmtKind::While { condition, body } => block_find(expr_find(f, condition, span), body, span),
        StmtKind::For { pattern, iter, body } => block_find(
            expr_find(pattern_find(f, pattern, span), iter, span),
            body,
            span,
        ),
        _ => f,
    }
}

/// Once the search through statements has found something, the rest
/// changes nothing.
proof fn lemma_stmts_find_stays(f: Option<bool>, ss: Vec<Stmt>, i: nat, n: nat, span: Span)
    requires
        i <= n <= ss@.len(),
        stmts_find(f, ss, i, span) is Some,
    ensures
        stmts_find(f, ss, n, span) == stmts_find(f, ss, i, span),
    decreases n,
{
    if n > i {
        lemma_stmts_find_stays(f, ss, i, (n - 1) as nat, span);
    }
}

/// Looks for the binding written at `span` and records whether it is
/// mutable.
pub struct MutabilityFinder {
    pub span: Span,
    pub found_mut: Option<bool>,
}

impl MutabilityFinder {
    pub fn check_pattern(&mut self, pattern: &Pattern)
        ensures
            final(self).span == old(self).span,
            final(self).found_mut matches Some(m) ==> old(self).found_mut == Some(m) || pattern_binds(*pattern, old(self).span, m),
            (pattern_binds(*pattern, old(self).span, true) || pattern_binds(*pattern, old(self).span, false)
                || old(self).found_mut is Some) ==> final(self).found_mut is Some,
            final(self).found_mut == pattern_find(old(self).found_mut, *pattern, old(self).span),
        decreases pattern,
    {
        if pattern.span == self.span {
            if let PatternKind::Binding { mutable, .. } = &pattern.kind {
                self.found_mut = Some(*mutable);
            }
        }
        match &pattern.kind {
            PatternKind::Tuple(items) => {
                let ghost f0 = self.found_mut;
                let mut i: usize = 0;
                while i < items.len()
                    invariant
                        pattern.kind == PatternKind::Tuple(*items),
                        0 <= i <= items@.len(),
                        self.span == old(self).span,
                        self.found_mut == pats_find(f0, *items, i as nat, self.span),
                        self.found_mut matches Some(m) ==> f0 == Some(m) || patterns_bind(items@, self.span, m),
                        f0 is Some ==> self.found_mut is Some,
                        f0 is None && self.found_mut is None ==> forall|k: int| 0 <= k < i ==> !pattern_binds(#[trigger] items@[k], self.span, true)
                            && !pattern_binds(items@[k], self.span, false),
                        forall|k: int| 0 <= k < i && (pattern_binds(#[trigger] items@[k], self.span, true) || pattern_binds(items@[k], self.span, false))
                            ==> self.found_mut is Some,
                    decreases items@.len() - i,
                {
                    proof {
                        assert(decreases_to!(*pattern => pattern.kind));
                        assert(decreases_to!(pattern.kind => pattern.kind->Tuple_0));
                        assert(decreases_to!(*items => items[i as int]));
                        assert(decreases_to!(*pattern => items[i as int]));
                    }
                    self.check_pattern(&items[i]);
                    proof {
                        assert forall|m: bool| pattern_binds(items@[i as int], self.span, m) implies patterns_bind(items@, self.span, m) by {
                            lemma_patterns_bind_elem(items@, self.span, m, i as int);
                        }
                    }
                    i = i + 1;
                }
                proof {
                    if f0 is None && self.found_mut is None {
                        assert forall|m: bool| !patterns_bind(items@, self.span, m) by {
                            if patterns_bind(items@, self.span, m) {
                                let k = lemma_patterns_bind_witness(items@, self.span, m);
                            }
                        }
                    }
                    assert forall|m: bool| patterns_bind(items@, self.span, m) implies self.found_mut is Some by {
                        let k = lemma_patterns_bind_witness(items@, self.span, m);
                        assert(pattern_binds(items@[k], self.span, true) || pattern_binds(items@[k], self.span, false));
                    }
                    assert(pattern_binds(*pattern, self.span, true) == patterns_bind(items@, self.span, true));
                    assert(pattern_binds(*pattern, self.span, false) == patterns_bind(items@, self.span, false));
                }
            },
            _ => {},
        }
    }
}

proof fn lemma_patterns_bind_elem(ps: Seq<Pattern>, span: Span, m: bool, i: int)
    requires
        0 <= i < ps.len(),
        pattern_binds(ps[i], span, m),
    ensures
        patterns_bind(ps, span, m),
    decreases i,
{
    if i > 0 {
        let rest = ps.subrange(1, ps.len() as int);
        assert(rest[i - 1] == ps[i]);
        lemma_patterns_bind_elem(rest, span, m, i - 1);
    }
}

proof fn lemma_patterns_bind_witness(ps: Seq<Pattern>, span: Span, m: bool) -> (k: int)
    requires
        patterns_bind(ps, span, m),
    ensures
        0 <= k < ps.len(),
        pattern_binds(ps[k], span, m),
    decreases ps.len(),
{
    if pattern_binds(ps[0], span, m) {
        0
    } else {
        let rest = ps.subrange(1, ps.len() as int);
        let k = lemma_patterns_bind_witness(rest, span, m);
        assert(rest[k] == ps[k + 1]);
        k + 1
    }
}


proof fn lemma_exprs_bind_elem(es: Seq<Expr>, span: Span, m: bool, i: int)
    requires
        0 <= i < es.len(),
        expr_binds(es[i], span, m),
    ensures
        exprs_bind(es, span, m),
    decreases i,
{
    if i > 0 {
        let rest = es.subrange(1, es.len() as int);
        assert(rest[i - 1] == es[i]);
        lemma_exprs_bind_elem(rest, span, m, i - 1);
    }
}

proof fn lemma_exprs_bind_witness(es: Seq<Expr>, span: Span, m: bool) -> (k: int)
    requires
        exprs_bind(es, span, m),
    ensures
        0 <= k < es.len(),
        expr_binds(es[k], span, m),
    decreases es.len(),
{
    if expr_binds(es[0], span, m) {
        0
    } else {
        let rest = es.subrange(1, es.len() as int);
        let k = lemma_exprs_bind_witness(rest, span, m);
        assert(rest[k] == es[k + 1]);
        k + 1
    }
}

proof fn lemma_fields_bind_elem(fs: Seq<FieldInit>, span: Span, m: bool, i: int)
    requires
        0 <= i < fs.len(),
        expr_binds(fs[i].value, span, m),
    ensures
        fields_bind(fs, span, m),
    decreases i,
{
    if i > 0 {
        let rest = fs.subrange(1, fs.len() as int);
        assert(rest[i - 1] == fs[i]);
        lemma_fields_bind_elem(rest, span, m, i - 1);
    }
}

proof fn lemma_fields_bind_witness(fs: Seq<FieldInit>, span: Span, m: bool) -> (k: int)
    requires
        fields_bind(fs, span, m),
    ensures
        0 <= k < fs.len(),
        expr_binds(fs[k].value, span, m),
    decreases fs.len(),
{
    if expr_binds(fs[0].value, span, m) {
        0
    } else {
        let rest = fs.subrange(1, fs.len() as int);
        let k = lemma_fields_bind_witness(rest, span, m);
        assert(rest[k] == fs[k + 1]);
        k + 1
    }
}

/// Arm `a` binds at `span` with `m`: in its pattern, guard or body.
pub open spec fn arm_binds(a: MatchArm, span: Span, m: bool) -> bool {
    pattern_binds(a.pattern, span, m) || (a.guard matches Some(g) && expr_binds(g, span, m))
        || expr_binds(a.body, span, m)
}

proof fn lemma_arms_bind_elem(arms: Seq<MatchArm>, span: Span, m: bool, i: int)
    requires
        0 <= i < arms.len(),
        arm_binds(arms[i], span, m),
    ensures
        arms_bind(arms, span, m),
    decreases i,
{
    if i > 0 {
        let rest = arms.subrange(1, arms.len() as int);
        assert(rest[i - 1] == arms[i]);
        lemma_arms_bind_elem(rest, span, m, i - 1);
    }
}

proof fn lemma_arms_bind_witness(arms: Seq<MatchArm>, span: Span, m: bool) -> (k: int)
    requires
        arms_bind(arms, span, m),
    ensures
        0 <= k < arms.len(),
        arm_binds(arms[k], span, m),
    decreases arms.len(),
{
    if arm_binds(arms[0], span, m) {
        0
    } else {
        let rest = arms.subrange(1, arms.len() as int);
        let k = lemma_arms_bind_witness(rest, span, m);
        assert(rest[k] == arms[k + 1]);
        k + 1
    }
}

proof fn lemma_stmts_bind_elem(ss: Seq<Stmt>, span: Span, m: bool, i: int)
    requires
        0 <= i < ss.len(),
        stmt_binds(ss[i], span, m),
    ensures
        stmts_bind(ss, span, m),
    decreases i,
{
    if i > 0 {
        let rest = ss.subrange(1, ss.len() as int);
        assert(rest[i - 1] == ss[i]);
        lemma_stmts_bind_elem(rest, span, m, i - 1);
    }
}

proof fn lemma_stmts_bind_witness(ss: Seq<Stmt>, span: Span, m: bool) -> (k: int)
    requires
        stmts_bind(ss, span, m),
    ensures
        0 <= k < ss.len(),
        stmt_binds(ss[k], span, m),
    decreases ss.len(),
{
    if stmt_binds(ss[0], span, m) {
        0
    } else {
        let rest = ss.subrange(1, ss.len() as int);
        let k = lemma_stmts_bind_witness(rest, span, m);
        assert(rest[k] == ss[k + 1]);
        k + 1
    }
}

impl MutabilityFinder {
    /// Searches the expressions of `items` in order.
    fn exprs(&mut self, items: &Vec<Expr>)
        ensures
            final(self).span == old(self).span,
            final(self).found_mut matches Some(m) ==> old(self).found_mut == Some(m) || exprs_bind(items@, old(self).span, m),
            (exprs_bind(items@, old(self).span, true) || exprs_bind(items@, old(self).span, false)
                || old(self).found_mut is Some) ==> final(self).found_mut is Some,
            final(self).found_mut == exprs_find(old(self).found_mut, *items, items@.len(), old(self).span),
        decreases items,
    {
        let ghost f0 = self.found_mut;
        let mut i: usize = 0;
        while i < items.len()
            invariant
                0 <= i <= items@.len(),
                self.span == old(self).span,
                f0 == old(self).found_mut,
                self.found_mut == exprs_find(f0, *items, i as nat, self.span),
                self.found_mut matches Some(m) ==> f0 == Some(m) || exprs_bind(items@, self.span, m),
                f0 is Some ==> self.found_mut is Some,
                forall|k: int| 0 <= k < i && (expr_binds(#[trigger] items@[k], self.span, true) || expr_binds(items@[k], self.span, false))
                    ==> self.found_mut is Some,
            decreases items@.len() - i,
        {
            proof {
                assert(decreases_to!(*items => items[i as int]));
            }
            self.expr(&items[i]);
            proof {
                assert forall|m: bool| expr_binds(items@[i as int], self.span, m) implies exprs_bind(items@, self.span, m) by {
                    lemma_exprs_bind_elem(items@, self.span, m, i as int);
                }
            }
            i = i + 1;
        }
        proof {
            assert forall|m: bool| exprs_bind(items@, self.span, m) implies self.found_mut is Some by {
                let k = lemma_exprs_bind_witness(items@, self.span, m);
                assert(expr_binds(items@[k], self.span, true) || expr_binds(items@[k], self.span, false));
            }
        }
    }

    pub fn expr(&mut self, expr: &Expr)
        ensures
            final(self).span == old(self).span,
            final(self).found_mut matches Some(m) ==> old(self).found_mut == Some(m) || expr_binds(*expr, old(self).span, m),
            (expr_binds(*expr, old(self).span, true) || expr_binds(*expr, old(self).span, false)
                || old(self).found_mut is Some) ==> final(self).found_mut is Some,
            final(self).found_mut == expr_find(old(self).found_mut, *expr, old(self).span),
        decreases expr,
    {
        if self.found_mut.is_some() {
            return;
        }
        proof {
            assert(decreases_to!(*expr => expr.kind));
        }
        match &expr.kind {
            ExprKind::Unary { expr: inner, .. } => self.expr(inner),
            ExprKind::Binary { left, right, .. } => {
                self.expr(left);
                self.expr(right);
            },
            ExprKind::Assign { target: left, value: right } => {
                self.expr(left);
                self.expr(right);
            },
            ExprKind::Call { callee, args } => {
                self.expr(callee);
                proof {
                    assert(decreases_to!(expr.kind => expr.kind->args));
                }
                self.exprs(args);
            },
            ExprKind::Field { base, .. } => self.expr(base),
            ExprKind::Index { base, index } => {
                self.expr(base);
                self.expr(index);
            },
            ExprKind::Tuple(items) => {
                proof {
                    assert(decreases_to!(expr.kind => expr.kind->Tuple_0));
                }
                self.exprs(items);
            },
            ExprKind::Array(items) => {
                proof {
                    assert(decreases_to!(expr.kind => expr.kind->Array_0));
                }
                self.exprs(items);
            },
            ExprKind::StructInit { fields, .. } => {
                let ghost f0 = self.found_mut;
                let mut i: usize = 0;
                while i < fields.len()
                    invariant
                        expr.kind matches ExprKind::StructInit { fields: f, .. } && f == *fields,
                        0 <= i <= fields@.len(),
                        self.span == old(self).span,
                        f0 is None,
                        self.found_mut == fields_find(f0, *fields, i as nat, self.span),
                        self.found_mut matches Some(m) ==> fields_bind(fields@, self.span, m),
                        forall|k: int| 0 <= k < i && (expr_binds(#[trigger] fields@[k].value, self.span, true)
                            || expr_binds(fields@[k].value, self.span, false)) ==> self.found_mut is Some,
                    decreases fields@.len() - i,
                {
                    proof {
                        assert(decreases_to!(expr.kind => expr.kind->fields));
                        assert(decreases_to!(*fields => fields[i as int]));
                        assert(decreases_to!(fields[i as int] => fields[i as int].value));
                        assert(decreases_to!(*expr => fields[i as int].value));
                    }
                    self.expr(&fields[i].value);
                    proof {
                        assert forall|m: bool| expr_binds(fields@[i as int].value, self.span, m) implies fields_bind(fields@, self.span, m) by {
                            lemma_fields_bind_elem(fields@, self.span, m, i as int);
                        }
                    }
                    i = i + 1;
                }
                proof {
                    assert forall|m: bool| fields_bind(fields@, self.span, m) implies self.found_mut is Some by {
                        let k = lemma_fields_bind_witness(fields@, self.span, m);
                        assert(expr_binds(fields@[k].value, self.span, true) || expr_binds(fields@[k].value, self.span, false));
                    }
                    assert(expr_binds(*expr, self.span, true) == fields_bind(fields@, self.span, true));
                    assert(expr_binds(*expr, self.span, false) == fields_bind(fields@, self.span, false));
                }
            },
            ExprKind::If { condition, then_block, else_branch } => {
                self.expr(condition);
                proof {
                    assert(decreases_to!(expr.kind => expr.kind->then_block));
                }
                self.block(then_block);
                if let Some(e) = else_branch {
                    self.expr(e);
                }
            },
            ExprKind::Match { value, arms } => {
                self.expr(value);
                let ghost f0 = self.found_mut;
                let mut i: usize = 0;
                while i < arms.len()
                    invariant
                        expr.kind matches ExprKind::Match { value: v, arms: a } && v == *value && a == *arms,
                        0 <= i <= arms@.len(),
                        self.span == old(self).span,
                        self.found_mut matches Some(m) ==> f0 == Some(m) || arms_bind(arms@, self.span, m),
                        f0 matches Some(m) ==> expr_binds(**value, self.span, m),
                        f0 is Some ==> self.found_mut is Some,
                        self.found_mut == arms_find(f0, *arms, i as nat, self.span),
                        forall|k: int| 0 <= k < i && (arm_binds(#[trigger] arms@[k], self.span, true)
                            || arm_binds(arms@[k], self.span, false)) ==> self.found_mut is Some,
                    decreases arms@.len() - i,
                {
                    let arm = &arms[i];
                    proof {
                        assert(decreases_to!(expr.kind => expr.kind->arms));
                        assert(decreases_to!(*arms => arms[i as int]));
                        assert(decreases_to!(arms[i as int] => arms[i as int].body));
                        assert(decreases_to!(*expr => arm.body));
                    }
                    self.check_pattern(&arm.pattern);
                    if let Some(guard) = &arm.guard {
                        proof {
                            assert(decreases_to!(arms[i as int] => arms[i as int].guard));
                            assert(decreases_to!(arms[i as int].guard => arms[i as int].guard->0));
                            assert(decreases_to!(*expr => *guard));
                        }
                        self.expr(guard);
                    }
                    self.expr(&arm.body);
                    proof {
                        assert forall|m: bool| arm_binds(arms@[i as int], self.span, m) implies arms_bind(arms@, self.span, m) by {
                            lemma_arms_bind_elem(arms@, self.span, m, i as int);
                        }
                    }
                    i = i + 1;
                }
                proof {
                    assert forall|m: bool| arms_bind(arms@, self.span, m) implies self.found_mut is Some by {
                        let k = lemma_arms_bind_witness(arms@, self.span, m);
                        assert(arm_binds(arms@[k], self.span, true) || arm_binds(arms@[k], self.span, false));
                    }
                    assert(expr_binds(*expr, self.span, true) == (expr_binds(**value, self.span, true) || arms_bind(arms@, self.span, true)));
                    assert(expr_binds(*expr, self.span, false) == (expr_binds(**value, self.span, false) || arms_bind(arms@, self.span, false)));
                }
            },
            ExprKind::Block(block) => self.block(block),
            _ => {
                proof {
                    assert(!expr_binds(*expr, self.span, true));
                    assert(!expr_binds(*expr, self.span, false));
                }
            },
        }
    }

    pub fn block(&mut self, block: &Block)
        ensures
            final(self).span == old(self).span,
            final(self).found_mut matches Some(m) ==> old(self).found_mut == Some(m) || block_binds(*block, old(self).span, m),
            (block_binds(*block, old(self).span, true) || block_binds(*block, old(self).span, false)
                || old(self).found_mut is Some) ==> final(self).found_mut is Some,
            final(self).found_mut == block_find(old(self).found_mut, *block, old(self).span),
        decreases block,
    {
        let ghost f0 = self.found_mut;
        let ghost ss = block.statements@;
        let mut i: usize = 0;
        while i < block.statements.len()
            invariant
                ss == block.statements@,
                0 <= i <= ss.len(),
                self.span == old(self).span,
                f0 == old(self).found_mut,
                self.found_mut == stmts_find(f0, block.statements, i as nat, self.span),
                self.found_mut matches Some(m) ==> f0 == Some(m) || stmts_bind(ss, self.span, m),
                f0 is Some ==> self.found_mut is Some,
                forall|k: int| 0 <= k < i && (stmt_binds(#[trigger] ss[k], self.span, true) || stmt_binds(ss[k], self.span, false))
                    ==> self.found_mut is Some,
            decreases ss.len() - i,
        {
            if self.found_mut.is_some() {
                proof {
                    lemma_stmts_find_stays(f0, block.statements, i as nat, ss.len(), self.span);
                }
                return;
            }
            let stmt = &block.statements[i];
            let ghost fb = self.found_mut;
            proof {
                assert(decreases_to!(*block => block.statements));
                assert(decreases_to!(block.statements => block.statements[i as int]));
                assert(decreases_to!(block.statements[i as int] => block.statements[i as int].kind));
            }
            match &stmt.kind {
                StmtKind::Let { pattern, value, .. } => {
                    self.check_pattern(pattern);
                    if let Some(val) = value {
                        self.expr(val);
                    }
                },
                StmtKind::Expr(e) => {
                    self.expr(e);
                },
                StmtKind::Semi(e) => {
                    self.expr(e);
                },
                StmtKind::Return(v) => {
                    if let Some(e) = v {
                        self.expr(e);
                    }
                },
                StmtKind::While { condition, body } => {
                    self.expr(condition);
                    self.block(body);
                },
                StmtKind::For { pattern, iter, body } => {
                    self.check_pattern(pattern);
                    self.expr(iter);
                    self.block(body);
                },
                _ => {},
            }
            proof {
                assert(stmt_find(fb, block.statements@[i as int], self.span) == self.found_mut);
                assert(stmts_find(f0, block.statements, (i + 1) as nat, self.span) == stmt_find(
                    stmts_find(f0, block.statements, i as nat, self.span),
                    block.statements@[i as int],
                    self.span,
                ));
                assert forall|m: bool| stmt_binds(ss[i as int], self.span, m) implies stmts_bind(ss, self.span, m) by {
                    lemma_stmts_bind_elem(ss, self.span, m, i as int);
                }
            }
            i = i + 1;
        }
        proof {
            assert forall|m: bool| stmts_bind(ss, self.span, m) implies self.found_mut is Some by {
                let k = lemma_stmts_bind_witness(ss, self.span, m);
                assert(stmt_binds(ss[k], self.span, true) || stmt_binds(ss[k], self.span, false));
            }
            assert(block_binds(*block, self.span, true) == stmts_bind(ss, self.span, true));
            assert(block_binds(*block, self.span, false) == stmts_bind(ss, self.span, false));
        }
    }
}

/// Whether the binding written at `span` inside `body` is mutable: None
/// when no binding there is written at `span`.
pub fn binding_mutability(body: &Block, span: Span) -> (r: Option<bool>)
    ensures
        r matches Some(m) ==> block_binds(*body, span, m),
        r is None <==> !block_binds(*body, span, true) && !block_binds(*body, span, false),
        r == block_find(None, *body, span),
{
    let mut finder = MutabilityFinder { span, found_mut: None };
    finder.block(body);
    finder.found_mut
}

} // verus!
