use vstd::prelude::*;

use crate::ast::{Ast, Block, Expr, ExprKind, FieldInit, Item, ItemKind, LiteralExpr, Stmt, StmtKind};
use crate::diagnostic::Diagnostic;
use crate::span::{NodeId, Span};
use crate::text::str_eq;
use crate::ty::{PrimitiveType, Type, TypeKind, TypeShape};
use crate::type_context::TypeContext;

verus! {

broadcast use vstd::std_specs::hash::group_hash_axioms;

/// `m` with each of `es` inserted in turn; later entries win.
pub open spec fn insert_all<V>(m: Map<u32, V>, es: Seq<(u32, V)>) -> Map<u32, V>
    decreases es.len(),
{
    if es.len() == 0 {
        m
    } else {
        insert_all(m, es.drop_last()).insert(es.last().0, es.last().1)
    }
}

/// Inserting two lists is inserting their concatenation.
pub proof fn lemma_insert_all_concat<V>(m: Map<u32, V>, a: Seq<(u32, V)>, b: Seq<(u32, V)>)
    ensures
        insert_all(m, a + b) == insert_all(insert_all(m, a), b),
    decreases b.len(),
{
    if b.len() == 0 {
        assert(a + b =~= a);
    } else {
        assert((a + b).drop_last() =~= a + b.drop_last());
        assert((a + b).last() == b.last());
        lemma_insert_all_concat(m, a, b.drop_last());
    }
}

/// The return type of the last function declared under `name`.
pub open spec fn return_shape(fns: Seq<(Seq<char>, TypeShape)>, name: Seq<char>) -> Option<TypeShape>
    decreases fns.len(),
{
    if fns.len() == 0 {
        None
    } else if fns.last().0 == name {
        Some(fns.last().1)
    } else {
        return_shape(fns.drop_last(), name)
    }
}

/// The type found for an expression: literals have their type, operators
/// the type of their (left) operand, calls of a known function its return
/// type, struct literals their struct, tuples and arrays are built from
/// their items (an array from its first); the rest is `void`.
pub open spec fn infer_shape(fns: Seq<(Seq<char>, TypeShape)>, e: Expr) -> TypeShape
    decreases e,
{
    match e.kind {
        ExprKind::Literal(lit) => TypeShape::Primitive(match lit {
            LiteralExpr::Integer(_) => PrimitiveType::I32,
            LiteralExpr::Float(_) => PrimitiveType::F32,
            LiteralExpr::String(_) => PrimitiveType::Str,
            LiteralExpr::CString(_) => PrimitiveType::CStr,
            LiteralExpr::Char(_) => PrimitiveType::Char,
            LiteralExpr::Bool(_) => PrimitiveType::Bool,
        }),
        ExprKind::Binary { left, .. } => infer_shape(fns, *left),
        ExprKind::Unary { expr, .. } => infer_shape(fns, *expr),
        ExprKind::Call { callee, .. } => match callee.kind {
            ExprKind::Path(p) => if p.segments@.len() > 0 {
                match return_shape(fns, p.segments@.last().name@) {
                    Some(t) => t,
                    None => TypeShape::Void,
                }
            } else {
                TypeShape::Void
            },
            _ => TypeShape::Void,
        },
        ExprKind::StructInit { path, .. } => TypeShape::Path(path.names()),
        ExprKind::Tuple(items) => TypeShape::Tuple(
            Seq::new(
                items@.len(),
                |i: int|
                    if 0 <= i < items@.len() {
                        infer_shape(fns, items@[i])
                    } else {
                        TypeShape::Void
                    },
            ),
        ),
        ExprKind::Array(items) => TypeShape::Array {
            ty: Box::new(
                if items@.len() > 0 {
                    infer_shape(fns, items@[0])
                } else {
                    TypeShape::Void
                },
            ),
            len: items@.len() as u64,
        },
        _ => TypeShape::Void,
    }
}

/// The (node id, type) pairs recorded while inferring `e`, in order: the
/// nodes inside first, `e` last.
pub open spec fn expr_entries(fns: Seq<(Seq<char>, TypeShape)>, e: Expr) -> Seq<(u32, TypeShape)>
    decreases e, 2nat,
{
    inner_entries(fns, e).push((e.id.0, infer_shape(fns, e)))
}

/// What is recorded for the nodes inside `e`. Assignments, fields,
/// indexing, matches and paths record nothing inside.
pub open spec fn inner_entries(fns: Seq<(Seq<char>, TypeShape)>, e: Expr) -> Seq<(u32, TypeShape)>
    decreases e, 1nat,
{
    match e.kind {
        ExprKind::Binary { left, right, .. } => expr_entries(fns, *left) + expr_entries(fns, *right),
        ExprKind::Unary { expr, .. } => expr_entries(fns, *expr),
        ExprKind::Call { callee, args } => expr_entries(fns, *callee) + exprs_entries(fns, args@),
        ExprKind::If { condition, then_block, else_branch } => expr_entries(fns, *condition) + block_entries(fns, then_block)
            + match else_branch {
            Some(b) => expr_entries(fns, *b),
            None => seq![],
        },
        ExprKind::StructInit { fields, .. } => fields_entries(fns, fields@),
        ExprKind::Tuple(items) => exprs_entries(fns, items@),
        ExprKind::Array(items) => exprs_entries(fns, items@),
        ExprKind::Block(b) => block_entries(fns, b),
        _ => seq![],
    }
}

pub open spec fn exprs_entries(fns: Seq<(Seq<char>, TypeShape)>, es: Seq<Expr>) -> Seq<(u32, TypeShape)>
    decreases es, 1nat,
{
    if es.len() == 0 {
        seq![]
    } else {
        exprs_entries(fns, es.subrange(0, es.len() - 1)) + expr_entries(fns, es[es.len() - 1])
    }
}

pub open spec fn fields_entries(fns: Seq<(Seq<char>, TypeShape)>, fs: Seq<FieldInit>) -> Seq<(u32, TypeShape)>
    decreases fs, 1nat,
{
    if fs.len() == 0 {
        seq![]
    } else {
        fields_entries(fns, fs.subrange(0, fs.len() - 1)) + expr_entries(fns, fs[fs.len() - 1].value)
    }
}

pub open spec fn block_entries(fns: Seq<(Seq<char>, TypeShape)>, b: Block) -> Seq<(u32, TypeShape)>
    decreases b, 0nat,
{
    stmts_entries(fns, b.statements@)
}

pub open spec fn stmts_entries(fns: Seq<(Seq<char>, TypeShape)>, ss: Seq<Stmt>) -> Seq<(u32, TypeShape)>
    decreases ss, 1nat,
{
    if ss.len() == 0 {
        seq![]
    } else {
        stmts_entries(fns, ss.subrange(0, ss.len() - 1)) + stmt_entries(fns, ss[ss.len() - 1])
    }
}

/// What inferring a statement records; a `let` with a value also records
/// the value's type for its pattern.
pub open spec fn stmt_entries(fns: Seq<(Seq<char>, TypeShape)>, s: Stmt) -> Seq<(u32, TypeShape)>
    decreases s, 0nat,
{
    match s.kind {
        StmtKind::Let { pattern, value, .. } => match value {
            Some(v) => expr_entries(fns, v).push((pattern.id.0, infer_shape(fns, v))),
            None => seq![],
        },
        StmtKind::Expr(e) => expr_entries(fns, e),
        StmtKind::Semi(e) => expr_entries(fns, e),
        StmtKind::Return(v) => match v {
            Some(e) => expr_entries(fns, e),
            None => seq![],
        },
        StmtKind::While { condition, body } => expr_entries(fns, condition) + block_entries(fns, body),
        StmtKind::For { iter, body, .. } => expr_entries(fns, iter) + block_entries(fns, body),
        _ => seq![],
    }
}

/// What inferring the function bodies among `items` records, in order.
pub open spec fn items_entries(fns: Seq<(Seq<char>, TypeShape)>, items: Seq<Item>) -> Seq<(u32, TypeShape)>
    decreases items.len(),
{
    if items.len() == 0 {
        seq![]
    } else {
        items_entries(fns, items.drop_last()) + match items.last().kind {
            ItemKind::Function(f) => match f.body {
                Some(b) => block_entries(fns, b),
                None => seq![],
            },
            _ => seq![],
        }
    }
}

/// The return types of the functions among `items`, in order (`void` for
/// a function without one).
pub open spec fn signatures_of(items: Seq<Item>) -> Seq<(Seq<char>, TypeShape)>
    decreases items.len(),
{
    if items.len() == 0 {
        seq![]
    } else {
        signatures_of(items.drop_last()) + match items.last().kind {
            ItemKind::Function(f) => seq![(f.name@, match f.return_ty {
                Some(t) => t.shape(),
                None => TypeShape::Void,
            })],
            _ => seq![],
        }
    }
}

struct FunctionReturn {
    name: String,
    ty: Type,
}

/// Infers simple expression types and records them in a type context.
pub struct TypeInferrer {
    report: Vec<Diagnostic>,
    functions: Vec<FunctionReturn>,
}

impl TypeInferrer {
    /// The known return types, in declaration order.
    pub closed spec fn fns(&self) -> Seq<(Seq<char>, TypeShape)> {
        self.functions@.map_values(|f: FunctionReturn| (f.name@, f.ty.shape()))
    }

    /// What has been reported so far.
    pub closed spec fn reported(&self) -> Seq<Diagnostic> {
        self.report@
    }

    /// An inferrer that knows no function yet.
    pub fn new() -> (r: TypeInferrer)
        ensures
            r.fns() == Seq::<(Seq<char>, TypeShape)>::empty(),
            r.reported().len() == 0,
    {
        let r = TypeInferrer { report: Vec::new(), functions: Vec::new() };
        assert(r.fns() =~= Seq::<(Seq<char>, TypeShape)>::empty());
        r
    }

    /// Records the return types of the functions of `ast`, then the types
    /// found in their bodies; reports nothing.
    pub fn infer_ast(self, ast: &Ast, ctx: &mut TypeContext) -> (r: Vec<Diagnostic>)
        ensures
            final(ctx).shapes() == insert_all(old(ctx).shapes(), items_entries(self.fns() + signatures_of(ast.items@), ast.items@)),
            r@ == self.reported(),
    {
        let mut inferrer = self;
        let ghost fns0 = inferrer.fns();
        let mut i: usize = 0;
        proof {
            assert(ast.items@.take(0) =~= Seq::<Item>::empty());
            assert(fns0 + signatures_of(ast.items@.take(0)) =~= fns0);
        }
        while i < ast.items.len()
            invariant
                0 <= i <= ast.items@.len(),
                inferrer.fns() == fns0 + signatures_of(ast.items@.take(i as int)),
                inferrer.report@ == self.report@,
            decreases ast.items@.len() - i,
        {
            proof {
                assert(ast.items@.take(i + 1).drop_last() =~= ast.items@.take(i as int));
                assert(ast.items@.take(i + 1).last() == ast.items@[i as int]);
            }
            let ghost before = inferrer.fns();
            if let ItemKind::Function(f) = &ast.items[i].kind {
                let ret = match &f.return_ty {
                    Some(t) => t.duplicate(),
                    None => Type { id: NodeId::new(0), kind: TypeKind::Void, span: ast.items[i].span },
                };
                inferrer.functions.push(FunctionReturn { name: f.name.clone(), ty: ret });
                proof {
                    assert(inferrer.fns() =~= before.push((f.name@, match f.return_ty {
                        Some(t) => t.shape(),
                        None => TypeShape::Void,
                    })));
                }
            }
            proof {
                assert(inferrer.fns() =~= fns0 + signatures_of(ast.items@.take(i + 1)));
            }
            i = i + 1;
        }
        proof {
            assert(ast.items@.take(i as int) =~= ast.items@);
        }
        let ghost fns = inferrer.fns();
        let ghost ctx0 = ctx.shapes();
        let mut j: usize = 0;
        proof {
            assert(items_entries(fns, ast.items@.take(0)) =~= Seq::<(u32, TypeShape)>::empty());
        }
        while j < ast.items.len()
            invariant
                0 <= j <= ast.items@.len(),
                fns == inferrer.fns(),
                ctx.shapes() == insert_all(ctx0, items_entries(fns, ast.items@.take(j as int))),
                inferrer.report@ == self.report@,
            decreases ast.items@.len() - j,
        {
            proof {
                assert(ast.items@.take(j + 1).drop_last() =~= ast.items@.take(j as int));
                assert(ast.items@.take(j + 1).last() == ast.items@[j as int]);
            }
            let ghost before = ctx.shapes();
            inferrer.infer_item(&ast.items[j], ctx);
            proof {
                let added = match ast.items@[j as int].kind {
                    ItemKind::Function(f) => match f.body {
                        Some(b) => block_entries(fns, b),
                        None => seq![],
                    },
                    _ => seq![],
                };
                lemma_insert_all_concat(ctx0, items_entries(fns, ast.items@.take(j as int)), added);
            }
            j = j + 1;
        }
        proof {
            assert(ast.items@.take(j as int) =~= ast.items@);
        }
        inferrer.report
    }

    fn infer_item(&self, item: &Item, ctx: &mut TypeContext)
        ensures
            final(ctx).shapes() == insert_all(old(ctx).shapes(), match item.kind {
                ItemKind::Function(f) => match f.body {
                    Some(b) => block_entries(self.fns(), b),
                    None => seq![],
                },
                _ => seq![],
            }),
    {
        if let ItemKind::Function(f) = &item.kind {
            if let Some(body) = &f.body {
                self.infer_block(body, ctx);
            }
        }
    }

    fn infer_block(&self, block: &Block, ctx: &mut TypeContext)
        ensures
            final(ctx).shapes() == insert_all(old(ctx).shapes(), block_entries(self.fns(), *block)),
        decreases block, 0nat,
    {
        let ghost ss = block.statements@;
        let ghost c0 = ctx.shapes();
        let mut i: usize = 0;
        proof {
            assert(ss.subrange(0, 0) =~= Seq::<Stmt>::empty());
        }
        while i < block.statements.len()
            invariant
                ss == block.statements@,
                0 <= i <= ss.len(),
                ctx.shapes() == insert_all(c0, stmts_entries(self.fns(), ss.subrange(0, i as int))),
            decreases ss.len() - i,
        {
            proof {
                let next = ss.subrange(0, i + 1);
                assert(next.subrange(0, next.len() - 1) =~= ss.subrange(0, i as int));
                assert(next[next.len() - 1] == ss[i as int]);
                assert(decreases_to!(*block => block.statements));
                assert(decreases_to!(block.statements => block.statements[i as int]));
            }
            self.infer_stmt(&block.statements[i], ctx);
            proof {
                lemma_insert_all_concat(c0, stmts_entries(self.fns(), ss.subrange(0, i as int)), stmt_entries(self.fns(), ss[i as int]));
            }
            i = i + 1;
        }
        proof {
            assert(ss.subrange(0, i as int) =~= ss);
        }
    }

    fn infer_stmt(&self, stmt: &Stmt, ctx: &mut TypeContext)
        ensures
            final(ctx).shapes() == insert_all(old(ctx).shapes(), stmt_entries(self.fns(), *stmt)),
        decreases stmt, 0nat,
    {
        let ghost c0 = ctx.shapes();
        let ghost fns = self.fns();
        proof {
            assert(decreases_to!(*stmt => stmt.kind));
        }
        match &stmt.kind {
            StmtKind::Let { pattern, value, .. } => {
                match value {
                    Some(expr) => {
                        let ty = self.infer_expr(expr, ctx);
                        let ghost c1 = ctx.shapes();
                        ctx.insert(pattern.id, ty);
                        proof {
                            assert(ctx.shapes() =~= c1.insert(pattern.id.0, infer_shape(fns, *expr)));
                            lemma_insert_all_concat(c0, expr_entries(fns, *expr), seq![(pattern.id.0, infer_shape(fns, *expr))]);
                            assert(expr_entries(fns, *expr).push((pattern.id.0, infer_shape(fns, *expr)))
                                =~= expr_entries(fns, *expr) + seq![(pattern.id.0, infer_shape(fns, *expr))]);
                            let one = seq![(pattern.id.0, infer_shape(fns, *expr))];
                            assert(one.drop_last() =~= Seq::<(u32, TypeShape)>::empty());
                            assert(one.last() == (pattern.id.0, infer_shape(fns, *expr)));
                            assert(insert_all(c1, Seq::<(u32, TypeShape)>::empty()) == c1);
                            assert(insert_all(c1, one.drop_last()) == c1);
                            assert(insert_all(c1, one) == c1.insert(pattern.id.0, infer_shape(fns, *expr)));
                        }
                    },
                    None => {},
                }
            },
            StmtKind::Expr(expr) => {
                self.infer_expr(expr, ctx);
            },
            StmtKind::Semi(expr) => {
                self.infer_expr(expr, ctx);
            },
            StmtKind::Return(value) => {
                if let Some(expr) = value {
                    self.infer_expr(expr, ctx);
                }
            },
            StmtKind::While { condition, body } => {
                self.infer_expr(condition, ctx);
                let ghost c1 = ctx.shapes();
                self.infer_block(body, ctx);
                proof {
                    lemma_insert_all_concat(c0, expr_entries(fns, *condition), block_entries(fns, *body));
                }
            },
            StmtKind::For { iter, body, .. } => {
                self.infer_expr(iter, ctx);
                self.infer_block(body, ctx);
                proof {
                    lemma_insert_all_concat(c0, expr_entries(fns, *iter), block_entries(fns, *body));
                }
            },
            _ => {},
        }
    }

    /// Index of the last function declared under `name`.
    fn find_return(&self, name: &str) -> (r: Option<usize>)
        ensures
            match return_shape(self.fns(), name@) {
                Some(t) => r matches Some(k) && k < self.functions@.len() && self.functions@[k as int].ty.shape() == t,
                None => r is None,
            },
    {
        let ghost fns = self.fns();
        let mut i: usize = self.functions.len();
        proof {
            assert(fns.take(i as int) =~= fns);
        }
        while i > 0
            invariant
                0 <= i <= self.functions@.len(),
                fns == self.fns(),
                return_shape(fns, name@) == return_shape(fns.take(i as int), name@),
            decreases i,
        {
            proof {
                assert(fns.take(i as int).last() == fns[i - 1]);
                assert(fns.take(i as int).drop_last() =~= fns.take(i - 1));
            }
            if str_eq(self.functions[i - 1].name.as_str(), name) {
                return Some(i - 1);
            }
            i = i - 1;
        }
        None
    }

    /// Infers the type of `expr`, recording it (and those of the nodes
    /// inside that are looked at) in `ctx`.
    fn infer_expr(&self, expr: &Expr, ctx: &mut TypeContext) -> (r: Type)
        ensures
            r.shape() == infer_shape(self.fns(), *expr),
            r.id == expr.id,
            r.span == expr.span,
            final(ctx).shapes() == insert_all(old(ctx).shapes(), expr_entries(self.fns(), *expr)),
            final(ctx).types@.contains_key(expr.id.0),
            final(ctx).types@[expr.id.0].id == r.id,
            final(ctx).types@[expr.id.0].span == r.span,
            final(ctx).types@[expr.id.0].shape() == r.shape(),
        decreases expr, 1nat,
    {
        let ghost c0 = ctx.shapes();
        let ghost fns = self.fns();
        let span = expr.span;
        let id = expr.id;
        proof {
            assert(decreases_to!(*expr => expr.kind));
        }
        let kind = match &expr.kind {
            ExprKind::Literal(lit) => {
                let p = match lit {
                    LiteralExpr::Integer(_) => PrimitiveType::I32,
                    LiteralExpr::Float(_) => PrimitiveType::F32,
                    LiteralExpr::String(_) => PrimitiveType::Str,
                    LiteralExpr::CString(_) => PrimitiveType::CStr,
                    LiteralExpr::Char(_) => PrimitiveType::Char,
                    LiteralExpr::Bool(_) => PrimitiveType::Bool,
                };
                TypeKind::Primitive(p)
            },
            ExprKind::Binary { left, right, .. } => {
                let ty_left = self.infer_expr(left, ctx);
                self.infer_expr(right, ctx);
                proof {
                    lemma_insert_all_concat(c0, expr_entries(fns, **left), expr_entries(fns, **right));
                }
                ty_left.kind
            },
            ExprKind::Unary { expr: inner, .. } => {
                let ty = self.infer_expr(inner, ctx);
                ty.kind
            },
            ExprKind::Call { callee, args } => {
                self.infer_expr(callee, ctx);
                let ghost c1 = ctx.shapes();
                let mut i: usize = 0;
                proof {
                    assert(args@.subrange(0, 0) =~= Seq::<Expr>::empty());
                }
                while i < args.len()
                    invariant
                        expr.kind matches ExprKind::Call { args: a, .. } && a == *args,
                        fns == self.fns(),
                        0 <= i <= args@.len(),
                        ctx.shapes() == insert_all(c1, exprs_entries(fns, args@.subrange(0, i as int))),
                    decreases args@.len() - i,
                {
                    proof {
                        let next = args@.subrange(0, i + 1);
                        assert(next.subrange(0, next.len() - 1) =~= args@.subrange(0, i as int));
                        assert(next[next.len() - 1] == args@[i as int]);
                        assert(decreases_to!(expr.kind => expr.kind->args));
                        assert(decreases_to!(*args => args[i as int]));
                        assert(decreases_to!(*expr => args[i as int]));
                    }
                    self.infer_expr(&args[i], ctx);
                    proof {
                        lemma_insert_all_concat(c1, exprs_entries(fns, args@.subrange(0, i as int)), expr_entries(fns, args@[i as int]));
                    }
                    i = i + 1;
                }
                proof {
                    assert(args@.subrange(0, i as int) =~= args@);
                    lemma_insert_all_concat(c0, expr_entries(fns, **callee), exprs_entries(fns, args@));
                }
                let mut ret_kind = TypeKind::Void;
                if let ExprKind::Path(path) = &callee.kind {
                    let n = path.segments.len();
                    if n > 0 {
                        if let Some(k) = self.find_return(path.segments[n - 1].name.as_str()) {
                            ret_kind = self.functions[k].ty.duplicate().kind;
                        }
                    }
                }
                ret_kind
            },
            ExprKind::If { condition, then_block, else_branch } => {
                self.infer_expr(condition, ctx);
                proof {
                    assert(decreases_to!(expr.kind => expr.kind->then_block));
                }
                self.infer_block(then_block, ctx);
                proof {
                    lemma_insert_all_concat(c0, expr_entries(fns, **condition), block_entries(fns, *then_block));
                }
                let ghost c2 = ctx.shapes();
                if let Some(else_expr) = else_branch {
                    self.infer_expr(else_expr, ctx);
                    proof {
                        lemma_insert_all_concat(c0, expr_entries(fns, **condition) + block_entries(fns, *then_block), expr_entries(fns, **else_expr));
                    }
                } else {
                    proof {
                        assert(expr_entries(fns, **condition) + block_entries(fns, *then_block) + Seq::<(u32, TypeShape)>::empty()
                            =~= expr_entries(fns, **condition) + block_entries(fns, *then_block));
                    }
                }
                TypeKind::Void
            },
            ExprKind::StructInit { path, fields } => {
                let mut i: usize = 0;
                proof {
                    assert(fields@.subrange(0, 0) =~= Seq::<FieldInit>::empty());
                }
                while i < fields.len()
                    invariant
                        expr.kind matches ExprKind::StructInit { fields: f, .. } && f == *fields,
                        fns == self.fns(),
                        0 <= i <= fields@.len(),
                        ctx.shapes() == insert_all(c0, fields_entries(fns, fields@.subrange(0, i as int))),
                    decreases fields@.len() - i,
                {
                    proof {
                        let next = fields@.subrange(0, i + 1);
                        assert(next.subrange(0, next.len() - 1) =~= fields@.subrange(0, i as int));
                        assert(next[next.len() - 1] == fields@[i as int]);
                        assert(decreases_to!(expr.kind => expr.kind->fields));
                        assert(decreases_to!(*fields => fields[i as int]));
                        assert(decreases_to!(fields[i as int] => fields[i as int].value));
                        assert(decreases_to!(*expr => fields[i as int].value));
                    }
                    self.infer_expr(&fields[i].value, ctx);
                    proof {
                        lemma_insert_all_concat(c0, fields_entries(fns, fields@.subrange(0, i as int)), expr_entries(fns, fields@[i as int].value));
                    }
                    i = i + 1;
                }
                proof {
                    assert(fields@.subrange(0, i as int) =~= fields@);
                }
                TypeKind::Path(path.duplicate())
            },
            ExprKind::Tuple(items) => {
                let mut tys: Vec<Type> = Vec::new();
                let mut i: usize = 0;
                proof {
                    assert(items@.subrange(0, 0) =~= Seq::<Expr>::empty());
                }
                while i < items.len()
                    invariant
                        expr.kind == ExprKind::Tuple(*items),
                        fns == self.fns(),
                        0 <= i <= items@.len(),
                        tys@.len() == i,
                        forall|k: int| 0 <= k < i ==> #[trigger] tys@[k].shape() == infer_shape(fns, items@[k]),
                        ctx.shapes() == insert_all(c0, exprs_entries(fns, items@.subrange(0, i as int))),
                    decreases items@.len() - i,
                {
                    proof {
                        let next = items@.subrange(0, i + 1);
                        assert(next.subrange(0, next.len() - 1) =~= items@.subrange(0, i as int));
                        assert(next[next.len() - 1] == items@[i as int]);
                        assert(decreases_to!(expr.kind => expr.kind->Tuple_0));
                        assert(decreases_to!(*items => items[i as int]));
                        assert(decreases_to!(*expr => items[i as int]));
                    }
                    let t = self.infer_expr(&items[i], ctx);
                    proof {
                        lemma_insert_all_concat(c0, exprs_entries(fns, items@.subrange(0, i as int)), expr_entries(fns, items@[i as int]));
                    }
                    tys.push(t);
                    i = i + 1;
                }
                proof {
                    assert(items@.subrange(0, i as int) =~= items@);
                }
                let ghost tv = tys@;
                let k = TypeKind::Tuple(tys);
                proof {
                    let r = Type { id, kind: k, span };
                    assert(r.kind->Tuple_0@ == tv);
                    assert forall|j: int| 0 <= j < items@.len() implies r.shape()->Tuple_0[j] == infer_shape(fns, *expr)->Tuple_0[j] by {
                        assert(r.shape()->Tuple_0[j] == tv[j].shape());
                    }
                    assert(r.shape()->Tuple_0 =~= infer_shape(fns, *expr)->Tuple_0);
                }
                k
            },
            ExprKind::Array(items) => {
                let mut elem_ty = TypeKind::Void;
                let mut i: usize = 0;
                proof {
                    assert(items@.subrange(0, 0) =~= Seq::<Expr>::empty());
                }
                while i < items.len()
                    invariant
                        expr.kind == ExprKind::Array(*items),
                        fns == self.fns(),
                        0 <= i <= items@.len(),
                        i > 0 ==> (Type { id: NodeId(0), kind: elem_ty, span }).shape() == infer_shape(fns, items@[0]),
                        i == 0 ==> elem_ty == TypeKind::Void,
                        ctx.shapes() == insert_all(c0, exprs_entries(fns, items@.subrange(0, i as int))),
                    decreases items@.len() - i,
                {
                    proof {
                        let next = items@.subrange(0, i + 1);
                        assert(next.subrange(0, next.len() - 1) =~= items@.subrange(0, i as int));
                        assert(next[next.len() - 1] == items@[i as int]);
                        assert(decreases_to!(expr.kind => expr.kind->Array_0));
                        assert(decreases_to!(*items => items[i as int]));
                        assert(decreases_to!(*expr => items[i as int]));
                    }
                    let t = self.infer_expr(&items[i], ctx);
                    proof {
                        lemma_insert_all_concat(c0, exprs_entries(fns, items@.subrange(0, i as int)), expr_entries(fns, items@[i as int]));
                    }
                    if i == 0 {
                        elem_ty = t.kind;
                    }
                    i = i + 1;
                }
                proof {
                    assert(items@.subrange(0, i as int) =~= items@);
                }
                TypeKind::Array { ty: Box::new(Type { id: NodeId::new(0), kind: elem_ty, span }), len: items.len() as u64 }
            },
            ExprKind::Block(block) => {
                self.infer_block(block, ctx);
                TypeKind::Void
            },
            _ => TypeKind::Void,
        };
        let ty = Type { id, kind, span };
        let ghost c3 = ctx.shapes();
        proof {
            assert(c3 == insert_all(c0, inner_entries(fns, *expr)));
        }
        ctx.insert(id, ty.duplicate());
        proof {
            assert(ctx.shapes() =~= c3.insert(id.0, ty.shape()));
            assert(expr_entries(fns, *expr).drop_last() =~= inner_entries(fns, *expr));
        }
        ty
    }
}

} // verus!
