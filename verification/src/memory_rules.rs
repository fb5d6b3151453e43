use vstd::prelude::*;

use crate::ast::{
    Block, Expr, ExprKind, FieldInit, FunctionItem, FunctionKind, FunctionParam, Item, ItemKind,
    LiteralExpr, MatchArm, Pattern, PatternKind, Stmt, StmtKind, UnaryOp,
};
use crate::copy_move::decls_model;
use crate::memory_error::MemoryErrorCode;
use crate::memory_model::{
    add_borrow_model, assign_model, borrow_model, borrow_ref, borrow_refusal, define_local_model,
    define_param_model, depth, diag, lookup, pop_scope_model, push_scope_model, use_model,
    CheckerModel, DiagModel, RefModel,
};
use crate::span::Span;
use crate::ty::{PrimitiveType, Type, TypeShape};

verus! {

/// What checking an expression yields, as the rules see it: its type, as
/// far as known, and the reference it holds, if any.
pub ghost struct ValueModel {
    pub ty: TypeShape,
    pub ref_value: Option<RefModel>,
}

/// A declared function: its name, parameter types and return type.
pub ghost struct SigModel {
    pub name: Seq<char>,
    pub params: Seq<TypeShape>,
    pub ret: Option<TypeShape>,
}

/// A value of unknown type that holds no reference.
pub open spec fn void_value() -> ValueModel {
    ValueModel { ty: TypeShape::Void, ref_value: None }
}

/// The primitive type of a literal.
pub open spec fn literal_shape(literal: LiteralExpr) -> TypeShape {
    TypeShape::Primitive(match literal {
        LiteralExpr::Integer(_) => PrimitiveType::I32,
        LiteralExpr::Float(_) => PrimitiveType::F64,
        LiteralExpr::String(_) => PrimitiveType::Str,
        LiteralExpr::CString(_) => PrimitiveType::CStr,
        LiteralExpr::Char(_) => PrimitiveType::Char,
        LiteralExpr::Bool(_) => PrimitiveType::Bool,
    })
}

/// The root local of a place expression: `x`, `x.f` and `x[i]` all have
/// root `x`.
pub open spec fn lvalue_root_name(e: Expr) -> Option<Seq<char>>
    decreases e,
{
    match e.kind {
        ExprKind::Path(p) => if p.segments@.len() > 0 {
            Some(p.segments@.last().name@)
        } else {
            None
        },
        ExprKind::Field { base, .. } => lvalue_root_name(*base),
        ExprKind::Index { base, .. } => lvalue_root_name(*base),
        _ => None,
    }
}

/// The last segment of a path expression.
pub open spec fn path_expr_name(e: Expr) -> Option<Seq<char>> {
    match e.kind {
        ExprKind::Path(p) => if p.segments@.len() > 0 {
            Some(p.segments@.last().name@)
        } else {
            None
        },
        _ => None,
    }
}

/// The signature of a function item.
pub open spec fn sig_of(f: FunctionItem) -> SigModel {
    SigModel {
        name: f.name@,
        params: f.params@.map_values(|p: FunctionParam| p.ty.shape()),
        ret: match f.return_ty {
            Some(t) => Some(t.shape()),
            None => None,
        },
    }
}

/// The signatures of the functions among `items`, in order.
pub open spec fn sigs_of(items: Seq<Item>) -> Seq<SigModel>
    decreases items.len(),
{
    if items.len() == 0 {
        seq![]
    } else {
        sigs_of(items.drop_last()) + match items.last().kind {
            ItemKind::Function(f) => seq![sig_of(f)],
            _ => seq![],
        }
    }
}

/// The last signature declared under `n`.
pub open spec fn last_sig(fs: Seq<SigModel>, n: Seq<char>) -> Option<SigModel>
    decreases fs.len(),
{
    if fs.len() == 0 {
        None
    } else if fs.last().name == n {
        Some(fs.last())
    } else {
        last_sig(fs.drop_last(), n)
    }
}

/// The signature a call of `callee` goes by: that of the last function
/// named like the callee's path.
pub open spec fn callee_sig(fs: Seq<SigModel>, callee: Expr) -> Option<SigModel> {
    match path_expr_name(callee) {
        Some(n) => last_sig(fs, n),
        None => None,
    }
}

/// Whether a parameter type is a reference, and of which mutability.
pub open spec fn ref_flag(t: TypeShape) -> Option<bool> {
    match t {
        TypeShape::Ref { mutable, .. } => Some(mutable),
        _ => None,
    }
}

/// How argument `i` is passed: borrowed (mutably or not) where the
/// parameter is a reference, else moved.
pub open spec fn arg_flag(sig: Option<SigModel>, i: int) -> Option<bool> {
    match sig {
        Some(s) => if 0 <= i < s.params.len() {
            ref_flag(s.params[i])
        } else {
            None
        },
        None => None,
    }
}

/// The value of a call: of the declared return type, holding no
/// reference.
pub open spec fn call_value(sig: Option<SigModel>) -> ValueModel {
    ValueModel {
        ty: match sig {
            Some(s) => match s.ret {
                Some(t) => t,
                None => TypeShape::Void,
            },
            None => TypeShape::Void,
        },
        ref_value: None,
    }
}

/// `m` with one more diagnostic.
pub open spec fn push_diag(m: CheckerModel, code: MemoryErrorCode, text: Seq<char>, span: Span) -> CheckerModel {
    CheckerModel { diags: m.diags.push(diag(code, text, span)), ..m }
}

/// The value of local `n`: its type, and its reference unless it was
/// moved.
pub open spec fn use_value(m: CheckerModel, n: Seq<char>) -> ValueModel {
    match lookup(m, n) {
        Some(l) => ValueModel {
            ty: l.ty,
            ref_value: if l.moved is Some {
                None
            } else {
                l.ref_value
            },
        },
        None => void_value(),
    }
}

/// The type of an optional annotation.
pub open spec fn opt_shape(t: Option<Type>) -> Option<TypeShape> {
    match t {
        Some(t) => Some(t.shape()),
        None => None,
    }
}

/// Binding pattern `p` with type `ty` (else the value's) to `value`.
pub open spec fn bind_eval(m: CheckerModel, p: Pattern, ty: Option<TypeShape>, value: Option<ValueModel>) -> CheckerModel
    decreases p, 1nat, 0nat,
{
    match p.kind {
        PatternKind::Binding { name, mutable } => define_local_model(
            m,
            name@,
            match ty {
                Some(t) => t,
                None => match value {
                    Some(v) => v.ty,
                    None => TypeShape::Void,
                },
            },
            mutable,
            p.span,
            match value {
                Some(v) => v.ref_value,
                None => None,
            },
        ),
        PatternKind::Tuple(items) => pats_eval(m, items, items@.len()),
        _ => m,
    }
}

/// Binding the first `n` of `ps` in turn, with no type or value.
pub open spec fn pats_eval(m: CheckerModel, ps: Vec<Pattern>, n: nat) -> CheckerModel
    decreases ps, 0nat, n,
{
    if n == 0 || n > ps@.len() {
        m
    } else {
        bind_eval(pats_eval(m, ps, (n - 1) as nat), ps@[n - 1], None, None)
    }
}

/// Checking expression `e` from `m`, its value used by moving it or not:
/// the state it leaves and the value it gives.
pub open spec fn expr_eval(fs: Seq<SigModel>, m: CheckerModel, e: Expr, moving: bool) -> (CheckerModel, ValueModel)
    decreases e, 3nat, 0nat,
{
    match e.kind {
        ExprKind::Literal(l) => (m, ValueModel { ty: literal_shape(l), ref_value: None }),
        ExprKind::Path(_) => match path_expr_name(e) {
            Some(n) => (use_model(m, n, e.span, moving), use_value(m, n)),
            None => (m, void_value()),
        },
        ExprKind::Unary { op, expr: inner } => match op {
            UnaryOp::Ref => borrow_eval(fs, m, *inner, false, e.span),
            UnaryOp::RefMut => borrow_eval(fs, m, *inner, true, e.span),
            _ => expr_eval(fs, m, *inner, false),
        },
        ExprKind::Binary { left, right, .. } => {
            let m1 = expr_eval(fs, m, *left, false).0;
            (expr_eval(fs, m1, *right, false).0, void_value())
        },
        ExprKind::Assign { target, value } => {
            let (m1, v) = expr_eval(fs, m, *value, true);
            (assign_eval(fs, m1, *target, e.span), v)
        },
        ExprKind::Call { callee, args } => call_eval(fs, m, *callee, args, e.span),
        ExprKind::Field { base, .. } => (expr_eval(fs, m, *base, false).0, void_value()),
        ExprKind::Index { base, index } => {
            let m1 = expr_eval(fs, m, *index, false).0;
            expr_eval(fs, m1, *base, moving)
        },
        ExprKind::Tuple(items) => {
            let (m1, vs) = items_eval(fs, m, items, items@.len());
            (m1, ValueModel { ty: TypeShape::Tuple(vs.map_values(|v: ValueModel| v.ty)), ref_value: None })
        },
        ExprKind::Array(items) => (
            items_eval(fs, m, items, items@.len()).0,
            ValueModel { ty: TypeShape::Slice(Box::new(TypeShape::Void)), ref_value: None },
        ),
        ExprKind::StructInit { fields, .. } => (fields_eval(fs, m, fields, fields@.len()), void_value()),
        ExprKind::If { condition, then_block, else_branch } => {
            let m1 = expr_eval(fs, m, *condition, false).0;
            let m2 = block_eval(fs, m1, then_block);
            (
                match else_branch {
                    Some(x) => expr_eval(fs, m2, *x, true).0,
                    None => m2,
                },
                void_value(),
            )
        },
        ExprKind::Match { value, arms } => {
            let m1 = expr_eval(fs, m, *value, false).0;
            (arms_eval(fs, m1, arms, arms@.len()), void_value())
        },
        ExprKind::Block(b) => (block_eval(fs, m, b), void_value()),
    }
}

/// Borrowing the place `inner` (mutably when `mutable`) at `span`: a place
/// with a root local is borrowed by the rules of `borrow_model`, and gives
/// a reference unless they refuse it; anything else is only read.
pub open spec fn borrow_eval(fs: Seq<SigModel>, m: CheckerModel, inner: Expr, mutable: bool, span: Span) -> (
    CheckerModel,
    ValueModel,
)
    decreases inner, 4nat, 0nat,
{
    match lvalue_root_name(inner) {
        Some(n) => (
            borrow_model(m, n, mutable, span),
            if borrow_refusal(m, n, mutable) is None {
                ValueModel {
                    ty: TypeShape::Ref { mutable, ty: Box::new(TypeShape::Void) },
                    ref_value: Some(borrow_ref(m, n, mutable)),
                }
            } else {
                void_value()
            },
        ),
        None => (expr_eval(fs, m, inner, false).0, void_value()),
    }
}

/// Assigning to the place `target` at `span`: its root local is assigned
/// by the rules of `assign_model`; anything else is only read.
pub open spec fn assign_eval(fs: Seq<SigModel>, m: CheckerModel, target: Expr, span: Span) -> CheckerModel
    decreases target, 4nat, 0nat,
{
    match lvalue_root_name(target) {
        Some(n) => assign_model(m, n, span),
        None => expr_eval(fs, m, target, false).0,
    }
}

/// Checking the first `n` of `items` in turn, each moved.
pub open spec fn items_eval(fs: Seq<SigModel>, m: CheckerModel, items: Vec<Expr>, n: nat) -> (CheckerModel, Seq<ValueModel>)
    decreases items, 0nat, n,
{
    if n == 0 || n > items@.len() {
        (m, seq![])
    } else {
        let (m1, vs) = items_eval(fs, m, items, (n - 1) as nat);
        let (m2, v) = expr_eval(fs, m1, items@[n - 1], true);
        (m2, vs.push(v))
    }
}

/// Checking the values of the first `n` of `fields` in turn, each moved;
/// a value that holds a reference is reported.
pub open spec fn fields_eval(fs: Seq<SigModel>, m: CheckerModel, fields: Vec<FieldInit>, n: nat) -> CheckerModel
    decreases fields, 0nat, n,
{
    if n == 0 || n > fields@.len() {
        m
    } else {
        let m1 = fields_eval(fs, m, fields, (n - 1) as nat);
        let (m2, v) = expr_eval(fs, m1, fields@[n - 1].value, true);
        if v.ref_value is Some {
            push_diag(
                m2,
                MemoryErrorCode::ReferenceEscapesFunction,
                "reference stored in persistent struct value"@,
                fields@[n - 1].span,
            )
        } else {
            m2
        }
    }
}

/// Checking the first `n` of `arms` in turn: each in a scope of its own,
/// its pattern bound, its guard read and its body moved.
pub open spec fn arms_eval(fs: Seq<SigModel>, m: CheckerModel, arms: Vec<MatchArm>, n: nat) -> CheckerModel
    decreases arms, 0nat, n,
{
    if n == 0 || n > arms@.len() {
        m
    } else {
        let m1 = arms_eval(fs, m, arms, (n - 1) as nat);
        let arm = arms@[n - 1];
        let b = bind_eval(push_scope_model(m1), arm.pattern, None, None);
        let g = match arm.guard {
            Some(gd) => expr_eval(fs, b, gd, false).0,
            None => b,
        };
        pop_scope_model(expr_eval(fs, g, arm.body, true).0)
    }
}

/// Checking the first `n` of `args` in turn: borrowed where the parameter
/// is a reference, else moved.
pub open spec fn args_eval(fs: Seq<SigModel>, m: CheckerModel, args: Vec<Expr>, sig: Option<SigModel>, n: nat) -> CheckerModel
    decreases args, 0nat, n,
{
    if n == 0 || n > args@.len() {
        m
    } else {
        let m1 = args_eval(fs, m, args, sig, (n - 1) as nat);
        match arg_flag(sig, n - 1) {
            Some(mutable) => borrow_eval(fs, m1, args@[n - 1], mutable, args@[n - 1].span).0,
            None => expr_eval(fs, m1, args@[n - 1], true).0,
        }
    }
}

/// Checking a call of `callee` with `args` at `span`: `clone(x)` only reads
/// `x` and gives its value; any other call passes its arguments and gives
/// a value of the declared return type.
pub open spec fn call_eval(fs: Seq<SigModel>, m: CheckerModel, callee: Expr, args: Vec<Expr>, span: Span) -> (
    CheckerModel,
    ValueModel,
)
    decreases args, 1nat, 0nat,
{
    if path_expr_name(callee) == Some("clone"@) && args@.len() > 0 {
        expr_eval(fs, m, args@[0], false)
    } else {
        (args_eval(fs, m, args, callee_sig(fs, callee), args@.len()), call_value(callee_sig(fs, callee)))
    }
}

/// Checking a block: its statements in turn, in a scope of its own.
pub open spec fn block_eval(fs: Seq<SigModel>, m: CheckerModel, b: Block) -> CheckerModel
    decreases b, 1nat, 0nat,
{
    pop_scope_model(stmts_eval(fs, push_scope_model(m), b.statements, b.statements@.len()))
}

/// Checking the first `n` of `ss` in turn.
pub open spec fn stmts_eval(fs: Seq<SigModel>, m: CheckerModel, ss: Vec<Stmt>, n: nat) -> CheckerModel
    decreases ss, 0nat, n,
{
    if n == 0 || n > ss@.len() {
        m
    } else {
        stmt_eval(fs, stmts_eval(fs, m, ss, (n - 1) as nat), ss@[n - 1])
    }
}

/// Checking one statement.
pub open spec fn stmt_eval(fs: Seq<SigModel>, m: CheckerModel, s: Stmt) -> CheckerModel
    decreases s, 3nat, 0nat,
{
    match s.kind {
        StmtKind::Let { pattern, ty, value } => match value {
            Some(e) => {
                let (m1, v) = expr_eval(fs, m, e, true);
                bind_eval(m1, pattern, opt_shape(ty), Some(v))
            },
            None => bind_eval(m, pattern, opt_shape(ty), None),
        },
        StmtKind::Expr(e) => expr_eval(fs, m, e, true).0,
        StmtKind::Semi(e) => expr_eval(fs, m, e, true).0,
        StmtKind::Return(value) => match value {
            Some(v) => {
                let (m1, val) = expr_eval(fs, m, v, true);
                let m2 = if val.ref_value is Some {
                    push_diag(
                        m1,
                        MemoryErrorCode::ReturnReferenceToLocal,
                        "cannot return a reference to local data"@,
                        v.span,
                    )
                } else {
                    m1
                };
                if val.ref_value matches Some(r) && r.from_param {
                    push_diag(
                        m2,
                        MemoryErrorCode::ReferenceEscapesFunction,
                        "reference parameter escapes through return value"@,
                        v.span,
                    )
                } else {
                    m2
                }
            },
            None => m,
        },
        StmtKind::Break => m,
        StmtKind::Continue => m,
        StmtKind::While { condition, body } => block_eval(fs, expr_eval(fs, m, condition, false).0, body),
        StmtKind::For { pattern, iter, body } => {
            let m1 = expr_eval(fs, m, iter, true).0;
            let b0 = bind_eval(push_scope_model(m1), pattern, None, None);
            pop_scope_model(stmts_eval(fs, b0, body.statements, body.statements@.len()))
        },
    }
}

/// Defining parameter `p` at the current depth: a reference parameter
/// holds a reference from a parameter, and one of an exported function is
/// held borrowed.
pub open spec fn param_step(m: CheckerModel, p: FunctionParam, export: bool) -> CheckerModel {
    let flag = ref_flag(p.ty.shape());
    let rv = match flag {
        Some(mutable) => Some(RefModel { origin: p.name@, origin_depth: depth(m), mutable, from_param: true }),
        None => None,
    };
    let m1 = define_param_model(m, p.name@, p.ty.shape(), rv);
    match flag {
        Some(mutable) => if export {
            add_borrow_model(m1, p.name@, mutable, p.span)
        } else {
            m1
        },
        None => m1,
    }
}

/// Defining `ps` in turn.
pub open spec fn params_eval(m: CheckerModel, ps: Seq<FunctionParam>, export: bool) -> CheckerModel
    decreases ps.len(),
{
    if ps.len() == 0 {
        m
    } else {
        param_step(params_eval(m, ps.drop_last(), export), ps.last(), export)
    }
}

/// Checking function `f` from a state with no locals or scopes: its
/// parameters are defined in the outermost scope, then its body checked.
pub open spec fn function_eval(fs: Seq<SigModel>, m: CheckerModel, f: FunctionItem) -> CheckerModel {
    let cleared = CheckerModel { locals: seq![], scopes: seq![], scope_borrows: seq![], ..m };
    let p = params_eval(push_scope_model(cleared), f.params@, f.kind == FunctionKind::Export);
    pop_scope_model(
        match f.body {
            Some(b) => block_eval(fs, p, b),
            None => p,
        },
    )
}

/// Checking the functions among `items` in turn.
pub open spec fn program_eval(fs: Seq<SigModel>, m: CheckerModel, items: Seq<Item>) -> CheckerModel
    decreases items.len(),
{
    if items.len() == 0 {
        m
    } else {
        let m1 = program_eval(fs, m, items.drop_last());
        match items.last().kind {
            ItemKind::Function(f) => function_eval(fs, m1, f),
            _ => m1,
        }
    }
}

/// The state the checker starts in for `items`.
pub open spec fn initial_model(items: Seq<Item>) -> CheckerModel {
    CheckerModel { locals: seq![], scopes: seq![], scope_borrows: seq![], diags: seq![], made: 0, kinds: decls_model(items) }
}

/// Every memory-safety violation in `items`, in the order the checker
/// meets them.
pub open spec fn memory_diags(items: Seq<Item>) -> Seq<DiagModel> {
    program_eval(sigs_of(items), initial_model(items), items).diags
}

/// Checking items of which none is a function changes nothing.
pub proof fn lemma_program_without_functions(fs: Seq<SigModel>, m: CheckerModel, items: Seq<Item>)
    requires
        forall|i: int| 0 <= i < items.len() ==> !(#[trigger] items[i].kind is Function),
    ensures
        program_eval(fs, m, items) == m,
    decreases items.len(),
{
    if items.len() > 0 {
        assert(!(items[items.len() - 1].kind is Function));
        lemma_program_without_functions(fs, m, items.drop_last());
    }
}

/// A program without functions has nothing to report.
pub proof fn law_no_functions_no_memory_errors(items: Seq<Item>)
    requires
        forall|i: int| 0 <= i < items.len() ==> !(#[trigger] items[i].kind is Function),
    ensures
        memory_diags(items).len() == 0,
{
    lemma_program_without_functions(sigs_of(items), initial_model(items), items);
}

} // verus!
