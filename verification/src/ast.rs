use vstd::prelude::*;

use crate::precedence::BinaryOp;
use crate::span::{NodeId, Span};
use crate::ty::{Path, Type};

verus! {

/// A literal as written in source; numbers and text keep their spelling.
#[derive(Debug)]
pub enum LiteralExpr {
    Integer(String),
    Float(String),
    String(String),
    CString(String),
    Char(String),
    Bool(bool),
}

/// Prefix operators.
#[derive(Clone, Copy, Debug, PartialEq, Eq, Structural)]
pub enum UnaryOp {
    Neg,
    Not,
    Ref,
    RefMut,
}

/// An expression node.
#[derive(Debug)]
pub struct Expr {
    pub id: NodeId,
    pub kind: ExprKind,
    pub span: Span,
}

/// The forms an expression takes.
#[derive(Debug)]
pub enum ExprKind {
    Literal(LiteralExpr),
    Path(Path),
    Unary { op: UnaryOp, expr: Box<Expr> },
    Binary { op: BinaryOp, left: Box<Expr>, right: Box<Expr> },
    Assign { target: Box<Expr>, value: Box<Expr> },
    Call { callee: Box<Expr>, args: Vec<Expr> },
    Field { base: Box<Expr>, field: String },
    Index { base: Box<Expr>, index: Box<Expr> },
    Tuple(Vec<Expr>),
    Array(Vec<Expr>),
    StructInit { path: Path, fields: Vec<FieldInit> },
    If { condition: Box<Expr>, then_block: Block, else_branch: Option<Box<Expr>> },
    Match { value: Box<Expr>, arms: Vec<MatchArm> },
    Block(Block),
}

/// `name: value` inside a struct literal.
#[derive(Debug)]
pub struct FieldInit {
    pub name: String,
    pub value: Expr,
    pub span: Span,
}

/// One arm of a `match`.
#[derive(Debug)]
pub struct MatchArm {
    pub pattern: Pattern,
    pub guard: Option<Expr>,
    pub body: Expr,
    pub span: Span,
}

/// A braced sequence of statements.
#[derive(Debug)]
pub struct Block {
    pub statements: Vec<Stmt>,
    pub span: Span,
}

/// A statement node.
#[derive(Debug)]
pub struct Stmt {
    pub id: NodeId,
    pub kind: StmtKind,
    pub span: Span,
}

/// The forms a statement takes.
#[derive(Debug)]
pub enum StmtKind {
    Let { pattern: Pattern, ty: Option<Type>, value: Option<Expr> },
    Expr(Expr),
    Semi(Expr),
    Return(Option<Expr>),
    Break,
    Continue,
    While { condition: Expr, body: Block },
    For { pattern: Pattern, iter: Expr, body: Block },
}

/// A pattern node.
#[derive(Debug)]
pub struct Pattern {
    pub id: NodeId,
    pub kind: PatternKind,
    pub span: Span,
}

/// The forms a pattern takes.
#[derive(Debug)]
pub enum PatternKind {
    Binding { name: String, mutable: bool },
    Tuple(Vec<Pattern>),
    Wildcard,
    Path(Path),
}

/// How a function is linked: an ordinary function, one exported to the
/// host, or one the host provides.
#[derive(Clone, Copy, Debug, PartialEq, Eq, Structural)]
pub enum FunctionKind {
    Normal,
    Export,
    Extern,
}

/// A function parameter.
#[derive(Debug)]
pub struct FunctionParam {
    pub name: String,
    pub ty: Type,
    pub span: Span,
}

/// A function or method.
#[derive(Debug)]
pub struct FunctionItem {
    pub kind: FunctionKind,
    pub name: String,
    pub params: Vec<FunctionParam>,
    pub return_ty: Option<Type>,
    pub body: Option<Block>,
}

/// A struct field, with its optional default value.
#[derive(Debug)]
pub struct StructField {
    pub name: String,
    pub ty: Type,
    pub default: Option<Expr>,
    pub span: Span,
}

/// A struct declaration with its methods.
#[derive(Debug)]
pub struct StructItem {
    pub name: String,
    pub fields: Vec<StructField>,
    pub methods: Vec<FunctionItem>,
}

/// One enum variant.
#[derive(Debug)]
pub struct EnumVariant {
    pub name: String,
    pub fields: Vec<Type>,
    pub discriminant: Option<Expr>,
    pub span: Span,
}

/// An enum declaration.
#[derive(Debug)]
pub struct EnumItem {
    pub name: String,
    pub variants: Vec<EnumVariant>,
}

/// `const NAME: ty = value;`
#[derive(Debug)]
pub struct ConstItem {
    pub name: String,
    pub ty: Type,
    pub value: Expr,
}

/// `type NAME = ty;`
#[derive(Debug)]
pub struct TypeAliasItem {
    pub name: String,
    pub ty: Type,
}

/// The forms a top-level item takes.
#[derive(Debug)]
pub enum ItemKind {
    Function(FunctionItem),
    Struct(StructItem),
    Enum(EnumItem),
    Const(ConstItem),
    TypeAlias(TypeAliasItem),
}

/// A top-level item.
#[derive(Debug)]
pub struct Item {
    pub id: NodeId,
    pub kind: ItemKind,
    pub span: Span,
}

/// A parsed source file.
#[derive(Debug)]
pub struct Ast {
    pub items: Vec<Item>,
}

/// Number of expression and statement nodes in `e`.
pub open spec fn expr_weight(e: Expr) -> nat
    decreases e, 0nat,
{
    1 + match e.kind {
        ExprKind::Literal(_) => 0nat,
        ExprKind::Path(_) => 0nat,
        ExprKind::Unary { expr, .. } => expr_weight(*expr),
        ExprKind::Binary { left, right, .. } => expr_weight(*left) + expr_weight(*right),
        ExprKind::Assign { target, value } => expr_weight(*target) + expr_weight(*value),
        ExprKind::Call { callee, args } => expr_weight(*callee) + exprs_weight(args@),
        ExprKind::Field { base, .. } => expr_weight(*base),
        ExprKind::Index { base, index } => expr_weight(*base) + expr_weight(*index),
        ExprKind::Tuple(items) => exprs_weight(items@),
        ExprKind::Array(items) => exprs_weight(items@),
        ExprKind::StructInit { fields, .. } => field_inits_weight(fields@),
        ExprKind::If { condition, then_block, else_branch } => {
            let e: nat = match else_branch {
                Some(b) => expr_weight(*b),
                None => 0nat,
            };
            expr_weight(*condition) + block_weight(then_block) + e
        },
        ExprKind::Match { value, arms } => expr_weight(*value) + arms_weight(arms@),
        ExprKind::Block(b) => block_weight(b),
    }
}

/// Total weight of a sequence of expressions.
pub open spec fn exprs_weight(es: Seq<Expr>) -> nat
    decreases es, 1nat,
{
    if es.len() == 0 {
        0
    } else {
        expr_weight(es[0]) + exprs_weight(es.subrange(1, es.len() as int))
    }
}

/// Total weight of the values of struct-literal fields.
pub open spec fn field_inits_weight(fs: Seq<FieldInit>) -> nat
    decreases fs, 1nat,
{
    if fs.len() == 0 {
        0
    } else {
        expr_weight(fs[0].value) + field_inits_weight(fs.subrange(1, fs.len() as int))
    }
}

/// Total weight of match arms: guards and bodies.
pub open spec fn arms_weight(arms: Seq<MatchArm>) -> nat
    decreases arms, 1nat,
{
    if arms.len() == 0 {
        0
    } else {
        let g: nat = match arms[0].guard {
            Some(g) => expr_weight(g),
            None => 0nat,
        };
        g + expr_weight(arms[0].body) + arms_weight(arms.subrange(1, arms.len() as int))
    }
}

/// Weight of a block: its statements.
pub open spec fn block_weight(b: Block) -> nat
    decreases b, 0nat,
{
    stmts_weight(b.statements@)
}

/// Total weight of a sequence of statements.
pub open spec fn stmts_weight(ss: Seq<Stmt>) -> nat
    decreases ss, 1nat,
{
    if ss.len() == 0 {
        0
    } else {
        stmt_weight(ss[0]) + stmts_weight(ss.subrange(1, ss.len() as int))
    }
}

/// Weight of a statement: one plus its expressions and blocks.
pub open spec fn stmt_weight(s: Stmt) -> nat
    decreases s, 0nat,
{
    1 + match s.kind {
        StmtKind::Let { value, .. } => match value {
            Some(v) => expr_weight(v),
            None => 0nat,
        },
        StmtKind::Expr(e) => expr_weight(e),
        StmtKind::Semi(e) => expr_weight(e),
        StmtKind::Return(value) => match value {
            Some(v) => expr_weight(v),
            None => 0nat,
        },
        StmtKind::Break => 0nat,
        StmtKind::Continue => 0nat,
        StmtKind::While { condition, body } => expr_weight(condition) + block_weight(body),
        StmtKind::For { iter, body, .. } => expr_weight(iter) + block_weight(body),
    }
}

} // verus!
