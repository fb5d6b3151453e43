use siscript::ast::{
    Ast, Block, ConstItem, Expr, ExprKind, FieldInit, FunctionItem, FunctionKind, FunctionParam,
    Item, ItemKind, LiteralExpr, Pattern, PatternKind, Stmt, StmtKind, StructField, StructItem,
    UnaryOp,
};
use siscript::diagnostic::Diagnostic;
use siscript::infer::TypeInferrer;
use siscript::memory_check::check_memory;
use siscript::span::{NodeId, Span};
use siscript::ty::{Path, PathSegment, PrimitiveType, Type, TypeKind};
use siscript::type_context::TypeContext;

fn sp() -> Span {
    Span { file: 1, start: 0, end: 0 }
}

fn at(start: u32) -> Span {
    Span { file: 1, start, end: start + 1 }
}

fn path(name: &str) -> Path {
    Path {
        id: NodeId(0),
        segments: vec![PathSegment { name: name.to_string(), span: sp() }],
        span: sp(),
    }
}

fn ty(kind: TypeKind) -> Type {
    Type { id: NodeId(0), kind, span: sp() }
}

fn prim(p: PrimitiveType) -> Type {
    ty(TypeKind::Primitive(p))
}

fn named(name: &str) -> Type {
    ty(TypeKind::Path(path(name)))
}

fn reference(mutable: bool, inner: Type) -> Type {
    ty(TypeKind::Ref { mutable, ty: Box::new(inner) })
}

fn slice(inner: Type) -> Type {
    ty(TypeKind::Slice(Box::new(inner)))
}

fn expr(kind: ExprKind) -> Expr {
    Expr { id: NodeId(0), kind, span: sp() }
}

fn var(name: &str) -> Expr {
    expr(ExprKind::Path(path(name)))
}

fn int_lit(v: &str) -> Expr {
    expr(ExprKind::Literal(LiteralExpr::Integer(v.to_string())))
}

fn string(v: &str) -> Expr {
    expr(ExprKind::Literal(LiteralExpr::String(v.to_string())))
}

fn borrow(mutable: bool, inner: Expr) -> Expr {
    let op = if mutable { UnaryOp::RefMut } else { UnaryOp::Ref };
    expr(ExprKind::Unary { op, expr: Box::new(inner) })
}

fn call(name: &str, args: Vec<Expr>) -> Expr {
    expr(ExprKind::Call { callee: Box::new(var(name)), args })
}

fn assign(target: Expr, value: Expr) -> Expr {
    expr(ExprKind::Assign { target: Box::new(target), value: Box::new(value) })
}

fn index(base: Expr, i: Expr) -> Expr {
    expr(ExprKind::Index { base: Box::new(base), index: Box::new(i) })
}

fn struct_init(name: &str, fields: Vec<(&str, Expr)>) -> Expr {
    expr(ExprKind::StructInit {
        path: path(name),
        fields: fields
            .into_iter()
            .map(|(n, value)| FieldInit { name: n.to_string(), value, span: sp() })
            .collect(),
    })
}

fn block_expr(stmts: Vec<Stmt>) -> Expr {
    expr(ExprKind::Block(block(stmts)))
}

fn block(statements: Vec<Stmt>) -> Block {
    Block { statements, span: sp() }
}

fn stmt(kind: StmtKind) -> Stmt {
    Stmt { id: NodeId(0), kind, span: sp() }
}

fn let_(name: &str, mutable: bool, t: Option<Type>, value: Option<Expr>) -> Stmt {
    stmt(StmtKind::Let {
        pattern: Pattern {
            id: NodeId(0),
            kind: PatternKind::Binding { name: name.to_string(), mutable },
            span: sp(),
        },
        ty: t,
        value,
    })
}

fn tail(e: Expr) -> Stmt {
    stmt(StmtKind::Expr(e))
}

fn semi(e: Expr) -> Stmt {
    stmt(StmtKind::Semi(e))
}

fn ret(e: Expr) -> Stmt {
    stmt(StmtKind::Return(Some(e)))
}

fn param(name: &str, t: Type) -> FunctionParam {
    FunctionParam { name: name.to_string(), ty: t, span: sp() }
}

fn item(kind: ItemKind) -> Item {
    Item { id: NodeId(0), kind, span: sp() }
}

fn function(
    kind: FunctionKind,
    name: &str,
    params: Vec<FunctionParam>,
    return_ty: Option<Type>,
    body: Option<Vec<Stmt>>,
) -> Item {
    item(ItemKind::Function(FunctionItem {
        kind,
        name: name.to_string(),
        params,
        return_ty,
        body: body.map(block),
    }))
}

fn main_fn(return_ty: Option<Type>, body: Vec<Stmt>) -> Item {
    function(FunctionKind::Normal, "main", vec![], return_ty, Some(body))
}

fn extern_fn(name: &str, params: Vec<FunctionParam>, return_ty: Option<Type>) -> Item {
    function(FunctionKind::Extern, name, params, return_ty, None)
}

fn struct_decl(name: &str, fields: Vec<(&str, Type)>) -> Item {
    item(ItemKind::Struct(StructItem {
        name: name.to_string(),
        fields: fields
            .into_iter()
            .map(|(n, t)| StructField { name: n.to_string(), ty: t, default: None, span: sp() })
            .collect(),
        methods: vec![],
    }))
}

fn messages(diags: &[Diagnostic]) -> Vec<String> {
    diags.iter().map(|d| d.message.clone()).collect()
}

fn run(items: Vec<Item>) -> Result<(), Vec<Diagnostic>> {
    let ast = Ast { items };
    check_memory(&TypeContext::new(), &ast).map(|_| ())
}

fn assert_code(items: Vec<Item>, code: &str) {
    let report = run(items).unwrap_err();
    assert!(messages(&report).iter().any(|m| m.starts_with(code)), "{:?}", messages(&report));
}

fn i32_ty() -> Type {
    prim(PrimitiveType::I32)
}

fn str_ty() -> Type {
    prim(PrimitiveType::Str)
}

#[test]
fn copy_primitive_reuse() {
    run(vec![main_fn(
        None,
        vec![
            let_("x", false, Some(i32_ty()), Some(int_lit("1"))),
            let_("y", false, Some(i32_ty()), Some(var("x"))),
            tail(var("x")),
        ],
    )])
    .unwrap();
}

#[test]
fn move_str_once() {
    run(vec![main_fn(
        None,
        vec![let_("s", false, None, Some(string("abc"))), let_("t", false, None, Some(var("s")))],
    )])
    .unwrap();
}

#[test]
fn clone_str_reuse() {
    run(vec![
        extern_fn("clone", vec![param("x", str_ty())], Some(str_ty())),
        main_fn(
            None,
            vec![
                let_("s", false, None, Some(string("abc"))),
                let_("t", false, None, Some(call("clone", vec![var("s")]))),
                tail(var("s")),
            ],
        ),
    ])
    .unwrap();
}

#[test]
fn borrow_many_immutable() {
    run(vec![main_fn(
        None,
        vec![
            let_("x", false, Some(i32_ty()), Some(int_lit("1"))),
            let_("a", false, None, Some(borrow(false, var("x")))),
            let_("b", false, None, Some(borrow(false, var("x")))),
        ],
    )])
    .unwrap();
}

#[test]
fn borrow_mut_unique() {
    run(vec![main_fn(
        None,
        vec![
            let_("x", true, Some(i32_ty()), Some(int_lit("1"))),
            let_("a", false, None, Some(borrow(true, var("x")))),
        ],
    )])
    .unwrap();
}

#[test]
fn mutate_let_mut() {
    run(vec![main_fn(
        None,
        vec![
            let_("x", true, Some(i32_ty()), Some(int_lit("1"))),
            semi(assign(var("x"), int_lit("2"))),
        ],
    )])
    .unwrap();
}

#[test]
fn shadowing_resets_state() {
    run(vec![main_fn(
        None,
        vec![
            let_("s", false, None, Some(string("a"))),
            let_("t", false, None, Some(var("s"))),
            tail(block_expr(vec![let_("s", false, None, Some(string("b"))), tail(var("s"))])),
        ],
    )])
    .unwrap();
}

#[test]
fn pass_ref_to_extern() {
    run(vec![
        extern_fn("host", vec![param("x", reference(false, str_ty()))], None),
        main_fn(
            None,
            vec![
                let_("s", false, None, Some(string("a"))),
                semi(call("host", vec![borrow(false, var("s"))])),
            ],
        ),
    ])
    .unwrap();
}

#[test]
fn pass_mut_ref_to_extern() {
    run(vec![
        extern_fn("host", vec![param("x", reference(true, i32_ty()))], None),
        main_fn(
            None,
            vec![
                let_("x", true, Some(i32_ty()), Some(int_lit("1"))),
                semi(call("host", vec![borrow(true, var("x"))])),
            ],
        ),
    ])
    .unwrap();
}

#[test]
fn return_owned_move() {
    run(vec![main_fn(
        Some(str_ty()),
        vec![let_("s", false, None, Some(string("a"))), ret(var("s"))],
    )])
    .unwrap();
}

#[test]
fn use_after_move_str() {
    assert_code(
        vec![main_fn(
            None,
            vec![
                let_("s", false, None, Some(string("abc"))),
                let_("t", false, None, Some(var("s"))),
                tail(var("s")),
            ],
        )],
        "E0300",
    );
}

#[test]
fn use_after_move_array() {
    assert_code(
        vec![
            extern_fn("make", vec![], Some(slice(i32_ty()))),
            main_fn(
                None,
                vec![
                    let_("a", false, None, Some(call("make", vec![]))),
                    let_("b", false, None, Some(var("a"))),
                    tail(var("a")),
                ],
            ),
        ],
        "E0300",
    );
}

#[test]
fn use_after_move_struct_with_str() {
    assert_code(
        vec![
            struct_decl("Box", vec![("value", str_ty())]),
            main_fn(
                None,
                vec![
                    let_(
                        "b",
                        false,
                        Some(named("Box")),
                        Some(struct_init("Box", vec![("value", string("a"))])),
                    ),
                    let_("c", false, None, Some(var("b"))),
                    tail(var("b")),
                ],
            ),
        ],
        "E0300",
    );
}

#[test]
fn mutate_without_mut() {
    assert_code(
        vec![main_fn(
            None,
            vec![
                let_("x", false, Some(i32_ty()), Some(int_lit("1"))),
                semi(assign(var("x"), int_lit("2"))),
            ],
        )],
        "E0410",
    );
}

#[test]
fn mutable_ref_to_immutable() {
    assert_code(
        vec![main_fn(
            None,
            vec![
                let_("x", false, Some(i32_ty()), Some(int_lit("1"))),
                let_("r", false, None, Some(borrow(true, var("x")))),
            ],
        )],
        "E0411",
    );
}

#[test]
fn mut_borrow_while_immut_borrowed() {
    assert_code(
        vec![main_fn(
            None,
            vec![
                let_("x", true, Some(i32_ty()), Some(int_lit("1"))),
                let_("a", false, None, Some(borrow(false, var("x")))),
                let_("b", false, None, Some(borrow(true, var("x")))),
            ],
        )],
        "E0401",
    );
}

#[test]
fn imm_borrow_while_mut_borrowed() {
    assert_code(
        vec![main_fn(
            None,
            vec![
                let_("x", true, Some(i32_ty()), Some(int_lit("1"))),
                let_("a", false, None, Some(borrow(true, var("x")))),
                let_("b", false, None, Some(borrow(false, var("x")))),
            ],
        )],
        "E0402",
    );
}

#[test]
fn two_mut_borrows() {
    assert_code(
        vec![main_fn(
            None,
            vec![
                let_("x", true, Some(i32_ty()), Some(int_lit("1"))),
                let_("a", false, None, Some(borrow(true, var("x")))),
                let_("b", false, None, Some(borrow(true, var("x")))),
            ],
        )],
        "E0401",
    );
}

#[test]
fn move_while_borrowed() {
    assert_code(
        vec![main_fn(
            None,
            vec![
                let_("s", false, None, Some(string("abc"))),
                let_("r", false, None, Some(borrow(false, var("s")))),
                let_("t", false, None, Some(var("s"))),
            ],
        )],
        "E0301",
    );
}

#[test]
fn mutate_while_borrowed() {
    assert_code(
        vec![main_fn(
            None,
            vec![
                let_("x", true, Some(i32_ty()), Some(int_lit("1"))),
                let_("r", false, None, Some(borrow(false, var("x")))),
                semi(assign(var("x"), int_lit("2"))),
            ],
        )],
        "E0403",
    );
}

#[test]
fn return_ref_to_local() {
    assert_code(
        vec![main_fn(
            Some(reference(false, str_ty())),
            vec![let_("s", false, None, Some(string("abc"))), ret(borrow(false, var("s")))],
        )],
        "E0302",
    );
}

#[test]
fn reference_escapes_export_param() {
    assert_code(
        vec![function(
            FunctionKind::Export,
            "f",
            vec![param("x", reference(false, str_ty()))],
            Some(reference(false, str_ty())),
            Some(vec![ret(var("x"))]),
        )],
        "E0303",
    );
}

#[test]
fn store_host_ref_in_struct() {
    assert_code(
        vec![
            struct_decl("Box", vec![("value", reference(false, str_ty()))]),
            function(
                FunctionKind::Export,
                "f",
                vec![param("x", reference(false, str_ty()))],
                None,
                Some(vec![let_(
                    "b",
                    false,
                    Some(named("Box")),
                    Some(struct_init("Box", vec![("value", var("x"))])),
                )]),
            ),
        ],
        "E0303",
    );
}

#[test]
fn mutate_array_while_element_borrowed() {
    assert_code(
        vec![
            extern_fn("make", vec![], Some(slice(i32_ty()))),
            main_fn(
                None,
                vec![
                    let_("a", true, None, Some(call("make", vec![]))),
                    let_("e", false, None, Some(borrow(false, index(var("a"), int_lit("0"))))),
                    semi(assign(var("a"), call("make", vec![]))),
                ],
            ),
        ],
        "E0403",
    );
}

#[test]
fn borrow_released_when_block_ends() {
    let report = run(vec![main_fn(
        None,
        vec![
            let_("x", true, Some(i32_ty()), Some(int_lit("1"))),
            tail(block_expr(vec![let_("a", false, None, Some(borrow(true, var("x"))))])),
            let_("b", false, None, Some(borrow(true, var("x")))),
        ],
    )])
    .unwrap_err();
    // A reference into a local of an enclosing scope is reported as escaping
    // its origin's scope; the later mutable borrow is granted, since the
    // inner one ended with its block.
    assert_eq!(messages(&report), vec!["E0303: reference `a` escapes its origin scope".to_string()]);
}

#[test]
fn use_after_move_points_at_the_move() {
    let report = run(vec![main_fn(
        None,
        vec![
            let_("s", false, None, Some(string("abc"))),
            Stmt {
                id: NodeId(0),
                kind: StmtKind::Let {
                    pattern: Pattern {
                        id: NodeId(0),
                        kind: PatternKind::Binding { name: "t".to_string(), mutable: false },
                        span: sp(),
                    },
                    ty: None,
                    value: Some(Expr { id: NodeId(0), kind: ExprKind::Path(path("s")), span: at(40) }),
                },
                span: sp(),
            },
            tail(Expr { id: NodeId(0), kind: ExprKind::Path(path("s")), span: at(50) }),
        ],
    )])
    .unwrap_err();
    assert_eq!(report.len(), 1);
    assert_eq!(report[0].message, "E0300: use of `s` after move");
    assert_eq!(report[0].span, at(40));
}

#[test]
fn assignment_revives_moved_local() {
    run(vec![main_fn(
        None,
        vec![
            let_("s", true, None, Some(string("a"))),
            let_("t", false, None, Some(var("s"))),
            semi(assign(var("s"), string("b"))),
            tail(var("s")),
        ],
    )])
    .unwrap();
}

#[test]
fn error_messages_name_the_local() {
    let report = run(vec![main_fn(
        None,
        vec![
            let_("count", false, Some(i32_ty()), Some(int_lit("1"))),
            semi(assign(var("count"), int_lit("2"))),
            let_("r", false, None, Some(borrow(true, var("count")))),
        ],
    )])
    .unwrap_err();
    assert_eq!(
        messages(&report),
        vec![
            "E0410: cannot mutate immutable `count`".to_string(),
            "E0411: cannot take mutable reference to immutable `count`".to_string(),
        ]
    );
}

#[test]
fn const_items_are_not_checked() {
    run(vec![item(ItemKind::Const(ConstItem {
        name: "LIMIT".to_string(),
        ty: i32_ty(),
        value: int_lit("3"),
    }))])
    .unwrap();
}

fn with_id(id: u32, mut e: Expr) -> Expr {
    e.id = NodeId(id);
    e
}

fn let_id(pattern_id: u32, name: &str, value: Expr) -> Stmt {
    stmt(StmtKind::Let {
        pattern: Pattern {
            id: NodeId(pattern_id),
            kind: PatternKind::Binding { name: name.to_string(), mutable: false },
            span: sp(),
        },
        ty: None,
        value: Some(value),
    })
}

fn kind_of(ctx: &TypeContext, id: u32) -> Option<&TypeKind> {
    ctx.get(NodeId(id)).map(|t| &t.kind)
}

#[test]
fn infer_records_literal_and_binding_types() {
    let ast = Ast { items: vec![main_fn(None, vec![let_id(5, "x", with_id(6, int_lit("1")))])] };
    let mut ctx = TypeContext::new();
    let report = TypeInferrer::new().infer_ast(&ast, &mut ctx);
    assert!(report.is_empty());
    assert!(matches!(kind_of(&ctx, 6), Some(TypeKind::Primitive(PrimitiveType::I32))));
    assert!(matches!(kind_of(&ctx, 5), Some(TypeKind::Primitive(PrimitiveType::I32))));
}

#[test]
fn infer_call_takes_declared_return_type() {
    let ast = Ast {
        items: vec![
            extern_fn("name", vec![], Some(str_ty())),
            main_fn(None, vec![let_id(7, "s", with_id(8, call("name", vec![])))]),
        ],
    };
    let mut ctx = TypeContext::new();
    TypeInferrer::new().infer_ast(&ast, &mut ctx);
    assert!(matches!(kind_of(&ctx, 7), Some(TypeKind::Primitive(PrimitiveType::Str))));
    assert!(matches!(kind_of(&ctx, 8), Some(TypeKind::Primitive(PrimitiveType::Str))));
}

#[test]
fn infer_unknown_call_is_void_and_binary_takes_left_type() {
    let sum = with_id(
        11,
        expr(ExprKind::Binary {
            op: siscript::precedence::BinaryOp::Add,
            left: Box::new(with_id(12, string("a"))),
            right: Box::new(with_id(13, int_lit("2"))),
        }),
    );
    let ast = Ast {
        items: vec![main_fn(
            None,
            vec![let_id(9, "u", with_id(10, call("missing", vec![]))), let_id(14, "v", sum)],
        )],
    };
    let mut ctx = TypeContext::new();
    TypeInferrer::new().infer_ast(&ast, &mut ctx);
    assert!(matches!(kind_of(&ctx, 9), Some(TypeKind::Void)));
    assert!(matches!(kind_of(&ctx, 11), Some(TypeKind::Primitive(PrimitiveType::Str))));
    assert!(matches!(kind_of(&ctx, 13), Some(TypeKind::Primitive(PrimitiveType::I32))));
    assert!(matches!(kind_of(&ctx, 14), Some(TypeKind::Primitive(PrimitiveType::Str))));
    assert!(kind_of(&ctx, 1).is_none());
}

#[test]
fn struct_containing_itself_is_accepted_when_unused() {
    let items = vec![
        struct_decl("A", vec![("a", named("A"))]),
        main_fn(None, vec![]),
    ];
    assert!(run(items).is_ok());
}

#[test]
fn struct_containing_itself_is_moved() {
    let items = vec![
        extern_fn("make", vec![], Some(named("A"))),
        struct_decl("A", vec![("a", named("A"))]),
        main_fn(None, vec![
            let_("a", false, None, Some(call("make", vec![]))),
            let_("b", false, None, Some(var("a"))),
            tail(var("a")),
        ]),
    ];
    let diags = run(items).unwrap_err();
    assert!(messages(&diags).iter().any(|m| m.starts_with("E0300")));
}

#[test]
fn program_without_functions_is_accepted() {
    let items = vec![struct_decl("P", vec![("x", prim(PrimitiveType::I32))])];
    assert!(run(items).is_ok());
}

#[test]
fn every_memory_message_starts_with_its_code() {
    let items = vec![main_fn(None, vec![
        let_("s", false, None, Some(string("abc"))),
        let_("t", false, None, Some(var("s"))),
        tail(var("s")),
    ])];
    let diags = run(items).unwrap_err();
    assert!(!diags.is_empty());
    for m in messages(&diags) {
        assert!(m.starts_with('E') && m[5..].starts_with(": "));
    }
}
