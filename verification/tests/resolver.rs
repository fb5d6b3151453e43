use siscript::ast::{
    Ast, Block, ConstItem, EnumItem, EnumVariant, Expr, ExprKind, FieldInit, FunctionItem,
    FunctionKind, FunctionParam, Item, ItemKind, LiteralExpr, Pattern, PatternKind, Stmt, StmtKind,
    StructField, StructItem,
};
use siscript::def::DefKind;
use siscript::diagnostic::Diagnostic;
use siscript::resolver::{resolve, ResolvedAst};
use siscript::span::{NodeId, Span};
use siscript::ty::{Path, PathSegment, PrimitiveType, Type, TypeKind};

/// Hands out fresh node ids.
struct Ids(u32);

impl Ids {
    fn next(&mut self) -> NodeId {
        self.0 += 1;
        NodeId(self.0)
    }
}

fn sp(n: u32) -> Span {
    Span::new(1, n, n + 1)
}

fn i32_ty() -> Type {
    Type { id: NodeId(0), kind: TypeKind::Primitive(PrimitiveType::I32), span: sp(0) }
}

fn path(ids: &mut Ids, names: &[&str]) -> Path {
    Path {
        id: ids.next(),
        segments: names.iter().enumerate().map(|(i, n)| PathSegment { name: n.to_string(), span: sp(100 + i as u32) }).collect(),
        span: sp(99),
    }
}

fn expr(ids: &mut Ids, kind: ExprKind) -> Expr {
    Expr { id: ids.next(), kind, span: sp(50) }
}

fn var(ids: &mut Ids, names: &[&str]) -> Expr {
    let p = path(ids, names);
    expr(ids, ExprKind::Path(p))
}

fn one(ids: &mut Ids) -> Expr {
    expr(ids, ExprKind::Literal(LiteralExpr::Integer("1".to_string())))
}

fn call(ids: &mut Ids, callee: Expr) -> Expr {
    expr(ids, ExprKind::Call { callee: Box::new(callee), args: vec![] })
}

fn struct_lit(ids: &mut Ids, name: &str, fields: &[&str]) -> Expr {
    let p = path(ids, &[name]);
    let inits = fields.iter().map(|f| FieldInit { name: f.to_string(), value: one(ids), span: sp(60) }).collect();
    expr(ids, ExprKind::StructInit { path: p, fields: inits })
}

fn tail(ids: &mut Ids, e: Expr) -> Stmt {
    Stmt { id: ids.next(), kind: StmtKind::Expr(e), span: sp(70) }
}

fn let_x(ids: &mut Ids, name: &str, value: Expr) -> Stmt {
    let pattern = Pattern { id: ids.next(), kind: PatternKind::Binding { name: name.to_string(), mutable: false }, span: sp(80) };
    Stmt { id: ids.next(), kind: StmtKind::Let { pattern, ty: Some(i32_ty()), value: Some(value) }, span: sp(81) }
}

fn block(statements: Vec<Stmt>) -> Block {
    Block { statements, span: sp(90) }
}

fn item(ids: &mut Ids, kind: ItemKind) -> Item {
    Item { id: ids.next(), kind, span: sp(10) }
}

fn func(ids: &mut Ids, kind: FunctionKind, name: &str, params: Vec<FunctionParam>, body: Option<Vec<Stmt>>) -> Item {
    let f = FunctionItem { kind, name: name.to_string(), params, return_ty: None, body: body.map(block) };
    item(ids, ItemKind::Function(f))
}

fn method(name: &str, params: Vec<FunctionParam>, body: Vec<Stmt>) -> FunctionItem {
    FunctionItem { kind: FunctionKind::Normal, name: name.to_string(), params, return_ty: None, body: Some(block(body)) }
}

fn field(name: &str) -> StructField {
    StructField { name: name.to_string(), ty: i32_ty(), default: None, span: sp(20) }
}

fn structure(ids: &mut Ids, name: &str, fields: Vec<StructField>, methods: Vec<FunctionItem>) -> Item {
    item(ids, ItemKind::Struct(StructItem { name: name.to_string(), fields, methods }))
}

fn enumeration(ids: &mut Ids, name: &str, variants: &[&str]) -> Item {
    let vs = variants.iter().map(|v| EnumVariant { name: v.to_string(), fields: vec![], discriminant: None, span: sp(30) }).collect();
    item(ids, ItemKind::Enum(EnumItem { name: name.to_string(), variants: vs }))
}

fn constant(ids: &mut Ids, name: &str) -> Item {
    let value = one(ids);
    item(ids, ItemKind::Const(ConstItem { name: name.to_string(), ty: i32_ty(), value }))
}

fn main_fn(ids: &mut Ids, body: Vec<Stmt>) -> Item {
    func(ids, FunctionKind::Normal, "main", vec![], Some(body))
}

fn resolve_tree(items: Vec<Item>) -> Result<ResolvedAst<'static>, Vec<Diagnostic>> {
    let ast: &'static Ast = Box::leak(Box::new(Ast { items }));
    resolve(ast)
}

fn messages(report: &[Diagnostic]) -> Vec<String> {
    report.iter().map(|d| d.message.clone()).collect()
}

fn reports(items: Vec<Item>, code: &str) -> bool {
    let report = resolve_tree(items).err().expect("resolution should fail");
    messages(&report).iter().any(|m| m.starts_with(code))
}

#[test]
fn resolve_local_variable() {
    // fn main() { let x: i32 = 1; x }
    let mut ids = Ids(0);
    let value = one(&mut ids);
    let bind = let_x(&mut ids, "x", value);
    let use_x = var(&mut ids, &["x"]);
    let use_stmt = tail(&mut ids, use_x);
    let main = main_fn(&mut ids, vec![bind, use_stmt]);
    let resolved = resolve_tree(vec![main]).unwrap();
    assert!(resolved.resolved_names.len() >= 3);
}

#[test]
fn resolve_shadowing() {
    // fn main() { let x: i32 = 1; if true { let x: i32 = 2; x } }
    let mut ids = Ids(0);
    let value = one(&mut ids);
    let outer = let_x(&mut ids, "x", value);
    let value2 = one(&mut ids);
    let inner = let_x(&mut ids, "x", value2);
    let use_x = var(&mut ids, &["x"]);
    let use_stmt = tail(&mut ids, use_x);
    let cond = expr(&mut ids, ExprKind::Literal(LiteralExpr::Bool(true)));
    let branch = expr(&mut ids, ExprKind::If { condition: Box::new(cond), then_block: block(vec![inner, use_stmt]), else_branch: None });
    let if_stmt = tail(&mut ids, branch);
    let main = main_fn(&mut ids, vec![outer, if_stmt]);
    let resolved = resolve_tree(vec![main]).unwrap();
    let locals = resolved.symbols.defs.iter().filter(|d| d.kind == DefKind::Local).count();
    assert_eq!(locals, 2);
}

#[test]
fn resolve_const() {
    // const A: i32 = 1; fn main() { A }
    let mut ids = Ids(0);
    let a = constant(&mut ids, "A");
    let use_a = var(&mut ids, &["A"]);
    let stmt = tail(&mut ids, use_a);
    let main = main_fn(&mut ids, vec![stmt]);
    let resolved = resolve_tree(vec![a, main]).unwrap();
    assert!(resolved.symbols.defs.iter().any(|d| d.kind == DefKind::Const));
}

#[test]
fn resolve_fn_call() {
    // fn f() {} fn main() { f() }
    let mut ids = Ids(0);
    let f = func(&mut ids, FunctionKind::Normal, "f", vec![], Some(vec![]));
    let callee = var(&mut ids, &["f"]);
    let c = call(&mut ids, callee);
    let stmt = tail(&mut ids, c);
    let main = main_fn(&mut ids, vec![stmt]);
    let resolved = resolve_tree(vec![f, main]).unwrap();
    assert_eq!(resolved.resolved_calls.len(), 1);
}

fn single_call_kind(kind: FunctionKind, body: Option<Vec<Stmt>>) -> DefKind {
    let mut ids = Ids(0);
    let f = func(&mut ids, kind, "f", vec![], body);
    let callee = var(&mut ids, &["f"]);
    let c = call(&mut ids, callee);
    let stmt = tail(&mut ids, c);
    let main = main_fn(&mut ids, vec![stmt]);
    let resolved = resolve_tree(vec![f, main]).unwrap();
    let target = *resolved.resolved_calls.values().next().unwrap();
    resolved.symbols.def(target).unwrap().kind
}

#[test]
fn resolve_export_fn_call() {
    // export fn f() {} fn main() { f() }
    assert_eq!(single_call_kind(FunctionKind::Export, Some(vec![])), DefKind::ExportFunction);
}

#[test]
fn resolve_extern_fn_call() {
    // extern fn host(); fn main() { host() }
    assert_eq!(single_call_kind(FunctionKind::Extern, None), DefKind::ExternFunction);
}

#[test]
fn resolve_struct_name() {
    // struct Point { x: i32 } fn main() { Point { x: 1 } }
    let mut ids = Ids(0);
    let point = structure(&mut ids, "Point", vec![field("x")], vec![]);
    let lit = struct_lit(&mut ids, "Point", &["x"]);
    let stmt = tail(&mut ids, lit);
    let main = main_fn(&mut ids, vec![stmt]);
    let resolved = resolve_tree(vec![point, main]).unwrap();
    assert!(resolved.symbols.defs.iter().any(|d| d.kind == DefKind::Struct));
}

#[test]
fn resolve_struct_fields() {
    // struct Point { x: i32, y: i32 } fn main() { Point { x: 1, y: 2 } }
    let mut ids = Ids(0);
    let point = structure(&mut ids, "Point", vec![field("x"), field("y")], vec![]);
    let lit = struct_lit(&mut ids, "Point", &["x", "y"]);
    let stmt = tail(&mut ids, lit);
    let main = main_fn(&mut ids, vec![stmt]);
    let resolved = resolve_tree(vec![point, main]).unwrap();
    assert_eq!(resolved.resolved_fields.len(), 2);
}

#[test]
fn resolve_enum_variant() {
    // enum Color { Red, Blue } fn main() { Color::Red }
    let mut ids = Ids(0);
    let color = enumeration(&mut ids, "Color", &["Red", "Blue"]);
    let red = var(&mut ids, &["Color", "Red"]);
    let stmt = tail(&mut ids, red);
    let main = main_fn(&mut ids, vec![stmt]);
    let resolved = resolve_tree(vec![color, main]).unwrap();
    assert_eq!(resolved.resolved_variants.len(), 1);
}

#[test]
fn resolve_struct_associated_method() {
    // struct Point { x: i32, fn make() -> Point { Point { x: 1 } } } fn main() { Point::make() }
    let mut ids = Ids(0);
    let lit = struct_lit(&mut ids, "Point", &["x"]);
    let body = vec![tail(&mut ids, lit)];
    let point = structure(&mut ids, "Point", vec![field("x")], vec![method("make", vec![], body)]);
    let callee = var(&mut ids, &["Point", "make"]);
    let c = call(&mut ids, callee);
    let stmt = tail(&mut ids, c);
    let main = main_fn(&mut ids, vec![stmt]);
    let resolved = resolve_tree(vec![point, main]).unwrap();
    let target = *resolved.resolved_calls.values().next().unwrap();
    assert_eq!(resolved.symbols.def(target).unwrap().kind, DefKind::Method);
}

#[test]
fn resolve_self_inside_method() {
    // struct Point { x: i32, fn get(&self) -> i32 { self.x } }
    let mut ids = Ids(0);
    let base = var(&mut ids, &["self"]);
    let access = expr(&mut ids, ExprKind::Field { base: Box::new(base), field: "x".to_string() });
    let body = vec![tail(&mut ids, access)];
    let this = FunctionParam { name: "self".to_string(), ty: i32_ty(), span: sp(40) };
    let point = structure(&mut ids, "Point", vec![field("x")], vec![method("get", vec![this], body)]);
    let resolved = resolve_tree(vec![point]).unwrap();
    assert!(resolved.symbols.defs.iter().any(|d| d.kind == DefKind::Local));
    assert_eq!(resolved.resolved_fields.len(), 1);
}

#[test]
fn unknown_variable() {
    // fn main() { missing }
    let mut ids = Ids(0);
    let missing = var(&mut ids, &["missing"]);
    let stmt = tail(&mut ids, missing);
    let main = main_fn(&mut ids, vec![stmt]);
    assert!(reports(vec![main], "E0101"));
}

#[test]
fn unknown_function() {
    // fn main() { missing() }
    let mut ids = Ids(0);
    let callee = var(&mut ids, &["missing"]);
    let c = call(&mut ids, callee);
    let stmt = tail(&mut ids, c);
    let main = main_fn(&mut ids, vec![stmt]);
    assert!(reports(vec![main], "E0102"));
}

#[test]
fn duplicate_global() {
    // const A: i32 = 1; const A: i32 = 2;
    let mut ids = Ids(0);
    let a = constant(&mut ids, "A");
    let b = constant(&mut ids, "A");
    assert!(reports(vec![a, b], "E0103"));
}

#[test]
fn duplicate_function_name() {
    // fn f() {} extern fn f();
    let mut ids = Ids(0);
    let f = func(&mut ids, FunctionKind::Normal, "f", vec![], Some(vec![]));
    let g = func(&mut ids, FunctionKind::Extern, "f", vec![], None);
    assert!(reports(vec![f, g], "E0103"));
}

#[test]
fn duplicate_struct_field() {
    // struct Point { x: i32, x: i32 }
    let mut ids = Ids(0);
    let point = structure(&mut ids, "Point", vec![field("x"), field("x")], vec![]);
    assert!(reports(vec![point], "E0107"));
}

#[test]
fn duplicate_struct_method() {
    // struct Point { fn make() -> Point { Point {} } fn make() -> Point { Point {} } }
    let mut ids = Ids(0);
    let lit1 = struct_lit(&mut ids, "Point", &[]);
    let body1 = vec![tail(&mut ids, lit1)];
    let lit2 = struct_lit(&mut ids, "Point", &[]);
    let body2 = vec![tail(&mut ids, lit2)];
    let point = structure(&mut ids, "Point", vec![], vec![method("make", vec![], body1), method("make", vec![], body2)]);
    assert!(reports(vec![point], "E0103"));
}

#[test]
fn duplicate_enum_variant() {
    // enum Color { Red, Red }
    let mut ids = Ids(0);
    let color = enumeration(&mut ids, "Color", &["Red", "Red"]);
    assert!(reports(vec![color], "E0108"));
}

#[test]
fn call_non_callable() {
    // const A: i32 = 1; fn main() { A() }
    let mut ids = Ids(0);
    let a = constant(&mut ids, "A");
    let callee = var(&mut ids, &["A"]);
    let c = call(&mut ids, callee);
    let stmt = tail(&mut ids, c);
    let main = main_fn(&mut ids, vec![stmt]);
    assert!(reports(vec![a, main], "E0106"));
}

#[test]
fn unknown_field() {
    // struct Point { x: i32 } fn main() { Point { y: 1 } }
    let mut ids = Ids(0);
    let point = structure(&mut ids, "Point", vec![field("x")], vec![]);
    let lit = struct_lit(&mut ids, "Point", &["y"]);
    let stmt = tail(&mut ids, lit);
    let main = main_fn(&mut ids, vec![stmt]);
    assert!(reports(vec![point, main], "E0104"));
}

#[test]
fn unknown_variant() {
    // enum Color { Red } fn main() { Color::Blue }
    let mut ids = Ids(0);
    let color = enumeration(&mut ids, "Color", &["Red"]);
    let blue = var(&mut ids, &["Color", "Blue"]);
    let stmt = tail(&mut ids, blue);
    let main = main_fn(&mut ids, vec![stmt]);
    assert!(reports(vec![color, main], "E0105"));
}

#[test]
fn function_type_name_collision() {
    // struct Draw {} fn Draw() {}
    let mut ids = Ids(0);
    let draw = structure(&mut ids, "Draw", vec![], vec![]);
    let f = func(&mut ids, FunctionKind::Normal, "Draw", vec![], Some(vec![]));
    assert!(reports(vec![draw, f], "E0109"));
}

#[test]
fn local_shadows_global_and_paths_of_three_segments_are_refused() {
    // const x: i32 = 1; fn main() { let x: i32 = 1; x; a::b::c }
    let mut ids = Ids(0);
    let global = constant(&mut ids, "x");
    let value = one(&mut ids);
    let bind = let_x(&mut ids, "x", value);
    let use_x = var(&mut ids, &["x"]);
    let use_id = use_x.id;
    let use_stmt = tail(&mut ids, use_x);
    let long = var(&mut ids, &["a", "b", "c"]);
    let long_stmt = tail(&mut ids, long);
    let main = main_fn(&mut ids, vec![bind, use_stmt, long_stmt]);
    let report = resolve_tree(vec![global, main]).err().unwrap();
    assert_eq!(messages(&report), vec!["E0100: paths with more than two segments are not supported yet".to_string()]);
    // Without the long path, `x` resolves to the local, not the constant.
    let mut ids = Ids(100);
    let global = constant(&mut ids, "x");
    let value = one(&mut ids);
    let bind = let_x(&mut ids, "x", value);
    let use_x = var(&mut ids, &["x"]);
    let path_id = match &use_x.kind {
        ExprKind::Path(_) => use_x.id,
        _ => unreachable!(),
    };
    let use_stmt = tail(&mut ids, use_x);
    let main = main_fn(&mut ids, vec![bind, use_stmt]);
    let resolved = resolve_tree(vec![global, main]).unwrap();
    let target = resolved.resolved_names[&path_id.0];
    assert_eq!(resolved.symbols.def(target).unwrap().kind, DefKind::Local);
    let _ = use_id;
}
