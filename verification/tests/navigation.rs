use siscript::analysis::analyze_ast;
use siscript::analysis_model::AnalysisResult;
use siscript::ast::{
    Ast, Block, ConstItem, EnumItem, EnumVariant, Expr, ExprKind, FieldInit, FunctionItem,
    FunctionKind, FunctionParam, Item, ItemKind, LiteralExpr, Pattern, PatternKind, Stmt, StmtKind,
    StructField, StructItem, TypeAliasItem, UnaryOp,
};
use siscript::document::{Document, Position};
use siscript::navigation::{document_highlight, goto_declaration, goto_definition, hover, references, HighlightKind};
use siscript::outline::document_symbols;
use siscript::parse_error::{ParseError, ParseErrorKind};
use siscript::precedence::BinaryOp;
use siscript::signature_help::signature_help;
use siscript::rename::{code_actions, rename};
use siscript::config::LspConfig;
use siscript::token::{Keyword, Token, TokenKind};
use siscript::span::{NodeId, Span};
use siscript::ty::{Path, PathSegment, PrimitiveType, Type, TypeKind};

/// Builds the tree a parser gives for `text`, with spans found in the text.
struct Tree {
    text: &'static str,
    next: u32,
}

impl Tree {
    fn new(text: &'static str) -> Self {
        Tree { text, next: 0 }
    }

    fn id(&mut self) -> NodeId {
        self.next += 1;
        NodeId(self.next)
    }

    /// The span of the `n`th occurrence of `needle`.
    fn at(&self, needle: &str, n: usize) -> Span {
        let mut from = 0;
        let mut seen = 0;
        loop {
            let i = from + self.text[from..].find(needle).unwrap_or_else(|| panic!("{needle} #{n} not in text"));
            if seen == n {
                return Span::new(1, i as u32, (i + needle.len()) as u32);
            }
            seen += 1;
            from = i + 1;
        }
    }

    /// The span of `needle` inside the `n`th occurrence of `context`.
    fn within(&self, context: &str, n: usize, needle: &str) -> Span {
        let outer = self.at(context, n);
        let i = outer.start as usize + context.find(needle).unwrap();
        Span::new(1, i as u32, (i + needle.len()) as u32)
    }

    /// From the start of an occurrence to the last closing brace.
    fn to_last_brace(&self, a: &str, an: usize) -> Span {
        Span::new(1, self.at(a, an).start, (self.text.rfind('}').unwrap() + 1) as u32)
    }

    /// From the start of one occurrence to the end of another.
    fn range(&self, a: &str, an: usize, b: &str, bn: usize) -> Span {
        Span::new(1, self.at(a, an).start, self.at(b, bn).end)
    }

    fn prim(&mut self, p: PrimitiveType, at: Span) -> Type {
        Type { id: self.id(), kind: TypeKind::Primitive(p), span: at }
    }

    fn named(&mut self, name: &str, at: Span) -> Type {
        let path = self.path(&[(name, at)]);
        Type { id: self.id(), kind: TypeKind::Path(path), span: at }
    }

    fn path(&mut self, segments: &[(&str, Span)]) -> Path {
        let span = Span::new(1, segments[0].1.start, segments[segments.len() - 1].1.end);
        Path {
            id: self.id(),
            segments: segments.iter().map(|(n, s)| PathSegment { name: n.to_string(), span: *s }).collect(),
            span,
        }
    }

    fn expr(&mut self, kind: ExprKind, at: Span) -> Expr {
        Expr { id: self.id(), kind, span: at }
    }

    fn var(&mut self, name: &str, at: Span) -> Expr {
        let p = self.path(&[(name, at)]);
        self.expr(ExprKind::Path(p), at)
    }

    fn num(&mut self, v: &str, at: Span) -> Expr {
        self.expr(ExprKind::Literal(LiteralExpr::Integer(v.to_string())), at)
    }

    fn float(&mut self, v: &str, at: Span) -> Expr {
        self.expr(ExprKind::Literal(LiteralExpr::Float(v.to_string())), at)
    }

    fn call(&mut self, callee: Expr, args: Vec<Expr>, at: Span) -> Expr {
        self.expr(ExprKind::Call { callee: Box::new(callee), args }, at)
    }

    fn binary(&mut self, op: BinaryOp, left: Expr, right: Expr) -> Expr {
        let at = Span::new(1, left.span.start, right.span.end);
        self.expr(ExprKind::Binary { op, left: Box::new(left), right: Box::new(right) }, at)
    }

    fn field(&mut self, base: Expr, field: &str, at: Span) -> Expr {
        self.expr(ExprKind::Field { base: Box::new(base), field: field.to_string() }, at)
    }

    fn semi(&mut self, e: Expr, at: Span) -> Stmt {
        Stmt { id: self.id(), kind: StmtKind::Semi(e), span: at }
    }

    fn ret(&mut self, e: Expr, at: Span) -> Stmt {
        Stmt { id: self.id(), kind: StmtKind::Return(Some(e)), span: at }
    }

    fn bind(&mut self, name: &str, mutable: bool, ty: Option<Type>, value: Option<Expr>, at: Span) -> Stmt {
        let pattern = Pattern { id: self.id(), kind: PatternKind::Binding { name: name.to_string(), mutable }, span: self.within_span(at, name) };
        Stmt { id: self.id(), kind: StmtKind::Let { pattern, ty, value }, span: at }
    }

    /// The first occurrence of `name` as a whole word inside `at`.
    fn within_span(&self, at: Span, name: &str) -> Span {
        let slice = &self.text[at.start as usize..at.end as usize];
        let bytes = slice.as_bytes();
        let mut from = 0;
        loop {
            let i = from + slice[from..].find(name).unwrap();
            let before = i == 0 || !(bytes[i - 1].is_ascii_alphanumeric() || bytes[i - 1] == b'_');
            let j = i + name.len();
            let after = j == bytes.len() || !(bytes[j].is_ascii_alphanumeric() || bytes[j] == b'_');
            if before && after {
                let start = at.start + i as u32;
                return Span::new(1, start, start + name.len() as u32);
            }
            from = i + 1;
        }
    }

    fn param(&mut self, name: &str, ty: Type, at: Span) -> FunctionParam {
        FunctionParam { name: name.to_string(), ty, span: at }
    }

    fn block(&mut self, statements: Vec<Stmt>, at: Span) -> Block {
        Block { statements, span: at }
    }

    fn func(&mut self, kind: FunctionKind, name: &str, params: Vec<FunctionParam>, return_ty: Option<Type>, body: Option<Block>, at: Span) -> Item {
        Item { id: self.id(), kind: ItemKind::Function(FunctionItem { kind, name: name.to_string(), params, return_ty, body }), span: at }
    }

    fn item(&mut self, kind: ItemKind, at: Span) -> Item {
        Item { id: self.id(), kind, span: at }
    }

    fn analysis(&self, uri: &str, items: Vec<Item>, parse_errors: Vec<ParseError>) -> (Document, AnalysisResult) {
        let url = lsp_types::Url::parse(uri).unwrap();
        let document = Document::new(url.clone(), Some(1), self.text.to_string());
        let analysis = analyze_ast(url, Some(1), self.text.len(), Ast { items }, parse_errors);
        (document, analysis)
    }
}

/// `fn main() { let x: i32 = 1; x; }`, with the given binding and type.
fn one_local(text: &'static str, mutable: bool) -> (Tree, Vec<Item>) {
    let mut t = Tree::new(text);
    let name = if mutable { "pos" } else { "x" };
    let ty = t.prim(PrimitiveType::I32, t.at("i32", 0));
    let one = t.num("1", t.within("= 1", 0, "1"));
    let bind = t.bind(name, mutable, Some(ty), Some(one), t.range("let", 0, ";", 0));
    let use_it = t.var(name, t.within(&format!("{name};"), 0, name));
    let use_stmt = t.semi(use_it, t.at(&format!("{name};"), 0));
    let body = t.block(vec![bind, use_stmt], t.range("{", 0, "}", 0));
    let main = t.func(FunctionKind::Normal, "main", vec![], None, Some(body), t.range("fn", 0, "}", 0));
    (t, vec![main])
}

#[test]
fn hover_variable() {
    let (t, items) = one_local("fn main() { let x: i32 = 1; x; }", false);
    let (document, analysis) = t.analysis("file:///hover.si", items, vec![]);
    let hover = hover(&document, Position::new(0, 28), &analysis).unwrap();
    assert!(hover.contains("x"));
    assert!(hover.contains("let x: i32"));
}

#[test]
fn hover_returns_none_without_info() {
    // fn main( {
    let t = Tree::new("fn main( {");
    let error = ParseError::new(ParseErrorKind::ExpectedIdentifier, t.at("{", 0));
    let (document, analysis) = t.analysis("file:///hover_invalid.si", vec![], vec![error]);
    assert!(hover(&document, Position::new(0, 10), &analysis).is_none());
}

fn add_two(t: &mut Tree) -> Item {
    // fn add(a: i32, b: i32) -> i32 { return a + b; }
    let a_ty = t.prim(PrimitiveType::I32, t.within("a: i32", 0, "i32"));
    let a = t.param("a", a_ty, t.at("a: i32", 0));
    let b_ty = t.prim(PrimitiveType::I32, t.within("b: i32", 0, "i32"));
    let b = t.param("b", b_ty, t.at("b: i32", 0));
    let ret_ty = t.prim(PrimitiveType::I32, t.within("-> i32", 0, "i32"));
    let left = t.var("a", t.within("a + b", 0, "a"));
    let right = t.var("b", t.within("a + b", 0, "b"));
    let sum = t.binary(BinaryOp::Add, left, right);
    let ret = t.ret(sum, t.at("return a + b;", 0));
    let body = t.block(vec![ret], t.range("{ return", 0, "b; }", 0));
    t.func(FunctionKind::Normal, "add", vec![a, b], Some(ret_ty), Some(body), t.range("fn add", 0, "b; }", 0))
}

#[test]
fn test_hover_all_cases() {
    // 1. A mutable local.
    let (t, items) = one_local("fn main() { let mut pos: i32 = 1; pos; }", true);
    let (document, analysis) = t.analysis("file:///hover_cases.si", items, vec![]);
    let text = hover(&document, Position::new(0, 34), &analysis).unwrap();
    assert!(text.contains("let mut pos: i32"));

    // 2. A parameter.
    let mut t = Tree::new("fn add(a: i32) { a; }");
    let ty = t.prim(PrimitiveType::I32, t.at("i32", 0));
    let a = t.param("a", ty, t.at("a: i32", 0));
    let use_a = t.var("a", t.within("a;", 0, "a"));
    let stmt = t.semi(use_a, t.at("a;", 0));
    let body = t.block(vec![stmt], t.range("{", 0, "}", 0));
    let add = t.func(FunctionKind::Normal, "add", vec![a], None, Some(body), t.range("fn", 0, "}", 0));
    let (document, analysis) = t.analysis("file:///hover_cases.si", vec![add], vec![]);
    let text = hover(&document, Position::new(0, 17), &analysis).unwrap();
    assert!(text.contains("a: i32"));

    // 3. A function.
    let mut t = Tree::new("fn add(a: i32, b: i32) -> i32 { return a + b; } fn main() { add(1, 2); }");
    let add = add_two(&mut t);
    let callee = t.var("add", t.within("add(1", 0, "add"));
    let one = t.num("1", t.within("(1,", 0, "1"));
    let two = t.num("2", t.within(" 2)", 0, "2"));
    let call = t.call(callee, vec![one, two], t.at("add(1, 2)", 0));
    let stmt = t.semi(call, t.at("add(1, 2);", 0));
    let body = t.block(vec![stmt], t.range("{ add", 0, "}", 1));
    let main = t.func(FunctionKind::Normal, "main", vec![], None, Some(body), t.range("fn main", 0, "}", 1));
    let (document, analysis) = t.analysis("file:///hover_cases.si", vec![add, main], vec![]);
    let text = hover(&document, Position::new(0, 60), &analysis).unwrap();
    assert!(text.contains("fn add(a: i32, b: i32) -> i32"));

    // 4. An exported function.
    let mut t = Tree::new("export fn update(dt: f32) {} fn main() { update(1.0); }");
    let ty = t.prim(PrimitiveType::F32, t.at("f32", 0));
    let dt = t.param("dt", ty, t.at("dt: f32", 0));
    let empty = t.block(vec![], t.at("{}", 0));
    let update = t.func(FunctionKind::Export, "update", vec![dt], None, Some(empty), t.range("export", 0, "}", 0));
    let callee = t.var("update", t.within("update(1.0)", 0, "update"));
    let arg = t.float("1.0", t.at("1.0", 0));
    let call = t.call(callee, vec![arg], t.at("update(1.0)", 0));
    let stmt = t.semi(call, t.at("update(1.0);", 0));
    let body = t.block(vec![stmt], t.range("{ update", 0, "}", 1));
    let main = t.func(FunctionKind::Normal, "main", vec![], None, Some(body), t.range("fn main", 0, "}", 1));
    let (document, analysis) = t.analysis("file:///hover_cases.si", vec![update, main], vec![]);
    let text = hover(&document, Position::new(0, 41), &analysis).unwrap();
    assert!(text.contains("export fn update(dt: f32)"));

    // 5. An external function.
    let mut t = Tree::new("extern fn draw(x: i32); fn main() { draw(1); }");
    let ty = t.prim(PrimitiveType::I32, t.at("i32", 0));
    let x = t.param("x", ty, t.at("x: i32", 0));
    let draw = t.func(FunctionKind::Extern, "draw", vec![x], None, None, t.range("extern", 0, ";", 0));
    let callee = t.var("draw", t.within("draw(1)", 0, "draw"));
    let one = t.num("1", t.within("(1)", 0, "1"));
    let call = t.call(callee, vec![one], t.at("draw(1)", 0));
    let stmt = t.semi(call, t.at("draw(1);", 0));
    let body = t.block(vec![stmt], t.range("{", 0, "}", 0));
    let main = t.func(FunctionKind::Normal, "main", vec![], None, Some(body), t.range("fn main", 0, "}", 0));
    let (document, analysis) = t.analysis("file:///hover_cases.si", vec![draw, main], vec![]);
    let text = hover(&document, Position::new(0, 36), &analysis).unwrap();
    assert!(text.contains("extern fn draw(x: i32)"));

    // 6. A struct, with its fields and layout.
    let mut t = Tree::new("struct Position { x: f32, y: f32 } fn main() { let p = Position { x: 1.0, y: 2.0 }; }");
    let position = position_struct(&mut t, &["x", "y"]);
    let path = t.path(&[("Position", t.at("Position", 1))]);
    let x = t.float("1.0", t.at("1.0", 0));
    let y = t.float("2.0", t.at("2.0", 0));
    let init = t.expr(
        ExprKind::StructInit {
            path,
            fields: vec![
                FieldInit { name: "x".to_string(), value: x, span: t.at("x: 1.0", 0) },
                FieldInit { name: "y".to_string(), value: y, span: t.at("y: 2.0", 0) },
            ],
        },
        t.range("Position {", 1, "2.0 }", 0),
    );
    let bind = t.bind("p", false, None, Some(init), t.range("let", 0, "};", 0));
    let body = t.block(vec![bind], t.range("{ let", 0, "}", 2));
    let main = t.func(FunctionKind::Normal, "main", vec![], None, Some(body), t.range("fn main", 0, "}", 2));
    let (document, analysis) = t.analysis("file:///hover_cases.si", vec![position, main], vec![]);
    let text = hover(&document, Position::new(0, 7), &analysis).unwrap();
    assert!(text.contains("struct Position"));
    assert!(text.contains("fields:"));
    assert!(text.contains("* x:f32"));
    assert!(text.contains("* y:f32"));
    assert!(text.contains("layout:stable"));

    // 7. An enum, with its discriminants.
    let mut t = Tree::new("enum EntityType { Player = 0, Enemy = 1 } fn main() { let e = EntityType::Player; }");
    let zero = t.num("0", t.at("0", 0));
    let one = t.num("1", t.within("= 1", 0, "1"));
    let entity = t.item(
        ItemKind::Enum(EnumItem {
            name: "EntityType".to_string(),
            variants: vec![
                EnumVariant { name: "Player".to_string(), fields: vec![], discriminant: Some(zero), span: t.at("Player = 0", 0) },
                EnumVariant { name: "Enemy".to_string(), fields: vec![], discriminant: Some(one), span: t.at("Enemy = 1", 0) },
            ],
        }),
        t.range("enum", 0, "}", 0),
    );
    let main = main_binding_variant(&mut t, "e", 1);
    let (document, analysis) = t.analysis("file:///hover_cases.si", vec![entity, main], vec![]);
    let text = hover(&document, Position::new(0, 5), &analysis).unwrap();
    assert!(text.contains("enum EntityType:i32"));
    assert!(text.contains("variants:"));
    assert!(text.contains("* Player=0"));
    assert!(text.contains("* Enemy=1"));

    // 8. A field access.
    let mut t = Tree::new("struct Position { x: f32 } fn main() { let p = Position { x: 1.0 }; p.x; }");
    let position = position_struct(&mut t, &["x"]);
    let path = t.path(&[("Position", t.at("Position", 1))]);
    let x = t.float("1.0", t.at("1.0", 0));
    let init = t.expr(
        ExprKind::StructInit { path, fields: vec![FieldInit { name: "x".to_string(), value: x, span: t.at("x: 1.0", 0) }] },
        t.range("Position {", 1, "1.0 }", 0),
    );
    let bind = t.bind("p", false, None, Some(init), t.range("let", 0, "};", 0));
    let base = t.var("p", t.within("p.x", 0, "p"));
    let access = t.field(base, "x", t.at("p.x", 0));
    let stmt = t.semi(access, t.at("p.x;", 0));
    let body = t.block(vec![bind, stmt], t.range("{ let", 0, "}", 2));
    let main = t.func(FunctionKind::Normal, "main", vec![], None, Some(body), t.range("fn main", 0, "}", 2));
    let (document, analysis) = t.analysis("file:///hover_cases.si", vec![position, main], vec![]);
    let text = hover(&document, Position::new(0, 70), &analysis).unwrap();
    assert!(text.contains("field x:f32"));

    // 9. A variant.
    let mut t = Tree::new("enum EntityType { Player } fn main() { let e = EntityType::Player; }");
    let entity = t.item(
        ItemKind::Enum(EnumItem {
            name: "EntityType".to_string(),
            variants: vec![EnumVariant { name: "Player".to_string(), fields: vec![], discriminant: None, span: t.at("Player", 0) }],
        }),
        t.range("enum", 0, "}", 0),
    );
    let main = main_binding_variant(&mut t, "e", 1);
    let (document, analysis) = t.analysis("file:///hover_cases.si", vec![entity, main], vec![]);
    let text = hover(&document, Position::new(0, 60), &analysis).unwrap();
    assert!(text.contains("EntityType::Player"));

    // 10. A type alias.
    let mut t = Tree::new("type Kilometers = i32; fn main() { let d: Kilometers = 10; }");
    let aliased = t.prim(PrimitiveType::I32, t.at("i32", 0));
    let alias = t.item(ItemKind::TypeAlias(TypeAliasItem { name: "Kilometers".to_string(), ty: aliased }), t.range("type", 0, ";", 0));
    let ty = t.named("Kilometers", t.at("Kilometers", 1));
    let ten = t.num("10", t.at("10", 0));
    let bind = t.bind("d", false, Some(ty), Some(ten), t.range("let", 0, ";", 1));
    let body = t.block(vec![bind], t.range("{", 0, "}", 0));
    let main = t.func(FunctionKind::Normal, "main", vec![], None, Some(body), t.range("fn", 0, "}", 0));
    let (document, analysis) = t.analysis("file:///hover_cases.si", vec![alias, main], vec![]);
    let text = hover(&document, Position::new(0, 5), &analysis).unwrap();
    assert!(text.contains("type Kilometers = i32"));

    // 11. Past the end of a broken source: nothing, and no panic.
    let mut t = Tree::new("fn main() { let x = ; }   ");
    let error = ParseError::new(ParseErrorKind::ExpectedExpression, t.at(";", 0));
    let bind = t.bind("x", false, None, None, t.range("let", 0, ";", 0));
    let body = t.block(vec![bind], t.range("{", 0, "}", 0));
    let main = t.func(FunctionKind::Normal, "main", vec![], None, Some(body), t.range("fn", 0, "}", 0));
    let (document, analysis) = t.analysis("file:///hover_cases.si", vec![main], vec![error]);
    assert!(hover(&document, Position::new(0, 25), &analysis).is_none());
}

/// `struct Position { x: f32, ... }` with the named `f32` fields.
fn position_struct(t: &mut Tree, fields: &[&str]) -> Item {
    let fields = fields
        .iter()
        .map(|f| {
            let at = t.at(&format!("{f}: f32"), 0);
            let ty = t.prim(PrimitiveType::F32, t.within(&format!("{f}: f32"), 0, "f32"));
            StructField { name: f.to_string(), ty, default: None, span: at }
        })
        .collect();
    let end = t.at("}", 0);
    let start = t.at("struct", 0);
    t.item(ItemKind::Struct(StructItem { name: "Position".to_string(), fields, methods: vec![] }), Span::new(1, start.start, end.end))
}

/// `fn main() { let <name> = EntityType::Player; }`, the path being the
/// `occurrence`th `EntityType`.
fn main_binding_variant(t: &mut Tree, name: &str, occurrence: usize) -> Item {
    let path = t.path(&[("EntityType", t.at("EntityType", occurrence)), ("Player", t.at("Player", 1))]);
    let at = path.span;
    let value = t.expr(ExprKind::Path(path), at);
    let bind = t.bind(name, false, None, Some(value), t.range("let", 0, ";", 0));
    let body = t.block(vec![bind], t.range("{ let", 0, "}", 1));
    t.func(FunctionKind::Normal, "main", vec![], None, Some(body), t.range("fn main", 0, "}", 1))
}

#[test]
fn goto_local_and_function() {
    let mut t = Tree::new("fn add() { return 1; }\nfn main() { let x = add(); x; }");
    let one = t.num("1", t.at("1", 0));
    let ret = t.ret(one, t.at("return 1;", 0));
    let body = t.block(vec![ret], t.range("{", 0, "}", 0));
    let add = t.func(FunctionKind::Normal, "add", vec![], None, Some(body), t.range("fn add", 0, "}", 0));
    let callee = t.var("add", t.within("add()", 1, "add"));
    let call = t.call(callee, vec![], t.at("add()", 1));
    let bind = t.bind("x", false, None, Some(call), t.range("let", 0, ";", 1));
    let use_x = t.var("x", t.within("x;", 0, "x"));
    let stmt = t.semi(use_x, t.at("x;", 0));
    let body = t.block(vec![bind, stmt], t.range("{ let", 0, "}", 1));
    let main = t.func(FunctionKind::Normal, "main", vec![], None, Some(body), t.range("fn main", 0, "}", 1));
    let (document, analysis) = t.analysis("file:///goto.si", vec![add, main], vec![]);

    let local = goto_definition(&document, Position::new(1, 27), &analysis).unwrap();
    let function = goto_definition(&document, Position::new(1, 21), &analysis).unwrap();
    // The local leads to its binding, the call to the function.
    assert_eq!((local.range.start.line, local.range.start.character), (1, 16));
    assert_eq!((function.range.start.line, function.range.start.character), (0, 0));
}

const GOTO_CASES: &str = "\ntype Kilometers = i32;\nstruct Position { x: f32, y: f32 }\nenum EntityType { Player = 0, Enemy = 1 }\nconst MY_CONST: i32 = 42;\n\nextern fn draw(p: &Position);\nexport fn update(dt: f32) {}\nfn add(a: i32, b: i32) -> i32 { return a + b; }\n\nfn main() {\n    let mut pos = Position { x: 1.0, y: 2.0 };\n    let e = EntityType::Player;\n    let dist: Kilometers = 10;\n    \n    draw(&pos);\n    update(0.1);\n    add(1, 2);\n    let my_x = pos.x;\n}\n";

fn goto_cases() -> (Document, AnalysisResult) {
    let mut t = Tree::new(GOTO_CASES);
    let aliased = t.prim(PrimitiveType::I32, t.at("i32", 0));
    let alias = t.item(ItemKind::TypeAlias(TypeAliasItem { name: "Kilometers".to_string(), ty: aliased }), t.at("type Kilometers = i32;", 0));
    let x_ty = t.prim(PrimitiveType::F32, t.within("x: f32", 0, "f32"));
    let y_ty = t.prim(PrimitiveType::F32, t.within("y: f32", 0, "f32"));
    let position = t.item(
        ItemKind::Struct(StructItem {
            name: "Position".to_string(),
            fields: vec![
                StructField { name: "x".to_string(), ty: x_ty, default: None, span: t.at("x: f32", 0) },
                StructField { name: "y".to_string(), ty: y_ty, default: None, span: t.at("y: f32", 0) },
            ],
            methods: vec![],
        }),
        t.at("struct Position { x: f32, y: f32 }", 0),
    );
    let zero = t.num("0", t.within("= 0", 0, "0"));
    let one = t.num("1", t.within("= 1", 0, "1"));
    let entity = t.item(
        ItemKind::Enum(EnumItem {
            name: "EntityType".to_string(),
            variants: vec![
                EnumVariant { name: "Player".to_string(), fields: vec![], discriminant: Some(zero), span: t.at("Player = 0", 0) },
                EnumVariant { name: "Enemy".to_string(), fields: vec![], discriminant: Some(one), span: t.at("Enemy = 1", 0) },
            ],
        }),
        t.at("enum EntityType { Player = 0, Enemy = 1 }", 0),
    );
    let const_ty = t.prim(PrimitiveType::I32, t.within("MY_CONST: i32", 0, "i32"));
    let answer = t.num("42", t.at("42", 0));
    let constant = t.item(ItemKind::Const(ConstItem { name: "MY_CONST".to_string(), ty: const_ty, value: answer }), t.at("const MY_CONST: i32 = 42;", 0));
    let target = t.named("Position", t.within("&Position", 0, "Position"));
    let p_ty = Type { id: t.id(), kind: TypeKind::Ref { mutable: false, ty: Box::new(target) }, span: t.at("&Position", 0) };
    let p = t.param("p", p_ty, t.at("p: &Position", 0));
    let draw = t.func(FunctionKind::Extern, "draw", vec![p], None, None, t.at("extern fn draw(p: &Position);", 0));
    let dt_ty = t.prim(PrimitiveType::F32, t.within("dt: f32", 0, "f32"));
    let dt = t.param("dt", dt_ty, t.at("dt: f32", 0));
    let empty = t.block(vec![], t.at("{}", 0));
    let update = t.func(FunctionKind::Export, "update", vec![dt], None, Some(empty), t.at("export fn update(dt: f32) {}", 0));
    let add = add_two(&mut t);

    let pos_path = t.path(&[("Position", t.within("= Position {", 0, "Position"))]);
    let x = t.float("1.0", t.at("1.0", 0));
    let y = t.float("2.0", t.at("2.0", 0));
    let init = t.expr(
        ExprKind::StructInit {
            path: pos_path,
            fields: vec![
                FieldInit { name: "x".to_string(), value: x, span: t.at("x: 1.0", 0) },
                FieldInit { name: "y".to_string(), value: y, span: t.at("y: 2.0", 0) },
            ],
        },
        t.at("Position { x: 1.0, y: 2.0 }", 0),
    );
    let bind_pos = t.bind("pos", true, None, Some(init), t.at("let mut pos = Position { x: 1.0, y: 2.0 };", 0));
    let variant = t.path(&[("EntityType", t.within("= EntityType::Player", 0, "EntityType")), ("Player", t.within("::Player;", 0, "Player"))]);
    let variant_at = variant.span;
    let variant = t.expr(ExprKind::Path(variant), variant_at);
    let bind_e = t.bind("e", false, None, Some(variant), t.at("let e = EntityType::Player;", 0));
    let km = t.named("Kilometers", t.within("dist: Kilometers", 0, "Kilometers"));
    let ten = t.num("10", t.at("10", 0));
    let bind_dist = t.bind("dist", false, Some(km), Some(ten), t.at("let dist: Kilometers = 10;", 0));
    let draw_callee = t.var("draw", t.within("draw(&pos)", 0, "draw"));
    let pos_arg = t.var("pos", t.within("&pos)", 0, "pos"));
    let borrowed = t.expr(ExprKind::Unary { op: UnaryOp::Ref, expr: Box::new(pos_arg) }, t.at("&pos", 0));
    let draw_call = t.call(draw_callee, vec![borrowed], t.at("draw(&pos)", 0));
    let draw_stmt = t.semi(draw_call, t.at("draw(&pos);", 0));
    let update_callee = t.var("update", t.within("update(0.1)", 0, "update"));
    let tenth = t.float("0.1", t.at("0.1", 0));
    let update_call = t.call(update_callee, vec![tenth], t.at("update(0.1)", 0));
    let update_stmt = t.semi(update_call, t.at("update(0.1);", 0));
    let add_callee = t.var("add", t.within("add(1, 2)", 0, "add"));
    let one = t.num("1", t.within("(1, 2)", 0, "1"));
    let two = t.num("2", t.within("(1, 2)", 0, "2"));
    let add_call = t.call(add_callee, vec![one, two], t.at("add(1, 2)", 0));
    let add_stmt = t.semi(add_call, t.at("add(1, 2);", 0));
    let base = t.var("pos", t.within("pos.x", 0, "pos"));
    let access = t.field(base, "x", t.at("pos.x", 0));
    let bind_x = t.bind("my_x", false, None, Some(access), t.at("let my_x = pos.x;", 0));
    let body = t.block(
        vec![bind_pos, bind_e, bind_dist, draw_stmt, update_stmt, add_stmt, bind_x],
        t.to_last_brace("{\n    let mut", 0),
    );
    let main = t.func(FunctionKind::Normal, "main", vec![], None, Some(body), t.to_last_brace("fn main", 0));
    t.analysis("file:///goto_cases.si", vec![alias, position, entity, constant, draw, update, add, main], vec![])
}

#[test]
fn test_goto_all_cases() {
    let (document, analysis) = goto_cases();

    let pos_def = goto_definition(&document, Position::new(14, 9), &analysis).unwrap();
    let param_def = goto_definition(&document, Position::new(8, 39), &analysis).unwrap();
    let const_def = goto_definition(&document, Position::new(4, 6), &analysis).unwrap();
    let call_def = goto_definition(&document, Position::new(17, 4), &analysis).unwrap();
    let struct_def = goto_definition(&document, Position::new(11, 22), &analysis).unwrap();
    let enum_def = goto_definition(&document, Position::new(12, 14), &analysis).unwrap();
    let field_def = goto_definition(&document, Position::new(18, 19), &analysis).unwrap();
    let variant_def = goto_definition(&document, Position::new(12, 25), &analysis).unwrap();
    let extern_def = goto_definition(&document, Position::new(14, 4), &analysis).unwrap();
    let export_def = goto_definition(&document, Position::new(15, 4), &analysis).unwrap();
    let alias_def = goto_definition(&document, Position::new(13, 16), &analysis).unwrap();
    let call_decl = goto_declaration(&document, Position::new(17, 4), &analysis).unwrap();

    assert!(format!("{:?}", pos_def).contains("goto_cases.si"));
    assert!(format!("{:?}", param_def).contains("goto_cases.si"));
    assert!(format!("{:?}", const_def).contains("goto_cases.si"));
    assert!(format!("{:?}", call_def).contains("goto_cases.si"));
    assert!(format!("{:?}", struct_def).contains("goto_cases.si"));
    assert!(format!("{:?}", enum_def).contains("goto_cases.si"));
    assert!(format!("{:?}", field_def).contains("goto_cases.si"));
    assert!(format!("{:?}", variant_def).contains("goto_cases.si"));
    assert!(format!("{:?}", extern_def).contains("goto_cases.si"));
    assert!(format!("{:?}", export_def).contains("goto_cases.si"));
    assert!(format!("{:?}", alias_def).contains("goto_cases.si"));
    assert_eq!(call_def.uri, call_decl.uri);
    assert_eq!(call_def.range, call_decl.range);
}

#[test]
fn goto_targets_are_the_declarations() {
    let (document, analysis) = goto_cases();
    let start = |line: u32, character: u32| {
        let l = goto_definition(&document, Position::new(line, character), &analysis).unwrap();
        (l.range.start.line, l.range.start.character)
    };
    // A call of `add` leads to its item, a use of `a` to its parameter.
    assert_eq!(start(17, 4), (8, 0));
    assert_eq!(start(8, 39), (8, 7));
    // A struct literal's name leads to the struct, a field to its declaration.
    assert_eq!(start(11, 22), (2, 0));
    assert_eq!(start(18, 19), (2, 18));
    // A variant path leads to the variant.
    assert_eq!(start(12, 25), (3, 18));
}

const REFS_CASES: &str = "\nstruct Point { x: i32 }\nenum EntityType { Player }\nfn add(a: i32) {\n    let mut my_a = a;\n    my_a = my_a + 1;\n}\nfn main() {\n    let p = Point { x: 1 };\n    let field_x = p.x;\n    let ent = EntityType::Player;\n    add(1);\n    add(2);\n}\n";

fn refs_cases() -> (Document, AnalysisResult) {
    let mut t = Tree::new(REFS_CASES);
    let x_ty = t.prim(PrimitiveType::I32, t.within("x: i32", 0, "i32"));
    let point = t.item(
        ItemKind::Struct(StructItem {
            name: "Point".to_string(),
            fields: vec![StructField { name: "x".to_string(), ty: x_ty, default: None, span: t.at("x: i32", 0) }],
            methods: vec![],
        }),
        t.at("struct Point { x: i32 }", 0),
    );
    let entity = t.item(
        ItemKind::Enum(EnumItem {
            name: "EntityType".to_string(),
            variants: vec![EnumVariant { name: "Player".to_string(), fields: vec![], discriminant: None, span: t.at("Player", 0) }],
        }),
        t.at("enum EntityType { Player }", 0),
    );
    let a_ty = t.prim(PrimitiveType::I32, t.within("a: i32", 0, "i32"));
    let a = t.param("a", a_ty, t.at("a: i32", 0));
    let a_use = t.var("a", t.within("= a;", 0, "a"));
    let bind = t.bind("my_a", true, None, Some(a_use), t.at("let mut my_a = a;", 0));
    let target = t.var("my_a", t.within("my_a = my_a", 0, "my_a"));
    let read = t.var("my_a", t.within("= my_a + 1", 0, "my_a"));
    let one = t.num("1", t.within("+ 1", 0, "1"));
    let sum = t.binary(BinaryOp::Add, read, one);
    let assign = t.expr(ExprKind::Assign { target: Box::new(target), value: Box::new(sum) }, t.at("my_a = my_a + 1", 0));
    let assign_stmt = t.semi(assign, t.at("my_a = my_a + 1;", 0));
    let body = t.block(vec![bind, assign_stmt], t.range("{\n    let mut", 0, "}\n", 2));
    let add = t.func(FunctionKind::Normal, "add", vec![a], None, Some(body), t.range("fn add", 0, "}\n", 2));

    let point_path = t.path(&[("Point", t.within("= Point {", 0, "Point"))]);
    let one = t.num("1", t.within("x: 1 }", 0, "1"));
    let init = t.expr(
        ExprKind::StructInit { path: point_path, fields: vec![FieldInit { name: "x".to_string(), value: one, span: t.at("x: 1", 0) }] },
        t.at("Point { x: 1 }", 0),
    );
    let bind_p = t.bind("p", false, None, Some(init), t.at("let p = Point { x: 1 };", 0));
    let base = t.var("p", t.within("p.x", 0, "p"));
    let access = t.field(base, "x", t.at("p.x", 0));
    let bind_x = t.bind("field_x", false, None, Some(access), t.at("let field_x = p.x;", 0));
    let variant = t.path(&[("EntityType", t.within("= EntityType::", 0, "EntityType")), ("Player", t.within("::Player;", 0, "Player"))]);
    let variant_at = variant.span;
    let variant = t.expr(ExprKind::Path(variant), variant_at);
    let bind_ent = t.bind("ent", false, None, Some(variant), t.at("let ent = EntityType::Player;", 0));
    let mut calls = vec![];
    for (i, arg) in ["1", "2"].iter().enumerate() {
        let text = format!("add({arg})");
        let callee = t.var("add", t.within(&text, 0, "add"));
        let value = t.num(arg, t.within(&text, 0, arg));
        let call = t.call(callee, vec![value], t.at(&text, 0));
        let _ = i;
        calls.push(t.semi(call, t.at(&format!("{text};"), 0)));
    }
    let mut statements = vec![bind_p, bind_x, bind_ent];
    statements.extend(calls);
    let body = t.block(statements, t.to_last_brace("{\n    let p", 0));
    let main = t.func(FunctionKind::Normal, "main", vec![], None, Some(body), t.to_last_brace("fn main", 0));
    t.analysis("file:///refs_cases.si", vec![point, entity, add, main], vec![])
}

#[test]
fn references_local() {
    let mut t = Tree::new("fn main() { let x = 1; x; x; }");
    let one = t.num("1", t.at("1", 0));
    let bind = t.bind("x", false, None, Some(one), t.range("let", 0, ";", 0));
    let first = t.var("x", t.within("x; x;", 0, "x"));
    let first = t.semi(first, t.within("x; x;", 0, "x;"));
    let second = t.var("x", t.within("x; }", 0, "x"));
    let second = t.semi(second, t.within("x; }", 0, "x;"));
    let body = t.block(vec![bind, first, second], t.range("{", 0, "}", 0));
    let main = t.func(FunctionKind::Normal, "main", vec![], None, Some(body), t.range("fn", 0, "}", 0));
    let (document, analysis) = t.analysis("file:///refs.si", vec![main], vec![]);

    let refs = references(&document, Position::new(0, 26), &analysis, true).unwrap();
    assert!(refs.len() >= 3);
    assert_eq!(refs.len(), 3);
}

#[test]
fn test_references_all_cases() {
    let (document, analysis) = refs_cases();

    let refs_local_with = references(&document, Position::new(5, 4), &analysis, true).unwrap();
    let refs_local_without = references(&document, Position::new(5, 4), &analysis, false).unwrap();
    assert_eq!(refs_local_with.len(), 3);
    assert_eq!(refs_local_without.len(), 2);

    let refs_param = references(&document, Position::new(4, 19), &analysis, true).unwrap();
    assert_eq!(refs_param.len(), 2);

    let refs_func = references(&document, Position::new(11, 4), &analysis, true).unwrap();
    assert_eq!(refs_func.len(), 3);

    let refs_field = references(&document, Position::new(9, 20), &analysis, true).unwrap();
    assert_eq!(refs_field.len(), 3);

    let refs_variant = references(&document, Position::new(10, 26), &analysis, true).unwrap();
    assert_eq!(refs_variant.len(), 2);
}

#[test]
fn references_come_in_document_order() {
    let (document, analysis) = refs_cases();
    let refs = references(&document, Position::new(5, 4), &analysis, true).unwrap();
    let starts: Vec<(u32, u32)> = refs.iter().map(|l| (l.range.start.line, l.range.start.character)).collect();
    // The binding's name, then the write, then the read.
    assert_eq!(starts, vec![(4, 12), (5, 4), (5, 11)]);
    // Without the declaration the binding is left out.
    let uses = references(&document, Position::new(5, 4), &analysis, false).unwrap();
    let starts: Vec<(u32, u32)> = uses.iter().map(|l| (l.range.start.line, l.range.start.character)).collect();
    assert_eq!(starts, vec![(5, 4), (5, 11)]);
}

#[test]
fn test_document_highlight() {
    let mut t = Tree::new("fn main() { let mut x = 1; x = x + 1; }");
    let one = t.num("1", t.at("1", 0));
    let bind = t.bind("x", true, None, Some(one), t.range("let", 0, ";", 0));
    let target = t.var("x", t.within("x = x", 0, "x"));
    let read = t.var("x", t.within("x + 1", 0, "x"));
    let one = t.num("1", t.within("+ 1", 0, "1"));
    let sum = t.binary(BinaryOp::Add, read, one);
    let assign = t.expr(ExprKind::Assign { target: Box::new(target), value: Box::new(sum) }, t.at("x = x + 1", 0));
    let stmt = t.semi(assign, t.at("x = x + 1;", 0));
    let body = t.block(vec![bind, stmt], t.range("{", 0, "}", 0));
    let main = t.func(FunctionKind::Normal, "main", vec![], None, Some(body), t.range("fn", 0, "}", 0));
    let (document, analysis) = t.analysis("file:///highlight.si", vec![main], vec![]);

    let highlights = document_highlight(&document, Position::new(0, 27), &analysis).unwrap();
    assert_eq!(highlights.len(), 3);
    let has_write = highlights.iter().any(|h| h.kind == HighlightKind::Write);
    let has_read = highlights.iter().any(|h| h.kind == HighlightKind::Read);
    assert!(has_write);
    assert!(has_read);
}

#[test]
fn document_symbols_from_ast_even_with_type_errors() {
    let mut t = Tree::new("struct Point { x: i32 }\nfn main() { unknown; }");
    let x_ty = t.prim(PrimitiveType::I32, t.at("i32", 0));
    let point = t.item(
        ItemKind::Struct(StructItem {
            name: "Point".to_string(),
            fields: vec![StructField { name: "x".to_string(), ty: x_ty, default: None, span: t.at("x: i32", 0) }],
            methods: vec![],
        }),
        t.at("struct Point { x: i32 }", 0),
    );
    let unknown = t.var("unknown", t.at("unknown", 0));
    let stmt = t.semi(unknown, t.at("unknown;", 0));
    let body = t.block(vec![stmt], t.range("{ unknown", 0, "}", 1));
    let main = t.func(FunctionKind::Normal, "main", vec![], None, Some(body), t.range("fn main", 0, "}", 1));
    let (document, analysis) = t.analysis("file:///symbols.si", vec![point, main], vec![]);
    assert!(!analysis.diagnostics.is_empty());

    let symbols = document_symbols(&document, &analysis);
    assert!(format!("{symbols:?}").contains("Point"));
    assert!(format!("{symbols:?}").contains("main"));
}

#[test]
fn test_document_symbols_all_kinds() {
    let mut t = Tree::new("\nstruct Position { x: f32, y: f32 }\nenum EntityType { Player, Enemy }\nconst MY_CONST: i32 = 42;\ntype Kilometers = i32;\nextern fn draw();\nexport fn update();\nfn add() {}\n");
    let position = position_struct(&mut t, &["x", "y"]);
    let entity = t.item(
        ItemKind::Enum(EnumItem {
            name: "EntityType".to_string(),
            variants: vec![
                EnumVariant { name: "Player".to_string(), fields: vec![], discriminant: None, span: t.at("Player", 0) },
                EnumVariant { name: "Enemy".to_string(), fields: vec![], discriminant: None, span: t.at("Enemy", 0) },
            ],
        }),
        t.at("enum EntityType { Player, Enemy }", 0),
    );
    let const_ty = t.prim(PrimitiveType::I32, t.within("MY_CONST: i32", 0, "i32"));
    let answer = t.num("42", t.at("42", 0));
    let constant = t.item(ItemKind::Const(ConstItem { name: "MY_CONST".to_string(), ty: const_ty, value: answer }), t.at("const MY_CONST: i32 = 42;", 0));
    let aliased = t.prim(PrimitiveType::I32, t.within("= i32", 0, "i32"));
    let alias = t.item(ItemKind::TypeAlias(TypeAliasItem { name: "Kilometers".to_string(), ty: aliased }), t.at("type Kilometers = i32;", 0));
    let draw = t.func(FunctionKind::Extern, "draw", vec![], None, None, t.at("extern fn draw();", 0));
    let update = t.func(FunctionKind::Export, "update", vec![], None, None, t.at("export fn update();", 0));
    let empty = t.block(vec![], t.at("{}", 0));
    let add = t.func(FunctionKind::Normal, "add", vec![], None, Some(empty), t.at("fn add() {}", 0));
    let (document, analysis) = t.analysis("file:///symbols_cases.si", vec![position, entity, constant, alias, draw, update, add], vec![]);

    let symbols = document_symbols(&document, &analysis);
    let sym_str = format!("{symbols:?}");
    for name in ["Position", "EntityType", "MY_CONST", "Kilometers", "draw", "update", "add"] {
        assert!(sym_str.contains(name), "{name} missing from {sym_str}");
    }
    // One top-level symbol per item, the struct with its two fields.
    assert_eq!(symbols.len(), 7);
    assert_eq!(symbols[0].children.as_ref().map(|c| c.len()), Some(2));
}

#[test]
fn analysis_accepts_valid_source() {
    let mut t = Tree::new("fn main() { let x = 1; return x; }");
    let one = t.num("1", t.at("1", 0));
    let bind = t.bind("x", false, None, Some(one), t.range("let", 0, ";", 0));
    let x = t.var("x", t.within("return x", 0, "x"));
    let ret = t.ret(x, t.at("return x;", 0));
    let body = t.block(vec![bind, ret], t.range("{", 0, "}", 0));
    let main = t.func(FunctionKind::Normal, "main", vec![], None, Some(body), t.range("fn", 0, "}", 0));
    let (_, result) = t.analysis("file:///test.si", vec![main], vec![]);

    assert!(result.diagnostics.is_empty());
    assert!(result.ast.is_some());
    assert!(result.resolved.is_some());
    assert!(result.borrow_result.is_some());
}

#[test]
fn analysis_reports_invalid_source_and_keeps_partial_ast() {
    let t = Tree::new("fn main( {");
    let error = ParseError::new(ParseErrorKind::ExpectedIdentifier, t.at("{", 0));
    let (_, result) = t.analysis("file:///test.si", vec![], vec![error]);

    assert!(!result.diagnostics.is_empty());
    assert!(result.ast.is_some());
    assert!(result.resolved.is_none());
}

const SIGNATURES: &str = "\nextern fn draw(pos: &Position, size: f32);\nexport fn update(dt: f32) {}\nfn add(a: i32, b: i32) -> i32 { return a + b; }\nfn main() {\n    add(1, 2);\n    update(0.1);\n    draw(1, 2);\n    // test nested\n    add(add(1, 2), 3);\n}\n";

fn signature_cases() -> (Document, AnalysisResult) {
    let mut t = Tree::new(SIGNATURES);
    let target = t.named("Position", t.at("Position", 0));
    let pos_ty = Type { id: t.id(), kind: TypeKind::Ref { mutable: false, ty: Box::new(target) }, span: t.at("&Position", 0) };
    let pos = t.param("pos", pos_ty, t.at("pos: &Position", 0));
    let size_ty = t.prim(PrimitiveType::F32, t.within("size: f32", 0, "f32"));
    let size = t.param("size", size_ty, t.at("size: f32", 0));
    let draw = t.func(FunctionKind::Extern, "draw", vec![pos, size], None, None, t.at("extern fn draw(pos: &Position, size: f32);", 0));
    let dt_ty = t.prim(PrimitiveType::F32, t.within("dt: f32", 0, "f32"));
    let dt = t.param("dt", dt_ty, t.at("dt: f32", 0));
    let empty = t.block(vec![], t.at("{}", 0));
    let update = t.func(FunctionKind::Export, "update", vec![dt], None, Some(empty), t.at("export fn update(dt: f32) {}", 0));
    let add = add_two(&mut t);
    let mut statements = vec![];
    // add(1, 2);
    let callee = t.var("add", t.within("add(1, 2);", 0, "add"));
    let one = t.num("1", t.within("add(1, 2);", 0, "1"));
    let two = t.num("2", t.within("add(1, 2);", 0, "2"));
    let call = t.call(callee, vec![one, two], t.at("add(1, 2)", 0));
    statements.push(t.semi(call, t.at("add(1, 2);", 0)));
    // update(0.1);
    let callee = t.var("update", t.within("update(0.1)", 0, "update"));
    let tenth = t.float("0.1", t.at("0.1", 0));
    let call = t.call(callee, vec![tenth], t.at("update(0.1)", 0));
    statements.push(t.semi(call, t.at("update(0.1);", 0)));
    // draw(1, 2);
    let callee = t.var("draw", t.within("draw(1, 2)", 0, "draw"));
    let one = t.num("1", t.within("draw(1, 2)", 0, "1"));
    let two = t.num("2", t.within("draw(1, 2)", 0, "2"));
    let call = t.call(callee, vec![one, two], t.at("draw(1, 2)", 0));
    statements.push(t.semi(call, t.at("draw(1, 2);", 0)));
    // add(add(1, 2), 3);
    let inner_at = t.within("add(add(1, 2)", 0, "add(1");
    let inner_callee = t.var("add", Span::new(1, inner_at.start, inner_at.start + 3));
    let one = t.num("1", t.within("add(add(1, 2)", 0, "1"));
    let two = t.num("2", t.within("add(add(1, 2)", 0, "2"));
    let inner = t.call(inner_callee, vec![one, two], t.within("add(add(1, 2)", 0, "add(1, 2)"));
    let three = t.num("3", t.within(", 3)", 0, "3"));
    let outer_callee = t.var("add", t.within("add(add(", 0, "add"));
    let outer = t.call(outer_callee, vec![inner, three], t.at("add(add(1, 2), 3)", 0));
    statements.push(t.semi(outer, t.at("add(add(1, 2), 3);", 0)));
    let body = t.block(statements, t.to_last_brace("{\n    add", 0));
    let main = t.func(FunctionKind::Normal, "main", vec![], None, Some(body), t.to_last_brace("fn main", 0));
    t.analysis("file:///sig.si", vec![draw, update, add, main], vec![])
}

#[test]
fn test_signature_help_all_cases() {
    let (document, analysis) = signature_cases();

    // 1. A plain call: add(1, 2), the cursor inside the arguments.
    let help = signature_help(&document, Position::new(5, 9), &analysis).unwrap();
    assert!(help.signatures[0].label.contains("fn add(a: i32, b: i32)"));
    assert_eq!(help.active_parameter, Some(0));

    // 2. After the comma the second parameter is active.
    let help = signature_help(&document, Position::new(5, 12), &analysis).unwrap();
    assert_eq!(help.active_parameter, Some(1));

    // 3. An exported function.
    let help = signature_help(&document, Position::new(6, 12), &analysis).unwrap();
    assert!(help.signatures[0].label.contains("export fn update"));

    // 4. An external function.
    let help = signature_help(&document, Position::new(7, 10), &analysis).unwrap();
    assert!(help.signatures[0].label.contains("extern fn draw"));

    // 5. A nested call: the inner one is active.
    let help = signature_help(&document, Position::new(9, 12), &analysis).unwrap();
    assert_eq!(help.active_parameter, Some(0));

    // 6. Outside any call: nothing.
    assert!(signature_help(&document, Position::new(4, 4), &analysis).is_none());
}

#[test]
fn signature_help_labels_each_parameter() {
    let (document, analysis) = signature_cases();
    let help = signature_help(&document, Position::new(5, 9), &analysis).unwrap();
    assert_eq!(help.signatures.len(), 1);
    assert_eq!(help.signatures[0].label, "fn add(a: i32, b: i32) -> i32");
    // Byte bounds of `a: i32` and `b: i32` in the label.
    assert_eq!(help.signatures[0].parameters, Some(vec![(7, 13), (15, 21)]));
    assert_eq!(help.active_signature, Some(0));
}

#[test]
fn signature_help_knows_the_builtins() {
    let mut t = Tree::new("fn main() { print(x); min_i32(1, ); }");
    let body = t.block(vec![], t.range("{", 0, "}", 0));
    let main = t.func(FunctionKind::Normal, "main", vec![], None, Some(body), t.range("fn", 0, "}", 0));
    let (document, analysis) = t.analysis("file:///builtins.si", vec![main], vec![]);
    let help = signature_help(&document, Position::new(0, 18), &analysis).unwrap();
    assert_eq!(help.signatures[0].label, "fn print(s: cstr)");
    assert_eq!(help.signatures[0].parameters, Some(vec![(9, 16)]));
    let help = signature_help(&document, Position::new(0, 33), &analysis).unwrap();
    assert_eq!(help.signatures[0].label, "fn min_i32(a: i32, b: i32) -> i32");
    assert_eq!(help.active_parameter, Some(1));
    // An unknown callee has no signature.
    let (document, analysis) = Tree::new("fn main() { nothing(1); }").analysis("file:///none.si", vec![], vec![]);
    assert!(signature_help(&document, Position::new(0, 21), &analysis).is_none());
}

/// What the lexer gives for a lone identifier.
fn ident_tokens(name: &str) -> Vec<Token> {
    let n = name.len() as u32;
    vec![
        Token { kind: TokenKind::Ident(name.to_string()), span: Span::new(1, 0, n) },
        Token { kind: TokenKind::Eof, span: Span::new(1, n, n) },
    ]
}

fn rename_case() -> (Document, AnalysisResult) {
    let mut t = Tree::new("fn main() { let x = 1; x; }");
    let one = t.num("1", t.at("1", 0));
    let bind = t.bind("x", false, None, Some(one), t.range("let", 0, ";", 0));
    let use_x = t.var("x", t.within("x;", 0, "x"));
    let stmt = t.semi(use_x, t.at("x;", 0));
    let body = t.block(vec![bind, stmt], t.range("{", 0, "}", 0));
    let main = t.func(FunctionKind::Normal, "main", vec![], None, Some(body), t.range("fn", 0, "}", 0));
    t.analysis("file:///rename.si", vec![main], vec![])
}

#[test]
fn rename_local() {
    let (document, analysis) = rename_case();
    let uri = lsp_types::Url::parse("file:///rename.si").unwrap();
    let tokens = ident_tokens("value");
    let edit = rename(&document, Position::new(0, 25), "value", Some(&tokens), &analysis, &LspConfig::default()).unwrap();
    assert_eq!(edit.changes.iter().find(|(u, _)| *u == uri).unwrap().1.len(), 2);
}

#[test]
fn rename_local_rewrites_binding_and_use() {
    let (document, analysis) = rename_case();
    let uri = lsp_types::Url::parse("file:///rename.si").unwrap();
    let tokens = ident_tokens("value");
    let edit = rename(&document, Position::new(0, 23), "value", Some(&tokens), &analysis, &LspConfig::default()).unwrap();
    let edits = &edit.changes.iter().find(|(u, _)| *u == uri).unwrap().1;
    // The binding is recorded both as a resolved name and as the definition.
    assert_eq!(edits.len(), 3);
    assert!(edits.iter().all(|e| e.new_text == "value"));
    let starts: Vec<u32> = edits.iter().map(|e| e.range.start.character).collect();
    assert!(starts.contains(&16) && starts.contains(&23));
}

#[test]
fn rename_refuses_keywords_and_non_identifiers() {
    let (document, analysis) = rename_case();
    let config = LspConfig::default();
    let keyword = vec![
        Token { kind: TokenKind::Keyword(Keyword::Let), span: Span::new(1, 0, 3) },
        Token { kind: TokenKind::Eof, span: Span::new(1, 3, 3) },
    ];
    assert!(rename(&document, Position::new(0, 23), "let", Some(&keyword), &analysis, &config).is_none());
    let two = vec![
        Token { kind: TokenKind::Ident("a".to_string()), span: Span::new(1, 0, 1) },
        Token { kind: TokenKind::Ident("b".to_string()), span: Span::new(1, 2, 3) },
        Token { kind: TokenKind::Eof, span: Span::new(1, 3, 3) },
    ];
    assert!(rename(&document, Position::new(0, 23), "a b", Some(&two), &analysis, &config).is_none());
    assert!(rename(&document, Position::new(0, 23), "#", None, &analysis, &config).is_none());
}

#[test]
fn rename_keeps_exported_functions_when_configured() {
    let mut t = Tree::new("export fn update() {} fn main() { update(); }");
    let empty = t.block(vec![], t.at("{}", 0));
    let update = t.func(FunctionKind::Export, "update", vec![], None, Some(empty), t.range("export", 0, "}", 0));
    let callee = t.var("update", t.within("update();", 0, "update"));
    let call = t.call(callee, vec![], t.at("update()", 1));
    let stmt = t.semi(call, t.at("update();", 0));
    let body = t.block(vec![stmt], t.range("{ update", 0, "}", 1));
    let main = t.func(FunctionKind::Normal, "main", vec![], None, Some(body), t.range("fn main", 0, "}", 1));
    let (document, analysis) = t.analysis("file:///abi.si", vec![update, main], vec![]);
    let tokens = ident_tokens("tick");
    let forbid = LspConfig::default();
    assert!(forbid.forbid_abi_rename);
    assert!(rename(&document, Position::new(0, 35), "tick", Some(&tokens), &analysis, &forbid).is_none());
    let mut allow = LspConfig::default();
    allow.forbid_abi_rename = false;
    let edit = rename(&document, Position::new(0, 35), "tick", Some(&tokens), &analysis, &allow).unwrap();
    assert!(edit.changes[0].1.len() >= 2);
}

#[test]
fn code_actions_are_empty() {
    let (document, analysis) = rename_case();
    let _ = document;
    let range = siscript::document::Range::new(Position::new(0, 0), Position::new(0, 1));
    assert_eq!(code_actions(range, &analysis).map(|v| v.len()), Some(0));
}
