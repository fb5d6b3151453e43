use siscript::analysis_index::{build_type_index, collect_node_spans, rebuild_indexes};
use siscript::analysis_model::{AnalysisResult, SymbolEntryKind};
use siscript::ast::{
    Ast, Block, ConstItem, EnumItem, EnumVariant, Expr, ExprKind, FieldInit, FunctionItem,
    FunctionKind, FunctionParam, Item, ItemKind, LiteralExpr, Pattern, PatternKind, Stmt, StmtKind,
    StructField, StructItem, TypeAliasItem,
};
use siscript::completion_items::{completion, find_enum_item, find_struct_item, CompletionEntry, CompletionKind};
use siscript::config::LspConfig;
use siscript::document::{Document, Position};
use siscript::symbol_index::{function_signature, tail_span};
use siscript::ty::{Path, PathSegment, PrimitiveType, Type, TypeKind};
use siscript::type_context::TypeContext;
use siscript::span::{NodeId, Span};

fn uri() -> lsp_types::Url {
    lsp_types::Url::parse("file:///index.si").unwrap()
}

fn sp(start: u32, end: u32) -> Span {
    Span::new(1, start, end)
}

fn prim(p: PrimitiveType) -> Type {
    Type { id: NodeId(0), kind: TypeKind::Primitive(p), span: sp(0, 0) }
}

fn path(name: &str, id: u32, span: Span) -> Path {
    Path { id: NodeId(id), segments: vec![PathSegment { name: name.to_string(), span }], span }
}

fn named(name: &str) -> Type {
    Type { id: NodeId(0), kind: TypeKind::Path(path(name, 0, sp(0, 0))), span: sp(0, 0) }
}

fn lit_int(v: &str, span: Span) -> Expr {
    Expr { id: NodeId(0), kind: ExprKind::Literal(LiteralExpr::Integer(v.to_string())), span }
}

fn let_stmt(id: u32, name: &str, mutable: bool, pat: Span, value: Expr, span: Span) -> Stmt {
    Stmt {
        id: NodeId(0),
        kind: StmtKind::Let {
            pattern: Pattern { id: NodeId(id), kind: PatternKind::Binding { name: name.to_string(), mutable }, span: pat },
            ty: None,
            value: Some(value),
        },
        span,
    }
}

fn function(id: u32, name: &str, params: Vec<FunctionParam>, body: Block, span: Span) -> Item {
    Item {
        id: NodeId(id),
        kind: ItemKind::Function(FunctionItem { kind: FunctionKind::Normal, name: name.to_string(), params, return_ty: None, body: Some(body) }),
        span,
    }
}

fn labels(items: &[CompletionEntry]) -> Vec<String> {
    items.iter().map(|i| i.label.clone()).collect()
}

// struct Point { x: i32 }
// enum Color { Red }
// fn make() {}
// fn main() { let p = Point { x: 1 }; p. Color:: }
const FIRST: &str = "struct Point { x: i32 }\nenum Color { Red }\nfn make() {}\nfn main() { let p = Point { x: 1 }; p. Color:: }";

fn first_ast() -> Ast {
    let point = Item {
        id: NodeId(1),
        kind: ItemKind::Struct(StructItem {
            name: "Point".to_string(),
            fields: vec![StructField { name: "x".to_string(), ty: prim(PrimitiveType::I32), default: None, span: sp(15, 21) }],
            methods: vec![],
        }),
        span: sp(0, 23),
    };
    let color = Item {
        id: NodeId(2),
        kind: ItemKind::Enum(EnumItem {
            name: "Color".to_string(),
            variants: vec![EnumVariant { name: "Red".to_string(), fields: vec![], discriminant: None, span: sp(37, 40) }],
        }),
        span: sp(24, 42),
    };
    let make = function(3, "make", vec![], Block { statements: vec![], span: sp(53, 55) }, sp(43, 55));
    let literal = Expr {
        id: NodeId(8),
        kind: ExprKind::StructInit {
            path: path("Point", 9, sp(76, 81)),
            fields: vec![FieldInit { name: "x".to_string(), value: lit_int("1", sp(87, 88)), span: sp(84, 88) }],
        },
        span: sp(76, 90),
    };
    let main = function(
        4,
        "main",
        vec![],
        Block { statements: vec![let_stmt(7, "p", false, sp(72, 73), literal, sp(68, 91))], span: sp(66, 104) },
        sp(56, 104),
    );
    Ast { items: vec![point, color, make, main] }
}

fn first_analysis() -> AnalysisResult {
    let mut analysis = AnalysisResult::empty(uri(), Some(1), FIRST.len());
    analysis.ast = Some(first_ast());
    let mut ctx = TypeContext::new();
    ctx.insert(NodeId(7), named("Point"));
    rebuild_indexes(&mut analysis, &ctx);
    analysis
}

#[test]
fn symbol_index_lists_declarations_in_order() {
    let analysis = first_analysis();
    let entries = &analysis.symbol_index.entries;
    let names: Vec<&str> = entries.iter().map(|e| e.name.as_str()).collect();
    assert_eq!(names, vec!["Point", "x", "Color", "Red", "make", "main", "p", "Point", "x"]);
    assert_eq!(entries[1].kind, SymbolEntryKind::Field);
    assert_eq!(entries[1].detail.as_deref(), Some("i32"));
    assert_eq!(entries[1].parent.as_deref(), Some("Point"));
    assert_eq!(entries[3].detail.as_deref(), Some("Color::Red"));
    assert_eq!(entries[4].detail.as_deref(), Some("fn make()"));
    assert_eq!(entries[6].kind, SymbolEntryKind::Local);
    assert_eq!(entries[6].detail.as_deref(), Some("Point"));
    assert_eq!(entries[7].kind, SymbolEntryKind::Local);
    assert_eq!(entries[7].span, sp(76, 81));
    assert_eq!(entries[8].span, sp(84, 88));
}

#[test]
fn type_index_holds_inferred_and_written_types() {
    let ast = first_ast();
    let mut ctx = TypeContext::new();
    ctx.insert(NodeId(7), named("Point"));
    ctx.insert(NodeId(8), Type { id: NodeId(8), kind: TypeKind::Tuple(vec![prim(PrimitiveType::Bool), named("Point")]), span: sp(0, 0) });
    let index = build_type_index(&ast, &ctx);
    assert_eq!(index.types.get(&7).map(|s| s.as_str()), Some("Point"));
    assert_eq!(index.types.get(&8).map(|s| s.as_str()), Some("(bool, Point)"));
    // The field's written type has node id 0, so the last one written wins.
    assert_eq!(index.types.get(&0).map(|s| s.as_str()), Some("i32"));
}

#[test]
fn node_spans_map_paths_to_their_last_segment() {
    let spans = collect_node_spans(&first_ast());
    assert_eq!(spans.get(&4), Some(&sp(56, 104)));
    assert_eq!(spans.get(&7), Some(&sp(72, 73)));
    assert_eq!(spans.get(&8), Some(&sp(76, 90)));
    assert_eq!(spans.get(&9), Some(&sp(76, 81)));
    assert_eq!(spans.get(&42), None);
}

#[test]
fn signature_and_tail_span_texts() {
    let f = FunctionItem {
        kind: FunctionKind::Export,
        name: "area".to_string(),
        params: vec![
            FunctionParam { name: "w".to_string(), ty: prim(PrimitiveType::F32), span: sp(0, 0) },
            FunctionParam { name: "h".to_string(), ty: prim(PrimitiveType::F32), span: sp(0, 0) },
        ],
        return_ty: Some(prim(PrimitiveType::F64)),
        body: None,
    };
    assert_eq!(function_signature(&f), "export fn area(w: f32, h: f32) -> f64");
    assert_eq!(tail_span(sp(10, 20), "len"), sp(17, 20));
    assert_eq!(tail_span(sp(0, 2), "long_name"), sp(0, 2));
}

#[test]
fn find_struct_and_enum_items_by_name() {
    let ast = first_ast();
    assert_eq!(find_struct_item(&ast, "Point").map(|s| s.fields.len()), Some(1));
    assert!(find_struct_item(&ast, "Color").is_none());
    assert_eq!(find_enum_item(&ast, "Color").map(|e| e.variants.len()), Some(1));
    assert!(find_enum_item(&ast, "Point").is_none());
}

#[test]
fn completion_global_and_field_and_variant() {
    let document = Document::new(uri(), Some(1), FIRST.to_string());
    let analysis = first_analysis();
    let config = LspConfig::default();

    let global = completion(&document, Position::new(3, 0), &analysis, &config).unwrap();
    assert!(labels(&global).contains(&"make".to_string()));

    let fields = completion(&document, Position::new(3, 38), &analysis, &config).unwrap();
    assert_eq!(labels(&fields), vec!["x".to_string()]);
    assert_eq!(fields[0].kind, CompletionKind::Field);
    assert_eq!(fields[0].detail.as_deref(), Some("i32"));

    let variants = completion(&document, Position::new(3, 46), &analysis, &config).unwrap();
    assert_eq!(labels(&variants), vec!["Red".to_string()]);
    assert_eq!(variants[0].detail.as_deref(), Some("Color::Red"));
}

const SECOND: &str = "\nstruct Position { x: f32, y: f32 }\nenum EntityType { Player = 0, Enemy = 1 }\nconst MY_CONST: i32 = 42;\ntype Kilometers = i32;\n\nfn add(a: i32) {\n    let mut my_local = a;\n    let shadowed = 1;\n    {\n        let shadowed = 2;\n        // cursor here\n    }\n}\n";

fn second_analysis() -> AnalysisResult {
    let position = Item {
        id: NodeId(1),
        kind: ItemKind::Struct(StructItem {
            name: "Position".to_string(),
            fields: vec![
                StructField { name: "x".to_string(), ty: prim(PrimitiveType::F32), default: None, span: sp(19, 25) },
                StructField { name: "y".to_string(), ty: prim(PrimitiveType::F32), default: None, span: sp(27, 33) },
            ],
            methods: vec![],
        }),
        span: sp(1, 35),
    };
    let entity = Item {
        id: NodeId(2),
        kind: ItemKind::Enum(EnumItem {
            name: "EntityType".to_string(),
            variants: vec![
                EnumVariant { name: "Player".to_string(), fields: vec![], discriminant: Some(lit_int("0", sp(63, 64))), span: sp(54, 64) },
                EnumVariant { name: "Enemy".to_string(), fields: vec![], discriminant: Some(lit_int("1", sp(74, 75))), span: sp(66, 75) },
            ],
        }),
        span: sp(36, 77),
    };
    let constant = Item {
        id: NodeId(3),
        kind: ItemKind::Const(ConstItem { name: "MY_CONST".to_string(), ty: prim(PrimitiveType::I32), value: lit_int("42", sp(100, 102)) }),
        span: sp(78, 103),
    };
    let alias = Item {
        id: NodeId(4),
        kind: ItemKind::TypeAlias(TypeAliasItem { name: "Kilometers".to_string(), ty: prim(PrimitiveType::I32) }),
        span: sp(104, 126),
    };
    let a = Expr { id: NodeId(24), kind: ExprKind::Path(path("a", 25, sp(168, 169))), span: sp(168, 169) };
    let inner = Block { statements: vec![let_stmt(23, "shadowed", false, sp(211, 219), lit_int("2", sp(222, 223)), sp(207, 224))], span: sp(197, 253) };
    let body = Block {
        statements: vec![
            let_stmt(21, "my_local", true, sp(157, 165), a, sp(149, 170)),
            let_stmt(22, "shadowed", false, sp(179, 187), lit_int("1", sp(190, 191)), sp(175, 192)),
            Stmt { id: NodeId(0), kind: StmtKind::Expr(Expr { id: NodeId(26), kind: ExprKind::Block(inner), span: sp(197, 253) }), span: sp(197, 253) },
        ],
        span: sp(143, 255),
    };
    let add = function(5, "add", vec![FunctionParam { name: "a".to_string(), ty: prim(PrimitiveType::I32), span: sp(135, 141) }], body, sp(128, 255));
    let mut analysis = AnalysisResult::empty(uri(), Some(1), SECOND.len());
    analysis.ast = Some(Ast { items: vec![position, entity, constant, alias, add] });
    let mut ctx = TypeContext::new();
    for id in [21u32, 22, 23] {
        ctx.insert(NodeId(id), prim(PrimitiveType::I32));
    }
    rebuild_indexes(&mut analysis, &ctx);
    analysis
}

#[test]
fn test_completion_all_cases() {
    let document = Document::new(uri(), Some(1), SECOND.to_string());
    let analysis = second_analysis();
    let mut config = LspConfig::default();
    config.completion_builtins = true;
    config.completion_keywords = true;
    config.completion_snippets = true;

    let global = labels(&completion(&document, Position::new(5, 0), &analysis, &config).unwrap());
    for expected in ["struct", "enum", "fn", "MY_CONST", "Kilometers"] {
        assert!(global.contains(&expected.to_string()), "{expected} missing from {global:?}");
    }
    assert!(!global.contains(&"let".to_string()));
    assert!(!global.contains(&"return".to_string()));

    let bloc_items = completion(&document, Position::new(11, 8), &analysis, &config).unwrap();
    let bloc = labels(&bloc_items);
    for expected in ["let", "if", "return", "my_local", "a", "MY_CONST", "add", "print"] {
        assert!(bloc.contains(&expected.to_string()), "{expected} missing from {bloc:?}");
    }
    // One proposal per label, ordered by label.
    let mut sorted = bloc.clone();
    sorted.sort();
    sorted.dedup();
    assert_eq!(bloc, sorted);
    // With snippets on, a call inserts its parameters as placeholders.
    let add = bloc_items.iter().find(|i| i.label == "add").unwrap();
    assert_eq!(add.insert_text.as_deref(), Some("add(${1:a})"));
    assert!(add.snippet);
    assert_eq!(add.sort_text, "02_add");
}

#[test]
fn completion_filters_by_prefix_ignoring_case() {
    let text = "fn main() { MA }";
    let document = Document::new(uri(), None, text.to_string());
    let mut analysis = AnalysisResult::empty(uri(), None, text.len());
    analysis.ast = Some(Ast { items: vec![function(1, "main", vec![], Block { statements: vec![], span: sp(10, 16) }, sp(0, 16))] });
    rebuild_indexes(&mut analysis, &TypeContext::new());
    let config = LspConfig::default();
    let found = labels(&completion(&document, Position::new(0, 14), &analysis, &config).unwrap());
    assert_eq!(found, vec!["main".to_string(), "match".to_string(), "max_f32".to_string(), "max_i32".to_string()]);
}

#[test]
fn completion_is_cut_to_the_item_limit() {
    let text = "";
    let document = Document::new(uri(), None, text.to_string());
    let analysis = AnalysisResult::empty(uri(), None, 0);
    let mut config = LspConfig::default();
    config.completion_max_items = 3;
    let found = completion(&document, Position::new(0, 0), &analysis, &config).unwrap();
    assert_eq!(labels(&found), vec!["bool".to_string(), "char".to_string(), "const".to_string()]);
}

#[test]
fn type_context_lists_each_entry_once() {
    let mut ctx = TypeContext::new();
    ctx.insert(NodeId(3), Type { id: NodeId(3), kind: TypeKind::Primitive(PrimitiveType::I32), span: Span::new(1, 0, 1) });
    ctx.insert(NodeId(5), Type { id: NodeId(5), kind: TypeKind::Primitive(PrimitiveType::Bool), span: Span::new(1, 2, 3) });
    ctx.insert(NodeId(3), Type { id: NodeId(3), kind: TypeKind::Primitive(PrimitiveType::Str), span: Span::new(1, 4, 5) });
    let mut entries = ctx.iter();
    entries.sort_by_key(|(id, _)| id.0);
    assert_eq!(entries.len(), 2);
    assert_eq!(entries[0].0, NodeId(3));
    assert!(matches!(entries[0].1.kind, TypeKind::Primitive(PrimitiveType::Str)));
    assert_eq!(entries[1].0, NodeId(5));
    assert!(matches!(entries[1].1.kind, TypeKind::Primitive(PrimitiveType::Bool)));
}
