use siscript::analysis_model::{AnalysisResult, SymbolEntry, SymbolEntryKind};
use siscript::ast::{
    Ast, Block, ConstItem, Expr, ExprKind, FunctionItem, FunctionKind, Item, ItemKind, LiteralExpr,
    Pattern, PatternKind, Stmt, StmtKind,
};
use siscript::completion_context::derive_context;
use siscript::def::DefId;
use siscript::document::{Document, Position};
use siscript::mutability_finder::binding_mutability;
use siscript::span::{NodeId, Span};
use siscript::ty::{PrimitiveType, Type, TypeKind};

fn uri() -> lsp_types::Url {
    lsp_types::Url::parse("file:///ctx.si").unwrap()
}

fn sp(start: u32, end: u32) -> Span {
    Span::new(1, start, end)
}

fn let_stmt(name: &str, mutable: bool, pat: Span, stmt: Span) -> Stmt {
    Stmt {
        id: NodeId(0),
        kind: StmtKind::Let {
            pattern: Pattern {
                id: NodeId(0),
                kind: PatternKind::Binding { name: name.to_string(), mutable },
                span: pat,
            },
            ty: None,
            value: Some(Expr {
                id: NodeId(0),
                kind: ExprKind::Literal(LiteralExpr::Integer("1".to_string())),
                span: stmt,
            }),
        },
        span: stmt,
    }
}

fn main_with(body: Vec<Stmt>, item_span: Span, body_span: Span) -> Item {
    Item {
        id: NodeId(0),
        kind: ItemKind::Function(FunctionItem {
            kind: FunctionKind::Normal,
            name: "main".to_string(),
            params: vec![],
            return_ty: None,
            body: Some(Block { statements: body, span: body_span }),
        }),
        span: item_span,
    }
}

#[test]
fn dot_after_local_gives_its_type_and_mutability() {
    let text = "fn main() {\n    let mut p = 1;\n    p.\n}";
    let document = Document::new(uri(), Some(1), text.to_string());
    let mut analysis = AnalysisResult::empty(uri(), Some(1), text.len());
    analysis.ast = Some(Ast {
        items: vec![main_with(vec![let_stmt("p", true, sp(24, 25), sp(16, 30))], sp(0, 39), sp(10, 39))],
    });
    analysis.symbol_index.entries = vec![SymbolEntry {
        name: "p".to_string(),
        kind: SymbolEntryKind::Local,
        span: sp(16, 30),
        selection_span: sp(24, 25),
        def_id: Some(DefId(1)),
        detail: Some("i32".to_string()),
        parent: None,
    }];
    analysis.definition_index.definitions.insert(1, sp(24, 25));
    let ctx = derive_context(&document, Position::new(2, 6), &analysis);
    assert_eq!(ctx.trigger, Some(".".to_string()));
    assert_eq!(ctx.receiver_type, Some("i32".to_string()));
    assert!(ctx.receiver_is_mut);
    assert_eq!(ctx.prefix, "");
    assert!(ctx.inside_function);
    assert!(!ctx.inside_struct);
    assert_eq!(ctx.path_context, None);
    assert_eq!(ctx.position, Position::new(2, 6));
}

#[test]
fn path_separator_gives_the_path() {
    let text = "let x = Color::Re";
    let document = Document::new(uri(), None, text.to_string());
    let analysis = AnalysisResult::empty(uri(), None, text.len());
    let ctx = derive_context(&document, Position::new(0, 17), &analysis);
    assert_eq!(ctx.trigger, Some("::".to_string()));
    assert_eq!(ctx.path_context, Some("Color".to_string()));
    assert_eq!(ctx.prefix, "Re");
    assert_eq!(ctx.receiver_type, None);
    assert!(!ctx.inside_function);
}

#[test]
fn constant_receiver_uses_its_written_type() {
    let text = "LIMIT .";
    let document = Document::new(uri(), None, text.to_string());
    let mut analysis = AnalysisResult::empty(uri(), None, text.len());
    analysis.ast = Some(Ast {
        items: vec![Item {
            id: NodeId(0),
            kind: ItemKind::Const(ConstItem {
                name: "LIMIT".to_string(),
                ty: Type { id: NodeId(0), kind: TypeKind::Primitive(PrimitiveType::U8), span: sp(0, 0) },
                value: Expr {
                    id: NodeId(0),
                    kind: ExprKind::Literal(LiteralExpr::Integer("3".to_string())),
                    span: sp(0, 0),
                },
            }),
            span: sp(100, 120),
        }],
    });
    let ctx = derive_context(&document, Position::new(0, 7), &analysis);
    assert_eq!(ctx.trigger, Some(".".to_string()));
    assert_eq!(ctx.receiver_type, Some("u8".to_string()));
    assert!(!ctx.receiver_is_mut);
}

#[test]
fn plain_word_has_no_trigger() {
    let text = "fn main() { pri }";
    let document = Document::new(uri(), None, text.to_string());
    let mut analysis = AnalysisResult::empty(uri(), None, text.len());
    analysis.ast = Some(Ast { items: vec![main_with(vec![], sp(0, 17), sp(10, 17))] });
    let ctx = derive_context(&document, Position::new(0, 15), &analysis);
    assert_eq!(ctx.trigger, None);
    assert_eq!(ctx.prefix, "pri");
    assert!(ctx.inside_function);
}

#[test]
fn binding_mutability_finds_the_pattern() {
    let body = Block {
        statements: vec![let_stmt("a", false, sp(4, 5), sp(0, 9)), let_stmt("b", true, sp(18, 19), sp(10, 22))],
        span: sp(0, 30),
    };
    assert_eq!(binding_mutability(&body, sp(18, 19)), Some(true));
    assert_eq!(binding_mutability(&body, sp(4, 5)), Some(false));
    assert_eq!(binding_mutability(&body, sp(7, 8)), None);
}
