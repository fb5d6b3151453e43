use siscript::analysis_model::{
    contains, type_to_string, AnalysisResult, SymbolEntry, SymbolEntryKind,
};
use siscript::completion::{function_snippet, get_receiver_expr};
use siscript::config::LspConfig;
use siscript::def::DefId;
use siscript::diagnostic::{Diagnostic, Severity};
use siscript::diagnostics::{adjust_span, diagnostic_code, diagnostic_to_lsp, report_to_lsp, span_to_range};
use siscript::document::{Document, Position};
use siscript::semantic_tokens::{encode_delta, primitive_name, SemanticToken};
use siscript::signature_help::find_active_call;
use siscript::span::{NodeId, Span};
use siscript::ty::{Path, PathSegment, PrimitiveType, Type, TypeKind};
use siscript::utf::{utf16_column_to_byte, utf16_len};

fn uri() -> lsp_types::Url {
    lsp_types::Url::parse("file:///test.si").unwrap()
}

#[test]
fn position_to_offset_handles_lines_and_utf16() {
    let document = Document::new(uri(), Some(1), "a\né𝄞b".to_string());

    assert_eq!(document.position_to_offset(Position::new(0, 1)), 1);
    assert_eq!(document.position_to_offset(Position::new(1, 1)), 4);
    assert_eq!(document.position_to_offset(Position::new(1, 3)), 8);
}

#[test]
fn offset_to_position_handles_lines_and_utf16() {
    let document = Document::new(uri(), Some(1), "a\né𝄞b".to_string());

    assert_eq!(document.offset_to_position(0), Position::new(0, 0));
    assert_eq!(document.offset_to_position(2), Position::new(1, 0));
    assert_eq!(document.offset_to_position(8), Position::new(1, 3));
}

#[test]
fn diagnostic_span_maps_to_lsp_range() {
    let document = Document::new(
        lsp_types::Url::parse("file:///diag.si").unwrap(),
        None,
        "let x\nbad".to_string(),
    );
    let diagnostic = Diagnostic::new("E0100 unknown name".to_string(), Span::new(1, 6, 9));
    let mapped = diagnostic_to_lsp(&document, &diagnostic);

    assert_eq!(mapped.range.start.line, 1);
    assert_eq!(mapped.range.start.character, 0);
    assert_eq!(mapped.range.end.character, 3);
    assert_eq!(mapped.code, Some("E0100".to_string()));
}

#[test]
fn diagnostic_hints_follow_the_message() {
    let document = Document::new(uri(), None, "x".to_string());
    let diagnostic = Diagnostic::new("E0300: use of `s` after move".to_string(), Span::new(1, 0, 0))
        .with_hint("clone it first")
        .with_hint("or borrow it");
    let mapped = diagnostic_to_lsp(&document, &diagnostic);
    assert_eq!(
        mapped.message,
        "E0300: use of `s` after move\n\nHint: clone it first\n\nHint: or borrow it"
    );
    assert_eq!(mapped.severity, Severity::Error);
    assert_eq!(mapped.source, "siscript");
    // The colon makes the first word six bytes long: no code is derived.
    assert_eq!(mapped.code, None);
    // An empty span still covers one byte.
    assert_eq!(mapped.range.start, Position::new(0, 0));
    assert_eq!(mapped.range.end, Position::new(0, 1));
}

#[test]
fn explicit_code_wins_over_message() {
    let document = Document::new(uri(), None, "x".to_string());
    let mut diagnostic = Diagnostic::new("E0100 unknown".to_string(), Span::new(1, 0, 1));
    diagnostic.code = Some("W1".to_string());
    let mapped = diagnostic_to_lsp(&document, &diagnostic);
    assert_eq!(mapped.code, Some("W1".to_string()));
}

#[test]
fn diagnostic_code_cases() {
    assert_eq!(diagnostic_code("E0100 unknown name"), Some("E0100".to_string()));
    assert_eq!(diagnostic_code("  E1234\tx"), Some("E1234".to_string()));
    assert_eq!(diagnostic_code("E0300: use"), None);
    assert_eq!(diagnostic_code("X0100 a"), None);
    assert_eq!(diagnostic_code("E01a0 a"), None);
    assert_eq!(diagnostic_code("E12345 x"), None);
    assert_eq!(diagnostic_code(""), None);
    assert_eq!(diagnostic_code("   "), None);
}

#[test]
fn span_to_range_maps_both_ends() {
    let document = Document::new(uri(), None, "ab\ncd".to_string());
    let range = span_to_range(&document, Span::new(1, 1, 4));
    assert_eq!(range.start, Position::new(0, 1));
    assert_eq!(range.end, Position::new(1, 1));
}

#[test]
fn adjust_span_finds_the_name() {
    let text = "let count = count + 1;";
    assert_eq!(adjust_span(text, Span::new(2, 0, 9), "count"), Span::new(2, 4, 9));
}

#[test]
fn adjust_span_skips_partial_words() {
    let text = "fn foo_bar(foo)";
    assert_eq!(adjust_span(text, Span::new(1, 0, 15), "foo"), Span::new(1, 11, 14));
}

#[test]
fn adjust_span_keeps_short_or_outside_spans() {
    let text = "let x = 1;";
    assert_eq!(adjust_span(text, Span::new(1, 4, 5), "x"), Span::new(1, 4, 5));
    assert_eq!(adjust_span(text, Span::new(1, 4, 40), "x"), Span::new(1, 4, 40));
    assert_eq!(adjust_span(text, Span::new(1, 0, 3), "y"), Span::new(1, 0, 3));
}

#[test]
fn function_snippet_numbers_parameters() {
    assert_eq!(function_snippet("add", "fn add(a: i32, b: i32) -> i32"), "add(${1:a}, ${2:b})");
    assert_eq!(function_snippet("with_x", "fn with_x(&mut self, value: f32)"), "with_x(${1:&mut self}, ${2:value})");
    assert_eq!(function_snippet("len", "fn len(self)"), "len()");
    assert_eq!(function_snippet("main", "fn main()"), "main()");
    assert_eq!(function_snippet("x", "no parens"), "x()");
    assert_eq!(function_snippet("f", "fn f( a , ,b)"), "f(${1:a}, ${2:b})");
}

#[test]
fn receiver_before_dot() {
    assert_eq!(get_receiver_expr("let p = point.", 13), Some("point".to_string()));
    assert_eq!(get_receiver_expr("self.pos .", 9), Some("pos".to_string()));
    assert_eq!(get_receiver_expr(".", 0), None);
    assert_eq!(get_receiver_expr("a + .", 4), None);
    assert_eq!(get_receiver_expr("é.", 2), Some("é".to_string()));
    assert_eq!(get_receiver_expr("é.", 1), None);
    assert_eq!(get_receiver_expr("x", 5), None);
}

#[test]
fn active_call_and_argument() {
    assert_eq!(find_active_call("    add(1, 2);", 9), Some(("add".to_string(), 0)));
    assert_eq!(find_active_call("    add(1, 2);", 12), Some(("add".to_string(), 1)));
    assert_eq!(find_active_call("add(add(1, 2), 3)", 16), Some(("add".to_string(), 1)));
    assert_eq!(find_active_call("x = 1", 3), None);
}

#[test]
fn utf16_counts() {
    assert_eq!(utf16_len("a𝄞"), 3);
    assert_eq!(utf16_len(""), 0);
    assert_eq!(utf16_column_to_byte("é𝄞b", 3), 6);
    assert_eq!(utf16_column_to_byte("é𝄞b", 2), 2);
    assert_eq!(utf16_column_to_byte("ab\ncd", 9), 2);
}

#[test]
fn empty_span_contains_its_start() {
    assert!(contains(Span::new(1, 5, 5), 5));
    assert!(!contains(Span::new(1, 5, 5), 6));
    assert!(contains(Span::new(1, 5, 8), 7));
    assert!(!contains(Span::new(1, 5, 8), 8));
    assert!(!contains(Span::new(1, 5, 8), 4));
}

fn ty(kind: TypeKind) -> Type {
    Type { id: NodeId(0), kind, span: Span::new(0, 0, 0) }
}

fn seg(name: &str) -> PathSegment {
    PathSegment { name: name.to_string(), span: Span::new(0, 0, 0) }
}

#[test]
fn type_text_forms() {
    let i32_ty = ty(TypeKind::Primitive(PrimitiveType::I32));
    let array = ty(TypeKind::Ref {
        mutable: true,
        ty: Box::new(ty(TypeKind::Array {
            ty: Box::new(ty(TypeKind::Primitive(PrimitiveType::I32))),
            len: 4,
        })),
    });
    assert_eq!(type_to_string(&array), "&mut [i32; 4]");
    let path = ty(TypeKind::Path(Path {
        id: NodeId(0),
        segments: vec![seg("Color"), seg("Red")],
        span: Span::new(0, 0, 0),
    }));
    let tuple = ty(TypeKind::Tuple(vec![i32_ty, path]));
    assert_eq!(type_to_string(&tuple), "(i32, Color::Red)");
    let slice = ty(TypeKind::Slice(Box::new(ty(TypeKind::Primitive(PrimitiveType::Str)))));
    assert_eq!(type_to_string(&slice), "str[]");
    assert_eq!(type_to_string(&ty(TypeKind::Void)), "void");
    assert_eq!(
        type_to_string(&ty(TypeKind::Ref {
            mutable: false,
            ty: Box::new(ty(TypeKind::Primitive(PrimitiveType::CStr)))
        })),
        "&cstr"
    );
    assert_eq!(type_to_string(&ty(TypeKind::Tuple(vec![]))), "()");
}

fn entry(name: &str, start: u32, end: u32, def: Option<u32>) -> SymbolEntry {
    SymbolEntry {
        name: name.to_string(),
        kind: SymbolEntryKind::Local,
        span: Span::new(1, start, end),
        selection_span: Span::new(1, start, end),
        def_id: def.map(DefId),
        detail: None,
        parent: None,
    }
}

#[test]
fn symbol_at_prefers_shortest_then_first() {
    let mut analysis = AnalysisResult::empty(uri(), Some(1), 40);
    analysis.symbol_index.entries = vec![
        entry("outer", 0, 20, Some(1)),
        entry("a", 5, 8, Some(2)),
        entry("b", 6, 9, Some(3)),
    ];
    assert_eq!(analysis.find_symbol_at(7).map(|e| e.name.clone()), Some("a".to_string()));
    assert_eq!(analysis.find_symbol_at(8).map(|e| e.name.clone()), Some("b".to_string()));
    assert_eq!(analysis.find_symbol_at(15).map(|e| e.name.clone()), Some("outer".to_string()));
    assert!(analysis.find_symbol_at(25).is_none());
    assert_eq!(analysis.def_at(7), Some(DefId(2)));
}

#[test]
fn def_at_falls_back_to_references() {
    let mut analysis = AnalysisResult::empty(uri(), None, 40);
    analysis.symbol_index.entries = vec![entry("x", 0, 3, None)];
    analysis.reference_index.references.insert(9, vec![Span::new(1, 30, 33)]);
    analysis.reference_index.references.insert(4, vec![Span::new(1, 1, 2)]);
    assert_eq!(analysis.def_at(1), Some(DefId(4)));
    assert_eq!(analysis.def_at(31), Some(DefId(9)));
    assert_eq!(analysis.def_at(20), None);
}

#[test]
fn empty_analysis_has_nothing() {
    let analysis = AnalysisResult::empty(uri(), Some(3), 12);
    assert!(analysis.ast.is_none());
    assert!(analysis.symbol_index.entries.is_empty());
    assert_eq!(analysis.metadata.map(|m| m.source_len), Some(12));
    assert_eq!(analysis.version, Some(3));
}

#[test]
fn tokens_encode_relatively() {
    let tokens = vec![
        (Position::new(0, 3), 4, 1),
        (Position::new(0, 10), 2, 2),
        (Position::new(2, 1), 5, 3),
    ];
    let encoded = encode_delta(tokens);
    assert_eq!(
        encoded,
        vec![
            SemanticToken { delta_line: 0, delta_start: 3, length: 4, token_type: 1, token_modifiers_bitset: 0 },
            SemanticToken { delta_line: 0, delta_start: 7, length: 2, token_type: 2, token_modifiers_bitset: 0 },
            SemanticToken { delta_line: 2, delta_start: 1, length: 5, token_type: 3, token_modifiers_bitset: 0 },
        ]
    );
}

#[test]
fn primitive_names_are_recognised() {
    assert!(primitive_name("i32"));
    assert!(primitive_name("cstr"));
    assert!(!primitive_name("string"));
}

#[test]
fn default_config_values() {
    let config = LspConfig::default();
    assert!(config.hover);
    assert!(!config.trace);
    assert_eq!(config.max_file_size, 2 * 1024 * 1024);
}

#[test]
fn report_converts_each_diagnostic_in_order() {
    let report = vec![
        Diagnostic::new("E0100 unknown name".to_string(), Span::new(1, 6, 9)),
        Diagnostic::new("E0300: use of `s` after move".to_string(), Span::new(1, 0, 3)),
    ];
    let mapped = report_to_lsp(&uri(), "let x\nbad", &report);
    assert_eq!(mapped.len(), 2);
    assert_eq!(mapped[0].range.start.line, 1);
    assert_eq!(mapped[0].code, Some("E0100".to_string()));
    assert_eq!(mapped[1].range.start.line, 0);
    assert_eq!(mapped[1].range.end.character, 3);
    // A code followed by a colon is not taken from the message.
    assert_eq!(mapped[1].code, None);
}

#[test]
fn empty_report_converts_to_nothing() {
    assert!(report_to_lsp(&uri(), "x", &Vec::new()).is_empty());
}

#[test]
fn cloned_document_keeps_text_and_version() {
    let document = Document::new(uri(), Some(3), "fn main() {}".to_string());
    let copy = document.clone();
    assert_eq!(copy.text().as_str(), "fn main() {}");
    assert_eq!(copy.version, Some(3));
    assert_eq!(copy.uri, uri());
}
