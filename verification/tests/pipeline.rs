use siscript::analysis::analyze_ast;
use siscript::analysis_model::AnalysisResult;
use siscript::document::{Document, Position};
use siscript::navigation::hover;
use siscript::parser::parse_tokens;
use siscript::semantic_tokens::{legend, semantic_tokens, SemanticToken};
use siscript::span::Span;
use siscript::token::{Keyword, LiteralKind, Token, TokenKind};
use siscript::workspace::workspace_symbols;

fn keyword(word: &str) -> Option<Keyword> {
    Some(match word {
        "struct" => Keyword::Struct,
        "fn" => Keyword::Fn,
        "export" => Keyword::Export,
        "extern" => Keyword::Extern,
        "const" => Keyword::Const,
        "let" => Keyword::Let,
        "mut" => Keyword::Mut,
        "return" => Keyword::Return,
        "break" => Keyword::Break,
        "continue" => Keyword::Continue,
        "while" => Keyword::While,
        "for" => Keyword::For,
        "in" => Keyword::In,
        "if" => Keyword::If,
        "else" => Keyword::Else,
        "match" => Keyword::Match,
        "true" => Keyword::True,
        "false" => Keyword::False,
        _ => return None,
    })
}

/// The tokens of the small sources below, ending with `Eof`.
fn lex(src: &str) -> Vec<Token> {
    let b = src.as_bytes();
    let mut i = 0;
    let mut out = Vec::new();
    while i < b.len() {
        let c = b[i];
        if c.is_ascii_whitespace() {
            i += 1;
            continue;
        }
        let start = i;
        let kind = if c.is_ascii_alphabetic() || c == b'_' {
            while i < b.len() && (b[i].is_ascii_alphanumeric() || b[i] == b'_') {
                i += 1;
            }
            let word = &src[start..i];
            match keyword(word) {
                Some(k) => TokenKind::Keyword(k),
                None => TokenKind::Ident(word.to_string()),
            }
        } else if c.is_ascii_digit() {
            while i < b.len() && (b[i].is_ascii_digit() || b[i] == b'_') {
                i += 1;
            }
            if i + 1 < b.len() && b[i] == b'.' && b[i + 1].is_ascii_digit() {
                i += 1;
                while i < b.len() && b[i].is_ascii_digit() {
                    i += 1;
                }
                TokenKind::Literal(LiteralKind::Float(src[start..i].to_string()))
            } else {
                TokenKind::Literal(LiteralKind::Integer(src[start..i].to_string()))
            }
        } else {
            let two = if i + 1 < b.len() { &src[i..i + 2] } else { "" };
            let pair = match two {
                "::" => Some(TokenKind::ColonColon),
                "==" => Some(TokenKind::EqEq),
                "!=" => Some(TokenKind::BangEq),
                "<=" => Some(TokenKind::LtEq),
                ">=" => Some(TokenKind::GtEq),
                "&&" => Some(TokenKind::AmpAmp),
                "||" => Some(TokenKind::PipePipe),
                "->" => Some(TokenKind::Arrow),
                "=>" => Some(TokenKind::FatArrow),
                _ => None,
            };
            match pair {
                Some(k) => {
                    i += 2;
                    k
                }
                None => {
                    i += 1;
                    match c {
                        b'(' => TokenKind::LParen,
                        b')' => TokenKind::RParen,
                        b'{' => TokenKind::LBrace,
                        b'}' => TokenKind::RBrace,
                        b'[' => TokenKind::LBracket,
                        b']' => TokenKind::RBracket,
                        b',' => TokenKind::Comma,
                        b';' => TokenKind::Semi,
                        b':' => TokenKind::Colon,
                        b'.' => TokenKind::Dot,
                        b'=' => TokenKind::Eq,
                        b'!' => TokenKind::Bang,
                        b'<' => TokenKind::Lt,
                        b'>' => TokenKind::Gt,
                        b'+' => TokenKind::Plus,
                        b'-' => TokenKind::Minus,
                        b'*' => TokenKind::Star,
                        b'/' => TokenKind::Slash,
                        b'%' => TokenKind::Percent,
                        b'&' => TokenKind::Amp,
                        b'|' => TokenKind::Pipe,
                        other => panic!("unexpected character {}", other as char),
                    }
                }
            }
        };
        out.push(Token { kind, span: Span::new(1, start as u32, i as u32) });
    }
    out.push(Token { kind: TokenKind::Eof, span: Span::new(1, b.len() as u32, b.len() as u32) });
    out
}

/// Lexes, parses and analyses `text` as the document at `uri`.
fn analyze_source(uri: &str, text: &str) -> (Document, AnalysisResult) {
    let url = lsp_types::Url::parse(uri).unwrap();
    let parsed = parse_tokens(lex(text));
    let analysis = analyze_ast(url.clone(), Some(1), text.len(), parsed.ast, parsed.errors);
    (Document::new(url, Some(1), text.to_string()), analysis)
}

fn decode_tokens(tokens: &[SemanticToken]) -> Vec<(Position, u32, u32)> {
    let mut line = 0;
    let mut character = 0;
    let mut decoded = Vec::new();
    for token in tokens {
        line += token.delta_line;
        if token.delta_line == 0 {
            character += token.delta_start;
        } else {
            character = token.delta_start;
        }
        decoded.push((Position::new(line, character), token.length, token.token_type));
    }
    decoded
}

fn has_token(document: &Document, tokens: &[(Position, u32, u32)], text: &str, context: &str, needle: &str, token_type: u32) -> bool {
    let context_start = text.find(context).unwrap();
    let needle_start = text[context_start..].find(needle).unwrap();
    let offset = context_start + needle_start;
    let position = document.offset_to_position(offset);
    tokens.iter().any(|(token_pos, len, kind)| *token_pos == position && *len == needle.len() as u32 && *kind == token_type)
}

#[test]
fn semantic_tokens_non_empty_and_fallback() {
    let text = "fn main() { let x = 1; }";
    let (document, analysis) = analyze_source("file:///tokens.si", text);
    let lexed = lex(text);
    assert!(!semantic_tokens(&document, &analysis, Some(&lexed)).data.is_empty());

    let invalid_text = "fn main( { let x = 1; }";
    let (invalid_document, invalid) = analyze_source("file:///tokens.si", invalid_text);
    let lexed = lex(invalid_text);
    assert!(!semantic_tokens(&invalid_document, &invalid, Some(&lexed)).data.is_empty());
}

#[test]
fn semantic_tokens_cover_struct_methods_and_self() {
    let text = "\nstruct Position {\n    x: f32 = 0,\n    y: f32 = 0,\n\n    fn default() -> Possition {\n        Position {}\n    }\n\n    fn with_x(&mut self, value: f32) -> &mut Position {\n        self.x = value;\n    }\n}\n";
    let (document, analysis) = analyze_source("file:///method_tokens.si", text);
    let lexed = lex(text);
    let tokens = semantic_tokens(&document, &analysis, Some(&lexed));
    let decoded = decode_tokens(&tokens.data);

    assert!(has_token(&document, &decoded, text, "fn default", "fn", 0));
    assert!(has_token(&document, &decoded, text, "default() ->", "default", 2));
    assert!(has_token(&document, &decoded, text, "&mut self", "&", 12));
    assert!(has_token(&document, &decoded, text, "&mut self", "mut", 0));
    assert!(has_token(&document, &decoded, text, "&mut self", "self", 4));
    assert!(has_token(&document, &decoded, text, "self.x = value", "self", 3));
    assert!(has_token(&document, &decoded, text, "self.x = value", "x", 9));
    assert!(has_token(&document, &decoded, text, "self.x = value", "=", 12));
}

#[test]
fn semantic_tokens_without_the_lexer_come_from_symbols() {
    let text = "fn main() { let x = 1; }";
    let (document, analysis) = analyze_source("file:///symbols_only.si", text);
    let decoded = decode_tokens(&semantic_tokens(&document, &analysis, None).data);
    // `main` as a function, `x` as a variable, and nothing else.
    assert_eq!(decoded, vec![(Position::new(0, 3), 4, 1), (Position::new(0, 16), 1, 3)]);
}

#[test]
fn semantic_tokens_are_ordered_and_unique() {
    let text = "struct P { x: i32 }\nfn main() { let p = P { x: 1 }; p.x; }";
    let (document, analysis) = analyze_source("file:///order.si", text);
    let lexed = lex(text);
    let decoded = decode_tokens(&semantic_tokens(&document, &analysis, Some(&lexed)).data);
    for pair in decoded.windows(2) {
        let a = (pair[0].0.line, pair[0].0.character, pair[0].1);
        let b = (pair[1].0.line, pair[1].0.character, pair[1].1);
        assert!(a < b, "{a:?} then {b:?}");
    }
}

#[test]
fn legend_names_the_token_types_in_order() {
    let legend = legend();
    assert_eq!(legend.token_types.len(), 13);
    assert_eq!(legend.token_types[0], "keyword");
    assert_eq!(legend.token_types[2], "method");
    assert_eq!(legend.token_types[12], "operator");
    assert!(legend.token_modifiers.is_empty());
}

#[test]
fn test_workspace_symbols_all() {
    let text1 = "struct Position { x: f32 }";
    let text2 = "fn add_vals() {}";
    let (document1, analysis1) = analyze_source("file:///a.si", text1);
    let (document2, analysis2) = analyze_source("file:///b.si", text2);
    let documents = vec![document1, document2];
    let analyses = vec![analysis1, analysis2];

    let syms_all = workspace_symbols(&documents, &analyses, "");
    assert_eq!(syms_all.len(), 2);

    let syms_exact = workspace_symbols(&documents, &analyses, "Position");
    assert_eq!(syms_exact.len(), 1);
    assert_eq!(syms_exact[0].name, "Position");

    let syms_part = workspace_symbols(&documents, &analyses, "add");
    assert_eq!(syms_part.len(), 1);
    assert_eq!(syms_part[0].name, "add_vals");

    let syms_empty = workspace_symbols(&documents, &analyses, "NonExistent");
    assert_eq!(syms_empty.len(), 0);
}

#[test]
fn workspace_symbols_ignore_case_and_skip_closed_documents() {
    let (document1, analysis1) = analyze_source("file:///a.si", "struct Position { x: f32 }");
    let (_, analysis2) = analyze_source("file:///b.si", "fn position_of() {}");
    let documents = vec![document1];
    let analyses = vec![analysis1, analysis2];
    let found = workspace_symbols(&documents, &analyses, "POSITION");
    // Only the open document is searched.
    assert_eq!(found.len(), 1);
    assert_eq!(found[0].name, "Position");
    assert_eq!(found[0].location.uri.as_str(), "file:///a.si");
    assert_eq!((found[0].location.range.start.character, found[0].location.range.end.character), (0, 26));
}

#[test]
fn hover_from_source() {
    let text = "fn add(a: i32, b: i32) -> i32 { return a + b; } fn main() { add(1, 2); }";
    let (document, analysis) = analyze_source("file:///hover.si", text);
    let shown = hover(&document, Position::new(0, 60), &analysis).unwrap();
    assert!(shown.contains("fn add(a: i32, b: i32) -> i32"));
}
