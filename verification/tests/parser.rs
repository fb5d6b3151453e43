use siscript::ast::{ExprKind, ItemKind, PatternKind, StmtKind};
use siscript::parse_error::ParseErrorKind;
use siscript::parser::{parse_tokens, ParseResult, Parser};
use siscript::precedence::BinaryOp;
use siscript::span::Span;
use siscript::token::{Keyword, LiteralKind, Token, TokenKind};
use siscript::ty::TypeKind;

fn keyword(word: &str) -> Option<Keyword> {
    Some(match word {
        "struct" => Keyword::Struct,
        "fn" => Keyword::Fn,
        "export" => Keyword::Export,
        "extern" => Keyword::Extern,
        "const" => Keyword::Const,
        "let" => Keyword::Let,
        "mut" => Keyword::Mut,
        "return" => Keyword::Return,
        "break" => Keyword::Break,
        "continue" => Keyword::Continue,
        "while" => Keyword::While,
        "for" => Keyword::For,
        "in" => Keyword::In,
        "if" => Keyword::If,
        "else" => Keyword::Else,
        "match" => Keyword::Match,
        "true" => Keyword::True,
        "false" => Keyword::False,
        _ => return None,
    })
}

/// The tokens of the small sources below, ending with `Eof`.
fn lex(src: &str) -> Vec<Token> {
    let b = src.as_bytes();
    let mut i = 0;
    let mut out = Vec::new();
    while i < b.len() {
        let c = b[i];
        if c.is_ascii_whitespace() {
            i += 1;
            continue;
        }
        let start = i;
        let kind = if c.is_ascii_alphabetic() || c == b'_' {
            while i < b.len() && (b[i].is_ascii_alphanumeric() || b[i] == b'_') {
                i += 1;
            }
            let word = &src[start..i];
            match keyword(word) {
                Some(k) => TokenKind::Keyword(k),
                None => TokenKind::Ident(word.to_string()),
            }
        } else if c.is_ascii_digit() {
            while i < b.len() && (b[i].is_ascii_digit() || b[i] == b'_') {
                i += 1;
            }
            if i + 1 < b.len() && b[i] == b'.' && b[i + 1].is_ascii_digit() {
                i += 1;
                while i < b.len() && b[i].is_ascii_digit() {
                    i += 1;
                }
                TokenKind::Literal(LiteralKind::Float(src[start..i].to_string()))
            } else {
                TokenKind::Literal(LiteralKind::Integer(src[start..i].to_string()))
            }
        } else {
            let two = if i + 1 < b.len() { &src[i..i + 2] } else { "" };
            let pair = match two {
                "::" => Some(TokenKind::ColonColon),
                "==" => Some(TokenKind::EqEq),
                "!=" => Some(TokenKind::BangEq),
                "<=" => Some(TokenKind::LtEq),
                ">=" => Some(TokenKind::GtEq),
                "&&" => Some(TokenKind::AmpAmp),
                "||" => Some(TokenKind::PipePipe),
                "->" => Some(TokenKind::Arrow),
                "=>" => Some(TokenKind::FatArrow),
                _ => None,
            };
            match pair {
                Some(k) => {
                    i += 2;
                    k
                }
                None => {
                    i += 1;
                    match c {
                        b'(' => TokenKind::LParen,
                        b')' => TokenKind::RParen,
                        b'{' => TokenKind::LBrace,
                        b'}' => TokenKind::RBrace,
                        b'[' => TokenKind::LBracket,
                        b']' => TokenKind::RBracket,
                        b',' => TokenKind::Comma,
                        b';' => TokenKind::Semi,
                        b':' => TokenKind::Colon,
                        b'.' => TokenKind::Dot,
                        b'=' => TokenKind::Eq,
                        b'!' => TokenKind::Bang,
                        b'<' => TokenKind::Lt,
                        b'>' => TokenKind::Gt,
                        b'+' => TokenKind::Plus,
                        b'-' => TokenKind::Minus,
                        b'*' => TokenKind::Star,
                        b'/' => TokenKind::Slash,
                        b'%' => TokenKind::Percent,
                        b'&' => TokenKind::Amp,
                        b'|' => TokenKind::Pipe,
                        other => panic!("unexpected character {}", other as char),
                    }
                }
            }
        };
        out.push(Token { kind, span: Span::new(1, start as u32, i as u32) });
    }
    out.push(Token { kind: TokenKind::Eof, span: Span::new(1, b.len() as u32, b.len() as u32) });
    out
}

fn parse_source(input: &str) -> ParseResult {
    parse_tokens(lex(input))
}

#[test]
fn parses_function_item() {
    let result = parse_source("fn main() {}");

    assert!(result.errors.is_empty());
    assert_eq!(result.ast.items.len(), 1);
    assert!(matches!(result.ast.items[0].kind, ItemKind::Function(_)));
}

#[test]
fn parser_does_not_infinite_loop_on_garbage() {
    let result = parse_tokens(lex("arbitrary_ident ; another_one 123"));
    assert!(!result.errors.is_empty());
}

#[test]
fn parses_struct_enum_const_type_and_extern_export_functions() {
    let result = parse_source(
        "struct Position { x: f32, y: f32 }
         enum Direction { Left, Right }
         const SPEED: f32 = 1.0;
         type Index = u32;
         extern fn draw(pos: &Position);
         export fn update(pos: &mut Position) {}",
    );

    assert!(result.errors.is_empty(), "{:?}", result.errors);
    assert_eq!(result.ast.items.len(), 6);
    assert!(matches!(result.ast.items[0].kind, ItemKind::Struct(_)));
    assert!(matches!(result.ast.items[1].kind, ItemKind::Enum(_)));
    assert!(matches!(result.ast.items[2].kind, ItemKind::Const(_)));
    assert!(matches!(result.ast.items[3].kind, ItemKind::TypeAlias(_)));
    assert!(matches!(result.ast.items[4].kind, ItemKind::Function(_)));
    assert!(matches!(result.ast.items[5].kind, ItemKind::Function(_)));
}

#[test]
fn parses_struct_default_fields() {
    let result = parse_source("struct Position { x: f32 = 0.0, y: f32 = 0.0 }");

    assert!(result.errors.is_empty(), "{:?}", result.errors);
    let ItemKind::Struct(item) = &result.ast.items[0].kind else {
        panic!("expected struct");
    };
    assert_eq!(item.fields.len(), 2);
    assert!(item.fields.iter().all(|field| field.default.is_some()));
}

#[test]
fn parses_struct_methods_with_self_params() {
    let result = parse_source(
        "struct Position {
            x: f32,
            fn default() -> Position { Position { x: 0.0 } }
            fn length(&self) -> f32 { self.x }
            fn move_by(&mut self, dx: f32) { self.x = self.x + dx }
        }",
    );

    assert!(result.errors.is_empty(), "{:?}", result.errors);
    let ItemKind::Struct(item) = &result.ast.items[0].kind else {
        panic!("expected struct");
    };
    assert_eq!(item.fields.len(), 1);
    assert_eq!(item.methods.len(), 3);
    assert_eq!(item.methods[1].params[0].name, "self");
    assert_eq!(item.methods[2].params[0].name, "self");
}

#[test]
fn parses_statements_inside_function_body() {
    let result = parse_source("fn main() { let x: i32 = 1; while x < 10 { return x; } }");

    assert!(result.errors.is_empty(), "{:?}", result.errors);
    let ItemKind::Function(function) = &result.ast.items[0].kind else {
        panic!("expected function");
    };
    let body = function.body.as_ref().unwrap();
    assert_eq!(body.statements.len(), 2);
    assert!(matches!(body.statements[0].kind, StmtKind::Let { .. }));
    assert!(matches!(body.statements[1].kind, StmtKind::While { .. }));
}

#[test]
fn parses_mutable_let_and_match_expression() {
    let result = parse_source("fn main() { let mut x: i32 = 1; match x { zero => 1, _ => x } }");

    assert!(result.errors.is_empty(), "{:?}", result.errors);
    let ItemKind::Function(function) = &result.ast.items[0].kind else {
        panic!("expected function");
    };
    let body = function.body.as_ref().unwrap();
    let StmtKind::Let { pattern, .. } = &body.statements[0].kind else {
        panic!("expected let statement");
    };
    assert!(matches!(pattern.kind, PatternKind::Binding { mutable: true, .. }));
    let StmtKind::Expr(expr) = &body.statements[1].kind else {
        panic!("expected expression statement");
    };
    assert!(matches!(expr.kind, ExprKind::Match { ref arms, .. } if arms.len() == 2));
}

#[test]
fn reports_match_arm_without_fat_arrow() {
    let result = parse_source("fn main() { match x { _ 1 } }");

    assert!(!result.errors.is_empty());
    assert!(result.errors.iter().any(|error| matches!(error.kind, ParseErrorKind::ExpectedToken("=>"))));
}

#[test]
fn parses_expression_precedence() {
    let result = parse_source("fn main() { 1 + 2 * 3 }");

    assert!(result.errors.is_empty(), "{:?}", result.errors);
    let ItemKind::Function(function) = &result.ast.items[0].kind else {
        panic!("expected function");
    };
    let StmtKind::Expr(expr) = &function.body.as_ref().unwrap().statements[0].kind else {
        panic!("expected expression statement");
    };
    let ExprKind::Binary { op, right, .. } = &expr.kind else {
        panic!("expected binary expression");
    };
    assert_eq!(*op, BinaryOp::Add);
    assert!(matches!(right.kind, ExprKind::Binary { op: BinaryOp::Mul, .. }));
}

#[test]
fn parses_array_and_tuple_types() {
    let result = parse_source("fn f(a: [i32; 4], b: (i32, bool)) {}");

    assert!(result.errors.is_empty(), "{:?}", result.errors);
    let ItemKind::Function(function) = &result.ast.items[0].kind else {
        panic!("expected function");
    };
    assert!(matches!(function.params[0].ty.kind, TypeKind::Array { .. }));
    assert!(matches!(function.params[1].ty.kind, TypeKind::Tuple(_)));
}

#[test]
fn recovers_after_invalid_item() {
    let result = parse_tokens(lex("123 fn main() {}"));

    assert!(!result.errors.is_empty());
    assert_eq!(result.ast.items.len(), 1);
    assert!(matches!(result.ast.items[0].kind, ItemKind::Function(_)));
}

#[test]
fn parses_reference_type_in_function_param() {
    let result = parse_tokens(lex("fn f(x: &mut i32) {}"));

    assert!(result.errors.is_empty());
    let ItemKind::Function(function) = &result.ast.items[0].kind else {
        panic!("expected function");
    };
    assert!(matches!(function.params[0].ty.kind, TypeKind::Ref { mutable: true, .. }));
}

#[test]
fn array_lengths_ignore_underscores() {
    let result = parse_source("fn f(a: [i32; 1_000], b: [u8; 99999999999999999999]) {}");
    let ItemKind::Function(function) = &result.ast.items[0].kind else {
        panic!("expected function");
    };
    assert!(matches!(function.params[0].ty.kind, TypeKind::Array { len: 1000, .. }));
    // A length too large for 64 bits reads as 0.
    assert!(matches!(function.params[1].ty.kind, TypeKind::Array { len: 0, .. }));
}

#[test]
fn an_empty_source_gives_nothing() {
    let result = Parser::new(lex("")).parse();
    assert!(result.ast.items.is_empty());
    assert!(result.errors.is_empty());
}

#[test]
fn item_spans_run_from_first_to_last_token() {
    let source = "fn main() {}\nstruct P { x: i32 }";
    let result = parse_source(source);
    assert_eq!(result.ast.items.len(), 2);
    assert_eq!((result.ast.items[0].span.start, result.ast.items[0].span.end), (0, 12));
    assert_eq!((result.ast.items[1].span.start, result.ast.items[1].span.end), (13, 32));
}

#[test]
fn errors_point_at_tokens() {
    let tokens = lex("fn main( { let = ; }");
    let spans: Vec<(u32, u32)> = tokens.iter().map(|t| (t.span.start, t.span.end)).collect();
    let result = parse_tokens(tokens);
    assert!(!result.errors.is_empty());
    for error in &result.errors {
        assert!(spans.contains(&(error.span.start, error.span.end)));
    }
}
