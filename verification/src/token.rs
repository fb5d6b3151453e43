use vstd::prelude::*;

use crate::span::Span;

verus! {

/// Reserved words of the language.
#[derive(Clone, Copy, Debug, PartialEq, Eq, Structural)]
pub enum Keyword {
    Struct,
    Fn,
    Export,
    Extern,
    Const,
    Let,
    Mut,
    Return,
    Break,
    Continue,
    While,
    For,
    In,
    If,
    Else,
    Match,
    True,
    False,
}

/// Literal tokens; numbers keep their source text.
#[derive(Debug)]
pub enum LiteralKind {
    Integer(String),
    Float(String),
    String(String),
    CString(String),
    Char(String),
}

/// The kinds of tokens the lexer produces.
#[derive(Debug)]
pub enum TokenKind {
    Ident(String),
    Literal(LiteralKind),
    Keyword(Keyword),
    LParen,
    RParen,
    LBrace,
    RBrace,
    LBracket,
    RBracket,
    Comma,
    Semi,
    Colon,
    ColonColon,
    Dot,
    Eq,
    EqEq,
    Bang,
    BangEq,
    Lt,
    LtEq,
    Gt,
    GtEq,
    Plus,
    Minus,
    Star,
    Slash,
    Percent,
    Amp,
    AmpAmp,
    Pipe,
    PipePipe,
    Arrow,
    FatArrow,
    Eof,
}

/// A token with its source span.
#[derive(Debug)]
pub struct Token {
    pub kind: TokenKind,
    pub span: Span,
}

} // verus!
