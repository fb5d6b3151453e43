use vstd::prelude::*;

use crate::ast::{
    Ast, ConstItem, EnumItem, EnumVariant, FunctionItem, FunctionKind, FunctionParam, Item, ItemKind, Pattern,
    PatternKind, StructField, StructItem, TypeAliasItem,
};
use crate::parse_error::{ParseError, ParseErrorKind};
use crate::span::{NodeId, Span};
use crate::text::str_eq;
use crate::token::{Keyword, LiteralKind, Token, TokenKind};
use crate::ty::{primitive_type, spec_primitive_type, Path, PathSegment, Type, TypeKind, TypeShape};

verus! {

/// A number for each kind of token, its payload left out.
pub open spec fn tag(k: TokenKind) -> int {
    match k {
        TokenKind::Ident(_) => 0,
        TokenKind::Literal(_) => 1,
        TokenKind::Keyword(_) => 2,
        TokenKind::LParen => 3,
        TokenKind::RParen => 4,
        TokenKind::LBrace => 5,
        TokenKind::RBrace => 6,
        TokenKind::LBracket => 7,
        TokenKind::RBracket => 8,
        TokenKind::Comma => 9,
        TokenKind::Semi => 10,
        TokenKind::Colon => 11,
        TokenKind::ColonColon => 12,
        TokenKind::Dot => 13,
        TokenKind::Eq => 14,
        TokenKind::EqEq => 15,
        TokenKind::Bang => 16,
        TokenKind::BangEq => 17,
        TokenKind::Lt => 18,
        TokenKind::LtEq => 19,
        TokenKind::Gt => 20,
        TokenKind::GtEq => 21,
        TokenKind::Plus => 22,
        TokenKind::Minus => 23,
        TokenKind::Star => 24,
        TokenKind::Slash => 25,
        TokenKind::Percent => 26,
        TokenKind::Amp => 27,
        TokenKind::AmpAmp => 28,
        TokenKind::Pipe => 29,
        TokenKind::PipePipe => 30,
        TokenKind::Arrow => 31,
        TokenKind::FatArrow => 32,
        TokenKind::Eof => 33,
    }
}

fn tag_of(k: &TokenKind) -> (r: u8)
    ensures
        r == tag(*k),
{
    match k {
        TokenKind::Ident(_) => 0,
        TokenKind::Literal(_) => 1,
        TokenKind::Keyword(_) => 2,
        TokenKind::LParen => 3,
        TokenKind::RParen => 4,
        TokenKind::LBrace => 5,
        TokenKind::RBrace => 6,
        TokenKind::LBracket => 7,
        TokenKind::RBracket => 8,
        TokenKind::Comma => 9,
        TokenKind::Semi => 10,
        TokenKind::Colon => 11,
        TokenKind::ColonColon => 12,
        TokenKind::Dot => 13,
        TokenKind::Eq => 14,
        TokenKind::EqEq => 15,
        TokenKind::Bang => 16,
        TokenKind::BangEq => 17,
        TokenKind::Lt => 18,
        TokenKind::LtEq => 19,
        TokenKind::Gt => 20,
        TokenKind::GtEq => 21,
        TokenKind::Plus => 22,
        TokenKind::Minus => 23,
        TokenKind::Star => 24,
        TokenKind::Slash => 25,
        TokenKind::Percent => 26,
        TokenKind::Amp => 27,
        TokenKind::AmpAmp => 28,
        TokenKind::Pipe => 29,
        TokenKind::PipePipe => 30,
        TokenKind::Arrow => 31,
        TokenKind::FatArrow => 32,
        TokenKind::Eof => 33,
    }
}

/// Whether two token kinds are the same kind, payloads aside.
pub fn same_token(left: &TokenKind, right: &TokenKind) -> (r: bool)
    ensures
        r == (tag(*left) == tag(*right)),
{
    tag_of(left) == tag_of(right)
}

/// Whether a token can start an item.
pub open spec fn spec_is_item_start(k: TokenKind) -> bool {
    match k {
        TokenKind::Keyword(kw) => kw == Keyword::Struct || kw == Keyword::Fn || kw == Keyword::Export || kw
            == Keyword::Extern || kw == Keyword::Const,
        TokenKind::Ident(name) => name@ == "type"@ || name@ == "enum"@,
        _ => false,
    }
}

pub fn is_item_start(kind: &TokenKind) -> (r: bool)
    ensures
        r == spec_is_item_start(*kind),
{
    match kind {
        TokenKind::Keyword(kw) => match kw {
            Keyword::Struct | Keyword::Fn | Keyword::Export | Keyword::Extern | Keyword::Const => true,
            _ => false,
        },
        TokenKind::Ident(name) => str_eq(name.as_str(), "type") || str_eq(name.as_str(), "enum"),
        _ => false,
    }
}

/// Whether `s` is the span of one of `tokens`.
pub open spec fn is_token_span(tokens: Seq<Token>, s: Span) -> bool {
    exists|i: int| 0 <= i < tokens.len() && (#[trigger] tokens[i]).span == s
}

/// Whether `s` runs from the start of one token to the end of a token.
pub open spec fn between_tokens(tokens: Seq<Token>, s: Span) -> bool {
    exists|i: int, j: int|
        0 <= i < tokens.len() && 0 <= j < tokens.len() && s.file == (#[trigger] tokens[i]).span.file && s.start
            == tokens[i].span.start && s.end == (#[trigger] tokens[j]).span.end
}

/// Whether one of `tokens` is the identifier `name`.
pub open spec fn is_ident_token(tokens: Seq<Token>, name: Seq<char>) -> bool {
    exists|i: int| 0 <= i < tokens.len() && ((#[trigger] tokens[i]).kind matches TokenKind::Ident(n) && n@ == name)
}

/// Every error lies on a token.
pub open spec fn errors_on_tokens(tokens: Seq<Token>, errors: Seq<ParseError>) -> bool {
    forall|k: int| 0 <= k < errors.len() ==> is_token_span(tokens, (#[trigger] errors[k]).span)
}

/// The result of parsing: the tree and the errors met.
#[derive(Debug)]
pub struct ParseResult {
    pub ast: Ast,
    pub errors: Vec<ParseError>,
}

/// The further segments of a path whose first segment ends before `pos`:
/// `::` and a name, again and again; and where the path ends.
pub open spec fn path_rest(toks: Seq<Token>, pos: int) -> (Seq<Seq<char>>, int)
    decreases toks.len() - pos,
{
    if 0 <= pos && pos + 1 < toks.len() && toks[pos].kind is ColonColon {
        match toks[pos + 1].kind {
            TokenKind::Ident(n) => {
                let (rest, e) = path_rest(toks, pos + 2);
                (seq![n@] + rest, e)
            },
            _ => (seq![], pos + 1),
        }
    } else {
        (seq![], pos)
    }
}

/// The type written at `pos`, if one is, and where reading it stops: a
/// name (a primitive, else a path), `&` or `&mut` and a type, `[T]` or
/// `[T; n]`, or a parenthesised list of types.
pub open spec fn type_parse(toks: Seq<Token>, pos: int) -> (Option<TypeShape>, int)
    decreases toks.len() - pos, 0nat,
{
    if pos < 0 || pos + 1 >= toks.len() {
        (None, pos)
    } else {
        match toks[pos].kind {
            TokenKind::Ident(n) => match spec_primitive_type(n@) {
                Some(p) => (Some(TypeShape::Primitive(p)), pos + 1),
                None => {
                    let (rest, e) = path_rest(toks, pos + 1);
                    (Some(TypeShape::Path(seq![n@] + rest)), e)
                },
            },
            TokenKind::Amp => {
                let m = toks[pos + 1].kind == TokenKind::Keyword(Keyword::Mut);
                let p2 = if m {
                    pos + 2
                } else {
                    pos + 1
                };
                let (inner, e) = type_parse(toks, p2);
                match inner {
                    Some(t) => (Some(TypeShape::Ref { mutable: m, ty: Box::new(t) }), e),
                    None => (None, e),
                }
            },
            TokenKind::LBracket => {
                let (inner, e) = type_parse(toks, pos + 1);
                match inner {
                    None => (None, e),
                    Some(t) => if 0 <= e && e + 1 < toks.len() && toks[e].kind is Semi {
                        let n: u64 = match toks[e + 1].kind {
                            TokenKind::Literal(LiteralKind::Integer(raw)) => spec_array_len(raw@),
                            _ => 0,
                        };
                        let e2 = if toks[e + 1].kind matches TokenKind::Literal(LiteralKind::Integer(_)) {
                            e + 2
                        } else {
                            e + 1
                        };
                        (Some(TypeShape::Array { ty: Box::new(t), len: n }), closing(toks, e2, TokenKind::RBracket))
                    } else {
                        (Some(TypeShape::Slice(Box::new(t))), closing(toks, e, TokenKind::RBracket))
                    },
                }
            },
            TokenKind::LParen => {
                let (ts, e) = if toks[pos + 1].kind is RParen {
                    (seq![], pos + 1)
                } else {
                    type_list_parse(toks, pos + 1)
                };
                (Some(TypeShape::Tuple(ts)), closing(toks, e, TokenKind::RParen))
            },
            _ => (None, pos),
        }
    }
}

/// Where reading stops after expecting `kind` at `pos`: past it if it is
/// there.
pub open spec fn closing(toks: Seq<Token>, pos: int, kind: TokenKind) -> int {
    if 0 <= pos < toks.len() && tag(toks[pos].kind) == tag(kind) {
        pos + 1
    } else {
        pos
    }
}

/// The types of a comma-separated list starting at `p` (those that could
/// not be read are left out), and where the list stops.
pub open spec fn type_list_parse(toks: Seq<Token>, p: int) -> (Seq<TypeShape>, int)
    decreases toks.len() - p, 1nat,
{
    if p < 0 || p >= toks.len() {
        (seq![], p)
    } else {
        let (o, e) = type_parse(toks, p);
        let here = match o {
            Some(t) => seq![t],
            None => seq![],
        };
        if p <= e && e + 1 < toks.len() && toks[e].kind is Comma {
            let (rest, e2) = type_list_parse(toks, e + 1);
            (here + rest, e2)
        } else {
            (here, e)
        }
    }
}

/// A recursive-descent parser over a token list that ends with `Eof`.
pub struct Parser {
    pub(crate) tokens: Vec<Token>,
    pub(crate) pos: usize,
    pub(crate) errors: Vec<ParseError>,
    pub(crate) next_node: u32,
}

/// `after` is a later state of a parse that was at `before`: the same
/// tokens, no earlier position, the errors kept and all on tokens.
pub(crate) open spec fn advanced(before: Parser, after: Parser) -> bool {
    &&& after.wf()
    &&& after.tokens@ == before.tokens@
    &&& after.pos >= before.pos
    &&& after.errors@.len() >= before.errors@.len()
    &&& forall|k: int| 0 <= k < before.errors@.len() ==> #[trigger] after.errors@[k] == before.errors@[k]
}

impl Parser {
    /// The tokens end with `Eof`, the position is on a token and every
    /// error lies on a token.
    pub(crate) open spec fn wf(&self) -> bool {
        &&& self.tokens@.len() > 0
        &&& self.tokens@.last().kind is Eof
        &&& self.pos < self.tokens@.len()
        &&& errors_on_tokens(self.tokens@, self.errors@)
    }

    /// Tokens left, the current one included.
    pub(crate) open spec fn rem(&self) -> int {
        self.tokens@.len() - self.pos
    }

    pub(crate) open spec fn cur(&self) -> Token {
        self.tokens@[self.pos as int]
    }

    /// Ready to parse: the tokens end with `Eof` and the position is on one.
    pub closed spec fn ready(&self) -> bool {
        self.wf()
    }

    /// The tokens being parsed.
    pub closed spec fn token_list(&self) -> Seq<Token> {
        self.tokens@
    }

    /// The errors met so far.
    pub closed spec fn errors_so_far(&self) -> Seq<ParseError> {
        self.errors@
    }

    /// Whether the current token is the end.
    pub closed spec fn at_end(&self) -> bool {
        self.cur().kind is Eof
    }

    pub fn new(tokens: Vec<Token>) -> (r: Self)
        requires
            tokens@.len() > 0,
            tokens@.last().kind is Eof,
        ensures
            r.ready(),
            r.token_list() == tokens@,
            r.errors_so_far().len() == 0,
            r.at_end() == (tokens@[0].kind is Eof),
    {
        Parser { tokens, pos: 0, errors: Vec::new(), next_node: 1 }
    }

    /// Parses items until the end, skipping to the next item start after
    /// one that cannot be parsed.
    pub fn parse(self) -> (r: ParseResult)
        requires
            self.ready(),
        ensures
            errors_on_tokens(self.token_list(), r.errors@),
            r.errors@.len() >= self.errors_so_far().len(),
            forall|k: int| 0 <= k < self.errors_so_far().len() ==> #[trigger] r.errors@[k] == self.errors_so_far()[k],
            forall|k: int| 0 <= k < r.ast.items@.len() ==> between_tokens(self.token_list(), (#[trigger] r.ast.items@[k]).span),
            self.at_end() ==> r.ast.items@.len() == 0 && r.errors@ == self.errors_so_far(),
            r.ast.items@.len() < self.token_list().len(),
            !self.at_end() ==> r.ast.items@.len() > 0 || r.errors@.len() > self.errors_so_far().len(),
    {
        let mut p = self;
        let ghost start = p;
        let mut items: Vec<Item> = Vec::new();
        while !p.at_eof()
            invariant
                advanced(start, p),
                forall|k: int| 0 <= k < items@.len() ==> between_tokens(start.tokens@, (#[trigger] items@[k]).span),
                start.cur().kind is Eof ==> p == start && items@.len() == 0,
                items@.len() <= p.pos - start.pos,
                p.pos > start.pos ==> items@.len() > 0 || p.errors@.len() > start.errors@.len(),
            decreases p.rem(),
        {
            let ghost before = p;
            match p.parse_item() {
                Some(item) => items.push(item),
                None => p.synchronize_item(),
            }
            proof {
                assert(p.pos > before.pos);
            }
        }
        ParseResult { ast: Ast { items }, errors: p.errors }
    }

    pub(crate) fn node_id(&mut self) -> (r: NodeId)
        ensures
            *final(self) == (Parser { next_node: final(self).next_node, ..*old(self) }),
            r.0 == old(self).next_node,
            final(self).next_node == if old(self).next_node < u32::MAX {
                (old(self).next_node + 1) as u32
            } else {
                old(self).next_node
            },
    {
        let id = NodeId::new(self.next_node);
        if self.next_node < u32::MAX {
            self.next_node = self.next_node + 1;
        }
        id
    }

    pub(crate) fn current(&self) -> (r: &Token)
        requires
            self.wf(),
        ensures
            *r == self.cur(),
    {
        &self.tokens[self.pos]
    }

    pub(crate) fn previous(&self) -> (r: &Token)
        requires
            self.wf(),
        ensures
            *r == self.tokens@[if self.pos == 0 { 0 } else { self.pos - 1 }],
    {
        let i = if self.pos == 0 { 0 } else { self.pos - 1 };
        &self.tokens[i]
    }

    pub(crate) fn at_eof(&self) -> (r: bool)
        requires
            self.wf(),
        ensures
            r == self.cur().kind is Eof,
    {
        match self.current().kind {
            TokenKind::Eof => true,
            _ => false,
        }
    }

    pub(crate) fn check(&self, kind: &TokenKind) -> (r: bool)
        requires
            self.wf(),
        ensures
            r == (tag(self.cur().kind) == tag(*kind)),
    {
        same_token(&self.current().kind, kind)
    }

    pub(crate) fn check_keyword(&self, keyword: Keyword) -> (r: bool)
        requires
            self.wf(),
        ensures
            r == (self.cur().kind == TokenKind::Keyword(keyword)),
    {
        match self.current().kind {
            TokenKind::Keyword(k) => k == keyword,
            _ => false,
        }
    }

    /// Moves past the current token, unless it is the end, and returns its span.
    pub(crate) fn bump(&mut self) -> (r: Span)
        requires
            old(self).wf(),
        ensures
            r == old(self).cur().span,
            advanced(*old(self), *final(self)),
            final(self).errors@ == old(self).errors@,
            final(self).pos == if old(self).cur().kind is Eof { old(self).pos as int } else { old(self).pos + 1 },
    {
        let span = self.current().span;
        let n = self.tokens.len();
        if !self.at_eof() {
            proof {
                assert(self.pos != self.tokens@.len() - 1);
            }
            self.pos = self.pos + 1;
        }
        proof {
            assert(final(self).errors@.subrange(0, old(self).errors@.len() as int) =~= old(self).errors@);
        }
        span
    }

    /// Moves past the current token if it is of kind `kind`.
    pub(crate) fn eat(&mut self, kind: &TokenKind) -> (r: Option<Span>)
        requires
            old(self).wf(),
            !(*kind is Eof),
        ensures
            advanced(*old(self), *final(self)),
            final(self).errors@ == old(self).errors@,
            r is Some <==> tag(old(self).cur().kind) == tag(*kind),
            r is Some ==> final(self).pos == old(self).pos + 1 && r == Some(old(self).cur().span),
            r is None ==> final(self).pos == old(self).pos,
    {
        if self.check(kind) {
            Some(self.bump())
        } else {
            proof {
                assert(self.errors@.subrange(0, self.errors@.len() as int) =~= self.errors@);
            }
            None
        }
    }

    pub(crate) fn eat_keyword(&mut self, keyword: Keyword) -> (r: Option<Span>)
        requires
            old(self).wf(),
        ensures
            advanced(*old(self), *final(self)),
            final(self).errors@ == old(self).errors@,
            r is Some <==> old(self).cur().kind == TokenKind::Keyword(keyword),
            r is Some ==> final(self).pos == old(self).pos + 1 && r == Some(old(self).cur().span),
            r is None ==> final(self).pos == old(self).pos,
    {
        if self.check_keyword(keyword) {
            Some(self.bump())
        } else {
            proof {
                assert(self.errors@.subrange(0, self.errors@.len() as int) =~= self.errors@);
            }
            None
        }
    }

    pub(crate) fn error(&mut self, kind: ParseErrorKind, span: Span)
        requires
            old(self).wf(),
            is_token_span(old(self).tokens@, span),
        ensures
            advanced(*old(self), *final(self)),
            final(self).pos == old(self).pos,
            final(self).errors@ == old(self).errors@.push(ParseError { kind, span }),
    {
        let ghost before = self.errors@;
        self.errors.push(ParseError::new(kind, span));
        proof {
            assert(self.errors@.subrange(0, before.len() as int) =~= before);
            assert forall|k: int| 0 <= k < self.errors@.len() implies is_token_span(
                self.tokens@,
                (#[trigger] self.errors@[k]).span,
            ) by {
                if k < before.len() {
                    assert(self.errors@[k] == before[k]);
                }
            }
        }
    }

    /// Reports that the current token is not what was expected.
    pub(crate) fn error_here(&mut self, kind: ParseErrorKind)
        requires
            old(self).wf(),
        ensures
            advanced(*old(self), *final(self)),
            final(self).pos == old(self).pos,
            final(self).errors@.len() == old(self).errors@.len() + 1,
    {
        let span = self.current().span;
        proof {
            assert(self.tokens@[self.pos as int].span == span);
        }
        self.error(kind, span);
    }

    pub(crate) fn expect(&mut self, kind: &TokenKind, label: &'static str) -> (r: Option<Span>)
        requires
            old(self).wf(),
            !(*kind is Eof),
        ensures
            advanced(*old(self), *final(self)),
            r is None ==> final(self).errors@.len() == old(self).errors@.len() + 1,
            r is Some <==> tag(old(self).cur().kind) == tag(*kind),
            r is Some ==> final(self).pos == old(self).pos + 1 && r == Some(old(self).cur().span),
            r is None ==> final(self).pos == old(self).pos,
    {
        if self.check(kind) {
            Some(self.bump())
        } else {
            self.error_here(ParseErrorKind::ExpectedToken(label));
            None
        }
    }

    pub(crate) fn expect_keyword(&mut self, keyword: Keyword, label: &'static str) -> (r: Option<Span>)
        requires
            old(self).wf(),
        ensures
            advanced(*old(self), *final(self)),
            r is None ==> final(self).errors@.len() == old(self).errors@.len() + 1,
            r is Some <==> old(self).cur().kind == TokenKind::Keyword(keyword),
            r is Some ==> final(self).pos == old(self).pos + 1 && r == Some(old(self).cur().span),
            r is None ==> final(self).pos == old(self).pos,
    {
        if self.check_keyword(keyword) {
            Some(self.bump())
        } else {
            self.error_here(ParseErrorKind::ExpectedToken(label));
            None
        }
    }

    /// Moves past an identifier, returning its text and span.
    pub(crate) fn expect_ident(&mut self) -> (r: Option<(String, Span)>)
        requires
            old(self).wf(),
        ensures
            advanced(*old(self), *final(self)),
            r is None ==> final(self).errors@.len() == old(self).errors@.len() + 1,
            r is Some <==> old(self).cur().kind is Ident,
            r matches Some((name, span)) ==> final(self).pos == old(self).pos + 1 && span == old(self).cur().span
                && old(self).cur().kind == TokenKind::Ident(name),
            r is None ==> final(self).pos == old(self).pos,
    {
        let found = match &self.current().kind {
            TokenKind::Ident(name) => Some(name.clone()),
            _ => None,
        };
        match found {
            Some(name) => {
                let span = self.bump();
                Some((name, span))
            },
            None => {
                self.error_here(ParseErrorKind::ExpectedIdentifier);
                None
            },
        }
    }

    /// Moves past an identifier spelled `expected`.
    fn expect_ident_named(&mut self, expected: &'static str) -> (r: Option<Span>)
        requires
            old(self).wf(),
        ensures
            advanced(*old(self), *final(self)),
            r is None ==> final(self).errors@.len() == old(self).errors@.len() + 1,
            r is Some <==> (old(self).cur().kind matches TokenKind::Ident(n) && n@ == expected@),
            r is Some ==> final(self).pos == old(self).pos + 1,
            r is None ==> final(self).pos == old(self).pos,
    {
        let matches_name = match &self.current().kind {
            TokenKind::Ident(name) => str_eq(name.as_str(), expected),
            _ => false,
        };
        if matches_name {
            return Some(self.bump());
        }
        self.error_here(ParseErrorKind::ExpectedToken(expected));
        None
    }

    /// From the start of `start` to the end of the last token moved past.
    pub(crate) fn span_from(&self, start: Span) -> (r: Span)
        requires
            self.wf(),
        ensures
            r.file == start.file,
            r.start == start.start,
            r.end == self.tokens@[if self.pos == 0 { 0 } else { self.pos - 1 }].span.end,
    {
        Span::new(start.file, start.start, self.previous().span.end)
    }

    /// A path whose first segment was already read, with the segments that
    /// follow after `::`.
    pub(crate) fn finish_path_from_ident(&mut self, first: String, first_span: Span) -> (r: Path)
        requires
            old(self).wf(),
        ensures
            advanced(*old(self), *final(self)),
            r.segments@.len() >= 1,
            r.segments@[0].name@ == first@,
            r.names() == seq![first@] + path_rest(old(self).tokens@, old(self).pos as int).0,
            final(self).pos == path_rest(old(self).tokens@, old(self).pos as int).1,
    {
        let ghost first_name = first@;
        let mut segments: Vec<PathSegment> = vec![PathSegment { name: first, span: first_span }];
        let ghost start = *self;
        proof {
            assert(segments@.map_values(|s: PathSegment| s.name@) =~= seq![first_name]);
        }
        loop
            invariant_except_break
                advanced(start, *self),
                segments@.len() >= 1,
                segments@[0].name@ == first_name,
                segments@.map_values(|s: PathSegment| s.name@) + path_rest(start.tokens@, self.pos as int).0 == seq![first_name]
                    + path_rest(start.tokens@, start.pos as int).0,
                path_rest(start.tokens@, self.pos as int).1 == path_rest(start.tokens@, start.pos as int).1,
            ensures
                advanced(start, *self),
                segments@.len() >= 1,
                segments@[0].name@ == first_name,
                segments@.map_values(|s: PathSegment| s.name@) == seq![first_name] + path_rest(start.tokens@, start.pos as int).0,
                self.pos == path_rest(start.tokens@, start.pos as int).1,
            decreases self.rem(),
        {
            let ghost before = *self;
            let ghost names0 = segments@.map_values(|s: PathSegment| s.name@);
            if self.eat(&TokenKind::ColonColon).is_none() {
                proof {
                    assert(path_rest(start.tokens@, self.pos as int) == (Seq::<Seq<char>>::empty(), self.pos as int));
                    assert(names0 + Seq::<Seq<char>>::empty() =~= names0);
                }
                break;
            }
            match self.expect_ident() {
                Some((name, span)) => {
                    segments.push(PathSegment { name, span });
                    proof {
                        assert(segments@.map_values(|s: PathSegment| s.name@) =~= names0.push(name@));
                        let pr = path_rest(start.tokens@, self.pos as int);
                        assert(path_rest(start.tokens@, before.pos as int) == (seq![name@] + pr.0, pr.1));
                        assert(names0 + (seq![name@] + pr.0) =~= names0.push(name@) + pr.0);
                    }
                },
                None => {
                    proof {
                        assert(path_rest(start.tokens@, before.pos as int) == (Seq::<Seq<char>>::empty(), self.pos as int));
                        assert(names0 + Seq::<Seq<char>>::empty() =~= names0);
                    }
                    break;
                },
            }
        }
        let id = self.node_id();
        let span = self.span_from(first_span);
        Path { id, segments, span }
    }

    /// Skips tokens up to the next item start or the end.
    pub(crate) fn synchronize_item(&mut self)
        requires
            old(self).wf(),
        ensures
            advanced(*old(self), *final(self)),
            final(self).cur().kind is Eof || spec_is_item_start(final(self).cur().kind),
            !(old(self).cur().kind is Eof) && !spec_is_item_start(old(self).cur().kind) ==> final(self).pos
                > old(self).pos,
    {
        while !self.at_eof()
            invariant
                advanced(*old(self), *self),
                self.pos == old(self).pos ==> self.cur() == old(self).cur(),
            decreases self.rem(),
        {
            if is_item_start(&self.current().kind) {
                return;
            }
            self.bump();
        }
    }

    /// Skips tokens up to a `;` (moving past it), a `}` or the end.
    pub(crate) fn synchronize_stmt(&mut self)
        requires
            old(self).wf(),
        ensures
            advanced(*old(self), *final(self)),
            !(old(self).cur().kind is Eof) && !(old(self).cur().kind is RBrace) ==> final(self).pos > old(self).pos,
    {
        while !self.at_eof() && !self.check(&TokenKind::RBrace)
            invariant
                advanced(*old(self), *self),
                self.pos == old(self).pos ==> self.cur() == old(self).cur(),
            decreases self.rem(),
        {
            if self.eat(&TokenKind::Semi).is_some() {
                return;
            }
            self.bump();
        }
    }
}

/// A span from token `i`'s start to token `j`'s end runs between tokens.
proof fn lemma_between(tokens: Seq<Token>, s: Span, i: int, j: int)
    requires
        0 <= i < tokens.len(),
        0 <= j < tokens.len(),
        s.file == tokens[i].span.file,
        s.start == tokens[i].span.start,
        s.end == tokens[j].span.end,
    ensures
        between_tokens(tokens, s),
{
}

/// The characters of `s` other than `_`.
pub open spec fn without_underscores(s: Seq<char>) -> Seq<char>
    decreases s.len(),
{
    if s.len() == 0 {
        s
    } else if s.last() == '_' {
        without_underscores(s.drop_last())
    } else {
        without_underscores(s.drop_last()).push(s.last())
    }
}

pub open spec fn is_digit(c: char) -> bool {
    '0' <= c && c <= '9'
}

pub open spec fn all_digits(s: Seq<char>) -> bool {
    forall|i: int| 0 <= i < s.len() ==> is_digit(#[trigger] s[i])
}

/// The number a string of decimal digits denotes.
pub open spec fn decimal_value(s: Seq<char>) -> nat
    decreases s.len(),
{
    if s.len() == 0 {
        0
    } else {
        decimal_value(s.drop_last()) * 10 + ((s.last() as u32) - ('0' as u32)) as nat
    }
}

/// What `str::parse::<u64>` gives: an optional `+`, then one or more
/// decimal digits whose value fits.
pub open spec fn spec_parse_u64(s: Seq<char>) -> Option<u64> {
    let t = if s.len() > 0 && s[0] == '+' { s.drop_first() } else { s };
    if t.len() > 0 && all_digits(t) && decimal_value(t) <= u64::MAX {
        Some(decimal_value(t) as u64)
    } else {
        None
    }
}

/// The length written in an array type: the literal without `_`, read as
/// a number, or 0 when it is none.
pub open spec fn spec_array_len(raw: Seq<char>) -> u64 {
    match spec_parse_u64(without_underscores(raw)) {
        Some(v) => v,
        None => 0,
    }
}

proof fn lemma_decimal_grows(s: Seq<char>, c: char)
    requires
        is_digit(c),
    ensures
        decimal_value(s.push(c)) >= decimal_value(s),
        decimal_value(s.push(c)) == decimal_value(s) * 10 + ((c as u32) - ('0' as u32)),
{
    assert(s.push(c).drop_last() =~= s);
}

/// Reads an array length (see `spec_array_len`).
pub fn array_len_value(raw: &str) -> (r: u64)
    ensures
        r == spec_array_len(raw@),
{
    let cs = crate::utf::chars_of(raw);
    let ghost t = without_underscores(cs@);
    // The characters kept so far, their count, and the value they denote.
    let ghost mut kept: Seq<char> = Seq::empty();
    let mut n: usize = 0;
    let mut plus = false;
    let mut valid = true;
    let mut too_big = false;
    let mut value: u64 = 0;
    let mut i: usize = 0;
    while i < cs.len()
        invariant
            i <= cs@.len(),
            kept == without_underscores(cs@.take(i as int)),
            n == kept.len(),
            n <= i,
            plus == (kept.len() > 0 && kept[0] == '+'),
            valid == all_digits(if plus { kept.drop_first() } else { kept }),
            valid && !too_big ==> value == decimal_value(if plus { kept.drop_first() } else { kept }),
            valid ==> (too_big <==> decimal_value(if plus { kept.drop_first() } else { kept }) > u64::MAX),
        decreases cs@.len() - i,
    {
        let c = cs[i];
        proof {
            assert(cs@.take(i + 1).drop_last() =~= cs@.take(i as int));
            assert(cs@.take(i + 1).last() == c);
        }
        if c != '_' {
            let ghost body = if plus { kept.drop_first() } else { kept };
            if n == 0 && c == '+' {
                plus = true;
                proof {
                    assert(kept.push(c).drop_first() =~= Seq::<char>::empty());
                }
            } else if '0' <= c && c <= '9' {
                proof {
                    lemma_decimal_grows(body, c);
                    if plus {
                        assert(kept.push(c).drop_first() =~= body.push(c));
                    } else {
                        assert(kept.push(c) =~= body.push(c));
                    }
                    if valid {
                        assert forall|j: int| 0 <= j < body.push(c).len() implies is_digit(#[trigger] body.push(c)[j]) by {
                            if j < body.len() {
                                assert(body.push(c)[j] == body[j]);
                            }
                        }
                    } else {
                        let j = choose|j: int| 0 <= j < body.len() && !is_digit(#[trigger] body[j]);
                        assert(body.push(c)[j] == body[j]);
                    }
                }
                let d = (c as u32 - '0' as u32) as u64;
                if valid && !too_big {
                    if value > 1844674407370955161u64 || (value == 1844674407370955161u64 && d > 5) {
                        too_big = true;
                    } else {
                        value = value * 10 + d;
                    }
                }
            } else {
                proof {
                    let nb = if plus { kept.push(c).drop_first() } else { kept.push(c) };
                    if plus {
                        assert(kept.push(c).drop_first() =~= body.push(c));
                    } else {
                        assert(kept.push(c) =~= body.push(c));
                    }
                    assert(nb[nb.len() - 1] == c);
                }
                valid = false;
            }
            proof {
                kept = kept.push(c);
            }
            n = n + 1;
        }
        i = i + 1;
    }
    proof {
        assert(cs@.take(cs@.len() as int) =~= cs@);
    }
    let body_len = if plus { n - 1 } else { n };
    if valid && !too_big && body_len > 0 {
        value
    } else {
        0
    }
}

impl Parser {
    /// Parses an item, or reports that none starts here.
    pub(crate) fn parse_item(&mut self) -> (r: Option<Item>)
        requires
            old(self).wf(),
        ensures
            advanced(*old(self), *final(self)),
            r is None ==> final(self).errors@.len() > old(self).errors@.len(),
            r is Some ==> final(self).pos > old(self).pos,
            r matches Some(it) ==> between_tokens(old(self).tokens@, it.span),
            spec_is_item_start(old(self).cur().kind) ==> final(self).pos > old(self).pos,
    {
        let start = self.current().span;
        let ghost p0 = self.pos;
        let id = self.node_id();
        let is_fn = self.check_keyword(Keyword::Extern) || self.check_keyword(Keyword::Export) || self.check_keyword(Keyword::Fn);
        let kind = if self.eat_keyword(Keyword::Struct).is_some() {
            match self.parse_struct_item() {
                Some(s) => ItemKind::Struct(s),
                None => return None,
            }
        } else if is_fn {
            match self.parse_function_item() {
                Some(f) => ItemKind::Function(f),
                None => return None,
            }
        } else if self.eat_keyword(Keyword::Const).is_some() {
            match self.parse_const_item() {
                Some(c) => ItemKind::Const(c),
                None => return None,
            }
        } else if self.is_named_start("type") {
            match self.parse_type_alias_item() {
                Some(t) => ItemKind::TypeAlias(t),
                None => return None,
            }
        } else if self.is_named_start("enum") {
            match self.parse_enum_item() {
                Some(e) => ItemKind::Enum(e),
                None => return None,
            }
        } else {
            proof {
                assert(self.tokens@[self.pos as int].span == start);
            }
            self.error(ParseErrorKind::ExpectedItem, start);
            return None;
        };
        let span = self.span_from(start);
        proof {
            lemma_between(self.tokens@, span, p0 as int, self.pos - 1);
        }
        Some(Item { id, kind, span })
    }

    /// Whether the current token is the identifier `name`.
    fn is_named_start(&self, name: &str) -> (r: bool)
        requires
            self.wf(),
        ensures
            r == (self.cur().kind matches TokenKind::Ident(n) && n@ == name@),
    {
        match &self.current().kind {
            TokenKind::Ident(n) => str_eq(n.as_str(), name),
            _ => false,
        }
    }

    fn parse_struct_item(&mut self) -> (r: Option<StructItem>)
        requires
            old(self).wf(),
        ensures
            advanced(*old(self), *final(self)),
            r is None ==> final(self).errors@.len() > old(self).errors@.len(),
            r matches Some(st) ==> old(self).cur().kind == TokenKind::Ident(st.name) && forall|k: int|
                0 <= k < st.fields@.len() ==> between_tokens(old(self).tokens@, (#[trigger] st.fields@[k]).span),
    {
        let (name, _) = match self.expect_ident() {
            Some(x) => x,
            None => return None,
        };
        self.expect(&TokenKind::LBrace, "{");
        let mut fields: Vec<StructField> = Vec::new();
        let mut methods: Vec<FunctionItem> = Vec::new();
        let ghost start = *self;
        while !self.check(&TokenKind::RBrace) && !self.at_eof()
            invariant_except_break
                advanced(*old(self), start),
                advanced(start, *self),
                forall|k: int| 0 <= k < fields@.len() ==> between_tokens(old(self).tokens@, (#[trigger] fields@[k]).span),
            ensures
                advanced(start, *self),
                forall|k: int| 0 <= k < fields@.len() ==> between_tokens(old(self).tokens@, (#[trigger] fields@[k]).span),
            decreases self.rem(),
        {
            if self.check_keyword(Keyword::Fn) {
                match self.parse_method_item(name.as_str()) {
                    Some(m) => methods.push(m),
                    None => return None,
                }
                continue;
            }
            let field_start = self.current().span;
            let ghost fp = self.pos;
            let (field_name, _) = match self.expect_ident() {
                Some(x) => x,
                None => return None,
            };
            self.expect(&TokenKind::Colon, ":");
            let ty = match self.parse_type() {
                Some(t) => t,
                None => return None,
            };
            let default = if self.eat(&TokenKind::Eq).is_some() {
                self.parse_expr()
            } else {
                None
            };
            let span = self.span_from(field_start);
            proof {
                lemma_between(self.tokens@, span, fp as int, self.pos - 1);
            }
            fields.push(StructField { name: field_name, ty, default, span });
            if self.eat(&TokenKind::Comma).is_none() {
                break;
            }
        }
        self.expect(&TokenKind::RBrace, "}");
        Some(StructItem { name, fields, methods })
    }

    fn parse_enum_item(&mut self) -> (r: Option<EnumItem>)
        requires
            old(self).wf(),
            old(self).cur().kind matches TokenKind::Ident(n) && n@ == "enum"@,
        ensures
            advanced(*old(self), *final(self)),
            r is None ==> final(self).errors@.len() > old(self).errors@.len(),
            final(self).pos > old(self).pos,
    {
        if self.expect_ident_named("enum").is_none() {
            return None;
        }
        let (name, _) = match self.expect_ident() {
            Some(x) => x,
            None => return None,
        };
        self.expect(&TokenKind::LBrace, "{");
        let mut variants: Vec<EnumVariant> = Vec::new();
        let ghost start = *self;
        while !self.check(&TokenKind::RBrace) && !self.at_eof()
            invariant_except_break
                advanced(*old(self), start),
                start.pos > old(self).pos,
                advanced(start, *self),
            ensures
                advanced(start, *self),
            decreases self.rem(),
        {
            let variant_start = self.current().span;
            let (variant_name, _) = match self.expect_ident() {
                Some(x) => x,
                None => return None,
            };
            let fields = if self.eat(&TokenKind::LParen).is_some() {
                self.parse_tuple_variant_fields()
            } else {
                Vec::new()
            };
            let discriminant = if self.eat(&TokenKind::Eq).is_some() {
                self.parse_expr()
            } else {
                None
            };
            let span = self.span_from(variant_start);
            variants.push(EnumVariant { name: variant_name, fields, discriminant, span });
            if self.eat(&TokenKind::Comma).is_none() {
                break;
            }
        }
        self.expect(&TokenKind::RBrace, "}");
        Some(EnumItem { name, variants })
    }

    fn parse_tuple_variant_fields(&mut self) -> (r: Vec<Type>)
        requires
            old(self).wf(),
        ensures
            advanced(*old(self), *final(self)),
            forall|k: int| 0 <= k < r@.len() ==> between_tokens(old(self).tokens@, (#[trigger] r@[k]).span),
            old(self).cur().kind is RParen ==> r@.len() == 0,
    {
        let mut fields: Vec<Type> = Vec::new();
        if !self.check(&TokenKind::RParen) {
            let ghost start = *self;
            loop
                invariant_except_break
                    advanced(start, *self),
                    start.tokens@ == old(self).tokens@,
                    forall|k: int| 0 <= k < fields@.len() ==> between_tokens(old(self).tokens@, (#[trigger] fields@[k]).span),
                ensures
                    advanced(start, *self),
                    forall|k: int| 0 <= k < fields@.len() ==> between_tokens(old(self).tokens@, (#[trigger] fields@[k]).span),
                decreases self.rem(),
            {
                match self.parse_type() {
                    Some(ty) => fields.push(ty),
                    None => {},
                }
                if self.eat(&TokenKind::Comma).is_none() {
                    break;
                }
            }
        }
        self.expect(&TokenKind::RParen, ")");
        fields
    }

    fn parse_const_item(&mut self) -> (r: Option<ConstItem>)
        requires
            old(self).wf(),
        ensures
            advanced(*old(self), *final(self)),
            r matches Some(c) ==> old(self).cur().kind == TokenKind::Ident(c.name),
            r is None ==> final(self).errors@.len() > old(self).errors@.len(),
    {
        let (name, _) = match self.expect_ident() {
            Some(x) => x,
            None => return None,
        };
        self.expect(&TokenKind::Colon, ":");
        let ty = match self.parse_type() {
            Some(t) => t,
            None => return None,
        };
        self.expect(&TokenKind::Eq, "=");
        let value = match self.parse_expr() {
            Some(v) => v,
            None => return None,
        };
        self.eat(&TokenKind::Semi);
        Some(ConstItem { name, ty, value })
    }

    fn parse_type_alias_item(&mut self) -> (r: Option<TypeAliasItem>)
        requires
            old(self).wf(),
            old(self).cur().kind matches TokenKind::Ident(n) && n@ == "type"@,
        ensures
            advanced(*old(self), *final(self)),
            r is None ==> final(self).errors@.len() > old(self).errors@.len(),
            final(self).pos > old(self).pos,
    {
        if self.expect_ident_named("type").is_none() {
            return None;
        }
        let (name, _) = match self.expect_ident() {
            Some(x) => x,
            None => return None,
        };
        self.expect(&TokenKind::Eq, "=");
        let ty = match self.parse_type() {
            Some(t) => t,
            None => return None,
        };
        self.eat(&TokenKind::Semi);
        Some(TypeAliasItem { name, ty })
    }

    fn parse_function_item(&mut self) -> (r: Option<FunctionItem>)
        requires
            old(self).wf(),
            old(self).cur().kind == TokenKind::Keyword(Keyword::Export) || old(self).cur().kind == TokenKind::Keyword(
                Keyword::Extern,
            ) || old(self).cur().kind == TokenKind::Keyword(Keyword::Fn),
        ensures
            advanced(*old(self), *final(self)),
            r is None ==> final(self).errors@.len() > old(self).errors@.len(),
            final(self).pos > old(self).pos,
    {
        let kind = if self.eat_keyword(Keyword::Export).is_some() {
            self.expect_keyword(Keyword::Fn, "fn");
            FunctionKind::Export
        } else if self.eat_keyword(Keyword::Extern).is_some() {
            self.expect_keyword(Keyword::Fn, "fn");
            FunctionKind::Extern
        } else {
            self.expect_keyword(Keyword::Fn, "fn");
            FunctionKind::Normal
        };
        let (name, _) = match self.expect_ident() {
            Some(x) => x,
            None => return None,
        };
        self.expect(&TokenKind::LParen, "(");
        let params = self.parse_params();
        self.expect(&TokenKind::RParen, ")");
        let return_ty = if self.eat(&TokenKind::Arrow).is_some() {
            self.parse_type()
        } else {
            None
        };
        let body = match kind {
            FunctionKind::Extern => {
                self.eat(&TokenKind::Semi);
                None
            },
            _ => match self.parse_block() {
                Some(b) => Some(b),
                None => Some(self.empty_error_block()),
            },
        };
        Some(FunctionItem { kind, name, params, return_ty, body })
    }

    fn parse_method_item(&mut self, owner: &str) -> (r: Option<FunctionItem>)
        requires
            old(self).wf(),
        ensures
            advanced(*old(self), *final(self)),
            r is None ==> final(self).errors@.len() > old(self).errors@.len(),
            old(self).cur().kind == TokenKind::Keyword(Keyword::Fn) ==> final(self).pos > old(self).pos,
    {
        self.expect_keyword(Keyword::Fn, "fn");
        let (name, _) = match self.expect_ident() {
            Some(x) => x,
            None => return None,
        };
        self.expect(&TokenKind::LParen, "(");
        let params = self.parse_method_params(owner);
        self.expect(&TokenKind::RParen, ")");
        let return_ty = if self.eat(&TokenKind::Arrow).is_some() {
            self.parse_type()
        } else {
            None
        };
        let body = match self.parse_block() {
            Some(b) => Some(b),
            None => Some(self.empty_error_block()),
        };
        Some(FunctionItem { kind: FunctionKind::Normal, name, params, return_ty, body })
    }

    fn parse_params(&mut self) -> (r: Vec<FunctionParam>)
        requires
            old(self).wf(),
        ensures
            advanced(*old(self), *final(self)),
            forall|k: int|
                0 <= k < r@.len() ==> between_tokens(old(self).tokens@, (#[trigger] r@[k]).span) && is_ident_token(
                    old(self).tokens@,
                    r@[k].name@,
                ),
            r@.len() <= final(self).pos - old(self).pos,
            old(self).cur().kind is RParen ==> r@.len() == 0,
    {
        let mut params: Vec<FunctionParam> = Vec::new();
        if self.check(&TokenKind::RParen) {
            proof {
                assert(self.errors@.subrange(0, self.errors@.len() as int) =~= self.errors@);
            }
            return params;
        }
        let ghost start = *self;
        loop
            invariant_except_break
                advanced(start, *self),
                start.tokens@ == old(self).tokens@,
                start.pos == old(self).pos,
                params@.len() <= self.pos - start.pos,
                forall|k: int|
                    0 <= k < params@.len() ==> between_tokens(old(self).tokens@, (#[trigger] params@[k]).span)
                        && is_ident_token(old(self).tokens@, params@[k].name@),
            ensures
                advanced(start, *self),
                params@.len() <= self.pos - start.pos,
                forall|k: int|
                    0 <= k < params@.len() ==> between_tokens(old(self).tokens@, (#[trigger] params@[k]).span)
                        && is_ident_token(old(self).tokens@, params@[k].name@),
            decreases self.rem(),
        {
            let pstart = self.current().span;
            let ghost pp = self.pos;
            let (name, _) = match self.expect_ident() {
                Some(x) => x,
                None => break,
            };
            self.expect(&TokenKind::Colon, ":");
            let ty = match self.parse_type() {
                Some(t) => t,
                None => error_type(pstart),
            };
            let span = self.span_from(pstart);
            proof {
                lemma_between(self.tokens@, span, pp as int, self.pos - 1);
                assert(self.tokens@[pp as int].kind == TokenKind::Ident(name));
                assert(is_ident_token(old(self).tokens@, name@));
            }
            params.push(FunctionParam { name, ty, span });
            if self.eat(&TokenKind::Comma).is_none() {
                break;
            }
        }
        params
    }

    fn parse_method_params(&mut self, owner: &str) -> (r: Vec<FunctionParam>)
        requires
            old(self).wf(),
        ensures
            advanced(*old(self), *final(self)),
            forall|k: int| 0 <= k < r@.len() ==> between_tokens(old(self).tokens@, (#[trigger] r@[k]).span),
            old(self).cur().kind is RParen ==> r@.len() == 0,
    {
        let mut params: Vec<FunctionParam> = Vec::new();
        if self.check(&TokenKind::RParen) {
            proof {
                assert(self.errors@.subrange(0, self.errors@.len() as int) =~= self.errors@);
            }
            return params;
        }
        match self.parse_self_param(owner) {
            Some(param) => {
                params.push(param);
                if self.eat(&TokenKind::Comma).is_none() {
                    return params;
                }
            },
            None => {},
        }
        let mut rest = self.parse_params();
        params.append(&mut rest);
        params
    }

    /// `&self` or `&mut self`, typed as a reference to the owner.
    fn parse_self_param(&mut self, owner: &str) -> (r: Option<FunctionParam>)
        requires
            old(self).wf(),
        ensures
            advanced(*old(self), *final(self)),
            !(old(self).cur().kind is Amp) ==> r is None && final(self).pos == old(self).pos && final(self).errors@
                == old(self).errors@,
            old(self).cur().kind is Amp && r is None ==> final(self).errors@.len() > old(self).errors@.len(),
            r matches Some(param) ==> param.name@ == "self"@ && param.ty.kind is Ref && final(self).pos > old(self).pos
                && between_tokens(old(self).tokens@, param.span),
    {
        let start = self.current().span;
        let ghost p0 = self.pos;
        let mutable = if self.eat(&TokenKind::Amp).is_some() {
            self.eat_keyword(Keyword::Mut).is_some()
        } else {
            proof {
                assert(self.errors@.subrange(0, self.errors@.len() as int) =~= self.errors@);
            }
            return None;
        };
        let is_self = match &self.current().kind {
            TokenKind::Ident(name) => str_eq(name.as_str(), "self"),
            _ => false,
        };
        if !is_self {
            self.error_here(ParseErrorKind::ExpectedIdentifier);
            return None;
        }
        self.bump();
        let owner_span = Span::new(start.file, start.end, start.end);
        let type_id = self.node_id();
        let path_id = self.node_id();
        let owner_ty = Type {
            id: type_id,
            kind: TypeKind::Path(
                Path {
                    id: path_id,
                    segments: vec![PathSegment { name: String::from_str(owner), span: owner_span }],
                    span: owner_span,
                },
            ),
            span: owner_span,
        };
        let ref_id = self.node_id();
        let span = self.span_from(start);
        proof {
            lemma_between(self.tokens@, span, p0 as int, self.pos - 1);
        }
        let ty = Type { id: ref_id, kind: TypeKind::Ref { mutable, ty: Box::new(owner_ty) }, span };
        Some(FunctionParam { name: String::from_str("self"), ty, span })
    }

    /// Parses a type.
    pub(crate) fn parse_type(&mut self) -> (r: Option<Type>)
        requires
            old(self).wf(),
        ensures
            advanced(*old(self), *final(self)),
            r is None ==> final(self).errors@.len() > old(self).errors@.len(),
            r is Some ==> final(self).pos > old(self).pos,
            r matches Some(t) ==> between_tokens(old(self).tokens@, t.span) && t.id.0 == old(self).next_node,
            old(self).cur().kind matches TokenKind::Ident(n) ==> (r matches Some(t) && (spec_primitive_type(n@) matches Some(
                p,
            ) ==> t.kind == TypeKind::Primitive(p)) && (spec_primitive_type(n@) is None ==> t.kind is Path)),
            old(self).cur().kind == TokenKind::Keyword(Keyword::Mut) ==> r is None,
            old(self).cur().kind is Amp ==> (r matches Some(t) ==> t.kind is Ref),
            old(self).cur().kind is LBracket ==> (r matches Some(t) ==> (t.kind is Array || t.kind is Slice)),
            old(self).cur().kind is LParen ==> (r matches Some(t) ==> t.kind is Tuple),
            final(self).pos == type_parse(old(self).tokens@, old(self).pos as int).1,
            match r {
                Some(t) => type_parse(old(self).tokens@, old(self).pos as int).0 == Some(t.shape()),
                None => type_parse(old(self).tokens@, old(self).pos as int).0 is None,
            },
        decreases old(self).rem(),
    {
        let ghost toks = self.tokens@;
        let start = self.current().span;
        let ghost p0 = self.pos;
        let id = self.node_id();
        let ident = match &self.current().kind {
            TokenKind::Ident(_) => true,
            _ => false,
        };
        if ident {
            let (name, _) = match self.expect_ident() {
                Some(x) => x,
                None => return None,
            };
            let kind = match primitive_type(name.as_str()) {
                Some(p) => TypeKind::Primitive(p),
                None => TypeKind::Path(self.finish_path_from_ident(name, start)),
            };
            let span = self.span_from(start);
            proof {
                lemma_between(self.tokens@, span, p0 as int, self.pos - 1);
            }
            return Some(Type { id, kind, span });
        }
        let code: u8 = match &self.current().kind {
            TokenKind::Keyword(Keyword::Mut) => 0,
            TokenKind::Amp => 1,
            TokenKind::LBracket => 2,
            TokenKind::LParen => 3,
            _ => 0,
        };
        let kind = if code == 1 {
            self.bump();
            let mutable = self.eat_keyword(Keyword::Mut).is_some();
            let ty = match self.parse_type() {
                Some(t) => t,
                None => return None,
            };
            TypeKind::Ref { mutable, ty: Box::new(ty) }
        } else if code == 2 {
            self.bump();
            let ty = match self.parse_type() {
                Some(t) => t,
                None => return None,
            };
            if self.eat(&TokenKind::Semi).is_some() {
                let len = self.parse_array_len();
                self.expect(&TokenKind::RBracket, "]");
                TypeKind::Array { ty: Box::new(ty), len }
            } else {
                self.expect(&TokenKind::RBracket, "]");
                TypeKind::Slice(Box::new(ty))
            }
        } else if code == 3 {
            self.bump();
            let mut types: Vec<Type> = Vec::new();
            if !self.check(&TokenKind::RParen) {
                let ghost mid = *self;
                loop
                    invariant_except_break
                        advanced(*old(self), mid),
                        mid.pos > old(self).pos,
                        advanced(mid, *self),
                        toks == self.tokens@,
                        types@.map_values(|t: Type| t.shape()) + type_list_parse(toks, self.pos as int).0 == type_list_parse(
                            toks,
                            mid.pos as int,
                        ).0,
                        type_list_parse(toks, self.pos as int).1 == type_list_parse(toks, mid.pos as int).1,
                    ensures
                        advanced(mid, *self),
                        toks == self.tokens@,
                        types@.map_values(|t: Type| t.shape()) == type_list_parse(toks, mid.pos as int).0,
                        self.pos == type_list_parse(toks, mid.pos as int).1,
                    decreases self.rem(),
                {
                    let ghost before = *self;
                    let ghost shapes0 = types@.map_values(|t: Type| t.shape());
                    match self.parse_type() {
                        Some(ty) => {
                            let ghost sh = ty.shape();
                            types.push(ty);
                            proof {
                                assert(types@.map_values(|t: Type| t.shape()) =~= shapes0.push(sh));
                            }
                        },
                        None => {},
                    }
                    let ghost after_item = *self;
                    let ghost here: Seq<TypeShape> = match type_parse(toks, before.pos as int).0 {
                        Some(t) => seq![t],
                        None => seq![],
                    };
                    proof {
                        assert(types@.map_values(|t: Type| t.shape()) =~= shapes0 + here);
                    }
                    if self.eat(&TokenKind::Comma).is_none() {
                        proof {
                            assert(type_list_parse(toks, before.pos as int) == (here, after_item.pos as int));
                            assert(shapes0 + here + Seq::<TypeShape>::empty() =~= shapes0 + here);
                        }
                        break;
                    }
                    proof {
                        let rest = type_list_parse(toks, self.pos as int);
                        assert(type_list_parse(toks, before.pos as int) == (here + rest.0, rest.1));
                        assert(shapes0 + (here + rest.0) =~= (shapes0 + here) + rest.0);
                    }
                }
            } else {
                proof {
                    assert(types@.map_values(|t: Type| t.shape()) =~= Seq::<TypeShape>::empty());
                }
            }
            self.expect(&TokenKind::RParen, ")");
            let ghost tv = types@;
            let k = TypeKind::Tuple(types);
            proof {
                let t = Type { id, kind: k, span: Span { file: 0, start: 0, end: 0 } };
                assert(t.shape()->Tuple_0 =~= tv.map_values(|x: Type| x.shape()));
            }
            k
        } else {
            self.error(ParseErrorKind::ExpectedType, start);
            return None;
        };
        let span = self.span_from(start);
        proof {
            lemma_between(self.tokens@, span, p0 as int, self.pos - 1);
        }
        Some(Type { id, kind, span })
    }

    /// Reads the integer literal of an array length, or reports its absence.
    fn parse_array_len(&mut self) -> (r: u64)
        requires
            old(self).wf(),
        ensures
            advanced(*old(self), *final(self)),
            r == match old(self).cur().kind {
                TokenKind::Literal(LiteralKind::Integer(raw)) => spec_array_len(raw@),
                _ => 0,
            },
            old(self).cur().kind matches TokenKind::Literal(LiteralKind::Integer(_)) ==> final(self).pos == old(self).pos + 1
                && final(self).errors@ == old(self).errors@,
            !(old(self).cur().kind matches TokenKind::Literal(LiteralKind::Integer(_))) ==> final(self).pos == old(self).pos
                && final(self).errors@.len() == old(self).errors@.len() + 1,
    {
        let value = match &self.current().kind {
            TokenKind::Literal(LiteralKind::Integer(raw)) => Some(array_len_value(raw.as_str())),
            _ => None,
        };
        match value {
            Some(v) => {
                self.bump();
                v
            },
            None => {
                self.error_here(ParseErrorKind::ExpectedToken("array length"));
                0
            },
        }
    }

    /// Parses a pattern.
    pub(crate) fn parse_pattern(&mut self) -> (r: Option<Pattern>)
        requires
            old(self).wf(),
        ensures
            advanced(*old(self), *final(self)),
            r is None ==> final(self).errors@.len() > old(self).errors@.len(),
            r is Some ==> final(self).pos > old(self).pos,
            r matches Some(p) ==> between_tokens(old(self).tokens@, p.span) && p.id.0 == old(self).next_node,
            old(self).cur().kind matches TokenKind::Ident(n) ==> (r matches Some(p) && (n@ == "_"@ ==> p.kind is Wildcard)
                && (n@ != "_"@ && !(old(self).tokens@[old(self).pos + 1].kind is ColonColon) ==> (p.kind matches PatternKind::Binding {
                name,
                mutable,
            } && name@ == n@ && !mutable))),
            old(self).cur().kind == TokenKind::Keyword(Keyword::Mut) ==> (r matches Some(p) ==> (p.kind matches PatternKind::Binding {
                mutable,
                ..
            } && mutable)),
            old(self).cur().kind is LParen ==> (r matches Some(p) ==> p.kind is Tuple),
        decreases old(self).rem(),
    {
        let start = self.current().span;
        let ghost p0 = self.pos;
        let id = self.node_id();
        let ident = match &self.current().kind {
            TokenKind::Ident(_) => true,
            _ => false,
        };
        if ident {
            let (name, _) = match self.expect_ident() {
                Some(x) => x,
                None => return None,
            };
            let kind = if str_eq(name.as_str(), "_") {
                PatternKind::Wildcard
            } else if self.check(&TokenKind::ColonColon) {
                PatternKind::Path(self.finish_path_from_ident(name, start))
            } else {
                PatternKind::Binding { name, mutable: false }
            };
            let span = self.span_from(start);
            proof {
                lemma_between(self.tokens@, span, p0 as int, self.pos - 1);
            }
            return Some(Pattern { id, kind, span });
        }
        let code: u8 = match &self.current().kind {
            TokenKind::Keyword(Keyword::Mut) => 1,
            TokenKind::LParen => 2,
            _ => 0,
        };
        let kind = if code == 1 {
            self.bump();
            let (name, _) = match self.expect_ident() {
                Some(x) => x,
                None => return None,
            };
            PatternKind::Binding { name, mutable: true }
        } else if code == 2 {
            self.bump();
            let mut patterns: Vec<Pattern> = Vec::new();
            if !self.check(&TokenKind::RParen) {
                let ghost mid = *self;
                loop
                    invariant_except_break
                        advanced(*old(self), mid),
                        mid.pos > old(self).pos,
                        advanced(mid, *self),
                    ensures
                        advanced(mid, *self),
                    decreases self.rem(),
                {
                    match self.parse_pattern() {
                        Some(p) => patterns.push(p),
                        None => {},
                    }
                    if self.eat(&TokenKind::Comma).is_none() {
                        break;
                    }
                }
            }
            self.expect(&TokenKind::RParen, ")");
            PatternKind::Tuple(patterns)
        } else {
            let (name, _) = match self.expect_ident() {
                Some(x) => x,
                None => return None,
            };
            PatternKind::Binding { name, mutable: false }
        };
        let span = self.span_from(start);
        proof {
            lemma_between(self.tokens@, span, p0 as int, self.pos - 1);
        }
        Some(Pattern { id, kind, span })
    }
}

/// The type given to a parameter whose type could not be parsed.
fn error_type(span: Span) -> (r: Type)
    ensures
        r.span == span,
        r.kind is Void,
{
    Type { id: NodeId::new(0), kind: TypeKind::Void, span }
}

/// Parses a token list that ends with `Eof` into a tree and its errors.
pub fn parse_tokens(tokens: Vec<Token>) -> (r: ParseResult)
    requires
        tokens@.len() > 0,
        tokens@.last().kind is Eof,
    ensures
        errors_on_tokens(tokens@, r.errors@),
        forall|k: int| 0 <= k < r.ast.items@.len() ==> between_tokens(tokens@, (#[trigger] r.ast.items@[k]).span),
        tokens@.len() == 1 ==> r.ast.items@.len() == 0 && r.errors@.len() == 0,
        r.ast.items@.len() < tokens@.len(),
        !(tokens@[0].kind is Eof) ==> r.ast.items@.len() > 0 || r.errors@.len() > 0,
{
    Parser::new(tokens).parse()
}

} // verus!
