use vstd::prelude::*;

use crate::ast::{Block, Expr, ExprKind, FieldInit, LiteralExpr, MatchArm, Stmt, StmtKind, UnaryOp};
use crate::ty::Path;
use crate::parse_error::ParseErrorKind;
use crate::parser::{advanced, Parser};
use crate::precedence::{binary_op, next_precedence, Precedence};
use crate::span::Span;
use crate::token::{Keyword, LiteralKind, TokenKind};

verus! {

/// The literal expression a literal token denotes.
fn convert_literal(literal: &LiteralKind) -> (r: LiteralExpr)
    ensures
        match (*literal, r) {
            (LiteralKind::Integer(a), LiteralExpr::Integer(b)) => a@ == b@,
            (LiteralKind::Float(a), LiteralExpr::Float(b)) => a@ == b@,
            (LiteralKind::String(a), LiteralExpr::String(b)) => a@ == b@,
            (LiteralKind::CString(a), LiteralExpr::CString(b)) => a@ == b@,
            (LiteralKind::Char(a), LiteralExpr::Char(b)) => a@ == b@,
            _ => false,
        },
{
    match literal {
        LiteralKind::Integer(value) => LiteralExpr::Integer(value.clone()),
        LiteralKind::Float(value) => LiteralExpr::Float(value.clone()),
        LiteralKind::String(value) => LiteralExpr::String(value.clone()),
        LiteralKind::CString(value) => LiteralExpr::CString(value.clone()),
        LiteralKind::Char(value) => LiteralExpr::Char(value.clone()),
    }
}

impl Parser {
    /// Parses an expression.
    pub(crate) fn parse_expr(&mut self) -> (r: Option<Expr>)
        requires
            old(self).wf(),
        ensures
            advanced(*old(self), *final(self)),
            r is None ==> final(self).errors@.len() > old(self).errors@.len(),
            r is Some ==> final(self).pos > old(self).pos,
        decreases old(self).rem(), 7nat,
    {
        self.parse_expr_bp(Precedence::Lowest)
    }

    /// Parses an expression whose operators bind at least as tightly as `min_prec`.
    pub(crate) fn parse_expr_bp(&mut self, min_prec: Precedence) -> (r: Option<Expr>)
        requires
            old(self).wf(),
        ensures
            advanced(*old(self), *final(self)),
            r is None ==> final(self).errors@.len() > old(self).errors@.len(),
            r is Some ==> final(self).pos > old(self).pos,
        decreases old(self).rem(), 6nat,
    {
        self.parse_expr_bp_with_struct_init(min_prec, true)
    }

    /// Parses a prefix, then its calls, fields, indexes, assignments and
    /// binary operators, by precedence climbing.
    fn parse_expr_bp_with_struct_init(&mut self, min_prec: Precedence, allow_struct_init: bool) -> (r: Option<Expr>)
        requires
            old(self).wf(),
        ensures
            advanced(*old(self), *final(self)),
            r is None ==> final(self).errors@.len() > old(self).errors@.len(),
            r is Some ==> final(self).pos > old(self).pos,
        decreases old(self).rem(), 5nat,
    {
        let mut left = match self.parse_prefix(allow_struct_init) {
            Some(e) => e,
            None => return None,
        };
        loop
            invariant_except_break
                advanced(*old(self), *self),
                self.pos > old(self).pos,
            ensures
                advanced(*old(self), *self),
                self.pos > old(self).pos,
            decreases self.rem(),
        {
            if self.check(&TokenKind::LParen) {
                left = match self.parse_call(left) {
                    Some(e) => e,
                    None => return None,
                };
                continue;
            }
            if self.check(&TokenKind::Dot) {
                left = match self.parse_field(left) {
                    Some(e) => e,
                    None => return None,
                };
                continue;
            }
            if self.check(&TokenKind::LBracket) {
                left = match self.parse_index(left) {
                    Some(e) => e,
                    None => return None,
                };
                continue;
            }
            if self.check(&TokenKind::Eq) && min_prec.le(Precedence::Assign) {
                let start = left.span;
                self.bump();
                let value = match self.parse_expr_bp(Precedence::Assign) {
                    Some(v) => v,
                    None => return None,
                };
                let id = self.node_id();
                left = Expr {
                    id,
                    kind: ExprKind::Assign { target: Box::new(left), value: Box::new(value) },
                    span: self.span_from(start),
                };
                continue;
            }
            let (op, prec) = match binary_op(&self.current().kind) {
                Some(x) => x,
                None => break,
            };
            if !min_prec.le(prec) {
                break;
            }
            let start = left.span;
            self.bump();
            let right = match self.parse_expr_bp(next_precedence(prec)) {
                Some(e) => e,
                None => return None,
            };
            let id = self.node_id();
            left = Expr { id, kind: ExprKind::Binary { op, left: Box::new(left), right: Box::new(right) }, span: self.span_from(start) };
        }
        Some(left)
    }

    /// Parses a path, literal, unary, group, block, `if` or `match`.
    fn parse_prefix(&mut self, allow_struct_init: bool) -> (r: Option<Expr>)
        requires
            old(self).wf(),
        ensures
            advanced(*old(self), *final(self)),
            r is None ==> final(self).errors@.len() > old(self).errors@.len(),
            r is Some ==> final(self).pos > old(self).pos,
        decreases old(self).rem(), 4nat,
    {
        let start = self.current().span;
        let ident = match &self.current().kind {
            TokenKind::Ident(_) => true,
            _ => false,
        };
        if ident {
            let (name, _) = match self.expect_ident() {
                Some(x) => x,
                None => return None,
            };
            let path = self.finish_path_from_ident(name, start);
            if allow_struct_init && self.check(&TokenKind::LBrace) {
                return self.parse_struct_init(path, start);
            } else {
                let id = self.node_id();
                return Some(Expr { id, kind: ExprKind::Path(path), span: self.span_from(start) });
            }
        }
        let literal = match &self.current().kind {
            TokenKind::Literal(lit) => Some(convert_literal(lit)),
            _ => None,
        };
        match literal {
            Some(lit) => {
                self.bump();
                let id = self.node_id();
                return Some(Expr { id, kind: ExprKind::Literal(lit), span: self.span_from(start) });
            },
            None => {},
        }
        let code: u8 = match &self.current().kind {
            TokenKind::Keyword(Keyword::True) => 1,
            TokenKind::Keyword(Keyword::False) => 2,
            TokenKind::Minus | TokenKind::Bang | TokenKind::Amp => 3,
            TokenKind::LParen => 4,
            TokenKind::LBrace => 5,
            TokenKind::Keyword(Keyword::If) => 6,
            TokenKind::Keyword(Keyword::Match) => 7,
            _ => 0,
        };
        if code == 1 {
            self.bump();
            Some(self.literal_bool(true, start))
        } else if code == 2 {
            self.bump();
            Some(self.literal_bool(false, start))
        } else if code == 3 {
            self.parse_unary()
        } else if code == 4 {
            self.parse_group_or_tuple()
        } else if code == 5 {
            match self.parse_block() {
                Some(block) => {
                    let id = self.node_id();
                    let span = block.span;
                    Some(Expr { id, span, kind: ExprKind::Block(block) })
                },
                None => None,
            }
        } else if code == 6 {
            self.parse_if_expr()
        } else if code == 7 {
            self.parse_match_expr()
        } else {
            proof {
                assert(self.tokens@[self.pos as int].span == start);
            }
            self.error(ParseErrorKind::ExpectedExpression, start);
            None
        }
    }

    fn parse_unary(&mut self) -> (r: Option<Expr>)
        requires
            old(self).wf(),
            old(self).cur().kind is Minus || old(self).cur().kind is Bang || old(self).cur().kind is Amp,
        ensures
            advanced(*old(self), *final(self)),
            r is None ==> final(self).errors@.len() > old(self).errors@.len(),
            final(self).pos > old(self).pos,
        decreases old(self).rem(), 3nat,
    {
        let start = self.current().span;
        let code: u8 = match &self.current().kind {
            TokenKind::Amp => 1,
            TokenKind::Minus => 2,
            _ => 0,
        };
        self.bump();
        let op = if code == 1 {
            if self.eat_keyword(Keyword::Mut).is_some() {
                UnaryOp::RefMut
            } else {
                UnaryOp::Ref
            }
        } else if code == 2 {
            UnaryOp::Neg
        } else {
            UnaryOp::Not
        };
        let expr = match self.parse_expr_bp(Precedence::Prefix) {
            Some(e) => e,
            None => return None,
        };
        let id = self.node_id();
        Some(Expr { id, kind: ExprKind::Unary { op, expr: Box::new(expr) }, span: self.span_from(start) })
    }

    fn parse_group_or_tuple(&mut self) -> (r: Option<Expr>)
        requires
            old(self).wf(),
            old(self).cur().kind is LParen,
        ensures
            advanced(*old(self), *final(self)),
            r is None ==> final(self).errors@.len() > old(self).errors@.len(),
            final(self).pos > old(self).pos,
        decreases old(self).rem(), 3nat,
    {
        let start = self.bump();
        if self.check(&TokenKind::RParen) {
            self.bump();
            let id = self.node_id();
            return Some(Expr { id, kind: ExprKind::Tuple(Vec::new()), span: self.span_from(start) });
        }
        let first = match self.parse_expr() {
            Some(e) => e,
            None => return None,
        };
        if self.eat(&TokenKind::Comma).is_none() {
            self.expect(&TokenKind::RParen, ")");
            return Some(first);
        }
        let mut items: Vec<Expr> = vec![first];
        while !self.check(&TokenKind::RParen) && !self.at_eof()
            invariant_except_break
                advanced(*old(self), *self),
                self.pos > old(self).pos,
            ensures
                advanced(*old(self), *self),
                self.pos > old(self).pos,
            decreases self.rem(),
        {
            match self.parse_expr() {
                Some(e) => items.push(e),
                None => {},
            }
            if self.eat(&TokenKind::Comma).is_none() {
                break;
            }
        }
        self.expect(&TokenKind::RParen, ")");
        let id = self.node_id();
        Some(Expr { id, kind: ExprKind::Tuple(items), span: self.span_from(start) })
    }

    fn parse_call(&mut self, callee: Expr) -> (r: Option<Expr>)
        requires
            old(self).wf(),
            old(self).cur().kind is LParen,
        ensures
            advanced(*old(self), *final(self)),
            r is None ==> final(self).errors@.len() > old(self).errors@.len(),
            final(self).pos > old(self).pos,
        decreases old(self).rem(), 3nat,
    {
        let start = callee.span;
        self.bump();
        let mut args: Vec<Expr> = Vec::new();
        if !self.check(&TokenKind::RParen) {
            loop
                invariant_except_break
                    advanced(*old(self), *self),
                    self.pos > old(self).pos,
                ensures
                    advanced(*old(self), *self),
                    self.pos > old(self).pos,
                decreases self.rem(),
            {
                match self.parse_expr() {
                    Some(e) => args.push(e),
                    None => return None,
                }
                if self.eat(&TokenKind::Comma).is_none() {
                    break;
                }
            }
        }
        self.expect(&TokenKind::RParen, ")");
        let id = self.node_id();
        Some(Expr { id, kind: ExprKind::Call { callee: Box::new(callee), args }, span: self.span_from(start) })
    }

    fn parse_field(&mut self, base: Expr) -> (r: Option<Expr>)
        requires
            old(self).wf(),
            old(self).cur().kind is Dot,
        ensures
            advanced(*old(self), *final(self)),
            r is None ==> final(self).errors@.len() > old(self).errors@.len(),
            final(self).pos > old(self).pos,
        decreases old(self).rem(), 3nat,
    {
        let start = base.span;
        self.bump();
        let (field, _) = match self.expect_ident() {
            Some(x) => x,
            None => return None,
        };
        let id = self.node_id();
        Some(Expr { id, kind: ExprKind::Field { base: Box::new(base), field }, span: self.span_from(start) })
    }

    fn parse_index(&mut self, base: Expr) -> (r: Option<Expr>)
        requires
            old(self).wf(),
            old(self).cur().kind is LBracket,
        ensures
            advanced(*old(self), *final(self)),
            r is None ==> final(self).errors@.len() > old(self).errors@.len(),
            final(self).pos > old(self).pos,
        decreases old(self).rem(), 3nat,
    {
        let start = base.span;
        self.bump();
        let index = match self.parse_expr() {
            Some(e) => e,
            None => return None,
        };
        self.expect(&TokenKind::RBracket, "]");
        let id = self.node_id();
        Some(Expr { id, kind: ExprKind::Index { base: Box::new(base), index: Box::new(index) }, span: self.span_from(start) })
    }

    fn parse_struct_init(&mut self, path: Path, start: Span) -> (r: Option<Expr>)
        requires
            old(self).wf(),
            old(self).cur().kind is LBrace,
        ensures
            advanced(*old(self), *final(self)),
            r is None ==> final(self).errors@.len() > old(self).errors@.len(),
            final(self).pos > old(self).pos,
        decreases old(self).rem(), 3nat,
    {
        self.bump();
        let mut fields: Vec<FieldInit> = Vec::new();
        while !self.check(&TokenKind::RBrace) && !self.at_eof()
            invariant_except_break
                advanced(*old(self), *self),
                self.pos > old(self).pos,
            ensures
                advanced(*old(self), *self),
                self.pos > old(self).pos,
            decreases self.rem(),
        {
            let (name, name_span) = match self.expect_ident() {
                Some(x) => x,
                None => return None,
            };
            self.expect(&TokenKind::Colon, ":");
            let value = match self.parse_expr() {
                Some(e) => e,
                None => return None,
            };
            fields.push(FieldInit { name, value, span: name_span });
            if self.eat(&TokenKind::Comma).is_none() {
                break;
            }
        }
        self.expect(&TokenKind::RBrace, "}");
        let id = self.node_id();
        Some(Expr { id, kind: ExprKind::StructInit { path, fields }, span: self.span_from(start) })
    }

    fn parse_if_expr(&mut self) -> (r: Option<Expr>)
        requires
            old(self).wf(),
            old(self).cur().kind == TokenKind::Keyword(Keyword::If),
        ensures
            advanced(*old(self), *final(self)),
            r is None ==> final(self).errors@.len() > old(self).errors@.len(),
            final(self).pos > old(self).pos,
        decreases old(self).rem(), 3nat,
    {
        let start = self.bump();
        let condition = match self.parse_expr() {
            Some(e) => e,
            None => return None,
        };
        let then_block = match self.parse_block() {
            Some(b) => b,
            None => return None,
        };
        let else_branch = if self.eat_keyword(Keyword::Else).is_some() {
            if self.check_keyword(Keyword::If) {
                match self.parse_if_expr() {
                    Some(e) => Some(Box::new(e)),
                    None => return None,
                }
            } else {
                let block = match self.parse_block() {
                    Some(b) => b,
                    None => return None,
                };
                let id = self.node_id();
                let span = block.span;
                Some(Box::new(Expr { id, span, kind: ExprKind::Block(block) }))
            }
        } else {
            None
        };
        let id = self.node_id();
        Some(
            Expr {
                id,
                kind: ExprKind::If { condition: Box::new(condition), then_block, else_branch },
                span: self.span_from(start),
            },
        )
    }

    fn parse_match_expr(&mut self) -> (r: Option<Expr>)
        requires
            old(self).wf(),
            old(self).cur().kind == TokenKind::Keyword(Keyword::Match),
        ensures
            advanced(*old(self), *final(self)),
            r is None ==> final(self).errors@.len() > old(self).errors@.len(),
            final(self).pos > old(self).pos,
        decreases old(self).rem(), 3nat,
    {
        let start = self.bump();
        let value = match self.parse_expr_bp_with_struct_init(Precedence::Lowest, false) {
            Some(e) => e,
            None => return None,
        };
        if self.expect(&TokenKind::LBrace, "{").is_none() {
            return None;
        }
        let mut arms: Vec<MatchArm> = Vec::new();
        while !self.check(&TokenKind::RBrace) && !self.at_eof()
            invariant_except_break
                advanced(*old(self), *self),
                self.pos > old(self).pos,
            ensures
                advanced(*old(self), *self),
                self.pos > old(self).pos,
            decreases self.rem(),
        {
            let arm_start = self.current().span;
            let pattern = match self.parse_pattern() {
                Some(p) => p,
                None => return None,
            };
            if self.expect(&TokenKind::FatArrow, "=>").is_none() {
                return None;
            }
            let body = match self.parse_expr() {
                Some(e) => e,
                None => return None,
            };
            let span = self.span_from(arm_start);
            arms.push(MatchArm { pattern, guard: None, body, span });
            if self.eat(&TokenKind::Comma).is_none() {
                break;
            }
        }
        self.expect(&TokenKind::RBrace, "}");
        let id = self.node_id();
        Some(Expr { id, kind: ExprKind::Match { value: Box::new(value), arms }, span: self.span_from(start) })
    }

    fn literal_bool(&mut self, value: bool, start: Span) -> (r: Expr)
        requires
            old(self).wf(),
        ensures
            advanced(*old(self), *final(self)),
            final(self).pos == old(self).pos,
            r.kind == ExprKind::Literal(LiteralExpr::Bool(value)),
            r.id.0 == old(self).next_node,
            r.span.file == start.file && r.span.start == start.start,
            r.span.end == old(self).tokens@[if old(self).pos == 0 { 0 } else { old(self).pos - 1 }].span.end,
    {
        let id = self.node_id();
        proof {
            assert(self.errors@.subrange(0, self.errors@.len() as int) =~= self.errors@);
        }
        Expr { id, kind: ExprKind::Literal(LiteralExpr::Bool(value)), span: self.span_from(start) }
    }

    /// An empty block at the current token, standing for one that could not
    /// be parsed.
    pub(crate) fn empty_error_block(&self) -> (r: Block)
        requires
            self.wf(),
        ensures
            r.statements@.len() == 0,
            r.span == self.cur().span,
    {
        Block { statements: Vec::new(), span: self.current().span }
    }

    /// Parses a `{ ... }` block, skipping past statements that cannot be parsed.
    pub(crate) fn parse_block(&mut self) -> (r: Option<Block>)
        requires
            old(self).wf(),
        ensures
            advanced(*old(self), *final(self)),
            r is None ==> final(self).errors@.len() > old(self).errors@.len(),
            r is Some ==> final(self).pos > old(self).pos,
        decreases old(self).rem(), 3nat,
    {
        let start = match self.expect(&TokenKind::LBrace, "{") {
            Some(s) => s,
            None => return None,
        };
        let mut statements: Vec<Stmt> = Vec::new();
        while !self.check(&TokenKind::RBrace) && !self.at_eof()
            invariant
                advanced(*old(self), *self),
                self.pos > old(self).pos,
            decreases self.rem(),
        {
            match self.parse_stmt() {
                Some(stmt) => statements.push(stmt),
                None => self.synchronize_stmt(),
            }
        }
        self.expect(&TokenKind::RBrace, "}");
        Some(Block { statements, span: self.span_from(start) })
    }

    /// Parses a statement.
    pub(crate) fn parse_stmt(&mut self) -> (r: Option<Stmt>)
        requires
            old(self).wf(),
        ensures
            advanced(*old(self), *final(self)),
            r is None ==> final(self).errors@.len() > old(self).errors@.len(),
            r is Some ==> final(self).pos > old(self).pos,
        decreases old(self).rem(), 8nat,
    {
        let start = self.current().span;
        let id = self.node_id();
        let kind = if self.eat_keyword(Keyword::Let).is_some() {
            let pattern = match self.parse_pattern() {
                Some(p) => p,
                None => return None,
            };
            let ty = if self.eat(&TokenKind::Colon).is_some() {
                self.parse_type()
            } else {
                None
            };
            let value = if self.eat(&TokenKind::Eq).is_some() {
                self.parse_expr()
            } else {
                None
            };
            self.expect(&TokenKind::Semi, ";");
            StmtKind::Let { pattern, ty, value }
        } else if self.eat_keyword(Keyword::Return).is_some() {
            let value = if self.check(&TokenKind::Semi) {
                None
            } else {
                self.parse_expr()
            };
            self.expect(&TokenKind::Semi, ";");
            StmtKind::Return(value)
        } else if self.eat_keyword(Keyword::Break).is_some() {
            self.expect(&TokenKind::Semi, ";");
            StmtKind::Break
        } else if self.eat_keyword(Keyword::Continue).is_some() {
            self.expect(&TokenKind::Semi, ";");
            StmtKind::Continue
        } else if self.eat_keyword(Keyword::While).is_some() {
            let condition = match self.parse_expr() {
                Some(e) => e,
                None => return None,
            };
            let body = match self.parse_block() {
                Some(b) => b,
                None => return None,
            };
            StmtKind::While { condition, body }
        } else if self.eat_keyword(Keyword::For).is_some() {
            let pattern = match self.parse_pattern() {
                Some(p) => p,
                None => return None,
            };
            self.expect_keyword(Keyword::In, "in");
            let iter = match self.parse_expr() {
                Some(e) => e,
                None => return None,
            };
            let body = match self.parse_block() {
                Some(b) => b,
                None => return None,
            };
            StmtKind::For { pattern, iter, body }
        } else {
            let expr = match self.parse_expr() {
                Some(e) => e,
                None => return None,
            };
            if self.eat(&TokenKind::Semi).is_some() {
                StmtKind::Semi(expr)
            } else {
                StmtKind::Expr(expr)
            }
        };
        Some(Stmt { id, kind, span: self.span_from(start) })
    }
}

} // verus!
