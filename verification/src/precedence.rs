use vstd::prelude::*;

use crate::token::TokenKind;

verus! {

/// Binary operators of the expression grammar.
#[derive(Clone, Copy, Debug, PartialEq, Eq, Structural)]
pub enum BinaryOp {
    Add,
    Sub,
    Mul,
    Div,
    Rem,
    Eq,
    Ne,
    Lt,
    Le,
    Gt,
    Ge,
    And,
    Or,
}

/// Binding strength, from loosest to tightest.
#[derive(Clone, Copy, Debug, PartialEq, Eq, Structural)]
pub enum Precedence {
    Lowest,
    Assign,
    Or,
    And,
    Equality,
    Compare,
    Sum,
    Product,
    Prefix,
    Postfix,
}

impl Precedence {
    /// The rank of a precedence level: 0 for `Lowest` up to 9 for `Postfix`.
    pub open spec fn rank(self) -> int {
        match self {
            Precedence::Lowest => 0,
            Precedence::Assign => 1,
            Precedence::Or => 2,
            Precedence::And => 3,
            Precedence::Equality => 4,
            Precedence::Compare => 5,
            Precedence::Sum => 6,
            Precedence::Product => 7,
            Precedence::Prefix => 8,
            Precedence::Postfix => 9,
        }
    }

    pub fn value(self) -> (r: u8)
        ensures
            r == self.rank(),
    {
        match self {
            Precedence::Lowest => 0,
            Precedence::Assign => 1,
            Precedence::Or => 2,
            Precedence::And => 3,
            Precedence::Equality => 4,
            Precedence::Compare => 5,
            Precedence::Sum => 6,
            Precedence::Product => 7,
            Precedence::Prefix => 8,
            Precedence::Postfix => 9,
        }
    }

    /// `self` binds no tighter than `other`.
    pub fn le(self, other: Precedence) -> (r: bool)
        ensures
            r == (self.rank() <= other.rank()),
    {
        self.value() <= other.value()
    }
}

/// The binary operator a token denotes, with its precedence.
pub open spec fn spec_binary_op(kind: TokenKind) -> Option<(BinaryOp, Precedence)> {
    match kind {
        TokenKind::PipePipe => Some((BinaryOp::Or, Precedence::Or)),
        TokenKind::AmpAmp => Some((BinaryOp::And, Precedence::And)),
        TokenKind::EqEq => Some((BinaryOp::Eq, Precedence::Equality)),
        TokenKind::BangEq => Some((BinaryOp::Ne, Precedence::Equality)),
        TokenKind::Lt => Some((BinaryOp::Lt, Precedence::Compare)),
        TokenKind::LtEq => Some((BinaryOp::Le, Precedence::Compare)),
        TokenKind::Gt => Some((BinaryOp::Gt, Precedence::Compare)),
        TokenKind::GtEq => Some((BinaryOp::Ge, Precedence::Compare)),
        TokenKind::Plus => Some((BinaryOp::Add, Precedence::Sum)),
        TokenKind::Minus => Some((BinaryOp::Sub, Precedence::Sum)),
        TokenKind::Star => Some((BinaryOp::Mul, Precedence::Product)),
        TokenKind::Slash => Some((BinaryOp::Div, Precedence::Product)),
        TokenKind::Percent => Some((BinaryOp::Rem, Precedence::Product)),
        _ => None,
    }
}

/// The binding strength of the operator a token denotes (-1 for none).
pub open spec fn op_rank(kind: TokenKind) -> int {
    match spec_binary_op(kind) {
        Some((_, p)) => p.rank(),
        None => -1,
    }
}

/// The operator table: each operator token denotes its operator, and the
/// levels go, from tightest: `* / %`, then `+ -`, then `< <= > >=`, then
/// `== !=`, then `&&`, then `||`, all above assignment; no other token is a
/// binary operator.
pub proof fn law_binary_precedence(k: TokenKind)
    ensures
        spec_binary_op(TokenKind::Star) matches Some((op, _)) && op == BinaryOp::Mul,
        spec_binary_op(TokenKind::Slash) matches Some((op, _)) && op == BinaryOp::Div,
        spec_binary_op(TokenKind::Percent) matches Some((op, _)) && op == BinaryOp::Rem,
        spec_binary_op(TokenKind::Plus) matches Some((op, _)) && op == BinaryOp::Add,
        spec_binary_op(TokenKind::Minus) matches Some((op, _)) && op == BinaryOp::Sub,
        spec_binary_op(TokenKind::Lt) matches Some((op, _)) && op == BinaryOp::Lt,
        spec_binary_op(TokenKind::LtEq) matches Some((op, _)) && op == BinaryOp::Le,
        spec_binary_op(TokenKind::Gt) matches Some((op, _)) && op == BinaryOp::Gt,
        spec_binary_op(TokenKind::GtEq) matches Some((op, _)) && op == BinaryOp::Ge,
        spec_binary_op(TokenKind::EqEq) matches Some((op, _)) && op == BinaryOp::Eq,
        spec_binary_op(TokenKind::BangEq) matches Some((op, _)) && op == BinaryOp::Ne,
        spec_binary_op(TokenKind::AmpAmp) matches Some((op, _)) && op == BinaryOp::And,
        spec_binary_op(TokenKind::PipePipe) matches Some((op, _)) && op == BinaryOp::Or,
        op_rank(TokenKind::Star) == op_rank(TokenKind::Slash) == op_rank(TokenKind::Percent),
        op_rank(TokenKind::Plus) == op_rank(TokenKind::Minus),
        op_rank(TokenKind::Plus) < op_rank(TokenKind::Star),
        op_rank(TokenKind::Lt) == op_rank(TokenKind::LtEq) == op_rank(TokenKind::Gt) == op_rank(TokenKind::GtEq),
        op_rank(TokenKind::Lt) < op_rank(TokenKind::Plus),
        op_rank(TokenKind::EqEq) == op_rank(TokenKind::BangEq),
        op_rank(TokenKind::EqEq) < op_rank(TokenKind::Lt),
        op_rank(TokenKind::AmpAmp) < op_rank(TokenKind::EqEq),
        op_rank(TokenKind::PipePipe) < op_rank(TokenKind::AmpAmp),
        Precedence::Assign.rank() < op_rank(TokenKind::PipePipe),
        op_rank(TokenKind::Star) < Precedence::Prefix.rank(),
        spec_binary_op(k) is Some ==> (k is Star || k is Slash || k is Percent || k is Plus || k is Minus || k is Lt
            || k is LtEq || k is Gt || k is GtEq || k is EqEq || k is BangEq || k is AmpAmp || k is PipePipe),
{
}

pub fn binary_op(kind: &TokenKind) -> (r: Option<(BinaryOp, Precedence)>)
    ensures
        r == spec_binary_op(*kind),
{
    match kind {
        TokenKind::PipePipe => Some((BinaryOp::Or, Precedence::Or)),
        TokenKind::AmpAmp => Some((BinaryOp::And, Precedence::And)),
        TokenKind::EqEq => Some((BinaryOp::Eq, Precedence::Equality)),
        TokenKind::BangEq => Some((BinaryOp::Ne, Precedence::Equality)),
        TokenKind::Lt => Some((BinaryOp::Lt, Precedence::Compare)),
        TokenKind::LtEq => Some((BinaryOp::Le, Precedence::Compare)),
        TokenKind::Gt => Some((BinaryOp::Gt, Precedence::Compare)),
        TokenKind::GtEq => Some((BinaryOp::Ge, Precedence::Compare)),
        TokenKind::Plus => Some((BinaryOp::Add, Precedence::Sum)),
        TokenKind::Minus => Some((BinaryOp::Sub, Precedence::Sum)),
        TokenKind::Star => Some((BinaryOp::Mul, Precedence::Product)),
        TokenKind::Slash => Some((BinaryOp::Div, Precedence::Product)),
        TokenKind::Percent => Some((BinaryOp::Rem, Precedence::Product)),
        _ => None,
    }
}

/// The next tighter level; `Postfix` is its own successor.
pub open spec fn spec_next_precedence(p: Precedence) -> Precedence {
    match p {
        Precedence::Lowest => Precedence::Assign,
        Precedence::Assign => Precedence::Or,
        Precedence::Or => Precedence::And,
        Precedence::And => Precedence::Equality,
        Precedence::Equality => Precedence::Compare,
        Precedence::Compare => Precedence::Sum,
        Precedence::Sum => Precedence::Product,
        Precedence::Product => Precedence::Prefix,
        Precedence::Prefix => Precedence::Postfix,
        Precedence::Postfix => Precedence::Postfix,
    }
}

pub fn next_precedence(p: Precedence) -> (r: Precedence)
    ensures
        r == spec_next_precedence(p),
        p.rank() < 9 ==> r.rank() == p.rank() + 1,
        p.rank() == 9 ==> r == p,
{
    match p {
        Precedence::Lowest => Precedence::Assign,
        Precedence::Assign => Precedence::Or,
        Precedence::Or => Precedence::And,
        Precedence::And => Precedence::Equality,
        Precedence::Equality => Precedence::Compare,
        Precedence::Compare => Precedence::Sum,
        Precedence::Sum => Precedence::Product,
        Precedence::Product => Precedence::Prefix,
        Precedence::Prefix => Precedence::Postfix,
        Precedence::Postfix => Precedence::Postfix,
    }
}

/// Every binary operator binds strictly tighter than assignment and
/// strictly looser than prefix operators, and the right operand of a binary
/// operator is parsed one level tighter, which makes binary operators
/// left-associative.
pub proof fn lemma_binary_ops_left_associative(kind: TokenKind)
    requires
        spec_binary_op(kind) is Some,
    ensures
        ({
            let (_, prec) = spec_binary_op(kind).unwrap();
            &&& Precedence::Assign.rank() < prec.rank() < Precedence::Prefix.rank()
            &&& spec_next_precedence(prec).rank() == prec.rank() + 1
        }),
{
}

} // verus!
