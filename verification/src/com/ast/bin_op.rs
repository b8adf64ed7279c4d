//! Binary and unary operators of expressions.

use vstd::prelude::*;

verus! {

/// A binary operator.
#[derive(Debug, Clone, Copy, PartialEq, Eq, Structural)]
pub enum BinOp {
    Xor,
    Or,
    And,
    Eq,
    Ne,
    Lt,
    Le,
    Gt,
    Ge,
    BitXor,
    BitOr,
    BitAnd,
    Add,
    Sub,
    Mul,
    Div,
    Mod,
}

/// A unary operator.
#[derive(Debug, Clone, Copy, PartialEq, Eq, Structural)]
pub enum UnOp {
    Pos,
    Neg,
    BitNeg,
    Not,
}

/// How tightly an operator binds: the higher, the tighter.
pub open spec fn spec_precedence(op: BinOp) -> nat {
    match op {
        BinOp::Xor | BinOp::Or => 10,
        BinOp::And => 15,
        BinOp::Eq | BinOp::Ne | BinOp::Lt | BinOp::Le | BinOp::Gt | BinOp::Ge => 20,
        BinOp::BitXor | BinOp::BitOr | BinOp::BitAnd => 30,
        BinOp::Add | BinOp::Sub => 40,
        BinOp::Mul | BinOp::Div | BinOp::Mod => 50,
    }
}

/// How tightly the operators bind, loosest first: `or` and `xor`, then
/// `and`, then the comparisons, then the bitwise operators, then `+` and
/// `-`, then `*`, `/` and `%`; operators of one line bind alike.
pub proof fn lemma_precedence_order()
    ensures
        spec_precedence(BinOp::Or) == spec_precedence(BinOp::Xor),
        spec_precedence(BinOp::Or) < spec_precedence(BinOp::And),
        spec_precedence(BinOp::And) < spec_precedence(BinOp::Eq),
        spec_precedence(BinOp::Eq) == spec_precedence(BinOp::Ne),
        spec_precedence(BinOp::Eq) == spec_precedence(BinOp::Lt),
        spec_precedence(BinOp::Eq) == spec_precedence(BinOp::Le),
        spec_precedence(BinOp::Eq) == spec_precedence(BinOp::Gt),
        spec_precedence(BinOp::Eq) == spec_precedence(BinOp::Ge),
        spec_precedence(BinOp::Eq) < spec_precedence(BinOp::BitAnd),
        spec_precedence(BinOp::BitAnd) == spec_precedence(BinOp::BitOr),
        spec_precedence(BinOp::BitAnd) == spec_precedence(BinOp::BitXor),
        spec_precedence(BinOp::BitAnd) < spec_precedence(BinOp::Add),
        spec_precedence(BinOp::Add) == spec_precedence(BinOp::Sub),
        spec_precedence(BinOp::Add) < spec_precedence(BinOp::Mul),
        spec_precedence(BinOp::Mul) == spec_precedence(BinOp::Div),
        spec_precedence(BinOp::Mul) == spec_precedence(BinOp::Mod),
        spec_precedence(BinOp::Or) == 10 && spec_precedence(BinOp::Mul) == 50,
{
}

impl BinOp {
    /// Higher means more priority.
    pub fn precedence(&self) -> (p: usize)
        ensures
            p == spec_precedence(*self),
    {
        match self {
            Self::Xor => 10,
            Self::Or => 10,
            Self::And => 15,
            Self::Eq => 20,
            Self::Ne => 20,
            Self::Lt => 20,
            Self::Le => 20,
            Self::Gt => 20,
            Self::Ge => 20,
            Self::BitXor => 30,
            Self::BitOr => 30,
            Self::BitAnd => 30,
            Self::Add => 40,
            Self::Sub => 40,
            Self::Mul => 50,
            Self::Div => 50,
            Self::Mod => 50,
        }
    }
}

} // verus!
