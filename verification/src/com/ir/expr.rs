//! Expressions and statements after checking.

use vstd::prelude::*;
use crate::com::ir::{Builtin, LabelID, TypeID, VariableID, ClassID, ImportID, RecordID, UnionID, Pattern};

verus! {

/// An expression together with its type.
pub type CheckedExpr = (Expr, TypeID);

#[derive(Debug)]
pub enum Expr {
    Missing,
    Int {
        val: i64,
    },
    Float {
        bits: u64,
    },
    String {
        val: String,
    },
    Bool {
        val: bool,
    },
    Var {
        id: VariableID,
    },
    AbstractVar {
        id: VariableID,
        constraint_id: usize,
    },
    Tuple {
        items: Vec<Expr>,
    },
    Array {
        items: Vec<Expr>,
    },
    Block {
        stmts: Vec<Stmt>,
        label: LabelID,
    },
    BlockUnlabelled {
        stmts: Vec<Stmt>,
    },
    Conditional {
        branches: Vec<Branch>,
        is_exhaustive: bool,
    },
    Break {
        expr: Option<Box<Expr>>,
        label: LabelID,
    },
    Skip {
        label: LabelID,
    },
    Fun {
        name: String,
        recursive_binding: Option<VariableID>,
        signature: Box<Signature>,
        expr: Box<Expr>,
    },
    Call {
        callee: Box<Expr>,
        args: Vec<Expr>,
    },
    Variant {
        tag: usize,
        items: Option<Vec<Expr>>,
    },
    Record {
        fields: Vec<Expr>,
    },
    Access {
        accessed: Box<Expr>,
        index: usize,
    },
    ClassItem {
        item_id: usize,
        constraint_id: usize,
    },
    Builtin(Builtin),

    Add(Box<Expr>, Box<Expr>),
    Sub(Box<Expr>, Box<Expr>),
    Mul(Box<Expr>, Box<Expr>),
    Div(Box<Expr>, Box<Expr>),
    Mod(Box<Expr>, Box<Expr>),
    BitAnd(Box<Expr>, Box<Expr>),
    BitOr(Box<Expr>, Box<Expr>),
    BitXor(Box<Expr>, Box<Expr>),

    Pos(Box<Expr>),
    Neg(Box<Expr>),
    BitNeg(Box<Expr>),

    Pow(Box<Expr>, Box<Expr>),
    Exp(Box<Expr>),
    Ln(Box<Expr>),
    Sin(Box<Expr>),
    Cos(Box<Expr>),
    Tan(Box<Expr>),
    Asin(Box<Expr>),
    Acos(Box<Expr>),
    Atan(Box<Expr>),

    Eq(Box<Expr>, Box<Expr>),
    Ne(Box<Expr>, Box<Expr>),
    Lt(Box<Expr>, Box<Expr>),
    Le(Box<Expr>, Box<Expr>),
    Gt(Box<Expr>, Box<Expr>),
    Ge(Box<Expr>, Box<Expr>),
}

#[derive(Debug)]
pub enum Stmt {
    Missing,
    Nothing,
    Expr {
        expr: Expr,
        ty: TypeID,
    },
    Let {
        lhs: Pattern,
        rhs: Expr,
        is_concrete: bool,
    },
    Have {
        stmts: Vec<Stmt>,
    },
}

#[derive(Debug)]
pub enum Branch {
    If(Box<Expr>, Vec<Stmt>, LabelID),
    While(Box<Expr>, Vec<Stmt>, LabelID),
    Loop(Vec<Stmt>, LabelID),
    Else(Vec<Stmt>, LabelID),
    Match(VariableID, Box<Expr>, Box<Decision>),
}

#[derive(Debug)]
pub enum Decision {
    Failure,
    Success {
        stmts: Vec<Stmt>,
        result: Box<Expr>,
    },
    Test {
        tested_var: VariableID,
        pattern: Box<Pattern>,
        success: Box<Decision>,
        failure: Box<Decision>,
    },
}

#[derive(Debug)]
pub enum Signature {
    Missing,
    Args {
        args: Vec<Pattern>,
        next: Box<Signature>,
    },
    Done,
}

#[derive(Debug)]
pub enum PathQuery {
    Missing,
    Expr(CheckedExpr),
    Var(VariableID),
    Type(TypeID),
    Record(RecordID),
    Union(UnionID),
    Variant(UnionID, usize),
    Class(ClassID),
    ClassItem(ClassID, usize),
    Import(ImportID),
}

} // verus!
