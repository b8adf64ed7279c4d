//! The syntax tree of Marin source files: expressions and their parts,
//! each carrying the spans of its tokens.

use vstd::prelude::*;
use crate::com::loc::Span;
use crate::com::ast::{BinOp, UnOp, Label};

verus! {

#[derive(Debug)]
pub enum Expr {
    Missing(Lexeme),
    Int(Lexeme),
    Float(Lexeme),
    String(Lexeme),
    Builtin(Lexeme),
    True(Lexeme),
    False(Lexeme),
    Underscores(Lexeme),
    Var(Lexeme),
    Tuple(Tuple),
    Array(Array),
    Block(Block),
    Conditional(Conditional),
    Break(Break),
    Skip(Skip),
    Call(Call),
    Index(Index),
    Access(Access),
    Let(Let),
    Pub(Pub),
    Fun(Fun),
    Alias(Alias),
    Import(Import),
    ImportFrom(ImportFrom),
    Super(Lexeme),
    Record(Record),
    RecordValue(RecordValue),
    Union(Union),
    Class(Class),
    Have(Have),
    Binary(Binary),
    Unary(Unary),
    ArrayType(ArrayType),
}

#[derive(Debug, Clone, Copy, PartialEq, Eq, Structural)]
pub struct Lexeme {
    pub span: Span,
}

#[derive(Debug)]
pub struct Tuple {
    pub left_paren: Span,
    pub right_paren: Span,
    pub items: Vec<Expr>,
}

#[derive(Debug)]
pub struct Array {
    pub left_bracket: Span,
    pub right_bracket: Span,
    pub items: Vec<Expr>,
}

#[derive(Debug)]
pub struct Block {
    pub do_kw: Span,
    pub end_kw: Span,
    pub label: Box<Label>,
    pub items: Vec<Expr>,
}

#[derive(Debug)]
pub struct Conditional {
    pub first_branch: Box<Branch>,
    pub else_branches: Vec<(Span, Branch)>,
    pub end_kw: Span,
}

#[derive(Debug)]
pub enum Branch {
    If(IfBranch),
    While(WhileBranch),
    Loop(LoopBranch),
    Match(MatchBranch),
    Else(ElseBranch),
}

#[derive(Debug)]
pub struct IfBranch {
    pub if_kw: Span,
    pub then_kw: Span,
    pub label: Box<Label>,
    pub condition: Box<Expr>,
    pub body: Vec<Expr>,
}

#[derive(Debug)]
pub struct WhileBranch {
    pub while_kw: Span,
    pub do_kw: Span,
    pub label: Box<Label>,
    pub condition: Box<Expr>,
    pub body: Vec<Expr>,
}

#[derive(Debug)]
pub struct LoopBranch {
    pub loop_kw: Span,
    pub label: Box<Label>,
    pub body: Vec<Expr>,
}

#[derive(Debug)]
pub struct MatchBranch {
    pub match_kw: Span,
    pub with_kw: Span,
    pub scrutinee: Box<Expr>,
    pub cases: Vec<MatchCase>,
}

#[derive(Debug)]
pub struct MatchCase {
    pub maps: Span,
    pub pattern: Box<Expr>,
    pub value: Box<Expr>,
}

#[derive(Debug)]
pub struct ElseBranch {
    pub label: Box<Label>,
    pub body: Vec<Expr>,
}

#[derive(Debug)]
pub struct Break {
    pub break_kw: Span,
    pub label: Box<Label>,
    pub expr: Option<Box<Expr>>,
}

#[derive(Debug)]
pub struct Skip {
    pub skip_kw: Span,
    pub label: Box<Label>,
}

#[derive(Debug)]
pub struct Call {
    pub left_paren: Span,
    pub right_paren: Span,
    pub callee: Box<Expr>,
    pub args: Vec<Expr>,
}

#[derive(Debug)]
pub struct Index {
    pub left_bracket: Span,
    pub right_bracket: Span,
    pub indexed: Box<Expr>,
    pub indices: Vec<Expr>,
}

#[derive(Debug)]
pub struct Access {
    pub dot: Span,
    pub accessed: Box<Expr>,
    pub accessor: Box<Expr>,
}

#[derive(Debug)]
pub struct Let {
    pub let_kw: Span,
    pub assign: Option<Span>,
    pub pattern: Box<Expr>,
    pub value: Box<Expr>,
}

#[derive(Debug)]
pub struct Pub {
    pub pub_kw: Span,
    pub expr: Box<Expr>,
}

#[derive(Debug)]
pub struct Fun {
    pub fun_kw: Span,
    pub maps: Option<Span>,
    pub signature: Box<Expr>,
    pub value: Box<Expr>,
}

#[derive(Debug)]
pub struct Alias {
    pub alias_kw: Span,
    pub as_kw: Span,
    pub path: Box<Expr>,
    pub name: Span,
}

#[derive(Debug)]
pub struct Import {
    pub import_kw: Span,
    pub queries: Vec<ImportQuery>,
}

#[derive(Debug)]
pub struct ImportFrom {
    pub import_kw: Span,
    pub from_kw: Span,
    pub queries: Vec<ImportQuery>,
    pub path_query: Box<Expr>,
    pub path_query_uid: usize,
}

#[derive(Debug)]
pub struct ImportQuery {
    pub uid: usize,
    pub query: Box<Expr>,
    pub alias: Option<Span>,
}

#[derive(Debug)]
pub struct Record {
    pub record_kw: Span,
    pub end_kw: Span,
    pub signature: Box<Expr>,
    pub fields: Vec<(Expr, Expr)>,
}

#[derive(Debug)]
pub struct RecordValue {
    pub left_brace: Span,
    pub right_brace: Span,
    pub fields: Vec<(Expr, Option<Expr>)>,
}

#[derive(Debug)]
pub struct Union {
    pub union_kw: Span,
    pub end_kw: Span,
    pub signature: Box<Expr>,
    pub variants: Vec<Expr>,
}

#[derive(Debug, Clone, Copy, PartialEq, Eq, Structural)]
pub enum ClassItem {
    Constant,
    Function,
    Unknown,
}

#[derive(Debug)]
pub struct Class {
    pub class_kw: Span,
    pub end_kw: Span,
    pub signature: Box<Expr>,
    pub associated: Option<Vec<Expr>>,
    pub items: Vec<(ClassItem, Expr, Expr)>,
}

#[derive(Debug)]
pub struct Have {
    pub have_kw: Span,
    pub end_kw: Span,
    pub class: Box<Expr>,
    pub items: Vec<Expr>,
}

#[derive(Debug)]
pub struct Binary {
    pub op: BinOp,
    pub op_tok: Span,
    pub left: Box<Expr>,
    pub right: Box<Expr>,
}

#[derive(Debug)]
pub struct Unary {
    pub op: UnOp,
    pub op_tok: Span,
    pub arg: Box<Expr>,
}

#[derive(Debug)]
pub struct ArrayType {
    pub left_bracket: Span,
    pub right_bracket: Span,
    pub ty: Box<Expr>,
}


} // verus!
