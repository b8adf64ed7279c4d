//! Labels that name blocks and control flow structures.

use vstd::prelude::*;
use crate::com::loc::Span;
use crate::com::ast::Expr;

verus! {

/// A label: a name between chevrons, or nothing at a position.
#[derive(Debug)]
pub enum Label {
    Named(NamedLabel),
    Empty(Span),
}

/// A label with a name.
#[derive(Debug)]
pub struct NamedLabel {
    pub left_chev: Span,
    pub right_chev: Span,
    pub name_expr: Box<Expr>,
}

} // verus!
