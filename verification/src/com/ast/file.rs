//! A parsed source file.

use vstd::prelude::*;
use crate::com::ast::Expr;

verus! {

/// The expressions of a source file, in order.
pub struct File(pub Vec<Expr>);

} // verus!
