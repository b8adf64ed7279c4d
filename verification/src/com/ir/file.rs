//! A checked source file.

use vstd::prelude::*;
use crate::com::ir::Stmt;

verus! {

/// The statements of a checked source file, in order.
pub struct Module {
    pub stmts: Vec<Stmt>,
}

} // verus!
