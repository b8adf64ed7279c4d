//! Labels of blocks and control flow structures after checking.

use vstd::prelude::*;
use crate::com::ir::TypeID;
use crate::com::loc::Loc;

verus! {

/// The index of a label.
#[derive(Debug, Copy, Clone, PartialEq, Eq, Structural)]
pub struct LabelID(pub usize);

/// A label: its name, the type of the values it returns, and whether it
/// can be skipped inside.
pub struct Label {
    pub name: Option<String>,
    pub ty: TypeID,
    pub skippable: bool,
    pub loc: Loc,
}

} // verus!
