//! What is known of a function while it is checked.

use vstd::prelude::*;
use std::collections::BTreeSet;
use crate::com::ir::EntityID;

verus! {

/// The depth of a function, and the entities it captures.
#[derive(Default, Debug, Clone)]
pub struct FunInfo {
    pub depth: usize,
    pub captured: BTreeSet<EntityID>,
}

} // verus!
