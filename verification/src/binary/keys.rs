//! Facts about the integer keys of the function table.

use vstd::prelude::*;

verus! {

/// `u32` keys are ordered the way `BTreeMap` expects.
pub proof fn lemma_u32_keys_ordered()
    ensures
        vstd::std_specs::btree::key_obeys_cmp_spec::<u32>(),
{
    broadcast use vstd::std_specs::btree::group_btree_axioms, vstd::laws_cmp::group_laws_cmp;
}

} // verus!
