use vstd::prelude::*;

verus! {

/// An edge of the lineage: `parent_id` is a parent of `fighter_id`. The pair
/// is the key.
#[derive(Clone, Copy, Debug, PartialEq, Eq, Structural)]
pub struct Model {
    pub fighter_id: i64,
    pub parent_id: i64,
}

} // verus!
