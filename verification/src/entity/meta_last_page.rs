use vstd::prelude::*;

verus! {

/// The page at which the last completed scan of the listing ended. The
/// table holds at most one such row.
#[derive(Clone, Copy, Debug, PartialEq, Eq, Structural)]
pub struct Model {
    pub page_size: i64,
    pub page_index: i64,
}

} // verus!
