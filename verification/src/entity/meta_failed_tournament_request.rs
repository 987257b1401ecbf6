use vstd::prelude::*;

verus! {

/// A page of the listing that could not be fetched or stored. The pair is
/// the key.
#[derive(Clone, Copy, Debug, PartialEq, Eq, Structural)]
pub struct Model {
    pub page_size: i64,
    pub page_index: i64,
}

} // verus!
