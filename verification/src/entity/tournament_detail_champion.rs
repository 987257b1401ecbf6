use vstd::prelude::*;

verus! {

/// The stance of one fighter in one tournament, keyed by tournament,
/// service and fighter.
#[derive(Clone, Copy, Debug, PartialEq, Eq, Structural)]
pub struct Model {
    pub tournament_id: i64,
    pub tournament_service_id: i64,
    pub fighter_id: i64,
    pub stance: i32,
}

} // verus!
