use vstd::prelude::*;

verus! {

/// One attack of a tournament's log, keyed by tournament, service, round
/// and order.
#[derive(Clone, Copy, Debug, PartialEq, Eq, Structural)]
pub struct Model {
    pub tournament_id: i64,
    pub tournament_service_id: i64,
    pub fighter_id: i64,
    pub round: i32,
    pub order: i32,
    pub special_attack: bool,
    pub special_defend: bool,
    pub missed_hit: bool,
    pub damage: i32,
}

} // verus!
