use vstd::prelude::*;
use crate::api::tournament::Status;

verus! {

/// How a stored tournament ended.
#[derive(Clone, Copy, Debug, PartialEq, Eq, Structural)]
pub enum TournamentStatus {
    Completed,
    Cancelled,
}

impl TournamentStatus {
    /// The stored status that stands for an upstream status.
    pub open spec fn spec_of(value: Status) -> TournamentStatus {
        match value {
            Status::Completed => TournamentStatus::Completed,
            Status::Cancelled => TournamentStatus::Cancelled,
        }
    }

    pub fn of(value: Status) -> (status: TournamentStatus)
        ensures
            status == Self::spec_of(value),
    {
        match value {
            Status::Completed => TournamentStatus::Completed,
            Status::Cancelled => TournamentStatus::Cancelled,
        }
    }
}

} // verus!
