use vstd::prelude::*;

verus! {

/// An entrant of a tournament, keyed by tournament, service and fighter.
/// Solo tournaments record no account.
#[derive(Clone, Debug)]
pub struct Model {
    pub tournament_id: i64,
    pub tournament_service_id: i32,
    pub fighter_id: i64,
    pub account: Option<Vec<u8>>,
}

/// What a row holds.
pub struct ModelView {
    pub tournament_id: i64,
    pub tournament_service_id: i32,
    pub fighter_id: i64,
    pub account: Option<Seq<u8>>,
}

impl View for Model {
    type V = ModelView;

    open spec fn view(&self) -> ModelView {
        ModelView {
            tournament_id: self.tournament_id,
            tournament_service_id: self.tournament_service_id,
            fighter_id: self.fighter_id,
            account: match self.account {
                Some(account) => Some(account@),
                None => None,
            },
        }
    }
}

} // verus!
