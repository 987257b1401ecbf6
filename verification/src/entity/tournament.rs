use vstd::prelude::*;
use crate::api::Timestamp;
use crate::entity::sea_orm_active_enums::TournamentStatus;

verus! {

/// A tournament, keyed by `id` and `service_id`. The address and the two
/// amounts are stored as bytes, the structured values as their JSON text.
#[derive(Clone, Debug)]
pub struct Model {
    pub id: i64,
    pub service_id: i32,
    pub currency: Vec<u8>,
    pub fee_percentage: i32,
    pub buy_in: Vec<u8>,
    pub top_up: Vec<u8>,
    pub key: String,
    pub legacy: Option<bool>,
    pub level: String,
    pub modified: Timestamp,
    pub name: Option<String>,
    pub restrictions: String,
    pub solo_optionals: Option<String>,
    pub start_time: Timestamp,
    pub status: TournamentStatus,
    pub meta_last_updated: Timestamp,
}

/// What a row holds.
pub struct ModelView {
    pub id: i64,
    pub service_id: i32,
    pub currency: Seq<u8>,
    pub fee_percentage: i32,
    pub buy_in: Seq<u8>,
    pub top_up: Seq<u8>,
    pub key: Seq<char>,
    pub legacy: Option<bool>,
    pub level: Seq<char>,
    pub modified: Timestamp,
    pub name: Option<Seq<char>>,
    pub restrictions: Seq<char>,
    pub solo_optionals: Option<Seq<char>>,
    pub start_time: Timestamp,
    pub status: TournamentStatus,
    pub meta_last_updated: Timestamp,
}

impl View for Model {
    type V = ModelView;

    open spec fn view(&self) -> ModelView {
        ModelView {
            id: self.id,
            service_id: self.service_id,
            currency: self.currency@,
            fee_percentage: self.fee_percentage,
            buy_in: self.buy_in@,
            top_up: self.top_up@,
            key: self.key@,
            legacy: self.legacy,
            level: self.level@,
            modified: self.modified,
            name: match self.name {
                Some(name) => Some(name@),
                None => None,
            },
            restrictions: self.restrictions@,
            solo_optionals: match self.solo_optionals {
                Some(text) => Some(text@),
                None => None,
            },
            start_time: self.start_time,
            status: self.status,
            meta_last_updated: self.meta_last_updated,
        }
    }
}

} // verus!
