//! The rows of the relational store, one module for each table.

use vstd::prelude::*;

pub mod fighter;
pub mod fighter_parent;
pub mod fighter_trait;
pub mod meta_failed_tournament_request;
pub mod meta_last_page;
pub mod sea_orm_active_enums;
pub mod tournament;
pub mod tournament_detail_attack;
pub mod tournament_detail_champion;
pub mod tournament_fighter;

verus! {

/// What each of `rows` holds.
pub open spec fn views<T: View>(rows: Seq<T>) -> Seq<T::V> {
    Seq::new(rows.len(), |i: int| rows[i]@)
}

} // verus!
