use vstd::prelude::*;
use crate::api::Timestamp;

verus! {

/// A fighter, keyed by `id`. `mum` is the first mother of its line.
#[derive(Clone, Copy, Debug, PartialEq, Eq, Structural)]
pub struct Model {
    pub id: i64,
    pub wisdom_point: i32,
    pub strength_from: i32,
    pub strength_to: i32,
    pub attack_from: i32,
    pub attack_to: i32,
    pub defence_from: i32,
    pub defence_to: i32,
    pub omega_from: i32,
    pub omega_to: i32,
    pub mum: Option<i64>,
    pub last_updated: Timestamp,
}

} // verus!
