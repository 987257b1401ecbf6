//! The record of one tournament's fights.

use vstd::prelude::*;

verus! {

/// What was fought in one tournament: who took part, and every round. A
/// tournament without a recorded hit has no battles.
#[derive(Clone, Debug)]
pub struct TournamentDetailResponse {
    pub champions: Vec<Champion>,
    pub battles: Vec<Battle>,
}

/// One fighter's record in a tournament.
#[derive(Clone, Copy, Debug)]
pub struct Champion {
    pub token_id: u64,
    pub first_wins: u64,
    pub second_wins: u64,
    pub total_fought: u64,
    pub stance: u64,
}

/// One round, with the attacks of each fighter in it.
#[derive(Clone, Debug)]
pub struct Battle {
    pub round: u64,
    pub champions: Vec<ChampionAttack>,
}

/// The attacks of one fighter in one round.
#[derive(Clone, Debug)]
pub struct ChampionAttack {
    pub id: u64,
    pub attack: Vec<Attack>,
}

/// One attack. `order` places it among all attacks of its round.
#[derive(Clone, Copy, Debug)]
pub struct Attack {
    pub special_attack: bool,
    pub special_defend: bool,
    pub missed_hit: bool,
    pub damage: u64,
    pub order: u64,
}

} // verus!
