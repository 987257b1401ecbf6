use std::collections::BTreeMap;

use trv_sync::api::tournament_detail::Attack;
use trv_sync::api::tournament_detail::Battle;
use trv_sync::api::tournament_detail::Champion;
use trv_sync::api::tournament_detail::ChampionAttack;
use trv_sync::api::tournament_detail::TournamentDetailResponse;
use trv_sync::entity::tournament_detail_attack;
use trv_sync::entity::tournament_detail_champion;
use trv_sync::task::detail::detail_batch;
use trv_sync::task::detail::DetailBatch;

fn champion(token_id: u64, stance: u64) -> Champion {
    Champion { token_id, first_wins: 1, second_wins: 2, total_fought: 3, stance }
}

fn attack(order: u64, damage: u64) -> Attack {
    Attack { special_attack: order % 2 == 0, special_defend: order % 3 == 0, missed_hit: damage == 0, damage, order }
}

fn detail(damage: u64) -> TournamentDetailResponse {
    TournamentDetailResponse {
        champions: vec![champion(10, 1), champion(20, 2)],
        battles: vec![
            Battle {
                round: 1,
                champions: vec![
                    ChampionAttack { id: 10, attack: vec![attack(0, damage), attack(2, 0)] },
                    ChampionAttack { id: 20, attack: vec![attack(1, 5)] },
                ],
            },
            Battle { round: 2, champions: vec![ChampionAttack { id: 20, attack: vec![attack(0, 9)] }] },
        ],
    }
}

/// The attack log and the stances, written as the store writes them.
#[derive(Default)]
struct Tables {
    stances: BTreeMap<(i64, i64, i64), i32>,
    attacks: BTreeMap<(i64, i64, i32, i32), tournament_detail_attack::Model>,
}

impl Tables {
    fn write(&mut self, batch: &DetailBatch) {
        for row in &batch.stances {
            self.stances.insert((row.tournament_id, row.tournament_service_id, row.fighter_id), row.stance);
        }
        for row in &batch.attacks {
            self.attacks.entry((row.tournament_id, row.tournament_service_id, row.round, row.order)).or_insert(*row);
        }
    }
}

#[test]
fn test_detail_1() {
    let batch = detail_batch(77, 2, &detail(4));
    assert_eq!(
        batch.stances,
        vec![
            tournament_detail_champion::Model { tournament_id: 77, tournament_service_id: 2, fighter_id: 10, stance: 1 },
            tournament_detail_champion::Model { tournament_id: 77, tournament_service_id: 2, fighter_id: 20, stance: 2 },
        ]
    );
}

#[test]
fn test_detail_2() {
    let batch = detail_batch(77, 2, &detail(4));
    let got: Vec<_> = batch.attacks.iter().map(|a| (a.round, a.fighter_id, a.order, a.damage)).collect();
    assert_eq!(got, vec![(1, 10, 0, 4), (1, 10, 2, 0), (1, 20, 1, 5), (2, 20, 0, 9)]);
    assert!(batch.attacks.iter().all(|a| a.tournament_id == 77 && a.tournament_service_id == 2));
}

#[test]
fn test_detail_3() {
    let batch = detail_batch(1, 0, &detail(4));
    assert_eq!(
        batch.attacks[1],
        tournament_detail_attack::Model {
            tournament_id: 1,
            tournament_service_id: 0,
            fighter_id: 10,
            round: 1,
            order: 2,
            special_attack: true,
            special_defend: false,
            missed_hit: true,
            damage: 0,
        }
    );
}

#[test]
fn test_detail_empty_battle() {
    let x = TournamentDetailResponse { champions: vec![champion(1, 0)], battles: vec![] };
    assert!(x.battles.is_empty());
    let batch = detail_batch(5, 1, &x);
    assert!(batch.attacks.is_empty());
    assert_eq!(batch.stances.len(), 1);
}

#[test]
fn rounds_and_fighters_without_attacks_give_no_rows() {
    let x = TournamentDetailResponse {
        champions: vec![],
        battles: vec![
            Battle { round: 1, champions: vec![] },
            Battle { round: 2, champions: vec![ChampionAttack { id: 1, attack: vec![] }] },
            Battle { round: 3, champions: vec![ChampionAttack { id: 2, attack: vec![attack(0, 1)] }] },
        ],
    };
    let batch = detail_batch(5, 1, &x);
    assert!(batch.stances.is_empty());
    assert_eq!(batch.attacks.len(), 1);
    assert_eq!((batch.attacks[0].round, batch.attacks[0].fighter_id), (3, 2));
}

#[test]
fn wide_values_keep_their_low_bits() {
    let x = TournamentDetailResponse {
        champions: vec![champion(u64::MAX, (1 << 32) + 3)],
        battles: vec![Battle {
            round: (1 << 32) + 1,
            champions: vec![ChampionAttack { id: 1 << 63, attack: vec![attack(u64::MAX, 1 << 31)] }],
        }],
    };
    let batch = detail_batch(1, u64::MAX, &x);
    assert_eq!(batch.stances[0].fighter_id, -1);
    assert_eq!(batch.stances[0].stance, 3);
    assert_eq!(batch.stances[0].tournament_service_id, -1);
    let a = batch.attacks[0];
    assert_eq!((a.round, a.fighter_id, a.order, a.damage), (1, i64::MIN, -1, i32::MIN));
}

#[test]
fn recorded_attack_is_never_overwritten() {
    let mut tables = Tables::default();
    tables.write(&detail_batch(77, 2, &detail(4)));
    assert_eq!(tables.attacks[&(77, 2, 1, 0)].damage, 4);

    // The same fights come again, with another damage at round 1, place 0.
    tables.write(&detail_batch(77, 2, &detail(400)));
    assert_eq!(tables.attacks[&(77, 2, 1, 0)].damage, 4);
    assert_eq!(tables.attacks.len(), 4);
}

#[test]
fn stance_follows_the_latest_record() {
    let mut tables = Tables::default();
    tables.write(&detail_batch(77, 2, &detail(4)));
    let mut later = detail(4);
    later.champions[0].stance = 5;
    tables.write(&detail_batch(77, 2, &later));
    assert_eq!(tables.stances[&(77, 2, 10)], 5);
    assert_eq!(tables.stances[&(77, 2, 20)], 2);
}

#[test]
fn attacks_of_other_tournaments_do_not_collide() {
    let mut tables = Tables::default();
    tables.write(&detail_batch(77, 2, &detail(4)));
    tables.write(&detail_batch(77, 3, &detail(8)));
    tables.write(&detail_batch(78, 2, &detail(9)));
    assert_eq!(tables.attacks.len(), 12);
    assert_eq!(tables.attacks[&(77, 3, 1, 0)].damage, 8);
}
