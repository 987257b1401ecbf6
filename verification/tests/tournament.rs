use std::collections::BTreeMap;

use trv_sync::api::tournament::Configs;
use trv_sync::api::tournament::Level;
use trv_sync::api::tournament::SoloWarrior;
use trv_sync::api::tournament::Status;
use trv_sync::api::tournament::Tournament;
use trv_sync::api::tournament::Warrior;
use trv_sync::api::util::address_bytes;
use trv_sync::api::util::column_i32;
use trv_sync::api::util::column_i64;
use trv_sync::api::Timestamp;
use trv_sync::entity::sea_orm_active_enums::TournamentStatus;
use trv_sync::task::tournament::tournament_batch;
use trv_sync::task::tournament::tournament_row;
use trv_sync::task::tournament::TournamentBatch;

fn configs() -> Configs {
    Configs {
        currency: [0x11; 20],
        fee_percentage: 10,
        // 10^18 and 2^64 + 1.
        buy_in: [1_000_000_000_000_000_000, 0, 0, 0],
        top_up: [1, 1, 0, 0],
    }
}

fn modified() -> Timestamp {
    Timestamp { secs: 1_673_740_800, nanos: 123_000_000 }
}

fn started() -> Timestamp {
    Timestamp { secs: 1_673_737_200, nanos: 0 }
}

fn solo(id: i64, status: Status, fighters: &[u64]) -> Tournament {
    Tournament::OneVOne {
        tournament_id: id,
        configs: configs(),
        key: format!("solo-{id}"),
        level: Level { nav_key: "bronze".to_string() },
        modified: modified(),
        restrictions: "{\"min\":1}".to_string(),
        solo_optionals: "{\"boss\":4}".to_string(),
        start_time: started(),
        status,
        solo_warriors: fighters.iter().map(|&id| SoloWarrior { id }).collect(),
    }
}

fn pvp(service: u64, id: i64, status: Status, fighters: &[u64]) -> Tournament {
    let warriors = fighters.iter().map(|&id| Warrior { account: [id as u8; 20], id }).collect();
    let (tournament_id, class, key, legacy, level, name, restrictions, tournament_type) = (
        id,
        "{}".to_string(),
        format!("pvp-{id}"),
        service == 1,
        Level { nav_key: "silver".to_string() },
        format!("Cup {id}"),
        "[]".to_string(),
        "open".to_string(),
    );
    let (configs, modified, start_time) = (configs(), modified(), started());
    match service {
        1 => Tournament::Blooding {
            tournament_id, class, configs, key, legacy, level, modified, name, restrictions, start_time, status,
            tournament_type, warriors,
        },
        2 => Tournament::Bloodbath {
            tournament_id, class, configs, key, legacy, level, modified, name, restrictions, start_time, status,
            tournament_type, warriors,
        },
        _ => Tournament::BloodElo {
            tournament_id, class, configs, key, legacy, level, modified, name, restrictions, start_time, status,
            tournament_type, warriors,
        },
    }
}

fn now() -> Timestamp {
    Timestamp { secs: 1_700_000_000, nanos: 7 }
}

#[test]
fn solo_tournament_becomes_a_row_without_pvp_columns() {
    let row = tournament_row(&solo(5, Status::Completed, &[1]), now());
    assert_eq!(row.id, 5);
    assert_eq!(row.service_id, 0);
    assert_eq!(row.currency, vec![0x11; 20]);
    assert_eq!(row.fee_percentage, 10);
    assert_eq!(row.key, "solo-5");
    assert_eq!(row.legacy, None);
    assert_eq!(row.level, "bronze");
    assert_eq!(row.modified, modified());
    assert_eq!(row.name, None);
    assert_eq!(row.restrictions, "{\"min\":1}");
    assert_eq!(row.solo_optionals.as_deref(), Some("{\"boss\":4}"));
    assert_eq!(row.start_time, started());
    assert_eq!(row.status, TournamentStatus::Completed);
    assert_eq!(row.meta_last_updated, now());
}

#[test]
fn pvp_tournament_becomes_a_row_without_solo_columns() {
    for service in [1u64, 2, 3] {
        let row = tournament_row(&pvp(service, 8, Status::Completed, &[1, 2]), now());
        assert_eq!(row.id, 8);
        assert_eq!(row.service_id, service as i32);
        assert_eq!(row.legacy, Some(service == 1));
        assert_eq!(row.name.as_deref(), Some("Cup 8"));
        assert_eq!(row.solo_optionals, None);
        assert_eq!(row.level, "silver");
    }
}

#[test]
fn amounts_are_stored_as_one_big_endian_word() {
    let row = tournament_row(&solo(1, Status::Completed, &[]), now());
    // 10^18 = 0x0de0b6b3a7640000.
    let mut buy_in = vec![0u8; 24];
    buy_in.extend([0x0d, 0xe0, 0xb6, 0xb3, 0xa7, 0x64, 0x00, 0x00]);
    assert_eq!(row.buy_in, buy_in);
    // 2^64 + 1.
    let mut top_up = vec![0u8; 32];
    top_up[23] = 1;
    top_up[31] = 1;
    assert_eq!(row.top_up, top_up);
}

#[test]
fn every_limb_finds_its_place_in_the_word() {
    let mut t = configs();
    t.buy_in = [0x0807060504030201, 0x100f0e0d0c0b0a09, 0x1817161514131211, 0x201f1e1d1c1b1a19];
    t.top_up = [u64::MAX; 4];
    let tournament = Tournament::OneVOne {
        tournament_id: 1,
        configs: t,
        key: String::new(),
        level: Level { nav_key: String::new() },
        modified: now(),
        restrictions: String::new(),
        solo_optionals: String::new(),
        start_time: now(),
        status: Status::Completed,
        solo_warriors: vec![],
    };
    let row = tournament_row(&tournament, now());
    assert_eq!(row.buy_in, (1..=32u8).rev().collect::<Vec<_>>());
    assert_eq!(row.top_up, vec![0xff; 32]);
}

#[test]
fn address_is_stored_byte_for_byte() {
    let mut a = [0u8; 20];
    for (i, b) in a.iter_mut().enumerate() {
        *b = i as u8 * 3;
    }
    assert_eq!(address_bytes(&a), a.to_vec());
}

#[test]
fn columns_keep_the_low_bits() {
    assert_eq!(column_i32(7), 7);
    assert_eq!(column_i32(u32::MAX as u64), -1);
    assert_eq!(column_i32((1 << 32) + 9), 9);
    assert_eq!(column_i64(7), 7);
    assert_eq!(column_i64(u64::MAX), -1);
    assert_eq!(column_i64(1 << 63), i64::MIN);
}

#[test]
fn cancelled_tournament_is_never_written() {
    let page = vec![
        pvp(1, 1, Status::Completed, &[10, 11]),
        pvp(2, 2, Status::Cancelled, &[20, 21]),
        solo(3, Status::Cancelled, &[30]),
        solo(4, Status::Completed, &[40]),
    ];
    assert_eq!(Status::from_raw("CANCEL_SUCCEED"), Some(Status::Cancelled));
    let batch = tournament_batch(&page, now());
    let rows: Vec<_> = batch.tournaments.iter().flatten().collect();
    assert_eq!(rows.iter().map(|r| (r.id, r.service_id)).collect::<Vec<_>>(), vec![(1, 1), (4, 0)]);
    assert!(rows.iter().all(|r| r.status == TournamentStatus::Completed));
    let entrants: Vec<_> = batch.participants.iter().flat_map(|c| c.rows.iter()).collect();
    assert_eq!(entrants.iter().map(|r| r.fighter_id).collect::<Vec<_>>(), vec![10, 11, 40]);
    assert!(entrants.iter().all(|r| r.tournament_id != 2 && r.tournament_id != 3));
    assert_eq!(batch.participants[0].keys, vec![(1, 1), (4, 0)]);
}

#[test]
fn page_of_cancelled_tournaments_writes_nothing() {
    let page = vec![pvp(1, 1, Status::Cancelled, &[1]), solo(2, Status::Cancelled, &[2])];
    let batch = tournament_batch(&page, now());
    assert!(batch.tournaments.is_empty());
    assert!(batch.participants.is_empty());
    assert!(tournament_batch(&vec![], now()).tournaments.is_empty());
}

#[test]
fn entrants_carry_an_account_only_in_pvp() {
    let page = vec![solo(1, Status::Completed, &[5, 6]), pvp(3, 2, Status::Completed, &[7])];
    let batch = tournament_batch(&page, now());
    let got: Vec<_> = batch.participants[0]
        .rows
        .iter()
        .map(|r| (r.tournament_id, r.tournament_service_id, r.fighter_id, r.account.clone()))
        .collect();
    assert_eq!(got, vec![(1, 0, 5, None), (1, 0, 6, None), (2, 3, 7, Some(vec![7u8; 20]))]);
}

#[test]
fn group_names_each_of_its_tournaments_once() {
    let page = vec![
        pvp(1, 4, Status::Completed, &[1, 2]),
        pvp(2, 5, Status::Completed, &[]),
        solo(9, Status::Completed, &[3]),
    ];
    let batch = tournament_batch(&page, now());
    assert_eq!(batch.participants.len(), 1);
    assert_eq!(batch.participants[0].keys, vec![(4, 1), (5, 2), (9, 0)]);
    assert_eq!(batch.participants[0].rows.len(), 3);
}

#[test]
fn tournaments_are_written_a_hundred_at_a_time() {
    // 128 tournaments with three entrants each: 128 rows and 384 entrant rows.
    let page: Vec<_> = (0..128).map(|id| pvp(1, id, Status::Completed, &[1, 2, 3])).collect();
    let batch = tournament_batch(&page, now());
    assert_eq!(batch.tournaments.iter().map(|c| c.len()).collect::<Vec<_>>(), vec![100, 28]);
    assert_eq!(batch.participants.iter().map(|c| c.keys.len()).collect::<Vec<_>>(), vec![100, 28]);
    assert_eq!(batch.participants.iter().map(|c| c.rows.len()).collect::<Vec<_>>(), vec![300, 84]);
    assert_eq!(batch.tournaments.iter().flatten().map(|r| r.id).collect::<Vec<_>>(), (0..128).collect::<Vec<i64>>());
    // Every group names the tournaments of its rows, and no tournament is parted.
    for (c, group) in batch.tournaments.iter().enumerate() {
        let keys: Vec<_> = group.iter().map(|r| (r.id, r.service_id)).collect();
        assert_eq!(batch.participants[c].keys, keys);
        assert!(batch.participants[c].rows.iter().all(|r| keys.contains(&(r.tournament_id, r.tournament_service_id))));
    }
    let mut table = BTreeMap::new();
    write(&mut table, &batch);
    assert_eq!(table.len(), 384);
    for id in 0..128 {
        assert_eq!(table.keys().filter(|k| k.0 == id).count(), 3);
    }
}

#[test]
fn entrants_of_one_tournament_are_never_parted() {
    // 99 entrants in the first tournament, fighters 100 and 101 in the second.
    let first: Vec<u64> = (1..=99).collect();
    let page = vec![pvp(1, 1, Status::Completed, &first), pvp(1, 2, Status::Completed, &[100, 101])];
    let mut table = BTreeMap::new();
    write(&mut table, &tournament_batch(&page, now()));
    assert_eq!(table.len(), 101);
    let of = |id: i64| table.keys().filter(|k| k.0 == id && k.1 == 1).map(|k| k.2).collect::<Vec<_>>();
    assert_eq!(of(2), vec![100, 101]);
    assert_eq!(of(1), (1..=99).collect::<Vec<i64>>());
}

#[test]
fn tournament_without_entrants_loses_its_old_ones() {
    let mut table = BTreeMap::new();
    write(&mut table, &tournament_batch(&vec![pvp(1, 1, Status::Completed, &[1, 2])], now()));
    assert_eq!(table.len(), 2);
    write(&mut table, &tournament_batch(&vec![pvp(1, 1, Status::Completed, &[])], now()));
    assert!(table.is_empty());
}

/// The entrant table, written as the store writes it.
fn write(table: &mut BTreeMap<(i64, i32, i64), Option<Vec<u8>>>, batch: &TournamentBatch) {
    for chunk in &batch.participants {
        table.retain(|k, _| !chunk.keys.contains(&(k.0, k.1)));
        for row in &chunk.rows {
            table.insert((row.tournament_id, row.tournament_service_id, row.fighter_id), row.account.clone());
        }
    }
}

#[test]
fn entrants_are_reconciled_to_the_latest_page() {
    let mut table = BTreeMap::new();
    write(&mut table, &tournament_batch(&vec![pvp(1, 1, Status::Completed, &[1, 2]), solo(1, Status::Completed, &[9])], now()));
    write(&mut table, &tournament_batch(&vec![pvp(1, 1, Status::Completed, &[2, 3])], now()));
    let keys: Vec<_> = table.keys().copied().collect();
    assert_eq!(keys, vec![(1, 0, 9), (1, 1, 2), (1, 1, 3)]);
}
