use std::collections::BTreeMap;
use std::collections::BTreeSet;

use trv_sync::api::fighter::AttributeEntry;
use trv_sync::api::fighter::Attributes;
use trv_sync::api::fighter::FighterResponse;
use trv_sync::api::fighter::LineageNode;
use trv_sync::api::fighter::Stat;
use trv_sync::api::fighter::Statistics;
use trv_sync::api::fighter::Wisdom;
use trv_sync::api::util::decimal_text;
use trv_sync::api::util::push_decimal;
use trv_sync::api::Timestamp;
use trv_sync::entity::fighter;
use trv_sync::entity::fighter_parent;
use trv_sync::task::chunk::CHUNK_SIZE;
use trv_sync::task::fighter::fighter_batch;
use trv_sync::task::fighter::fighter_row;
use trv_sync::task::fighter::push_parent_rows;
use trv_sync::task::fighter::push_trait_rows;
use trv_sync::task::fighter::trait_row;
use trv_sync::task::fighter::Fetched;
use trv_sync::task::fighter::FighterBatch;

fn stat(from: u64, to: u64) -> Stat {
    Stat::from_range(1, [from, to])
}

fn text(trait_type: &str, value: &str) -> AttributeEntry {
    AttributeEntry::Text { trait_type: trait_type.to_string(), value: value.to_string() }
}

fn fighter(id: u64, traits: Vec<AttributeEntry>, lineage: Option<LineageNode>) -> FighterResponse {
    FighterResponse {
        attributes: Attributes { id, champion_type: Some("Genesis".to_string()), attributes: traits },
        statistic: Statistics {
            wisdom: Wisdom {
                point: 1000 + id,
                strength: stat(10, 20),
                attack: stat(30, 40),
                defence: stat(50, 60),
                omega: stat(70, 80),
            },
            elo: None,
            owner_address: [0x42; 20],
        },
        lineage_node: lineage,
    }
}

fn at(secs: i64) -> Timestamp {
    Timestamp { secs, nanos: 0 }
}

fn fetched(fighters: Vec<FighterResponse>, secs: i64) -> Vec<Fetched> {
    fighters.into_iter().map(|fighter| Fetched { fighter, at: at(secs) }).collect()
}

/// The three fighter tables, written as the store writes them.
#[derive(Default, Clone, PartialEq, Debug)]
struct Tables {
    fighters: BTreeMap<i64, fighter::Model>,
    traits: BTreeMap<(i64, String), String>,
    parents: BTreeSet<(i64, i64)>,
}

impl Tables {
    fn write(&mut self, batch: &FighterBatch) {
        for chunk in &batch.fighters {
            for row in chunk {
                match self.fighters.get_mut(&row.id) {
                    Some(held) => *held = fighter::Model { id: held.id, mum: held.mum, ..*row },
                    None => {
                        self.fighters.insert(row.id, *row);
                    }
                }
            }
        }
        for chunk in &batch.traits {
            self.traits.retain(|k, _| !chunk.fighter_ids.contains(&k.0));
            for row in &chunk.rows {
                self.traits.insert((row.fighter_id, row.trait_type.clone()), row.value.clone());
            }
        }
        for chunk in &batch.parents {
            self.parents.retain(|k| !chunk.fighter_ids.contains(&k.0));
            for row in &chunk.rows {
                self.parents.insert((row.fighter_id, row.parent_id));
            }
        }
    }

    fn traits_of(&self, id: i64) -> Vec<(String, String)> {
        self.traits.iter().filter(|(k, _)| k.0 == id).map(|(k, v)| (k.1.clone(), v.clone())).collect()
    }
}

#[test]
fn test_fighter() {
    let f = fighter(12, vec![text("Class", "Barbarian")], None);
    let row = fighter_row(&f, at(99));
    assert_eq!(
        row,
        fighter::Model {
            id: 12,
            wisdom_point: 1012,
            strength_from: 10,
            strength_to: 20,
            attack_from: 30,
            attack_to: 40,
            defence_from: 50,
            defence_to: 60,
            omega_from: 70,
            omega_to: 80,
            mum: None,
            last_updated: at(99),
        }
    );
}

#[test]
fn test_fighter_29001() {
    let f = fighter(29_001, vec![], Some(LineageNode { original_mum: 17, parents: [101, 202] }));
    let row = fighter_row(&f, at(5));
    assert_eq!(row.id, 29_001);
    assert_eq!(row.mum, Some(17));
    let mut edges = vec![];
    push_parent_rows(&f, &mut edges);
    assert_eq!(
        edges,
        vec![
            fighter_parent::Model { fighter_id: 29_001, parent_id: 101 },
            fighter_parent::Model { fighter_id: 29_001, parent_id: 202 },
        ]
    );
}

#[test]
fn test_fighter_28787() {
    let f = fighter(
        28_787,
        vec![text("Class", "Wizard"), AttributeEntry::Number { trait_type: "Generation".to_string(), number: 3 }],
        None,
    );
    let mut rows = vec![];
    push_trait_rows(&f, &mut rows);
    let got: Vec<(i64, &str, &str)> =
        rows.iter().map(|r| (r.fighter_id, r.trait_type.as_str(), r.value.as_str())).collect();
    assert_eq!(got, vec![(28_787, "Class", "Wizard"), (28_787, "Generation", "3")]);
}

#[test]
fn stat_reads_its_range() {
    let s = Stat::from_range(7, [11, 13]);
    assert_eq!((s.current_range, s.from, s.to), (7, 11, 13));
}

#[test]
fn lineage_needs_exactly_two_parents() {
    assert!(LineageNode::from_parts(1, &vec![]).is_none());
    assert!(LineageNode::from_parts(1, &vec![5]).is_none());
    assert!(LineageNode::from_parts(1, &vec![5, 6, 7]).is_none());
    let node = LineageNode::from_parts(1, &vec![5, 6]).unwrap();
    assert_eq!(node.original_mum, 1);
    assert_eq!(node.parents, [5, 6]);
}

#[test]
fn numbers_are_written_in_decimal() {
    for (n, s) in [(0u64, "0"), (7, "7"), (10, "10"), (12_345, "12345"), (u64::MAX, "18446744073709551615")] {
        let row = trait_row(9, &AttributeEntry::Number { trait_type: "Level".to_string(), number: n });
        assert_eq!(row.value, s);
        assert_eq!(row.trait_type, "Level");
        assert_eq!(row.fighter_id, 9);
    }
}

#[test]
fn wide_numbers_keep_their_low_bits() {
    let mut f = fighter(u64::MAX, vec![], None);
    f.statistic.wisdom.point = (1 << 32) + 5;
    f.statistic.wisdom.omega.to = u64::MAX;
    f.statistic.wisdom.attack.from = 1 << 31;
    let row = fighter_row(&f, at(0));
    assert_eq!(row.id, -1);
    assert_eq!(row.wisdom_point, 5);
    assert_eq!(row.omega_to, -1);
    assert_eq!(row.attack_from, i32::MIN);
}

#[test]
fn fighter_has_two_parent_edges_or_none() {
    let with = fighter(1, vec![], Some(LineageNode { original_mum: 1, parents: [2, 3] }));
    let without = fighter(4, vec![], None);
    let same = fighter(5, vec![], Some(LineageNode { original_mum: 1, parents: [6, 6] }));
    for (f, n) in [(&with, 2), (&without, 0), (&same, 2)] {
        let mut edges = vec![fighter_parent::Model { fighter_id: 0, parent_id: 0 }];
        push_parent_rows(f, &mut edges);
        assert_eq!(edges.len(), 1 + n);
        assert!(edges[1..].iter().all(|e| e.fighter_id == f.attributes.id as i64));
    }
    let batch = fighter_batch(&fetched(vec![with, without, same], 0));
    let edges: Vec<_> = batch.parents.iter().flat_map(|c| c.rows.iter()).collect();
    for id in [1, 4, 5] {
        let n = edges.iter().filter(|e| e.fighter_id == id).count();
        assert!(n == 0 || n == 2);
    }
}

#[test]
fn nothing_fetched_writes_nothing() {
    let batch = fighter_batch(&vec![]);
    assert!(batch.fighters.is_empty());
    assert!(batch.traits.is_empty());
    assert!(batch.parents.is_empty());
}

#[test]
fn fighters_are_written_a_hundred_at_a_time() {
    assert_eq!(CHUNK_SIZE, 100);
    // 250 fighters, each with one trait; every third has lineage.
    let fighters: Vec<_> = (0..250u64)
        .map(|id| {
            let lineage = (id % 3 == 0).then_some(LineageNode { original_mum: 0, parents: [id + 1, id + 2] });
            fighter(id, vec![text("Class", "Druid")], lineage)
        })
        .collect();
    let batch = fighter_batch(&fetched(fighters, 1));
    assert_eq!(batch.fighters.iter().map(|c| c.len()).collect::<Vec<_>>(), vec![100, 100, 50]);
    assert_eq!(batch.traits.iter().map(|c| c.rows.len()).collect::<Vec<_>>(), vec![100, 100, 50]);
    // 34, 33 and 17 fighters with lineage, two edges each.
    assert_eq!(batch.parents.iter().map(|c| c.rows.len()).collect::<Vec<_>>(), vec![68, 66, 34]);
    // The order of the answers is kept across the groups.
    let ids: Vec<i64> = batch.fighters.iter().flatten().map(|r| r.id).collect();
    assert_eq!(ids, (0..250).collect::<Vec<i64>>());
    // Every group names each of its fighters, with or without rows.
    for (c, group) in batch.fighters.iter().enumerate() {
        let ids: Vec<i64> = group.iter().map(|r| r.id).collect();
        assert_eq!(batch.traits[c].fighter_ids, ids);
        assert_eq!(batch.parents[c].fighter_ids, ids);
        assert!(batch.traits[c].rows.iter().all(|r| ids.contains(&r.fighter_id)));
        assert!(batch.parents[c].rows.iter().all(|r| ids.contains(&r.fighter_id)));
    }
    assert_eq!(batch.parents[0].rows[2], fighter_parent::Model { fighter_id: 3, parent_id: 4 });
}

#[test]
fn rows_of_one_fighter_are_never_parted() {
    // Fighter 1 has 99 attributes, fighter 2 has X and Y.
    let many: Vec<_> = (0..99).map(|i| text(&format!("T{i}"), "v")).collect();
    let batch = fighter_batch(&fetched(
        vec![fighter(1, many, None), fighter(2, vec![text("X", "x"), text("Y", "y")], None)],
        1,
    ));
    assert_eq!(batch.traits.len(), 1);
    assert_eq!(batch.traits[0].rows.len(), 101);
    let mut tables = Tables::default();
    tables.write(&batch);
    assert_eq!(tables.traits_of(2), vec![("X".to_string(), "x".to_string()), ("Y".to_string(), "y".to_string())]);
    assert_eq!(tables.traits_of(1).len(), 99);
}

#[test]
fn fighter_at_a_group_boundary_keeps_all_its_rows() {
    // Fighters 0..=99 fill the first group; fighter 100 opens the second.
    let fighters: Vec<_> = (0..=100u64)
        .map(|id| {
            fighter(
                id,
                vec![text("A", "1"), text("B", "2"), text("C", "3")],
                Some(LineageNode { original_mum: 0, parents: [id + 1000, id + 2000] }),
            )
        })
        .collect();
    let mut tables = Tables::default();
    tables.write(&fighter_batch(&fetched(fighters, 1)));
    for id in [0, 99, 100] {
        assert_eq!(tables.traits_of(id).len(), 3);
        assert_eq!(tables.parents.iter().filter(|e| e.0 == id).count(), 2);
    }
    assert_eq!(tables.traits.len(), 303);
    assert_eq!(tables.parents.len(), 202);
}

#[test]
fn fighter_without_attributes_loses_its_old_ones() {
    let mut tables = Tables::default();
    tables.write(&fighter_batch(&fetched(
        vec![fighter(1, vec![text("A", "1")], Some(LineageNode { original_mum: 0, parents: [7, 8] }))],
        1,
    )));
    assert_eq!(tables.traits_of(1).len(), 1);
    assert_eq!(tables.parents.len(), 2);
    let batch = fighter_batch(&fetched(vec![fighter(1, vec![], None)], 2));
    assert_eq!(batch.traits[0].fighter_ids, vec![1]);
    assert!(batch.traits[0].rows.is_empty());
    assert_eq!(batch.parents[0].fighter_ids, vec![1]);
    tables.write(&batch);
    assert!(tables.traits_of(1).is_empty());
    assert!(tables.parents.is_empty());
    assert_eq!(tables.fighters.len(), 1);
}

#[test]
fn second_scan_in_another_order_changes_only_the_refresh_time() {
    let fighters: Vec<_> = (0..230u64)
        .map(|id| {
            let lineage = (id % 2 == 1).then_some(LineageNode { original_mum: 1, parents: [id + 1000, id + 2000] });
            let traits = (0..id % 4).map(|i| text(&format!("T{i}"), &format!("{id}"))).collect();
            fighter(id, traits, lineage)
        })
        .collect();
    let mut tables = Tables::default();
    tables.write(&fighter_batch(&fetched(fighters.clone(), 100)));
    let once = tables.clone();

    // The answers of the second scan come back to front.
    let mut reversed = fighters;
    reversed.reverse();
    tables.write(&fighter_batch(&fetched(reversed, 200)));
    assert_eq!(tables.traits, once.traits);
    assert_eq!(tables.parents, once.parents);
    assert_eq!(tables.fighters.len(), once.fighters.len());
    for (id, held) in &once.fighters {
        let now = tables.fighters[id];
        assert_eq!(fighter::Model { last_updated: held.last_updated, ..now }, *held);
    }
}

#[test]
fn exactly_a_hundred_rows_make_one_group() {
    let fighters: Vec<_> = (0..100u64).map(|id| fighter(id, vec![], None)).collect();
    let batch = fighter_batch(&fetched(fighters, 1));
    assert_eq!(batch.fighters.len(), 1);
    assert_eq!(batch.fighters[0].len(), 100);
    let fighters: Vec<_> = (0..101u64).map(|id| fighter(id, vec![], None)).collect();
    let batch = fighter_batch(&fetched(fighters, 1));
    assert_eq!(batch.fighters.iter().map(|c| c.len()).collect::<Vec<_>>(), vec![100, 1]);
}

#[test]
fn second_scan_changes_only_the_refresh_time() {
    let fighters: Vec<_> = (0..150u64)
        .map(|id| {
            let lineage = (id % 2 == 0).then_some(LineageNode { original_mum: 1, parents: [id + 1000, id + 2000] });
            fighter(id, vec![text("Class", "Monk"), text("Eyes", "Green")], lineage)
        })
        .collect();
    let mut tables = Tables::default();
    tables.write(&fighter_batch(&fetched(fighters.clone(), 100)));
    let once = tables.clone();
    assert_eq!(once.fighters.len(), 150);
    assert_eq!(once.traits.len(), 300);
    assert_eq!(once.parents.len(), 150);

    tables.write(&fighter_batch(&fetched(fighters, 200)));
    assert_eq!(tables.traits, once.traits);
    assert_eq!(tables.parents, once.parents);
    assert_eq!(tables.fighters.len(), once.fighters.len());
    for (id, held) in &once.fighters {
        let now = tables.fighters[id];
        assert_eq!(now.last_updated, at(200));
        assert_eq!(fighter::Model { last_updated: held.last_updated, ..now }, *held);
    }
}

#[test]
fn merge_keeps_the_lineage_that_was_first_stored() {
    let mut tables = Tables::default();
    tables.write(&fighter_batch(&fetched(vec![fighter(1, vec![], Some(LineageNode { original_mum: 9, parents: [2, 3] }))], 1)));
    let mut changed = fighter(1, vec![], None);
    changed.statistic.wisdom.point = 5;
    tables.write(&fighter_batch(&fetched(vec![changed], 2)));
    let held = tables.fighters[&1];
    assert_eq!(held.mum, Some(9));
    assert_eq!(held.wisdom_point, 5);
    assert_eq!(held.last_updated, at(2));
}

#[test]
fn traits_are_reconciled_to_the_latest_snapshot() {
    let mut tables = Tables::default();
    tables.write(&fighter_batch(&fetched(
        vec![fighter(1, vec![text("A", "1"), text("B", "2")], None), fighter(2, vec![text("A", "x")], None)],
        1,
    )));
    assert_eq!(tables.traits_of(1), vec![("A".to_string(), "1".to_string()), ("B".to_string(), "2".to_string())]);

    // Fighter 1 now has {B, C}; fighter 2 is not fetched this time.
    tables.write(&fighter_batch(&fetched(vec![fighter(1, vec![text("B", "2"), text("C", "3")], None)], 2)));
    assert_eq!(tables.traits_of(1), vec![("B".to_string(), "2".to_string()), ("C".to_string(), "3".to_string())]);
    assert_eq!(tables.traits_of(2), vec![("A".to_string(), "x".to_string())]);
}

#[test]
fn changed_trait_value_replaces_the_old_one() {
    let mut tables = Tables::default();
    tables.write(&fighter_batch(&fetched(vec![fighter(1, vec![text("A", "old")], None)], 1)));
    tables.write(&fighter_batch(&fetched(vec![fighter(1, vec![text("A", "new")], None)], 2)));
    assert_eq!(tables.traits_of(1), vec![("A".to_string(), "new".to_string())]);
}

#[test]
fn decimal_text_writes_every_digit() {
    assert_eq!(decimal_text(0), "0");
    assert_eq!(decimal_text(9), "9");
    assert_eq!(decimal_text(1_234_567_890), "1234567890");
    assert_eq!(decimal_text(100), "100");
    assert_eq!(decimal_text(u64::MAX), u64::MAX.to_string());
    let mut text = "n=".to_string();
    push_decimal(4_096, &mut text);
    assert_eq!(text, "n=4096");
}
