//! The tables that hold what was fought.

use vstd::prelude::*;
use crate::entity::tournament_detail_attack;
use crate::entity::tournament_detail_champion;
use crate::store::insert_absent;
use crate::store::insert_all;
use crate::store::lemma_insert_absent_keeps;
use crate::task::detail::DetailBatch;

verus! {

/// The key of an attack: the tournament, its mode, the round, and the
/// attack's place in the round.
pub open spec fn attack_entries(rows: Seq<tournament_detail_attack::Model>) -> Seq<
    ((i64, i64, i32, i32), tournament_detail_attack::Model),
> {
    Seq::new(
        rows.len(),
        |j: int|
            (
                (rows[j].tournament_id, rows[j].tournament_service_id, rows[j].round, rows[j].order),
                rows[j],
            ),
    )
}

/// The key of a stance: the tournament, its mode, and the fighter.
pub open spec fn stance_entries(rows: Seq<tournament_detail_champion::Model>) -> Seq<
    ((i64, i64, i64), i32),
> {
    Seq::new(
        rows.len(),
        |j: int|
            ((rows[j].tournament_id, rows[j].tournament_service_id, rows[j].fighter_id), rows[j].stance),
    )
}

/// The two tables that hold what was fought.
pub struct DetailTables {
    pub stances: Map<(i64, i64, i64), i32>,
    pub attacks: Map<(i64, i64, i32, i32), tournament_detail_attack::Model>,
}

impl DetailTables {
    /// The tables after the record of a tournament's fights was written: a
    /// stance takes the place of the one held, an attack is entered only
    /// where none is held at its place.
    pub open spec fn after(self, batch: DetailBatch) -> DetailTables {
        DetailTables {
            stances: insert_all(self.stances, stance_entries(batch.stances@)),
            attacks: insert_absent(self.attacks, attack_entries(batch.attacks@)),
        }
    }
}

/// An attack that is recorded is never changed: whatever a later record of
/// the same tournament says of the attack at that place, be it another
/// damage, the store holds what it held.
pub proof fn lemma_attacks_are_immutable(
    tables: DetailTables,
    later: DetailBatch,
    key: (i64, i64, i32, i32),
)
    requires
        tables.attacks.contains_key(key),
    ensures
        tables.after(later).attacks.contains_key(key),
        tables.after(later).attacks[key] == tables.attacks[key],
{
    lemma_insert_absent_keeps(tables.attacks, attack_entries(later.attacks@), key);
}

} // verus!
