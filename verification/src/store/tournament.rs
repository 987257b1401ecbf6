//! The tables that the listing is written to.

use vstd::prelude::*;
use crate::api::Timestamp;
use crate::api::tournament::Tournament;
use crate::entity::sea_orm_active_enums::TournamentStatus;
use crate::entity::tournament;
use crate::entity::tournament_fighter;
use crate::entity::views;
use crate::store::Family;
use crate::store::Group;
use crate::store::family_groups;
use crate::store::family_parents;
use crate::store::family_rows;
use crate::store::lemma_families_are_reconciled;
use crate::store::lemma_families_leave_others;
use crate::store::lemma_insert_all_keys;
use crate::store::owns_rows;
use crate::store::same_at;
use crate::task::chunk::CHUNK_SIZE;
use crate::task::chunk::chunk_at;
use crate::task::chunk::lemma_chunk_mapped;
use crate::task::tournament::entrant_rows_of;
use crate::task::tournament::entrants_for;
use crate::task::tournament::is_group_of;
use crate::task::tournament::keys_of;
use crate::task::tournament::retained;
use crate::task::tournament::tournament_key;
use crate::store::insert_all;
use crate::store::lemma_insert_all_source;
use crate::store::replace_all;
use crate::task::tournament::ParticipantChunk;
use crate::task::tournament::TournamentBatch;
use crate::task::tournament::lemma_batch_excludes_cancelled;

verus! {

/// The key of a tournament row: the tournament and its mode.
pub open spec fn tournament_entries(rows: Seq<tournament::ModelView>) -> Seq<
    ((i64, i32), tournament::ModelView),
> {
    Seq::new(rows.len(), |j: int| ((rows[j].id, rows[j].service_id), rows[j]))
}

/// The key of an entrant row: the tournament, its mode and the fighter.
pub open spec fn participant_entries(rows: Seq<tournament_fighter::ModelView>) -> Seq<
    ((i64, i32, i64), Option<Seq<u8>>),
> {
    Seq::new(
        rows.len(),
        |j: int|
            (
                (rows[j].tournament_id, rows[j].tournament_service_id, rows[j].fighter_id),
                rows[j].account,
            ),
    )
}

/// The tournament of an entrant row's key.
pub open spec fn entrant_owner() -> spec_fn((i64, i32, i64)) -> (i64, i32) {
    |k: (i64, i32, i64)| (k.0, k.1)
}

/// The groups of entrant rows as they are written.
pub open spec fn participant_groups(chunks: Seq<ParticipantChunk>) -> Seq<
    Group<(i64, i32, i64), Option<Seq<u8>>, (i64, i32)>,
> {
    Seq::new(
        chunks.len(),
        |c: int| Group { touched: chunks[c].keys@, rows: participant_entries(views(chunks[c].rows@)) },
    )
}

/// The tournament table after the groups were merged into it one after the
/// other, each row taking the place of the one held under its key.
pub open spec fn merge_tournament_chunks(
    table: Map<(i64, i32), tournament::ModelView>,
    chunks: Seq<Vec<tournament::Model>>,
) -> Map<(i64, i32), tournament::ModelView>
    decreases chunks.len(),
{
    if chunks.len() == 0 {
        table
    } else {
        insert_all(
            merge_tournament_chunks(table, chunks.drop_last()),
            tournament_entries(views(chunks.last()@)),
        )
    }
}

/// The two tables that the listing is written to.
pub struct TournamentTables {
    pub tournaments: Map<(i64, i32), tournament::ModelView>,
    pub participants: Map<(i64, i32, i64), Option<Seq<u8>>>,
}

impl TournamentTables {
    /// The tables after what is written for a page was written in full.
    pub open spec fn after(self, batch: TournamentBatch) -> TournamentTables {
        TournamentTables {
            tournaments: merge_tournament_chunks(self.tournaments, batch.tournaments@),
            participants: replace_all(
                self.participants,
                entrant_owner(),
                participant_groups(batch.participants@),
            ),
        }
    }
}

/// The first groups of a page's tournament rows leave no cancelled
/// tournament in a table that held none.
proof fn lemma_chunks_store_no_cancelled(
    table: Map<(i64, i32), tournament::ModelView>,
    batch: TournamentBatch,
    ts: Seq<Tournament>,
    time: Timestamp,
    n: int,
)
    requires
        batch.is_batch_of(ts, time),
        0 <= n <= batch.tournaments@.len(),
        forall|k: (i64, i32)| #[trigger]
            table.contains_key(k) ==> table[k].status != TournamentStatus::Cancelled,
    ensures
        forall|k: (i64, i32)| #[trigger]
            merge_tournament_chunks(table, batch.tournaments@.take(n)).contains_key(k)
                ==> merge_tournament_chunks(table, batch.tournaments@.take(n))[k].status
                != TournamentStatus::Cancelled,
    decreases n,
{
    if n > 0 {
        lemma_chunks_store_no_cancelled(table, batch, ts, time, n - 1);
        lemma_batch_excludes_cancelled(batch, ts, time);
        let chunks = batch.tournaments@.take(n);
        assert(chunks.drop_last() =~= batch.tournaments@.take(n - 1));
        assert(chunks.last() == batch.tournaments@[n - 1]);
        let before = merge_tournament_chunks(table, chunks.drop_last());
        let rows = tournament_entries(views(chunks.last()@));
        assert forall|k: (i64, i32)| #[trigger]
            insert_all(before, rows).contains_key(k) implies insert_all(before, rows)[k].status
            != TournamentStatus::Cancelled by {
            lemma_insert_all_source(before, rows, k);
            if !(before.contains_key(k) && insert_all(before, rows)[k] == before[k]) {
                let j = choose|j: int|
                    0 <= j < rows.len() && #[trigger] rows[j] == (k, insert_all(before, rows)[k]);
                assert(rows[j].1 == batch.tournaments@[n - 1]@[j]@);
                assert(batch.tournaments@[n - 1]@[j].status == TournamentStatus::Completed);
            }
        }
    }
}

/// A cancelled tournament never enters the store: a tournament table that
/// holds none holds none after a page was written, whatever the page
/// holds.
pub proof fn lemma_cancelled_is_never_stored(
    tables: TournamentTables,
    batch: TournamentBatch,
    ts: Seq<Tournament>,
    time: Timestamp,
)
    requires
        batch.is_batch_of(ts, time),
        forall|k: (i64, i32)| #[trigger]
            tables.tournaments.contains_key(k) ==> tables.tournaments[k].status
                != TournamentStatus::Cancelled,
    ensures
        forall|k: (i64, i32)| #[trigger]
            tables.after(batch).tournaments.contains_key(k) ==> tables.after(batch).tournaments[k].status
                != TournamentStatus::Cancelled,
{
    lemma_chunks_store_no_cancelled(
        tables.tournaments,
        batch,
        ts,
        time,
        batch.tournaments@.len() as int,
    );
    assert(batch.tournaments@.take(batch.tournaments@.len() as int) =~= batch.tournaments@);
}

/// A tournament with its entrant rows.
pub open spec fn entrant_family() -> spec_fn(Tournament) -> Family<
    (i64, i32, i64),
    Option<Seq<u8>>,
    (i64, i32),
> {
    |t: Tournament|
        Family { parent: tournament_key(t), rows: participant_entries(entrant_rows_of(t)) }
}

proof fn lemma_entrant_family_rows(part: Seq<Tournament>)
    ensures
        family_rows(part.map_values(entrant_family())) == participant_entries(entrants_for(part)),
        family_parents(part.map_values(entrant_family())) == keys_of(part),
    decreases part.len(),
{
    let families = part.map_values(entrant_family());
    assert(family_parents(families) =~= keys_of(part));
    if part.len() == 0 {
        assert(family_rows(families) =~= participant_entries(entrants_for(part)));
    } else {
        lemma_entrant_family_rows(part.drop_last());
        assert(families.drop_last() =~= part.drop_last().map_values(entrant_family()));
        assert(families.last().rows == participant_entries(entrant_rows_of(part.last())));
        assert(participant_entries(entrants_for(part)) =~= participant_entries(
            entrants_for(part.drop_last()),
        ) + participant_entries(entrant_rows_of(part.last())));
    }
}

/// The groups of a batch write whole tournaments: each holds every entrant
/// row of each tournament that it names.
pub proof fn lemma_groups_are_families(batch: TournamentBatch, ts: Seq<Tournament>, time: Timestamp)
    requires
        batch.is_batch_of(ts, time),
    ensures
        participant_groups(batch.participants@) == family_groups(
            retained(ts).map_values(entrant_family()),
            CHUNK_SIZE as nat,
        ),
        owns_rows(retained(ts).map_values(entrant_family()), entrant_owner()),
{
    let size = CHUNK_SIZE as nat;
    let families = retained(ts).map_values(entrant_family());
    assert forall|c: int|
        0 <= c < batch.participants@.len() implies participant_groups(batch.participants@)[c]
        == family_groups(families, size)[c] by {
        let part = chunk_at(retained(ts), size, c);
        assert(is_group_of(batch.tournaments@[c], batch.participants@[c], part, time));
        lemma_chunk_mapped(retained(ts), entrant_family(), size, c);
        lemma_entrant_family_rows(part);
    }
    assert(participant_groups(batch.participants@) =~= family_groups(families, size));
}

/// Entrants are reconciled to the latest page, wherever the groups end:
/// after what is written for a page is written, the store holds for a
/// tournament of the page that is stored, and is the only one of its key
/// among those, exactly its entrants: a fighter is held as its entrant if
/// and only if the page names it as one. What the store held for the
/// tournament before is gone unless the page has it; for a tournament
/// without entrants it holds none.
pub proof fn lemma_entrants_are_reconciled(
    tables: TournamentTables,
    batch: TournamentBatch,
    ts: Seq<Tournament>,
    time: Timestamp,
    i: int,
    fighter: i64,
)
    requires
        batch.is_batch_of(ts, time),
        0 <= i < retained(ts).len(),
        forall|m: int|
            0 <= m < retained(ts).len() && m != i ==> tournament_key(#[trigger] retained(ts)[m])
                != tournament_key(retained(ts)[i]),
    ensures
        same_at(
            tables.after(batch).participants,
            insert_all(Map::empty(), participant_entries(entrant_rows_of(retained(ts)[i]))),
            (retained(ts)[i].spec_id(), retained(ts)[i].spec_service_id() as i32, fighter),
        ),
        tables.after(batch).participants.contains_key(
            (retained(ts)[i].spec_id(), retained(ts)[i].spec_service_id() as i32, fighter),
        ) <==> exists|e: int|
            0 <= e < retained(ts)[i].spec_entrants().len() && (#[trigger] retained(
                ts,
            )[i].spec_entrants()[e]).0 as i64 == fighter,
{
    let t = retained(ts)[i];
    let families = retained(ts).map_values(entrant_family());
    let rows = participant_entries(entrant_rows_of(t));
    let key = (t.spec_id(), t.spec_service_id() as i32, fighter);
    lemma_groups_are_families(batch, ts, time);
    assert forall|m: int| 0 <= m < families.len() && m != i implies (#[trigger] families[m]).parent
        != families[i].parent by {
        assert(families[m].parent == tournament_key(retained(ts)[m]));
    }
    lemma_families_are_reconciled(
        tables.participants,
        entrant_owner(),
        families,
        CHUNK_SIZE as nat,
        i,
        key,
    );
    lemma_insert_all_keys(rows, key);
    if exists|j: int| 0 <= j < rows.len() && (#[trigger] rows[j]).0 == key {
        let j = choose|j: int| 0 <= j < rows.len() && (#[trigger] rows[j]).0 == key;
        assert(entrant_rows_of(t)[j].fighter_id == fighter);
        assert(t.spec_entrants()[j].0 as i64 == fighter);
    }
    if exists|e: int| 0 <= e < t.spec_entrants().len() && (#[trigger] t.spec_entrants()[e]).0 as i64
        == fighter {
        let e = choose|e: int|
            0 <= e < t.spec_entrants().len() && (#[trigger] t.spec_entrants()[e]).0 as i64
                == fighter;
        assert(rows[e].0 == key);
    }
}

/// A tournament that is not among those stored of a page keeps its
/// entrants.
pub proof fn lemma_other_tournaments_are_left(
    tables: TournamentTables,
    batch: TournamentBatch,
    ts: Seq<Tournament>,
    time: Timestamp,
    key: (i64, i32, i64),
)
    requires
        batch.is_batch_of(ts, time),
        forall|m: int|
            0 <= m < retained(ts).len() ==> tournament_key(#[trigger] retained(ts)[m]) != (
                key.0,
                key.1,
            ),
    ensures
        same_at(tables.after(batch).participants, tables.participants, key),
{
    let families = retained(ts).map_values(entrant_family());
    lemma_groups_are_families(batch, ts, time);
    assert forall|m: int| 0 <= m < families.len() implies (#[trigger] families[m]).parent
        != entrant_owner()(key) by {
        assert(families[m].parent == tournament_key(retained(ts)[m]));
    }
    lemma_families_leave_others(
        tables.participants,
        entrant_owner(),
        families,
        CHUNK_SIZE as nat,
        key,
    );
}

} // verus!
