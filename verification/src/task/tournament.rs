//! The tournament engine: from a page of the listing to the rows that are
//! written for it, and from page to page.

use vstd::prelude::*;
use crate::api::Timestamp;
use crate::api::tournament::Status;
use crate::api::tournament::Tournament;
use crate::api::util::abi_encode_u256;
use crate::api::util::address_bytes;
use crate::api::util::column_i32;
use crate::api::util::column_i64;
use crate::api::util::word_bytes;
use crate::entity::sea_orm_active_enums::TournamentStatus;
use crate::entity::tournament;
use crate::entity::tournament_fighter;
use crate::entity::views;
use crate::task::chunk::CHUNK_SIZE;
use crate::task::chunk::chunk_at;
use crate::task::chunk::chunk_count;
use crate::task::chunk::collect_chunks;
use crate::task::chunk::lemma_chunk_at;

verus! {

/// The tournaments of a page that are stored: those that were not
/// cancelled, in the page's order.
pub open spec fn retained(ts: Seq<Tournament>) -> Seq<Tournament>
    decreases ts.len(),
{
    if ts.len() == 0 {
        Seq::empty()
    } else if ts.last().spec_status() == Status::Cancelled {
        retained(ts.drop_last())
    } else {
        retained(ts.drop_last()).push(ts.last())
    }
}

/// The text of an optional string.
pub open spec fn text(s: Option<String>) -> Option<Seq<char>> {
    match s {
        Some(s) => Some(s@),
        None => None,
    }
}

/// The row that stands for a tournament observed at `time`. Fields that the
/// tournament's mode lacks are absent; numbers wider than their column keep
/// their low bits.
pub open spec fn tournament_row_of(t: Tournament, time: Timestamp) -> tournament::ModelView {
    tournament::ModelView {
        id: t.spec_id(),
        service_id: t.spec_service_id() as i32,
        currency: t.spec_configs().currency@,
        fee_percentage: t.spec_configs().fee_percentage as i32,
        buy_in: word_bytes(t.spec_configs().buy_in@),
        top_up: word_bytes(t.spec_configs().top_up@),
        key: t.spec_key()@,
        legacy: t.spec_legacy(),
        level: t.spec_level().nav_key@,
        modified: t.spec_modified(),
        name: text(t.spec_name()),
        restrictions: t.spec_restrictions()@,
        solo_optionals: text(t.spec_solo_optionals()),
        start_time: t.spec_start_time(),
        status: TournamentStatus::spec_of(t.spec_status()),
        meta_last_updated: time,
    }
}

/// The rows of a tournament's entrants, in upstream's order.
pub open spec fn entrant_rows_of(t: Tournament) -> Seq<tournament_fighter::ModelView> {
    Seq::new(
        t.spec_entrants().len(),
        |k: int|
            tournament_fighter::ModelView {
                tournament_id: t.spec_id(),
                tournament_service_id: t.spec_service_id() as i32,
                fighter_id: t.spec_entrants()[k].0 as i64,
                account: match t.spec_entrants()[k].1 {
                    Some(account) => Some(account@),
                    None => None,
                },
            },
    )
}

fn cloned_text(s: Option<&String>) -> (r: Option<String>)
    ensures
        r.is_some() == s.is_some(),
        r.is_some() ==> r.unwrap()@ == s.unwrap()@,
{
    match s {
        Some(s) => Some(s.clone()),
        None => None,
    }
}

/// The row that stands for a tournament observed at `time`.
pub fn tournament_row(t: &Tournament, time: Timestamp) -> (row: tournament::Model)
    ensures
        row@ == tournament_row_of(*t, time),
{
    let configs = t.configs();
    let row = tournament::Model {
        id: t.id(),
        service_id: column_i32(t.service_id()),
        currency: address_bytes(&configs.currency),
        fee_percentage: column_i32(configs.fee_percentage),
        buy_in: abi_encode_u256(&configs.buy_in),
        top_up: abi_encode_u256(&configs.top_up),
        key: t.key().clone(),
        legacy: t.legacy(),
        level: t.level().nav_key.clone(),
        modified: t.modified(),
        name: cloned_text(t.name()),
        restrictions: t.restrictions().clone(),
        solo_optionals: cloned_text(t.solo_optionals()),
        start_time: t.start_time(),
        status: TournamentStatus::of(t.status()),
        meta_last_updated: time,
    };
    row
}

/// The rows of a tournament's entrants, appended to `rows`.
fn push_entrant_rows(t: &Tournament, rows: &mut Vec<tournament_fighter::Model>)
    ensures
        views(final(rows)@) == views(old(rows)@) + entrant_rows_of(*t),
{
    let count = t.entrant_count();
    let id = t.id();
    let service_id = column_i32(t.service_id());
    let ghost before = views(rows@);
    let mut k: usize = 0;
    while k < count
        invariant
            k <= count,
            count == t.spec_entrants().len(),
            id == t.spec_id(),
            service_id == t.spec_service_id() as i32,
            views(rows@) == before + entrant_rows_of(*t).take(k as int),
        decreases count - k,
    {
        let (fighter, account) = t.entrant(k);
        let account = match account {
            Some(address) => Some(address_bytes(&address)),
            None => None,
        };
        let row = tournament_fighter::Model {
            tournament_id: id,
            tournament_service_id: service_id,
            fighter_id: column_i64(fighter),
            account,
        };
        let ghost prior = rows@;
        rows.push(row);
        proof {
            assert(row@ == entrant_rows_of(*t)[k as int]);
            assert(views(rows@) =~= views(prior).push(row@));
            assert(entrant_rows_of(*t).take(k + 1) =~= entrant_rows_of(*t).take(k as int).push(
                row@,
            ));
        }
        k += 1;
    }
    proof {
        assert(entrant_rows_of(*t).take(count as int) =~= entrant_rows_of(*t));
    }
}

/// The tournaments of a page whose fights are fetched: the number and the
/// mode of each one that is stored, in the page's order.
pub open spec fn detail_targets_of(ts: Seq<Tournament>) -> Seq<(i64, u64)>
    decreases ts.len(),
{
    if ts.len() == 0 {
        Seq::empty()
    } else if ts.last().spec_status() == Status::Cancelled {
        detail_targets_of(ts.drop_last())
    } else {
        detail_targets_of(ts.drop_last()).push((ts.last().spec_id(), ts.last().spec_service_id()))
    }
}

/// The tournaments of a page whose fights are fetched. A cancelled
/// tournament is passed over.
pub fn detail_targets(ts: &Vec<Tournament>) -> (targets: Vec<(i64, u64)>)
    ensures
        targets@ == detail_targets_of(ts@),
{
    let mut targets: Vec<(i64, u64)> = Vec::new();
    let mut n: usize = 0;
    assert(ts@.take(0) =~= Seq::<Tournament>::empty());
    while n < ts.len()
        invariant
            n <= ts@.len(),
            targets@ == detail_targets_of(ts@.take(n as int)),
        decreases ts@.len() - n,
    {
        proof {
            assert(ts@.take(n + 1).drop_last() =~= ts@.take(n as int));
        }
        let t = &ts[n];
        match t.status() {
            Status::Cancelled => {},
            Status::Completed => {
                targets.push((t.id(), t.service_id()));
            },
        }
        n += 1;
    }
    proof {
        assert(ts@.take(ts@.len() as int) =~= ts@);
    }
    targets
}

/// The key of a tournament in the store: its number and its mode.
pub open spec fn tournament_key(t: Tournament) -> (i64, i32) {
    (t.spec_id(), t.spec_service_id() as i32)
}

/// The keys of a group of tournaments, one after the other.
pub open spec fn keys_of(part: Seq<Tournament>) -> Seq<(i64, i32)> {
    Seq::new(part.len(), |i: int| tournament_key(part[i]))
}

/// The rows of a group of tournaments observed at `time`.
pub open spec fn rows_for(part: Seq<Tournament>, time: Timestamp) -> Seq<tournament::ModelView> {
    Seq::new(part.len(), |i: int| tournament_row_of(part[i], time))
}

/// The entrant rows of a group of tournaments, tournament after tournament.
pub open spec fn entrants_for(part: Seq<Tournament>) -> Seq<tournament_fighter::ModelView>
    decreases part.len(),
{
    if part.len() == 0 {
        Seq::empty()
    } else {
        entrants_for(part.drop_last()) + entrant_rows_of(part.last())
    }
}

/// The entrant rows of one group of tournaments, with the key of every
/// tournament of the group, also one without entrants.
#[derive(Clone, Debug)]
pub struct ParticipantChunk {
    pub keys: Vec<(i64, i32)>,
    pub rows: Vec<tournament_fighter::Model>,
}

/// What is written for one page. The tournaments that are stored are taken
/// `CHUNK_SIZE` at a time, in the page's order. The rows of each group of
/// tournaments are one merge; then the entrant rows of each group are one
/// transaction that first deletes the entrants of every tournament of the
/// group and then inserts those of the group. The entrants of one
/// tournament are never parted.
#[derive(Clone, Debug)]
pub struct TournamentBatch {
    pub tournaments: Vec<Vec<tournament::Model>>,
    pub participants: Vec<ParticipantChunk>,
}

/// The two parts are what is written for the tournaments `part` observed
/// at `time`: their rows and all their entrant rows, and the keys name
/// each of them.
pub open spec fn is_group_of(
    rows: Vec<tournament::Model>,
    entrants: ParticipantChunk,
    part: Seq<Tournament>,
    time: Timestamp,
) -> bool {
    &&& views(rows@) == rows_for(part, time)
    &&& entrants.keys@ == keys_of(part)
    &&& views(entrants.rows@) == entrants_for(part)
}

impl TournamentBatch {
    /// The batch is what is written for the page `ts` observed at `time`:
    /// group `c` of it is written for group `c` of the tournaments of the
    /// page that are stored.
    pub open spec fn is_batch_of(self, ts: Seq<Tournament>, time: Timestamp) -> bool {
        let count = chunk_count(retained(ts).len(), CHUNK_SIZE as nat);
        &&& self.tournaments@.len() == count
        &&& self.participants@.len() == count
        &&& forall|c: int|
            0 <= c < count ==> is_group_of(
                #[trigger] self.tournaments@[c],
                self.participants@[c],
                chunk_at(retained(ts), CHUNK_SIZE as nat, c),
                time,
            )
    }
}

/// The tournaments at the given places.
pub open spec fn picked(ts: Seq<Tournament>, places: Seq<usize>) -> Seq<Tournament> {
    Seq::new(places.len(), |j: int| ts[places[j] as int])
}

/// The places of the tournaments of a page that are stored.
fn completed_places(ts: &Vec<Tournament>) -> (places: Vec<usize>)
    ensures
        picked(ts@, places@) == retained(ts@),
        forall|j: int| 0 <= j < places@.len() ==> (#[trigger] places@[j]) < ts@.len(),
{
    let mut places: Vec<usize> = Vec::new();
    let mut n: usize = 0;
    assert(picked(ts@, places@) =~= retained(ts@.take(0)));
    while n < ts.len()
        invariant
            n <= ts@.len(),
            picked(ts@, places@) == retained(ts@.take(n as int)),
            forall|j: int| 0 <= j < places@.len() ==> (#[trigger] places@[j]) < n,
        decreases ts@.len() - n,
    {
        proof {
            assert(ts@.take(n + 1).drop_last() =~= ts@.take(n as int));
        }
        match ts[n].status() {
            Status::Cancelled => {},
            Status::Completed => {
                let ghost before = places@;
                places.push(n);
                assert(picked(ts@, places@) =~= picked(ts@, before).push(ts@[n as int]));
            },
        }
        n += 1;
    }
    proof {
        assert(ts@.take(ts@.len() as int) =~= ts@);
    }
    places
}

/// What is written for the tournaments at the given places.
fn tournament_group(ts: &Vec<Tournament>, places: &Vec<usize>, time: Timestamp) -> (group: (
    Vec<tournament::Model>,
    ParticipantChunk,
))
    requires
        forall|j: int| 0 <= j < places@.len() ==> (#[trigger] places@[j]) < ts@.len(),
    ensures
        is_group_of(group.0, group.1, picked(ts@, places@), time),
{
    let ghost part = picked(ts@, places@);
    let mut rows: Vec<tournament::Model> = Vec::new();
    let mut keys: Vec<(i64, i32)> = Vec::new();
    let mut entrants: Vec<tournament_fighter::Model> = Vec::new();
    let mut j: usize = 0;
    proof {
        assert(views(rows@) =~= rows_for(part.take(0), time));
        assert(keys@ =~= keys_of(part.take(0)));
        assert(views(entrants@) =~= entrants_for(part.take(0)));
    }
    while j < places.len()
        invariant
            j <= places@.len(),
            part == picked(ts@, places@),
            forall|j: int| 0 <= j < places@.len() ==> (#[trigger] places@[j]) < ts@.len(),
            views(rows@) == rows_for(part.take(j as int), time),
            keys@ == keys_of(part.take(j as int)),
            views(entrants@) == entrants_for(part.take(j as int)),
        decreases places@.len() - j,
    {
        proof {
            assert(part.take(j + 1).drop_last() =~= part.take(j as int));
            assert(part.take(j + 1).last() == ts@[places@[j as int] as int]);
        }
        let t = &ts[places[j]];
        let row = tournament_row(t, time);
        let ghost prior = rows@;
        rows.push(row);
        keys.push((t.id(), column_i32(t.service_id())));
        push_entrant_rows(t, &mut entrants);
        proof {
            assert(views(rows@) =~= views(prior).push(row@));
            assert(views(rows@) =~= rows_for(part.take(j + 1), time));
            assert(keys@ =~= keys_of(part.take(j + 1)));
        }
        j += 1;
    }
    proof {
        assert(part.take(places@.len() as int) =~= part);
    }
    (rows, ParticipantChunk { keys, rows: entrants })
}

/// What is written for one page of tournaments observed at `time`. A
/// cancelled tournament gives no row and no entrant row.
pub fn tournament_batch(ts: &Vec<Tournament>, time: Timestamp) -> (batch: TournamentBatch)
    ensures
        batch.is_batch_of(ts@, time),
{
    let places = completed_places(ts);
    let ghost all_places = places@;
    let groups = collect_chunks(places, CHUNK_SIZE);

    let mut tournaments: Vec<Vec<tournament::Model>> = Vec::new();
    let mut participants: Vec<ParticipantChunk> = Vec::new();
    let mut c: usize = 0;
    while c < groups.len()
        invariant
            c <= groups@.len(),
            picked(ts@, all_places) == retained(ts@),
            forall|j: int| 0 <= j < all_places.len() ==> (#[trigger] all_places[j]) < ts@.len(),
            groups@.len() == chunk_count(retained(ts@).len(), CHUNK_SIZE as nat),
            forall|d: int|
                0 <= d < groups@.len() ==> (#[trigger] groups@[d])@ == chunk_at(
                    all_places,
                    CHUNK_SIZE as nat,
                    d,
                ),
            tournaments@.len() == c,
            participants@.len() == c,
            forall|d: int|
                0 <= d < c ==> is_group_of(
                    #[trigger] tournaments@[d],
                    participants@[d],
                    chunk_at(retained(ts@), CHUNK_SIZE as nat, d),
                    time,
                ),
        decreases groups@.len() - c,
    {
        let group = &groups[c];
        proof {
            lemma_chunk_at(all_places, CHUNK_SIZE as nat, c as int);
            lemma_chunk_at(retained(ts@), CHUNK_SIZE as nat, c as int);
            let part = chunk_at(retained(ts@), CHUNK_SIZE as nat, c as int);
            assert forall|j: int| 0 <= j < group@.len() implies (#[trigger] group@[j]) < ts@.len()
                && ts@[group@[j] as int] == part[j] by {
                assert(group@[j] == all_places[c * CHUNK_SIZE + j]);
                assert(part[j] == picked(ts@, all_places)[c * CHUNK_SIZE + j]);
            }
            assert(picked(ts@, group@) =~= part);
        }
        let (rows, entrants) = tournament_group(ts, group, time);
        tournaments.push(rows);
        participants.push(entrants);
        c += 1;
    }
    TournamentBatch { tournaments, participants }
}

/// Every tournament of a page that is stored is a tournament of the page
/// that was not cancelled.
pub proof fn lemma_retained_are_completed(ts: Seq<Tournament>, i: int)
    requires
        0 <= i < retained(ts).len(),
    ensures
        retained(ts)[i].spec_status() == Status::Completed,
        exists|n: int| 0 <= n < ts.len() && #[trigger] ts[n] == retained(ts)[i],
    decreases ts.len(),
{
    let before = ts.drop_last();
    if ts.last().spec_status() != Status::Cancelled && i == retained(before).len() {
        assert(ts[ts.len() - 1] == retained(ts)[i]);
    } else {
        lemma_retained_are_completed(before, i);
        let n = choose|n: int| 0 <= n < before.len() && #[trigger] before[n] == retained(before)[i];
        assert(ts[n] == before[n]);
    }
}

/// Every entrant row of a group of tournaments belongs to one of them.
pub proof fn lemma_entrants_belong(part: Seq<Tournament>, r: int)
    requires
        0 <= r < entrants_for(part).len(),
    ensures
        exists|m: int|
            0 <= m < part.len() && (entrants_for(part)[r].tournament_id, entrants_for(
                part,
            )[r].tournament_service_id) == tournament_key(#[trigger] part[m]),
    decreases part.len(),
{
    let before = part.drop_last();
    if r < entrants_for(before).len() {
        lemma_entrants_belong(before, r);
        let m = choose|m: int|
            0 <= m < before.len() && (entrants_for(before)[r].tournament_id, entrants_for(
                before,
            )[r].tournament_service_id) == tournament_key(#[trigger] before[m]);
        assert(part[m] == before[m]);
    } else {
        assert(entrants_for(part)[r] == entrant_rows_of(part.last())[r - entrants_for(
            before,
        ).len()]);
        assert(part[part.len() - 1] == part.last());
    }
}

/// A cancelled tournament is never written: in what is written for a page,
/// every tournament row has the status completed and stands for a tournament
/// of the page that was not cancelled, and every entrant row belongs to such
/// a tournament.
pub proof fn lemma_batch_excludes_cancelled(
    batch: TournamentBatch,
    ts: Seq<Tournament>,
    time: Timestamp,
)
    requires
        batch.is_batch_of(ts, time),
    ensures
        forall|c: int, j: int|
            0 <= c < batch.tournaments@.len() && 0 <= j < batch.tournaments@[c]@.len() ==> {
                &&& (#[trigger] batch.tournaments@[c]@[j]).status == TournamentStatus::Completed
                &&& exists|n: int|
                    0 <= n < ts.len() && (#[trigger] ts[n]).spec_status() == Status::Completed
                        && batch.tournaments@[c]@[j]@ == tournament_row_of(ts[n], time)
            },
        forall|c: int, j: int|
            0 <= c < batch.participants@.len() && 0 <= j < batch.participants@[c].rows@.len()
                ==> exists|n: int|
                0 <= n < ts.len() && (#[trigger] ts[n]).spec_status() == Status::Completed && (
                #[trigger] batch.participants@[c].rows@[j]).tournament_id == ts[n].spec_id()
                    && batch.participants@[c].rows@[j].tournament_service_id
                    == ts[n].spec_service_id() as i32,
{
    let size = CHUNK_SIZE as nat;
    assert forall|c: int, j: int|
        0 <= c < batch.tournaments@.len() && 0 <= j < batch.tournaments@[c]@.len() implies {
        &&& (#[trigger] batch.tournaments@[c]@[j]).status == TournamentStatus::Completed
        &&& exists|n: int|
            0 <= n < ts.len() && (#[trigger] ts[n]).spec_status() == Status::Completed
                && batch.tournaments@[c]@[j]@ == tournament_row_of(ts[n], time)
    } by {
        let part = chunk_at(retained(ts), size, c);
        assert(is_group_of(batch.tournaments@[c], batch.participants@[c], part, time));
        lemma_chunk_at(retained(ts), size, c);
        let held = views(batch.tournaments@[c]@);
        assert(held == rows_for(part, time));
        assert(held.len() == batch.tournaments@[c]@.len());
        assert(rows_for(part, time).len() == part.len());
        assert(held[j] == batch.tournaments@[c]@[j]@);
        assert(held[j] == tournament_row_of(part[j], time));
        assert(part[j] == retained(ts)[c * size + j]);
        lemma_retained_are_completed(ts, c * size + j);
        let n = choose|n: int| 0 <= n < ts.len() && #[trigger] ts[n] == retained(ts)[c * size + j];
        assert(ts[n].spec_status() == Status::Completed);
    }
    assert forall|c: int, j: int|
        0 <= c < batch.participants@.len() && 0 <= j < batch.participants@[c].rows@.len()
        implies exists|n: int|
        0 <= n < ts.len() && (#[trigger] ts[n]).spec_status() == Status::Completed && (
        #[trigger] batch.participants@[c].rows@[j]).tournament_id == ts[n].spec_id()
            && batch.participants@[c].rows@[j].tournament_service_id
            == ts[n].spec_service_id() as i32 by {
        let part = chunk_at(retained(ts), size, c);
        assert(is_group_of(batch.tournaments@[c], batch.participants@[c], part, time));
        lemma_chunk_at(retained(ts), size, c);
        let held = views(batch.participants@[c].rows@);
        assert(held == entrants_for(part));
        assert(held.len() == batch.participants@[c].rows@.len());
        assert(held[j] == batch.participants@[c].rows@[j]@);
        lemma_entrants_belong(part, j);
        let m = choose|m: int|
            0 <= m < part.len() && (entrants_for(part)[j].tournament_id, entrants_for(
                part,
            )[j].tournament_service_id) == tournament_key(#[trigger] part[m]);
        assert(part[m] == retained(ts)[c * size + m]);
        lemma_retained_are_completed(ts, c * size + m);
        let n = choose|n: int| 0 <= n < ts.len() && #[trigger] ts[n] == retained(ts)[c * size + m];
        assert(ts[n].spec_status() == Status::Completed);
    }
}

} // verus!
