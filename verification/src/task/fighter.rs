//! The fighter engine: from the fighters that were fetched to the rows that
//! are written for them.

use vstd::prelude::*;
use crate::api::Timestamp;
use crate::api::fighter::AttributeEntry;
use crate::api::fighter::FighterResponse;
use crate::api::util::column_i32;
use crate::api::util::column_i64;
use crate::api::util::decimal_digits;
use crate::api::util::decimal_text;
use crate::entity::fighter;
use crate::entity::fighter_parent;
use crate::entity::fighter_trait;
use crate::entity::views;
use crate::task::chunk::CHUNK_SIZE;
use crate::task::chunk::chunk_at;
use crate::task::chunk::chunk_count;
use crate::task::chunk::collect_chunks;
use crate::task::chunk::lemma_chunk_at;

verus! {

/// A fighter as it was fetched, with the time at which the answer came.
#[derive(Clone, Debug)]
pub struct Fetched {
    pub fighter: FighterResponse,
    pub at: Timestamp,
}

/// The row that stands for a fighter fetched at `at`. Numbers wider than
/// their column keep their low bits.
pub open spec fn fighter_row_of(f: FighterResponse, at: Timestamp) -> fighter::Model {
    fighter::Model {
        id: f.attributes.id as i64,
        wisdom_point: f.statistic.wisdom.point as i32,
        strength_from: f.statistic.wisdom.strength.from as i32,
        strength_to: f.statistic.wisdom.strength.to as i32,
        attack_from: f.statistic.wisdom.attack.from as i32,
        attack_to: f.statistic.wisdom.attack.to as i32,
        defence_from: f.statistic.wisdom.defence.from as i32,
        defence_to: f.statistic.wisdom.defence.to as i32,
        omega_from: f.statistic.wisdom.omega.from as i32,
        omega_to: f.statistic.wisdom.omega.to as i32,
        mum: match f.lineage_node {
            Some(node) => Some(node.original_mum as i64),
            None => None,
        },
        last_updated: at,
    }
}

/// The lineage edges of a fighter: one to each of its two parents, or none
/// where it has no lineage.
pub open spec fn parent_rows_of(f: FighterResponse) -> Seq<fighter_parent::Model> {
    match f.lineage_node {
        Some(node) => seq![
            fighter_parent::Model {
                fighter_id: f.attributes.id as i64,
                parent_id: node.parents[0] as i64,
            },
            fighter_parent::Model {
                fighter_id: f.attributes.id as i64,
                parent_id: node.parents[1] as i64,
            },
        ],
        None => Seq::empty(),
    }
}

/// The row of one attribute of fighter `id`. A number is written in decimal.
pub open spec fn trait_row_of(id: u64, entry: AttributeEntry) -> fighter_trait::ModelView {
    match entry {
        AttributeEntry::Text { trait_type, value } => fighter_trait::ModelView {
            fighter_id: id as i64,
            trait_type: trait_type@,
            value: value@,
        },
        AttributeEntry::Number { trait_type, number } => fighter_trait::ModelView {
            fighter_id: id as i64,
            trait_type: trait_type@,
            value: decimal_digits(number as nat),
        },
    }
}

/// The rows of a fighter's attributes, in upstream's order.
pub open spec fn trait_rows_of(f: FighterResponse) -> Seq<fighter_trait::ModelView> {
    Seq::new(
        f.attributes.attributes@.len(),
        |k: int| trait_row_of(f.attributes.id, f.attributes.attributes@[k]),
    )
}

/// The fighter rows of a scan, in the order in which the answers came.
pub open spec fn all_fighter_rows(fetched: Seq<Fetched>) -> Seq<fighter::Model> {
    Seq::new(fetched.len(), |n: int| fighter_row_of(fetched[n].fighter, fetched[n].at))
}

/// The lineage edges of a scan, fighter after fighter.
pub open spec fn all_parent_rows(fetched: Seq<Fetched>) -> Seq<fighter_parent::Model>
    decreases fetched.len(),
{
    if fetched.len() == 0 {
        Seq::empty()
    } else {
        all_parent_rows(fetched.drop_last()) + parent_rows_of(fetched.last().fighter)
    }
}

/// The attribute rows of a scan, fighter after fighter.
pub open spec fn all_trait_rows(fetched: Seq<Fetched>) -> Seq<fighter_trait::ModelView>
    decreases fetched.len(),
{
    if fetched.len() == 0 {
        Seq::empty()
    } else {
        all_trait_rows(fetched.drop_last()) + trait_rows_of(fetched.last().fighter)
    }
}

/// The row that stands for a fighter fetched at `at`.
pub fn fighter_row(f: &FighterResponse, at: Timestamp) -> (row: fighter::Model)
    ensures
        row == fighter_row_of(*f, at),
{
    let wisdom = &f.statistic.wisdom;
    fighter::Model {
        id: column_i64(f.attributes.id),
        wisdom_point: column_i32(wisdom.point),
        strength_from: column_i32(wisdom.strength.from),
        strength_to: column_i32(wisdom.strength.to),
        attack_from: column_i32(wisdom.attack.from),
        attack_to: column_i32(wisdom.attack.to),
        defence_from: column_i32(wisdom.defence.from),
        defence_to: column_i32(wisdom.defence.to),
        omega_from: column_i32(wisdom.omega.from),
        omega_to: column_i32(wisdom.omega.to),
        mum: match f.lineage_node {
            Some(node) => Some(column_i64(node.original_mum)),
            None => None,
        },
        last_updated: at,
    }
}

/// The lineage edges of a fighter, appended to `rows`: two or none.
pub fn push_parent_rows(f: &FighterResponse, rows: &mut Vec<fighter_parent::Model>)
    ensures
        final(rows)@ == old(rows)@ + parent_rows_of(*f),
        final(rows)@.len() == old(rows)@.len() || final(rows)@.len() == old(rows)@.len() + 2,
{
    match f.lineage_node {
        Some(node) => {
            let fighter_id = column_i64(f.attributes.id);
            rows.push(fighter_parent::Model { fighter_id, parent_id: column_i64(node.parents[0]) });
            rows.push(fighter_parent::Model { fighter_id, parent_id: column_i64(node.parents[1]) });
            assert(rows@ =~= old(rows)@ + parent_rows_of(*f));
        },
        None => {
            assert(rows@ =~= old(rows)@ + parent_rows_of(*f));
        },
    }
}

/// The row of one attribute of fighter `id`.
pub fn trait_row(id: u64, entry: &AttributeEntry) -> (row: fighter_trait::Model)
    ensures
        row@ == trait_row_of(id, *entry),
{
    match entry {
        AttributeEntry::Text { trait_type, value } => fighter_trait::Model {
            fighter_id: column_i64(id),
            trait_type: trait_type.clone(),
            value: value.clone(),
        },
        AttributeEntry::Number { trait_type, number } => fighter_trait::Model {
            fighter_id: column_i64(id),
            trait_type: trait_type.clone(),
            value: decimal_text(*number),
        },
    }
}

/// The rows of a fighter's attributes, appended to `rows`.
pub fn push_trait_rows(f: &FighterResponse, rows: &mut Vec<fighter_trait::Model>)
    ensures
        views(final(rows)@) == views(old(rows)@) + trait_rows_of(*f),
{
    let ghost before = views(rows@);
    let entries = &f.attributes.attributes;
    let mut k: usize = 0;
    while k < entries.len()
        invariant
            k <= entries@.len(),
            entries == &f.attributes.attributes,
            views(rows@) == before + trait_rows_of(*f).take(k as int),
        decreases entries@.len() - k,
    {
        let row = trait_row(f.attributes.id, &entries[k]);
        let ghost prior = rows@;
        rows.push(row);
        proof {
            assert(views(rows@) =~= views(prior).push(row@));
            assert(trait_rows_of(*f).take(k + 1) =~= trait_rows_of(*f).take(k as int).push(row@));
        }
        k += 1;
    }
    proof {
        assert(trait_rows_of(*f).take(entries@.len() as int) =~= trait_rows_of(*f));
    }
}

/// The attribute rows of one group of fighters, with every fighter of the
/// group, also one without attributes.
#[derive(Clone, Debug)]
pub struct TraitChunk {
    pub fighter_ids: Vec<i64>,
    pub rows: Vec<fighter_trait::Model>,
}

/// The lineage edges of one group of fighters, with every fighter of the
/// group, also one without lineage.
#[derive(Clone, Debug)]
pub struct ParentChunk {
    pub fighter_ids: Vec<i64>,
    pub rows: Vec<fighter_parent::Model>,
}

/// What is written for one scan. The fighters are taken `CHUNK_SIZE` at a
/// time, in the order in which the answers came. The rows of each group of
/// fighters are one merge; then the attribute rows of each group, and then
/// its lineage edges, are one transaction that first deletes the rows of
/// every fighter of the group and then inserts those of the group. The rows
/// of one fighter are never parted.
#[derive(Clone, Debug)]
pub struct FighterBatch {
    pub fighters: Vec<Vec<fighter::Model>>,
    pub traits: Vec<TraitChunk>,
    pub parents: Vec<ParentChunk>,
}

/// The fighters of a group, one after the other.
pub open spec fn fighter_ids_of(part: Seq<Fetched>) -> Seq<i64> {
    Seq::new(part.len(), |n: int| part[n].fighter.attributes.id as i64)
}

/// The three parts are what is written for the fighters `part`: their
/// rows, all their attribute rows and all their lineage edges, and both
/// lists of fighters name each of them.
pub open spec fn is_group_of(
    fighters: Vec<fighter::Model>,
    traits: TraitChunk,
    parents: ParentChunk,
    part: Seq<Fetched>,
) -> bool {
    &&& fighters@ == all_fighter_rows(part)
    &&& traits.fighter_ids@ == fighter_ids_of(part)
    &&& views(traits.rows@) == all_trait_rows(part)
    &&& parents.fighter_ids@ == fighter_ids_of(part)
    &&& parents.rows@ == all_parent_rows(part)
}

impl FighterBatch {
    /// The batch is what is written for the fighters `fetched`: group `c`
    /// of it is written for group `c` of the fighters.
    pub open spec fn is_batch_of(self, fetched: Seq<Fetched>) -> bool {
        let count = chunk_count(fetched.len(), CHUNK_SIZE as nat);
        &&& self.fighters@.len() == count
        &&& self.traits@.len() == count
        &&& self.parents@.len() == count
        &&& forall|c: int|
            0 <= c < count ==> is_group_of(
                #[trigger] self.fighters@[c],
                self.traits@[c],
                self.parents@[c],
                chunk_at(fetched, CHUNK_SIZE as nat, c),
            )
    }
}

/// The fighters at the given places.
pub open spec fn picked(fetched: Seq<Fetched>, places: Seq<usize>) -> Seq<Fetched> {
    Seq::new(places.len(), |j: int| fetched[places[j] as int])
}

/// What is written for the fighters at the given places.
fn fighter_group(fetched: &Vec<Fetched>, places: &Vec<usize>) -> (group: (
    Vec<fighter::Model>,
    TraitChunk,
    ParentChunk,
))
    requires
        forall|j: int| 0 <= j < places@.len() ==> (#[trigger] places@[j]) < fetched@.len(),
    ensures
        is_group_of(group.0, group.1, group.2, picked(fetched@, places@)),
{
    let ghost part = picked(fetched@, places@);
    let mut champions: Vec<fighter::Model> = Vec::new();
    let mut fighter_ids: Vec<i64> = Vec::new();
    let mut traits: Vec<fighter_trait::Model> = Vec::new();
    let mut parents: Vec<fighter_parent::Model> = Vec::new();
    let mut j: usize = 0;
    proof {
        assert(champions@ =~= all_fighter_rows(part.take(0)));
        assert(fighter_ids@ =~= fighter_ids_of(part.take(0)));
        assert(views(traits@) =~= all_trait_rows(part.take(0)));
        assert(parents@ =~= all_parent_rows(part.take(0)));
    }
    while j < places.len()
        invariant
            j <= places@.len(),
            part == picked(fetched@, places@),
            forall|j: int| 0 <= j < places@.len() ==> (#[trigger] places@[j]) < fetched@.len(),
            champions@ == all_fighter_rows(part.take(j as int)),
            fighter_ids@ == fighter_ids_of(part.take(j as int)),
            views(traits@) == all_trait_rows(part.take(j as int)),
            parents@ == all_parent_rows(part.take(j as int)),
        decreases places@.len() - j,
    {
        proof {
            assert(part.take(j + 1).drop_last() =~= part.take(j as int));
            assert(part.take(j + 1).last() == fetched@[places@[j as int] as int]);
        }
        let item = &fetched[places[j]];
        push_parent_rows(&item.fighter, &mut parents);
        champions.push(fighter_row(&item.fighter, item.at));
        fighter_ids.push(column_i64(item.fighter.attributes.id));
        push_trait_rows(&item.fighter, &mut traits);
        proof {
            assert(champions@ =~= all_fighter_rows(part.take(j + 1)));
            assert(fighter_ids@ =~= fighter_ids_of(part.take(j + 1)));
        }
        j += 1;
    }
    proof {
        assert(part.take(places@.len() as int) =~= part);
    }
    let ids = fighter_ids.clone();
    assert(ids@ =~= fighter_ids@);
    (
        champions,
        TraitChunk { fighter_ids, rows: traits },
        ParentChunk { fighter_ids: ids, rows: parents },
    )
}

/// What is written for the fighters that a scan fetched.
pub fn fighter_batch(fetched: &Vec<Fetched>) -> (batch: FighterBatch)
    ensures
        batch.is_batch_of(fetched@),
{
    let mut places: Vec<usize> = Vec::new();
    let mut i: usize = 0;
    while i < fetched.len()
        invariant
            i <= fetched@.len(),
            places@.len() == i,
            forall|k: int| 0 <= k < i ==> (#[trigger] places@[k]) == k,
        decreases fetched@.len() - i,
    {
        places.push(i);
        i += 1;
    }
    let ghost all_places = places@;
    let groups = collect_chunks(places, CHUNK_SIZE);

    let mut fighters: Vec<Vec<fighter::Model>> = Vec::new();
    let mut traits: Vec<TraitChunk> = Vec::new();
    let mut parents: Vec<ParentChunk> = Vec::new();
    let mut c: usize = 0;
    while c < groups.len()
        invariant
            c <= groups@.len(),
            all_places.len() == fetched@.len(),
            forall|k: int| 0 <= k < all_places.len() ==> (#[trigger] all_places[k]) == k,
            groups@.len() == chunk_count(fetched@.len(), CHUNK_SIZE as nat),
            forall|d: int|
                0 <= d < groups@.len() ==> (#[trigger] groups@[d])@ == chunk_at(
                    all_places,
                    CHUNK_SIZE as nat,
                    d,
                ),
            fighters@.len() == c,
            traits@.len() == c,
            parents@.len() == c,
            forall|d: int|
                0 <= d < c ==> is_group_of(
                    #[trigger] fighters@[d],
                    traits@[d],
                    parents@[d],
                    chunk_at(fetched@, CHUNK_SIZE as nat, d),
                ),
        decreases groups@.len() - c,
    {
        let group = &groups[c];
        proof {
            lemma_chunk_at(all_places, CHUNK_SIZE as nat, c as int);
            lemma_chunk_at(fetched@, CHUNK_SIZE as nat, c as int);
            let part = chunk_at(fetched@, CHUNK_SIZE as nat, c as int);
            assert forall|j: int| 0 <= j < group@.len() implies (#[trigger] group@[j])
                == c * CHUNK_SIZE + j by {
                assert(group@[j] == all_places[c * CHUNK_SIZE + j]);
            }
            assert(group@.len() == part.len());
            assert(picked(fetched@, group@) =~= part);
        }
        let (rows, attributes, edges) = fighter_group(fetched, group);
        fighters.push(rows);
        traits.push(attributes);
        parents.push(edges);
        c += 1;
    }
    FighterBatch { fighters, traits, parents }
}

/// A fighter has two lineage edges or none, never one; and each is its own.
pub proof fn lemma_lineage_is_none_or_two(f: FighterResponse)
    ensures
        parent_rows_of(f).len() == 0 || parent_rows_of(f).len() == 2,
        parent_rows_of(f).len() == 2 <==> f.lineage_node.is_some(),
        forall|j: int|
            0 <= j < parent_rows_of(f).len() ==> (#[trigger] parent_rows_of(f)[j]).fighter_id
                == f.attributes.id as i64,
{
}

} // verus!
