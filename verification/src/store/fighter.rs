//! The tables of the fighter engine.

use vstd::prelude::*;
use crate::entity::fighter;
use crate::entity::fighter_parent;
use crate::entity::fighter_trait;
use crate::entity::views;
use crate::store::Family;
use crate::store::Group;
use crate::store::family_groups;
use crate::store::family_parents;
use crate::store::family_rows;
use crate::store::insert_all;
use crate::store::lemma_families_are_reconciled;
use crate::store::lemma_families_leave_others;
use crate::store::lemma_insert_all_keys;
use crate::store::owns_rows;
use crate::store::replace_all;
use crate::store::same_at;
use crate::task::chunk::CHUNK_SIZE;
use crate::task::chunk::chunk_at;
use crate::task::chunk::joined;
use crate::task::chunk::lemma_chunk_at;
use crate::task::chunk::lemma_chunk_mapped;
use crate::task::chunk::lemma_joined;
use crate::task::fighter::Fetched;
use crate::task::fighter::FighterBatch;
use crate::task::fighter::ParentChunk;
use crate::task::fighter::TraitChunk;
use crate::task::fighter::all_fighter_rows;
use crate::task::fighter::all_parent_rows;
use crate::task::fighter::all_trait_rows;
use crate::task::fighter::fighter_ids_of;
use crate::task::fighter::fighter_row_of;
use crate::task::fighter::is_group_of;
use crate::task::fighter::parent_rows_of;
use crate::task::fighter::trait_rows_of;

verus! {

/// A fighter's row after it was merged with a fresh one: the stats and the
/// time of the fresh row, the rest as it was held.
pub open spec fn refreshed(held: fighter::Model, row: fighter::Model) -> fighter::Model {
    fighter::Model { id: held.id, mum: held.mum, ..row }
}

/// The fighter table after the rows were merged into it one after the
/// other: a fighter that the table holds is refreshed, one that it does not
/// hold is entered.
pub open spec fn merge_fighters(table: Map<i64, fighter::Model>, rows: Seq<fighter::Model>) -> Map<
    i64,
    fighter::Model,
>
    decreases rows.len(),
{
    if rows.len() == 0 {
        table
    } else {
        let before = merge_fighters(table, rows.drop_last());
        let row = rows.last();
        if before.contains_key(row.id) {
            before.insert(row.id, refreshed(before[row.id], row))
        } else {
            before.insert(row.id, row)
        }
    }
}

/// The fighter table after the groups were merged into it one after the
/// other.
pub open spec fn merge_fighter_chunks(
    table: Map<i64, fighter::Model>,
    chunks: Seq<Vec<fighter::Model>>,
) -> Map<i64, fighter::Model>
    decreases chunks.len(),
{
    if chunks.len() == 0 {
        table
    } else {
        merge_fighters(merge_fighter_chunks(table, chunks.drop_last()), chunks.last()@)
    }
}

/// The last of the rows that is about the fighter.
pub open spec fn last_about(rows: Seq<fighter::Model>, id: i64) -> Option<fighter::Model>
    decreases rows.len(),
{
    if rows.len() == 0 {
        None
    } else if rows.last().id == id {
        Some(rows.last())
    } else {
        last_about(rows.drop_last(), id)
    }
}

/// The key of an attribute row: the fighter and the trait type.
pub open spec fn trait_entries(rows: Seq<fighter_trait::ModelView>) -> Seq<
    ((i64, Seq<char>), Seq<char>),
> {
    Seq::new(rows.len(), |j: int| ((rows[j].fighter_id, rows[j].trait_type), rows[j].value))
}

/// The key of a lineage edge: the fighter and the parent. An edge holds
/// nothing else.
pub open spec fn parent_entries(rows: Seq<fighter_parent::Model>) -> Seq<((i64, i64), ())> {
    Seq::new(rows.len(), |j: int| ((rows[j].fighter_id, rows[j].parent_id), ()))
}

/// The fighter of an attribute row's key.
pub open spec fn trait_owner() -> spec_fn((i64, Seq<char>)) -> i64 {
    |k: (i64, Seq<char>)| k.0
}

/// The fighter of a lineage edge's key.
pub open spec fn edge_owner() -> spec_fn((i64, i64)) -> i64 {
    |k: (i64, i64)| k.0
}

/// The groups of attribute rows as they are written.
pub open spec fn trait_groups(chunks: Seq<TraitChunk>) -> Seq<
    Group<(i64, Seq<char>), Seq<char>, i64>,
> {
    Seq::new(
        chunks.len(),
        |c: int|
            Group { touched: chunks[c].fighter_ids@, rows: trait_entries(views(chunks[c].rows@)) },
    )
}

/// The groups of lineage edges as they are written.
pub open spec fn parent_groups(chunks: Seq<ParentChunk>) -> Seq<Group<(i64, i64), (), i64>> {
    Seq::new(
        chunks.len(),
        |c: int| Group { touched: chunks[c].fighter_ids@, rows: parent_entries(chunks[c].rows@) },
    )
}

/// The three tables that the fighter engine writes.
pub struct FighterTables {
    pub fighters: Map<i64, fighter::Model>,
    pub traits: Map<(i64, Seq<char>), Seq<char>>,
    pub parents: Map<(i64, i64), ()>,
}

impl FighterTables {
    /// The tables after a batch was written in full.
    pub open spec fn after(self, batch: FighterBatch) -> FighterTables {
        FighterTables {
            fighters: merge_fighter_chunks(self.fighters, batch.fighters@),
            traits: replace_all(self.traits, trait_owner(), trait_groups(batch.traits@)),
            parents: replace_all(self.parents, edge_owner(), parent_groups(batch.parents@)),
        }
    }
}

/// Merging rows one after the other is merging the first of them and then
/// the rest.
proof fn lemma_merge_concat(
    table: Map<i64, fighter::Model>,
    a: Seq<fighter::Model>,
    b: Seq<fighter::Model>,
)
    ensures
        merge_fighters(table, a + b) == merge_fighters(merge_fighters(table, a), b),
    decreases b.len(),
{
    if b.len() == 0 {
        assert(a + b =~= a);
    } else {
        lemma_merge_concat(table, a, b.drop_last());
        assert((a + b).drop_last() =~= a + b.drop_last());
        assert((a + b).last() == b.last());
    }
}

/// The rows of each group.
pub open spec fn rows_of_chunks(chunks: Seq<Vec<fighter::Model>>) -> Seq<Seq<fighter::Model>> {
    Seq::new(chunks.len(), |c: int| chunks[c]@)
}

/// Merging group after group is merging all their rows one after the
/// other: where the groups end makes no difference to the fighter table.
pub proof fn lemma_merge_chunks(table: Map<i64, fighter::Model>, chunks: Seq<Vec<fighter::Model>>)
    ensures
        merge_fighter_chunks(table, chunks) == merge_fighters(
            table,
            joined(rows_of_chunks(chunks)),
        ),
    decreases chunks.len(),
{
    if chunks.len() > 0 {
        lemma_merge_chunks(table, chunks.drop_last());
        assert(rows_of_chunks(chunks).drop_last() =~= rows_of_chunks(chunks.drop_last()));
        assert(rows_of_chunks(chunks).last() == chunks.last()@);
        lemma_merge_concat(table, joined(rows_of_chunks(chunks.drop_last())), chunks.last()@);
    }
}

/// What a merge leaves of a fighter: nothing changes where no row is about
/// it; otherwise it is held with the stats and the time of the last row
/// about it.
pub proof fn lemma_merge_fighters(table: Map<i64, fighter::Model>, rows: Seq<fighter::Model>, id: i64)
    ensures
        merge_fighters(table, rows).contains_key(id) <==> table.contains_key(id) || last_about(
            rows,
            id,
        ).is_some(),
        last_about(rows, id).is_none() ==> same_at(merge_fighters(table, rows), table, id),
        last_about(rows, id).is_some() ==> merge_fighters(table, rows)[id] == refreshed(
            merge_fighters(table, rows)[id],
            last_about(rows, id).unwrap(),
        ),
        last_about(rows, id).is_some() && table.contains_key(id) ==> merge_fighters(table, rows)[id]
            == refreshed(table[id], last_about(rows, id).unwrap()),
    decreases rows.len(),
{
    if rows.len() > 0 {
        lemma_merge_fighters(table, rows.drop_last(), id);
    }
}

/// A fetched fighter with its attribute rows.
pub open spec fn trait_family() -> spec_fn(Fetched) -> Family<(i64, Seq<char>), Seq<char>, i64> {
    |x: Fetched|
        Family {
            parent: x.fighter.attributes.id as i64,
            rows: trait_entries(trait_rows_of(x.fighter)),
        }
}

/// A fetched fighter with its lineage edges.
pub open spec fn edge_family() -> spec_fn(Fetched) -> Family<(i64, i64), (), i64> {
    |x: Fetched|
        Family {
            parent: x.fighter.attributes.id as i64,
            rows: parent_entries(parent_rows_of(x.fighter)),
        }
}

/// No two of the fighters have the same number.
#[verifier::opaque]
pub open spec fn fetched_once(fetched: Seq<Fetched>) -> bool {
    forall|m: int, n: int|
        0 <= m < fetched.len() && 0 <= n < fetched.len() && m != n ==> (
        #[trigger] fetched[m]).fighter.attributes.id as i64 != (
        #[trigger] fetched[n]).fighter.attributes.id as i64
}

/// Every fighter of `b` is a fighter of `a`.
#[verifier::opaque]
pub open spec fn fighters_among(b: Seq<Fetched>, a: Seq<Fetched>) -> bool {
    forall|m: int|
        0 <= m < b.len() ==> exists|n: int|
            0 <= n < a.len() && (#[trigger] a[n]).fighter == (#[trigger] b[m]).fighter
}

proof fn lemma_trait_family_rows(part: Seq<Fetched>)
    ensures
        family_rows(part.map_values(trait_family())) == trait_entries(all_trait_rows(part)),
        family_parents(part.map_values(trait_family())) == fighter_ids_of(part),
    decreases part.len(),
{
    let families = part.map_values(trait_family());
    assert(family_parents(families) =~= fighter_ids_of(part));
    if part.len() == 0 {
        assert(family_rows(families) =~= trait_entries(all_trait_rows(part)));
    } else {
        lemma_trait_family_rows(part.drop_last());
        assert(families.drop_last() =~= part.drop_last().map_values(trait_family()));
        assert(families.last().rows == trait_entries(trait_rows_of(part.last().fighter)));
        assert(trait_entries(all_trait_rows(part)) =~= trait_entries(
            all_trait_rows(part.drop_last()),
        ) + trait_entries(trait_rows_of(part.last().fighter)));
    }
}

proof fn lemma_edge_family_rows(part: Seq<Fetched>)
    ensures
        family_rows(part.map_values(edge_family())) == parent_entries(all_parent_rows(part)),
        family_parents(part.map_values(edge_family())) == fighter_ids_of(part),
    decreases part.len(),
{
    let families = part.map_values(edge_family());
    assert(family_parents(families) =~= fighter_ids_of(part));
    if part.len() == 0 {
        assert(family_rows(families) =~= parent_entries(all_parent_rows(part)));
    } else {
        lemma_edge_family_rows(part.drop_last());
        assert(families.drop_last() =~= part.drop_last().map_values(edge_family()));
        assert(families.last().rows == parent_entries(parent_rows_of(part.last().fighter)));
        assert(parent_entries(all_parent_rows(part)) =~= parent_entries(
            all_parent_rows(part.drop_last()),
        ) + parent_entries(parent_rows_of(part.last().fighter)));
    }
}

/// The groups of a batch write whole fighters: each holds every attribute
/// row, and every lineage edge, of each fighter that it names.
pub proof fn lemma_groups_are_families(batch: FighterBatch, fetched: Seq<Fetched>)
    requires
        batch.is_batch_of(fetched),
    ensures
        trait_groups(batch.traits@) == family_groups(
            fetched.map_values(trait_family()),
            CHUNK_SIZE as nat,
        ),
        parent_groups(batch.parents@) == family_groups(
            fetched.map_values(edge_family()),
            CHUNK_SIZE as nat,
        ),
        owns_rows(fetched.map_values(trait_family()), trait_owner()),
        owns_rows(fetched.map_values(edge_family()), edge_owner()),
{
    let size = CHUNK_SIZE as nat;
    let traits = fetched.map_values(trait_family());
    let edges = fetched.map_values(edge_family());
    assert forall|c: int| 0 <= c < batch.traits@.len() implies trait_groups(batch.traits@)[c]
        == family_groups(traits, size)[c] by {
        let part = chunk_at(fetched, size, c);
        assert(is_group_of(
            batch.fighters@[c],
            batch.traits@[c],
            batch.parents@[c],
            part,
        ));
        lemma_chunk_mapped(fetched, trait_family(), size, c);
        lemma_trait_family_rows(part);
    }
    assert(trait_groups(batch.traits@) =~= family_groups(traits, size));
    assert forall|c: int| 0 <= c < batch.parents@.len() implies parent_groups(batch.parents@)[c]
        == family_groups(edges, size)[c] by {
        let part = chunk_at(fetched, size, c);
        assert(is_group_of(
            batch.fighters@[c],
            batch.traits@[c],
            batch.parents@[c],
            part,
        ));
        lemma_chunk_mapped(fetched, edge_family(), size, c);
        lemma_edge_family_rows(part);
    }
    assert(parent_groups(batch.parents@) =~= family_groups(edges, size));
}

/// Attributes are reconciled to the latest snapshot, wherever the groups
/// end: after a batch is written, the store holds for a fighter that was
/// fetched once exactly the attributes of its answer, a number in decimal.
/// What it held for the fighter before is gone unless the answer has it;
/// for a fighter without attributes it holds none.
pub proof fn lemma_traits_are_reconciled(
    tables: FighterTables,
    batch: FighterBatch,
    fetched: Seq<Fetched>,
    n: int,
    key: (i64, Seq<char>),
)
    requires
        batch.is_batch_of(fetched),
        0 <= n < fetched.len(),
        forall|m: int|
            0 <= m < fetched.len() && m != n ==> (#[trigger] fetched[m]).fighter.attributes.id as i64
                != fetched[n].fighter.attributes.id as i64,
        key.0 == fetched[n].fighter.attributes.id as i64,
    ensures
        same_at(
            tables.after(batch).traits,
            insert_all(Map::empty(), trait_entries(trait_rows_of(fetched[n].fighter))),
            key,
        ),
        tables.after(batch).traits.contains_key(key) <==> exists|a: int|
            0 <= a < trait_rows_of(fetched[n].fighter).len() && (#[trigger] trait_rows_of(
                fetched[n].fighter,
            )[a]).trait_type == key.1,
{
    let families = fetched.map_values(trait_family());
    let rows = trait_rows_of(fetched[n].fighter);
    lemma_groups_are_families(batch, fetched);
    lemma_families_are_reconciled(
        tables.traits,
        trait_owner(),
        families,
        CHUNK_SIZE as nat,
        n,
        key,
    );
    lemma_insert_all_keys(trait_entries(rows), key);
    if exists|j: int| 0 <= j < trait_entries(rows).len() && (#[trigger] trait_entries(rows)[j]).0 == key {
        let j = choose|j: int|
            0 <= j < trait_entries(rows).len() && (#[trigger] trait_entries(rows)[j]).0 == key;
        assert(rows[j].trait_type == key.1);
    }
    if exists|a: int| 0 <= a < rows.len() && (#[trigger] rows[a]).trait_type == key.1 {
        let a = choose|a: int| 0 <= a < rows.len() && (#[trigger] rows[a]).trait_type == key.1;
        assert(trait_entries(rows)[a].0 == key);
    }
}

/// Lineage is reconciled to the latest snapshot: after a batch is written,
/// the store holds for a fighter that was fetched once an edge to each of
/// the two parents that its answer names and no other edge, or no edge
/// where the answer has no lineage. With two different parents that is two
/// edges or none, never one.
pub proof fn lemma_lineage_is_reconciled(
    tables: FighterTables,
    batch: FighterBatch,
    fetched: Seq<Fetched>,
    n: int,
    parent: i64,
)
    requires
        batch.is_batch_of(fetched),
        0 <= n < fetched.len(),
        forall|m: int|
            0 <= m < fetched.len() && m != n ==> (#[trigger] fetched[m]).fighter.attributes.id as i64
                != fetched[n].fighter.attributes.id as i64,
    ensures
        tables.after(batch).parents.contains_key(
            (fetched[n].fighter.attributes.id as i64, parent),
        ) <==> (fetched[n].fighter.lineage_node matches Some(node) && (parent
            == node.parents[0] as i64 || parent == node.parents[1] as i64)),
{
    let families = fetched.map_values(edge_family());
    let f = fetched[n].fighter;
    let rows = parent_entries(parent_rows_of(f));
    let key = (f.attributes.id as i64, parent);
    lemma_groups_are_families(batch, fetched);
    lemma_families_are_reconciled(
        tables.parents,
        edge_owner(),
        families,
        CHUNK_SIZE as nat,
        n,
        key,
    );
    lemma_insert_all_keys(rows, key);
    if exists|j: int| 0 <= j < rows.len() && (#[trigger] rows[j]).0 == key {
        let j = choose|j: int| 0 <= j < rows.len() && (#[trigger] rows[j]).0 == key;
        assert(parent_rows_of(f)[j].parent_id == parent);
    }
    if f.lineage_node.is_some() {
        let node = f.lineage_node.unwrap();
        if parent == node.parents[0] as i64 {
            assert(rows[0].0 == key);
        } else if parent == node.parents[1] as i64 {
            assert(rows[1].0 == key);
        }
    }
}

/// A fighter that was not fetched keeps its attribute rows and its lineage
/// edges.
pub proof fn lemma_unfetched_are_left(
    tables: FighterTables,
    batch: FighterBatch,
    fetched: Seq<Fetched>,
    id: i64,
)
    requires
        batch.is_batch_of(fetched),
        forall|m: int|
            0 <= m < fetched.len() ==> (#[trigger] fetched[m]).fighter.attributes.id as i64 != id,
    ensures
        forall|trait_type: Seq<char>|
            #[trigger] same_at(tables.after(batch).traits, tables.traits, (id, trait_type)),
        forall|parent: i64| #[trigger] same_at(tables.after(batch).parents, tables.parents, (id, parent)),
{
    lemma_groups_are_families(batch, fetched);
    assert forall|trait_type: Seq<char>|
        #[trigger] same_at(tables.after(batch).traits, tables.traits, (id, trait_type)) by {
        lemma_families_leave_others(
            tables.traits,
            trait_owner(),
            fetched.map_values(trait_family()),
            CHUNK_SIZE as nat,
            (id, trait_type),
        );
    }
    assert forall|parent: i64|
        #[trigger] same_at(tables.after(batch).parents, tables.parents, (id, parent)) by {
        lemma_families_leave_others(
            tables.parents,
            edge_owner(),
            fetched.map_values(edge_family()),
            CHUNK_SIZE as nat,
            (id, parent),
        );
    }
}

/// The last row about a fighter is the row of an answer about it; there is
/// none only where no answer is about it.
proof fn lemma_last_about(fetched: Seq<Fetched>, id: i64)
    ensures
        last_about(all_fighter_rows(fetched), id).is_none() ==> forall|n: int|
            0 <= n < fetched.len() ==> (#[trigger] fetched[n]).fighter.attributes.id as i64 != id,
        last_about(all_fighter_rows(fetched), id).is_some() ==> exists|n: int|
            0 <= n < fetched.len() && (#[trigger] fetched[n]).fighter.attributes.id as i64 == id
                && last_about(all_fighter_rows(fetched), id).unwrap() == fighter_row_of(
                fetched[n].fighter,
                fetched[n].at,
            ),
    decreases fetched.len(),
{
    if fetched.len() > 0 {
        let rows = all_fighter_rows(fetched);
        assert(rows.drop_last() =~= all_fighter_rows(fetched.drop_last()));
        assert(rows.last() == fighter_row_of(fetched.last().fighter, fetched.last().at));
        if rows.last().id == id {
            assert(fetched[fetched.len() - 1].fighter.attributes.id as i64 == id);
        } else {
            lemma_last_about(fetched.drop_last(), id);
            if last_about(rows, id).is_some() {
                let n = choose|n: int|
                    0 <= n < fetched.drop_last().len() && (
                    #[trigger] fetched.drop_last()[n]).fighter.attributes.id as i64 == id
                        && last_about(all_fighter_rows(fetched.drop_last()), id).unwrap()
                        == fighter_row_of(
                        fetched.drop_last()[n].fighter,
                        fetched.drop_last()[n].at,
                    );
                assert(fetched[n] == fetched.drop_last()[n]);
            } else {
                assert forall|n: int| 0 <= n < fetched.len() implies (
                #[trigger] fetched[n]).fighter.attributes.id as i64 != id by {
                    if n < fetched.len() - 1 {
                        assert(fetched.drop_last()[n] == fetched[n]);
                    }
                }
            }
        }
    }
}

/// The fighter rows of a batch, merged group after group, are the rows of
/// all answers merged one after the other.
proof fn lemma_merge_batch(
    table: Map<i64, fighter::Model>,
    batch: FighterBatch,
    fetched: Seq<Fetched>,
)
    requires
        batch.is_batch_of(fetched),
    ensures
        merge_fighter_chunks(table, batch.fighters@) == merge_fighters(
            table,
            all_fighter_rows(fetched),
        ),
{
    let size = CHUNK_SIZE as nat;
    let rows = all_fighter_rows(fetched);
    let chunks = rows_of_chunks(batch.fighters@);
    assert forall|c: int| 0 <= c < chunks.len() implies #[trigger] chunks[c] == chunk_at(
        rows,
        size,
        c,
    ) by {
        let part = chunk_at(fetched, size, c);
        assert(is_group_of(
            batch.fighters@[c],
            batch.traits@[c],
            batch.parents@[c],
            part,
        ));
        lemma_chunk_at(fetched, size, c);
        lemma_chunk_at(rows, size, c);
        assert(chunks[c] =~= chunk_at(rows, size, c));
    }
    lemma_joined(rows, size, chunks);
    lemma_merge_chunks(table, batch.fighters@);
}

/// Among fighters fetched once, fighter `n` is the only one of its number.
proof fn lemma_only_one(fetched: Seq<Fetched>, n: int)
    requires
        fetched_once(fetched),
        0 <= n < fetched.len(),
    ensures
        forall|m: int|
            0 <= m < fetched.len() && m != n ==> (#[trigger] fetched[m]).fighter.attributes.id as i64
                != fetched[n].fighter.attributes.id as i64,
{
    reveal(fetched_once);
}

/// Where the fighters of one scan are among those of another, the other
/// scan has an answer about every fighter that the one has an answer about,
/// and it is the same answer.
proof fn lemma_answer_about(b: Seq<Fetched>, a: Seq<Fetched>, id: i64) -> (n: int)
    requires
        fighters_among(b, a),
        exists|m: int| 0 <= m < b.len() && (#[trigger] b[m]).fighter.attributes.id as i64 == id,
    ensures
        0 <= n < a.len(),
        a[n].fighter.attributes.id as i64 == id,
        exists|m: int| 0 <= m < b.len() && (#[trigger] b[m]).fighter == a[n].fighter,
{
    reveal(fighters_among);
    let m = choose|m: int| 0 <= m < b.len() && (#[trigger] b[m]).fighter.attributes.id as i64 == id;
    let n = choose|n: int| 0 <= n < a.len() && (#[trigger] a[n]).fighter == b[m].fighter;
    assert(b[m].fighter == a[n].fighter);
    n
}

/// The place of the answer about a fighter, among fighters fetched once.
proof fn lemma_place_of(fetched: Seq<Fetched>, n: int, m: int)
    requires
        fetched_once(fetched),
        0 <= n < fetched.len(),
        0 <= m < fetched.len(),
        fetched[n].fighter.attributes.id as i64 == fetched[m].fighter.attributes.id as i64,
    ensures
        n == m,
{
    reveal(fetched_once);
}

/// A second scan leaves the attribute rows of every fighter as the first
/// left them.
proof fn lemma_traits_again(
    tables: FighterTables,
    first: FighterBatch,
    fetched: Seq<Fetched>,
    second: FighterBatch,
    again: Seq<Fetched>,
    k: (i64, Seq<char>),
)
    requires
        first.is_batch_of(fetched),
        second.is_batch_of(again),
        fetched_once(fetched),
        fetched_once(again),
        fighters_among(again, fetched),
        fighters_among(fetched, again),
    ensures
        same_at(tables.after(first).after(second).traits, tables.after(first).traits, k),
{
    let once = tables.after(first);
    if exists|n: int|
        0 <= n < fetched.len() && (#[trigger] fetched[n]).fighter.attributes.id as i64 == k.0 {
        let m = lemma_answer_about(fetched, again, k.0);
        let n = choose|n: int| 0 <= n < fetched.len() && (#[trigger] fetched[n]).fighter == again[m].fighter;
        lemma_only_one(fetched, n);
        lemma_only_one(again, m);
        lemma_traits_are_reconciled(tables, first, fetched, n, k);
        lemma_traits_are_reconciled(once, second, again, m, k);
    } else {
        if exists|m: int|
            0 <= m < again.len() && (#[trigger] again[m]).fighter.attributes.id as i64 == k.0 {
            let n = lemma_answer_about(again, fetched, k.0);
        }
        lemma_unfetched_are_left(once, second, again, k.0);
        assert(same_at(once.after(second).traits, once.traits, (k.0, k.1)));
    }
}

/// A second scan leaves the lineage edges of every fighter as the first
/// left them.
proof fn lemma_edges_again(
    tables: FighterTables,
    first: FighterBatch,
    fetched: Seq<Fetched>,
    second: FighterBatch,
    again: Seq<Fetched>,
    k: (i64, i64),
)
    requires
        first.is_batch_of(fetched),
        second.is_batch_of(again),
        fetched_once(fetched),
        fetched_once(again),
        fighters_among(again, fetched),
        fighters_among(fetched, again),
    ensures
        tables.after(first).after(second).parents.contains_key(k) == tables.after(
            first,
        ).parents.contains_key(k),
{
    let once = tables.after(first);
    if exists|n: int|
        0 <= n < fetched.len() && (#[trigger] fetched[n]).fighter.attributes.id as i64 == k.0 {
        let m = lemma_answer_about(fetched, again, k.0);
        let n = choose|n: int| 0 <= n < fetched.len() && (#[trigger] fetched[n]).fighter == again[m].fighter;
        lemma_only_one(fetched, n);
        lemma_only_one(again, m);
        lemma_lineage_is_reconciled(tables, first, fetched, n, k.1);
        lemma_lineage_is_reconciled(once, second, again, m, k.1);
    } else {
        if exists|m: int|
            0 <= m < again.len() && (#[trigger] again[m]).fighter.attributes.id as i64 == k.0 {
            let n = lemma_answer_about(again, fetched, k.0);
        }
        lemma_unfetched_are_left(once, second, again, k.0);
        assert(same_at(once.after(second).parents, once.parents, (k.0, k.1)));
    }
}

/// The last rows about a fighter in two scans that hold the same fighters
/// are the same, but for their time.
proof fn lemma_last_about_again(fetched: Seq<Fetched>, again: Seq<Fetched>, id: i64)
    requires
        fetched_once(fetched),
        fetched_once(again),
        fighters_among(again, fetched),
        fighters_among(fetched, again),
    ensures
        last_about(all_fighter_rows(fetched), id).is_some() == last_about(
            all_fighter_rows(again),
            id,
        ).is_some(),
        last_about(all_fighter_rows(fetched), id).is_some() ==> last_about(
            all_fighter_rows(again),
            id,
        ).unwrap() == (fighter::Model {
            last_updated: last_about(all_fighter_rows(again), id).unwrap().last_updated,
            ..last_about(all_fighter_rows(fetched), id).unwrap()
        }),
{
    let rows = all_fighter_rows(fetched);
    let rows_again = all_fighter_rows(again);
    lemma_last_about(fetched, id);
    lemma_last_about(again, id);
    if last_about(rows_again, id).is_some() {
        let m = choose|m: int|
            0 <= m < again.len() && (#[trigger] again[m]).fighter.attributes.id as i64 == id
                && last_about(rows_again, id).unwrap() == fighter_row_of(
                again[m].fighter,
                again[m].at,
            );
        let n = lemma_answer_about(again, fetched, id);
        assert(last_about(rows, id).is_some());
        let n2 = choose|n2: int|
            0 <= n2 < fetched.len() && (#[trigger] fetched[n2]).fighter.attributes.id as i64 == id
                && last_about(rows, id).unwrap() == fighter_row_of(
                fetched[n2].fighter,
                fetched[n2].at,
            );
        lemma_place_of(fetched, n, n2);
        let m2 = choose|m2: int| 0 <= m2 < again.len() && (#[trigger] again[m2]).fighter == fetched[n].fighter;
        lemma_place_of(again, m, m2);
    } else if last_about(rows, id).is_some() {
        let m = lemma_answer_about(fetched, again, id);
    }
}

/// A scan that finds the fighters as the scan before found them changes
/// nothing but the time of the refresh, in whatever order the answers come
/// the second time: the store holds the same fighters with the same stats
/// and the same lineage, the same attribute rows and the same lineage
/// edges. Each fighter is fetched once in either scan.
pub proof fn lemma_fighter_scan_is_idempotent(
    tables: FighterTables,
    first: FighterBatch,
    fetched: Seq<Fetched>,
    second: FighterBatch,
    again: Seq<Fetched>,
)
    requires
        first.is_batch_of(fetched),
        second.is_batch_of(again),
        fetched_once(fetched),
        fetched_once(again),
        fighters_among(again, fetched),
        fighters_among(fetched, again),
    ensures
        tables.after(first).after(second).traits == tables.after(first).traits,
        tables.after(first).after(second).parents == tables.after(first).parents,
        tables.after(first).after(second).fighters.dom() == tables.after(first).fighters.dom(),
        forall|id: i64| #[trigger]
            tables.after(first).fighters.contains_key(id) ==> tables.after(first).after(
                second,
            ).fighters[id] == (fighter::Model {
                last_updated: tables.after(first).after(second).fighters[id].last_updated,
                ..tables.after(first).fighters[id]
            }),
{
    let once = tables.after(first);
    let twice = once.after(second);
    assert forall|k: (i64, Seq<char>)|
        twice.traits.dom().contains(k) == once.traits.dom().contains(k) by {
        lemma_traits_again(tables, first, fetched, second, again, k);
    }
    assert forall|k: (i64, Seq<char>)| twice.traits.dom().contains(k) implies twice.traits[k]
        == once.traits[k] by {
        lemma_traits_again(tables, first, fetched, second, again, k);
    }
    assert(twice.traits =~= once.traits);
    assert forall|k: (i64, i64)| twice.parents.dom().contains(k) == once.parents.dom().contains(
        k,
    ) by {
        lemma_edges_again(tables, first, fetched, second, again, k);
    }
    assert(twice.parents =~= once.parents);
    let rows = all_fighter_rows(fetched);
    let rows_again = all_fighter_rows(again);
    lemma_merge_batch(tables.fighters, first, fetched);
    lemma_merge_batch(once.fighters, second, again);
    assert forall|id: i64|
        twice.fighters.contains_key(id) == once.fighters.contains_key(id) && (
        once.fighters.contains_key(id) ==> twice.fighters[id] == (fighter::Model {
            last_updated: twice.fighters[id].last_updated,
            ..once.fighters[id]
        })) by {
        lemma_last_about_again(fetched, again, id);
        lemma_merge_fighters(tables.fighters, rows, id);
        lemma_merge_fighters(once.fighters, rows_again, id);
    }
    assert forall|id: i64| twice.fighters.dom().contains(id) == once.fighters.dom().contains(
        id,
    ) by {
        lemma_last_about_again(fetched, again, id);
        lemma_merge_fighters(tables.fighters, rows, id);
        lemma_merge_fighters(once.fighters, rows_again, id);
    }
    assert(twice.fighters.dom() =~= once.fighters.dom());
}

} // verus!
