//! What the writes mean: the tables of the store as maps from key to row,
//! and each kind of write as a function from table to table.
//!
//! Nothing here runs. The engines hand out rows in groups; these
//! definitions say what the store holds once a group is written, and the
//! lemmas say what that makes true of a whole scan.

use vstd::prelude::*;
use crate::task::chunk::chunk_at;
use crate::task::chunk::chunk_count;
use crate::task::chunk::lemma_chunk_at;
use crate::task::chunk::lemma_chunk_of;
use crate::task::chunk::lemma_chunk_places;

pub mod detail;
pub mod fighter;
pub mod tournament;

verus! {

/// The table without the rows under the given parents: `parent` takes a
/// row's key to the key of what it belongs to.
pub open spec fn delete_by<K, V, P>(table: Map<K, V>, parent: spec_fn(K) -> P, touched: Seq<P>)
    -> Map<K, V> {
    Map::new(|k: K| table.contains_key(k) && !touched.contains(parent(k)), |k: K| table[k])
}

/// The table after the rows were written one after the other, each taking
/// the place of a row under the same key.
pub open spec fn insert_all<K, V>(table: Map<K, V>, rows: Seq<(K, V)>) -> Map<K, V>
    decreases rows.len(),
{
    if rows.len() == 0 {
        table
    } else {
        insert_all(table, rows.drop_last()).insert(rows.last().0, rows.last().1)
    }
}

/// The table after the rows were written one after the other, each only
/// where no row is under its key.
pub open spec fn insert_absent<K, V>(table: Map<K, V>, rows: Seq<(K, V)>) -> Map<K, V>
    decreases rows.len(),
{
    if rows.len() == 0 {
        table
    } else {
        let before = insert_absent(table, rows.drop_last());
        if before.contains_key(rows.last().0) {
            before
        } else {
            before.insert(rows.last().0, rows.last().1)
        }
    }
}

/// One group of rows with the parents that it touches.
pub struct Group<K, V, P> {
    pub touched: Seq<P>,
    pub rows: Seq<(K, V)>,
}

impl<K, V, P> Group<K, V, P> {
    /// Every row of the group belongs to a parent that the group touches.
    pub open spec fn covers_rows(self, parent: spec_fn(K) -> P) -> bool {
        forall|j: int| 0 <= j < self.rows.len() ==> self.touched.contains(
            parent((#[trigger] self.rows[j]).0),
        )
    }
}

/// The table after one group was written in place of what its parents had:
/// everything under the parents it touches is deleted, then its rows are
/// written.
pub open spec fn replace<K, V, P>(table: Map<K, V>, parent: spec_fn(K) -> P, group: Group<K, V, P>)
    -> Map<K, V> {
    insert_all(delete_by(table, parent, group.touched), group.rows)
}

/// The table after the groups were written, one after the other.
pub open spec fn replace_all<K, V, P>(
    table: Map<K, V>,
    parent: spec_fn(K) -> P,
    groups: Seq<Group<K, V, P>>,
) -> Map<K, V>
    decreases groups.len(),
{
    if groups.len() == 0 {
        table
    } else {
        replace(replace_all(table, parent, groups.drop_last()), parent, groups.last())
    }
}

/// Some group touches the parent.
pub open spec fn touches<K, V, P>(groups: Seq<Group<K, V, P>>, p: P) -> bool {
    exists|c: int| 0 <= c < groups.len() && (#[trigger] groups[c]).touched.contains(p)
}

/// Two tables hold the same under a key: the same row, or none.
pub open spec fn same_at<K, V>(a: Map<K, V>, b: Map<K, V>, k: K) -> bool {
    a.contains_key(k) == b.contains_key(k) && (a.contains_key(k) ==> a[k] == b[k])
}

/// Writing rows changes nothing under a key that none of them has, and
/// under a key that one of them has it leaves what the rows alone decide.
pub proof fn lemma_insert_all<K, V>(a: Map<K, V>, b: Map<K, V>, rows: Seq<(K, V)>, k: K)
    ensures
        (forall|j: int| 0 <= j < rows.len() ==> (#[trigger] rows[j]).0 != k) ==> same_at(
            insert_all(a, rows),
            a,
            k,
        ),
        (exists|j: int| 0 <= j < rows.len() && (#[trigger] rows[j]).0 == k) ==> same_at(
            insert_all(a, rows),
            insert_all(b, rows),
            k,
        ) && insert_all(a, rows).contains_key(k),
        same_at(a, b, k) ==> same_at(insert_all(a, rows), insert_all(b, rows), k),
    decreases rows.len(),
{
    if rows.len() > 0 {
        let before = rows.drop_last();
        lemma_insert_all(a, b, before, k);
        assert(forall|j: int| 0 <= j < before.len() ==> before[j] == rows[j]);
        if rows.last().0 != k {
            if exists|j: int| 0 <= j < rows.len() && (#[trigger] rows[j]).0 == k {
                let j = choose|j: int| 0 <= j < rows.len() && (#[trigger] rows[j]).0 == k;
                assert(before[j].0 == k);
            }
        }
    }
}

/// One replacement is exact: under every parent that the group touches the
/// table then holds what the group's rows hold and nothing else, whatever
/// it held before; under every other parent it holds what it held.
pub proof fn lemma_replace_is_exact<K, V, P>(
    table: Map<K, V>,
    parent: spec_fn(K) -> P,
    group: Group<K, V, P>,
    k: K,
)
    requires
        group.covers_rows(parent),
    ensures
        group.touched.contains(parent(k)) ==> same_at(
            replace(table, parent, group),
            insert_all(Map::empty(), group.rows),
            k,
        ),
        !group.touched.contains(parent(k)) ==> same_at(replace(table, parent, group), table, k),
{
    let cleared = delete_by(table, parent, group.touched);
    lemma_insert_all(cleared, Map::empty(), group.rows, k);
    if group.touched.contains(parent(k)) {
        assert(same_at(cleared, Map::<K, V>::empty(), k));
    } else {
        assert forall|j: int| 0 <= j < group.rows.len() implies (#[trigger] group.rows[j]).0
            != k by {
            assert(group.touched.contains(parent(group.rows[j].0)));
        }
        assert(same_at(cleared, table, k));
    }
}

/// What the groups leave under a parent that one of them touches does not
/// depend on what the table held before; under a parent that none touches
/// the table holds what it held.
pub proof fn lemma_replace_all<K, V, P>(
    a: Map<K, V>,
    b: Map<K, V>,
    parent: spec_fn(K) -> P,
    groups: Seq<Group<K, V, P>>,
    k: K,
)
    requires
        forall|c: int| 0 <= c < groups.len() ==> (#[trigger] groups[c]).covers_rows(parent),
    ensures
        touches(groups, parent(k)) ==> same_at(
            replace_all(a, parent, groups),
            replace_all(b, parent, groups),
            k,
        ),
        !touches(groups, parent(k)) ==> same_at(replace_all(a, parent, groups), a, k),
    decreases groups.len(),
{
    if groups.len() > 0 {
        let before = groups.drop_last();
        let last = groups.last();
        assert(forall|c: int| 0 <= c < before.len() ==> before[c] == groups[c]);
        lemma_replace_all(a, b, parent, before, k);
        let ta = replace_all(a, parent, before);
        let tb = replace_all(b, parent, before);
        lemma_replace_is_exact(ta, parent, last, k);
        lemma_replace_is_exact(tb, parent, last, k);
        if last.touched.contains(parent(k)) {
            assert(groups[groups.len() - 1].touched.contains(parent(k)));
        } else if touches(groups, parent(k)) {
            let c = choose|c: int|
                0 <= c < groups.len() && (#[trigger] groups[c]).touched.contains(parent(k));
            assert(before[c].touched.contains(parent(k)));
        } else {
            assert forall|c: int| 0 <= c < before.len() implies !(#[trigger] before[c]).touched.contains(
                parent(k),
            ) by {
                assert(groups[c] == before[c]);
            }
        }
    }
}

/// Writing the same groups again changes nothing.
pub proof fn lemma_replace_all_again<K, V, P>(
    table: Map<K, V>,
    parent: spec_fn(K) -> P,
    groups: Seq<Group<K, V, P>>,
)
    requires
        forall|c: int| 0 <= c < groups.len() ==> (#[trigger] groups[c]).covers_rows(parent),
    ensures
        replace_all(replace_all(table, parent, groups), parent, groups) == replace_all(
            table,
            parent,
            groups,
        ),
{
    let once = replace_all(table, parent, groups);
    let twice = replace_all(once, parent, groups);
    assert forall|k: K| same_at(twice, once, k) by {
        lemma_replace_all(once, table, parent, groups, k);
    }
    assert(twice =~= once) by {
        assert forall|k: K| twice.contains_key(k) == once.contains_key(k) by {
            assert(same_at(twice, once, k));
        }
        assert forall|k: K| twice.contains_key(k) implies twice[k] == once[k] by {
            assert(same_at(twice, once, k));
        }
    }
}

/// What is recorded stays: a row that the table holds is not changed by
/// rows that are written only where none is, whatever they hold.
pub proof fn lemma_insert_absent_keeps<K, V>(table: Map<K, V>, rows: Seq<(K, V)>, k: K)
    requires
        table.contains_key(k),
    ensures
        insert_absent(table, rows).contains_key(k),
        insert_absent(table, rows)[k] == table[k],
    decreases rows.len(),
{
    if rows.len() > 0 {
        lemma_insert_absent_keeps(table, rows.drop_last(), k);
    }
}

/// Writing rows one after the other is writing the first of them and then
/// the rest.
pub proof fn lemma_insert_concat<K, V>(table: Map<K, V>, a: Seq<(K, V)>, b: Seq<(K, V)>)
    ensures
        insert_all(table, a + b) == insert_all(insert_all(table, a), b),
    decreases b.len(),
{
    if b.len() == 0 {
        assert(a + b =~= a);
    } else {
        lemma_insert_concat(table, a, b.drop_last());
        assert((a + b).drop_last() =~= a + b.drop_last());
        assert((a + b).last() == b.last());
    }
}

/// Where one group alone touches a parent, the table then holds under that
/// parent what the rows of that group hold, whatever it held before and
/// whatever the other groups hold.
pub proof fn lemma_replace_all_by_one<K, V, P>(
    table: Map<K, V>,
    parent: spec_fn(K) -> P,
    groups: Seq<Group<K, V, P>>,
    c: int,
    k: K,
)
    requires
        forall|i: int| 0 <= i < groups.len() ==> (#[trigger] groups[i]).covers_rows(parent),
        0 <= c < groups.len(),
        groups[c].touched.contains(parent(k)),
        forall|i: int|
            0 <= i < groups.len() && i != c ==> !(#[trigger] groups[i]).touched.contains(parent(k)),
    ensures
        same_at(replace_all(table, parent, groups), insert_all(Map::empty(), groups[c].rows), k),
    decreases groups.len(),
{
    let before = groups.drop_last();
    lemma_replace_is_exact(replace_all(table, parent, before), parent, groups.last(), k);
    if c < groups.len() - 1 {
        assert(forall|i: int| 0 <= i < before.len() ==> before[i] == groups[i]);
        lemma_replace_all_by_one(table, parent, before, c, k);
    }
}

/// A row that the table holds after rows were written was held before or
/// is one of the rows.
pub proof fn lemma_insert_all_source<K, V>(table: Map<K, V>, rows: Seq<(K, V)>, k: K)
    requires
        insert_all(table, rows).contains_key(k),
    ensures
        (table.contains_key(k) && insert_all(table, rows)[k] == table[k]) || exists|j: int|
            0 <= j < rows.len() && #[trigger] rows[j] == (k, insert_all(table, rows)[k]),
    decreases rows.len(),
{
    if rows.len() > 0 {
        if rows.last().0 == k {
            assert(rows[rows.len() - 1] == (k, insert_all(table, rows)[k]));
        } else {
            lemma_insert_all_source(table, rows.drop_last(), k);
            if !(table.contains_key(k) && insert_all(table, rows)[k] == table[k]) {
                let j = choose|j: int|
                    0 <= j < rows.drop_last().len() && #[trigger] rows.drop_last()[j] == (
                        k,
                        insert_all(table, rows.drop_last())[k],
                    );
                assert(rows[j] == rows.drop_last()[j]);
            }
        }
    }
}

/// Rows leave a row under a key exactly where one of them has that key.
pub proof fn lemma_insert_all_keys<K, V>(rows: Seq<(K, V)>, k: K)
    ensures
        insert_all(Map::<K, V>::empty(), rows).contains_key(k) <==> exists|j: int|
            0 <= j < rows.len() && (#[trigger] rows[j]).0 == k,
    decreases rows.len(),
{
    if rows.len() > 0 {
        lemma_insert_all_keys(rows.drop_last(), k);
        if rows.last().0 != k {
            if exists|j: int| 0 <= j < rows.len() && (#[trigger] rows[j]).0 == k {
                let j = choose|j: int| 0 <= j < rows.len() && (#[trigger] rows[j]).0 == k;
                assert(rows.drop_last()[j].0 == k);
            }
            if exists|j: int|
                0 <= j < rows.drop_last().len() && (#[trigger] rows.drop_last()[j]).0 == k {
                let j = choose|j: int|
                    0 <= j < rows.drop_last().len() && (#[trigger] rows.drop_last()[j]).0 == k;
                assert(rows[j].0 == k);
            }
        } else {
            assert(rows[rows.len() - 1].0 == k);
        }
    }
}

/// Under a key that only the middle rows have, the rows leave what the
/// middle rows alone leave.
pub proof fn lemma_insert_middle<K, V>(x: Seq<(K, V)>, y: Seq<(K, V)>, z: Seq<(K, V)>, k: K)
    requires
        forall|j: int| 0 <= j < x.len() ==> (#[trigger] x[j]).0 != k,
        forall|j: int| 0 <= j < z.len() ==> (#[trigger] z[j]).0 != k,
    ensures
        same_at(insert_all(Map::empty(), (x + y) + z), insert_all(Map::empty(), y), k),
{
    lemma_insert_concat(Map::empty(), x + y, z);
    lemma_insert_concat(Map::empty(), x, y);
    let after_x = insert_all(Map::<K, V>::empty(), x);
    let after_xy = insert_all(after_x, y);
    lemma_insert_all(after_xy, after_xy, z, k);
    lemma_insert_all(after_x, Map::empty(), y, k);
    lemma_insert_all(Map::<K, V>::empty(), Map::empty(), x, k);
}

/// A parent with the rows that belong to it.
pub struct Family<K, V, P> {
    pub parent: P,
    pub rows: Seq<(K, V)>,
}

/// The rows of the families, family after family.
pub open spec fn family_rows<K, V, P>(families: Seq<Family<K, V, P>>) -> Seq<(K, V)>
    decreases families.len(),
{
    if families.len() == 0 {
        Seq::empty()
    } else {
        family_rows(families.drop_last()) + families.last().rows
    }
}

/// The parents of the families.
pub open spec fn family_parents<K, V, P>(families: Seq<Family<K, V, P>>) -> Seq<P> {
    Seq::new(families.len(), |i: int| families[i].parent)
}

/// The group that writes whole families: it touches every one of their
/// parents, also one without rows, and holds all their rows.
pub open spec fn family_group<K, V, P>(families: Seq<Family<K, V, P>>) -> Group<K, V, P> {
    Group { touched: family_parents(families), rows: family_rows(families) }
}

/// The groups that write the families `size` at a time.
pub open spec fn family_groups<K, V, P>(families: Seq<Family<K, V, P>>, size: nat) -> Seq<
    Group<K, V, P>,
> {
    Seq::new(
        chunk_count(families.len(), size),
        |c: int| family_group(chunk_at(families, size, c)),
    )
}

/// Every row of a family belongs to the family's parent.
pub open spec fn owns_rows<K, V, P>(families: Seq<Family<K, V, P>>, owner: spec_fn(K) -> P) -> bool {
    forall|i: int, j: int|
        0 <= i < families.len() && 0 <= j < families[i].rows.len() ==> owner(
            (#[trigger] families[i].rows[j]).0,
        ) == families[i].parent
}

/// Every row of the families is a row of one of them.
proof fn lemma_family_rows_source<K, V, P>(families: Seq<Family<K, V, P>>, r: int)
    requires
        0 <= r < family_rows(families).len(),
    ensures
        exists|i: int, j: int|
            0 <= i < families.len() && 0 <= j < families[i].rows.len() && family_rows(families)[r]
                == #[trigger] families[i].rows[j],
    decreases families.len(),
{
    let before = families.drop_last();
    if r < family_rows(before).len() {
        lemma_family_rows_source(before, r);
        let (i, j) = choose|i: int, j: int|
            0 <= i < before.len() && 0 <= j < before[i].rows.len() && family_rows(before)[r]
                == #[trigger] before[i].rows[j];
        assert(families[i].rows[j] == before[i].rows[j]);
    } else {
        let j = r - family_rows(before).len();
        assert(family_rows(families)[r] == families[families.len() - 1].rows[j]);
    }
}

/// The rows of families one after the other are the rows of the first of
/// them and then those of the rest.
proof fn lemma_family_rows_concat<K, V, P>(a: Seq<Family<K, V, P>>, b: Seq<Family<K, V, P>>)
    ensures
        family_rows(a + b) == family_rows(a) + family_rows(b),
    decreases b.len(),
{
    if b.len() == 0 {
        assert(a + b =~= a);
        assert(family_rows(a) + family_rows(b) =~= family_rows(a));
    } else {
        lemma_family_rows_concat(a, b.drop_last());
        assert((a + b).drop_last() =~= a + b.drop_last());
        assert((a + b).last() == b.last());
        assert(family_rows(a + b) =~= family_rows(a) + family_rows(b));
    }
}

/// Among families with different parents, only the rows of one family have
/// a key of its parent.
proof fn lemma_family_rows_of_others<K, V, P>(
    families: Seq<Family<K, V, P>>,
    owner: spec_fn(K) -> P,
    k: K,
)
    requires
        owns_rows(families, owner),
        forall|i: int| 0 <= i < families.len() ==> (#[trigger] families[i]).parent != owner(k),
    ensures
        forall|r: int| 0 <= r < family_rows(families).len() ==> (#[trigger] family_rows(
            families,
        )[r]).0 != k,
{
    assert forall|r: int| 0 <= r < family_rows(families).len() implies (#[trigger] family_rows(
        families,
    )[r]).0 != k by {
        lemma_family_rows_source(families, r);
        let (i, j) = choose|i: int, j: int|
            0 <= i < families.len() && 0 <= j < families[i].rows.len() && family_rows(families)[r]
                == #[trigger] families[i].rows[j];
        assert(owner(families[i].rows[j].0) == families[i].parent);
        assert(families[i].parent != owner(k));
    }
}

/// Every group of whole families touches the parent of each of its rows.
proof fn lemma_family_group_covers<K, V, P>(families: Seq<Family<K, V, P>>, owner: spec_fn(K) -> P)
    requires
        owns_rows(families, owner),
    ensures
        family_group(families).covers_rows(owner),
{
    let group = family_group(families);
    assert forall|r: int| 0 <= r < group.rows.len() implies group.touched.contains(
        owner((#[trigger] group.rows[r]).0),
    ) by {
        lemma_family_rows_source(families, r);
        let (i, j) = choose|i: int, j: int|
            0 <= i < families.len() && 0 <= j < families[i].rows.len() && family_rows(families)[r]
                == #[trigger] families[i].rows[j];
        assert(owner(families[i].rows[j].0) == families[i].parent);
        assert(group.touched[i] == families[i].parent);
    }
}

/// Reconciliation is exact wherever the groups end: where families are
/// written in groups of `size` and family `n` is the only one of its
/// parent, the table then holds under that parent what the rows of family
/// `n` hold and nothing else, whatever it held before. A family without
/// rows leaves nothing under its parent.
pub proof fn lemma_families_are_reconciled<K, V, P>(
    table: Map<K, V>,
    owner: spec_fn(K) -> P,
    families: Seq<Family<K, V, P>>,
    size: nat,
    n: int,
    k: K,
)
    requires
        size > 0,
        owns_rows(families, owner),
        0 <= n < families.len(),
        forall|m: int|
            0 <= m < families.len() && m != n ==> (#[trigger] families[m]).parent
                != families[n].parent,
        owner(k) == families[n].parent,
    ensures
        same_at(
            replace_all(table, owner, family_groups(families, size)),
            insert_all(Map::empty(), families[n].rows),
            k,
        ),
{
    let groups = family_groups(families, size);
    let sz = size as int;
    let c = n / sz;
    let at = n % sz;
    lemma_chunk_of(families, size, n);
    let part = chunk_at(families, size, c);
    assert(groups[c] == family_group(part));
    // Every group touches the parents of its rows.
    assert forall|i: int| 0 <= i < groups.len() implies (#[trigger] groups[i]).covers_rows(
        owner,
    ) by {
        let other = chunk_at(families, size, i);
        lemma_chunk_at(families, size, i);
        assert(owns_rows(other, owner)) by {
            assert forall|a: int, b: int|
                0 <= a < other.len() && 0 <= b < other[a].rows.len() implies owner(
                (#[trigger] other[a].rows[b]).0,
            ) == other[a].parent by {
                assert(other[a] == families[i * size + a]);
                assert(owner(families[i * size + a].rows[b].0) == families[i * size + a].parent);
            }
        }
        lemma_family_group_covers(other, owner);
    }
    // The group of family `n` touches its parent; no other group does.
    assert(groups[c].touched.contains(owner(k))) by {
        assert(groups[c].touched[at] == part[at].parent);
    }
    assert forall|i: int| 0 <= i < groups.len() && i != c implies !(#[trigger] groups[i]).touched.contains(
        owner(k),
    ) by {
        let other = chunk_at(families, size, i);
        lemma_chunk_at(families, size, i);
        if groups[i].touched.contains(owner(k)) {
            let a = choose|a: int|
                0 <= a < groups[i].touched.len() && groups[i].touched[a] == owner(k);
            assert(other[a] == families[i * size + a]);
            if i * size + a == n {
                lemma_chunk_places(size, i, a, c, at);
            }
            assert(families[i * size + a].parent != families[n].parent);
        }
    }
    lemma_replace_all_by_one(table, owner, groups, c, k);
    // Within the group, only family `n` has rows of its parent.
    lemma_chunk_at(families, size, c);
    let x = part.take(at);
    let z = part.skip(at + 1);
    assert(part =~= (x + seq![part[at]]) + z);
    lemma_family_rows_concat(x + seq![part[at]], z);
    lemma_family_rows_concat(x, seq![part[at]]);
    assert(family_rows(seq![part[at]]) =~= part[at].rows) by {
        assert(seq![part[at]].drop_last() =~= Seq::<Family<K, V, P>>::empty());
        assert(family_rows(seq![part[at]].drop_last()) =~= Seq::<(K, V)>::empty());
    }
    assert(owns_rows(x, owner) && forall|i: int|
        0 <= i < x.len() ==> (#[trigger] x[i]).parent != owner(k)) by {
        assert forall|i: int| 0 <= i < x.len() implies (#[trigger] x[i]).parent != owner(k)
            && forall|b: int|
            0 <= b < x[i].rows.len() ==> owner((#[trigger] x[i].rows[b]).0) == x[i].parent by {
            assert(x[i] == families[c * size + i]);
            assert(families[c * size + i].parent != families[n].parent);
            assert forall|b: int| 0 <= b < x[i].rows.len() implies owner(
                (#[trigger] x[i].rows[b]).0,
            ) == x[i].parent by {
                assert(owner(families[c * size + i].rows[b].0) == families[c * size + i].parent);
            }
        }
    }
    assert(owns_rows(z, owner) && forall|i: int|
        0 <= i < z.len() ==> (#[trigger] z[i]).parent != owner(k)) by {
        assert forall|i: int| 0 <= i < z.len() implies (#[trigger] z[i]).parent != owner(k)
            && forall|b: int|
            0 <= b < z[i].rows.len() ==> owner((#[trigger] z[i].rows[b]).0) == z[i].parent by {
            assert(z[i] == families[c * size + at + 1 + i]);
            assert(families[c * size + at + 1 + i].parent != families[n].parent);
            assert forall|b: int| 0 <= b < z[i].rows.len() implies owner(
                (#[trigger] z[i].rows[b]).0,
            ) == z[i].parent by {
                assert(owner(families[c * size + at + 1 + i].rows[b].0) == families[c * size + at
                    + 1 + i].parent);
            }
        }
    }
    lemma_family_rows_of_others(x, owner, k);
    lemma_family_rows_of_others(z, owner, k);
    lemma_insert_middle(family_rows(x), part[at].rows, family_rows(z), k);
    assert(part[at] == families[n]);
}

/// What no family is about is left as it was.
pub proof fn lemma_families_leave_others<K, V, P>(
    table: Map<K, V>,
    owner: spec_fn(K) -> P,
    families: Seq<Family<K, V, P>>,
    size: nat,
    k: K,
)
    requires
        size > 0,
        owns_rows(families, owner),
        forall|m: int| 0 <= m < families.len() ==> (#[trigger] families[m]).parent != owner(k),
    ensures
        same_at(replace_all(table, owner, family_groups(families, size)), table, k),
{
    let groups = family_groups(families, size);
    assert forall|i: int| 0 <= i < groups.len() implies (#[trigger] groups[i]).covers_rows(owner)
        && !groups[i].touched.contains(owner(k)) by {
        let other = chunk_at(families, size, i);
        lemma_chunk_at(families, size, i);
        assert(owns_rows(other, owner)) by {
            assert forall|a: int, b: int|
                0 <= a < other.len() && 0 <= b < other[a].rows.len() implies owner(
                (#[trigger] other[a].rows[b]).0,
            ) == other[a].parent by {
                assert(other[a] == families[i * size + a]);
                assert(owner(families[i * size + a].rows[b].0) == families[i * size + a].parent);
            }
        }
        lemma_family_group_covers(other, owner);
        if groups[i].touched.contains(owner(k)) {
            let a = choose|a: int|
                0 <= a < groups[i].touched.len() && groups[i].touched[a] == owner(k);
            assert(other[a] == families[i * size + a]);
        }
    }
    lemma_replace_all(table, table, owner, groups, k);
    assert(!touches(groups, owner(k)));
}

} // verus!
