//! Writes are made in groups of bounded size: so many fighters, or so many
//! tournaments, at a time, each with all the rows that belong to it.

use vstd::prelude::*;
use itertools::Itertools;

verus! {

/// The number of fighters, or of tournaments, that one write is about at
/// most.
pub const CHUNK_SIZE: usize = 100;

/// How many groups of at most `size` items `len` items make.
pub open spec fn chunk_count(len: nat, size: nat) -> nat
    recommends
        size > 0,
{
    ((len + size - 1) / size as int) as nat
}

/// Group `i` of `items`: the items from place `i * size` on, `size` of them
/// or as many as are left.
pub open spec fn chunk_at<T>(items: Seq<T>, size: nat, i: int) -> Seq<T>
    recommends
        size > 0,
        0 <= i < chunk_count(items.len(), size),
{
    items.subrange(
        i * size,
        if (i + 1) * size <= items.len() {
            (i + 1) * size
        } else {
            items.len() as int
        },
    )
}

/// `chunks` are the consecutive groups of `items`, in order.
pub open spec fn is_chunked<T>(items: Seq<T>, size: nat, chunks: Seq<Vec<T>>) -> bool {
    &&& chunks.len() == chunk_count(items.len(), size)
    &&& forall|i: int| 0 <= i < chunks.len() ==> (#[trigger] chunks[i])@ == chunk_at(items, size, i)
}

/// `itertools`' `Itertools::chunks`, each group collected into a vector. The
/// groups hold `size` consecutive items each, the last one those that are
/// left; no items give no group. A size of zero is refused there.
#[verifier::external_body]
pub(crate) fn collect_chunks<T>(items: Vec<T>, size: usize) -> (chunks: Vec<Vec<T>>)
    requires
        size > 0,
    ensures
        is_chunked(items@, size as nat, chunks@),
{
    items.into_iter().chunks(size).into_iter().map(|ck| ck.collect::<Vec<_>>()).collect::<Vec<_>>()
}

/// Where group `c` lies: it is not empty, holds at most `size` items, and
/// its item `j` is item `c * size + j` of the whole.
pub proof fn lemma_chunk_at<T>(items: Seq<T>, size: nat, c: int)
    requires
        size > 0,
        0 <= c < chunk_count(items.len(), size),
    ensures
        0 <= c * size < items.len(),
        1 <= chunk_at(items, size, c).len() <= size,
        c * size + chunk_at(items, size, c).len() <= items.len(),
        chunk_at(items, size, c).len() == size || c * size + chunk_at(items, size, c).len()
            == items.len(),
        c * size + size <= items.len() ==> chunk_at(items, size, c).len() == size,
        forall|j: int|
            0 <= j < chunk_at(items, size, c).len() ==> #[trigger] chunk_at(items, size, c)[j]
                == items[c * size + j],
{
    let len = items.len() as int;
    let sz = size as int;
    assert(0 <= c * sz < len && (c + 1) * sz == c * sz + sz) by (nonlinear_arith)
        requires
            sz > 0,
            len >= 0,
            0 <= c < (len + sz - 1) / sz,
    ;
}

/// The groups, one after the other, as one sequence.
pub open spec fn joined<T>(chunks: Seq<Seq<T>>) -> Seq<T>
    decreases chunks.len(),
{
    if chunks.len() == 0 {
        Seq::empty()
    } else {
        joined(chunks.drop_last()) + chunks.last()
    }
}

/// The first `k` groups of `items` are, one after the other, the items
/// before group `k`.
proof fn lemma_joined_prefix<T>(items: Seq<T>, size: nat, chunks: Seq<Seq<T>>, k: int)
    requires
        size > 0,
        chunks.len() == chunk_count(items.len(), size),
        forall|c: int| 0 <= c < chunks.len() ==> #[trigger] chunks[c] == chunk_at(items, size, c),
        0 <= k <= chunks.len(),
    ensures
        k < chunks.len() ==> joined(chunks.take(k)) == items.take(k * size),
        k == chunks.len() ==> joined(chunks.take(k)) == items,
    decreases k,
{
    if k == 0 {
        assert(chunks.take(0) =~= Seq::<Seq<T>>::empty());
        if chunks.len() == 0 {
            assert(items.len() == 0) by (nonlinear_arith)
                requires
                    size > 0,
                    (items.len() + size - 1) / (size as int) == 0,
            ;
        }
        assert(joined(chunks.take(0)) =~= items.take(0));
        assert(k * size == 0) by (nonlinear_arith)
            requires
                k == 0,
        ;
    } else {
        lemma_joined_prefix(items, size, chunks, k - 1);
        lemma_chunk_at(items, size, k - 1);
        assert(chunks.take(k).drop_last() =~= chunks.take(k - 1));
        assert(chunks.take(k).last() == chunks[k - 1]);
        let start = (k - 1) * size;
        let group = chunk_at(items, size, k - 1);
        assert(joined(chunks.take(k)) == items.take(start) + group);
        assert(start + size == k * size) by (nonlinear_arith)
            requires
                start == (k - 1) * size,
        ;
        if k - 1 < chunks.len() - 1 {
            assert(joined(chunks.take(k - 1)) == items.take(start));
        }
        if k < chunks.len() {
            lemma_chunk_at(items, size, k);
            assert(k * size < items.len());
            assert(group.len() == size);
            assert(group == items.subrange(start, start + size));
            assert(items.take(start) + group =~= items.take(k * size));
        } else {
            assert(chunks.take(k) =~= chunks);
            if group.len() == size && start + size < items.len() {
                // Then a further group would follow.
                assert(k < (items.len() + size - 1) / (size as int)) by (nonlinear_arith)
                    requires
                        size > 0,
                        k * size < items.len(),
                ;
            }
            assert(start + group.len() == items.len());
            assert(items.take(start) + group =~= items);
        }
    }
}

/// The groups of `items`, one after the other, are `items`.
pub proof fn lemma_joined<T>(items: Seq<T>, size: nat, chunks: Seq<Seq<T>>)
    requires
        size > 0,
        chunks.len() == chunk_count(items.len(), size),
        forall|c: int| 0 <= c < chunks.len() ==> #[trigger] chunks[c] == chunk_at(items, size, c),
    ensures
        joined(chunks) == items,
{
    lemma_joined_prefix(items, size, chunks, chunks.len() as int);
    assert(chunks.take(chunks.len() as int) =~= chunks);
}

/// The groups leave nothing out: item `i` of the whole is item `i % size` of
/// group `i / size`.
pub proof fn lemma_chunk_of<T>(items: Seq<T>, size: nat, i: int)
    requires
        size > 0,
        0 <= i < items.len(),
    ensures
        0 <= i / (size as int) < chunk_count(items.len(), size),
        0 <= i % (size as int) < chunk_at(items, size, i / (size as int)).len(),
        chunk_at(items, size, i / (size as int))[i % (size as int)] == items[i],
        (i / (size as int)) * size + i % (size as int) == i,
{
    let len = items.len() as int;
    let sz = size as int;
    let c = i / sz;
    assert(0 <= c < (len + sz - 1) / sz && c * sz + i % sz == i && 0 <= i % sz < sz && (c + 1)
        * sz == c * sz + sz) by (nonlinear_arith)
        requires
            sz > 0,
            0 <= i < len,
            c == i / sz,
    ;
    lemma_chunk_at(items, size, c);
}

/// An item stands in one group only: places `c * size + j` and
/// `d * size + k` with `j`, `k` below `size` are the same place only if
/// `c == d` and `j == k`.
pub proof fn lemma_chunk_places(size: nat, c: int, j: int, d: int, k: int)
    requires
        size > 0,
        0 <= j < size,
        0 <= k < size,
        c * size + j == d * size + k,
    ensures
        c == d,
        j == k,
{
    let sz = size as int;
    assert(c == d && j == k) by (nonlinear_arith)
        requires
            sz > 0,
            0 <= j < sz,
            0 <= k < sz,
            c * sz + j == d * sz + k,
    ;
}

/// Grouping what a function makes of the items is making it of each group.
pub proof fn lemma_chunk_mapped<A, B>(items: Seq<A>, f: spec_fn(A) -> B, size: nat, c: int)
    requires
        size > 0,
        0 <= c < chunk_count(items.len(), size),
    ensures
        chunk_at(items.map_values(f), size, c) == chunk_at(items, size, c).map_values(f),
{
    lemma_chunk_at(items, size, c);
    lemma_chunk_at(items.map_values(f), size, c);
    let left = chunk_at(items.map_values(f), size, c);
    let right = chunk_at(items, size, c).map_values(f);
    assert(left.len() == right.len());
    assert forall|j: int| 0 <= j < left.len() implies left[j] == right[j] by {
        assert(chunk_at(items, size, c)[j] == items[c * size + j]);
        assert(left[j] == items.map_values(f)[c * size + j]);
    }
    assert(left =~= right);
}

} // verus!
