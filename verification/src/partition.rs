//! What it means for a table of classes to partition the embeddings, and the
//! proof that clustering always yields such a table.

use vstd::prelude::*;
use crate::clustering::{assign, bucket_for, clustered, lemma_bucket_in_range, lemma_clustered_shape};
use crate::similarity::Similarity;

verus! {

/// The number of members of all classes together.
pub open spec fn total_members(table: Seq<Seq<usize>>) -> nat
    decreases table.len(),
{
    if table.len() == 0 {
        0
    } else {
        total_members(table.drop_last()) + table.last().len()
    }
}

/// Whether some class lists the embedding `e`.
pub open spec fn holds(table: Seq<Seq<usize>>, e: nat) -> bool {
    exists|c: int, j: int|
        0 <= c < table.len() && 0 <= j < table[c].len() && #[trigger] table[c][j] == e
}

/// Whether the classes partition the embeddings `0 .. n`: they have `n`
/// members in all, each member is below `n`, each embedding below `n` is
/// listed, and no embedding is listed at two places.
pub open spec fn is_partition(table: Seq<Seq<usize>>, n: nat) -> bool {
    &&& total_members(table) == n
    &&& forall|c: int, j: int|
        0 <= c < table.len() && 0 <= j < table[c].len() ==> #[trigger] table[c][j] < n
    &&& forall|e: nat| e < n ==> holds(table, e)
    &&& forall|c1: int, j1: int, c2: int, j2: int|
        0 <= c1 < table.len() && 0 <= j1 < table[c1].len() && 0 <= c2 < table.len() && 0 <= j2
            < table[c2].len() && #[trigger] table[c1][j1] == #[trigger] table[c2][j2] ==> c1 == c2
            && j1 == j2
}

/// Whether every class lists its members in increasing order.
pub open spec fn rows_ascending(table: Seq<Seq<usize>>) -> bool {
    forall|c: int, i: int, j: int|
        0 <= c < table.len() && 0 <= i < j < table[c].len() ==> #[trigger] table[c][i]
            < #[trigger] table[c][j]
}

/// Empty classes have no members.
proof fn lemma_total_members_of_empty(table: Seq<Seq<usize>>)
    requires
        forall|c: int| 0 <= c < table.len() ==> (#[trigger] table[c]).len() == 0,
    ensures
        total_members(table) == 0,
    decreases table.len(),
{
    if table.len() > 0 {
        lemma_total_members_of_empty(table.drop_last());
    }
}

/// Appending a member to one class adds one to the total.
proof fn lemma_total_members_after_assign(table: Seq<Seq<usize>>, bucket: nat, e: nat)
    requires
        bucket < table.len(),
    ensures
        total_members(assign(table, bucket, e)) == total_members(table) + 1,
    decreases table.len(),
{
    let after = assign(table, bucket, e);
    if bucket == table.len() - 1 {
        assert(after.drop_last() =~= table.drop_last());
    } else {
        lemma_total_members_after_assign(table.drop_last(), bucket, e);
        assert(after.drop_last() =~= assign(table.drop_last(), bucket, e));
    }
}

/// Clustering partitions: after the embeddings `0 .. count` were assigned,
/// each of them is listed exactly once, nothing else is listed, and each
/// class lists its members in the order in which they came.
pub proof fn lemma_clustered_is_partition(
    sims: Seq<Similarity>,
    threshold: Similarity,
    n: nat,
    k: nat,
    count: nat,
)
    requires
        k >= 1,
        count <= usize::MAX,
    ensures
        clustered(sims, threshold, n, k, count).len() == k,
        is_partition(clustered(sims, threshold, n, k, count), count),
        rows_ascending(clustered(sims, threshold, n, k, count)),
    decreases count,
{
    let table = clustered(sims, threshold, n, k, count);
    lemma_clustered_shape(sims, threshold, n, k, count);
    if count == 0 {
        lemma_total_members_of_empty(table);
    } else {
        let e = (count - 1) as nat;
        let before = clustered(sims, threshold, n, k, e);
        let bucket = bucket_for(before, sims, threshold, n, k, e);
        lemma_clustered_is_partition(sims, threshold, n, k, e);
        lemma_bucket_in_range(sims, threshold, n, k, e);
        lemma_total_members_after_assign(before, bucket, e);
        let last = before[bucket as int].len() as int;
        assert(table == assign(before, bucket, e));
        assert forall|c: int, j: int| 0 <= c < table.len() && 0 <= j < table[c].len() implies (
        #[trigger] table[c][j] == if c == bucket && j == last {
            e as usize
        } else {
            before[c][j]
        }) by {}
        assert forall|x: nat| x < count implies holds(table, x) by {
            if x == e {
                assert(table[bucket as int][last] == e);
            } else {
                assert(holds(before, x));
                let (c, j) = choose|c: int, j: int|
                    0 <= c < before.len() && 0 <= j < before[c].len() && #[trigger] before[c][j]
                        == x;
                assert(table[c][j] == x);
            }
        }
    }
}

} // verus!
