//! The rules of the greedy assignment, read off the finished table.
//!
//! Clustering is defined step by step.  The laws here say what the steps
//! amount to: where each embedding sits in the table that comes out, and that
//! the table depends on nothing but the numbers that went in.

use vstd::prelude::*;
use crate::clustering::{
    accepts, assign, best_fit, bucket_for, clustered, lemma_bucket_in_range,
    lemma_clustered_shape, seed_bucket_from, similarity_at,
};
use crate::partition::{holds, is_partition, lemma_clustered_is_partition, rows_ascending};
use crate::similarity::Similarity;

verus! {

/// Whether the member at place `j` of class `c` sits where seeding puts it:
/// every class before `c` had a first member when it came and that member
/// did not accept it, and class `c` was empty or its first member accepted it.
pub open spec fn seeded_by_rule(
    table: Seq<Seq<usize>>,
    sims: Seq<Similarity>,
    threshold: Similarity,
    n: nat,
    c: int,
    j: int,
) -> bool {
    let e = table[c][j] as nat;
    &&& forall|earlier: int|
        0 <= earlier < c ==> (#[trigger] table[earlier]).len() > 0 && table[earlier][0] < e
            && !accepts(sims, threshold, table[earlier][0] as nat, e, n)
    &&& j == 0 || accepts(sims, threshold, table[c][0] as nat, e, n)
}

/// Whether the table is laid out by the rules: the first member of a class
/// is one of the first `k` embeddings, and every member sits where the rules
/// put it, one of the first `k` embeddings where seeding puts it, a later one
/// in the class that fits it best among the classes of the table.
pub open spec fn follows_rules(
    table: Seq<Seq<usize>>,
    sims: Seq<Similarity>,
    threshold: Similarity,
    n: nat,
    k: nat,
) -> bool {
    &&& forall|c: int| 0 <= c < table.len() && (#[trigger] table[c]).len() > 0 ==> table[c][0] < k
    &&& forall|c: int, j: int|
        0 <= c < table.len() && 0 <= j < table[c].len() ==> if (#[trigger] table[c][j]) < k {
            seeded_by_rule(table, sims, threshold, n, c, j)
        } else {
            best_fit(table, sims, table[c][j] as nat, n, k).0 == c
        }
}

/// Whether two tables have the same classes empty and the same first members.
pub open spec fn same_firsts(a: Seq<Seq<usize>>, b: Seq<Seq<usize>>) -> bool {
    &&& a.len() == b.len()
    &&& forall|c: int|
        0 <= c < a.len() ==> ((#[trigger] a[c]).len() > 0 <==> (#[trigger] b[c]).len() > 0)
    &&& forall|c: int| 0 <= c < a.len() && (#[trigger] a[c]).len() > 0 ==> a[c][0] == b[c][0]
}

/// The best fit looks at first members only.
proof fn lemma_best_fit_same_firsts(
    a: Seq<Seq<usize>>,
    b: Seq<Seq<usize>>,
    sims: Seq<Similarity>,
    e: nat,
    n: nat,
    scanned: nat,
)
    requires
        same_firsts(a, b),
    ensures
        best_fit(a, sims, e, n, scanned) == best_fit(b, sims, e, n, scanned),
    decreases scanned,
{
    if scanned > 0 {
        lemma_best_fit_same_firsts(a, b, sims, e, n, (scanned - 1) as nat);
        let c = scanned - 1;
        if c < a.len() {
            assert(a[c].len() > 0 <==> b[c].len() > 0);
        }
    }
}

/// The best fit is class 0 or a class that has members.
proof fn lemma_best_fit_has_members(
    table: Seq<Seq<usize>>,
    sims: Seq<Similarity>,
    e: nat,
    n: nat,
    scanned: nat,
)
    ensures
        ({
            let best = best_fit(table, sims, e, n, scanned).0;
            best == 0 || (best < table.len() && table[best as int].len() > 0)
        }),
    decreases scanned,
{
    if scanned > 0 {
        lemma_best_fit_has_members(table, sims, e, n, (scanned - 1) as nat);
    }
}

/// What a scan for a seed class finds: no class before it is empty or
/// accepts, and the class itself, if there is one, is empty or accepts.
proof fn lemma_seed_bucket_is_first(
    table: Seq<Seq<usize>>,
    sims: Seq<Similarity>,
    threshold: Similarity,
    e: nat,
    n: nat,
    start: nat,
)
    requires
        start <= table.len(),
    ensures
        ({
            let found = seed_bucket_from(table, sims, threshold, e, n, start);
            &&& start <= found <= table.len()
            &&& forall|c: int|
                start <= c < found ==> (#[trigger] table[c]).len() > 0 && !accepts(
                    sims,
                    threshold,
                    table[c][0] as nat,
                    e,
                    n,
                )
            &&& found < table.len() ==> table[found as int].len() == 0 || accepts(
                sims,
                threshold,
                table[found as int][0] as nat,
                e,
                n,
            )
        }),
    decreases table.len() - start,
{
    if start < table.len() && !(table[start as int].len() == 0 || accepts(
        sims,
        threshold,
        table[start as int][0] as nat,
        e,
        n,
    )) {
        lemma_seed_bucket_is_first(table, sims, threshold, e, n, start + 1);
    }
}

/// Once an embedding was assigned, class 0 has members.
proof fn lemma_first_class_has_members(
    sims: Seq<Similarity>,
    threshold: Similarity,
    n: nat,
    k: nat,
    count: nat,
)
    requires
        k >= 1,
        count >= 1,
    ensures
        clustered(sims, threshold, n, k, count).len() == k,
        clustered(sims, threshold, n, k, count)[0].len() > 0,
    decreases count,
{
    let before = clustered(sims, threshold, n, k, (count - 1) as nat);
    lemma_clustered_shape(sims, threshold, n, k, (count - 1) as nat);
    lemma_clustered_shape(sims, threshold, n, k, count);
    lemma_bucket_in_range(sims, threshold, n, k, (count - 1) as nat);
    if count > 1 {
        lemma_first_class_has_members(sims, threshold, n, k, (count - 1) as nat);
    } else {
        assert(before[0].len() == 0);
    }
}

/// Clustering lays the table out by the rules, judged by the table itself.
pub proof fn lemma_clustered_follows_rules(
    sims: Seq<Similarity>,
    threshold: Similarity,
    n: nat,
    k: nat,
    count: nat,
)
    requires
        k >= 1,
        count <= usize::MAX,
    ensures
        follows_rules(clustered(sims, threshold, n, k, count), sims, threshold, n, k),
    decreases count,
{
    let table = clustered(sims, threshold, n, k, count);
    if count > 0 {
        let e = (count - 1) as nat;
        let before = clustered(sims, threshold, n, k, e);
        let bucket = bucket_for(before, sims, threshold, n, k, e);
        lemma_clustered_follows_rules(sims, threshold, n, k, e);
        lemma_clustered_is_partition(sims, threshold, n, k, e);
        lemma_bucket_in_range(sims, threshold, n, k, e);
        let last = before[bucket as int].len() as int;
        if e < k {
            lemma_seed_bucket_is_first(before, sims, threshold, e, n, 0);
        } else {
            lemma_first_class_has_members(sims, threshold, n, k, e);
            lemma_best_fit_has_members(before, sims, e, n, k);
            assert(same_firsts(before, table));
        }
        assert forall|c: int, j: int|
            0 <= c < table.len() && 0 <= j < table[c].len() implies if (#[trigger] table[c][j])
            < k {
            seeded_by_rule(table, sims, threshold, n, c, j)
        } else {
            best_fit(table, sims, table[c][j] as nat, n, k).0 == c
        } by {
            let member = table[c][j] as nat;
            if c == bucket && j == last {
                assert(member == e);
                if e < k {
                    assert forall|earlier: int| 0 <= earlier < c implies (
                    #[trigger] table[earlier]).len() > 0 && table[earlier][0] < e && !accepts(
                        sims,
                        threshold,
                        table[earlier][0] as nat,
                        e,
                        n,
                    ) by {
                        assert(before[earlier].len() > 0);
                        assert(before[earlier][0] < e);
                    }
                } else {
                    lemma_best_fit_same_firsts(before, table, sims, e, n, k);
                }
            } else {
                assert(table[c][j] == before[c][j]);
                assert(member < e);
                if member < k {
                    assert(seeded_by_rule(before, sims, threshold, n, c, j));
                    assert forall|earlier: int| 0 <= earlier < c implies (
                    #[trigger] table[earlier]).len() > 0 && table[earlier][0] < member && !accepts(
                        sims,
                        threshold,
                        table[earlier][0] as nat,
                        member,
                        n,
                    ) by {
                        assert(before[earlier].len() > 0);
                        assert(table[earlier][0] == before[earlier][0]);
                    }
                    assert(table[c][0] == before[c][0]);
                } else {
                    lemma_best_fit_same_firsts(before, table, sims, member, n, k);
                }
            }
        }
    }
}

/// A known similarity and the encoding that took its place are the same
/// number.
proof fn lemma_similarity_at_same_numbers(
    sims: Seq<Similarity>,
    others: Seq<Similarity>,
    first: nat,
    e: nat,
    n: nat,
)
    requires
        sims.len() == others.len(),
        forall|i: int| 0 <= i < sims.len() ==> (#[trigger] sims[i]).same_number(others[i]),
    ensures
        match (similarity_at(sims, first, e, n), similarity_at(others, first, e, n)) {
            (Some(s), Some(o)) => s.same_number(o),
            (None, None) => true,
            _ => false,
        },
{
    let offset = first + e * n;
    if offset < sims.len() {
        assert(sims[offset as int].same_number(others[offset as int]));
    }
}

/// Seeding depends on the numbers alone.
proof fn lemma_seed_bucket_same_numbers(
    table: Seq<Seq<usize>>,
    sims: Seq<Similarity>,
    threshold: Similarity,
    others: Seq<Similarity>,
    other_threshold: Similarity,
    e: nat,
    n: nat,
    start: nat,
)
    requires
        sims.len() == others.len(),
        forall|i: int| 0 <= i < sims.len() ==> (#[trigger] sims[i]).same_number(others[i]),
        threshold.same_number(other_threshold),
    ensures
        seed_bucket_from(table, sims, threshold, e, n, start) == seed_bucket_from(
            table,
            others,
            other_threshold,
            e,
            n,
            start,
        ),
    decreases table.len() - start,
{
    if start < table.len() {
        if table[start as int].len() > 0 {
            lemma_similarity_at_same_numbers(sims, others, table[start as int][0] as nat, e, n);
        }
        lemma_seed_bucket_same_numbers(
            table,
            sims,
            threshold,
            others,
            other_threshold,
            e,
            n,
            start + 1,
        );
    }
}

/// Fitting depends on the numbers alone.
proof fn lemma_best_fit_same_numbers(
    table: Seq<Seq<usize>>,
    sims: Seq<Similarity>,
    others: Seq<Similarity>,
    e: nat,
    n: nat,
    scanned: nat,
)
    requires
        sims.len() == others.len(),
        forall|i: int| 0 <= i < sims.len() ==> (#[trigger] sims[i]).same_number(others[i]),
    ensures
        best_fit(table, sims, e, n, scanned).0 == best_fit(table, others, e, n, scanned).0,
        best_fit(table, sims, e, n, scanned).1.same_number(
            best_fit(table, others, e, n, scanned).1,
        ),
    decreases scanned,
{
    if scanned > 0 {
        lemma_best_fit_same_numbers(table, sims, others, e, n, (scanned - 1) as nat);
        let c = scanned - 1;
        if c < table.len() && table[c].len() > 0 {
            lemma_similarity_at_same_numbers(sims, others, table[c][0] as nat, e, n);
        }
    }
}

/// Clustering is a function of the numbers that go in.  Two runs on the same
/// similarities and the same threshold give the same table, member for
/// member; so do two runs whose similarities and thresholds differ only in
/// how they encode the same numbers, such as the sign of a zero.
pub proof fn lemma_clustering_is_deterministic(
    sims: Seq<Similarity>,
    threshold: Similarity,
    others: Seq<Similarity>,
    other_threshold: Similarity,
    n: nat,
    k: nat,
    count: nat,
)
    requires
        sims.len() == others.len(),
        forall|i: int| 0 <= i < sims.len() ==> (#[trigger] sims[i]).same_number(others[i]),
        threshold.same_number(other_threshold),
    ensures
        clustered(sims, threshold, n, k, count) == clustered(others, other_threshold, n, k, count),
    decreases count,
{
    if count > 0 {
        let e = (count - 1) as nat;
        let before = clustered(sims, threshold, n, k, e);
        lemma_clustering_is_deterministic(sims, threshold, others, other_threshold, n, k, e);
        lemma_seed_bucket_same_numbers(before, sims, threshold, others, other_threshold, e, n, 0);
        lemma_best_fit_same_numbers(before, sims, others, e, n, k);
    }
}

/// How many members of a class are below `m`.
pub open spec fn count_below(row: Seq<usize>, m: nat) -> nat
    decreases row.len(),
{
    if row.len() == 0 {
        0
    } else {
        count_below(row.drop_last(), m) + if row.last() < m {
            1nat
        } else {
            0nat
        }
    }
}

/// The table without the embeddings from `m` on.
pub open spec fn table_below(table: Seq<Seq<usize>>, m: nat) -> Seq<Seq<usize>> {
    Seq::new(table.len(), |c: int| table[c].take(count_below(table[c], m) as int))
}

/// In a class in increasing order, the members below `m` come first.
proof fn lemma_count_below_splits(row: Seq<usize>, m: nat)
    requires
        forall|i: int, j: int| 0 <= i < j < row.len() ==> row[i] < row[j],
    ensures
        count_below(row, m) <= row.len(),
        forall|i: int| 0 <= i < count_below(row, m) ==> row[i] < m,
        forall|i: int| count_below(row, m) <= i < row.len() ==> row[i] >= m,
    decreases row.len(),
{
    if row.len() > 0 {
        let front = row.drop_last();
        lemma_count_below_splits(front, m);
        assert forall|i: int| 0 <= i < count_below(row, m) implies row[i] < m by {
            if i < front.len() {
                assert(front[i] == row[i]);
                if i >= count_below(front, m) {
                    assert(row[i] < row[row.len() - 1]);
                }
            }
        }
        assert forall|i: int| count_below(row, m) <= i < row.len() implies row[i] >= m by {
            if i < front.len() {
                assert(front[i] == row[i]);
            }
        }
    }
}

/// A scan for a seed class finds the class that no class before it
/// forestalls and that is itself empty or accepts.
proof fn lemma_seed_bucket_found(
    table: Seq<Seq<usize>>,
    sims: Seq<Similarity>,
    threshold: Similarity,
    e: nat,
    n: nat,
    start: nat,
    c: nat,
)
    requires
        start <= c < table.len(),
        forall|earlier: int|
            start <= earlier < c ==> (#[trigger] table[earlier]).len() > 0 && !accepts(
                sims,
                threshold,
                table[earlier][0] as nat,
                e,
                n,
            ),
        table[c as int].len() == 0 || accepts(sims, threshold, table[c as int][0] as nat, e, n),
    ensures
        seed_bucket_from(table, sims, threshold, e, n, start) == c,
    decreases c - start,
{
    if start < c {
        assert(table[start as int].len() > 0);
        lemma_seed_bucket_found(table, sims, threshold, e, n, start + 1, c);
    }
}

/// A table of `k` classes that partitions the embeddings, lists them in
/// increasing order and is laid out by the rules has, below every `count`,
/// what clustering has after `count` embeddings.
proof fn lemma_rules_determine_the_beginning(
    table: Seq<Seq<usize>>,
    sims: Seq<Similarity>,
    threshold: Similarity,
    n: nat,
    k: nat,
    count: nat,
)
    requires
        k >= 1,
        count <= n <= usize::MAX,
        table.len() == k,
        is_partition(table, n),
        rows_ascending(table),
        follows_rules(table, sims, threshold, n, k),
    ensures
        table_below(table, count) == clustered(sims, threshold, n, k, count),
    decreases count,
{
    let now = table_below(table, count);
    assert forall|c: int| 0 <= c < table.len() implies count_below(#[trigger] table[c], count)
        <= table[c].len() && (forall|i: int|
        0 <= i < count_below(table[c], count) ==> table[c][i] < count) && (forall|i: int|
        count_below(table[c], count) <= i < table[c].len() ==> table[c][i] >= count) by {
        lemma_count_below_splits(table[c], count);
    }
    if count == 0 {
        assert(now =~~= clustered(sims, threshold, n, k, 0));
    } else {
        let e = (count - 1) as nat;
        let before = table_below(table, e);
        lemma_rules_determine_the_beginning(table, sims, threshold, n, k, e);
        assert forall|c: int| 0 <= c < table.len() implies count_below(#[trigger] table[c], e)
            <= table[c].len() && (forall|i: int|
            0 <= i < count_below(table[c], e) ==> table[c][i] < e) && (forall|i: int|
            count_below(table[c], e) <= i < table[c].len() ==> table[c][i] >= e) by {
            lemma_count_below_splits(table[c], e);
        }
        assert(holds(table, e));
        let (c, j) = choose|c: int, j: int|
            0 <= c < table.len() && 0 <= j < table[c].len() && #[trigger] table[c][j] == e;
        // Where `e` sits, one more member is below `count` than below `e`.
        assert(count_below(table[c], e) == j) by {
            if count_below(table[c], e) < j {
                assert(table[c][count_below(table[c], e) as int] < table[c][j]);
            }
        }
        assert(count_below(table[c], count) == j + 1) by {
            if count_below(table[c], count) > j + 1 {
                assert(table[c][j] < table[c][j + 1]);
            }
        }
        assert forall|other: int| 0 <= other < table.len() && other != c implies count_below(
            #[trigger] table[other],
            count,
        ) == count_below(table[other], e) by {
            let low = count_below(table[other], e) as int;
            let high = count_below(table[other], count) as int;
            if low < high {
                assert(table[other][low] >= e);
                assert(table[other][low] < count);
                assert(table[other][low] == table[c][j]);
            }
            if high < low {
                assert(table[other][high] < e);
            }
        }
        assert(now =~~= assign(before, c as nat, e));
        // The rules send `e` to the class where it sits.
        if e < k {
            assert(seeded_by_rule(table, sims, threshold, n, c, j));
            assert forall|earlier: int| 0 <= earlier < c implies (#[trigger] before[earlier]).len()
                > 0 && !accepts(sims, threshold, before[earlier][0] as nat, e, n) by {
                assert(table[earlier].len() > 0);
                assert(table[earlier][0] < e);
                assert(count_below(table[earlier], e) > 0);
            }
            if j > 0 {
                assert(before[c][0] == table[c][0]);
            }
            lemma_seed_bucket_found(before, sims, threshold, e, n, 0, c as nat);
        } else {
            assert(best_fit(table, sims, e, n, k).0 == c);
            assert forall|other: int| 0 <= other < table.len() implies ((
            #[trigger] before[other]).len() > 0 <==> (#[trigger] table[other]).len() > 0) by {
                if table[other].len() > 0 {
                    assert(table[other][0] < k);
                    assert(count_below(table[other], e) > 0);
                }
            }
            assert(same_firsts(before, table));
            lemma_best_fit_same_firsts(before, table, sims, e, n, k);
        }
    }
}

/// The rules pin the table down: a table of `k` classes that partitions the
/// embeddings `0 .. n`, lists the members of every class in increasing order
/// and is laid out by the rules is the table that clustering yields.
pub proof fn lemma_rules_determine_the_table(
    table: Seq<Seq<usize>>,
    sims: Seq<Similarity>,
    threshold: Similarity,
    n: nat,
    k: nat,
)
    requires
        k >= 1,
        n <= usize::MAX,
        table.len() == k,
        is_partition(table, n),
        rows_ascending(table),
        follows_rules(table, sims, threshold, n, k),
    ensures
        table == clustered(sims, threshold, n, k, n),
{
    lemma_rules_determine_the_beginning(table, sims, threshold, n, k, n);
    assert forall|c: int| 0 <= c < table.len() implies count_below(#[trigger] table[c], n)
        == table[c].len() by {
        lemma_count_below_splits(table[c], n);
        if count_below(table[c], n) < table[c].len() {
            assert(table[c][count_below(table[c], n) as int] < n);
        }
    }
    assert(table_below(table, n) =~~= table);
}

} // verus!
