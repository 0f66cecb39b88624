//! Greedy assignment of embeddings to classes.
//!
//! The embeddings are known only through the matrix of their pairwise
//! similarities, flattened row by row.  The first indices seed the classes,
//! the others join the class whose first member they resemble most.

use vstd::prelude::*;
use crate::partition::{is_partition, lemma_clustered_is_partition, rows_ascending};
use crate::rules::{follows_rules, lemma_clustered_follows_rules};
use crate::similarity::{Similarity, MINUS_ONE_BITS};

verus! {

/// One row per class; a row lists the indices of its members.
pub type Table<T> = Vec<Vec<T>>;

/// The similarity between embedding `e` and the first member `first` of a
/// class, read at `first + e * n`; `None` where the matrix has no such entry.
pub open spec fn similarity_at(sims: Seq<Similarity>, first: nat, e: nat, n: nat) -> Option<
    Similarity,
> {
    let offset = first + e * n;
    if offset < sims.len() {
        Some(sims[offset as int])
    } else {
        None
    }
}

/// Whether a class whose first member is `first` takes embedding `e` while
/// seeding: the similarity is known and not below the threshold.
pub open spec fn accepts(
    sims: Seq<Similarity>,
    threshold: Similarity,
    first: nat,
    e: nat,
    n: nat,
) -> bool {
    match similarity_at(sims, first, e, n) {
        Some(s) => !s.spec_lt(threshold),
        None => false,
    }
}

/// The first class at or after `start` that is empty or accepts `e`; the
/// number of classes if there is none.
pub open spec fn seed_bucket_from(
    table: Seq<Seq<usize>>,
    sims: Seq<Similarity>,
    threshold: Similarity,
    e: nat,
    n: nat,
    start: nat,
) -> nat
    decreases table.len() - start,
{
    if start >= table.len() {
        table.len()
    } else if table[start as int].len() == 0 || accepts(
        sims,
        threshold,
        table[start as int][0] as nat,
        e,
        n,
    ) {
        start
    } else {
        seed_bucket_from(table, sims, threshold, e, n, start + 1)
    }
}

/// The best class for `e` among the first `scanned` ones, with its
/// similarity.  A class competes when it has a first member and the
/// similarity to it is known; it wins when that similarity is larger than the
/// best so far, which starts as class 0 at minus one.
pub open spec fn best_fit(
    table: Seq<Seq<usize>>,
    sims: Seq<Similarity>,
    e: nat,
    n: nat,
    scanned: nat,
) -> (nat, Similarity)
    decreases scanned,
{
    if scanned == 0 {
        (0, Similarity { bits: MINUS_ONE_BITS })
    } else {
        let best = best_fit(table, sims, e, n, (scanned - 1) as nat);
        let c = scanned - 1;
        if c < table.len() && table[c].len() > 0 {
            match similarity_at(sims, table[c][0] as nat, e, n) {
                Some(s) => if s.spec_gt(best.1) {
                    (c as nat, s)
                } else {
                    best
                },
                None => best,
            }
        } else {
            best
        }
    }
}

/// The table with `e` appended to class `bucket`.
pub open spec fn assign(table: Seq<Seq<usize>>, bucket: nat, e: nat) -> Seq<Seq<usize>> {
    if bucket < table.len() {
        table.update(bucket as int, table[bucket as int].push(e as usize))
    } else {
        table
    }
}

/// The class that embedding `e` joins, given the table of the embeddings
/// before it.  One of the first `k` embeddings seeds; a later one is fitted.
pub open spec fn bucket_for(
    table: Seq<Seq<usize>>,
    sims: Seq<Similarity>,
    threshold: Similarity,
    n: nat,
    k: nat,
    e: nat,
) -> nat {
    if e < k {
        seed_bucket_from(table, sims, threshold, e, n, 0)
    } else {
        best_fit(table, sims, e, n, k).0
    }
}

/// The table of `k` classes after the embeddings `0 .. count` were assigned,
/// in that order.
pub open spec fn clustered(
    sims: Seq<Similarity>,
    threshold: Similarity,
    n: nat,
    k: nat,
    count: nat,
) -> Seq<Seq<usize>>
    decreases count,
{
    if count == 0 {
        Seq::new(k, |c: int| Seq::<usize>::empty())
    } else {
        let before = clustered(sims, threshold, n, k, (count - 1) as nat);
        let e = (count - 1) as nat;
        assign(before, bucket_for(before, sims, threshold, n, k, e), e)
    }
}

/// Reads the similarity between embedding `e` and a class's first member.
pub fn similarity_lookup(similarities: &[Similarity], first: usize, e: usize, n: usize) -> (r:
    Option<Similarity>)
    ensures
        r == similarity_at(similarities@, first as nat, e as nat, n as nat),
{
    let len: usize = similarities.len();
    let row: usize = match e.checked_mul(n) {
        Some(row) => row,
        None => { return None; },
    };
    let offset: usize = match row.checked_add(first) {
        Some(offset) => offset,
        None => { return None; },
    };
    if offset < len {
        Some(similarities[offset])
    } else {
        None
    }
}

/// Scans the classes in order for the first that is empty or accepts `e`.
pub fn seed_bucket(
    table: &Table<usize>,
    similarities: &[Similarity],
    threshold: Similarity,
    e: usize,
    n: usize,
) -> (bucket: usize)
    ensures
        bucket == seed_bucket_from(
            table.deep_view(),
            similarities@,
            threshold,
            e as nat,
            n as nat,
            0,
        ),
{
    let ghost rows = table.deep_view();
    let mut c: usize = 0;
    while c < table.len()
        invariant
            c <= table.len(),
            rows == table.deep_view(),
            seed_bucket_from(rows, similarities@, threshold, e as nat, n as nat, 0)
                == seed_bucket_from(rows, similarities@, threshold, e as nat, n as nat, c as nat),
        decreases table.len() - c,
    {
        if table[c].len() == 0 {
            return c;
        }
        let first: usize = table[c][0];
        match similarity_lookup(similarities, first, e, n) {
            Some(s) => {
                if !s.lt(threshold) {
                    return c;
                }
            },
            None => {},
        }
        c += 1;
    }
    c
}

/// Scans every class for the one whose first member is most similar to `e`.
pub fn best_bucket(table: &Table<usize>, similarities: &[Similarity], e: usize, n: usize) -> (bucket:
    usize)
    ensures
        bucket == best_fit(
            table.deep_view(),
            similarities@,
            e as nat,
            n as nat,
            table.len() as nat,
        ).0,
{
    let ghost rows = table.deep_view();
    let mut best: usize = 0;
    let mut best_similarity = Similarity::from_bits(MINUS_ONE_BITS);
    let mut c: usize = 0;
    while c < table.len()
        invariant
            c <= table.len(),
            rows == table.deep_view(),
            (best as nat, best_similarity) == best_fit(
                rows,
                similarities@,
                e as nat,
                n as nat,
                c as nat,
            ),
        decreases table.len() - c,
    {
        if table[c].len() > 0 {
            let first: usize = table[c][0];
            match similarity_lookup(similarities, first, e, n) {
                Some(s) => {
                    if s.gt(best_similarity) {
                        best = c;
                        best_similarity = s;
                    }
                },
                None => {},
            }
        }
        c += 1;
    }
    best
}

/// A scan for a seed class ends at or before the first empty class.
pub proof fn lemma_seed_bucket_bound(
    table: Seq<Seq<usize>>,
    sims: Seq<Similarity>,
    threshold: Similarity,
    e: nat,
    n: nat,
    start: nat,
    empty: nat,
)
    requires
        start <= empty < table.len(),
        table[empty as int].len() == 0,
    ensures
        start <= seed_bucket_from(table, sims, threshold, e, n, start) <= empty,
    decreases table.len() - start,
{
    if start < empty && !(table[start as int].len() == 0 || accepts(
        sims,
        threshold,
        table[start as int][0] as nat,
        e,
        n,
    )) {
        lemma_seed_bucket_bound(table, sims, threshold, e, n, start + 1, empty);
    }
}

/// The best fit is class 0 or one of the classes scanned.
pub proof fn lemma_best_fit_bound(
    table: Seq<Seq<usize>>,
    sims: Seq<Similarity>,
    e: nat,
    n: nat,
    scanned: nat,
)
    ensures
        best_fit(table, sims, e, n, scanned).0 == 0 || best_fit(table, sims, e, n, scanned).0
            < scanned,
    decreases scanned,
{
    if scanned > 0 {
        lemma_best_fit_bound(table, sims, e, n, (scanned - 1) as nat);
    }
}

/// The table always has `k` classes, and while seeding the classes from
/// `count` on are still empty.
pub proof fn lemma_clustered_shape(
    sims: Seq<Similarity>,
    threshold: Similarity,
    n: nat,
    k: nat,
    count: nat,
)
    ensures
        clustered(sims, threshold, n, k, count).len() == k,
        count <= k ==> forall|c: int|
            count <= c < k ==> (#[trigger] clustered(sims, threshold, n, k, count)[c]).len() == 0,
    decreases count,
{
    if count > 0 {
        let before = clustered(sims, threshold, n, k, (count - 1) as nat);
        let e = (count - 1) as nat;
        lemma_clustered_shape(sims, threshold, n, k, e);
        if count <= k {
            lemma_seed_bucket_bound(before, sims, threshold, e, n, 0, e);
        }
    }
}

/// Every embedding is given one of the `k` classes.
pub proof fn lemma_bucket_in_range(
    sims: Seq<Similarity>,
    threshold: Similarity,
    n: nat,
    k: nat,
    e: nat,
)
    requires
        k >= 1,
    ensures
        bucket_for(clustered(sims, threshold, n, k, e), sims, threshold, n, k, e) < k,
{
    let before = clustered(sims, threshold, n, k, e);
    lemma_clustered_shape(sims, threshold, n, k, e);
    if e < k {
        lemma_seed_bucket_bound(before, sims, threshold, e, n, 0, e);
    } else {
        lemma_best_fit_bound(before, sims, e, n, k);
    }
}

/// Sorts the embeddings `0 .. embedding_count` into `class_count` classes.
///
/// The first `class_count` embeddings seed: each joins the first class that
/// is empty or whose first member it resembles no less than the threshold
/// asks.  Seeding ends after `class_count` embeddings, not when every class
/// has a member, so classes may stay empty.  Every later embedding joins the
/// class whose first member it resembles most, the first such class on a
/// tie, and class 0 if no similarity is above minus one; a class that
/// seeding left empty stays empty.
///
/// A class is judged by its first member alone, however many have joined
/// it.  A similarity that the matrix does not hold counts as unknown: it
/// neither reaches the threshold nor wins a comparison.  One that is not a
/// number is not below the threshold, and never wins a comparison.
pub fn cluster_embeddings(
    similarities: &[Similarity],
    similarity_threshold: Similarity,
    embedding_count: usize,
    class_count: usize,
) -> (table: Table<usize>)
    requires
        class_count >= 1,
    ensures
        table.deep_view() == clustered(
            similarities@,
            similarity_threshold,
            embedding_count as nat,
            class_count as nat,
            embedding_count as nat,
        ),
        table.len() == class_count,
        is_partition(table.deep_view(), embedding_count as nat),
        rows_ascending(table.deep_view()),
        follows_rules(
            table.deep_view(),
            similarities@,
            similarity_threshold,
            embedding_count as nat,
            class_count as nat,
        ),
{
    let ghost sims = similarities@;
    let ghost n = embedding_count as nat;
    let ghost k = class_count as nat;
    let mut clusters: Table<usize> = Vec::new();
    while clusters.len() < class_count
        invariant
            clusters.len() <= class_count,
            forall|c: int| 0 <= c < clusters.len() ==> (#[trigger] clusters[c])@.len() == 0,
        decreases class_count - clusters.len(),
    {
        clusters.push(Vec::new());
    }
    assert(clusters.deep_view() =~~= clustered(sims, similarity_threshold, n, k, 0));

    let mut assigned: usize = 0;
    let mut e: usize = 0;
    while e < embedding_count && assigned < class_count
        invariant
            e == assigned,
            e <= embedding_count,
            e <= class_count,
            sims == similarities@,
            n == embedding_count,
            k == class_count,
            clusters.deep_view() == clustered(sims, similarity_threshold, n, k, e as nat),
        decreases embedding_count - e,
    {
        let bucket = seed_bucket(&clusters, similarities, similarity_threshold, e, embedding_count);
        proof {
            let before = clustered(sims, similarity_threshold, n, k, e as nat);
            lemma_clustered_shape(sims, similarity_threshold, n, k, e as nat);
            lemma_seed_bucket_bound(before, sims, similarity_threshold, e as nat, n, 0, e as nat);
        }
        let ghost before = clusters.deep_view();
        clusters[bucket].push(e);
        assert(clusters.deep_view() =~~= assign(before, bucket as nat, e as nat));
        assigned += 1;
        e += 1;
    }
    while e < embedding_count
        invariant
            e <= embedding_count,
            e >= class_count || e == embedding_count,
            class_count >= 1,
            sims == similarities@,
            n == embedding_count,
            k == class_count,
            clusters.deep_view() == clustered(sims, similarity_threshold, n, k, e as nat),
        decreases embedding_count - e,
    {
        proof {
            lemma_clustered_shape(sims, similarity_threshold, n, k, e as nat);
        }
        let bucket = best_bucket(&clusters, similarities, e, embedding_count);
        proof {
            lemma_best_fit_bound(clusters.deep_view(), sims, e as nat, n, k);
        }
        let ghost before = clusters.deep_view();
        clusters[bucket].push(e);
        assert(clusters.deep_view() =~~= assign(before, bucket as nat, e as nat));
        e += 1;
    }
    proof {
        lemma_clustered_is_partition(sims, similarity_threshold, n, k, n);
        lemma_clustered_follows_rules(sims, similarity_threshold, n, k, n);
    }
    clusters
}

} // verus!
