//! The similarity threshold.
//!
//! The threshold is the mean of two numbers: the average of the largest
//! similarity of each chunk of the matrix, and the smallest of those largest
//! similarities.  This module finds the largest similarity of each chunk and
//! the smallest among them; taking the mean is arithmetic on the scores and
//! is the caller's.

use vstd::prelude::*;
use crate::similarity::{Similarity, INFINITY_BITS, NEG_INFINITY_BITS};

verus! {

/// The largest score of a chunk, starting from negative infinity.
pub open spec fn chunk_max(chunk: Seq<Similarity>) -> Similarity
    decreases chunk.len(),
{
    if chunk.len() == 0 {
        Similarity { bits: NEG_INFINITY_BITS }
    } else {
        chunk_max(chunk.drop_last()).spec_max(chunk.last())
    }
}

/// The smallest of some scores, starting from positive infinity.
pub open spec fn least(values: Seq<Similarity>) -> Similarity
    decreases values.len(),
{
    if values.len() == 0 {
        Similarity { bits: INFINITY_BITS }
    } else {
        least(values.drop_last()).spec_min(values.last())
    }
}

/// Chunk `i` of the matrix cut into `k` chunks of equal length; what is left
/// over after the last chunk belongs to none.
pub open spec fn chunk(sims: Seq<Similarity>, k: nat, i: nat) -> Seq<Similarity> {
    let size = sims.len() / k;
    sims.subrange((i * size) as int, ((i + 1) * size) as int)
}

/// The largest score of each of the `k` chunks.
pub open spec fn chunk_maxima(sims: Seq<Similarity>, k: nat) -> Seq<Similarity> {
    Seq::new(k, |i: int| chunk_max(chunk(sims, k, i as nat)))
}

/// The chunks lie inside the matrix.
proof fn lemma_chunk_in_bounds(len: nat, k: nat, i: nat)
    requires
        k >= 1,
        i < k,
    ensures
        0 <= i * (len / k) <= (i + 1) * (len / k) <= len,
        (i + 1) * (len / k) == i * (len / k) + len / k,
{
    let size = len / k;
    assert(0 <= i * size <= (i + 1) * size <= k * size && (i + 1) * size == i * size + size)
        by (nonlinear_arith)
        requires
            i < k,
            size >= 0,
    ;
    assert(k * (len / k) <= len) by (nonlinear_arith)
        requires
            k >= 1,
    ;
}

/// Finds the largest similarity within each of `class_count` chunks of the
/// flattened matrix.
pub fn max_within_clusters(similarities: &[Similarity], class_count: usize) -> (maxima: Vec<
    Similarity,
>)
    requires
        class_count >= 1,
    ensures
        maxima@ == chunk_maxima(similarities@, class_count as nat),
{
    let ghost sims = similarities@;
    let ghost k = class_count as nat;
    let len: usize = similarities.len();
    let size: usize = len / class_count;
    let mut maxima: Vec<Similarity> = Vec::new();
    let mut i: usize = 0;
    while i < class_count
        invariant
            i <= class_count,
            class_count >= 1,
            sims == similarities@,
            k == class_count,
            len == sims.len(),
            size == len / class_count,
            maxima.len() == i,
            forall|c: int| 0 <= c < i ==> maxima[c] == chunk_max(chunk(sims, k, c as nat)),
        decreases class_count - i,
    {
        proof {
            lemma_chunk_in_bounds(sims.len(), k, i as nat);
        }
        let start: usize = i * size;
        let end: usize = start + size;
        let mut max = Similarity::from_bits(NEG_INFINITY_BITS);
        let mut j: usize = start;
        while j < end
            invariant
                start <= j <= end <= len,
                len == sims.len(),
                sims == similarities@,
                max == chunk_max(sims.subrange(start as int, j as int)),
            decreases end - j,
        {
            assert(sims.subrange(start as int, j + 1).drop_last() =~= sims.subrange(
                start as int,
                j as int,
            ));
            max = max.max(similarities[j]);
            j += 1;
        }
        maxima.push(max);
        i += 1;
    }
    assert(maxima@ =~= chunk_maxima(sims, k));
    maxima
}

/// Finds the smallest of the largest similarities.
pub fn min_between_clusters(max_within_clusters: &[Similarity]) -> (min: Similarity)
    ensures
        min == least(max_within_clusters@),
{
    let mut min = Similarity::from_bits(INFINITY_BITS);
    let mut i: usize = 0;
    while i < max_within_clusters.len()
        invariant
            i <= max_within_clusters.len(),
            min == least(max_within_clusters@.take(i as int)),
        decreases max_within_clusters.len() - i,
    {
        assert(max_within_clusters@.take(i + 1).drop_last() =~= max_within_clusters@.take(
            i as int,
        ));
        min = min.min(max_within_clusters[i]);
        i += 1;
    }
    assert(max_within_clusters@.take(i as int) =~= max_within_clusters@);
    min
}

/// Whether `threshold` is what `mean_with_minimum` may answer for the terms
/// of the matrix cut into `k` chunks: the largest similarity of each chunk,
/// and the smallest of those.
pub open spec fn is_threshold<F: Fn(&Vec<Similarity>, Similarity) -> Similarity>(
    mean_with_minimum: F,
    sims: Seq<Similarity>,
    k: nat,
    threshold: Similarity,
) -> bool {
    exists|maxima: &Vec<Similarity>|
        maxima@ == chunk_maxima(sims, k) && #[trigger] call_ensures(
            mean_with_minimum,
            (maxima, least(chunk_maxima(sims, k))),
            threshold,
        )
}

/// Calculates the similarity threshold for comparing image embeddings.
///
/// Finds the largest similarity within each of `class_count` chunks and the
/// smallest of them, and hands both to `mean_with_minimum`, which is to
/// answer the mean of two numbers: the average of the first, and the second.
pub fn calc_similarity_threshold<F: Fn(&Vec<Similarity>, Similarity) -> Similarity>(
    similarities: &[Similarity],
    class_count: usize,
    mean_with_minimum: F,
) -> (threshold: Similarity)
    requires
        class_count >= 1,
        forall|maxima: &Vec<Similarity>|
            maxima@ == chunk_maxima(similarities@, class_count as nat) ==> call_requires(
                mean_with_minimum,
                (maxima, least(maxima@)),
            ),
    ensures
        is_threshold(mean_with_minimum, similarities@, class_count as nat, threshold),
{
    let max_within_clusters = max_within_clusters(similarities, class_count);
    let min_between_clusters = min_between_clusters(max_within_clusters.as_slice());
    mean_with_minimum(&max_within_clusters, min_between_clusters)
}

/// The largest score of a chunk is a number, is below no score of the chunk,
/// and is negative infinity or one of the chunk's scores.
pub proof fn lemma_chunk_max_is_largest(chunk: Seq<Similarity>)
    ensures
        !chunk_max(chunk).spec_is_nan(),
        forall|i: int| 0 <= i < chunk.len() ==> !chunk_max(chunk).spec_lt(#[trigger] chunk[i]),
        chunk_max(chunk).bits == NEG_INFINITY_BITS || exists|i: int|
            0 <= i < chunk.len() && #[trigger] chunk[i] == chunk_max(chunk),
    decreases chunk.len(),
{
    if chunk.len() > 0 {
        let front = chunk.drop_last();
        lemma_chunk_max_is_largest(front);
        assert forall|i: int| 0 <= i < chunk.len() implies !chunk_max(chunk).spec_lt(
            #[trigger] chunk[i],
        ) by {
            if i < front.len() {
                assert(front[i] == chunk[i]);
            }
        }
        if chunk_max(chunk) == chunk.last() {
            assert(chunk[chunk.len() - 1] == chunk_max(chunk));
        } else if chunk_max(front).bits != NEG_INFINITY_BITS {
            let i = choose|i: int| 0 <= i < front.len() && #[trigger] front[i] == chunk_max(front);
            assert(chunk[i] == chunk_max(chunk));
        }
    }
}

/// The smallest of some scores is a number, is above none of them, and is
/// positive infinity or one of them.
pub proof fn lemma_least_is_smallest(values: Seq<Similarity>)
    ensures
        !least(values).spec_is_nan(),
        forall|i: int| 0 <= i < values.len() ==> !(#[trigger] values[i]).spec_lt(least(values)),
        least(values).bits == INFINITY_BITS || exists|i: int|
            0 <= i < values.len() && #[trigger] values[i] == least(values),
    decreases values.len(),
{
    if values.len() > 0 {
        let front = values.drop_last();
        lemma_least_is_smallest(front);
        assert forall|i: int| 0 <= i < values.len() implies !(#[trigger] values[i]).spec_lt(
            least(values),
        ) by {
            if i < front.len() {
                assert(front[i] == values[i]);
            }
        }
        if least(values) == values.last() {
            assert(values[values.len() - 1] == least(values));
        } else if least(front).bits != INFINITY_BITS {
            let i = choose|i: int| 0 <= i < front.len() && #[trigger] front[i] == least(front);
            assert(values[i] == least(values));
        }
    }
}

/// Where every similarity lies between minus one and one and no chunk is
/// empty, so does the largest similarity of every chunk, and so does the
/// smallest of those.
pub proof fn lemma_threshold_terms_in_unit_range(sims: Seq<Similarity>, k: nat)
    requires
        1 <= k <= sims.len(),
        forall|i: int| 0 <= i < sims.len() ==> (#[trigger] sims[i]).in_unit_range(),
    ensures
        forall|c: int|
            0 <= c < k ==> (#[trigger] chunk_maxima(sims, k)[c]).in_unit_range(),
        least(chunk_maxima(sims, k)).in_unit_range(),
{
    let maxima = chunk_maxima(sims, k);
    let size = sims.len() / k;
    assert(size >= 1) by (nonlinear_arith)
        requires
            size == sims.len() / k,
            1 <= k <= sims.len(),
    ;
    assert forall|c: int| 0 <= c < k implies (#[trigger] maxima[c]).in_unit_range() by {
        let part = chunk(sims, k, c as nat);
        lemma_chunk_in_bounds(sims.len(), k, c as nat);
        lemma_chunk_max_is_largest(part);
        assert(part[0].in_unit_range());
        if chunk_max(part).bits != NEG_INFINITY_BITS {
            let i = choose|i: int| 0 <= i < part.len() && #[trigger] part[i] == chunk_max(part);
            assert(part[i] == sims[c * size + i]);
        }
    }
    lemma_least_is_smallest(maxima);
    assert(maxima[0].in_unit_range());
    if least(maxima).bits != INFINITY_BITS {
        let c = choose|c: int| 0 <= c < maxima.len() && #[trigger] maxima[c] == least(maxima);
        assert(maxima[c].in_unit_range());
    }
}

} // verus!
