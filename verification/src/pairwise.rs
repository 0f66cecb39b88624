//! The matrix of pairwise similarities.
//!
//! How similar two embeddings are is worked out by the caller.  This module
//! asks for every ordered pair, a pair with itself included, and lays the
//! answers out row by row.

use vstd::prelude::*;
use crate::similarity::Similarity;

verus! {

/// The entry for the pair `(i, j)` in a matrix of `n` rows flattened row by
/// row.
pub open spec fn entry(matrix: Seq<Similarity>, n: nat, i: int, j: int) -> Similarity {
    matrix[i * n + j]
}

/// Whether `matrix` holds, for every ordered pair of the embeddings
/// `0 .. n`, an answer of `cosine_similarity` for that pair, row by row.
pub open spec fn is_pairwise_matrix<F: Fn(usize, usize) -> Similarity>(
    cosine_similarity: F,
    n: nat,
    matrix: Seq<Similarity>,
) -> bool {
    &&& matrix.len() == n * n
    &&& forall|i: int, j: int|
        0 <= i < n && 0 <= j < n ==> call_ensures(
            cosine_similarity,
            (i as usize, j as usize),
            #[trigger] entry(matrix, n, i, j),
        )
}

/// Whether a matrix of `n` rows is its own mirror image.
pub open spec fn is_symmetric(matrix: Seq<Similarity>, n: nat) -> bool {
    forall|i: int, j: int|
        0 <= i < n && 0 <= j < n ==> #[trigger] entry(matrix, n, i, j) == entry(matrix, n, j, i)
}

/// Calculates the pairwise similarities between the embeddings
/// `0 .. embedding_count`.  `cosine_similarity` is asked once for every
/// ordered pair, row by row; no pair is left out.
pub fn calc_pairwise_cosine_similarities<F: Fn(usize, usize) -> Similarity>(
    embedding_count: usize,
    cosine_similarity: F,
) -> (similarities: Vec<Similarity>)
    requires
        forall|i: usize, j: usize|
            i < embedding_count && j < embedding_count ==> call_requires(cosine_similarity, (i, j)),
    ensures
        is_pairwise_matrix(cosine_similarity, embedding_count as nat, similarities@),
{
    let ghost n = embedding_count as nat;
    let mut similarities: Vec<Similarity> = Vec::new();
    let mut i: usize = 0;
    while i < embedding_count
        invariant
            i <= embedding_count,
            n == embedding_count,
            similarities.len() == i * n,
            forall|a: usize, b: usize|
                a < embedding_count && b < embedding_count ==> call_requires(
                    cosine_similarity,
                    (a, b),
                ),
            forall|a: int, b: int|
                0 <= a < i && 0 <= b < n ==> call_ensures(
                    cosine_similarity,
                    (a as usize, b as usize),
                    #[trigger] entry(similarities@, n, a, b),
                ),
        decreases embedding_count - i,
    {
        let ghost rows = similarities@;
        let mut j: usize = 0;
        while j < embedding_count
            invariant
                i < embedding_count,
                j <= embedding_count,
                n == embedding_count,
                rows.len() == i * n,
                similarities.len() == i * n + j,
                similarities@.take(i * n) == rows,
                forall|a: usize, b: usize|
                    a < embedding_count && b < embedding_count ==> call_requires(
                        cosine_similarity,
                        (a, b),
                    ),
                forall|b: int|
                    0 <= b < j ==> call_ensures(
                        cosine_similarity,
                        (i, b as usize),
                        #[trigger] entry(similarities@, n, i as int, b),
                    ),
            decreases embedding_count - j,
        {
            let similarity = cosine_similarity(i, j);
            let ghost before = similarities@;
            similarities.push(similarity);
            assert(similarities@.take(i * n) =~= before.take(i * n));
            assert forall|b: int| 0 <= b < j + 1 implies call_ensures(
                cosine_similarity,
                (i, b as usize),
                #[trigger] entry(similarities@, n, i as int, b),
            ) by {
                if b < j {
                    assert(entry(similarities@, n, i as int, b) == entry(before, n, i as int, b));
                }
            }
            j += 1;
        }
        assert((i + 1) * n == i * n + n) by (nonlinear_arith);
        assert forall|a: int, b: int| 0 <= a < i + 1 && 0 <= b < n implies call_ensures(
            cosine_similarity,
            (a as usize, b as usize),
            #[trigger] entry(similarities@, n, a, b),
        ) by {
            if a < i {
                assert(a * n + b < i * n) by (nonlinear_arith)
                    requires
                        0 <= a < i,
                        0 <= b < n,
                ;
                assert(entry(similarities@, n, a, b) == rows[a * n + b]);
                assert(entry(rows, n, a, b) == rows[a * n + b]);
            }
        }
        i += 1;
    }
    similarities
}

/// The matrix is symmetric as soon as the similarity asked for is: where a
/// pair and its mirror image can only be answered alike, the entry for
/// `(i, j)` equals the entry for `(j, i)`.
pub proof fn lemma_pairwise_matrix_is_symmetric<F: Fn(usize, usize) -> Similarity>(
    cosine_similarity: F,
    n: nat,
    matrix: Seq<Similarity>,
)
    requires
        is_pairwise_matrix(cosine_similarity, n, matrix),
        forall|i: usize, j: usize, forth: Similarity, back: Similarity|
            i < n && j < n && #[trigger] call_ensures(cosine_similarity, (i, j), forth)
                && #[trigger] call_ensures(cosine_similarity, (j, i), back) ==> forth == back,
    ensures
        is_symmetric(matrix, n),
{
    assert forall|i: int, j: int| 0 <= i < n && 0 <= j < n implies #[trigger] entry(
        matrix,
        n,
        i,
        j,
    ) == entry(matrix, n, j, i) by {
        assert(call_ensures(cosine_similarity, (i as usize, j as usize), entry(matrix, n, i, j)));
        assert(call_ensures(cosine_similarity, (j as usize, i as usize), entry(matrix, n, j, i)));
    }
}

} // verus!
