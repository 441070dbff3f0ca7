//! Facts about single-bit symbol codes and bitwise unions.
//!
//! Symbols are encoded as distinct powers of two in a 64-bit word, so that a
//! reference mask is a union of codes and a containment test is one bitwise
//! `&`. The lemmas here are the bit-level ground the matching proofs stand on.

use vstd::prelude::*;

verus! {

/// Distinct bit positions give distinct codes.
pub proof fn lemma_shl_injective(i: u64, j: u64)
    by (bit_vector)
    requires
        i < 64,
        j < 64,
        (1u64 << i) == (1u64 << j),
    ensures
        i == j,
{
}

/// A single-bit code is positive.
pub proof fn lemma_single_bit_positive(i: u64)
    by (bit_vector)
    requires
        i < 64,
    ensures
        (1u64 << i) >= 1,
{
}

/// The mask of all positions below `i` excludes position `j` when `j >= i`.
pub proof fn lemma_below_mask_excludes(i: u64, j: u64)
    by (bit_vector)
    requires
        i < 64,
        j < 64,
        j >= i,
    ensures
        (((1u64 << i) - 1) as u64) & (1u64 << j) == 0,
{
}

/// The mask of all positions below `i` contains every position `j < i`.
pub proof fn lemma_below_mask_includes(i: u64, j: u64)
    by (bit_vector)
    requires
        i < 64,
        j < i,
    ensures
        (((1u64 << i) - 1) as u64) & (1u64 << j) == (1u64 << j),
{
}

/// Absorption: a union contains its last contributor.
proof fn lemma_or_absorb(a: u64, b: u64)
    by (bit_vector)
    ensures
        (a | b) & b == b,
{
}

/// Widening a union keeps everything it already contained.
proof fn lemma_or_keeps(a: u64, b: u64, c: u64)
    by (bit_vector)
    requires
        a & c == c,
    ensures
        (a | b) & c == c,
{
}

/// The bitwise union of a sequence of words, folded left to right.
pub open spec fn or_seq(xs: Seq<u64>) -> u64
    decreases xs.len(),
{
    if xs.len() == 0 {
        0
    } else {
        or_seq(xs.drop_last()) | xs.last()
    }
}

/// A union contains each of its contributors.
pub proof fn lemma_or_seq_includes(xs: Seq<u64>, k: int)
    requires
        0 <= k < xs.len(),
    ensures
        or_seq(xs) & xs[k] == xs[k],
    decreases xs.len(),
{
    if k == xs.len() - 1 {
        lemma_or_absorb(or_seq(xs.drop_last()), xs.last());
    } else {
        lemma_or_seq_includes(xs.drop_last(), k);
        assert(xs.drop_last()[k] == xs[k]);
        lemma_or_keeps(or_seq(xs.drop_last()), xs.last(), xs[k]);
    }
}

} // verus!
