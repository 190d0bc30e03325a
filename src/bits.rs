//! Sixty-four-square bitsets: the predicate that reads one square of a set,
//! and the facts about `&`, `|`, `^` and `!` that the board proofs rest on.
use vstd::prelude::*;

verus! {

/// Square `i` belongs to the bitset `b`.
pub open spec fn has_bit(b: u64, i: int) -> bool {
    0 <= i < 64 && (b >> (i as u64)) & 1u64 == 1u64
}

/// The bitset that holds square `i` alone.
pub open spec fn bit(i: int) -> u64 {
    1u64 << (i as u64)
}

proof fn bv_single(i: u64, j: u64)
    requires
        i < 64,
        j < 64,
    ensures
        ((1u64 << i) >> j) & 1u64 == 1u64 <==> i == j,
{
    assert(((1u64 << i) >> j) & 1u64 == 1u64 <==> i == j) by (bit_vector)
        requires
            i < 64,
            j < 64,
    ;
}

proof fn bv_or(a: u64, b: u64, j: u64)
    requires
        j < 64,
    ensures
        ((a | b) >> j) & 1u64 == 1u64 <==> ((a >> j) & 1u64 == 1u64 || (b >> j) & 1u64 == 1u64),
{
    assert(((a | b) >> j) & 1u64 == 1u64 <==> ((a >> j) & 1u64 == 1u64 || (b >> j) & 1u64
        == 1u64)) by (bit_vector)
        requires
            j < 64,
    ;
}

proof fn bv_and(a: u64, b: u64, j: u64)
    requires
        j < 64,
    ensures
        ((a & b) >> j) & 1u64 == 1u64 <==> ((a >> j) & 1u64 == 1u64 && (b >> j) & 1u64 == 1u64),
{
    assert(((a & b) >> j) & 1u64 == 1u64 <==> ((a >> j) & 1u64 == 1u64 && (b >> j) & 1u64
        == 1u64)) by (bit_vector)
        requires
            j < 64,
    ;
}

proof fn bv_xor(a: u64, b: u64, j: u64)
    requires
        j < 64,
    ensures
        ((a ^ b) >> j) & 1u64 == 1u64 <==> ((a >> j) & 1u64 == 1u64 != ((b >> j) & 1u64
            == 1u64)),
{
    assert(((a ^ b) >> j) & 1u64 == 1u64 <==> ((a >> j) & 1u64 == 1u64 != ((b >> j) & 1u64
        == 1u64))) by (bit_vector)
        requires
            j < 64,
    ;
}

proof fn bv_not(a: u64, j: u64)
    requires
        j < 64,
    ensures
        ((!a) >> j) & 1u64 == 1u64 <==> !((a >> j) & 1u64 == 1u64),
{
    assert(((!a) >> j) & 1u64 == 1u64 <==> !((a >> j) & 1u64 == 1u64)) by (bit_vector)
        requires
            j < 64,
    ;
}

proof fn bv_zero(j: u64)
    requires
        j < 64,
    ensures
        !((0u64 >> j) & 1u64 == 1u64),
{
    assert(!((0u64 >> j) & 1u64 == 1u64)) by (bit_vector);
}

proof fn bv_mask(a: u64, j: u64)
    requires
        j < 64,
    ensures
        (a & (1u64 << j)) != 0 <==> (a >> j) & 1u64 == 1u64,
{
    assert((a & (1u64 << j)) != 0 <==> (a >> j) & 1u64 == 1u64) by (bit_vector)
        requires
            j < 64,
    ;
}

/// A one-square set holds exactly that square.
pub broadcast proof fn lemma_bit_single(i: int, j: int)
    requires
        0 <= i < 64,
    ensures
        #[trigger] has_bit(bit(i), j) <==> i == j,
{
    if 0 <= j < 64 {
        bv_single(i as u64, j as u64);
    }
}

pub broadcast proof fn lemma_bit_or(a: u64, b: u64, i: int)
    ensures
        #[trigger] has_bit(a | b, i) <==> has_bit(a, i) || has_bit(b, i),
{
    if 0 <= i < 64 {
        bv_or(a, b, i as u64);
    }
}

pub broadcast proof fn lemma_bit_and(a: u64, b: u64, i: int)
    ensures
        #[trigger] has_bit(a & b, i) <==> has_bit(a, i) && has_bit(b, i),
{
    if 0 <= i < 64 {
        bv_and(a, b, i as u64);
    }
}

pub broadcast proof fn lemma_bit_xor(a: u64, b: u64, i: int)
    ensures
        #[trigger] has_bit(a ^ b, i) <==> has_bit(a, i) != has_bit(b, i),
{
    if 0 <= i < 64 {
        bv_xor(a, b, i as u64);
    }
}

pub broadcast proof fn lemma_bit_not(a: u64, i: int)
    ensures
        #[trigger] has_bit(!a, i) <==> 0 <= i < 64 && !has_bit(a, i),
{
    if 0 <= i < 64 {
        bv_not(a, i as u64);
    }
}

pub broadcast proof fn lemma_bit_zero(i: int)
    ensures
        !#[trigger] has_bit(0u64, i),
{
    if 0 <= i < 64 {
        bv_zero(i as u64);
    }
}

/// Testing a set against a one-square mask reads that square.
pub broadcast proof fn lemma_bit_mask(a: u64, i: int)
    requires
        0 <= i < 64,
    ensures
        (#[trigger] (a & bit(i)) != 0) <==> has_bit(a, i),
{
    bv_mask(a, i as u64);
}

pub broadcast group group_bits {
    lemma_bit_single,
    lemma_bit_or,
    lemma_bit_and,
    lemma_bit_xor,
    lemma_bit_not,
    lemma_bit_zero,
    lemma_bit_mask,
}

} // verus!
