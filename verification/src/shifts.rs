use vstd::prelude::*;

verus! {

/// Arithmetic right shifts of an `i32` by small amounts are floor divisions
/// by powers of two.
#[verifier::rlimit(60)]
proof fn lemma_shr_small(x: i32)
    by (bit_vector)
    ensures
        (x >> 1u32) as int == x as int / 2,
        (x >> 2u32) as int == x as int / 4,
        (x >> 3u32) as int == x as int / 8,
        (x >> 4u32) as int == x as int / 16,
        (x >> 6u32) as int == x as int / 64,
{
}

/// Arithmetic right shifts of an `i32` by larger amounts are floor
/// divisions by powers of two.
#[verifier::rlimit(60)]
proof fn lemma_shr_large(x: i32)
    by (bit_vector)
    ensures
        (x >> 8u32) as int == x as int / 256,
        (x >> 9u32) as int == x as int / 512,
        (x >> 10u32) as int == x as int / 1024,
        (x >> 11u32) as int == x as int / 2048,
        (x >> 12u32) as int == x as int / 4096,
{
}

/// An arithmetic right shift of an `i32` is floor division by a power of two.
pub broadcast proof fn lemma_shr1(x: i32)
    ensures
        #[trigger] (x >> 1u32) as int == x as int / 2,
{
    lemma_shr_small(x);
}

/// See [`lemma_shr1`].
pub broadcast proof fn lemma_shr2(x: i32)
    ensures
        #[trigger] (x >> 2u32) as int == x as int / 4,
{
    lemma_shr_small(x);
}

/// See [`lemma_shr1`].
pub broadcast proof fn lemma_shr3(x: i32)
    ensures
        #[trigger] (x >> 3u32) as int == x as int / 8,
{
    lemma_shr_small(x);
}

/// See [`lemma_shr1`].
pub broadcast proof fn lemma_shr4(x: i32)
    ensures
        #[trigger] (x >> 4u32) as int == x as int / 16,
{
    lemma_shr_small(x);
}

/// See [`lemma_shr1`].
pub broadcast proof fn lemma_shr6(x: i32)
    ensures
        #[trigger] (x >> 6u32) as int == x as int / 64,
{
    lemma_shr_small(x);
}

/// See [`lemma_shr1`].
pub broadcast proof fn lemma_shr8(x: i32)
    ensures
        #[trigger] (x >> 8u32) as int == x as int / 256,
{
    lemma_shr_large(x);
}

/// See [`lemma_shr1`].
pub broadcast proof fn lemma_shr9(x: i32)
    ensures
        #[trigger] (x >> 9u32) as int == x as int / 512,
{
    lemma_shr_large(x);
}

/// See [`lemma_shr1`].
pub broadcast proof fn lemma_shr10(x: i32)
    ensures
        #[trigger] (x >> 10u32) as int == x as int / 1024,
{
    lemma_shr_large(x);
}

/// See [`lemma_shr1`].
pub broadcast proof fn lemma_shr11(x: i32)
    ensures
        #[trigger] (x >> 11u32) as int == x as int / 2048,
{
    lemma_shr_large(x);
}

/// See [`lemma_shr1`].
pub broadcast proof fn lemma_shr12(x: i32)
    ensures
        #[trigger] (x >> 12u32) as int == x as int / 4096,
{
    lemma_shr_large(x);
}

/// Masking an `i32` with `0x3E` keeps its remainder modulo 64, rounded down
/// to an even number.
pub broadcast proof fn lemma_mask_3e(x: i32)
    ensures
        #[trigger] (x & 0x3Ei32) as int == x as int % 64 - x as int % 2,
{
    assert((x & 0x3Ei32) as int == x as int - 64 * (x as int / 64) - (x as int - 2 * (x as int / 2)))
        by (bit_vector);
}

/// Masking an `i32` with 7 gives its remainder modulo 8.
pub broadcast proof fn lemma_mask_7(x: i32)
    ensures
        #[trigger] (x & 7i32) as int == x as int % 8,
{
    assert((x & 7i32) as int == x as int - 8 * (x as int / 8)) by (bit_vector);
}

/// A left shift by two of a small `i32` multiplies it by four.
pub broadcast proof fn lemma_shl2(x: i32)
    requires
        -0x2000_0000 <= x < 0x2000_0000,
    ensures
        #[trigger] (x << 2u32) as int == 4 * x as int,
{
    assert(-0x2000_0000 <= x < 0x2000_0000 ==> (x << 2u32) as int == 4 * x as int) by (bit_vector);
}

pub broadcast group group_shifts {
    lemma_shr1,
    lemma_shr3,
    lemma_shr4,
    lemma_shr8,
    lemma_shr9,
    lemma_shr11,
    lemma_shr12,
    lemma_shl2,
}

} // verus!
