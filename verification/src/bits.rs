//! Counting the bits of a word.

use vstd::prelude::*;

verus! {

/// How many ones the binary representation of `n` has.
pub open spec fn ones(n: nat) -> nat
    decreases n,
{
    if n == 0 {
        0
    } else {
        n % 2 + ones(n / 2)
    }
}

pub proof fn lemma_ones_step(n: nat)
    ensures
        ones(n) == n % 2 + ones(n / 2),
{
}

/// `u16::count_ones` returns how many ones the binary representation of its argument has.
pub assume_specification[ u16::count_ones ](x: u16) -> (count: u32)
    ensures
        count == ones(x as nat),
;

/// `u32::count_ones` returns how many ones the binary representation of its argument has.
pub assume_specification[ u32::count_ones ](x: u32) -> (count: u32)
    ensures
        count == ones(x as nat),
;

/// `u64::count_ones` returns how many ones the binary representation of its argument has.
pub assume_specification[ u64::count_ones ](x: u64) -> (count: u32)
    ensures
        count == ones(x as nat),
;

/// The lowest bits of a word, read as numbers of several kinds.
pub proof fn lemma_u64_views(v: u64)
    by (bit_vector)
    ensures
        ((v as u32) as u64) as i32 == v as i32,
        (v as i32) as u32 == v as u32,
        (v as u32) as i32 == v as i32,
        (v as i64) as u64 == v,
        (v & ((v as u32) as u64)) as u32 == v as u32,
        v & v == v,
        v ^ v == 0,
        (v as u32) ^ (v as u32) == 0u32,
        ((v as u32) == 0) == ((v as i32) == 0),
        (v == 0) == ((v as i64) == 0),
{
}

/// A number of 32 bits, extended and cut off again.
pub proof fn lemma_i32_views(a: i32)
    by (bit_vector)
    ensures
        a as u32 == (if a < 0 {
            a + 0x1_0000_0000
        } else {
            a as int
        }),
        (a as i64) as i32 == a,
        (a as i64) as u64 == a as u64,
        (a as u64) as u32 == a as u32,
        ((a as i64) as u64) as u32 == a as u32,
        ((a as i64) as u64) as i32 == a,
        ((a as u32) as i64) as u64 == a as u32,
        (((a as u32) as i64) as u64) as u32 == a as u32,
        (((a as u32) as i64) as u64) as i32 == a,
        ((a as i64) as u64) as u8 == (((a as u32) as i64) as u64) as u8,
{
}

/// A number of 64 bits, cut off.
pub proof fn lemma_i64_views(a: i64)
    by (bit_vector)
    ensures
        a as u64 == (if a < 0 {
            a + 0x1_0000_0000_0000_0000
        } else {
            a as int
        }),
        (a as u64) as i64 == a,
        (a as u64) as u32 == a as u32,
        (((a as i8) as i64) as u64) as u8 == (a as u64) as u8,
        a as u64 <= 0xffff_ffff ==> ((a as i32) as i64) as u64 as u32 as u64 == a as u64,
{
}

/// A number without sign, read as one with sign and back.
pub proof fn lemma_u32_views(a: u32)
    by (bit_vector)
    ensures
        (((a as i32) as u32) as i64) as u64 == a,
{
}

} // verus!
