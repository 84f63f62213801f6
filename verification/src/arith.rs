//! Small arithmetic building blocks shared by the sample-processing modules.
use vstd::prelude::*;

verus! {

/// `v` limited to the closed range `lo..=hi`.
pub open spec fn clipped(lo: int, hi: int, v: int) -> int {
    if v < lo {
        lo
    } else if v > hi {
        hi
    } else {
        v
    }
}

/// Rounded mean of two samples.
pub open spec fn mean2(a: int, b: int) -> int {
    (a + b + 1) / 2
}

/// The (1, 2, 1) smoothing filter, rounded.
pub open spec fn smooth3(a: int, b: int, c: int) -> int {
    (a + 2 * b + c + 2) / 4
}

/// Sum of the first `n` samples of `s`.
pub open spec fn prefix_sum(s: Seq<u8>, n: nat) -> int
    decreases n,
{
    if n == 0 {
        0
    } else {
        prefix_sum(s, (n - 1) as nat) + s[n - 1]
    }
}

/// The sum of equal samples is a multiple of their value.
pub proof fn prefix_sum_of_solid(s: Seq<u8>, n: nat, v: u8)
    requires
        n <= s.len(),
        forall|i: int| 0 <= i < n ==> #[trigger] s[i] == v,
    ensures
        prefix_sum(s, n) == n * v,
    decreases n,
{
    if n > 0 {
        prefix_sum_of_solid(s, (n - 1) as nat, v);
        assert((n - 1) * v + v == n * v) by (nonlinear_arith);
    } else {
        assert(n * v == 0) by (nonlinear_arith)
            requires
                n == 0,
        ;
    }
}

/// Limits `v` to `lo..=hi`.
pub fn clip3(lo: i32, hi: i32, v: i32) -> (r: i32)
    requires
        lo <= hi,
    ensures
        r == clipped(lo as int, hi as int, v as int),
{
    if v < lo {
        lo
    } else if v > hi {
        hi
    } else {
        v
    }
}

/// Limits `v` to the range of an 8-bit sample.
pub fn clip_sample(v: i32) -> (r: u8)
    ensures
        r == clipped(0, 255, v as int),
{
    clip3(0, 255, v) as u8
}

/// `v / 2`, rounded towards negative infinity.
pub fn asr1(v: i32) -> (r: i32)
    ensures
        r == v as int / 2,
{
    assert(v >> 1u32 == v / 2) by (bit_vector);
    v >> 1u32
}

/// `v / 8`, rounded towards negative infinity.
pub fn asr3(v: i32) -> (r: i32)
    ensures
        r == v as int / 8,
{
    assert(v >> 3u32 == v / 8) by (bit_vector);
    v >> 3u32
}

/// `v / 32`, rounded towards negative infinity.
pub fn asr5(v: i32) -> (r: i32)
    ensures
        r == v as int / 32,
{
    assert(v >> 5u32 == v / 32) by (bit_vector);
    v >> 5u32
}

/// `v / 64`, rounded towards negative infinity.
pub fn asr6(v: i32) -> (r: i32)
    ensures
        r == v as int / 64,
{
    assert(v >> 6u32 == v / 64) by (bit_vector);
    v >> 6u32
}

/// `v / 1024`, rounded towards negative infinity.
pub fn asr10(v: i32) -> (r: i32)
    ensures
        r == v as int / 1024,
{
    assert(v >> 10u32 == v / 1024) by (bit_vector);
    v >> 10u32
}

/// A limited value lies in the range, and no other value of the range is nearer.
pub proof fn limiting_gives_the_nearest(lo: int, hi: int, v: int, w: int)
    requires
        lo <= w <= hi,
    ensures
        lo <= clipped(lo, hi, v) <= hi,
        v <= lo ==> clipped(lo, hi, v) <= w,
        v >= hi ==> clipped(lo, hi, v) >= w,
        lo <= v <= hi ==> clipped(lo, hi, v) == v,
{
}

/// Means are rounded to the nearest, halves up.
pub proof fn means_are_rounded(a: int, b: int, c: int)
    ensures
        a + b <= 2 * mean2(a, b) <= a + b + 1,
        a + 2 * b + c - 1 <= 4 * smooth3(a, b, c) <= a + 2 * b + c + 2,
{
}

} // verus!
