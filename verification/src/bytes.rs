//! Integers in byte strings.
use vstd::prelude::*;

verus! {

/// The number that `seed` and the `n` bytes at `i` behind it stand for, most
/// significant byte first.
pub open spec fn be_extend(seed: int, s: Seq<u8>, i: int, n: nat) -> int
    decreases n,
{
    if n == 0 {
        seed
    } else {
        256 * be_extend(seed, s, i, (n - 1) as nat) + s[i + n - 1]
    }
}

/// The `n` bytes at `i` as a number, most significant byte first.
pub open spec fn be_value(s: Seq<u8>, i: int, n: nat) -> int {
    be_extend(0, s, i, n)
}

/// `256` to the power of `n`.
pub open spec fn power_256(n: nat) -> int
    decreases n,
{
    if n == 0 {
        1
    } else {
        256 * power_256((n - 1) as nat)
    }
}

pub proof fn power_256_values()
    ensures
        power_256(0) == 1,
        power_256(1) == 0x100,
        power_256(2) == 0x1_0000,
        power_256(3) == 0x100_0000,
        power_256(4) == 0x1_0000_0000,
        power_256(5) == 0x100_0000_0000,
        power_256(6) == 0x1_0000_0000_0000,
        power_256(7) == 0x100_0000_0000_0000,
        power_256(8) == 0x1_0000_0000_0000_0000,
{
    reveal_with_fuel(power_256, 9);
}

/// `128` to the power of `n`.
pub open spec fn power_128(n: nat) -> int
    decreases n,
{
    if n == 0 {
        1
    } else {
        128 * power_128((n - 1) as nat)
    }
}

pub proof fn power_128_values()
    ensures
        power_128(0) == 1,
        power_128(1) == 0x80,
        power_128(2) == 0x4000,
        power_128(3) == 0x20_0000,
        power_128(4) == 0x1000_0000,
        power_128(5) == 0x8_0000_0000,
        power_128(6) == 0x400_0000_0000,
        power_128(7) == 0x2_0000_0000_0000,
        power_128(8) == 0x100_0000_0000_0000,
{
    reveal_with_fuel(power_128, 9);
}

/// Computes `128` to the power of `n`.
pub fn pow_128(n: usize) -> (r: u64)
    requires
        n <= 8,
    ensures
        r == power_128(n as nat),
        r >= 1,
{
    proof {
        power_128_values();
    }
    match n {
        0 => 1,
        1 => 0x80,
        2 => 0x4000,
        3 => 0x20_0000,
        4 => 0x1000_0000,
        5 => 0x8_0000_0000,
        6 => 0x400_0000_0000,
        7 => 0x2_0000_0000_0000,
        _ => 0x100_0000_0000_0000,
    }
}

pub proof fn be_extend_bound(seed: int, s: Seq<u8>, i: int, n: nat)
    requires
        seed >= 0,
    ensures
        0 <= be_extend(seed, s, i, n) < (seed + 1) * power_256(n),
    decreases n,
{
    if n > 0 {
        be_extend_bound(seed, s, i, (n - 1) as nat);
        let v = be_extend(seed, s, i, (n - 1) as nat);
        let p = power_256((n - 1) as nat);
        assert(256 * v + 255 < (seed + 1) * (256 * p)) by (nonlinear_arith)
            requires
                v + 1 <= (seed + 1) * p,
        ;
    } else {
        assert((seed + 1) * power_256(0) == seed + 1);
    }
}

/// A number of `n` bytes is what its bytes spell out.
pub proof fn be_value_spelled_out(s: Seq<u8>, i: int)
    ensures
        be_value(s, i, 1) == s[i],
        be_value(s, i, 2) == 0x100 * s[i] + s[i + 1],
        be_value(s, i, 3) == 0x1_0000 * s[i] + 0x100 * s[i + 1] + s[i + 2],
        be_value(s, i, 4) == 0x100_0000 * s[i] + 0x1_0000 * s[i + 1] + 0x100 * s[i + 2] + s[i + 3],
{
    reveal_with_fuel(be_extend, 5);
}

/// Reads `n` bytes (at most 8) at `i` behind the bits of `seed`.
pub fn extend_be(seed: u64, buf: &[u8], i: usize, n: usize) -> (r: u64)
    requires
        i + n <= buf.len(),
        n <= 8,
        (seed + 1) * power_256(n as nat) <= 0x1_0000_0000_0000_0000,
    ensures
        r == be_extend(seed as int, buf@, i as int, n as nat),
{
    let mut v: u64 = seed;
    let mut k: usize = 0;
    while k < n
        invariant
            k <= n <= 8,
            i + n <= buf.len(),
            (seed + 1) * power_256(n as nat) <= 0x1_0000_0000_0000_0000,
            v == be_extend(seed as int, buf@, i as int, k as nat),
        decreases n - k,
    {
        proof {
            be_extend_bound(seed as int, buf@, i as int, (k + 1) as nat);
            power_256_grows((k + 1) as nat, n as nat);
            let (p, q) = (power_256((k + 1) as nat), power_256(n as nat));
            assert((seed + 1) * p <= (seed + 1) * q) by (nonlinear_arith)
                requires
                    p <= q,
                    seed >= 0,
            ;
        }
        v = 256 * v + buf[i + k] as u64;
        k = k + 1;
    }
    v
}

proof fn power_256_grows(a: nat, b: nat)
    requires
        a <= b,
    ensures
        0 < power_256(a) <= power_256(b),
    decreases b,
{
    if b > 0 {
        if a < b {
            power_256_grows(a, (b - 1) as nat);
        } else {
            power_256_grows((a - 1) as nat, (b - 1) as nat);
        }
    }
}

/// Reads `n` bytes (at most 8) at `i`.
pub fn read_be(buf: &[u8], i: usize, n: usize) -> (r: u64)
    requires
        i + n <= buf.len(),
        n <= 8,
    ensures
        r == be_value(buf@, i as int, n as nat),
        r < power_256(n as nat),
{
    proof {
        power_256_values();
        power_256_grows(n as nat, 8);
        be_extend_bound(0, buf@, i as int, n as nat);
    }
    extend_be(0, buf, i, n)
}

/// Reads four bytes at `i`, least significant byte first.
pub fn read_le_32(buf: &[u8], i: usize) -> (r: u32)
    requires
        i + 4 <= buf.len(),
    ensures
        r == buf@[i as int] + 0x100 * buf@[i + 1] + 0x1_0000 * buf@[i + 2] + 0x100_0000 * buf@[i
            + 3],
{
    buf[i] as u32 + 0x100 * buf[i + 1] as u32 + 0x1_0000 * buf[i + 2] as u32 + 0x100_0000 * buf[i
        + 3] as u32
}

/// Whether the bytes at `i` are those of `tag`.
pub fn matches_at(buf: &[u8], i: usize, tag: &[u8]) -> (r: bool)
    requires
        i + tag@.len() <= buf.len(),
    ensures
        r == (buf@.subrange(i as int, i + tag@.len()) == tag@),
{
    let mut k: usize = 0;
    while k < tag.len()
        invariant
            k <= tag@.len(),
            i + tag@.len() <= buf.len(),
            forall|j: int| 0 <= j < k ==> #[trigger] tag@[j] == buf@[i + j],
        decreases tag@.len() - k,
    {
        if buf[i + k] != tag[k] {
            assert(buf@.subrange(i as int, i + tag@.len())[k as int] != tag@[k as int]);
            return false;
        }
        k = k + 1;
    }
    assert(buf@.subrange(i as int, i + tag@.len()) =~= tag@);
    true
}

} // verus!
