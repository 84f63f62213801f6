//! Strings of bits as they are written, field by field, and how they are read.
use vstd::arithmetic::power2::*;
use vstd::prelude::*;

use crate::h264::{self, Cursor};

verus! {

/// The `n` lowest binary digits of `v`, the highest first.
pub open spec fn digits(v: int, n: nat) -> Seq<int>
    decreases n,
{
    if n == 0 {
        Seq::empty()
    } else {
        digits(v / 2, (n - 1) as nat).push(v % 2)
    }
}

/// How many binary digits of `v` come behind its first one.
pub open spec fn tail_digits(v: int) -> nat
    decreases v,
{
    if v <= 1 {
        0
    } else {
        1 + tail_digits(v / 2)
    }
}

/// A flag.
pub open spec fn flag(b: bool) -> Seq<int> {
    seq![
        if b {
            1int
        } else {
            0
        },
    ]
}

/// An unsigned Exp-Golomb code: `v + 1` in binary, with as many zeros before it as it
/// has digits behind its first.
pub open spec fn unsigned(v: int) -> Seq<int> {
    Seq::new(tail_digits(v + 1), |i: int| 0int) + digits(v + 1, tail_digits(v + 1) + 1)
}

/// A signed Exp-Golomb code: the numbers 0, 1, -1, 2, -2, ... are counted.
pub open spec fn signed(v: int) -> Seq<int> {
    unsigned(
        if v > 0 {
            2 * v - 1
        } else {
            -2 * v
        },
    )
}

/// The cursor stands before these bits.
pub open spec fn stands_before(c: Cursor, bits: Seq<int>) -> bool {
    &&& c.ok
    &&& 0 <= c.pos
    &&& c.pos + bits.len() <= c.end()
    &&& forall|i: int| 0 <= i < bits.len() ==> h264::bit_at(c.data, c.pos + i) == #[trigger] bits[i]
}

proof fn digits_length(v: int, n: nat)
    ensures
        digits(v, n).len() == n,
    decreases n,
{
    if n > 0 {
        digits_length(v / 2, (n - 1) as nat);
    }
}

proof fn digits_are_a_number(data: Seq<u8>, pos: int, v: int, n: nat)
    requires
        0 <= v < pow2(n),
        forall|i: int|
            0 <= i < n ==> h264::bit_at(data, pos + i) == #[trigger] digits(v, n)[i],
    ensures
        h264::bits_value(data, pos, n) == v,
    decreases n,
{
    lemma2_to64();
    if n > 0 {
        lemma_pow2_unfold(n);
        digits_length(v / 2, (n - 1) as nat);
        let last = digits(v, n)[n - 1];
        assert(last == v % 2);
        assert forall|i: int| 0 <= i < n - 1 implies h264::bit_at(data, pos + i)
            == #[trigger] digits(v / 2, (n - 1) as nat)[i] by {
            assert(digits(v, n)[i] == digits(v / 2, (n - 1) as nat)[i]);
        }
        digits_are_a_number(data, pos, v / 2, (n - 1) as nat);
    }
}

proof fn tail_digits_bound(v: int)
    requires
        v >= 1,
    ensures
        pow2(tail_digits(v)) <= v < pow2(tail_digits(v) + 1),
    decreases v,
{
    lemma2_to64();
    if v > 1 {
        tail_digits_bound(v / 2);
        lemma_pow2_unfold(tail_digits(v));
        lemma_pow2_unfold(tail_digits(v) + 1);
    }
}

proof fn first_digit(v: int, n: nat)
    requires
        pow2(n) <= v < pow2(n + 1),
    ensures
        digits(v, n + 1).len() == n + 1,
        digits(v, n + 1)[0] == 1,
    decreases n,
{
    lemma2_to64();
    digits_length(v, n + 1);
    if n > 0 {
        lemma_pow2_unfold(n);
        lemma_pow2_unfold(n + 1);
        first_digit(v / 2, (n - 1) as nat);
        assert(digits(v, n + 1) == digits(v / 2, n).push(v % 2));
    } else {
        reveal_with_fuel(digits, 2);
        assert(v == 1);
    }
}

proof fn digits_behind_the_first(v: int, n: nat, i: int)
    requires
        pow2(n) <= v < pow2(n + 1),
        0 <= i < n,
    ensures
        digits(v, n + 1).len() == n + 1,
        digits(v - pow2(n), n).len() == n,
        digits(v, n + 1)[i + 1] == digits(v - pow2(n), n)[i],
    decreases n,
{
    lemma2_to64();
    digits_length(v, n + 1);
    digits_length(v - pow2(n), n);
    lemma_pow2_unfold(n);
    lemma_pow2_unfold(n + 1);
    let m = (n - 1) as nat;
    digits_length(v / 2, n);
    digits_length((v - pow2(n)) / 2, m);
    assert(digits(v, n + 1) == digits(v / 2, n).push(v % 2));
    assert(digits(v - pow2(n), n) == digits((v - pow2(n)) / 2, m).push((v - pow2(n)) % 2));
    assert((v - pow2(n)) / 2 == v / 2 - pow2(m));
    if i == n - 1 {
        assert((v - pow2(n)) % 2 == v % 2);
    } else {
        digits_behind_the_first(v / 2, m, i);
    }
}

/// The digits of a number at the cursor are read as the number.
pub proof fn numbers_are_read(c: Cursor, v: int, n: nat, rest: Seq<int>)
    requires
        stands_before(c, digits(v, n) + rest),
        0 <= v < pow2(n),
    ensures
        c.bits(n) == (v, c.advanced(c.pos + n)),
        stands_before(c.advanced(c.pos + n), rest),
{
    let bits = digits(v, n) + rest;
    digits_length(v, n);
    assert forall|i: int| 0 <= i < n implies h264::bit_at(c.data, c.pos + i)
        == #[trigger] digits(v, n)[i] by {
        assert(bits[i] == digits(v, n)[i]);
    }
    digits_are_a_number(c.data, c.pos, v, n);
    let d = c.advanced(c.pos + n);
    assert forall|i: int| 0 <= i < rest.len() implies h264::bit_at(d.data, d.pos + i)
        == #[trigger] rest[i] by {
        assert(bits[n + i] == rest[i]);
        assert(h264::bit_at(c.data, c.pos + (n + i)) == bits[n + i]);
    }
}

/// A flag at the cursor is read, as a bit and as a number of one bit.
pub proof fn flags_are_read(c: Cursor, b: bool, rest: Seq<int>)
    requires
        stands_before(c, flag(b) + rest),
    ensures
        c.bit() == (
            if b {
                1int
            } else {
                0
            },
            c.advanced(c.pos + 1),
        ),
        c.bits(1) == c.bit(),
        stands_before(c.advanced(c.pos + 1), rest),
{
    let bits = flag(b) + rest;
    assert(bits[0] == flag(b)[0]);
    assert(h264::bit_at(c.data, c.pos + 0) == bits[0]);
    reveal_with_fuel(h264::bits_value, 2);
    let d = c.advanced(c.pos + 1);
    assert forall|i: int| 0 <= i < rest.len() implies h264::bit_at(d.data, d.pos + i)
        == #[trigger] rest[i] by {
        assert(bits[1 + i] == rest[i]);
        assert(h264::bit_at(c.data, c.pos + (1 + i)) == bits[1 + i]);
    }
}

/// An unsigned code at the cursor is read as its number.
pub proof fn unsigned_codes_are_read(c: Cursor, v: u32, rest: Seq<int>)
    requires
        stands_before(c, unsigned(v as int) + rest),
        v < u32::MAX,
    ensures
        c.ue().0 == v,
        c.ue().1.ok,
        c.ue().1.data == c.data,
        c.ue().1.pos == c.pos + unsigned(v as int).len(),
        stands_before(c.ue().1, rest),
{
    let n = tail_digits(v + 1);
    let code = digits(v + 1, n + 1);
    let bits = unsigned(v as int) + rest;
    lemma2_to64();
    tail_digits_bound(v + 1);
    if n >= 32 {
        if n > 32 {
            lemma_pow2_strictly_increases(32, n);
        }
        assert(false);
    }
    first_digit(v + 1, n);
    assert(unsigned(v as int).len() == 2 * n + 1);
    assert forall|i: int| 0 <= i < n implies #[trigger] h264::bit_at(c.data, c.pos + i) == 0 by {
        assert(bits[i] == 0);
    }
    assert(bits[n as int] == code[0]);
    assert(h264::bit_at(c.data, c.pos + n) == 1);
    let low = v + 1 - pow2(n);
    digits_length(low, n);
    lemma_pow2_unfold(n + 1);
    assert forall|i: int| 0 <= i < n implies h264::bit_at(c.data, c.pos + n + 1 + i)
        == #[trigger] digits(low, n)[i] by {
        digits_behind_the_first(v + 1, n, i);
        assert(bits[n + 1 + i] == code[i + 1]);
        assert(h264::bit_at(c.data, c.pos + (n + 1 + i)) == bits[n + 1 + i]);
    }
    digits_are_a_number(c.data, c.pos + n + 1, low, n);
    h264::ue_reads_its_code(c, v, n);
    let d = c.ue().1;
    assert forall|i: int| 0 <= i < rest.len() implies h264::bit_at(d.data, d.pos + i)
        == #[trigger] rest[i] by {
        assert(bits[2 * n + 1 + i] == rest[i]);
        assert(h264::bit_at(c.data, c.pos + (2 * n + 1 + i)) == bits[2 * n + 1 + i]);
    }
}

/// A signed code at the cursor is read as its number.
pub proof fn signed_codes_are_read(c: Cursor, v: i32, rest: Seq<int>)
    requires
        stands_before(c, signed(v as int) + rest),
        v > i32::MIN,
    ensures
        c.se().0 == v,
        c.se().1.ok,
        c.se().1.data == c.data,
        c.se().1.pos == c.pos + signed(v as int).len(),
        stands_before(c.se().1, rest),
{
    let u = if v > 0 {
        2 * v - 1
    } else {
        -2 * v
    };
    unsigned_codes_are_read(c, u as u32, rest);
}

} // verus!
