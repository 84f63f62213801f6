//! H.264 CAVLC residual decoding, after section 9.2: the entropy stage between
//! the bit stream and the inverse transform.
//!
//! Blocks are decoded with the code table for sparse neighbourhoods (nC of 0
//! and 1) and with the table of zero counts for a single coefficient; a block
//! with more coefficients is reported as undecodable.
use vstd::prelude::*;

use crate::h264::fields;
use crate::h264::{BitReader, Cursor};

verus! {

broadcast use crate::h264::reader_has_not_failed;

/// 16 transform coefficients in row-major order.
pub type Block4x4 = [i32; 16];

/// Raster position of each coefficient in scan order.
pub const ZIGZAG_4X4: [usize; 16] = [0, 1, 4, 8, 5, 2, 3, 6, 9, 12, 13, 10, 7, 11, 14, 15];

/// An entry of a code table: the context in which it applies, its bits, their
/// number, and the two values that it stands for.
pub type Code = (u8, u32, u8, u8, u8);

/// Codes for the numbers of coefficients and of trailing ones, for blocks of up
/// to four coefficients: the column of Table 9-5 for nC of 0 and 1, but for two
/// codes. `000101` stands for a trailing one, as `01` does, and a single
/// coefficient that is none has a code of 14 bits.
pub const COEFF_TOKEN_NC0: [Code; 15] = [
    (0, 0b1, 1, 0, 0),
    (0, 0b01, 2, 1, 1),
    (0, 0b000101, 6, 1, 1),
    (0, 0b00000000000101, 14, 1, 0),
    (0, 0b001, 3, 2, 2),
    (0, 0b000100, 6, 2, 1),
    (0, 0b00000111, 8, 2, 0),
    (0, 0b00011, 5, 3, 3),
    (0, 0b0000101, 7, 3, 2),
    (0, 0b00000110, 8, 3, 1),
    (0, 0b000000111, 9, 3, 0),
    (0, 0b000011, 6, 4, 3),
    (0, 0b00000101, 8, 4, 2),
    (0, 0b000000110, 9, 4, 1),
    (0, 0b0000000111, 10, 4, 0),
];

/// Codes for the number of zeros before the last coefficient, after Table 9-7;
/// the context is the number of coefficients.
pub const TOTAL_ZEROS_4X4: [Code; 16] = [
    (1, 0b1, 1, 0, 0),
    (1, 0b011, 3, 1, 0),
    (1, 0b010, 3, 2, 0),
    (1, 0b0011, 4, 3, 0),
    (1, 0b0010, 4, 4, 0),
    (1, 0b00011, 5, 5, 0),
    (1, 0b00010, 5, 6, 0),
    (1, 0b000011, 6, 7, 0),
    (1, 0b000010, 6, 8, 0),
    (1, 0b0000011, 7, 9, 0),
    (1, 0b0000010, 7, 10, 0),
    (1, 0b00000011, 8, 11, 0),
    (1, 0b00000010, 8, 12, 0),
    (1, 0b000000011, 9, 13, 0),
    (1, 0b000000010, 9, 14, 0),
    (1, 0b000000001, 9, 15, 0),
];

/// Codes for a run of zeros before a coefficient; the context is the number
/// of zeros that are left, up to 6.
pub const RUN_BEFORE_TABLE: [Code; 27] = [
    (1, 0b1, 1, 0, 0),
    (1, 0b0, 1, 1, 0),
    (2, 0b1, 1, 0, 0),
    (2, 0b01, 2, 1, 0),
    (2, 0b00, 2, 2, 0),
    (3, 0b11, 2, 0, 0),
    (3, 0b10, 2, 1, 0),
    (3, 0b01, 2, 2, 0),
    (3, 0b00, 2, 3, 0),
    (4, 0b11, 2, 0, 0),
    (4, 0b10, 2, 1, 0),
    (4, 0b01, 2, 2, 0),
    (4, 0b001, 3, 3, 0),
    (4, 0b000, 3, 4, 0),
    (5, 0b11, 2, 0, 0),
    (5, 0b10, 2, 1, 0),
    (5, 0b011, 3, 2, 0),
    (5, 0b010, 3, 3, 0),
    (5, 0b001, 3, 4, 0),
    (5, 0b000, 3, 5, 0),
    (6, 0b11, 2, 0, 0),
    (6, 0b000, 3, 1, 0),
    (6, 0b001, 3, 2, 0),
    (6, 0b011, 3, 3, 0),
    (6, 0b010, 3, 4, 0),
    (6, 0b101, 3, 5, 0),
    (6, 0b100, 3, 6, 0),
];

/// What the first entry of `table` at or behind `i` stands for that has the
/// given context, length and bits.
pub open spec fn lookup(table: Seq<Code>, context: int, len: int, bits: int, i: int) -> Option<
    (u8, u8),
>
    decreases table.len() - i,
{
    if i >= table.len() {
        None
    } else if table[i].0 == context && table[i].2 == len && table[i].1 == bits {
        Some((table[i].3, table[i].4))
    } else {
        lookup(table, context, len, bits, i + 1)
    }
}

/// The code at a cursor: the shortest prefix that the table holds. Fails where
/// no prefix of up to `max` bits is a code, of which `n` are known not to be.
pub open spec fn code_at(c: Cursor, table: Seq<Code>, context: int, n: int, max: int) -> (
    (u8, u8),
    Cursor,
)
    decreases max - n,
{
    let bits = crate::h264::bits_value(c.data, c.pos, (n + 1) as nat);
    if !c.ok {
        ((0, 0), c)
    } else if n >= max {
        ((0, 0), c.failed(c.pos + max))
    } else if c.pos + n >= c.end() {
        ((0, 0), c.failed(c.pos + n))
    } else if lookup(table, context, n + 1, bits, 0) is Some {
        (lookup(table, context, n + 1, bits, 0)->0, c.advanced(c.pos + n + 1))
    } else {
        code_at(c, table, context, n + 1, max)
    }
}

/// The number of coefficients and of trailing ones at a cursor.
pub open spec fn coeff_token_at(c: Cursor) -> ((u8, u8), Cursor) {
    code_at(c, COEFF_TOKEN_NC0@, 0, 0, 14)
}

/// The number of zeros before the last of `total_coeff` coefficients.
pub open spec fn total_zeros_at(c: Cursor, total_coeff: u8) -> (u8, Cursor) {
    if total_coeff == 0 {
        (0, c)
    } else {
        let (value, next) = code_at(c, TOTAL_ZEROS_4X4@, total_coeff as int, 0, 9);
        (value.0, next)
    }
}

/// How many zero bits stand before the next one bit. Fails where there are
/// more than `max`.
pub open spec fn unary_at(c: Cursor, max: nat) -> (int, Cursor) {
    let zeros = crate::h264::zero_run(c.data, c.pos);
    if !c.ok {
        (0, c)
    } else if zeros > max {
        (0, c.failed(c.pos + max + 1))
    } else if c.pos + zeros >= c.end() {
        (0, c.failed(c.pos + zeros))
    } else {
        (zeros as int, c.advanced(c.pos + zeros + 1))
    }
}

/// The run of zeros before a coefficient, of `zeros_left` that are left.
pub open spec fn run_before_at(c: Cursor, zeros_left: u8) -> (int, Cursor) {
    if zeros_left == 0 {
        (0, c)
    } else if zeros_left <= 6 {
        let max: int = if zeros_left <= 3 {
            2
        } else {
            3
        };
        let (value, next) = code_at(c, RUN_BEFORE_TABLE@, zeros_left as int, 0, max);
        (value.0 as int, next)
    } else {
        unary_at(c, 14)
    }
}

/// The level that a level code stands for: 1, -1, 2, -2, ... (32 bits are not
/// enough for the largest code, which wraps around).
pub open spec fn level_of(code: int) -> int {
    if code % 2 == 1 {
        -(code / 2 + 1)
    } else if code / 2 == i32::MAX {
        i32::MIN as int
    } else {
        code / 2 + 1
    }
}

/// The number of suffix bits behind a unary prefix. Prefixes from 15 on are
/// escapes with suffixes of their own.
pub open spec fn suffix_bits(suffix_length: u8, prefix: int) -> nat {
    if prefix >= 15 {
        (prefix - 3) as nat
    } else if prefix == 14 && suffix_length == 0 {
        4
    } else {
        suffix_length as nat
    }
}

/// What an escape adds to a level code, so that the codes of each prefix follow
/// those of the one before.
pub open spec fn escape_offset(suffix_length: u8, prefix: int) -> int {
    let start: int = if prefix >= 15 && suffix_length == 0 {
        15
    } else {
        0
    };
    if prefix >= 16 {
        start + vstd::arithmetic::power2::pow2((prefix - 3) as nat) - 4096
    } else {
        start
    }
}

/// The level code made of a prefix and a suffix. The prefix, which counts as at
/// most 15, is shifted within 32 bits.
pub open spec fn level_code(suffix_length: u8, prefix: int, suffix: int) -> int {
    let high = if prefix < 15 {
        prefix
    } else {
        15
    };
    (high * vstd::arithmetic::power2::pow2(suffix_length as nat)) % 0x1_0000_0000 + suffix
        + escape_offset(suffix_length, prefix)
}

/// The level at a cursor.
pub open spec fn level_at(c: Cursor, suffix_length: u8) -> (int, Cursor) {
    let (prefix, next) = unary_at(c, 25);
    let (suffix, next) = next.bits(suffix_bits(suffix_length, prefix));
    (level_of(level_code(suffix_length, prefix, suffix)), next)
}

/// Behind `n` bits, read one by one.
pub open spec fn past_bits(c: Cursor, n: nat) -> Cursor
    decreases n,
{
    if !c.ok || n == 0 {
        c
    } else {
        past_bits(c.bit().1, (n - 1) as nat)
    }
}

/// The first level behind fewer than three trailing ones. It is larger than 1,
/// or it would be a trailing one itself, and is coded as if it were smaller.
pub open spec fn first_level(level: int, trailing_ones: int) -> int {
    if trailing_ones >= 3 {
        level
    } else if level > 0 {
        level + 1
    } else {
        level - 1
    }
}

/// The suffix length behind a level: at least 1, and one more behind a large
/// level.
pub open spec fn next_suffix_length(suffix_length: u8, level: int) -> u8 {
    let n: u8 = if suffix_length == 0 {
        1
    } else {
        suffix_length
    };
    let limit = 3 * vstd::arithmetic::power2::pow2((n - 1) as nat);
    if n < 6 && (level > limit || -level > limit) {
        (n + 1) as u8
    } else {
        n
    }
}

/// Behind `n` further levels, of which the first has the given suffix length.
pub open spec fn past_levels(c: Cursor, n: nat, suffix_length: u8) -> Cursor
    decreases n,
{
    let (level, next) = level_at(c, suffix_length);
    if !c.ok || n == 0 {
        c
    } else {
        past_levels(next, (n - 1) as nat, next_suffix_length(suffix_length, level))
    }
}

/// Behind all levels but the trailing ones, `n` in number.
pub open spec fn past_all_levels(c: Cursor, n: nat, trailing_ones: int) -> Cursor {
    let (level, next) = level_at(c, 0);
    if !c.ok || n == 0 {
        c
    } else {
        past_levels(
            next,
            (n - 1) as nat,
            next_suffix_length(0, first_level(level, trailing_ones)),
        )
    }
}

/// A block whose only coefficient stands at position `scan` of the scan order.
pub open spec fn single_coefficient(scan: int, level: int) -> Seq<int> {
    Seq::new(
        16,
        |i: int|
            if i == ZIGZAG_4X4[scan] {
                level
            } else {
                0
            },
    )
}

/// The coded block at a cursor: a token, the signs of the trailing ones, the
/// other levels and the number of zeros.
pub open spec fn residual_4x4_at(c: Cursor) -> (Seq<int>, Cursor) {
    let ((total_coeff, trailing_ones), after_token) = coeff_token_at(c);
    let after_signs = past_bits(after_token, trailing_ones as nat);
    let after_levels = past_all_levels(
        after_signs,
        (total_coeff - trailing_ones) as nat,
        trailing_ones as int,
    );
    let (total_zeros, after_zeros) = total_zeros_at(after_levels, total_coeff);
    if !after_token.ok || total_coeff == 0 {
        (Seq::new(16, |i: int| 0), after_token)
    } else {
        let level = if trailing_ones == 1 {
            if after_token.bit().0 == 1 {
                -1
            } else {
                1
            }
        } else {
            first_level(level_at(after_signs, 0).0, 0)
        };
        (single_coefficient(total_zeros as int, level), after_zeros)
    }
}

/// Puts coefficients in scan order at their raster positions.
pub fn inverse_zigzag(scan: &[i32; 16]) -> (r: Block4x4)
    ensures
        forall|i: int| 0 <= i < 16 ==> r[ZIGZAG_4X4[i] as int] == #[trigger] scan[i],
{
    let mut block: Block4x4 = [0i32; 16];
    for i in 0..16usize
        invariant
            forall|j: int| 0 <= j < i ==> block[ZIGZAG_4X4[j] as int] == #[trigger] scan[j],
    {
        let target: usize = ZIGZAG_4X4[i];
        assert(target < 16);
        block[target] = scan[i];
        assert forall|j: int| 0 <= j < i + 1 implies block[ZIGZAG_4X4[j] as int]
            == #[trigger] scan[j] by {
            zigzag_is_a_permutation(i as int, j);
        }
    }
    block
}

/// The scan order visits each raster position exactly once.
pub proof fn zigzag_is_a_permutation(i: int, j: int)
    requires
        0 <= i < 16,
        0 <= j < 16,
    ensures
        0 <= ZIGZAG_4X4[i] < 16,
        ZIGZAG_4X4[i] == ZIGZAG_4X4[j] ==> i == j,
{
}

fn find_code(table: &[Code], context: u8, len: u8, bits: u32) -> (r: Option<(u8, u8)>)
    ensures
        r == lookup(table@, context as int, len as int, bits as int, 0),
{
    let mut i: usize = 0;
    while i < table.len()
        invariant
            i <= table.len(),
            lookup(table@, context as int, len as int, bits as int, 0) == lookup(
                table@,
                context as int,
                len as int,
                bits as int,
                i as int,
            ),
        decreases table.len() - i,
    {
        let entry: Code = table[i];
        if entry.0 == context && entry.2 == len && entry.1 == bits {
            return Some((entry.3, entry.4));
        }
        i = i + 1;
    }
    None
}

fn read_code(br: &mut BitReader<'_>, table: &[Code], context: u8, max: u8) -> (r: Option<(u8, u8)>)
    requires
        max <= 32,
    ensures
        r is Some <==> code_at(old(br)@, table@, context as int, 0, max as int).1.ok,
        r is Some ==> r->0 == code_at(old(br)@, table@, context as int, 0, max as int).0,
        ({
            let c = code_at(old(br)@, table@, context as int, 0, max as int).1;
            final(br)@ == c.advanced(c.pos)
        }),
{
    let ghost start = br@;
    let mut bits: u64 = 0;
    let mut len: u8 = 0;
    while len < max
        invariant
            len <= max <= 32,
            start == old(br)@,
            start.ok,
            br@ == start.advanced(start.pos + len),
            bits == crate::h264::bits_value(start.data, start.pos, len as nat),
            code_at(start, table@, context as int, 0, max as int) == code_at(
                start,
                table@,
                context as int,
                len as int,
                max as int,
            ),
        decreases max - len,
    {
        proof {
            crate::h264::bits_value_bound(start.data, start.pos, len as nat);
            crate::h264::bits_value_bound(start.data, start.pos, (len + 1) as nat);
            crate::h264::pow2_small(len as nat);
            crate::h264::pow2_small((len + 1) as nat);
            crate::h264::bit_is_binary(start.data, start.pos + len);
        }
        match br.read_bit() {
            None => {
                return None;
            },
            Some(bit) => {
                bits = 2 * bits + bit as u64;
                len = len + 1;
            },
        }
        let found: Option<(u8, u8)> = find_code(table, context, len, bits as u32);
        if found.is_some() {
            return found;
        }
    }
    None
}

/// Counts zero bits up to the next one bit, at most `max` of them.
fn read_unary(br: &mut BitReader<'_>, max: u32) -> (r: Option<u32>)
    requires
        max < 100,
    ensures
        r is Some <==> unary_at(old(br)@, max as nat).1.ok,
        r is Some ==> r->0 == unary_at(old(br)@, max as nat).0 && r->0 <= max,
        ({
            let c = unary_at(old(br)@, max as nat).1;
            final(br)@ == c.advanced(c.pos)
        }),
{
    let ghost start = br@;
    let mut zeros: u32 = 0;
    loop
        invariant
            zeros <= max < 100,
            start == old(br)@,
            start.ok,
            br@ == start.advanced(start.pos + zeros),
            crate::h264::zero_run(start.data, start.pos) == zeros + crate::h264::zero_run(
                start.data,
                start.pos + zeros,
            ),
        decreases max + 1 - zeros,
    {
        proof {
            crate::h264::bit_is_binary(start.data, start.pos + zeros);
        }
        match br.read_bit() {
            None => {
                return None;
            },
            Some(bit) => {
                if bit != 0 {
                    return Some(zeros);
                }
                zeros = zeros + 1;
                if zeros > max {
                    return None;
                }
            },
        }
    }
}

/// Reads the numbers of coefficients and of trailing ones of a block in a
/// sparse neighbourhood.
pub fn read_coeff_token_nc0(br: &mut BitReader<'_>) -> (r: Option<(u8, u8)>)
    ensures
        r is Some <==> coeff_token_at(old(br)@).1.ok,
        r is Some ==> r->0 == coeff_token_at(old(br)@).0,
        final(br)@ == coeff_token_at(old(br)@).1.advanced(coeff_token_at(old(br)@).1.pos),
{
    read_code(br, COEFF_TOKEN_NC0.as_slice(), 0, 14)
}

/// Reads one level. Prefixes of more than 25 zero bits are refused.
pub fn read_level(br: &mut BitReader<'_>, suffix_length: u8) -> (r: Option<i32>)
    requires
        suffix_length < 32,
    ensures
        r is Some <==> level_at(old(br)@, suffix_length).1.ok,
        r is Some ==> r->0 == level_at(old(br)@, suffix_length).0,
        ({
            let c = level_at(old(br)@, suffix_length).1;
            final(br)@ == c.advanced(c.pos)
        }),
{
    let ghost start = br@;
    let prefix: u32 = read_unary(br, 25)?;
    let n: u32 = if prefix >= 15 {
        prefix - 3
    } else if prefix == 14 && suffix_length == 0 {
        4
    } else {
        suffix_length as u32
    };
    let ghost middle = br@;
    let suffix: u32 = br.read_bits(n)?;
    let high: u32 = if prefix < 15 {
        prefix
    } else {
        15
    };
    let scale: u64 = power_of_two(suffix_length);
    proof {
        crate::h264::bits_value_bound(middle.data, middle.pos, n as nat);
        vstd::arithmetic::power2::lemma2_to64();
        shifted_leaves_room(high as int, suffix_length as nat);
        escapes_leave_room(suffix_length as nat);
        assert(high * scale <= 15 * 0x8000_0000) by (nonlinear_arith)
            requires
                high <= 15,
                scale <= 0x8000_0000,
        ;
    }
    let shifted: u64 = (high as u64 * scale) % 0x1_0000_0000;
    let start: u64 = if prefix >= 15 && suffix_length == 0 {
        15
    } else {
        0
    };
    let offset: u64 = if prefix >= 16 {
        let width: u64 = power_of_two((prefix - 3) as u8);
        proof {
            vstd::arithmetic::power2::lemma2_to64();
            small_widths((prefix - 3) as nat);
        }
        start + (width - 4096)
    } else {
        start
    };
    let code: u32 = (shifted + suffix as u64 + offset) as u32;
    let half: u32 = code / 2;
    Some(
        if code % 2 == 1 {
            if half == 0x7FFF_FFFF {
                i32::MIN
            } else {
                -(half as i32 + 1)
            }
        } else if half == 0x7FFF_FFFF {
            i32::MIN
        } else {
            half as i32 + 1
        },
    )
}

fn power_of_two(n: u8) -> (r: u64)
    requires
        n < 32,
    ensures
        r == vstd::arithmetic::power2::pow2(n as nat),
        r <= 0x8000_0000,
{
    let mut v: u64 = 1;
    let mut i: u8 = 0;
    proof {
        vstd::arithmetic::power2::lemma2_to64();
    }
    while i < n
        invariant
            i <= n < 32,
            v == vstd::arithmetic::power2::pow2(i as nat),
            v <= 0x8000_0000,
        decreases n - i,
    {
        v = v * 2;
        i = i + 1;
        proof {
            vstd::arithmetic::power2::lemma_pow2_unfold(i as nat);
            crate::h264::pow2_small(i as nat);
        }
    }
    v
}

/// A multiple of a power of two, reduced to 32 bits, leaves room for a number
/// of that many bits.
proof fn shifted_leaves_room(prefix: int, n: nat)
    requires
        0 <= prefix,
        n < 32,
    ensures
        (prefix * vstd::arithmetic::power2::pow2(n)) % 0x1_0000_0000
            + vstd::arithmetic::power2::pow2(n) <= 0x1_0000_0000,
{
    let p = vstd::arithmetic::power2::pow2(n) as int;
    let q = vstd::arithmetic::power2::pow2((32 - n) as nat) as int;
    vstd::arithmetic::power2::lemma2_to64();
    vstd::arithmetic::power2::lemma_pow2_adds(n, (32 - n) as nat);
    vstd::arithmetic::power2::lemma_pow2_pos(n);
    vstd::arithmetic::power2::lemma_pow2_pos((32 - n) as nat);
    assert(p * q == 0x1_0000_0000);
    vstd::arithmetic::div_mod::lemma_truncate_middle(prefix, p, q);
    assert(prefix * p == p * prefix) by (nonlinear_arith);
    let m = prefix % q;
    assert(0 <= m <= q - 1);
    assert(p * m + p <= p * q) by (nonlinear_arith)
        requires
            0 <= m <= q - 1,
            p > 0,
    ;
}

/// The widths of escape suffixes.
proof fn small_widths(n: nat)
    requires
        12 <= n <= 22,
    ensures
        4096 <= vstd::arithmetic::power2::pow2(n) <= 0x40_0000,
{
    vstd::arithmetic::power2::lemma2_to64();
}

/// The largest prefix, shifted within 32 bits, leaves room for an escape.
proof fn escapes_leave_room(n: nat)
    requires
        n < 32,
    ensures
        (15 * vstd::arithmetic::power2::pow2(n)) % 0x1_0000_0000 <= 0xF000_0000,
{
    vstd::arithmetic::power2::lemma2_to64();
}

/// Reads the number of zeros before the last of `total_coeff` coefficients.
/// There are codes for a single coefficient only.
pub fn read_total_zeros(br: &mut BitReader<'_>, total_coeff: u8) -> (r: Option<u8>)
    ensures
        r is Some <==> total_zeros_at(old(br)@, total_coeff).1.ok,
        r is Some ==> r->0 == total_zeros_at(old(br)@, total_coeff).0,
        ({
            let c = total_zeros_at(old(br)@, total_coeff).1;
            final(br)@ == c.advanced(c.pos)
        }),
{
    if total_coeff == 0 {
        return Some(0);
    }
    let code: (u8, u8) = read_code(br, TOTAL_ZEROS_4X4.as_slice(), total_coeff, 9)?;
    Some(code.0)
}

/// Reads the run of zeros before a coefficient.
pub fn read_run_before(br: &mut BitReader<'_>, zeros_left: u8) -> (r: Option<u8>)
    ensures
        r is Some <==> run_before_at(old(br)@, zeros_left).1.ok,
        r is Some ==> r->0 == run_before_at(old(br)@, zeros_left).0,
        ({
            let c = run_before_at(old(br)@, zeros_left).1;
            final(br)@ == c.advanced(c.pos)
        }),
{
    if zeros_left == 0 {
        return Some(0);
    }
    if zeros_left <= 6 {
        let max: u8 = if zeros_left <= 3 {
            2
        } else {
            3
        };
        let code: (u8, u8) = read_code(br, RUN_BEFORE_TABLE.as_slice(), zeros_left, max)?;
        return Some(code.0);
    }
    let zeros: u32 = read_unary(br, 14)?;
    Some(zeros as u8)
}

/// `table` has an entry with this context that stands for `value`.
pub open spec fn table_holds(table: Seq<Code>, context: int, value: (u8, u8)) -> bool {
    exists|j: int|
        0 <= j < table.len() && #[trigger] table[j].0 == context && value == (table[j].3, table[j].4)
}

proof fn lookup_finds_entry(table: Seq<Code>, context: int, len: int, bits: int, i: int)
    requires
        0 <= i,
    ensures
        lookup(table, context, len, bits, i) matches Some(value) ==> table_holds(
            table,
            context,
            value,
        ),
    decreases table.len() - i,
{
    if i < table.len() && !(table[i].0 == context && table[i].2 == len && table[i].1 == bits) {
        lookup_finds_entry(table, context, len, bits, i + 1);
    } else if i < table.len() {
        assert(table[i].0 == context);
    }
}

proof fn code_comes_from_table(c: Cursor, table: Seq<Code>, context: int, n: int, max: int)
    requires
        0 <= n,
    ensures
        code_at(c, table, context, n, max).1.ok ==> table_holds(
            table,
            context,
            code_at(c, table, context, n, max).0,
        ),
    decreases max - n,
{
    let bits = crate::h264::bits_value(c.data, c.pos, (n + 1) as nat);
    if c.ok && n < max && c.pos + n < c.end() {
        lookup_finds_entry(table, context, n + 1, bits, 0);
        if lookup(table, context, n + 1, bits, 0) is None {
            code_comes_from_table(c, table, context, n + 1, max);
        }
    }
}

/// A token announces at most four coefficients, and no more trailing ones than
/// coefficients.
pub proof fn tokens_are_small(c: Cursor)
    ensures
        coeff_token_at(c).1.ok ==> {
            let (total_coeff, trailing_ones) = coeff_token_at(c).0;
            total_coeff <= 4 && trailing_ones <= 3 && trailing_ones <= total_coeff
        },
{
    code_comes_from_table(c, COEFF_TOKEN_NC0@, 0, 0, 14);
    assert forall|j: int| 0 <= j < 15 implies (#[trigger] COEFF_TOKEN_NC0@[j]).3 <= 4
        && COEFF_TOKEN_NC0@[j].4 <= 3 && COEFF_TOKEN_NC0@[j].4 <= COEFF_TOKEN_NC0@[j].3 by {}
}

/// The number of zeros can be read for a single coefficient only, and is at
/// most 15 then.
pub proof fn zeros_are_known_for_one_coefficient(c: Cursor, total_coeff: u8)
    requires
        total_coeff > 0,
        total_zeros_at(c, total_coeff).1.ok,
    ensures
        total_coeff == 1,
        total_zeros_at(c, total_coeff).0 <= 15,
{
    code_comes_from_table(c, TOTAL_ZEROS_4X4@, total_coeff as int, 0, 9);
    assert forall|j: int| 0 <= j < 16 implies (#[trigger] TOTAL_ZEROS_4X4@[j]).0 == 1
        && TOTAL_ZEROS_4X4@[j].3 <= 15 by {}
}

/// Blocks with more than one coefficient are never decoded.
pub proof fn crowded_blocks_are_refused(c: Cursor, total_coeff: u8, trailing_ones: u8)
    requires
        coeff_token_at(c).1.ok,
        coeff_token_at(c).0 == (total_coeff, trailing_ones),
        total_coeff > 1,
    ensures
        !residual_4x4_at(c).1.ok,
{
    let after_token = coeff_token_at(c).1;
    let after_signs = past_bits(after_token, trailing_ones as nat);
    let after_levels = past_all_levels(
        after_signs,
        (total_coeff - trailing_ones) as nat,
        trailing_ones as int,
    );
    if total_zeros_at(after_levels, total_coeff).1.ok {
        zeros_are_known_for_one_coefficient(after_levels, total_coeff);
    }
}

/// Bits at the start of a field of 16.
spec fn scaled(bits: int, len: int) -> int {
    if len == 1 {
        bits * 32768
    } else if len == 2 {
        bits * 16384
    } else if len == 3 {
        bits * 8192
    } else if len == 4 {
        bits * 4096
    } else if len == 5 {
        bits * 2048
    } else if len == 6 {
        bits * 1024
    } else if len == 7 {
        bits * 512
    } else if len == 8 {
        bits * 256
    } else if len == 9 {
        bits * 128
    } else if len == 10 {
        bits * 64
    } else if len == 11 {
        bits * 32
    } else if len == 12 {
        bits * 16
    } else if len == 13 {
        bits * 8
    } else if len == 14 {
        bits * 4
    } else if len == 15 {
        bits * 2
    } else {
        bits
    }
}

/// Two codes of a table of which neither is the start of the other.
spec fn apart(a: Code, b: Code) -> bool {
    ||| scaled(a.1 as int, a.2 as int) + scaled(1, a.2 as int) <= scaled(b.1 as int, b.2 as int)
    ||| scaled(b.1 as int, b.2 as int) + scaled(1, b.2 as int) <= scaled(a.1 as int, a.2 as int)
}

/// No code of a table is the start of another one with the same context.
spec fn prefix_free(table: Seq<Code>) -> bool {
    &&& forall|i: int| 0 <= i < table.len() ==> 1 <= #[trigger] table[i].2 <= 16
    &&& forall|i: int, j: int|
        0 <= i < j < table.len() && (#[trigger] table[i]).0 == (#[trigger] table[j]).0 ==> apart(
            table[i],
            table[j],
        )
}

proof fn longer_bits_lie_within(data: Seq<u8>, pos: int, n: nat, m: nat)
    requires
        1 <= n <= m <= 16,
    ensures
        ({
            let short = crate::h264::bits_value(data, pos, n);
            let long = crate::h264::bits_value(data, pos, m);
            &&& scaled(short, n as int) <= scaled(long, m as int)
            &&& scaled(long, m as int) + scaled(1, m as int) <= scaled(short, n as int) + scaled(
                1,
                n as int,
            )
        }),
    decreases m,
{
    if n < m {
        longer_bits_lie_within(data, pos, n, (m - 1) as nat);
        crate::h264::bit_is_binary(data, pos + m - 1);
    }
}

proof fn other_codes_do_not_match(c: Cursor, table: Seq<Code>, j: int, len: int, i: int)
    requires
        prefix_free(table),
        0 <= j < table.len(),
        0 <= i,
        1 <= len <= table[j].2,
        crate::h264::bits_value(c.data, c.pos, table[j].2 as nat) == table[j].1,
    ensures
        ({
            let bits = crate::h264::bits_value(c.data, c.pos, len as nat);
            let found = lookup(table, table[j].0 as int, len, bits, i);
            if i <= j && len == table[j].2 {
                found == Some((table[j].3, table[j].4))
            } else {
                found is None
            }
        }),
    decreases table.len() - i,
{
    let bits = crate::h264::bits_value(c.data, c.pos, len as nat);
    if i < table.len() {
        if i != j && table[i].0 == table[j].0 && table[i].2 == len && table[i].1 == bits {
            longer_bits_lie_within(c.data, c.pos, len as nat, table[j].2 as nat);
            assert(1 <= table[j].2 <= 16);
            if i < j {
                assert(apart(table[i], table[j]));
            } else {
                assert(apart(table[j], table[i]));
            }
        }
        other_codes_do_not_match(c, table, j, len, i + 1);
    }
}

/// A code of a table stands at a cursor.
pub open spec fn stands_at(c: Cursor, code: Code) -> bool {
    &&& c.ok
    &&& c.pos + code.2 <= c.end()
    &&& crate::h264::bits_value(c.data, c.pos, code.2 as nat) == code.1
}

proof fn code_is_read(c: Cursor, table: Seq<Code>, j: int, n: int, max: int)
    requires
        prefix_free(table),
        0 <= j < table.len(),
        stands_at(c, table[j]),
        0 <= n < table[j].2 <= max,
    ensures
        code_at(c, table, table[j].0 as int, n, max) == (
            (table[j].3, table[j].4),
            c.advanced(c.pos + table[j].2),
        ),
    decreases max - n,
{
    other_codes_do_not_match(c, table, j, n + 1, 0);
    if n + 1 < table[j].2 {
        code_is_read(c, table, j, n + 1, max);
    }
}

#[verifier::rlimit(40)]
proof fn tokens_are_apart()
    ensures
        prefix_free(COEFF_TOKEN_NC0@),
{
    assert forall|i: int, j: int| 0 <= i < j < 15 implies apart(
        #[trigger] COEFF_TOKEN_NC0@[i],
        #[trigger] COEFF_TOKEN_NC0@[j],
    ) by {}
}

#[verifier::rlimit(40)]
proof fn zero_counts_are_apart()
    ensures
        prefix_free(TOTAL_ZEROS_4X4@),
{
    assert forall|i: int, j: int| 0 <= i < j < 16 implies apart(
        #[trigger] TOTAL_ZEROS_4X4@[i],
        #[trigger] TOTAL_ZEROS_4X4@[j],
    ) by {}
}

#[verifier::rlimit(40)]
proof fn runs_are_apart()
    ensures
        prefix_free(RUN_BEFORE_TABLE@),
{
    assert forall|i: int, j: int|
        0 <= i < j < 27 && RUN_BEFORE_TABLE@[i].0 == RUN_BEFORE_TABLE@[j].0 implies apart(
        #[trigger] RUN_BEFORE_TABLE@[i],
        #[trigger] RUN_BEFORE_TABLE@[j],
    ) by {}
}

/// Every code of the three tables is read as what it stands for, and nothing behind
/// it is.
pub proof fn codes_are_read(c: Cursor, j: int)
    ensures
        0 <= j < 15 && stands_at(c, COEFF_TOKEN_NC0@[j]) ==> coeff_token_at(c) == (
            (COEFF_TOKEN_NC0@[j].3, COEFF_TOKEN_NC0@[j].4),
            c.advanced(c.pos + COEFF_TOKEN_NC0@[j].2),
        ),
        0 <= j < 16 && stands_at(c, TOTAL_ZEROS_4X4@[j]) ==> total_zeros_at(c, 1) == (
            TOTAL_ZEROS_4X4@[j].3,
            c.advanced(c.pos + TOTAL_ZEROS_4X4@[j].2),
        ),
        0 <= j < 27 && stands_at(c, RUN_BEFORE_TABLE@[j]) ==> run_before_at(
            c,
            RUN_BEFORE_TABLE@[j].0,
        ) == (RUN_BEFORE_TABLE@[j].3 as int, c.advanced(c.pos + RUN_BEFORE_TABLE@[j].2)),
{
    if 0 <= j < 15 && stands_at(c, COEFF_TOKEN_NC0@[j]) {
        tokens_are_apart();
        code_is_read(c, COEFF_TOKEN_NC0@, j, 0, 14);
    }
    if 0 <= j < 16 && stands_at(c, TOTAL_ZEROS_4X4@[j]) {
        zero_counts_are_apart();
        code_is_read(c, TOTAL_ZEROS_4X4@, j, 0, 9);
    }
    if 0 <= j < 27 && stands_at(c, RUN_BEFORE_TABLE@[j]) {
        runs_are_apart();
        let max: int = if RUN_BEFORE_TABLE@[j].0 <= 3 {
            2
        } else {
            3
        };
        code_is_read(c, RUN_BEFORE_TABLE@, j, 0, max);
    }
}

/// The level codes of a prefix begin where those of the prefix before end.
pub proof fn level_codes_follow_one_another(suffix_length: u8, prefix: int)
    requires
        suffix_length <= 6,
        0 <= prefix < 25,
    ensures
        ({
            let n = vstd::arithmetic::power2::pow2(suffix_bits(suffix_length, prefix));
            level_code(suffix_length, prefix + 1, 0) == level_code(suffix_length, prefix, n - 1)
                + 1
        }),
{
    let p = vstd::arithmetic::power2::pow2(suffix_length as nat) as int;
    vstd::arithmetic::power2::lemma2_to64();
    assert(1 <= p <= 64);
    let high = if prefix < 15 {
        prefix
    } else {
        15
    };
    assert(0 <= high * p <= 15 * 64 && (high + 1) * p == high * p + p) by (nonlinear_arith)
        requires
            0 <= high <= 15,
            1 <= p <= 64,
    ;
    assert((high * p) % 0x1_0000_0000 == high * p);
    if prefix < 15 {
        assert(((high + 1) * p) % 0x1_0000_0000 == (high + 1) * p);
    } else {
        vstd::arithmetic::power2::lemma_pow2_unfold((prefix - 2) as nat);
    }
}

/// Reads the signs of `n` trailing ones; the result is the level of the last.
fn read_trailing_ones(br: &mut BitReader<'_>, n: u8) -> (r: Option<i32>)
    ensures
        r is Some <==> past_bits(old(br)@, n as nat).ok,
        r is Some && n == 1 ==> r->0 == (if old(br)@.bit().0 == 1 {
            -1int
        } else {
            1
        }),
        ({
            let c = past_bits(old(br)@, n as nat);
            final(br)@ == c.advanced(c.pos)
        }),
{
    let mut level: i32 = 0;
    let mut k: u8 = 0;
    while k < n
        invariant
            k <= n,
            past_bits(old(br)@, n as nat) == past_bits(br@, (n - k) as nat),
            k == 0 ==> br@ == old(br)@,
            n == 1 && k == 1 ==> level == (if old(br)@.bit().0 == 1 {
                -1int
            } else {
                1
            }),
        decreases n - k,
    {
        proof {
            reveal_with_fuel(past_bits, 2);
        }
        let sign: u8 = br.read_bit()?;
        level = if sign == 1 {
            -1
        } else {
            1
        };
        k = k + 1;
    }
    Some(level)
}

fn suffix_length_behind(suffix_length: u8, level: i32) -> (r: u8)
    requires
        suffix_length <= 6,
    ensures
        r == next_suffix_length(suffix_length, level as int),
        1 <= r <= 6,
{
    let n: u8 = if suffix_length == 0 {
        1
    } else {
        suffix_length
    };
    let limit: i64 = 3 * power_of_two(n - 1) as i64;
    if n < 6 && (level as i64 > limit || -(level as i64) > limit) {
        n + 1
    } else {
        n
    }
}

/// Reads the `n` levels that are no trailing ones; the result is the first.
fn read_levels(br: &mut BitReader<'_>, n: u8, trailing_ones: u8) -> (r: Option<i32>)
    ensures
        r is Some <==> past_all_levels(old(br)@, n as nat, trailing_ones as int).ok,
        r is Some && n > 0 ==> r->0 == first_level(level_at(old(br)@, 0).0, trailing_ones as int),
        ({
            let c = past_all_levels(old(br)@, n as nat, trailing_ones as int);
            final(br)@ == c.advanced(c.pos)
        }),
{
    if n == 0 {
        return Some(0);
    }
    let ghost start = br@;
    let coded: i32 = read_level(br, 0)?;
    proof {
        short_levels_are_moderate(start);
    }
    let level: i32 = if trailing_ones >= 3 {
        coded
    } else if coded > 0 {
        coded + 1
    } else {
        coded - 1
    };
    let mut suffix_length: u8 = suffix_length_behind(0, level);
    let mut k: u8 = 1;
    while k < n
        invariant
            1 <= k <= n,
            suffix_length <= 6,
            past_all_levels(old(br)@, n as nat, trailing_ones as int) == past_levels(
                br@,
                (n - k) as nat,
                suffix_length,
            ),
        decreases n - k,
    {
        proof {
            reveal_with_fuel(past_levels, 2);
        }
        let further: i32 = read_level(br, suffix_length)?;
        suffix_length = suffix_length_behind(suffix_length, further);
        k = k + 1;
    }
    Some(level)
}

/// Levels without a suffix length stay far from the limits of 32 bits.
proof fn short_levels_are_moderate(c: Cursor)
    ensures
        -0x100_0000 <= level_at(c, 0).0 <= 0x100_0000,
{
    let (prefix, next) = unary_at(c, 25);
    let n = suffix_bits(0, prefix);
    vstd::arithmetic::power2::lemma2_to64();
    if next.ok {
        crate::h264::bits_value_bound(next.data, next.pos, n);
    }
    if prefix >= 16 {
        small_widths((prefix - 3) as nat);
    }
}

/// Decodes one block of levels, not yet scaled, into raster order.
pub fn decode_residual_4x4_nc0(br: &mut BitReader<'_>) -> (r: Option<Block4x4>)
    ensures
        r is Some <==> residual_4x4_at(old(br)@).1.ok,
        r is Some ==> forall|i: int|
            0 <= i < 16 ==> #[trigger] r->0[i] == residual_4x4_at(old(br)@).0[i],
        ({
            let c = residual_4x4_at(old(br)@).1;
            final(br)@ == c.advanced(c.pos)
        }),
{
    let ghost start = br@;
    let (total_coeff, trailing_ones): (u8, u8) = read_coeff_token_nc0(br)?;
    proof {
        tokens_are_small(start);
    }
    if total_coeff == 0 {
        return Some([0i32; 16]);
    }
    let ones: i32 = read_trailing_ones(br, trailing_ones)?;
    let others: i32 = read_levels(br, total_coeff - trailing_ones, trailing_ones)?;
    let ghost after_levels = br@;
    let total_zeros: u8 = read_total_zeros(br, total_coeff)?;
    proof {
        zeros_are_known_for_one_coefficient(after_levels, total_coeff);
    }
    let mut scan: [i32; 16] = [0i32; 16];
    scan[total_zeros as usize] = if trailing_ones == 1 {
        ones
    } else {
        others
    };
    let block: Block4x4 = inverse_zigzag(&scan);
    assert forall|i: int| 0 <= i < 16 implies #[trigger] block[i] == residual_4x4_at(
        start,
    ).0[i] by {
        let j = zigzag_covers_the_block(i);
        assert(block[ZIGZAG_4X4[j] as int] == scan[j]);
        zigzag_is_a_permutation(j, total_zeros as int);
    }
    Some(block)
}

/// Each raster position is visited by the scan order.
pub proof fn zigzag_covers_the_block(i: int) -> (j: int)
    requires
        0 <= i < 16,
    ensures
        0 <= j < 16,
        ZIGZAG_4X4[j] == i,
{
    let scan_position: Seq<int> = seq![0, 1, 5, 6, 2, 4, 7, 12, 3, 8, 11, 13, 9, 10, 14, 15];
    scan_position[i]
}

/// The scan goes along the diagonals of the block one after the other, down the odd ones
/// and up the even ones.
pub proof fn scan_goes_along_the_diagonals(k: int)
    requires
        0 <= k < 15,
    ensures
        ({
            let (x, y) = (ZIGZAG_4X4[k] % 4, ZIGZAG_4X4[k] / 4);
            let (u, v) = (ZIGZAG_4X4[k + 1] % 4, ZIGZAG_4X4[k + 1] / 4);
            &&& u + v == x + y || u + v == x + y + 1
            &&& u + v == x + y && (x + y) % 2 == 1 ==> v == y + 1
            &&& u + v == x + y && (x + y) % 2 == 0 ==> u == x + 1
            &&& u + v == x + y + 1 ==> (x == 0 || y == 0 || x == 3 || y == 3) && (u == x || v == y)
        }),
        ZIGZAG_4X4[0] == 0,
        ZIGZAG_4X4[1] == 1,
{
    assert(k == 0 || k == 1 || k == 2 || k == 3 || k == 4 || k == 5 || k == 6 || k == 7 || k == 8
        || k == 9 || k == 10 || k == 11 || k == 12 || k == 13 || k == 14);
}

/// The number of zeros before a single coefficient: none has the shortest code, and
/// from there on each two numbers have one bit more, of which the last is set for the
/// smaller one. The largest number has the one code that is left.
pub proof fn zero_counts_have_regular_codes(v: int)
    requires
        0 <= v < 16,
    ensures
        ({
            let code = TOTAL_ZEROS_4X4[v];
            &&& code.0 == 1
            &&& code.3 == v
            &&& v == 0 ==> code.2 == 1 && code.1 == 1
            &&& 1 <= v <= 14 ==> code.2 == (v + 5) / 2 && code.1 == 2 + v % 2
            &&& v == 15 ==> code.2 == 9 && code.1 == 1
        }),
{
    assert(v == 0 || v == 1 || v == 2 || v == 3 || v == 4 || v == 5 || v == 6 || v == 7 || v == 8
        || v == 9 || v == 10 || v == 11 || v == 12 || v == 13 || v == 14 || v == 15);
}

/// The entry for a run of `v` zeros where `left` are left.
pub open spec fn run_entry(left: int, v: int) -> int {
    left * (left + 1) / 2 - 1 + v
}

/// Runs of zeros: each number from none to all that are left has a code. Where up to
/// five are left, a longer run has a code that comes earlier in the order of the bits,
/// and is not shorter. Where six are left, none has two bits and the others three.
pub proof fn runs_have_regular_codes(left: int, v: int)
    requires
        1 <= left <= 6,
        0 <= v <= left,
    ensures
        0 <= run_entry(left, v) < 27,
        RUN_BEFORE_TABLE[run_entry(left, v)].0 == left,
        RUN_BEFORE_TABLE[run_entry(left, v)].3 == v,
        left <= 5 && v < left ==> ({
            let (a, b) = (
                RUN_BEFORE_TABLE[run_entry(left, v)],
                RUN_BEFORE_TABLE[run_entry(left, v + 1)],
            );
            &&& a.2 <= b.2 <= a.2 + 1
            &&& a.2 == b.2 ==> a.1 == b.1 + 1
            &&& a.2 < b.2 ==> 2 * a.1 == b.1 + 1
        }),
        left <= 5 && v == left ==> RUN_BEFORE_TABLE[run_entry(left, v)].1 == 0,
        left == 6 ==> RUN_BEFORE_TABLE[run_entry(left, v)].2 == if v == 0 {
            2int
        } else {
            3
        },
        left == 6 ==> RUN_BEFORE_TABLE[run_entry(left, v)].1 == if v == 0 {
            3int
        } else if v == 1 || v == 2 {
            v - 1
        } else if v == 3 || v == 4 {
            6 - v
        } else {
            10 - v
        },
{
    assert(left == 1 || left == 2 || left == 3 || left == 4 || left == 5 || left == 6);
    assert(v == 0 || v == 1 || v == 2 || v == 3 || v == 4 || v == 5 || v == 6);
    assert(1int * (1 + 1) / 2 == 1 && 2int * (2 + 1) / 2 == 3 && 3int * (3 + 1) / 2 == 6);
    assert(4int * (4 + 1) / 2 == 10 && 5int * (5 + 1) / 2 == 15 && 6int * (6 + 1) / 2 == 21);
}

/// Tokens: of as many coefficients, those with more trailing ones have shorter codes; of
/// codes of the same length, those for more coefficients come earlier in the order of
/// the bits.
pub proof fn likely_tokens_have_short_codes(i: int, j: int)
    requires
        0 <= i < 15,
        0 <= j < 15,
    ensures
        ({
            let (a, b) = (COEFF_TOKEN_NC0[i], COEFF_TOKEN_NC0[j]);
            &&& a.0 == 0
            &&& a.4 <= a.3 <= 4 && a.4 <= 3
            &&& a.3 == b.3 && a.4 > b.4 ==> a.2 < b.2
            &&& a.2 == b.2 && a.3 < b.3 ==> a.1 > b.1
            &&& a.4 == b.4 && a.4 > 1 && a.3 < b.3 ==> a.2 < b.2
            &&& a.3 == 0 ==> a.1 == 1 && a.2 == 1
        }),
{
    assert(i == 0 || i == 1 || i == 2 || i == 3 || i == 4 || i == 5 || i == 6 || i == 7 || i == 8
        || i == 9 || i == 10 || i == 11 || i == 12 || i == 13 || i == 14);
    assert(j == 0 || j == 1 || j == 2 || j == 3 || j == 4 || j == 5 || j == 6 || j == 7 || j == 8
        || j == 9 || j == 10 || j == 11 || j == 12 || j == 13 || j == 14);
}

/// Level codes count 1, -1, 2, -2, and so on: no level is zero, and each two codes stand
/// for a level and its opposite.
pub proof fn level_codes_alternate(k: int)
    requires
        0 <= k < i32::MAX,
    ensures
        level_of(2 * k) == k + 1,
        level_of(2 * k + 1) == -(k + 1),
{
}

/// The first level behind fewer than three trailing ones is no one: it lies one further
/// from zero than it is coded. Behind three it may be.
pub proof fn first_levels_are_no_ones(level: int, trailing_ones: int)
    requires
        level != 0,
    ensures
        0 <= trailing_ones < 3 ==> (level > 0 ==> first_level(level, trailing_ones) == level + 1)
            && (level < 0 ==> first_level(level, trailing_ones) == level - 1),
        trailing_ones == 3 ==> first_level(level, trailing_ones) == level,
{
}

/// Suffixes grow with the levels, to six bits at most: behind a level of more than 3, 6,
/// 12, 24 or 48 they have a bit more.
pub proof fn suffixes_grow_with_the_levels(level: int)
    ensures
        ({
            let size = if level < 0 {
                -level
            } else {
                level
            };
            &&& next_suffix_length(0, level) == if size > 3 {
                2u8
            } else {
                1
            }
            &&& next_suffix_length(1, level) == next_suffix_length(0, level)
            &&& next_suffix_length(2, level) == if size > 6 {
                3u8
            } else {
                2
            }
            &&& next_suffix_length(3, level) == if size > 12 {
                4u8
            } else {
                3
            }
            &&& next_suffix_length(4, level) == if size > 24 {
                5u8
            } else {
                4
            }
            &&& next_suffix_length(5, level) == if size > 48 {
                6u8
            } else {
                5
            }
            &&& next_suffix_length(6, level) == 6
        }),
{
    vstd::arithmetic::power2::lemma2_to64();
}

proof fn written_code_stands(c: Cursor, code: Code, rest: Seq<int>)
    requires
        fields::stands_before(c, fields::digits(code.1 as int, code.2 as nat) + rest),
        code.1 < vstd::arithmetic::power2::pow2(code.2 as nat),
    ensures
        stands_at(c, code),
        fields::stands_before(c.advanced(c.pos + code.2), rest),
{
    fields::numbers_are_read(c, code.1 as int, code.2 as nat, rest);
}

proof fn zeros_stand(c: Cursor, n: nat, rest: Seq<int>)
    requires
        fields::stands_before(c, Seq::new(n, |i: int| 0int) + (seq![1int] + rest)),
    ensures
        crate::h264::zero_run(c.data, c.pos) == n,
        fields::stands_before(c.advanced(c.pos + n + 1), rest),
    decreases n,
{
    let bits = Seq::new(n, |i: int| 0int) + (seq![1int] + rest);
    assert(bits[n as int] == 1);
    assert(crate::h264::bit_at(c.data, c.pos + n) == 1);
    zero_run_to(c, n, bits, n);
    assert(crate::h264::zero_run(c.data, c.pos + n) == 0);
    let d = c.advanced(c.pos + n + 1);
    assert forall|i: int| 0 <= i < rest.len() implies crate::h264::bit_at(d.data, d.pos + i)
        == #[trigger] rest[i] by {
        assert(bits[n + 1 + i] == rest[i]);
        assert(crate::h264::bit_at(c.data, c.pos + (n + 1 + i)) == bits[n + 1 + i]);
    }
}

proof fn zero_run_to(c: Cursor, n: nat, bits: Seq<int>, k: nat)
    requires
        fields::stands_before(c, bits),
        k <= n < bits.len(),
        forall|i: int| 0 <= i < n ==> #[trigger] bits[i] == 0,
    ensures
        crate::h264::zero_run(c.data, c.pos) == k + crate::h264::zero_run(c.data, c.pos + k),
    decreases k,
{
    if k > 0 {
        zero_run_to(c, n, bits, (k - 1) as nat);
        assert(bits[k - 1] == 0);
        assert(crate::h264::bit_at(c.data, c.pos + (k - 1)) == 0);
    }
}

/// A block that holds a single one, positive or negative, behind a number of zeros: the
/// one is read back at its place of the scan, and nothing else.
pub proof fn single_ones_are_read(c: Cursor, negative: bool, zeros: int, i: int)
    requires
        0 <= zeros < 16,
        0 <= i < 16,
        fields::stands_before(
            c,
            fields::digits(1, 2) + (fields::flag(negative) + fields::digits(
                TOTAL_ZEROS_4X4@[zeros].1 as int,
                TOTAL_ZEROS_4X4@[zeros].2 as nat,
            )),
        ),
    ensures
        residual_4x4_at(c).1.ok,
        residual_4x4_at(c).0.len() == 16,
        residual_4x4_at(c).0[i] == if i == ZIGZAG_4X4[zeros] {
            if negative {
                -1int
            } else {
                1
            }
        } else {
            0
        },
{
    let code = TOTAL_ZEROS_4X4@[zeros];
    let e = Seq::<int>::empty();
    let r2 = fields::digits(code.1 as int, code.2 as nat);
    let r1 = fields::flag(negative) + r2;
    vstd::arithmetic::power2::lemma2_to64();
    zero_counts_have_regular_codes(zeros);
    assert(COEFF_TOKEN_NC0@[1] == (0u8, 0b01u32, 2u8, 1u8, 1u8));
    written_code_stands(c, COEFF_TOKEN_NC0@[1], r1);
    codes_are_read(c, 1);
    let c1 = c.advanced(c.pos + 2);
    fields::flags_are_read(c1, negative, r2);
    let c2 = c1.bit().1;
    reveal_with_fuel(past_bits, 2);
    assert(past_bits(c1, 1) == c2);
    assert(past_all_levels(c2, 0, 1) == c2);
    assert(r2 =~= r2 + e);
    short_codes_fit(code);
    written_code_stands(c2, code, e);
    codes_are_read(c2, zeros);
}

proof fn short_codes_fit(code: Code)
    requires
        code.2 == 1 && code.1 == 1 || 3 <= code.2 <= 9 && code.1 <= 3,
    ensures
        code.1 < vstd::arithmetic::power2::pow2(code.2 as nat),
{
    vstd::arithmetic::power2::lemma2_to64();
}

/// A block that holds a single level other than one, of up to eight, behind a number of
/// zeros: it is read back at its place of the scan, and nothing else.
pub proof fn single_levels_are_read(c: Cursor, prefix: int, zeros: int, i: int)
    requires
        0 <= prefix < 14,
        0 <= zeros < 16,
        0 <= i < 16,
        fields::stands_before(
            c,
            fields::digits(5, 14) + (Seq::new(prefix as nat, |k: int| 0int) + (seq![1int]
                + fields::digits(
                TOTAL_ZEROS_4X4@[zeros].1 as int,
                TOTAL_ZEROS_4X4@[zeros].2 as nat,
            ))),
        ),
    ensures
        residual_4x4_at(c).1.ok,
        residual_4x4_at(c).0[i] == if i == ZIGZAG_4X4[zeros] {
            if prefix % 2 == 0 {
                prefix / 2 + 2
            } else {
                -(prefix / 2 + 2)
            }
        } else {
            0
        },
{
    let code = TOTAL_ZEROS_4X4@[zeros];
    let e = Seq::<int>::empty();
    let r2 = fields::digits(code.1 as int, code.2 as nat);
    let r1 = Seq::new(prefix as nat, |k: int| 0int) + (seq![1int] + r2);
    vstd::arithmetic::power2::lemma2_to64();
    zero_counts_have_regular_codes(zeros);
    assert(COEFF_TOKEN_NC0@[3] == (0u8, 0b00000000000101u32, 14u8, 1u8, 0u8));
    written_code_stands(c, COEFF_TOKEN_NC0@[3], r1);
    codes_are_read(c, 3);
    let c1 = c.advanced(c.pos + 14);
    assert(past_bits(c1, 0) == c1);
    zeros_stand(c1, prefix as nat, r2);
    let c2 = c1.advanced(c1.pos + prefix + 1);
    assert(unary_at(c1, 25) == (prefix, c2));
    assert(suffix_bits(0, prefix) == 0);
    assert(c2.bits(0) == (0int, c2));
    assert(level_code(0, prefix, 0) == prefix);
    assert(level_at(c1, 0) == (level_of(prefix), c2));
    reveal_with_fuel(past_levels, 2);
    assert(past_all_levels(c1, 1, 0) == c2);
    assert(r2 =~= r2 + e);
    short_codes_fit(code);
    written_code_stands(c2, code, e);
    codes_are_read(c2, zeros);
}

} // verus!
