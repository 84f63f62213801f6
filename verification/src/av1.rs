//! AV1: the open bitstream unit that carries the sequence header.
use vstd::prelude::*;

use crate::bytes;

verus! {

/// Profile and size of a sequence.
#[derive(Debug, Clone, Copy)]
pub struct Av1Header {
    pub profile: u8,
    pub width: u32,
    pub height: u32,
}

/// The length of the LEB128 number at the start of `buf`: the position behind
/// the first byte without a continuation bit, among the first eight.
pub open spec fn leb128_len(buf: Seq<u8>, i: int) -> Option<int>
    decreases 8 - i,
{
    if i >= 8 || i >= buf.len() {
        None
    } else if buf[i] < 128 {
        Some(i + 1)
    } else {
        leb128_len(buf, i + 1)
    }
}

/// The number made of the low seven bits of the `n` bytes from `i` on, least
/// significant first.
pub open spec fn leb128_value(buf: Seq<u8>, i: int, n: nat) -> int
    decreases n,
{
    if n == 0 {
        0
    } else {
        buf[i] % 128 + 128 * leb128_value(buf, i + 1, (n - 1) as nat)
    }
}

/// Profile and size in the payload of a sequence header unit.
pub open spec fn header_of(p: Seq<u8>) -> Av1Header {
    Av1Header {
        profile: (p[0] / 32) as u8,
        width: (0x100 * p[2] + p[3] + 1) as u32,
        height: (0x100 * p[0] + p[1] + 1) as u32,
    }
}

/// The sequence header in `buf`: a unit of type 1, with its size behind the
/// header byte, and at least four bytes long.
pub open spec fn sequence_header_of(buf: Seq<u8>) -> Option<Av1Header> {
    let len = leb128_len(buf.skip(1), 0);
    let size = leb128_value(buf, 1, len->0 as nat);
    if buf.len() < 2 || (buf[0] / 8) % 16 != 1 || len is None || 1 + len->0 + size > buf.len()
        || size < 4 {
        None
    } else {
        Some(header_of(buf.skip(1 + len->0)))
    }
}

proof fn leb128_append(buf: Seq<u8>, i: int, n: nat)
    ensures
        leb128_value(buf, i, n + 1) == leb128_value(buf, i, n) + bytes::power_128(n) * (buf[i + n] % 128),
    decreases n,
{
    reveal_with_fuel(leb128_value, 2);
    reveal_with_fuel(bytes::power_128, 2);
    if n > 0 {
        leb128_append(buf, i + 1, (n - 1) as nat);
        let p = bytes::power_128((n - 1) as nat);
        let b = buf[i + n] % 128;
        assert(128 * (p * b) == (128 * p) * b) by (nonlinear_arith);
    }
}

/// Reads a LEB128 number of at most eight bytes behind the first byte: its
/// value and its length.
fn read_leb128(buf: &[u8]) -> (r: Option<(u64, usize)>)
    requires
        buf@.len() >= 1,
    ensures
        match r {
            None => leb128_len(buf@.skip(1), 0) is None,
            Some((value, n)) => leb128_len(buf@.skip(1), 0) == Some(n as int) && value
                == leb128_value(buf@, 1, n as nat),
        },
{
    let mut value: u64 = 0;
    let mut scale: u64 = 1;
    let mut i: usize = 0;
    proof {
        reveal_with_fuel(bytes::power_128, 9);
    }
    while i < 8 && i < buf.len() - 1
        invariant
            buf@.len() >= 1,
            i <= 8,
            i < buf@.len(),
            leb128_len(buf@.skip(1), 0) == leb128_len(buf@.skip(1), i as int),
            value == leb128_value(buf@, 1, i as nat),
            value < bytes::power_128(i as nat),
            i < 8 ==> scale == bytes::power_128(i as nat),
            bytes::power_128(i as nat) <= 0x100_0000_0000_0000,
            i < 8 ==> bytes::power_128(i as nat) <= 0x2_0000_0000_0000,
        decreases 8 - i,
    {
        let b: u8 = buf[1 + i];
        let low: u64 = (b % 128) as u64;
        assert(b == buf@.skip(1)[i as int]);
        proof {
            leb128_append(buf@, 1, i as nat);
            reveal_with_fuel(bytes::power_128, 9);
        }
        assert(value + scale * low < 128 * bytes::power_128(i as nat)) by (nonlinear_arith)
            requires
                scale == bytes::power_128(i as nat),
                value < bytes::power_128(i as nat),
                0 <= low <= 127,
        ;
        value = value + scale * low;
        i = i + 1;
        if b < 128 {
            return Some((value, i));
        }
        if i < 8 {
            scale = scale * 128;
        }
    }
    None
}

/// Reads profile and size from a sequence header unit.
pub fn parse_sequence_header(buf: &[u8]) -> (r: Option<Av1Header>)
    ensures
        r == sequence_header_of(buf@),
{
    if buf.len() < 2 {
        return None;
    }
    if (buf[0] / 8) % 16 != 1 {
        return None;
    }
    let (size, n): (u64, usize) = read_leb128(buf)?;
    proof {
        leb128_len_bound(buf@.skip(1), 0);
    }
    let start: usize = 1 + n;
    if size > (buf.len() - start) as u64 || size < 4 {
        return None;
    }
    Some(
        Av1Header {
            profile: buf[start] / 32,
            width: 0x100 * buf[start + 2] as u32 + buf[start + 3] as u32 + 1,
            height: 0x100 * buf[start] as u32 + buf[start + 1] as u32 + 1,
        },
    )
}

proof fn leb128_len_bound(buf: Seq<u8>, i: int)
    ensures
        leb128_len(buf, i) matches Some(n) ==> i < n <= buf.len() && n <= 8,
    decreases 8 - i,
{
    if i < 8 && i < buf.len() && buf[i] >= 128 {
        leb128_len_bound(buf, i + 1);
    }
}

/// A number as it is written: seven bits in each byte, the lowest first, and a
/// continuation bit in all but the last.
pub open spec fn written_leb128(v: int) -> Seq<u8>
    decreases v,
{
    if v < 128 {
        seq![v as u8]
    } else {
        seq![(128 + v % 128) as u8] + written_leb128(v / 128)
    }
}

proof fn written_numbers_are_read(v: int, n: nat, buf: Seq<u8>, i: int)
    requires
        0 <= v < bytes::power_128(n),
        1 <= n <= 8 - i,
        0 <= i,
        i + written_leb128(v).len() <= buf.len(),
        buf.subrange(i, i + written_leb128(v).len()) == written_leb128(v),
    ensures
        1 <= written_leb128(v).len() <= n,
        leb128_len(buf, i) == Some((i + written_leb128(v).len()) as int),
        leb128_value(buf, i, written_leb128(v).len()) == v,
    decreases n,
{
    let w = written_leb128(v);
    let part = buf.subrange(i, i + w.len());
    reveal_with_fuel(leb128_value, 2);
    reveal_with_fuel(bytes::power_128, 2);
    if v < 128 {
        assert(part[0] == buf[i]);
    } else {
        let tail = written_leb128(v / 128);
        assert(w =~= seq![(128 + v % 128) as u8] + tail);
        assert(part[0] == buf[i]);
        if n == 1 {
            assert(bytes::power_128(1) == 128 * bytes::power_128(0));
            assert(false);
        }
        assert(w.len() == tail.len() + 1);
        assert(buf.subrange(i + 1, i + 1 + tail.len()) =~= part.skip(1));
        assert(part.skip(1) =~= tail);
        written_numbers_are_read(v / 128, (n - 1) as nat, buf, i + 1);
    }
}

/// A sequence header unit that was written, with its size, is read back: the first two
/// bytes of its payload hold the height, of which the highest three bits are the
/// profile, the next two the width, each less one.
pub proof fn written_units_are_read(
    lead: u8,
    width: int,
    height: int,
    more: Seq<u8>,
    rest: Seq<u8>,
)
    requires
        (lead / 8) % 16 == 1,
        1 <= width <= 0x1_0000,
        1 <= height <= 0x1_0000,
        more.len() + 4 < 0x100_0000_0000_0000,
    ensures
        sequence_header_of(
            seq![lead] + (written_leb128((more.len() + 4) as int) + (seq![
                ((height - 1) / 0x100) as u8,
                ((height - 1) % 0x100) as u8,
                ((width - 1) / 0x100) as u8,
                ((width - 1) % 0x100) as u8,
            ] + (more + rest))),
        ) matches Some(h) && h.width == width && h.height == height && h.profile == (height - 1)
            / 0x2000,
{
    let size = (more.len() + 4) as int;
    let w = written_leb128(size);
    let p = seq![
        ((height - 1) / 0x100) as u8,
        ((height - 1) % 0x100) as u8,
        ((width - 1) / 0x100) as u8,
        ((width - 1) % 0x100) as u8,
    ] + (more + rest);
    let buf = seq![lead] + (w + p);
    let tail = buf.skip(1);
    bytes::power_128_values();
    assert(tail =~= w + p);
    assert(tail.subrange(0, w.len() as int) =~= w);
    assert(buf.subrange(1, 1 + w.len() as int) =~= w);
    written_numbers_are_read(size, 8, tail, 0);
    shifted_value(buf, 0, w.len());
    assert(buf.skip(1 + w.len() as int) =~= p);
    assert((height - 1) / 0x100 / 32 == (height - 1) / 0x2000);
}

proof fn shifted_value(buf: Seq<u8>, i: int, n: nat)
    requires
        0 <= i,
        i + n + 1 <= buf.len(),
    ensures
        leb128_value(buf, i + 1, n) == leb128_value(buf.skip(1), i, n),
    decreases n,
{
    if n > 0 {
        shifted_value(buf, i + 1, (n - 1) as nat);
        assert(buf.skip(1)[i] == buf[i + 1]);
    }
}

} // verus!
