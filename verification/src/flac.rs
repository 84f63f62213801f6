//! FLAC: the stream marker and the STREAMINFO block, which give the sample
//! rate, the number of channels and the sample size of a stream.
use vstd::prelude::*;

use crate::bytes;

verus! {

/// The contents of a STREAMINFO block.
#[derive(Debug, Clone)]
pub struct FlacStreamInfo {
    pub min_block_size: u16,
    pub max_block_size: u16,
    pub min_frame_size: u32,
    pub max_frame_size: u32,
    pub sample_rate: u32,
    pub channels: u8,
    pub bits_per_sample: u8,
    pub total_samples: u64,
    pub md5: [u8; 16],
}

impl Default for FlacStreamInfo {
    fn default() -> (r: Self)
        ensures
            r.min_block_size == 0,
            r.max_block_size == 0,
            r.min_frame_size == 0,
            r.max_frame_size == 0,
            r.sample_rate == 0,
            r.channels == 0,
            r.bits_per_sample == 0,
            r.total_samples == 0,
            forall|i: int| 0 <= i < 16 ==> #[trigger] r.md5[i] == 0,
    {
        FlacStreamInfo {
            min_block_size: 0,
            max_block_size: 0,
            min_frame_size: 0,
            max_frame_size: 0,
            sample_rate: 0,
            channels: 0,
            bits_per_sample: 0,
            total_samples: 0,
            md5: [0u8; 16],
        }
    }
}

/// Whether `buf` starts with the marker `fLaC` and a whole STREAMINFO block:
/// type 0, and a length of at least 34 bytes.
pub open spec fn has_streaminfo(buf: Seq<u8>) -> bool {
    &&& buf.len() >= 42
    &&& buf.subrange(0, 4) == seq![0x66u8, 0x4Cu8, 0x61u8, 0x43u8]
    &&& buf[4] % 128 == 0
    &&& bytes::be_value(buf, 5, 3) >= 34
    &&& bytes::be_value(buf, 5, 3) + 8 <= buf.len()
}

/// `info` is what the 34 bytes at position 8 say. The fields of the bytes 10 to
/// 17 of the block are 20 bits of sample rate, 3 bits of channels less one, 5
/// bits of sample size less one and 36 bits of sample count.
pub open spec fn streaminfo_holds(info: FlacStreamInfo, buf: Seq<u8>) -> bool {
    let s = buf.skip(8);
    &&& info.min_block_size == bytes::be_value(s, 0, 2)
    &&& info.max_block_size == bytes::be_value(s, 2, 2)
    &&& info.min_frame_size == bytes::be_value(s, 4, 3)
    &&& info.max_frame_size == bytes::be_value(s, 7, 3)
    &&& info.sample_rate == bytes::be_value(s, 10, 3) / 16
    &&& info.channels == (s[12] / 2) % 8 + 1
    &&& info.bits_per_sample == 16 * (s[12] % 2) + s[13] / 16 + 1
    &&& info.total_samples == 0x1_0000_0000 * (s[13] % 16) + bytes::be_value(s, 14, 4)
    &&& info.md5@ == s.subrange(18, 34)
}

/// Parses the STREAMINFO block at the start of a stream.
pub fn parse_streaminfo(buf: &[u8]) -> (r: Option<FlacStreamInfo>)
    ensures
        r is Some <==> has_streaminfo(buf@),
        r is Some ==> streaminfo_holds(r->0, buf@),
{
    if buf.len() < 42 {
        return None;
    }
    let marker: [u8; 4] = [0x66, 0x4C, 0x61, 0x43];
    assert(marker@ =~= seq![0x66u8, 0x4Cu8, 0x61u8, 0x43u8]);
    if !bytes::matches_at(buf, 0, marker.as_slice()) {
        return None;
    }
    if buf[4] % 128 != 0 {
        return None;
    }
    let block_len: u64 = bytes::read_be(buf, 5, 3);
    if block_len < 34 || block_len > (buf.len() - 8) as u64 {
        return None;
    }
    let s: &[u8] = vstd::slice::slice_subrange(buf, 8, buf.len());
    assert(s@ =~= buf@.skip(8));
    let mut md5: [u8; 16] = [0u8; 16];
    for i in 0..16usize
        invariant
            s@.len() >= 34,
            forall|j: int| 0 <= j < i ==> #[trigger] md5[j] == s@[18 + j],
    {
        md5[i] = s[18 + i];
    }
    assert(md5@ =~= s@.subrange(18, 34));
    proof {
        bytes::power_256_values();
    }
    Some(
        FlacStreamInfo {
            min_block_size: bytes::read_be(s, 0, 2) as u16,
            max_block_size: bytes::read_be(s, 2, 2) as u16,
            min_frame_size: bytes::read_be(s, 4, 3) as u32,
            max_frame_size: bytes::read_be(s, 7, 3) as u32,
            sample_rate: (bytes::read_be(s, 10, 3) / 16) as u32,
            channels: (s[12] / 2) % 8 + 1,
            bits_per_sample: 16 * (s[12] % 2) + s[13] / 16 + 1,
            total_samples: 0x1_0000_0000 * (s[13] % 16) as u64 + bytes::read_be(s, 14, 4),
            md5,
        },
    )
}

/// A stream has one to eight channels, one to 32 bits per sample and a rate of
/// at most 20 bits.
pub proof fn streaminfo_ranges(info: FlacStreamInfo, buf: Seq<u8>)
    requires
        has_streaminfo(buf),
        streaminfo_holds(info, buf),
    ensures
        1 <= info.channels <= 8,
        1 <= info.bits_per_sample <= 32,
        info.sample_rate < 0x10_0000,
        info.total_samples < 0x10_0000_0000,
{
    let s = buf.skip(8);
    bytes::power_256_values();
    bytes::be_extend_bound(0, s, 10, 3);
    bytes::be_extend_bound(0, s, 14, 4);
}

/// `v` in `n` bytes, the highest first.
pub open spec fn spelled(v: int, n: nat) -> Seq<u8>
    decreases n,
{
    if n == 0 {
        Seq::empty()
    } else {
        spelled(v / 0x100, (n - 1) as nat).push((v % 0x100) as u8)
    }
}

/// A stream as it is written: the marker, the header of the block, and the block.
pub open spec fn written_stream(info: FlacStreamInfo, last: bool) -> Seq<u8> {
    let rate = info.sample_rate as int;
    let depth = info.bits_per_sample - 1;
    seq![0x66u8, 0x4C, 0x61, 0x43] + (seq![
        if last {
            0x80u8
        } else {
            0
        },
    ] + (spelled(34, 3) + (spelled(info.min_block_size as int, 2) + (spelled(
        info.max_block_size as int,
        2,
    ) + (spelled(info.min_frame_size as int, 3) + (spelled(info.max_frame_size as int, 3) + (
    spelled(
        ((rate * 8 + (info.channels - 1)) * 32 + depth) * 16 + info.total_samples as int
            / 0x1_0000_0000,
        4,
    ) + (spelled(info.total_samples as int % 0x1_0000_0000, 4) + info.md5@))))))))
}

proof fn spelled_is_read(buf: Seq<u8>, i: int, v: int, n: nat)
    requires
        0 <= i,
        i + n <= buf.len(),
        0 <= v < bytes::power_256(n),
        buf.subrange(i, i + n) == spelled(v, n),
    ensures
        bytes::be_value(buf, i, n) == v,
        n > 0 ==> buf[i + n - 1] == v % 0x100,
        n > 1 ==> buf[i + n - 2] == v / 0x100 % 0x100,
    decreases n,
{
    if n > 0 {
        let m = (n - 1) as nat;
        let part = buf.subrange(i, i + n);
        spelled_length(v / 0x100, m);
        assert(part == spelled(v / 0x100, m).push((v % 0x100) as u8));
        assert(part[n - 1] == buf[i + n - 1]);
        assert(buf.subrange(i, i + m) =~= part.take(m as int));
        assert(part.take(m as int) =~= spelled(v / 0x100, m));
        spelled_is_read(buf, i, v / 0x100, m);
    }
}

proof fn spelled_length(v: int, n: nat)
    ensures
        spelled(v, n).len() == n,
    decreases n,
{
    if n > 0 {
        spelled_length(v / 0x100, (n - 1) as nat);
    }
}

proof fn packed_fields(packed: int, rate: int, channels: int, depth: int, high: int)
    requires
        packed == ((rate * 8 + channels) * 32 + depth) * 16 + high,
        0 <= rate < 0x10_0000,
        0 <= channels < 8,
        0 <= depth < 32,
        0 <= high < 16,
    ensures
        0 <= packed < 0x1_0000_0000,
        packed / 0x100 / 16 == rate,
        packed / 0x100 % 0x100 / 2 % 8 == channels,
        16 * (packed / 0x100 % 0x100 % 2) + packed % 0x100 / 16 == depth,
        packed % 0x100 % 16 == high,
{
    let low = depth % 16;
    let top = depth / 16;
    assert(packed == 0x100 * (rate * 16 + channels * 2 + top) + (16 * low + high));
    assert(packed / 0x100 == rate * 16 + channels * 2 + top);
    assert(packed % 0x100 == 16 * low + high);
}

/// What the start of a stream says is read back, whatever follows.
pub proof fn written_streams_are_read(info: FlacStreamInfo, last: bool, rest: Seq<u8>)
    requires
        info.min_frame_size < 0x100_0000,
        info.max_frame_size < 0x100_0000,
        info.sample_rate < 0x10_0000,
        1 <= info.channels <= 8,
        1 <= info.bits_per_sample <= 32,
        info.total_samples < 0x10_0000_0000,
    ensures
        has_streaminfo(written_stream(info, last) + rest),
        streaminfo_holds(info, written_stream(info, last) + rest),
{
    let buf = written_stream(info, last) + rest;
    let s = buf.skip(8);
    let high = info.total_samples as int / 0x1_0000_0000;
    let low = info.total_samples as int % 0x1_0000_0000;
    let packed = ((info.sample_rate * 8 + (info.channels - 1)) * 32 + (info.bits_per_sample - 1))
        * 16 + high;
    packed_fields(
        packed,
        info.sample_rate as int,
        info.channels - 1,
        info.bits_per_sample - 1,
        high,
    );
    bytes::power_256_values();
    spelled_length(34, 3);
    spelled_length(info.min_block_size as int, 2);
    spelled_length(info.max_block_size as int, 2);
    spelled_length(info.min_frame_size as int, 3);
    spelled_length(info.max_frame_size as int, 3);
    spelled_length(packed, 4);
    spelled_length(low, 4);
    assert(buf.subrange(0, 4) =~= seq![0x66u8, 0x4C, 0x61, 0x43]);
    assert(buf.subrange(5, 8) =~= spelled(34, 3));
    assert(s.subrange(0, 2) =~= spelled(info.min_block_size as int, 2));
    assert(s.subrange(2, 4) =~= spelled(info.max_block_size as int, 2));
    assert(s.subrange(4, 7) =~= spelled(info.min_frame_size as int, 3));
    assert(s.subrange(7, 10) =~= spelled(info.max_frame_size as int, 3));
    assert(s.subrange(10, 14) =~= spelled(packed, 4));
    assert(s.subrange(14, 18) =~= spelled(low, 4));
    assert(s.subrange(18, 34) =~= info.md5@);
    spelled_is_read(buf, 5, 34, 3);
    spelled_is_read(s, 0, info.min_block_size as int, 2);
    spelled_is_read(s, 2, info.max_block_size as int, 2);
    spelled_is_read(s, 4, info.min_frame_size as int, 3);
    spelled_is_read(s, 7, info.max_frame_size as int, 3);
    spelled_is_read(s, 10, packed, 4);
    spelled_is_read(s, 14, low, 4);
    assert(bytes::be_value(s, 10, 4) == 0x100 * bytes::be_value(s, 10, 3) + s[13]);
}

} // verus!
