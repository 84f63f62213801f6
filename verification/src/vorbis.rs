//! Vorbis: the identification header, the first of the three header packets of
//! a stream.
use vstd::prelude::*;

use crate::bytes;

verus! {

/// The contents of an identification header.
#[derive(Debug, Clone)]
pub struct VorbisIdHeader {
    pub version: u32,
    pub channels: u8,
    pub sample_rate: u32,
    pub bitrate_maximum: i32,
    pub bitrate_nominal: i32,
    pub bitrate_minimum: i32,
}

impl Default for VorbisIdHeader {
    fn default() -> (r: Self)
        ensures
            r.version == 0,
            r.channels == 0,
            r.sample_rate == 0,
            r.bitrate_maximum == 0,
            r.bitrate_nominal == 0,
            r.bitrate_minimum == 0,
    {
        VorbisIdHeader {
            version: 0,
            channels: 0,
            sample_rate: 0,
            bitrate_maximum: 0,
            bitrate_nominal: 0,
            bitrate_minimum: 0,
        }
    }
}

/// The four bytes at `i` as a number, least significant byte first.
pub open spec fn le_value(s: Seq<u8>, i: int) -> int {
    s[i] + 0x100 * s[i + 1] + 0x1_0000 * s[i + 2] + 0x100_0000 * s[i + 3]
}

/// The signed number that 32 bits stand for in two's complement.
pub open spec fn as_signed(v: int) -> int {
    if v >= 0x8000_0000 {
        v - 0x1_0000_0000
    } else {
        v
    }
}

/// Whether `buf` starts with an identification header: packet type 1 and the
/// word `vorbis`, 30 bytes in all.
pub open spec fn has_id_header(buf: Seq<u8>) -> bool {
    &&& buf.len() >= 30
    &&& buf[0] == 1
    &&& buf.subrange(1, 7) == seq![0x76u8, 0x6Fu8, 0x72u8, 0x62u8, 0x69u8, 0x73u8]
}

/// `h` is what an identification header says.
pub open spec fn id_header_holds(h: VorbisIdHeader, buf: Seq<u8>) -> bool {
    &&& h.version == le_value(buf, 7)
    &&& h.channels == buf[11]
    &&& h.sample_rate == le_value(buf, 12)
    &&& h.bitrate_maximum == as_signed(le_value(buf, 16))
    &&& h.bitrate_nominal == as_signed(le_value(buf, 20))
    &&& h.bitrate_minimum == as_signed(le_value(buf, 24))
}

fn signed(v: u32) -> (r: i32)
    ensures
        r == as_signed(v as int),
{
    if v >= 0x8000_0000 {
        ((v - 0x8000_0000) as i32) + i32::MIN
    } else {
        v as i32
    }
}

/// Parses an identification header packet.
pub fn parse_id_header(buf: &[u8]) -> (r: Option<VorbisIdHeader>)
    ensures
        r is Some <==> has_id_header(buf@),
        r is Some ==> id_header_holds(r->0, buf@),
{
    if buf.len() < 30 {
        return None;
    }
    let word: [u8; 6] = [0x76, 0x6F, 0x72, 0x62, 0x69, 0x73];
    assert(word@ =~= seq![0x76u8, 0x6Fu8, 0x72u8, 0x62u8, 0x69u8, 0x73u8]);
    if buf[0] != 1 || !bytes::matches_at(buf, 1, word.as_slice()) {
        return None;
    }
    Some(
        VorbisIdHeader {
            version: bytes::read_le_32(buf, 7),
            channels: buf[11],
            sample_rate: bytes::read_le_32(buf, 12),
            bitrate_maximum: signed(bytes::read_le_32(buf, 16)),
            bitrate_nominal: signed(bytes::read_le_32(buf, 20)),
            bitrate_minimum: signed(bytes::read_le_32(buf, 24)),
        },
    )
}

/// `v` in four bytes, the lowest first; negative numbers in two's complement.
pub open spec fn spelled(v: int) -> Seq<u8> {
    seq![
        (v % 0x100) as u8,
        (v / 0x100 % 0x100) as u8,
        (v / 0x1_0000 % 0x100) as u8,
        (v / 0x100_0000 % 0x100) as u8,
    ]
}

/// An identification header as it is written, without the two bytes at its end.
pub open spec fn written_header(h: VorbisIdHeader) -> Seq<u8> {
    seq![1u8, 0x76, 0x6F, 0x72, 0x62, 0x69, 0x73] + (spelled(h.version as int) + (seq![h.channels]
        + (spelled(h.sample_rate as int) + (spelled(h.bitrate_maximum as int) + (spelled(
        h.bitrate_nominal as int,
    ) + spelled(h.bitrate_minimum as int))))))
}

proof fn spelled_is_read(buf: Seq<u8>, i: int, v: int)
    requires
        0 <= i,
        i + 4 <= buf.len(),
        buf.subrange(i, i + 4) == spelled(v),
        -0x8000_0000 <= v < 0x1_0000_0000,
    ensures
        v >= 0 ==> le_value(buf, i) == v,
        v < 0x8000_0000 ==> as_signed(le_value(buf, i)) == v,
{
    let w = buf.subrange(i, i + 4);
    assert(w[0] == buf[i] && w[1] == buf[i + 1] && w[2] == buf[i + 2] && w[3] == buf[i + 3]);
}

/// A header that was written is read back.
pub proof fn written_headers_are_read(h: VorbisIdHeader, rest: Seq<u8>)
    requires
        rest.len() >= 2,
    ensures
        has_id_header(written_header(h) + rest),
        id_header_holds(h, written_header(h) + rest),
{
    let buf = written_header(h) + rest;
    assert(buf.subrange(1, 7) =~= seq![0x76u8, 0x6Fu8, 0x72u8, 0x62u8, 0x69u8, 0x73u8]);
    assert(buf.subrange(7, 11) =~= spelled(h.version as int));
    assert(buf.subrange(12, 16) =~= spelled(h.sample_rate as int));
    assert(buf.subrange(16, 20) =~= spelled(h.bitrate_maximum as int));
    assert(buf.subrange(20, 24) =~= spelled(h.bitrate_nominal as int));
    assert(buf.subrange(24, 28) =~= spelled(h.bitrate_minimum as int));
    spelled_is_read(buf, 7, h.version as int);
    spelled_is_read(buf, 12, h.sample_rate as int);
    spelled_is_read(buf, 16, h.bitrate_maximum as int);
    spelled_is_read(buf, 20, h.bitrate_nominal as int);
    spelled_is_read(buf, 24, h.bitrate_minimum as int);
}

} // verus!
