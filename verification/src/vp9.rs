//! VP9: the start of the uncompressed frame header, which tells profile, frame
//! type and, for key frames, the size of the frame.
use vstd::prelude::*;

use crate::h264::fields;
use crate::h264::{BitReader, Cursor};

verus! {

broadcast use crate::h264::reader_has_not_failed;

/// The fields of a frame header. Other frames than key frames have no size.
#[derive(Debug, Clone)]
pub struct Vp9Header {
    pub profile: u8,
    pub show_existing_frame: bool,
    pub key_frame: bool,
    pub width_minus_1: u16,
    pub height_minus_1: u16,
}

impl Default for Vp9Header {
    fn default() -> (r: Self)
        ensures
            r == header(0, false, false, 0, 0),
    {
        Vp9Header {
            profile: 0,
            show_existing_frame: false,
            key_frame: false,
            width_minus_1: 0,
            height_minus_1: 0,
        }
    }
}

pub open spec fn header(
    profile: int,
    show_existing_frame: bool,
    key_frame: bool,
    width_minus_1: int,
    height_minus_1: int,
) -> Vp9Header {
    Vp9Header {
        profile: profile as u8,
        show_existing_frame,
        key_frame,
        width_minus_1: width_minus_1 as u16,
        height_minus_1: height_minus_1 as u16,
    }
}

/// The word behind the start of every key frame.
pub const SYNC_CODE: u32 = 0x49_83_42;

/// Behind the colour configuration: the bit depth of the high profiles, the
/// colour space, and the range and subsampling as far as they are coded.
pub open spec fn past_color_config(c: Cursor, profile: int) -> Cursor {
    let c = if profile >= 2 {
        c.bits(1).1
    } else {
        c
    };
    let (space, c) = c.bits(3);
    let subsampling = profile == 1 || profile == 3;
    if space != 7 {
        let c = c.bits(1).1;
        if subsampling {
            c.bits(1).1.bits(1).1.bits(1).1
        } else {
            c
        }
    } else if subsampling {
        c.bits(1).1
    } else {
        c
    }
}

/// The header of a key frame whose sync code is at the cursor.
pub open spec fn key_frame_of(c: Cursor, profile: int) -> Option<Vp9Header> {
    let (sync, c) = c.bits(24);
    let c = past_color_config(c, profile);
    let (width, c) = c.bits(16);
    let (height, c) = c.bits(16);
    if !c.ok || sync != SYNC_CODE {
        None
    } else {
        Some(header(profile, false, true, width, height))
    }
}

/// The frame header at the start of `buf`. The bits of the profile are coded
/// with the low one first.
pub open spec fn header_of(buf: Seq<u8>) -> Option<Vp9Header> {
    let (frame_marker, c) = Cursor::start(buf).bits(2);
    let (low, c) = c.bits(1);
    let (high, c) = c.bits(1);
    let profile = low + 2 * high;
    let c = if profile == 3 {
        c.bits(1).1
    } else {
        c
    };
    let (existing, c) = c.bits(1);
    let (inter, after_type) = c.bits(1);
    let c3 = after_type.bits(1).1.bits(1).1;
    if buf.len() < 3 || !c.ok || frame_marker != 2 {
        None
    } else if existing == 1 {
        Some(header(profile, true, false, 0, 0))
    } else if !c3.ok {
        None
    } else if inter == 1 {
        Some(header(profile, false, false, 0, 0))
    } else {
        key_frame_of(c3, profile)
    }
}

proof fn bit_field_bound(c: Cursor, n: nat)
    requires
        n <= 32,
    ensures
        0 <= c.bits(n).0 < vstd::arithmetic::power2::pow2(n),
{
    crate::h264::bits_value_bound(c.data, c.pos, n);
    crate::h264::pow2_small(n);
}

fn skip_color_config(br: &mut BitReader<'_>, profile: u8) -> (r: Option<()>)
    ensures
        r is Some <==> past_color_config(old(br)@, profile as int).ok,
        r is Some ==> final(br)@ == past_color_config(old(br)@, profile as int),
{
    if profile >= 2 {
        br.read_bits(1)?;
    }
    let color_space: u32 = br.read_bits(3)?;
    let subsampling: bool = profile == 1 || profile == 3;
    if color_space != 7 {
        br.read_bits(1)?;
        if subsampling {
            br.read_bits(1)?;
            br.read_bits(1)?;
            br.read_bits(1)?;
        }
    } else if subsampling {
        br.read_bits(1)?;
    }
    Some(())
}

fn parse_key_frame(br: &mut BitReader<'_>, profile: u8) -> (r: Option<Vp9Header>)
    ensures
        r == key_frame_of(old(br)@, profile as int),
{
    let sync: u32 = br.read_bits(24)?;
    if sync != SYNC_CODE {
        return None;
    }
    skip_color_config(br, profile)?;
    let ghost before = br@;
    let width: u32 = br.read_bits(16)?;
    let ghost middle = br@;
    let height: u32 = br.read_bits(16)?;
    proof {
        bit_field_bound(before, 16);
        bit_field_bound(middle, 16);
        vstd::arithmetic::power2::lemma2_to64();
    }
    Some(
        Vp9Header {
            profile,
            show_existing_frame: false,
            key_frame: true,
            width_minus_1: width as u16,
            height_minus_1: height as u16,
        },
    )
}

/// Parses the start of a frame header. `None` if it is cut off, or if the frame
/// marker or the sync code is wrong.
pub fn parse_uncompressed_header(buf: &[u8]) -> (r: Option<Vp9Header>)
    ensures
        r == header_of(buf@),
{
    if buf.len() < 3 {
        return None;
    }
    let mut br: BitReader<'_> = BitReader::new(buf);
    let frame_marker: u32 = br.read_bits(2)?;
    if frame_marker != 2 {
        return None;
    }
    let ghost before = br@;
    let low: u32 = br.read_bits(1)?;
    let ghost middle = br@;
    let high: u32 = br.read_bits(1)?;
    proof {
        bit_field_bound(before, 1);
        bit_field_bound(middle, 1);
        vstd::arithmetic::power2::lemma2_to64();
    }
    let profile: u8 = (low + 2 * high) as u8;
    if profile == 3 {
        br.read_bits(1)?;
    }
    let show_existing_frame: bool = br.read_bits(1)? == 1;
    if show_existing_frame {
        return Some(
            Vp9Header {
                profile,
                show_existing_frame: true,
                key_frame: false,
                width_minus_1: 0,
                height_minus_1: 0,
            },
        );
    }
    let ghost at_type = br@;
    let inter: u32 = br.read_bits(1)?;
    br.read_bits(1)?;
    br.read_bits(1)?;
    proof {
        bit_field_bound(at_type, 1);
    }
    if inter != 0 {
        return Some(
            Vp9Header {
                profile,
                show_existing_frame: false,
                key_frame: false,
                width_minus_1: 0,
                height_minus_1: 0,
            },
        );
    }
    parse_key_frame(&mut br, profile)
}

/// Only key frames have a size, and a repeated frame is no key frame.
pub proof fn sizes_come_with_key_frames(buf: Seq<u8>)
    ensures
        header_of(buf) matches Some(h) ==> !h.key_frame ==> h.width_minus_1 == 0
            && h.height_minus_1 == 0,
        header_of(buf) matches Some(h) ==> h.show_existing_frame ==> !h.key_frame,
{
}

/// The start of a frame header as it is written, up to the flag for a repeated frame:
/// a marker, the two bits of the profile with the low one first, and in the highest
/// profile a reserved bit.
pub open spec fn written_start(profile: int) -> Seq<int> {
    fields::digits(2, 2) + (fields::flag(profile % 2 == 1) + (fields::flag(profile >= 2) + (
    if profile == 3 {
        fields::flag(false)
    } else {
        Seq::empty()
    })))
}

proof fn starts_are_read(c: Cursor, profile: int, rest: Seq<int>)
    requires
        0 <= profile <= 3,
        fields::stands_before(c, written_start(profile) + rest),
    ensures
        ({
            let (marker, c1) = c.bits(2);
            let (low, c2) = c1.bits(1);
            let (high, c3) = c2.bits(1);
            let c4 = if profile == 3 {
                c3.bits(1).1
            } else {
                c3
            };
            &&& marker == 2
            &&& low + 2 * high == profile
            &&& fields::stands_before(c4, rest)
        }),
{
    vstd::arithmetic::power2::lemma2_to64();
    let r3 = (if profile == 3 {
        fields::flag(false)
    } else {
        Seq::empty()
    }) + rest;
    let r2 = fields::flag(profile >= 2) + r3;
    let r1 = fields::flag(profile % 2 == 1) + r2;
    assert(written_start(profile) + rest =~= fields::digits(2, 2) + r1);
    fields::numbers_are_read(c, 2, 2, r1);
    let c1 = c.bits(2).1;
    fields::flags_are_read(c1, profile % 2 == 1, r2);
    let c2 = c1.bits(1).1;
    fields::flags_are_read(c2, profile >= 2, r3);
    let c3 = c2.bits(1).1;
    if profile == 3 {
        fields::flags_are_read(c3, false, rest);
    } else {
        assert(r3 =~= rest);
    }
}

/// A repeated frame is read as one of its profile.
pub proof fn repeated_frames_are_read(buf: Seq<u8>, profile: int)
    requires
        buf.len() >= 3,
        0 <= profile <= 3,
        fields::stands_before(Cursor::start(buf), written_start(profile) + fields::flag(true)),
    ensures
        header_of(buf) matches Some(h) && h.profile == profile && h.show_existing_frame
            && !h.key_frame,
{
    let e = Seq::<int>::empty();
    let c = Cursor::start(buf);
    starts_are_read(c, profile, fields::flag(true));
    let c1 = c.bits(2).1.bits(1).1.bits(1).1;
    let c2 = if profile == 3 {
        c1.bits(1).1
    } else {
        c1
    };
    assert(fields::flag(true) =~= fields::flag(true) + e);
    fields::flags_are_read(c2, true, e);
}

/// A frame that is not a key frame is read as one, whether it is shown or not.
pub proof fn other_frames_are_read(buf: Seq<u8>, profile: int, shown: bool, resilient: bool)
    requires
        buf.len() >= 3,
        0 <= profile <= 3,
        fields::stands_before(
            Cursor::start(buf),
            written_start(profile) + (fields::flag(false) + (fields::flag(true) + (fields::flag(
                shown,
            ) + fields::flag(resilient)))),
        ),
    ensures
        header_of(buf) matches Some(h) && h.profile == profile && !h.show_existing_frame
            && !h.key_frame,
{
    let e = Seq::<int>::empty();
    let r3 = fields::flag(resilient);
    let r2 = fields::flag(shown) + r3;
    let r1 = fields::flag(true) + r2;
    let r0 = fields::flag(false) + r1;
    let c = Cursor::start(buf);
    starts_are_read(c, profile, r0);
    let c1 = c.bits(2).1.bits(1).1.bits(1).1;
    let c2 = if profile == 3 {
        c1.bits(1).1
    } else {
        c1
    };
    fields::flags_are_read(c2, false, r1);
    let c3 = c2.bits(1).1;
    fields::flags_are_read(c3, true, r2);
    let c4 = c3.bits(1).1;
    fields::flags_are_read(c4, shown, r3);
    let c5 = c4.bits(1).1;
    assert(r3 =~= r3 + e);
    fields::flags_are_read(c5, resilient, e);
}

/// The colour configuration of a key frame as it is written: the high profiles have a
/// flag for the bit depth, and those of odd number tell the subsampling and have a
/// reserved bit. In the colour space 7 the range is not told, and the subsampling not
/// either.
pub open spec fn written_color(
    profile: int,
    deep: bool,
    space: int,
    full: bool,
    sub_x: bool,
    sub_y: bool,
) -> Seq<int> {
    (if profile >= 2 {
        fields::flag(deep)
    } else {
        Seq::empty()
    }) + (fields::digits(space, 3) + (if space == 7 {
        if profile % 2 == 1 {
            fields::flag(false)
        } else {
            Seq::empty()
        }
    } else {
        fields::flag(full) + (if profile % 2 == 1 {
            fields::flag(sub_x) + (fields::flag(sub_y) + fields::flag(false))
        } else {
            Seq::empty()
        })
    }))
}

proof fn colors_are_passed(
    c: Cursor,
    profile: int,
    deep: bool,
    space: int,
    full: bool,
    sub_x: bool,
    sub_y: bool,
    rest: Seq<int>,
)
    requires
        0 <= profile <= 3,
        0 <= space <= 7,
        fields::stands_before(
            c,
            written_color(profile, deep, space, full, sub_x, sub_y) + rest,
        ),
    ensures
        fields::stands_before(past_color_config(c, profile), rest),
{
    vstd::arithmetic::power2::lemma2_to64();
    let odd = profile % 2 == 1;
    let tail = if space == 7 {
        if odd {
            fields::flag(false) + rest
        } else {
            rest
        }
    } else if odd {
        fields::flag(full) + (fields::flag(sub_x) + (fields::flag(sub_y) + (fields::flag(false)
            + rest)))
    } else {
        fields::flag(full) + rest
    };
    let r0 = fields::digits(space, 3) + tail;
    let c0 = if profile >= 2 {
        c.bits(1).1
    } else {
        c
    };
    if profile >= 2 {
        assert(written_color(profile, deep, space, full, sub_x, sub_y) + rest =~= fields::flag(deep)
            + r0);
        fields::flags_are_read(c, deep, r0);
    } else {
        assert(written_color(profile, deep, space, full, sub_x, sub_y) + rest =~= r0);
    }
    fields::numbers_are_read(c0, space, 3, tail);
    let c1 = c0.bits(3).1;
    if space == 7 {
        if odd {
            fields::flags_are_read(c1, false, rest);
        }
    } else if odd {
        let r3 = fields::flag(false) + rest;
        let r2 = fields::flag(sub_y) + r3;
        let r1 = fields::flag(sub_x) + r2;
        fields::flags_are_read(c1, full, r1);
        let c2 = c1.bits(1).1;
        fields::flags_are_read(c2, sub_x, r2);
        let c3 = c2.bits(1).1;
        fields::flags_are_read(c3, sub_y, r3);
        let c4 = c3.bits(1).1;
        fields::flags_are_read(c4, false, rest);
    } else {
        fields::flags_are_read(c1, full, rest);
    }
}

/// A key frame that was written is read back with its profile and its size.
pub proof fn key_frames_are_read(
    buf: Seq<u8>,
    profile: int,
    shown: bool,
    resilient: bool,
    color: (bool, int, bool, bool, bool),
    width: u16,
    height: u16,
)
    requires
        buf.len() >= 3,
        0 <= profile <= 3,
        0 <= color.1 <= 7,
        fields::stands_before(
            Cursor::start(buf),
            written_start(profile) + (fields::flag(false) + (fields::flag(false) + (fields::flag(
                shown,
            ) + (fields::flag(resilient) + (fields::digits(0x498342, 24) + (written_color(
                profile,
                color.0,
                color.1,
                color.2,
                color.3,
                color.4,
            ) + (fields::digits(width as int, 16) + fields::digits(height as int, 16)))))))),
        ),
    ensures
        header_of(buf) matches Some(h) && h.profile == profile && !h.show_existing_frame
            && h.key_frame && h.width_minus_1 == width && h.height_minus_1 == height,
{
    vstd::arithmetic::power2::lemma2_to64();
    let e = Seq::<int>::empty();
    let r7 = fields::digits(height as int, 16);
    let r6 = fields::digits(width as int, 16) + r7;
    let r5 = written_color(profile, color.0, color.1, color.2, color.3, color.4) + r6;
    let r4 = fields::digits(0x498342, 24) + r5;
    let r3 = fields::flag(resilient) + r4;
    let r2 = fields::flag(shown) + r3;
    let r1 = fields::flag(false) + r2;
    let r0 = fields::flag(false) + r1;
    let c = Cursor::start(buf);
    starts_are_read(c, profile, r0);
    let c1 = c.bits(2).1.bits(1).1.bits(1).1;
    let c2 = if profile == 3 {
        c1.bits(1).1
    } else {
        c1
    };
    fields::flags_are_read(c2, false, r1);
    let c3 = c2.bits(1).1;
    fields::flags_are_read(c3, false, r2);
    let c4 = c3.bits(1).1;
    fields::flags_are_read(c4, shown, r3);
    let c5 = c4.bits(1).1;
    fields::flags_are_read(c5, resilient, r4);
    let c6 = c5.bits(1).1;
    fields::numbers_are_read(c6, 0x498342, 24, r5);
    let c7 = c6.bits(24).1;
    colors_are_passed(c7, profile, color.0, color.1, color.2, color.3, color.4, r6);
    let c8 = past_color_config(c7, profile);
    fields::numbers_are_read(c8, width as int, 16, r7);
    let c9 = c8.bits(16).1;
    assert(r7 =~= r7 + e);
    fields::numbers_are_read(c9, height as int, 16, e);
}

} // verus!
