//! H.265: profile and level from the sequence parameter set.
use vstd::prelude::*;

verus! {

/// Profile and level of a sequence. Its size is coded further on and is not
/// read; it is reported as 0x0.
#[derive(Debug, Clone, Copy)]
pub struct H265Sps {
    pub profile_idc: u8,
    pub level_idc: u8,
    pub width: u32,
    pub height: u32,
}

/// The parameter set in a NAL unit of type 33, whose payload starts behind two
/// header bytes and is at least 14 bytes long.
pub open spec fn sps_of(nal: Seq<u8>) -> Option<H265Sps> {
    if nal.len() < 16 || (nal[0] / 2) % 64 != 33 {
        None
    } else {
        Some(H265Sps { profile_idc: (nal[3] % 32) as u8, level_idc: nal[14], width: 0, height: 0 })
    }
}

/// Parses a sequence parameter set.
pub fn parse_sps(nal: &[u8]) -> (r: Option<H265Sps>)
    ensures
        r == sps_of(nal@),
{
    if nal.len() < 5 {
        return None;
    }
    if (nal[0] / 2) % 64 != 33 {
        return None;
    }
    if nal.len() < 16 {
        return None;
    }
    Some(H265Sps { profile_idc: nal[3] % 32, level_idc: nal[14], width: 0, height: 0 })
}

/// Of a parameter set behind its two header bytes, the second byte holds the profile in
/// its lowest five bits and the thirteenth is the level. The other bytes do not matter,
/// and a shorter payload, or another type of unit, has neither.
pub proof fn payloads_hold_profile_and_level(
    kind: u8,
    flags: (u8, u8),
    before: u8,
    profile: u8,
    space: u8,
    middle: Seq<u8>,
    level: u8,
    rest: Seq<u8>,
)
    requires
        kind < 64,
        flags.0 < 2,
        profile < 32,
        space < 8,
        middle.len() == 10,
        rest.len() >= 1,
    ensures
        sps_of(
            seq![(2 * kind + 128 * flags.0) as u8, flags.1, before, (32 * space + profile) as u8]
                + (middle + (seq![level] + rest)),
        ) == (if kind == 33 {
            Some(H265Sps { profile_idc: profile, level_idc: level, width: 0, height: 0 })
        } else {
            None
        }),
        rest.len() >= 1 ==> sps_of(
            seq![(2 * kind + 128 * flags.0) as u8, flags.1, before, (32 * space + profile) as u8]
                + (middle + seq![level]),
        ) is None,
{
    let nal = seq![(2 * kind + 128 * flags.0) as u8, flags.1, before, (32 * space + profile) as u8]
        + (middle + (seq![level] + rest));
    assert(nal[14] == level);
    assert(nal[3] == 32 * space + profile);
    assert((32 * space + profile) % 32 == profile) by (nonlinear_arith)
        requires
            profile < 32,
    ;
    assert(nal[0] == 2 * kind + 128 * flags.0);
    assert((2 * kind + 128 * flags.0) / 2 == kind + 64 * flags.0);
}

} // verus!
