//! The Matroska element identifiers that the demuxer looks for.
use vstd::prelude::*;

verus! {

pub const SEGMENT: u64 = 0x1853_8067;

pub const INFO: u64 = 0x1549_A966;

pub const TIMESTAMP_SCALE: u64 = 0x2AD7_B1;

pub const DURATION: u64 = 0x4489;

pub const TRACKS: u64 = 0x1654_AE6B;

pub const TRACK_ENTRY: u64 = 0xAE;

pub const TRACK_NUMBER: u64 = 0xD7;

pub const TRACK_TYPE: u64 = 0x83;

pub const CODEC_ID: u64 = 0x86;

pub const VIDEO: u64 = 0xE0;

pub const PIXEL_WIDTH: u64 = 0xB0;

pub const PIXEL_HEIGHT: u64 = 0xBA;

pub const AUDIO: u64 = 0xE1;

pub const SAMPLING_FREQUENCY: u64 = 0xB5;

pub const CHANNELS: u64 = 0x9F;

pub const CLUSTER: u64 = 0x1F43_B675;

pub const TIMESTAMP: u64 = 0xE7;

pub const SIMPLE_BLOCK: u64 = 0xA3;

pub const BLOCK_GROUP: u64 = 0xA0;

pub const BLOCK: u64 = 0xA1;

} // verus!
