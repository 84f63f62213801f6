//! Values of `nal_unit_type`, from H.264 table 7-1.
use vstd::prelude::*;

verus! {

pub const SLICE_NON_IDR: u8 = 1;

pub const SLICE_DATA_A: u8 = 2;

pub const SLICE_DATA_B: u8 = 3;

pub const SLICE_DATA_C: u8 = 4;

pub const SLICE_IDR: u8 = 5;

pub const SEI: u8 = 6;

pub const SPS: u8 = 7;

pub const PPS: u8 = 8;

pub const AUD: u8 = 9;

pub const END_OF_SEQUENCE: u8 = 10;

pub const END_OF_STREAM: u8 = 11;

} // verus!
