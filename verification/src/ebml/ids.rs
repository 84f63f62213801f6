//! The most useful Matroska element identifiers.
use vstd::prelude::*;

verus! {

pub const EBML_HEADER: u64 = 0x1A45DFA3;

pub const SEGMENT: u64 = 0x18538067;

pub const SEEK_HEAD: u64 = 0x114D9B74;

pub const INFO: u64 = 0x1549A966;

pub const TRACKS: u64 = 0x1654AE6B;

pub const CLUSTER: u64 = 0x1F43B675;

/// Timestamp of a cluster.
pub const TIMESTAMP: u64 = 0xE7;

pub const SIMPLE_BLOCK: u64 = 0xA3;

pub const BLOCK_GROUP: u64 = 0xA0;

} // verus!
