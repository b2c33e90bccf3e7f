//! The version table: block size, payload size and Reed-Solomon flag of each
//! SBX version, and the constants shared by every block.

use vstd::prelude::*;

verus! {

/// Length of the file UID carried by every block.
pub const SBX_FILE_UID_LEN: usize = 6;

/// Length of the block header.
pub const SBX_HEADER_SIZE: usize = 16;

/// Block size of the largest version.
pub const SBX_LARGEST_BLOCK_SIZE: usize = 4096;

/// Sequence number of the first data block; 0 is the metadata block.
pub const SBX_FIRST_DATA_SEQ_NUM: u32 = 1;

/// Largest sequence number a header can hold.
pub const SBX_LAST_SEQ_NUM: u32 = 0xFFFF_FFFF;

/// Number of bytes the scanner reads before it commits to a whole block.
pub const SBX_SCAN_BLOCK_SIZE: usize = 128;

/// Fill byte after the last record of a metadata block.
pub const SBX_PADDING_BYTE: u8 = 0x1A;

/// The versions of the block format.
#[derive(Clone, Copy, Debug, PartialEq, Eq, Structural)]
pub enum Version {
    V1,
    V2,
    V3,
    V17,
    V18,
    V19,
}

/// The byte that stands for a version in a header.
pub open spec fn version_byte(version: Version) -> u8 {
    match version {
        Version::V1 => 1,
        Version::V2 => 2,
        Version::V3 => 3,
        Version::V17 => 17,
        Version::V18 => 18,
        Version::V19 => 19,
    }
}

/// The version a header byte stands for, if any.
pub open spec fn version_of_byte(b: u8) -> Option<Version> {
    if b == 1 {
        Some(Version::V1)
    } else if b == 2 {
        Some(Version::V2)
    } else if b == 3 {
        Some(Version::V3)
    } else if b == 17 {
        Some(Version::V17)
    } else if b == 18 {
        Some(Version::V18)
    } else if b == 19 {
        Some(Version::V19)
    } else {
        None
    }
}

/// On-disk length of one block.
pub open spec fn block_size(version: Version) -> int {
    match version {
        Version::V1 | Version::V17 => 512,
        Version::V2 | Version::V18 => 128,
        Version::V3 | Version::V19 => 4096,
    }
}

/// Payload length of one block: the block without its header.
pub open spec fn data_size(version: Version) -> int {
    block_size(version) - 16
}

/// Whether blocks of this version are protected by Reed-Solomon parity.
pub open spec fn uses_rs(version: Version) -> bool {
    version == Version::V17 || version == Version::V18 || version == Version::V19
}

/// The number of `version`.
pub fn ver_to_usize(version: Version) -> (r: usize)
    ensures
        r == version_byte(version),
{
    match version {
        Version::V1 => 1,
        Version::V2 => 2,
        Version::V3 => 3,
        Version::V17 => 17,
        Version::V18 => 18,
        Version::V19 => 19,
    }
}

/// The byte that stands for `version` in a header.
pub fn ver_to_u8(version: Version) -> (r: u8)
    ensures
        r == version_byte(version),
{
    match version {
        Version::V1 => 1,
        Version::V2 => 2,
        Version::V3 => 3,
        Version::V17 => 17,
        Version::V18 => 18,
        Version::V19 => 19,
    }
}

/// The version that `b` stands for in a header, if any.
pub fn ver_from_u8(b: u8) -> (r: Option<Version>)
    ensures
        r == version_of_byte(b),
{
    if b == 1 {
        Some(Version::V1)
    } else if b == 2 {
        Some(Version::V2)
    } else if b == 3 {
        Some(Version::V3)
    } else if b == 17 {
        Some(Version::V17)
    } else if b == 18 {
        Some(Version::V18)
    } else if b == 19 {
        Some(Version::V19)
    } else {
        None
    }
}

/// Number of bytes in a block of `version`.
pub fn ver_to_block_size(version: Version) -> (r: usize)
    ensures
        r == block_size(version),
        128 <= r <= SBX_LARGEST_BLOCK_SIZE,
        r % SBX_SCAN_BLOCK_SIZE == 0,
{
    match version {
        Version::V1 | Version::V17 => 512,
        Version::V2 | Version::V18 => 128,
        Version::V3 | Version::V19 => 4096,
    }
}

/// Number of payload bytes in a block of `version`.
pub fn ver_to_data_size(version: Version) -> (r: usize)
    ensures
        r == data_size(version),
        r + SBX_HEADER_SIZE == block_size(version),
{
    ver_to_block_size(version) - SBX_HEADER_SIZE
}

/// Whether containers of `version` carry Reed-Solomon parity.
pub fn ver_uses_rs(version: Version) -> (r: bool)
    ensures
        r == uses_rs(version),
{
    match version {
        Version::V1 | Version::V2 | Version::V3 => false,
        Version::V17 | Version::V18 | Version::V19 => true,
    }
}

/// The header byte of a version names that version and no other.
pub proof fn lemma_version_byte_round_trip(version: Version)
    ensures
        version_of_byte(version_byte(version)) == Some(version),
{
}

/// A byte that names a version is that version's header byte.
pub proof fn lemma_version_of_byte_inverse(b: u8)
    requires
        version_of_byte(b) is Some,
    ensures
        version_byte(version_of_byte(b)->0) == b,
{
}

} // verus!
