//! Shared constants of the on-disk format.

use vstd::prelude::*;
use crate::FatEntry;

verus! {

/// The magic bytes at the start of a formatted device.
pub const FS_ID: [u8; 9] = [0x4E, 0x61, 0x74, 0x68, 0x46, 0x41, 0x54, 0x66, 0x73];

/// The only format version that is understood.
pub const FS_VERSION: [u8; 1] = [1u8];

/// Size in bytes of one allocation-table entry.
pub const FAT_ENTRY_SIZE: u32 = 4;

/// Size in bytes of one directory slot.
pub const DIR_ENTRY_SIZE: u32 = 64;

/// Size in bytes of one cluster.
pub const CLUSTER_SIZE: u32 = 1024;

/// Device offset of the first allocation-table entry.
pub const FAT_START_ADDR: u64 = 32;

/// The data region starts on a multiple of this many bytes.
pub const ALIGNMENT: u32 = 32;

/// Fill byte of the padding in the header and behind the table.
pub const FAT_PADDING: u8 = 0xAAu8;

/// Fill byte of a freshly formatted data region.
pub const DATA_REGION: u8 = 0xDDu8;

/// Table entry of the last cluster of a chain.
pub const EOC: FatEntry = 0xFFFF_FFFF;

/// Table entry of a cluster that must not be allocated.
pub const DNA: FatEntry = 0xFFFF_FFFE;

/// Table entry of a free cluster.
pub const FRE: FatEntry = 0x0000_0000;

} // verus!
