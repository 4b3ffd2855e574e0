//! A FAT-style filesystem over the bytes of a device.
//!
//! A device starts with a header, followed by an allocation table with one
//! entry for each cluster, padding up to a multiple of 32 bytes, and the
//! clusters of 1024 bytes each. The table links clusters into chains; a chain
//! holds a file or a directory. A directory is made of slots of 64 bytes, each
//! of which is unused or holds a fragment of a name or an inode.
//!
//! - [`consts`]: the constants of the format.
//! - [`error`]: what can go wrong, and how it is told.
//! - [`utility`]: little-endian numbers, the layout and addresses.
//! - [`fs`]: the table and the clusters ([`fs::basic_fs_io`]), the slots
//!   ([`fs::directory`], [`fs::split`]), chains and listings, and what a
//!   protocol layer asks for ([`fs::filesystem`]).
//! - [`mkfs`]: formatting.
//!
//! The library works on a device held in memory as a `Vec<u8>`. Every
//! operation says what it gives and how it changes the device in terms of
//! [`fs::basic_fs_io::Volume`], and fails with a [`error::FsError`] rather
//! than stop the program.

use vstd::prelude::*;

pub mod consts;
pub mod error;
pub mod utility;
pub mod fs;
pub mod mkfs;

verus! {

/// One entry of the allocation table: a sentinel or the number of the next cluster.
pub type FatEntry = u32;

/// The raw bytes of one directory slot.
pub type DirEntry = [u8; 64];

/// The raw bytes of one cluster.
pub type Cluster = [u8; 1024];

/// The clusters of one file or directory, in order.
pub type Chain = Vec<FatEntry>;

/// A directory listing: each entry with the cluster and the slot it stands in.
pub type Dir = Vec<(fs::directory::DirectoryEntry, FatEntry, u32)>;

} // verus!
