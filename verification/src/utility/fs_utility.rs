//! Where things lie on the device, and which cluster numbers are addresses.

use vstd::prelude::*;
use crate::consts::{DNA, EOC, FRE};
use crate::error::BoundsError;
use crate::FatEntry;

verus! {

/// The number of bytes between the end of the allocation table and the data region.
pub open spec fn prelude_padding(fat_size: FatEntry) -> nat {
    ((32 - (fat_size as nat * 4) % 32) % 32) as nat
}

/// The device offset of the first cluster: the end of the table, rounded up to
/// the next multiple of 32.
pub open spec fn data_section_address(fat_size: FatEntry) -> nat {
    32 + fat_size as nat * 4 + prelude_padding(fat_size)
}

/// The size in bytes of the data region.
pub open spec fn data_region_size(fat_size: FatEntry) -> nat {
    1024 * fat_size as nat
}

/// The data region starts on a multiple of 32, less than 32 bytes behind the table.
pub proof fn lemma_data_section_aligned(fat_size: FatEntry)
    ensures
        data_section_address(fat_size) % 32 == 0,
        32 + fat_size as nat * 4 <= data_section_address(fat_size) < 32 + fat_size as nat * 4 + 32,
{
}

/// Whether `cluster` names one of the `fat_length` clusters of a device.
pub open spec fn valid_cluster(fat_length: FatEntry, cluster: FatEntry) -> bool {
    1 <= cluster <= fat_length && cluster != DNA && cluster != EOC
}

/// What `check_cluster` answers.
pub open spec fn cluster_status(fat_length: FatEntry, cluster: FatEntry) -> Result<(), BoundsError> {
    if cluster == FRE {
        Err(BoundsError::Unallocated)
    } else if cluster == DNA {
        Err(BoundsError::BadBlock)
    } else if cluster == EOC {
        Err(BoundsError::EndOfChain)
    } else if cluster > fat_length {
        Err(BoundsError::OutOfBounds(cluster))
    } else {
        Ok(())
    }
}

/// The address of slot `index` of `cluster`.
pub open spec fn inode_address(cluster: FatEntry, index: u32) -> nat {
    ((cluster - 1) * 16 + index + 1) as nat
}

/// The cluster that an address lies in.
pub open spec fn address_cluster(inode: u64) -> nat {
    ((inode - 1) / 16 + 1) as nat
}

/// The slot that an address names within its cluster.
pub open spec fn address_slot(inode: u64) -> nat {
    ((inode - 1) % 16) as nat
}

/// The number of padding bytes between the allocation table and the data region.
pub fn get_prelude_padding_size(fat_size: FatEntry) -> (padding: u64)
    ensures
        padding == prelude_padding(fat_size),
{
    let table_bytes: u64 = fat_size as u64 * 4;
    (32 - table_bytes % 32) % 32
}

/// The device offset of the first cluster.
pub fn get_data_section_address(fat_size: FatEntry) -> (address: u64)
    ensures
        address == data_section_address(fat_size),
{
    let used_size: u64 = 32 + fat_size as u64 * 4;
    used_size + get_prelude_padding_size(fat_size)
}

/// The size in bytes of the data region.
pub fn get_data_region_size(fat_size: FatEntry) -> (size: u64)
    ensures
        size == data_region_size(fat_size),
{
    1024 * (fat_size as u64)
}

/// Accepts the numbers from 1 to `fat_length` that are no sentinel.
pub fn check_cluster(fat_length: FatEntry, cluster: FatEntry) -> (result: Result<(), BoundsError>)
    ensures
        result == cluster_status(fat_length, cluster),
        result is Ok <==> valid_cluster(fat_length, cluster),
{
    if cluster == FRE {
        Err(BoundsError::Unallocated)
    } else if cluster == DNA {
        Err(BoundsError::BadBlock)
    } else if cluster == EOC {
        Err(BoundsError::EndOfChain)
    } else if cluster > fat_length {
        Err(BoundsError::OutOfBounds(cluster))
    } else {
        Ok(())
    }
}

/// The address under which slot `index` of `cluster` is known outside.
pub fn to_inode(cluster: FatEntry, index: u32) -> (inode: u64)
    requires
        cluster >= 1,
    ensures
        inode == inode_address(cluster, index),
{
    (cluster - 1) as u64 * 16 + index as u64 + 1
}

/// The cluster and slot that an address names.
pub fn from_inode(inode: u64) -> (place: (FatEntry, u32))
    requires
        inode >= 1,
        address_cluster(inode) <= u32::MAX,
    ensures
        place.0 == address_cluster(inode),
        place.1 == address_slot(inode),
{
    let zero_based: u64 = inode - 1;
    let cluster: u64 = zero_based / 16 + 1;
    let index: u64 = zero_based % 16;
    (cluster as FatEntry, index as u32)
}

/// An address made of a cluster and a slot below 16 names that cluster and slot.
pub proof fn lemma_address_round_trip(cluster: FatEntry, index: u32)
    requires
        cluster >= 1,
        index < 16,
    ensures
        inode_address(cluster, index) >= 1,
        inode_address(cluster, index) <= u64::MAX,
        address_cluster(inode_address(cluster, index) as u64) == cluster,
        address_slot(inode_address(cluster, index) as u64) == index,
{
}

/// The cluster and slot that an address names make that address again.
pub proof fn lemma_place_round_trip(inode: u64)
    requires
        inode >= 1,
        address_cluster(inode) <= u32::MAX,
    ensures
        address_cluster(inode) >= 1,
        address_slot(inode) < 16,
        inode_address(address_cluster(inode) as u32, address_slot(inode) as u32) == inode,
{
}

} // verus!
