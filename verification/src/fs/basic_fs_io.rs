//! The allocation table and the cluster store: where each table entry, cluster
//! and directory slot lies on the device, and how it is read and written.

use vstd::prelude::*;
use crate::consts::{
    CLUSTER_SIZE, DIR_ENTRY_SIZE, FAT_ENTRY_SIZE, FAT_START_ADDR, FS_ID, FS_VERSION,
};
use crate::error::{BoundsError, FormatError, FsError};
use crate::utility::{
    le_bytes, le_bytes_to_u32, le_value, lemma_le_value_of_le_bytes, pow256, to_le_bytes,
};
use crate::utility::fs_utility::{
    check_cluster, cluster_status, data_section_address, get_data_section_address, valid_cluster,
};
use crate::{Cluster, DirEntry, FatEntry};

verus! {

/// What a device holds, as far as the filesystem is concerned: its bytes, the
/// number of table entries, and the offset of the first cluster.
pub struct Volume {
    pub image: Seq<u8>,
    pub fat_length: FatEntry,
    pub data_base: u64,
}

/// The nine magic bytes, `NathFATfs`.
pub open spec fn magic() -> Seq<u8> {
    seq![0x4Eu8, 0x61u8, 0x74u8, 0x68u8, 0x46u8, 0x41u8, 0x54u8, 0x66u8, 0x73u8]
}

/// `image` with the bytes from `offset` on replaced by `bytes`.
pub open spec fn splice(image: Seq<u8>, offset: int, bytes: Seq<u8>) -> Seq<u8> {
    image.subrange(0, offset) + bytes + image.subrange(offset + bytes.len(), image.len() as int)
}

/// The device offset of the table entry of `cluster`.
pub open spec fn fat_entry_offset(cluster: FatEntry) -> int {
    32 + (cluster - 1) * 4
}

/// What opening a device with these bytes gives.
pub open spec fn opened(image: Seq<u8>) -> Result<Volume, FsError> {
    if image.len() < 14 {
        Err(FsError::Io)
    } else if image.subrange(0, 9) != magic() {
        Err(FsError::Format(FormatError::Magic))
    } else if image[9] != 1 {
        Err(FsError::Format(FormatError::Version(image[9])))
    } else {
        let fat_length = le_value(image.subrange(10, 14)) as u32;
        Ok(Volume { image, fat_length, data_base: data_section_address(fat_length) as u64 })
    }
}

impl Volume {
    /// The device offset of `cluster`.
    pub open spec fn cluster_offset(self, cluster: FatEntry) -> int {
        self.data_base + (cluster - 1) * 1024
    }

    /// The device offset of slot `idx` of `cluster`.
    pub open spec fn slot_offset(self, cluster: FatEntry, idx: u32) -> int {
        self.cluster_offset(cluster) + idx * 64
    }

    /// The `len` bytes at `offset`, if the device reaches that far.
    pub open spec fn region(self, offset: int, len: int) -> Result<Seq<u8>, FsError> {
        if offset + len <= self.image.len() {
            Ok(self.image.subrange(offset, offset + len))
        } else {
            Err(FsError::Io)
        }
    }

    /// The volume after `bytes` were written at `offset`, if the device reaches that far.
    pub open spec fn put_region(self, offset: int, bytes: Seq<u8>) -> Result<Volume, FsError> {
        if offset + bytes.len() <= self.image.len() {
            Ok(Volume { image: splice(self.image, offset, bytes), ..self })
        } else {
            Err(FsError::Io)
        }
    }

    /// Why `cluster` or `idx` is no address, if one of them is none.
    pub open spec fn slot_status(self, cluster: FatEntry, idx: u32) -> Result<(), BoundsError> {
        match cluster_status(self.fat_length, cluster) {
            Err(e) => Err(e),
            Ok(()) => if idx >= 16 {
                Err(BoundsError::Slot(idx))
            } else {
                Ok(())
            },
        }
    }

    /// The table entry of `cluster`.
    pub open spec fn fat_entry(self, cluster: FatEntry) -> Result<FatEntry, FsError> {
        match cluster_status(self.fat_length, cluster) {
            Err(e) => Err(FsError::Bounds(e)),
            Ok(()) => match self.region(fat_entry_offset(cluster), 4) {
                Err(e) => Err(e),
                Ok(bytes) => Ok(le_value(bytes) as u32),
            },
        }
    }

    /// The volume after the table entry of `cluster` was set to `entry`.
    pub open spec fn put_fat_entry(self, cluster: FatEntry, entry: FatEntry) -> Result<Volume, FsError> {
        match cluster_status(self.fat_length, cluster) {
            Err(e) => Err(FsError::Bounds(e)),
            Ok(()) => self.put_region(fat_entry_offset(cluster), le_bytes(entry as nat, 4)),
        }
    }

    /// The 1024 bytes of `cluster`.
    pub open spec fn cluster(self, cluster: FatEntry) -> Result<Seq<u8>, FsError> {
        match cluster_status(self.fat_length, cluster) {
            Err(e) => Err(FsError::Bounds(e)),
            Ok(()) => self.region(self.cluster_offset(cluster), 1024),
        }
    }

    /// The volume after `content` was written over `cluster`.
    pub open spec fn put_cluster(self, cluster: FatEntry, content: Seq<u8>) -> Result<Volume, FsError> {
        match cluster_status(self.fat_length, cluster) {
            Err(e) => Err(FsError::Bounds(e)),
            Ok(()) => self.put_region(self.cluster_offset(cluster), content),
        }
    }

    /// The 64 bytes of slot `idx` of `cluster`.
    pub open spec fn slot(self, cluster: FatEntry, idx: u32) -> Result<Seq<u8>, FsError> {
        match self.slot_status(cluster, idx) {
            Err(e) => Err(FsError::Bounds(e)),
            Ok(()) => self.region(self.slot_offset(cluster, idx), 64),
        }
    }

    /// The volume after `entry` was written over slot `idx` of `cluster`.
    pub open spec fn put_slot(self, cluster: FatEntry, idx: u32, entry: Seq<u8>) -> Result<Volume, FsError> {
        match self.slot_status(cluster, idx) {
            Err(e) => Err(FsError::Bounds(e)),
            Ok(()) => self.put_region(self.slot_offset(cluster, idx), entry),
        }
    }
}

impl Volume {
    /// The table lies before the data region.
    pub open spec fn table_before_data(self) -> bool {
        self.data_base >= 32 + 4 * self.fat_length
    }
}

/// Bytes that were written are read back, and bytes beside them stay as they were.
pub proof fn lemma_splice(image: Seq<u8>, offset: int, bytes: Seq<u8>)
    requires
        0 <= offset,
        offset + bytes.len() <= image.len(),
    ensures
        splice(image, offset, bytes).len() == image.len(),
        splice(image, offset, bytes).subrange(offset, offset + bytes.len()) == bytes,
        forall|from: int, to: int|
            0 <= from <= to <= image.len() && (to <= offset || offset + bytes.len() <= from)
                ==> #[trigger] splice(image, offset, bytes).subrange(from, to) == image.subrange(
                from,
                to,
            ),
{
}

/// A table entry that was written is read back: for every cluster of a device
/// that holds the entry, and every value.
pub proof fn lemma_fat_entry_round_trip(volume: Volume, cluster: FatEntry, entry: FatEntry)
    requires
        valid_cluster(volume.fat_length, cluster),
        fat_entry_offset(cluster) + 4 <= volume.image.len(),
    ensures
        volume.put_fat_entry(cluster, entry) matches Ok(after) && after.fat_entry(cluster) == Ok::<
            FatEntry,
            FsError,
        >(entry),
{
    lemma_le_value_of_le_bytes(entry as nat, 4);
    lemma_splice(volume.image, fat_entry_offset(cluster), le_bytes(entry as nat, 4));
    assert(pow256(4) == 0x1_0000_0000) by {
        reveal_with_fuel(pow256, 5);
    }
}

/// A cluster that was written is read back: for every cluster of a device that
/// holds it, and every 1024 bytes.
pub proof fn lemma_cluster_round_trip(volume: Volume, cluster: FatEntry, content: Seq<u8>)
    requires
        valid_cluster(volume.fat_length, cluster),
        content.len() == 1024,
        volume.cluster_offset(cluster) + 1024 <= volume.image.len(),
    ensures
        volume.put_cluster(cluster, content) matches Ok(after) && after.cluster(cluster) == Ok::<
            Seq<u8>,
            FsError,
        >(content),
{
    lemma_splice(volume.image, volume.cluster_offset(cluster), content);
}

/// A directory slot that was written is read back.
pub proof fn lemma_slot_round_trip(volume: Volume, cluster: FatEntry, idx: u32, entry: Seq<u8>)
    requires
        valid_cluster(volume.fat_length, cluster),
        idx < 16,
        entry.len() == 64,
        volume.slot_offset(cluster, idx) + 64 <= volume.image.len(),
    ensures
        volume.put_slot(cluster, idx, entry) matches Ok(after) && after.slot(cluster, idx) == Ok::<
            Seq<u8>,
            FsError,
        >(entry),
{
    lemma_splice(volume.image, volume.slot_offset(cluster, idx), entry);
}

/// Slot `idx` of a cluster is made of the 64 bytes of the cluster from `64 * idx` on.
pub proof fn lemma_slot_in_cluster(volume: Volume, cluster: FatEntry, idx: u32)
    requires
        volume.cluster(cluster) is Ok,
        idx < 16,
    ensures
        volume.slot(cluster, idx) == Ok::<Seq<u8>, FsError>(
            volume.cluster(cluster)->Ok_0.subrange(64 * idx, 64 * idx + 64),
        ),
{
    let base = volume.cluster_offset(cluster);
    assert(volume.image.subrange(base + 64 * idx, base + 64 * idx + 64)
        =~= volume.image.subrange(base, base + 1024).subrange(64 * idx, 64 * idx + 64));
}

/// Writing one table entry leaves every other entry, and the layout, as they were.
pub proof fn lemma_put_fat_entry_frame(volume: Volume, cluster: FatEntry, entry: FatEntry)
    requires
        volume.put_fat_entry(cluster, entry) is Ok,
    ensures
        ({
            let after = volume.put_fat_entry(cluster, entry)->Ok_0;
            &&& after.fat_length == volume.fat_length
            &&& after.data_base == volume.data_base
            &&& after.image.len() == volume.image.len()
            &&& forall|other: FatEntry|
                other != cluster ==> #[trigger] after.fat_entry(other) == volume.fat_entry(other)
            &&& volume.table_before_data() ==> forall|other: FatEntry, idx: u32| #[trigger]
                after.slot(other, idx) == volume.slot(other, idx)
            &&& volume.table_before_data() ==> forall|other: FatEntry| #[trigger]
                after.cluster(other) == volume.cluster(other)
        }),
{
    lemma_le_value_of_le_bytes(entry as nat, 4);
    lemma_splice(volume.image, fat_entry_offset(cluster), le_bytes(entry as nat, 4));
}

/// Writing one directory slot leaves every other slot, the layout and, where the
/// table lies before the data region, the table as they were.
pub proof fn lemma_put_slot_frame(volume: Volume, cluster: FatEntry, idx: u32, entry: Seq<u8>)
    requires
        entry.len() == 64,
        volume.put_slot(cluster, idx, entry) is Ok,
    ensures
        ({
            let after = volume.put_slot(cluster, idx, entry)->Ok_0;
            &&& after.fat_length == volume.fat_length
            &&& after.data_base == volume.data_base
            &&& after.image.len() == volume.image.len()
            &&& forall|other: FatEntry, at: u32|
                (other != cluster || at != idx) ==> #[trigger] after.slot(other, at)
                    == volume.slot(other, at)
            &&& volume.table_before_data() ==> forall|other: FatEntry| #[trigger]
                after.fat_entry(other) == volume.fat_entry(other)
        }),
{
    lemma_splice(volume.image, volume.slot_offset(cluster, idx), entry);
}

/// Writing one cluster leaves every other cluster, the layout and, where the
/// table lies before the data region, the table as they were.
pub proof fn lemma_put_cluster_frame(volume: Volume, cluster: FatEntry, content: Seq<u8>)
    requires
        content.len() == 1024,
        volume.put_cluster(cluster, content) is Ok,
    ensures
        ({
            let after = volume.put_cluster(cluster, content)->Ok_0;
            &&& after.fat_length == volume.fat_length
            &&& after.data_base == volume.data_base
            &&& after.image.len() == volume.image.len()
            &&& forall|other: FatEntry|
                other != cluster ==> #[trigger] after.cluster(other) == volume.cluster(other)
            &&& volume.table_before_data() ==> forall|other: FatEntry| #[trigger]
                after.fat_entry(other) == volume.fat_entry(other)
        }),
{
    lemma_splice(volume.image, volume.cluster_offset(cluster), content);
}

/// The six operations on the allocation table and the cluster store. Each one
/// first checks the cluster number, and the slot index where it takes one; a
/// failed operation leaves the device as it was.
pub trait BaseIO {
    /// What the device holds.
    spec fn volume(&self) -> Volume;

    /// Reads the table entry of `cluster`.
    fn read_fat_entry(&mut self, cluster: FatEntry) -> (result: Result<FatEntry, FsError>)
        ensures
            final(self).volume() == old(self).volume(),
            result == old(self).volume().fat_entry(cluster),
    ;

    /// Sets the table entry of `cluster` to `entry`.
    fn write_fat_entry(&mut self, cluster: FatEntry, entry: FatEntry) -> (result: Result<
        (),
        FsError,
    >)
        ensures
            match old(self).volume().put_fat_entry(cluster, entry) {
                Ok(after) => result is Ok && final(self).volume() == after,
                Err(e) => result == Err::<(), FsError>(e) && final(self).volume() == old(self).volume(),
            },
    ;

    /// Reads the bytes of `cluster`.
    fn read_cluster(&mut self, cluster: FatEntry) -> (result: Result<Cluster, FsError>)
        ensures
            final(self).volume() == old(self).volume(),
            match old(self).volume().cluster(cluster) {
                Ok(bytes) => result matches Ok(content) && content@ == bytes,
                Err(e) => result == Err::<Cluster, FsError>(e),
            },
    ;

    /// Writes `cluster_content` over `cluster`.
    fn write_cluster(&mut self, cluster: FatEntry, cluster_content: &Cluster) -> (result: Result<
        (),
        FsError,
    >)
        ensures
            match old(self).volume().put_cluster(cluster, cluster_content@) {
                Ok(after) => result is Ok && final(self).volume() == after,
                Err(e) => result == Err::<(), FsError>(e) && final(self).volume() == old(self).volume(),
            },
    ;

    /// Reads the bytes of slot `idx` of `cluster`.
    fn read_raw_directory_entry(&mut self, cluster: FatEntry, idx: u32) -> (result: Result<
        DirEntry,
        FsError,
    >)
        ensures
            final(self).volume() == old(self).volume(),
            match old(self).volume().slot(cluster, idx) {
                Ok(bytes) => result matches Ok(raw) && raw@ == bytes,
                Err(e) => result == Err::<DirEntry, FsError>(e),
            },
    ;

    /// Writes `entry` over slot `idx` of `cluster`.
    fn write_raw_directory_entry(&mut self, cluster: FatEntry, idx: u32, entry: &DirEntry) -> (result:
        Result<(), FsError>)
        ensures
            match old(self).volume().put_slot(cluster, idx, entry@) {
                Ok(after) => result is Ok && final(self).volume() == after,
                Err(e) => result == Err::<(), FsError>(e) && final(self).volume() == old(self).volume(),
            },
    ;
}

/// A device together with what its header says about the layout.
pub struct FileSystemBasicIO {
    /// The bytes of the device.
    pub device: Vec<u8>,
    /// The number of entries in the allocation table.
    pub fat_length: FatEntry,
    /// The device offset of the first cluster.
    pub start_data_region: u64,
}

impl FileSystemBasicIO {
    /// Reads the header of `device`: nine bytes of magic, one of version, four of
    /// table length.
    pub fn open_file_system(device: Vec<u8>) -> (result: Result<Self, FsError>)
        ensures
            match opened(device@) {
                Ok(volume) => result matches Ok(io) && io.volume() == volume && io.device == device,
                Err(e) => result matches Err(err) && err == e,
            },
    {
        if device.len() < 14 {
            return Err(FsError::Io);
        }
        let mut i: usize = 0;
        while i < 9
            invariant
                i <= 9,
                device@.len() >= 14,
                forall|j: int| 0 <= j < i ==> device@[j] == magic()[j],
            decreases 9 - i,
        {
            if device[i] != FS_ID[i] {
                return Err(FsError::Format(FormatError::Magic));
            }
            i += 1;
        }
        assert(device@.subrange(0, 9) =~= magic());
        if device[9] != FS_VERSION[0] {
            return Err(FsError::Format(FormatError::Version(device[9])));
        }
        let header = vstd::slice::slice_subrange(device.as_slice(), 10, 14);
        assert(header@.subrange(0, 4) =~= device@.subrange(10, 14));
        let fat_length = le_bytes_to_u32(header);
        let start_data_region = get_data_section_address(fat_length);
        Ok(FileSystemBasicIO { device, fat_length, start_data_region })
    }

    /// The device offset of `cluster`, if it fits in 64 bits.
    fn cluster_address(&self, cluster: FatEntry) -> (address: Option<u64>)
        requires
            cluster >= 1,
        ensures
            address matches Some(a) ==> a == self.volume().cluster_offset(cluster),
            address is None ==> self.volume().cluster_offset(cluster) > self.device@.len(),
    {
        assert(self.device.len() <= u64::MAX);
        self.start_data_region.checked_add((cluster - 1) as u64 * CLUSTER_SIZE as u64)
    }

    /// The device offset of slot `idx` of `cluster`, if it fits in 64 bits.
    fn slot_address(&self, cluster: FatEntry, idx: u32) -> (address: Option<u64>)
        requires
            cluster >= 1,
            idx < 16,
        ensures
            address matches Some(a) ==> a == self.volume().slot_offset(cluster, idx),
            address is None ==> self.volume().slot_offset(cluster, idx) > self.device@.len(),
    {
        assert(self.device.len() <= u64::MAX);
        match self.cluster_address(cluster) {
            None => None,
            Some(base) => base.checked_add(idx as u64 * DIR_ENTRY_SIZE as u64),
        }
    }
}

impl BaseIO for FileSystemBasicIO {
    open spec fn volume(&self) -> Volume {
        Volume {
            image: self.device@,
            fat_length: self.fat_length,
            data_base: self.start_data_region,
        }
    }

    fn read_fat_entry(&mut self, cluster: FatEntry) -> (result: Result<FatEntry, FsError>) {
        if let Err(e) = check_cluster(self.fat_length, cluster) {
            return Err(FsError::Bounds(e));
        }
        let address: u64 = FAT_START_ADDR + (cluster - 1) as u64 * FAT_ENTRY_SIZE as u64;
        match read_array::<4>(&self.device, address) {
            None => Err(FsError::Io),
            Some(bytes) => {
                assert(bytes@.subrange(0, 4) =~= bytes@);
                Ok(le_bytes_to_u32(bytes.as_slice()))
            },
        }
    }

    fn write_fat_entry(&mut self, cluster: FatEntry, entry: FatEntry) -> (result: Result<
        (),
        FsError,
    >) {
        if let Err(e) = check_cluster(self.fat_length, cluster) {
            return Err(FsError::Bounds(e));
        }
        let address: u64 = FAT_START_ADDR + (cluster - 1) as u64 * FAT_ENTRY_SIZE as u64;
        let bytes = to_le_bytes::<4>(entry as u64);
        if write_array::<4>(&mut self.device, address, &bytes) {
            Ok(())
        } else {
            Err(FsError::Io)
        }
    }

    fn read_cluster(&mut self, cluster: FatEntry) -> (result: Result<Cluster, FsError>) {
        if let Err(e) = check_cluster(self.fat_length, cluster) {
            return Err(FsError::Bounds(e));
        }
        match self.cluster_address(cluster) {
            None => Err(FsError::Io),
            Some(address) => match read_array::<1024>(&self.device, address) {
                None => Err(FsError::Io),
                Some(content) => Ok(content),
            },
        }
    }

    fn write_cluster(&mut self, cluster: FatEntry, cluster_content: &Cluster) -> (result: Result<
        (),
        FsError,
    >) {
        if let Err(e) = check_cluster(self.fat_length, cluster) {
            return Err(FsError::Bounds(e));
        }
        match self.cluster_address(cluster) {
            None => Err(FsError::Io),
            Some(address) => if write_array::<1024>(&mut self.device, address, cluster_content) {
                Ok(())
            } else {
                Err(FsError::Io)
            },
        }
    }

    fn read_raw_directory_entry(&mut self, cluster: FatEntry, idx: u32) -> (result: Result<
        DirEntry,
        FsError,
    >) {
        if let Err(e) = check_cluster(self.fat_length, cluster) {
            return Err(FsError::Bounds(e));
        }
        if idx >= 16 {
            return Err(FsError::Bounds(BoundsError::Slot(idx)));
        }
        match self.slot_address(cluster, idx) {
            None => Err(FsError::Io),
            Some(address) => match read_array::<64>(&self.device, address) {
                None => Err(FsError::Io),
                Some(raw) => Ok(raw),
            },
        }
    }

    fn write_raw_directory_entry(&mut self, cluster: FatEntry, idx: u32, entry: &DirEntry) -> (result:
        Result<(), FsError>) {
        if let Err(e) = check_cluster(self.fat_length, cluster) {
            return Err(FsError::Bounds(e));
        }
        if idx >= 16 {
            return Err(FsError::Bounds(BoundsError::Slot(idx)));
        }
        match self.slot_address(cluster, idx) {
            None => Err(FsError::Io),
            Some(address) => if write_array::<64>(&mut self.device, address, entry) {
                Ok(())
            } else {
                Err(FsError::Io)
            },
        }
    }
}

/// Copies `N` bytes out of `device`, starting at `offset`.
pub fn read_array<const N: usize>(device: &Vec<u8>, offset: u64) -> (result: Option<[u8; N]>)
    ensures
        result is Some <==> offset + N <= device@.len(),
        result matches Some(bytes) ==> bytes@ == device@.subrange(offset as int, offset + N),
{
    let len = device.len();
    if offset > len as u64 || len as u64 - offset < N as u64 {
        return None;
    }
    let start = offset as usize;
    let mut out = [0u8; N];
    let mut i: usize = 0;
    while i < N
        invariant
            i <= N,
            start + N <= device@.len() <= usize::MAX,
            out@.len() == N,
            forall|j: int| 0 <= j < i ==> out@[j] == device@[start + j],
        decreases N - i,
    {
        out[i] = device[start + i];
        i += 1;
    }
    Some(out)
}

/// Copies `bytes` into `device`, starting at `offset`; the device keeps its length.
pub fn write_array<const N: usize>(device: &mut Vec<u8>, offset: u64, bytes: &[u8; N]) -> (done: bool)
    ensures
        done <==> offset + N <= old(device)@.len(),
        done ==> final(device)@ == splice(old(device)@, offset as int, bytes@),
        !done ==> final(device)@ == old(device)@,
{
    let len = device.len();
    if offset > len as u64 || len as u64 - offset < N as u64 {
        return false;
    }
    let start = offset as usize;
    let mut i: usize = 0;
    while i < N
        invariant
            i <= N,
            start + N <= device@.len() <= usize::MAX,
            device@.len() == old(device)@.len(),
            bytes@.len() == N,
            forall|j: int| 0 <= j < i ==> device@[start + j] == bytes@[j],
            forall|j: int| 0 <= j < device@.len() && !(start <= j < start + i) ==> device@[j] == old(device)@[j],
        decreases N - i,
    {
        device[start + i] = bytes[i];
        i += 1;
    }
    true
}

} // verus!
