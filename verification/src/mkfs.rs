//! Formatting: the header and the empty table, the data region, and the root
//! directory.

use vstd::prelude::*;
use vstd::string::*;
use vstd::utf8::*;
use crate::consts::{DATA_REGION, EOC, FAT_PADDING, FS_ID, FS_VERSION};
use crate::error::FsError;
use crate::fs::basic_fs_io::{
    lemma_cluster_round_trip, lemma_put_slot_frame, lemma_slot_in_cluster,
    lemma_slot_round_trip, lemma_splice, magic, BaseIO, Volume,
};
use crate::fs::directory::{
    lemma_entry_round_trip, lemma_stored_text, zeros, DirectoryEntry,
    DirectoryEntryView, Inode, InodeView,
};
use crate::fs::{
    dir_read, lemma_first_unreadable, listing, pending_name, slot_entries, slot_entry, FileSystem,
};
use crate::FatEntry;
use crate::utility::fs_utility::{
    data_region_size, data_section_address, get_data_region_size, get_data_section_address,
    get_prelude_padding_size, prelude_padding,
};
use crate::utility::{le_bytes, lemma_le_value_of_le_bytes, to_le_bytes};

verus! {

/// `n` times the byte `byte`.
pub open spec fn fill(byte: u8, n: int) -> Seq<u8> {
    Seq::new(n as nat, |i: int| byte)
}

/// What a device holds after `bytes` were written at `offset`: a device that
/// ends before `offset` is first stretched to it with zero bytes, and one that
/// ends before the last byte written grows to hold it.
pub open spec fn written(image: Seq<u8>, offset: int, bytes: Seq<u8>) -> Seq<u8> {
    let stretched = if image.len() < offset {
        image + zeros(offset - image.len())
    } else {
        image
    };
    let end = offset + bytes.len();
    stretched.subrange(0, offset) + bytes + if end < stretched.len() {
        stretched.subrange(end, stretched.len() as int)
    } else {
        Seq::empty()
    }
}

/// Everything before the data region of a device with `fat_size` clusters: the
/// magic, the version, the table length, 18 bytes of padding, a table in which
/// every cluster is free, and padding up to the data region.
pub open spec fn prelude(fat_size: u32) -> Seq<u8> {
    magic() + seq![1u8] + le_bytes(fat_size as nat, 4) + fill(0xAA, 18) + zeros(4 * fat_size)
        + fill(0xAA, prelude_padding(fat_size) as int)
}

/// The inode of the root directory under the name `name`, made at time `now`.
pub open spec fn root_inode(name: Seq<char>, now: u64) -> InodeView {
    InodeView {
        name,
        length: 64,
        uid: 0,
        gid: 0,
        permission: 0o755,
        ctime: now,
        mtime: now,
        atime: now,
        number_of_hlinks: 2,
        start_cluster: 1,
    }
}

/// The volume with cluster 1 cleared and made a chain of its own.
pub open spec fn root_cleared(volume: Volume) -> Result<Volume, FsError> {
    match volume.put_fat_entry(1, EOC) {
        Err(e) => Err(e),
        Ok(claimed) => claimed.put_cluster(1, zeros(1024)),
    }
}

/// The volume with an empty root directory in cluster 1: the entries `.` and
/// `..` in its first two slots, both for cluster 1.
pub open spec fn root_written(volume: Volume, now: u64) -> Result<Volume, FsError> {
    match root_cleared(volume) {
        Err(e) => Err(e),
        Ok(cleared) => match cleared.put_slot(
            1,
            0,
            DirectoryEntryView::Directory(root_inode(seq!['.'], now)).bytes(),
        ) {
            Err(e) => Err(e),
            Ok(first) => first.put_slot(
                1,
                1,
                DirectoryEntryView::Directory(root_inode(seq!['.', '.'], now)).bytes(),
            ),
        },
    }
}

/// Writes `count` times `byte` into `dest`, starting at `offset`.
fn write_fill(dest: &mut Vec<u8>, offset: usize, count: usize, byte: u8)
    requires
        offset + count <= usize::MAX,
    ensures
        final(dest)@ == written(old(dest)@, offset as int, fill(byte, count as int)),
{
    while dest.len() < offset
        invariant
            old(dest)@.len() <= dest@.len(),
            dest@.len() <= offset || dest@.len() == old(dest)@.len(),
            forall|p: int| 0 <= p < old(dest)@.len() ==> dest@[p] == old(dest)@[p],
            forall|p: int| old(dest)@.len() <= p < dest@.len() ==> dest@[p] == 0,
        decreases offset - dest@.len(),
    {
        dest.push(0);
    }
    let ghost stretched = dest@;
    assert(stretched =~= if old(dest)@.len() < offset {
        old(dest)@ + zeros(offset - old(dest)@.len())
    } else {
        old(dest)@
    });
    let mut i: usize = 0;
    while i < count
        invariant
            i <= count,
            offset + count <= usize::MAX,
            offset <= stretched.len(),
            dest@.len() == if stretched.len() < offset + i {
                offset + i
            } else {
                stretched.len() as int
            },
            forall|p: int| 0 <= p < offset ==> dest@[p] == stretched[p],
            forall|p: int| offset <= p < offset + i ==> dest@[p] == byte,
            forall|p: int| offset + i <= p < dest@.len() ==> dest@[p] == stretched[p],
        decreases count - i,
    {
        if offset + i < dest.len() {
            dest[offset + i] = byte;
        } else {
            dest.push(byte);
        }
        i += 1;
    }
    assert(dest@ =~= written(old(dest)@, offset as int, fill(byte, count as int)));
}

/// Writes `bytes` into `dest`, starting at `offset`.
fn write_slice(dest: &mut Vec<u8>, offset: usize, bytes: &[u8])
    requires
        offset + bytes@.len() <= usize::MAX,
    ensures
        final(dest)@ == written(old(dest)@, offset as int, bytes@),
{
    while dest.len() < offset
        invariant
            old(dest)@.len() <= dest@.len(),
            dest@.len() <= offset || dest@.len() == old(dest)@.len(),
            forall|p: int| 0 <= p < old(dest)@.len() ==> dest@[p] == old(dest)@[p],
            forall|p: int| old(dest)@.len() <= p < dest@.len() ==> dest@[p] == 0,
        decreases offset - dest@.len(),
    {
        dest.push(0);
    }
    let ghost stretched = dest@;
    assert(stretched =~= if old(dest)@.len() < offset {
        old(dest)@ + zeros(offset - old(dest)@.len())
    } else {
        old(dest)@
    });
    let count = bytes.len();
    let mut i: usize = 0;
    while i < count
        invariant
            i <= count,
            count == bytes@.len(),
            offset + count <= usize::MAX,
            offset <= stretched.len(),
            dest@.len() == if stretched.len() < offset + i {
                offset + i
            } else {
                stretched.len() as int
            },
            forall|p: int| 0 <= p < offset ==> dest@[p] == stretched[p],
            forall|p: int| offset <= p < offset + i ==> dest@[p] == bytes@[p - offset],
            forall|p: int| offset + i <= p < dest@.len() ==> dest@[p] == stretched[p],
        decreases count - i,
    {
        if offset + i < dest.len() {
            dest[offset + i] = bytes[i];
        } else {
            dest.push(bytes[i]);
        }
        i += 1;
    }
    assert(dest@ =~= written(old(dest)@, offset as int, bytes@));
}

/// Writes the header, the empty table and the padding behind it at the start of
/// `dest`. What `dest` held behind them stays.
pub fn write_prelude(fat_size: u32, dest: &mut Vec<u8>)
    requires
        data_section_address(fat_size) <= usize::MAX,
    ensures
        final(dest)@ == written(old(dest)@, 0, prelude(fat_size)),
{
    let table = (4 * (fat_size as u64)) as usize;
    let padding = get_prelude_padding_size(fat_size) as usize;
    let length = to_le_bytes::<4>(fat_size as u64);
    let ghost before = dest@;
    let ghost id = magic();
    let ghost version = id + seq![1u8];
    let ghost sized = version + length@;
    let ghost padded = sized + fill(0xAA, 18);
    let ghost tabled = padded + zeros(4 * fat_size);
    proof {
        lemma_le_value_of_le_bytes(fat_size as nat, 4);
    }
    assert(FS_ID@ =~= id);
    write_slice(dest, 0, FS_ID.as_slice());
    assert(dest@ =~= written(before, 0, id));
    assert(FS_VERSION@ =~= seq![1u8]);
    write_slice(dest, 9, FS_VERSION.as_slice());
    assert(dest@ =~= written(before, 0, version));
    write_slice(dest, 10, length.as_slice());
    assert(dest@ =~= written(before, 0, sized));
    write_fill(dest, 14, 18, FAT_PADDING);
    assert(dest@ =~= written(before, 0, padded));
    write_fill(dest, 32, table, 0);
    assert(fill(0, table as int) =~= zeros(4 * fat_size));
    assert(dest@ =~= written(before, 0, tabled));
    write_fill(dest, 32 + table, padding, FAT_PADDING);
    assert(dest@ =~= written(before, 0, prelude(fat_size)));
}

/// Fills the data region of `dest` with the byte of an unused region.
pub fn write_data_section(fat_size: u32, dest: &mut Vec<u8>)
    requires
        data_section_address(fat_size) + data_region_size(fat_size) <= usize::MAX,
    ensures
        final(dest)@ == written(
            old(dest)@,
            data_section_address(fat_size) as int,
            fill(0xDD, data_region_size(fat_size) as int),
        ),
{
    let start = get_data_section_address(fat_size) as usize;
    let size = get_data_region_size(fat_size) as usize;
    write_fill(dest, start, size, DATA_REGION);
}

/// A name of one or two dots fits the 25 bytes that an inode has for its name.
proof fn lemma_dots_fit(name: Seq<char>)
    requires
        name == seq!['.'] || name == seq!['.', '.'],
    ensures
        encode_utf8(name).len() == name.len(),
{
    assert(is_ascii_chars(name));
    is_ascii_chars_encode_utf8(name);
}

/// What a listing of a fresh root directory shows in place `k`: the directory
/// itself under the names `.` and `..`, and then unused slots.
pub open spec fn root_place(now: u64, k: int) -> (DirectoryEntryView, FatEntry, u32) {
    (
        if k == 0 {
            DirectoryEntryView::Directory(root_inode(seq!['.'], now)).whole()
        } else if k == 1 {
            DirectoryEntryView::Directory(root_inode(seq!['.', '.'], now)).whole()
        } else {
            DirectoryEntryView::Invalid
        },
        1u32,
        k as u32,
    )
}

/// What the slots of a fresh root directory hold.
proof fn lemma_root_slots(volume: Volume, now: u64)
    requires
        root_written(volume, now) is Ok,
    ensures
        ({
            let after = root_written(volume, now)->Ok_0;
            forall|k: int|
                0 <= k < 16 ==> #[trigger] slot_entry(after, seq![1u32], k) == Ok::<
                    DirectoryEntryView,
                    FsError,
                >(root_place(now, k).0)
        }),
{
    let dot = DirectoryEntryView::Directory(root_inode(seq!['.'], now));
    let dots = DirectoryEntryView::Directory(root_inode(seq!['.', '.'], now));
    let claimed = volume.put_fat_entry(1, EOC)->Ok_0;
    let cleared = claimed.put_cluster(1, zeros(1024))->Ok_0;
    let first = cleared.put_slot(1, 0, dot.bytes())->Ok_0;
    let after = first.put_slot(1, 1, dots.bytes())->Ok_0;
    lemma_dots_fit(seq!['.']);
    lemma_dots_fit(seq!['.', '.']);
    lemma_entry_round_trip(dot);
    lemma_entry_round_trip(dots);
    lemma_stored_text(seq!['.']);
    lemma_stored_text(seq!['.', '.']);
    lemma_splice(claimed.image, claimed.cluster_offset(1), zeros(1024));
    lemma_cluster_round_trip(claimed, 1, zeros(1024));
    lemma_splice(cleared.image, cleared.slot_offset(1, 0), dot.bytes());
    lemma_slot_round_trip(cleared, 1, 0, dot.bytes());
    lemma_put_slot_frame(cleared, 1, 0, dot.bytes());
    lemma_slot_round_trip(first, 1, 1, dots.bytes());
    lemma_put_slot_frame(first, 1, 1, dots.bytes());
    assert forall|k: int| 0 <= k < 16 implies #[trigger] slot_entry(after, seq![1u32], k) == Ok::<
        DirectoryEntryView,
        FsError,
    >(root_place(now, k).0) by {
        let idx = k as u32;
        assert(k / 16 == 0 && k % 16 == k);
        if k >= 2 {
            lemma_slot_in_cluster(cleared, 1, idx);
            assert(zeros(1024).subrange(64 * idx, 64 * idx + 64) =~= zeros(64));
            assert(first.slot(1, idx) == cleared.slot(1, idx));
            assert(after.slot(1, idx) == first.slot(1, idx));
        } else if k == 0 {
            assert(after.slot(1, 0) == first.slot(1, 0));
        }
    }
}

/// A listing of a fresh root directory shows 16 places: the directory itself
/// under the name `.`, then under the name `..`, then 14 unused slots.
pub proof fn lemma_root_listing(volume: Volume, now: u64)
    requires
        root_written(volume, now) is Ok,
    ensures
        dir_read(root_written(volume, now)->Ok_0, seq![1u32]) == Ok::<
            Seq<(DirectoryEntryView, FatEntry, u32)>,
            FsError,
        >(Seq::new(16, |k: int| root_place(now, k))),
{
    let after = root_written(volume, now)->Ok_0;
    let chain = seq![1u32];
    lemma_root_slots(volume, now);
    lemma_first_unreadable(after, chain, 0);
    assert forall|k: int| 0 <= k < 16 implies #[trigger] listing(after, chain)[k] == root_place(
        now,
        k,
    ) by {
        let before = slot_entries(after, chain, k);
        assert(k / 16 == 0 && k % 16 == k);
        if k > 0 {
            assert(before.last() == slot_entry(after, chain, k - 1)->Ok_0);
            assert(slot_entry(after, chain, k - 1)->Ok_0 == root_place(now, k - 1).0);
            assert(pending_name(before) =~= Seq::<char>::empty());
        }
        assert(pending_name(before) =~= Seq::<char>::empty());
        assert(Seq::<char>::empty() + seq!['.'] =~= seq!['.']);
        assert(Seq::<char>::empty() + seq!['.', '.'] =~= seq!['.', '.']);
    }
    assert(listing(after, chain) =~= Seq::new(16, |k: int| root_place(now, k)));
}

/// Makes the inode of the root directory under the name `name`.
fn root_entry(name: &str, now: u64) -> (entry: DirectoryEntry)
    ensures
        entry@ == DirectoryEntryView::Directory(root_inode(name@, now)),
{
    DirectoryEntry::Directory(Inode::new(String::from_str(name), 64, 0, 0, 0o755, now, now, now, 2, 1))
}

/// Makes cluster 1 the root directory: a chain of its own, cleared, with the
/// entries `.` and `..` in its first two slots. `now` is the time of creation in
/// milliseconds since the epoch. Where the device ends before the end of
/// cluster 1, only its table entry is written.
pub fn write_root_dir(fs: &mut FileSystem, now: u64) -> (result: Result<(), FsError>)
    ensures
        match root_written(old(fs).volume(), now) {
            Ok(after) => result is Ok && final(fs).volume() == after,
            Err(e) => result == Err::<(), FsError>(e) && final(fs).volume() == (match old(
                fs,
            ).volume().put_fat_entry(1, EOC) {
                Ok(claimed) => claimed,
                Err(_) => old(fs).volume(),
            }),
        },
{
    if let Err(e) = fs.write_fat_entry(1, EOC) {
        return Err(e);
    }
    let ghost claimed = fs.volume();
    let empty = [0u8; 1024];
    assert(empty@ =~= zeros(1024));
    if let Err(e) = fs.write_cluster(1, &empty) {
        return Err(e);
    }
    let ghost cleared = fs.volume();
    proof {
        reveal_strlit(".");
        reveal_strlit("..");
        assert("."@ =~= seq!['.']);
        assert(".."@ =~= seq!['.', '.']);
        lemma_dots_fit("."@);
        lemma_dots_fit(".."@);
        crate::fs::directory::lemma_entry_round_trip(
            DirectoryEntryView::Directory(root_inode("."@, now)),
        );
        crate::fs::directory::lemma_entry_round_trip(
            DirectoryEntryView::Directory(root_inode(".."@, now)),
        );
        crate::fs::basic_fs_io::lemma_splice(
            claimed.image,
            claimed.cluster_offset(1),
            zeros(1024),
        );
    }
    let dot = root_entry(".", now).encode();
    proof {
        crate::fs::basic_fs_io::lemma_splice(cleared.image, cleared.slot_offset(1, 0), dot@);
    }
    if let Err(e) = fs.write_raw_directory_entry(1, 0, &dot) {
        return Err(e);
    }
    let dots = root_entry("..", now).encode();
    fs.write_raw_directory_entry(1, 1, &dots)
}

} // verus!
