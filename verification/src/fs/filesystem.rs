//! What a protocol layer asks of the filesystem: the attributes of the entry at
//! an address, the entry of a name in a directory, the entries of a directory,
//! and the bytes of a file. An address names one slot of one cluster.

use vstd::prelude::*;
use vstd::string::*;
use crate::error::{BoundsError, FsError};
use crate::fs::basic_fs_io::{BaseIO, Volume};
use crate::fs::directory::{decoded, DirectoryEntry, DirectoryEntryView, Inode, InodeView};
use crate::fs::{dir_read, dir_view, lemma_first_unreadable, walk, FileSystem};
use crate::utility::fs_utility::{
    address_cluster, address_slot, from_inode, inode_address, to_inode,
};
use crate::FatEntry;

verus! {

/// Whether an entry is a directory or a file.
#[derive(Debug, Clone, Copy, PartialEq, Eq, Structural)]
pub enum FileKind {
    Directory,
    RegularFile,
}

/// What is known of a file or directory besides its name and content. Times are
/// milliseconds since the epoch.
#[derive(Debug, Clone, Copy, PartialEq, Eq, Structural)]
pub struct FileAttributes {
    pub ino: u64,
    pub size: u64,
    pub atime: u64,
    pub mtime: u64,
    pub ctime: u64,
    pub kind: FileKind,
    pub perm: u16,
    pub nlink: u32,
    pub uid: u32,
    pub gid: u32,
}

/// Why a request was not answered.
#[derive(Debug, Clone, Copy, PartialEq, Eq, Structural)]
pub enum AdapterError {
    /// The address names a slot that holds no inode of the kind that was asked for.
    BadDescriptor,
    /// The directory has no entry of that name, or the address names no file.
    NotFound,
    /// The filesystem could not be read.
    Fs(FsError),
}

/// The cluster and the slot that an address names.
pub open spec fn place(address: u64) -> Result<(FatEntry, u32), FsError> {
    if address == 0 || address_cluster(address) > u32::MAX {
        Err(FsError::Bounds(BoundsError::Address(address)))
    } else {
        Ok((address_cluster(address) as u32, address_slot(address) as u32))
    }
}

/// The entry in the slot that an address names.
pub open spec fn entry_at(volume: Volume, address: u64) -> Result<DirectoryEntryView, FsError> {
    match place(address) {
        Err(e) => Err(e),
        Ok((cluster, slot)) => match volume.slot(cluster, slot) {
            Err(e) => Err(e),
            Ok(raw) => decoded(raw),
        },
    }
}

/// The attributes of an inode of kind `kind` that stands at address `ino`.
pub open spec fn inode_attributes(ino: u64, kind: FileKind, inode: InodeView) -> FileAttributes {
    FileAttributes {
        ino,
        size: inode.length,
        atime: inode.atime,
        mtime: inode.mtime,
        ctime: inode.ctime,
        kind,
        perm: inode.permission,
        nlink: 1,
        uid: inode.uid,
        gid: inode.gid,
    }
}

/// The attributes of an entry that stands at address `ino`, if it is an inode.
pub open spec fn attributes_of(ino: u64, entry: DirectoryEntryView) -> Result<
    FileAttributes,
    AdapterError,
> {
    match entry {
        DirectoryEntryView::Directory(inode) => Ok(
            inode_attributes(ino, FileKind::Directory, inode),
        ),
        DirectoryEntryView::File(inode) => Ok(inode_attributes(ino, FileKind::RegularFile, inode)),
        _ => Err(AdapterError::BadDescriptor),
    }
}

/// What asking for the attributes at an address gives.
pub open spec fn attributes_at(volume: Volume, ino: u64) -> Result<FileAttributes, AdapterError> {
    match entry_at(volume, ino) {
        Err(e) => Err(AdapterError::Fs(e)),
        Ok(entry) => attributes_of(ino, entry),
    }
}

/// The listing of the directory whose inode stands at `address`.
pub open spec fn directory_at(volume: Volume, address: u64) -> Result<
    Seq<(DirectoryEntryView, FatEntry, u32)>,
    AdapterError,
> {
    match entry_at(volume, address) {
        Err(e) => Err(AdapterError::Fs(e)),
        Ok(DirectoryEntryView::Directory(inode)) => match walk(
            volume,
            inode.start_cluster,
            volume.fat_length as nat,
        ) {
            Err(e) => Err(AdapterError::Fs(e)),
            Ok(chain) => match dir_read(volume, chain) {
                Err(e) => Err(AdapterError::Fs(e)),
                Ok(places) => Ok(places),
            },
        },
        Ok(_) => Err(AdapterError::BadDescriptor),
    }
}

/// Whether `entry` is the inode of a file or directory called `name`.
pub open spec fn named(entry: DirectoryEntryView, name: Seq<char>) -> bool {
    match entry {
        DirectoryEntryView::Directory(inode) => inode.name == name,
        DirectoryEntryView::File(inode) => inode.name == name,
        _ => false,
    }
}

/// The first place at or behind `from` that holds an inode called `name`, or the
/// number of places where there is none.
pub open spec fn first_named(
    places: Seq<(DirectoryEntryView, FatEntry, u32)>,
    name: Seq<char>,
    from: int,
) -> int
    decreases places.len() - from,
{
    if from < 0 || from >= places.len() {
        places.len() as int
    } else if named(places[from].0, name) {
        from
    } else {
        first_named(places, name, from + 1)
    }
}

/// What looking up `name` in the directory at `parent` gives: the attributes of
/// the first entry of that name, under the address of the slot it stands in.
pub open spec fn looked_up(volume: Volume, parent: u64, name: Seq<char>) -> Result<
    FileAttributes,
    AdapterError,
> {
    match directory_at(volume, parent) {
        Err(e) => Err(e),
        Ok(places) => {
            let found = first_named(places, name, 0);
            if found < places.len() {
                attributes_of(
                    inode_address(places[found].1, places[found].2) as u64,
                    places[found].0,
                )
            } else {
                Err(AdapterError::NotFound)
            }
        },
    }
}

/// One entry of a directory, as a protocol layer lists it.
#[derive(Debug)]
pub struct DirectoryItem {
    /// The address of the slot that holds the inode.
    pub ino: u64,
    /// The number of places from the start of the listing to behind this entry.
    pub offset: u64,
    pub kind: FileKind,
    pub name: String,
}

/// A directory item, with its name as a sequence of characters.
pub struct DirectoryItemView {
    pub ino: u64,
    pub offset: u64,
    pub kind: FileKind,
    pub name: Seq<char>,
}

impl View for DirectoryItem {
    type V = DirectoryItemView;

    open spec fn view(&self) -> DirectoryItemView {
        DirectoryItemView { ino: self.ino, offset: self.offset, kind: self.kind, name: self.name@ }
    }
}

/// The items of a list, with their names as sequences of characters.
pub open spec fn items_view(items: Seq<DirectoryItem>) -> Seq<DirectoryItemView> {
    items.map_values(|item: DirectoryItem| item@)
}

/// The item for one place of a listing, if the place holds an inode.
pub open spec fn item_of(place: (DirectoryEntryView, FatEntry, u32), offset: int) -> Option<
    DirectoryItemView,
> {
    match place.0 {
        DirectoryEntryView::Directory(inode) => Some(
            DirectoryItemView {
                ino: inode_address(place.1, place.2) as u64,
                offset: offset as u64,
                kind: FileKind::Directory,
                name: inode.name,
            },
        ),
        DirectoryEntryView::File(inode) => Some(
            DirectoryItemView {
                ino: inode_address(place.1, place.2) as u64,
                offset: offset as u64,
                kind: FileKind::RegularFile,
                name: inode.name,
            },
        ),
        _ => None,
    }
}

/// The items for the `n` places from `start` on, in order. An item's offset
/// counts the places from `start` to behind it.
pub open spec fn items_from(
    places: Seq<(DirectoryEntryView, FatEntry, u32)>,
    start: int,
    n: int,
) -> Seq<DirectoryItemView>
    decreases n,
{
    if n <= 0 {
        Seq::empty()
    } else {
        let before = items_from(places, start, n - 1);
        match item_of(places[start + n - 1], n) {
            Some(item) => before.push(item),
            None => before,
        }
    }
}

/// What listing the directory at `ino` from place `offset` on gives. A negative
/// offset asks for nothing, and so does one behind the last place.
pub open spec fn listed_from(volume: Volume, ino: u64, offset: i64) -> Result<
    Seq<DirectoryItemView>,
    AdapterError,
> {
    if offset < 0 {
        Ok(Seq::empty())
    } else {
        match directory_at(volume, ino) {
            Err(e) => Err(e),
            Ok(places) => if offset > places.len() {
                Ok(Seq::empty())
            } else {
                Ok(items_from(places, offset as int, places.len() - offset))
            },
        }
    }
}

/// The smaller of two numbers.
pub open spec fn least(a: int, b: int) -> int {
    if a <= b {
        a
    } else {
        b
    }
}

/// The bytes of the file with inode `inode` from byte `offset` on: at most `size`
/// of them, and none behind the end of the file or of the cluster that holds
/// byte `offset`. A file ends where its length says, or with its last cluster.
pub open spec fn piece(volume: Volume, inode: InodeView, offset: u64, size: u32) -> Result<
    Seq<u8>,
    AdapterError,
> {
    match walk(volume, inode.start_cluster, volume.fat_length as nat) {
        Err(e) => Err(AdapterError::Fs(e)),
        Ok(chain) => {
            let index = offset as int / 1024;
            let within = offset as int % 1024;
            if offset >= inode.length || index >= chain.len() {
                Ok(Seq::empty())
            } else {
                match volume.cluster(chain[index]) {
                    Err(e) => Err(AdapterError::Fs(e)),
                    Ok(bytes) => {
                        let count = least(
                            least(1024 - within, size as int),
                            inode.length - offset,
                        );
                        Ok(bytes.subrange(within, within + count))
                    },
                }
            }
        },
    }
}

/// What reading the file whose inode stands at `ino` gives.
pub open spec fn read_at(volume: Volume, ino: u64, offset: u64, size: u32) -> Result<
    Seq<u8>,
    AdapterError,
> {
    match entry_at(volume, ino) {
        Err(e) => Err(AdapterError::Fs(e)),
        Ok(DirectoryEntryView::File(inode)) => piece(volume, inode, offset, size),
        Ok(_) => Err(AdapterError::NotFound),
    }
}

/// Every place of a listing lies in a cluster with a number of 1 or more, in a
/// slot below 16.
pub proof fn lemma_listing_places(volume: Volume, chain: Seq<FatEntry>)
    requires
        dir_read(volume, chain) is Ok,
    ensures
        ({
            let places = dir_read(volume, chain)->Ok_0;
            &&& places.len() == 16 * chain.len()
            &&& forall|k: int| 0 <= k < places.len() ==> (#[trigger] places[k]).1 >= 1
            &&& forall|k: int| 0 <= k < places.len() ==> (#[trigger] places[k]).2 < 16
        }),
{
    lemma_first_unreadable(volume, chain, 0);
    let places = dir_read(volume, chain)->Ok_0;
    assert forall|k: int| 0 <= k < places.len() implies (#[trigger] places[k]).1 >= 1 by {}
}

/// Tells the cluster and the slot that an address names. Address 0 names none,
/// nor does an address behind the last slot of the last cluster that a table
/// entry can name.
pub fn resolve(address: u64) -> (result: Result<(FatEntry, u32), FsError>)
    ensures
        result == place(address),
{
    if address == 0 || (address - 1) / 16 + 1 > 0xFFFF_FFFF {
        Err(FsError::Bounds(BoundsError::Address(address)))
    } else {
        Ok(from_inode(address))
    }
}

/// The attributes of an inode of kind `kind` that stands at address `ino`.
fn attributes(ino: u64, kind: FileKind, inode: &Inode) -> (attr: FileAttributes)
    ensures
        attr == inode_attributes(ino, kind, inode@),
{
    FileAttributes {
        ino,
        size: inode.length,
        atime: inode.atime,
        mtime: inode.mtime,
        ctime: inode.ctime,
        kind,
        perm: inode.permission,
        nlink: 1,
        uid: inode.uid,
        gid: inode.gid,
    }
}

impl FileSystem {
    /// Reads and decodes the slot that `address` names.
    pub fn entry(&mut self, address: u64) -> (result: Result<DirectoryEntry, FsError>)
        ensures
            final(self).volume() == old(self).volume(),
            match entry_at(old(self).volume(), address) {
                Ok(entry) => result matches Ok(read) && read@ == entry,
                Err(e) => result matches Err(err) && err == e,
            },
    {
        let (cluster, slot) = match resolve(address) {
            Err(e) => {
                return Err(e);
            },
            Ok(place) => place,
        };
        match self.read_raw_directory_entry(cluster, slot) {
            Err(e) => Err(e),
            Ok(raw) => DirectoryEntry::decode(&raw),
        }
    }

    /// Reads the directory whose inode stands at `address`.
    fn directory(&mut self, address: u64) -> (result: Result<crate::Dir, AdapterError>)
        ensures
            final(self).volume() == old(self).volume(),
            match directory_at(old(self).volume(), address) {
                Ok(places) => result matches Ok(dir) && dir_view(dir@) == places && (forall|k: int|
                    0 <= k < dir@.len() ==> (#[trigger] dir@[k]).1 >= 1),
                Err(e) => result matches Err(err) && err == e,
            },
    {
        let start = match self.entry(address) {
            Err(e) => {
                return Err(AdapterError::Fs(e));
            },
            Ok(DirectoryEntry::Directory(inode)) => inode.start_cluster,
            Ok(_) => {
                return Err(AdapterError::BadDescriptor);
            },
        };
        let chain = match self.get_chain(start) {
            Err(e) => {
                return Err(AdapterError::Fs(e));
            },
            Ok(chain) => chain,
        };
        match self.read_dir(&chain) {
            Err(e) => Err(AdapterError::Fs(e)),
            Ok(dir) => {
                proof {
                    lemma_listing_places(self.volume(), chain@);
                    let places = dir_view(dir@);
                    assert forall|k: int| 0 <= k < dir@.len() implies (#[trigger] dir@[k]).1
                        >= 1 by {
                        assert(places[k].1 == dir@[k].1);
                    }
                }
                Ok(dir)
            },
        }
    }

    /// Looks for the entry called `name` in the directory whose inode stands at
    /// `parent`, and tells its attributes.
    pub fn lookup(&mut self, parent: u64, name: &str) -> (result: Result<
        FileAttributes,
        AdapterError,
    >)
        ensures
            final(self).volume() == old(self).volume(),
            result == looked_up(old(self).volume(), parent, name@),
    {
        let dir = match self.directory(parent) {
            Err(e) => {
                return Err(e);
            },
            Ok(dir) => dir,
        };
        let ghost places = dir_view(dir@);
        let wanted = String::from_str(name);
        let count = dir.len();
        let mut k: usize = 0;
        while k < count
            invariant
                k <= count,
                count == dir@.len(),
                places == dir_view(dir@),
                wanted@ == name@,
                self.volume() == old(self).volume(),
                directory_at(old(self).volume(), parent) == Ok::<
                    Seq<(DirectoryEntryView, FatEntry, u32)>,
                    AdapterError,
                >(places),
                forall|at: int| 0 <= at < dir@.len() ==> (#[trigger] dir@[at]).1 >= 1,
                first_named(places, name@, 0) == first_named(places, name@, k as int),
            decreases count - k,
        {
            let place = &dir[k];
            match &place.0 {
                DirectoryEntry::Directory(inode) => {
                    if inode.name == wanted {
                        return Ok(
                            attributes(to_inode(place.1, place.2), FileKind::Directory, inode),
                        );
                    }
                },
                DirectoryEntry::File(inode) => {
                    if inode.name == wanted {
                        return Ok(
                            attributes(to_inode(place.1, place.2), FileKind::RegularFile, inode),
                        );
                    }
                },
                _ => {},
            }
            k += 1;
        }
        Err(AdapterError::NotFound)
    }

    /// Lists the files and directories in the directory whose inode stands at
    /// `ino`, from place `offset` of its listing on.
    pub fn readdir(&mut self, ino: u64, offset: i64) -> (result: Result<
        Vec<DirectoryItem>,
        AdapterError,
    >)
        ensures
            final(self).volume() == old(self).volume(),
            match listed_from(old(self).volume(), ino, offset) {
                Ok(items) => result matches Ok(list) && items_view(list@) == items,
                Err(e) => result matches Err(err) && err == e,
            },
    {
        let mut list: Vec<DirectoryItem> = Vec::new();
        if offset < 0 {
            return Ok(list);
        }
        let dir = match self.directory(ino) {
            Err(e) => {
                return Err(e);
            },
            Ok(dir) => dir,
        };
        let ghost places = dir_view(dir@);
        let count = dir.len();
        if offset as u64 > count as u64 {
            return Ok(list);
        }
        let start = offset as usize;
        let mut k: usize = start;
        while k < count
            invariant
                start <= k <= count,
                count == dir@.len(),
                places == dir_view(dir@),
                self.volume() == old(self).volume(),
                forall|at: int| 0 <= at < dir@.len() ==> (#[trigger] dir@[at]).1 >= 1,
                items_view(list@) == items_from(places, start as int, k - start),
            decreases count - k,
        {
            let place = &dir[k];
            match &place.0 {
                DirectoryEntry::Directory(inode) => {
                    list.push(
                        DirectoryItem {
                            ino: to_inode(place.1, place.2),
                            offset: (k - start) as u64 + 1,
                            kind: FileKind::Directory,
                            name: inode.name.clone(),
                        },
                    );
                },
                DirectoryEntry::File(inode) => {
                    list.push(
                        DirectoryItem {
                            ino: to_inode(place.1, place.2),
                            offset: (k - start) as u64 + 1,
                            kind: FileKind::RegularFile,
                            name: inode.name.clone(),
                        },
                    );
                },
                _ => {},
            }
            k += 1;
        }
        Ok(list)
    }

    /// Reads up to `size` bytes of the file whose inode stands at `ino`, from byte
    /// `offset` on. One call reads from one cluster.
    pub fn read(&mut self, ino: u64, offset: u64, size: u32) -> (result: Result<
        Vec<u8>,
        AdapterError,
    >)
        ensures
            final(self).volume() == old(self).volume(),
            match read_at(old(self).volume(), ino, offset, size) {
                Ok(bytes) => result matches Ok(read) && read@ == bytes,
                Err(e) => result matches Err(err) && err == e,
            },
    {
        let (start, length) = match self.entry(ino) {
            Err(e) => {
                return Err(AdapterError::Fs(e));
            },
            Ok(DirectoryEntry::File(inode)) => (inode.start_cluster, inode.length),
            Ok(_) => {
                return Err(AdapterError::NotFound);
            },
        };
        let chain = match self.get_chain(start) {
            Err(e) => {
                return Err(AdapterError::Fs(e));
            },
            Ok(chain) => chain,
        };
        let mut read: Vec<u8> = Vec::new();
        let index: u64 = offset / 1024;
        let within: usize = (offset % 1024) as usize;
        if offset >= length || index >= chain.len() as u64 {
            return Ok(read);
        }
        let content = match self.read_cluster(chain[index as usize]) {
            Err(e) => {
                return Err(AdapterError::Fs(e));
            },
            Ok(content) => content,
        };
        let mut count: u64 = 1024 - within as u64;
        if size as u64 <= count {
            count = size as u64;
        }
        if length - offset <= count {
            count = length - offset;
        }
        let end: usize = within + count as usize;
        let mut at: usize = within;
        while at < end
            invariant
                within <= at <= end <= 1024,
                content@.len() == 1024,
                read@ == content@.subrange(within as int, at as int),
            decreases end - at,
        {
            read.push(content[at]);
            at += 1;
        }
        Ok(read)
    }

    /// The attributes of the file or directory whose inode stands at `ino`.
    pub fn getattr(&mut self, ino: u64) -> (result: Result<FileAttributes, AdapterError>)
        ensures
            final(self).volume() == old(self).volume(),
            result == attributes_at(old(self).volume(), ino),
    {
        match self.entry(ino) {
            Err(e) => Err(AdapterError::Fs(e)),
            Ok(DirectoryEntry::Directory(inode)) => Ok(
                attributes(ino, FileKind::Directory, &inode),
            ),
            Ok(DirectoryEntry::File(inode)) => Ok(attributes(ino, FileKind::RegularFile, &inode)),
            Ok(_) => Err(AdapterError::BadDescriptor),
        }
    }
}

} // verus!
