use naths_fat_fs::error::{BoundsError, FsError};
use naths_fat_fs::fs::basic_fs_io::{BaseIO, FileSystemBasicIO};
use naths_fat_fs::fs::directory::{DirectoryEntry, Inode};
use naths_fat_fs::fs::filesystem::{resolve, AdapterError, FileAttributes, FileKind};
use naths_fat_fs::fs::FileSystem;
use naths_fat_fs::mkfs::{write_data_section, write_prelude, write_root_dir};
use naths_fat_fs::utility::fs_utility::{from_inode, to_inode};

fn sample() -> FileSystem {
    let mut image = Vec::new();
    write_prelude(16, &mut image);
    write_data_section(16, &mut image);
    let mut fs = FileSystem { io: FileSystemBasicIO::open_file_system(image).unwrap() };
    write_root_dir(&mut fs, 100).unwrap();

    let mut hello = Vec::new();
    fs.append_to_chain(&mut hello).unwrap();
    fs.append_to_chain(&mut hello).unwrap();
    assert_eq!(hello, vec![2, 3]);
    let mut first = [0u8; 1024];
    let mut second = [0u8; 1024];
    for i in 0..1024 {
        first[i] = (i % 200) as u8;
        second[i] = (i % 100) as u8 + 100;
    }
    fs.write_cluster(2, &first).unwrap();
    fs.write_cluster(3, &second).unwrap();
    let file = Inode::new("Hello.txt".to_string(), 1500, 1000, 1001, 0o666, 11, 12, 13, 1, 2);
    fs.write_raw_directory_entry(1, 2, &DirectoryEntry::File(file).encode()).unwrap();

    let mut sub = Vec::new();
    fs.append_dir_to_chain(&mut sub).unwrap();
    assert_eq!(sub, vec![4]);
    let dir = Inode::new("sub".to_string(), 64, 7, 8, 0o755, 21, 22, 23, 2, 4);
    fs.write_raw_directory_entry(1, 3, &DirectoryEntry::Directory(dir).encode()).unwrap();
    let inner = Inode::new("inner".to_string(), 0, 7, 8, 0o600, 31, 32, 33, 1, 0xFFFF_FFFF);
    fs.write_raw_directory_entry(4, 5, &DirectoryEntry::File(inner).encode()).unwrap();
    let fragment = DirectoryEntry::LongFileName("frag".to_string());
    fs.write_raw_directory_entry(1, 4, &fragment.encode()).unwrap();
    fs
}

#[test]
fn addresses_count_slots_from_one() {
    assert_eq!(to_inode(1, 0), 1);
    assert_eq!(to_inode(1, 15), 16);
    assert_eq!(to_inode(2, 0), 17);
    assert_eq!(to_inode(0xFFFF_FFFF, 15), 0xFFFF_FFFF * 16);
    assert_eq!(from_inode(1), (1, 0));
    assert_eq!(from_inode(16), (1, 15));
    assert_eq!(from_inode(17), (2, 0));
    for cluster in [1u32, 2, 16, 1000, 0xFFFF_FFFF] {
        for slot in 0..16u32 {
            assert_eq!(from_inode(to_inode(cluster, slot)), (cluster, slot));
        }
    }
    for address in [1u64, 2, 16, 17, 12345, 0xF_FFFF_FFF0] {
        let (cluster, slot) = from_inode(address);
        assert_eq!(to_inode(cluster, slot), address);
    }
}

#[test]
fn resolve_rejects_addresses_that_name_no_slot() {
    assert_eq!(resolve(0), Err(FsError::Bounds(BoundsError::Address(0))));
    assert_eq!(resolve(1), Ok((1, 0)));
    assert_eq!(resolve(40), Ok((3, 7)));
    assert_eq!(resolve(0xFFFF_FFFF * 16), Ok((0xFFFF_FFFF, 15)));
    assert_eq!(
        resolve(0xFFFF_FFFF * 16 + 1),
        Err(FsError::Bounds(BoundsError::Address(0xFFFF_FFFF * 16 + 1)))
    );
    assert_eq!(resolve(u64::MAX), Err(FsError::Bounds(BoundsError::Address(u64::MAX))));
}

#[test]
fn getattr_tells_what_the_inode_says() {
    let mut fs = sample();
    assert_eq!(
        fs.getattr(3),
        Ok(FileAttributes {
            ino: 3,
            size: 1500,
            atime: 13,
            mtime: 12,
            ctime: 11,
            kind: FileKind::RegularFile,
            perm: 0o666,
            nlink: 1,
            uid: 1000,
            gid: 1001,
        })
    );
    assert_eq!(
        fs.getattr(1),
        Ok(FileAttributes {
            ino: 1,
            size: 64,
            atime: 100,
            mtime: 100,
            ctime: 100,
            kind: FileKind::Directory,
            perm: 0o755,
            nlink: 1,
            uid: 0,
            gid: 0,
        })
    );
    assert_eq!(fs.getattr(4).map(|a| (a.kind, a.perm, a.uid)), Ok((FileKind::Directory, 0o755, 7)));
}

#[test]
fn getattr_of_a_slot_without_an_inode_is_a_bad_descriptor() {
    let mut fs = sample();
    assert_eq!(fs.getattr(5), Err(AdapterError::BadDescriptor));
    assert_eq!(fs.getattr(6), Err(AdapterError::BadDescriptor));
}

#[test]
fn getattr_of_no_address_is_a_bounds_error() {
    let mut fs = sample();
    assert_eq!(fs.getattr(0), Err(AdapterError::Fs(FsError::Bounds(BoundsError::Address(0)))));
    assert_eq!(
        fs.getattr(16 * 16 + 1),
        Err(AdapterError::Fs(FsError::Bounds(BoundsError::OutOfBounds(17))))
    );
}

#[test]
fn lookup_finds_an_entry_by_its_name() {
    let mut fs = sample();
    let found = fs.lookup(1, "Hello.txt").unwrap();
    assert_eq!(found.ino, 3);
    assert_eq!(found.kind, FileKind::RegularFile);
    assert_eq!(found.size, 1500);
    assert_eq!(Ok(found), fs.getattr(3));

    let found = fs.lookup(1, "sub").unwrap();
    assert_eq!(found.ino, 4);
    assert_eq!(found.kind, FileKind::Directory);

    assert_eq!(fs.lookup(1, ".").map(|a| a.ino), Ok(1));
    assert_eq!(fs.lookup(1, "..").map(|a| a.ino), Ok(2));
    assert_eq!(fs.lookup(4, "inner").map(|a| a.ino), Ok(to_inode(4, 5)));
}

#[test]
fn lookup_of_a_name_that_is_not_there_finds_nothing() {
    let mut fs = sample();
    assert_eq!(fs.lookup(1, "hello.txt"), Err(AdapterError::NotFound));
    assert_eq!(fs.lookup(1, ""), Err(AdapterError::NotFound));
    assert_eq!(fs.lookup(1, "frag"), Err(AdapterError::NotFound));
    assert_eq!(fs.lookup(4, "Hello.txt"), Err(AdapterError::NotFound));
}

#[test]
fn lookup_in_what_is_no_directory_is_a_bad_descriptor() {
    let mut fs = sample();
    assert_eq!(fs.lookup(3, "x"), Err(AdapterError::BadDescriptor));
    assert_eq!(fs.lookup(5, "x"), Err(AdapterError::BadDescriptor));
    assert_eq!(fs.lookup(6, "x"), Err(AdapterError::BadDescriptor));
    assert_eq!(fs.lookup(0, "x"), Err(AdapterError::Fs(FsError::Bounds(BoundsError::Address(0)))));
}

#[test]
fn lookup_takes_the_first_of_two_entries_of_one_name() {
    let mut fs = sample();
    let twin = Inode::new("Hello.txt".to_string(), 9, 0, 0, 0, 0, 0, 0, 1, 3);
    fs.write_raw_directory_entry(1, 9, &DirectoryEntry::File(twin).encode()).unwrap();
    assert_eq!(fs.lookup(1, "Hello.txt").map(|a| (a.ino, a.size)), Ok((3, 1500)));
}

#[test]
fn readdir_lists_the_inodes_of_a_directory() {
    let mut fs = sample();
    let items = fs.readdir(1, 0).unwrap();
    let seen: Vec<(u64, u64, FileKind, &str)> =
        items.iter().map(|i| (i.ino, i.offset, i.kind, i.name.as_str())).collect();
    assert_eq!(
        seen,
        vec![
            (1, 1, FileKind::Directory, "."),
            (2, 2, FileKind::Directory, ".."),
            (3, 3, FileKind::RegularFile, "Hello.txt"),
            (4, 4, FileKind::Directory, "sub"),
        ]
    );
    let items = fs.readdir(4, 0).unwrap();
    let seen: Vec<(u64, u64, FileKind, &str)> =
        items.iter().map(|i| (i.ino, i.offset, i.kind, i.name.as_str())).collect();
    assert_eq!(seen, vec![(to_inode(4, 5), 6, FileKind::RegularFile, "inner")]);
}

#[test]
fn readdir_starts_at_the_offset_and_counts_from_there() {
    let mut fs = sample();
    let items = fs.readdir(1, 2).unwrap();
    let seen: Vec<(u64, u64, &str)> =
        items.iter().map(|i| (i.ino, i.offset, i.name.as_str())).collect();
    assert_eq!(seen, vec![(3, 1, "Hello.txt"), (4, 2, "sub")]);
    assert_eq!(fs.readdir(1, 4).unwrap().len(), 0);
    assert_eq!(fs.readdir(1, 16).unwrap().len(), 0);
}

#[test]
fn readdir_with_a_negative_or_too_large_offset_lists_nothing() {
    let mut fs = sample();
    assert_eq!(fs.readdir(1, -1).unwrap().len(), 0);
    assert_eq!(fs.readdir(3, -1).unwrap().len(), 0);
    assert_eq!(fs.readdir(1, i64::MIN).unwrap().len(), 0);
    assert_eq!(fs.readdir(1, 17).unwrap().len(), 0);
    assert_eq!(fs.readdir(1, i64::MAX).unwrap().len(), 0);
}

#[test]
fn readdir_of_what_is_no_directory_is_a_bad_descriptor() {
    let mut fs = sample();
    assert_eq!(fs.readdir(3, 0).err(), Some(AdapterError::BadDescriptor));
    assert_eq!(fs.readdir(5, 0).err(), Some(AdapterError::BadDescriptor));
    assert_eq!(fs.readdir(6, 0).err(), Some(AdapterError::BadDescriptor));
}

#[test]
fn read_gives_the_bytes_of_a_file_cluster_by_cluster() {
    let mut fs = sample();
    let first: Vec<u8> = (0..1024).map(|i| (i % 200) as u8).collect();
    let second: Vec<u8> = (0..1024).map(|i| (i % 100) as u8 + 100).collect();
    assert_eq!(fs.read(3, 0, 4096), Ok(first.clone()));
    assert_eq!(fs.read(3, 0, 10), Ok(first[0..10].to_vec()));
    assert_eq!(fs.read(3, 1000, 10), Ok(first[1000..1010].to_vec()));
    assert_eq!(fs.read(3, 1000, 100), Ok(first[1000..1024].to_vec()));
    assert_eq!(fs.read(3, 1024, 4096), Ok(second[0..476].to_vec()));
    assert_eq!(fs.read(3, 1030, 5), Ok(second[6..11].to_vec()));
    assert_eq!(fs.read(3, 1499, 5), Ok(second[475..476].to_vec()));
    assert_eq!(fs.read(3, 1500, 5), Ok(vec![]));
    assert_eq!(fs.read(3, 5000, 5), Ok(vec![]));
    assert_eq!(fs.read(3, 0, 0), Ok(vec![]));
    assert_eq!(fs.read(3, u64::MAX, u32::MAX), Ok(vec![]));
}

#[test]
fn read_stops_where_the_chain_ends_before_the_length() {
    let mut fs = sample();
    let long = Inode::new("long".to_string(), 5000, 0, 0, 0, 0, 0, 0, 1, 2);
    fs.write_raw_directory_entry(1, 8, &DirectoryEntry::File(long).encode()).unwrap();
    assert_eq!(fs.read(9, 1024, 4096).map(|b| b.len()), Ok(1024));
    assert_eq!(fs.read(9, 2048, 4096), Ok(vec![]));
    assert_eq!(fs.read(to_inode(4, 5), 0, 10), Ok(vec![]));
}

#[test]
fn read_of_what_is_no_file_finds_nothing() {
    let mut fs = sample();
    assert_eq!(fs.read(1, 0, 10), Err(AdapterError::NotFound));
    assert_eq!(fs.read(4, 0, 10), Err(AdapterError::NotFound));
    assert_eq!(fs.read(5, 0, 10), Err(AdapterError::NotFound));
    assert_eq!(fs.read(6, 0, 10), Err(AdapterError::NotFound));
    assert_eq!(
        fs.read(0, 0, 10),
        Err(AdapterError::Fs(FsError::Bounds(BoundsError::Address(0))))
    );
}

#[test]
fn a_file_with_a_broken_chain_is_not_read() {
    let mut fs = sample();
    fs.write_fat_entry(3, 2).unwrap();
    assert_eq!(fs.read(3, 0, 10), Err(AdapterError::Fs(FsError::Cycle)));
    fs.write_fat_entry(3, 0).unwrap();
    assert_eq!(
        fs.read(3, 0, 10),
        Err(AdapterError::Fs(FsError::Bounds(BoundsError::Unallocated)))
    );
}

#[test]
fn entry_reads_the_slot_at_an_address() {
    let mut fs = sample();
    match fs.entry(3) {
        Ok(DirectoryEntry::File(inode)) => assert_eq!(inode.name, "Hello.txt"),
        other => panic!("entry {:?}", other),
    }
    match fs.entry(5) {
        Ok(DirectoryEntry::LongFileName(text)) => assert_eq!(text, "frag"),
        other => panic!("entry {:?}", other),
    }
    assert!(matches!(fs.entry(6), Ok(DirectoryEntry::Invalid)));
    assert!(matches!(fs.entry(0), Err(FsError::Bounds(BoundsError::Address(0)))));
}
