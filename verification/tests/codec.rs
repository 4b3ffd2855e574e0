use naths_fat_fs::error::FsError;
use naths_fat_fs::fs::directory::{DirectoryEntry, Inode};

fn sample(name: &str) -> Inode {
    Inode::new(
        name.to_string(),
        0x0000_0605_0403_0201,
        0x1122_3344,
        0x5566_7788,
        0o644,
        0x0000_1A1B_1C1D_1E1F,
        0x0000_2A2B_2C2D_2E2F,
        0x0000_3A3B_3C3D_3E3F,
        3,
        0x0A0B_0C0D,
    )
}

fn same(a: &Inode, b: &Inode) -> bool {
    a.name == b.name
        && a.length == b.length
        && a.uid == b.uid
        && a.gid == b.gid
        && a.permission == b.permission
        && a.ctime == b.ctime
        && a.mtime == b.mtime
        && a.atime == b.atime
        && a.number_of_hlinks == b.number_of_hlinks
        && a.start_cluster == b.start_cluster
}

#[test]
fn new_keeps_every_field() {
    let inode = sample("a");
    assert_eq!(inode.name, "a");
    assert_eq!(inode.length, 0x0000_0605_0403_0201);
    assert_eq!(inode.uid, 0x1122_3344);
    assert_eq!(inode.gid, 0x5566_7788);
    assert_eq!(inode.permission, 0o644);
    assert_eq!(inode.ctime, 0x0000_1A1B_1C1D_1E1F);
    assert_eq!(inode.mtime, 0x0000_2A2B_2C2D_2E2F);
    assert_eq!(inode.atime, 0x0000_3A3B_3C3D_3E3F);
    assert_eq!(inode.number_of_hlinks, 3);
    assert_eq!(inode.start_cluster, 0x0A0B_0C0D);
}

#[test]
fn an_inode_is_laid_out_byte_by_byte() {
    let raw = sample("Hello.txt").encode();
    let mut expected = [0u8; 64];
    expected[0] = 0x30;
    expected[1..5].copy_from_slice(&[0x44, 0x33, 0x22, 0x11]);
    expected[5..9].copy_from_slice(&[0x88, 0x77, 0x66, 0x55]);
    expected[9..15].copy_from_slice(&[0x1F, 0x1E, 0x1D, 0x1C, 0x1B, 0x1A]);
    expected[15..21].copy_from_slice(&[0x2F, 0x2E, 0x2D, 0x2C, 0x2B, 0x2A]);
    expected[21..27].copy_from_slice(&[0x3F, 0x3E, 0x3D, 0x3C, 0x3B, 0x3A]);
    expected[27..29].copy_from_slice(&[0xA4, 0x01]);
    expected[29..33].copy_from_slice(&[0x0D, 0x0C, 0x0B, 0x0A]);
    expected[33..39].copy_from_slice(&[0x01, 0x02, 0x03, 0x04, 0x05, 0x06]);
    expected[39..48].copy_from_slice(b"Hello.txt");
    assert_eq!(raw, expected);

    let mut file = expected;
    file[0] = 0x31;
    assert_eq!(DirectoryEntry::File(sample("Hello.txt")).encode(), file);
    let mut directory = expected;
    directory[0] = 0x35;
    assert_eq!(DirectoryEntry::Directory(sample("Hello.txt")).encode(), directory);
}

#[test]
fn an_unused_entry_is_all_zero() {
    assert_eq!(DirectoryEntry::Invalid.encode(), [0u8; 64]);
    assert!(matches!(DirectoryEntry::decode(&[0u8; 64]), Ok(DirectoryEntry::Invalid)));
}

#[test]
fn a_slot_with_bit_0_clear_is_unused_whatever_else_it_holds() {
    let mut raw = [0xFFu8; 64];
    raw[0] = 0xFE;
    assert!(matches!(DirectoryEntry::decode(&raw), Ok(DirectoryEntry::Invalid)));
    raw[0] = 0x06;
    assert!(matches!(DirectoryEntry::decode(&raw), Ok(DirectoryEntry::Invalid)));
}

#[test]
fn a_fragment_is_laid_out_byte_by_byte() {
    let raw = DirectoryEntry::LongFileName("long".to_string()).encode();
    let mut expected = [0u8; 64];
    expected[0] = 3;
    expected[1..5].copy_from_slice(b"long");
    assert_eq!(raw, expected);
    match DirectoryEntry::decode(&raw) {
        Ok(DirectoryEntry::LongFileName(text)) => assert_eq!(text, "long"),
        other => panic!("decoded {:?}", other),
    }
}

#[test]
fn a_fragment_wins_over_the_directory_bit() {
    let mut raw = [0u8; 64];
    raw[0] = 7;
    raw[1] = b'x';
    match DirectoryEntry::decode(&raw) {
        Ok(DirectoryEntry::LongFileName(text)) => assert_eq!(text, "x"),
        other => panic!("decoded {:?}", other),
    }
}

#[test]
fn a_file_comes_back_from_its_slot() {
    let inode = sample("Hello.txt");
    match DirectoryEntry::decode(&DirectoryEntry::File(sample("Hello.txt")).encode()) {
        Ok(DirectoryEntry::File(read)) => assert!(same(&read, &inode)),
        other => panic!("decoded {:?}", other),
    }
    match Inode::decode(&inode.encode()) {
        Ok(read) => assert!(same(&read, &inode)),
        other => panic!("decoded {:?}", other),
    }
}

#[test]
fn a_directory_comes_back_from_its_slot() {
    let inode = sample("dir");
    match DirectoryEntry::decode(&DirectoryEntry::Directory(sample("dir")).encode()) {
        Ok(DirectoryEntry::Directory(read)) => assert!(same(&read, &inode)),
        other => panic!("decoded {:?}", other),
    }
}

#[test]
fn times_and_length_keep_48_bits_and_the_link_count_4() {
    let inode = Inode::new(
        "t".to_string(),
        0xFFFF_0000_0000_0001,
        1,
        2,
        0xFFFF,
        0x0001_0000_0000_0002,
        0xABCD_1234_5678_9ABC,
        u64::MAX,
        0x1F,
        5,
    );
    match DirectoryEntry::decode(&DirectoryEntry::File(inode).encode()) {
        Ok(DirectoryEntry::File(read)) => {
            assert_eq!(read.length, 1);
            assert_eq!(read.ctime, 2);
            assert_eq!(read.mtime, 0x1234_5678_9ABC);
            assert_eq!(read.atime, 0xFFFF_FFFF_FFFF);
            assert_eq!(read.number_of_hlinks, 0x0F);
            assert_eq!(read.permission, 0xFFFF);
            assert_eq!(read.uid, 1);
            assert_eq!(read.gid, 2);
            assert_eq!(read.start_cluster, 5);
            assert_eq!(read.name, "t");
        }
        other => panic!("decoded {:?}", other),
    }
}

#[test]
fn a_name_of_25_bytes_fills_the_field() {
    let name = "abcdefghijklmnopqrstuvwxy";
    assert_eq!(name.len(), 25);
    let inode = sample(name);
    assert!(inode.fits());
    let raw = inode.encode();
    assert_eq!(&raw[39..64], name.as_bytes());
    match Inode::decode(&raw) {
        Ok(read) => assert_eq!(read.name, name),
        other => panic!("decoded {:?}", other),
    }
    assert!(!sample("abcdefghijklmnopqrstuvwxyz").fits());
    assert!(!DirectoryEntry::File(sample("abcdefghijklmnopqrstuvwxyz")).fits());
}

#[test]
fn a_fragment_holds_63_bytes() {
    let text = "x".repeat(63);
    let entry = DirectoryEntry::LongFileName(text.clone());
    assert!(entry.fits());
    let raw = entry.encode();
    assert_eq!(&raw[1..64], text.as_bytes());
    match DirectoryEntry::decode(&raw) {
        Ok(DirectoryEntry::LongFileName(read)) => assert_eq!(read, text),
        other => panic!("decoded {:?}", other),
    }
    assert!(!DirectoryEntry::LongFileName("x".repeat(64)).fits());
    assert!(DirectoryEntry::Invalid.fits());
}

#[test]
fn names_count_in_bytes_not_characters() {
    let name = "ääääääääääää";
    assert_eq!(name.len(), 24);
    assert!(sample(name).fits());
    match Inode::decode(&sample(name).encode()) {
        Ok(read) => assert_eq!(read.name, name),
        other => panic!("decoded {:?}", other),
    }
    assert!(!sample("äääääääääääää").fits());
}

#[test]
fn an_empty_name_comes_back_empty() {
    match Inode::decode(&sample("").encode()) {
        Ok(read) => assert_eq!(read.name, ""),
        other => panic!("decoded {:?}", other),
    }
}

#[test]
fn trailing_nul_is_trimmed_and_other_nul_is_kept() {
    match Inode::decode(&sample("a\0b\0\0").encode()) {
        Ok(read) => assert_eq!(read.name, "a\0b"),
        other => panic!("decoded {:?}", other),
    }
    match Inode::decode(&sample("\0a").encode()) {
        Ok(read) => assert_eq!(read.name, "\0a"),
        other => panic!("decoded {:?}", other),
    }
}

#[test]
fn a_name_that_is_not_utf8_is_an_encoding_error() {
    let mut raw = DirectoryEntry::File(sample("ok")).encode();
    raw[39] = 0xFF;
    assert!(matches!(DirectoryEntry::decode(&raw), Err(FsError::Encoding)));
    assert!(matches!(Inode::decode(&raw), Err(FsError::Encoding)));

    let mut raw = DirectoryEntry::LongFileName("ok".to_string()).encode();
    raw[63] = 0xC3;
    assert!(matches!(DirectoryEntry::decode(&raw), Err(FsError::Encoding)));
    raw[63] = 0;
    raw[2] = 0x80;
    assert!(matches!(DirectoryEntry::decode(&raw), Err(FsError::Encoding)));
}

#[test]
fn the_name_of_an_unused_slot_is_not_looked_at() {
    let mut raw = [0u8; 64];
    raw[39] = 0xFF;
    assert!(matches!(DirectoryEntry::decode(&raw), Ok(DirectoryEntry::Invalid)));
}
