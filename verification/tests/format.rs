use naths_fat_fs::error::FsError;
use naths_fat_fs::fs::basic_fs_io::{BaseIO, FileSystemBasicIO};
use naths_fat_fs::fs::directory::DirectoryEntry;
use naths_fat_fs::fs::FileSystem;
use naths_fat_fs::mkfs::{write_data_section, write_prelude, write_root_dir};

#[test]
fn the_prelude_is_laid_out_byte_by_byte() {
    let mut image = Vec::new();
    write_prelude(3, &mut image);
    let mut expected = b"NathFATfs".to_vec();
    expected.push(1);
    expected.extend_from_slice(&[3, 0, 0, 0]);
    expected.extend_from_slice(&[0xAA; 18]);
    expected.extend_from_slice(&[0; 12]);
    expected.extend_from_slice(&[0xAA; 20]);
    assert_eq!(image, expected);
    assert_eq!(image.len(), 64);
}

#[test]
fn a_table_that_ends_on_a_boundary_gets_no_padding() {
    let mut image = Vec::new();
    write_prelude(16, &mut image);
    assert_eq!(image.len(), 96);
    assert_eq!(&image[0..9], b"NathFATfs");
    assert_eq!(image[9], 1);
    assert_eq!(&image[10..14], &[16, 0, 0, 0]);
    assert_eq!(&image[14..32], &[0xAA; 18]);
    assert_eq!(&image[32..96], &[0; 64]);
}

#[test]
fn the_prelude_overwrites_the_start_and_keeps_the_rest() {
    let mut image = vec![0x55u8; 100];
    write_prelude(3, &mut image);
    assert_eq!(image.len(), 100);
    assert_eq!(&image[0..9], b"NathFATfs");
    assert_eq!(&image[44..64], &[0xAA; 20]);
    assert_eq!(&image[64..100], &[0x55; 36]);

    let mut image = vec![0x55u8; 20];
    write_prelude(3, &mut image);
    assert_eq!(image.len(), 64);
    assert_eq!(&image[14..32], &[0xAA; 18]);
}

#[test]
fn the_data_section_is_filled_behind_the_prelude() {
    let mut image = Vec::new();
    write_prelude(2, &mut image);
    write_data_section(2, &mut image);
    assert_eq!(image.len(), 64 + 2048);
    assert_eq!(&image[64..], &[0xDD; 2048][..]);
    assert_eq!(&image[0..9], b"NathFATfs");
}

#[test]
fn the_data_section_alone_leaves_zeros_before_it() {
    let mut image = vec![7u8; 10];
    write_data_section(1, &mut image);
    assert_eq!(image.len(), 64 + 1024);
    assert_eq!(&image[0..10], &[7; 10]);
    assert_eq!(&image[10..64], &[0; 54]);
    assert_eq!(&image[64..], &[0xDD; 1024][..]);
}

#[test]
fn a_fresh_root_directory_lists_dot_and_dot_dot() {
    let mut image = Vec::new();
    write_prelude(16, &mut image);
    write_data_section(16, &mut image);
    let mut fs = FileSystem { io: FileSystemBasicIO::open_file_system(image).unwrap() };
    assert_eq!(write_root_dir(&mut fs, 1_000_000), Ok(()));
    assert_eq!(fs.read_fat_entry(1), Ok(0xFFFF_FFFF));
    assert_eq!(fs.read_fat_entry(2), Ok(0));

    let dir = fs.read_dir(&vec![1]).unwrap();
    assert_eq!(dir.len(), 16);
    for (k, (entry, cluster, slot)) in dir.iter().enumerate() {
        assert_eq!((*cluster, *slot), (1, k as u32));
        match (k, entry) {
            (0, DirectoryEntry::Directory(inode)) => {
                assert_eq!(inode.name, ".");
                assert_eq!(inode.length, 64);
                assert_eq!(inode.uid, 0);
                assert_eq!(inode.gid, 0);
                assert_eq!(inode.permission, 0o755);
                assert_eq!(inode.ctime, 1_000_000);
                assert_eq!(inode.mtime, 1_000_000);
                assert_eq!(inode.atime, 1_000_000);
                assert_eq!(inode.number_of_hlinks, 2);
                assert_eq!(inode.start_cluster, 1);
            }
            (1, DirectoryEntry::Directory(inode)) => {
                assert_eq!(inode.name, "..");
                assert_eq!(inode.start_cluster, 1);
                assert_eq!(inode.number_of_hlinks, 2);
            }
            (0, other) | (1, other) => panic!("slot {} holds {:?}", k, other),
            (_, DirectoryEntry::Invalid) => {}
            (_, other) => panic!("slot {} holds {:?}", k, other),
        }
    }
}

#[test]
fn the_root_directory_needs_its_cluster_on_the_device() {
    let mut image = Vec::new();
    write_prelude(16, &mut image);
    let mut fs = FileSystem { io: FileSystemBasicIO::open_file_system(image).unwrap() };
    assert_eq!(write_root_dir(&mut fs, 0), Err(FsError::Io));
    assert_eq!(fs.read_fat_entry(1), Ok(0xFFFF_FFFF));

    let mut fs =
        FileSystem { io: FileSystemBasicIO::open_file_system(b"NathFATfs\x01\0\0\0\0".to_vec()).unwrap() };
    assert!(write_root_dir(&mut fs, 0).is_err());
    assert_eq!(fs.io.device, b"NathFATfs\x01\0\0\0\0".to_vec());
}
