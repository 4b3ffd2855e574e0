use naths_fat_fs::fs::basic_fs_io::{BaseIO, FileSystemBasicIO};
use naths_fat_fs::fs::directory::{DirectoryEntry, Inode};
use naths_fat_fs::fs::FileSystem;
use naths_fat_fs::mkfs::{write_data_section, write_prelude, write_root_dir};

#[test]
fn test() {
    let mut image: Vec<u8> = Vec::new();

    write_prelude(16, &mut image);
    write_data_section(16, &mut image);

    let mut fs = FileSystem { io: FileSystemBasicIO::open_file_system(image).unwrap() };

    write_root_dir(&mut fs, 1_700_000_000_000).unwrap();

    let mut new_file = vec![];

    fs.append_to_chain(&mut new_file).unwrap();

    let mut block = fs.read_cluster(new_file[0]).unwrap();
    let cont = b"Das ist eine Hello.txt file :)";

    block[0..cont.len()].copy_from_slice(cont);

    fs.write_cluster(new_file[0], &block).unwrap();

    fs.write_raw_directory_entry(
        1,
        2,
        &DirectoryEntry::File(Inode::new(
            "Hello.txt".to_string(),
            31,
            1000,
            1000,
            0o666,
            1_700_000_000_000,
            1_700_000_000_000,
            1_700_000_000_000,
            1,
            new_file[0],
        ))
        .encode(),
    )
    .unwrap();

    assert_eq!(new_file, vec![2]);
    let root = fs.get_chain(1).unwrap();
    assert_eq!(root, vec![1]);
    let dir = fs.read_dir(&root).unwrap();
    assert_eq!(dir.len(), 16);
    match &dir[2] {
        (DirectoryEntry::File(inode), cluster, slot) => {
            assert_eq!(inode.name, "Hello.txt");
            assert_eq!(inode.length, 31);
            assert_eq!(inode.start_cluster, new_file[0]);
            assert_eq!(inode.uid, 1000);
            assert_eq!(inode.gid, 1000);
            assert_eq!(inode.permission, 0o666);
            assert_eq!(inode.number_of_hlinks, 1);
            assert_eq!((*cluster, *slot), (1, 2));
        }
        other => panic!("slot 2 holds {:?}", other),
    }
    let stored = fs.read_cluster(new_file[0]).unwrap();
    assert_eq!(&stored[0..cont.len()], &cont[..]);
    assert_eq!(stored[cont.len()], 0xDD);
}
