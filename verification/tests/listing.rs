use naths_fat_fs::error::{BoundsError, FsError};
use naths_fat_fs::fs::assemble;
use naths_fat_fs::fs::basic_fs_io::{BaseIO, FileSystemBasicIO};
use naths_fat_fs::fs::directory::{DirectoryEntry, Inode};
use naths_fat_fs::fs::FileSystem;
use naths_fat_fs::mkfs::{write_data_section, write_prelude, write_root_dir};

fn fresh(fat_size: u32) -> FileSystem {
    let mut image = Vec::new();
    write_prelude(fat_size, &mut image);
    write_data_section(fat_size, &mut image);
    let mut fs = FileSystem { io: FileSystemBasicIO::open_file_system(image).unwrap() };
    write_root_dir(&mut fs, 5).unwrap();
    fs
}

fn file(name: &str, start: u32) -> DirectoryEntry {
    DirectoryEntry::File(Inode::new(name.to_string(), 10, 1, 2, 0o600, 3, 4, 5, 1, start))
}

fn name_of(entry: &DirectoryEntry) -> Option<String> {
    match entry {
        DirectoryEntry::File(inode) => Some(inode.name.clone()),
        DirectoryEntry::Directory(inode) => Some(inode.name.clone()),
        _ => None,
    }
}

#[test]
fn a_fragment_adds_to_the_pending_name() {
    let mut pending = String::from("ab");
    let shown = assemble(&mut pending, DirectoryEntry::LongFileName("cd".to_string()));
    assert_eq!(pending, "abcd");
    match shown {
        DirectoryEntry::LongFileName(text) => assert_eq!(text, "cd"),
        other => panic!("shown {:?}", other),
    }
}

#[test]
fn an_unused_slot_clears_the_pending_name() {
    let mut pending = String::from("ab");
    let shown = assemble(&mut pending, DirectoryEntry::Invalid);
    assert_eq!(pending, "");
    assert!(matches!(shown, DirectoryEntry::Invalid));
}

#[test]
fn an_inode_takes_the_pending_name_before_its_own() {
    let mut pending = String::from("very-long-");
    let shown = assemble(&mut pending, file("name.txt", 7));
    assert_eq!(pending, "");
    match shown {
        DirectoryEntry::File(inode) => {
            assert_eq!(inode.name, "very-long-name.txt");
            assert_eq!(inode.start_cluster, 7);
            assert_eq!(inode.length, 10);
        }
        other => panic!("shown {:?}", other),
    }
    let mut pending = String::from("d");
    let entry = DirectoryEntry::Directory(Inode::new("ir".to_string(), 0, 0, 0, 0, 0, 0, 0, 0, 1));
    match assemble(&mut pending, entry) {
        DirectoryEntry::Directory(inode) => assert_eq!(inode.name, "dir"),
        other => panic!("shown {:?}", other),
    }
    assert_eq!(pending, "");
}

#[test]
fn fragments_before_an_inode_spell_the_start_of_its_name() {
    let mut fs = fresh(8);
    let fragment = |text: &str| DirectoryEntry::LongFileName(text.to_string()).encode();
    fs.write_raw_directory_entry(1, 2, &fragment("first-")).unwrap();
    fs.write_raw_directory_entry(1, 3, &fragment("second-")).unwrap();
    fs.write_raw_directory_entry(1, 4, &file("third", 2).encode()).unwrap();
    fs.write_raw_directory_entry(1, 5, &file("plain", 3).encode()).unwrap();
    fs.write_raw_directory_entry(1, 6, &fragment("lost")).unwrap();
    fs.write_raw_directory_entry(1, 8, &file("after-gap", 4).encode()).unwrap();

    let dir = fs.read_dir(&vec![1]).unwrap();
    assert_eq!(dir.len(), 16);
    let names: Vec<Option<String>> = dir.iter().map(|(entry, _, _)| name_of(entry)).collect();
    assert_eq!(names[0].as_deref(), Some("."));
    assert_eq!(names[1].as_deref(), Some(".."));
    assert_eq!(names[2], None);
    assert_eq!(names[3], None);
    assert_eq!(names[4].as_deref(), Some("first-second-third"));
    assert_eq!(names[5].as_deref(), Some("plain"));
    assert_eq!(names[6], None);
    assert_eq!(names[7], None);
    assert_eq!(names[8].as_deref(), Some("after-gap"));
    assert!(matches!(dir[2].0, DirectoryEntry::LongFileName(_)));
    assert!(matches!(dir[6].0, DirectoryEntry::LongFileName(_)));
    assert!(matches!(dir[7].0, DirectoryEntry::Invalid));
    for (k, (_, cluster, slot)) in dir.iter().enumerate() {
        assert_eq!((*cluster, *slot), (1, k as u32));
    }
}

#[test]
fn a_name_runs_on_from_one_cluster_to_the_next() {
    let mut fs = fresh(8);
    let mut chain = vec![1];
    assert_eq!(fs.append_dir_to_chain(&mut chain), Ok(2));
    let fragment = DirectoryEntry::LongFileName("across-".to_string()).encode();
    fs.write_raw_directory_entry(1, 15, &fragment).unwrap();
    fs.write_raw_directory_entry(2, 0, &file("clusters", 3).encode()).unwrap();
    let dir = fs.read_dir(&chain).unwrap();
    assert_eq!(dir.len(), 32);
    assert_eq!(name_of(&dir[16].0).as_deref(), Some("across-clusters"));
    assert_eq!((dir[16].1, dir[16].2), (2, 0));
    assert_eq!((dir[15].1, dir[15].2), (1, 15));
}

#[test]
fn listing_twice_gives_the_same() {
    let mut fs = fresh(8);
    fs.write_raw_directory_entry(1, 2, &file("a", 2).encode()).unwrap();
    let first = fs.read_dir(&vec![1]).unwrap();
    let second = fs.read_dir(&vec![1]).unwrap();
    assert_eq!(first.len(), second.len());
    for (a, b) in first.iter().zip(second.iter()) {
        assert_eq!(name_of(&a.0), name_of(&b.0));
        assert_eq!((a.1, a.2), (b.1, b.2));
    }
}

#[test]
fn the_empty_chain_lists_nothing() {
    let mut fs = fresh(8);
    assert_eq!(fs.read_dir(&vec![]).unwrap().len(), 0);
}

#[test]
fn listing_fails_at_the_first_slot_that_cannot_be_read() {
    let mut fs = fresh(8);
    assert_eq!(
        fs.read_dir(&vec![1, 9]).err(),
        Some(FsError::Bounds(BoundsError::OutOfBounds(9)))
    );
    assert_eq!(
        fs.read_dir(&vec![0, 9]).err(),
        Some(FsError::Bounds(BoundsError::Unallocated))
    );
    let mut broken = [0u8; 64];
    broken[0] = 3;
    broken[1] = 0xFF;
    fs.write_raw_directory_entry(1, 9, &broken).unwrap();
    assert_eq!(fs.read_dir(&vec![1, 9]).err(), Some(FsError::Encoding));
    assert_eq!(fs.read_dir(&vec![2]).err(), Some(FsError::Encoding));
}

#[test]
fn split_gives_one_slot_for_a_short_name() {
    let slots = file("short.txt", 2).split();
    assert_eq!(slots, vec![file("short.txt", 2).encode()]);
    assert_eq!(DirectoryEntry::Invalid.split(), vec![[0u8; 64]]);
    assert_eq!(file("", 2).split(), vec![file("", 2).encode()]);
}

#[test]
fn split_cuts_a_long_name_into_fragments_and_an_inode() {
    let name = "0123456789".repeat(10);
    let slots = file(&name, 2).split();
    assert_eq!(slots.len(), 3);
    assert_eq!(slots[0], DirectoryEntry::LongFileName(name[0..63].to_string()).encode());
    assert_eq!(slots[1], DirectoryEntry::LongFileName(name[63..100].to_string()).encode());
    assert_eq!(slots[2], file("", 2).encode());

    let name = "0123456789".repeat(8);
    let slots = file(&name, 2).split();
    assert_eq!(slots.len(), 2);
    assert_eq!(slots[0], DirectoryEntry::LongFileName(name[0..63].to_string()).encode());
    assert_eq!(slots[1], file(&name[63..80], 2).encode());

    let name = "x".repeat(26);
    let slots = file(&name, 2).split();
    assert_eq!(slots.len(), 2);
    assert_eq!(slots[0], DirectoryEntry::LongFileName(name.clone()).encode());
    assert_eq!(slots[1], file("", 2).encode());
}

#[test]
fn split_cuts_between_characters() {
    let name = "ä".repeat(40);
    assert_eq!(name.len(), 80);
    let slots = file(&name, 2).split();
    assert_eq!(slots.len(), 2);
    assert_eq!(slots[0], DirectoryEntry::LongFileName("ä".repeat(31)).encode());
    assert_eq!(slots[1], file(&"ä".repeat(9), 2).encode());

    let name = format!("a{}", "\u{1F600}".repeat(20));
    assert_eq!(name.len(), 81);
    let slots = file(&name, 2).split();
    assert_eq!(slots.len(), 2);
    assert_eq!(
        slots[0],
        DirectoryEntry::LongFileName(format!("a{}", "\u{1F600}".repeat(15))).encode()
    );
    assert_eq!(slots[1], file(&"\u{1F600}".repeat(5), 2).encode());
}

#[test]
fn split_of_a_fragment_cuts_its_text() {
    assert_eq!(DirectoryEntry::LongFileName(String::new()).split().len(), 0);
    let text = "y".repeat(70);
    let slots = DirectoryEntry::LongFileName(text.clone()).split();
    assert_eq!(slots.len(), 2);
    assert_eq!(slots[0], DirectoryEntry::LongFileName(text[0..63].to_string()).encode());
    assert_eq!(slots[1], DirectoryEntry::LongFileName(text[63..].to_string()).encode());
}

#[test]
fn a_split_name_is_listed_whole() {
    let names = [
        "0123456789".repeat(10),
        "ä".repeat(40),
        format!("a{}", "\u{1F600}".repeat(20)),
        "x".repeat(26),
        "short".to_string(),
        "z".repeat(300),
    ];
    for name in names {
        let mut fs = fresh(8);
        let mut slot = 2;
        for raw in DirectoryEntry::Directory(Inode::new(name.clone(), 1, 2, 3, 4, 5, 6, 7, 8, 9))
            .split()
        {
            fs.write_raw_directory_entry(1, slot, &raw).unwrap();
            slot += 1;
        }
        let dir = fs.read_dir(&vec![1]).unwrap();
        let last = (slot - 1) as usize;
        for place in dir.iter().take(last).skip(2) {
            assert!(matches!(place.0, DirectoryEntry::LongFileName(_)));
        }
        match &dir[last].0 {
            DirectoryEntry::Directory(inode) => {
                assert_eq!(inode.name, name);
                assert_eq!(inode.length, 1);
                assert_eq!(inode.start_cluster, 9);
                assert_eq!(inode.number_of_hlinks, 8);
            }
            other => panic!("slot {} holds {:?}", last, other),
        }
    }
}
