use file_dedup::error::Error;
use file_dedup::file_entry::FileEntry;
use file_dedup::fs::AbstractFs;
use file_dedup::fs::Timestamp;
use file_dedup::memfs::TestFs;
use file_dedup::readonly::ReadOnlyFs;

const EPOCH: Timestamp = Timestamp { secs: 0, nanos: 0 };

#[test]
fn new_files_get_rising_inodes_from_two() {
    let mut fs = TestFs::default();
    fs.add_text_file("/a", "x");
    fs.add_binary_file("/b", &[1, 2, 3]);
    assert_eq!(fs.metadata("/a").unwrap(), (1, EPOCH, EPOCH, EPOCH, 2));
    assert_eq!(fs.metadata("/b").unwrap(), (3, EPOCH, EPOCH, EPOCH, 3));
    assert_eq!(fs.get_file_data("/b").unwrap(), &[1u8, 2, 3][..]);
}

#[test]
fn with_files_numbers_the_files_from_one() {
    let mut fs = TestFs::with_files(&[("/x", "first"), ("/y", "second!")]);
    assert_eq!(fs.cwd, "/");
    assert_eq!(fs.metadata("/x").unwrap(), (5, EPOCH, EPOCH, EPOCH, 1));
    assert_eq!(fs.metadata("/y").unwrap(), (7, EPOCH, EPOCH, EPOCH, 2));
    assert_eq!(fs.get_file_data("/x").unwrap(), b"first");
    fs.add_text_file("/z", "");
    assert_eq!(fs.metadata("/z").unwrap(), (0, EPOCH, EPOCH, EPOCH, 3));
}

#[test]
fn with_files_lets_a_later_pair_replace_an_earlier_one() {
    let fs = TestFs::with_files(&[("/x", "first"), ("/x", "again")]);
    assert_eq!(fs.metadata("/x").unwrap(), (5, EPOCH, EPOCH, EPOCH, 2));
    assert_eq!(fs.get_file_data("/x").unwrap(), b"again");
}

#[test]
fn a_missing_file_is_not_found() {
    let fs = TestFs::default();
    assert!(matches!(fs.get_file_data("/none"), Err(Error::NotFound(_))));
    assert!(matches!(fs.metadata("/none"), Err(Error::NotFound(_))));
    assert!(matches!(fs.open("/none"), Err(Error::NotFound(_))));
}

#[test]
fn a_path_without_a_root_is_resolved_against_the_working_directory() {
    let mut fs = TestFs::default();
    fs.set_cwd("/work/dir");
    assert_eq!(fs.canonicalize("file").unwrap(), "/work/dir/file");
    assert_eq!(fs.canonicalize("sub/file").unwrap(), "/work/dir/sub/file");
    assert_eq!(fs.canonicalize("/elsewhere/file").unwrap(), "/elsewhere/file");
}

#[test]
fn a_hard_link_shares_the_inode_and_holds_the_same_bytes() {
    let mut fs = TestFs::default();
    fs.add_text_file("/a", "bytes");
    fs.hard_link("/a", "/b").unwrap();
    assert_eq!(fs.metadata("/b").unwrap(), fs.metadata("/a").unwrap());
    assert_eq!(fs.get_file_data("/b").unwrap(), b"bytes");
    assert_eq!(fs.get_file_data("/a").unwrap(), b"bytes");
}

#[test]
fn a_hard_link_needs_a_free_name_and_a_source() {
    let mut fs = TestFs::default();
    fs.add_text_file("/a", "one");
    fs.add_text_file("/b", "two");
    assert!(fs.hard_link("/a", "/b").is_err());
    assert_eq!(fs.get_file_data("/b").unwrap(), b"two");
    assert!(matches!(fs.hard_link("/none", "/c"), Err(Error::NotFound(_))));
    assert!(fs.get_file_data("/c").is_err());
}

#[test]
fn a_rename_carries_bytes_and_inode_over_and_replaces_the_target() {
    let mut fs = TestFs::default();
    fs.add_text_file("/a", "one");
    fs.add_text_file("/b", "other");
    let a = fs.metadata("/a").unwrap();
    fs.rename("/a", "/b").unwrap();
    assert!(fs.metadata("/a").is_err());
    assert_eq!(fs.metadata("/b").unwrap(), a);
    assert_eq!(fs.get_file_data("/b").unwrap(), b"one");
    assert!(matches!(fs.rename("/a", "/c"), Err(Error::NotFound(_))));
}

#[test]
fn remove_takes_a_name_away_and_fails_on_a_missing_one() {
    let mut fs = TestFs::default();
    fs.add_text_file("/a", "one");
    fs.hard_link("/a", "/b").unwrap();
    fs.remove_file("/a").unwrap();
    assert!(fs.get_file_data("/a").is_err());
    assert_eq!(fs.get_file_data("/b").unwrap(), b"one");
    assert!(matches!(fs.remove_file("/a"), Err(Error::NotFound(_))));
}

#[test]
fn write_to_file_creates_or_truncates() {
    let mut fs = TestFs::default();
    fs.write_to_file("/new", b"created").unwrap();
    assert_eq!(fs.metadata("/new").unwrap(), (7, EPOCH, EPOCH, EPOCH, 2));
    fs.write_to_file("/new", b"cut").unwrap();
    assert_eq!(fs.metadata("/new").unwrap(), (3, EPOCH, EPOCH, EPOCH, 2));
    assert_eq!(fs.get_file_data("/new").unwrap(), b"cut");
}

#[test]
fn a_read_only_filesystem_reads_and_refuses_every_change() {
    let mut inner = TestFs::default();
    inner.set_cwd("/base");
    inner.add_text_file("/base/a", "kept");
    let mut fs = ReadOnlyFs::new(inner);
    assert!(fs.is_read_only());
    assert_eq!(fs.metadata("/base/a").unwrap(), (4, EPOCH, EPOCH, EPOCH, 2));
    assert_eq!(fs.canonicalize("a").unwrap(), "/base/a");
    assert!(fs.open("/base/a").is_ok());
    assert_eq!(fs.write_to_file("/base/a", b"x"), Err(Error::ReadOnlyFs));
    assert_eq!(fs.hard_link("/base/a", "/base/b"), Err(Error::ReadOnlyFs));
    assert_eq!(fs.rename("/base/a", "/base/b"), Err(Error::ReadOnlyFs));
    assert_eq!(fs.remove_file("/base/a"), Err(Error::ReadOnlyFs));
    let inner = fs.into_inner();
    assert!(!inner.is_read_only());
    assert_eq!(inner.get_file_data("/base/a").unwrap(), b"kept");
    assert!(inner.get_file_data("/base/b").is_err());
}

#[test]
fn an_entry_records_what_the_file_shows() {
    let mut fs = TestFs::default();
    fs.set_cwd("/base");
    let e = fs.new_file_entry("/base/sub/file", "12345").unwrap();
    assert_eq!(
        e,
        FileEntry {
            relative_path: "sub/file".to_owned(),
            fast_hash: None,
            stat_size: 5,
            stat_modified: EPOCH,
            stat_created: EPOCH,
            stat_inode: 2,
        }
    );
}

#[test]
fn a_file_outside_the_base_escapes() {
    let mut fs = TestFs::default();
    fs.add_text_file("/other/file", "x");
    assert!(matches!(
        FileEntry::new(&fs, "/base", "/other/file"),
        Err(Error::PathEscape(_))
    ));
    fs.set_cwd("/base");
    assert!(matches!(
        fs.new_file_entry("/other/file2", "x"),
        Err(Error::PathEscape(_))
    ));
    // the file was put there all the same
    assert_eq!(fs.get_file_data("/other/file2").unwrap(), b"x");
}

#[test]
fn the_base_itself_has_no_entry() {
    let mut fs = TestFs::default();
    fs.add_text_file("/base", "x");
    assert!(matches!(
        FileEntry::new(&fs, "/base", "/base"),
        Err(Error::Generic(_))
    ));
}

#[test]
fn a_missing_file_has_no_entry() {
    let fs = TestFs::default();
    assert!(matches!(
        FileEntry::new(&fs, "/base", "/base/none"),
        Err(Error::NotFound(_))
    ));
}

#[test]
fn entries_are_compared_without_the_digest() {
    let mut fs = TestFs::default();
    fs.set_cwd("/base");
    let a = fs.new_file_entry("/base/a", "x").unwrap();
    let mut hashed = a.clone();
    hashed.fast_hash = Some(17);
    assert!(a.eq_except_hash(&hashed));
    assert!(hashed.eq_except_hash(&a));
    assert_ne!(a, hashed);
    for change in 0..5 {
        let mut other = a.clone();
        match change {
            0 => other.relative_path = "b".to_owned(),
            1 => other.stat_size = 2,
            2 => other.stat_modified = Timestamp { secs: 1, nanos: 0 },
            3 => other.stat_created = Timestamp { secs: 0, nanos: 1 },
            _ => other.stat_inode = 3,
        }
        assert!(!a.eq_except_hash(&other));
    }
}

#[test]
fn a_reload_keeps_the_digest_of_an_unchanged_file() {
    let mut fs = TestFs::default();
    fs.set_cwd("/base");
    let mut a = fs.new_file_entry("/base/a", "x").unwrap();
    a.fast_hash = Some(99);
    assert!(a.agrees_with_disk(&fs, "/base").unwrap());
    assert_eq!(a.reload_from_disk(&fs, "/base").unwrap(), a);

    fs.write_to_file("/base/a", b"longer").unwrap();
    assert!(!a.agrees_with_disk(&fs, "/base").unwrap());
    let reloaded = a.reload_from_disk(&fs, "/base").unwrap();
    assert_eq!(reloaded.fast_hash, None);
    assert_eq!(reloaded.stat_size, 6);
    assert_eq!(reloaded.stat_inode, a.stat_inode);

    fs.remove_file("/base/a").unwrap();
    assert!(matches!(a.agrees_with_disk(&fs, "/base"), Err(Error::NotFound(_))));
    assert!(matches!(a.reload_from_disk(&fs, "/base"), Err(Error::NotFound(_))));
}

#[test]
fn a_new_file_gets_the_inode_after_the_largest_in_the_table() {
    let mut fs = TestFs::default();
    fs.add_text_file("/a", "x");
    assert_eq!(fs.metadata("/a").unwrap().4, 2);
    fs.remove_file("/a").unwrap();
    // the table is empty again
    fs.add_text_file("/b", "y");
    assert_eq!(fs.metadata("/b").unwrap().4, 2);
    fs.add_text_file("/c", "z");
    fs.add_text_file("/d", "w");
    assert_eq!(fs.metadata("/c").unwrap().4, 3);
    assert_eq!(fs.metadata("/d").unwrap().4, 4);
    // a gap below the largest is not filled
    fs.remove_file("/c").unwrap();
    fs.add_text_file("/e", "v");
    assert_eq!(fs.metadata("/e").unwrap().4, 5);
    // the largest is gone, and so is the one before it
    fs.remove_file("/e").unwrap();
    fs.remove_file("/d").unwrap();
    fs.add_binary_file("/f", &[1]);
    assert_eq!(fs.metadata("/f").unwrap().4, 3);
    assert_eq!(fs.metadata("/b").unwrap().4, 2);
}

#[test]
fn a_new_file_shares_its_inode_with_no_other() {
    let mut fs = TestFs::default();
    fs.add_text_file("/a", "x");
    fs.hard_link("/a", "/b").unwrap();
    fs.rename("/a", "/c").unwrap();
    fs.add_text_file("/d", "y");
    fs.write_to_file("/e", b"z").unwrap();
    // putting a file where one is gives the path a new inode
    fs.add_text_file("/b", "again");
    let inodes: Vec<u64> = ["/b", "/c", "/d", "/e"]
        .iter()
        .map(|p| fs.metadata(p).unwrap().4)
        .collect();
    assert_eq!(inodes, vec![5, 2, 3, 4]);
    assert_eq!(fs.get_file_data("/b").unwrap(), b"again");
    assert_eq!(fs.get_file_data("/c").unwrap(), b"x");
}
