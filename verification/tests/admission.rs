use file_dedup::error::Error;
use file_dedup::error::Result;
use file_dedup::file_entry::FileEntry;
use file_dedup::files_index::FilesIndex;
use file_dedup::fs::AbstractFs;
use file_dedup::fs::Timestamp;
use file_dedup::memfs::MemFile;
use file_dedup::memfs::TestFs;
use file_dedup::readonly::ReadOnlyFs;
use std::collections::BTreeSet;

const ASDF: u128 = 290827534275623791776536726795751555336;

fn fixture(files: &[(&str, &str)]) -> (TestFs, FilesIndex) {
    let mut fs = TestFs::default();
    fs.set_cwd("/somefolder/");
    for (name, text) in files {
        fs.add_text_file(&format!("/somefolder/{}", name), text);
    }
    (fs, FilesIndex::new("/somefolder/"))
}

fn entry<'a>(index: &'a FilesIndex, path: &str) -> &'a FileEntry {
    index.get_by_relative_path(path).unwrap()
}

fn contents(fs: &TestFs, paths: &[&str]) -> BTreeSet<Vec<u8>> {
    paths
        .iter()
        .filter_map(|p| fs.get_file_data(p).ok().map(|d| d.to_vec()))
        .collect()
}

#[test]
fn unique_files_are_filed_without_reading_them() {
    let (mut fs, mut index) = fixture(&[("a", "test"), ("b", "asdf1"), ("c", "newfile")]);
    for name in ["a", "b", "c"] {
        let filed = index.add_file(&mut fs, name).unwrap();
        assert_eq!(filed.fast_hash, None);
        assert_eq!(&filed, entry(&index, name));
    }
    assert_eq!(index.len(), 3);
    assert_eq!(index.by_inode_len(), 3);
    assert_eq!(index.by_size_len(), 3);
    assert_eq!(index.by_hash_len(), 0);
    assert_eq!(index.inode_by_hash_len(), 0);
    assert_eq!(
        [entry(&index, "a").stat_size, entry(&index, "b").stat_size, entry(&index, "c").stat_size],
        [4, 5, 7]
    );
    assert!(index.sanity_check());
}

#[test]
fn files_of_one_size_that_differ_are_both_digested() {
    let (mut fs, mut index) = fixture(&[("a", "test1 asdf asdf"), ("b", "test2 asdf asdf")]);
    index.add_file(&mut fs, "a").unwrap();
    assert_eq!(entry(&index, "a").fast_hash, None);
    let b = index.add_file(&mut fs, "b").unwrap();
    assert_eq!(b.fast_hash, Some(fasthash::murmur3::hash128(b"test2 asdf asdf")));
    assert_eq!(
        entry(&index, "a").fast_hash,
        Some(fasthash::murmur3::hash128(b"test1 asdf asdf"))
    );
    assert_ne!(entry(&index, "a").stat_inode, b.stat_inode);
    assert_eq!(index.slots_by_size(15).len(), 2);
    assert_eq!(index.inodes_by_size(15).len(), 2);
    assert_eq!(index.by_hash_len(), 2);
    assert!(index.sanity_check());
    // nothing was linked
    assert_eq!(fs.metadata("/somefolder/a").unwrap().4, 2);
    assert_eq!(fs.metadata("/somefolder/b").unwrap().4, 3);
}

#[test]
fn a_duplicate_is_linked_to_the_file_it_repeats() {
    let (mut fs, mut index) = fixture(&[("a", "asdf"), ("b", "asdf")]);
    index.add_file(&mut fs, "a").unwrap();
    let b = index.add_file(&mut fs, "b").unwrap();
    assert_eq!(
        b,
        FileEntry {
            relative_path: "b".to_owned(),
            fast_hash: Some(ASDF),
            stat_size: 4,
            stat_modified: Timestamp { secs: 0, nanos: 0 },
            stat_created: Timestamp { secs: 0, nanos: 0 },
            stat_inode: 2,
        }
    );
    assert_eq!(entry(&index, "a").fast_hash, Some(ASDF));
    assert_eq!(entry(&index, "a").stat_inode, 2);
    assert_eq!(index.inodes_by_size(4), vec![2]);
    assert_eq!(index.inodes_by_hash(ASDF), vec![2]);
    assert_eq!(index.slots_by_inode(2).len(), 2);
    assert!(index.sanity_check());
    // the tree shows the link, and the backup is gone
    assert_eq!(fs.metadata("/somefolder/b").unwrap().4, 2);
    assert_eq!(fs.get_file_data("/somefolder/b").unwrap(), b"asdf");
    assert!(fs.get_file_data("/somefolder/b.backup").is_err());
}

#[test]
fn three_duplicates_end_on_one_inode() {
    let (mut fs, mut index) = fixture(&[("a", "asdf"), ("b", "asdf"), ("c", "asdf")]);
    for name in ["a", "b", "c"] {
        index.add_file(&mut fs, name).unwrap();
    }
    assert_eq!(index.len(), 3);
    assert_eq!(index.by_relative_path_len(), 3);
    assert_eq!(index.by_inode_len(), 1);
    assert_eq!(index.by_hash_len(), 1);
    for name in ["a", "b", "c"] {
        assert_eq!(entry(&index, name).stat_inode, 2);
        assert_eq!(entry(&index, name).fast_hash, Some(ASDF));
        assert_eq!(fs.metadata(&format!("/somefolder/{}", name)).unwrap().4, 2);
    }
    assert!(index.sanity_check());
}

#[test]
fn an_index_rebuilt_from_its_entries_is_the_same_and_admits_nothing_new() {
    let (mut fs, mut index) = fixture(&[("a", "asdf"), ("b", "asdf"), ("c", "asdf")]);
    for name in ["a", "b", "c"] {
        index.add_file(&mut fs, name).unwrap();
    }
    let stored: Vec<FileEntry> = index.entries().clone();
    let mut reloaded = FilesIndex::from_entries("/somefolder/", &stored).unwrap();
    assert!(reloaded.sanity_check());
    assert_eq!(reloaded.entries(), &stored);
    for name in ["a", "b", "c"] {
        assert_eq!(entry(&reloaded, name).stat_inode, 2);
        assert_eq!(entry(&reloaded, name).fast_hash, Some(ASDF));
    }
    for name in ["a", "b", "c"] {
        let again = reloaded.add_file(&mut fs, name).unwrap();
        assert_eq!(&again, entry(&index, name));
    }
    assert_eq!(reloaded.entries(), &stored);
    assert!(reloaded.sanity_check());
}

#[test]
fn admitting_a_file_twice_is_admitting_it_once() {
    let (mut fs, mut index) = fixture(&[("a", "asdf"), ("b", "asdf"), ("c", "other"), ("d", "x")]);
    for name in ["a", "b", "c", "d"] {
        let first = index.add_file(&mut fs, name).unwrap();
        let entries = index.entries().clone();
        let tree = contents(&fs, &["/somefolder/a", "/somefolder/b", "/somefolder/c"]);
        let second = index.add_file(&mut fs, name).unwrap();
        assert_eq!(first, second);
        assert_eq!(index.entries(), &entries);
        assert_eq!(
            contents(&fs, &["/somefolder/a", "/somefolder/b", "/somefolder/c"]),
            tree
        );
        assert!(index.sanity_check());
    }
}

#[test]
fn a_further_name_of_an_indexed_inode_takes_its_digest_without_reading() {
    let (mut fs, mut index) = fixture(&[("a", "asdf"), ("b", "asdf")]);
    index.add_file(&mut fs, "a").unwrap();
    index.add_file(&mut fs, "b").unwrap();
    fs.hard_link("/somefolder/a", "/somefolder/c").unwrap();
    // nothing can be read any more: the admission has to do without
    let mut blind = Unreadable { inner: fs };
    let c = index.add_file(&mut blind, "c").unwrap();
    assert_eq!(c.fast_hash, Some(ASDF));
    assert_eq!(c.stat_inode, 2);
    assert_eq!(index.slots_by_inode(2).len(), 3);
    assert!(index.sanity_check());
}

#[test]
fn a_linked_pair_without_digests_is_digested_when_a_third_file_of_its_size_comes() {
    let (mut fs, mut index) = fixture(&[("a", "asdf")]);
    fs.hard_link("/somefolder/a", "/somefolder/b").unwrap();
    fs.add_text_file("/somefolder/c", "qwer");
    index.add_file(&mut fs, "a").unwrap();
    index.add_file(&mut fs, "b").unwrap();
    assert_eq!(entry(&index, "a").fast_hash, None);
    assert_eq!(entry(&index, "b").fast_hash, None);
    assert!(index.sanity_check());

    let c = index.add_file(&mut fs, "c").unwrap();
    assert_eq!(c.fast_hash, Some(fasthash::murmur3::hash128(b"qwer")));
    assert_eq!(c.stat_inode, 3);
    assert_eq!(entry(&index, "a").fast_hash, Some(ASDF));
    assert_eq!(entry(&index, "b").fast_hash, Some(ASDF));
    assert_eq!(index.inodes_by_size(4).len(), 2);
    assert!(index.sanity_check());
}

#[test]
fn a_duplicate_of_a_linked_pair_joins_it() {
    let (mut fs, mut index) = fixture(&[("a", "asdf")]);
    fs.hard_link("/somefolder/a", "/somefolder/b").unwrap();
    fs.add_text_file("/somefolder/c", "asdf");
    for name in ["a", "b", "c"] {
        index.add_file(&mut fs, name).unwrap();
    }
    for name in ["a", "b", "c"] {
        assert_eq!(entry(&index, name).fast_hash, Some(ASDF));
        assert_eq!(entry(&index, name).stat_inode, 2);
    }
    assert_eq!(fs.metadata("/somefolder/c").unwrap().4, 2);
    assert!(index.sanity_check());
}

#[test]
fn among_several_inodes_a_file_is_linked_to_the_one_that_holds_its_bytes() {
    let (mut fs, mut index) = fixture(&[
        ("a", "aaaa"),
        ("b", "bbbb"),
        ("c", "cccc"),
        ("d", "bbbb"),
        ("e", "eeee"),
    ]);
    for name in ["a", "b", "c", "d", "e"] {
        index.add_file(&mut fs, name).unwrap();
    }
    assert_eq!(entry(&index, "d").stat_inode, entry(&index, "b").stat_inode);
    assert_eq!(entry(&index, "d").fast_hash, Some(fasthash::murmur3::hash128(b"bbbb")));
    assert_eq!(entry(&index, "e").fast_hash, Some(fasthash::murmur3::hash128(b"eeee")));
    assert_eq!(entry(&index, "e").stat_inode, 6);
    assert_eq!(index.by_inode_len(), 4);
    assert_eq!(index.by_hash_len(), 4);
    assert_eq!(index.slots_by_size(4).len(), 5);
    assert_eq!(index.inodes_by_size(4).len(), 4);
    assert_eq!(fs.metadata("/somefolder/d").unwrap().4, 3);
    assert!(index.sanity_check());
}

#[test]
fn a_path_seen_again_with_a_new_file_keeps_its_slot() {
    let (mut fs, mut index) = fixture(&[("a", "first"), ("b", "second")]);
    index.add_file(&mut fs, "a").unwrap();
    index.add_file(&mut fs, "b").unwrap();
    // another file takes the name
    fs.remove_file("/somefolder/a").unwrap();
    fs.add_text_file("/somefolder/a", "third!!");
    let a = index.add_file(&mut fs, "a").unwrap();
    assert_eq!(a.stat_size, 7);
    assert_eq!(a.stat_inode, 4);
    assert_eq!(index.len(), 2);
    assert_eq!(index.entries()[0], a);
    assert_eq!(index.slots_by_size(5), Vec::<usize>::new());
    assert_eq!(index.slots_by_size(7), vec![0]);
    assert_eq!(index.slots_by_inode(2), Vec::<usize>::new());
    assert_eq!(index.by_size_len(), 2);
    assert_eq!(index.by_inode_len(), 2);
    assert!(index.sanity_check());
}

#[test]
fn a_path_seen_again_with_a_new_file_of_its_old_size_is_not_its_own_duplicate() {
    let (mut fs, mut index) = fixture(&[("a", "first"), ("z", "zz")]);
    index.add_file(&mut fs, "a").unwrap();
    fs.remove_file("/somefolder/a").unwrap();
    fs.add_text_file("/somefolder/a", "other");
    let a = index.add_file(&mut fs, "a").unwrap();
    assert_eq!(a.stat_inode, 4);
    assert_eq!(a.fast_hash, None);
    assert_eq!(index.len(), 1);
    assert_eq!(fs.get_file_data("/somefolder/a").unwrap(), b"other");
    assert!(index.sanity_check());
}

#[test]
fn a_file_that_cannot_be_looked_at_changes_nothing() {
    let (mut fs, mut index) = fixture(&[("a", "asdf")]);
    index.add_file(&mut fs, "a").unwrap();
    let before = index.entries().clone();
    assert!(matches!(index.add_file(&mut fs, "missing"), Err(Error::NotFound(_))));
    assert!(matches!(
        index.add_file(&mut fs, "/elsewhere/file"),
        Err(Error::PathEscape(_))
    ));
    assert_eq!(index.entries(), &before);
}

#[test]
fn a_dry_run_files_duplicates_and_leaves_the_tree_alone() {
    let (fs, mut index) = fixture(&[("a", "asdf"), ("b", "asdf"), ("c", "qwer")]);
    let mut fs = ReadOnlyFs::new(fs);
    for name in ["a", "b", "c"] {
        index.add_file(&mut fs, name).unwrap();
    }
    assert_eq!(entry(&index, "a").fast_hash, Some(ASDF));
    assert_eq!(entry(&index, "b").fast_hash, Some(ASDF));
    assert_eq!(entry(&index, "a").stat_inode, 2);
    assert_eq!(entry(&index, "b").stat_inode, 3);
    assert_eq!(entry(&index, "c").stat_inode, 4);
    assert!(index.sanity_check());
    let fs = fs.into_inner();
    assert_eq!(fs.metadata("/somefolder/a").unwrap().4, 2);
    assert_eq!(fs.metadata("/somefolder/b").unwrap().4, 3);
    assert!(fs.get_file_data("/somefolder/b.backup").is_err());
}

#[test]
fn linking_loses_no_bytes() {
    let names = ["a", "b", "c", "d", "e", "f"];
    let (mut fs, mut index) = fixture(&[
        ("a", "same bytes"),
        ("b", "same bytes"),
        ("c", "diff bytes"),
        ("d", "same bytes"),
        ("e", "short"),
        ("f", "diff bytes"),
    ]);
    let paths: Vec<String> = names.iter().map(|n| format!("/somefolder/{}", n)).collect();
    let paths: Vec<&str> = paths.iter().map(|p| p.as_str()).collect();
    let before = contents(&fs, &paths);
    let texts: Vec<Vec<u8>> = paths.iter().map(|p| fs.get_file_data(p).unwrap().to_vec()).collect();
    for name in names {
        index.add_file(&mut fs, name).unwrap();
        assert_eq!(contents(&fs, &paths), before);
    }
    for (path, text) in paths.iter().zip(texts.iter()) {
        assert_eq!(fs.get_file_data(path).unwrap(), &text[..]);
    }
    assert_eq!(index.by_inode_len(), 3);
    assert!(index.sanity_check());
}

/// A filesystem whose files cannot be opened.
struct Unreadable {
    inner: TestFs,
}

impl AbstractFs for Unreadable {
    type File = MemFile;

    fn is_read_only(&self) -> bool {
        false
    }

    fn open(&self, path: &str) -> Result<MemFile> {
        Err(Error::IO(format!("cannot open {}", path)))
    }

    fn write_to_file(&mut self, path: &str, buf: &[u8]) -> Result<()> {
        self.inner.write_to_file(path, buf)
    }

    fn canonicalize(&self, path: &str) -> Result<String> {
        self.inner.canonicalize(path)
    }

    fn metadata(&self, path: &str) -> Result<(u64, Timestamp, Timestamp, Timestamp, u64)> {
        self.inner.metadata(path)
    }

    fn hard_link(&mut self, src: &str, dst: &str) -> Result<()> {
        self.inner.hard_link(src, dst)
    }

    fn remove_file(&mut self, path: &str) -> Result<()> {
        self.inner.remove_file(path)
    }

    fn rename(&mut self, from: &str, to: &str) -> Result<()> {
        self.inner.rename(from, to)
    }
}

#[test]
fn a_failed_read_leaves_index_and_tree_alone() {
    let (mut fs, mut index) = fixture(&[("a", "asdf"), ("b", "asdf")]);
    index.add_file(&mut fs, "a").unwrap();
    let before = index.entries().clone();
    let mut blind = Unreadable { inner: fs };
    assert!(matches!(index.add_file(&mut blind, "b"), Err(Error::IO(_))));
    assert_eq!(index.entries(), &before);
    assert_eq!(blind.inner.metadata("/somefolder/b").unwrap().4, 3);
}

/// A filesystem on which chosen steps of a link fail.
struct Failing {
    inner: TestFs,
    fail_link: bool,
    fail_remove: bool,
    wrong_inode_for: Option<String>,
}

impl AbstractFs for Failing {
    type File = MemFile;

    fn is_read_only(&self) -> bool {
        false
    }

    fn open(&self, path: &str) -> Result<MemFile> {
        self.inner.open(path)
    }

    fn write_to_file(&mut self, path: &str, buf: &[u8]) -> Result<()> {
        self.inner.write_to_file(path, buf)
    }

    fn canonicalize(&self, path: &str) -> Result<String> {
        self.inner.canonicalize(path)
    }

    fn metadata(&self, path: &str) -> Result<(u64, Timestamp, Timestamp, Timestamp, u64)> {
        let m = self.inner.metadata(path)?;
        if self.wrong_inode_for.as_deref() == Some(path) && m.4 == 2 {
            return Ok((m.0, m.1, m.2, m.3, 77));
        }
        Ok(m)
    }

    fn hard_link(&mut self, src: &str, dst: &str) -> Result<()> {
        if self.fail_link {
            return Err(Error::IO("no link".to_owned()));
        }
        self.inner.hard_link(src, dst)
    }

    fn remove_file(&mut self, path: &str) -> Result<()> {
        if self.fail_remove {
            return Err(Error::IO("no removal".to_owned()));
        }
        self.inner.remove_file(path)
    }

    fn rename(&mut self, from: &str, to: &str) -> Result<()> {
        self.inner.rename(from, to)
    }
}

fn failing(fail_link: bool, fail_remove: bool, wrong_inode_for: Option<&str>) -> (Failing, FilesIndex) {
    let (fs, mut index) = fixture(&[("a", "asdf"), ("b", "asdf")]);
    let mut fs = Failing {
        inner: fs,
        fail_link,
        fail_remove,
        wrong_inode_for: wrong_inode_for.map(|s| s.to_owned()),
    };
    index.add_file(&mut fs, "a").unwrap();
    (fs, index)
}

#[test]
fn a_link_that_cannot_be_made_gives_the_file_its_name_back() {
    let (mut fs, mut index) = failing(true, false, None);
    assert_eq!(index.add_file(&mut fs, "b"), Err(Error::IO("no link".to_owned())));
    assert_eq!(fs.inner.metadata("/somefolder/b").unwrap().4, 3);
    assert_eq!(fs.inner.get_file_data("/somefolder/b").unwrap(), b"asdf");
    assert!(fs.inner.get_file_data("/somefolder/b.backup").is_err());
    // the candidate was digested, the new file was not filed
    assert_eq!(index.len(), 1);
    assert_eq!(entry(&index, "a").fast_hash, Some(ASDF));
    assert!(index.sanity_check());
}

#[test]
fn a_backup_that_cannot_be_removed_gets_its_name_back() {
    let (mut fs, mut index) = failing(false, true, None);
    assert_eq!(index.add_file(&mut fs, "b"), Err(Error::IO("no removal".to_owned())));
    assert_eq!(fs.inner.metadata("/somefolder/b").unwrap().4, 3);
    assert!(fs.inner.get_file_data("/somefolder/b.backup").is_err());
    assert_eq!(index.len(), 1);
    assert!(index.sanity_check());
}

#[test]
fn a_link_that_does_not_show_the_existing_file_keeps_the_backup() {
    let (mut fs, mut index) = failing(false, false, Some("/somefolder/b"));
    assert_eq!(
        index.add_file(&mut fs, "b"),
        Err(Error::Consistency { existing: "a".to_owned(), new: "b".to_owned() })
    );
    assert_eq!(fs.inner.get_file_data("/somefolder/b.backup").unwrap(), b"asdf");
    assert_eq!(fs.inner.metadata("/somefolder/b.backup").unwrap().4, 3);
    assert_eq!(fs.inner.metadata("/somefolder/b").unwrap().4, 2);
    assert_eq!(index.len(), 1);
    assert!(index.sanity_check());
}

#[test]
fn filing_a_new_path_takes_the_next_slot() {
    let mut index = FilesIndex::new("/b");
    let e = |path: &str, size: u64, inode: u64, hash: Option<u128>| FileEntry {
        relative_path: path.to_owned(),
        fast_hash: hash,
        stat_size: size,
        stat_modified: Timestamp { secs: 5, nanos: 6 },
        stat_created: Timestamp { secs: 1, nanos: 2 },
        stat_inode: inode,
    };
    assert_eq!(index.update_file_entry(&e("x", 1, 10, None)), e("x", 1, 10, None));
    assert_eq!(index.update_file_entry(&e("y", 1, 11, Some(7))), e("y", 1, 11, Some(7)));
    assert_eq!(index.entries(), &vec![e("x", 1, 10, None), e("y", 1, 11, Some(7))]);
    assert_eq!(index.slot_of_path("y"), Some(1));
    assert_eq!(index.slot_of_path("z"), None);
    assert!(index.get_by_relative_path("z").is_none());

    // a known path keeps its slot
    assert_eq!(index.update_file_entry(&e("x", 2, 12, Some(9))), e("x", 2, 12, Some(9)));
    assert_eq!(index.entries(), &vec![e("x", 2, 12, Some(9)), e("y", 1, 11, Some(7))]);
    assert_eq!(index.slots_by_size(1), vec![1]);
    assert_eq!(index.slots_by_size(2), vec![0]);
    assert_eq!(index.slots_by_inode(10), Vec::<usize>::new());
    assert_eq!(index.slots_by_hash(9), vec![0]);
    assert_eq!(index.inodes_by_size(2), vec![12]);
    assert_eq!(index.inodes_by_hash(7), vec![11]);
    assert_eq!(index.slot_of_inode(12), Some(0));
    assert_eq!(index.slot_of_inode(10), None);
    let mut sizes = index.sizes();
    sizes.sort();
    assert_eq!(sizes, vec![1, 2]);
    let mut inodes = index.inodes();
    inodes.sort();
    assert_eq!(inodes, vec![11, 12]);

    // an entry without a digest that says nothing new leaves the digest
    assert_eq!(index.update_file_entry(&e("x", 2, 12, None)), e("x", 2, 12, Some(9)));
    assert_eq!(index.entries()[0], e("x", 2, 12, Some(9)));
    // one that says something new replaces the entry, digest and all
    assert_eq!(index.update_file_entry(&e("x", 3, 12, None)), e("x", 3, 12, None));
    assert_eq!(index.entries()[0], e("x", 3, 12, None));
    assert_eq!(index.by_hash_len(), 1);
    assert_eq!(index.entry(1), &e("y", 1, 11, Some(7)));
    assert_eq!(index.base_dir(), "/b");
}

#[test]
fn an_inode_stays_filed_under_a_size_while_another_entry_has_both() {
    let mut index = FilesIndex::new("/b");
    let e = |path: &str, size: u64, inode: u64, hash: Option<u128>| FileEntry {
        relative_path: path.to_owned(),
        fast_hash: hash,
        stat_size: size,
        stat_modified: Timestamp { secs: 0, nanos: 0 },
        stat_created: Timestamp { secs: 0, nanos: 0 },
        stat_inode: inode,
    };
    index.update_file_entry(&e("x", 4, 2, Some(1)));
    index.update_file_entry(&e("y", 4, 2, Some(1)));
    index.update_file_entry(&e("x", 9, 3, None));
    assert_eq!(index.inodes_by_size(4), vec![2]);
    assert_eq!(index.inodes_by_hash(1), vec![2]);
    assert_eq!(index.inodes_by_size(9), vec![3]);
    index.update_file_entry(&e("y", 9, 3, None));
    assert_eq!(index.inodes_by_size(4), Vec::<u64>::new());
    assert_eq!(index.inodes_by_hash(1), Vec::<u64>::new());
    assert_eq!(index.inode_by_size_len(), 1);
    assert_eq!(index.inode_by_hash_len(), 0);
    assert!(index.sanity_check());
}

#[test]
fn a_list_of_entries_that_does_not_pass_the_audit_is_refused() {
    let e = |path: &str, size: u64, inode: u64, hash: Option<u128>| FileEntry {
        relative_path: path.to_owned(),
        fast_hash: hash,
        stat_size: size,
        stat_modified: Timestamp { secs: 0, nanos: 0 },
        stat_created: Timestamp { secs: 0, nanos: 0 },
        stat_inode: inode,
    };
    // a path twice
    assert!(matches!(
        FilesIndex::from_entries("/b", &[e("x", 1, 2, None), e("x", 1, 2, None)]),
        Err(Error::Codec(_))
    ));
    // two digests for one inode
    assert!(matches!(
        FilesIndex::from_entries("/b", &[e("x", 1, 2, Some(5)), e("y", 1, 2, Some(6))]),
        Err(Error::Codec(_))
    ));
    assert!(matches!(
        FilesIndex::from_entries("/b", &[e("x", 1, 2, Some(5)), e("y", 1, 2, None)]),
        Err(Error::Codec(_))
    ));
    // two inodes of one size, one entry without a digest
    assert!(matches!(
        FilesIndex::from_entries("/b", &[e("x", 1, 2, Some(5)), e("y", 1, 3, None)]),
        Err(Error::Codec(_))
    ));
    // and lists that pass
    assert!(FilesIndex::from_entries("/b", &[]).unwrap().sanity_check());
    let index = FilesIndex::from_entries(
        "/b",
        &[e("x", 1, 2, Some(5)), e("y", 1, 3, Some(6)), e("z", 1, 3, Some(6)), e("w", 2, 4, None)],
    )
    .unwrap();
    assert_eq!(index.len(), 4);
    assert_eq!(index.slot_of_path("z"), Some(2));
}

#[test]
fn the_audit_fails_on_entries_filed_against_its_rules() {
    let e = |path: &str, size: u64, inode: u64, hash: Option<u128>| FileEntry {
        relative_path: path.to_owned(),
        fast_hash: hash,
        stat_size: size,
        stat_modified: Timestamp { secs: 0, nanos: 0 },
        stat_created: Timestamp { secs: 0, nanos: 0 },
        stat_inode: inode,
    };
    let mut index = FilesIndex::new("/b");
    index.update_file_entry(&e("x", 1, 2, None));
    assert!(index.sanity_check());
    index.update_file_entry(&e("y", 1, 3, Some(4)));
    assert!(!index.sanity_check());
    index.update_file_entry(&e("x", 1, 2, Some(5)));
    assert!(index.sanity_check());
    index.update_file_entry(&e("z", 8, 2, Some(6)));
    assert!(!index.sanity_check());
}

fn assert_invariants(index: &FilesIndex) {
    assert!(index.sanity_check());
    let entries = index.entries();
    // every path leads to the slot that holds it, and to no other
    assert_eq!(index.by_relative_path_len(), entries.len());
    for (slot, e) in entries.iter().enumerate() {
        assert_eq!(index.slot_of_path(&e.relative_path), Some(slot));
        assert!(index.slots_by_size(e.stat_size).contains(&slot));
        assert!(index.slots_by_inode(e.stat_inode).contains(&slot));
        assert!(index.inodes_by_size(e.stat_size).contains(&e.stat_inode));
        if let Some(h) = e.fast_hash {
            assert!(index.slots_by_hash(h).contains(&slot));
            assert!(index.inodes_by_hash(h).contains(&e.stat_inode));
        }
    }
    // nothing else is filed
    for size in index.sizes() {
        for slot in index.slots_by_size(size) {
            assert_eq!(entries[slot].stat_size, size);
        }
        // a size with more than one inode has a digest in every entry
        if index.inodes_by_size(size).len() > 1 {
            for slot in index.slots_by_size(size) {
                assert!(entries[slot].fast_hash.is_some());
            }
        }
    }
    for inode in index.inodes() {
        let slots = index.slots_by_inode(inode);
        for slot in &slots {
            assert_eq!(entries[*slot].stat_inode, inode);
            assert_eq!(entries[*slot].fast_hash, entries[slots[0]].fast_hash);
        }
    }
    // entries of one size and digest share the inode
    for a in entries {
        for b in entries {
            if a.stat_size == b.stat_size && a.fast_hash.is_some() && a.fast_hash == b.fast_hash {
                assert_eq!(a.stat_inode, b.stat_inode);
            }
        }
    }
}

#[test]
fn the_invariants_hold_after_every_admission() {
    let mut fs = TestFs::default();
    fs.set_cwd("/largefolder/");
    let mut index = FilesIndex::new("/largefolder/");
    let mut paths = Vec::new();
    let mut texts = BTreeSet::new();
    for i in 1..120usize {
        let content = format!("file_{}", i % 17).repeat(i % 4);
        let path = format!("/largefolder/sub{}/file_{}", i % 5, i);
        fs.add_text_file(&path, &content);
        texts.insert(content.into_bytes());
        paths.push(path);
    }
    for path in &paths {
        index.add_file(&mut fs, path).unwrap();
        assert_invariants(&index);
    }
    let all: Vec<&str> = paths.iter().map(|p| p.as_str()).collect();
    assert_eq!(contents(&fs, &all), texts);
    assert_eq!(index.len(), 119);
    assert_eq!(index.by_inode_len(), texts.len());
    // a second pass over the tree changes nothing
    let entries = index.entries().clone();
    for path in &paths {
        index.add_file(&mut fs, path).unwrap();
    }
    assert_eq!(index.entries(), &entries);
    assert_invariants(&index);
}
