use file_dedup::files_index::FilesIndex;
use file_dedup::memfs::TestFs;
use std::collections::HashSet;

#[test]
pub fn test_construct() {
    let mut test_fs = TestFs::default();
    test_fs.add_text_file("/somefolder/filepath", "test");
    let base_path = "/somefolder/";
    test_fs.set_cwd(base_path);

    let file_entries = vec![
        test_fs.new_file_entry("/somefolder/asdf", "test").unwrap(),
        test_fs.new_file_entry("/somefolder/asdf2", "asdf1").unwrap(),
        test_fs.new_file_entry("/somefolder/newfile", "newfile").unwrap(),
    ];

    let index = FilesIndex::from_entries("/somefolder/", &file_entries).unwrap();
    assert_eq!(index.len(), 3);
    assert_eq!(index.by_relative_path_len(), 3);
    assert_eq!(index.by_size_len(), 3);

    assert_eq!(index.get_by_relative_path("asdf").unwrap(), &file_entries[0]);
    assert_eq!(index.get_by_relative_path("asdf2").unwrap(), &file_entries[1]);
    assert_eq!(index.get_by_relative_path("newfile").unwrap(), &file_entries[2]);

    assert!(index.sanity_check());
}

#[test]
pub fn test_add_unique_file() {
    let mut test_fs = TestFs::default();
    let base_path = "/somefolder/";
    test_fs.set_cwd(base_path);

    let mut index = FilesIndex::new(base_path);

    let f1 = test_fs.new_file_entry("/somefolder/asdf", "test").unwrap();
    index.add_file(&mut test_fs, f1.relative_path.as_str()).unwrap();
    assert_eq!(index.get_by_relative_path(f1.relative_path.as_str()).unwrap(), &f1);
    assert_eq!(index.len(), 1);
    assert_eq!(index.by_relative_path_len(), 1);
    assert_eq!(index.by_size_len(), 1);

    let f2 = test_fs.new_file_entry("/somefolder/asdfasdf", "testasdf").unwrap();
    index.add_file(&mut test_fs, f2.relative_path.as_str()).unwrap();
    assert_eq!(index.get_by_relative_path(f2.relative_path.as_str()).unwrap(), &f2);
    assert_eq!(index.len(), 2);
    assert_eq!(index.by_relative_path_len(), 2);
    assert_eq!(index.by_size_len(), 2);

    // two files of one size that differ
    let f1 = test_fs.new_file_entry("/somefolder/test1", "test1 asdf asdf").unwrap();
    let f2 = test_fs.new_file_entry("/somefolder/test2", "test2 asdf asdf").unwrap();
    index.add_file(&mut test_fs, f1.relative_path.as_str()).unwrap();
    index.add_file(&mut test_fs, f2.relative_path.as_str()).unwrap();
    assert_eq!(index.by_size_len(), 3);
    assert_eq!(index.slots_by_size(15).len(), 2);

    assert!(index.sanity_check());
}

#[test]
pub fn test_one_duplicate() {
    let mut test_fs = TestFs::default();
    let base_path = "/somefolder/";
    test_fs.set_cwd(base_path);

    let mut index = FilesIndex::new(base_path);

    let f1 = test_fs.new_file_entry("/somefolder/test1", "asdf").unwrap();
    let f2 = test_fs.new_file_entry("/somefolder/test2", "asdf").unwrap();
    assert_ne!(f1.stat_inode, f2.stat_inode);
    index.add_file(&mut test_fs, f1.relative_path.as_str()).unwrap();
    index.add_file(&mut test_fs, f2.relative_path.as_str()).unwrap();
    let f1 = index.get_by_relative_path(f1.relative_path.as_str()).unwrap();
    let f2 = index.get_by_relative_path(f2.relative_path.as_str()).unwrap();
    assert!(index.sanity_check());
    assert!(f1.fast_hash.is_some());
    assert!(f2.fast_hash.is_some());
    assert_eq!(f1.stat_inode, f2.stat_inode);
    assert_eq!(f1.fast_hash, f2.fast_hash);
}

#[test]
pub fn test_two_duplicates() {
    let mut test_fs = TestFs::default();
    let base_path = "/somefolder/";
    test_fs.set_cwd(base_path);

    let mut index = FilesIndex::new(base_path);

    let f1 = test_fs.new_file_entry("/somefolder/test1", "asdf").unwrap();
    let f2 = test_fs.new_file_entry("/somefolder/test2", "asdf").unwrap();
    let f3 = test_fs.new_file_entry("/somefolder/test3", "asdf").unwrap();
    assert_ne!(f1.stat_inode, f2.stat_inode);
    assert_ne!(f1.stat_inode, f3.stat_inode);
    assert_ne!(f2.stat_inode, f3.stat_inode);
    index.add_file(&mut test_fs, f1.relative_path.as_str()).unwrap();
    index.add_file(&mut test_fs, f2.relative_path.as_str()).unwrap();
    index.add_file(&mut test_fs, f3.relative_path.as_str()).unwrap();
    let f1 = index.get_by_relative_path(f1.relative_path.as_str()).unwrap();
    let f2 = index.get_by_relative_path(f2.relative_path.as_str()).unwrap();
    let f3 = index.get_by_relative_path(f3.relative_path.as_str()).unwrap();
    assert!(index.sanity_check());
    assert!(f1.fast_hash.is_some());
    assert!(f2.fast_hash.is_some());
    assert!(f3.fast_hash.is_some());
    assert_eq!(f1.stat_inode, f2.stat_inode);
    assert_eq!(f1.fast_hash, f2.fast_hash);
    assert_eq!(f1.fast_hash, f3.fast_hash);
}

#[test]
pub fn test_stress_test() {
    let mut test_fs = TestFs::default();
    let base_path = "/largefolder/";
    test_fs.set_cwd(base_path);

    let mut index = FilesIndex::new(base_path);

    let mut file_content = HashSet::new();

    for i in 1..200 {
        let content = format!("file_{}", (i % 42)).repeat(i % 3);
        file_content.insert(content.clone());
        let f1 = test_fs
            .new_file_entry(format!("/largefolder/file_{}", i).as_str(), &content)
            .unwrap();
        index.add_file(&mut test_fs, f1.relative_path.as_str()).unwrap();
    }
    assert!(index.sanity_check());
    assert_eq!(file_content.len(), index.by_inode_len());
    assert!(index.by_inode_len() < 199);
    assert!(index.by_size_len() < 199);
    assert!(index.by_hash_len() < 199);
    assert!(index.inode_by_size_len() < 199);
    assert!(index.inode_by_hash_len() < 199);
    assert_eq!(index.by_relative_path_len(), 199);
    assert_eq!(index.by_inode_len(), 29);
    assert_eq!(index.by_hash_len(), 29);
}
