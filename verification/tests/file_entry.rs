use file_dedup::file_entry::FileEntry;
use file_dedup::memfs::TestFs;
use std::path::Path;

#[test]
fn test_new_file_entry() {
    let mut test_fs = TestFs::default();
    let base_path = "/somefolder/";
    test_fs.set_cwd(base_path);

    test_fs.add_text_file("/somefolder/filepath", "test");
    let file_hash = FileEntry::new(&test_fs, "/somefolder/", "filepath").unwrap();

    assert_eq!(
        Path::new(&file_hash.absolute_path("/somefolder/")),
        Path::new("/somefolder/filepath")
    );
    assert_eq!(Path::new(&file_hash.relative_path), Path::new("filepath"));
    assert_eq!(Path::new(&file_hash.relative_folder().unwrap()), Path::new(""));

    test_fs.add_text_file("/somefolder/subfolder/file", "test");
    let file_hash = FileEntry::new(&test_fs, "/somefolder/", "subfolder/file").unwrap();
    assert_eq!(
        Path::new(&file_hash.absolute_path("/somefolder/")),
        Path::new("/somefolder/subfolder/file")
    );
    assert_eq!(Path::new(&file_hash.relative_path), Path::new("subfolder/file"));
    assert_eq!(
        Path::new(&file_hash.relative_folder().unwrap()),
        Path::new("subfolder/")
    );
}
