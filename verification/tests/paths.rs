use file_dedup::paths::backup_path;
use file_dedup::paths::index_file_path;
use file_dedup::paths::is_skipped;

#[test]
fn the_backup_is_a_sibling_with_the_suffix() {
    assert_eq!(backup_path("file"), Some("file.backup".to_owned()));
    assert_eq!(backup_path("dir/file.txt"), Some("dir/file.txt.backup".to_owned()));
    assert_eq!(backup_path("a/b/c"), Some("a/b/c.backup".to_owned()));
}

#[test]
fn a_path_without_a_file_name_has_no_backup() {
    assert_eq!(backup_path(""), None);
    assert_eq!(backup_path("dir/.."), None);
    assert_eq!(backup_path("/"), None);
}

#[test]
fn the_index_file_lies_in_the_base_directory() {
    assert_eq!(index_file_path("/somefolder/"), "/somefolder/.index_file.csv");
    assert_eq!(index_file_path("/somefolder"), "/somefolder/.index_file.csv");
}

#[test]
fn the_walk_skips_the_index_file_and_backups() {
    assert!(is_skipped("/somefolder/.index_file.csv"));
    assert!(is_skipped(".index_file.csv"));
    assert!(is_skipped("/somefolder/test1.backup"));
    assert!(is_skipped("/somefolder/sub/x.tar.backup"));
    assert!(is_skipped(".backup"));
}

#[test]
fn the_walk_admits_everything_else() {
    assert!(!is_skipped("/somefolder/test1"));
    assert!(!is_skipped("/somefolder/index_file.csv"));
    assert!(!is_skipped("/somefolder/x.backup.txt"));
    assert!(!is_skipped("/somefolder/backup"));
    assert!(!is_skipped("/somefolder.backup/file"));
    assert!(!is_skipped(""));
}
