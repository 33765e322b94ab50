use file_dedup::decimal::format_decimal;
use file_dedup::decimal::parse_decimal;
use file_dedup::error::Error;
use file_dedup::error::Result;
use file_dedup::file_entry::FileEntry;
use file_dedup::files_index::FilesIndex;
use file_dedup::fs::AbstractFs;
use file_dedup::fs::ByteStream;
use file_dedup::fs::Timestamp;
use file_dedup::memfs::TestFs;
use file_dedup::paths::index_file_path;
use file_dedup::sidecar::entry_of_row;
use file_dedup::sidecar::from_stored;
use file_dedup::sidecar::header_row;
use file_dedup::sidecar::row_of;

/// Writes the rows of the index as comma-separated text to its file.
fn save(index: &FilesIndex, fs: &mut TestFs) -> Result<()> {
    let rows = index.to_rows()?;
    let mut wtr = csv::Writer::from_writer(Vec::new());
    for row in &rows {
        wtr.write_record(row).map_err(|e| Error::Codec(e.to_string()))?;
    }
    let text = wtr.into_inner().map_err(|e| Error::Codec(e.to_string()))?;
    fs.write_to_file(&index_file_path(&index.base_path), &text)
}

/// Reads the text of the stored index of a base directory as rows.
fn read_rows(fs: &TestFs, base_path: &str) -> Result<Vec<Vec<String>>> {
    let mut file = fs.open(&index_file_path(base_path))?;
    let mut text = Vec::new();
    loop {
        let chunk = file.read(4096)?;
        if chunk.is_empty() {
            break;
        }
        text.extend_from_slice(&chunk);
    }
    let mut rdr = csv::ReaderBuilder::new()
        .has_headers(false)
        .flexible(true)
        .from_reader(&text[..]);
    let mut rows: Vec<Vec<String>> = Vec::new();
    for record in rdr.records() {
        let record = record.map_err(|e| Error::Codec(e.to_string()))?;
        rows.push(record.iter().map(|f| f.to_owned()).collect());
    }
    Ok(rows)
}

/// Reads the index of a base directory from its file.
fn for_base_path(fs: &TestFs, base_path: &str) -> Result<FilesIndex> {
    from_stored(base_path, read_rows(fs, base_path))
}

#[test]
pub fn test_write_to_csv() {
    let mut test_fs = TestFs::default();
    let base_path = "/somefolder/";
    test_fs.set_cwd(base_path);

    let mut index = FilesIndex::new(base_path);

    let f1 = test_fs.new_file_entry("/somefolder/test1", "asdf").unwrap();
    let f2 = test_fs.new_file_entry("/somefolder/test2", "asdf").unwrap();
    let f3 = test_fs.new_file_entry("/somefolder/test3", "asdf").unwrap();
    index.add_file(&mut test_fs, f1.relative_path.as_str()).unwrap();
    index.add_file(&mut test_fs, f2.relative_path.as_str()).unwrap();
    index.add_file(&mut test_fs, f3.relative_path.as_str()).unwrap();
    assert!(index.sanity_check());

    save(&index, &mut test_fs).unwrap();
    let s = test_fs.get_file_data("/somefolder/.index_file.csv").unwrap();
    let s = std::str::from_utf8(s).unwrap();
    assert_eq!(s, "relative_path,fast_hash,stat_size,stat_modified,stat_accessed,stat_created,stat_inode
test1,290827534275623791776536726795751555336,4,1970-01-01T00:00:00Z,1970-01-01T00:00:00Z,1970-01-01T00:00:00Z,2
test2,290827534275623791776536726795751555336,4,1970-01-01T00:00:00Z,1970-01-01T00:00:00Z,1970-01-01T00:00:00Z,2
test3,290827534275623791776536726795751555336,4,1970-01-01T00:00:00Z,1970-01-01T00:00:00Z,1970-01-01T00:00:00Z,2
");
}

#[test]
pub fn test_read_from_csv() {
    let mut test_fs = TestFs::default();
    let base_path = "/somefolder/";
    test_fs.set_cwd(base_path);

    let f1 = test_fs.new_file_entry("/somefolder/test1", "asdf").unwrap();
    let f2 = test_fs.new_file_entry("/somefolder/test2", "asdf").unwrap();
    let f3 = test_fs.new_file_entry("/somefolder/test3", "asdf").unwrap();
    test_fs.add_text_file("/somefolder/.index_file.csv",
                                           "relative_path,fast_hash,stat_size,stat_modified,stat_accessed,stat_created,stat_inode
test1,290827534275623791776536726795751555336,4,1970-01-01T00:00:00Z,1970-01-01T00:00:00Z,1970-01-01T00:00:00Z,2
test2,290827534275623791776536726795751555336,4,1970-01-01T00:00:00Z,1970-01-01T00:00:00Z,1970-01-01T00:00:00Z,2
test3,290827534275623791776536726795751555336,4,1970-01-01T00:00:00Z,1970-01-01T00:00:00Z,1970-01-01T00:00:00Z,2
");

    let mut index = for_base_path(&test_fs, base_path).unwrap();
    assert!(index.sanity_check());

    let f1 = index.get_by_relative_path(f1.relative_path.as_str()).unwrap().clone();
    let f2 = index.get_by_relative_path(f2.relative_path.as_str()).unwrap().clone();
    let f3 = index.get_by_relative_path(f3.relative_path.as_str()).unwrap().clone();
    assert!(f1.fast_hash.is_some());
    assert!(f2.fast_hash.is_some());
    assert!(f3.fast_hash.is_some());
    assert_eq!(f1.stat_inode, f2.stat_inode);
    assert_eq!(f1.fast_hash, f2.fast_hash);
    assert_eq!(f1.fast_hash, f3.fast_hash);

    index.add_file(&mut test_fs, f1.relative_path.as_str()).unwrap();
    index.add_file(&mut test_fs, f2.relative_path.as_str()).unwrap();
    index.add_file(&mut test_fs, f3.relative_path.as_str()).unwrap();
    assert!(index.sanity_check());
}

fn sample() -> FileEntry {
    FileEntry {
        relative_path: "sub dir/a,b \"c\".txt".to_owned(),
        fast_hash: Some(u128::MAX),
        stat_size: 1234567890123,
        stat_modified: Timestamp { secs: 1518568087, nanos: 133000000 },
        stat_created: Timestamp { secs: 951782400, nanos: 0 },
        stat_inode: u64::MAX,
    }
}

#[test]
fn a_row_holds_the_seven_fields_in_their_order() {
    assert_eq!(
        header_row(),
        vec![
            "relative_path",
            "fast_hash",
            "stat_size",
            "stat_modified",
            "stat_accessed",
            "stat_created",
            "stat_inode"
        ]
    );
    assert_eq!(
        row_of(&sample()).unwrap(),
        vec![
            "sub dir/a,b \"c\".txt",
            "340282366920938463463374607431768211455",
            "1234567890123",
            "2018-02-14T00:28:07.133000000Z",
            "2018-02-14T00:28:07.133000000Z",
            "2000-02-29T00:00:00Z",
            "18446744073709551615"
        ]
    );
    let mut unhashed = sample();
    unhashed.fast_hash = None;
    unhashed.stat_size = 0;
    assert_eq!(row_of(&unhashed).unwrap()[1], "");
    assert_eq!(row_of(&unhashed).unwrap()[2], "0");
}

#[test]
fn a_row_reads_back_as_its_entry() {
    let mut entries = vec![sample()];
    let mut other = sample();
    other.fast_hash = None;
    other.stat_modified = Timestamp { secs: 0, nanos: 1 };
    other.stat_created = Timestamp { secs: 253402300799, nanos: 999_999_999 };
    entries.push(other);
    for e in entries {
        assert_eq!(entry_of_row(&row_of(&e).unwrap()).unwrap(), e);
    }
}

#[test]
fn a_time_that_cannot_be_written_is_refused() {
    let mut late = sample();
    late.stat_modified = Timestamp { secs: 253402300800, nanos: 0 };
    assert!(matches!(row_of(&late), Err(Error::Codec(_))));
    let mut odd = sample();
    odd.stat_created = Timestamp { secs: 5, nanos: 1_000_000_000 };
    assert!(matches!(row_of(&odd), Err(Error::Codec(_))));
    let mut index = FilesIndex::new("/b");
    index.update_file_entry(&late);
    assert!(matches!(index.to_rows(), Err(Error::Codec(_))));
}

#[test]
fn a_row_that_cannot_be_read_is_refused() {
    let good: Vec<String> = row_of(&sample()).unwrap();
    assert!(entry_of_row(&good).is_ok());
    let spoil = |at: usize, text: &str| {
        let mut row = good.clone();
        row[at] = text.to_owned();
        entry_of_row(&row)
    };
    assert!(matches!(spoil(1, "12x"), Err(Error::Codec(_))));
    assert!(matches!(
        spoil(1, "340282366920938463463374607431768211456"),
        Err(Error::Codec(_))
    ));
    assert!(matches!(spoil(2, ""), Err(Error::Codec(_))));
    assert!(matches!(spoil(2, "-1"), Err(Error::Codec(_))));
    assert!(matches!(spoil(2, "18446744073709551616"), Err(Error::Codec(_))));
    assert!(matches!(spoil(3, "yesterday"), Err(Error::Codec(_))));
    assert!(matches!(spoil(4, ""), Err(Error::Codec(_))));
    assert!(matches!(spoil(5, "2018-02-30T00:00:00Z"), Err(Error::Codec(_))));
    assert!(matches!(spoil(6, "4 2"), Err(Error::Codec(_))));
    assert!(matches!(entry_of_row(&good[..6].to_vec()), Err(Error::Codec(_))));
    let mut long = good.clone();
    long.push("8".to_owned());
    assert!(matches!(entry_of_row(&long), Err(Error::Codec(_))));
    // the path is taken as it is, the time of access is read and dropped
    let read = spoil(4, "1999-12-31T23:59:59Z").unwrap();
    assert_eq!(read, sample());
    assert_eq!(spoil(0, "").unwrap().relative_path, "");
}

#[test]
fn numbers_are_written_in_decimal() {
    assert_eq!(format_decimal(0), "0");
    assert_eq!(format_decimal(7), "7");
    assert_eq!(format_decimal(10), "10");
    assert_eq!(format_decimal(9_007_199_254_740_993), "9007199254740993");
    assert_eq!(
        format_decimal(u128::MAX),
        "340282366920938463463374607431768211455"
    );
}

#[test]
fn numbers_are_read_from_decimal() {
    assert_eq!(parse_decimal("0"), Some(0));
    assert_eq!(parse_decimal("007"), Some(7));
    assert_eq!(parse_decimal("1234567890"), Some(1234567890));
    assert_eq!(
        parse_decimal("340282366920938463463374607431768211455"),
        Some(u128::MAX)
    );
    assert_eq!(parse_decimal("340282366920938463463374607431768211456"), None);
    assert_eq!(parse_decimal("3402823669209384634633746074317682114550"), None);
    assert_eq!(parse_decimal(""), None);
    assert_eq!(parse_decimal("+1"), None);
    assert_eq!(parse_decimal("1 "), None);
    assert_eq!(parse_decimal("12a4"), None);
    assert_eq!(parse_decimal("١٢"), None);
}

#[test]
fn rows_are_read_after_their_header() {
    assert_eq!(FilesIndex::from_rows("/b", &vec![]).unwrap().len(), 0);
    assert_eq!(FilesIndex::from_rows("/b", &vec![header_row()]).unwrap().len(), 0);
    let row = row_of(&sample()).unwrap();
    let index = FilesIndex::from_rows("/b", &vec![header_row(), row.clone()]).unwrap();
    assert_eq!(index.entries(), &vec![sample()]);
    assert!(matches!(
        FilesIndex::from_rows("/b", &vec![row.clone()]),
        Err(Error::Codec(_))
    ));
    let mut names = header_row();
    names.swap(1, 2);
    assert!(matches!(
        FilesIndex::from_rows("/b", &vec![names, row.clone()]),
        Err(Error::Codec(_))
    ));
    assert!(matches!(
        FilesIndex::from_rows("/b", &vec![header_row(), row.clone(), row]),
        Err(Error::Codec(_))
    ));
}

#[test]
fn an_index_read_from_its_rows_is_the_same() {
    let mut fs = TestFs::default();
    fs.set_cwd("/somefolder/");
    let mut index = FilesIndex::new("/somefolder/");
    for (name, text) in [("a", "asdf"), ("b", "asdf"), ("c", "qwer"), ("d", "unique text"), ("e", "qwer")] {
        fs.add_text_file(&format!("/somefolder/{}", name), text);
        index.add_file(&mut fs, name).unwrap();
    }
    let rows = index.to_rows().unwrap();
    assert_eq!(rows.len(), 6);
    assert_eq!(rows[0], header_row());
    let read = FilesIndex::from_rows("/somefolder/", &rows).unwrap();
    assert_eq!(read.entries(), index.entries());
    assert!(read.sanity_check());
    assert_eq!(read.base_dir(), "/somefolder/");

    save(&index, &mut fs).unwrap();
    let loaded = for_base_path(&fs, "/somefolder/").unwrap();
    assert_eq!(loaded.entries(), index.entries());
}

#[test]
fn nothing_stored_gives_an_empty_index() {
    let index = from_stored("/b", Err(Error::NotFound("/b/.index_file.csv".to_owned()))).unwrap();
    assert_eq!(index.len(), 0);
    assert_eq!(index.base_dir(), "/b");
    assert!(index.sanity_check());
}

#[test]
fn an_error_of_reading_the_stored_index_is_handed_on() {
    assert_eq!(
        from_stored("/b", Err(Error::IO("broken disk".to_owned()))).err(),
        Some(Error::IO("broken disk".to_owned()))
    );
    assert_eq!(
        from_stored("/b", Err(Error::Codec("bad quotes".to_owned()))).err(),
        Some(Error::Codec("bad quotes".to_owned()))
    );
}

#[test]
fn stored_rows_are_read_as_rows() {
    let row = row_of(&sample()).unwrap();
    let index = from_stored("/b", Ok(vec![header_row(), row.clone()])).unwrap();
    assert_eq!(index.entries(), &vec![sample()]);
    assert_eq!(from_stored("/b", Ok(vec![])).unwrap().len(), 0);
    assert!(matches!(
        from_stored("/b", Ok(vec![row])),
        Err(Error::Codec(_))
    ));
}

#[test]
fn a_directory_without_a_stored_index_starts_empty() {
    let mut fs = TestFs::default();
    fs.set_cwd("/somefolder/");
    fs.add_text_file("/somefolder/a", "asdf");
    let mut index = for_base_path(&fs, "/somefolder/").unwrap();
    assert_eq!(index.len(), 0);
    index.add_file(&mut fs, "a").unwrap();
    assert_eq!(index.len(), 1);
}
