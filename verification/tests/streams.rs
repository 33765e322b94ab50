use file_dedup::files_index::FilesIndex;
use file_dedup::fs::AbstractFs;
use file_dedup::fs::ByteStream;
use file_dedup::link::hash_file;
use file_dedup::memfs::TestFs;
use file_dedup::stream::compare_streams;
use file_dedup::stream::digest_stream;

fn patterned(len: usize, seed: u8) -> Vec<u8> {
    (0..len).map(|i| (i as u8).wrapping_mul(31).wrapping_add(seed)).collect()
}

#[test]
fn digest_of_a_short_file_is_murmur3_x64_128() {
    let mut fs = TestFs::default();
    fs.add_text_file("/d/a", "asdf");
    assert_eq!(
        hash_file(&fs, "/d/a").unwrap(),
        290827534275623791776536726795751555336u128
    );
}

#[test]
fn digest_of_hello_matches_the_documented_value() {
    let mut fs = TestFs::default();
    fs.add_text_file("/d/h", "hello");
    assert_eq!(
        hash_file(&fs, "/d/h").unwrap(),
        121118445609844952839898260755277781762u128
    );
}

#[test]
fn digest_of_an_empty_file_is_that_of_no_bytes() {
    let mut fs = TestFs::default();
    fs.add_binary_file("/d/empty", &[]);
    assert_eq!(
        hash_file(&fs, "/d/empty").unwrap(),
        fasthash::murmur3::hash128(b"")
    );
}

#[test]
fn digest_does_not_depend_on_the_chunks() {
    let data = patterned(10_000, 7);
    let mut fs = TestFs::default();
    fs.add_binary_file("/d/long", &data);
    assert_eq!(
        hash_file(&fs, "/d/long").unwrap(),
        fasthash::murmur3::hash128(&data)
    );
    let mut stream = fs.open("/d/long").unwrap();
    assert_eq!(
        digest_stream(&mut stream).unwrap(),
        fasthash::murmur3::hash128(&data)
    );
}

#[test]
fn digest_of_a_missing_file_is_an_error() {
    let fs = TestFs::default();
    assert!(matches!(
        hash_file(&fs, "/d/nothing"),
        Err(file_dedup::error::Error::NotFound(_))
    ));
}

#[test]
fn a_stream_hands_out_at_most_the_limit_and_then_ends() {
    let data = patterned(10, 1);
    let mut fs = TestFs::default();
    fs.add_binary_file("/d/ten", &data);
    let mut stream = fs.open("/d/ten").unwrap();
    assert_eq!(stream.read(4).unwrap(), data[0..4].to_vec());
    assert_eq!(stream.read(4).unwrap(), data[4..8].to_vec());
    assert_eq!(stream.read(4).unwrap(), data[8..10].to_vec());
    assert_eq!(stream.read(4).unwrap(), Vec::<u8>::new());
    assert_eq!(stream.read(4).unwrap(), Vec::<u8>::new());
}

#[test]
fn equal_streams_compare_equal_with_both_digests() {
    let data = patterned(9_000, 3);
    let mut fs = TestFs::default();
    fs.add_binary_file("/d/a", &data);
    fs.add_binary_file("/d/b", &data);
    let h = fasthash::murmur3::hash128(&data);
    for short_circuit in [false, true] {
        let mut a = fs.open("/d/a").unwrap();
        let mut b = fs.open("/d/b").unwrap();
        assert_eq!(
            compare_streams(&mut a, &mut b, short_circuit).unwrap(),
            (true, Some((h, h)))
        );
    }
}

#[test]
fn a_difference_in_a_later_chunk_is_found() {
    let data = patterned(9_000, 3);
    let mut other = data.clone();
    other[8_999] ^= 1;
    let mut fs = TestFs::default();
    fs.add_binary_file("/d/a", &data);
    fs.add_binary_file("/d/b", &other);

    let mut a = fs.open("/d/a").unwrap();
    let mut b = fs.open("/d/b").unwrap();
    assert_eq!(
        compare_streams(&mut a, &mut b, false).unwrap(),
        (
            false,
            Some((
                fasthash::murmur3::hash128(&data),
                fasthash::murmur3::hash128(&other)
            ))
        )
    );

    let mut a = fs.open("/d/a").unwrap();
    let mut b = fs.open("/d/b").unwrap();
    assert_eq!(compare_streams(&mut a, &mut b, true).unwrap(), (false, None));
}

#[test]
fn a_stream_that_is_a_prefix_of_the_other_differs_from_it() {
    let long = patterned(5_000, 9);
    let short = long[..4_096].to_vec();
    let mut fs = TestFs::default();
    fs.add_binary_file("/d/long", &long);
    fs.add_binary_file("/d/short", &short);

    let mut a = fs.open("/d/short").unwrap();
    let mut b = fs.open("/d/long").unwrap();
    assert_eq!(
        compare_streams(&mut a, &mut b, false).unwrap(),
        (
            false,
            Some((
                fasthash::murmur3::hash128(&short),
                fasthash::murmur3::hash128(&long)
            ))
        )
    );
    let mut a = fs.open("/d/long").unwrap();
    let mut b = fs.open("/d/short").unwrap();
    assert_eq!(compare_streams(&mut a, &mut b, true).unwrap(), (false, None));
}

#[test]
fn two_empty_streams_are_equal() {
    let mut fs = TestFs::default();
    fs.add_binary_file("/d/a", &[]);
    fs.add_binary_file("/d/b", &[]);
    let mut a = fs.open("/d/a").unwrap();
    let mut b = fs.open("/d/b").unwrap();
    let h = fasthash::murmur3::hash128(b"");
    assert_eq!(
        compare_streams(&mut a, &mut b, true).unwrap(),
        (true, Some((h, h)))
    );
}

/// A stream that hands out its bytes in chunks of uneven length.
struct Ragged {
    data: Vec<u8>,
    pos: usize,
    step: usize,
}

impl ByteStream for Ragged {
    fn read(&mut self, limit: usize) -> file_dedup::error::Result<Vec<u8>> {
        self.step = self.step % 7 + 1;
        let n = limit.min(self.step * 3).min(self.data.len() - self.pos);
        let chunk = self.data[self.pos..self.pos + n].to_vec();
        self.pos += n;
        Ok(chunk)
    }
}

#[test]
fn short_reads_on_either_side_do_not_change_the_result() {
    let data = patterned(1_000, 5);
    let mut other = data.clone();
    other[777] ^= 0x40;

    let mut a = Ragged { data: data.clone(), pos: 0, step: 0 };
    let mut b = Ragged { data: data.clone(), pos: 0, step: 3 };
    let h = fasthash::murmur3::hash128(&data);
    assert_eq!(
        compare_streams(&mut a, &mut b, false).unwrap(),
        (true, Some((h, h)))
    );

    let mut a = Ragged { data: data.clone(), pos: 0, step: 2 };
    let mut b = Ragged { data: other.clone(), pos: 0, step: 5 };
    assert_eq!(
        compare_streams(&mut a, &mut b, false).unwrap(),
        (false, Some((h, fasthash::murmur3::hash128(&other))))
    );
}

#[test]
fn compare_files_reads_the_files_of_the_entries() {
    let mut fs = TestFs::default();
    fs.set_cwd("/base");
    let a = fs.new_file_entry("/base/a", "one text").unwrap();
    let b = fs.new_file_entry("/base/b", "one text").unwrap();
    let c = fs.new_file_entry("/base/c", "two text").unwrap();
    let index = FilesIndex::new("/base");
    let h = fasthash::murmur3::hash128(b"one text");
    assert_eq!(
        index.compare_files(&fs, &a, &b, false).unwrap(),
        (true, Some((h, h)))
    );
    assert_eq!(
        index.compare_files(&fs, &a, &c, false).unwrap(),
        (false, Some((h, fasthash::murmur3::hash128(b"two text"))))
    );
    assert_eq!(index.compare_files(&fs, &a, &c, true).unwrap(), (false, None));
    fs.remove_file("/base/c").unwrap();
    assert!(index.compare_files(&fs, &a, &c, true).is_err());
}
