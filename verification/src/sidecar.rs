//! The rows of the stored index: a header row, then one row of seven
//! fields for each entry. How rows become the text of a file is left to
//! the caller.

use crate::decimal::format_decimal;
use crate::decimal::parse_decimal;
use crate::error::Error;
use crate::error::Result;
use crate::file_entry::FileEntry;
use crate::file_entry::FileEntryView;
use crate::files_index::FilesIndex;
use crate::fs::Timestamp;
use vstd::prelude::*;

verus! {

/// The text that `humantime::format_rfc3339` gives for the time that lies
/// `secs` seconds and `nanos` nanoseconds after the epoch.
pub uninterp spec fn rfc3339_text(secs: u64, nanos: u32) -> Seq<char>;

/// The time that `humantime::parse_rfc3339_weak` reads from a text, as
/// seconds and nanoseconds after the epoch; none where it refuses the text.
pub uninterp spec fn rfc3339_time(text: Seq<char>) -> Option<(u64, u32)>;

/// The last second that can be written: the end of the year 9999.
pub const LAST_SECOND: u64 = 253402300799;

/// The number of fields of a row.
pub const COLUMNS: usize = 7;

/// Calls `humantime::format_rfc3339` on the time `secs`, `nanos` after the
/// epoch and hands back its text: in UTC, with the fraction of the second
/// only where there is one.
#[verifier::external_body]
fn format_time(secs: u64, nanos: u32) -> (r: String)
    requires
        secs <= LAST_SECOND,
        nanos < 1_000_000_000,
    ensures
        r@ == rfc3339_text(secs, nanos),
{
    let time = std::time::UNIX_EPOCH + std::time::Duration::new(secs, nanos);
    humantime::format_rfc3339(time).to_string()
}

/// Calls `humantime::parse_rfc3339_weak` and hands back the time it reads
/// as seconds and nanoseconds after the epoch.
#[verifier::external_body]
fn parse_time(text: &str) -> (r: Option<(u64, u32)>)
    ensures
        r == rfc3339_time(text@),
{
    match humantime::parse_rfc3339_weak(text) {
        Ok(time) => match time.duration_since(std::time::UNIX_EPOCH) {
            Ok(d) => Some((d.as_secs(), d.subsec_nanos())),
            Err(_) => None,
        },
        Err(_) => None,
    }
}

/// The names of the columns, in their order.
pub open spec fn header() -> Seq<Seq<char>> {
    seq![
        "relative_path"@,
        "fast_hash"@,
        "stat_size"@,
        "stat_modified"@,
        "stat_accessed"@,
        "stat_created"@,
        "stat_inode"@,
    ]
}

/// The text of a time.
pub open spec fn time_text(t: Timestamp) -> Seq<char> {
    rfc3339_text(t.secs, t.nanos)
}

/// The time of a text.
pub open spec fn time_value(text: Seq<char>) -> Option<Timestamp> {
    match rfc3339_time(text) {
        Some((secs, nanos)) => Some(Timestamp { secs, nanos }),
        None => None,
    }
}

/// A time can be written: it lies before the year 10000, and its text
/// reads back as the time.
pub open spec fn time_writable(t: Timestamp) -> bool {
    &&& t.secs <= LAST_SECOND
    &&& t.nanos < 1_000_000_000
    &&& time_value(time_text(t)) == Some(t)
}

/// The text of a digest: its decimal text, or nothing where there is none.
pub open spec fn hash_text(hash: Option<u128>) -> Seq<char> {
    match hash {
        Some(h) => crate::decimal::decimal_text(h as nat),
        None => Seq::empty(),
    }
}

/// The digest of a text. No text is no digest; a text that is no number of
/// 128 bits is refused.
pub open spec fn hash_value(text: Seq<char>) -> Option<Option<u128>> {
    if text.len() == 0 {
        Some(None)
    } else {
        match crate::decimal::decimal_value(text) {
            Some(v) => if v <= u128::MAX {
                Some(Some(v as u128))
            } else {
                None
            },
            None => None,
        }
    }
}

/// The number of 64 bits that a text stands for.
pub open spec fn number_value(text: Seq<char>) -> Option<u64> {
    match crate::decimal::decimal_value(text) {
        Some(v) => if v <= u64::MAX {
            Some(v as u64)
        } else {
            None
        },
        None => None,
    }
}

/// An entry can be written where its two times can.
pub open spec fn writable(e: FileEntryView) -> bool {
    time_writable(e.stat_modified) && time_writable(e.stat_created)
}

/// The row of an entry: path, digest, size, time of the last change, time
/// of the last access, time of creation, inode. An entry keeps no time of
/// access; its place is taken by the time of the last change.
pub open spec fn row_text(e: FileEntryView) -> Seq<Seq<char>> {
    seq![
        e.relative_path,
        hash_text(e.fast_hash),
        crate::decimal::decimal_text(e.stat_size as nat),
        time_text(e.stat_modified),
        time_text(e.stat_modified),
        time_text(e.stat_created),
        crate::decimal::decimal_text(e.stat_inode as nat),
    ]
}

/// The entry of a row. A row is refused where it does not have seven
/// fields or where a field other than the path cannot be read. The time of
/// access has to be a time and is dropped.
pub open spec fn row_entry(row: Seq<Seq<char>>) -> Option<FileEntryView> {
    if row.len() != COLUMNS {
        None
    } else if hash_value(row[1]) is Some && number_value(row[2]) is Some && time_value(row[3])
        is Some && time_value(row[4]) is Some && time_value(row[5]) is Some && number_value(
        row[6],
    ) is Some {
        Some(
            FileEntryView {
                relative_path: row[0],
                fast_hash: hash_value(row[1])->0,
                stat_size: number_value(row[2])->0,
                stat_modified: time_value(row[3])->0,
                stat_created: time_value(row[5])->0,
                stat_inode: number_value(row[6])->0,
            },
        )
    } else {
        None
    }
}

/// The fields of a row as texts.
pub open spec fn texts(row: Seq<String>) -> Seq<Seq<char>> {
    row.map_values(|s: String| s@)
}

/// The row of an entry that can be written reads back as the entry.
pub proof fn lemma_row_reads_back(e: FileEntryView)
    requires
        writable(e),
    ensures
        row_entry(row_text(e)) == Some(e),
{
    crate::decimal::lemma_decimal_reads_back(e.stat_size as nat);
    crate::decimal::lemma_decimal_reads_back(e.stat_inode as nat);
    match e.fast_hash {
        Some(h) => {
            crate::decimal::lemma_decimal_reads_back(h as nat);
        },
        None => {},
    }
}

/// Whether a time can be written, and its text if so.
fn write_time(t: &Timestamp) -> (r: Option<String>)
    ensures
        r is Some <==> time_writable(*t),
        r matches Some(s) ==> s@ == time_text(*t),
{
    if t.secs > LAST_SECOND || t.nanos >= 1_000_000_000 {
        return None;
    }
    let text = format_time(t.secs, t.nanos);
    match parse_time(text.as_str()) {
        Some((secs, nanos)) => if secs == t.secs && nanos == t.nanos {
            Some(text)
        } else {
            None
        },
        None => None,
    }
}

/// The time of a text.
fn read_time(text: &str) -> (r: Option<Timestamp>)
    ensures
        r == time_value(text@),
{
    match parse_time(text) {
        Some((secs, nanos)) => Some(Timestamp { secs, nanos }),
        None => None,
    }
}

/// The number of 64 bits of a text.
fn read_number(text: &str) -> (r: Option<u64>)
    ensures
        r == number_value(text@),
{
    match parse_decimal(text) {
        Some(v) => if v <= 0xffff_ffff_ffff_ffff {
            Some(v as u64)
        } else {
            None
        },
        None => None,
    }
}

/// The row of the column names.
pub fn header_row() -> (r: Vec<String>)
    ensures
        texts(r@) == header(),
{
    let mut row: Vec<String> = Vec::new();
    row.push("relative_path".to_owned());
    row.push("fast_hash".to_owned());
    row.push("stat_size".to_owned());
    row.push("stat_modified".to_owned());
    row.push("stat_accessed".to_owned());
    row.push("stat_created".to_owned());
    row.push("stat_inode".to_owned());
    proof {
        assert(texts(row@) =~= header());
    }
    row
}

/// The row of an entry. An entry that cannot be written is refused.
pub fn row_of(e: &FileEntry) -> (r: Result<Vec<String>>)
    ensures
        r is Ok <==> writable(e@),
        r matches Ok(row) ==> texts(row@) == row_text(e@) && row_entry(texts(row@)) == Some(e@),
        r matches Err(err) ==> err is Codec,
{
    let modified = match write_time(&e.stat_modified) {
        Some(s) => s,
        None => {
            return Err(Error::Codec("a time cannot be written".to_owned()));
        },
    };
    let created = match write_time(&e.stat_created) {
        Some(s) => s,
        None => {
            return Err(Error::Codec("a time cannot be written".to_owned()));
        },
    };
    let hash = match e.fast_hash {
        Some(h) => format_decimal(h),
        None => String::new(),
    };
    let mut row: Vec<String> = Vec::new();
    row.push(e.relative_path.clone());
    row.push(hash);
    row.push(format_decimal(e.stat_size as u128));
    row.push(modified.clone());
    row.push(modified);
    row.push(created);
    row.push(format_decimal(e.stat_inode as u128));
    proof {
        assert(texts(row@) =~= row_text(e@));
        lemma_row_reads_back(e@);
    }
    Ok(row)
}

/// The entry of a row. A row that cannot be read is refused.
pub fn entry_of_row(row: &Vec<String>) -> (r: Result<FileEntry>)
    ensures
        r matches Ok(e) ==> row_entry(texts(row@)) == Some(e@),
        r is Err ==> row_entry(texts(row@)) is None,
        r matches Err(err) ==> err is Codec,
{
    if row.len() != COLUMNS {
        return Err(Error::Codec("a row does not have seven fields".to_owned()));
    }
    let ghost t = texts(row@);
    proof {
        assert(t.len() == COLUMNS);
        assert(t[0] == row@[0]@ && t[1] == row@[1]@ && t[2] == row@[2]@ && t[3] == row@[3]@);
        assert(t[4] == row@[4]@ && t[5] == row@[5]@ && t[6] == row@[6]@);
    }
    let fast_hash = if row[1].as_str().unicode_len() == 0 {
        None
    } else {
        match parse_decimal(row[1].as_str()) {
            Some(h) => Some(h),
            None => {
                return Err(Error::Codec("a digest cannot be read".to_owned()));
            },
        }
    };
    let stat_size = match read_number(row[2].as_str()) {
        Some(n) => n,
        None => {
            return Err(Error::Codec("a size cannot be read".to_owned()));
        },
    };
    let stat_modified = match read_time(row[3].as_str()) {
        Some(t) => t,
        None => {
            return Err(Error::Codec("a time cannot be read".to_owned()));
        },
    };
    match read_time(row[4].as_str()) {
        Some(_) => {},
        None => {
            return Err(Error::Codec("a time cannot be read".to_owned()));
        },
    }
    let stat_created = match read_time(row[5].as_str()) {
        Some(t) => t,
        None => {
            return Err(Error::Codec("a time cannot be read".to_owned()));
        },
    };
    let stat_inode = match read_number(row[6].as_str()) {
        Some(n) => n,
        None => {
            return Err(Error::Codec("an inode cannot be read".to_owned()));
        },
    };
    Ok(
        FileEntry {
            relative_path: row[0].clone(),
            fast_hash,
            stat_size,
            stat_modified,
            stat_created,
            stat_inode,
        },
    )
}

/// Every entry can be written.
pub open spec fn all_writable(e: Seq<FileEntryView>) -> bool {
    forall|i: int| 0 <= i < e.len() ==> writable(#[trigger] e[i])
}

/// The rows of the stored index of the entries: the header row, then the
/// row of each entry in the order of the slots.
pub open spec fn sidecar_rows(e: Seq<FileEntryView>) -> Seq<Seq<Seq<char>>> {
    Seq::new(
        e.len() + 1,
        |i: int|
            if i == 0 {
                header()
            } else {
                row_text(e[i - 1])
            },
    )
}

/// The entries that rows hold. No rows hold no entries; else the first row
/// has to be the header row, and every other row has to be the row of an
/// entry.
pub open spec fn rows_entries(rows: Seq<Seq<Seq<char>>>) -> Option<Seq<FileEntryView>> {
    if rows.len() == 0 {
        Some(Seq::empty())
    } else if rows[0] != header() {
        None
    } else if forall|i: int| 1 <= i < rows.len() ==> row_entry(#[trigger] rows[i]) is Some {
        Some(Seq::new((rows.len() - 1) as nat, |i: int| row_entry(rows[i + 1])->0))
    } else {
        None
    }
}

/// Rows as texts.
pub open spec fn all_texts(rows: Seq<Vec<String>>) -> Seq<Seq<Seq<char>>> {
    rows.map_values(|row: Vec<String>| texts(row@))
}

/// The rows of entries that can be written read back as the entries.
pub proof fn lemma_rows_read_back(e: Seq<FileEntryView>)
    requires
        all_writable(e),
    ensures
        rows_entries(sidecar_rows(e)) == Some(e),
{
    let rows = sidecar_rows(e);
    assert forall|i: int| 1 <= i < rows.len() implies row_entry(#[trigger] rows[i]) == Some(
        e[i - 1],
    ) by {
        lemma_row_reads_back(e[i - 1]);
    }
    assert(rows_entries(rows)->0 =~= e);
}

/// Whether two rows hold the same texts.
fn same_row(a: &Vec<String>, b: &Vec<String>) -> (r: bool)
    ensures
        r == (texts(a@) == texts(b@)),
{
    if a.len() != b.len() {
        proof {
            assert(texts(a@).len() != texts(b@).len());
        }
        return false;
    }
    let mut i: usize = 0;
    while i < a.len()
        invariant
            i <= a.len(),
            a.len() == b.len(),
            forall|j: int| 0 <= j < i ==> (#[trigger] a@[j])@ == b@[j]@,
        decreases a.len() - i,
    {
        if a[i] != b[i] {
            proof {
                assert(texts(a@)[i as int] == a@[i as int]@);
                assert(texts(b@)[i as int] == b@[i as int]@);
            }
            return false;
        }
        i += 1;
    }
    proof {
        assert(texts(a@) =~= texts(b@));
    }
    true
}

impl FilesIndex {
    /// The rows of the stored index. They are refused where an entry
    /// cannot be written; else they read back as the entries of this index.
    pub fn to_rows(&self) -> (r: Result<Vec<Vec<String>>>)
        ensures
            r is Ok <==> all_writable(self@),
            r matches Ok(rows) ==> all_texts(rows@) == sidecar_rows(self@) && rows_entries(
                all_texts(rows@),
            ) == Some(self@),
            r matches Err(err) ==> err is Codec,
    {
        let entries = self.entries();
        let ghost e = self@;
        let mut rows: Vec<Vec<String>> = Vec::new();
        rows.push(header_row());
        let mut i: usize = 0;
        while i < entries.len()
            invariant
                i <= entries.len(),
                e == self@,
                entries@.map_values(|x: FileEntry| x@) == e,
                rows@.len() == i + 1,
                texts(rows@[0]@) == header(),
                forall|j: int| 0 <= j < i ==> writable(#[trigger] e[j]),
                forall|j: int| 1 <= j <= i ==> texts((#[trigger] rows@[j])@) == row_text(e[j - 1]),
            decreases entries.len() - i,
        {
            assert(entries@[i as int]@ == e[i as int]);
            let row = match row_of(&entries[i]) {
                Ok(row) => row,
                Err(err) => {
                    return Err(err);
                },
            };
            rows.push(row);
            i += 1;
        }
        proof {
            assert(all_texts(rows@) =~= sidecar_rows(e));
            lemma_rows_read_back(e);
        }
        Ok(rows)
    }

    /// The index of the entries that rows hold. Rows that cannot be read
    /// are refused, and so are rows whose entries do not pass the audit.
    pub fn from_rows(base_path: &str, rows: &Vec<Vec<String>>) -> (r: Result<FilesIndex>)
        ensures
            r is Ok <==> (rows_entries(all_texts(rows@)) matches Some(e) && crate::audit::audit(e)),
            r matches Ok(x) ==> x.wf() && x.base() == base_path@ && rows_entries(
                all_texts(rows@),
            ) == Some(x@),
            r matches Err(err) ==> err is Codec,
    {
        let ghost t = all_texts(rows@);
        if rows.len() == 0 {
            let empty: Vec<FileEntry> = Vec::new();
            proof {
                assert(empty@.map_values(|x: FileEntry| x@) =~= Seq::<FileEntryView>::empty());
            }
            return FilesIndex::from_entries(base_path, empty.as_slice());
        }
        let names = header_row();
        proof {
            assert(t[0] == texts(rows@[0]@));
        }
        if !same_row(&rows[0], &names) {
            return Err(Error::Codec("the first row does not name the columns".to_owned()));
        }
        let mut entries: Vec<FileEntry> = Vec::new();
        let mut i: usize = 1;
        while i < rows.len()
            invariant
                1 <= i <= rows.len(),
                t == all_texts(rows@),
                t[0] == header(),
                entries@.len() == i - 1,
                forall|j: int| 1 <= j < i ==> row_entry(#[trigger] t[j]) == Some(entries@[j - 1]@),
            decreases rows.len() - i,
        {
            proof {
                assert(t[i as int] == texts(rows@[i as int]@));
            }
            let entry = match entry_of_row(&rows[i]) {
                Ok(e) => e,
                Err(err) => {
                    return Err(err);
                },
            };
            entries.push(entry);
            i += 1;
        }
        proof {
            assert(rows_entries(t)->0 =~= entries@.map_values(|x: FileEntry| x@));
        }
        FilesIndex::from_entries(base_path, entries.as_slice())
    }
}

/// The index of a base directory, from what was found stored there: the
/// rows of the stored index, or the error of reading them. Where nothing
/// is stored the index is empty; any other error of reading is handed on.
/// Rows are read as `from_rows` reads them.
pub fn from_stored(base_path: &str, stored: Result<Vec<Vec<String>>>) -> (r: Result<FilesIndex>)
    ensures
        stored matches Ok(rows) ==> (r is Ok <==> (rows_entries(all_texts(rows@)) matches Some(e)
            && crate::audit::audit(e))),
        stored matches Ok(rows) ==> (r matches Ok(x) ==> x.wf() && x.base() == base_path@
            && rows_entries(all_texts(rows@)) == Some(x@)),
        stored matches Ok(rows) ==> (r matches Err(e) ==> e is Codec),
        stored matches Err(e) && e is NotFound ==> (r matches Ok(x) && x.wf() && x.base()
            == base_path@ && x@ == Seq::<FileEntryView>::empty()),
        stored matches Err(e) && !(e is NotFound) ==> r is Err,
        stored is Err && !(stored->Err_0 is NotFound) ==> r->Err_0 == stored->Err_0,
{
    match stored {
        Ok(rows) => FilesIndex::from_rows(base_path, &rows),
        Err(Error::NotFound(_)) => Ok(FilesIndex::new(base_path)),
        Err(e) => Err(e),
    }
}

} // verus!
