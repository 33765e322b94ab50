//! A filesystem held in memory: a table from path to bytes and inode, with
//! the behaviour that the index expects of a real one.

use crate::error::Error;
use crate::error::Result;
use crate::file_entry::relative_to;
use crate::file_entry::FileEntry;
use crate::fs::AbstractFs;
use crate::fs::ByteStream;
use crate::fs::FileNode;
use crate::fs::Timestamp;
use crate::paths::has_root;
use crate::paths::join;
use crate::table::Table;
use vstd::prelude::*;
use vstd::slice::slice_subrange;
use vstd::slice::slice_to_vec;

verus! {

/// The time that every file of the table shows: the epoch.
pub open spec fn epoch() -> Timestamp {
    Timestamp { secs: 0, nanos: 0 }
}

/// A file of the table with the bytes `data` and the inode `inode`.
pub open spec fn mem_node(data: Seq<u8>, inode: u64) -> FileNode {
    FileNode { data, inode, modified: epoch(), accessed: epoch(), created: epoch() }
}

/// The bytes of a text.
pub open spec fn text_bytes(text: &str) -> Seq<u8> {
    vstd::string::StringSliceAdditionalSpecFns::spec_bytes(text)
}

/// `n` is the largest inode of the table.
pub open spec fn is_largest_inode(files: Map<Seq<char>, FileNode>, n: u64) -> bool {
    &&& exists|p: Seq<char>| #[trigger] files.contains_key(p) && files[p].inode == n
    &&& forall|p: Seq<char>| #[trigger] files.contains_key(p) ==> files[p].inode <= n
}

/// The inode that the next new file of the table gets: one more than the
/// largest inode of the table, and 2 where the table is empty.
pub open spec fn next_inode_of(files: Map<Seq<char>, FileNode>) -> int {
    if exists|n: u64| is_largest_inode(files, n) {
        (choose|n: u64| is_largest_inode(files, n)) + 1
    } else {
        2
    }
}

/// Where a file of the table has an inode that no other exceeds, the next
/// new file gets the inode after that one.
pub proof fn lemma_next_inode(files: Map<Seq<char>, FileNode>, path: Seq<char>)
    requires
        files.contains_key(path),
        forall|p: Seq<char>| #[trigger] files.contains_key(p) ==> files[p].inode
            <= files[path].inode,
    ensures
        next_inode_of(files) == files[path].inode + 1,
{
    let n = files[path].inode;
    assert(is_largest_inode(files, n));
    let m = choose|m: u64| is_largest_inode(files, m);
    let q = choose|q: Seq<char>| #[trigger] files.contains_key(q) && files[q].inode == m;
    assert(files[q].inode <= n);
    assert(files[path].inode <= m);
}

/// No file of the table has the inode.
pub open spec fn unused_inode(files: Map<Seq<char>, FileNode>, inode: int) -> bool {
    forall|p: Seq<char>| #[trigger] files.contains_key(p) ==> files[p].inode != inode
}

/// The table made of the first `n` pairs of path and text: each file gets
/// its place in the list, counted from one, as its inode; a later pair
/// replaces an earlier one of the same path.
pub open spec fn listed(files: Seq<(&str, &str)>, n: int) -> Map<Seq<char>, FileNode>
    decreases n,
{
    if n <= 0 {
        Map::empty()
    } else {
        listed(files, n - 1).insert(
            files[n - 1].0@,
            mem_node(text_bytes(files[n - 1].1), n as u64),
        )
    }
}

/// A file of the table opened for reading.
pub struct MemFile {
    data: Vec<u8>,
    pos: usize,
}

impl ByteStream for MemFile {
    closed spec fn remaining(&self) -> Seq<u8> {
        if self.pos <= self.data@.len() {
            self.data@.skip(self.pos as int)
        } else {
            Seq::empty()
        }
    }

    open spec fn unfailing(&self) -> bool {
        true
    }

    fn read(&mut self, limit: usize) -> (r: Result<Vec<u8>>)
        ensures
            r is Ok,
    {
        let len = self.data.len();
        let start = if self.pos <= len {
            self.pos
        } else {
            len
        };
        let count = if len - start < limit {
            len - start
        } else {
            limit
        };
        let chunk = slice_to_vec(slice_subrange(self.data.as_slice(), start, start + count));
        proof {
            assert(chunk@ =~= old(self).remaining().take(count as int));
            assert(self.data@.skip((start + count) as int) =~= old(self).remaining().skip(
                count as int,
            ));
        }
        self.pos = start + count;
        Ok(chunk)
    }
}

/// The filesystem in memory.
pub struct TestFs {
    table: Table,
    pub cwd: String,
}

impl TestFs {
    /// The directory against which a path without a root is resolved.
    pub closed spec fn working_dir(&self) -> Seq<char> {
        self.cwd@
    }

    /// An empty table.
    pub fn new() -> (r: Self)
        ensures
            r.files() == Map::<Seq<char>, FileNode>::empty(),
            r.working_dir() == Seq::<char>::empty(),
    {
        let r = TestFs { table: Table::new(), cwd: String::new() };
        proof {
            assert(r.files() =~= Map::<Seq<char>, FileNode>::empty());
        }
        r
    }

    /// A table of text files, each with its place in the list, counted from
    /// one, as its inode. The working directory is the root.
    pub fn with_files(files: &[(&str, &str)]) -> (r: Self)
        requires
            files@.len() < u64::MAX,
        ensures
            r.files() == listed(files@, files@.len() as int),
            r.working_dir() == "/"@,
    {
        let mut fs = TestFs { table: Table::new(), cwd: "/".to_owned() };
        proof {
            assert(fs.files() =~= listed(files@, 0));
        }
        let mut i: usize = 0;
        while i < files.len()
            invariant
                i <= files@.len(),
                files@.len() < u64::MAX,
                fs.files() == listed(files@, i as int),
                fs.working_dir() == "/"@,
            decreases files@.len() - i,
        {
            let (path, text) = files[i];
            let inode = (i + 1) as u64;
            let ghost before = fs.files();
            fs.table.insert(path, text.as_bytes_vec(), inode);
            i += 1;
            proof {
                assert(fs.files() =~= before.insert(path@, mem_node(text_bytes(text), inode)));
            }
        }
        fs
    }

    /// The bytes of the file at `path`.
    pub fn get_file_data(&self, path: &str) -> (r: Result<&[u8]>)
        ensures
            r matches Ok(d) ==> self.files().contains_key(path@) && d@
                == self.files()[path@].data,
            r matches Err(e) ==> !self.files().contains_key(path@) && e is NotFound,
    {
        match self.table.get(path) {
            Some(e) => Ok(e.data.as_slice()),
            None => Err(Error::NotFound(path.to_owned())),
        }
    }

    /// The inode that the next new file gets, where there is one left.
    fn free_inode(&self) -> (r: Option<u64>)
        ensures
            r is Some <==> next_inode_of(self.files()) <= u64::MAX,
            r matches Some(n) ==> n == next_inode_of(self.files()) && unused_inode(
                self.files(),
                n as int,
            ),
    {
        let ghost files = self.files();
        match self.table.largest_inode() {
            Some(n) => {
                proof {
                    let p = choose|p: Seq<char>| #[trigger]
                        self.table@.contains_key(p) && self.table@[p].1 == n;
                    assert(files.contains_key(p) && files[p].inode == n);
                    assert forall|q: Seq<char>| #[trigger] files.contains_key(q) implies files[q].inode
                        <= n by {
                        assert(self.table@.contains_key(q));
                    }
                    lemma_next_inode(files, p);
                }
                if n == u64::MAX {
                    None
                } else {
                    Some(n + 1)
                }
            },
            None => {
                proof {
                    assert forall|m: u64| !is_largest_inode(files, m) by {
                        if is_largest_inode(files, m) {
                            let q = choose|q: Seq<char>| #[trigger]
                                files.contains_key(q) && files[q].inode == m;
                            assert(self.table@.contains_key(q));
                        }
                    }
                    assert forall|q: Seq<char>| #[trigger] files.contains_key(q) implies files[q].inode
                        != 2 by {
                        assert(self.table@.contains_key(q));
                    }
                }
                Some(2)
            },
        }
    }

    /// The inode that the next new file gets: one more than the largest
    /// inode of the table, and 2 where the table is empty. No file has it.
    fn next_inode(&self) -> (r: u64)
        requires
            next_inode_of(self.files()) <= u64::MAX,
        ensures
            r == next_inode_of(self.files()),
            unused_inode(self.files(), r as int),
    {
        match self.free_inode() {
            Some(n) => n,
            None => vstd::pervasive::unreached(),
        }
    }

    pub fn set_cwd(&mut self, path: &str)
        ensures
            final(self).working_dir() == path@,
            final(self).files() == old(self).files(),
    {
        self.cwd = path.to_owned();
    }

    /// Puts a text file at `filename`, under the inode after the largest of
    /// the table, which no file has.
    pub fn add_text_file(&mut self, filename: &str, filedata: &str)
        requires
            next_inode_of(old(self).files()) <= u64::MAX,
        ensures
            final(self).files() == old(self).files().insert(
                filename@,
                mem_node(text_bytes(filedata), next_inode_of(old(self).files()) as u64),
            ),
            unused_inode(old(self).files(), next_inode_of(old(self).files())),
            final(self).working_dir() == old(self).working_dir(),
    {
        self.add_file_data(filename, filedata.as_bytes_vec());
    }

    /// Puts a file of the given bytes at `filename`, under the inode after
    /// the largest of the table, which no file has.
    pub fn add_binary_file(&mut self, filename: &str, filedata: &[u8])
        requires
            next_inode_of(old(self).files()) <= u64::MAX,
        ensures
            final(self).files() == old(self).files().insert(
                filename@,
                mem_node(filedata@, next_inode_of(old(self).files()) as u64),
            ),
            unused_inode(old(self).files(), next_inode_of(old(self).files())),
            final(self).working_dir() == old(self).working_dir(),
    {
        self.add_file_data(filename, slice_to_vec(filedata));
    }

    fn add_file_data(&mut self, filename: &str, data: Vec<u8>)
        requires
            next_inode_of(old(self).files()) <= u64::MAX,
        ensures
            final(self).files() == old(self).files().insert(
                filename@,
                mem_node(data@, next_inode_of(old(self).files()) as u64),
            ),
            unused_inode(old(self).files(), next_inode_of(old(self).files())),
            final(self).working_dir() == old(self).working_dir(),
    {
        let inode = self.next_inode();
        let ghost before = self.files();
        self.table.insert(filename, data, inode);
        proof {
            assert(self.files() =~= before.insert(filename@, mem_node(data@, inode)));
        }
    }

    /// Puts a text file at `path` and makes its entry relative to the
    /// working directory. The entry is refused where the path does not
    /// resolve to the file or to a place below the working directory; the
    /// file is put there all the same.
    pub fn new_file_entry(&mut self, path: &str, filedata: &str) -> (r: Result<FileEntry>)
        requires
            next_inode_of(old(self).files()) <= u64::MAX,
        ensures
            final(self).files() == old(self).files().insert(
                path@,
                mem_node(text_bytes(filedata), next_inode_of(old(self).files()) as u64),
            ),
            unused_inode(old(self).files(), next_inode_of(old(self).files())),
            final(self).working_dir() == old(self).working_dir(),
            r is Ok <==> crate::admission::tentative(
                final(self).files(),
                old(self).working_dir(),
                old(self).canonical(path@),
            ) is Some,
            r matches Ok(e) ==> crate::admission::tentative(
                final(self).files(),
                old(self).working_dir(),
                old(self).canonical(path@),
            ) == Some(e@),
            r matches Err(e) ==> if !final(self).files().contains_key(old(self).canonical(path@)->0)
                && crate::file_entry::relative_path_of(
                old(self).canonical(path@)->0,
                old(self).working_dir(),
            ) is Some {
                e is NotFound
            } else if crate::paths::path_strip_prefix(
                old(self).canonical(path@)->0,
                old(self).working_dir(),
            ) is None {
                e is PathEscape
            } else {
                e is Generic
            },
    {
        self.add_text_file(path, filedata);
        let absolute_path = match self.canonicalize(path) {
            Ok(p) => p,
            Err(e) => {
                return Err(e);
            },
        };
        let relative_path = match relative_to(absolute_path.as_str(), self.cwd.as_str()) {
            Ok(p) => p,
            Err(e) => {
                return Err(e);
            },
        };
        let (size, modified, _accessed, created, inode) = match self.metadata(
            absolute_path.as_str(),
        ) {
            Ok(m) => m,
            Err(e) => {
                return Err(e);
            },
        };
        Ok(
            FileEntry {
                relative_path,
                fast_hash: None,
                stat_size: size,
                stat_modified: modified,
                stat_created: created,
                stat_inode: inode,
            },
        )
    }
}

impl Default for TestFs {
    fn default() -> (r: Self)
        ensures
            r.files() == Map::<Seq<char>, FileNode>::empty(),
            r.working_dir() == Seq::<char>::empty(),
    {
        TestFs::new()
    }
}

impl AbstractFs for TestFs {
    type File = MemFile;

    closed spec fn files(&self) -> Map<Seq<char>, FileNode> {
        Map::new(
            |p: Seq<char>| self.table@.contains_key(p),
            |p: Seq<char>| mem_node(self.table@[p].0, self.table@[p].1),
        )
    }

    open spec fn read_only(&self) -> bool {
        false
    }

    open spec fn dependable(&self) -> bool {
        true
    }

    open spec fn canonical(&self, path: Seq<char>) -> Option<Seq<char>> {
        if crate::paths::path_has_root(path) {
            Some(path)
        } else {
            Some(crate::paths::path_join(self.working_dir(), path))
        }
    }

    fn is_read_only(&self) -> (r: bool) {
        false
    }

    fn open(&self, path: &str) -> (r: Result<MemFile>)
        ensures
            r is Ok <==> self.files().contains_key(path@),
            r matches Err(e) ==> e is NotFound,
    {
        match self.table.get(path) {
            Some(e) => {
                let f = MemFile { data: slice_to_vec(e.data.as_slice()), pos: 0 };
                proof {
                    assert(f.remaining() =~= e.data@);
                }
                Ok(f)
            },
            None => Err(Error::NotFound(path.to_owned())),
        }
    }

    fn write_to_file(&mut self, path: &str, buf: &[u8]) -> (r: Result<()>)
        ensures
            r is Ok <==> old(self).files().contains_key(path@) || next_inode_of(
                old(self).files(),
            ) <= u64::MAX,
            r is Ok ==> final(self).files()[path@].inode == if old(self).files().contains_key(
                path@,
            ) {
                old(self).files()[path@].inode as int
            } else {
                next_inode_of(old(self).files())
            },
            final(self).working_dir() == old(self).working_dir(),
    {
        let known = match self.table.get(path) {
            Some(e) => Some(e.inode),
            None => None,
        };
        let inode = match known {
            Some(n) => n,
            None => match self.free_inode() {
                Some(n) => n,
                None => {
                    return Err(Error::Generic("no inode left".to_owned()));
                },
            },
        };
        let ghost before = self.files();
        self.table.insert(path, slice_to_vec(buf), inode);
        proof {
            assert(self.files().dom() =~= before.dom().insert(path@));
        }
        Ok(())
    }

    fn canonicalize(&self, path: &str) -> (r: Result<String>)
        ensures
            r is Ok,
    {
        if has_root(path) {
            Ok(path.to_owned())
        } else {
            Ok(join(self.cwd.as_str(), path))
        }
    }

    fn metadata(&self, path: &str) -> (r: Result<(u64, Timestamp, Timestamp, Timestamp, u64)>)
        ensures
            r is Ok <==> self.files().contains_key(path@),
            r matches Err(e) ==> e is NotFound,
    {
        match self.table.get(path) {
            Some(e) => {
                let t = Timestamp { secs: 0, nanos: 0 };
                Ok((e.data.len() as u64, t, t, t, e.inode))
            },
            None => Err(Error::NotFound(path.to_owned())),
        }
    }

    fn hard_link(&mut self, src: &str, dst: &str) -> (r: Result<()>)
        ensures
            r is Ok <==> old(self).files().contains_key(src@) && !old(self).files().contains_key(
                dst@,
            ),
            final(self).working_dir() == old(self).working_dir(),
    {
        if self.table.get(dst).is_some() {
            return Err(Error::Generic("dst file exists!".to_owned()));
        }
        let (data, inode) = match self.table.get(src) {
            Some(e) => (slice_to_vec(e.data.as_slice()), e.inode),
            None => {
                return Err(Error::NotFound(src.to_owned()));
            },
        };
        let ghost before = self.files();
        self.table.insert(dst, data, inode);
        proof {
            assert(self.files() =~= before.insert(dst@, before[src@]));
        }
        Ok(())
    }

    fn remove_file(&mut self, path: &str) -> (r: Result<()>)
        ensures
            r is Ok <==> old(self).files().contains_key(path@),
            final(self).working_dir() == old(self).working_dir(),
    {
        let ghost before = self.files();
        if !self.table.remove(path) {
            proof {
                assert(self.files() =~= before);
            }
            return Err(Error::NotFound(path.to_owned()));
        }
        proof {
            assert(self.files() =~= before.remove(path@));
        }
        Ok(())
    }

    fn rename(&mut self, from: &str, to: &str) -> (r: Result<()>)
        ensures
            r is Ok <==> old(self).files().contains_key(from@),
            final(self).working_dir() == old(self).working_dir(),
    {
        let (data, inode) = match self.table.get(from) {
            Some(e) => (slice_to_vec(e.data.as_slice()), e.inode),
            None => {
                return Err(Error::NotFound(from.to_owned()));
            },
        };
        let ghost before = self.files();
        let _ = self.table.remove(from);
        self.table.insert(to, data, inode);
        proof {
            assert(self.files() =~= before.remove(from@).insert(to@, before[from@]));
        }
        Ok(())
    }
}

} // verus!
