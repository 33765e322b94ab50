//! The filesystem as the index sees it: a table from path to file, read and
//! changed through a fixed set of operations.

use crate::error::Result;
use vstd::prelude::*;

verus! {

/// A point in time: seconds and nanoseconds since the Unix epoch.
#[derive(Debug, Clone, Copy, PartialEq, Eq, Structural, PartialOrd, Ord, Hash)]
pub struct Timestamp {
    pub secs: u64,
    pub nanos: u32,
}

/// What a path names: the bytes of the file, its inode and its times.
pub struct FileNode {
    pub data: Seq<u8>,
    pub inode: u64,
    pub modified: Timestamp,
    pub accessed: Timestamp,
    pub created: Timestamp,
}

/// The byte strings that some path of the table holds.
pub open spec fn contents_of(files: Map<Seq<char>, FileNode>) -> Set<Seq<u8>> {
    Set::new(|d: Seq<u8>| exists|p: Seq<char>| #[trigger] files.contains_key(p) && files[p].data == d)
}

/// A file opened for reading: a sequence of bytes that is handed out front
/// to back.
pub trait ByteStream {
    /// The bytes not yet handed out. A verified implementation says what
    /// they are; of any other they are known only through `read`.
    closed spec fn remaining(&self) -> Seq<u8> {
        arbitrary()
    }

    /// Whether no read of this stream fails. Only a verified implementation
    /// can say so of itself; of any other nothing of the kind is known.
    closed spec fn unfailing(&self) -> bool {
        false
    }

    /// Hands out the next bytes, at most `limit` of them. An empty chunk
    /// means that the stream is at its end.
    fn read(&mut self, limit: usize) -> (r: Result<Vec<u8>>)
        requires
            limit > 0,
        ensures
            r matches Err(e) ==> !(e is Consistency),
            final(self).unfailing() == old(self).unfailing(),
            old(self).unfailing() ==> r is Ok,
            r matches Ok(chunk) ==> {
                &&& chunk@.len() <= limit
                &&& chunk@.len() <= old(self).remaining().len()
                &&& chunk@ == old(self).remaining().take(chunk@.len() as int)
                &&& final(self).remaining() == old(self).remaining().skip(chunk@.len() as int)
                &&& chunk@.len() == 0 ==> old(self).remaining().len() == 0
            },
    ;
}

/// The operations that the index asks of a filesystem. An implementation
/// keeps to what is stated here: a failed mutation leaves the table as it
/// was, a link shares the file of its source, a rename carries the file over.
/// The consistency error is the index's to raise: no operation hands it
/// back.
pub trait AbstractFs {
    type File: ByteStream;

    /// The table from path to file. A verified implementation says what it
    /// is; of any other it is known only through the operations below. The
    /// same holds of `read_only` and `canonical`.
    closed spec fn files(&self) -> Map<Seq<char>, FileNode> {
        arbitrary()
    }

    /// Whether every mutation is refused.
    closed spec fn read_only(&self) -> bool {
        arbitrary()
    }

    /// The absolute path that `path` resolves to, if it resolves.
    closed spec fn canonical(&self, path: Seq<char>) -> Option<Seq<char>> {
        arbitrary()
    }

    /// Whether the table alone decides what an operation does: none fails
    /// for a reason of its own, and no file that was opened fails to be
    /// read. Only a verified implementation can say so of itself; of any
    /// other nothing of the kind is known.
    closed spec fn dependable(&self) -> bool {
        false
    }

    fn is_read_only(&self) -> (r: bool)
        ensures
            r == self.read_only(),
    ;

    /// Opens the file at `path` for reading from its first byte.
    fn open(&self, path: &str) -> (r: Result<Self::File>)
        ensures
            r matches Err(e) ==> !(e is Consistency),
            r matches Ok(f) ==> self.files().contains_key(path@) && f.remaining()
                == self.files()[path@].data,
            self.dependable() ==> (r is Ok <==> self.files().contains_key(path@)),
            self.dependable() ==> (r matches Ok(f) ==> f.unfailing()),
    ;

    /// Creates or truncates the file at `path` and writes `buf` to it.
    fn write_to_file(&mut self, path: &str, buf: &[u8]) -> (r: Result<()>)
        ensures
            r matches Err(e) ==> !(e is Consistency),
            final(self).read_only() == old(self).read_only(),
            final(self).dependable() == old(self).dependable(),
            old(self).read_only() ==> r is Err,
            r is Err ==> final(self).files() == old(self).files(),
            r is Ok ==> {
                &&& final(self).files().dom() == old(self).files().dom().insert(path@)
                &&& final(self).files()[path@].data == buf@
                &&& forall|p: Seq<char>|
                    p != path@ && old(self).files().contains_key(p) ==> final(self).files()[p]
                        == #[trigger] old(self).files()[p]
            },
    ;

    /// Resolves `path` to an absolute path.
    fn canonicalize(&self, path: &str) -> (r: Result<String>)
        ensures
            r matches Err(e) ==> !(e is Consistency),
            r matches Ok(p) ==> self.canonical(path@) == Some(p@),
            self.dependable() ==> (r is Ok <==> self.canonical(path@) is Some),
    ;

    /// Size, modification time, access time, creation time and inode of the
    /// regular file at `path`.
    fn metadata(&self, path: &str) -> (r: Result<(u64, Timestamp, Timestamp, Timestamp, u64)>)
        ensures
            r matches Err(e) ==> !(e is Consistency),
            r matches Ok(m) ==> {
                &&& self.files().contains_key(path@)
                &&& m.0 == self.files()[path@].data.len()
                &&& m.1 == self.files()[path@].modified
                &&& m.2 == self.files()[path@].accessed
                &&& m.3 == self.files()[path@].created
                &&& m.4 == self.files()[path@].inode
            },
            self.dependable() ==> (r is Ok <==> self.files().contains_key(path@)),
    ;

    /// Gives the file at `src` the further name `dst`, which must be free.
    fn hard_link(&mut self, src: &str, dst: &str) -> (r: Result<()>)
        ensures
            r matches Err(e) ==> !(e is Consistency),
            final(self).read_only() == old(self).read_only(),
            old(self).read_only() ==> r is Err,
            r is Err ==> final(self).files() == old(self).files(),
            r is Ok ==> {
                &&& old(self).files().contains_key(src@)
                &&& !old(self).files().contains_key(dst@)
                &&& final(self).files() == old(self).files().insert(dst@, old(self).files()[src@])
            },
            final(self).dependable() == old(self).dependable(),
            old(self).dependable() && !old(self).read_only() ==> (r is Ok <==> old(
                self,
            ).files().contains_key(src@) && !old(self).files().contains_key(dst@)),
    ;

    /// Takes the name `path` away.
    fn remove_file(&mut self, path: &str) -> (r: Result<()>)
        ensures
            r matches Err(e) ==> !(e is Consistency),
            final(self).read_only() == old(self).read_only(),
            old(self).read_only() ==> r is Err,
            r is Err ==> final(self).files() == old(self).files(),
            r is Ok ==> {
                &&& old(self).files().contains_key(path@)
                &&& final(self).files() == old(self).files().remove(path@)
            },
            final(self).dependable() == old(self).dependable(),
            old(self).dependable() && !old(self).read_only() ==> (r is Ok <==> old(
                self,
            ).files().contains_key(path@)),
    ;

    /// Gives the file at `from` the name `to` instead; a file that `to`
    /// named before is lost.
    fn rename(&mut self, from: &str, to: &str) -> (r: Result<()>)
        ensures
            r matches Err(e) ==> !(e is Consistency),
            final(self).read_only() == old(self).read_only(),
            old(self).read_only() ==> r is Err,
            r is Err ==> final(self).files() == old(self).files(),
            r is Ok ==> {
                &&& old(self).files().contains_key(from@)
                &&& final(self).files() == old(self).files().remove(from@).insert(
                    to@,
                    old(self).files()[from@],
                )
            },
            final(self).dependable() == old(self).dependable(),
            old(self).dependable() && !old(self).read_only() ==> (r is Ok <==> old(
                self,
            ).files().contains_key(from@)),
    ;
}

} // verus!
