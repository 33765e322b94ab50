//! One file as it was seen at one time.

use crate::error::Error;
use crate::error::Result;
use crate::fs::AbstractFs;
use crate::fs::FileNode;
use crate::fs::Timestamp;
use crate::paths::join;
use crate::paths::parent;
use crate::paths::strip_prefix;
use vstd::prelude::*;

verus! {

/// A snapshot of one regular file: where it is below the base path, its
/// size, times and inode, and the digest of its bytes where that is known.
#[derive(Debug, PartialEq, Eq, PartialOrd, Ord, Hash)]
pub struct FileEntry {
    pub relative_path: String,
    pub fast_hash: Option<u128>,
    pub stat_size: u64,
    pub stat_modified: Timestamp,
    pub stat_created: Timestamp,
    // where files of one size and digest are not linked yet, the inode tells them apart
    pub stat_inode: u64,
}

/// A file entry as a value of specifications.
pub struct FileEntryView {
    pub relative_path: Seq<char>,
    pub fast_hash: Option<u128>,
    pub stat_size: u64,
    pub stat_modified: Timestamp,
    pub stat_created: Timestamp,
    pub stat_inode: u64,
}

impl View for FileEntry {
    type V = FileEntryView;

    open spec fn view(&self) -> FileEntryView {
        FileEntryView {
            relative_path: self.relative_path@,
            fast_hash: self.fast_hash,
            stat_size: self.stat_size,
            stat_modified: self.stat_modified,
            stat_created: self.stat_created,
            stat_inode: self.stat_inode,
        }
    }
}

impl FileEntryView {
    /// The same entry with another digest, or none.
    pub open spec fn with_hash(self, hash: Option<u128>) -> FileEntryView {
        FileEntryView { fast_hash: hash, ..self }
    }

    /// Equal in everything but the digest.
    pub open spec fn eq_except_hash(self, other: FileEntryView) -> bool {
        self.with_hash(None) == other.with_hash(None)
    }
}

/// What the path `abs` is called below `base`: what is left when the base is
/// stripped, provided that has a parent.
pub open spec fn relative_path_of(abs: Seq<char>, base: Seq<char>) -> Option<Seq<char>> {
    match crate::paths::path_strip_prefix(abs, base) {
        Some(rel) => if crate::paths::path_parent(rel) is Some {
            Some(rel)
        } else {
            None
        },
        None => None,
    }
}

/// The entry for the file `node` found at `abs`, without a digest.
pub open spec fn observed(abs: Seq<char>, base: Seq<char>, node: FileNode) -> Option<
    FileEntryView,
> {
    match relative_path_of(abs, base) {
        Some(rel) => Some(
            FileEntryView {
                relative_path: rel,
                fast_hash: None,
                stat_size: node.data.len() as u64,
                stat_modified: node.modified,
                stat_created: node.created,
                stat_inode: node.inode,
            },
        ),
        None => None,
    }
}

/// The relative path of `abs` below `base_path`. A path outside the base is
/// refused as escaping; a path without a parent below the base is refused
/// too.
pub fn relative_to(abs: &str, base_path: &str) -> (r: Result<String>)
    ensures
        r matches Ok(rel) ==> relative_path_of(abs@, base_path@) == Some(rel@),
        r is Err ==> relative_path_of(abs@, base_path@) is None,
        r matches Err(e) ==> if crate::paths::path_strip_prefix(abs@, base_path@) is None {
            e is PathEscape
        } else {
            e is Generic
        },
{
    match strip_prefix(abs, base_path) {
        Some(rel) => match parent(rel.as_str()) {
            Some(_) => Ok(rel),
            None => Err(Error::Generic("error finding relative folder".to_owned())),
        },
        None => Err(Error::PathEscape(abs.to_owned())),
    }
}

impl Clone for FileEntry {
    fn clone(&self) -> (r: Self)
        ensures
            r@ == self@,
    {
        FileEntry {
            relative_path: self.relative_path.clone(),
            fast_hash: self.fast_hash,
            stat_size: self.stat_size,
            stat_modified: self.stat_modified,
            stat_created: self.stat_created,
            stat_inode: self.stat_inode,
        }
    }
}

impl FileEntry {
    /// Looks at the file that `path` resolves to and makes its entry, with
    /// no digest. On a filesystem where the table alone decides, the entry
    /// is had exactly where the path resolves to a file that is there and
    /// lies below the base path.
    pub fn new<F: AbstractFs>(fs: &F, base_path: &str, path: &str) -> (r: Result<Self>)
        ensures
            r matches Err(e) ==> !(e is Consistency),
            r matches Ok(e) ==> {
                &&& fs.canonical(path@) matches Some(abs)
                &&& fs.files().contains_key(abs)
                &&& observed(abs, base_path@, fs.files()[abs]) == Some(e@)
            },
            fs.dependable() ==> (r is Ok <==> crate::admission::tentative(
                fs.files(),
                base_path@,
                fs.canonical(path@),
            ) is Some),
            fs.dependable() && fs.canonical(path@) is Some && relative_path_of(
                fs.canonical(path@)->0,
                base_path@,
            ) is None ==> r is Err && if crate::paths::path_strip_prefix(
                fs.canonical(path@)->0,
                base_path@,
            ) is None {
                r->Err_0 is PathEscape
            } else {
                r->Err_0 is Generic
            },
    {
        let absolute_path = match fs.canonicalize(path) {
            Ok(p) => p,
            Err(e) => {
                return Err(e);
            },
        };
        let relative_path = match relative_to(absolute_path.as_str(), base_path) {
            Ok(p) => p,
            Err(e) => {
                return Err(e);
            },
        };
        let (size, modified, _accessed, created, inode) = match fs.metadata(
            absolute_path.as_str(),
        ) {
            Ok(m) => m,
            Err(e) => {
                return Err(e);
            },
        };
        Ok(
            FileEntry {
                relative_path,
                fast_hash: None,
                stat_size: size,
                stat_modified: modified,
                stat_created: created,
                stat_inode: inode,
            },
        )
    }

    /// Looks at the file of this entry again. The digest is kept where
    /// nothing else has changed. On a filesystem where the table alone
    /// decides, this fails only where the file is no longer there.
    pub fn reload_from_disk<F: AbstractFs>(&self, fs: &F, base_path: &str) -> (r: Result<Self>)
        ensures
            r matches Err(e) ==> !(e is Consistency),
            r matches Ok(e) ==> {
                &&& fs.canonical(crate::paths::path_join(base_path@, self@.relative_path))
                    matches Some(abs)
                &&& fs.files().contains_key(abs)
                &&& observed(abs, base_path@, fs.files()[abs]) matches Some(seen)
                &&& e@ == if self@.eq_except_hash(seen) {
                    seen.with_hash(self@.fast_hash)
                } else {
                    seen
                }
            },
            fs.dependable() ==> (r is Ok <==> crate::admission::tentative(
                fs.files(),
                base_path@,
                fs.canonical(crate::paths::path_join(base_path@, self@.relative_path)),
            ) is Some),
            fs.dependable() && fs.canonical(
                crate::paths::path_join(base_path@, self@.relative_path),
            ) is Some && relative_path_of(
                fs.canonical(crate::paths::path_join(base_path@, self@.relative_path))->0,
                base_path@,
            ) is None ==> r is Err && if crate::paths::path_strip_prefix(
                fs.canonical(crate::paths::path_join(base_path@, self@.relative_path))->0,
                base_path@,
            ) is None {
                r->Err_0 is PathEscape
            } else {
                r->Err_0 is Generic
            },
    {
        let absolute = self.absolute_path(base_path);
        let mut new_entry = match FileEntry::new(fs, base_path, absolute.as_str()) {
            Ok(e) => e,
            Err(e) => {
                return Err(e);
            },
        };
        if self.eq_except_hash(&new_entry) {
            new_entry.fast_hash = self.fast_hash;
        }
        Ok(new_entry)
    }

    /// Whether the file of this entry still looks as the entry says, the
    /// digest left aside. On a filesystem where the table alone decides,
    /// this fails only where the file is no longer there.
    pub fn agrees_with_disk<F: AbstractFs>(&self, fs: &F, base_path: &str) -> (r: Result<bool>)
        ensures
            r matches Err(e) ==> !(e is Consistency),
            r matches Ok(b) ==> {
                &&& fs.canonical(crate::paths::path_join(base_path@, self@.relative_path))
                    matches Some(abs)
                &&& fs.files().contains_key(abs)
                &&& observed(abs, base_path@, fs.files()[abs]) matches Some(seen)
                &&& b == self@.eq_except_hash(seen)
            },
            fs.dependable() ==> (r is Ok <==> crate::admission::tentative(
                fs.files(),
                base_path@,
                fs.canonical(crate::paths::path_join(base_path@, self@.relative_path)),
            ) is Some),
            fs.dependable() && fs.canonical(
                crate::paths::path_join(base_path@, self@.relative_path),
            ) is Some && relative_path_of(
                fs.canonical(crate::paths::path_join(base_path@, self@.relative_path))->0,
                base_path@,
            ) is None ==> r is Err && if crate::paths::path_strip_prefix(
                fs.canonical(crate::paths::path_join(base_path@, self@.relative_path))->0,
                base_path@,
            ) is None {
                r->Err_0 is PathEscape
            } else {
                r->Err_0 is Generic
            },
    {
        let absolute = self.absolute_path(base_path);
        let new_entry = match FileEntry::new(fs, base_path, absolute.as_str()) {
            Ok(e) => e,
            Err(e) => {
                return Err(e);
            },
        };
        Ok(self.eq_except_hash(&new_entry))
    }

    /// The path of the file, the base path included.
    pub fn absolute_path(&self, base_path: &str) -> (r: String)
        ensures
            r@ == crate::paths::path_join(base_path@, self@.relative_path),
    {
        join(base_path, self.relative_path.as_str())
    }

    /// The directory of the file below the base path, if the path has one.
    pub fn relative_folder(&self) -> (r: Option<String>)
        ensures
            r matches Some(s) ==> crate::paths::path_parent(self@.relative_path) == Some(s@),
            r is None ==> crate::paths::path_parent(self@.relative_path) is None,
    {
        parent(self.relative_path.as_str())
    }

    /// Whether two entries agree in path, size, times and inode.
    pub fn eq_except_hash(&self, other: &Self) -> (r: bool)
        ensures
            r == self@.eq_except_hash(other@),
    {
        self.relative_path == other.relative_path && self.stat_size == other.stat_size
            && self.stat_modified == other.stat_modified && self.stat_created
            == other.stat_created && self.stat_inode == other.stat_inode
    }
}

} // verus!
