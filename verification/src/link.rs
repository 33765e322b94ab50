//! Replacing a file by a hard link to a file with the same bytes, without
//! ever leaving its bytes unreachable.

use crate::error::Error;
use crate::error::Result;
use crate::file_entry::FileEntry;
use crate::file_entry::FileEntryView;
use crate::files_index::FilesIndex;
use crate::fs::AbstractFs;
use crate::fs::FileNode;
use crate::paths::backup_path;
use crate::paths::join;
use crate::stream::compare_streams;
use crate::stream::digest_stream;
use vstd::prelude::*;

verus! {

/// The table after the file at `from` was given the name `to` instead.
pub open spec fn renamed(files: Map<Seq<char>, FileNode>, from: Seq<char>, to: Seq<char>) -> Map<
    Seq<char>,
    FileNode,
> {
    files.remove(from).insert(to, files[from])
}

/// The table while the new file waits under its backup name.
pub open spec fn set_aside(files: Map<Seq<char>, FileNode>, new: Seq<char>, backup: Seq<char>) -> Map<
    Seq<char>,
    FileNode,
> {
    renamed(files, new, backup)
}

/// The table when the new name is a link to the existing file and the
/// backup is still there.
pub open spec fn linked_with_backup(
    files: Map<Seq<char>, FileNode>,
    new: Seq<char>,
    existing: Seq<char>,
    backup: Seq<char>,
) -> Map<Seq<char>, FileNode> {
    let aside = set_aside(files, new, backup);
    aside.insert(new, aside[existing])
}

/// The table after a link that went through: the new name is a link to the
/// existing file, the backup is gone.
pub open spec fn linked(
    files: Map<Seq<char>, FileNode>,
    new: Seq<char>,
    existing: Seq<char>,
    backup: Seq<char>,
) -> Map<Seq<char>, FileNode> {
    linked_with_backup(files, new, existing, backup).remove(backup)
}

/// The tables that a link can leave behind when it fails: the table as it
/// was; the new file under its backup name, with or without the link; or
/// either of these after the backup was given its name back.
pub open spec fn abandoned(
    files: Map<Seq<char>, FileNode>,
    new: Seq<char>,
    existing: Seq<char>,
    backup: Seq<char>,
    left: Map<Seq<char>, FileNode>,
) -> bool {
    let aside = set_aside(files, new, backup);
    let both = linked_with_backup(files, new, existing, backup);
    ||| left == files
    ||| files.contains_key(new) && left == aside
    ||| files.contains_key(new) && left == renamed(aside, backup, new)
    ||| files.contains_key(new) && aside.contains_key(existing) && !aside.contains_key(new)
        && left == both
    ||| files.contains_key(new) && aside.contains_key(existing) && !aside.contains_key(new)
        && left == renamed(both, backup, new)
}

/// The entry of the path of `new` as the file `node` shows it, with the
/// digest of `new`.
pub open spec fn restat(new: FileEntryView, node: FileNode) -> FileEntryView {
    FileEntryView {
        relative_path: new.relative_path,
        fast_hash: new.fast_hash,
        stat_size: node.data.len() as u64,
        stat_modified: node.modified,
        stat_created: node.created,
        stat_inode: node.inode,
    }
}

/// What linking `new` to `existing` makes of the entries `e` and the table
/// `files`. On a read-only filesystem nothing is touched and `new` is filed
/// as it is. Otherwise a success leaves the new name as a link to the
/// existing file, filed as the filesystem then shows it; a failure leaves
/// the entries alone and the table in one of the states of `abandoned`.
pub open spec fn link_outcome(
    e: Seq<FileEntryView>,
    files: Map<Seq<char>, FileNode>,
    base: Seq<char>,
    read_only: bool,
    existing: FileEntryView,
    new: FileEntryView,
    e2: Seq<FileEntryView>,
    files2: Map<Seq<char>, FileNode>,
    r: Result<FileEntry>,
) -> bool {
    let new_abs = crate::paths::path_join(base, new.relative_path);
    let existing_abs = crate::paths::path_join(base, existing.relative_path);
    if read_only {
        &&& r matches Ok(x)
        &&& x@ == new
        &&& files2 == files
        &&& e2 == crate::files_index::upsert(e, new)
    } else {
        match crate::paths::backup_of(new.relative_path) {
            None => r is Err && e2 == e && files2 == files,
            Some(b) => {
                let backup_abs = crate::paths::path_join(base, b);
                match r {
                    Ok(x) => {
                        &&& files.contains_key(new_abs)
                        &&& set_aside(files, new_abs, backup_abs).contains_key(existing_abs)
                        &&& !set_aside(files, new_abs, backup_abs).contains_key(new_abs)
                        &&& files2 == linked(files, new_abs, existing_abs, backup_abs)
                        &&& files2.contains_key(new_abs)
                        &&& x@ == restat(new, files2[new_abs])
                        &&& x@.stat_size == existing.stat_size
                        &&& x@.stat_inode == existing.stat_inode
                        &&& e2 == crate::files_index::upsert(e, x@)
                    },
                    Err(_) => {
                        &&& e2 == e
                        &&& abandoned(files, new_abs, existing_abs, backup_abs, files2)
                    },
                }
            },
        }
    }
}

/// Whether a link of `new` to `existing` goes through on a filesystem
/// where the table alone decides: the new file has a name for its backup
/// and is there, the existing file is there once the new one is set aside,
/// and it has the size and the inode that its entry shows.
pub open spec fn link_goes_through(
    files: Map<Seq<char>, FileNode>,
    base: Seq<char>,
    existing: FileEntryView,
    new: FileEntryView,
) -> bool {
    let new_abs = crate::paths::path_join(base, new.relative_path);
    let existing_abs = crate::paths::path_join(base, existing.relative_path);
    match crate::paths::backup_of(new.relative_path) {
        None => false,
        Some(b) => {
            let aside = set_aside(files, new_abs, crate::paths::path_join(base, b));
            &&& files.contains_key(new_abs)
            &&& aside.contains_key(existing_abs)
            &&& !aside.contains_key(new_abs)
            &&& aside[existing_abs].data.len() == existing.stat_size
            &&& aside[existing_abs].inode == existing.stat_inode
        },
    }
}

/// Whether the link of `new` to `existing` can be made, whatever it then
/// shows: the new file has a name for its backup and is there, and the
/// existing file is there once the new one is set aside.
pub open spec fn link_made(
    files: Map<Seq<char>, FileNode>,
    base: Seq<char>,
    existing: FileEntryView,
    new: FileEntryView,
) -> bool {
    let new_abs = crate::paths::path_join(base, new.relative_path);
    let existing_abs = crate::paths::path_join(base, existing.relative_path);
    match crate::paths::backup_of(new.relative_path) {
        None => false,
        Some(b) => {
            let aside = set_aside(files, new_abs, crate::paths::path_join(base, b));
            &&& files.contains_key(new_abs)
            &&& aside.contains_key(existing_abs)
            &&& !aside.contains_key(new_abs)
        },
    }
}

/// The table that a failed link leaves on a filesystem where the table
/// alone decides. A link that cannot be begun or made leaves the new file
/// under its name, as it was or after the backup got its name back. A link
/// that does not show the existing file is left in place beside the backup.
pub open spec fn failed_link(
    files: Map<Seq<char>, FileNode>,
    base: Seq<char>,
    existing: FileEntryView,
    new: FileEntryView,
) -> Map<Seq<char>, FileNode> {
    let new_abs = crate::paths::path_join(base, new.relative_path);
    let existing_abs = crate::paths::path_join(base, existing.relative_path);
    match crate::paths::backup_of(new.relative_path) {
        None => files,
        Some(b) => {
            let backup_abs = crate::paths::path_join(base, b);
            let aside = set_aside(files, new_abs, backup_abs);
            if !files.contains_key(new_abs) {
                files
            } else if !aside.contains_key(existing_abs) || aside.contains_key(new_abs) {
                renamed(aside, backup_abs, new_abs)
            } else {
                linked_with_backup(files, new_abs, existing_abs, backup_abs)
            }
        },
    }
}

/// The digest of the file at `path`. On a filesystem where the table alone
/// decides, it is had exactly of a file that is there and short enough for
/// the hash function.
pub fn hash_file<Fs: AbstractFs>(fs: &Fs, path: &str) -> (r: Result<u128>)
    ensures
        r matches Err(e) ==> !(e is Consistency),
        r matches Ok(d) ==> fs.files().contains_key(path@) && d
            == crate::digest::murmur3_x64_128(fs.files()[path@].data),
        fs.dependable() ==> (r is Ok <==> fs.files().contains_key(path@) && crate::stream::fits(
            fs.files()[path@].data,
        )),
{
    let mut file = match fs.open(path) {
        Ok(f) => f,
        Err(e) => {
            return Err(e);
        },
    };
    digest_stream(&mut file)
}

impl FilesIndex {
    /// Compares the files of two entries byte by byte and digests both.
    /// With `short_circuit` the comparison stops at the first difference
    /// and then reports no digests. On a filesystem where the table alone
    /// decides, the comparison fails where a file is missing or too long to
    /// be digested, and nowhere else.
    pub fn compare_files<Fs: AbstractFs>(
        &self,
        fs: &Fs,
        entry1: &FileEntry,
        entry2: &FileEntry,
        short_circuit: bool,
    ) -> (r: Result<(bool, Option<(u128, u128)>)>)
        ensures
            r matches Err(e) ==> !(e is Consistency),
            r matches Ok(c) ==> {
                let first = crate::paths::path_join(self.base(), entry1@.relative_path);
                let second = crate::paths::path_join(self.base(), entry2@.relative_path);
                &&& fs.files().contains_key(first)
                &&& fs.files().contains_key(second)
                &&& c == crate::stream::comparison(
                    fs.files()[first].data,
                    fs.files()[second].data,
                    short_circuit,
                )
            },
            fs.dependable() ==> {
                let first = crate::paths::path_join(self.base(), entry1@.relative_path);
                let second = crate::paths::path_join(self.base(), entry2@.relative_path);
                let a = fs.files()[first].data;
                let b = fs.files()[second].data;
                if !fs.files().contains_key(first) || !fs.files().contains_key(second) {
                    r is Err
                } else if short_circuit && a != b {
                    !crate::stream::agree_beyond_limit(a, b) ==> r is Ok
                } else {
                    r is Ok <==> crate::stream::fits(a) && crate::stream::fits(b)
                }
            },
    {
        let path1 = entry1.absolute_path(self.base_dir());
        let path2 = entry2.absolute_path(self.base_dir());
        let mut file1 = match fs.open(path1.as_str()) {
            Ok(f) => f,
            Err(e) => {
                return Err(e);
            },
        };
        let mut file2 = match fs.open(path2.as_str()) {
            Ok(f) => f,
            Err(e) => {
                return Err(e);
            },
        };
        compare_streams(&mut file1, &mut file2, short_circuit)
    }

    /// Makes the file of `new_entry` a hard link to the file of
    /// `existing_entry` and files the linked file under the path of
    /// `new_entry`. The new file is first set aside under its backup name,
    /// then the link is made and looked at, and only then the backup is
    /// removed. Where a step fails the backup is given its name back; where
    /// the link does not show the existing file the backup is left in
    /// place. On a filesystem where the table alone decides, the link goes
    /// through exactly as `link_goes_through` says, and a failed link
    /// leaves the table of `failed_link`.
    #[verifier::rlimit(50)]
    pub fn hard_link_and_insert<Fs: AbstractFs>(
        &mut self,
        fs: &mut Fs,
        existing_entry: &FileEntry,
        new_entry: &FileEntry,
    ) -> (r: Result<FileEntry>)
        requires
            old(self).wf(),
            new_entry.stat_size == existing_entry.stat_size,
            new_entry.fast_hash is Some,
            new_entry.fast_hash == existing_entry.fast_hash,
            new_entry.stat_inode != existing_entry.stat_inode,
        ensures
            final(self).wf(),
            final(self).base() == old(self).base(),
            final(fs).read_only() == old(fs).read_only(),
            link_outcome(
                old(self)@,
                old(fs).files(),
                old(self).base(),
                old(fs).read_only(),
                existing_entry@,
                new_entry@,
                final(self)@,
                final(fs).files(),
                r,
            ),
            final(fs).dependable() == old(fs).dependable(),
            old(fs).dependable() && !old(fs).read_only() ==> (r is Ok <==> link_goes_through(
                old(fs).files(),
                old(self).base(),
                existing_entry@,
                new_entry@,
            )),
            old(fs).dependable() && !old(fs).read_only() && r is Err ==> final(fs).files()
                == failed_link(old(fs).files(), old(self).base(), existing_entry@, new_entry@),
            old(fs).dependable() && !old(fs).read_only() && r is Err && link_made(
                old(fs).files(),
                old(self).base(),
                existing_entry@,
                new_entry@,
            ) ==> r->Err_0 is Consistency,
            old(fs).dependable() && r is Err && !(r->Err_0 is Consistency)
                && crate::laws::backup_free(old(fs).files(), old(self).base(), new_entry@)
                ==> final(fs).files() == old(fs).files(),
            r matches Err(Error::Consistency { existing, new }) ==> {
                &&& existing@ == existing_entry@.relative_path
                &&& new@ == new_entry@.relative_path
                &&& !old(fs).read_only()
                &&& link_made(old(fs).files(), old(self).base(), existing_entry@, new_entry@)
                &&& final(fs).files() == failed_link(
                    old(fs).files(),
                    old(self).base(),
                    existing_entry@,
                    new_entry@,
                )
            },
    {
        let ghost files = fs.files();
        proof {
            self.lemma_path_bijection();
            if crate::laws::backup_free(files, self.base(), new_entry@) && !link_made(
                files,
                self.base(),
                existing_entry@,
                new_entry@,
            ) {
                crate::laws::lemma_failed_link_restores(
                    files,
                    self.base(),
                    existing_entry@,
                    new_entry@,
                );
            }
        }
        if fs.is_read_only() {
            let filed = self.update_file_entry(new_entry);
            proof {
                crate::files_index::lemma_upsert_filed(old(self)@, new_entry@);
            }
            return Ok(filed);
        }
        let backup_rel = match backup_path(new_entry.relative_path.as_str()) {
            Some(p) => p,
            None => {
                return Err(Error::Generic("the path has no file name".to_owned()));
            },
        };
        let backup_abs = join(self.base_dir(), backup_rel.as_str());
        let new_abs = new_entry.absolute_path(self.base_dir());
        let existing_abs = existing_entry.absolute_path(self.base_dir());

        match fs.rename(new_abs.as_str(), backup_abs.as_str()) {
            Ok(()) => {},
            Err(e) => {
                return Err(e);
            },
        }
        let ghost aside = fs.files();
        match fs.hard_link(existing_abs.as_str(), new_abs.as_str()) {
            Ok(()) => {},
            Err(e) => {
                let _ = fs.rename(backup_abs.as_str(), new_abs.as_str());
                return Err(e);
            },
        }
        let ghost both = fs.files();
        let (size, modified, _accessed, created, inode) = match fs.metadata(new_abs.as_str()) {
            Ok(m) => m,
            Err(e) => {
                let _ = fs.rename(backup_abs.as_str(), new_abs.as_str());
                return Err(e);
            },
        };
        if size != existing_entry.stat_size || inode != existing_entry.stat_inode {
            return Err(
                Error::Consistency {
                    existing: existing_entry.relative_path.clone(),
                    new: new_entry.relative_path.clone(),
                },
            );
        }
        match fs.remove_file(backup_abs.as_str()) {
            Ok(()) => {},
            Err(e) => {
                let _ = fs.rename(backup_abs.as_str(), new_abs.as_str());
                return Err(e);
            },
        }
        let checked_new_entry = FileEntry {
            relative_path: new_entry.relative_path.clone(),
            fast_hash: new_entry.fast_hash,
            stat_size: size,
            stat_modified: modified,
            stat_created: created,
            stat_inode: inode,
        };
        let filed = self.update_file_entry(&checked_new_entry);
        proof {
            crate::files_index::lemma_upsert_filed(old(self)@, checked_new_entry@);
        }
        Ok(filed)
    }
}

} // verus!
