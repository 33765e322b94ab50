//! Admitting a file to the index: telling by the cheapest evidence whether
//! it is already linked, unique, or a duplicate that has to be linked.

use crate::error::Error;
use crate::error::Result;
use crate::file_entry::FileEntry;
use crate::file_entry::FileEntryView;
use crate::files_index::FilesIndex;
use crate::fs::AbstractFs;
use crate::fs::FileNode;
use crate::link::hash_file;
use vstd::pervasive::unreached;
use vstd::prelude::*;

verus! {

/// The slot `i` holds a candidate for a duplicate of `f`: an entry of the
/// same size under another path.
pub open spec fn is_candidate(e: Seq<FileEntryView>, f: FileEntryView, i: int) -> bool {
    0 <= i < e.len() && e[i].stat_size == f.stat_size && e[i].relative_path != f.relative_path
}

/// The slot `c` holds the first candidate for `f`: the one in the lowest
/// slot.
pub open spec fn is_first_candidate(e: Seq<FileEntryView>, f: FileEntryView, c: int) -> bool {
    is_candidate(e, f, c) && forall|i: int| 0 <= i < c ==> !is_candidate(e, f, i)
}

/// All candidates for `f` share one inode.
pub open spec fn one_candidate_inode(e: Seq<FileEntryView>, f: FileEntryView) -> bool {
    forall|i: int, j: int|
        #[trigger] is_candidate(e, f, i) && #[trigger] is_candidate(e, f, j) ==> e[i].stat_inode
            == e[j].stat_inode
}

/// The entries with the digest `hash` given to every entry of `inode`.
pub open spec fn attach(e: Seq<FileEntryView>, inode: u64, hash: u128) -> Seq<FileEntryView> {
    Seq::new(
        e.len(),
        |i: int|
            if e[i].stat_inode == inode {
                e[i].with_hash(Some(hash))
            } else {
                e[i]
            },
    )
}

/// The bytes of the file of an entry.
pub open spec fn data_of(files: Map<Seq<char>, FileNode>, base: Seq<char>, f: FileEntryView) -> Seq<
    u8,
> {
    files[crate::paths::path_join(base, f.relative_path)].data
}

/// The file of an entry is there.
pub open spec fn present(files: Map<Seq<char>, FileNode>, base: Seq<char>, f: FileEntryView) -> bool {
    files.contains_key(crate::paths::path_join(base, f.relative_path))
}

/// Admission where the inode of `f` is already indexed: `f` is filed with
/// the digest of an entry of that inode, and nothing is read or changed.
pub open spec fn known_outcome(
    e: Seq<FileEntryView>,
    files: Map<Seq<char>, FileNode>,
    f: FileEntryView,
    e2: Seq<FileEntryView>,
    files2: Map<Seq<char>, FileNode>,
    r: Result<FileEntry>,
) -> bool {
    &&& r matches Ok(x)
    &&& files2 == files
    &&& exists|j: int|
        0 <= j < e.len() && #[trigger] e[j].stat_inode == f.stat_inode && e2
            == crate::files_index::upsert(e, f.with_hash(e[j].fast_hash))
    &&& crate::files_index::entry_of(e2, f.relative_path) == Some(x@)
}

/// Admission where all candidates share one inode and the candidate in the
/// slot `c` is compared with the new file. Both files are digested in
/// full, and every entry of the candidate's inode gets the candidate's
/// digest. Equal bytes: the new file is linked to the candidate. Other
/// bytes: the new file is filed with its digest as a file of its own. A
/// failed read leaves everything as it was.
pub open spec fn single_outcome(
    e: Seq<FileEntryView>,
    files: Map<Seq<char>, FileNode>,
    base: Seq<char>,
    read_only: bool,
    f: FileEntryView,
    c: int,
    e2: Seq<FileEntryView>,
    files2: Map<Seq<char>, FileNode>,
    r: Result<FileEntry>,
) -> bool {
    ||| r is Err && e2 == e && files2 == files
    ||| {
        let candidate_digest = crate::digest::murmur3_x64_128(data_of(files, base, e[c]));
        let new_digest = crate::digest::murmur3_x64_128(data_of(files, base, f));
        let hashed = attach(e, e[c].stat_inode, candidate_digest);
        &&& present(files, base, e[c])
        &&& present(files, base, f)
        &&& if data_of(files, base, e[c]) == data_of(files, base, f) {
            crate::link::link_outcome(
                hashed,
                files,
                base,
                read_only,
                e[c].with_hash(Some(candidate_digest)),
                f.with_hash(Some(new_digest)),
                e2,
                files2,
                r,
            )
        } else {
            &&& r matches Ok(x)
            &&& x@ == f.with_hash(Some(new_digest))
            &&& files2 == files
            &&& e2 == crate::files_index::upsert(hashed, x@)
        }
    }
}

/// Admission where the candidates have more than one inode. The new file
/// is digested, then compared, in no particular order, with the candidates
/// that carry its digest. It is linked to the first of them that holds the
/// same bytes; where there is none it is filed with its digest as a file of
/// its own. A failed read leaves everything as it was.
pub open spec fn many_outcome(
    e: Seq<FileEntryView>,
    files: Map<Seq<char>, FileNode>,
    base: Seq<char>,
    read_only: bool,
    f: FileEntryView,
    e2: Seq<FileEntryView>,
    files2: Map<Seq<char>, FileNode>,
    r: Result<FileEntry>,
) -> bool {
    ||| r is Err && e2 == e && files2 == files
    ||| {
        let new_digest = crate::digest::murmur3_x64_128(data_of(files, base, f));
        let hashed_new = f.with_hash(Some(new_digest));
        &&& present(files, base, f)
        &&& {
            ||| exists|c: int|
                {
                    &&& #[trigger] is_candidate(e, f, c)
                    &&& present(files, base, e[c])
                    &&& data_of(files, base, e[c]) == data_of(files, base, f)
                    &&& e[c].fast_hash == Some(new_digest)
                    &&& crate::link::link_outcome(
                        e,
                        files,
                        base,
                        read_only,
                        e[c],
                        hashed_new,
                        e2,
                        files2,
                        r,
                    )
                }
            ||| {
                &&& r matches Ok(x)
                &&& x@ == hashed_new
                &&& files2 == files
                &&& e2 == crate::files_index::upsert(e, hashed_new)
                &&& forall|c: int| #[trigger]
                    is_candidate(e, f, c) && e[c].fast_hash == Some(new_digest) ==> present(
                        files,
                        base,
                        e[c],
                    ) && data_of(files, base, e[c]) != data_of(files, base, f)
            }
        }
    }
}

/// Whether admitting `f` by comparing it with the candidate in the slot `c`
/// goes through on a filesystem where the table alone decides: both files
/// are there and short enough to be digested, and where they hold the same
/// bytes the link goes through, or the filesystem is read-only and no link
/// is made.
pub open spec fn single_goes_through(
    e: Seq<FileEntryView>,
    files: Map<Seq<char>, FileNode>,
    base: Seq<char>,
    read_only: bool,
    f: FileEntryView,
    c: int,
) -> bool {
    &&& present(files, base, e[c])
    &&& present(files, base, f)
    &&& crate::stream::fits(data_of(files, base, e[c]))
    &&& crate::stream::fits(data_of(files, base, f))
    &&& data_of(files, base, e[c]) == data_of(files, base, f) ==> read_only
        || crate::link::link_goes_through(files, base, e[c], f)
}

/// Whether admitting `f` among candidates of several inodes goes through,
/// whatever the order of the candidates, on a filesystem where the table
/// alone decides: the new file is there and short enough to be digested,
/// every candidate that carries its digest is there, and to each of them
/// that holds the same bytes the link goes through, unless the filesystem
/// is read-only and no link is made.
pub open spec fn many_go_through(
    e: Seq<FileEntryView>,
    files: Map<Seq<char>, FileNode>,
    base: Seq<char>,
    read_only: bool,
    f: FileEntryView,
) -> bool {
    &&& present(files, base, f)
    &&& crate::stream::fits(data_of(files, base, f))
    &&& forall|c: int| #[trigger]
        is_candidate(e, f, c) && e[c].fast_hash == Some(
            crate::digest::murmur3_x64_128(data_of(files, base, f)),
        ) ==> present(files, base, e[c]) && (data_of(files, base, e[c]) == data_of(files, base, f)
            ==> read_only || crate::link::link_goes_through(files, base, e[c], f))
}

/// The order in which candidates are looked at plays no part in admitting
/// `f`: its inode is indexed, or it has no candidate, or all its candidates
/// share one inode.
pub open spec fn settled(e: Seq<FileEntryView>, f: FileEntryView) -> bool {
    ||| crate::files_index::inodes_of(e).contains(f.stat_inode)
    ||| forall|i: int| !is_candidate(e, f, i)
    ||| one_candidate_inode(e, f)
}

/// Whether admitting `f` goes through on a filesystem where the table alone
/// decides. A file of an indexed inode and a file without a candidate are
/// filed without more ado; else see `single_goes_through` and
/// `many_go_through`.
pub open spec fn admission_goes_through(
    e: Seq<FileEntryView>,
    files: Map<Seq<char>, FileNode>,
    base: Seq<char>,
    read_only: bool,
    f: FileEntryView,
) -> bool {
    if crate::files_index::inodes_of(e).contains(f.stat_inode) {
        true
    } else if forall|i: int| !is_candidate(e, f, i) {
        true
    } else if one_candidate_inode(e, f) {
        forall|c: int| #[trigger]
            is_first_candidate(e, f, c) ==> single_goes_through(e, files, base, read_only, f, c)
    } else {
        many_go_through(e, files, base, read_only, f)
    }
}

/// What admitting `f` makes of the entries `e` and the table `files`.
/// An indexed inode: the file is a further name of a file already
/// indexed. No candidate: the file is unique by its size. Candidates of
/// one inode: the file is compared with the first of them, see
/// `single_outcome`. Candidates of several inodes: see `many_outcome`.
pub open spec fn admit_outcome(
    e: Seq<FileEntryView>,
    files: Map<Seq<char>, FileNode>,
    base: Seq<char>,
    read_only: bool,
    f: FileEntryView,
    e2: Seq<FileEntryView>,
    files2: Map<Seq<char>, FileNode>,
    r: Result<FileEntry>,
) -> bool {
    if crate::files_index::inodes_of(e).contains(f.stat_inode) {
        known_outcome(e, files, f, e2, files2, r)
    } else if forall|i: int| !is_candidate(e, f, i) {
        &&& r matches Ok(x)
        &&& x@ == f
        &&& files2 == files
        &&& e2 == crate::files_index::upsert(e, f)
    } else if one_candidate_inode(e, f) {
        exists|c: int| #[trigger]
            is_first_candidate(e, f, c) && single_outcome(
                e,
                files,
                base,
                read_only,
                f,
                c,
                e2,
                files2,
                r,
            )
    } else {
        many_outcome(e, files, base, read_only, f, e2, files2, r)
    }
}

/// The entry that describes the file to which a path resolves, where the
/// path resolves to `canonical` and a file is there that lies below the
/// base.
pub open spec fn tentative(
    files: Map<Seq<char>, FileNode>,
    base: Seq<char>,
    canonical: Option<Seq<char>>,
) -> Option<FileEntryView> {
    match canonical {
        Some(abs) => if files.contains_key(abs) {
            crate::file_entry::observed(abs, base, files[abs])
        } else {
            None
        },
        None => None,
    }
}

/// What admitting the file at a path makes of the entries and the table,
/// where the path resolves to `canonical`. A file that cannot be looked at
/// changes nothing. Else the file is filed as `admit_outcome` says of the
/// entry that describes it.
pub open spec fn add_outcome(
    e: Seq<FileEntryView>,
    files: Map<Seq<char>, FileNode>,
    base: Seq<char>,
    read_only: bool,
    canonical: Option<Seq<char>>,
    e2: Seq<FileEntryView>,
    files2: Map<Seq<char>, FileNode>,
    r: Result<FileEntry>,
) -> bool {
    ||| r is Err && e2 == e && files2 == files
    ||| {
        &&& tentative(files, base, canonical) matches Some(f)
        &&& admit_outcome(e, files, base, read_only, f, e2, files2, r)
    }
}

impl FilesIndex {
    /// The slots of the candidates for a duplicate of `f`.
    fn candidates(&self, f: &FileEntry) -> (r: Vec<usize>)
        requires
            self.wf(),
        ensures
            forall|t: int| 0 <= t < r@.len() ==> is_candidate(self@, f@, #[trigger] r@[t] as int),
            forall|i: int| is_candidate(self@, f@, i) ==> r@.contains(i as usize),
    {
        let own = self.slot_of_path(f.relative_path.as_str());
        let bucket = self.slots_by_size(f.stat_size);
        let ghost e = self@;
        let count = self.len();
        proof {
            self.lemma_path_bijection();
            assert forall|t: int| 0 <= t < bucket@.len() implies (#[trigger] bucket@[t])
                < e.len() && e[bucket@[t] as int].stat_size == f.stat_size by {
                assert(bucket@.contains(bucket@[t]));
                assert(crate::files_index::slots_of_size(e, -1, f.stat_size).contains(bucket@[t]));
            }
        }
        let mut out: Vec<usize> = Vec::new();
        let mut t: usize = 0;
        while t < bucket.len()
            invariant
                t <= bucket.len(),
                e == self@,
                forall|u: int|
                    0 <= u < bucket@.len() ==> (#[trigger] bucket@[u]) < e.len()
                        && e[bucket@[u] as int].stat_size == f.stat_size,
                forall|u: int| 0 <= u < out@.len() ==> is_candidate(e, f@, #[trigger] out@[u] as int),
                forall|u: int|
                    0 <= u < t && Some(#[trigger] bucket@[u]) != own ==> out@.contains(bucket@[u]),
                own matches Some(k) ==> k < e.len() && e[k as int].relative_path
                    == f@.relative_path,
                own is None ==> forall|i: int|
                    0 <= i < e.len() ==> #[trigger] e[i].relative_path != f@.relative_path,
                crate::files_index::paths_unique(e),
            decreases bucket.len() - t,
        {
            let slot = bucket[t];
            let is_own = match own {
                Some(k) => k == slot,
                None => false,
            };
            if !is_own {
                let ghost before = out@;
                out.push(slot);
                proof {
                    assert(out@[before.len() as int] == slot);
                    assert forall|u: int|
                        0 <= u < t && Some(#[trigger] bucket@[u]) != own implies out@.contains(
                        bucket@[u],
                    ) by {
                        let w = choose|w: int| 0 <= w < before.len() && before[w] == bucket@[u];
                        assert(out@[w] == bucket@[u]);
                    }
                }
            }
            t += 1;
        }
        proof {
            assert forall|i: int| is_candidate(e, f@, i) implies out@.contains(i as usize) by {
                assert(crate::files_index::slots_of_size(e, -1, f.stat_size).contains(i as usize));
                assert(bucket@.contains(i as usize));
                let u = choose|u: int| 0 <= u < bucket@.len() && bucket@[u] == i as usize;
                assert(Some(bucket@[u]) != own);
            }
        }
        out
    }

    /// The lowest of the slots.
    fn lowest(slots: &Vec<usize>) -> (r: usize)
        requires
            slots@.len() > 0,
        ensures
            slots@.contains(r),
            forall|t: int| 0 <= t < slots@.len() ==> r <= #[trigger] slots@[t],
    {
        let mut low = slots[0];
        let mut t: usize = 1;
        while t < slots.len()
            invariant
                1 <= t <= slots.len(),
                slots@.contains(low),
                forall|u: int| 0 <= u < t ==> low <= #[trigger] slots@[u],
            decreases slots.len() - t,
        {
            if slots[t] < low {
                low = slots[t];
            }
            t += 1;
        }
        low
    }

    /// Whether the entries in the slots share one inode.
    fn share_inode(&self, slots: &Vec<usize>) -> (r: bool)
        requires
            forall|t: int| 0 <= t < slots@.len() ==> (#[trigger] slots@[t]) < self@.len(),
        ensures
            r == forall|a: int, b: int|
                #![trigger slots@[a], slots@[b]]
                0 <= a < slots@.len() && 0 <= b < slots@.len() ==> self@[slots@[a] as int].stat_inode
                    == self@[slots@[b] as int].stat_inode,
    {
        if slots.len() == 0 {
            return true;
        }
        let first = self.entry(slots[0]).stat_inode;
        let mut t: usize = 1;
        while t < slots.len()
            invariant
                1 <= t <= slots.len(),
                first == self@[slots@[0] as int].stat_inode,
                forall|u: int| 0 <= u < slots@.len() ==> (#[trigger] slots@[u]) < self@.len(),
                forall|u: int| 0 <= u < t ==> self@[#[trigger] slots@[u] as int].stat_inode == first,
            decreases slots.len() - t,
        {
            if self.entry(slots[t]).stat_inode != first {
                proof {
                    assert(self@[slots@[0] as int].stat_inode != self@[slots@[t as int] as int].stat_inode);
                }
                return false;
            }
            t += 1;
        }
        true
    }

    /// Gives the digest `hash` to every entry of `inode`.
    fn attach_hash(&mut self, inode: u64, hash: u128)
        requires
            old(self).wf(),
        ensures
            final(self).wf(),
            final(self).base() == old(self).base(),
            final(self)@ == attach(old(self)@, inode, hash),
    {
        let slots = self.slots_by_inode(inode);
        let ghost e = self@;
        let count = self.len();
        proof {
            self.lemma_path_bijection();
            assert forall|t: int| 0 <= t < slots@.len() implies (#[trigger] slots@[t]) < e.len()
                && e[slots@[t] as int].stat_inode == inode by {
                assert(slots@.contains(slots@[t]));
                assert(crate::files_index::slots_of_inode(e, -1, inode).contains(slots@[t]));
            }
        }
        let mut t: usize = 0;
        while t < slots.len()
            invariant
                t <= slots.len(),
                self.wf(),
                self.base() == old(self).base(),
                e == old(self)@,
                self@.len() == e.len(),
                crate::files_index::paths_unique(self@),
                slots@.no_duplicates(),
                forall|u: int|
                    0 <= u < slots@.len() ==> (#[trigger] slots@[u]) < e.len()
                        && e[slots@[u] as int].stat_inode == inode,
                forall|i: int|
                    0 <= i < e.len() ==> #[trigger] self@[i] == if exists|u: int|
                        0 <= u < t && slots@[u] == i {
                        e[i].with_hash(Some(hash))
                    } else {
                        e[i]
                    },
            decreases slots.len() - t,
        {
            let slot = slots[t];
            let ghost cur = self@;
            proof {
                if exists|u: int| 0 <= u < t && slots@[u] == slot {
                    let u = choose|u: int| 0 <= u < t && slots@[u] == slot;
                    assert(slots@[u] == slots@[t as int]);
                }
                assert(cur[slot as int] == e[slot as int]);
            }
            if self.entry(slot).fast_hash != Some(hash) {
                let mut entry = self.entry(slot).clone();
                entry.fast_hash = Some(hash);
                proof {
                    crate::files_index::lemma_upsert_known(cur, slot as int, entry@);
                }
                let _ = self.update_file_entry(&entry);
            }
            proof {
                assert(self@[slot as int] == e[slot as int].with_hash(Some(hash)));
                assert forall|i: int| 0 <= i < e.len() implies #[trigger] self@[i] == if exists|
                    u: int,
                | 0 <= u < t + 1 && slots@[u] == i {
                    e[i].with_hash(Some(hash))
                } else {
                    e[i]
                } by {
                    if i == slot {
                        assert(slots@[t as int] == i);
                    } else {
                        if exists|u: int| 0 <= u < t + 1 && slots@[u] == i {
                            let u = choose|u: int| 0 <= u < t + 1 && slots@[u] == i;
                            assert(u < t);
                        }
                    }
                }
            }
            t += 1;
        }
        proof {
            assert forall|i: int| 0 <= i < e.len() implies self@[i] == attach(e, inode, hash)[i] by {
                if e[i].stat_inode == inode {
                    assert(crate::files_index::slots_of_inode(e, -1, inode).contains(i as usize));
                    assert(slots@.contains(i as usize));
                    let u = choose|u: int| 0 <= u < slots@.len() && slots@[u] == i as usize;
                    assert(0 <= u < t && slots@[u] == i);
                } else {
                    if exists|u: int| 0 <= u < t && slots@[u] == i {
                        let u = choose|u: int| 0 <= u < t && slots@[u] == i;
                        assert(e[slots@[u] as int].stat_inode == inode);
                    }
                }
            }
            assert(self@ =~= attach(e, inode, hash));
        }
    }

    /// Admits a file whose candidates share one inode, by comparing it with
    /// the candidate in the slot `c`. On a filesystem where the table alone
    /// decides, that goes through exactly as `single_goes_through` says.
    #[verifier::rlimit(50)]
    fn admit_single<Fs: AbstractFs>(&mut self, fs: &mut Fs, new_entry: FileEntry, c: usize) -> (r:
        Result<FileEntry>)
        requires
            old(self).wf(),
            is_candidate(old(self)@, new_entry@, c as int),
            !crate::files_index::inodes_of(old(self)@).contains(new_entry.stat_inode),
        ensures
            final(self).wf(),
            final(self).base() == old(self).base(),
            final(fs).read_only() == old(fs).read_only(),
            single_outcome(
                old(self)@,
                old(fs).files(),
                old(self).base(),
                old(fs).read_only(),
                new_entry@,
                c as int,
                final(self)@,
                final(fs).files(),
                r,
            ),
            final(fs).dependable() == old(fs).dependable(),
            r matches Err(Error::Consistency { existing, new }) ==> new@
                == new_entry@.relative_path && !old(fs).read_only() && exists|c: int| #[trigger]
                is_candidate(old(self)@, new_entry@, c) && existing@
                    == old(self)@[c].relative_path,
            old(fs).dependable() && r is Err && !(r->Err_0 is Consistency)
                && crate::laws::backup_free(old(fs).files(), old(self).base(), new_entry@)
                ==> final(fs).files() == old(fs).files(),
            old(fs).dependable() ==> (r is Ok <==> single_goes_through(
                old(self)@,
                old(fs).files(),
                old(self).base(),
                old(fs).read_only(),
                new_entry@,
                c as int,
            )),
    {
        let ghost e = self@;
        let ghost files = fs.files();
        let ghost base = self.base();
        let existing = self.entry(c).clone();
        let (equal, digests) = match self.compare_files(&*fs, &existing, &new_entry, false) {
            Ok(x) => x,
            Err(err) => {
                return Err(err);
            },
        };
        let (existing_hash, new_hash) = match digests {
            Some(d) => d,
            None => unreached(),
        };
        self.attach_hash(existing.stat_inode, existing_hash);
        let mut hashed_new = new_entry;
        hashed_new.fast_hash = Some(new_hash);
        if equal {
            let mut hashed_existing = existing;
            hashed_existing.fast_hash = Some(existing_hash);
            proof {
                assert(e[c as int].stat_inode != new_entry.stat_inode);
            }
            self.hard_link_and_insert(fs, &hashed_existing, &hashed_new)
        } else {
            proof {
                self.lemma_path_bijection();
                crate::files_index::lemma_upsert_filed(
                    attach(e, e[c as int].stat_inode, existing_hash),
                    hashed_new@,
                );
            }
            let filed = self.update_file_entry(&hashed_new);
            Ok(filed)
        }
    }

    /// Admits a file whose candidates have more than one inode: digests it
    /// and looks for a candidate with the same bytes and digest. On a
    /// filesystem where the table alone decides, that goes through wherever
    /// `many_go_through` holds, and only where the new file is there and
    /// short enough to be digested.
    #[verifier::rlimit(50)]
    fn admit_many<Fs: AbstractFs>(
        &mut self,
        fs: &mut Fs,
        new_entry: FileEntry,
        candidates: Vec<usize>,
    ) -> (r: Result<FileEntry>)
        requires
            old(self).wf(),
            !crate::files_index::inodes_of(old(self)@).contains(new_entry.stat_inode),
            forall|t: int|
                0 <= t < candidates@.len() ==> is_candidate(
                    old(self)@,
                    new_entry@,
                    #[trigger] candidates@[t] as int,
                ),
            forall|i: int|
                is_candidate(old(self)@, new_entry@, i) ==> candidates@.contains(i as usize),
        ensures
            final(self).wf(),
            final(self).base() == old(self).base(),
            final(fs).read_only() == old(fs).read_only(),
            many_outcome(
                old(self)@,
                old(fs).files(),
                old(self).base(),
                old(fs).read_only(),
                new_entry@,
                final(self)@,
                final(fs).files(),
                r,
            ),
            final(fs).dependable() == old(fs).dependable(),
            r matches Err(Error::Consistency { existing, new }) ==> new@
                == new_entry@.relative_path && !old(fs).read_only() && exists|c: int| #[trigger]
                is_candidate(old(self)@, new_entry@, c) && existing@
                    == old(self)@[c].relative_path,
            old(fs).dependable() && r is Err && !(r->Err_0 is Consistency)
                && crate::laws::backup_free(old(fs).files(), old(self).base(), new_entry@)
                ==> final(fs).files() == old(fs).files(),
            old(fs).dependable() && many_go_through(
                old(self)@,
                old(fs).files(),
                old(self).base(),
                old(fs).read_only(),
                new_entry@,
            ) ==> r is Ok,
            old(fs).dependable() && r is Ok ==> present(
                old(fs).files(),
                old(self).base(),
                new_entry@,
            ) && crate::stream::fits(data_of(old(fs).files(), old(self).base(), new_entry@)),
    {
        let ghost e = self@;
        let ghost f = new_entry@;
        let ghost files = fs.files();
        let ghost base = self.base();
        let new_abs = new_entry.absolute_path(self.base_dir());
        let new_hash = match hash_file(&*fs, new_abs.as_str()) {
            Ok(h) => h,
            Err(err) => {
                return Err(err);
            },
        };
        let mut hashed_new = new_entry;
        hashed_new.fast_hash = Some(new_hash);
        let mut t: usize = 0;
        while t < candidates.len()
            invariant
                t <= candidates.len(),
                self.wf(),
                self@ == e,
                e == old(self)@,
                self.base() == base,
                base == old(self).base(),
                fs.files() == files,
                files == old(fs).files(),
                fs.read_only() == old(fs).read_only(),
                fs.dependable() == old(fs).dependable(),
                fs.dependable() ==> crate::stream::fits(data_of(files, base, f)),
                f == new_entry@,
                hashed_new@ == f.with_hash(Some(new_hash)),
                present(files, base, f),
                new_hash == crate::digest::murmur3_x64_128(data_of(files, base, f)),
                !crate::files_index::inodes_of(e).contains(f.stat_inode),
                forall|u: int|
                    0 <= u < candidates@.len() ==> is_candidate(e, f, #[trigger] candidates@[u] as int),
                forall|u: int|
                    0 <= u < t && e[#[trigger] candidates@[u] as int].fast_hash == Some(new_hash)
                        ==> present(files, base, e[candidates@[u] as int]) && data_of(
                        files,
                        base,
                        e[candidates@[u] as int],
                    ) != data_of(files, base, f),
            decreases candidates.len() - t,
        {
            let slot = candidates[t];
            if self.entry(slot).fast_hash == hashed_new.fast_hash {
                let existing = self.entry(slot).clone();
                let same = match self.compare_files(&*fs, &existing, &hashed_new, true) {
                    Ok(x) => x.0,
                    Err(err) => {
                        proof {
                            assert(is_candidate(e, f, slot as int));
                        }
                        return Err(err);
                    },
                };
                if same {
                    proof {
                        assert(is_candidate(e, f, slot as int));
                        assert(e[slot as int].stat_inode != f.stat_inode);
                    }
                    return self.hard_link_and_insert(fs, &existing, &hashed_new);
                }
            }
            t += 1;
        }
        let count = self.len();
        proof {
            self.lemma_path_bijection();
            crate::files_index::lemma_upsert_filed(e, hashed_new@);
        }
        let filed = self.update_file_entry(&hashed_new);
        proof {
            assert(e.len() == count);
            assert forall|c: int| #[trigger] is_candidate(e, f, c) && e[c].fast_hash == Some(
                new_hash,
            ) implies present(files, base, e[c]) && data_of(files, base, e[c]) != data_of(
                files,
                base,
                f,
            ) by {
                assert(candidates@.contains(c as usize));
                let u = choose|u: int| 0 <= u < candidates@.len() && candidates@[u] == c as usize;
                assert(e[candidates@[u] as int].fast_hash == Some(new_hash));
            }
        }
        Ok(filed)
    }

    /// Admits the file that `new_entry` describes. A file whose inode is
    /// indexed is filed with the digest of that inode. A file without a
    /// candidate is filed as it is. Else the file is compared with the
    /// candidates, and linked to one that holds the same bytes.
    pub fn admit_entry<Fs: AbstractFs>(&mut self, fs: &mut Fs, new_entry: FileEntry) -> (r: Result<
        FileEntry,
    >)
        requires
            old(self).wf(),
        ensures
            final(self).wf(),
            final(self).base() == old(self).base(),
            final(fs).read_only() == old(fs).read_only(),
            admit_outcome(
                old(self)@,
                old(fs).files(),
                old(self).base(),
                old(fs).read_only(),
                new_entry@,
                final(self)@,
                final(fs).files(),
                r,
            ),
            final(fs).dependable() == old(fs).dependable(),
            r matches Err(Error::Consistency { existing, new }) ==> new@
                == new_entry@.relative_path && !old(fs).read_only() && exists|c: int| #[trigger]
                is_candidate(old(self)@, new_entry@, c) && existing@
                    == old(self)@[c].relative_path,
            old(fs).dependable() && r is Err && !(r->Err_0 is Consistency)
                && crate::laws::backup_free(old(fs).files(), old(self).base(), new_entry@)
                ==> final(fs).files() == old(fs).files(),
            old(fs).dependable() && admission_goes_through(
                old(self)@,
                old(fs).files(),
                old(self).base(),
                old(fs).read_only(),
                new_entry@,
            ) ==> r is Ok,
            old(fs).dependable() && settled(old(self)@, new_entry@) && r is Ok
                ==> admission_goes_through(
                old(self)@,
                old(fs).files(),
                old(self).base(),
                old(fs).read_only(),
                new_entry@,
            ),
            crate::audit::audit(old(self)@) && (crate::files_index::inodes_of(
                old(self)@,
            ).contains(new_entry.stat_inode) ==> crate::laws::digests_suffice(
                old(self)@,
                new_entry@,
            )) ==> crate::audit::audit(final(self)@),
            crate::laws::backup_free(old(fs).files(), old(self).base(), new_entry@)
                ==> crate::fs::contents_of(final(fs).files()) == crate::fs::contents_of(
                old(fs).files(),
            ),
            crate::laws::up_to_date(old(self)@, new_entry@) ==> final(self)@ == old(self)@
                && final(fs).files() == old(fs).files() && r is Ok
                && crate::files_index::entry_of(old(self)@, new_entry@.relative_path) == Some(
                r->Ok_0@,
            ),
    {
        let r = self.admit_by_case(fs, new_entry);
        proof {
            if crate::laws::up_to_date(old(self)@, new_entry@) {
                old(self).lemma_path_bijection();
                crate::laws::lemma_admission_idempotent(
                    old(self)@,
                    old(fs).files(),
                    old(self).base(),
                    old(fs).read_only(),
                    new_entry@,
                    self@,
                    fs.files(),
                    r,
                );
            }
            if crate::audit::audit(old(self)@) && (crate::files_index::inodes_of(
                old(self)@,
            ).contains(new_entry.stat_inode) ==> crate::laws::digests_suffice(
                old(self)@,
                new_entry@,
            )) {
                crate::laws::lemma_admission_keeps_audit(
                    old(self)@,
                    old(fs).files(),
                    old(self).base(),
                    old(fs).read_only(),
                    new_entry@,
                    self@,
                    fs.files(),
                    r,
                );
            }
            if crate::laws::backup_free(old(fs).files(), old(self).base(), new_entry@) {
                crate::laws::lemma_admission_keeps_contents(
                    old(self)@,
                    old(fs).files(),
                    old(self).base(),
                    old(fs).read_only(),
                    new_entry@,
                    self@,
                    fs.files(),
                    r,
                );
            }
        }
        r
    }

    /// Tells the case of an admission and files the entry as the case
    /// asks.
    #[verifier::rlimit(50)]
    fn admit_by_case<Fs: AbstractFs>(&mut self, fs: &mut Fs, new_entry: FileEntry) -> (r: Result<
        FileEntry,
    >)
        requires
            old(self).wf(),
        ensures
            final(self).wf(),
            final(self).base() == old(self).base(),
            final(fs).read_only() == old(fs).read_only(),
            admit_outcome(
                old(self)@,
                old(fs).files(),
                old(self).base(),
                old(fs).read_only(),
                new_entry@,
                final(self)@,
                final(fs).files(),
                r,
            ),
            final(fs).dependable() == old(fs).dependable(),
            r matches Err(Error::Consistency { existing, new }) ==> new@
                == new_entry@.relative_path && !old(fs).read_only() && exists|c: int| #[trigger]
                is_candidate(old(self)@, new_entry@, c) && existing@
                    == old(self)@[c].relative_path,
            old(fs).dependable() && r is Err && !(r->Err_0 is Consistency)
                && crate::laws::backup_free(old(fs).files(), old(self).base(), new_entry@)
                ==> final(fs).files() == old(fs).files(),
            old(fs).dependable() && admission_goes_through(
                old(self)@,
                old(fs).files(),
                old(self).base(),
                old(fs).read_only(),
                new_entry@,
            ) ==> r is Ok,
            old(fs).dependable() && settled(old(self)@, new_entry@) && r is Ok
                ==> admission_goes_through(
                old(self)@,
                old(fs).files(),
                old(self).base(),
                old(fs).read_only(),
                new_entry@,
            ),
    {
        let ghost e = self@;
        let ghost f = new_entry@;
        let count = self.len();
        proof {
            self.lemma_path_bijection();
        }
        match self.slot_of_inode(new_entry.stat_inode) {
            Some(sibling) => {
                proof {
                    assert(crate::files_index::inodes_of(e).contains(f.stat_inode));
                }
                let mut known = new_entry;
                known.fast_hash = self.entry(sibling).fast_hash;
                let filed = self.update_file_entry(&known);
                return Ok(filed);
            },
            None => {},
        }
        let candidates = self.candidates(&new_entry);
        if candidates.len() == 0 {
            proof {
                assert forall|i: int| !is_candidate(e, f, i) by {
                    if is_candidate(e, f, i) {
                        assert(candidates@.contains(i as usize));
                    }
                }
                if exists|k: int| 0 <= k < e.len() && #[trigger] e[k].relative_path == f.relative_path {
                    let k = choose|k: int|
                        0 <= k < e.len() && #[trigger] e[k].relative_path == f.relative_path;
                    crate::files_index::lemma_upsert_known(e, k, f);
                    assert(e[k].stat_inode != f.stat_inode);
                } else {
                    crate::files_index::lemma_upsert_new(e, f);
                }
            }
            let filed = self.update_file_entry(&new_entry);
            return Ok(filed);
        }
        proof {
            assert(is_candidate(e, f, candidates@[0] as int));
        }
        if self.share_inode(&candidates) {
            proof {
                assert forall|i: int, j: int|
                    #[trigger] is_candidate(e, f, i) && #[trigger] is_candidate(
                        e,
                        f,
                        j,
                    ) implies e[i].stat_inode == e[j].stat_inode by {
                    assert(candidates@.contains(i as usize));
                    assert(candidates@.contains(j as usize));
                    let a = choose|a: int| 0 <= a < candidates@.len() && candidates@[a] == i as usize;
                    let b = choose|b: int| 0 <= b < candidates@.len() && candidates@[b] == j as usize;
                    assert(e[candidates@[a] as int].stat_inode == e[candidates@[b] as int].stat_inode);
                }
            }
            let first = Self::lowest(&candidates);
            proof {
                let u = choose|u: int| 0 <= u < candidates@.len() && candidates@[u] == first;
                assert(is_candidate(e, f, candidates@[u] as int));
                assert forall|i: int| 0 <= i < first implies !is_candidate(e, f, i) by {
                    if is_candidate(e, f, i) {
                        assert(candidates@.contains(i as usize));
                        let w = choose|w: int|
                            0 <= w < candidates@.len() && candidates@[w] == i as usize;
                        assert(first <= candidates@[w]);
                    }
                }
                assert(is_first_candidate(e, f, first as int));
                assert forall|c: int| #[trigger] is_first_candidate(e, f, c) implies c
                    == first by {
                    if c < first {
                        assert(!is_candidate(e, f, c));
                    }
                    if first < c {
                        assert(!is_candidate(e, f, first as int));
                    }
                }
            }
            return self.admit_single(fs, new_entry, first);
        }
        proof {
            let (a, b) = choose|a: int, b: int|
                #![trigger candidates@[a], candidates@[b]]
                0 <= a < candidates@.len() && 0 <= b < candidates@.len()
                    && e[candidates@[a] as int].stat_inode != e[candidates@[b] as int].stat_inode;
            assert(is_candidate(e, f, candidates@[a] as int));
            assert(is_candidate(e, f, candidates@[b] as int));
            assert(!one_candidate_inode(e, f));
        }
        self.admit_many(fs, new_entry, candidates)
    }

    /// Admits the file at `path`: looks at it, then files it as
    /// `admit_entry` says. Where the file cannot be looked at, nothing changes.
    /// On a filesystem where the table alone decides, the admission fails
    /// where the path resolves to no file below the base path, and goes
    /// through wherever `admission_goes_through` holds.
    pub fn add_file<Fs: AbstractFs>(&mut self, fs: &mut Fs, path: &str) -> (r: Result<FileEntry>)
        requires
            old(self).wf(),
        ensures
            final(self).wf(),
            final(self).base() == old(self).base(),
            final(fs).read_only() == old(fs).read_only(),
            add_outcome(
                old(self)@,
                old(fs).files(),
                old(self).base(),
                old(fs).read_only(),
                old(fs).canonical(path@),
                final(self)@,
                final(fs).files(),
                r,
            ),
            crate::audit::audit(old(self)@) && (tentative(
                old(fs).files(),
                old(self).base(),
                old(fs).canonical(path@),
            ) matches Some(f) ==> (crate::files_index::inodes_of(old(self)@).contains(
                f.stat_inode,
            ) ==> crate::laws::digests_suffice(old(self)@, f))) ==> crate::audit::audit(
                final(self)@,
            ),
            (tentative(old(fs).files(), old(self).base(), old(fs).canonical(path@)) matches Some(
                f,
            ) ==> crate::laws::backup_free(old(fs).files(), old(self).base(), f))
                ==> crate::fs::contents_of(final(fs).files()) == crate::fs::contents_of(
                old(fs).files(),
            ),
            final(fs).dependable() == old(fs).dependable(),
            r matches Err(Error::Consistency { existing, new }) ==> !old(fs).read_only()
                && tentative(old(fs).files(), old(self).base(), old(fs).canonical(path@))
                is Some && new@ == tentative(
                old(fs).files(),
                old(self).base(),
                old(fs).canonical(path@),
            )->0.relative_path && exists|c: int| #[trigger]
                is_candidate(
                    old(self)@,
                    tentative(old(fs).files(), old(self).base(), old(fs).canonical(path@))->0,
                    c,
                ) && existing@ == old(self)@[c].relative_path,
            old(fs).dependable() && r is Err && !(r->Err_0 is Consistency) && (tentative(
                old(fs).files(),
                old(self).base(),
                old(fs).canonical(path@),
            ) matches Some(f) ==> crate::laws::backup_free(old(fs).files(), old(self).base(), f))
                ==> final(fs).files() == old(fs).files(),
            old(fs).dependable() ==> match tentative(
                old(fs).files(),
                old(self).base(),
                old(fs).canonical(path@),
            ) {
                None => r is Err,
                Some(f) => {
                    &&& admission_goes_through(
                        old(self)@,
                        old(fs).files(),
                        old(self).base(),
                        old(fs).read_only(),
                        f,
                    ) ==> r is Ok
                    &&& settled(old(self)@, f) && r is Ok ==> admission_goes_through(
                        old(self)@,
                        old(fs).files(),
                        old(self).base(),
                        old(fs).read_only(),
                        f,
                    )
                },
            },
            tentative(old(fs).files(), old(self).base(), old(fs).canonical(path@)) matches Some(f)
                && crate::laws::up_to_date(old(self)@, f) ==> final(self)@ == old(self)@
                && final(fs).files() == old(fs).files() && (r matches Ok(x)
                ==> crate::files_index::entry_of(old(self)@, x@.relative_path) == Some(x@)),
    {
        let new_entry = match FileEntry::new(&*fs, self.base_dir(), path) {
            Ok(e) => e,
            Err(err) => {
                return Err(err);
            },
        };
        self.admit_entry(fs, new_entry)
    }
}

} // verus!
