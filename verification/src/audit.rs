//! What must hold of the entries of an index, and the routine that looks
//! whether it does.

use crate::error::Error;
use crate::error::Result;
use crate::file_entry::FileEntry;
use crate::file_entry::FileEntryView;
use crate::files_index::FilesIndex;
use vstd::prelude::*;

verus! {

/// The entries of the inode `inode` have one digest, or none of them has
/// one.
pub open spec fn inode_coherent(e: Seq<FileEntryView>, inode: u64) -> bool {
    forall|i: int, j: int|
        #![trigger e[i], e[j]]
        0 <= i < e.len() && 0 <= j < e.len() && e[i].stat_inode == inode && e[j].stat_inode
            == inode ==> e[i].fast_hash == e[j].fast_hash
}

/// Entries that share an inode agree on the digest.
pub open spec fn hash_coherent(e: Seq<FileEntryView>) -> bool {
    forall|i: int, j: int|
        #![trigger e[i], e[j]]
        0 <= i < e.len() && 0 <= j < e.len() && e[i].stat_inode == e[j].stat_inode
            ==> e[i].fast_hash == e[j].fast_hash
}

/// Where the entries of the size `size` have more than one inode, each of
/// them has a digest.
pub open spec fn size_obliged(e: Seq<FileEntryView>, size: u64) -> bool {
    forall|i: int, j: int|
        #![trigger e[i], e[j]]
        0 <= i < e.len() && 0 <= j < e.len() && e[i].stat_size == size && e[j].stat_size == size
            && e[i].stat_inode != e[j].stat_inode ==> e[i].fast_hash is Some
}

/// Where two entries of one size differ in the inode, both have a digest.
pub open spec fn hashing_obligation(e: Seq<FileEntryView>) -> bool {
    forall|i: int, j: int|
        #![trigger e[i], e[j]]
        0 <= i < e.len() && 0 <= j < e.len() && e[i].stat_size == e[j].stat_size
            && e[i].stat_inode != e[j].stat_inode ==> e[i].fast_hash is Some
}

/// Entries that agree on size and digest share the inode.
pub open spec fn inode_equivalence(e: Seq<FileEntryView>) -> bool {
    forall|i: int, j: int|
        #![trigger e[i], e[j]]
        0 <= i < e.len() && 0 <= j < e.len() && e[i].stat_size == e[j].stat_size
            && e[i].fast_hash is Some && e[i].fast_hash == e[j].fast_hash ==> e[i].stat_inode
            == e[j].stat_inode
}

/// What the audit asks of the entries: no path twice, one digest for each
/// inode, and a digest wherever a size has more than one inode.
pub open spec fn audit(e: Seq<FileEntryView>) -> bool {
    &&& crate::files_index::paths_unique(e)
    &&& hash_coherent(e)
    &&& hashing_obligation(e)
}

impl FilesIndex {
    /// Whether the entries of one inode agree on the digest.
    fn check_inode(&self, inode: u64) -> (r: bool)
        requires
            self.wf(),
        ensures
            r == inode_coherent(self@, inode),
    {
        let slots = self.slots_by_inode(inode);
        let ghost e = self@;
        let count = self.len();
        assert(e.len() == count);
        if slots.len() == 0 {
            proof {
                assert forall|i: int| 0 <= i < e.len() implies #[trigger] e[i].stat_inode
                    != inode by {
                    if e[i].stat_inode == inode {
                        assert(crate::files_index::slots_of_inode(e, -1, inode).contains(
                            i as usize,
                        ));
                        assert(slots@.contains(i as usize));
                    }
                }
            }
            return true;
        }
        proof {
            assert forall|t: int| 0 <= t < slots@.len() implies (#[trigger] slots@[t]) < e.len()
                && e[slots@[t] as int].stat_inode == inode by {
                assert(slots@.contains(slots@[t]));
                assert(crate::files_index::slots_of_inode(e, -1, inode).contains(slots@[t]));
            }
        }
        let first = self.entry(slots[0]).fast_hash;
        let mut t: usize = 1;
        while t < slots.len()
            invariant
                1 <= t <= slots.len(),
                e == self@,
                first == e[slots@[0] as int].fast_hash,
                forall|u: int|
                    0 <= u < slots@.len() ==> (#[trigger] slots@[u]) < e.len()
                        && e[slots@[u] as int].stat_inode == inode,
                forall|u: int| 0 <= u < t ==> e[#[trigger] slots@[u] as int].fast_hash == first,
            decreases slots.len() - t,
        {
            if self.entry(slots[t]).fast_hash != first {
                proof {
                    let i = slots@[0] as int;
                    let j = slots@[t as int] as int;
                    assert(e[i].stat_inode == inode && e[j].stat_inode == inode);
                    assert(e[i].fast_hash != e[j].fast_hash);
                }
                return false;
            }
            t += 1;
        }
        proof {
            assert forall|i: int, j: int|
                #![trigger e[i], e[j]]
                0 <= i < e.len() && 0 <= j < e.len() && e[i].stat_inode == inode
                    && e[j].stat_inode == inode implies e[i].fast_hash == e[j].fast_hash by {
                assert(crate::files_index::slots_of_inode(e, -1, inode).contains(i as usize));
                assert(crate::files_index::slots_of_inode(e, -1, inode).contains(j as usize));
                assert(slots@.contains(i as usize));
                assert(slots@.contains(j as usize));
                let a = choose|a: int| 0 <= a < slots@.len() && slots@[a] == i as usize;
                let b = choose|b: int| 0 <= b < slots@.len() && slots@[b] == j as usize;
                assert(e[slots@[a] as int].fast_hash == first);
                assert(e[slots@[b] as int].fast_hash == first);
            }
        }
        true
    }

    /// Whether the entries of one size have digests where they must.
    fn check_size(&self, size: u64) -> (r: bool)
        requires
            self.wf(),
        ensures
            r == size_obliged(self@, size),
    {
        let ghost e = self@;
        let count = self.len();
        assert(e.len() == count);
        let inodes = self.inodes_by_size(size);
        if inodes.len() <= 1 {
            proof {
                assert forall|i: int, j: int|
                    #![trigger e[i], e[j]]
                    0 <= i < e.len() && 0 <= j < e.len() && e[i].stat_size == size
                        && e[j].stat_size == size implies e[i].stat_inode == e[j].stat_inode by {
                    assert(crate::files_index::inodes_of_size(e, -1, size).contains(
                        e[i].stat_inode,
                    ));
                    assert(crate::files_index::inodes_of_size(e, -1, size).contains(
                        e[j].stat_inode,
                    ));
                    assert(inodes@.contains(e[i].stat_inode));
                    assert(inodes@.contains(e[j].stat_inode));
                }
            }
            return true;
        }
        proof {
            assert(inodes@.contains(inodes@[0]));
            assert(inodes@.contains(inodes@[1]));
            assert(crate::files_index::inodes_of_size(e, -1, size).contains(inodes@[0]));
            assert(crate::files_index::inodes_of_size(e, -1, size).contains(inodes@[1]));
        }
        let ghost a = choose|i: int|
            0 <= i < e.len() && i != -1 && #[trigger] e[i].stat_size == size && e[i].stat_inode
                == inodes@[0];
        let ghost b = choose|i: int|
            0 <= i < e.len() && i != -1 && #[trigger] e[i].stat_size == size && e[i].stat_inode
                == inodes@[1];
        let slots = self.slots_by_size(size);
        proof {
            assert forall|t: int| 0 <= t < slots@.len() implies (#[trigger] slots@[t]) < e.len()
                && e[slots@[t] as int].stat_size == size by {
                assert(slots@.contains(slots@[t]));
                assert(crate::files_index::slots_of_size(e, -1, size).contains(slots@[t]));
            }
        }
        let mut t: usize = 0;
        while t < slots.len()
            invariant
                t <= slots.len(),
                e == self@,
                0 <= a < e.len() && 0 <= b < e.len(),
                e[a].stat_size == size && e[b].stat_size == size,
                e[a].stat_inode != e[b].stat_inode,
                forall|u: int|
                    0 <= u < slots@.len() ==> (#[trigger] slots@[u]) < e.len()
                        && e[slots@[u] as int].stat_size == size,
                forall|u: int| 0 <= u < t ==> e[#[trigger] slots@[u] as int].fast_hash is Some,
            decreases slots.len() - t,
        {
            if self.entry(slots[t]).fast_hash.is_none() {
                proof {
                    let i = slots@[t as int] as int;
                    if e[i].stat_inode != e[a].stat_inode {
                        assert(e[i].stat_size == e[a].stat_size && e[i].fast_hash is None);
                    } else {
                        assert(e[i].stat_size == e[b].stat_size && e[i].fast_hash is None);
                    }
                }
                return false;
            }
            t += 1;
        }
        proof {
            assert forall|i: int, j: int|
                #![trigger e[i], e[j]]
                0 <= i < e.len() && 0 <= j < e.len() && e[i].stat_size == size && e[j].stat_size
                    == size && e[i].stat_inode != e[j].stat_inode implies e[i].fast_hash
                is Some by {
                assert(crate::files_index::slots_of_size(e, -1, size).contains(i as usize));
                assert(slots@.contains(i as usize));
                let u = choose|u: int| 0 <= u < slots@.len() && slots@[u] == i as usize;
                assert(e[slots@[u] as int].fast_hash is Some);
            }
        }
        true
    }

    /// The audit: whether entries that share an inode agree on the digest,
    /// and whether every size with more than one inode has all its entries
    /// digested. That each entry is filed where it belongs, and nothing
    /// else, holds of every well-formed index.
    pub fn sanity_check(&self) -> (r: bool)
        requires
            self.wf(),
        ensures
            r == audit(self@),
    {
        let ghost e = self@;
        proof {
            self.lemma_path_bijection();
        }
        let inodes = self.inodes();
        let mut t: usize = 0;
        while t < inodes.len()
            invariant
                t <= inodes.len(),
                self.wf(),
                e == self@,
                forall|u: int| 0 <= u < t ==> inode_coherent(e, #[trigger] inodes@[u]),
            decreases inodes.len() - t,
        {
            if !self.check_inode(inodes[t]) {
                proof {
                    assert(!inode_coherent(e, inodes@[t as int]));
                    assert(!hash_coherent(e));
                }
                return false;
            }
            t += 1;
        }
        proof {
            assert forall|i: int, j: int|
                #![trigger e[i], e[j]]
                0 <= i < e.len() && 0 <= j < e.len() && e[i].stat_inode == e[j].stat_inode
                implies e[i].fast_hash == e[j].fast_hash by {
                assert(crate::files_index::inodes_of(e).contains(e[i].stat_inode));
                assert(inodes@.contains(e[i].stat_inode));
                let u = choose|u: int| 0 <= u < inodes@.len() && inodes@[u] == e[i].stat_inode;
                assert(inode_coherent(e, inodes@[u]));
            }
        }
        let sizes = self.sizes();
        let mut t: usize = 0;
        while t < sizes.len()
            invariant
                t <= sizes.len(),
                self.wf(),
                e == self@,
                hash_coherent(e),
                crate::files_index::paths_unique(e),
                sizes@.to_set() == crate::files_index::sizes_of(e),
                forall|u: int| 0 <= u < t ==> size_obliged(e, #[trigger] sizes@[u]),
            decreases sizes.len() - t,
        {
            if !self.check_size(sizes[t]) {
                proof {
                    assert(!size_obliged(e, sizes@[t as int]));
                    assert(!hashing_obligation(e));
                }
                return false;
            }
            t += 1;
        }
        proof {
            assert forall|i: int, j: int|
                #![trigger e[i], e[j]]
                0 <= i < e.len() && 0 <= j < e.len() && e[i].stat_size == e[j].stat_size
                    && e[i].stat_inode != e[j].stat_inode implies e[i].fast_hash is Some by {
                assert(crate::files_index::sizes_of(e).contains(e[i].stat_size));
                assert(sizes@.contains(e[i].stat_size));
                let u = choose|u: int| 0 <= u < sizes@.len() && sizes@[u] == e[i].stat_size;
                assert(size_obliged(e, sizes@[u]));
            }
        }
        true
    }

    /// An index of the given entries, each in the slot of its place in the
    /// list. A list that does not pass the audit is refused: one that
    /// names a path twice, gives an inode two digests, or leaves an entry
    /// without a digest where its size has more than one inode.
    pub fn from_entries(base_path: &str, entries: &[FileEntry]) -> (r: Result<FilesIndex>)
        ensures
            r is Ok <==> audit(entries@.map_values(|e: FileEntry| e@)),
            r matches Ok(x) ==> x.wf() && x.base() == base_path@ && x@ == entries@.map_values(
                |e: FileEntry| e@,
            ),
            r matches Err(e) ==> e is Codec,
    {
        let ghost views = entries@.map_values(|e: FileEntry| e@);
        let mut index = FilesIndex::new(base_path);
        let mut i: usize = 0;
        while i < entries.len()
            invariant
                i <= entries.len(),
                index.wf(),
                index.base() == base_path@,
                views == entries@.map_values(|e: FileEntry| e@),
                index@ == views.take(i as int),
            decreases entries.len() - i,
        {
            let ghost cur = index@;
            proof {
                index.lemma_path_bijection();
            }
            match index.slot_of_path(entries[i].relative_path.as_str()) {
                Some(k) => {
                    proof {
                        assert(views[k as int].relative_path == views[i as int].relative_path);
                    }
                    return Err(Error::Codec("a path occurs twice".to_owned()));
                },
                None => {},
            }
            proof {
                crate::files_index::lemma_upsert_new(cur, entries@[i as int]@);
            }
            let _ = index.update_file_entry(&entries[i]);
            proof {
                assert(index@ =~= views.take(i + 1));
            }
            i += 1;
        }
        proof {
            assert(views.take(i as int) =~= views);
        }
        if !index.sanity_check() {
            return Err(Error::Codec("the entries do not pass the audit".to_owned()));
        }
        Ok(index)
    }
}

} // verus!
