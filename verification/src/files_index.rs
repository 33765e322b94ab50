//! The index of the files below a base path: the entries in the order in
//! which their paths were first seen, and maps that find an entry by path,
//! size, inode and digest.

use crate::buckets::Buckets;
use crate::file_entry::FileEntry;
use crate::file_entry::FileEntryView;
use vstd::hash_map::StringHashMap;
use vstd::prelude::*;

verus! {

broadcast use vstd::std_specs::hash::group_hash_axioms;

/// The slots whose entry has the size `size`, the slot `hole` left out.
/// With a `hole` that is no slot, such as -1, no slot is left out; the same
/// holds of the four functions below.
pub open spec fn slots_of_size(e: Seq<FileEntryView>, hole: int, size: u64) -> Set<usize> {
    Set::new(|i: usize| i < e.len() && i != hole && e[i as int].stat_size == size)
}

/// The slots whose entry has the inode `inode`, the slot `hole` left out.
pub open spec fn slots_of_inode(e: Seq<FileEntryView>, hole: int, inode: u64) -> Set<usize> {
    Set::new(|i: usize| i < e.len() && i != hole && e[i as int].stat_inode == inode)
}

/// The slots whose entry has the digest `hash`, the slot `hole` left out.
pub open spec fn slots_of_hash(e: Seq<FileEntryView>, hole: int, hash: u128) -> Set<usize> {
    Set::new(|i: usize| i < e.len() && i != hole && e[i as int].fast_hash == Some(hash))
}

/// The inodes of the entries of size `size`, the slot `hole` left out.
pub open spec fn inodes_of_size(e: Seq<FileEntryView>, hole: int, size: u64) -> Set<u64> {
    Set::new(
        |n: u64|
            exists|i: int|
                0 <= i < e.len() && i != hole && #[trigger] e[i].stat_size == size
                    && e[i].stat_inode == n,
    )
}

/// The inodes of the entries with the digest `hash`, the slot `hole` left
/// out.
pub open spec fn inodes_of_hash(e: Seq<FileEntryView>, hole: int, hash: u128) -> Set<u64> {
    Set::new(
        |n: u64|
            exists|i: int|
                0 <= i < e.len() && i != hole && #[trigger] e[i].fast_hash == Some(hash)
                    && e[i].stat_inode == n,
    )
}

/// The sizes that entries have.
pub open spec fn sizes_of(e: Seq<FileEntryView>) -> Set<u64> {
    Set::new(|s: u64| exists|i: int| 0 <= i < e.len() && #[trigger] e[i].stat_size == s)
}

/// The inodes that entries have.
pub open spec fn inodes_of(e: Seq<FileEntryView>) -> Set<u64> {
    Set::new(|n: u64| exists|i: int| 0 <= i < e.len() && #[trigger] e[i].stat_inode == n)
}

/// The digests that entries have.
pub open spec fn hashes_of(e: Seq<FileEntryView>) -> Set<u128> {
    Set::new(|h: u128| exists|i: int| 0 <= i < e.len() && #[trigger] e[i].fast_hash == Some(h))
}

/// No two slots hold the same path.
pub open spec fn paths_unique(e: Seq<FileEntryView>) -> bool {
    forall|i: int, j: int|
        0 <= i < e.len() && 0 <= j < e.len() && #[trigger] e[i].relative_path
            == #[trigger] e[j].relative_path ==> i == j
}

/// The slot that holds `path`, if one does.
pub open spec fn slot_of(e: Seq<FileEntryView>, path: Seq<char>) -> Option<int> {
    if exists|i: int| 0 <= i < e.len() && #[trigger] e[i].relative_path == path {
        Some(choose|i: int| 0 <= i < e.len() && #[trigger] e[i].relative_path == path)
    } else {
        None
    }
}

/// The entry filed under `path`, if there is one.
pub open spec fn entry_of(e: Seq<FileEntryView>, path: Seq<char>) -> Option<FileEntryView> {
    match slot_of(e, path) {
        Some(k) => Some(e[k]),
        None => None,
    }
}

/// The entries after `f` was filed: a new path takes the next slot, a known
/// path keeps its slot. The entry of a known path stays as it is where `f`
/// has no digest and differs from it in nothing else.
pub open spec fn upsert(e: Seq<FileEntryView>, f: FileEntryView) -> Seq<FileEntryView> {
    match slot_of(e, f.relative_path) {
        Some(k) => if f.eq_except_hash(e[k]) && f.fast_hash is None {
            e
        } else {
            e.update(k, f)
        },
        None => e.push(f),
    }
}

/// Filing an entry under a path that the slot `k` holds.
pub proof fn lemma_upsert_known(e: Seq<FileEntryView>, k: int, f: FileEntryView)
    requires
        paths_unique(e),
        0 <= k < e.len(),
        e[k].relative_path == f.relative_path,
    ensures
        slot_of(e, f.relative_path) == Some(k),
        upsert(e, f) == if f.eq_except_hash(e[k]) && f.fast_hash is None {
            e
        } else {
            e.update(k, f)
        },
        paths_unique(upsert(e, f)),
        entry_of(upsert(e, f), f.relative_path) == if f.eq_except_hash(e[k]) && f.fast_hash
            is None {
            Some(e[k])
        } else {
            Some(f)
        },
{
    let c = choose|i: int| 0 <= i < e.len() && #[trigger] e[i].relative_path == f.relative_path;
    assert(c == k);
    let e2 = upsert(e, f);
    assert forall|i: int, j: int|
        0 <= i < e2.len() && 0 <= j < e2.len() && #[trigger] e2[i].relative_path
            == #[trigger] e2[j].relative_path implies i == j by {
        assert(e2[i].relative_path == e[i].relative_path);
        assert(e2[j].relative_path == e[j].relative_path);
    }
    assert(e2[k].relative_path == f.relative_path);
    let c2 = choose|i: int|
        0 <= i < e2.len() && #[trigger] e2[i].relative_path == f.relative_path;
    assert(c2 == k);
}

/// Filing an entry under a path that no slot holds.
pub proof fn lemma_upsert_new(e: Seq<FileEntryView>, f: FileEntryView)
    requires
        paths_unique(e),
        forall|i: int| 0 <= i < e.len() ==> #[trigger] e[i].relative_path != f.relative_path,
    ensures
        slot_of(e, f.relative_path) is None,
        upsert(e, f) == e.push(f),
        paths_unique(upsert(e, f)),
        entry_of(upsert(e, f), f.relative_path) == Some(f),
{
    let e2 = e.push(f);
    assert forall|i: int, j: int|
        0 <= i < e2.len() && 0 <= j < e2.len() && #[trigger] e2[i].relative_path
            == #[trigger] e2[j].relative_path implies i == j by {
        if i < e.len() {
            assert(e2[i].relative_path == e[i].relative_path);
        }
        if j < e.len() {
            assert(e2[j].relative_path == e[j].relative_path);
        }
    }
    assert(e2[e.len() as int].relative_path == f.relative_path);
    let c2 = choose|i: int|
        0 <= i < e2.len() && #[trigger] e2[i].relative_path == f.relative_path;
    assert(c2 == e.len());
}

/// An entry with a digest is filed as it is.
pub proof fn lemma_upsert_filed(e: Seq<FileEntryView>, f: FileEntryView)
    requires
        paths_unique(e),
        f.fast_hash is Some,
    ensures
        entry_of(upsert(e, f), f.relative_path) == Some(f),
        paths_unique(upsert(e, f)),
{
    if exists|i: int| 0 <= i < e.len() && #[trigger] e[i].relative_path == f.relative_path {
        let k = choose|i: int| 0 <= i < e.len() && #[trigger] e[i].relative_path == f.relative_path;
        lemma_upsert_known(e, k, f);
    } else {
        lemma_upsert_new(e, f);
    }
}

/// The index. Its view is the sequence of its entries; the place of an
/// entry in it is the entry's slot.
pub struct FilesIndex {
    pub base_path: String,
    entries: Vec<FileEntry>,
    by_relative_path: StringHashMap<usize>,
    by_size: Buckets<u64, usize>,
    by_inode: Buckets<u64, usize>,
    by_hash: Buckets<u128, usize>,
    inode_by_size: Buckets<u64, u64>,
    inode_by_hash: Buckets<u128, u64>,
}

impl View for FilesIndex {
    type V = Seq<FileEntryView>;

    closed spec fn view(&self) -> Seq<FileEntryView> {
        self.entries@.map_values(|e: FileEntry| e@)
    }
}

impl FilesIndex {
    /// The base path, below which all entries lie.
    pub closed spec fn base(&self) -> Seq<char> {
        self.base_path@
    }

    spec fn sizes_ok(&self, hole: int) -> bool {
        &&& self.by_size.wf()
        &&& forall|s: u64| #[trigger] self.by_size.bucket(s) == slots_of_size(self@, hole, s)
    }

    spec fn inodes_ok(&self, hole: int) -> bool {
        &&& self.by_inode.wf()
        &&& forall|n: u64| #[trigger] self.by_inode.bucket(n) == slots_of_inode(self@, hole, n)
    }

    spec fn hashes_ok(&self, hole: int) -> bool {
        &&& self.by_hash.wf()
        &&& forall|h: u128| #[trigger] self.by_hash.bucket(h) == slots_of_hash(self@, hole, h)
    }

    spec fn size_inodes_ok(&self, hole: int) -> bool {
        &&& self.inode_by_size.wf()
        &&& forall|s: u64| #[trigger]
            self.inode_by_size.bucket(s) == inodes_of_size(self@, hole, s)
    }

    spec fn hash_inodes_ok(&self, hole: int) -> bool {
        &&& self.inode_by_hash.wf()
        &&& forall|h: u128| #[trigger]
            self.inode_by_hash.bucket(h) == inodes_of_hash(self@, hole, h)
    }

    /// Every slot but the hole is found under its path, every path of the
    /// map leads to the slot that holds it, and the map has one path for
    /// each slot but the hole.
    spec fn paths_ok(&self, hole: int) -> bool {
        let e = self@;
        let m = self.by_relative_path@;
        &&& forall|i: int|
            0 <= i < e.len() && i != hole ==> m.contains_key(#[trigger] e[i].relative_path)
                && m[e[i].relative_path] == i
        &&& forall|p: Seq<char>| #[trigger]
            m.contains_key(p) ==> m[p] < e.len() && m[p] != hole && e[m[p] as int].relative_path
                == p
        &&& m.dom().finite()
        &&& m.dom().len() == if 0 <= hole < e.len() {
            e.len() - 1
        } else {
            e.len() as int
        }
    }

    /// All maps agree with the entries, the slot `hole` left out of them.
    spec fn indexed(&self, hole: int) -> bool {
        &&& self.sizes_ok(hole)
        &&& self.inodes_ok(hole)
        &&& self.hashes_ok(hole)
        &&& self.size_inodes_ok(hole)
        &&& self.hash_inodes_ok(hole)
        &&& self.paths_ok(hole)
    }

    /// The maps of the index agree with its entries: each entry is found
    /// under its path, size, inode and digest, and nothing else is.
    pub closed spec fn wf(&self) -> bool {
        self.indexed(-1)
    }

    /// The maps say of two indexes the same where the indexes agree on the
    /// maps themselves and on every slot that is not a hole.
    proof fn lemma_same_live(a: FilesIndex, b: FilesIndex, ha: int, hb: int)
        requires
            a.indexed(ha),
            a.by_relative_path@ == b.by_relative_path@,
            a.by_size == b.by_size,
            a.by_inode == b.by_inode,
            a.by_hash == b.by_hash,
            a.inode_by_size == b.inode_by_size,
            a.inode_by_hash == b.inode_by_hash,
            (ha == hb && 0 <= ha < a@.len() && a@.len() == b@.len()) || (ha == -1 && hb
                == a@.len() && b@.len() == a@.len() + 1),
            forall|i: int| 0 <= i < a@.len() && i != ha ==> #[trigger] a@[i] == b@[i],
        ensures
            b.indexed(hb),
    {
        let x = a@;
        let y = b@;
        assert forall|s: u64| #[trigger] b.by_size.bucket(s) == slots_of_size(y, hb, s) by {
            assert(a.by_size.bucket(s) == slots_of_size(x, ha, s));
            assert(slots_of_size(x, ha, s) =~= slots_of_size(y, hb, s));
        }
        assert forall|n: u64| #[trigger] b.by_inode.bucket(n) == slots_of_inode(y, hb, n) by {
            assert(a.by_inode.bucket(n) == slots_of_inode(x, ha, n));
            assert(slots_of_inode(x, ha, n) =~= slots_of_inode(y, hb, n));
        }
        assert forall|h: u128| #[trigger] b.by_hash.bucket(h) == slots_of_hash(y, hb, h) by {
            assert(a.by_hash.bucket(h) == slots_of_hash(x, ha, h));
            assert(slots_of_hash(x, ha, h) =~= slots_of_hash(y, hb, h));
        }
        assert forall|s: u64| #[trigger]
            b.inode_by_size.bucket(s) == inodes_of_size(y, hb, s) by {
            assert(a.inode_by_size.bucket(s) == inodes_of_size(x, ha, s));
            assert forall|n: u64| inodes_of_size(x, ha, s).contains(n) implies inodes_of_size(
                y,
                hb,
                s,
            ).contains(n) by {
                let i = choose|i: int|
                    0 <= i < x.len() && i != ha && #[trigger] x[i].stat_size == s
                        && x[i].stat_inode == n;
                assert(y[i].stat_size == s);
            }
            assert forall|n: u64| inodes_of_size(y, hb, s).contains(n) implies inodes_of_size(
                x,
                ha,
                s,
            ).contains(n) by {
                let i = choose|i: int|
                    0 <= i < y.len() && i != hb && #[trigger] y[i].stat_size == s
                        && y[i].stat_inode == n;
                assert(x[i].stat_size == s);
            }
            assert(inodes_of_size(x, ha, s) =~= inodes_of_size(y, hb, s));
        }
        assert forall|h: u128| #[trigger]
            b.inode_by_hash.bucket(h) == inodes_of_hash(y, hb, h) by {
            assert(a.inode_by_hash.bucket(h) == inodes_of_hash(x, ha, h));
            assert forall|n: u64| inodes_of_hash(x, ha, h).contains(n) implies inodes_of_hash(
                y,
                hb,
                h,
            ).contains(n) by {
                let i = choose|i: int|
                    0 <= i < x.len() && i != ha && #[trigger] x[i].fast_hash == Some(h)
                        && x[i].stat_inode == n;
                assert(y[i].fast_hash == Some(h));
            }
            assert forall|n: u64| inodes_of_hash(y, hb, h).contains(n) implies inodes_of_hash(
                x,
                ha,
                h,
            ).contains(n) by {
                let i = choose|i: int|
                    0 <= i < y.len() && i != hb && #[trigger] y[i].fast_hash == Some(h)
                        && y[i].stat_inode == n;
                assert(x[i].fast_hash == Some(h));
            }
            assert(inodes_of_hash(x, ha, h) =~= inodes_of_hash(y, hb, h));
        }
        let m = b.by_relative_path@;
        assert forall|i: int| 0 <= i < y.len() && i != hb implies m.contains_key(
            #[trigger] y[i].relative_path,
        ) && m[y[i].relative_path] == i by {
            assert(x[i].relative_path == y[i].relative_path);
        }
        assert forall|p: Seq<char>| #[trigger] m.contains_key(p) implies m[p] < y.len() && m[p]
            != hb && y[m[p] as int].relative_path == p by {
            assert(x[m[p] as int].relative_path == p);
        }
    }

    /// The path map finds exactly the slot that holds a path.
    proof fn lemma_slot_of(&self, path: Seq<char>)
        requires
            self.wf(),
        ensures
            self.by_relative_path@.contains_key(path) <==> slot_of(self@, path) is Some,
            self.by_relative_path@.contains_key(path) ==> slot_of(self@, path) == Some(
                self.by_relative_path@[path] as int,
            ),
            paths_unique(self@),
    {
        let e = self@;
        let m = self.by_relative_path@;
        assert forall|i: int, j: int|
            0 <= i < e.len() && 0 <= j < e.len() && #[trigger] e[i].relative_path
                == #[trigger] e[j].relative_path implies i == j by {
            assert(m[e[i].relative_path] == i);
            assert(m[e[j].relative_path] == j);
        }
        if m.contains_key(path) {
            let k = m[path] as int;
            assert(e[k].relative_path == path);
            let c = choose|i: int| 0 <= i < e.len() && #[trigger] e[i].relative_path == path;
            assert(m[e[c].relative_path] == c);
        } else {
            if exists|i: int| 0 <= i < e.len() && #[trigger] e[i].relative_path == path {
                let c = choose|i: int| 0 <= i < e.len() && #[trigger] e[i].relative_path == path;
                assert(m.contains_key(e[c].relative_path));
            }
        }
    }

    /// Whether a slot other than the hole holds `inode` with the size
    /// `size`.
    fn inode_has_size(&self, inode: u64, size: u64, Ghost(hole): Ghost<int>) -> (r: bool)
        requires
            self.inodes_ok(hole),
        ensures
            r == inodes_of_size(self@, hole, size).contains(inode),
    {
        let items = self.by_inode.items(inode);
        let mut j: usize = 0;
        while j < items.len()
            invariant
                j <= items.len(),
                items@.to_set() == slots_of_inode(self@, hole, inode),
                forall|m: int| 0 <= m < j ==> self@[#[trigger] items@[m] as int].stat_size != size,
            decreases items.len() - j,
        {
            let slot = items[j];
            proof {
                assert(items@.contains(slot));
                assert(slots_of_inode(self@, hole, inode).contains(slot));
            }
            if self.entries[slot].stat_size == size {
                proof {
                    assert(self@[slot as int].stat_size == size);
                }
                return true;
            }
            j += 1;
        }
        proof {
            if inodes_of_size(self@, hole, size).contains(inode) {
                let i = choose|i: int|
                    0 <= i < self@.len() && i != hole && #[trigger] self@[i].stat_size == size
                        && self@[i].stat_inode == inode;
                assert(self@.len() == self.entries.len());
                assert(slots_of_inode(self@, hole, inode).contains(i as usize));
                assert(items@.contains(i as usize));
                let m = choose|m: int| 0 <= m < items@.len() && items@[m] == i as usize;
                assert(self@[items@[m] as int].stat_size != size);
            }
        }
        false
    }

    /// Whether a slot other than the hole holds `inode` with the digest
    /// `hash`.
    fn inode_has_hash(&self, inode: u64, hash: u128, Ghost(hole): Ghost<int>) -> (r: bool)
        requires
            self.inodes_ok(hole),
        ensures
            r == inodes_of_hash(self@, hole, hash).contains(inode),
    {
        let items = self.by_inode.items(inode);
        let mut j: usize = 0;
        while j < items.len()
            invariant
                j <= items.len(),
                items@.to_set() == slots_of_inode(self@, hole, inode),
                forall|m: int|
                    0 <= m < j ==> self@[#[trigger] items@[m] as int].fast_hash != Some(hash),
            decreases items.len() - j,
        {
            let slot = items[j];
            proof {
                assert(items@.contains(slot));
                assert(slots_of_inode(self@, hole, inode).contains(slot));
            }
            if self.entries[slot].fast_hash == Some(hash) {
                proof {
                    assert(self@[slot as int].fast_hash == Some(hash));
                }
                return true;
            }
            j += 1;
        }
        proof {
            if inodes_of_hash(self@, hole, hash).contains(inode) {
                let i = choose|i: int|
                    0 <= i < self@.len() && i != hole && #[trigger] self@[i].fast_hash == Some(
                        hash,
                    ) && self@[i].stat_inode == inode;
                assert(self@.len() == self.entries.len());
                assert(slots_of_inode(self@, hole, inode).contains(i as usize));
                assert(items@.contains(i as usize));
                let m = choose|m: int| 0 <= m < items@.len() && items@[m] == i as usize;
                assert(self@[items@[m] as int].fast_hash != Some(hash));
            }
        }
        false
    }

    /// Takes the slot `k` out of every map.
    fn unindex(&mut self, k: usize)
        requires
            old(self).indexed(-1),
            k < old(self)@.len(),
        ensures
            final(self).indexed(k as int),
            final(self)@ == old(self)@,
            final(self).base() == old(self).base(),
    {
        let size = self.entries[k].stat_size;
        let inode = self.entries[k].stat_inode;
        let hash = self.entries[k].fast_hash;
        let ghost e = self@;
        let ghost path = e[k as int].relative_path;
        let ghost before = *self;

        self.by_relative_path.remove(self.entries[k].relative_path.as_str());
        proof {
            let m0 = before.by_relative_path@;
            let m = self.by_relative_path@;
            assert(m0.contains_key(e[k as int].relative_path));
            assert(m.dom() =~= m0.dom().remove(path));
            assert forall|i: int| 0 <= i < e.len() && i != k implies m.contains_key(
                #[trigger] e[i].relative_path,
            ) && m[e[i].relative_path] == i by {
                assert(m0[e[i].relative_path] == i);
            }
            assert(self.paths_ok(k as int));
        }

        self.by_size.remove(size, k);
        proof {
            assert forall|s: u64| #[trigger]
                self.by_size.bucket(s) == slots_of_size(e, k as int, s) by {
                assert(before.by_size.bucket(s) == slots_of_size(e, -1, s));
                if s == size {
                    assert(slots_of_size(e, -1, s).remove(k) =~= slots_of_size(e, k as int, s));
                } else {
                    assert(slots_of_size(e, -1, s) =~= slots_of_size(e, k as int, s));
                }
            }
        }

        self.by_inode.remove(inode, k);
        proof {
            assert forall|n: u64| #[trigger]
                self.by_inode.bucket(n) == slots_of_inode(e, k as int, n) by {
                assert(before.by_inode.bucket(n) == slots_of_inode(e, -1, n));
                if n == inode {
                    assert(slots_of_inode(e, -1, n).remove(k) =~= slots_of_inode(e, k as int, n));
                } else {
                    assert(slots_of_inode(e, -1, n) =~= slots_of_inode(e, k as int, n));
                }
            }
            assert(self.inodes_ok(k as int));
        }

        match hash {
            Some(h) => {
                self.by_hash.remove(h, k);
            },
            None => {},
        }
        proof {
            assert forall|h: u128| #[trigger]
                self.by_hash.bucket(h) == slots_of_hash(e, k as int, h) by {
                assert(before.by_hash.bucket(h) == slots_of_hash(e, -1, h));
                if hash == Some(h) {
                    assert(slots_of_hash(e, -1, h).remove(k) =~= slots_of_hash(e, k as int, h));
                } else {
                    assert(slots_of_hash(e, -1, h) =~= slots_of_hash(e, k as int, h));
                }
            }
        }

        let size_stays = self.inode_has_size(inode, size, Ghost(k as int));
        if !size_stays {
            self.inode_by_size.remove(size, inode);
        }
        proof {
            assert forall|s: u64| #[trigger]
                self.inode_by_size.bucket(s) == inodes_of_size(e, k as int, s) by {
                assert(before.inode_by_size.bucket(s) == inodes_of_size(e, -1, s));
                Self::lemma_inodes_of_size_hole(e, k as int, s);
            }
        }

        match hash {
            Some(h) => {
                let hash_stays = self.inode_has_hash(inode, h, Ghost(k as int));
                if !hash_stays {
                    self.inode_by_hash.remove(h, inode);
                }
            },
            None => {},
        }
        proof {
            assert forall|h: u128| #[trigger]
                self.inode_by_hash.bucket(h) == inodes_of_hash(e, k as int, h) by {
                assert(before.inode_by_hash.bucket(h) == inodes_of_hash(e, -1, h));
                Self::lemma_inodes_of_hash_hole(e, k as int, h);
            }
        }
    }

    /// What leaving a slot out does to the inodes of a size.
    proof fn lemma_inodes_of_size_hole(e: Seq<FileEntryView>, k: int, s: u64)
        requires
            0 <= k < e.len(),
        ensures
            inodes_of_size(e, -1, s) == if e[k].stat_size == s {
                inodes_of_size(e, k, s).insert(e[k].stat_inode)
            } else {
                inodes_of_size(e, k, s)
            },
    {
        let full = inodes_of_size(e, -1, s);
        let part = inodes_of_size(e, k, s);
        assert forall|n: u64| part.contains(n) implies full.contains(n) by {
            let i = choose|i: int|
                0 <= i < e.len() && i != k && #[trigger] e[i].stat_size == s && e[i].stat_inode
                    == n;
            assert(e[i].stat_size == s);
        }
        assert forall|n: u64| full.contains(n) && !(e[k].stat_size == s && n == e[k].stat_inode)
            implies part.contains(n) by {
            let i = choose|i: int|
                0 <= i < e.len() && i != -1 && #[trigger] e[i].stat_size == s && e[i].stat_inode
                    == n;
            assert(i != k);
        }
        if e[k].stat_size == s {
            assert(full.contains(e[k].stat_inode));
            assert(full =~= part.insert(e[k].stat_inode));
        } else {
            assert(full =~= part);
        }
    }

    /// What leaving a slot out does to the inodes of a digest.
    proof fn lemma_inodes_of_hash_hole(e: Seq<FileEntryView>, k: int, h: u128)
        requires
            0 <= k < e.len(),
        ensures
            inodes_of_hash(e, -1, h) == if e[k].fast_hash == Some(h) {
                inodes_of_hash(e, k, h).insert(e[k].stat_inode)
            } else {
                inodes_of_hash(e, k, h)
            },
    {
        let full = inodes_of_hash(e, -1, h);
        let part = inodes_of_hash(e, k, h);
        assert forall|n: u64| part.contains(n) implies full.contains(n) by {
            let i = choose|i: int|
                0 <= i < e.len() && i != k && #[trigger] e[i].fast_hash == Some(h)
                    && e[i].stat_inode == n;
            assert(e[i].fast_hash == Some(h));
        }
        assert forall|n: u64|
            full.contains(n) && !(e[k].fast_hash == Some(h) && n == e[k].stat_inode)
            implies part.contains(n) by {
            let i = choose|i: int|
                0 <= i < e.len() && i != -1 && #[trigger] e[i].fast_hash == Some(h)
                    && e[i].stat_inode == n;
            assert(i != k);
        }
        if e[k].fast_hash == Some(h) {
            assert(full.contains(e[k].stat_inode));
            assert(full =~= part.insert(e[k].stat_inode));
        } else {
            assert(full =~= part);
        }
    }

    /// Files the slot `k` in every map.
    fn index(&mut self, k: usize)
        requires
            old(self).indexed(k as int),
            k < old(self)@.len(),
            forall|i: int|
                0 <= i < old(self)@.len() && i != k ==> #[trigger] old(self)@[i].relative_path
                    != old(self)@[k as int].relative_path,
        ensures
            final(self).indexed(-1),
            final(self)@ == old(self)@,
            final(self).base() == old(self).base(),
    {
        let size = self.entries[k].stat_size;
        let inode = self.entries[k].stat_inode;
        let hash = self.entries[k].fast_hash;
        let path = self.entries[k].relative_path.clone();
        let ghost e = self@;
        let ghost before = *self;

        self.by_relative_path.insert(path, k);
        proof {
            let m0 = before.by_relative_path@;
            let m = self.by_relative_path@;
            let p = e[k as int].relative_path;
            assert(!m0.contains_key(p)) by {
                if m0.contains_key(p) {
                    assert(e[m0[p] as int].relative_path == p);
                }
            }
            assert(m.dom() =~= m0.dom().insert(p));
            assert forall|i: int| 0 <= i < e.len() implies m.contains_key(
                #[trigger] e[i].relative_path,
            ) && m[e[i].relative_path] == i by {
                if i != k {
                    assert(m0[e[i].relative_path] == i);
                }
            }
            assert forall|q: Seq<char>| #[trigger] m.contains_key(q) implies m[q] < e.len()
                && e[m[q] as int].relative_path == q by {
                if q != p {
                    assert(m0.contains_key(q));
                }
            }
            assert(self.paths_ok(-1));
        }

        self.by_size.insert(size, k);
        proof {
            assert forall|s: u64| #[trigger] self.by_size.bucket(s) == slots_of_size(e, -1, s) by {
                assert(before.by_size.bucket(s) == slots_of_size(e, k as int, s));
                if s == size {
                    assert(slots_of_size(e, k as int, s).insert(k) =~= slots_of_size(e, -1, s));
                } else {
                    assert(slots_of_size(e, k as int, s) =~= slots_of_size(e, -1, s));
                }
            }
        }

        self.by_inode.insert(inode, k);
        proof {
            assert forall|n: u64| #[trigger]
                self.by_inode.bucket(n) == slots_of_inode(e, -1, n) by {
                assert(before.by_inode.bucket(n) == slots_of_inode(e, k as int, n));
                if n == inode {
                    assert(slots_of_inode(e, k as int, n).insert(k) =~= slots_of_inode(e, -1, n));
                } else {
                    assert(slots_of_inode(e, k as int, n) =~= slots_of_inode(e, -1, n));
                }
            }
        }

        self.inode_by_size.insert(size, inode);
        proof {
            assert forall|s: u64| #[trigger]
                self.inode_by_size.bucket(s) == inodes_of_size(e, -1, s) by {
                assert(before.inode_by_size.bucket(s) == inodes_of_size(e, k as int, s));
                Self::lemma_inodes_of_size_hole(e, k as int, s);
            }
        }

        match hash {
            Some(h) => {
                self.by_hash.insert(h, k);
                self.inode_by_hash.insert(h, inode);
            },
            None => {},
        }
        proof {
            assert forall|h: u128| #[trigger] self.by_hash.bucket(h) == slots_of_hash(e, -1, h) by {
                assert(before.by_hash.bucket(h) == slots_of_hash(e, k as int, h));
                if hash == Some(h) {
                    assert(slots_of_hash(e, k as int, h).insert(k) =~= slots_of_hash(e, -1, h));
                } else {
                    assert(slots_of_hash(e, k as int, h) =~= slots_of_hash(e, -1, h));
                }
            }
            assert forall|h: u128| #[trigger]
                self.inode_by_hash.bucket(h) == inodes_of_hash(e, -1, h) by {
                assert(before.inode_by_hash.bucket(h) == inodes_of_hash(e, k as int, h));
                Self::lemma_inodes_of_hash_hole(e, k as int, h);
            }
        }
    }

    /// Files an entry under its path: a new path takes the next slot, a
    /// known path keeps its slot and gets the entry, unless the entry has no
    /// digest and says nothing new. Returns the entry that the path now has.
    pub fn update_file_entry(&mut self, file_entry: &FileEntry) -> (r: FileEntry)
        requires
            old(self).wf(),
        ensures
            final(self).wf(),
            final(self)@ == upsert(old(self)@, file_entry@),
            final(self).base() == old(self).base(),
            entry_of(final(self)@, file_entry@.relative_path) == Some(r@),
    {
        let ghost e0 = self@;
        let ghost before = *self;
        let ghost path = file_entry@.relative_path;
        proof {
            self.lemma_slot_of(path);
        }
        let found: Option<usize> = match self.by_relative_path.get(
            file_entry.relative_path.as_str(),
        ) {
            Some(i) => Some(*i),
            None => None,
        };
        let idx = match found {
            Some(k) => {
                if file_entry.eq_except_hash(&self.entries[k]) && file_entry.fast_hash.is_none() {
                    return self.entries[k].clone();
                }
                self.unindex(k);
                let ghost holed = *self;
                self.entries.set(k, file_entry.clone());
                proof {
                    assert(self@ =~= e0.update(k as int, file_entry@));
                    Self::lemma_same_live(holed, *self, k as int, k as int);
                }
                k
            },
            None => {
                let n = self.entries.len();
                self.entries.push(file_entry.clone());
                proof {
                    assert(self@ =~= e0.push(file_entry@));
                    Self::lemma_same_live(before, *self, -1, n as int);
                }
                n
            },
        };
        self.index(idx);
        proof {
            let e1 = self@;
            assert(e1[idx as int].relative_path == path);
            self.lemma_slot_of(path);
        }
        self.entries[idx].clone()
    }

    /// The entry filed under a relative path.
    pub fn get_by_relative_path(&self, relative_path: &str) -> (r: Option<&FileEntry>)
        requires
            self.wf(),
        ensures
            r matches Some(e) ==> entry_of(self@, relative_path@) == Some(e@),
            r is None ==> entry_of(self@, relative_path@) is None,
    {
        proof {
            self.lemma_slot_of(relative_path@);
        }
        match self.by_relative_path.get(relative_path) {
            Some(i) => Some(&self.entries[*i]),
            None => None,
        }
    }

    /// The base path.
    pub fn base_dir(&self) -> (r: &str)
        ensures
            r@ == self.base(),
    {
        self.base_path.as_str()
    }

    /// The number of entries.
    pub fn len(&self) -> (r: usize)
        ensures
            r == self@.len(),
    {
        self.entries.len()
    }

    /// The entries in the order of their slots.
    pub fn entries(&self) -> (r: &Vec<FileEntry>)
        ensures
            r@.map_values(|e: FileEntry| e@) == self@,
    {
        &self.entries
    }

    /// The entry in a slot.
    pub fn entry(&self, slot: usize) -> (r: &FileEntry)
        requires
            slot < self@.len(),
        ensures
            r@ == self@[slot as int],
    {
        &self.entries[slot]
    }

    /// The slot that holds a relative path.
    pub fn slot_of_path(&self, relative_path: &str) -> (r: Option<usize>)
        requires
            self.wf(),
        ensures
            r matches Some(k) ==> slot_of(self@, relative_path@) == Some(k as int) && k
                < self@.len() && self@[k as int].relative_path == relative_path@,
            r is None ==> slot_of(self@, relative_path@) is None,
            r is None ==> forall|i: int|
                0 <= i < self@.len() ==> #[trigger] self@[i].relative_path != relative_path@,
    {
        proof {
            self.lemma_slot_of(relative_path@);
        }
        match self.by_relative_path.get(relative_path) {
            Some(i) => Some(*i),
            None => None,
        }
    }

    /// The slots of the entries of a size, each once, in no particular
    /// order.
    pub fn slots_by_size(&self, size: u64) -> (r: Vec<usize>)
        requires
            self.wf(),
        ensures
            r@.no_duplicates(),
            r@.to_set() == slots_of_size(self@, -1, size),
    {
        self.by_size.items(size)
    }

    /// The slots of the entries of an inode, each once, in no particular
    /// order.
    pub fn slots_by_inode(&self, inode: u64) -> (r: Vec<usize>)
        requires
            self.wf(),
        ensures
            r@.no_duplicates(),
            r@.to_set() == slots_of_inode(self@, -1, inode),
    {
        self.by_inode.items(inode)
    }

    /// The slots of the entries of a digest, each once, in no particular
    /// order.
    pub fn slots_by_hash(&self, hash: u128) -> (r: Vec<usize>)
        requires
            self.wf(),
        ensures
            r@.no_duplicates(),
            r@.to_set() == slots_of_hash(self@, -1, hash),
    {
        self.by_hash.items(hash)
    }

    /// The inodes of the entries of a size, each once, in no particular
    /// order.
    pub fn inodes_by_size(&self, size: u64) -> (r: Vec<u64>)
        requires
            self.wf(),
        ensures
            r@.no_duplicates(),
            r@.to_set() == inodes_of_size(self@, -1, size),
    {
        self.inode_by_size.items(size)
    }

    /// The inodes of the entries of a digest, each once, in no particular
    /// order.
    pub fn inodes_by_hash(&self, hash: u128) -> (r: Vec<u64>)
        requires
            self.wf(),
        ensures
            r@.no_duplicates(),
            r@.to_set() == inodes_of_hash(self@, -1, hash),
    {
        self.inode_by_hash.items(hash)
    }

    /// The sizes that entries have, each once, in no particular order.
    pub fn sizes(&self) -> (r: Vec<u64>)
        requires
            self.wf(),
        ensures
            r@.no_duplicates(),
            r@.to_set() == sizes_of(self@),
    {
        proof {
            self.lemma_keys();
        }
        self.by_size.key_list()
    }

    /// The inodes that entries have, each once, in no particular order.
    pub fn inodes(&self) -> (r: Vec<u64>)
        requires
            self.wf(),
        ensures
            r@.no_duplicates(),
            r@.to_set() == inodes_of(self@),
    {
        proof {
            self.lemma_keys();
        }
        self.by_inode.key_list()
    }

    /// The slot of some entry of an inode, if there is one.
    pub fn slot_of_inode(&self, inode: u64) -> (r: Option<usize>)
        requires
            self.wf(),
        ensures
            r matches Some(j) ==> j < self@.len() && self@[j as int].stat_inode == inode,
            r is None ==> !inodes_of(self@).contains(inode),
    {
        let r = self.by_inode.any(inode);
        proof {
            assert(self.by_inode.bucket(inode) == slots_of_inode(self@, -1, inode));
            assert(self@.len() == self.entries.len());
            match r {
                Some(j) => {
                    assert(slots_of_inode(self@, -1, inode).contains(j));
                },
                None => {
                    if inodes_of(self@).contains(inode) {
                        let i = choose|i: int|
                            0 <= i < self@.len() && #[trigger] self@[i].stat_inode == inode;
                        assert(slots_of_inode(self@, -1, inode).contains(i as usize));
                    }
                },
            }
        }
        r
    }

    /// The number of paths in the path map: one for each entry.
    pub fn by_relative_path_len(&self) -> (r: usize)
        requires
            self.wf(),
        ensures
            r == self@.len(),
    {
        broadcast use vstd::hash_map::group_hash_map_axioms;

        self.by_relative_path.len()
    }

    /// The number of sizes that entries have.
    pub fn by_size_len(&self) -> (r: usize)
        requires
            self.wf(),
        ensures
            r == sizes_of(self@).len(),
    {
        proof {
            self.lemma_keys();
        }
        self.by_size.len()
    }

    /// The number of inodes that entries have.
    pub fn by_inode_len(&self) -> (r: usize)
        requires
            self.wf(),
        ensures
            r == inodes_of(self@).len(),
    {
        proof {
            self.lemma_keys();
        }
        self.by_inode.len()
    }

    /// The number of digests that entries have.
    pub fn by_hash_len(&self) -> (r: usize)
        requires
            self.wf(),
        ensures
            r == hashes_of(self@).len(),
    {
        proof {
            self.lemma_keys();
        }
        self.by_hash.len()
    }

    /// The number of sizes under which inodes are filed: the number of
    /// sizes that entries have.
    pub fn inode_by_size_len(&self) -> (r: usize)
        requires
            self.wf(),
        ensures
            r == sizes_of(self@).len(),
    {
        proof {
            self.lemma_keys();
        }
        self.inode_by_size.len()
    }

    /// The number of digests under which inodes are filed: the number of
    /// digests that entries have.
    pub fn inode_by_hash_len(&self) -> (r: usize)
        requires
            self.wf(),
        ensures
            r == hashes_of(self@).len(),
    {
        proof {
            self.lemma_keys();
        }
        self.inode_by_hash.len()
    }

    /// The keys of each map are what the entries have of that kind.
    proof fn lemma_keys(&self)
        requires
            self.wf(),
        ensures
            self.by_size.keys() == sizes_of(self@),
            self.by_inode.keys() == inodes_of(self@),
            self.by_hash.keys() == hashes_of(self@),
            self.inode_by_size.keys() == sizes_of(self@),
            self.inode_by_hash.keys() == hashes_of(self@),
    {
        let e = self@;
        assert(e.len() == self.entries.len());
        assert forall|s: u64| self.by_size.keys().contains(s) == sizes_of(e).contains(s) by {
            self.by_size.lemma_keys(s);
            assert(self.by_size.bucket(s) == slots_of_size(e, -1, s));
            if sizes_of(e).contains(s) {
                let i = choose|i: int| 0 <= i < e.len() && #[trigger] e[i].stat_size == s;
                assert(slots_of_size(e, -1, s).contains(i as usize));
            }
            if self.by_size.keys().contains(s) {
                let v = choose|v: usize| self.by_size.bucket(s).contains(v);
                assert(e[v as int].stat_size == s);
            }
        }
        assert(self.by_size.keys() =~= sizes_of(e));
        assert forall|n: u64| self.by_inode.keys().contains(n) == inodes_of(e).contains(n) by {
            self.by_inode.lemma_keys(n);
            assert(self.by_inode.bucket(n) == slots_of_inode(e, -1, n));
            if inodes_of(e).contains(n) {
                let i = choose|i: int| 0 <= i < e.len() && #[trigger] e[i].stat_inode == n;
                assert(slots_of_inode(e, -1, n).contains(i as usize));
            }
            if self.by_inode.keys().contains(n) {
                let v = choose|v: usize| self.by_inode.bucket(n).contains(v);
                assert(e[v as int].stat_inode == n);
            }
        }
        assert(self.by_inode.keys() =~= inodes_of(e));
        assert forall|h: u128| self.by_hash.keys().contains(h) == hashes_of(e).contains(h) by {
            self.by_hash.lemma_keys(h);
            assert(self.by_hash.bucket(h) == slots_of_hash(e, -1, h));
            if hashes_of(e).contains(h) {
                let i = choose|i: int| 0 <= i < e.len() && #[trigger] e[i].fast_hash == Some(h);
                assert(slots_of_hash(e, -1, h).contains(i as usize));
            }
            if self.by_hash.keys().contains(h) {
                let v = choose|v: usize| self.by_hash.bucket(h).contains(v);
                assert(e[v as int].fast_hash == Some(h));
            }
        }
        assert(self.by_hash.keys() =~= hashes_of(e));
        assert forall|s: u64|
            self.inode_by_size.keys().contains(s) == sizes_of(e).contains(s) by {
            self.inode_by_size.lemma_keys(s);
            assert(self.inode_by_size.bucket(s) == inodes_of_size(e, -1, s));
            if sizes_of(e).contains(s) {
                let i = choose|i: int| 0 <= i < e.len() && #[trigger] e[i].stat_size == s;
                assert(inodes_of_size(e, -1, s).contains(e[i].stat_inode));
            }
            if self.inode_by_size.keys().contains(s) {
                let n = choose|n: u64| self.inode_by_size.bucket(s).contains(n);
                let i = choose|i: int|
                    0 <= i < e.len() && i != -1 && #[trigger] e[i].stat_size == s
                        && e[i].stat_inode == n;
                assert(e[i].stat_size == s);
            }
        }
        assert(self.inode_by_size.keys() =~= sizes_of(e));
        assert forall|h: u128|
            self.inode_by_hash.keys().contains(h) == hashes_of(e).contains(h) by {
            self.inode_by_hash.lemma_keys(h);
            assert(self.inode_by_hash.bucket(h) == inodes_of_hash(e, -1, h));
            if hashes_of(e).contains(h) {
                let i = choose|i: int| 0 <= i < e.len() && #[trigger] e[i].fast_hash == Some(h);
                assert(inodes_of_hash(e, -1, h).contains(e[i].stat_inode));
            }
            if self.inode_by_hash.keys().contains(h) {
                let n = choose|n: u64| self.inode_by_hash.bucket(h).contains(n);
                let i = choose|i: int|
                    0 <= i < e.len() && i != -1 && #[trigger] e[i].fast_hash == Some(h)
                        && e[i].stat_inode == n;
                assert(e[i].fast_hash == Some(h));
            }
        }
        assert(self.inode_by_hash.keys() =~= hashes_of(e));
    }

    /// The map from relative path to slot.
    pub closed spec fn path_map(&self) -> Map<Seq<char>, usize> {
        self.by_relative_path@
    }

    /// The slots filed under a size.
    pub closed spec fn by_size(&self, size: u64) -> Set<usize> {
        self.by_size.bucket(size)
    }

    /// The slots filed under an inode.
    pub closed spec fn by_inode(&self, inode: u64) -> Set<usize> {
        self.by_inode.bucket(inode)
    }

    /// The slots filed under a digest.
    pub closed spec fn by_hash(&self, hash: u128) -> Set<usize> {
        self.by_hash.bucket(hash)
    }

    /// The inodes filed under a size.
    pub closed spec fn inode_by_size(&self, size: u64) -> Set<u64> {
        self.inode_by_size.bucket(size)
    }

    /// The inodes filed under a digest.
    pub closed spec fn inode_by_hash(&self, hash: u128) -> Set<u64> {
        self.inode_by_hash.bucket(hash)
    }

    /// What a well-formed index holds in its maps: under each key exactly
    /// the slots, or the inodes, of the entries that have it.
    pub proof fn lemma_maps(&self)
        requires
            self.wf(),
        ensures
            forall|s: u64| #[trigger] self.by_size(s) == slots_of_size(self@, -1, s),
            forall|n: u64| #[trigger] self.by_inode(n) == slots_of_inode(self@, -1, n),
            forall|h: u128| #[trigger] self.by_hash(h) == slots_of_hash(self@, -1, h),
            forall|s: u64| #[trigger] self.inode_by_size(s) == inodes_of_size(self@, -1, s),
            forall|h: u128| #[trigger] self.inode_by_hash(h) == inodes_of_hash(self@, -1, h),
    {
    }

    /// The path map is one to one between the paths of the entries and
    /// their slots.
    pub proof fn lemma_path_bijection(&self)
        requires
            self.wf(),
        ensures
            paths_unique(self@),
            forall|i: int|
                0 <= i < self@.len() ==> self.path_map().contains_key(
                    #[trigger] self@[i].relative_path,
                ) && self.path_map()[self@[i].relative_path] == i,
            forall|p: Seq<char>| #[trigger]
                self.path_map().contains_key(p) ==> self.path_map()[p] < self@.len()
                    && self@[self.path_map()[p] as int].relative_path == p,
            self.path_map().dom().finite(),
            self.path_map().dom().len() == self@.len(),
    {
        if self@.len() > 0 {
            self.lemma_slot_of(self@[0].relative_path);
        } else {
            assert(paths_unique(self@));
        }
    }

    /// Where the entries pass the audit, a size under which more than one
    /// inode is filed has a digest in each of its entries.
    pub proof fn lemma_hashing_obligation(&self, size: u64, slot: usize)
        requires
            self.wf(),
            crate::audit::hashing_obligation(self@),
            self.inode_by_size(size).len() > 1,
            self.by_size(size).contains(slot),
        ensures
            slot < self@.len(),
            self@[slot as int].stat_size == size,
            self@[slot as int].fast_hash is Some,
    {
        let e = self@;
        let inodes = self.inode_by_size.bucket(size);
        self.inode_by_size.lemma_keys(size);
        assert(inodes == inodes_of_size(e, -1, size));
        assert(self.by_size.bucket(size) == slots_of_size(e, -1, size));
        let a = inodes.choose();
        assert(inodes.contains(a));
        let rest = inodes.remove(a);
        assert(rest.len() == inodes.len() - 1);
        let b = rest.choose();
        assert(rest.contains(b));
        let i = choose|i: int|
            0 <= i < e.len() && i != -1 && #[trigger] e[i].stat_size == size && e[i].stat_inode
                == a;
        let j = choose|j: int|
            0 <= j < e.len() && j != -1 && #[trigger] e[j].stat_size == size && e[j].stat_inode
                == b;
        let k = slot as int;
        assert(e[k].stat_size == e[i].stat_size && e[k].stat_inode != e[i].stat_inode
            ==> e[k].fast_hash is Some);
        assert(e[k].stat_size == e[j].stat_size && e[k].stat_inode != e[j].stat_inode
            ==> e[k].fast_hash is Some);
    }

    /// An index without entries.
    pub fn new(base_path: &str) -> (r: Self)
        ensures
            r.wf(),
            r@ == Seq::<FileEntryView>::empty(),
            r.base() == base_path@,
    {
        let r = FilesIndex {
            base_path: base_path.to_owned(),
            entries: Vec::new(),
            by_relative_path: StringHashMap::new(),
            by_size: Buckets::new(),
            by_inode: Buckets::new(),
            by_hash: Buckets::new(),
            inode_by_size: Buckets::new(),
            inode_by_hash: Buckets::new(),
        };
        proof {
            assert(r@ =~= Seq::<FileEntryView>::empty());
            assert forall|s: u64| #[trigger] r.by_size.bucket(s) == slots_of_size(r@, -1, s) by {
                assert(slots_of_size(r@, -1, s) =~= Set::<usize>::empty());
            }
            assert forall|n: u64| #[trigger]
                r.by_inode.bucket(n) == slots_of_inode(r@, -1, n) by {
                assert(slots_of_inode(r@, -1, n) =~= Set::<usize>::empty());
            }
            assert forall|h: u128| #[trigger] r.by_hash.bucket(h) == slots_of_hash(r@, -1, h) by {
                assert(slots_of_hash(r@, -1, h) =~= Set::<usize>::empty());
            }
            assert forall|s: u64| #[trigger]
                r.inode_by_size.bucket(s) == inodes_of_size(r@, -1, s) by {
                assert(inodes_of_size(r@, -1, s) =~= Set::<u64>::empty());
            }
            assert forall|h: u128| #[trigger]
                r.inode_by_hash.bucket(h) == inodes_of_hash(r@, -1, h) by {
                assert(inodes_of_hash(r@, -1, h) =~= Set::<u64>::empty());
            }
            assert(r.by_relative_path@.dom() =~= Set::<Seq<char>>::empty());
        }
        r
    }
}

} // verus!
