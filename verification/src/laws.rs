//! What holds of every admission: the audit keeps passing, no bytes are
//! lost, and a file admitted twice is admitted once.

use crate::admission::admit_outcome;
use crate::admission::attach;
use crate::admission::is_candidate;
use crate::audit::audit;
use crate::audit::hash_coherent;
use crate::audit::inode_equivalence;
use crate::error::Result;
use crate::file_entry::FileEntry;
use crate::file_entry::FileEntryView;
use crate::files_index::entry_of;
use crate::files_index::paths_unique;
use crate::files_index::slot_of;
use crate::files_index::upsert;
use crate::fs::contents_of;
use crate::fs::FileNode;
use crate::link::link_outcome;
use vstd::prelude::*;

verus! {

/// The index holds the inode of `f` under no other size than that of `f`.
pub open spec fn size_agrees(e: Seq<FileEntryView>, f: FileEntryView) -> bool {
    forall|j: int|
        0 <= j < e.len() && (#[trigger] e[j]).stat_inode == f.stat_inode ==> e[j].stat_size
            == f.stat_size
}

/// Filing `f` under an inode that the index holds leaves no entry of its
/// size without a digest that needs one: every candidate for `f` either has
/// the inode of `f`, or has a digest as all entries of that inode have.
pub open spec fn digests_suffice(e: Seq<FileEntryView>, f: FileEntryView) -> bool {
    forall|c: int, j: int|
        #![trigger is_candidate(e, f, c), e[j]]
        is_candidate(e, f, c) && e[c].stat_inode != f.stat_inode && 0 <= j < e.len()
            && e[j].stat_inode == f.stat_inode ==> e[c].fast_hash is Some && e[j].fast_hash
            is Some
}

/// Digests suffice where the audit passes and the index holds the inode of
/// `f` under no other size.
pub proof fn lemma_size_agrees(e: Seq<FileEntryView>, f: FileEntryView)
    requires
        audit(e),
        size_agrees(e, f),
    ensures
        digests_suffice(e, f),
{
    assert forall|c: int, j: int|
        #![trigger is_candidate(e, f, c), e[j]]
        is_candidate(e, f, c) && e[c].stat_inode != f.stat_inode && 0 <= j < e.len()
            && e[j].stat_inode == f.stat_inode implies e[c].fast_hash is Some && e[j].fast_hash
        is Some by {
        assert(e[j].stat_size == f.stat_size);
        assert(e[c].stat_size == e[j].stat_size && e[c].stat_inode != e[j].stat_inode
            ==> e[c].fast_hash is Some);
        assert(e[j].stat_size == e[c].stat_size && e[j].stat_inode != e[c].stat_inode
            ==> e[j].fast_hash is Some);
    }
}

/// The slot in which `f` is filed: that of its path, or the next free one.
pub open spec fn filed_slot(e: Seq<FileEntryView>, f: FileEntryView) -> int {
    match slot_of(e, f.relative_path) {
        Some(k) => k,
        None => e.len() as int,
    }
}

/// Filing an entry touches one slot and leaves the others as they are.
pub proof fn lemma_upsert_shape(e: Seq<FileEntryView>, f: FileEntryView)
    requires
        paths_unique(e),
    ensures
        ({
            let s = filed_slot(e, f);
            let e2 = upsert(e, f);
            &&& 0 <= s <= e.len()
            &&& e2.len() == if s == e.len() {
                e.len() + 1
            } else {
                e.len()
            }
            &&& e2[s].relative_path == f.relative_path
            &&& e2[s] == f || (s < e.len() && e2 == e && f.eq_except_hash(e[s]) && f.fast_hash
                is None)
            &&& forall|j: int|
                0 <= j < e2.len() && j != s ==> j < e.len() && #[trigger] e2[j] == e[j]
                    && e[j].relative_path != f.relative_path
            &&& forall|j: int|
                0 <= j < e.len() && j != s ==> (#[trigger] e[j]).relative_path != f.relative_path
            &&& paths_unique(e2)
            &&& entry_of(e2, f.relative_path) == Some(e2[s])
        }),
{
    if exists|i: int| 0 <= i < e.len() && #[trigger] e[i].relative_path == f.relative_path {
        let k = choose|i: int| 0 <= i < e.len() && #[trigger] e[i].relative_path == f.relative_path;
        crate::files_index::lemma_upsert_known(e, k, f);
        let e2 = upsert(e, f);
        assert forall|j: int| 0 <= j < e2.len() && j != k implies j < e.len() && #[trigger] e2[j]
            == e[j] && e[j].relative_path != f.relative_path by {
            assert(e[j].relative_path == e[j].relative_path);
            if e[j].relative_path == f.relative_path {
                assert(e[j].relative_path == e[k].relative_path);
            }
        }
        assert forall|j: int| 0 <= j < e.len() && j != k implies (#[trigger] e[j]).relative_path
            != f.relative_path by {
            if e[j].relative_path == f.relative_path {
                assert(e[j].relative_path == e[k].relative_path);
            }
        }
    } else {
        crate::files_index::lemma_upsert_new(e, f);
        let e2 = upsert(e, f);
        assert forall|j: int| 0 <= j < e.len() implies (#[trigger] e[j]).relative_path
            != f.relative_path by {
            assert(e[j].relative_path == e[j].relative_path);
        }
    }
}

/// Filing an entry keeps the audit passing where the entry agrees with the
/// entries under other paths: on the digest with those of its inode, and on
/// having a digest with those of its size and another inode.
pub proof fn lemma_filed_audit(e: Seq<FileEntryView>, x: FileEntryView)
    requires
        audit(e),
        forall|j: int|
            0 <= j < e.len() && (#[trigger] e[j]).relative_path != x.relative_path
                && e[j].stat_inode == x.stat_inode ==> e[j].fast_hash == x.fast_hash,
        forall|j: int|
            0 <= j < e.len() && (#[trigger] e[j]).relative_path != x.relative_path
                && e[j].stat_size == x.stat_size && e[j].stat_inode != x.stat_inode
                ==> e[j].fast_hash is Some && x.fast_hash is Some,
    ensures
        audit(upsert(e, x)),
{
    lemma_upsert_shape(e, x);
    let s = filed_slot(e, x);
    let e2 = upsert(e, x);
    if e2 != e {
        assert(e2[s] == x);
        assert forall|i: int, j: int|
            #![trigger e2[i], e2[j]]
            0 <= i < e2.len() && 0 <= j < e2.len() && e2[i].stat_inode == e2[j].stat_inode
            implies e2[i].fast_hash == e2[j].fast_hash by {
            if i != s {
                assert(e2[i] == e[i]);
            }
            if j != s {
                assert(e2[j] == e[j]);
            }
        }
        assert forall|i: int, j: int|
            #![trigger e2[i], e2[j]]
            0 <= i < e2.len() && 0 <= j < e2.len() && e2[i].stat_size == e2[j].stat_size
                && e2[i].stat_inode != e2[j].stat_inode implies e2[i].fast_hash is Some by {
            if i != s {
                assert(e2[i] == e[i]);
            }
            if j != s {
                assert(e2[j] == e[j]);
            }
        }
    }
}

/// Giving one digest to all entries of an inode keeps the audit passing.
pub proof fn lemma_attach_audit(e: Seq<FileEntryView>, inode: u64, hash: u128)
    requires
        audit(e),
    ensures
        audit(attach(e, inode, hash)),
        attach(e, inode, hash).len() == e.len(),
        forall|j: int|
            0 <= j < e.len() ==> (#[trigger] attach(e, inode, hash)[j]).with_hash(None)
                == e[j].with_hash(None),
{
    let a = attach(e, inode, hash);
    assert forall|i: int, j: int|
        0 <= i < a.len() && 0 <= j < a.len() && #[trigger] a[i].relative_path
            == #[trigger] a[j].relative_path implies i == j by {
        assert(e[i].relative_path == e[j].relative_path);
    }
    assert forall|i: int, j: int|
        #![trigger a[i], a[j]]
        0 <= i < a.len() && 0 <= j < a.len() && a[i].stat_inode == a[j].stat_inode
        implies a[i].fast_hash == a[j].fast_hash by {
        assert(e[i].stat_inode == e[j].stat_inode ==> e[i].fast_hash == e[j].fast_hash);
    }
    assert forall|i: int, j: int|
        #![trigger a[i], a[j]]
        0 <= i < a.len() && 0 <= j < a.len() && a[i].stat_size == a[j].stat_size
            && a[i].stat_inode != a[j].stat_inode implies a[i].fast_hash is Some by {
        assert(e[i].stat_size == e[j].stat_size && e[i].stat_inode != e[j].stat_inode
            ==> e[i].fast_hash is Some);
    }
}

/// A link keeps the audit passing where the existing entry is one of the
/// index, and every entry of the size under another path either has its
/// inode or has a digest.
proof fn lemma_link_audit(
    e: Seq<FileEntryView>,
    files: Map<Seq<char>, FileNode>,
    base: Seq<char>,
    read_only: bool,
    c: int,
    new: FileEntryView,
    e2: Seq<FileEntryView>,
    files2: Map<Seq<char>, FileNode>,
    r: Result<FileEntry>,
)
    requires
        audit(e),
        0 <= c < e.len(),
        e[c].stat_size == new.stat_size,
        e[c].fast_hash == new.fast_hash,
        new.fast_hash is Some,
        forall|j: int| 0 <= j < e.len() ==> (#[trigger] e[j]).stat_inode != new.stat_inode,
        forall|j: int|
            0 <= j < e.len() && (#[trigger] e[j]).relative_path != new.relative_path
                && e[j].stat_size == new.stat_size ==> e[j].fast_hash is Some || e[j].stat_inode
                == e[c].stat_inode,
        link_outcome(e, files, base, read_only, e[c], new, e2, files2, r),
    ensures
        audit(e2),
{
    if read_only {
        lemma_filed_audit(e, new);
    } else {
        match r {
            Ok(x) => {
                let v = x@;
                assert(v.fast_hash == new.fast_hash);
                assert(v.relative_path == new.relative_path);
                assert forall|j: int|
                    0 <= j < e.len() && (#[trigger] e[j]).relative_path != v.relative_path
                        && e[j].stat_inode == v.stat_inode implies e[j].fast_hash
                    == v.fast_hash by {
                    assert(e[j].stat_inode == e[c].stat_inode ==> e[j].fast_hash
                        == e[c].fast_hash);
                }
                assert forall|j: int|
                    0 <= j < e.len() && (#[trigger] e[j]).relative_path != v.relative_path
                        && e[j].stat_size == v.stat_size && e[j].stat_inode != v.stat_inode
                    implies e[j].fast_hash is Some && v.fast_hash is Some by {}
                lemma_filed_audit(e, v);
            },
            Err(_) => {},
        }
    }
}

/// After an admission the audit passes, provided that it passed before
/// and that, where the index held the inode of the admitted file, the
/// digests that it held sufficed.
pub proof fn lemma_admission_keeps_audit(
    e: Seq<FileEntryView>,
    files: Map<Seq<char>, FileNode>,
    base: Seq<char>,
    read_only: bool,
    f: FileEntryView,
    e2: Seq<FileEntryView>,
    files2: Map<Seq<char>, FileNode>,
    r: Result<FileEntry>,
)
    requires
        audit(e),
        crate::files_index::inodes_of(e).contains(f.stat_inode) ==> digests_suffice(e, f),
        admit_outcome(e, files, base, read_only, f, e2, files2, r),
    ensures
        audit(e2),
{
    if crate::files_index::inodes_of(e).contains(f.stat_inode) {
        let j0 = choose|j: int|
            0 <= j < e.len() && #[trigger] e[j].stat_inode == f.stat_inode && e2 == upsert(
                e,
                f.with_hash(e[j].fast_hash),
            );
        let x = f.with_hash(e[j0].fast_hash);
        assert forall|j: int|
            0 <= j < e.len() && (#[trigger] e[j]).relative_path != x.relative_path
                && e[j].stat_inode == x.stat_inode implies e[j].fast_hash == x.fast_hash by {
            assert(e[j].stat_inode == e[j0].stat_inode ==> e[j].fast_hash == e[j0].fast_hash);
        }
        assert forall|j: int|
            0 <= j < e.len() && (#[trigger] e[j]).relative_path != x.relative_path
                && e[j].stat_size == x.stat_size && e[j].stat_inode != x.stat_inode
            implies e[j].fast_hash is Some && x.fast_hash is Some by {
            assert(is_candidate(e, f, j));
            assert(e[j0].stat_inode == f.stat_inode);
        }
        lemma_filed_audit(e, x);
    } else {
        assert forall|j: int| 0 <= j < e.len() implies (#[trigger] e[j]).stat_inode
            != f.stat_inode by {
            if e[j].stat_inode == f.stat_inode {
                assert(crate::files_index::inodes_of(e).contains(f.stat_inode));
            }
        }
        if forall|i: int| !is_candidate(e, f, i) {
            assert forall|j: int|
                0 <= j < e.len() && (#[trigger] e[j]).relative_path != f.relative_path
                    && e[j].stat_size == f.stat_size && e[j].stat_inode != f.stat_inode
                implies e[j].fast_hash is Some && f.fast_hash is Some by {
                assert(is_candidate(e, f, j));
            }
            lemma_filed_audit(e, f);
        } else if crate::admission::one_candidate_inode(e, f) {
            let c = choose|c: int| #[trigger]
                crate::admission::is_first_candidate(e, f, c) && crate::admission::single_outcome(
                    e,
                    files,
                    base,
                    read_only,
                    f,
                    c,
                    e2,
                    files2,
                    r,
                );
            if !(r is Err && e2 == e && files2 == files) {
                let dc = crate::digest::murmur3_x64_128(crate::admission::data_of(files, base, e[c]));
                let dn = crate::digest::murmur3_x64_128(crate::admission::data_of(files, base, f));
                let hashed = attach(e, e[c].stat_inode, dc);
                let new = f.with_hash(Some(dn));
                lemma_attach_audit(e, e[c].stat_inode, dc);
                assert forall|j: int|
                    0 <= j < hashed.len() && (#[trigger] hashed[j]).relative_path
                        != new.relative_path && hashed[j].stat_size == new.stat_size
                    implies hashed[j].fast_hash is Some && hashed[j].stat_inode
                    == e[c].stat_inode by {
                    assert(is_candidate(e, f, j));
                    assert(e[j].stat_inode == e[c].stat_inode);
                }
                if crate::admission::data_of(files, base, e[c]) == crate::admission::data_of(
                    files,
                    base,
                    f,
                ) {
                    assert(hashed[c] == e[c].with_hash(Some(dc)));
                    assert forall|j: int| 0 <= j < hashed.len() implies (#[trigger] hashed[j]).stat_inode
                        != new.stat_inode by {
                        assert(e[j].stat_inode != f.stat_inode);
                    }
                    lemma_link_audit(hashed, files, base, read_only, c, new, e2, files2, r);
                } else {
                    assert forall|j: int|
                        0 <= j < hashed.len() && (#[trigger] hashed[j]).relative_path
                            != new.relative_path && hashed[j].stat_inode == new.stat_inode
                        implies hashed[j].fast_hash == new.fast_hash by {
                        assert(e[j].stat_inode != f.stat_inode);
                    }
                    lemma_filed_audit(hashed, new);
                }
            }
        } else {
            if !(r is Err && e2 == e && files2 == files) {
                let dn = crate::digest::murmur3_x64_128(crate::admission::data_of(files, base, f));
                let new = f.with_hash(Some(dn));
                let (a, b) = choose|a: int, b: int|
                    #[trigger] is_candidate(e, f, a) && #[trigger] is_candidate(e, f, b)
                        && e[a].stat_inode != e[b].stat_inode;
                assert forall|j: int|
                    0 <= j < e.len() && (#[trigger] e[j]).relative_path != new.relative_path
                        && e[j].stat_size == new.stat_size implies e[j].fast_hash is Some by {
                    assert(e[j].stat_size == e[a].stat_size && e[j].stat_inode != e[a].stat_inode
                        ==> e[j].fast_hash is Some);
                    assert(e[j].stat_size == e[b].stat_size && e[j].stat_inode != e[b].stat_inode
                        ==> e[j].fast_hash is Some);
                }
                if exists|c: int|
                    {
                        &&& #[trigger] is_candidate(e, f, c)
                        &&& crate::admission::present(files, base, e[c])
                        &&& crate::admission::data_of(files, base, e[c])
                            == crate::admission::data_of(files, base, f)
                        &&& e[c].fast_hash == Some(dn)
                        &&& link_outcome(e, files, base, read_only, e[c], new, e2, files2, r)
                    } {
                    let c = choose|c: int|
                        {
                            &&& #[trigger] is_candidate(e, f, c)
                            &&& crate::admission::present(files, base, e[c])
                            &&& crate::admission::data_of(files, base, e[c])
                                == crate::admission::data_of(files, base, f)
                            &&& e[c].fast_hash == Some(dn)
                            &&& link_outcome(e, files, base, read_only, e[c], new, e2, files2, r)
                        };
                    lemma_link_audit(e, files, base, read_only, c, new, e2, files2, r);
                } else {
                    lemma_filed_audit(e, new);
                }
            }
        }
    }
}

/// The condition of the law above leaves out no more than it has to: where
/// the index held the inode of the admitted file and the digests did not
/// suffice, the audit fails after the admission.
pub proof fn lemma_admission_breaks_audit(
    e: Seq<FileEntryView>,
    files: Map<Seq<char>, FileNode>,
    base: Seq<char>,
    read_only: bool,
    f: FileEntryView,
    e2: Seq<FileEntryView>,
    files2: Map<Seq<char>, FileNode>,
    r: Result<FileEntry>,
)
    requires
        audit(e),
        crate::files_index::inodes_of(e).contains(f.stat_inode),
        !digests_suffice(e, f),
        admit_outcome(e, files, base, read_only, f, e2, files2, r),
    ensures
        !audit(e2),
{
    let j0 = choose|j: int|
        0 <= j < e.len() && #[trigger] e[j].stat_inode == f.stat_inode && e2 == upsert(
            e,
            f.with_hash(e[j].fast_hash),
        );
    let x = f.with_hash(e[j0].fast_hash);
    let (c, j) = choose|c: int, j: int|
        #![trigger is_candidate(e, f, c), e[j]]
        is_candidate(e, f, c) && e[c].stat_inode != f.stat_inode && 0 <= j < e.len()
            && e[j].stat_inode == f.stat_inode && !(e[c].fast_hash is Some && e[j].fast_hash
            is Some);
    lemma_upsert_shape(e, x);
    let s = filed_slot(e, x);
    assert(e2[c] == e[c]);
    assert(e[j].stat_inode == e[j0].stat_inode ==> e[j].fast_hash == e[j0].fast_hash);
    if e2 == e {
        assert(e[s].stat_inode == e[j0].stat_inode ==> e[s].fast_hash == e[j0].fast_hash);
    }
    assert(e2[s].stat_size == e2[c].stat_size && e2[s].stat_inode != e2[c].stat_inode);
    assert(e2[s].fast_hash == e[j].fast_hash);
    if audit(e2) {
        assert(e2[s].fast_hash is Some);
        assert(e2[c].stat_size == e2[s].stat_size && e2[c].stat_inode != e2[s].stat_inode
            ==> e2[c].fast_hash is Some);
    }
}

/// Two tables hold the same byte strings where each holds the bytes of
/// every file of the other.
pub proof fn lemma_same_contents(a: Map<Seq<char>, FileNode>, b: Map<Seq<char>, FileNode>)
    requires
        forall|p: Seq<char>| #[trigger] a.contains_key(p) ==> contents_of(b).contains(a[p].data),
        forall|p: Seq<char>| #[trigger] b.contains_key(p) ==> contents_of(a).contains(b[p].data),
    ensures
        contents_of(a) == contents_of(b),
{
    assert forall|d: Seq<u8>| contents_of(a).contains(d) == contents_of(b).contains(d) by {
        if contents_of(a).contains(d) {
            let p = choose|p: Seq<char>| #[trigger] a.contains_key(p) && a[p].data == d;
            assert(contents_of(b).contains(a[p].data));
        }
        if contents_of(b).contains(d) {
            let p = choose|p: Seq<char>| #[trigger] b.contains_key(p) && b[p].data == d;
            assert(contents_of(a).contains(b[p].data));
        }
    }
    assert(contents_of(a) =~= contents_of(b));
}

/// Setting a file aside under a free name loses no bytes.
proof fn lemma_set_aside(files: Map<Seq<char>, FileNode>, new: Seq<char>, backup: Seq<char>)
    requires
        files.contains_key(new),
        !files.contains_key(backup),
    ensures
        contents_of(crate::link::set_aside(files, new, backup)) == contents_of(files),
        crate::link::renamed(crate::link::set_aside(files, new, backup), backup, new) == files,
{
    let aside = crate::link::set_aside(files, new, backup);
    assert forall|p: Seq<char>| #[trigger] files.contains_key(p) implies contents_of(
        aside,
    ).contains(files[p].data) by {
        if p == new {
            assert(aside.contains_key(backup) && aside[backup].data == files[p].data);
        } else {
            assert(aside.contains_key(p) && aside[p].data == files[p].data);
        }
    }
    assert forall|p: Seq<char>| #[trigger] aside.contains_key(p) implies contents_of(
        files,
    ).contains(aside[p].data) by {
        if p == backup {
            assert(files.contains_key(new) && files[new].data == aside[p].data);
        } else {
            assert(files.contains_key(p) && files[p].data == aside[p].data);
        }
    }
    lemma_same_contents(files, aside);
    assert(crate::link::renamed(aside, backup, new) =~= files);
}

/// A further name for a file of the table adds no bytes and loses none.
proof fn lemma_link_added(files: Map<Seq<char>, FileNode>, src: Seq<char>, dst: Seq<char>)
    requires
        files.contains_key(src),
        !files.contains_key(dst),
    ensures
        contents_of(files.insert(dst, files[src])) == contents_of(files),
{
    let more = files.insert(dst, files[src]);
    assert forall|p: Seq<char>| #[trigger] files.contains_key(p) implies contents_of(
        more,
    ).contains(files[p].data) by {
        assert(more.contains_key(p) && more[p].data == files[p].data);
    }
    assert forall|p: Seq<char>| #[trigger] more.contains_key(p) implies contents_of(
        files,
    ).contains(more[p].data) by {
        if p == dst {
            assert(files.contains_key(src) && files[src].data == more[p].data);
        } else {
            assert(files.contains_key(p) && files[p].data == more[p].data);
        }
    }
    lemma_same_contents(files, more);
}

/// Taking away a name loses no bytes where another name holds the same
/// bytes.
proof fn lemma_name_removed(files: Map<Seq<char>, FileNode>, gone: Seq<char>, twin: Seq<char>)
    requires
        files.contains_key(gone),
        files.contains_key(twin),
        twin != gone,
        files[twin].data == files[gone].data,
    ensures
        contents_of(files.remove(gone)) == contents_of(files),
{
    let less = files.remove(gone);
    assert forall|p: Seq<char>| #[trigger] files.contains_key(p) implies contents_of(
        less,
    ).contains(files[p].data) by {
        if p == gone {
            assert(less.contains_key(twin) && less[twin].data == files[p].data);
        } else {
            assert(less.contains_key(p) && less[p].data == files[p].data);
        }
    }
    assert forall|p: Seq<char>| #[trigger] less.contains_key(p) implies contents_of(
        files,
    ).contains(less[p].data) by {
        assert(files.contains_key(p) && files[p].data == less[p].data);
    }
    lemma_same_contents(files, less);
}

/// A link loses no bytes, whether it goes through or fails, provided that
/// the backup name was free and that a link that goes through joins files
/// of the same bytes. A failed link leaves the table as it was, or leaves
/// the new file under its backup name.
pub proof fn lemma_link_keeps_contents(
    e: Seq<FileEntryView>,
    files: Map<Seq<char>, FileNode>,
    base: Seq<char>,
    read_only: bool,
    existing: FileEntryView,
    new: FileEntryView,
    e2: Seq<FileEntryView>,
    files2: Map<Seq<char>, FileNode>,
    r: Result<FileEntry>,
)
    requires
        link_outcome(e, files, base, read_only, existing, new, e2, files2, r),
        backup_free(files, base, new),
        r is Ok ==> crate::admission::data_of(files, base, existing)
            == crate::admission::data_of(files, base, new),
    ensures
        contents_of(files2) == contents_of(files),
        r is Err ==> files2 == files || (crate::paths::backup_of(new.relative_path) matches Some(
            b,
        ) && files2.contains_key(crate::paths::path_join(base, b)) && files2[crate::paths::path_join(
            base,
            b,
        )] == files[crate::paths::path_join(base, new.relative_path)]),
{
    if !read_only {
        match crate::paths::backup_of(new.relative_path) {
            None => {},
            Some(b) => {
                let new_abs = crate::paths::path_join(base, new.relative_path);
                let existing_abs = crate::paths::path_join(base, existing.relative_path);
                let backup_abs = crate::paths::path_join(base, b);
                let aside = crate::link::set_aside(files, new_abs, backup_abs);
                let both = crate::link::linked_with_backup(
                    files,
                    new_abs,
                    existing_abs,
                    backup_abs,
                );
                if files2 != files {
                    assert(files.contains_key(new_abs));
                    lemma_set_aside(files, new_abs, backup_abs);
                    if files2 != aside {
                        assert(aside.contains_key(existing_abs) && !aside.contains_key(new_abs));
                        lemma_link_added(aside, existing_abs, new_abs);
                        assert(crate::link::renamed(both, backup_abs, new_abs) =~= files);
                        if r is Ok {
                            assert(new_abs != backup_abs);
                            assert(both[backup_abs].data == files[new_abs].data);
                            assert(both[new_abs].data == aside[existing_abs].data);
                            if existing_abs == backup_abs {
                                assert(aside[existing_abs] == files[new_abs]);
                            } else {
                                assert(aside[existing_abs] == files[existing_abs]);
                            }
                            lemma_name_removed(both, backup_abs, new_abs);
                        }
                    }
                }
            },
        }
    }
}

/// A link that cannot be made leaves the table as it was, on a filesystem
/// where the table alone decides and where no file was in the way of the
/// backup: the backup is given its name back.
pub proof fn lemma_failed_link_restores(
    files: Map<Seq<char>, FileNode>,
    base: Seq<char>,
    existing: FileEntryView,
    new: FileEntryView,
)
    requires
        backup_free(files, base, new),
        !crate::link::link_made(files, base, existing, new),
    ensures
        crate::link::failed_link(files, base, existing, new) == files,
{
    match crate::paths::backup_of(new.relative_path) {
        None => {},
        Some(b) => {
            let new_abs = crate::paths::path_join(base, new.relative_path);
            let backup_abs = crate::paths::path_join(base, b);
            if files.contains_key(new_abs) {
                lemma_set_aside(files, new_abs, backup_abs);
            }
        },
    }
}

/// No file is in the way of the backup of `f`.
pub open spec fn backup_free(files: Map<Seq<char>, FileNode>, base: Seq<char>, f: FileEntryView) -> bool {
    crate::paths::backup_of(f.relative_path) matches Some(b) ==> !files.contains_key(
        crate::paths::path_join(base, b),
    )
}

/// An admission loses no bytes: the byte strings that some path holds are
/// the same after it as before, provided that no file was in the way of
/// the backup.
pub proof fn lemma_admission_keeps_contents(
    e: Seq<FileEntryView>,
    files: Map<Seq<char>, FileNode>,
    base: Seq<char>,
    read_only: bool,
    f: FileEntryView,
    e2: Seq<FileEntryView>,
    files2: Map<Seq<char>, FileNode>,
    r: Result<FileEntry>,
)
    requires
        admit_outcome(e, files, base, read_only, f, e2, files2, r),
        backup_free(files, base, f),
    ensures
        contents_of(files2) == contents_of(files),
{
    if crate::files_index::inodes_of(e).contains(f.stat_inode) {
    } else if forall|i: int| !is_candidate(e, f, i) {
    } else if crate::admission::one_candidate_inode(e, f) {
        let c = choose|c: int| #[trigger]
            crate::admission::is_first_candidate(e, f, c) && crate::admission::single_outcome(
                e,
                files,
                base,
                read_only,
                f,
                c,
                e2,
                files2,
                r,
            );
        if files2 != files {
            let dc = crate::digest::murmur3_x64_128(crate::admission::data_of(files, base, e[c]));
            let dn = crate::digest::murmur3_x64_128(crate::admission::data_of(files, base, f));
            lemma_link_keeps_contents(
                attach(e, e[c].stat_inode, dc),
                files,
                base,
                read_only,
                e[c].with_hash(Some(dc)),
                f.with_hash(Some(dn)),
                e2,
                files2,
                r,
            );
        }
    } else {
        if files2 != files {
            let dn = crate::digest::murmur3_x64_128(crate::admission::data_of(files, base, f));
            let new = f.with_hash(Some(dn));
            let c = choose|c: int|
                {
                    &&& #[trigger] is_candidate(e, f, c)
                    &&& crate::admission::present(files, base, e[c])
                    &&& crate::admission::data_of(files, base, e[c]) == crate::admission::data_of(
                        files,
                        base,
                        f,
                    )
                    &&& e[c].fast_hash == Some(dn)
                    &&& link_outcome(e, files, base, read_only, e[c], new, e2, files2, r)
                };
            lemma_link_keeps_contents(e, files, base, read_only, e[c], new, e2, files2, r);
        }
    }
}

/// The index holds `f` as it is, the digest left aside, and holds one
/// digest for each inode.
pub open spec fn up_to_date(e: Seq<FileEntryView>, f: FileEntryView) -> bool {
    &&& hash_coherent(e)
    &&& entry_of(e, f.relative_path) matches Some(g) && g.eq_except_hash(f)
}

/// Admitting a file that the index already holds as the file shows it
/// changes nothing and hands back the entry that the index holds.
pub proof fn lemma_admission_idempotent(
    e: Seq<FileEntryView>,
    files: Map<Seq<char>, FileNode>,
    base: Seq<char>,
    read_only: bool,
    f: FileEntryView,
    e2: Seq<FileEntryView>,
    files2: Map<Seq<char>, FileNode>,
    r: Result<FileEntry>,
)
    requires
        paths_unique(e),
        hash_coherent(e),
        entry_of(e, f.relative_path) matches Some(g) && g.eq_except_hash(f),
        admit_outcome(e, files, base, read_only, f, e2, files2, r),
    ensures
        e2 == e,
        files2 == files,
        r matches Ok(x) && entry_of(e, f.relative_path) == Some(x@),
{
    let k = slot_of(e, f.relative_path)->0;
    let g = e[k];
    assert(g.stat_inode == f.stat_inode);
    assert(crate::files_index::inodes_of(e).contains(f.stat_inode));
    let j0 = choose|j: int|
        0 <= j < e.len() && #[trigger] e[j].stat_inode == f.stat_inode && e2 == upsert(
            e,
            f.with_hash(e[j].fast_hash),
        );
    assert(e[j0].stat_inode == e[k].stat_inode ==> e[j0].fast_hash == e[k].fast_hash);
    let x = f.with_hash(e[j0].fast_hash);
    assert(x == g);
    crate::files_index::lemma_upsert_known(e, k, x);
    assert(e.update(k, g) =~= e);
}

/// The entry that an admission hands back is the one that the index then
/// holds under the path of the admitted file. Together with the law above:
/// once the audit passes, admitting the same file again, as it then shows,
/// changes nothing.
pub proof fn lemma_admission_files_result(
    e: Seq<FileEntryView>,
    files: Map<Seq<char>, FileNode>,
    base: Seq<char>,
    read_only: bool,
    f: FileEntryView,
    e2: Seq<FileEntryView>,
    files2: Map<Seq<char>, FileNode>,
    r: Result<FileEntry>,
)
    requires
        paths_unique(e),
        admit_outcome(e, files, base, read_only, f, e2, files2, r),
        r is Ok,
    ensures
        entry_of(e2, f.relative_path) == Some(r->Ok_0@),
        r->Ok_0@.relative_path == f.relative_path,
        paths_unique(e2),
{
    let x = r->Ok_0@;
    if crate::files_index::inodes_of(e).contains(f.stat_inode) {
        let j0 = choose|j: int|
            0 <= j < e.len() && #[trigger] e[j].stat_inode == f.stat_inode && e2 == upsert(
                e,
                f.with_hash(e[j].fast_hash),
            );
        lemma_upsert_shape(e, f.with_hash(e[j0].fast_hash));
    } else if forall|i: int| !is_candidate(e, f, i) {
        lemma_upsert_shape(e, f);
    } else if crate::admission::one_candidate_inode(e, f) {
        let c = choose|c: int| #[trigger]
            crate::admission::is_first_candidate(e, f, c) && crate::admission::single_outcome(
                e,
                files,
                base,
                read_only,
                f,
                c,
                e2,
                files2,
                r,
            );
        let dc = crate::digest::murmur3_x64_128(crate::admission::data_of(files, base, e[c]));
        let hashed = attach(e, e[c].stat_inode, dc);
        assert forall|i: int, j: int|
            0 <= i < hashed.len() && 0 <= j < hashed.len() && #[trigger] hashed[i].relative_path
                == #[trigger] hashed[j].relative_path implies i == j by {
            assert(e[i].relative_path == e[j].relative_path);
        }
        lemma_upsert_shape(hashed, x);
    } else {
        lemma_upsert_shape(e, x);
    }
}

/// The entry `f` shows the file that the table holds under its path.
pub open spec fn shows(files: Map<Seq<char>, FileNode>, base: Seq<char>, f: FileEntryView) -> bool {
    &&& crate::admission::present(files, base, f)
    &&& f.with_hash(None) == crate::link::restat(
        f,
        files[crate::paths::path_join(base, f.relative_path)],
    ).with_hash(None)
}

/// The entry that an admission hands back shows the file that the table
/// then holds under the path, provided that the admitted entry showed the
/// file that the table held there.
pub proof fn lemma_result_shows(
    e: Seq<FileEntryView>,
    files: Map<Seq<char>, FileNode>,
    base: Seq<char>,
    read_only: bool,
    f: FileEntryView,
    e2: Seq<FileEntryView>,
    files2: Map<Seq<char>, FileNode>,
    r: Result<FileEntry>,
)
    requires
        paths_unique(e),
        shows(files, base, f),
        admit_outcome(e, files, base, read_only, f, e2, files2, r),
        r is Ok,
    ensures
        shows(files2, base, r->Ok_0@),
        r->Ok_0@.relative_path == f.relative_path,
{
    let x = r->Ok_0@;
    lemma_admission_files_result(e, files, base, read_only, f, e2, files2, r);
    if crate::files_index::inodes_of(e).contains(f.stat_inode) {
        let j0 = choose|j: int|
            0 <= j < e.len() && #[trigger] e[j].stat_inode == f.stat_inode && e2 == upsert(
                e,
                f.with_hash(e[j].fast_hash),
            );
        let y = f.with_hash(e[j0].fast_hash);
        lemma_upsert_shape(e, y);
        assert(x.with_hash(None) == f.with_hash(None));
    } else if forall|i: int| !is_candidate(e, f, i) {
    } else if crate::admission::one_candidate_inode(e, f) {
        let c = choose|c: int| #[trigger]
            crate::admission::is_first_candidate(e, f, c) && crate::admission::single_outcome(
                e,
                files,
                base,
                read_only,
                f,
                c,
                e2,
                files2,
                r,
            );
        assert(x.with_hash(None) == crate::link::restat(
            f,
            files2[crate::paths::path_join(base, f.relative_path)],
        ).with_hash(None));
    } else {
        assert(x.with_hash(None) == crate::link::restat(
            f,
            files2[crate::paths::path_join(base, f.relative_path)],
        ).with_hash(None));
    }
}

/// A file admitted twice is admitted once: after an admission that went
/// through, a second admission of the same path changes neither the
/// entries nor the table, and hands back the entry that the first handed
/// back. The path has to resolve both times to the path that the base path
/// and the relative path join to. The first admission has to keep the
/// audit passing.
pub proof fn lemma_second_admission(
    e: Seq<FileEntryView>,
    files: Map<Seq<char>, FileNode>,
    base: Seq<char>,
    read_only: bool,
    canonical: Option<Seq<char>>,
    e2: Seq<FileEntryView>,
    files2: Map<Seq<char>, FileNode>,
    r: Result<FileEntry>,
    e3: Seq<FileEntryView>,
    files3: Map<Seq<char>, FileNode>,
    r2: Result<FileEntry>,
)
    requires
        audit(e),
        crate::admission::tentative(files, base, canonical) matches Some(f) && canonical
            == Some(crate::paths::path_join(base, f.relative_path)) && (
        crate::files_index::inodes_of(e).contains(f.stat_inode) ==> digests_suffice(e, f)),
        crate::admission::add_outcome(e, files, base, read_only, canonical, e2, files2, r),
        r is Ok,
        crate::admission::add_outcome(e2, files2, base, read_only, canonical, e3, files3, r2),
    ensures
        e3 == e2,
        files3 == files2,
        r2 matches Ok(x) ==> x@ == r->Ok_0@,
{
    let f = crate::admission::tentative(files, base, canonical)->0;
    let abs = crate::paths::path_join(base, f.relative_path);
    let x = r->Ok_0@;
    assert(shows(files, base, f));
    lemma_admission_keeps_audit(e, files, base, read_only, f, e2, files2, r);
    lemma_admission_files_result(e, files, base, read_only, f, e2, files2, r);
    lemma_result_shows(e, files, base, read_only, f, e2, files2, r);
    if !(r2 is Err && e3 == e2 && files3 == files2) {
        let f2 = crate::admission::tentative(files2, base, canonical)->0;
        assert(f2.relative_path == f.relative_path);
        assert(x.eq_except_hash(f2));
        lemma_admission_idempotent(e2, files2, base, read_only, f2, e3, files3, r2);
    }
}

/// Entries under other paths than `path` that agree on size and digest
/// share the inode.
pub open spec fn equivalent_beside(e: Seq<FileEntryView>, path: Seq<char>) -> bool {
    forall|i: int, j: int|
        #![trigger e[i], e[j]]
        0 <= i < e.len() && 0 <= j < e.len() && e[i].relative_path != path && e[j].relative_path
            != path && e[i].stat_size == e[j].stat_size && e[i].fast_hash is Some
            && e[i].fast_hash == e[j].fast_hash ==> e[i].stat_inode == e[j].stat_inode
}

/// The index holds the inode of no candidate for `f` under another size
/// than that of `f`.
pub open spec fn candidate_sizes_agree(e: Seq<FileEntryView>, f: FileEntryView) -> bool {
    forall|c: int, j: int|
        #![trigger is_candidate(e, f, c), e[j]]
        is_candidate(e, f, c) && 0 <= j < e.len() && e[j].stat_inode == e[c].stat_inode
            ==> e[j].stat_size == f.stat_size
}

/// Every digest that the index holds for a candidate for `f` is the digest
/// of the candidate's file.
pub open spec fn candidate_digests_true(
    e: Seq<FileEntryView>,
    files: Map<Seq<char>, FileNode>,
    base: Seq<char>,
    f: FileEntryView,
) -> bool {
    forall|c: int| #[trigger]
        is_candidate(e, f, c) && crate::admission::present(files, base, e[c]) && e[c].fast_hash
            is Some ==> e[c].fast_hash == Some(
            crate::digest::murmur3_x64_128(crate::admission::data_of(files, base, e[c])),
        )
}

/// No candidate for `f` whose file holds other bytes than that of `f` has
/// the same digest.
pub open spec fn no_digest_collision(
    e: Seq<FileEntryView>,
    files: Map<Seq<char>, FileNode>,
    base: Seq<char>,
    f: FileEntryView,
) -> bool {
    forall|c: int| #[trigger]
        is_candidate(e, f, c) && crate::admission::present(files, base, e[c])
            && crate::digest::murmur3_x64_128(crate::admission::data_of(files, base, e[c]))
            == crate::digest::murmur3_x64_128(crate::admission::data_of(files, base, f))
            ==> crate::admission::data_of(files, base, e[c]) == crate::admission::data_of(
            files,
            base,
            f,
        )
}

/// Filing an entry keeps entries of one size and digest on one inode,
/// where that holds of the entries under other paths and the entry shares
/// the inode of each of them that has its size and digest.
pub proof fn lemma_filed_equivalence(e: Seq<FileEntryView>, x: FileEntryView)
    requires
        paths_unique(e),
        equivalent_beside(e, x.relative_path),
        forall|j: int|
            0 <= j < e.len() && (#[trigger] e[j]).relative_path != x.relative_path
                && e[j].stat_size == x.stat_size && x.fast_hash is Some && e[j].fast_hash
                == x.fast_hash ==> e[j].stat_inode == x.stat_inode,
        x.fast_hash is Some,
    ensures
        inode_equivalence(upsert(e, x)),
{
    lemma_upsert_shape(e, x);
    let s = filed_slot(e, x);
    let e2 = upsert(e, x);
    assert(e2[s] == x);
    assert forall|i: int, j: int|
        #![trigger e2[i], e2[j]]
        0 <= i < e2.len() && 0 <= j < e2.len() && e2[i].stat_size == e2[j].stat_size
            && e2[i].fast_hash is Some && e2[i].fast_hash == e2[j].fast_hash
        implies e2[i].stat_inode == e2[j].stat_inode by {
        if i != s {
            assert(e2[i] == e[i]);
        }
        if j != s {
            assert(e2[j] == e[j]);
        }
        if i != s && j != s {
            assert(e[i].relative_path != x.relative_path && e[j].relative_path
                != x.relative_path);
        }
    }
}

/// After an admission that went through on a filesystem that can be
/// changed, entries that agree on size and digest share the inode, provided
/// that this held before and that the index was true to the files: it
/// held the inodes of the admitted file and of its candidates under no
/// other size, its digests of the candidates were those of their files, and
/// no candidate of other bytes had the digest of the admitted file.
pub proof fn lemma_admission_keeps_equivalence(
    e: Seq<FileEntryView>,
    files: Map<Seq<char>, FileNode>,
    base: Seq<char>,
    f: FileEntryView,
    e2: Seq<FileEntryView>,
    files2: Map<Seq<char>, FileNode>,
    r: Result<FileEntry>,
)
    requires
        audit(e),
        inode_equivalence(e),
        size_agrees(e, f),
        candidate_sizes_agree(e, f),
        candidate_digests_true(e, files, base, f),
        no_digest_collision(e, files, base, f),
        f.fast_hash is None,
        admit_outcome(e, files, base, false, f, e2, files2, r),
        r is Ok,
    ensures
        inode_equivalence(e2),
{
    let x = r->Ok_0@;
    if crate::files_index::inodes_of(e).contains(f.stat_inode) {
        let j0 = choose|j: int|
            0 <= j < e.len() && #[trigger] e[j].stat_inode == f.stat_inode && e2 == upsert(
                e,
                f.with_hash(e[j].fast_hash),
            );
        let y = f.with_hash(e[j0].fast_hash);
        lemma_upsert_shape(e, y);
        if y.fast_hash is Some {
            assert forall|j: int|
                0 <= j < e.len() && (#[trigger] e[j]).relative_path != y.relative_path
                    && e[j].stat_size == y.stat_size && y.fast_hash is Some && e[j].fast_hash
                    == y.fast_hash implies e[j].stat_inode == y.stat_inode by {
                assert(e[j0].stat_size == f.stat_size);
                assert(e[j].stat_size == e[j0].stat_size && e[j].fast_hash is Some
                    && e[j].fast_hash == e[j0].fast_hash ==> e[j].stat_inode
                    == e[j0].stat_inode);
            }
            lemma_filed_equivalence(e, y);
        } else {
            lemma_unhashed_equivalence(e, y);
        }
    } else if forall|i: int| !is_candidate(e, f, i) {
        lemma_unhashed_equivalence(e, f);
    } else if crate::admission::one_candidate_inode(e, f) {
        let c = choose|c: int| #[trigger]
            crate::admission::is_first_candidate(e, f, c) && crate::admission::single_outcome(
                e,
                files,
                base,
                false,
                f,
                c,
                e2,
                files2,
                r,
            );
        let dc = crate::digest::murmur3_x64_128(crate::admission::data_of(files, base, e[c]));
        let dn = crate::digest::murmur3_x64_128(crate::admission::data_of(files, base, f));
        let hashed = attach(e, e[c].stat_inode, dc);
        assert forall|i: int, j: int|
            0 <= i < hashed.len() && 0 <= j < hashed.len() && #[trigger] hashed[i].relative_path
                == #[trigger] hashed[j].relative_path implies i == j by {
            assert(e[i].relative_path == e[j].relative_path);
        }
        assert forall|i: int, j: int|
            #![trigger hashed[i], hashed[j]]
            0 <= i < hashed.len() && 0 <= j < hashed.len() && hashed[i].relative_path
                != f.relative_path && hashed[j].relative_path != f.relative_path
                && hashed[i].stat_size == hashed[j].stat_size && hashed[i].fast_hash is Some
                && hashed[i].fast_hash == hashed[j].fast_hash implies hashed[i].stat_inode
            == hashed[j].stat_inode by {
            assert(e[i].stat_size == e[j].stat_size && e[i].fast_hash is Some && e[i].fast_hash
                == e[j].fast_hash ==> e[i].stat_inode == e[j].stat_inode);
            if e[i].stat_inode == e[c].stat_inode && e[j].stat_inode != e[c].stat_inode {
                assert(is_candidate(e, f, c) && e[i].stat_inode == e[c].stat_inode
                    ==> e[i].stat_size == f.stat_size);
                assert(is_candidate(e, f, j));
            }
            if e[j].stat_inode == e[c].stat_inode && e[i].stat_inode != e[c].stat_inode {
                assert(is_candidate(e, f, c) && e[j].stat_inode == e[c].stat_inode
                    ==> e[j].stat_size == f.stat_size);
                assert(is_candidate(e, f, i));
            }
        }
        assert forall|j: int|
            0 <= j < hashed.len() && (#[trigger] hashed[j]).relative_path != x.relative_path
                && hashed[j].stat_size == x.stat_size && x.fast_hash is Some
                && hashed[j].fast_hash == x.fast_hash implies hashed[j].stat_inode
            == x.stat_inode by {
            assert(is_candidate(e, f, j));
            assert(e[j].stat_inode == e[c].stat_inode);
        }
        lemma_filed_equivalence(hashed, x);
    } else {
        let dn = crate::digest::murmur3_x64_128(crate::admission::data_of(files, base, f));
        let new = f.with_hash(Some(dn));
        assert forall|i: int, j: int|
            #![trigger e[i], e[j]]
            0 <= i < e.len() && 0 <= j < e.len() && e[i].relative_path != f.relative_path
                && e[j].relative_path != f.relative_path && e[i].stat_size == e[j].stat_size
                && e[i].fast_hash is Some && e[i].fast_hash == e[j].fast_hash
            implies e[i].stat_inode == e[j].stat_inode by {}
        if exists|c: int|
            {
                &&& #[trigger] is_candidate(e, f, c)
                &&& crate::admission::present(files, base, e[c])
                &&& crate::admission::data_of(files, base, e[c]) == crate::admission::data_of(
                    files,
                    base,
                    f,
                )
                &&& e[c].fast_hash == Some(dn)
                &&& link_outcome(e, files, base, false, e[c], new, e2, files2, r)
            } {
            let c = choose|c: int|
                {
                    &&& #[trigger] is_candidate(e, f, c)
                    &&& crate::admission::present(files, base, e[c])
                    &&& crate::admission::data_of(files, base, e[c]) == crate::admission::data_of(
                        files,
                        base,
                        f,
                    )
                    &&& e[c].fast_hash == Some(dn)
                    &&& link_outcome(e, files, base, false, e[c], new, e2, files2, r)
                };
            assert forall|j: int|
                0 <= j < e.len() && (#[trigger] e[j]).relative_path != x.relative_path
                    && e[j].stat_size == x.stat_size && x.fast_hash is Some && e[j].fast_hash
                    == x.fast_hash implies e[j].stat_inode == x.stat_inode by {
                assert(e[j].stat_size == e[c].stat_size && e[j].fast_hash is Some
                    && e[j].fast_hash == e[c].fast_hash ==> e[j].stat_inode == e[c].stat_inode);
            }
            lemma_filed_equivalence(e, x);
        } else {
            assert forall|j: int|
                0 <= j < e.len() && (#[trigger] e[j]).relative_path != x.relative_path
                    && e[j].stat_size == x.stat_size && x.fast_hash is Some && e[j].fast_hash
                    == x.fast_hash implies e[j].stat_inode == x.stat_inode by {
                assert(is_candidate(e, f, j));
            }
            lemma_filed_equivalence(e, x);
        }
    }
}

/// Filing an entry without a digest keeps entries of one size and digest on
/// one inode.
proof fn lemma_unhashed_equivalence(e: Seq<FileEntryView>, x: FileEntryView)
    requires
        paths_unique(e),
        inode_equivalence(e),
        x.fast_hash is None,
    ensures
        inode_equivalence(upsert(e, x)),
{
    lemma_upsert_shape(e, x);
    let s = filed_slot(e, x);
    let e2 = upsert(e, x);
    if e2 != e {
        assert(e2[s] == x);
        assert forall|i: int, j: int|
            #![trigger e2[i], e2[j]]
            0 <= i < e2.len() && 0 <= j < e2.len() && e2[i].stat_size == e2[j].stat_size
                && e2[i].fast_hash is Some && e2[i].fast_hash == e2[j].fast_hash
            implies e2[i].stat_inode == e2[j].stat_inode by {
            if i != s {
                assert(e2[i] == e[i]);
            }
            if j != s {
                assert(e2[j] == e[j]);
            }
        }
    }
}

} // verus!
