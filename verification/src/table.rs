//! The table of a filesystem held in memory: a list of files, no path twice.

use vstd::prelude::*;

verus! {

/// A file of the table.
pub struct MemEntry {
    pub path: String,
    pub data: Vec<u8>,
    pub inode: u64,
}

/// The files, in no order that matters.
pub struct Table {
    entries: Vec<MemEntry>,
}

/// No path occurs twice.
pub open spec fn unique_paths(s: Seq<MemEntry>) -> bool {
    forall|i: int, j: int|
        0 <= i < s.len() && 0 <= j < s.len() && (#[trigger] s[i]).path@ == (#[trigger] s[j]).path@
            ==> i == j
}

/// Some file of the list has the path.
pub open spec fn listed_path(s: Seq<MemEntry>, p: Seq<char>) -> bool {
    exists|i: int| 0 <= i < s.len() && (#[trigger] s[i]).path@ == p
}

/// The place of the file with the path.
pub open spec fn place_of(s: Seq<MemEntry>, p: Seq<char>) -> int {
    choose|i: int| 0 <= i < s.len() && (#[trigger] s[i]).path@ == p
}

impl Table {
    /// What holds of every table: no path occurs twice.
    #[verifier::type_invariant]
    spec fn unique(&self) -> bool {
        unique_paths(self.entries@)
    }

    /// The bytes and the inode that each path holds.
    pub closed spec fn view(&self) -> Map<Seq<char>, (Seq<u8>, u64)> {
        Map::new(
            |p: Seq<char>| listed_path(self.entries@, p),
            |p: Seq<char>|
                (
                    self.entries@[place_of(self.entries@, p)].data@,
                    self.entries@[place_of(self.entries@, p)].inode,
                ),
        )
    }

    /// A table without files.
    pub fn new() -> (r: Self)
        ensures
            r@ == Map::<Seq<char>, (Seq<u8>, u64)>::empty(),
    {
        let r = Table { entries: Vec::new() };
        proof {
            assert(r@ =~= Map::<Seq<char>, (Seq<u8>, u64)>::empty());
        }
        r
    }

    /// The place of the file with the path, if there is one.
    fn find(&self, path: &str) -> (r: Option<usize>)
        ensures
            r matches Some(i) ==> i < self.entries@.len() && self.entries@[i as int].path@
                == path@,
            r is None ==> !listed_path(self.entries@, path@),
    {
        let target = path.to_owned();
        let mut i: usize = 0;
        while i < self.entries.len()
            invariant
                i <= self.entries@.len(),
                target@ == path@,
                forall|j: int| 0 <= j < i ==> (#[trigger] self.entries@[j]).path@ != path@,
            decreases self.entries@.len() - i,
        {
            if self.entries[i].path == target {
                return Some(i);
            }
            i += 1;
        }
        None
    }

    /// Puts a file under the path, in place of the one that was there.
    pub fn insert(&mut self, path: &str, data: Vec<u8>, inode: u64)
        ensures
            final(self)@ == old(self)@.insert(path@, (data@, inode)),
    {
        proof {
            use_type_invariant(&*self);
        }
        let ghost before = self.entries@;
        let entry = MemEntry { path: path.to_owned(), data, inode };
        let found = self.find(path);
        let mut entries: Vec<MemEntry> = Vec::new();
        std::mem::swap(&mut self.entries, &mut entries);
        match found {
            Some(i) => {
                entries.set(i, entry);
                proof {
                    Self::lemma_set(before, i as int, entries@);
                }
            },
            None => {
                entries.push(entry);
                proof {
                    Self::lemma_push(before, entries@);
                }
            },
        }
        std::mem::swap(&mut self.entries, &mut entries);
        proof {
            assert(self@ =~= old(self)@.insert(path@, (data@, inode)));
        }
    }

    /// Putting a file in the place of one with the same path keeps every
    /// path where it is.
    proof fn lemma_set(s: Seq<MemEntry>, i: int, t: Seq<MemEntry>)
        requires
            unique_paths(s),
            0 <= i < s.len(),
            t.len() == s.len(),
            t[i].path@ == s[i].path@,
            forall|j: int| 0 <= j < s.len() && j != i ==> t[j] == s[j],
        ensures
            unique_paths(t),
            forall|p: Seq<char>| listed_path(t, p) == listed_path(s, p),
            forall|p: Seq<char>| listed_path(s, p) ==> place_of(t, p) == place_of(s, p),
    {
        assert forall|a: int, b: int|
            0 <= a < t.len() && 0 <= b < t.len() && (#[trigger] t[a]).path@ == (
            #[trigger] t[b]).path@ implies a == b by {
            assert(s[a].path@ == t[a].path@);
            assert(s[b].path@ == t[b].path@);
        }
        assert forall|p: Seq<char>| listed_path(t, p) == listed_path(s, p) by {
            if listed_path(t, p) {
                let a = place_of(t, p);
                assert(s[a].path@ == p);
            }
            if listed_path(s, p) {
                let a = place_of(s, p);
                assert(t[a].path@ == p);
            }
        }
        assert forall|p: Seq<char>| listed_path(s, p) implies place_of(t, p) == place_of(
            s,
            p,
        ) by {
            let a = place_of(s, p);
            assert(t[a].path@ == p);
            let b = place_of(t, p);
            assert(t[b].path@ == t[a].path@);
        }
    }

    /// Adding a file with a path that is not listed keeps every other path
    /// where it is.
    proof fn lemma_push(s: Seq<MemEntry>, t: Seq<MemEntry>)
        requires
            unique_paths(s),
            t.len() == s.len() + 1,
            forall|j: int| 0 <= j < s.len() ==> t[j] == s[j],
            !listed_path(s, t[s.len() as int].path@),
        ensures
            unique_paths(t),
            forall|p: Seq<char>| listed_path(t, p) == (listed_path(s, p) || p == t[s.len() as int].path@),
            forall|p: Seq<char>| listed_path(s, p) ==> place_of(t, p) == place_of(s, p),
            place_of(t, t[s.len() as int].path@) == s.len(),
    {
        let n = s.len() as int;
        assert forall|a: int, b: int|
            0 <= a < t.len() && 0 <= b < t.len() && (#[trigger] t[a]).path@ == (
            #[trigger] t[b]).path@ implies a == b by {
            if a < n {
                assert(s[a].path@ == t[a].path@);
            }
            if b < n {
                assert(s[b].path@ == t[b].path@);
            }
        }
        assert forall|p: Seq<char>| listed_path(t, p) == (listed_path(s, p) || p == t[n].path@) by {
            if listed_path(t, p) {
                let a = place_of(t, p);
                if a < n {
                    assert(s[a].path@ == p);
                }
            }
            if listed_path(s, p) {
                let a = place_of(s, p);
                assert(t[a].path@ == p);
            }
            if p == t[n].path@ {
                assert(t[n].path@ == p);
            }
        }
        assert forall|p: Seq<char>| listed_path(s, p) implies place_of(t, p) == place_of(
            s,
            p,
        ) by {
            let a = place_of(s, p);
            assert(t[a].path@ == p);
            let b = place_of(t, p);
            assert(t[b].path@ == t[a].path@);
        }
        assert(t[n].path@ == t[n].path@);
        let b = place_of(t, t[n].path@);
        assert(t[b].path@ == t[n].path@);
    }

    /// The file under the path, if there is one.
    pub fn get(&self, path: &str) -> (r: Option<&MemEntry>)
        ensures
            r matches Some(e) ==> self@.contains_key(path@) && self@[path@] == (e.data@, e.inode),
            r is None ==> !self@.contains_key(path@),
    {
        proof {
            use_type_invariant(self);
        }
        match self.find(path) {
            Some(i) => {
                proof {
                    let k = place_of(self.entries@, path@);
                    assert(self.entries@[k].path@ == self.entries@[i as int].path@);
                }
                Some(&self.entries[i])
            },
            None => None,
        }
    }

    /// Takes the path and its file away. Says whether there was one.
    pub fn remove(&mut self, path: &str) -> (r: bool)
        ensures
            final(self)@ == old(self)@.remove(path@),
            r == old(self)@.contains_key(path@),
    {
        proof {
            use_type_invariant(&*self);
        }
        let ghost before = self.entries@;
        match self.find(path) {
            Some(i) => {
                let mut entries: Vec<MemEntry> = Vec::new();
                std::mem::swap(&mut self.entries, &mut entries);
                let _ = entries.remove(i);
                proof {
                    Self::lemma_remove(before, i as int, entries@);
                }
                std::mem::swap(&mut self.entries, &mut entries);
                proof {
                    assert(self@ =~= old(self)@.remove(path@));
                }
                true
            },
            None => {
                proof {
                    assert(self@ =~= old(self)@.remove(path@));
                }
                false
            },
        }
    }

    /// Taking a file out leaves the other paths with their files.
    proof fn lemma_remove(s: Seq<MemEntry>, i: int, t: Seq<MemEntry>)
        requires
            unique_paths(s),
            0 <= i < s.len(),
            t == s.remove(i),
        ensures
            unique_paths(t),
            forall|p: Seq<char>| listed_path(t, p) == (listed_path(s, p) && p != s[i].path@),
            forall|p: Seq<char>|
                listed_path(t, p) ==> t[place_of(t, p)] == s[place_of(s, p)],
    {
        assert forall|a: int, b: int|
            0 <= a < t.len() && 0 <= b < t.len() && (#[trigger] t[a]).path@ == (
            #[trigger] t[b]).path@ implies a == b by {
            let a2 = if a < i { a } else { a + 1 };
            let b2 = if b < i { b } else { b + 1 };
            assert(s[a2].path@ == s[b2].path@);
        }
        assert forall|p: Seq<char>| listed_path(t, p) == (listed_path(s, p) && p
            != s[i].path@) by {
            if listed_path(t, p) {
                let a = place_of(t, p);
                let a2 = if a < i { a } else { a + 1 };
                assert(s[a2].path@ == p);
                if p == s[i].path@ {
                    assert(s[a2].path@ == s[i].path@);
                }
            }
            if listed_path(s, p) && p != s[i].path@ {
                let a = place_of(s, p);
                let a2 = if a < i { a } else { a - 1 };
                assert(t[a2].path@ == p);
            }
        }
        assert forall|p: Seq<char>| listed_path(t, p) implies t[place_of(t, p)] == s[place_of(
            s,
            p,
        )] by {
            let a = place_of(t, p);
            let a2 = if a < i { a } else { a + 1 };
            assert(s[a2].path@ == p);
            let b = place_of(s, p);
            assert(s[b].path@ == s[a2].path@);
        }
    }

    /// The largest inode that a file has, if there is a file.
    pub fn largest_inode(&self) -> (r: Option<u64>)
        ensures
            r matches Some(n) ==> (exists|p: Seq<char>| #[trigger]
                self@.contains_key(p) && self@[p].1 == n) && (forall|p: Seq<char>| #[trigger]
                self@.contains_key(p) ==> self@[p].1 <= n),
            r is None ==> forall|p: Seq<char>| !self@.contains_key(p),
    {
        proof {
            use_type_invariant(self);
        }
        let ghost s = self.entries@;
        if self.entries.len() == 0 {
            return None;
        }
        let mut best = self.entries[0].inode;
        let ghost mut at: int = 0;
        let mut i: usize = 1;
        while i < self.entries.len()
            invariant
                1 <= i <= self.entries@.len(),
                s == self.entries@,
                0 <= at < i,
                s[at].inode == best,
                forall|j: int| 0 <= j < i ==> (#[trigger] s[j]).inode <= best,
            decreases self.entries@.len() - i,
        {
            if self.entries[i].inode > best {
                best = self.entries[i].inode;
                proof {
                    at = i as int;
                }
            }
            i += 1;
        }
        proof {
            let p = s[at].path@;
            assert(listed_path(s, p));
            let k = place_of(s, p);
            assert(s[k].path@ == s[at].path@);
            assert(self@.contains_key(p) && self@[p].1 == best);
            assert forall|q: Seq<char>| #[trigger] self@.contains_key(q) implies self@[q].1
                <= best by {
                let j = place_of(s, q);
                assert(s[j].inode <= best);
            }
        }
        Some(best)
    }
}

} // verus!
