//! The patch layer: which mod folder supplies each archive path.
use std::collections::HashMap;
use vstd::prelude::*;

use crate::hashing::{spec_hash40, Hash40};
use crate::path::{join, join_paths, chars_of, string_of, str_eq};

verus! {

broadcast use vstd::std_specs::hash::group_hash_axioms;

/// A file supplied by a mod: the mod folder it lives in and its size.
#[derive(Clone, Debug)]
pub struct FileEntry {
    pub root: String,
    pub size: usize,
}

impl FileEntry {
    /// The file's place on disk: the root joined with the local path.
    pub fn full_path(&self, local: &str) -> (r: String)
        ensures
            r@ == join(self.root@, local@),
    {
        let root = chars_of(self.root.as_str());
        let local = chars_of(local);
        let joined = join_paths(&root, &local);
        string_of(&joined)
    }
}

/// A borrowed view of a patched file.
#[derive(Clone, Copy, Debug)]
pub struct FileEntryRef<'a> {
    pub root: &'a str,
    pub size: usize,
}

impl<'a> FileEntryRef<'a> {
    /// The file's place on disk: the root joined with the local path.
    pub fn full_path(&self, local: &str) -> (r: String)
        ensures
            r@ == join(self.root@, local@),
    {
        let root = chars_of(self.root);
        let local = chars_of(local);
        let joined = join_paths(&root, &local);
        string_of(&joined)
    }
}

#[derive(Clone, Debug)]
struct InternalEntry {
    local: String,
    root_idx: u32,
    size: u32,
}

/// Two mods supplied the same path; one of them won.
#[derive(Debug)]
pub struct Conflict {
    pub local: String,
    pub winning_root: String,
    pub losing_root: String,
}

/// The key under which a local path is found: the hash of the path.
pub open spec fn path_key(local: Seq<char>) -> u64 {
    spec_hash40(local)
}

/// What the patch layer records for a key: the local path, the mod root and
/// the size (kept as 32 bits).
pub type PatchRecord = (Seq<char>, Seq<char>, u32);

/// Files patched in from mod folders, found by path hash.
pub struct PatchLayer {
    entries: Vec<InternalEntry>,
    roots: Vec<String>,
    index: HashMap<u64, u32>,
    conflicts: Vec<Conflict>,
}

impl PatchLayer {
    /// The layer's invariant: every key points at an entry, every entry at a
    /// root, every entry's local path is a key, no root is stored twice, and
    /// the counts fit the 32-bit indices.
    pub closed spec fn wf(&self) -> bool {
        &&& forall|k: u64| #[trigger] self.index@.contains_key(k) ==> (self.index@[k] as int) < self.entries@.len()
        &&& forall|i: int| 0 <= i < self.entries@.len() ==> (#[trigger] self.entries@[i].root_idx as int) < self.roots@.len()
        &&& forall|i: int, j: int| 0 <= i < self.roots@.len() && 0 <= j < self.roots@.len() && i != j ==> #[trigger] self.roots@[i]@ != #[trigger] self.roots@[j]@
        &&& forall|i: int| 0 <= i < self.entries@.len() ==> self.index@.contains_key(path_key((#[trigger] self.entries@[i]).local@))
        &&& self.entries@.len() <= u32::MAX
        &&& self.roots@.len() <= u32::MAX
    }

    /// Which entry slot a key points at.
    pub closed spec fn slot(&self, key: u64) -> Option<int> {
        if self.index@.contains_key(key) {
            Some(self.index@[key] as int)
        } else {
            None
        }
    }

    /// What is recorded under a key.
    pub closed spec fn lookup(&self, key: u64) -> Option<PatchRecord> {
        if self.index@.contains_key(key) {
            let e = self.entries@[self.index@[key] as int];
            Some((e.local@, self.roots@[e.root_idx as int]@, e.size))
        } else {
            None
        }
    }

    pub closed spec fn spec_num_entries(&self) -> nat {
        self.entries@.len()
    }

    pub closed spec fn spec_num_roots(&self) -> nat {
        self.roots@.len()
    }

    /// Whether some mod root with this text is recorded.
    pub closed spec fn spec_has_root(&self, root: Seq<char>) -> bool {
        exists|i: int| 0 <= i < self.roots@.len() && #[trigger] self.roots@[i]@ == root
    }

    pub closed spec fn spec_conflicts(&self) -> Seq<Conflict> {
        self.conflicts@
    }

    pub fn new() -> (r: Self)
        ensures
            r.wf(),
            forall|k: u64| r.lookup(k) is None,
            r.spec_num_entries() == 0,
            r.spec_num_roots() == 0,
            forall|x: Seq<char>| !#[trigger] r.spec_has_root(x),
            r.spec_conflicts().len() == 0,
    {
        PatchLayer { entries: Vec::new(), roots: Vec::new(), index: HashMap::new(), conflicts: Vec::new() }
    }

    /// The index of `root` among the roots, adding it when it is new.
    fn intern_root(&mut self, root: String) -> (r: u32)
        requires
            old(self).wf(),
            old(self).roots@.len() < u32::MAX,
        ensures
            final(self).wf(),
            (r as int) < final(self).roots@.len(),
            final(self).roots@[r as int]@ == root@,
            final(self).entries == old(self).entries,
            final(self).index == old(self).index,
            final(self).conflicts == old(self).conflicts,
            final(self).roots@.len() == old(self).roots@.len() + (if old(self).spec_has_root(root@) { 0int } else { 1int }),
            old(self).spec_has_root(root@) ==> final(self).roots@ == old(self).roots@,
            !old(self).spec_has_root(root@) ==> final(self).roots@ == old(self).roots@.push(root),
            forall|i: int| 0 <= i < old(self).roots@.len() ==> #[trigger] final(self).roots@[i] == old(self).roots@[i],
    {
        let mut i: usize = 0;
        while i < self.roots.len()
            invariant
                i <= self.roots@.len(),
                self.wf(),
                self.roots@.len() < u32::MAX,
                self.entries == old(self).entries,
                self.roots == old(self).roots,
                self.index == old(self).index,
                self.conflicts == old(self).conflicts,
                forall|j: int| 0 <= j < i ==> self.roots@[j]@ != root@,
            decreases self.roots@.len() - i,
        {
            if str_eq(self.roots[i].as_str(), &chars_of(root.as_str())) {
                assert(self.roots@[i as int]@ == root@);
                return i as u32;
            }
            i = i + 1;
        }
        let idx = self.roots.len() as u32;
        assert(!old(self).spec_has_root(root@));
        self.roots.push(root);
        proof {
            let r = self.roots@;
            assert forall|a: int, b: int| 0 <= a < r.len() && 0 <= b < r.len() && a != b implies #[trigger] r[a]@ != #[trigger] r[b]@ by {
                if a < r.len() - 1 && b < r.len() - 1 {
                    assert(r[a] == old(self).roots@[a]);
                    assert(r[b] == old(self).roots@[b]);
                }
            }
            assert forall|j: int| 0 <= j < self.entries@.len() implies (#[trigger] self.entries@[j].root_idx as int) < self.roots@.len() by {}
        }
        idx
    }

    fn key_of(local: &str) -> (r: u64)
        ensures
            r == path_key(local@),
    {
        Hash40::from_str(local).0
    }

    /// Records that `local` comes from `entry`; a second name `hash` may
    /// point at the same record.
    pub fn insert(&mut self, local: String, entry: FileEntry, hash: Option<Hash40>)
        requires
            old(self).wf(),
            old(self).spec_num_entries() < u32::MAX,
            old(self).spec_num_roots() < u32::MAX,
        ensures
            final(self).wf(),
            ({
                let key = path_key(local@);
                let rec = (local@, entry.root@, entry.size as u32);
                &&& final(self).lookup(key) == Some(rec)
                &&& (hash matches Some(h) ==> final(self).lookup(h.0) == Some(rec))
                &&& forall|k: u64| k != key && !(hash matches Some(h) && h.0 == k) ==> {
                    if old(self).slot(k) is Some && old(self).slot(k) == old(self).slot(key) {
                        #[trigger] final(self).lookup(k) == Some(rec)
                    } else {
                        final(self).lookup(k) == old(self).lookup(k)
                    }
                }
            }),
            final(self).spec_conflicts() == old(self).spec_conflicts(),
            final(self).spec_num_entries() == old(self).spec_num_entries() + (if old(self).lookup(path_key(local@)) is Some { 0int } else { 1int }),
            final(self).spec_num_roots() == old(self).spec_num_roots() + (if old(self).spec_has_root(entry.root@) { 0int } else { 1int }),
            final(self).spec_has_root(entry.root@),
            forall|x: Seq<char>| #[trigger] final(self).spec_has_root(x) <==> (old(self).spec_has_root(x) || x == entry.root@),
    {
        let ghost old_roots = self.roots@;
        let root_idx = self.intern_root(entry.root);
        let size = entry.size as u32;
        let path_key = Self::key_of(local.as_str());
        let ghost local_view = local@;
        let entry_idx: u32 = match self.index.get(&path_key) {
            Some(idx) => {
                let idx = *idx;
                let slot = InternalEntry { local, root_idx, size };
                self.entries.set(idx as usize, slot);
                idx
            },
            None => {
                let idx = self.entries.len() as u32;
                self.entries.push(InternalEntry { local, root_idx, size });
                self.index.insert(path_key, idx);
                idx
            },
        };
        proof {
            assert forall|i: int| 0 <= i < self.entries@.len() implies (#[trigger] self.entries@[i].root_idx as int) < self.roots@.len() by {
                if i != entry_idx as int {
                    assert(self.entries@[i] == old(self).entries@[i]);
                }
            }
            assert(self.roots@[root_idx as int]@ == entry.root@);
            assert(self.index@.contains_key(path_key));
            assert(self.index@[path_key] == entry_idx);
        }
        match hash {
            Some(h) => {
                if h.0 != path_key {
                    self.index.insert(h.0, entry_idx);
                }
            },
            None => {},
        }
        proof {
            let rec = (local_view, entry.root@, entry.size as u32);
            assert forall|x: Seq<char>| #[trigger] self.spec_has_root(x) <==> (old(self).spec_has_root(x) || x == entry.root@) by {
                if old(self).spec_has_root(x) {
                    let i = choose|i: int| 0 <= i < old(self).roots@.len() && #[trigger] old(self).roots@[i]@ == x;
                    assert(self.roots@[i] == old(self).roots@[i]);
                }
                if x == entry.root@ {
                    assert(self.roots@[root_idx as int]@ == x);
                }
                if self.spec_has_root(x) && !old(self).spec_has_root(x) {
                    let i = choose|i: int| 0 <= i < self.roots@.len() && #[trigger] self.roots@[i]@ == x;
                    if i < old(self).roots@.len() {
                        assert(self.roots@[i] == old(self).roots@[i]);
                    }
                }
            }
            assert(self.entries@[entry_idx as int].local@ == local_view);
            assert(self.lookup(path_key) == Some(rec));
            assert forall|k: u64| k != path_key && !(hash matches Some(h) && h.0 == k) implies {
                if old(self).slot(k) is Some && old(self).slot(k) == old(self).slot(path_key) {
                    #[trigger] self.lookup(k) == Some(rec)
                } else {
                    self.lookup(k) == old(self).lookup(k)
                }
            } by {
                if old(self).index@.contains_key(k) {
                    let oi = old(self).index@[k] as int;
                    assert(self.index@[k] == old(self).index@[k]);
                    if oi != entry_idx as int {
                        assert(self.entries@[oi] == old(self).entries@[oi]);
                        assert(self.roots@[old(self).entries@[oi].root_idx as int] == old_roots[old(self).entries@[oi].root_idx as int]);
                    }
                }
            }
        }
    }

    pub fn record_conflict(&mut self, conflict: Conflict)
        requires
            old(self).wf(),
        ensures
            final(self).wf(),
            forall|k: u64| #[trigger] final(self).lookup(k) == old(self).lookup(k),
            final(self).spec_conflicts() == old(self).spec_conflicts().push(conflict),
    {
        self.conflicts.push(conflict);
    }

    fn to_ref(&self, idx: u32) -> (r: FileEntryRef<'_>)
        requires
            self.wf(),
            (idx as int) < self.entries@.len(),
        ensures
            r.root@ == self.roots@[self.entries@[idx as int].root_idx as int]@,
            r.size == self.entries@[idx as int].size,
    {
        let entry = &self.entries[idx as usize];
        FileEntryRef { root: self.roots[entry.root_idx as usize].as_str(), size: entry.size as usize }
    }

    /// The file recorded for a local path.
    pub fn get(&self, local: &str) -> (r: Option<FileEntryRef<'_>>)
        requires
            self.wf(),
        ensures
            match self.lookup(path_key(local@)) {
                Some(rec) => r matches Some(e) && e.root@ == rec.1 && e.size == rec.2,
                None => r is None,
            },
    {
        let key = Self::key_of(local);
        match self.index.get(&key) {
            Some(idx) => Some(self.to_ref(*idx)),
            None => None,
        }
    }

    /// The local path and the file recorded under a hash.
    pub fn entry_for_hash(&self, hash: Hash40) -> (r: Option<(&str, FileEntryRef<'_>)>)
        requires
            self.wf(),
        ensures
            match self.lookup(hash.0) {
                Some(rec) => r matches Some((l, e)) && l@ == rec.0 && e.root@ == rec.1 && e.size == rec.2,
                None => r is None,
            },
    {
        match self.index.get(&hash.0) {
            Some(idx) => {
                let idx = *idx;
                let entry = &self.entries[idx as usize];
                Some((entry.local.as_str(), self.to_ref(idx)))
            },
            None => None,
        }
    }

    pub fn contains(&self, local: &str) -> (r: bool)
        requires
            self.wf(),
        ensures
            r == (self.lookup(path_key(local@)) is Some),
    {
        let key = Self::key_of(local);
        self.index.contains_key(&key)
    }

    pub fn conflicts(&self) -> (r: &[Conflict])
        ensures
            r@ == self.spec_conflicts(),
    {
        self.conflicts.as_slice()
    }

    /// What the `i`-th recorded file holds: its local path, root and size.
    pub closed spec fn entry_record(&self, i: int) -> PatchRecord {
        let e = self.entries@[i];
        (e.local@, self.roots@[e.root_idx as int]@, e.size)
    }

    /// The local path of every recorded file is found again.
    pub proof fn lemma_recorded_path_found(&self, i: int)
        requires
            self.wf(),
            0 <= i < self.spec_num_entries(),
        ensures
            self.lookup(path_key(self.entry_record(i).0)) is Some,
    {
        assert(self.index@.contains_key(path_key(self.entries@[i].local@)));
    }

    /// Every recorded file with its local path, in the order recorded.
    pub fn iter_files(&self) -> (r: Vec<(&str, FileEntryRef<'_>)>)
        requires
            self.wf(),
        ensures
            r@.len() == self.spec_num_entries(),
            forall|i: int| 0 <= i < r@.len() ==> {
                &&& (#[trigger] r@[i]).0@ == self.entry_record(i).0
                &&& r@[i].1.root@ == self.entry_record(i).1
                &&& r@[i].1.size == self.entry_record(i).2
            },
    {
        let mut out: Vec<(&str, FileEntryRef<'_>)> = Vec::new();
        let n = self.entries.len();
        let mut i: usize = 0;
        while i < n
            invariant
                self.wf(),
                n == self.entries@.len(),
                i <= n,
                out@.len() == i,
                forall|j: int| 0 <= j < i ==> {
                    &&& (#[trigger] out@[j]).0@ == self.entry_record(j).0
                    &&& out@[j].1.root@ == self.entry_record(j).1
                    &&& out@[j].1.size == self.entry_record(j).2
                },
            decreases n - i,
        {
            let entry = &self.entries[i];
            out.push((entry.local.as_str(), self.to_ref(i as u32)));
            i = i + 1;
        }
        out
    }

    pub fn num_entries(&self) -> (r: usize)
        ensures
            r == self.spec_num_entries(),
    {
        self.entries.len()
    }

    pub fn num_roots(&self) -> (r: usize)
        ensures
            r == self.spec_num_roots(),
    {
        self.roots.len()
    }
}

} // verus!
