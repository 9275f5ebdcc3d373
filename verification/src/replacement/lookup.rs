//! Lookup tables built once from the archive: where each file path sits in
//! its directory, and which file paths share their data with others.
use std::collections::{HashMap, HashSet};
use vstd::prelude::*;

use crate::hashing::Hash40;

verus! {

broadcast use vstd::std_specs::hash::group_hash_axioms;

/// The parts of the archive's tables that the lookups are built from:
/// each directory's path hash and the range of its file infos, the file
/// path that each file info names, and the hash of each file path.
pub struct ArcTables {
    pub dir_hashes: Vec<u64>,
    pub dir_file_start: Vec<u32>,
    pub dir_file_count: Vec<u32>,
    pub file_info_path: Vec<u32>,
    pub path_hashes: Vec<u64>,
}

impl ArcTables {
    /// Every directory has a start and a count, and every file info of every
    /// directory names a file path that exists.
    pub open spec fn wf(&self) -> bool {
        &&& self.dir_file_start@.len() == self.dir_hashes@.len()
        &&& self.dir_file_count@.len() == self.dir_hashes@.len()
        &&& forall|d: int| 0 <= d < self.dir_hashes@.len() ==>
                (#[trigger] self.dir_file_start@[d]) + self.dir_file_count@[d] <= self.file_info_path@.len()
        &&& forall|i: int| 0 <= i < self.file_info_path@.len() ==>
                (#[trigger] self.file_info_path@[i] as int) < self.path_hashes@.len()
    }

    /// The path hash of the `k`-th file of directory `d`.
    pub open spec fn child_hash(&self, d: int, k: int) -> u64 {
        self.path_hashes@[self.file_info_path@[self.dir_file_start@[d] + k] as int]
    }
}

/// Where a file path sits: the path hash of its directory and its place
/// among that directory's files.
pub struct UnshareLookup {
    pub entries: HashMap<u64, (u64, usize)>,
}

/// Entries for the first `k` files of directory `d`, laid over `m`.
pub open spec fn insert_children(t: ArcTables, d: int, k: int, m: Map<u64, (u64, usize)>) -> Map<u64, (u64, usize)>
    decreases k,
{
    if k <= 0 {
        m
    } else {
        insert_children(t, d, k - 1, m).insert(t.child_hash(d, k - 1), (t.dir_hashes@[d], (k - 1) as usize))
    }
}

/// The unshare lookup after the first `d` directories: a later entry for the
/// same path replaces an earlier one.
pub open spec fn unshare_upto(t: ArcTables, d: int) -> Map<u64, (u64, usize)>
    decreases d,
{
    if d <= 0 {
        Map::empty()
    } else {
        insert_children(t, d - 1, t.dir_file_count@[d - 1] as int, unshare_upto(t, d - 1))
    }
}

/// The path hashes whose data is shared, and for each path hash the paths
/// that share its data.
pub struct ShareLookup {
    pub is_shared_search: HashSet<u64>,
    pub shared_file_lookup: HashMap<u64, Vec<u64>>,
}

impl ShareLookup {
    pub open spec fn shared(&self) -> Set<u64> {
        self.is_shared_search@
    }

    pub open spec fn lists(&self) -> Map<u64, Seq<u64>> {
        Map::new(|k: u64| self.shared_file_lookup@.contains_key(k), |k: u64| self.shared_file_lookup@[k]@)
    }
}

/// The lists after the first `n` file paths: path `i` whose data lives at
/// another path `j` is appended to the list of `j`'s hash.
pub open spec fn lists_upto(h: Seq<u64>, s: Seq<Option<usize>>, n: int) -> Map<u64, Seq<u64>>
    decreases n,
{
    if n <= 0 {
        Map::empty()
    } else {
        let m = lists_upto(h, s, n - 1);
        match s[n - 1] {
            Some(j) => if j as int != n - 1 {
                let key = h[j as int];
                if m.contains_key(key) {
                    m.insert(key, m[key].push(h[n - 1]))
                } else {
                    m.insert(key, seq![h[n - 1]])
                }
            } else {
                m
            },
            None => m,
        }
    }
}

/// The shared set after the first `n` file paths: both ends of each sharing.
pub open spec fn shared_upto(h: Seq<u64>, s: Seq<Option<usize>>, n: int) -> Set<u64>
    decreases n,
{
    if n <= 0 {
        Set::empty()
    } else {
        let st = shared_upto(h, s, n - 1);
        match s[n - 1] {
            Some(j) => if j as int != n - 1 {
                st.insert(h[j as int]).insert(h[n - 1])
            } else {
                st
            },
            None => st,
        }
    }
}

/// Each shared index names an existing file path.
pub open spec fn shares_in_bounds(h: Seq<u64>, s: Seq<Option<usize>>) -> bool {
    &&& s.len() == h.len()
    &&& forall|i: int| 0 <= i < s.len() && (#[trigger] s[i]) is Some ==> (s[i]->0 as int) < h.len()
}

impl UnshareLookup {
    /// Records, for every file of every directory, the directory's hash and
    /// the file's place in it.
    pub fn build(t: &ArcTables) -> (r: UnshareLookup)
        requires
            t.wf(),
        ensures
            r.entries@ == unshare_upto(*t, t.dir_hashes@.len() as int),
    {
        let mut entries: HashMap<u64, (u64, usize)> = HashMap::new();
        let mut d: usize = 0;
        while d < t.dir_hashes.len()
            invariant
                t.wf(),
                d <= t.dir_hashes@.len(),
                entries@ == unshare_upto(*t, d as int),
            decreases t.dir_hashes@.len() - d,
        {
            let start = t.dir_file_start[d] as usize;
            let count = t.dir_file_count[d] as usize;
            let dir_hash = t.dir_hashes[d];
            let total = t.file_info_path.len();
            let ghost before = entries@;
            let mut k: usize = 0;
            while k < count
                invariant
                    t.wf(),
                    d < t.dir_hashes@.len(),
                    start == t.dir_file_start@[d as int],
                    count == t.dir_file_count@[d as int],
                    dir_hash == t.dir_hashes@[d as int],
                    k <= count,
                    total == t.file_info_path@.len(),
                    entries@ == insert_children(*t, d as int, k as int, before),
                decreases count - k,
            {
                proof {
                    assert(t.dir_file_start@[d as int] + t.dir_file_count@[d as int] <= t.file_info_path@.len());
                    assert(start + k < t.file_info_path@.len());
                }
                let path_idx = t.file_info_path[start + k] as usize;
                let hash = t.path_hashes[path_idx];
                entries.insert(hash, (dir_hash, k));
                k = k + 1;
            }
            d = d + 1;
        }
        UnshareLookup { entries }
    }
}

impl ShareLookup {
    /// Builds the lookup from each file path's hash and the index of the
    /// path that holds its data (`None` where that could not be found).
    pub fn build(path_hashes: &Vec<u64>, shared_index: &Vec<Option<usize>>) -> (r: ShareLookup)
        requires
            shares_in_bounds(path_hashes@, shared_index@),
        ensures
            r.lists() == lists_upto(path_hashes@, shared_index@, path_hashes@.len() as int),
            r.shared() == shared_upto(path_hashes@, shared_index@, path_hashes@.len() as int),
    {
        let mut lookup: HashMap<u64, Vec<u64>> = HashMap::new();
        let mut shared: HashSet<u64> = HashSet::new();
        let mut i: usize = 0;
        while i < path_hashes.len()
            invariant
                shares_in_bounds(path_hashes@, shared_index@),
                i <= path_hashes@.len(),
                Map::new(|k: u64| lookup@.contains_key(k), |k: u64| lookup@[k]@)
                    == lists_upto(path_hashes@, shared_index@, i as int),
                shared@ == shared_upto(path_hashes@, shared_index@, i as int),
            decreases path_hashes@.len() - i,
        {
            let ghost before = lookup@;
            let hash = path_hashes[i];
            match shared_index[i] {
                Some(j) => {
                    if j != i {
                        proof {
                            assert(shared_index@[i as int] is Some);
                        }
                        let shared_hash = path_hashes[j];
                        let mut list = match lookup.remove(&shared_hash) {
                            Some(v) => v,
                            None => Vec::new(),
                        };
                        list.push(hash);
                        lookup.insert(shared_hash, list);
                        shared.insert(shared_hash);
                        shared.insert(hash);
                        proof {
                            let old_lists = lists_upto(path_hashes@, shared_index@, i as int);
                            assert(old_lists.contains_key(shared_hash) == before.contains_key(shared_hash));
                            assert(Map::new(|k: u64| lookup@.contains_key(k), |k: u64| lookup@[k]@)
                                =~= lists_upto(path_hashes@, shared_index@, i as int + 1));
                        }
                    } else {
                        proof {
                            assert(Map::new(|k: u64| lookup@.contains_key(k), |k: u64| lookup@[k]@)
                                =~= lists_upto(path_hashes@, shared_index@, i as int + 1));
                        }
                    }
                },
                None => {
                    proof {
                        assert(Map::new(|k: u64| lookup@.contains_key(k), |k: u64| lookup@[k]@)
                            =~= lists_upto(path_hashes@, shared_index@, i as int + 1));
                    }
                },
            }
            i = i + 1;
        }
        let r = ShareLookup { is_shared_search: shared, shared_file_lookup: lookup };
        proof {
            assert(r.lists() =~= lists_upto(path_hashes@, shared_index@, path_hashes@.len() as int));
        }
        r
    }
}

/// Builds the unshare lookup if it is not there yet; one that is there stays.
pub fn initialize_unshare(lut: &mut Option<UnshareLookup>, t: &ArcTables)
    requires
        (*old(lut)) is None ==> t.wf(),
    ensures
        (*old(lut)) is Some ==> *final(lut) == *old(lut),
        (*old(lut)) is None ==> (*final(lut)) is Some && (*final(lut))->0.entries@ == unshare_upto(*t, t.dir_hashes@.len() as int),
{
    if lut.is_none() {
        *lut = Some(UnshareLookup::build(t));
    }
}

/// Builds the share lookup if it is not there yet; one that is there stays.
pub fn initialize_share(lut: &mut Option<ShareLookup>, path_hashes: &Vec<u64>, shared_index: &Vec<Option<usize>>)
    requires
        (*old(lut)) is None ==> shares_in_bounds(path_hashes@, shared_index@),
    ensures
        (*old(lut)) is Some ==> *final(lut) == *old(lut),
        (*old(lut)) is None ==> (*final(lut)) is Some
            && (*final(lut))->0.lists() == lists_upto(path_hashes@, shared_index@, path_hashes@.len() as int)
            && (*final(lut))->0.shared() == shared_upto(path_hashes@, shared_index@, path_hashes@.len() as int),
{
    if lut.is_none() {
        *lut = Some(ShareLookup::build(path_hashes, shared_index));
    }
}

/// The directory and the place in it of a file path, where the lookup has it.
pub fn get_dir_entry_for_file(lut: &Option<UnshareLookup>, hash: Hash40) -> (r: Option<(Hash40, usize)>)
    ensures
        match *lut {
            Some(l) => if l.entries@.contains_key(hash.0) {
                r == Some((Hash40(l.entries@[hash.0].0), l.entries@[hash.0].1))
            } else {
                r is None
            },
            None => r is None,
        },
{
    match lut {
        Some(l) => match l.entries.get(&hash.0) {
            Some(e) => Some((Hash40(e.0), e.1)),
            None => None,
        },
        None => None,
    }
}

/// Whether a file path shares its data with another.
pub fn is_shared_file(lut: &Option<ShareLookup>, hash: Hash40) -> (r: bool)
    ensures
        r == match *lut {
            Some(l) => l.shared().contains(hash.0),
            None => false,
        },
{
    match lut {
        Some(l) => l.is_shared_search.contains(&hash.0),
        None => false,
    }
}

/// The lists after recording that `hash` now shares the data of `shared_to`:
/// a path that has a list of its own gets itself appended to it; otherwise
/// `shared_to` gets a list holding `hash` alone, in place of any it had.
pub open spec fn lists_after_add(m: Map<u64, Seq<u64>>, hash: u64, shared_to: u64) -> Map<u64, Seq<u64>> {
    if m.contains_key(hash) {
        m.insert(hash, m[hash].push(hash))
    } else {
        m.insert(shared_to, seq![hash])
    }
}

/// Records that `hash` shares the data of `shared_to`.
pub fn add_shared_file(lut: &mut Option<ShareLookup>, hash: Hash40, shared_to: Hash40)
    ensures
        match *old(lut) {
            Some(l) => (*final(lut)) is Some
                && (*final(lut))->0.shared() == l.shared().insert(shared_to.0)
                && (*final(lut))->0.lists() == lists_after_add(l.lists(), hash.0, shared_to.0),
            None => (*final(lut)) is None,
        },
{
    match lut {
        Some(l) => {
            let ghost before = l.lists();
            l.is_shared_search.insert(shared_to.0);
            match l.shared_file_lookup.remove(&hash.0) {
                Some(list) => {
                    let mut list = list;
                    list.push(hash.0);
                    l.shared_file_lookup.insert(hash.0, list);
                },
                None => {
                    let mut list: Vec<u64> = Vec::new();
                    list.push(hash.0);
                    l.shared_file_lookup.insert(shared_to.0, list);
                },
            }
            proof {
                assert(l.lists() =~= lists_after_add(before, hash.0, shared_to.0));
            }
        },
        None => {},
    }
}

/// Takes a path out of the shared set; says whether it was in it.
pub fn remove_shared_file(lut: &mut Option<ShareLookup>, hash: Hash40) -> (r: bool)
    ensures
        match *old(lut) {
            Some(l) => (*final(lut)) is Some
                && r == l.shared().contains(hash.0)
                && (*final(lut))->0.shared() == l.shared().remove(hash.0)
                && (*final(lut))->0.lists() == l.lists(),
            None => (*final(lut)) is None && !r,
        },
{
    match lut {
        Some(l) => {
            let ghost before = l.lists();
            let r = l.is_shared_search.remove(&hash.0);
            proof {
                assert(l.lists() =~= before);
            }
            r
        },
        None => false,
    }
}

/// How many paths share the data of this one.
pub fn get_shared_file_count(lut: &Option<ShareLookup>, hash: Hash40) -> (r: usize)
    ensures
        r == match *lut {
            Some(l) => if l.lists().contains_key(hash.0) { l.lists()[hash.0].len() } else { 0 },
            None => 0,
        },
{
    match lut {
        Some(l) => match l.shared_file_lookup.get(&hash.0) {
            Some(v) => v.len(),
            None => 0,
        },
        None => 0,
    }
}

/// The `index`-th path that shares the data of this one.
pub fn get_shared_file(lut: &Option<ShareLookup>, hash: Hash40, index: usize) -> (r: Option<Hash40>)
    ensures
        r == match *lut {
            Some(l) => if l.lists().contains_key(hash.0) && index < l.lists()[hash.0].len() {
                Some(Hash40(l.lists()[hash.0][index as int]))
            } else {
                None
            },
            None => None,
        },
{
    match lut {
        Some(l) => match l.shared_file_lookup.get(&hash.0) {
            Some(v) => if index < v.len() {
                Some(Hash40(v[index]))
            } else {
                None
            },
            None => None,
        },
        None => None,
    }
}

/// Whether `(dh, c)` truly places the path `key`: some directory with hash
/// `dh` has at least `c + 1` files, and its file number `c` has that path.
pub open spec fn places(t: ArcTables, key: u64, dh: u64, c: usize) -> bool {
    exists|d: int| 0 <= d < t.dir_hashes@.len()
        && #[trigger] t.dir_hashes@[d] == dh
        && (c as int) < t.dir_file_count@[d]
        && t.child_hash(d, c as int) == key
}

proof fn lemma_insert_children(t: ArcTables, d: int, k: int, m: Map<u64, (u64, usize)>)
    requires
        t.wf(),
        0 <= d < t.dir_hashes@.len(),
        0 <= k <= t.dir_file_count@[d],
        forall|key: u64| #[trigger] m.contains_key(key) ==> places(t, key, m[key].0, m[key].1),
    ensures
        forall|key: u64| #[trigger] insert_children(t, d, k, m).contains_key(key)
            ==> places(t, key, insert_children(t, d, k, m)[key].0, insert_children(t, d, k, m)[key].1),
        forall|c: int| 0 <= c < k ==> #[trigger] insert_children(t, d, k, m).contains_key(t.child_hash(d, c)),
        forall|key: u64| m.contains_key(key) ==> #[trigger] insert_children(t, d, k, m).contains_key(key),
    decreases k,
{
    if k > 0 {
        lemma_insert_children(t, d, k - 1, m);
        let prev = insert_children(t, d, k - 1, m);
        let r = insert_children(t, d, k, m);
        let key = t.child_hash(d, k - 1);
        assert(r == prev.insert(key, (t.dir_hashes@[d], (k - 1) as usize)));
        assert(places(t, key, t.dir_hashes@[d], (k - 1) as usize));
        assert forall|kk: u64| #[trigger] r.contains_key(kk) implies places(t, kk, r[kk].0, r[kk].1) by {
            if kk != key {
                assert(prev.contains_key(kk));
            }
        }
        assert forall|c: int| 0 <= c < k implies #[trigger] r.contains_key(t.child_hash(d, c)) by {
            if c < k - 1 {
                assert(prev.contains_key(t.child_hash(d, c)));
            }
        }
        assert forall|kk: u64| m.contains_key(kk) implies #[trigger] r.contains_key(kk) by {
            assert(prev.contains_key(kk));
        }
    } else {
        assert(insert_children(t, d, k, m) == m);
    }
}

proof fn lemma_unshare_upto(t: ArcTables, n: int)
    requires
        t.wf(),
        0 <= n <= t.dir_hashes@.len(),
    ensures
        forall|key: u64| #[trigger] unshare_upto(t, n).contains_key(key)
            ==> places(t, key, unshare_upto(t, n)[key].0, unshare_upto(t, n)[key].1),
        forall|d: int, c: int| 0 <= d < n && 0 <= c < t.dir_file_count@[d]
            ==> #[trigger] unshare_upto(t, n).contains_key(t.child_hash(d, c)),
    decreases n,
{
    if n > 0 {
        lemma_unshare_upto(t, n - 1);
        lemma_insert_children(t, n - 1, t.dir_file_count@[n - 1] as int, unshare_upto(t, n - 1));
        assert forall|d: int, c: int| 0 <= d < n && 0 <= c < t.dir_file_count@[d]
            implies #[trigger] unshare_upto(t, n).contains_key(t.child_hash(d, c)) by {
            if d < n - 1 {
                assert(unshare_upto(t, n - 1).contains_key(t.child_hash(d, c)));
            }
        }
    }
}

/// The unshare lookup knows every file of every directory, and what it
/// answers for a path is a true place of that path: a directory with that
/// hash whose file at that position has that path.
pub proof fn law_unshare_lookup_places_files(t: ArcTables)
    requires
        t.wf(),
    ensures
        forall|d: int, c: int| 0 <= d < t.dir_hashes@.len() && 0 <= c < t.dir_file_count@[d]
            ==> #[trigger] unshare_upto(t, t.dir_hashes@.len() as int).contains_key(t.child_hash(d, c)),
        forall|key: u64| #[trigger] unshare_upto(t, t.dir_hashes@.len() as int).contains_key(key)
            ==> places(t, key, unshare_upto(t, t.dir_hashes@.len() as int)[key].0,
                unshare_upto(t, t.dir_hashes@.len() as int)[key].1),
{
    lemma_unshare_upto(t, t.dir_hashes@.len() as int);
}

/// Path `i` keeps its data at another path.
pub open spec fn shares_elsewhere(s: Seq<Option<usize>>, i: int) -> bool {
    s[i] is Some && s[i]->0 as int != i
}

proof fn lemma_lists_complete(h: Seq<u64>, s: Seq<Option<usize>>, n: int, i: int)
    requires
        shares_in_bounds(h, s),
        0 <= i < n <= h.len(),
        shares_elsewhere(s, i),
    ensures
        lists_upto(h, s, n).contains_key(h[s[i]->0 as int]),
        lists_upto(h, s, n)[h[s[i]->0 as int]].contains(h[i]),
    decreases n,
{
    let m = lists_upto(h, s, n - 1);
    let m2 = lists_upto(h, s, n);
    let key = h[s[i]->0 as int];
    if i == n - 1 {
        if m.contains_key(key) {
            assert(m2[key] == m[key].push(h[i]));
        } else {
            assert(m2[key] == seq![h[i]]);
        }
        assert(m2[key][m2[key].len() - 1] == h[i]);
    } else {
        lemma_lists_complete(h, s, n - 1, i);
        let w = choose|w: int| 0 <= w < m[key].len() && m[key][w] == h[i];
        if shares_elsewhere(s, n - 1) && h[s[n - 1]->0 as int] == key {
            assert(m2[key] == m[key].push(h[n - 1]));
        } else {
            assert(m2.contains_key(key) && m2[key] == m[key]);
        }
        assert(m2[key][w] == h[i]);
    }
}

proof fn lemma_lists_sound(h: Seq<u64>, s: Seq<Option<usize>>, n: int, k: u64, x: u64)
    requires
        shares_in_bounds(h, s),
        0 <= n <= h.len(),
        lists_upto(h, s, n).contains_key(k),
        lists_upto(h, s, n)[k].contains(x),
    ensures
        exists|i: int| 0 <= i < n && #[trigger] shares_elsewhere(s, i) && h[i] == x && h[s[i]->0 as int] == k,
    decreases n,
{
    if n > 0 {
        let m = lists_upto(h, s, n - 1);
        let m2 = lists_upto(h, s, n);
        let w = choose|w: int| 0 <= w < m2[k].len() && m2[k][w] == x;
        if shares_elsewhere(s, n - 1) && h[s[n - 1]->0 as int] == k {
            if m.contains_key(k) {
                assert(m2[k] == m[k].push(h[n - 1]));
                if w < m2[k].len() - 1 {
                    assert(m[k][w] == x);
                    lemma_lists_sound(h, s, n - 1, k, x);
                } else {
                    assert(shares_elsewhere(s, n - 1) && h[n - 1] == x);
                }
            } else {
                assert(m2[k] == seq![h[n - 1]]);
                assert(shares_elsewhere(s, n - 1) && h[n - 1] == x);
            }
        } else {
            assert(m.contains_key(k) && m2[k] == m[k]);
            lemma_lists_sound(h, s, n - 1, k, x);
        }
    }
}

proof fn lemma_shared_set(h: Seq<u64>, s: Seq<Option<usize>>, n: int, x: u64)
    requires
        shares_in_bounds(h, s),
        0 <= n <= h.len(),
    ensures
        shared_upto(h, s, n).contains(x) <==>
            exists|i: int| 0 <= i < n && #[trigger] shares_elsewhere(s, i) && (h[i] == x || h[s[i]->0 as int] == x),
    decreases n,
{
    if n > 0 {
        lemma_shared_set(h, s, n - 1, x);
        if exists|i: int| 0 <= i < n && #[trigger] shares_elsewhere(s, i) && (h[i] == x || h[s[i]->0 as int] == x) {
            let i = choose|i: int| 0 <= i < n && #[trigger] shares_elsewhere(s, i) && (h[i] == x || h[s[i]->0 as int] == x);
            if i < n - 1 {
                assert(shared_upto(h, s, n - 1).contains(x));
            }
        }
        if shared_upto(h, s, n - 1).contains(x) {
            let i = choose|i: int| 0 <= i < n - 1 && #[trigger] shares_elsewhere(s, i) && (h[i] == x || h[s[i]->0 as int] == x);
            assert(0 <= i < n);
        }
        if shares_elsewhere(s, n - 1) && (h[n - 1] == x || h[s[n - 1]->0 as int] == x) {
            assert(0 <= n - 1 < n);
        }
    }
}

/// The share lookup built from the archive lists, under each path's hash,
/// exactly the paths that keep their data there; and a hash is in the
/// shared set exactly when it is at one end of such a sharing.
pub proof fn law_share_lookup_lists_sharers(h: Seq<u64>, s: Seq<Option<usize>>)
    requires
        shares_in_bounds(h, s),
    ensures
        forall|i: int| 0 <= i < h.len() && #[trigger] shares_elsewhere(s, i) ==>
            lists_upto(h, s, h.len() as int).contains_key(h[s[i]->0 as int])
            && lists_upto(h, s, h.len() as int)[h[s[i]->0 as int]].contains(h[i]),
        forall|k: u64, x: u64| lists_upto(h, s, h.len() as int).contains_key(k)
            && #[trigger] lists_upto(h, s, h.len() as int)[k].contains(x)
            ==> exists|i: int| 0 <= i < h.len() && #[trigger] shares_elsewhere(s, i) && h[i] == x && h[s[i]->0 as int] == k,
        forall|x: u64| #[trigger] shared_upto(h, s, h.len() as int).contains(x) <==>
            exists|i: int| 0 <= i < h.len() && #[trigger] shares_elsewhere(s, i) && (h[i] == x || h[s[i]->0 as int] == x),
{
    assert forall|i: int| 0 <= i < h.len() && #[trigger] shares_elsewhere(s, i) implies
        lists_upto(h, s, h.len() as int).contains_key(h[s[i]->0 as int])
        && lists_upto(h, s, h.len() as int)[h[s[i]->0 as int]].contains(h[i]) by {
        lemma_lists_complete(h, s, h.len() as int, i);
    }
    assert forall|k: u64, x: u64| lists_upto(h, s, h.len() as int).contains_key(k) && #[trigger] lists_upto(h, s, h.len() as int)[k].contains(x)
        implies exists|i: int| 0 <= i < h.len() && #[trigger] shares_elsewhere(s, i) && h[i] == x && h[s[i]->0 as int] == k by {
        lemma_lists_sound(h, s, h.len() as int, k, x);
    }
    assert forall|x: u64| #[trigger] shared_upto(h, s, h.len() as int).contains(x) <==>
        exists|i: int| 0 <= i < h.len() && #[trigger] shares_elsewhere(s, i) && (h[i] == x || h[s[i]->0 as int] == x) by {
        lemma_shared_set(h, s, h.len() as int, x);
    }
}

/// After a path is recorded as sharing another's data, that other path is
/// reported shared; after a path is taken out, it is not.
pub proof fn law_add_then_remove_shared(l: ShareLookup, hash: u64, shared_to: u64, x: u64)
    ensures
        l.shared().insert(shared_to).contains(shared_to),
        !l.shared().insert(shared_to).remove(x).contains(x),
        x != shared_to ==> (l.shared().insert(shared_to).remove(x).contains(shared_to)),
        lists_after_add(l.lists(), hash, shared_to).contains_key(hash) || lists_after_add(l.lists(), hash, shared_to).contains_key(shared_to),
        lists_after_add(l.lists(), hash, shared_to).contains_key(hash) ==> lists_after_add(l.lists(), hash, shared_to)[hash].last() == hash,
        !l.lists().contains_key(hash) ==> lists_after_add(l.lists(), hash, shared_to)[shared_to] == seq![hash],
{
}

} // verus!
