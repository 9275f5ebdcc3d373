//! Rebuilding the archive's hash tables after paths were added: the file
//! path table is grouped into buckets by hash and sorted by hash within
//! each bucket, so that a path is found by binary search in its bucket.
use std::collections::HashMap;
use vstd::prelude::*;

verus! {

broadcast use {vstd::seq_lib::group_to_multiset_ensures, vstd::std_specs::hash::group_hash_axioms};

/// The bucket a hash falls in.
pub open spec fn bucket_of(h: u64, count: u64) -> int {
    (h % count) as int
}

/// Entry `a` comes no later than entry `b`: by bucket, then by hash.
pub open spec fn bucket_le(a: (u64, u32), b: (u64, u32), count: u64) -> bool {
    bucket_of(a.0, count) < bucket_of(b.0, count) || (bucket_of(a.0, count) == bucket_of(b.0, count) && a.0 <= b.0)
}

/// A table sorted by bucket, then by hash.
pub open spec fn sorted_by_bucket(t: Seq<(u64, u32)>, count: u64) -> bool {
    forall|i: int, j: int| 0 <= i < j < t.len() ==> bucket_le(#[trigger] t[i], #[trigger] t[j], count)
}

/// The (hash, index) entry of each file path, in path order.
pub open spec fn path_entries(hashes: Seq<u64>) -> Seq<(u64, u32)> {
    Seq::new(hashes.len(), |i: int| (hashes[i], i as u32))
}

/// The first position, from `i` on, of an entry in bucket `b` or a later one.
pub open spec fn first_from(t: Seq<(u64, u32)>, b: int, count: u64, i: int) -> int
    decreases t.len() - i,
{
    if i < 0 || i >= t.len() {
        t.len() as int
    } else if bucket_of(t[i].0, count) >= b {
        i
    } else {
        first_from(t, b, count, i + 1)
    }
}

/// The key a table is sorted by: bucket, then hash.
fn bucket_key(e: (u64, u32), count: u64) -> (r: (u64, u64))
    requires
        count > 0,
    ensures
        r == (e.0 % count, e.0),
{
    (e.0 % count, e.0)
}

/// Sorts the entries by bucket, then hash, with `slice::sort_by_key`: the
/// result holds the same entries, in order of the key. (The sort is stable;
/// that is not stated here.)
#[verifier::external_body]
fn sort_by_bucket(v: &mut Vec<(u64, u32)>, count: u64)
    requires
        count > 0,
    ensures
        final(v)@.to_multiset() == old(v)@.to_multiset(),
        sorted_by_bucket(final(v)@, count),
{
    v.sort_by_key(|e| bucket_key(*e, count));
}

proof fn lemma_first_from_at(t: Seq<(u64, u32)>, b: int, count: u64, i: int, p: int)
    requires
        count > 0,
        0 <= i <= p <= t.len(),
        forall|k: int| i <= k < p ==> bucket_of(#[trigger] t[k].0, count) < b,
        p == t.len() || bucket_of(t[p].0, count) >= b,
    ensures
        first_from(t, b, count, i) == p,
    decreases p - i,
{
    if i < p {
        lemma_first_from_at(t, b, count, i + 1, p);
    }
}

/// Rebuilds the file hash table: one (hash, path index) entry per path,
/// grouped by bucket (the hash modulo `bucket_count`) and sorted by hash in
/// each bucket, with each bucket's start and length in the table.
pub fn resort_file_hashes(path_hashes: &Vec<u64>, bucket_count: u64) -> (r: (Vec<(u64, u32)>, Vec<(u32, u32)>))
    requires
        bucket_count > 0,
        bucket_count <= usize::MAX,
        path_hashes@.len() < 0x100_0000,
    ensures
        r.0@.to_multiset() == path_entries(path_hashes@).to_multiset(),
        sorted_by_bucket(r.0@, bucket_count),
        r.1@.len() == bucket_count,
        forall|b: int| 0 <= b < bucket_count ==> {
            &&& (#[trigger] r.1@[b]).0 as int == first_from(r.0@, b, bucket_count, 0)
            &&& r.1@[b].0 + r.1@[b].1 == first_from(r.0@, b + 1, bucket_count, 0)
        },
{
    let n = path_hashes.len();
    let mut table: Vec<(u64, u32)> = Vec::new();
    let mut i: usize = 0;
    while i < n
        invariant
            n == path_hashes@.len(),
            n < 0x100_0000,
            i <= n,
            table@ == path_entries(path_hashes@).subrange(0, i as int),
        decreases n - i,
    {
        table.push((path_hashes[i], i as u32));
        i = i + 1;
        proof {
            assert(table@ =~= path_entries(path_hashes@).subrange(0, i as int));
        }
    }
    assert(table@ =~= path_entries(path_hashes@));
    sort_by_bucket(&mut table, bucket_count);
    let ghost t = table@;
    assert(t.len() == n) by {
        assert(t.to_multiset().len() == t.len());
        assert(path_entries(path_hashes@).to_multiset().len() == path_entries(path_hashes@).len());
    }
    let mut buckets: Vec<(u32, u32)> = Vec::new();
    let mut pos: usize = 0;
    let mut b: u64 = 0;
    while b < bucket_count
        invariant
            t == table@,
            t.len() == n,
            sorted_by_bucket(t, bucket_count),
            n < 0x100_0000,
            b <= bucket_count,
            pos <= n,
            forall|k: int| 0 <= k < pos ==> bucket_of(#[trigger] t[k].0, bucket_count) < b,
            pos == n || bucket_of(t[pos as int].0, bucket_count) >= b,
            buckets@.len() == b,
            forall|c: int| 0 <= c < b ==> {
                &&& (#[trigger] buckets@[c]).0 as int == first_from(t, c, bucket_count, 0)
                &&& buckets@[c].0 + buckets@[c].1 == first_from(t, c + 1, bucket_count, 0)
            },
        decreases bucket_count - b,
    {
        let start = pos;
        proof {
            lemma_first_from_at(t, b as int, bucket_count, 0, pos as int);
        }
        while pos < n && table[pos].0 % bucket_count == b
            invariant
                t == table@,
                t.len() == n,
                start <= pos <= n,
                b < bucket_count,
                forall|k: int| 0 <= k < start ==> bucket_of(#[trigger] t[k].0, bucket_count) < b,
                forall|k: int| start <= k < pos ==> bucket_of(#[trigger] t[k].0, bucket_count) == b,
                start == n || bucket_of(t[start as int].0, bucket_count) >= b,
                pos == start || bucket_of(t[start as int].0, bucket_count) == b,
            decreases n - pos,
        {
            pos = pos + 1;
        }
        proof {
            if pos < n && pos > start {
                assert(bucket_le(t[pos - 1], t[pos as int], bucket_count));
                assert(bucket_of(t[pos - 1].0, bucket_count) == b);
            }
            assert(pos == n || bucket_of(t[pos as int].0, bucket_count) >= b + 1);
            assert forall|k: int| 0 <= k < pos implies bucket_of(#[trigger] t[k].0, bucket_count) < b + 1 by {
                if k >= start {
                    assert(bucket_of(t[k].0, bucket_count) == b);
                }
            }
            lemma_first_from_at(t, b + 1, bucket_count, 0, pos as int);
        }
        buckets.push((start as u32, (pos - start) as u32));
        b = b + 1;
    }
    (table, buckets)
}

proof fn lemma_first_from_le(t: Seq<(u64, u32)>, b: int, count: u64, j: int, k: int)
    requires
        count > 0,
        0 <= j <= k < t.len(),
        bucket_of(t[k].0, count) >= b,
    ensures
        first_from(t, b, count, j) <= k,
    decreases k - j,
{
    if bucket_of(t[j].0, count) < b {
        lemma_first_from_le(t, b, count, j + 1, k);
    }
}

proof fn lemma_first_from_gt(t: Seq<(u64, u32)>, c: int, count: u64, j: int, k: int)
    requires
        count > 0,
        0 <= j <= k < t.len(),
        forall|m: int| j <= m <= k ==> bucket_of(#[trigger] t[m].0, count) < c,
    ensures
        first_from(t, c, count, j) > k,
    decreases t.len() - j,
{
    if j < k {
        lemma_first_from_gt(t, c, count, j + 1, k);
    } else {
        lemma_first_from_ge(t, c, count, j + 1);
    }
}

proof fn lemma_first_from_ge(t: Seq<(u64, u32)>, c: int, count: u64, j: int)
    requires
        0 <= j <= t.len(),
    ensures
        first_from(t, c, count, j) >= j,
    decreases t.len() - j,
{
    if j < t.len() && bucket_of(t[j].0, count) < c {
        lemma_first_from_ge(t, c, count, j + 1);
    }
}

/// After the file hash table is rebuilt, every path's entry lies within the
/// range of its bucket, so a lookup of the path's hash in its bucket finds it.
pub proof fn law_resorted_paths_are_found(hashes: Seq<u64>, count: u64, t: Seq<(u64, u32)>, i: int)
    requires
        count > 0,
        t.to_multiset() == path_entries(hashes).to_multiset(),
        sorted_by_bucket(t, count),
        0 <= i < hashes.len(),
    ensures
        exists|k: int| #![trigger t[k]]
            first_from(t, bucket_of(hashes[i], count), count, 0) <= k < first_from(t, bucket_of(hashes[i], count) + 1, count, 0)
            && t[k] == (hashes[i], i as u32),
{
    let e = (hashes[i], i as u32);
    let p = path_entries(hashes);
    assert(p[i] == e);
    assert(p.contains(e));
    assert(p.to_multiset().count(e) > 0);
    assert(t.to_multiset().count(e) > 0);
    assert(t.contains(e));
    let k = choose|k: int| 0 <= k < t.len() && t[k] == e;
    let b = bucket_of(hashes[i], count);
    lemma_first_from_le(t, b, count, 0, k);
    assert forall|m: int| 0 <= m <= k implies bucket_of(#[trigger] t[m].0, count) < b + 1 by {
        if m < k {
            assert(bucket_le(t[m], t[k], count));
        }
    }
    lemma_first_from_gt(t, b + 1, count, 0, k);
}

/// A table sorted by hash.
pub open spec fn sorted_by_hash(t: Seq<(u64, u32)>) -> bool {
    forall|i: int, j: int| 0 <= i < j < t.len() ==> (#[trigger] t[i]).0 <= (#[trigger] t[j]).0
}

/// Sorts the entries by hash with `slice::sort_by_key`: the result holds
/// the same entries, in order of hash. (The sort is stable; that is not
/// stated here.)
#[verifier::external_body]
pub(crate) fn sort_by_hash(v: &mut Vec<(u64, u32)>)
    ensures
        final(v)@.to_multiset() == old(v)@.to_multiset(),
        sorted_by_hash(final(v)@),
{
    v.sort_by_key(|e| e.0);
}

/// Rebuilds the folder path hash table of the search section: one (hash,
/// folder index) entry per folder path, sorted by hash.
pub fn resort_folder_paths(folder_hashes: &Vec<u64>) -> (r: Vec<(u64, u32)>)
    requires
        folder_hashes@.len() < 0x100_0000,
    ensures
        r@.to_multiset() == path_entries(folder_hashes@).to_multiset(),
        sorted_by_hash(r@),
{
    let n = folder_hashes.len();
    let mut table: Vec<(u64, u32)> = Vec::new();
    let mut i: usize = 0;
    while i < n
        invariant
            n == folder_hashes@.len(),
            n < 0x100_0000,
            i <= n,
            table@ == path_entries(folder_hashes@).subrange(0, i as int),
        decreases n - i,
    {
        table.push((folder_hashes[i], i as u32));
        i = i + 1;
        proof {
            assert(table@ =~= path_entries(folder_hashes@).subrange(0, i as int));
        }
    }
    assert(table@ =~= path_entries(folder_hashes@));
    sort_by_hash(&mut table);
    table
}

/// For the first `k` entries of the path list index table, the hash of the
/// path each names (the "none" markers left out), mapped to the entry's
/// place; a later entry replaces an earlier one.
pub open spec fn index_links(hashes: Seq<u64>, indices: Seq<u32>, k: int) -> Map<u64, int>
    decreases k,
{
    if k <= 0 {
        Map::empty()
    } else {
        let m = index_links(hashes, indices, k - 1);
        let v = indices[k - 1];
        if v != 0xFFFF_FFFF && v != 0xFF_FFFF {
            m.insert(hashes[v as int], k - 1)
        } else {
            m
        }
    }
}

/// The (hash, list index) entry of each path: the place in the path list
/// index table that names it, or the "none" marker.
pub open spec fn linked_entries(hashes: Seq<u64>, indices: Seq<u32>) -> Seq<(u64, u32)> {
    let links = index_links(hashes, indices, indices.len() as int);
    Seq::new(hashes.len(), |j: int| (hashes[j], if links.contains_key(hashes[j]) { links[hashes[j]] as u32 } else { 0xFF_FFFFu32 }))
}

/// Rebuilds the path hash table of the search section: one entry per path,
/// holding the path's hash and the place in the path list index table that
/// names the path (or the "none" marker), sorted by hash.
pub fn resort_paths(path_hashes: &Vec<u64>, path_list_indices: &Vec<u32>) -> (r: Vec<(u64, u32)>)
    requires
        path_list_indices@.len() < 0x100_0000,
        forall|k: int| 0 <= k < path_list_indices@.len() && #[trigger] path_list_indices@[k] != 0xFFFF_FFFF && path_list_indices@[k] != 0xFF_FFFF
            ==> (path_list_indices@[k] as int) < path_hashes@.len(),
    ensures
        r@.to_multiset() == linked_entries(path_hashes@, path_list_indices@).to_multiset(),
        sorted_by_hash(r@),
{
    let mut links: HashMap<u64, usize> = HashMap::new();
    let m = path_list_indices.len();
    let mut k: usize = 0;
    while k < m
        invariant
            m == path_list_indices@.len(),
            m < 0x100_0000,
            k <= m,
            forall|q: int| 0 <= q < path_list_indices@.len() && #[trigger] path_list_indices@[q] != 0xFFFF_FFFF && path_list_indices@[q] != 0xFF_FFFF
                ==> (path_list_indices@[q] as int) < path_hashes@.len(),
            forall|h: u64| #[trigger] links@.contains_key(h) <==> index_links(path_hashes@, path_list_indices@, k as int).contains_key(h),
            forall|h: u64| #[trigger] links@.contains_key(h) ==> links@[h] as int == index_links(path_hashes@, path_list_indices@, k as int)[h],
            forall|h: u64| #[trigger] links@.contains_key(h) ==> links@[h] < k,
        decreases m - k,
    {
        let v = path_list_indices[k];
        if v != 0xFFFF_FFFF && v != 0xFF_FFFF {
            links.insert(path_hashes[v as usize], k);
        }
        k = k + 1;
    }
    let n = path_hashes.len();
    let ghost want = linked_entries(path_hashes@, path_list_indices@);
    let mut table: Vec<(u64, u32)> = Vec::new();
    let mut j: usize = 0;
    while j < n
        invariant
            n == path_hashes@.len(),
            m == path_list_indices@.len(),
            m < 0x100_0000,
            j <= n,
            want == linked_entries(path_hashes@, path_list_indices@),
            forall|h: u64| #[trigger] links@.contains_key(h) <==> index_links(path_hashes@, path_list_indices@, m as int).contains_key(h),
            forall|h: u64| #[trigger] links@.contains_key(h) ==> links@[h] as int == index_links(path_hashes@, path_list_indices@, m as int)[h],
            forall|h: u64| #[trigger] links@.contains_key(h) ==> links@[h] < m,
            table@ == want.subrange(0, j as int),
        decreases n - j,
    {
        let h = path_hashes[j];
        let idx: u32 = match links.get(&h) {
            Some(x) => *x as u32,
            None => 0xFF_FFFF,
        };
        table.push((h, idx));
        j = j + 1;
        proof {
            assert(table@ =~= want.subrange(0, j as int));
        }
    }
    assert(table@ =~= want);
    sort_by_hash(&mut table);
    table
}

} // verus!
