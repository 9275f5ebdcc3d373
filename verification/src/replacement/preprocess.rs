//! Resharing the files of a directory to the files of another: each file of
//! the dependent directory whose data comes from a file that some file of
//! the source directory also leads to is pointed at that source file.
use std::collections::{HashMap, HashSet};
use vstd::prelude::*;

use crate::remote::table::{find_in_pairs, spec_find_dir};
use crate::replacement::file_groups::{info_indices_wf, shared_info, shared_info_of};
use crate::replacement::unshare::{addition_wf, AdditionContext};
use crate::unsharing::{chain_step, find_path_by_hash, first_path_from, tables_wf, FileInfoRec, FileTables, TablesView};

verus! {

broadcast use vstd::std_specs::hash::group_hash_axioms;

/// The file path that holds the data of the path with hash `h` in the
/// archive: the path its file info names, followed by hash until a path
/// names itself; `None` where a hash has no path or the chain does not
/// settle within `fuel` steps.
pub open spec fn arc_shared_file(a: TablesView, h: u64, fuel: nat) -> Option<int>
    decreases fuel,
{
    match first_path_from(a.fp, h, 0) {
        None => None,
        Some(p) => {
            let q = chain_step(a, p);
            if a.fp[q].path_hash == h {
                Some(q)
            } else if fuel == 0 {
                None
            } else {
                arc_shared_file(a, a.fp[q].path_hash, (fuel - 1) as nat)
            }
        },
    }
}

/// Finds the file path that holds the data of the path with hash `h`.
pub fn shared_file_by_hash(a: &FileTables, h: u64) -> (r: Option<usize>)
    requires
        tables_wf(a@),
    ensures
        match r {
            Some(q) => arc_shared_file(a@, h, a@.fp.len()) == Some(q as int) && q < a@.fp.len(),
            None => arc_shared_file(a@, h, a@.fp.len()) is None,
        },
{
    let n = a.file_paths.len();
    let mut cur = h;
    let mut fuel = n;
    loop
        invariant
            tables_wf(a@),
            n == a@.fp.len(),
            fuel <= n,
            arc_shared_file(a@, h, n as nat) == arc_shared_file(a@, cur, fuel as nat),
        decreases fuel,
    {
        let p = match find_path_by_hash(a, cur) {
            Some(p) => p,
            None => {
                return None;
            },
        };
        proof {
            assert((a@.fp[p as int].path_index as int) < a@.ii.len());
            assert((a@.ii[a@.fp[p as int].path_index as int].file_info_index as int) < a@.fi.len());
        }
        let f = a.info_indices[a.file_paths[p].path_index as usize].file_info_index as usize;
        let q = a.file_infos[f].file_path_index as usize;
        if a.file_paths[q].path_hash == cur {
            return Some(q);
        }
        if fuel == 0 {
            return None;
        }
        cur = a.file_paths[q].path_hash;
        fuel = fuel - 1;
    }
}

/// For the first `k` file infos of the source directory (from `ss`): the
/// path holding the data of each one's path (in the archive `a`), mapped
/// to that file info's path; a later file info replaces an earlier one.
pub open spec fn source_map(v: TablesView, a: TablesView, ss: int, k: int) -> Map<u32, u32>
    decreases k,
{
    if k <= 0 {
        Map::empty()
    } else {
        let m = source_map(v, a, ss, k - 1);
        let fp = v.fi[ss + k - 1].file_path_index;
        match arc_shared_file(a, v.fp[fp as int].path_hash, a.fp.len()) {
            Some(i) => m.insert(i as u32, fp),
            None => m,
        }
    }
}

/// The tables and the reshared path hashes after the first `k` file infos of
/// the dependent directory (from `ds`) are handled: one whose data comes
/// through a file info whose path the map has is pointed at the path the
/// map gives, and its former path's hash is recorded.
pub open spec fn reshare_contained_upto(v: TablesView, m: Map<u32, u32>, ds: int, k: int) -> (TablesView, Set<u64>)
    decreases k,
{
    if k <= 0 {
        (v, Set::empty())
    } else {
        let (w, hs) = reshare_contained_upto(v, m, ds, k - 1);
        let dep = ds + k - 1;
        match shared_info(w, dep, w.fi.len()) {
            Some(s) => if m.contains_key(w.fi[s].file_path_index) {
                let old = w.fi[dep];
                (
                    TablesView {
                        fi: w.fi.update(dep, FileInfoRec {
                            file_path_index: m[w.fi[s].file_path_index],
                            file_info_indice_index: old.file_info_indice_index,
                            info_to_data_index: old.info_to_data_index,
                            flags: old.flags,
                        }),
                        ..w
                    },
                    hs.insert(w.fp[old.file_path_index as int].path_hash),
                )
            } else {
                (w, hs)
            },
            None => (w, hs),
        }
    }
}

proof fn lemma_source_map_values(v: TablesView, a: TablesView, ss: int, k: int)
    requires
        tables_wf(v),
        0 <= ss,
        ss + k <= v.fi.len(),
    ensures
        forall|i: u32| #[trigger] source_map(v, a, ss, k).contains_key(i) ==> (source_map(v, a, ss, k)[i] as int) < v.fp.len(),
    decreases k,
{
    if k > 0 {
        lemma_source_map_values(v, a, ss, k - 1);
        let m = source_map(v, a, ss, k - 1);
        let fp = v.fi[ss + k - 1].file_path_index;
        assert((fp as int) < v.fp.len());
        match arc_shared_file(a, v.fp[fp as int].path_hash, a.fp.len()) {
            Some(x) => {
                assert forall|i: u32| #[trigger] source_map(v, a, ss, k).contains_key(i) implies (source_map(v, a, ss, k)[i] as int) < v.fp.len() by {
                    if i != x as u32 {
                        assert(m.contains_key(i));
                    }
                }
            },
            None => {},
        }
    }
}

/// Points the files of directory `dependent` at the files of directory
/// `source` that hold the same data: for each file of `source`, the path
/// holding its data (found in the archive by the path's hash) is mapped to
/// the file's path; each file of `dependent` whose data comes through a
/// file info whose path is so mapped then names the mapped path instead.
/// Gives the hashes of the paths the dependent files named before; nothing
/// changes where either directory is unknown.
pub fn reshare_contained_files(ctx: &mut AdditionContext, dependent: u64, source: u64) -> (r: HashSet<u64>)
    requires
        addition_wf(*old(ctx), 0),
        info_indices_wf(old(ctx).files@),
    ensures
        ({
            let v = old(ctx).files@;
            let pairs = old(ctx).dir_hash_to_index@;
            let dirs = old(ctx).dirs@;
            match (spec_find_dir(pairs, source), spec_find_dir(pairs, dependent)) {
                (Some(s), Some(d)) => {
                    let m = source_map(v, old(ctx).arc@, dirs[s as int].file_info_start as int, dirs[s as int].file_count as int);
                    let (w, hs) = reshare_contained_upto(v, m, dirs[d as int].file_info_start as int, dirs[d as int].file_count as int);
                    final(ctx).files@ == w && r@ == hs
                },
                _ => final(ctx).files@ == v && r@.is_empty(),
            }
        }),
        final(ctx).arc@ == old(ctx).arc@,
        final(ctx).dirs@ == old(ctx).dirs@,
        final(ctx).dir_hash_to_index@ == old(ctx).dir_hash_to_index@,
        final(ctx).loaded_filepaths == old(ctx).loaded_filepaths,
{
    let ghost v = ctx.files@;
    let ghost a = ctx.arc@;
    let s = match find_in_pairs(&ctx.dir_hash_to_index, source) {
        Some(s) => s as usize,
        None => {
            return HashSet::new();
        },
    };
    let d = match find_in_pairs(&ctx.dir_hash_to_index, dependent) {
        Some(d) => d as usize,
        None => {
            return HashSet::new();
        },
    };
    proof {
        crate::replacement::unshare::lemma_find_dir_in(ctx.dir_hash_to_index@, source, ctx.dirs@.len() as int);
        crate::replacement::unshare::lemma_find_dir_in(ctx.dir_hash_to_index@, dependent, ctx.dirs@.len() as int);
        assert(ctx.dirs@[s as int].file_info_start + ctx.dirs@[s as int].file_count <= v.fi.len());
        assert(ctx.dirs@[d as int].file_info_start + ctx.dirs@[d as int].file_count <= v.fi.len());
    }
    let ss = ctx.dirs[s].file_info_start as usize;
    let sc = ctx.dirs[s].file_count as usize;
    let ds = ctx.dirs[d].file_info_start as usize;
    let dc = ctx.dirs[d].file_count as usize;
    let n = ctx.files.file_infos.len();
    let mut map: HashMap<u32, u32> = HashMap::new();
    let mut k: usize = 0;
    while k < sc
        invariant
            tables_wf(v),
            tables_wf(a),
            ctx.files@ == v,
            ctx.arc@ == a,
            n == v.fi.len(),
            ss + sc <= n,
            k <= sc,
            map@ == source_map(v, a, ss as int, k as int),
        decreases sc - k,
    {
        let fp = ctx.files.file_infos[ss + k].file_path_index;
        proof {
            assert((v.fi[ss + k].file_path_index as int) < v.fp.len());
        }
        let h = ctx.files.file_paths[fp as usize].path_hash;
        match shared_file_by_hash(&ctx.arc, h) {
            Some(i) => {
                map.insert(i as u32, fp);
            },
            None => {},
        }
        k = k + 1;
    }
    proof {
        lemma_source_map_values(v, a, ss as int, sc as int);
    }
    let ghost m = map@;
    let mut hashes: HashSet<u64> = HashSet::new();
    let mut j: usize = 0;
    while j < dc
        invariant
            tables_wf(ctx.files@),
            info_indices_wf(ctx.files@),
            ctx.files@.fi.len() == n,
            ctx.arc@ == a,
            ctx.dirs@ == old(ctx).dirs@,
            ctx.dir_hash_to_index@ == old(ctx).dir_hash_to_index@,
            ctx.loaded_filepaths == old(ctx).loaded_filepaths,
            map@ == m,
            forall|i: u32| #[trigger] m.contains_key(i) ==> (m[i] as int) < v.fp.len(),
            ctx.files@.fp == v.fp,
            ds + dc <= n,
            j <= dc,
            (ctx.files@, hashes@) == reshare_contained_upto(v, m, ds as int, j as int),
        decreases dc - j,
    {
        let dep = ds + j;
        let ghost w = ctx.files@;
        match shared_info_of(&ctx.files, dep) {
            Some(sh) => {
                let key = ctx.files.file_infos[sh].file_path_index;
                match map.get(&key) {
                    Some(new_path) => {
                        let new_path = *new_path;
                        let old = ctx.files.file_infos[dep];
                        proof {
                            assert((w.fi[dep as int].file_path_index as int) < w.fp.len());
                        }
                        let h = ctx.files.file_paths[old.file_path_index as usize].path_hash;
                        ctx.files.file_infos.set(dep, FileInfoRec {
                            file_path_index: new_path,
                            file_info_indice_index: old.file_info_indice_index,
                            info_to_data_index: old.info_to_data_index,
                            flags: old.flags,
                        });
                        hashes.insert(h);
                        proof {
                            let nw = ctx.files@;
                            assert(nw =~= TablesView {
                                fi: w.fi.update(dep as int, FileInfoRec {
                                    file_path_index: m[w.fi[sh as int].file_path_index],
                                    file_info_indice_index: old.file_info_indice_index,
                                    info_to_data_index: old.info_to_data_index,
                                    flags: old.flags,
                                }),
                                ..w
                            });
                            assert forall|f: int| 0 <= f < nw.fi.len() implies ((#[trigger] nw.fi[f]).file_info_indice_index as int) < nw.ii.len() by {
                                assert(nw.fi[f].file_info_indice_index == w.fi[f].file_info_indice_index);
                            }
                            assert forall|f: int| 0 <= f < nw.fi.len() implies ((#[trigger] nw.fi[f]).file_path_index as int) < nw.fp.len()
                                && (nw.fi[f].info_to_data_index as int) < nw.itd.len() by {
                                if f != dep {
                                    assert(nw.fi[f] == w.fi[f]);
                                }
                            }
                        }
                    },
                    None => {},
                }
            },
            None => {},
        }
        j = j + 1;
    }
    hashes
}

} // verus!
