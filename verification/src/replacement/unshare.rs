//! Unsharing inside an addition context: a file that shares the data of
//! another gets a chain of entries of its own, and the files that share the
//! data of a file about to be unshared are first moved to a fresh copy.
use std::collections::HashSet;
use vstd::prelude::*;

use crate::hashing::{spec_hash40, Hash40};
use crate::region::{spec_entry_locale, spec_locale_number, spec_region_from_index, spec_region_locale, Locale};
use crate::remote::table::{find_in_pairs, spec_find_dir};
use crate::replacement::extensions::{flags_from_bits, lemma_flags_bits, spec_with_flag, FileInfoFlags, FileInfoFlagsExt};
use crate::replacement::lookup::{get_dir_entry_for_file, get_shared_file, get_shared_file_count, is_shared_file, remove_shared_file, ShareLookup, UnshareLookup};
use crate::unsharing::{
    chain_step, find_path_by_hash, first_path_from, info_of_path, is_localized, is_regional, lemma_first_path_bounds, tables_wf, DirRec,
    FileInfoRec, FilePathRec, FileTables, InfoIndexRec, InfoToDataRec, TablesView,
};

verus! {

broadcast use vstd::std_specs::hash::group_hash_axioms;

/// The tables an addition context works on: its own file tables, which
/// start as a copy of the archive's and grow, the archive's file tables as
/// they were (where lookups by hash go), the directories with the
/// (hash, index) pairs that find them, and how many loaded file paths the
/// game can hold.
pub struct AdditionContext {
    pub files: FileTables,
    pub arc: FileTables,
    pub dirs: Vec<DirRec>,
    pub dir_hash_to_index: Vec<(u64, u32)>,
    pub loaded_filepaths: usize,
}

/// Every index in the tables names an existing entry, the context's tables
/// extend the archive's, and every regional file info has an entry for the
/// user's region.
pub open spec fn addition_wf(t: AdditionContext, region: int) -> bool {
    &&& tables_wf(t.files@)
    &&& tables_wf(t.arc@)
    &&& t.arc@.fp.len() <= t.files@.fp.len()
    &&& t.arc@.ii.len() <= t.files@.ii.len()
    &&& t.arc@.fi.len() <= t.files@.fi.len()
    &&& t.arc@.itd.len() <= t.files@.itd.len()
    &&& t.arc@.datas.len() <= t.files@.datas.len()
    &&& forall|f: int| 0 <= f < t.arc@.fi.len() && #[trigger] is_regional(t.arc@.fi[f].flags) ==>
            t.arc@.fi[f].info_to_data_index as int + region < t.arc@.itd.len()
    &&& forall|d: int| 0 <= d < t.dirs@.len() ==> (#[trigger] t.dirs@[d]).file_info_start + t.dirs@[d].file_count <= t.files@.fi.len()
    &&& forall|i: int| 0 <= i < t.dir_hash_to_index@.len() ==> ((#[trigger] t.dir_hash_to_index@[i]).1 as int) < t.dirs@.len()
    &&& forall|f: int| 0 <= f < t.files@.fi.len() && #[trigger] is_regional(t.files@.fi[f].flags) ==>
            t.files@.fi[f].info_to_data_index as int + region < t.files@.itd.len()
}

/// Room for `n` more entries in each table: info-index entries are named
/// in 24 bits, the others in 32.
pub open spec fn has_room(t: AdditionContext, n: int) -> bool {
    &&& t.files@.ii.len() + n < 0x100_0000
    &&& t.files@.fp.len() + n < 0xFFFF_FFFF
    &&& t.files@.fi.len() + n < 0xFFFF_FFFF
    &&& t.files@.itd.len() + n < 0xFFFF_FFFF
    &&& t.files@.datas.len() + n < 0xFFFF_FFFF
    &&& t.loaded_filepaths + n < usize::MAX
}

/// Each entry of the unshare lookup whose directory exists names a file of
/// that directory.
pub open spec fn entries_in_range(dirs: Seq<DirRec>, pairs: Seq<(u64, u32)>, entries: Map<u64, (u64, usize)>) -> bool {
    forall|h: u64| #[trigger] entries.contains_key(h) ==> match spec_find_dir(pairs, entries[h].0) {
        Some(d) => (entries[h].1 as int) < dirs[d as int].file_count,
        None => true,
    }
}

/// The entries of an unshare lookup; none where it was not built.
pub open spec fn lut_entries(l: Option<UnshareLookup>) -> Map<u64, (u64, usize)> {
    match l {
        Some(l) => l.entries@,
        None => Map::empty(),
    }
}

/// The shared set of a share lookup; empty where it was not built.
pub open spec fn lut_shared(l: Option<ShareLookup>) -> Set<u64> {
    match l {
        Some(l) => l.shared(),
        None => Set::empty(),
    }
}

/// The lists of a share lookup; none where it was not built.
pub open spec fn lut_lists(l: Option<ShareLookup>) -> Map<u64, Seq<u64>> {
    match l {
        Some(l) => l.lists(),
        None => Map::empty(),
    }
}

/// The paths that share the data of `hash`.
pub open spec fn deps_of(lists: Map<u64, Seq<u64>>, hash: u64) -> Seq<u64> {
    if lists.contains_key(hash) {
        lists[hash]
    } else {
        Seq::empty()
    }
}

/// Flags with the standalone flag set.
pub open spec fn standalone(f: FileInfoFlags) -> FileInfoFlags {
    flags_from_bits(spec_with_flag(f.spec_bits(), 1, true))
}

/// Flags with the regional flag cleared.
pub open spec fn not_regional(f: FileInfoFlags) -> FileInfoFlags {
    flags_from_bits(f.spec_bits() & !0x8000u32)
}

/// A path hash with its length byte set to 255, which no path of the game
/// has, so that the hash is new.
pub open spec fn with_length_ff(h: u64) -> u64 {
    (h & 0xFFFF_FFFFu64) | 0xFF_0000_0000u64
}

/// The tables with the standalone flag set on file info `f`.
pub open spec fn set_standalone_at(v: TablesView, f: int) -> TablesView {
    TablesView {
        fi: v.fi.update(f, FileInfoRec {
            file_path_index: v.fi[f].file_path_index,
            file_info_indice_index: v.fi[f].file_info_indice_index,
            info_to_data_index: v.fi[f].info_to_data_index,
            flags: standalone(v.fi[f].flags),
        }),
        ..v
    }
}

/// The tables `v` with a fresh chain appended for the data of path `p`: a
/// new path (the hash with length 255) naming a new info-index entry,
/// naming a new standalone file info copied from the one `p` leads to in
/// the archive `a`, with a copy of its info-to-data entry (for the user's
/// region where it is regional, which it then no longer is) naming a copy
/// of its file data.
pub open spec fn fresh_chain(v: TablesView, a: TablesView, p: int, region: int) -> TablesView {
    let src = a.fi[info_of_path(a, p)];
    let regional = is_regional(src.flags);
    let itd_src = if regional { src.info_to_data_index as int + region } else { src.info_to_data_index as int };
    let copied = v.itd[itd_src];
    let flags = if regional { not_regional(standalone(src.flags)) } else { standalone(src.flags) };
    TablesView {
        fp: v.fp.push(FilePathRec { path_hash: with_length_ff(v.fp[p].path_hash), path_index: v.ii.len() as u32, ext_hash: v.fp[p].ext_hash }),
        ii: v.ii.push(InfoIndexRec { dir_offset_index: 0xFF_FFFF, file_info_index: v.fi.len() as u32 }),
        fi: v.fi.push(FileInfoRec {
            file_path_index: v.fp.len() as u32,
            file_info_indice_index: v.ii.len() as u32,
            info_to_data_index: v.itd.len() as u32,
            flags,
        }),
        itd: v.itd.push(InfoToDataRec { folder_offset_index: copied.folder_offset_index, file_data_index: v.datas.len() as u32, load_bits: copied.load_bits }),
        datas: v.datas.push(v.datas[copied.file_data_index as int]),
        loaded_len: v.loaded_len,
    }
}

/// The tables after the sharer `dh` is moved to info-index entry `new_ii`:
/// where it is still shared, not ignored, and its directory entry is known,
/// its file info in the directory and its path name `new_ii`, and the file
/// info becomes standalone.
pub open spec fn redirect_dependent(v: TablesView, dirs: Seq<DirRec>, pairs: Seq<(u64, u32)>, shared: Set<u64>, ignore: Set<u64>,
    entries: Map<u64, (u64, usize)>, dh: u64, new_ii: int) -> TablesView {
    if !shared.contains(dh) || ignore.contains(dh) || !entries.contains_key(dh) {
        v
    } else {
        match spec_find_dir(pairs, entries[dh].0) {
            None => v,
            Some(d) => {
                let x = dirs[d as int].file_info_start + entries[dh].1;
                let dep = v.fi[x];
                let dp = dep.file_path_index as int;
                TablesView {
                    fi: v.fi.update(x, FileInfoRec {
                        file_path_index: dep.file_path_index,
                        file_info_indice_index: new_ii as u32,
                        info_to_data_index: dep.info_to_data_index,
                        flags: standalone(dep.flags),
                    }),
                    fp: v.fp.update(dp, FilePathRec { path_hash: v.fp[dp].path_hash, path_index: new_ii as u32, ext_hash: v.fp[dp].ext_hash }),
                    ..v
                }
            },
        }
    }
}

/// The tables after the first `k` sharers in `deps` are moved.
pub open spec fn redirect_dependents(v: TablesView, dirs: Seq<DirRec>, pairs: Seq<(u64, u32)>, shared: Set<u64>, ignore: Set<u64>,
    entries: Map<u64, (u64, usize)>, deps: Seq<u64>, k: int, new_ii: int) -> TablesView
    decreases k,
{
    if k <= 0 {
        v
    } else {
        redirect_dependent(redirect_dependents(v, dirs, pairs, shared, ignore, entries, deps, k - 1, new_ii), dirs, pairs, shared, ignore,
            entries, deps[k - 1], new_ii)
    }
}

/// Whether resharing `hash` changes anything: the archive has its path and
/// others share its data.
pub open spec fn reshares(a: TablesView, lists: Map<u64, Seq<u64>>, hash: u64) -> bool {
    first_path_from(a.fp, hash, 0) is Some && deps_of(lists, hash).len() > 0
}

/// The tables after the files that share the data of `hash` are moved to a
/// fresh copy of it.
pub open spec fn reshared(v: TablesView, a: TablesView, dirs: Seq<DirRec>, pairs: Seq<(u64, u32)>, shared: Set<u64>, lists: Map<u64, Seq<u64>>,
    ignore: Set<u64>, entries: Map<u64, (u64, usize)>, hash: u64, region: int) -> TablesView {
    if reshares(a, lists, hash) {
        let deps = deps_of(lists, hash);
        redirect_dependents(fresh_chain(v, a, first_path_from(a.fp, hash, 0)->0, region), dirs, pairs, shared, ignore, entries, deps,
            deps.len() as int, v.ii.len() as int)
    } else {
        v
    }
}

pub(crate) proof fn lemma_standalone_flags(f: FileInfoFlags)
    ensures
        is_regional(standalone(f)) == is_regional(f),
        is_localized(standalone(f)) == is_localized(f),
        !is_regional(not_regional(f)),
        is_localized(not_regional(f)) == is_localized(f),
{
    let b = f.spec_bits();
    let s = spec_with_flag(b, 1, true);
    lemma_flags_bits(s, f);
    lemma_flags_bits(b & !0x8000u32, f);
    assert(s == ((b & 0x003F_FFFFu32) | (((b >> 22u32) | 1u32) << 22u32)));
    assert(((((b & 0x003F_FFFFu32) | (((b >> 22u32) | 1u32) << 22u32)) >> 15u32) & 1 == 1) == ((b >> 15u32) & 1 == 1)) by (bit_vector);
    assert(((((b & 0x003F_FFFFu32) | (((b >> 22u32) | 1u32) << 22u32)) >> 16u32) & 1 == 1) == ((b >> 16u32) & 1 == 1)) by (bit_vector);
    assert(!((((b & !0x8000u32) >> 15u32) & 1) == 1)) by (bit_vector);
    assert((((b & !0x8000u32) >> 16u32) & 1 == 1) == ((b >> 16u32) & 1 == 1)) by (bit_vector);
}

pub(crate) fn standalone_flags(f: FileInfoFlags) -> (r: FileInfoFlags)
    ensures
        r == standalone(f),
{
    let mut g = f;
    g.set_standalone_file(true);
    proof {
        lemma_flags_bits(g.spec_bits(), g);
    }
    g
}

/// Appends the fresh chain for the data of path `p`, copying the file info
/// that `p` leads to in the archive `a`.
fn push_fresh_chain(t: &mut FileTables, a: &FileTables, p: usize, region: usize)
    requires
        tables_wf(old(t)@),
        tables_wf(a@),
        p < a@.fp.len(),
        a@.fp.len() <= old(t)@.fp.len(),
        a@.itd.len() <= old(t)@.itd.len(),
        old(t)@.ii.len() + 1 < 0x100_0000,
        old(t)@.fp.len() + 1 < 0xFFFF_FFFF,
        old(t)@.fi.len() + 1 < 0xFFFF_FFFF,
        old(t)@.itd.len() + 1 < 0xFFFF_FFFF,
        old(t)@.datas.len() + 1 < 0xFFFF_FFFF,
        is_regional(a@.fi[info_of_path(a@, p as int)].flags) ==>
            a@.fi[info_of_path(a@, p as int)].info_to_data_index as int + region < a@.itd.len(),
    ensures
        final(t)@ == fresh_chain(old(t)@, a@, p as int, region as int),
        tables_wf(final(t)@),
{
    let ghost v = t@;
    proof {
        assert((a@.fp[p as int].path_index as int) < a@.ii.len());
        assert((a@.ii[a@.fp[p as int].path_index as int].file_info_index as int) < a@.fi.len());
    }
    let new_fp = t.file_paths.len() as u32;
    let new_ii = t.info_indices.len() as u32;
    let new_fi = t.file_infos.len() as u32;
    let new_itd = t.info_to_datas.len() as u32;
    let new_data = t.datas.len() as u32;
    let ii = a.file_paths[p].path_index as usize;
    let f = a.info_indices[ii].file_info_index as usize;
    let src = a.file_infos[f];
    proof {
        assert((a@.fi[f as int].info_to_data_index as int) < a@.itd.len());
    }
    let regional = src.flags.is_regional();
    let itd_src = if regional { src.info_to_data_index as usize + region } else { src.info_to_data_index as usize };
    let copied = t.info_to_datas[itd_src];
    proof {
        assert((v.itd[itd_src as int].file_data_index as int) < v.datas.len());
    }
    let mut flags = standalone_flags(src.flags);
    if regional {
        flags.set_is_regional(false);
    }
    let old_path = t.file_paths[p];
    let data = t.datas[copied.file_data_index as usize];
    t.file_paths.push(FilePathRec { path_hash: (old_path.path_hash & 0xFFFF_FFFFu64) | 0xFF_0000_0000u64, path_index: new_ii, ext_hash: old_path.ext_hash });
    t.info_indices.push(InfoIndexRec { dir_offset_index: 0xFF_FFFF, file_info_index: new_fi });
    t.file_infos.push(FileInfoRec { file_path_index: new_fp, file_info_indice_index: new_ii, info_to_data_index: new_itd, flags });
    t.info_to_datas.push(InfoToDataRec { folder_offset_index: copied.folder_offset_index, file_data_index: new_data, load_bits: copied.load_bits });
    t.datas.push(data);
    proof {
        lemma_standalone_flags(src.flags);
        assert(t@ =~= fresh_chain(v, a@, p as int, region as int));
    }
}

/// Moving a sharer keeps every index in its table and every table's length.
proof fn lemma_redirect_dependent(v: TablesView, dirs: Seq<DirRec>, pairs: Seq<(u64, u32)>, shared: Set<u64>, ignore: Set<u64>,
    entries: Map<u64, (u64, usize)>, dh: u64, new_ii: int, region: int)
    requires
        tables_wf(v),
        0 <= new_ii < v.ii.len(),
        new_ii < 0x100_0000,
        forall|d: int| 0 <= d < dirs.len() ==> (#[trigger] dirs[d]).file_info_start + dirs[d].file_count <= v.fi.len(),
        forall|i: int| 0 <= i < pairs.len() ==> ((#[trigger] pairs[i]).1 as int) < dirs.len(),
        entries_in_range(dirs, pairs, entries),
        forall|f: int| 0 <= f < v.fi.len() && #[trigger] is_regional(v.fi[f].flags) ==> v.fi[f].info_to_data_index as int + region < v.itd.len(),
    ensures
        ({
            let w = redirect_dependent(v, dirs, pairs, shared, ignore, entries, dh, new_ii);
            &&& tables_wf(w)
            &&& w.fp.len() == v.fp.len() && w.ii == v.ii && w.fi.len() == v.fi.len() && w.itd == v.itd && w.datas == v.datas
            &&& w.loaded_len == v.loaded_len
            &&& forall|f: int| 0 <= f < w.fi.len() && #[trigger] is_regional(w.fi[f].flags) ==> w.fi[f].info_to_data_index as int + region < w.itd.len()
        }),
{
    if shared.contains(dh) && !ignore.contains(dh) && entries.contains_key(dh) {
        match spec_find_dir(pairs, entries[dh].0) {
            None => {},
            Some(d) => {
                lemma_find_dir_in(pairs, entries[dh].0, dirs.len() as int);
                let x = dirs[d as int].file_info_start + entries[dh].1;
                assert(dirs[d as int].file_info_start + dirs[d as int].file_count <= v.fi.len());
                let dep = v.fi[x];
                lemma_standalone_flags(dep.flags);
                let w = redirect_dependent(v, dirs, pairs, shared, ignore, entries, dh, new_ii);
                assert forall|f: int| 0 <= f < w.fi.len() && #[trigger] is_regional(w.fi[f].flags) implies
                    w.fi[f].info_to_data_index as int + region < w.itd.len() by {
                    if f != x {
                        assert(w.fi[f] == v.fi[f]);
                    }
                }
            },
        }
    }
}

/// The directory that `spec_find_dir` finds is one of the pairs' directories.
pub(crate) proof fn lemma_find_dir_in(pairs: Seq<(u64, u32)>, hash: u64, n: int)
    requires
        forall|i: int| 0 <= i < pairs.len() ==> ((#[trigger] pairs[i]).1 as int) < n,
    ensures
        spec_find_dir(pairs, hash) matches Some(d) ==> (d as int) < n,
    decreases pairs.len(),
{
    if pairs.len() > 0 && pairs[0].0 != hash {
        assert forall|i: int| 0 <= i < pairs.drop_first().len() implies ((#[trigger] pairs.drop_first()[i]).1 as int) < n by {
            assert(pairs.drop_first()[i] == pairs[i + 1]);
        }
        lemma_find_dir_in(pairs.drop_first(), hash, n);
    }
}

/// Moves sharer `dh` to info-index entry `new_ii`.
fn redirect_one(t: &mut AdditionContext, share: &Option<ShareLookup>, unshare: &Option<UnshareLookup>, ignore: &HashSet<u64>, dh: u64,
    new_ii: u32, region: usize)
    requires
        addition_wf(*old(t), region as int),
        (new_ii as int) < old(t).files@.ii.len(),
        (new_ii as int) < 0x100_0000,
        entries_in_range(old(t).dirs@, old(t).dir_hash_to_index@, lut_entries(*unshare)),
    ensures
        final(t).files@.fp.len() == old(t).files@.fp.len() && final(t).files@.ii == old(t).files@.ii,
        final(t).files@.fi.len() == old(t).files@.fi.len() && final(t).files@.itd == old(t).files@.itd,
        final(t).files@.datas == old(t).files@.datas && final(t).files@.loaded_len == old(t).files@.loaded_len,
        final(t).files@ == redirect_dependent(old(t).files@, old(t).dirs@, old(t).dir_hash_to_index@, lut_shared(*share), ignore@,
            lut_entries(*unshare), dh, new_ii as int),
        final(t).dirs@ == old(t).dirs@,
        final(t).arc@ == old(t).arc@,
        final(t).dir_hash_to_index@ == old(t).dir_hash_to_index@,
        final(t).loaded_filepaths == old(t).loaded_filepaths,
        addition_wf(*final(t), region as int),
{
    let ghost v = t.files@;
    proof {
        lemma_redirect_dependent(v, t.dirs@, t.dir_hash_to_index@, lut_shared(*share), ignore@, lut_entries(*unshare), dh, new_ii as int,
            region as int);
    }
    if !is_shared_file(share, Hash40(dh)) {
        return;
    }
    if ignore.contains(&dh) {
        return;
    }
    let (dir_hash, child) = match get_dir_entry_for_file(unshare, Hash40(dh)) {
        Some(e) => e,
        None => {
            return;
        },
    };
    let d = match find_in_pairs(&t.dir_hash_to_index, dir_hash.0) {
        Some(d) => d as usize,
        None => {
            return;
        },
    };
    proof {
        lemma_find_dir_in(t.dir_hash_to_index@, dir_hash.0, t.dirs@.len() as int);
        assert(t.dirs@[d as int].file_info_start + t.dirs@[d as int].file_count <= v.fi.len());
    }
    let n_fi = t.files.file_infos.len();
    let x = t.dirs[d].file_info_start as usize + child;
    let dep = t.files.file_infos[x];
    let dp = dep.file_path_index as usize;
    proof {
        assert((v.fi[x as int].file_path_index as int) < v.fp.len());
    }
    let flags = standalone_flags(dep.flags);
    t.files.file_infos.set(x, FileInfoRec {
        file_path_index: dep.file_path_index,
        file_info_indice_index: new_ii,
        info_to_data_index: dep.info_to_data_index,
        flags,
    });
    let path = t.files.file_paths[dp];
    t.files.file_paths.set(dp, FilePathRec { path_hash: path.path_hash, path_index: new_ii, ext_hash: path.ext_hash });
    proof {
        assert(t.files@ =~= redirect_dependent(v, t.dirs@, t.dir_hash_to_index@, lut_shared(*share), ignore@, lut_entries(*unshare), dh,
            new_ii as int));
    }
}

/// Moves the files that share the data of `hash` to a fresh copy of it, so
/// that `hash` can be unshared without taking their data away: the copy is
/// a new chain of entries for the data `hash`'s path leads to, under a new
/// path, and each sharer that is still shared, not in `ignore`, and whose
/// directory entry is known then loads through it, as a standalone file.
/// The game gets room for one more loaded file path. Nothing changes where
/// `hash` has no path or no sharers.
pub fn reshare_dependent_files(t: &mut AdditionContext, share: &Option<ShareLookup>, unshare: &Option<UnshareLookup>,
    ignore: &HashSet<u64>, hash: u64, region: usize)
    requires
        addition_wf(*old(t), region as int),
        has_room(*old(t), 1),
        entries_in_range(old(t).dirs@, old(t).dir_hash_to_index@, lut_entries(*unshare)),
    ensures
        final(t).files@ == reshared(old(t).files@, old(t).arc@, old(t).dirs@, old(t).dir_hash_to_index@, lut_shared(*share), lut_lists(*share), ignore@,
            lut_entries(*unshare), hash, region as int),
        final(t).loaded_filepaths == old(t).loaded_filepaths + if reshares(old(t).arc@, lut_lists(*share), hash) { 1int } else { 0int },
        final(t).arc@ == old(t).arc@,
        final(t).dirs@ == old(t).dirs@,
        final(t).dir_hash_to_index@ == old(t).dir_hash_to_index@,
        addition_wf(*final(t), region as int),
        has_room(*final(t), 0),
        final(t).files@.ii.len() <= old(t).files@.ii.len() + 1,
        final(t).files@.fp.len() <= old(t).files@.fp.len() + 1,
        final(t).files@.fi.len() <= old(t).files@.fi.len() + 1,
        final(t).files@.itd.len() <= old(t).files@.itd.len() + 1,
        final(t).files@.datas.len() <= old(t).files@.datas.len() + 1,
        final(t).files@.fi.len() >= old(t).files@.fi.len(),
{
    let ghost v = t.files@;
    let ghost dirs = t.dirs@;
    let ghost pairs = t.dir_hash_to_index@;
    let ghost lists = lut_lists(*share);
    let ghost a = t.arc@;
    let p = match find_path_by_hash(&t.arc, hash) {
        Some(p) => p,
        None => {
            return;
        },
    };
    let count = get_shared_file_count(share, Hash40(hash));
    assert(count == deps_of(lists, hash).len());
    if count == 0 {
        return;
    }
    let ghost deps = deps_of(lists, hash);
    let new_ii = t.files.info_indices.len() as u32;
    proof {
        assert((a.fp[p as int].path_index as int) < a.ii.len());
        assert((a.ii[a.fp[p as int].path_index as int].file_info_index as int) < a.fi.len());
    }
    push_fresh_chain(&mut t.files, &t.arc, p, region);
    let ghost base = t.files@;
    proof {
        let src = a.fi[info_of_path(a, p as int)];
        lemma_standalone_flags(src.flags);
        lemma_standalone_flags(standalone(src.flags));
        assert forall|f: int| 0 <= f < base.fi.len() && #[trigger] is_regional(base.fi[f].flags) implies
            base.fi[f].info_to_data_index as int + region < base.itd.len() by {
            if f < v.fi.len() {
                assert(base.fi[f] == v.fi[f]);
            }
        }
        assert forall|d: int| 0 <= d < t.dirs@.len() implies (#[trigger] t.dirs@[d]).file_info_start + t.dirs@[d].file_count <= t.files@.fi.len() by {
            assert(dirs[d].file_info_start + dirs[d].file_count <= v.fi.len());
        }
    }
    let mut k: usize = 0;
    while k < count
        invariant
            addition_wf(*t, region as int),
            entries_in_range(t.dirs@, t.dir_hash_to_index@, lut_entries(*unshare)),
            t.dirs@ == dirs,
            t.arc@ == a,
            t.dir_hash_to_index@ == pairs,
            t.loaded_filepaths == old(t).loaded_filepaths,
            lut_lists(*share) == lists,
            deps == deps_of(lists, hash),
            count == deps.len(),
            k <= count,
            (new_ii as int) == v.ii.len(),
            (new_ii as int) + 1 < 0x100_0000,
            base.ii.len() == v.ii.len() + 1,
            t.files@ == redirect_dependents(base, dirs, pairs, lut_shared(*share), ignore@, lut_entries(*unshare), deps, k as int, new_ii as int),
            t.files@.fp.len() == base.fp.len() && t.files@.ii == base.ii && t.files@.fi.len() == base.fi.len(),
            t.files@.itd == base.itd && t.files@.datas == base.datas && t.files@.loaded_len == base.loaded_len,
        decreases count - k,
    {
        match get_shared_file(share, Hash40(hash), k) {
            Some(dh) => {
                assert(dh.0 == deps[k as int]);
                redirect_one(t, share, unshare, ignore, dh.0, new_ii, region);
            },
            None => {},
        }
        k = k + 1;
    }
    t.loaded_filepaths = t.loaded_filepaths + 1;
}

/// The locale slot of a localized file's entries for a region; a region
/// without a locale uses Japan's.
pub open spec fn locale_slot(region: int) -> int {
    if 2 <= region <= 4 {
        2
    } else if 5 <= region <= 11 {
        3
    } else if region == 12 {
        4
    } else if region == 13 || region == 14 {
        5
    } else {
        1
    }
}

/// A localized file is read, in every region, from the entry of the
/// region's locale (Japan 1, United States 2, Europe 3, Korea 4, China 5);
/// a region without a locale reads Japan's. So regions that share a market
/// share the entry: the Chinese regions both read the China entry.
pub proof fn law_locale_slot_is_region_locale(region: nat)
    ensures
        locale_slot(region as int) == spec_locale_number(spec_entry_locale(spec_region_from_index(region))),
        spec_region_locale(spec_region_from_index(region)) != Locale::NoLocale
            ==> locale_slot(region as int) == spec_locale_number(spec_region_locale(spec_region_from_index(region))),
        forall|a: nat, b: nat| spec_region_locale(#[trigger] spec_region_from_index(a)) == spec_region_locale(#[trigger] spec_region_from_index(b))
            ==> locale_slot(a as int) == locale_slot(b as int),
{
    assert forall|a: nat, b: nat| spec_region_locale(#[trigger] spec_region_from_index(a)) == spec_region_locale(#[trigger] spec_region_from_index(b))
        implies locale_slot(a as int) == locale_slot(b as int) by {
    }
}

/// The info-to-data entry a file info uses in a region.
pub open spec fn folder_slot(f: FileInfoRec, region: int) -> int {
    if is_regional(f.flags) {
        f.info_to_data_index as int + region
    } else if is_localized(f.flags) {
        f.info_to_data_index as int + locale_slot(region)
    } else {
        f.info_to_data_index as int
    }
}

/// A localized file that is not regional is read, in a region, from the
/// entry of the region's locale past its first info-to-data entry (Japan's
/// for a region without a locale).
pub proof fn law_localized_entry_is_region_locale(f: FileInfoRec, region: nat)
    requires
        !is_regional(f.flags),
        is_localized(f.flags),
    ensures
        folder_slot(f, region as int) == f.info_to_data_index as int
            + spec_locale_number(spec_entry_locale(spec_region_from_index(region))),
{
    law_locale_slot_is_region_locale(region);
}

/// The tables after file info `x` of a directory, whose path shares the
/// data of path `sf`, gets a chain of its own: a copy of `sf`'s file info
/// (standalone, no longer regional, for the user's region, and marked as an
/// unshared sound bank where the path is one), for the path of `x`, with a
/// copy of its info-to-data entry naming a copy of its file data, under a
/// new info-index entry that `x` and its path now name.
pub open spec fn unshare_chain(w: TablesView, sf: int, x: int, region: int) -> TablesView {
    let src = w.fi[info_of_path(w, sf)];
    let regional = is_regional(src.flags);
    let itd_src = if regional { src.info_to_data_index as int + region } else { src.info_to_data_index as int };
    let copied = w.itd[itd_src];
    let dfi = w.fi[x];
    let dfp = dfi.file_path_index as int;
    let base_flags = if regional { not_regional(src.flags) } else { src.flags };
    let bank = w.fp[dfp].ext_hash == spec_hash40("nus3bank"@);
    TablesView {
        fp: w.fp.update(dfp, FilePathRec { path_hash: w.fp[dfp].path_hash, path_index: w.ii.len() as u32, ext_hash: w.fp[dfp].ext_hash }),
        ii: w.ii.push(InfoIndexRec { dir_offset_index: 0xFF_FFFF, file_info_index: w.fi.len() as u32 }),
        fi: w.fi.update(x, FileInfoRec {
            file_path_index: dfi.file_path_index,
            file_info_indice_index: w.ii.len() as u32,
            info_to_data_index: dfi.info_to_data_index,
            flags: standalone(dfi.flags),
        }).push(FileInfoRec {
            file_path_index: dfp as u32,
            file_info_indice_index: w.ii.len() as u32,
            info_to_data_index: w.itd.len() as u32,
            flags: flags_from_bits(spec_with_flag(standalone(base_flags).spec_bits(), 2, bank)),
        }),
        itd: w.itd.push(InfoToDataRec { folder_offset_index: copied.folder_offset_index, file_data_index: w.datas.len() as u32, load_bits: copied.load_bits }),
        datas: w.datas.push(w.datas[copied.file_data_index as int]),
        loaded_len: w.loaded_len,
    }
}

/// What an unsharing changes: the context's tables, the number of loaded
/// file paths, and the shared set of the share lookup.
pub struct Unshared {
    pub v: TablesView,
    pub loaded: int,
    pub shared: Set<u64>,
}

/// The result of unsharing `hash` in tables `v` (the archive's being `a`):
/// nothing where the hash is ignored, not shared, has no path in the
/// archive, no directory entry, or no directory. Otherwise the path's
/// directory file info gets a chain of its own; where the path is the one
/// holding the data, the files sharing it are first moved to a fresh copy,
/// its file info becomes standalone, and it keeps its data when that data
/// lies before the shared data (`sdi`). An unshared hash leaves the shared
/// set, and the file info of the path holding the data becomes standalone.
pub open spec fn after_unshare(v: TablesView, a: TablesView, loaded: int, shared: Set<u64>, lists: Map<u64, Seq<u64>>, dirs: Seq<DirRec>,
    pairs: Seq<(u64, u32)>, entries: Map<u64, (u64, usize)>, ignore: Set<u64>, hash: u64, region: int, sdi: int) -> Unshared {
    if ignore.contains(hash) || !shared.contains(hash) || first_path_from(a.fp, hash, 0) is None || !entries.contains_key(hash)
        || spec_find_dir(pairs, entries[hash].0) is None {
        Unshared { v, loaded, shared }
    } else {
        let p = first_path_from(a.fp, hash, 0)->0;
        let sf = chain_step(v, p);
        let x = dirs[spec_find_dir(pairs, entries[hash].0)->0 as int].file_info_start + entries[hash].1;
        let (w, loaded1, keeps) = if p == sf {
            let r = reshared(v, a, dirs, pairs, shared, lists, ignore, entries, hash, region);
            let f = info_of_path(r, p);
            let w = set_standalone_at(r, f);
            let slot = folder_slot(w.fi[f], region);
            (w, loaded + if reshares(a, lists, hash) { 1int } else { 0int }, slot < a.itd.len() && (a.itd[slot].file_data_index as int) < sdi)
        } else {
            (v, loaded, false)
        };
        if keeps {
            Unshared { v: w, loaded: loaded1, shared }
        } else {
            let u = unshare_chain(w, sf, x, region);
            Unshared { v: set_standalone_at(u, info_of_path(u, sf)), loaded: loaded1, shared: shared.remove(hash) }
        }
    }
}

proof fn lemma_with_flag(f: FileInfoFlags, mask: u32, x: bool)
    requires
        mask == 1 || mask == 2 || mask == 4,
    ensures
        is_regional(flags_from_bits(spec_with_flag(f.spec_bits(), mask, x))) == is_regional(f),
        is_localized(flags_from_bits(spec_with_flag(f.spec_bits(), mask, x))) == is_localized(f),
{
    let b = f.spec_bits();
    lemma_flags_bits(spec_with_flag(b, mask, x), f);
    if x {
        assert(((((b & 0x003F_FFFFu32) | (((b >> 22u32) | mask) << 22u32)) >> 15u32) & 1 == 1) == ((b >> 15u32) & 1 == 1)) by (bit_vector);
        assert(((((b & 0x003F_FFFFu32) | (((b >> 22u32) | mask) << 22u32)) >> 16u32) & 1 == 1) == ((b >> 16u32) & 1 == 1)) by (bit_vector);
    } else {
        assert(((((b & 0x003F_FFFFu32) | (((b >> 22u32) & !mask) << 22u32)) >> 15u32) & 1 == 1) == ((b >> 15u32) & 1 == 1)) by (bit_vector);
        assert(((((b & 0x003F_FFFFu32) | (((b >> 22u32) & !mask) << 22u32)) >> 16u32) & 1 == 1) == ((b >> 16u32) & 1 == 1)) by (bit_vector);
    }
}

/// Setting the standalone flag keeps every index and every regional entry.
proof fn lemma_set_standalone_wf(v: TablesView, f: int, region: int)
    requires
        tables_wf(v),
        0 <= f < v.fi.len(),
        forall|g: int| 0 <= g < v.fi.len() && #[trigger] is_regional(v.fi[g].flags) ==> v.fi[g].info_to_data_index as int + region < v.itd.len(),
    ensures
        tables_wf(set_standalone_at(v, f)),
        set_standalone_at(v, f).fp == v.fp && set_standalone_at(v, f).ii == v.ii && set_standalone_at(v, f).fi.len() == v.fi.len(),
        set_standalone_at(v, f).itd == v.itd && set_standalone_at(v, f).datas == v.datas,
        forall|g: int| 0 <= g < v.fi.len() && #[trigger] is_regional(set_standalone_at(v, f).fi[g].flags) ==>
            set_standalone_at(v, f).fi[g].info_to_data_index as int + region < v.itd.len(),
{
    lemma_standalone_flags(v.fi[f].flags);
    let w = set_standalone_at(v, f);
    assert forall|g: int| 0 <= g < v.fi.len() && #[trigger] is_regional(w.fi[g].flags) implies
        w.fi[g].info_to_data_index as int + region < v.itd.len() by {
        if g != f {
            assert(w.fi[g] == v.fi[g]);
        }
    }
}

fn set_standalone(t: &mut FileTables, f: usize)
    requires
        f < old(t)@.fi.len(),
    ensures
        final(t)@ == set_standalone_at(old(t)@, f as int),
{
    let info = t.file_infos[f];
    let flags = standalone_flags(info.flags);
    t.file_infos.set(f, FileInfoRec {
        file_path_index: info.file_path_index,
        file_info_indice_index: info.file_info_indice_index,
        info_to_data_index: info.info_to_data_index,
        flags,
    });
    assert(t@ =~= set_standalone_at(old(t)@, f as int));
}

pub(crate) fn locale_slot_of(region: usize) -> (r: usize)
    ensures
        r == locale_slot(region as int),
        r == spec_locale_number(spec_entry_locale(spec_region_from_index(region as nat))),
{
    if 2 <= region && region <= 4 {
        2
    } else if 5 <= region && region <= 11 {
        3
    } else if region == 12 {
        4
    } else if region == 13 || region == 14 {
        5
    } else {
        1
    }
}

/// Gives file info `x` its own chain, copied from the one path `sf` uses.
fn push_unshare_chain(t: &mut FileTables, sf: usize, x: usize, region: usize)
    requires
        tables_wf(old(t)@),
        sf < old(t)@.fp.len(),
        x < old(t)@.fi.len(),
        old(t)@.ii.len() + 1 < 0x100_0000,
        old(t)@.fi.len() + 1 < 0xFFFF_FFFF,
        old(t)@.itd.len() + 1 < 0xFFFF_FFFF,
        old(t)@.datas.len() + 1 < 0xFFFF_FFFF,
        forall|g: int| 0 <= g < old(t)@.fi.len() && #[trigger] is_regional(old(t)@.fi[g].flags) ==>
            old(t)@.fi[g].info_to_data_index as int + region < old(t)@.itd.len(),
    ensures
        final(t)@ == unshare_chain(old(t)@, sf as int, x as int, region as int),
        tables_wf(final(t)@),
        forall|g: int| 0 <= g < final(t)@.fi.len() && #[trigger] is_regional(final(t)@.fi[g].flags) ==>
            final(t)@.fi[g].info_to_data_index as int + region < final(t)@.itd.len(),
{
    let ghost v = t@;
    proof {
        assert((v.fp[sf as int].path_index as int) < v.ii.len());
        assert((v.ii[v.fp[sf as int].path_index as int].file_info_index as int) < v.fi.len());
    }
    let ii = t.file_paths[sf].path_index as usize;
    let f = t.info_indices[ii].file_info_index as usize;
    let src = t.file_infos[f];
    proof {
        assert((v.fi[f as int].info_to_data_index as int) < v.itd.len());
        assert(is_regional(v.fi[f as int].flags) ==> v.fi[f as int].info_to_data_index as int + region < v.itd.len());
    }
    let itd_len = t.info_to_datas.len();
    let regional = src.flags.is_regional();
    let itd_src = if regional { src.info_to_data_index as usize + region } else { src.info_to_data_index as usize };
    let copied = t.info_to_datas[itd_src];
    proof {
        assert((v.itd[itd_src as int].file_data_index as int) < v.datas.len());
    }
    let data = t.datas[copied.file_data_index as usize];
    let dfi = t.file_infos[x];
    let dfp = dfi.file_path_index as usize;
    proof {
        assert((v.fi[x as int].file_path_index as int) < v.fp.len());
    }
    let mut base_flags = src.flags;
    if regional {
        base_flags.set_is_regional(false);
    }
    let mut flags = standalone_flags(base_flags);
    let ghost sflags = flags;
    let bank = t.file_paths[dfp].ext_hash == Hash40::from_str("nus3bank").0;
    flags.set_unshared_nus3bank(bank);
    proof {
        lemma_flags_bits(flags.spec_bits(), flags);
    }
    let new_ii = t.info_indices.len() as u32;
    let new_fi = t.file_infos.len() as u32;
    let new_itd = t.info_to_datas.len() as u32;
    let new_data = t.datas.len() as u32;
    let dflags = standalone_flags(dfi.flags);
    t.datas.push(data);
    t.info_to_datas.push(InfoToDataRec { folder_offset_index: copied.folder_offset_index, file_data_index: new_data, load_bits: copied.load_bits });
    t.file_infos.set(x, FileInfoRec {
        file_path_index: dfi.file_path_index,
        file_info_indice_index: new_ii,
        info_to_data_index: dfi.info_to_data_index,
        flags: dflags,
    });
    t.file_infos.push(FileInfoRec { file_path_index: dfi.file_path_index, file_info_indice_index: new_ii, info_to_data_index: new_itd, flags });
    t.info_indices.push(InfoIndexRec { dir_offset_index: 0xFF_FFFF, file_info_index: new_fi });
    let path = t.file_paths[dfp];
    t.file_paths.set(dfp, FilePathRec { path_hash: path.path_hash, path_index: new_ii, ext_hash: path.ext_hash });
    proof {
        assert(t@ =~= unshare_chain(v, sf as int, x as int, region as int));
        lemma_standalone_flags(src.flags);
        lemma_standalone_flags(dfi.flags);
        lemma_standalone_flags(base_flags);
        lemma_with_flag(sflags, 2, bank);
        let w = t@;
        assert forall|g: int| 0 <= g < w.fi.len() && #[trigger] is_regional(w.fi[g].flags) implies
            w.fi[g].info_to_data_index as int + region < w.itd.len() by {
            if g < v.fi.len() && g != x {
                assert(w.fi[g] == v.fi[g]);
            }
        }
    }
}

/// Unshares the file with path hash `hash` in the context: unless it is
/// ignored, no longer shared, or its path, directory entry or directory is
/// unknown, its file info in its directory gets a chain of entries of its
/// own (see `after_unshare`); where its path is the one holding the data,
/// the files sharing that data are first moved to a fresh copy, and the
/// file keeps its data when that lies before the shared data
/// (`shared_data_idx`). An unshared file leaves the share lookup's shared
/// set, so that it is not reshared later.
pub fn unshare_file(t: &mut AdditionContext, share: &mut Option<ShareLookup>, unshare: &Option<UnshareLookup>, ignore: &HashSet<u64>,
    hash: u64, region: usize, shared_data_idx: u32)
    requires
        addition_wf(*old(t), region as int),
        has_room(*old(t), 2),
        entries_in_range(old(t).dirs@, old(t).dir_hash_to_index@, lut_entries(*unshare)),
    ensures
        ({
            let r = after_unshare(old(t).files@, old(t).arc@, old(t).loaded_filepaths as int, lut_shared(*old(share)), lut_lists(*old(share)),
                old(t).dirs@, old(t).dir_hash_to_index@, lut_entries(*unshare), ignore@, hash, region as int, shared_data_idx as int);
            &&& final(t).files@ == r.v
            &&& final(t).loaded_filepaths == r.loaded
            &&& lut_shared(*final(share)) == r.shared
        }),
        lut_lists(*final(share)) == lut_lists(*old(share)),
        final(t).arc@ == old(t).arc@,
        final(t).dirs@ == old(t).dirs@,
        final(t).dir_hash_to_index@ == old(t).dir_hash_to_index@,
        addition_wf(*final(t), region as int),
        final(t).files@.ii.len() <= old(t).files@.ii.len() + 2,
        final(t).files@.fp.len() <= old(t).files@.fp.len() + 2,
        final(t).files@.fi.len() <= old(t).files@.fi.len() + 2,
        final(t).files@.itd.len() <= old(t).files@.itd.len() + 2,
        final(t).files@.datas.len() <= old(t).files@.datas.len() + 2,
        final(t).loaded_filepaths <= old(t).loaded_filepaths + 2,
        final(t).files@.fi.len() >= old(t).files@.fi.len(),
{
    let ghost v = t.files@;
    let ghost a = t.arc@;
    if ignore.contains(&hash) {
        return;
    }
    if !is_shared_file(share, Hash40(hash)) {
        return;
    }
    let p = match find_path_by_hash(&t.arc, hash) {
        Some(p) => p,
        None => {
            return;
        },
    };
    proof {
        assert((v.fp[p as int].path_index as int) < v.ii.len());
        assert((v.ii[v.fp[p as int].path_index as int].file_info_index as int) < v.fi.len());
    }
    let ii = t.files.file_paths[p].path_index as usize;
    let f = t.files.info_indices[ii].file_info_index as usize;
    let sf = t.files.file_infos[f].file_path_index as usize;
    let (dir_hash, child) = match get_dir_entry_for_file(unshare, Hash40(hash)) {
        Some(e) => e,
        None => {
            return;
        },
    };
    let d = match find_in_pairs(&t.dir_hash_to_index, dir_hash.0) {
        Some(d) => d as usize,
        None => {
            return;
        },
    };
    proof {
        lemma_find_dir_in(t.dir_hash_to_index@, dir_hash.0, t.dirs@.len() as int);
        assert(t.dirs@[d as int].file_info_start + t.dirs@[d as int].file_count <= v.fi.len());
    }
    let n_fi = t.files.file_infos.len();
    let x = t.dirs[d].file_info_start as usize + child;
    if p == sf {
        reshare_dependent_files(t, share, unshare, ignore, hash, region);
        let ghost r = t.files@;
        proof {
            assert((r.fp[p as int].path_index as int) < r.ii.len());
            assert((r.ii[r.fp[p as int].path_index as int].file_info_index as int) < r.fi.len());
        }
        let ii2 = t.files.file_paths[p].path_index as usize;
        let f2 = t.files.info_indices[ii2].file_info_index as usize;
        proof {
            lemma_set_standalone_wf(r, f2 as int, region as int);
        }
        set_standalone(&mut t.files, f2);
        let info = t.files.file_infos[f2];
        let a_len = t.arc.info_to_datas.len();
        let base = info.info_to_data_index as usize;
        let add = if info.flags.is_regional() {
            region
        } else if info.flags.is_localized() {
            locale_slot_of(region)
        } else {
            0
        };
        let keeps = if base < a_len && add < a_len - base {
            t.arc.info_to_datas[base + add].file_data_index < shared_data_idx
        } else {
            false
        };
        if keeps {
            return;
        }
    }
    let ghost w = t.files@;
    push_unshare_chain(&mut t.files, sf, x, region);
    let _ = remove_shared_file(share, Hash40(hash));
    let ghost u = t.files@;
    proof {
        assert((u.fp[sf as int].path_index as int) < u.ii.len());
        assert((u.ii[u.fp[sf as int].path_index as int].file_info_index as int) < u.fi.len());
    }
    let ii3 = t.files.file_paths[sf].path_index as usize;
    let f3 = t.files.info_indices[ii3].file_info_index as usize;
    proof {
        lemma_set_standalone_wf(u, f3 as int, region as int);
    }
    set_standalone(&mut t.files, f3);
}

/// The result of unsharing the first `k` of `hashes`, one after another.
pub open spec fn after_unshares(s: Unshared, a: TablesView, lists: Map<u64, Seq<u64>>, dirs: Seq<DirRec>, pairs: Seq<(u64, u32)>,
    entries: Map<u64, (u64, usize)>, ignore: Set<u64>, hashes: Seq<u64>, k: int, region: int, sdi: int) -> Unshared
    decreases k,
{
    if k <= 0 {
        s
    } else {
        let prev = after_unshares(s, a, lists, dirs, pairs, entries, ignore, hashes, k - 1, region, sdi);
        after_unshare(prev.v, a, prev.loaded, prev.shared, lists, dirs, pairs, entries, ignore, hashes[k - 1], region, sdi)
    }
}

/// Unshares each of `hashes` in turn (see `unshare_file`).
pub fn unshare_files(t: &mut AdditionContext, share: &mut Option<ShareLookup>, unshare: &Option<UnshareLookup>, ignore: &HashSet<u64>,
    hashes: &Vec<u64>, region: usize, shared_data_idx: u32)
    requires
        addition_wf(*old(t), region as int),
        has_room(*old(t), 2 * (hashes@.len() as int)),
        entries_in_range(old(t).dirs@, old(t).dir_hash_to_index@, lut_entries(*unshare)),
    ensures
        ({
            let r = after_unshares(Unshared { v: old(t).files@, loaded: old(t).loaded_filepaths as int, shared: lut_shared(*old(share)) },
                old(t).arc@, lut_lists(*old(share)), old(t).dirs@, old(t).dir_hash_to_index@, lut_entries(*unshare), ignore@, hashes@,
                hashes@.len() as int, region as int, shared_data_idx as int);
            &&& final(t).files@ == r.v
            &&& final(t).loaded_filepaths == r.loaded
            &&& lut_shared(*final(share)) == r.shared
        }),
        lut_lists(*final(share)) == lut_lists(*old(share)),
        final(t).arc@ == old(t).arc@,
        final(t).dirs@ == old(t).dirs@,
        final(t).dir_hash_to_index@ == old(t).dir_hash_to_index@,
        addition_wf(*final(t), region as int),
{
    let ghost init = Unshared { v: t.files@, loaded: t.loaded_filepaths as int, shared: lut_shared(*share) };
    let ghost a = t.arc@;
    let ghost lists = lut_lists(*share);
    let ghost dirs = t.dirs@;
    let ghost pairs = t.dir_hash_to_index@;
    let n = hashes.len();
    let mut k: usize = 0;
    while k < n
        invariant
            n == hashes@.len(),
            k <= n,
            addition_wf(*t, region as int),
            has_room(*t, 2 * (n - k) as int),
            entries_in_range(t.dirs@, t.dir_hash_to_index@, lut_entries(*unshare)),
            t.arc@ == a,
            t.dirs@ == dirs,
            t.dir_hash_to_index@ == pairs,
            lut_lists(*share) == lists,
            ({
                let r = after_unshares(init, a, lists, dirs, pairs, lut_entries(*unshare), ignore@, hashes@, k as int, region as int,
                    shared_data_idx as int);
                &&& t.files@ == r.v
                &&& t.loaded_filepaths == r.loaded
                &&& lut_shared(*share) == r.shared
            }),
        decreases n - k,
    {
        unshare_file(t, share, unshare, ignore, hashes[k], region, shared_data_idx);
        k = k + 1;
    }
}

/// A file given a chain of its own leads to itself, through a new data
/// entry that is a copy of the one its source used.
pub proof fn law_unshared_path_leads_to_itself(w: TablesView, sf: int, x: int, region: int)
    requires
        tables_wf(w),
        0 <= sf < w.fp.len(),
        0 <= x < w.fi.len(),
        w.ii.len() < 0x100_0000,
        w.fi.len() < 0xFFFF_FFFF,
        w.itd.len() < 0xFFFF_FFFF,
        w.datas.len() < 0xFFFF_FFFF,
        is_regional(w.fi[info_of_path(w, sf)].flags) ==> w.fi[info_of_path(w, sf)].info_to_data_index as int + region < w.itd.len(),
    ensures
        ({
            let u = unshare_chain(w, sf, x, region);
            let p = w.fi[x].file_path_index as int;
            let src = w.fi[info_of_path(w, sf)];
            let itd_src = if is_regional(src.flags) { src.info_to_data_index as int + region } else { src.info_to_data_index as int };
            let own = u.fi[info_of_path(u, p)];
            &&& chain_step(u, p) == p
            &&& !is_regional(own.flags)
            &&& u.itd[own.info_to_data_index as int].file_data_index as int == w.datas.len()
            &&& u.datas[w.datas.len() as int] == w.datas[w.itd[itd_src].file_data_index as int]
        }),
{
    let src = w.fi[info_of_path(w, sf)];
    assert((w.fp[sf].path_index as int) < w.ii.len());
    assert((w.ii[w.fp[sf].path_index as int].file_info_index as int) < w.fi.len());
    assert((w.fi[x].file_path_index as int) < w.fp.len());
    lemma_standalone_flags(src.flags);
    let base_flags = if is_regional(src.flags) { not_regional(src.flags) } else { src.flags };
    lemma_standalone_flags(base_flags);
    lemma_with_flag(standalone(base_flags), 2, w.fp[w.fi[x].file_path_index as int].ext_hash == spec_hash40("nus3bank"@));
}

/// A fresh chain leads to itself, through a new data entry that is a copy
/// of the one the archive's file used.
pub proof fn law_fresh_chain_leads_to_itself(v: TablesView, a: TablesView, p: int, region: int)
    requires
        tables_wf(v),
        tables_wf(a),
        0 <= p < a.fp.len(),
        a.fp.len() <= v.fp.len(),
        a.itd.len() <= v.itd.len(),
        v.ii.len() < 0x100_0000,
        v.fp.len() < 0xFFFF_FFFF,
        v.fi.len() < 0xFFFF_FFFF,
        v.itd.len() < 0xFFFF_FFFF,
        v.datas.len() < 0xFFFF_FFFF,
    ensures
        ({
            let u = fresh_chain(v, a, p, region);
            let q = v.fp.len() as int;
            &&& chain_step(u, q) == q
            &&& u.fp[q].path_hash == with_length_ff(v.fp[p].path_hash)
            &&& u.itd[u.fi[info_of_path(u, q)].info_to_data_index as int].file_data_index as int == v.datas.len()
        }),
{
}

/// A file that an unsharing took out of the shared set is left alone by a
/// second unsharing of it.
pub proof fn law_unshared_file_is_left_alone(v: TablesView, a: TablesView, loaded: int, shared: Set<u64>, lists: Map<u64, Seq<u64>>,
    dirs: Seq<DirRec>, pairs: Seq<(u64, u32)>, entries: Map<u64, (u64, usize)>, ignore: Set<u64>, hash: u64, region: int, sdi: int)
    requires
        !after_unshare(v, a, loaded, shared, lists, dirs, pairs, entries, ignore, hash, region, sdi).shared.contains(hash),
    ensures
        ({
            let r = after_unshare(v, a, loaded, shared, lists, dirs, pairs, entries, ignore, hash, region, sdi);
            after_unshare(r.v, a, r.loaded, r.shared, lists, dirs, pairs, entries, ignore, hash, region, sdi) == r
        }),
{
}

} // verus!
