//! Gathering the replaced files against the archive's tables: files queued
//! for unsharing are unshared as their mods are found, each mod file is
//! placed by the info-indice index its path resolves to, and the data
//! entries of the replaced archive files grow to the new sizes, with the
//! old sizes kept as backups.
use std::collections::HashMap;
use vstd::prelude::*;

use crate::hashing::{spec_hash40, Hash40};
use crate::replacement::unshare::{folder_slot, locale_slot_of};
use crate::replacement_files::{
    as_map, callbacks_upto, files_upto, keys_distinct, process_mods, spec_ctx_len, streams_upto, CallbackEntry, FileBacking,
    FileCtx, FileIndex, ModCandidate,
};
use crate::unsharing::{
    can_unshare, can_unshare_file, default_region_slot, find_path_by_hash, first_path_from, get_shared_file, is_localized,
    is_regional, spec_shared_file, tables_wf, unshare_file, unshare_file_tables, unshare_step, unshares, FileDataRec,
    FileTables, TablesView, UnshareState,
};
use crate::visit::ModFile;

verus! {

broadcast use vstd::std_specs::hash::group_hash_axioms;

/// How many of the replaced files are archive files (not streamed ones).
pub open spec fn regular_count<C>(m: Seq<(FileIndex, FileCtx<C>)>) -> nat
    decreases m.len(),
{
    if m.len() == 0 {
        0
    } else {
        regular_count(m.drop_last()) + if m.last().0 is Regular { 1nat } else { 0nat }
    }
}

/// The region a file's size is patched in: the user's region for a
/// regional file, none (0) for any other.
pub open spec fn patch_region(v: TablesView, f: int, region: int) -> int {
    if is_regional(v.fi[f].flags) { region } else { 0 }
}

/// The info-to-data entries that an archive file with info-indice index `i`
/// grows and backs up exist.
pub open spec fn size_slots_ok(v: TablesView, i: u32, region: int) -> bool {
    &&& (i as int) < v.ii.len()
    &&& folder_slot(v.fi[v.ii[i as int].file_info_index as int], patch_region(v, v.ii[i as int].file_info_index as int, region)) < v.itd.len()
    &&& folder_slot(v.fi[v.ii[i as int].file_info_index as int], region) < v.itd.len()
}

/// Every archive file of the list has its entries.
pub open spec fn all_size_slots_ok<C>(v: TablesView, m: Seq<(FileIndex, FileCtx<C>)>, region: int) -> bool {
    forall|k: int| 0 <= k < m.len() ==> (#[trigger] m[k].0 matches FileIndex::Regular(i) ==> size_slots_ok(v, i, region))
}

/// The data entries and the backups after the first `n` replaced files: an
/// archive file whose entries exist has the data entry it loads from (in
/// its patch region) grown to its size, where that was smaller, and the
/// data entry of the user's region recorded with the size the grown entry
/// had. A file read from the archive takes the size of its user-region
/// entry.
pub open spec fn sizes_upto<C>(v: TablesView, m: Seq<(FileIndex, FileCtx<C>)>, region: int, n: int) -> (Seq<FileDataRec>, Seq<(usize, u32)>)
    decreases n,
{
    if n <= 0 {
        (v.datas, Seq::empty())
    } else {
        let (datas, backups) = sizes_upto(v, m, region, n - 1);
        match m[n - 1].0 {
            FileIndex::Regular(i) => if size_slots_ok(v, i, region) {
                let f = v.ii[i as int].file_info_index as int;
                let d = v.itd[folder_slot(v.fi[f], patch_region(v, f, region))].file_data_index as int;
                let rec = v.itd[folder_slot(v.fi[f], region)].file_data_index;
                let old_size = datas[d].decomp_size;
                let len = spec_ctx_len(m[n - 1].1.file, datas[rec as int].decomp_size);
                (datas.update(d, FileDataRec { decomp_size: if old_size < len { len } else { old_size }, ..datas[d] }),
                 backups.push((rec as usize, old_size)))
            } else {
                (datas, backups)
            },
            FileIndex::Stream(_) => (datas, backups),
        }
    }
}

fn folder_slot_of(t: &FileTables, f: usize, region: usize) -> (r: u64)
    requires
        tables_wf(t@),
        f < t@.fi.len(),
        region <= 14,
    ensures
        r == folder_slot(t@.fi[f as int], region as int),
{
    let info = t.file_infos[f];
    if info.flags.is_regional() {
        info.info_to_data_index as u64 + region as u64
    } else if info.flags.is_localized() {
        info.info_to_data_index as u64 + locale_slot_of(region) as u64
    } else {
        info.info_to_data_index as u64
    }
}

proof fn lemma_sizes_shape<C>(v: TablesView, m: Seq<(FileIndex, FileCtx<C>)>, region: int, n: int)
    requires
        tables_wf(v),
        0 <= n <= m.len(),
        region >= 0,
    ensures
        sizes_upto(v, m, region, n).0.len() == v.datas.len(),
        all_size_slots_ok(v, m, region) ==> sizes_upto(v, m, region, n).1.len() == regular_count(m.subrange(0, n)),
    decreases n,
{
    if n > 0 {
        lemma_sizes_shape(v, m, region, n - 1);
        assert(m.subrange(0, n).drop_last() =~= m.subrange(0, n - 1));
        assert(m.subrange(0, n).last() == m[n - 1]);
        match m[n - 1].0 {
            FileIndex::Regular(i) => {
                if size_slots_ok(v, i, region) {
                    let f = v.ii[i as int].file_info_index as int;
                    assert((v.ii[i as int].file_info_index as int) < v.fi.len());
                    let ps = folder_slot(v.fi[f], patch_region(v, f, region));
                    assert(0 <= ps < v.itd.len());
                    assert((v.itd[ps].file_data_index as int) < v.datas.len());
                }
            },
            FileIndex::Stream(_) => {},
        }
    }
}

/// Grows the data entry of each replaced archive file to the file's size
/// and returns the backups, one for each archive file whose entries exist
/// (all of them, where they all do), in the order of the list. Streamed
/// files are passed over.
pub fn patch_mod_sizes<C>(mods: &Vec<(FileIndex, FileCtx<C>)>, t: &mut FileTables, region: usize) -> (r: Vec<(usize, u32)>)
    requires
        tables_wf(old(t)@),
        region <= 14,
    ensures
        final(t)@ == (TablesView { datas: sizes_upto(old(t)@, mods@, region as int, mods@.len() as int).0, ..old(t)@ }),
        r@ == sizes_upto(old(t)@, mods@, region as int, mods@.len() as int).1,
        all_size_slots_ok(old(t)@, mods@, region as int) ==> r@.len() == regular_count(mods@),
{
    let ghost v = t@;
    let mut backups: Vec<(usize, u32)> = Vec::new();
    let mut k: usize = 0;
    while k < mods.len()
        invariant
            tables_wf(v),
            region <= 14,
            k <= mods@.len(),
            t@ == (TablesView { datas: sizes_upto(v, mods@, region as int, k as int).0, ..v }),
            backups@ == sizes_upto(v, mods@, region as int, k as int).1,
        decreases mods@.len() - k,
    {
        proof {
            lemma_sizes_shape(v, mods@, region as int, k as int);
        }
        match mods[k].0 {
            FileIndex::Regular(i) => {
                if (i as usize) < t.info_indices.len() {
                    let f = t.info_indices[i as usize].file_info_index as usize;
                    proof {
                        assert((v.ii[i as int].file_info_index as int) < v.fi.len());
                    }
                    let preg = if t.file_infos[f].flags.is_regional() { region } else { 0 };
                    let ps = folder_slot_of(t, f, preg);
                    let bs = folder_slot_of(t, f, region);
                    if ps < t.info_to_datas.len() as u64 && bs < t.info_to_datas.len() as u64 {
                        let ps = ps as usize;
                        let bs = bs as usize;
                        let d = t.info_to_datas[ps].file_data_index as usize;
                        let rec = t.info_to_datas[bs].file_data_index;
                        proof {
                            assert((v.itd[ps as int].file_data_index as int) < v.datas.len());
                            assert((v.itd[bs as int].file_data_index as int) < v.datas.len());
                        }
                        let old_size = t.datas[d].decomp_size;
                        let arc_size = t.datas[rec as usize].decomp_size;
                        let len = mods[k].1.len(arc_size);
                        let mut data = t.datas[d];
                        if old_size < len {
                            data.decomp_size = len;
                        }
                        t.datas.set(d, data);
                        backups.push((rec as usize, old_size));
                        proof {
                            assert(t@.datas =~= sizes_upto(v, mods@, region as int, k + 1).0);
                        }
                    }
                }
            },
            FileIndex::Stream(_) => {},
        }
        k = k + 1;
    }
    proof {
        lemma_sizes_shape(v, mods@, region as int, mods@.len() as int);
        assert(mods@.subrange(0, mods@.len() as int) =~= mods@);
    }
    backups
}

/// The info-indice index a hash resolves to: that of the file info of the
/// first file path with the hash.
pub open spec fn spec_info_index(v: TablesView, h: u64) -> Option<u32> {
    match first_path_from(v.fp, h, 0) {
        Some(p) => Some(v.fi[v.ii[v.fp[p].path_index as int].file_info_index as int].file_info_indice_index),
        None => None,
    }
}

/// Finds the info-indice index a hash resolves to.
pub fn resolve_info_index(t: &FileTables, h: u64) -> (r: Option<u32>)
    requires
        tables_wf(t@),
    ensures
        r == spec_info_index(t@, h),
{
    match find_path_by_hash(t, h) {
        Some(p) => {
            let ii = t.file_paths[p].path_index as usize;
            let f = t.info_indices[ii].file_info_index as usize;
            Some(t.file_infos[f].file_info_indice_index)
        },
        None => None,
    }
}

/// Whether unsharing file info `idx` is possible: the checks of
/// `can_unshare_file`, made on the tables.
pub fn unshare_possible(t: &FileTables, idx: usize, region: usize) -> (r: bool)
    requires
        tables_wf(t@),
        region <= 14,
    ensures
        r == can_unshare_file(t@, idx as int, region as int),
{
    if idx >= t.file_infos.len() {
        return false;
    }
    let shared = match get_shared_file(t, idx) {
        Some(p) => p,
        None => return false,
    };
    let info = t.file_infos[idx];
    let slot: u64 = if info.flags.is_regional() {
        info.info_to_data_index as u64
    } else if info.flags.is_localized() {
        info.info_to_data_index as u64 + 1
    } else {
        info.info_to_data_index as u64
    };
    if slot >= t.info_to_datas.len() as u64 {
        return false;
    }
    if t.info_indices.len() >= 0x100_0000 || t.file_infos.len() >= 0xFFFF_FFFF || t.info_to_datas.len() >= 0xFFFF_FFFF
        || t.datas.len() >= 0xFFFF_FFFF {
        return false;
    }
    let src_ii = t.file_paths[shared].path_index as usize;
    let src_f = t.info_indices[src_ii].file_info_index as usize;
    let src = t.file_infos[src_f];
    if src.flags.is_regional() && src.info_to_data_index as u64 + region as u64 >= t.info_to_datas.len() as u64 {
        return false;
    }
    true
}

/// Unsharing keeps every index of the tables in range.
proof fn lemma_unshare_wf(v: TablesView, cur: int, shared: int, region: int)
    requires
        can_unshare(v, cur, shared, region),
    ensures
        tables_wf(unshare_step(v, cur, shared, region)),
{
    let w = unshare_step(v, cur, shared, region);
    let cur_path = v.fi[cur].file_path_index as int;
    assert(cur_path < v.fp.len());
    assert forall|p: int| 0 <= p < w.fp.len() implies ((#[trigger] w.fp[p]).path_index as int) < w.ii.len() by {
        if p != cur_path {
            assert(w.fp[p] == v.fp[p]);
        }
    }
    assert forall|i: int| 0 <= i < w.ii.len() implies ((#[trigger] w.ii[i]).file_info_index as int) < w.fi.len() by {
        if i < v.ii.len() {
            assert(w.ii[i] == v.ii[i]);
        }
    }
    assert forall|f: int| 0 <= f < w.fi.len() implies ((#[trigger] w.fi[f]).file_path_index as int) < w.fp.len()
        && (w.fi[f].info_to_data_index as int) < w.itd.len() by {
        if f < v.fi.len() && f != cur {
            assert(w.fi[f] == v.fi[f]);
        }
    }
    assert forall|k: int| 0 <= k < w.itd.len() implies ((#[trigger] w.itd[k]).file_data_index as int) < w.datas.len() by {
        if k < v.itd.len() {
            assert(w.itd[k] == v.itd[k]);
        }
    }
}

/// The unsharing state, the tables and the queue of files waiting to be
/// unshared when their mod is found, as values.
#[verifier::ext_equal]
pub struct FoundState {
    pub t: TablesView,
    pub sets: spec_fn(u32) -> Set<u32>,
    pub banks: Map<u64, u32>,
    pub next_id: int,
    pub queue: Map<u64, (u32, usize)>,
}

/// The values of the tables, the unsharing state and the queue.
pub open spec fn found_view(t: TablesView, st: UnshareState, queue: Map<u64, (u32, usize)>) -> FoundState {
    FoundState { t, sets: |d: u32| st.unshared(d), banks: st.unshared_banks@, next_id: st.next_bank_id as int, queue }
}

/// A mod found for hash `h`: where the file is queued, it leaves the queue
/// and is unshared, when that is possible and a sound bank id is left.
pub open spec fn found_step(s: FoundState, h: u64, shared_data_idx: u32, region: int) -> FoundState {
    if s.queue.contains_key(h) {
        let (d, idx) = s.queue[h];
        let queue = s.queue.remove(h);
        if can_unshare_file(s.t, idx as int, region) && s.next_id < u32::MAX {
            let set = (s.sets)(d);
            let cfp = s.t.fi[idx as int].file_path_index;
            let bank = unshares(s.t, set, idx as int, shared_data_idx) && s.t.fp[cfp as int].ext_hash == spec_hash40("nus3bank"@);
            FoundState {
                t: unshare_file_tables(s.t, set, idx as int, shared_data_idx, region),
                sets: |e: u32| if e == d { set.insert(cfp) } else { (s.sets)(e) },
                banks: if bank { s.banks.insert(s.t.fp[cfp as int].path_hash, s.next_id as u32) } else { s.banks },
                next_id: if bank { s.next_id + 1 } else { s.next_id },
                queue,
            }
        } else {
            FoundState { queue, ..s }
        }
    } else {
        s
    }
}

/// The state after the first `n` mods were found, and the candidates they
/// give: each mod file with the info-indice index its hash resolves to once
/// it was found.
pub open spec fn found_upto(s: FoundState, mods: Seq<(Hash40, ModFile)>, shared_data_idx: u32, region: int, n: int) -> (FoundState, Seq<ModCandidate>)
    decreases n,
{
    if n <= 0 {
        (s, Seq::empty())
    } else {
        let (s1, c) = found_upto(s, mods, shared_data_idx, region, n - 1);
        let s2 = found_step(s1, mods[n - 1].0.0, shared_data_idx, region);
        (s2, c.push(ModCandidate { hash: mods[n - 1].0, file: mods[n - 1].1, info_index: spec_info_index(s2.t, mods[n - 1].0.0) }))
    }
}

/// A callback with the info-indice index its hash resolves to.
pub open spec fn resolved<C>(v: TablesView, e: CallbackEntry<C>) -> CallbackEntry<C> {
    CallbackEntry { hash: e.hash, kind: e.kind, previous: e.previous, info_index: spec_info_index(v, e.hash.0) }
}

/// The replaced files that gathering gives: the candidates by index, the
/// streamed files, then the callbacks.
pub open spec fn gathered<C>(cands: Seq<ModCandidate>, stream: Seq<(Hash40, ModFile)>, cbs: Seq<CallbackEntry<C>>) -> Map<FileIndex, FileCtx<C>> {
    callbacks_upto(streams_upto(files_upto::<C>(cands, cands.len() as int), stream, stream.len() as int), cbs, cbs.len() as int)
}

/// Gathers the replaced files against the tables, as the loader does when
/// mods are (re)loaded. In order, each mod file: leaves the queue of files
/// waiting for their mod (`queue`) and is unshared, where it was queued and
/// that is possible; then takes the info-indice index its hash resolves to.
/// The files are then gathered by `process_mods`, the callbacks resolved
/// against the tables; and each replaced archive file's data entry grows to
/// the file's size. Returns the replaced files and the size backups: one
/// per replaced archive file where all their entries exist.
pub fn gather_mods<C>(
    t: &mut FileTables,
    state: &mut UnshareState,
    queue: &mut HashMap<u64, (u32, usize)>,
    modfiles: Vec<(Hash40, ModFile)>,
    stream: Vec<(Hash40, ModFile)>,
    callbacks: Vec<CallbackEntry<C>>,
    shared_data_idx: u32,
    region: usize,
) -> (r: (Vec<(FileIndex, FileCtx<C>)>, Vec<(usize, u32)>))
    requires
        tables_wf(old(t)@),
        region <= 14,
    ensures
        ({
            let (s, cands) = found_upto(found_view(old(t)@, *old(state), old(queue)@), modfiles@, shared_data_idx, region as int,
                modfiles@.len() as int);
            let cbs = callbacks@.map_values(|e: CallbackEntry<C>| resolved(s.t, e));
            &&& keys_distinct(r.0@)
            &&& as_map(r.0@) == gathered(cands, stream@, cbs)
            &&& final(t)@ == (TablesView { datas: sizes_upto(s.t, r.0@, region as int, r.0@.len() as int).0, ..s.t })
            &&& r.1@ == sizes_upto(s.t, r.0@, region as int, r.0@.len() as int).1
            &&& (all_size_slots_ok(s.t, r.0@, region as int) ==> r.1@.len() == regular_count(r.0@))
            &&& forall|d: u32| #[trigger] final(state).unshared(d) == (s.sets)(d)
            &&& final(state).unshared_banks@ == s.banks
            &&& final(state).next_bank_id == s.next_id
            &&& final(queue)@ == s.queue
        }),
{
    let ghost s0 = found_view(t@, *state, queue@);
    let ghost all = modfiles@;
    let mut mods = modfiles;
    let mut cands: Vec<ModCandidate> = Vec::new();
    let ghost mut k: int = 0;
    while mods.len() > 0
        invariant
            0 <= k <= all.len(),
            mods@ == all.subrange(k, all.len() as int),
            tables_wf(t@),
            region <= 14,
            found_view(t@, *state, queue@) == found_upto(s0, all, shared_data_idx, region as int, k).0,
            cands@ == found_upto(s0, all, shared_data_idx, region as int, k).1,
        decreases mods@.len(),
    {
        let (hash, file) = mods.remove(0);
        proof {
            assert((hash, file) == all[k]);
            assert(mods@ =~= all.subrange(k + 1, all.len() as int));
        }
        let ghost s1 = found_view(t@, *state, queue@);
        match queue.remove(&hash.0) {
            Some(entry) => {
                let (d, idx) = entry;
                if state.next_bank_id < u32::MAX && unshare_possible(t, idx, region) {
                    let ghost v = t@;
                    let ghost set = state.unshared(d);
                    proof {
                        let sh = spec_shared_file(v, idx as int)->0;
                        lemma_unshare_wf(v, idx as int, sh, region as int);
                    }
                    unshare_file(t, state, d, idx, shared_data_idx, region);
                    proof {
                        let s2 = found_step(s1, hash.0, shared_data_idx, region as int);
                        assert(found_view(t@, *state, queue@).sets =~= s2.sets);
                        assert(found_view(t@, *state, queue@) =~= s2);
                    }
                } else {
                    proof {
                        assert(found_view(t@, *state, queue@) =~= found_step(s1, hash.0, shared_data_idx, region as int));
                    }
                }
            },
            None => {
                proof {
                    assert(found_view(t@, *state, queue@) =~= found_step(s1, hash.0, shared_data_idx, region as int));
                }
            },
        }
        let info_index = resolve_info_index(t, hash.0);
        cands.push(ModCandidate { hash, file, info_index });
        proof {
            k = k + 1;
        }
    }
    let ghost s = found_view(t@, *state, queue@);
    let ghost all_cb = callbacks@;
    let mut cbs_in = callbacks;
    let mut cbs: Vec<CallbackEntry<C>> = Vec::new();
    let ghost mut j: int = 0;
    while cbs_in.len() > 0
        invariant
            0 <= j <= all_cb.len(),
            cbs_in@ == all_cb.subrange(j, all_cb.len() as int),
            tables_wf(t@),
            t@ == s.t,
            cbs@ == all_cb.subrange(0, j).map_values(|e: CallbackEntry<C>| resolved(s.t, e)),
        decreases cbs_in@.len(),
    {
        let e = cbs_in.remove(0);
        proof {
            assert(e == all_cb[j]);
            assert(cbs_in@ =~= all_cb.subrange(j + 1, all_cb.len() as int));
        }
        let info_index = resolve_info_index(t, e.hash.0);
        cbs.push(CallbackEntry { hash: e.hash, kind: e.kind, previous: e.previous, info_index });
        proof {
            assert(all_cb.subrange(0, j + 1).map_values(|e: CallbackEntry<C>| resolved(s.t, e))
                =~= all_cb.subrange(0, j).map_values(|e: CallbackEntry<C>| resolved(s.t, e)).push(resolved(s.t, all_cb[j])));
            j = j + 1;
        }
    }
    proof {
        assert(all_cb.subrange(0, all_cb.len() as int) =~= all_cb);
    }
    let mods_out = process_mods(cands, stream, cbs);
    let backups = patch_mod_sizes(&mods_out, t, region);
    (mods_out, backups)
}

} // verus!
