//! Unsharing: giving a file that shares its data with another file a copy
//! of its own, by appending new entries to the archive's file tables.
use std::collections::{HashMap, HashSet};
use vstd::prelude::*;

use crate::hashing::{spec_hash40, Hash40};
use crate::replacement::extensions::{flags_from_bits, lemma_flags_bits, FileInfoFlags};
use crate::replacement::resort::{
    first_from, path_entries, resort_file_hashes, resort_folder_paths, sorted_by_bucket, sorted_by_hash,
};

verus! {

broadcast use vstd::std_specs::hash::group_hash_axioms;

/// A file path: its hash, the file-info-index entry it names, and the hash
/// of its extension.
#[derive(Debug, Clone, Copy)]
pub struct FilePathRec {
    pub path_hash: u64,
    pub path_index: u32,
    pub ext_hash: u64,
}

/// A file-info-index entry: the directory offset and the file info it names.
#[derive(Debug, Clone, Copy)]
pub struct InfoIndexRec {
    pub dir_offset_index: u32,
    pub file_info_index: u32,
}

/// A file info: its file path, its file-info-index entry, its first
/// info-to-data entry, and its flags.
#[derive(Debug, Clone, Copy)]
pub struct FileInfoRec {
    pub file_path_index: u32,
    pub file_info_indice_index: u32,
    pub info_to_data_index: u32,
    pub flags: FileInfoFlags,
}

/// An info-to-data entry: the folder offset and the file data it names.
#[derive(Debug, Clone, Copy)]
pub struct InfoToDataRec {
    pub folder_offset_index: u32,
    pub file_data_index: u32,
    pub load_bits: u32,
}

/// A file data entry: where the data sits and how large it is.
#[derive(Debug, Clone, Copy)]
pub struct FileDataRec {
    pub offset_in_folder: u32,
    pub comp_size: u32,
    pub decomp_size: u32,
    pub flags: u32,
}

/// The archive's file tables, and the length of the game's loaded-data table.
pub struct FileTables {
    pub file_paths: Vec<FilePathRec>,
    pub info_indices: Vec<InfoIndexRec>,
    pub file_infos: Vec<FileInfoRec>,
    pub info_to_datas: Vec<InfoToDataRec>,
    pub datas: Vec<FileDataRec>,
    pub loaded_data_len: usize,
}

/// The file tables as sequences.
#[verifier::ext_equal]
pub struct TablesView {
    pub fp: Seq<FilePathRec>,
    pub ii: Seq<InfoIndexRec>,
    pub fi: Seq<FileInfoRec>,
    pub itd: Seq<InfoToDataRec>,
    pub datas: Seq<FileDataRec>,
    pub loaded_len: int,
}

impl View for FileTables {
    type V = TablesView;

    open spec fn view(&self) -> TablesView {
        TablesView {
            fp: self.file_paths@,
            ii: self.info_indices@,
            fi: self.file_infos@,
            itd: self.info_to_datas@,
            datas: self.datas@,
            loaded_len: self.loaded_data_len as int,
        }
    }
}

/// Every index in the tables names an existing entry.
pub open spec fn tables_wf(v: TablesView) -> bool {
    &&& forall|p: int| 0 <= p < v.fp.len() ==> ((#[trigger] v.fp[p]).path_index as int) < v.ii.len()
    &&& forall|i: int| 0 <= i < v.ii.len() ==> ((#[trigger] v.ii[i]).file_info_index as int) < v.fi.len()
    &&& forall|f: int| 0 <= f < v.fi.len() ==> ((#[trigger] v.fi[f]).file_path_index as int) < v.fp.len()
            && (v.fi[f].info_to_data_index as int) < v.itd.len()
    &&& forall|k: int| 0 <= k < v.itd.len() ==> ((#[trigger] v.itd[k]).file_data_index as int) < v.datas.len()
}

pub open spec fn is_regional(f: FileInfoFlags) -> bool {
    (f.spec_bits() >> 15u32) & 1 == 1
}

pub open spec fn is_localized(f: FileInfoFlags) -> bool {
    (f.spec_bits() >> 16u32) & 1 == 1
}

/// The file path whose data a file path's info-index entry leads to.
pub open spec fn chain_step(v: TablesView, p: int) -> int {
    v.fi[v.ii[v.fp[p].path_index as int].file_info_index as int].file_path_index as int
}

/// Follows the chain of file paths from `p` until a path leads to itself,
/// taking at most `fuel` more steps.
pub open spec fn follow(v: TablesView, p: int, fuel: nat) -> Option<int>
    decreases fuel,
{
    if chain_step(v, p) == p {
        Some(p)
    } else if fuel == 0 {
        None
    } else {
        follow(v, chain_step(v, p), (fuel - 1) as nat)
    }
}

/// The file path that finally holds the data of a file info's path; `None`
/// where the chain never settles.
pub open spec fn spec_shared_file(v: TablesView, f: int) -> Option<int> {
    follow(v, chain_step(v, v.fi[f].file_path_index as int), v.fp.len())
}

/// The info-to-data entry that a file info uses for the archive's default
/// region.
pub open spec fn default_region_slot(v: TablesView, f: int) -> int {
    let fi = v.fi[f];
    if is_regional(fi.flags) {
        fi.info_to_data_index as int
    } else if is_localized(fi.flags) {
        fi.info_to_data_index as int + 1
    } else {
        fi.info_to_data_index as int
    }
}

/// The tables after file info `cur` gets copies of the entries of `shared`,
/// the file path holding its data: a new file info (copied from the one
/// `shared` uses), a new info-index entry pointing at it, a new info-to-data
/// entry (for the user's region, `region`, where the file is regional, which
/// it then no longer is) and a new file data entry; the path of `cur` and
/// `cur` itself then use the new info-index entry.
pub open spec fn unshare_step(v: TablesView, cur: int, shared: int, region: int) -> TablesView {
    let src_ii = v.fp[shared].path_index as int;
    let src = v.fi[v.ii[src_ii].file_info_index as int];
    let new_fi = v.fi.len();
    let new_ii = v.ii.len();
    let cur_path = v.fi[cur].file_path_index;
    let regional = is_regional(src.flags);
    let itd_src = if regional { src.info_to_data_index as int + region } else { src.info_to_data_index as int };
    let new_itd = v.itd.len();
    let copied = v.itd[itd_src];
    TablesView {
        fp: v.fp.update(cur_path as int, FilePathRec { path_hash: v.fp[cur_path as int].path_hash, path_index: new_ii as u32, ext_hash: v.fp[cur_path as int].ext_hash }),
        ii: v.ii.push(InfoIndexRec { dir_offset_index: v.ii[src_ii].dir_offset_index, file_info_index: new_fi as u32 }),
        fi: v.fi.update(cur, FileInfoRec {
            file_path_index: v.fi[cur].file_path_index,
            file_info_indice_index: new_ii as u32,
            info_to_data_index: v.fi[cur].info_to_data_index,
            flags: v.fi[cur].flags,
        }).push(FileInfoRec {
            file_path_index: cur_path,
            file_info_indice_index: new_ii as u32,
            info_to_data_index: new_itd as u32,
            flags: if regional { flags_from_bits(src.flags.spec_bits() & !0x8000u32) } else { src.flags },
        }),
        itd: v.itd.push(InfoToDataRec {
            folder_offset_index: copied.folder_offset_index,
            file_data_index: v.datas.len() as u32,
            load_bits: copied.load_bits,
        }),
        datas: v.datas.push(v.datas[copied.file_data_index as int]),
        loaded_len: v.loaded_len,
    }
}

/// What unsharing `cur` needs to stay within the tables: the entries it
/// copies exist, the new info-index entry can be named in 24 bits, and the
/// other new entries in 32.
pub open spec fn can_unshare(v: TablesView, cur: int, shared: int, region: int) -> bool {
    let src_ii = v.fp[shared].path_index as int;
    let src = v.fi[v.ii[src_ii].file_info_index as int];
    &&& tables_wf(v)
    &&& 0 <= cur < v.fi.len()
    &&& 0 <= shared < v.fp.len()
    &&& v.ii.len() < 0x100_0000
    &&& v.fi.len() < 0xFFFF_FFFF
    &&& v.itd.len() < 0xFFFF_FFFF
    &&& v.datas.len() < 0xFFFF_FFFF
    &&& is_regional(src.flags) ==> src.info_to_data_index as int + region < v.itd.len()
}

fn follow_chain(t: &FileTables, start: usize) -> (r: Option<usize>)
    requires
        tables_wf(t@),
        start < t@.fp.len(),
    ensures
        match r {
            Some(p) => follow(t@, start as int, t@.fp.len()) == Some(p as int),
            None => follow(t@, start as int, t@.fp.len()) is None,
        },
{
    let n = t.file_paths.len();
    let mut p = start;
    let mut fuel = n;
    while fuel > 0
        invariant
            tables_wf(t@),
            n == t@.fp.len(),
            p < n,
            fuel <= n,
            follow(t@, start as int, n as nat) == follow(t@, p as int, fuel as nat),
        decreases fuel,
    {
        proof {
            assert((t@.fp[p as int].path_index as int) < t@.ii.len());
        }
        let ii = t.file_paths[p].path_index as usize;
        proof {
            assert((t@.ii[ii as int].file_info_index as int) < t@.fi.len());
        }
        let fi = t.info_indices[ii].file_info_index as usize;
        let next = t.file_infos[fi].file_path_index as usize;
        if next == p {
            return Some(p);
        }
        p = next;
        fuel = fuel - 1;
    }
    proof {
        assert((t@.fp[p as int].path_index as int) < t@.ii.len());
    }
    let ii = t.file_paths[p].path_index as usize;
    proof {
        assert((t@.ii[ii as int].file_info_index as int) < t@.fi.len());
    }
    let fi = t.info_indices[ii].file_info_index as usize;
    if t.file_infos[fi].file_path_index as usize == p {
        Some(p)
    } else {
        None
    }
}

/// The file path that finally holds the data of file info `f`; `None` where
/// the chain of paths never settles.
pub fn get_shared_file(t: &FileTables, f: usize) -> (r: Option<usize>)
    requires
        tables_wf(t@),
        f < t@.fi.len(),
    ensures
        match r {
            Some(p) => spec_shared_file(t@, f as int) == Some(p as int),
            None => spec_shared_file(t@, f as int) is None,
        },
        r matches Some(p) ==> p < t@.fp.len(),
{
    let path = t.file_infos[f].file_path_index as usize;
    proof {
        assert((t@.fp[path as int].path_index as int) < t@.ii.len());
    }
    let ii = t.file_paths[path].path_index as usize;
    proof {
        assert((t@.ii[ii as int].file_info_index as int) < t@.fi.len());
    }
    let fi = t.info_indices[ii].file_info_index as usize;
    let start = t.file_infos[fi].file_path_index as usize;
    proof {
        lemma_follow_in_bounds(t@, start as int, t@.fp.len());
    }
    match follow_chain(t, start) {
        Some(p) => Some(p),
        None => None,
    }
}

/// The first index from `i` on of a file path with this hash.
pub open spec fn first_path_from(fp: Seq<FilePathRec>, h: u64, i: int) -> Option<int>
    decreases fp.len() - i,
{
    if i < 0 || i >= fp.len() {
        None
    } else if fp[i].path_hash == h {
        Some(i)
    } else {
        first_path_from(fp, h, i + 1)
    }
}

pub proof fn lemma_first_path_bounds(fp: Seq<FilePathRec>, h: u64, i: int)
    requires
        0 <= i,
    ensures
        first_path_from(fp, h, i) matches Some(p) ==> i <= p < fp.len() && fp[p].path_hash == h,
        forall|j: int| i <= j < fp.len() && fp[j].path_hash == h ==> first_path_from(fp, h, i) is Some,
    decreases fp.len() - i,
{
    if i < fp.len() && fp[i].path_hash != h {
        lemma_first_path_bounds(fp, h, i + 1);
    }
}

/// Finds the first file path with this hash.
pub fn find_path_by_hash(t: &FileTables, h: u64) -> (r: Option<usize>)
    ensures
        match r {
            Some(p) => first_path_from(t@.fp, h, 0) == Some(p as int) && p < t@.fp.len() && t@.fp[p as int].path_hash == h,
            None => first_path_from(t@.fp, h, 0) is None,
        },
{
    let n = t.file_paths.len();
    let mut i: usize = 0;
    while i < n
        invariant
            n == t@.fp.len(),
            i <= n,
            first_path_from(t@.fp, h, 0) == first_path_from(t@.fp, h, i as int),
        decreases n - i,
    {
        if t.file_paths[i].path_hash == h {
            return Some(i);
        }
        i = i + 1;
    }
    None
}

/// The file info that file path `p` leads to.
pub open spec fn info_of_path(v: TablesView, p: int) -> int {
    v.ii[v.fp[p].path_index as int].file_info_index as int
}

/// Gives file info `cur` its own copies of the entries that `shared`, the
/// path holding its data, uses; `region` is the user's region, whose entry
/// a regional file keeps.
pub fn unshare_entry(t: &mut FileTables, cur: usize, shared: usize, region: usize)
    requires
        can_unshare(old(t)@, cur as int, shared as int, region as int),
    ensures
        final(t)@ == unshare_step(old(t)@, cur as int, shared as int, region as int),
        tables_wf(final(t)@),
{
    let ghost v = t@;
    let itd_len = t.info_to_datas.len();
    proof {
        assert((v.fp[shared as int].path_index as int) < v.ii.len());
    }
    let src_ii = t.file_paths[shared].path_index as usize;
    proof {
        assert((v.ii[src_ii as int].file_info_index as int) < v.fi.len());
    }
    let src_fi = t.info_indices[src_ii].file_info_index as usize;
    let src = t.file_infos[src_fi];
    // the new file info, copied from the one that holds the data
    t.file_infos.push(src);
    let new_fi = t.file_infos.len() - 1;
    let src_index = t.info_indices[src_ii];
    t.info_indices.push(InfoIndexRec { dir_offset_index: src_index.dir_offset_index, file_info_index: new_fi as u32 });
    let new_ii = t.info_indices.len() - 1;
    // the path of `cur` and `cur` itself use the new info-index entry
    let cur_info = t.file_infos[cur];
    let cur_path = cur_info.file_path_index as usize;
    proof {
        assert((v.fi[cur as int].file_path_index as int) < v.fp.len());
    }
    let old_path = t.file_paths[cur_path];
    t.file_paths.set(cur_path, FilePathRec { path_hash: old_path.path_hash, path_index: new_ii as u32, ext_hash: old_path.ext_hash });
    t.file_infos.set(cur, FileInfoRec {
        file_path_index: cur_info.file_path_index,
        file_info_indice_index: new_ii as u32,
        info_to_data_index: cur_info.info_to_data_index,
        flags: cur_info.flags,
    });
    // a copy of the info-to-data entry, for the user's region where regional
    let mut flags = src.flags;
    let regional = flags.is_regional();
    proof {
        assert((v.fi[src_fi as int].info_to_data_index as int) < v.itd.len());
    }
    let itd_src = if regional { src.info_to_data_index as usize + region } else { src.info_to_data_index as usize };
    if regional {
        flags.set_is_regional(false);
    }
    let copied = t.info_to_datas[itd_src];
    proof {
        assert((v.itd[itd_src as int].file_data_index as int) < v.datas.len());
    }
    let data = t.datas[copied.file_data_index as usize];
    t.datas.push(data);
    let new_data = t.datas.len() - 1;
    t.info_to_datas.push(InfoToDataRec {
        folder_offset_index: copied.folder_offset_index,
        file_data_index: new_data as u32,
        load_bits: copied.load_bits,
    });
    let new_itd = t.info_to_datas.len() - 1;
    t.file_infos.set(new_fi, FileInfoRec {
        file_path_index: cur_info.file_path_index,
        file_info_indice_index: new_ii as u32,
        info_to_data_index: new_itd as u32,
        flags,
    });
    proof {
        let w = unshare_step(v, cur as int, shared as int, region as int);
        if !regional {
            lemma_flags_bits(0, src.flags);
        }
        assert(t@.fp =~= w.fp);
        assert(t@.ii =~= w.ii);
        assert(t@.fi =~= w.fi);
        assert(t@.itd =~= w.itd);
        assert(t@.datas =~= w.datas);
        assert(t@ == w);
        let u = t@;
        assert forall|p: int| 0 <= p < u.fp.len() implies ((#[trigger] u.fp[p]).path_index as int) < u.ii.len() by {
            if p != cur_path {
                assert(u.fp[p] == v.fp[p]);
            }
        }
        assert forall|i: int| 0 <= i < u.ii.len() implies ((#[trigger] u.ii[i]).file_info_index as int) < u.fi.len() by {
            if i < v.ii.len() {
                assert(u.ii[i] == v.ii[i]);
            }
        }
        assert forall|f: int| 0 <= f < u.fi.len() implies ((#[trigger] u.fi[f]).file_path_index as int) < u.fp.len()
            && (u.fi[f].info_to_data_index as int) < u.itd.len() by {
            if f < v.fi.len() && f != cur {
                assert(u.fi[f] == v.fi[f]);
            }
        }
        assert forall|k: int| 0 <= k < u.itd.len() implies ((#[trigger] u.itd[k]).file_data_index as int) < u.datas.len() by {
            if k < v.itd.len() {
                assert(u.itd[k] == v.itd[k]);
            }
        }
    }
}

/// What the unsharing keeps between calls: the file paths already unshared
/// in each directory, the sound banks that got an id of their own, and the
/// next such id.
pub struct UnshareState {
    pub unshared_files: HashMap<u32, HashSet<u32>>,
    pub unshared_banks: HashMap<u64, u32>,
    pub next_bank_id: u32,
}

/// The first id given to an unshared sound bank.
pub const FIRST_BANK_ID: u32 = 7420;

impl UnshareState {
    /// Nothing unshared yet.
    pub fn new() -> (r: Self)
        ensures
            forall|d: u32| r.unshared(d) == Set::<u32>::empty(),
            r.unshared_banks@ == Map::<u64, u32>::empty(),
            r.next_bank_id == FIRST_BANK_ID,
    {
        UnshareState { unshared_files: HashMap::new(), unshared_banks: HashMap::new(), next_bank_id: FIRST_BANK_ID }
    }

    /// The file paths already unshared in a directory.
    pub open spec fn unshared(&self, dir: u32) -> Set<u32> {
        if self.unshared_files@.contains_key(dir) {
            self.unshared_files@[dir]@
        } else {
            Set::empty()
        }
    }
}

/// The tables with the loaded-data table grown to the info-index table.
pub open spec fn with_loaded_len(v: TablesView) -> TablesView {
    TablesView { loaded_len: v.ii.len() as int, ..v }
}

/// Whether a file info must be unshared: its data lives at another path, or
/// its own data entry lies past the archive's shared data.
pub open spec fn needs_unshare(v: TablesView, index: int, shared: int, shared_data_idx: u32) -> bool {
    shared != v.fi[index].file_path_index as int
        || v.itd[default_region_slot(v, index)].file_data_index >= shared_data_idx
}

/// What unsharing file info `index` needs: sound tables, a chain of paths
/// that settles, the entries it reads, and room to add.
pub open spec fn can_unshare_file(v: TablesView, index: int, region: int) -> bool {
    &&& tables_wf(v)
    &&& 0 <= index < v.fi.len()
    &&& spec_shared_file(v, index) is Some
    &&& default_region_slot(v, index) < v.itd.len()
    &&& can_unshare(v, index, spec_shared_file(v, index)->0, region)
}

/// Whether unsharing file info `index` copies its data: its path is not
/// recorded yet and the file needs it.
pub open spec fn unshares(v: TablesView, set: Set<u32>, index: int, shared_data_idx: u32) -> bool {
    !set.contains(v.fi[index].file_path_index) && needs_unshare(v, index, spec_shared_file(v, index)->0, shared_data_idx)
}

/// The tables after unsharing file info `index` with `set` recorded.
pub open spec fn unshare_file_tables(v: TablesView, set: Set<u32>, index: int, shared_data_idx: u32, region: int) -> TablesView {
    with_loaded_len(if unshares(v, set, index, shared_data_idx) {
        unshare_step(v, index, spec_shared_file(v, index)->0, region)
    } else {
        v
    })
}

/// Unshares file info `index` of directory `dir_index` unless its path was
/// unshared there before, when its data lives elsewhere or past the shared
/// data (`shared_data_idx`); a sound bank gets the next bank id. The path
/// is then recorded as unshared, and the loaded-data table is grown to the
/// info-index table.
pub fn unshare_file(t: &mut FileTables, state: &mut UnshareState, dir_index: u32, index: usize, shared_data_idx: u32, region: usize)
    requires
        can_unshare_file(old(t)@, index as int, region as int),
        old(state).next_bank_id < u32::MAX,
    ensures
        ({
            let v = old(t)@;
            let cfp = v.fi[index as int].file_path_index;
            let set = old(state).unshared(dir_index);
            let bank = unshares(v, set, index as int, shared_data_idx) && v.fp[cfp as int].ext_hash == spec_hash40("nus3bank"@);
            &&& final(t)@ == unshare_file_tables(v, set, index as int, shared_data_idx, region as int)
            &&& final(state).unshared(dir_index) == set.insert(cfp)
            &&& forall|d: u32| d != dir_index ==> #[trigger] final(state).unshared(d) == old(state).unshared(d)
            &&& final(state).unshared_banks@ == (if bank {
                    old(state).unshared_banks@.insert(v.fp[cfp as int].path_hash, old(state).next_bank_id)
                } else {
                    old(state).unshared_banks@
                })
            &&& final(state).next_bank_id == (if bank { old(state).next_bank_id + 1 } else { old(state).next_bank_id as int })
        }),
{
    let ghost v = t@;
    let ghost old_state_files = state.unshared_files@;
    let mut set = match state.unshared_files.remove(&dir_index) {
        Some(s) => s,
        None => HashSet::new(),
    };
    let cfp = t.file_infos[index].file_path_index;
    if !set.contains(&cfp) {
        let shared = match get_shared_file(t, index) {
            Some(p) => p,
            None => {
                return;
            },
        };
        let info = t.file_infos[index];
        let itd_len = t.info_to_datas.len();
        let slot = if info.flags.is_regional() {
            info.info_to_data_index as usize
        } else if info.flags.is_localized() {
            info.info_to_data_index as usize + 1
        } else {
            info.info_to_data_index as usize
        };
        let data_index = t.info_to_datas[slot].file_data_index;
        if shared != cfp as usize || data_index >= shared_data_idx {
            proof {
                assert((v.fi[index as int].file_path_index as int) < v.fp.len());
            }
            let ext = t.file_paths[cfp as usize].ext_hash;
            let bank = Hash40::from_str("nus3bank");
            if ext == bank.0 {
                let path_hash = t.file_paths[cfp as usize].path_hash;
                state.unshared_banks.insert(path_hash, state.next_bank_id);
                state.next_bank_id = state.next_bank_id + 1;
            }
            unshare_entry(t, index, shared, region);
        }
    }
    set.insert(cfp);
    state.unshared_files.insert(dir_index, set);
    t.loaded_data_len = t.info_indices.len();
    proof {
        assert(t@.fp =~= with_loaded_len(t@).fp);
    }
}

/// Tables that the unsharing of a directory can work on: every index names
/// an entry, every chain of paths settles, every regional file info has an
/// entry for the user's region, and the first `n_fi` file infos that are
/// localized have their second entry.
pub open spec fn tables_sound(v: TablesView, region: int, n_fi: int) -> bool {
    &&& tables_wf(v)
    &&& n_fi <= v.fi.len()
    &&& region >= 0
    &&& forall|p: int| 0 <= p < v.fp.len() ==> #[trigger] follow(v, p, v.fp.len()) is Some
    &&& forall|f: int| 0 <= f < v.fi.len() && is_regional((#[trigger] v.fi[f]).flags) ==> v.fi[f].info_to_data_index as int + region < v.itd.len()
    &&& forall|f: int| 0 <= f < n_fi && !is_regional((#[trigger] v.fi[f]).flags) && is_localized(v.fi[f].flags)
            ==> v.fi[f].info_to_data_index as int + 1 < v.itd.len()
}

proof fn lemma_follow_after(v: TablesView, w: TablesView, cur_path: int, p: int, fuel: nat)
    requires
        tables_wf(v),
        0 <= cur_path < v.fp.len(),
        0 <= p < v.fp.len(),
        chain_step(w, cur_path) == cur_path,
        forall|q: int| 0 <= q < v.fp.len() && q != cur_path ==> #[trigger] chain_step(w, q) == chain_step(v, q),
        follow(v, p, fuel) is Some,
    ensures
        follow(w, p, fuel) is Some,
    decreases fuel,
{
    if p == cur_path {
    } else if chain_step(v, p) == p {
        assert(chain_step(w, p) == p);
    } else {
        assert(chain_step(w, p) == chain_step(v, p));
        let next = chain_step(v, p);
        assert((v.fp[p].path_index as int) < v.ii.len());
        assert((v.ii[v.fp[p].path_index as int].file_info_index as int) < v.fi.len());
        lemma_follow_after(v, w, cur_path, next, (fuel - 1) as nat);
    }
}

proof fn lemma_clear_regional(bits: u32)
    ensures
        !is_regional(flags_from_bits(bits & !0x8000u32)),
        is_localized(flags_from_bits(bits & !0x8000u32)) == ((bits >> 16u32) & 1 == 1),
{
    lemma_flags_bits(bits & !0x8000u32, flags_from_bits(0));
    assert(((bits & !0x8000u32) >> 15u32) & 1 != 1) by (bit_vector);
    assert((((bits & !0x8000u32) >> 16u32) & 1 == 1) == ((bits >> 16u32) & 1 == 1)) by (bit_vector);
}

/// Unsharing a file keeps the tables sound for the file infos that were
/// there, and the path of the unshared file then holds its own data.
pub proof fn lemma_unshare_sound(v: TablesView, cur: int, shared: int, region: int, n_fi: int)
    requires
        tables_sound(v, region, n_fi),
        can_unshare(v, cur, shared, region),
    ensures
        tables_sound(unshare_step(v, cur, shared, region), region, n_fi),
        chain_step(unshare_step(v, cur, shared, region), v.fi[cur].file_path_index as int) == v.fi[cur].file_path_index as int,
        unshare_step(v, cur, shared, region).fp.len() == v.fp.len(),
        unshare_step(v, cur, shared, region).fi.len() == v.fi.len() + 1,
        unshare_step(v, cur, shared, region).ii.len() == v.ii.len() + 1,
        forall|f: int| 0 <= f < v.fi.len() ==> (#[trigger] unshare_step(v, cur, shared, region).fi[f]).file_path_index == v.fi[f].file_path_index
            && unshare_step(v, cur, shared, region).fi[f].info_to_data_index == v.fi[f].info_to_data_index
            && unshare_step(v, cur, shared, region).fi[f].flags == v.fi[f].flags,
        forall|p: int| 0 <= p < v.fp.len() ==> (#[trigger] unshare_step(v, cur, shared, region).fp[p]).path_hash == v.fp[p].path_hash
            && unshare_step(v, cur, shared, region).fp[p].ext_hash == v.fp[p].ext_hash,
        forall|k: int| 0 <= k < v.itd.len() ==> #[trigger] unshare_step(v, cur, shared, region).itd[k] == v.itd[k],
{
    let w = unshare_step(v, cur, shared, region);
    let cur_path = v.fi[cur].file_path_index as int;
    let src_ii = v.fp[shared].path_index as int;
    let src = v.fi[v.ii[src_ii].file_info_index as int];
    lemma_clear_regional(src.flags.spec_bits());
    // indices stay in their tables
    assert forall|p: int| 0 <= p < w.fp.len() implies ((#[trigger] w.fp[p]).path_index as int) < w.ii.len() by {
        if p != cur_path {
            assert(w.fp[p] == v.fp[p]);
        }
    }
    assert forall|i: int| 0 <= i < w.ii.len() implies ((#[trigger] w.ii[i]).file_info_index as int) < w.fi.len() by {
        if i < v.ii.len() {
            assert(w.ii[i] == v.ii[i]);
        }
    }
    assert forall|f: int| 0 <= f < w.fi.len() implies ((#[trigger] w.fi[f]).file_path_index as int) < w.fp.len()
        && (w.fi[f].info_to_data_index as int) < w.itd.len() by {
        if f < v.fi.len() && f != cur {
            assert(w.fi[f] == v.fi[f]);
        }
    }
    assert forall|k: int| 0 <= k < w.itd.len() implies ((#[trigger] w.itd[k]).file_data_index as int) < w.datas.len() by {
        if k < v.itd.len() {
            assert(w.itd[k] == v.itd[k]);
        }
    }
    // chains
    assert(chain_step(w, cur_path) == cur_path);
    assert forall|q: int| 0 <= q < v.fp.len() && q != cur_path implies #[trigger] chain_step(w, q) == chain_step(v, q) by {
        assert(w.fp[q] == v.fp[q]);
        let j = v.fp[q].path_index as int;
        assert(j < v.ii.len());
        assert(w.ii[j] == v.ii[j]);
        let x = v.ii[j].file_info_index as int;
        assert(x < v.fi.len());
        if x == cur {
            assert(w.fi[x].file_path_index == v.fi[x].file_path_index);
        } else {
            assert(w.fi[x] == v.fi[x]);
        }
    }
    assert forall|p: int| 0 <= p < w.fp.len() implies #[trigger] follow(w, p, w.fp.len()) is Some by {
        assert(follow(v, p, v.fp.len()) is Some);
        lemma_follow_after(v, w, cur_path, p, v.fp.len());
    }
    // region entries
    assert forall|f: int| 0 <= f < w.fi.len() && is_regional((#[trigger] w.fi[f]).flags) implies w.fi[f].info_to_data_index as int + region < w.itd.len() by {
        if f < v.fi.len() && f != cur {
            assert(w.fi[f] == v.fi[f]);
        } else if f == cur {
        } else {
            assert(f == v.fi.len());
            if is_regional(src.flags) {
            } else {
                assert(w.fi[f].flags == src.flags);
            }
        }
    }
    assert forall|f: int| 0 <= f < n_fi && !is_regional((#[trigger] w.fi[f]).flags) && is_localized(w.fi[f].flags)
        implies w.fi[f].info_to_data_index as int + 1 < w.itd.len() by {
        if f != cur {
            assert(w.fi[f] == v.fi[f]);
        }
    }
    assert forall|f: int| 0 <= f < v.fi.len() implies (#[trigger] w.fi[f]).file_path_index == v.fi[f].file_path_index
        && w.fi[f].info_to_data_index == v.fi[f].info_to_data_index && w.fi[f].flags == v.fi[f].flags by {
        if f != cur {
            assert(w.fi[f] == v.fi[f]);
        }
    }
    assert forall|p: int| 0 <= p < v.fp.len() implies (#[trigger] w.fp[p]).path_hash == v.fp[p].path_hash
        && w.fp[p].ext_hash == v.fp[p].ext_hash by {
        if p != cur_path {
            assert(w.fp[p] == v.fp[p]);
        }
    }
}

/// Which files the unsharing of directories leaves alone or defers: the
/// directories it skips, the files whose data it never copies, the
/// extensions it defers to discovery, the first data index past the
/// shared data, and the user's region.
pub struct UnsharePolicy {
    pub blacklisted_dirs: Vec<u64>,
    pub blacklisted_files: Vec<u64>,
    pub unshare_on_discovery: Vec<u64>,
    pub shared_data_idx: u32,
    pub region: usize,
}

/// The unsharing state of one directory, as values.
pub struct DirUnshareView {
    pub t: TablesView,
    pub unshared: Set<u32>,
    pub banks: Map<u64, u32>,
    pub next_id: int,
    pub to_unshare: Map<u64, (u32, usize)>,
}

/// One file info of a directory whose path was not unshared there yet: a
/// file that needs unsharing is deferred to discovery when its extension
/// says so, left alone when its data's path is blacklisted, and otherwise
/// unshared (a sound bank taking the next id); a file that is unshared or
/// needs none is recorded as done.
pub open spec fn file_step(s: DirUnshareView, cur: int, self_index: u32, pol: UnsharePolicy) -> DirUnshareView {
    let v = s.t;
    let cfp = v.fi[cur].file_path_index;
    if s.unshared.contains(cfp) {
        s
    } else {
        let shared = spec_shared_file(v, cur)->0;
        let ext = v.fp[cfp as int].ext_hash;
        if needs_unshare(v, cur, shared, pol.shared_data_idx) {
            if pol.unshare_on_discovery@.contains(ext) {
                DirUnshareView { to_unshare: s.to_unshare.insert(v.fp[cfp as int].path_hash, (self_index, cur as usize)), ..s }
            } else if pol.blacklisted_files@.contains(v.fp[shared].path_hash) {
                s
            } else {
                let bank = ext == spec_hash40("nus3bank"@);
                DirUnshareView {
                    t: unshare_step(v, cur, shared, pol.region as int),
                    unshared: s.unshared.insert(cfp),
                    banks: if bank { s.banks.insert(v.fp[cfp as int].path_hash, s.next_id as u32) } else { s.banks },
                    next_id: if bank { s.next_id + 1 } else { s.next_id },
                    to_unshare: s.to_unshare,
                }
            }
        } else {
            DirUnshareView { unshared: s.unshared.insert(cfp), ..s }
        }
    }
}

/// The state after the file infos `start .. start + k` of a directory.
pub open spec fn files_upto(s: DirUnshareView, start: int, k: int, self_index: u32, pol: UnsharePolicy) -> DirUnshareView
    decreases k,
{
    if k <= 0 {
        s
    } else {
        file_step(files_upto(s, start, k - 1, self_index, pol), start + k - 1, self_index, pol)
    }
}

/// Room for `count` more unshares: every table can grow that much.
pub open spec fn room_for(v: TablesView, count: int, next_id: int) -> bool {
    &&& v.ii.len() + count < 0x100_0000
    &&& v.fi.len() + count < 0xFFFF_FFFF
    &&& v.itd.len() + count < 0xFFFF_FFFF
    &&& v.datas.len() + count < 0xFFFF_FFFF
    &&& next_id + count < 0xFFFF_FFFF
}

fn contains_hash(list: &Vec<u64>, h: u64) -> (r: bool)
    ensures
        r == list@.contains(h),
{
    let mut i: usize = 0;
    while i < list.len()
        invariant
            i <= list@.len(),
            forall|j: int| 0 <= j < i ==> list@[j] != h,
        decreases list@.len() - i,
    {
        if list[i] == h {
            assert(list@[i as int] == h);
            return true;
        }
        i = i + 1;
    }
    false
}

proof fn lemma_files_upto_growth(s: DirUnshareView, start: int, k: int, self_index: u32, pol: UnsharePolicy, n_fi: int)
    requires
        tables_sound(s.t, pol.region as int, n_fi),
        0 <= start,
        start + k <= n_fi,
        0 <= k,
        room_for(s.t, k, s.next_id),
    ensures
        ({
            let r = files_upto(s, start, k, self_index, pol);
            &&& tables_sound(r.t, pol.region as int, n_fi)
            &&& r.t.fp.len() == s.t.fp.len()
            &&& s.t.ii.len() <= r.t.ii.len() <= s.t.ii.len() + k
            &&& r.t.fi.len() - s.t.fi.len() == r.t.ii.len() - s.t.ii.len()
            &&& r.t.itd.len() - s.t.itd.len() == r.t.ii.len() - s.t.ii.len()
            &&& r.t.datas.len() - s.t.datas.len() == r.t.ii.len() - s.t.ii.len()
            &&& s.next_id <= r.next_id <= s.next_id + k
            &&& forall|f: int| 0 <= f < s.t.fi.len() ==> (#[trigger] r.t.fi[f]).file_path_index == s.t.fi[f].file_path_index
                    && r.t.fi[f].info_to_data_index == s.t.fi[f].info_to_data_index && r.t.fi[f].flags == s.t.fi[f].flags
            &&& forall|p: int| 0 <= p < s.t.fp.len() ==> (#[trigger] r.t.fp[p]).path_hash == s.t.fp[p].path_hash
                    && r.t.fp[p].ext_hash == s.t.fp[p].ext_hash
            &&& forall|x: int| 0 <= x < s.t.itd.len() ==> #[trigger] r.t.itd[x] == s.t.itd[x]
        }),
    decreases k,
{
    if k > 0 {
        lemma_files_upto_growth(s, start, k - 1, self_index, pol, n_fi);
        let m = files_upto(s, start, k - 1, self_index, pol);
        let cur = start + k - 1;
        let v = m.t;
        let cfp = v.fi[cur].file_path_index;
        if !m.unshared.contains(cfp) {
            let shared = spec_shared_file(v, cur)->0;
            assert(follow(v, chain_step(v, v.fi[cur].file_path_index as int), v.fp.len()) is Some) by {
                assert((v.fi[cur].file_path_index as int) < v.fp.len());
                let c = v.fi[cur].file_path_index as int;
                assert((v.fp[c].path_index as int) < v.ii.len());
                assert((v.ii[v.fp[c].path_index as int].file_info_index as int) < v.fi.len());
                assert(0 <= chain_step(v, c) < v.fp.len());
            }
            lemma_follow_in_bounds(v, chain_step(v, v.fi[cur].file_path_index as int), v.fp.len());
            if needs_unshare(v, cur, shared, pol.shared_data_idx) && !pol.unshare_on_discovery@.contains(v.fp[cfp as int].ext_hash)
                && !pol.blacklisted_files@.contains(v.fp[shared].path_hash) {
                lemma_unshare_sound(v, cur, shared, pol.region as int, n_fi);
                let w = unshare_step(v, cur, shared, pol.region as int);
                assert forall|f: int| 0 <= f < s.t.fi.len() implies (#[trigger] w.fi[f]).file_path_index == s.t.fi[f].file_path_index
                    && w.fi[f].info_to_data_index == s.t.fi[f].info_to_data_index && w.fi[f].flags == s.t.fi[f].flags by {
                    assert(v.fi[f].file_path_index == s.t.fi[f].file_path_index);
                }
                assert forall|p: int| 0 <= p < s.t.fp.len() implies (#[trigger] w.fp[p]).path_hash == s.t.fp[p].path_hash
                    && w.fp[p].ext_hash == s.t.fp[p].ext_hash by {
                    assert(v.fp[p].path_hash == s.t.fp[p].path_hash);
                }
                assert forall|x: int| 0 <= x < s.t.itd.len() implies #[trigger] w.itd[x] == s.t.itd[x] by {
                    assert(v.itd[x] == s.t.itd[x]);
                }
            }
        }
    }
}

proof fn lemma_follow_in_bounds(v: TablesView, p: int, fuel: nat)
    requires
        tables_wf(v),
        0 <= p < v.fp.len(),
    ensures
        follow(v, p, fuel) matches Some(q) ==> 0 <= q < v.fp.len(),
    decreases fuel,
{
    if chain_step(v, p) != p && fuel > 0 {
        assert((v.fp[p].path_index as int) < v.ii.len());
        assert((v.ii[v.fp[p].path_index as int].file_info_index as int) < v.fi.len());
        lemma_follow_in_bounds(v, chain_step(v, p), (fuel - 1) as nat);
    }
}

/// Unshares the file infos `start .. start + count` of the directory whose
/// index is `self_index`, recording the paths it is done with in `unshared`,
/// the sound banks' ids in `banks` and the deferred files in `to_unshare`.
pub fn unshare_dir_files(t: &mut FileTables, unshared: &mut HashSet<u32>, banks: &mut HashMap<u64, u32>, next_id: &mut u32,
    to_unshare: &mut HashMap<u64, (u32, usize)>, start: usize, count: usize, self_index: u32, pol: &UnsharePolicy)
    requires
        exists|n: int| tables_sound(old(t)@, pol.region as int, n) && start + count <= n,
        room_for(old(t)@, count as int, *old(next_id) as int),
    ensures
        ({
            let r = files_upto(DirUnshareView { t: old(t)@, unshared: old(unshared)@, banks: old(banks)@, next_id: *old(next_id) as int,
                to_unshare: old(to_unshare)@ }, start as int, count as int, self_index, *pol);
            &&& final(t)@ == r.t
            &&& final(unshared)@ == r.unshared
            &&& final(banks)@ == r.banks
            &&& *final(next_id) as int == r.next_id
            &&& final(to_unshare)@ == r.to_unshare
        }),
{
    let ghost s0 = DirUnshareView { t: t@, unshared: unshared@, banks: banks@, next_id: *next_id as int, to_unshare: to_unshare@ };
    let ghost n_fi = choose|n: int| tables_sound(t@, pol.region as int, n) && start + count <= n;
    let mut k: usize = 0;
    while k < count
        invariant
            tables_sound(s0.t, pol.region as int, n_fi),
            start + count <= n_fi,
            room_for(s0.t, count as int, s0.next_id),
            k <= count,
            ({
                let r = files_upto(s0, start as int, k as int, self_index, *pol);
                &&& t@ == r.t
                &&& unshared@ == r.unshared
                &&& banks@ == r.banks
                &&& *next_id as int == r.next_id
                &&& to_unshare@ == r.to_unshare
            }),
        decreases count - k,
    {
        proof {
            lemma_files_upto_growth(s0, start as int, k as int, self_index, *pol, n_fi);
        }
        let ghost m = files_upto(s0, start as int, k as int, self_index, *pol);
        let cur = start + k;
        let cfp = t.file_infos[cur].file_path_index;
        if !unshared.contains(&cfp) {
            let shared = match get_shared_file(t, cur) {
                Some(p) => p,
                None => {
                    proof {
                        assert(follow(m.t, chain_step(m.t, m.t.fi[cur as int].file_path_index as int), m.t.fp.len()) is Some) by {
                            let c = m.t.fi[cur as int].file_path_index as int;
                            assert(0 <= c < m.t.fp.len());
                            assert((m.t.fp[c].path_index as int) < m.t.ii.len());
                            assert((m.t.ii[m.t.fp[c].path_index as int].file_info_index as int) < m.t.fi.len());
                        }
                    }
                    return;
                },
            };
            proof {
                lemma_follow_in_bounds(m.t, chain_step(m.t, m.t.fi[cur as int].file_path_index as int), m.t.fp.len());
                let c = m.t.fi[cur as int].file_path_index as int;
                assert((m.t.fp[c].path_index as int) < m.t.ii.len());
                assert((m.t.ii[m.t.fp[c].path_index as int].file_info_index as int) < m.t.fi.len());
            }
            let info = t.file_infos[cur];
            let itd_len = t.info_to_datas.len();
            let slot = if info.flags.is_regional() {
                info.info_to_data_index as usize
            } else if info.flags.is_localized() {
                info.info_to_data_index as usize + 1
            } else {
                info.info_to_data_index as usize
            };
            let data_index = t.info_to_datas[slot].file_data_index;
            let ext = t.file_paths[cfp as usize].ext_hash;
            if shared != cfp as usize || data_index >= pol.shared_data_idx {
                if contains_hash(&pol.unshare_on_discovery, ext) {
                    let path_hash = t.file_paths[cfp as usize].path_hash;
                    to_unshare.insert(path_hash, (self_index, cur));
                } else if contains_hash(&pol.blacklisted_files, t.file_paths[shared].path_hash) {
                } else {
                    let bank = Hash40::from_str("nus3bank");
                    if ext == bank.0 {
                        let path_hash = t.file_paths[cfp as usize].path_hash;
                        banks.insert(path_hash, *next_id);
                        *next_id = *next_id + 1;
                    }
                    unshare_entry(t, cur, shared, pol.region);
                    unshared.insert(cfp);
                }
            } else {
                unshared.insert(cfp);
            }
        }
        k = k + 1;
    }
}

/// A directory: its path hash, its file group, its file infos, its child
/// slots, and whether it redirects to another directory (by symlink or not).
#[derive(Debug, Clone, Copy)]
pub struct DirRec {
    pub path_hash: u64,
    pub group_index: u32,
    pub file_info_start: u32,
    pub file_count: u32,
    pub child_dir_start: u32,
    pub child_dir_count: u32,
    pub redirected: bool,
    pub is_symlink: bool,
}

/// A file group: the directory it redirects to (`0xFF_FFFF` for none) and
/// its range of file infos.
#[derive(Debug, Clone, Copy, PartialEq, Eq, Structural)]
pub struct GroupRec {
    pub directory_index: u32,
    pub file_start: u32,
    pub file_count: u32,
}

/// The directory tables: the directories, the path hash in each child slot,
/// the (hash, index) pairs that find a directory, and the directory index
/// of each file group.
pub struct DirTables {
    pub dirs: Vec<DirRec>,
    pub child_hashes: Vec<u64>,
    pub dir_hash_to_index: Vec<(u64, u32)>,
    pub group_dir_index: Vec<u32>,
}

/// The directory index that marks a file group as no longer redirected.
pub const NO_DIRECTORY_INDEX: u32 = 0xFF_FFFF;

/// The directory index that the first pair with this hash gives.
pub open spec fn find_dir(pairs: Seq<(u64, u32)>, hash: u64) -> Option<u32>
    decreases pairs.len(),
{
    if pairs.len() == 0 {
        None
    } else if pairs[0].0 == hash {
        Some(pairs[0].1)
    } else {
        find_dir(pairs.drop_first(), hash)
    }
}

/// Every index in the directory tables names an entry, and every directory's
/// file infos lie among the first `n_fi`.
pub open spec fn dirs_wf(d: &DirTables, n_fi: int) -> bool {
    &&& forall|i: int| 0 <= i < d.dir_hash_to_index@.len() ==> ((#[trigger] d.dir_hash_to_index@[i]).1 as int) < d.dirs@.len()
    &&& forall|i: int| 0 <= i < d.dirs@.len() ==> (#[trigger] d.dirs@[i]).file_info_start + d.dirs@[i].file_count <= n_fi
            && d.dirs@[i].child_dir_start + d.dirs@[i].child_dir_count <= d.child_hashes@.len()
            && (d.dirs@[i].group_index as int) < d.group_dir_index@.len()
}

/// Everything a recursive unsharing changes, as values.
pub struct RecState {
    pub t: TablesView,
    pub sets: Map<u32, Set<u32>>,
    pub banks: Map<u64, u32>,
    pub next_id: int,
    pub to_unshare: Map<u64, (u32, usize)>,
    pub groups: Seq<u32>,
}

pub open spec fn set_of(m: Map<u32, Set<u32>>, d: u32) -> Set<u32> {
    if m.contains_key(d) { m[d] } else { Set::empty() }
}

/// Unsharing the directory with this hash and, recursively, its children:
/// a blacklisted or unknown directory is left alone; one that does not
/// redirect (or redirects by symlink) only has its children visited; one
/// that redirects stops redirecting, has its files unshared, then its
/// children visited. `None` where the tables had no room left. `fuel`
/// bounds the depth: a tree deeper than there are directories has a cycle.
pub open spec fn rec_dir(dirs: Seq<DirRec>, children: Seq<u64>, pairs: Seq<(u64, u32)>, s: RecState, hash: u64, fuel: nat,
    pol: UnsharePolicy) -> Option<RecState>
    decreases fuel, 0x1_0000_0001int,
{
    if pol.blacklisted_dirs@.contains(hash) {
        Some(s)
    } else {
        match find_dir(pairs, hash) {
            None => Some(s),
            Some(idx) => {
                let dir = dirs[idx as int];
                if !dir.redirected || dir.is_symlink {
                    rec_children(dirs, children, pairs, s, idx as int, fuel, pol, dir.child_dir_count as int)
                } else {
                    let groups = s.groups.update(dir.group_index as int, NO_DIRECTORY_INDEX);
                    if !room_for(s.t, dir.file_count as int, s.next_id) {
                        None
                    } else {
                        let r = files_upto(DirUnshareView { t: s.t, unshared: set_of(s.sets, idx), banks: s.banks, next_id: s.next_id,
                            to_unshare: s.to_unshare }, dir.file_info_start as int, dir.file_count as int, idx, pol);
                        let s2 = RecState { t: r.t, sets: s.sets.insert(idx, r.unshared), banks: r.banks, next_id: r.next_id,
                            to_unshare: r.to_unshare, groups };
                        rec_children(dirs, children, pairs, s2, idx as int, fuel, pol, dir.child_dir_count as int)
                    }
                }
            },
        }
    }
}

/// Unsharing the first `k` children of directory `idx`, in order.
pub open spec fn rec_children(dirs: Seq<DirRec>, children: Seq<u64>, pairs: Seq<(u64, u32)>, s: RecState, idx: int, fuel: nat,
    pol: UnsharePolicy, k: int) -> Option<RecState>
    decreases fuel, k,
{
    if k <= 0 || fuel == 0 || k > 0x1_0000_0000int {
        Some(s)
    } else {
        match rec_children(dirs, children, pairs, s, idx, fuel, pol, k - 1) {
            None => None,
            Some(s2) => rec_dir(dirs, children, pairs, s2, children[dirs[idx].child_dir_start + k - 1], (fuel - 1) as nat, pol),
        }
    }
}

/// The tables had no room left for the files of a directory.
#[derive(Debug, Clone, Copy, PartialEq, Eq, Structural)]
pub enum UnshareError {
    TablesFull,
}

/// The recursive state of the exec values.
pub open spec fn rec_state_of(t: TablesView, st: &UnshareState, to_unshare: Map<u64, (u32, usize)>, groups: Seq<u32>) -> RecState {
    RecState {
        t,
        sets: Map::new(|d: u32| st.unshared_files@.contains_key(d), |d: u32| st.unshared_files@[d]@),
        banks: st.unshared_banks@,
        next_id: st.next_bank_id as int,
        to_unshare,
        groups,
    }
}

fn find_dir_index(d: &DirTables, hash: u64) -> (r: Option<u32>)
    ensures
        r == find_dir(d.dir_hash_to_index@, hash),
{
    let mut i: usize = 0;
    assert(d.dir_hash_to_index@.subrange(0, d.dir_hash_to_index@.len() as int) =~= d.dir_hash_to_index@);
    while i < d.dir_hash_to_index.len()
        invariant
            i <= d.dir_hash_to_index@.len(),
            find_dir(d.dir_hash_to_index@, hash) == find_dir(d.dir_hash_to_index@.subrange(i as int, d.dir_hash_to_index@.len() as int), hash),
        decreases d.dir_hash_to_index@.len() - i,
    {
        let ghost rest = d.dir_hash_to_index@.subrange(i as int, d.dir_hash_to_index@.len() as int);
        assert(rest.drop_first() =~= d.dir_hash_to_index@.subrange(i + 1, d.dir_hash_to_index@.len() as int));
        assert(rest[0] == d.dir_hash_to_index@[i as int]);
        if d.dir_hash_to_index[i].0 == hash {
            return Some(d.dir_hash_to_index[i].1);
        }
        i = i + 1;
    }
    None
}

fn rec_dir_exec(t: &mut FileTables, d: &mut DirTables, state: &mut UnshareState, to_unshare: &mut HashMap<u64, (u32, usize)>,
    hash: u64, fuel: usize, pol: &UnsharePolicy, n_fi: Ghost<int>) -> (r: Result<(), UnshareError>)
    requires
        tables_sound(old(t)@, pol.region as int, n_fi@),
        dirs_wf(old(d), n_fi@),
    ensures
        final(d).dirs@ == old(d).dirs@,
        final(d).child_hashes@ == old(d).child_hashes@,
        final(d).dir_hash_to_index@ == old(d).dir_hash_to_index@,
        final(d).group_dir_index@.len() == old(d).group_dir_index@.len(),
        match rec_dir(old(d).dirs@, old(d).child_hashes@, old(d).dir_hash_to_index@,
            rec_state_of(old(t)@, old(state), old(to_unshare)@, old(d).group_dir_index@), hash, fuel as nat, *pol) {
            None => r is Err,
            Some(s) => r is Ok && rec_state_of(final(t)@, final(state), final(to_unshare)@, final(d).group_dir_index@) == s
                && tables_sound(final(t)@, pol.region as int, n_fi@),
        },
    decreases fuel, 0x1_0000_0001int,
{
    let ghost s0 = rec_state_of(t@, state, to_unshare@, d.group_dir_index@);
    if contains_hash(&pol.blacklisted_dirs, hash) {
        return Ok(());
    }
    let idx = match find_dir_index(d, hash) {
        Some(i) => i,
        None => {
            return Ok(());
        },
    };
    proof {
        lemma_find_dir_in(d.dir_hash_to_index@, hash, d.dirs@.len() as int);
    }
    let dir = d.dirs[idx as usize];
    if !dir.redirected || dir.is_symlink {
        return rec_children_exec(t, d, state, to_unshare, idx as usize, fuel, pol, n_fi);
    }
    d.group_dir_index.set(dir.group_index as usize, NO_DIRECTORY_INDEX);
    let count = dir.file_count as usize;
    // room for the new entries
    if !(t.info_indices.len() < 0x100_0000 && 0x100_0000 - t.info_indices.len() > count
        && t.file_infos.len() < 0xFFFF_FFFF && 0xFFFF_FFFF - t.file_infos.len() > count
        && t.info_to_datas.len() < 0xFFFF_FFFF && 0xFFFF_FFFF - t.info_to_datas.len() > count
        && t.datas.len() < 0xFFFF_FFFF && 0xFFFF_FFFF - t.datas.len() > count
        && (state.next_bank_id as usize) < 0xFFFF_FFFF && 0xFFFF_FFFF - (state.next_bank_id as usize) > count) {
        return Err(UnshareError::TablesFull);
    }
    let ghost s1 = RecState { groups: d.group_dir_index@, ..s0 };
    let mut set = match state.unshared_files.remove(&idx) {
        Some(x) => x,
        None => HashSet::new(),
    };
    let ghost sets_after_remove = state.unshared_files@;
    assert(set@ == set_of(s0.sets, idx));
    proof {
        assert(dir.file_info_start + dir.file_count <= n_fi@);
    }
    unshare_dir_files(t, &mut set, &mut state.unshared_banks, &mut state.next_bank_id, to_unshare,
        dir.file_info_start as usize, count, idx, pol);
    proof {
        lemma_files_upto_growth(DirUnshareView { t: s0.t, unshared: set_of(s0.sets, idx), banks: s0.banks, next_id: s0.next_id,
            to_unshare: s0.to_unshare }, dir.file_info_start as int, count as int, idx, *pol, n_fi@);
    }
    state.unshared_files.insert(idx, set);
    proof {
        let r = files_upto(DirUnshareView { t: s0.t, unshared: set_of(s0.sets, idx), banks: s0.banks, next_id: s0.next_id,
            to_unshare: s0.to_unshare }, dir.file_info_start as int, dir.file_count as int, idx, *pol);
        let now = rec_state_of(t@, state, to_unshare@, d.group_dir_index@);
        assert(now.sets =~= s0.sets.insert(idx, r.unshared));
    }
    rec_children_exec(t, d, state, to_unshare, idx as usize, fuel, pol, n_fi)
}

proof fn lemma_children_none(dirs: Seq<DirRec>, children: Seq<u64>, pairs: Seq<(u64, u32)>, s: RecState, idx: int, fuel: nat,
    pol: UnsharePolicy, k: int, n: int)
    requires
        0 < k <= n <= 0x1_0000_0000int,
        fuel > 0,
        rec_children(dirs, children, pairs, s, idx, fuel, pol, k) is None,
    ensures
        rec_children(dirs, children, pairs, s, idx, fuel, pol, n) is None,
    decreases n - k,
{
    if k < n {
        lemma_children_none(dirs, children, pairs, s, idx, fuel, pol, k + 1, n);
    }
}

proof fn lemma_find_dir_in(pairs: Seq<(u64, u32)>, hash: u64, n: int)
    requires
        forall|i: int| 0 <= i < pairs.len() ==> ((#[trigger] pairs[i]).1 as int) < n,
    ensures
        find_dir(pairs, hash) matches Some(x) ==> (x as int) < n,
    decreases pairs.len(),
{
    if pairs.len() > 0 && pairs[0].0 != hash {
        assert forall|i: int| 0 <= i < pairs.drop_first().len() implies ((#[trigger] pairs.drop_first()[i]).1 as int) < n by {
            assert(pairs.drop_first()[i] == pairs[i + 1]);
        }
        lemma_find_dir_in(pairs.drop_first(), hash, n);
    }
}

fn rec_children_exec(t: &mut FileTables, d: &mut DirTables, state: &mut UnshareState, to_unshare: &mut HashMap<u64, (u32, usize)>,
    idx: usize, fuel: usize, pol: &UnsharePolicy, n_fi: Ghost<int>) -> (r: Result<(), UnshareError>)
    requires
        tables_sound(old(t)@, pol.region as int, n_fi@),
        dirs_wf(old(d), n_fi@),
        idx < old(d).dirs@.len(),
    ensures
        final(d).dirs@ == old(d).dirs@,
        final(d).child_hashes@ == old(d).child_hashes@,
        final(d).dir_hash_to_index@ == old(d).dir_hash_to_index@,
        final(d).group_dir_index@.len() == old(d).group_dir_index@.len(),
        match rec_children(old(d).dirs@, old(d).child_hashes@, old(d).dir_hash_to_index@,
            rec_state_of(old(t)@, old(state), old(to_unshare)@, old(d).group_dir_index@), idx as int, fuel as nat, *pol,
            old(d).dirs@[idx as int].child_dir_count as int) {
            None => r is Err,
            Some(s) => r is Ok && rec_state_of(final(t)@, final(state), final(to_unshare)@, final(d).group_dir_index@) == s
                && tables_sound(final(t)@, pol.region as int, n_fi@),
        },
    decreases fuel, 0int,
{
    let ghost s0 = rec_state_of(t@, state, to_unshare@, d.group_dir_index@);
    assert(s0 == rec_state_of(old(t)@, old(state), old(to_unshare)@, old(d).group_dir_index@));
    let ghost dirs0 = d.dirs@;
    let ghost children0 = d.child_hashes@;
    let ghost pairs0 = d.dir_hash_to_index@;
    let start = d.dirs[idx].child_dir_start as usize;
    let count = d.dirs[idx].child_dir_count as usize;
    let total = d.child_hashes.len();
    if fuel == 0 {
        return Ok(());
    }
    let mut k: usize = 0;
    while k < count
        invariant
            d.dirs@ == dirs0,
            d.child_hashes@ == children0,
            d.dir_hash_to_index@ == pairs0,
            d.group_dir_index@.len() == old(d).group_dir_index@.len(),
            dirs0 == old(d).dirs@,
            children0 == old(d).child_hashes@,
            pairs0 == old(d).dir_hash_to_index@,
            s0 == rec_state_of(old(t)@, old(state), old(to_unshare)@, old(d).group_dir_index@),
            idx < dirs0.len(),
            start == dirs0[idx as int].child_dir_start,
            count == dirs0[idx as int].child_dir_count,
            total == children0.len(),
            start + count <= total,
            fuel > 0,
            k <= count,
            tables_sound(t@, pol.region as int, n_fi@),
            dirs_wf(d, n_fi@),
            rec_children(dirs0, children0, pairs0, s0, idx as int, fuel as nat, *pol, k as int)
                == Some(rec_state_of(t@, state, to_unshare@, d.group_dir_index@)),
        decreases count - k,
    {
        proof {
            assert(dirs0[idx as int].child_dir_start + dirs0[idx as int].child_dir_count <= children0.len());
        }
        let child = d.child_hashes[start + k];
        let ghost before = rec_state_of(t@, state, to_unshare@, d.group_dir_index@);
        let ghost groups_before = d.group_dir_index@;
        let res = rec_dir_exec(t, d, state, to_unshare, child, fuel - 1, pol, n_fi);
        match res {
            Ok(()) => {},
            Err(e) => {
                proof {
                    assert(child == children0[dirs0[idx as int].child_dir_start + (k + 1) - 1]);
                    assert(rec_dir(dirs0, children0, pairs0, before, child, (fuel - 1) as nat, *pol) is None);
                    assert(rec_children(dirs0, children0, pairs0, s0, idx as int, fuel as nat, *pol, k as int + 1) is None);
                    lemma_children_none(dirs0, children0, pairs0, s0, idx as int, fuel as nat, *pol, k as int + 1, count as int);
                    assert(rec_children(old(d).dirs@, old(d).child_hashes@, old(d).dir_hash_to_index@,
                        rec_state_of(old(t)@, old(state), old(to_unshare)@, old(d).group_dir_index@), idx as int, fuel as nat, *pol,
                        old(d).dirs@[idx as int].child_dir_count as int) is None);
                }
                return Err(e);
            },
        }
        k = k + 1;
    }
    Ok(())
}

/// Unshares the directory with this hash and, recursively, its children,
/// deferring the files whose extension asks for it to `to_unshare`. Stops
/// with an error where the tables have no room for a directory's files.
pub fn unshare_recursively(t: &mut FileTables, d: &mut DirTables, state: &mut UnshareState, to_unshare: &mut HashMap<u64, (u32, usize)>,
    directory: Hash40, pol: &UnsharePolicy) -> (r: Result<(), UnshareError>)
    requires
        tables_sound(old(t)@, pol.region as int, old(t)@.fi.len() as int),
        dirs_wf(old(d), old(t)@.fi.len() as int),
    ensures
        final(d).dirs@ == old(d).dirs@,
        match rec_dir(old(d).dirs@, old(d).child_hashes@, old(d).dir_hash_to_index@,
            rec_state_of(old(t)@, old(state), old(to_unshare)@, old(d).group_dir_index@), directory.0, old(d).dirs@.len() as nat, *pol) {
            None => r is Err,
            Some(s) => r is Ok && rec_state_of(final(t)@, final(state), final(to_unshare)@, final(d).group_dir_index@) == s,
        },
{
    let fuel = d.dirs.len();
    let ghost n_fi = t@.fi.len() as int;
    rec_dir_exec(t, d, state, to_unshare, directory.0, fuel, pol, Ghost(n_fi))
}

/// Unshares a directory recursively, then grows the game's loaded-data
/// table to the info-index table.
pub fn unshare_files(t: &mut FileTables, d: &mut DirTables, state: &mut UnshareState, to_unshare: &mut HashMap<u64, (u32, usize)>,
    directory: Hash40, pol: &UnsharePolicy) -> (r: Result<(), UnshareError>)
    requires
        tables_sound(old(t)@, pol.region as int, old(t)@.fi.len() as int),
        dirs_wf(old(d), old(t)@.fi.len() as int),
    ensures
        match rec_dir(old(d).dirs@, old(d).child_hashes@, old(d).dir_hash_to_index@,
            rec_state_of(old(t)@, old(state), old(to_unshare)@, old(d).group_dir_index@), directory.0, old(d).dirs@.len() as nat, *pol) {
            None => r is Err,
            Some(s) => r is Ok && rec_state_of(final(t)@, final(state), final(to_unshare)@, final(d).group_dir_index@)
                == RecState { t: with_loaded_len(s.t), ..s },
        },
{
    let r = unshare_recursively(t, d, state, to_unshare, directory, pol);
    t.loaded_data_len = t.info_indices.len();
    r
}

/// After a file is unshared, the chain of paths from it ends at its own
/// path, and the data it reads is a copy of the data it read before: the
/// entry for the user's region where the data was regional.
pub proof fn law_unshared_file_owns_its_data(v: TablesView, cur: int, region: int, n_fi: int)
    requires
        tables_sound(v, region, n_fi),
        0 <= cur < v.fi.len(),
        spec_shared_file(v, cur) is Some,
        can_unshare(v, cur, spec_shared_file(v, cur)->0, region),
    ensures
        ({
            let shared = spec_shared_file(v, cur)->0;
            let w = unshare_step(v, cur, shared, region);
            let src = v.fi[v.ii[v.fp[shared].path_index as int].file_info_index as int];
            let slot = if is_regional(src.flags) { src.info_to_data_index as int + region } else { src.info_to_data_index as int };
            let mine = w.fi[w.ii[w.fp[v.fi[cur].file_path_index as int].path_index as int].file_info_index as int];
            &&& spec_shared_file(w, cur) == Some(v.fi[cur].file_path_index as int)
            &&& !is_regional(mine.flags)
            &&& w.datas[w.itd[mine.info_to_data_index as int].file_data_index as int] == v.datas[v.itd[slot].file_data_index as int]
        }),
{
    let shared = spec_shared_file(v, cur)->0;
    lemma_unshare_sound(v, cur, shared, region, n_fi);
    let w = unshare_step(v, cur, shared, region);
    let cfp = v.fi[cur].file_path_index as int;
    assert(w.fi[cur].file_path_index == v.fi[cur].file_path_index);
    assert(chain_step(w, cfp) == cfp);
    assert(follow(w, cfp, w.fp.len()) == Some(cfp));
    let src = v.fi[v.ii[v.fp[shared].path_index as int].file_info_index as int];
    lemma_clear_regional(src.flags.spec_bits());
}

/// Unsharing the same file of the same directory a second time changes
/// nothing: the first records the file's path, and the tables it leaves
/// are kept as they are by the second.
pub proof fn law_unshare_file_once(v: TablesView, set: Set<u32>, index: int, shared_data_idx: u32, region: int)
    requires
        can_unshare_file(v, index, region),
        tables_sound(v, region, v.fi.len() as int),
    ensures
        ({
            let cfp = v.fi[index].file_path_index;
            let v1 = unshare_file_tables(v, set, index, shared_data_idx, region);
            &&& v1.fi[index].file_path_index == cfp
            &&& unshare_file_tables(v1, set.insert(cfp), index, shared_data_idx, region) == v1
            &&& set.insert(cfp).insert(cfp) == set.insert(cfp)
        }),
{
    let cfp = v.fi[index].file_path_index;
    if unshares(v, set, index, shared_data_idx) {
        let shared = spec_shared_file(v, index)->0;
        lemma_follow_in_bounds(v, chain_step(v, cfp as int), v.fp.len());
        let c = cfp as int;
        assert((v.fp[c].path_index as int) < v.ii.len());
        assert((v.ii[v.fp[c].path_index as int].file_info_index as int) < v.fi.len());
        lemma_unshare_sound(v, index, shared, region, v.fi.len() as int);
    }
    let v1 = unshare_file_tables(v, set, index, shared_data_idx, region);
    assert(!unshares(v1, set.insert(cfp), index, shared_data_idx));
    assert(with_loaded_len(v1) == v1);
    assert(set.insert(cfp).insert(cfp) =~= set.insert(cfp));
}

/// Resharing file `r` with file `s`: where both lead to the same file path
/// holding their data, `r` takes the file path of `s`.
pub open spec fn reshare_pair(v: TablesView, r: int, s: int) -> TablesView {
    let a = spec_shared_file(v, r);
    if a is Some && a == spec_shared_file(v, s) {
        TablesView {
            fi: v.fi.update(r, FileInfoRec { file_path_index: v.fi[s].file_path_index, ..v.fi[r] }),
            ..v
        }
    } else {
        v
    }
}

/// File `r` resharing with the source files `start .. start + k`, in order.
pub open spec fn reshare_with_sources(v: TablesView, r: int, start: int, k: int) -> TablesView
    decreases k,
{
    if k <= 0 {
        v
    } else {
        reshare_pair(reshare_with_sources(v, r, start, k - 1), r, start + k - 1)
    }
}

/// The files `r_start .. r_start + k` resharing, in order, with the source
/// files `s_start .. s_start + s_count`.
pub open spec fn reshare_files(v: TablesView, r_start: int, k: int, s_start: int, s_count: int) -> TablesView
    decreases k,
{
    if k <= 0 {
        v
    } else {
        reshare_with_sources(reshare_files(v, r_start, k - 1, s_start, s_count), r_start + k - 1, s_start, s_count)
    }
}

/// Resharing the directory with hash `to_reshare` with the directory with
/// hash `source`; the tables are left as they are where either is unknown.
pub open spec fn spec_reshare_directory(v: TablesView, dirs: Seq<DirRec>, pairs: Seq<(u64, u32)>, to_reshare: u64, source: u64) -> TablesView {
    match (find_dir(pairs, to_reshare), find_dir(pairs, source)) {
        (Some(a), Some(b)) => reshare_files(v, dirs[a as int].file_info_start as int, dirs[a as int].file_count as int,
            dirs[b as int].file_info_start as int, dirs[b as int].file_count as int),
        _ => v,
    }
}

proof fn lemma_reshare_pair_wf(v: TablesView, r: int, s: int)
    requires
        tables_wf(v),
        0 <= r < v.fi.len(),
        0 <= s < v.fi.len(),
    ensures
        tables_wf(reshare_pair(v, r, s)),
        reshare_pair(v, r, s).fi.len() == v.fi.len(),
        reshare_pair(v, r, s).fp == v.fp,
{
    let w = reshare_pair(v, r, s);
    assert forall|f: int| 0 <= f < w.fi.len() implies ((#[trigger] w.fi[f]).file_path_index as int) < w.fp.len()
        && (w.fi[f].info_to_data_index as int) < w.itd.len() by {
        if f != r {
            assert(w.fi[f] == v.fi[f]);
        }
    }
}

/// Makes each file of the directory `to_reshare` that leads to the same data
/// as a file of the directory `source` take that file's path, so that the
/// two share again.
pub fn reshare_directory(t: &mut FileTables, d: &DirTables, to_reshare: Hash40, source: Hash40)
    requires
        tables_wf(old(t)@),
        dirs_wf(d, old(t)@.fi.len() as int),
    ensures
        final(t)@ == spec_reshare_directory(old(t)@, d.dirs@, d.dir_hash_to_index@, to_reshare.0, source.0),
        tables_wf(final(t)@),
{
    let a = match find_dir_index(d, to_reshare.0) {
        Some(a) => a,
        None => return,
    };
    let b = match find_dir_index(d, source.0) {
        Some(b) => b,
        None => return,
    };
    proof {
        lemma_find_dir_in(d.dir_hash_to_index@, to_reshare.0, d.dirs@.len() as int);
        lemma_find_dir_in(d.dir_hash_to_index@, source.0, d.dirs@.len() as int);
    }
    let to = d.dirs[a as usize];
    let src = d.dirs[b as usize];
    let ghost v0 = t@;
    let n_fi = t.file_infos.len();
    let mut i: u32 = 0;
    while i < to.file_count
        invariant
            n_fi == v0.fi.len(),
            tables_wf(t@),
            t@.fi.len() == v0.fi.len(),
            to.file_info_start + to.file_count <= v0.fi.len(),
            src.file_info_start + src.file_count <= v0.fi.len(),
            i <= to.file_count,
            t@ == reshare_files(v0, to.file_info_start as int, i as int, src.file_info_start as int, src.file_count as int),
        decreases to.file_count - i,
    {
        let r = to.file_info_start as usize + i as usize;
        let ghost before = t@;
        let mut j: u32 = 0;
        while j < src.file_count
            invariant
                n_fi == v0.fi.len(),
                tables_wf(t@),
                t@.fi.len() == v0.fi.len(),
                r < v0.fi.len(),
                src.file_info_start + src.file_count <= v0.fi.len(),
                j <= src.file_count,
                t@ == reshare_with_sources(before, r as int, src.file_info_start as int, j as int),
            decreases src.file_count - j,
        {
            let s = src.file_info_start as usize + j as usize;
            let ghost cur = t@;
            proof {
                lemma_reshare_pair_wf(cur, r as int, s as int);
            }
            let shared_r = get_shared_file(t, r);
            let shared_s = get_shared_file(t, s);
            if let (Some(x), Some(y)) = (shared_r, shared_s) {
                if x == y {
                    let path = t.file_infos[s].file_path_index;
                    let mut info = t.file_infos[r];
                    info.file_path_index = path;
                    t.file_infos.set(r, info);
                    assert(t@ =~= reshare_pair(cur, r as int, s as int));
                }
            }
            j = j + 1;
        }
        i = i + 1;
    }
}

/// Builds a new file hash table: one (hash, path index) entry per path,
/// grouped by bucket (the hash modulo `bucket_count`) and sorted by hash in
/// each bucket; the bucket headers start with one that gives the number of
/// buckets, then each bucket's start and length in the table.
pub fn recreate_path_to_index(path_hashes: &Vec<u64>, bucket_count: usize) -> (r: (Vec<(u64, u32)>, Vec<(u32, u32)>))
    requires
        bucket_count > 0,
        path_hashes@.len() < 0x100_0000,
    ensures
        r.0@.to_multiset() == path_entries(path_hashes@).to_multiset(),
        sorted_by_bucket(r.0@, bucket_count as u64),
        r.1@.len() == bucket_count + 1,
        r.1@[0] == (0u32, bucket_count as u32),
        forall|b: int| 0 <= b < bucket_count ==> {
            &&& (#[trigger] r.1@[b + 1]).0 as int == first_from(r.0@, b, bucket_count as u64, 0)
            &&& r.1@[b + 1].0 + r.1@[b + 1].1 == first_from(r.0@, b + 1, bucket_count as u64, 0)
        },
{
    let (table, buckets) = resort_file_hashes(path_hashes, bucket_count as u64);
    let mut headers: Vec<(u32, u32)> = Vec::new();
    headers.push((0, bucket_count as u32));
    let mut b: usize = 0;
    while b < buckets.len()
        invariant
            b <= buckets@.len(),
            headers@.len() == b + 1,
            headers@[0] == (0u32, bucket_count as u32),
            forall|k: int| 0 <= k < b ==> #[trigger] headers@[k + 1] == buckets@[k],
        decreases buckets@.len() - b,
    {
        headers.push(buckets[b]);
        b = b + 1;
    }
    proof {
        assert forall|k: int| 0 <= k < bucket_count implies #[trigger] headers@[k + 1] == buckets@[k] by {}
    }
    (table, headers)
}

/// Builds a new directory hash table: one (hash, directory index) entry per
/// directory, sorted by hash.
pub fn recreate_dir_path_to_index(dir_hashes: &Vec<u64>) -> (r: Vec<(u64, u32)>)
    requires
        dir_hashes@.len() < 0x100_0000,
    ensures
        r@.to_multiset() == path_entries(dir_hashes@).to_multiset(),
        sorted_by_hash(r@),
{
    resort_folder_paths(dir_hashes)
}

} // verus!
