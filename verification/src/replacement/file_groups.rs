//! Resharing file groups: a directory whose files load through an unnamed
//! group of shared files has that link cut, its files made standalone
//! where they would otherwise load data that is no longer there.
use std::collections::HashSet;
use vstd::prelude::*;

use crate::replacement::unshare::{AdditionContext, folder_slot, lemma_standalone_flags, locale_slot_of, standalone, standalone_flags};
use crate::unsharing::{is_localized, is_regional, tables_wf, DirRec, FileInfoRec, FileTables, GroupRec, TablesView};

verus! {

broadcast use vstd::std_specs::hash::group_hash_axioms;

/// Every file info names an existing info-index entry.
pub open spec fn info_indices_wf(v: TablesView) -> bool {
    forall|f: int| 0 <= f < v.fi.len() ==> ((#[trigger] v.fi[f]).file_info_indice_index as int) < v.ii.len()
}

/// The file info that file info `f` finally loads through: the file info
/// its info-index entry names, followed until one names itself; `None`
/// where that takes more than `fuel` steps.
pub open spec fn shared_info(v: TablesView, f: int, fuel: nat) -> Option<int>
    decreases fuel,
{
    let next = v.ii[v.fi[f].file_info_indice_index as int].file_info_index as int;
    if next == f {
        Some(f)
    } else if fuel == 0 {
        None
    } else {
        shared_info(v, next, (fuel - 1) as nat)
    }
}

proof fn lemma_shared_info_in_bounds(v: TablesView, f: int, fuel: nat)
    requires
        tables_wf(v),
        info_indices_wf(v),
        0 <= f < v.fi.len(),
    ensures
        shared_info(v, f, fuel) matches Some(g) ==> 0 <= g < v.fi.len(),
    decreases fuel,
{
    assert((v.fi[f].file_info_indice_index as int) < v.ii.len());
    let next = v.ii[v.fi[f].file_info_indice_index as int].file_info_index as int;
    if next != f && fuel > 0 {
        lemma_shared_info_in_bounds(v, next, (fuel - 1) as nat);
    }
}

pub(crate) fn shared_info_of(t: &FileTables, f: usize) -> (r: Option<usize>)
    requires
        tables_wf(t@),
        info_indices_wf(t@),
        f < t@.fi.len(),
    ensures
        match r {
            Some(g) => shared_info(t@, f as int, t@.fi.len()) == Some(g as int) && g < t@.fi.len(),
            None => shared_info(t@, f as int, t@.fi.len()) is None,
        },
{
    let n = t.file_infos.len();
    let mut cur = f;
    let mut fuel = n;
    proof {
        lemma_shared_info_in_bounds(t@, f as int, n as nat);
    }
    loop
        invariant
            tables_wf(t@),
            info_indices_wf(t@),
            n == t@.fi.len(),
            cur < n,
            fuel <= n,
            shared_info(t@, f as int, n as nat) == shared_info(t@, cur as int, fuel as nat),
        decreases fuel,
    {
        proof {
            assert((t@.fi[cur as int].file_info_indice_index as int) < t@.ii.len());
        }
        let next = t.info_indices[t.file_infos[cur].file_info_indice_index as usize].file_info_index as usize;
        if next == cur {
            return Some(cur);
        }
        if fuel == 0 {
            return None;
        }
        cur = next;
        fuel = fuel - 1;
    }
}

/// The file infos that the file infos `gs .. gs + gc` of a group finally
/// load through.
pub open spec fn group_refs(v: TablesView, gs: int, gc: int) -> Set<u64> {
    Set::new(|i: u64| exists|x: int| gs <= x < gs + gc && #[trigger] shared_info(v, x, v.fi.len()) == Some(i as int))
}

/// Whether directory file info `g` keeps its link to the group: it loads
/// through itself, or through a file info whose data (read in the archive
/// `a`) lies before the shared data and that is neither in the group nor
/// loaded through by one of its files. Where the chain never settles it is
/// left alone.
pub open spec fn keeps_link(v: TablesView, a: TablesView, g: int, gs: int, gc: int, region: int, sdi: int) -> bool {
    match shared_info(v, g, v.fi.len()) {
        None => true,
        Some(si) => si == g || ({
            let slot = folder_slot(v.fi[si], region);
            &&& 0 <= slot < a.itd.len()
            &&& (a.itd[slot].file_data_index as int) < sdi
            &&& !(gs <= si < gs + gc)
            &&& !group_refs(v, gs, gc).contains(si as u64)
        }),
    }
}

/// The file infos after those of a directory (`ds .. ds + dc`) that lose
/// their link to the group `gs .. gs + gc` become standalone.
pub open spec fn reshared_group_fi(v: TablesView, a: TablesView, ds: int, dc: int, gs: int, gc: int, region: int, sdi: int) -> Seq<FileInfoRec> {
    Seq::new(v.fi.len(), |g: int| if ds <= g < ds + dc && !keeps_link(v, a, g, gs, gc, region, sdi) {
        FileInfoRec {
            file_path_index: v.fi[g].file_path_index,
            file_info_indice_index: v.fi[g].file_info_indice_index,
            info_to_data_index: v.fi[g].info_to_data_index,
            flags: standalone(v.fi[g].flags),
        }
    } else {
        v.fi[g]
    })
}

fn collect_group_refs(t: &FileTables, gs: usize, gc: usize) -> (r: HashSet<u64>)
    requires
        tables_wf(t@),
        info_indices_wf(t@),
        gs + gc <= t@.fi.len(),
    ensures
        r@ == group_refs(t@, gs as int, gc as int),
{
    let mut refs: HashSet<u64> = HashSet::new();
    let n = t.file_infos.len();
    let mut k: usize = 0;
    while k < gc
        invariant
            n == t@.fi.len(),
            tables_wf(t@),
            info_indices_wf(t@),
            gs + gc <= t@.fi.len(),
            k <= gc,
            refs@ == group_refs(t@, gs as int, k as int),
        decreases gc - k,
    {
        let ghost before = refs@;
        let x = gs + k;
        let si = shared_info_of(t, x);
        match si {
            Some(g) => {
                refs.insert(g as u64);
                assert(refs@ =~= group_refs(t@, gs as int, k + 1)) by {
                    assert(shared_info(t@, x as int, t@.fi.len()) == Some(g as int));
                    assert forall|i: u64| #[trigger] group_refs(t@, gs as int, k + 1).contains(i) implies refs@.contains(i) by {
                        let y = choose|y: int| gs <= y < gs + k + 1 && #[trigger] shared_info(t@, y, t@.fi.len()) == Some(i as int);
                        if y < gs + k {
                            assert(before.contains(i));
                        }
                    }
                    assert forall|i: u64| #[trigger] refs@.contains(i) implies group_refs(t@, gs as int, k + 1).contains(i) by {
                        if i != g as u64 {
                            let y = choose|y: int| gs <= y < gs + k && #[trigger] shared_info(t@, y, t@.fi.len()) == Some(i as int);
                            assert(gs <= y < gs + k + 1);
                        } else {
                            assert(shared_info(t@, x as int, t@.fi.len()) == Some(i as int));
                        }
                    }
                }
            },
            None => {
                assert(refs@ =~= group_refs(t@, gs as int, k + 1)) by {
                    assert forall|i: u64| #[trigger] group_refs(t@, gs as int, k + 1).contains(i) implies refs@.contains(i) by {
                        let y = choose|y: int| gs <= y < gs + k + 1 && #[trigger] shared_info(t@, y, t@.fi.len()) == Some(i as int);
                        if y < gs + k {
                            assert(before.contains(i));
                        }
                    }
                    assert forall|i: u64| #[trigger] refs@.contains(i) implies group_refs(t@, gs as int, k + 1).contains(i) by {
                        let y = choose|y: int| gs <= y < gs + k && #[trigger] shared_info(t@, y, t@.fi.len()) == Some(i as int);
                        assert(gs <= y < gs + k + 1);
                    }
                }
            },
        }
        k = k + 1;
    }
    refs
}

/// Following info-index entries depends only on the info-index table and
/// the info-index entry each file info names.
proof fn lemma_shared_info_same(v: TablesView, w: TablesView, f: int, fuel: nat)
    requires
        v.ii == w.ii,
        v.fi.len() == w.fi.len(),
        forall|g: int| 0 <= g < v.fi.len() ==> (#[trigger] v.fi[g]).file_info_indice_index == w.fi[g].file_info_indice_index,
        tables_wf(v),
        info_indices_wf(v),
        0 <= f < v.fi.len(),
    ensures
        shared_info(v, f, fuel) == shared_info(w, f, fuel),
    decreases fuel,
{
    assert(v.fi[f].file_info_indice_index == w.fi[f].file_info_indice_index);
    assert((v.fi[f].file_info_indice_index as int) < v.ii.len());
    let next = v.ii[v.fi[f].file_info_indice_index as int].file_info_index as int;
    if next != f && fuel > 0 {
        lemma_shared_info_same(v, w, next, (fuel - 1) as nat);
    }
}

/// The file infos of `v` with those of `ds .. ds + k` that lose their link
/// to the group made standalone.
pub open spec fn relinked_upto(v: TablesView, a: TablesView, ds: int, k: int, gs: int, gc: int, region: int, sdi: int) -> Seq<FileInfoRec> {
    Seq::new(v.fi.len(), |g: int| if ds <= g < ds + k && !keeps_link(v, a, g, gs, gc, region, sdi) {
        FileInfoRec {
            file_path_index: v.fi[g].file_path_index,
            file_info_indice_index: v.fi[g].file_info_indice_index,
            info_to_data_index: v.fi[g].info_to_data_index,
            flags: standalone(v.fi[g].flags),
        }
    } else {
        v.fi[g]
    })
}

/// Cuts the link of a directory's file infos (`ds .. ds + dc`) to the
/// group of file infos `gs .. gs + gc`: each that does not keep it (see
/// `keeps_link`) becomes standalone, so that it loads by its path.
fn relink_group(t: &mut FileTables, a: &FileTables, ds: usize, dc: usize, gs: usize, gc: usize, region: usize, sdi: u32)
    requires
        tables_wf(old(t)@),
        info_indices_wf(old(t)@),
        ds + dc <= old(t)@.fi.len(),
        gs + gc <= old(t)@.fi.len(),
    ensures
        final(t)@ == (TablesView { fi: reshared_group_fi(old(t)@, a@, ds as int, dc as int, gs as int, gc as int, region as int, sdi as int), ..old(t)@ }),
{
    let ghost v = t@;
    let refs = collect_group_refs(t, gs, gc);
    let n = t.file_infos.len();
    let a_len = a.info_to_datas.len();
    let mut k: usize = 0;
    assert(t@ =~= TablesView { fi: relinked_upto(v, a@, ds as int, 0, gs as int, gc as int, region as int, sdi as int), ..v });
    while k < dc
        invariant
            n == v.fi.len(),
            a_len == a@.itd.len(),
            tables_wf(v),
            info_indices_wf(v),
            ds + dc <= n,
            gs + gc <= n,
            k <= dc,
            refs@ == group_refs(v, gs as int, gc as int),
            t@ == (TablesView { fi: relinked_upto(v, a@, ds as int, k as int, gs as int, gc as int, region as int, sdi as int), ..v }),
        decreases dc - k,
    {
        let g = ds + k;
        let ghost w = t@;
        proof {
            assert forall|h: int| 0 <= h < v.fi.len() implies (#[trigger] v.fi[h]).file_info_indice_index == w.fi[h].file_info_indice_index by {
                assert(w.fi[h] == relinked_upto(v, a@, ds as int, k as int, gs as int, gc as int, region as int, sdi as int)[h]);
            }
            lemma_shared_info_same(v, w, g as int, n as nat);
            assert(info_indices_wf(w)) by {
                assert forall|h: int| 0 <= h < w.fi.len() implies ((#[trigger] w.fi[h]).file_info_indice_index as int) < w.ii.len() by {
                    assert(v.fi[h].file_info_indice_index == w.fi[h].file_info_indice_index);
                }
            }
            assert(tables_wf(w)) by {
                assert forall|h: int| 0 <= h < w.fi.len() implies ((#[trigger] w.fi[h]).file_path_index as int) < w.fp.len()
                    && (w.fi[h].info_to_data_index as int) < w.itd.len() by {
                    assert(w.fi[h] == relinked_upto(v, a@, ds as int, k as int, gs as int, gc as int, region as int, sdi as int)[h]);
                }
            }
        }
        let si = shared_info_of(t, g);
        let keeps = match si {
            None => true,
            Some(s) => {
                if s == g {
                    true
                } else {
                    let info = t.file_infos[s];
                    proof {
                        lemma_standalone_flags(v.fi[s as int].flags);
                        assert(info == relinked_upto(v, a@, ds as int, k as int, gs as int, gc as int, region as int, sdi as int)[s as int]);
                        assert(info.info_to_data_index == v.fi[s as int].info_to_data_index);
                        assert(is_regional(info.flags) == is_regional(v.fi[s as int].flags));
                        assert(is_localized(info.flags) == is_localized(v.fi[s as int].flags));
                    }
                    let base = info.info_to_data_index as usize;
                    let add = if info.flags.is_regional() {
                        region
                    } else if info.flags.is_localized() {
                        locale_slot_of(region)
                    } else {
                        0
                    };
                    let before_shared = if base < a_len && add < a_len - base {
                        a.info_to_datas[base + add].file_data_index < sdi
                    } else {
                        false
                    };
                    let in_group = gs <= s && s < gs + gc;
                    before_shared && !in_group && !refs.contains(&(s as u64))
                }
            },
        };
        assert(keeps == keeps_link(v, a@, g as int, gs as int, gc as int, region as int, sdi as int));
        if !keeps {
            let info = t.file_infos[g];
            let flags = standalone_flags(info.flags);
            t.file_infos.set(g, FileInfoRec {
                file_path_index: info.file_path_index,
                file_info_indice_index: info.file_info_indice_index,
                info_to_data_index: info.info_to_data_index,
                flags,
            });
        }
        proof {
            assert(t@.fi =~= relinked_upto(v, a@, ds as int, k + 1, gs as int, gc as int, region as int, sdi as int));
        }
        k = k + 1;
    }
    assert(relinked_upto(v, a@, ds as int, dc as int, gs as int, gc as int, region as int, sdi as int)
        =~= reshared_group_fi(v, a@, ds as int, dc as int, gs as int, gc as int, region as int, sdi as int));
}

/// Every directory's file infos lie in the table, every redirected
/// directory names a group, every group that a directory's group links to
/// without a symlink exists, and every group's files lie in the table.
pub open spec fn groups_wf(dirs: Seq<DirRec>, groups: Seq<GroupRec>, n_fi: int) -> bool {
    &&& forall|d: int| 0 <= d < dirs.len() ==> {
        &&& (#[trigger] dirs[d]).file_info_start + dirs[d].file_count <= n_fi
        &&& dirs[d].redirected ==> {
            &&& (dirs[d].group_index as int) < groups.len()
            &&& groups[dirs[d].group_index as int].directory_index != 0xFF_FFFF && !dirs[d].is_symlink ==>
                    (groups[dirs[d].group_index as int].directory_index as int) < groups.len()
        }
    }
    &&& forall|g: int| 0 <= g < groups.len() ==> (#[trigger] groups[g]).file_start + groups[g].file_count <= n_fi
}

/// The group that directory `dir` links to without a symlink, where that
/// group itself still links somewhere.
pub open spec fn linked_group(dir: DirRec, groups: Seq<GroupRec>) -> Option<GroupRec> {
    if dir.redirected && groups[dir.group_index as int].directory_index != 0xFF_FFFF && !dir.is_symlink
        && groups[groups[dir.group_index as int].directory_index as int].directory_index != 0xFF_FFFF {
        Some(groups[groups[dir.group_index as int].directory_index as int])
    } else {
        None
    }
}

/// The file infos and groups after the first `k` directories are handled:
/// a directory linked to a group has its file infos relinked and its own
/// group's link cut.
pub open spec fn after_groups(v: TablesView, a: TablesView, dirs: Seq<DirRec>, groups: Seq<GroupRec>, k: int, region: int, sdi: int) -> (TablesView, Seq<GroupRec>)
    decreases k,
{
    if k <= 0 {
        (v, groups)
    } else {
        let (w, gs) = after_groups(v, a, dirs, groups, k - 1, region, sdi);
        let dir = dirs[k - 1];
        match linked_group(dir, gs) {
            Some(g) => (
                TablesView { fi: reshared_group_fi(w, a, dir.file_info_start as int, dir.file_count as int, g.file_start as int, g.file_count as int, region, sdi), ..w },
                gs.update(dir.group_index as int, GroupRec { directory_index: 0xFF_FFFF, file_start: gs[dir.group_index as int].file_start, file_count: gs[dir.group_index as int].file_count }),
            ),
            None => (w, gs),
        }
    }
}

/// Cuts every directory's link to a shared group of file infos (see
/// `reshare_file_group`), and then the link of the directory's own group.
fn relink_groups(t: &mut FileTables, a: &FileTables, dirs: &Vec<DirRec>, groups: &mut Vec<GroupRec>, region: usize, sdi: u32)
    requires
        tables_wf(old(t)@),
        info_indices_wf(old(t)@),
        groups_wf(dirs@, old(groups)@, old(t)@.fi.len() as int),
    ensures
        (final(t)@, final(groups)@) == after_groups(old(t)@, a@, dirs@, old(groups)@, dirs@.len() as int, region as int, sdi as int),
{
    let ghost v = t@;
    let ghost g0 = groups@;
    let n = dirs.len();
    let mut k: usize = 0;
    while k < n
        invariant
            n == dirs@.len(),
            k <= n,
            tables_wf(t@),
            info_indices_wf(t@),
            t@.fi.len() == v.fi.len(),
            groups_wf(dirs@, groups@, v.fi.len() as int),
            (t@, groups@) == after_groups(v, a@, dirs@, g0, k as int, region as int, sdi as int),
        decreases n - k,
    {
        let dir = dirs[k];
        proof {
            assert(dirs@[k as int].file_info_start + dirs@[k as int].file_count <= v.fi.len());
        }
        if dir.redirected {
            let gi = dir.group_index as usize;
            let di = groups[gi].directory_index;
            if di != 0xFF_FFFF && !dir.is_symlink {
                let g = groups[di as usize];
                if g.directory_index != 0xFF_FFFF {
                    proof {
                        assert(groups@[di as int].file_start + groups@[di as int].file_count <= v.fi.len());
                    }
                    let ghost w = t@;
                    relink_group(t, a, dir.file_info_start as usize, dir.file_count as usize, g.file_start as usize, g.file_count as usize,
                        region, sdi);
                    let old_group = groups[gi];
                    let ghost gs_before = groups@;
                    groups.set(gi, GroupRec { directory_index: 0xFF_FFFF, file_start: old_group.file_start, file_count: old_group.file_count });
                    proof {
                        let r = reshared_group_fi(w, a@, dir.file_info_start as int, dir.file_count as int, g.file_start as int, g.file_count as int,
                            region as int, sdi as int);
                        assert forall|h: int| 0 <= h < r.len() implies ((#[trigger] r[h]).file_info_indice_index as int) < w.ii.len()
                            && (r[h].file_path_index as int) < w.fp.len() && (r[h].info_to_data_index as int) < w.itd.len() by {
                            assert((w.fi[h].file_info_indice_index as int) < w.ii.len());
                        }
                        assert(groups_wf(dirs@, groups@, v.fi.len() as int)) by {
                            assert forall|g2: int| 0 <= g2 < groups@.len() implies (#[trigger] groups@[g2]).file_start + groups@[g2].file_count <= v.fi.len() by {
                                if g2 != gi {
                                    assert(groups@[g2] == gs_before[g2]);
                                }
                            }
                        }
                    }
                }
            }
        }
        k = k + 1;
    }
}

impl AdditionContext {
    /// The file info that file info `current_index` finally loads through
    /// (see `shared_info`); `None` where the chain never settles.
    pub fn get_shared_info_index(&self, current_index: usize) -> (r: Option<usize>)
        requires
            tables_wf(self.files@),
            info_indices_wf(self.files@),
            current_index < self.files@.fi.len(),
        ensures
            match r {
                Some(g) => shared_info(self.files@, current_index as int, self.files@.fi.len()) == Some(g as int),
                None => shared_info(self.files@, current_index as int, self.files@.fi.len()) is None,
            },
    {
        shared_info_of(&self.files, current_index)
    }
}

/// Cuts the link of a directory's file infos (`ds .. ds + dc`) to the
/// group of file infos `gs .. gs + gc`: each that does not keep it (see
/// `keeps_link`, which reads the archive's data entries) becomes
/// standalone, so that it loads by its path.
pub fn reshare_file_group(ctx: &mut AdditionContext, ds: usize, dc: usize, gs: usize, gc: usize, region: usize, sdi: u32)
    requires
        tables_wf(old(ctx).files@),
        info_indices_wf(old(ctx).files@),
        ds + dc <= old(ctx).files@.fi.len(),
        gs + gc <= old(ctx).files@.fi.len(),
    ensures
        final(ctx).files@ == (TablesView {
            fi: reshared_group_fi(old(ctx).files@, old(ctx).arc@, ds as int, dc as int, gs as int, gc as int, region as int, sdi as int),
            ..old(ctx).files@
        }),
        final(ctx).arc@ == old(ctx).arc@,
        final(ctx).dirs@ == old(ctx).dirs@,
        final(ctx).dir_hash_to_index@ == old(ctx).dir_hash_to_index@,
        final(ctx).loaded_filepaths == old(ctx).loaded_filepaths,
{
    relink_group(&mut ctx.files, &ctx.arc, ds, dc, gs, gc, region, sdi);
}

/// For every directory of the archive linked without a symlink to a group
/// that itself links to another, cuts the link of the directory's file
/// infos to that group (see `reshare_file_group`) and then the link of the
/// directory's own group.
pub fn reshare_file_groups(ctx: &mut AdditionContext, groups: &mut Vec<GroupRec>, region: usize, sdi: u32)
    requires
        tables_wf(old(ctx).files@),
        info_indices_wf(old(ctx).files@),
        groups_wf(old(ctx).dirs@, old(groups)@, old(ctx).files@.fi.len() as int),
    ensures
        (final(ctx).files@, final(groups)@) == after_groups(old(ctx).files@, old(ctx).arc@, old(ctx).dirs@, old(groups)@,
            old(ctx).dirs@.len() as int, region as int, sdi as int),
        final(ctx).arc@ == old(ctx).arc@,
        final(ctx).dirs@ == old(ctx).dirs@,
        final(ctx).dir_hash_to_index@ == old(ctx).dir_hash_to_index@,
        final(ctx).loaded_filepaths == old(ctx).loaded_filepaths,
{
    relink_groups(&mut ctx.files, &ctx.arc, &ctx.dirs, groups, region, sdi);
}

proof fn lemma_links_only_removed(gs: Seq<GroupRec>, gi: int, d: DirRec)
    requires
        0 <= gi < gs.len(),
        d.redirected ==> {
            &&& (d.group_index as int) < gs.len()
            &&& gs[d.group_index as int].directory_index != 0xFF_FFFF && !d.is_symlink ==> (gs[d.group_index as int].directory_index as int) < gs.len()
        },
    ensures
        ({
            let cut = gs.update(gi, GroupRec { directory_index: 0xFF_FFFF, file_start: gs[gi].file_start, file_count: gs[gi].file_count });
            linked_group(d, gs) is None ==> linked_group(d, cut) is None
        }),
{
    let cut = gs.update(gi, GroupRec { directory_index: 0xFF_FFFF, file_start: gs[gi].file_start, file_count: gs[gi].file_count });
    if d.redirected && !d.is_symlink {
        let gd = d.group_index as int;
        if cut[gd].directory_index != 0xFF_FFFF {
            assert(gd != gi);
            assert(cut[gd] == gs[gd]);
            let di = gs[gd].directory_index as int;
            if cut[di].directory_index != 0xFF_FFFF {
                assert(di != gi);
                assert(cut[di] == gs[di]);
            }
        }
    }
}

/// After every directory's link to a shared group is cut, no directory of
/// the archive links to a group that links further.
pub proof fn law_no_group_links_remain(v: TablesView, a: TablesView, dirs: Seq<DirRec>, groups: Seq<GroupRec>, region: int, sdi: int)
    requires
        groups_wf(dirs, groups, v.fi.len() as int),
    ensures
        forall|d: int| 0 <= d < dirs.len() ==> #[trigger] linked_group(dirs[d], after_groups(v, a, dirs, groups, dirs.len() as int, region, sdi).1) is None,
{
    lemma_groups_unlinked_upto(v, a, dirs, groups, dirs.len() as int, region, sdi);
}

proof fn lemma_groups_unlinked_upto(v: TablesView, a: TablesView, dirs: Seq<DirRec>, groups: Seq<GroupRec>, k: int, region: int, sdi: int)
    requires
        groups_wf(dirs, groups, v.fi.len() as int),
        0 <= k <= dirs.len(),
    ensures
        after_groups(v, a, dirs, groups, k, region, sdi).1.len() == groups.len(),
        groups_wf(dirs, after_groups(v, a, dirs, groups, k, region, sdi).1, v.fi.len() as int),
        forall|d: int| 0 <= d < k ==> #[trigger] linked_group(dirs[d], after_groups(v, a, dirs, groups, k, region, sdi).1) is None,
    decreases k,
{
    if k > 0 {
        lemma_groups_unlinked_upto(v, a, dirs, groups, k - 1, region, sdi);
        let (w, gs) = after_groups(v, a, dirs, groups, k - 1, region, sdi);
        let dir = dirs[k - 1];
        let next = after_groups(v, a, dirs, groups, k, region, sdi).1;
        assert(dir.file_info_start + dir.file_count <= v.fi.len());
        match linked_group(dir, gs) {
            Some(g) => {
                let gi = dir.group_index as int;
                assert(0 <= gi < gs.len());
                assert forall|d: int| 0 <= d < k implies #[trigger] linked_group(dirs[d], next) is None by {
                    if d < k - 1 {
                        assert(dirs[d].file_info_start + dirs[d].file_count <= v.fi.len());
                        lemma_links_only_removed(gs, gi, dirs[d]);
                    }
                }
                assert(groups_wf(dirs, next, v.fi.len() as int)) by {
                    assert forall|g2: int| 0 <= g2 < next.len() implies (#[trigger] next[g2]).file_start + next[g2].file_count <= v.fi.len() by {
                        assert(gs[g2].file_start + gs[g2].file_count <= v.fi.len());
                    }
                    assert forall|d: int| 0 <= d < dirs.len() implies {
                        &&& (#[trigger] dirs[d]).file_info_start + dirs[d].file_count <= v.fi.len()
                        &&& dirs[d].redirected ==> {
                            &&& (dirs[d].group_index as int) < next.len()
                            &&& next[dirs[d].group_index as int].directory_index != 0xFF_FFFF && !dirs[d].is_symlink ==>
                                    (next[dirs[d].group_index as int].directory_index as int) < next.len()
                        }
                    } by {
                        assert(dirs[d].file_info_start + dirs[d].file_count <= v.fi.len());
                    }
                }
            },
            None => {},
        }
    }
}

} // verus!
