//! The standalone-file queue: files that were unshared or added must be
//! loaded on their own, not as part of their directory.
use vstd::prelude::*;

use crate::hashing::{spec_hash40, Hash40};
use crate::path::chars_of;
use crate::replacement::extensions::{spec_standalone, FileInfoFlags, FileInfoFlagsExt};
use crate::resource::containers::{LoadInfo, LoadType, ResList};

verus! {

/// What a file info says of the file: the file path it names and its flags.
#[derive(Debug, Clone, Copy)]
pub struct FileInfoEntry {
    pub file_path_index: u32,
    pub flags: FileInfoFlags,
}

/// The directory index that a request for a single file carries.
pub const NO_DIRECTORY: u32 = 0xFF_FFFF;

/// The request that loads one file path on its own.
pub open spec fn standalone_request(p: u32) -> LoadInfo {
    LoadInfo { ty: LoadType::File, filepath_index: p, directory_index: NO_DIRECTORY, files_to_load: 0 }
}

/// Every directory's range of file infos lies within the file infos.
pub open spec fn ranges_in_bounds(dirs: Seq<(u32, u32)>, infos: Seq<FileInfoEntry>) -> bool {
    forall|d: int| 0 <= d < dirs.len() ==> (#[trigger] dirs[d]).0 + dirs[d].1 <= infos.len()
}

/// Every directory request of the list names an existing directory.
pub open spec fn dirs_known(l: Seq<LoadInfo>, dirs: Seq<(u32, u32)>) -> bool {
    forall|e: int| 0 <= e < l.len() && (#[trigger] l[e]).ty == LoadType::Directory ==> (l[e].directory_index as int) < dirs.len()
}

/// The file paths, in order, of the standalone files among the first `k`
/// file infos of directory `d`.
pub open spec fn dir_standalone(dirs: Seq<(u32, u32)>, infos: Seq<FileInfoEntry>, d: int, k: int) -> Seq<u32>
    decreases k,
{
    if k <= 0 {
        Seq::empty()
    } else {
        let prev = dir_standalone(dirs, infos, d, k - 1);
        let info = infos[dirs[d].0 + k - 1];
        if spec_standalone(info.flags.spec_bits()) {
            prev.push(info.file_path_index)
        } else {
            prev
        }
    }
}

/// The standalone file paths of the directories that the first `n` requests
/// of a list load, in the order of the requests.
pub open spec fn list_standalone(l: Seq<LoadInfo>, dirs: Seq<(u32, u32)>, infos: Seq<FileInfoEntry>, n: int) -> Seq<u32>
    decreases n,
{
    if n <= 0 {
        Seq::empty()
    } else {
        let prev = list_standalone(l, dirs, infos, n - 1);
        let e = l[n - 1];
        if e.ty == LoadType::Directory {
            prev + dir_standalone(dirs, infos, e.directory_index as int, dirs[e.directory_index as int].1 as int)
        } else {
            prev
        }
    }
}

/// The requests that go in front of a list: one per standalone file path,
/// each put at the front in turn, so the last found comes first.
pub open spec fn queued_front(paths: Seq<u32>) -> Seq<LoadInfo> {
    paths.reverse().map_values(|p: u32| standalone_request(p))
}

/// The list after its standalone files were queued in front of it.
pub open spec fn with_standalone(l: Seq<LoadInfo>, dirs: Seq<(u32, u32)>, infos: Seq<FileInfoEntry>) -> Seq<LoadInfo> {
    queued_front(list_standalone(l, dirs, infos, l.len() as int)) + l
}

fn collect_dir(dirs: &Vec<(u32, u32)>, infos: &Vec<FileInfoEntry>, d: usize, out: &mut Vec<u32>)
    requires
        ranges_in_bounds(dirs@, infos@),
        d < dirs@.len(),
    ensures
        final(out)@ == old(out)@ + dir_standalone(dirs@, infos@, d as int, dirs@[d as int].1 as int),
{
    let start = dirs[d].0 as usize;
    let count = dirs[d].1 as usize;
    let total = infos.len();
    proof {
        assert(dirs@[d as int].0 + dirs@[d as int].1 <= infos@.len());
    }
    let ghost before = out@;
    let mut k: usize = 0;
    while k < count
        invariant
            ranges_in_bounds(dirs@, infos@),
            d < dirs@.len(),
            start == dirs@[d as int].0,
            count == dirs@[d as int].1,
            total == infos@.len(),
            start + count <= total,
            k <= count,
            out@ == before + dir_standalone(dirs@, infos@, d as int, k as int),
        decreases count - k,
    {
        let info = infos[start + k];
        if info.flags.standalone_file() {
            out.push(info.file_path_index);
        }
        proof {
            assert(infos@[dirs@[d as int].0 + (k + 1) - 1] == info);
        }
        k = k + 1;
    }
}

fn collect_list(list: &ResList, dirs: &Vec<(u32, u32)>, infos: &Vec<FileInfoEntry>) -> (r: Vec<u32>)
    requires
        ranges_in_bounds(dirs@, infos@),
        dirs_known(list@, dirs@),
    ensures
        r@ == list_standalone(list@, dirs@, infos@, list@.len() as int),
{
    let mut out: Vec<u32> = Vec::new();
    let n = list.len();
    let mut e: usize = 0;
    while e < n
        invariant
            ranges_in_bounds(dirs@, infos@),
            dirs_known(list@, dirs@),
            n == list@.len(),
            e <= n,
            out@ == list_standalone(list@, dirs@, infos@, e as int),
        decreases n - e,
    {
        let entry = match list.get(e) {
            Some(x) => *x,
            None => {
                return out;
            },
        };
        match entry.ty {
            LoadType::Directory => {
                collect_dir(dirs, infos, entry.directory_index as usize, &mut out);
            },
            _ => {},
        }
        e = e + 1;
    }
    out
}

/// Before the loader walks its lists, queues every standalone file of every
/// directory about to be loaded as a request of its own, in front of the
/// list that loads the directory. The loader skips a file that is already
/// loaded, so the directory load then leaves it alone.
pub fn res_loop_common(lists: &mut Vec<ResList>, dirs: &Vec<(u32, u32)>, infos: &Vec<FileInfoEntry>)
    requires
        ranges_in_bounds(dirs@, infos@),
        forall|i: int| 0 <= i < old(lists)@.len() ==> dirs_known((#[trigger] old(lists)@[i])@, dirs@),
    ensures
        final(lists)@.len() == old(lists)@.len(),
        forall|i: int| 0 <= i < old(lists)@.len() ==>
            (#[trigger] final(lists)@[i])@ == with_standalone(old(lists)@[i]@, dirs@, infos@),
{
    let mut standalone: Vec<Vec<u32>> = Vec::new();
    let mut i: usize = 0;
    while i < lists.len()
        invariant
            ranges_in_bounds(dirs@, infos@),
            forall|j: int| 0 <= j < lists@.len() ==> dirs_known((#[trigger] lists@[j])@, dirs@),
            i <= lists@.len(),
            standalone@.len() == i,
            forall|j: int| 0 <= j < i ==> (#[trigger] standalone@[j])@
                == list_standalone(lists@[j]@, dirs@, infos@, lists@[j]@.len() as int),
        decreases lists@.len() - i,
    {
        let found = collect_list(&lists[i], dirs, infos);
        standalone.push(found);
        i = i + 1;
    }
    let ghost before = lists@;
    let mut idx: usize = 0;
    while idx < lists.len()
        invariant
            lists@.len() == before.len(),
            standalone@.len() == before.len(),
            idx <= before.len(),
            forall|j: int| 0 <= j < before.len() ==> (#[trigger] standalone@[j])@
                == list_standalone(before[j]@, dirs@, infos@, before[j]@.len() as int),
            forall|j: int| 0 <= j < idx ==> (#[trigger] lists@[j])@ == with_standalone(before[j]@, dirs@, infos@),
            forall|j: int| idx <= j < before.len() ==> (#[trigger] lists@[j])@ == before[j]@,
        decreases before.len() - idx,
    {
        let paths = &standalone[idx];
        let mut k: usize = 0;
        while k < paths.len()
            invariant
                lists@.len() == before.len(),
                idx < before.len(),
                paths@ == list_standalone(before[idx as int]@, dirs@, infos@, before[idx as int]@.len() as int),
                k <= paths@.len(),
                lists@[idx as int]@ == queued_front(paths@.subrange(0, k as int)) + before[idx as int]@,
                forall|j: int| 0 <= j < before.len() && j != idx ==> (#[trigger] lists@[j])@ == old_or_done(before, j, idx as int, dirs@, infos@),
            decreases paths@.len() - k,
        {
            let p = paths[k];
            let ghost prev = lists@[idx as int]@;
            lists[idx].insert(LoadInfo { ty: LoadType::File, filepath_index: p, directory_index: NO_DIRECTORY, files_to_load: 0 });
            proof {
                let s = paths@.subrange(0, k as int + 1);
                assert(s.reverse() =~= seq![p] + paths@.subrange(0, k as int).reverse());
                assert(queued_front(s) =~= seq![standalone_request(p)] + queued_front(paths@.subrange(0, k as int)));
            }
            k = k + 1;
        }
        proof {
            assert(paths@.subrange(0, paths@.len() as int) =~= paths@);
        }
        idx = idx + 1;
    }
}

/// A list before or after its turn: done lists hold their queue, the others
/// are as they were.
pub open spec fn old_or_done(before: Seq<ResList>, j: int, idx: int, dirs: Seq<(u32, u32)>, infos: Seq<FileInfoEntry>) -> Seq<LoadInfo> {
    if j < idx {
        with_standalone(before[j]@, dirs, infos)
    } else {
        before[j]@
    }
}

/// The size of the footer that a texture file keeps at its end.
pub const NUTEXB_FOOTER: usize = 0xb0;

/// The buffer after a texture shorter than its slot had its footer moved to
/// the end of the slot.
pub open spec fn footer_moved(b: Seq<u8>, size: int) -> Seq<u8> {
    b.subrange(0, b.len() - 0xb0) + b.subrange(size - 0xb0, size)
}

/// Moves the footer of a texture of `size` bytes, read into the front of
/// the buffer, to the end of the buffer, where the game looks for it.
pub fn fix_nutexb_footer(buffer: &mut Vec<u8>, size: usize)
    requires
        NUTEXB_FOOTER <= size,
        size + NUTEXB_FOOTER <= old(buffer)@.len(),
    ensures
        final(buffer)@ == footer_moved(old(buffer)@, size as int),
{
    let len = buffer.len();
    let dst = len - NUTEXB_FOOTER;
    let src = size - NUTEXB_FOOTER;
    let ghost before = buffer@;
    let mut k: usize = 0;
    while k < NUTEXB_FOOTER
        invariant
            len == before.len(),
            dst == len - NUTEXB_FOOTER,
            src == size - NUTEXB_FOOTER,
            src + NUTEXB_FOOTER <= dst,
            buffer@.len() == len,
            k <= NUTEXB_FOOTER,
            forall|j: int| 0 <= j < dst ==> #[trigger] buffer@[j] == before[j],
            forall|j: int| 0 <= j < k ==> #[trigger] buffer@[dst + j] == before[src + j],
            forall|j: int| dst + k <= j < len ==> #[trigger] buffer@[j] == before[j],
        decreases NUTEXB_FOOTER - k,
    {
        let v = buffer[src + k];
        buffer.set(dst + k, v);
        k = k + 1;
    }
    assert forall|j: int| dst <= j < len implies #[trigger] buffer@[j] == before[src + (j - dst)] by {
        assert(buffer@[dst + (j - dst)] == before[src + (j - dst)]);
    }
    assert(buffer@ =~= footer_moved(before, size as int));
}

/// What became of a replacement.
#[derive(Debug, Clone, Copy, PartialEq, Eq, Structural)]
pub enum ReplaceOutcome {
    /// The mod file was read into the buffer; it had this many bytes.
    Replaced(usize),
    /// A texture too short for its footer to be moved was read; the buffer
    /// is as the read left it.
    FooterLeft(usize),
    /// The mod file could not be read.
    LoadFailed,
}

/// Finishes the replacement of a file whose mod copy was read (`Some` of its
/// size) or not into the game's buffer: a texture shorter than its slot has
/// its footer moved to the end of the slot.
pub fn handle_file_replace(buffer: &mut Vec<u8>, loaded: Option<usize>, ext: Hash40) -> (r: ReplaceOutcome)
    ensures
        match loaded {
            None => r == ReplaceOutcome::LoadFailed && final(buffer)@ == old(buffer)@,
            Some(size) => {
                let moves = ext.0 == spec_hash40("nutexb"@) && size < old(buffer)@.len();
                let fits = NUTEXB_FOOTER <= size && size + NUTEXB_FOOTER <= old(buffer)@.len();
                &&& (!moves ==> r == ReplaceOutcome::Replaced(size) && final(buffer)@ == old(buffer)@)
                &&& (moves && fits ==> r == ReplaceOutcome::Replaced(size) && final(buffer)@ == footer_moved(old(buffer)@, size as int))
                &&& (moves && !fits ==> r == ReplaceOutcome::FooterLeft(size) && final(buffer)@ == old(buffer)@)
            },
        },
{
    match loaded {
        None => ReplaceOutcome::LoadFailed,
        Some(size) => {
            let nutexb = Hash40::from_str("nutexb");
            if ext.0 == nutexb.0 && size < buffer.len() {
                if NUTEXB_FOOTER <= size && size <= buffer.len() - NUTEXB_FOOTER {
                    fix_nutexb_footer(buffer, size);
                    ReplaceOutcome::Replaced(size)
                } else {
                    ReplaceOutcome::FooterLeft(size)
                }
            } else {
                ReplaceOutcome::Replaced(size)
            }
        },
    }
}

} // verus!
