//! Commands that read the loaded-file tables of the running game.
use vstd::prelude::*;

use crate::hashing::Hash40;
use crate::path::{chars_of, str_eq};
use crate::remote::{check_for_flag, is_first_arg, lookup_target, spec_parse_hash, spec_parse_index, LookupTarget};
use crate::remote::arc::{index_lookup, Lookup};
use crate::remote::get_flag_and_option;
use crate::replacement::unshare::{folder_slot, locale_slot_of};
use crate::resource::types::{broken_filepaths, spec_broken_filepaths, BrokenReason, FilesystemInfo, LoadState, LoadedData, LoadedDirectory, LoadedFilepath};
use crate::unsharing::{find_path_by_hash, first_path_from, is_localized, is_regional, tables_wf, FileTables, TablesView};

verus! {

/// The command asked for, with the arguments that follow it.
#[derive(Debug)]
pub enum Command {
    /// Print the usage text.
    Usage,
    /// `get_filepath_table_entry`: an entry of the file path table.
    GetFilepathTableEntry(Vec<String>),
    /// `get_loaded_data_table_entry`: an entry of the loaded data table.
    GetLoadedDataTableEntry(Vec<String>),
    /// `get_loaded_directory_table_entry`: an entry of the loaded directory table.
    GetLoadedDirectoryTableEntry(Vec<String>),
    /// `check_directory`: the load state of a directory's files.
    CheckDirectory(Vec<String>),
    /// `get_broken_filepaths`: the file paths whose data is missing.
    GetBrokenFilepaths(Vec<String>),
}

/// Whether the command word and the arguments after it make this command.
pub open spec fn selects(word: Seq<char>, rest: Seq<String>, c: Command) -> bool {
    match c {
        Command::Usage => word != "get_filepath_table_entry"@ && word != "get_loaded_data_table_entry"@ && word != "get_loaded_directory_table_entry"@ && word != "check_directory"@ && word != "get_broken_filepaths"@,
        Command::GetFilepathTableEntry(a) => word == "get_filepath_table_entry"@ && a@ == rest,
        Command::GetLoadedDataTableEntry(a) => word == "get_loaded_data_table_entry"@ && a@ == rest,
        Command::GetLoadedDirectoryTableEntry(a) => word == "get_loaded_directory_table_entry"@ && a@ == rest,
        Command::CheckDirectory(a) => word == "check_directory"@ && a@ == rest,
        Command::GetBrokenFilepaths(a) => word == "get_broken_filepaths"@ && a@ == rest,
    }
}

/// Picks the command that the first argument names; an unknown word, or no
/// argument at all, asks for the usage text.
pub fn handle_command(args: Vec<String>) -> (r: Command)
    ensures
        args@.len() == 0 ==> r is Usage,
        args@.len() > 0 ==> selects(args@[0]@, args@.drop_first(), r),
{
    let mut args = args;
    if args.len() == 0 {
        return Command::Usage;
    }
    let ghost before = args@;
    let command = args.remove(0);
    proof {
        assert(args@ =~= before.drop_first());
    }
    let c = command.as_str();
    if str_eq(c, &chars_of("get_filepath_table_entry")) {
        Command::GetFilepathTableEntry(args)
    } else if str_eq(c, &chars_of("get_loaded_data_table_entry")) {
        Command::GetLoadedDataTableEntry(args)
    } else if str_eq(c, &chars_of("get_loaded_directory_table_entry")) {
        Command::GetLoadedDirectoryTableEntry(args)
    } else if str_eq(c, &chars_of("check_directory")) {
        Command::CheckDirectory(args)
    } else if str_eq(c, &chars_of("get_broken_filepaths")) {
        Command::GetBrokenFilepaths(args)
    } else {
        Command::Usage
    }
}

/// What the archive says of a directory: its path hash, how many files it
/// has, and where its children sit in the child-directory list.
#[derive(Debug, Clone, Copy, PartialEq, Eq, Structural)]
pub struct DirInfoEntry {
    pub path_hash: u64,
    pub file_count: u32,
    pub child_dir_start: u32,
    pub child_dir_count: u32,
}

/// The archive tables that a directory check reads: the directories, the
/// directory index of each child-directory slot, the hash of each file path,
/// and the (hash, directory index) pairs that find a directory by hash.
pub struct ArcDirs {
    pub dir_infos: Vec<DirInfoEntry>,
    pub child_dir_index: Vec<u32>,
    pub path_hashes: Vec<u64>,
    pub dir_hash_to_index: Vec<(u64, u32)>,
}

/// Which field of a file's loaded-data entry a check shows.
#[derive(Debug, Clone, Copy, PartialEq, Eq, Structural)]
pub enum CheckInfoType {
    State,
    RefCount,
    Pointer,
}

/// What a check shows for one file.
#[derive(Debug, Clone, Copy, PartialEq, Eq, Structural)]
pub enum FileStatus {
    State(LoadState),
    RefCount(u32),
    Pointer(usize),
    /// The loaded-data index of the path (asked for with `-d`).
    DataIndex(u32),
    /// The path has no loaded-data entry although it should.
    Invalid,
}

/// One line of a directory check; `level` is how deep the directory sits
/// below the one asked for.
#[derive(Debug, Clone, Copy, PartialEq, Eq, Structural)]
pub enum CheckLine {
    /// The directory asked for, by its path hash.
    Named(u64),
    /// The directory asked for, by index, where the archive does not know it.
    Numbered(u32),
    /// How many file paths the loaded directory holds, and how many files
    /// the archive gives it where it knows the directory.
    Files { level: usize, in_vector: usize, file_count: Option<u32> },
    /// A file of the directory.
    File { level: usize, hash: u64, status: FileStatus },
    /// A child directory and its load state; its own lines follow.
    Child { level: usize, hash: u64, state: LoadState },
}

/// Every index that a check can follow lies in its table.
pub open spec fn tables_consistent(fs: FilesystemInfo, arc: ArcDirs) -> bool {
    &&& arc.dir_infos@.len() <= fs.loaded_directories@.len()
    &&& forall|d: int| 0 <= d < fs.loaded_directories@.len() ==> forall|k: int| 0 <= k < (#[trigger] fs.loaded_directories@[d]).child_path_indices@.len() ==>
            (fs.loaded_directories@[d].child_path_indices@[k] as int) < fs.loaded_filepaths@.len()
            && (fs.loaded_directories@[d].child_path_indices@[k] as int) < arc.path_hashes@.len()
    &&& forall|d: int| 0 <= d < arc.dir_infos@.len() ==>
            (#[trigger] arc.dir_infos@[d]).child_dir_start + arc.dir_infos@[d].child_dir_count <= arc.child_dir_index@.len()
    &&& forall|c: int| 0 <= c < arc.child_dir_index@.len() ==> (#[trigger] arc.child_dir_index@[c] as int) < arc.dir_infos@.len()
}

/// The loaded-data entry a check shows for a file path, if any.
pub open spec fn shown_entry(t1: Seq<LoadedFilepath>, t2: Seq<LoadedData>, p: int, data_idx: bool) -> Option<LoadedData> {
    if data_idx || t1[p].is_loaded == 0 {
        None
    } else if (t1[p].loaded_data_index as int) < t2.len() {
        Some(t2[t1[p].loaded_data_index as int])
    } else {
        None
    }
}

/// What a check shows for a file path, given the entry it found.
pub open spec fn status_of(e: Option<LoadedData>, fp: LoadedFilepath, data_idx: bool, info: CheckInfoType) -> FileStatus {
    match e {
        Some(entry) => match info {
            CheckInfoType::State => FileStatus::State(entry.state),
            CheckInfoType::RefCount => FileStatus::RefCount(entry.ref_count),
            CheckInfoType::Pointer => FileStatus::Pointer(entry.data),
        },
        None => if data_idx {
            FileStatus::DataIndex(fp.loaded_data_index)
        } else {
            FileStatus::Invalid
        },
    }
}

/// The file lines for the first `k` paths of a directory; with `unloaded`,
/// files whose data is loaded are left out.
pub open spec fn file_lines(fs: FilesystemInfo, arc: ArcDirs, paths: Seq<u32>, level: int, data_idx: bool, unloaded: bool, info: CheckInfoType, k: int) -> Seq<CheckLine>
    decreases k,
{
    if k <= 0 {
        Seq::empty()
    } else {
        let prev = file_lines(fs, arc, paths, level, data_idx, unloaded, info, k - 1);
        let p = paths[k - 1] as int;
        let e = shown_entry(fs.loaded_filepaths@, fs.loaded_datas@, p, data_idx);
        if e is Some && e->0.state == LoadState::Loaded && unloaded {
            prev
        } else {
            prev.push(CheckLine::File {
                level: level as usize,
                hash: arc.path_hashes@[p],
                status: status_of(e, fs.loaded_filepaths@[p], data_idx, info),
            })
        }
    }
}

/// The lines of a directory below its label: its file count, its files, then
/// each child directory followed by its own lines one level deeper. `fuel`
/// bounds the depth: a tree deeper than there are directories has a cycle.
pub open spec fn dir_lines(fs: FilesystemInfo, arc: ArcDirs, index: int, level: int, data_idx: bool, unloaded: bool, info: CheckInfoType, fuel: nat) -> Seq<CheckLine>
    decreases fuel, 0x1_0000_0001int,
{
    let loaded = fs.loaded_directories@[index];
    let paths = loaded.child_path_indices@;
    let count_line = CheckLine::Files {
        level: level as usize,
        in_vector: paths.len() as usize,
        file_count: if index < arc.dir_infos@.len() { Some(arc.dir_infos@[index].file_count) } else { None },
    };
    let files = file_lines(fs, arc, paths, level, data_idx, unloaded, info, paths.len() as int);
    if index < arc.dir_infos@.len() {
        seq![count_line] + files + child_lines(fs, arc, index, level, data_idx, unloaded, info, fuel, arc.dir_infos@[index].child_dir_count as int)
    } else {
        seq![count_line] + files
    }
}

/// The lines of the first `k` children of a directory.
pub open spec fn child_lines(fs: FilesystemInfo, arc: ArcDirs, index: int, level: int, data_idx: bool, unloaded: bool, info: CheckInfoType, fuel: nat, k: int) -> Seq<CheckLine>
    decreases fuel, k,
{
    if k <= 0 || fuel == 0 || k > 0x1_0000_0000int {
        Seq::empty()
    } else {
        let prev = child_lines(fs, arc, index, level, data_idx, unloaded, info, fuel, k - 1);
        let c = arc.child_dir_index@[arc.dir_infos@[index].child_dir_start + k - 1] as int;
        prev.push(CheckLine::Child { level: level as usize, hash: arc.dir_infos@[c].path_hash, state: fs.loaded_directories@[c].state })
            + dir_lines(fs, arc, c, level + 1, data_idx, unloaded, info, (fuel - 1) as nat)
    }
}

/// The label of the directory asked for.
pub open spec fn label_of(arc: ArcDirs, index: int) -> CheckLine {
    if index < arc.dir_infos@.len() {
        CheckLine::Named(arc.dir_infos@[index].path_hash)
    } else {
        CheckLine::Numbered(index as u32)
    }
}

fn push_file_lines(fs: &FilesystemInfo, arc: &ArcDirs, index: usize, level: usize, data_idx: bool, unloaded: bool, info: CheckInfoType, out: &mut Vec<CheckLine>)
    requires
        tables_consistent(*fs, *arc),
        index < fs.loaded_directories@.len(),
    ensures
        final(out)@ == old(out)@ + file_lines(*fs, *arc, fs.loaded_directories@[index as int].child_path_indices@, level as int, data_idx, unloaded, info,
            fs.loaded_directories@[index as int].child_path_indices@.len() as int),
{
    let dir = &fs.loaded_directories[index];
    let n = dir.child_path_indices.len();
    let ghost paths = dir.child_path_indices@;
    let ghost before = out@;
    let mut k: usize = 0;
    while k < n
        invariant
            tables_consistent(*fs, *arc),
            index < fs.loaded_directories@.len(),
            dir == &fs.loaded_directories@[index as int],
            paths == dir.child_path_indices@,
            n == paths.len(),
            k <= n,
            out@ == before + file_lines(*fs, *arc, paths, level as int, data_idx, unloaded, info, k as int),
        decreases n - k,
    {
        let p = match dir.child_path_indices.get(k) {
            Some(x) => *x as usize,
            None => {
                return;
            },
        };
        proof {
            assert(fs.loaded_directories@[index as int].child_path_indices@.len() > k);
        }
        let fp = fs.loaded_filepaths[p];
        let entry: Option<LoadedData> = if data_idx || fp.is_loaded == 0 {
            None
        } else if (fp.loaded_data_index as usize) < fs.loaded_datas.len() {
            Some(fs.loaded_datas[fp.loaded_data_index as usize])
        } else {
            None
        };
        let skip = match entry {
            Some(e) => e.state == LoadState::Loaded && unloaded,
            None => false,
        };
        if !skip {
            let status = match entry {
                Some(e) => match info {
                    CheckInfoType::State => FileStatus::State(e.state),
                    CheckInfoType::RefCount => FileStatus::RefCount(e.ref_count),
                    CheckInfoType::Pointer => FileStatus::Pointer(e.data),
                },
                None => if data_idx {
                    FileStatus::DataIndex(fp.loaded_data_index)
                } else {
                    FileStatus::Invalid
                },
            };
            out.push(CheckLine::File { level, hash: arc.path_hashes[p], status });
        }
        k = k + 1;
    }
}

#[verifier::spinoff_prover]
#[verifier::rlimit(30)]
fn push_dir_lines(fs: &FilesystemInfo, arc: &ArcDirs, index: usize, level: usize, data_idx: bool, unloaded: bool, info: CheckInfoType, fuel: usize, out: &mut Vec<CheckLine>)
    requires
        tables_consistent(*fs, *arc),
        index < fs.loaded_directories@.len(),
        level + fuel <= usize::MAX,
    ensures
        final(out)@ == old(out)@ + dir_lines(*fs, *arc, index as int, level as int, data_idx, unloaded, info, fuel as nat),
    decreases fuel, 1int,
{
    let ghost before = out@;
    let in_vector = fs.loaded_directories[index].child_path_indices.len();
    let known = index < arc.dir_infos.len();
    let file_count = if known { Some(arc.dir_infos[index].file_count) } else { None };
    let line = CheckLine::Files { level, in_vector, file_count };
    out.push(line);
    let ghost after_count = out@;
    push_file_lines(fs, arc, index, level, data_idx, unloaded, info, out);
    let ghost files = file_lines(*fs, *arc, fs.loaded_directories@[index as int].child_path_indices@, level as int, data_idx, unloaded, info,
        fs.loaded_directories@[index as int].child_path_indices@.len() as int);
    assert(out@ == before.push(line) + files);
    if known {
        let ghost mid = out@;
        push_child_lines(fs, arc, index, level, data_idx, unloaded, info, fuel, out);
        let ghost children = child_lines(*fs, *arc, index as int, level as int, data_idx, unloaded, info, fuel as nat,
            arc.dir_infos@[index as int].child_dir_count as int);
        assert(dir_lines(*fs, *arc, index as int, level as int, data_idx, unloaded, info, fuel as nat) == seq![line] + files + children);
        assert(out@ =~= before + (seq![line] + files + children));
    } else {
        assert(dir_lines(*fs, *arc, index as int, level as int, data_idx, unloaded, info, fuel as nat) == seq![line] + files);
        assert(out@ =~= before + (seq![line] + files));
    }
}

fn push_child_lines(fs: &FilesystemInfo, arc: &ArcDirs, index: usize, level: usize, data_idx: bool, unloaded: bool, info: CheckInfoType, fuel: usize, out: &mut Vec<CheckLine>)
    requires
        tables_consistent(*fs, *arc),
        index < arc.dir_infos@.len(),
        level + fuel <= usize::MAX,
    ensures
        final(out)@ == old(out)@ + child_lines(*fs, *arc, index as int, level as int, data_idx, unloaded, info, fuel as nat,
            arc.dir_infos@[index as int].child_dir_count as int),
    decreases fuel, 0int,
{
    let start = arc.dir_infos[index].child_dir_start as usize;
    let count = arc.dir_infos[index].child_dir_count as usize;
    let total = arc.child_dir_index.len();
    proof {
        assert(arc.dir_infos@[index as int].child_dir_start + arc.dir_infos@[index as int].child_dir_count <= arc.child_dir_index@.len());
    }
    let ghost mid = out@;
    if fuel == 0 {
        assert(child_lines(*fs, *arc, index as int, level as int, data_idx, unloaded, info, fuel as nat, count as int) =~= Seq::empty());
        return;
    }
    let mut k: usize = 0;
    while k < count
        invariant
            tables_consistent(*fs, *arc),
            index < arc.dir_infos@.len(),
            start == arc.dir_infos@[index as int].child_dir_start,
            count == arc.dir_infos@[index as int].child_dir_count,
            total == arc.child_dir_index@.len(),
            start + count <= total,
            fuel > 0,
            level + fuel <= usize::MAX,
            k <= count,
            out@ == mid + child_lines(*fs, *arc, index as int, level as int, data_idx, unloaded, info, fuel as nat, k as int),
        decreases count - k,
    {
        let c = arc.child_dir_index[start + k] as usize;
        proof {
            assert((arc.child_dir_index@[start + k] as int) < arc.dir_infos@.len());
        }
        out.push(CheckLine::Child { level, hash: arc.dir_infos[c].path_hash, state: fs.loaded_directories[c].state });
        push_dir_lines(fs, arc, c, level + 1, data_idx, unloaded, info, fuel - 1, out);
        proof {
            assert(out@ =~= mid + child_lines(*fs, *arc, index as int, level as int, data_idx, unloaded, info, fuel as nat, k as int + 1));
        }
        k = k + 1;
    }
}

/// Checks a loaded directory: its label, its file count, each of its files
/// with the field asked for (or its data index with `data_idx`), leaving out
/// loaded files with `unloaded`, then each child directory, recursively.
pub fn check_directory(fs: &FilesystemInfo, arc: &ArcDirs, index: u32, data_idx: bool, unloaded: bool, info: CheckInfoType) -> (r: Vec<CheckLine>)
    requires
        tables_consistent(*fs, *arc),
        (index as int) < fs.loaded_directories@.len(),
    ensures
        r@ == seq![label_of(*arc, index as int)]
            + dir_lines(*fs, *arc, index as int, 0, data_idx, unloaded, info, arc.dir_infos@.len() as nat),
{
    let mut out: Vec<CheckLine> = Vec::new();
    let i = index as usize;
    if i < arc.dir_infos.len() {
        out.push(CheckLine::Named(arc.dir_infos[i].path_hash));
    } else {
        out.push(CheckLine::Numbered(index));
    }
    push_dir_lines(fs, arc, i, 0, data_idx, unloaded, info, arc.dir_infos.len(), &mut out);
    out
}

/// The argument list holds the flag.
pub open spec fn has_arg(args: Seq<String>, flag: Seq<char>) -> bool {
    exists|i: int| 0 <= i < args.len() && #[trigger] args[i]@ == flag
}

/// The first place of a flag that has an argument after it.
pub open spec fn flag_with_option(args: Seq<String>, flag: Seq<char>) -> Option<int> {
    if exists|i: int| #[trigger] is_first_arg(args, flag, i) && i + 1 < args.len() {
        Some(choose|i: int| #[trigger] is_first_arg(args, flag, i) && i + 1 < args.len())
    } else {
        None
    }
}

/// What `-i <index>` or else `-h <hashable>` asks for, and the arguments
/// left once the flag and its value are taken out.
pub open spec fn spec_lookup_target(args: Seq<String>) -> (LookupTarget, Seq<String>) {
    match flag_with_option(args, "-i"@) {
        Some(i) => (match spec_parse_index(args[i + 1]@) {
            Some(v) => LookupTarget::Index(v),
            None => LookupTarget::Usage,
        }, args.remove(i).remove(i)),
        None => match flag_with_option(args, "-h"@) {
            Some(i) => (LookupTarget::Hash(Hash40(spec_parse_hash(args[i + 1]@))), args.remove(i).remove(i)),
            None => (LookupTarget::Usage, args),
        },
    }
}

/// The directory index that the first pair with this hash gives.
pub open spec fn spec_find_dir(pairs: Seq<(u64, u32)>, hash: u64) -> Option<u32>
    decreases pairs.len(),
{
    if pairs.len() == 0 {
        None
    } else if pairs[0].0 == hash {
        Some(pairs[0].1)
    } else {
        spec_find_dir(pairs.drop_first(), hash)
    }
}

/// The directory index of the first pair with this hash.
pub fn find_in_pairs(pairs: &Vec<(u64, u32)>, hash: u64) -> (r: Option<u32>)
    ensures
        r == spec_find_dir(pairs@, hash),
{
    let mut i: usize = 0;
    assert(pairs@.subrange(0, pairs@.len() as int) =~= pairs@);
    while i < pairs.len()
        invariant
            i <= pairs@.len(),
            spec_find_dir(pairs@, hash) == spec_find_dir(pairs@.subrange(i as int, pairs@.len() as int), hash),
        decreases pairs@.len() - i,
    {
        let ghost rest = pairs@.subrange(i as int, pairs@.len() as int);
        assert(rest.drop_first() =~= pairs@.subrange(i + 1, pairs@.len() as int));
        assert(rest[0] == pairs@[i as int]);
        if pairs[i].0 == hash {
            assert(spec_find_dir(rest, hash) == Some(rest[0].1));
            return Some(pairs[i].1);
        }
        i = i + 1;
    }
    None
}

/// Finds a directory by path hash, by the first matching pair.
pub fn find_dir_by_hash(arc: &ArcDirs, hash: Hash40) -> (r: Option<u32>)
    ensures
        r == spec_find_dir(arc.dir_hash_to_index@, hash.0),
{
    find_in_pairs(&arc.dir_hash_to_index, hash.0)
}

/// The field that the `--ref-count` and `--pointer` flags choose.
pub open spec fn info_type_of(args: Seq<String>) -> CheckInfoType {
    if has_arg(args, "--ref-count"@) {
        CheckInfoType::RefCount
    } else if has_arg(args, "--pointer"@) {
        CheckInfoType::Pointer
    } else {
        CheckInfoType::State
    }
}

/// The answer to a `check_directory` command.
pub enum CheckOutput {
    /// The arguments named no directory: the usage text.
    Usage,
    /// No directory has the hash.
    Missing,
    /// The index is past the loaded-directory table.
    OutOfBounds,
    /// The lines of the check, to be shown in colour with `pretty`.
    Lines { pretty: bool, lines: Vec<CheckLine> },
}

/// The answer to a check of directory `index` with the given flags.
pub open spec fn answers_check(fs: FilesystemInfo, arc: ArcDirs, index: u32, rest: Seq<String>, r: CheckOutput) -> bool {
    if (index as int) < fs.loaded_directories@.len() {
        r matches CheckOutput::Lines { pretty, lines }
            && pretty == has_arg(rest, "-p"@)
            && lines@ == seq![label_of(arc, index as int)]
                + dir_lines(fs, arc, index as int, 0, has_arg(rest, "-d"@), has_arg(rest, "-u"@), info_type_of(rest), arc.dir_infos@.len() as nat)
    } else {
        r is OutOfBounds
    }
}

proof fn lemma_flag_removed_keeps_others(args: Seq<String>, flag: Seq<char>, other: Seq<char>, i: int)
    requires
        is_first_arg(args, flag, i),
        flag != other,
    ensures
        has_arg(args.remove(i), other) == has_arg(args, other),
{
    let r = args.remove(i);
    if has_arg(args, other) {
        let j = choose|j: int| 0 <= j < args.len() && #[trigger] args[j]@ == other;
        if j < i {
            assert(r[j]@ == other);
        } else {
            assert(j != i);
            assert(r[j - 1]@ == other);
        }
    }
    if has_arg(r, other) {
        let j = choose|j: int| 0 <= j < r.len() && #[trigger] r[j]@ == other;
        if j < i {
            assert(args[j]@ == other);
        } else {
            assert(args[j + 1]@ == other);
        }
    }
}

pub(crate) fn take_flag(flag: &str, args: &mut Vec<String>) -> (r: bool)
    ensures
        r == has_arg(old(args)@, flag@),
        forall|other: Seq<char>| other != flag@ ==> has_arg(final(args)@, other) == #[trigger] has_arg(old(args)@, other),
{
    let r = check_for_flag(flag, args);
    proof {
        if r {
            let i = choose|i: int| is_first_arg(old(args)@, flag@, i);
            assert forall|other: Seq<char>| other != flag@ implies has_arg(final(args)@, other) == #[trigger] has_arg(old(args)@, other) by {
                lemma_flag_removed_keeps_others(old(args)@, flag@, other, i);
            }
            assert(old(args)@[i]@ == flag@);
        } else if has_arg(old(args)@, flag@) {
            let j = choose|j: int| 0 <= j < old(args)@.len() && #[trigger] old(args)@[j]@ == flag@;
            lemma_first_arg_exists(old(args)@, flag@, j);
        }
    }
    r
}

proof fn lemma_first_arg_exists(args: Seq<String>, flag: Seq<char>, j: int)
    requires
        0 <= j < args.len(),
        args[j]@ == flag,
    ensures
        exists|i: int| is_first_arg(args, flag, i),
    decreases j,
{
    if exists|k: int| 0 <= k < j && #[trigger] args[k]@ == flag {
        let k = choose|k: int| 0 <= k < j && #[trigger] args[k]@ == flag;
        lemma_first_arg_exists(args, flag, k);
    } else {
        assert(is_first_arg(args, flag, j));
    }
}

/// Answers `check_directory [-i <index> | -h <hashable>] [-d] [-p] [-u]
/// [--ref-count | --pointer]`.
pub fn handle_check_directory(fs: &FilesystemInfo, arc: &ArcDirs, args: Vec<String>) -> (r: CheckOutput)
    requires
        tables_consistent(*fs, *arc),
    ensures
        ({
            let (target, rest) = spec_lookup_target(args@);
            match target {
                LookupTarget::Usage => r is Usage,
                LookupTarget::Index(index) => answers_check(*fs, *arc, index, rest, r),
                LookupTarget::Hash(h) => match spec_find_dir(arc.dir_hash_to_index@, h.0) {
                    None => r is Missing,
                    Some(index) => answers_check(*fs, *arc, index, rest, r),
                },
            }
        }),
{
    let mut args = args;
    let ghost given = args@;
    let target = lookup_target(&mut args);
    proof {
        let fi = flag_with_option(given, "-i"@);
        let fh = flag_with_option(given, "-h"@);
        if fi is Some {
            assert(is_first_arg(given, "-i"@, fi->0) && fi->0 + 1 < given.len());
        } else if fh is Some {
            assert(is_first_arg(given, "-h"@, fh->0) && fh->0 + 1 < given.len());
        }
        assert(target == spec_lookup_target(given).0);
        assert(args@ == spec_lookup_target(given).1);
    }
    let index = match target {
        LookupTarget::Index(i) => i,
        LookupTarget::Hash(h) => match find_dir_by_hash(arc, h) {
            Some(i) => i,
            None => {
                return CheckOutput::Missing;
            },
        },
        LookupTarget::Usage => {
            return CheckOutput::Usage;
        },
    };
    if index as usize >= fs.loaded_directories.len() {
        return CheckOutput::OutOfBounds;
    }
    let ghost rest = args@;
    proof {
        reveal_strlit("-d");
        reveal_strlit("-p");
        reveal_strlit("-u");
        reveal_strlit("--ref-count");
        reveal_strlit("--pointer");
    }
    assert("-d"@.len() == 2 && "-p"@.len() == 2 && "-u"@.len() == 2);
    assert("--ref-count"@.len() == 11 && "--pointer"@.len() == 9);
    assert("-d"@[1] == 'd' && "-p"@[1] == 'p' && "-u"@[1] == 'u');
    assert("-d"@ != "-p"@ && "-d"@ != "-u"@ && "-p"@ != "-u"@);
    let data_idx = take_flag("-d", &mut args);
    let pretty = take_flag("-p", &mut args);
    let unloaded = take_flag("-u", &mut args);
    let ghost before_info = args@;
    let info = if take_flag("--ref-count", &mut args) {
        CheckInfoType::RefCount
    } else if take_flag("--pointer", &mut args) {
        CheckInfoType::Pointer
    } else {
        CheckInfoType::State
    };
    assert(data_idx == has_arg(rest, "-d"@));
    assert(pretty == has_arg(rest, "-p"@));
    assert(unloaded == has_arg(rest, "-u"@));
    assert(has_arg(before_info, "--ref-count"@) == has_arg(rest, "--ref-count"@));
    assert(has_arg(before_info, "--pointer"@) == has_arg(rest, "--pointer"@));
    assert(info == info_type_of(rest));
    let lines = check_directory(fs, arc, index, data_idx, unloaded, info);
    CheckOutput::Lines { pretty, lines }
}

fn read_lookup_target(args: Vec<String>) -> (r: (LookupTarget, Vec<String>))
    ensures
        r.0 == spec_lookup_target(args@).0,
        r.1@ == spec_lookup_target(args@).1,
{
    let mut args = args;
    let ghost given = args@;
    let target = lookup_target(&mut args);
    proof {
        let fi = flag_with_option(given, "-i"@);
        let fh = flag_with_option(given, "-h"@);
        if fi is Some {
            assert(is_first_arg(given, "-i"@, fi->0) && fi->0 + 1 < given.len());
        } else if fh is Some {
            assert(is_first_arg(given, "-h"@, fh->0) && fh->0 + 1 < given.len());
        }
    }
    (target, args)
}

/// The entry at index `i` of a table, if there is one.
pub open spec fn entry_at<T>(s: Seq<T>, i: int) -> Lookup<T> {
    if 0 <= i < s.len() {
        Lookup::Found(s[i])
    } else {
        Lookup::OutOfBounds
    }
}

/// Answers `get_filepath_table_entry [-i <index> | -h <hashable>]`: the
/// loaded file path entry of a path, found by hash in the archive `arc`.
pub fn handle_get_filepath_table_entry(fs: &FilesystemInfo, arc: &FileTables, args: Vec<String>) -> (r: Lookup<LoadedFilepath>)
    ensures
        r == match spec_lookup_target(args@).0 {
            LookupTarget::Usage => Lookup::Usage,
            LookupTarget::Index(i) => index_lookup(fs.loaded_filepaths@, i),
            LookupTarget::Hash(h) => match first_path_from(arc@.fp, h.0, 0) {
                Some(p) => entry_at(fs.loaded_filepaths@, p),
                None => Lookup::Missing,
            },
        },
{
    let (target, _) = read_lookup_target(args);
    let i = match target {
        LookupTarget::Usage => {
            return Lookup::Usage;
        },
        LookupTarget::Index(i) => i as usize,
        LookupTarget::Hash(h) => match find_path_by_hash(arc, h.0) {
            Some(p) => p,
            None => {
                return Lookup::Missing;
            },
        },
    };
    if i < fs.loaded_filepaths.len() {
        Lookup::Found(fs.loaded_filepaths[i])
    } else {
        Lookup::OutOfBounds
    }
}

/// The answer to `get_loaded_data_table_entry`.
#[derive(Debug, Clone, Copy)]
pub enum LoadedDataAnswer {
    Usage,
    OutOfBounds,
    Missing,
    /// The path's info-index entry is past the loaded-data table.
    PathOutOfBounds,
    /// The entry.
    Found(LoadedData),
    /// With `-d`, where the data is loaded: its address and its
    /// decompressed size, for the bytes to be shown.
    Bytes { address: usize, len: u32 },
}

/// Every regional and every localized file info has its entry for the
/// region.
pub open spec fn folder_slots_valid(v: TablesView, region: int) -> bool {
    forall|f: int| 0 <= f < v.fi.len() ==> 0 <= #[trigger] folder_slot(v.fi[f], region) < v.itd.len()
}

/// The decompressed size of the data of info-index entry `ii` in a region.
pub open spec fn decomp_size_of(v: TablesView, ii: int, region: int) -> u32 {
    let f = v.fi[v.ii[ii].file_info_index as int];
    v.datas[v.itd[folder_slot(f, region)].file_data_index as int].decomp_size
}

/// Answers `get_loaded_data_table_entry [-i <index> | -h <hashable>] [-d]`:
/// the loaded-data entry of an info-index entry; by hash the one the path
/// names, or with `-d`, where its data is loaded, the bytes to show.
pub fn handle_get_loaded_data_table_entry(fs: &FilesystemInfo, arc: &FileTables, region: usize, args: Vec<String>) -> (r: LoadedDataAnswer)
    requires
        tables_wf(arc@),
        folder_slots_valid(arc@, region as int),
    ensures
        ({
            let (target, rest) = spec_lookup_target(args@);
            match target {
                LookupTarget::Usage => r == LoadedDataAnswer::Usage,
                LookupTarget::Index(i) => r == if (i as int) < fs.loaded_datas@.len() {
                    LoadedDataAnswer::Found(fs.loaded_datas@[i as int])
                } else {
                    LoadedDataAnswer::OutOfBounds
                },
                LookupTarget::Hash(h) => match first_path_from(arc@.fp, h.0, 0) {
                    None => r == LoadedDataAnswer::Missing,
                    Some(p) => {
                        let ii = arc@.fp[p].path_index as int;
                        if ii < fs.loaded_datas@.len() {
                            let e = fs.loaded_datas@[ii];
                            r == if has_arg(rest, "-d"@) && e.data != 0 {
                                LoadedDataAnswer::Bytes { address: e.data, len: decomp_size_of(arc@, ii, region as int) }
                            } else {
                                LoadedDataAnswer::Found(e)
                            }
                        } else {
                            r == LoadedDataAnswer::PathOutOfBounds
                        }
                    },
                },
            }
        }),
{
    let (target, mut rest) = read_lookup_target(args);
    match target {
        LookupTarget::Usage => LoadedDataAnswer::Usage,
        LookupTarget::Index(i) => if (i as usize) < fs.loaded_datas.len() {
            LoadedDataAnswer::Found(fs.loaded_datas[i as usize])
        } else {
            LoadedDataAnswer::OutOfBounds
        },
        LookupTarget::Hash(h) => match find_path_by_hash(arc, h.0) {
            None => LoadedDataAnswer::Missing,
            Some(p) => {
                let ii = arc.file_paths[p].path_index as usize;
                if ii >= fs.loaded_datas.len() {
                    return LoadedDataAnswer::PathOutOfBounds;
                }
                let e = fs.loaded_datas[ii];
                if take_flag("-d", &mut rest) && e.data != 0 {
                    proof {
                        assert((arc@.fp[p as int].path_index as int) < arc@.ii.len());
                        assert((arc@.ii[ii as int].file_info_index as int) < arc@.fi.len());
                    }
                    let f = arc.info_indices[ii].file_info_index as usize;
                    let info = arc.file_infos[f];
                    let itd_len = arc.info_to_datas.len();
                    proof {
                        assert(0 <= folder_slot(arc@.fi[f as int], region as int) < arc@.itd.len());
                    }
                    let slot = if info.flags.is_regional() {
                        info.info_to_data_index as usize + region
                    } else if info.flags.is_localized() {
                        info.info_to_data_index as usize + locale_slot_of(region)
                    } else {
                        info.info_to_data_index as usize
                    };
                    proof {
                        assert((arc@.itd[slot as int].file_data_index as int) < arc@.datas.len());
                    }
                    let len = arc.datas[arc.info_to_datas[slot].file_data_index as usize].decomp_size;
                    LoadedDataAnswer::Bytes { address: e.data, len }
                } else {
                    LoadedDataAnswer::Found(e)
                }
            },
        },
    }
}

/// The answer to `get_loaded_directory_table_entry`: the index of the
/// loaded directory entry found.
#[derive(Debug, Clone, Copy, PartialEq, Eq)]
pub enum LoadedDirectoryAnswer {
    Usage,
    OutOfBounds,
    Missing,
    /// The directory index the hash gives is past the loaded-directory table.
    HashOutOfBounds,
    Found(usize),
}

/// Answers `get_loaded_directory_table_entry [-i <index> | -h <hashable>]`:
/// which loaded directory entry to show; by hash, through the first pair of
/// the archive's directory hash table with that hash.
pub fn handle_get_loaded_directory_table_entry(fs: &FilesystemInfo, arc: &ArcDirs, args: Vec<String>) -> (r: LoadedDirectoryAnswer)
    ensures
        r == match spec_lookup_target(args@).0 {
            LookupTarget::Usage => LoadedDirectoryAnswer::Usage,
            LookupTarget::Index(i) => if (i as int) < fs.loaded_directories@.len() {
                LoadedDirectoryAnswer::Found(i as usize)
            } else {
                LoadedDirectoryAnswer::OutOfBounds
            },
            LookupTarget::Hash(h) => match spec_find_dir(arc.dir_hash_to_index@, h.0) {
                Some(d) => if (d as int) < fs.loaded_directories@.len() {
                    LoadedDirectoryAnswer::Found(d as usize)
                } else {
                    LoadedDirectoryAnswer::HashOutOfBounds
                },
                None => LoadedDirectoryAnswer::Missing,
            },
        },
{
    let (target, _) = read_lookup_target(args);
    match target {
        LookupTarget::Usage => LoadedDirectoryAnswer::Usage,
        LookupTarget::Index(i) => if (i as usize) < fs.loaded_directories.len() {
            LoadedDirectoryAnswer::Found(i as usize)
        } else {
            LoadedDirectoryAnswer::OutOfBounds
        },
        LookupTarget::Hash(h) => match find_in_pairs(&arc.dir_hash_to_index, h.0) {
            Some(d) => if (d as usize) < fs.loaded_directories.len() {
                LoadedDirectoryAnswer::Found(d as usize)
            } else {
                LoadedDirectoryAnswer::HashOutOfBounds
            },
            None => LoadedDirectoryAnswer::Missing,
        },
    }
}

proof fn lemma_broken_in_bounds(t1: Seq<LoadedFilepath>, t2: Seq<LoadedData>, n: int)
    requires
        n <= usize::MAX,
    ensures
        forall|i: int| 0 <= i < spec_broken_filepaths(t1, t2, n).len() ==> (#[trigger] spec_broken_filepaths(t1, t2, n)[i]).0 < n,
    decreases n,
{
    if n > 0 {
        lemma_broken_in_bounds(t1, t2, n - 1);
        let prev = spec_broken_filepaths(t1, t2, n - 1);
        let cur = spec_broken_filepaths(t1, t2, n);
        assert forall|i: int| 0 <= i < cur.len() implies (#[trigger] cur[i]).0 < n by {
            if i < prev.len() {
                assert(cur[i] == prev[i]);
            }
        }
    }
}

/// The broken loaded file paths by path hash, and the filter (`-f <text>`)
/// that their names are to be shown by.
pub struct BrokenReport {
    pub filter: Option<String>,
    pub broken: Vec<(u64, BrokenReason)>,
}

/// Answers `get_broken_filepaths [-f <filter>]`: each path marked loaded
/// whose data index is invalid or whose data is not loaded, in table order,
/// by its path hash.
pub fn handle_get_broken_filepaths(fs: &FilesystemInfo, arc: &ArcDirs, args: Vec<String>) -> (r: BrokenReport)
    requires
        fs.loaded_filepaths@.len() <= arc.path_hashes@.len(),
        forall|i: int| 0 <= i < fs.loaded_filepaths@.len() && (#[trigger] fs.loaded_filepaths@[i]).is_loaded != 0
            && fs.loaded_filepaths@[i].loaded_data_index != 0xFF_FFFF ==> (fs.loaded_filepaths@[i].loaded_data_index as int) < fs.loaded_datas@.len(),
    ensures
        ({
            let b = spec_broken_filepaths(fs.loaded_filepaths@, fs.loaded_datas@, fs.loaded_filepaths@.len() as int);
            &&& r.broken@.len() == b.len()
            &&& forall|i: int| 0 <= i < b.len() ==> #[trigger] r.broken@[i] == (arc.path_hashes@[b[i].0 as int], b[i].1)
        }),
        r.filter matches Some(f) ==> exists|i: int| #[trigger] is_first_arg(args@, "-f"@, i) && i + 1 < args@.len() && f@ == args@[i + 1]@,
        r.filter is None ==> !(exists|i: int| #[trigger] is_first_arg(args@, "-f"@, i) && i + 1 < args@.len()),
{
    let mut args = args;
    let filter = get_flag_and_option("-f", &mut args);
    let n = fs.loaded_filepaths.len();
    let list = broken_filepaths(fs.get_loaded_filepaths(), fs.get_loaded_datas());
    let ghost b = list@;
    proof {
        lemma_broken_in_bounds(fs.loaded_filepaths@, fs.loaded_datas@, fs.loaded_filepaths@.len() as int);
    }
    let mut broken: Vec<(u64, BrokenReason)> = Vec::new();
    let mut k: usize = 0;
    while k < list.len()
        invariant
            b == list@,
            b == spec_broken_filepaths(fs.loaded_filepaths@, fs.loaded_datas@, fs.loaded_filepaths@.len() as int),
            forall|i: int| 0 <= i < b.len() ==> (#[trigger] b[i]).0 < fs.loaded_filepaths@.len(),
            fs.loaded_filepaths@.len() <= arc.path_hashes@.len(),
            k <= b.len(),
            broken@.len() == k,
            forall|i: int| 0 <= i < k ==> #[trigger] broken@[i] == (arc.path_hashes@[b[i].0 as int], b[i].1),
        decreases b.len() - k,
    {
        let (p, why) = list[k];
        proof {
            assert(b[k as int].0 < fs.loaded_filepaths@.len());
        }
        broken.push((arc.path_hashes[p], why));
        k = k + 1;
    }
    BrokenReport { filter, broken }
}

} // verus!
