//! Commands that read the archive tables of the running game.
use vstd::prelude::*;

use crate::path::{chars_of, str_eq};
use crate::remote::table::{find_in_pairs, flag_with_option, has_arg, spec_find_dir, spec_lookup_target, take_flag};
use crate::remote::{is_first_arg, lookup_target, parse_index, spec_parse_index, LookupTarget};
use crate::unsharing::{chain_step, default_region_slot, find_path_by_hash, first_path_from, info_of_path, lemma_first_path_bounds, get_shared_file, is_localized, spec_shared_file, tables_wf, DirRec, FileDataRec, FileInfoRec, FilePathRec, FileTables, GroupRec, InfoIndexRec, InfoToDataRec, TablesView};

verus! {

/// The command asked for, with the arguments that follow it.
#[derive(Debug)]
pub enum Command {
    /// Print the usage text.
    Usage,
    /// `directory_help`: print the directory lookup help.
    DirectoryHelp,
    /// `get_directory`: a directory entry.
    GetDirectory(Vec<String>),
    /// `get_directory_file_group`: the file group of a directory.
    GetDirectoryFileGroup(Vec<String>),
    /// `get_directory_redirect`: where a directory redirects to.
    GetDirectoryRedirect(Vec<String>),
    /// `get_file_group`: a file group by index.
    GetFileGroup(Vec<String>),
    /// `file_help`: print the file lookup help.
    FileHelp,
    /// `get_file_path`: a file path entry.
    GetFilePath(Vec<String>),
    /// `get_file_info_index`: a file info index entry.
    GetFileInfoIndex(Vec<String>),
    /// `get_file_info`: a file info entry.
    GetFileInfo(Vec<String>),
    /// `get_file_info_to_data`: a file info to data entry.
    GetFileInfoToData(Vec<String>),
    /// `get_file_data`: a file data entry.
    GetFileData(Vec<String>),
    /// `util_help`: print the utilities help.
    UtilHelp,
    /// `walk_directory`: list a directory.
    WalkDirectory(Vec<String>),
    /// `is_file_shared`: whether a file is shared.
    IsFileShared(Vec<String>),
    /// `get_shared_file`: the file a file is shared with.
    GetSharedFile(Vec<String>),
    /// `get_shared_data_index`: the first shared file data index.
    GetSharedDataIndex,
}

/// Whether the command word and the arguments after it make this command.
pub open spec fn selects(word: Seq<char>, rest: Seq<String>, c: Command) -> bool {
    match c {
        Command::Usage => word != "directory_help"@ && word != "get_directory"@ && word != "get_directory_file_group"@ && word != "get_directory_redirect"@ && word != "get_file_group"@ && word != "file_help"@ && word != "get_file_path"@ && word != "get_file_info_index"@ && word != "get_file_info"@ && word != "get_file_info_to_data"@ && word != "get_file_data"@ && word != "util_help"@ && word != "walk_directory"@ && word != "is_file_shared"@ && word != "get_shared_file"@ && word != "get_shared_data_index"@,
        Command::DirectoryHelp => word == "directory_help"@,
        Command::GetDirectory(a) => word == "get_directory"@ && a@ == rest,
        Command::GetDirectoryFileGroup(a) => word == "get_directory_file_group"@ && a@ == rest,
        Command::GetDirectoryRedirect(a) => word == "get_directory_redirect"@ && a@ == rest,
        Command::GetFileGroup(a) => word == "get_file_group"@ && a@ == rest,
        Command::FileHelp => word == "file_help"@,
        Command::GetFilePath(a) => word == "get_file_path"@ && a@ == rest,
        Command::GetFileInfoIndex(a) => word == "get_file_info_index"@ && a@ == rest,
        Command::GetFileInfo(a) => word == "get_file_info"@ && a@ == rest,
        Command::GetFileInfoToData(a) => word == "get_file_info_to_data"@ && a@ == rest,
        Command::GetFileData(a) => word == "get_file_data"@ && a@ == rest,
        Command::UtilHelp => word == "util_help"@,
        Command::WalkDirectory(a) => word == "walk_directory"@ && a@ == rest,
        Command::IsFileShared(a) => word == "is_file_shared"@ && a@ == rest,
        Command::GetSharedFile(a) => word == "get_shared_file"@ && a@ == rest,
        Command::GetSharedDataIndex => word == "get_shared_data_index"@,
    }
}

/// Picks the command that the first argument names; an unknown word, or no
/// argument at all, asks for the usage text.
pub fn handle_command(args: Vec<String>) -> (r: Command)
    ensures
        args@.len() == 0 ==> r is Usage,
        args@.len() > 0 ==> selects(args@[0]@, args@.drop_first(), r),
{
    let mut args = args;
    if args.len() == 0 {
        return Command::Usage;
    }
    let ghost before = args@;
    let command = args.remove(0);
    proof {
        assert(args@ =~= before.drop_first());
    }
    let c = command.as_str();
    if str_eq(c, &chars_of("directory_help")) {
        Command::DirectoryHelp
    } else if str_eq(c, &chars_of("get_directory")) {
        Command::GetDirectory(args)
    } else if str_eq(c, &chars_of("get_directory_file_group")) {
        Command::GetDirectoryFileGroup(args)
    } else if str_eq(c, &chars_of("get_directory_redirect")) {
        Command::GetDirectoryRedirect(args)
    } else if str_eq(c, &chars_of("get_file_group")) {
        Command::GetFileGroup(args)
    } else if str_eq(c, &chars_of("file_help")) {
        Command::FileHelp
    } else if str_eq(c, &chars_of("get_file_path")) {
        Command::GetFilePath(args)
    } else if str_eq(c, &chars_of("get_file_info_index")) {
        Command::GetFileInfoIndex(args)
    } else if str_eq(c, &chars_of("get_file_info")) {
        Command::GetFileInfo(args)
    } else if str_eq(c, &chars_of("get_file_info_to_data")) {
        Command::GetFileInfoToData(args)
    } else if str_eq(c, &chars_of("get_file_data")) {
        Command::GetFileData(args)
    } else if str_eq(c, &chars_of("util_help")) {
        Command::UtilHelp
    } else if str_eq(c, &chars_of("walk_directory")) {
        Command::WalkDirectory(args)
    } else if str_eq(c, &chars_of("is_file_shared")) {
        Command::IsFileShared(args)
    } else if str_eq(c, &chars_of("get_shared_file")) {
        Command::GetSharedFile(args)
    } else if str_eq(c, &chars_of("get_shared_data_index")) {
        Command::GetSharedDataIndex
    } else {
        Command::Usage
    }
}


/// The archive tables that a directory walk reads: the file tables, the
/// directories, the directory index of each child slot, the file groups,
/// and the (hash, directory index) pairs that find a directory by hash.
pub struct WalkTables {
    pub files: FileTables,
    pub dirs: Vec<DirRec>,
    pub child_dir_index: Vec<u32>,
    pub groups: Vec<GroupRec>,
    pub dir_hash_to_index: Vec<(u64, u32)>,
}

/// Where a redirected directory leads: to another directory, or to an
/// unnamed group of files.
#[derive(Debug, Clone, Copy, PartialEq, Eq, Structural)]
pub enum Redirection {
    Symlink(u32),
    Shared(GroupRec),
}

/// Where directory `d` redirects to, if anywhere.
pub open spec fn spec_redirect(t: WalkTables, d: int) -> Option<Redirection> {
    let dir = t.dirs@[d];
    if dir.redirected {
        let di = t.groups@[dir.group_index as int].directory_index;
        if di != 0xFF_FFFF {
            if dir.is_symlink {
                Some(Redirection::Symlink(di))
            } else {
                Some(Redirection::Shared(t.groups@[di as int]))
            }
        } else {
            None
        }
    } else {
        None
    }
}

/// Every index that a walk can follow lies in its table, and the walk's
/// depth fits in a `usize`.
pub open spec fn walk_wf(t: WalkTables) -> bool {
    &&& tables_wf(t.files@)
    &&& t.files@.fi.len() <= u32::MAX
    &&& t.dirs@.len() + 2 <= usize::MAX
    &&& forall|d: int| 0 <= d < t.dirs@.len() ==> {
        &&& (#[trigger] t.dirs@[d]).file_info_start + t.dirs@[d].file_count <= t.files@.fi.len()
        &&& t.dirs@[d].child_dir_start + t.dirs@[d].child_dir_count <= t.child_dir_index@.len()
        &&& t.dirs@[d].redirected ==> {
            &&& (t.dirs@[d].group_index as int) < t.groups@.len()
            &&& t.groups@[t.dirs@[d].group_index as int].directory_index != 0xFF_FFFF ==> {
                let di = t.groups@[t.dirs@[d].group_index as int].directory_index as int;
                &&& t.dirs@[d].is_symlink ==> di < t.dirs@.len()
                &&& !t.dirs@[d].is_symlink ==> di < t.groups@.len()
            }
        }
    }
    &&& forall|c: int| 0 <= c < t.child_dir_index@.len() ==> (#[trigger] t.child_dir_index@[c] as int) < t.dirs@.len()
    &&& forall|g: int| 0 <= g < t.groups@.len() ==> (#[trigger] t.groups@[g]).file_start + t.groups@[g].file_count <= t.files@.fi.len()
    &&& forall|i: int| 0 <= i < t.dir_hash_to_index@.len() ==> ((#[trigger] t.dir_hash_to_index@[i]).1 as int) < t.dirs@.len()
}

/// What a walk says of whether a file shares its data.
#[derive(Debug, Clone, Copy, PartialEq, Eq, Structural)]
pub enum SharedStatus {
    /// Sharing was not asked for.
    NotShown,
    /// The chain of shared files never settles.
    Invalid,
    /// The file holds its own data.
    Unshared,
    /// The file shares the data of the file with this path hash.
    SharedWith(u64),
}

/// One line of a directory walk; `depth` is the number of dashes before it.
#[derive(Debug, Clone, Copy, PartialEq, Eq, Structural)]
pub enum WalkLine {
    /// The directory walked, by its path hash.
    Top(u64),
    /// A file, by its path hash.
    File { depth: usize, hash: u64, shared: SharedStatus },
    /// The directory a directory redirects to; its own lines follow.
    Redirect { depth: usize, hash: u64 },
    /// An unnamed group of files a directory redirects to; its files follow.
    Unnamed { depth: usize },
    /// A child directory; its own lines follow.
    Child { depth: usize, hash: u64 },
}

/// The path hash of file info `x`.
pub open spec fn file_hash(v: TablesView, x: int) -> u64 {
    v.fp[v.fi[x].file_path_index as int].path_hash
}

/// What a walk shows of whether file info `x` shares its data.
pub open spec fn walk_status(v: TablesView, x: int, shared: bool) -> SharedStatus {
    if !shared {
        SharedStatus::NotShown
    } else {
        match spec_shared_file(v, x) {
            None => SharedStatus::Invalid,
            Some(p) => if p == v.fi[x].file_path_index as int {
                SharedStatus::Unshared
            } else {
                SharedStatus::SharedWith(v.fp[p].path_hash)
            },
        }
    }
}

/// The lines of file infos `start .. start + k`.
pub open spec fn walk_file_lines(v: TablesView, start: int, k: int, depth: usize, shared: bool) -> Seq<WalkLine>
    decreases k,
{
    if k <= 0 {
        Seq::empty()
    } else {
        walk_file_lines(v, start, k - 1, depth, shared).push(WalkLine::File {
            depth,
            hash: file_hash(v, start + k - 1),
            shared: walk_status(v, start + k - 1, shared),
        })
    }
}

/// The lines of directory `d` below its label: its files, then, when
/// walking recursively, where it redirects to and its children. `fuel`
/// bounds the depth: a tree deeper than there are directories has a cycle.
pub open spec fn walk_lines(t: WalkTables, d: int, indent: int, recursive: bool, shared: bool, fuel: nat) -> Seq<WalkLine>
    decreases fuel, 0x1_0000_0002int,
{
    let dir = t.dirs@[d];
    let files = walk_file_lines(t.files@, dir.file_info_start as int, dir.file_count as int, (indent + 1) as usize, shared);
    if recursive {
        files + redirect_lines(t, d, indent, shared, fuel) + walk_child_lines(t, d, indent, shared, fuel, dir.child_dir_count as int)
    } else {
        files
    }
}

/// The lines of where directory `d` redirects to.
pub open spec fn redirect_lines(t: WalkTables, d: int, indent: int, shared: bool, fuel: nat) -> Seq<WalkLine>
    decreases fuel, 0x1_0000_0001int,
{
    match spec_redirect(t, d) {
        None => Seq::empty(),
        Some(Redirection::Symlink(di)) => if fuel == 0 {
            Seq::empty()
        } else {
            seq![WalkLine::Redirect { depth: (indent + 1) as usize, hash: t.dirs@[di as int].path_hash }]
                + walk_lines(t, di as int, indent + 1, true, shared, (fuel - 1) as nat)
        },
        Some(Redirection::Shared(g)) => seq![WalkLine::Unnamed { depth: (indent + 1) as usize }]
            + walk_file_lines(t.files@, g.file_start as int, g.file_count as int, (indent + 2) as usize, shared),
    }
}

/// The lines of the first `k` children of directory `d`.
pub open spec fn walk_child_lines(t: WalkTables, d: int, indent: int, shared: bool, fuel: nat, k: int) -> Seq<WalkLine>
    decreases fuel, k,
{
    if k <= 0 || fuel == 0 || k > 0x1_0000_0000int {
        Seq::empty()
    } else {
        let c = t.child_dir_index@[t.dirs@[d].child_dir_start + k - 1] as int;
        walk_child_lines(t, d, indent, shared, fuel, k - 1).push(WalkLine::Child { depth: (indent + 1) as usize, hash: t.dirs@[c].path_hash })
            + walk_lines(t, c, indent + 1, true, shared, (fuel - 1) as nat)
    }
}

fn shared_status(t: &FileTables, x: usize, shared: bool) -> (r: SharedStatus)
    requires
        tables_wf(t@),
        x < t@.fi.len(),
    ensures
        r == walk_status(t@, x as int, shared),
{
    if !shared {
        return SharedStatus::NotShown;
    }
    match get_shared_file(t, x) {
        None => SharedStatus::Invalid,
        Some(p) => if p == t.file_infos[x].file_path_index as usize {
            SharedStatus::Unshared
        } else {
            SharedStatus::SharedWith(t.file_paths[p].path_hash)
        },
    }
}

fn push_walk_files(t: &FileTables, start: usize, count: usize, depth: usize, shared: bool, out: &mut Vec<WalkLine>)
    requires
        tables_wf(t@),
        start + count <= t@.fi.len(),
    ensures
        final(out)@ == old(out)@ + walk_file_lines(t@, start as int, count as int, depth, shared),
{
    let ghost before = out@;
    let n = t.file_infos.len();
    let mut k: usize = 0;
    while k < count
        invariant
            tables_wf(t@),
            n == t@.fi.len(),
            start + count <= t@.fi.len(),
            k <= count,
            out@ == before + walk_file_lines(t@, start as int, k as int, depth, shared),
        decreases count - k,
    {
        let x = start + k;
        proof {
            assert((t@.fi[x as int].file_path_index as int) < t@.fp.len());
        }
        let hash = t.file_paths[t.file_infos[x].file_path_index as usize].path_hash;
        let status = shared_status(t, x, shared);
        out.push(WalkLine::File { depth, hash, shared: status });
        k = k + 1;
    }
}

#[verifier::spinoff_prover]
#[verifier::rlimit(40)]
fn push_walk_lines(t: &WalkTables, d: usize, indent: usize, recursive: bool, shared: bool, fuel: usize, out: &mut Vec<WalkLine>)
    requires
        walk_wf(*t),
        d < t.dirs@.len(),
        indent + fuel + 2 <= usize::MAX,
    ensures
        final(out)@ == old(out)@ + walk_lines(*t, d as int, indent as int, recursive, shared, fuel as nat),
    decreases fuel, 2int,
{
    let ghost before = out@;
    let dir = t.dirs[d];
    let ghost files = walk_file_lines(t.files@, dir.file_info_start as int, dir.file_count as int, (indent + 1) as usize, shared);
    proof {
        assert(t.dirs@[d as int].file_info_start + t.dirs@[d as int].file_count <= t.files@.fi.len());
    }
    push_walk_files(&t.files, dir.file_info_start as usize, dir.file_count as usize, indent + 1, shared, out);
    assert(out@ == before + files);
    if recursive {
        push_redirect_lines(t, d, indent, shared, fuel, out);
        let ghost redirects = redirect_lines(*t, d as int, indent as int, shared, fuel as nat);
        push_walk_children(t, d, indent, shared, fuel, out);
        let ghost children = walk_child_lines(*t, d as int, indent as int, shared, fuel as nat, dir.child_dir_count as int);
        assert(walk_lines(*t, d as int, indent as int, recursive, shared, fuel as nat) == files + redirects + children);
        assert(out@ =~= before + (files + redirects + children));
    } else {
        assert(walk_lines(*t, d as int, indent as int, recursive, shared, fuel as nat) == files);
    }
}

fn push_redirect_lines(t: &WalkTables, d: usize, indent: usize, shared: bool, fuel: usize, out: &mut Vec<WalkLine>)
    requires
        walk_wf(*t),
        d < t.dirs@.len(),
        indent + fuel + 2 <= usize::MAX,
    ensures
        final(out)@ == old(out)@ + redirect_lines(*t, d as int, indent as int, shared, fuel as nat),
    decreases fuel, 1int,
{
    let ghost before = out@;
    let dir = t.dirs[d];
    if !dir.redirected {
        assert(out@ =~= before + redirect_lines(*t, d as int, indent as int, shared, fuel as nat));
        return;
    }
    let di = t.groups[dir.group_index as usize].directory_index;
    if di == 0xFF_FFFF {
        assert(out@ =~= before + redirect_lines(*t, d as int, indent as int, shared, fuel as nat));
        return;
    }
    if dir.is_symlink {
        if fuel == 0 {
            assert(out@ =~= before + redirect_lines(*t, d as int, indent as int, shared, fuel as nat));
            return;
        }
        let line = WalkLine::Redirect { depth: indent + 1, hash: t.dirs[di as usize].path_hash };
        out.push(line);
        push_walk_lines(t, di as usize, indent + 1, true, shared, fuel - 1, out);
        assert(out@ =~= before + redirect_lines(*t, d as int, indent as int, shared, fuel as nat));
    } else {
        let g = t.groups[di as usize];
        out.push(WalkLine::Unnamed { depth: indent + 1 });
        push_walk_files(&t.files, g.file_start as usize, g.file_count as usize, indent + 2, shared, out);
        assert(out@ =~= before + redirect_lines(*t, d as int, indent as int, shared, fuel as nat));
    }
}

fn push_walk_children(t: &WalkTables, d: usize, indent: usize, shared: bool, fuel: usize, out: &mut Vec<WalkLine>)
    requires
        walk_wf(*t),
        d < t.dirs@.len(),
        indent + fuel + 2 <= usize::MAX,
    ensures
        final(out)@ == old(out)@ + walk_child_lines(*t, d as int, indent as int, shared, fuel as nat, t.dirs@[d as int].child_dir_count as int),
    decreases fuel, 0int,
{
    let start = t.dirs[d].child_dir_start as usize;
    let count = t.dirs[d].child_dir_count as usize;
    let ghost mid = out@;
    let n = t.child_dir_index.len();
    if fuel == 0 {
        assert(walk_child_lines(*t, d as int, indent as int, shared, fuel as nat, count as int) =~= Seq::empty());
        return;
    }
    let mut k: usize = 0;
    while k < count
        invariant
            walk_wf(*t),
            d < t.dirs@.len(),
            start == t.dirs@[d as int].child_dir_start,
            count == t.dirs@[d as int].child_dir_count,
            start + count <= t.child_dir_index@.len(),
            n == t.child_dir_index@.len(),
            fuel > 0,
            indent + fuel + 2 <= usize::MAX,
            k <= count,
            out@ == mid + walk_child_lines(*t, d as int, indent as int, shared, fuel as nat, k as int),
        decreases count - k,
    {
        let c = t.child_dir_index[start + k] as usize;
        proof {
            assert((t.child_dir_index@[start + k] as int) < t.dirs@.len());
        }
        out.push(WalkLine::Child { depth: indent + 1, hash: t.dirs[c].path_hash });
        push_walk_lines(t, c, indent + 1, true, shared, fuel - 1, out);
        proof {
            assert(out@ =~= mid + walk_child_lines(*t, d as int, indent as int, shared, fuel as nat, k as int + 1));
        }
        k = k + 1;
    }
}

/// Walks directory `index`: its label, its files (with whether each shares
/// its data, with `shared`), then, with `recursive`, where it redirects to
/// and its child directories, each walked the same way one level deeper.
pub fn walk_directory(t: &WalkTables, index: u32, recursive: bool, shared: bool) -> (r: Vec<WalkLine>)
    requires
        walk_wf(*t),
        (index as int) < t.dirs@.len(),
    ensures
        r@ == seq![WalkLine::Top(t.dirs@[index as int].path_hash)]
            + walk_lines(*t, index as int, 0, recursive, shared, t.dirs@.len() as nat),
{
    let mut out: Vec<WalkLine> = Vec::new();
    let i = index as usize;
    out.push(WalkLine::Top(t.dirs[i].path_hash));
    push_walk_lines(t, i, 0, recursive, shared, t.dirs.len(), &mut out);
    out
}

/// The answer to a `walk_directory` command.
pub enum WalkOutput {
    /// The arguments named no directory: the usage text.
    Usage,
    /// No directory has the hash.
    Missing,
    /// The index is past the directory table.
    OutOfBounds,
    /// The lines of the walk, to be shown in colour with `pretty`.
    Lines { pretty: bool, lines: Vec<WalkLine> },
}

/// The answer to a walk of directory `index` with the given flags.
pub open spec fn answers_walk(t: WalkTables, index: u32, rest: Seq<String>, r: WalkOutput) -> bool {
    if (index as int) < t.dirs@.len() {
        r matches WalkOutput::Lines { pretty, lines }
            && pretty == has_arg(rest, "-p"@)
            && lines@ == seq![WalkLine::Top(t.dirs@[index as int].path_hash)]
                + walk_lines(t, index as int, 0, has_arg(rest, "-r"@), has_arg(rest, "-s"@), t.dirs@.len() as nat)
    } else {
        r is OutOfBounds
    }
}

/// Answers `walk_directory [-i <index> | -h <hashable>] [-r] [-p] [-s]`.
pub fn handle_walk_directory(t: &WalkTables, args: Vec<String>) -> (r: WalkOutput)
    requires
        walk_wf(*t),
    ensures
        ({
            let (target, rest) = spec_lookup_target(args@);
            match target {
                LookupTarget::Usage => r is Usage,
                LookupTarget::Index(index) => answers_walk(*t, index, rest, r),
                LookupTarget::Hash(h) => match spec_find_dir(t.dir_hash_to_index@, h.0) {
                    None => r is Missing,
                    Some(index) => answers_walk(*t, index, rest, r),
                },
            }
        }),
{
    let mut args = args;
    let ghost given = args@;
    let target = lookup_target(&mut args);
    proof {
        let fi = flag_with_option(given, "-i"@);
        let fh = flag_with_option(given, "-h"@);
        if fi is Some {
            assert(is_first_arg(given, "-i"@, fi->0) && fi->0 + 1 < given.len());
        } else if fh is Some {
            assert(is_first_arg(given, "-h"@, fh->0) && fh->0 + 1 < given.len());
        }
        assert(target == spec_lookup_target(given).0);
        assert(args@ == spec_lookup_target(given).1);
    }
    let index = match target {
        LookupTarget::Index(i) => i,
        LookupTarget::Hash(h) => match find_in_pairs(&t.dir_hash_to_index, h.0) {
            Some(i) => i,
            None => {
                return WalkOutput::Missing;
            },
        },
        LookupTarget::Usage => {
            return WalkOutput::Usage;
        },
    };
    if index as usize >= t.dirs.len() {
        return WalkOutput::OutOfBounds;
    }
    let ghost rest = args@;
    proof {
        reveal_strlit("-p");
        reveal_strlit("-r");
        reveal_strlit("-s");
    }
    assert("-p"@.len() == 2 && "-r"@.len() == 2 && "-s"@.len() == 2);
    assert("-p"@[1] == 'p' && "-r"@[1] == 'r' && "-s"@[1] == 's');
    assert("-p"@ != "-r"@ && "-p"@ != "-s"@ && "-r"@ != "-s"@);
    let pretty = take_flag("-p", &mut args);
    let recursive = take_flag("-r", &mut args);
    let shared = take_flag("-s", &mut args);
    assert(pretty == has_arg(rest, "-p"@));
    assert(recursive == has_arg(rest, "-r"@));
    assert(shared == has_arg(rest, "-s"@));
    let lines = walk_directory(t, index, recursive, shared);
    WalkOutput::Lines { pretty, lines }
}

/// The end of the file range of group `g`.
pub open spec fn group_end(g: GroupRec) -> int {
    g.file_start + g.file_count
}

/// The first file data index past the files of the unnamed groups that the
/// first `k` directories redirect to: the largest end of such a group.
pub open spec fn shared_data_upto(t: WalkTables, k: int) -> int
    decreases k,
{
    if k <= 0 {
        0
    } else {
        let prev = shared_data_upto(t, k - 1);
        let dir = t.dirs@[k - 1];
        if dir.redirected && !dir.is_symlink && prev < group_end(t.groups@[dir.group_index as int]) {
            group_end(t.groups@[dir.group_index as int])
        } else {
            prev
        }
    }
}

/// The first file data index that is shared: the largest end of a group
/// that a directory redirects to without a symlink.
pub open spec fn spec_shared_data_index(t: WalkTables) -> int {
    shared_data_upto(t, t.dirs@.len() as int)
}

/// Computes the first file data index that is shared.
pub fn shared_data_index(t: &WalkTables) -> (r: u32)
    requires
        walk_wf(*t),
    ensures
        r == spec_shared_data_index(*t),
{
    let n = t.dirs.len();
    let mut max: u32 = 0;
    let mut k: usize = 0;
    while k < n
        invariant
            walk_wf(*t),
            n == t.dirs@.len(),
            k <= n,
            max == shared_data_upto(*t, k as int),
        decreases n - k,
    {
        let dir = t.dirs[k];
        if dir.redirected && !dir.is_symlink {
            proof {
                assert((t.dirs@[k as int].group_index as int) < t.groups@.len());
                assert(group_end(t.groups@[dir.group_index as int]) <= t.files@.fi.len());
            }
            let g = t.groups[dir.group_index as usize];
            let end = g.file_start + g.file_count;
            if max < end {
                max = end;
            }
        }
        k = k + 1;
    }
    max
}

/// The answer to an `is_file_shared` command.
#[derive(Debug, Clone, Copy, PartialEq, Eq, Structural)]
pub enum IsSharedAnswer {
    /// The arguments named no file: the usage text.
    Usage,
    /// The index is past the file path table.
    OutOfBounds,
    /// No file path has the hash.
    Missing,
    /// Whether the file's data for the default region lies in the shared data.
    Shared(bool),
}

/// Every localized file info has the entry it uses for the default region.
pub open spec fn default_slots_valid(v: TablesView) -> bool {
    forall|f: int| 0 <= f < v.fi.len() && #[trigger] is_localized(v.fi[f].flags) ==> (v.fi[f].info_to_data_index as int) + 1 < v.itd.len()
}

/// Whether the default-region data of the file that path `p` leads to lies
/// at or past the first shared data index.
pub open spec fn path_is_shared(t: WalkTables, p: int) -> bool {
    let v = t.files@;
    v.itd[default_region_slot(v, info_of_path(v, p))].file_data_index >= spec_shared_data_index(t)
}

fn path_shared(t: &WalkTables, p: usize) -> (r: bool)
    requires
        walk_wf(*t),
        default_slots_valid(t.files@),
        p < t.files@.fp.len(),
    ensures
        r == path_is_shared(*t, p as int),
{
    let ghost v = t.files@;
    proof {
        assert((v.fp[p as int].path_index as int) < v.ii.len());
        assert((v.ii[v.fp[p as int].path_index as int].file_info_index as int) < v.fi.len());
    }
    let ii = t.files.file_paths[p].path_index as usize;
    let f = t.files.info_indices[ii].file_info_index as usize;
    let info = t.files.file_infos[f];
    let itd_len = t.files.info_to_datas.len();
    proof {
        assert((v.fi[f as int].info_to_data_index as int) < v.itd.len());
    }
    let slot = if info.flags.is_regional() {
        info.info_to_data_index as usize
    } else if info.flags.is_localized() {
        proof {
            assert(is_localized(v.fi[f as int].flags));
        }
        info.info_to_data_index as usize + 1
    } else {
        info.info_to_data_index as usize
    };
    let shared_index = shared_data_index(t);
    t.files.info_to_datas[slot].file_data_index >= shared_index
}

/// Answers `is_file_shared [-i <path index> | -h <hashable>]`.
pub fn handle_is_file_shared(t: &WalkTables, args: Vec<String>) -> (r: IsSharedAnswer)
    requires
        walk_wf(*t),
        default_slots_valid(t.files@),
    ensures
        match spec_lookup_target(args@).0 {
            LookupTarget::Usage => r == IsSharedAnswer::Usage,
            LookupTarget::Index(i) => if (i as int) < t.files@.fp.len() {
                r == IsSharedAnswer::Shared(path_is_shared(*t, i as int))
            } else {
                r == IsSharedAnswer::OutOfBounds
            },
            LookupTarget::Hash(h) => match first_path_from(t.files@.fp, h.0, 0) {
                None => r == IsSharedAnswer::Missing,
                Some(p) => r == IsSharedAnswer::Shared(path_is_shared(*t, p)),
            },
        },
{
    let mut args = args;
    let ghost given = args@;
    let target = lookup_target(&mut args);
    proof {
        let fi = flag_with_option(given, "-i"@);
        let fh = flag_with_option(given, "-h"@);
        if fi is Some {
            assert(is_first_arg(given, "-i"@, fi->0) && fi->0 + 1 < given.len());
        } else if fh is Some {
            assert(is_first_arg(given, "-h"@, fh->0) && fh->0 + 1 < given.len());
        }
        assert(target == spec_lookup_target(given).0);
    }
    match target {
        LookupTarget::Usage => IsSharedAnswer::Usage,
        LookupTarget::Index(i) => if (i as usize) < t.files.file_paths.len() {
            IsSharedAnswer::Shared(path_shared(t, i as usize))
        } else {
            IsSharedAnswer::OutOfBounds
        },
        LookupTarget::Hash(h) => match find_path_by_hash(&t.files, h.0) {
            None => IsSharedAnswer::Missing,
            Some(p) => IsSharedAnswer::Shared(path_shared(t, p)),
        },
    }
}

/// The file path whose data path `p` uses, found as the game finds it: by
/// the hash of `p`.
pub open spec fn hash_step(v: TablesView, p: int) -> int {
    chain_step(v, first_path_from(v.fp, v.fp[p].path_hash, 0)->0)
}

/// Follows the file paths from `cur` by `hash_step` until a step leads to a
/// path of the same hash, taking at most `fuel` more steps.
pub open spec fn settle(v: TablesView, cur: int, fuel: nat) -> Option<int>
    decreases fuel,
{
    if v.fp[hash_step(v, cur)].path_hash == v.fp[cur].path_hash {
        Some(cur)
    } else if fuel == 0 {
        None
    } else {
        settle(v, hash_step(v, cur), (fuel - 1) as nat)
    }
}

/// The answer to a `get_shared_file` command.
#[derive(Debug, Clone, Copy, PartialEq, Eq, Structural)]
pub enum SharedFileAnswer {
    /// The arguments named no file: the usage text.
    Usage,
    /// The index is past the file path table.
    OutOfBounds,
    /// No file path has the hash.
    Missing,
    /// The file holds its own data.
    SourceFile,
    /// The file shares the data of the file with this path hash.
    SharedWith(u64),
    /// Following the shared files never settles.
    Unsettled,
}

/// What `get_shared_file` answers for file path `p`; with `recursive`, the
/// last file of the chain of shared files.
pub open spec fn shared_file_answer(v: TablesView, p: int, recursive: bool) -> SharedFileAnswer {
    let q = hash_step(v, p);
    if v.fp[q].path_hash == v.fp[p].path_hash {
        SharedFileAnswer::SourceFile
    } else if !recursive {
        SharedFileAnswer::SharedWith(v.fp[q].path_hash)
    } else {
        match settle(v, q, v.fp.len()) {
            Some(c) => SharedFileAnswer::SharedWith(v.fp[c].path_hash),
            None => SharedFileAnswer::Unsettled,
        }
    }
}

proof fn lemma_hash_step_bounds(v: TablesView, p: int)
    requires
        tables_wf(v),
        0 <= p < v.fp.len(),
    ensures
        first_path_from(v.fp, v.fp[p].path_hash, 0) is Some,
        0 <= hash_step(v, p) < v.fp.len(),
{
    lemma_first_path_bounds(v.fp, v.fp[p].path_hash, 0);
    let q = first_path_from(v.fp, v.fp[p].path_hash, 0)->0;
    assert((v.fp[q].path_index as int) < v.ii.len());
    assert((v.ii[v.fp[q].path_index as int].file_info_index as int) < v.fi.len());
}

fn hash_step_exec(t: &FileTables, p: usize) -> (r: usize)
    requires
        tables_wf(t@),
        p < t@.fp.len(),
    ensures
        r == hash_step(t@, p as int),
        r < t@.fp.len(),
{
    proof {
        lemma_hash_step_bounds(t@, p as int);
    }
    let q = match find_path_by_hash(t, t.file_paths[p].path_hash) {
        Some(q) => q,
        None => p,
    };
    proof {
        assert((t@.fp[q as int].path_index as int) < t@.ii.len());
        assert((t@.ii[t@.fp[q as int].path_index as int].file_info_index as int) < t@.fi.len());
    }
    let ii = t.file_paths[q].path_index as usize;
    let f = t.info_indices[ii].file_info_index as usize;
    t.file_infos[f].file_path_index as usize
}

/// The answer of `get_shared_file` for file path `p`.
pub fn shared_file_of(t: &FileTables, p: usize, recursive: bool) -> (r: SharedFileAnswer)
    requires
        tables_wf(t@),
        p < t@.fp.len(),
    ensures
        r == shared_file_answer(t@, p as int, recursive),
{
    let q = hash_step_exec(t, p);
    if t.file_paths[q].path_hash == t.file_paths[p].path_hash {
        return SharedFileAnswer::SourceFile;
    }
    if !recursive {
        return SharedFileAnswer::SharedWith(t.file_paths[q].path_hash);
    }
    let n = t.file_paths.len();
    let mut cur = q;
    let mut fuel = n;
    while fuel > 0
        invariant
            tables_wf(t@),
            n == t@.fp.len(),
            cur < n,
            fuel <= n,
            p < n,
            recursive,
            q == hash_step(t@, p as int),
            t@.fp[q as int].path_hash != t@.fp[p as int].path_hash,
            settle(t@, q as int, n as nat) == settle(t@, cur as int, fuel as nat),
        decreases fuel,
    {
        let next = hash_step_exec(t, cur);
        if t.file_paths[next].path_hash == t.file_paths[cur].path_hash {
            assert(settle(t@, cur as int, fuel as nat) == Some(cur as int));
            return SharedFileAnswer::SharedWith(t.file_paths[cur].path_hash);
        }
        cur = next;
        fuel = fuel - 1;
    }
    let next = hash_step_exec(t, cur);
    if t.file_paths[next].path_hash == t.file_paths[cur].path_hash {
        SharedFileAnswer::SharedWith(t.file_paths[cur].path_hash)
    } else {
        SharedFileAnswer::Unsettled
    }
}

/// Answers `get_shared_file [-i <path index> | -h <hashable>] [-r]`.
pub fn handle_get_shared_file(t: &FileTables, args: Vec<String>) -> (r: SharedFileAnswer)
    requires
        tables_wf(t@),
    ensures
        ({
            let (target, rest) = spec_lookup_target(args@);
            match target {
                LookupTarget::Usage => r == SharedFileAnswer::Usage,
                LookupTarget::Index(i) => if (i as int) < t@.fp.len() {
                    r == shared_file_answer(t@, i as int, has_arg(rest, "-r"@))
                } else {
                    r == SharedFileAnswer::OutOfBounds
                },
                LookupTarget::Hash(h) => match first_path_from(t@.fp, h.0, 0) {
                    None => r == SharedFileAnswer::Missing,
                    Some(p) => r == shared_file_answer(t@, p, has_arg(rest, "-r"@)),
                },
            }
        }),
{
    let mut args = args;
    let ghost given = args@;
    let target = lookup_target(&mut args);
    proof {
        let fi = flag_with_option(given, "-i"@);
        let fh = flag_with_option(given, "-h"@);
        if fi is Some {
            assert(is_first_arg(given, "-i"@, fi->0) && fi->0 + 1 < given.len());
        } else if fh is Some {
            assert(is_first_arg(given, "-h"@, fh->0) && fh->0 + 1 < given.len());
        }
        assert(target == spec_lookup_target(given).0);
        assert(args@ == spec_lookup_target(given).1);
    }
    let p = match target {
        LookupTarget::Usage => {
            return SharedFileAnswer::Usage;
        },
        LookupTarget::Index(i) => if (i as usize) < t.file_paths.len() {
            i as usize
        } else {
            return SharedFileAnswer::OutOfBounds;
        },
        LookupTarget::Hash(h) => match find_path_by_hash(t, h.0) {
            None => {
                return SharedFileAnswer::Missing;
            },
            Some(p) => p,
        },
    };
    let recursive = take_flag("-r", &mut args);
    shared_file_of(t, p, recursive)
}

/// Reads the `-i <index>` or `-h <hashable>` argument of a lookup command,
/// with the arguments left after it.
pub(crate) fn read_target(args: Vec<String>) -> (r: (LookupTarget, Vec<String>))
    ensures
        r.0 == spec_lookup_target(args@).0,
        r.1@ == spec_lookup_target(args@).1,
{
    let mut args = args;
    let ghost given = args@;
    let target = lookup_target(&mut args);
    proof {
        let fi = flag_with_option(given, "-i"@);
        let fh = flag_with_option(given, "-h"@);
        if fi is Some {
            assert(is_first_arg(given, "-i"@, fi->0) && fi->0 + 1 < given.len());
        } else if fh is Some {
            assert(is_first_arg(given, "-h"@, fh->0) && fh->0 + 1 < given.len());
        }
    }
    (target, args)
}

/// The answer to a lookup of one table entry.
#[derive(Debug, Clone, Copy)]
pub enum Lookup<T> {
    /// The arguments named no entry: the usage text.
    Usage,
    /// The index is past the table.
    OutOfBounds,
    /// No entry has the hash.
    Missing,
    /// The entry.
    Found(T),
}

/// The entry at index `i` of a table, if there is one.
pub open spec fn index_lookup<T>(s: Seq<T>, i: u32) -> Lookup<T> {
    if (i as int) < s.len() {
        Lookup::Found(s[i as int])
    } else {
        Lookup::OutOfBounds
    }
}

pub(crate) fn get_entry<T: Copy>(v: &Vec<T>, i: u32) -> (r: Lookup<T>)
    ensures
        r == index_lookup(v@, i),
{
    if (i as usize) < v.len() {
        Lookup::Found(v[i as usize])
    } else {
        Lookup::OutOfBounds
    }
}

/// The answer to a lookup by hash: the entry that `f` gives for the index
/// found, where one was found.
pub open spec fn hash_lookup<T>(found: Option<int>, f: spec_fn(int) -> T) -> Lookup<T> {
    match found {
        Some(i) => Lookup::Found(f(i)),
        None => Lookup::Missing,
    }
}

/// Answers `get_directory [-i <index> | -h <hashable>]`: a directory entry.
pub fn handle_get_directory(t: &WalkTables, args: Vec<String>) -> (r: Lookup<DirRec>)
    requires
        walk_wf(*t),
    ensures
        r == match spec_lookup_target(args@).0 {
            LookupTarget::Usage => Lookup::Usage,
            LookupTarget::Index(i) => index_lookup(t.dirs@, i),
            LookupTarget::Hash(h) => match spec_find_dir(t.dir_hash_to_index@, h.0) {
                Some(d) => Lookup::Found(t.dirs@[d as int]),
                None => Lookup::Missing,
            },
        },
{
    let (target, _) = read_target(args);
    match target {
        LookupTarget::Usage => Lookup::Usage,
        LookupTarget::Index(i) => get_entry(&t.dirs, i),
        LookupTarget::Hash(h) => match find_in_pairs(&t.dir_hash_to_index, h.0) {
            Some(d) => {
                proof {
                    lemma_pairs_in_dirs(t.dir_hash_to_index@, h.0, t.dirs@.len() as int);
                }
                Lookup::Found(t.dirs[d as usize])
            },
            None => Lookup::Missing,
        },
    }
}

proof fn lemma_pairs_in_dirs(pairs: Seq<(u64, u32)>, hash: u64, n: int)
    requires
        forall|i: int| 0 <= i < pairs.len() ==> ((#[trigger] pairs[i]).1 as int) < n,
    ensures
        spec_find_dir(pairs, hash) matches Some(d) ==> (d as int) < n,
    decreases pairs.len(),
{
    if pairs.len() > 0 && pairs[0].0 != hash {
        assert forall|i: int| 0 <= i < pairs.drop_first().len() implies ((#[trigger] pairs.drop_first()[i]).1 as int) < n by {
            assert(pairs.drop_first()[i] == pairs[i + 1]);
        }
        lemma_pairs_in_dirs(pairs.drop_first(), hash, n);
    }
}

/// The answer to a lookup of a directory's file group.
#[derive(Debug, Clone, Copy)]
pub enum GroupAnswer {
    Usage,
    OutOfBounds,
    Missing,
    /// The directory has no file group.
    NoGroup,
    /// The directory's file group index is past the group table.
    GroupOutOfBounds,
    Found(GroupRec),
}

/// The file group of a directory.
pub open spec fn group_of(t: WalkTables, dir: DirRec) -> GroupAnswer {
    if dir.group_index == 0xFF_FFFF {
        GroupAnswer::NoGroup
    } else if (dir.group_index as int) < t.groups@.len() {
        GroupAnswer::Found(t.groups@[dir.group_index as int])
    } else {
        GroupAnswer::GroupOutOfBounds
    }
}

fn group_answer(t: &WalkTables, dir: DirRec) -> (r: GroupAnswer)
    ensures
        r == group_of(*t, dir),
{
    if dir.group_index == 0xFF_FFFF {
        GroupAnswer::NoGroup
    } else if (dir.group_index as usize) < t.groups.len() {
        GroupAnswer::Found(t.groups[dir.group_index as usize])
    } else {
        GroupAnswer::GroupOutOfBounds
    }
}

/// Answers `get_directory_file_group [-i <index> | -h <hashable>]`: the
/// file group of a directory.
pub fn handle_get_directory_file_group(t: &WalkTables, args: Vec<String>) -> (r: GroupAnswer)
    requires
        walk_wf(*t),
    ensures
        r == match spec_lookup_target(args@).0 {
            LookupTarget::Usage => GroupAnswer::Usage,
            LookupTarget::Index(i) => if (i as int) < t.dirs@.len() { group_of(*t, t.dirs@[i as int]) } else { GroupAnswer::OutOfBounds },
            LookupTarget::Hash(h) => match spec_find_dir(t.dir_hash_to_index@, h.0) {
                Some(d) => group_of(*t, t.dirs@[d as int]),
                None => GroupAnswer::Missing,
            },
        },
{
    let (target, _) = read_target(args);
    match target {
        LookupTarget::Usage => GroupAnswer::Usage,
        LookupTarget::Index(i) => if (i as usize) < t.dirs.len() {
            group_answer(t, t.dirs[i as usize])
        } else {
            GroupAnswer::OutOfBounds
        },
        LookupTarget::Hash(h) => match find_in_pairs(&t.dir_hash_to_index, h.0) {
            Some(d) => {
                proof {
                    lemma_pairs_in_dirs(t.dir_hash_to_index@, h.0, t.dirs@.len() as int);
                }
                group_answer(t, t.dirs[d as usize])
            },
            None => GroupAnswer::Missing,
        },
    }
}

/// The answer to a lookup of where a directory redirects to.
#[derive(Debug, Clone, Copy)]
pub enum RedirectAnswer {
    Usage,
    OutOfBounds,
    Missing,
    /// The directory does not redirect.
    NotRedirected,
    /// The directory redirects, but its group names no target.
    Invalid,
    /// The directory it redirects to.
    Symlink(DirRec),
    /// The unnamed group it redirects to.
    Shared(GroupRec),
    /// Asked by hash: the directory's own file group, as
    /// `get_directory_file_group` answers.
    Group(GroupAnswer),
}

/// Answers `get_directory_redirect [-i <index> | -h <hashable>]`. By index
/// it gives where the directory redirects to; by hash it gives the
/// directory's file group.
pub fn handle_get_directory_redirect(t: &WalkTables, args: Vec<String>) -> (r: RedirectAnswer)
    requires
        walk_wf(*t),
    ensures
        r == match spec_lookup_target(args@).0 {
            LookupTarget::Usage => RedirectAnswer::Usage,
            LookupTarget::Index(i) => if (i as int) < t.dirs@.len() {
                if !t.dirs@[i as int].redirected {
                    RedirectAnswer::NotRedirected
                } else {
                    match spec_redirect(*t, i as int) {
                        Some(Redirection::Symlink(di)) => RedirectAnswer::Symlink(t.dirs@[di as int]),
                        Some(Redirection::Shared(g)) => RedirectAnswer::Shared(g),
                        None => RedirectAnswer::Invalid,
                    }
                }
            } else {
                RedirectAnswer::OutOfBounds
            },
            LookupTarget::Hash(h) => match spec_find_dir(t.dir_hash_to_index@, h.0) {
                Some(d) => RedirectAnswer::Group(group_of(*t, t.dirs@[d as int])),
                None => RedirectAnswer::Missing,
            },
        },
{
    let (target, _) = read_target(args);
    match target {
        LookupTarget::Usage => RedirectAnswer::Usage,
        LookupTarget::Index(i) => {
            if (i as usize) >= t.dirs.len() {
                return RedirectAnswer::OutOfBounds;
            }
            let dir = t.dirs[i as usize];
            if !dir.redirected {
                return RedirectAnswer::NotRedirected;
            }
            let di = t.groups[dir.group_index as usize].directory_index;
            if di == 0xFF_FFFF {
                RedirectAnswer::Invalid
            } else if dir.is_symlink {
                RedirectAnswer::Symlink(t.dirs[di as usize])
            } else {
                RedirectAnswer::Shared(t.groups[di as usize])
            }
        },
        LookupTarget::Hash(h) => match find_in_pairs(&t.dir_hash_to_index, h.0) {
            Some(d) => {
                proof {
                    lemma_pairs_in_dirs(t.dir_hash_to_index@, h.0, t.dirs@.len() as int);
                }
                RedirectAnswer::Group(group_answer(t, t.dirs[d as usize]))
            },
            None => RedirectAnswer::Missing,
        },
    }
}

/// Answers `get_file_group <index>`: a file group by index, read from the
/// first argument.
pub fn handle_get_file_group(t: &WalkTables, args: Vec<String>) -> (r: Lookup<GroupRec>)
    ensures
        r == (if args@.len() == 0 {
            Lookup::Usage
        } else {
            match spec_parse_index(args@[0]@) {
                Some(i) => index_lookup(t.groups@, i),
                None => Lookup::Usage,
            }
        }),
{
    if args.len() == 0 {
        return Lookup::Usage;
    }
    match parse_index(args[0].as_str()) {
        Some(i) => get_entry(&t.groups, i),
        None => Lookup::Usage,
    }
}

/// The first file path with the hash, as an index.
pub open spec fn path_by_hash(t: WalkTables, h: u64) -> Option<int> {
    first_path_from(t.files@.fp, h, 0)
}

/// Answers `get_file_path [-i <index> | -h <hashable>]`: a file path entry.
pub fn handle_get_file_path(t: &WalkTables, args: Vec<String>) -> (r: Lookup<FilePathRec>)
    requires
        walk_wf(*t),
    ensures
        r == match spec_lookup_target(args@).0 {
            LookupTarget::Usage => Lookup::Usage,
            LookupTarget::Index(i) => index_lookup(t.files@.fp, i),
            LookupTarget::Hash(h) => hash_lookup(path_by_hash(*t, h.0), |p: int| t.files@.fp[p]),
        },
{
    let (target, _) = read_target(args);
    match target {
        LookupTarget::Usage => Lookup::Usage,
        LookupTarget::Index(i) => get_entry(&t.files.file_paths, i),
        LookupTarget::Hash(h) => match find_path_by_hash(&t.files, h.0) {
            Some(p) => Lookup::Found(t.files.file_paths[p]),
            None => Lookup::Missing,
        },
    }
}

/// Answers `get_file_info_index [-i <index> | -h <hashable>]`: an
/// info-index entry, by hash the one the path names.
pub fn handle_get_file_info_index(t: &WalkTables, args: Vec<String>) -> (r: Lookup<InfoIndexRec>)
    requires
        walk_wf(*t),
    ensures
        r == match spec_lookup_target(args@).0 {
            LookupTarget::Usage => Lookup::Usage,
            LookupTarget::Index(i) => index_lookup(t.files@.ii, i),
            LookupTarget::Hash(h) => hash_lookup(path_by_hash(*t, h.0), |p: int| t.files@.ii[t.files@.fp[p].path_index as int]),
        },
{
    let (target, _) = read_target(args);
    match target {
        LookupTarget::Usage => Lookup::Usage,
        LookupTarget::Index(i) => get_entry(&t.files.info_indices, i),
        LookupTarget::Hash(h) => match find_path_by_hash(&t.files, h.0) {
            Some(p) => {
                proof {
                    assert((t.files@.fp[p as int].path_index as int) < t.files@.ii.len());
                }
                Lookup::Found(t.files.info_indices[t.files.file_paths[p].path_index as usize])
            },
            None => Lookup::Missing,
        },
    }
}

fn info_for_path(t: &FileTables, p: usize) -> (r: usize)
    requires
        tables_wf(t@),
        p < t@.fp.len(),
    ensures
        r == info_of_path(t@, p as int),
        r < t@.fi.len(),
{
    proof {
        assert((t@.fp[p as int].path_index as int) < t@.ii.len());
        assert((t@.ii[t@.fp[p as int].path_index as int].file_info_index as int) < t@.fi.len());
    }
    t.info_indices[t.file_paths[p].path_index as usize].file_info_index as usize
}

/// Answers `get_file_info [-i <index> | -h <hashable>]`: a file info, by
/// hash the one the path leads to.
pub fn handle_get_file_info(t: &WalkTables, args: Vec<String>) -> (r: Lookup<FileInfoRec>)
    requires
        walk_wf(*t),
    ensures
        r == match spec_lookup_target(args@).0 {
            LookupTarget::Usage => Lookup::Usage,
            LookupTarget::Index(i) => index_lookup(t.files@.fi, i),
            LookupTarget::Hash(h) => hash_lookup(path_by_hash(*t, h.0), |p: int| t.files@.fi[info_of_path(t.files@, p)]),
        },
{
    let (target, _) = read_target(args);
    match target {
        LookupTarget::Usage => Lookup::Usage,
        LookupTarget::Index(i) => get_entry(&t.files.file_infos, i),
        LookupTarget::Hash(h) => match find_path_by_hash(&t.files, h.0) {
            Some(p) => Lookup::Found(t.files.file_infos[info_for_path(&t.files, p)]),
            None => Lookup::Missing,
        },
    }
}

fn default_slot_of(t: &FileTables, f: usize) -> (r: usize)
    requires
        tables_wf(t@),
        default_slots_valid(t@),
        f < t@.fi.len(),
    ensures
        r == default_region_slot(t@, f as int),
        r < t@.itd.len(),
{
    let info = t.file_infos[f];
    proof {
        assert((t@.fi[f as int].info_to_data_index as int) < t@.itd.len());
    }
    let n = t.info_to_datas.len();
    if info.flags.is_regional() {
        info.info_to_data_index as usize
    } else if info.flags.is_localized() {
        proof {
            assert(is_localized(t@.fi[f as int].flags));
        }
        info.info_to_data_index as usize + 1
    } else {
        info.info_to_data_index as usize
    }
}

/// Answers `get_file_info_to_data [-i <index> | -h <hashable>] [-r
/// <region>]`: an info-to-data entry, by hash the one the path's file uses
/// with no region (the region argument is read but every region is taken
/// as none).
pub fn handle_get_file_info_to_data(t: &WalkTables, args: Vec<String>) -> (r: Lookup<InfoToDataRec>)
    requires
        walk_wf(*t),
        default_slots_valid(t.files@),
    ensures
        r == match spec_lookup_target(args@).0 {
            LookupTarget::Usage => Lookup::Usage,
            LookupTarget::Index(i) => index_lookup(t.files@.itd, i),
            LookupTarget::Hash(h) => hash_lookup(path_by_hash(*t, h.0),
                |p: int| t.files@.itd[default_region_slot(t.files@, info_of_path(t.files@, p))]),
        },
{
    let (target, _) = read_target(args);
    match target {
        LookupTarget::Usage => Lookup::Usage,
        LookupTarget::Index(i) => get_entry(&t.files.info_to_datas, i),
        LookupTarget::Hash(h) => match find_path_by_hash(&t.files, h.0) {
            Some(p) => Lookup::Found(t.files.info_to_datas[default_slot_of(&t.files, info_for_path(&t.files, p))]),
            None => Lookup::Missing,
        },
    }
}

/// Answers `get_file_data [-i <index> | -h <hashable>] [-r <region>]`: a
/// file data entry, by hash the one the path's file uses with no region.
pub fn handle_get_file_data(t: &WalkTables, args: Vec<String>) -> (r: Lookup<FileDataRec>)
    requires
        walk_wf(*t),
        default_slots_valid(t.files@),
    ensures
        r == match spec_lookup_target(args@).0 {
            LookupTarget::Usage => Lookup::Usage,
            LookupTarget::Index(i) => index_lookup(t.files@.datas, i),
            LookupTarget::Hash(h) => hash_lookup(path_by_hash(*t, h.0),
                |p: int| t.files@.datas[t.files@.itd[default_region_slot(t.files@, info_of_path(t.files@, p))].file_data_index as int]),
        },
{
    let (target, _) = read_target(args);
    match target {
        LookupTarget::Usage => Lookup::Usage,
        LookupTarget::Index(i) => get_entry(&t.files.datas, i),
        LookupTarget::Hash(h) => match find_path_by_hash(&t.files, h.0) {
            Some(p) => {
                let slot = default_slot_of(&t.files, info_for_path(&t.files, p));
                proof {
                    assert((t.files@.itd[slot as int].file_data_index as int) < t.files@.datas.len());
                }
                Lookup::Found(t.files.datas[t.files.info_to_datas[slot].file_data_index as usize])
            },
            None => Lookup::Missing,
        },
    }
}

/// Answers `get_shared_data_index`: the first file data index that is shared.
pub fn handle_get_shared_data_index(t: &WalkTables) -> (r: u32)
    requires
        walk_wf(*t),
    ensures
        r == spec_shared_data_index(*t),
{
    shared_data_index(t)
}

} // verus!
