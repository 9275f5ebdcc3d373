//! Commands that read the search section of the running game.
use vstd::prelude::*;

use crate::remote::arc::{get_entry, index_lookup, read_target, Lookup};
use crate::remote::table::spec_lookup_target;
use crate::remote::LookupTarget;

use crate::path::{chars_of, str_eq};

verus! {

/// The command asked for, with the arguments that follow it.
#[derive(Debug)]
pub enum Command {
    /// Answer with an empty string.
    Usage,
    /// `get_folder_path_index`: a folder path index entry.
    GetFolderPathIndex(Vec<String>),
    /// `get_folder_path`: a folder path entry.
    GetFolderPath(Vec<String>),
    /// `get_path_index`: a path index entry.
    GetPathIndex(Vec<String>),
    /// `get_path_entry_index`: a path list index entry.
    GetPathEntryIndex(Vec<String>),
    /// `get_path`: a path entry.
    GetPath(Vec<String>),
    /// `walk_directory`: list a folder.
    WalkDirectory(Vec<String>),
}

/// Whether the command word and the arguments after it make this command.
pub open spec fn selects(word: Seq<char>, rest: Seq<String>, c: Command) -> bool {
    match c {
        Command::Usage => word != "get_folder_path_index"@ && word != "get_folder_path"@ && word != "get_path_index"@ && word != "get_path_entry_index"@ && word != "get_path"@ && word != "walk_directory"@,
        Command::GetFolderPathIndex(a) => word == "get_folder_path_index"@ && a@ == rest,
        Command::GetFolderPath(a) => word == "get_folder_path"@ && a@ == rest,
        Command::GetPathIndex(a) => word == "get_path_index"@ && a@ == rest,
        Command::GetPathEntryIndex(a) => word == "get_path_entry_index"@ && a@ == rest,
        Command::GetPath(a) => word == "get_path"@ && a@ == rest,
        Command::WalkDirectory(a) => word == "walk_directory"@ && a@ == rest,
    }
}

/// Picks the command that the first argument names; an unknown word, or no
/// argument at all, asks for the usage text.
pub fn handle_command(args: Vec<String>) -> (r: Command)
    ensures
        args@.len() == 0 ==> r is Usage,
        args@.len() > 0 ==> selects(args@[0]@, args@.drop_first(), r),
{
    let mut args = args;
    if args.len() == 0 {
        return Command::Usage;
    }
    let ghost before = args@;
    let command = args.remove(0);
    proof {
        assert(args@ =~= before.drop_first());
    }
    let c = command.as_str();
    if str_eq(c, &chars_of("get_folder_path_index")) {
        Command::GetFolderPathIndex(args)
    } else if str_eq(c, &chars_of("get_folder_path")) {
        Command::GetFolderPath(args)
    } else if str_eq(c, &chars_of("get_path_index")) {
        Command::GetPathIndex(args)
    } else if str_eq(c, &chars_of("get_path_entry_index")) {
        Command::GetPathEntryIndex(args)
    } else if str_eq(c, &chars_of("get_path")) {
        Command::GetPath(args)
    } else if str_eq(c, &chars_of("walk_directory")) {
        Command::WalkDirectory(args)
    } else {
        Command::Usage
    }
}

/// An entry of the search section's folder or path list: the hashes of the
/// path, its parent, its name and its extension, and the index its path
/// entry holds.
#[derive(Debug, Clone, Copy)]
pub struct SearchEntryRec {
    pub path_hash: u64,
    pub path_index: u32,
    pub parent_hash: u64,
    pub file_name_hash: u64,
    pub ext_hash: u64,
}

/// The search section's tables: the folder (hash, index) table and the
/// folders, the path (hash, index) table, the path list indices, and the
/// paths.
pub struct SearchTables {
    pub folder_path_to_index: Vec<(u64, u32)>,
    pub folder_paths: Vec<SearchEntryRec>,
    pub path_to_index: Vec<(u64, u32)>,
    pub path_list_indices: Vec<u32>,
    pub paths: Vec<SearchEntryRec>,
}

/// Every index other than the "none" marker names an existing entry.
pub open spec fn search_wf(t: SearchTables) -> bool {
    &&& forall|i: int| 0 <= i < t.folder_path_to_index@.len() && (#[trigger] t.folder_path_to_index@[i]).1 != 0xFF_FFFF ==>
            (t.folder_path_to_index@[i].1 as int) < t.folder_paths@.len()
    &&& forall|i: int| 0 <= i < t.path_to_index@.len() && (#[trigger] t.path_to_index@[i]).1 != 0xFF_FFFF ==>
            (t.path_to_index@[i].1 as int) < t.path_list_indices@.len()
    &&& forall|i: int| 0 <= i < t.path_list_indices@.len() && #[trigger] t.path_list_indices@[i] != 0xFF_FFFF ==>
            (t.path_list_indices@[i] as int) < t.paths@.len()
}

/// The first (hash, index) entry with this hash.
pub open spec fn first_pair(pairs: Seq<(u64, u32)>, hash: u64) -> Option<(u64, u32)>
    decreases pairs.len(),
{
    if pairs.len() == 0 {
        None
    } else if pairs[0].0 == hash {
        Some(pairs[0])
    } else {
        first_pair(pairs.drop_first(), hash)
    }
}

proof fn lemma_first_pair_in(pairs: Seq<(u64, u32)>, hash: u64)
    ensures
        first_pair(pairs, hash) matches Some(e) ==> exists|i: int| 0 <= i < pairs.len() && pairs[i] == e,
    decreases pairs.len(),
{
    if pairs.len() > 0 && pairs[0].0 != hash {
        lemma_first_pair_in(pairs.drop_first(), hash);
        if let Some(e) = first_pair(pairs, hash) {
            let j = choose|j: int| 0 <= j < pairs.drop_first().len() && pairs.drop_first()[j] == e;
            assert(pairs[j + 1] == e);
        }
    } else if pairs.len() > 0 {
        assert(pairs[0] == pairs[0]);
    }
}

fn find_pair(pairs: &Vec<(u64, u32)>, hash: u64) -> (r: Option<(u64, u32)>)
    ensures
        r == first_pair(pairs@, hash),
        r matches Some(e) ==> exists|i: int| 0 <= i < pairs@.len() && pairs@[i] == e,
{
    proof {
        lemma_first_pair_in(pairs@, hash);
    }
    let mut i: usize = 0;
    assert(pairs@.subrange(0, pairs@.len() as int) =~= pairs@);
    while i < pairs.len()
        invariant
            i <= pairs@.len(),
            first_pair(pairs@, hash) == first_pair(pairs@.subrange(i as int, pairs@.len() as int), hash),
        decreases pairs@.len() - i,
    {
        let ghost rest = pairs@.subrange(i as int, pairs@.len() as int);
        assert(rest.drop_first() =~= pairs@.subrange(i + 1, pairs@.len() as int));
        if pairs[i].0 == hash {
            return Some(pairs[i]);
        }
        i = i + 1;
    }
    None
}

/// The path list index that a path hash leads to, where it leads to one.
pub open spec fn path_list_index_of(t: SearchTables, hash: u64) -> Option<u32> {
    match first_pair(t.path_to_index@, hash) {
        Some(e) => if e.1 != 0xFF_FFFF {
            Some(t.path_list_indices@[e.1 as int])
        } else {
            None
        },
        None => None,
    }
}

fn path_list_index(t: &SearchTables, hash: u64) -> (r: Option<u32>)
    requires
        search_wf(*t),
    ensures
        r == path_list_index_of(*t, hash),
        r matches Some(i) ==> i != 0xFF_FFFF ==> (i as int) < t.paths@.len(),
{
    match find_pair(&t.path_to_index, hash) {
        Some(e) => if e.1 != 0xFF_FFFF {
            let i = t.path_list_indices[e.1 as usize];
            Some(i)
        } else {
            None
        },
        None => None,
    }
}

/// Answers `get_folder_path_index [-i <index> | -h <hashable>]`: an entry
/// of the folder (hash, index) table.
pub fn handle_get_folder_path_index(t: &SearchTables, args: Vec<String>) -> (r: Lookup<(u64, u32)>)
    ensures
        r == match spec_lookup_target(args@).0 {
            LookupTarget::Usage => Lookup::Usage,
            LookupTarget::Index(i) => index_lookup(t.folder_path_to_index@, i),
            LookupTarget::Hash(h) => match first_pair(t.folder_path_to_index@, h.0) {
                Some(e) => Lookup::Found(e),
                None => Lookup::Missing,
            },
        },
{
    let (target, _) = read_target(args);
    match target {
        LookupTarget::Usage => Lookup::Usage,
        LookupTarget::Index(i) => get_entry(&t.folder_path_to_index, i),
        LookupTarget::Hash(h) => match find_pair(&t.folder_path_to_index, h.0) {
            Some(e) => Lookup::Found(e),
            None => Lookup::Missing,
        },
    }
}

/// Answers `get_folder_path [-i <index> | -h <hashable>]`: a folder entry,
/// by hash the one its (hash, index) entry names.
pub fn handle_get_folder_path(t: &SearchTables, args: Vec<String>) -> (r: Lookup<SearchEntryRec>)
    requires
        search_wf(*t),
    ensures
        r == match spec_lookup_target(args@).0 {
            LookupTarget::Usage => Lookup::Usage,
            LookupTarget::Index(i) => index_lookup(t.folder_paths@, i),
            LookupTarget::Hash(h) => match first_pair(t.folder_path_to_index@, h.0) {
                Some(e) => if e.1 != 0xFF_FFFF { Lookup::Found(t.folder_paths@[e.1 as int]) } else { Lookup::Missing },
                None => Lookup::Missing,
            },
        },
{
    let (target, _) = read_target(args);
    match target {
        LookupTarget::Usage => Lookup::Usage,
        LookupTarget::Index(i) => get_entry(&t.folder_paths, i),
        LookupTarget::Hash(h) => match find_pair(&t.folder_path_to_index, h.0) {
            Some(e) => if e.1 != 0xFF_FFFF {
                Lookup::Found(t.folder_paths[e.1 as usize])
            } else {
                Lookup::Missing
            },
            None => Lookup::Missing,
        },
    }
}

/// Answers `get_path_index [-i <index> | -h <hashable>]`: an entry of the
/// path (hash, index) table.
pub fn handle_get_path_index(t: &SearchTables, args: Vec<String>) -> (r: Lookup<(u64, u32)>)
    ensures
        r == match spec_lookup_target(args@).0 {
            LookupTarget::Usage => Lookup::Usage,
            LookupTarget::Index(i) => index_lookup(t.path_to_index@, i),
            LookupTarget::Hash(h) => match first_pair(t.path_to_index@, h.0) {
                Some(e) => Lookup::Found(e),
                None => Lookup::Missing,
            },
        },
{
    let (target, _) = read_target(args);
    match target {
        LookupTarget::Usage => Lookup::Usage,
        LookupTarget::Index(i) => get_entry(&t.path_to_index, i),
        LookupTarget::Hash(h) => match find_pair(&t.path_to_index, h.0) {
            Some(e) => Lookup::Found(e),
            None => Lookup::Missing,
        },
    }
}

/// Answers `get_path_entry_index [-i <index> | -h <hashable>]`: a path list
/// index, by hash the one the path's (hash, index) entry names.
pub fn handle_get_path_entry_index(t: &SearchTables, args: Vec<String>) -> (r: Lookup<u32>)
    requires
        search_wf(*t),
    ensures
        r == match spec_lookup_target(args@).0 {
            LookupTarget::Usage => Lookup::Usage,
            LookupTarget::Index(i) => index_lookup(t.path_list_indices@, i),
            LookupTarget::Hash(h) => match path_list_index_of(*t, h.0) {
                Some(i) => Lookup::Found(i),
                None => Lookup::Missing,
            },
        },
{
    let (target, _) = read_target(args);
    match target {
        LookupTarget::Usage => Lookup::Usage,
        LookupTarget::Index(i) => get_entry(&t.path_list_indices, i),
        LookupTarget::Hash(h) => match path_list_index(t, h.0) {
            Some(i) => Lookup::Found(i),
            None => Lookup::Missing,
        },
    }
}

/// Answers `get_path [-i <index> | -h <hashable>]`: a path entry, by hash
/// the one the path's path list index names.
pub fn handle_get_path(t: &SearchTables, args: Vec<String>) -> (r: Lookup<SearchEntryRec>)
    requires
        search_wf(*t),
    ensures
        r == match spec_lookup_target(args@).0 {
            LookupTarget::Usage => Lookup::Usage,
            LookupTarget::Index(i) => index_lookup(t.paths@, i),
            LookupTarget::Hash(h) => match path_list_index_of(*t, h.0) {
                Some(i) => if i != 0xFF_FFFF { Lookup::Found(t.paths@[i as int]) } else { Lookup::Missing },
                None => Lookup::Missing,
            },
        },
{
    let (target, _) = read_target(args);
    match target {
        LookupTarget::Usage => Lookup::Usage,
        LookupTarget::Index(i) => get_entry(&t.paths, i),
        LookupTarget::Hash(h) => match path_list_index(t, h.0) {
            Some(i) => if i != 0xFF_FFFF {
                Lookup::Found(t.paths[i as usize])
            } else {
                Lookup::Missing
            },
            None => Lookup::Missing,
        },
    }
}

} // verus!
