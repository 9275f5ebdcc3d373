//! The loaded-file tables of the running game, as values, and the lookups
//! made in them.
use vstd::prelude::*;

use crate::resource::containers::CppVector;
use crate::unsharing::{FileInfoRec, FilePathRec, FileTables};

verus! {

/// The load state of a file, as this table numbers it.
#[derive(Debug, Copy, Clone, PartialEq, Eq, Structural)]
pub enum FileState {
    Unloaded,
    Unused,
    Unk2,
    Loaded,
}

/// An entry of table 1: which table 2 entry a file path uses.
#[derive(Debug, Copy, Clone, PartialEq, Eq, Structural)]
pub struct Table1Entry {
    pub table2_index: u32,
    pub in_table_2: u32,
}

/// An entry of table 2; `data` is the address of the loaded bytes.
#[derive(Debug, Copy, Clone, PartialEq, Eq, Structural)]
pub struct Table2Entry {
    pub data: usize,
    pub ref_count: u32,
    pub is_used: bool,
    pub state: FileState,
    pub file_flags2: bool,
    pub flags: u8,
    pub version: u32,
    pub unk: u8,
}

/// A table lookup that found nothing.
#[derive(Debug, Copy, Clone, PartialEq, Eq, Structural)]
pub enum LoadError {
    NoTable1,
    NoTable2,
}

impl Table1Entry {
    /// The table 2 entry this entry points at.
    pub fn get_t2_entry<'a>(&self, table_2: &'a [Table2Entry]) -> (r: Result<&'a Table2Entry, LoadError>)
        ensures
            (self.table2_index as int) < table_2@.len() ==> r == Ok::<&Table2Entry, LoadError>(&table_2@[self.table2_index as int]),
            (self.table2_index as int) >= table_2@.len() ==> r == Err::<&Table2Entry, LoadError>(LoadError::NoTable2),
    {
        if (self.table2_index as usize) < table_2.len() {
            Ok(&table_2[self.table2_index as usize])
        } else {
            Err(LoadError::NoTable2)
        }
    }
}

/// An entry of the loaded-directory table; child folders and the
/// redirection are addresses of other entries.
pub struct LoadedDirectory {
    pub directory_offset_index: u32,
    pub ref_count: u32,
    pub flags: u8,
    pub state: FileState,
    pub incoming_request_count: u32,
    pub child_path_indices: CppVector<u32>,
    pub child_folders: CppVector<usize>,
    pub redirection_dir: usize,
}

/// The loaded tables: table 1 by file path index, table 2 by file info
/// indice index.
pub struct LoadedTables {
    pub table1: Vec<Table1Entry>,
    pub table2: Vec<Table2Entry>,
}

impl LoadedTables {
    pub fn table_1(&self) -> (r: &[Table1Entry])
        ensures
            r@ == self.table1@,
    {
        self.table1.as_slice()
    }

    pub fn table_2(&self) -> (r: &[Table2Entry])
        ensures
            r@ == self.table2@,
    {
        self.table2.as_slice()
    }

    /// The table 2 entry of a file path: through its table 1 entry.
    pub fn get_t2(&self, t1_index: u32) -> (r: Result<&Table2Entry, LoadError>)
        ensures
            (t1_index as int) >= self.table1@.len() ==> r == Err::<&Table2Entry, LoadError>(LoadError::NoTable1),
            (t1_index as int) < self.table1@.len() ==> {
                let t2 = self.table1@[t1_index as int].table2_index as int;
                &&& t2 < self.table2@.len() ==> r == Ok::<&Table2Entry, LoadError>(&self.table2@[t2])
                &&& t2 >= self.table2@.len() ==> r == Err::<&Table2Entry, LoadError>(LoadError::NoTable2)
            },
    {
        if (t1_index as usize) >= self.table1.len() {
            return Err(LoadError::NoTable1);
        }
        let t1 = &self.table1[t1_index as usize];
        t1.get_t2_entry(self.table2.as_slice())
    }
}

/// The entry counts in the archive's filesystem header.
#[derive(Debug, Copy, Clone)]
pub struct FsHeaderCounts {
    pub folder_count: u32,
    pub file_info_path_count: u32,
    pub file_info_index_count: u32,
    pub file_info_count: u32,
    pub file_info_sub_index_count: u32,
    pub file_data_count: u32,
    pub file_data_count_2: u32,
    pub extra_count: u32,
    pub extra_count_2: u32,
    pub folder_offset_count_1: u32,
    pub folder_offset_count_2: u32,
}

/// The lengths of the archive's tables.
#[derive(Debug)]
pub struct ArrayLengths {
    pub dir_infos: u32,
    pub file_paths: u32,
    pub file_info_indices: u32,
    pub file_infos: u32,
    pub file_info_to_datas: u32,
    pub file_datas: u32,
    pub folder_offsets: u32,
}

impl ArrayLengths {
    /// The table lengths that the header's counts give.
    pub fn new(fs: &FsHeaderCounts) -> (r: Self)
        requires
            fs.file_info_count + fs.file_data_count_2 + fs.extra_count <= u32::MAX,
            fs.file_info_sub_index_count + fs.file_data_count_2 + fs.extra_count_2 <= u32::MAX,
            fs.file_data_count + fs.file_data_count_2 + fs.extra_count <= u32::MAX,
            fs.folder_offset_count_1 + fs.folder_offset_count_2 <= u32::MAX,
        ensures
            r.dir_infos == fs.folder_count,
            r.file_paths == fs.file_info_path_count,
            r.file_info_indices == fs.file_info_index_count,
            r.file_infos == fs.file_info_count + fs.file_data_count_2 + fs.extra_count,
            r.file_info_to_datas == fs.file_info_sub_index_count + fs.file_data_count_2 + fs.extra_count_2,
            r.file_datas == fs.file_data_count + fs.file_data_count_2 + fs.extra_count,
            r.folder_offsets == fs.folder_offset_count_1 + fs.folder_offset_count_2,
    {
        ArrayLengths {
            dir_infos: fs.folder_count,
            file_paths: fs.file_info_path_count,
            file_info_indices: fs.file_info_index_count,
            file_infos: fs.file_info_count + fs.file_data_count_2 + fs.extra_count,
            file_info_to_datas: fs.file_info_sub_index_count + fs.file_data_count_2 + fs.extra_count_2,
            file_datas: fs.file_data_count + fs.file_data_count_2 + fs.extra_count,
            folder_offsets: fs.folder_offset_count_1 + fs.folder_offset_count_2,
        }
    }
}

/// The lengths of the search section's tables.
pub struct FsSearchBody {
    pub file_path_length: u32,
    pub idx_length: u32,
    pub path_group_length: u32,
}

/// What the loading thread is processing.
#[derive(Debug, Copy, Clone, PartialEq, Eq, Structural)]
pub enum LoadingType {
    Directory,
    Unk1,
    Unk2,
    Unk3,
    File,
}

/// Whether a file info uses the info-index entry `index`.
pub open spec fn uses_info_index(index: u32) -> spec_fn(FileInfoRec) -> bool {
    |f: FileInfoRec| f.file_info_indice_index == index
}

/// Every file info that uses the info-index entry the file path names, in
/// table order.
pub fn get_shared_fileinfos(t: &FileTables, file_path: &FilePathRec) -> (r: Vec<FileInfoRec>)
    ensures
        r@ == t@.fi.filter(uses_info_index(file_path.path_index)),
{
    let mut out: Vec<FileInfoRec> = Vec::new();
    let mut i: usize = 0;
    while i < t.file_infos.len()
        invariant
            i <= t@.fi.len(),
            out@ == t@.fi.subrange(0, i as int).filter(uses_info_index(file_path.path_index)),
        decreases t@.fi.len() - i,
    {
        let ghost sub = t@.fi.subrange(0, i as int + 1);
        assert(sub.drop_last() =~= t@.fi.subrange(0, i as int));
        proof {
            reveal(Seq::filter);
        }
        let info = t.file_infos[i];
        if info.file_info_indice_index == file_path.path_index {
            out.push(info);
        }
        i = i + 1;
    }
    assert(t@.fi.subrange(0, t@.fi.len() as int) =~= t@.fi);
    out
}

} // verus!
