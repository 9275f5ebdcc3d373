//! The game's tables of loaded files and directories, as values.
use vstd::prelude::*;

use super::containers::CppVector;

verus! {

/// The load state of a file's data.
#[derive(Debug, Copy, Clone, PartialEq, Eq, Structural)]
pub enum LoadState {
    Unused,
    Unloaded,
    Unknown,
    Loaded,
}

/// An entry of the file path table: which loaded-data entry the path uses.
#[derive(Copy, Clone, Debug, PartialEq, Eq, Structural)]
pub struct LoadedFilepath {
    pub loaded_data_index: u32,
    pub is_loaded: u32,
}

/// An entry of the loaded-data table; `data` is the address of the loaded
/// bytes, 0 when there are none.
#[derive(Copy, Clone, Debug, PartialEq, Eq, Structural)]
pub struct LoadedData {
    pub data: usize,
    pub ref_count: u32,
    pub is_used: bool,
    pub state: LoadState,
    pub file_flags2: bool,
    pub flags: u8,
    pub version: u32,
    pub unk: u8,
}

/// An entry of the loaded-directory table; the child folders and the
/// redirection are addresses of other entries.
pub struct LoadedDirectory {
    pub file_group_index: u32,
    pub ref_count: u32,
    pub flags: u8,
    pub state: LoadState,
    pub incoming_request_count: u32,
    pub child_path_indices: CppVector<u32>,
    pub child_folders: CppVector<usize>,
    pub redirection_directory: usize,
}

/// The tables of loaded files that the resource service keeps.
pub struct FilesystemInfo {
    pub loaded_filepaths: Vec<LoadedFilepath>,
    pub loaded_datas: Vec<LoadedData>,
    pub loaded_directories: Vec<LoadedDirectory>,
}

impl FilesystemInfo {
    pub fn get_loaded_filepaths(&self) -> (r: &[LoadedFilepath])
        ensures
            r@ == self.loaded_filepaths@,
    {
        self.loaded_filepaths.as_slice()
    }

    pub fn get_loaded_datas(&self) -> (r: &[LoadedData])
        ensures
            r@ == self.loaded_datas@,
    {
        self.loaded_datas.as_slice()
    }

    pub fn get_loaded_directories(&self) -> (r: &[LoadedDirectory])
        ensures
            r@ == self.loaded_directories@,
    {
        self.loaded_directories.as_slice()
    }
}

/// The loaded-data entry that a file path entry uses.
pub fn data_for<'a>(datas: &'a [LoadedData], path: &LoadedFilepath) -> (r: &'a LoadedData)
    requires
        (path.loaded_data_index as int) < datas@.len(),
    ensures
        *r == datas@[path.loaded_data_index as int],
{
    &datas[path.loaded_data_index as usize]
}

/// What the loading thread is processing.
#[derive(Debug, Copy, Clone, PartialEq, Eq, Structural)]
pub enum LoadingType {
    Directory,
    Unk1,
    Unk2,
    Unk3,
    File,
}

/// A buffer handed to the decompressor: its bytes.
pub struct InflateFile {
    pub content: Vec<u8>,
}

impl InflateFile {
    pub fn len(&self) -> (r: usize)
        ensures
            r == self.content@.len(),
    {
        self.content.len()
    }

    pub fn as_slice(&self) -> (r: &[u8])
        ensures
            r@ == self.content@,
    {
        self.content.as_slice()
    }
}

/// Why a file path is broken: its data index is the "none" marker, or its
/// data is not loaded although the path says it is.
#[derive(Debug, Copy, Clone, PartialEq, Eq, Structural)]
pub enum BrokenReason {
    InvalidDataIdx,
    DataUnloaded,
}

/// Whether and why a loaded file path is broken.
pub open spec fn broken_reason(table1: Seq<LoadedFilepath>, table2: Seq<LoadedData>, idx: int) -> Option<BrokenReason> {
    let entry = table1[idx];
    if entry.is_loaded != 0 {
        if entry.loaded_data_index == 0xFF_FFFF {
            Some(BrokenReason::InvalidDataIdx)
        } else if table2[entry.loaded_data_index as int].state != LoadState::Loaded {
            Some(BrokenReason::DataUnloaded)
        } else {
            None
        }
    } else {
        None
    }
}

/// The broken file paths, by path index, in order.
pub open spec fn spec_broken_filepaths(table1: Seq<LoadedFilepath>, table2: Seq<LoadedData>, n: int) -> Seq<(usize, BrokenReason)>
    decreases n,
{
    if n <= 0 {
        Seq::empty()
    } else {
        let rest = spec_broken_filepaths(table1, table2, n - 1);
        match broken_reason(table1, table2, n - 1) {
            Some(reason) => rest.push(((n - 1) as usize, reason)),
            None => rest,
        }
    }
}

/// Every loaded file path whose data is missing or not loaded, with the reason.
pub fn broken_filepaths(table1: &[LoadedFilepath], table2: &[LoadedData]) -> (r: Vec<(usize, BrokenReason)>)
    requires
        forall|i: int| 0 <= i < table1@.len() && (#[trigger] table1@[i]).is_loaded != 0
            && table1@[i].loaded_data_index != 0xFF_FFFF ==> (table1@[i].loaded_data_index as int) < table2@.len(),
    ensures
        r@ == spec_broken_filepaths(table1@, table2@, table1@.len() as int),
{
    let mut out: Vec<(usize, BrokenReason)> = Vec::new();
    let mut i: usize = 0;
    while i < table1.len()
        invariant
            i <= table1@.len(),
            forall|k: int| 0 <= k < table1@.len() && (#[trigger] table1@[k]).is_loaded != 0
                && table1@[k].loaded_data_index != 0xFF_FFFF ==> (table1@[k].loaded_data_index as int) < table2@.len(),
            out@ == spec_broken_filepaths(table1@, table2@, i as int),
        decreases table1@.len() - i,
    {
        let entry = table1[i];
        if entry.is_loaded != 0 {
            if entry.loaded_data_index == 0xFF_FFFF {
                out.push((i, BrokenReason::InvalidDataIdx));
            } else if table2[entry.loaded_data_index as usize].state != LoadState::Loaded {
                out.push((i, BrokenReason::DataUnloaded));
            }
        }
        i = i + 1;
    }
    out
}

} // verus!
