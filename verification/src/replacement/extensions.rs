//! Flags the loader keeps in spare bits of a file info, and archive path
//! entries built from paths.
use vstd::prelude::*;

use crate::replacement::resort::{first_from, path_entries, resort_file_hashes, sort_by_hash, sorted_by_bucket, sorted_by_hash};
use crate::replacement::unshare::AdditionContext;
use crate::runtime::FsHeaderCounts;
use crate::unsharing::{DirRec, DirTables, FileTables};

verus! {

/// The flags word of a file info, as the archive lays it out: the spare
/// 10-bit field `unused4` sits in bits 22..32, the regional flag in bit 15.
#[derive(Debug, Clone, Copy, PartialEq, Eq, Structural)]
pub struct FileInfoFlags {
    bits: u32,
}

/// The spare field of a flags word.
pub open spec fn spec_unused4(bits: u32) -> u32 {
    bits >> 22u32
}

/// The flags word with its spare field replaced.
pub open spec fn spec_with_unused4(bits: u32, v: u32) -> u32 {
    (bits & 0x003F_FFFFu32) | (v << 22u32)
}

/// The flags word with the given bits.
pub closed spec fn flags_from_bits(bits: u32) -> FileInfoFlags {
    FileInfoFlags { bits }
}

/// A flags word is its bits.
pub proof fn lemma_flags_bits(bits: u32, f: FileInfoFlags)
    ensures
        flags_from_bits(bits).spec_bits() == bits,
        flags_from_bits(f.spec_bits()) == f,
{
}

impl FileInfoFlags {
    pub closed spec fn spec_bits(&self) -> u32 {
        self.bits
    }

    pub fn from_bits(bits: u32) -> (r: Self)
        ensures
            r.spec_bits() == bits,
    {
        FileInfoFlags { bits }
    }

    pub fn bits(&self) -> (r: u32)
        ensures
            r == self.spec_bits(),
    {
        self.bits
    }

    /// The spare 10-bit field.
    pub fn unused4(&self) -> (r: u16)
        ensures
            r as u32 == spec_unused4(self.spec_bits()),
            r < 1024,
    {
        let b = self.bits;
        let v = b >> 22u32;
        assert(v < 1024) by (bit_vector)
            requires v == b >> 22u32;
        v as u16
    }

    /// Sets the spare 10-bit field; the other fields stay.
    pub fn set_unused4(&mut self, v: u16)
        requires
            v < 1024,
        ensures
            final(self).spec_bits() == spec_with_unused4(old(self).spec_bits(), v as u32),
    {
        let b = self.bits;
        self.bits = (b & 0x003F_FFFFu32) | ((v as u32) << 22u32);
    }

    /// Whether the file has regional variants.
    pub fn is_regional(&self) -> (r: bool)
        ensures
            r == ((self.spec_bits() >> 15u32) & 1 == 1),
    {
        (self.bits >> 15u32) & 1 == 1
    }

    /// Whether the file has one variant per locale.
    pub fn is_localized(&self) -> (r: bool)
        ensures
            r == ((self.spec_bits() >> 16u32) & 1 == 1),
    {
        (self.bits >> 16u32) & 1 == 1
    }

    /// Sets the regional flag; the other bits stay.
    pub fn set_is_regional(&mut self, x: bool)
        ensures
            ((final(self).spec_bits() >> 15u32) & 1 == 1) == x,
            final(self).spec_bits() & !0x8000u32 == old(self).spec_bits() & !0x8000u32,
            *final(self) == flags_from_bits(if x { old(self).spec_bits() | 0x8000u32 } else { old(self).spec_bits() & !0x8000u32 }),
    {
        let b = self.bits;
        let nb = if x { b | 0x8000u32 } else { b & !0x8000u32 };
        assert(((nb >> 15u32) & 1 == 1) == x && nb & !0x8000u32 == b & !0x8000u32) by (bit_vector)
            requires nb == if x { b | 0x8000u32 } else { b & !0x8000u32 };
        self.bits = nb;
    }
}

/// The flags word with one of the loader's flags (`mask`) set to `x`.
pub open spec fn spec_with_flag(bits: u32, mask: u32, x: bool) -> u32 {
    spec_with_unused4(bits, if x { (bits >> 22u32) | mask } else { (bits >> 22u32) & !mask })
}

/// The file is loaded on its own, not as part of its directory.
pub open spec fn spec_standalone(bits: u32) -> bool {
    spec_unused4(bits) & 1 != 0
}

/// The file's sound bank was unshared.
pub open spec fn spec_unshared_nus3bank(bits: u32) -> bool {
    spec_unused4(bits) & 2 != 0
}

/// The file was added as a new shared file.
pub open spec fn spec_new_shared(bits: u32) -> bool {
    spec_unused4(bits) & 4 != 0
}

/// The loader's flags on a file info.
pub trait FileInfoFlagsExt {
    fn standalone_file(&self) -> bool;

    fn unshared_nus3bank(&self) -> bool;

    fn new_shared_file(&self) -> bool;

    fn set_standalone_file(&mut self, x: bool);

    fn set_unshared_nus3bank(&mut self, x: bool);

    fn set_new_shared_file(&mut self, x: bool);
}

proof fn lemma_set_flag(bits: u32, mask: u32, x: bool, nb: u32)
    requires
        mask == 1 || mask == 2 || mask == 4,
        nb == spec_with_unused4(bits, if x { (bits >> 22u32) | mask } else { (bits >> 22u32) & !mask }),
    ensures
        (spec_unused4(nb) & mask != 0) == x,
        nb & 0x003F_FFFFu32 == bits & 0x003F_FFFFu32,
        mask != 1 ==> (spec_unused4(nb) & 1 != 0) == (spec_unused4(bits) & 1 != 0),
        mask != 2 ==> (spec_unused4(nb) & 2 != 0) == (spec_unused4(bits) & 2 != 0),
        mask != 4 ==> (spec_unused4(nb) & 4 != 0) == (spec_unused4(bits) & 4 != 0),
{
    if x {
        assert((((bits & 0x003F_FFFFu32) | (((bits >> 22u32) | mask) << 22u32)) >> 22u32) & mask != 0) by (bit_vector)
            requires mask == 1 || mask == 2 || mask == 4;
        assert(((bits & 0x003F_FFFFu32) | (((bits >> 22u32) | mask) << 22u32)) & 0x003F_FFFFu32 == bits & 0x003F_FFFFu32) by (bit_vector);
        assert(forall|m: u32| (m == 1 || m == 2 || m == 4) && m != mask ==>
            ((((bits & 0x003F_FFFFu32) | (((bits >> 22u32) | mask) << 22u32)) >> 22u32) & m != 0) == ((bits >> 22u32) & m != 0)) by (bit_vector)
            requires mask == 1 || mask == 2 || mask == 4;
    } else {
        assert((((bits & 0x003F_FFFFu32) | (((bits >> 22u32) & !mask) << 22u32)) >> 22u32) & mask == 0) by (bit_vector)
            requires mask == 1 || mask == 2 || mask == 4;
        assert(((bits & 0x003F_FFFFu32) | (((bits >> 22u32) & !mask) << 22u32)) & 0x003F_FFFFu32 == bits & 0x003F_FFFFu32) by (bit_vector);
        assert(forall|m: u32| (m == 1 || m == 2 || m == 4) && m != mask ==>
            ((((bits & 0x003F_FFFFu32) | (((bits >> 22u32) & !mask) << 22u32)) >> 22u32) & m != 0) == ((bits >> 22u32) & m != 0)) by (bit_vector)
            requires mask == 1 || mask == 2 || mask == 4;
    }
}

impl FileInfoFlags {
    fn set_flag(&mut self, mask: u16, x: bool)
        requires
            mask == 1 || mask == 2 || mask == 4,
        ensures
            final(self).spec_bits() == spec_with_flag(old(self).spec_bits(), mask as u32, x),
            (spec_unused4(final(self).spec_bits()) & (mask as u32) != 0) == x,
            final(self).spec_bits() & 0x003F_FFFFu32 == old(self).spec_bits() & 0x003F_FFFFu32,
            mask != 1 ==> spec_standalone(final(self).spec_bits()) == spec_standalone(old(self).spec_bits()),
            mask != 2 ==> spec_unshared_nus3bank(final(self).spec_bits()) == spec_unshared_nus3bank(old(self).spec_bits()),
            mask != 4 ==> spec_new_shared(final(self).spec_bits()) == spec_new_shared(old(self).spec_bits()),
    {
        let cur = self.unused4();
        let v = if x { cur | mask } else { cur & !mask };
        let ghost b = self.bits;
        let ghost m32 = mask as u32;
        proof {
            let c32 = cur as u32;
            if x {
                assert((cur | mask) as u32 == c32 | m32 && (c32 | m32) < 1024) by (bit_vector)
                    requires cur < 1024, mask < 8, c32 == cur as u32, m32 == mask as u32;
            } else {
                assert((cur & !mask) as u32 == c32 & !m32 && (c32 & !m32) < 1024) by (bit_vector)
                    requires cur < 1024, mask < 8, c32 == cur as u32, m32 == mask as u32;
            }
        }
        self.set_unused4(v);
        proof {
            lemma_set_flag(b, m32, x, self.bits);
        }
    }
}

impl FileInfoFlagsExt for FileInfoFlags {
    fn standalone_file(&self) -> (r: bool)
        ensures
            r == spec_standalone(self.spec_bits()),
    {
        self.unused4() & 1 != 0
    }

    fn set_standalone_file(&mut self, x: bool)
        ensures
            final(self).spec_bits() == spec_with_flag(old(self).spec_bits(), 1, x),
            spec_standalone(final(self).spec_bits()) == x,
            spec_unshared_nus3bank(final(self).spec_bits()) == spec_unshared_nus3bank(old(self).spec_bits()),
            spec_new_shared(final(self).spec_bits()) == spec_new_shared(old(self).spec_bits()),
            final(self).spec_bits() & 0x003F_FFFFu32 == old(self).spec_bits() & 0x003F_FFFFu32,
    {
        self.set_flag(1, x);
    }

    fn new_shared_file(&self) -> (r: bool)
        ensures
            r == spec_new_shared(self.spec_bits()),
    {
        self.unused4() & 4 != 0
    }

    fn set_new_shared_file(&mut self, x: bool)
        ensures
            final(self).spec_bits() == spec_with_flag(old(self).spec_bits(), 4, x),
            spec_new_shared(final(self).spec_bits()) == x,
            spec_standalone(final(self).spec_bits()) == spec_standalone(old(self).spec_bits()),
            spec_unshared_nus3bank(final(self).spec_bits()) == spec_unshared_nus3bank(old(self).spec_bits()),
            final(self).spec_bits() & 0x003F_FFFFu32 == old(self).spec_bits() & 0x003F_FFFFu32,
    {
        self.set_flag(4, x);
    }

    fn unshared_nus3bank(&self) -> (r: bool)
        ensures
            r == spec_unshared_nus3bank(self.spec_bits()),
    {
        self.unused4() & 2 != 0
    }

    fn set_unshared_nus3bank(&mut self, x: bool)
        ensures
            final(self).spec_bits() == spec_with_flag(old(self).spec_bits(), 2, x),
            spec_unshared_nus3bank(final(self).spec_bits()) == x,
            spec_standalone(final(self).spec_bits()) == spec_standalone(old(self).spec_bits()),
            spec_new_shared(final(self).spec_bits()) == spec_new_shared(old(self).spec_bits()),
            final(self).spec_bits() & 0x003F_FFFFu32 == old(self).spec_bits() & 0x003F_FFFFu32,
    {
        self.set_flag(2, x);
    }
}

/// `i` is the first position of a pair with this hash.
pub open spec fn is_first_pair(pairs: Seq<(u64, u32)>, hash: u64, i: int) -> bool {
    &&& 0 <= i < pairs.len()
    &&& pairs[i].0 == hash
    &&& forall|j: int| 0 <= j < i ==> pairs[j].0 != hash
}

impl AdditionContext {
    /// The position of the first (hash, index) pair with this hash.
    fn first_pair_position(&self, hash: u64) -> (r: Option<usize>)
        ensures
            match r {
                Some(i) => is_first_pair(self.dir_hash_to_index@, hash, i as int),
                None => forall|j: int| 0 <= j < self.dir_hash_to_index@.len() ==> self.dir_hash_to_index@[j].0 != hash,
            },
    {
        let mut i: usize = 0;
        while i < self.dir_hash_to_index.len()
            invariant
                i <= self.dir_hash_to_index@.len(),
                forall|j: int| 0 <= j < i ==> self.dir_hash_to_index@[j].0 != hash,
            decreases self.dir_hash_to_index@.len() - i,
        {
            if self.dir_hash_to_index[i].0 == hash {
                return Some(i);
            }
            i = i + 1;
        }
        None
    }

    /// The directory at the position of the first (hash, index) pair with
    /// this hash: the position, not the index the pair holds, picks the
    /// directory. `None` where no pair has the hash.
    pub fn get_dir_info_from_hash_ctx(&self, hash: u64) -> (r: Option<&DirRec>)
        requires
            forall|i: int| is_first_pair(self.dir_hash_to_index@, hash, i) ==> i < self.dirs@.len(),
        ensures
            match r {
                Some(d) => exists|i: int| is_first_pair(self.dir_hash_to_index@, hash, i) && *d == self.dirs@[i],
                None => forall|j: int| 0 <= j < self.dir_hash_to_index@.len() ==> self.dir_hash_to_index@[j].0 != hash,
            },
    {
        match self.first_pair_position(hash) {
            Some(i) => Some(&self.dirs[i]),
            None => None,
        }
    }

    /// The directory at the position of the first (hash, index) pair with
    /// this hash, to change in place; `None` where no pair has the hash.
    pub fn get_dir_info_from_hash_ctx_mut(&mut self, hash: u64) -> (r: Option<&mut DirRec>)
        requires
            forall|i: int| is_first_pair(old(self).dir_hash_to_index@, hash, i) ==> i < old(self).dirs@.len(),
        ensures
            match r {
                Some(d) => exists|i: int| #![trigger old(self).dirs@[i]] is_first_pair(old(self).dir_hash_to_index@, hash, i)
                    && *d == old(self).dirs@[i]
                    && final(self).dirs@ == old(self).dirs@.update(i, *final(d)),
                None => forall|j: int| 0 <= j < old(self).dir_hash_to_index@.len() ==> old(self).dir_hash_to_index@[j].0 != hash,
            },
            final(self).dir_hash_to_index == old(self).dir_hash_to_index,
            final(self).files == old(self).files,
            final(self).arc == old(self).arc,
            final(self).loaded_filepaths == old(self).loaded_filepaths,
    {
        match self.first_pair_position(hash) {
            Some(i) => Some(&mut self.dirs[i]),
            None => None,
        }
    }
}

/// The path hashes of the file paths.
pub open spec fn path_hashes_of(t: FileTables) -> Seq<u64> {
    t.file_paths@.map_values(|p: crate::unsharing::FilePathRec| p.path_hash)
}

/// Installs the tables a context built: the file tables become the
/// context's, the header counts their lengths (as 32-bit counts), the
/// loaded-file-path count the context's, the
/// directories the context's, and the directory hash table the context's
/// sorted by hash; the file hash table is rebuilt over `bucket_count`
/// buckets and returned with the bucket headers. The child slots of the
/// directories stay as they are: the contexts this library builds add no
/// directories.
pub fn apply_context(
    t: &mut FileTables,
    d: &mut DirTables,
    hdr: &mut FsHeaderCounts,
    loaded_filepath_len: &mut u32,
    ctx: AdditionContext,
    bucket_count: u64,
) -> (r: (Vec<(u64, u32)>, Vec<(u32, u32)>))
    requires
        bucket_count > 0,
        bucket_count <= usize::MAX,
        ctx.files@.fp.len() < 0x100_0000,
    ensures
        *final(t) == ctx.files,
        *final(loaded_filepath_len) == ctx.loaded_filepaths as u32,
        final(hdr).file_info_path_count == ctx.files@.fp.len() as u32,
        final(hdr).file_info_index_count == ctx.files@.ii.len() as u32,
        final(hdr).file_info_count == ctx.files@.fi.len() as u32,
        final(hdr).file_info_sub_index_count == ctx.files@.itd.len() as u32,
        final(hdr).file_data_count == ctx.files@.datas.len() as u32,
        final(hdr).folder_count == ctx.dirs@.len() as u32,
        final(hdr).file_data_count_2 == old(hdr).file_data_count_2,
        final(hdr).extra_count == old(hdr).extra_count,
        final(hdr).extra_count_2 == old(hdr).extra_count_2,
        final(hdr).folder_offset_count_1 == old(hdr).folder_offset_count_1,
        final(hdr).folder_offset_count_2 == old(hdr).folder_offset_count_2,
        final(d).dirs@ == ctx.dirs@,
        final(d).dir_hash_to_index@.to_multiset() == ctx.dir_hash_to_index@.to_multiset(),
        sorted_by_hash(final(d).dir_hash_to_index@),
        final(d).child_hashes@ == old(d).child_hashes@,
        final(d).group_dir_index@ == old(d).group_dir_index@,
        r.0@.to_multiset() == path_entries(path_hashes_of(ctx.files)).to_multiset(),
        sorted_by_bucket(r.0@, bucket_count),
        r.1@.len() == bucket_count,
        forall|b: int| 0 <= b < bucket_count ==> {
            &&& (#[trigger] r.1@[b]).0 as int == first_from(r.0@, b, bucket_count, 0)
            &&& r.1@[b].0 + r.1@[b].1 == first_from(r.0@, b + 1, bucket_count, 0)
        },
{
    let AdditionContext { files, arc: _, dirs, dir_hash_to_index, loaded_filepaths } = ctx;
    *loaded_filepath_len = loaded_filepaths as u32;
    let mut sorted = dir_hash_to_index;
    sort_by_hash(&mut sorted);
    hdr.file_info_path_count = files.file_paths.len() as u32;
    hdr.file_info_index_count = files.info_indices.len() as u32;
    hdr.file_info_count = files.file_infos.len() as u32;
    hdr.file_info_sub_index_count = files.info_to_datas.len() as u32;
    hdr.file_data_count = files.datas.len() as u32;
    hdr.folder_count = dirs.len() as u32;
    let mut hashes: Vec<u64> = Vec::new();
    let mut i: usize = 0;
    while i < files.file_paths.len()
        invariant
            i <= files.file_paths@.len(),
            hashes@ == files.file_paths@.subrange(0, i as int).map_values(|p: crate::unsharing::FilePathRec| p.path_hash),
        decreases files.file_paths@.len() - i,
    {
        hashes.push(files.file_paths[i].path_hash);
        proof {
            assert(files.file_paths@.subrange(0, i + 1).map_values(|p: crate::unsharing::FilePathRec| p.path_hash)
                =~= files.file_paths@.subrange(0, i as int).map_values(|p: crate::unsharing::FilePathRec| p.path_hash).push(files.file_paths@[i as int].path_hash));
        }
        i = i + 1;
    }
    proof {
        assert(files.file_paths@.subrange(0, files.file_paths@.len() as int) =~= files.file_paths@);
    }
    let table = resort_file_hashes(&hashes, bucket_count);
    *t = files;
    d.dirs = dirs;
    d.dir_hash_to_index = sorted;
    table
}

} // verus!
