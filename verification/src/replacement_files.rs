//! The files that mods replace, and where their contents come from.
use vstd::prelude::*;

use crate::hashing::{spec_hash40, Hash40};
use crate::path::{chars_of, str_eq};
use crate::path::extension;
use crate::visit::ModFile;

pub mod gather;

verus! {

/// The region codes, in the order the archive numbers them (from 1).
pub open spec fn region_codes() -> Seq<Seq<char>> {
    seq![
        "jp_ja"@, "us_en"@, "us_fr"@, "us_es"@, "eu_en"@, "eu_fr"@, "eu_es"@, "eu_de"@, "eu_nl"@, "eu_it"@,
        "eu_ru"@, "kr_ko"@, "zh_cn"@, "zh_tw"@,
    ]
}

fn region_codes_vec() -> (r: Vec<&'static str>)
    ensures
        r@.map_values(|s: &str| s@) == region_codes(),
{
    let r = vec![
        "jp_ja", "us_en", "us_fr", "us_es", "eu_en", "eu_fr", "eu_es", "eu_de", "eu_nl", "eu_it",
        "eu_ru", "kr_ko", "zh_cn", "zh_tw",
    ];
    assert(r@.map_values(|s: &str| s@) =~= region_codes());
    r
}

/// `i` is the first position of the code in the region table.
pub open spec fn is_region_id(code: Seq<char>, i: int) -> bool {
    0 <= i < region_codes().len() && region_codes()[i] == code
        && forall|j: int| 0 <= j < i ==> region_codes()[j] != code
}

/// The position of a region code in the region table (from 0).
pub fn get_region_id(region: &str) -> (r: Option<u32>)
    ensures
        match r {
            Some(i) => is_region_id(region@, i as int),
            None => !region_codes().contains(region@),
        },
{
    let codes = region_codes_vec();
    let target = chars_of(region);
    assert(codes@.len() == 14) by {
        assert(codes@.map_values(|s: &str| s@).len() == 14);
    }
    let mut i: usize = 0;
    while i < codes.len()
        invariant
            codes@.map_values(|s: &str| s@) == region_codes(),
            codes@.len() == 14,
            target@ == region@,
            i <= codes@.len(),
            forall|j: int| 0 <= j < i ==> region_codes()[j] != region@,
        decreases codes@.len() - i,
    {
        proof {
            assert(region_codes()[i as int] == codes@[i as int]@);
        }
        if str_eq(codes[i], &target) {
            return Some(i as u32);
        }
        i = i + 1;
    }
    proof {
        if region_codes().contains(region@) {
            let j = choose|j: int| 0 <= j < region_codes().len() && region_codes()[j] == region@;
            assert(j < i);
        }
    }
    None
}

/// Which file a replacement is for: an archive file by its info-indice
/// index, or a streamed file by its hash.
#[derive(Debug, Clone, Copy, PartialEq, Eq, PartialOrd, Ord, Hash)]
pub enum FileIndex {
    Regular(u32),
    Stream(Hash40),
}

/// Where a replaced file's contents come from: the archive itself, a mod
/// file, or a callback that may fall back to what it replaced.
pub enum FileBacking<C> {
    LoadFromArc,
    ModFile(ModFile),
    Callback { callback: CallbackKind<C>, original: Box<FileBacking<C>> },
}

/// A replaced file: where its contents come from, its hash and its
/// info-indice index.
pub struct FileCtx<C> {
    pub file: FileBacking<C>,
    pub hash: Hash40,
    pub index: u32,
}

impl<C> FileCtx<C> {
    /// A file read from the archive, with no hash or index yet.
    pub fn new() -> (r: Self)
        ensures
            r.file is LoadFromArc,
            r.hash == Hash40(0),
            r.index == 0,
    {
        FileCtx { file: FileBacking::LoadFromArc, hash: Hash40(0), index: 0 }
    }
}

/// What the inflate thread is loading at the moment.
pub enum IncomingLoad {
    Index(FileIndex),
    ExtCallback(Hash40, u32),
    Idle,
}

/// A function registered by a plugin to produce a file's contents.
pub enum CallbackKind<C> {
    /// For an archive file; `len` is the size of the buffer it fills.
    Regular { callback: C, len: u32 },
    /// For a streamed file.
    Stream { callback: C },
}

/// A mod file found on disk for an archive path, with the info-indice index
/// the archive gives that path (`None` where the archive lacks it).
pub struct ModCandidate {
    pub hash: Hash40,
    pub file: ModFile,
    pub info_index: Option<u32>,
}

/// A callback registered for a hash, the callback that was registered for it
/// before (if any), and the info-indice index the archive gives that hash
/// (looked at for regular callbacks only).
pub struct CallbackEntry<C> {
    pub hash: Hash40,
    pub kind: CallbackKind<C>,
    pub previous: Option<CallbackKind<C>>,
    pub info_index: Option<u32>,
}

/// The keys of a list of replaced files are distinct.
pub open spec fn keys_distinct<C>(m: Seq<(FileIndex, FileCtx<C>)>) -> bool {
    forall|i: int, j: int| 0 <= i < j < m.len() ==> (#[trigger] m[i]).0 != (#[trigger] m[j]).0
}

/// What the list holds for a key.
pub open spec fn lookup<C>(m: Seq<(FileIndex, FileCtx<C>)>, k: FileIndex) -> Option<FileCtx<C>>
    decreases m.len(),
{
    if m.len() == 0 {
        None
    } else if m.last().0 == k {
        Some(m.last().1)
    } else {
        lookup(m.drop_last(), k)
    }
}

/// A list of replaced files as a map.
pub open spec fn as_map<C>(m: Seq<(FileIndex, FileCtx<C>)>) -> Map<FileIndex, FileCtx<C>> {
    Map::new(|k: FileIndex| lookup(m, k) is Some, |k: FileIndex| lookup(m, k)->0)
}

/// The file a mod candidate replaces.
pub open spec fn candidate_ctx<C>(c: ModCandidate) -> FileCtx<C> {
    FileCtx { file: FileBacking::ModFile(c.file), hash: c.hash, index: c.info_index->0 }
}

/// The replaced files after the first `n` mod candidates: those the
/// archive has are kept, by info-indice index, a later one replacing an
/// earlier one with the same index.
pub open spec fn files_upto<C>(c: Seq<ModCandidate>, n: int) -> Map<FileIndex, FileCtx<C>>
    decreases n,
{
    if n <= 0 {
        Map::empty()
    } else {
        let m = files_upto::<C>(c, n - 1);
        match c[n - 1].info_index {
            Some(i) => m.insert(FileIndex::Regular(i), candidate_ctx(c[n - 1])),
            None => m,
        }
    }
}

/// The replaced files after the first `n` streamed files were laid over `m`.
pub open spec fn streams_upto<C>(m: Map<FileIndex, FileCtx<C>>, st: Seq<(Hash40, ModFile)>, n: int) -> Map<FileIndex, FileCtx<C>>
    decreases n,
{
    if n <= 0 {
        m
    } else {
        streams_upto(m, st, n - 1).insert(FileIndex::Stream(st[n - 1].0),
            FileCtx { file: FileBacking::ModFile(st[n - 1].1), hash: st[n - 1].0, index: 0 })
    }
}

/// The backing after a callback is laid over what a file had: the new
/// callback comes first, then the callback before it if there was one,
/// then what the file had.
pub open spec fn layered<C>(callback: CallbackKind<C>, previous: Option<CallbackKind<C>>, had: FileBacking<C>) -> FileBacking<C> {
    match previous {
        Some(p) => FileBacking::Callback {
            callback,
            original: Box::new(FileBacking::Callback { callback: p, original: Box::new(had) }),
        },
        None => FileBacking::Callback { callback, original: Box::new(had) },
    }
}

/// Where a callback entry goes, if anywhere: a regular callback needs the
/// archive to know its hash.
pub open spec fn callback_key<C>(e: CallbackEntry<C>) -> Option<FileIndex> {
    match e.kind {
        CallbackKind::Regular { .. } => match e.info_index {
            Some(i) => Some(FileIndex::Regular(i)),
            None => None,
        },
        CallbackKind::Stream { .. } => Some(FileIndex::Stream(e.hash)),
    }
}

/// The replaced files after the first `n` callbacks were laid over `m`: a
/// file that has a replacement gets the callback laid over it; another gets
/// the callback over the archive's own contents.
pub open spec fn callbacks_upto<C>(m: Map<FileIndex, FileCtx<C>>, cbs: Seq<CallbackEntry<C>>, n: int) -> Map<FileIndex, FileCtx<C>>
    decreases n,
{
    if n <= 0 {
        m
    } else {
        let prev = callbacks_upto(m, cbs, n - 1);
        let e = cbs[n - 1];
        let callback = e.kind;
        let previous = e.previous;
        match callback_key(e) {
            Some(k) => if prev.contains_key(k) {
                prev.insert(k, FileCtx { file: layered(callback, previous, prev[k].file), hash: prev[k].hash, index: prev[k].index })
            } else {
                prev.insert(k, FileCtx {
                    file: FileBacking::Callback { callback, original: Box::new(FileBacking::LoadFromArc) },
                    hash: e.hash,
                    index: match k { FileIndex::Regular(i) => i, FileIndex::Stream(_) => 0 },
                })
            },
            None => prev,
        }
    }
}

fn same_index(a: FileIndex, b: FileIndex) -> (r: bool)
    ensures
        r == (a == b),
{
    match a {
        FileIndex::Regular(x) => match b {
            FileIndex::Regular(y) => x == y,
            FileIndex::Stream(_) => false,
        },
        FileIndex::Stream(x) => match b {
            FileIndex::Regular(_) => false,
            FileIndex::Stream(y) => x.0 == y.0,
        },
    }
}

proof fn lemma_lookup_distinct<C>(m: Seq<(FileIndex, FileCtx<C>)>, i: int)
    requires
        keys_distinct(m),
        0 <= i < m.len(),
    ensures
        lookup(m, m[i].0) == Some(m[i].1),
    decreases m.len(),
{
    if i < m.len() - 1 {
        assert(m.last().0 != m[i].0) by {
            assert(m[i].0 != m[m.len() - 1].0);
        }
        assert(m.drop_last()[i] == m[i]);
        lemma_lookup_distinct(m.drop_last(), i);
    }
}

proof fn lemma_lookup_absent<C>(m: Seq<(FileIndex, FileCtx<C>)>, k: FileIndex)
    requires
        forall|i: int| 0 <= i < m.len() ==> (#[trigger] m[i]).0 != k,
    ensures
        lookup(m, k) is None,
    decreases m.len(),
{
    if m.len() > 0 {
        assert(m.last() == m[m.len() - 1]);
        assert forall|i: int| 0 <= i < m.drop_last().len() implies (#[trigger] m.drop_last()[i]).0 != k by {
            assert(m.drop_last()[i] == m[i]);
        }
        lemma_lookup_absent(m.drop_last(), k);
    }
}

proof fn lemma_lookup_push<C>(m: Seq<(FileIndex, FileCtx<C>)>, e: (FileIndex, FileCtx<C>))
    ensures
        as_map(m.push(e)) == as_map(m).insert(e.0, e.1),
{
    assert(m.push(e).drop_last() =~= m);
    assert(as_map(m.push(e)) =~= as_map(m).insert(e.0, e.1));
}

proof fn lemma_lookup_update<C>(m: Seq<(FileIndex, FileCtx<C>)>, i: int, v: FileCtx<C>)
    requires
        keys_distinct(m),
        0 <= i < m.len(),
    ensures
        keys_distinct(m.update(i, (m[i].0, v))),
        as_map(m.update(i, (m[i].0, v))) == as_map(m).insert(m[i].0, v),
{
    let m2 = m.update(i, (m[i].0, v));
    assert forall|a: int, b: int| 0 <= a < b < m2.len() implies (#[trigger] m2[a]).0 != (#[trigger] m2[b]).0 by {
        assert(m2[a].0 == m[a].0 && m2[b].0 == m[b].0);
        assert(m[a].0 != m[b].0);
    }
    assert forall|k: FileIndex| #[trigger] lookup(m2, k) == (if k == m[i].0 { Some(v) } else { lookup(m, k) }) by {
        if k == m[i].0 {
            lemma_lookup_distinct(m2, i);
        } else {
            if exists|j: int| 0 <= j < m.len() && (#[trigger] m[j]).0 == k {
                let j = choose|j: int| 0 <= j < m.len() && (#[trigger] m[j]).0 == k;
                lemma_lookup_distinct(m, j);
                assert(m2[j] == m[j]);
                lemma_lookup_distinct(m2, j);
            } else {
                lemma_lookup_absent(m, k);
                assert forall|j: int| 0 <= j < m2.len() implies (#[trigger] m2[j]).0 != k by {
                    assert(m2[j].0 == m[j].0);
                }
                lemma_lookup_absent(m2, k);
            }
        }
    }
    assert(as_map(m2) =~= as_map(m).insert(m[i].0, v));
}

fn find_key<C>(m: &Vec<(FileIndex, FileCtx<C>)>, k: FileIndex) -> (r: Option<usize>)
    ensures
        match r {
            Some(i) => i < m@.len() && m@[i as int].0 == k,
            None => forall|i: int| 0 <= i < m@.len() ==> (#[trigger] m@[i]).0 != k,
        },
{
    let mut i: usize = 0;
    while i < m.len()
        invariant
            i <= m@.len(),
            forall|j: int| 0 <= j < i ==> (#[trigger] m@[j]).0 != k,
        decreases m@.len() - i,
    {
        if same_index(m[i].0, k) {
            return Some(i);
        }
        i = i + 1;
    }
    None
}

/// Puts a file under a key: in place of the file the key had, or added.
fn put<C>(m: &mut Vec<(FileIndex, FileCtx<C>)>, k: FileIndex, v: FileCtx<C>)
    requires
        keys_distinct(old(m)@),
    ensures
        keys_distinct(final(m)@),
        as_map(final(m)@) == as_map(old(m)@).insert(k, v),
{
    match find_key(m, k) {
        Some(i) => {
            let ghost before = m@;
            let _ = m.remove(i);
            m.insert(i, (k, v));
            proof {
                assert(m@ =~= before.update(i as int, (before[i as int].0, v)));
                lemma_lookup_update(before, i as int, v);
            }
        },
        None => {
            let ghost before = m@;
            m.push((k, v));
            proof {
                lemma_lookup_push(before, (k, v));
                assert forall|a: int, b: int| 0 <= a < b < m@.len() implies (#[trigger] m@[a]).0 != (#[trigger] m@[b]).0 by {
                    if b == m@.len() - 1 {
                        assert(before[a].0 != k);
                    } else {
                        assert(before[a].0 != before[b].0);
                    }
                }
            }
        },
    }
}

/// Takes the file under a key out of the list, if there is one.
fn take<C>(m: &mut Vec<(FileIndex, FileCtx<C>)>, k: FileIndex) -> (r: Option<FileCtx<C>>)
    requires
        keys_distinct(old(m)@),
    ensures
        keys_distinct(final(m)@),
        r == (if as_map(old(m)@).contains_key(k) { Some(as_map(old(m)@)[k]) } else { None::<FileCtx<C>> }),
        as_map(final(m)@) == as_map(old(m)@).remove(k),
{
    match find_key(m, k) {
        Some(i) => {
            let ghost before = m@;
            proof {
                lemma_lookup_distinct(before, i as int);
            }
            let (_, v) = m.remove(i);
            proof {
                assert forall|a: int, b: int| 0 <= a < b < m@.len() implies (#[trigger] m@[a]).0 != (#[trigger] m@[b]).0 by {
                    let a2 = if a < i { a } else { a + 1 };
                    let b2 = if b < i { b } else { b + 1 };
                    assert(m@[a] == before[a2] && m@[b] == before[b2]);
                    assert(before[a2].0 != before[b2].0);
                }
                assert forall|key: FileIndex| #[trigger] lookup(m@, key) == (if key == k { None } else { lookup(before, key) }) by {
                    if key == k {
                        assert forall|j: int| 0 <= j < m@.len() implies (#[trigger] m@[j]).0 != key by {
                            let j2 = if j < i { j } else { j + 1 };
                            assert(m@[j] == before[j2]);
                            assert(before[j2].0 != before[i as int].0);
                        }
                        lemma_lookup_absent(m@, key);
                    } else if exists|j: int| 0 <= j < before.len() && (#[trigger] before[j]).0 == key {
                        let j = choose|j: int| 0 <= j < before.len() && (#[trigger] before[j]).0 == key;
                        lemma_lookup_distinct(before, j);
                        let j2 = if j < i { j } else { j - 1 };
                        assert(m@[j2] == before[j]);
                        lemma_lookup_distinct(m@, j2);
                    } else {
                        lemma_lookup_absent(before, key);
                        assert forall|j: int| 0 <= j < m@.len() implies (#[trigger] m@[j]).0 != key by {
                            let j2 = if j < i { j } else { j + 1 };
                            assert(m@[j] == before[j2]);
                        }
                        lemma_lookup_absent(m@, key);
                    }
                }
                assert(as_map(m@) =~= as_map(before).remove(k));
            }
            Some(v)
        },
        None => {
            proof {
                lemma_lookup_absent(m@, k);
                assert(as_map(m@) =~= as_map(m@).remove(k));
            }
            None
        },
    }
}

/// Gathers what replaces each file: the mod files the archive knows, by
/// info-indice index (a later one with the same index wins), then the
/// streamed files by hash, then the plugins' callbacks laid over both.
pub fn process_mods<C>(candidates: Vec<ModCandidate>, stream: Vec<(Hash40, ModFile)>, callbacks: Vec<CallbackEntry<C>>) -> (r: Vec<(FileIndex, FileCtx<C>)>)
    ensures
        keys_distinct(r@),
        as_map(r@) == callbacks_upto(
            streams_upto(files_upto::<C>(candidates@, candidates@.len() as int), stream@, stream@.len() as int),
            callbacks@, callbacks@.len() as int),
{
    let mut mods: Vec<(FileIndex, FileCtx<C>)> = Vec::new();
    assert(as_map(mods@) =~= Map::<FileIndex, FileCtx<C>>::empty());
    let ghost all_c = candidates@;
    let mut candidates = candidates;
    let ghost mut k: int = 0;
    while candidates.len() > 0
        invariant
            0 <= k <= all_c.len(),
            candidates@ == all_c.subrange(k, all_c.len() as int),
            keys_distinct(mods@),
            as_map(mods@) == files_upto::<C>(all_c, k),
        decreases candidates@.len(),
    {
        let c = candidates.remove(0);
        proof {
            assert(c == all_c[k]);
            assert(candidates@ =~= all_c.subrange(k + 1, all_c.len() as int));
        }
        match c.info_index {
            Some(i) => {
                put(&mut mods, FileIndex::Regular(i), FileCtx { file: FileBacking::ModFile(c.file), hash: c.hash, index: i });
            },
            None => {},
        }
        proof {
            k = k + 1;
        }
    }
    let ghost base = as_map(mods@);
    let ghost all_s = stream@;
    let mut stream = stream;
    let ghost mut k2: int = 0;
    while stream.len() > 0
        invariant
            0 <= k2 <= all_s.len(),
            stream@ == all_s.subrange(k2, all_s.len() as int),
            keys_distinct(mods@),
            as_map(mods@) == streams_upto(base, all_s, k2),
        decreases stream@.len(),
    {
        let (hash, file) = stream.remove(0);
        proof {
            assert((hash, file) == all_s[k2]);
            assert(stream@ =~= all_s.subrange(k2 + 1, all_s.len() as int));
        }
        put(&mut mods, FileIndex::Stream(hash), FileCtx { file: FileBacking::ModFile(file), hash, index: 0 });
        proof {
            k2 = k2 + 1;
        }
    }
    let ghost base2 = as_map(mods@);
    let ghost all_cb = callbacks@;
    let mut callbacks = callbacks;
    let ghost mut k3: int = 0;
    while callbacks.len() > 0
        invariant
            0 <= k3 <= all_cb.len(),
            callbacks@ == all_cb.subrange(k3, all_cb.len() as int),
            keys_distinct(mods@),
            as_map(mods@) == callbacks_upto(base2, all_cb, k3),
        decreases callbacks@.len(),
    {
        let e = callbacks.remove(0);
        proof {
            assert(e == all_cb[k3]);
            assert(callbacks@ =~= all_cb.subrange(k3 + 1, all_cb.len() as int));
        }
        let ghost prev = as_map(mods@);
        let hash = e.hash;
        let key = match &e.kind {
            CallbackKind::Regular { .. } => match e.info_index {
                Some(i) => Some(FileIndex::Regular(i)),
                None => None,
            },
            CallbackKind::Stream { .. } => Some(FileIndex::Stream(hash)),
        };
        let callback = e.kind;
        let previous = e.previous;
        match key {
            Some(k) => {
                match take(&mut mods, k) {
                    Some(ctx) => {
                        let file = match previous {
                            Some(p) => FileBacking::Callback {
                                callback,
                                original: Box::new(FileBacking::Callback { callback: p, original: Box::new(ctx.file) }),
                            },
                            None => FileBacking::Callback { callback, original: Box::new(ctx.file) },
                        };
                        put(&mut mods, k, FileCtx { file, hash: ctx.hash, index: ctx.index });
                        proof {
                            assert(prev.remove(k).insert(k, FileCtx { file: layered(callback, previous, prev[k].file), hash: prev[k].hash, index: prev[k].index })
                                =~= prev.insert(k, FileCtx { file: layered(callback, previous, prev[k].file), hash: prev[k].hash, index: prev[k].index }));
                        }
                    },
                    None => {
                        let index = match k {
                            FileIndex::Regular(i) => i,
                            FileIndex::Stream(_) => 0,
                        };
                        put(&mut mods, k, FileCtx { file: FileBacking::Callback { callback, original: Box::new(FileBacking::LoadFromArc) }, hash, index });
                        proof {
                            assert(prev.remove(k) =~= prev);
                        }
                    },
                }
            },
            None => {},
        }
        proof {
            k3 = k3 + 1;
        }
    }
    proof {
        assert(all_c.subrange(all_c.len() as int, all_c.len() as int).len() == 0);
    }
    mods
}

/// The size a replaced file takes when loaded: a mod file's size, the
/// buffer size of a regular callback, nothing for a streamed callback, and
/// the archive's own size (`arc_size`) for a file read from the archive.
pub open spec fn spec_ctx_len<C>(b: FileBacking<C>, arc_size: u32) -> u32 {
    match b {
        FileBacking::ModFile(m) => m.spec_size(),
        FileBacking::LoadFromArc => arc_size,
        FileBacking::Callback { callback, original } => match callback {
            CallbackKind::Regular { callback, len } => len,
            CallbackKind::Stream { callback } => 0,
        },
    }
}

impl<C> FileCtx<C> {
    /// The size the file takes when loaded; `arc_size` is the size the
    /// archive gives the file, used when the file is read from the archive.
    pub fn len(&self, arc_size: u32) -> (r: u32)
        ensures
            r == spec_ctx_len(self.file, arc_size),
    {
        match &self.file {
            FileBacking::ModFile(m) => m.len(),
            FileBacking::LoadFromArc => arc_size,
            FileBacking::Callback { callback, original } => match callback {
                CallbackKind::Regular { callback, len } => *len,
                CallbackKind::Stream { callback } => 0,
            },
        }
    }

    /// Where the file comes from on disk: the mod file's path, the word
    /// `Callback` for a callback, nothing for the archive.
    pub fn path(&self) -> (r: Option<String>)
        ensures
            match self.file {
                FileBacking::ModFile(m) => r matches Some(p) && p@ == m.spec_path(),
                FileBacking::LoadFromArc => r is None,
                FileBacking::Callback { .. } => r matches Some(p) && p@ == "Callback"@,
            },
    {
        match &self.file {
            FileBacking::ModFile(m) => Some(m.path().to_owned()),
            FileBacking::LoadFromArc => None,
            FileBacking::Callback { .. } => {
                let s = "Callback".to_owned();
                Some(s)
            },
        }
    }

    /// The hash of the file's extension: from a mod file's own path, else
    /// the one the archive gives (`arc_ext`).
    pub fn extension(&self, arc_ext: Hash40) -> (r: Hash40)
        requires
            self.file matches FileBacking::ModFile(m) ==> extension(m.spec_path()) is Some,
        ensures
            match self.file {
                FileBacking::ModFile(m) => r.0 == spec_hash40(extension(m.spec_path()).unwrap()),
                _ => r == arc_ext,
            },
    {
        match &self.file {
            FileBacking::ModFile(m) => m.extension(),
            _ => arc_ext,
        }
    }
}

/// What loading a file does first: read a mod file, read the archive, or
/// call a regular callback with a buffer of `len` bytes, falling back to
/// `fallback` when it declines. Streamed callbacks are passed over.
pub enum LoadStep<'a, C> {
    ReadModFile(&'a ModFile),
    ReadArc,
    Call { callback: &'a C, len: u32, fallback: &'a FileBacking<C> },
}

/// The first step of loading from a backing.
pub open spec fn spec_first_step<C>(b: FileBacking<C>) -> (FileBacking<C>, bool)
    decreases b,
{
    match b {
        FileBacking::Callback { callback, original } => match callback {
            CallbackKind::Regular { .. } => (b, true),
            CallbackKind::Stream { .. } => spec_first_step(*original),
        },
        _ => (b, false),
    }
}

/// Finds what loading from a backing does first; streamed callbacks defer
/// to what they were laid over.
pub fn recursive_file_backing_load<'a, C>(backing: &'a FileBacking<C>) -> (r: LoadStep<'a, C>)
    ensures
        match r {
            LoadStep::ReadModFile(m) => spec_first_step(*backing).0 == FileBacking::<C>::ModFile(*m),
            LoadStep::ReadArc => spec_first_step(*backing).0 is LoadFromArc,
            LoadStep::Call { callback, len, fallback } => spec_first_step(*backing).1
                && spec_first_step(*backing).0 == (FileBacking::Callback {
                    callback: CallbackKind::Regular { callback: *callback, len },
                    original: Box::new(*fallback),
                }),
        },
    decreases backing,
{
    match backing {
        FileBacking::ModFile(m) => LoadStep::ReadModFile(m),
        FileBacking::LoadFromArc => LoadStep::ReadArc,
        FileBacking::Callback { callback, original } => match callback {
            CallbackKind::Regular { callback, len } => LoadStep::Call { callback, len: *len, fallback: &**original },
            CallbackKind::Stream { .. } => recursive_file_backing_load(&**original),
        },
    }
}

/// Grows the decompressed size of a file's data entry to `size` where it
/// was smaller; gives back the size it had.
pub fn patch_filedata(decomp_sizes: &mut Vec<u32>, data_index: usize, size: u32) -> (r: u32)
    requires
        data_index < old(decomp_sizes)@.len(),
    ensures
        r == old(decomp_sizes)@[data_index as int],
        final(decomp_sizes)@ == old(decomp_sizes)@.update(data_index as int,
            if old(decomp_sizes)@[data_index as int] < size { size } else { old(decomp_sizes)@[data_index as int] }),
{
    let orig = decomp_sizes[data_index];
    if orig < size {
        decomp_sizes.set(data_index, size);
    }
    orig
}

/// The sizes after the first `n` replaced files had their data entries
/// grown, and the backups taken on the way: each file's entry grows to its
/// size, and the size the recorded entry had is kept.
pub open spec fn patched_upto(d: Seq<u32>, lens: Seq<u32>, slots: Seq<(usize, usize)>, n: int) -> (Seq<u32>, Seq<(usize, u32)>)
    decreases n,
{
    if n <= 0 {
        (d, Seq::empty())
    } else {
        let (prev, backups) = patched_upto(d, lens, slots, n - 1);
        let (patched, recorded) = slots[n - 1];
        let old_size = prev[patched as int];
        (prev.update(patched as int, if old_size < lens[n - 1] { lens[n - 1] } else { old_size }),
         backups.push((recorded, old_size)))
    }
}

/// Every slot names existing data entries.
pub open spec fn slots_in_bounds(d: Seq<u32>, slots: Seq<(usize, usize)>) -> bool {
    forall|i: int| 0 <= i < slots.len() ==> ((#[trigger] slots[i]).0 as int) < d.len() && (slots[i].1 as int) < d.len()
}

/// Grows the data entry of each replaced archive file to the file's new
/// size. `slots[i]` gives, for the `i`-th file, the data entry that grows
/// and the entry whose size is kept as the backup; `lens[i]` is its size.
/// Returns the backups, in order.
pub fn patch_sizes(decomp_sizes: &mut Vec<u32>, lens: &Vec<u32>, slots: &Vec<(usize, usize)>) -> (r: Vec<(usize, u32)>)
    requires
        lens@.len() == slots@.len(),
        slots_in_bounds(old(decomp_sizes)@, slots@),
    ensures
        final(decomp_sizes)@ == patched_upto(old(decomp_sizes)@, lens@, slots@, slots@.len() as int).0,
        r@ == patched_upto(old(decomp_sizes)@, lens@, slots@, slots@.len() as int).1,
{
    let ghost d0 = decomp_sizes@;
    let mut backups: Vec<(usize, u32)> = Vec::new();
    let mut i: usize = 0;
    while i < slots.len()
        invariant
            lens@.len() == slots@.len(),
            slots_in_bounds(d0, slots@),
            i <= slots@.len(),
            decomp_sizes@.len() == d0.len(),
            decomp_sizes@ == patched_upto(d0, lens@, slots@, i as int).0,
            backups@ == patched_upto(d0, lens@, slots@, i as int).1,
        decreases slots@.len() - i,
    {
        let (patched, recorded) = slots[i];
        proof {
            assert((slots@[i as int].0 as int) < d0.len());
        }
        let old_size = patch_filedata(decomp_sizes, patched, lens[i]);
        backups.push((recorded, old_size));
        i = i + 1;
    }
    backups
}

/// The sizes after the first `n` backups were written back.
pub open spec fn restored_upto(d: Seq<u32>, backups: Seq<(usize, u32)>, n: int) -> Seq<u32>
    decreases n,
{
    if n <= 0 {
        d
    } else {
        restored_upto(d, backups, n - 1).update(backups[n - 1].0 as int, backups[n - 1].1)
    }
}

/// Writes the backed-up sizes back, in order, before mods are gathered anew.
pub fn restore_sizes(decomp_sizes: &mut Vec<u32>, backups: &Vec<(usize, u32)>)
    requires
        forall|i: int| 0 <= i < backups@.len() ==> ((#[trigger] backups@[i]).0 as int) < old(decomp_sizes)@.len(),
    ensures
        final(decomp_sizes)@ == restored_upto(old(decomp_sizes)@, backups@, backups@.len() as int),
{
    let ghost d0 = decomp_sizes@;
    let mut i: usize = 0;
    while i < backups.len()
        invariant
            forall|j: int| 0 <= j < backups@.len() ==> ((#[trigger] backups@[j]).0 as int) < d0.len(),
            i <= backups@.len(),
            decomp_sizes@.len() == d0.len(),
            decomp_sizes@ == restored_upto(d0, backups@, i as int),
        decreases backups@.len() - i,
    {
        let (idx, size) = backups[i];
        proof {
            assert((backups@[i as int].0 as int) < d0.len());
        }
        decomp_sizes.set(idx, size);
        i = i + 1;
    }
}

/// Each file grows and backs up the same data entry, and no two files share one.
pub open spec fn slots_distinct(slots: Seq<(usize, usize)>) -> bool {
    &&& forall|i: int| 0 <= i < slots.len() ==> (#[trigger] slots[i]).0 == slots[i].1
    &&& forall|i: int, j: int| 0 <= i < j < slots.len() ==> (#[trigger] slots[i]).0 != (#[trigger] slots[j]).0
}

proof fn lemma_patched(d: Seq<u32>, lens: Seq<u32>, slots: Seq<(usize, usize)>, n: int)
    requires
        slots_in_bounds(d, slots),
        slots_distinct(slots),
        0 <= n <= slots.len(),
    ensures
        patched_upto(d, lens, slots, n).0.len() == d.len(),
        patched_upto(d, lens, slots, n).1.len() == n,
        forall|k: int| 0 <= k < n ==> #[trigger] patched_upto(d, lens, slots, n).1[k] == (slots[k].0, d[slots[k].0 as int]),
        forall|x: int| 0 <= x < d.len() && (forall|k: int| 0 <= k < n ==> #[trigger] slots[k].0 != x)
            ==> #[trigger] patched_upto(d, lens, slots, n).0[x] == d[x],
    decreases n,
{
    if n > 0 {
        lemma_patched(d, lens, slots, n - 1);
        let (prev, backups) = patched_upto(d, lens, slots, n - 1);
        let p = slots[n - 1].0 as int;
        assert(forall|k: int| 0 <= k < n - 1 ==> #[trigger] slots[k].0 != p);
        assert(prev[p] == d[p]);
        let (cur, b2) = patched_upto(d, lens, slots, n);
        assert forall|k: int| 0 <= k < n implies #[trigger] b2[k] == (slots[k].0, d[slots[k].0 as int]) by {
            if k < n - 1 {
                assert(b2[k] == backups[k]);
            }
        }
        assert forall|x: int| 0 <= x < d.len() && (forall|k: int| 0 <= k < n ==> #[trigger] slots[k].0 != x)
            implies #[trigger] cur[x] == d[x] by {
            assert(slots[n - 1].0 != x);
            assert(forall|k: int| 0 <= k < n - 1 ==> #[trigger] slots[k].0 != x);
        }
    }
}

proof fn lemma_restored(p: Seq<u32>, b: Seq<(usize, u32)>, m: int)
    requires
        0 <= m <= b.len(),
        forall|i: int| 0 <= i < b.len() ==> ((#[trigger] b[i]).0 as int) < p.len(),
        forall|i: int, j: int| 0 <= i < j < b.len() ==> (#[trigger] b[i]).0 != (#[trigger] b[j]).0,
    ensures
        restored_upto(p, b, m).len() == p.len(),
        forall|k: int| 0 <= k < m ==> #[trigger] restored_upto(p, b, m)[b[k].0 as int] == b[k].1,
        forall|x: int| 0 <= x < p.len() && (forall|k: int| 0 <= k < m ==> #[trigger] b[k].0 != x)
            ==> #[trigger] restored_upto(p, b, m)[x] == p[x],
    decreases m,
{
    if m > 0 {
        lemma_restored(p, b, m - 1);
        let r = restored_upto(p, b, m);
        assert forall|k: int| 0 <= k < m implies #[trigger] r[b[k].0 as int] == b[k].1 by {
            if k < m - 1 {
                assert(b[k].0 != b[m - 1].0);
            }
        }
        assert forall|x: int| 0 <= x < p.len() && (forall|k: int| 0 <= k < m ==> #[trigger] b[k].0 != x)
            implies #[trigger] r[x] == p[x] by {
            assert(b[m - 1].0 != x);
            assert(forall|k: int| 0 <= k < m - 1 ==> #[trigger] b[k].0 != x);
        }
    }
}

/// Writing back the backups that growing the data entries returned gives
/// back the sizes from before, when each file grows and backs up the same
/// entry and no two files share an entry.
pub proof fn law_restore_undoes_patch(d: Seq<u32>, lens: Seq<u32>, slots: Seq<(usize, usize)>)
    requires
        lens.len() == slots.len(),
        slots_in_bounds(d, slots),
        slots_distinct(slots),
    ensures
        restored_upto(patched_upto(d, lens, slots, slots.len() as int).0, patched_upto(d, lens, slots, slots.len() as int).1,
            slots.len() as int) == d,
{
    let n = slots.len() as int;
    lemma_patched(d, lens, slots, n);
    let (p, b) = patched_upto(d, lens, slots, n);
    assert forall|i: int| 0 <= i < b.len() implies ((#[trigger] b[i]).0 as int) < p.len() by {
        assert(b[i] == (slots[i].0, d[slots[i].0 as int]));
    }
    assert forall|i: int, j: int| 0 <= i < j < b.len() implies (#[trigger] b[i]).0 != (#[trigger] b[j]).0 by {
        assert(b[i] == (slots[i].0, d[slots[i].0 as int]));
        assert(b[j] == (slots[j].0, d[slots[j].0 as int]));
    }
    lemma_restored(p, b, n);
    let r = restored_upto(p, b, n);
    assert forall|x: int| 0 <= x < d.len() implies #[trigger] r[x] == d[x] by {
        if exists|k: int| 0 <= k < n && #[trigger] slots[k].0 == x {
            let k = choose|k: int| 0 <= k < n && #[trigger] slots[k].0 == x;
            assert(b[k] == (slots[k].0, d[slots[k].0 as int]));
            assert(r[b[k].0 as int] == b[k].1);
        } else {
            assert forall|k: int| 0 <= k < n implies #[trigger] b[k].0 != x by {
                assert(b[k] == (slots[k].0, d[slots[k].0 as int]));
            }
            assert(p[x] == d[x]);
        }
    }
    assert(r =~= d);
}

} // verus!
