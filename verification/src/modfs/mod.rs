//! The modded filesystem: files patched in from mod folders, callbacks that
//! stand in for files, and the handlers that patch file contents.
use vstd::prelude::*;

pub mod handlers;
pub mod patch;
pub mod registry;
pub mod virt;

use crate::modfs::handlers::{builtin_discover, builtin_discover_ok, builtins_at, register_builtins, spec_builtin_discover};
use crate::hashing::Hash40;
use crate::modfs::patch::{path_key, FileEntry, PatchLayer};
use crate::modfs::registry::{last_claiming, spec_lookup};
use crate::modfs::registry::{HandlerId, HandlerInfo, HandlerRegistry};
use crate::modfs::virt::VirtualLayer;
use crate::path::{chars_of, chars_eq, extension, file_name, join, join_paths, name_start, name_start_of, slice, string_of};

verus! {

/// How many files the modded filesystem holds, by layer.
#[derive(Debug)]
pub struct ModFsStats {
    pub patch_files: usize,
    pub virtual_files: usize,
}

/// What a path names.
#[derive(Clone, Copy, Debug, PartialEq, Eq, Structural)]
pub enum EntryType {
    File,
    Directory,
}

/// How conflicting mod files are resolved.
#[derive(Clone, Copy, Debug, PartialEq, Eq, Structural)]
pub enum ConflictMode {
    NoRoot,
    First,
    KeepAll,
}

impl Default for ConflictMode {
    fn default() -> (r: Self)
        ensures
            r == ConflictMode::NoRoot,
    {
        ConflictMode::NoRoot
    }
}

/// Why reading from the modded filesystem failed.
#[derive(Debug)]
pub enum ModFsError {
    NotFound(u64),
    Io(String),
    Hash(String),
    Vanilla(String),
    Handler(String),
    BufferTooSmall { needed: usize, available: usize },
}

/// Copies `bytes` to the front of `buffer`; fails, leaving the buffer as it
/// was, when the buffer is too small.
pub fn copy_into(bytes: &[u8], buffer: &mut [u8]) -> (r: Result<usize, ModFsError>)
    ensures
        bytes@.len() <= old(buffer)@.len() ==> {
            &&& r matches Ok(n) && n == bytes@.len()
            &&& final(buffer)@ == bytes@ + old(buffer)@.subrange(bytes@.len() as int, old(buffer)@.len() as int)
        },
        bytes@.len() > old(buffer)@.len() ==> {
            &&& r matches Err(ModFsError::BufferTooSmall { needed, available })
                && needed == bytes@.len() && available == old(buffer)@.len()
            &&& final(buffer)@ == old(buffer)@
        },
{
    if bytes.len() > buffer.len() {
        return Err(ModFsError::BufferTooSmall { needed: bytes.len(), available: buffer.len() });
    }
    let mut i: usize = 0;
    while i < bytes.len()
        invariant
            bytes@.len() <= buffer@.len(),
            buffer@.len() == old(buffer)@.len(),
            i <= bytes@.len(),
            forall|j: int| 0 <= j < i ==> buffer@[j] == bytes@[j],
            forall|j: int| i <= j < buffer@.len() ==> buffer@[j] == old(buffer)@[j],
        decreases bytes@.len() - i,
    {
        buffer[i] = bytes[i];
        i = i + 1;
    }
    assert(buffer@ =~= bytes@ + old(buffer)@.subrange(bytes@.len() as int, old(buffer)@.len() as int));
    Ok(bytes.len())
}

/// The parent of a local path: what comes before its last `/`, or the empty
/// path for a path of one component; the empty path has none. Local paths
/// are relative and `/`-separated, without empty or `.` components, as
/// discovery records them.
pub open spec fn local_parent(p: Seq<char>) -> Option<Seq<char>> {
    if p.len() == 0 {
        None
    } else if name_start(p) == 0 {
        Some(Seq::empty())
    } else {
        Some(p.subrange(0, name_start(p) - 1))
    }
}

/// A parent is shorter than its child.
pub proof fn lemma_parent_shorter(p: Seq<char>)
    ensures
        local_parent(p) matches Some(q) ==> q.len() < p.len(),
{
}

/// `seen` with `c` added at its end, unless it holds `c` already.
pub open spec fn add_seen(seen: Seq<Seq<char>>, c: Seq<char>) -> Seq<Seq<char>> {
    if seen.contains(c) {
        seen
    } else {
        seen.push(c)
    }
}

/// The paths met walking up from `child` towards the top, each with a
/// parent, added in turn to `seen`.
pub open spec fn walk_up(seen: Seq<Seq<char>>, child: Seq<char>) -> Seq<Seq<char>>
    decreases child.len(),
{
    match local_parent(child) {
        None => seen,
        Some(p) => {
            proof {
                lemma_parent_shorter(child);
            }
            walk_up(add_seen(seen, child), p)
        },
    }
}

/// Every path below the top met walking up from the first `n` files, in the
/// order first met.
pub open spec fn seen_paths(files: Seq<Seq<char>>, n: int) -> Seq<Seq<char>>
    decreases n,
{
    if n <= 0 {
        Seq::empty()
    } else {
        walk_up(seen_paths(files, n - 1), files[n - 1])
    }
}

/// The local paths of the patch layer's files, in the order recorded.
pub open spec fn patched_locals(patch: PatchLayer) -> Seq<Seq<char>> {
    Seq::new(patch.spec_num_entries(), |i: int| patch.entry_record(i).0)
}

/// Every path below the top that leads to a patched file, in the order met.
pub open spec fn indexed_paths(patch: PatchLayer) -> Seq<Seq<char>> {
    seen_paths(patched_locals(patch), patch.spec_num_entries() as int)
}

/// Whether a path's parent is `dir`.
pub open spec fn child_of(dir: Seq<char>) -> spec_fn(Seq<char>) -> bool {
    |c: Seq<char>| local_parent(c) == Some(dir)
}

/// The paths directly inside `dir`, in the order met.
pub open spec fn dir_children(patch: PatchLayer, dir: Seq<char>) -> Seq<Seq<char>> {
    indexed_paths(patch).filter(child_of(dir))
}

/// Whether `dir` is the parent of some path that leads to a patched file.
pub open spec fn is_indexed_dir(patch: PatchLayer, dir: Seq<char>) -> bool {
    exists|i: int| 0 <= i < indexed_paths(patch).len() && local_parent(#[trigger] indexed_paths(patch)[i]) == Some(dir)
}

/// What a path names: a patched file, a directory holding one, or nothing.
pub open spec fn spec_entry_type(patch: PatchLayer, path: Seq<char>) -> Option<EntryType> {
    if patch.lookup(path_key(path)) is Some {
        Some(EntryType::File)
    } else if is_indexed_dir(patch, path) {
        Some(EntryType::Directory)
    } else {
        None
    }
}

/// The text of each path.
pub open spec fn views(s: Seq<Vec<char>>) -> Seq<Seq<char>> {
    s.map_values(|v: Vec<char>| v@)
}

fn parent_of_local(p: &Vec<char>) -> (r: Option<Vec<char>>)
    ensures
        match r {
            Some(q) => local_parent(p@) == Some(q@),
            None => local_parent(p@) is None,
        },
{
    if p.len() == 0 {
        return None;
    }
    let k = name_start_of(p);
    if k == 0 {
        Some(Vec::new())
    } else {
        Some(slice(p, 0, k - 1))
    }
}

fn contains_path(seen: &Vec<Vec<char>>, c: &Vec<char>) -> (r: bool)
    ensures
        r == views(seen@).contains(c@),
{
    let mut i: usize = 0;
    while i < seen.len()
        invariant
            i <= seen.len(),
            forall|j: int| 0 <= j < i ==> views(seen@)[j] != c@,
        decreases seen.len() - i,
    {
        if chars_eq(&seen[i], c) {
            assert(views(seen@)[i as int] == c@);
            return true;
        }
        i = i + 1;
    }
    false
}

fn walk_up_exec(seen: &mut Vec<Vec<char>>, child: Vec<char>)
    ensures
        views(final(seen)@) == walk_up(views(old(seen)@), child@),
    decreases child@.len(),
{
    match parent_of_local(&child) {
        None => {},
        Some(p) => {
            proof {
                lemma_parent_shorter(child@);
            }
            let ghost before = views(seen@);
            if !contains_path(seen, &child) {
                let ghost c = child@;
                seen.push(child);
                assert(views(seen@) =~= before.push(c));
            }
            walk_up_exec(seen, p);
        },
    }
}

/// Every path below the top that leads to a patched file, in the order met.
fn build_index(patch: &PatchLayer) -> (r: Vec<Vec<char>>)
    requires
        patch.wf(),
    ensures
        views(r@) == indexed_paths(*patch),
{
    let files = patch.iter_files();
    let ghost locals = patched_locals(*patch);
    let mut seen: Vec<Vec<char>> = Vec::new();
    assert(views(seen@) =~= Seq::<Seq<char>>::empty());
    let mut i: usize = 0;
    while i < files.len()
        invariant
            i <= files@.len(),
            files@.len() == patch.spec_num_entries(),
            locals == patched_locals(*patch),
            forall|j: int| 0 <= j < files@.len() ==> (#[trigger] files@[j]).0@ == patch.entry_record(j).0,
            views(seen@) == seen_paths(locals, i as int),
        decreases files@.len() - i,
    {
        assert(locals[i as int] == files@[i as int].0@);
        walk_up_exec(&mut seen, chars_of(files[i].0));
        i = i + 1;
    }
    seen
}

/// The discovery step of the file handlers: what a handler reports when it
/// claims a mod file, the archive hash that the file patches, if any. The
/// loader's built-in handlers do this in `BuiltinDiscoverer`; handlers that
/// plugins register bring their own. `spec_discover` names the report, and
/// `spec_discover_ok` the files a handler can take without failing.
pub trait Discoverer {
    spec fn spec_discover_ok(&self, handler: HandlerId, local: Seq<char>) -> bool;

    spec fn spec_discover(&self, handler: HandlerId, full_path: Seq<char>, local: Seq<char>, size: usize) -> Option<u64>;

    fn discover(&self, handler: HandlerId, full_path: &str, local: &str, size: usize) -> (r: Option<Hash40>)
        requires
            self.spec_discover_ok(handler, local@),
        ensures
            match r {
                Some(h) => self.spec_discover(handler, full_path@, local@, size) == Some(h.0),
                None => self.spec_discover(handler, full_path@, local@, size) is None,
            },
    ;
}

/// The loader's built-in handlers, in their order of registration.
pub struct BuiltinDiscoverer;

impl Discoverer for BuiltinDiscoverer {
    open spec fn spec_discover_ok(&self, handler: HandlerId, local: Seq<char>) -> bool {
        builtin_discover_ok(handler, local)
    }

    open spec fn spec_discover(&self, handler: HandlerId, full_path: Seq<char>, local: Seq<char>, size: usize) -> Option<u64> {
        spec_builtin_discover(handler, local)
    }

    fn discover(&self, handler: HandlerId, full_path: &str, local: &str, size: usize) -> (r: Option<Hash40>) {
        builtin_discover(handler, local)
    }
}

/// What the discoverer reports for each entry that a handler claims
/// (`None` for the others).
pub open spec fn discovered<D: Discoverer>(d: &D, hs: Seq<HandlerInfo>, entries: Seq<(String, String, usize)>) -> Seq<Option<u64>> {
    Seq::new(entries.len(), |j: int| match spec_lookup(hs, entries[j].1@) {
        Some(i) => d.spec_discover(HandlerId(i as usize), join(entries[j].0@, entries[j].1@), entries[j].1@, entries[j].2),
        None => None,
    })
}

/// Every entry a handler claims is one it can take.
pub open spec fn discover_ok_for<D: Discoverer>(d: &D, hs: Seq<HandlerInfo>, entries: Seq<(String, String, usize)>) -> bool {
    forall|j: int| 0 <= j < entries.len() ==> (#[trigger] spec_lookup(hs, entries[j].1@) matches Some(i)
        ==> d.spec_discover_ok(HandlerId(i as usize), entries[j].1@))
}

/// `after` is `before` with `local` recorded as coming from `root` with
/// `size`, as `PatchLayer::insert` leaves it when the second name it is
/// given is the path's own hash.
pub open spec fn records(before: PatchLayer, after: PatchLayer, local: Seq<char>, root: Seq<char>, size: usize) -> bool {
    let key = path_key(local);
    let rec = (local, root, size as u32);
    &&& after.wf()
    &&& after.lookup(key) == Some(rec)
    &&& forall|k: u64| k != key ==> {
        if before.slot(k) is Some && before.slot(k) == before.slot(key) {
            #[trigger] after.lookup(k) == Some(rec)
        } else {
            after.lookup(k) == before.lookup(k)
        }
    }
    &&& after.spec_conflicts() == before.spec_conflicts()
    &&& after.spec_num_entries() == before.spec_num_entries() + (if before.lookup(key) is Some { 0int } else { 1int })
    &&& after.spec_num_roots() == before.spec_num_roots() + (if before.spec_has_root(root) { 0int } else { 1int })
    &&& forall|x: Seq<char>| #[trigger] after.spec_has_root(x) <==> (before.spec_has_root(x) || x == root)
}

/// The local paths of the entries.
pub open spec fn entry_locals(entries: Seq<(String, String, usize)>) -> Seq<Seq<char>> {
    entries.map_values(|e: (String, String, usize)| e.1@)
}

/// How many of the first `n` local paths handler `i` claims.
pub open spec fn claims_count(hs: Seq<HandlerInfo>, locals: Seq<Seq<char>>, i: int, n: int) -> nat
    decreases n,
{
    if n <= 0 {
        0
    } else {
        claims_count(hs, locals, i, n - 1) + if spec_lookup(hs, locals[n - 1]) == Some(i as nat) { 1nat } else { 0nat }
    }
}

/// The handlers bound to hash `h` by the first `n` files, where file `j`'s
/// handler reported `res[j]`.
pub open spec fn bindings_from(hs: Seq<HandlerInfo>, locals: Seq<Seq<char>>, res: Seq<Option<u64>>, h: u64, n: int) -> Seq<HandlerId>
    decreases n,
{
    if n <= 0 {
        Seq::empty()
    } else {
        let prev = bindings_from(hs, locals, res, h, n - 1);
        match spec_lookup(hs, locals[n - 1]) {
            Some(i) => if res[n - 1] == Some(h) { prev.push(HandlerId(i as usize)) } else { prev },
            None => prev,
        }
    }
}

/// How many files each handler claimed, with its name.
pub open spec fn claim_counts_are(r: Seq<(String, usize)>, hs: Seq<HandlerInfo>, locals: Seq<Seq<char>>) -> bool {
    &&& r.len() == hs.len()
    &&& forall|i: int| 0 <= i < hs.len() ==> (#[trigger] r[i]).0@ == hs[i].name@ && r[i].1 == claims_count(hs, locals, i, locals.len() as int)
}

proof fn lemma_last_claiming_below(hs: Seq<HandlerInfo>, n: int, name: Seq<char>, by_filename: bool)
    ensures
        last_claiming(hs, n, name, by_filename) matches Some(i) ==> i < n,
    decreases n,
{
    if n > 0 {
        lemma_last_claiming_below(hs, n - 1, name, by_filename);
    }
}

proof fn lemma_lookup_in_range(hs: Seq<HandlerInfo>, local: Seq<char>)
    ensures
        spec_lookup(hs, local) matches Some(i) ==> i < hs.len(),
{
    match file_name(local) {
        Some(n) => lemma_last_claiming_below(hs, hs.len() as int, n, true),
        None => {},
    }
    match extension(local) {
        Some(e) => lemma_last_claiming_below(hs, hs.len() as int, e, false),
        None => {},
    }
}

proof fn lemma_claims_at_most(hs: Seq<HandlerInfo>, locals: Seq<Seq<char>>, i: int, n: int)
    requires
        n >= 0,
    ensures
        claims_count(hs, locals, i, n) <= n,
    decreases n,
{
    if n > 0 {
        lemma_claims_at_most(hs, locals, i, n - 1);
    }
}

proof fn lemma_bindings_prefix(hs: Seq<HandlerInfo>, locals: Seq<Seq<char>>, a: Seq<Option<u64>>, b: Seq<Option<u64>>, h: u64, n: int)
    requires
        n <= a.len(),
        n <= b.len(),
        forall|k: int| 0 <= k < n ==> a[k] == b[k],
    ensures
        bindings_from(hs, locals, a, h, n) == bindings_from(hs, locals, b, h, n),
    decreases n,
{
    if n > 0 {
        lemma_bindings_prefix(hs, locals, a, b, h, n - 1);
    }
}

/// The modded filesystem: the patch layer, the callbacks that stand in for
/// files, the content handlers, and how conflicts are resolved.
pub struct ModFs<C> {
    patch: PatchLayer,
    virt: VirtualLayer<C>,
    handlers: HandlerRegistry,
    conflict_mode: ConflictMode,
}

impl<C> Default for ModFs<C> {
    fn default() -> (r: Self)
        ensures
            r.wf(),
            r.spec_patch().spec_num_entries() == 0,
            r.spec_handlers().spec_handlers().len() == 6,
            builtins_at(r.spec_handlers().spec_handlers(), 0),
            r.spec_conflict_mode() == ConflictMode::NoRoot,
    {
        Self::new()
    }
}

impl<C> ModFs<C> {
    /// The layers keep their own invariants.
    pub closed spec fn wf(&self) -> bool {
        self.patch.wf() && self.handlers.wf()
    }

    pub closed spec fn spec_patch(&self) -> PatchLayer {
        self.patch
    }

    pub closed spec fn spec_virt(&self) -> VirtualLayer<C> {
        self.virt
    }

    pub closed spec fn spec_handlers(&self) -> HandlerRegistry {
        self.handlers
    }

    pub closed spec fn spec_conflict_mode(&self) -> ConflictMode {
        self.conflict_mode
    }

    /// An empty filesystem with the built-in handlers registered.
    pub fn new() -> (r: Self)
        ensures
            r.wf(),
            r.spec_patch().spec_num_entries() == 0,
            r.spec_patch().spec_num_roots() == 0,
            forall|x: Seq<char>| !#[trigger] r.spec_patch().spec_has_root(x),
            forall|k: u64| r.spec_patch().lookup(k) is None,
            r.spec_virt().spec_chains() == Map::<u64, crate::modfs::virt::VirtualChain<C>>::empty(),
            r.spec_handlers().spec_handlers().len() == 6,
            builtins_at(r.spec_handlers().spec_handlers(), 0),
            forall|h: u64| r.spec_handlers().spec_bound(h).len() == 0,
            r.spec_conflict_mode() == ConflictMode::NoRoot,
    {
        let mut handlers = HandlerRegistry::new();
        register_builtins(&mut handlers);
        ModFs { patch: PatchLayer::new(), virt: VirtualLayer::new(), handlers, conflict_mode: ConflictMode::NoRoot }
    }

    /// Adds a handler after those registered.
    pub fn register_handler(&mut self, handler: HandlerInfo) -> (r: HandlerId)
        requires
            old(self).wf(),
        ensures
            final(self).wf(),
            r.0 == old(self).spec_handlers().spec_handlers().len(),
            final(self).spec_handlers().spec_handlers() == old(self).spec_handlers().spec_handlers().push(handler),
            forall|h: u64| #[trigger] final(self).spec_handlers().spec_bound(h) == old(self).spec_handlers().spec_bound(h),
            final(self).spec_patch() == old(self).spec_patch(),
            final(self).spec_virt() == old(self).spec_virt(),
            final(self).spec_conflict_mode() == old(self).spec_conflict_mode(),
    {
        self.handlers.register(handler)
    }

    pub fn set_conflict_mode(&mut self, mode: ConflictMode)
        ensures
            final(self).spec_conflict_mode() == mode,
            final(self).spec_patch() == old(self).spec_patch(),
            final(self).spec_virt() == old(self).spec_virt(),
            final(self).spec_handlers() == old(self).spec_handlers(),
    {
        self.conflict_mode = mode;
    }

    pub fn conflict_mode(&self) -> (r: ConflictMode)
        ensures
            r == self.spec_conflict_mode(),
    {
        self.conflict_mode
    }

    pub fn patch(&self) -> (r: &PatchLayer)
        ensures
            *r == self.spec_patch(),
    {
        &self.patch
    }

    pub fn patch_mut(&mut self) -> (r: &mut PatchLayer)
        ensures
            *r == old(self).spec_patch(),
            final(self).spec_patch() == *final(r),
            final(self).spec_virt() == old(self).spec_virt(),
            final(self).spec_handlers() == old(self).spec_handlers(),
            final(self).spec_conflict_mode() == old(self).spec_conflict_mode(),
    {
        &mut self.patch
    }

    pub fn virt(&self) -> (r: &VirtualLayer<C>)
        ensures
            *r == self.spec_virt(),
    {
        &self.virt
    }

    pub fn virt_mut(&mut self) -> (r: &mut VirtualLayer<C>)
        ensures
            *r == old(self).spec_virt(),
            final(self).spec_virt() == *final(r),
            final(self).spec_patch() == old(self).spec_patch(),
            final(self).spec_handlers() == old(self).spec_handlers(),
            final(self).spec_conflict_mode() == old(self).spec_conflict_mode(),
    {
        &mut self.virt
    }

    pub fn handlers(&self) -> (r: &HandlerRegistry)
        ensures
            *r == self.spec_handlers(),
    {
        &self.handlers
    }

    pub fn handlers_mut(&mut self) -> (r: &mut HandlerRegistry)
        ensures
            *r == old(self).spec_handlers(),
            final(self).spec_handlers() == *final(r),
            final(self).spec_patch() == old(self).spec_patch(),
            final(self).spec_virt() == old(self).spec_virt(),
            final(self).spec_conflict_mode() == old(self).spec_conflict_mode(),
    {
        &mut self.handlers
    }

    /// The paths directly inside a directory, in the order first met walking
    /// up from the patched files.
    pub fn read_dir(&self, path: &str) -> (r: Vec<String>)
        requires
            self.wf(),
        ensures
            r@.map_values(|s: String| s@) == dir_children(self.spec_patch(), path@),
    {
        let index = build_index(&self.patch);
        let dir = chars_of(path);
        let ghost pred = child_of(path@);
        let mut out: Vec<String> = Vec::new();
        let mut i: usize = 0;
        while i < index.len()
            invariant
                i <= index.len(),
                dir@ == path@,
                pred == child_of(path@),
                out@.map_values(|s: String| s@) == views(index@).subrange(0, i as int).filter(pred),
            decreases index.len() - i,
        {
            let ghost sub = views(index@).subrange(0, i as int + 1);
            assert(sub.drop_last() =~= views(index@).subrange(0, i as int));
            assert(sub.last() == views(index@)[i as int]);
            proof {
                reveal(Seq::filter);
            }
            let ghost before = out@.map_values(|s: String| s@);
            let up = parent_of_local(&index[i]);
            let is_child = match up {
                Some(q) => chars_eq(&q, &dir),
                None => false,
            };
            if is_child {
                out.push(string_of(&index[i]));
                assert(out@.map_values(|s: String| s@) =~= before.push(views(index@)[i as int]));
            }
            i = i + 1;
        }
        assert(views(index@).subrange(0, index.len() as int) =~= views(index@));
        out
    }

    /// Whether a path names a patched file, a directory holding one, or
    /// nothing.
    pub fn entry_type(&self, path: &str) -> (r: Option<EntryType>)
        requires
            self.wf(),
        ensures
            r == spec_entry_type(self.spec_patch(), path@),
    {
        if self.patch.contains(path) {
            return Some(EntryType::File);
        }
        let index = build_index(&self.patch);
        let dir = chars_of(path);
        let mut i: usize = 0;
        while i < index.len()
            invariant
                i <= index.len(),
                dir@ == path@,
                views(index@) == indexed_paths(self.spec_patch()),
                self.spec_patch().lookup(path_key(path@)) is None,
                forall|j: int| 0 <= j < i ==> local_parent(#[trigger] views(index@)[j]) != Some(path@),
            decreases index.len() - i,
        {
            match parent_of_local(&index[i]) {
                Some(q) => {
                    if chars_eq(&q, &dir) {
                        assert(local_parent(indexed_paths(self.spec_patch())[i as int]) == Some(path@));
                        assert(is_indexed_dir(self.spec_patch(), path@));
                        return Some(EntryType::Directory);
                    }
                },
                None => {},
            }
            i = i + 1;
        }
        None
    }

    /// Records each mod file in the patch layer, under its local path and
    /// the path's hash; where a handler claims the file, counts it for that
    /// handler, hands it to the discoverer and binds the handler to the hash
    /// that comes back. Returns each handler's name with the number of files
    /// it claimed.
    pub fn populate_from<D: Discoverer>(&mut self, entries: &[(String, String, usize)], discoverer: &D) -> (r: Vec<(String, usize)>)
        requires
            old(self).wf(),
            discover_ok_for(discoverer, old(self).spec_handlers().spec_handlers(), entries@),
            old(self).spec_patch().spec_num_entries() + entries@.len() < u32::MAX,
            old(self).spec_patch().spec_num_roots() + entries@.len() < u32::MAX,
        ensures
            final(self).wf(),
            final(self).spec_handlers().spec_handlers() == old(self).spec_handlers().spec_handlers(),
            claim_counts_are(r@, old(self).spec_handlers().spec_handlers(), entry_locals(entries@)),
            exists|ps: Seq<PatchLayer>| #![trigger ps.len()]
                ps.len() == entries@.len() + 1 && ps[0] == old(self).spec_patch() && ps[entries@.len() as int] == final(self).spec_patch()
                && forall|j: int| 0 <= j < entries@.len() ==> records(ps[j], #[trigger] ps[j + 1], entries@[j].1@, entries@[j].0@, entries@[j].2),
            forall|h: u64| #[trigger] final(self).spec_handlers().spec_bound(h)
                == old(self).spec_handlers().spec_bound(h) + bindings_from(old(self).spec_handlers().spec_handlers(), entry_locals(entries@),
                    discovered(discoverer, old(self).spec_handlers().spec_handlers(), entries@), h, entries@.len() as int),
            final(self).spec_virt() == old(self).spec_virt(),
            final(self).spec_conflict_mode() == old(self).spec_conflict_mode(),
    {
        let ghost hs = self.handlers.spec_handlers();
        let ghost locals = entry_locals(entries@);
        let ghost bound0 = self.handlers;
        let n_handlers = self.handlers.len();
        let mut counts: Vec<usize> = Vec::new();
        while counts.len() < n_handlers
            invariant
                counts@.len() <= n_handlers,
                forall|i: int| 0 <= i < counts@.len() ==> counts@[i] == 0,
            decreases n_handlers - counts@.len(),
        {
            counts.push(0);
        }
        let ghost mut ps: Seq<PatchLayer> = seq![self.patch];
        let ghost mut res: Seq<Option<u64>> = Seq::empty();
        let mut j: usize = 0;
        while j < entries.len()
            invariant
                j <= entries@.len(),
                locals == entry_locals(entries@),
                self.patch.wf(),
                self.handlers.wf(),
                self.handlers.spec_handlers() == hs,
                n_handlers == hs.len(),
                counts@.len() == hs.len(),
                forall|i: int| 0 <= i < hs.len() ==> #[trigger] counts@[i] == claims_count(hs, locals, i, j as int),
                ps.len() == j + 1,
                ps[0] == old(self).spec_patch(),
                ps[j as int] == self.patch,
                forall|k: int| 0 <= k < j ==> records(ps[k], #[trigger] ps[k + 1], entries@[k].1@, entries@[k].0@, entries@[k].2),
                self.patch.spec_num_entries() <= old(self).spec_patch().spec_num_entries() + j,
                self.patch.spec_num_roots() <= old(self).spec_patch().spec_num_roots() + j,
                old(self).spec_patch().spec_num_entries() + entries@.len() < u32::MAX,
                old(self).spec_patch().spec_num_roots() + entries@.len() < u32::MAX,
                res.len() == j,
                res == discovered(discoverer, hs, entries@).subrange(0, j as int),
                discover_ok_for(discoverer, hs, entries@),
                forall|h: u64| #[trigger] self.handlers.spec_bound(h) == bound0.spec_bound(h) + bindings_from(hs, locals, res, h, j as int),
                bound0 == old(self).spec_handlers(),
                hs == bound0.spec_handlers(),
                self.virt == old(self).spec_virt(),
                self.conflict_mode == old(self).spec_conflict_mode(),
            decreases entries@.len() - j,
        {
            let root = &entries[j].0;
            let local = &entries[j].1;
            let size = entries[j].2;
            let full = string_of(&join_paths(&chars_of(root.as_str()), &chars_of(local.as_str())));
            let hash = Hash40::from_str(local.as_str());
            let ghost before = self.patch;
            self.patch.insert(local.clone(), FileEntry { root: root.clone(), size }, Some(hash));
            proof {
                assert(records(before, self.patch, entries@[j as int].1@, entries@[j as int].0@, entries@[j as int].2));
                ps = ps.push(self.patch);
            }
            assert(locals[j as int] == local@);
            let ghost bound_before = self.handlers;
            let ghost res_before = res;
            match self.handlers.lookup(local.as_str()) {
                Some(id) => {
                    proof {
                        lemma_lookup_in_range(hs, local@);
                        lemma_claims_at_most(hs, locals, id.0 as int, j as int);
                    }
                    counts.set(id.0, counts[id.0] + 1);
                    proof {
                        assert(spec_lookup(hs, entries@[j as int].1@) matches Some(i) && id == HandlerId(i as usize));
                    }
                    let found = discoverer.discover(id, full.as_str(), local.as_str(), size);
                    proof {
                        res = res.push(match found { Some(h) => Some(h.0), None => None });
                    }
                    match found {
                        Some(h) => {
                            self.handlers.bind_hash(h, id);
                        },
                        None => {},
                    }
                },
                None => {
                    proof {
                        res = res.push(None);
                    }
                },
            }
            proof {
                assert(res =~= discovered(discoverer, hs, entries@).subrange(0, j + 1));
                assert forall|i: int| 0 <= i < hs.len() implies #[trigger] counts@[i] == claims_count(hs, locals, i, j + 1) by {}
                assert forall|h: u64| #[trigger] self.handlers.spec_bound(h) == bound0.spec_bound(h) + bindings_from(hs, locals, res, h, j + 1) by {
                    lemma_bindings_prefix(hs, locals, res_before, res, h, j as int);
                    let prev = bindings_from(hs, locals, res_before, h, j as int);
                    assert(bound_before.spec_bound(h) == bound0.spec_bound(h) + prev);
                    if bindings_from(hs, locals, res, h, j + 1) != prev {
                        assert(bindings_from(hs, locals, res, h, j + 1) == prev.push(HandlerId(spec_lookup(hs, locals[j as int])->0 as usize)));
                        assert(bound0.spec_bound(h) + prev.push(HandlerId(spec_lookup(hs, locals[j as int])->0 as usize))
                            =~= (bound0.spec_bound(h) + prev).push(HandlerId(spec_lookup(hs, locals[j as int])->0 as usize)));
                    }
                }
                assert forall|k: int| 0 <= k < j + 1 implies records(ps[k], #[trigger] ps[k + 1], entries@[k].1@, entries@[k].0@, entries@[k].2) by {}
            }
            j = j + 1;
        }
        let mut out: Vec<(String, usize)> = Vec::new();
        let mut i: usize = 0;
        while i < n_handlers
            invariant
                i <= n_handlers,
                n_handlers == hs.len(),
                self.handlers.spec_handlers() == hs,
                counts@.len() == hs.len(),
                locals == entry_locals(entries@),
                forall|k: int| 0 <= k < hs.len() ==> #[trigger] counts@[k] == claims_count(hs, locals, k, entries@.len() as int),
                out@.len() == i,
                forall|k: int| 0 <= k < i ==> (#[trigger] out@[k]).0@ == hs[k].name@ && out@[k].1 == claims_count(hs, locals, k, entries@.len() as int),
            decreases n_handlers - i,
        {
            let name = self.handlers.handler_name(HandlerId(i));
            out.push((name.to_string(), counts[i]));
            i = i + 1;
        }
        proof {
            assert(ps.len() == entries@.len() + 1);
            assert(res =~= discovered(discoverer, hs, entries@));
        }
        out
    }

    /// Where the bytes of a file come from when no callback gives them: the
    /// patched file on disk, by full path and size, where the patch layer
    /// has the hash, else the archive (`None`); and whether handlers are
    /// bound to the hash, so that the bytes go through them.
    pub fn base_source(&self, hash: Hash40) -> (r: (Option<(String, usize)>, bool))
        requires
            self.wf(),
        ensures
            match self.spec_patch().lookup(hash.0) {
                Some(rec) => r.0 matches Some((p, n)) && p@ == join(rec.1, rec.0) && n == rec.2,
                None => r.0 is None,
            },
            r.1 == (self.spec_handlers().spec_bound(hash.0).len() > 0),
    {
        let source = match self.patch.entry_for_hash(hash) {
            Some((local, entry)) => Some((entry.full_path(local), entry.size)),
            None => None,
        };
        let ids = self.handlers.handlers_for_hash(hash);
        (source, ids.len() > 0)
    }

    /// Counts the files of the patch layer; virtual files are not counted.
    pub fn populate_stats(&self) -> (r: ModFsStats)
        requires
            self.wf(),
        ensures
            r.patch_files == self.spec_patch().spec_num_entries(),
            r.virtual_files == 0,
    {
        let files = self.patch.iter_files();
        ModFsStats { patch_files: files.len(), virtual_files: 0 }
    }

    /// Whether a path names a patched file or a directory holding one.
    pub fn path_exists(&self, path: &str) -> (r: bool)
        requires
            self.wf(),
        ensures
            r == (spec_entry_type(self.spec_patch(), path@) is Some),
    {
        self.entry_type(path).is_some()
    }
}

/// `x` is one of the files, or the parent of a path of `s`.
pub open spec fn explained(s: Seq<Seq<char>>, files: Seq<Seq<char>>, x: Seq<char>) -> bool {
    files.contains(x) || exists|y: Seq<char>| #[trigger] s.contains(y) && local_parent(y) == Some(x)
}

/// Every path of `s` is explained by `s` and the files.
pub open spec fn all_explained(s: Seq<Seq<char>>, files: Seq<Seq<char>>) -> bool {
    forall|x: Seq<char>| #[trigger] s.contains(x) ==> explained(s, files, x)
}

proof fn lemma_walk_up_keeps(seen: Seq<Seq<char>>, child: Seq<char>, x: Seq<char>)
    requires
        seen.contains(x),
    ensures
        walk_up(seen, child).contains(x),
    decreases child.len(),
{
    match local_parent(child) {
        None => {},
        Some(p) => {
            lemma_parent_shorter(child);
            let s2 = add_seen(seen, child);
            if !seen.contains(child) {
                let i = choose|i: int| 0 <= i < seen.len() && seen[i] == x;
                assert(s2[i] == x);
            }
            lemma_walk_up_keeps(s2, p, x);
        },
    }
}

proof fn lemma_walk_up_explained(seen: Seq<Seq<char>>, child: Seq<char>, files: Seq<Seq<char>>)
    requires
        all_explained(seen, files),
        explained(seen, files, child),
    ensures
        all_explained(walk_up(seen, child), files),
    decreases child.len(),
{
    match local_parent(child) {
        None => {
            assert forall|x: Seq<char>| #[trigger] walk_up(seen, child).contains(x) implies explained(walk_up(seen, child), files, x) by {
                assert(explained(seen, files, x));
                if !files.contains(x) {
                    let y = choose|y: Seq<char>| #[trigger] seen.contains(y) && local_parent(y) == Some(x);
                    assert(walk_up(seen, child).contains(y));
                }
            }
        },
        Some(p) => {
            lemma_parent_shorter(child);
            let s2 = add_seen(seen, child);
            assert(s2.contains(child)) by {
                if !seen.contains(child) {
                    assert(s2[seen.len() as int] == child);
                }
            }
            assert forall|x: Seq<char>| #[trigger] s2.contains(x) implies explained(s2, files, x) by {
                if x == child {
                    if !files.contains(x) {
                        let y = choose|y: Seq<char>| #[trigger] seen.contains(y) && local_parent(y) == Some(x);
                        let i = choose|i: int| 0 <= i < seen.len() && seen[i] == y;
                        if !seen.contains(child) {
                            assert(s2[i] == y);
                        }
                        assert(s2.contains(y));
                    }
                } else {
                    if !seen.contains(child) {
                        let i = choose|i: int| 0 <= i < s2.len() && s2[i] == x;
                        assert(seen[i] == x);
                    }
                    assert(seen.contains(x));
                    assert(explained(seen, files, x));
                    if !files.contains(x) {
                        let y = choose|y: Seq<char>| #[trigger] seen.contains(y) && local_parent(y) == Some(x);
                        let i = choose|i: int| 0 <= i < seen.len() && seen[i] == y;
                        if !seen.contains(child) {
                            assert(s2[i] == y);
                        }
                        assert(s2.contains(y));
                    }
                }
            }
            assert(explained(s2, files, p));
            lemma_walk_up_explained(s2, p, files);
        },
    }
}

proof fn lemma_filter_from(s: Seq<Seq<char>>, pred: spec_fn(Seq<char>) -> bool, i: int)
    requires
        0 <= i < s.filter(pred).len(),
    ensures
        s.contains(s.filter(pred)[i]),
    decreases s.len(),
{
    reveal(Seq::filter);
    if s.len() > 0 {
        let sub = s.drop_last().filter(pred);
        if i < sub.len() {
            lemma_filter_from(s.drop_last(), pred, i);
            let j = choose|j: int| 0 <= j < s.drop_last().len() && s.drop_last()[j] == sub[i];
            assert(s[j] == sub[i]);
        } else {
            assert(s[s.len() - 1] == s.filter(pred)[i]);
        }
    }
}

proof fn lemma_seen_paths_explained(files: Seq<Seq<char>>, n: int)
    requires
        0 <= n <= files.len(),
    ensures
        all_explained(seen_paths(files, n), files),
    decreases n,
{
    if n > 0 {
        lemma_seen_paths_explained(files, n - 1);
        assert(files.contains(files[n - 1]));
        lemma_walk_up_explained(seen_paths(files, n - 1), files[n - 1], files);
    }
}

/// Every path that `read_dir` lists exists: it is a patched file or a
/// directory holding one.
pub proof fn law_listed_paths_exist<C>(fs: ModFs<C>, dir: Seq<char>, i: int)
    requires
        fs.wf(),
        0 <= i < dir_children(fs.spec_patch(), dir).len(),
    ensures
        spec_entry_type(fs.spec_patch(), dir_children(fs.spec_patch(), dir)[i]) is Some,
{
    let patch = fs.spec_patch();
    let all = indexed_paths(patch);
    let files = patched_locals(patch);
    let x = dir_children(patch, dir)[i];
    lemma_filter_from(all, child_of(dir), i);
    assert(all.contains(x));
    lemma_seen_paths_explained(files, patch.spec_num_entries() as int);
    assert(explained(all, files, x));
    if files.contains(x) {
        let k = choose|k: int| 0 <= k < files.len() && files[k] == x;
        patch.lemma_recorded_path_found(k);
    } else {
        let y = choose|y: Seq<char>| #[trigger] all.contains(y) && local_parent(y) == Some(x);
        let j = choose|j: int| 0 <= j < all.len() && all[j] == y;
        assert(local_parent(all[j]) == Some(x));
        assert(is_indexed_dir(patch, x));
    }
}

} // verus!
