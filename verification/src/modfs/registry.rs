//! Which handler patches which file: handlers are found by file name or
//! extension, and bound to archive hashes once they have claimed a file.
use std::collections::HashMap;
use vstd::prelude::*;

use crate::hashing::Hash40;
use crate::modfs::ModFsError;
use crate::path::{chars_of, extension, extension_of, file_name, file_name_of, chars_eq};

verus! {

broadcast use vstd::std_specs::hash::group_hash_axioms;

/// The number of a registered handler, in registration order.
#[derive(Clone, Copy, Debug, PartialEq, Eq, Structural)]
pub struct HandlerId(pub usize);

/// What the registry knows of a handler: its name, whether it patches
/// files as they load, the extensions and file names it claims, and how
/// much it may grow a file.
pub struct HandlerInfo {
    pub name: String,
    pub patches_load: bool,
    pub extensions: Vec<String>,
    pub filenames: Vec<String>,
    pub size_multiplier: u32,
}

/// The claimed names of a handler, as text.
pub open spec fn names_view(v: Seq<String>) -> Seq<Seq<char>> {
    v.map_values(|s: String| s@)
}

/// The last registered handler, among the first `n`, that claims the name
/// through `claims`.
pub open spec fn last_claiming(hs: Seq<HandlerInfo>, n: int, name: Seq<char>, by_filename: bool) -> Option<nat>
    decreases n,
{
    if n <= 0 {
        None
    } else {
        let h = hs[n - 1];
        let list = if by_filename { h.filenames@ } else { h.extensions@ };
        if names_view(list).contains(name) {
            Some((n - 1) as nat)
        } else {
            last_claiming(hs, n - 1, name, by_filename)
        }
    }
}

/// The handler for a local path: the last one registered that claims its
/// file name, else the last one that claims its extension.
pub open spec fn spec_lookup(hs: Seq<HandlerInfo>, local: Seq<char>) -> Option<nat> {
    let by_name = match file_name(local) {
        Some(n) => last_claiming(hs, hs.len() as int, n, true),
        None => None,
    };
    if by_name is Some {
        by_name
    } else {
        match extension(local) {
            Some(e) => last_claiming(hs, hs.len() as int, e, false),
            None => None,
        }
    }
}

/// The largest size multiplier among the given handlers, 0 for none.
pub open spec fn max_multiplier(hs: Seq<HandlerInfo>, ids: Seq<HandlerId>) -> nat
    decreases ids.len(),
{
    if ids.len() == 0 {
        0
    } else {
        let rest = max_multiplier(hs, ids.drop_last());
        let m = hs[ids.last().0 as int].size_multiplier as nat;
        if m > rest {
            m
        } else {
            rest
        }
    }
}

/// What a handler does to a file's bytes: the `apply` step of a file
/// handler. `spec_apply` says what `apply` gives for a handler, a hash and
/// the bytes; each implementation defines it and is held to it.
pub trait Applier {
    spec fn spec_apply(&self, handler: HandlerId, hash: Hash40, bytes: Seq<u8>) -> Result<Seq<u8>, ModFsError>;

    fn apply(&self, handler: HandlerId, hash: Hash40, bytes: Vec<u8>) -> (r: Result<Vec<u8>, ModFsError>)
        ensures
            same_outcome(r, self.spec_apply(handler, hash, bytes@)),
    ;
}

/// Handlers that keep the default `apply` of a file handler, which gives
/// the bytes back as they were (the configuration handler does).
pub struct DefaultApplier;

impl Applier for DefaultApplier {
    open spec fn spec_apply(&self, handler: HandlerId, hash: Hash40, bytes: Seq<u8>) -> Result<Seq<u8>, ModFsError> {
        Ok(bytes)
    }

    fn apply(&self, handler: HandlerId, hash: Hash40, bytes: Vec<u8>) -> (r: Result<Vec<u8>, ModFsError>) {
        Ok(bytes)
    }
}

/// An outcome of `apply` as values.
pub open spec fn same_outcome(r: Result<Vec<u8>, ModFsError>, s: Result<Seq<u8>, ModFsError>) -> bool {
    match (r, s) {
        (Ok(b), Ok(t)) => b@ == t,
        (Err(e), Err(f)) => e == f,
        _ => false,
    }
}

/// The bytes after the first `n` handlers of `ids` were applied in turn,
/// each to what the one before gave; the first error stops the chain.
pub open spec fn chain_upto<A: Applier>(a: &A, ids: Seq<HandlerId>, hash: Hash40, bytes: Seq<u8>, n: int) -> Result<Seq<u8>, ModFsError>
    decreases n,
{
    if n <= 0 {
        Ok(bytes)
    } else {
        match chain_upto(a, ids, hash, bytes, n - 1) {
            Ok(b) => a.spec_apply(ids[n - 1], hash, b),
            Err(e) => Err(e),
        }
    }
}

proof fn lemma_chain_stops<A: Applier>(a: &A, ids: Seq<HandlerId>, hash: Hash40, bytes: Seq<u8>, k: int, n: int)
    requires
        0 < k <= n,
        chain_upto(a, ids, hash, bytes, k) is Err,
    ensures
        chain_upto(a, ids, hash, bytes, n) == chain_upto(a, ids, hash, bytes, k),
    decreases n - k,
{
    if k < n {
        lemma_chain_stops(a, ids, hash, bytes, k, n - 1);
    }
}

/// The handlers that can patch files, and the archive hashes they are bound to.
pub struct HandlerRegistry {
    handlers: Vec<HandlerInfo>,
    by_hash: HashMap<u64, Vec<HandlerId>>,
}

fn contains_name(list: &Vec<String>, name: &Vec<char>) -> (r: bool)
    ensures
        r == names_view(list@).contains(name@),
{
    let mut i: usize = 0;
    while i < list.len()
        invariant
            i <= list.len(),
            forall|j: int| 0 <= j < i ==> list@[j]@ != name@,
        decreases list.len() - i,
    {
        let c = chars_of(list[i].as_str());
        if chars_eq(&c, name) {
            proof {
                assert(names_view(list@)[i as int] == name@);
            }
            return true;
        }
        i = i + 1;
    }
    proof {
        if names_view(list@).contains(name@) {
            let j = choose|j: int| 0 <= j < names_view(list@).len() && names_view(list@)[j] == name@;
            assert(list@[j]@ == name@);
        }
    }
    false
}

impl HandlerRegistry {
    /// Every bound handler is a registered one.
    pub closed spec fn wf(&self) -> bool {
        forall|h: u64, i: int| #[trigger] self.by_hash@.contains_key(h) && 0 <= i < self.by_hash@[h]@.len() ==> (#[trigger] self.by_hash@[h]@[i].0 as int) < self.handlers@.len()
    }

    pub closed spec fn spec_handlers(&self) -> Seq<HandlerInfo> {
        self.handlers@
    }

    /// The handlers bound to a hash, in binding order.
    pub closed spec fn spec_bound(&self, hash: u64) -> Seq<HandlerId> {
        if self.by_hash@.contains_key(hash) {
            self.by_hash@[hash]@
        } else {
            Seq::empty()
        }
    }

    pub fn new() -> (r: Self)
        ensures
            r.wf(),
            r.spec_handlers().len() == 0,
            forall|h: u64| r.spec_bound(h).len() == 0,
    {
        HandlerRegistry { handlers: Vec::new(), by_hash: HashMap::new() }
    }

    /// Adds a handler and returns its number.
    pub fn register(&mut self, handler: HandlerInfo) -> (r: HandlerId)
        requires
            old(self).wf(),
        ensures
            final(self).wf(),
            r.0 == old(self).spec_handlers().len(),
            final(self).spec_handlers() == old(self).spec_handlers().push(handler),
            forall|h: u64| #[trigger] final(self).spec_bound(h) == old(self).spec_bound(h),
    {
        let id = HandlerId(self.handlers.len());
        self.handlers.push(handler);
        id
    }

    /// The handler that claims a local path, by file name first, then by extension.
    pub fn lookup(&self, local: &str) -> (r: Option<HandlerId>)
        ensures
            match spec_lookup(self.spec_handlers(), local@) {
                Some(i) => r == Some(HandlerId(i as usize)),
                None => r is None,
            },
    {
        let p = chars_of(local);
        match file_name_of(&p) {
            Some(name) => match self.last_claiming(&name, true) {
                Some(id) => return Some(id),
                None => {},
            },
            None => {},
        }
        match extension_of(&p) {
            Some(ext) => self.last_claiming(&ext, false),
            None => None,
        }
    }

    fn last_claiming(&self, name: &Vec<char>, by_filename: bool) -> (r: Option<HandlerId>)
        ensures
            match last_claiming(self.spec_handlers(), self.spec_handlers().len() as int, name@, by_filename) {
                Some(i) => r == Some(HandlerId(i as usize)),
                None => r is None,
            },
    {
        let mut n = self.handlers.len();
        while n > 0
            invariant
                n <= self.handlers@.len(),
                last_claiming(self.handlers@, self.handlers@.len() as int, name@, by_filename)
                    == last_claiming(self.handlers@, n as int, name@, by_filename),
            decreases n,
        {
            let h = &self.handlers[n - 1];
            let found = if by_filename {
                contains_name(&h.filenames, name)
            } else {
                contains_name(&h.extensions, name)
            };
            if found {
                return Some(HandlerId(n - 1));
            }
            n = n - 1;
        }
        None
    }

    pub fn handler_name(&self, id: HandlerId) -> (r: &str)
        requires
            (id.0 as int) < self.spec_handlers().len(),
        ensures
            r@ == self.spec_handlers()[id.0 as int].name@,
    {
        self.handlers[id.0].name.as_str()
    }

    pub fn len(&self) -> (r: usize)
        ensures
            r == self.spec_handlers().len(),
    {
        self.handlers.len()
    }

    /// Binds a handler to an archive hash, after those bound before.
    pub fn bind_hash(&mut self, hash: Hash40, id: HandlerId)
        requires
            old(self).wf(),
            (id.0 as int) < old(self).spec_handlers().len(),
        ensures
            final(self).wf(),
            final(self).spec_handlers() == old(self).spec_handlers(),
            final(self).spec_bound(hash.0) == old(self).spec_bound(hash.0).push(id),
            forall|h: u64| h != hash.0 ==> #[trigger] final(self).spec_bound(h) == old(self).spec_bound(h),
    {
        let mut list = match self.by_hash.remove(&hash.0) {
            Some(v) => v,
            None => Vec::new(),
        };
        list.push(id);
        self.by_hash.insert(hash.0, list);
        proof {
            assert forall|h: u64, i: int| #[trigger] self.by_hash@.contains_key(h) && 0 <= i < self.by_hash@[h]@.len() implies (#[trigger] self.by_hash@[h]@[i].0 as int) < self.handlers@.len() by {
                if h != hash.0 {
                    assert(old(self).by_hash@.contains_key(h));
                }
            }
        }
    }

    /// The handlers bound to a hash, in binding order.
    pub fn handlers_for_hash(&self, hash: Hash40) -> (r: Vec<HandlerId>)
        ensures
            r@ == self.spec_bound(hash.0),
    {
        match self.by_hash.get(&hash.0) {
            Some(v) => v.clone(),
            None => Vec::new(),
        }
    }

    /// Whether some handler bound to the hash patches files as they load.
    pub fn has_load_patchers(&self, hash: Hash40) -> (r: bool)
        requires
            self.wf(),
        ensures
            r == exists|i: int| 0 <= i < self.spec_bound(hash.0).len()
                && self.spec_handlers()[#[trigger] self.spec_bound(hash.0)[i].0 as int].patches_load,
    {
        let ids = self.handlers_for_hash(hash);
        let mut i: usize = 0;
        while i < ids.len()
            invariant
                self.wf(),
                ids@ == self.spec_bound(hash.0),
                i <= ids.len(),
                forall|j: int| 0 <= j < i ==> !self.handlers@[#[trigger] ids@[j].0 as int].patches_load,
            decreases ids.len() - i,
        {
            proof {
                assert(self.by_hash@.contains_key(hash.0));
            }
            if self.handlers[ids[i].0].patches_load {
                return true;
            }
            i = i + 1;
        }
        false
    }

    /// The largest size multiplier of the handlers bound to the hash, 0 for none.
    pub fn size_multiplier_for_hash(&self, hash: Hash40) -> (r: u32)
        requires
            self.wf(),
        ensures
            r == max_multiplier(self.spec_handlers(), self.spec_bound(hash.0)),
    {
        let ids = self.handlers_for_hash(hash);
        let mut best: u32 = 0;
        let mut i: usize = 0;
        while i < ids.len()
            invariant
                self.wf(),
                ids@ == self.spec_bound(hash.0),
                i <= ids.len(),
                best == max_multiplier(self.handlers@, ids@.subrange(0, i as int)),
            decreases ids.len() - i,
        {
            proof {
                assert(self.by_hash@.contains_key(hash.0));
                let s = ids@.subrange(0, i as int + 1);
                assert(s.drop_last() =~= ids@.subrange(0, i as int));
            }
            let m = self.handlers[ids[i].0].size_multiplier;
            if m > best {
                best = m;
            }
            i = i + 1;
        }
        assert(ids@.subrange(0, ids.len() as int) =~= ids@);
        best
    }

    /// Hands the bytes to each handler bound to the hash, in binding order,
    /// each taking what the one before gave back; the first error stops the
    /// chain. With no handler bound, the bytes come back as they were.
    pub fn apply_chain<A: Applier>(&self, hash: Hash40, bytes: Vec<u8>, applier: &A) -> (r: Result<Vec<u8>, ModFsError>)
        ensures
            same_outcome(r, chain_upto(applier, self.spec_bound(hash.0), hash, bytes@, self.spec_bound(hash.0).len() as int)),
    {
        let ids = self.handlers_for_hash(hash);
        let ghost given = bytes@;
        let mut out = bytes;
        let mut i: usize = 0;
        while i < ids.len()
            invariant
                i <= ids.len(),
                ids@ == self.spec_bound(hash.0),
                given == bytes@,
                chain_upto(applier, ids@, hash, given, i as int) == Ok::<Seq<u8>, ModFsError>(out@),
            decreases ids.len() - i,
        {
            let ghost cur = out@;
            match applier.apply(ids[i], hash, out) {
                Ok(b) => {
                    out = b;
                },
                Err(e) => {
                    proof {
                        assert(chain_upto(applier, ids@, hash, given, i as int + 1) == applier.spec_apply(ids@[i as int], hash, cur));
                        lemma_chain_stops(applier, ids@, hash, given, i as int + 1, ids@.len() as int);
                    }
                    return Err(e);
                },
            }
            i = i + 1;
        }
        Ok(out)
    }
}

} // verus!
