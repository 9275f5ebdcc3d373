//! Chains of callbacks that stand in for a file, newest first, handed out
//! one at a time.
use std::collections::HashMap;
use vstd::prelude::*;

use crate::hashing::Hash40;

verus! {

broadcast use vstd::std_specs::hash::group_hash_axioms;

/// One callback that can produce a file, and the most bytes it may produce.
pub struct VirtualEntry<C> {
    pub callback: C,
    pub max_size: usize,
}

/// The callbacks registered for one file, newest first, with a cursor that
/// marks how many of them are in use.
pub struct VirtualChain<C> {
    entries: Vec<VirtualEntry<C>>,
    cursor: usize,
}

/// The largest `max_size` among the entries, 0 when there is none.
pub open spec fn max_size_of<C>(s: Seq<VirtualEntry<C>>) -> nat
    decreases s.len(),
{
    if s.len() == 0 {
        0
    } else {
        let rest = max_size_of(s.drop_last());
        if s.last().max_size > rest {
            s.last().max_size as nat
        } else {
            rest
        }
    }
}

proof fn lemma_max_size_bound<C>(s: Seq<VirtualEntry<C>>)
    ensures
        max_size_of(s) <= usize::MAX,
        forall|i: int| 0 <= i < s.len() ==> s[i].max_size <= max_size_of(s),
        s.len() > 0 ==> exists|i: int| 0 <= i < s.len() && s[i].max_size == max_size_of(s),
    decreases s.len(),
{
    if s.len() > 0 {
        lemma_max_size_bound(s.drop_last());
        if max_size_of(s.drop_last()) >= s.last().max_size && s.len() > 1 {
            let i = choose|i: int| 0 <= i < s.drop_last().len() && s.drop_last()[i].max_size == max_size_of(s.drop_last());
            assert(s[i].max_size == max_size_of(s));
        }
        assert forall|i: int| 0 <= i < s.len() implies s[i].max_size <= max_size_of(s) by {
            if i < s.len() - 1 {
                assert(s[i] == s.drop_last()[i]);
            }
        }
    }
}

impl<C> VirtualChain<C> {
    /// The entries, newest first.
    pub closed spec fn spec_entries(&self) -> Seq<VirtualEntry<C>> {
        self.entries@
    }

    /// How many entries are handed out.
    pub closed spec fn spec_cursor(&self) -> nat {
        self.cursor as nat
    }

    pub fn new() -> (r: Self)
        ensures
            r.spec_entries() == Seq::<VirtualEntry<C>>::empty(),
            r.spec_cursor() == 0,
    {
        VirtualChain { entries: Vec::new(), cursor: 0 }
    }

    /// Puts a new entry in front of the others.
    pub fn push(&mut self, entry: VirtualEntry<C>)
        ensures
            final(self).spec_entries() == seq![entry] + old(self).spec_entries(),
            final(self).spec_cursor() == old(self).spec_cursor(),
    {
        self.entries.insert(0, entry);
        assert(self.entries@ =~= seq![entry] + old(self).entries@);
    }

    pub fn len(&self) -> (r: usize)
        ensures
            r == self.spec_entries().len(),
    {
        self.entries.len()
    }

    pub fn is_empty(&self) -> (r: bool)
        ensures
            r == (self.spec_entries().len() == 0),
    {
        self.entries.len() == 0
    }

    /// The largest `max_size` of the entries, 0 for an empty chain.
    pub fn max_size(&self) -> (r: usize)
        ensures
            r == max_size_of(self.spec_entries()),
    {
        let mut best: usize = 0;
        let mut i: usize = 0;
        while i < self.entries.len()
            invariant
                i <= self.entries.len(),
                best == max_size_of(self.entries@.subrange(0, i as int)),
            decreases self.entries.len() - i,
        {
            proof {
                let s = self.entries@.subrange(0, i as int + 1);
                assert(s.drop_last() =~= self.entries@.subrange(0, i as int));
                assert(s.last() == self.entries@[i as int]);
            }
            if self.entries[i].max_size > best {
                best = self.entries[i].max_size;
            }
            i = i + 1;
        }
        assert(self.entries@.subrange(0, self.entries.len() as int) =~= self.entries@);
        best
    }

    pub fn entries(&self) -> (r: &[VirtualEntry<C>])
        ensures
            r@ == self.spec_entries(),
    {
        self.entries.as_slice()
    }

    /// Hands out the next entry that is not in use and moves the cursor past
    /// it; `None` when all are in use.
    pub fn take_next(&mut self) -> (r: Option<&VirtualEntry<C>>)
        ensures
            final(self).spec_entries() == old(self).spec_entries(),
            old(self).spec_cursor() < old(self).spec_entries().len() ==> {
                &&& r == Some(&old(self).spec_entries()[old(self).spec_cursor() as int])
                &&& final(self).spec_cursor() == old(self).spec_cursor() + 1
            },
            old(self).spec_cursor() >= old(self).spec_entries().len() ==> {
                &&& r is None
                &&& final(self).spec_cursor() == old(self).spec_cursor()
            },
    {
        if self.cursor < self.entries.len() {
            let i = self.cursor;
            self.cursor = i + 1;
            Some(&self.entries[i])
        } else {
            None
        }
    }

    /// Gives back one entry: the cursor moves back by one, unless it is at 0.
    pub fn release(&mut self)
        ensures
            final(self).spec_entries() == old(self).spec_entries(),
            final(self).spec_cursor() == if old(self).spec_cursor() > 0 {
                (old(self).spec_cursor() - 1) as nat
            } else {
                0
            },
    {
        if self.cursor > 0 {
            self.cursor = self.cursor - 1;
        }
    }
}

/// Handing out an entry and giving it back leaves the chain as it was.
pub proof fn law_take_then_release<C>(
    before: VirtualChain<C>,
    taken: VirtualChain<C>,
    after: VirtualChain<C>,
)
    requires
        before.spec_cursor() < before.spec_entries().len(),
        taken.spec_entries() == before.spec_entries(),
        taken.spec_cursor() == before.spec_cursor() + 1,
        after.spec_entries() == taken.spec_entries(),
        after.spec_cursor() == (taken.spec_cursor() - 1) as nat,
    ensures
        after.spec_entries() == before.spec_entries(),
        after.spec_cursor() == before.spec_cursor(),
{
}

/// The largest size of a chain bounds the size of every entry and is the
/// size of one of them.
pub proof fn law_max_size_is_maximum<C>(chain: VirtualChain<C>)
    ensures
        forall|i: int| 0 <= i < chain.spec_entries().len() ==> chain.spec_entries()[i].max_size <= max_size_of(chain.spec_entries()),
        chain.spec_entries().len() > 0 ==> exists|i: int| 0 <= i < chain.spec_entries().len() && chain.spec_entries()[i].max_size == max_size_of(chain.spec_entries()),
        chain.spec_entries().len() == 0 ==> max_size_of(chain.spec_entries()) == 0,
{
    lemma_max_size_bound(chain.spec_entries());
}

/// The chains of callbacks, by the hash of the file they stand in for.
pub struct VirtualLayer<C> {
    chains: HashMap<u64, VirtualChain<C>>,
}

impl<C> VirtualLayer<C> {
    /// The chains, by hash.
    pub closed spec fn spec_chains(&self) -> Map<u64, VirtualChain<C>> {
        self.chains@
    }

    /// The entries registered for a hash, newest first.
    pub open spec fn spec_registered(&self, hash: u64) -> Seq<VirtualEntry<C>> {
        if self.spec_chains().contains_key(hash) {
            self.spec_chains()[hash].spec_entries()
        } else {
            Seq::empty()
        }
    }

    pub fn new() -> (r: Self)
        ensures
            r.spec_chains() == Map::<u64, VirtualChain<C>>::empty(),
    {
        VirtualLayer { chains: HashMap::new() }
    }

    /// Registers a callback for a hash, in front of those registered before.
    pub fn register(&mut self, hash: Hash40, entry: VirtualEntry<C>)
        ensures
            final(self).spec_chains().contains_key(hash.0),
            final(self).spec_registered(hash.0) == seq![entry] + old(self).spec_registered(hash.0),
            final(self).spec_chains()[hash.0].spec_cursor() == (if old(self).spec_chains().contains_key(hash.0) {
                old(self).spec_chains()[hash.0].spec_cursor()
            } else {
                0
            }),
            forall|h: u64| h != hash.0 ==> #[trigger] final(self).spec_chains().contains_key(h) == old(self).spec_chains().contains_key(h)
                && (old(self).spec_chains().contains_key(h) ==> final(self).spec_chains()[h] == old(self).spec_chains()[h]),
    {
        let mut chain = match self.chains.remove(&hash.0) {
            Some(c) => c,
            None => VirtualChain::new(),
        };
        chain.push(entry);
        self.chains.insert(hash.0, chain);
    }

    /// The chain registered for a hash, if any.
    pub fn chain(&self, hash: Hash40) -> (r: Option<&VirtualChain<C>>)
        ensures
            match r {
                Some(c) => self.spec_chains().contains_key(hash.0) && *c == self.spec_chains()[hash.0],
                None => !self.spec_chains().contains_key(hash.0),
            },
    {
        self.chains.get(&hash.0)
    }

    pub fn contains(&self, hash: Hash40) -> (r: bool)
        ensures
            r == self.spec_chains().contains_key(hash.0),
    {
        self.chains.contains_key(&hash.0)
    }

    /// The largest size the callbacks for a hash may produce, if any are
    /// registered.
    pub fn max_size(&self, hash: Hash40) -> (r: Option<usize>)
        ensures
            match r {
                Some(s) => self.spec_chains().contains_key(hash.0) && s == max_size_of(self.spec_registered(hash.0)),
                None => !self.spec_chains().contains_key(hash.0),
            },
    {
        match self.chains.get(&hash.0) {
            Some(c) => Some(c.max_size()),
            None => None,
        }
    }
}

/// A chain grown from an empty one by pushing the given entries in turn
/// holds them newest first, so its length is the number of pushes.
pub proof fn law_length_counts_pushes<C>(chains: Seq<VirtualChain<C>>, pushed: Seq<VirtualEntry<C>>)
    requires
        chains.len() == pushed.len() + 1,
        chains[0].spec_entries().len() == 0,
        forall|k: int| 0 <= k < pushed.len() ==> (#[trigger] chains[k + 1]).spec_entries() == seq![pushed[k]] + chains[k].spec_entries(),
    ensures
        chains[pushed.len() as int].spec_entries().len() == pushed.len(),
        chains[pushed.len() as int].spec_entries() == pushed.reverse(),
    decreases pushed.len(),
{
    if pushed.len() > 0 {
        let n = pushed.len() - 1;
        law_length_counts_pushes(chains.subrange(0, n + 1), pushed.subrange(0, n));
        assert(chains.subrange(0, n + 1)[n] == chains[n]);
        assert(chains[n + 1].spec_entries() == seq![pushed[n]] + chains[n].spec_entries());
        assert(pushed.subrange(0, n).reverse() == chains[n].spec_entries());
        assert(pushed.reverse() =~= seq![pushed[n]] + pushed.subrange(0, n).reverse());
    } else {
        assert(pushed.reverse() =~= Seq::<VirtualEntry<C>>::empty());
    }
}

/// Any run of `take_next` and `release` calls leaves the entries, and so
/// the length and the largest size, as they were.
pub proof fn law_entries_kept<C>(chains: Seq<VirtualChain<C>>)
    requires
        chains.len() > 0,
        forall|k: int| 0 <= k < chains.len() - 1 ==> ((#[trigger] chains[k + 1]).spec_entries() == chains[k].spec_entries()),
    ensures
        chains.last().spec_entries() == chains[0].spec_entries(),
        chains.last().spec_entries().len() == chains[0].spec_entries().len(),
        max_size_of(chains.last().spec_entries()) == max_size_of(chains[0].spec_entries()),
    decreases chains.len(),
{
    if chains.len() > 1 {
        let c = chains.drop_last();
        assert forall|k: int| 0 <= k < c.len() - 1 implies ((#[trigger] c[k + 1]).spec_entries() == c[k].spec_entries()) by {
            assert(c[k + 1] == chains[k + 1]);
            assert(c[k] == chains[k]);
        }
        law_entries_kept(c);
        let k = chains.len() - 2;
        assert(chains[k + 1].spec_entries() == chains[k].spec_entries());
        assert(c.last() == chains[k]);
        assert(c[0] == chains[0]);
    }
}

} // verus!
