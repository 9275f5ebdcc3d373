//! The game's containers, as values: a growable array and the list of
//! pending load requests.
use vstd::prelude::*;

verus! {

/// A growable array laid out like the game's C++ vector: its elements and
/// the number of elements it has room for.
pub struct CppVector<T> {
    items: Vec<T>,
    capacity: usize,
}

/// The room a vector has after doubling `cap` until it holds `need`
/// elements; room of 0 never grows.
pub open spec fn grown_capacity(cap: nat, need: nat) -> nat
    decreases need - cap,
{
    if need <= cap || cap == 0 {
        cap
    } else if need <= cap * 2 {
        cap * 2
    } else {
        grown_capacity(cap * 2, need)
    }
}

proof fn lemma_grown_bounds(cap: nat, need: nat)
    ensures
        grown_capacity(cap, need) >= cap,
        cap > 0 ==> grown_capacity(cap, need) >= need,
    decreases need - cap,
{
    if !(need <= cap || cap == 0) && !(need <= cap * 2) {
        lemma_grown_bounds(cap * 2, need);
    }
}

impl<T> View for CppVector<T> {
    type V = Seq<T>;

    closed spec fn view(&self) -> Seq<T> {
        self.items@
    }
}

impl<T> CppVector<T> {
    /// The number of elements the vector has room for.
    pub closed spec fn spec_capacity(&self) -> nat {
        self.capacity as nat
    }

    /// An empty vector with no room.
    pub fn new() -> (r: Self)
        ensures
            r@ == Seq::<T>::empty(),
            r.spec_capacity() == 0,
    {
        CppVector { items: Vec::new(), capacity: 0 }
    }

    /// An empty vector with room for `cap` elements.
    pub fn with_capacity(cap: usize) -> (r: Self)
        ensures
            r@ == Seq::<T>::empty(),
            r.spec_capacity() == cap,
    {
        CppVector { items: Vec::with_capacity(cap), capacity: cap }
    }

    /// Appends an element; a full vector first doubles its room.
    pub fn push(&mut self, val: T)
        requires
            old(self)@.len() + 1 > old(self).spec_capacity() ==> old(self)@.len() + 1 <= old(self).spec_capacity() * 2 <= usize::MAX,
        ensures
            final(self)@ == old(self)@.push(val),
            final(self).spec_capacity() == if old(self)@.len() + 1 > old(self).spec_capacity() {
                old(self).spec_capacity() * 2
            } else {
                old(self).spec_capacity()
            },
    {
        if self.items.len() >= self.capacity {
            self.capacity = self.capacity * 2;
        }
        self.items.push(val);
    }

    /// Makes room for `additional` more elements: where they do not fit,
    /// the room doubles once. The contents stay as they are.
    pub fn reserve(&mut self, additional: usize)
        requires
            old(self)@.len() + additional > old(self).spec_capacity() ==> 0 < old(self).spec_capacity() * 2 <= usize::MAX,
        ensures
            final(self)@ == old(self)@,
            final(self).spec_capacity() == if old(self)@.len() + additional > old(self).spec_capacity() {
                old(self).spec_capacity() * 2
            } else {
                old(self).spec_capacity()
            },
    {
        let len = self.items.len();
        if len > self.capacity || additional > self.capacity - len {
            self.capacity = self.capacity * 2;
        }
        self.items.reserve(additional);
    }

    pub fn iter(&self) -> (r: CppVectorIterator<'_, T>)
        ensures
            r.spec_vector()@ == self@,
            r.spec_index() == 0,
    {
        CppVectorIterator { vector: self, index: 0 }
    }

    pub fn len(&self) -> (r: usize)
        ensures
            r == self@.len(),
    {
        self.items.len()
    }

    /// The element at an index, to change in place; `None` past the end.
    pub fn get_mut(&mut self, index: usize) -> (r: Option<&mut T>)
        ensures
            index < old(self)@.len() ==> (r matches Some(x) && *x == old(self)@[index as int]
                && final(self)@ == old(self)@.update(index as int, *final(x))),
            index >= old(self)@.len() ==> r is None && final(self)@ == old(self)@,
            final(self).spec_capacity() == old(self).spec_capacity(),
    {
        if index < self.items.len() {
            Some(&mut self.items[index])
        } else {
            None
        }
    }

    pub fn as_slice(&self) -> (r: &[T])
        ensures
            r@ == self@,
    {
        self.items.as_slice()
    }

    /// The element at an index, if there is one.
    pub fn get(&self, index: usize) -> (r: Option<&T>)
        ensures
            index < self@.len() ==> r == Some(&self@[index as int]),
            index >= self@.len() ==> r is None,
    {
        if index < self.items.len() {
            Some(&self.items[index])
        } else {
            None
        }
    }

    /// Appends copies of the elements of a slice; the room doubles until
    /// they fit.
    pub fn extend_from_slice(&mut self, slice: &[T])
        where T: Copy + Clone,
        requires
            old(self)@.len() + slice@.len() <= old(self).spec_capacity() || old(self).spec_capacity() > 0,
            grown_capacity(old(self).spec_capacity(), old(self)@.len() + slice@.len()) <= usize::MAX,
        ensures
            final(self)@ == old(self)@ + slice@,
            final(self).spec_capacity() == grown_capacity(old(self).spec_capacity(), old(self)@.len() + slice@.len()),
    {
        let ghost need: nat = old(self)@.len() + slice@.len();
        let ghost target = grown_capacity(old(self).spec_capacity(), need);
        proof {
            lemma_grown_bounds(old(self).spec_capacity(), need);
        }
        let len = self.items.len();
        let n = slice.len();
        let total = len + n;
        while self.capacity < total
            invariant
                total == need,
                self.items@ == old(self)@,
                grown_capacity(self.capacity as nat, need) == target,
                self.capacity > 0 || need <= self.capacity,
                self.capacity <= target,
                target <= usize::MAX,
            decreases target - self.capacity,
        {
            proof {
                lemma_grown_bounds((self.capacity * 2) as nat, need);
            }
            self.capacity = self.capacity * 2;
        }
        let mut i: usize = 0;
        while i < slice.len()
            invariant
                i <= slice@.len(),
                self.capacity as nat == target,
                self@ == old(self)@ + slice@.subrange(0, i as int),
            decreases slice@.len() - i,
        {
            self.items.push(slice[i]);
            proof {
                assert(old(self)@ + slice@.subrange(0, i + 1) =~= (old(self)@ + slice@.subrange(0, i as int)).push(slice@[i as int]));
            }
            i = i + 1;
        }
        assert(slice@.subrange(0, slice@.len() as int) =~= slice@);
    }
}

impl<T: Copy + Clone> CppVector<T> {
    /// A vector holding copies of the elements of a slice.
    pub fn from_slice(slice: &[T]) -> (r: Self)
        ensures
            r@ == slice@,
            r.spec_capacity() == slice@.len(),
    {
        let mut v = CppVector::with_capacity(slice.len());
        v.extend_from_slice(slice);
        assert(v@ =~= slice@);
        v
    }
}

/// Walks a vector from the front.
pub struct CppVectorIterator<'a, T> {
    vector: &'a CppVector<T>,
    index: usize,
}

impl<'a, T> CppVectorIterator<'a, T> {
    pub closed spec fn spec_vector(&self) -> &'a CppVector<T> {
        self.vector
    }

    pub closed spec fn spec_index(&self) -> nat {
        self.index as nat
    }

    /// The next element, or `None` past the end.
    pub fn next(&mut self) -> (r: Option<&'a T>)
        ensures
            final(self).spec_vector() == old(self).spec_vector(),
            old(self).spec_index() < old(self).spec_vector()@.len() ==> {
                &&& r == Some(&old(self).spec_vector()@[old(self).spec_index() as int])
                &&& final(self).spec_index() == old(self).spec_index() + 1
            },
            old(self).spec_index() >= old(self).spec_vector()@.len() ==> {
                &&& r is None
                &&& final(self).spec_index() == old(self).spec_index()
            },
    {
        let v: &'a CppVector<T> = self.vector;
        if self.index < v.items.len() {
            let i = self.index;
            self.index = i + 1;
            Some(&v.items[i])
        } else {
            None
        }
    }
}

/// What a load request asks for.
#[derive(Debug, Clone, Copy, PartialEq, Eq, Structural)]
pub enum LoadType {
    Directory,
    File,
}

/// A load request: a directory or a file, by index.
#[derive(Debug, Clone, Copy, PartialEq, Eq, Structural)]
pub struct LoadInfo {
    pub ty: LoadType,
    pub filepath_index: u32,
    pub directory_index: u32,
    pub files_to_load: u32,
}

/// One node of the list of load requests.
#[derive(Debug, Clone, Copy, PartialEq, Eq, Structural)]
pub struct ListNode {
    pub data: LoadInfo,
}

/// A list of load requests, front first; new requests go to the front.
pub struct ResList {
    nodes: Vec<ListNode>,
}

impl View for ResList {
    type V = Seq<LoadInfo>;

    closed spec fn view(&self) -> Seq<LoadInfo> {
        self.nodes@.map_values(|n: ListNode| n.data)
    }
}

impl ResList {
    /// A list holding the given requests, front first.
    pub fn from_infos(infos: &Vec<LoadInfo>) -> (r: Self)
        ensures
            r@ == infos@,
    {
        let mut nodes: Vec<ListNode> = Vec::new();
        let mut i: usize = 0;
        while i < infos.len()
            invariant
                i <= infos@.len(),
                nodes@.len() == i,
                forall|j: int| 0 <= j < i ==> (#[trigger] nodes@[j]).data == infos@[j],
            decreases infos@.len() - i,
        {
            nodes.push(ListNode { data: infos[i] });
            i = i + 1;
        }
        assert(nodes@.map_values(|n: ListNode| n.data) =~= infos@);
        ResList { nodes }
    }

    /// The node at a position from the front.
    pub fn get_node(&self, idx: usize) -> (r: Option<&ListNode>)
        ensures
            idx < self@.len() ==> (r matches Some(n) && n.data == self@[idx as int]),
            idx >= self@.len() ==> r is None,
    {
        if idx >= self.nodes.len() {
            None
        } else {
            Some(&self.nodes[idx])
        }
    }

    pub fn node_iter(&self) -> (r: NodeIter<'_>)
        ensures
            r.spec_list()@ == self@,
            r.spec_count() == 0,
    {
        NodeIter { list: self, count: 0 }
    }

    pub fn len(&self) -> (r: usize)
        ensures
            r == self@.len(),
    {
        self.nodes.len()
    }

    /// Puts a request at the front.
    pub fn insert(&mut self, value: LoadInfo)
        ensures
            final(self)@ == seq![value] + old(self)@,
    {
        self.nodes.insert(0, ListNode { data: value });
        assert(self@ =~= seq![value] + old(self)@);
    }

    /// The request at a position from the front.
    pub fn get(&self, idx: usize) -> (r: Option<&LoadInfo>)
        ensures
            idx < self@.len() ==> r == Some(&self@[idx as int]),
            idx >= self@.len() ==> r is None,
    {
        if idx >= self.nodes.len() {
            None
        } else {
            Some(&self.nodes[idx].data)
        }
    }

    /// The request at a position from the front, to change in place.
    pub fn get_mut(&mut self, idx: usize) -> (r: Option<&mut LoadInfo>)
        ensures
            idx < old(self)@.len() ==> (r matches Some(x) && *x == old(self)@[idx as int]
                && final(self)@ == old(self)@.update(idx as int, *final(x))),
            idx >= old(self)@.len() ==> r is None && final(self)@ == old(self)@,
    {
        if idx >= self.nodes.len() {
            None
        } else {
            let r = &mut self.nodes[idx].data;
            Some(r)
        }
    }

    pub fn iter(&self) -> (r: ResListIter<'_>)
        ensures
            r.spec_list()@ == self@,
            r.spec_count() == 0,
    {
        ResListIter { list: self, count: 0 }
    }
}

/// Walks the nodes of a request list from the front.
pub struct NodeIter<'a> {
    list: &'a ResList,
    count: usize,
}

impl<'a> NodeIter<'a> {
    pub closed spec fn spec_list(&self) -> &'a ResList {
        self.list
    }

    pub closed spec fn spec_count(&self) -> nat {
        self.count as nat
    }

    /// The next node, or `None` past the end.
    pub fn next(&mut self) -> (r: Option<&'a ListNode>)
        ensures
            final(self).spec_list() == old(self).spec_list(),
            old(self).spec_count() < old(self).spec_list()@.len() ==> {
                &&& (r matches Some(n) && n.data == old(self).spec_list()@[old(self).spec_count() as int])
                &&& final(self).spec_count() == old(self).spec_count() + 1
            },
            old(self).spec_count() >= old(self).spec_list()@.len() ==> r is None && final(self).spec_count() == old(self).spec_count(),
    {
        let list: &'a ResList = self.list;
        if self.count < list.nodes.len() {
            let i = self.count;
            self.count = i + 1;
            Some(&list.nodes[i])
        } else {
            None
        }
    }
}

/// Walks the requests of a list from the front.
pub struct ResListIter<'a> {
    list: &'a ResList,
    count: usize,
}

impl<'a> ResListIter<'a> {
    pub closed spec fn spec_list(&self) -> &'a ResList {
        self.list
    }

    pub closed spec fn spec_count(&self) -> nat {
        self.count as nat
    }

    /// The next request, or `None` past the end.
    pub fn next(&mut self) -> (r: Option<&'a LoadInfo>)
        ensures
            final(self).spec_list() == old(self).spec_list(),
            old(self).spec_count() < old(self).spec_list()@.len() ==> {
                &&& r == Some(&old(self).spec_list()@[old(self).spec_count() as int])
                &&& final(self).spec_count() == old(self).spec_count() + 1
            },
            old(self).spec_count() >= old(self).spec_list()@.len() ==> r is None && final(self).spec_count() == old(self).spec_count(),
    {
        let list: &'a ResList = self.list;
        if self.count < list.nodes.len() {
            let i = self.count;
            self.count = i + 1;
            Some(&list.nodes[i].data)
        } else {
            None
        }
    }
}

/// One call of `CppVectorIterator::next` took the walk from `a` to `b` and gave `r`.
pub open spec fn vector_step<'a, T>(a: CppVectorIterator<'a, T>, b: CppVectorIterator<'a, T>, r: Option<&'a T>) -> bool {
    &&& b.spec_vector() == a.spec_vector()
    &&& a.spec_index() < a.spec_vector()@.len() ==> r == Some(&a.spec_vector()@[a.spec_index() as int]) && b.spec_index() == a.spec_index() + 1
    &&& a.spec_index() >= a.spec_vector()@.len() ==> r is None && b.spec_index() == a.spec_index()
}

proof fn lemma_vector_walk<'a, T>(its: Seq<CppVectorIterator<'a, T>>, rs: Seq<Option<&'a T>>, n: int)
    requires
        its.len() == rs.len() + 1,
        its[0].spec_index() == 0,
        forall|k: int| 0 <= k < rs.len() ==> vector_step(#[trigger] its[k], its[k + 1], rs[k]),
        0 <= n <= rs.len(),
    ensures
        its[n].spec_vector() == its[0].spec_vector(),
        its[n].spec_index() == if n < its[0].spec_vector()@.len() { n } else { its[0].spec_vector()@.len() as int },
    decreases n,
{
    if n > 0 {
        lemma_vector_walk(its, rs, n - 1);
        assert(vector_step(its[n - 1], its[n], rs[n - 1]));
    }
}

/// A walk of a vector from its start gives each element once, in order,
/// and then `None`.
pub proof fn law_vector_walk<'a, T>(its: Seq<CppVectorIterator<'a, T>>, rs: Seq<Option<&'a T>>)
    requires
        its.len() == rs.len() + 1,
        its[0].spec_index() == 0,
        forall|k: int| 0 <= k < rs.len() ==> vector_step(#[trigger] its[k], its[k + 1], rs[k]),
    ensures
        forall|k: int| 0 <= k < rs.len() && k < its[0].spec_vector()@.len() ==> #[trigger] rs[k] == Some(&its[0].spec_vector()@[k]),
        forall|k: int| 0 <= k < rs.len() && k >= its[0].spec_vector()@.len() ==> #[trigger] rs[k] is None,
{
    assert forall|k: int| 0 <= k < rs.len() implies
        (k < its[0].spec_vector()@.len() ==> #[trigger] rs[k] == Some(&its[0].spec_vector()@[k]))
        && (k >= its[0].spec_vector()@.len() ==> rs[k] is None) by {
        lemma_vector_walk(its, rs, k);
        assert(vector_step(its[k], its[k + 1], rs[k]));
    }
}

/// One call of `ResListIter::next` took the walk from `a` to `b` and gave `r`.
pub open spec fn request_step<'a>(a: ResListIter<'a>, b: ResListIter<'a>, r: Option<&'a LoadInfo>) -> bool {
    &&& b.spec_list() == a.spec_list()
    &&& a.spec_count() < a.spec_list()@.len() ==> r == Some(&a.spec_list()@[a.spec_count() as int]) && b.spec_count() == a.spec_count() + 1
    &&& a.spec_count() >= a.spec_list()@.len() ==> r is None && b.spec_count() == a.spec_count()
}

proof fn lemma_request_walk<'a>(its: Seq<ResListIter<'a>>, rs: Seq<Option<&'a LoadInfo>>, n: int)
    requires
        its.len() == rs.len() + 1,
        its[0].spec_count() == 0,
        forall|k: int| 0 <= k < rs.len() ==> request_step(#[trigger] its[k], its[k + 1], rs[k]),
        0 <= n <= rs.len(),
    ensures
        its[n].spec_list() == its[0].spec_list(),
        its[n].spec_count() == if n < its[0].spec_list()@.len() { n } else { its[0].spec_list()@.len() as int },
    decreases n,
{
    if n > 0 {
        lemma_request_walk(its, rs, n - 1);
        assert(request_step(its[n - 1], its[n], rs[n - 1]));
    }
}

/// A walk of a request list from its front gives each request once, in
/// order, and then `None`.
pub proof fn law_request_walk<'a>(its: Seq<ResListIter<'a>>, rs: Seq<Option<&'a LoadInfo>>)
    requires
        its.len() == rs.len() + 1,
        its[0].spec_count() == 0,
        forall|k: int| 0 <= k < rs.len() ==> request_step(#[trigger] its[k], its[k + 1], rs[k]),
    ensures
        forall|k: int| 0 <= k < rs.len() && k < its[0].spec_list()@.len() ==> #[trigger] rs[k] == Some(&its[0].spec_list()@[k]),
        forall|k: int| 0 <= k < rs.len() && k >= its[0].spec_list()@.len() ==> #[trigger] rs[k] is None,
{
    assert forall|k: int| 0 <= k < rs.len() implies
        (k < its[0].spec_list()@.len() ==> #[trigger] rs[k] == Some(&its[0].spec_list()@[k]))
        && (k >= its[0].spec_list()@.len() ==> rs[k] is None) by {
        lemma_request_walk(its, rs, k);
        assert(request_step(its[k], its[k + 1], rs[k]));
    }
}

/// One call of `NodeIter::next` took the walk from `a` to `b` and gave `r`.
pub open spec fn node_step<'a>(a: NodeIter<'a>, b: NodeIter<'a>, r: Option<&'a ListNode>) -> bool {
    &&& b.spec_list() == a.spec_list()
    &&& a.spec_count() < a.spec_list()@.len() ==> (r matches Some(n) && n.data == a.spec_list()@[a.spec_count() as int])
        && b.spec_count() == a.spec_count() + 1
    &&& a.spec_count() >= a.spec_list()@.len() ==> r is None && b.spec_count() == a.spec_count()
}

proof fn lemma_node_walk<'a>(its: Seq<NodeIter<'a>>, rs: Seq<Option<&'a ListNode>>, n: int)
    requires
        its.len() == rs.len() + 1,
        its[0].spec_count() == 0,
        forall|k: int| 0 <= k < rs.len() ==> node_step(#[trigger] its[k], its[k + 1], rs[k]),
        0 <= n <= rs.len(),
    ensures
        its[n].spec_list() == its[0].spec_list(),
        its[n].spec_count() == if n < its[0].spec_list()@.len() { n } else { its[0].spec_list()@.len() as int },
    decreases n,
{
    if n > 0 {
        lemma_node_walk(its, rs, n - 1);
        assert(node_step(its[n - 1], its[n], rs[n - 1]));
    }
}

/// A walk of the nodes of a request list from its front gives one node for
/// each request, in order, and then `None`; so it agrees, node for request,
/// with a walk of the requests of the same list.
pub proof fn law_node_walk<'a>(
    its: Seq<NodeIter<'a>>,
    rs: Seq<Option<&'a ListNode>>,
    req_its: Seq<ResListIter<'a>>,
    reqs: Seq<Option<&'a LoadInfo>>,
)
    requires
        its.len() == rs.len() + 1,
        its[0].spec_count() == 0,
        forall|k: int| 0 <= k < rs.len() ==> node_step(#[trigger] its[k], its[k + 1], rs[k]),
        req_its.len() == reqs.len() + 1,
        req_its[0].spec_count() == 0,
        req_its[0].spec_list() == its[0].spec_list(),
        forall|k: int| 0 <= k < reqs.len() ==> request_step(#[trigger] req_its[k], req_its[k + 1], reqs[k]),
    ensures
        forall|k: int| 0 <= k < rs.len() && k < its[0].spec_list()@.len() ==> (#[trigger] rs[k] matches Some(n) && n.data == its[0].spec_list()@[k]),
        forall|k: int| 0 <= k < rs.len() && k >= its[0].spec_list()@.len() ==> #[trigger] rs[k] is None,
        forall|k: int| 0 <= k < rs.len() && k < reqs.len() ==> (#[trigger] rs[k] is Some <==> #[trigger] reqs[k] is Some)
            && (rs[k] is Some ==> rs[k]->0.data == *reqs[k]->0),
{
    law_request_walk(req_its, reqs);
    assert forall|k: int| 0 <= k < rs.len() implies
        (k < its[0].spec_list()@.len() ==> (#[trigger] rs[k] matches Some(n) && n.data == its[0].spec_list()@[k]))
        && (k >= its[0].spec_list()@.len() ==> rs[k] is None) by {
        lemma_node_walk(its, rs, k);
        assert(node_step(its[k], its[k + 1], rs[k]));
    }
    assert forall|k: int| 0 <= k < rs.len() && k < reqs.len() implies (#[trigger] rs[k] is Some <==> #[trigger] reqs[k] is Some)
        && (rs[k] is Some ==> rs[k]->0.data == *reqs[k]->0) by {
        lemma_node_walk(its, rs, k);
        assert(node_step(its[k], its[k + 1], rs[k]));
        lemma_request_walk(req_its, reqs, k);
        assert(request_step(req_its[k], req_its[k + 1], reqs[k]));
    }
}

} // verus!
