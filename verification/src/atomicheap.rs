//! A priority queue in which each key has at most one live entry.

use vstd::hash_map::StringHashMap;
use vstd::prelude::*;

verus! {

/// What the queue needs of its items: a rank that decides which one
/// surfaces first, and a way to copy one.
pub trait Ranked: Sized {
    /// The item of the greatest rank surfaces first.
    spec fn rank(&self) -> int;

    fn outranks(&self, other: &Self) -> (b: bool)
        ensures
            b == (self.rank() > other.rank()),
    ;

    fn duplicate(&self) -> (copy: Self)
        ensures
            copy == *self,
    ;
}

impl Ranked for i32 {
    open spec fn rank(&self) -> int {
        *self as int
    }

    fn outranks(&self, other: &Self) -> (b: bool) {
        *self > *other
    }

    fn duplicate(&self) -> (copy: Self) {
        *self
    }
}

impl Ranked for i64 {
    open spec fn rank(&self) -> int {
        *self as int
    }

    fn outranks(&self, other: &Self) -> (b: bool) {
        *self > *other
    }

    fn duplicate(&self) -> (copy: Self) {
        *self
    }
}


/// One entry of the queue: the key it was pushed under, the item, and
/// whether it still counts.
pub struct HeapData<T> {
    key: String,
    data: T,
    valid: bool,
}

impl<T> HeapData<T> {
    pub closed spec fn key(&self) -> Seq<char> {
        self.key@
    }

    pub closed spec fn data(&self) -> T {
        self.data
    }

    pub closed spec fn valid(&self) -> bool {
        self.valid
    }

    /// A valid entry.
    pub fn new(key: String, data: T) -> (entry: Self)
        ensures
            entry.key() == key@,
            entry.data() == data,
            entry.valid(),
    {
        HeapData { key, data, valid: true }
    }
}

/// Exchanges the elements at `i` and `j`. Wraps `<[T]>::swap`, which
/// swaps two elements of a slice and panics where an index is out of
/// bounds.
#[verifier::external_body]
fn swap_entries<T>(v: &mut Vec<T>, i: usize, j: usize)
    requires
        i < old(v).len(),
        j < old(v).len(),
    ensures
        final(v)@ == old(v)@.update(i as int, old(v)@[j as int]).update(j as int, old(v)@[i as int]),
{
    v.swap(i, j);
}

/// A priority queue of items pushed under keys. Pushing under a key that
/// has an entry already makes the older entry invalid; an invalid entry
/// stays in the queue until it surfaces, and is then dropped unseen.
///
/// The entries are kept as a binary heap in a vector: the entry at
/// position `i` is outranked by neither of those at `2i + 1` and `2i + 2`.
/// A map gives each key the position of its valid entry.
pub struct AtomicHeap<T: Ranked> {
    heap: Vec<HeapData<T>>,
    map: StringHashMap<usize>,
}

/// Whether no item of `live` outranks `item`.
pub open spec fn is_top<T: Ranked>(live: Map<Seq<char>, T>, item: T) -> bool {
    forall|k: Seq<char>| live.contains_key(k) ==> (#[trigger] live[k]).rank() <= item.rank()
}

/// The position above `i` in the heap.
pub open spec fn parent(i: int) -> int {
    (i - 1) / 2
}

/// Each key points at its valid entry, and each valid entry is the one
/// its key points at.
pub open spec fn linked<T>(heap: Seq<HeapData<T>>, map: Map<Seq<char>, usize>) -> bool {
    &&& forall|k: Seq<char>| #[trigger]
        map.contains_key(k) ==> {
            &&& map[k] < heap.len()
            &&& heap[map[k] as int].key() == k
            &&& heap[map[k] as int].valid()
        }
    &&& forall|i: int|
        0 <= i < heap.len() && (#[trigger] heap[i]).valid() ==> {
            &&& map.contains_key(heap[i].key())
            &&& map[heap[i].key()] == i
        }
}

/// Whether the entry at `i` does not outrank the one above it.
pub open spec fn below_parent<T: Ranked>(heap: Seq<HeapData<T>>, i: int) -> bool {
    heap[i].data().rank() <= heap[parent(i)].data().rank()
}

/// No entry outranks the one above it.
pub open spec fn ordered<T: Ranked>(heap: Seq<HeapData<T>>) -> bool {
    forall|i: int| 0 < i < heap.len() ==> #[trigger] below_parent(heap, i)
}

/// No entry outranks the one above it, but perhaps the one at `at`; and
/// the entries below `at` do not outrank the one above `at`.
pub open spec fn ordered_but_above<T: Ranked>(heap: Seq<HeapData<T>>, at: int) -> bool {
    &&& forall|i: int| 0 < i < heap.len() && i != at ==> #[trigger] below_parent(heap, i)
    &&& forall|i: int|
        0 < i < heap.len() && parent(i) == at && at > 0 ==> heap[i].data().rank() <= (
        #[trigger] heap[parent(parent(i))]).data().rank()
}

/// No entry outranks the one above it, but perhaps those just below `at`;
/// and those do not outrank the one above `at`.
pub open spec fn ordered_but_below<T: Ranked>(heap: Seq<HeapData<T>>, at: int) -> bool {
    &&& forall|i: int|
        0 < i < heap.len() && parent(i) != at ==> #[trigger] below_parent(heap, i)
    &&& forall|i: int|
        0 < i < heap.len() && parent(i) == at && at > 0 ==> heap[i].data().rank() <= (
        #[trigger] heap[parent(parent(i))]).data().rank()
}

/// In an ordered heap no entry outranks the first.
pub proof fn lemma_first_is_top<T: Ranked>(heap: Seq<HeapData<T>>, i: int)
    requires
        ordered(heap),
        0 <= i < heap.len(),
    ensures
        heap[i].data().rank() <= heap[0].data().rank(),
    decreases i,
{
    if i > 0 {
        assert(below_parent(heap, i));
        lemma_first_is_top(heap, parent(i));
    }
}

/// What the queue holds, told from its two parts.
pub open spec fn live_items<T>(heap: Seq<HeapData<T>>, map: Map<Seq<char>, usize>) -> Map<
    Seq<char>,
    T,
> {
    Map::new(|k: Seq<char>| map.contains_key(k), |k: Seq<char>| heap[map[k] as int].data())
}

impl<T: Ranked> View for AtomicHeap<T> {
    type V = Map<Seq<char>, T>;

    /// The queue is seen as its valid entries: for each key, the item last
    /// pushed under it and neither popped nor invalidated since.
    closed spec fn view(&self) -> Map<Seq<char>, T> {
        live_items(self.heap@, self.map@)
    }
}

impl<T: Ranked> AtomicHeap<T> {
    /// The keys and the entries point at each other, and the entries are
    /// in heap order.
    pub closed spec fn wf(&self) -> bool {
        linked(self.heap@, self.map@) && ordered(self.heap@)
    }

    /// How many entries the queue keeps, invalid ones included.
    pub closed spec fn size(&self) -> nat {
        self.heap.len() as nat
    }

    pub fn new() -> (queue: Self)
        ensures
            queue.wf(),
            queue@ == Map::<Seq<char>, T>::empty(),
    {
        let queue = AtomicHeap { heap: Vec::new(), map: StringHashMap::new() };
        assert(queue@ =~= Map::<Seq<char>, T>::empty());
        queue
    }

    /// Exchanges the entries at `i` and `j` and keeps the keys pointing at
    /// them.
    fn exchange(&mut self, i: usize, j: usize)
        requires
            linked(old(self).heap@, old(self).map@),
            i < old(self).heap.len(),
            j < old(self).heap.len(),
        ensures
            linked(final(self).heap@, final(self).map@),
            final(self)@ == old(self)@,
            final(self).heap@ == old(self).heap@.update(i as int, old(self).heap@[j as int]).update(
                j as int,
                old(self).heap@[i as int],
            ),
    {
        let ghost before = self.heap@;
        let ghost keys = self.map@;
        if i == j {
            assert(before.update(i as int, before[j as int]).update(j as int, before[i as int])
                =~= before);
            return ;
        }
        if self.heap[i].valid {
            self.map.insert(self.heap[i].key.clone(), j);
        }
        if self.heap[j].valid {
            self.map.insert(self.heap[j].key.clone(), i);
        }
        swap_entries(&mut self.heap, i, j);
        proof {
            let after = self.heap@;
            assert(before[i as int].valid && before[j as int].valid ==> before[i as int].key@
                != before[j as int].key@);
            assert forall|k: Seq<char>| #[trigger] self.map@.contains_key(k) implies {
                &&& self.map@[k] < after.len()
                &&& after[self.map@[k] as int].key() == k
                &&& after[self.map@[k] as int].valid()
            } by {
                if before[i as int].valid && k == before[i as int].key@ {
                } else if before[j as int].valid && k == before[j as int].key@ {
                } else {
                    assert(keys.contains_key(k));
                    assert(before[keys[k] as int].valid);
                }
            }
            assert forall|x: int| 0 <= x < after.len() && (#[trigger] after[x]).valid() implies {
                &&& self.map@.contains_key(after[x].key())
                &&& self.map@[after[x].key()] == x
            } by {
                if x != i as int && x != j as int {
                    assert(before[x].valid);
                }
            }
            assert(self@ =~= old(self)@) by {
                assert forall|k: Seq<char>| self@.contains_key(k) implies self@[k] == old(self)@[k] by {
                    if before[i as int].valid && k == before[i as int].key@ {
                    } else if before[j as int].valid && k == before[j as int].key@ {
                    } else {
                        assert(keys.contains_key(k));
                        assert(before[keys[k] as int].valid);
                    }
                }
            }
        }
    }

    /// Lets the entry at `start` rise to its place.
    fn sift_up(&mut self, start: usize)
        requires
            linked(old(self).heap@, old(self).map@),
            start < old(self).heap.len(),
            ordered_but_above(old(self).heap@, start as int),
        ensures
            final(self).wf(),
            final(self)@ == old(self)@,
            final(self).heap.len() == old(self).heap.len(),
    {
        let mut i: usize = start;
        let mut rising = true;
        while rising
            invariant
                linked(self.heap@, self.map@),
                self@ == old(self)@,
                self.heap.len() == old(self).heap.len(),
                i < self.heap.len(),
                rising ==> ordered_but_above(self.heap@, i as int),
                !rising ==> ordered(self.heap@),
            decreases i + (if rising { 1nat } else { 0nat }),
        {
            if i == 0 {
                rising = false;
                assert(ordered(self.heap@));
            } else {
                let above: usize = (i - 1) / 2;
                if self.heap[i].data.outranks(&self.heap[above].data) {
                    let ghost before = self.heap@;
                    self.exchange(i, above);
                    proof {
                        let after = self.heap@;
                        assert forall|x: int|
                            0 < x < after.len() && x != above as int implies #[trigger] below_parent(
                            after,
                            x,
                        ) by {
                            if x == i as int {
                            } else if parent(x) == i as int {
                                assert(before[x].data().rank() <= before[parent(parent(x))].data().rank());
                            } else if parent(x) == above as int {
                                assert(below_parent(before, x));
                            } else {
                                assert(below_parent(before, x));
                            }
                        }
                        assert forall|x: int|
                            0 < x < after.len() && parent(x) == above as int && above
                                > 0 implies after[x].data().rank() <= (
                        #[trigger] after[parent(parent(x))]).data().rank() by {
                            assert(below_parent(before, above as int));
                            if x != i as int {
                                assert(below_parent(before, x));
                            }
                        }
                    }
                    i = above;
                } else {
                    rising = false;
                    assert forall|x: int| 0 < x < self.heap@.len() implies #[trigger] below_parent(
                        self.heap@,
                        x,
                    ) by {}
                }
            }
        }
    }

    /// Lets the entry at `start` sink to its place.
    fn sift_down(&mut self, start: usize)
        requires
            linked(old(self).heap@, old(self).map@),
            start < old(self).heap.len(),
            ordered_but_below(old(self).heap@, start as int),
        ensures
            final(self).wf(),
            final(self)@ == old(self)@,
            final(self).heap.len() == old(self).heap.len(),
    {
        let n = self.heap.len();
        let mut i: usize = start;
        let mut sinking = true;
        while sinking
            invariant
                linked(self.heap@, self.map@),
                self@ == old(self)@,
                self.heap.len() == n,
                i < n,
                sinking ==> ordered_but_below(self.heap@, i as int),
                !sinking ==> ordered(self.heap@),
            decreases n - i + (if sinking { 1nat } else { 0nat }),
        {
            if n < 2 || i > (n - 2) / 2 {
                sinking = false;
                assert forall|x: int| 0 < x < self.heap@.len() implies #[trigger] below_parent(
                    self.heap@,
                    x,
                ) by {
                    assert(parent(x) != i as int);
                }
            } else {
                let left: usize = 2 * i + 1;
                let right: usize = left + 1;
                let big: usize = if right < n && self.heap[right].data.outranks(
                    &self.heap[left].data,
                ) {
                    right
                } else {
                    left
                };
                if self.heap[big].data.outranks(&self.heap[i].data) {
                    let ghost before = self.heap@;
                    self.exchange(i, big);
                    proof {
                        let after = self.heap@;
                        assert(parent(left as int) == i as int);
                        assert(right < n ==> parent(right as int) == i as int);
                        assert forall|x: int|
                            0 < x < after.len() && parent(x) != big as int implies #[trigger] below_parent(
                            after,
                            x,
                        ) by {
                            if x == i as int {
                                assert(before[big as int].data().rank() <= before[parent(
                                    parent(big as int),
                                )].data().rank());
                            } else if parent(x) == i as int {
                                assert(x == left as int || x == right as int);
                            } else {
                                assert(below_parent(before, x));
                            }
                        }
                        assert forall|x: int|
                            0 < x < after.len() && parent(x) == big as int && big
                                > 0 implies after[x].data().rank() <= (
                        #[trigger] after[parent(parent(x))]).data().rank() by {
                            assert(below_parent(before, x));
                        }
                    }
                    i = big;
                } else {
                    sinking = false;
                    assert forall|x: int| 0 < x < self.heap@.len() implies #[trigger] below_parent(
                        self.heap@,
                        x,
                    ) by {
                        if parent(x) == i as int {
                            assert(x == left as int || x == right as int);
                        }
                    }
                }
            }
        }
    }

    /// Puts `data` under `key`, in the place of what the key had.
    pub fn push(&mut self, key: String, data: T)
        requires
            old(self).wf(),
        ensures
            final(self).wf(),
            final(self)@ == old(self)@.insert(key@, data),
    {
        let at = match self.map.get(key.as_str()) {
            Some(i) => Some(*i),
            None => None,
        };
        if let Some(i) = at {
            self.heap[i].valid = false;
        }
        let ghost marked = self.heap@;
        assert forall|x: int| 0 < x < marked.len() implies #[trigger] below_parent(marked, x) by {
            assert(below_parent(old(self).heap@, x));
        }
        let n = self.heap.len();
        self.heap.push(HeapData::new(key.clone(), data));
        self.map.insert(key, n);
        assert(self@ =~= old(self)@.insert(key@, data));
        proof {
            let grown = self.heap@;
            assert forall|x: int|
                0 < x < grown.len() && x != n as int implies #[trigger] below_parent(grown, x) by {
                assert(below_parent(marked, x));
            }
        }
        self.sift_up(n);
    }

    /// Takes the first entry out of the queue, whatever it is; the queue
    /// is not empty.
    fn take_first(&mut self) -> (entry: HeapData<T>)
        requires
            old(self).wf(),
            old(self).heap.len() > 0,
        ensures
            final(self).wf(),
            entry == old(self).heap[0],
            final(self).heap.len() == old(self).heap.len() - 1,
            entry.valid ==> final(self)@ == old(self)@.remove(entry.key@),
            !entry.valid ==> final(self)@ == old(self)@,
    {
        let last = self.heap.len() - 1;
        let ghost before = self.heap@;
        self.exchange(0, last);
        let ghost exchanged = self.heap@;
        let ghost keys = self.map@;
        if self.heap[last].valid {
            self.map.remove(self.heap[last].key.as_str());
        }
        let entry = self.heap.pop().unwrap();
        proof {
            let after = self.heap@;
            assert forall|k: Seq<char>| #[trigger] self.map@.contains_key(k) implies {
                &&& self.map@[k] < after.len()
                &&& after[self.map@[k] as int].key() == k
                &&& after[self.map@[k] as int].valid()
            } by {
                assert(keys.contains_key(k));
                assert(exchanged[keys[k] as int].valid);
            }
            assert forall|x: int| 0 <= x < after.len() && (#[trigger] after[x]).valid() implies {
                &&& self.map@.contains_key(after[x].key())
                &&& self.map@[after[x].key()] == x
            } by {
                assert(exchanged[x].valid);
            }
            if entry.valid {
                assert(self@ =~= old(self)@.remove(entry.key@)) by {
                    assert forall|k: Seq<char>| self@.contains_key(k) implies self@[k] == old(self)@[k] by {
                        assert(keys.contains_key(k));
                        assert(exchanged[keys[k] as int].valid);
                    }
                }
            } else {
                assert(self@ =~= old(self)@) by {
                    assert forall|k: Seq<char>| self@.contains_key(k) implies self@[k] == old(self)@[k] by {
                        assert(keys.contains_key(k));
                        assert(exchanged[keys[k] as int].valid);
                    }
                }
            }
            assert forall|x: int|
                0 < x < after.len() && parent(x) != 0 implies #[trigger] below_parent(after, x) by {
                assert(below_parent(before, x));
            }
        }
        if self.heap.len() > 0 {
            self.sift_down(0);
        }
        entry
    }

    /// An item that none in the queue outranks, or `None` where the queue
    /// holds nothing. What the queue holds stays as it is.
    pub fn peek(&mut self) -> (out: Option<T>)
        requires
            old(self).wf(),
        ensures
            final(self).wf(),
            final(self)@ == old(self)@,
            final(self).size() <= old(self).size(),
            match out {
                Some(item) => is_top(old(self)@, item) && exists|k: Seq<char>|
                    old(self)@.contains_key(k) && #[trigger] old(self)@[k] == item,
                None => forall|k: Seq<char>| !old(self)@.contains_key(k),
            },
    {
        while self.heap.len() > 0
            invariant
                self.wf(),
                self@ == old(self)@,
                self.heap.len() <= old(self).heap.len(),
            decreases self.heap.len(),
        {
            if self.heap[0].valid {
                let item = self.heap[0].data.duplicate();
                proof {
                    let key = self.heap[0].key@;
                    assert(self@.contains_key(key) && self@[key] == item);
                    assert forall|k: Seq<char>| self@.contains_key(k) implies (
                    #[trigger] self@[k]).rank() <= item.rank() by {
                        assert(self.map@.contains_key(k));
                        lemma_first_is_top(self.heap@, self.map@[k] as int);
                    }
                }
                return Some(item);
            }
            self.take_first();
        }
        proof {
            assert forall|k: Seq<char>| !self@.contains_key(k) by {
                if self.map@.contains_key(k) {
                    assert(self.map@[k] < self.heap.len());
                }
            }
        }
        None
    }

    /// Takes out an item that none in the queue outranks, or gives `None`
    /// where the queue holds nothing.
    pub fn pop(&mut self) -> (out: Option<T>)
        requires
            old(self).wf(),
        ensures
            final(self).wf(),
            out is Some ==> final(self).size() < old(self).size(),
            match out {
                Some(item) => is_top(old(self)@, item) && exists|k: Seq<char>|
                    old(self)@.contains_key(k) && #[trigger] old(self)@[k] == item && final(self)@ == old(self)@.remove(k),
                None => final(self)@ == old(self)@ && forall|k: Seq<char>|
                    !old(self)@.contains_key(k),
            },
    {
        while self.heap.len() > 0
            invariant
                self.wf(),
                self@ == old(self)@,
                self.heap.len() <= old(self).heap.len(),
            decreases self.heap.len(),
        {
            proof {
                if self.heap[0].valid {
                    let key = self.heap[0].key@;
                    assert(self@.contains_key(key));
                    assert forall|k: Seq<char>| self@.contains_key(k) implies (
                    #[trigger] self@[k]).rank() <= self.heap[0].data.rank() by {
                        assert(self.map@.contains_key(k));
                        lemma_first_is_top(self.heap@, self.map@[k] as int);
                    }
                }
            }
            let entry = self.take_first();
            if entry.valid {
                assert(old(self)@[entry.key@] == entry.data);
                return Some(entry.data);
            }
        }
        proof {
            assert forall|k: Seq<char>| !self@.contains_key(k) by {
                if self.map@.contains_key(k) {
                    assert(self.map@[k] < self.heap.len());
                }
            }
        }
        None
    }

    /// Makes the entry under `key` invalid, if there is one.
    pub fn invalidate(&mut self, key: &str)
        requires
            old(self).wf(),
        ensures
            final(self).wf(),
            final(self)@ == old(self)@.remove(key@),
    {
        let at = match self.map.get(key) {
            Some(i) => Some(*i),
            None => None,
        };
        if let Some(i) = at {
            self.heap[i].valid = false;
        }
        self.map.remove(key);
        assert(self@ =~= old(self)@.remove(key@));
        assert forall|x: int| 0 < x < self.heap@.len() implies #[trigger] below_parent(
            self.heap@,
            x,
        ) by {
            assert(below_parent(old(self).heap@, x));
        }
    }

    /// Empties the queue.
    pub fn clear(&mut self)
        ensures
            final(self).wf(),
            final(self)@ == Map::<Seq<char>, T>::empty(),
    {
        self.heap.clear();
        self.map.clear();
        assert(self@ =~= Map::<Seq<char>, T>::empty());
    }
}

} // verus!
