//! The heap container: an implicit binary tree laid out in a vector, kept in
//! heap order by sifting up after insertion and sifting down after extraction.
use vstd::prelude::*;
use vstd::seq_lib::group_to_multiset_ensures;

use crate::order::{lawful, Comparator, MaxOrder, MinOrder};

verus! {

broadcast use group_to_multiset_ensures;

/// Index of the parent of the node at index `i` (for `i > 0`).
pub open spec fn parent(i: int) -> int {
    (i - 1) / 2
}

/// No element of `s` outranks its parent under `c`.
pub open spec fn heap_ordered<T, C: Comparator<T>>(c: C, s: Seq<T>) -> bool {
    forall|i: int| 0 < i < s.len() ==> !c.outranks(#[trigger] s[i], s[parent(i)])
}

/// The child of `k` that sift-down considers: the right child when it exists
/// and outranks the left one, the left child otherwise.
pub open spec fn preferred_child<T, C: Comparator<T>>(c: C, s: Seq<T>, k: int) -> int {
    if 2 * k + 2 < s.len() && c.outranks(s[2 * k + 2], s[2 * k + 1]) {
        2 * k + 2
    } else {
        2 * k + 1
    }
}

/// Sift-up from `k`: while the element at `k` outranks its parent, exchange
/// the two and go on from the parent.
pub open spec fn sift_up<T, C: Comparator<T>>(c: C, s: Seq<T>, k: int) -> Seq<T>
    decreases k,
{
    if k <= 0 || k >= s.len() || !c.outranks(s[k], s[parent(k)]) {
        s
    } else {
        sift_up(c, swapped(s, k, parent(k)), parent(k))
    }
}

/// Sift-down from `k`: while `k` has a child and its preferred child outranks
/// it, exchange the two and go on from that child.
pub open spec fn sift_down<T, C: Comparator<T>>(c: C, s: Seq<T>, k: int) -> Seq<T>
    decreases s.len() - k,
{
    if k < 0 || 2 * k + 1 >= s.len() {
        s
    } else {
        let m = preferred_child(c, s, k);
        if c.outranks(s[m], s[k]) {
            sift_down(c, swapped(s, k, m), m)
        } else {
            s
        }
    }
}

/// Heap order holds at every node but possibly `k`, and the children of `k`
/// do not outrank the parent of `k`: the state while `k` sifts up.
spec fn ordered_but_up<T, C: Comparator<T>>(c: C, s: Seq<T>, k: int) -> bool {
    &&& forall|i: int| 0 < i < s.len() && i != k ==> !c.outranks(#[trigger] s[i], s[parent(i)])
    &&& k > 0 ==> forall|i: int|
        0 < i < s.len() && parent(i) == k ==> !c.outranks(#[trigger] s[i], s[parent(k)])
}

/// Heap order holds at every node but the children of `k`, and those do not
/// outrank the parent of `k`: the state while `k` sifts down.
spec fn ordered_but_down<T, C: Comparator<T>>(c: C, s: Seq<T>, k: int) -> bool {
    &&& forall|i: int|
        0 < i < s.len() && parent(i) != k ==> !c.outranks(#[trigger] s[i], s[parent(i)])
    &&& k > 0 ==> forall|i: int|
        0 < i < s.len() && parent(i) == k ==> !c.outranks(#[trigger] s[i], s[parent(k)])
}

/// `s` with the elements at `i` and `j` exchanged.
pub open spec fn swapped<T>(s: Seq<T>, i: int, j: int) -> Seq<T> {
    s.update(i, s[j]).update(j, s[i])
}

proof fn lemma_swap_keeps_multiset<T>(s: Seq<T>, i: int, j: int)
    requires
        0 <= i < s.len(),
        0 <= j < s.len(),
    ensures
        swapped(s, i, j).to_multiset() == s.to_multiset(),
{
    let s1 = s.update(i, s[j]);
    if i == j {
        assert(swapped(s, i, j) =~= s);
    } else {
        assert(s1[j] == s[j]);
        assert(swapped(s, i, j).to_multiset() =~= s.to_multiset().insert(s[j]).remove(s[i]).insert(
            s[i],
        ).remove(s[j]));
        assert(s.to_multiset().insert(s[j]).remove(s[i]).insert(s[i]).remove(s[j])
            =~= s.to_multiset());
    }
}

proof fn lemma_sift_up_step<T, C: Comparator<T>>(c: C, s: Seq<T>, k: int)
    requires
        lawful(c),
        ordered_but_up(c, s, k),
        0 < k < s.len(),
        c.outranks(s[k], s[parent(k)]),
    ensures
        ordered_but_up(c, swapped(s, k, parent(k)), parent(k)),
{
    let p = parent(k);
    let t = swapped(s, k, p);
    assert forall|i: int| 0 < i < t.len() && i != p implies !c.outranks(#[trigger] t[i], t[parent(i)]) by {
        if i == k {
            assert(t[i] == s[p] && t[parent(i)] == s[k]);
        } else if parent(i) == p {
            assert(!c.outranks(s[i], s[p]));
        } else if parent(i) == k {
            assert(!c.outranks(s[i], s[parent(k)]));
        } else {
            assert(t[i] == s[i] && t[parent(i)] == s[parent(i)]);
        }
    }
    if p > 0 {
        assert forall|i: int| 0 < i < t.len() && parent(i) == p implies !c.outranks(
            #[trigger] t[i],
            t[parent(p)],
        ) by {
            assert(t[parent(p)] == s[parent(p)]);
            assert(!c.outranks(s[p], s[parent(p)]));
            if i == k {
                assert(t[i] == s[p]);
            } else {
                assert(t[i] == s[i]);
                assert(!c.outranks(s[i], s[p]));
            }
        }
    }
}

proof fn lemma_sift_down_step<T, C: Comparator<T>>(c: C, s: Seq<T>, k: int)
    requires
        lawful(c),
        ordered_but_down(c, s, k),
        0 <= k,
        2 * k + 1 < s.len(),
        c.outranks(s[preferred_child(c, s, k)], s[k]),
    ensures
        ordered_but_down(c, swapped(s, k, preferred_child(c, s, k)), preferred_child(c, s, k)),
{
    let m = preferred_child(c, s, k);
    let t = swapped(s, k, m);
    assert(parent(m) == k);
    assert forall|i: int| 0 < i < t.len() && parent(i) != m implies !c.outranks(
        #[trigger] t[i],
        t[parent(i)],
    ) by {
        if i == m {
            assert(t[i] == s[k] && t[parent(i)] == s[m]);
        } else if i == k {
            assert(t[i] == s[m] && t[parent(i)] == s[parent(k)]);
        } else if parent(i) == k {
            assert(t[i] == s[i] && t[parent(i)] == s[m]);
            if m == 2 * k + 2 {
                assert(i == 2 * k + 1);
            } else {
                assert(i == 2 * k + 2);
            }
        } else {
            assert(t[i] == s[i] && t[parent(i)] == s[parent(i)]);
        }
    }
    assert forall|i: int| 0 < i < t.len() && parent(i) == m implies !c.outranks(
        #[trigger] t[i],
        t[parent(m)],
    ) by {
        assert(t[i] == s[i] && t[parent(m)] == s[m]);
    }
}

/// Under heap order no element outranks the one at the root.
proof fn lemma_root_is_top<T, C: Comparator<T>>(c: C, s: Seq<T>, i: int)
    requires
        lawful(c),
        heap_ordered(c, s),
        0 <= i < s.len(),
    ensures
        !c.outranks(s[i], s[0]),
    decreases i,
{
    if i > 0 {
        lemma_root_is_top(c, s, parent(i));
        assert(!c.outranks(s[i], s[parent(i)]));
    }
}

/// Relies on `slice::swap`: it exchanges the elements at `i` and `j`, and
/// panics only when one of them is out of bounds.
#[verifier::external_body]
fn swap_items<T>(v: &mut Vec<T>, i: usize, j: usize)
    requires
        i < old(v)@.len(),
        j < old(v)@.len(),
    ensures
        final(v)@ == swapped(old(v)@, i as int, j as int),
{
    v.swap(i, j);
}

/// A binary heap over `T` ordered by the comparator `C`: the element that no
/// other outranks comes out first.
pub struct Heap<T, C> {
    items: Vec<T>,
    comparator: C,
}

impl<T, C> View for Heap<T, C> {
    type V = Seq<T>;

    /// The tree in level order: the children of index `i` sit at `2i + 1`
    /// and `2i + 2`.
    closed spec fn view(&self) -> Seq<T> {
        self.items@
    }
}

impl<T, C: Comparator<T>> Heap<T, C> {
    /// The comparator fixed at construction.
    pub closed spec fn comparator(&self) -> C {
        self.comparator
    }

    /// The comparator is lawful and the tree is in heap order.
    pub open spec fn wf(&self) -> bool {
        &&& lawful(self.comparator())
        &&& heap_ordered(self.comparator(), self@)
    }

    /// What one extraction does: from an empty heap it yields nothing and
    /// changes nothing; otherwise it removes and yields an element that no
    /// element of the heap outranks.
    pub open spec fn extracts(before: Self, after: Self, r: Option<T>) -> bool {
        &&& after.wf()
        &&& after.comparator() == before.comparator()
        &&& match r {
            None => before@.len() == 0 && after@ == before@,
            Some(x) => {
                &&& before@.len() > 0
                &&& x == before@[0]
                &&& after@ == sift_down(
                    before.comparator(),
                    swapped(before@, 0, before@.len() - 1).drop_last(),
                    0,
                )
                &&& after@.len() + 1 == before@.len()
                &&& before@.to_multiset() == after@.to_multiset().insert(x)
                &&& forall|y: T| #[trigger]
                    before@.contains(y) ==> !before.comparator().outranks(y, x)
            },
        }
    }

    /// What one insertion does: the value goes to the end of the tree and
    /// sifts up from there.
    pub open spec fn adds(before: Self, after: Self, value: T) -> bool {
        &&& after.wf()
        &&& after.comparator() == before.comparator()
        &&& after@ == sift_up(before.comparator(), before@.push(value), before@.len() as int)
        &&& after@.len() == before@.len() + 1
        &&& after@.to_multiset() == before@.to_multiset().insert(value)
    }

    /// An empty heap ordered by `comparator`.
    pub fn new(comparator: C) -> (r: Self)
        requires
            lawful(comparator),
        ensures
            r.wf(),
            r@ == Seq::<T>::empty(),
            r.comparator() == comparator,
    {
        Heap { items: Vec::new(), comparator }
    }

    /// The number of elements.
    pub fn len(&self) -> (r: usize)
        ensures
            r == self@.len(),
    {
        self.items.len()
    }

    /// Whether the heap holds no element.
    pub fn is_empty(&self) -> (r: bool)
        ensures
            r == (self@.len() == 0),
    {
        self.len() == 0
    }

    /// Inserts `value`, then sifts it up while it outranks its parent.
    pub fn add(&mut self, value: T)
        requires
            old(self).wf(),
        ensures
            Self::adds(*old(self), *final(self), value),
    {
        self.items.push(value);
        let mut idx: usize = self.items.len() - 1;
        let ghost target = sift_up(self.comparator, self.items@, idx as int);
        while idx > 0
            invariant
                sift_up(self.comparator, self.items@, idx as int) == target,
                lawful(self.comparator),
                self.comparator == old(self).comparator,
                self.items@.len() == old(self)@.len() + 1,
                self.items@.to_multiset() == old(self)@.to_multiset().insert(value),
                idx < self.items@.len(),
                ordered_but_up(self.comparator, self.items@, idx as int),
            ensures
                heap_ordered(self.comparator, self.items@),
                self.items@ == target,
            decreases idx,
        {
            let p = self.parent_idx(idx);
            if self.comparator.compare(&self.items[idx], &self.items[p]) {
                proof {
                    lemma_sift_up_step(self.comparator, self.items@, idx as int);
                    lemma_swap_keeps_multiset(self.items@, idx as int, p as int);
                }
                swap_items(&mut self.items, idx, p);
                idx = p;
            } else {
                break;
            }
        }
    }

    fn parent_idx(&self, idx: usize) -> (r: usize)
        requires
            idx > 0,
        ensures
            r == parent(idx as int),
    {
        (idx - 1) / 2
    }

    fn children_present(&self, idx: usize) -> (r: bool)
        ensures
            r == (2 * idx + 1 < self@.len()),
    {
        idx < self.items.len() / 2
    }

    fn left_child_idx(&self, idx: usize) -> (r: usize)
        requires
            idx <= (usize::MAX - 1) / 2,
        ensures
            r == 2 * idx + 1,
    {
        idx * 2 + 1
    }

    fn right_child_idx(&self, idx: usize) -> (r: usize)
        requires
            idx <= (usize::MAX - 2) / 2,
        ensures
            r == 2 * idx + 2,
    {
        self.left_child_idx(idx) + 1
    }

    /// The child of `idx` that sift-down compares against it.
    fn preferred_child_idx(&self, idx: usize) -> (r: usize)
        requires
            self.comparator.consistent(),
            2 * idx + 1 < self@.len(),
        ensures
            r == preferred_child(self.comparator, self@, idx as int),
    {
        proof {
            assert(self.items.len() == self@.len());
        }
        let left = self.left_child_idx(idx);
        let right = self.right_child_idx(idx);
        if right < self.items.len() {
            if self.comparator.compare(&self.items[right], &self.items[left]) {
                right
            } else {
                left
            }
        } else {
            left
        }
    }

    /// Removes and returns an element that no other outranks, or `None` when
    /// the heap is empty. The last element takes the root's place and sifts
    /// down while its preferred child outranks it.
    pub fn next(&mut self) -> (r: Option<T>)
        requires
            old(self).wf(),
        ensures
            Self::extracts(*old(self), *final(self), r),
    {
        if self.is_empty() {
            return None;
        }
        let last = self.items.len() - 1;
        proof {
            assert forall|y: T| #[trigger] old(self)@.contains(y) implies !self.comparator.outranks(
                y,
                old(self)@[0],
            ) by {
                let i = choose|i: int| 0 <= i < old(self)@.len() && old(self)@[i] == y;
                lemma_root_is_top(self.comparator, old(self)@, i);
            }
            lemma_swap_keeps_multiset(self.items@, 0, last as int);
        }
        swap_items(&mut self.items, 0, last);
        let ghost before_pop = self.items@;
        let result = self.items.pop();
        proof {
            assert(before_pop =~= self.items@.push(old(self)@[0]));
        }
        let count = self.items.len();
        if count <= 1 {
            return result;
        }
        let mut idx: usize = 0;
        let ghost target = sift_down(self.comparator, self.items@, 0);
        while self.children_present(idx)
            invariant
                sift_down(self.comparator, self.items@, idx as int) == target,
                lawful(self.comparator),
                self.comparator == old(self).comparator,
                self.items@.len() == count,
                self.items@.to_multiset() == before_pop.drop_last().to_multiset(),
                idx < count,
                ordered_but_down(self.comparator, self.items@, idx as int),
            ensures
                heap_ordered(self.comparator, self.items@),
                self.items@ == target,
            decreases count - idx,
        {
            let child = self.preferred_child_idx(idx);
            if self.comparator.compare(&self.items[child], &self.items[idx]) {
                proof {
                    lemma_sift_down_step(self.comparator, self.items@, idx as int);
                    lemma_swap_keeps_multiset(self.items@, idx as int, child as int);
                }
                swap_items(&mut self.items, idx, child);
                idx = child;
            } else {
                break;
            }
        }
        result
    }
}

impl<T: Ord> Heap<T, MinOrder> {
    /// An empty heap that yields its smallest element first.
    pub fn new_min() -> (r: Self)
        requires
            lawful::<T, MinOrder>(MinOrder),
        ensures
            r.wf(),
            r@ == Seq::<T>::empty(),
            r.comparator() == MinOrder,
    {
        Self::new(MinOrder)
    }
}

impl<T: Ord> Heap<T, MaxOrder> {
    /// An empty heap that yields its largest element first.
    pub fn new_max() -> (r: Self)
        requires
            lawful::<T, MaxOrder>(MaxOrder),
        ensures
            r.wf(),
            r@ == Seq::<T>::empty(),
            r.comparator() == MaxOrder,
    {
        Self::new(MaxOrder)
    }
}

/// Builds heaps that yield their smallest element first.
pub struct MinHeap;

impl MinHeap {
    /// An empty heap that yields its smallest element first.
    pub fn new<T: Ord>() -> (r: Heap<T, MinOrder>)
        requires
            lawful::<T, MinOrder>(MinOrder),
        ensures
            r.wf(),
            r@ == Seq::<T>::empty(),
            r.comparator() == MinOrder,
    {
        Heap::new(MinOrder)
    }
}

/// Builds heaps that yield their largest element first.
pub struct MaxHeap;

impl MaxHeap {
    /// An empty heap that yields its largest element first.
    pub fn new<T: Ord>() -> (r: Heap<T, MaxOrder>)
        requires
            lawful::<T, MaxOrder>(MaxOrder),
        ensures
            r.wf(),
            r@ == Seq::<T>::empty(),
            r.comparator() == MaxOrder,
    {
        Heap::new(MaxOrder)
    }
}

} // verus!
