//! A binary min-heap of row references.
//!
//! The window heap never copies a row while it sorts: the heap holds small
//! references `(key, slot, row)` into the batches that the window keeps, and
//! orders them by key, then slot, then row, so that equal keys leave in a
//! fixed order.
use crate::sample_key::SampleKey;
use vstd::multiset::Multiset;
use vstd::prelude::*;
use vstd::relations::sorted_by;
use vstd::relations::total_ordering;
use vstd::seq_lib::lemma_sorted_unique;
use vstd::seq_lib::to_multiset_build;
use vstd::seq_lib::to_multiset_remove;
use vstd::seq_lib::to_multiset_update;

verus! {

/// The key by which a heap orders its elements.
pub trait HeapOrderKey {
    type Key: Ord;

    fn key(&self) -> Self::Key;
}

/// A reference to row `row` of the batch in slot `slot`, with the row's key.
#[derive(Clone, Copy, Debug)]
pub struct RowRef {
    pub key: SampleKey,
    pub slot: usize,
    pub row: usize,
}

impl HeapOrderKey for RowRef {
    type Key = SampleKey;

    fn key(&self) -> (key: SampleKey)
        ensures
            key == self.key,
    {
        self.key
    }
}

impl RowRef {
    /// `self` leaves the heap before `other`: its key is smaller, or the keys
    /// are equal and its `(slot, row)` is smaller.
    pub open spec fn before(self, other: RowRef) -> bool {
        self.key.lt(other.key) || (self.key == other.key && (self.slot < other.slot || (self.slot
            == other.slot && self.row < other.row)))
    }

    /// `self` is `other` or leaves before it.
    pub open spec fn not_after(self, other: RowRef) -> bool {
        self.before(other) || self == other
    }

    pub fn new(key: SampleKey, slot: usize, row: usize) -> (r: Self)
        ensures
            r == (RowRef { key, slot, row }),
    {
        RowRef { key, slot, row }
    }

    /// Decides `before`.
    pub fn precedes(&self, other: &RowRef) -> (r: bool)
        ensures
            r == self.before(*other),
    {
        if self.key < other.key {
            true
        } else if self.key == other.key {
            self.slot < other.slot || (self.slot == other.slot && self.row < other.row)
        } else {
            false
        }
    }
}

/// `not_after` is a total order on row references.
pub proof fn lemma_row_ref_order(a: RowRef, b: RowRef, c: RowRef)
    ensures
        a.not_after(b) || b.not_after(a),
        a.not_after(b) && b.not_after(a) ==> a == b,
        a.not_after(b) && b.not_after(c) ==> a.not_after(c),
        a.before(b) <==> !b.not_after(a),
{
}

/// `not_after` as a relation.
pub open spec fn row_ref_leq() -> spec_fn(RowRef, RowRef) -> bool {
    |a: RowRef, b: RowRef| a.not_after(b)
}

/// `row_ref_leq` is a total order.
pub proof fn lemma_row_ref_leq_total()
    ensures
        total_ordering(row_ref_leq()),
{
    let r = row_ref_leq();
    assert(vstd::relations::reflexive(r));
    assert(vstd::relations::antisymmetric(r)) by {
        assert forall|a: RowRef, b: RowRef| #[trigger] r(a, b) && #[trigger] r(b, a) implies a
            == b by {
            lemma_row_ref_order(a, b, a);
        }
    }
    assert(vstd::relations::transitive(r)) by {
        assert forall|a: RowRef, b: RowRef, c: RowRef| #[trigger]
            r(a, b) && #[trigger] r(b, c) implies r(a, c) by {
            lemma_row_ref_order(a, b, c);
        }
    }
    assert(vstd::relations::strongly_connected(r));
}

/// The references of `s` in the order in which they leave a heap.
pub open spec fn in_order(s: Seq<RowRef>) -> Seq<RowRef> {
    s.sort_by(row_ref_leq())
}

/// `in_order(s)` is sorted and holds what `s` holds.
pub proof fn lemma_in_order(s: Seq<RowRef>)
    ensures
        sorted_by(in_order(s), row_ref_leq()),
        in_order(s).to_multiset() == s.to_multiset(),
        in_order(s).len() == s.len(),
{
    lemma_row_ref_leq_total();
    s.lemma_sort_by_ensures(row_ref_leq());
    s.to_multiset_ensures();
    in_order(s).to_multiset_ensures();
}

/// Two sorted sequences that hold the same references are equal.
pub proof fn lemma_in_order_unique(a: Seq<RowRef>, b: Seq<RowRef>)
    requires
        sorted_by(a, row_ref_leq()),
        sorted_by(b, row_ref_leq()),
        a.to_multiset() == b.to_multiset(),
    ensures
        a == b,
{
    lemma_row_ref_leq_total();
    lemma_sorted_unique(a, b, row_ref_leq());
}

/// A sorted sequence is its own order.
pub proof fn lemma_in_order_of_sorted(s: Seq<RowRef>)
    requires
        sorted_by(s, row_ref_leq()),
    ensures
        in_order(s) == s,
{
    lemma_in_order(s);
    lemma_in_order_unique(in_order(s), s);
}

/// The index of the node above node `i`.
pub open spec fn parent(i: int) -> int {
    (i - 1) / 2
}

/// Every node but the root comes no earlier than the node above it.
pub open spec fn heap_ordered(s: Seq<RowRef>) -> bool {
    forall|j: int| 1 <= j < s.len() ==> (#[trigger] s[parent(j)]).not_after(s[j])
}

/// As `heap_ordered`, but nothing is said of node `i` and the node above it.
spec fn ordered_but_above(s: Seq<RowRef>, i: int) -> bool {
    forall|j: int| 1 <= j < s.len() && j != i ==> (#[trigger] s[parent(j)]).not_after(s[j])
}

/// As `heap_ordered`, but nothing is said of node `i` and the nodes below it.
spec fn ordered_but_below(s: Seq<RowRef>, i: int) -> bool {
    forall|j: int| 1 <= j < s.len() && parent(j) != i ==> (#[trigger] s[parent(j)]).not_after(s[j])
}

/// The node above `i` comes no later than the nodes below `i`.
spec fn bridged(s: Seq<RowRef>, i: int) -> bool {
    i > 0 ==> forall|j: int|
        1 <= j < s.len() && parent(j) == i ==> s[parent(i)].not_after(#[trigger] s[j])
}

/// In an ordered heap the root comes no later than any node.
proof fn lemma_root_is_first(s: Seq<RowRef>, j: int)
    requires
        heap_ordered(s),
        0 <= j < s.len(),
    ensures
        s[0].not_after(s[j]),
    decreases j,
{
    if j > 0 {
        lemma_root_is_first(s, parent(j));
        assert(s[parent(j)].not_after(s[j]));
        lemma_row_ref_order(s[0], s[parent(j)], s[j]);
    }
}

/// Exchanging two elements leaves the multiset of elements as it was.
proof fn lemma_swap_keeps_elements(s: Seq<RowRef>, i: int, j: int)
    requires
        0 <= i < s.len(),
        0 <= j < s.len(),
    ensures
        s.update(i, s[j]).update(j, s[i]).to_multiset() == s.to_multiset(),
{
    let s1 = s.update(i, s[j]);
    let s2 = s1.update(j, s[i]);
    to_multiset_update(s, i, s[j]);
    to_multiset_update(s1, j, s[i]);
    s.to_multiset_ensures();
    assert(s.to_multiset().count(s[i]) > 0);
    assert(s.to_multiset().count(s[j]) > 0);
    assert(s2.to_multiset() =~= s.to_multiset());
}

/// A min-heap of row references, ordered by `RowRef::before`.
pub struct MinHeap {
    items: Vec<RowRef>,
}

impl View for MinHeap {
    type V = Seq<RowRef>;

    /// What the heap holds, in the order in which it will leave.
    closed spec fn view(&self) -> Seq<RowRef> {
        in_order(self.items@)
    }
}

impl MinHeap {
    /// The heap is ordered.
    pub closed spec fn wf(&self) -> bool {
        heap_ordered(self.items@)
    }

    /// What the heap holds, without order.
    closed spec fn bag(&self) -> Multiset<RowRef> {
        self.items@.to_multiset()
    }

    /// The view is sorted.
    pub proof fn lemma_view_sorted(&self)
        ensures
            sorted_by(self@, row_ref_leq()),
    {
        lemma_in_order(self.items@);
    }

    pub fn new() -> (heap: Self)
        ensures
            heap.wf(),
            heap@ == Seq::<RowRef>::empty(),
    {
        let heap = MinHeap { items: Vec::new() };
        proof {
            lemma_in_order(heap.items@);
            assert(heap@ =~= Seq::<RowRef>::empty());
        }
        heap
    }

    pub fn len(&self) -> (n: usize)
        ensures
            n == self@.len(),
    {
        proof {
            lemma_in_order(self.items@);
        }
        self.items.len()
    }

    pub fn is_empty(&self) -> (b: bool)
        ensures
            b == (self@.len() == 0),
    {
        self.len() == 0
    }

    /// Adds `item`: it takes its place in the order.
    pub fn push(&mut self, item: RowRef)
        requires
            old(self).wf(),
        ensures
            final(self).wf(),
            final(self)@ == in_order(old(self)@.push(item)),
    {
        self.push_item(item);
        proof {
            let before = old(self).items@;
            let after = self.items@;
            lemma_in_order(before);
            lemma_in_order(after);
            lemma_in_order(in_order(before).push(item));
            to_multiset_build(in_order(before), item);
            lemma_in_order_unique(in_order(after), in_order(in_order(before).push(item)));
        }
    }

    /// The first element in the order, which `pop` would take out.
    pub fn peek(&self) -> (first: Option<RowRef>)
        requires
            self.wf(),
        ensures
            first == if self@.len() > 0 {
                Some(self@[0])
            } else {
                None
            },
    {
        let first = self.peek_item();
        proof {
            lemma_in_order(self.items@);
            self.items@.to_multiset_ensures();
            if first is Some {
                self.lemma_first_in_order(first.unwrap());
            }
        }
        first
    }

    /// Takes out the first element in the order.
    pub fn pop(&mut self) -> (first: Option<RowRef>)
        requires
            old(self).wf(),
        ensures
            final(self).wf(),
            first == if old(self)@.len() > 0 {
                Some(old(self)@[0])
            } else {
                None
            },
            final(self)@ == if old(self)@.len() > 0 {
                old(self)@.drop_first()
            } else {
                old(self)@
            },
    {
        let first = self.pop_item();
        proof {
            let before = old(self).items@;
            let after = self.items@;
            lemma_in_order(before);
            lemma_in_order(after);
            before.to_multiset_ensures();
            after.to_multiset_ensures();
            if first is None {
                assert(before =~= after);
            }
            if first is Some {
                let item = first.unwrap();
                old(self).lemma_first_in_order(item);
                let sorted = in_order(before);
                let rest = sorted.drop_first();
                assert(rest =~= sorted.remove(0));
                to_multiset_remove(sorted, 0);
                assert(sorted_by(rest, row_ref_leq())) by {
                    assert forall|i: int, j: int| 0 <= i < j < rest.len() implies (
                    #[trigger] row_ref_leq()(rest[i], rest[j])) by {
                        assert(row_ref_leq()(sorted[i + 1], sorted[j + 1]));
                    }
                }
                lemma_in_order_unique(in_order(after), rest);
            }
        }
        first
    }

    /// An element of the heap that comes no later than any other is the first
    /// of the view.
    proof fn lemma_first_in_order(&self, item: RowRef)
        requires
            self.bag().contains(item),
            forall|x: RowRef| self.bag().contains(x) ==> item.not_after(x),
        ensures
            self@.len() > 0,
            self@[0] == item,
    {
        let sorted = in_order(self.items@);
        lemma_in_order(self.items@);
        sorted.to_multiset_ensures();
        self.items@.to_multiset_ensures();
        assert(sorted.contains(item));
        let j = choose|j: int| 0 <= j < sorted.len() && sorted[j] == item;
        assert(sorted.contains(sorted[0]));
        assert(item.not_after(sorted[0]));
        if j > 0 {
            assert(row_ref_leq()(sorted[0], sorted[j]));
        }
        lemma_row_ref_order(item, sorted[0], item);
    }

    fn push_item(&mut self, item: RowRef)
        requires
            old(self).wf(),
        ensures
            final(self).wf(),
            final(self).bag() == old(self).bag().insert(item),
    {
        proof {
            self.items@.to_multiset_ensures();
        }
        self.items.push(item);
        let mut i: usize = self.items.len() - 1;
        while i > 0
            invariant
                0 <= i < self.items.len(),
                self.items@.to_multiset() == old(self).bag().insert(item),
                ordered_but_above(self.items@, i as int),
                bridged(self.items@, i as int),
            ensures
                self.items@.to_multiset() == old(self).bag().insert(item),
                heap_ordered(self.items@),
            decreases i,
        {
            let p: usize = (i - 1) / 2;
            let child = self.items[i];
            let above = self.items[p];
            if child.precedes(&above) {
                let ghost before = self.items@;
                self.items[i] = above;
                self.items[p] = child;
                proof {
                    lemma_swap_keeps_elements(before, i as int, p as int);
                    let after = self.items@;
                    assert(after =~= before.update(i as int, before[p as int]).update(
                        p as int,
                        before[i as int],
                    ));
                    assert forall|j: int| 1 <= j < after.len() && j != p implies (
                    #[trigger] after[parent(j)]).not_after(after[j]) by {
                        if j == i {
                        } else if parent(j) == i {
                            assert(before[parent(i as int)].not_after(before[j]));
                        } else if parent(j) == p {
                            assert(before[parent(j)].not_after(before[j]));
                            lemma_row_ref_order(before[i as int], before[p as int], before[j]);
                        } else {
                            assert(before[parent(j)].not_after(before[j]));
                        }
                    }
                    assert(bridged(after, p as int)) by {
                        if p > 0 {
                            assert(before[parent(p as int)].not_after(before[p as int]));
                            assert forall|j: int|
                                1 <= j < after.len() && parent(j) == p implies after[parent(
                                p as int,
                            )].not_after(#[trigger] after[j]) by {
                                if j != i {
                                    assert(before[parent(j)].not_after(before[j]));
                                    lemma_row_ref_order(
                                        before[parent(p as int)],
                                        before[p as int],
                                        before[j],
                                    );
                                }
                            }
                        }
                    }
                }
                i = p;
            } else {
                proof {
                    lemma_row_ref_order(above, child, child);
                    assert forall|j: int| 1 <= j < self.items@.len() implies (
                    #[trigger] self.items@[parent(j)]).not_after(self.items@[j]) by {}
                }
                break ;
            }
        }
    }

    fn peek_item(&self) -> (first: Option<RowRef>)
        requires
            self.wf(),
        ensures
            match first {
                Some(item) => self.bag().contains(item) && forall|x: RowRef|
                    self.bag().contains(x) ==> item.not_after(x),
                None => self.bag().len() == 0,
            },
    {
        proof {
            self.items@.to_multiset_ensures();
        }
        if self.items.len() == 0 {
            None
        } else {
            let item = self.items[0];
            proof {
                self.lemma_root_first();
            }
            Some(item)
        }
    }

    proof fn lemma_root_first(&self)
        requires
            self.wf(),
            self.items@.len() > 0,
        ensures
            self.bag().contains(self.items@[0]),
            forall|x: RowRef| self.bag().contains(x) ==> self.items@[0].not_after(x),
    {
        let s = self.items@;
        s.to_multiset_ensures();
        assert(s.contains(s[0]));
        assert forall|x: RowRef| self.bag().contains(x) implies s[0].not_after(x) by {
            assert(s.contains(x));
            let j = choose|j: int| 0 <= j < s.len() && s[j] == x;
            lemma_root_is_first(s, j);
        }
    }

    fn pop_item(&mut self) -> (first: Option<RowRef>)
        requires
            old(self).wf(),
        ensures
            final(self).wf(),
            match first {
                Some(item) => {
                    &&& old(self).bag().contains(item)
                    &&& forall|x: RowRef| old(self).bag().contains(x) ==> item.not_after(x)
                    &&& final(self).bag() == old(self).bag().remove(item)
                },
                None => old(self).bag().len() == 0 && final(self).bag() == old(self).bag(),
            },
    {
        proof {
            self.items@.to_multiset_ensures();
        }
        if self.items.len() == 0 {
            return None;
        }
        let first = self.items[0];
        proof {
            self.lemma_root_first();
        }
        let ghost start = self.items@;
        let last = self.items.pop().unwrap();
        proof {
            to_multiset_remove(start, start.len() - 1);
            assert(start.remove(start.len() - 1) =~= self.items@);
        }
        if self.items.len() == 0 {
            proof {
                assert(start.len() == 1);
                assert(last == first);
            }
            return Some(first);
        }
        let ghost shorter = self.items@;
        self.items[0] = last;
        proof {
            to_multiset_update(shorter, 0, last);
            start.to_multiset_ensures();
            shorter.to_multiset_ensures();
            assert(self.items@.to_multiset() =~= start.to_multiset().remove(first));
            assert forall|j: int|
                1 <= j < self.items@.len() && parent(j) != 0 implies (#[trigger] self.items@[parent(
                j,
            )]).not_after(self.items@[j]) by {
                assert(start[parent(j)].not_after(start[j]));
            }
        }
        let n: usize = self.items.len();
        let mut i: usize = 0;
        while i < n / 2
            invariant
                n == self.items.len(),
                0 <= i < n,
                self.items@.to_multiset() == start.to_multiset().remove(first),
                ordered_but_below(self.items@, i as int),
                bridged(self.items@, i as int),
            ensures
                self.items@.to_multiset() == start.to_multiset().remove(first),
                heap_ordered(self.items@),
            decreases n - i,
        {
            let left: usize = 2 * i + 1;
            let right: usize = left + 1;
            let mut least: usize = left;
            if right < n {
                let r = self.items[right];
                let l = self.items[left];
                if r.precedes(&l) {
                    least = right;
                }
            }
            let node = self.items[i];
            let below = self.items[least];
            let ghost before = self.items@;
            proof {
                assert(parent(left as int) == i);
                assert(parent(right as int) == i);
                assert forall|j: int| 1 <= j < n && parent(j) == i implies before[least as int].not_after(
                    #[trigger] before[j],
                ) by {
                    assert(j == left || j == right);
                    lemma_row_ref_order(before[left as int], before[right as int], before[j]);
                }
            }
            if below.precedes(&node) {
                self.items[i] = below;
                self.items[least] = node;
                proof {
                    lemma_swap_keeps_elements(before, i as int, least as int);
                    let after = self.items@;
                    assert(after =~= before.update(i as int, before[least as int]).update(
                        least as int,
                        before[i as int],
                    ));
                    assert forall|j: int|
                        1 <= j < after.len() && parent(j) != least implies (#[trigger] after[parent(
                        j,
                    )]).not_after(after[j]) by {
                        if parent(j) == i {
                            if j != least {
                                assert(before[least as int].not_after(before[j]));
                            }
                        } else if j == i {
                            assert(before[parent(i as int)].not_after(before[least as int]));
                        } else {
                            assert(before[parent(j)].not_after(before[j]));
                        }
                    }
                    assert(bridged(after, least as int)) by {
                        assert forall|j: int|
                            1 <= j < after.len() && parent(j) == least implies after[parent(
                            least as int,
                        )].not_after(#[trigger] after[j]) by {
                            assert(before[parent(j)].not_after(before[j]));
                        }
                    }
                }
                i = least;
            } else {
                proof {
                    lemma_row_ref_order(node, below, below);
                    assert forall|j: int| 1 <= j < before.len() implies (#[trigger] before[parent(
                        j,
                    )]).not_after(before[j]) by {
                        if parent(j) == i {
                            assert(before[least as int].not_after(before[j]));
                            lemma_row_ref_order(node, below, before[j]);
                        }
                    }
                }
                break ;
            }
        }
        proof {
            assert(heap_ordered(self.items@)) by {
                assert forall|j: int| 1 <= j < self.items@.len() implies (
                #[trigger] self.items@[parent(j)]).not_after(self.items@[j]) by {
                    if parent(j) == i {
                    }
                }
            }
        }
        Some(first)
    }
}

} // verus!
