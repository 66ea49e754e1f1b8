//! Facts about sequences as multisets: what stays the same when a sequence
//! is put in another order.
use crate::min_heap::RowRef;
use vstd::multiset::group_multiset_axioms;
use vstd::multiset::lemma_insert_len;
use vstd::multiset::lemma_multiset_empty_len;
use vstd::multiset::Multiset;
use vstd::prelude::*;
use vstd::seq_lib::lemma_multiset_commutative;
use vstd::seq_lib::to_multiset_build;
use vstd::seq_lib::to_multiset_remove;

verus! {

broadcast use group_multiset_axioms;

/// The references into slot `slot`.
pub open spec fn in_slot(slot: usize) -> spec_fn(RowRef) -> bool {
    |e: RowRef| e.slot == slot
}

/// How many references of `p` point into slot `slot`.
pub open spec fn slot_count(p: Seq<RowRef>, slot: usize) -> nat {
    p.to_multiset().filter(in_slot(slot)).len()
}

/// A sequence holds its first element once more than the rest holds it.
pub proof fn lemma_first_and_rest<A>(p: Seq<A>)
    requires
        p.len() > 0,
    ensures
        p.to_multiset() == p.drop_first().to_multiset().insert(p[0]),
{
    to_multiset_remove(p, 0);
    assert(p.drop_first() =~= p.remove(0));
    p.to_multiset_ensures();
    assert(p.to_multiset().count(p[0]) > 0);
    assert(p.to_multiset() =~= p.drop_first().to_multiset().insert(p[0]));
}

/// Taking the first reference away lowers the count of its slot by one and
/// no other count.
pub proof fn lemma_count_drop_first(p: Seq<RowRef>, slot: usize)
    requires
        p.len() > 0,
    ensures
        slot_count(p, slot) == slot_count(p.drop_first(), slot) + if p[0].slot == slot {
            1nat
        } else {
            0nat
        },
{
    lemma_first_and_rest(p);
    let rest = p.drop_first().to_multiset();
    let f = in_slot(slot);
    if p[0].slot == slot {
        assert(rest.insert(p[0]).filter(f) =~= rest.filter(f).insert(p[0]));
        lemma_insert_len(rest.filter(f), p[0]);
    } else {
        assert(rest.insert(p[0]).filter(f) =~= rest.filter(f));
    }
}

/// The count of a slot is 0 exactly when no reference points into it.
pub proof fn lemma_count_zero(p: Seq<RowRef>, slot: usize)
    ensures
        slot_count(p, slot) == 0 <==> forall|i: int| 0 <= i < p.len() ==> (#[trigger] p[i]).slot
            != slot,
{
    let m = p.to_multiset().filter(in_slot(slot));
    p.to_multiset_ensures();
    lemma_multiset_empty_len(m);
    if slot_count(p, slot) == 0 {
        assert forall|i: int| 0 <= i < p.len() implies (#[trigger] p[i]).slot != slot by {
            if p[i].slot == slot {
                assert(p.contains(p[i]));
                assert(p.to_multiset().count(p[i]) > 0);
                assert(m.count(p[i]) > 0);
            }
        }
    }
    if forall|i: int| 0 <= i < p.len() ==> (#[trigger] p[i]).slot != slot {
        assert forall|e: RowRef| m.count(e) == 0 by {
            if m.count(e) > 0 {
                assert(p.to_multiset().count(e) > 0);
                assert(p.contains(e));
                let i = choose|i: int| 0 <= i < p.len() && p[i] == e;
                assert(p[i].slot != slot);
            }
        }
        assert(m =~= Multiset::<RowRef>::empty());
    }
}

/// Counts add up over concatenation.
pub proof fn lemma_count_add(p: Seq<RowRef>, q: Seq<RowRef>, slot: usize)
    ensures
        slot_count(p + q, slot) == slot_count(p, slot) + slot_count(q, slot),
{
    lemma_multiset_commutative(p, q);
    let f = in_slot(slot);
    assert(p.to_multiset().add(q.to_multiset()).filter(f) =~= p.to_multiset().filter(f).add(
        q.to_multiset().filter(f),
    ));
}

/// Where all references point into one slot, that slot's count is their
/// number.
pub proof fn lemma_count_all(p: Seq<RowRef>, slot: usize)
    requires
        forall|i: int| 0 <= i < p.len() ==> (#[trigger] p[i]).slot == slot,
    ensures
        slot_count(p, slot) == p.len(),
{
    p.to_multiset_ensures();
    let m = p.to_multiset();
    assert forall|e: RowRef| m.filter(in_slot(slot)).count(e) == m.count(e) by {
        if m.count(e) > 0 {
            assert(p.contains(e));
            let i = choose|i: int| 0 <= i < p.len() && p[i] == e;
            assert(p[i].slot == slot);
        }
    }
    assert(m.filter(in_slot(slot)) =~= m);
}

/// Two sequences that hold the same elements still do so after a function
/// was applied to every element.
pub proof fn lemma_map_same_elements<A, B>(a: Seq<A>, b: Seq<A>, f: spec_fn(A) -> B)
    requires
        a.to_multiset() == b.to_multiset(),
    ensures
        a.map_values(f).to_multiset() == b.map_values(f).to_multiset(),
    decreases a.len(),
{
    a.to_multiset_ensures();
    b.to_multiset_ensures();
    if a.len() == 0 {
        assert(a.map_values(f) =~= b.map_values(f));
    } else {
        let x = a.last();
        assert(a.contains(x));
        assert(a.to_multiset().count(x) > 0);
        assert(b.contains(x));
        let j = choose|j: int| 0 <= j < b.len() && b[j] == x;
        let a1 = a.drop_last();
        let b1 = b.remove(j);
        to_multiset_remove(a, a.len() - 1);
        assert(a1 =~= a.remove(a.len() - 1));
        to_multiset_remove(b, j);
        lemma_map_same_elements(a1, b1, f);
        let ma = a.map_values(f);
        let mb = b.map_values(f);
        assert(ma =~= a1.map_values(f).push(f(x)));
        to_multiset_build(a1.map_values(f), f(x));
        assert(mb.remove(j) =~= b1.map_values(f));
        to_multiset_remove(mb, j);
        mb.to_multiset_ensures();
        assert(mb.contains(mb[j]));
        assert(mb.to_multiset() =~= b1.map_values(f).to_multiset().insert(f(x)));
    }
}

} // verus!
