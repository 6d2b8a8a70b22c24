//! What holds of every byte set, whatever its members: how the operations
//! relate to each other, stated over the same spec functions as their
//! contracts and proved from them.

use crate::ByteSet;
use vstd::prelude::*;

verus! {

/// A set contains `v` once `v` is inserted, and no longer once `v` is then
/// removed.
pub proof fn law_insert_then_remove(s: ByteSet, v: u8)
    ensures
        s.spec_insert(v)@.contains(v),
        !s.spec_insert(v).spec_remove(v)@.contains(v),
{
    ByteSet::lemma_from_view(s@.insert(v));
    ByteSet::lemma_from_view(s.spec_insert(v)@.remove(v));
}

/// Toggling `v` twice gives back the set as it was, and `v` is a member
/// after the second toggle exactly when it was not after the first: of the
/// two values that `toggle` returns, the second is the negation of the first.
pub proof fn law_toggle_twice(s: ByteSet, v: u8)
    ensures
        s.spec_toggle(v).spec_toggle(v) == s,
        s.spec_toggle(v).spec_toggle(v)@.contains(v) == !s.spec_toggle(v)@.contains(v),
{
    let once = s.spec_toggle(v);
    ByteSet::lemma_from_view(s@.insert(v));
    ByteSet::lemma_from_view(s@.remove(v));
    ByteSet::lemma_from_view(once@.insert(v));
    ByteSet::lemma_from_view(once@.remove(v));
    assert(once.spec_toggle(v)@ =~= s@);
    ByteSet::lemma_equal_by_members(once.spec_toggle(v), s);
}

/// Union does not depend on the order of its operands.
pub proof fn law_union_commutes(a: ByteSet, b: ByteSet)
    ensures
        a.union(&b) == b.union(&a),
{
    assert(a@.union(b@) =~= b@.union(a@));
}

/// Intersection does not depend on the order of its operands.
pub proof fn law_intersection_commutes(a: ByteSet, b: ByteSet)
    ensures
        a.intersection(&b) == b.intersection(&a),
{
    assert(a@.intersect(b@) =~= b@.intersect(a@));
}

/// The difference is the left operand intersected with the complement of the
/// right one.
pub proof fn law_difference_is_and_not(a: ByteSet, b: ByteSet)
    ensures
        a.difference(&b) == a.intersection(&b.complement()),
{
    ByteSet::lemma_from_view(b@.complement());
    assert(a@.difference(b@) =~= a@.intersect(b@.complement()));
}

/// The symmetric difference is the union without the intersection.
pub proof fn law_symmetric_difference(a: ByteSet, b: ByteSet)
    ensures
        a.symmetric_difference(&b) == a.union(&b).difference(&a.intersection(&b)),
{
    ByteSet::lemma_from_view(a@.union(b@));
    ByteSet::lemma_from_view(a@.intersect(b@));
}

/// Two sets that are subsets of each other are the same set.
pub proof fn law_subsets_both_ways(a: ByteSet, b: ByteSet)
    requires
        a@.subset_of(b@),
        b@.subset_of(a@),
    ensures
        a == b,
{
    assert(a@ =~= b@);
    ByteSet::lemma_equal_by_members(a, b);
}

/// The complement of the complement is the set itself.
pub proof fn law_complement_twice(a: ByteSet)
    ensures
        a.complement().complement() == a,
{
    ByteSet::lemma_from_view(a@.complement());
    ByteSet::lemma_from_view(a.complement()@.complement());
    assert(a.complement().complement()@ =~= a@);
    ByteSet::lemma_equal_by_members(a.complement().complement(), a);
}

/// A set turned into its array of 256 flags and back is the same set, and an
/// array of 256 flags turned into a set and back is the same array.
pub proof fn law_array_round_trip(set: ByteSet, flags: [bool; 256])
    ensures
        ByteSet::of_array(&set.to_array()) == set,
        ByteSet::of_array(&flags).to_array() == flags,
{
    ByteSet::lemma_array_forms(set, set.to_array());
    ByteSet::lemma_one_set(ByteSet::of_array(&set.to_array()), set, set.to_array());
    let back = ByteSet::of_array(&flags);
    ByteSet::lemma_array_forms(back, flags);
    back.lemma_one_array(back.to_array(), flags);
}

/// The members in ascending order, which is what the element iterators hand
/// out from the front: as many values as the set has members, each a member,
/// each member among them, every one greater than those before it. Read from
/// the back, as the iterators hand them out from that end, every one is
/// smaller than those before it.
pub proof fn law_ascending(s: ByteSet)
    ensures
        s.ascending().len() == s@.len(),
        forall|v: u8| s.ascending().contains(v) == s@.contains(v),
        forall|i: int, j: int|
            0 <= i < j < s.ascending().len() ==> s.ascending()[i] < s.ascending()[j],
        forall|i: int, j: int|
            0 <= i < j < s.ascending().len() ==> s.ascending().reverse()[i]
                > s.ascending().reverse()[j],
{
    let all = s.ascending();
    crate::iter::lemma_members_between(s@, 0, 256);
    assert forall|v: u8| all.contains(v) == s@.contains(v) by {
        if all.contains(v) {
            let i = choose|i: int| 0 <= i < all.len() && all[i] == v;
            assert(s@.contains(all[i]));
        }
    }
    assert(all.no_duplicates()) by {
        assert forall|i: int, j: int|
            0 <= i < all.len() && 0 <= j < all.len() && i != j implies all[i] != all[j] by {
            if i < j {
                assert(all[i] < all[j]);
            } else {
                assert(all[j] < all[i]);
            }
        }
    }
    all.unique_seq_to_set();
    assert(all.to_set() =~= s@);
}

/// There is one way to put the members in ascending order: a sequence that
/// strictly ascends and holds exactly the members is `ascending()`.
pub proof fn law_ascending_unique(s: ByteSet, q: Seq<u8>)
    requires
        forall|i: int, j: int| 0 <= i < j < q.len() ==> q[i] < q[j],
        forall|v: u8| q.contains(v) == s@.contains(v),
    ensures
        q == s.ascending(),
{
    crate::iter::lemma_members_between_unique(s@, 0, 256, q);
}

/// What the pair iterators hand out from the front: 256 pairs, the bytes 0
/// to 255 in order, each with whether the set contains it.
pub proof fn law_pairs_in_order(s: ByteSet)
    ensures
        s.pairs_in_order().len() == 256,
        forall|i: int|
            0 <= i < 256 ==> #[trigger] s.pairs_in_order()[i] == (i as u8, s@.contains(i as u8)),
{
}

/// A set has no more than 256 members, none exactly when it is empty and
/// 256 exactly when it is full.
pub proof fn law_len_bounds(s: ByteSet)
    ensures
        s@.finite(),
        s@.len() <= 256,
        s@.len() == 0 <==> s@ == Set::<u8>::empty(),
        s@.len() == 256 <==> s@ == Set::<u8>::full(),
{
    crate::word::lemma_all_bytes();
    vstd::set_lib::lemma_len_subset(s@, Set::<u8>::full());
    if s@.len() == 0 {
        s@.lemma_len0_is_empty();
        assert(s@ =~= Set::<u8>::empty());
    }
    if s@.len() == 256 {
        vstd::set_lib::lemma_subset_equality(s@, Set::<u8>::full());
    }
}

} // verus!
