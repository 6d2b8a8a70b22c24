//! The set operations as operators: `&` intersection, `|` union, `^` symmetric
//! difference, `-` difference and `!` complement, on sets and on references
//! to sets, and the assigning forms of the four binary ones.
//!
//! Each gives what the named operation of `ByteSet` gives. Verus takes a `!`
//! in verified code for the operator of the integers and the booleans, so a
//! verified caller writes `complement()`.

use crate::ByteSet;
use core::ops::{
    BitAnd, BitAndAssign, BitOr, BitOrAssign, BitXor, BitXorAssign, Not, Sub, SubAssign,
};
use vstd::prelude::*;

verus! {

impl Not for ByteSet {
    type Output = ByteSet;

    /// The bytes that are not members.
    fn not(self) -> (r: ByteSet)
        ensures
            r@ == self@.complement(),
    {
        self.complement()
    }
}

impl vstd::std_specs::ops::NotSpecImpl for ByteSet {
    open spec fn obeys_not_spec() -> bool {
        true
    }

    open spec fn not_req(self) -> bool {
        true
    }

    open spec fn not_spec(self) -> ByteSet {
        self.spec_complement()
    }
}

impl<'a> Not for &'a ByteSet {
    type Output = ByteSet;

    /// The bytes that are not members.
    fn not(self) -> (r: ByteSet)
        ensures
            r@ == self@.complement(),
    {
        self.complement()
    }
}

impl<'a> vstd::std_specs::ops::NotSpecImpl for &'a ByteSet {
    open spec fn obeys_not_spec() -> bool {
        true
    }

    open spec fn not_req(self) -> bool {
        true
    }

    open spec fn not_spec(self) -> ByteSet {
        self.spec_complement()
    }
}

impl BitAnd<ByteSet> for ByteSet {
    type Output = ByteSet;

    /// The members that both operands have.
    fn bitand(self, other: ByteSet) -> (r: ByteSet)
        ensures
            r@ == self@.intersect(other@),
    {
        self.intersection(&other)
    }
}

impl vstd::std_specs::ops::BitAndSpecImpl<ByteSet> for ByteSet {
    open spec fn obeys_bitand_spec() -> bool {
        true
    }

    open spec fn bitand_req(self, other: ByteSet) -> bool {
        true
    }

    open spec fn bitand_spec(self, other: ByteSet) -> ByteSet {
        self.spec_intersection(&other)
    }
}

impl<'b> BitAnd<&'b ByteSet> for ByteSet {
    type Output = ByteSet;

    /// The members that both operands have.
    fn bitand(self, other: &'b ByteSet) -> (r: ByteSet)
        ensures
            r@ == self@.intersect(other@),
    {
        self.intersection(other)
    }
}

impl<'b> vstd::std_specs::ops::BitAndSpecImpl<&'b ByteSet> for ByteSet {
    open spec fn obeys_bitand_spec() -> bool {
        true
    }

    open spec fn bitand_req(self, other: &'b ByteSet) -> bool {
        true
    }

    open spec fn bitand_spec(self, other: &'b ByteSet) -> ByteSet {
        self.spec_intersection(&other)
    }
}

impl<'a> BitAnd<ByteSet> for &'a ByteSet {
    type Output = ByteSet;

    /// The members that both operands have.
    fn bitand(self, other: ByteSet) -> (r: ByteSet)
        ensures
            r@ == self@.intersect(other@),
    {
        self.intersection(&other)
    }
}

impl<'a> vstd::std_specs::ops::BitAndSpecImpl<ByteSet> for &'a ByteSet {
    open spec fn obeys_bitand_spec() -> bool {
        true
    }

    open spec fn bitand_req(self, other: ByteSet) -> bool {
        true
    }

    open spec fn bitand_spec(self, other: ByteSet) -> ByteSet {
        self.spec_intersection(&other)
    }
}

impl<'a, 'b> BitAnd<&'b ByteSet> for &'a ByteSet {
    type Output = ByteSet;

    /// The members that both operands have.
    fn bitand(self, other: &'b ByteSet) -> (r: ByteSet)
        ensures
            r@ == self@.intersect(other@),
    {
        self.intersection(other)
    }
}

impl<'a, 'b> vstd::std_specs::ops::BitAndSpecImpl<&'b ByteSet> for &'a ByteSet {
    open spec fn obeys_bitand_spec() -> bool {
        true
    }

    open spec fn bitand_req(self, other: &'b ByteSet) -> bool {
        true
    }

    open spec fn bitand_spec(self, other: &'b ByteSet) -> ByteSet {
        self.spec_intersection(&other)
    }
}

impl BitOr<ByteSet> for ByteSet {
    type Output = ByteSet;

    /// The bytes that either operand has.
    fn bitor(self, other: ByteSet) -> (r: ByteSet)
        ensures
            r@ == self@.union(other@),
    {
        self.union(&other)
    }
}

impl vstd::std_specs::ops::BitOrSpecImpl<ByteSet> for ByteSet {
    open spec fn obeys_bitor_spec() -> bool {
        true
    }

    open spec fn bitor_req(self, other: ByteSet) -> bool {
        true
    }

    open spec fn bitor_spec(self, other: ByteSet) -> ByteSet {
        self.spec_union(&other)
    }
}

impl<'b> BitOr<&'b ByteSet> for ByteSet {
    type Output = ByteSet;

    /// The bytes that either operand has.
    fn bitor(self, other: &'b ByteSet) -> (r: ByteSet)
        ensures
            r@ == self@.union(other@),
    {
        self.union(other)
    }
}

impl<'b> vstd::std_specs::ops::BitOrSpecImpl<&'b ByteSet> for ByteSet {
    open spec fn obeys_bitor_spec() -> bool {
        true
    }

    open spec fn bitor_req(self, other: &'b ByteSet) -> bool {
        true
    }

    open spec fn bitor_spec(self, other: &'b ByteSet) -> ByteSet {
        self.spec_union(&other)
    }
}

impl<'a> BitOr<ByteSet> for &'a ByteSet {
    type Output = ByteSet;

    /// The bytes that either operand has.
    fn bitor(self, other: ByteSet) -> (r: ByteSet)
        ensures
            r@ == self@.union(other@),
    {
        self.union(&other)
    }
}

impl<'a> vstd::std_specs::ops::BitOrSpecImpl<ByteSet> for &'a ByteSet {
    open spec fn obeys_bitor_spec() -> bool {
        true
    }

    open spec fn bitor_req(self, other: ByteSet) -> bool {
        true
    }

    open spec fn bitor_spec(self, other: ByteSet) -> ByteSet {
        self.spec_union(&other)
    }
}

impl<'a, 'b> BitOr<&'b ByteSet> for &'a ByteSet {
    type Output = ByteSet;

    /// The bytes that either operand has.
    fn bitor(self, other: &'b ByteSet) -> (r: ByteSet)
        ensures
            r@ == self@.union(other@),
    {
        self.union(other)
    }
}

impl<'a, 'b> vstd::std_specs::ops::BitOrSpecImpl<&'b ByteSet> for &'a ByteSet {
    open spec fn obeys_bitor_spec() -> bool {
        true
    }

    open spec fn bitor_req(self, other: &'b ByteSet) -> bool {
        true
    }

    open spec fn bitor_spec(self, other: &'b ByteSet) -> ByteSet {
        self.spec_union(&other)
    }
}

impl BitXor<ByteSet> for ByteSet {
    type Output = ByteSet;

    /// The bytes that exactly one operand has.
    fn bitxor(self, other: ByteSet) -> (r: ByteSet)
        ensures
            r@ == self@.union(other@).difference(self@.intersect(other@)),
    {
        self.symmetric_difference(&other)
    }
}

impl vstd::std_specs::ops::BitXorSpecImpl<ByteSet> for ByteSet {
    open spec fn obeys_bitxor_spec() -> bool {
        true
    }

    open spec fn bitxor_req(self, other: ByteSet) -> bool {
        true
    }

    open spec fn bitxor_spec(self, other: ByteSet) -> ByteSet {
        self.spec_symmetric_difference(&other)
    }
}

impl<'b> BitXor<&'b ByteSet> for ByteSet {
    type Output = ByteSet;

    /// The bytes that exactly one operand has.
    fn bitxor(self, other: &'b ByteSet) -> (r: ByteSet)
        ensures
            r@ == self@.union(other@).difference(self@.intersect(other@)),
    {
        self.symmetric_difference(other)
    }
}

impl<'b> vstd::std_specs::ops::BitXorSpecImpl<&'b ByteSet> for ByteSet {
    open spec fn obeys_bitxor_spec() -> bool {
        true
    }

    open spec fn bitxor_req(self, other: &'b ByteSet) -> bool {
        true
    }

    open spec fn bitxor_spec(self, other: &'b ByteSet) -> ByteSet {
        self.spec_symmetric_difference(&other)
    }
}

impl<'a> BitXor<ByteSet> for &'a ByteSet {
    type Output = ByteSet;

    /// The bytes that exactly one operand has.
    fn bitxor(self, other: ByteSet) -> (r: ByteSet)
        ensures
            r@ == self@.union(other@).difference(self@.intersect(other@)),
    {
        self.symmetric_difference(&other)
    }
}

impl<'a> vstd::std_specs::ops::BitXorSpecImpl<ByteSet> for &'a ByteSet {
    open spec fn obeys_bitxor_spec() -> bool {
        true
    }

    open spec fn bitxor_req(self, other: ByteSet) -> bool {
        true
    }

    open spec fn bitxor_spec(self, other: ByteSet) -> ByteSet {
        self.spec_symmetric_difference(&other)
    }
}

impl<'a, 'b> BitXor<&'b ByteSet> for &'a ByteSet {
    type Output = ByteSet;

    /// The bytes that exactly one operand has.
    fn bitxor(self, other: &'b ByteSet) -> (r: ByteSet)
        ensures
            r@ == self@.union(other@).difference(self@.intersect(other@)),
    {
        self.symmetric_difference(other)
    }
}

impl<'a, 'b> vstd::std_specs::ops::BitXorSpecImpl<&'b ByteSet> for &'a ByteSet {
    open spec fn obeys_bitxor_spec() -> bool {
        true
    }

    open spec fn bitxor_req(self, other: &'b ByteSet) -> bool {
        true
    }

    open spec fn bitxor_spec(self, other: &'b ByteSet) -> ByteSet {
        self.spec_symmetric_difference(&other)
    }
}

impl Sub<ByteSet> for ByteSet {
    type Output = ByteSet;

    /// The members of the left operand that the right one lacks.
    fn sub(self, other: ByteSet) -> (r: ByteSet)
        ensures
            r@ == self@.difference(other@),
    {
        self.difference(&other)
    }
}

impl vstd::std_specs::ops::SubSpecImpl<ByteSet> for ByteSet {
    open spec fn obeys_sub_spec() -> bool {
        true
    }

    open spec fn sub_req(self, other: ByteSet) -> bool {
        true
    }

    open spec fn sub_spec(self, other: ByteSet) -> ByteSet {
        self.spec_difference(&other)
    }
}

impl<'b> Sub<&'b ByteSet> for ByteSet {
    type Output = ByteSet;

    /// The members of the left operand that the right one lacks.
    fn sub(self, other: &'b ByteSet) -> (r: ByteSet)
        ensures
            r@ == self@.difference(other@),
    {
        self.difference(other)
    }
}

impl<'b> vstd::std_specs::ops::SubSpecImpl<&'b ByteSet> for ByteSet {
    open spec fn obeys_sub_spec() -> bool {
        true
    }

    open spec fn sub_req(self, other: &'b ByteSet) -> bool {
        true
    }

    open spec fn sub_spec(self, other: &'b ByteSet) -> ByteSet {
        self.spec_difference(&other)
    }
}

impl<'a> Sub<ByteSet> for &'a ByteSet {
    type Output = ByteSet;

    /// The members of the left operand that the right one lacks.
    fn sub(self, other: ByteSet) -> (r: ByteSet)
        ensures
            r@ == self@.difference(other@),
    {
        self.difference(&other)
    }
}

impl<'a> vstd::std_specs::ops::SubSpecImpl<ByteSet> for &'a ByteSet {
    open spec fn obeys_sub_spec() -> bool {
        true
    }

    open spec fn sub_req(self, other: ByteSet) -> bool {
        true
    }

    open spec fn sub_spec(self, other: ByteSet) -> ByteSet {
        self.spec_difference(&other)
    }
}

impl<'a, 'b> Sub<&'b ByteSet> for &'a ByteSet {
    type Output = ByteSet;

    /// The members of the left operand that the right one lacks.
    fn sub(self, other: &'b ByteSet) -> (r: ByteSet)
        ensures
            r@ == self@.difference(other@),
    {
        self.difference(other)
    }
}

impl<'a, 'b> vstd::std_specs::ops::SubSpecImpl<&'b ByteSet> for &'a ByteSet {
    open spec fn obeys_sub_spec() -> bool {
        true
    }

    open spec fn sub_req(self, other: &'b ByteSet) -> bool {
        true
    }

    open spec fn sub_spec(self, other: &'b ByteSet) -> ByteSet {
        self.spec_difference(&other)
    }
}

impl BitAndAssign<ByteSet> for ByteSet {
    /// Puts in place of `self` what `bitand` gives on `self` and `other`.
    fn bitand_assign(&mut self, other: ByteSet)
        ensures
            final(self)@ == old(self)@.intersect(other@),
    {
        *self = self.intersection(&other);
    }
}

impl<'a> BitAndAssign<&'a ByteSet> for ByteSet {
    /// Puts in place of `self` what `bitand` gives on `self` and `other`.
    fn bitand_assign(&mut self, other: &'a ByteSet)
        ensures
            final(self)@ == old(self)@.intersect(other@),
    {
        *self = self.intersection(other);
    }
}

impl BitOrAssign<ByteSet> for ByteSet {
    /// Puts in place of `self` what `bitor` gives on `self` and `other`.
    fn bitor_assign(&mut self, other: ByteSet)
        ensures
            final(self)@ == old(self)@.union(other@),
    {
        *self = self.union(&other);
    }
}

impl<'a> BitOrAssign<&'a ByteSet> for ByteSet {
    /// Puts in place of `self` what `bitor` gives on `self` and `other`.
    fn bitor_assign(&mut self, other: &'a ByteSet)
        ensures
            final(self)@ == old(self)@.union(other@),
    {
        *self = self.union(other);
    }
}

impl BitXorAssign<ByteSet> for ByteSet {
    /// Puts in place of `self` what `bitxor` gives on `self` and `other`.
    fn bitxor_assign(&mut self, other: ByteSet)
        ensures
            final(self)@ == old(self)@.union(other@).difference(old(self)@.intersect(other@)),
    {
        *self = self.symmetric_difference(&other);
    }
}

impl<'a> BitXorAssign<&'a ByteSet> for ByteSet {
    /// Puts in place of `self` what `bitxor` gives on `self` and `other`.
    fn bitxor_assign(&mut self, other: &'a ByteSet)
        ensures
            final(self)@ == old(self)@.union(other@).difference(old(self)@.intersect(other@)),
    {
        *self = self.symmetric_difference(other);
    }
}

impl SubAssign<ByteSet> for ByteSet {
    /// Puts in place of `self` what `sub` gives on `self` and `other`.
    fn sub_assign(&mut self, other: ByteSet)
        ensures
            final(self)@ == old(self)@.difference(other@),
    {
        *self = self.difference(&other);
    }
}

impl<'a> SubAssign<&'a ByteSet> for ByteSet {
    /// Puts in place of `self` what `sub` gives on `self` and `other`.
    fn sub_assign(&mut self, other: &'a ByteSet)
        ensures
            final(self)@ == old(self)@.difference(other@),
    {
        *self = self.difference(other);
    }
}

} // verus!
