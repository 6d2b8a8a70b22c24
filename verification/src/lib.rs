//! A set of 8-bit values kept as a 256-bit mask, one bit per possible member.
//!
//! [`ByteSet`] offers what a `HashSet<u8>` offers, in 32 bytes and without
//! allocation: every operation is a handful of bit operations on the mask.
//! The mathematical value of a set, its view, is the `Set<u8>` of its
//! members, and every contract is stated over that view.

pub mod iter;
pub mod laws;
mod ops;
mod word;

use crate::iter::{
    lemma_members_between, members_between, pairs_between, ByteRange, IntoPairs, Iter, Pairs,
};
use crate::word::Word256;
use vstd::prelude::*;
use vstd::std_specs::iter::IteratorSpec;

verus! {

/// A set of bytes: bit `v` of the mask is one exactly when `v` is a member.
#[derive(Debug, Copy, Clone, PartialEq, Eq, Structural, Hash)]
pub struct ByteSet {
    bits: Word256,
}

impl View for ByteSet {
    type V = Set<u8>;

    /// The members of the set.
    closed spec fn view(&self) -> Set<u8> {
        self.bits.ones()
    }
}

impl ByteSet {
    /// The set whose members are the bytes in `s`.
    pub closed spec fn from_view(s: Set<u8>) -> ByteSet {
        ByteSet { bits: Word256::with_ones(s) }
    }

    /// Each set of bytes is the view of a `ByteSet`.
    pub proof fn lemma_from_view(s: Set<u8>)
        ensures
            ByteSet::from_view(s)@ == s,
    {
        Word256::lemma_with_ones(s);
    }

    /// Two sets with the same members are the same set.
    pub proof fn lemma_equal_by_members(a: ByteSet, b: ByteSet)
        requires
            a@ == b@,
        ensures
            a == b,
    {
        a.bits.lemma_same_ones(b.bits);
    }

    /// A set with the members `s` is `from_view(s)`.
    pub proof fn lemma_is_from_view(self, s: Set<u8>)
        requires
            self@ == s,
        ensures
            self == ByteSet::from_view(s),
    {
        Self::lemma_from_view(s);
        Self::lemma_equal_by_members(self, ByteSet::from_view(s));
    }

    /// The members in ascending order.
    pub open spec fn ascending(&self) -> Seq<u8> {
        members_between(self@, 0, 256)
    }

    /// All 256 bytes in ascending order, each with whether it is a member.
    pub open spec fn pairs_in_order(&self) -> Seq<(u8, bool)> {
        pairs_between(self@, 0, 256)
    }

    /// `self` with `val` as a member.
    pub open spec fn spec_insert(self, val: u8) -> Self {
        Self::from_view(self@.insert(val))
    }

    /// `self` without `val` as a member.
    pub open spec fn spec_remove(self, val: u8) -> Self {
        Self::from_view(self@.remove(val))
    }

    /// `self` with the membership of `val` reversed.
    pub open spec fn spec_toggle(self, val: u8) -> Self {
        if self@.contains(val) {
            self.spec_remove(val)
        } else {
            self.spec_insert(val)
        }
    }

    /// The members of `self` that are not in `other`.
    pub open spec fn spec_difference(&self, other: &Self) -> Self {
        Self::from_view(self@.difference(other@))
    }

    /// The bytes that are in exactly one of `self` and `other`.
    pub open spec fn spec_symmetric_difference(&self, other: &Self) -> Self {
        Self::from_view(self@.union(other@).difference(self@.intersect(other@)))
    }

    /// The members that `self` and `other` have in common.
    pub open spec fn spec_intersection(&self, other: &Self) -> Self {
        Self::from_view(self@.intersect(other@))
    }

    /// The bytes that are in `self` or in `other`.
    pub open spec fn spec_union(&self, other: &Self) -> Self {
        Self::from_view(self@.union(other@))
    }

    /// The bytes that are not in `self`.
    pub open spec fn spec_complement(&self) -> Self {
        Self::from_view(self@.complement())
    }

    /// Whether `flags` marks the members: `flags[v]` is `true` exactly when
    /// `v` is a member.
    pub open spec fn matches_array(&self, flags: &[bool; 256]) -> bool {
        forall|v: u8| self@.contains(v) == #[trigger] flags[v as int]
    }

    /// The set of the bytes that `flags` marks.
    pub open spec fn of_array(flags: &[bool; 256]) -> ByteSet {
        ByteSet::from_view(Set::new(|v: u8| flags[v as int]))
    }

    /// The array that marks the members of `s` below `n` and nothing else.
    spec fn flags_below(s: Set<u8>, n: nat) -> [bool; 256]
        decreases n,
    {
        if n == 0 {
            vstd::array::spec_array_fill_for_copy_type(false)
        } else {
            vstd::array::spec_array_update(
                Self::flags_below(s, (n - 1) as nat),
                n - 1,
                s.contains((n - 1) as u8),
            )
        }
    }

    proof fn lemma_flags_below(s: Set<u8>, n: nat)
        requires
            n <= 256,
        ensures
            forall|i: int|
                0 <= i < n ==> #[trigger] Self::flags_below(s, n)[i] == s.contains(i as u8),
        decreases n,
    {
        broadcast use vstd::array::group_array_axioms;

        if n > 0 {
            let rest = Self::flags_below(s, (n - 1) as nat);
            let all = Self::flags_below(s, n);
            Self::lemma_flags_below(s, (n - 1) as nat);
            assert(all@ == rest@.update(n - 1, s.contains((n - 1) as u8)));
            assert forall|i: int| 0 <= i < n implies #[trigger] all[i] == s.contains(i as u8) by {
                if i < n - 1 {
                    assert(all@[i] == rest@[i]);
                    assert(rest[i] == s.contains(i as u8));
                }
            }
        }
    }

    /// The array that marks the members of `self`.
    pub closed spec fn to_array(&self) -> [bool; 256] {
        Self::flags_below(self@, 256)
    }

    /// `to_array` gives an array that marks the members of the set, and
    /// `of_array` a set whose members the array marks.
    pub proof fn lemma_array_forms(set: ByteSet, flags: [bool; 256])
        ensures
            set.matches_array(&set.to_array()),
            ByteSet::of_array(&flags).matches_array(&flags),
    {
        Self::lemma_flags_below(set@, 256);
        Self::lemma_from_view(Set::new(|v: u8| flags[v as int]));
    }

    /// Two arrays that mark the members of one set are the same array.
    pub proof fn lemma_one_array(&self, a: [bool; 256], b: [bool; 256])
        requires
            self.matches_array(&a),
            self.matches_array(&b),
        ensures
            a == b,
    {
        assert forall|i: int| 0 <= i < 256 implies a[i] == b[i] by {
            let v = i as u8;
            assert(self@.contains(v) == a[v as int]);
            assert(self@.contains(v) == b[v as int]);
        }
        assert(a =~= b);
    }

    /// Two sets whose members one array marks are the same set.
    pub proof fn lemma_one_set(a: ByteSet, b: ByteSet, flags: [bool; 256])
        requires
            a.matches_array(&flags),
            b.matches_array(&flags),
        ensures
            a == b,
    {
        assert forall|v: u8| a@.contains(v) == b@.contains(v) by {
            assert(a@.contains(v) == flags[v as int]);
        }
        assert(a@ =~= b@);
        Self::lemma_equal_by_members(a, b);
    }

    /// The mask whose only one bit is bit `val`.
    fn mask(val: u8) -> (m: Word256)
        ensures
            forall|v: u8| #[trigger] m.bit(v) == (v == val),
    {
        let m = Word256::one().shl(val);
        proof {
            Word256::lemma_constant_bits();
            assert forall|v: u8| #[trigger] m.bit(v) == (v == val) by {
                if v >= val {
                    assert(Word256::spec_one().bit((v - val) as u8) == (v - val == 0));
                }
            }
        }
        m
    }

    /// The run of bytes from the smallest member to the largest; the empty
    /// run where there is no member.
    pub(crate) fn range(&self) -> (r: ByteRange)
        ensures
            self@ == Set::<u8>::empty() ==> r.lo() == r.hi(),
            self@ != Set::<u8>::empty() ==> r.lo() < r.hi() && self@.contains(r.lo() as u8)
                && self@.contains((r.hi() - 1) as u8),
            forall|v: u8| self@.contains(v) ==> r.lo() <= v < r.hi(),
    {
        match (self.min(), self.max()) {
            (Some(min), Some(max)) => ByteRange::new(min, max),
            _ => ByteRange::empty(),
        }
    }

    /// Creates an empty set.
    pub fn new() -> (r: Self)
        ensures
            r@ == Set::<u8>::empty(),
    {
        proof {
            Word256::lemma_constant_bits();
        }
        ByteSet { bits: Word256::zero() }
    }

    /// Creates the set of all 256 bytes.
    pub fn full() -> (r: Self)
        ensures
            r@ == Set::<u8>::full(),
    {
        proof {
            Word256::lemma_constant_bits();
        }
        ByteSet { bits: Word256::full() }
    }

    /// Creates the set of the bytes for which `f` returns `true`. `f` is
    /// called once for each byte, in ascending order.
    pub fn from_predicate<F: FnMut(u8) -> bool>(mut f: F) -> (r: Self)
        requires
            forall|v: u8| call_requires(f, (v,)),
        ensures
            forall|v: u8| call_ensures(f, (v,), #[trigger] r@.contains(v)),
    {
        let mut set = Self::new();
        let ghost f0 = f;
        for n in 0u16..256
            invariant
                f == f0,
                forall|v: u8| call_requires(f, (v,)),
                forall|v: u8| v < n ==> call_ensures(f, (v,), #[trigger] set@.contains(v)),
                forall|v: u8| n <= v ==> !set@.contains(v),
        {
            let val: u8 = n as u8;
            if f(val) {
                set.insert(val);
            }
        }
        set
    }

    /// Creates the set of the bytes that occur in `vals`.
    pub fn from_iter(vals: &[u8]) -> (r: Self)
        ensures
            r@ == vals@.to_set(),
    {
        let mut set = Self::new();
        set.extend(vals);
        assert(set@ =~= vals@.to_set());
        set
    }

    /// An iterator over the members in ascending order.
    pub fn iter(&self) -> (r: Iter<'_>)
        ensures
            r.remaining() == self.ascending(),
            r.decrease() is Some,
    {
        Iter::new(self)
    }

    /// An iterator over all 256 bytes in ascending order, each with whether
    /// it is a member.
    pub fn pairs(&self) -> (r: Pairs<'_>)
        ensures
            r.remaining() == self.pairs_in_order(),
            r.decrease() is Some,
    {
        Pairs::new(self)
    }

    /// Like [`ByteSet::pairs`], on a set that the iterator keeps for itself.
    pub fn into_pairs(self) -> (r: IntoPairs)
        ensures
            r.remaining() == self.pairs_in_order(),
            r.decrease() is Some,
    {
        IntoPairs::new(self)
    }

    /// Returns the number of members.
    pub fn len(&self) -> (n: u32)
        ensures
            n == self@.len(),
            n <= 256,
            n == 0 <==> self@ == Set::<u8>::empty(),
            n == 256 <==> self@ == Set::<u8>::full(),
    {
        proof {
            crate::laws::law_len_bounds(*self);
        }
        self.bits.count_ones()
    }

    /// Returns the smallest member, or `None` if the set is empty.
    pub fn min(&self) -> (r: Option<u8>)
        ensures
            (match r {
                Some(m) => self@.contains(m) && forall|v: u8| self@.contains(v) ==> m <= v,
                None => self@ == Set::<u8>::empty(),
            }),
    {
        let n: u32 = self.bits.trailing_zeros();
        if n < 256 {
            Some(n as u8)
        } else {
            assert(self@ =~= Set::<u8>::empty());
            None
        }
    }

    /// Returns the largest member, or `None` if the set is empty.
    pub fn max(&self) -> (r: Option<u8>)
        ensures
            (match r {
                Some(m) => self@.contains(m) && forall|v: u8| self@.contains(v) ==> v <= m,
                None => self@ == Set::<u8>::empty(),
            }),
    {
        let n: u32 = self.bits.leading_zeros();
        if n < 256 {
            Some((255 - n) as u8)
        } else {
            assert(self@ =~= Set::<u8>::empty());
            None
        }
    }

    /// Returns `true` if the set has no members.
    pub fn is_empty(&self) -> (r: bool)
        ensures
            r == (self@ == Set::<u8>::empty()),
            r == (forall|v: u8| !self@.contains(v)),
    {
        proof {
            Word256::lemma_constant_bits();
            if self.bits != Word256::spec_zero() {
                let v = self.bits.lemma_has_one();
                assert(self@.contains(v));
            }
        }
        self.bits == Word256::zero()
    }

    /// Removes every member.
    pub fn clear(&mut self)
        ensures
            final(self)@ == Set::<u8>::empty(),
    {
        proof {
            Word256::lemma_constant_bits();
        }
        self.bits = Word256::zero();
    }

    /// Returns the members of `self` that are not in `other`.
    #[verifier::when_used_as_spec(spec_difference)]
    pub fn difference(&self, other: &Self) -> (r: Self)
        ensures
            r@ == self@.difference(other@),
            r == self.spec_difference(other),
    {
        let r = ByteSet { bits: self.bits.and(other.bits.not()) };
        proof {
            other.bits.lemma_not_bits();
            self.bits.lemma_and_bits(other.bits.spec_not());
            assert(r@ =~= self@.difference(other@));
            r.lemma_is_from_view(self@.difference(other@));
        }
        r
    }

    /// Returns the bytes that are in `self` or in `other` but not in both.
    #[verifier::when_used_as_spec(spec_symmetric_difference)]
    pub fn symmetric_difference(&self, other: &Self) -> (r: Self)
        ensures
            r@ == self@.union(other@).difference(self@.intersect(other@)),
            r == self.spec_symmetric_difference(other),
    {
        let r = ByteSet { bits: self.bits.xor(other.bits) };
        proof {
            self.bits.lemma_xor_bits(other.bits);
            assert(r@ =~= self@.union(other@).difference(self@.intersect(other@)));
            r.lemma_is_from_view(self@.union(other@).difference(self@.intersect(other@)));
        }
        r
    }

    /// Returns the members that `self` and `other` have in common.
    #[verifier::when_used_as_spec(spec_intersection)]
    pub fn intersection(&self, other: &Self) -> (r: Self)
        ensures
            r@ == self@.intersect(other@),
            r == self.spec_intersection(other),
    {
        let r = ByteSet { bits: self.bits.and(other.bits) };
        proof {
            self.bits.lemma_and_bits(other.bits);
            r.lemma_is_from_view(self@.intersect(other@));
        }
        r
    }

    /// Returns the bytes that are in `self` or in `other`.
    #[verifier::when_used_as_spec(spec_union)]
    pub fn union(&self, other: &Self) -> (r: Self)
        ensures
            r@ == self@.union(other@),
            r == self.spec_union(other),
    {
        let r = ByteSet { bits: self.bits.or(other.bits) };
        proof {
            self.bits.lemma_or_bits(other.bits);
            r.lemma_is_from_view(self@.union(other@));
        }
        r
    }

    /// Returns the bytes that are not in `self`.
    #[verifier::when_used_as_spec(spec_complement)]
    pub fn complement(&self) -> (r: Self)
        ensures
            r@ == self@.complement(),
            r == self.spec_complement(),
    {
        let r = ByteSet { bits: self.bits.not() };
        proof {
            self.bits.lemma_not_bits();
            r.lemma_is_from_view(self@.complement());
        }
        r
    }

    /// Returns `true` if `val` is a member.
    pub fn contains(&self, val: u8) -> (r: bool)
        ensures
            r == self@.contains(val),
    {
        let m = Self::mask(val);
        let hit = self.bits.and(m);
        proof {
            self.bits.lemma_and_bits(m);
            Word256::lemma_constant_bits();
            if hit == Word256::spec_zero() {
                assert(!hit.bit(val));
            } else {
                let v = hit.lemma_has_one();
                assert(v == val);
            }
        }
        hit != Word256::zero()
    }

    /// Returns `true` if `self` and `other` have no member in common.
    pub fn is_disjoint(&self, other: &Self) -> (r: bool)
        ensures
            r == self@.disjoint(other@),
    {
        let common = self.bits.and(other.bits);
        proof {
            self.bits.lemma_and_bits(other.bits);
            Word256::lemma_constant_bits();
            if common != Word256::spec_zero() {
                let v = common.lemma_has_one();
                assert(self@.contains(v) && other@.contains(v));
            } else {
                assert forall|v: u8| self@.contains(v) implies !other@.contains(v) by {
                    assert(!common.bit(v));
                }
            }
        }
        common == Word256::zero()
    }

    /// Returns `true` if every member of `self` is a member of `other`.
    pub fn is_subset(&self, other: &Self) -> (r: bool)
        ensures
            r == self@.subset_of(other@),
    {
        let common = self.bits.and(other.bits);
        proof {
            self.bits.lemma_and_bits(other.bits);
            if self@.subset_of(other@) {
                assert forall|v: u8| common.bit(v) == self.bits.bit(v) by {
                    assert(self@.contains(v) ==> other@.contains(v));
                }
                common.lemma_same_bits(self.bits);
            } else {
                let v = choose|v: u8| self@.contains(v) && !other@.contains(v);
                assert(self.bits.bit(v) && !common.bit(v));
            }
        }
        common == self.bits
    }

    /// Returns `true` if every member of `other` is a member of `self`.
    pub fn is_superset(&self, other: &Self) -> (r: bool)
        ensures
            r == other@.subset_of(self@),
    {
        other.is_subset(self)
    }

    /// Adds `val` to the set. Returns `true` if `val` was not a member before.
    pub fn insert(&mut self, val: u8) -> (added: bool)
        ensures
            final(self)@ == old(self)@.insert(val),
            final(self)@.contains(val),
            added == !old(self)@.contains(val),
            *final(self) == old(self).spec_insert(val),
    {
        let prev = self.bits;
        let m = Self::mask(val);
        self.bits = prev.or(m);
        proof {
            prev.lemma_or_bits(m);
            assert(self@ =~= old(self)@.insert(val));
            self.lemma_is_from_view(old(self)@.insert(val));
            if prev.bit(val) {
                self.bits.lemma_same_bits(prev);
            } else {
                assert(self.bits.bit(val));
            }
        }
        prev != self.bits
    }

    /// Removes `val` from the set. Returns `true` if `val` was a member before.
    pub fn remove(&mut self, val: u8) -> (removed: bool)
        ensures
            final(self)@ == old(self)@.remove(val),
            !final(self)@.contains(val),
            removed == old(self)@.contains(val),
            *final(self) == old(self).spec_remove(val),
    {
        let prev = self.bits;
        let m = Self::mask(val);
        self.bits = prev.and(m.not());
        proof {
            m.lemma_not_bits();
            prev.lemma_and_bits(m.spec_not());
            assert(self@ =~= old(self)@.remove(val));
            self.lemma_is_from_view(old(self)@.remove(val));
            if prev.bit(val) {
                assert(!self.bits.bit(val));
            } else {
                self.bits.lemma_same_bits(prev);
            }
        }
        prev != self.bits
    }

    /// Adds `val` if it is not a member and removes it if it is. Returns
    /// `true` if `val` is a member afterwards.
    pub fn toggle(&mut self, val: u8) -> (present: bool)
        ensures
            final(self)@ == (if old(self)@.contains(val) {
                old(self)@.remove(val)
            } else {
                old(self)@.insert(val)
            }),
            present == final(self)@.contains(val),
            present == !old(self)@.contains(val),
            *final(self) == old(self).spec_toggle(val),
    {
        let prev = self.bits;
        let m = Self::mask(val);
        self.bits = prev.xor(m);
        let hit = m.and(self.bits);
        proof {
            prev.lemma_xor_bits(m);
            m.lemma_and_bits(self.bits);
            Word256::lemma_constant_bits();
            if old(self)@.contains(val) {
                assert(self@ =~= old(self)@.remove(val));
                self.lemma_is_from_view(old(self)@.remove(val));
            } else {
                assert(self@ =~= old(self)@.insert(val));
                self.lemma_is_from_view(old(self)@.insert(val));
            }
            if hit == Word256::spec_zero() {
                assert(!hit.bit(val));
            } else {
                let v = hit.lemma_has_one();
                assert(v == val);
            }
        }
        hit != Word256::zero()
    }

    /// Removes `val` and returns it if it was a member; otherwise leaves the
    /// set as it is and returns `None`.
    pub fn take(&mut self, val: u8) -> (r: Option<u8>)
        ensures
            final(self)@ == old(self)@.remove(val),
            r == (if old(self)@.contains(val) {
                Some(val)
            } else {
                None
            }),
            r is None ==> *final(self) == *old(self),
    {
        let prev = *self;
        if self.remove(val) {
            Some(val)
        } else {
            proof {
                assert(self@ =~= prev@);
                Self::lemma_equal_by_members(*self, prev);
            }
            None
        }
    }

    /// Keeps the members for which `f` returns `true` and removes the others.
    /// `f` is called once for each member, in ascending order.
    pub fn retain<F: FnMut(u8) -> bool>(&mut self, mut f: F)
        requires
            forall|v: u8| old(self)@.contains(v) ==> call_requires(f, (v,)),
        ensures
            final(self)@.subset_of(old(self)@),
            forall|v: u8|
                old(self)@.contains(v) ==> call_ensures(
                    f,
                    (v,),
                    #[trigger] final(self)@.contains(v),
                ),
    {
        let ghost all = self.ascending();
        let ghost f0 = f;
        proof {
            lemma_members_between(self@, 0, 256);
        }
        for val in members: (*self).into_iter()
            invariant
                f == f0,
                members.seq() == all,
                all == old(self).ascending(),
                self@.subset_of(old(self)@),
                forall|v: u8| old(self)@.contains(v) ==> call_requires(f, (v,)),
                forall|i: int|
                    0 <= i < members.index() ==> call_ensures(
                        f,
                        (all[i],),
                        self@.contains(#[trigger] all[i]),
                    ),
                forall|i: int|
                    members.index() <= i < all.len() ==> self@.contains(#[trigger] all[i]),
        {
            proof {
                lemma_members_between(old(self)@, 0, 256);
            }
            if !f(val) {
                self.remove(val);
            }
        }
        proof {
            lemma_members_between(old(self)@, 0, 256);
            assert forall|v: u8| old(self)@.contains(v) implies call_ensures(
                f,
                (v,),
                #[trigger] self@.contains(v),
            ) by {
                assert(all.contains(v));
                let i = choose|i: int| 0 <= i < all.len() && all[i] == v;
                assert(self@.contains(all[i]) == self@.contains(v));
            }
        }
    }

    /// Adds each of `vals` to the set.
    pub fn extend(&mut self, vals: &[u8])
        ensures
            final(self)@ == old(self)@.union(vals@.to_set()),
    {
        for i in 0..vals.len()
            invariant
                forall|v: u8|
                    self@.contains(v) == (old(self)@.contains(v) || exists|k: int|
                        0 <= k < i && vals@[k] == v),
        {
            let ghost before = self@;
            self.insert(vals[i]);
            proof {
                assert forall|v: u8|
                    self@.contains(v) == (old(self)@.contains(v) || exists|k: int|
                        0 <= k < i + 1 && vals@[k] == v) by {
                    if v == vals@[i as int] {
                        assert(0 <= i < i + 1 && vals@[i as int] == v);
                    } else if before.contains(v) && !old(self)@.contains(v) {
                        let k = choose|k: int| 0 <= k < i && vals@[k] == v;
                        assert(0 <= k < i + 1 && vals@[k] == v);
                    }
                }
            }
        }
        proof {
            assert forall|v: u8| self@.contains(v) == old(self)@.union(vals@.to_set()).contains(
                v,
            ) by {
                if vals@.to_set().contains(v) {
                    assert(vals@.contains(v));
                    let k = choose|k: int| 0 <= k < vals@.len() && vals@[k] == v;
                    assert(0 <= k < vals.len() && vals@[k] == v);
                }
                if exists|k: int| 0 <= k < vals.len() && vals@[k] == v {
                    assert(vals@.contains(v));
                }
            }
            assert(self@ =~= old(self)@.union(vals@.to_set()));
        }
    }
}

impl Default for ByteSet {
    /// The empty set.
    fn default() -> (r: Self)
        ensures
            r@ == Set::<u8>::empty(),
    {
        Self::new()
    }
}

impl core::ops::Index<u8> for ByteSet {
    type Output = bool;

    /// Whether `index` is a member.
    fn index(&self, index: u8) -> (r: &bool)
        ensures
            *r == self@.contains(index),
    {
        if self.contains(index) {
            &true
        } else {
            &false
        }
    }
}

impl vstd::std_specs::core::IndexSpecImpl<u8> for ByteSet {
    open spec fn index_req(&self, index: &u8) -> bool {
        true
    }
}

impl From<&[bool; 256]> for ByteSet {
    /// The set of the bytes `v` at which `vals[v]` is `true`.
    fn from(vals: &[bool; 256]) -> (r: Self)
        ensures
            r.matches_array(vals),
    {
        let mut set = Self::new();
        for n in 0u16..256
            invariant
                forall|v: u8| v < n ==> set@.contains(v) == #[trigger] vals[v as int],
                forall|v: u8| n <= v ==> !set@.contains(v),
        {
            let i: u8 = n as u8;
            if vals[i as usize] {
                set.insert(i);
            }
        }
        proof {
            ByteSet::lemma_array_forms(set, *vals);
            ByteSet::lemma_one_set(set, ByteSet::of_array(vals), *vals);
        }
        set
    }
}

impl vstd::std_specs::convert::FromSpecImpl<&[bool; 256]> for ByteSet {
    open spec fn obeys_from_spec() -> bool {
        true
    }

    open spec fn from_spec(vals: &[bool; 256]) -> ByteSet {
        ByteSet::of_array(vals)
    }
}

impl From<[bool; 256]> for ByteSet {
    /// The set of the bytes `v` at which `vals[v]` is `true`.
    fn from(vals: [bool; 256]) -> (r: Self)
        ensures
            r.matches_array(&vals),
    {
        Self::from(&vals)
    }
}

impl vstd::std_specs::convert::FromSpecImpl<[bool; 256]> for ByteSet {
    open spec fn obeys_from_spec() -> bool {
        true
    }

    open spec fn from_spec(vals: [bool; 256]) -> ByteSet {
        ByteSet::of_array(&vals)
    }
}

impl From<&ByteSet> for [bool; 256] {
    /// The array that holds `true` at each member of `set` and `false`
    /// elsewhere.
    fn from(set: &ByteSet) -> (r: Self)
        ensures
            set.matches_array(&r),
    {
        let mut arr = [false; 256];
        for val in members: set.iter()
            invariant
                members.seq() == set.ascending(),
                forall|i: int|
                    0 <= i < 256 ==> arr[i] == (exists|k: int|
                        0 <= k < members.index() && members.seq()[k] == i),
        {
            let ghost before = arr;
            arr[val as usize] = true;
            proof {
                assert forall|i: int| 0 <= i < 256 implies arr[i] == (exists|k: int|
                    0 <= k < members.index() + 1 && members.seq()[k] == i) by {
                    if i == val {
                        assert(members.seq()[members.index()] == i);
                    } else if before[i] {
                        let k = choose|k: int| 0 <= k < members.index() && members.seq()[k] == i;
                        assert(0 <= k < members.index() + 1 && members.seq()[k] == i);
                    }
                }
            }
        }
        proof {
            lemma_members_between(set@, 0, 256);
            let all = set.ascending();
            assert forall|v: u8| set@.contains(v) == #[trigger] arr[v as int] by {
                if set@.contains(v) {
                    assert(all.contains(v));
                    let k = choose|k: int| 0 <= k < all.len() && all[k] == v;
                    assert(all[k] == v as int);
                }
            }
            ByteSet::lemma_array_forms(*set, arr);
            set.lemma_one_array(arr, set.to_array());
        }
        arr
    }
}

impl vstd::std_specs::convert::FromSpecImpl<&ByteSet> for [bool; 256] {
    open spec fn obeys_from_spec() -> bool {
        true
    }

    open spec fn from_spec(set: &ByteSet) -> [bool; 256] {
        set.to_array()
    }
}

impl From<ByteSet> for [bool; 256] {
    /// The array that holds `true` at each member of `set` and `false`
    /// elsewhere.
    fn from(set: ByteSet) -> (r: Self)
        ensures
            set.matches_array(&r),
    {
        Self::from(&set)
    }
}

impl vstd::std_specs::convert::FromSpecImpl<ByteSet> for [bool; 256] {
    open spec fn obeys_from_spec() -> bool {
        true
    }

    open spec fn from_spec(set: ByteSet) -> [bool; 256] {
        set.to_array()
    }
}

} // verus!
