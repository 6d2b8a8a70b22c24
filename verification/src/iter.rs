//! Iteration over a byte set: its members in ascending order, and all 256
//! bytes paired with whether each is a member. Both run from either end.

use crate::ByteSet;
use core::iter::FusedIterator;
use vstd::prelude::*;
use vstd::std_specs::iter::IteratorSpec;

verus! {

/// The members of `s` from `lo` up to, not including, `hi`, in ascending order.
pub open spec fn members_between(s: Set<u8>, lo: int, hi: int) -> Seq<u8>
    decreases hi - lo,
{
    if hi <= lo {
        Seq::empty()
    } else if s.contains((hi - 1) as u8) {
        members_between(s, lo, hi - 1).push((hi - 1) as u8)
    } else {
        members_between(s, lo, hi - 1)
    }
}

/// Each element of `members_between(s, lo, hi)` is a member of `s` within the
/// bounds, each such member is an element, and the elements strictly ascend.
pub proof fn lemma_members_between(s: Set<u8>, lo: int, hi: int)
    requires
        0 <= lo,
        hi <= 256,
    ensures
        forall|i: int|
            0 <= i < members_between(s, lo, hi).len() ==> ({
                let v = #[trigger] members_between(s, lo, hi)[i];
                lo <= v < hi && s.contains(v)
            }),
        forall|i: int, j: int|
            0 <= i < j < members_between(s, lo, hi).len() ==> members_between(s, lo, hi)[i]
                < members_between(s, lo, hi)[j],
        forall|v: u8|
            lo <= v < hi && s.contains(v) ==> members_between(s, lo, hi).contains(v),
        members_between(s, lo, hi).len() <= (if lo <= hi {
            hi - lo
        } else {
            0
        }),
    decreases hi - lo,
{
    let all = members_between(s, lo, hi);
    if lo < hi {
        let rest = members_between(s, lo, hi - 1);
        let top = (hi - 1) as u8;
        lemma_members_between(s, lo, hi - 1);
        assert forall|v: u8| lo <= v < hi && s.contains(v) implies all.contains(v) by {
            if v == top {
                assert(all[all.len() - 1] == v);
            } else {
                assert(rest.contains(v));
                let i = choose|i: int| 0 <= i < rest.len() && rest[i] == v;
                assert(all[i] == v);
            }
        }
    }
}

/// The first element, if any, is `lo` itself where `lo` is a member.
pub proof fn lemma_members_between_front(s: Set<u8>, lo: int, hi: int)
    requires
        0 <= lo < hi <= 256,
    ensures
        members_between(s, lo, hi) == (if s.contains(lo as u8) {
            seq![lo as u8] + members_between(s, lo + 1, hi)
        } else {
            members_between(s, lo + 1, hi)
        }),
    decreases hi - lo,
{
    if lo + 1 < hi {
        lemma_members_between_front(s, lo, hi - 1);
        let top = (hi - 1) as u8;
        if s.contains(top) && s.contains(lo as u8) {
            assert(members_between(s, lo, hi) =~= seq![lo as u8] + members_between(
                s,
                lo + 1,
                hi,
            ));
        }
    } else {
        assert(members_between(s, lo, lo) =~= Seq::<u8>::empty());
        assert(members_between(s, lo + 1, hi) =~= Seq::<u8>::empty());
        if s.contains(lo as u8) {
            assert(members_between(s, lo, hi) =~= seq![lo as u8] + members_between(
                s,
                lo + 1,
                hi,
            ));
        }
    }
}

/// Bounds may be moved over bytes that are not members.
pub proof fn lemma_members_between_trim(s: Set<u8>, lo: int, hi: int, first: int, last: int)
    requires
        0 <= lo <= first <= last < hi <= 256,
        forall|v: u8| s.contains(v) ==> first <= v <= last,
    ensures
        members_between(s, lo, hi) == members_between(s, first, last + 1),
    decreases hi - last + first - lo,
{
    if last + 1 < hi {
        lemma_members_between_trim(s, lo, hi - 1, first, last);
    } else if lo < first {
        lemma_members_between_trim(s, lo + 1, hi, first, last);
        lemma_members_between_front(s, lo, hi);
    }
}

/// A sequence that strictly ascends and holds exactly the members of `s`
/// within the bounds is `members_between(s, lo, hi)`.
pub proof fn lemma_members_between_unique(s: Set<u8>, lo: int, hi: int, q: Seq<u8>)
    requires
        0 <= lo,
        hi <= 256,
        forall|i: int, j: int| 0 <= i < j < q.len() ==> q[i] < q[j],
        forall|v: u8| q.contains(v) == (lo <= v < hi && s.contains(v)),
    ensures
        q == members_between(s, lo, hi),
    decreases hi - lo,
{
    if hi <= lo {
        if q.len() > 0 {
            assert(q.contains(q[0]));
        }
        assert(q =~= Seq::<u8>::empty());
    } else {
        let top = (hi - 1) as u8;
        if s.contains(top) {
            assert(q.contains(top));
            let k = choose|k: int| 0 <= k < q.len() && q[k] == top;
            if k < q.len() - 1 {
                assert(q.contains(q[q.len() - 1]));
            }
            let rest = q.drop_last();
            assert forall|v: u8| rest.contains(v) == (lo <= v < hi - 1 && s.contains(v)) by {
                if rest.contains(v) {
                    let i = choose|i: int| 0 <= i < rest.len() && rest[i] == v;
                    assert(q[i] == v && q[i] < q[q.len() - 1]);
                    assert(q.contains(v));
                }
                if lo <= v < hi - 1 && s.contains(v) {
                    assert(q.contains(v));
                    let i = choose|i: int| 0 <= i < q.len() && q[i] == v;
                    assert(rest[i] == v);
                }
            }
            lemma_members_between_unique(s, lo, hi - 1, rest);
            assert(q =~= rest.push(top));
        } else {
            lemma_members_between_unique(s, lo, hi - 1, q);
        }
    }
}

/// A run of consecutive bytes that shrinks from either end.
#[derive(Debug, Clone, Copy)]
pub struct ByteRange {
    front: u16,
    back: u16,
}

impl ByteRange {
    #[verifier::type_invariant]
    spec fn well_formed(self) -> bool {
        self.front <= self.back <= 256
    }

    /// The lowest byte of the run; `hi()` where the run is empty.
    pub closed spec fn lo(self) -> int {
        if self.front <= self.hi() {
            self.front as int
        } else {
            self.hi()
        }
    }

    /// One more than the highest byte of the run.
    pub closed spec fn hi(self) -> int {
        if self.back <= 256 {
            self.back as int
        } else {
            256
        }
    }

    /// The bounds lie within the bytes, in order.
    pub proof fn lemma_bounds(self)
        ensures
            0 <= self.lo() <= self.hi() <= 256,
    {
    }

    /// The run from `first` to `last`, both included; empty if `first > last`.
    pub fn new(first: u8, last: u8) -> (r: Self)
        ensures
            first <= last ==> r.lo() == first && r.hi() == last + 1,
            first > last ==> r.lo() == r.hi(),
    {
        if first <= last {
            ByteRange { front: first as u16, back: last as u16 + 1 }
        } else {
            ByteRange { front: 0, back: 0 }
        }
    }

    /// The run without bytes.
    pub fn empty() -> (r: Self)
        ensures
            r.lo() == r.hi(),
    {
        ByteRange { front: 0, back: 0 }
    }

    /// The run of all 256 bytes.
    pub fn all() -> (r: Self)
        ensures
            r.lo() == 0,
            r.hi() == 256,
    {
        ByteRange { front: 0, back: 256 }
    }

    /// The number of bytes left in the run.
    pub fn len(&self) -> (n: usize)
        ensures
            n == self.hi() - self.lo(),
    {
        proof {
            use_type_invariant(self);
        }
        (self.back - self.front) as usize
    }

    /// Takes the lowest byte off the run.
    pub fn next(&mut self) -> (r: Option<u8>)
        ensures
            final(self).hi() == old(self).hi(),
            old(self).lo() < old(self).hi() ==> ({
                &&& r == Some(old(self).lo() as u8)
                &&& final(self).lo() == old(self).lo() + 1
            }),
            old(self).lo() >= old(self).hi() ==> ({
                &&& r is None
                &&& final(self).lo() == old(self).lo()
            }),
    {
        proof {
            use_type_invariant(&*self);
        }
        if self.front < self.back {
            let val: u8 = self.front as u8;
            self.front = self.front + 1;
            Some(val)
        } else {
            None
        }
    }

    /// Takes the highest byte off the run.
    pub fn next_back(&mut self) -> (r: Option<u8>)
        ensures
            final(self).lo() == old(self).lo(),
            old(self).lo() < old(self).hi() ==> ({
                &&& r == Some((old(self).hi() - 1) as u8)
                &&& final(self).hi() == old(self).hi() - 1
            }),
            old(self).lo() >= old(self).hi() ==> ({
                &&& r is None
                &&& final(self).hi() == old(self).hi()
            }),
    {
        proof {
            use_type_invariant(&*self);
        }
        if self.front < self.back {
            self.back = self.back - 1;
            Some(self.back as u8)
        } else {
            None
        }
    }
}

/// A byte set held by value or behind a reference.
pub trait AsByteSet {
    /// The set that is held.
    spec fn held(&self) -> ByteSet;

    /// Lends the set that is held.
    fn as_set(&self) -> (s: &ByteSet)
        ensures
            *s == self.held(),
    ;
}

impl AsByteSet for ByteSet {
    open spec fn held(&self) -> ByteSet {
        *self
    }

    fn as_set(&self) -> (s: &ByteSet) {
        self
    }
}

impl<'a> AsByteSet for &'a ByteSet {
    open spec fn held(&self) -> ByteSet {
        **self
    }

    fn as_set(&self) -> (s: &ByteSet) {
        *self
    }
}

/// The state behind [`Iter`] and [`IntoIter`]: the set, and the run of bytes
/// that may still hold members to hand out.
#[derive(Debug)]
pub struct IterImpl<T> {
    range: ByteRange,
    set: T,
}

impl<T: Copy> Clone for IterImpl<T> {
    /// A copy that hands out the same members.
    fn clone(&self) -> (r: Self)
        ensures
            r == *self,
    {
        IterImpl { range: self.range, set: self.set }
    }
}

impl<T: AsByteSet> IterImpl<T> {
    /// The set whose members are handed out.
    pub closed spec fn set(&self) -> ByteSet {
        self.set.held()
    }

    /// The members still to be handed out, in ascending order.
    pub closed spec fn remaining(&self) -> Seq<u8> {
        members_between(self.set.held()@, self.range.lo(), self.range.hi())
    }

    /// Starts at the whole of `set`.
    pub fn new(set: T) -> (r: Self)
        ensures
            r.set() == set.held(),
            r.remaining() == set.held().ascending(),
    {
        let range = set.as_set().range();
        proof {
            let s = set.held()@;
            if s == Set::<u8>::empty() {
                lemma_members_between_empty(s, range.lo(), range.hi());
                lemma_members_between_empty(s, 0, 256);
            } else {
                lemma_members_between_trim(s, 0, 256, range.lo(), range.hi() - 1);
            }
        }
        IterImpl { range, set }
    }

    /// Hands out the smallest member that is left.
    pub fn next(&mut self) -> (r: Option<u8>)
        ensures
            final(self).set() == old(self).set(),
            old(self).remaining().len() > 0 ==> ({
                &&& r == Some(old(self).remaining().first())
                &&& final(self).remaining() == old(self).remaining().drop_first()
            }),
            old(self).remaining().len() == 0 ==> ({
                &&& r is None
                &&& final(self).remaining() == old(self).remaining()
            }),
    {
        loop
            invariant
                self.set == old(self).set,
                self.remaining() == old(self).remaining(),
            decreases self.range.hi() - self.range.lo(),
        {
            let ghost before = self.range;
            proof {
                before.lemma_bounds();
            }
            match self.range.next() {
                Some(val) => {
                    proof {
                        lemma_members_between_front(self.set.held()@, before.lo(), before.hi());
                    }
                    if self.set.as_set().contains(val) {
                        proof {
                            let rest = members_between(
                                self.set.held()@,
                                before.lo() + 1,
                                before.hi(),
                            );
                            assert((seq![val] + rest).drop_first() =~= rest);
                        }
                        return Some(val);
                    }
                },
                None => {
                    return None;
                },
            }
        }
    }

    /// Hands out the largest member that is left.
    pub fn next_back(&mut self) -> (r: Option<u8>)
        ensures
            final(self).set() == old(self).set(),
            old(self).remaining().len() > 0 ==> ({
                &&& r == Some(old(self).remaining().last())
                &&& final(self).remaining() == old(self).remaining().drop_last()
            }),
            old(self).remaining().len() == 0 ==> ({
                &&& r is None
                &&& final(self).remaining() == old(self).remaining()
            }),
    {
        loop
            invariant
                self.set == old(self).set,
                self.remaining() == old(self).remaining(),
            decreases self.range.hi() - self.range.lo(),
        {
            let ghost before = self.range;
            proof {
                before.lemma_bounds();
            }
            match self.range.next_back() {
                Some(val) => {
                    if self.set.as_set().contains(val) {
                        proof {
                            let rest = members_between(
                                self.set.held()@,
                                before.lo(),
                                before.hi() - 1,
                            );
                            assert(rest.push(val).drop_last() =~= rest);
                        }
                        return Some(val);
                    }
                },
                None => {
                    return None;
                },
            }
        }
    }
}

/// Where `s` has no member the sequence is empty.
pub proof fn lemma_members_between_empty(s: Set<u8>, lo: int, hi: int)
    requires
        s == Set::<u8>::empty(),
    ensures
        members_between(s, lo, hi) == Seq::<u8>::empty(),
    decreases hi - lo,
{
    if lo < hi {
        lemma_members_between_empty(s, lo, hi - 1);
    }
}

/// An iterator over the members of a borrowed set, in ascending order.
#[derive(Debug)]
pub struct Iter<'a>(IterImpl<&'a ByteSet>);

impl<'a> Clone for Iter<'a> {
    /// A copy that hands out the same members.
    fn clone(&self) -> (r: Self)
        ensures
            r == *self,
    {
        Iter(self.0.clone())
    }
}

impl<'a> Iter<'a> {
    /// Starts at the whole of `set`.
    pub(crate) fn new(set: &'a ByteSet) -> (r: Self)
        ensures
            r.remaining() == set.ascending(),
            r.decrease() is Some,
    {
        Iter(IterImpl::new(set))
    }
}

impl<'a> Iterator for Iter<'a> {
    type Item = u8;

    /// Hands out the smallest member that is left.
    fn next(&mut self) -> (r: Option<u8>) {
        self.0.next()
    }

    /// The smallest member that is left: the members come in ascending
    /// order, so it is the first.
    fn min(self) -> (r: Option<u8>)
        ensures
            r == (if self.remaining().len() > 0 {
                Some(self.remaining().first())
            } else {
                None
            }),
    {
        let mut rest = self;
        rest.next()
    }

    /// The largest member that is left: the members come in ascending
    /// order, so it is the last.
    fn max(self) -> (r: Option<u8>)
        ensures
            r == (if self.remaining().len() > 0 {
                Some(self.remaining().last())
            } else {
                None
            }),
    {
        let mut rest = self;
        rest.next_back()
    }
}

impl<'a> vstd::std_specs::iter::IteratorSpecImpl for Iter<'a> {
    open spec fn obeys_prophetic_iter_laws(&self) -> bool {
        true
    }

    /// The members still to be handed out, in ascending order.
    closed spec fn remaining(&self) -> Seq<u8> {
        self.0.remaining()
    }

    open spec fn will_return_none(&self) -> bool {
        true
    }

    closed spec fn decrease(&self) -> Option<nat> {
        Some(self.0.remaining().len())
    }

    open spec fn initial_value_relation(&self, init: &Self) -> bool {
        true
    }

    open spec fn peek(&self, index: int) -> Option<u8> {
        None
    }
}

impl<'a> DoubleEndedIterator for Iter<'a> {
    /// Hands out the largest member that is left.
    fn next_back(&mut self) -> (r: Option<u8>) {
        self.0.next_back()
    }
}

impl<'a> vstd::std_specs::iter::DoubleEndedIteratorSpecImpl for Iter<'a> {
    open spec fn peek_back(&self, index: int) -> Option<u8> {
        None
    }
}

impl<'a> FusedIterator for Iter<'a> {}

/// An iterator over the members of a set of its own, in ascending order.
#[derive(Debug)]
pub struct IntoIter(IterImpl<ByteSet>);

impl Clone for IntoIter {
    /// A copy that hands out the same members.
    fn clone(&self) -> (r: Self)
        ensures
            r == *self,
    {
        IntoIter(self.0.clone())
    }
}

impl IntoIter {
    /// Starts at the whole of `set`.
    pub(crate) fn new(set: ByteSet) -> (r: Self)
        ensures
            r.remaining() == set.ascending(),
            r.decrease() is Some,
    {
        IntoIter(IterImpl::new(set))
    }
}

impl Iterator for IntoIter {
    type Item = u8;

    /// Hands out the smallest member that is left.
    fn next(&mut self) -> (r: Option<u8>) {
        self.0.next()
    }

    /// The smallest member that is left: the members come in ascending
    /// order, so it is the first.
    fn min(self) -> (r: Option<u8>)
        ensures
            r == (if self.remaining().len() > 0 {
                Some(self.remaining().first())
            } else {
                None
            }),
    {
        let mut rest = self;
        rest.next()
    }

    /// The largest member that is left: the members come in ascending
    /// order, so it is the last.
    fn max(self) -> (r: Option<u8>)
        ensures
            r == (if self.remaining().len() > 0 {
                Some(self.remaining().last())
            } else {
                None
            }),
    {
        let mut rest = self;
        rest.next_back()
    }
}

impl vstd::std_specs::iter::IteratorSpecImpl for IntoIter {
    open spec fn obeys_prophetic_iter_laws(&self) -> bool {
        true
    }

    /// The members still to be handed out, in ascending order.
    closed spec fn remaining(&self) -> Seq<u8> {
        self.0.remaining()
    }

    open spec fn will_return_none(&self) -> bool {
        true
    }

    closed spec fn decrease(&self) -> Option<nat> {
        Some(self.0.remaining().len())
    }

    open spec fn initial_value_relation(&self, init: &Self) -> bool {
        true
    }

    open spec fn peek(&self, index: int) -> Option<u8> {
        None
    }
}

impl DoubleEndedIterator for IntoIter {
    /// Hands out the largest member that is left.
    fn next_back(&mut self) -> (r: Option<u8>) {
        self.0.next_back()
    }
}

impl vstd::std_specs::iter::DoubleEndedIteratorSpecImpl for IntoIter {
    open spec fn peek_back(&self, index: int) -> Option<u8> {
        None
    }
}

impl FusedIterator for IntoIter {}

impl<'a> IntoIterator for &'a ByteSet {
    type IntoIter = Iter<'a>;

    type Item = u8;

    fn into_iter(self) -> (r: Iter<'a>)
        ensures
            r.remaining() == self.ascending(),
            r.decrease() is Some,
    {
        Iter::new(self)
    }
}

impl IntoIterator for ByteSet {
    type IntoIter = IntoIter;

    type Item = u8;

    fn into_iter(self) -> (r: IntoIter)
        ensures
            r.remaining() == self.ascending(),
            r.decrease() is Some,
    {
        IntoIter::new(self)
    }
}

/// Each byte from `lo` up to, not including, `hi`, paired with whether it is
/// a member of `s`.
pub open spec fn pairs_between(s: Set<u8>, lo: int, hi: int) -> Seq<(u8, bool)> {
    Seq::new((hi - lo) as nat, |i: int| ((lo + i) as u8, s.contains((lo + i) as u8)))
}

/// The state behind [`Pairs`] and [`IntoPairs`]: the set, and the run of
/// bytes still to be paired.
#[derive(Debug)]
pub struct PairsImpl<T> {
    range: ByteRange,
    set: T,
}

impl<T: Copy> Clone for PairsImpl<T> {
    /// A copy that hands out the same pairs.
    fn clone(&self) -> (r: Self)
        ensures
            r == *self,
    {
        PairsImpl { range: self.range, set: self.set }
    }
}

impl<T: AsByteSet> PairsImpl<T> {
    /// The set that the bytes are held against.
    pub closed spec fn set(&self) -> ByteSet {
        self.set.held()
    }

    /// The pairs still to be handed out, by ascending byte.
    pub closed spec fn remaining(&self) -> Seq<(u8, bool)> {
        pairs_between(self.set.held()@, self.range.lo(), self.range.hi())
    }

    /// Starts at byte 0, with all 256 pairs to come.
    pub fn new(set: T) -> (r: Self)
        ensures
            r.set() == set.held(),
            r.remaining() == set.held().pairs_in_order(),
    {
        PairsImpl { range: ByteRange::all(), set }
    }

    /// Hands out the lowest byte that is left, with whether it is a member.
    pub fn next(&mut self) -> (r: Option<(u8, bool)>)
        ensures
            final(self).set() == old(self).set(),
            old(self).remaining().len() > 0 ==> ({
                &&& r == Some(old(self).remaining().first())
                &&& final(self).remaining() == old(self).remaining().drop_first()
            }),
            old(self).remaining().len() == 0 ==> ({
                &&& r is None
                &&& final(self).remaining() == old(self).remaining()
            }),
    {
        proof {
            self.range.lemma_bounds();
        }
        match self.range.next() {
            Some(val) => {
                assert(self.remaining() =~= old(self).remaining().drop_first());
                Some((val, self.set.as_set().contains(val)))
            },
            None => None,
        }
    }

    /// Hands out the highest byte that is left, with whether it is a member.
    pub fn next_back(&mut self) -> (r: Option<(u8, bool)>)
        ensures
            final(self).set() == old(self).set(),
            old(self).remaining().len() > 0 ==> ({
                &&& r == Some(old(self).remaining().last())
                &&& final(self).remaining() == old(self).remaining().drop_last()
            }),
            old(self).remaining().len() == 0 ==> ({
                &&& r is None
                &&& final(self).remaining() == old(self).remaining()
            }),
    {
        proof {
            self.range.lemma_bounds();
        }
        match self.range.next_back() {
            Some(val) => {
                assert(self.remaining() =~= old(self).remaining().drop_last());
                Some((val, self.set.as_set().contains(val)))
            },
            None => None,
        }
    }

    /// The number of pairs that are left.
    pub fn len(&self) -> (n: usize)
        ensures
            n == self.remaining().len(),
    {
        self.range.len()
    }
}

/// An iterator over all 256 bytes in ascending order, each with whether a
/// borrowed set holds it.
#[derive(Debug)]
pub struct Pairs<'a>(PairsImpl<&'a ByteSet>);

impl<'a> Clone for Pairs<'a> {
    /// A copy that hands out the same pairs.
    fn clone(&self) -> (r: Self)
        ensures
            r == *self,
    {
        Pairs(self.0.clone())
    }
}

impl<'a> Pairs<'a> {
    /// Starts at the whole of `set`.
    pub(crate) fn new(set: &'a ByteSet) -> (r: Self)
        ensures
            r.remaining() == set.pairs_in_order(),
            r.decrease() is Some,
    {
        Pairs(PairsImpl::new(set))
    }
}

impl<'a> Iterator for Pairs<'a> {
    type Item = (u8, bool);

    /// Hands out the lowest byte that is left, with whether it is a member.
    fn next(&mut self) -> (r: Option<(u8, bool)>) {
        self.0.next()
    }

    /// The pair of the lowest byte that is left: the bytes come in
    /// ascending order, so it is the first.
    fn min(self) -> (r: Option<(u8, bool)>)
        ensures
            r == (if self.remaining().len() > 0 {
                Some(self.remaining().first())
            } else {
                None
            }),
    {
        let mut rest = self;
        rest.next()
    }

    /// The pair of the highest byte that is left: the bytes come in
    /// ascending order, so it is the last.
    fn max(self) -> (r: Option<(u8, bool)>)
        ensures
            r == (if self.remaining().len() > 0 {
                Some(self.remaining().last())
            } else {
                None
            }),
    {
        let mut rest = self;
        rest.next_back()
    }
}

impl<'a> vstd::std_specs::iter::IteratorSpecImpl for Pairs<'a> {
    open spec fn obeys_prophetic_iter_laws(&self) -> bool {
        true
    }

    /// The pairs still to be handed out, by ascending byte.
    closed spec fn remaining(&self) -> Seq<(u8, bool)> {
        self.0.remaining()
    }

    open spec fn will_return_none(&self) -> bool {
        true
    }

    closed spec fn decrease(&self) -> Option<nat> {
        Some(self.0.remaining().len())
    }

    open spec fn initial_value_relation(&self, init: &Self) -> bool {
        true
    }

    open spec fn peek(&self, index: int) -> Option<(u8, bool)> {
        None
    }
}

impl<'a> DoubleEndedIterator for Pairs<'a> {
    /// Hands out the highest byte that is left, with whether it is a member.
    fn next_back(&mut self) -> (r: Option<(u8, bool)>) {
        self.0.next_back()
    }
}

impl<'a> vstd::std_specs::iter::DoubleEndedIteratorSpecImpl for Pairs<'a> {
    open spec fn peek_back(&self, index: int) -> Option<(u8, bool)> {
        None
    }
}

impl<'a> FusedIterator for Pairs<'a> {}

impl<'a> ExactSizeIterator for Pairs<'a> {
    /// The number of pairs that are left.
    fn len(&self) -> (n: usize)
        ensures
            n == self.remaining().len(),
    {
        self.0.len()
    }
}

/// An iterator over all 256 bytes in ascending order, each with whether a
/// set of its own holds it.
#[derive(Debug)]
pub struct IntoPairs(PairsImpl<ByteSet>);

impl Clone for IntoPairs {
    /// A copy that hands out the same pairs.
    fn clone(&self) -> (r: Self)
        ensures
            r == *self,
    {
        IntoPairs(self.0.clone())
    }
}

impl IntoPairs {
    /// Starts at the whole of `set`.
    pub(crate) fn new(set: ByteSet) -> (r: Self)
        ensures
            r.remaining() == set.pairs_in_order(),
            r.decrease() is Some,
    {
        IntoPairs(PairsImpl::new(set))
    }
}

impl Iterator for IntoPairs {
    type Item = (u8, bool);

    /// Hands out the lowest byte that is left, with whether it is a member.
    fn next(&mut self) -> (r: Option<(u8, bool)>) {
        self.0.next()
    }

    /// The pair of the lowest byte that is left: the bytes come in
    /// ascending order, so it is the first.
    fn min(self) -> (r: Option<(u8, bool)>)
        ensures
            r == (if self.remaining().len() > 0 {
                Some(self.remaining().first())
            } else {
                None
            }),
    {
        let mut rest = self;
        rest.next()
    }

    /// The pair of the highest byte that is left: the bytes come in
    /// ascending order, so it is the last.
    fn max(self) -> (r: Option<(u8, bool)>)
        ensures
            r == (if self.remaining().len() > 0 {
                Some(self.remaining().last())
            } else {
                None
            }),
    {
        let mut rest = self;
        rest.next_back()
    }
}

impl vstd::std_specs::iter::IteratorSpecImpl for IntoPairs {
    open spec fn obeys_prophetic_iter_laws(&self) -> bool {
        true
    }

    /// The pairs still to be handed out, by ascending byte.
    closed spec fn remaining(&self) -> Seq<(u8, bool)> {
        self.0.remaining()
    }

    open spec fn will_return_none(&self) -> bool {
        true
    }

    closed spec fn decrease(&self) -> Option<nat> {
        Some(self.0.remaining().len())
    }

    open spec fn initial_value_relation(&self, init: &Self) -> bool {
        true
    }

    open spec fn peek(&self, index: int) -> Option<(u8, bool)> {
        None
    }
}

impl DoubleEndedIterator for IntoPairs {
    /// Hands out the highest byte that is left, with whether it is a member.
    fn next_back(&mut self) -> (r: Option<(u8, bool)>) {
        self.0.next_back()
    }
}

impl vstd::std_specs::iter::DoubleEndedIteratorSpecImpl for IntoPairs {
    open spec fn peek_back(&self, index: int) -> Option<(u8, bool)> {
        None
    }
}

impl FusedIterator for IntoPairs {}

impl ExactSizeIterator for IntoPairs {
    /// The number of pairs that are left.
    fn len(&self) -> (n: usize)
        ensures
            n == self.remaining().len(),
    {
        self.0.len()
    }
}

} // verus!
