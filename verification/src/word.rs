//! The 256-bit mask behind a byte set: two 128-bit words, their bits, and the
//! operations that `ethnum::U256` performs on them.

use ethnum::U256;
use vstd::prelude::*;

verus! {

/// A 256-bit mask as its high and low 128-bit words.
#[derive(Clone, Copy, Debug, PartialEq, Eq, Structural, Hash)]
pub struct Word256 {
    pub hi: u128,
    pub lo: u128,
}

/// Whether bit `i` of `w` is one, bit 0 being the least significant.
pub open spec fn word_bit(w: u128, i: u8) -> bool {
    (w >> i) & 1 == 1
}

impl Word256 {
    /// Whether bit `v` of the mask is one: bits 0 to 127 lie in `lo`,
    /// bits 128 to 255 in `hi`.
    pub open spec fn bit(self, v: u8) -> bool {
        if v < 128 {
            word_bit(self.lo, v)
        } else {
            word_bit(self.hi, (v - 128) as u8)
        }
    }

    /// The positions of the one bits.
    pub open spec fn ones(self) -> Set<u8> {
        Set::new(|v: u8| self.bit(v))
    }

    /// The mask with no bit set.
    pub open spec fn spec_zero() -> Word256 {
        Word256 { hi: 0, lo: 0 }
    }

    /// The mask with every bit set.
    pub open spec fn spec_full() -> Word256 {
        Word256 { hi: u128::MAX, lo: u128::MAX }
    }

    /// The mask whose only one bit is bit 0.
    pub open spec fn spec_one() -> Word256 {
        Word256 { hi: 0, lo: 1 }
    }

    /// The mask whose only one bit is bit `v`.
    pub open spec fn spec_single(v: u8) -> Word256 {
        if v < 128 {
            Word256 { hi: 0, lo: 1u128 << v }
        } else {
            Word256 { hi: 1u128 << ((v - 128) as u8), lo: 0 }
        }
    }

    /// The mask whose one bits are the members of `s` below `n`.
    pub open spec fn with_ones_below(s: Set<u8>, n: nat) -> Word256
        decreases n,
    {
        if n == 0 {
            Word256::spec_zero()
        } else if s.contains((n - 1) as u8) {
            Word256::with_ones_below(s, (n - 1) as nat).spec_or(
                Word256::spec_single((n - 1) as u8),
            )
        } else {
            Word256::with_ones_below(s, (n - 1) as nat)
        }
    }

    /// The mask whose one bits are the members of `s`.
    pub open spec fn with_ones(s: Set<u8>) -> Word256 {
        Word256::with_ones_below(s, 256)
    }

    /// Word by word `&`.
    pub open spec fn spec_and(self, other: Word256) -> Word256 {
        Word256 { hi: self.hi & other.hi, lo: self.lo & other.lo }
    }

    /// Word by word `|`.
    pub open spec fn spec_or(self, other: Word256) -> Word256 {
        Word256 { hi: self.hi | other.hi, lo: self.lo | other.lo }
    }

    /// Word by word `^`.
    pub open spec fn spec_xor(self, other: Word256) -> Word256 {
        Word256 { hi: self.hi ^ other.hi, lo: self.lo ^ other.lo }
    }

    /// Word by word `!`.
    pub open spec fn spec_not(self) -> Word256 {
        Word256 { hi: !self.hi, lo: !self.lo }
    }

    /// The mask with no bit set.
    pub fn zero() -> (r: Word256)
        ensures
            r == Word256::spec_zero(),
    {
        Word256 { hi: 0, lo: 0 }
    }

    /// The mask with every bit set.
    pub fn full() -> (r: Word256)
        ensures
            r == Word256::spec_full(),
    {
        Word256 { hi: u128::MAX, lo: u128::MAX }
    }

    /// The mask whose only one bit is bit 0.
    pub fn one() -> (r: Word256)
        ensures
            r == Word256::spec_one(),
    {
        Word256 { hi: 0, lo: 1 }
    }

    /// `&` of `ethnum::U256`. Trusted: each word of the result is the `&` of
    /// the operands' words.
    #[verifier::external_body]
    pub(crate) fn and(self, other: Word256) -> (r: Word256)
        ensures
            r == self.spec_and(other),
    {
        let a = U256::from_words(self.hi, self.lo);
        let b = U256::from_words(other.hi, other.lo);
        let (hi, lo) = (a & b).into_words();
        Word256 { hi, lo }
    }

    /// `|` of `ethnum::U256`. Trusted: each word of the result is the `|` of
    /// the operands' words.
    #[verifier::external_body]
    pub(crate) fn or(self, other: Word256) -> (r: Word256)
        ensures
            r == self.spec_or(other),
    {
        let a = U256::from_words(self.hi, self.lo);
        let b = U256::from_words(other.hi, other.lo);
        let (hi, lo) = (a | b).into_words();
        Word256 { hi, lo }
    }

    /// `^` of `ethnum::U256`. Trusted: each word of the result is the `^` of
    /// the operands' words.
    #[verifier::external_body]
    pub(crate) fn xor(self, other: Word256) -> (r: Word256)
        ensures
            r == self.spec_xor(other),
    {
        let a = U256::from_words(self.hi, self.lo);
        let b = U256::from_words(other.hi, other.lo);
        let (hi, lo) = (a ^ b).into_words();
        Word256 { hi, lo }
    }

    /// `!` of `ethnum::U256`. Trusted: each word of the result is the `!` of
    /// the operand's word.
    #[verifier::external_body]
    pub(crate) fn not(self) -> (r: Word256)
        ensures
            r == self.spec_not(),
    {
        let (hi, lo) = (!U256::from_words(self.hi, self.lo)).into_words();
        Word256 { hi, lo }
    }

    /// `<<` of `ethnum::U256` by a `u8`. Trusted: every bit moves `n` places
    /// up, the `n` lowest bits of the result are zero, and what would pass
    /// bit 255 is lost.
    #[verifier::external_body]
    pub(crate) fn shl(self, n: u8) -> (r: Word256)
        ensures
            forall|j: u8| #[trigger] r.bit(j) == (j >= n && self.bit((j - n) as u8)),
    {
        let (hi, lo) = (U256::from_words(self.hi, self.lo) << n).into_words();
        Word256 { hi, lo }
    }

    /// `U256::count_ones` of `ethnum`. Trusted: the result is the number of
    /// one bits.
    #[verifier::external_body]
    pub(crate) fn count_ones(self) -> (r: u32)
        ensures
            r == self.ones().len(),
    {
        U256::from_words(self.hi, self.lo).count_ones()
    }

    /// `U256::trailing_zeros` of `ethnum`. Trusted: the result is the number
    /// of zero bits below the lowest one bit, and 256 where no bit is one.
    #[verifier::external_body]
    pub(crate) fn trailing_zeros(self) -> (r: u32)
        ensures
            r <= 256,
            r < 256 ==> self.bit(r as u8),
            forall|j: u8| j < r ==> !#[trigger] self.bit(j),
    {
        U256::from_words(self.hi, self.lo).trailing_zeros()
    }

    /// `U256::leading_zeros` of `ethnum`. Trusted: the result is the number
    /// of zero bits above the highest one bit, and 256 where no bit is one.
    #[verifier::external_body]
    pub(crate) fn leading_zeros(self) -> (r: u32)
        ensures
            r <= 256,
            r < 256 ==> self.bit((255 - r) as u8),
            forall|j: u8| 255 - j < r ==> !#[trigger] self.bit(j),
    {
        U256::from_words(self.hi, self.lo).leading_zeros()
    }
}


proof fn lemma_word_and(x: u128, y: u128, i: u8)
    by (bit_vector)
    ensures
        word_bit(x & y, i) == (word_bit(x, i) && word_bit(y, i)),
{
}

proof fn lemma_word_or(x: u128, y: u128, i: u8)
    by (bit_vector)
    ensures
        word_bit(x | y, i) == (word_bit(x, i) || word_bit(y, i)),
{
}

proof fn lemma_word_xor(x: u128, y: u128, i: u8)
    by (bit_vector)
    ensures
        word_bit(x ^ y, i) == (word_bit(x, i) != word_bit(y, i)),
{
}

proof fn lemma_word_not(x: u128, i: u8)
    by (bit_vector)
    requires
        i < 128,
    ensures
        word_bit(!x, i) == !word_bit(x, i),
{
}

proof fn lemma_word_constants(i: u8)
    by (bit_vector)
    requires
        i < 128,
    ensures
        !word_bit(0, i),
        word_bit(0xffff_ffff_ffff_ffff_ffff_ffff_ffff_ffff, i),
        word_bit(1, i) == (i == 0),
{
}

proof fn lemma_word_single(v: u8, i: u8)
    by (bit_vector)
    requires
        v < 128,
        i < 128,
    ensures
        word_bit(1u128 << v, i) == (i == v),
{
}

/// Below a word's first `k` bits nothing but zeros means that one of those
/// `k` bits is one, unless the word is zero.
proof fn lemma_word_has_one(z: u128, k: u8) -> (i: u8)
    requires
        z != 0,
        k <= 128,
        z >> k == 0,
    ensures
        i < k,
        word_bit(z, i),
    decreases k,
{
    assert(k != 0) by (bit_vector)
        requires
            z != 0,
            z >> k == 0,
    ;
    let below = (k - 1) as u8;
    if word_bit(z, below) {
        below
    } else {
        assert(z >> below == 0) by (bit_vector)
            requires
                0 < k <= 128,
                below == k - 1,
                z >> k == 0,
                (z >> below) & 1 != 1,
        ;
        lemma_word_has_one(z, below)
    }
}

impl Word256 {
    /// A bit of `&` is one where it is one in both operands.
    pub proof fn lemma_and_bits(self, other: Word256)
        ensures
            forall|v: u8| #[trigger]
                self.spec_and(other).bit(v) == (self.bit(v) && other.bit(v)),
            self.spec_and(other).ones() == self.ones().intersect(other.ones()),
    {
        assert forall|v: u8| #[trigger]
            self.spec_and(other).bit(v) == (self.bit(v) && other.bit(v)) by {
            if v < 128 {
                lemma_word_and(self.lo, other.lo, v);
            } else {
                lemma_word_and(self.hi, other.hi, (v - 128) as u8);
            }
        }
        assert(self.spec_and(other).ones() =~= self.ones().intersect(other.ones()));
    }

    /// A bit of `|` is one where it is one in either operand.
    pub proof fn lemma_or_bits(self, other: Word256)
        ensures
            forall|v: u8| #[trigger]
                self.spec_or(other).bit(v) == (self.bit(v) || other.bit(v)),
            self.spec_or(other).ones() == self.ones().union(other.ones()),
    {
        assert forall|v: u8| #[trigger]
            self.spec_or(other).bit(v) == (self.bit(v) || other.bit(v)) by {
            if v < 128 {
                lemma_word_or(self.lo, other.lo, v);
            } else {
                lemma_word_or(self.hi, other.hi, (v - 128) as u8);
            }
        }
        assert(self.spec_or(other).ones() =~= self.ones().union(other.ones()));
    }

    /// A bit of `^` is one where the operands differ.
    pub proof fn lemma_xor_bits(self, other: Word256)
        ensures
            forall|v: u8| #[trigger]
                self.spec_xor(other).bit(v) == (self.bit(v) != other.bit(v)),
    {
        assert forall|v: u8| #[trigger]
            self.spec_xor(other).bit(v) == (self.bit(v) != other.bit(v)) by {
            if v < 128 {
                lemma_word_xor(self.lo, other.lo, v);
            } else {
                lemma_word_xor(self.hi, other.hi, (v - 128) as u8);
            }
        }
    }

    /// A bit of `!` is one where it is zero in the operand.
    pub proof fn lemma_not_bits(self)
        ensures
            forall|v: u8| #[trigger] self.spec_not().bit(v) == !self.bit(v),
            self.spec_not().ones() == self.ones().complement(),
    {
        assert forall|v: u8| #[trigger] self.spec_not().bit(v) == !self.bit(v) by {
            if v < 128 {
                lemma_word_not(self.lo, v);
            } else {
                lemma_word_not(self.hi, (v - 128) as u8);
            }
        }
        assert(self.spec_not().ones() =~= self.ones().complement());
    }

    /// The bits of the three constant masks.
    pub proof fn lemma_constant_bits()
        ensures
            forall|v: u8| !#[trigger] Word256::spec_zero().bit(v),
            forall|v: u8| #[trigger] Word256::spec_full().bit(v),
            forall|v: u8| #[trigger] Word256::spec_one().bit(v) == (v == 0),
            Word256::spec_zero().ones() == Set::<u8>::empty(),
            Word256::spec_full().ones() == Set::<u8>::full(),
    {
        assert forall|v: u8| !#[trigger] Word256::spec_zero().bit(v) by {
            lemma_word_constants(if v < 128 { v } else { (v - 128) as u8 });
        }
        assert forall|v: u8| #[trigger] Word256::spec_full().bit(v) by {
            lemma_word_constants(if v < 128 { v } else { (v - 128) as u8 });
        }
        assert forall|v: u8| #[trigger] Word256::spec_one().bit(v) == (v == 0) by {
            lemma_word_constants(if v < 128 { v } else { (v - 128) as u8 });
        }
        assert(Word256::spec_zero().ones() =~= Set::<u8>::empty());
        assert(Word256::spec_full().ones() =~= Set::<u8>::full());
    }

    /// The only one bit of `spec_single(v)` is bit `v`.
    pub proof fn lemma_single_bits(v: u8)
        ensures
            forall|j: u8| #[trigger] Word256::spec_single(v).bit(j) == (j == v),
    {
        assert forall|j: u8| #[trigger] Word256::spec_single(v).bit(j) == (j == v) by {
            let i = if j < 128 {
                j
            } else {
                (j - 128) as u8
            };
            lemma_word_constants(i);
            if (v < 128) == (j < 128) {
                lemma_word_single(
                    if v < 128 {
                        v
                    } else {
                        (v - 128) as u8
                    },
                    i,
                );
            }
        }
    }

    /// The one bits of `with_ones_below(s, n)` are the members of `s` below `n`.
    pub proof fn lemma_with_ones_below(s: Set<u8>, n: nat)
        requires
            n <= 256,
        ensures
            forall|v: u8| #[trigger]
                Word256::with_ones_below(s, n).bit(v) == (v < n && s.contains(v)),
        decreases n,
    {
        Word256::lemma_constant_bits();
        if n > 0 {
            let rest = Word256::with_ones_below(s, (n - 1) as nat);
            let top = (n - 1) as u8;
            Word256::lemma_with_ones_below(s, (n - 1) as nat);
            Word256::lemma_single_bits(top);
            rest.lemma_or_bits(Word256::spec_single(top));
        }
    }

    /// The one bits of `with_ones(s)` are the members of `s`.
    pub proof fn lemma_with_ones(s: Set<u8>)
        ensures
            Word256::with_ones(s).ones() == s,
    {
        Word256::lemma_with_ones_below(s, 256);
        assert(Word256::with_ones(s).ones() =~= s);
    }

    /// A mask other than zero has a one bit.
    pub proof fn lemma_has_one(self) -> (v: u8)
        requires
            self != Word256::spec_zero(),
        ensures
            self.bit(v),
    {
        if self.lo != 0 {
            let z = self.lo;
            assert(z >> 128u8 == 0) by (bit_vector);
            lemma_word_has_one(z, 128)
        } else {
            let z = self.hi;
            assert(z >> 128u8 == 0) by (bit_vector);
            let i = lemma_word_has_one(z, 128);
            (i + 128) as u8
        }
    }

    /// Two masks with the same bits are the same mask.
    pub proof fn lemma_same_bits(self, other: Word256)
        requires
            forall|v: u8| self.bit(v) == other.bit(v),
        ensures
            self == other,
    {
        let d = self.spec_xor(other);
        self.lemma_xor_bits(other);
        if d != Word256::spec_zero() {
            let v = d.lemma_has_one();
            assert(self.bit(v) != other.bit(v));
        }
        let (x, y) = (self.lo, other.lo);
        assert(x ^ y == 0 ==> x == y) by (bit_vector);
        let (x, y) = (self.hi, other.hi);
        assert(x ^ y == 0 ==> x == y) by (bit_vector);
    }

    /// Two masks with the same one bits are the same mask.
    pub proof fn lemma_same_ones(self, other: Word256)
        requires
            self.ones() == other.ones(),
        ensures
            self == other,
    {
        assert forall|v: u8| self.bit(v) == other.bit(v) by {
            assert(self.ones().contains(v) == self.bit(v));
            assert(other.ones().contains(v) == other.bit(v));
        }
        self.lemma_same_bits(other);
    }
}

/// The bytes below `n`.
pub open spec fn bytes_below(n: nat) -> Set<u8> {
    Set::new(|v: u8| v < n)
}

/// There are `n` bytes below `n`, for `n` up to 256.
pub proof fn lemma_bytes_below(n: nat)
    requires
        n <= 256,
    ensures
        bytes_below(n).finite(),
        bytes_below(n).len() == n,
    decreases n,
{
    if n == 0 {
        assert(bytes_below(n) =~= Set::<u8>::empty());
    } else {
        lemma_bytes_below((n - 1) as nat);
        assert(bytes_below(n) =~= bytes_below((n - 1) as nat).insert((n - 1) as u8));
    }
}

/// There are 256 bytes.
pub proof fn lemma_all_bytes()
    ensures
        Set::<u8>::full().finite(),
        Set::<u8>::full().len() == 256,
{
    lemma_bytes_below(256);
    assert(Set::<u8>::full() =~= bytes_below(256));
}

} // verus!
