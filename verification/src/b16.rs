//! Sets of 16 bits, and the iterators over them.

use crate::bits::{
    bit, lemma_all_ones, lemma_bits_bounded, lemma_bits_determine, lemma_complement_len,
    lemma_members_len, members, universe,
};
use crate::order::{
    ascending, descending, is_greatest, is_least, lemma_ascending_contents, lemma_ascending_len,
    lemma_ascending_same, lemma_ascending_skip, lemma_descending_is_reverse,
    lemma_descending_same, lemma_descending_skip, strictly_increasing,
};
use crate::render::{render, rendered};
use crate::{Ascending, Descending, Direction};
use vstd::arithmetic::power2::{lemma2_to64, pow2};
use vstd::bits::lemma_u16_shr_is_div;
use vstd::prelude::*;
use vstd::std_specs::bits::{
    axiom_u16_leading_zeros, axiom_u16_trailing_zeros, u16_leading_zeros, u16_trailing_zeros,
};

verus! {

/// The bit tested by the descending iterator over bits: the highest one.
const TOP_BIT: u16 = 0x8000;

/// Every pattern is a number below two to the capacity, and the greatest
/// is the number just below.
proof fn lemma_fits(a: u16)
    ensures
        (a as nat) < pow2(16),
        u16::MAX == pow2(16) - 1,
{
    lemma2_to64();
}

/// The lowest bit tells whether a pattern is odd.
proof fn lemma_low_bit(x: u16)
    by (bit_vector)
    ensures
        (x & 1 == 1) == (x % 2 == 1),
        (x & 1 != 0) == (x & 1 == 1),
        x >> 0u16 == x,
{
}

/// Shifting and masking reads the digit that `bit` speaks of.
proof fn lemma_bit(a: u16, i: u16)
    requires
        i < 16,
    ensures
        bit(a as nat, i as nat) == ((a >> i) & 1 == 1),
{
    lemma_u16_shr_is_div(a, i);
    lemma_low_bit(a >> i);
}

/// The bitwise operators work on each bit by itself.
proof fn lemma_ops(a: u16, b: u16, i: u16)
    by (bit_vector)
    requires
        i < 16,
    ensures
        (((a | b) >> i) & 1 == 1) == (((a >> i) & 1 == 1) || ((b >> i) & 1 == 1)),
        (((a & b) >> i) & 1 == 1) == (((a >> i) & 1 == 1) && ((b >> i) & 1 == 1)),
        (((a ^ b) >> i) & 1 == 1) == (((a >> i) & 1 == 1) != ((b >> i) & 1 == 1)),
        (((a & !b) >> i) & 1 == 1) == (((a >> i) & 1 == 1) && !((b >> i) & 1 == 1)),
        (((!a) >> i) & 1 == 1) == !((a >> i) & 1 == 1),
{
}

/// The bits of a one shifted up, of the run of ones below it, and the bit
/// that the top mask picks.
proof fn lemma_masks(a: u16, i: u16, j: u16)
    by (bit_vector)
    requires
        i < 16,
        j < 16,
    ensures
        (((1u16 << i) >> j) & 1 == 1) == (i == j),
        (1u16 << i) >= 1,
        (((((1u16 << i) - 1) as u16) >> j) & 1 == 1) == (j < i),
        ((a & TOP_BIT) != 0) == ((a >> 15) & 1 == 1),
{
}

/// A shift moves each bit by the shift amount and fills with zeros.
proof fn lemma_shifts(a: u16, k: u16, j: u16)
    by (bit_vector)
    requires
        k < 16,
        j < 16,
    ensures
        (((a >> k) >> j) & 1 == 1) == (j + k < 16 && (a >> ((j + k) as u16)) & 1 == 1),
        (((a << k) >> j) & 1 == 1) == (j >= k && (a >> ((j - k) as u16)) & 1 == 1),
{
}

/// The identities of the bitwise operators that the laws of the set algebra
/// rest on.
proof fn lemma_identities(a: u16, b: u16, c: u16)
    by (bit_vector)
    ensures
        a | a == a,
        a & a == a,
        a ^ a == 0,
        a & !a == 0,
        a & b == b & a,
        a | b == b | a,
        (a & b) & c == a & (b & c),
        (a | b) | c == a | (b | c),
        !(!a) == a,
        (a | b == b) == (a & b == a),
        (a & !b == b & !a) == (a == b),
{
}

/// What the bitwise operators do to the digit at `i`.
proof fn lemma_digit(a: u16, b: u16, i: nat)
    requires
        i < 16,
    ensures
        bit((a | b) as nat, i) == (bit(a as nat, i) || bit(b as nat, i)),
        bit((a & b) as nat, i) == (bit(a as nat, i) && bit(b as nat, i)),
        bit((a ^ b) as nat, i) == (bit(a as nat, i) != bit(b as nat, i)),
        bit((a & !b) as nat, i) == (bit(a as nat, i) && !bit(b as nat, i)),
        bit((!a) as nat, i) == !bit(a as nat, i),
{
    lemma_ops(a, b, i as u16);
    lemma_bit(a, i as u16);
    lemma_bit(b, i as u16);
    lemma_bit(a | b, i as u16);
    lemma_bit(a & b, i as u16);
    lemma_bit(a ^ b, i as u16);
    lemma_bit(a & !b, i as u16);
    lemma_bit(!a, i as u16);
}

/// What the bitwise operators do to each digit.
proof fn lemma_algebra(a: u16, b: u16)
    ensures
        forall|i: nat|
            i < 16 ==> #[trigger] bit((a | b) as nat, i) == (bit(a as nat, i) || bit(b as nat, i)),
        forall|i: nat|
            i < 16 ==> #[trigger] bit((a & b) as nat, i) == (bit(a as nat, i) && bit(b as nat, i)),
        forall|i: nat|
            i < 16 ==> #[trigger] bit((a ^ b) as nat, i) == (bit(a as nat, i) != bit(b as nat, i)),
        forall|i: nat|
            i < 16 ==> #[trigger] bit((a & !b) as nat, i) == (bit(a as nat, i) && !bit(
                b as nat,
                i,
            )),
        forall|i: nat| i < 16 ==> #[trigger] bit((!a) as nat, i) == !bit(a as nat, i),
{
    assert forall|i: nat| i < 16 implies #[trigger] bit((a | b) as nat, i) == (bit(a as nat, i)
        || bit(b as nat, i)) by {
        lemma_digit(a, b, i);
    }
    assert forall|i: nat| i < 16 implies #[trigger] bit((a & b) as nat, i) == (bit(a as nat, i)
        && bit(b as nat, i)) by {
        lemma_digit(a, b, i);
    }
    assert forall|i: nat| i < 16 implies #[trigger] bit((a ^ b) as nat, i) == (bit(a as nat, i)
        != bit(b as nat, i)) by {
        lemma_digit(a, b, i);
    }
    assert forall|i: nat| i < 16 implies #[trigger] bit((a & !b) as nat, i) == (bit(a as nat, i)
        && !bit(b as nat, i)) by {
        lemma_digit(a, b, i);
    }
    assert forall|i: nat| i < 16 implies #[trigger] bit((!a) as nat, i) == !bit(a as nat, i) by {
        lemma_digit(a, b, i);
    }
}

/// The digits of the empty and of the full pattern.
proof fn lemma_constants()
    ensures
        forall|i: nat| !#[trigger] bit(0, i),
        forall|i: nat| i < 16 ==> #[trigger] bit(u16::MAX as nat, i),
{
    lemma2_to64();
    lemma_bits_bounded(0, 0);
    lemma_fits(0);
    lemma_all_ones(16);
    let full = (pow2(16) - 1) as nat;
    assert forall|i: nat| i < 16 implies #[trigger] bit(u16::MAX as nat, i) by {
        assert(bit(full, i));
    }
}

/// The complements of the empty and of the full pattern are each other.
proof fn lemma_not_constants()
    ensures
        !0u16 == u16::MAX,
        !u16::MAX == 0u16,
{
    lemma_constants();
    lemma_algebra(0, 0);
    lemma_algebra(u16::MAX, 0);
    assert(members((!0u16) as nat, 16) =~= members(u16::MAX as nat, 16));
    lemma_same_members(!0u16, u16::MAX);
    assert(members((!u16::MAX) as nat, 16) =~= members(0u16 as nat, 16));
    lemma_same_members(!u16::MAX, 0u16);
}

/// The digits of a single bit, and of the run of bits below it.
proof fn lemma_single(i: u16)
    requires
        i < 16,
    ensures
        1u16 << i >= 1,
        forall|j: nat| j < 16 ==> #[trigger] bit((1u16 << i) as nat, j) == (i == j),
        forall|j: nat|
            j < 16 ==> #[trigger] bit((((1u16 << i) - 1) as u16) as nat, j) == (j < i),
{
    lemma_masks(0, i, 0);
    assert forall|j: nat| j < 16 implies #[trigger] bit((1u16 << i) as nat, j) == (i == j) by {
        lemma_masks(0, i, j as u16);
        lemma_bit(1u16 << i, j as u16);
    }
    assert forall|j: nat| j < 16 implies #[trigger] bit((((1u16 << i) - 1) as u16) as nat, j) == (j
        < i) by {
        lemma_masks(0, i, j as u16);
        lemma_bit(((1u16 << i) - 1) as u16, j as u16);
    }
}

/// What shifting by `k` does to each digit.
proof fn lemma_shifted(a: u16, k: u16)
    requires
        k < 16,
    ensures
        forall|j: nat|
            j < 16 ==> #[trigger] bit((a >> k) as nat, j) == (j + k < 16 && bit(
                a as nat,
                (j + k) as nat,
            )),
        forall|j: nat|
            j < 16 ==> #[trigger] bit((a << k) as nat, j) == (j >= k && bit(
                a as nat,
                (j - k) as nat,
            )),
{
    assert forall|j: nat| j < 16 implies #[trigger] bit((a >> k) as nat, j) == (j + k < 16 && bit(
        a as nat,
        (j + k) as nat,
    )) by {
        lemma_shifts(a, k, j as u16);
        lemma_bit(a >> k, j as u16);
        if j + k < 16 {
            lemma_bit(a, (j + k) as u16);
        }
    }
    assert forall|j: nat| j < 16 implies #[trigger] bit((a << k) as nat, j) == (j >= k && bit(
        a as nat,
        (j - k) as nat,
    )) by {
        lemma_shifts(a, k, j as u16);
        lemma_bit(a << k, j as u16);
        if j >= k {
            lemma_bit(a, (j - k) as u16);
        }
    }
}

/// Masking with the top bit reads the digit at the highest position.
proof fn lemma_top_bit(a: u16)
    ensures
        ((a & TOP_BIT) != 0) == bit(a as nat, 15),
{
    lemma_masks(a, 0, 0);
    lemma_bit(a, 15);
}

/// Two integers with the same members are the same integer.
proof fn lemma_same_members(a: u16, b: u16)
    requires
        members(a as nat, 16) == members(b as nat, 16),
    ensures
        a == b,
{
    lemma_fits(a);
    lemma_fits(b);
    assert forall|i: nat| i < 16 implies #[trigger] bit(a as nat, i) == bit(b as nat, i) by {
        assert(members(a as nat, 16).contains(i) == bit(a as nat, i));
        assert(members(b as nat, 16).contains(i) == bit(b as nat, i));
    }
    lemma_bits_determine(a as nat, b as nat, 16);
}

/// Only the pattern without a one has no member.
proof fn lemma_zero(a: u16)
    ensures
        (a == 0) == (members(a as nat, 16) == Set::<nat>::empty()),
{
    lemma_constants();
    assert(members(0, 16) =~= Set::<nat>::empty());
    if members(a as nat, 16) == Set::<nat>::empty() {
        lemma_same_members(a, 0);
    }
}

/// The position of the lowest one, from the count of trailing zeros.
proof fn lemma_trailing_zeros(a: u16)
    ensures
        u16_trailing_zeros(a) <= 16,
        u16_trailing_zeros(a) < 16 ==> bit(a as nat, u16_trailing_zeros(a) as nat),
        forall|j: nat| j < u16_trailing_zeros(a) ==> !#[trigger] bit(a as nat, j),
{
    axiom_u16_trailing_zeros(a);
    let r = u16_trailing_zeros(a);
    if r < 16 {
        lemma_bit(a, r as u16);
    }
    assert forall|j: nat| j < r implies !#[trigger] bit(a as nat, j) by {
        lemma_bit(a, j as u16);
    }
}

/// The position of the highest one, from the count of leading zeros.
proof fn lemma_leading_zeros(a: u16)
    ensures
        u16_leading_zeros(a) <= 16,
        u16_leading_zeros(a) < 16 ==> bit(a as nat, (15 - u16_leading_zeros(a)) as nat),
        forall|j: nat| 16 - u16_leading_zeros(a) <= j < 16 ==> !#[trigger] bit(a as nat, j),
{
    axiom_u16_leading_zeros(a);
    let r = u16_leading_zeros(a);
    if r < 16 {
        let p = (15 - r) as u16;
        lemma_bit(a, p);
        lemma_low_bit(a >> p);
    }
    assert forall|j: nat| 16 - r <= j < 16 implies !#[trigger] bit(a as nat, j) by {
        lemma_bit(a, j as u16);
    }
}

/// A set of 16 bits.
#[derive(Clone, Copy, PartialEq, Eq, Hash, Structural)]
pub struct BitSet16(u16);

impl View for BitSet16 {
    type V = Set<nat>;

    /// The members of the set: the positions of the ones in its bits.
    open spec fn view(&self) -> Set<nat> {
        members(self.spec_bits() as nat, 16)
    }
}

impl Default for BitSet16 {
    /// The empty set.
    fn default() -> (r: Self)
        ensures
            r == Self::spec_new(),
    {
        Self::new()
    }
}

impl BitSet16 {
    /// The capacity of a [`BitSet16`].
    pub const CAPACITY: usize = 16;

    /// The bits of the set: bit `i` is one exactly if `i` is a member.
    pub closed spec fn spec_bits(self) -> u16 {
        self.0
    }

    /// The set with the given bits.
    pub closed spec fn spec_from_bits(bits: u16) -> Self {
        BitSet16(bits)
    }

    /// What [`new`](Self::new) returns.
    pub open spec fn spec_new() -> Self {
        Self::spec_from_bits(0)
    }

    /// What [`all`](Self::all) returns.
    pub open spec fn spec_all() -> Self {
        Self::spec_from_bits(u16::MAX)
    }

    /// What [`unit`](Self::unit) returns.
    pub open spec fn spec_unit(index: usize) -> Self {
        if index < 16 {
            Self::spec_from_bits(1u16 << index)
        } else {
            Self::spec_new()
        }
    }

    /// What [`complement`](Self::complement) returns.
    pub open spec fn spec_complement(self) -> Self {
        Self::spec_from_bits(!self.spec_bits())
    }

    /// What [`intersection`](Self::intersection) returns.
    pub open spec fn spec_intersection(self, rhs: Self) -> Self {
        Self::spec_from_bits(self.spec_bits() & rhs.spec_bits())
    }

    /// What [`union`](Self::union) returns.
    pub open spec fn spec_union(self, rhs: Self) -> Self {
        Self::spec_from_bits(self.spec_bits() | rhs.spec_bits())
    }

    /// What [`difference`](Self::difference) returns.
    pub open spec fn spec_difference(self, rhs: Self) -> Self {
        Self::spec_from_bits(self.spec_bits() & !rhs.spec_bits())
    }

    /// What [`symmetric_difference`](Self::symmetric_difference) returns.
    pub open spec fn spec_symmetric_difference(self, rhs: Self) -> Self {
        Self::spec_from_bits(self.spec_bits() ^ rhs.spec_bits())
    }

    /// What [`is`](Self::is) returns.
    pub open spec fn spec_is(self, rhs: Self) -> bool {
        self == rhs
    }

    /// What [`is_not`](Self::is_not) returns.
    pub open spec fn spec_is_not(self, rhs: Self) -> bool {
        self != rhs
    }

    /// What [`is_disjoint`](Self::is_disjoint) returns.
    pub open spec fn spec_is_disjoint(self, rhs: Self) -> bool {
        self.spec_intersection(rhs).spec_is_empty()
    }

    /// What [`is_subset`](Self::is_subset) returns.
    pub open spec fn spec_is_subset(self, rhs: Self) -> bool {
        self.spec_union(rhs) == rhs
    }

    /// What [`is_strict_subset`](Self::is_strict_subset) returns.
    pub open spec fn spec_is_strict_subset(self, rhs: Self) -> bool {
        self.spec_is_subset(rhs) && self != rhs
    }

    /// What [`is_superset`](Self::is_superset) returns.
    pub open spec fn spec_is_superset(self, rhs: Self) -> bool {
        rhs.spec_is_subset(self)
    }

    /// What [`is_strict_superset`](Self::is_strict_superset) returns.
    pub open spec fn spec_is_strict_superset(self, rhs: Self) -> bool {
        self.spec_is_superset(rhs) && self != rhs
    }

    /// What [`is_empty`](Self::is_empty) returns.
    pub open spec fn spec_is_empty(self) -> bool {
        self == Self::spec_new()
    }

    /// What [`is_full`](Self::is_full) returns.
    pub open spec fn spec_is_full(self) -> bool {
        self == Self::spec_all()
    }

    /// What [`len`](Self::len) returns.
    pub open spec fn spec_len(self) -> usize {
        self@.len() as usize
    }

    /// What [`contains`](Self::contains) returns.
    pub open spec fn spec_contains(self, index: usize) -> bool {
        self@.contains(index as nat)
    }

    /// The indices of the members, smallest first.
    pub open spec fn ascending_indices(self) -> Seq<nat> {
        ascending(self@, 0, 16)
    }

    /// The indices of the members, largest first.
    pub open spec fn descending_indices(self) -> Seq<nat> {
        descending(self@, 0, 16)
    }

    /// The indices of the members, smallest first, as machine integers.
    pub open spec fn index_list(self) -> Seq<usize> {
        Seq::new(self.ascending_indices().len(), |i: int| self.ascending_indices()[i] as usize)
    }

    /// One boolean for each position from 0 up: whether it is a member.
    pub open spec fn ascending_bits(self) -> Seq<bool> {
        Seq::new(16, |j: int| self@.contains(j as nat))
    }

    /// One boolean for each position from the highest down: whether it is a
    /// member.
    pub open spec fn descending_bits(self) -> Seq<bool> {
        Seq::new(16, |j: int| self@.contains((15 - j) as nat))
    }

    /// The bits and the set determine each other: `from_bits` and `bits` are
    /// mutually inverse, and sets with the same members are equal.
    pub proof fn lemma_bits_round_trip(self, bits: u16)
        ensures
            Self::spec_from_bits(self.spec_bits()) == self,
            Self::spec_from_bits(bits).spec_bits() == bits,
            forall|other: Self| other.spec_bits() == self.spec_bits() ==> other == self,
            forall|other: Self| other@ == self@ ==> other == self,
            forall|i: nat| self@.contains(i) ==> i < 16,
            self@.finite(),
    {
        assert forall|other: Self| other@ == self@ implies other == self by {
            lemma_same_members(other.0, self.0);
        }
        lemma_fits(self.0);
        lemma_members_len(self.0 as nat, 16);
    }

    /// Creates an empty set.
    #[verifier::when_used_as_spec(spec_new)]
    pub fn new() -> (r: Self)
        ensures
            r == Self::spec_new(),
            r@ == Set::<nat>::empty(),
            r.spec_bits() == 0,
    {
        proof {
            lemma_zero(0);
        }
        Self(0)
    }

    /// Creates a set containing with only the bit at `index` set.
    ///
    /// If `index >=`[`Self::CAPACITY`], the resulting set will be empty.
    #[verifier::when_used_as_spec(spec_unit)]
    pub fn unit(index: usize) -> (r: Self)
        ensures
            r == Self::spec_unit(index),
            index < 16 ==> r@ == set![index as nat] && r.spec_bits() == 1u16 << index,
            index >= 16 ==> r == Self::spec_new() && r@ == Set::<nat>::empty(),
    {
        if index < Self::CAPACITY {
            proof {
                lemma_single(index as u16);
            }
            Self::from_bits(1u16 << index)
        } else {
            Self::new()
        }
    }

    /// Creates a set with all bits set.
    #[verifier::when_used_as_spec(spec_all)]
    pub fn all() -> (r: Self)
        ensures
            r == Self::spec_all(),
            r@ == universe(16),
            r.spec_bits() == u16::MAX,
    {
        proof {
            lemma_constants();
        }
        Self(u16::MAX)
    }

    /// Creates a set with the given bits.
    #[verifier::when_used_as_spec(spec_from_bits)]
    pub fn from_bits(bits: u16) -> (r: Self)
        ensures
            r == Self::spec_from_bits(bits),
            r.spec_bits() == bits,
            r@ == members(bits as nat, 16),
    {
        Self(bits)
    }

    /// Returns the underlying bits of the set.
    #[verifier::when_used_as_spec(spec_bits)]
    pub fn bits(self) -> (r: u16)
        ensures
            r == self.spec_bits(),
            Self::spec_from_bits(r) == self,
    {
        self.0
    }

    /// Creates a new set that complements `self`.
    #[verifier::when_used_as_spec(spec_complement)]
    pub fn complement(self) -> (r: Self)
        ensures
            r == self.spec_complement(),
            r@ == universe(16).difference(self@),
            r.spec_bits() == !self.spec_bits(),
    {
        proof {
            lemma_algebra(self.0, self.0);
        }
        Self(!self.0)
    }

    /// Creates a new set with values that are in both `self` and `rhs`.
    #[verifier::when_used_as_spec(spec_intersection)]
    pub fn intersection(self, rhs: Self) -> (r: Self)
        ensures
            r == self.spec_intersection(rhs),
            r@ == self@.intersect(rhs@),
            r.spec_bits() == self.spec_bits() & rhs.spec_bits(),
    {
        proof {
            lemma_algebra(self.0, rhs.0);
        }
        Self(self.0 & rhs.0)
    }

    /// Creates a new set with values that are in `self` or `rhs`.
    #[verifier::when_used_as_spec(spec_union)]
    pub fn union(self, rhs: Self) -> (r: Self)
        ensures
            r == self.spec_union(rhs),
            r@ == self@.union(rhs@),
            r.spec_bits() == self.spec_bits() | rhs.spec_bits(),
    {
        proof {
            lemma_algebra(self.0, rhs.0);
        }
        Self(self.0 | rhs.0)
    }

    /// Creates a new set with values that are in `self`, but not in `rhs`.
    #[verifier::when_used_as_spec(spec_difference)]
    pub fn difference(self, rhs: Self) -> (r: Self)
        ensures
            r == self.spec_difference(rhs),
            r@ == self@.difference(rhs@),
            r.spec_bits() == self.spec_bits() & !rhs.spec_bits(),
    {
        proof {
            lemma_algebra(self.0, rhs.0);
        }
        Self(self.0 & !rhs.0)
    }

    /// Creates a new set with values that are in `self` or `rhs`, but not in
    /// both.
    #[verifier::when_used_as_spec(spec_symmetric_difference)]
    pub fn symmetric_difference(self, rhs: Self) -> (r: Self)
        ensures
            r == self.spec_symmetric_difference(rhs),
            r@ == self@.difference(rhs@).union(rhs@.difference(self@)),
            r.spec_bits() == self.spec_bits() ^ rhs.spec_bits(),
    {
        proof {
            lemma_algebra(self.0, rhs.0);
            assert(members((self.0 ^ rhs.0) as nat, 16) =~= self@.difference(rhs@).union(
                rhs@.difference(self@),
            ));
        }
        Self(self.0 ^ rhs.0)
    }

    /// Returns `true` if `self` is equal to `rhs`, i.e., both sets have the
    /// same exact values.
    #[verifier::when_used_as_spec(spec_is)]
    pub fn is(self, rhs: Self) -> (r: bool)
        ensures
            r == self.spec_is(rhs),
            r == (self@ == rhs@),
            r == (self.spec_bits() == rhs.spec_bits()),
    {
        proof {
            self.lemma_bits_round_trip(0);
        }
        self.0 == rhs.0
    }

    /// Returns `true` if `self` is not equal to `rhs`, i.e., the sets do not
    /// have exactly the same values.
    #[verifier::when_used_as_spec(spec_is_not)]
    pub fn is_not(self, rhs: Self) -> (r: bool)
        ensures
            r == self.spec_is_not(rhs),
            r == (self@ != rhs@),
            r == (self.spec_bits() != rhs.spec_bits()),
    {
        proof {
            self.lemma_bits_round_trip(0);
        }
        self.0 != rhs.0
    }

    /// Returns `true` if `self` has no elements in common with `rhs`. This is
    /// equivalent to checking for an empty intersection.
    #[verifier::when_used_as_spec(spec_is_disjoint)]
    pub fn is_disjoint(self, rhs: Self) -> (r: bool)
        ensures
            r == self.spec_is_disjoint(rhs),
            r == self@.disjoint(rhs@),
    {
        proof {
            let common = self@.intersect(rhs@);
            if self@.disjoint(rhs@) {
                assert(common =~= Set::<nat>::empty());
            } else {
                let x = choose|x: nat| self@.contains(x) && rhs@.contains(x);
                assert(common.contains(x));
            }
        }
        self.intersection(rhs).is_empty()
    }

    /// Returns `true` if the set is a subset of another, i.e., `rhs` contains
    /// at least all the values in `self`.
    #[verifier::when_used_as_spec(spec_is_subset)]
    pub fn is_subset(self, rhs: Self) -> (r: bool)
        ensures
            r == self.spec_is_subset(rhs),
            r == self@.subset_of(rhs@),
    {
        proof {
            assert(self@.subset_of(rhs@) == (self@.union(rhs@) =~= rhs@));
        }
        self.union(rhs).is(rhs)
    }

    /// Returns `true` if the set is a strict subset of another, i.e., `rhs`
    /// contains all the values in `self` **and** is larger than `self`.
    #[verifier::when_used_as_spec(spec_is_strict_subset)]
    pub fn is_strict_subset(self, rhs: Self) -> (r: bool)
        ensures
            r == self.spec_is_strict_subset(rhs),
            r == (self@.subset_of(rhs@) && self@ != rhs@),
    {
        self.is_subset(rhs) && self.is_not(rhs)
    }

    /// Returns `true` if the set is a superset of another, i.e., `self`
    /// contains at least all the values in `rhs`.
    #[verifier::when_used_as_spec(spec_is_superset)]
    pub fn is_superset(self, rhs: Self) -> (r: bool)
        ensures
            r == self.spec_is_superset(rhs),
            r == rhs@.subset_of(self@),
    {
        rhs.is_subset(self)
    }

    /// Returns `true` if the set is a strict superset of another, i.e., `self`
    /// contains all the values in `rhs` **and** is larger than `rhs`.
    #[verifier::when_used_as_spec(spec_is_strict_superset)]
    pub fn is_strict_superset(self, rhs: Self) -> (r: bool)
        ensures
            r == self.spec_is_strict_superset(rhs),
            r == (rhs@.subset_of(self@) && self@ != rhs@),
    {
        self.is_superset(rhs) && self.is_not(rhs)
    }

    /// Returns `true` if the set contains no elements.
    #[verifier::when_used_as_spec(spec_is_empty)]
    pub fn is_empty(self) -> (r: bool)
        ensures
            r == self.spec_is_empty(),
            r == (self@ == Set::<nat>::empty()),
            r == (self.spec_bits() == 0),
    {
        proof {
            lemma_zero(self.0);
        }
        self.0 == 0
    }

    /// Returns `true` if the set contains all [`Self::CAPACITY`] elements.
    #[verifier::when_used_as_spec(spec_is_full)]
    pub fn is_full(self) -> (r: bool)
        ensures
            r == self.spec_is_full(),
            r == (self@ == universe(16)),
            r == (self.spec_bits() == u16::MAX),
    {
        proof {
            lemma_constants();
            self.lemma_bits_round_trip(0);
            assert(Self::spec_all()@ == universe(16));
        }
        self.0 == u16::MAX
    }

    /// Returns the number of elements in the set.
    #[verifier::when_used_as_spec(spec_len)]
    pub fn len(self) -> (r: usize)
        ensures
            r == self.spec_len(),
            r == self@.len(),
            r <= 16,
    {
        proof {
            lemma_fits(self.0);
            lemma_members_len(self.0 as nat, 16);
        }
        self.0.count_ones() as usize
    }

    /// Returns `true` if the bit at `index` is set.
    #[verifier::when_used_as_spec(spec_contains)]
    pub fn contains(self, index: usize) -> (r: bool)
        ensures
            r == self.spec_contains(index),
            r == self@.contains(index as nat),
            index >= 16 ==> !r,
    {
        if index < Self::CAPACITY {
            let masked = self.0 & (1u16 << index);
            proof {
                lemma_single(index as u16);
                lemma_algebra(self.0, 1u16 << index);
                lemma_zero(masked);
                assert(members(masked as nat, 16) =~= if self@.contains(index as nat) {
                    set![index as nat]
                } else {
                    Set::<nat>::empty()
                });
                assert(set![index as nat].contains(index as nat));
            }
            masked != 0
        } else {
            false
        }
    }

    /// Gets the bit at `index`.
    ///
    /// If `index >=`[`Self::CAPACITY`], this will simply return `false`.
    pub fn get(self, index: usize) -> (r: bool)
        ensures
            r == self.spec_contains(index),
            r == self@.contains(index as nat),
            index >= 16 ==> !r,
    {
        self.contains(index)
    }

    /// The set without its members from `index` on: what
    /// [`masked_0_to_i`](Self::masked_0_to_i) returns.
    pub open spec fn spec_masked_0_to_i(self, index: usize) -> Self {
        Self::spec_from_bits(self.spec_bits() & ((1u16 << index) - 1) as u16)
    }

    /// The set without its members below `index`: what
    /// [`cleared_0_to_i`](Self::cleared_0_to_i) returns.
    pub open spec fn spec_cleared_0_to_i(self, index: usize) -> Self {
        Self::spec_from_bits(self.spec_bits() & !(((1u16 << index) - 1) as u16))
    }

    /// Returns the index of the least significant bit that is set.
    ///
    /// If no bits are set, this returns [`Self::CAPACITY`].
    pub fn min_index(self) -> (r: usize)
        ensures
            r <= 16,
            (r == 16) == self.spec_is_empty(),
            r == 16 ==> self@ == Set::<nat>::empty(),
            r < 16 ==> is_least(self@, r as nat),
    {
        let r = self.0.trailing_zeros();
        proof {
            lemma_trailing_zeros(self.0);
            lemma_zero(self.0);
            if r == 16 {
                assert(self@ =~= Set::<nat>::empty());
            } else {
                assert(self@.contains(r as nat));
            }
        }
        r as usize
    }

    /// Returns the index of the most significant bit that is set.
    ///
    /// The set must not be empty. For an alternative that takes every set,
    /// see [`max_index_checked`](Self::max_index_checked).
    pub fn max_index(self) -> (r: usize)
        requires
            !self.spec_is_empty(),
        ensures
            r < 16,
            is_greatest(self@, r as nat),
    {
        let z = self.0.leading_zeros();
        proof {
            lemma_leading_zeros(self.0);
            lemma_zero(self.0);
            if z == 16 {
                assert(self@ =~= Set::<nat>::empty());
            }
        }
        Self::CAPACITY - 1 - z as usize
    }

    /// Returns the index of the most significant bit that is set, or [`None`]
    /// if no bits are set.
    pub fn max_index_checked(self) -> (r: Option<usize>)
        ensures
            r is None == self.spec_is_empty(),
            r is None ==> self@ == Set::<nat>::empty(),
            r matches Some(m) ==> m < 16 && is_greatest(self@, m as nat),
    {
        if self.is_empty() {
            None
        } else {
            Some(self.max_index())
        }
    }

    /// Clears the set, removing all values.
    pub fn clear(&mut self)
        ensures
            *final(self) == Self::spec_new(),
            final(self)@ == Set::<nat>::empty(),
    {
        proof {
            lemma_zero(0);
        }
        self.0 = 0;
    }

    /// Creates a copy of this set that only has values less than `index`.
    ///
    /// `index` must be less than [`Self::CAPACITY`].
    #[verifier::when_used_as_spec(spec_masked_0_to_i)]
    pub fn masked_0_to_i(self, index: usize) -> (r: Self)
        requires
            index < 16,
        ensures
            r == self.spec_masked_0_to_i(index),
            forall|j: nat| r@.contains(j) == (self@.contains(j) && j < index),
    {
        let mut set = self;
        set.mask_0_to_i(index);
        set
    }

    /// Removes any bits with indices outside the range `0..index`.
    ///
    /// `index` must be less than [`Self::CAPACITY`].
    pub fn mask_0_to_i(&mut self, index: usize)
        requires
            index < 16,
        ensures
            *final(self) == old(self).spec_masked_0_to_i(index),
            forall|j: nat| final(self)@.contains(j) == (old(self)@.contains(j) && j < index),
    {
        self.clear_i_to_16(index);
    }

    /// Creates a copy of this set that only has bits with indices greater
    /// than or equal to `index`.
    ///
    /// `index` must be less than [`Self::CAPACITY`].
    #[verifier::when_used_as_spec(spec_cleared_0_to_i)]
    pub fn masked_i_to_16(self, index: usize) -> (r: Self)
        requires
            index < 16,
        ensures
            r == self.spec_cleared_0_to_i(index),
            forall|j: nat| r@.contains(j) == (self@.contains(j) && j >= index),
    {
        let mut set = self;
        set.mask_i_to_16(index);
        set
    }

    /// Removes any bits with indices outside the range `index..16`.
    ///
    /// `index` must be less than [`Self::CAPACITY`].
    pub fn mask_i_to_16(&mut self, index: usize)
        requires
            index < 16,
        ensures
            *final(self) == old(self).spec_cleared_0_to_i(index),
            forall|j: nat| final(self)@.contains(j) == (old(self)@.contains(j) && j >= index),
    {
        self.clear_0_to_i(index);
    }

    /// Creates a copy of this set without the bits with indices in the range
    /// `0..index`.
    ///
    /// `index` must be less than [`Self::CAPACITY`].
    #[verifier::when_used_as_spec(spec_cleared_0_to_i)]
    pub fn cleared_0_to_i(self, index: usize) -> (r: Self)
        requires
            index < 16,
        ensures
            r == self.spec_cleared_0_to_i(index),
            forall|j: nat| r@.contains(j) == (self@.contains(j) && j >= index),
    {
        let mut set = self;
        set.clear_0_to_i(index);
        set
    }

    /// Clears bits `0..index`, keeping bits `index..16` as they are.
    ///
    /// `index` must be less than [`Self::CAPACITY`].
    pub fn clear_0_to_i(&mut self, index: usize)
        requires
            index < 16,
        ensures
            *final(self) == old(self).spec_cleared_0_to_i(index),
            forall|j: nat| final(self)@.contains(j) == (old(self)@.contains(j) && j >= index),
    {
        proof {
            lemma_single(index as u16);
        }
        let low: u16 = (1u16 << index) - 1;
        proof {
            lemma_algebra(self.0, low);
        }
        self.0 = self.0 & !low;
    }

    /// Creates a copy of this set without the bits with indices in the range
    /// `index..16`.
    ///
    /// `index` must be less than [`Self::CAPACITY`].
    #[verifier::when_used_as_spec(spec_masked_0_to_i)]
    pub fn cleared_i_to_16(self, index: usize) -> (r: Self)
        requires
            index < 16,
        ensures
            r == self.spec_masked_0_to_i(index),
            forall|j: nat| r@.contains(j) == (self@.contains(j) && j < index),
    {
        let mut set = self;
        set.clear_i_to_16(index);
        set
    }

    /// Clears bits `index..16`, keeping bits `0..index` as they are.
    ///
    /// `index` must be less than [`Self::CAPACITY`].
    pub fn clear_i_to_16(&mut self, index: usize)
        requires
            index < 16,
        ensures
            *final(self) == old(self).spec_masked_0_to_i(index),
            forall|j: nat| final(self)@.contains(j) == (old(self)@.contains(j) && j < index),
    {
        proof {
            lemma_single(index as u16);
        }
        let low: u16 = (1u16 << index) - 1;
        proof {
            lemma_algebra(self.0, low);
        }
        self.0 = self.0 & low;
    }

    /// Sets the bit at `index` to `1`.
    ///
    /// If you would like to know if the insertion succeeded, use
    /// [`insert`](Self::insert) instead.
    pub fn insert_quiet(&mut self, index: usize)
        ensures
            *final(self) == old(self).spec_union(Self::spec_unit(index)),
            index < 16 ==> final(self)@ == old(self)@.insert(index as nat),
            index >= 16 ==> *final(self) == *old(self),
    {
        let unit = Self::unit(index);
        proof {
            if index >= 16 {
                assert(self@.union(unit@) =~= self@);
                self.lemma_bits_round_trip(0);
            }
        }
        *self = self.union(unit);
    }

    /// Sets the bit at `index` to `1`. Returns whether the bit was not
    /// already set.
    ///
    /// If the return value is not needed, use
    /// [`insert_quiet`](Self::insert_quiet) instead.
    pub fn insert(&mut self, index: usize) -> (r: bool)
        ensures
            *final(self) == old(self).spec_union(Self::spec_unit(index)),
            index < 16 ==> final(self)@ == old(self)@.insert(index as nat),
            index >= 16 ==> *final(self) == *old(self),
            r == (*final(self) != *old(self)),
            r == (index < 16 && !old(self)@.contains(index as nat)),
    {
        let old_set = *self;
        self.insert_quiet(index);
        proof {
            if index < 16 && old_set@.contains(index as nat) {
                assert(old_set@.insert(index as nat) =~= old_set@);
            }
        }
        old_set.is_not(*self)
    }

    /// Sets the bit at `index` to `bit`.
    ///
    /// If you would like to know the old value of the bit, use
    /// [`replace`](Self::replace) instead.
    pub fn replace_quiet(&mut self, index: usize, bit: bool)
        ensures
            bit ==> *final(self) == old(self).spec_union(Self::spec_unit(index)),
            !bit ==> *final(self) == old(self).spec_difference(Self::spec_unit(index)),
            index < 16 ==> final(self)@.contains(index as nat) == bit,
            forall|j: nat| j != index ==> final(self)@.contains(j) == old(self)@.contains(j),
            index >= 16 ==> *final(self) == *old(self),
    {
        if bit {
            self.insert_quiet(index)
        } else {
            self.remove_quiet(index)
        }
    }

    /// Sets the bit at `index` to `bit`. Returns whether the set is unchanged
    /// where `bit` is `true`, and whether the set has changed where `bit` is
    /// `false`: in both cases whether the bit was set before, save that an
    /// `index` out of range with `true` leaves the set unchanged and so
    /// returns `true`.
    ///
    /// If the return value is not needed, use
    /// [`replace_quiet`](Self::replace_quiet) instead.
    pub fn replace(&mut self, index: usize, bit: bool) -> (r: bool)
        ensures
            bit ==> *final(self) == old(self).spec_union(Self::spec_unit(index)),
            !bit ==> *final(self) == old(self).spec_difference(Self::spec_unit(index)),
            index < 16 ==> final(self)@.contains(index as nat) == bit,
            forall|j: nat| j != index ==> final(self)@.contains(j) == old(self)@.contains(j),
            index >= 16 ==> *final(self) == *old(self),
            bit ==> r == (*final(self) == *old(self)),
            !bit ==> r == (*final(self) != *old(self)),
            r == (old(self)@.contains(index as nat) || (bit && index >= 16)),
    {
        let old_set = *self;
        if bit {
            self.insert_quiet(index);
            proof {
                if index < 16 && old_set@.contains(index as nat) {
                    assert(old_set@.insert(index as nat) =~= old_set@);
                }
            }
            old_set.is(*self)
        } else {
            self.remove_quiet(index);
            proof {
                if index < 16 && !old_set@.contains(index as nat) {
                    assert(old_set@.remove(index as nat) =~= old_set@);
                }
            }
            old_set.is_not(*self)
        }
    }

    /// Sets the bit at `index` to `0`.
    ///
    /// If you would like to know if the removal succeeded, use
    /// [`remove`](Self::remove) instead.
    pub fn remove_quiet(&mut self, index: usize)
        ensures
            *final(self) == old(self).spec_difference(Self::spec_unit(index)),
            final(self)@ == old(self)@.remove(index as nat),
            index >= 16 ==> *final(self) == *old(self),
    {
        let unit = Self::unit(index);
        proof {
            if index >= 16 {
                assert(self@.difference(unit@) =~= self@);
                self.lemma_bits_round_trip(0);
            }
        }
        *self = self.difference(unit);
    }

    /// Sets the bit at `index` to `0`. Returns whether the bit was set.
    ///
    /// If the return value is not needed, use
    /// [`remove_quiet`](Self::remove_quiet) instead.
    pub fn remove(&mut self, index: usize) -> (r: bool)
        ensures
            *final(self) == old(self).spec_difference(Self::spec_unit(index)),
            final(self)@ == old(self)@.remove(index as nat),
            index >= 16 ==> *final(self) == *old(self),
            r == (*final(self) != *old(self)),
            r == old(self)@.contains(index as nat),
            !final(self)@.contains(index as nat),
    {
        let old_set = *self;
        self.remove_quiet(index);
        proof {
            if !old_set@.contains(index as nat) {
                assert(old_set@.remove(index as nat) =~= old_set@);
            }
        }
        old_set.is_not(*self)
    }

    /// Creates an iterator over the indices of the bits that are set in the
    /// set.
    pub fn iter_indices<D: Direction>(&self) -> (r: BitSetIndices16<'_, D>)
        ensures
            r.remaining() == if D::ascending() {
                self.ascending_indices()
            } else {
                self.descending_indices()
            },
    {
        BitSetIndices16::new(self)
    }

    /// Creates an iterator over the bits of the set.
    pub fn iter_bits<D: Direction>(&self) -> (r: BitSetIter16<'_, D>)
        ensures
            r.remaining() == if D::ascending() {
                self.ascending_bits()
            } else {
                self.descending_bits()
            },
    {
        BitSetIter16::new(self)
    }

    /// Renders the set as the set of its indices in ascending order, the
    /// way `{:?}` renders a set: `{1, 2, 5}`. Where `pretty` is set, the
    /// rendering is that of `{:#?}`, one index to a line.
    pub fn debug_string(&self, pretty: bool) -> (r: String)
        ensures
            r@ == rendered(self.index_list(), pretty),
    {
        let mut indices: Vec<usize> = Vec::new();
        let mut iterator = self.iter_indices::<Ascending>();
        let mut more = true;
        while more
            invariant
                indices@.len() <= self.ascending_indices().len(),
                forall|i: int|
                    0 <= i < indices@.len() ==> indices@[i] == self.ascending_indices()[i],
                iterator.remaining() == self.ascending_indices().skip(indices@.len() as int),
                !more ==> iterator.remaining().len() == 0,
            decreases
                    iterator.remaining().len() + if more {
                        1nat
                    } else {
                        0nat
                    },
        {
            proof {
                Self::lemma_index_orders(*self);
            }
            match iterator.next() {
                Some(index) => {
                    indices.push(index);
                },
                None => {
                    more = false;
                },
            }
        }
        assert(indices@ =~= self.index_list());
        render(&indices, pretty)
    }
}

/// An iterator over the indices of the bits that are set in a [`BitSet16`].
pub struct BitSetIndices16<'a, D: Direction = Ascending> {
    bits: u16,
    shift: u16,
    _markers: (core::marker::PhantomData<&'a ()>, core::marker::PhantomData<D>),
}

impl<'a, D: Direction> BitSetIndices16<'a, D> {
    /// The part of the bits that is still to be scanned holds no one beyond
    /// the positions that are left.
    #[verifier::type_invariant]
    spec fn inv(&self) -> bool {
        &&& self.shift <= 16
        &&& D::ascending() ==> forall|j: nat|
            j < 16 && 16 <= j + self.shift ==> !#[trigger] bit(self.bits as nat, j)
        &&& !D::ascending() ==> forall|j: nat|
            j < self.shift ==> !#[trigger] bit(self.bits as nat, j)
    }

    /// The members that the bits still to be scanned stand for.
    spec fn pending(&self) -> Set<nat> {
        if D::ascending() {
            Set::new(|k: nat| self.shift <= k < 16 && bit(self.bits as nat, (k - self.shift) as nat))
        } else {
            Set::new(|k: nat| k + self.shift < 16 && bit(self.bits as nat, (k + self.shift) as nat))
        }
    }

    /// The indices that are still to come, in the order in which `next`
    /// yields them.
    pub closed spec fn remaining(&self) -> Seq<nat> {
        if D::ascending() {
            ascending(self.pending(), self.shift as nat, 16)
        } else {
            descending(self.pending(), 0, (16 - self.shift) as nat)
        }
    }

    /// Creates an iterator over the indices of the bits that are set in
    /// `set`.
    pub fn new(set: &'a BitSet16) -> (r: Self)
        ensures
            r.remaining() == if D::ascending() {
                set.ascending_indices()
            } else {
                set.descending_indices()
            },
    {
        let r = Self {
            bits: set.bits(),
            shift: 0,
            _markers: (core::marker::PhantomData, core::marker::PhantomData),
        };
        proof {
            lemma_ascending_same(r.pending(), set@, 0, 16);
            lemma_descending_same(r.pending(), set@, 0, 16);
        }
        r
    }
}

impl<'a> BitSetIndices16<'a, Ascending> {
    /// Yields the smallest index that is still to come, or `None` once all
    /// have been yielded.
    pub fn next(&mut self) -> (r: Option<usize>)
        ensures
            match r {
                Some(index) => old(self).remaining().len() > 0 && index == old(self).remaining()[0]
                    && final(self).remaining() == old(self).remaining().drop_first(),
                None => old(self).remaining().len() == 0 && final(self).remaining().len() == 0,
            },
    {
        let i = self.bits.trailing_zeros();
        let ghost s = self.pending();
        proof {
            use_type_invariant(&*self);
            lemma_trailing_zeros(self.bits);
        }
        if i < 16 {
            let index = self.shift as usize + i as usize;
            proof {
                lemma_ascending_skip(s, self.shift as nat, index as nat, 16);
                lemma_shifted(self.bits, i as u16);
                lemma_shifted(self.bits >> (i as u16), 1);
            }
            self.bits = (self.bits >> (i as u16)) >> 1;
            self.shift = self.shift + (i as u16) + 1;
            proof {
                lemma_ascending_same(s, self.pending(), self.shift as nat, 16);
            }
            Some(index)
        } else {
            proof {
                lemma_ascending_skip(s, self.shift as nat, 16, 16);
            }
            None
        }
    }
}

impl<'a> BitSetIndices16<'a, Descending> {
    /// Yields the largest index that is still to come, or `None` once all
    /// have been yielded.
    pub fn next(&mut self) -> (r: Option<usize>)
        ensures
            match r {
                Some(index) => old(self).remaining().len() > 0 && index == old(self).remaining()[0]
                    && final(self).remaining() == old(self).remaining().drop_first(),
                None => old(self).remaining().len() == 0 && final(self).remaining().len() == 0,
            },
    {
        let z = self.bits.leading_zeros();
        let ghost s = self.pending();
        proof {
            use_type_invariant(&*self);
            lemma_leading_zeros(self.bits);
        }
        if z == 16 {
            proof {
                lemma_descending_skip(s, 0, 0, (16 - self.shift) as nat);
            }
            return None;
        }
        let ghost top = (16 - self.shift) as nat;
        proof {
            assert(z + self.shift < 16);
            lemma_descending_skip(s, 0, (top - z) as nat, top);
            lemma_shifted(self.bits, z as u16);
            lemma_shifted(self.bits << (z as u16), 1);
        }
        self.bits = (self.bits << (z as u16)) << 1;
        self.shift = self.shift + (z as u16) + 1;
        let index = BitSet16::CAPACITY - self.shift as usize;
        proof {
            lemma_descending_same(s, self.pending(), 0, index as nat);
        }
        Some(index)
    }
}

/// An iterator over the bits of a [`BitSet16`].
pub struct BitSetIter16<'a, D: Direction = Ascending> {
    bits: u16,
    i: u16,
    _markers: (core::marker::PhantomData<&'a ()>, core::marker::PhantomData<D>),
}

impl<'a, D: Direction> BitSetIter16<'a, D> {
    #[verifier::type_invariant]
    spec fn inv(&self) -> bool {
        self.i <= 16
    }

    /// The booleans that are still to come, in the order in which `next`
    /// yields them.
    pub closed spec fn remaining(&self) -> Seq<bool> {
        if D::ascending() {
            Seq::new((16 - self.i) as nat, |j: int| bit(self.bits as nat, j as nat))
        } else {
            Seq::new((16 - self.i) as nat, |j: int| bit(self.bits as nat, (15 - j) as nat))
        }
    }

    /// Creates an iterator over the bits of `set`.
    pub fn new(set: &'a BitSet16) -> (r: Self)
        ensures
            r.remaining() == if D::ascending() {
                set.ascending_bits()
            } else {
                set.descending_bits()
            },
    {
        let r = Self {
            bits: set.bits(),
            i: 0,
            _markers: (core::marker::PhantomData, core::marker::PhantomData),
        };
        proof {
            assert(r.remaining() =~= if D::ascending() {
                set.ascending_bits()
            } else {
                set.descending_bits()
            });
        }
        r
    }
}

impl<'a> BitSetIter16<'a, Ascending> {
    /// Yields the boolean of the lowest position that is still to come, or
    /// `None` once all have been yielded.
    pub fn next(&mut self) -> (r: Option<bool>)
        ensures
            match r {
                Some(b) => old(self).remaining().len() > 0 && b == old(self).remaining()[0]
                    && final(self).remaining() == old(self).remaining().drop_first(),
                None => old(self).remaining().len() == 0 && final(self).remaining().len() == 0,
            },
    {
        proof {
            use_type_invariant(&*self);
        }
        if self.i < 16 {
            proof {
                lemma_bit(self.bits, 0);
                lemma_low_bit(self.bits);
                lemma_shifted(self.bits, 1);
            }
            self.i = self.i + 1;
            let b = self.bits & 1 != 0;
            self.bits = self.bits >> 1;
            Some(b)
        } else {
            None
        }
    }
}

impl<'a> BitSetIter16<'a, Descending> {
    /// Yields the boolean of the highest position that is still to come, or
    /// `None` once all have been yielded.
    pub fn next(&mut self) -> (r: Option<bool>)
        ensures
            match r {
                Some(b) => old(self).remaining().len() > 0 && b == old(self).remaining()[0]
                    && final(self).remaining() == old(self).remaining().drop_first(),
                None => old(self).remaining().len() == 0 && final(self).remaining().len() == 0,
            },
    {
        proof {
            use_type_invariant(&*self);
        }
        if self.i < 16 {
            proof {
                lemma_top_bit(self.bits);
                lemma_shifted(self.bits, 1);
            }
            self.i = self.i + 1;
            let b = self.bits & TOP_BIT != 0;
            self.bits = self.bits << 1;
            Some(b)
        } else {
            None
        }
    }
}

impl BitSet16 {
    /// A set united or intersected with itself is that set; its difference
    /// and its symmetric difference with itself are empty.
    pub proof fn lemma_with_itself(a: Self)
        ensures
            a.union(a) == a,
            a.intersection(a) == a,
            a.symmetric_difference(a).is_empty(),
            a.difference(a).is_empty(),
    {
        lemma_identities(a.0, a.0, a.0);
    }

    /// Intersection and union are commutative and associative.
    pub proof fn lemma_commutative_associative(a: Self, b: Self, c: Self)
        ensures
            a.intersection(b) == b.intersection(a),
            a.union(b) == b.union(a),
            a.intersection(b).intersection(c) == a.intersection(b.intersection(c)),
            a.union(b).union(c) == a.union(b.union(c)),
    {
        lemma_identities(a.0, b.0, c.0);
    }

    /// Difference is commutative on no two sets but equal ones.
    pub proof fn lemma_difference_commutes_only_when_equal(a: Self, b: Self)
        ensures
            (a.difference(b) == b.difference(a)) == (a == b),
    {
        lemma_identities(a.0, b.0, 0);
    }

    /// The complement of the complement is the set itself; the empty and the
    /// full set are each other's complement.
    pub proof fn lemma_complement(a: Self)
        ensures
            a.complement().complement() == a,
            Self::new().complement() == Self::all(),
            Self::all().complement() == Self::new(),
    {
        lemma_identities(a.0, 0, 0);
        lemma_not_constants();
    }

    /// A set is a subset of another exactly if their union is the other, and
    /// exactly if their intersection is the first.
    pub proof fn lemma_subset(a: Self, b: Self)
        ensures
            a.is_subset(b) == (a.union(b) == b),
            a.is_subset(b) == (a.intersection(b) == a),
            a.is_subset(b) == a@.subset_of(b@),
    {
        lemma_identities(a.0, b.0, 0);
        lemma_algebra(a.0, b.0);
        if a@.subset_of(b@) {
            assert(members((a.0 | b.0) as nat, 16) =~= b@);
            lemma_same_members(a.0 | b.0, b.0);
        }
    }

    /// A set is disjoint from its complement, and from itself only if it is
    /// empty.
    pub proof fn lemma_disjoint(a: Self)
        ensures
            a.is_disjoint(a.complement()),
            a.is_disjoint(a) == a.is_empty(),
    {
        lemma_identities(a.0, 0, 0);
    }

    /// A set and its complement have `CAPACITY` members together.
    pub proof fn lemma_len_complement(a: Self)
        ensures
            a.len() + a.complement().len() == Self::CAPACITY,
    {
        lemma_algebra(a.0, a.0);
        assert(a.complement()@ =~= universe(16).difference(a@));
        lemma_complement_len(a@, 16);
    }

    /// The indices in ascending order increase strictly; in descending order
    /// they are the same sequence reversed; each order holds every member
    /// once, so it is as long as the set is large.
    pub proof fn lemma_index_orders(a: Self)
        ensures
            strictly_increasing(a.ascending_indices()),
            a.descending_indices() == a.ascending_indices().reverse(),
            a.ascending_indices().to_set() == a@,
            a.descending_indices().to_set() == a@,
            a.ascending_indices().len() == a.len(),
            a.descending_indices().len() == a.len(),
            forall|i: int| 0 <= i < a.ascending_indices().len() ==> a.ascending_indices()[i] < 16,
    {
        let up = a.ascending_indices();
        lemma_fits(a.0);
        lemma_members_len(a.0 as nat, 16);
        lemma_ascending_contents(a@, 0, 16);
        lemma_ascending_len(a@, 16);
        lemma_descending_is_reverse(a@, 0, 16);
        assert(up.reverse().to_set() =~= up.to_set()) by {
            assert forall|x: nat| up.reverse().contains(x) == up.contains(x) by {
                if up.contains(x) {
                    let i = choose|i: int| 0 <= i < up.len() && up[i] == x;
                    assert(up.reverse()[up.len() - 1 - i] == x);
                }
                if up.reverse().contains(x) {
                    let i = choose|i: int| 0 <= i < up.reverse().len() && up.reverse()[i] == x;
                    assert(up[up.len() - 1 - i] == x);
                }
            }
        }
        assert forall|i: int| 0 <= i < up.len() implies up[i] < 16 by {
            assert(up.contains(up[i]));
        }
    }

    /// Either order of bits holds `CAPACITY` booleans; the boolean at
    /// ascending position `i` says whether `i` is a member; the descending
    /// order is the ascending one reversed.
    pub proof fn lemma_bit_orders(a: Self)
        ensures
            a.ascending_bits().len() == Self::CAPACITY,
            a.descending_bits().len() == Self::CAPACITY,
            forall|i: usize| i < Self::CAPACITY ==> a.ascending_bits()[i as int] == a.contains(i),
            a.descending_bits() == a.ascending_bits().reverse(),
    {
    }
}

impl core::ops::BitAnd for BitSet16 {
    type Output = Self;

    /// The intersection of the two sets.
    fn bitand(self, rhs: Self) -> (r: Self)
        ensures
            r@ == self.spec_intersection(rhs)@,
    {
        self.intersection(rhs)
    }
}

impl vstd::std_specs::ops::BitAndSpecImpl for BitSet16 {
    open spec fn obeys_bitand_spec() -> bool {
        true
    }

    open spec fn bitand_req(self, rhs: Self) -> bool {
        true
    }

    open spec fn bitand_spec(self, rhs: Self) -> Self {
        self.spec_intersection(rhs)
    }
}

impl core::ops::BitAndAssign for BitSet16 {
    /// Replaces `self` by what `bitand` gives.
    fn bitand_assign(&mut self, rhs: Self)
        ensures
            *final(self) == old(self).spec_intersection(rhs),
    {
        *self = self.intersection(rhs);
    }
}

impl core::ops::BitOr for BitSet16 {
    type Output = Self;

    /// The union of the two sets.
    fn bitor(self, rhs: Self) -> (r: Self)
        ensures
            r@ == self.spec_union(rhs)@,
    {
        self.union(rhs)
    }
}

impl vstd::std_specs::ops::BitOrSpecImpl for BitSet16 {
    open spec fn obeys_bitor_spec() -> bool {
        true
    }

    open spec fn bitor_req(self, rhs: Self) -> bool {
        true
    }

    open spec fn bitor_spec(self, rhs: Self) -> Self {
        self.spec_union(rhs)
    }
}

impl core::ops::BitOrAssign for BitSet16 {
    /// Replaces `self` by what `bitor` gives.
    fn bitor_assign(&mut self, rhs: Self)
        ensures
            *final(self) == old(self).spec_union(rhs),
    {
        *self = self.union(rhs);
    }
}

impl core::ops::BitXor for BitSet16 {
    type Output = Self;

    /// The symmetric difference of the two sets.
    fn bitxor(self, rhs: Self) -> (r: Self)
        ensures
            r@ == self.spec_symmetric_difference(rhs)@,
    {
        self.symmetric_difference(rhs)
    }
}

impl vstd::std_specs::ops::BitXorSpecImpl for BitSet16 {
    open spec fn obeys_bitxor_spec() -> bool {
        true
    }

    open spec fn bitxor_req(self, rhs: Self) -> bool {
        true
    }

    open spec fn bitxor_spec(self, rhs: Self) -> Self {
        self.spec_symmetric_difference(rhs)
    }
}

impl core::ops::BitXorAssign for BitSet16 {
    /// Replaces `self` by what `bitxor` gives.
    fn bitxor_assign(&mut self, rhs: Self)
        ensures
            *final(self) == old(self).spec_symmetric_difference(rhs),
    {
        *self = self.symmetric_difference(rhs);
    }
}

impl core::ops::Sub for BitSet16 {
    type Output = Self;

    /// The members of `self` that `rhs` lacks.
    fn sub(self, rhs: Self) -> (r: Self)
        ensures
            r@ == self.spec_difference(rhs)@,
    {
        self.difference(rhs)
    }
}

impl vstd::std_specs::ops::SubSpecImpl for BitSet16 {
    open spec fn obeys_sub_spec() -> bool {
        true
    }

    open spec fn sub_req(self, rhs: Self) -> bool {
        true
    }

    open spec fn sub_spec(self, rhs: Self) -> Self {
        self.spec_difference(rhs)
    }
}

impl core::ops::SubAssign for BitSet16 {
    /// Replaces `self` by what `sub` gives.
    fn sub_assign(&mut self, rhs: Self)
        ensures
            *final(self) == old(self).spec_difference(rhs),
    {
        *self = self.difference(rhs);
    }
}

impl core::ops::Neg for BitSet16 {
    type Output = Self;

    /// The complement of the set.
    fn neg(self) -> (r: Self)
        ensures
            r@ == self.spec_complement()@,
    {
        self.complement()
    }
}

impl vstd::std_specs::ops::NegSpecImpl for BitSet16 {
    open spec fn obeys_neg_spec() -> bool {
        true
    }

    open spec fn neg_req(self) -> bool {
        true
    }

    open spec fn neg_spec(self) -> Self {
        self.spec_complement()
    }
}

impl core::ops::Not for BitSet16 {
    type Output = Self;

    /// The complement of the set.
    fn not(self) -> (r: Self)
        ensures
            r@ == self.spec_complement()@,
    {
        self.complement()
    }
}

impl vstd::std_specs::ops::NotSpecImpl for BitSet16 {
    open spec fn obeys_not_spec() -> bool {
        true
    }

    open spec fn not_req(self) -> bool {
        true
    }

    open spec fn not_spec(self) -> Self {
        self.spec_complement()
    }
}

impl core::convert::From<u16> for BitSet16 {
    /// The set with the given bits.
    fn from(value: u16) -> (r: Self)
        ensures
            r.spec_bits() == value,
    {
        Self::from_bits(value)
    }
}

impl vstd::std_specs::convert::FromSpecImpl<u16> for BitSet16 {
    open spec fn obeys_from_spec() -> bool {
        true
    }

    open spec fn from_spec(value: u16) -> Self {
        Self::spec_from_bits(value)
    }
}

impl core::convert::From<BitSet16> for u16 {
    /// The bits of the set.
    fn from(value: BitSet16) -> (r: u16)
        ensures
            BitSet16::spec_from_bits(r) == value,
    {
        value.bits()
    }
}

impl vstd::std_specs::convert::FromSpecImpl<BitSet16> for u16 {
    open spec fn obeys_from_spec() -> bool {
        true
    }

    open spec fn from_spec(value: BitSet16) -> u16 {
        value.spec_bits()
    }
}

} // verus!
