//! Sets of 128 bits, and the iterators over them.

use crate::bits::{
    bit, lemma_all_ones, lemma_bits_bounded, lemma_bits_determine, lemma_complement_len,
    lemma_members_len, members, universe,
};
use crate::order::{
    ascending, descending, is_greatest, is_least, lemma_ascending_contents, lemma_ascending_len,
    lemma_ascending_same, lemma_ascending_skip, lemma_descending_is_reverse,
    lemma_descending_same, lemma_descending_skip, strictly_increasing,
};
use crate::render::{render, rendered};
use crate::{Ascending, Descending, Direction};
use vstd::arithmetic::power2::{lemma2_to64, lemma_pow2_adds, pow2};
use vstd::bits::lemma_u128_shr_is_div;
use vstd::prelude::*;

verus! {

/// The bit tested by the descending iterator over bits: the highest one.
const TOP_BIT: u128 = 0x8000_0000_0000_0000_0000_0000_0000_0000;

/// Every pattern is a number below two to the capacity, and the greatest
/// is the number just below.
proof fn lemma_fits(a: u128)
    ensures
        (a as nat) < pow2(128),
        u128::MAX == pow2(128) - 1,
{
    lemma2_to64();
    lemma_pow2_adds(64, 64);
    assert(pow2(128) == 0x1_0000_0000_0000_0000_0000_0000_0000_0000) by (nonlinear_arith)
        requires
            pow2(128) == pow2(64) * pow2(64),
            pow2(64) == 0x1_0000_0000_0000_0000,
    ;
}

/// The lowest bit tells whether a pattern is odd.
proof fn lemma_low_bit(x: u128)
    by (bit_vector)
    ensures
        (x & 1 == 1) == (x % 2 == 1),
        (x & 1 != 0) == (x & 1 == 1),
        x >> 0u128 == x,
{
}

/// Shifting and masking reads the digit that `bit` speaks of.
proof fn lemma_bit(a: u128, i: u128)
    requires
        i < 128,
    ensures
        bit(a as nat, i as nat) == ((a >> i) & 1 == 1),
{
    lemma_u128_shr_is_div(a, i);
    lemma_low_bit(a >> i);
}

/// The bitwise operators work on each bit by itself.
proof fn lemma_ops(a: u128, b: u128, i: u128)
    by (bit_vector)
    requires
        i < 128,
    ensures
        (((a | b) >> i) & 1 == 1) == (((a >> i) & 1 == 1) || ((b >> i) & 1 == 1)),
        (((a & b) >> i) & 1 == 1) == (((a >> i) & 1 == 1) && ((b >> i) & 1 == 1)),
        (((a ^ b) >> i) & 1 == 1) == (((a >> i) & 1 == 1) != ((b >> i) & 1 == 1)),
        (((a & !b) >> i) & 1 == 1) == (((a >> i) & 1 == 1) && !((b >> i) & 1 == 1)),
        (((!a) >> i) & 1 == 1) == !((a >> i) & 1 == 1),
{
}

/// The bits of a one shifted up, of the run of ones below it, and the bit
/// that the top mask picks.
proof fn lemma_masks(a: u128, i: u128, j: u128)
    by (bit_vector)
    requires
        i < 128,
        j < 128,
    ensures
        (((1u128 << i) >> j) & 1 == 1) == (i == j),
        (1u128 << i) >= 1,
        (((((1u128 << i) - 1) as u128) >> j) & 1 == 1) == (j < i),
        ((a & TOP_BIT) != 0) == ((a >> 127) & 1 == 1),
{
}

/// A shift moves each bit by the shift amount and fills with zeros.
proof fn lemma_shifts(a: u128, k: u128, j: u128)
    by (bit_vector)
    requires
        k < 128,
        j < 128,
    ensures
        (((a >> k) >> j) & 1 == 1) == (j + k < 128 && (a >> ((j + k) as u128)) & 1 == 1),
        (((a << k) >> j) & 1 == 1) == (j >= k && (a >> ((j - k) as u128)) & 1 == 1),
{
}

/// The identities of the bitwise operators that the laws of the set algebra
/// rest on.
proof fn lemma_identities(a: u128, b: u128, c: u128)
    by (bit_vector)
    ensures
        a | a == a,
        a & a == a,
        a ^ a == 0,
        a & !a == 0,
        a & b == b & a,
        a | b == b | a,
        (a & b) & c == a & (b & c),
        (a | b) | c == a | (b | c),
        !(!a) == a,
        (a | b == b) == (a & b == a),
        (a & !b == b & !a) == (a == b),
{
}

/// What the bitwise operators do to the digit at `i`.
proof fn lemma_digit(a: u128, b: u128, i: nat)
    requires
        i < 128,
    ensures
        bit((a | b) as nat, i) == (bit(a as nat, i) || bit(b as nat, i)),
        bit((a & b) as nat, i) == (bit(a as nat, i) && bit(b as nat, i)),
        bit((a ^ b) as nat, i) == (bit(a as nat, i) != bit(b as nat, i)),
        bit((a & !b) as nat, i) == (bit(a as nat, i) && !bit(b as nat, i)),
        bit((!a) as nat, i) == !bit(a as nat, i),
{
    lemma_ops(a, b, i as u128);
    lemma_bit(a, i as u128);
    lemma_bit(b, i as u128);
    lemma_bit(a | b, i as u128);
    lemma_bit(a & b, i as u128);
    lemma_bit(a ^ b, i as u128);
    lemma_bit(a & !b, i as u128);
    lemma_bit(!a, i as u128);
}

/// What the bitwise operators do to each digit.
proof fn lemma_algebra(a: u128, b: u128)
    ensures
        forall|i: nat|
            i < 128 ==> #[trigger] bit((a | b) as nat, i) == (bit(a as nat, i) || bit(b as nat, i)),
        forall|i: nat|
            i < 128 ==> #[trigger] bit((a & b) as nat, i) == (bit(a as nat, i) && bit(b as nat, i)),
        forall|i: nat|
            i < 128 ==> #[trigger] bit((a ^ b) as nat, i) == (bit(a as nat, i) != bit(b as nat, i)),
        forall|i: nat|
            i < 128 ==> #[trigger] bit((a & !b) as nat, i) == (bit(a as nat, i) && !bit(
                b as nat,
                i,
            )),
        forall|i: nat| i < 128 ==> #[trigger] bit((!a) as nat, i) == !bit(a as nat, i),
{
    assert forall|i: nat| i < 128 implies #[trigger] bit((a | b) as nat, i) == (bit(a as nat, i)
        || bit(b as nat, i)) by {
        lemma_digit(a, b, i);
    }
    assert forall|i: nat| i < 128 implies #[trigger] bit((a & b) as nat, i) == (bit(a as nat, i)
        && bit(b as nat, i)) by {
        lemma_digit(a, b, i);
    }
    assert forall|i: nat| i < 128 implies #[trigger] bit((a ^ b) as nat, i) == (bit(a as nat, i)
        != bit(b as nat, i)) by {
        lemma_digit(a, b, i);
    }
    assert forall|i: nat| i < 128 implies #[trigger] bit((a & !b) as nat, i) == (bit(a as nat, i)
        && !bit(b as nat, i)) by {
        lemma_digit(a, b, i);
    }
    assert forall|i: nat| i < 128 implies #[trigger] bit((!a) as nat, i) == !bit(a as nat, i) by {
        lemma_digit(a, b, i);
    }
}

/// The digits of the empty and of the full pattern.
proof fn lemma_constants()
    ensures
        forall|i: nat| !#[trigger] bit(0, i),
        forall|i: nat| i < 128 ==> #[trigger] bit(u128::MAX as nat, i),
{
    lemma2_to64();
    lemma_bits_bounded(0, 0);
    lemma_fits(0);
    lemma_all_ones(128);
    let full = (pow2(128) - 1) as nat;
    assert forall|i: nat| i < 128 implies #[trigger] bit(u128::MAX as nat, i) by {
        assert(bit(full, i));
    }
}

/// The complements of the empty and of the full pattern are each other.
proof fn lemma_not_constants()
    ensures
        !0u128 == u128::MAX,
        !u128::MAX == 0u128,
{
    lemma_constants();
    lemma_algebra(0, 0);
    lemma_algebra(u128::MAX, 0);
    assert(members((!0u128) as nat, 128) =~= members(u128::MAX as nat, 128));
    lemma_same_members(!0u128, u128::MAX);
    assert(members((!u128::MAX) as nat, 128) =~= members(0u128 as nat, 128));
    lemma_same_members(!u128::MAX, 0u128);
}

/// The digits of a single bit, and of the run of bits below it.
proof fn lemma_single(i: u128)
    requires
        i < 128,
    ensures
        1u128 << i >= 1,
        forall|j: nat| j < 128 ==> #[trigger] bit((1u128 << i) as nat, j) == (i == j),
        forall|j: nat|
            j < 128 ==> #[trigger] bit((((1u128 << i) - 1) as u128) as nat, j) == (j < i),
{
    lemma_masks(0, i, 0);
    assert forall|j: nat| j < 128 implies #[trigger] bit((1u128 << i) as nat, j) == (i == j) by {
        lemma_masks(0, i, j as u128);
        lemma_bit(1u128 << i, j as u128);
    }
    assert forall|j: nat| j < 128 implies #[trigger] bit((((1u128 << i) - 1) as u128) as nat, j) == (j
        < i) by {
        lemma_masks(0, i, j as u128);
        lemma_bit(((1u128 << i) - 1) as u128, j as u128);
    }
}

/// What shifting by `k` does to each digit.
proof fn lemma_shifted(a: u128, k: u128)
    requires
        k < 128,
    ensures
        forall|j: nat|
            j < 128 ==> #[trigger] bit((a >> k) as nat, j) == (j + k < 128 && bit(
                a as nat,
                (j + k) as nat,
            )),
        forall|j: nat|
            j < 128 ==> #[trigger] bit((a << k) as nat, j) == (j >= k && bit(
                a as nat,
                (j - k) as nat,
            )),
{
    assert forall|j: nat| j < 128 implies #[trigger] bit((a >> k) as nat, j) == (j + k < 128 && bit(
        a as nat,
        (j + k) as nat,
    )) by {
        lemma_shifts(a, k, j as u128);
        lemma_bit(a >> k, j as u128);
        if j + k < 128 {
            lemma_bit(a, (j + k) as u128);
        }
    }
    assert forall|j: nat| j < 128 implies #[trigger] bit((a << k) as nat, j) == (j >= k && bit(
        a as nat,
        (j - k) as nat,
    )) by {
        lemma_shifts(a, k, j as u128);
        lemma_bit(a << k, j as u128);
        if j >= k {
            lemma_bit(a, (j - k) as u128);
        }
    }
}

/// Masking with the top bit reads the digit at the highest position.
proof fn lemma_top_bit(a: u128)
    ensures
        ((a & TOP_BIT) != 0) == bit(a as nat, 127),
{
    lemma_masks(a, 0, 0);
    lemma_bit(a, 127);
}

/// Two integers with the same members are the same integer.
proof fn lemma_same_members(a: u128, b: u128)
    requires
        members(a as nat, 128) == members(b as nat, 128),
    ensures
        a == b,
{
    lemma_fits(a);
    lemma_fits(b);
    assert forall|i: nat| i < 128 implies #[trigger] bit(a as nat, i) == bit(b as nat, i) by {
        assert(members(a as nat, 128).contains(i) == bit(a as nat, i));
        assert(members(b as nat, 128).contains(i) == bit(b as nat, i));
    }
    lemma_bits_determine(a as nat, b as nat, 128);
}

/// Only the pattern without a one has no member.
proof fn lemma_zero(a: u128)
    ensures
        (a == 0) == (members(a as nat, 128) == Set::<nat>::empty()),
{
    lemma_constants();
    assert(members(0, 128) =~= Set::<nat>::empty());
    if members(a as nat, 128) == Set::<nat>::empty() {
        lemma_same_members(a, 0);
    }
}

/// A set of 128 bits.
#[derive(Clone, Copy, PartialEq, Eq, Hash, Structural)]
pub struct BitSet128(u128);

impl View for BitSet128 {
    type V = Set<nat>;

    /// The members of the set: the positions of the ones in its bits.
    open spec fn view(&self) -> Set<nat> {
        members(self.spec_bits() as nat, 128)
    }
}

impl Default for BitSet128 {
    /// The empty set.
    fn default() -> (r: Self)
        ensures
            r == Self::spec_new(),
    {
        Self::new()
    }
}

impl BitSet128 {
    /// The capacity of a [`BitSet128`].
    pub const CAPACITY: usize = 128;

    /// The bits of the set: bit `i` is one exactly if `i` is a member.
    pub closed spec fn spec_bits(self) -> u128 {
        self.0
    }

    /// The set with the given bits.
    pub closed spec fn spec_from_bits(bits: u128) -> Self {
        BitSet128(bits)
    }

    /// What [`new`](Self::new) returns.
    pub open spec fn spec_new() -> Self {
        Self::spec_from_bits(0)
    }

    /// What [`all`](Self::all) returns.
    pub open spec fn spec_all() -> Self {
        Self::spec_from_bits(u128::MAX)
    }

    /// What [`unit`](Self::unit) returns.
    pub open spec fn spec_unit(index: usize) -> Self {
        if index < 128 {
            Self::spec_from_bits(1u128 << index)
        } else {
            Self::spec_new()
        }
    }

    /// What [`complement`](Self::complement) returns.
    pub open spec fn spec_complement(self) -> Self {
        Self::spec_from_bits(!self.spec_bits())
    }

    /// What [`intersection`](Self::intersection) returns.
    pub open spec fn spec_intersection(self, rhs: Self) -> Self {
        Self::spec_from_bits(self.spec_bits() & rhs.spec_bits())
    }

    /// What [`union`](Self::union) returns.
    pub open spec fn spec_union(self, rhs: Self) -> Self {
        Self::spec_from_bits(self.spec_bits() | rhs.spec_bits())
    }

    /// What [`difference`](Self::difference) returns.
    pub open spec fn spec_difference(self, rhs: Self) -> Self {
        Self::spec_from_bits(self.spec_bits() & !rhs.spec_bits())
    }

    /// What [`symmetric_difference`](Self::symmetric_difference) returns.
    pub open spec fn spec_symmetric_difference(self, rhs: Self) -> Self {
        Self::spec_from_bits(self.spec_bits() ^ rhs.spec_bits())
    }

    /// What [`is`](Self::is) returns.
    pub open spec fn spec_is(self, rhs: Self) -> bool {
        self == rhs
    }

    /// What [`is_not`](Self::is_not) returns.
    pub open spec fn spec_is_not(self, rhs: Self) -> bool {
        self != rhs
    }

    /// What [`is_disjoint`](Self::is_disjoint) returns.
    pub open spec fn spec_is_disjoint(self, rhs: Self) -> bool {
        self.spec_intersection(rhs).spec_is_empty()
    }

    /// What [`is_subset`](Self::is_subset) returns.
    pub open spec fn spec_is_subset(self, rhs: Self) -> bool {
        self.spec_union(rhs) == rhs
    }

    /// What [`is_strict_subset`](Self::is_strict_subset) returns.
    pub open spec fn spec_is_strict_subset(self, rhs: Self) -> bool {
        self.spec_is_subset(rhs) && self != rhs
    }

    /// What [`is_superset`](Self::is_superset) returns.
    pub open spec fn spec_is_superset(self, rhs: Self) -> bool {
        rhs.spec_is_subset(self)
    }

    /// What [`is_strict_superset`](Self::is_strict_superset) returns.
    pub open spec fn spec_is_strict_superset(self, rhs: Self) -> bool {
        self.spec_is_superset(rhs) && self != rhs
    }

    /// What [`is_empty`](Self::is_empty) returns.
    pub open spec fn spec_is_empty(self) -> bool {
        self == Self::spec_new()
    }

    /// What [`is_full`](Self::is_full) returns.
    pub open spec fn spec_is_full(self) -> bool {
        self == Self::spec_all()
    }

    /// What [`len`](Self::len) returns.
    pub open spec fn spec_len(self) -> usize {
        self@.len() as usize
    }

    /// What [`contains`](Self::contains) returns.
    pub open spec fn spec_contains(self, index: usize) -> bool {
        self@.contains(index as nat)
    }

    /// The indices of the members, smallest first.
    pub open spec fn ascending_indices(self) -> Seq<nat> {
        ascending(self@, 0, 128)
    }

    /// The indices of the members, largest first.
    pub open spec fn descending_indices(self) -> Seq<nat> {
        descending(self@, 0, 128)
    }

    /// The indices of the members, smallest first, as machine integers.
    pub open spec fn index_list(self) -> Seq<usize> {
        Seq::new(self.ascending_indices().len(), |i: int| self.ascending_indices()[i] as usize)
    }

    /// One boolean for each position from 0 up: whether it is a member.
    pub open spec fn ascending_bits(self) -> Seq<bool> {
        Seq::new(128, |j: int| self@.contains(j as nat))
    }

    /// One boolean for each position from the highest down: whether it is a
    /// member.
    pub open spec fn descending_bits(self) -> Seq<bool> {
        Seq::new(128, |j: int| self@.contains((127 - j) as nat))
    }

    /// The bits and the set determine each other: `from_bits` and `bits` are
    /// mutually inverse, and sets with the same members are equal.
    pub proof fn lemma_bits_round_trip(self, bits: u128)
        ensures
            Self::spec_from_bits(self.spec_bits()) == self,
            Self::spec_from_bits(bits).spec_bits() == bits,
            forall|other: Self| other.spec_bits() == self.spec_bits() ==> other == self,
            forall|other: Self| other@ == self@ ==> other == self,
            forall|i: nat| self@.contains(i) ==> i < 128,
            self@.finite(),
    {
        assert forall|other: Self| other@ == self@ implies other == self by {
            lemma_same_members(other.0, self.0);
        }
        lemma_fits(self.0);
        lemma_members_len(self.0 as nat, 128);
    }

    /// Creates an empty set.
    #[verifier::when_used_as_spec(spec_new)]
    pub fn new() -> (r: Self)
        ensures
            r == Self::spec_new(),
            r@ == Set::<nat>::empty(),
            r.spec_bits() == 0,
    {
        proof {
            lemma_zero(0);
        }
        Self(0)
    }

    /// Creates a set containing with only the bit at `index` set.
    ///
    /// If `index >=`[`Self::CAPACITY`], the resulting set will be empty.
    #[verifier::when_used_as_spec(spec_unit)]
    pub fn unit(index: usize) -> (r: Self)
        ensures
            r == Self::spec_unit(index),
            index < 128 ==> r@ == set![index as nat] && r.spec_bits() == 1u128 << index,
            index >= 128 ==> r == Self::spec_new() && r@ == Set::<nat>::empty(),
    {
        if index < Self::CAPACITY {
            proof {
                lemma_single(index as u128);
            }
            Self::from_bits(1u128 << index)
        } else {
            Self::new()
        }
    }

    /// Creates a set with all bits set.
    #[verifier::when_used_as_spec(spec_all)]
    pub fn all() -> (r: Self)
        ensures
            r == Self::spec_all(),
            r@ == universe(128),
            r.spec_bits() == u128::MAX,
    {
        proof {
            lemma_constants();
        }
        Self(u128::MAX)
    }

    /// Creates a set with the given bits.
    #[verifier::when_used_as_spec(spec_from_bits)]
    pub fn from_bits(bits: u128) -> (r: Self)
        ensures
            r == Self::spec_from_bits(bits),
            r.spec_bits() == bits,
            r@ == members(bits as nat, 128),
    {
        Self(bits)
    }

    /// Returns the underlying bits of the set.
    #[verifier::when_used_as_spec(spec_bits)]
    pub fn bits(self) -> (r: u128)
        ensures
            r == self.spec_bits(),
            Self::spec_from_bits(r) == self,
    {
        self.0
    }

    /// Creates a new set that complements `self`.
    #[verifier::when_used_as_spec(spec_complement)]
    pub fn complement(self) -> (r: Self)
        ensures
            r == self.spec_complement(),
            r@ == universe(128).difference(self@),
            r.spec_bits() == !self.spec_bits(),
    {
        proof {
            lemma_algebra(self.0, self.0);
        }
        Self(!self.0)
    }

    /// Creates a new set with values that are in both `self` and `rhs`.
    #[verifier::when_used_as_spec(spec_intersection)]
    pub fn intersection(self, rhs: Self) -> (r: Self)
        ensures
            r == self.spec_intersection(rhs),
            r@ == self@.intersect(rhs@),
            r.spec_bits() == self.spec_bits() & rhs.spec_bits(),
    {
        proof {
            lemma_algebra(self.0, rhs.0);
        }
        Self(self.0 & rhs.0)
    }

    /// Creates a new set with values that are in `self` or `rhs`.
    #[verifier::when_used_as_spec(spec_union)]
    pub fn union(self, rhs: Self) -> (r: Self)
        ensures
            r == self.spec_union(rhs),
            r@ == self@.union(rhs@),
            r.spec_bits() == self.spec_bits() | rhs.spec_bits(),
    {
        proof {
            lemma_algebra(self.0, rhs.0);
        }
        Self(self.0 | rhs.0)
    }

    /// Creates a new set with values that are in `self`, but not in `rhs`.
    #[verifier::when_used_as_spec(spec_difference)]
    pub fn difference(self, rhs: Self) -> (r: Self)
        ensures
            r == self.spec_difference(rhs),
            r@ == self@.difference(rhs@),
            r.spec_bits() == self.spec_bits() & !rhs.spec_bits(),
    {
        proof {
            lemma_algebra(self.0, rhs.0);
        }
        Self(self.0 & !rhs.0)
    }

    /// Creates a new set with values that are in `self` or `rhs`, but not in
    /// both.
    #[verifier::when_used_as_spec(spec_symmetric_difference)]
    pub fn symmetric_difference(self, rhs: Self) -> (r: Self)
        ensures
            r == self.spec_symmetric_difference(rhs),
            r@ == self@.difference(rhs@).union(rhs@.difference(self@)),
            r.spec_bits() == self.spec_bits() ^ rhs.spec_bits(),
    {
        proof {
            lemma_algebra(self.0, rhs.0);
            assert(members((self.0 ^ rhs.0) as nat, 128) =~= self@.difference(rhs@).union(
                rhs@.difference(self@),
            ));
        }
        Self(self.0 ^ rhs.0)
    }

    /// Returns `true` if `self` is equal to `rhs`, i.e., both sets have the
    /// same exact values.
    #[verifier::when_used_as_spec(spec_is)]
    pub fn is(self, rhs: Self) -> (r: bool)
        ensures
            r == self.spec_is(rhs),
            r == (self@ == rhs@),
            r == (self.spec_bits() == rhs.spec_bits()),
    {
        proof {
            self.lemma_bits_round_trip(0);
        }
        self.0 == rhs.0
    }

    /// Returns `true` if `self` is not equal to `rhs`, i.e., the sets do not
    /// have exactly the same values.
    #[verifier::when_used_as_spec(spec_is_not)]
    pub fn is_not(self, rhs: Self) -> (r: bool)
        ensures
            r == self.spec_is_not(rhs),
            r == (self@ != rhs@),
            r == (self.spec_bits() != rhs.spec_bits()),
    {
        proof {
            self.lemma_bits_round_trip(0);
        }
        self.0 != rhs.0
    }

    /// Returns `true` if `self` has no elements in common with `rhs`. This is
    /// equivalent to checking for an empty intersection.
    #[verifier::when_used_as_spec(spec_is_disjoint)]
    pub fn is_disjoint(self, rhs: Self) -> (r: bool)
        ensures
            r == self.spec_is_disjoint(rhs),
            r == self@.disjoint(rhs@),
    {
        proof {
            let common = self@.intersect(rhs@);
            if self@.disjoint(rhs@) {
                assert(common =~= Set::<nat>::empty());
            } else {
                let x = choose|x: nat| self@.contains(x) && rhs@.contains(x);
                assert(common.contains(x));
            }
        }
        self.intersection(rhs).is_empty()
    }

    /// Returns `true` if the set is a subset of another, i.e., `rhs` contains
    /// at least all the values in `self`.
    #[verifier::when_used_as_spec(spec_is_subset)]
    pub fn is_subset(self, rhs: Self) -> (r: bool)
        ensures
            r == self.spec_is_subset(rhs),
            r == self@.subset_of(rhs@),
    {
        proof {
            assert(self@.subset_of(rhs@) == (self@.union(rhs@) =~= rhs@));
        }
        self.union(rhs).is(rhs)
    }

    /// Returns `true` if the set is a strict subset of another, i.e., `rhs`
    /// contains all the values in `self` **and** is larger than `self`.
    #[verifier::when_used_as_spec(spec_is_strict_subset)]
    pub fn is_strict_subset(self, rhs: Self) -> (r: bool)
        ensures
            r == self.spec_is_strict_subset(rhs),
            r == (self@.subset_of(rhs@) && self@ != rhs@),
    {
        self.is_subset(rhs) && self.is_not(rhs)
    }

    /// Returns `true` if the set is a superset of another, i.e., `self`
    /// contains at least all the values in `rhs`.
    #[verifier::when_used_as_spec(spec_is_superset)]
    pub fn is_superset(self, rhs: Self) -> (r: bool)
        ensures
            r == self.spec_is_superset(rhs),
            r == rhs@.subset_of(self@),
    {
        rhs.is_subset(self)
    }

    /// Returns `true` if the set is a strict superset of another, i.e., `self`
    /// contains all the values in `rhs` **and** is larger than `rhs`.
    #[verifier::when_used_as_spec(spec_is_strict_superset)]
    pub fn is_strict_superset(self, rhs: Self) -> (r: bool)
        ensures
            r == self.spec_is_strict_superset(rhs),
            r == (rhs@.subset_of(self@) && self@ != rhs@),
    {
        self.is_superset(rhs) && self.is_not(rhs)
    }

    /// Returns `true` if the set contains no elements.
    #[verifier::when_used_as_spec(spec_is_empty)]
    pub fn is_empty(self) -> (r: bool)
        ensures
            r == self.spec_is_empty(),
            r == (self@ == Set::<nat>::empty()),
            r == (self.spec_bits() == 0),
    {
        proof {
            lemma_zero(self.0);
        }
        self.0 == 0
    }

    /// Returns `true` if the set contains all [`Self::CAPACITY`] elements.
    #[verifier::when_used_as_spec(spec_is_full)]
    pub fn is_full(self) -> (r: bool)
        ensures
            r == self.spec_is_full(),
            r == (self@ == universe(128)),
            r == (self.spec_bits() == u128::MAX),
    {
        proof {
            lemma_constants();
            self.lemma_bits_round_trip(0);
            assert(Self::spec_all()@ == universe(128));
        }
        self.0 == u128::MAX
    }

    /// Returns the number of elements in the set.
    #[verifier::when_used_as_spec(spec_len)]
    pub fn len(self) -> (r: usize)
        ensures
            r == self.spec_len(),
            r == self@.len(),
            r <= 128,
    {
        proof {
            lemma_fits(self.0);
            lemma_members_len(self.0 as nat, 128);
        }
        self.0.count_ones() as usize
    }

    /// Returns `true` if the bit at `index` is set.
    #[verifier::when_used_as_spec(spec_contains)]
    pub fn contains(self, index: usize) -> (r: bool)
        ensures
            r == self.spec_contains(index),
            r == self@.contains(index as nat),
            index >= 128 ==> !r,
    {
        if index < Self::CAPACITY {
            let masked = self.0 & (1u128 << index);
            proof {
                lemma_single(index as u128);
                lemma_algebra(self.0, 1u128 << index);
                lemma_zero(masked);
                assert(members(masked as nat, 128) =~= if self@.contains(index as nat) {
                    set![index as nat]
                } else {
                    Set::<nat>::empty()
                });
                assert(set![index as nat].contains(index as nat));
            }
            masked != 0
        } else {
            false
        }
    }

    /// Gets the bit at `index`.
    ///
    /// If `index >=`[`Self::CAPACITY`], this will simply return `false`.
    pub fn get(self, index: usize) -> (r: bool)
        ensures
            r == self.spec_contains(index),
            r == self@.contains(index as nat),
            index >= 128 ==> !r,
    {
        self.contains(index)
    }

    /// The set without its members from `index` on: what
    /// [`masked_0_to_i`](Self::masked_0_to_i) returns.
    pub open spec fn spec_masked_0_to_i(self, index: usize) -> Self {
        Self::spec_from_bits(self.spec_bits() & ((1u128 << index) - 1) as u128)
    }

    /// The set without its members below `index`: what
    /// [`cleared_0_to_i`](Self::cleared_0_to_i) returns.
    pub open spec fn spec_cleared_0_to_i(self, index: usize) -> Self {
        Self::spec_from_bits(self.spec_bits() & !(((1u128 << index) - 1) as u128))
    }

    /// Returns the index of the least significant bit that is set.
    ///
    /// If no bits are set, this returns [`Self::CAPACITY`].
    pub fn min_index(self) -> (r: usize)
        ensures
            r <= 128,
            (r == 128) == self.spec_is_empty(),
            r == 128 ==> self@ == Set::<nat>::empty(),
            r < 128 ==> is_least(self@, r as nat),
    {
        let r = self.0.trailing_zeros();
        proof {
            lemma_zero(self.0);
            if r == 128 {
                assert(self@ =~= Set::<nat>::empty());
            } else {
                assert(self@.contains(r as nat));
            }
        }
        r as usize
    }

    /// Returns the index of the most significant bit that is set.
    ///
    /// The set must not be empty. For an alternative that takes every set,
    /// see [`max_index_checked`](Self::max_index_checked).
    pub fn max_index(self) -> (r: usize)
        requires
            !self.spec_is_empty(),
        ensures
            r < 128,
            is_greatest(self@, r as nat),
    {
        let z = self.0.leading_zeros();
        proof {
            lemma_zero(self.0);
            if z == 128 {
                assert(self@ =~= Set::<nat>::empty());
            }
        }
        Self::CAPACITY - 1 - z as usize
    }

    /// Returns the index of the most significant bit that is set, or [`None`]
    /// if no bits are set.
    pub fn max_index_checked(self) -> (r: Option<usize>)
        ensures
            r is None == self.spec_is_empty(),
            r is None ==> self@ == Set::<nat>::empty(),
            r matches Some(m) ==> m < 128 && is_greatest(self@, m as nat),
    {
        if self.is_empty() {
            None
        } else {
            Some(self.max_index())
        }
    }

    /// Clears the set, removing all values.
    pub fn clear(&mut self)
        ensures
            *final(self) == Self::spec_new(),
            final(self)@ == Set::<nat>::empty(),
    {
        proof {
            lemma_zero(0);
        }
        self.0 = 0;
    }

    /// Creates a copy of this set that only has values less than `index`.
    ///
    /// `index` must be less than [`Self::CAPACITY`].
    #[verifier::when_used_as_spec(spec_masked_0_to_i)]
    pub fn masked_0_to_i(self, index: usize) -> (r: Self)
        requires
            index < 128,
        ensures
            r == self.spec_masked_0_to_i(index),
            forall|j: nat| r@.contains(j) == (self@.contains(j) && j < index),
    {
        let mut set = self;
        set.mask_0_to_i(index);
        set
    }

    /// Removes any bits with indices outside the range `0..index`.
    ///
    /// `index` must be less than [`Self::CAPACITY`].
    pub fn mask_0_to_i(&mut self, index: usize)
        requires
            index < 128,
        ensures
            *final(self) == old(self).spec_masked_0_to_i(index),
            forall|j: nat| final(self)@.contains(j) == (old(self)@.contains(j) && j < index),
    {
        self.clear_i_to_128(index);
    }

    /// Creates a copy of this set that only has bits with indices greater
    /// than or equal to `index`.
    ///
    /// `index` must be less than [`Self::CAPACITY`].
    #[verifier::when_used_as_spec(spec_cleared_0_to_i)]
    pub fn masked_i_to_128(self, index: usize) -> (r: Self)
        requires
            index < 128,
        ensures
            r == self.spec_cleared_0_to_i(index),
            forall|j: nat| r@.contains(j) == (self@.contains(j) && j >= index),
    {
        let mut set = self;
        set.mask_i_to_128(index);
        set
    }

    /// Removes any bits with indices outside the range `index..128`.
    ///
    /// `index` must be less than [`Self::CAPACITY`].
    pub fn mask_i_to_128(&mut self, index: usize)
        requires
            index < 128,
        ensures
            *final(self) == old(self).spec_cleared_0_to_i(index),
            forall|j: nat| final(self)@.contains(j) == (old(self)@.contains(j) && j >= index),
    {
        self.clear_0_to_i(index);
    }

    /// Creates a copy of this set without the bits with indices in the range
    /// `0..index`.
    ///
    /// `index` must be less than [`Self::CAPACITY`].
    #[verifier::when_used_as_spec(spec_cleared_0_to_i)]
    pub fn cleared_0_to_i(self, index: usize) -> (r: Self)
        requires
            index < 128,
        ensures
            r == self.spec_cleared_0_to_i(index),
            forall|j: nat| r@.contains(j) == (self@.contains(j) && j >= index),
    {
        let mut set = self;
        set.clear_0_to_i(index);
        set
    }

    /// Clears bits `0..index`, keeping bits `index..128` as they are.
    ///
    /// `index` must be less than [`Self::CAPACITY`].
    pub fn clear_0_to_i(&mut self, index: usize)
        requires
            index < 128,
        ensures
            *final(self) == old(self).spec_cleared_0_to_i(index),
            forall|j: nat| final(self)@.contains(j) == (old(self)@.contains(j) && j >= index),
    {
        proof {
            lemma_single(index as u128);
        }
        let low: u128 = (1u128 << index) - 1;
        proof {
            lemma_algebra(self.0, low);
        }
        self.0 = self.0 & !low;
    }

    /// Creates a copy of this set without the bits with indices in the range
    /// `index..128`.
    ///
    /// `index` must be less than [`Self::CAPACITY`].
    #[verifier::when_used_as_spec(spec_masked_0_to_i)]
    pub fn cleared_i_to_128(self, index: usize) -> (r: Self)
        requires
            index < 128,
        ensures
            r == self.spec_masked_0_to_i(index),
            forall|j: nat| r@.contains(j) == (self@.contains(j) && j < index),
    {
        let mut set = self;
        set.clear_i_to_128(index);
        set
    }

    /// Clears bits `index..128`, keeping bits `0..index` as they are.
    ///
    /// `index` must be less than [`Self::CAPACITY`].
    pub fn clear_i_to_128(&mut self, index: usize)
        requires
            index < 128,
        ensures
            *final(self) == old(self).spec_masked_0_to_i(index),
            forall|j: nat| final(self)@.contains(j) == (old(self)@.contains(j) && j < index),
    {
        proof {
            lemma_single(index as u128);
        }
        let low: u128 = (1u128 << index) - 1;
        proof {
            lemma_algebra(self.0, low);
        }
        self.0 = self.0 & low;
    }

    /// Sets the bit at `index` to `1`.
    ///
    /// If you would like to know if the insertion succeeded, use
    /// [`insert`](Self::insert) instead.
    pub fn insert_quiet(&mut self, index: usize)
        ensures
            *final(self) == old(self).spec_union(Self::spec_unit(index)),
            index < 128 ==> final(self)@ == old(self)@.insert(index as nat),
            index >= 128 ==> *final(self) == *old(self),
    {
        let unit = Self::unit(index);
        proof {
            if index >= 128 {
                assert(self@.union(unit@) =~= self@);
                self.lemma_bits_round_trip(0);
            }
        }
        *self = self.union(unit);
    }

    /// Sets the bit at `index` to `1`. Returns whether the bit was not
    /// already set.
    ///
    /// If the return value is not needed, use
    /// [`insert_quiet`](Self::insert_quiet) instead.
    pub fn insert(&mut self, index: usize) -> (r: bool)
        ensures
            *final(self) == old(self).spec_union(Self::spec_unit(index)),
            index < 128 ==> final(self)@ == old(self)@.insert(index as nat),
            index >= 128 ==> *final(self) == *old(self),
            r == (*final(self) != *old(self)),
            r == (index < 128 && !old(self)@.contains(index as nat)),
    {
        let old_set = *self;
        self.insert_quiet(index);
        proof {
            if index < 128 && old_set@.contains(index as nat) {
                assert(old_set@.insert(index as nat) =~= old_set@);
            }
        }
        old_set.is_not(*self)
    }

    /// Sets the bit at `index` to `bit`.
    ///
    /// If you would like to know the old value of the bit, use
    /// [`replace`](Self::replace) instead.
    pub fn replace_quiet(&mut self, index: usize, bit: bool)
        ensures
            bit ==> *final(self) == old(self).spec_union(Self::spec_unit(index)),
            !bit ==> *final(self) == old(self).spec_difference(Self::spec_unit(index)),
            index < 128 ==> final(self)@.contains(index as nat) == bit,
            forall|j: nat| j != index ==> final(self)@.contains(j) == old(self)@.contains(j),
            index >= 128 ==> *final(self) == *old(self),
    {
        if bit {
            self.insert_quiet(index)
        } else {
            self.remove_quiet(index)
        }
    }

    /// Sets the bit at `index` to `bit`. Returns whether the set is unchanged
    /// where `bit` is `true`, and whether the set has changed where `bit` is
    /// `false`: in both cases whether the bit was set before, save that an
    /// `index` out of range with `true` leaves the set unchanged and so
    /// returns `true`.
    ///
    /// If the return value is not needed, use
    /// [`replace_quiet`](Self::replace_quiet) instead.
    pub fn replace(&mut self, index: usize, bit: bool) -> (r: bool)
        ensures
            bit ==> *final(self) == old(self).spec_union(Self::spec_unit(index)),
            !bit ==> *final(self) == old(self).spec_difference(Self::spec_unit(index)),
            index < 128 ==> final(self)@.contains(index as nat) == bit,
            forall|j: nat| j != index ==> final(self)@.contains(j) == old(self)@.contains(j),
            index >= 128 ==> *final(self) == *old(self),
            bit ==> r == (*final(self) == *old(self)),
            !bit ==> r == (*final(self) != *old(self)),
            r == (old(self)@.contains(index as nat) || (bit && index >= 128)),
    {
        let old_set = *self;
        if bit {
            self.insert_quiet(index);
            proof {
                if index < 128 && old_set@.contains(index as nat) {
                    assert(old_set@.insert(index as nat) =~= old_set@);
                }
            }
            old_set.is(*self)
        } else {
            self.remove_quiet(index);
            proof {
                if index < 128 && !old_set@.contains(index as nat) {
                    assert(old_set@.remove(index as nat) =~= old_set@);
                }
            }
            old_set.is_not(*self)
        }
    }

    /// Sets the bit at `index` to `0`.
    ///
    /// If you would like to know if the removal succeeded, use
    /// [`remove`](Self::remove) instead.
    pub fn remove_quiet(&mut self, index: usize)
        ensures
            *final(self) == old(self).spec_difference(Self::spec_unit(index)),
            final(self)@ == old(self)@.remove(index as nat),
            index >= 128 ==> *final(self) == *old(self),
    {
        let unit = Self::unit(index);
        proof {
            if index >= 128 {
                assert(self@.difference(unit@) =~= self@);
                self.lemma_bits_round_trip(0);
            }
        }
        *self = self.difference(unit);
    }

    /// Sets the bit at `index` to `0`. Returns whether the bit was set.
    ///
    /// If the return value is not needed, use
    /// [`remove_quiet`](Self::remove_quiet) instead.
    pub fn remove(&mut self, index: usize) -> (r: bool)
        ensures
            *final(self) == old(self).spec_difference(Self::spec_unit(index)),
            final(self)@ == old(self)@.remove(index as nat),
            index >= 128 ==> *final(self) == *old(self),
            r == (*final(self) != *old(self)),
            r == old(self)@.contains(index as nat),
            !final(self)@.contains(index as nat),
    {
        let old_set = *self;
        self.remove_quiet(index);
        proof {
            if !old_set@.contains(index as nat) {
                assert(old_set@.remove(index as nat) =~= old_set@);
            }
        }
        old_set.is_not(*self)
    }

    /// Creates an iterator over the indices of the bits that are set in the
    /// set.
    pub fn iter_indices<D: Direction>(&self) -> (r: BitSetIndices128<'_, D>)
        ensures
            r.remaining() == if D::ascending() {
                self.ascending_indices()
            } else {
                self.descending_indices()
            },
    {
        BitSetIndices128::new(self)
    }

    /// Creates an iterator over the bits of the set.
    pub fn iter_bits<D: Direction>(&self) -> (r: BitSetIter128<'_, D>)
        ensures
            r.remaining() == if D::ascending() {
                self.ascending_bits()
            } else {
                self.descending_bits()
            },
    {
        BitSetIter128::new(self)
    }

    /// Renders the set as the set of its indices in ascending order, the
    /// way `{:?}` renders a set: `{1, 2, 5}`. Where `pretty` is set, the
    /// rendering is that of `{:#?}`, one index to a line.
    pub fn debug_string(&self, pretty: bool) -> (r: String)
        ensures
            r@ == rendered(self.index_list(), pretty),
    {
        let mut indices: Vec<usize> = Vec::new();
        let mut iterator = self.iter_indices::<Ascending>();
        let mut more = true;
        while more
            invariant
                indices@.len() <= self.ascending_indices().len(),
                forall|i: int|
                    0 <= i < indices@.len() ==> indices@[i] == self.ascending_indices()[i],
                iterator.remaining() == self.ascending_indices().skip(indices@.len() as int),
                !more ==> iterator.remaining().len() == 0,
            decreases
                    iterator.remaining().len() + if more {
                        1nat
                    } else {
                        0nat
                    },
        {
            proof {
                Self::lemma_index_orders(*self);
            }
            match iterator.next() {
                Some(index) => {
                    indices.push(index);
                },
                None => {
                    more = false;
                },
            }
        }
        assert(indices@ =~= self.index_list());
        render(&indices, pretty)
    }
}

/// An iterator over the indices of the bits that are set in a [`BitSet128`].
pub struct BitSetIndices128<'a, D: Direction = Ascending> {
    bits: u128,
    shift: u128,
    _markers: (core::marker::PhantomData<&'a ()>, core::marker::PhantomData<D>),
}

impl<'a, D: Direction> BitSetIndices128<'a, D> {
    /// The part of the bits that is still to be scanned holds no one beyond
    /// the positions that are left.
    #[verifier::type_invariant]
    spec fn inv(&self) -> bool {
        &&& self.shift <= 128
        &&& D::ascending() ==> forall|j: nat|
            j < 128 && 128 <= j + self.shift ==> !#[trigger] bit(self.bits as nat, j)
        &&& !D::ascending() ==> forall|j: nat|
            j < self.shift ==> !#[trigger] bit(self.bits as nat, j)
    }

    /// The members that the bits still to be scanned stand for.
    spec fn pending(&self) -> Set<nat> {
        if D::ascending() {
            Set::new(|k: nat| self.shift <= k < 128 && bit(self.bits as nat, (k - self.shift) as nat))
        } else {
            Set::new(|k: nat| k + self.shift < 128 && bit(self.bits as nat, (k + self.shift) as nat))
        }
    }

    /// The indices that are still to come, in the order in which `next`
    /// yields them.
    pub closed spec fn remaining(&self) -> Seq<nat> {
        if D::ascending() {
            ascending(self.pending(), self.shift as nat, 128)
        } else {
            descending(self.pending(), 0, (128 - self.shift) as nat)
        }
    }

    /// Creates an iterator over the indices of the bits that are set in
    /// `set`.
    pub fn new(set: &'a BitSet128) -> (r: Self)
        ensures
            r.remaining() == if D::ascending() {
                set.ascending_indices()
            } else {
                set.descending_indices()
            },
    {
        let r = Self {
            bits: set.bits(),
            shift: 0,
            _markers: (core::marker::PhantomData, core::marker::PhantomData),
        };
        proof {
            lemma_ascending_same(r.pending(), set@, 0, 128);
            lemma_descending_same(r.pending(), set@, 0, 128);
        }
        r
    }
}

impl<'a> BitSetIndices128<'a, Ascending> {
    /// Yields the smallest index that is still to come, or `None` once all
    /// have been yielded.
    pub fn next(&mut self) -> (r: Option<usize>)
        ensures
            match r {
                Some(index) => old(self).remaining().len() > 0 && index == old(self).remaining()[0]
                    && final(self).remaining() == old(self).remaining().drop_first(),
                None => old(self).remaining().len() == 0 && final(self).remaining().len() == 0,
            },
    {
        let i = self.bits.trailing_zeros();
        let ghost s = self.pending();
        proof {
            use_type_invariant(&*self);
        }
        if i < 128 {
            let index = self.shift as usize + i as usize;
            proof {
                lemma_ascending_skip(s, self.shift as nat, index as nat, 128);
                lemma_shifted(self.bits, i as u128);
                lemma_shifted(self.bits >> (i as u128), 1);
            }
            self.bits = (self.bits >> (i as u128)) >> 1;
            self.shift = self.shift + (i as u128) + 1;
            proof {
                lemma_ascending_same(s, self.pending(), self.shift as nat, 128);
            }
            Some(index)
        } else {
            proof {
                lemma_ascending_skip(s, self.shift as nat, 128, 128);
            }
            None
        }
    }
}

impl<'a> BitSetIndices128<'a, Descending> {
    /// Yields the largest index that is still to come, or `None` once all
    /// have been yielded.
    pub fn next(&mut self) -> (r: Option<usize>)
        ensures
            match r {
                Some(index) => old(self).remaining().len() > 0 && index == old(self).remaining()[0]
                    && final(self).remaining() == old(self).remaining().drop_first(),
                None => old(self).remaining().len() == 0 && final(self).remaining().len() == 0,
            },
    {
        let z = self.bits.leading_zeros();
        let ghost s = self.pending();
        proof {
            use_type_invariant(&*self);
        }
        if z == 128 {
            proof {
                lemma_descending_skip(s, 0, 0, (128 - self.shift) as nat);
            }
            return None;
        }
        let ghost top = (128 - self.shift) as nat;
        proof {
            assert(z + self.shift < 128);
            lemma_descending_skip(s, 0, (top - z) as nat, top);
            lemma_shifted(self.bits, z as u128);
            lemma_shifted(self.bits << (z as u128), 1);
        }
        self.bits = (self.bits << (z as u128)) << 1;
        self.shift = self.shift + (z as u128) + 1;
        let index = BitSet128::CAPACITY - self.shift as usize;
        proof {
            lemma_descending_same(s, self.pending(), 0, index as nat);
        }
        Some(index)
    }
}

/// An iterator over the bits of a [`BitSet128`].
pub struct BitSetIter128<'a, D: Direction = Ascending> {
    bits: u128,
    i: u128,
    _markers: (core::marker::PhantomData<&'a ()>, core::marker::PhantomData<D>),
}

impl<'a, D: Direction> BitSetIter128<'a, D> {
    #[verifier::type_invariant]
    spec fn inv(&self) -> bool {
        self.i <= 128
    }

    /// The booleans that are still to come, in the order in which `next`
    /// yields them.
    pub closed spec fn remaining(&self) -> Seq<bool> {
        if D::ascending() {
            Seq::new((128 - self.i) as nat, |j: int| bit(self.bits as nat, j as nat))
        } else {
            Seq::new((128 - self.i) as nat, |j: int| bit(self.bits as nat, (127 - j) as nat))
        }
    }

    /// Creates an iterator over the bits of `set`.
    pub fn new(set: &'a BitSet128) -> (r: Self)
        ensures
            r.remaining() == if D::ascending() {
                set.ascending_bits()
            } else {
                set.descending_bits()
            },
    {
        let r = Self {
            bits: set.bits(),
            i: 0,
            _markers: (core::marker::PhantomData, core::marker::PhantomData),
        };
        proof {
            assert(r.remaining() =~= if D::ascending() {
                set.ascending_bits()
            } else {
                set.descending_bits()
            });
        }
        r
    }
}

impl<'a> BitSetIter128<'a, Ascending> {
    /// Yields the boolean of the lowest position that is still to come, or
    /// `None` once all have been yielded.
    pub fn next(&mut self) -> (r: Option<bool>)
        ensures
            match r {
                Some(b) => old(self).remaining().len() > 0 && b == old(self).remaining()[0]
                    && final(self).remaining() == old(self).remaining().drop_first(),
                None => old(self).remaining().len() == 0 && final(self).remaining().len() == 0,
            },
    {
        proof {
            use_type_invariant(&*self);
        }
        if self.i < 128 {
            proof {
                lemma_bit(self.bits, 0);
                lemma_low_bit(self.bits);
                lemma_shifted(self.bits, 1);
            }
            self.i = self.i + 1;
            let b = self.bits & 1 != 0;
            self.bits = self.bits >> 1;
            Some(b)
        } else {
            None
        }
    }
}

impl<'a> BitSetIter128<'a, Descending> {
    /// Yields the boolean of the highest position that is still to come, or
    /// `None` once all have been yielded.
    pub fn next(&mut self) -> (r: Option<bool>)
        ensures
            match r {
                Some(b) => old(self).remaining().len() > 0 && b == old(self).remaining()[0]
                    && final(self).remaining() == old(self).remaining().drop_first(),
                None => old(self).remaining().len() == 0 && final(self).remaining().len() == 0,
            },
    {
        proof {
            use_type_invariant(&*self);
        }
        if self.i < 128 {
            proof {
                lemma_top_bit(self.bits);
                lemma_shifted(self.bits, 1);
            }
            self.i = self.i + 1;
            let b = self.bits & TOP_BIT != 0;
            self.bits = self.bits << 1;
            Some(b)
        } else {
            None
        }
    }
}

impl BitSet128 {
    /// A set united or intersected with itself is that set; its difference
    /// and its symmetric difference with itself are empty.
    pub proof fn lemma_with_itself(a: Self)
        ensures
            a.union(a) == a,
            a.intersection(a) == a,
            a.symmetric_difference(a).is_empty(),
            a.difference(a).is_empty(),
    {
        lemma_identities(a.0, a.0, a.0);
    }

    /// Intersection and union are commutative and associative.
    pub proof fn lemma_commutative_associative(a: Self, b: Self, c: Self)
        ensures
            a.intersection(b) == b.intersection(a),
            a.union(b) == b.union(a),
            a.intersection(b).intersection(c) == a.intersection(b.intersection(c)),
            a.union(b).union(c) == a.union(b.union(c)),
    {
        lemma_identities(a.0, b.0, c.0);
    }

    /// Difference is commutative on no two sets but equal ones.
    pub proof fn lemma_difference_commutes_only_when_equal(a: Self, b: Self)
        ensures
            (a.difference(b) == b.difference(a)) == (a == b),
    {
        lemma_identities(a.0, b.0, 0);
    }

    /// The complement of the complement is the set itself; the empty and the
    /// full set are each other's complement.
    pub proof fn lemma_complement(a: Self)
        ensures
            a.complement().complement() == a,
            Self::new().complement() == Self::all(),
            Self::all().complement() == Self::new(),
    {
        lemma_identities(a.0, 0, 0);
        lemma_not_constants();
    }

    /// A set is a subset of another exactly if their union is the other, and
    /// exactly if their intersection is the first.
    pub proof fn lemma_subset(a: Self, b: Self)
        ensures
            a.is_subset(b) == (a.union(b) == b),
            a.is_subset(b) == (a.intersection(b) == a),
            a.is_subset(b) == a@.subset_of(b@),
    {
        lemma_identities(a.0, b.0, 0);
        lemma_algebra(a.0, b.0);
        if a@.subset_of(b@) {
            assert(members((a.0 | b.0) as nat, 128) =~= b@);
            lemma_same_members(a.0 | b.0, b.0);
        }
    }

    /// A set is disjoint from its complement, and from itself only if it is
    /// empty.
    pub proof fn lemma_disjoint(a: Self)
        ensures
            a.is_disjoint(a.complement()),
            a.is_disjoint(a) == a.is_empty(),
    {
        lemma_identities(a.0, 0, 0);
    }

    /// A set and its complement have `CAPACITY` members together.
    pub proof fn lemma_len_complement(a: Self)
        ensures
            a.len() + a.complement().len() == Self::CAPACITY,
    {
        lemma_algebra(a.0, a.0);
        assert(a.complement()@ =~= universe(128).difference(a@));
        lemma_complement_len(a@, 128);
    }

    /// The indices in ascending order increase strictly; in descending order
    /// they are the same sequence reversed; each order holds every member
    /// once, so it is as long as the set is large.
    pub proof fn lemma_index_orders(a: Self)
        ensures
            strictly_increasing(a.ascending_indices()),
            a.descending_indices() == a.ascending_indices().reverse(),
            a.ascending_indices().to_set() == a@,
            a.descending_indices().to_set() == a@,
            a.ascending_indices().len() == a.len(),
            a.descending_indices().len() == a.len(),
            forall|i: int| 0 <= i < a.ascending_indices().len() ==> a.ascending_indices()[i] < 128,
    {
        let up = a.ascending_indices();
        lemma_fits(a.0);
        lemma_members_len(a.0 as nat, 128);
        lemma_ascending_contents(a@, 0, 128);
        lemma_ascending_len(a@, 128);
        lemma_descending_is_reverse(a@, 0, 128);
        assert(up.reverse().to_set() =~= up.to_set()) by {
            assert forall|x: nat| up.reverse().contains(x) == up.contains(x) by {
                if up.contains(x) {
                    let i = choose|i: int| 0 <= i < up.len() && up[i] == x;
                    assert(up.reverse()[up.len() - 1 - i] == x);
                }
                if up.reverse().contains(x) {
                    let i = choose|i: int| 0 <= i < up.reverse().len() && up.reverse()[i] == x;
                    assert(up[up.len() - 1 - i] == x);
                }
            }
        }
        assert forall|i: int| 0 <= i < up.len() implies up[i] < 128 by {
            assert(up.contains(up[i]));
        }
    }

    /// Either order of bits holds `CAPACITY` booleans; the boolean at
    /// ascending position `i` says whether `i` is a member; the descending
    /// order is the ascending one reversed.
    pub proof fn lemma_bit_orders(a: Self)
        ensures
            a.ascending_bits().len() == Self::CAPACITY,
            a.descending_bits().len() == Self::CAPACITY,
            forall|i: usize| i < Self::CAPACITY ==> a.ascending_bits()[i as int] == a.contains(i),
            a.descending_bits() == a.ascending_bits().reverse(),
    {
    }
}

impl core::ops::BitAnd for BitSet128 {
    type Output = Self;

    /// The intersection of the two sets.
    fn bitand(self, rhs: Self) -> (r: Self)
        ensures
            r@ == self.spec_intersection(rhs)@,
    {
        self.intersection(rhs)
    }
}

impl vstd::std_specs::ops::BitAndSpecImpl for BitSet128 {
    open spec fn obeys_bitand_spec() -> bool {
        true
    }

    open spec fn bitand_req(self, rhs: Self) -> bool {
        true
    }

    open spec fn bitand_spec(self, rhs: Self) -> Self {
        self.spec_intersection(rhs)
    }
}

impl core::ops::BitAndAssign for BitSet128 {
    /// Replaces `self` by what `bitand` gives.
    fn bitand_assign(&mut self, rhs: Self)
        ensures
            *final(self) == old(self).spec_intersection(rhs),
    {
        *self = self.intersection(rhs);
    }
}

impl core::ops::BitOr for BitSet128 {
    type Output = Self;

    /// The union of the two sets.
    fn bitor(self, rhs: Self) -> (r: Self)
        ensures
            r@ == self.spec_union(rhs)@,
    {
        self.union(rhs)
    }
}

impl vstd::std_specs::ops::BitOrSpecImpl for BitSet128 {
    open spec fn obeys_bitor_spec() -> bool {
        true
    }

    open spec fn bitor_req(self, rhs: Self) -> bool {
        true
    }

    open spec fn bitor_spec(self, rhs: Self) -> Self {
        self.spec_union(rhs)
    }
}

impl core::ops::BitOrAssign for BitSet128 {
    /// Replaces `self` by what `bitor` gives.
    fn bitor_assign(&mut self, rhs: Self)
        ensures
            *final(self) == old(self).spec_union(rhs),
    {
        *self = self.union(rhs);
    }
}

impl core::ops::BitXor for BitSet128 {
    type Output = Self;

    /// The symmetric difference of the two sets.
    fn bitxor(self, rhs: Self) -> (r: Self)
        ensures
            r@ == self.spec_symmetric_difference(rhs)@,
    {
        self.symmetric_difference(rhs)
    }
}

impl vstd::std_specs::ops::BitXorSpecImpl for BitSet128 {
    open spec fn obeys_bitxor_spec() -> bool {
        true
    }

    open spec fn bitxor_req(self, rhs: Self) -> bool {
        true
    }

    open spec fn bitxor_spec(self, rhs: Self) -> Self {
        self.spec_symmetric_difference(rhs)
    }
}

impl core::ops::BitXorAssign for BitSet128 {
    /// Replaces `self` by what `bitxor` gives.
    fn bitxor_assign(&mut self, rhs: Self)
        ensures
            *final(self) == old(self).spec_symmetric_difference(rhs),
    {
        *self = self.symmetric_difference(rhs);
    }
}

impl core::ops::Sub for BitSet128 {
    type Output = Self;

    /// The members of `self` that `rhs` lacks.
    fn sub(self, rhs: Self) -> (r: Self)
        ensures
            r@ == self.spec_difference(rhs)@,
    {
        self.difference(rhs)
    }
}

impl vstd::std_specs::ops::SubSpecImpl for BitSet128 {
    open spec fn obeys_sub_spec() -> bool {
        true
    }

    open spec fn sub_req(self, rhs: Self) -> bool {
        true
    }

    open spec fn sub_spec(self, rhs: Self) -> Self {
        self.spec_difference(rhs)
    }
}

impl core::ops::SubAssign for BitSet128 {
    /// Replaces `self` by what `sub` gives.
    fn sub_assign(&mut self, rhs: Self)
        ensures
            *final(self) == old(self).spec_difference(rhs),
    {
        *self = self.difference(rhs);
    }
}

impl core::ops::Neg for BitSet128 {
    type Output = Self;

    /// The complement of the set.
    fn neg(self) -> (r: Self)
        ensures
            r@ == self.spec_complement()@,
    {
        self.complement()
    }
}

impl vstd::std_specs::ops::NegSpecImpl for BitSet128 {
    open spec fn obeys_neg_spec() -> bool {
        true
    }

    open spec fn neg_req(self) -> bool {
        true
    }

    open spec fn neg_spec(self) -> Self {
        self.spec_complement()
    }
}

impl core::ops::Not for BitSet128 {
    type Output = Self;

    /// The complement of the set.
    fn not(self) -> (r: Self)
        ensures
            r@ == self.spec_complement()@,
    {
        self.complement()
    }
}

impl vstd::std_specs::ops::NotSpecImpl for BitSet128 {
    open spec fn obeys_not_spec() -> bool {
        true
    }

    open spec fn not_req(self) -> bool {
        true
    }

    open spec fn not_spec(self) -> Self {
        self.spec_complement()
    }
}

impl core::convert::From<u128> for BitSet128 {
    /// The set with the given bits.
    fn from(value: u128) -> (r: Self)
        ensures
            r.spec_bits() == value,
    {
        Self::from_bits(value)
    }
}

impl vstd::std_specs::convert::FromSpecImpl<u128> for BitSet128 {
    open spec fn obeys_from_spec() -> bool {
        true
    }

    open spec fn from_spec(value: u128) -> Self {
        Self::spec_from_bits(value)
    }
}

impl core::convert::From<BitSet128> for u128 {
    /// The bits of the set.
    fn from(value: BitSet128) -> (r: u128)
        ensures
            BitSet128::spec_from_bits(r) == value,
    {
        value.bits()
    }
}

impl vstd::std_specs::convert::FromSpecImpl<BitSet128> for u128 {
    open spec fn obeys_from_spec() -> bool {
        true
    }

    open spec fn from_spec(value: BitSet128) -> u128 {
        value.spec_bits()
    }
}

} // verus!
