//! Binary digits of natural numbers.
//!
//! Every bit set of this crate is one unsigned integer. What such an integer
//! stands for is said here once, for all widths: the set of the positions at
//! which its binary representation has a one.

use vstd::arithmetic::div_mod::{lemma_basic_div, lemma_div_denominator};
use vstd::arithmetic::power2::{
    lemma2_to64, lemma_pow2_adds, lemma_pow2_pos, lemma_pow2_unfold, pow2,
};
use vstd::prelude::*;

verus! {

/// Whether the binary representation of `n` has a one at position `i`,
/// position 0 being the least significant.
pub open spec fn bit(n: nat, i: nat) -> bool {
    (n / pow2(i)) % 2 == 1
}

/// The positions below `width` at which `n` has a one.
pub open spec fn members(n: nat, width: nat) -> Set<nat> {
    Set::new(|i: nat| i < width && bit(n, i))
}

/// All positions below `width`.
pub open spec fn universe(width: nat) -> Set<nat> {
    Set::new(|i: nat| i < width)
}

/// The number of ones in the binary representation of `n`.
pub open spec fn ones_in(n: nat) -> nat
    decreases n,
{
    if n == 0 {
        0
    } else {
        n % 2 + ones_in(n / 2)
    }
}

/// The number of positions below `k` at which `n` has a one.
pub open spec fn count_below(n: nat, k: nat) -> nat
    decreases k,
{
    if k == 0 {
        0
    } else {
        count_below(n, (k - 1) as nat) + if bit(n, (k - 1) as nat) {
            1nat
        } else {
            0nat
        }
    }
}

/// Position 0 tells whether a number is odd.
pub proof fn lemma_bit_zero(n: nat)
    ensures
        bit(n, 0) == (n % 2 == 1),
{
    lemma2_to64();
}

/// Halving a number moves every digit one position down.
pub proof fn lemma_bit_halve(n: nat, i: nat)
    ensures
        bit(n, i + 1) == bit(n / 2, i),
{
    lemma_pow2_unfold(i + 1);
    lemma_pow2_pos(i);
    lemma_div_denominator(n as int, 2, pow2(i) as int);
}

/// A number below `2^i` has no one at position `i`.
pub proof fn lemma_bit_above(n: nat, i: nat)
    requires
        n < pow2(i),
    ensures
        !bit(n, i),
{
    lemma_basic_div(n as int, pow2(i) as int);
}

/// A number below `2^width` has no one at or above position `width`.
pub proof fn lemma_bits_bounded(n: nat, width: nat)
    requires
        n < pow2(width),
    ensures
        forall|i: nat| width <= i ==> !#[trigger] bit(n, i),
{
    assert forall|i: nat| width <= i implies !#[trigger] bit(n, i) by {
        lemma_pow2_adds(width, (i - width) as nat);
        lemma_pow2_pos((i - width) as nat);
        assert(pow2(width) <= pow2(i)) by (nonlinear_arith)
            requires
                pow2(i) == pow2(width) * pow2((i - width) as nat),
                pow2((i - width) as nat) > 0,
        ;
        lemma_bit_above(n, i);
    }
}

/// The number just below `2^width` has a one at every position below
/// `width`.
pub proof fn lemma_all_ones(width: nat)
    ensures
        pow2(width) >= 1,
        forall|i: nat| i < width ==> #[trigger] bit((pow2(width) - 1) as nat, i),
    decreases width,
{
    lemma_pow2_pos(width);
    if width > 0 {
        let w = (width - 1) as nat;
        let n = (pow2(width) - 1) as nat;
        let h = (pow2(w) - 1) as nat;
        lemma_pow2_unfold(width);
        lemma_pow2_pos(w);
        lemma_all_ones(w);
        assert(n == 2 * h + 1);
        assert(n / 2 == h);
        assert forall|i: nat| i < width implies #[trigger] bit(n, i) by {
            if i == 0 {
                lemma_bit_zero(n);
            } else {
                lemma_bit_halve(n, (i - 1) as nat);
                assert(bit(h, (i - 1) as nat));
            }
        }
    }
}

/// Two numbers below `2^width` with the same digits are the same number.
pub proof fn lemma_bits_determine(a: nat, b: nat, width: nat)
    requires
        a < pow2(width),
        b < pow2(width),
        forall|i: nat| i < width ==> #[trigger] bit(a, i) == bit(b, i),
    ensures
        a == b,
    decreases width,
{
    if width == 0 {
        lemma2_to64();
    } else {
        let w = (width - 1) as nat;
        lemma_pow2_unfold(width);
        lemma_bit_zero(a);
        lemma_bit_zero(b);
        assert(bit(a, 0) == bit(b, 0));
        let ha = a / 2;
        let hb = b / 2;
        assert forall|i: nat| i < w implies #[trigger] bit(ha, i) == bit(hb, i) by {
            lemma_bit_halve(a, i);
            lemma_bit_halve(b, i);
            assert(bit(a, i + 1) == bit(b, i + 1));
        }
        lemma_bits_determine(ha, hb, w);
    }
}

/// The positions below `width` are `width` many.
pub proof fn lemma_universe_len(width: nat)
    ensures
        universe(width).finite(),
        universe(width).len() == width,
    decreases width,
{
    if width == 0 {
        assert(universe(0) =~= Set::<nat>::empty());
    } else {
        let w = (width - 1) as nat;
        lemma_universe_len(w);
        assert(universe(width) =~= universe(w).insert(w));
    }
}

/// The members below `k` are finitely many, and `count_below` counts them.
pub proof fn lemma_members_count(n: nat, k: nat)
    ensures
        members(n, k).finite(),
        members(n, k).len() == count_below(n, k),
    decreases k,
{
    if k == 0 {
        assert(members(n, 0) =~= Set::<nat>::empty());
    } else {
        let j = (k - 1) as nat;
        lemma_members_count(n, j);
        if bit(n, j) {
            assert(members(n, k) =~= members(n, j).insert(j));
        } else {
            assert(members(n, k) =~= members(n, j));
        }
    }
}

proof fn lemma_count_below_halve(n: nat, k: nat)
    ensures
        count_below(n, k + 1) == n % 2 + count_below(n / 2, k),
    decreases k,
{
    if k == 0 {
        lemma_bit_zero(n);
        assert(count_below(n, 1) == count_below(n, 0) + if bit(n, 0) {
            1nat
        } else {
            0nat
        });
    } else {
        let j = (k - 1) as nat;
        lemma_count_below_halve(n, j);
        lemma_bit_halve(n, j);
    }
}

proof fn lemma_count_below_is_ones_in(n: nat, width: nat)
    requires
        n < pow2(width),
    ensures
        count_below(n, width) == ones_in(n),
    decreases width,
{
    if width == 0 {
        lemma2_to64();
    } else {
        let w = (width - 1) as nat;
        lemma_pow2_unfold(width);
        lemma_count_below_halve(n, w);
        lemma_count_below_is_ones_in(n / 2, w);
    }
}

/// A number below `2^width` has as many members as its binary
/// representation has ones.
pub proof fn lemma_members_len(n: nat, width: nat)
    requires
        n < pow2(width),
    ensures
        members(n, width).finite(),
        members(n, width).len() == ones_in(n),
        members(n, width).len() <= width,
{
    lemma_members_count(n, width);
    lemma_count_below_is_ones_in(n, width);
    lemma_universe_len(width);
    assert(members(n, width).subset_of(universe(width)));
    vstd::set_lib::lemma_len_subset(members(n, width), universe(width));
}

/// A set of positions below `width` and the positions below `width` that
/// it lacks are `width` many together.
pub proof fn lemma_complement_len(s: Set<nat>, width: nat)
    requires
        s.subset_of(universe(width)),
    ensures
        s.finite(),
        universe(width).difference(s).finite(),
        s.len() + universe(width).difference(s).len() == width,
{
    let rest = universe(width).difference(s);
    lemma_universe_len(width);
    vstd::set_lib::lemma_len_subset(s, universe(width));
    vstd::set_lib::lemma_len_subset(rest, universe(width));
    vstd::set_lib::lemma_set_disjoint_lens(s, rest);
    assert(s + rest =~= universe(width));
}

} // verus!
