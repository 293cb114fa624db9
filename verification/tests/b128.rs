// The sets of 128 bits: algebra, predicates, masks, mutation and iterators.
use rose_bitset::{Ascending, BitSet128, Descending};

// A 128-bit mask of the width under test, used to cut the wide patterns
// below down to it.
const MASK: u128 = u128::MAX as u128;

const BITS_A: u128 = 0x745cdc820c3e3e59739c6f3022c6abbd;
const COMP_A: u128 = 0x8ba3237df3c1c1a68c6390cfdd395442;
const BITS_B: u128 = 0x446c4e86f71986f4b77f9320423feb4a;
const COMP_B: u128 = 0xbb93b17908e6790b48806cdfbdc014b5;
const BITS_C: u128 = 0x6d5c852727edd96417f66ce7a17376e9;
const COMP_C: u128 = 0x92a37ad8d812269be80993185e8c8916;
const BITS_D: u128 = 0x89ba968fb8d945091704eb6e5c121aa6;
const COMP_D: u128 = 0x764569704726baf6e8fb1491a3ede559;

fn set_a() -> BitSet128 {
    BitSet128::from_bits((BITS_A & MASK) as u128)
}

fn set_b() -> BitSet128 {
    BitSet128::from_bits((BITS_B & MASK) as u128)
}

fn set_c() -> BitSet128 {
    BitSet128::from_bits((BITS_C & MASK) as u128)
}

fn set_d() -> BitSet128 {
    BitSet128::from_bits((BITS_D & MASK) as u128)
}

fn indices_up(set: BitSet128) -> Vec<usize> {
    let mut out = Vec::new();
    let mut it = set.iter_indices::<Ascending>();
    while let Some(index) = it.next() {
        out.push(index);
    }
    assert_eq!(it.next(), None);
    out
}

fn indices_down(set: BitSet128) -> Vec<usize> {
    let mut out = Vec::new();
    let mut it = set.iter_indices::<Descending>();
    while let Some(index) = it.next() {
        out.push(index);
    }
    assert_eq!(it.next(), None);
    out
}

fn bits_up(set: BitSet128) -> Vec<bool> {
    let mut out = Vec::new();
    let mut it = set.iter_bits::<Ascending>();
    while let Some(bit) = it.next() {
        out.push(bit);
    }
    assert_eq!(it.next(), None);
    out
}

fn bits_down(set: BitSet128) -> Vec<bool> {
    let mut out = Vec::new();
    let mut it = set.iter_bits::<Descending>();
    while let Some(bit) = it.next() {
        out.push(bit);
    }
    assert_eq!(it.next(), None);
    out
}

fn below_capacity(indices: &[usize]) -> Vec<usize> {
    indices.iter().copied().take_while(|&index| index < BitSet128::CAPACITY).collect()
}

#[test]
fn b128_new_set_is_empty() {
    assert!(BitSet128::new().is_empty());
}

#[test]
fn b128_new_set_is_not_full() {
    assert!(!BitSet128::new().is_full());
}

#[test]
fn b128_capacity() {
    assert_eq!(BitSet128::CAPACITY, ::core::mem::size_of::<BitSet128>() * 8);
}

#[test]
fn b128_unit_0() {
    assert_eq!(BitSet128::unit(0).bits(), 0b1);
}

#[test]
fn b128_unit_5() {
    assert_eq!(BitSet128::unit(5).bits(), 0b100000);
}

#[test]
fn b128_unit_capacity_minus_1() {
    assert!(!BitSet128::unit(BitSet128::CAPACITY - 1).is_empty());
}

#[test]
fn b128_unit_capacity_is_empty() {
    assert!(BitSet128::unit(BitSet128::CAPACITY).is_empty());
}

#[test]
fn b128_unit_1_million_is_empty() {
    assert!(BitSet128::unit(1_000_000).is_empty());
}

#[test]
fn b128_all_is_full() {
    assert!(BitSet128::all().is_full());
}

#[test]
fn b128_all_is_not_empty() {
    assert!(!BitSet128::all().is_empty());
}

#[test]
fn b128_complement_of_new_set_is_full() {
    assert!(BitSet128::new().complement().is_full());
}

#[test]
fn b128_complement_of_all_is_empty() {
    assert!(BitSet128::all().complement().is_empty());
}

#[test]
fn b128_len_of_units_complement() {
    assert_eq!(BitSet128::unit(4).complement().len(), BitSet128::CAPACITY - 1);
}

#[test]
fn b128_complement_a() {
    let expected = (COMP_A & MASK) as u128;
    assert_eq!(set_a().complement().bits(), expected);
}

#[test]
fn b128_complement_b() {
    let expected = (COMP_B & MASK) as u128;
    assert_eq!(set_b().complement().bits(), expected);
}

#[test]
fn b128_complement_c() {
    let expected = (COMP_C & MASK) as u128;
    assert_eq!(set_c().complement().bits(), expected);
}

#[test]
fn b128_complement_d() {
    let expected = (COMP_D & MASK) as u128;
    assert_eq!(set_d().complement().bits(), expected);
}

#[test]
fn b128_intersection_a_a() {
    let expected = (BITS_A & MASK) as u128;
    assert_eq!(set_a().intersection(set_a()).bits(), expected);
}

#[test]
fn b128_intersection_a_b() {
    let expected = ((BITS_A & BITS_B) & MASK) as u128;
    assert_eq!(set_a().intersection(set_b()).bits(), expected);
    assert_eq!(set_b().intersection(set_a()).bits(), expected);
}

#[test]
fn b128_intersection_a_c() {
    let expected = ((BITS_A & BITS_C) & MASK) as u128;
    assert_eq!(set_a().intersection(set_c()).bits(), expected);
    assert_eq!(set_c().intersection(set_a()).bits(), expected);
}

#[test]
fn b128_intersection_a_d() {
    let expected = ((BITS_A & BITS_D) & MASK) as u128;
    assert_eq!(set_a().intersection(set_d()).bits(), expected);
    assert_eq!(set_d().intersection(set_a()).bits(), expected);
}

#[test]
fn b128_intersection_b_b() {
    let expected = (BITS_B & MASK) as u128;
    assert_eq!(set_b().intersection(set_b()).bits(), expected);
}

#[test]
fn b128_intersection_b_c() {
    let expected = ((BITS_B & BITS_C) & MASK) as u128;
    assert_eq!(set_b().intersection(set_c()).bits(), expected);
    assert_eq!(set_c().intersection(set_b()).bits(), expected);
}

#[test]
fn b128_intersection_b_d() {
    let expected = ((BITS_B & BITS_D) & MASK) as u128;
    assert_eq!(set_b().intersection(set_d()).bits(), expected);
    assert_eq!(set_d().intersection(set_b()).bits(), expected);
}

#[test]
fn b128_intersection_c_c() {
    let expected = (BITS_C & MASK) as u128;
    assert_eq!(set_c().intersection(set_c()).bits(), expected);
}

#[test]
fn b128_intersection_c_d() {
    let expected = ((BITS_C & BITS_D) & MASK) as u128;
    assert_eq!(set_c().intersection(set_d()).bits(), expected);
    assert_eq!(set_d().intersection(set_c()).bits(), expected);
}

#[test]
fn b128_intersection_d_d() {
    let expected = (BITS_D & MASK) as u128;
    assert_eq!(set_d().intersection(set_d()).bits(), expected);
}

#[test]
fn b128_union_a_a() {
    let expected = (BITS_A & MASK) as u128;
    assert_eq!(set_a().union(set_a()).bits(), expected);
}

#[test]
fn b128_union_a_b() {
    let expected = ((BITS_A | BITS_B) & MASK) as u128;
    assert_eq!(set_a().union(set_b()).bits(), expected);
    assert_eq!(set_b().union(set_a()).bits(), expected);
}

#[test]
fn b128_union_a_c() {
    let expected = ((BITS_A | BITS_C) & MASK) as u128;
    assert_eq!(set_a().union(set_c()).bits(), expected);
    assert_eq!(set_c().union(set_a()).bits(), expected);
}

#[test]
fn b128_union_a_d() {
    let expected = ((BITS_A | BITS_D) & MASK) as u128;
    assert_eq!(set_a().union(set_d()).bits(), expected);
    assert_eq!(set_d().union(set_a()).bits(), expected);
}

#[test]
fn b128_union_b_b() {
    let expected = (BITS_B & MASK) as u128;
    assert_eq!(set_b().union(set_b()).bits(), expected);
}

#[test]
fn b128_union_b_c() {
    let expected = ((BITS_B | BITS_C) & MASK) as u128;
    assert_eq!(set_b().union(set_c()).bits(), expected);
    assert_eq!(set_c().union(set_b()).bits(), expected);
}

#[test]
fn b128_union_b_d() {
    let expected = ((BITS_B | BITS_D) & MASK) as u128;
    assert_eq!(set_b().union(set_d()).bits(), expected);
    assert_eq!(set_d().union(set_b()).bits(), expected);
}

#[test]
fn b128_union_c_c() {
    let expected = (BITS_C & MASK) as u128;
    assert_eq!(set_c().union(set_c()).bits(), expected);
}

#[test]
fn b128_union_c_d() {
    let expected = ((BITS_C | BITS_D) & MASK) as u128;
    assert_eq!(set_c().union(set_d()).bits(), expected);
    assert_eq!(set_d().union(set_c()).bits(), expected);
}

#[test]
fn b128_union_d_d() {
    let expected = (BITS_D & MASK) as u128;
    assert_eq!(set_d().union(set_d()).bits(), expected);
}

#[test]
fn b128_difference_a_a() {
    assert!(set_a().difference(set_a()).is_empty());
}

#[test]
fn b128_difference_a_b() {
    let expected = ((BITS_A & COMP_B) & MASK) as u128;
    assert_eq!(set_a().difference(set_b()).bits(), expected);
}

#[test]
fn b128_difference_a_c() {
    let expected = ((BITS_A & COMP_C) & MASK) as u128;
    assert_eq!(set_a().difference(set_c()).bits(), expected);
}

#[test]
fn b128_difference_a_d() {
    let expected = ((BITS_A & COMP_D) & MASK) as u128;
    assert_eq!(set_a().difference(set_d()).bits(), expected);
}

#[test]
fn b128_difference_b_a() {
    let expected = ((BITS_B & COMP_A) & MASK) as u128;
    assert_eq!(set_b().difference(set_a()).bits(), expected);
}

#[test]
fn b128_difference_b_b() {
    assert!(set_b().difference(set_b()).is_empty());
}

#[test]
fn b128_difference_b_c() {
    let expected = ((BITS_B & COMP_C) & MASK) as u128;
    assert_eq!(set_b().difference(set_c()).bits(), expected);
}

#[test]
fn b128_difference_b_d() {
    let expected = ((BITS_B & COMP_D) & MASK) as u128;
    assert_eq!(set_b().difference(set_d()).bits(), expected);
}

#[test]
fn b128_difference_c_a() {
    let expected = ((BITS_C & COMP_A) & MASK) as u128;
    assert_eq!(set_c().difference(set_a()).bits(), expected);
}

#[test]
fn b128_difference_c_b() {
    let expected = ((BITS_C & COMP_B) & MASK) as u128;
    assert_eq!(set_c().difference(set_b()).bits(), expected);
}

#[test]
fn b128_difference_c_c() {
    assert!(set_c().difference(set_c()).is_empty());
}

#[test]
fn b128_difference_c_d() {
    let expected = ((BITS_C & COMP_D) & MASK) as u128;
    assert_eq!(set_c().difference(set_d()).bits(), expected);
}

#[test]
fn b128_difference_d_a() {
    let expected = ((BITS_D & COMP_A) & MASK) as u128;
    assert_eq!(set_d().difference(set_a()).bits(), expected);
}

#[test]
fn b128_difference_d_b() {
    let expected = ((BITS_D & COMP_B) & MASK) as u128;
    assert_eq!(set_d().difference(set_b()).bits(), expected);
}

#[test]
fn b128_difference_d_c() {
    let expected = ((BITS_D & COMP_C) & MASK) as u128;
    assert_eq!(set_d().difference(set_c()).bits(), expected);
}

#[test]
fn b128_difference_d_d() {
    assert!(set_d().difference(set_d()).is_empty());
}

#[test]
fn b128_symmetric_difference_a_a() {
    assert!(set_a().symmetric_difference(set_a()).is_empty());
}

#[test]
fn b128_symmetric_difference_a_b() {
    let expected = ((BITS_A ^ BITS_B) & MASK) as u128;
    assert_eq!(set_a().symmetric_difference(set_b()).bits(), expected);
    assert_eq!(set_b().symmetric_difference(set_a()).bits(), expected);
}

#[test]
fn b128_symmetric_difference_a_c() {
    let expected = ((BITS_A ^ BITS_C) & MASK) as u128;
    assert_eq!(set_a().symmetric_difference(set_c()).bits(), expected);
    assert_eq!(set_c().symmetric_difference(set_a()).bits(), expected);
}

#[test]
fn b128_symmetric_difference_a_d() {
    let expected = ((BITS_A ^ BITS_D) & MASK) as u128;
    assert_eq!(set_a().symmetric_difference(set_d()).bits(), expected);
    assert_eq!(set_d().symmetric_difference(set_a()).bits(), expected);
}

#[test]
fn b128_symmetric_difference_b_b() {
    assert!(set_b().symmetric_difference(set_b()).is_empty());
}

#[test]
fn b128_symmetric_difference_b_c() {
    let expected = ((BITS_B ^ BITS_C) & MASK) as u128;
    assert_eq!(set_b().symmetric_difference(set_c()).bits(), expected);
    assert_eq!(set_c().symmetric_difference(set_b()).bits(), expected);
}

#[test]
fn b128_symmetric_difference_b_d() {
    let expected = ((BITS_B ^ BITS_D) & MASK) as u128;
    assert_eq!(set_b().symmetric_difference(set_d()).bits(), expected);
    assert_eq!(set_d().symmetric_difference(set_b()).bits(), expected);
}

#[test]
fn b128_symmetric_difference_c_c() {
    assert!(set_c().symmetric_difference(set_c()).is_empty());
}

#[test]
fn b128_symmetric_difference_c_d() {
    let expected = ((BITS_C ^ BITS_D) & MASK) as u128;
    assert_eq!(set_c().symmetric_difference(set_d()).bits(), expected);
    assert_eq!(set_d().symmetric_difference(set_c()).bits(), expected);
}

#[test]
fn b128_symmetric_difference_d_d() {
    assert!(set_d().symmetric_difference(set_d()).is_empty());
}

#[test]
fn b128_a_is_a() {
    assert!(set_a().is(set_a()));
}

#[test]
fn b128_b_is_b() {
    assert!(set_b().is(set_b()));
}

#[test]
fn b128_c_is_c() {
    assert!(set_c().is(set_c()));
}

#[test]
fn b128_d_is_d() {
    assert!(set_d().is(set_d()));
}

#[test]
fn b128_a_is_not_b() {
    assert!(set_a().is_not(set_b()));
    assert!(set_b().is_not(set_a()));
}

#[test]
fn b128_a_is_not_c() {
    assert!(set_a().is_not(set_c()));
    assert!(set_c().is_not(set_a()));
}

#[test]
fn b128_a_is_not_d() {
    assert!(set_a().is_not(set_d()));
    assert!(set_d().is_not(set_a()));
}

#[test]
fn b128_b_is_not_c() {
    assert!(set_b().is_not(set_c()));
    assert!(set_c().is_not(set_b()));
}

#[test]
fn b128_b_is_not_d() {
    assert!(set_b().is_not(set_d()));
    assert!(set_d().is_not(set_b()));
}

#[test]
fn b128_c_is_not_d() {
    assert!(set_c().is_not(set_d()));
    assert!(set_d().is_not(set_c()));
}

#[test]
fn b128_a_is_disjoint_from_complement() {
    assert!(set_a().is_disjoint(set_a().complement()));
}

#[test]
fn b128_a_isnt_disjoint_from_a() {
    assert!(!set_a().is_disjoint(set_a()));
}

#[test]
fn b128_a_isnt_disjoint_from_b() {
    assert!(!set_a().is_disjoint(set_b()));
    assert!(!set_b().is_disjoint(set_a()));
}

#[test]
fn b128_a_isnt_disjoint_from_c() {
    assert!(!set_a().is_disjoint(set_c()));
    assert!(!set_c().is_disjoint(set_a()));
}

#[test]
fn b128_a_isnt_disjoint_from_d() {
    assert!(!set_a().is_disjoint(set_d()));
    assert!(!set_d().is_disjoint(set_a()));
}

#[test]
fn b128_b_is_disjoint_from_complement() {
    assert!(set_b().is_disjoint(set_b().complement()));
}

#[test]
fn b128_b_isnt_disjoint_from_b() {
    assert!(!set_b().is_disjoint(set_b()));
}

#[test]
fn b128_b_isnt_disjoint_from_c() {
    assert!(!set_b().is_disjoint(set_c()));
    assert!(!set_c().is_disjoint(set_b()));
}

#[test]
fn b128_b_isnt_disjoint_from_d() {
    assert!(!set_b().is_disjoint(set_d()));
    assert!(!set_d().is_disjoint(set_b()));
}

#[test]
fn b128_c_is_disjoint_from_complement() {
    assert!(set_c().is_disjoint(set_c().complement()));
}

#[test]
fn b128_c_isnt_disjoint_from_c() {
    assert!(!set_c().is_disjoint(set_c()));
}

#[test]
fn b128_c_isnt_disjoint_from_d() {
    assert!(!set_c().is_disjoint(set_d()));
    assert!(!set_d().is_disjoint(set_c()));
}

#[test]
fn b128_d_is_disjoint_from_complement() {
    assert!(set_d().is_disjoint(set_d().complement()));
}

#[test]
fn b128_d_isnt_disjoint_from_d() {
    assert!(!set_d().is_disjoint(set_d()));
}

#[test]
fn b128_empty_is_subset_of_everything() {
    let empty = BitSet128::new();
    assert!(empty.is_subset(empty));
    assert!(empty.is_subset(BitSet128::all()));
    assert!(empty.is_subset(set_a()));
    assert!(empty.is_subset(set_b()));
    assert!(empty.is_subset(set_c()));
    assert!(empty.is_subset(set_d()));
}

#[test]
fn b128_all_isnt_subset_of_anything_but_itself() {
    let all = BitSet128::all();
    assert!(!all.is_subset(BitSet128::new()));
    assert!(all.is_subset(all));
    assert!(!all.is_subset(set_a()));
    assert!(!all.is_subset(set_b()));
    assert!(!all.is_subset(set_c()));
    assert!(!all.is_subset(set_d()));
}

#[test]
fn b128_a_isnt_subset_of_complement() {
    assert!(!set_a().is_subset(set_a().complement()));
}

#[test]
fn b128_a_is_subset_of_a() {
    assert!(set_a().is_subset(set_a()));
}

#[test]
fn b128_a_isnt_subset_of_b() {
    assert!(!set_a().is_subset(set_b()));
}

#[test]
fn b128_a_isnt_subset_of_c() {
    assert!(!set_a().is_subset(set_c()));
}

#[test]
fn b128_a_isnt_subset_of_d() {
    assert!(!set_a().is_subset(set_d()));
}

#[test]
fn b128_b_isnt_subset_of_complement() {
    assert!(!set_b().is_subset(set_b().complement()));
}

#[test]
fn b128_b_isnt_subset_of_a() {
    assert!(!set_b().is_subset(set_a()));
}

#[test]
fn b128_b_is_subset_of_b() {
    assert!(set_b().is_subset(set_b()));
}

#[test]
fn b128_b_isnt_subset_of_c() {
    assert!(!set_b().is_subset(set_c()));
}

#[test]
fn b128_b_isnt_subset_of_d() {
    assert!(!set_b().is_subset(set_d()));
}

#[test]
fn b128_c_isnt_subset_of_complement() {
    assert!(!set_c().is_subset(set_c().complement()));
}

#[test]
fn b128_c_isnt_subset_of_a() {
    assert!(!set_c().is_subset(set_a()));
}

#[test]
fn b128_c_isnt_subset_of_b() {
    assert!(!set_c().is_subset(set_b()));
}

#[test]
fn b128_c_is_subset_of_c() {
    assert!(set_c().is_subset(set_c()));
}

#[test]
fn b128_c_isnt_subset_of_d() {
    assert!(!set_c().is_subset(set_d()));
}

#[test]
fn b128_d_isnt_subset_of_complement() {
    assert!(!set_d().is_subset(set_d().complement()));
}

#[test]
fn b128_d_isnt_subset_of_a() {
    assert!(!set_d().is_subset(set_a()));
}

#[test]
fn b128_d_isnt_subset_of_b() {
    assert!(!set_d().is_subset(set_b()));
}

#[test]
fn b128_d_isnt_subset_of_c() {
    assert!(!set_d().is_subset(set_c()));
}

#[test]
fn b128_d_is_subset_of_d() {
    assert!(set_d().is_subset(set_d()));
}

#[test]
fn b128_debug_a() {
    let indices = below_capacity(&[
        0, 2, 3, 4, 5, 7, 8, 9, 11, 13, 15, 17, 18, 22, 23, 25, 29, 36, 37, 40, 41, 42, 43, 45, 46, 50, 51, 52, 55, 56, 57, 60, 61, 62, 64, 67, 68, 70, 73, 74, 75, 76, 77, 81, 82, 83, 84, 85, 90, 91, 97, 103, 106, 107, 108, 110, 111, 114, 115, 116, 118, 122, 124, 125, 126,
    ]);
    assert_eq!(indices_up(set_a()), indices);
    let expected: std::collections::BTreeSet<usize> = indices.iter().copied().collect();
    assert_eq!(set_a().debug_string(false), format!("{expected:?}"));
    assert_eq!(set_a().debug_string(true), format!("{expected:#?}"));
}

#[test]
fn b128_debug_b() {
    let indices = below_capacity(&[
        1, 3, 6, 8, 9, 11, 13, 14, 15, 16, 17, 18, 19, 20, 21, 25, 30, 37, 40, 41, 44, 47, 48, 49, 50, 51, 52, 53, 54, 56, 57, 58, 60, 61, 63, 66, 68, 69, 70, 71, 73, 74, 79, 80, 83, 84, 88, 89, 90, 92, 93, 94, 95, 97, 98, 103, 105, 106, 107, 110, 114, 115, 117, 118, 122, 126,
    ]);
    assert_eq!(indices_up(set_b()), indices);
    let expected: std::collections::BTreeSet<usize> = indices.iter().copied().collect();
    assert_eq!(set_b().debug_string(false), format!("{expected:?}"));
    assert_eq!(set_b().debug_string(true), format!("{expected:#?}"));
}

#[test]
fn b128_debug_c() {
    let indices = below_capacity(&[
        0, 3, 5, 6, 7, 9, 10, 12, 13, 14, 16, 17, 20, 21, 22, 24, 29, 31, 32, 33, 34, 37, 38, 39, 42, 43, 45, 46, 49, 50, 52, 53, 54, 55, 56, 57, 58, 60, 66, 69, 70, 72, 75, 76, 78, 79, 80, 82, 83, 85, 86, 87, 88, 89, 90, 93, 96, 97, 98, 101, 104, 106, 111, 114, 115, 116, 118, 120, 122, 123, 125, 126,
    ]);
    assert_eq!(indices_up(set_c()), indices);
    let expected: std::collections::BTreeSet<usize> = indices.iter().copied().collect();
    assert_eq!(set_c().debug_string(false), format!("{expected:?}"));
    assert_eq!(set_c().debug_string(true), format!("{expected:#?}"));
}

#[test]
fn b128_debug_d() {
    let indices = below_capacity(&[
        1, 2, 5, 7, 9, 11, 12, 17, 20, 26, 27, 28, 30, 33, 34, 35, 37, 38, 40, 41, 43, 45, 46, 47, 50, 56, 57, 58, 60, 64, 67, 72, 74, 78, 80, 83, 84, 86, 87, 91, 92, 93, 95, 96, 97, 98, 99, 103, 105, 106, 108, 111, 113, 115, 116, 117, 119, 120, 123, 127,
    ]);
    assert_eq!(indices_up(set_d()), indices);
    let expected: std::collections::BTreeSet<usize> = indices.iter().copied().collect();
    assert_eq!(set_d().debug_string(false), format!("{expected:?}"));
    assert_eq!(set_d().debug_string(true), format!("{expected:#?}"));
}

#[test]
fn b128_debug_of_small_sets() {
    assert_eq!(BitSet128::new().debug_string(false), "{}");
    assert_eq!(BitSet128::new().debug_string(true), "{}");
    assert_eq!(BitSet128::unit(0).debug_string(false), "{0}");
    assert_eq!(BitSet128::unit(0).debug_string(true), "{\n    0,\n}");
    assert_eq!(BitSet128::from_bits(0b101110).debug_string(false), "{1, 2, 3, 5}");
    assert_eq!(BitSet128::from_bits(0b101110).debug_string(true), "{\n    1,\n    2,\n    3,\n    5,\n}");
    let top = BitSet128::CAPACITY - 1;
    assert_eq!(BitSet128::unit(top).debug_string(false), format!("{{{top}}}"));
    let all: std::collections::BTreeSet<usize> = (0..BitSet128::CAPACITY).collect();
    assert_eq!(BitSet128::all().debug_string(false), format!("{all:?}"));
    assert_eq!(BitSet128::all().debug_string(true), format!("{all:#?}"));
    let set = set_b();
    assert_eq!(set.debug_string(false), set.debug_string(false));
    assert!(set == set_b());
}

#[test]
fn b128_algebra_with_itself() {
    for a in [set_a(), set_b(), set_c(), set_d(), BitSet128::new(), BitSet128::all()] {
        assert!(a.union(a) == a);
        assert!(a.intersection(a) == a);
        assert!(a.symmetric_difference(a).is_empty());
        assert!(a.difference(a).is_empty());
    }
}

#[test]
fn b128_algebra_is_commutative_and_associative() {
    let (a, b, c) = (set_a(), set_b(), set_c());
    assert!(a.intersection(b) == b.intersection(a));
    assert!(a.union(b) == b.union(a));
    assert!(a.intersection(b).intersection(c) == a.intersection(b.intersection(c)));
    assert!(a.union(b).union(c) == a.union(b.union(c)));
    assert!(a.difference(b) != b.difference(a));
    assert!(a.difference(a) == a.difference(a));
}

#[test]
fn b128_complement_twice() {
    for a in [set_a(), set_b(), set_c(), set_d()] {
        assert!(a.complement().complement() == a);
    }
    assert!(BitSet128::new().complement() == BitSet128::all());
    assert!(BitSet128::all().complement() == BitSet128::new());
}

#[test]
fn b128_subset_by_union_and_intersection() {
    let sets = [set_a(), set_b(), set_a().intersection(set_b()), BitSet128::new(), BitSet128::all()];
    for a in sets {
        for b in sets {
            assert_eq!(a.is_subset(b), a.union(b) == b);
            assert_eq!(a.is_subset(b), a.intersection(b) == a);
            assert_eq!(a.is_superset(b), b.is_subset(a));
            assert_eq!(a.is_strict_subset(b), a.is_subset(b) && a != b);
            assert_eq!(a.is_strict_superset(b), b.is_subset(a) && a != b);
        }
    }
    assert!(set_a().intersection(set_b()).is_strict_subset(set_a()));
    assert!(set_a().is_strict_superset(set_a().intersection(set_b())));
    assert!(!set_a().is_strict_subset(set_a()));
}

#[test]
fn b128_disjoint_from_itself_only_when_empty() {
    assert!(BitSet128::new().is_disjoint(BitSet128::new()));
    assert!(!BitSet128::unit(0).is_disjoint(BitSet128::unit(0)));
    assert!(BitSet128::unit(0).is_disjoint(BitSet128::unit(1)));
}

#[test]
fn b128_len_and_complement_fill_the_capacity() {
    for a in [set_a(), set_b(), set_c(), set_d(), BitSet128::new(), BitSet128::all()] {
        assert_eq!(a.len() + a.complement().len(), BitSet128::CAPACITY);
        assert_eq!(a.len(), a.bits().count_ones() as usize);
        assert_eq!(a.len(), indices_up(a).len());
    }
    assert_eq!(BitSet128::new().len(), 0);
    assert_eq!(BitSet128::all().len(), BitSet128::CAPACITY);
    assert_eq!(BitSet128::from_bits(0b101110).len(), 4);
}

#[test]
fn b128_unit_is_one_shifted() {
    for i in 0..BitSet128::CAPACITY {
        assert_eq!(BitSet128::unit(i).bits(), (1 as u128) << i);
        assert_eq!(BitSet128::unit(i).len(), 1);
        assert_eq!(indices_up(BitSet128::unit(i)), vec![i]);
    }
    assert!(BitSet128::unit(BitSet128::CAPACITY) == BitSet128::new());
    assert!(BitSet128::unit(BitSet128::CAPACITY + 1) == BitSet128::new());
    assert!(BitSet128::unit(usize::MAX) == BitSet128::new());
}

#[test]
fn b128_bits_round_trip() {
    for bits in [0 as u128, 1, 0b101110, u128::MAX, u128::MAX - 1] {
        assert_eq!(BitSet128::from_bits(bits).bits(), bits);
    }
    assert!(BitSet128::from_bits(set_a().bits()) == set_a());
    assert_eq!(BitSet128::from(5 as u128).bits(), 5);
    assert_eq!(u128::from(BitSet128::from_bits(5)), 5);
    assert!(BitSet128::default() == BitSet128::new());
}

#[test]
fn b128_contains_and_get() {
    let set = BitSet128::from_bits(0b101110);
    let members = [1usize, 2, 3, 5];
    for i in 0..BitSet128::CAPACITY {
        assert_eq!(set.contains(i), members.contains(&i));
        assert_eq!(set.get(i), members.contains(&i));
    }
    assert!(!set.contains(BitSet128::CAPACITY));
    assert!(!BitSet128::all().contains(BitSet128::CAPACITY));
    assert!(!BitSet128::all().get(1_000_000));
    assert!(!BitSet128::all().contains(usize::MAX));
    assert!(BitSet128::all().contains(BitSet128::CAPACITY - 1));
}

#[test]
fn b128_min_and_max_index() {
    let set = BitSet128::from_bits(0b101110);
    assert_eq!(set.min_index(), 1);
    assert_eq!(set.max_index(), 5);
    assert_eq!(set.max_index_checked(), Some(5));
    assert_eq!(BitSet128::new().min_index(), BitSet128::CAPACITY);
    assert_eq!(BitSet128::new().max_index_checked(), None);
    assert_eq!(BitSet128::all().min_index(), 0);
    assert_eq!(BitSet128::all().max_index(), BitSet128::CAPACITY - 1);
    for i in 0..BitSet128::CAPACITY {
        assert_eq!(BitSet128::unit(i).min_index(), i);
        assert_eq!(BitSet128::unit(i).max_index(), i);
        assert_eq!(BitSet128::unit(i).max_index_checked(), Some(i));
    }
}

#[test]
fn b128_masks() {
    let set = BitSet128::from_bits(0b101110);
    assert_eq!(set.masked_0_to_i(3).bits(), 0b000110);
    assert_eq!(set.masked_i_to_128(3).bits(), 0b101000);
    assert_eq!(set.cleared_0_to_i(3).bits(), 0b101000);
    assert_eq!(set.cleared_i_to_128(3).bits(), 0b000110);
    assert!(set.masked_0_to_i(0) == BitSet128::new());
    assert!(set.masked_i_to_128(0) == set);
    assert!(set.cleared_0_to_i(0) == set);
    assert!(set.cleared_i_to_128(0) == BitSet128::new());
    let top = BitSet128::CAPACITY - 1;
    assert!(BitSet128::all().masked_0_to_i(top) == BitSet128::all().difference(BitSet128::unit(top)));
    assert!(BitSet128::all().masked_i_to_128(top) == BitSet128::unit(top));
    assert!(BitSet128::all().cleared_0_to_i(top) == BitSet128::unit(top));
    assert!(BitSet128::all().cleared_i_to_128(top) == BitSet128::all().difference(BitSet128::unit(top)));
    let mut a = set;
    a.mask_0_to_i(2);
    assert_eq!(a.bits(), 0b10);
    let mut b = set;
    b.mask_i_to_128(2);
    assert_eq!(b.bits(), 0b101100);
    let mut c = set;
    c.clear_0_to_i(2);
    assert_eq!(c.bits(), 0b101100);
    let mut d = set;
    d.clear_i_to_128(2);
    assert_eq!(d.bits(), 0b10);
    let mut e = set;
    e.clear();
    assert!(e == BitSet128::new());
}

#[test]
fn b128_insert_reports_new_members() {
    let mut set = BitSet128::new();
    assert!(set.insert(3));
    assert!(set.contains(3));
    assert!(!set.insert(3));
    assert_eq!(set.bits(), 0b1000);
    assert!(!set.insert(BitSet128::CAPACITY));
    assert!(!set.insert(1_000_000));
    assert_eq!(set.bits(), 0b1000);
    let mut quiet = BitSet128::new();
    quiet.insert_quiet(3);
    quiet.insert_quiet(BitSet128::CAPACITY);
    assert!(quiet == set);
    for i in 0..BitSet128::CAPACITY {
        let mut s = set_a();
        let was = s.contains(i);
        assert_eq!(s.insert(i), !was);
        assert!(s.contains(i));
    }
}

#[test]
fn b128_remove_reports_old_members() {
    let mut set = BitSet128::from_bits(0b1010);
    assert!(set.remove(3));
    assert!(!set.contains(3));
    assert!(!set.remove(3));
    assert_eq!(set.bits(), 0b10);
    assert!(!set.remove(BitSet128::CAPACITY));
    assert!(!set.remove(1_000_000));
    assert_eq!(set.bits(), 0b10);
    let mut quiet = BitSet128::from_bits(0b1010);
    quiet.remove_quiet(3);
    quiet.remove_quiet(BitSet128::CAPACITY);
    assert!(quiet == set);
    for i in 0..BitSet128::CAPACITY {
        let mut s = set_a();
        let was = s.contains(i);
        assert_eq!(s.remove(i), was);
        assert!(!s.contains(i));
    }
}

#[test]
fn b128_replace_sets_the_requested_bit() {
    for i in 0..BitSet128::CAPACITY {
        for bit in [false, true] {
            let mut quiet = set_b();
            quiet.replace_quiet(i, bit);
            assert_eq!(quiet.contains(i), bit);
            let mut loud = set_b();
            assert_eq!(loud.replace(i, bit), set_b().contains(i));
            assert!(loud == quiet);
            for j in 0..BitSet128::CAPACITY {
                if j != i {
                    assert_eq!(quiet.contains(j), set_b().contains(j));
                }
            }
        }
    }
}

#[test]
fn b128_replace_out_of_range() {
    let mut set = set_c();
    assert!(set.replace(BitSet128::CAPACITY, true));
    assert!(set == set_c());
    assert!(!set.replace(BitSet128::CAPACITY, false));
    assert!(set == set_c());
    set.replace_quiet(1_000_000, true);
    assert!(set == set_c());
    assert!(!set.contains(1_000_000));
}

#[test]
fn b128_index_orders() {
    for a in [set_a(), set_b(), set_c(), set_d(), BitSet128::new(), BitSet128::all()] {
        let up = indices_up(a);
        let mut down = indices_down(a);
        assert!(up.windows(2).all(|pair| pair[0] < pair[1]));
        down.reverse();
        assert_eq!(up, down);
        assert_eq!(up.len(), a.len());
        assert!(up.iter().all(|&i| a.contains(i)));
    }
    assert_eq!(indices_up(BitSet128::from_bits(0b101110)), vec![1, 2, 3, 5]);
    assert_eq!(indices_down(BitSet128::from_bits(0b101110)), vec![5, 3, 2, 1]);
    assert_eq!(indices_up(BitSet128::unit(BitSet128::CAPACITY - 1)), vec![BitSet128::CAPACITY - 1]);
    assert_eq!(indices_down(BitSet128::unit(0)), vec![0]);
    assert_eq!(indices_down(BitSet128::all()).first(), Some(&(BitSet128::CAPACITY - 1)));
}

#[test]
fn b128_bit_orders() {
    for a in [set_a(), set_b(), set_c(), set_d(), BitSet128::new(), BitSet128::all()] {
        let up = bits_up(a);
        let mut down = bits_down(a);
        assert_eq!(up.len(), BitSet128::CAPACITY);
        assert_eq!(down.len(), BitSet128::CAPACITY);
        for (i, &bit) in up.iter().enumerate() {
            assert_eq!(bit, a.contains(i));
        }
        down.reverse();
        assert_eq!(up, down);
    }
}

#[test]
fn b128_iterators_leave_the_set_alone() {
    let set = set_d();
    let mut indices = set.iter_indices::<Ascending>();
    let mut bits = set.iter_bits::<Descending>();
    let _ = indices.next();
    let _ = bits.next();
    assert!(set == set_d());
    let mut again = set.iter_indices::<Ascending>();
    assert_eq!(again.next(), Some(set.min_index()));
}

#[test]
fn b128_operators() {
    let (a, b) = (set_a(), set_b());
    assert!(a & b == a.intersection(b));
    assert!(a | b == a.union(b));
    assert!(a ^ b == a.symmetric_difference(b));
    assert!(a - b == a.difference(b));
    assert!(!a == a.complement());
    assert!(-a == a.complement());
    let mut c = a;
    c &= b;
    assert!(c == a.intersection(b));
    let mut d = a;
    d |= b;
    assert!(d == a.union(b));
    let mut e = a;
    e ^= b;
    assert!(e == a.symmetric_difference(b));
    let mut f = a;
    f -= b;
    assert!(f == a.difference(b));
}
