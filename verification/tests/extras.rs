// The description of a bit set type: its specifiers and its integer.
use rose_bitset::extras::{Extras, ExtrasError, PlanError, Specifier};
use rose_bitset::uint::{get_uint, repr_path, signed_counterpart, type_suffix, uint_size, DataKind, ShapeError};

fn names(list: &[&str]) -> Vec<String> {
    list.iter().map(|name| name.to_string()).collect()
}

fn parts(extras: &Extras) -> (bool, bool, bool, bool) {
    (extras.debug(), extras.indices(), extras.iter(), extras.tests())
}

#[test]
fn default_extras_have_nothing_to_implement() {
    let extras = Extras::default();
    assert!(extras.nothing_to_implement());
    assert_eq!(parts(&extras), (false, false, false, false));
}

#[test]
fn empty_list_gives_no_part() {
    let extras = Extras::parse(&names(&[])).unwrap();
    assert!(extras.nothing_to_implement());
}

#[test]
fn full_list_gives_every_part() {
    let extras = Extras::parse(&names(&["debug", "indices", "iter", "tests"])).unwrap();
    assert_eq!(parts(&extras), (true, true, true, true));
    assert!(!extras.nothing_to_implement());
}

#[test]
fn order_of_specifiers_does_not_matter() {
    let extras = Extras::parse(&names(&["tests", "indices", "debug"])).unwrap();
    assert_eq!(parts(&extras), (true, true, false, true));
    let extras = Extras::parse(&names(&["indices", "debug"])).unwrap();
    assert_eq!(parts(&extras), (true, true, false, false));
}

#[test]
fn single_specifiers() {
    assert_eq!(parts(&Extras::parse(&names(&["indices"])).unwrap()), (false, true, false, false));
    assert_eq!(parts(&Extras::parse(&names(&["iter"])).unwrap()), (false, false, true, false));
    assert_eq!(parts(&Extras::parse(&names(&["tests"])).unwrap()), (false, false, false, true));
    assert!(!Extras::parse(&names(&["tests"])).unwrap().nothing_to_implement());
}

#[test]
fn duplicate_specifier_is_refused_where_it_recurs() {
    let error = Extras::parse(&names(&["iter", "debug", "iter", "indices"])).err().unwrap();
    assert_eq!(error, ExtrasError::Duplicate { index: 2, specifier: Specifier::Iter });
    assert_eq!(error.index(), 2);
    assert_eq!(error.message(), "duplicate of `iter` specifier");
    let error = Extras::parse(&names(&["debug", "debug"])).err().unwrap();
    assert_eq!(error, ExtrasError::Duplicate { index: 1, specifier: Specifier::Debug });
    assert_eq!(error.message(), "duplicate of `debug` specifier");
    let error = Extras::parse(&names(&["indices", "indices"])).err().unwrap();
    assert_eq!(error.message(), "duplicate of `indices` specifier");
    let error = Extras::parse(&names(&["tests", "iter", "tests"])).err().unwrap();
    assert_eq!(error, ExtrasError::Duplicate { index: 2, specifier: Specifier::Tests });
    assert_eq!(error.message(), "duplicate of `tests` specifier");
}

#[test]
fn unknown_specifier_is_refused() {
    let error = Extras::parse(&names(&["indices", "Debug"])).err().unwrap();
    assert_eq!(error, ExtrasError::Unknown { index: 1 });
    assert_eq!(error.index(), 1);
    assert_eq!(error.message(), "unknown specifier");
    assert_eq!(Extras::parse(&names(&[""])).err(), Some(ExtrasError::Unknown { index: 0 }));
}

#[test]
fn first_fault_decides() {
    let error = Extras::parse(&names(&["iter", "nonsense", "iter"])).err().unwrap();
    assert_eq!(error, ExtrasError::Unknown { index: 1 });
    let error = Extras::parse(&names(&["iter", "iter", "nonsense"])).err().unwrap();
    assert_eq!(error, ExtrasError::Duplicate { index: 1, specifier: Specifier::Iter });
    let error = Extras::parse(&names(&["debug", "nonsense"])).err().unwrap();
    assert_eq!(error, ExtrasError::Unknown { index: 1 });
}

#[test]
fn debug_needs_indices() {
    let error = Extras::parse(&names(&["iter", "debug", "tests"])).err().unwrap();
    assert_eq!(error, ExtrasError::DebugWithoutIndices { index: 1 });
    assert_eq!(error.index(), 1);
    assert_eq!(error.message(), "cannot implement `Debug` without the `iter_indices` method");
    assert!(Extras::parse(&names(&["debug", "indices"])).is_ok());
}

#[test]
fn specifier_names_round_trip() {
    for part in [Specifier::Debug, Specifier::Indices, Specifier::Iter, Specifier::Tests] {
        assert_eq!(Specifier::from_name(part.name()), Some(part));
    }
    assert_eq!(Specifier::Debug.name(), "debug");
    assert_eq!(Specifier::Indices.name(), "indices");
    assert_eq!(Specifier::Iter.name(), "iter");
    assert_eq!(Specifier::Tests.name(), "tests");
    assert_eq!(Specifier::from_name("test"), None);
    assert_eq!(Specifier::from_name("iter "), None);
}

#[test]
fn shape_of_a_bit_set() {
    assert_eq!(get_uint(DataKind::Struct, 1, false), Ok(0));
    assert_eq!(get_uint(DataKind::Enum, 1, false), Err(ShapeError::NotAStruct { found: DataKind::Enum }));
    assert_eq!(get_uint(DataKind::Union, 0, true), Err(ShapeError::NotAStruct { found: DataKind::Union }));
    assert_eq!(get_uint(DataKind::Struct, 0, false), Err(ShapeError::FieldCount { found: 0 }));
    assert_eq!(get_uint(DataKind::Struct, 2, true), Err(ShapeError::FieldCount { found: 2 }));
    assert_eq!(get_uint(DataKind::Struct, 1, true), Err(ShapeError::NamedField));
}

#[test]
fn size_in_the_name_of_the_integer() {
    assert_eq!(uint_size("u8"), Some(8));
    assert_eq!(uint_size("u16"), Some(16));
    assert_eq!(uint_size("u32"), Some(32));
    assert_eq!(uint_size("u64"), Some(64));
    assert_eq!(uint_size("u128"), Some(128));
    assert_eq!(uint_size("usize"), Some(core::mem::size_of::<usize>()));
    assert_eq!(uint_size("i8"), None);
    assert_eq!(uint_size("u"), None);
    assert_eq!(uint_size("uint"), None);
    assert_eq!(uint_size(""), None);
    assert_eq!(uint_size("8"), None);
    assert_eq!(uint_size("u+8"), Some(8));
    assert_eq!(uint_size("u008"), Some(8));
    assert_eq!(uint_size("u-8"), None);
    assert_eq!(uint_size("u8 "), None);
    assert_eq!(uint_size("u340282366920938463463374607431768211455"), None);
    assert_eq!(uint_size("u340282366920938463463374607431768211456"), None);
    assert_eq!(uint_size("u18446744073709551615"), "18446744073709551615".parse::<usize>().ok());
}

#[test]
fn signed_counterparts() {
    assert_eq!(signed_counterpart("u8"), Some("i8"));
    assert_eq!(signed_counterpart("u16"), Some("i16"));
    assert_eq!(signed_counterpart("u32"), Some("i32"));
    assert_eq!(signed_counterpart("u64"), Some("i64"));
    assert_eq!(signed_counterpart("u128"), Some("i128"));
    assert_eq!(signed_counterpart("usize"), Some("isize"));
    assert_eq!(signed_counterpart("i8"), None);
    assert_eq!(signed_counterpart("u24"), None);
    assert_eq!(signed_counterpart(""), None);
}

#[test]
fn suffix_of_the_type_name() {
    assert_eq!(type_suffix("BitSet8"), Some("8"));
    assert_eq!(type_suffix("BitSetSize"), Some("Size"));
    assert_eq!(type_suffix("BitSet"), Some(""));
    assert_eq!(type_suffix("Bitset8"), None);
    assert_eq!(type_suffix("MyBitSet8"), None);
}

#[test]
fn paths_are_joined_by_double_colons() {
    assert_eq!(repr_path(&names(&[])), "");
    assert_eq!(repr_path(&names(&["u8"])), "u8");
    assert_eq!(repr_path(&names(&["core", "primitive", "u8"])), "core::primitive::u8");
}

#[test]
fn nothing_asked_nothing_planned() {
    let extras = Extras::default();
    assert!(extras.plan("BitSet8", "u8").unwrap().is_none());
    assert!(extras.plan("Mask", "f32").unwrap().is_none());
}

#[test]
fn plan_of_every_part() {
    let extras = Extras::parse(&names(&["debug", "indices", "iter", "tests"])).unwrap();
    let plan = extras.plan("BitSet16", "u16").unwrap().unwrap();
    assert_eq!(plan.suffix, "16");
    assert!(plan.debug);
    assert!(plan.indices);
    assert_eq!(plan.iter, Some("i16"));
    assert!(plan.tests);
    let plan = extras.plan("BitSetSize", "usize").unwrap().unwrap();
    assert_eq!(plan.suffix, "Size");
    assert_eq!(plan.iter, Some("isize"));
}

#[test]
fn plan_without_the_bit_iterator_takes_any_integer() {
    let extras = Extras::parse(&names(&["indices", "tests"])).unwrap();
    let plan = extras.plan("BitSet24", "u24").unwrap().unwrap();
    assert_eq!(plan.suffix, "24");
    assert!(!plan.debug);
    assert!(plan.indices);
    assert_eq!(plan.iter, None);
    assert!(plan.tests);
}

#[test]
fn plan_refuses_a_bad_name() {
    let extras = Extras::parse(&names(&["iter"])).unwrap();
    assert_eq!(extras.plan("Flags", "u8").err(), Some(PlanError::BadName));
    assert_eq!(extras.plan("bitset8", "u24").err(), Some(PlanError::BadName));
}

#[test]
fn plan_refuses_the_bit_iterator_over_other_integers() {
    let extras = Extras::parse(&names(&["iter"])).unwrap();
    assert_eq!(extras.plan("BitSet24", "u24").err(), Some(PlanError::NotPrimitive));
    assert_eq!(extras.plan("BitSet8", "i8").err(), Some(PlanError::NotPrimitive));
}
