//! The integer behind a bit set type, told from the names in its
//! declaration.
//!
//! A bit set is declared as a tuple struct of one unsigned integer, named
//! `BitSet` and then its size. The functions here check such a declaration
//! and read from its names what the type's methods are called after.

use crate::text::{parse_u128, parsed_u128, same_text, strip_prefix};
use vstd::prelude::*;
use vstd::string::StringExecFns;

verus! {

/// The kind of item that a declaration declares.
#[derive(Clone, Copy, PartialEq, Eq, Debug, Structural)]
pub enum DataKind {
    Struct,
    Enum,
    Union,
}

/// Why a declaration cannot be a bit set.
#[derive(Clone, Copy, PartialEq, Eq, Debug, Structural)]
pub enum ShapeError {
    /// The item is an enum or a union, not a struct.
    NotAStruct { found: DataKind },
    /// The struct has `found` fields, not one.
    FieldCount { found: usize },
    /// The one field has a name: the struct is no tuple struct.
    NamedField,
}

/// Checks that a declaration has the shape of a bit set: a struct, of one
/// field, which has no name. Returns the position of the field that holds
/// the integer.
pub fn get_uint(kind: DataKind, field_count: usize, first_field_named: bool) -> (r: Result<
    usize,
    ShapeError,
>)
    ensures
        r == if kind != DataKind::Struct {
            Err::<usize, ShapeError>(ShapeError::NotAStruct { found: kind })
        } else if field_count != 1 {
            Err(ShapeError::FieldCount { found: field_count })
        } else if first_field_named {
            Err(ShapeError::NamedField)
        } else {
            Ok(0usize)
        },
{
    match kind {
        DataKind::Struct => {},
        DataKind::Enum => {
            return Err(ShapeError::NotAStruct { found: DataKind::Enum });
        },
        DataKind::Union => {
            return Err(ShapeError::NotAStruct { found: DataKind::Union });
        },
    }
    if field_count != 1 {
        return Err(ShapeError::FieldCount { found: field_count });
    }
    if first_field_named {
        return Err(ShapeError::NamedField);
    }
    Ok(0)
}

/// The number after which the range methods of a bit set over `uint_repr`
/// are named.
pub open spec fn spec_uint_size(uint_repr: Seq<char>) -> Option<usize> {
    if uint_repr == "usize"@ {
        Some((usize::BITS / 8) as usize)
    } else if "u"@.is_prefix_of(uint_repr) {
        match parsed_u128(uint_repr.skip(1)) {
            Some(number) if number <= usize::MAX => Some(number as usize),
            _ => None,
        }
    } else {
        None
    }
}

/// The number after which the range methods of a bit set over the integer
/// named `uint_repr` are named: the size in bytes for `usize`, for any
/// other name the number that follows its `u`. `None` where the name is
/// not of that form, or the number is too large for a `usize`.
pub fn uint_size(uint_repr: &str) -> (r: Option<usize>)
    ensures
        r == spec_uint_size(uint_repr@),
{
    if same_text(uint_repr, "usize") {
        Some((usize::BITS / 8) as usize)
    } else {
        match strip_prefix(uint_repr, "u") {
            Some(digits) => {
                proof {
                    reveal_strlit("u");
                    assert(uint_repr@.skip(1) =~= digits@);
                    assert("u"@.is_prefix_of(uint_repr@));
                }
                match parse_u128(digits) {
                    Some(number) => if number <= usize::MAX as u128 {
                        Some(number as usize)
                    } else {
                        None
                    },
                    None => None,
                }
            },
            None => None,
        }
    }
}

/// The name of the signed integer as wide as the unsigned one that
/// `uint_repr` names.
pub open spec fn spec_signed_counterpart(uint_repr: Seq<char>) -> Option<Seq<char>> {
    if uint_repr == "u8"@ {
        Some("i8"@)
    } else if uint_repr == "u16"@ {
        Some("i16"@)
    } else if uint_repr == "u32"@ {
        Some("i32"@)
    } else if uint_repr == "u64"@ {
        Some("i64"@)
    } else if uint_repr == "u128"@ {
        Some("i128"@)
    } else if uint_repr == "usize"@ {
        Some("isize"@)
    } else {
        None
    }
}

/// The name of the signed integer as wide as the unsigned one that
/// `uint_repr` names, or `None` where it names no primitive unsigned
/// integer.
pub fn signed_counterpart(uint_repr: &str) -> (r: Option<&'static str>)
    ensures
        r is Some == spec_signed_counterpart(uint_repr@) is Some,
        r matches Some(name) ==> spec_signed_counterpart(uint_repr@) == Some(name@),
{
    if same_text(uint_repr, "u8") {
        Some("i8")
    } else if same_text(uint_repr, "u16") {
        Some("i16")
    } else if same_text(uint_repr, "u32") {
        Some("i32")
    } else if same_text(uint_repr, "u64") {
        Some("i64")
    } else if same_text(uint_repr, "u128") {
        Some("i128")
    } else if same_text(uint_repr, "usize") {
        Some("isize")
    } else {
        None
    }
}

/// What follows `BitSet` in the name of a bit set type: the suffix that
/// the names of its iterators end in. `None` where the name does not start
/// with `BitSet`.
pub fn type_suffix<'a>(name: &'a str) -> (r: Option<&'a str>)
    ensures
        match r {
            Some(suffix) => name@ == "BitSet"@ + suffix@,
            None => !"BitSet"@.is_prefix_of(name@),
        },
{
    strip_prefix(name, "BitSet")
}

/// The segments from `from` on, written with `::` between them.
pub open spec fn joined(segments: Seq<String>, from: int) -> Seq<char>
    decreases segments.len() - from,
{
    if from >= segments.len() {
        Seq::empty()
    } else if from + 1 == segments.len() {
        segments[from]@
    } else {
        segments[from]@ + "::"@ + joined(segments, from + 1)
    }
}

/// The segments up to, not including, `to`, each followed by `::` but the
/// last of all.
pub open spec fn joined_front(segments: Seq<String>, to: int) -> Seq<char>
    decreases to,
{
    if to <= 0 {
        Seq::empty()
    } else if to == segments.len() {
        joined_front(segments, to - 1) + segments[to - 1]@
    } else {
        joined_front(segments, to - 1) + segments[to - 1]@ + "::"@
    }
}

proof fn lemma_joined_front(segments: Seq<String>, from: int)
    requires
        0 <= from <= segments.len(),
    ensures
        joined_front(segments, from) + joined(segments, from) == joined(segments, 0),
    decreases from,
{
    if from > 0 {
        lemma_joined_front(segments, from - 1);
        let front = joined_front(segments, from - 1);
        let here = segments[from - 1]@;
        if from == segments.len() {
            assert(joined(segments, from) =~= Seq::<char>::empty());
            assert((front + here) + joined(segments, from) =~= front + joined(segments, from - 1));
        } else {
            assert((front + here + "::"@) + joined(segments, from) =~= front + (here + "::"@
                + joined(segments, from)));
        }
    } else {
        assert(joined_front(segments, 0) + joined(segments, 0) =~= joined(segments, 0));
    }
}

/// Writes the path made of `segments`: their names with `::` between them.
pub fn repr_path(segments: &Vec<String>) -> (r: String)
    ensures
        r@ == joined(segments@, 0),
{
    let mut out = String::from_str("");
    proof {
        reveal_strlit("");
        assert(out@ =~= joined_front(segments@, 0));
    }
    let mut i: usize = 0;
    while i < segments.len()
        invariant
            i <= segments@.len(),
            out@ == joined_front(segments@, i as int),
        decreases segments@.len() - i,
    {
        out.append(segments[i].as_str());
        if i + 1 < segments.len() {
            out.append("::");
        }
        i += 1;
    }
    proof {
        lemma_joined_front(segments@, segments@.len() as int);
        assert(joined(segments@, segments@.len() as int) =~= Seq::<char>::empty());
        assert(out@ + Seq::<char>::empty() =~= out@);
    }
    out
}

} // verus!
