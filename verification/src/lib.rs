//! Fixed-capacity bit sets, one type per machine-word width.
//!
//! Each set is a single unsigned integer: bit `i`, counted from the least
//! significant, says whether `i` is a member. Every type offers the set
//! algebra, range masks, in-place mutation, and iterators over its members
//! and over its bits in either direction.
//!
//! The contracts speak of a set through its view, the mathematical set of
//! its members, and through its bits. [`bits`] says how the two relate and
//! [`order`] in what order the members are listed; each of [`b8`], [`b16`],
//! [`b32`], [`b64`], [`b128`] and [`bsize`] holds the set of one width with
//! its iterators and the laws of its algebra: the widths share their model
//! and are each written out in full, since the facts about the bitwise
//! operators are proved width by width. [`render`] writes a set out as
//! the list of its indices. [`extras`] and [`uint`] decide what a
//! declaration of a further bit set type means. What is taken on trust
//! from the standard library stands in [`num`] and [`text`].

use vstd::prelude::*;

pub mod b128;
pub mod b16;
pub mod b32;
pub mod b64;
pub mod b8;
pub mod bits;
pub mod bsize;
pub mod extras;
pub mod num;
pub mod order;
pub mod render;
pub mod text;
pub mod uint;

pub use b128::{BitSet128, BitSetIndices128, BitSetIter128};
pub use b16::{BitSet16, BitSetIndices16, BitSetIter16};
pub use b32::{BitSet32, BitSetIndices32, BitSetIter32};
pub use b64::{BitSet64, BitSetIndices64, BitSetIter64};
pub use b8::{BitSet8, BitSetIndices8, BitSetIter8};
pub use bsize::{BitSetIndicesSize, BitSetIterSize, BitSetSize};
pub use extras::{Extras, ExtrasError, Plan, PlanError, Specifier};

verus! {

/// A direction in which an iterator walks the positions of a set.
pub trait Direction {
    /// Whether the walk starts at position 0.
    spec fn ascending() -> bool;
}

/// An iteration order that starts with the smallest end/items and ends with
/// the largest.
pub struct Ascending;

/// An iteration order that starts with the largest end/items and ends with
/// the smallest.
pub struct Descending;

impl Direction for Ascending {
    open spec fn ascending() -> bool {
        true
    }
}

impl Direction for Descending {
    open spec fn ascending() -> bool {
        false
    }
}

} // verus!
