//! The choices behind a bit set type: which optional parts it is given, and
//! which unsigned integer it is made of.
//!
//! A bit set type is described by a list of specifiers (`debug`, `indices`,
//! `iter`, `tests`) and by the name of its integer. This module decides
//! what such a description means and when it is refused. It reads plain
//! names; whoever holds the description in another form hands the names in
//! and maps a refusal back by its position.

use crate::text::same_text;
use crate::uint::{signed_counterpart, spec_signed_counterpart, type_suffix};
use vstd::prelude::*;

verus! {

/// One optional part of a bit set type.
#[derive(Clone, Copy, PartialEq, Eq, Debug, Structural)]
pub enum Specifier {
    /// Rendering the set as the list of its indices.
    Debug,
    /// The iterator over the indices of the set bits.
    Indices,
    /// The iterator over the bits.
    Iter,
    /// The tests of the type.
    Tests,
}

impl Specifier {
    /// The name by which a description asks for the part.
    pub open spec fn spec_name(self) -> Seq<char> {
        match self {
            Specifier::Debug => "debug"@,
            Specifier::Indices => "indices"@,
            Specifier::Iter => "iter"@,
            Specifier::Tests => "tests"@,
        }
    }

    /// The part that `name` asks for, if it asks for one.
    pub open spec fn spec_from_name(name: Seq<char>) -> Option<Specifier> {
        if name == "debug"@ {
            Some(Specifier::Debug)
        } else if name == "indices"@ {
            Some(Specifier::Indices)
        } else if name == "iter"@ {
            Some(Specifier::Iter)
        } else if name == "tests"@ {
            Some(Specifier::Tests)
        } else {
            None
        }
    }

    /// The name by which a description asks for the part.
    pub fn name(self) -> (r: &'static str)
        ensures
            r@ == self.spec_name(),
    {
        match self {
            Specifier::Debug => "debug",
            Specifier::Indices => "indices",
            Specifier::Iter => "iter",
            Specifier::Tests => "tests",
        }
    }

    /// The part that `name` asks for, if it asks for one.
    pub fn from_name(name: &str) -> (r: Option<Specifier>)
        ensures
            r == Self::spec_from_name(name@),
    {
        if same_text(name, "debug") {
            Some(Specifier::Debug)
        } else if same_text(name, "indices") {
            Some(Specifier::Indices)
        } else if same_text(name, "iter") {
            Some(Specifier::Iter)
        } else if same_text(name, "tests") {
            Some(Specifier::Tests)
        } else {
            None
        }
    }

    /// Every part is found again by its own name.
    pub proof fn lemma_name_round_trip(self)
        ensures
            Self::spec_from_name(self.spec_name()) == Some(self),
    {
        reveal_strlit("debug");
        reveal_strlit("indices");
        reveal_strlit("iter");
        reveal_strlit("tests");
        assert("debug"@.len() == 5);
        assert("indices"@.len() == 7);
        assert("iter"@.len() == 4);
        assert("tests"@.len() == 5);
        assert("debug"@[0] == 'd');
        assert("tests"@[0] == 't');
    }
}

/// Why a list of specifiers is refused. `index` is the position, in the
/// list, of the specifier that is at fault.
#[derive(Clone, Copy, PartialEq, Eq, Debug, Structural)]
pub enum ExtrasError {
    /// The specifier at `index` asks for a part that an earlier one asked
    /// for already.
    Duplicate { index: usize, specifier: Specifier },
    /// The name at `index` asks for no part.
    Unknown { index: usize },
    /// The list asks for `debug`, at `index`, and not for `indices`, which
    /// the rendering is made of.
    DebugWithoutIndices { index: usize },
}

impl ExtrasError {
    /// The position of the specifier that is at fault.
    pub fn index(&self) -> (r: usize)
        ensures
            r == match *self {
                ExtrasError::Duplicate { index, .. } => index,
                ExtrasError::Unknown { index } => index,
                ExtrasError::DebugWithoutIndices { index } => index,
            },
    {
        match *self {
            ExtrasError::Duplicate { index, .. } => index,
            ExtrasError::Unknown { index } => index,
            ExtrasError::DebugWithoutIndices { index } => index,
        }
    }

    /// The words in which the refusal is reported.
    pub open spec fn spec_message(&self) -> Seq<char> {
        match *self {
            ExtrasError::Duplicate { specifier: Specifier::Debug, .. } => {
                "duplicate of `debug` specifier"@
            },
            ExtrasError::Duplicate { specifier: Specifier::Indices, .. } => {
                "duplicate of `indices` specifier"@
            },
            ExtrasError::Duplicate { specifier: Specifier::Iter, .. } => {
                "duplicate of `iter` specifier"@
            },
            ExtrasError::Duplicate { specifier: Specifier::Tests, .. } => {
                "duplicate of `tests` specifier"@
            },
            ExtrasError::Unknown { .. } => "unknown specifier"@,
            ExtrasError::DebugWithoutIndices { .. } => {
                "cannot implement `Debug` without the `iter_indices` method"@
            },
        }
    }

    /// The words in which the refusal is reported.
    pub fn message(&self) -> (r: &'static str)
        ensures
            r@ == self.spec_message(),
    {
        match *self {
            ExtrasError::Duplicate { specifier: Specifier::Debug, .. } => {
                "duplicate of `debug` specifier"
            },
            ExtrasError::Duplicate { specifier: Specifier::Indices, .. } => {
                "duplicate of `indices` specifier"
            },
            ExtrasError::Duplicate { specifier: Specifier::Iter, .. } => {
                "duplicate of `iter` specifier"
            },
            ExtrasError::Duplicate { specifier: Specifier::Tests, .. } => {
                "duplicate of `tests` specifier"
            },
            ExtrasError::Unknown { .. } => "unknown specifier",
            ExtrasError::DebugWithoutIndices { .. } => {
                "cannot implement `Debug` without the `iter_indices` method"
            },
        }
    }
}

/// What is written for a bit set type besides its algebra.
pub struct Plan<'a> {
    /// What follows `BitSet` in the name of the type: the names of its
    /// iterators end in it.
    pub suffix: &'a str,
    /// Whether the rendering of the set as its indices is written.
    pub debug: bool,
    /// Whether the iterator over indices is written.
    pub indices: bool,
    /// Whether the iterator over bits is written, and then the name of the
    /// signed integer whose sign bit it tests.
    pub iter: Option<&'static str>,
    /// Whether the tests are written.
    pub tests: bool,
}

/// Why the optional parts cannot be written for a type.
#[derive(Clone, Copy, PartialEq, Eq, Debug, Structural)]
pub enum PlanError {
    /// The name of the type does not start with `BitSet`.
    BadName,
    /// The iterator over bits is asked for, and the integer is no primitive
    /// unsigned integer.
    NotPrimitive,
}

/// The parts that each name of a list asks for.
pub open spec fn kinds(names: Seq<String>) -> Seq<Option<Specifier>> {
    Seq::new(names.len(), |i: int| Specifier::spec_from_name(names[i]@))
}

/// Whether the entry at `i` is at fault: it asks for no part, or for one
/// that an earlier entry asked for.
pub open spec fn at_fault(kinds: Seq<Option<Specifier>>, i: int) -> bool {
    kinds[i] is None || exists|j: int| 0 <= j < i && kinds[j] == kinds[i]
}

/// Whether no entry before `end` is at fault.
pub open spec fn sound_before(kinds: Seq<Option<Specifier>>, end: int) -> bool {
    forall|k: int| 0 <= k < end ==> !at_fault(kinds, k)
}

/// Whether an entry before `end` asks for `part`.
pub open spec fn asked_before(kinds: Seq<Option<Specifier>>, end: int, part: Specifier) -> bool {
    exists|j: int| 0 <= j < end && kinds[j] == Some(part)
}

/// The optional parts that a bit set type is given.
#[derive(Clone, Copy)]
pub struct Extras {
    debug: bool,
    indices: bool,
    iter: bool,
    tests: bool,
}

impl Default for Extras {
    /// No part at all.
    fn default() -> (r: Self)
        ensures
            !r.spec_debug(),
            !r.spec_indices(),
            !r.spec_iter(),
            !r.spec_tests(),
    {
        Extras { debug: false, indices: false, iter: false, tests: false }
    }
}

impl Extras {
    /// What [`debug`](Self::debug) returns.
    pub closed spec fn spec_debug(&self) -> bool {
        self.debug
    }

    /// What [`indices`](Self::indices) returns.
    pub closed spec fn spec_indices(&self) -> bool {
        self.indices
    }

    /// What [`iter`](Self::iter) returns.
    pub closed spec fn spec_iter(&self) -> bool {
        self.iter
    }

    /// What [`tests`](Self::tests) returns.
    pub closed spec fn spec_tests(&self) -> bool {
        self.tests
    }

    /// Whether `part` is among the parts.
    pub open spec fn spec_has(&self, part: Specifier) -> bool {
        match part {
            Specifier::Debug => self.spec_debug(),
            Specifier::Indices => self.spec_indices(),
            Specifier::Iter => self.spec_iter(),
            Specifier::Tests => self.spec_tests(),
        }
    }

    /// What [`nothing_to_implement`](Self::nothing_to_implement) returns.
    pub open spec fn spec_nothing_to_implement(&self) -> bool {
        !(self.spec_debug() || self.spec_indices() || self.spec_iter() || self.spec_tests())
    }

    /// Whether the set is rendered as the list of its indices.
    #[verifier::when_used_as_spec(spec_debug)]
    pub fn debug(&self) -> (r: bool)
        ensures
            r == self.spec_debug(),
    {
        self.debug
    }

    /// Whether the type has the iterator over indices.
    #[verifier::when_used_as_spec(spec_indices)]
    pub fn indices(&self) -> (r: bool)
        ensures
            r == self.spec_indices(),
    {
        self.indices
    }

    /// Whether the type has the iterator over bits.
    #[verifier::when_used_as_spec(spec_iter)]
    pub fn iter(&self) -> (r: bool)
        ensures
            r == self.spec_iter(),
    {
        self.iter
    }

    /// Whether the type has its tests.
    #[verifier::when_used_as_spec(spec_tests)]
    pub fn tests(&self) -> (r: bool)
        ensures
            r == self.spec_tests(),
    {
        self.tests
    }

    /// Whether the type is given no optional part.
    #[verifier::when_used_as_spec(spec_nothing_to_implement)]
    pub fn nothing_to_implement(&self) -> (r: bool)
        ensures
            r == self.spec_nothing_to_implement(),
            r == forall|part: Specifier| !self.spec_has(part),
    {
        proof {
            if !self.spec_nothing_to_implement() {
                assert(self.spec_has(Specifier::Debug) || self.spec_has(Specifier::Indices)
                    || self.spec_has(Specifier::Iter) || self.spec_has(Specifier::Tests));
            }
        }
        !(self.debug || self.indices || self.iter || self.tests)
    }

    /// Decides what is written for the type named `name`, made of the
    /// integer named `uint_repr`.
    ///
    /// Nothing is written, and nothing refused, where no part is asked for.
    /// Otherwise the name must start with `BitSet`, and the iterator over
    /// bits is only for a primitive unsigned integer.
    pub fn plan<'a>(&self, name: &'a str, uint_repr: &str) -> (r: Result<
        Option<Plan<'a>>,
        PlanError,
    >)
        ensures
            r is Ok && r->Ok_0 is None <==> self.spec_nothing_to_implement(),
            r == Err::<Option<Plan<'a>>, PlanError>(PlanError::BadName)
                <==> !self.spec_nothing_to_implement() && !"BitSet"@.is_prefix_of(name@),
            r == Err::<Option<Plan<'a>>, PlanError>(PlanError::NotPrimitive)
                <==> !self.spec_nothing_to_implement() && "BitSet"@.is_prefix_of(name@)
                && self.spec_iter() && spec_signed_counterpart(uint_repr@) is None,
            r matches Ok(Some(plan)) ==> {
                &&& name@ == "BitSet"@ + plan.suffix@
                &&& plan.debug == self.spec_debug()
                &&& plan.indices == self.spec_indices()
                &&& plan.tests == self.spec_tests()
                &&& plan.iter is Some == self.spec_iter()
                &&& plan.iter matches Some(signed) ==> spec_signed_counterpart(uint_repr@)
                    == Some(signed@)
            },
    {
        if self.nothing_to_implement() {
            return Ok(None);
        }
        let suffix = match type_suffix(name) {
            Some(suffix) => suffix,
            None => {
                return Err(PlanError::BadName);
            },
        };
        proof {
            assert("BitSet"@.is_prefix_of(name@)) by {
                assert(name@.subrange(0, "BitSet"@.len() as int) =~= "BitSet"@);
            }
        }
        let iter = if self.iter {
            match signed_counterpart(uint_repr) {
                Some(signed) => Some(signed),
                None => {
                    return Err(PlanError::NotPrimitive);
                },
            }
        } else {
            None
        };
        Ok(Some(Plan { suffix, debug: self.debug, indices: self.indices, iter, tests: self.tests }))
    }

    /// Reads a list of specifiers.
    ///
    /// The list is read from the front, and the first entry at fault
    /// decides: a name that asks for no part, or a part asked for twice. A
    /// list without fault is still refused where it asks for `debug` and
    /// not for `indices`. Any other list gives the parts it asks for.
    pub fn parse(names: &Vec<String>) -> (r: Result<Extras, ExtrasError>)
        ensures
            r is Ok <==> sound_before(kinds(names@), names@.len() as int) && !(asked_before(
                kinds(names@),
                names@.len() as int,
                Specifier::Debug,
            ) && !asked_before(kinds(names@), names@.len() as int, Specifier::Indices)),
            r matches Ok(extras) ==> forall|part: Specifier|
                extras.spec_has(part) == asked_before(kinds(names@), names@.len() as int, part),
            r matches Err(ExtrasError::Unknown { index }) ==> index < names@.len() && sound_before(
                kinds(names@),
                index as int,
            ) && kinds(names@)[index as int] is None,
            r matches Err(ExtrasError::Duplicate { index, specifier }) ==> index < names@.len()
                && sound_before(kinds(names@), index as int) && kinds(names@)[index as int] == Some(
                specifier,
            ) && asked_before(kinds(names@), index as int, specifier),
            r matches Err(ExtrasError::DebugWithoutIndices { index }) ==> index < names@.len()
                && sound_before(kinds(names@), names@.len() as int) && kinds(names@)[index as int]
                == Some(Specifier::Debug) && !asked_before(
                kinds(names@),
                names@.len() as int,
                Specifier::Indices,
            ),
    {
        let ghost all = kinds(names@);
        let mut extras = Extras::default();
        let mut debug_at: usize = 0;
        let mut i: usize = 0;
        while i < names.len()
            invariant
                i <= names@.len(),
                all == kinds(names@),
                sound_before(all, i as int),
                forall|part: Specifier| extras.spec_has(part) == asked_before(all, i as int, part),
                extras.spec_debug() ==> debug_at < i && all[debug_at as int] == Some(
                    Specifier::Debug,
                ),
            decreases names@.len() - i,
        {
            let found = Specifier::from_name(names[i].as_str());
            assert(found == all[i as int]);
            let ghost before = extras;
            match found {
                Some(Specifier::Debug) => {
                    if extras.debug {
                        assert(before.spec_has(Specifier::Debug));
                        assert(at_fault(all, i as int));
                        return Err(
                            ExtrasError::Duplicate { index: i, specifier: Specifier::Debug },
                        );
                    }
                    extras.debug = true;
                    debug_at = i;
                },
                Some(Specifier::Indices) => {
                    if extras.indices {
                        assert(before.spec_has(Specifier::Indices));
                        assert(at_fault(all, i as int));
                        return Err(
                            ExtrasError::Duplicate { index: i, specifier: Specifier::Indices },
                        );
                    }
                    extras.indices = true;
                },
                Some(Specifier::Iter) => {
                    if extras.iter {
                        assert(before.spec_has(Specifier::Iter));
                        assert(at_fault(all, i as int));
                        return Err(
                            ExtrasError::Duplicate { index: i, specifier: Specifier::Iter },
                        );
                    }
                    extras.iter = true;
                },
                Some(Specifier::Tests) => {
                    if extras.tests {
                        assert(before.spec_has(Specifier::Tests));
                        assert(at_fault(all, i as int));
                        return Err(
                            ExtrasError::Duplicate { index: i, specifier: Specifier::Tests },
                        );
                    }
                    extras.tests = true;
                },
                None => {
                    assert(at_fault(all, i as int));
                    return Err(ExtrasError::Unknown { index: i });
                },
            }
            proof {
                let part = found->Some_0;
                assert(!before.spec_has(part));
                assert(!at_fault(all, i as int));
                assert forall|k: int| 0 <= k < i + 1 implies !at_fault(all, k) by {}
                assert forall|p: Specifier| extras.spec_has(p) == asked_before(all, i + 1, p) by {
                    if p == part {
                        assert(all[i as int] == Some(p));
                    } else {
                        assert(extras.spec_has(p) == before.spec_has(p));
                        if asked_before(all, i + 1, p) {
                            let j = choose|j: int| 0 <= j < i + 1 && all[j] == Some(p);
                            assert(j < i);
                        }
                    }
                }
            }
            i += 1;
        }
        proof {
            assert(extras.spec_has(Specifier::Debug) == extras.spec_debug());
            assert(extras.spec_has(Specifier::Indices) == extras.spec_indices());
        }
        if extras.debug && !extras.indices {
            return Err(ExtrasError::DebugWithoutIndices { index: debug_at });
        }
        Ok(extras)
    }
}

} // verus!
