//! Hash sets whose elements are cells.
//!
//! A generation goes in and out of [`crate::gol_2`] and [`crate::gol_3`] as a
//! `HashSet<(i32, i32)>`. vstd describes the methods of `HashSet` for elements that
//! follow its key model, and grants that model to the primitive integers alone. A cell
//! is a pair of `i32`, which std hashes and compares field by field, so the same
//! statements hold of it. This module makes them, one function for each std method
//! that the library calls on such a set. Nothing here is proved: each contract is
//! taken from the method's documentation.
use vstd::prelude::*;
use vstd::std_specs::iter::IteratorSpec;
use std::collections::hash_set;
use std::collections::HashSet;

verus! {

/// `HashSet::contains` on a set of cells.
///
/// Trusted: the answer is `true` exactly when the cell is an element of the set.
#[verifier::external_body]
pub(crate) fn set_contains(set: &HashSet<(i32, i32)>, cell: &(i32, i32)) -> (found: bool)
    ensures
        found == set@.contains(*cell),
{
    set.contains(cell)
}

/// `HashSet::insert` on a set of cells.
///
/// Trusted: afterwards the set holds the cell besides what it held before, and the
/// answer is `true` exactly when the cell was not in it yet.
#[verifier::external_body]
pub(crate) fn set_insert(set: &mut HashSet<(i32, i32)>, cell: (i32, i32)) -> (fresh: bool)
    ensures
        final(set)@ == old(set)@.insert(cell),
        fresh == !old(set)@.contains(cell),
{
    set.insert(cell)
}

/// `HashSet::iter` on a set of cells.
///
/// Trusted: the iterator yields every element of the set once and nothing else, in an
/// order that is left open, and then ends. The last two clauses hand the iterator to
/// vstd's account of `for` loops: it has a measure that falls with every step, and
/// the sequence vstd names for it is the one it will yield.
#[verifier::external_body]
pub(crate) fn set_iter<'a>(set: &'a HashSet<(i32, i32)>) -> (cells: hash_set::Iter<'a, (i32, i32)>)
    ensures
        cells.remaining().no_duplicates(),
        cells.remaining().unref().to_set() == set@,
        cells.decrease() is Some,
        cells.initial_value_relation(&cells),
{
    set.iter()
}

} // verus!
