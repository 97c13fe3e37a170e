//! The step by way of the neighbourhood.
//!
//! First the cells that may live in the next generation are collected: the living
//! cells and every cell that touches one. Then the living neighbours of each of these
//! are counted and the rule is applied to it.
//!
//! Generations are hash sets of cells here, and so is the collection in between. What
//! is known of such a set is what `hashed` states of it.
use vstd::prelude::*;
use vstd::std_specs::iter::IteratorSpec;
use std::collections::HashSet;
use crate::grid::adjacent;
use crate::grid::lemma_neighborhood_insert;
use crate::grid::lemma_next_in_neighborhood;
use crate::grid::listed;
use crate::grid::lives_on;
use crate::grid::living_around;
use crate::grid::living_neighbors;
use crate::grid::neighborhood_of;
use crate::grid::neighbors;
use crate::grid::next_generation;
use crate::grid::surroundings;
use crate::hashed::set_contains;
use crate::hashed::set_insert;
use crate::hashed::set_iter;

verus! {

/// Computes the generation after `state`.
pub fn next(state: &HashSet<(i32, i32)>) -> (next_state: HashSet<(i32, i32)>)
    ensures
        next_state@ == next_generation(state@),
        next_state@.finite(),
{
    let mut next_state: HashSet<(i32, i32)> = HashSet::new();
    let the_hood = neighborhood(state);
    let cells = set_iter(&the_hood);
    let ghost order = cells.remaining().unref();
    for cell in candidates: cells
        invariant
            candidates.seq().unref() == order,
            next_state@.finite(),
            forall|c: (i32, i32)|
                #![trigger next_state@.contains(c)]
                next_state@.contains(c) <==> listed(order, candidates.index(), c) && lives_on(
                    state@,
                    c,
                ),
    {
        assert(order[candidates.index()] == *cell);
        let _ = match num_living_neighbors(cell, state) {
            3 => set_insert(&mut next_state, (cell.0, cell.1)),
            2 if is_alive(cell, state) => set_insert(&mut next_state, (cell.0, cell.1)),
            _ => false,
        };
    }
    proof {
        lemma_next_in_neighborhood(state@);
        assert forall|c: (i32, i32)| lives_on(state@, c) implies listed(
            order,
            order.len() as int,
            c,
        ) by {
            assert(next_generation(state@).contains(c));
            assert(order.to_set().contains(c));
        }
        assert(next_state@ =~= next_generation(state@));
    }
    next_state
}

/// Counts the living cells of `state` that touch `cell`.
pub fn num_living_neighbors(cell: &(i32, i32), state: &HashSet<(i32, i32)>) -> (count: i32)
    ensures
        count == living_neighbors(state@, *cell),
{
    let mut count: i32 = 0;
    let ghost mut found: Set<(i32, i32)> = Set::empty();
    for i in -1i32..2
        invariant
            found.finite(),
            found.len() == count,
            count <= 3 * (i + 1),
            forall|p: (i32, i32)|
                #![trigger found.contains(p)]
                found.contains(p) <==> state@.contains(p) && adjacent(p, *cell) && p.0 - cell.0 < i,
    {
        for j in -1i32..2
            invariant
                -1 <= i <= 1,
                found.finite(),
                found.len() == count,
                count <= 3 * (i + 1) + (j + 1),
                forall|p: (i32, i32)|
                    #![trigger found.contains(p)]
                    found.contains(p) <==> state@.contains(p) && adjacent(p, *cell) && (p.0 - cell.0
                        < i || (p.0 - cell.0 == i && p.1 - cell.1 < j)),
        {
            if !(i == 0 && j == 0) {
                match (cell.0.checked_add(i), cell.1.checked_add(j)) {
                    (Some(x), Some(y)) => {
                        if is_alive(&(x, y), state) {
                            proof {
                                assert(!found.contains((x, y)));
                                found = found.insert((x, y));
                            }
                            count += 1;
                        }
                    },
                    _ => {},
                }
            }
        }
    }
    proof {
        assert(found =~= living_around(state@, *cell));
    }
    count
}

/// Collects the living cells of `state` and all the cells that touch them.
pub fn neighborhood(state: &HashSet<(i32, i32)>) -> (the_hood: HashSet<(i32, i32)>)
    ensures
        the_hood@ == neighborhood_of(state@),
        the_hood@.finite(),
{
    let mut the_hood: HashSet<(i32, i32)> = HashSet::new();
    let ghost mut walked: Set<(i32, i32)> = Set::empty();
    proof {
        assert(neighborhood_of(walked) =~= Set::empty());
    }
    let cells = set_iter(state);
    let ghost order = cells.remaining().unref();
    for cell in living: cells
        invariant
            living.seq().unref() == order,
            order.to_set() == state@,
            forall|c: (i32, i32)|
                #![trigger walked.contains(c)]
                walked.contains(c) <==> listed(order, living.index(), c),
            the_hood@ == neighborhood_of(walked),
            the_hood@.finite(),
    {
        assert(order[living.index()] == *cell);
        set_insert(&mut the_hood, (cell.0, cell.1));
        let around = neighbors(cell);
        for k in 0..around.len()
            invariant
                the_hood@.finite(),
                forall|p: (i32, i32)|
                    #![trigger the_hood@.contains(p)]
                    the_hood@.contains(p) <==> neighborhood_of(walked).contains(p) || p == *cell
                        || listed(around@, k as int, p),
        {
            set_insert(&mut the_hood, (around[k].0, around[k].1));
        }
        proof {
            assert forall|p: (i32, i32)| listed(around@, around@.len() as int, p) <==> surroundings(
                *cell,
            ).contains(p) by {
                assert(around@.to_set().contains(p) <==> adjacent(p, *cell));
            }
            lemma_neighborhood_insert(walked, *cell);
            walked = walked.insert(*cell);
            assert(the_hood@ =~= neighborhood_of(walked));
        }
    }
    proof {
        assert(walked =~= state@);
    }
    the_hood
}

/// Tells whether `cell` lives in `state`.
pub fn is_alive(cell: &(i32, i32), state: &HashSet<(i32, i32)>) -> (alive: bool)
    ensures
        alive == state@.contains(*cell),
{
    set_contains(state, cell)
}

} // verus!
