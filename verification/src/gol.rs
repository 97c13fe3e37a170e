//! The step on vectors.
//!
//! A generation comes as a vector of its living cells and goes out as one. The cells
//! that may live next are collected in a vector too, and the rule is applied to each.
//! Looking a cell up never scans a vector: the living cells, and the cells collected
//! so far, are also kept in hash sets, by their keys. Nothing in this module is taken
//! on trust.
use vstd::prelude::*;
use std::collections::HashSet;
use crate::grid::adjacent;
use crate::grid::lemma_neighborhood_insert;
use crate::grid::lemma_next_in_neighborhood;
use crate::grid::listed;
use crate::grid::lives_on;
use crate::grid::living_around;
use crate::grid::living_neighbors;
use crate::grid::neighborhood_of;
use crate::grid::neighbors;
use crate::grid::next_generation;
use crate::grid::surroundings;
use crate::packed::cells_of;
use crate::packed::lemma_cells_of_insert;
use crate::packed::lemma_cells_of_nothing;
use crate::packed::pack;

verus! {

/// Computes the generation after `state`.
///
/// A cell that `state` lists more than once counts once. The result lists no cell twice.
pub fn next(state: &Vec<(i32, i32)>) -> (next_state: Vec<(i32, i32)>)
    ensures
        next_state@.no_duplicates(),
        next_state@.to_set() == next_generation(state@.to_set()),
{
    let living = living_cells(state);
    let the_hood = neighborhood(state);
    let mut next_state: Vec<(i32, i32)> = Vec::new();
    for k in 0..the_hood.len()
        invariant
            the_hood@.no_duplicates(),
            cells_of(living@) == state@.to_set(),
            next_state@.no_duplicates(),
            forall|c: (i32, i32)|
                #![trigger next_state@.contains(c)]
                next_state@.contains(c) <==> listed(the_hood@, k as int, c) && lives_on(
                    state@.to_set(),
                    c,
                ),
    {
        let cell = the_hood[k];
        proof {
            assert(!listed(the_hood@, k as int, cell));
            assert(!next_state@.contains(cell));
            assert forall|c: (i32, i32)| #[trigger]
                next_state@.push(cell).contains(c) <==> c == cell || next_state@.contains(c) by {
                vstd::seq_lib::lemma_seq_contains_after_push(next_state@, cell, c);
            }
        }
        match num_living_neighbors(&cell, &living) {
            3 => next_state.push((cell.0, cell.1)),
            2 if is_alive(&cell, &living) => next_state.push((cell.0, cell.1)),
            _ => {},
        }
    }
    proof {
        let g = state@.to_set();
        lemma_next_in_neighborhood(g);
        assert forall|c: (i32, i32)| lives_on(g, c) implies listed(
            the_hood@,
            the_hood@.len() as int,
            c,
        ) by {
            assert(next_generation(g).contains(c));
            assert(the_hood@.to_set().contains(c));
        }
        assert(next_state@.to_set() =~= next_generation(g));
    }
    next_state
}

/// Counts the living cells that touch `cell`, where `living` holds the keys of the
/// living cells.
pub fn num_living_neighbors(cell: &(i32, i32), living: &HashSet<u64>) -> (count: i32)
    ensures
        count == living_neighbors(cells_of(living@), *cell),
{
    let mut count: i32 = 0;
    let ghost mut found: Set<(i32, i32)> = Set::empty();
    for i in -1i32..2
        invariant
            found.finite(),
            found.len() == count,
            count <= 3 * (i + 1),
            forall|p: (i32, i32)|
                #![trigger found.contains(p)]
                found.contains(p) <==> cells_of(living@).contains(p) && adjacent(p, *cell) && p.0
                    - cell.0 < i,
    {
        for j in -1i32..2
            invariant
                -1 <= i <= 1,
                found.finite(),
                found.len() == count,
                count <= 3 * (i + 1) + (j + 1),
                forall|p: (i32, i32)|
                    #![trigger found.contains(p)]
                    found.contains(p) <==> cells_of(living@).contains(p) && adjacent(p, *cell) && (
                    p.0 - cell.0 < i || (p.0 - cell.0 == i && p.1 - cell.1 < j)),
        {
            if !(i == 0 && j == 0) {
                match (cell.0.checked_add(i), cell.1.checked_add(j)) {
                    (Some(x), Some(y)) => {
                        if is_alive(&(x, y), living) {
                            proof {
                                assert(!found.contains((x, y)));
                                found = found.insert((x, y));
                            }
                            count += 1;
                        }
                    },
                    _ => {},
                }
            }
        }
    }
    proof {
        assert(found =~= living_around(cells_of(living@), *cell));
    }
    count
}

/// Tells whether `cell` lives, where `living` holds the keys of the living cells.
pub fn is_alive(cell: &(i32, i32), living: &HashSet<u64>) -> (alive: bool)
    ensures
        alive == cells_of(living@).contains(*cell),
{
    let key = pack(cell);
    living.contains(&key)
}

/// Gathers the keys of the cells of `state` in a hash set.
pub fn living_cells(state: &Vec<(i32, i32)>) -> (living: HashSet<u64>)
    ensures
        cells_of(living@) == state@.to_set(),
{
    let mut living: HashSet<u64> = HashSet::new();
    proof {
        lemma_cells_of_nothing();
    }
    for k in 0..state.len()
        invariant
            forall|c: (i32, i32)|
                #![trigger cells_of(living@).contains(c)]
                cells_of(living@).contains(c) <==> listed(state@, k as int, c),
    {
        proof {
            lemma_cells_of_insert(living@, state@[k as int]);
        }
        living.insert(pack(&state[k]));
    }
    proof {
        assert forall|c: (i32, i32)| listed(state@, state@.len() as int, c)
            <==> state@.to_set().contains(c) by {}
        assert(cells_of(living@) =~= state@.to_set());
    }
    living
}

/// Lists the living cells of `state` and all the cells that touch them, each of them
/// once.
pub fn neighborhood(state: &Vec<(i32, i32)>) -> (the_hood: Vec<(i32, i32)>)
    ensures
        the_hood@.no_duplicates(),
        the_hood@.to_set() == neighborhood_of(state@.to_set()),
{
    let mut the_hood: Vec<(i32, i32)> = Vec::new();
    let mut met: HashSet<u64> = HashSet::new();
    let ghost mut walked: Set<(i32, i32)> = Set::empty();
    proof {
        assert(neighborhood_of(walked) =~= Set::empty());
        assert(the_hood@.to_set() =~= Set::empty());
        lemma_cells_of_nothing();
    }
    for i in 0..state.len()
        invariant
            the_hood@.no_duplicates(),
            the_hood@.to_set() == cells_of(met@),
            forall|c: (i32, i32)|
                #![trigger walked.contains(c)]
                walked.contains(c) <==> listed(state@, i as int, c),
            cells_of(met@) == neighborhood_of(walked),
    {
        let cell = state[i];
        proof {
            lemma_cells_of_insert(met@, cell);
            assert(the_hood@.contains(cell) <==> cells_of(met@).contains(cell));
        }
        if met.insert(pack(&cell)) {
            proof {
                the_hood@.lemma_push_to_set_commute(cell);
            }
            the_hood.push((cell.0, cell.1));
        }
        let around = neighbors(&cell);
        for k in 0..around.len()
            invariant
                the_hood@.no_duplicates(),
                the_hood@.to_set() == cells_of(met@),
                forall|p: (i32, i32)|
                    #![trigger cells_of(met@).contains(p)]
                    cells_of(met@).contains(p) <==> neighborhood_of(walked).contains(p) || p == cell
                        || listed(around@, k as int, p),
        {
            let neighbor = around[k];
            proof {
                lemma_cells_of_insert(met@, neighbor);
                assert(the_hood@.contains(neighbor) <==> cells_of(met@).contains(neighbor));
            }
            if met.insert(pack(&neighbor)) {
                proof {
                    the_hood@.lemma_push_to_set_commute(neighbor);
                }
                the_hood.push((neighbor.0, neighbor.1));
            }
        }
        proof {
            assert forall|p: (i32, i32)| listed(around@, around@.len() as int, p) <==> surroundings(
                cell,
            ).contains(p) by {
                assert(around@.to_set().contains(p) <==> adjacent(p, cell));
            }
            lemma_neighborhood_insert(walked, cell);
            walked = walked.insert(cell);
            assert(cells_of(met@) =~= neighborhood_of(walked));
        }
    }
    proof {
        assert forall|c: (i32, i32)| listed(state@, state@.len() as int, c)
            <==> state@.to_set().contains(c) by {}
        assert(walked =~= state@.to_set());
    }
    the_hood
}

} // verus!
