//! The step in a single pass over the living cells.
//!
//! Each living cell looks at the cells that touch it. Those that live count towards
//! its own living neighbours. Those that are dead get one more in a tally that is kept
//! for the dead cells alone. When every living cell has been visited, the tally of a
//! dead cell is the number of its living neighbours.
//!
//! Generations are hash sets of cells here, and what is known of such a set is what
//! `hashed` states of it. The tally never leaves the step: it is a hash map under the
//! keys of the cells, of which vstd says all that is needed.
use vstd::prelude::*;
use vstd::std_specs::iter::IteratorSpec;
use std::collections::HashMap;
use std::collections::HashSet;
use crate::grid::adjacent;
use crate::grid::lemma_living_neighbors_bound;
use crate::grid::lemma_living_neighbors_insert;
use crate::grid::listed;
use crate::grid::living_around;
use crate::grid::living_neighbors;
use crate::grid::lives_on;
use crate::grid::neighbors;
use crate::grid::next_generation;
use crate::hashed::set_contains;
use crate::hashed::set_insert;
use crate::hashed::set_iter;
use crate::packed::key_of;
use crate::packed::lemma_keys_differ;
use crate::packed::pack;
use crate::packed::unpack;

verus! {

/// The count that `tally` keeps for the cell `c`, under the key of `c`: nothing where
/// it has no entry.
spec fn tallied(tally: Map<u64, i32>, c: (i32, i32)) -> int {
    if tally.contains_key(key_of(c)) {
        tally[key_of(c)] as int
    } else {
        0
    }
}

/// Computes the generation after `state`.
///
/// A living cell stays when two or three of the cells that touch it live. A dead cell
/// comes to life when its tally stands at three.
pub fn next(state: &HashSet<(i32, i32)>) -> (next_state: HashSet<(i32, i32)>)
    ensures
        next_state@ == next_generation(state@),
        next_state@.finite(),
{
    let mut next_state: HashSet<(i32, i32)> = HashSet::new();
    let mut dead_neighbors: HashMap<u64, i32> = HashMap::new();
    let ghost mut walked: Set<(i32, i32)> = Set::empty();

    proof {
        assert forall|d: (i32, i32)| living_neighbors(walked, d) == 0 by {
            assert(living_around(walked, d) =~= Set::empty());
        }
    }
    let cells = set_iter(state);
    let ghost order = cells.remaining().unref();
    for cell in living: cells
        invariant
            living.seq().unref() == order,
            order.no_duplicates(),
            order.to_set() == state@,
            next_state@.finite(),
            forall|c: (i32, i32)|
                #![trigger walked.contains(c)]
                walked.contains(c) <==> listed(order, living.index(), c),
            forall|c: (i32, i32)|
                #![trigger next_state@.contains(c)]
                next_state@.contains(c) <==> walked.contains(c) && lives_on(state@, c),
            forall|d: (i32, i32)|
                #![trigger tallied(dead_neighbors@, d)]
                !state@.contains(d) ==> tallied(dead_neighbors@, d) == living_neighbors(walked, d),
            forall|d: (i32, i32)|
                #![trigger dead_neighbors@.contains_key(key_of(d))]
                dead_neighbors@.contains_key(key_of(d)) ==> !state@.contains(d),
    {
        proof {
            assert(order[living.index()] == *cell);
            assert forall|d: (i32, i32)| #[trigger] tallied(dead_neighbors@, d) <= 8 by {
                lemma_living_neighbors_bound(walked, d);
            }
        }
        let ghost tally_before = dead_neighbors@;
        let ghost mut found: Set<(i32, i32)> = Set::empty();
        let mut living_neighbor_count: i32 = 0;
        let around = neighbors(cell);
        for k in 0..around.len()
            invariant
                around@.no_duplicates(),
                around@.len() <= 8,
                found.finite(),
                found.len() == living_neighbor_count,
                living_neighbor_count <= k,
                forall|p: (i32, i32)|
                    #![trigger found.contains(p)]
                    found.contains(p) <==> state@.contains(p) && listed(around@, k as int, p),
                forall|d: (i32, i32)| #[trigger] tallied(tally_before, d) <= 8,
                forall|d: (i32, i32)|
                    #![trigger tallied(dead_neighbors@, d)]
                    tallied(dead_neighbors@, d) == tallied(tally_before, d) + if listed(
                        around@,
                        k as int,
                        d,
                    ) && !state@.contains(d) {
                        1int
                    } else {
                        0int
                    },
                forall|d: (i32, i32)|
                    #![trigger dead_neighbors@.contains_key(key_of(d))]
                    dead_neighbors@.contains_key(key_of(d)) ==> !state@.contains(d),
        {
            let neighbor = around[k];
            proof {
                assert forall|d: (i32, i32)| listed(around@, k + 1, d) <==> listed(
                    around@,
                    k as int,
                    d,
                ) || d == neighbor by {
                    if listed(around@, k + 1, d) && d != neighbor {
                        let m = choose|m: int| 0 <= m < k + 1 && #[trigger] around@[m] == d;
                        assert(0 <= m < k && around@[m] == d);
                    }
                }
                assert(!listed(around@, k as int, neighbor));
            }
            if is_alive(&neighbor, state) {
                proof {
                    found = found.insert(neighbor);
                }
                living_neighbor_count += 1;
            } else {
                let ghost so_far = dead_neighbors@;
                let key = pack(&neighbor);
                let count: i32 = match dead_neighbors.get(&key) {
                    Some(count) => *count,
                    None => 0,
                };
                assert(count == tallied(so_far, neighbor));
                dead_neighbors.insert(key, count + 1);
                assert forall|d: (i32, i32)| d != neighbor implies #[trigger] tallied(
                    dead_neighbors@,
                    d,
                ) == tallied(so_far, d) && (dead_neighbors@.contains_key(key_of(d))
                    <==> so_far.contains_key(key_of(d))) by {
                    lemma_keys_differ(d, neighbor);
                }
            }
        }
        proof {
            assert forall|p: (i32, i32)| listed(around@, around@.len() as int, p) <==> adjacent(
                p,
                *cell,
            ) by {
                assert(around@.to_set().contains(p) <==> adjacent(p, *cell));
            }
            assert(found =~= living_around(state@, *cell));
            assert(forall|d: (i32, i32)|
                #![trigger tallied(dead_neighbors@, d)]
                tallied(dead_neighbors@, d) == tallied(tally_before, d) + if adjacent(d, *cell)
                    && !state@.contains(d) {
                    1int
                } else {
                    0int
                });
        }
        let _ = match living_neighbor_count {
            3 | 2 => set_insert(&mut next_state, (cell.0, cell.1)),
            _ => false,
        };
        proof {
            assert(!walked.contains(*cell));
            assert forall|d: (i32, i32)| !state@.contains(d) implies #[trigger] tallied(
                dead_neighbors@,
                d,
            ) == living_neighbors(walked.insert(*cell), d) by {
                lemma_living_neighbors_insert(walked, *cell, d);
            }
            walked = walked.insert(*cell);
        }
    }
    proof {
        assert(walked =~= state@);
    }

    let tally = dead_neighbors.iter();
    let ghost entries = tally.remaining().unref();
    let ghost survivors = next_state@;
    for entry in counted: tally
        invariant
            counted.seq().unref() == entries,
            entries.to_set() == dead_neighbors@.kv_pairs(),
            next_state@.finite(),
            forall|c: (i32, i32)|
                #![trigger next_state@.contains(c)]
                next_state@.contains(c) <==> survivors.contains(c) || (exists|k: int|
                    0 <= k < counted.index() && #[trigger] entries[k] == (key_of(c), 3i32)),
    {
        let (key, living_neighbor_count) = entry;
        assert(entries[counted.index()] == (*key, *living_neighbor_count));
        if *living_neighbor_count == 3 {
            let dead_cell = unpack(*key);
            proof {
                assert forall|c: (i32, i32)| key_of(c) == *key <==> c == dead_cell by {
                    lemma_keys_differ(c, dead_cell);
                }
            }
            set_insert(&mut next_state, (dead_cell.0, dead_cell.1));
        }
    }
    proof {
        assert forall|c: (i32, i32)| next_state@.contains(c) <==> lives_on(state@, c) by {
            let born = (key_of(c), 3i32);
            if exists|k: int| 0 <= k < entries.len() && #[trigger] entries[k] == born {
                assert(entries.to_set().contains(born));
            }
            if !state@.contains(c) {
                assert(living_neighbors(state@, c) == tallied(dead_neighbors@, c));
                if tallied(dead_neighbors@, c) == 3 {
                    assert(dead_neighbors@.kv_pairs().contains(born));
                    assert(entries.contains(born));
                }
            }
        }
        assert(next_state@ =~= next_generation(state@));
    }
    next_state
}

/// Tells whether `cell` lives in `state`.
pub fn is_alive(cell: &(i32, i32), state: &HashSet<(i32, i32)>) -> (alive: bool)
    ensures
        alive == state@.contains(*cell),
{
    set_contains(state, cell)
}

} // verus!
