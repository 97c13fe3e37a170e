//! The grid, its cells, and the rule of the game.
//!
//! A cell is a pair `(x, y)` of `i32` coordinates and the grid is the set of all such
//! pairs. It does not wrap around: a cell on its rim touches fewer than eight others.
//! A generation is a set of cells, the living ones.
use vstd::prelude::*;
use vstd::set_lib::lemma_len_subset;

verus! {

/// Two cells touch when they differ and lie at most one step apart in each coordinate.
pub open spec fn adjacent(a: (i32, i32), b: (i32, i32)) -> bool {
    &&& a != b
    &&& -1 <= a.0 - b.0 <= 1
    &&& -1 <= a.1 - b.1 <= 1
}

/// A cell that is not on the rim of the grid, so that all eight places around it are cells.
pub open spec fn interior(c: (i32, i32)) -> bool {
    &&& i32::MIN < c.0 < i32::MAX
    &&& i32::MIN < c.1 < i32::MAX
}

/// The cells that touch `c`.
pub open spec fn surroundings(c: (i32, i32)) -> Set<(i32, i32)> {
    Set::new(|n: (i32, i32)| adjacent(n, c))
}

/// The living cells of `g` that touch `c`.
pub open spec fn living_around(g: Set<(i32, i32)>, c: (i32, i32)) -> Set<(i32, i32)> {
    g.intersect(surroundings(c))
}

/// How many living cells of `g` touch `c`.
pub open spec fn living_neighbors(g: Set<(i32, i32)>, c: (i32, i32)) -> nat {
    living_around(g, c).len()
}

/// The rule: `c` lives in the generation after `g` when exactly three living cells
/// touch it, or when exactly two do and it lives in `g`.
pub open spec fn lives_on(g: Set<(i32, i32)>, c: (i32, i32)) -> bool {
    let n = living_neighbors(g, c);
    n == 3 || (n == 2 && g.contains(c))
}

/// The generation after `g`.
pub open spec fn next_generation(g: Set<(i32, i32)>) -> Set<(i32, i32)> {
    Set::new(|c: (i32, i32)| lives_on(g, c))
}

/// The cells of `g` together with every cell that touches one of them: the only cells
/// whose fate the rule has to decide.
pub open spec fn neighborhood_of(g: Set<(i32, i32)>) -> Set<(i32, i32)> {
    Set::new(|c: (i32, i32)| g.contains(c) || exists|n: (i32, i32)| g.contains(n) && adjacent(n, c))
}

/// Whether `p` stands among the first `upto` entries of `cells`.
pub open spec fn listed(cells: Seq<(i32, i32)>, upto: int, p: (i32, i32)) -> bool {
    exists|k: int| 0 <= k < upto && #[trigger] cells[k] == p
}

/// The place `(dx, dy)` steps away from `c`, where that place is a cell.
spec fn shifted(c: (i32, i32), dx: int, dy: int) -> (i32, i32) {
    ((c.0 + dx) as i32, (c.1 + dy) as i32)
}

/// At most eight cells touch a cell, and exactly eight where it is not on the rim.
pub proof fn lemma_surroundings(c: (i32, i32))
    ensures
        surroundings(c).finite(),
        surroundings(c).len() <= 8,
        interior(c) ==> surroundings(c).len() == 8,
{
    let block = set![
        shifted(c, -1, -1),
        shifted(c, -1, 0),
        shifted(c, -1, 1),
        shifted(c, 0, -1),
        shifted(c, 0, 1),
        shifted(c, 1, -1),
        shifted(c, 1, 0),
        shifted(c, 1, 1),
    ];
    assert forall|n: (i32, i32)| surroundings(c).contains(n) implies block.contains(n) by {
        assert(n == shifted(c, n.0 - c.0, n.1 - c.1));
    }
    lemma_len_subset(surroundings(c), block);
    if interior(c) {
        assert(block =~= surroundings(c));
    }
}

/// No cell has more than eight living neighbours, whatever the generation.
pub proof fn lemma_living_neighbors_bound(g: Set<(i32, i32)>, c: (i32, i32))
    ensures
        living_around(g, c).finite(),
        living_neighbors(g, c) <= 8,
{
    lemma_surroundings(c);
    lemma_len_subset(living_around(g, c), surroundings(c));
}

/// A cell that comes to life in `g` adds one to the living neighbours of the cells it
/// touches and leaves the count of every other cell as it was.
pub proof fn lemma_living_neighbors_insert(g: Set<(i32, i32)>, born: (i32, i32), c: (i32, i32))
    requires
        !g.contains(born),
    ensures
        living_neighbors(g.insert(born), c) == living_neighbors(g, c) + if adjacent(born, c) {
            1nat
        } else {
            0nat
        },
{
    lemma_living_neighbors_bound(g, c);
    if adjacent(born, c) {
        assert(living_around(g.insert(born), c) =~= living_around(g, c).insert(born));
    } else {
        assert(living_around(g.insert(born), c) =~= living_around(g, c));
    }
}

/// A cell with a living neighbour lies in the neighbourhood of the generation.
pub proof fn lemma_neighbor_witness(g: Set<(i32, i32)>, c: (i32, i32))
    requires
        living_neighbors(g, c) > 0,
    ensures
        neighborhood_of(g).contains(c),
{
    lemma_living_neighbors_bound(g, c);
    let n = living_around(g, c).choose();
    assert(living_around(g, c).contains(n));
    assert(g.contains(n) && adjacent(n, c));
}

/// A living cell joins `g`: the neighbourhood grows by that cell and the cells that
/// touch it.
pub proof fn lemma_neighborhood_insert(g: Set<(i32, i32)>, c: (i32, i32))
    ensures
        neighborhood_of(g.insert(c)) == neighborhood_of(g).insert(c).union(surroundings(c)),
{
    let grown = neighborhood_of(g.insert(c));
    let pieces = neighborhood_of(g).insert(c).union(surroundings(c));
    assert forall|p: (i32, i32)| grown.contains(p) <==> pieces.contains(p) by {
        if grown.contains(p) && !g.insert(c).contains(p) {
            let n = choose|n: (i32, i32)| g.insert(c).contains(n) && adjacent(n, p);
            assert(n == c || (g.contains(n) && adjacent(n, p)));
        }
        if neighborhood_of(g).contains(p) && !g.contains(p) {
            let n = choose|n: (i32, i32)| g.contains(n) && adjacent(n, p);
            assert(g.insert(c).contains(n) && adjacent(n, p));
        }
        if surroundings(c).contains(p) {
            assert(g.insert(c).contains(c) && adjacent(c, p));
        }
    }
    assert(grown =~= pieces);
}

/// Every cell of the next generation lies in the neighbourhood of this one: it lives
/// now, or it touches a cell that does.
pub proof fn lemma_next_in_neighborhood(g: Set<(i32, i32)>)
    ensures
        next_generation(g).subset_of(neighborhood_of(g)),
{
    assert forall|c: (i32, i32)| next_generation(g).contains(c) implies neighborhood_of(g).contains(
        c,
    ) by {
        lemma_neighbor_witness(g, c);
    }
}

/// Lists the cells that touch `cell`: all eight of them, unless `cell` lies on the rim
/// of the grid, where the places beyond the rim are left out.
pub fn neighbors(cell: &(i32, i32)) -> (the_neighbors: Vec<(i32, i32)>)
    ensures
        the_neighbors@.no_duplicates(),
        the_neighbors@.to_set() == surroundings(*cell),
        the_neighbors@.len() <= 8,
        interior(*cell) ==> the_neighbors@.len() == 8,
{
    let mut the_neighbors: Vec<(i32, i32)> = Vec::new();
    for i in -1i32..2
        invariant
            the_neighbors@.no_duplicates(),
            forall|p: (i32, i32)|
                #![trigger the_neighbors@.contains(p)]
                the_neighbors@.contains(p) <==> adjacent(p, *cell) && p.0 - cell.0 < i,
    {
        for j in -1i32..2
            invariant
                -1 <= i <= 1,
                the_neighbors@.no_duplicates(),
                forall|p: (i32, i32)|
                    #![trigger the_neighbors@.contains(p)]
                    the_neighbors@.contains(p) <==> adjacent(p, *cell) && (p.0 - cell.0 < i || (p.0
                        - cell.0 == i && p.1 - cell.1 < j)),
        {
            if !(i == 0 && j == 0) {
                match (cell.0.checked_add(i), cell.1.checked_add(j)) {
                    (Some(x), Some(y)) => {
                        proof {
                            let ghost before = the_neighbors@;
                            assert forall|p: (i32, i32)|
                                #[trigger] before.push((x, y)).contains(p) <==> p == (x, y)
                                    || before.contains(p) by {
                                vstd::seq_lib::lemma_seq_contains_after_push(before, (x, y), p);
                            }
                            assert(!before.contains((x, y)));
                        }
                        the_neighbors.push((x, y));
                    },
                    _ => {},
                }
            }
        }
    }
    proof {
        assert(the_neighbors@.to_set() =~= surroundings(*cell));
        the_neighbors@.unique_seq_to_set();
        lemma_surroundings(*cell);
    }
    the_neighbors
}

} // verus!
