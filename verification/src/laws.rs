//! What holds of every step, whichever of the three functions takes it.
//!
//! Each of [`crate::gol::next`], [`crate::gol_2::next`] and [`crate::gol_3::next`]
//! returns the cells of [`next_generation`], so what is proved here of that set is
//! proved of what they return.
use vstd::prelude::*;
use vstd::set_lib::lemma_len_subset;
use vstd::set_lib::lemma_len_union;
use crate::grid::adjacent;
use crate::grid::living_around;
use crate::grid::lemma_neighborhood_insert;
use crate::grid::lemma_next_in_neighborhood;
use crate::grid::lemma_surroundings;
use crate::grid::lives_on;
use crate::grid::living_neighbors;
use crate::grid::neighborhood_of;
use crate::grid::next_generation;
use crate::grid::surroundings;

verus! {

/// How far two cells lie apart, counted in steps of a king on a chessboard.
pub open spec fn steps_apart(a: (i32, i32), b: (i32, i32)) -> int {
    let across = if a.0 >= b.0 {
        a.0 - b.0
    } else {
        b.0 - a.0
    };
    let along = if a.1 >= b.1 {
        a.1 - b.1
    } else {
        b.1 - a.1
    };
    if across >= along {
        across
    } else {
        along
    }
}

/// The living cells of `g` that stay alive: those with two or three living neighbours.
pub open spec fn survivors(g: Set<(i32, i32)>) -> Set<(i32, i32)> {
    Set::new(
        |c: (i32, i32)|
            g.contains(c) && (living_neighbors(g, c) == 2 || living_neighbors(g, c) == 3),
    )
}

/// The dead cells of `g` that come to life: those with exactly three living neighbours.
pub open spec fn births(g: Set<(i32, i32)>) -> Set<(i32, i32)> {
    Set::new(|c: (i32, i32)| !g.contains(c) && living_neighbors(g, c) == 3)
}

/// The order in which the cells of a generation are listed does not matter: two
/// vectors that list the same cells, in whatever order and however often, are taken to
/// vectors that list the same cells.
pub proof fn lemma_order_does_not_matter(
    first: Seq<(i32, i32)>,
    second: Seq<(i32, i32)>,
    after_first: Seq<(i32, i32)>,
    after_second: Seq<(i32, i32)>,
)
    requires
        first.to_set() == second.to_set(),
        after_first.to_set() == next_generation(first.to_set()),
        after_second.to_set() == next_generation(second.to_set()),
    ensures
        after_first.to_set() == after_second.to_set(),
{
}

/// No cell of the next generation lies more than one step away from every cell of this
/// one: the next generation stays inside the neighbourhood.
pub proof fn lemma_next_stays_close(g: Set<(i32, i32)>, c: (i32, i32))
    requires
        next_generation(g).contains(c),
    ensures
        neighborhood_of(g).contains(c),
        exists|n: (i32, i32)| g.contains(n) && steps_apart(n, c) <= 1,
{
    lemma_next_in_neighborhood(g);
    if g.contains(c) {
        assert(g.contains(c) && steps_apart(c, c) <= 1);
    } else {
        let n = choose|n: (i32, i32)| g.contains(n) && adjacent(n, c);
        assert(g.contains(n) && steps_apart(n, c) <= 1);
    }
}

/// Applying the rule to the cells of the neighbourhood alone gives the next generation:
/// no cell outside it has to be looked at.
pub proof fn lemma_by_neighborhood(g: Set<(i32, i32)>)
    ensures
        neighborhood_of(g).filter(|c: (i32, i32)| lives_on(g, c)) == next_generation(g),
{
    lemma_next_in_neighborhood(g);
    assert(neighborhood_of(g).filter(|c: (i32, i32)| lives_on(g, c)) =~= next_generation(g));
}

/// The cells that stay alive together with the cells that come to life are the next
/// generation.
pub proof fn lemma_by_tally(g: Set<(i32, i32)>)
    ensures
        survivors(g).union(births(g)) == next_generation(g),
{
    assert(survivors(g).union(births(g)) =~= next_generation(g));
}

/// The two ways of taking the step agree: filtering the neighbourhood by the rule, and
/// joining survivors and births, give the same set. So do any two results that meet the
/// contract of `next`.
pub proof fn lemma_strategies_agree(
    g: Set<(i32, i32)>,
    by_neighborhood: Set<(i32, i32)>,
    by_tally: Set<(i32, i32)>,
)
    requires
        by_neighborhood == next_generation(g),
        by_tally == next_generation(g),
    ensures
        by_neighborhood == by_tally,
        neighborhood_of(g).filter(|c: (i32, i32)| lives_on(g, c)) == survivors(g).union(births(g)),
{
    lemma_by_neighborhood(g);
    lemma_by_tally(g);
}

/// A generation of finitely many cells has a finite neighbourhood, of at most nine
/// cells for each living one, and the next generation is no larger than that: the work
/// of a step grows with the number of living cells, not with the size of the grid.
pub proof fn lemma_next_is_small(g: Set<(i32, i32)>)
    requires
        g.finite(),
    ensures
        neighborhood_of(g).finite(),
        neighborhood_of(g).len() <= 9 * g.len(),
        next_generation(g).finite(),
        next_generation(g).len() <= 9 * g.len(),
    decreases g.len(),
{
    if g.len() == 0 {
        assert(neighborhood_of(g) =~= Set::empty());
    } else {
        let c = g.choose();
        let rest = g.remove(c);
        lemma_next_is_small(rest);
        assert(rest.insert(c) =~= g);
        lemma_neighborhood_insert(rest, c);
        lemma_surroundings(c);
        lemma_len_union(neighborhood_of(rest).insert(c), surroundings(c));
    }
    lemma_next_in_neighborhood(g);
    lemma_len_subset(next_generation(g), neighborhood_of(g));
}

/// A cell with fewer than two living neighbours is dead in the next generation, and so
/// is a cell with more than three. In particular a living cell that no living cell
/// touches dies.
pub proof fn lemma_lonely_or_crowded(g: Set<(i32, i32)>, c: (i32, i32))
    requires
        living_neighbors(g, c) < 2 || living_neighbors(g, c) > 3,
    ensures
        !next_generation(g).contains(c),
{
}

/// Nothing comes from nothing: where no cell lives, no cell lives in the next
/// generation either.
pub proof fn lemma_empty_stays_empty()
    ensures
        next_generation(Set::empty()) == Set::<(i32, i32)>::empty(),
{
    assert forall|c: (i32, i32)| !next_generation(Set::empty()).contains(c) by {
        assert(living_around(Set::empty(), c) =~= Set::empty());
    }
    assert(next_generation(Set::empty()) =~= Set::<(i32, i32)>::empty());
}

} // verus!
