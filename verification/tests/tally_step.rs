use gol_rust::gol_3::next;
use std::collections::HashSet;

fn cells(list: &[(i32, i32)]) -> HashSet<(i32, i32)> {
    list.iter().cloned().collect()
}

#[test]
fn gol_3_empty_universe_stays_empty() {
    let initial_state: HashSet<(i32, i32)> = HashSet::new();
    let next_state = next(&initial_state);
    assert_eq!(initial_state, next_state);
}

#[test]
fn gol_3_living_cell_with_no_living_neighbors_dies() {
    let initial_state: HashSet<_> = vec![(0, 0)].iter().cloned().collect();
    let next_state: HashSet<(i32, i32)> = next(&initial_state);
    let expected_state: HashSet<(i32, i32)> = HashSet::new();
    assert_eq!(expected_state, next_state);
}

#[test]
fn gol_3_living_cell_with_two_living_neighbors_lives() {
    // *  *       *  *
    // *      =>  * [*]
    let initial_state: HashSet<_> = vec![(0, 0), (1, 0), (0, 1)].iter().cloned().collect();
    let next_state: HashSet<(i32, i32)> = next(&initial_state);
    assert!(next_state.contains(&(0, 0)));
    assert!(next_state.contains(&(1, 0)));
    assert!(next_state.contains(&(0, 1)));
}

#[test]
fn gol_3_living_cell_with_four_living_neighbors_lives() {
    let initial_state: HashSet<_> =
        vec![(0, 0), (-1, -1), (-1, 1), (1, -1), (1, 1)].iter().cloned().collect();
    let next_state: HashSet<(i32, i32)> = next(&initial_state);
    assert!(!next_state.contains(&(0, 0)));
}

#[test]
fn gol_3_dead_cell_with_three_living_neighbors_lives() {
    // *  *       [*] [*]
    // *      =>  [*]  *
    let initial_state: HashSet<_> = vec![(0, 0), (1, 0), (0, 1)].iter().cloned().collect();
    let next_state: HashSet<(i32, i32)> = next(&initial_state);
    assert!(next_state.contains(&(1, 1)));
}

#[test]
fn gol_3_full_pattern_test() {
    // *  .  *      .  *  .
    // .  *  .  =>  *  .  *
    // *  .  *      .  *  .
    let initial_state: HashSet<_> =
        vec![(0, 0), (-1, -1), (-1, 1), (1, -1), (1, 1)].iter().cloned().collect();
    let next_state: HashSet<(i32, i32)> = next(&initial_state);
    let expected_state: HashSet<(i32, i32)> =
        vec![(-1, 0), (0, -1), (1, 0), (0, 1)].iter().cloned().collect();
    assert_eq!(expected_state, next_state);
}

#[test]
fn tally_corner_of_three_becomes_a_block() {
    assert_eq!(next(&cells(&[(0, 0), (1, 0), (0, 1)])), cells(&[(0, 0), (1, 0), (0, 1), (1, 1)]));
}

#[test]
fn tally_block_stands_still() {
    let block = cells(&[(3, 3), (3, 4), (4, 3), (4, 4)]);
    assert_eq!(next(&block), block);
}

#[test]
fn tally_blinker_turns_and_turns_back() {
    let upright = cells(&[(0, -1), (0, 0), (0, 1)]);
    let flat = next(&upright);
    assert_eq!(flat, cells(&[(-1, 0), (0, 0), (1, 0)]));
    assert_eq!(next(&flat), upright);
}

#[test]
fn tally_dead_cell_with_two_or_four_living_neighbors_stays_dead() {
    // (1, 0) lies between two living cells and no more.
    assert_eq!(next(&cells(&[(0, 0), (2, 0)])), HashSet::new());
    // (0, 0) is dead with four living neighbours; the cells between them have two.
    let ring = cells(&[(-1, -1), (-1, 1), (1, -1), (1, 1)]);
    assert_eq!(next(&ring), HashSet::new());
    // The four cells around a dead centre stand still, and the centre stays dead.
    let tub = cells(&[(-1, 0), (1, 0), (0, -1), (0, 1)]);
    let after = next(&tub);
    assert!(!after.contains(&(0, 0)));
    assert_eq!(after, tub);
}

#[test]
fn tally_living_cell_with_three_living_neighbors_lives() {
    let tee = cells(&[(0, 0), (-1, 0), (1, 0), (0, 1)]);
    let after = next(&tee);
    assert!(after.contains(&(0, 0)));
    assert_eq!(
        after,
        cells(&[(0, 0), (-1, 0), (1, 0), (0, 1), (-1, 1), (1, 1), (0, -1)])
    );
}

#[test]
fn tally_glider_moves_one_step_in_four_generations() {
    let glider = cells(&[(1, 0), (2, 1), (0, 2), (1, 2), (2, 2)]);
    let mut state = glider.clone();
    for _ in 0..4 {
        state = next(&state);
    }
    let moved: HashSet<(i32, i32)> = glider.iter().map(|cell| (cell.0 + 1, cell.1 + 1)).collect();
    assert_eq!(state, moved);
}

#[test]
fn tally_cells_on_the_rim_have_no_neighbors_beyond_it() {
    let top = i32::MAX;
    let upright = cells(&[(top, -1), (top, 0), (top, 1)]);
    assert_eq!(next(&upright), cells(&[(top - 1, 0), (top, 0)]));
    let low = i32::MIN;
    let flat = cells(&[(-1, low), (0, low), (1, low)]);
    assert_eq!(next(&flat), cells(&[(0, low), (0, low + 1)]));
}

#[test]
fn tally_input_is_left_as_it_was() {
    let state = cells(&[(0, 0), (1, 0), (0, 1)]);
    let before = state.clone();
    let _ = next(&state);
    assert_eq!(state, before);
}

#[test]
fn tally_order_of_construction_does_not_matter() {
    let mut one_way: HashSet<(i32, i32)> = HashSet::new();
    let mut other_way: HashSet<(i32, i32)> = HashSet::with_capacity(64);
    let listed = [(0, 0), (-1, -1), (-1, 1), (1, -1), (1, 1)];
    for cell in listed.iter() {
        one_way.insert(*cell);
    }
    for cell in listed.iter().rev() {
        other_way.insert(*cell);
    }
    assert_eq!(next(&one_way), next(&other_way));
    assert_eq!(next(&one_way), cells(&[(-1, 0), (0, -1), (1, 0), (0, 1)]));
}
