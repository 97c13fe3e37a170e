use gol_rust::gol_2::is_alive;
use gol_rust::gol_2::num_living_neighbors;
use gol_rust::grid::neighbors;
use std::collections::HashSet;

fn cells(list: &[(i32, i32)]) -> HashSet<(i32, i32)> {
    list.iter().cloned().collect()
}

fn sorted(mut list: Vec<(i32, i32)>) -> Vec<(i32, i32)> {
    list.sort();
    list
}

#[test]
fn neighbors_of_the_origin_are_the_eight_around_it() {
    let around = neighbors(&(0, 0));
    assert_eq!(around.len(), 8);
    assert_eq!(
        sorted(around),
        vec![(-1, -1), (-1, 0), (-1, 1), (0, -1), (0, 1), (1, -1), (1, 0), (1, 1)]
    );
}

#[test]
fn neighbors_leave_the_cell_itself_out() {
    let around = neighbors(&(12, -40));
    assert!(!around.contains(&(12, -40)));
    assert_eq!(
        sorted(around),
        vec![
            (11, -41),
            (11, -40),
            (11, -39),
            (12, -41),
            (12, -39),
            (13, -41),
            (13, -40),
            (13, -39)
        ]
    );
}

#[test]
fn neighbors_are_all_different() {
    let mut around = neighbors(&(-3, 9));
    around.sort();
    around.dedup();
    assert_eq!(around.len(), 8);
}

#[test]
fn neighbors_next_to_the_rim_are_still_eight() {
    assert_eq!(neighbors(&(i32::MAX - 1, i32::MIN + 1)).len(), 8);
    assert!(neighbors(&(i32::MAX - 1, 0)).contains(&(i32::MAX, 1)));
}

#[test]
fn neighbors_on_the_rim_stop_at_the_rim() {
    let top = i32::MAX;
    let low = i32::MIN;
    assert_eq!(
        sorted(neighbors(&(top, 0))),
        vec![(top - 1, -1), (top - 1, 0), (top - 1, 1), (top, -1), (top, 1)]
    );
    assert_eq!(
        sorted(neighbors(&(0, low))),
        vec![(-1, low), (-1, low + 1), (0, low + 1), (1, low), (1, low + 1)]
    );
    assert_eq!(
        sorted(neighbors(&(top, top))),
        vec![(top - 1, top - 1), (top - 1, top), (top, top - 1)]
    );
    assert_eq!(
        sorted(neighbors(&(low, low))),
        vec![(low, low + 1), (low + 1, low), (low + 1, low + 1)]
    );
    assert_eq!(neighbors(&(low, top)).len(), 3);
}

#[test]
fn is_alive_tells_the_living_from_the_dead() {
    let state = cells(&[(0, 0), (4, -4)]);
    assert!(is_alive(&(0, 0), &state));
    assert!(is_alive(&(4, -4), &state));
    assert!(!is_alive(&(-4, 4), &state));
    assert!(!is_alive(&(0, 1), &state));
    assert!(!is_alive(&(0, 0), &HashSet::new()));
}

#[test]
fn num_living_neighbors_counts_from_none_to_eight() {
    let ring = [(-1, -1), (-1, 0), (-1, 1), (0, -1), (0, 1), (1, -1), (1, 0), (1, 1)];
    for living in 0..9usize {
        let state = cells(&ring[..living]);
        let expected: i32 = living as i32;
        assert_eq!(num_living_neighbors(&(0, 0), &state), expected);
    }
}

#[test]
fn num_living_neighbors_leaves_the_cell_itself_out() {
    let state = cells(&[(0, 0), (1, 1)]);
    assert_eq!(num_living_neighbors(&(0, 0), &state), 1);
    assert_eq!(num_living_neighbors(&(1, 1), &state), 1);
    assert_eq!(num_living_neighbors(&(0, 1), &state), 2);
}

#[test]
fn num_living_neighbors_looks_one_step_and_no_further() {
    let state = cells(&[(2, 0), (0, 2), (-2, -2), (2, 1), (100, 100)]);
    assert_eq!(num_living_neighbors(&(0, 0), &state), 0);
    assert_eq!(num_living_neighbors(&(1, 0), &state), 2);
}

#[test]
fn num_living_neighbors_on_the_rim() {
    let top = i32::MAX;
    let state = cells(&[(top, 0), (top, 1), (top - 1, 1), (top, 2)]);
    assert_eq!(num_living_neighbors(&(top, 1), &state), 3);
    assert_eq!(num_living_neighbors(&(top, 0), &state), 2);
    assert_eq!(num_living_neighbors(&(i32::MIN, 1), &state), 0);
}
