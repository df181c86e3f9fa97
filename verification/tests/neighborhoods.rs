//! Scenario tests for the three neighborhood strategies.

use mesa::bounds::out_of_bounds;
use mesa::dedup::{fast_path_neighbors, get_neighborhood_set, slow_path_neighbors};
use mesa::model::NeighborhoodError;
use mesa::range::get_neighborhood_clamped;
use mesa::vector::get_neighborhood_vector;

fn sorted(mut v: Vec<(i32, i32)>) -> Vec<(i32, i32)> {
    v.sort();
    v
}

fn set_of(v: Vec<(i32, i32)>) -> Vec<(i32, i32)> {
    let mut s = sorted(v);
    s.dedup();
    s
}

#[test]
fn interior_moore_radius_one_all_strategies() {
    let expected: Vec<(i32, i32)> = vec![
        (4, 4),
        (4, 5),
        (4, 6),
        (5, 4),
        (5, 5),
        (5, 6),
        (6, 4),
        (6, 5),
        (6, 6),
    ];
    let set = get_neighborhood_set((5, 5), true, true, 1, false, 10, 10).unwrap();
    assert_eq!(sorted(set), expected);
    let vec = get_neighborhood_vector((5, 5), true, true, 1, false, 10, 10).unwrap();
    assert_eq!(sorted(vec), expected);
    let clamped = get_neighborhood_clamped((5, 5), true, 1, 10, 10).unwrap();
    assert_eq!(sorted(clamped), expected);
}

#[test]
fn corner_moore_radius_one_clamped() {
    let expected: Vec<(i32, i32)> = vec![(0, 0), (0, 1), (1, 0), (1, 1)];
    let set = get_neighborhood_set((0, 0), true, true, 1, false, 10, 10).unwrap();
    assert_eq!(sorted(set), expected);
    let vec = get_neighborhood_vector((0, 0), true, true, 1, false, 10, 10).unwrap();
    assert_eq!(sorted(vec), expected);
    let clamped = get_neighborhood_clamped((0, 0), true, 1, 10, 10).unwrap();
    assert_eq!(sorted(clamped), expected);
}

#[test]
fn corner_moore_radius_one_torus_wraps() {
    let expected: Vec<(i32, i32)> = vec![
        (0, 0),
        (0, 1),
        (0, 9),
        (1, 0),
        (1, 1),
        (1, 9),
        (9, 0),
        (9, 1),
        (9, 9),
    ];
    let set = get_neighborhood_set((0, 0), true, true, 1, true, 10, 10).unwrap();
    assert_eq!(sorted(set), expected);
    let vec = get_neighborhood_vector((0, 0), true, true, 1, true, 10, 10).unwrap();
    assert_eq!(sorted(vec), expected);
}

#[test]
fn von_neumann_radius_one_is_center_plus_orthogonals() {
    let expected: Vec<(i32, i32)> = vec![(4, 5), (5, 4), (5, 5), (5, 6), (6, 5)];
    let set = get_neighborhood_set((5, 5), false, true, 1, false, 10, 10).unwrap();
    assert_eq!(sorted(set), expected);
    let vec = get_neighborhood_vector((5, 5), false, true, 1, false, 10, 10).unwrap();
    assert_eq!(sorted(vec), expected);
    let clamped = get_neighborhood_clamped((5, 5), false, 1, 10, 10).unwrap();
    assert_eq!(sorted(clamped), expected);
}

#[test]
fn radius_zero_with_center_is_exactly_center() {
    for torus in [false, true] {
        for moore in [false, true] {
            let set = get_neighborhood_set((3, 7), moore, true, 0, torus, 10, 10).unwrap();
            assert_eq!(set, vec![(3, 7)]);
            let vec = get_neighborhood_vector((3, 7), moore, true, 0, torus, 10, 10).unwrap();
            assert_eq!(vec, vec![(3, 7)]);
        }
    }
    let clamped = get_neighborhood_clamped((3, 7), false, 0, 10, 10).unwrap();
    assert_eq!(clamped, vec![(3, 7)]);
}

#[test]
fn radius_zero_without_center_is_empty() {
    for torus in [false, true] {
        for moore in [false, true] {
            let set = get_neighborhood_set((3, 7), moore, false, 0, torus, 10, 10).unwrap();
            assert!(set.is_empty());
            let vec = get_neighborhood_vector((3, 7), moore, false, 0, torus, 10, 10).unwrap();
            assert!(vec.is_empty());
        }
    }
}

#[test]
fn excluding_center_removes_exactly_center() {
    for torus in [false, true] {
        for moore in [false, true] {
            let with = get_neighborhood_set((4, 4), moore, true, 2, torus, 9, 9).unwrap();
            let without = get_neighborhood_set((4, 4), moore, false, 2, torus, 9, 9).unwrap();
            let mut expected = set_of(with);
            expected.retain(|c| *c != (4, 4));
            assert_eq!(set_of(without), expected);

            let with = get_neighborhood_vector((4, 4), moore, true, 2, torus, 9, 9).unwrap();
            let without = get_neighborhood_vector((4, 4), moore, false, 2, torus, 9, 9).unwrap();
            let mut expected = set_of(with);
            expected.retain(|c| *c != (4, 4));
            assert_eq!(set_of(without), expected);
        }
    }
}

#[test]
fn invalid_arguments_are_rejected() {
    assert_eq!(
        get_neighborhood_set((0, 0), true, true, -1, false, 10, 10),
        Err(NeighborhoodError::InvalidArgument)
    );
    assert_eq!(
        get_neighborhood_set((0, 0), true, true, 1, false, 0, 10),
        Err(NeighborhoodError::InvalidArgument)
    );
    assert_eq!(
        get_neighborhood_vector((0, 0), true, true, 1, false, 10, -3),
        Err(NeighborhoodError::InvalidArgument)
    );
    assert_eq!(
        get_neighborhood_vector((0, 0), true, true, -7, true, 10, 10),
        Err(NeighborhoodError::InvalidArgument)
    );
    assert_eq!(
        get_neighborhood_clamped((0, 0), true, -1, 10, 10),
        Err(NeighborhoodError::InvalidArgument)
    );
    assert_eq!(
        get_neighborhood_clamped((0, 0), true, 1, 10, 0),
        Err(NeighborhoodError::InvalidArgument)
    );
}

#[test]
fn fast_and_slow_paths_agree_on_interior_queries() {
    for moore in [false, true] {
        for torus in [false, true] {
            let fast = fast_path_neighbors((5, 5), moore, 2, 11, 11);
            let slow = slow_path_neighbors((5, 5), moore, 2, torus, 11, 11);
            assert_eq!(sorted(fast), sorted(slow));
        }
    }
}

#[test]
fn set_and_vector_agree_below_half_extent() {
    let queries = [
        ((2, 3), true, true, 2, true, 11, 13),
        ((2, 3), false, false, 2, true, 11, 13),
        ((0, 0), true, false, 3, false, 8, 9),
        ((7, 1), false, true, 3, false, 8, 9),
        ((10, 12), true, true, 4, true, 11, 13),
    ];
    for (pos, moore, ic, radius, torus, w, h) in queries {
        let set = get_neighborhood_set(pos, moore, ic, radius, torus, w, h).unwrap();
        let vec = get_neighborhood_vector(pos, moore, ic, radius, torus, w, h).unwrap();
        assert_eq!(set_of(set), set_of(vec));
    }
}

#[test]
fn clamped_matches_vector_exactly_without_torus() {
    let queries = [
        ((5, 5), true, 1, 10, 10),
        ((0, 0), true, 3, 7, 9),
        ((6, 8), false, 4, 7, 9),
        ((-2, 3), true, 2, 7, 9),
        ((100, 100), false, 5, 7, 9),
    ];
    for (pos, moore, radius, w, h) in queries {
        let clamped = get_neighborhood_clamped(pos, moore, radius, w, h).unwrap();
        let vec = get_neighborhood_vector(pos, moore, true, radius, false, w, h).unwrap();
        assert_eq!(clamped, vec);
        let set = get_neighborhood_set(pos, moore, true, radius, false, w, h).unwrap();
        assert_eq!(set_of(set), set_of(clamped));
    }
}

#[test]
fn vector_keeps_torus_collision_duplicates() {
    let vec = get_neighborhood_vector((0, 0), true, true, 1, true, 1, 1).unwrap();
    assert_eq!(vec.len(), 9);
    assert!(vec.iter().all(|c| *c == (0, 0)));
    let set = get_neighborhood_set((0, 0), true, true, 1, true, 1, 1).unwrap();
    assert_eq!(set, vec![(0, 0)]);
}

#[test]
fn out_of_grid_center_without_torus_yields_reachable_cells_only() {
    let set = get_neighborhood_set((-2, -2), true, true, 1, false, 10, 10).unwrap();
    assert!(set.is_empty());
    let vec = get_neighborhood_vector((-1, 0), true, true, 1, false, 10, 10).unwrap();
    assert_eq!(sorted(vec), vec![(0, 0), (0, 1)]);
}

#[test]
fn out_of_grid_center_with_torus_wraps_fully() {
    let set = get_neighborhood_set((-1, -1), true, true, 1, true, 10, 10).unwrap();
    let expected: Vec<(i32, i32)> = vec![
        (0, 0),
        (0, 8),
        (0, 9),
        (8, 0),
        (8, 8),
        (8, 9),
        (9, 0),
        (9, 8),
        (9, 9),
    ];
    assert_eq!(sorted(set), expected);
}

#[test]
fn bounds_checker_matches_extent() {
    assert!(!out_of_bounds((0, 0), 1, 1));
    assert!(out_of_bounds((-1, 0), 10, 10));
    assert!(out_of_bounds((0, -1), 10, 10));
    assert!(out_of_bounds((10, 0), 10, 10));
    assert!(out_of_bounds((0, 10), 10, 10));
    assert!(!out_of_bounds((9, 9), 10, 10));
}

#[test]
fn large_radius_covers_whole_grid() {
    let set = get_neighborhood_set((1, 1), true, true, 50, false, 3, 3).unwrap();
    assert_eq!(set_of(set).len(), 9);
    let clamped = get_neighborhood_clamped((1, 1), true, 50, 3, 3).unwrap();
    assert_eq!(clamped.len(), 9);
}
