use conway_life::life::Conway;
use conway_life::life::GridError;
use conway_life::life::LifeCell;
use conway_life::life::apply_rule;
use conway_life::life::count_live_neighbors;

/// Builds a grid of the given side with exactly the given cells alive.
fn grid_with(size: usize, alive: &[(usize, usize)]) -> Conway {
    let mut c = Conway::new(size).unwrap();
    for &(row, col) in alive {
        c.set(row, col, true).unwrap();
    }
    c
}

/// The coordinates of the live cells, in row-major order.
fn alive_coords(c: &Conway) -> Vec<(usize, usize)> {
    c.live_cells().iter().map(|cell| (cell.row, cell.col)).collect()
}

#[test]
fn new_builds_a_dead_grid() {
    let c = Conway::new(4).unwrap();
    assert_eq!(c.grid_size(), 4);
    assert_eq!(c.generation(), 1);
    for row in 0..4 {
        for col in 0..4 {
            assert_eq!(c.get(row, col), Ok(false));
        }
    }
    assert!(c.live_cells().is_empty());
}

#[test]
fn new_rejects_an_oversized_dimension() {
    assert_eq!(Conway::new(usize::MAX).err(), Some(GridError::InvalidDimension));
    assert_eq!(
        Conway::new_random(usize::MAX, 3).err(),
        Some(GridError::InvalidDimension)
    );
}

#[test]
fn size_zero_grid_is_trivially_empty() {
    let mut c = Conway::new(0).unwrap();
    assert_eq!(c.grid_size(), 0);
    assert_eq!(c.get(0, 0), Err(GridError::OutOfBounds));
    assert!(c.live_cells().is_empty());
    c.tick();
    assert_eq!(c.generation(), 2);
    assert!(c.live_cells().is_empty());
}

#[test]
fn get_and_set_reject_out_of_bounds_coordinates() {
    let mut c = Conway::new(3).unwrap();
    assert_eq!(c.get(3, 0), Err(GridError::OutOfBounds));
    assert_eq!(c.get(0, 3), Err(GridError::OutOfBounds));
    assert_eq!(c.set(3, 0, true), Err(GridError::OutOfBounds));
    assert_eq!(c.set(0, 3, true), Err(GridError::OutOfBounds));
    assert!(c.live_cells().is_empty());
}

#[test]
fn set_then_get_roundtrip() {
    let mut c = Conway::new(3).unwrap();
    assert_eq!(c.set(1, 2, true), Ok(()));
    assert_eq!(c.get(1, 2), Ok(true));
    assert_eq!(c.get(2, 1), Ok(false));
    assert_eq!(c.set(1, 2, false), Ok(()));
    assert_eq!(c.get(1, 2), Ok(false));
}

#[test]
fn reading_twice_returns_the_same_value() {
    let c = grid_with(3, &[(1, 1)]);
    assert_eq!(c.get(1, 1), c.get(1, 1));
    assert_eq!(c.get(0, 2), c.get(0, 2));
    assert_eq!(c.get(5, 5), c.get(5, 5));
}

#[test]
fn dead_grids_stay_dead() {
    for size in 1..=6 {
        let mut c = Conway::new(size).unwrap();
        c.tick();
        assert_eq!(c.generation(), 2);
        assert!(c.live_cells().is_empty());
    }
}

#[test]
fn an_isolated_live_cell_dies() {
    let mut c = grid_with(1, &[(0, 0)]);
    c.tick();
    assert_eq!(c.get(0, 0), Ok(false));

    let mut c = grid_with(5, &[(2, 2)]);
    c.tick();
    assert!(c.live_cells().is_empty());
}

#[test]
fn a_two_by_two_block_is_a_still_life() {
    let mut c = grid_with(4, &[(1, 1), (1, 2), (2, 1), (2, 2)]);
    c.tick();
    assert_eq!(alive_coords(&c), vec![(1, 1), (1, 2), (2, 1), (2, 2)]);

    // The same block pushed into the corner is still stable.
    let mut c = grid_with(4, &[(0, 0), (0, 1), (1, 0), (1, 1)]);
    c.tick();
    assert_eq!(alive_coords(&c), vec![(0, 0), (0, 1), (1, 0), (1, 1)]);
}

#[test]
fn the_glider_advances_one_generation() {
    let mut c = grid_with(5, &[(1, 2), (2, 3), (3, 1), (3, 2), (3, 3)]);
    c.tick();
    assert_eq!(c.generation(), 2);
    assert_eq!(alive_coords(&c), vec![(2, 1), (2, 3), (3, 2), (3, 3), (4, 2)]);
}

#[test]
fn a_corner_cell_with_three_in_bounds_neighbors_survives() {
    let mut c = grid_with(4, &[(0, 0), (0, 1), (1, 0), (1, 1)]);
    assert_eq!(count_live_neighbors(&c.current, 4, 0, 0), 3);
    c.tick();
    assert_eq!(c.get(0, 0), Ok(true));
}

#[test]
fn boundary_neighbor_counts_never_exceed_the_in_bounds_slots() {
    // Every cell of a 3x3 grid alive: the count equals the slot count.
    let all: Vec<(usize, usize)> =
        (0..3).flat_map(|r| (0..3).map(move |c| (r, c))).collect();
    let c = grid_with(3, &all);
    assert_eq!(count_live_neighbors(&c.current, 3, 0, 0), 3);
    assert_eq!(count_live_neighbors(&c.current, 3, 0, 1), 5);
    assert_eq!(count_live_neighbors(&c.current, 3, 2, 2), 3);
    assert_eq!(count_live_neighbors(&c.current, 3, 1, 1), 8);
}

#[test]
fn the_generation_counter_grows_by_one_per_tick() {
    let mut c = Conway::new(3).unwrap();
    assert_eq!(c.generation(), 1);
    c.tick();
    assert_eq!(c.generation(), 2);
    c.tick();
    assert_eq!(c.generation(), 3);
}

#[test]
fn the_throttle_permits_at_most_one_transition_per_opening() {
    let mut c = Conway::new(3).unwrap();
    assert!(!c.is_tick_allowed());
    assert!(!c.try_tick());
    assert_eq!(c.generation(), 1);

    c.allow_tick();
    assert!(c.is_tick_allowed());
    assert!(c.try_tick());
    assert_eq!(c.generation(), 2);
    assert!(!c.is_tick_allowed());

    // The permission was consumed: a second attempt does nothing.
    assert!(!c.try_tick());
    assert_eq!(c.generation(), 2);

    c.allow_tick();
    c.mark_tick_consumed();
    assert!(!c.try_tick());
    assert_eq!(c.generation(), 2);
}

#[test]
fn the_rule_matches_the_standard_table() {
    for n in 0..=8u8 {
        assert_eq!(apply_rule(true, n), n == 2 || n == 3);
        assert_eq!(apply_rule(false, n), n == 3);
    }
}

#[test]
fn a_cell_with_four_neighbors_dies_and_one_with_three_is_born() {
    // A plus shape: the center has 4 live neighbors and dies.
    let mut c = grid_with(5, &[(1, 2), (2, 1), (2, 2), (2, 3), (3, 2)]);
    assert_eq!(count_live_neighbors(&c.current, 5, 2, 2), 4);
    c.tick();
    assert_eq!(c.get(2, 2), Ok(false));

    // A bare corner of three: the missing fourth cell is born.
    let mut c = grid_with(4, &[(1, 1), (1, 2), (2, 1)]);
    c.tick();
    assert_eq!(c.get(2, 2), Ok(true));
}

#[test]
fn random_seeding_respects_the_threshold_extremes() {
    // No die roll exceeds 6, so nothing comes alive.
    let c = Conway::new_random(8, 6).unwrap();
    assert_eq!(c.grid_size(), 8);
    assert_eq!(c.generation(), 1);
    assert!(c.live_cells().is_empty());

    // Every die roll exceeds 0, so everything comes alive.
    let c = Conway::new_random(8, 0).unwrap();
    assert_eq!(c.live_cells().len(), 64);
}

#[test]
fn live_cells_lists_cells_in_row_major_order() {
    let c = grid_with(3, &[(2, 0), (0, 1), (1, 2)]);
    let live = c.live_cells();
    assert_eq!(
        live,
        vec![
            LifeCell { row: 0, col: 1, alive: true },
            LifeCell { row: 1, col: 2, alive: true },
            LifeCell { row: 2, col: 0, alive: true },
        ]
    );
}

#[test]
fn the_default_board_is_a_dead_fifty_by_fifty_grid() {
    let c = Conway::default();
    assert_eq!(c.grid_size(), 50);
    assert_eq!(c.generation(), 1);
    assert!(!c.is_tick_allowed());
    assert!(c.live_cells().is_empty());
}

#[test]
fn every_cell_is_stamped_with_its_own_coordinates_after_a_tick() {
    let mut c = Conway::new_random(6, 3).unwrap();
    c.tick();
    for cell in c.live_cells() {
        assert_eq!(c.get(cell.row, cell.col), Ok(true));
        assert!(cell.row < 6 && cell.col < 6);
    }
}
