use game_of_life::grid::Grid;

#[test]
fn new_grid_is_all_dead() {
    let g = Grid::new(3, 4);
    assert_eq!(g.rows(), 3);
    assert_eq!(g.cols(), 4);
    for r in 0..3 {
        for c in 0..4 {
            assert!(!g.is_alive(r, c));
        }
    }
    assert!(g.live_cells().is_empty());
}

#[test]
fn set_cell_changes_only_that_cell() {
    let mut g = Grid::new(2, 2);
    g.set_cell(0, 1, true);
    assert!(g.is_alive(0, 1));
    assert!(!g.is_alive(0, 0));
    assert!(!g.is_alive(1, 0));
    assert!(!g.is_alive(1, 1));
    g.set_cell(0, 1, false);
    assert!(!g.is_alive(0, 1));
}

#[test]
fn blinker_oscillates_with_period_two() {
    // A horizontal blinker in a 3x3 grid: only the middle row alive.
    let mut g = Grid::new(3, 3);
    g.set_cell(1, 0, true);
    g.set_cell(1, 1, true);
    g.set_cell(1, 2, true);

    // After one step only the middle column is alive. An in-place update
    // would get this wrong: it would kill (1, 0) before (0, 1) and (1, 1)
    // had counted it.
    g.step();
    assert_eq!(g.live_cells(), vec![(0, 1), (1, 1), (2, 1)]);

    // After a second step the original middle row is back.
    g.step();
    assert_eq!(g.live_cells(), vec![(1, 0), (1, 1), (1, 2)]);
}

#[test]
fn lone_cell_dies_of_underpopulation() {
    let mut g = Grid::new(3, 3);
    g.set_cell(1, 1, true);
    g.step();
    assert!(g.live_cells().is_empty());
}

#[test]
fn live_cell_with_four_neighbors_dies_of_overpopulation() {
    // Center alive with all four corners alive: exactly 4 alive neighbors.
    let mut g = Grid::new(3, 3);
    g.set_cell(1, 1, true);
    g.set_cell(0, 0, true);
    g.set_cell(0, 2, true);
    g.set_cell(2, 0, true);
    g.set_cell(2, 2, true);
    g.step();
    assert!(!g.is_alive(1, 1));
}

#[test]
fn dead_cell_with_three_neighbors_is_born() {
    // Dead center under a full top row: exactly 3 alive neighbors.
    let mut g = Grid::new(3, 3);
    g.set_cell(0, 0, true);
    g.set_cell(0, 1, true);
    g.set_cell(0, 2, true);
    g.step();
    assert!(g.is_alive(1, 1));
}

#[test]
fn dead_cell_with_two_neighbors_stays_dead() {
    let mut g = Grid::new(3, 3);
    g.set_cell(0, 0, true);
    g.set_cell(0, 1, true);
    g.step();
    assert!(!g.is_alive(1, 1));
}

#[test]
fn dead_cell_with_four_neighbors_stays_dead() {
    let mut g = Grid::new(3, 3);
    g.set_cell(0, 0, true);
    g.set_cell(0, 2, true);
    g.set_cell(2, 0, true);
    g.set_cell(2, 2, true);
    g.step();
    assert!(!g.is_alive(1, 1));
}

#[test]
fn corner_cell_of_empty_grid_dies() {
    // Bounded topology: (0, 0) has only 3 possible neighbor slots, all
    // empty, so nothing outside the grid can keep it alive.
    let mut g = Grid::new(3, 3);
    g.set_cell(0, 0, true);
    g.step();
    assert!(g.live_cells().is_empty());
}

#[test]
fn row_grid_does_not_wrap_around() {
    // In a 1x3 grid with every cell alive, the two end cells have only one
    // neighbor each (no wrap-around) and die; the middle survives with two.
    let mut g = Grid::new(1, 3);
    g.set_cell(0, 0, true);
    g.set_cell(0, 1, true);
    g.set_cell(0, 2, true);
    g.step();
    assert_eq!(g.live_cells(), vec![(0, 1)]);
}

#[test]
fn one_by_one_grid_is_valid() {
    let mut g = Grid::new(1, 1);
    g.set_cell(0, 0, true);
    g.step();
    assert!(!g.is_alive(0, 0));
}

#[test]
fn randomize_yields_in_bounds_distinct_coordinates() {
    let mut g = Grid::new(8, 5);
    g.randomize();
    assert_eq!(g.rows(), 8);
    assert_eq!(g.cols(), 5);
    let live = g.live_cells();
    for &(r, c) in live.iter() {
        assert!(r < 8);
        assert!(c < 5);
    }
    // Row-major strictly increasing, hence no duplicates.
    for w in live.windows(2) {
        let (r0, c0) = w[0];
        let (r1, c1) = w[1];
        assert!(r0 < r1 || (r0 == r1 && c0 < c1));
    }
}

#[test]
fn live_cells_come_in_row_major_order() {
    let mut g = Grid::new(3, 3);
    g.set_cell(2, 0, true);
    g.set_cell(0, 2, true);
    g.set_cell(1, 1, true);
    g.set_cell(0, 0, true);
    assert_eq!(g.live_cells(), vec![(0, 0), (0, 2), (1, 1), (2, 0)]);
}
