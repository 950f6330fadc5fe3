use petri::grid::{wrap, Grid, DEFAULT_DENSITY_PERCENT};

/// Creates a grid and sets specific cells alive.
fn grid_from_points(width: usize, height: usize, alive: &[(usize, usize)]) -> Grid {
    let mut grid = Grid::new(width, height);
    for &(x, y) in alive {
        grid.cells[y * width + x] = 1;
    }
    grid
}

/// Collects all alive cell positions, sorted.
fn alive_cells(grid: &Grid) -> Vec<(usize, usize)> {
    let mut result = Vec::new();
    for y in 0..grid.height {
        for x in 0..grid.width {
            if grid.cells[y * grid.width + x] > 0 {
                result.push((x, y));
            }
        }
    }
    result.sort();
    result
}

#[test]
fn block_still_life() {
    // 2x2 block should never change
    let mut grid = grid_from_points(6, 6, &[(1, 1), (2, 1), (1, 2), (2, 2)]);
    for _ in 0..5 {
        grid.step();
        assert_eq!(alive_cells(&grid), vec![(1, 1), (1, 2), (2, 1), (2, 2)]);
    }
}

#[test]
fn blinker_oscillator() {
    // Vertical line of 3 should toggle to horizontal and back
    let vertical = vec![(2, 1), (2, 2), (2, 3)];
    let horizontal = vec![(1, 2), (2, 2), (3, 2)];

    let mut grid = grid_from_points(6, 6, &vertical);

    grid.step();
    assert_eq!(alive_cells(&grid), horizontal);

    grid.step();
    assert_eq!(alive_cells(&grid), vertical);
}

#[test]
fn empty_grid_stays_empty() {
    let mut grid = Grid::new(10, 10);
    grid.step();
    assert!(alive_cells(&grid).is_empty());
}

#[test]
fn lone_cell_dies() {
    let mut grid = grid_from_points(6, 6, &[(3, 3)]);
    grid.step();
    assert!(alive_cells(&grid).is_empty());
}

#[test]
fn empty_grid_stays_empty_for_many_steps() {
    let mut grid = Grid::new(7, 5);
    for _ in 0..10 {
        grid.step();
        assert_eq!(grid.population(), 0);
    }
}

#[test]
fn block_still_life_across_the_seam() {
    // a block straddling both edges of the torus
    let mut grid = grid_from_points(5, 4, &[(4, 3), (0, 3), (4, 0), (0, 0)]);
    for _ in 0..4 {
        grid.step();
        assert_eq!(alive_cells(&grid), vec![(0, 0), (0, 3), (4, 0), (4, 3)]);
    }
}

#[test]
fn wrap_uses_euclidean_remainder() {
    assert_eq!(wrap(0, -1, 5), 4);
    assert_eq!(wrap(4, 1, 5), 0);
    assert_eq!(wrap(3, -13, 5), 0);
    assert_eq!(wrap(2, 7, 5), 4);
    assert_eq!(wrap(12, 0, 5), 2);
    assert_eq!(wrap(0, isize::MIN, 3), 1);
    assert_eq!(wrap(0, isize::MAX, 3), 1);
}

#[test]
fn corner_counts_across_both_edges() {
    let grid = grid_from_points(5, 4, &[(0, 0)]);
    assert_eq!(grid.count_neighbors(4, 0), 1);
    assert_eq!(grid.count_neighbors(0, 3), 1);
    assert_eq!(grid.count_neighbors(4, 3), 1);
    assert_eq!(grid.count_neighbors(2, 2), 0);
    for &(x, y) in &[(4, 0), (0, 3), (4, 3)] {
        let other = grid_from_points(5, 4, &[(x, y)]);
        assert_eq!(other.count_neighbors(0, 0), 1);
    }
}

#[test]
fn full_neighbourhood_counts_eight() {
    let mut grid = Grid::new(3, 3);
    for i in 0..9 {
        grid.cells[i] = 1;
    }
    assert_eq!(grid.count_neighbors(1, 1), 8);
    assert_eq!(grid.count_neighbors(0, 0), 8);
}

#[test]
fn surviving_cells_age_and_newborns_start_at_one() {
    let mut grid = grid_from_points(6, 6, &[(1, 1), (2, 1), (1, 2), (2, 2)]);
    grid.step();
    assert_eq!(grid.cells[1 * 6 + 1], 2);
    grid.step();
    assert_eq!(grid.cells[2 * 6 + 2], 3);

    let mut blinker = grid_from_points(6, 6, &[(2, 1), (2, 2), (2, 3)]);
    blinker.step();
    // centre survives, ends are newborn
    assert_eq!(blinker.cells[2 * 6 + 2], 2);
    assert_eq!(blinker.cells[2 * 6 + 1], 1);
    assert_eq!(blinker.cells[2 * 6 + 3], 1);
    blinker.step();
    // the top of the vertical line died one step ago and is reborn at 1
    assert_eq!(blinker.cells[1 * 6 + 2], 1);
    assert_eq!(blinker.cells[2 * 6 + 2], 3);
}

#[test]
fn age_saturates_at_the_largest_value() {
    let mut grid = grid_from_points(6, 6, &[(1, 1), (2, 1), (1, 2), (2, 2)]);
    grid.cells[1 * 6 + 1] = u16::MAX;
    grid.step();
    assert_eq!(grid.cells[1 * 6 + 1], u16::MAX);
    assert_eq!(grid.cells[1 * 6 + 2], 2);
}

#[test]
fn population_counts_live_cells() {
    let mut grid = grid_from_points(4, 4, &[(0, 0), (3, 3), (1, 2)]);
    grid.cells[5] = 40;
    assert_eq!(grid.population(), 4);
}

#[test]
fn clear_kills_every_cell() {
    let mut grid = grid_from_points(4, 3, &[(0, 0), (3, 2), (1, 1)]);
    grid.clear();
    assert_eq!(grid.cells, vec![0u16; 12]);
    assert_eq!(grid.population(), 0);
}

#[test]
fn set_cell_wraps_coordinates() {
    let mut grid = Grid::new(4, 3);
    grid.set_cell(5, 4, 7);
    assert_eq!(grid.cells[1 * 4 + 1], 7);
    assert_eq!(grid.population(), 1);
}

#[test]
fn seed_from_rolls_follows_density() {
    let mut grid = Grid::new(3, 2);
    let rolls = vec![0, 24, 25, 99, 10, 50];
    grid.seed_from_rolls(&rolls, 25);
    assert_eq!(grid.cells, vec![1, 1, 0, 0, 1, 0]);
}

#[test]
fn randomize_is_reproducible_and_binary() {
    let mut a = Grid::new(16, 16);
    let mut b = Grid::new(16, 16);
    a.randomize(&mut fastrand::Rng::with_seed(7), DEFAULT_DENSITY_PERCENT);
    b.randomize(&mut fastrand::Rng::with_seed(7), DEFAULT_DENSITY_PERCENT);
    assert_eq!(a.cells, b.cells);
    assert!(a.cells.iter().all(|&c| c == 0 || c == 1));
    let live = a.population();
    assert!(live > 0 && live < 256);
}

#[test]
fn randomize_extreme_densities() {
    let mut grid = Grid::new(8, 8);
    let mut rng = fastrand::Rng::with_seed(1);
    grid.randomize(&mut rng, 0);
    assert_eq!(grid.population(), 0);
    grid.randomize(&mut rng, 100);
    assert_eq!(grid.population(), 64);
}
