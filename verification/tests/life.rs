use game_of_life::CellState;
use game_of_life::Game;
use game_of_life::Grid;
use game_of_life::GridError;

/// Checks that exactly the listed coordinates are Alive.
fn assert_alive_exactly(grid: &Grid, alive: &[(usize, usize)]) {
    for y in 0..grid.height {
        for x in 0..grid.width {
            let expected = if alive.contains(&(x, y)) {
                CellState::Alive
            } else {
                CellState::Dead
            };
            assert_eq!(grid.at(x, y), expected, "cell ({}, {})", x, y);
        }
    }
}

fn game_with(width: usize, height: usize, alive: &[(usize, usize)]) -> Game {
    let mut game = Game::new(width, height).unwrap();
    for &(x, y) in alive {
        assert!(game.grid.in_bounds(x, y));
        game.grid.set(x, y, CellState::Alive);
    }
    game
}

#[test]
fn new_grid_all_dead() {
    let grid = Grid::new(4, 3).unwrap();
    assert_eq!(grid.width, 4);
    assert_eq!(grid.height, 3);
    assert_alive_exactly(&grid, &[]);
}

#[test]
fn new_rejects_zero_dimensions() {
    assert_eq!(Grid::new(0, 5).unwrap_err(), GridError::InvalidDimensions);
    assert_eq!(Grid::new(5, 0).unwrap_err(), GridError::InvalidDimensions);
    assert_eq!(Grid::new(0, 0).unwrap_err(), GridError::InvalidDimensions);
    assert!(Game::new(0, 3).is_err());
    assert!(Game::new(3, 0).is_err());
}

#[test]
fn in_bounds_matches_dimensions() {
    let grid = Grid::new(4, 3).unwrap();
    assert!(grid.in_bounds(0, 0));
    assert!(grid.in_bounds(3, 2));
    assert!(!grid.in_bounds(4, 2));
    assert!(!grid.in_bounds(3, 3));
    assert!(!grid.in_bounds(4, 3));
}

#[test]
fn set_and_at() {
    let mut grid = Grid::new(3, 3).unwrap();
    grid.set(1, 2, CellState::Alive);
    assert_eq!(grid.at(1, 2), CellState::Alive);
    assert_alive_exactly(&grid, &[(1, 2)]);
    grid.set(1, 2, CellState::Dead);
    assert_alive_exactly(&grid, &[]);
}

#[test]
fn neighbors_interior_has_eight() {
    let grid = Grid::new(5, 5).unwrap();
    let mut ns = grid.neighbors(2, 2);
    assert_eq!(ns.len(), 8);
    ns.sort();
    let mut expected = vec![
        (1, 1),
        (2, 1),
        (3, 1),
        (1, 2),
        (3, 2),
        (1, 3),
        (2, 3),
        (3, 3),
    ];
    expected.sort();
    assert_eq!(ns, expected);
}

#[test]
fn neighbors_corner_and_edge() {
    let grid = Grid::new(5, 5).unwrap();
    let mut corner = grid.neighbors(0, 0);
    corner.sort();
    assert_eq!(corner, vec![(0, 1), (1, 0), (1, 1)]);
    let mut edge = grid.neighbors(2, 0);
    edge.sort();
    assert_eq!(edge, vec![(1, 0), (1, 1), (2, 1), (3, 0), (3, 1)]);
    // no duplicates and never the cell itself
    for (i, a) in edge.iter().enumerate() {
        assert_ne!(*a, (2, 0));
        for b in edge.iter().skip(i + 1) {
            assert_ne!(a, b);
        }
    }
}

#[test]
fn neighbors_one_by_one_grid_is_empty() {
    let grid = Grid::new(1, 1).unwrap();
    assert_eq!(grid.neighbors(0, 0).len(), 0);
}

#[test]
fn count_alive_neighbors_counts() {
    let mut grid = Grid::new(3, 3).unwrap();
    grid.set(0, 0, CellState::Alive);
    grid.set(1, 0, CellState::Alive);
    grid.set(2, 2, CellState::Alive);
    assert_eq!(grid.count_alive_neighbors(1, 1), 3);
    assert_eq!(grid.count_alive_neighbors(0, 0), 1);
    assert_eq!(grid.count_alive_neighbors(2, 0), 1);
    assert_eq!(grid.count_alive_neighbors(2, 2), 0);
}

#[test]
fn generation_starts_at_zero_and_increments() {
    let mut game = Game::new(3, 3).unwrap();
    assert_eq!(game.generation, 0);
    game.step();
    assert_eq!(game.generation, 1);
    game.step();
    game.step();
    assert_eq!(game.generation, 3);
}

#[test]
fn generation_saturates_at_max() {
    let mut game = Game::new(2, 2).unwrap();
    game.generation = u32::MAX - 1;
    game.step();
    assert_eq!(game.generation, u32::MAX);
    game.step();
    assert_eq!(game.generation, u32::MAX);
}

#[test]
fn step_all_dead_stays_dead() {
    let mut game = Game::new(6, 4).unwrap();
    game.step();
    assert_alive_exactly(&game.grid, &[]);
}

#[test]
fn isolated_cell_dies() {
    let mut game = game_with(5, 5, &[(2, 2)]);
    game.step();
    assert_alive_exactly(&game.grid, &[]);
}

#[test]
fn isolated_corner_cell_dies() {
    let mut game = game_with(3, 3, &[(0, 0)]);
    game.step();
    assert_alive_exactly(&game.grid, &[]);
}

#[test]
fn block_is_still_life() {
    // The 2x2 block at columns {78, 79}, rows {22, 23} of an 80x24 grid.
    let block = [(78, 22), (79, 22), (78, 23), (79, 23)];
    let mut game = game_with(80, 24, &block);
    for _ in 0..10 {
        game.step();
        assert_alive_exactly(&game.grid, &block);
    }
}

#[test]
fn blinker_oscillates() {
    let mut game = game_with(5, 5, &[(1, 2), (2, 2), (3, 2)]);
    game.step();
    assert_alive_exactly(&game.grid, &[(2, 1), (2, 2), (2, 3)]);
    game.step();
    assert_alive_exactly(&game.grid, &[(1, 2), (2, 2), (3, 2)]);
}

#[test]
fn glider_translates_one_cell_every_four_steps() {
    let glider = [(1, 0), (2, 1), (0, 2), (1, 2), (2, 2)];
    let mut game = game_with(10, 10, &glider);
    for _ in 0..4 {
        game.step();
    }
    let shifted: Vec<(usize, usize)> = glider.iter().map(|&(x, y)| (x + 1, y + 1)).collect();
    assert_alive_exactly(&game.grid, &shifted);
    for _ in 0..4 {
        game.step();
    }
    let shifted2: Vec<(usize, usize)> = glider.iter().map(|&(x, y)| (x + 2, y + 2)).collect();
    assert_alive_exactly(&game.grid, &shifted2);
}

#[test]
fn glider_truncates_at_boundary() {
    // A glider aimed at the bottom-right corner of a 9x9 grid is clipped by
    // the boundary and settles into a 2x2 block in the corner; nothing ever
    // wraps to the opposite edges.
    let glider = [(1, 0), (2, 1), (0, 2), (1, 2), (2, 2)];
    let seeded: Vec<(usize, usize)> = glider.iter().map(|&(x, y)| (x + 6, y + 6)).collect();
    let mut game = game_with(9, 9, &seeded);
    for _ in 0..20 {
        game.step();
        for i in 0..9 {
            assert_eq!(game.grid.at(i, 0), CellState::Dead);
            assert_eq!(game.grid.at(0, i), CellState::Dead);
        }
    }
    assert_alive_exactly(&game.grid, &[(7, 7), (8, 7), (7, 8), (8, 8)]);
}
