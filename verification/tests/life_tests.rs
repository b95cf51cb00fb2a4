use casino_core::cell::Cell;
use casino_core::grid::GameGrid;
use casino_core::life::{idx, step_generation, step_generation_double_buffer, GRID_SIZE};

fn create_empty_grid() -> Vec<Cell> {
    vec![Cell::default(); GRID_SIZE * GRID_SIZE]
}

#[test]
fn test_empty_grid_stays_empty() {
    let grid = create_empty_grid();
    let (new_grid, transfers) = step_generation(&grid);

    assert!(transfers.is_empty());
    assert!(new_grid.iter().all(|c| !c.alive()));
}

#[test]
fn test_blinker_oscillates() {
    // Create a blinker: 3 cells in a row (horizontal)
    let mut grid = create_empty_grid();
    grid[idx(10, 9)].set_alive(true);
    grid[idx(10, 9)].set_owner(1);
    grid[idx(10, 10)].set_alive(true);
    grid[idx(10, 10)].set_owner(1);
    grid[idx(10, 11)].set_alive(true);
    grid[idx(10, 11)].set_owner(1);

    // After one step, should become vertical
    let (new_grid, _) = step_generation(&grid);
    assert!(!new_grid[idx(10, 9)].alive());
    assert!(new_grid[idx(10, 10)].alive());
    assert!(!new_grid[idx(10, 11)].alive());
    assert!(new_grid[idx(9, 10)].alive());
    assert!(new_grid[idx(11, 10)].alive());

    // After two steps, should be horizontal again
    let (final_grid, _) = step_generation(&new_grid);
    assert!(final_grid[idx(10, 9)].alive());
    assert!(final_grid[idx(10, 10)].alive());
    assert!(final_grid[idx(10, 11)].alive());
    assert!(!final_grid[idx(9, 10)].alive());
    assert!(!final_grid[idx(11, 10)].alive());
}

#[test]
fn test_block_stable() {
    // Create a block: 2x2 square (stable pattern)
    let mut grid = create_empty_grid();
    grid[idx(10, 10)].set_alive(true);
    grid[idx(10, 10)].set_owner(1);
    grid[idx(10, 11)].set_alive(true);
    grid[idx(10, 11)].set_owner(1);
    grid[idx(11, 10)].set_alive(true);
    grid[idx(11, 10)].set_owner(1);
    grid[idx(11, 11)].set_alive(true);
    grid[idx(11, 11)].set_owner(1);

    let (new_grid, transfers) = step_generation(&grid);

    // Block should remain unchanged
    assert!(new_grid[idx(10, 10)].alive());
    assert!(new_grid[idx(10, 11)].alive());
    assert!(new_grid[idx(11, 10)].alive());
    assert!(new_grid[idx(11, 11)].alive());
    assert!(transfers.is_empty());
}

#[test]
fn test_double_buffer_equivalent() {
    // Verify double buffer produces same result as regular step
    let mut grid = create_empty_grid();
    grid[idx(10, 9)].set_alive(true);
    grid[idx(10, 9)].set_owner(1);
    grid[idx(10, 10)].set_alive(true);
    grid[idx(10, 10)].set_owner(1);
    grid[idx(10, 11)].set_alive(true);
    grid[idx(10, 11)].set_owner(1);

    let (new_grid1, transfers1) = step_generation(&grid);

    let mut write_buffer = create_empty_grid();
    let transfers2 = step_generation_double_buffer(&grid, &mut write_buffer);

    assert_eq!(new_grid1, write_buffer);
    assert_eq!(transfers1, transfers2);
}

#[test]
fn test_new_grid() {
    let grid = GameGrid::new(512, 512);
    assert_eq!(grid.width, 512);
    assert_eq!(grid.height, 512);
    assert_eq!(grid.cells.len(), 512 * 512);
    assert_eq!(grid.generation, 0);
}

#[test]
fn test_step() {
    let mut grid = GameGrid::new(512, 512);
    grid.step();
    assert_eq!(grid.generation, 1);
}
