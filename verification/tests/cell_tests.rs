use casino_core::cell::Cell;
use casino_core::life::{idx, GRID_MASK, GRID_SHIFT, GRID_SIZE, TOTAL_CELLS};

#[test]
fn test_cell_new() {
    let cell = Cell::new(5, 100, true);
    assert_eq!(cell.owner(), 5);
    assert_eq!(cell.points(), 100);
    assert!(cell.alive());
}

#[test]
fn test_cell_default() {
    let cell = Cell::default();
    assert_eq!(cell.owner(), 0);
    assert_eq!(cell.points(), 0);
    assert!(!cell.alive());
}

#[test]
fn test_cell_setters() {
    let mut cell = Cell::default();
    cell.set_owner(7);
    cell.set_points(50);
    cell.set_alive(true);
    assert_eq!(cell.owner(), 7);
    assert_eq!(cell.points(), 50);
    assert!(cell.alive());
}

#[test]
fn test_cell_points_saturation() {
    let mut cell = Cell::new(1, 120, true);
    cell.add_points(20);
    assert_eq!(cell.points(), 127); // Clamped to max
}

#[test]
fn test_cell_packed_roundtrip() {
    let cell = Cell::new(10, 64, true);
    let packed = cell.packed();
    let restored = Cell::from_packed(packed);
    assert_eq!(cell, restored);
}

#[test]
fn test_constants() {
    assert_eq!(GRID_SIZE, 512);
    assert_eq!(TOTAL_CELLS, 262_144);
    assert_eq!(1 << GRID_SHIFT, GRID_SIZE);
    assert_eq!(GRID_SIZE - 1, GRID_MASK);
}

#[test]
fn test_idx_function() {
    // Test various positions
    assert_eq!(idx(0, 0), 0);
    assert_eq!(idx(0, 1), 1);
    assert_eq!(idx(1, 0), GRID_SIZE);
    assert_eq!(idx(1, 1), GRID_SIZE + 1);
    assert_eq!(idx(100, 200), 100 * GRID_SIZE + 200);
}
