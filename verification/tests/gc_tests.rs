use casino_core::audit::sanitize_error;
use casino_core::gc::{get_quadrant, is_quadrant_stale, is_visited, mark_visited, VISITED_WORDS};

#[test]
fn test_get_quadrant() {
    // Top-left quadrant (0)
    assert_eq!(get_quadrant(0, 0), 0);
    assert_eq!(get_quadrant(127, 127), 0);

    // Top-right quadrant (3)
    assert_eq!(get_quadrant(384, 0), 3);
    assert_eq!(get_quadrant(511, 127), 3);

    // Bottom-left quadrant (12)
    assert_eq!(get_quadrant(0, 384), 12);
    assert_eq!(get_quadrant(127, 511), 12);

    // Bottom-right quadrant (15)
    assert_eq!(get_quadrant(511, 511), 15);
}

#[test]
fn test_stale_mask() {
    // Quadrant 0 stale
    let mask = 0b0000_0000_0000_0001u16;
    assert!(is_quadrant_stale(mask, 0));
    assert!(!is_quadrant_stale(mask, 1));

    // Multiple quadrants stale
    let mask = 0b1000_0000_0000_0101u16;
    assert!(is_quadrant_stale(mask, 0));
    assert!(!is_quadrant_stale(mask, 1));
    assert!(is_quadrant_stale(mask, 2));
    assert!(is_quadrant_stale(mask, 15));
}

#[test]
fn test_visited_bitset() {
    let mut visited = vec![0u64; VISITED_WORDS];

    // Initially not visited
    assert!(!is_visited(&visited, 0, 0));
    assert!(!is_visited(&visited, 100, 200));

    // Mark visited
    mark_visited(&mut visited, 0, 0);
    assert!(is_visited(&visited, 0, 0));

    mark_visited(&mut visited, 100, 200);
    assert!(is_visited(&visited, 100, 200));

    // Other cells still not visited
    assert!(!is_visited(&visited, 1, 0));
    assert!(!is_visited(&visited, 0, 1));
}

#[test]
fn test_sanitize_error_truncation() {
    let short_msg = "Short error";
    assert_eq!(sanitize_error(short_msg), "Short error");

    let long_msg = "a".repeat(1000);
    let sanitized = sanitize_error(&long_msg);
    assert_eq!(sanitized.len(), 256, "Error message should be truncated to 256 chars");
    assert_eq!(sanitized, "a".repeat(256));
}

#[test]
fn test_final_position_calculation() {
    // All left moves -> position 0
    let path = vec![false, false, false, false];
    let pos = path.iter().filter(|&&d| d).count();
    assert_eq!(pos, 0);

    // All right moves -> position = rows
    let path = vec![true, true, true, true];
    let pos = path.iter().filter(|&&d| d).count();
    assert_eq!(pos, 4);

    // Mixed: 2 right, 2 left -> position 2
    let path = vec![true, false, true, false];
    let pos = path.iter().filter(|&&d| d).count();
    assert_eq!(pos, 2);
}
