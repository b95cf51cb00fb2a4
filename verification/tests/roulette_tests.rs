use casino_core::roulette::{
    get_color, get_column, get_column_numbers, get_dozen, get_dozen_numbers, is_valid_corner,
    is_valid_split, is_valid_street, Color,
};

#[test]
fn test_colors() {
    assert_eq!(get_color(0), Color::Green);
    assert_eq!(get_color(1), Color::Red);
    assert_eq!(get_color(2), Color::Black);
    assert_eq!(get_color(3), Color::Red);
    assert_eq!(get_color(17), Color::Black);
    assert_eq!(get_color(36), Color::Red);
}

#[test]
fn test_columns() {
    assert_eq!(get_column(0), None);
    assert_eq!(get_column(1), Some(1));
    assert_eq!(get_column(2), Some(2));
    assert_eq!(get_column(3), Some(3));
    assert_eq!(get_column(4), Some(1));
    assert_eq!(get_column(36), Some(3));
}

#[test]
fn test_dozens() {
    assert_eq!(get_dozen(0), None);
    assert_eq!(get_dozen(1), Some(1));
    assert_eq!(get_dozen(12), Some(1));
    assert_eq!(get_dozen(13), Some(2));
    assert_eq!(get_dozen(24), Some(2));
    assert_eq!(get_dozen(25), Some(3));
    assert_eq!(get_dozen(36), Some(3));
}

#[test]
fn test_valid_splits() {
    // 0 with 1, 2, 3
    assert!(is_valid_split(0, 1));
    assert!(is_valid_split(0, 2));
    assert!(is_valid_split(0, 3));
    assert!(!is_valid_split(0, 4));

    // Horizontal splits (differ by 3)
    assert!(is_valid_split(1, 4));
    assert!(is_valid_split(2, 5));
    assert!(is_valid_split(33, 36));

    // Vertical splits (differ by 1, same street)
    assert!(is_valid_split(1, 2));
    assert!(is_valid_split(2, 3));
    assert!(!is_valid_split(3, 4)); // Different streets

    // Invalid
    assert!(!is_valid_split(1, 5));
    assert!(!is_valid_split(1, 1));
    assert!(!is_valid_split(37, 38));
}

#[test]
fn test_valid_street() {
    assert!(is_valid_street(1));
    assert!(is_valid_street(4));
    assert!(is_valid_street(34));
    assert!(!is_valid_street(0));
    assert!(!is_valid_street(2));
    assert!(!is_valid_street(35));
}

#[test]
fn test_valid_corner() {
    assert!(is_valid_corner(1));
    assert!(is_valid_corner(2));
    assert!(!is_valid_corner(3)); // Column 3
    assert!(is_valid_corner(4));
    assert!(is_valid_corner(32));
    assert!(!is_valid_corner(33)); // Column 3
    assert!(!is_valid_corner(34)); // Would go beyond 36
    assert!(!is_valid_corner(0));
}

#[test]
fn test_column_numbers() {
    let col1 = get_column_numbers(1);
    assert_eq!(col1, [1, 4, 7, 10, 13, 16, 19, 22, 25, 28, 31, 34]);

    let col3 = get_column_numbers(3);
    assert_eq!(col3, [3, 6, 9, 12, 15, 18, 21, 24, 27, 30, 33, 36]);
}

#[test]
fn test_dozen_numbers() {
    let dozen1 = get_dozen_numbers(1);
    assert_eq!(dozen1, [1, 2, 3, 4, 5, 6, 7, 8, 9, 10, 11, 12]);

    let dozen3 = get_dozen_numbers(3);
    assert_eq!(dozen3, [25, 26, 27, 28, 29, 30, 31, 32, 33, 34, 35, 36]);
}
