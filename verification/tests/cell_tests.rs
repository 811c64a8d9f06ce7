use minesweeper::cell::{Cell, CellKind};

#[test]
fn new_cell_keeps_its_fields() {
    let cell = Cell::new(2, 3, CellKind::Number(4));
    assert_eq!(cell.x_position, 2);
    assert_eq!(cell.y_position, 3);
    assert_eq!(cell.value, CellKind::Number(4));
}

#[test]
fn is_bomb_tells_bombs_apart() {
    assert!(Cell::new(0, 0, CellKind::Bomb).is_bomb());
    assert!(!Cell::new(0, 0, CellKind::Empty).is_bomb());
    assert!(!Cell::new(0, 0, CellKind::Number(1)).is_bomb());
}

#[test]
fn is_number_tells_numbers_apart() {
    assert!(Cell::new(0, 0, CellKind::Number(3)).is_number());
    assert!(!Cell::new(0, 0, CellKind::Empty).is_number());
    assert!(!Cell::new(0, 0, CellKind::Bomb).is_number());
}

#[test]
fn increment_number_counts_up_from_empty() {
    let mut cell = Cell::new(1, 2, CellKind::Empty);
    cell.increment_number();
    assert_eq!(cell.value, CellKind::Number(1));
    cell.increment_number();
    assert_eq!(cell.value, CellKind::Number(2));
    assert_eq!(cell.x_position, 1);
    assert_eq!(cell.y_position, 2);
}

#[test]
fn increment_number_leaves_a_bomb_alone() {
    let mut cell = Cell::new(0, 0, CellKind::Bomb);
    cell.increment_number();
    assert_eq!(cell.value, CellKind::Bomb);
}
