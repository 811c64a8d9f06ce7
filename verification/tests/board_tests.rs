use minesweeper::board::{Board, BoardError};
use minesweeper::cell::CellKind;

fn bombs_on(board: &Board) -> u32 {
    let mut bombs: u32 = 0;
    for x in 0..board.side_size {
        for y in 0..board.side_size {
            if board.get_element(x, y).unwrap().is_bomb() {
                bombs += 1;
            }
        }
    }
    bombs
}

#[test]
fn new_accepts_perfect_squares() {
    for n in [1u16, 4, 9, 16, 25, 36] {
        let board = Board::new(n).unwrap();
        assert_eq!(board.size, n);
        assert_eq!(board.elements.len(), n as usize);
        assert_eq!(board.side_size * board.side_size, n);
    }
}

#[test]
fn new_rejects_non_squares() {
    for n in [2u16, 3, 5, 10, 24] {
        assert_eq!(Board::new(n).unwrap_err(), BoardError::InvalidSize);
    }
}

#[test]
fn new_accepts_empty_board() {
    let board = Board::new(0).unwrap();
    assert_eq!(board.elements.len(), 0);
    assert_eq!(board.side_size, 0);
    assert_eq!(bombs_on(&board), 0);
}

#[test]
fn bomb_totals_match_rounded_density() {
    for (n, bombs) in [(1u16, 0u32), (4, 1), (9, 3), (16, 5), (25, 8), (36, 11)] {
        let board = Board::new(n).unwrap();
        assert_eq!(bombs_on(&board), bombs);
    }
}

#[test]
fn bomb_total_on_large_board() {
    let board = Board::new(10000).unwrap();
    assert_eq!(bombs_on(&board), 3000);
}

#[test]
fn new_board_holds_only_empty_and_bomb_cells() {
    let board = Board::new(16).unwrap();
    for x in 0..board.side_size {
        for y in 0..board.side_size {
            let cell = board.get_element(x, y).unwrap();
            assert!(matches!(cell.value, CellKind::Empty | CellKind::Bomb));
            assert_eq!(cell.x_position, x);
            assert_eq!(cell.y_position, y);
        }
    }
}

#[test]
fn scenario_set_elements_on_small_board() {
    let mut board = Board::new(9).unwrap();
    board.set_element(0, 0, CellKind::Bomb).unwrap();
    board.set_element(0, 1, CellKind::Number(1)).unwrap();
    assert!(board.get_element(0, 0).unwrap().is_bomb());
    assert_eq!(board.get_element(0, 1).unwrap().value, CellKind::Number(1));
    for x in 0..3u16 {
        for y in 0..3u16 {
            if (x, y) != (0, 0) && (x, y) != (0, 1) {
                // bomb placement during construction may have mined the cell,
                // but the two writes above touched nothing else
                let cell = board.get_element(x, y).unwrap();
                assert!(matches!(cell.value, CellKind::Empty | CellKind::Bomb));
            }
        }
    }
}

#[test]
fn scenario_mapping_on_sixteen_cells() {
    let board = Board::new(16).unwrap();
    assert_eq!(board.side_size, 4);
    assert_eq!(Board::from_vector_index_to_coordinates(16, 5), (1, 1));
    assert_eq!(Board::from_coordinates_to_vector_index(4, 1, 1).unwrap(), 5);
}

#[test]
fn mapping_round_trips() {
    for index in 0..16usize {
        let (x, y) = Board::from_vector_index_to_coordinates(16, index);
        assert_eq!(Board::from_coordinates_to_vector_index(4, x, y).unwrap(), index);
    }
    for x in 0..4u16 {
        for y in 0..4u16 {
            let index = Board::from_coordinates_to_vector_index(4, x, y).unwrap();
            assert_eq!(Board::from_vector_index_to_coordinates(16, index), (x, y));
        }
    }
}

#[test]
fn coordinates_to_index_rejects_out_of_bounds() {
    assert_eq!(
        Board::from_coordinates_to_vector_index(4, 4, 0).unwrap_err(),
        BoardError::OutOfBounds
    );
    assert_eq!(
        Board::from_coordinates_to_vector_index(4, 0, 4).unwrap_err(),
        BoardError::OutOfBounds
    );
    assert_eq!(
        Board::from_coordinates_to_vector_index(4, 7, 9).unwrap_err(),
        BoardError::OutOfBounds
    );
}

#[test]
fn get_element_rejects_out_of_bounds() {
    let board = Board::new(9).unwrap();
    assert_eq!(board.get_element(3, 0).unwrap_err(), BoardError::OutOfBounds);
    assert_eq!(board.get_element(0, 3).unwrap_err(), BoardError::OutOfBounds);
    assert_eq!(board.get_element(3, 3).unwrap_err(), BoardError::OutOfBounds);
}

#[test]
fn set_element_rejects_out_of_bounds() {
    let mut board = Board::new(9).unwrap();
    let before: Vec<CellKind> = board.elements.iter().map(|c| c.value).collect();
    assert_eq!(
        board.set_element(3, 0, CellKind::Bomb).unwrap_err(),
        BoardError::OutOfBounds
    );
    assert_eq!(
        board.set_element(0, 3, CellKind::Bomb).unwrap_err(),
        BoardError::OutOfBounds
    );
    let after: Vec<CellKind> = board.elements.iter().map(|c| c.value).collect();
    assert_eq!(before, after);
}
