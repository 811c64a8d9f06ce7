//! The square grid of cells and its bomb-placement routine.

use vstd::prelude::*;

use crate::arith::{is_square, lemma_sqrt_of, sqrt_of, int_sqrt};
use crate::cell::{Cell, CellKind};
use rand::Rng;

verus! {

/// Why a board operation was rejected.
#[derive(Debug, Clone, Copy, PartialEq, Eq, Structural)]
pub enum BoardError {
    /// The requested total cell count has no integer square root.
    InvalidSize,
    /// A requested coordinate lies outside the grid in some axis.
    OutOfBounds,
}

/// 1 when the cell holds a bomb, 0 otherwise.
pub open spec fn bomb_flag(c: Cell) -> int {
    if c.value is Bomb {
        1
    } else {
        0
    }
}

/// How many of the first `n` cells of the sequence hold a bomb.
pub open spec fn bombs_below(cells: Seq<Cell>, n: int) -> int
    decreases n,
{
    if n <= 0 {
        0
    } else {
        bombs_below(cells, n - 1) + bomb_flag(cells[n - 1])
    }
}

/// How many cells of the sequence hold a bomb.
pub open spec fn bomb_count(cells: Seq<Cell>) -> int {
    bombs_below(cells, cells.len() as int)
}

/// A prefix bomb total only reads the cells below `n`, so replacing a cell at
/// or above `n` leaves it alone, and replacing one below `n` moves it by the
/// difference between the new and old cell.
proof fn lemma_bombs_below_update(cells: Seq<Cell>, i: int, c: Cell, n: int)
    requires
        0 <= i < cells.len(),
        n <= cells.len(),
    ensures
        bombs_below(cells.update(i, c), n) == bombs_below(cells, n) + if i < n {
            bomb_flag(c) - bomb_flag(cells[i])
        } else {
            0
        },
    decreases n,
{
    if n > 0 {
        lemma_bombs_below_update(cells, i, c, n - 1);
    }
}

/// Replacing one cell changes the bomb total by the difference between the
/// new and the old cell.
pub proof fn lemma_bomb_count_update(cells: Seq<Cell>, i: int, c: Cell)
    requires
        0 <= i < cells.len(),
    ensures
        bomb_count(cells.update(i, c)) == bomb_count(cells) + bomb_flag(c) - bomb_flag(cells[i]),
{
    lemma_bombs_below_update(cells, i, c, cells.len() as int);
}

/// A sequence whose first `n` cells hold no bomb has a zero prefix total.
proof fn lemma_bombs_below_none(cells: Seq<Cell>, n: int)
    requires
        forall|i: int| 0 <= i < n ==> !((#[trigger] cells[i]).value is Bomb),
    ensures
        bombs_below(cells, n) == 0,
    decreases n,
{
    if n > 0 {
        lemma_bombs_below_none(cells, n - 1);
    }
}

/// A board without a single bomb cell has a zero bomb total.
pub proof fn lemma_bomb_count_none(cells: Seq<Cell>)
    requires
        forall|i: int| 0 <= i < cells.len() ==> !((#[trigger] cells[i]).value is Bomb),
    ensures
        bomb_count(cells) == 0,
{
    lemma_bombs_below_none(cells, cells.len() as int);
}

/// A coordinate pair inside the grid names a row-major index inside the
/// storage of a grid with that side length.
pub proof fn lemma_index_in_range(side: int, x: int, y: int)
    requires
        0 <= x < side,
        0 <= y < side,
    ensures
        0 <= x * side + y < side * side,
{
    assert(0 <= x * side + y < side * side) by (nonlinear_arith)
        requires
            0 <= x < side,
            0 <= y < side,
    ;
}

/// Mapping a coordinate pair to its row-major index and back yields the same
/// pair: the two coordinate mappings are mutual inverses, coordinates first.
pub proof fn lemma_coordinates_index_round_trip(side: int, x: int, y: int)
    requires
        0 <= x < side,
        0 <= y < side,
    ensures
        (x * side + y) / side == x,
        (x * side + y) % side == y,
        sqrt_of(side * side) == side,
{
    lemma_index_in_range(side, x, y);
    vstd::arithmetic::div_mod::lemma_fundamental_div_mod_converse(x * side + y, side, x, y);
    assert(side * side == side * side);
    assert(is_square(side * side));
    lemma_sqrt_of(side * side);
}

/// Mapping a row-major index to its coordinate pair and back yields the same
/// index: the two coordinate mappings are mutual inverses, index first.
pub proof fn lemma_index_coordinates_round_trip(size: int, index: int)
    requires
        is_square(size),
        0 <= index < size,
    ensures
        (index / sqrt_of(size)) * sqrt_of(size) + (index % sqrt_of(size)) == index,
        index / sqrt_of(size) < sqrt_of(size),
        index % sqrt_of(size) < sqrt_of(size),
        0 <= index / sqrt_of(size),
        0 <= index % sqrt_of(size),
{
    lemma_sqrt_of(size);
    let side = sqrt_of(size);
    assert(side > 0) by (nonlinear_arith)
        requires
            side * side == size,
            size > 0,
            side >= 0,
    ;
    vstd::arithmetic::div_mod::lemma_fundamental_div_mod(index, side);
    vstd::arithmetic::div_mod::lemma_mod_bound(index, side);
    vstd::arithmetic::div_mod::lemma_multiply_divide_lt(index, side, side);
}

/// The grid plus its bomb-placement logic: a flat row-major vector of cells
/// over a square whose side length is the integer square root of the total
/// cell count.
#[derive(Debug)]
pub struct Board {
    pub size: u16,
    pub elements: Vec<Cell>,
    pub side_size: u16,
}

/// Number of bombs a board of `n` cells receives: 30% of the cells, rounded
/// to the nearest integer, halves rounding up.
pub open spec fn target_bomb_total(n: int) -> int {
    (3 * n + 5) / 10
}

/// Draws a uniformly random index below `bound`.
/// Relies on `rand::Rng::gen_range` over the range `0..bound` (drawn from
/// `rand::thread_rng`): it panics on an empty range and otherwise returns a
/// member of the range.
#[verifier::external_body]
fn random_index_below(bound: u16) -> (r: u16)
    requires
        bound > 0,
    ensures
        r < bound,
{
    let mut random_range = rand::thread_rng();
    random_range.gen_range(0..bound)
}

fn to_usize(value: u16) -> (r: usize)
    ensures
        r == value as usize,
{
    value as usize
}

fn to_u16(value: usize) -> (r: u16)
    requires
        value <= 0xffff,
    ensures
        r as int == value as int,
{
    value as u16
}

impl Board {
    /// The board's invariant: the side length squares to the total cell
    /// count, the storage holds one cell per grid position, and every stored
    /// cell carries the coordinates derived from its row-major index.
    pub open spec fn wf(self) -> bool {
        &&& self.side_size as int * self.side_size as int == self.size as int
        &&& self.elements@.len() == self.size as int
        &&& forall|i: int|
            0 <= i < self.elements@.len() ==> {
                &&& (#[trigger] self.elements@[i]).x_position as int == i / (
                self.side_size as int)
                &&& self.elements@[i].y_position as int == i % (self.side_size as int)
            }
    }

    /// Build a board of `size` cells: rejected with `InvalidSize` unless
    /// `size` is a perfect square. On success every cell starts empty and
    /// then 30% of the cells, rounded to the nearest integer, are marked as
    /// bombs at randomly drawn positions.
    pub fn new(size: u16) -> (r: Result<Board, BoardError>)
        ensures
            r is Ok <==> is_square(size as int),
            r matches Err(e) ==> e == BoardError::InvalidSize,
            r matches Ok(board) ==> {
                &&& board.wf()
                &&& board.size == size
                &&& board.side_size as int == sqrt_of(size as int)
                &&& bomb_count(board.elements@) == target_bomb_total(size as int)
                &&& forall|i: int|
                    0 <= i < board.elements@.len() ==> (#[trigger] board.elements@[i]).value
                        is Empty || board.elements@[i].value is Bomb
            },
    {
        let side_size = match int_sqrt(size) {
            Some(s) => s,
            None => {
                return Err(BoardError::InvalidSize);
            },
        };
        let empty_vec = Board::init_empty_vector(size);
        let mut board = Board { size, elements: empty_vec, side_size };
        proof {
            lemma_sqrt_of(size as int);
            lemma_bomb_count_none(board.elements@);
        }
        board.insert_bombs();
        Ok(board)
    }

    /// Build the all-empty storage of a board of `size` cells, each cell
    /// carrying the coordinates derived from its row-major index.
    fn init_empty_vector(size: u16) -> (r: Vec<Cell>)
        requires
            is_square(size as int),
        ensures
            r@.len() == size as int,
            forall|i: int|
                0 <= i < size as int ==> {
                    &&& (#[trigger] r@[i]).value is Empty
                    &&& r@[i].x_position as int == i / sqrt_of(size as int)
                    &&& r@[i].y_position as int == i % sqrt_of(size as int)
                },
    {
        let mut empty_items: Vec<Cell> = Vec::new();
        let mut i: u16 = 0;
        while i < size
            invariant
                is_square(size as int),
                i <= size,
                empty_items@.len() == i as int,
                forall|j: int|
                    0 <= j < i as int ==> {
                        &&& (#[trigger] empty_items@[j]).value is Empty
                        &&& empty_items@[j].x_position as int == j / sqrt_of(size as int)
                        &&& empty_items@[j].y_position as int == j % sqrt_of(size as int)
                    },
            decreases size as int - i as int,
        {
            let (x, y) = Board::from_vector_index_to_coordinates(size, to_usize(i));
            let c = Cell { x_position: x, y_position: y, value: CellKind::Empty };
            empty_items.push(c);
            i = i + 1;
        }
        empty_items
    }

    /// Replace the cell at `(x, y)` by a fresh cell of the given kind that
    /// carries those coordinates; rejected with `OutOfBounds`, the board left
    /// unchanged, when either coordinate is at or past the side length.
    pub fn set_element(&mut self, x: u16, y: u16, cell_kind: CellKind) -> (r: Result<
        (),
        BoardError,
    >)
        requires
            old(self).wf(),
        ensures
            final(self).wf(),
            r is Ok <==> x < old(self).side_size && y < old(self).side_size,
            final(self).size == old(self).size,
            final(self).side_size == old(self).side_size,
            r is Ok ==> final(self).elements@ == old(self).elements@.update(
                x as int * old(self).side_size as int + y as int,
                (Cell { x_position: x, y_position: y, value: cell_kind }),
            ),
            r is Err ==> final(self).elements@ == old(self).elements@,
            r matches Err(e) ==> e == BoardError::OutOfBounds,
    {
        let c = Cell { x_position: x, y_position: y, value: cell_kind };
        let index = match Board::from_coordinates_to_vector_index(self.side_size, x, y) {
            Ok(i) => i,
            Err(e) => {
                return Err(e);
            },
        };
        proof {
            lemma_index_in_range(self.side_size as int, x as int, y as int);
            lemma_coordinates_index_round_trip(self.side_size as int, x as int, y as int);
        }
        self.elements[index] = c;
        Ok(())
    }

    /// Read the cell at `(x, y)`; rejected with `OutOfBounds` when either
    /// coordinate is at or past the side length.
    pub fn get_element(&self, x: u16, y: u16) -> (r: Result<&Cell, BoardError>)
        requires
            self.wf(),
        ensures
            r is Ok <==> x < self.side_size && y < self.side_size,
            r matches Ok(c) ==> *c == self.elements@[x as int * self.side_size as int + y as int],
            r matches Err(e) ==> e == BoardError::OutOfBounds,
    {
        let index = match Board::from_coordinates_to_vector_index(self.side_size, x, y) {
            Ok(i) => i,
            Err(e) => {
                return Err(e);
            },
        };
        proof {
            lemma_index_in_range(self.side_size as int, x as int, y as int);
        }
        Ok(&self.elements[index])
    }

    /// Mark cells as bombs at randomly drawn positions until 30% of the
    /// cells, rounded to the nearest integer, hold a bomb. Each position is
    /// drawn uniformly among the cells that are not yet bombs, so the draws
    /// are uniform without replacement and placement terminates even when
    /// most of the board is already mined.
    fn insert_bombs(&mut self)
        requires
            old(self).wf(),
            bomb_count(old(self).elements@) == 0,
        ensures
            final(self).wf(),
            final(self).size == old(self).size,
            final(self).side_size == old(self).side_size,
            bomb_count(final(self).elements@) == target_bomb_total(old(self).size as int),
            forall|i: int|
                0 <= i < final(self).elements@.len()
                    ==> (#[trigger] final(self).elements@[i]).value is Bomb
                    || final(self).elements@[i] == old(self).elements@[i],
    {
        let size = self.size;
        let target_number_of_bombs_rounded: u16 = Board::target_number_of_bombs(size);
        let mut current_number_of_bombs: u16 = 0;
        while current_number_of_bombs < target_number_of_bombs_rounded
            invariant
                self.wf(),
                self.size == old(self).size,
                self.side_size == old(self).side_size,
                size == self.size,
                target_number_of_bombs_rounded as int == target_bomb_total(size as int),
                target_bomb_total(size as int) < size as int || size == 0,
                current_number_of_bombs <= target_number_of_bombs_rounded,
                bomb_count(self.elements@) == current_number_of_bombs as int,
                forall|i: int|
                    0 <= i < self.elements@.len() ==> (#[trigger] self.elements@[i]).value is Bomb
                        || self.elements@[i] == old(self).elements@[i],
            decreases target_number_of_bombs_rounded as int - current_number_of_bombs as int,
        {
            let number_of_free_cells = size - current_number_of_bombs;
            let chosen_free_cell = random_index_below(number_of_free_cells);
            self.place_bomb_at_free_rank(chosen_free_cell);
            current_number_of_bombs = current_number_of_bombs + 1;
        }
    }

    /// Turn the `rank`-th cell, counted over the cells that hold no bomb,
    /// into a bomb, keeping its coordinates.
    fn place_bomb_at_free_rank(&mut self, rank: u16)
        requires
            old(self).wf(),
            (rank as int) < old(self).elements@.len() - bomb_count(old(self).elements@),
        ensures
            final(self).wf(),
            final(self).size == old(self).size,
            final(self).side_size == old(self).side_size,
            bomb_count(final(self).elements@) == bomb_count(old(self).elements@) + 1,
            forall|i: int|
                0 <= i < final(self).elements@.len()
                    ==> (#[trigger] final(self).elements@[i]).value is Bomb
                    || final(self).elements@[i] == old(self).elements@[i],
    {
        let size = self.size;
        let mut i: u16 = 0;
        let mut free_cells_passed: u16 = 0;
        while i < size
            invariant
                self == old(self),
                self.wf(),
                size == self.size,
                i <= size,
                (rank as int) < self.elements@.len() - bomb_count(self.elements@),
                free_cells_passed as int == i as int - bombs_below(self.elements@, i as int),
                free_cells_passed <= rank,
            decreases size as int - i as int,
        {
            let index = to_usize(i);
            let current_cell = self.elements[index];
            if !current_cell.is_bomb() {
                if free_cells_passed == rank {
                    let bomb_cell = Cell {
                        x_position: current_cell.x_position,
                        y_position: current_cell.y_position,
                        value: CellKind::Bomb,
                    };
                    proof {
                        lemma_bomb_count_update(self.elements@, index as int, bomb_cell);
                    }
                    self.elements[index] = bomb_cell;
                    return;
                }
                free_cells_passed = free_cells_passed + 1;
            }
            i = i + 1;
        }
        proof {
            // The scan cannot run off the end: fewer free cells were passed
            // than exist in the whole storage.
            assert(bombs_below(self.elements@, size as int) == bomb_count(self.elements@));
            assert(false);
        }
    }

    /// Number of bombs a board of `size` cells receives: 30% of the cells,
    /// rounded to the nearest integer, halves rounding up. The target always
    /// leaves at least one cell free.
    pub fn target_number_of_bombs(size: u16) -> (r: u16)
        ensures
            r as int == target_bomb_total(size as int),
            size > 0 ==> r < size,
    {
        let target: u32 = (3 * (size as u32) + 5) / 10;
        proof {
            assert((3 * (size as int) + 5) / 10 <= size as int) by (nonlinear_arith)
                requires
                    size >= 0,
            ;
            assert(size > 0 ==> (3 * (size as int) + 5) / 10 < size as int) by (nonlinear_arith)
                requires
                    size >= 0,
            ;
        }
        target as u16
    }

    /// Row-major index of `(x, y)` on a grid with the given side length:
    /// `x * side_size + y`; rejected with `OutOfBounds` when either
    /// coordinate is at or past the side length.
    pub fn from_coordinates_to_vector_index(side_size: u16, x: u16, y: u16) -> (r: Result<
        usize,
        BoardError,
    >)
        ensures
            r is Ok <==> x < side_size && y < side_size,
            r matches Ok(i) ==> i as int == x as int * side_size as int + y as int,
            r matches Err(e) ==> e == BoardError::OutOfBounds,
    {
        if x >= side_size || y >= side_size {
            return Err(BoardError::OutOfBounds);
        }
        proof {
            lemma_index_in_range(side_size as int, x as int, y as int);
            assert(side_size as int * side_size as int <= 0xffff * 0xffff) by (nonlinear_arith)
                requires
                    side_size <= 0xffff,
            ;
        }
        Ok(to_usize(x) * to_usize(side_size) + to_usize(y))
    }

    /// Coordinates of a row-major index on a square grid of `size` cells:
    /// `(index / side, index % side)` for the side length `side` with
    /// `side * side == size`.
    pub fn from_vector_index_to_coordinates(size: u16, index: usize) -> (r: (u16, u16))
        requires
            is_square(size as int),
            index < size as usize,
        ensures
            r.0 as int == index as int / sqrt_of(size as int),
            r.1 as int == index as int % sqrt_of(size as int),
    {
        let cast_index = to_u16(index);
        let side = match int_sqrt(size) {
            Some(s) => s,
            None => {
                proof {
                    assert(false);
                }
                1
            },
        };
        proof {
            lemma_sqrt_of(size as int);
            assert(side > 0) by (nonlinear_arith)
                requires
                    side as int * side as int == size as int,
                    size > 0,
            ;
        }
        let row = cast_index / side;
        let column = cast_index % side;
        (row, column)
    }
}

} // verus!
