//! A single grid position: empty, a bomb, or an adjacency count.

use vstd::prelude::*;

verus! {

/// What one grid position holds.
#[derive(Debug, Clone, Copy, PartialEq, Eq, Structural)]
pub enum CellKind {
    Empty,
    Bomb,
    Number(u8),
}

/// One grid position, carrying its row/column coordinates and its kind.
/// The coordinates are informational: the authoritative location of a cell
/// is its row-major index in the board's storage.
#[derive(Debug, Clone, Copy, PartialEq, Eq, Structural)]
pub struct Cell {
    pub x_position: u16,
    pub y_position: u16,
    pub value: CellKind,
}

impl Cell {
    pub fn new(x_position: u16, y_position: u16, value: CellKind) -> (c: Cell)
        ensures
            c.x_position == x_position,
            c.y_position == y_position,
            c.value == value,
    {
        Cell { x_position, y_position, value }
    }

    /// True exactly when the cell holds a bomb.
    pub fn is_bomb(&self) -> (r: bool)
        ensures
            r == (self.value is Bomb),
    {
        self.value == CellKind::Bomb
    }

    /// True exactly when the cell holds an adjacency count.
    pub fn is_number(&self) -> (r: bool)
        ensures
            r == (self.value is Number),
    {
        match self.value {
            CellKind::Number(_) => true,
            _ => false,
        }
    }

    /// Step the adjacency count: an empty cell becomes `Number(1)`, a numbered
    /// cell goes from `Number(n)` to `Number(n + 1)`, and a bomb is untouched.
    pub fn increment_number(&mut self)
        requires
            old(self).value matches CellKind::Number(n) ==> n < 255,
        ensures
            old(self).value is Empty ==> final(self).value == CellKind::Number(1),
            old(self).value matches CellKind::Number(n)
                ==> final(self).value == CellKind::Number((n + 1) as u8),
            old(self).value is Bomb ==> final(self).value == old(self).value,
            final(self).x_position == old(self).x_position,
            final(self).y_position == old(self).y_position,
    {
        match self.value {
            CellKind::Empty => self.value = CellKind::Number(1),
            CellKind::Number(num) => {
                let new_value = num + 1;
                self.value = CellKind::Number(new_value);
            }
            _ => {}
        }
    }
}

} // verus!
