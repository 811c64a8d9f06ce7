pub mod arith;
pub mod board;
pub mod cell;
