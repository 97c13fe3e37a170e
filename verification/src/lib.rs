//! Conway's Game of Life without a board.
//!
//! A generation is the set of its living cells and nothing else: dead space is never
//! stored. One step of the game takes a generation to the next one. The step is offered
//! three times, each proved to return exactly the generation that the rule in [`grid`]
//! defines:
//!
//! - [`gol::next`], also reached as `gol_1::next`, works on vectors;
//! - [`gol_2::next`] works on hash sets: it collects the cells that may change and then
//!   counts the living neighbours of each;
//! - [`gol_3::next`] works on hash sets and walks the living cells once, tallying for
//!   every dead cell beside them how many living neighbours it has.
//!
//! [`laws`] states what follows for any caller. [`packed`] turns a cell into the one
//! integer under which the library files it in collections of its own.
//!
//! The proofs rest on vstd and on three statements about std's `HashSet` of pairs,
//! which `hashed` makes without proof. The step on vectors needs none of them.
pub mod grid;
pub mod packed;
mod hashed;
pub mod gol;
pub use self::gol as gol_1;
pub mod gol_2;
pub mod gol_3;
pub mod laws;
