//! Conway's Game of Life: a fixed-size rectangular grid of cells, each Alive
//! or Dead, evolving generation by generation under the classic rule, with a
//! verified state-transition function, plain-text rendering and parsing.

pub mod cell;
pub mod game;
pub mod grid;
pub mod text;

pub use cell::CellState;
pub use game::Game;
pub use grid::Grid;
pub use grid::GridError;
pub use text::symbol_for;
