//! Core rules of Tetris.
//!
//! A `Game` owns a field with a hidden area above the visible rows, the
//! falling tetrimino, a queue of next tetriminos and a hold slot. Each
//! command keeps the tetrimino inside the field and off the other blocks.
pub mod checker;
pub mod field;
pub mod game;
pub mod rotation;
pub mod tetrimino;

pub use checker::Checker;
pub use field::{Cell, Field};
pub use game::{Game, GameState, Selector};
pub use tetrimino::{BlockKind, Tetrimino};
