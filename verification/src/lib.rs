//! Rules engine of a falling-block puzzle game: pieces, the board, collision
//! testing, gravity, line detection and the timed row collapse.

pub mod board;
pub mod game_state;
pub mod pieces;
pub mod point;
pub mod theorems;

pub use board::{BoardRow, RowView};
pub use game_state::{Axis, EngineError, GameState, GameView};
pub use pieces::{Direction, Piece, PieceView, Textures};
pub use point::{Point, Position};
