//! The engine: the field, the pieces, and the match that plays them.

pub mod board;
pub mod field;
pub mod game;
pub mod invariants;
pub mod laws;
pub mod piece;
pub mod rng;
pub mod rules;

pub use self::board::Board;
pub use self::field::{BOARD_HEIGHT, BOARD_WIDTH};
pub use self::game::{Action, Event, Game, GameConfig, GameSettings, Phase};
pub use self::piece::{Direction, Mino, Rotation, Tetrimino};
pub use self::rng::{getrandom, RandomSeed};
