//! A deterministic Tetris engine, verified: the board and its collision
//! rules, the wall-kick rotation system, the piece lifecycle state machine
//! and the garbage exchange between two matches.
//!
//! The engine is the module [`tetris`]. A caller makes a match from a
//! configuration and advances it tick by tick with the actions of the player;
//! after each tick the match tells what happened. What a tick does is laid
//! down as mathematics in [`tetris::rules`], and the executable match is
//! proved to do exactly that.
//!
//! The other modules hold the rules of what stands around a match:
//!
//! - [`input`]: from the keys that a player holds to the actions of a tick;
//! - [`net`]: the messages between two matches, and what they bring about;
//! - [`lobby`]: how two players come to a match on a server;
//! - [`leaderboard`] and [`auth`]: which scores are taken into the list of
//!   high scores, and the token that goes with a request;
//! - [`agent`] and [`environment`]: what an agent that learns to play sees of
//!   a match, and the counts by which its steps are judged;
//! - [`color`] and [`text`]: the colours of the pieces, and numbers as text.

pub mod agent;
pub mod auth;
pub mod color;
pub mod environment;
pub mod input;
pub mod leaderboard;
pub mod lobby;
pub mod net;
pub mod tetris;
pub mod text;
