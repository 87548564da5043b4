//! A toroidal Game of Life board that is driven over a byte stream.
//!
//! The board is a bit-packed monochrome image ([`BitImage`]); the commands that
//! drive it have a fixed binary encoding ([`Command`]); and [`apply`] carries a
//! command out on a board. Every function states what it does over the
//! mathematical model of the board, [`Bitmap`], and is proved to do so.

pub mod automaton;
pub mod bitmap;
pub mod protocol;
pub mod random;

pub use automaton::{accepts, apply, fill_from, fill_random, step_game_of_life};
pub use bitmap::{BitImage, Bitmap};
pub use protocol::{Command, CommandKind, Deserialize, ProtocolError, Serialize};
