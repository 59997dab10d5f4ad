//! Comparison of typed input logs.
//!
//! A log is a sequence of bytes as they were typed: ordinary characters, a
//! backspace marker and a caps-lock toggle marker. Two logs are the same when
//! they leave the same text on the screen. [`compare`] decides that in constant
//! space by reading both logs from the end, and its contract states the answer
//! over the plain left-to-right meaning of a log, [`render::rendered`].

pub mod render;
pub mod cursor;
pub mod matching;
pub mod laws;

pub use crate::cursor::{mk_iter, Iter};
pub use crate::matching::{compare, MatchState};
pub use crate::render::{invert_case, BACKSPACE, CAPS_TOGGLE};
