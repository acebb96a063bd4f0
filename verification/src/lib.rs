//! Watches a game's object table and keeps every live player camera told to
//! stop dithering.
//!
//! The crate decides; it never touches the game itself. Whatever it has to
//! learn it asks for, one read at a time, and whatever has to be done to the
//! game it hands out as an action for its caller to carry out.

pub mod buf;
pub mod cache;
pub mod laws;
pub mod mem;
pub mod model;
pub mod names;
pub mod runs;
pub mod steps;
pub mod still;
pub mod ticks;
pub mod uncensor;
pub mod worker;
