//! A position-addressable sequence with constant-time insertion and removal
//! at a cursor, built over an index-addressed arena so that the forward and
//! backward links never involve raw pointers.

pub mod cursor;
pub mod game;
pub mod laws;
pub mod sequence;
