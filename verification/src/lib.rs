//! Conway's Game of Life seeded from the bits of arbitrary bytes.

pub mod bits;
pub mod grid;
pub mod seed;
pub mod watch;
pub mod laws;
pub mod text;
pub mod run;
pub mod session;
pub mod screen;
pub mod help;
pub mod input;
