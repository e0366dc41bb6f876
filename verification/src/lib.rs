//! Conway's Game of Life over in-memory boards and over boards kept in a
//! byte store that is read through a bounded sliding window.

pub mod error;
pub mod game_of_life;
pub mod io;
pub mod iter;
pub mod read;
pub mod utils;
