//! A snowy terminal scene: particles, ASCII-art sprites and a cell buffer
//! that is turned into ANSI escape sequences, with every step proved.

pub mod art;
pub mod cowsay;
pub mod frame;
pub mod hash;
pub mod render;
pub mod scene;
pub mod snow;
pub mod text;

pub use art::AsciiArt;
pub use cowsay::{gen_bubble, gen_bubble_ascii};
pub use hash::hash;
pub mod size;
pub mod terminal;
