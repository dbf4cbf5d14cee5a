//! The Playfair cipher: a classical digram-substitution scheme. A
//! keyword is turned into a 5x5 letter grid (the key square), and the
//! message is transformed two letters at a time by the positions the
//! pair occupies in the grid.
pub mod cipher;
pub mod laws;
pub mod lemmas;
pub mod model;
pub mod square;
pub mod text;

pub use cipher::decrypt;
pub use cipher::encrypt;
pub use square::generate_key;
