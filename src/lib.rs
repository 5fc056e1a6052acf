//! The Playfair cipher: a keyed 5x5 letter square and digraph substitution.

pub mod text;
pub mod square;
pub mod shape;
pub mod error;
pub mod digraph;
pub mod cipher;
pub mod render;
pub mod laws;

pub use cipher::Playfair;
pub use error::PlayfairError;
pub use shape::Shape;
pub use render::PairsToString;
