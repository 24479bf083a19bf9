//! Classical cipher transforms and the pieces of a brute-force search over
//! their key spaces, with every transform stated as a function on sequences
//! of characters.

pub mod actions;
pub mod ciphers;
pub mod text;
pub mod utils;
