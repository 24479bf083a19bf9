//! What the ciphers and the search share: the character shift, the text
//! statistics of the scorer, the ranking of candidates and the progress of a
//! run.

pub mod candidates;
pub mod numbers;
pub mod progress;
pub mod ranking;
pub mod report;
pub mod run;
pub mod scoring;
pub mod shift;
pub mod sweep;

pub use shift::shift_char;
