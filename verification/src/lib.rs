//! Rewrites auxiliary tags of reverse-strand alignment records into
//! forward-strand orientation: array tags are reversed, sequence tags are
//! reverse-complemented.

pub mod dna;
pub mod driver;
pub mod engine;
pub mod error;
pub mod laws;
pub mod record;
pub mod tags;
pub mod value;
