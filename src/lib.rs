//! Password tools: a generator of random passwords drawn from chosen
//! character classes, an analyzer that classifies the characters of a
//! password and finds repeats and sequences in it, and a scorer that turns
//! an analysis into a strength score between 0 and 100.
pub mod analyzer;
pub mod common;
pub mod generator;
pub mod hasher;
pub mod scorer;

pub use analyzer::AnalyzedPassword;
pub use common::CommonPasswords;
pub use generator::{PasswordGenerator, PasswordGeneratorIter};

