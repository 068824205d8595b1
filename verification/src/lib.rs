//! Password strength estimation from character-class diversity and length.

pub mod calculator;
pub mod charset;
pub mod entropy;
pub mod natural;
pub mod power_log;
pub mod strength;

pub use crate::calculator::Calculator;
pub use crate::strength::Strength;
