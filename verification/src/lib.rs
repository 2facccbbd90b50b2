//! Canonical token names: a positional codec between 64-bit token ids and
//! bounded-alphabet names, the ordered rule chain that decides which names
//! are admissible, and the registration workflow built on both.

pub mod alphabet;
pub mod codec;
pub mod error;
pub mod flags;
pub mod options;
pub mod range;
pub mod registration;
pub mod rules;
pub mod scan;
pub mod text;
