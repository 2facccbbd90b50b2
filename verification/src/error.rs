//! What a registration can fail with.

use vstd::prelude::*;
use crate::rules::{Rule, RuleViolation};

verus! {

/// Why a registration did not go through.
#[derive(Debug, PartialEq, Eq)]
pub enum RegistrationError {
    /// The id lies outside the range of ids whose names can be admissible.
    IdOutOfRange,
    /// The name of the id breaks `rule`, the first rule of the chain that
    /// it breaks.
    InvalidName { rule: Rule, violation: RuleViolation },
    /// The store failed; the text is what the store reported.
    StoreFailure(String),
}

} // verus!
