//! Effect classification and failure kinds shared by every core operation.

use vstd::prelude::*;

verus! {

/// Recoverable failure conditions of the core operations.
#[derive(Debug, Clone, Copy, PartialEq, Eq)]
pub enum Failure {
    InvalidAliasName,
    AliasDoesNotExist,
    GroupDoesNotExist,
    AliasAlreadyExists,
    GroupAlreadyExists,
    UnsupportedGlobalAlias,
    /// A retried sub-operation reported something its caller had already
    /// ruled out; surfacing it loudly beats swallowing it.
    UnexpectedBehavior,
}

/// What a mutating operation did, as the caller must act on it.
#[derive(Debug, Clone, PartialEq, Eq)]
pub enum Outcome {
    /// Something shell-visible changed: persist the configuration and hand
    /// these statements to the live shell.
    Command(String),
    /// Only the stored configuration changed: persist, nothing to tell the
    /// shell.
    ConfigChanged,
    /// Nothing changed at all.
    NoChanges,
}

} // verus!
