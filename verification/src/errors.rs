//! The error taxonomy: every failure the engine reports is one of these
//! distinct, inspectable values.

use vstd::prelude::*;

verus! {

/// Errors raised while discovering and loading documents.
#[derive(Debug, PartialEq)]
pub enum DiscoveryError {
    /// No ancestor directory holds the project-root marker.
    RootFolder,
    /// A path was empty or otherwise not usable as a canonical file path.
    InvalidPath { path: String },
}

/// Errors raised while validating a parsed document against the reserved
/// keys' schema.
#[derive(Debug, PartialEq)]
pub enum ParseError {
    /// A reserved key held a value of the wrong shape.
    WrongType { key: String },
    /// A document named itself as its secrets file.
    SelfReference,
    /// A secrets file named another secrets file.
    SecretReference,
    /// A secrets entry was not a plain string.
    SecretNotString { key: String },
}

/// Errors raised by the encrypted secrets layer.
#[derive(Debug, PartialEq)]
pub enum SecretsError {
    /// The blob is shorter than its fixed-width header.
    Truncated,
    /// The key-derivation call failed.
    KeyDerivation,
    /// Authentication failed: wrong password or corrupted data.
    Authentication,
    /// Random-number generation failed.
    Randomness,
    /// Encryption failed.
    Encryption,
}

/// The engine's error type.
#[derive(Debug, PartialEq)]
pub enum Error {
    /// Document discovery failed.
    Discovery(DiscoveryError),
    /// A document broke the reserved-key schema.
    Parse(ParseError),
    /// A non-table value stood where a table was required.
    LookupViolation { key: String },
    /// The external command run for an expression failed.
    Expression { message: String },
    /// A required environment key was absent after the merge.
    EnvVarMissing { key: String },
    /// The encrypted secrets layer failed.
    Secrets(SecretsError),
    /// A template parameter had no value in any document.
    MissingParameter { key: String },
}

} // verus!
