//! The failures that an operation of the vault can end in.

use vstd::prelude::*;

verus! {

/// Why an operation of the vault did not go through.
#[derive(Debug, Clone, Copy, PartialEq, Eq, Structural)]
pub enum VaultError {
    /// No key material was supplied.
    KeyAbsent,
    /// Key material was supplied, but the cipher does not take it as a key.
    KeyRejected,
    /// The token could not be opened with the key: wrong key or damaged token.
    DecryptError,
    /// A name or username is empty or holds whitespace.
    ValidationError,
    /// The vault holds no record at all.
    EmptyVault,
    /// A search or a selection matched no record.
    EmptyResult,
}

impl VaultError {
    /// The message shown to the user for this failure.
    pub fn message(&self) -> (text: &'static str)
        ensures
            text@ == Self::message_of(*self),
    {
        match self {
            VaultError::KeyAbsent => "Security key is required to proceed",
            VaultError::KeyRejected => "Security key is not usable",
            VaultError::DecryptError => "Invalid security key",
            VaultError::ValidationError => "Spaces are not allowed",
            VaultError::EmptyVault => "Database is empty",
            VaultError::EmptyResult => "No service was found",
        }
    }

    /// The text of the message of each failure.
    pub open spec fn message_of(e: VaultError) -> Seq<char> {
        match e {
            VaultError::KeyAbsent => "Security key is required to proceed"@,
            VaultError::KeyRejected => "Security key is not usable"@,
            VaultError::DecryptError => "Invalid security key"@,
            VaultError::ValidationError => "Spaces are not allowed"@,
            VaultError::EmptyVault => "Database is empty"@,
            VaultError::EmptyResult => "No service was found"@,
        }
    }
}

} // verus!
