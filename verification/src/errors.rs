//! The error kinds that vault operations report.

use vstd::prelude::*;

verus! {

/// Why a vault operation failed. Operations never panic: every failure an
/// input can provoke is one of these kinds, and each operation's contract
/// says exactly which inputs produce which kind.
#[derive(Debug, Clone, Copy, PartialEq, Eq, Structural)]
pub enum VaultError {
    /// The operating system reported no home directory, so the vault root
    /// cannot be located. Fatal to every operation.
    HomeDirUnavailable,
    /// A supplied path is absolute or contains a `..` component.
    InvalidPath,
    /// An absolute path does not lie under the vault root.
    OutsideVault,
    /// A semantic precondition was violated: wrong target subtree, empty
    /// required field, or disallowed characters in a name.
    InvalidArgument,
    /// An expected file, directory, or project record is absent.
    NotFound,
    /// The destination path is already taken and overwrite is not intended.
    AlreadyExists,
    /// Deletion was attempted on a directory that still has entries.
    NotEmpty,
}

/// The human-readable text for each error kind.
pub open spec fn spec_message(e: VaultError) -> Seq<char> {
    match e {
        VaultError::HomeDirUnavailable => "Failed to determine home directory"@,
        VaultError::InvalidPath => "Path must be relative and must not contain '..'"@,
        VaultError::OutsideVault => "Path is outside vault"@,
        VaultError::InvalidArgument => "Invalid argument"@,
        VaultError::NotFound => "Not found"@,
        VaultError::AlreadyExists => "Destination already exists"@,
        VaultError::NotEmpty => "Folder is not empty"@,
    }
}

impl VaultError {
    /// A descriptive message for the caller; operations surface failures as
    /// human-readable text rather than structured codes.
    pub fn message(&self) -> (r: String)
        ensures
            r@ == spec_message(*self),
    {
        match self {
            VaultError::HomeDirUnavailable => String::from_str("Failed to determine home directory"),
            VaultError::InvalidPath => String::from_str("Path must be relative and must not contain '..'"),
            VaultError::OutsideVault => String::from_str("Path is outside vault"),
            VaultError::InvalidArgument => String::from_str("Invalid argument"),
            VaultError::NotFound => String::from_str("Not found"),
            VaultError::AlreadyExists => String::from_str("Destination already exists"),
            VaultError::NotEmpty => String::from_str("Folder is not empty"),
        }
    }
}

} // verus!
