//! Failure taxonomy of the scrambling core.

use vstd::prelude::*;

verus! {

/// Every failure the core can report.
///
/// Key-derivation parameter problems are fatal for the whole run; the
/// remaining variants are fatal for a single call or recoverable by the
/// caller, as each variant documents.
#[derive(Clone, Copy, PartialEq, Eq, Debug, Structural)]
pub enum ScrambleError {
    /// The memory-hard hash rejected its parameters or could not run.
    ConfigurationError,
    /// More chunk bits were requested than the secret key holds.
    InsufficientKeyMaterial,
    /// An input word is absent from the selected word list.
    WordNotFound,
    /// The recovered file's words belong to no supported language.
    UnsupportedWalletFile,
}

impl ScrambleError {
    /// A human-readable description, for the boundary layer to print.
    pub fn message(&self) -> (r: &'static str)
        ensures
            r@.len() > 0,
    {
        proof {
            reveal_strlit("invalid key-derivation parameters");
            reveal_strlit("insufficient key material for the requested chunks");
            reveal_strlit("word not found in the selected word list");
            reveal_strlit("wallet words match no supported language");
        }
        match self {
            ScrambleError::ConfigurationError => "invalid key-derivation parameters",
            ScrambleError::InsufficientKeyMaterial => "insufficient key material for the requested chunks",
            ScrambleError::WordNotFound => "word not found in the selected word list",
            ScrambleError::UnsupportedWalletFile => "wallet words match no supported language",
        }
    }
}

} // verus!
