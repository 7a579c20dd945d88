//! The error taxonomy shared by every component.

use vstd::prelude::*;

verus! {

/// Why an operation failed. Every failure is a deterministic function of
/// the inputs (entropy aside), so nothing is retried.
#[derive(Debug, Clone, Copy, PartialEq, Eq, Structural)]
pub enum Error {
    /// Malformed carrier, key encoding or envelope header; detectable
    /// without secrets.
    Format,
    /// The payload does not fit: `required` bytes against `available`.
    Capacity { required: usize, available: usize },
    /// Authenticated decryption failed: wrong key or tampered data, on
    /// purpose not told apart.
    Decrypt,
    /// The signature did not verify against the sender's public key.
    Auth,
    /// The system's randomness source could not be read.
    Entropy,
}

impl Error {
    /// A one-line description for the user.
    pub fn message(&self) -> String {
        match self {
            Error::Format => String::from_str("malformed carrier, key or envelope"),
            Error::Capacity { .. } => String::from_str("payload exceeds carrier capacity"),
            Error::Decrypt => String::from_str("decryption failed"),
            Error::Auth => String::from_str("signature verification failed"),
            Error::Entropy => String::from_str("could not obtain randomness"),
        }
    }
}

} // verus!
