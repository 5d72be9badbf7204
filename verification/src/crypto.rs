//! Cryptographic errors, session keys, and the decisions around GPG keys.
pub mod error;
pub mod gpg;
pub mod laws;
