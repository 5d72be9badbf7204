//! Keyrings, locked and unlocked, and the items that they hold.
pub mod api;
pub mod call_laws;
pub mod change_laws;
pub mod cipher;
pub mod content_call_laws;
pub mod content_laws;
pub mod error;
pub mod failure_laws;
pub mod gpg_keyring;
pub mod keyring_laws;
pub mod laws;
pub mod loader;
pub mod loading_laws;
pub mod locked_keyring;
pub mod password_keyring;
pub mod storage;
pub mod success_laws;
pub mod traits;
pub mod unlock_laws;
