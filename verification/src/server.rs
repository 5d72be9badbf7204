//! The daemon: collections on the D-Bus, the prompts that unlock them, and the
//! configuration.
pub mod answer_laws;
pub mod collection;
pub mod collection_laws;
pub mod config;
pub mod config_laws;
pub mod creation;
pub mod creation_laws;
pub mod deletion;
pub mod dispatch_laws;
pub mod error;
pub mod failure_laws;
pub mod item;
pub mod laws;
pub mod number_laws;
pub mod provider_laws;
pub mod relocking_laws;
pub mod script;
pub mod script_laws;
pub mod search_laws;
pub mod secret_provider;
pub mod success_laws;
pub mod unlocking;
pub mod unlocking_laws;
