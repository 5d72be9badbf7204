//! Keyring and secret-service logic: keyring files that open with a password
//! or through GPG, and the D-Bus collections that expose them.
//!
//! * [`crypto`]: cryptographic errors, session keys, and the decisions around GPG
//!   keys.
//! * [`file`]: keyrings, locked and unlocked, and their items.
//! * [`server`]: collections, prompts and the daemon's configuration.
//! * [`attributes`], [`io_error`], [`object_path`], [`secret`], [`text`], [`time`]:
//!   the plain values that the rest is made of.
//!
//! Beside the functions stand the laws, modules of proof functions whose names end in
//! `laws`: what a call has to give and to leave, whatever its inputs, and how calls
//! relate to each other.
//!
//! What happens outside (files, gpg-agent, prompts, the bus, the clock) comes in as
//! plain values. What is to happen outside goes out as plain values.

pub mod attributes;
pub mod crypto;
pub mod file;
pub mod io_error;
pub mod object_path;
pub mod secret;
pub mod server;
pub mod text;
pub mod text_laws;
pub mod time;
pub mod value_laws;
