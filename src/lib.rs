//! Deterministic keys and secrets from one master secret.
//!
//! A master key is stretched from a passphrase (or taken from a binary seed),
//! expanded along realm/purpose paths with HKDF, and turned into passwords,
//! mnemonics and public-key material.
pub mod age;
pub mod cli;
pub mod config;
pub mod derive;
pub mod error;
pub mod password;
pub mod release;
pub mod seed;
pub mod sign;
pub mod ssh;
pub mod text;
