//! gex: a git identity profile manager.
//!
//! The library keeps named profiles (username, email, SSH key reference),
//! validates their fields, serialises the collection to a canonical JSON
//! text, rewrites an SSH host-configuration text by marker-keyed blocks,
//! and decides the multi-step profile switch. All file and subprocess work
//! is left to the caller, which hands the library plain values.

pub mod error;
pub mod git;
pub mod json;
pub mod manager;
pub mod paths;
pub mod profile;
pub mod ssh;
pub mod storage;
pub mod switcher;
pub mod text;
pub mod validator;
