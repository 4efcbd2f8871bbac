//! wots: a dotfile manager for WSL. Packages are directories of the
//! repository named `<name>.<type>`; Linux types are linked into place with
//! GNU Stow, Windows types are copied to the `C:` drive, and a sync index
//! records what was last seen of every copied file.
//!
//! This library holds the decisions: package types and names, target
//! paths, the per-file sync status and the index it keeps, exclusion rules,
//! and the texts and commands the tool produces.
pub mod text;
pub mod path;
pub mod order;
pub mod config;
pub mod types;
pub mod index;
pub mod status;
pub mod util;
pub mod discover;
pub mod create;
pub mod cli;
pub mod sync;
pub mod commands;
pub mod display;
