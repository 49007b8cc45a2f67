//! A file-based vault for Markdown notes, folders, and project records.
//!
//! The vault is a directory tree rooted at a fixed home-relative directory.
//! This crate holds the verified core: path sandboxing (no operation may
//! escape the vault root), slug and filename derivation, atomic-write
//! planning, and the lifecycle rules for notes, folders, and projects.
//! Each operation returns its result together with a list of filesystem
//! actions; an unverified shell executes those actions on the real disk.

pub mod bootstrap;
pub mod errors;
pub mod folders;
pub mod fsops;
pub mod json;
pub mod notes;
pub mod paths;
pub mod projects;
pub mod slug;
pub mod sys;
pub mod text;
