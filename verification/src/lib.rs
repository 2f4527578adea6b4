//! Verified manager for named shell-command aliases.
//!
//! Aliases live in a configuration together with optionally-enabled groups;
//! every mutating operation reports whether the change is shell-visible, and
//! the configuration round-trips through a structured on-disk representation.

pub mod add;
pub mod codec;
pub mod commands;
pub mod disable;
pub mod dispatch;
pub mod edit;
pub mod enable;
pub mod init;
pub mod laws;
pub mod listing;
pub mod model;
pub mod outcome;
pub mod relocate;
pub mod remove;
pub mod render;
pub mod rename;
pub mod resolve;
pub mod shell;
pub mod sort;
pub mod style;
pub mod sync;
