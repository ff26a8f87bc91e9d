//! Core logic of the GhostNet command-line client: endpoint and label rules,
//! the interactive shell's tokenizer, the bridge reply protocol, and the
//! planning of each command.

pub mod text;
pub mod shell;
pub mod config;
pub mod json;
pub mod bridge;
pub mod location;
pub mod history;
pub mod cli;
pub mod commands;
pub mod banner;
