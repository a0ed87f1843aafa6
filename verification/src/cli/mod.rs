//! The subcommands tmux runs through key bindings and hooks.
pub mod install;
pub mod toggle;
