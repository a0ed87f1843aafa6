//! nerve-tmux-surface: the tmux peer of the Nerve surfaces.
pub mod cli;
pub mod colors;
pub mod columns;
pub mod filter;
pub mod frame;
pub mod git;
pub mod http;
pub mod icons;
pub mod input;
pub mod instance;
pub mod locate;
pub mod machine;
pub mod order;
pub mod panes;
pub mod popup;
pub mod preview;
pub mod procs;
pub mod remote;
pub mod ssh;
pub mod state;
pub mod status;
pub mod stream;
pub mod summary;
pub mod tally;
pub mod text;
pub mod tmux;
pub mod view;
