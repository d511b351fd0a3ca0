//! Save and restore the layout of a terminal multiplexer's sessions.
//!
//! The library holds the verified core: the save-file codec (geometry
//! descriptors, pane and window records), the merge that folds per-pane
//! records into canonical windows, and the construction of the argument
//! vectors that replay a layout against the live multiplexer. Running
//! those commands, and all file handling, is left to the surrounding
//! binary.

pub mod args;
pub mod error;
pub mod prelude;
pub mod text;
pub mod tmux;

pub use error::TmuxError;
