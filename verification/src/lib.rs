//! Verified core of the Codex Desktop Linux tools: PNG and URI handling for
//! screenshots, version-string parsing and update bookkeeping for the updater.

pub mod text;
pub mod codex_cli;
pub mod version;
pub mod screenshot;
pub mod state;
pub mod updater;
pub mod paths;
