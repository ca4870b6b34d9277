//! Backup and restore of named container volumes through one gzip-compressed
//! tar archive whose top-level directories are the volume names.
//!
//! The library holds the pure decisions of the tool: how a canonical host
//! path splits into a mountable directory and a file name, which volume names
//! an archive holds, which arguments the container runtime is started with,
//! and how the outcome of that run is judged.

pub mod commands;
pub mod entry_path;
pub mod errors;
pub mod inspector;
pub mod launcher;
pub mod negative_index;
pub mod planner;
pub mod resolver;
pub mod text;
