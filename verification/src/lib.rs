//! Compares trees of files: two sets of root directories, and for every
//! relative path whether it was added, removed or changed, with the report for
//! the user. The file system is read by the caller; the library takes what was
//! read as plain values, and what it makes of them is proved.
//!
//! Around the differ stand the pieces of a profile manager that uses it: its
//! configuration, the command lines of the package manager, and the plan of
//! what a run has to install and to remove.

pub mod absolute;
pub mod cli;
pub mod command_ext;
pub mod config;
pub mod content;
pub mod decode;
pub mod diff_laws;
pub mod diff_trees;
pub mod directories;
pub mod error;
pub mod files;
pub mod flake;
pub mod format_bulleted_list;
pub mod nix;
pub mod order;
pub mod packages;
pub mod path;
pub mod path_map;
pub mod state;
pub mod symlink;
pub mod text;
pub mod tree;

pub use directories::ProjectPaths;
pub use format_bulleted_list::format_bulleted_list;
