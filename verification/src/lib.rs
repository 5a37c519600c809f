//! Verified core of `decster`, a manager for dotfile modules: parsing of
//! configuration values, path handling, alias resolution and the bookkeeping
//! of enabled modules, owned paths and fetched sources.

pub mod mode;
pub mod path;
pub mod order;
pub mod sorted_map;
pub mod config;
pub mod env;
pub mod sha256;
pub mod globs;
pub mod source;
pub mod packages;
pub mod state;
pub mod owner;
pub mod cli;
pub mod module;
pub mod link;
pub mod compare;
