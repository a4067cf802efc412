//! Project bookkeeping for Bisheng workspaces: scanning for projects,
//! reporting the state of component repositories and comparing two trees.

pub mod text;
pub mod paths;
pub mod order;
pub mod cache;
pub mod types;
pub mod utils;
pub mod projects;
pub mod scan;
pub mod storage;
pub mod args;
pub mod cli;
pub mod styled;
pub mod diff;
pub mod commands;
