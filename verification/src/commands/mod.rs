//! The decisions behind each command.

pub mod compare;
pub mod waiting;
pub mod status;
