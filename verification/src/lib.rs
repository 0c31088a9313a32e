//! Kernel-stamped file provenance and context snapshots: the verified core.

pub mod text;
pub mod backend;
pub mod command;
pub mod tools;
