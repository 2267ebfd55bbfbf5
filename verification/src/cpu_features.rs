//! Checks for CPU features, decided when the crate is built.

pub mod opcodes;
