//! Single-core exclusive-access wrappers.

pub mod up;
