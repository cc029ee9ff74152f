//! The inputs: where lines come from.

pub mod network;
pub mod random;
pub mod stdin;
