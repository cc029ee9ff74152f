//! The outputs: where lines go.

pub mod elasticsearch;
pub mod file;
pub mod network;
pub mod stdout;
