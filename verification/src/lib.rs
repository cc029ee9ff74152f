//! Catapult: reads log lines from configurable inputs and ships them to
//! configurable outputs. This crate holds the verified core: the
//! configuration grammar, the checks on processor parameters, and the
//! decisions that the inputs and outputs take on every line.

pub mod config;
pub mod grammar;
pub mod grammar_laws;
pub mod inputs;
pub mod json;
pub mod outputs;
pub mod params;
pub mod pipeline;
pub mod processor;
pub mod text;
