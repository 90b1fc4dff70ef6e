//! A configurable log pipeline: a block-structured configuration language
//! names the plugins of three stages, and an orchestrator drives records from
//! the inputs through the outputs and acknowledges them to their input.

pub mod config;
pub mod text;
pub mod plugin;
