//! The checked engine: every malformed input is reported as an error value.

pub mod config;
pub mod tokenizer;
pub mod weights;
pub mod transformer;
pub mod sampler;
pub mod generation;
