//! The eager engine: the whole checkpoint is read into memory up front.

pub mod config;
pub mod tokenizer;
pub mod checkpoint;
pub mod generate;
