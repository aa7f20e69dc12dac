//! The mapped engine: the checkpoint file is memory-mapped and the weights
//! are views into the mapping.

pub mod config;
pub mod checkpoint;
pub mod transformer;
pub mod tokenizer;
pub mod logger;
pub mod timer;
pub mod chat;
