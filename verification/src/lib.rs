//! A LLaMA-style inference toolkit: checkpoint and tokenizer file formats,
//! byte-pair encoding, prompt rendering and the integer side of sampling,
//! with contracts checked by Verus.
//!
//! Floating-point kernels live outside this crate; here a float that the
//! logic only compares (a vocabulary score) is carried as its IEEE-754 bits.

pub mod le_bytes;
pub mod score;
pub mod lexicon;
pub mod text;
pub mod bpe;
pub mod rng;
pub mod io_error;
pub mod checked;
pub mod eager;
pub mod mapped;
