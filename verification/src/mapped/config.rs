//! Shape of the transformer, as the checkpoint header gives it.

use vstd::prelude::*;

verus! {

/// Shape of the transformer.
#[derive(Debug, Clone)]
pub struct Config {
    pub dim: usize,
    pub hidden_dim: usize,
    pub n_layers: usize,
    pub n_heads: usize,
    pub n_kv_heads: usize,
    pub vocab_size: usize,
    pub seq_len: usize,
}

} // verus!
