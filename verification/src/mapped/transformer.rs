//! The integer side of the mapped transformer.

use vstd::prelude::*;
use crate::mapped::config::Config;

verus! {

/// The number of steps a run takes: `steps`, unless it is 0 or longer than
/// the context, in which case the whole context.
pub open spec fn spec_clamp_steps(seq_len: usize, steps: usize) -> usize {
    if steps == 0 || steps > seq_len {
        seq_len
    } else {
        steps
    }
}

/// Overrides a requested step count to fit the context window of `config`.
pub fn clamp_steps(config: &Config, steps: usize) -> (n: usize)
    ensures
        n == spec_clamp_steps(config.seq_len, steps),
        n <= config.seq_len,
        0 < steps <= config.seq_len ==> n == steps,
{
    let max_steps = config.seq_len;
    if steps == 0 || steps > max_steps {
        max_steps
    } else {
        steps
    }
}

} // verus!
