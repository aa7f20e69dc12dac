//! The integer side of the checked sampler: its configuration and input
//! checks, and its random number generator. The probabilities themselves
//! are floating point and are computed outside this crate.

use vstd::prelude::*;
use crate::rng::{xorshift, scramble, XORSHIFT_MULTIPLIER};
use crate::text::{push_decimal, decimal};
use vstd::string::StringExecFns;

verus! {

/// Why a sampler could not be built or could not sample.
#[derive(Debug)]
pub enum SamplerError {
    InvalidConfig(&'static str),
    LogitCountMismatch { expected: usize, actual: usize },
    EmptyLogits,
}

impl SamplerError {
    /// The message of an error.
    pub open spec fn spec_message(&self) -> Seq<char> {
        match self {
            SamplerError::InvalidConfig(reason) => "invalid sampler config: "@ + reason@,
            SamplerError::LogitCountMismatch { expected, actual } => "logit count mismatch: expected "@
                + decimal(*expected as nat) + ", got "@ + decimal(*actual as nat),
            SamplerError::EmptyLogits => "logits must not be empty"@,
        }
    }

    /// The message of the error.
    pub fn message(&self) -> (s: String)
        ensures
            s@ == self.spec_message(),
    {
        match self {
            SamplerError::InvalidConfig(reason) => {
                let mut s = String::from_str("invalid sampler config: ");
                s.append(reason);
                s
            },
            SamplerError::LogitCountMismatch { expected, actual } => {
                let mut s = String::from_str("logit count mismatch: expected ");
                push_decimal(&mut s, *expected as u128);
                s.append(", got ");
                push_decimal(&mut s, *actual as u128);
                s
            },
            SamplerError::EmptyLogits => String::from_str("logits must not be empty"),
        }
    }
}

/// Checks a sampler configuration in order: a positive vocabulary size, a
/// temperature that is not negative, a `top_p` inside `[0, 1]`. The two
/// float comparisons are made by the caller and handed in as booleans.
pub fn check_sampler_config(vocab_size: usize, temperature_negative: bool, top_p_in_unit: bool) -> (r:
    Result<(), SamplerError>)
    ensures
        vocab_size == 0 ==> (r matches Err(SamplerError::InvalidConfig(m))
            && m@ == "vocab_size must be greater than zero"@),
        vocab_size > 0 && temperature_negative ==> (r matches Err(SamplerError::InvalidConfig(m))
            && m@ == "temperature must be greater than or equal to zero"@),
        vocab_size > 0 && !temperature_negative && !top_p_in_unit ==> (r matches Err(
            SamplerError::InvalidConfig(m),
        ) && m@ == "top_p must be between 0.0 and 1.0"@),
        vocab_size > 0 && !temperature_negative && top_p_in_unit ==> r is Ok,
{
    if vocab_size == 0 {
        return Err(SamplerError::InvalidConfig("vocab_size must be greater than zero"));
    }
    if temperature_negative {
        return Err(SamplerError::InvalidConfig("temperature must be greater than or equal to zero"));
    }
    if !top_p_in_unit {
        return Err(SamplerError::InvalidConfig("top_p must be between 0.0 and 1.0"));
    }
    Ok(())
}

/// Checks that there are logits, and one per vocabulary entry.
pub fn validate_logits(vocab_size: usize, logit_count: usize) -> (r: Result<(), SamplerError>)
    ensures
        logit_count == 0 ==> r matches Err(SamplerError::EmptyLogits),
        logit_count > 0 && logit_count != vocab_size ==> (r matches Err(
            SamplerError::LogitCountMismatch { expected, actual },
        ) && expected == vocab_size && actual == logit_count),
        logit_count > 0 && logit_count == vocab_size ==> r is Ok,
{
    if logit_count == 0 {
        return Err(SamplerError::EmptyLogits);
    }
    if logit_count != vocab_size {
        return Err(SamplerError::LogitCountMismatch { expected: vocab_size, actual: logit_count });
    }
    Ok(())
}

/// The generator of the checked sampler: xorshift64* over a state that is
/// never zero.
#[derive(Debug, Clone, Copy, PartialEq, Eq, Structural)]
pub struct SamplerRng {
    pub state: u64,
}

impl SamplerRng {
    /// Starts from `seed`, or from 1 when the seed is 0.
    pub fn new(seed: u64) -> (r: SamplerRng)
        ensures
            r.state == if seed == 0 { 1 } else { seed },
    {
        SamplerRng { state: if seed == 0 { 1 } else { seed } }
    }

    /// Advances the state and returns its scrambled value.
    pub fn next_u64(&mut self) -> (r: u64)
        ensures
            final(self).state == xorshift(old(self).state),
            r == scramble(xorshift(old(self).state)),
    {
        let x = self.state;
        let a = x ^ (x >> 12);
        let b = a ^ (a << 25);
        let c = b ^ (b >> 27);
        self.state = c;
        c.wrapping_mul(XORSHIFT_MULTIPLIER)
    }

    /// The top 24 bits of the next value: divided by 2^24 it is the next
    /// float coin in `[0, 1)`.
    pub fn next_bits24(&mut self) -> (r: u32)
        ensures
            final(self).state == xorshift(old(self).state),
            r == scramble(xorshift(old(self).state)) / 0x100_0000_0000,
            r < 0x100_0000,
    {
        let v = self.next_u64();
        assert(v >> 40u64 == v / 0x100_0000_0000 && v / 0x100_0000_0000 < 0x100_0000) by (bit_vector);
        (v >> 40) as u32
    }
}

/// A state that is not zero stays not zero: xorshift is a bijection that
/// fixes zero.
pub proof fn xorshift_keeps_state_nonzero(x: u64)
    requires
        x != 0,
    ensures
        xorshift(x) != 0,
{
    let a = x ^ (x >> 12u64);
    let b = a ^ (a << 25u64);
    assert(x != 0 ==> x ^ (x >> 12u64) != 0) by (bit_vector);
    assert(a != 0 ==> a ^ (a << 25u64) != 0) by (bit_vector);
    assert(b != 0 ==> b ^ (b >> 27u64) != 0) by (bit_vector);
}

} // verus!
