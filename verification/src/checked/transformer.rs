//! The checks of the checked transformer: weight tensors of the sizes the
//! configuration asks for, and forward passes on tokens and positions that
//! the model has. The floating-point pass itself lives outside this crate.

use vstd::prelude::*;
use crate::checked::config::Config;
use crate::checked::weights::{WeightCounts, WeightsError, count_overflow, spec_counts};
use crate::text::{push_decimal, decimal};
use vstd::string::StringExecFns;

verus! {

/// Why a transformer could not be built or run.
#[derive(Debug)]
pub enum TransformerError {
    InvalidToken { token: u32, vocab_size: usize },
    InvalidPosition { position: usize, seq_len: usize },
    InvalidWeights(&'static str),
    WeightLayout(WeightsError),
}

impl TransformerError {
    /// Whether `m` is the message of this error.
    pub open spec fn message_is(&self, m: Seq<char>) -> bool {
        match self {
            TransformerError::InvalidToken { token, vocab_size } => m == "token "@ + decimal(*token as nat)
                + " is out of range for vocab size "@ + decimal(*vocab_size as nat),
            TransformerError::InvalidPosition { position, seq_len } => m == "position "@ + decimal(
                *position as nat,
            ) + " is out of range for sequence length "@ + decimal(*seq_len as nat),
            TransformerError::InvalidWeights(reason) => m == "invalid transformer weights: "@ + reason@,
            TransformerError::WeightLayout(e) => e.message_is(m),
        }
    }

    /// The message of the error.
    pub fn message(&self) -> (s: String)
        ensures
            self.message_is(s@),
    {
        match self {
            TransformerError::InvalidToken { token, vocab_size } => {
                let mut s = String::from_str("token ");
                push_decimal(&mut s, *token as u128);
                s.append(" is out of range for vocab size ");
                push_decimal(&mut s, *vocab_size as u128);
                s
            },
            TransformerError::InvalidPosition { position, seq_len } => {
                let mut s = String::from_str("position ");
                push_decimal(&mut s, *position as u128);
                s.append(" is out of range for sequence length ");
                push_decimal(&mut s, *seq_len as u128);
                s
            },
            TransformerError::InvalidWeights(reason) => {
                let mut s = String::from_str("invalid transformer weights: ");
                s.append(reason);
                s
            },
            TransformerError::WeightLayout(e) => e.message(),
        }
    }
}

/// A weight tensor, by its place in the file.
#[derive(Debug, Clone, Copy, PartialEq, Eq, Structural)]
pub enum Tensor {
    TokenEmbeddingTable,
    RmsAttWeight,
    Wq,
    Wk,
    Wv,
    Wo,
    RmsFfnWeight,
    W1,
    W2,
    W3,
    RmsFinalWeight,
    FreqCisReal,
    FreqCisImag,
    Wcls,
}

/// The tensors in the order they are checked.
pub open spec fn tensor_order() -> Seq<Tensor> {
    seq![
        Tensor::TokenEmbeddingTable,
        Tensor::RmsAttWeight,
        Tensor::Wq,
        Tensor::Wk,
        Tensor::Wv,
        Tensor::Wo,
        Tensor::RmsFfnWeight,
        Tensor::W1,
        Tensor::W2,
        Tensor::W3,
        Tensor::RmsFinalWeight,
        Tensor::FreqCisReal,
        Tensor::FreqCisImag,
        Tensor::Wcls,
    ]
}

/// The message for a tensor of the wrong length.
pub open spec fn mismatch_message(t: Tensor) -> &'static str {
    match t {
        Tensor::TokenEmbeddingTable => "token_embedding_table length mismatch",
        Tensor::RmsAttWeight => "rms_att_weight length mismatch",
        Tensor::Wq => "wq length mismatch",
        Tensor::Wk => "wk length mismatch",
        Tensor::Wv => "wv length mismatch",
        Tensor::Wo => "wo length mismatch",
        Tensor::RmsFfnWeight => "rms_ffn_weight length mismatch",
        Tensor::W1 => "w1 length mismatch",
        Tensor::W2 => "w2 length mismatch",
        Tensor::W3 => "w3 length mismatch",
        Tensor::RmsFinalWeight => "rms_final_weight length mismatch",
        Tensor::FreqCisReal => "freq_cis_real length mismatch",
        Tensor::FreqCisImag => "freq_cis_imag length mismatch",
        Tensor::Wcls => "wcls length mismatch",
    }
}

impl Tensor {
    /// The message reported when this tensor has the wrong length.
    pub fn length_mismatch(self) -> (m: &'static str)
        ensures
            m == mismatch_message(self),
    {
        match self {
            Tensor::TokenEmbeddingTable => "token_embedding_table length mismatch",
            Tensor::RmsAttWeight => "rms_att_weight length mismatch",
            Tensor::Wq => "wq length mismatch",
            Tensor::Wk => "wk length mismatch",
            Tensor::Wv => "wv length mismatch",
            Tensor::Wo => "wo length mismatch",
            Tensor::RmsFfnWeight => "rms_ffn_weight length mismatch",
            Tensor::W1 => "w1 length mismatch",
            Tensor::W2 => "w2 length mismatch",
            Tensor::W3 => "w3 length mismatch",
            Tensor::RmsFinalWeight => "rms_final_weight length mismatch",
            Tensor::FreqCisReal => "freq_cis_real length mismatch",
            Tensor::FreqCisImag => "freq_cis_imag length mismatch",
            Tensor::Wcls => "wcls length mismatch",
        }
    }
}

/// `Ok` when a tensor has the length it should, else `InvalidWeights` with
/// that tensor's message.
pub fn check_len(name: Tensor, actual: usize, expected: usize) -> (r: Result<(), TransformerError>)
    ensures
        actual == expected ==> r is Ok,
        actual != expected ==> (r matches Err(TransformerError::InvalidWeights(m))
            && m == mismatch_message(name)),
{
    if actual != expected {
        return Err(TransformerError::InvalidWeights(name.length_mismatch()));
    }
    Ok(())
}

/// The first tensor from `i` on whose actual length differs from the
/// expected one.
pub open spec fn first_mismatch(actual: Seq<usize>, expected: Seq<usize>, i: int) -> Option<int>
    decreases actual.len() - i,
{
    if i < 0 || i >= actual.len() || i >= expected.len() {
        None
    } else if actual[i] != expected[i] {
        Some(i)
    } else {
        first_mismatch(actual, expected, i + 1)
    }
}

/// The lengths to check, in order: the mandatory tensors, then the
/// classifier when there is one.
pub open spec fn checked_lengths(c: WeightCounts, has_classifier: bool) -> Seq<usize> {
    let m = c.mandatory();
    if has_classifier {
        m.push(c.wcls)
    } else {
        m
    }
}

/// Checks that the weight tensors have the lengths that `config` asks for.
/// `lengths` holds the actual length of each tensor; its `wcls` is the
/// classifier's and counts only when `has_classifier`. A configuration that
/// cannot be sized gives `WeightLayout`; the first tensor (in file order)
/// of the wrong length gives `InvalidWeights` with its message.
pub fn validate_weight_shapes(config: &Config, lengths: &WeightCounts, has_classifier: bool) -> (r: Result<
    (),
    TransformerError,
>)
    requires
        config.n_heads > 0,
        (config.dim / config.n_heads) * config.n_kv_heads <= usize::MAX,
    ensures
        ((config.dim / config.n_heads) % 2 != 0 || count_overflow(*config) is Some) ==> (r matches Err(
            TransformerError::WeightLayout(_),
        )),
        ((config.dim / config.n_heads) % 2 == 0 && count_overflow(*config) is None) ==> match first_mismatch(
            checked_lengths(*lengths, has_classifier),
            checked_lengths(spec_counts(*config), has_classifier),
            0,
        ) {
            Some(i) => r matches Err(TransformerError::InvalidWeights(m)) && m == mismatch_message(
                tensor_order()[i],
            ),
            None => r is Ok,
        },
{
    let counts = match WeightCounts::from_config(config) {
        Ok(c) => c,
        Err(e) => return Err(TransformerError::WeightLayout(e)),
    };
    let mut actual: Vec<usize> = vec![
        lengths.token_embedding_table,
        lengths.rms_att_weight,
        lengths.wq,
        lengths.wk,
        lengths.wv,
        lengths.wo,
        lengths.rms_ffn_weight,
        lengths.w1,
        lengths.w2,
        lengths.w3,
        lengths.rms_final_weight,
        lengths.freq_cis_real,
        lengths.freq_cis_imag,
    ];
    let mut expected: Vec<usize> = vec![
        counts.token_embedding_table,
        counts.rms_att_weight,
        counts.wq,
        counts.wk,
        counts.wv,
        counts.wo,
        counts.rms_ffn_weight,
        counts.w1,
        counts.w2,
        counts.w3,
        counts.rms_final_weight,
        counts.freq_cis_real,
        counts.freq_cis_imag,
    ];
    if has_classifier {
        actual.push(lengths.wcls);
        expected.push(counts.wcls);
    }
    let names: Vec<Tensor> = vec![
        Tensor::TokenEmbeddingTable,
        Tensor::RmsAttWeight,
        Tensor::Wq,
        Tensor::Wk,
        Tensor::Wv,
        Tensor::Wo,
        Tensor::RmsFfnWeight,
        Tensor::W1,
        Tensor::W2,
        Tensor::W3,
        Tensor::RmsFinalWeight,
        Tensor::FreqCisReal,
        Tensor::FreqCisImag,
        Tensor::Wcls,
    ];
    let ghost a = checked_lengths(*lengths, has_classifier);
    let ghost e = checked_lengths(spec_counts(*config), has_classifier);
    assert(actual@ =~= a);
    assert(expected@ =~= e);
    assert(names@ =~= tensor_order());
    let mut i: usize = 0;
    while i < actual.len()
        invariant
            (config.dim / config.n_heads) % 2 == 0,
            count_overflow(*config) is None,
            a == checked_lengths(*lengths, has_classifier),
            e == checked_lengths(spec_counts(*config), has_classifier),
            actual@ == a,
            expected@ == e,
            names@ == tensor_order(),
            a.len() == e.len(),
            a.len() <= 14,
            i <= a.len(),
            first_mismatch(a, e, 0) == first_mismatch(a, e, i as int),
        decreases a.len() - i,
    {
        if actual[i] != expected[i] {
            return Err(TransformerError::InvalidWeights(names[i].length_mismatch()));
        }
        i += 1;
    }
    Ok(())
}

/// Checks the arguments of a forward pass: the token must be an id of the
/// vocabulary (else `InvalidToken`), and the position must lie inside the
/// context (else `InvalidPosition`).
pub fn check_forward_args(config: &Config, token: u32, position: usize) -> (r: Result<(), TransformerError>)
    ensures
        token as int >= config.vocab_size ==> (r matches Err(
            TransformerError::InvalidToken { token: t, vocab_size: v },
        ) && t == token && v == config.vocab_size),
        (token as int) < config.vocab_size && position >= config.seq_len ==> (r matches Err(
            TransformerError::InvalidPosition { position: p, seq_len: s },
        ) && p == position && s == config.seq_len),
        (token as int) < config.vocab_size && position < config.seq_len ==> r is Ok,
{
    if token as usize >= config.vocab_size {
        return Err(TransformerError::InvalidToken { token, vocab_size: config.vocab_size });
    }
    if position >= config.seq_len {
        return Err(TransformerError::InvalidPosition { position, seq_len: config.seq_len });
    }
    Ok(())
}

} // verus!
