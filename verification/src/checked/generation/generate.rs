//! The decisions of the generation loop.
//!
//! A run feeds the prompt tokens to the model one position at a time, then
//! alternates sampling a token and feeding it back, until the step budget
//! is spent, the beginning-of-sequence token (a sequence delimiter) is
//! sampled, or (when asked) the end-of-sequence token is. The model
//! and the sampler compute in floating point outside this crate; a
//! `GenerationRun` says what to do next and takes their results back.

use vstd::prelude::*;
use vstd::string::StringExecFns;
use crate::checked::tokenizer::{Tokenizer, TokenizerError, EncodeFault};
use crate::checked::sampler::SamplerError;
use crate::checked::transformer::TransformerError;
use crate::text::{lossy_text, push_decimal, decimal};

verus! {

/// What to generate from.
#[derive(Debug, Clone, PartialEq, Eq)]
pub struct GenerateOptions {
    pub prompt: String,
    pub steps: usize,
    pub add_bos: bool,
    pub stop_at_eos: bool,
}

/// What a generation produced.
#[derive(Debug, Clone, PartialEq, Eq)]
pub struct GenerateResult {
    pub prompt_tokens: Vec<u32>,
    pub generated_tokens: Vec<u32>,
    pub generated_text: String,
    pub steps_taken: usize,
    pub stopped_by_eos: bool,
}

/// Why a generation stopped with an error.
#[derive(Debug)]
pub enum GenerateError {
    EmptyPrompt,
    PromptTooLong { prompt_len: usize, seq_len: usize },
    Tokenizer(TokenizerError),
    Sampler(SamplerError),
    Transformer(TransformerError),
}

impl GenerateError {
    /// Whether `m` is the message of this error; a wrapped error gives its
    /// own message.
    pub open spec fn message_is(&self, m: Seq<char>) -> bool {
        match self {
            GenerateError::EmptyPrompt => m == "prompt produced no tokens and tokenizer has no BOS token"@,
            GenerateError::PromptTooLong { prompt_len, seq_len } => m
                == "prompt is too long for the model context: "@ + decimal(*prompt_len as nat)
                + " tokens > "@ + decimal(*seq_len as nat),
            GenerateError::Tokenizer(e) => e.message_is(m),
            GenerateError::Sampler(e) => m == e.spec_message(),
            GenerateError::Transformer(e) => e.message_is(m),
        }
    }

    /// The message of the error.
    pub fn message(&self) -> (s: String)
        ensures
            self.message_is(s@),
    {
        match self {
            GenerateError::EmptyPrompt => String::from_str(
                "prompt produced no tokens and tokenizer has no BOS token",
            ),
            GenerateError::PromptTooLong { prompt_len, seq_len } => {
                let mut s = String::from_str("prompt is too long for the model context: ");
                push_decimal(&mut s, *prompt_len as u128);
                s.append(" tokens > ");
                push_decimal(&mut s, *seq_len as u128);
                s
            },
            GenerateError::Tokenizer(e) => e.message(),
            GenerateError::Sampler(e) => e.message(),
            GenerateError::Transformer(e) => e.message(),
        }
    }
}

impl Default for GenerateOptions {
    fn default() -> (o: GenerateOptions)
        ensures
            o.prompt@ == Seq::<char>::empty(),
            o.steps == 128,
            o.add_bos,
            o.stop_at_eos,
    {
        GenerateOptions { prompt: String::new(), steps: 128, add_bos: true, stop_at_eos: true }
    }
}

/// What the driver of a run does next.
#[derive(Debug, Clone, Copy, PartialEq, Eq, Structural)]
pub enum GenerateAction {
    /// Run the model on `token` at `position`, keeping its logits.
    Forward { token: u32, position: usize },
    /// Sample a token from the last logits and hand it to `sampled`.
    Sample,
    /// The run is over: take its result with `finish`.
    Finish,
}

/// Why a prompt cannot start a run.
pub enum PromptFault {
    Encode(EncodeFault),
    Empty,
    TooLong,
}

/// The prompt tokens of a run: the encoding of the prompt (without EOS);
/// an empty one becomes the BOS token alone when BOS was asked for and
/// exists.
pub open spec fn spec_prompt_tokens(t: Tokenizer, prompt: Seq<char>, add_bos: bool) -> Result<
    Seq<u32>,
    PromptFault,
> {
    match t.spec_encode(prompt, add_bos, false) {
        Err(e) => Err(PromptFault::Encode(e)),
        Ok(ids) => if ids.len() > 0 {
            Ok(ids)
        } else if add_bos && t.bos() is Some {
            Ok(seq![t.bos().unwrap()])
        } else {
            Err(PromptFault::Empty)
        },
    }
}

/// The number of tokens a run may generate: the requested steps, limited to
/// the room that the context has after the prompt.
pub open spec fn step_budget(steps: int, seq_len: int, prompt_len: int) -> int {
    let room = if seq_len > prompt_len {
        seq_len - prompt_len
    } else {
        0
    };
    if steps < room {
        steps
    } else {
        room
    }
}

/// The text of generated tokens: each token's bytes decoded on its own,
/// ill-formed UTF-8 replaced, joined.
pub open spec fn decoded_text(keys: Seq<Seq<u8>>, ids: Seq<u32>) -> Seq<char>
    decreases ids.len(),
{
    if ids.len() == 0 {
        Seq::empty()
    } else {
        decoded_text(keys, ids.drop_last()) + lossy_text(keys[ids.last() as int])
    }
}

/// A generation in progress.
pub struct GenerationRun {
    prompt_tokens: Vec<u32>,
    generated_tokens: Vec<u32>,
    generated_text: String,
    fed: usize,
    pending: Option<u32>,
    max_steps: usize,
    seq_len: usize,
    eos: Option<u32>,
    bos: Option<u32>,
    stop_at_eos: bool,
    stopped_by_eos: bool,
    stopped_at_bos: bool,
    keys: Ghost<Seq<Seq<u8>>>,
}

impl GenerationRun {
    #[verifier::type_invariant]
    spec fn inv(&self) -> bool {
        &&& 0 < self.prompt_tokens@.len()
        &&& self.prompt_tokens@.len() + self.max_steps <= self.seq_len
        &&& self.fed <= self.prompt_tokens@.len()
        &&& self.generated_tokens@.len() <= self.max_steps
        &&& self.pending is Some ==> {
            &&& self.fed == self.prompt_tokens@.len()
            &&& self.generated_tokens@.len() > 0
            &&& self.pending == Some(self.generated_tokens@.last())
        }
        &&& self.stopped_by_eos ==> self.pending is None && self.fed == self.prompt_tokens@.len()
        &&& self.stopped_at_bos ==> self.pending is None && self.fed == self.prompt_tokens@.len()
        &&& self.fed < self.prompt_tokens@.len() ==> self.generated_tokens@.len() == 0
        &&& self.generated_text@ == decoded_text(self.keys@, self.generated_tokens@)
        &&& self.stop_at_eos ==> forall|i: int|
            0 <= i < self.generated_tokens@.len() ==> Some(#[trigger] self.generated_tokens@[i])
                != self.eos
        &&& forall|i: int|
            0 <= i < self.generated_tokens@.len() ==> Some(#[trigger] self.generated_tokens@[i])
                != self.bos
    }

    /// The prompt tokens.
    pub closed spec fn prompt(&self) -> Seq<u32> {
        self.prompt_tokens@
    }

    /// The tokens generated so far.
    pub closed spec fn generated(&self) -> Seq<u32> {
        self.generated_tokens@
    }

    /// The text generated so far.
    pub closed spec fn text(&self) -> Seq<char> {
        self.generated_text@
    }

    /// How many tokens the run may generate.
    pub closed spec fn budget(&self) -> nat {
        self.max_steps as nat
    }

    /// The context length of the model.
    pub closed spec fn context(&self) -> nat {
        self.seq_len as nat
    }

    /// The vocabulary the run decodes with.
    pub closed spec fn vocabulary(&self) -> Seq<Seq<u8>> {
        self.keys@
    }

    /// The end-of-sequence token the run watches for.
    pub closed spec fn eos_token(&self) -> Option<u32> {
        self.eos
    }

    /// The beginning-of-sequence token, which ends the run when sampled.
    pub closed spec fn bos_token(&self) -> Option<u32> {
        self.bos
    }

    /// Whether the run ended at a sampled beginning-of-sequence token.
    pub closed spec fn delimited(&self) -> bool {
        self.stopped_at_bos
    }

    /// Whether the run stops at the end-of-sequence token.
    pub closed spec fn stops_at_eos(&self) -> bool {
        self.stop_at_eos
    }

    /// Whether the run stopped at the end-of-sequence token.
    pub closed spec fn stopped(&self) -> bool {
        self.stopped_by_eos
    }

    /// How many prompt tokens the model has been run on.
    pub closed spec fn fed_count(&self) -> nat {
        self.fed as nat
    }

    /// The generated token that the model has yet to be run on.
    pub closed spec fn awaiting(&self) -> Option<u32> {
        self.pending
    }

    /// The action that the state calls for: the prompt tokens at positions
    /// `0..n`, then each generated token right after it is sampled, at
    /// position `n + j`; a sample while the run goes on; the end once it
    /// stopped at EOS or BOS or generated its budget.
    pub open spec fn spec_next(&self) -> GenerateAction {
        if self.fed_count() < self.prompt().len() {
            GenerateAction::Forward {
                token: self.prompt()[self.fed_count() as int],
                position: self.fed_count() as usize,
            }
        } else if self.awaiting() is Some {
            GenerateAction::Forward {
                token: self.awaiting().unwrap(),
                position: (self.prompt().len() + self.generated().len() - 1) as usize,
            }
        } else if self.stopped() || self.delimited() || self.generated().len() >= self.budget() {
            GenerateAction::Finish
        } else {
            GenerateAction::Sample
        }
    }

    /// Starts a run: encodes the prompt (with BOS if asked for, never EOS),
    /// falls back to the BOS token alone for a prompt without tokens, and
    /// sizes the step budget. An encoding error gives `Tokenizer`; a prompt
    /// without tokens (and no BOS to stand in) gives `EmptyPrompt`; a prompt
    /// longer than the context gives `PromptTooLong`.
    pub fn start(tokenizer: &Tokenizer, options: &GenerateOptions, seq_len: usize) -> (r: Result<
        GenerationRun,
        GenerateError,
    >)
        ensures
            match spec_prompt_tokens(*tokenizer, options.prompt@, options.add_bos) {
                Err(PromptFault::Encode(_)) => r matches Err(GenerateError::Tokenizer(_)),
                Err(PromptFault::Empty) => r matches Err(GenerateError::EmptyPrompt),
                Err(PromptFault::TooLong) => false,
                Ok(ids) => if ids.len() > seq_len {
                    r matches Err(GenerateError::PromptTooLong { prompt_len, seq_len: s })
                        && prompt_len == ids.len() && s == seq_len
                } else {
                    r matches Ok(run) && {
                        &&& run.prompt() == ids
                        &&& run.generated() == Seq::<u32>::empty()
                        &&& run.text() == Seq::<char>::empty()
                        &&& run.budget() == step_budget(options.steps as int, seq_len as int, ids.len() as int)
                        &&& run.context() == seq_len
                        &&& run.vocabulary() == tokenizer.keys()
                        &&& run.eos_token() == tokenizer.eos()
                        &&& run.bos_token() == tokenizer.bos()
                        &&& run.stops_at_eos() == options.stop_at_eos
                        &&& !run.stopped()
                        &&& !run.delimited()
                        &&& run.fed_count() == 0
                        &&& run.awaiting() is None
                        &&& run.spec_next() == (GenerateAction::Forward { token: ids[0], position: 0 })
                    }
                },
            },
    {
        let mut prompt_tokens = match tokenizer.encode(options.prompt.as_str(), options.add_bos, false) {
            Ok(ids) => ids,
            Err(e) => return Err(GenerateError::Tokenizer(e)),
        };
        if prompt_tokens.len() == 0 {
            if options.add_bos {
                match tokenizer.bos_token() {
                    Some(bos) => prompt_tokens.push(bos),
                    None => return Err(GenerateError::EmptyPrompt),
                }
            } else {
                return Err(GenerateError::EmptyPrompt);
            }
        }
        if prompt_tokens.len() > seq_len {
            return Err(GenerateError::PromptTooLong { prompt_len: prompt_tokens.len(), seq_len });
        }
        let room = seq_len - prompt_tokens.len();
        let max_steps = if options.steps < room {
            options.steps
        } else {
            room
        };
        let run = GenerationRun {
            prompt_tokens,
            generated_tokens: Vec::new(),
            generated_text: String::new(),
            fed: 0,
            pending: None,
            max_steps,
            seq_len,
            eos: tokenizer.eos_token(),
            bos: tokenizer.bos_token(),
            stop_at_eos: options.stop_at_eos,
            stopped_by_eos: false,
            stopped_at_bos: false,
            keys: Ghost(tokenizer.keys()),
        };
        assert(decoded_text(tokenizer.keys(), Seq::<u32>::empty()) == Seq::<char>::empty());
        Ok(run)
    }
}

impl GenerationRun {
    /// The next thing to do: run the model on the next prompt token, or on
    /// the token just sampled, or sample, or finish. Every position handed
    /// to the model lies inside the context.
    pub fn next_action(&self) -> (a: GenerateAction)
        ensures
            a == self.spec_next(),
            a matches GenerateAction::Forward { position, .. } ==> position < self.context(),
    {
        proof {
            use_type_invariant(self);
        }
        if self.fed < self.prompt_tokens.len() {
            GenerateAction::Forward { token: self.prompt_tokens[self.fed], position: self.fed }
        } else if let Some(token) = self.pending {
            GenerateAction::Forward {
                token,
                position: self.prompt_tokens.len() + self.generated_tokens.len() - 1,
            }
        } else if self.stopped_by_eos || self.stopped_at_bos || self.generated_tokens.len()
            >= self.max_steps {
            GenerateAction::Finish
        } else {
            GenerateAction::Sample
        }
    }

    /// Records that the model ran on the token that `next_action` named.
    pub fn forwarded(&mut self)
        requires
            old(self).spec_next() is Forward,
        ensures
            final(self).prompt() == old(self).prompt(),
            final(self).generated() == old(self).generated(),
            final(self).text() == old(self).text(),
            final(self).budget() == old(self).budget(),
            final(self).context() == old(self).context(),
            final(self).vocabulary() == old(self).vocabulary(),
            final(self).eos_token() == old(self).eos_token(),
            final(self).bos_token() == old(self).bos_token(),
            final(self).stops_at_eos() == old(self).stops_at_eos(),
            final(self).stopped() == old(self).stopped(),
            final(self).delimited() == old(self).delimited(),
            old(self).fed_count() < old(self).prompt().len() ==> final(self).fed_count()
                == old(self).fed_count() + 1 && final(self).awaiting() == old(self).awaiting(),
            old(self).fed_count() == old(self).prompt().len() ==> final(self).fed_count()
                == old(self).fed_count() && final(self).awaiting() is None,
    {
        proof {
            use_type_invariant(&*self);
        }
        if self.fed < self.prompt_tokens.len() {
            self.fed = self.fed + 1;
        } else {
            self.pending = None;
        }
    }

    /// Takes the token that the sampler drew. With `stop_at_eos`, the
    /// end-of-sequence token ends the run and is not kept. The
    /// beginning-of-sequence token, a sequence delimiter, ends the run too
    /// and is neither decoded nor kept. Any other token
    /// is decoded onto the text and kept, and the model is to run on it
    /// next; a token outside the vocabulary gives `Tokenizer` and changes
    /// nothing.
    pub fn sampled(&mut self, tokenizer: &Tokenizer, token: u32) -> (r: Result<(), GenerateError>)
        requires
            old(self).spec_next() == GenerateAction::Sample,
            tokenizer.keys() == old(self).vocabulary(),
        ensures
            final(self).prompt() == old(self).prompt(),
            final(self).budget() == old(self).budget(),
            final(self).context() == old(self).context(),
            final(self).vocabulary() == old(self).vocabulary(),
            final(self).eos_token() == old(self).eos_token(),
            final(self).bos_token() == old(self).bos_token(),
            final(self).stops_at_eos() == old(self).stops_at_eos(),
            final(self).fed_count() == old(self).fed_count(),
            old(self).stops_at_eos() && old(self).eos_token() == Some(token) ==> {
                &&& r is Ok
                &&& final(self).stopped()
                &&& !final(self).delimited()
                &&& final(self).generated() == old(self).generated()
                &&& final(self).text() == old(self).text()
                &&& final(self).spec_next() == GenerateAction::Finish
            },
            !(old(self).stops_at_eos() && old(self).eos_token() == Some(token))
                && old(self).bos_token() == Some(token) ==> {
                &&& r is Ok
                &&& !final(self).stopped()
                &&& final(self).delimited()
                &&& final(self).generated() == old(self).generated()
                &&& final(self).text() == old(self).text()
                &&& final(self).spec_next() == GenerateAction::Finish
            },
            !(old(self).stops_at_eos() && old(self).eos_token() == Some(token))
                && old(self).bos_token() != Some(token) && token
                >= old(self).vocabulary().len() ==> {
                &&& r matches Err(GenerateError::Tokenizer(TokenizerError::TokenOutOfRange(t)))
                &&& t == token
                &&& final(self).generated() == old(self).generated()
                &&& final(self).text() == old(self).text()
                &&& final(self).stopped() == old(self).stopped()
                &&& final(self).delimited() == old(self).delimited()
                &&& final(self).awaiting() == old(self).awaiting()
            },
            !(old(self).stops_at_eos() && old(self).eos_token() == Some(token))
                && old(self).bos_token() != Some(token) && token
                < old(self).vocabulary().len() ==> {
                &&& r is Ok
                &&& !final(self).stopped()
                &&& !final(self).delimited()
                &&& final(self).generated() == old(self).generated().push(token)
                &&& final(self).text() == old(self).text() + lossy_text(
                    old(self).vocabulary()[token as int],
                )
                &&& final(self).spec_next() == (GenerateAction::Forward {
                    token,
                    position: (old(self).prompt().len() + old(self).generated().len()) as usize,
                })
            },
    {
        proof {
            use_type_invariant(&*self);
        }
        if self.stop_at_eos && self.eos == Some(token) {
            self.stopped_by_eos = true;
            return Ok(());
        }
        if self.bos == Some(token) {
            self.stopped_at_bos = true;
            return Ok(());
        }
        let piece = match tokenizer.decode(token) {
            Ok(s) => s,
            Err(e) => return Err(GenerateError::Tokenizer(e)),
        };
        let mut text = self.generated_text.clone();
        text.append(piece.as_str());
        let mut tokens = self.generated_tokens.clone();
        assert(tokens@ =~= self.generated_tokens@);
        tokens.push(token);
        assert(tokens@.drop_last() =~= self.generated_tokens@);
        let prompt_tokens = self.prompt_tokens.clone();
        assert(prompt_tokens@ =~= self.prompt_tokens@);
        *self = GenerationRun {
            prompt_tokens,
            generated_tokens: tokens,
            generated_text: text,
            fed: self.fed,
            pending: Some(token),
            max_steps: self.max_steps,
            seq_len: self.seq_len,
            eos: self.eos,
            bos: self.bos,
            stop_at_eos: self.stop_at_eos,
            stopped_by_eos: false,
            stopped_at_bos: false,
            keys: Ghost(self.keys@),
        };
        Ok(())
    }

    /// The result of a run: its prompt tokens, the tokens and text it
    /// generated, how many tokens that is, and whether it stopped at the
    /// end-of-sequence token. At most the budget was generated, prompt and
    /// generation fit in the context, no generated token is the
    /// beginning-of-sequence token, and with `stop_at_eos` none is the
    /// end-of-sequence token.
    pub fn finish(self) -> (r: GenerateResult)
        ensures
            r.prompt_tokens@ == self.prompt(),
            r.generated_tokens@ == self.generated(),
            r.generated_text@ == self.text(),
            r.generated_text@ == decoded_text(self.vocabulary(), self.generated()),
            r.steps_taken == self.generated().len(),
            r.stopped_by_eos == self.stopped(),
            r.steps_taken <= self.budget(),
            r.prompt_tokens@.len() + r.steps_taken <= self.context(),
            self.stops_at_eos() ==> forall|i: int|
                0 <= i < r.generated_tokens@.len() ==> Some(#[trigger] r.generated_tokens@[i])
                    != self.eos_token(),
            forall|i: int|
                0 <= i < r.generated_tokens@.len() ==> Some(#[trigger] r.generated_tokens@[i])
                    != self.bos_token(),
            self.spec_next() == GenerateAction::Finish && !self.stopped() && !self.delimited()
                ==> r.steps_taken == self.budget(),
    {
        proof {
            use_type_invariant(&self);
        }
        let steps_taken = self.generated_tokens.len();
        GenerateResult {
            prompt_tokens: self.prompt_tokens,
            generated_tokens: self.generated_tokens,
            generated_text: self.generated_text,
            steps_taken,
            stopped_by_eos: self.stopped_by_eos,
        }
    }
}

} // verus!
