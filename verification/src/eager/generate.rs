//! The decisions of the eager engine's command line: argument checks
//! against the model shape, and the prompt-driven generation loop. The
//! model and the sampler compute in floating point outside this crate; a
//! `PromptRun` says what to do next and takes their results back.

use vstd::prelude::*;
use vstd::string::StringExecFns;
use crate::eager::config::Config;
use crate::eager::tokenizer::{Tokenizer, spec_encode, decoded, safe_piece, start_tokens, token_pieces};
use crate::mapped::tokenizer::found_fn;
use crate::bpe::lemma_merge_all_nonempty;
use crate::score::NEG_INFINITY_BITS;
use vstd::utf8::encode_utf8;
use crate::text::{decimal, push_decimal};

verus! {

/// The message for a token or position outside the model.
pub open spec fn inference_args_message(token: nat, pos: nat, c: Config) -> Option<Seq<char>> {
    if token >= c.vocab_size {
        Some("token out of range: token="@ + decimal(token) + " vocab_size="@ + decimal(c.vocab_size as nat))
    } else if pos >= c.seq_len {
        Some("pos out of range: pos="@ + decimal(pos) + " seq_len="@ + decimal(c.seq_len as nat))
    } else {
        None
    }
}

/// Checks a single forward pass: the token must be an id of the vocabulary
/// and the position inside the context; otherwise the message to print.
pub fn check_inference_args(token: usize, pos: usize, config: &Config) -> (r: Result<(), String>)
    ensures
        match inference_args_message(token as nat, pos as nat, *config) {
            Some(m) => r matches Err(s) && s@ == m,
            None => r is Ok,
        },
{
    if token >= config.vocab_size {
        let mut s = String::from_str("token out of range: token=");
        push_decimal(&mut s, token as u128);
        s.append(" vocab_size=");
        push_decimal(&mut s, config.vocab_size as u128);
        return Err(s);
    }
    if pos >= config.seq_len {
        let mut s = String::from_str("pos out of range: pos=");
        push_decimal(&mut s, pos as u128);
        s.append(" seq_len=");
        push_decimal(&mut s, config.seq_len as u128);
        return Err(s);
    }
    Ok(())
}

/// The message for a generation that runs past the context.
pub open spec fn generation_args_message(pos: nat, steps: nat, c: Config) -> Option<Seq<char>> {
    if pos + steps > c.seq_len {
        Some(
            "generation exceeds seq_len: start_pos="@ + decimal(pos) + " steps="@ + decimal(steps)
                + " seq_len="@ + decimal(c.seq_len as nat),
        )
    } else {
        None
    }
}

/// Checks that `steps` positions from `pos` on stay inside the context;
/// otherwise the message to print.
pub fn check_generation_args(pos: usize, steps: usize, config: &Config) -> (r: Result<(), String>)
    requires
        pos + steps <= usize::MAX,
    ensures
        match generation_args_message(pos as nat, steps as nat, *config) {
            Some(m) => r matches Err(s) && s@ == m,
            None => r is Ok,
        },
{
    if pos + steps > config.seq_len {
        let mut s = String::from_str("generation exceeds seq_len: start_pos=");
        push_decimal(&mut s, pos as u128);
        s.append(" steps=");
        push_decimal(&mut s, steps as u128);
        s.append(" seq_len=");
        push_decimal(&mut s, config.seq_len as u128);
        return Err(s);
    }
    Ok(())
}

/// What the driver of a prompt run does next.
#[derive(Debug, Clone, Copy, PartialEq, Eq, Structural)]
pub enum PromptAction {
    /// Run the model on `token` at `pos`, keeping its logits.
    Forward { token: usize, pos: usize },
    /// Sample the next token from the last logits and hand it to `sampled`.
    Sample,
    /// The run is over: take its result with `finish`.
    Done,
}

/// A prompt-driven generation: for each step the model runs on the current
/// token; while prompt tokens remain, the next prompt token follows,
/// afterwards the sampled one. Every next token is kept, and its decoded
/// piece (when worth showing) is added to the text.
pub struct PromptRun {
    prompt: Vec<usize>,
    token: usize,
    step: usize,
    steps: usize,
    start_pos: usize,
    forwarded: bool,
    generated: Vec<usize>,
    text: String,
    pieces: Ghost<Seq<String>>,
}

/// The text shown for a step from `prev` to `next`.
pub open spec fn shown_step(pieces: Seq<String>, prev: usize, next: usize) -> Seq<char> {
    match safe_piece(decoded(pieces[next as int]@, prev)) {
        Some(p) => p,
        None => Seq::empty(),
    }
}

/// The text shown for a run of tokens that started from `first`.
pub open spec fn shown_text(pieces: Seq<String>, first: usize, ids: Seq<usize>) -> Seq<char>
    decreases ids.len(),
{
    if ids.len() == 0 {
        Seq::empty()
    } else {
        let prev = if ids.len() == 1 {
            first
        } else {
            ids[ids.len() - 2]
        };
        shown_text(pieces, first, ids.drop_last()) + shown_step(pieces, prev, ids.last())
    }
}

impl PromptRun {
    #[verifier::type_invariant]
    spec fn inv(&self) -> bool {
        &&& self.prompt@.len() > 0
        &&& self.step <= self.steps
        &&& self.start_pos + self.steps <= usize::MAX
        &&& self.generated@.len() == self.step
        &&& self.token == if self.step == 0 {
            self.prompt@[0]
        } else {
            self.generated@.last()
        }
        &&& self.forwarded ==> self.step < self.steps
        &&& self.text@ == shown_text(self.pieces@, self.prompt@[0], self.generated@)
        &&& forall|i: int| 0 <= i < self.generated@.len() ==> (#[trigger] self.generated@[i] as int) < self.pieces@.len()
    }

    /// The prompt tokens.
    pub closed spec fn prompt_tokens(&self) -> Seq<usize> {
        self.prompt@
    }

    /// The tokens chosen so far: prompt tokens while they last, then
    /// sampled ones.
    pub closed spec fn tokens(&self) -> Seq<usize> {
        self.generated@
    }

    /// The text shown so far.
    pub closed spec fn shown(&self) -> Seq<char> {
        self.text@
    }

    /// How many steps the run takes.
    pub closed spec fn step_count(&self) -> nat {
        self.steps as nat
    }

    /// The position of the first step.
    pub closed spec fn first_pos(&self) -> nat {
        self.start_pos as nat
    }

    /// The entries the run decodes with.
    pub closed spec fn entries(&self) -> Seq<String> {
        self.pieces@
    }

    /// The token the model runs on next.
    pub closed spec fn current(&self) -> usize {
        self.token
    }

    /// Whether the model has run on the current token of this step.
    pub closed spec fn ran(&self) -> bool {
        self.forwarded
    }

    /// The action the state calls for: each step runs the model on its
    /// token at position `first_pos + step`, then (once the prompt is used
    /// up) samples the next token; the run is done after `step_count`
    /// steps.
    pub open spec fn spec_next(&self) -> PromptAction {
        if self.tokens().len() >= self.step_count() {
            PromptAction::Done
        } else if !self.ran() {
            PromptAction::Forward {
                token: self.current(),
                pos: (self.first_pos() + self.tokens().len()) as usize,
            }
        } else {
            PromptAction::Sample
        }
    }

    /// Starts a run: the prompt is encoded with BOS; `steps` positions from
    /// `start_pos` on will be used. An encoding error is returned.
    pub fn start(tokenizer: &Tokenizer, prompt: &str, start_pos: usize, steps: usize) -> (r:
        std::io::Result<PromptRun>)
        requires
            start_pos + steps <= usize::MAX,
        ensures
            match spec_encode(tokenizer.keys(), tokenizer.score_bits(), encode_utf8(prompt@), true, false) {
                Ok(ids) => r matches Ok(run) && {
                    &&& run.prompt_tokens() == ids
                    &&& run.tokens() == Seq::<usize>::empty()
                    &&& run.shown() == Seq::<char>::empty()
                    &&& run.step_count() == steps
                    &&& run.first_pos() == start_pos
                    &&& run.entries() == tokenizer.pieces()
                    &&& run.current() == ids[0]
                    &&& !run.ran()
                    &&& run.spec_next() == if steps > 0 {
                        PromptAction::Forward { token: ids[0], pos: start_pos }
                    } else {
                        PromptAction::Done
                    }
                },
                Err(_) => r is Err,
            },
    {
        let ids = match tokenizer.encode(prompt, true, false) {
            Ok(ids) => ids,
            Err(e) => return Err(e),
        };
        proof {
            tokenizer.lemma_keys();
        }
        proof {
            let keys = tokenizer.keys();
            let start = match start_tokens(keys, encode_utf8(prompt@), true) {
                Ok(st) => st,
                Err(_) => Seq::empty(),
            };
            assert(start.len() > 0);
            lemma_merge_all_nonempty(token_pieces(keys, start), found_fn(keys, true), tokenizer.score_bits(), None, NEG_INFINITY_BITS);
        }
        Ok(
            PromptRun {
                token: ids[0],
                prompt: ids,
                step: 0,
                steps,
                start_pos,
                forwarded: false,
                generated: Vec::new(),
                text: String::new(),
                pieces: Ghost(tokenizer.pieces()),
            },
        )
    }
}

impl PromptRun {
    /// The next thing to do: run the model, sample, or stop.
    pub fn next_action(&self) -> (a: PromptAction)
        ensures
            a == self.spec_next(),
    {
        proof {
            use_type_invariant(self);
        }
        if self.step >= self.steps {
            PromptAction::Done
        } else if !self.forwarded {
            PromptAction::Forward { token: self.token, pos: self.start_pos + self.step }
        } else {
            PromptAction::Sample
        }
    }

    /// Takes `next` as the token of this step: keeps it, adds its shown
    /// piece to the text, and moves to the next step.
    fn advance(&mut self, tokenizer: &Tokenizer, next: usize) -> (r: std::io::Result<()>)
        requires
            old(self).step < old(self).steps,
            tokenizer.pieces() == old(self).entries(),
        ensures
            final(self).prompt_tokens() == old(self).prompt_tokens(),
            final(self).step_count() == old(self).step_count(),
            final(self).first_pos() == old(self).first_pos(),
            final(self).entries() == old(self).entries(),
            (next as int) < old(self).entries().len() ==> {
                &&& r is Ok
                &&& final(self).tokens() == old(self).tokens().push(next)
                &&& final(self).shown() == old(self).shown() + shown_step(
                    old(self).entries(),
                    old(self).current(),
                    next,
                )
                &&& final(self).current() == next
                &&& final(self).spec_next() == if old(self).tokens().len() + 1 >= old(self).step_count() {
                    PromptAction::Done
                } else {
                    PromptAction::Forward {
                        token: next,
                        pos: (old(self).first_pos() + old(self).tokens().len() + 1) as usize,
                    }
                }
            },
            (next as int) >= old(self).entries().len() ==> r is Err,
    {
        proof {
            use_type_invariant(&*self);
        }
        let piece = match tokenizer.safe_decode(self.token, next) {
            Ok(p) => p,
            Err(e) => return Err(e),
        };
        let mut text = self.text.clone();
        if let Some(p) = piece {
            text.append(p.as_str());
        }
        let mut generated = self.generated.clone();
        assert(generated@ =~= self.generated@);
        generated.push(next);
        let prompt = self.prompt.clone();
        assert(prompt@ =~= self.prompt@);
        proof {
            assert(generated@.drop_last() =~= self.generated@);
            assert(forall|i: int| 0 <= i < generated@.len() ==> (#[trigger] generated@[i] as int) < self.pieces@.len()) by {
                assert forall|i: int| 0 <= i < generated@.len() implies (#[trigger] generated@[i] as int)
                    < self.pieces@.len() by {
                    if i < self.generated@.len() {
                        assert(generated@[i] == self.generated@[i]);
                    }
                }
            }
        }
        *self = PromptRun {
            prompt,
            token: next,
            step: self.step + 1,
            steps: self.steps,
            start_pos: self.start_pos,
            forwarded: false,
            generated,
            text,
            pieces: Ghost(self.pieces@),
        };
        Ok(())
    }

    /// Records that the model ran on the current token. While prompt
    /// tokens remain, the next one is taken at once (an error from
    /// decoding it is returned); afterwards a sample is called for.
    pub fn forwarded(&mut self, tokenizer: &Tokenizer) -> (r: std::io::Result<()>)
        requires
            old(self).spec_next() is Forward,
            tokenizer.pieces() == old(self).entries(),
        ensures
            final(self).prompt_tokens() == old(self).prompt_tokens(),
            final(self).step_count() == old(self).step_count(),
            final(self).first_pos() == old(self).first_pos(),
            final(self).entries() == old(self).entries(),
            old(self).tokens().len() + 1 >= old(self).prompt_tokens().len() ==> {
                &&& r is Ok
                &&& final(self).tokens() == old(self).tokens()
                &&& final(self).shown() == old(self).shown()
                &&& final(self).current() == old(self).current()
                &&& final(self).ran()
                &&& final(self).spec_next() == PromptAction::Sample
            },
            old(self).tokens().len() + 1 < old(self).prompt_tokens().len() ==> {
                let next = old(self).prompt_tokens()[old(self).tokens().len() as int + 1];
                &&& (next as int) < old(self).entries().len() ==> {
                    &&& r is Ok
                    &&& final(self).tokens() == old(self).tokens().push(next)
                    &&& final(self).shown() == old(self).shown() + shown_step(
                        old(self).entries(),
                        old(self).current(),
                        next,
                    )
                    &&& final(self).current() == next
                    &&& final(self).spec_next() == if old(self).tokens().len() + 1 >= old(self).step_count() {
                        PromptAction::Done
                    } else {
                        PromptAction::Forward {
                            token: next,
                            pos: (old(self).first_pos() + old(self).tokens().len() + 1) as usize,
                        }
                    }
                }
                &&& (next as int) >= old(self).entries().len() ==> r is Err
            },
    {
        proof {
            use_type_invariant(&*self);
        }
        if self.step + 1 < self.prompt.len() {
            let next = self.prompt[self.step + 1];
            return self.advance(tokenizer, next);
        }
        self.forwarded = true;
        Ok(())
    }

    /// Takes the sampled token as the token of this step.
    pub fn sampled(&mut self, tokenizer: &Tokenizer, next: usize) -> (r: std::io::Result<()>)
        requires
            old(self).spec_next() == PromptAction::Sample,
            tokenizer.pieces() == old(self).entries(),
        ensures
            final(self).prompt_tokens() == old(self).prompt_tokens(),
            final(self).step_count() == old(self).step_count(),
            final(self).first_pos() == old(self).first_pos(),
            final(self).entries() == old(self).entries(),
            (next as int) < old(self).entries().len() ==> {
                &&& r is Ok
                &&& final(self).tokens() == old(self).tokens().push(next)
                &&& final(self).shown() == old(self).shown() + shown_step(
                    old(self).entries(),
                    old(self).current(),
                    next,
                )
                &&& final(self).current() == next
                &&& final(self).spec_next() == if old(self).tokens().len() + 1 >= old(self).step_count() {
                    PromptAction::Done
                } else {
                    PromptAction::Forward {
                        token: next,
                        pos: (old(self).first_pos() + old(self).tokens().len() + 1) as usize,
                    }
                }
            },
            (next as int) >= old(self).entries().len() ==> r is Err,
    {
        proof {
            use_type_invariant(&*self);
        }
        self.advance(tokenizer, next)
    }

    /// The tokens chosen and the text shown.
    pub fn finish(self) -> (r: (Vec<usize>, String))
        ensures
            r.0@ == self.tokens(),
            r.1@ == self.shown(),
            r.1@ == shown_text(self.entries(), self.prompt_tokens()[0], self.tokens()),
            r.0@.len() <= self.step_count(),
    {
        proof {
            use_type_invariant(&self);
        }
        (self.generated, self.text)
    }
}

} // verus!
