//! The decisions of the mapped engine's chat loop. Each user turn is
//! rendered in the Llama 2 instruction template and encoded with BOS; its
//! tokens are fed to the model one position at a time, then the sampled
//! tokens, until the model samples EOS (id 2) and the user speaks again,
//! or the step budget is spent. Reading prompts, running the model and
//! sampling, and printing happen outside this crate; a `ChatSession` says
//! what to do next and takes the results back.

use vstd::prelude::*;
use vstd::string::{StringExecFns, StrSliceExecFns};
use vstd::utf8::encode_utf8;
use crate::mapped::tokenizer::{Tokenizer, start_ids, ids_below, spec_encode};

verus! {

/// The text of one user turn: with the system prompt in a `<<SYS>>` frame
/// on the first turn when there is one, else the user prompt alone.
pub open spec fn turn_text(system: Seq<char>, user: Seq<char>, first: bool) -> Seq<char> {
    if first && system.len() > 0 {
        "[INST] <<SYS>>\n"@ + system + "\n<</SYS>>\n\n"@ + user + " [/INST]"@
    } else {
        "[INST] "@ + user + " [/INST]"@
    }
}

/// What the driver of a chat session does next.
#[derive(Debug, Clone, Copy, PartialEq, Eq, Structural)]
pub enum ChatAction {
    /// Start a user turn: read the system prompt when `ask_system` and the
    /// user prompt when `ask_user` (a prompt that is not read comes from
    /// the command line), then hand them to `begin_turn`.
    Turn { ask_system: bool, ask_user: bool },
    /// Run the model on `token` at `pos`, sample from its logits, and hand
    /// the sample to `sampled`.
    Forward { token: u32, pos: usize },
    /// The step budget is spent.
    Done,
}

/// What to print after a sample.
#[derive(Debug, Clone, Copy, PartialEq, Eq, Structural)]
pub enum ChatOutput {
    Nothing,
    /// The piece of `token` after `prev`, when it is worth showing.
    Piece { prev: u32, token: u32 },
    /// The model ended its answer: a line break, and the user speaks next.
    EndOfTurn,
}

/// A chat in progress.
pub struct ChatSession {
    steps: usize,
    pos: usize,
    user_turn: bool,
    prompt_tokens: Vec<u32>,
    user_idx: usize,
    next: u32,
    system_prompt: String,
    cli_user_prompt: Option<String>,
    cli_system_prompt: Option<String>,
}

/// The text of an optional prompt.
pub open spec fn text_of(s: Option<String>) -> Option<Seq<char>> {
    match s {
        Some(t) => Some(t@),
        None => None,
    }
}

/// The text of an optional borrowed prompt.
pub open spec fn str_text(s: Option<&str>) -> Option<Seq<char>> {
    match s {
        Some(t) => Some(t@),
        None => None,
    }
}

impl ChatSession {
    #[verifier::type_invariant]
    spec fn inv(&self) -> bool {
        &&& !self.user_turn ==> self.prompt_tokens@.len() > 0
        &&& self.user_idx <= self.prompt_tokens@.len()
        &&& self.pos <= self.steps
    }

    /// Steps taken so far; each is one model position.
    pub closed spec fn position(&self) -> nat {
        self.pos as nat
    }

    /// The step budget.
    pub closed spec fn budget(&self) -> nat {
        self.steps as nat
    }

    /// Whether the user speaks next.
    pub closed spec fn users_turn(&self) -> bool {
        self.user_turn
    }

    /// The tokens of the current user turn.
    pub closed spec fn prompt(&self) -> Seq<u32> {
        self.prompt_tokens@
    }

    /// How many of them the model has seen.
    pub closed spec fn fed(&self) -> nat {
        self.user_idx as nat
    }

    /// The last sampled token.
    pub closed spec fn last_sample(&self) -> u32 {
        self.next
    }

    /// The system prompt of the chat (set on the first turn).
    pub closed spec fn system(&self) -> Seq<char> {
        self.system_prompt@
    }

    /// The prompts given on the command line.
    pub closed spec fn given(&self) -> (Option<Seq<char>>, Option<Seq<char>>) {
        (text_of(self.cli_user_prompt), text_of(self.cli_system_prompt))
    }

    /// The token the model runs on next: the next prompt token while any
    /// is left, else the last sample.
    pub open spec fn current(&self) -> u32 {
        if self.fed() < self.prompt().len() {
            self.prompt()[self.fed() as int]
        } else {
            self.last_sample()
        }
    }

    /// The action the state calls for.
    pub open spec fn spec_next(&self) -> ChatAction {
        if self.position() >= self.budget() {
            ChatAction::Done
        } else if self.users_turn() {
            ChatAction::Turn {
                ask_system: self.position() == 0 && self.given().1 is None,
                ask_user: self.position() > 0 || self.given().0 is None,
            }
        } else {
            ChatAction::Forward { token: self.current(), pos: self.position() as usize }
        }
    }

    /// The text of the turn that `begin_turn` starts with these prompts.
    pub open spec fn spec_turn(&self, system_read: Option<Seq<char>>, user_read: Option<Seq<char>>) -> Seq<char> {
        let first = self.position() == 0;
        let system = if first {
            match system_read {
                Some(s) => s,
                None => match self.given().1 {
                    Some(s) => s,
                    None => Seq::empty(),
                },
            }
        } else {
            self.system()
        };
        let user = match user_read {
            Some(u) => u,
            None => match self.given().0 {
                Some(u) => u,
                None => Seq::empty(),
            },
        };
        turn_text(system, user, first)
    }

    /// A chat of at most `steps` model steps, with the prompts given on
    /// the command line; the user speaks first.
    pub fn new(cli_user_prompt: Option<&str>, cli_system_prompt: Option<&str>, steps: usize) -> (s: ChatSession)
        ensures
            s.position() == 0,
            s.budget() == steps,
            s.users_turn(),
            s.given() == (str_text(cli_user_prompt), str_text(cli_system_prompt)),
    {
        ChatSession {
            steps,
            pos: 0,
            user_turn: true,
            prompt_tokens: Vec::new(),
            user_idx: 0,
            next: 0,
            system_prompt: String::new(),
            cli_user_prompt: match cli_user_prompt {
                Some(p) => Some(String::from_str(p)),
                None => None,
            },
            cli_system_prompt: match cli_system_prompt {
                Some(p) => Some(String::from_str(p)),
                None => None,
            },
        }
    }

    /// The next thing to do. Every position handed to the model is below
    /// the step budget.
    pub fn next_action(&self) -> (a: ChatAction)
        ensures
            a == self.spec_next(),
            a matches ChatAction::Forward { pos, .. } ==> pos < self.budget(),
    {
        proof {
            use_type_invariant(self);
        }
        if self.pos >= self.steps {
            ChatAction::Done
        } else if self.user_turn {
            ChatAction::Turn {
                ask_system: self.pos == 0 && self.cli_system_prompt.is_none(),
                ask_user: self.pos > 0 || self.cli_user_prompt.is_none(),
            }
        } else {
            let token = if self.user_idx < self.prompt_tokens.len() {
                self.prompt_tokens[self.user_idx]
            } else {
                self.next
            };
            ChatAction::Forward { token, pos: self.pos }
        }
    }

    /// The text of the turn to start with the prompts that were read (a
    /// prompt that was not read comes from the command line).
    pub fn turn_prompt(&self, system_read: Option<&str>, user_read: Option<&str>) -> (s: String)
        ensures
            s@ == self.spec_turn(str_text(system_read), str_text(user_read)),
    {
        let first = self.pos == 0;
        let system: &str = if first {
            match system_read {
                Some(s) => s,
                None => match &self.cli_system_prompt {
                    Some(s) => s.as_str(),
                    None => "",
                },
            }
        } else {
            self.system_prompt.as_str()
        };
        let user: &str = match user_read {
            Some(u) => u,
            None => match &self.cli_user_prompt {
                Some(u) => u.as_str(),
                None => "",
            },
        };
        proof {
            reveal_strlit("");
        }
        if first && system.unicode_len() > 0 {
            let mut s = String::from_str("[INST] <<SYS>>\n");
            s.append(system);
            s.append("\n<</SYS>>\n\n");
            s.append(user);
            s.append(" [/INST]");
            s
        } else {
            let mut s = String::from_str("[INST] ");
            s.append(user);
            s.append(" [/INST]");
            s
        }
    }

    /// Starts a user turn: on the first turn the system prompt is settled
    /// (read, else from the command line, else empty); the turn's text is
    /// encoded with BOS, and its tokens are fed next.
    pub fn begin_turn(&mut self, tokenizer: &mut Tokenizer, system_read: Option<&str>, user_read: Option<&str>)
        requires
            old(self).spec_next() is Turn,
            old(tokenizer).wf(),
            ({
                let start = start_ids(
                    old(tokenizer).keys(),
                    encode_utf8(old(self).spec_turn(str_text(system_read), str_text(user_read))),
                    true,
                );
                start.len() >= 2 ==> ids_below(start, old(tokenizer).vocab@.len() as int)
            }),
        ensures
            final(tokenizer).wf(),
            final(tokenizer).vocab@ == old(tokenizer).vocab@,
            final(tokenizer).vocab_scores@ == old(tokenizer).vocab_scores@,
            final(self).prompt() == spec_encode(
                old(tokenizer).keys(),
                old(tokenizer).vocab_scores@,
                encode_utf8(old(self).spec_turn(str_text(system_read), str_text(user_read))),
                true,
                false,
            ),
            final(self).fed() == 0,
            final(self).prompt().len() > 0,
            !final(self).users_turn(),
            final(self).position() == old(self).position(),
            final(self).budget() == old(self).budget(),
            final(self).given() == old(self).given(),
            final(self).last_sample() == old(self).last_sample(),
    {
        proof {
            use_type_invariant(&*self);
        }
        let text = self.turn_prompt(system_read, user_read);
        let system = if self.pos == 0 {
            match system_read {
                Some(s) => String::from_str(s),
                None => match &self.cli_system_prompt {
                    Some(s) => s.clone(),
                    None => String::new(),
                },
            }
        } else {
            self.system_prompt.clone()
        };
        let tokens = tokenizer.encode(Some(text.as_str()), true, false).unwrap();
        proof {
            crate::mapped::tokenizer::lemma_encode_nonempty(old(tokenizer).keys(), old(tokenizer).vocab_scores@, encode_utf8(text@));
        }
        self.user_idx = 0;
        self.prompt_tokens = tokens;
        self.system_prompt = system;
        self.user_turn = false;
    }

    /// Takes the token sampled after the model ran on the current token:
    /// moves past a prompt token, hands the turn back to the user after an
    /// EOS input or output, and says what to print: the sample's piece once
    /// the prompt is fed (unless it is EOS), or the end of the answer.
    pub fn sampled(&mut self, next: u32) -> (out: ChatOutput)
        requires
            old(self).spec_next() is Forward,
        ensures
            final(self).position() == old(self).position() + 1,
            final(self).budget() == old(self).budget(),
            final(self).prompt() == old(self).prompt(),
            final(self).given() == old(self).given(),
            final(self).system() == old(self).system(),
            final(self).last_sample() == next,
            final(self).fed() == if old(self).fed() < old(self).prompt().len() {
                old(self).fed() + 1
            } else {
                old(self).fed()
            },
            final(self).users_turn() == (old(self).current() == 2 || next == 2),
            out == if next == 2 {
                ChatOutput::EndOfTurn
            } else if final(self).fed() >= old(self).prompt().len() {
                ChatOutput::Piece { prev: old(self).current(), token: next }
            } else {
                ChatOutput::Nothing
            },
    {
        proof {
            use_type_invariant(&*self);
        }
        let token = if self.user_idx < self.prompt_tokens.len() {
            let t = self.prompt_tokens[self.user_idx];
            self.user_idx = self.user_idx + 1;
            t
        } else {
            self.next
        };
        if token == 2 {
            self.user_turn = true;
        }
        self.pos = self.pos + 1;
        self.next = next;
        let out = if next == 2 {
            ChatOutput::EndOfTurn
        } else if self.user_idx >= self.prompt_tokens.len() {
            ChatOutput::Piece { prev: token, token: next }
        } else {
            ChatOutput::Nothing
        };
        if next == 2 {
            self.user_turn = true;
        }
        out
    }
}

} // verus!
