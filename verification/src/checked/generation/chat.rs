//! Chat on the checked engine: the Llama 2 instruction template for a
//! history of user/assistant exchanges and a new user prompt.

use vstd::prelude::*;
use vstd::string::StringExecFns;
use crate::text::{trim, spec_trim, lemma_trim_idempotent};
use crate::checked::generation::generate::{
    GenerateError, GenerateOptions, GenerateResult, GenerationRun, PromptFault, spec_prompt_tokens, step_budget,
};
use crate::checked::tokenizer::Tokenizer;

verus! {

/// Who wrote a turn.
#[derive(Debug, Clone, Copy, PartialEq, Eq, Structural)]
pub enum ChatRole {
    User,
    Assistant,
}

/// One turn of a conversation.
#[derive(Debug, Clone, PartialEq, Eq)]
pub struct ChatTurn {
    pub role: ChatRole,
    pub content: String,
}

/// What to chat about.
#[derive(Debug, Clone, PartialEq, Eq)]
pub struct ChatOptions {
    pub system_prompt: Option<String>,
    pub user_prompt: String,
    pub history: Vec<ChatTurn>,
    pub steps: usize,
    pub stop_at_eos: bool,
}

/// What a chat turn produced.
#[derive(Debug, Clone, PartialEq, Eq)]
pub struct ChatResult {
    pub rendered_prompt: String,
    pub assistant_response: String,
    pub generated_tokens: Vec<u32>,
    pub prompt_tokens: Vec<u32>,
    pub steps_taken: usize,
    pub stopped_by_eos: bool,
}

/// Why a chat turn failed.
#[derive(Debug)]
pub enum ChatError {
    EmptyUserPrompt,
    HistoryEndsWithUser,
    OrphanAssistantTurn,
    Generate(GenerateError),
}

impl ChatError {
    /// Whether `m` is the message of this error; a generation error gives
    /// its own message.
    pub open spec fn message_is(&self, m: Seq<char>) -> bool {
        match self {
            ChatError::EmptyUserPrompt => m == "user prompt must not be empty"@,
            ChatError::HistoryEndsWithUser => m
                == "chat history must contain complete user/assistant pairs before the current user prompt"@,
            ChatError::OrphanAssistantTurn => m == "assistant turn appeared without a preceding user turn"@,
            ChatError::Generate(e) => e.message_is(m),
        }
    }

    /// The message of the error.
    pub fn message(&self) -> (s: String)
        ensures
            self.message_is(s@),
    {
        match self {
            ChatError::EmptyUserPrompt => String::from_str("user prompt must not be empty"),
            ChatError::HistoryEndsWithUser => String::from_str(
                "chat history must contain complete user/assistant pairs before the current user prompt",
            ),
            ChatError::OrphanAssistantTurn => String::from_str(
                "assistant turn appeared without a preceding user turn",
            ),
            ChatError::Generate(e) => e.message(),
        }
    }
}

impl Default for ChatOptions {
    fn default() -> (o: ChatOptions)
        ensures
            o.system_prompt is None,
            o.user_prompt@ == Seq::<char>::empty(),
            o.history@ == Seq::<ChatTurn>::empty(),
            o.steps == 128,
            o.stop_at_eos,
    {
        ChatOptions {
            system_prompt: None,
            user_prompt: String::new(),
            history: Vec::new(),
            steps: 128,
            stop_at_eos: true,
        }
    }
}

/// Why a history cannot be rendered.
pub enum ChatFault {
    EmptyUserPrompt,
    HistoryEndsWithUser,
    OrphanAssistantTurn,
}

/// One instruction block: with a system prompt (when there is one that is
/// not blank) in the `<<SYS>>` frame, else the user prompt alone; both
/// trimmed.
pub open spec fn inst_block(system: Option<Seq<char>>, user: Seq<char>) -> Seq<char> {
    if system is Some && spec_trim(system.unwrap()).len() > 0 {
        "[INST]\n<<SYS>>\n"@ + spec_trim(system.unwrap()) + "\n<</SYS>>\n\n"@ + spec_trim(user)
            + "\n[/INST]"@
    } else {
        "[INST] "@ + spec_trim(user) + " [/INST]"@
    }
}

/// The system prompt goes into the first block only.
pub open spec fn block_system(rendered: Seq<char>, system: Seq<char>) -> Option<Seq<char>> {
    if rendered.len() == 0 {
        Some(system)
    } else {
        None
    }
}

/// Renders turns `i..` onto `rendered`, with `pending` the user turn that
/// waits for its answer: each user turn must be followed by an assistant
/// turn, and each pair becomes a block and the trimmed answer between
/// spaces.
pub open spec fn render_turns(
    system: Seq<char>,
    turns: Seq<ChatTurn>,
    i: int,
    rendered: Seq<char>,
    pending: Option<Seq<char>>,
) -> Result<(Seq<char>, Option<Seq<char>>), ChatFault>
    decreases turns.len() - i,
{
    if i < 0 || i >= turns.len() {
        Ok((rendered, pending))
    } else {
        match turns[i].role {
            ChatRole::User => if pending is Some {
                Err(ChatFault::HistoryEndsWithUser)
            } else {
                render_turns(system, turns, i + 1, rendered, Some(turns[i].content@))
            },
            ChatRole::Assistant => match pending {
                None => Err(ChatFault::OrphanAssistantTurn),
                Some(u) => render_turns(
                    system,
                    turns,
                    i + 1,
                    rendered + inst_block(block_system(rendered, system), u) + " "@ + spec_trim(
                        turns[i].content@,
                    ) + " "@,
                    None,
                ),
            },
        }
    }
}

/// The whole prompt: the history's blocks, then the block of the new user
/// prompt; the system prompt (empty when there is none) goes into the
/// first block.
pub open spec fn spec_render(system: Option<Seq<char>>, turns: Seq<ChatTurn>, user: Seq<char>) -> Result<
    Seq<char>,
    ChatFault,
> {
    let sys = match system {
        Some(s) => s,
        None => Seq::<char>::empty(),
    };
    if spec_trim(user).len() == 0 {
        Err(ChatFault::EmptyUserPrompt)
    } else {
        match render_turns(sys, turns, 0, Seq::empty(), None) {
            Err(e) => Err(e),
            Ok((rendered, pending)) => if pending is Some {
                Err(ChatFault::HistoryEndsWithUser)
            } else {
                Ok(rendered + inst_block(block_system(rendered, sys), user))
            },
        }
    }
}

/// Renders one instruction block.
pub fn render_inst_block(system_prompt: Option<&str>, user_prompt: &str) -> (s: String)
    ensures
        s@ == inst_block(
            match system_prompt {
                Some(p) => Some(p@),
                None => None,
            },
            user_prompt@,
        ),
{
    let user = trim(user_prompt);
    match system_prompt {
        Some(system) => {
            let sys = trim(system);
            if !sys.is_empty() {
                let mut s = String::from_str("[INST]\n<<SYS>>\n");
                s.append(sys);
                s.append("\n<</SYS>>\n\n");
                s.append(user);
                s.append("\n[/INST]");
                return s;
            }
        },
        None => {},
    }
    let mut s = String::from_str("[INST] ");
    s.append(user);
    s.append(" [/INST]");
    s
}

/// Renders a conversation for the model: each earlier user/assistant pair
/// as a block followed by the trimmed answer, then the block of the new
/// user prompt; the system prompt goes into the first block. A blank user
/// prompt gives `EmptyUserPrompt`; an assistant turn without a user turn
/// before it gives `OrphanAssistantTurn`; two user turns in a row, or a
/// history that ends with a user turn, give `HistoryEndsWithUser`.
pub fn render_chat_prompt(system_prompt: Option<&str>, history: &[ChatTurn], user_prompt: &str) -> (r:
    Result<String, ChatError>)
    ensures
        match spec_render(
            match system_prompt {
                Some(p) => Some(p@),
                None => None,
            },
            history@,
            user_prompt@,
        ) {
            Ok(text) => r matches Ok(s) && s@ == text,
            Err(ChatFault::EmptyUserPrompt) => r matches Err(ChatError::EmptyUserPrompt),
            Err(ChatFault::HistoryEndsWithUser) => r matches Err(ChatError::HistoryEndsWithUser),
            Err(ChatFault::OrphanAssistantTurn) => r matches Err(ChatError::OrphanAssistantTurn),
        },
{
    if trim(user_prompt).is_empty() {
        return Err(ChatError::EmptyUserPrompt);
    }
    let system: &str = match system_prompt {
        Some(p) => p,
        None => "",
    };
    let ghost sys = match system_prompt {
        Some(p) => p@,
        None => Seq::<char>::empty(),
    };
    proof {
        reveal_strlit("");
    }
    assert(system@ == sys);
    let mut rendered = String::new();
    let mut pending: Option<&str> = None;
    let mut i: usize = 0;
    while i < history.len()
        invariant
            i <= history@.len(),
            system@ == sys,
            spec_trim(user_prompt@).len() > 0,
            sys == match system_prompt {
                Some(p) => p@,
                None => Seq::<char>::empty(),
            },
            render_turns(sys, history@, 0, Seq::empty(), None) == render_turns(
                sys,
                history@,
                i as int,
                rendered@,
                match pending {
                    Some(p) => Some(p@),
                    None => None,
                },
            ),
        decreases history@.len() - i,
    {
        let turn = &history[i];
        match turn.role {
            ChatRole::User => {
                if pending.is_some() {
                    return Err(ChatError::HistoryEndsWithUser);
                }
                pending = Some(turn.content.as_str());
            },
            ChatRole::Assistant => {
                let user_content = match pending {
                    Some(u) => u,
                    None => return Err(ChatError::OrphanAssistantTurn),
                };
                pending = None;
                let block = if rendered.as_str().is_empty() {
                    render_inst_block(Some(system), user_content)
                } else {
                    render_inst_block(None, user_content)
                };
                rendered.append(block.as_str());
                rendered.append(" ");
                rendered.append(trim(turn.content.as_str()));
                rendered.append(" ");
            },
        }
        i += 1;
    }
    if pending.is_some() {
        return Err(ChatError::HistoryEndsWithUser);
    }
    let block = if rendered.as_str().is_empty() {
        render_inst_block(Some(system), user_prompt)
    } else {
        render_inst_block(None, user_prompt)
    };
    rendered.append(block.as_str());
    Ok(rendered)
}

/// The generation that a chat turn runs: the rendered conversation as the
/// prompt, with BOS, the requested steps and EOS handling. The rendering
/// errors of `render_chat_prompt` come first.
pub fn chat_generate_options(options: &ChatOptions) -> (r: Result<GenerateOptions, ChatError>)
    ensures
        match spec_render(
            match options.system_prompt {
                Some(p) => Some(p@),
                None => None,
            },
            options.history@,
            options.user_prompt@,
        ) {
            Ok(text) => r matches Ok(g) && g.prompt@ == text && g.steps == options.steps && g.add_bos
                && g.stop_at_eos == options.stop_at_eos,
            Err(ChatFault::EmptyUserPrompt) => r matches Err(ChatError::EmptyUserPrompt),
            Err(ChatFault::HistoryEndsWithUser) => r matches Err(ChatError::HistoryEndsWithUser),
            Err(ChatFault::OrphanAssistantTurn) => r matches Err(ChatError::OrphanAssistantTurn),
        },
{
    let system: Option<&str> = match &options.system_prompt {
        Some(p) => Some(p.as_str()),
        None => None,
    };
    let rendered = match render_chat_prompt(system, options.history.as_slice(), options.user_prompt.as_str()) {
        Ok(s) => s,
        Err(e) => return Err(e),
    };
    Ok(
        GenerateOptions {
            prompt: rendered,
            steps: options.steps,
            add_bos: true,
            stop_at_eos: options.stop_at_eos,
        },
    )
}

/// Starts the generation of a chat turn: renders the conversation as
/// `chat_generate_options` does, then starts a run on it as
/// `GenerationRun::start` does, a generation error wrapped in
/// `ChatError::Generate`. Gives the rendered prompt and the run.
pub fn start_chat(tokenizer: &Tokenizer, options: &ChatOptions, seq_len: usize) -> (r: Result<
    (String, GenerationRun),
    ChatError,
>)
    ensures
        match spec_render(
            match options.system_prompt {
                Some(p) => Some(p@),
                None => None,
            },
            options.history@,
            options.user_prompt@,
        ) {
            Err(ChatFault::EmptyUserPrompt) => r matches Err(ChatError::EmptyUserPrompt),
            Err(ChatFault::HistoryEndsWithUser) => r matches Err(ChatError::HistoryEndsWithUser),
            Err(ChatFault::OrphanAssistantTurn) => r matches Err(ChatError::OrphanAssistantTurn),
            Ok(text) => match spec_prompt_tokens(*tokenizer, text, true) {
                Err(PromptFault::Encode(_)) => r matches Err(
                    ChatError::Generate(GenerateError::Tokenizer(_)),
                ),
                Err(PromptFault::Empty) => r matches Err(ChatError::Generate(GenerateError::EmptyPrompt)),
                Err(PromptFault::TooLong) => false,
                Ok(ids) => if ids.len() > seq_len {
                    r matches Err(
                        ChatError::Generate(GenerateError::PromptTooLong { prompt_len, seq_len: s }),
                    ) && prompt_len == ids.len() && s == seq_len
                } else {
                    r matches Ok((p, run)) && {
                        &&& p@ == text
                        &&& run.prompt() == ids
                        &&& run.generated() == Seq::<u32>::empty()
                        &&& run.text() == Seq::<char>::empty()
                        &&& run.budget() == step_budget(options.steps as int, seq_len as int, ids.len() as int)
                        &&& run.context() == seq_len
                        &&& run.vocabulary() == tokenizer.keys()
                        &&& run.eos_token() == tokenizer.eos()
                        &&& run.bos_token() == tokenizer.bos()
                        &&& run.stops_at_eos() == options.stop_at_eos
                        &&& !run.stopped()
                        &&& !run.delimited()
                        &&& run.fed_count() == 0
                        &&& run.awaiting() is None
                    }
                },
            },
        },
{
    let generate_options = match chat_generate_options(options) {
        Ok(g) => g,
        Err(e) => return Err(e),
    };
    let rendered = generate_options.prompt.clone();
    match GenerationRun::start(tokenizer, &generate_options, seq_len) {
        Ok(run) => Ok((rendered, run)),
        Err(e) => Err(ChatError::Generate(e)),
    }
}

impl ChatResult {
    /// The result of a chat turn: the rendered prompt, and what the
    /// generation produced as the assistant's response.
    pub fn from_generation(rendered_prompt: String, generation: GenerateResult) -> (r: ChatResult)
        ensures
            r.rendered_prompt@ == rendered_prompt@,
            r.assistant_response@ == generation.generated_text@,
            r.generated_tokens@ == generation.generated_tokens@,
            r.prompt_tokens@ == generation.prompt_tokens@,
            r.steps_taken == generation.steps_taken,
            r.stopped_by_eos == generation.stopped_by_eos,
    {
        ChatResult {
            rendered_prompt,
            assistant_response: generation.generated_text,
            generated_tokens: generation.generated_tokens,
            prompt_tokens: generation.prompt_tokens,
            steps_taken: generation.steps_taken,
            stopped_by_eos: generation.stopped_by_eos,
        }
    }
}

/// A blank system prompt renders the same block as none.
proof fn lemma_blank_system_block(s: Seq<char>, rendered: Seq<char>, u: Seq<char>)
    requires
        spec_trim(s).len() == 0,
    ensures
        inst_block(block_system(rendered, s), u) == inst_block(block_system(rendered, Seq::empty()), u),
{
    assert(spec_trim(Seq::<char>::empty()) =~= Seq::<char>::empty());
}

/// Rendering turns does not depend on a blank system prompt.
proof fn lemma_blank_system_turns(
    s: Seq<char>,
    turns: Seq<ChatTurn>,
    i: int,
    rendered: Seq<char>,
    pending: Option<Seq<char>>,
)
    requires
        spec_trim(s).len() == 0,
    ensures
        render_turns(s, turns, i, rendered, pending) == render_turns(Seq::empty(), turns, i, rendered, pending),
    decreases turns.len() - i,
{
    if 0 <= i < turns.len() {
        match turns[i].role {
            ChatRole::User => {
                lemma_blank_system_turns(s, turns, i + 1, rendered, Some(turns[i].content@));
            },
            ChatRole::Assistant => {
                if let Some(u) = pending {
                    lemma_blank_system_block(s, rendered, u);
                    lemma_blank_system_turns(
                        s,
                        turns,
                        i + 1,
                        rendered + inst_block(block_system(rendered, s), u) + " "@ + spec_trim(turns[i].content@) + " "@,
                        None,
                    );
                }
            },
        }
    }
}

/// A system prompt that is empty or only whitespace renders exactly as no
/// system prompt at all.
pub proof fn blank_system_prompt_is_dropped(system: Seq<char>, turns: Seq<ChatTurn>, user: Seq<char>)
    requires
        spec_trim(system).len() == 0,
    ensures
        spec_render(Some(system), turns, user) == spec_render(None, turns, user),
{
    lemma_blank_system_turns(system, turns, 0, Seq::empty(), None);
    if let Ok((rendered, pending)) = render_turns(system, turns, 0, Seq::empty(), None) {
        lemma_blank_system_block(system, rendered, user);
    }
}

/// Whitespace around the new user prompt does not change the rendering,
/// nor whether it is refused.
pub proof fn user_prompt_whitespace_is_irrelevant(
    system: Option<Seq<char>>,
    turns: Seq<ChatTurn>,
    user: Seq<char>,
)
    ensures
        spec_render(system, turns, user) == spec_render(system, turns, spec_trim(user)),
{
    lemma_trim_idempotent(user);
}

/// Rendering `h + x` from turn `i` of `h` renders the rest of `h` first,
/// then goes on with `x` from where that left off.
proof fn lemma_render_turns_split(
    system: Seq<char>,
    h: Seq<ChatTurn>,
    x: Seq<ChatTurn>,
    i: int,
    rendered: Seq<char>,
    pending: Option<Seq<char>>,
)
    requires
        0 <= i <= h.len(),
    ensures
        render_turns(system, h + x, i, rendered, pending) == match render_turns(system, h, i, rendered, pending) {
            Err(e) => Err(e),
            Ok((r2, p2)) => render_turns(system, h + x, h.len() as int, r2, p2),
        },
    decreases h.len() - i,
{
    if i < h.len() {
        assert((h + x)[i] == h[i]);
        match h[i].role {
            ChatRole::User => {
                lemma_render_turns_split(system, h, x, i + 1, rendered, Some(h[i].content@));
            },
            ChatRole::Assistant => {
                if let Some(u) = pending {
                    lemma_render_turns_split(
                        system,
                        h,
                        x,
                        i + 1,
                        rendered + inst_block(block_system(rendered, system), u) + " "@ + spec_trim(h[i].content@) + " "@,
                        None,
                    );
                }
            },
        }
    }
}

/// A history is only ever appended to: rendering a history followed by
/// one more question and answer is rendering the history with that
/// question as the prompt, then the trimmed answer between spaces, then
/// the block of the new prompt (no system frame, which only the first
/// block carries). Every earlier exchange therefore stays in the prompt,
/// and the refusals of the shorter rendering carry over.
pub proof fn history_is_only_appended(
    system: Option<Seq<char>>,
    history: Seq<ChatTurn>,
    question: ChatTurn,
    answer: ChatTurn,
    user: Seq<char>,
)
    requires
        question.role is User,
        answer.role is Assistant,
        spec_trim(question.content@).len() > 0,
        spec_trim(user).len() > 0,
    ensures
        spec_render(system, history.push(question).push(answer), user) == match spec_render(
            system,
            history,
            question.content@,
        ) {
            Ok(p) => Ok(p + " "@ + spec_trim(answer.content@) + " "@ + inst_block(None, user)),
            Err(e) => Err(e),
        },
{
    let sys = match system {
        Some(s) => s,
        None => Seq::<char>::empty(),
    };
    let n = history.len() as int;
    let t = history.push(question).push(answer);
    let x = seq![question, answer];
    assert(t =~= history + x);
    lemma_render_turns_split(sys, history, x, 0, Seq::empty(), None);
    match render_turns(sys, history, 0, Seq::empty(), None) {
        Err(e) => {},
        Ok((r2, p2)) => {
            assert(t[n] == question);
            assert(t[n + 1] == answer);
            if p2 is Some {
                assert(render_turns(sys, t, n, r2, p2) == Err::<(Seq<char>, Option<Seq<char>>), ChatFault>(
                    ChatFault::HistoryEndsWithUser,
                ));
            } else {
                let q = question.content@;
                let r3 = r2 + inst_block(block_system(r2, sys), q) + " "@ + spec_trim(answer.content@) + " "@;
                assert(render_turns(sys, t, n + 2, r3, None) == Ok::<(Seq<char>, Option<Seq<char>>), ChatFault>((r3, None)));
                assert(render_turns(sys, t, n + 1, r2, Some(q)) == render_turns(sys, t, n + 2, r3, None));
                assert(render_turns(sys, t, n, r2, None) == render_turns(sys, t, n + 1, r2, Some(q)));
                assert(r3.len() > 0);
                assert(block_system(r3, sys) is None);
                assert(r3 + inst_block(None, user) =~= (r2 + inst_block(block_system(r2, sys), q)) + " "@
                    + spec_trim(answer.content@) + " "@ + inst_block(None, user));
            }
        },
    }
}

} // verus!
