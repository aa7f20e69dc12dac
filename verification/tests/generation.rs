use llama_rs::checked::generation::chat::{
    chat_generate_options, start_chat, ChatError, ChatOptions, ChatResult,
};
use llama_rs::checked::generation::generate::{
    GenerateAction, GenerateError, GenerateOptions, GenerationRun,
};
use llama_rs::checked::tokenizer::Tokenizer;

fn tokenizer_bytes(max_token_length: u32, entries: &[(f32, &[u8])]) -> Vec<u8> {
    let mut bytes = Vec::new();
    bytes.extend_from_slice(&max_token_length.to_le_bytes());
    for (score, token) in entries {
        bytes.extend_from_slice(&score.to_le_bytes());
        bytes.extend_from_slice(&(token.len() as i32).to_le_bytes());
        bytes.extend_from_slice(token);
    }
    bytes
}

fn test_tokenizer() -> Tokenizer {
    let entries = vec![
        (0.0, b"<unk>" as &[u8]),
        (0.0, b"<s>"),
        (0.0, b"</s>"),
        (1.0, b"a"),
    ];
    let bytes = tokenizer_bytes(5, &entries);
    let mut reader = bytes.as_slice();
    Tokenizer::from_reader(entries.len(), &mut reader).expect("tokenizer should load")
}

/// Drives a run to its end; the model is stood in for by `model`, which
/// names the token that sampling its logits gives.
fn drive(
    run: &mut GenerationRun,
    tokenizer: &Tokenizer,
    model: impl Fn(u32, usize) -> u32,
) -> Result<Vec<(u32, usize)>, GenerateError> {
    let mut forwards = Vec::new();
    let mut last = None;
    loop {
        match run.next_action() {
            GenerateAction::Forward { token, position } => {
                forwards.push((token, position));
                last = Some(model(token, position));
                run.forwarded();
            }
            GenerateAction::Sample => run.sampled(tokenizer, last.expect("logits exist"))?,
            GenerateAction::Finish => return Ok(forwards),
        }
    }
}

#[test]
fn generates_tokens_from_prompt() {
    let tokenizer = test_tokenizer();
    let options = GenerateOptions {
        prompt: "a".to_string(),
        steps: 2,
        add_bos: false,
        stop_at_eos: true,
    };

    let mut run = GenerationRun::start(&tokenizer, &options, 8).expect("generation should work");
    let forwards = drive(&mut run, &tokenizer, |_, _| 3).expect("generation should work");
    let result = run.finish();

    assert_eq!(result.prompt_tokens, vec![3]);
    assert_eq!(result.generated_tokens, vec![3, 3]);
    assert_eq!(result.generated_text, "aa");
    assert!(!result.stopped_by_eos);
    assert_eq!(forwards, vec![(3, 0), (3, 1), (3, 2)]);
}

#[test]
fn stops_on_eos_before_appending_output() {
    let tokenizer = test_tokenizer();
    let options = GenerateOptions {
        prompt: "a".to_string(),
        steps: 2,
        add_bos: false,
        stop_at_eos: true,
    };

    let mut run = GenerationRun::start(&tokenizer, &options, 8).expect("generation should work");
    drive(&mut run, &tokenizer, |_, _| 2).expect("generation should work");
    let result = run.finish();

    assert!(result.generated_tokens.is_empty());
    assert!(result.generated_text.is_empty());
    assert!(result.stopped_by_eos);
}

#[test]
fn rejects_empty_prompt_without_bos() {
    let tokenizer = test_tokenizer();
    let options = GenerateOptions {
        prompt: String::new(),
        steps: 1,
        add_bos: false,
        stop_at_eos: true,
    };

    let err = GenerationRun::start(&tokenizer, &options, 8).err().expect("should fail");
    assert!(matches!(err, GenerateError::EmptyPrompt));
}

#[test]
fn empty_prompt_with_bos_starts_from_bos() {
    let tokenizer = test_tokenizer();
    let options = GenerateOptions { prompt: String::new(), steps: 1, add_bos: true, stop_at_eos: false };
    let mut run = GenerationRun::start(&tokenizer, &options, 8).unwrap();
    let forwards = drive(&mut run, &tokenizer, |_, _| 2).unwrap();
    let result = run.finish();
    assert_eq!(result.prompt_tokens, vec![1]);
    assert_eq!(result.generated_tokens, vec![2]);
    assert_eq!(result.generated_text, "</s>");
    assert_eq!(forwards, vec![(1, 0), (2, 1)]);
}

#[test]
fn budget_is_limited_by_the_context_and_long_prompts_are_refused() {
    let tokenizer = test_tokenizer();
    let options = GenerateOptions { prompt: "aaa".to_string(), steps: 10, add_bos: true, stop_at_eos: true };
    let mut run = GenerationRun::start(&tokenizer, &options, 6).unwrap();
    let forwards = drive(&mut run, &tokenizer, |_, _| 3).unwrap();
    let result = run.finish();
    assert_eq!(result.prompt_tokens, vec![1, 3, 3, 3]);
    assert_eq!(result.steps_taken, 2);
    assert!(forwards.iter().all(|&(_, p)| p < 6));

    let err = GenerationRun::start(&tokenizer, &options, 3).err().expect("should fail");
    assert!(matches!(err, GenerateError::PromptTooLong { prompt_len: 4, seq_len: 3 }));
}

#[test]
fn sampled_token_outside_the_vocabulary_is_an_error() {
    let tokenizer = test_tokenizer();
    let options = GenerateOptions { prompt: "a".to_string(), steps: 2, add_bos: false, stop_at_eos: true };
    let mut run = GenerationRun::start(&tokenizer, &options, 8).unwrap();
    let err = drive(&mut run, &tokenizer, |_, _| 9).unwrap_err();
    assert!(matches!(err, GenerateError::Tokenizer(_)));
}

#[test]
fn generate_options_default() {
    let options = GenerateOptions::default();
    assert_eq!(options.prompt, "");
    assert_eq!(options.steps, 128);
    assert!(options.add_bos);
    assert!(options.stop_at_eos);
}

#[test]
fn chat_runs_generation_with_rendered_prompt() {
    let entries = vec![
        (0.0, b"<unk>" as &[u8]),
        (0.0, b"<s>"),
        (0.0, b"</s>"),
        (1.0, b"a"),
        (1.0, b" "),
        (1.0, b"["),
        (1.0, b"]"),
        (1.0, b"/"),
        (1.0, b"I"),
        (1.0, b"N"),
        (1.0, b"S"),
        (1.0, b"T"),
        (1.0, b"<"),
        (1.0, b">"),
        (1.0, b"Y"),
        (1.0, b"\n"),
    ];
    let bytes = tokenizer_bytes(5, &entries);
    let mut reader = bytes.as_slice();
    let tokenizer = Tokenizer::from_reader(entries.len(), &mut reader).expect("tokenizer should load");
    let options = ChatOptions {
        system_prompt: None,
        user_prompt: "a".to_string(),
        history: Vec::new(),
        steps: 2,
        stop_at_eos: true,
    };

    let generate = chat_generate_options(&options).expect("chat should work");
    let mut run = GenerationRun::start(&tokenizer, &generate, 128).expect("chat should work");
    drive(&mut run, &tokenizer, |_, _| 3).expect("chat should work");
    let result = ChatResult::from_generation(generate.prompt.clone(), run.finish());

    assert_eq!(result.rendered_prompt, "[INST] a [/INST]");
    assert_eq!(result.assistant_response, "aa");
    assert_eq!(result.generated_tokens, vec![3, 3]);
}

#[test]
fn a_sampled_bos_ends_the_run_without_being_kept() {
    let tokenizer = test_tokenizer();
    let options = GenerateOptions {
        prompt: "a".to_string(),
        steps: 5,
        add_bos: false,
        stop_at_eos: false,
    };

    let mut run = GenerationRun::start(&tokenizer, &options, 8).expect("generation should work");
    // The model gives "a" after the prompt token, then BOS.
    let forwards = drive(&mut run, &tokenizer, |_, position| if position == 0 { 3 } else { 1 })
        .expect("generation should work");
    let result = run.finish();

    assert_eq!(forwards, vec![(3, 0), (3, 1)]);
    assert_eq!(result.generated_tokens, vec![3]);
    assert_eq!(result.generated_text, "a");
    assert_eq!(result.steps_taken, 1);
    assert!(!result.stopped_by_eos);
}

fn chat_tokenizer() -> Tokenizer {
    let mut entries = vec![(0.0, b"<unk>" as &[u8]), (0.0, b"<s>"), (0.0, b"</s>"), (1.0, b"a")];
    let singles: Vec<&[u8]> = vec![b" ", b"[", b"]", b"/", b"I", b"N", b"S", b"T", b"<", b">", b"Y", b"\n"];
    for piece in singles {
        entries.push((1.0, piece));
    }
    let bytes = tokenizer_bytes(5, &entries);
    let mut reader = bytes.as_slice();
    Tokenizer::from_reader(entries.len(), &mut reader).expect("tokenizer should load")
}

#[test]
fn start_chat_renders_then_starts_the_run() {
    let tokenizer = chat_tokenizer();
    let mut options = ChatOptions {
        system_prompt: Some("   ".to_string()),
        user_prompt: " a ".to_string(),
        history: Vec::new(),
        steps: 2,
        stop_at_eos: true,
    };

    let (rendered, mut run) = start_chat(&tokenizer, &options, 128).expect("chat should start");
    assert_eq!(rendered, "[INST] a [/INST]");
    drive(&mut run, &tokenizer, |_, _| 3).expect("chat should work");
    let result = ChatResult::from_generation(rendered, run.finish());
    assert_eq!(result.assistant_response, "aa");
    assert_eq!(result.prompt_tokens[0], 1);

    // Too small a context is a generation error, wrapped.
    assert!(matches!(
        start_chat(&tokenizer, &options, 3),
        Err(ChatError::Generate(GenerateError::PromptTooLong { seq_len: 3, .. }))
    ));

    options.user_prompt = "  ".to_string();
    assert!(matches!(start_chat(&tokenizer, &options, 128), Err(ChatError::EmptyUserPrompt)));
}
