use llama_rs::eager::config::Config;
use llama_rs::eager::generate::{check_generation_args, check_inference_args, PromptAction, PromptRun};
use llama_rs::eager::tokenizer::Tokenizer;

fn tokenizer_fixture_bytes() -> Vec<u8> {
    let pieces = [
        ("<unk>", 0.0_f32),
        ("<s>", 0.0),
        ("</s>", 0.0),
        (" ", 0.0),
        ("a", 1.0),
        ("b", 1.0),
        ("<0x61>", 0.0),
        ("ab", 10.0),
    ];

    let mut bytes = Vec::new();
    bytes.extend_from_slice(&(8_u32).to_le_bytes());
    for (piece, score) in pieces {
        bytes.extend_from_slice(&score.to_le_bytes());
        bytes.extend_from_slice(&(piece.len() as u32).to_le_bytes());
        bytes.extend_from_slice(piece.as_bytes());
    }
    bytes
}

#[test]
fn generates_from_prompt_tokens() {
    let bytes = tokenizer_fixture_bytes();
    let mut cursor = bytes.as_slice();
    let tokenizer = Tokenizer::from_reader(&mut cursor, 8).unwrap();

    let mut run = PromptRun::start(&tokenizer, "ab", 0, 4).unwrap();
    let mut forwards = Vec::new();
    loop {
        match run.next_action() {
            PromptAction::Forward { token, pos } => {
                forwards.push((token, pos));
                run.forwarded(&tokenizer).unwrap();
            }
            PromptAction::Sample => run.sampled(&tokenizer, 4).unwrap(),
            PromptAction::Done => break,
        }
    }
    let (tokens, text) = run.finish();

    assert_eq!(tokens.len(), 4);
    assert!(!text.is_empty());
    assert_eq!(tokens, vec![3, 7, 4, 4]);
    assert_eq!(text, "abaa");
    assert_eq!(forwards, vec![(1, 0), (3, 1), (7, 2), (4, 3)]);
}

#[test]
fn argument_checks_report_the_offending_values() {
    let config = Config::new(4, 6, 1, 2, 2, 8, 4);
    assert_eq!(
        check_inference_args(8, 0, &config).unwrap_err(),
        "token out of range: token=8 vocab_size=8"
    );
    assert_eq!(check_inference_args(1, 4, &config).unwrap_err(), "pos out of range: pos=4 seq_len=4");
    assert!(check_inference_args(7, 3, &config).is_ok());
    assert_eq!(
        check_generation_args(2, 3, &config).unwrap_err(),
        "generation exceeds seq_len: start_pos=2 steps=3 seq_len=4"
    );
    assert!(check_generation_args(1, 3, &config).is_ok());
}

#[test]
fn each_step_runs_the_model_then_samples_once_the_prompt_is_used() {
    let bytes = tokenizer_fixture_bytes();
    let mut cursor = bytes.as_slice();
    let tokenizer = Tokenizer::from_reader(&mut cursor, 8).unwrap();

    let run = PromptRun::start(&tokenizer, "ab", 5, 0).unwrap();
    assert_eq!(run.next_action(), PromptAction::Done);

    let mut run = PromptRun::start(&tokenizer, "ab", 5, 3).unwrap();
    let mut actions = vec![run.next_action()];
    // Prompt tokens [1, 3, 7]: BOS, then the space, then "ab".
    run.forwarded(&tokenizer).unwrap();
    actions.push(run.next_action());
    run.forwarded(&tokenizer).unwrap();
    actions.push(run.next_action());
    run.forwarded(&tokenizer).unwrap();
    actions.push(run.next_action());
    run.sampled(&tokenizer, 5).unwrap();
    actions.push(run.next_action());
    assert_eq!(
        actions,
        vec![
            PromptAction::Forward { token: 1, pos: 5 },
            PromptAction::Forward { token: 3, pos: 6 },
            PromptAction::Forward { token: 7, pos: 7 },
            PromptAction::Sample,
            PromptAction::Done,
        ]
    );
}
