use llama_rs::mapped::chat::{ChatAction, ChatOutput, ChatSession};
use llama_rs::mapped::tokenizer::Tokenizer;

/// The special entries, then one entry `<0xHH>` for each byte.
fn byte_tokenizer() -> Tokenizer {
    let mut vocab = vec!["<unk>".to_string(), "<s>".to_string(), "</s>".to_string()];
    for b in 0..256u32 {
        vocab.push(format!("<0x{:02X}>", b));
    }
    let n = vocab.len();
    Tokenizer {
        vocab,
        vocab_scores: vec![0f32.to_bits(); n],
        sorted_vocab: None,
        max_token_length: 6,
        vocab_size: n,
    }
}

fn byte_ids(text: &str) -> Vec<u32> {
    text.bytes().map(|b| b as u32 + 3).collect()
}

#[test]
fn first_turn_reads_missing_prompts() {
    let session = ChatSession::new(Some("hi"), None, 100);
    assert_eq!(session.next_action(), ChatAction::Turn { ask_system: true, ask_user: false });

    let session = ChatSession::new(None, Some("sys"), 100);
    assert_eq!(session.next_action(), ChatAction::Turn { ask_system: false, ask_user: true });
}

#[test]
fn turn_text_frames_the_system_prompt_on_the_first_turn() {
    let session = ChatSession::new(Some("hi"), None, 100);
    assert_eq!(session.turn_prompt(Some(""), None), "[INST] hi [/INST]");
    assert_eq!(
        session.turn_prompt(Some("be nice"), None),
        "[INST] <<SYS>>\nbe nice\n<</SYS>>\n\nhi [/INST]"
    );
    let session = ChatSession::new(Some("hi"), Some("sys"), 100);
    assert_eq!(session.turn_prompt(None, Some("yo")), "[INST] <<SYS>>\nsys\n<</SYS>>\n\nyo [/INST]");
}

#[test]
fn a_turn_feeds_the_prompt_then_shows_samples_until_eos() {
    let mut tokenizer = byte_tokenizer();
    let mut session = ChatSession::new(Some("hi"), None, 100);
    session.begin_turn(&mut tokenizer, Some(""), None);

    let mut expected = vec![1u32];
    expected.extend(byte_ids("[INST] hi [/INST]"));

    for (pos, token) in expected.iter().enumerate() {
        assert_eq!(session.next_action(), ChatAction::Forward { token: *token, pos });
        let out = session.sampled(70);
        if pos + 1 < expected.len() {
            assert_eq!(out, ChatOutput::Nothing);
        } else {
            assert_eq!(out, ChatOutput::Piece { prev: *token, token: 70 });
        }
    }
    let pos = expected.len();
    assert_eq!(session.next_action(), ChatAction::Forward { token: 70, pos });
    assert_eq!(session.sampled(71), ChatOutput::Piece { prev: 70, token: 71 });
    assert_eq!(session.next_action(), ChatAction::Forward { token: 71, pos: pos + 1 });
    assert_eq!(session.sampled(2), ChatOutput::EndOfTurn);
    assert_eq!(session.next_action(), ChatAction::Turn { ask_system: false, ask_user: true });

    // Later turns carry no system frame, even with a system prompt read.
    assert_eq!(session.turn_prompt(Some("ignored"), Some("more")), "[INST] more [/INST]");
}

#[test]
fn the_chat_stops_at_the_step_budget() {
    let mut tokenizer = byte_tokenizer();
    let mut session = ChatSession::new(Some("a"), Some(""), 3);
    session.begin_turn(&mut tokenizer, None, None);
    for pos in 0..3 {
        assert!(matches!(session.next_action(), ChatAction::Forward { pos: p, .. } if p == pos));
        session.sampled(70);
    }
    assert_eq!(session.next_action(), ChatAction::Done);
}

#[test]
fn an_eos_in_the_prompt_hands_the_turn_back() {
    let mut tokenizer = byte_tokenizer();
    let mut session = ChatSession::new(Some("a"), Some(""), 100);
    session.begin_turn(&mut tokenizer, None, None);
    // The prompt's first token is BOS; a model that answers EOS at once ends
    // the turn after one step.
    assert_eq!(session.sampled(2), ChatOutput::EndOfTurn);
    assert_eq!(session.next_action(), ChatAction::Turn { ask_system: false, ask_user: true });
}

#[test]
fn decode_strips_the_space_after_bos_and_reads_raw_bytes() {
    let mut tokenizer = byte_tokenizer();
    tokenizer.vocab.push(" hello".to_string());
    tokenizer.vocab_scores.push(0f32.to_bits());
    tokenizer.vocab_size += 1;
    let hello = (tokenizer.vocab.len() - 1) as u32;

    assert_eq!(tokenizer.decode(1, hello), "hello");
    assert_eq!(tokenizer.decode(5, hello), " hello");
    assert_eq!(tokenizer.decode(5, 0x41 + 3), "A");
}

#[test]
fn safe_piece_drops_empty_and_unprintable_pieces() {
    let tokenizer = byte_tokenizer();
    assert_eq!(tokenizer.safe_piece(""), None);
    assert_eq!(tokenizer.safe_piece("\u{7}"), None);
    assert_eq!(tokenizer.safe_piece("x"), Some("x"));
    assert_eq!(tokenizer.safe_piece("\n"), Some("\n"));
    assert_eq!(tokenizer.safe_piece("ab"), Some("ab"));
}

#[test]
fn start_tokens_put_bos_before_the_bytes() {
    let mut tokenizer = byte_tokenizer();
    let mut expected = vec![1u32];
    expected.extend(byte_ids("ok"));
    assert_eq!(tokenizer.start_tokens("ok", true), expected);
    assert_eq!(tokenizer.start_tokens("ok", false), byte_ids("ok"));
}
