use llama_rs::checked::tokenizer::{Tokenizer, TokenizerError};

fn tokenizer_bytes(max_token_length: u32, entries: &[(f32, &[u8])]) -> Vec<u8> {
    let mut bytes = Vec::new();
    bytes.extend_from_slice(&max_token_length.to_le_bytes());
    for (score, token) in entries {
        bytes.extend_from_slice(&score.to_le_bytes());
        bytes.extend_from_slice(&(token.len() as i32).to_le_bytes());
        bytes.extend_from_slice(token);
    }
    bytes
}

fn sample_entries() -> Vec<(f32, &'static [u8])> {
    vec![
        (0.0, b"<unk>"),
        (0.0, b"<s>"),
        (0.0, b"</s>"),
        (0.1, b"h"),
        (0.1, b"e"),
        (0.1, b"l"),
        (0.1, b"o"),
        (0.6, b"he"),
        (0.4, b"ll"),
        (0.7, b"llo"),
        (0.9, b"hello"),
        (0.2, "あ".as_bytes()),
        (0.0, &[0xFF]),
    ]
}

fn sample_tokenizer() -> Tokenizer {
    let entries = sample_entries();
    let bytes = tokenizer_bytes(8, &entries);
    let mut reader = bytes.as_slice();
    Tokenizer::from_reader(entries.len(), &mut reader).expect("tokenizer should load")
}

#[test]
fn loads_vocabulary_and_decodes_tokens() {
    let entries = sample_entries();
    let bytes = tokenizer_bytes(8, &entries);
    let mut reader = bytes.as_slice();
    let tokenizer =
        Tokenizer::from_reader(entries.len(), &mut reader).expect("tokenizer should load");

    assert_eq!(tokenizer.vocab_size(), entries.len());
    assert_eq!(tokenizer.max_token_length(), 8);
    assert_eq!(tokenizer.decode(10).expect("decode should work"), "hello");
}

#[test]
fn encodes_with_bpe_merges() {
    let tokenizer = sample_tokenizer();
    let tokens = tokenizer
        .encode("hello", false, false)
        .expect("encode should work");
    assert_eq!(tokens, vec![10]);
}

#[test]
fn encodes_utf8_tokens_without_fallback_when_present() {
    let tokenizer = sample_tokenizer();
    let tokens = tokenizer
        .encode("あ", false, false)
        .expect("encode should work");
    assert_eq!(tokens, vec![11]);
}

#[test]
fn falls_back_to_unk_without_byte_tokens() {
    let entries = vec![(0.0, b"<unk>" as &[u8]), (0.0, b"<s>"), (0.0, b"</s>")];
    let bytes = tokenizer_bytes(8, &entries);
    let mut reader = bytes.as_slice();
    let tokenizer =
        Tokenizer::from_reader(entries.len(), &mut reader).expect("tokenizer should load");

    let tokens = tokenizer.encode("x", false, false).expect("encode should work");
    assert_eq!(tokens, vec![0]);
}

#[test]
fn rejects_invalid_entry_length() {
    let mut bytes = Vec::new();
    bytes.extend_from_slice(&4_u32.to_le_bytes());
    bytes.extend_from_slice(&0.0_f32.to_le_bytes());
    bytes.extend_from_slice(&5_i32.to_le_bytes());
    bytes.extend_from_slice(b"abcde");

    let mut reader = bytes.as_slice();
    let err = Tokenizer::from_reader(1, &mut reader).expect_err("tokenizer should fail");
    assert!(matches!(err, TokenizerError::InvalidEntry { .. }));
}

#[test]
fn decode_reports_invalid_token_id() {
    let tokenizer = sample_tokenizer();
    let err = tokenizer.decode(99).expect_err("decode should fail");
    assert!(matches!(err, TokenizerError::TokenOutOfRange(99)));
}

#[test]
fn special_tokens_are_found_by_text() {
    let tokenizer = sample_tokenizer();
    assert_eq!(tokenizer.bos_token(), Some(1));
    assert_eq!(tokenizer.eos_token(), Some(2));
    assert_eq!(tokenizer.unk_token(), Some(0));
    assert_eq!(tokenizer.token_bytes(7), Some(&b"he"[..]));
    assert_eq!(tokenizer.token_bytes(13), None);
}

#[test]
fn special_tokens_fall_back_to_fixed_ids() {
    let entries = vec![(0.0, b"a" as &[u8]), (0.0, b"b"), (0.0, b"c")];
    let bytes = tokenizer_bytes(8, &entries);
    let mut reader = bytes.as_slice();
    let tokenizer = Tokenizer::from_reader(entries.len(), &mut reader).unwrap();
    assert_eq!(tokenizer.bos_token(), Some(1));
    assert_eq!(tokenizer.eos_token(), Some(2));
    assert_eq!(tokenizer.unk_token(), Some(0));

    let entries = vec![(0.0, b"a" as &[u8])];
    let bytes = tokenizer_bytes(8, &entries);
    let mut reader = bytes.as_slice();
    let tokenizer = Tokenizer::from_reader(entries.len(), &mut reader).unwrap();
    assert_eq!(tokenizer.bos_token(), None);
    assert_eq!(tokenizer.eos_token(), None);
    assert_eq!(tokenizer.unk_token(), Some(0));
}

#[test]
fn encode_adds_special_tokens_and_reports_missing_ones() {
    let tokenizer = sample_tokenizer();
    let tokens = tokenizer.encode("hello", true, true).unwrap();
    assert_eq!(tokens, vec![1, 10, 2]);

    let entries = vec![(0.0, b"a" as &[u8])];
    let bytes = tokenizer_bytes(8, &entries);
    let mut reader = bytes.as_slice();
    let tokenizer = Tokenizer::from_reader(entries.len(), &mut reader).unwrap();
    let err = tokenizer.encode("a", true, false).unwrap_err();
    assert!(matches!(err, TokenizerError::MissingSpecialToken("BOS")));
    let err = tokenizer.encode("a", false, true).unwrap_err();
    assert!(matches!(err, TokenizerError::MissingSpecialToken("EOS")));
}

#[test]
fn byte_without_entry_or_unknown_token_is_an_error() {
    let bytes = tokenizer_bytes(8, &[]);
    let mut reader = bytes.as_slice();
    let tokenizer = Tokenizer::from_reader(0, &mut reader).unwrap();
    assert_eq!(tokenizer.unk_token(), None);
    let err = tokenizer.encode("x", false, false).unwrap_err();
    assert!(matches!(err, TokenizerError::MissingByteFallback(120)));
}

#[test]
fn entries_longer_than_the_maximum_are_refused() {
    let entries = vec![(0.0, b"a" as &[u8]), (0.0, b"b"), (5.0, b"ab")];
    let bytes = tokenizer_bytes(1, &entries);
    let mut reader = bytes.as_slice();
    let err = Tokenizer::from_reader(entries.len(), &mut reader).unwrap_err();
    assert!(matches!(err, TokenizerError::InvalidEntry { index: 2, reason: "token length exceeds max_token_length" }));
}

#[test]
fn encode_then_decode_gives_the_text_back() {
    let tokenizer = sample_tokenizer();
    for text in ["hello", "helo", "olleh", "あhello"] {
        let tokens = tokenizer.encode(text, false, false).unwrap();
        assert_eq!(tokenizer.decode_tokens(&tokens).unwrap(), text);
    }
}

#[test]
fn decode_tokens_replaces_ill_formed_utf8_and_reports_bad_ids() {
    let tokenizer = sample_tokenizer();
    assert_eq!(tokenizer.decode_tokens(&[12]).unwrap(), "\u{FFFD}");
    let err = tokenizer.decode_tokens(&[3, 50]).unwrap_err();
    assert!(matches!(err, TokenizerError::TokenOutOfRange(50)));
}

#[test]
fn rejects_zero_max_length_negative_length_and_truncation() {
    let bytes = tokenizer_bytes(0, &[]);
    let mut reader = bytes.as_slice();
    let err = Tokenizer::from_reader(0, &mut reader).unwrap_err();
    assert!(matches!(err, TokenizerError::InvalidHeader(_)));

    let mut bytes = Vec::new();
    bytes.extend_from_slice(&4_u32.to_le_bytes());
    bytes.extend_from_slice(&0.0_f32.to_le_bytes());
    bytes.extend_from_slice(&(-1_i32).to_le_bytes());
    let mut reader = bytes.as_slice();
    let err = Tokenizer::from_reader(1, &mut reader).unwrap_err();
    assert!(matches!(err, TokenizerError::InvalidEntry { index: 0, reason: "token length must not be negative" }));

    let bytes = tokenizer_bytes(8, &sample_entries());
    let mut reader = &bytes[..20];
    let err = Tokenizer::from_reader(13, &mut reader).unwrap_err();
    assert!(matches!(err, TokenizerError::Io(_)));
}
