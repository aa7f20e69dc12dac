use llama_rs::mapped::tokenizer::Tokenizer;

fn make_tokenizer() -> Tokenizer {
    let vocab = vec![
        "<unk>".to_string(),
        "<s>".to_string(),
        "</s>".to_string(),
        " ".to_string(),
        "a".to_string(),
        "b".to_string(),
        "ab".to_string(),
    ];
    let vocab_scores: Vec<f32> = vec![0.0, 0.0, 0.0, 0.0, 1.0, 1.0, 10.0];

    let mut tokenizer = Tokenizer {
        vocab,
        vocab_scores: vocab_scores.iter().map(|s| s.to_bits()).collect(),
        sorted_vocab: None,
        max_token_length: 2,
        vocab_size: 7,
    };
    tokenizer.initialize_sort_vocab();
    tokenizer
}

#[test]
fn str_lookup_finds_known_token() {
    let tokenizer = make_tokenizer();

    assert_eq!(tokenizer.str_lookup("a"), Some(4));
    assert_eq!(tokenizer.str_lookup("ab"), Some(6));
    assert_eq!(tokenizer.str_lookup("x"), None);
}

#[test]
fn tokenize_per_char_pushes_known_tokens() {
    let tokenizer = make_tokenizer();
    let mut tokens = Vec::new();

    tokenizer.tokenize_per_char("ab", &mut tokens);

    assert_eq!(tokens, vec![4, 5]);
}

#[test]
fn tokenize_per_char_falls_back_to_bytes() {
    let tokenizer = make_tokenizer();
    let mut tokens = Vec::new();

    tokenizer.tokenize_per_char("A", &mut tokens);

    assert_eq!(tokens, vec![68]);
}

#[test]
fn merge_tokens_merges_best_pair() {
    let tokenizer = make_tokenizer();
    let mut tokens = vec![4, 5];

    tokenizer.merge_tokens(&mut tokens);

    assert_eq!(tokens, vec![6]);
}

#[test]
fn encode_adds_bos_dummy_prefix_and_eos() {
    let mut tokenizer = make_tokenizer();

    let tokens = tokenizer.encode(Some("ab"), true, true).unwrap();

    assert_eq!(tokens, vec![1, 3, 6, 2]);
}

#[test]
fn encode_without_prompt_is_an_error() {
    let mut tokenizer = make_tokenizer();
    let err = tokenizer.encode(None, true, false).unwrap_err();
    assert_eq!(err.kind(), std::io::ErrorKind::InvalidInput);
}

#[test]
fn lookup_before_index_finds_nothing_and_encode_builds_it() {
    let mut tokenizer = Tokenizer {
        vocab: vec!["<unk>".to_string(), "<s>".to_string(), "</s>".to_string(), "é".to_string()],
        vocab_scores: vec![0; 4],
        sorted_vocab: None,
        max_token_length: 2,
        vocab_size: 4,
    };
    assert_eq!(tokenizer.str_lookup("é"), None);
    let mut tokens = Vec::new();
    tokenizer.tokenize_per_char("é", &mut tokens);
    assert_eq!(tokens, vec![0xC3 + 3, 0xA9 + 3]);
    let tokens = tokenizer.encode(Some("é"), false, false).unwrap();
    assert!(tokenizer.sorted_vocab.is_some());
    assert_eq!(tokens, vec![3]);
}

#[test]
fn loads_tokenizer_file_bytes() {
    let mut bytes = Vec::new();
    bytes.extend_from_slice(&3u32.to_le_bytes());
    for (piece, score) in [("<unk>", 0.0f32), ("ab", 2.5)] {
        bytes.extend_from_slice(&score.to_le_bytes());
        bytes.extend_from_slice(&(piece.len() as u32).to_le_bytes());
        bytes.extend_from_slice(piece.as_bytes());
    }
    let tokenizer = Tokenizer::from_bytes(&bytes, 2).unwrap();
    assert_eq!(tokenizer.vocab, vec!["<unk>".to_string(), "ab".to_string()]);
    assert_eq!(tokenizer.vocab_scores, vec![0.0f32.to_bits(), 2.5f32.to_bits()]);
    assert_eq!(tokenizer.max_token_length, 3);
    assert_eq!(tokenizer.vocab_size, 2);
    assert!(tokenizer.sorted_vocab.is_none());

    assert!(Tokenizer::from_bytes(&bytes[..bytes.len() - 1], 2).is_err());
    let mut bad = bytes.clone();
    let last = bad.len() - 1;
    bad[last] = 0xFF;
    let err = Tokenizer::from_bytes(&bad, 2).unwrap_err();
    assert_eq!(err.kind(), std::io::ErrorKind::InvalidData);
}

#[test]
fn merging_keeps_the_text_of_the_tokens() {
    let tokenizer = make_tokenizer();
    let mut tokens = vec![3, 4, 5, 4, 5];
    let text = |ids: &[u32]| ids.iter().map(|&t| tokenizer.vocab[t as usize].clone()).collect::<String>();
    let before = text(&tokens);
    tokenizer.merge_tokens(&mut tokens);
    assert_eq!(tokens, vec![3, 6, 6]);
    assert_eq!(text(&tokens), before);
}

#[test]
fn encoded_entries_spell_the_space_and_the_prompt() {
    let mut tokenizer = make_tokenizer();
    for prompt in ["abba", "a b", "bab", ""] {
        let tokens = tokenizer.encode(Some(prompt), false, false).unwrap();
        let spelled: String = tokens.iter().map(|&t| tokenizer.vocab[t as usize].as_str()).collect();
        assert_eq!(spelled, format!(" {prompt}"));
    }
}
