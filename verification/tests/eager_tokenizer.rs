use llama_rs::eager::tokenizer::{parse_raw_byte_piece, Tokenizer};
use llama_rs::text::token_out_of_range_message;

fn tokenizer_fixture_bytes() -> Vec<u8> {
    let pieces = [
        ("<unk>", 0.0_f32),
        ("<s>", 0.0),
        ("</s>", 0.0),
        (" ", 0.0),
        ("a", 1.0),
        ("b", 1.0),
        ("<0x61>", 0.0),
        ("ab", 10.0),
    ];

    let mut bytes = Vec::new();
    bytes.extend_from_slice(&(8_u32).to_le_bytes());
    for (piece, score) in pieces {
        bytes.extend_from_slice(&score.to_le_bytes());
        bytes.extend_from_slice(&(piece.len() as u32).to_le_bytes());
        bytes.extend_from_slice(piece.as_bytes());
    }
    bytes
}

fn fixture() -> Tokenizer {
    let bytes = tokenizer_fixture_bytes();
    let mut cursor = bytes.as_slice();
    Tokenizer::from_reader(&mut cursor, 8).unwrap()
}

#[test]
fn loads_vocab_and_encodes_with_merges() {
    let tokenizer = fixture();

    let tokens = tokenizer.encode("ab", true, false).unwrap();

    assert_eq!(tokens, vec![1, 3, 7]);
}

#[test]
fn decodes_byte_piece_and_strips_bos_space() {
    let tokenizer = fixture();

    assert_eq!(tokenizer.decode(1, 3).unwrap(), "");
    assert_eq!(tokenizer.decode(0, 6).unwrap(), "a");
}

#[test]
fn raw_byte_pieces_parse_like_from_str_radix() {
    assert_eq!(parse_raw_byte_piece("<0x61>"), Some(0x61));
    assert_eq!(parse_raw_byte_piece("<0xFf>"), Some(0xFF));
    assert_eq!(parse_raw_byte_piece("<0x+A>"), Some(0x0A));
    assert_eq!(parse_raw_byte_piece("<0x6g>"), None);
    assert_eq!(parse_raw_byte_piece("<0x612>"), None);
    assert_eq!(parse_raw_byte_piece("<1x61>"), None);
}

#[test]
fn safe_decode_drops_empty_and_unprintable_pieces() {
    let tokenizer = fixture();
    assert_eq!(tokenizer.safe_decode(1, 3).unwrap(), None);
    assert_eq!(tokenizer.safe_decode(0, 3).unwrap(), Some(" ".to_string()));
    assert_eq!(tokenizer.safe_decode(0, 4).unwrap(), Some("a".to_string()));
    assert!(tokenizer.safe_decode(0, 8).is_err());
    assert!(tokenizer.decode(0, 8).is_err());
}

#[test]
fn encode_needs_the_dummy_prefix_for_text() {
    let pieces = [("<unk>", 0.0_f32), ("<s>", 0.0), ("</s>", 0.0), ("a", 1.0)];
    let mut bytes = Vec::new();
    bytes.extend_from_slice(&(8_u32).to_le_bytes());
    for (piece, score) in pieces {
        bytes.extend_from_slice(&score.to_le_bytes());
        bytes.extend_from_slice(&(piece.len() as u32).to_le_bytes());
        bytes.extend_from_slice(piece.as_bytes());
    }
    let mut cursor = bytes.as_slice();
    let tokenizer = Tokenizer::from_reader(&mut cursor, 4).unwrap();
    assert!(tokenizer.encode("a", false, false).is_err());
    assert_eq!(tokenizer.encode("", true, true).unwrap(), vec![1, 2]);
}

#[test]
fn byte_fallback_outside_the_vocabulary_is_an_error() {
    let tokenizer = fixture();
    assert!(tokenizer.encode("Z", false, false).is_err());
    assert_eq!(tokenizer.encode("a", false, true).unwrap(), vec![3, 4, 2]);
}

#[test]
fn out_of_range_token_names_the_token() {
    let tokenizer = fixture();
    let err = tokenizer.decode(0, 8).unwrap_err();
    assert_eq!(err.kind(), std::io::ErrorKind::InvalidData);
    assert_eq!(err.to_string(), "token out of range in tokenizer: 8");
    assert_eq!(token_out_of_range_message(12345), "token out of range in tokenizer: 12345");
}

#[test]
fn encoded_pieces_spell_a_space_and_the_text() {
    let tokenizer = fixture();
    for text in ["abba", "a b", "b"] {
        let tokens = tokenizer.encode(text, false, false).unwrap();
        let spelled: String = tokens.iter().map(|&t| tokenizer.decode(0, t).unwrap()).collect();
        assert_eq!(spelled, format!(" {text}"));
    }
    assert_eq!(tokenizer.encode("", false, false).unwrap(), Vec::<usize>::new());
}
