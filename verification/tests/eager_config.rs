use llama_rs::eager::config::Config;
use llama_rs::text::non_positive_message;

#[test]
fn derives_head_sizes() {
    let config = Config::new(288, 768, 6, 6, 2, 32_000, 256);
    assert_eq!(config.head_size(), 48);
    assert_eq!(config.kv_dim(), 96);
}

#[test]
fn decodes_header_and_shared_weight_flag() {
    let values = [288, 768, 6, 6, 2, -32_000, 256];
    let (config, shared_weights) = Config::from_i32_array(values).unwrap();

    assert!(!shared_weights);
    assert_eq!(config.vocab_size, 32_000);
    assert_eq!(config.kv_dim(), 96);
}

#[test]
fn positive_vocab_marks_shared_classifier() {
    let values = [288, 768, 6, 6, 2, 32_000, 256];
    let (config, shared_weights) = Config::from_i32_array(values).unwrap();
    assert!(shared_weights);
    assert_eq!(config.vocab_size, 32_000);
}

#[test]
fn rejects_non_positive_header_field() {
    let values = [288, 0, 6, 6, 2, 32_000, 256];
    let err = Config::from_i32_array(values).unwrap_err();
    assert_eq!(err.kind(), std::io::ErrorKind::InvalidData);
}

#[test]
fn decodes_header_bytes() {
    let mut bytes = [0u8; 28];
    for (i, v) in [288i32, 768, 6, 6, 2, -32_000, 256].iter().enumerate() {
        bytes[4 * i..4 * i + 4].copy_from_slice(&v.to_le_bytes());
    }
    let (config, shared) = Config::from_bytes(bytes).unwrap();
    assert!(!shared);
    assert_eq!(config.dim, 288);
    assert_eq!(config.seq_len, 256);
    assert_eq!(Config::BYTE_SIZE, 28);
}

#[test]
fn non_positive_field_message_names_field_and_value() {
    assert_eq!(non_positive_message("dim", -5), "dim must be positive, got -5");
    assert_eq!(non_positive_message("seq_len", 0), "seq_len must be positive, got 0");
    assert_eq!(
        non_positive_message("n_heads", i64::MIN),
        "n_heads must be positive, got -9223372036854775808"
    );
    let err = Config::from_i32_array([288, 768, -3, 6, 2, 32_000, 256]).unwrap_err();
    assert_eq!(err.to_string(), "n_layers must be positive, got -3");
}

#[test]
fn header_bytes_read_as_the_seven_fields() {
    for values in [
        [288i32, 768, 6, 6, 2, -32_000, 256],
        [288, 768, 6, 6, 2, 32_000, 256],
        [288, 0, 6, 6, 2, 32_000, 256],
        [-1, 768, 6, 6, 2, 32_000, 256],
    ] {
        let mut bytes = [0u8; 28];
        for (i, v) in values.iter().enumerate() {
            bytes[4 * i..4 * i + 4].copy_from_slice(&v.to_le_bytes());
        }
        match (Config::from_bytes(bytes), Config::from_i32_array(values)) {
            (Ok(a), Ok(b)) => assert_eq!(a, b),
            (Err(a), Err(b)) => {
                assert_eq!(a.kind(), b.kind());
                assert_eq!(a.to_string(), b.to_string());
            }
            _ => panic!("from_bytes and from_i32_array disagree on {values:?}"),
        }
    }
}
