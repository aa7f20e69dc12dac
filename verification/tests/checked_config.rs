use llama_rs::checked::config::{Config, ConfigError};

fn config_bytes(fields: [i32; 7]) -> Vec<u8> {
    fields
        .into_iter()
        .flat_map(i32::to_le_bytes)
        .collect::<Vec<u8>>()
}

#[test]
fn reads_header_into_config() {
    let raw = config_bytes([4096, 11008, 32, 32, 32, 32000, 2048]);
    let mut bytes = raw.as_slice();
    let config = Config::from_reader(&mut bytes).expect("config should parse");

    assert_eq!(config.dim, 4096);
    assert_eq!(config.hidden_dim, 11008);
    assert_eq!(config.n_layers, 32);
    assert_eq!(config.n_heads, 32);
    assert_eq!(config.n_kv_heads, 32);
    assert_eq!(config.vocab_size, 32000);
    assert_eq!(config.seq_len, 2048);
    assert_eq!(config.head_dim(), 128);
    assert_eq!(config.kv_dim(), 4096);
}

#[test]
fn rejects_non_positive_fields() {
    let raw = config_bytes([4096, 11008, 32, 0, 32, 32000, 2048]);
    let mut bytes = raw.as_slice();
    let err = Config::from_reader(&mut bytes).expect_err("config should fail");

    assert!(matches!(
        err,
        ConfigError::InvalidField {
            name: "n_heads",
            value: 0,
            ..
        }
    ));
}

#[test]
fn rejects_invalid_head_relationships() {
    let raw = config_bytes([4097, 11008, 32, 32, 8, 32000, 2048]);
    let mut bytes = raw.as_slice();
    let err = Config::from_reader(&mut bytes).expect_err("config should fail");

    assert!(matches!(
        err,
        ConfigError::InvalidField {
            name: "dim",
            reason: "must be divisible by n_heads",
            ..
        }
    ));
}

#[test]
fn truncated_header_is_an_io_error_and_consumes_the_input() {
    let raw = config_bytes([4096, 11008, 32, 32, 32, 32000, 2048]);
    let mut bytes = &raw[..10];
    let err = Config::from_reader(&mut bytes).expect_err("config should fail");
    assert!(matches!(err, ConfigError::Io(_)));
    assert!(bytes.is_empty());
}

#[test]
fn header_reader_stops_after_the_header() {
    let mut raw = config_bytes([8, 16, 2, 2, 1, 10, 4]);
    raw.extend_from_slice(&[7, 7, 7]);
    let mut bytes = raw.as_slice();
    let config = Config::from_reader(&mut bytes).expect("config should parse");
    assert_eq!(config.n_kv_heads, 1);
    assert_eq!(bytes, &[7, 7, 7]);
    assert_eq!(Config::header_size(), 28);
}

#[test]
fn rejects_heads_not_divisible_by_kv_heads() {
    let raw = config_bytes([96, 16, 2, 6, 4, 10, 4]);
    let mut bytes = raw.as_slice();
    let err = Config::from_reader(&mut bytes).expect_err("config should fail");
    assert!(matches!(
        err,
        ConfigError::InvalidField {
            name: "n_heads",
            value: 6,
            reason: "must be divisible by n_kv_heads",
        }
    ));
}
