use llama_rs::checked::config::Config;
use llama_rs::checked::weights::{weights_layout, WeightCounts, WeightsError};

fn test_config() -> Config {
    Config {
        dim: 8,
        hidden_dim: 16,
        n_layers: 2,
        n_heads: 2,
        n_kv_heads: 1,
        vocab_size: 10,
        seq_len: 4,
    }
}

#[test]
fn rejects_odd_head_dim_for_rope_tables() {
    let config = Config {
        dim: 6,
        hidden_dim: 16,
        n_layers: 2,
        n_heads: 2,
        n_kv_heads: 1,
        vocab_size: 10,
        seq_len: 4,
    };

    let err = WeightCounts::from_config(&config).expect_err("counts should fail");
    assert!(matches!(err, WeightsError::InvalidLayout(_)));
}

#[test]
fn counts_follow_the_config() {
    let counts = WeightCounts::from_config(&test_config()).unwrap();
    assert_eq!(counts.token_embedding_table, 80);
    assert_eq!(counts.rms_att_weight, 16);
    assert_eq!(counts.wq, 128);
    assert_eq!(counts.wk, 64);
    assert_eq!(counts.wv, 64);
    assert_eq!(counts.wo, 128);
    assert_eq!(counts.w1, 256);
    assert_eq!(counts.rms_final_weight, 8);
    assert_eq!(counts.freq_cis_real, 8);
    assert_eq!(counts.wcls, 80);
    assert_eq!(counts.required_f32_count(), 80 + 16 + 128 + 64 + 64 + 128 + 16 + 256 * 3 + 8 + 8 + 8);
}

#[test]
fn overflowing_sizes_name_the_product() {
    let config = Config {
        dim: 2,
        hidden_dim: 2,
        n_layers: 1,
        n_heads: 1,
        n_kv_heads: 1,
        vocab_size: usize::MAX,
        seq_len: 1,
    };
    let err = WeightCounts::from_config(&config).unwrap_err();
    assert!(matches!(err, WeightsError::SizeOverflow("embedding")));
}

#[test]
fn loads_required_and_optional_tensors() {
    let config = test_config();
    let counts = WeightCounts::from_config(&config).expect("counts should compute");
    let total = counts.required_f32_count() + counts.wcls;
    let layout = weights_layout(&config, total * 4).expect("weights should load");
    assert_eq!(layout.ranges[0], (0, counts.token_embedding_table * 4));
    assert_eq!(layout.ranges[11].1 - layout.ranges[11].0, counts.freq_cis_real * 4);
    assert_eq!(layout.classifier, Some((counts.required_f32_count() * 4, total * 4)));
}

#[test]
fn allows_missing_wcls_and_falls_back_to_embeddings() {
    let config = test_config();
    let counts = WeightCounts::from_config(&config).expect("counts should compute");
    let layout = weights_layout(&config, counts.required_f32_count() * 4).expect("weights should load");
    assert!(layout.classifier.is_none());
    assert_eq!(layout.ranges.len(), 13);
}

#[test]
fn rejects_invalid_trailing_bytes() {
    let config = test_config();
    let counts = WeightCounts::from_config(&config).expect("counts should compute");
    let err = weights_layout(&config, counts.required_f32_count() * 4 + 5).expect_err("weights should fail");
    assert!(matches!(err, WeightsError::TrailingBytes { expected: 320, actual: 5 }));
}

#[test]
fn truncated_weights_are_an_io_error() {
    let config = test_config();
    let err = weights_layout(&config, 100).expect_err("weights should fail");
    assert!(matches!(err, WeightsError::Io(_)));
}

#[test]
fn tensor_byte_sizes_that_overflow_are_refused() {
    let config = Config {
        dim: 2,
        hidden_dim: 1,
        n_layers: 1,
        n_heads: 1,
        n_kv_heads: 1,
        vocab_size: usize::MAX / 4,
        seq_len: 1,
    };
    let err = weights_layout(&config, 0).unwrap_err();
    assert!(matches!(err, WeightsError::SizeOverflow("tensor_bytes")));
}

#[test]
fn mandatory_tensors_take_four_bytes_per_value() {
    let config = test_config();
    let counts = WeightCounts::from_config(&config).unwrap();
    let layout = weights_layout(&config, counts.required_f32_count() * 4).unwrap();
    assert_eq!(layout.ranges[12].1, counts.required_f32_count() * 4);
    for pair in layout.ranges.windows(2) {
        assert_eq!(pair[0].1, pair[1].0);
    }
}
