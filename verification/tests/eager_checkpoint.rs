use llama_rs::eager::checkpoint::load_checkpoint_layout;
use llama_rs::eager::config::Config;

fn fixture_bytes(config: &Config, shared_weights: bool) -> Vec<u8> {
    let mut bytes = Vec::new();
    let vocab_marker = if shared_weights {
        config.vocab_size as i32
    } else {
        -(config.vocab_size as i32)
    };
    let header = [
        config.dim as i32,
        config.hidden_dim as i32,
        config.n_layers as i32,
        config.n_heads as i32,
        config.n_kv_heads as i32,
        vocab_marker,
        config.seq_len as i32,
    ];

    for value in header {
        bytes.extend_from_slice(&value.to_le_bytes());
    }

    let kv_dim = config.kv_dim();
    let rope_size = config.seq_len * config.head_size() / 2;
    let mut next = 1.0_f32;

    push_f32s(&mut bytes, &mut next, config.vocab_size * config.dim);
    push_f32s(&mut bytes, &mut next, config.n_layers * config.dim);
    push_f32s(&mut bytes, &mut next, config.n_layers * config.dim * config.dim);
    push_f32s(&mut bytes, &mut next, config.n_layers * config.dim * kv_dim);
    push_f32s(&mut bytes, &mut next, config.n_layers * config.dim * kv_dim);
    push_f32s(&mut bytes, &mut next, config.n_layers * config.dim * config.dim);
    push_f32s(&mut bytes, &mut next, config.n_layers * config.dim);
    push_f32s(&mut bytes, &mut next, config.n_layers * config.hidden_dim * config.dim);
    push_f32s(&mut bytes, &mut next, config.n_layers * config.dim * config.hidden_dim);
    push_f32s(&mut bytes, &mut next, config.n_layers * config.hidden_dim * config.dim);
    push_f32s(&mut bytes, &mut next, config.dim);
    push_f32s(&mut bytes, &mut next, rope_size);
    push_f32s(&mut bytes, &mut next, rope_size);

    if !shared_weights {
        push_f32s(&mut bytes, &mut next, config.vocab_size * config.dim);
    }

    bytes
}

fn push_f32s(bytes: &mut Vec<u8>, next: &mut f32, count: usize) {
    for _ in 0..count {
        bytes.extend_from_slice(&next.to_le_bytes());
        *next += 1.0;
    }
}

fn first_value(raw: &[u8], range: (usize, usize)) -> f32 {
    f32::from_le_bytes(raw[range.0..range.0 + 4].try_into().unwrap())
}

#[test]
fn loads_unshared_classifier_weights() {
    let config = Config::new(4, 8, 1, 2, 2, 3, 4);
    let raw = fixture_bytes(&config, false);

    let layout = load_checkpoint_layout(&raw).unwrap();
    let rms_final_start = (config.vocab_size * config.dim
        + config.n_layers * config.dim
        + config.n_layers * config.dim * config.dim
        + config.n_layers * config.dim * config.kv_dim()
        + config.n_layers * config.dim * config.kv_dim()
        + config.n_layers * config.dim * config.dim
        + config.n_layers * config.dim
        + config.n_layers * config.hidden_dim * config.dim
        + config.n_layers * config.dim * config.hidden_dim
        + config.n_layers * config.hidden_dim * config.dim
        + 1) as f32;
    let wcls_start = (rms_final_start as usize
        + config.dim
        + (config.seq_len * config.head_size() / 2) * 2) as f32;

    assert!(!layout.shared_weights);
    assert_eq!(layout.config, config);
    assert_eq!(layout.reads.len(), 1 + 9 + 3 + 1);
    assert_eq!(first_value(&raw, layout.reads[0]), 1.0);
    assert_eq!(first_value(&raw, layout.reads[1]), 13.0);
    assert_eq!(first_value(&raw, layout.reads[10]), rms_final_start);
    assert_eq!(first_value(&raw, layout.reads[13]), wcls_start);
    assert_eq!(layout.reads[13].1, raw.len());
}

#[test]
fn reuses_embedding_table_when_classifier_is_shared() {
    let config = Config::new(4, 8, 1, 2, 2, 3, 4);
    let raw = fixture_bytes(&config, true);

    let layout = load_checkpoint_layout(&raw).unwrap();

    assert!(layout.shared_weights);
    assert_eq!(layout.reads.len(), 1 + 9 + 3);
    assert_eq!(layout.reads[12].1, raw.len());
}

#[test]
fn truncated_checkpoints_are_refused() {
    let config = Config::new(4, 8, 1, 2, 2, 3, 4);
    let raw = fixture_bytes(&config, false);
    let err = load_checkpoint_layout(&raw[..raw.len() - 1]).unwrap_err();
    assert_eq!(err.kind(), std::io::ErrorKind::UnexpectedEof);
    let err = load_checkpoint_layout(&raw[..27]).unwrap_err();
    assert_eq!(err.kind(), std::io::ErrorKind::UnexpectedEof);
    let mut bad = raw.clone();
    bad[0..4].copy_from_slice(&0i32.to_le_bytes());
    let err = load_checkpoint_layout(&bad).unwrap_err();
    assert_eq!(err.kind(), std::io::ErrorKind::InvalidData);
}
