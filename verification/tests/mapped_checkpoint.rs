use llama_rs::mapped::checkpoint::{layout_for_len, read_config, weight_layout, LayoutError};
use llama_rs::mapped::config::Config;
use llama_rs::mapped::transformer::clamp_steps;

fn header(values: [i32; 7]) -> Vec<u8> {
    values.iter().flat_map(|v| v.to_le_bytes()).collect()
}

#[test]
fn header_gives_config_and_sharing() {
    let (config, shared) = read_config(&header([4, 8, 1, 2, 2, 3, 4])).unwrap();
    assert!(shared);
    assert_eq!(config.vocab_size, 3);
    let (config, shared) = read_config(&header([4, 8, 1, 2, 2, -3, 4])).unwrap();
    assert!(!shared);
    assert_eq!(config.vocab_size, 3);
    assert!(read_config(&header([4, 8, 1, 2, 2, 3, 4])[..27]).is_err());
}

#[test]
fn weights_are_laid_out_in_file_order() {
    let (config, shared) = read_config(&header([4, 8, 1, 2, 2, 3, 4])).unwrap();
    let needed = 12 + 4 + 16 + 16 + 16 + 16 + 4 + 32 + 32 + 32 + 4 + 4 + 4;
    let layout = weight_layout(&config, shared, needed).unwrap();
    assert_eq!(layout.token_embedding_table.start, 0);
    assert_eq!(layout.token_embedding_table.len, 12);
    assert_eq!(layout.wcls, layout.token_embedding_table);
    assert!(matches!(weight_layout(&config, shared, needed - 1), Err(LayoutError::Truncated)));
}

#[test]
fn steps_are_clamped_to_the_context() {
    let config = Config { dim: 4, hidden_dim: 8, n_layers: 1, n_heads: 2, n_kv_heads: 2, vocab_size: 3, seq_len: 16 };
    assert_eq!(clamp_steps(&config, 0), 16);
    assert_eq!(clamp_steps(&config, 100), 16);
    assert_eq!(clamp_steps(&config, 5), 5);
}

#[test]
fn file_length_decides_alignment_then_layout() {
    let (config, shared) = read_config(&header([4, 8, 1, 2, 2, 3, 4])).unwrap();
    let needed = 12 + 4 + 16 + 16 + 16 + 16 + 4 + 32 + 32 + 32 + 4 + 4 + 4;
    let bytes = 28 + 4 * needed;
    let layout = layout_for_len(&config, shared, bytes).unwrap();
    assert_eq!(Ok(layout), weight_layout(&config, shared, needed));
    assert!(matches!(layout_for_len(&config, shared, bytes + 1), Err(LayoutError::Misaligned)));
    assert!(matches!(layout_for_len(&config, shared, 27), Err(LayoutError::Misaligned)));
    assert!(matches!(layout_for_len(&config, shared, bytes - 4), Err(LayoutError::Truncated)));
}
