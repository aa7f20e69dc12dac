use llama_rs::checked::config::Config;
use llama_rs::checked::sampler::{check_sampler_config, validate_logits, SamplerError, SamplerRng};
use llama_rs::checked::transformer::{
    check_forward_args, check_len, validate_weight_shapes, Tensor, TransformerError,
};
use llama_rs::checked::weights::WeightCounts;
use llama_rs::rng::{random_bits24, random_u32};

fn test_config() -> Config {
    Config { dim: 4, hidden_dim: 8, n_layers: 1, n_heads: 2, n_kv_heads: 1, vocab_size: 3, seq_len: 4 }
}

#[test]
fn rejects_invalid_token_and_position() {
    let config = test_config();
    let err = check_forward_args(&config, 99, 0).expect_err("should fail");
    assert!(matches!(err, TransformerError::InvalidToken { token: 99, vocab_size: 3 }));

    let err = check_forward_args(&config, 0, config.seq_len).expect_err("should fail");
    assert!(matches!(err, TransformerError::InvalidPosition { position: 4, seq_len: 4 }));
    assert!(check_forward_args(&config, 2, 3).is_ok());
}

#[test]
fn weight_shapes_are_checked_in_file_order() {
    let config = test_config();
    let counts = WeightCounts::from_config(&config).unwrap();
    assert!(validate_weight_shapes(&config, &counts, true).is_ok());

    let mut lengths = counts.clone();
    lengths.wk += 1;
    lengths.w2 += 1;
    let err = validate_weight_shapes(&config, &lengths, false).unwrap_err();
    assert!(matches!(err, TransformerError::InvalidWeights("wk length mismatch")));

    let mut lengths = counts.clone();
    lengths.wcls = 0;
    assert!(validate_weight_shapes(&config, &lengths, false).is_ok());
    let err = validate_weight_shapes(&config, &lengths, true).unwrap_err();
    assert!(matches!(err, TransformerError::InvalidWeights("wcls length mismatch")));

    let odd = Config { dim: 6, ..test_config() };
    let err = validate_weight_shapes(&odd, &counts, true).unwrap_err();
    assert!(matches!(err, TransformerError::WeightLayout(_)));
}

#[test]
fn check_len_names_the_tensor() {
    assert!(check_len(Tensor::W1, 3, 3).is_ok());
    let err = check_len(Tensor::FreqCisImag, 2, 3).unwrap_err();
    assert!(matches!(err, TransformerError::InvalidWeights("freq_cis_imag length mismatch")));
}

#[test]
fn rejects_invalid_configuration() {
    let err = check_sampler_config(0, false, true).expect_err("sampler should fail");
    assert!(matches!(err, SamplerError::InvalidConfig(_)));

    let err = check_sampler_config(8, -0.1f32 < 0.0, true).expect_err("sampler should fail");
    assert!(matches!(err, SamplerError::InvalidConfig(_)));

    let err = check_sampler_config(8, false, (0.0..=1.0).contains(&1.5f32)).expect_err("sampler should fail");
    assert!(matches!(err, SamplerError::InvalidConfig("top_p must be between 0.0 and 1.0")));
    assert!(check_sampler_config(8, false, true).is_ok());
}

#[test]
fn rejects_logit_count_mismatch() {
    let err = validate_logits(4, 2).expect_err("sample should fail");
    assert!(matches!(err, SamplerError::LogitCountMismatch { expected: 4, actual: 2 }));
    assert!(matches!(validate_logits(4, 0), Err(SamplerError::EmptyLogits)));
    assert!(validate_logits(4, 4).is_ok());
}

fn xorshift(mut x: u64) -> u64 {
    x ^= x >> 12;
    x ^= x << 25;
    x ^= x >> 27;
    x
}

#[test]
fn seeded_sampling_is_reproducible() {
    let mut lhs = SamplerRng::new(42);
    let mut rhs = SamplerRng::new(42);
    let left: Vec<u64> = (0..10).map(|_| lhs.next_u64()).collect();
    let right: Vec<u64> = (0..10).map(|_| rhs.next_u64()).collect();
    assert_eq!(left, right);

    let mut rng = SamplerRng::new(0);
    assert_eq!(rng.state, 1);
    let value = rng.next_u64();
    assert_eq!(rng.state, xorshift(1));
    assert_eq!(value, xorshift(1).wrapping_mul(0x2545_F491_4F6C_DD1D));
    let bits = rng.next_bits24();
    assert_eq!(bits as u64, xorshift(xorshift(1)).wrapping_mul(0x2545_F491_4F6C_DD1D) >> 40);
}

#[test]
fn random_f32_stays_in_unit_interval() {
    let mut state = 42u64;

    for _ in 0..32 {
        let value = random_bits24(&mut state) as f32 / 16_777_216.0f32;
        assert!((0.0..1.0).contains(&value), "value out of range: {value}");
    }
}

#[test]
fn random_u32_is_the_high_half_of_the_scrambled_state() {
    let mut state = 7u64;
    let r = random_u32(&mut state);
    assert_eq!(state, xorshift(7));
    assert_eq!(r as u64, xorshift(7).wrapping_mul(0x2545_F491_4F6C_DD1D) >> 32);
}

#[test]
fn generator_state_never_returns_to_zero() {
    let mut rng = SamplerRng::new(0);
    for _ in 0..1000 {
        rng.next_u64();
        assert_ne!(rng.state, 0);
    }
}
