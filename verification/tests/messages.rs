use llama_rs::checked::config::ConfigError;
use llama_rs::checked::generation::chat::ChatError;
use llama_rs::checked::generation::generate::GenerateError;
use llama_rs::checked::sampler::SamplerError;
use llama_rs::checked::tokenizer::TokenizerError;
use llama_rs::checked::transformer::TransformerError;
use llama_rs::checked::weights::WeightsError;

fn io(text: &str) -> std::io::Error {
    std::io::Error::new(std::io::ErrorKind::Other, text.to_string())
}

#[test]
fn config_error_messages() {
    assert_eq!(ConfigError::Io(io("boom")).message(), "failed to read model config: boom");
    let err = ConfigError::InvalidField { name: "dim", value: -7, reason: "must be greater than zero" };
    assert_eq!(err.message(), "invalid config field `dim` (-7): must be greater than zero");
}

#[test]
fn weights_error_messages() {
    assert_eq!(WeightsError::Io(io("short")).message(), "failed to read weights: short");
    assert_eq!(WeightsError::InvalidLayout("odd").message(), "invalid weight layout: odd");
    assert_eq!(
        WeightsError::TrailingBytes { expected: 16, actual: 5 }.message(),
        "unexpected trailing bytes after mandatory weights: expected 16, got 5"
    );
    assert_eq!(WeightsError::SizeOverflow("wq").message(), "weight size overflow while computing `wq`");
}

#[test]
fn tokenizer_error_messages() {
    assert_eq!(TokenizerError::Io(io("eof")).message(), "failed to read tokenizer: eof");
    assert_eq!(TokenizerError::InvalidHeader("bad").message(), "invalid tokenizer header: bad");
    assert_eq!(
        TokenizerError::InvalidEntry { index: 12, reason: "too long" }.message(),
        "invalid tokenizer entry at index 12: too long"
    );
    assert_eq!(TokenizerError::TokenOutOfRange(300).message(), "token id 300 is out of range");
    assert_eq!(TokenizerError::MissingSpecialToken("BOS").message(), "missing special token `BOS`");
    assert_eq!(
        TokenizerError::MissingByteFallback(255).message(),
        "missing byte fallback token for byte value 255"
    );
}

#[test]
fn sampler_and_transformer_error_messages() {
    assert_eq!(SamplerError::InvalidConfig("x").message(), "invalid sampler config: x");
    assert_eq!(
        SamplerError::LogitCountMismatch { expected: 4, actual: 3 }.message(),
        "logit count mismatch: expected 4, got 3"
    );
    assert_eq!(SamplerError::EmptyLogits.message(), "logits must not be empty");
    assert_eq!(
        TransformerError::InvalidToken { token: 9, vocab_size: 8 }.message(),
        "token 9 is out of range for vocab size 8"
    );
    assert_eq!(
        TransformerError::InvalidPosition { position: 4, seq_len: 4 }.message(),
        "position 4 is out of range for sequence length 4"
    );
    assert_eq!(TransformerError::InvalidWeights("wq").message(), "invalid transformer weights: wq");
    assert_eq!(
        TransformerError::WeightLayout(WeightsError::InvalidLayout("odd")).message(),
        "invalid weight layout: odd"
    );
}

#[test]
fn generate_and_chat_error_messages() {
    assert_eq!(
        GenerateError::EmptyPrompt.message(),
        "prompt produced no tokens and tokenizer has no BOS token"
    );
    assert_eq!(
        GenerateError::PromptTooLong { prompt_len: 9, seq_len: 8 }.message(),
        "prompt is too long for the model context: 9 tokens > 8"
    );
    assert_eq!(
        GenerateError::Sampler(SamplerError::EmptyLogits).message(),
        "logits must not be empty"
    );
    assert_eq!(ChatError::EmptyUserPrompt.message(), "user prompt must not be empty");
    assert_eq!(
        ChatError::HistoryEndsWithUser.message(),
        "chat history must contain complete user/assistant pairs before the current user prompt"
    );
    assert_eq!(
        ChatError::OrphanAssistantTurn.message(),
        "assistant turn appeared without a preceding user turn"
    );
    assert_eq!(
        ChatError::Generate(GenerateError::Tokenizer(TokenizerError::TokenOutOfRange(7))).message(),
        "token id 7 is out of range"
    );
}
