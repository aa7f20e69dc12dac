use llama_rs::checked::generation::mode::GenerationMode;
use std::str::FromStr;

#[test]
fn defaults_to_generate() {
    assert_eq!(GenerationMode::default(), GenerationMode::Generate);
}

#[test]
fn parses_supported_modes() {
    assert_eq!(
        GenerationMode::from_str("generate").expect("mode should parse"),
        GenerationMode::Generate
    );
    assert_eq!(
        GenerationMode::from_str("chat").expect("mode should parse"),
        GenerationMode::Chat
    );
}

#[test]
fn rejects_unknown_modes() {
    assert!(GenerationMode::from_str("other").is_err());
}

#[test]
fn short_name_and_names_of_modes() {
    assert_eq!(GenerationMode::parse("gen").unwrap(), GenerationMode::Generate);
    assert!(GenerationMode::parse("Chat").is_err());
    assert_eq!(GenerationMode::Generate.as_str(), "generate");
    assert_eq!(GenerationMode::Chat.as_str(), "chat");
    let err = GenerationMode::parse("x").unwrap_err();
    assert_eq!(err.value(), "x");
    assert_eq!(err.message(), "invalid generation mode `x`; expected `generate` or `chat`");
}
