use llama_rs::checked::generation::chat::{
    chat_generate_options, render_chat_prompt, render_inst_block, ChatError, ChatOptions, ChatRole,
    ChatTurn,
};

#[test]
fn renders_system_prompt_template() {
    let prompt = render_chat_prompt(Some("system"), &[], "user").expect("prompt should render");
    assert_eq!(
        prompt,
        "[INST]\n<<SYS>>\nsystem\n<</SYS>>\n\nuser\n[/INST]"
    );
}

#[test]
fn renders_history_and_current_user_prompt() {
    let history = vec![
        ChatTurn {
            role: ChatRole::User,
            content: "first".to_string(),
        },
        ChatTurn {
            role: ChatRole::Assistant,
            content: "reply".to_string(),
        },
    ];

    let prompt =
        render_chat_prompt(Some("system"), &history, "next").expect("prompt should render");
    assert_eq!(
        prompt,
        "[INST]\n<<SYS>>\nsystem\n<</SYS>>\n\nfirst\n[/INST] reply [INST] next [/INST]"
    );
}

#[test]
fn rejects_invalid_history_shapes() {
    let err = render_chat_prompt(
        None,
        &[ChatTurn {
            role: ChatRole::Assistant,
            content: "reply".to_string(),
        }],
        "next",
    )
    .expect_err("prompt should fail");
    assert!(matches!(err, ChatError::OrphanAssistantTurn));

    let err = render_chat_prompt(
        None,
        &[ChatTurn {
            role: ChatRole::User,
            content: "first".to_string(),
        }],
        "next",
    )
    .expect_err("prompt should fail");
    assert!(matches!(err, ChatError::HistoryEndsWithUser));
}

#[test]
fn blank_user_prompt_is_refused() {
    let err = render_chat_prompt(Some("system"), &[], "  \n\t ").expect_err("prompt should fail");
    assert!(matches!(err, ChatError::EmptyUserPrompt));
}

#[test]
fn two_user_turns_in_a_row_are_refused() {
    let history = vec![
        ChatTurn { role: ChatRole::User, content: "a".to_string() },
        ChatTurn { role: ChatRole::User, content: "b".to_string() },
        ChatTurn { role: ChatRole::Assistant, content: "c".to_string() },
    ];
    let err = render_chat_prompt(None, &history, "next").expect_err("prompt should fail");
    assert!(matches!(err, ChatError::HistoryEndsWithUser));
}

#[test]
fn blank_system_prompt_renders_plain_block_and_trims() {
    assert_eq!(render_inst_block(Some("   "), "  hi  "), "[INST] hi [/INST]");
    assert_eq!(render_inst_block(None, "hi"), "[INST] hi [/INST]");
    assert_eq!(
        render_inst_block(Some(" sys "), "hi"),
        "[INST]\n<<SYS>>\nsys\n<</SYS>>\n\nhi\n[/INST]"
    );
    let prompt = render_chat_prompt(None, &[], " a ").unwrap();
    assert_eq!(prompt, "[INST] a [/INST]");
}

#[test]
fn chat_options_default_and_generation_options() {
    let defaults = ChatOptions::default();
    assert_eq!(defaults.steps, 128);
    assert!(defaults.stop_at_eos);
    assert!(defaults.system_prompt.is_none());

    let options = ChatOptions {
        system_prompt: None,
        user_prompt: "a".to_string(),
        history: Vec::new(),
        steps: 2,
        stop_at_eos: true,
    };
    let generate = chat_generate_options(&options).expect("options should build");
    assert_eq!(generate.prompt, "[INST] a [/INST]");
    assert_eq!(generate.steps, 2);
    assert!(generate.add_bos);
    assert!(generate.stop_at_eos);
}

#[test]
fn blank_system_prompt_renders_as_none() {
    let history = vec![
        ChatTurn { role: ChatRole::User, content: "first".to_string() },
        ChatTurn { role: ChatRole::Assistant, content: "reply".to_string() },
    ];
    let with_blank = render_chat_prompt(Some(" \t\n"), &history, "next").unwrap();
    let with_none = render_chat_prompt(None, &history, "next").unwrap();
    assert_eq!(with_blank, with_none);
    assert_eq!(with_none, "[INST] first [/INST] reply [INST] next [/INST]");
}

#[test]
fn user_prompt_whitespace_does_not_matter() {
    let padded = render_chat_prompt(Some("sys"), &[], "  hello \n").unwrap();
    let plain = render_chat_prompt(Some("sys"), &[], "hello").unwrap();
    assert_eq!(padded, plain);
    assert!(matches!(render_chat_prompt(None, &[], "   "), Err(ChatError::EmptyUserPrompt)));
}
