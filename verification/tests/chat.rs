use gabriel_laevis::chat::{
    assistant_completion, chat_template, render, render_full, render_prompt, try_render,
    try_render_prompt, Message, Role, SpecialToken, CHAT_TEMPLATE, IGNORE_ID, MSG_CONTENT,
    MSG_REASONING, MSG_ROLE, SPECIAL_TOKEN_COUNT, THOUGHT_CHANNEL, TURN_END_ID,
};

#[test]
fn prompt_is_prefix_of_full() {
    // The supervised target is appended after the prompt, so the prompt is a literal prefix.
    let p = render_prompt("hi");
    let f = format!("{p}{}", assistant_completion("yo", None));
    assert!(f.starts_with(&p), "prompt must prefix full for SFT masking");
    assert_eq!(render_full("hi", "yo"), Some(f));
}

fn turn_open(role: Role) -> String {
    format!("{}{}\n", SpecialToken::TurnOpen.as_str(), role.tag())
}

#[test]
fn render_emits_turns_and_think_cue() {
    let on = render(&[Message::system("be nice"), Message::user("2+2?")], true, true);
    let think_cue = format!("{}{}", turn_open(Role::System), SpecialToken::Think.as_str());
    assert!(on.contains(&think_cue), "think cue: {on:?}");
    assert!(on.contains("be nice"), "system content: {on:?}");
    let user_turn = format!("{}2+2?{}", turn_open(Role::User), SpecialToken::TurnClose.as_str());
    assert!(on.contains(&user_turn), "user turn: {on:?}");
    assert!(on.ends_with(&turn_open(Role::Model)), "gen prompt tail: {on:?}");

    let off = render(&[Message::user("2+2?")], true, false);
    assert!(!off.contains(SpecialToken::Think.as_str()), "no think cue when off: {off:?}");
}

#[test]
fn assistant_completion_builds_thought_then_answer() {
    let with = format!(
        "{}{}\nadd them\n{}4{}\n",
        SpecialToken::ChannelOpen.as_str(),
        THOUGHT_CHANNEL,
        SpecialToken::ChannelClose.as_str(),
        SpecialToken::TurnClose.as_str(),
    );
    assert_eq!(assistant_completion("4", Some("add them")), with);
    assert_eq!(
        assistant_completion("4", None),
        format!("4{}\n", SpecialToken::TurnClose.as_str())
    );
}

#[test]
fn minijinja_renders_gemma_template() {
    let env = minijinja::Environment::new();
    let context: serde_json::Value = serde_json::from_str(
        r#"{
            "bos_token": "",
            "add_generation_prompt": true,
            "enable_thinking": true,
            "messages": [{"role": "user", "content": "What is 2+2?"}]
        }"#,
    )
    .unwrap();
    let out = env
        .render_named_str("chat", chat_template(), context)
        .expect("render reasoning prompt");
    let think_cue = format!("{}{}", turn_open(Role::System), SpecialToken::Think.as_str());
    assert!(out.contains(&think_cue), "think cue: {out:?}");
    let user_turn = format!(
        "{}What is 2+2?{}",
        turn_open(Role::User),
        SpecialToken::TurnClose.as_str()
    );
    assert!(out.contains(&user_turn), "user turn: {out:?}");
    assert!(out.ends_with(&turn_open(Role::Model)), "gen prompt tail: {out:?}");

    // Tools path: declaration macros, dictsort, format_argument.
    let context: serde_json::Value = serde_json::from_str(
        r#"{
            "bos_token": "",
            "add_generation_prompt": true,
            "tools": [{"function": {
                "name": "get_weather",
                "description": "Get the weather",
                "parameters": {
                    "type": "object",
                    "properties": {"city": {"type": "string", "description": "City"}},
                    "required": ["city"]
                }
            }}],
            "messages": [{"role": "user", "content": "weather in Paris?"}]
        }"#,
    )
    .unwrap();
    let out2 = env
        .render_named_str("chat", chat_template(), context)
        .expect("render tools prompt");
    assert!(
        out2.contains(SpecialToken::ToolOpen.as_str()) && out2.contains("get_weather"),
        "tool declaration: {out2:?}"
    );
}

#[test]
fn template_matches_typed_format() {
    for tok in [
        SpecialToken::TurnOpen,
        SpecialToken::TurnClose,
        SpecialToken::Think,
        SpecialToken::ChannelOpen,
        SpecialToken::ChannelClose,
        SpecialToken::ToolOpen,
        SpecialToken::ToolClose,
        SpecialToken::ToolCallOpen,
        SpecialToken::ToolCallClose,
        SpecialToken::ToolResponseOpen,
        SpecialToken::ToolResponseClose,
        SpecialToken::StringDelim,
        SpecialToken::Image,
        SpecialToken::Audio,
        SpecialToken::Video,
    ] {
        assert!(
            CHAT_TEMPLATE.contains(tok.as_str()),
            "template missing token {:?}",
            tok.as_str()
        );
    }
    assert!(
        CHAT_TEMPLATE.contains(&format!(
            "{}{THOUGHT_CHANNEL}",
            SpecialToken::ChannelOpen.as_str()
        )),
        "template missing the thought channel"
    );
    for field in [MSG_ROLE, MSG_CONTENT, MSG_REASONING] {
        assert!(CHAT_TEMPLATE.contains(field), "template missing message field {field}");
    }
    assert!(
        CHAT_TEMPLATE.contains(Role::Model.tag()),
        "template missing the model role"
    );
}

#[test]
fn special_tokens_are_listed_in_id_order() {
    let all = SpecialToken::all();
    assert_eq!(all.len(), SPECIAL_TOKEN_COUNT);
    for (i, t) in all.iter().enumerate() {
        assert_eq!(t.id(), i);
    }
    assert_eq!(SpecialToken::Pad.id(), IGNORE_ID);
    assert_eq!(SpecialToken::TurnClose.id() as i64, TURN_END_ID);
    for (i, a) in all.iter().enumerate() {
        for b in &all[..i] {
            assert_ne!(a.as_str(), b.as_str());
        }
    }
}

#[test]
fn roles_read_back_from_chatml() {
    assert_eq!(Role::from_chatml("user"), Some(Role::User));
    assert_eq!(Role::from_chatml("assistant"), Some(Role::Model));
    assert_eq!(Role::from_chatml("tool"), Some(Role::Tool));
    assert_eq!(Role::from_chatml("model"), None);
    assert_eq!(Role::from_chatml("User"), None);
}

#[test]
fn messages_carry_role_and_thinking() {
    let m = Message::assistant("4").with_thinking("add them");
    assert_eq!(m.role, Role::Model);
    assert_eq!(m.content, "4");
    assert_eq!(m.thinking.as_deref(), Some("add them"));
    assert_eq!(Message::tool("x").role, Role::Tool);
    assert_eq!(Message::developer("x").role, Role::Developer);
    assert_eq!(Message::new(Role::User, "x").thinking, None);
}

#[test]
fn a_single_turn_prompt_renders_exactly() {
    assert_eq!(
        render_prompt("2+2?"),
        "<|turn>user\n2+2?<turn|>\n<|turn>model\n"
    );
    assert_eq!(try_render_prompt("2+2?"), Some(render_prompt("2+2?")));
    assert_eq!(
        try_render(&[Message::system("s"), Message::user("u"), Message::assistant("a")], false, true),
        Some("<|turn>system\n<|think|>\ns<turn|>\n<|turn>user\nu<turn|>\n<|turn>model\na<turn|>\n".to_string())
    );
}

#[test]
fn an_empty_conversation_renders_to_the_open_turn() {
    assert_eq!(try_render(&[], true, false), Some("<|turn>model\n".to_string()));
    assert_eq!(try_render(&[], false, false), Some(String::new()));
}

#[test]
fn special_tokens_do_not_nest() {
    for a in SpecialToken::all() {
        for b in SpecialToken::all() {
            assert_eq!(b.as_str().contains(a.as_str()), a.id() == b.id());
        }
    }
}
