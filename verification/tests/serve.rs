use gabriel_laevis::chat::Role;
use gabriel_laevis::json::Json;
use gabriel_laevis::serve::{
    chat_history, chat_prompt, chunk, encode, last_chunk, models, request_limit, request_thinks,
    ChatMessage, Piece, ReasoningEffort, Reply, Responder, ServerEvent, DONE_MARK,
};
use gabriel_laevis::tokenizer::{load_tokenizer, TextTokenizer};
use std::sync::Arc;

const OPEN: i64 = 6;
const CLOSE: i64 = 7;

/// A tokenizer over letters and some marks, one id per character, the lower-case ones from 10 on.
fn letters() -> Arc<TextTokenizer> {
    let mut vocab = String::from("\"\u{100}\":0");
    for (i, c) in "ABCDEFGHIabcdefghijklmnopqrstuvwxyz<>|\u{120}\u{10a}\u{c3}\u{a9}".chars().enumerate() {
        vocab.push_str(&format!(",\"{c}\":{}", i + 1));
    }
    let json = format!(
        r#"{{"version":"1.0","truncation":null,"padding":null,"added_tokens":[],"normalizer":null,
        "pre_tokenizer":{{"type":"ByteLevel","add_prefix_space":false,"trim_offsets":true,"use_regex":false}},
        "post_processor":null,
        "decoder":{{"type":"ByteLevel","add_prefix_space":true,"trim_offsets":true,"use_regex":true}},
        "model":{{"type":"BPE","dropout":null,"unk_token":null,"continuing_subword_prefix":null,
        "end_of_word_suffix":null,"fuse_unk":false,"byte_fallback":false,"ignore_merges":false,
        "vocab":{{{vocab}}},"merges":[]}}}}"#
    );
    Arc::new(load_tokenizer(&json, 1).unwrap_or_else(|e| panic!("{e:?}")))
}

fn ids(s: &str) -> Vec<i64> {
    s.bytes().map(|b| (b - b'a') as i64 + 10).collect()
}

/// The value as JSON text, fields in the order they are held.
fn show(v: &Json) -> String {
    match v {
        Json::Null => "null".to_string(),
        Json::Bool(b) => b.to_string(),
        Json::Number(n) => n.clone(),
        Json::Text(s) => format!("{s:?}"),
        Json::List(items) => {
            let inner: Vec<String> = items.iter().map(show).collect();
            format!("[{}]", inner.join(","))
        }
        Json::Object(fields) => {
            let inner: Vec<String> = fields.iter().map(|(k, v)| format!("{k:?}:{}", show(v))).collect();
            format!("{{{}}}", inner.join(","))
        }
    }
}

fn turn(role: &str, content: &str) -> ChatMessage {
    ChatMessage { role: role.to_string(), content: content.to_string() }
}

/// Drains tokens as the server does: the streamed chunks, and the whole response.
fn drain(tokens: &[i64], chat: bool, stop: &[&str]) -> (Vec<String>, String) {
    let mut r = Responder::new(&letters(), stop.iter().map(|s| s.to_string()).collect());
    let mut chunks = Vec::new();
    for &t in tokens {
        let piece = r.accept(t);
        if let Some(c) = chunk(chat, &piece) {
            chunks.push(show(&c));
        }
        if r.is_done() {
            break;
        }
    }
    (chunks, show(&r.response(chat)))
}

#[test]
fn effort_toggles_thinking() {
    assert!(request_thinks(None));
    assert!(!request_thinks(Some(ReasoningEffort::Off)));
    for e in [
        ReasoningEffort::Minimal,
        ReasoningEffort::Low,
        ReasoningEffort::Medium,
        ReasoningEffort::High,
        ReasoningEffort::Xhigh,
    ] {
        assert!(e.enable_thinking());
    }
}

#[test]
fn requests_without_a_limit_get_the_default() {
    assert_eq!(request_limit(None), 256);
    assert_eq!(request_limit(Some(0)), 0);
    assert_eq!(request_limit(Some(7)), 7);
}

#[test]
fn history_keeps_user_and_assistant_turns() {
    let h = chat_history(&vec![
        turn("system", "s"),
        turn("user", "u"),
        turn("assistant", "a"),
        turn("tool", "t"),
        turn("model", "m"),
    ]);
    let got: Vec<(Role, &str)> = h.iter().map(|m| (m.role, m.content.as_str())).collect();
    assert_eq!(got, vec![(Role::User, "u"), (Role::Model, "a")]);
    let h = chat_history(&vec![turn("system", "s")]);
    assert_eq!(h.len(), 1);
    assert_eq!((h[0].role, h[0].content.as_str()), (Role::User, ""));
}

#[test]
fn chat_prompts_open_the_model_turn() {
    let p = chat_prompt(&vec![turn("user", "hi")], Some(ReasoningEffort::Off)).unwrap();
    assert_eq!(p, "<|turn>user\nhi<turn|>\n<|turn>model\n");
    let p = chat_prompt(&vec![turn("user", "hi")], None).unwrap();
    assert!(p.starts_with("<|turn>system\n<|think|>"));
}

#[test]
fn prompts_are_encoded_or_explained() {
    assert_eq!(encode(&letters(), "cab"), Ok(vec![12, 10, 11]));
    let e = encode(&letters(), "\u{6}").unwrap_err();
    assert!(e.starts_with("encode: ") && e.len() > "encode: ".len());
}

#[test]
fn the_thought_goes_to_its_own_field() {
    let mut tokens = vec![OPEN];
    tokens.extend(ids("hm"));
    tokens.push(CLOSE);
    tokens.extend(ids("yo"));
    let (chunks, whole) = drain(&tokens, true, &[]);
    assert_eq!(
        chunks[0],
        r#"{"id":"gabriel-laevis","object":"chat.completion.chunk","model":"gabriel-laevis","choices":[{"index":0,"delta":{"reasoning_content":"h"},"finish_reason":null}]}"#
    );
    assert_eq!(
        chunks[3],
        r#"{"id":"gabriel-laevis","object":"chat.completion.chunk","model":"gabriel-laevis","choices":[{"index":0,"delta":{"content":"o"},"finish_reason":null}]}"#
    );
    assert_eq!(chunks.len(), 4);
    assert_eq!(
        whole,
        r#"{"id":"gabriel-laevis","object":"chat.completion","model":"gabriel-laevis","choices":[{"index":0,"message":{"role":"assistant","content":"yo","reasoning_content":"hm"},"finish_reason":"stop"}]}"#
    );

    let (chunks, whole) = drain(&tokens, false, &[]);
    assert_eq!(chunks.len(), 2, "raw completions drop the thought");
    assert_eq!(
        chunks[0],
        r#"{"id":"gabriel-laevis","object":"text_completion","model":"gabriel-laevis","choices":[{"index":0,"text":"y","finish_reason":null}]}"#
    );
    assert_eq!(
        whole,
        r#"{"id":"gabriel-laevis","object":"text_completion","model":"gabriel-laevis","choices":[{"index":0,"text":"yo","finish_reason":"stop"}]}"#
    );
}

#[test]
fn a_reply_without_thought_has_no_field_for_it() {
    let (_, whole) = drain(&ids("yo"), true, &[]);
    assert!(whole.contains(r#""message":{"role":"assistant","content":"yo"}"#));
}

#[test]
fn stop_strings_match_the_answer_only() {
    let mut tokens = vec![OPEN];
    tokens.extend(ids("stop"));
    tokens.push(CLOSE);
    tokens.extend(ids("gostopnow"));
    let (chunks, whole) = drain(&tokens, false, &["", "stop"]);
    assert_eq!(chunks.len(), 6, "ends with the piece that completes the stop string");
    assert!(whole.contains(r#""text":"gostop""#));
}

#[test]
fn pieces_follow_the_open_channel() {
    let mut r = Responder::new(&letters(), vec![]);
    assert!(matches!(r.accept(OPEN), Piece::Nothing));
    assert!(matches!(r.accept(10), Piece::Reasoning(t) if t == "a"));
    assert!(matches!(r.accept(CLOSE), Piece::Nothing));
    assert!(matches!(r.accept(9999), Piece::Nothing), "an unknown id reads as nothing");
    assert!(matches!(r.accept(11), Piece::Content(_)));
}

#[test]
fn incomplete_text_waits() {
    // The two bytes of one character are ids 41 and 42: the first completes nothing.
    let mut r = Responder::new(&letters(), vec![]);
    assert!(matches!(r.accept(41), Piece::Nothing));
    assert!(matches!(r.accept(42), Piece::Content(t) if t == "\u{e9}"));
}

#[test]
fn requests_read_like_training_rows() {
    assert_eq!(
        chat_prompt(&vec![turn("user", "hi")], Some(ReasoningEffort::Off)),
        Some(gabriel_laevis::chat::render_prompt("hi"))
    );
    assert_eq!(
        chat_prompt(&vec![turn("system", "s"), turn("user", "hi")], None),
        chat_prompt(&vec![turn("user", "hi"), turn("tool", "t")], None)
    );
}

#[test]
fn streams_end_with_a_reason() {
    assert_eq!(
        show(&last_chunk(true)),
        r#"{"id":"gabriel-laevis","object":"chat.completion.chunk","model":"gabriel-laevis","choices":[{"index":0,"delta":{},"finish_reason":"stop"}]}"#
    );
    assert_eq!(
        show(&last_chunk(false)),
        r#"{"id":"gabriel-laevis","object":"text_completion","model":"gabriel-laevis","choices":[{"index":0,"text":"","finish_reason":"stop"}]}"#
    );
}

#[test]
fn the_model_is_listed() {
    assert_eq!(
        show(&models()),
        r#"{"object":"list","data":[{"id":"gabriel-laevis","object":"model","owned_by":"local"}]}"#
    );
}

/// The data of every event of a streamed reply, and the whole response to the same tokens.
fn events(tokens: &[i64], chat: bool, stop: &[&str]) -> (Vec<String>, String) {
    let mut reply = Reply::new(&letters(), stop.iter().map(|s| s.to_string()).collect(), chat);
    let mut data: Vec<String> = Vec::new();
    for &t in tokens {
        data.extend(reply.accept(t).iter().map(show));
    }
    let whole = show(&reply.response());
    for e in reply.close() {
        data.push(match e {
            ServerEvent::Chunk(c) => show(&c),
            ServerEvent::Done => DONE_MARK.to_string(),
        });
    }
    (data, whole)
}

#[test]
fn a_stream_is_chunks_then_a_reason_then_the_mark() {
    let (data, whole) = events(&[OPEN, 10, CLOSE, 11, 12], true, &[]);
    assert_eq!(data.len(), 5);
    assert!(data[0].contains(r#""delta":{"reasoning_content":"a"},"finish_reason":null"#));
    assert!(data[1].contains(r#""delta":{"content":"b"},"finish_reason":null"#));
    assert!(data[2].contains(r#""delta":{"content":"c"},"finish_reason":null"#));
    assert!(data[3].contains(r#""delta":{},"finish_reason":"stop""#));
    assert_eq!(data[4], "[DONE]");
    assert!(whole.contains(r#""content":"bc""#) && whole.contains(r#""reasoning_content":"a""#));
}

#[test]
fn a_stopped_stream_ignores_what_follows() {
    let (data, whole) = events(&ids("abcd"), false, &["b"]);
    assert_eq!(data.len(), 4);
    assert!(data[1].contains(r#""text":"b","finish_reason":null"#));
    assert_eq!(data[3], DONE_MARK);
    assert!(whole.contains(r#""text":"ab""#));
}

#[test]
fn an_empty_stream_still_ends() {
    let (data, _) = events(&[], true, &[]);
    assert_eq!(data, vec![show(&last_chunk(true)), "[DONE]".to_string()]);
}
