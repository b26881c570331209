use gabriel_laevis::json::{json_text, Json};
use gabriel_laevis::steps::Step::{Bytes, Cutting, Dropping, Isolating, Unknown};
use gabriel_laevis::steps::{has_fitting_ids, is_clear, read_steps, text_limit};
use gabriel_laevis::tokenizer::{encode_ids, load_tokenizer, runnable_text, LoadError, TOO_LONG};

fn text(s: &str) -> Json {
    Json::Text(s.to_string())
}

fn object(fields: Vec<(&str, Json)>) -> Json {
    Json::Object(fields.into_iter().map(|(k, v)| (k.to_string(), v)).collect())
}

fn split(behavior: Option<&str>, invert: Option<bool>) -> Json {
    let mut fields = vec![("type", text("Split"))];
    fields.extend(behavior.map(|b| ("behavior", text(b))));
    fields.extend(invert.map(|b| ("invert", Json::Bool(b))));
    object(fields)
}

fn sequence(entries: Vec<Json>) -> Json {
    object(vec![("type", text("Sequence")), ("pretokenizers", Json::List(entries))])
}

fn bytes() -> Json {
    object(vec![("type", text("ByteLevel"))])
}

#[test]
fn steps_are_read_flat() {
    assert_eq!(read_steps(&Json::Null), vec![]);
    assert_eq!(read_steps(&bytes()), vec![Bytes]);
    let nested = sequence(vec![
        split(None, None),
        sequence(vec![split(Some("Removed"), Some(false)), bytes()]),
        split(Some("Isolated"), Some(true)),
        split(Some("Contiguous"), None),
        split(None, Some(true)),
    ]);
    assert_eq!(
        read_steps(&nested),
        vec![
            Isolating,
            Dropping,
            Bytes,
            Cutting,
            Cutting,
            Cutting
        ]
    );
    assert_eq!(read_steps(&object(vec![("type", text("Sequence"))])), vec![]);
    let odd = [
        Json::List(vec![text("ByteLevel")]),
        object(vec![("type", Json::Number("4".to_string()))]),
        object(vec![("type", text("Whitespace"))]),
        object(vec![("type", text("Sequence")), ("pretokenizers", Json::Null)]),
        object(vec![("type", text("Split")), ("behavior", object(vec![("Removed", Json::Null)]))]),
        object(vec![("type", text("Split")), ("invert", Json::Null)]),
    ];
    for v in odd {
        assert_eq!(read_steps(&v), vec![Unknown], "{v:?}");
    }
}

#[test]
fn dropping_before_isolating_is_not_clear() {
    assert!(is_clear(&vec![]));
    assert!(is_clear(&vec![Isolating, Cutting, Dropping, Dropping, Bytes]));
    assert!(!is_clear(&vec![Dropping, Isolating]));
    assert!(!is_clear(&vec![Dropping, Cutting, Bytes, Isolating]));
    assert!(!is_clear(&vec![Bytes, Unknown]));
}

#[test]
fn long_texts_need_a_second_processor() {
    let trained = || object(vec![("pre_tokenizer", sequence(vec![split(None, None), bytes()]))]);
    assert_eq!(text_limit(&trained(), 1), 16383);
    assert_eq!(text_limit(&trained(), 0), 16383);
    assert_eq!(text_limit(&trained(), 2), 0x7fff_ffff / 4);
    let late = object(vec![("pre_tokenizer", sequence(vec![bytes(), split(None, None)]))]);
    assert_eq!(text_limit(&late, 1), 16383 / 4);
    let plain = object(vec![("pre_tokenizer", bytes()), ("normalizer", Json::Null)]);
    assert_eq!(text_limit(&plain, 1), 0x7fff_ffff / 4);
    let normal = object(vec![
        ("pre_tokenizer", split(None, None)),
        ("normalizer", object(vec![("type", text("NFC"))])),
    ]);
    assert_eq!(text_limit(&normal, 1), 5461);
    assert_eq!(text_limit(&object(vec![]), 1), 0x7fff_ffff);
}

#[test]
fn ids_must_fit_in_a_table() {
    let id = |n: &str| Json::Number(n.to_string());
    let entry = |v: Json| object(vec![("added_tokens", Json::List(vec![v]))]);
    assert!(has_fitting_ids(&object(vec![])));
    assert!(has_fitting_ids(&entry(object(vec![("id", id("7"))]))));
    assert!(has_fitting_ids(&entry(Json::List(vec![]))));
    assert!(has_fitting_ids(&entry(object(vec![("id", id("-1"))]))), "refused by the builder");
    assert!(!has_fitting_ids(&entry(object(vec![("id", id("4294967295"))]))));
    assert!(!has_fitting_ids(&entry(Json::List(vec![id("4294967295"), text("a")]))));
}

/// A description with this pre-tokenizer and these added tokens.
fn description(pre: &str, added: &str) -> String {
    format!(
        r#"{{"added_tokens":{added},"pre_tokenizer":{pre},
        "model":{{"type":"BPE","vocab":{{"1":0,"2":1,"12":2," ":3}},"merges":["1 2"]}}}}"#
    )
}

const DIGITS: &str = r#"{"type":"Digits","individual_digits":true}"#;

fn seq_of(entries: &[&str]) -> String {
    format!(r#"{{"type":"Sequence","pretokenizers":[{}]}}"#, entries.join(","))
}

#[test]
fn what_cannot_be_run_is_not_loaded() {
    let removed =
        r#"{"type":"Split","pattern":{"Regex":"\\s+"},"behavior":"Removed","invert":false}"#;
    let load = |pre: &str, added: &str| load_tokenizer(&description(pre, added), 2);
    assert!(matches!(load(&seq_of(&[removed, DIGITS]), "[]"), Err(LoadError::Steps)));
    assert!(load(&seq_of(&[DIGITS, removed]), "[]").is_ok());
    assert!(load(removed, "[]").is_ok());
    let big = r#"[{"id":4294967295,"content":"a"}]"#;
    assert!(matches!(load("null", big), Err(LoadError::Ids)));
    assert!(matches!(load("null", r#"[[4294967295,"a"]]"#), Err(LoadError::Ids)));
    assert!(load("null", r#"[{"id":9,"content":"a"}]"#).is_ok());
    assert!(matches!(load(r#"{"type":"Whitespace"}"#, "[]"), Err(LoadError::Build(_))));
}

#[test]
fn a_text_that_is_too_long_is_refused() {
    let raw = description(&seq_of(&[DIGITS]), "[]");
    let Ok(tok) = load_tokenizer(&raw, 1) else { panic!("not loaded") };
    assert_eq!(encode_ids(&tok, &"1".repeat(16383)), Ok(vec![0; 16383]));
    assert_eq!(encode_ids(&tok, &"1".repeat(16384)), Err(TOO_LONG.to_string()));
    assert_eq!(encode_ids(&tok, ""), Ok(vec![]));
}

#[test]
fn a_repeated_long_text_encodes_the_same() {
    let raw = description(&seq_of(&[DIGITS]), "[]");
    let Ok(tok) = load_tokenizer(&raw, 1) else { panic!("not loaded") };
    let text = format!("{}12", " ".repeat(4096));
    let first = encode_ids(&tok, &text);
    assert!(matches!(&first, Ok(ids) if ids.len() == 4098));
    assert_eq!(encode_ids(&tok, &text), first);
}

#[test]
fn a_description_is_kept_in_runnable_form() {
    let raw = r#"{"b": 1, "a": [true, null, "x"], "pre_tokenizer": {"pretokenizers": [{"type": "Digits"}]}}"#;
    let Ok(kept) = runnable_text(raw) else { panic!("no JSON") };
    assert_eq!(
        kept,
        r#"{"a":[true,null,"x"],"b":1,"pre_tokenizer":{"pretokenizers":[{"behavior":"Isolated","invert":false,"pattern":{"Regex":"\\d"},"type":"Split"}]}}"#
    );
    assert_eq!(runnable_text(&kept).ok(), Some(kept), "nothing is left to rewrite");
    assert!(matches!(runnable_text("{"), Err(LoadError::Parse(_))));
}

#[test]
fn values_are_written_as_json() {
    let v = object(vec![
        ("n", Json::Number("-7".to_string())),
        ("odd", Json::Number("null".to_string())),
        ("s", text("a\"b")),
    ]);
    assert_eq!(json_text(v), r#"{"n":-7,"odd":"null","s":"a\"b"}"#);
}
