use gabriel_laevis::json::{rewrite_digits_pretokenizer, Json};

fn text(s: &str) -> Json {
    Json::Text(s.to_string())
}

fn object(fields: Vec<(&str, Json)>) -> Json {
    Json::Object(fields.into_iter().map(|(k, v)| (k.to_string(), v)).collect())
}

fn show(v: &Json) -> String {
    format!("{v:?}")
}

fn description(entries: Vec<Json>) -> Json {
    object(vec![
        ("version", text("1.0")),
        (
            "pre_tokenizer",
            object(vec![("type", text("Sequence")), ("pretokenizers", Json::List(entries))]),
        ),
        ("model", object(vec![("size", Json::Number("7".to_string()))])),
    ])
}

fn split(regex: &str) -> Json {
    object(vec![
        ("type", text("Split")),
        ("pattern", object(vec![("Regex", text(regex))])),
        ("behavior", text("Isolated")),
        ("invert", Json::Bool(false)),
    ])
}

#[test]
fn digits_entries_become_splits() {
    let mut v = description(vec![
        object(vec![("type", text("Digits")), ("individual_digits", Json::Bool(true))]),
        object(vec![("type", text("ByteLevel"))]),
        object(vec![("individual_digits", Json::Bool(false)), ("type", text("Digits"))]),
        object(vec![("type", text("Digits"))]),
    ]);
    rewrite_digits_pretokenizer(&mut v);
    let want = description(vec![
        split(r"\d"),
        object(vec![("type", text("ByteLevel"))]),
        split(r"\d+"),
        split(r"\d"),
    ]);
    assert_eq!(show(&v), show(&want));
    rewrite_digits_pretokenizer(&mut v);
    assert_eq!(show(&v), show(&want), "rewriting again changes nothing");
}

#[test]
fn other_descriptions_stay() {
    for make in [
        || Json::Null,
        || object(vec![("model", Json::Null)]),
        || object(vec![("pre_tokenizer", Json::Null)]),
        || object(vec![("pre_tokenizer", object(vec![("type", text("Digits"))]))]),
        || object(vec![("pre_tokenizer", object(vec![("pretokenizers", text("Digits"))]))]),
    ] {
        let mut v = make();
        rewrite_digits_pretokenizer(&mut v);
        assert_eq!(show(&v), show(&make()));
    }
}

#[test]
fn fields_are_looked_up_by_key() {
    let v = description(vec![]);
    assert!(v.get("version").unwrap().is_text("1.0"));
    assert!(!v.get("version").unwrap().is_text("1"));
    assert!(v.get("nothing").is_none());
    assert!(text("x").get("x").is_none());
}
