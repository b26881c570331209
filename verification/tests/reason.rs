use gabriel_laevis::data::{build_sft_row, RowError};
use gabriel_laevis::reason::{
    question_of, reason_example, reason_row, split_trace, Asked, ReasonExample, REASONING_ON,
    TRACE_CLOSE, TRACE_OPEN,
};
use gabriel_laevis::tokenizer::{load_tokenizer, TextTokenizer};

/// A tokenizer over letters, digits and some marks, one id per character, that cannot encode
/// anything else.
fn letters() -> TextTokenizer {
    let mut vocab = String::from("\"\u{100}\":0");
    let mut id = 1;
    let marks = "abcdefghijklmnopqrstuvwxyz0123456789<>|?";
    for c in marks.chars().chain(['\u{120}', '\u{10a}']) {
        vocab.push_str(&format!(",\"{c}\":{id}"));
        id += 1;
    }
    let json = format!(
        r#"{{"version":"1.0","truncation":null,"padding":null,"added_tokens":[],"normalizer":null,
        "pre_tokenizer":{{"type":"ByteLevel","add_prefix_space":false,"trim_offsets":true,"use_regex":false}},
        "post_processor":null,
        "decoder":{{"type":"ByteLevel","add_prefix_space":true,"trim_offsets":true,"use_regex":true}},
        "model":{{"type":"BPE","dropout":null,"unk_token":null,"continuing_subword_prefix":null,
        "end_of_word_suffix":null,"fuse_unk":false,"byte_fallback":false,"ignore_merges":false,
        "vocab":{{{vocab}}},"merges":[]}}}}"#
    );
    load_tokenizer(&json, 1).unwrap_or_else(|e| panic!("{e:?}"))
}

fn pair(thought: &str, answer: &str) -> Option<(String, String)> {
    Some((thought.to_string(), answer.to_string()))
}

#[test]
fn traces_split_into_thought_and_answer() {
    assert_eq!(split_trace("<think>\n2 and 2\n</think>\n\n4 \n"), pair("2 and 2", "4"));
    assert_eq!(split_trace("so: <think>a<think>b</think>c</think>d"), pair("a<think>b", "c</think>d"));
    for malformed in ["", "4", "<think>a", "a</think>b", "</think>a<think>", "<think> </think>b", "<think>a</think>\n"] {
        assert_eq!(split_trace(malformed), None, "{malformed:?}");
    }
    assert_eq!((TRACE_OPEN, TRACE_CLOSE), ("<think>", "</think>"));
}

#[test]
fn rows_of_the_dataset_become_examples() {
    let e = reason_example(" why? ", "<think>hm</think> so", "on").unwrap();
    assert_eq!((e.question.as_str(), e.thought.as_deref(), e.answer.as_str()), ("why?", Some("hm"), "so"));
    let e = reason_example("why?", " so\n", "off").unwrap();
    assert_eq!((e.question.as_str(), e.thought.as_deref(), e.answer.as_str()), ("why?", None, "so"));
    assert!(reason_example("why?", "so", REASONING_ON).is_none(), "a trace is due");
    assert!(reason_example(" ", "so", "off").is_none());
    assert!(reason_example("why?", "\n", "off").is_none());
}

fn example(thought: Option<&str>, answer: &str) -> ReasonExample {
    ReasonExample {
        question: "hi".to_string(),
        thought: thought.map(str::to_string),
        answer: answer.to_string(),
    }
}

/// The supervised text of a row.
fn supervised(tok: &TextTokenizer, targets: &[i64]) -> String {
    let ids: Vec<u32> = targets.iter().filter(|&&t| t != 0).map(|&t| t as u32).collect();
    tok.as_raw().decode(&ids, false).unwrap()
}

#[test]
fn thoughts_are_cued_and_supervised() {
    let tok = letters();
    let (inputs, targets) = reason_row(&tok, &example(Some("hm"), "yo"), 200).unwrap().unwrap();
    assert_eq!(supervised(&tok, &targets), "<|channel>thought\nhm\n<channel|>yo<turn|>\n");
    let ids: Vec<u32> = inputs.iter().filter(|&&t| t != 0).map(|&t| t as u32).collect();
    assert!(tok.as_raw().decode(&ids, false).unwrap().contains("<|think|>"));
}

#[test]
fn direct_answers_are_plain_rows() {
    let tok = letters();
    let row = reason_row(&tok, &example(None, "yo"), 50).unwrap().unwrap();
    assert_eq!(row, build_sft_row(&tok, "hi", "yo", 50).unwrap());
}

#[test]
fn overlong_rows_are_dropped_not_cut() {
    let tok = letters();
    // The prompt has 35 characters and `yo<turn|>\n` has 10: 44 inputs hold them.
    let (inputs, targets) = reason_row(&tok, &example(None, "yo"), 44).unwrap().unwrap();
    assert_eq!(inputs.iter().filter(|&&t| t != 0).count(), 44);
    assert_eq!(supervised(&tok, &targets), "yo<turn|>\n");
    assert!(reason_row(&tok, &example(None, "yo"), 43).unwrap().is_none());
    assert!(reason_row(&tok, &example(None, "yo"), 0).unwrap().is_none());
}

#[test]
fn an_unencodable_example_is_an_error() {
    let tok = letters();
    assert!(matches!(reason_row(&tok, &example(None, "\u{6}"), 50), Err(RowError::Example(_))));
}

#[test]
fn a_single_question_is_asked() {
    let some = |s: &str| Some(s.to_string());
    assert_eq!(question_of(&Asked::Text("q".to_string())), Some("q"));
    assert_eq!(question_of(&Asked::Messages(vec![some("q")])), Some("q"));
    assert_eq!(question_of(&Asked::Messages(vec![None])), None);
    assert_eq!(question_of(&Asked::Messages(vec![])), None);
    assert_eq!(question_of(&Asked::Messages(vec![some("q"), some("p")])), None);
}
