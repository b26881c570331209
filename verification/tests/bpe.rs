use gabriel_laevis::bpe::{corpus_fits, train_tokenizer, verify, VerifyError};
use gabriel_laevis::chat::{SpecialToken, TURN_END_ID};
use gabriel_laevis::tokenizer::{load_tokenizer, LoadError, TextTokenizer};

fn load(json: &str) -> TextTokenizer {
    load_tokenizer(json, 1).unwrap_or_else(|e| panic!("{e:?}"))
}

#[test]
fn a_trained_tokenizer_passes_its_checks() {
    let texts = vec!["the quick brown fox jumps over the lazy dog ".repeat(20); 3];
    assert!(corpus_fits(&texts));
    let trained = train_tokenizer(&texts, 320).unwrap_or_else(|e| panic!("{e:?}"));
    assert!(trained.size > 280 && trained.size <= 320, "{}", trained.size);
    let tok = load(&trained.json);
    assert_eq!(trained.size, 24 + 256 + 32);
    for s in SpecialToken::all() {
        assert_eq!(tok.encode(s.as_str()).unwrap(), vec![s.id() as u32]);
    }
    assert_eq!(tok.encode(SpecialToken::TurnClose.as_str()).unwrap(), vec![TURN_END_ID as u32]);
    let n = verify(&tok).unwrap_or_else(|e| panic!("{e:?}"));
    assert_eq!(n, tok.encode(gabriel_laevis::bpe::SAMPLE).unwrap().len());
    // Merges were learned: a frequent word is fewer tokens than it has bytes.
    assert!(tok.encode(" quick").unwrap().len() < 6);
}

#[test]
fn a_tokenizer_without_the_sample_is_refused() {
    let tok = load(
        r#"{"version":"1.0","truncation":null,"padding":null,"added_tokens":[],"normalizer":null,
        "pre_tokenizer":{"type":"ByteLevel","add_prefix_space":false,"trim_offsets":true,"use_regex":false},
        "post_processor":null,
        "decoder":{"type":"ByteLevel","add_prefix_space":true,"trim_offsets":true,"use_regex":true},
        "model":{"type":"BPE","dropout":null,"unk_token":null,"continuing_subword_prefix":null,
        "end_of_word_suffix":null,"fuse_unk":false,"byte_fallback":false,"ignore_merges":false,
        "vocab":{"a":0},"merges":[]}}"#,
    );
    assert!(matches!(verify(&tok), Err(VerifyError::EncodeSample)));
}

#[test]
fn a_tokenizer_without_reserved_tokens_is_refused() {
    let texts = vec!["some text".to_string()];
    let json = train_tokenizer(&texts, 300).unwrap_or_else(|e| panic!("{e:?}")).json;
    let mut value: serde_json::Value = serde_json::from_str(&json).unwrap();
    value["added_tokens"] = serde_json::Value::Array(Vec::new());
    let tok = load(&value.to_string());
    assert!(matches!(verify(&tok), Err(VerifyError::TurnEnd(_))));
}

fn description(pre: &str) -> String {
    format!(
        r#"{{"version":"1.0","truncation":null,"padding":null,"added_tokens":[],"normalizer":null,
        "pre_tokenizer":{{"type":"Sequence","pretokenizers":[{pre},
        {{"type":"ByteLevel","add_prefix_space":false,"trim_offsets":true,"use_regex":false}}]}},
        "post_processor":null,
        "decoder":{{"type":"ByteLevel","add_prefix_space":true,"trim_offsets":true,"use_regex":true}},
        "model":{{"type":"BPE","dropout":null,"unk_token":null,"continuing_subword_prefix":null,
        "end_of_word_suffix":null,"fuse_unk":false,"byte_fallback":false,"ignore_merges":false,
        "vocab":{{"1":0,"2":1,"12":2}},"merges":["1 2"]}}}}"#
    )
}

#[test]
fn digit_splitting_survives_loading() {
    // Digits on their own are never merged; runs of digits are.
    let tok = load(&description(r#"{"type":"Digits","individual_digits":true}"#));
    assert_eq!(tok.encode("12").unwrap(), vec![0, 1]);
    let tok = load(&description(r#"{"type":"Digits","individual_digits":false}"#));
    assert_eq!(tok.encode("12").unwrap(), vec![2]);
}

#[test]
fn a_tokenizer_that_cannot_be_loaded_is_explained() {
    assert!(matches!(load_tokenizer("{", 1), Err(LoadError::Parse(m)) if !m.is_empty()));
    assert!(matches!(load_tokenizer("{}", 1), Err(LoadError::Build(m)) if !m.is_empty()));
}
