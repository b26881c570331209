use gabriel_laevis::batch::{DpoBatcher, SftBatcher, TokenBatcher};
use gabriel_laevis::data::{
    column_index, dpo_example, dpo_examples, gsm8k_answer, oasst_first_pair, read_rows,
    build_sft_row, sft_row, split_valid, DpoDataset, DpoExample, GrpoDataset, RowCollector,
    RowError, SftDataset,
};
use gabriel_laevis::grpo::GrpoExample;
use gabriel_laevis::tokenizer::{load_tokenizer, TextTokenizer};

/// A tokenizer over letters, digits and some marks, one id per character, that cannot encode
/// anything else.
fn letters() -> TextTokenizer {
    let mut vocab = String::from("\"\u{100}\":0");
    let mut id = 1;
    let marks = "abcdefghijklmnopqrstuvwxyz0123456789<>|?";
    for c in marks.chars().chain(['\u{120}', '\u{10a}']) {
        vocab.push_str(&format!(",\"{c}\":{id}"));
        id += 1;
    }
    let json = format!(
        r#"{{"version":"1.0","truncation":null,"padding":null,"added_tokens":[],"normalizer":null,
        "pre_tokenizer":{{"type":"ByteLevel","add_prefix_space":false,"trim_offsets":true,"use_regex":false}},
        "post_processor":null,
        "decoder":{{"type":"ByteLevel","add_prefix_space":true,"trim_offsets":true,"use_regex":true}},
        "model":{{"type":"BPE","dropout":null,"unk_token":null,"continuing_subword_prefix":null,
        "end_of_word_suffix":null,"fuse_unk":false,"byte_fallback":false,"ignore_merges":false,
        "vocab":{{{vocab}}},"merges":[]}}}}"#
    );
    load_tokenizer(&json, 1).unwrap_or_else(|e| panic!("{e:?}"))
}

#[test]
fn oasst_pair_parses_first_chatml_exchange() {
    let text = "<|im_start|>user\nName 3 dogs<|im_end|>\n<|im_start|>assistant\nRex, Fido, Spot<|im_end|>\n<|im_start|>user\nmore<|im_end|>\n";
    assert_eq!(
        oasst_first_pair(text),
        Some(("Name 3 dogs".to_string(), "Rex, Fido, Spot".to_string()))
    );
    assert_eq!(oasst_first_pair("no markers here"), None);
}

#[test]
fn a_turn_may_run_to_the_end_but_not_be_empty() {
    assert_eq!(
        oasst_first_pair("<|im_start|>user\n hi \u{a0}<|im_end|><|im_start|>assistant\n\tyo\n"),
        Some(("hi".to_string(), "yo".to_string()))
    );
    assert_eq!(
        oasst_first_pair("<|im_start|>user\n  <|im_end|><|im_start|>assistant\nyo"),
        None
    );
    assert_eq!(oasst_first_pair("<|im_start|>user\nhi<|im_end|>"), None);
}

#[test]
fn split_valid_holds_out_a_disjoint_tail() {
    let (train, valid) = split_valid((0..100).collect::<Vec<i32>>(), 10);
    assert_eq!(valid, (90..100).collect::<Vec<_>>());
    assert_eq!(
        train,
        (0..90).collect::<Vec<_>>(),
        "train + valid disjoint, cover all"
    );
    // Capped at a fifth so a tiny run still has a trainable majority.
    let (train, valid) = split_valid((0..8).collect::<Vec<i32>>(), 10);
    assert_eq!(valid.len(), 1); // 8 / 5
    assert_eq!(train.len(), 7);
}

#[test]
fn columns_are_found_by_name() {
    let names: Vec<String> = vec!["id".into(), "text".into(), "text".into()];
    assert_eq!(column_index(&names, "text"), Ok(1));
    assert_eq!(
        column_index(&names, "answer"),
        Err("parquet missing `answer` column".to_string())
    );
}

#[test]
fn rows_are_collected_up_to_a_cap() {
    let rows = || vec![Some(1), None, Some(2), Some(3), None, Some(4)];
    assert_eq!(read_rows(rows(), 2), vec![1, 2]);
    assert_eq!(read_rows(rows(), 10), vec![1, 2, 3, 4]);
    assert_eq!(read_rows(rows(), 0), Vec::<i32>::new());
    assert_eq!(read_rows(Vec::<Option<i32>>::new(), 3), Vec::<i32>::new());
    let mut c = RowCollector::new(1);
    c.offer(None::<i32>);
    assert!(!c.is_full());
    c.offer(Some(5));
    assert!(c.is_full());
    c.offer(Some(6));
    assert_eq!(c.finish(), vec![5]);
    let mut none = RowCollector::new(0);
    assert!(none.is_full(), "a cap of 0 is reached before the first row");
    none.offer(Some(1));
    assert_eq!(none.finish(), Vec::<i32>::new());
}

#[test]
fn the_final_answer_follows_the_last_mark() {
    assert_eq!(gsm8k_answer("2 + 2 = 4\n#### 4"), "4");
    assert_eq!(gsm8k_answer("#### 1 #### 12,345 "), "12345");
    assert_eq!(gsm8k_answer(" no mark, here "), "no mark here");
    assert_eq!(gsm8k_answer("x #####"), "");
}

#[test]
fn rows_supervise_the_response_alone() {
    // Prompt 11 12 13, response 14 15.
    let full = vec![11, 12, 13, 14, 15];
    let (i, t) = sft_row(&full, 3, 6);
    assert_eq!(i, vec![11, 12, 13, 14, 0, 0]);
    assert_eq!(t, vec![0, 0, 14, 15, 0, 0]);
    let (i, t) = sft_row(&full, 3, 3);
    assert_eq!((i, t), (vec![11, 12, 13], vec![0, 0, 14]));
    let (i, t) = sft_row(&full, 0, 2);
    assert_eq!((i, t), (vec![11, 12], vec![12, 13]));
    assert_eq!(sft_row(&vec![], 0, 2), (vec![0, 0], vec![0, 0]));
}

#[test]
fn an_exchange_becomes_a_row() {
    let tok = letters();
    // `<|turn>user\nhi<turn|>\n<|turn>model\n` has 36 characters, `yo<turn|>\n` has 10.
    let (i, t) = build_sft_row(&tok, "hi", "yo", 50).unwrap();
    assert_eq!((i.len(), t.len()), (50, 50));
    let first = t.iter().position(|&x| x != 0).unwrap();
    assert_eq!(first, 35 - 1);
    assert_eq!(t.iter().filter(|&&x| x != 0).count(), 10);
    assert_eq!(tok.as_raw().decode(&[t[first] as u32, t[first + 1] as u32], false).unwrap(), "yo");
    for j in first..first + 9 {
        assert_eq!(t[j], i[j + 1]);
    }
    assert!(matches!(build_sft_row(&tok, "hi", "\u{6}", 50), Err(RowError::Example(_))));
}

#[test]
fn an_unencodable_side_drops_the_pair() {
    let tok = letters();
    let triples = vec![
        ("q".to_string(), "good".to_string(), "bad".to_string()),
        ("q".to_string(), "GOOD".to_string(), "bad".to_string()),
        ("q".to_string(), "good".to_string(), "BAD".to_string()),
        ("p".to_string(), "x".to_string(), "y".to_string()),
    ];
    let examples = dpo_examples(&tok, &triples, 60);
    assert_eq!(examples.len(), 2);
    let whole = dpo_example(&tok, "p", "x", "y", 60).unwrap();
    assert_eq!(examples[1].chosen, whole.chosen);
    assert_eq!(examples[1].rejected, whole.rejected);
    assert_ne!(whole.chosen.1, whole.rejected.1);
}

#[test]
fn datasets_hand_out_copies() {
    let ds = SftDataset::new(vec![(vec![1], vec![2]), (vec![3], vec![4])]);
    assert_eq!(ds.len(), 2);
    assert_eq!(ds.get(1), Some((vec![3], vec![4])));
    assert_eq!(ds.get(2), None);
    let ds = DpoDataset::new(vec![DpoExample { chosen: (vec![1], vec![2]), rejected: (vec![3], vec![4]) }]);
    assert_eq!(ds.len(), 1);
    assert_eq!(ds.get(0).unwrap().rejected, (vec![3], vec![4]));
    assert!(ds.get(1).is_none());
    let ds = GrpoDataset::new(vec![GrpoExample { prompt: vec![1, 2], answer: "3".into() }]);
    assert_eq!(ds.len(), 1);
    assert_eq!(ds.get(0).unwrap().answer, "3");
    assert!(ds.get(9).is_none());
}

#[test]
fn batches_are_row_major() {
    let b = TokenBatcher { seq_len: 2 }.batch(vec![vec![1, 2, 3], vec![4, 5, 6]]);
    assert_eq!((b.rows, b.cols), (2, 2));
    assert_eq!(b.inputs, vec![1, 2, 4, 5]);
    assert_eq!(b.targets, vec![2, 3, 5, 6]);
    let b = SftBatcher.batch(vec![(vec![1, 2], vec![3, 4]), (vec![5, 6], vec![7, 8])]);
    assert_eq!((b.rows, b.cols), (2, 2));
    assert_eq!(b.inputs, vec![1, 2, 5, 6]);
    assert_eq!(b.targets, vec![3, 4, 7, 8]);
    let e = |k: i64| DpoExample { chosen: (vec![k], vec![k + 1]), rejected: (vec![k + 2], vec![k + 3]) };
    let b = DpoBatcher.batch(vec![e(10), e(20)]);
    assert_eq!((b.rows, b.cols), (2, 1));
    assert_eq!(b.chosen_in, vec![10, 20]);
    assert_eq!(b.chosen_tgt, vec![11, 21]);
    assert_eq!(b.rejected_in, vec![12, 22]);
    assert_eq!(b.rejected_tgt, vec![13, 23]);
    assert_eq!(SftBatcher.batch(vec![]).cols, 0);
}
