use gabriel_laevis::batch::GrpoBatcher;
use gabriel_laevis::grpo::{
    any_solved, cut_prompt, grpo_example, pack_group, reward, rollout_or_empty, score_group,
    solve_counts, GrpoExample, Reward,
};
use gabriel_laevis::tokenizer::{load_tokenizer, TextTokenizer};
use std::sync::Arc;

fn digits() -> TextTokenizer {
    let mut vocab = String::from("\"\u{100}\":0");
    let mut id = 1;
    for c in "0123456789abcdefghijklmnopqrstuvwxyz-?<>|".chars().chain(['\u{120}', '\u{10a}']) {
        vocab.push_str(&format!(",\"{c}\":{id}"));
        id += 1;
    }
    let json = format!(
        r#"{{"version":"1.0","truncation":null,"padding":null,"added_tokens":[],"normalizer":null,
        "pre_tokenizer":{{"type":"ByteLevel","add_prefix_space":false,"trim_offsets":true,"use_regex":false}},
        "post_processor":null,
        "decoder":{{"type":"ByteLevel","add_prefix_space":true,"trim_offsets":true,"use_regex":true}},
        "model":{{"type":"BPE","dropout":null,"unk_token":null,"continuing_subword_prefix":null,
        "end_of_word_suffix":null,"fuse_unk":false,"byte_fallback":false,"ignore_merges":false,
        "vocab":{{{vocab}}},"merges":[]}}}}"#
    );
    load_tokenizer(&json, 1).unwrap_or_else(|e| panic!("{e:?}"))
}

fn ids(tok: &TextTokenizer, s: &str) -> Vec<i64> {
    tok.encode(s).unwrap().into_iter().map(|x| x as i64).collect()
}

#[test]
fn rewards_have_three_levels() {
    assert_eq!(reward("so 42", "42"), Reward::Solved);
    assert_eq!(reward("so 41", "42"), Reward::Parsed);
    assert_eq!(reward("so what", "42"), Reward::Nothing);
}

#[test]
fn groups_are_scored_by_what_they_decode_to() {
    let tok = digits();
    let group = vec![ids(&tok, "is 42"), ids(&tok, "is 7"), ids(&tok, "no"), vec![]];
    assert_eq!(
        score_group(&tok, &group, "42"),
        vec![Reward::Solved, Reward::Parsed, Reward::Nothing, Reward::Nothing]
    );
    assert!(any_solved(&score_group(&tok, &group, "7")));
    assert!(!any_solved(&score_group(&tok, &group, "8")));
}

#[test]
fn a_failed_rollout_scores_as_empty_completions() {
    assert_eq!(rollout_or_empty(None), vec![Vec::<i64>::new(); 4]);
    assert_eq!(rollout_or_empty(Some(vec![vec![1]])), vec![vec![1]]);
}

#[test]
fn groups_pack_into_padded_rows() {
    let p = pack_group(&vec![7, 8], &vec![vec![1, 2, 3], vec![4], vec![]]).unwrap();
    assert_eq!((p.rows, p.width), (3, 4));
    assert_eq!(p.inputs, vec![7, 8, 1, 2, 7, 8, 0, 0, 7, 0, 0, 0]);
    assert_eq!(p.targets, vec![0, 1, 2, 3, 0, 4, 0, 0, 0, 0, 0, 0]);
    assert!(pack_group(&vec![7, 8], &vec![vec![], vec![]]).is_none());
    assert!(pack_group(&vec![], &vec![]).is_none());
}

#[test]
fn solved_prompts_are_counted() {
    let tok = digits();
    let answers = vec!["1".to_string(), "2".to_string(), "3".to_string()];
    let rewards = vec![
        vec![Reward::Parsed, Reward::Solved],
        vec![Reward::Parsed, Reward::Nothing],
        vec![Reward::Solved],
    ];
    let greedy = vec![ids(&tok, "1"), ids(&tok, "is 2"), ids(&tok, "x")];
    let c = solve_counts(&tok, &answers, &rewards, &greedy);
    assert_eq!((c.pass1, c.pass_k, c.total), (2, 2, 3));
}

#[test]
fn prompts_are_cut_to_their_budget() {
    assert_eq!(cut_prompt((0..300).collect()), (0..256).collect::<Vec<i64>>());
    assert_eq!(cut_prompt(vec![1, 2]), vec![1, 2]);
    let tok = digits();
    let e = grpo_example(&tok, "what is 2", "2".to_string()).unwrap();
    assert_eq!(e.answer, "2");
    assert_eq!(e.prompt, ids(
            &tok,
            "<|turn>system\n<|think|>\n<turn|>\n<|turn>user\nwhat is 2<turn|>\n<|turn>model\n"
        ));
    assert!(grpo_example(&tok, "\u{6}", "2".to_string()).is_err());
}

#[test]
fn grpo_batches_keep_order() {
    let batcher = GrpoBatcher { tokenizer: Arc::new(digits()) };
    let b = batcher.batch(vec![
        GrpoExample { prompt: vec![1, 2], answer: "a".into() },
        GrpoExample { prompt: vec![3], answer: "b".into() },
    ]);
    assert_eq!(b.prompts, vec![vec![1, 2], vec![3]]);
    assert_eq!(b.answers, vec!["a", "b"]);
    assert!(Arc::ptr_eq(&b.tokenizer, &batcher.tokenizer));
}
