use gabriel_laevis::eval::{
    extract_last_int, gsm8k_correct, SolveCounts, SolveKind, SolveRateMetric,
};

#[test]
fn eval_extracts_trailing_answer() {
    assert_eq!(extract_last_int("so 2+2 = 4").as_deref(), Some("4"));
    assert_eq!(extract_last_int("steps: 10, 20, then -5").as_deref(), Some("-5"));
    assert_eq!(extract_last_int("no digits here"), None);
}

#[test]
fn eval_gsm8k_correct_matches_last_int() {
    assert!(gsm8k_correct("the answer is #### 42", "42"));
    assert!(!gsm8k_correct("the answer is 41", "42"));
    // Trailing prose after the number still resolves to the last integer.
    assert!(gsm8k_correct("42 dollars total, so 7 dozen", "7"));
}

#[test]
fn grpo_extracts_trailing_answer() {
    assert_eq!(extract_last_int("so 2+2 = 4").as_deref(), Some("4"));
    assert_eq!(extract_last_int("steps: 10, 20, then -5").as_deref(), Some("-5"));
    assert_eq!(extract_last_int("no digits here"), None);
}

#[test]
fn grpo_gsm8k_correct_matches_last_int() {
    assert!(gsm8k_correct("the answer is #### 42", "42"));
    assert!(!gsm8k_correct("the answer is 41", "42"));
    // Trailing prose after the number still resolves to the last integer.
    assert!(gsm8k_correct("42 dollars total, so 7 dozen", "7"));
}

#[test]
fn a_minus_counts_only_where_a_number_starts() {
    assert_eq!(extract_last_int("5-3").as_deref(), Some("3"));
    assert_eq!(extract_last_int("--5").as_deref(), Some("5"));
    assert_eq!(extract_last_int("a -7 b").as_deref(), Some("-7"));
    assert_eq!(extract_last_int("1 -").as_deref(), Some("1"));
    assert_eq!(extract_last_int("3.14").as_deref(), Some("14"));
    assert_eq!(extract_last_int(""), None);
}

#[test]
fn metrics_pick_their_count() {
    let input = SolveCounts { pass1: 2, pass_k: 3, total: 4 }.adapt();
    let one = SolveRateMetric::pass1();
    let many = SolveRateMetric::pass_k(12);
    assert_eq!(one.name, "Pass@1");
    assert_eq!(many.name, "Pass@12");
    assert_eq!(one.kind, SolveKind::Pass1);
    assert_eq!(one.fraction(&input), (2, 4));
    assert_eq!(many.fraction(&input), (3, 4));
    let none = SolveCounts { pass1: 0, pass_k: 0, total: 0 }.adapt();
    assert_eq!(one.fraction(&none), (0, 1));
}
