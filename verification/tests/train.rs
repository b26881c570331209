use gabriel_laevis::train::{
    base_checkpoint, checkpoint_epoch, latest_checkpoint_epoch, per_subset, pretrain_plan,
    resume_epoch, schedule, try_schedule, Stage,
};

#[test]
fn schedule_caps_interval_and_rounds_up() {
    // Short run: interval capped at the requested length, single checkpoint.
    let s = schedule(800, 8, 1); // 100 steps/pass
    assert_eq!(s.ckpt_epochs, 1);
    assert_eq!(s.total_steps, 100);
    assert_eq!(s.epoch_samples, 100 * 8);

    // Long run: sliced into 1000-step checkpoint-epochs, rounded up.
    let s = schedule(40_000, 8, 1); // 5000 steps/pass
    assert_eq!(s.ckpt_epochs, 5);
    assert_eq!(s.total_steps, 5000);
    assert_eq!(s.epoch_samples, 1000 * 8);

    // Non-divisible: rounds up to cover the request (1850 -> 2 x 1000).
    let s = schedule(7400, 4, 1); // 1850 steps/pass
    assert_eq!(s.ckpt_epochs, 2);
    assert_eq!(s.total_steps, 2000);
}

#[test]
fn schedule_handles_degenerate_inputs() {
    let s = schedule(0, 0, 0);
    assert_eq!(s.ckpt_epochs, 1);
    assert_eq!(s.total_steps, 1);
}

#[test]
fn passes_multiply_steps() {
    let s = schedule(100, 8, 3); // 12 steps/pass
    assert_eq!((s.ckpt_epochs, s.epoch_samples, s.total_steps), (1, 288, 36));
    assert_eq!(schedule(5, 0, 1).epoch_samples, 0);
}

#[test]
fn a_schedule_that_does_not_fit_is_refused() {
    assert_eq!(try_schedule(7400, 4, 1), Some(schedule(7400, 4, 1)));
    assert_eq!(try_schedule(0, 0, 0), Some(schedule(0, 0, 0)));
    assert_eq!(try_schedule(usize::MAX, 1, 2), None);
    assert_eq!(try_schedule(usize::MAX, 1, 1), None);
    assert_eq!(try_schedule(1, usize::MAX, 2), None);
}

#[test]
fn checkpoint_names_are_read() {
    assert_eq!(checkpoint_epoch("model-8.mpk"), Some(8));
    assert_eq!(checkpoint_epoch("model-12.tar.gz"), Some(12));
    assert_eq!(checkpoint_epoch("model-+3.mpk"), Some(3));
    assert_eq!(checkpoint_epoch("model-8"), None);
    assert_eq!(checkpoint_epoch("model-.mpk"), None);
    assert_eq!(checkpoint_epoch("model-x.mpk"), None);
    assert_eq!(checkpoint_epoch("optim-8.mpk"), None);
    assert_eq!(checkpoint_epoch("mod"), None);
    assert_eq!(checkpoint_epoch("model-99999999999999999999999.mpk"), None);
}

#[test]
fn the_latest_checkpoint_is_resumed() {
    let names: Vec<String> = ["optim-9.mpk", "model-2.mpk", "model-10.mpk", "model-3.mpk"]
        .iter()
        .map(|s| s.to_string())
        .collect();
    assert_eq!(latest_checkpoint_epoch(&names), Some(10));
    assert_eq!(resume_epoch(None, &names), Some(10));
    assert_eq!(resume_epoch(Some("model"), &names), None);
    assert_eq!(latest_checkpoint_epoch(&Vec::new()), None);
}

#[test]
fn a_pretraining_budget_maps_to_windows() {
    let p = pretrain_plan(0, 7, 1000);
    assert_eq!((p.budget, p.n_train, p.valid_samples), (1000, 936, 64));
    let p = pretrain_plan(800, 7, 1000);
    assert_eq!((p.budget, p.n_train, p.valid_samples), (100, 80, 20));
    let p = pretrain_plan(3, 7, 1000);
    assert_eq!((p.budget, p.n_train, p.valid_samples), (1, 1, 1));
    let p = pretrain_plan(1_000_000, 7, 10);
    assert_eq!((p.budget, p.n_train, p.valid_samples), (10, 8, 2));
    let p = pretrain_plan(0, 7, 0);
    assert_eq!((p.budget, p.n_train, p.valid_samples), (0, 0, 1));
}

#[test]
fn stages_chain_off_their_upstream_model() {
    assert_eq!(base_checkpoint(Stage::Sft, None, true), "model");
    assert_eq!(base_checkpoint(Stage::Reason, None, true), "model_sft");
    assert_eq!(base_checkpoint(Stage::Dpo, None, true), "model_sft");
    assert_eq!(base_checkpoint(Stage::Grpo, None, true), "model_dpo");
    assert_eq!(base_checkpoint(Stage::Grpo, None, false), "model_sft");
    assert_eq!(base_checkpoint(Stage::Grpo, Some("x"), true), "x");
}

#[test]
fn subsets_share_the_budget() {
    assert_eq!(per_subset(10_001), 5000);
    assert_eq!(per_subset(1), 1);
    assert_eq!(per_subset(0), 1);
}
