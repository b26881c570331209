//! How training runs are cut up: checkpoint schedules, resuming, held-out windows and base
//! checkpoints.

use crate::data::lemma_find_at;
use crate::text::{
    chars_of, decimal, find_chars, find_from, is_digit, law_decimal_reads_back,
    law_find_is_the_first_place, law_only_numerals_are_read, occurs_at, parse_usize, parsed_usize,
};
use vstd::prelude::*;

verus! {

broadcast use vstd::string::group_string_axioms;

/// Every stage checkpoints and resumes on this step interval.
pub const STEPS_PER_CHECKPOINT: usize = 1000;

/// Held-out pretraining windows.
pub const VALID_WINDOWS: usize = 64;

/// Rows per step, and held-out rows, of instruction tuning.
pub const SFT_BATCH_SIZE: usize = 8;

pub const VALID_ROWS: usize = 64;

/// Rows per step of reasoning tuning, whose rows are long.
pub const REASON_BATCH_SIZE: usize = 4;

/// Pairs per step, and held-out pairs, of preference optimization.
pub const DPO_BATCH_SIZE: usize = 4;

pub const VALID_EXAMPLES: usize = 64;

/// How a run is sliced for checkpointing, in checkpoint epochs of equally many steps.
#[derive(Clone, Copy, Debug, PartialEq, Eq, Structural)]
pub struct Schedule {
    /// Number of checkpoint epochs, that is, of saves.
    pub ckpt_epochs: usize,
    /// Samples drawn per checkpoint epoch.
    pub epoch_samples: usize,
    /// Total optimizer steps across the whole run.
    pub total_steps: usize,
}

/// `x`, and at least one.
pub open spec fn at_least_one(x: int) -> int {
    if x < 1 {
        1
    } else {
        x
    }
}

/// The steps of one pass: as many whole batches as the items fill, and at least one. A batch size
/// of 0 counts as 1.
pub open spec fn steps_per_pass(n_items: int, batch: int) -> int {
    if batch <= 1 {
        at_least_one(n_items)
    } else if n_items < batch {
        1
    } else {
        n_items / batch
    }
}

/// The steps that a run asks for: those of a pass times the passes, of which there is at least one.
pub open spec fn requested_steps(n_items: int, batch: int, passes: int) -> int {
    if passes <= 1 {
        steps_per_pass(n_items, batch)
    } else {
        steps_per_pass(n_items, batch) * passes
    }
}

/// The steps of a checkpoint epoch: the fixed interval, or the whole run if that is shorter.
pub open spec fn steps_per_epoch(requested: int) -> int {
    if requested < STEPS_PER_CHECKPOINT {
        requested
    } else {
        STEPS_PER_CHECKPOINT as int
    }
}

/// The checkpoint epochs that cover the requested steps.
pub open spec fn epochs_for(requested: int) -> int {
    if requested < STEPS_PER_CHECKPOINT {
        1
    } else {
        (requested + STEPS_PER_CHECKPOINT - 1) / (STEPS_PER_CHECKPOINT as int)
    }
}

/// The steps of all checkpoint epochs together.
pub open spec fn total_steps(requested: int) -> int {
    if requested < STEPS_PER_CHECKPOINT {
        requested
    } else {
        epochs_for(requested) * STEPS_PER_CHECKPOINT
    }
}

/// Whether every number of a schedule fits.
pub open spec fn schedule_fits(n_items: int, batch: int, passes: int) -> bool {
    let requested = requested_steps(n_items, batch, passes);
    &&& total_steps(requested) <= usize::MAX
    &&& steps_per_epoch(requested) * batch <= usize::MAX
}

/// The schedule of a run.
pub open spec fn schedules(s: Schedule, n_items: int, batch: int, passes: int) -> bool {
    let requested = requested_steps(n_items, batch, passes);
    &&& s.ckpt_epochs == epochs_for(requested)
    &&& s.epoch_samples == steps_per_epoch(requested) * batch
    &&& s.total_steps == total_steps(requested)
}

proof fn lemma_requested(n_items: int, batch: int, passes: int)
    requires
        0 <= n_items,
        0 <= batch,
    ensures
        1 <= steps_per_pass(n_items, batch) <= requested_steps(n_items, batch, passes),
        n_items >= 1 ==> steps_per_pass(n_items, batch) <= n_items,
{
    let spp = steps_per_pass(n_items, batch);
    if batch > 1 && n_items >= batch {
        assert(1 <= n_items / batch <= n_items) by (nonlinear_arith)
            requires
                n_items >= batch > 1,
        ;
    }
    if passes > 1 {
        assert(spp <= spp * passes) by (nonlinear_arith)
            requires
                1 <= spp,
                1 < passes,
        ;
    }
}

/// A run asks for at least one step; its epochs cover what it asks for, with less than one epoch to
/// spare; no epoch is longer than the interval, so that no interruption loses more; and a run
/// shorter than that is one epoch, not stretched.
pub proof fn law_schedule_covers_the_run(n_items: int, batch: int, passes: int)
    requires
        0 <= n_items,
        0 <= batch,
    ensures
        ({
            let requested = requested_steps(n_items, batch, passes);
            let epoch = steps_per_epoch(requested);
            &&& 1 <= requested
            &&& 1 <= epoch <= STEPS_PER_CHECKPOINT
            &&& 1 <= epochs_for(requested)
            &&& total_steps(requested) == epochs_for(requested) * epoch
            &&& requested <= total_steps(requested) < requested + epoch
            &&& requested <= STEPS_PER_CHECKPOINT ==> epochs_for(requested) == 1 && total_steps(
                requested,
            ) == requested
        }),
{
    lemma_requested(n_items, batch, passes);
}

/// Slices a run of `passes` over `n_items`, batched by `batch`, into checkpoint epochs of equally
/// many steps. The interval is capped at the requested length, so that a short run is not
/// stretched.
pub fn schedule(n_items: usize, batch: usize, passes: usize) -> (r: Schedule)
    requires
        schedule_fits(n_items as int, batch as int, passes as int),
    ensures
        schedules(r, n_items as int, batch as int, passes as int),
{
    try_schedule(n_items, batch, passes).unwrap()
}

/// Like [`schedule`], with `None` where one of its numbers would not fit.
pub fn try_schedule(n_items: usize, batch: usize, passes: usize) -> (r: Option<Schedule>)
    ensures
        match r {
            Some(s) => schedule_fits(n_items as int, batch as int, passes as int) && schedules(
                s,
                n_items as int,
                batch as int,
                passes as int,
            ),
            None => !schedule_fits(n_items as int, batch as int, passes as int),
        },
{
    proof {
        lemma_requested(n_items as int, batch as int, passes as int);
    }
    let per_pass: usize = if batch <= 1 {
        if n_items == 0 {
            1
        } else {
            n_items
        }
    } else if n_items < batch {
        1
    } else {
        n_items / batch
    };
    let requested: usize = if passes <= 1 {
        per_pass
    } else {
        match per_pass.checked_mul(passes) {
            Some(requested) => requested,
            None => return None,
        }
    };
    let (ckpt_epochs, epoch): (usize, usize) = if requested < STEPS_PER_CHECKPOINT {
        (1, requested)
    } else {
        let spare: usize = if requested % STEPS_PER_CHECKPOINT == 0 {
            0
        } else {
            1
        };
        (requested / STEPS_PER_CHECKPOINT + spare, STEPS_PER_CHECKPOINT)
    };
    proof {
        let (n, e) = (ckpt_epochs as int, epoch as int);
        assert(n * e == total_steps(requested as int)) by {
            if requested < STEPS_PER_CHECKPOINT {
                assert(1 * e == e);
            } else {
                assert(n == epochs_for(requested as int));
                assert(e == 1000);
            }
        }
    }
    match (ckpt_epochs.checked_mul(epoch), epoch.checked_mul(batch)) {
        (Some(total_steps), Some(epoch_samples)) => Some(
            Schedule { ckpt_epochs, epoch_samples, total_steps },
        ),
        _ => None,
    }
}

/// What the name of a checkpoint file starts with.
pub const CHECKPOINT_PREFIX: &'static str = "model-";

/// The epoch in the name of a checkpoint file: the number between the prefix and the first dot.
pub open spec fn epoch_in_name(name: Seq<char>) -> Option<usize> {
    let n = CHECKPOINT_PREFIX@.len() as int;
    if !CHECKPOINT_PREFIX@.is_prefix_of(name) {
        None
    } else {
        match find_from(name, seq!['.'], n) {
            Some(dot) => parsed_usize(name.subrange(n, dot)),
            None => None,
        }
    }
}

/// The epoch in the name of a checkpoint file.
pub fn checkpoint_epoch(name: &str) -> (r: Option<usize>)
    ensures
        r == epoch_in_name(name@),
{
    let cs = chars_of(name);
    let prefix = chars_of(CHECKPOINT_PREFIX);
    let mut dot: Vec<char> = Vec::new();
    dot.push('.');
    assert(dot@ =~= seq!['.']);
    if cs.len() < prefix.len() {
        return None;
    }
    let mut i: usize = 0;
    while i < prefix.len()
        invariant
            cs@ == name@,
            prefix@ == CHECKPOINT_PREFIX@,
            prefix.len() <= cs.len(),
            i <= prefix.len(),
            forall|j: int| 0 <= j < i ==> cs@[j] == #[trigger] prefix@[j],
        decreases prefix.len() - i,
    {
        if cs[i] != prefix[i] {
            assert(name@.subrange(0, prefix@.len() as int)[i as int] != prefix@[i as int]);
            return None;
        }
        i += 1;
    }
    assert(name@.subrange(0, prefix@.len() as int) =~= prefix@);
    assert(prefix@.is_prefix_of(name@));
    match find_chars(&cs, &dot, prefix.len()) {
        Some(at) => parse_usize(&cs, prefix.len(), at),
        None => None,
    }
}

/// The latest epoch among these file names.
pub open spec fn latest_in(names: Seq<Seq<char>>) -> Option<usize>
    decreases names.len(),
{
    if names.len() == 0 {
        None
    } else {
        match (latest_in(names.drop_last()), epoch_in_name(names.last())) {
            (Some(a), Some(b)) => if a < b {
                Some(b)
            } else {
                Some(a)
            },
            (Some(a), None) => Some(a),
            (None, e) => e,
        }
    }
}

/// The latest epoch is the epoch of some file, no file's epoch is later, and there is none only
/// where no file is a checkpoint.
pub proof fn law_latest_is_the_maximum(names: Seq<Seq<char>>)
    ensures
        forall|i: int|
            0 <= i < names.len() ==> (epoch_in_name(#[trigger] names[i]) matches Some(e) ==> (
            latest_in(names) matches Some(l) && e <= l)),
        latest_in(names) matches Some(l) ==> exists|i: int|
            0 <= i < names.len() && epoch_in_name(#[trigger] names[i]) == Some(l),
    decreases names.len(),
{
    if names.len() > 0 {
        let rest = names.drop_last();
        law_latest_is_the_maximum(rest);
        assert(forall|i: int| 0 <= i < rest.len() ==> #[trigger] rest[i] == names[i]);
        assert(forall|i: int| 0 <= i < rest.len() ==> #[trigger] names[i] == rest[i]);
        if let Some(l) = latest_in(names) {
            if epoch_in_name(names.last()) == Some(l) {
                assert(names[names.len() - 1] == names.last());
            } else {
                let i = choose|i: int|
                    0 <= i < rest.len() && epoch_in_name(#[trigger] rest[i]) == Some(l);
                assert(epoch_in_name(names[i]) == Some(l));
            }
        }
    }
}

/// Latest epoch with a saved checkpoint among these file names, or `None` if there is nothing to
/// resume from.
pub fn latest_checkpoint_epoch(names: &Vec<String>) -> (r: Option<usize>)
    ensures
        r == latest_in(names.deep_view()),
{
    let ghost all = names.deep_view();
    let mut latest: Option<usize> = None;
    let mut i: usize = 0;
    while i < names.len()
        invariant
            all == names.deep_view(),
            i <= names.len(),
            latest == latest_in(all.take(i as int)),
        decreases names.len() - i,
    {
        assert(all.take(i + 1).drop_last() =~= all.take(i as int));
        assert(all.take(i + 1).last() == names[i as int]@);
        let found = checkpoint_epoch(names[i].as_str());
        latest = match (latest, found) {
            (Some(a), Some(b)) => if a < b {
                Some(b)
            } else {
                Some(a)
            },
            (Some(a), None) => Some(a),
            (None, e) => e,
        };
        i += 1;
    }
    assert(all.take(all.len() as int) =~= all);
    latest
}

/// The epoch to resume from: the latest checkpoint, unless the run was told what to start from.
pub fn resume_epoch(from: Option<&str>, names: &Vec<String>) -> (r: Option<usize>)
    ensures
        r == match from {
            Some(_) => None,
            None => latest_in(names.deep_view()),
        },
{
    match from {
        Some(_) => None,
        None => latest_checkpoint_epoch(names),
    }
}

/// Which windows a pretraining run uses: `0..n_train` to train on and `n_train..budget` held out.
#[derive(Clone, Copy, Debug, PartialEq, Eq, Structural)]
pub struct PretrainPlan {
    pub budget: usize,
    pub n_train: usize,
    /// Samples drawn per validation, at least one.
    pub valid_samples: usize,
}

/// The windows that a budget of tokens pays for: as many full ones as fit, at least one and at most
/// all; all of them for a budget of 0.
pub open spec fn budget_windows(max_tokens: int, seq_len: int, total: int) -> int {
    if max_tokens == 0 {
        total
    } else {
        let n = at_least_one(max_tokens / (seq_len + 1));
        if n < total {
            n
        } else {
            total
        }
    }
}

/// The windows held out of a budget.
pub open spec fn valid_windows(budget: int) -> int {
    if (VALID_WINDOWS as int) < budget / 5 {
        VALID_WINDOWS as int
    } else {
        budget / 5
    }
}

/// Plans a pretraining run over `total` windows with a budget of `max_tokens` tokens. The held-out
/// windows are the tail of the budget, on a window boundary, so that no token is in both parts.
pub fn pretrain_plan(max_tokens: usize, seq_len: usize, total: usize) -> (r: PretrainPlan)
    requires
        seq_len < usize::MAX,
        max_tokens != 0 ==> total >= 1,
    ensures
        r.budget == budget_windows(max_tokens as int, seq_len as int, total as int),
        r.n_train == r.budget - valid_windows(r.budget as int),
        r.valid_samples == at_least_one(valid_windows(r.budget as int)),
{
    let budget: usize = if max_tokens == 0 {
        total
    } else {
        let whole: usize = max_tokens / (seq_len + 1);
        let n: usize = if whole == 0 {
            1
        } else {
            whole
        };
        if n < total {
            n
        } else {
            total
        }
    };
    let fifth: usize = budget / 5;
    let valid: usize = if VALID_WINDOWS < fifth {
        VALID_WINDOWS
    } else {
        fifth
    };
    let valid_samples: usize = if valid == 0 {
        1
    } else {
        valid
    };
    PretrainPlan { budget, n_train: budget - valid, valid_samples }
}

/// A plan stays within the corpus and within the token budget (but for the one window that every
/// budget pays for), and trains on at least four fifths of it.
pub proof fn law_pretrain_plan_is_within_budget(max_tokens: int, seq_len: int, total: int)
    requires
        0 <= max_tokens,
        0 <= seq_len,
        0 <= total,
        max_tokens != 0 ==> total >= 1,
    ensures
        ({
            let budget = budget_windows(max_tokens, seq_len, total);
            &&& 0 <= valid_windows(budget)
            &&& valid_windows(budget) * 5 <= budget
            &&& budget <= total
            &&& max_tokens >= seq_len + 1 ==> budget * (seq_len + 1) <= max_tokens
            &&& total >= 1 ==> budget - valid_windows(budget) >= 1
        }),
{
    let w = seq_len + 1;
    let budget = budget_windows(max_tokens, seq_len, total);
    if max_tokens >= w {
        let q = max_tokens / w;
        assert(q >= 1 && q * w <= max_tokens) by (nonlinear_arith)
            requires
                q == max_tokens / w,
                max_tokens >= w,
                w > 0,
        ;
        assert(budget * w <= q * w) by (nonlinear_arith)
            requires
                budget <= q,
                w > 0,
        ;
    }
}

/// A stage that starts from an earlier stage's model.
#[derive(Clone, Copy, Debug, PartialEq, Eq, Structural)]
pub enum Stage {
    Sft,
    Reason,
    Dpo,
    Grpo,
}

/// The checkpoint that a stage starts from: the one it was told, or else the one that its upstream
/// stage leaves. Of the two upstream stages of GRPO the later counts if it has run.
pub open spec fn base_name(stage: Stage, from: Option<Seq<char>>, has_dpo: bool) -> Seq<char> {
    match from {
        Some(name) => name,
        None => match stage {
            Stage::Sft => "model"@,
            Stage::Reason => "model_sft"@,
            Stage::Dpo => "model_sft"@,
            Stage::Grpo => if has_dpo {
                "model_dpo"@
            } else {
                "model_sft"@
            },
        },
    }
}

/// The checkpoint that a stage starts from.
pub fn base_checkpoint(stage: Stage, from: Option<&str>, has_dpo: bool) -> (r: String)
    ensures
        r@ == base_name(stage, crate::chat::option_str(from), has_dpo),
{
    match from {
        Some(name) => name.to_owned(),
        None => match stage {
            Stage::Sft => "model".to_owned(),
            Stage::Reason => "model_sft".to_owned(),
            Stage::Dpo => "model_sft".to_owned(),
            Stage::Grpo => if has_dpo {
                "model_dpo".to_owned()
            } else {
                "model_sft".to_owned()
            },
        },
    }
}

/// The rows to load from each of two subsets: half of the budget, and at least one.
pub fn per_subset(max_examples: usize) -> (r: usize)
    ensures
        r == at_least_one(max_examples as int / 2),
{
    let half: usize = max_examples / 2;
    if half == 0 {
        1
    } else {
        half
    }
}

/// A number is kept where it is at least one, and becomes one otherwise.
pub proof fn law_at_least_one(x: int)
    ensures
        at_least_one(x) >= 1,
        at_least_one(x) == x || (x < 1 && at_least_one(x) == 1),
{
}

/// One pass takes as many steps as there are whole batches among the items, and one where there is
/// none; a run takes the steps of a pass as often as it makes one, and makes at least one.
pub proof fn law_steps_are_whole_batches(n_items: int, batch: int, passes: int)
    requires
        0 <= n_items,
        0 <= batch,
        0 <= passes,
    ensures
        ({
            let size = at_least_one(batch);
            let steps = steps_per_pass(n_items, batch);
            &&& n_items < size ==> steps == 1
            &&& n_items >= size ==> steps * size <= n_items < (steps + 1) * size
            &&& requested_steps(n_items, batch, passes) == steps * at_least_one(passes)
        }),
{
    let steps = steps_per_pass(n_items, batch);
    if batch > 1 && n_items >= batch {
        assert((n_items / batch) * batch <= n_items < (n_items / batch + 1) * batch)
            by (nonlinear_arith)
            requires
                n_items >= batch > 1,
        ;
    }
    assert(steps * 1 == steps);
    if passes <= 1 {
        assert(at_least_one(passes) == 1);
    }
}

/// An epoch is as long as the interval of a thousand steps, and only a shorter run's is shorter;
/// it draws as many samples as its steps take, and all epochs together make up the run's steps.
pub proof fn law_epochs_are_as_long_as_the_interval(
    s: Schedule,
    n_items: int,
    batch: int,
    passes: int,
)
    requires
        0 <= n_items,
        0 <= batch,
        schedules(s, n_items, batch, passes),
    ensures
        ({
            let requested = requested_steps(n_items, batch, passes);
            let epoch = if requested < 1000 {
                requested
            } else {
                1000
            };
            &&& s.epoch_samples == epoch * batch
            &&& s.total_steps == s.ckpt_epochs * epoch
            &&& s.total_steps - epoch < requested <= s.total_steps
        }),
{
    law_schedule_covers_the_run(n_items, batch, passes);
}

/// The name of a checkpoint file gives back the epoch that it was written with, whatever follows
/// the dot.
pub proof fn law_checkpoint_names_give_their_epoch(epoch: usize, rest: Seq<char>)
    ensures
        epoch_in_name("model-"@ + decimal(epoch as nat) + seq!['.'] + rest) == Some(epoch),
{
    let prefix = "model-"@;
    let number = decimal(epoch as nat);
    let name = prefix + number + seq!['.'] + rest;
    let n = prefix.len() as int;
    law_decimal_reads_back(epoch as nat);
    assert(name.subrange(0, n) =~= prefix);
    assert(prefix.is_prefix_of(name));
    let at = (n + number.len()) as int;
    assert(name.subrange(at, at + 1) =~= seq!['.']);
    assert forall|j: int| n <= j < at implies !#[trigger] occurs_at(name, seq!['.'], j) by {
        assert(name[j] == number[j - n]);
        assert(is_digit(number[j - n]));
        assert(name.subrange(j, j + 1)[0] == name[j]);
    }
    lemma_find_at(name, seq!['.'], n, at);
    assert(name.subrange(n, at) =~= number);
}

/// A file that does not begin with `model-`, has no dot after it, or has anything but a number in
/// between is no checkpoint.
pub proof fn law_other_names_are_no_checkpoints(name: Seq<char>, k: int, dot: int)
    ensures
        !"model-"@.is_prefix_of(name) ==> epoch_in_name(name) is None,
        (forall|j: int| 6 <= j < name.len() ==> #[trigger] name[j] != '.') ==> epoch_in_name(
            name,
        ) is None,
        6 < k < dot < name.len() && name[dot] == '.' && !('0' <= name[k] <= '9') && name[k] != '.'
            && (forall|j: int| 6 <= j < dot ==> #[trigger] name[j] != '.') ==> epoch_in_name(
            name,
        ) is None,
        6 < name.len() && name[6] == '.' ==> epoch_in_name(name) is None,
{
    reveal_strlit("model-");
    let n = "model-"@.len() as int;
    assert(n == 6);
    law_find_is_the_first_place(name, seq!['.'], n);
    if let Some(d) = find_from(name, seq!['.'], n) {
        assert(name.subrange(d, d + 1)[0] == '.');
        assert(name[d] == '.');
        let number = name.subrange(n, d);
        if 6 < k < dot < name.len() && name[dot] == '.' && (forall|j: int|
            6 <= j < dot ==> #[trigger] name[j] != '.') {
            if d > dot {
                assert(name.subrange(dot, dot + 1) =~= seq!['.']);
            }
            assert(d == dot);
            assert(number[k - n] == name[k]);
            law_only_numerals_are_read(number, k - n);
        }
        if name[6] == '.' {
            if d > 6 {
                assert(name.subrange(6, 7) =~= seq!['.']);
            }
            assert(number =~= Seq::empty());
            law_only_numerals_are_read(number, 0);
        }
    }
}

/// A budget pays for all the windows it can: for every one where it is 0, and otherwise one more
/// would go over the budget or past the corpus, but for the one that every budget pays for.
pub proof fn law_budgets_are_used_up(max_tokens: int, seq_len: int, total: int)
    requires
        0 <= max_tokens,
        0 <= seq_len,
        1 <= total,
    ensures
        max_tokens == 0 ==> budget_windows(max_tokens, seq_len, total) == total,
        max_tokens > 0 ==> {
            let n = budget_windows(max_tokens, seq_len, total);
            &&& 1 <= n <= total
            &&& n == total || max_tokens < (n + 1) * (seq_len + 1)
            &&& n == 1 || n * (seq_len + 1) <= max_tokens
        },
{
    let (m, w) = (max_tokens, seq_len + 1);
    assert((m / w) * w <= m && m < (m / w + 1) * w && 0 <= m / w) by (nonlinear_arith)
        requires
            0 <= m,
            0 < w,
    ;
    let n = budget_windows(m, seq_len, total);
    if m > 0 && n < m / w {
        assert(n * w <= (m / w) * w) by (nonlinear_arith)
            requires
                n <= m / w,
                0 < w,
        ;
    }
    if m > 0 && m / w == 0 {
        assert(m < w);
        assert(2 * w >= w);
    }
}

/// As many windows are held out as may be: 64, unless that is over a fifth of the budget.
pub proof fn law_held_out_windows(budget: int)
    requires
        0 <= budget,
    ensures
        0 <= valid_windows(budget) <= 64,
        5 * valid_windows(budget) <= budget,
        valid_windows(budget) == 64 || budget < 5 * (valid_windows(budget) + 1),
{
}

/// A stage starts from the checkpoint it is told; without one, each starts from what the stage
/// before it leaves, and only the last has a choice: the preferred model where there is one.
pub proof fn law_stages_start_from_the_stage_before(
    stage: Stage,
    name: Seq<char>,
    has_dpo: bool,
)
    ensures
        base_name(stage, Some(name), has_dpo) == name,
        base_name(Stage::Sft, None, has_dpo) == "model"@,
        base_name(Stage::Reason, None, has_dpo) == "model_sft"@,
        base_name(Stage::Dpo, None, has_dpo) == "model_sft"@,
        base_name(Stage::Grpo, None, true) == "model_dpo"@,
        base_name(Stage::Grpo, None, false) == "model_sft"@,
{
}

/// A run is refused only where its steps, or the samples of an epoch, are too many to number.
pub proof fn law_runs_are_refused_only_for_size(n_items: int, batch: int, passes: int)
    requires
        0 <= n_items,
        0 <= batch,
        0 <= passes,
        !schedule_fits(n_items, batch, passes),
    ensures
        ({
            let requested = requested_steps(n_items, batch, passes);
            ||| requested + 1000 > usize::MAX
            ||| requested < 1000 && requested * batch > usize::MAX
            ||| requested >= 1000 && 1000 * batch > usize::MAX
        }),
{
    law_schedule_covers_the_run(n_items, batch, passes);
}

} // verus!
