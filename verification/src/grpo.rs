//! Group-relative policy optimization: rewards of sampled completions, the rows that score a group,
//! and the held-out solve counts.

use crate::batch::lemma_flatten_uniform;
use crate::chat::{single_turn, single_turn_checked, IGNORE_ID};
use crate::constants::{GRPO_GROUP_SIZE, GRPO_PROMPT_LEN};
use crate::eval::{
    answers, extract_last_int, gsm8k_correct, last_int, law_last_int_is_a_number, SolveCounts,
};
use crate::text::str_eq;
use crate::tokenizer::{
    completion_reading, decode_or_empty, encode_ids, encodes, fails_with, signed, TextTokenizer,
};
use vstd::prelude::*;

verus! {

broadcast use vstd::string::group_string_axioms;

/// Prompts per step.
pub const GRPO_BATCH_SIZE: usize = 4;

/// Held-out prompts.
pub const VALID_PROMPTS: usize = 32;

/// Verifiable reward of a completion, from none to full.
#[derive(Clone, Copy, Debug, PartialEq, Eq, Structural)]
pub enum Reward {
    /// No integer at all: 0.
    Nothing,
    /// Some integer, but not the answer: a small shaping reward of a tenth.
    Parsed,
    /// The answer: 1.
    Solved,
}

impl DeepView for Reward {
    type V = Reward;

    open spec fn deep_view(&self) -> Reward {
        *self
    }
}

/// The reward of a completion that reads this way.
pub open spec fn earned(completion: Seq<char>, answer: Seq<char>) -> Reward {
    match last_int(completion) {
        Some(n) => if n == answer {
            Reward::Solved
        } else {
            Reward::Parsed
        },
        None => Reward::Nothing,
    }
}

/// Full reward is for correct completions and for no others.
pub proof fn law_full_reward_is_correctness(completion: Seq<char>, answer: Seq<char>)
    ensures
        earned(completion, answer) == Reward::Solved <==> answers(completion, answer),
{
}

/// Verifiable reward: full for the correct integer, a small shaping reward for any integer, none
/// otherwise.
pub fn reward(completion: &str, answer: &str) -> (r: Reward)
    ensures
        r == earned(completion@, answer@),
{
    match extract_last_int(completion) {
        Some(n) => if str_eq(n.as_str(), answer) {
            Reward::Solved
        } else {
            Reward::Parsed
        },
        None => Reward::Nothing,
    }
}

/// Rewards of one prompt's group of completions, each decoded without its special tokens.
pub fn score_group(tok: &TextTokenizer, group: &Vec<Vec<i64>>, answer: &str) -> (r: Vec<
    Reward,
>)
    ensures
        r@ == group.deep_view().map_values(
            |ids: Seq<i64>| earned(completion_reading(*tok, ids), answer@),
        ),
{
    let ghost all = group.deep_view();
    let mut out: Vec<Reward> = Vec::new();
    let mut i: usize = 0;
    while i < group.len()
        invariant
            all == group.deep_view(),
            i <= group.len(),
            out.len() == i,
            forall|j: int|
                0 <= j < i ==> #[trigger] out[j] == earned(
                    completion_reading(*tok, all[j]),
                    answer@,
                ),
        decreases group.len() - i,
    {
        let text = decode_or_empty(tok, &group[i]);
        assert(all[i as int] =~= group[i as int]@);
        out.push(reward(text.as_str(), answer));
        i += 1;
    }
    assert(out@ =~= all.map_values(
        |ids: Seq<i64>| earned(completion_reading(*tok, ids), answer@),
    ));
    out
}

/// The group to score after a rollout: the sampled completions, or, where sampling failed, as many
/// empty ones.
pub fn rollout_or_empty(sampled: Option<Vec<Vec<i64>>>) -> (r: Vec<Vec<i64>>)
    ensures
        match sampled {
            Some(group) => r == group,
            None => r.len() == GRPO_GROUP_SIZE && forall|i: int|
                0 <= i < r.len() ==> (#[trigger] r[i])@.len() == 0,
        },
{
    match sampled {
        Some(group) => group,
        None => {
            let mut out: Vec<Vec<i64>> = Vec::new();
            let mut i: usize = 0;
            while i < GRPO_GROUP_SIZE
                invariant
                    i <= GRPO_GROUP_SIZE,
                    out.len() == i,
                    forall|j: int| 0 <= j < i ==> (#[trigger] out[j])@.len() == 0,
                decreases GRPO_GROUP_SIZE - i,
            {
                out.push(Vec::new());
                i += 1;
            }
            out
        },
    }
}

/// The next-token input row of one completion: the prompt and the completion without its last
/// token, then padding. An empty completion's row holds the prompt without its last token.
pub open spec fn input_row(prompt: Seq<i64>, comp: Seq<i64>, width: int) -> Seq<i64> {
    let text = (prompt + comp).drop_last();
    Seq::new(
        width as nat,
        |j: int|
            if j < text.len() {
                text[j]
            } else {
                IGNORE_ID as i64
            },
    )
}

/// The target row of one completion: its tokens, shifted to where the model predicts them, and
/// padding everywhere else.
pub open spec fn target_row(prompt_len: int, comp: Seq<i64>, width: int) -> Seq<i64> {
    Seq::new(
        width as nat,
        |j: int|
            if prompt_len - 1 <= j < prompt_len - 1 + comp.len() {
                comp[j - (prompt_len - 1)]
            } else {
                IGNORE_ID as i64
            },
    )
}

/// The length of the longest of these completions.
pub open spec fn longest(group: Seq<Seq<i64>>) -> nat
    decreases group.len(),
{
    if group.len() == 0 {
        0
    } else {
        let rest = longest(group.drop_last());
        if group.last().len() > rest {
            group.last().len()
        } else {
            rest
        }
    }
}

proof fn lemma_longest(group: Seq<Seq<i64>>)
    ensures
        forall|i: int| 0 <= i < group.len() ==> (#[trigger] group[i]).len() <= longest(group),
    decreases group.len(),
{
    if group.len() > 0 {
        let rest = group.drop_last();
        lemma_longest(rest);
        assert forall|i: int| 0 <= i < group.len() implies (#[trigger] group[i]).len() <= longest(
            group,
        ) by {
            if i < rest.len() {
                assert(rest[i] == group[i]);
            }
        }
    }
}

/// A group of completions as two rectangular, row-major buffers.
pub struct PackedGroup {
    pub rows: usize,
    pub width: usize,
    pub inputs: Vec<i64>,
    pub targets: Vec<i64>,
}

/// Buffers that hold this group: a row per completion, as wide as the longest one needs.
pub open spec fn packs(p: PackedGroup, prompt: Seq<i64>, group: Seq<Seq<i64>>) -> bool {
    let width = prompt.len() + longest(group) - 1;
    &&& p.rows == group.len()
    &&& p.width == width
    &&& p.inputs@ == group.map_values(|c: Seq<i64>| input_row(prompt, c, width)).flatten()
    &&& p.targets@ == group.map_values(
        |c: Seq<i64>| target_row(prompt.len() as int, c, width),
    ).flatten()
}

/// Packs one prompt's group of ragged completions into padded next-token rows. Prompt positions and
/// padding are [`IGNORE_ID`] in the targets, so that only completion tokens carry signal. `None`
/// where the whole group produced no tokens.
pub fn pack_group(prompt: &Vec<i64>, group: &Vec<Vec<i64>>) -> (r: Option<PackedGroup>)
    requires
        longest(group.deep_view()) > 0 ==> 0 < prompt.len() && prompt.len() + longest(
            group.deep_view(),
        ) <= usize::MAX,
    ensures
        match r {
            Some(p) => longest(group.deep_view()) > 0 && packs(p, prompt@, group.deep_view()),
            None => longest(group.deep_view()) == 0,
        },
{
    let ghost all = group.deep_view();
    let mut max_c: usize = 0;
    let mut i: usize = 0;
    while i < group.len()
        invariant
            all == group.deep_view(),
            i <= group.len(),
            max_c == longest(all.take(i as int)),
        decreases group.len() - i,
    {
        let c: usize = group[i].len();
        proof {
            assert(all.take(i + 1).drop_last() =~= all.take(i as int));
            assert(all.take(i + 1).last().len() == c);
        }
        if c > max_c {
            max_c = c;
        }
        i += 1;
    }
    assert(all.take(all.len() as int) =~= all);
    if max_c == 0 {
        return None;
    }
    let p: usize = prompt.len();
    let width: usize = p + max_c - 1;
    let ghost ins = all.map_values(|c: Seq<i64>| input_row(prompt@, c, width as int));
    let ghost tgs = all.map_values(|c: Seq<i64>| target_row(p as int, c, width as int));
    let mut inputs: Vec<i64> = Vec::new();
    let mut targets: Vec<i64> = Vec::new();
    let ignore: i64 = IGNORE_ID as i64;
    let mut row: usize = 0;
    proof {
        assert(ins.take(0) =~= Seq::empty());
        assert(tgs.take(0) =~= Seq::empty());
        lemma_longest(all);
    }
    while row < group.len()
        invariant
            all == group.deep_view(),
            forall|i: int| 0 <= i < all.len() ==> (#[trigger] all[i]).len() <= max_c,
            row <= group.len(),
            p == prompt.len(),
            0 < p,
            p + max_c <= usize::MAX,
            width == p + max_c - 1,
            ignore == IGNORE_ID,
            ins == all.map_values(|c: Seq<i64>| input_row(prompt@, c, width as int)),
            tgs == all.map_values(|c: Seq<i64>| target_row(p as int, c, width as int)),
            inputs@ == ins.take(row as int).flatten(),
            targets@ == tgs.take(row as int).flatten(),
        decreases group.len() - row,
    {
        let comp = &group[row];
        let c: usize = comp.len();
        assert(all[row as int] =~= comp@);
        let ghost in_row = input_row(prompt@, comp@, width as int);
        let ghost tg_row = target_row(p as int, comp@, width as int);
        let ghost ins_before = inputs@;
        let ghost tgs_before = targets@;
        let mut j: usize = 0;
        while j < width
            invariant
                j <= width,
                p == prompt.len(),
                0 < p,
                c == comp.len(),
                p + c <= usize::MAX,
                ignore == IGNORE_ID,
                in_row == input_row(prompt@, comp@, width as int),
                tg_row == target_row(p as int, comp@, width as int),
                inputs@ == ins_before + in_row.take(j as int),
                targets@ == tgs_before + tg_row.take(j as int),
            decreases width - j,
        {
            if j < p && j + 1 < p + c {
                inputs.push(prompt[j]);
            } else if j + 1 < p + c {
                inputs.push(comp[j - p]);
            } else {
                inputs.push(ignore);
            }
            if p - 1 <= j && j < p - 1 + c {
                targets.push(comp[j - (p - 1)]);
            } else {
                targets.push(ignore);
            }
            proof {
                assert(in_row.take(j + 1) =~= in_row.take(j as int).push(in_row[j as int]));
                assert(tg_row.take(j + 1) =~= tg_row.take(j as int).push(tg_row[j as int]));
                assert(inputs@ =~= ins_before + in_row.take(j + 1));
                assert(targets@ =~= tgs_before + tg_row.take(j + 1));
            }
            j += 1;
        }
        proof {
            assert(in_row.take(width as int) =~= in_row);
            assert(tg_row.take(width as int) =~= tg_row);
            ins.take(row as int).lemma_flatten_push(in_row);
            tgs.take(row as int).lemma_flatten_push(tg_row);
            assert(ins.take(row + 1) =~= ins.take(row as int).push(in_row));
            assert(tgs.take(row + 1) =~= tgs.take(row as int).push(tg_row));
        }
        row += 1;
    }
    proof {
        assert(ins.take(ins.len() as int) =~= ins);
        assert(tgs.take(tgs.len() as int) =~= tgs);
    }
    Some(PackedGroup { rows: group.len(), width, inputs, targets })
}

/// A row supervises exactly its completion: the targets from the prompt's last position on are the
/// completion's tokens, every other target is ignored, and wherever a token is predicted the inputs
/// so far are the prompt and the completion's tokens before it.
pub proof fn law_rows_supervise_completions(prompt: Seq<i64>, comp: Seq<i64>, width: int, k: int)
    requires
        0 < prompt.len(),
        prompt.len() + comp.len() - 1 <= width,
        0 <= k < comp.len(),
    ensures
        target_row(prompt.len() as int, comp, width).subrange(
            prompt.len() - 1,
            prompt.len() - 1 + comp.len(),
        ) == comp,
        forall|j: int|
            0 <= j < width && !(prompt.len() - 1 <= j < prompt.len() - 1 + comp.len())
                ==> #[trigger] target_row(prompt.len() as int, comp, width)[j] == IGNORE_ID,
        input_row(prompt, comp, width).take(prompt.len() + k) == prompt + comp.take(k),
{
    let t = target_row(prompt.len() as int, comp, width);
    assert(t.subrange(prompt.len() - 1, prompt.len() - 1 + comp.len()) =~= comp);
    assert(input_row(prompt, comp, width).take(prompt.len() + k) =~= prompt + comp.take(k));
}

/// Held-out counts of a batch: a prompt counts for pass@k when a rollout of its group solved it,
/// and for pass@1 when its greedy completion did.
pub open spec fn pass_k_count(rewards: Seq<Seq<Reward>>) -> nat
    decreases rewards.len(),
{
    if rewards.len() == 0 {
        0
    } else {
        pass_k_count(rewards.drop_last()) + if rewards.last().contains(Reward::Solved) {
            1nat
        } else {
            0
        }
    }
}

/// The prompts whose greedy completion is correct.
pub open spec fn pass_1_count(
    tok: TextTokenizer,
    greedy: Seq<Seq<i64>>,
    answer: Seq<Seq<char>>,
) -> nat
    decreases greedy.len(),
{
    if greedy.len() == 0 {
        0
    } else {
        pass_1_count(tok, greedy.drop_last(), answer) + if answers(
            completion_reading(tok, greedy.last()),
            answer[greedy.len() - 1],
        ) {
            1nat
        } else {
            0
        }
    }
}

/// Whether some completion of a group earned the full reward.
pub fn any_solved(group: &Vec<Reward>) -> (r: bool)
    ensures
        r <==> group@.contains(Reward::Solved),
{
    let mut i: usize = 0;
    while i < group.len()
        invariant
            i <= group.len(),
            forall|j: int| 0 <= j < i ==> group@[j] != Reward::Solved,
        decreases group.len() - i,
    {
        if group[i] == Reward::Solved {
            assert(group@[i as int] == Reward::Solved);
            return true;
        }
        i += 1;
    }
    false
}

/// Counts a batch's solved prompts: by any rollout of the group, and by the greedy completion.
pub fn solve_counts(
    tok: &TextTokenizer,
    answer: &Vec<String>,
    rewards: &Vec<Vec<Reward>>,
    greedy: &Vec<Vec<i64>>,
) -> (r: SolveCounts)
    requires
        answer.len() == rewards.len(),
        answer.len() == greedy.len(),
    ensures
        r.total == answer.len(),
        r.pass_k == pass_k_count(rewards.deep_view()),
        r.pass1 == pass_1_count(*tok, greedy.deep_view(), answer.deep_view()),
        r.pass_k <= r.total,
        r.pass1 <= r.total,
{
    let ghost rs = rewards.deep_view();
    let ghost gs = greedy.deep_view();
    let ghost az = answer.deep_view();
    let mut pass1: usize = 0;
    let mut pass_k: usize = 0;
    let mut i: usize = 0;
    while i < answer.len()
        invariant
            rs == rewards.deep_view(),
            gs == greedy.deep_view(),
            az == answer.deep_view(),
            answer.len() == rewards.len(),
            answer.len() == greedy.len(),
            i <= answer.len(),
            pass1 <= i,
            pass_k <= i,
            pass_k == pass_k_count(rs.take(i as int)),
            pass1 == pass_1_count(*tok, gs.take(i as int), az),
        decreases answer.len() - i,
    {
        proof {
            assert(rs.take(i + 1).drop_last() =~= rs.take(i as int));
            assert(rs.take(i + 1).last() =~= rewards[i as int]@);
            assert(gs.take(i + 1).drop_last() =~= gs.take(i as int));
            assert(gs.take(i + 1).last() =~= greedy[i as int]@);
        }
        if any_solved(&rewards[i]) {
            pass_k += 1;
        }
        let text = decode_or_empty(tok, &greedy[i]);
        if gsm8k_correct(text.as_str(), answer[i].as_str()) {
            pass1 += 1;
        }
        i += 1;
    }
    proof {
        assert(rs.take(rs.len() as int) =~= rs);
        assert(gs.take(gs.len() as int) =~= gs);
    }
    SolveCounts { pass1, pass_k, total: answer.len() }
}

/// One example: a tokenized prompt and its verifiable answer.
#[derive(Debug)]
pub struct GrpoExample {
    pub prompt: Vec<i64>,
    pub answer: String,
}

/// Ids cut to the prompt budget.
pub open spec fn within_budget(ids: Seq<i64>) -> Seq<i64> {
    if ids.len() <= GRPO_PROMPT_LEN {
        ids
    } else {
        ids.take(GRPO_PROMPT_LEN as int)
    }
}

/// Cuts ids to the prompt budget.
pub fn cut_prompt(ids: Vec<i64>) -> (r: Vec<i64>)
    ensures
        r@ == within_budget(ids@),
{
    let mut out = ids;
    out.truncate(GRPO_PROMPT_LEN);
    out
}

/// Why an example could not be built.
#[derive(Debug)]
pub enum PromptError {
    /// The chat template failed on the question.
    Template,
    /// The tokenizer could not encode the prompt, and said this.
    Encode(String),
}

/// Builds an example from a question and its answer: the ids of the prompt, rendered with the
/// thinking cue so that rollouts reason, cut to the prompt budget.
pub fn grpo_example(tok: &TextTokenizer, question: &str, answer: String) -> (r: Result<
    GrpoExample,
    PromptError,
>)
    ensures
        match r {
            Ok(e) => {
                &&& e.answer == answer
                &&& single_turn(question@, true) is Some
                &&& exists|ids: Seq<u32>| #[trigger]
                    encodes(*tok, single_turn(question@, true)->0, Some(ids)) && e.prompt@
                        == within_budget(signed(ids))
            },
            Err(PromptError::Template) => single_turn(question@, true) is None,
            Err(PromptError::Encode(m)) => single_turn(question@, true) is Some && fails_with(
                *tok,
                single_turn(question@, true)->0,
                m@,
            ),
        },
{
    match single_turn_checked(question, true) {
        Some(prompt) => match encode_ids(tok, prompt.as_str()) {
            Ok(ids) => {
                assert(prompt@ == single_turn(question@, true)->0);
                Ok(GrpoExample { prompt: cut_prompt(ids), answer })
            },
            Err(e) => Err(PromptError::Encode(e)),
        },
        None => Err(PromptError::Template),
    }
}

/// The reward of a completion: none exactly where it has no digit at all, full exactly where the
/// number it ends with is the answer, and the shaping reward for every other number.
pub proof fn law_rewards_follow_the_last_number(completion: Seq<char>, answer: Seq<char>)
    ensures
        earned(completion, answer) == Reward::Nothing <==> forall|i: int|
            0 <= i < completion.len() ==> !('0' <= #[trigger] completion[i] <= '9'),
        earned(completion, answer) == Reward::Solved <==> last_int(completion) == Some(answer),
        earned(completion, answer) == Reward::Parsed <==> last_int(completion) is Some && last_int(
            completion,
        ) != Some(answer),
{
    law_last_int_is_a_number(completion);
    if last_int(completion) is Some {
        let i = choose|i: int|
            0 <= i < completion.len() && crate::text::is_digit(#[trigger] completion[i]);
        assert('0' <= completion[i] <= '9');
    } else {
        assert forall|i: int| 0 <= i < completion.len() implies !('0' <= #[trigger] completion[i]
            <= '9') by {
            assert(!crate::text::is_digit(completion[i]));
        }
    }
}

/// The longest length is that of some completion, and no completion is longer; of none it is zero.
pub proof fn law_longest_is_the_maximum(group: Seq<Seq<i64>>)
    ensures
        forall|i: int| 0 <= i < group.len() ==> (#[trigger] group[i]).len() <= longest(group),
        group.len() > 0 ==> exists|i: int|
            0 <= i < group.len() && (#[trigger] group[i]).len() == longest(group),
        group.len() == 0 ==> longest(group) == 0,
    decreases group.len(),
{
    lemma_longest(group);
    if group.len() > 0 {
        let rest = group.drop_last();
        law_longest_is_the_maximum(rest);
        if group.last().len() > longest(rest) || rest.len() == 0 {
            assert(group[group.len() - 1].len() == longest(group));
        } else {
            let i = choose|i: int|
                0 <= i < rest.len() && (#[trigger] rest[i]).len() == longest(rest);
            assert(group[i] == rest[i]);
        }
    }
}

/// Packing loses nothing and mixes nothing up: row `r` of a packed group holds the prompt and then
/// completion `r`, without the last token of the two and with zeros from there on; its targets are
/// completion `r`, from where the prompt's last token stands on, and zeros elsewhere.
pub proof fn law_packed_rows_are_their_completions(
    p: PackedGroup,
    prompt: Seq<i64>,
    group: Seq<Seq<i64>>,
    r: int,
    j: int,
)
    requires
        packs(p, prompt, group),
        0 < prompt.len(),
        0 <= r < group.len(),
        0 <= j < p.width,
    ensures
        p.rows == group.len(),
        p.width == prompt.len() + longest(group) - 1,
        p.inputs@.len() == p.rows * p.width,
        p.targets@.len() == p.rows * p.width,
        ({
            let text = prompt + group[r];
            p.inputs@[r * p.width + j] == if j < text.len() - 1 {
                text[j]
            } else {
                0
            }
        }),
        p.targets@[r * p.width + j] == if prompt.len() - 1 <= j < prompt.len() - 1 + group[r].len() {
            group[r][j - (prompt.len() - 1)]
        } else {
            0
        },
{
    let width = prompt.len() + longest(group) - 1;
    let ins = group.map_values(|c: Seq<i64>| input_row(prompt, c, width));
    let tgs = group.map_values(|c: Seq<i64>| target_row(prompt.len() as int, c, width));
    assert(forall|i: int| 0 <= i < ins.len() ==> (#[trigger] ins[i]).len() == width);
    assert(forall|i: int| 0 <= i < tgs.len() ==> (#[trigger] tgs[i]).len() == width);
    lemma_flatten_uniform(ins, width, r);
    lemma_flatten_uniform(tgs, width, r);
    assert(ins.flatten().subrange(r * width, r * width + width)[j] == ins.flatten()[r * width + j]);
    assert(tgs.flatten().subrange(r * width, r * width + width)[j] == tgs.flatten()[r * width + j]);
    assert(p.rows * p.width == group.len() * width);
}

/// The prompts solved by a rollout are those of which some completion earned the full reward.
pub proof fn law_pass_k_counts_the_solved_groups(rewards: Seq<Seq<Reward>>)
    ensures
        pass_k_count(rewards) == rewards.filter(
            |g: Seq<Reward>| exists|i: int| 0 <= i < g.len() && #[trigger] g[i] == Reward::Solved,
        ).len(),
    decreases rewards.len(),
{
    reveal(Seq::filter);
    if rewards.len() > 0 {
        law_pass_k_counts_the_solved_groups(rewards.drop_last());
        let g = rewards.last();
        assert(g.contains(Reward::Solved) <==> exists|i: int|
            0 <= i < g.len() && #[trigger] g[i] == Reward::Solved);
    }
}

/// The prompts solved greedily are counted one by one: one more for a prompt whose completion,
/// read without its special tokens, ends with that prompt's own answer, and no more for any other.
pub proof fn law_pass_1_counts_the_solved_prompts(
    tok: TextTokenizer,
    greedy: Seq<Seq<i64>>,
    answer: Seq<Seq<char>>,
    ids: Seq<i64>,
    expected: Seq<char>,
)
    requires
        answer.len() == greedy.len(),
    ensures
        pass_1_count(tok, Seq::empty(), answer) == 0,
        pass_1_count(tok, greedy.push(ids), answer.push(expected)) == pass_1_count(
            tok,
            greedy,
            answer,
        ) + if last_int(completion_reading(tok, ids)) == Some(expected) {
            1nat
        } else {
            0
        },
{
    assert(greedy.push(ids).drop_last() =~= greedy);
    lemma_pass_1_reads_its_answers(tok, greedy, answer.push(expected), answer);
}

proof fn lemma_pass_1_reads_its_answers(
    tok: TextTokenizer,
    greedy: Seq<Seq<i64>>,
    a: Seq<Seq<char>>,
    b: Seq<Seq<char>>,
)
    requires
        forall|i: int| 0 <= i < greedy.len() ==> a[i] == b[i],
    ensures
        pass_1_count(tok, greedy, a) == pass_1_count(tok, greedy, b),
    decreases greedy.len(),
{
    if greedy.len() > 0 {
        lemma_pass_1_reads_its_answers(tok, greedy.drop_last(), a, b);
    }
}

/// A prompt that is cut keeps its beginning, as much as the budget of 256 holds.
pub proof fn law_cut_prompts_keep_their_beginning(ids: Seq<i64>)
    ensures
        within_budget(ids).is_prefix_of(ids),
        ids.len() <= 256 ==> within_budget(ids) == ids,
        ids.len() > 256 ==> within_budget(ids).len() == 256,
{
    if ids.len() > 256 {
        assert(within_budget(ids) =~= ids.take(256));
    }
}

} // verus!
