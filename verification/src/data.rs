//! Training examples: reading rows, holding some out, and turning text into token rows and batches.

use crate::chat::{
    assistant_completion, exchange_text, option_text, rendered_prompt, single_turn_checked,
    IGNORE_ID,
};
use crate::grpo::GrpoExample;
use crate::text::{
    chars_of, find_chars, find_from, law_removal_keeps_the_others, occurs_at, occurs_in,
    remove_char, rfind_chars, rfind_upto, str_eq, trim_chars, trimmed, without,
};
use crate::tokenizer::{encode_ids, encodes, fails_with, signed, TextTokenizer};
use vstd::prelude::*;

verus! {

broadcast use vstd::string::group_string_axioms;

/// The first of these names that is `name`, at or after position `from`.
pub open spec fn name_from(names: Seq<Seq<char>>, name: Seq<char>, from: int) -> Option<int>
    decreases names.len() - from,
{
    if from < 0 || from >= names.len() {
        None
    } else if names[from] == name {
        Some(from)
    } else {
        name_from(names, name, from + 1)
    }
}

/// What a missing column is reported as.
pub open spec fn missing_column(name: Seq<char>) -> Seq<char> {
    "parquet missing `"@ + name + "` column"@
}

/// Index of the column named `name`, or an error that names it.
pub fn column_index(names: &Vec<String>, name: &str) -> (r: Result<usize, String>)
    ensures
        match r {
            Ok(i) => name_from(names.deep_view(), name@, 0) == Some(i as int),
            Err(m) => name_from(names.deep_view(), name@, 0) is None && m@ == missing_column(name@),
        },
{
    let ghost all = names.deep_view();
    let mut i: usize = 0;
    while i < names.len()
        invariant
            all == names.deep_view(),
            i <= names.len(),
            name_from(all, name@, 0) == name_from(all, name@, i as int),
        decreases names.len() - i,
    {
        if str_eq(names[i].as_str(), name) {
            return Ok(i);
        }
        i += 1;
    }
    Err("parquet missing `".to_owned().concat(name).concat("` column"))
}

/// Collects rows up to a cap: what is extracted is kept, what is not is skipped without counting.
pub struct RowCollector<T> {
    rows: Vec<T>,
    max: usize,
}

impl<T> RowCollector<T> {
    /// The rows collected so far.
    pub closed spec fn kept(&self) -> Seq<T> {
        self.rows@
    }

    /// The most rows that are collected.
    pub closed spec fn cap(&self) -> nat {
        self.max as nat
    }

    /// No more rows are held than the cap allows.
    pub closed spec fn wf(&self) -> bool {
        self.rows@.len() <= self.max
    }

    /// A collector that has seen no row.
    pub fn new(max: usize) -> (r: Self)
        ensures
            r.wf(),
            r.kept() == Seq::<T>::empty(),
            r.cap() == max,
    {
        RowCollector { rows: Vec::new(), max }
    }

    /// Whether the cap is reached, so that no further row is to be read.
    pub fn is_full(&self) -> (r: bool)
        requires
            self.wf(),
        ensures
            r == (self.kept().len() == self.cap()),
    {
        self.rows.len() >= self.max
    }

    /// Takes what was extracted from the next row, if there is room for it.
    pub fn offer(&mut self, item: Option<T>)
        requires
            old(self).wf(),
        ensures
            final(self).wf(),
            final(self).cap() == old(self).cap(),
            final(self).kept() == match item {
                Some(x) if old(self).kept().len() < old(self).cap() => old(self).kept().push(x),
                _ => old(self).kept(),
            },
    {
        if let Some(x) = item {
            if self.rows.len() < self.max {
                self.rows.push(x);
            }
        }
    }

    /// The rows collected.
    pub fn finish(self) -> (r: Vec<T>)
        ensures
            r@ == self.kept(),
    {
        self.rows
    }
}

/// The items among what is extracted, in order.
pub open spec fn present<T>(extracted: Seq<Option<T>>) -> Seq<T>
    decreases extracted.len(),
{
    if extracted.len() == 0 {
        Seq::empty()
    } else {
        let before = present(extracted.drop_last());
        match extracted.last() {
            Some(x) => before.push(x),
            None => before,
        }
    }
}

/// The smaller of two numbers.
pub open spec fn smaller(a: nat, b: nat) -> nat {
    if a < b {
        a
    } else {
        b
    }
}

/// What reading rows collects, given what is extracted from each: the first items, up to the cap.
pub open spec fn collected<T>(extracted: Seq<Option<T>>, max: nat) -> Seq<T> {
    present(extracted).take(smaller(max, present(extracted).len()) as int)
}

/// A further row adds its item as long as there is room.
proof fn lemma_collected_push<T>(extracted: Seq<Option<T>>, max: nat, item: Option<T>)
    ensures
        collected(extracted.push(item), max) == match item {
            Some(x) if collected(extracted, max).len() < max => collected(extracted, max).push(x),
            _ => collected(extracted, max),
        },
{
    assert(extracted.push(item).drop_last() =~= extracted);
    let p = present(extracted);
    if let Some(x) = item {
        if p.len() < max {
            assert(collected(extracted.push(item), max) =~= p.push(x));
            assert(collected(extracted, max) =~= p);
        } else {
            assert(collected(extracted.push(item), max) =~= p.take(max as int));
        }
    }
}

/// Reading rows keeps a prefix of what there is, never more than the cap allows, and all of it if
/// that is no more; and once the cap is reached no later row changes anything, so that none needs
/// to be read.
pub proof fn law_collected_is_a_capped_prefix<T>(
    extracted: Seq<Option<T>>,
    later: Seq<Option<T>>,
    max: nat,
)
    ensures
        collected(extracted, max).is_prefix_of(present(extracted)),
        collected(extracted, max).len() == smaller(max, present(extracted).len()),
        collected(extracted, max).len() == max ==> collected(extracted + later, max) == collected(
            extracted,
            max,
        ),
    decreases later.len(),
{
    let c = collected(extracted, max);
    assert(c =~= present(extracted).take(c.len() as int));
    if later.len() > 0 {
        let rest = later.drop_last();
        law_collected_is_a_capped_prefix(extracted, rest, max);
        assert(extracted + later =~= (extracted + rest).push(later.last()));
        lemma_collected_push(extracted + rest, max, later.last());
    } else {
        assert(extracted + later =~= extracted);
    }
}

/// Reads rows: offers what is extracted from each to a collector until it is full.
pub fn read_rows<T>(extracted: Vec<Option<T>>, max: usize) -> (r: Vec<T>)
    ensures
        r@ == collected(extracted@, max as nat),
{
    let ghost all = extracted@;
    let mut collector: RowCollector<T> = RowCollector::new(max);
    let ghost mut k: int = 0;
    assert(collected(all.take(0), max as nat) =~= Seq::empty());
    for item in it: extracted
        invariant
            it.seq() == all,
            k == it.index(),
            collector.wf(),
            collector.cap() == max,
            collector.kept() == collected(all.take(k), max as nat),
    {
        if collector.is_full() {
            proof {
                law_collected_is_a_capped_prefix(all.take(k), all.skip(k), max as nat);
                assert(all.take(k) + all.skip(k) =~= all);
            }
            return collector.finish();
        }
        proof {
            lemma_collected_push(all.take(k), max as nat, item);
            assert(all.take(k + 1) =~= all.take(k).push(item));
        }
        collector.offer(item);
        proof {
            k = k + 1;
        }
    }
    assert(all.take(all.len() as int) =~= all);
    collector.finish()
}

/// How many of `n` rows are held out: up to `max_valid`, and at most a fifth.
pub open spec fn held_out(n: int, max_valid: int) -> int {
    if max_valid < n / 5 {
        max_valid
    } else {
        n / 5
    }
}

/// Splits rows into training rows and a disjoint held-out tail of up to `max_valid` rows, capped at
/// a fifth so that a tiny run keeps a trainable majority.
pub fn split_valid<T>(rows: Vec<T>, max_valid: usize) -> (r: (Vec<T>, Vec<T>))
    ensures
        r.0@ == rows@.take(rows@.len() - held_out(rows@.len() as int, max_valid as int)),
        r.1@ == rows@.skip(rows@.len() - held_out(rows@.len() as int, max_valid as int)),
{
    let mut rows = rows;
    let fifth: usize = rows.len() / 5;
    let n_valid: usize = if max_valid < fifth {
        max_valid
    } else {
        fifth
    };
    let ghost all = rows@;
    let cut: usize = rows.len() - n_valid;
    let valid = rows.split_off(cut);
    assert(rows@ =~= all.take(all.len() - n_valid));
    assert(valid@ =~= all.skip(all.len() - n_valid));
    (rows, valid)
}

/// A split loses nothing, keeps the order, holds out no more than asked, and leaves at least four
/// training rows for every held-out one.
pub proof fn law_split_is_a_partition<T>(rows: Seq<T>, max_valid: int)
    requires
        0 <= max_valid,
    ensures
        0 <= held_out(rows.len() as int, max_valid) <= max_valid,
        rows.take(rows.len() - held_out(rows.len() as int, max_valid)) + rows.skip(
            rows.len() - held_out(rows.len() as int, max_valid),
        ) == rows,
        rows.len() - held_out(rows.len() as int, max_valid) >= 4 * held_out(
            rows.len() as int,
            max_valid,
        ),
{
    let cut = rows.len() - held_out(rows.len() as int, max_valid);
    assert(rows.take(cut) + rows.skip(cut) =~= rows);
}

/// What opens a user turn.
pub const CHATML_USER: &'static str = "<|im_start|>user\n";

/// What opens an assistant turn.
pub const CHATML_ASSISTANT: &'static str = "<|im_start|>assistant\n";

/// What closes a turn.
pub const CHATML_END: &'static str = "<|im_end|>";

/// The content of the first turn that `open` opens: up to its closing mark or the end of the text,
/// without white space around it.
pub open spec fn turn_content(text: Seq<char>, open: Seq<char>) -> Option<Seq<char>> {
    match find_from(text, open, 0) {
        Some(i) => {
            let start = i + open.len();
            let end = match find_from(text, CHATML_END@, start) {
                Some(e) => e,
                None => text.len() as int,
            };
            Some(trimmed(text.subrange(start, end)))
        },
        None => None,
    }
}

/// Content of the first turn opened by `open`, up to its closing mark.
pub fn chatml_turn(text: &str, open: &str) -> (r: Option<String>)
    ensures
        option_text(r) == turn_content(text@, open@),
{
    let cs = chars_of(text);
    let os = chars_of(open);
    let es = chars_of(CHATML_END);
    match find_chars(&cs, &os, 0) {
        Some(i) => {
            let start: usize = i + os.len();
            let end: usize = match find_chars(&cs, &es, start) {
                Some(e) => e,
                None => cs.len(),
            };
            Some(trim_chars(&cs, start, end))
        },
        None => None,
    }
}

/// The first exchange of a thread: its first user turn and its first assistant turn, where both are
/// there and not empty.
pub open spec fn first_pair(text: Seq<char>) -> Option<(Seq<char>, Seq<char>)> {
    match (turn_content(text, CHATML_USER@), turn_content(text, CHATML_ASSISTANT@)) {
        (Some(u), Some(a)) => if u.len() > 0 && a.len() > 0 {
            Some((u, a))
        } else {
            None
        },
        _ => None,
    }
}

/// The first user and assistant exchange of a thread in ChatML.
pub fn oasst_first_pair(text: &str) -> (r: Option<(String, String)>)
    ensures
        match r {
            Some((u, a)) => first_pair(text@) == Some((u@, a@)),
            None => first_pair(text@) is None,
        },
{
    match chatml_turn(text, CHATML_USER) {
        Some(user) => match chatml_turn(text, CHATML_ASSISTANT) {
            Some(assistant) => {
                if user.as_str().unicode_len() > 0 && assistant.as_str().unicode_len() > 0 {
                    Some((user, assistant))
                } else {
                    None
                }
            },
            None => None,
        },
        None => None,
    }
}

/// What stands before the final answer of a worked solution.
pub const ANSWER_MARK: &'static str = "####";

/// The final answer of a worked solution: what follows the last mark, or all of it without one,
/// without white space around it and without commas.
pub open spec fn final_answer(solution: Seq<char>) -> Seq<char> {
    let from = match rfind_upto(solution, ANSWER_MARK@, solution.len() - ANSWER_MARK@.len()) {
        Some(i) => i + ANSWER_MARK@.len(),
        None => 0,
    };
    without(trimmed(solution.subrange(from, solution.len() as int)), ',')
}

/// The final answer of a worked solution.
pub fn gsm8k_answer(solution: &str) -> (r: String)
    ensures
        r@ == final_answer(solution@),
{
    let cs = chars_of(solution);
    let mark = chars_of(ANSWER_MARK);
    let from: usize = match rfind_chars(&cs, &mark) {
        Some(i) => i + mark.len(),
        None => 0,
    };
    let tail = trim_chars(&cs, from, cs.len());
    remove_char(tail.as_str(), ',')
}

/// The input row of a training example: its tokens but the last, cut or padded to `seq_len`.
pub open spec fn sft_inputs(full: Seq<i64>, seq_len: int) -> Seq<i64> {
    Seq::new(
        seq_len as nat,
        |j: int|
            if j + 1 < full.len() {
                full[j]
            } else {
                IGNORE_ID as i64
            },
    )
}

/// The target row of a training example: at each position the next token, where that lies past the
/// prompt; ignored everywhere else.
pub open spec fn sft_targets(full: Seq<i64>, prompt_len: int, seq_len: int) -> Seq<i64> {
    Seq::new(
        seq_len as nat,
        |j: int|
            if j + 1 < full.len() && j + 1 >= prompt_len {
                full[j + 1]
            } else {
                IGNORE_ID as i64
            },
    )
}

/// The padded rows of one tokenized example: prompt and padding positions are ignored in the
/// targets, so that the loss sees the response alone.
pub fn sft_row(full: &Vec<i64>, prompt_len: usize, seq_len: usize) -> (r: (Vec<i64>, Vec<i64>))
    ensures
        r.0@ == sft_inputs(full@, seq_len as int),
        r.1@ == sft_targets(full@, prompt_len as int, seq_len as int),
{
    let ignore: i64 = IGNORE_ID as i64;
    let mut inputs: Vec<i64> = Vec::new();
    let mut targets: Vec<i64> = Vec::new();
    let mut j: usize = 0;
    while j < seq_len
        invariant
            j <= seq_len,
            ignore == IGNORE_ID,
            inputs@ == sft_inputs(full@, j as int),
            targets@ == sft_targets(full@, prompt_len as int, j as int),
        decreases seq_len - j,
    {
        if j < full.len() && j + 1 < full.len() {
            inputs.push(full[j]);
            if j + 1 >= prompt_len {
                targets.push(full[j + 1]);
            } else {
                targets.push(ignore);
            }
        } else {
            inputs.push(ignore);
            targets.push(ignore);
        }
        j += 1;
        assert(inputs@ =~= sft_inputs(full@, j as int));
        assert(targets@ =~= sft_targets(full@, prompt_len as int, j as int));
    }
    (inputs, targets)
}

/// A row is next-token aligned and supervises the response alone: where a target is not ignored by
/// position it is the token after its input, it lies past the prompt, and it is the following input
/// if that one is there; every response token that fits is supervised.
pub proof fn law_sft_row_supervises_response(full: Seq<i64>, prompt_len: int, seq_len: int)
    requires
        0 <= prompt_len,
        0 <= seq_len,
    ensures
        forall|j: int|
            0 <= j < seq_len && !(prompt_len <= j + 1 < full.len()) ==> #[trigger] sft_targets(
                full,
                prompt_len,
                seq_len,
            )[j] == IGNORE_ID,
        forall|k: int|
            prompt_len <= k < full.len() && 1 <= k <= seq_len ==> sft_targets(
                full,
                prompt_len,
                seq_len,
            )[k - 1] == #[trigger] full[k] && sft_inputs(full, seq_len)[k - 1] == full[k - 1],
        forall|j: int|
            0 <= j && j + 1 < seq_len && prompt_len <= j + 1 && j + 2 < full.len()
                ==> #[trigger] sft_targets(full, prompt_len, seq_len)[j] == sft_inputs(
                full,
                seq_len,
            )[j + 1],
{
}

/// Why a training row could not be built.
#[derive(Debug)]
pub enum RowError {
    /// The chat template failed on the prompt.
    Template,
    /// The tokenizer could not encode the exchange, and said this.
    Example(String),
    /// The tokenizer could not encode the prompt, and said this.
    Prompt(String),
}

/// Whether building a row can give these inputs and targets, or `None` for a failure.
pub open spec fn row_outcome(
    tok: TextTokenizer,
    prompt: Seq<char>,
    response: Seq<char>,
    seq_len: int,
    row: Option<(Seq<i64>, Seq<i64>)>,
) -> bool {
    match row {
        Some((inputs, targets)) => rendered_prompt(prompt) is Some && exists|
            full: Seq<u32>,
            head: Seq<u32>,
        |
            #![trigger
                encodes(tok, exchange_text(prompt, response)->0, Some(full)),
                encodes(tok, rendered_prompt(prompt)->0, Some(head))]
            {
                &&& encodes(tok, exchange_text(prompt, response)->0, Some(full))
                &&& encodes(tok, rendered_prompt(prompt)->0, Some(head))
                &&& inputs == sft_inputs(signed(full), seq_len)
                &&& targets == sft_targets(signed(full), head.len() as int, seq_len)
            },
        None => {
            ||| rendered_prompt(prompt) is None
            ||| encodes(tok, exchange_text(prompt, response)->0, None)
            ||| encodes(tok, rendered_prompt(prompt)->0, None)
        },
    }
}

/// Builds one padded row of length `seq_len` from an exchange: the tokens of prompt and response,
/// with prompt and padding ignored in the targets.
pub fn build_sft_row(
    tok: &TextTokenizer,
    prompt: &str,
    response: &str,
    seq_len: usize,
) -> (r: Result<(Vec<i64>, Vec<i64>), RowError>)
    ensures
        match r {
            Ok((inputs, targets)) => row_outcome(
                *tok,
                prompt@,
                response@,
                seq_len as int,
                Some((inputs@, targets@)),
            ),
            Err(RowError::Template) => rendered_prompt(prompt@) is None,
            Err(RowError::Example(m)) => rendered_prompt(prompt@) is Some && fails_with(
                *tok,
                exchange_text(prompt@, response@)->0,
                m@,
            ),
            Err(RowError::Prompt(m)) => rendered_prompt(prompt@) is Some && fails_with(
                *tok,
                rendered_prompt(prompt@)->0,
                m@,
            ),
        },
        r is Err ==> row_outcome(*tok, prompt@, response@, seq_len as int, None),
{
    let head = match single_turn_checked(prompt, false) {
        Some(head) => head,
        None => return Err(RowError::Template),
    };
    let text = head.as_str().to_owned().concat(assistant_completion(response, None).as_str());
    assert(text@ == exchange_text(prompt@, response@)->0);
    assert(head@ == rendered_prompt(prompt@)->0);
    let full = match encode_ids(tok, text.as_str()) {
        Ok(full) => full,
        Err(e) => return Err(RowError::Example(e)),
    };
    let head_ids = match encode_ids(tok, head.as_str()) {
        Ok(ids) => ids,
        Err(e) => return Err(RowError::Prompt(e)),
    };
    Ok(sft_row(&full, head_ids.len(), seq_len))
}

/// One preference example: rows for the chosen and for the rejected continuation.
#[derive(Debug)]
pub struct DpoExample {
    pub chosen: (Vec<i64>, Vec<i64>),
    pub rejected: (Vec<i64>, Vec<i64>),
}

/// What a preference example holds: the chosen and the rejected row, inputs before targets.
pub type DpoView = ((Seq<i64>, Seq<i64>), (Seq<i64>, Seq<i64>));

impl DeepView for DpoExample {
    type V = DpoView;

    open spec fn deep_view(&self) -> DpoView {
        ((self.chosen.0@, self.chosen.1@), (self.rejected.0@, self.rejected.1@))
    }
}

/// Whether a triple can become this example, or `None` where either of its rows fails.
pub open spec fn dpo_outcome(
    tok: TextTokenizer,
    triple: (Seq<char>, Seq<char>, Seq<char>),
    seq_len: int,
    example: Option<DpoView>,
) -> bool {
    match example {
        Some((chosen, rejected)) => row_outcome(tok, triple.0, triple.1, seq_len, Some(chosen))
            && row_outcome(tok, triple.0, triple.2, seq_len, Some(rejected)),
        None => row_outcome(tok, triple.0, triple.1, seq_len, None) || row_outcome(
            tok,
            triple.0,
            triple.2,
            seq_len,
            None,
        ),
    }
}

/// Whether triples can become these examples: each that has both rows, in order, and no other.
pub open spec fn dpo_outcomes(
    tok: TextTokenizer,
    triples: Seq<(Seq<char>, Seq<char>, Seq<char>)>,
    seq_len: int,
    each: Seq<Option<DpoView>>,
) -> bool {
    &&& each.len() == triples.len()
    &&& forall|i: int|
        0 <= i < triples.len() ==> #[trigger] dpo_outcome(tok, triples[i], seq_len, each[i])
}

/// Builds the example of one preference triple `(prompt, chosen, rejected)`.
pub fn dpo_example(
    tok: &TextTokenizer,
    prompt: &str,
    chosen: &str,
    rejected: &str,
    seq_len: usize,
) -> (r: Option<DpoExample>)
    ensures
        dpo_outcome(
            *tok,
            (prompt@, chosen@, rejected@),
            seq_len as int,
            match r {
                Some(e) => Some(e.deep_view()),
                None => None,
            },
        ),
        r matches Some(e) ==> row_outcome(
            *tok,
            prompt@,
            chosen@,
            seq_len as int,
            Some((e.chosen.0@, e.chosen.1@)),
        ) && row_outcome(
            *tok,
            prompt@,
            rejected@,
            seq_len as int,
            Some((e.rejected.0@, e.rejected.1@)),
        ),
{
    match build_sft_row(tok, prompt, chosen, seq_len) {
        Ok(c) => match build_sft_row(tok, prompt, rejected, seq_len) {
            Ok(d) => Some(DpoExample { chosen: c, rejected: d }),
            Err(_) => None,
        },
        Err(_) => None,
    }
}

/// Builds preference examples. A triple of which either side cannot be encoded is dropped whole.
pub fn dpo_examples(
    tok: &TextTokenizer,
    triples: &Vec<(String, String, String)>,
    seq_len: usize,
) -> (r: Vec<DpoExample>)
    ensures
        exists|each: Seq<Option<DpoView>>| #[trigger]
            dpo_outcomes(*tok, triples.deep_view(), seq_len as int, each) && r.deep_view()
                == present(each),
{
    let ghost all = triples.deep_view();
    let ghost mut each: Seq<Option<DpoView>> = Seq::empty();
    let mut out: Vec<DpoExample> = Vec::new();
    let mut i: usize = 0;
    while i < triples.len()
        invariant
            all == triples.deep_view(),
            i <= triples.len(),
            each.len() == i,
            forall|k: int|
                0 <= k < i ==> #[trigger] dpo_outcome(*tok, all[k], seq_len as int, each[k]),
            out.deep_view() == present(each),
        decreases triples.len() - i,
    {
        let t = &triples[i];
        let ghost before = out.deep_view();
        assert(all[i as int] == (t.0@, t.1@, t.2@));
        match dpo_example(tok, t.0.as_str(), t.1.as_str(), t.2.as_str(), seq_len) {
            Some(e) => {
                proof {
                    let more = each.push(Some(e.deep_view()));
                    assert(more.drop_last() =~= each);
                    each = more;
                }
                let ghost v = e.deep_view();
                out.push(e);
                assert(out.deep_view() =~= before.push(v));
            },
            None => {
                proof {
                    let more = each.push(None);
                    assert(more.drop_last() =~= each);
                    each = more;
                }
            },
        }
        i += 1;
    }
    assert(dpo_outcomes(*tok, all, seq_len as int, each));
    out
}

/// A copy of a token row.
pub fn copy_ids(ids: &Vec<i64>) -> (r: Vec<i64>)
    ensures
        r@ == ids@,
{
    let mut out: Vec<i64> = Vec::new();
    out.extend_from_slice(ids.as_slice());
    assert(out@ =~= ids@);
    out
}

/// Tokenized rows.
pub struct SftDataset {
    rows: Vec<(Vec<i64>, Vec<i64>)>,
}

impl SftDataset {
    /// The rows, inputs before targets.
    pub closed spec fn all(&self) -> Seq<(Seq<i64>, Seq<i64>)> {
        self.rows.deep_view()
    }

    /// A dataset of these rows.
    pub fn new(rows: Vec<(Vec<i64>, Vec<i64>)>) -> (r: Self)
        ensures
            r.all() == rows.deep_view(),
    {
        SftDataset { rows }
    }

    /// The row at `index`.
    pub fn get(&self, index: usize) -> (r: Option<(Vec<i64>, Vec<i64>)>)
        ensures
            match r {
                Some((i, t)) => index < self.all().len() && (i@, t@) == self.all()[index as int],
                None => index >= self.all().len(),
            },
    {
        assert(self.rows.deep_view().len() == self.rows.len());
        if index < self.rows.len() {
            let row = &self.rows[index];
            assert(self.rows.deep_view()[index as int] == (row.0.deep_view(), row.1.deep_view()));
            assert(row.0.deep_view() =~= row.0@);
            assert(row.1.deep_view() =~= row.1@);
            Some((copy_ids(&row.0), copy_ids(&row.1)))
        } else {
            None
        }
    }

    /// The number of rows.
    pub fn len(&self) -> (r: usize)
        ensures
            r == self.all().len(),
    {
        self.rows.len()
    }
}

/// Preference examples.
pub struct DpoDataset {
    rows: Vec<DpoExample>,
}

impl DpoDataset {
    /// The examples.
    pub closed spec fn all(&self) -> Seq<DpoView> {
        self.rows.deep_view()
    }

    /// A dataset of these examples.
    pub fn new(rows: Vec<DpoExample>) -> (r: Self)
        ensures
            r.all() == rows.deep_view(),
    {
        DpoDataset { rows }
    }

    /// The example at `index`.
    pub fn get(&self, index: usize) -> (r: Option<DpoExample>)
        ensures
            match r {
                Some(e) => index < self.all().len() && e.deep_view() == self.all()[index as int],
                None => index >= self.all().len(),
            },
    {
        assert(self.rows.deep_view().len() == self.rows.len());
        if index < self.rows.len() {
            let e = &self.rows[index];
            Some(
                DpoExample {
                    chosen: (copy_ids(&e.chosen.0), copy_ids(&e.chosen.1)),
                    rejected: (copy_ids(&e.rejected.0), copy_ids(&e.rejected.1)),
                },
            )
        } else {
            None
        }
    }

    /// The number of examples.
    pub fn len(&self) -> (r: usize)
        ensures
            r == self.all().len(),
    {
        self.rows.len()
    }
}

impl DeepView for GrpoExample {
    type V = (Seq<i64>, Seq<char>);

    open spec fn deep_view(&self) -> (Seq<i64>, Seq<char>) {
        (self.prompt@, self.answer@)
    }
}

/// Prompts with verifiable answers.
pub struct GrpoDataset {
    rows: Vec<GrpoExample>,
}

impl GrpoDataset {
    /// The examples, prompt before answer.
    pub closed spec fn all(&self) -> Seq<(Seq<i64>, Seq<char>)> {
        self.rows.deep_view()
    }

    /// A dataset of these examples.
    pub fn new(rows: Vec<GrpoExample>) -> (r: Self)
        ensures
            r.all() == rows.deep_view(),
    {
        GrpoDataset { rows }
    }

    /// The example at `index`.
    pub fn get(&self, index: usize) -> (r: Option<GrpoExample>)
        ensures
            match r {
                Some(e) => index < self.all().len() && e.deep_view() == self.all()[index as int],
                None => index >= self.all().len(),
            },
    {
        assert(self.rows.deep_view().len() == self.rows.len());
        if index < self.rows.len() {
            let e = &self.rows[index];
            Some(GrpoExample { prompt: copy_ids(&e.prompt), answer: e.answer.as_str().to_owned() })
        } else {
            None
        }
    }

    /// The number of examples.
    pub fn len(&self) -> (r: usize)
        ensures
            r == self.all().len(),
    {
        self.rows.len()
    }
}

/// A column is the first of its name, and none is found only where no column has it.
pub proof fn law_column_is_the_first_of_its_name(names: Seq<Seq<char>>, name: Seq<char>, from: int)
    requires
        0 <= from,
    ensures
        match name_from(names, name, from) {
            Some(i) => from <= i < names.len() && names[i] == name && forall|j: int|
                from <= j < i ==> #[trigger] names[j] != name,
            None => forall|j: int| from <= j < names.len() ==> #[trigger] names[j] != name,
        },
    decreases names.len() - from,
{
    if from < names.len() && names[from] != name {
        law_column_is_the_first_of_its_name(names, name, from + 1);
    }
}

/// What is present among extracted items is every one of them that is there, in order.
pub proof fn law_present_keeps_what_is_there<T>(extracted: Seq<Option<T>>)
    ensures
        present(extracted) == extracted.filter(|x: Option<T>| x is Some).map_values(
            |x: Option<T>| x->0,
        ),
    decreases extracted.len(),
{
    reveal(Seq::filter);
    let unwrap = |x: Option<T>| x->0;
    if extracted.len() > 0 {
        let rest = extracted.drop_last();
        law_present_keeps_what_is_there(rest);
        let kept = rest.filter(|x: Option<T>| x is Some);
        if let Some(x) = extracted.last() {
            assert(kept.push(Some(x)).map_values(unwrap) =~= kept.map_values(unwrap).push(x));
        }
    } else {
        assert(Seq::<Option<T>>::empty().map_values(unwrap) =~= Seq::empty());
        assert(extracted.filter(|x: Option<T>| x is Some).map_values(unwrap) =~= Seq::empty());
    }
}

/// As many rows are held out as may be: all that are asked for, unless one more would be over a
/// fifth.
pub proof fn law_as_many_are_held_out_as_may_be(n: int, max_valid: int)
    requires
        0 <= n,
        0 <= max_valid,
    ensures
        held_out(n, max_valid) == max_valid || 5 * (held_out(n, max_valid) + 1) > n,
        0 <= 5 * held_out(n, max_valid) <= n,
        held_out(n, max_valid) <= max_valid,
{
}

/// A mark cannot begin inside a text that does not hold it and run on into the same mark after the
/// text, if its first character stands nowhere else in it.
pub(crate) proof fn lemma_mark_stands_once(c: Seq<char>, mark: Seq<char>, rest: Seq<char>, j: int)
    requires
        0 <= j < c.len(),
        mark.len() > 0,
        forall|k: int| 0 < k < mark.len() ==> #[trigger] mark[k] != mark[0],
        !occurs_in(c, mark),
    ensures
        !occurs_at(c + mark + rest, mark, j),
{
    let text = c + mark + rest;
    if occurs_at(text, mark, j) {
        let part = text.subrange(j, j + mark.len());
        assert(part == mark);
        if j + mark.len() <= c.len() {
            assert(c.subrange(j, j + mark.len()) =~= part);
            assert(occurs_at(c, mark, j));
        } else {
            let k = c.len() - j;
            assert(part[k] == text[c.len() as int]);
            assert(text[c.len() as int] == mark[0]);
            assert(mark[k] == mark[0]);
        }
    }
}

/// What follows a text that a mark opens is where the search goes on.
pub(crate) proof fn lemma_find_in_tail(head: Seq<char>, tail: Seq<char>, pat: Seq<char>, from: int)
    requires
        0 <= from,
    ensures
        find_from(head + tail, pat, head.len() + from) == match find_from(tail, pat, from) {
            Some(i) => Some(head.len() + i),
            None => None,
        },
    decreases tail.len() + 1 - from,
{
    if from + pat.len() <= tail.len() {
        assert((head + tail).subrange(head.len() + from, head.len() + from + pat.len())
            =~= tail.subrange(from, from + pat.len()));
        if !occurs_at(tail, pat, from) {
            lemma_find_in_tail(head, tail, pat, from + 1);
        }
    }
}

/// A search whose first place is known gives that place.
pub(crate) proof fn lemma_find_at(s: Seq<char>, pat: Seq<char>, from: int, at: int)
    requires
        0 <= from <= at,
        occurs_at(s, pat, at),
        forall|j: int| from <= j < at ==> !#[trigger] occurs_at(s, pat, j),
    ensures
        find_from(s, pat, from) == Some(at),
    decreases at - from,
{
    if from < at {
        lemma_find_at(s, pat, from + 1, at);
    }
}

/// A search that can find nothing finds nothing.
pub(crate) proof fn lemma_find_none(s: Seq<char>, pat: Seq<char>, from: int)
    requires
        !occurs_in(s, pat),
    ensures
        find_from(s, pat, from) is None,
    decreases s.len() + 1 - from,
{
    if from >= 0 && from + pat.len() <= s.len() {
        assert(!occurs_at(s, pat, from));
        lemma_find_none(s, pat, from + 1);
    }
}

/// Nothing inside a turn is lost. Let a mark open a turn right after `before` and nowhere sooner,
/// and let the content hold no closing mark: then what is read of the turn is the content, line
/// breaks and all, without the white space at its ends, whether a closing mark and a rest follow
/// or nothing does. Without the opening mark there is no turn.
pub proof fn law_turns_are_read_whole(
    before: Seq<char>,
    open: Seq<char>,
    content: Seq<char>,
    rest: Seq<char>,
)
    requires
        !occurs_in(content, "<|im_end|>"@),
        forall|j: int|
            0 <= j < before.len() ==> !#[trigger] occurs_at(
                before + open + content + "<|im_end|>"@ + rest,
                open,
                j,
            ),
        forall|j: int|
            0 <= j < before.len() ==> !#[trigger] occurs_at(before + open + content, open, j),
    ensures
        turn_content(before + open + content + "<|im_end|>"@ + rest, open) == Some(
            trimmed(content),
        ),
        turn_content(before + open + content, open) == Some(trimmed(content)),
{
    let mark = "<|im_end|>"@;
    reveal_strlit("<|im_end|>");
    let head = before + open;
    let closed = before + open + content + mark + rest;
    let bare = before + open + content;
    let start = head.len() as int;
    assert(closed.subrange(before.len() as int, start) =~= open);
    assert(bare.subrange(before.len() as int, start) =~= open);
    lemma_find_at(closed, open, 0, before.len() as int);
    lemma_find_at(bare, open, 0, before.len() as int);
    let tail = content + mark + rest;
    assert(closed =~= head + tail);
    assert(tail.subrange(content.len() as int, (content.len() + mark.len()) as int) =~= mark);
    assert forall|j: int| 0 <= j < content.len() implies !#[trigger] occurs_at(tail, mark, j) by {
        lemma_mark_stands_once(content, mark, rest, j);
    }
    lemma_find_at(tail, mark, 0, content.len() as int);
    lemma_find_in_tail(head, tail, mark, 0);
    lemma_find_none(content, mark, 0);
    lemma_find_in_tail(head, content, mark, 0);
    assert(closed.subrange(start, start + content.len()) =~= content);
    assert(bare.subrange(start, bare.len() as int) =~= content);
}

/// Where an opening mark does not occur there is no turn of it.
pub proof fn law_no_turn_without_its_mark(text: Seq<char>, open: Seq<char>)
    requires
        !occurs_in(text, open),
    ensures
        turn_content(text, open) is None,
{
    lemma_find_none(text, open, 0);
}

/// The first exchange of a thread is what its first user turn and its first assistant turn hold,
/// in this order; there is one exactly where both are there and neither is empty.
pub proof fn law_pair_is_question_and_answer(text: Seq<char>)
    ensures
        match (
            turn_content(text, "<|im_start|>user\n"@),
            turn_content(text, "<|im_start|>assistant\n"@),
        ) {
            (Some(u), Some(a)) => if u.len() == 0 || a.len() == 0 {
                first_pair(text) is None
            } else {
                first_pair(text) == Some((u, a))
            },
            _ => first_pair(text) is None,
        },
{
}

/// The final answer of a worked solution is what follows its last `####`, whatever comes before,
/// without the white space at its ends and with every other character but commas kept.
pub proof fn law_final_answer_follows_the_last_mark(work: Seq<char>, tail: Seq<char>)
    requires
        forall|j: int| j > work.len() ==> !#[trigger] occurs_at(work + "####"@ + tail, "####"@, j),
    ensures
        final_answer(work + "####"@ + tail) == trimmed(tail).filter(|c: char| c != ','),
{
    let mark = "####"@;
    let text = work + mark + tail;
    assert(text.subrange(work.len() as int, (work.len() + mark.len()) as int) =~= mark);
    assert(occurs_at(text, mark, work.len() as int));
    lemma_rfind_at(text, mark, text.len() - mark.len(), work.len() as int);
    assert(text.subrange((work.len() + mark.len()) as int, text.len() as int) =~= tail);
    law_removal_keeps_the_others(trimmed(tail), ',');
}

/// A solution without a mark is its own final answer, read in the same way.
pub proof fn law_final_answer_without_a_mark(solution: Seq<char>)
    requires
        !occurs_in(solution, "####"@),
    ensures
        final_answer(solution) == trimmed(solution).filter(|c: char| c != ','),
{
    lemma_rfind_none(solution, "####"@, solution.len() - "####"@.len());
    assert(solution.subrange(0, solution.len() as int) =~= solution);
    law_removal_keeps_the_others(trimmed(solution), ',');
}

proof fn lemma_rfind_at(s: Seq<char>, pat: Seq<char>, upto: int, at: int)
    requires
        at <= upto,
        occurs_at(s, pat, at),
        forall|j: int| at < j <= upto ==> !#[trigger] occurs_at(s, pat, j),
    ensures
        rfind_upto(s, pat, upto) == Some(at),
    decreases upto - at,
{
    if at < upto {
        lemma_rfind_at(s, pat, upto - 1, at);
    }
}

proof fn lemma_rfind_none(s: Seq<char>, pat: Seq<char>, upto: int)
    requires
        !occurs_in(s, pat),
    ensures
        rfind_upto(s, pat, upto) is None,
    decreases upto + 1,
{
    if upto >= 0 {
        assert(!occurs_at(s, pat, upto));
        lemma_rfind_none(s, pat, upto - 1);
    }
}

/// The inputs of a row are the example's tokens, all but the last and as many as fit, and zeros
/// from there on; its targets are as many.
pub proof fn law_sft_inputs_are_the_tokens(full: Seq<i64>, prompt_len: int, seq_len: int, j: int)
    requires
        0 <= j < seq_len,
    ensures
        sft_inputs(full, seq_len).len() == seq_len,
        sft_targets(full, prompt_len, seq_len).len() == seq_len,
        j < full.len() - 1 ==> sft_inputs(full, seq_len)[j] == full[j],
        j >= full.len() - 1 ==> sft_inputs(full, seq_len)[j] == 0,
        j >= full.len() - 1 ==> sft_targets(full, prompt_len, seq_len)[j] == 0,
        j + 1 < prompt_len ==> sft_targets(full, prompt_len, seq_len)[j] == 0,
        prompt_len <= j + 1 < full.len() ==> sft_targets(full, prompt_len, seq_len)[j] == full[j
            + 1],
{
}

/// Whether these are the inputs and targets of a row for this prompt and this answer, given the
/// tokens of the whole text and of the prompt alone.
spec fn is_row_of(
    inputs: Seq<i64>,
    targets: Seq<i64>,
    full: Seq<u32>,
    head: Seq<u32>,
    seq_len: int,
) -> bool {
    &&& inputs.len() == seq_len
    &&& targets.len() == seq_len
    &&& forall|j: int|
        0 <= j < seq_len ==> #[trigger] inputs[j] == if j + 1 < full.len() {
            full[j] as i64
        } else {
            0
        }
    &&& forall|j: int|
        0 <= j < seq_len ==> #[trigger] targets[j] == if head.len() <= j + 1 < full.len() {
            full[j + 1] as i64
        } else {
            0
        }
}

/// A row is of its own prompt and its own answer: its inputs are tokens of the prompt, the answer
/// and the turn terminator, in this order, and what its targets hold are the tokens past the
/// prompt's, that is, those of the answer and the terminator.
pub proof fn law_rows_are_of_their_answer(
    tok: TextTokenizer,
    prompt: Seq<char>,
    answer: Seq<char>,
    seq_len: int,
    row: (Seq<i64>, Seq<i64>),
) -> (tokens: (Seq<u32>, Seq<u32>))
    requires
        row_outcome(tok, prompt, answer, seq_len, Some(row)),
        0 <= seq_len,
    ensures
        rendered_prompt(prompt) is Some,
        encodes(tok, rendered_prompt(prompt)->0 + answer + "<turn|>"@ + seq!['\n'], Some(tokens.0)),
        encodes(tok, rendered_prompt(prompt)->0, Some(tokens.1)),
        row.0.len() == seq_len && row.1.len() == seq_len,
        forall|j: int|
            0 <= j < seq_len ==> #[trigger] row.0[j] == if j + 1 < tokens.0.len() {
                tokens.0[j] as i64
            } else {
                0
            },
        forall|j: int|
            0 <= j < seq_len ==> #[trigger] row.1[j] == if tokens.1.len() <= j + 1
                < tokens.0.len() {
                tokens.0[j + 1] as i64
            } else {
                0
            },
{
    let p = rendered_prompt(prompt)->0;
    let (full, head) = choose|full: Seq<u32>, head: Seq<u32>|
        #![trigger
            encodes(tok, exchange_text(prompt, answer)->0, Some(full)),
            encodes(tok, rendered_prompt(prompt)->0, Some(head))]
        {
            &&& encodes(tok, exchange_text(prompt, answer)->0, Some(full))
            &&& encodes(tok, rendered_prompt(prompt)->0, Some(head))
            &&& row.0 == sft_inputs(signed(full), seq_len)
            &&& row.1 == sft_targets(signed(full), head.len() as int, seq_len)
        };
    assert(exchange_text(prompt, answer)->0 =~= p + answer + "<turn|>"@ + seq!['\n']);
    assert(is_row_of(row.0, row.1, full, head, seq_len));
    (full, head)
}

/// The preference is not turned round: of a triple that becomes an example, the chosen row is a
/// row of the second text and the rejected row one of the third, both as answers to the first.
pub proof fn law_preference_is_kept(
    tok: TextTokenizer,
    prompt: Seq<char>,
    chosen: Seq<char>,
    rejected: Seq<char>,
    seq_len: int,
    example: DpoExample,
)
    requires
        dpo_outcome(tok, (prompt, chosen, rejected), seq_len, Some(example.deep_view())),
        0 <= seq_len,
    ensures
        row_outcome(
            tok,
            prompt,
            chosen,
            seq_len,
            Some((example.chosen.0@, example.chosen.1@)),
        ),
        row_outcome(
            tok,
            prompt,
            rejected,
            seq_len,
            Some((example.rejected.0@, example.rejected.1@)),
        ),
        exists|full: Seq<u32>, head: Seq<u32>|
            {
                &&& #[trigger] encodes(
                    tok,
                    rendered_prompt(prompt)->0 + chosen + "<turn|>"@ + seq!['\n'],
                    Some(full),
                )
                &&& #[trigger] encodes(tok, rendered_prompt(prompt)->0, Some(head))
                &&& forall|j: int|
                    0 <= j < seq_len ==> #[trigger] example.chosen.1@[j] == if head.len() <= j + 1
                        < full.len() {
                        full[j + 1] as i64
                    } else {
                        0
                    }
            },
        exists|full: Seq<u32>, head: Seq<u32>|
            {
                &&& #[trigger] encodes(
                    tok,
                    rendered_prompt(prompt)->0 + rejected + "<turn|>"@ + seq!['\n'],
                    Some(full),
                )
                &&& #[trigger] encodes(tok, rendered_prompt(prompt)->0, Some(head))
                &&& forall|j: int|
                    0 <= j < seq_len ==> #[trigger] example.rejected.1@[j] == if head.len() <= j + 1
                        < full.len() {
                        full[j + 1] as i64
                    } else {
                        0
                    }
            },
{
    let (c, d) = example.deep_view();
    let a = law_rows_are_of_their_answer(tok, prompt, chosen, seq_len, c);
    let b = law_rows_are_of_their_answer(tok, prompt, rejected, seq_len, d);
    assert(encodes(tok, rendered_prompt(prompt)->0, Some(a.1)));
    assert(encodes(tok, rendered_prompt(prompt)->0, Some(b.1)));
}

/// Examples come of their own triples and in the triples' order, and a triple is left out only
/// where one of its two rows cannot be built.
pub proof fn law_examples_are_of_their_triples(
    tok: TextTokenizer,
    triples: Seq<(Seq<char>, Seq<char>, Seq<char>)>,
    seq_len: int,
    each: Seq<Option<DpoView>>,
    i: int,
)
    requires
        dpo_outcomes(tok, triples, seq_len, each),
        0 <= i < triples.len(),
    ensures
        each.len() == triples.len(),
        each[i] matches Some(e) ==> row_outcome(
            tok,
            triples[i].0,
            triples[i].1,
            seq_len,
            Some(e.0),
        ) && row_outcome(tok, triples[i].0, triples[i].2, seq_len, Some(e.1)),
        each[i] is None ==> row_outcome(tok, triples[i].0, triples[i].1, seq_len, None)
            || row_outcome(tok, triples[i].0, triples[i].2, seq_len, None),
{
    assert(dpo_outcome(tok, triples[i], seq_len, each[i]));
}

/// No row is missing without a reason: where there is none, the prompt has no rendering, or the
/// prompt or the whole exchange has no encoding.
pub proof fn law_rows_are_missing_only_without_encoding(
    tok: TextTokenizer,
    prompt: Seq<char>,
    answer: Seq<char>,
    seq_len: int,
)
    requires
        row_outcome(tok, prompt, answer, seq_len, None),
        rendered_prompt(prompt) is Some,
        !encodes(tok, rendered_prompt(prompt)->0, None),
    ensures
        encodes(tok, rendered_prompt(prompt)->0 + answer + "<turn|>"@ + seq!['\n'], None),
{
    let p = rendered_prompt(prompt)->0;
    assert(exchange_text(prompt, answer)->0 =~= p + answer + "<turn|>"@ + seq!['\n']);
}

/// The message on a missing column names that column and no other.
pub proof fn law_messages_name_the_column(a: Seq<char>, b: Seq<char>)
    ensures
        missing_column(a) == "parquet missing `"@ + a + "` column"@,
        missing_column(a) == missing_column(b) ==> a == b,
{
    if missing_column(a) == missing_column(b) {
        let n = "parquet missing `"@.len() as int;
        assert(missing_column(a).len() == n + a.len() + "` column"@.len());
        assert(missing_column(b).len() == n + b.len() + "` column"@.len());
        assert(missing_column(a).subrange(n, n + a.len()) =~= a);
        assert(missing_column(b).subrange(n, n + b.len()) =~= b);
    }
}

} // verus!
