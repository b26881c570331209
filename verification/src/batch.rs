//! Batches: examples laid out as rectangular, row-major buffers.

use crate::data::{copy_ids, DpoExample, DpoView};
use crate::grpo::GrpoExample;
use crate::stream::share;
use crate::tokenizer::TextTokenizer;
use std::sync::Arc;
use vstd::prelude::*;

verus! {

broadcast use vstd::string::group_string_axioms;

/// A training batch: `inputs` and next-token `targets`, both `rows` by `cols`, row after row.
pub struct Batch {
    pub rows: usize,
    pub cols: usize,
    pub inputs: Vec<i64>,
    pub targets: Vec<i64>,
}

/// Cuts windows of `seq_len + 1` tokens into inputs and targets.
#[derive(Clone, Debug)]
pub struct TokenBatcher {
    pub seq_len: usize,
}

/// Columns `from..from + seq_len` of each of the first `rows` rows of a buffer whose rows are one
/// wider than `seq_len`.
pub open spec fn columns(flat: Seq<i64>, rows: nat, seq_len: int, from: int) -> Seq<Seq<i64>> {
    Seq::new(
        rows,
        |r: int| flat.subrange(r * (seq_len + 1) + from, r * (seq_len + 1) + from + seq_len),
    )
}

/// Joins token rows.
pub fn join_rows(rows: &Vec<Vec<i64>>) -> (r: Vec<i64>)
    ensures
        r@ == rows.deep_view().flatten(),
{
    let ghost all = rows.deep_view();
    let mut out: Vec<i64> = Vec::new();
    let mut i: usize = 0;
    assert(all.take(0) =~= Seq::empty());
    while i < rows.len()
        invariant
            all == rows.deep_view(),
            i <= rows.len(),
            out@ == all.take(i as int).flatten(),
        decreases rows.len() - i,
    {
        let ghost before = out@;
        out.extend_from_slice(rows[i].as_slice());
        proof {
            assert(all[i as int] =~= rows[i as int]@);
            assert(all.take(i + 1) =~= all.take(i as int).push(all[i as int]));
            all.take(i as int).lemma_flatten_push(all[i as int]);
            assert(out@ =~= before + all[i as int]);
        }
        i += 1;
    }
    assert(all.take(all.len() as int) =~= all);
    out
}

impl TokenBatcher {
    /// Stacks windows: the inputs are each window without its last token, the targets each window
    /// without its first.
    pub fn batch(&self, items: Vec<Vec<i64>>) -> (r: Batch)
        requires
            self.seq_len < usize::MAX,
            items.deep_view().flatten().len() == items.len() * (self.seq_len + 1),
        ensures
            r.rows == items.len(),
            r.cols == self.seq_len,
            r.inputs@ == columns(
                items.deep_view().flatten(),
                items@.len(),
                self.seq_len as int,
                0,
            ).flatten(),
            r.targets@ == columns(
                items.deep_view().flatten(),
                items@.len(),
                self.seq_len as int,
                1,
            ).flatten(),
    {
        let flat = join_rows(&items);
        let n: usize = items.len();
        let w: usize = self.seq_len + 1;
        let ghost ins = columns(flat@, n as nat, self.seq_len as int, 0);
        let ghost tgs = columns(flat@, n as nat, self.seq_len as int, 1);
        let mut inputs: Vec<i64> = Vec::new();
        let mut targets: Vec<i64> = Vec::new();
        let mut row: usize = 0;
        let mut start: usize = 0;
        proof {
            assert(ins.take(0) =~= Seq::empty());
            assert(tgs.take(0) =~= Seq::empty());
        }
        while row < n
            invariant
                row <= n,
                w == self.seq_len + 1,
                start == row * w,
                flat.len() == n * w,
                ins == columns(flat@, n as nat, self.seq_len as int, 0),
                tgs == columns(flat@, n as nat, self.seq_len as int, 1),
                inputs@ == ins.take(row as int).flatten(),
                targets@ == tgs.take(row as int).flatten(),
            decreases n - row,
        {
            proof {
                let (a, b, c) = (row as int, n as int, w as int);
                assert(a * c + c <= b * c && (a + 1) * c == a * c + c) by (nonlinear_arith)
                    requires
                        a < b,
                        0 < c,
                ;
            }
            let ghost (in_before, tg_before) = (inputs@, targets@);
            assert(start + w <= flat.len());
            let body = flat.as_slice();
            let head = vstd::slice::slice_subrange(body, start, start + self.seq_len);
            let tail = vstd::slice::slice_subrange(body, start + 1, start + w);
            inputs.extend_from_slice(head);
            targets.extend_from_slice(tail);
            proof {
                assert(head@ =~= ins[row as int]);
                assert(tail@ =~= tgs[row as int]);
                assert(inputs@ =~= in_before + ins[row as int]);
                assert(targets@ =~= tg_before + tgs[row as int]);
                assert(ins.take(row + 1) =~= ins.take(row as int).push(ins[row as int]));
                assert(tgs.take(row + 1) =~= tgs.take(row as int).push(tgs[row as int]));
                ins.take(row as int).lemma_flatten_push(ins[row as int]);
                tgs.take(row as int).lemma_flatten_push(tgs[row as int]);
            }
            start = start + w;
            row += 1;
        }
        proof {
            assert(ins.take(n as int) =~= ins);
            assert(tgs.take(n as int) =~= tgs);
        }
        Batch { rows: n, cols: self.seq_len, inputs, targets }
    }
}

/// The position where row `k` of equally wide rows lies in their join.
pub(crate) proof fn lemma_flatten_uniform(rows: Seq<Seq<i64>>, width: int, k: int)
    requires
        0 <= width,
        forall|i: int| 0 <= i < rows.len() ==> (#[trigger] rows[i]).len() == width,
        0 <= k < rows.len(),
    ensures
        rows.flatten().len() == rows.len() * width,
        0 <= k * width,
        k * width + width <= rows.len() * width,
        rows.flatten().subrange(k * width, k * width + width) == rows[k],
    decreases rows.len(),
{
    let rest = rows.drop_last();
    let n = rest.len() as int;
    rest.lemma_flatten_push(rows.last());
    assert(rest.push(rows.last()) =~= rows);
    assert((n + 1) * width == n * width + width) by (nonlinear_arith);
    assert(forall|i: int| 0 <= i < rest.len() ==> (#[trigger] rest[i]) == rows[i]);
    if n > 0 {
        if k < n {
            lemma_flatten_uniform(rest, width, k);
        } else {
            lemma_flatten_uniform(rest, width, n - 1);
        }
    } else {
        assert(rest.flatten() =~= Seq::empty());
        assert(0 * width == 0);
    }
    assert(rest.flatten().len() == n * width);
    assert(0 <= n * width) by (nonlinear_arith)
        requires
            0 <= n,
            0 <= width,
    ;
    if k == n {
        assert(rows.flatten().subrange(k * width, k * width + width) =~= rows[k]);
    } else {
        assert(rows.flatten().subrange(k * width, k * width + width) =~= rest.flatten().subrange(
            k * width,
            k * width + width,
        ));
    }
}

/// With windows that are all full width, batch row `k` holds window `k`: its input row is the
/// window without the last token, its target row the window without the first, so that every target
/// is the token after its input.
pub proof fn law_batch_rows_are_windows(windows: Seq<Seq<i64>>, seq_len: int, k: int)
    requires
        0 <= seq_len,
        forall|i: int| 0 <= i < windows.len() ==> (#[trigger] windows[i]).len() == seq_len + 1,
        0 <= k < windows.len(),
    ensures
        windows.flatten().len() == windows.len() * (seq_len + 1),
        columns(windows.flatten(), windows.len(), seq_len, 0)[k] == windows[k].drop_last(),
        columns(windows.flatten(), windows.len(), seq_len, 1)[k] == windows[k].drop_first(),
{
    let w = seq_len + 1;
    lemma_flatten_uniform(windows, w, k);
    let flat = windows.flatten();
    let whole = flat.subrange(k * w, k * w + w);
    assert(flat.subrange(k * w, k * w + seq_len) =~= whole.drop_last());
    assert(flat.subrange(k * w + 1, k * w + 1 + seq_len) =~= whole.drop_first());
}

/// The input rows of these examples.
pub open spec fn firsts(items: Seq<(Seq<i64>, Seq<i64>)>) -> Seq<Seq<i64>> {
    items.map_values(|p: (Seq<i64>, Seq<i64>)| p.0)
}

/// The target rows of these examples.
pub open spec fn seconds(items: Seq<(Seq<i64>, Seq<i64>)>) -> Seq<Seq<i64>> {
    items.map_values(|p: (Seq<i64>, Seq<i64>)| p.1)
}

/// The width of a batch: that of its first input row.
pub open spec fn batch_width(items: Seq<(Seq<i64>, Seq<i64>)>) -> int {
    if items.len() == 0 {
        0
    } else {
        items[0].0.len() as int
    }
}

/// Stacks tokenized rows.
#[derive(Clone, Debug)]
pub struct SftBatcher;

impl SftBatcher {
    /// Stacks rows of equal width.
    pub fn batch(&self, items: Vec<(Vec<i64>, Vec<i64>)>) -> (r: Batch)
        requires
            firsts(items.deep_view()).flatten().len() == items.len() * batch_width(
                items.deep_view(),
            ),
            seconds(items.deep_view()).flatten().len() == items.len() * batch_width(
                items.deep_view(),
            ),
        ensures
            r.rows == items.len(),
            r.cols == batch_width(items.deep_view()),
            r.inputs@ == firsts(items.deep_view()).flatten(),
            r.targets@ == seconds(items.deep_view()).flatten(),
    {
        let ghost all = items.deep_view();
        let ghost ins = firsts(all);
        let ghost tgs = seconds(all);
        let n: usize = items.len();
        let cols: usize = if n == 0 {
            0
        } else {
            items[0].0.len()
        };
        assert(n > 0 ==> all[0].0 =~= items[0].0@);
        let mut inputs: Vec<i64> = Vec::new();
        let mut targets: Vec<i64> = Vec::new();
        let mut i: usize = 0;
        proof {
            assert(ins.take(0) =~= Seq::empty());
            assert(tgs.take(0) =~= Seq::empty());
        }
        while i < n
            invariant
                n == items.len(),
                all == items.deep_view(),
                ins == firsts(all),
                tgs == seconds(all),
                i <= n,
                inputs@ == ins.take(i as int).flatten(),
                targets@ == tgs.take(i as int).flatten(),
            decreases n - i,
        {
            let ghost (in_before, tg_before) = (inputs@, targets@);
            inputs.extend_from_slice(items[i].0.as_slice());
            targets.extend_from_slice(items[i].1.as_slice());
            proof {
                assert(ins[i as int] =~= items[i as int].0@);
                assert(tgs[i as int] =~= items[i as int].1@);
                assert(inputs@ =~= in_before + ins[i as int]);
                assert(targets@ =~= tg_before + tgs[i as int]);
                assert(ins.take(i + 1) =~= ins.take(i as int).push(ins[i as int]));
                assert(tgs.take(i + 1) =~= tgs.take(i as int).push(tgs[i as int]));
                ins.take(i as int).lemma_flatten_push(ins[i as int]);
                tgs.take(i as int).lemma_flatten_push(tgs[i as int]);
            }
            i += 1;
        }
        proof {
            assert(ins.take(n as int) =~= ins);
            assert(tgs.take(n as int) =~= tgs);
        }
        Batch { rows: n, cols, inputs, targets }
    }
}

/// With rows that are all equally wide, row `k` of a batch is row `k` of its examples, inputs and
/// targets alike.
pub proof fn law_batch_rows_are_examples(items: Seq<(Seq<i64>, Seq<i64>)>, cols: int, k: int)
    requires
        forall|i: int|
            0 <= i < items.len() ==> (#[trigger] items[i]).0.len() == cols && items[i].1.len()
                == cols,
        0 <= k < items.len(),
    ensures
        firsts(items).flatten().len() == items.len() * cols,
        seconds(items).flatten().len() == items.len() * cols,
        firsts(items).flatten().subrange(k * cols, k * cols + cols) == items[k].0,
        seconds(items).flatten().subrange(k * cols, k * cols + cols) == items[k].1,
{
    assert(items[k].0.len() == cols);
    assert(forall|i: int| 0 <= i < items.len() ==> (#[trigger] firsts(items)[i]) == items[i].0);
    assert(forall|i: int| 0 <= i < items.len() ==> (#[trigger] seconds(items)[i]) == items[i].1);
    lemma_flatten_uniform(firsts(items), cols, k);
    lemma_flatten_uniform(seconds(items), cols, k);
}

/// A preference batch: chosen and rejected rows, all `rows` by `cols`, row after row.
pub struct DpoBatch {
    pub rows: usize,
    pub cols: usize,
    pub chosen_in: Vec<i64>,
    pub chosen_tgt: Vec<i64>,
    pub rejected_in: Vec<i64>,
    pub rejected_tgt: Vec<i64>,
}

/// The chosen rows of these examples.
pub open spec fn chosen_rows(items: Seq<DpoView>) -> Seq<(Seq<i64>, Seq<i64>)> {
    items.map_values(|e: DpoView| e.0)
}

/// The rejected rows of these examples.
pub open spec fn rejected_rows(items: Seq<DpoView>) -> Seq<(Seq<i64>, Seq<i64>)> {
    items.map_values(|e: DpoView| e.1)
}

/// Stacks preference examples.
#[derive(Clone, Debug)]
pub struct DpoBatcher;

impl DpoBatcher {
    /// Stacks examples whose rows all have equal width.
    pub fn batch(&self, items: Vec<DpoExample>) -> (r: DpoBatch)
        requires
            ({
                let chosen = chosen_rows(items.deep_view());
                let rejected = rejected_rows(items.deep_view());
                let total = items.len() * batch_width(chosen);
                &&& firsts(chosen).flatten().len() == total
                &&& seconds(chosen).flatten().len() == total
                &&& firsts(rejected).flatten().len() == total
                &&& seconds(rejected).flatten().len() == total
            }),
        ensures
            r.rows == items.len(),
            r.cols == batch_width(chosen_rows(items.deep_view())),
            r.chosen_in@ == firsts(chosen_rows(items.deep_view())).flatten(),
            r.chosen_tgt@ == seconds(chosen_rows(items.deep_view())).flatten(),
            r.rejected_in@ == firsts(rejected_rows(items.deep_view())).flatten(),
            r.rejected_tgt@ == seconds(rejected_rows(items.deep_view())).flatten(),
    {
        let ghost all = items.deep_view();
        let ghost (ci, ct) = (firsts(chosen_rows(all)), seconds(chosen_rows(all)));
        let ghost (ri, rt) = (firsts(rejected_rows(all)), seconds(rejected_rows(all)));
        let n: usize = items.len();
        let cols: usize = if n == 0 {
            0
        } else {
            items[0].chosen.0.len()
        };
        let mut chosen_in: Vec<i64> = Vec::new();
        let mut chosen_tgt: Vec<i64> = Vec::new();
        let mut rejected_in: Vec<i64> = Vec::new();
        let mut rejected_tgt: Vec<i64> = Vec::new();
        let mut i: usize = 0;
        proof {
            assert(ci.take(0) =~= Seq::empty());
            assert(ct.take(0) =~= Seq::empty());
            assert(ri.take(0) =~= Seq::empty());
            assert(rt.take(0) =~= Seq::empty());
        }
        while i < n
            invariant
                n == items.len(),
                all == items.deep_view(),
                ci == firsts(chosen_rows(all)),
                ct == seconds(chosen_rows(all)),
                ri == firsts(rejected_rows(all)),
                rt == seconds(rejected_rows(all)),
                i <= n,
                chosen_in@ == ci.take(i as int).flatten(),
                chosen_tgt@ == ct.take(i as int).flatten(),
                rejected_in@ == ri.take(i as int).flatten(),
                rejected_tgt@ == rt.take(i as int).flatten(),
            decreases n - i,
        {
            let e = &items[i];
            push_row(&mut chosen_in, &e.chosen.0, Ghost(ci), Ghost(i as int));
            push_row(&mut chosen_tgt, &e.chosen.1, Ghost(ct), Ghost(i as int));
            push_row(&mut rejected_in, &e.rejected.0, Ghost(ri), Ghost(i as int));
            push_row(&mut rejected_tgt, &e.rejected.1, Ghost(rt), Ghost(i as int));
            i += 1;
        }
        proof {
            assert(ci.take(n as int) =~= ci);
            assert(ct.take(n as int) =~= ct);
            assert(ri.take(n as int) =~= ri);
            assert(rt.take(n as int) =~= rt);
        }
        DpoBatch { rows: n, cols, chosen_in, chosen_tgt, rejected_in, rejected_tgt }
    }
}

/// Appends row `i` of `rows` to the join of the rows before it.
fn push_row(out: &mut Vec<i64>, row: &Vec<i64>, Ghost(rows): Ghost<Seq<Seq<i64>>>, Ghost(i): Ghost<
    int,
>)
    requires
        0 <= i < rows.len(),
        row@ == rows[i],
        old(out)@ == rows.take(i).flatten(),
    ensures
        final(out)@ == rows.take(i + 1).flatten(),
{
    let ghost before = out@;
    out.extend_from_slice(row.as_slice());
    proof {
        assert(out@ =~= before + rows[i]);
        assert(rows.take(i + 1) =~= rows.take(i).push(rows[i]));
        rows.take(i).lemma_flatten_push(rows[i]);
    }
}

/// A batch of prompts and answers, passed through to the step that samples and scores completions.
/// The tokenizer rides along so that the step can decode them.
pub struct GrpoBatch {
    pub prompts: Vec<Vec<i64>>,
    pub answers: Vec<String>,
    pub tokenizer: Arc<TextTokenizer>,
}

/// Collects prompts and answers.
pub struct GrpoBatcher {
    pub tokenizer: Arc<TextTokenizer>,
}

impl GrpoBatcher {
    /// Collects the prompts and the answers of these examples, in order.
    pub fn batch(&self, items: Vec<GrpoExample>) -> (r: GrpoBatch)
        ensures
            r.tokenizer == self.tokenizer,
            r.prompts.deep_view() == items.deep_view().map_values(|e: (Seq<i64>, Seq<char>)| e.0),
            r.answers.deep_view() == items.deep_view().map_values(|e: (Seq<i64>, Seq<char>)| e.1),
    {
        let ghost all = items.deep_view();
        let mut prompts: Vec<Vec<i64>> = Vec::new();
        let mut answers: Vec<String> = Vec::new();
        let mut i: usize = 0;
        while i < items.len()
            invariant
                all == items.deep_view(),
                i <= items.len(),
                prompts.len() == i,
                answers.len() == i,
                forall|j: int| 0 <= j < i ==> (#[trigger] prompts[j])@ == all[j].0,
                forall|j: int| 0 <= j < i ==> (#[trigger] answers[j])@ == all[j].1,
            decreases items.len() - i,
        {
            prompts.push(copy_ids(&items[i].prompt));
            answers.push(items[i].answer.as_str().to_owned());
            i += 1;
        }
        proof {
            let ps = all.map_values(|e: (Seq<i64>, Seq<char>)| e.0);
            assert forall|j: int| 0 <= j < all.len() implies prompts.deep_view()[j] == ps[j] by {
                assert(prompts.deep_view()[j] =~= prompts[j]@);
            }
            assert(prompts.deep_view() =~= ps);
            assert(answers.deep_view() =~= all.map_values(|e: (Seq<i64>, Seq<char>)| e.1));
        }
        GrpoBatch { prompts, answers, tokenizer: share(&self.tokenizer) }
    }
}

/// A preference batch keeps the preference: with rows that are all equally wide, row `k` of its
/// chosen side is the chosen row of example `k`, and row `k` of its rejected side the rejected
/// one, inputs and targets alike.
pub proof fn law_preference_batches_keep_the_preference(
    items: Seq<DpoExample>,
    cols: int,
    k: int,
)
    requires
        forall|i: int|
            0 <= i < items.len() ==> {
                &&& (#[trigger] items[i]).chosen.0@.len() == cols
                &&& items[i].chosen.1@.len() == cols
                &&& items[i].rejected.0@.len() == cols
                &&& items[i].rejected.1@.len() == cols
            },
        0 <= k < items.len(),
    ensures
        ({
            let views = items.map_values(|e: DpoExample| e.deep_view());
            let (from, to) = (k * cols, k * cols + cols);
            &&& batch_width(chosen_rows(views)) == cols
            &&& firsts(chosen_rows(views)).flatten().subrange(from, to) == items[k].chosen.0@
            &&& seconds(chosen_rows(views)).flatten().subrange(from, to) == items[k].chosen.1@
            &&& firsts(rejected_rows(views)).flatten().subrange(from, to) == items[k].rejected.0@
            &&& seconds(rejected_rows(views)).flatten().subrange(from, to)
                == items[k].rejected.1@
        }),
{
    let views = items.map_values(|e: DpoExample| e.deep_view());
    let (chosen, rejected) = (chosen_rows(views), rejected_rows(views));
    assert forall|i: int| 0 <= i < items.len() implies (#[trigger] chosen[i]).0.len() == cols
        && chosen[i].1.len() == cols by {
        assert(items[i].chosen.0@.len() == cols);
    }
    assert forall|i: int| 0 <= i < items.len() implies (#[trigger] rejected[i]).0.len() == cols
        && rejected[i].1.len() == cols by {
        assert(items[i].rejected.0@.len() == cols);
    }
    law_batch_rows_are_examples(chosen, cols, k);
    law_batch_rows_are_examples(rejected, cols, k);
    assert(chosen[0].0.len() == cols);
}

/// The buffers of a token batch hold the rows one after the other: row `k` of the inputs is window
/// `k` without its last token, and row `k` of the targets the same window without its first.
pub proof fn law_batch_buffers_hold_the_windows(windows: Seq<Seq<i64>>, seq_len: int, k: int)
    requires
        0 <= seq_len,
        forall|i: int| 0 <= i < windows.len() ==> (#[trigger] windows[i]).len() == seq_len + 1,
        0 <= k < windows.len(),
    ensures
        ({
            let flat = windows.flatten();
            let inputs = columns(flat, windows.len(), seq_len, 0).flatten();
            let targets = columns(flat, windows.len(), seq_len, 1).flatten();
            &&& inputs.len() == windows.len() * seq_len
            &&& targets.len() == windows.len() * seq_len
            &&& inputs.subrange(k * seq_len, k * seq_len + seq_len) == windows[k].drop_last()
            &&& targets.subrange(k * seq_len, k * seq_len + seq_len) == windows[k].drop_first()
        }),
{
    let flat = windows.flatten();
    let ins = columns(flat, windows.len(), seq_len, 0);
    let tgs = columns(flat, windows.len(), seq_len, 1);
    assert forall|i: int| 0 <= i < windows.len() implies (#[trigger] ins[i]).len() == seq_len by {
        law_batch_rows_are_windows(windows, seq_len, i);
    }
    assert forall|i: int| 0 <= i < windows.len() implies (#[trigger] tgs[i]).len() == seq_len by {
        law_batch_rows_are_windows(windows, seq_len, i);
    }
    law_batch_rows_are_windows(windows, seq_len, k);
    lemma_flatten_uniform(ins, seq_len, k);
    lemma_flatten_uniform(tgs, seq_len, k);
}

/// A batch is as wide as its first row.
pub proof fn law_batches_are_as_wide_as_their_first_row(
    first: (Seq<i64>, Seq<i64>),
    rest: Seq<(Seq<i64>, Seq<i64>)>,
)
    ensures
        batch_width(Seq::<(Seq<i64>, Seq<i64>)>::empty()) == 0,
        batch_width(seq![first] + rest) == first.0.len(),
{
}

} // verus!
