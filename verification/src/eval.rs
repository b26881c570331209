//! Held-out solve rate: the verifiable answer in a completion, and the counts that the pass@1 and
//! pass@k metrics report.

use crate::chat::option_text;
use crate::text::{chars_of, decimal, is_digit, str_eq, string_of, usize_to_string};
use vstd::prelude::*;

verus! {

broadcast use vstd::string::group_string_axioms;

/// The length of the number that is being read after `k` characters: digits, with one `-` before
/// them if it stands where no number is being read.
pub open spec fn run_len(s: Seq<char>, k: nat) -> nat
    decreases k,
{
    if k == 0 {
        0
    } else {
        let before = run_len(s, (k - 1) as nat);
        if is_digit(s[k - 1]) || (s[k - 1] == '-' && before == 0) {
            before + 1
        } else {
            0
        }
    }
}

/// The position right after the last digit among the first `k` characters; 0 without a digit.
pub open spec fn digits_end(s: Seq<char>, k: nat) -> nat
    decreases k,
{
    if k == 0 {
        0
    } else if is_digit(s[k - 1]) {
        k
    } else {
        digits_end(s, (k - 1) as nat)
    }
}

/// The number that ends with the last digit of the first `k` characters.
pub open spec fn last_int_upto(s: Seq<char>, k: nat) -> Option<Seq<char>> {
    let end = digits_end(s, k);
    if end == 0 {
        None
    } else {
        Some(s.subrange(end - run_len(s, end), end as int))
    }
}

/// The last signed integer in a text.
pub open spec fn last_int(s: Seq<char>) -> Option<Seq<char>> {
    last_int_upto(s, s.len())
}

proof fn lemma_run_len(s: Seq<char>, k: nat)
    requires
        k <= s.len(),
    ensures
        run_len(s, k) <= k,
        digits_end(s, k) <= k,
        forall|i: int| k - run_len(s, k) < i < k ==> is_digit(#[trigger] s[i]),
        run_len(s, k) > 0 ==> is_digit(s[k - run_len(s, k)]) || s[k - run_len(s, k)] == '-',
    decreases k,
{
    if k > 0 {
        lemma_run_len(s, (k - 1) as nat);
    }
}

proof fn lemma_digits_end(s: Seq<char>, k: nat)
    requires
        k <= s.len(),
    ensures
        digits_end(s, k) > 0 ==> is_digit(s[digits_end(s, k) - 1]),
        forall|i: int| digits_end(s, k) <= i < k ==> !is_digit(#[trigger] s[i]),
    decreases k,
{
    if k > 0 {
        lemma_digits_end(s, (k - 1) as nat);
    }
}

/// An extracted number is digits with at most a leading `-`, it occurs in the text, and no digit of
/// the text comes after it. There is one exactly when the text has a digit.
pub proof fn law_last_int_is_a_number(s: Seq<char>)
    ensures
        last_int(s) is Some <==> exists|i: int| 0 <= i < s.len() && is_digit(#[trigger] s[i]),
        last_int(s) matches Some(n) ==> {
            let end = digits_end(s, s.len()) as int;
            &&& 0 < n.len() <= end <= s.len()
            &&& n == s.subrange(end - n.len(), end)
            &&& is_digit(n.last())
            &&& is_digit(n[0]) || n[0] == '-'
            &&& forall|i: int| 0 < i < n.len() ==> is_digit(#[trigger] n[i])
            &&& forall|i: int| end <= i < s.len() ==> !is_digit(#[trigger] s[i])
        },
{
    let end = digits_end(s, s.len());
    lemma_run_len(s, s.len());
    lemma_digits_end(s, s.len());
    if end > 0 {
        lemma_run_len(s, end);
        assert(is_digit(s[end - 1]));
    }
}

/// The last signed integer in a text, or `None` if it has no digits: the verifiable signal of an
/// answer that is an integer.
pub fn extract_last_int(s: &str) -> (r: Option<String>)
    ensures
        option_text(r) == last_int(s@),
{
    let cs = chars_of(s);
    let n: usize = cs.len();
    let mut end: usize = 0;
    let mut end_run: usize = 0;
    let mut run: usize = 0;
    let mut i: usize = 0;
    while i < n
        invariant
            cs@ == s@,
            n == cs.len(),
            i <= n,
            run == run_len(s@, i as nat),
            run <= i,
            end == digits_end(s@, i as nat),
            end <= i,
            end_run == run_len(s@, end as nat),
            end_run <= end,
        decreases n - i,
    {
        let c = cs[i];
        let digit = '0' <= c && c <= '9';
        if digit || (c == '-' && run == 0) {
            run += 1;
        } else {
            run = 0;
        }
        i += 1;
        if digit {
            end = i;
            end_run = run;
        }
    }
    if end == 0 {
        None
    } else {
        Some(string_of(&cs, end - end_run, end))
    }
}

/// A completion is correct when its last integer is the answer.
pub open spec fn answers(completion: Seq<char>, answer: Seq<char>) -> bool {
    last_int(completion) == Some(answer)
}

/// Correctness of a completion: its last integer equals the answer.
pub fn gsm8k_correct(completion: &str, answer: &str) -> (r: bool)
    ensures
        r == answers(completion@, answer@),
{
    match extract_last_int(completion) {
        Some(n) => str_eq(n.as_str(), answer),
        None => false,
    }
}

/// Per-batch solve counts.
#[derive(Clone, Copy, Debug, PartialEq, Eq, Structural)]
pub struct SolveCounts {
    /// Prompts solved by the single greedy sample.
    pub pass1: usize,
    /// Prompts solved by at least one of the k sampled completions.
    pub pass_k: usize,
    /// Prompts in this batch.
    pub total: usize,
}

/// What a solve-rate metric reads: the full per-batch counts, of which it picks one.
#[derive(Clone, Copy, Debug, PartialEq, Eq, Structural)]
pub struct SolveRateInput {
    pub pass1: usize,
    pub pass_k: usize,
    pub total: usize,
}

impl SolveCounts {
    /// The counts as a metric reads them.
    pub fn adapt(&self) -> (r: SolveRateInput)
        ensures
            r.pass1 == self.pass1,
            r.pass_k == self.pass_k,
            r.total == self.total,
    {
        SolveRateInput { pass1: self.pass1, pass_k: self.pass_k, total: self.total }
    }
}

/// Which of the two rates a metric tracks.
#[derive(Clone, Copy, Debug, PartialEq, Eq, Structural)]
pub enum SolveKind {
    Pass1,
    PassK,
}

/// A held-out solve-rate metric: its name and the rate that it tracks.
#[derive(Debug)]
pub struct SolveRateMetric {
    pub name: String,
    pub kind: SolveKind,
}

impl SolveRateMetric {
    /// Greedy pass@1.
    pub fn pass1() -> (r: Self)
        ensures
            r.name@ == "Pass@1"@,
            r.kind == SolveKind::Pass1,
    {
        SolveRateMetric { name: "Pass@1".to_owned(), kind: SolveKind::Pass1 }
    }

    /// Sampled pass@k: any of `k` correct.
    pub fn pass_k(k: usize) -> (r: Self)
        ensures
            r.name@ == "Pass@"@ + decimal(k as nat),
            r.kind == SolveKind::PassK,
    {
        let n = usize_to_string(k);
        SolveRateMetric { name: "Pass@".to_owned().concat(n.as_str()), kind: SolveKind::PassK }
    }

    /// The fraction that an update reports, as solved prompts over a total of at least one.
    pub fn fraction(&self, input: &SolveRateInput) -> (r: (usize, usize))
        ensures
            r.0 == match self.kind {
                SolveKind::Pass1 => input.pass1,
                SolveKind::PassK => input.pass_k,
            },
            r.1 == if input.total == 0 {
                1
            } else {
                input.total as int
            },
    {
        let solved: usize = match self.kind {
            SolveKind::Pass1 => input.pass1,
            SolveKind::PassK => input.pass_k,
        };
        let total: usize = if input.total == 0 {
            1
        } else {
            input.total
        };
        (solved, total)
    }
}

/// Every further digit of a run belongs to the number that is being read.
proof fn lemma_run_grows(s: Seq<char>, d: nat, e: nat)
    requires
        d <= e <= s.len(),
        forall|i: int| d <= i < e ==> is_digit(#[trigger] s[i]),
    ensures
        run_len(s, e) == run_len(s, d) + (e - d),
    decreases e - d,
{
    if d < e {
        lemma_run_grows(s, d, (e - 1) as nat);
        assert(is_digit(s[e - 1]));
    }
}

/// Of dashes in a row every other one is read as a sign: the first where no number is being read
/// before them, the second where one is.
proof fn lemma_dashes_alternate(s: Seq<char>, q: nat, d: nat)
    requires
        q < d <= s.len(),
        forall|i: int| q <= i < d ==> #[trigger] s[i] == '-',
        q > 0 ==> s[q - 1] != '-',
    ensures
        run_len(s, d) == if (q > 0 && is_digit(s[q - 1])) == ((d - q) % 2 == 0) {
            1nat
        } else {
            0
        },
    decreases d - q,
{
    assert(s[d - 1] == '-');
    if q + 1 < d {
        lemma_dashes_alternate(s, q, (d - 1) as nat);
    } else if q > 0 {
        assert(run_len(s, q) > 0 <==> is_digit(s[q - 1]));
    }
}

/// The last digit of a text is where the search for it ends.
proof fn lemma_last_digit(s: Seq<char>, e: nat, k: nat)
    requires
        0 < e <= k <= s.len(),
        is_digit(s[e - 1]),
        forall|i: int| e <= i < k ==> !is_digit(#[trigger] s[i]),
    ensures
        digits_end(s, k) == e,
    decreases k - e,
{
    if e < k {
        lemma_last_digit(s, e, (k - 1) as nat);
    }
}

/// The extracted number is the whole unbroken run of digits that ends with the text's last digit:
/// let it stand from `d` to `e`, after the dashes from `q` to `d`. Not one digit of it is left
/// out. One dash before it is its sign where no number is being read: where the dashes follow a
/// digit, that is after an odd number of them, and elsewhere after an even number.
pub proof fn law_last_int_is_the_whole_run(s: Seq<char>, q: int, d: int, e: int)
    requires
        0 <= q <= d < e <= s.len(),
        forall|i: int| d <= i < e ==> '0' <= #[trigger] s[i] <= '9',
        forall|i: int| e <= i < s.len() ==> !('0' <= #[trigger] s[i] <= '9'),
        forall|i: int| q <= i < d ==> #[trigger] s[i] == '-',
        q > 0 ==> s[q - 1] != '-',
        q == d && d > 0 ==> !('0' <= s[d - 1] <= '9'),
    ensures
        ({
            let dashes = d - q;
            let follows_digit = q > 0 && '0' <= s[q - 1] <= '9';
            let signed = dashes > 0 && if follows_digit {
                dashes % 2 == 0
            } else {
                dashes % 2 == 1
            };
            last_int(s) == Some(
                s.subrange(
                    if signed {
                        d - 1
                    } else {
                        d
                    },
                    e,
                ),
            )
        }),
{
    assert(forall|c: char| #[trigger] is_digit(c) == ('0' <= c && c <= '9'));
    assert forall|i: int| d <= i < e implies is_digit(#[trigger] s[i]) by {}
    lemma_run_grows(s, d as nat, e as nat);
    assert(is_digit(s[e - 1]));
    lemma_last_digit(s, e as nat, s.len());
    if q < d {
        lemma_dashes_alternate(s, q as nat, d as nat);
    } else if d > 0 {
        assert(!is_digit(s[d - 1]) && s[d - 1] != '-');
        assert(run_len(s, d as nat) == 0);
    }
}

/// What comes after the last number does not matter, as long as it has no digit: the same number
/// is extracted.
pub proof fn law_text_after_the_number_does_not_matter(s: Seq<char>, more: Seq<char>)
    requires
        exists|i: int| 0 <= i < s.len() && '0' <= #[trigger] s[i] <= '9',
        forall|i: int| 0 <= i < more.len() ==> !('0' <= #[trigger] more[i] <= '9'),
    ensures
        last_int(s + more) == last_int(s),
{
    let whole = s + more;
    let e = digits_end(s, s.len());
    lemma_digits_end(s, s.len());
    lemma_run_len(s, s.len());
    let i = choose|i: int| 0 <= i < s.len() && '0' <= #[trigger] s[i] <= '9';
    assert(is_digit(s[i]));
    assert(e > 0);
    assert(whole[e - 1] == s[e - 1]);
    assert forall|k: int| e <= k < whole.len() implies !is_digit(#[trigger] whole[k]) by {
        if k < s.len() {
            assert(whole[k] == s[k]);
        } else {
            assert(whole[k] == more[k - s.len()]);
        }
    }
    lemma_last_digit(whole, e, whole.len());
    lemma_run_local(s, whole, e);
    lemma_run_len(s, e);
    assert(whole.subrange(e - run_len(s, e), e as int) =~= s.subrange(
        e - run_len(s, e),
        e as int,
    ));
}

/// The number being read depends on what was read alone.
proof fn lemma_run_local(s: Seq<char>, whole: Seq<char>, k: nat)
    requires
        k <= s.len() <= whole.len(),
        forall|i: int| 0 <= i < s.len() ==> whole[i] == s[i],
    ensures
        run_len(whole, k) == run_len(s, k),
    decreases k,
{
    if k > 0 {
        lemma_run_local(s, whole, (k - 1) as nat);
    }
}

/// A completion is correct exactly where the number that it ends with is, character by character,
/// the answer.
pub proof fn law_correct_is_the_last_number(completion: Seq<char>, answer: Seq<char>)
    ensures
        answers(completion, answer) <==> last_int(completion) == Some(answer),
{
}

} // verus!
