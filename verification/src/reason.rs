//! Reasoning examples: reading traces, and turning them into rows with the thought in its channel.

use crate::chat::{
    assistant_completion, completion_text, exchange_text, option_str, option_text, single_turn,
    single_turn_checked,
};
use crate::data::{
    lemma_find_at, lemma_find_in_tail, lemma_find_none, lemma_mark_stands_once, sft_inputs, sft_row,
    sft_targets, RowError,
};
use crate::text::{
    chars_of, find_chars, find_from, occurs_at, occurs_in, str_eq, trim_chars, trimmed,
};
use crate::tokenizer::{encode_ids, encodes, fails_with, signed, TextTokenizer};
use vstd::prelude::*;

verus! {

broadcast use vstd::string::group_string_axioms;

/// What opens the thought of a trace.
pub const TRACE_OPEN: &'static str = "<think>";

/// What closes the thought of a trace.
pub const TRACE_CLOSE: &'static str = "</think>";

/// How a dataset marks an output that reasons.
pub const REASONING_ON: &'static str = "on";

/// A question with its answer, and the thought that leads to it where there is one.
#[derive(Debug)]
pub struct ReasonExample {
    pub question: String,
    pub thought: Option<String>,
    pub answer: String,
}

/// What a reasoning example holds.
pub struct ReasonView {
    pub question: Seq<char>,
    pub thought: Option<Seq<char>>,
    pub answer: Seq<char>,
}

impl View for ReasonExample {
    type V = ReasonView;

    open spec fn view(&self) -> ReasonView {
        ReasonView {
            question: self.question@,
            thought: option_text(self.thought),
            answer: self.answer@,
        }
    }
}

/// The thought and the answer of a trace: what stands between the first opening mark and the
/// closing mark after it, and what follows that, both without white space around them. `None` where
/// a mark is missing or one of the two is empty.
pub open spec fn trace_parts(output: Seq<char>) -> Option<(Seq<char>, Seq<char>)> {
    match find_from(output, TRACE_OPEN@, 0) {
        Some(i) => {
            let start = i + TRACE_OPEN@.len();
            match find_from(output, TRACE_CLOSE@, start) {
                Some(j) => {
                    let thought = trimmed(output.subrange(start, j));
                    let answer = trimmed(
                        output.subrange(j + TRACE_CLOSE@.len(), output.len() as int),
                    );
                    if thought.len() > 0 && answer.len() > 0 {
                        Some((thought, answer))
                    } else {
                        None
                    }
                },
                None => None,
            }
        },
        None => None,
    }
}

/// Splits a trace into thought and answer.
pub fn split_trace(output: &str) -> (r: Option<(String, String)>)
    ensures
        match r {
            Some((t, a)) => trace_parts(output@) == Some((t@, a@)),
            None => trace_parts(output@) is None,
        },
{
    let cs = chars_of(output);
    let open = chars_of(TRACE_OPEN);
    let close = chars_of(TRACE_CLOSE);
    match find_chars(&cs, &open, 0) {
        Some(i) => {
            let start: usize = i + open.len();
            match find_chars(&cs, &close, start) {
                Some(j) => {
                    let thought = trim_chars(&cs, start, j);
                    let answer = trim_chars(&cs, j + close.len(), cs.len());
                    if thought.as_str().unicode_len() > 0 && answer.as_str().unicode_len() > 0 {
                        Some((thought, answer))
                    } else {
                        None
                    }
                },
                None => None,
            }
        },
        None => None,
    }
}

/// What a dataset row asks: a text, or messages, each by its content where it has one.
#[derive(Debug)]
pub enum Asked {
    Text(String),
    Messages(Vec<Option<String>>),
}

/// The question that is asked: the text itself, or the content of the only message.
pub open spec fn question_in(asked: Asked) -> Option<Seq<char>> {
    match asked {
        Asked::Text(s) => Some(s@),
        Asked::Messages(ms) => if ms.len() == 1 {
            option_text(ms[0])
        } else {
            None
        },
    }
}

/// The question that is asked, if it is a single one.
pub fn question_of(asked: &Asked) -> (r: Option<&str>)
    ensures
        option_str(r) == question_in(*asked),
{
    match asked {
        Asked::Text(s) => Some(s.as_str()),
        Asked::Messages(ms) => if ms.len() == 1 {
            match &ms[0] {
                Some(s) => Some(s.as_str()),
                None => None,
            }
        } else {
            None
        },
    }
}

/// The example of a dataset row. With reasoning on the output is a trace; otherwise all of it is
/// the answer. `None` where the row is malformed: no question, no answer, or no trace where one is
/// due.
pub open spec fn example_of(question: Seq<char>, output: Seq<char>, reasoning: Seq<char>) -> Option<
    ReasonView,
> {
    if trimmed(question).len() == 0 {
        None
    } else if reasoning == REASONING_ON@ {
        match trace_parts(output) {
            Some((thought, answer)) => Some(
                ReasonView { question: trimmed(question), thought: Some(thought), answer },
            ),
            None => None,
        }
    } else if trimmed(output).len() > 0 {
        Some(ReasonView { question: trimmed(question), thought: None, answer: trimmed(output) })
    } else {
        None
    }
}

/// The example of a dataset row, unless the row is malformed.
pub fn reason_example(question: &str, output: &str, reasoning: &str) -> (r: Option<ReasonExample>)
    ensures
        match r {
            Some(e) => example_of(question@, output@, reasoning@) == Some(e@),
            None => example_of(question@, output@, reasoning@) is None,
        },
{
    let q = chars_of(question);
    let question = trim_chars(&q, 0, q.len());
    assert(q@.subrange(0, q@.len() as int) =~= q@);
    if question.as_str().unicode_len() == 0 {
        return None;
    }
    if str_eq(reasoning, REASONING_ON) {
        return match split_trace(output) {
            Some((thought, answer)) => Some(
                ReasonExample { question, thought: Some(thought), answer },
            ),
            None => None,
        };
    }
    let o = chars_of(output);
    let answer = trim_chars(&o, 0, o.len());
    assert(o@.subrange(0, o@.len() as int) =~= o@);
    if answer.as_str().unicode_len() == 0 {
        None
    } else {
        Some(ReasonExample { question, thought: None, answer })
    }
}

/// The prompt of an example, cued to think exactly where it has a thought.
pub open spec fn cued_prompt(e: ReasonView) -> Option<Seq<char>> {
    single_turn(e.question, e.thought is Some)
}

/// The whole text of an example: its prompt, then the completion with the thought in its channel.
pub open spec fn reasoned_text(e: ReasonView) -> Option<Seq<char>> {
    match cued_prompt(e) {
        Some(p) => Some(p + completion_text(e.answer, e.thought)),
        None => None,
    }
}

/// Whether an example can give this row of inputs and targets, or `None` because its tokens exceed
/// `seq_len`: such a row is dropped, not cut.
pub open spec fn reason_outcome(
    tok: TextTokenizer,
    e: ReasonView,
    seq_len: int,
    row: Option<(Seq<i64>, Seq<i64>)>,
) -> bool {
    &&& cued_prompt(e) is Some
    &&& match row {
        Some((inputs, targets)) => exists|full: Seq<u32>, head: Seq<u32>|
            #![trigger
                encodes(tok, reasoned_text(e)->0, Some(full)),
                encodes(tok, cued_prompt(e)->0, Some(head))]
            {
                &&& encodes(tok, reasoned_text(e)->0, Some(full))
                &&& encodes(tok, cued_prompt(e)->0, Some(head))
                &&& full.len() <= seq_len + 1
                &&& inputs == sft_inputs(signed(full), seq_len)
                &&& targets == sft_targets(signed(full), head.len() as int, seq_len)
            },
        None => exists|full: Seq<u32>| #[trigger]
            encodes(tok, reasoned_text(e)->0, Some(full)) && full.len() > seq_len + 1,
    }
}

/// The row of a reasoning example: a row as for instruction tuning, with the thought among what is
/// supervised. `Ok(None)` where the example is too long for it.
pub fn reason_row(tok: &TextTokenizer, e: &ReasonExample, seq_len: usize) -> (r: Result<
    Option<(Vec<i64>, Vec<i64>)>,
    RowError,
>)
    ensures
        match r {
            Ok(Some((inputs, targets))) => reason_outcome(
                *tok,
                e@,
                seq_len as int,
                Some((inputs@, targets@)),
            ),
            Ok(None) => reason_outcome(*tok, e@, seq_len as int, None),
            Err(RowError::Template) => cued_prompt(e@) is None,
            Err(RowError::Example(m)) => cued_prompt(e@) is Some && fails_with(
                *tok,
                reasoned_text(e@)->0,
                m@,
            ),
            Err(RowError::Prompt(m)) => cued_prompt(e@) is Some && fails_with(
                *tok,
                cued_prompt(e@)->0,
                m@,
            ),
        },
{
    let thought: Option<&str> = match &e.thought {
        Some(t) => Some(t.as_str()),
        None => None,
    };
    assert(option_str(thought) == e@.thought);
    let head = match single_turn_checked(e.question.as_str(), e.thought.is_some()) {
        Some(head) => head,
        None => return Err(RowError::Template),
    };
    let completion = assistant_completion(e.answer.as_str(), thought);
    let text = head.as_str().to_owned().concat(completion.as_str());
    assert(head@ == cued_prompt(e@)->0);
    assert(text@ == reasoned_text(e@)->0);
    let full = match encode_ids(tok, text.as_str()) {
        Ok(full) => full,
        Err(m) => return Err(RowError::Example(m)),
    };
    if full.len() > 0 && full.len() - 1 > seq_len {
        return Ok(None);
    }
    let head_ids = match encode_ids(tok, head.as_str()) {
        Ok(ids) => ids,
        Err(m) => return Err(RowError::Prompt(m)),
    };
    Ok(Some(sft_row(&full, head_ids.len(), seq_len)))
}

/// A row that is kept loses no token of its example: all but the last are inputs, and every token
/// past the prompt is supervised.
pub proof fn law_kept_rows_are_whole(full: Seq<i64>, prompt_len: int, seq_len: int)
    requires
        0 <= prompt_len,
        1 <= full.len() <= seq_len + 1,
    ensures
        sft_inputs(full, seq_len).take(full.len() - 1) == full.drop_last(),
        forall|k: int|
            1 <= k && prompt_len <= k < full.len() ==> sft_targets(full, prompt_len, seq_len)[k - 1]
                == #[trigger] full[k],
{
    assert(sft_inputs(full, seq_len).take(full.len() - 1) =~= full.drop_last());
}

/// The thought switches with the cue: an example with a thought is asked with the cue, and its text
/// goes on with the thought in its channel; one without is asked without it, and its text goes on
/// as for instruction tuning.
pub proof fn law_thought_follows_the_cue(e: ReasonView)
    requires
        cued_prompt(e) is Some,
    ensures
        e.thought is Some ==> reasoned_text(e) == Some(
            single_turn(e.question, true)->0 + completion_text(e.answer, e.thought),
        ),
        e.thought is None ==> reasoned_text(e) == exchange_text(e.question, e.answer),
{
}

/// A trace is read whole: let its thought open right after `before` and nowhere sooner, and let
/// the thought hold no closing mark. Then the thought and the answer are what stands between the
/// marks and what stands after them, line breaks and all, without the white space at their ends;
/// where one of the two is empty there is no trace.
pub proof fn law_traces_are_read_whole(
    before: Seq<char>,
    thought: Seq<char>,
    answer: Seq<char>,
)
    requires
        !occurs_in(thought, "</think>"@),
        forall|j: int|
            0 <= j < before.len() ==> !#[trigger] occurs_at(
                before + "<think>"@ + thought + "</think>"@ + answer,
                "<think>"@,
                j,
            ),
    ensures
        trace_parts(before + "<think>"@ + thought + "</think>"@ + answer) == if trimmed(
            thought,
        ).len() > 0 && trimmed(answer).len() > 0 {
            Some((trimmed(thought), trimmed(answer)))
        } else {
            None
        },
{
    let (open, close) = ("<think>"@, "</think>"@);
    reveal_strlit("</think>");
    let head = before + open;
    let text = before + open + thought + close + answer;
    let start = head.len() as int;
    assert(text.subrange(before.len() as int, start) =~= open);
    lemma_find_at(text, open, 0, before.len() as int);
    let tail = thought + close + answer;
    assert(text =~= head + tail);
    assert(tail.subrange(thought.len() as int, (thought.len() + close.len()) as int) =~= close);
    assert forall|j: int| 0 <= j < thought.len() implies !#[trigger] occurs_at(tail, close, j) by {
        lemma_mark_stands_once(thought, close, answer, j);
    }
    lemma_find_at(tail, close, 0, thought.len() as int);
    lemma_find_in_tail(head, tail, close, 0);
    assert(text.subrange(start, start + thought.len()) =~= thought);
    assert(text.subrange(start + thought.len() + close.len(), text.len() as int) =~= answer);
}

/// A text without the mark that opens a thought is no trace.
pub proof fn law_no_trace_without_its_mark(output: Seq<char>)
    requires
        !occurs_in(output, "<think>"@),
    ensures
        trace_parts(output) is None,
{
    lemma_find_none(output, "<think>"@, 0);
}

/// A row with reasoning on becomes an example with the thought and the answer of its trace; any
/// other row becomes one without a thought, with its whole output as the answer. The question is
/// the row's own. A row without a question, an answer or a trace that is due becomes none.
pub proof fn law_examples_hold_their_row(
    question: Seq<char>,
    output: Seq<char>,
    reasoning: Seq<char>,
)
    ensures
        trimmed(question).len() == 0 ==> example_of(question, output, reasoning) is None,
        trimmed(question).len() > 0 && reasoning == "on"@ ==> match trace_parts(output) {
            Some((thought, answer)) => example_of(question, output, reasoning) == Some(
                (ReasonView { question: trimmed(question), thought: Some(thought), answer }),
            ),
            None => example_of(question, output, reasoning) is None,
        },
        trimmed(question).len() > 0 && reasoning != "on"@ ==> if trimmed(output).len() > 0 {
            example_of(question, output, reasoning) == Some(
                (ReasonView {
                    question: trimmed(question),
                    thought: None,
                    answer: trimmed(output),
                }),
            )
        } else {
            example_of(question, output, reasoning) is None
        },
{
}

/// A row of a reasoning example is of its own question, thought and answer, whole: its tokens are
/// those of the prompt, cued exactly where there is a thought, and of the completion, with the
/// thought in its channel; all of them fit; and past the prompt every one is supervised.
pub proof fn law_reason_rows_are_of_their_example(
    tok: TextTokenizer,
    e: ReasonView,
    seq_len: int,
    row: (Seq<i64>, Seq<i64>),
) -> (tokens: (Seq<u32>, Seq<u32>))
    requires
        reason_outcome(tok, e, seq_len, Some(row)),
        0 <= seq_len,
    ensures
        ({
            let prompt = single_turn(e.question, e.thought is Some)->0;
            let thought = match e.thought {
                Some(t) => "<|channel>"@ + "thought"@ + seq!['\n'] + t + seq!['\n']
                    + "<channel|>"@,
                None => Seq::empty(),
            };
            &&& single_turn(e.question, e.thought is Some) is Some
            &&& encodes(
                tok,
                prompt + (thought + e.answer + "<turn|>"@ + seq!['\n']),
                Some(tokens.0),
            )
            &&& encodes(tok, prompt, Some(tokens.1))
        }),
        tokens.0.len() <= seq_len + 1,
        row.0.len() == seq_len && row.1.len() == seq_len,
        forall|j: int|
            0 <= j < seq_len ==> #[trigger] row.0[j] == if j + 1 < tokens.0.len() {
                tokens.0[j] as i64
            } else {
                0
            },
        forall|j: int|
            0 <= j < seq_len ==> #[trigger] row.1[j] == if tokens.1.len() <= j + 1
                < tokens.0.len() {
                tokens.0[j + 1] as i64
            } else {
                0
            },
{
    let (full, head) = choose|full: Seq<u32>, head: Seq<u32>|
        #![trigger
            encodes(tok, reasoned_text(e)->0, Some(full)),
            encodes(tok, cued_prompt(e)->0, Some(head))]
        {
            &&& encodes(tok, reasoned_text(e)->0, Some(full))
            &&& encodes(tok, cued_prompt(e)->0, Some(head))
            &&& full.len() <= seq_len + 1
            &&& row.0 == sft_inputs(signed(full), seq_len)
            &&& row.1 == sft_targets(signed(full), head.len() as int, seq_len)
        };
    let thought = match e.thought {
        Some(t) => "<|channel>"@ + "thought"@ + seq!['\n'] + t + seq!['\n'] + "<channel|>"@,
        None => Seq::empty(),
    };
    assert(completion_text(e.answer, e.thought) =~= thought + e.answer + "<turn|>"@ + seq!['\n']);
    (full, head)
}

/// An example is dropped only where its tokens do not fit: those of its whole text are more than
/// the row and one.
pub proof fn law_only_overlong_examples_are_dropped(
    tok: TextTokenizer,
    e: ReasonView,
    seq_len: int,
) -> (full: Seq<u32>)
    requires
        reason_outcome(tok, e, seq_len, None),
    ensures
        single_turn(e.question, e.thought is Some) matches Some(p) && encodes(
            tok,
            p + completion_text(e.answer, e.thought),
            Some(full),
        ) && full.len() > seq_len + 1,
{
    choose|full: Seq<u32>| #[trigger]
        encodes(tok, reasoned_text(e)->0, Some(full)) && full.len() > seq_len + 1
}

/// A question is asked by a text or by a single message, in whole; several messages ask none.
pub proof fn law_questions_are_single(text: String, messages: Vec<Option<String>>)
    ensures
        question_in(Asked::Text(text)) == Some(text@),
        messages.len() != 1 ==> question_in(Asked::Messages(messages)) is None,
        messages.len() == 1 ==> match messages[0] {
            Some(s) => question_in(Asked::Messages(messages)) == Some(s@),
            None => question_in(Asked::Messages(messages)) is None,
        },
{
}

} // verus!
