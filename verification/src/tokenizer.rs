//! The tokenizer as the rest of the library sees it: loading, text to ids, ids to text, incremental
//! decoding.

use crate::chat::option_text;
use crate::json::{
    describe_json, from_value, json_error_message, json_parsed, json_text, parse_json,
    rewrite_digits_pretokenizer, runnable_tokenizer, text_of_tree, to_value, tree_of, value_of,
    whole_numbers, Json, JsonView,
};
use crate::steps::{
    clear, description_steps, has_fitting_ids, ids_fit, is_clear, longest_text, read_description,
    text_limit,
};
use vstd::prelude::*;
use vstd::utf8::encode_utf8;

verus! {

broadcast use vstd::string::group_string_axioms;

/// `fastokens::Tokenizer`: a compiled byte-level tokenizer. Opaque; what it does to a text or to
/// ids is named below.
#[verifier::external_type_specification]
#[verifier::external_body]
pub struct ExTokenizer(fastokens::Tokenizer);

/// `fastokens::Error`: why a tokenizer call failed.
#[verifier::external_type_specification]
#[verifier::external_body]
pub struct ExTokenizerError(fastokens::Error);

/// `fastokens::DecodeStream`: the sliding window of an incremental decode.
#[verifier::external_type_specification]
#[verifier::external_body]
pub struct ExDecodeStream(fastokens::DecodeStream);

/// Whether encoding `text` with `tok` can give `outcome`: the ids, or an error.
///
/// A relation and not a function, because on long texts the encoder divides its work by the number
/// of processors and keeps matches from earlier calls.
pub uninterp spec fn encoding(
    tok: fastokens::Tokenizer,
    text: Seq<char>,
    outcome: Result<Seq<u32>, fastokens::Error>,
) -> bool;

/// What decoding `ids` with `tok` gives, with or without the special tokens; `None` for a failure.
pub uninterp spec fn decoded(
    tok: fastokens::Tokenizer,
    ids: Seq<u32>,
    skip_special: bool,
) -> Option<Seq<char>>;

/// What an error says of itself.
pub uninterp spec fn error_message(e: fastokens::Error) -> Seq<char>;

/// The stream that has decoded nothing yet.
pub uninterp spec fn fresh_stream(skip_special: bool) -> fastokens::DecodeStream;

/// What feeding `ids` to a stream leaves it as, and the text that becomes complete by it: `None`
/// while more ids are needed, and also where the stream reports an inconsistency.
pub uninterp spec fn streamed(
    before: fastokens::DecodeStream,
    tok: fastokens::Tokenizer,
    ids: Seq<u32>,
) -> (fastokens::DecodeStream, Option<Seq<char>>);

/// The outcome of an encoding: its ids, or the error.
pub open spec fn outcome_of(r: Result<Vec<u32>, fastokens::Error>) -> Result<
    Seq<u32>,
    fastokens::Error,
> {
    match r {
        Ok(v) => Ok(v@),
        Err(e) => Err(e),
    }
}

/// The text of a successful decoding.
pub open spec fn text_of(r: Result<String, fastokens::Error>) -> Option<Seq<char>> {
    match r {
        Ok(s) => Some(s@),
        Err(_) => None,
    }
}

/// Whether a tokenizer can be run on every text of this many bytes: it was built, on a machine with
/// this many processors, from a description whose steps are clear and that takes texts so long.
pub open spec fn runs(tok: fastokens::Tokenizer, processors: nat, bytes: nat) -> bool {
    exists|v: serde_json::Value| #[trigger]
        builds(v, Ok(tok)) && clear(description_steps(tree_of(v))) && bytes <= longest_text(
            tree_of(v),
            processors,
        )
}

/// `fastokens::Tokenizer::encode` runs the whole encoding pipeline on `text`. Trusted: what it
/// returns is an outcome of encoding that text with that tokenizer, and the empty text encodes to
/// no ids at all. Which ids they are stays unsaid.
///
/// `_processors` is what `std::thread::available_parallelism` reports when the process builds its
/// first tokenizer, and 1 where it reports none. What `runs` leaves out can make the call panic. A
/// step that isolates remembers its matches as positions in the whole text, which lie outside the
/// piece that a step which drops text leaves. It has one copy of its pattern for each processor,
/// and reads the second one whenever a text is long enough to be divided. Positions are kept in 32
/// bits.
#[verifier::external_body]
fn encode_text(tok: &fastokens::Tokenizer, text: &str, _processors: usize) -> (r: Result<
    Vec<u32>,
    fastokens::Error,
>)
    requires
        runs(*tok, _processors as nat, encode_utf8(text@).len()),
    ensures
        encoding(*tok, text@, outcome_of(r)),
        text@.len() == 0 ==> r is Ok && r->Ok_0@.len() == 0,
{
    tok.encode(text)
}

/// `fastokens::Tokenizer::decode` looks every id up and joins what the decoder makes of them.
/// Trusted: the text, or the failure, is a function of the tokenizer, the ids and the flag.
pub assume_specification[ fastokens::Tokenizer::decode ](
    tok: &fastokens::Tokenizer,
    ids: &[u32],
    skip_special_tokens: bool,
) -> (r: Result<String, fastokens::Error>)
    ensures
        text_of(r) == decoded(*tok, ids@, skip_special_tokens),
;

/// The `Display` text of a `fastokens::Error`. Trusted: it is a function of the error.
#[verifier::external_body]
fn describe(e: &fastokens::Error) -> (r: String)
    ensures
        r@ == error_message(*e),
{
    e.to_string()
}

/// `fastokens::DecodeStream::new` with no ids seeded. Trusted: every such stream is alike but for
/// the flag.
#[verifier::external_body]
pub(crate) fn new_stream(skip_special: bool) -> (r: fastokens::DecodeStream)
    ensures
        r == fresh_stream(skip_special),
{
    fastokens::DecodeStream::new(Vec::new(), skip_special)
}

/// `fastokens::DecodeStream::step` with a single id. Trusted: the new state and the completed text
/// are a function of the old state, the tokenizer and the id. An inconsistency that the stream
/// reports counts as no text.
#[verifier::external_body]
pub(crate) fn stream_step(
    stream: &mut fastokens::DecodeStream,
    tok: &fastokens::Tokenizer,
    id: u32,
) -> (r: Option<String>)
    ensures
        (*final(stream), option_text(r)) == streamed(*old(stream), *tok, seq![id]),
{
    stream.step(tok, vec![id]).ok().flatten()
}

/// Whether building a tokenizer from this description can give `outcome`.
///
/// A relation and not a function, because of two tokens with one id the builder keeps the one that
/// its hash map walks last.
pub uninterp spec fn builds(
    description: serde_json::Value,
    outcome: Result<fastokens::Tokenizer, fastokens::Error>,
) -> bool;

/// `fastokens::Tokenizer::from_json` compiles a tokenizer description. Trusted: what it returns is
/// an outcome of building from that description. Which descriptions are refused stays unsaid.
///
/// The builder makes a table that is one longer than the largest id of an added token, and panics
/// where that length overflows.
#[verifier::external_body]
fn build(json: serde_json::Value) -> (r: Result<fastokens::Tokenizer, fastokens::Error>)
    requires
        ids_fit(tree_of(json)),
    ensures
        builds(json, r),
{
    fastokens::Tokenizer::from_json(json)
}

/// A tokenizer that can be run, and how long the texts are that it takes.
pub struct TextTokenizer {
    inner: fastokens::Tokenizer,
    processors: usize,
    longest: usize,
}

impl TextTokenizer {
    /// The compiled tokenizer.
    pub closed spec fn raw(&self) -> fastokens::Tokenizer {
        self.inner
    }

    /// The most bytes of text that it takes.
    pub closed spec fn longest(&self) -> nat {
        self.longest as nat
    }

    /// Whether it takes a text.
    pub open spec fn takes(&self, text: Seq<char>) -> bool {
        encode_utf8(text).len() <= self.longest()
    }

    /// It can be run on every text that it takes.
    #[verifier::type_invariant]
    closed spec fn runnable(self) -> bool {
        runs(self.inner, self.processors as nat, self.longest as nat)
    }

    /// The compiled tokenizer.
    pub fn as_raw(&self) -> (r: &fastokens::Tokenizer)
        ensures
            *r == self.raw(),
    {
        &self.inner
    }
}

/// What can be run on a text can be run on a shorter one.
proof fn lemma_runs_below(tok: fastokens::Tokenizer, processors: nat, bytes: nat, fewer: nat)
    requires
        runs(tok, processors, bytes),
    ensures
        fewer <= bytes ==> runs(tok, processors, fewer),
{
    let v = choose|v: serde_json::Value| #[trigger]
        builds(v, Ok(tok)) && clear(description_steps(tree_of(v))) && bytes <= longest_text(
            tree_of(v),
            processors,
        );
    assert(builds(v, Ok(tok)));
}

/// What is said of a text that a tokenizer does not take.
pub const TOO_LONG: &'static str = "the text is too long for the encoder on this machine";

/// Whether encoding `text` with `tok` can give these ids, or `None` for a failure. A text that the
/// tokenizer does not take fails.
pub open spec fn encodes(tok: TextTokenizer, text: Seq<char>, outcome: Option<Seq<u32>>) -> bool {
    match outcome {
        Some(ids) => tok.takes(text) && encoding(tok.raw(), text, Ok(ids)),
        None => !tok.takes(text) || exists|e: fastokens::Error| encoding(tok.raw(), text, Err(e)),
    }
}

/// Whether encoding `text` with `tok` can fail and say this.
pub open spec fn fails_with(tok: TextTokenizer, text: Seq<char>, message: Seq<char>) -> bool {
    if tok.takes(text) {
        exists|e: fastokens::Error| #[trigger]
            encoding(tok.raw(), text, Err(e)) && message == error_message(e)
    } else {
        message == TOO_LONG@
    }
}

/// Why a tokenizer could not be loaded.
#[derive(Debug)]
pub enum LoadError {
    /// The text is no JSON, and the parser said this.
    Parse(String),
    /// An added token has an id that no table can hold.
    Ids,
    /// The description was refused with this message.
    Build(String),
    /// The pre-tokenizer has steps that cannot be run one after the other.
    Steps,
}

/// The description that a tokenizer is built from: the one given, in runnable form.
pub open spec fn runnable_value(description: JsonView) -> serde_json::Value {
    value_of(runnable_tokenizer(description))
}

/// Whether building from this value, on a machine with this many processors, can give this outcome.
pub open spec fn loads(
    v: serde_json::Value,
    processors: nat,
    outcome: Result<TextTokenizer, LoadError>,
) -> bool {
    match outcome {
        Ok(t) => {
            &&& ids_fit(tree_of(v))
            &&& clear(description_steps(tree_of(v)))
            &&& builds(v, Ok(t.raw()))
            &&& t.longest() == longest_text(tree_of(v), processors)
        },
        Err(LoadError::Parse(_)) => false,
        Err(LoadError::Ids) => !ids_fit(tree_of(v)),
        Err(LoadError::Build(m)) => ids_fit(tree_of(v)) && exists|e: fastokens::Error| #[trigger]
            builds(v, Err(e)) && m@ == error_message(e),
        Err(LoadError::Steps) => ids_fit(tree_of(v)) && !clear(description_steps(tree_of(v)))
            && exists|t: fastokens::Tokenizer| builds(v, Ok(t)),
    }
}

/// Builds the tokenizer of a description, once every `Digits` pre-tokenizer in it is rewritten to
/// the `Split` that does the same. `processors` is how many the machine has.
pub fn tokenizer_from(description: Json, processors: usize) -> (r: Result<TextTokenizer, LoadError>)
    ensures
        loads(runnable_value(description.tree()), processors as nat, r),
{
    let mut json = description;
    rewrite_digits_pretokenizer(&mut json);
    let value = to_value(json);
    let ghost v = value;
    let read = from_value(&value);
    if !has_fitting_ids(&read) {
        return Err(LoadError::Ids);
    }
    match build(value) {
        Ok(inner) => {
            assert(builds(v, Ok(inner)));
            if is_clear(&read_description(&read)) {
                let longest = text_limit(&read, processors);
                Ok(TextTokenizer { inner, processors, longest })
            } else {
                Err(LoadError::Steps)
            }
        },
        Err(e) => {
            assert(builds(v, Err(e)));
            Err(LoadError::Build(describe(&e)))
        },
    }
}

/// Loads a tokenizer from the text of its description. `processors` is how many the machine has. A
/// description with nothing to rewrite, and without fractions, is built as it was parsed.
pub fn load_tokenizer(raw: &str, processors: usize) -> (r: Result<TextTokenizer, LoadError>)
    ensures
        match json_parsed(raw@) {
            Ok(v) => {
                &&& loads(runnable_value(tree_of(v)), processors as nat, r)
                &&& whole_numbers(tree_of(v)) && runnable_tokenizer(tree_of(v)) == tree_of(v)
                    ==> loads(v, processors as nat, r)
            },
            Err(e) => r matches Err(LoadError::Parse(m)) && m@ == json_error_message(e),
        },
{
    match parse_json(raw) {
        Ok(value) => tokenizer_from(from_value(&value), processors),
        Err(e) => Err(LoadError::Parse(describe_json(&e))),
    }
}

/// The text of a tokenizer description in runnable form, to be kept beside the model.
pub fn runnable_text(raw: &str) -> (r: Result<String, LoadError>)
    ensures
        match json_parsed(raw@) {
            Ok(v) => r matches Ok(s) && s@ == text_of_tree(runnable_tokenizer(tree_of(v))),
            Err(e) => r matches Err(LoadError::Parse(m)) && m@ == json_error_message(e),
        },
{
    match parse_json(raw) {
        Ok(value) => {
            let mut json = from_value(&value);
            rewrite_digits_pretokenizer(&mut json);
            Ok(json_text(json))
        },
        Err(e) => Err(LoadError::Parse(describe_json(&e))),
    }
}

/// Ids as the signed integers that the training rows hold.
pub open spec fn signed(ids: Seq<u32>) -> Seq<i64> {
    ids.map_values(|t: u32| t as i64)
}

/// Widens ids to the signed integers that the training rows hold.
pub fn widen(ids: &Vec<u32>) -> (r: Vec<i64>)
    ensures
        r@ == signed(ids@),
{
    let mut out: Vec<i64> = Vec::new();
    let mut i: usize = 0;
    while i < ids.len()
        invariant
            i <= ids.len(),
            out.len() == i,
            forall|j: int| 0 <= j < i ==> out[j] == ids[j] as i64,
        decreases ids.len() - i,
    {
        out.push(ids[i] as i64);
        i += 1;
    }
    assert(out@ =~= signed(ids@));
    out
}

/// A sampled id as the tokenizer takes it: its low 32 bits.
pub open spec fn narrowed(id: i64) -> u32 {
    id as u32
}

/// Narrows sampled ids to the width that the tokenizer takes.
pub fn narrow(ids: &Vec<i64>) -> (r: Vec<u32>)
    ensures
        r@ == ids@.map_values(|t: i64| narrowed(t)),
{
    let mut out: Vec<u32> = Vec::new();
    let mut i: usize = 0;
    while i < ids.len()
        invariant
            i <= ids.len(),
            out.len() == i,
            forall|j: int| 0 <= j < i ==> out[j] == narrowed(#[trigger] ids[j]),
        decreases ids.len() - i,
    {
        out.push(#[verifier::truncate] (ids[i] as u32));
        i += 1;
    }
    assert(out@ =~= ids@.map_values(|t: i64| narrowed(t)));
    out
}

impl TextTokenizer {
    /// Encodes a text; on failure, says why.
    pub fn encode(&self, text: &str) -> (r: Result<Vec<u32>, String>)
        ensures
            match r {
                Ok(ids) => encodes(*self, text@, Some(ids@)),
                Err(m) => encodes(*self, text@, None) && fails_with(*self, text@, m@),
            },
            text@.len() == 0 ==> (r matches Ok(ids) && ids@.len() == 0),
    {
        proof {
            use_type_invariant(self);
            lemma_runs_below(
                self.inner,
                self.processors as nat,
                self.longest as nat,
                encode_utf8(text@).len(),
            );
        }
        if text.as_bytes().len() > self.longest {
            return Err(TOO_LONG.to_owned());
        }
        match encode_text(&self.inner, text, self.processors) {
            Ok(ids) => Ok(ids),
            Err(e) => {
                assert(encoding(self.raw(), text@, Err(e)));
                Err(describe(&e))
            },
        }
    }
}

/// Encodes a text to signed ids; on failure, says why.
pub fn encode_ids(tok: &TextTokenizer, text: &str) -> (r: Result<Vec<i64>, String>)
    ensures
        match r {
            Ok(v) => exists|ids: Seq<u32>| #[trigger]
                encodes(*tok, text@, Some(ids)) && v@ == signed(ids),
            Err(m) => fails_with(*tok, text@, m@),
        },
        text@.len() == 0 ==> (r matches Ok(v) && v@.len() == 0),
{
    match tok.encode(text) {
        Ok(ids) => Ok(widen(&ids)),
        Err(m) => Err(m),
    }
}

/// Decodes sampled ids without the special tokens; a failure reads as the empty text.
pub fn decode_or_empty(tok: &TextTokenizer, ids: &Vec<i64>) -> (r: String)
    ensures
        r@ == completion_reading(*tok, ids@),
{
    let narrow_ids = narrow(ids);
    match tok.inner.decode(narrow_ids.as_slice(), true) {
        Ok(s) => s,
        Err(_) => String::new(),
    }
}

/// What sampled ids read as: their decoding without the special tokens, or nothing where it fails.
pub open spec fn completion_reading(tok: TextTokenizer, ids: Seq<i64>) -> Seq<char> {
    match decoded(tok.raw(), ids.map_values(|t: i64| narrowed(t)), true) {
        Some(s) => s,
        None => Seq::empty(),
    }
}

/// Ids keep their order and their values when they are widened, and every id that the tokenizer
/// knows is the same id when it is narrowed again.
pub proof fn law_ids_keep_their_values(ids: Seq<u32>, i: int)
    requires
        0 <= i < ids.len(),
    ensures
        signed(ids).len() == ids.len(),
        signed(ids)[i] == ids[i],
        narrowed(signed(ids)[i]) == ids[i],
{
}

/// A completion reads as what its ids decode to, in order and without the special tokens, and as
/// nothing where they do not decode.
pub proof fn law_completions_read_as_they_decode(tok: TextTokenizer, ids: Seq<u32>)
    ensures
        completion_reading(tok, signed(ids)) == match decoded(tok.raw(), ids, true) {
            Some(text) => text,
            None => Seq::empty(),
        },
{
    assert(signed(ids).map_values(|t: i64| narrowed(t)) =~= ids);
}

/// Ids come of a text only where the encoder can give them for that very text, and a text fails
/// only where the encoder can fail on it or it is longer than the tokenizer takes.
pub proof fn law_encodings_are_the_encoders(tok: TextTokenizer, text: Seq<char>, ids: Seq<u32>)
    ensures
        encodes(tok, text, Some(ids)) ==> encoding(tok.raw(), text, Ok(ids)) && encode_utf8(
            text,
        ).len() <= tok.longest(),
        encodes(tok, text, None) && encode_utf8(text).len() <= tok.longest() ==> exists|
            e: fastokens::Error,
        |
            encoding(tok.raw(), text, Err(e)),
{
}

/// A text that is not encoded is refused with the encoder's own words, or, where it is longer than
/// the encoder takes, with those for that.
pub proof fn law_refusals_say_why(tok: TextTokenizer, text: Seq<char>, message: Seq<char>)
    requires
        fails_with(tok, text, message),
    ensures
        encode_utf8(text).len() > tok.longest() ==> message
            == "the text is too long for the encoder on this machine"@,
        encode_utf8(text).len() <= tok.longest() ==> exists|e: fastokens::Error| #[trigger]
            encoding(tok.raw(), text, Err(e)) && message == error_message(e),
        encodes(tok, text, None),
{
}

/// A description that loads is the one that the encoder was built from, with ids that fit and
/// steps that can follow each other, and texts are taken up to the longest that its steps leave
/// room for. A description is refused only for what it is refused with: ids that do not fit, the
/// encoder's own words, or steps that cannot follow each other.
pub proof fn law_descriptions_load_unless_they_must_not(
    v: serde_json::Value,
    processors: nat,
    outcome: Result<TextTokenizer, LoadError>,
)
    requires
        loads(v, processors, outcome),
    ensures
        outcome matches Ok(t) ==> builds(v, Ok(t.raw())) && ids_fit(tree_of(v)) && clear(
            description_steps(tree_of(v)),
        ) && t.longest() == longest_text(tree_of(v), processors),
        !ids_fit(tree_of(v)) <==> outcome matches Err(LoadError::Ids),
        outcome matches Err(LoadError::Steps) ==> !clear(description_steps(tree_of(v))),
        outcome matches Err(LoadError::Build(m)) ==> exists|e: fastokens::Error| #[trigger]
            builds(v, Err(e)) && m@ == error_message(e),
        !(outcome matches Err(LoadError::Parse(_))),
{
}

/// What is built is the rewritten description: one that has no `Digits` pre-tokenizer is built as
/// it is, and none is built with one.
pub proof fn law_rewritten_descriptions_are_built(description: JsonView)
    ensures
        runnable_value(description) == value_of(runnable_tokenizer(description)),
        runnable_value(runnable_tokenizer(description)) == runnable_value(description),
        runnable_tokenizer(description) == description ==> runnable_value(description) == value_of(
            description,
        ),
{
    crate::json::law_rewrite_is_idempotent(description);
}

} // verus!
