//! Training the tokenizer: a byte-level BPE with the special tokens reserved first, and the checks
//! that its result has to pass.

use crate::chat::{law_special_token_ids, law_special_token_texts_distinct, SpecialToken,
    SPECIAL_TOKEN_COUNT, TURN_END_ID};
use crate::text::str_eq;
use crate::tokenizer::{decoded, encodes, TextTokenizer};
use std::collections::HashSet;
use tokenizers::models::bpe::{BpeTrainer, BPE};
use tokenizers::models::TrainerWrapper;
use tokenizers::pre_tokenizers::byte_level::ByteLevel;
use tokenizers::pre_tokenizers::sequence::Sequence;
use tokenizers::pre_tokenizers::split::{Split, SplitPattern};
use tokenizers::tokenizer::SplitDelimiterBehavior;
use tokenizers::AddedToken;
use vstd::prelude::*;

verus! {

broadcast use vstd::string::group_string_axioms;

/// How text is split before merges are learned: contractions, letter runs, numbers of one or two
/// digits, punctuation runs and white space.
pub const SPLIT_PATTERN: &'static str = r"'(?i:[sdmt]|ll|ve|re)|[^\r\n\p{L}\p{N}]?+\p{L}+|\p{N}{1,2}| ?[^\s\p{L}\p{N}]++[\r\n]*|\s*[\r\n]|\s+(?!\S)|\s+";

/// Pair counts are 32-bit integers in the trainer, so a corpus stays below this many bytes.
pub const CORPUS_LIMIT: usize = 0x4000_0000;

/// Whether a vocabulary can be numbered: ids have 32 bits, and the trainer's tables, which are
/// sized up front, have to be addressable.
pub open spec fn numberable(vocab_size: usize) -> bool {
    vocab_size <= u32::MAX && vocab_size <= usize::MAX / 256
}

/// Whether a vocabulary can be numbered.
pub fn vocab_fits(vocab_size: usize) -> (r: bool)
    ensures
        r == numberable(vocab_size),
{
    vocab_size <= usize::MAX / 256 && vocab_size as u64 <= 0xFFFF_FFFF
}

/// `tokenizers::Tokenizer`: a tokenizer under construction. Opaque.
#[verifier::external_type_specification]
#[verifier::external_body]
pub struct ExTrainedTokenizer(tokenizers::Tokenizer);

/// `tokenizers::PreTokenizerWrapper`: one step of splitting a text up. Opaque.
#[verifier::external_type_specification]
#[verifier::external_body]
pub struct ExPreTokenizer(tokenizers::PreTokenizerWrapper);

/// What a split does with the delimiters that it finds.
#[derive(Clone, Copy, Debug, PartialEq, Eq, Structural)]
pub enum SplitBehavior {
    Removed,
    Isolated,
    MergedWithPrevious,
    MergedWithNext,
    Contiguous,
}

/// The BPE tokenizer without tokens, steps or decoder; `None` where it is refused.
pub uninterp spec fn empty_bpe(byte_fallback: bool) -> Option<tokenizers::Tokenizer>;

/// The step that splits by a regular expression; `None` where the pattern is none.
pub uninterp spec fn split_by(
    pattern: Seq<char>,
    behavior: SplitBehavior,
    invert: bool,
) -> Option<tokenizers::PreTokenizerWrapper>;

/// The step that maps bytes to characters.
pub uninterp spec fn map_bytes(
    add_prefix_space: bool,
    trim_offsets: bool,
    use_regex: bool,
) -> tokenizers::PreTokenizerWrapper;

/// A tokenizer with these steps, one after the other, in place of those that it had.
pub uninterp spec fn with_steps(
    t: tokenizers::Tokenizer,
    steps: Seq<tokenizers::PreTokenizerWrapper>,
) -> tokenizers::Tokenizer;

/// A tokenizer with the decoder that maps characters back to bytes.
pub uninterp spec fn with_byte_decoder(
    t: tokenizers::Tokenizer,
    add_prefix_space: bool,
    trim_offsets: bool,
    use_regex: bool,
) -> tokenizers::Tokenizer;

/// The vocabulary of a tokenizer: the id of every token.
pub uninterp spec fn vocabulary_of(t: tokenizers::Tokenizer) -> Map<Seq<char>, u32>;

/// Whether training can turn one tokenizer into another, with success, or with this error.
pub uninterp spec fn bpe_trains(
    before: tokenizers::Tokenizer,
    texts: Seq<Seq<char>>,
    vocab_size: nat,
    min_frequency: u64,
    alphabet: Set<char>,
    specials: Seq<Seq<char>>,
    special: bool,
    after: tokenizers::Tokenizer,
    error: Option<Seq<char>>,
) -> bool;

/// A tokenizer written as JSON; `None` where it cannot be.
pub uninterp spec fn tokenizer_json(t: tokenizers::Tokenizer) -> Option<Seq<char>>;

/// A tokenizer without any token.
pub open spec fn knows_nothing(t: tokenizers::Tokenizer) -> bool {
    vocabulary_of(t).dom() == Set::<Seq<char>>::empty()
}

/// A tokenizer in whose vocabulary each of these tokens has its position as id.
pub open spec fn reserves(t: tokenizers::Tokenizer, specials: Seq<Seq<char>>) -> bool {
    forall|i: int|
        0 <= i < specials.len() ==> vocabulary_of(t).contains_pair(
            #[trigger] specials[i],
            i as u32,
        )
}

/// The characters that stand for bytes: the printable ones for themselves, and one more for each of
/// the 68 others.
pub open spec fn is_byte_char(c: char) -> bool {
    ||| 0x21 <= c as u32 <= 0x7E
    ||| 0xA1 <= c as u32 <= 0xAC
    ||| 0xAE <= c as u32 <= 0x143
}

/// `tokenizers::Tokenizer::new` on the empty model of `BPE::builder`. Trusted: the tokenizer, or the
/// failure, is a function of the flag, and its vocabulary is empty.
#[verifier::external_body]
fn new_tokenizer(byte_fallback: bool) -> (r: Option<tokenizers::Tokenizer>)
    ensures
        r == empty_bpe(byte_fallback),
        r is Some ==> knows_nothing(r->0),
{
    BPE::builder().byte_fallback(byte_fallback).build().ok().map(tokenizers::Tokenizer::new)
}

/// `Split::new` of `tokenizers` on a regular expression. Trusted: the step, or the failure, is a
/// function of the arguments.
#[verifier::external_body]
fn split_step(pattern: &str, behavior: SplitBehavior, invert: bool) -> (r: Option<
    tokenizers::PreTokenizerWrapper,
>)
    ensures
        r == split_by(pattern@, behavior, invert),
{
    let behavior = match behavior {
        SplitBehavior::Removed => SplitDelimiterBehavior::Removed,
        SplitBehavior::Isolated => SplitDelimiterBehavior::Isolated,
        SplitBehavior::MergedWithPrevious => SplitDelimiterBehavior::MergedWithPrevious,
        SplitBehavior::MergedWithNext => SplitDelimiterBehavior::MergedWithNext,
        SplitBehavior::Contiguous => SplitDelimiterBehavior::Contiguous,
    };
    Split::new(SplitPattern::Regex(pattern.to_string()), behavior, invert).ok().map(|s| s.into())
}

/// `ByteLevel::new` of `tokenizers`, as a step. Trusted: the step is a function of the flags.
#[verifier::external_body]
fn byte_step(add_prefix_space: bool, trim_offsets: bool, use_regex: bool) -> (r:
    tokenizers::PreTokenizerWrapper)
    ensures
        r == map_bytes(add_prefix_space, trim_offsets, use_regex),
{
    ByteLevel::new(add_prefix_space, trim_offsets, use_regex).into()
}

/// `tokenizers::Tokenizer::with_pre_tokenizer` with the `Sequence` of these steps. Trusted: what the
/// tokenizer becomes is a function of it and the steps, and its vocabulary stays.
#[verifier::external_body]
fn set_steps(t: &mut tokenizers::Tokenizer, steps: Vec<tokenizers::PreTokenizerWrapper>)
    ensures
        *final(t) == with_steps(*old(t), steps@),
        vocabulary_of(*final(t)) == vocabulary_of(*old(t)),
{
    t.with_pre_tokenizer(Some(Sequence::new(steps)));
}

/// `tokenizers::Tokenizer::with_decoder` with a `ByteLevel`. Trusted: what the tokenizer becomes is a
/// function of it and the flags, and its vocabulary stays.
#[verifier::external_body]
fn set_byte_decoder(
    t: &mut tokenizers::Tokenizer,
    add_prefix_space: bool,
    trim_offsets: bool,
    use_regex: bool,
)
    ensures
        *final(t) == with_byte_decoder(*old(t), add_prefix_space, trim_offsets, use_regex),
        vocabulary_of(*final(t)) == vocabulary_of(*old(t)),
{
    t.with_decoder(Some(ByteLevel::new(add_prefix_space, trim_offsets, use_regex)));
}

/// `ByteLevel::alphabet` of `tokenizers`, in no particular order. Trusted: it holds the characters that
/// stand for bytes and no others.
#[verifier::external_body]
fn byte_alphabet() -> (r: Vec<char>)
    ensures
        forall|c: char| #[trigger] r@.contains(c) <==> is_byte_char(c),
{
    ByteLevel::alphabet().into_iter().collect()
}

/// `tokenizers::Tokenizer::train` with a `BpeTrainer` of this vocabulary size, minimum pair frequency
/// and initial alphabet, which reserves these tokens, marked special or not. Trusted: what becomes of
/// the tokenizer, and the error, are an outcome of training it on these arguments; and where it had no
/// vocabulary and training succeeds, every reserved token has its position in the list as id, because
/// the trainer takes them first. The merges that it learns stay unsaid.
#[verifier::external_body]
fn train_bpe(
    t: &mut tokenizers::Tokenizer,
    texts: &Vec<String>,
    vocab_size: usize,
    min_frequency: u64,
    alphabet: Vec<char>,
    specials: &Vec<String>,
    special: bool,
) -> (r: Result<(), String>)
    requires
        total_bytes(texts.deep_view()) < CORPUS_LIMIT,
        numberable(vocab_size),
    ensures
        bpe_trains(
            *old(t),
            texts.deep_view(),
            vocab_size as nat,
            min_frequency,
            alphabet@.to_set(),
            specials.deep_view(),
            special,
            *final(t),
            failure(r),
        ),
        r is Ok && knows_nothing(*old(t)) && specials.deep_view().no_duplicates() ==> reserves(
            *final(t),
            specials.deep_view(),
        ),
{
    let reserved = specials.iter().map(|s| AddedToken::from(s.as_str(), special)).collect();
    let builder = BpeTrainer::builder().show_progress(false).vocab_size(vocab_size);
    let builder = builder.min_frequency(min_frequency);
    let letters = alphabet.into_iter().collect::<HashSet<_>>();
    let bpe = builder.initial_alphabet(letters).special_tokens(reserved).build();
    let mut trainer = TrainerWrapper::BpeTrainer(bpe);
    let done = t.train(&mut trainer, texts.iter().map(String::as_str));
    done.map(|_| ()).map_err(|e| e.to_string())
}

/// What a failure says, if there is one.
pub open spec fn failure(r: Result<(), String>) -> Option<Seq<char>> {
    match r {
        Ok(_) => None,
        Err(m) => Some(m@),
    }
}

/// `tokenizers::Tokenizer::to_string`, indented. Trusted: the text, or the failure, is a function
/// of the tokenizer.
#[verifier::external_body]
fn write_json(t: &tokenizers::Tokenizer) -> (r: Option<String>)
    ensures
        crate::chat::option_text(r) == tokenizer_json(*t),
{
    t.to_string(true).ok()
}

/// `tokenizers::Tokenizer::get_vocab_size` with the added tokens. Trusted: it counts the
/// vocabulary.
#[verifier::external_body]
fn vocab_len(t: &tokenizers::Tokenizer) -> (r: usize)
    ensures
        r == vocabulary_of(*t).dom().len(),
{
    t.get_vocab_size(true)
}

/// The bytes of these texts together.
pub open spec fn total_bytes(texts: Seq<Seq<char>>) -> nat
    decreases texts.len(),
{
    if texts.len() == 0 {
        0
    } else {
        total_bytes(texts.drop_last()) + vstd::utf8::encode_utf8(texts.last()).len()
    }
}

/// Whether a corpus stays below the limit.
pub fn corpus_fits(texts: &Vec<String>) -> (r: bool)
    ensures
        r <==> total_bytes(texts.deep_view()) < CORPUS_LIMIT,
{
    let ghost all = texts.deep_view();
    let mut total: usize = 0;
    let mut i: usize = 0;
    while i < texts.len()
        invariant
            all == texts.deep_view(),
            i <= texts.len(),
            total == total_bytes(all.take(i as int)),
            total < CORPUS_LIMIT,
        decreases texts.len() - i,
    {
        let n: usize = texts[i].as_str().as_bytes().len();
        proof {
            assert(all.take(i + 1).drop_last() =~= all.take(i as int));
            assert(all.take(i + 1).last() == texts[i as int]@);
            lemma_total_bytes(all, i + 1);
        }
        if n >= CORPUS_LIMIT - total {
            return false;
        }
        total = total + n;
        i += 1;
    }
    assert(all.take(all.len() as int) =~= all);
    true
}

proof fn lemma_total_bytes(texts: Seq<Seq<char>>, k: int)
    requires
        0 <= k <= texts.len(),
    ensures
        total_bytes(texts.take(k)) <= total_bytes(texts),
    decreases texts.len(),
{
    if k < texts.len() {
        lemma_total_bytes(texts.drop_last(), k);
        assert(texts.drop_last().take(k) =~= texts.take(k));
    } else {
        assert(texts.take(k) =~= texts);
    }
}

/// The texts of the special tokens, in id order.
pub open spec fn special_texts(all: Seq<SpecialToken>) -> Seq<Seq<char>> {
    all.map_values(|t: SpecialToken| t.text())
}

/// A trained tokenizer: its description, and the number of its tokens.
pub struct TrainedTokenizer {
    pub json: String,
    pub size: usize,
}

/// Why a tokenizer could not be trained.
#[derive(Debug)]
pub enum TrainError {
    /// The empty model was refused.
    Model,
    /// The split pattern was refused.
    Pattern,
    /// Training failed, and said this.
    Training(String),
    /// The result could not be written.
    Writing,
}

/// The step that training starts with: splits at the matches of the pattern, which stay as pieces
/// of their own.
pub open spec fn first_step() -> Option<tokenizers::PreTokenizerWrapper> {
    split_by(SPLIT_PATTERN@, SplitBehavior::Isolated, false)
}

/// The tokenizer that training starts from: falls back to bytes, splits by the pattern, then maps
/// bytes in bulk, and decodes them back.
pub open spec fn blank() -> tokenizers::Tokenizer {
    with_byte_decoder(
        with_steps(empty_bpe(true)->0, seq![first_step()->0, map_bytes(false, true, false)]),
        true,
        true,
        true,
    )
}

/// A training run of the tokenizer that ends in `after`, with success, or with this error.
pub open spec fn trained_by(
    texts: Seq<Seq<char>>,
    vocab_size: nat,
    after: tokenizers::Tokenizer,
    error: Option<Seq<char>>,
) -> bool {
    exists|all: Seq<SpecialToken>, alphabet: Set<char>|
        all.len() == SPECIAL_TOKEN_COUNT && (forall|i: int|
            0 <= i < all.len() ==> (#[trigger] all[i]).spec_id() == i) && (forall|c: char|
            #[trigger] alphabet.contains(c) <==> is_byte_char(c)) && empty_bpe(true) is Some
            && first_step() is Some && #[trigger] bpe_trains(
            blank(),
            texts,
            vocab_size,
            0,
            alphabet,
            special_texts(all),
            true,
            after,
            error,
        )
}

/// A training run of the tokenizer can fail and say this.
pub open spec fn training_fails(
    texts: Seq<Seq<char>>,
    vocab_size: nat,
    message: Seq<char>,
) -> bool {
    exists|t: tokenizers::Tokenizer| #[trigger] trained_by(texts, vocab_size, t, Some(message))
}

/// Builds the tokenizer that training starts from.
fn blank_tokenizer() -> (r: Result<tokenizers::Tokenizer, TrainError>)
    ensures
        match r {
            Ok(t) => empty_bpe(true) is Some && first_step() is Some && t == blank()
                && knows_nothing(t),
            Err(TrainError::Model) => empty_bpe(true) is None,
            Err(TrainError::Pattern) => empty_bpe(true) is Some && first_step() is None,
            Err(_) => false,
        },
{
    let mut t = match new_tokenizer(true) {
        Some(t) => t,
        None => return Err(TrainError::Model),
    };
    let split = match split_step(SPLIT_PATTERN, SplitBehavior::Isolated, false) {
        Some(split) => split,
        None => return Err(TrainError::Pattern),
    };
    let mut steps: Vec<tokenizers::PreTokenizerWrapper> = Vec::new();
    steps.push(split);
    steps.push(byte_step(false, true, false));
    assert(steps@ =~= seq![first_step()->0, map_bytes(false, true, false)]);
    set_steps(&mut t, steps);
    set_byte_decoder(&mut t, true, true, true);
    Ok(t)
}

/// Trains a byte-level BPE of `vocab_size` tokens on these texts. Every special token gets its own
/// id, whatever is learned besides.
pub fn train_tokenizer(texts: &Vec<String>, vocab_size: usize) -> (r: Result<
    TrainedTokenizer,
    TrainError,
>)
    requires
        total_bytes(texts.deep_view()) < CORPUS_LIMIT,
        numberable(vocab_size),
    ensures
        match r {
            Ok(trained) => exists|t: tokenizers::Tokenizer| #[trigger]
                trained_by(texts.deep_view(), vocab_size as nat, t, None) && tokenizer_json(t)
                    == Some(trained.json@) && trained.size == vocabulary_of(t).dom().len() && (
                forall|s: SpecialToken|
                    vocabulary_of(t).contains_pair(#[trigger] s.text(), s.spec_id() as u32)),
            Err(TrainError::Model) => empty_bpe(true) is None,
            Err(TrainError::Pattern) => empty_bpe(true) is Some && first_step() is None,
            Err(TrainError::Training(m)) => training_fails(
                texts.deep_view(),
                vocab_size as nat,
                m@,
            ),
            Err(TrainError::Writing) => exists|t: tokenizers::Tokenizer| #[trigger]
                trained_by(texts.deep_view(), vocab_size as nat, t, None) && tokenizer_json(t)
                    is None,
        },
{
    let mut t = match blank_tokenizer() {
        Ok(t) => t,
        Err(e) => return Err(e),
    };
    let all = SpecialToken::all();
    let mut specials: Vec<String> = Vec::new();
    let mut i: usize = 0;
    while i < all.len()
        invariant
            i <= all.len(),
            specials.len() == i,
            forall|j: int| 0 <= j < i ==> (#[trigger] specials[j])@ == all[j].text(),
        decreases all.len() - i,
    {
        specials.push(all[i].as_str().to_owned());
        i += 1;
    }
    let ghost texts_of = special_texts(all@);
    proof {
        assert(specials.deep_view() =~= texts_of);
        assert forall|a: int, b: int|
            0 <= a < texts_of.len() && 0 <= b < texts_of.len() && a != b implies texts_of[a]
            != texts_of[b] by {
            if texts_of[a] == texts_of[b] {
                assert(all@[a].spec_id() == a && all@[b].spec_id() == b);
                law_special_token_texts_distinct(all@[a], all@[b]);
            }
        }
        assert(texts_of.no_duplicates());
    }
    let alphabet = byte_alphabet();
    let ghost letters = alphabet@.to_set();
    proof {
        assert forall|c: char| #[trigger] letters.contains(c) <==> is_byte_char(c) by {
            assert(letters.contains(c) <==> alphabet@.contains(c));
        }
    }
    match train_bpe(&mut t, texts, vocab_size, 0, alphabet, &specials, true) {
        Ok(_) => {},
        Err(e) => {
            assert(trained_by(texts.deep_view(), vocab_size as nat, t, Some(e@)));
            assert(training_fails(texts.deep_view(), vocab_size as nat, e@));
            return Err(TrainError::Training(e));
        },
    }
    proof {
        assert(trained_by(texts.deep_view(), vocab_size as nat, t, None));
        assert forall|s: SpecialToken| vocabulary_of(t).contains_pair(
            #[trigger] s.text(),
            s.spec_id() as u32,
        ) by {
            let k = s.spec_id() as int;
            law_special_token_ids(s, all@[k]);
            assert(all@[k].spec_id() == k);
            assert(specials.deep_view()[k] == s.text());
        }
    }
    match write_json(&t) {
        Some(json) => Ok(TrainedTokenizer { json, size: vocab_len(&t) }),
        None => Err(TrainError::Writing),
    }
}

/// A text of words, symbols and several scripts that has to survive encoding and decoding.
pub const SAMPLE: &'static str = "fn main() { let x = 2 + 2; }  ∑ café 日本語";

/// A text with a control byte, which has to be encodable.
pub const WITH_CONTROL: &'static str = "control \u{0006} byte";

/// What is wrong with a tokenizer.
#[derive(Debug)]
pub enum VerifyError {
    /// The sample cannot be encoded.
    EncodeSample,
    /// The sample's ids cannot be decoded.
    DecodeSample,
    /// The sample decodes to this other text.
    RoundTrip(String),
    /// The control byte cannot be encoded.
    ControlByte,
    /// The turn terminator cannot be encoded.
    EncodeTurnEnd,
    /// The turn terminator encodes to these ids, and not to its own.
    TurnEnd(Vec<u32>),
}

/// Confirms that a tokenizer round-trips a sample, encodes a control byte, and encodes the turn
/// terminator to its known id. Gives the number of tokens of the sample.
pub fn verify(tok: &TextTokenizer) -> (r: Result<usize, VerifyError>)
    ensures
        match r {
            Ok(n) => {
                &&& exists|ids: Seq<u32>| #[trigger]
                    encodes(*tok, SAMPLE@, Some(ids)) && decoded(tok.raw(), ids, false) == Some(SAMPLE@)
                        && ids.len() == n
                &&& exists|ids: Seq<u32>| #[trigger] encodes(*tok, WITH_CONTROL@, Some(ids))
                &&& encodes(
                    *tok,
                    SpecialToken::TurnClose.text(),
                    Some(seq![TURN_END_ID as u32]),
                )
            },
            Err(VerifyError::EncodeSample) => encodes(*tok, SAMPLE@, None),
            Err(VerifyError::DecodeSample) => exists|ids: Seq<u32>| #[trigger]
                encodes(*tok, SAMPLE@, Some(ids)) && decoded(tok.raw(), ids, false) is None,
            Err(VerifyError::RoundTrip(other)) => other@ != SAMPLE@ && exists|ids: Seq<u32>|
                #[trigger]
                encodes(*tok, SAMPLE@, Some(ids)) && decoded(tok.raw(), ids, false) == Some(other@),
            Err(VerifyError::ControlByte) => encodes(*tok, WITH_CONTROL@, None),
            Err(VerifyError::EncodeTurnEnd) => encodes(*tok, SpecialToken::TurnClose.text(), None),
            Err(VerifyError::TurnEnd(ids)) => ids@ != seq![TURN_END_ID as u32] && encodes(
                *tok,
                SpecialToken::TurnClose.text(),
                Some(ids@),
            ),
        },
{
    let ids = match tok.encode(SAMPLE) {
        Ok(ids) => ids,
        Err(_) => return Err(VerifyError::EncodeSample),
    };
    assert(encodes(*tok, SAMPLE@, Some(ids@)));
    let round = match tok.as_raw().decode(ids.as_slice(), false) {
        Ok(round) => round,
        Err(_) => return Err(VerifyError::DecodeSample),
    };
    if !str_eq(round.as_str(), SAMPLE) {
        return Err(VerifyError::RoundTrip(round));
    }
    match tok.encode(WITH_CONTROL) {
        Ok(control) => {
            assert(encodes(*tok, WITH_CONTROL@, Some(control@)));
        },
        Err(_) => return Err(VerifyError::ControlByte),
    }
    let end = match tok.encode(SpecialToken::TurnClose.as_str()) {
        Ok(end) => end,
        Err(_) => return Err(VerifyError::EncodeTurnEnd),
    };
    if end.len() != 1 || end[0] != TURN_END_ID as u32 {
        return Err(VerifyError::TurnEnd(end));
    }
    assert(end@ =~= seq![TURN_END_ID as u32]);
    Ok(ids.len())
}

/// Texts have as many bytes together as each has for itself.
pub proof fn law_bytes_add_up(texts: Seq<Seq<char>>, more: Seq<char>)
    ensures
        total_bytes(Seq::<Seq<char>>::empty()) == 0,
        total_bytes(texts.push(more)) == total_bytes(texts) + vstd::utf8::encode_utf8(more).len(),
{
    assert(texts.push(more).drop_last() =~= texts);
}

/// A vocabulary can be numbered where its ids have 32 bits and a table of 256 bytes for each can
/// be addressed.
pub proof fn law_numberable_vocabularies(vocab_size: usize)
    ensures
        numberable(vocab_size) <==> vocab_size < 0x1_0000_0000 && vocab_size * 256 <= usize::MAX,
{
}

/// Training starts from a tokenizer without tokens that falls back to bytes, splits by the pattern
/// with its matches kept as pieces, maps bytes without adding a space or splitting again, and
/// decodes by mapping back. It keeps every pair however rare, knows every byte from the start, and
/// reserves each special token under its own id.
pub proof fn law_training_is_set_up_so(
    texts: Seq<Seq<char>>,
    vocab_size: nat,
    after: tokenizers::Tokenizer,
    error: Option<Seq<char>>,
) -> (r: (Set<char>, Seq<Seq<char>>))
    requires
        trained_by(texts, vocab_size, after, error),
    ensures
        ({
            let (alphabet, specials) = r;
            let split = split_by(
                r"'(?i:[sdmt]|ll|ve|re)|[^\r\n\p{L}\p{N}]?+\p{L}+|\p{N}{1,2}| ?[^\s\p{L}\p{N}]++[\r\n]*|\s*[\r\n]|\s+(?!\S)|\s+"@,
                SplitBehavior::Isolated,
                false,
            );
            let steps = seq![split->0, map_bytes(false, true, false)];
            let start = with_byte_decoder(
                with_steps(empty_bpe(true)->0, steps),
                true,
                true,
                true,
            );
            &&& split is Some
            &&& empty_bpe(true) is Some
            &&& specials.len() == 24
            &&& forall|t: SpecialToken| specials[t.spec_id() as int] == #[trigger] t.text()
            &&& forall|c: char| #[trigger] alphabet.contains(c) <==> is_byte_char(c)
            &&& bpe_trains(start, texts, vocab_size, 0, alphabet, specials, true, after, error)
        }),
{
    let (all, alphabet) = choose|all: Seq<SpecialToken>, alphabet: Set<char>|
        all.len() == SPECIAL_TOKEN_COUNT && (forall|i: int|
            0 <= i < all.len() ==> (#[trigger] all[i]).spec_id() == i) && (forall|c: char|
            #[trigger] alphabet.contains(c) <==> is_byte_char(c)) && empty_bpe(true) is Some
            && first_step() is Some && #[trigger] bpe_trains(
            blank(),
            texts,
            vocab_size,
            0,
            alphabet,
            special_texts(all),
            true,
            after,
            error,
        );
    assert forall|t: SpecialToken| special_texts(all)[t.spec_id() as int] == #[trigger] t.text() by {
        let k = t.spec_id() as int;
        assert(all[k].spec_id() == k);
        law_special_token_ids(t, all[k]);
    }
    (alphabet, special_texts(all))
}

/// The characters for bytes are those from the exclamation mark on, without the control
/// characters, the space that does not break and the hyphen that does not show.
pub proof fn law_characters_for_bytes(c: char)
    ensures
        is_byte_char(c) <==> '!' <= c && c <= '\u{143}' && !('\u{7f}' <= c && c <= '\u{a0}') && c
            != '\u{ad}',
{
}

} // verus!
