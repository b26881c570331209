//! What a tokenizer description makes the encoder do, as far as that decides which texts it can
//! take.

use crate::data::smaller;
use crate::json::{
    field_from, field_position, fields_tree, items_tree, json_get, lemma_field_in_range,
    lemma_list_tree, lemma_object_tree, Json, JsonView,
};
use crate::text::{
    chars_of, decimal, law_decimal_reads_back, parse_usize, parsed_usize, str_eq,
};
use vstd::prelude::*;

verus! {

broadcast use vstd::string::group_string_axioms;

/// One step of a pre-tokenizer.
#[derive(Clone, Copy, Debug, PartialEq, Eq, Structural)]
pub enum Step {
    /// Maps every byte to a character.
    Bytes,
    /// Splits, and makes every match and every gap a piece.
    Isolating,
    /// Splits, and drops what it matches.
    Dropping,
    /// Splits in another way, in which no text is lost.
    Cutting,
    /// Is written in a way that no tokenizer file uses.
    Unknown,
}

/// The step that a `Split` entry is. Without a behavior it isolates.
pub open spec fn split_step(entry: JsonView) -> Step {
    match (json_get(entry, "behavior"@), json_get(entry, "invert"@)) {
        (None, None) | (None, Some(JsonView::Bool(false))) => Step::Isolating,
        (None, Some(JsonView::Bool(true))) => Step::Cutting,
        (Some(JsonView::Text(b)), None) => behaving(b, false),
        (Some(JsonView::Text(b)), Some(JsonView::Bool(invert))) => behaving(b, invert),
        _ => Step::Unknown,
    }
}

/// The step of a `Split` with this behavior, inverted or not.
pub open spec fn behaving(behavior: Seq<char>, invert: bool) -> Step {
    if behavior == "Removed"@ {
        Step::Dropping
    } else if behavior == "Isolated"@ && !invert {
        Step::Isolating
    } else {
        Step::Cutting
    }
}

/// The steps of a pre-tokenizer, with nested sequences laid flat.
pub open spec fn steps_of(v: JsonView) -> Seq<Step>
    decreases v,
{
    match v {
        JsonView::Null => Seq::empty(),
        JsonView::Object(fields) => match json_get(v, "type"@) {
            Some(JsonView::Text(kind)) => if kind == "ByteLevel"@ {
                seq![Step::Bytes]
            } else if kind == "Split"@ {
                seq![split_step(v)]
            } else if kind == "Sequence"@ {
                match field_from(fields, "pretokenizers"@, 0) {
                    Some(i) => if 0 <= i < fields.len() && fields[i].1 is List {
                        steps_in(fields[i].1->List_0)
                    } else {
                        seq![Step::Unknown]
                    },
                    None => Seq::empty(),
                }
            } else {
                seq![Step::Unknown]
            },
            _ => seq![Step::Unknown],
        },
        _ => seq![Step::Unknown],
    }
}

/// The steps of a list of pre-tokenizers.
pub open spec fn steps_in(items: Seq<JsonView>) -> Seq<Step>
    decreases items,
{
    if items.len() == 0 {
        Seq::empty()
    } else {
        steps_in(items.drop_last()) + steps_of(items.last())
    }
}

/// The steps of the pre-tokenizer in a tokenizer description.
pub open spec fn description_steps(description: JsonView) -> Seq<Step> {
    match json_get(description, "pre_tokenizer"@) {
        Some(v) => steps_of(v),
        None => Seq::empty(),
    }
}

/// Whether a description normalizes text.
pub open spec fn normalizes(description: JsonView) -> bool {
    match json_get(description, "normalizer"@) {
        None | Some(JsonView::Null) => false,
        Some(_) => true,
    }
}

/// Whether steps can follow each other: all are known, and none that drops text comes before one
/// that isolates. The encoder remembers matches as positions in the whole text, and reads them as
/// positions in what is left of it.
pub open spec fn clear(steps: Seq<Step>) -> bool {
    &&& forall|i: int| 0 <= i < steps.len() ==> #[trigger] steps[i] != Step::Unknown
    &&& forall|i: int, j: int|
        0 <= i < j < steps.len() && #[trigger] steps[i] == Step::Dropping
            ==> #[trigger] steps[j] != Step::Isolating
}

/// Below this many bytes no text is divided among processors.
pub const UNDIVIDED: usize = 16384;

/// Below this many characters the encoder's 32-bit positions hold.
pub const COUNTABLE: usize = 0x8000_0000;

/// How many times longer normalizing can make a text.
pub const NORMAL_GROWTH: usize = 3;

/// How many times longer a step that maps bytes can make a text: a space before each piece, and
/// then two bytes for each one.
pub const BYTES_GROWTH: usize = 4;

/// How many bytes a text may have so that these steps leave no more than `cap` of it. With a single
/// processor a text that reaches a step that isolates must also be too short to be divided.
pub open spec fn room(steps: Seq<Step>, single: bool, cap: nat) -> nat
    decreases steps.len(),
{
    if steps.len() == 0 {
        cap
    } else {
        let before = steps.drop_last();
        match steps.last() {
            Step::Bytes => room(before, single, cap / BYTES_GROWTH as nat),
            Step::Isolating => if single {
                room(before, single, smaller(cap, (UNDIVIDED - 1) as nat))
            } else {
                room(before, single, cap)
            },
            _ => room(before, single, cap),
        }
    }
}

/// The most bytes of text that the tokenizer of a description takes, on a machine with this many
/// processors.
pub open spec fn longest_text(description: JsonView, processors: nat) -> nat {
    let n = room(description_steps(description), processors < 2, (COUNTABLE - 1) as nat);
    if normalizes(description) {
        n / NORMAL_GROWTH as nat
    } else {
        n
    }
}

/// Whether a table can be as long as this id asks for.
pub open spec fn id_fits(id: nat) -> bool {
    id < 0xffff_ffff && id < isize::MAX as nat / 8
}

/// Whether a value is no id that is too large.
pub open spec fn no_large_id(v: JsonView) -> bool {
    match v {
        JsonView::Number(literal) => match parsed_usize(literal) {
            Some(id) => id_fits(id as nat),
            None => true,
        },
        _ => true,
    }
}

/// Whether an added token has no id that is too large. An entry is an object, or a list that starts
/// with the id.
pub open spec fn entry_fits(entry: JsonView) -> bool {
    match entry {
        JsonView::Object(_) => match json_get(entry, "id"@) {
            Some(v) => no_large_id(v),
            None => true,
        },
        JsonView::List(items) => items.len() > 0 ==> no_large_id(items[0]),
        _ => true,
    }
}

/// Whether none of these added tokens has an id that is too large.
pub open spec fn entries_fit(entries: Seq<JsonView>) -> bool {
    forall|i: int| 0 <= i < entries.len() ==> entry_fits(#[trigger] entries[i])
}

/// Whether no added token of a description has an id that is too large.
pub open spec fn ids_fit(description: JsonView) -> bool {
    match json_get(description, "added_tokens"@) {
        Some(JsonView::List(entries)) => entries_fit(entries),
        _ => true,
    }
}

/// Reads the step that a `Split` entry is.
fn read_split(entry: &Json) -> (r: Step)
    ensures
        r == split_step(entry.tree()),
{
    let invert = match entry.get("invert") {
        None => Some(false),
        Some(Json::Bool(b)) => Some(*b),
        Some(_) => None,
    };
    match (entry.get("behavior"), invert) {
        (None, Some(invert)) => if invert {
            Step::Cutting
        } else {
            Step::Isolating
        },
        (Some(Json::Text(b)), Some(invert)) => if str_eq(b.as_str(), "Removed") {
            Step::Dropping
        } else if str_eq(b.as_str(), "Isolated") && !invert {
            Step::Isolating
        } else {
            Step::Cutting
        },
        _ => Step::Unknown,
    }
}

/// A list of one step.
fn one_step(step: Step) -> (r: Vec<Step>)
    ensures
        r@ == seq![step],
{
    let mut out: Vec<Step> = Vec::new();
    out.push(step);
    assert(out@ =~= seq![step]);
    out
}

/// Reads the steps of a pre-tokenizer, with nested sequences laid flat.
pub fn read_steps(v: &Json) -> (r: Vec<Step>)
    ensures
        r@ == steps_of(v.tree()),
    decreases v,
{
    match v {
        Json::Null => Vec::new(),
        Json::Object(fields) => {
            proof {
                lemma_object_tree(*v);
                lemma_field_in_range(fields_tree(fields@), "pretokenizers"@, 0);
            }
            match v.get("type") {
                Some(Json::Text(kind)) => {
                    if str_eq(kind.as_str(), "ByteLevel") {
                        one_step(Step::Bytes)
                    } else if str_eq(kind.as_str(), "Split") {
                        one_step(read_split(v))
                    } else if str_eq(kind.as_str(), "Sequence") {
                        match field_position(fields, "pretokenizers") {
                            Some(i) => {
                                match &fields[i].1 {
                                    Json::List(items) => {
                                        proof {
                                            lemma_list_tree(fields@[i as int].1);
                                        }
                                        read_list(items)
                                    },
                                    _ => one_step(Step::Unknown),
                                }
                            },
                            None => Vec::new(),
                        }
                    } else {
                        one_step(Step::Unknown)
                    }
                },
                _ => one_step(Step::Unknown),
            }
        },
        _ => one_step(Step::Unknown),
    }
}

/// Reads the steps of a list of pre-tokenizers.
fn read_list(items: &Vec<Json>) -> (r: Vec<Step>)
    ensures
        r@ == steps_in(items_tree(items@)),
    decreases items,
{
    let ghost all = items_tree(items@);
    let mut out: Vec<Step> = Vec::new();
    let mut i: usize = 0;
    assert(all.take(0) =~= Seq::empty());
    while i < items.len()
        invariant
            i <= items.len(),
            all == items_tree(items@),
            out@ == steps_in(all.take(i as int)),
        decreases items.len() - i,
    {
        assert(decreases_to!(items => items@[i as int]));
        let mut more = read_steps(&items[i]);
        out.append(&mut more);
        proof {
            let next = all.take(i + 1);
            assert(next.drop_last() =~= all.take(i as int));
            assert(next.last() == all[i as int]);
        }
        i += 1;
    }
    assert(all.take(all.len() as int) =~= all);
    out
}

/// Reads the steps of the pre-tokenizer in a tokenizer description.
pub fn read_description(description: &Json) -> (r: Vec<Step>)
    ensures
        r@ == description_steps(description.tree()),
{
    match description.get("pre_tokenizer") {
        Some(v) => read_steps(v),
        None => Vec::new(),
    }
}

/// Tells whether steps can follow each other.
pub fn is_clear(steps: &Vec<Step>) -> (r: bool)
    ensures
        r == clear(steps@),
{
    let mut dropped = false;
    let mut i: usize = 0;
    while i < steps.len()
        invariant
            i <= steps.len(),
            clear(steps@.take(i as int)),
            dropped <==> exists|k: int| 0 <= k < i && #[trigger] steps@[k] == Step::Dropping,
        decreases steps.len() - i,
    {
        let ghost seen = steps@.take(i as int);
        let ghost next = steps@.take(i + 1);
        match steps[i] {
            Step::Unknown => {
                return false;
            },
            Step::Isolating => {
                if dropped {
                    return false;
                }
            },
            Step::Dropping => {
                dropped = true;
            },
            _ => {},
        }
        proof {
            assert forall|k: int| 0 <= k < next.len() implies #[trigger] next[k]
                != Step::Unknown by {
                if k < i {
                    assert(seen[k] == next[k]);
                }
            }
            assert forall|a: int, b: int|
                0 <= a < b < next.len() && #[trigger] next[a]
                    == Step::Dropping implies #[trigger] next[b] != Step::Isolating by {
                assert(seen[a] == next[a]);
                if b < i {
                    assert(seen[b] == next[b]);
                } else {
                    assert(steps@[a] == Step::Dropping);
                }
            }
        }
        i += 1;
    }
    assert(steps@.take(steps@.len() as int) =~= steps@);
    true
}

/// Computes how many bytes of text the tokenizer of a description takes.
pub fn text_limit(description: &Json, processors: usize) -> (r: usize)
    ensures
        r == longest_text(description.tree(), processors as nat),
{
    let steps = read_description(description);
    let single = processors < 2;
    let mut cap: usize = COUNTABLE - 1;
    let mut i: usize = steps.len();
    assert(steps@.take(i as int) =~= steps@);
    while i > 0
        invariant
            i <= steps.len(),
            single == (processors < 2),
            room(steps@, single, (COUNTABLE - 1) as nat) == room(
                steps@.take(i as int),
                single,
                cap as nat,
            ),
        decreases i,
    {
        assert(steps@.take(i as int).drop_last() =~= steps@.take(i - 1));
        match steps[i - 1] {
            Step::Bytes => {
                cap = cap / BYTES_GROWTH;
            },
            Step::Isolating => {
                if single && cap > UNDIVIDED - 1 {
                    cap = UNDIVIDED - 1;
                }
            },
            _ => {},
        }
        i -= 1;
    }
    match description.get("normalizer") {
        None | Some(Json::Null) => cap,
        Some(_) => cap / NORMAL_GROWTH,
    }
}

/// Tells whether a value is no id that is too large.
fn is_no_large_id(v: &Json) -> (r: bool)
    ensures
        r == no_large_id(v.tree()),
{
    match v {
        Json::Number(literal) => {
            let cs = chars_of(literal.as_str());
            assert(cs@.subrange(0, cs@.len() as int) =~= cs@);
            match parse_usize(&cs, 0, cs.len()) {
                Some(id) => (id as u64) < 0xffff_ffffu64 && id < isize::MAX as usize / 8,
                None => true,
            }
        },
        _ => true,
    }
}

/// Tells whether an added token has no id that is too large.
fn is_fitting(entry: &Json) -> (r: bool)
    ensures
        r == entry_fits(entry.tree()),
{
    match entry {
        Json::Object(_) => match entry.get("id") {
            Some(v) => is_no_large_id(v),
            None => true,
        },
        Json::List(items) => {
            proof {
                lemma_list_tree(*entry);
            }
            if items.len() > 0 {
                is_no_large_id(&items[0])
            } else {
                true
            }
        },
        _ => true,
    }
}

/// Tells whether none of these added tokens has an id that is too large.
fn are_fitting(entries: &Vec<Json>) -> (r: bool)
    ensures
        r == entries_fit(items_tree(entries@)),
{
    let ghost all = items_tree(entries@);
    let mut i: usize = 0;
    while i < entries.len()
        invariant
            i <= entries.len(),
            all == items_tree(entries@),
            forall|k: int| 0 <= k < i ==> entry_fits(#[trigger] all[k]),
        decreases entries.len() - i,
    {
        if !is_fitting(&entries[i]) {
            assert(!entry_fits(all[i as int]));
            return false;
        }
        i += 1;
    }
    true
}

/// Tells whether no added token of a description has an id that is too large.
pub fn has_fitting_ids(description: &Json) -> (r: bool)
    ensures
        r == ids_fit(description.tree()),
{
    match description.get("added_tokens") {
        Some(list) => match list {
            Json::List(entries) => {
                proof {
                    lemma_list_tree(*list);
                }
                are_fitting(entries)
            },
            _ => true,
        },
        None => true,
    }
}

/// A `Split` drops its matches where it says `Removed`; it isolates them where it says `Isolated`,
/// or says nothing, and does not invert; said with another word, or inverted, it cuts; and what is
/// said in another way than by a word and a truth value is unknown.
pub proof fn law_splits_do_what_they_say(entry: JsonView, word: Seq<char>)
    ensures
        ({
            let says = json_get(entry, "behavior"@);
            let invert = json_get(entry, "invert"@);
            let plain = invert is None || invert == Some(JsonView::Bool(false));
            let inverted = invert == Some(JsonView::Bool(true));
            &&& !plain && !inverted ==> split_step(entry) == Step::Unknown
            &&& says is None && plain ==> split_step(entry) == Step::Isolating
            &&& says is None && inverted ==> split_step(entry) == Step::Cutting
            &&& says == Some(JsonView::Text("Removed"@)) && (plain || inverted) ==> split_step(
                entry,
            ) == Step::Dropping
            &&& says == Some(JsonView::Text("Isolated"@)) && plain ==> split_step(entry)
                == Step::Isolating
            &&& says == Some(JsonView::Text("Isolated"@)) && inverted ==> split_step(entry)
                == Step::Cutting
            &&& says == Some(JsonView::Text(word)) && word != "Removed"@ && word != "Isolated"@ && (
            plain || inverted) ==> split_step(entry) == Step::Cutting
            &&& (says matches Some(v) && !(v is Text)) ==> split_step(entry) == Step::Unknown
        }),
{
    reveal_strlit("Removed");
    reveal_strlit("Isolated");
    assert("Removed"@[0] == 'R' && "Isolated"@[0] == 'I');
}

/// Lists of pre-tokenizers are laid flat in order: two lists, one after the other, give the steps
/// of the first and then those of the second, and a list of one gives what its entry gives.
pub proof fn law_lists_are_laid_flat(a: Seq<JsonView>, b: Seq<JsonView>, one: JsonView)
    ensures
        steps_in(Seq::<JsonView>::empty()) == Seq::<Step>::empty(),
        steps_in(seq![one]) == steps_of(one),
        steps_in(a + b) == steps_in(a) + steps_in(b),
    decreases b.len(),
{
    assert(seq![one].drop_last() =~= Seq::empty());
    assert(steps_in(Seq::<JsonView>::empty()) =~= Seq::empty());
    assert(steps_in(seq![one]) =~= steps_of(one));
    if b.len() == 0 {
        assert(a + b =~= a);
        assert(b =~= Seq::empty());
        assert(steps_in(a) + steps_in(b) =~= steps_in(a));
    } else {
        law_lists_are_laid_flat(a, b.drop_last(), one);
        assert((a + b).drop_last() =~= a + b.drop_last());
        assert(steps_in(a + b) =~= steps_in(a) + steps_in(b));
    }
}

/// What a pre-tokenizer does goes by its type: one for bytes maps bytes, a split splits, a
/// sequence does what its list does, and none does nothing; of any other type nothing is known.
pub proof fn law_steps_go_by_type(v: JsonView, kind: Seq<char>, items: Seq<JsonView>)
    ensures
        steps_of(JsonView::Null) == Seq::<Step>::empty(),
        json_get(v, "type"@) == Some(JsonView::Text("ByteLevel"@)) ==> steps_of(v)
            == seq![Step::Bytes],
        json_get(v, "type"@) == Some(JsonView::Text("Split"@)) ==> steps_of(v)
            == seq![split_step(v)],
        json_get(v, "type"@) == Some(JsonView::Text("Sequence"@)) && json_get(v, "pretokenizers"@)
            == Some(JsonView::List(items)) ==> steps_of(v) == steps_in(items),
        json_get(v, "type"@) == Some(JsonView::Text(kind)) && kind != "ByteLevel"@ && kind
            != "Split"@ && kind != "Sequence"@ ==> steps_of(v) == seq![Step::Unknown],
        json_get(v, "type"@) is None && v != JsonView::Null ==> steps_of(v) == seq![Step::Unknown],
{
    reveal_strlit("ByteLevel");
    reveal_strlit("Split");
    reveal_strlit("Sequence");
    assert("ByteLevel"@.len() == 9 && "Split"@.len() == 5 && "Sequence"@.len() == 8);
    if let JsonView::Object(fields) = v {
        lemma_field_in_range(fields, "pretokenizers"@, 0);
    }
}

/// A further step keeps steps clear unless it is unknown, or isolates where something was dropped
/// before it.
pub proof fn law_clear_steps_grow(steps: Seq<Step>, step: Step)
    ensures
        clear(Seq::<Step>::empty()),
        clear(steps.push(step)) <==> clear(steps) && step != Step::Unknown && !(step
            == Step::Isolating && steps.contains(Step::Dropping)),
{
    let all = steps.push(step);
    if clear(all) {
        assert forall|i: int| 0 <= i < steps.len() implies #[trigger] steps[i] != Step::Unknown by {
            assert(all[i] == steps[i]);
        }
        assert forall|i: int, j: int|
            0 <= i < j < steps.len() && #[trigger] steps[i]
                == Step::Dropping implies #[trigger] steps[j] != Step::Isolating by {
            assert(all[i] == steps[i] && all[j] == steps[j]);
        }
        assert(all[steps.len() as int] == step);
        if steps.contains(Step::Dropping) {
            let i = choose|i: int| 0 <= i < steps.len() && steps[i] == Step::Dropping;
            assert(all[i] == Step::Dropping);
        }
    }
    if clear(steps) && step != Step::Unknown && !(step == Step::Isolating && steps.contains(
        Step::Dropping,
    )) {
        assert forall|i: int| 0 <= i < all.len() implies #[trigger] all[i] != Step::Unknown by {
            if i < steps.len() {
                assert(all[i] == steps[i]);
            }
        }
        assert forall|i: int, j: int|
            0 <= i < j < all.len() && #[trigger] all[i] == Step::Dropping implies #[trigger] all[j]
            != Step::Isolating by {
            assert(all[i] == steps[i]);
            if j < steps.len() {
                assert(all[j] == steps[j]);
            }
        }
    }
}

/// Room is reckoned step by step: what the last steps leave room for is what the first have to
/// keep within. A step that maps bytes leaves a quarter; one that isolates leaves less than 16384
/// bytes on a single processor; any other leaves all.
pub proof fn law_room_is_reckoned_step_by_step(
    first: Seq<Step>,
    last: Seq<Step>,
    step: Step,
    single: bool,
    cap: nat,
)
    ensures
        room(Seq::<Step>::empty(), single, cap) == cap,
        room(first + last, single, cap) == room(first, single, room(last, single, cap)),
        room(seq![Step::Bytes], single, cap) == cap / 4,
        room(seq![Step::Isolating], false, cap) == cap,
        cap < 16384 ==> room(seq![Step::Isolating], true, cap) == cap,
        cap >= 16384 ==> room(seq![Step::Isolating], true, cap) == 16383,
        step != Step::Bytes && step != Step::Isolating ==> room(seq![step], single, cap) == cap,
    decreases last.len(),
{
    reveal_with_fuel(room, 2);
    assert(seq![step].drop_last() =~= Seq::empty());
    assert(seq![Step::Bytes].drop_last() =~= Seq::empty());
    assert(seq![Step::Isolating].drop_last() =~= Seq::empty());
    if last.len() == 0 {
        assert(first + last =~= first);
    } else {
        let all = first + last;
        assert(all.drop_last() =~= first + last.drop_last());
        assert(all.last() == last.last());
        let next = match last.last() {
            Step::Bytes => cap / BYTES_GROWTH as nat,
            Step::Isolating => if single {
                smaller(cap, (UNDIVIDED - 1) as nat)
            } else {
                cap
            },
            _ => cap,
        };
        law_room_is_reckoned_step_by_step(first, last.drop_last(), step, single, next);
    }
}

/// A tokenizer takes texts of fewer than 2^31 bytes, as far as its steps leave room, and a third
/// of that where it normalizes.
pub proof fn law_text_limits(description: JsonView, processors: nat)
    ensures
        ({
            let room = room(description_steps(description), processors < 2, 0x7fff_ffff);
            let normal = json_get(description, "normalizer"@);
            &&& normal is None || normal == Some(JsonView::Null) ==> longest_text(
                description,
                processors,
            ) == room
            &&& (normal matches Some(v) && v != JsonView::Null) ==> longest_text(
                description,
                processors,
            ) == room / 3
        }),
{
}

/// An added token may have any id below the largest of 32 bits for which a table can be addressed,
/// whether its entry is an object with the id or a list that starts with it, and one too large
/// makes the whole description unfit.
pub proof fn law_large_ids_are_refused(
    description: JsonView,
    entries: Seq<JsonView>,
    at: int,
    id: usize,
)
    requires
        json_get(description, "added_tokens"@) == Some(JsonView::List(entries)),
        0 <= at < entries.len(),
        (entries[at] is Object && json_get(entries[at], "id"@) == Some(
            JsonView::Number(decimal(id as nat)),
        )) || (entries[at] matches JsonView::List(items) && items.len() > 0 && items[0]
            == JsonView::Number(decimal(id as nat))),
    ensures
        entry_fits(entries[at]) <==> id < 0xffff_ffff && id < isize::MAX as int / 8,
        !(id < 0xffff_ffff && id < isize::MAX as int / 8) ==> !ids_fit(description),
{
    law_decimal_reads_back(id as nat);
}

/// A description is fit where every added token is, and where there is none.
pub proof fn law_fitting_tokens_make_a_fit_description(
    description: JsonView,
    entries: Seq<JsonView>,
)
    ensures
        json_get(description, "added_tokens"@) is None ==> ids_fit(description),
        json_get(description, "added_tokens"@) == Some(JsonView::List(entries)) && (forall|i: int|
            0 <= i < entries.len() ==> entry_fits(#[trigger] entries[i])) ==> ids_fit(description),
{
}

} // verus!
