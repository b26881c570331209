//! JSON values as plain data, and the rewrite of a tokenizer description that keeps its digit
//! splitting runnable.

use crate::text::{all_digits, decimal, is_digit, law_decimal_reads_back, str_eq};
use vstd::prelude::*;

verus! {

broadcast use vstd::string::group_string_axioms;

/// A JSON value. A number is kept as the literal that it is written as; an object is a list of
/// fields. Of two fields with one key the first is read here, and the last is kept by a
/// `serde_json::Value`.
#[derive(Debug)]
pub enum Json {
    Null,
    Bool(bool),
    Number(String),
    Text(String),
    List(Vec<Json>),
    Object(Vec<(String, Json)>),
}

/// What a JSON value holds.
pub enum JsonView {
    Null,
    Bool(bool),
    Number(Seq<char>),
    Text(Seq<char>),
    List(Seq<JsonView>),
    Object(Seq<(Seq<char>, JsonView)>),
}

/// `serde_json::Value`: a JSON value as other crates take it. Opaque.
#[verifier::external_type_specification]
#[verifier::external_body]
pub struct ExValue(serde_json::Value);

/// `serde_json::Error`: why a text is no JSON.
#[verifier::external_type_specification]
#[verifier::external_body]
pub struct ExJsonError(serde_json::Error);

/// What a text parses to as JSON.
pub uninterp spec fn json_parsed(text: Seq<char>) -> Result<serde_json::Value, serde_json::Error>;

/// What a parse error says of itself.
pub uninterp spec fn json_error_message(e: serde_json::Error) -> Seq<char>;

/// What a parsed value holds.
pub uninterp spec fn tree_of(v: serde_json::Value) -> JsonView;

/// The parsed value that holds this.
pub uninterp spec fn value_of(tree: JsonView) -> serde_json::Value;

/// `serde_json::from_str`. Trusted: the value, or the error, is a function of the text.
#[verifier::external_body]
pub(crate) fn parse_json(text: &str) -> (r: Result<serde_json::Value, serde_json::Error>)
    ensures
        r == json_parsed(text@),
{
    serde_json::from_str(text)
}

/// The `Display` text of a `serde_json::Error`. Trusted: it is a function of the error.
#[verifier::external_body]
pub(crate) fn describe_json(e: &serde_json::Error) -> (r: String)
    ensures
        r@ == json_error_message(*e),
{
    e.to_string()
}

/// The compact JSON text of a value.
pub uninterp spec fn value_text(v: serde_json::Value) -> Seq<char>;

/// Whether a number literal is that of an integer: digits, with a minus sign or without.
pub open spec fn whole_literal(literal: Seq<char>) -> bool {
    let body = if literal.len() > 0 && literal[0] == '-' {
        literal.drop_first()
    } else {
        literal
    };
    body.len() > 0 && all_digits(body)
}

/// Whether every number in a value is an integer.
pub open spec fn whole_numbers(v: JsonView) -> bool
    decreases v,
{
    match v {
        JsonView::Number(literal) => whole_literal(literal),
        JsonView::List(items) => forall|i: int|
            0 <= i < items.len() ==> whole_numbers(#[trigger] items[i]),
        JsonView::Object(fields) => forall|i: int|
            0 <= i < fields.len() ==> whole_numbers((#[trigger] fields[i]).1),
        _ => true,
    }
}

/// Converts a `serde_json::Value`, variant by variant; a number becomes the literal that it
/// displays as. Trusted: what the result holds is a function of the value; and converting it back
/// gives that value again where every number in it is an integer. Of fractions this stays unsaid:
/// their literals are read back exactly only by a slower parser that is not switched on.
#[verifier::external_body]
pub(crate) fn from_value(v: &serde_json::Value) -> (r: Json)
    ensures
        r.tree() == tree_of(*v),
        whole_numbers(r.tree()) ==> value_of(r.tree()) == *v,
{
    match v {
        serde_json::Value::Null => Json::Null,
        serde_json::Value::Bool(b) => Json::Bool(*b),
        serde_json::Value::Number(n) => Json::Number(n.to_string()),
        serde_json::Value::String(s) => Json::Text(s.clone()),
        serde_json::Value::Array(a) => Json::List(a.iter().map(from_value).collect()),
        serde_json::Value::Object(o) => {
            Json::Object(o.iter().map(|(k, v)| (k.clone(), from_value(v))).collect())
        },
    }
}

/// Converts to a `serde_json::Value`, variant by variant; a literal that is no JSON number becomes
/// a string. Trusted: the value is a function of what is converted.
#[verifier::external_body]
pub(crate) fn to_value(v: Json) -> (r: serde_json::Value)
    ensures
        r == value_of(v.tree()),
{
    match v {
        Json::Null => serde_json::Value::Null,
        Json::Bool(b) => serde_json::Value::Bool(b),
        Json::Number(n) => match serde_json::from_str(&n) {
            Ok(number) => serde_json::Value::Number(number),
            Err(_) => serde_json::Value::String(n),
        },
        Json::Text(s) => serde_json::Value::String(s),
        Json::List(a) => serde_json::Value::Array(a.into_iter().map(to_value).collect()),
        Json::Object(o) => {
            serde_json::Value::Object(o.into_iter().map(|(k, v)| (k, to_value(v))).collect())
        },
    }
}

/// The `Display` text of a `serde_json::Value`, which is its compact JSON. Trusted: it is a
/// function of the value.
#[verifier::external_body]
fn write_value(v: &serde_json::Value) -> (r: String)
    ensures
        r@ == value_text(*v),
{
    v.to_string()
}

/// The compact JSON text of what a value holds.
pub open spec fn text_of_tree(tree: JsonView) -> Seq<char> {
    value_text(value_of(tree))
}

/// Writes a value as compact JSON text.
pub fn json_text(v: Json) -> (r: String)
    ensures
        r@ == text_of_tree(v.tree()),
{
    write_value(&to_value(v))
}

impl Json {
    /// What the value holds.
    pub open spec fn tree(&self) -> JsonView
        decreases self,
    {
        match self {
            Json::Null => JsonView::Null,
            Json::Bool(b) => JsonView::Bool(*b),
            Json::Number(n) => JsonView::Number(n@),
            Json::Text(s) => JsonView::Text(s@),
            Json::List(items) => JsonView::List(
                Seq::new(
                    items@.len(),
                    |i: int|
                        if 0 <= i < items@.len() {
                            items@[i].tree()
                        } else {
                            JsonView::Null
                        },
                ),
            ),
            Json::Object(fields) => JsonView::Object(
                Seq::new(
                    fields@.len(),
                    |i: int|
                        if 0 <= i < fields@.len() {
                            (fields@[i].0@, fields@[i].1.tree())
                        } else {
                            (Seq::empty(), JsonView::Null)
                        },
                ),
            ),
        }
    }
}

/// The first field with this key at or after position `from`.
pub open spec fn field_from(
    fields: Seq<(Seq<char>, JsonView)>,
    key: Seq<char>,
    from: int,
) -> Option<int>
    decreases fields.len() - from,
{
    if from < 0 || from >= fields.len() {
        None
    } else if fields[from].0 == key {
        Some(from)
    } else {
        field_from(fields, key, from + 1)
    }
}

/// The value of a field; `None` where there is none, or where the value is no object.
pub open spec fn json_get(v: JsonView, key: Seq<char>) -> Option<JsonView> {
    match v {
        JsonView::Object(fields) => match field_from(fields, key, 0) {
            Some(i) => Some(fields[i].1),
            None => None,
        },
        _ => None,
    }
}

/// The fields of an object.
pub open spec fn fields_tree(fields: Seq<(String, Json)>) -> Seq<(Seq<char>, JsonView)> {
    fields.map_values(|f: (String, Json)| (f.0@, f.1.tree()))
}

/// The items of a list.
pub open spec fn items_tree(items: Seq<Json>) -> Seq<JsonView> {
    items.map_values(|v: Json| v.tree())
}

/// An object holds its fields.
pub(crate) proof fn lemma_object_tree(v: Json)
    requires
        v is Object,
    ensures
        v.tree() == JsonView::Object(fields_tree(v->Object_0@)),
{
    assert(v.tree()->Object_0 =~= fields_tree(v->Object_0@));
}

/// A list holds its items.
pub(crate) proof fn lemma_list_tree(v: Json)
    requires
        v is List,
    ensures
        v.tree() == JsonView::List(items_tree(v->List_0@)),
{
    assert(v.tree()->List_0 =~= items_tree(v->List_0@));
}

/// The position of the first field with this key.
pub(crate) fn field_position(fields: &Vec<(String, Json)>, key: &str) -> (r: Option<usize>)
    ensures
        match r {
            Some(i) => i < fields.len() && field_from(fields_tree(fields@), key@, 0) == Some(
                i as int,
            ),
            None => field_from(fields_tree(fields@), key@, 0) is None,
        },
{
    let ghost all = fields_tree(fields@);
    let mut i: usize = 0;
    while i < fields.len()
        invariant
            all == fields_tree(fields@),
            i <= fields.len(),
            field_from(all, key@, 0) == field_from(all, key@, i as int),
        decreases fields.len() - i,
    {
        if str_eq(fields[i].0.as_str(), key) {
            return Some(i);
        }
        i += 1;
    }
    None
}

impl Json {
    /// The value of a field; `None` where there is none, or where this is no object.
    pub fn get(&self, key: &str) -> (r: Option<&Json>)
        ensures
            match r {
                Some(v) => json_get(self.tree(), key@) == Some(v.tree()),
                None => json_get(self.tree(), key@) is None,
            },
    {
        match self {
            Json::Object(fields) => {
                proof {
                    lemma_object_tree(*self);
                }
                match field_position(fields, key) {
                    Some(i) => Some(&fields[i].1),
                    None => None,
                }
            },
            _ => None,
        }
    }

    /// Whether this is this text.
    pub fn is_text(&self, text: &str) -> (r: bool)
        ensures
            r <==> self.tree() == JsonView::Text(text@),
    {
        match self {
            Json::Text(s) => str_eq(s.as_str(), text),
            _ => false,
        }
    }
}

/// A text value.
pub fn text_value(s: &str) -> (r: Json)
    ensures
        r.tree() == JsonView::Text(s@),
{
    Json::Text(s.to_owned())
}

/// A number value, given as its literal.
pub fn number_value(literal: &str) -> (r: Json)
    ensures
        r.tree() == JsonView::Number(literal@),
{
    Json::Number(literal.to_owned())
}

/// An object with these fields.
pub fn object_value(fields: Vec<(String, Json)>) -> (r: Json)
    ensures
        r.tree() == JsonView::Object(fields_tree(fields@)),
{
    let v = Json::Object(fields);
    proof {
        lemma_object_tree(v);
    }
    v
}

/// A list of one item.
pub fn singleton(item: Json) -> (r: Json)
    ensures
        r.tree() == JsonView::List(seq![item.tree()]),
{
    let mut items: Vec<Json> = Vec::new();
    items.push(item);
    let v = Json::List(items);
    proof {
        lemma_list_tree(v);
        assert(items_tree(items@) =~= seq![item.tree()]);
    }
    v
}

/// Every digit is a token of its own.
pub const EACH_DIGIT: &'static str = r"\d";

/// A run of digits is a token.
pub const DIGIT_RUN: &'static str = r"\d+";

/// Whether a pre-tokenizer entry is of type `Digits`.
pub open spec fn is_digits(entry: JsonView) -> bool {
    json_get(entry, "type"@) == Some(JsonView::Text("Digits"@))
}

/// Whether a `Digits` entry splits digits one by one, which it does unless told otherwise.
pub open spec fn individual_digits(entry: JsonView) -> bool {
    match json_get(entry, "individual_digits"@) {
        Some(JsonView::Bool(b)) => b,
        _ => true,
    }
}

/// The `Split` entry that does what a `Digits` entry does.
pub open spec fn split_view(individual: bool) -> JsonView {
    JsonView::Object(
        seq![
            ("type"@, JsonView::Text("Split"@)),
            (
                "pattern"@,
                JsonView::Object(
                    seq![
                        (
                            "Regex"@,
                            JsonView::Text(
                                if individual {
                                    EACH_DIGIT@
                                } else {
                                    DIGIT_RUN@
                                },
                            ),
                        ),
                    ],
                ),
            ),
            ("behavior"@, JsonView::Text("Isolated"@)),
            ("invert"@, JsonView::Bool(false)),
        ],
    )
}

/// An entry in a form that can be run: a `Digits` entry as the `Split` that does the same, any
/// other as it is.
pub open spec fn runnable(entry: JsonView) -> JsonView {
    if is_digits(entry) {
        split_view(individual_digits(entry))
    } else {
        entry
    }
}

/// A pre-tokenizer section with every entry in runnable form.
pub open spec fn runnable_section(v: JsonView) -> JsonView {
    match v {
        JsonView::Object(fields) => match field_from(fields, "pretokenizers"@, 0) {
            Some(i) => match fields[i].1 {
                JsonView::List(items) => JsonView::Object(
                    fields.update(
                        i,
                        (
                            fields[i].0,
                            JsonView::List(items.map_values(|e: JsonView| runnable(e))),
                        ),
                    ),
                ),
                _ => v,
            },
            None => v,
        },
        _ => v,
    }
}

/// A tokenizer description with every pre-tokenizer entry in runnable form.
pub open spec fn runnable_tokenizer(v: JsonView) -> JsonView {
    match v {
        JsonView::Object(fields) => match field_from(fields, "pre_tokenizer"@, 0) {
            Some(i) => JsonView::Object(
                fields.update(i, (fields[i].0, runnable_section(fields[i].1))),
            ),
            None => v,
        },
        _ => v,
    }
}

/// Builds the `Split` entry that does what a `Digits` entry does.
fn split_entry(individual: bool) -> (r: Json)
    ensures
        r.tree() == split_view(individual),
{
    let regex = if individual {
        EACH_DIGIT
    } else {
        DIGIT_RUN
    };
    let mut pattern: Vec<(String, Json)> = Vec::new();
    pattern.push(("Regex".to_owned(), text_value(regex)));
    let pattern = object_value(pattern);
    let mut fields: Vec<(String, Json)> = Vec::new();
    proof {
        assert(pattern.tree()->Object_0 =~= split_view(individual)->Object_0[1].1->Object_0);
    }
    fields.push(("type".to_owned(), text_value("Split")));
    fields.push(("pattern".to_owned(), pattern));
    fields.push(("behavior".to_owned(), text_value("Isolated")));
    fields.push(("invert".to_owned(), Json::Bool(false)));
    let entry = object_value(fields);
    assert(entry.tree()->Object_0 =~= split_view(individual)->Object_0);
    entry
}

/// Puts every entry of a list into runnable form.
fn rewrite_entries(items: &mut Vec<Json>)
    ensures
        items_tree(final(items)@) == items_tree(old(items)@).map_values(|e: JsonView| runnable(e)),
{
    let ghost before = items_tree(items@);
    let n: usize = items.len();
    let mut i: usize = 0;
    while i < n
        invariant
            n == items.len(),
            n == before.len(),
            i <= n,
            forall|j: int| 0 <= j < i ==> (#[trigger] items@[j]).tree() == runnable(before[j]),
            forall|j: int| i <= j < n ==> (#[trigger] items@[j]).tree() == before[j],
        decreases n - i,
    {
        let digits = match items[i].get("type") {
            Some(t) => t.is_text("Digits"),
            None => false,
        };
        assert(items@[i as int].tree() == before[i as int]);
        if digits {
            let individual = match items[i].get("individual_digits") {
                Some(Json::Bool(b)) => *b,
                _ => true,
            };
            items.set(i, split_entry(individual));
        }
        i += 1;
    }
    assert(items_tree(items@) =~= before.map_values(|e: JsonView| runnable(e)));
}

/// Puts every entry of a pre-tokenizer section's list into runnable form.
fn rewrite_section(fields: &mut Vec<(String, Json)>)
    ensures
        JsonView::Object(fields_tree(final(fields)@)) == runnable_section(
            JsonView::Object(fields_tree(old(fields)@)),
        ),
{
    let ghost before = fields@;
    match field_position(fields, "pretokenizers") {
        Some(i) => {
            let (key, value) = fields.remove(i);
            let ghost old_value = value;
            let value = match value {
                Json::List(items) => {
                    proof {
                        lemma_list_tree(old_value);
                    }
                    let mut items = items;
                    rewrite_entries(&mut items);
                    let list = Json::List(items);
                    proof {
                        lemma_list_tree(list);
                    }
                    list
                },
                other => other,
            };
            fields.insert(i, (key, value));
            proof {
                assert(fields_tree(fields@) =~= fields_tree(before).update(
                    i as int,
                    (key@, value.tree()),
                ));
                assert(fields_tree(before)[i as int] == (key@, old_value.tree()));
                if !(old_value is List) {
                    assert(fields_tree(fields@) =~= fields_tree(before));
                }
            }
        },
        None => {},
    }
}

/// Rewrites every `Digits` pre-tokenizer of a tokenizer description to the `Split` regex that does
/// the same, in place. The encoder can read `Digits` but not run it.
pub fn rewrite_digits_pretokenizer(json: &mut Json)
    ensures
        final(json).tree() == runnable_tokenizer(old(json).tree()),
{
    let ghost before = *json;
    let mut taken = Json::Null;
    std::mem::swap(json, &mut taken);
    match taken {
        Json::Object(fields) => {
            let mut fields = fields;
            let ghost old_fields = fields@;
            proof {
                lemma_object_tree(before);
            }
            match field_position(&fields, "pre_tokenizer") {
                Some(i) => {
                    let (key, value) = fields.remove(i);
                    let ghost old_value = value;
                    let value = match value {
                        Json::Object(section) => {
                            proof {
                                lemma_object_tree(old_value);
                            }
                            let mut section = section;
                            rewrite_section(&mut section);
                            let object = Json::Object(section);
                            proof {
                                lemma_object_tree(object);
                            }
                            object
                        },
                        other => other,
                    };
                    assert(value.tree() == runnable_section(old_value.tree()));
                    fields.insert(i, (key, value));
                    assert(fields_tree(fields@) =~= fields_tree(old_fields).update(
                        i as int,
                        (key@, value.tree()),
                    ));
                },
                None => {},
            }
            let object = Json::Object(fields);
            proof {
                lemma_object_tree(object);
            }
            *json = object;
        },
        other => {
            *json = other;
        },
    }
}

/// The `Split` entries that the rewrite puts in are no `Digits` entries.
proof fn lemma_split_is_not_digits(individual: bool)
    ensures
        !is_digits(split_view(individual)),
{
    reveal_strlit("Split");
    reveal_strlit("Digits");
    let fields = split_view(individual)->Object_0;
    assert(fields[0].0 == "type"@);
    assert(field_from(fields, "type"@, 0) == Some(0int));
    assert("Split"@[0] == 'S' && "Digits"@[0] == 'D');
}

proof fn lemma_field_after_update(
    fields: Seq<(Seq<char>, JsonView)>,
    key: Seq<char>,
    from: int,
    i: int,
    v: JsonView,
)
    requires
        0 <= i < fields.len(),
    ensures
        field_from(fields.update(i, (fields[i].0, v)), key, from) == field_from(fields, key, from),
    decreases fields.len() - from,
{
    if 0 <= from < fields.len() {
        lemma_field_after_update(fields, key, from + 1, i, v);
    }
}

/// A field that is found has the key and lies in range.
pub(crate) proof fn lemma_field_in_range(
    fields: Seq<(Seq<char>, JsonView)>,
    key: Seq<char>,
    from: int,
)
    requires
        0 <= from,
    ensures
        field_from(fields, key, from) matches Some(i) ==> from <= i < fields.len()
            && fields[i].0 == key,
    decreases fields.len() - from,
{
    if from < fields.len() {
        lemma_field_in_range(fields, key, from + 1);
    }
}

/// No entry is of type `Digits` once it is in runnable form, and an entry in runnable form stays as
/// it is.
pub proof fn law_runnable_entry(entry: JsonView)
    ensures
        !is_digits(runnable(entry)),
        runnable(runnable(entry)) == runnable(entry),
{
    lemma_split_is_not_digits(individual_digits(entry));
}

proof fn lemma_section_idempotent(v: JsonView)
    ensures
        runnable_section(runnable_section(v)) == runnable_section(v),
{
    if let JsonView::Object(fields) = v {
        lemma_field_in_range(fields, "pretokenizers"@, 0);
        if let Some(i) = field_from(fields, "pretokenizers"@, 0) {
            if let JsonView::List(items) = fields[i].1 {
                let once = items.map_values(|e: JsonView| runnable(e));
                let twice = once.map_values(|e: JsonView| runnable(e));
                assert forall|k: int| 0 <= k < items.len() implies twice[k] == once[k] by {
                    law_runnable_entry(items[k]);
                }
                assert(twice =~= once);
                let after = fields.update(i, (fields[i].0, JsonView::List(once)));
                lemma_field_after_update(fields, "pretokenizers"@, 0, i, JsonView::List(once));
                assert(after.update(i, (after[i].0, JsonView::List(twice))) =~= after);
            }
        }
    }
}

/// Rewriting a description that is already rewritten changes nothing.
pub proof fn law_rewrite_is_idempotent(v: JsonView)
    ensures
        runnable_tokenizer(runnable_tokenizer(v)) == runnable_tokenizer(v),
{
    if let JsonView::Object(fields) = v {
        lemma_field_in_range(fields, "pre_tokenizer"@, 0);
        if let Some(i) = field_from(fields, "pre_tokenizer"@, 0) {
            let section = runnable_section(fields[i].1);
            let after = fields.update(i, (fields[i].0, section));
            lemma_field_after_update(fields, "pre_tokenizer"@, 0, i, section);
            lemma_section_idempotent(fields[i].1);
            assert(after.update(i, (after[i].0, runnable_section(section))) =~= after);
        }
    }
}

/// The rewrite touches nothing but the pre-tokenizer section: every other field of the description
/// reads as before.
pub proof fn law_rewrite_keeps_other_fields(v: JsonView, key: Seq<char>)
    requires
        key != "pre_tokenizer"@,
    ensures
        json_get(runnable_tokenizer(v), key) == json_get(v, key),
{
    if let JsonView::Object(fields) = v {
        lemma_field_in_range(fields, "pre_tokenizer"@, 0);
        lemma_field_in_range(fields, key, 0);
        if let Some(i) = field_from(fields, "pre_tokenizer"@, 0) {
            lemma_field_after_update(fields, key, 0, i, runnable_section(fields[i].1));
        }
    }
}

proof fn lemma_field_at(fields: Seq<(Seq<char>, JsonView)>, key: Seq<char>, from: int, i: int)
    requires
        0 <= from <= i < fields.len(),
        fields[i].0 == key,
        forall|j: int| from <= j < i ==> (#[trigger] fields[j]).0 != key,
    ensures
        field_from(fields, key, from) == Some(i),
    decreases i - from,
{
    if from < i {
        assert(fields[from].0 != key);
        lemma_field_at(fields, key, from + 1, i);
    }
}

proof fn lemma_no_field(fields: Seq<(Seq<char>, JsonView)>, key: Seq<char>, from: int)
    requires
        0 <= from,
        forall|j: int| from <= j < fields.len() ==> (#[trigger] fields[j]).0 != key,
    ensures
        field_from(fields, key, from) is None,
    decreases fields.len() - from,
{
    if from < fields.len() {
        assert(fields[from].0 != key);
        lemma_no_field(fields, key, from + 1);
    }
}

/// A key reads the value of the first field that has it, and nothing where no field has it or
/// where the value is no object.
pub proof fn law_keys_read_their_first_field(
    fields: Seq<(Seq<char>, JsonView)>,
    key: Seq<char>,
    other: JsonView,
)
    ensures
        forall|i: int|
            0 <= i < fields.len() && (#[trigger] fields[i]).0 == key && (forall|j: int|
                0 <= j < i ==> (#[trigger] fields[j]).0 != key) ==> json_get(
                JsonView::Object(fields),
                key,
            ) == Some(fields[i].1),
        (forall|j: int| 0 <= j < fields.len() ==> (#[trigger] fields[j]).0 != key) ==> json_get(
            JsonView::Object(fields),
            key,
        ) is None,
        !(other is Object) ==> json_get(other, key) is None,
{
    assert forall|i: int|
        0 <= i < fields.len() && (#[trigger] fields[i]).0 == key && (forall|j: int|
            0 <= j < i ==> (#[trigger] fields[j]).0 != key) implies json_get(
        JsonView::Object(fields),
        key,
    ) == Some(fields[i].1) by {
        lemma_field_at(fields, key, 0, i);
    }
    if forall|j: int| 0 <= j < fields.len() ==> (#[trigger] fields[j]).0 != key {
        lemma_no_field(fields, key, 0);
    }
}

/// A `Digits` entry becomes a `Split` whose matches stay as pieces of their own: it matches each
/// digit, and runs of digits only where the entry says that digits do not stand alone. Every other
/// entry stays as it is.
pub proof fn law_digits_become_splits(entry: JsonView)
    ensures
        ({
            let digits = json_get(entry, "type"@) == Some(JsonView::Text("Digits"@));
            let runs = json_get(entry, "individual_digits"@) == Some(JsonView::Bool(false));
            let pattern = json_get(runnable(entry), "pattern"@);
            &&& !digits ==> runnable(entry) == entry
            &&& digits ==> {
                &&& runnable(entry) is Object
                &&& runnable(entry)->Object_0.len() == 4
                &&& json_get(runnable(entry), "type"@) == Some(JsonView::Text("Split"@))
                &&& json_get(runnable(entry), "behavior"@) == Some(JsonView::Text("Isolated"@))
                &&& json_get(runnable(entry), "invert"@) == Some(JsonView::Bool(false))
                &&& pattern matches Some(p) && p is Object && p->Object_0.len() == 1 && json_get(
                    p,
                    "Regex"@,
                ) == Some(
                    JsonView::Text(
                        if runs {
                            seq!['\\', 'd', '+']
                        } else {
                            seq!['\\', 'd']
                        },
                    ),
                )
            }
        }),
{
    if is_digits(entry) {
        reveal_strlit("type");
        reveal_strlit("pattern");
        reveal_strlit("behavior");
        reveal_strlit("invert");
        reveal_strlit(r"\d");
        reveal_strlit(r"\d+");
        let fields = runnable(entry)->Object_0;
        assert("type"@[0] == 't' && "pattern"@[0] == 'p' && "behavior"@[0] == 'b' && "invert"@[0]
            == 'i');
        lemma_field_at(fields, "type"@, 0, 0);
        lemma_field_at(fields, "pattern"@, 0, 1);
        lemma_field_at(fields, "behavior"@, 0, 2);
        lemma_field_at(fields, "invert"@, 0, 3);
        lemma_field_at(fields[1].1->Object_0, "Regex"@, 0, 0);
        assert(EACH_DIGIT@ =~= seq!['\\', 'd']);
        assert(DIGIT_RUN@ =~= seq!['\\', 'd', '+']);
    }
}

/// The rewrite goes through the whole list of pre-tokenizers: it gives one entry for each, in the
/// same order, and leaves the other fields of the section as they are.
pub proof fn law_every_entry_is_rewritten(
    description: JsonView,
    section: JsonView,
    items: Seq<JsonView>,
    key: Seq<char>,
) -> (r: (JsonView, Seq<JsonView>))
    requires
        json_get(description, "pre_tokenizer"@) == Some(section),
        json_get(section, "pretokenizers"@) == Some(JsonView::List(items)),
    ensures
        json_get(runnable_tokenizer(description), "pre_tokenizer"@) == Some(r.0),
        json_get(r.0, "pretokenizers"@) == Some(JsonView::List(r.1)),
        r.1.len() == items.len(),
        forall|i: int| 0 <= i < items.len() ==> #[trigger] r.1[i] == runnable(items[i]),
        key != "pretokenizers"@ ==> json_get(r.0, key) == json_get(section, key),
{
    let outer = description->Object_0;
    lemma_field_in_range(outer, "pre_tokenizer"@, 0);
    let i = field_from(outer, "pre_tokenizer"@, 0)->0;
    let after = runnable_section(section);
    lemma_field_after_update(outer, "pre_tokenizer"@, 0, i, after);
    let inner = section->Object_0;
    lemma_field_in_range(inner, "pretokenizers"@, 0);
    lemma_field_in_range(inner, key, 0);
    let k = field_from(inner, "pretokenizers"@, 0)->0;
    let entries = items.map_values(|e: JsonView| runnable(e));
    lemma_field_after_update(inner, "pretokenizers"@, 0, k, JsonView::List(entries));
    lemma_field_after_update(inner, key, 0, k, JsonView::List(entries));
    (after, entries)
}

/// A description without a list of pre-tokenizers stays as it is.
pub proof fn law_nothing_else_is_rewritten(description: JsonView)
    ensures
        json_get(description, "pre_tokenizer"@) is None ==> runnable_tokenizer(description)
            == description,
        (json_get(description, "pre_tokenizer"@) matches Some(section) && !(json_get(
            section,
            "pretokenizers"@,
        ) matches Some(JsonView::List(_)))) ==> runnable_tokenizer(description) == description,
{
    if let JsonView::Object(fields) = description {
        lemma_field_in_range(fields, "pre_tokenizer"@, 0);
        if let Some(i) = field_from(fields, "pre_tokenizer"@, 0) {
            if runnable_section(fields[i].1) == fields[i].1 {
                assert(fields.update(i, (fields[i].0, fields[i].1)) =~= fields);
            }
        }
    }
}

/// An integer is written with digits, at least one, and a minus sign before them or none: every such
/// literal is one, and none with another character in it or without a digit.
pub proof fn law_integers_are_digits(literal: Seq<char>, n: nat, k: int)
    ensures
        whole_literal(decimal(n)),
        whole_literal(seq!['-'] + decimal(n)),
        !whole_literal(Seq::empty()),
        !whole_literal(seq!['-']),
        0 <= k < literal.len() && !('0' <= literal[k] <= '9') && !(k == 0 && literal[0] == '-')
            ==> !whole_literal(literal),
{
    law_decimal_reads_back(n);
    let t = decimal(n);
    assert(is_digit(t[0]));
    assert((seq!['-'] + t).drop_first() =~= t);
    assert(seq!['-'].drop_first() =~= Seq::empty());
    if 0 <= k < literal.len() && !('0' <= literal[k] <= '9') && !(k == 0 && literal[0] == '-') {
        if literal[0] == '-' {
            assert(literal.drop_first()[k - 1] == literal[k]);
        }
    }
}

} // verus!
