//! What the inference server decides: the prompt of a chat request, where each generated token's
//! text goes, when a stop string ends the answer, and what the responses hold.

use crate::chat::{
    law_role_words, option_text, plain_message, render_checked, rendered, rendered_prompt,
    single_turn, Message, MessageView, Role, SpecialToken,
};
use crate::json::{
    field_from, fields_tree, json_get, number_value, object_value, singleton, text_value, Json,
    JsonView,
};
use crate::stream::share;
use crate::text::{contains, law_occurrence_splits_the_text, occurs_in};
use crate::tokenizer::{
    encode_ids, encodes, fails_with, fresh_stream, narrowed, new_stream, signed, stream_step,
    streamed, TextTokenizer,
};
use std::sync::Arc;
use vstd::prelude::*;

verus! {

broadcast use vstd::string::group_string_axioms;

/// Tokens generated where a request names no limit.
pub const DEFAULT_MAX_NEW: usize = 256;

/// Generated tokens held between the sampler and the response.
pub const CHANNEL_CAP: usize = 64;

/// The model's name in requests and responses.
pub const NAME: &'static str = "gabriel-laevis";

/// The most tokens that a request generates: as many as it names, or the default.
pub fn request_limit(max_tokens: Option<usize>) -> (r: usize)
    ensures
        r == match max_tokens {
            Some(n) => n,
            None => DEFAULT_MAX_NEW,
        },
{
    match max_tokens {
        Some(n) => n,
        None => DEFAULT_MAX_NEW,
    }
}

/// One turn of a chat request.
#[derive(Debug)]
pub struct ChatMessage {
    pub role: String,
    pub content: String,
}

impl DeepView for ChatMessage {
    type V = (Seq<char>, Seq<char>);

    open spec fn deep_view(&self) -> (Seq<char>, Seq<char>) {
        (self.role@, self.content@)
    }
}

/// Reasoning effort of a chat request. The model has a binary thinking toggle, so an effort counts
/// as on or off.
#[derive(Clone, Copy, Debug, PartialEq, Eq, Structural)]
pub enum ReasoningEffort {
    /// `none`: answer directly.
    Off,
    Minimal,
    Low,
    Medium,
    High,
    Xhigh,
}

impl ReasoningEffort {
    /// Whether this effort enables the thinking channel.
    pub fn enable_thinking(self) -> (r: bool)
        ensures
            r == (self != ReasoningEffort::Off),
    {
        match self {
            ReasoningEffort::Off => false,
            _ => true,
        }
    }
}

/// Whether a request thinks: by its effort, and if it names none, yes.
pub open spec fn thinks(effort: Option<ReasoningEffort>) -> bool {
    effort != Some(ReasoningEffort::Off)
}

/// Whether a request enables the thinking channel.
pub fn request_thinks(effort: Option<ReasoningEffort>) -> (r: bool)
    ensures
        r == thinks(effort),
{
    match effort {
        Some(e) => e.enable_thinking(),
        None => true,
    }
}

/// The turn that a request turn maps to: user and assistant turns are kept, all others dropped.
pub open spec fn kept_turn(m: (Seq<char>, Seq<char>)) -> Option<MessageView> {
    match Role::of_chatml(m.0) {
        Some(Role::User) => Some(plain_message(Role::User, m.1)),
        Some(Role::Model) => Some(plain_message(Role::Model, m.1)),
        _ => None,
    }
}

/// The turns of a request that are kept, in order.
pub open spec fn kept_turns(ms: Seq<(Seq<char>, Seq<char>)>) -> Seq<MessageView>
    decreases ms.len(),
{
    if ms.len() == 0 {
        Seq::empty()
    } else {
        let before = kept_turns(ms.drop_last());
        match kept_turn(ms.last()) {
            Some(m) => before.push(m),
            None => before,
        }
    }
}

/// The conversation that a request continues: its kept turns, or one empty user turn.
pub open spec fn history_of(ms: Seq<(Seq<char>, Seq<char>)>) -> Seq<MessageView> {
    if kept_turns(ms).len() == 0 {
        seq![plain_message(Role::User, Seq::empty())]
    } else {
        kept_turns(ms)
    }
}

/// Maps request turns to a conversation.
pub fn chat_history(messages: &Vec<ChatMessage>) -> (r: Vec<Message>)
    ensures
        r.deep_view() == history_of(messages.deep_view()),
        r.len() > 0,
{
    let ghost all = messages.deep_view();
    let mut history: Vec<Message> = Vec::new();
    let mut i: usize = 0;
    while i < messages.len()
        invariant
            all == messages.deep_view(),
            i <= messages.len(),
            history.deep_view() == kept_turns(all.take(i as int)),
        decreases messages.len() - i,
    {
        let m = &messages[i];
        let ghost before = history.deep_view();
        proof {
            assert(all.take(i + 1).drop_last() =~= all.take(i as int));
            assert(all.take(i + 1).last() == m.deep_view());
        }
        match Role::from_chatml(m.role.as_str()) {
            Some(Role::User) => {
                history.push(Message::user(m.content.as_str()));
                assert(history.deep_view() =~= before.push(
                    plain_message(Role::User, m.content@),
                ));
            },
            Some(Role::Model) => {
                history.push(Message::assistant(m.content.as_str()));
                assert(history.deep_view() =~= before.push(
                    plain_message(Role::Model, m.content@),
                ));
            },
            _ => {},
        }
        i += 1;
    }
    assert(all.take(all.len() as int) =~= all);
    assert(history.deep_view().len() == history.len());
    if history.len() == 0 {
        history.push(Message::user(""));
        proof {
            reveal_strlit("");
            assert(""@ =~= Seq::<char>::empty());
            assert(history.deep_view() =~= seq![plain_message(Role::User, Seq::empty())]);
        }
    }
    history
}

/// What the prompt of a chat request renders to.
pub open spec fn chat_prompt_text(
    ms: Seq<(Seq<char>, Seq<char>)>,
    effort: Option<ReasoningEffort>,
) -> Option<Seq<char>> {
    rendered(history_of(ms), true, thinks(effort))
}

/// The prompt of a chat request: its conversation rendered with the model turn open. `None` where
/// the template engine fails.
pub fn chat_prompt(messages: &Vec<ChatMessage>, effort: Option<ReasoningEffort>) -> (r: Option<
    String,
>)
    ensures
        option_text(r) == chat_prompt_text(messages.deep_view(), effort),
{
    let history = chat_history(messages);
    let turns = history.as_slice();
    assert(turns.deep_view() =~= history.deep_view());
    render_checked(turns, true, request_thinks(effort))
}

/// The server asks the model the way it was trained: a request of one user turn without thinking
/// has the very prompt that training rows of that turn start with.
pub proof fn law_requests_read_like_training(content: Seq<char>)
    ensures
        chat_prompt_text(seq![("user"@, content)], Some(ReasoningEffort::Off)) == rendered_prompt(
            content,
        ),
        chat_prompt_text(seq![("user"@, content)], None) == single_turn(content, true),
{
    let ms = seq![("user"@, content)];
    law_role_words(Role::User);
    assert(ms.drop_last() =~= Seq::empty());
    assert(kept_turns(ms.drop_last()) =~= Seq::empty());
    assert(kept_turns(ms) =~= seq![plain_message(Role::User, content)]);
}

/// Turns that are neither the user's nor the assistant's leave no trace in the conversation.
pub proof fn law_other_turns_are_dropped(
    before: Seq<(Seq<char>, Seq<char>)>,
    turn: (Seq<char>, Seq<char>),
    after: Seq<(Seq<char>, Seq<char>)>,
)
    requires
        kept_turn(turn) is None,
    ensures
        history_of(before.push(turn) + after) == history_of(before + after),
{
    lemma_dropped_turn(before, turn, after);
}

proof fn lemma_dropped_turn(
    before: Seq<(Seq<char>, Seq<char>)>,
    turn: (Seq<char>, Seq<char>),
    after: Seq<(Seq<char>, Seq<char>)>,
)
    requires
        kept_turn(turn) is None,
    ensures
        kept_turns(before.push(turn) + after) == kept_turns(before + after),
    decreases after.len(),
{
    let with = before.push(turn) + after;
    let without = before + after;
    if after.len() == 0 {
        assert(with =~= before.push(turn));
        assert(with.drop_last() =~= before);
        assert(without =~= before);
    } else {
        lemma_dropped_turn(before, turn, after.drop_last());
        assert(with.drop_last() =~= before.push(turn) + after.drop_last());
        assert(without.drop_last() =~= before + after.drop_last());
    }
}

/// Encodes a prompt to ids; on failure, gives the message that the client is answered with.
pub fn encode(tok: &TextTokenizer, text: &str) -> (r: Result<Vec<i64>, String>)
    ensures
        match r {
            Ok(v) => exists|ids: Seq<u32>| #[trigger]
                encodes(*tok, text@, Some(ids)) && v@ == signed(ids),
            Err(m) => exists|why: Seq<char>| #[trigger]
                fails_with(*tok, text@, why) && m@ == "encode: "@ + why,
        },
{
    match encode_ids(tok, text) {
        Ok(v) => Ok(v),
        Err(e) => Err("encode: ".to_owned().concat(e.as_str())),
    }
}

/// Text that a generated token completed.
#[derive(Debug)]
pub enum Piece {
    /// None.
    Nothing,
    /// Part of the thought.
    Reasoning(String),
    /// Part of the answer.
    Content(String),
}

/// What a piece holds.
pub enum PieceView {
    Nothing,
    Reasoning(Seq<char>),
    Content(Seq<char>),
}

impl View for Piece {
    type V = PieceView;

    open spec fn view(&self) -> PieceView {
        match self {
            Piece::Nothing => PieceView::Nothing,
            Piece::Reasoning(t) => PieceView::Reasoning(t@),
            Piece::Content(t) => PieceView::Content(t@),
        }
    }
}

/// How far a reply has come.
pub struct ReplyState {
    /// The incremental decoder.
    pub stream: fastokens::DecodeStream,
    /// Whether the thought channel is open.
    pub in_thought: bool,
    /// The answer so far.
    pub content: Seq<char>,
    /// The thought so far.
    pub reasoning: Seq<char>,
    /// Whether a stop string ended the answer.
    pub stopped: bool,
}

/// A stop string that is not empty occurs in the answer.
pub open spec fn stop_hit(stops: Seq<Seq<char>>, content: Seq<char>) -> bool {
    exists|i: int|
        0 <= i < stops.len() && (#[trigger] stops[i]).len() > 0 && occurs_in(content, stops[i])
}

/// What a generated token does to a reply, and the text that it completes. The channel markers open
/// and close the thought and are never decoded.
pub open spec fn advance(
    tok: TextTokenizer,
    stops: Seq<Seq<char>>,
    s: ReplyState,
    t: i64,
) -> (ReplyState, PieceView) {
    if t == SpecialToken::ChannelOpen.spec_id() {
        (ReplyState { in_thought: true, ..s }, PieceView::Nothing)
    } else if t == SpecialToken::ChannelClose.spec_id() {
        (ReplyState { in_thought: false, ..s }, PieceView::Nothing)
    } else {
        let (stream, text) = streamed(s.stream, tok.raw(), seq![narrowed(t)]);
        match text {
            None => (ReplyState { stream, ..s }, PieceView::Nothing),
            Some(x) => if s.in_thought {
                (
                    ReplyState { stream, reasoning: s.reasoning + x, ..s },
                    PieceView::Reasoning(x),
                )
            } else {
                (
                    ReplyState {
                        stream,
                        content: s.content + x,
                        stopped: stop_hit(stops, s.content + x),
                        ..s
                    },
                    PieceView::Content(x),
                )
            },
        }
    }
}

/// A reply before its first token.
pub open spec fn reply_start() -> ReplyState {
    ReplyState {
        stream: fresh_stream(true),
        in_thought: false,
        content: Seq::empty(),
        reasoning: Seq::empty(),
        stopped: false,
    }
}

/// Drains generated tokens into a reply.
pub struct Responder {
    tokenizer: Arc<TextTokenizer>,
    stop: Vec<String>,
    stream: fastokens::DecodeStream,
    in_thought: bool,
    content: String,
    reasoning: String,
    stopped: bool,
}

impl Responder {
    /// The tokenizer that decodes.
    pub closed spec fn tok(&self) -> TextTokenizer {
        *self.tokenizer
    }

    /// The stop strings.
    pub closed spec fn stops(&self) -> Seq<Seq<char>> {
        self.stop.deep_view()
    }

    /// How far the reply has come.
    pub closed spec fn state(&self) -> ReplyState {
        ReplyState {
            stream: self.stream,
            in_thought: self.in_thought,
            content: self.content@,
            reasoning: self.reasoning@,
            stopped: self.stopped,
        }
    }

    /// A reply before its first token.
    pub fn new(tokenizer: &Arc<TextTokenizer>, stop: Vec<String>) -> (r: Self)
        ensures
            r.tok() == **tokenizer,
            r.stops() == stop.deep_view(),
            r.state() == reply_start(),
    {
        Responder {
            tokenizer: share(tokenizer),
            stop,
            stream: new_stream(true),
            in_thought: false,
            content: String::new(),
            reasoning: String::new(),
            stopped: false,
        }
    }

    /// Whether some stop string occurs in the answer.
    fn hits_stop(&self) -> (r: bool)
        ensures
            r == stop_hit(self.stops(), self.state().content),
    {
        let mut i: usize = 0;
        while i < self.stop.len()
            invariant
                i <= self.stop.len(),
                forall|j: int|
                    0 <= j < i ==> !((#[trigger] self.stop.deep_view()[j]).len() > 0 && occurs_in(
                        self.content@,
                        self.stop.deep_view()[j],
                    )),
            decreases self.stop.len() - i,
        {
            let s = self.stop[i].as_str();
            assert(self.stop.deep_view()[i as int] == s@);
            if s.unicode_len() > 0 && contains(self.content.as_str(), s) {
                assert(self.stops()[i as int].len() > 0);
                return true;
            }
            i += 1;
        }
        false
    }

    /// Takes the next generated token and gives the text that it completed.
    pub fn accept(&mut self, t: i64) -> (r: Piece)
        ensures
            final(self).tok() == old(self).tok(),
            final(self).stops() == old(self).stops(),
            (final(self).state(), r@) == advance(
                old(self).tok(),
                old(self).stops(),
                old(self).state(),
                t,
            ),
    {
        if t == SpecialToken::ChannelOpen.id() as i64 {
            self.in_thought = true;
            return Piece::Nothing;
        }
        if t == SpecialToken::ChannelClose.id() as i64 {
            self.in_thought = false;
            return Piece::Nothing;
        }
        let text = stream_step(
            &mut self.stream,
            self.tokenizer.as_raw(),
            #[verifier::truncate]
            (t as u32),
        );
        match text {
            None => Piece::Nothing,
            Some(text) => if self.in_thought {
                self.reasoning.append(text.as_str());
                Piece::Reasoning(text)
            } else {
                self.content.append(text.as_str());
                self.stopped = self.hits_stop();
                Piece::Content(text)
            },
        }
    }

    /// Whether a stop string ended the answer: no further token is to be taken.
    pub fn is_done(&self) -> (r: bool)
        ensures
            r == self.state().stopped,
    {
        self.stopped
    }

    /// The whole response: the answer, and for chat the thought in a field of its own if there is
    /// one.
    pub fn response(&self, chat: bool) -> (r: Json)
        ensures
            r.tree() == response_view(chat, self.state().content, self.state().reasoning),
    {
        if chat {
            let mut message: Vec<(String, Json)> = Vec::new();
            message.push(("role".to_owned(), text_value("assistant")));
            message.push(("content".to_owned(), text_value(self.content.as_str())));
            if self.reasoning.as_str().unicode_len() > 0 {
                message.push(
                    ("reasoning_content".to_owned(), text_value(self.reasoning.as_str())),
                );
            }
            assert(fields_tree(message@) =~= message_view(self.content@, self.reasoning@));
            let mut choice: Vec<(String, Json)> = Vec::new();
            choice.push(("index".to_owned(), number_value("0")));
            choice.push(("message".to_owned(), object_value(message)));
            choice.push(("finish_reason".to_owned(), text_value("stop")));
            assert(fields_tree(choice@) =~= whole_choice(true, self.content@, self.reasoning@));
            envelope("chat.completion", object_value(choice))
        } else {
            let mut choice: Vec<(String, Json)> = Vec::new();
            choice.push(("index".to_owned(), number_value("0")));
            choice.push(("text".to_owned(), text_value(self.content.as_str())));
            choice.push(("finish_reason".to_owned(), text_value("stop")));
            assert(fields_tree(choice@) =~= whole_choice(false, self.content@, self.reasoning@));
            envelope("text_completion", object_value(choice))
        }
    }
}

/// The fields of a response object around its one choice.
pub open spec fn envelope_view(object: Seq<char>, choice: JsonView) -> JsonView {
    JsonView::Object(
        seq![
            ("id"@, JsonView::Text(NAME@)),
            ("object"@, JsonView::Text(object)),
            ("model"@, JsonView::Text(NAME@)),
            ("choices"@, JsonView::List(seq![choice])),
        ],
    )
}

/// Puts a choice into a response object.
fn envelope(object: &str, choice: Json) -> (r: Json)
    ensures
        r.tree() == envelope_view(object@, choice.tree()),
{
    let ghost c = choice.tree();
    let mut fields: Vec<(String, Json)> = Vec::new();
    fields.push(("id".to_owned(), text_value(NAME)));
    fields.push(("object".to_owned(), text_value(object)));
    fields.push(("model".to_owned(), text_value(NAME)));
    fields.push(("choices".to_owned(), singleton(choice)));
    assert(fields_tree(fields@) =~= envelope_view(object@, c)->Object_0);
    object_value(fields)
}

/// The fields of a chat message: the answer, and the thought if there is one.
pub open spec fn message_view(content: Seq<char>, reasoning: Seq<char>) -> Seq<
    (Seq<char>, JsonView),
> {
    let plain = seq![
        ("role"@, JsonView::Text("assistant"@)),
        ("content"@, JsonView::Text(content)),
    ];
    if reasoning.len() > 0 {
        plain.push(("reasoning_content"@, JsonView::Text(reasoning)))
    } else {
        plain
    }
}

/// The choice of a whole response.
pub open spec fn whole_choice(chat: bool, content: Seq<char>, reasoning: Seq<char>) -> Seq<
    (Seq<char>, JsonView),
> {
    if chat {
        seq![
            ("index"@, JsonView::Number("0"@)),
            ("message"@, JsonView::Object(message_view(content, reasoning))),
            ("finish_reason"@, JsonView::Text("stop"@)),
        ]
    } else {
        seq![
            ("index"@, JsonView::Number("0"@)),
            ("text"@, JsonView::Text(content)),
            ("finish_reason"@, JsonView::Text("stop"@)),
        ]
    }
}

/// A whole response. Raw completions have no field for the thought, so it is left out there.
pub open spec fn response_view(chat: bool, content: Seq<char>, reasoning: Seq<char>) -> JsonView {
    envelope_view(
        if chat {
            "chat.completion"@
        } else {
            "text_completion"@
        },
        JsonView::Object(whole_choice(chat, content, reasoning)),
    )
}

/// What the chunks of a stream call themselves.
pub open spec fn chunk_object(chat: bool) -> Seq<char> {
    if chat {
        "chat.completion.chunk"@
    } else {
        "text_completion"@
    }
}

/// The fields of a chunk's choice that carries `text` under `field`, inside a delta for chat.
pub open spec fn chunk_choice(chat: bool, field: Seq<char>, text: Seq<char>) -> Seq<
    (Seq<char>, JsonView),
> {
    seq![
        ("index"@, JsonView::Number("0"@)),
        if chat {
            ("delta"@, JsonView::Object(seq![(field, JsonView::Text(text))]))
        } else {
            (field, JsonView::Text(text))
        },
        ("finish_reason"@, JsonView::Null),
    ]
}

/// The chunk that a piece is streamed as: the answer as content, or as text for raw completions;
/// the thought as reasoning for chat only.
pub open spec fn chunk_view(chat: bool, piece: PieceView) -> Option<JsonView> {
    match piece {
        PieceView::Nothing => None,
        PieceView::Reasoning(t) => if chat {
            Some(
                envelope_view(
                    chunk_object(chat),
                    JsonView::Object(chunk_choice(true, "reasoning_content"@, t)),
                ),
            )
        } else {
            None
        },
        PieceView::Content(t) => Some(
            envelope_view(
                chunk_object(chat),
                JsonView::Object(
                    chunk_choice(
                        chat,
                        if chat {
                            "content"@
                        } else {
                            "text"@
                        },
                        t,
                    ),
                ),
            ),
        ),
    }
}

/// Builds the choice of a chunk.
fn build_choice(chat: bool, field: &str, text: &str) -> (r: Json)
    ensures
        r.tree() == JsonView::Object(chunk_choice(chat, field@, text@)),
{
    let mut fields: Vec<(String, Json)> = Vec::new();
    fields.push(("index".to_owned(), number_value("0")));
    if chat {
        let mut delta: Vec<(String, Json)> = Vec::new();
        delta.push((field.to_owned(), text_value(text)));
        assert(fields_tree(delta@) =~= seq![(field@, JsonView::Text(text@))]);
        fields.push(("delta".to_owned(), object_value(delta)));
    } else {
        fields.push((field.to_owned(), text_value(text)));
    }
    fields.push(("finish_reason".to_owned(), Json::Null));
    assert(fields_tree(fields@) =~= chunk_choice(chat, field@, text@));
    object_value(fields)
}

/// The chunk that a piece is streamed as; `None` where nothing is sent for it.
pub fn chunk(chat: bool, piece: &Piece) -> (r: Option<Json>)
    ensures
        match r {
            Some(v) => chunk_view(chat, piece@) == Some(v.tree()),
            None => chunk_view(chat, piece@) is None,
        },
{
    let object = if chat {
        "chat.completion.chunk"
    } else {
        "text_completion"
    };
    match piece {
        Piece::Nothing => None,
        Piece::Reasoning(t) => if chat {
            Some(envelope(object, build_choice(true, "reasoning_content", t.as_str())))
        } else {
            None
        },
        Piece::Content(t) => {
            let field = if chat {
                "content"
            } else {
                "text"
            };
            Some(envelope(object, build_choice(chat, field, t.as_str())))
        },
    }
}

/// The last chunk of a stream: nothing more, and the reason why.
pub open spec fn last_chunk_view(chat: bool) -> JsonView {
    envelope_view(
        chunk_object(chat),
        JsonView::Object(
            seq![
                ("index"@, JsonView::Number("0"@)),
                if chat {
                    ("delta"@, JsonView::Object(Seq::empty()))
                } else {
                    ("text"@, JsonView::Text(""@))
                },
                ("finish_reason"@, JsonView::Text("stop"@)),
            ],
        ),
    )
}

/// The last chunk of a stream.
pub fn last_chunk(chat: bool) -> (r: Json)
    ensures
        r.tree() == last_chunk_view(chat),
{
    let mut fields: Vec<(String, Json)> = Vec::new();
    fields.push(("index".to_owned(), number_value("0")));
    if chat {
        let none: Vec<(String, Json)> = Vec::new();
        assert(fields_tree(none@) =~= Seq::empty());
        fields.push(("delta".to_owned(), object_value(none)));
    } else {
        fields.push(("text".to_owned(), text_value("")));
    }
    fields.push(("finish_reason".to_owned(), text_value("stop")));
    let object = if chat {
        "chat.completion.chunk"
    } else {
        "text_completion"
    };
    let ghost choice = JsonView::Object(fields_tree(fields@));
    let r = envelope(object, object_value(fields));
    proof {
        let want = last_chunk_view(chat)->Object_0[3].1->List_0[0];
        assert(choice->Object_0 =~= want->Object_0);
    }
    r
}

/// The list of models.
pub open spec fn models_view() -> JsonView {
    JsonView::Object(
        seq![
            ("object"@, JsonView::Text("list"@)),
            (
                "data"@,
                JsonView::List(
                    seq![
                        JsonView::Object(
                            seq![
                                ("id"@, JsonView::Text(NAME@)),
                                ("object"@, JsonView::Text("model"@)),
                                ("owned_by"@, JsonView::Text("local"@)),
                            ],
                        ),
                    ],
                ),
            ),
        ],
    )
}

/// The list of models, which clients ask for on connect.
pub fn models() -> (r: Json)
    ensures
        r.tree() == models_view(),
{
    let mut model: Vec<(String, Json)> = Vec::new();
    model.push(("id".to_owned(), text_value(NAME)));
    model.push(("object".to_owned(), text_value("model")));
    model.push(("owned_by".to_owned(), text_value("local")));
    proof {
        let want = models_view()->Object_0[1].1->List_0[0];
        assert(fields_tree(model@) =~= want->Object_0);
    }
    let mut fields: Vec<(String, Json)> = Vec::new();
    fields.push(("object".to_owned(), text_value("list")));
    fields.push(("data".to_owned(), singleton(object_value(model))));
    assert(fields_tree(fields@) =~= models_view()->Object_0);
    object_value(fields)
}

/// A reply after these tokens. A token after a stop is not taken.
pub open spec fn reply_after(
    tok: TextTokenizer,
    stops: Seq<Seq<char>>,
    ids: Seq<i64>,
) -> ReplyState
    decreases ids.len(),
{
    if ids.len() == 0 {
        reply_start()
    } else {
        let s = reply_after(tok, stops, ids.drop_last());
        if s.stopped {
            s
        } else {
            advance(tok, stops, s, ids.last()).0
        }
    }
}

/// The pieces that these tokens complete, one per token that is taken.
pub open spec fn pieces_of(
    tok: TextTokenizer,
    stops: Seq<Seq<char>>,
    ids: Seq<i64>,
) -> Seq<PieceView>
    decreases ids.len(),
{
    if ids.len() == 0 {
        Seq::empty()
    } else {
        let before = pieces_of(tok, stops, ids.drop_last());
        let s = reply_after(tok, stops, ids.drop_last());
        if s.stopped {
            before
        } else {
            before.push(advance(tok, stops, s, ids.last()).1)
        }
    }
}

/// The answer's pieces, joined.
pub open spec fn joined_content(pieces: Seq<PieceView>) -> Seq<char>
    decreases pieces.len(),
{
    if pieces.len() == 0 {
        Seq::empty()
    } else {
        joined_content(pieces.drop_last()) + match pieces.last() {
            PieceView::Content(t) => t,
            _ => Seq::empty(),
        }
    }
}

/// The thought's pieces, joined.
pub open spec fn joined_reasoning(pieces: Seq<PieceView>) -> Seq<char>
    decreases pieces.len(),
{
    if pieces.len() == 0 {
        Seq::empty()
    } else {
        joined_reasoning(pieces.drop_last()) + match pieces.last() {
            PieceView::Reasoning(t) => t,
            _ => Seq::empty(),
        }
    }
}

/// Streaming says what the whole response says: the streamed pieces of the answer and of the
/// thought, joined, are the answer and the thought of the whole response to the same tokens.
pub proof fn law_stream_says_the_whole(
    tok: TextTokenizer,
    stops: Seq<Seq<char>>,
    ids: Seq<i64>,
)
    ensures
        joined_content(pieces_of(tok, stops, ids)) == reply_after(tok, stops, ids).content,
        joined_reasoning(pieces_of(tok, stops, ids)) == reply_after(tok, stops, ids).reasoning,
    decreases ids.len(),
{
    if ids.len() > 0 {
        let rest = ids.drop_last();
        law_stream_says_the_whole(tok, stops, rest);
        let before = pieces_of(tok, stops, rest);
        let s = reply_after(tok, stops, rest);
        if !s.stopped {
            let (next, piece) = advance(tok, stops, s, ids.last());
            assert(before.push(piece).drop_last() =~= before);
            assert(joined_content(before.push(piece)) =~= next.content);
            assert(joined_reasoning(before.push(piece)) =~= next.reasoning);
        }
    }
}

/// A reply stops exactly when a stop string occurs in its answer. The thought never stops it.
pub proof fn law_stops_on_the_answer(
    tok: TextTokenizer,
    stops: Seq<Seq<char>>,
    ids: Seq<i64>,
)
    ensures
        reply_after(tok, stops, ids).stopped <==> stop_hit(
            stops,
            reply_after(tok, stops, ids).content,
        ),
    decreases ids.len(),
{
    if ids.len() == 0 {
        assert(!stop_hit(stops, Seq::<char>::empty()));
    } else {
        law_stops_on_the_answer(tok, stops, ids.drop_last());
    }
}

/// Between the channel markers the answer does not change, whatever is generated; outside them the
/// thought does not.
pub proof fn law_thought_stays_apart(
    tok: TextTokenizer,
    stops: Seq<Seq<char>>,
    s: ReplyState,
    t: i64,
)
    ensures
        s.in_thought ==> advance(tok, stops, s, t).0.content == s.content && advance(
            tok,
            stops,
            s,
            t,
        ).0.stopped == s.stopped,
        !s.in_thought ==> advance(tok, stops, s, t).0.reasoning == s.reasoning,
{
}

/// The channel markers switch between thought and answer and do nothing else: they are not decoded
/// and nothing is sent for them.
pub proof fn law_markers_are_not_decoded(
    tok: TextTokenizer,
    stops: Seq<Seq<char>>,
    s: ReplyState,
    chat: bool,
)
    ensures
        advance(tok, stops, s, SpecialToken::ChannelOpen.spec_id() as i64) == ((
            ReplyState { in_thought: true, ..s }),
            PieceView::Nothing,
        ),
        advance(tok, stops, s, SpecialToken::ChannelClose.spec_id() as i64) == ((
            ReplyState { in_thought: false, ..s }),
            PieceView::Nothing,
        ),
        chunk_view(chat, PieceView::Nothing) is None,
{
}

/// Raw completions never show the thought: nothing is streamed for it, and the whole response reads
/// the same whatever it is.
pub proof fn law_completions_hide_the_thought(content: Seq<char>, a: Seq<char>, b: Seq<char>)
    ensures
        chunk_view(false, PieceView::Reasoning(a)) is None,
        response_view(false, content, a) == response_view(false, content, b),
{
}

/// What a stream's closing mark reads.
pub const DONE_MARK: &'static str = "[DONE]";

/// One event of a streamed reply.
#[derive(Debug)]
pub enum ServerEvent {
    /// A chunk.
    Chunk(Json),
    /// The closing mark.
    Done,
}

/// What an event of a streamed reply holds.
pub enum EventView {
    Chunk(JsonView),
    Done,
}

impl DeepView for ServerEvent {
    type V = EventView;

    open spec fn deep_view(&self) -> EventView {
        match self {
            ServerEvent::Chunk(v) => EventView::Chunk(v.tree()),
            ServerEvent::Done => EventView::Done,
        }
    }
}

/// The chunks that these pieces are streamed as, in order.
pub open spec fn chunks_of(chat: bool, pieces: Seq<PieceView>) -> Seq<EventView>
    decreases pieces.len(),
{
    if pieces.len() == 0 {
        Seq::empty()
    } else {
        let before = chunks_of(chat, pieces.drop_last());
        match chunk_view(chat, pieces.last()) {
            Some(v) => before.push(EventView::Chunk(v)),
            None => before,
        }
    }
}

/// What every stream ends with: the last chunk, and the closing mark.
pub open spec fn closing(chat: bool) -> Seq<EventView> {
    seq![EventView::Chunk(last_chunk_view(chat)), EventView::Done]
}

/// The events of a streamed reply of these pieces: their chunks, one last chunk, and the closing
/// mark.
pub open spec fn events_of(chat: bool, pieces: Seq<PieceView>) -> Seq<EventView> {
    chunks_of(chat, pieces) + closing(chat)
}

/// A reply in the making, to be streamed or to be given whole.
pub struct Reply {
    responder: Responder,
    chat: bool,
    taken: Ghost<Seq<i64>>,
    sent: Ghost<Seq<EventView>>,
}

impl Reply {
    /// The tokenizer that decodes.
    pub closed spec fn tok(&self) -> TextTokenizer {
        self.responder.tok()
    }

    /// The stop strings.
    pub closed spec fn stops(&self) -> Seq<Seq<char>> {
        self.responder.stops()
    }

    /// Whether this answers a chat request.
    pub closed spec fn is_chat(&self) -> bool {
        self.chat
    }

    /// The tokens that were offered.
    pub closed spec fn taken(&self) -> Seq<i64> {
        self.taken@
    }

    /// The events that were given out.
    pub closed spec fn sent(&self) -> Seq<EventView> {
        self.sent@
    }

    /// How far the reply has come.
    pub closed spec fn state(&self) -> ReplyState {
        self.responder.state()
    }

    /// The reply is what its tokens make of it, and what was given out are the chunks of their
    /// pieces.
    pub open spec fn wf(&self) -> bool {
        &&& self.state() == reply_after(self.tok(), self.stops(), self.taken())
        &&& self.sent() == chunks_of(
            self.is_chat(),
            pieces_of(self.tok(), self.stops(), self.taken()),
        )
    }

    /// A reply before its first token.
    pub fn new(tokenizer: &Arc<TextTokenizer>, stop: Vec<String>, chat: bool) -> (r: Self)
        ensures
            r.wf(),
            r.tok() == **tokenizer,
            r.stops() == stop.deep_view(),
            r.is_chat() == chat,
            r.taken() == Seq::<i64>::empty(),
    {
        Reply {
            responder: Responder::new(tokenizer, stop),
            chat,
            taken: Ghost(Seq::empty()),
            sent: Ghost(Seq::empty()),
        }
    }

    /// Takes the next generated token, and gives the chunk to stream for it, if there is one. A
    /// token after a stop changes nothing.
    pub fn accept(&mut self, t: i64) -> (r: Option<Json>)
        requires
            old(self).wf(),
        ensures
            final(self).wf(),
            final(self).tok() == old(self).tok(),
            final(self).stops() == old(self).stops(),
            final(self).is_chat() == old(self).is_chat(),
            final(self).taken() == old(self).taken().push(t),
            final(self).sent() == match r {
                Some(v) => old(self).sent().push(EventView::Chunk(v.tree())),
                None => old(self).sent(),
            },
    {
        let ghost before = self.taken@;
        let ghost more = before.push(t);
        assert(more.drop_last() =~= before);
        self.taken = Ghost(more);
        if self.responder.is_done() {
            return None;
        }
        let piece = self.responder.accept(t);
        let given = chunk(self.chat, &piece);
        proof {
            let pieces = pieces_of(self.tok(), self.stops(), before);
            assert(pieces.push(piece@).drop_last() =~= pieces);
        }
        self.sent = Ghost(
            match &given {
                Some(v) => self.sent@.push(EventView::Chunk(v.tree())),
                None => self.sent@,
            },
        );
        given
    }

    /// Whether a stop string ended the answer: no further token is needed.
    pub fn is_done(&self) -> (r: bool)
        ensures
            r == self.state().stopped,
    {
        self.responder.is_done()
    }

    /// The events that close the stream, after which it is complete.
    pub fn close(self) -> (r: Vec<ServerEvent>)
        requires
            self.wf(),
        ensures
            r.deep_view() == closing(self.is_chat()),
            self.sent() + r.deep_view() == events_of(
                self.is_chat(),
                pieces_of(self.tok(), self.stops(), self.taken()),
            ),
    {
        let mut out: Vec<ServerEvent> = Vec::new();
        out.push(ServerEvent::Chunk(last_chunk(self.chat)));
        out.push(ServerEvent::Done);
        assert(out.deep_view() =~= closing(self.chat));
        out
    }

    /// The whole response.
    pub fn response(&self) -> (r: Json)
        requires
            self.wf(),
        ensures
            ({
                let end = reply_after(self.tok(), self.stops(), self.taken());
                r.tree() == response_view(self.is_chat(), end.content, end.reasoning)
            }),
    {
        self.responder.response(self.chat)
    }
}

/// The choice that an event carries.
pub open spec fn choice_of(e: EventView) -> JsonView {
    match e {
        EventView::Chunk(v) => match json_get(v, "choices"@) {
            Some(JsonView::List(choices)) => choices[0],
            _ => JsonView::Null,
        },
        EventView::Done => JsonView::Null,
    }
}

/// The text that an event carries under this field, inside the delta for chat; empty without one.
pub open spec fn event_text(chat: bool, e: EventView, field: Seq<char>) -> Seq<char> {
    let holder = if chat {
        match json_get(choice_of(e), "delta"@) {
            Some(v) => v,
            None => JsonView::Null,
        }
    } else {
        choice_of(e)
    };
    match json_get(holder, field) {
        Some(JsonView::Text(t)) => t,
        _ => Seq::empty(),
    }
}

/// The texts that events carry under this field, joined.
pub open spec fn joined_events(chat: bool, events: Seq<EventView>, field: Seq<char>) -> Seq<char>
    decreases events.len(),
{
    if events.len() == 0 {
        Seq::empty()
    } else {
        joined_events(chat, events.drop_last(), field) + event_text(chat, events.last(), field)
    }
}

/// The field of an event that carries the answer.
pub open spec fn answer_field(chat: bool) -> Seq<char> {
    if chat {
        "content"@
    } else {
        "text"@
    }
}

/// The field names of responses differ.
proof fn lemma_field_names()
    ensures
        "id"@.len() == 2,
        "text"@.len() == 4,
        "index"@.len() == 5,
        "delta"@.len() == 5,
        "model"@.len() == 5,
        "index"@[0] == 'i',
        "delta"@[0] == 'd',
        "object"@.len() == 6,
        "choices"@.len() == 7,
        "content"@.len() == 7,
        "finish_reason"@.len() == 13,
        "reasoning_content"@.len() == 17,
{
    reveal_strlit("id");
    reveal_strlit("text");
    reveal_strlit("index");
    reveal_strlit("delta");
    reveal_strlit("model");
    reveal_strlit("object");
    reveal_strlit("choices");
    reveal_strlit("content");
    reveal_strlit("finish_reason");
    reveal_strlit("reasoning_content");
}

/// The choice in a response object is the one that was put in.
proof fn lemma_envelope_choice(object: Seq<char>, choice: JsonView)
    ensures
        choice_of(EventView::Chunk(envelope_view(object, choice))) == choice,
{
    lemma_field_names();
    let fields = envelope_view(object, choice)->Object_0;
    reveal_with_fuel(field_from, 5);
    assert(fields[0].0 == "id"@ && fields[1].0 == "object"@ && fields[2].0 == "model"@
        && fields[3].0 == "choices"@);
    assert(field_from(fields, "choices"@, 0) == Some(3int));
}

/// What a choice of three fields holds under the names of its second and third.
proof fn lemma_choice_fields(a: (Seq<char>, JsonView), b: (Seq<char>, JsonView))
    requires
        a.0 == "delta"@ || a.0 == "text"@ || a.0 == "content"@ || a.0 == "reasoning_content"@,
        b.0 == "finish_reason"@,
    ensures
        ({
            let choice = JsonView::Object(seq![("index"@, JsonView::Number("0"@)), a, b]);
            &&& json_get(choice, a.0) == Some(a.1)
            &&& json_get(choice, "finish_reason"@) == Some(b.1)
            &&& a.0 != "reasoning_content"@ ==> json_get(choice, "reasoning_content"@) is None
        }),
{
    lemma_field_names();
    reveal_with_fuel(field_from, 5);
    let fields = seq![("index"@, JsonView::Number("0"@)), a, b];
    assert(fields[0].0 == "index"@ && fields[1] == a && fields[2] == b);
    assert(field_from(fields, a.0, 0) == Some(1int));
    assert(field_from(fields, "finish_reason"@, 0) == Some(2int));
    if a.0 != "reasoning_content"@ {
        assert(field_from(fields, "reasoning_content"@, 3) is None);
        assert(field_from(fields, "reasoning_content"@, 0) is None);
    }
}

/// An event is a chunk that goes on: it carries no reason to finish.
pub open spec fn goes_on(e: EventView) -> bool {
    e is Chunk && json_get(choice_of(e), "finish_reason"@) == Some(JsonView::Null)
}

/// The chunk of a piece carries the piece, as answer or as thought, and goes on.
proof fn lemma_chunk_text(chat: bool, piece: PieceView)
    requires
        chunk_view(chat, piece) is Some,
    ensures
        ({
            let e = EventView::Chunk(chunk_view(chat, piece)->0);
            &&& goes_on(e)
            &&& event_text(chat, e, answer_field(chat)) == match piece {
                PieceView::Content(t) => t,
                _ => Seq::<char>::empty(),
            }
            &&& chat ==> event_text(chat, e, "reasoning_content"@) == match piece {
                PieceView::Reasoning(t) => t,
                _ => Seq::<char>::empty(),
            }
        }),
{
    lemma_field_names();
    let (field, text) = match piece {
        PieceView::Content(t) => (answer_field(chat), t),
        PieceView::Reasoning(t) => ("reasoning_content"@, t),
        PieceView::Nothing => (Seq::empty(), Seq::empty()),
    };
    let choice = JsonView::Object(chunk_choice(chat, field, text));
    lemma_envelope_choice(chunk_object(chat), choice);
    let middle = if chat {
        ("delta"@, JsonView::Object(seq![(field, JsonView::Text(text))]))
    } else {
        (field, JsonView::Text(text))
    };
    lemma_choice_fields(middle, ("finish_reason"@, JsonView::Null));
    assert(chunk_choice(chat, field, text) =~= seq![
        ("index"@, JsonView::Number("0"@)),
        middle,
        ("finish_reason"@, JsonView::Null),
    ]);
    if chat {
        let delta = seq![(field, JsonView::Text(text))];
        reveal_with_fuel(field_from, 3);
        assert(delta[0].0 == field);
        assert(field_from(delta, field, 0) == Some(0int));
        if field == "content"@ {
            assert(field_from(delta, "reasoning_content"@, 1) is None);
            assert(field_from(delta, "reasoning_content"@, 0) is None);
        } else {
            assert(field_from(delta, "content"@, 1) is None);
            assert(field_from(delta, "content"@, 0) is None);
        }
    }
}

/// The last chunk carries no text, and the reason to finish.
proof fn lemma_last_chunk_text(chat: bool)
    ensures
        ({
            let e = EventView::Chunk(last_chunk_view(chat));
            &&& json_get(choice_of(e), "finish_reason"@) == Some(JsonView::Text("stop"@))
            &&& event_text(chat, e, answer_field(chat)).len() == 0
            &&& chat ==> event_text(chat, e, "reasoning_content"@).len() == 0
        }),
{
    lemma_field_names();
    reveal_strlit("");
    let middle = if chat {
        ("delta"@, JsonView::Object(Seq::empty()))
    } else {
        ("text"@, JsonView::Text(""@))
    };
    let fields = seq![
        ("index"@, JsonView::Number("0"@)),
        middle,
        ("finish_reason"@, JsonView::Text("stop"@)),
    ];
    lemma_envelope_choice(chunk_object(chat), JsonView::Object(fields));
    lemma_choice_fields(middle, ("finish_reason"@, JsonView::Text("stop"@)));
    assert(last_chunk_view(chat) == envelope_view(chunk_object(chat), JsonView::Object(fields)));
}

/// What the chunks of pieces carry, joined, is what the pieces hold, joined; and every chunk goes
/// on.
proof fn lemma_joined_chunks(chat: bool, pieces: Seq<PieceView>)
    ensures
        joined_events(chat, chunks_of(chat, pieces), answer_field(chat)) == joined_content(pieces),
        chat ==> joined_events(chat, chunks_of(chat, pieces), "reasoning_content"@)
            == joined_reasoning(pieces),
        forall|i: int|
            0 <= i < chunks_of(chat, pieces).len() ==> goes_on(
                #[trigger] chunks_of(chat, pieces)[i],
            ),
    decreases pieces.len(),
{
    if pieces.len() > 0 {
        let rest = pieces.drop_last();
        lemma_joined_chunks(chat, rest);
        let before = chunks_of(chat, rest);
        let piece = pieces.last();
        match chunk_view(chat, piece) {
            Some(v) => {
                lemma_chunk_text(chat, piece);
                assert(before.push(EventView::Chunk(v)).drop_last() =~= before);
            },
            None => {
                assert(joined_content(pieces) =~= joined_content(rest));
                if chat {
                    assert(joined_reasoning(pieces) =~= joined_reasoning(rest));
                }
            },
        }
    }
}

/// A streamed reply says what the whole response to the same tokens says, and ends as it should:
/// the answers in its events, joined, are the response's answer; for chat the thoughts, joined, are
/// its thought; it ends with one chunk that gives the reason to finish and then the closing mark,
/// and every event before these is a chunk that goes on.
pub proof fn law_events_say_the_response(
    tok: TextTokenizer,
    stops: Seq<Seq<char>>,
    ids: Seq<i64>,
    chat: bool,
)
    ensures
        ({
            let events = events_of(chat, pieces_of(tok, stops, ids));
            let end = reply_after(tok, stops, ids);
            let n = events.len() as int;
            &&& joined_events(chat, events, answer_field(chat)) == end.content
            &&& chat ==> joined_events(chat, events, "reasoning_content"@) == end.reasoning
            &&& n >= 2
            &&& events[n - 1] is Done
            &&& events[n - 2] is Chunk && json_get(choice_of(events[n - 2]), "finish_reason"@)
                == Some(JsonView::Text("stop"@))
            &&& forall|i: int| 0 <= i < n - 2 ==> goes_on(#[trigger] events[i])
        }),
{
    let pieces = pieces_of(tok, stops, ids);
    let chunks = chunks_of(chat, pieces);
    let events = events_of(chat, pieces);
    let last = EventView::Chunk(last_chunk_view(chat));
    law_stream_says_the_whole(tok, stops, ids);
    lemma_joined_chunks(chat, pieces);
    lemma_last_chunk_text(chat);
    assert(events.drop_last() =~= chunks.push(last));
    assert(chunks.push(last).drop_last() =~= chunks);
    assert forall|field: Seq<char>| event_text(chat, last, field).len() == 0 implies
        #[trigger] joined_events(chat, events, field) == joined_events(chat, chunks, field) by {
        assert(event_text(chat, EventView::Done, field) =~= Seq::empty());
        assert(joined_events(chat, chunks.push(last), field) =~= joined_events(
            chat,
            chunks,
            field,
        ));
        assert(joined_events(chat, events, field) =~= joined_events(
            chat,
            chunks.push(last),
            field,
        ));
    }
    assert forall|i: int| 0 <= i < events.len() - 2 implies goes_on(#[trigger] events[i]) by {
        assert(events[i] == chunks[i]);
    }
}

/// Whatever text the incremental decoder completes is kept. For every token but the two channel
/// markers, the decoder is fed the token; if it completes a text, the token's piece is that very
/// text, a line break or a space as much as a word, as thought while the channel is open and as
/// answer otherwise, and the thought or the answer grows by it and by nothing else.
pub proof fn law_every_decoded_text_is_kept(
    tok: TextTokenizer,
    stops: Seq<Seq<char>>,
    s: ReplyState,
    t: i64,
)
    requires
        t != 6 && t != 7,
    ensures
        ({
            let (stream, text) = streamed(s.stream, tok.raw(), seq![t as u32]);
            let (next, piece) = advance(tok, stops, s, t);
            &&& next.stream == stream
            &&& next.in_thought == s.in_thought
            &&& text matches Some(x) ==> if s.in_thought {
                &&& piece == PieceView::Reasoning(x)
                &&& next.reasoning == s.reasoning + x
                &&& next.content == s.content
            } else {
                &&& piece == PieceView::Content(x)
                &&& next.content == s.content + x
                &&& next.reasoning == s.reasoning
            }
            &&& text is None ==> piece is Nothing && next.content == s.content && next.reasoning
                == s.reasoning && next.stopped == s.stopped
        }),
{
}

/// What the decoder has completed after some tokens, inside the thought channel and outside it.
pub struct Heard {
    pub stream: fastokens::DecodeStream,
    pub inside_now: bool,
    pub outside: Seq<char>,
    pub inside: Seq<char>,
}

/// What the decoder completes of these tokens, fed one after the other but for the two markers,
/// which open and close the thought channel.
pub open spec fn heard(tok: TextTokenizer, ids: Seq<i64>) -> Heard
    decreases ids.len(),
{
    if ids.len() == 0 {
        Heard {
            stream: fresh_stream(true),
            inside_now: false,
            outside: Seq::empty(),
            inside: Seq::empty(),
        }
    } else {
        let h = heard(tok, ids.drop_last());
        if ids.last() == 6 {
            Heard { inside_now: true, ..h }
        } else if ids.last() == 7 {
            Heard { inside_now: false, ..h }
        } else {
            let (stream, text) = streamed(h.stream, tok.raw(), seq![ids.last() as u32]);
            match text {
                Some(x) => if h.inside_now {
                    Heard { stream, inside: h.inside + x, ..h }
                } else {
                    Heard { stream, outside: h.outside + x, ..h }
                },
                None => Heard { stream, ..h },
            }
        }
    }
}

/// A reply is what the decoder completes, no more and no less: up to the first token after which a
/// stop string stands in it, the answer is all that the decoder completes outside the thought
/// channel, and the thought all that it completes inside. Without such a token every token counts.
/// Gives the number of tokens that count.
pub proof fn law_reply_is_what_is_decoded(
    tok: TextTokenizer,
    stops: Seq<Seq<char>>,
    ids: Seq<i64>,
) -> (n: int)
    ensures
        0 <= n <= ids.len(),
        reply_after(tok, stops, ids).content == heard(tok, ids.take(n)).outside,
        reply_after(tok, stops, ids).reasoning == heard(tok, ids.take(n)).inside,
        reply_after(tok, stops, ids).stream == heard(tok, ids.take(n)).stream,
        reply_after(tok, stops, ids).in_thought == heard(tok, ids.take(n)).inside_now,
        reply_after(tok, stops, ids).stopped <==> stop_hit(stops, heard(tok, ids.take(n)).outside),
        n < ids.len() ==> reply_after(tok, stops, ids).stopped,
        forall|m: int|
            0 <= m < n ==> !stop_hit(stops, #[trigger] heard(tok, ids.take(m)).outside),
    decreases ids.len(),
{
    if ids.len() == 0 {
        assert(ids.take(0) =~= ids);
        assert(!stop_hit(stops, Seq::<char>::empty()));
        0
    } else {
        let rest = ids.drop_last();
        let k = law_reply_is_what_is_decoded(tok, stops, rest);
        let s = reply_after(tok, stops, rest);
        assert(rest.take(k) =~= ids.take(k));
        assert forall|m: int| 0 <= m < k implies !stop_hit(
            stops,
            #[trigger] heard(tok, ids.take(m)).outside,
        ) by {
            assert(rest.take(m) =~= ids.take(m));
        }
        if s.stopped {
            k
        } else {
            assert(k == rest.len());
            assert(ids.take(ids.len() as int) =~= ids);
            assert(ids.take(k) =~= rest);
            assert(heard(tok, ids.take(k)).outside == s.content);
            ids.len() as int
        }
    }
}

/// Without stop strings a reply is all that the decoder completes of all its tokens.
pub proof fn law_nothing_is_lost_without_stops(tok: TextTokenizer, ids: Seq<i64>)
    ensures
        reply_after(tok, Seq::empty(), ids).content == heard(tok, ids).outside,
        reply_after(tok, Seq::empty(), ids).reasoning == heard(tok, ids).inside,
        !reply_after(tok, Seq::empty(), ids).stopped,
{
    let n = law_reply_is_what_is_decoded(tok, Seq::empty(), ids);
    assert(!stop_hit(Seq::empty(), heard(tok, ids.take(n)).outside));
    assert(ids.take(ids.len() as int) =~= ids);
}

/// A stop string ends a reply where the answer is something, the stop string, and something; the
/// empty stop string never does.
pub proof fn law_stop_strings_stand_in_the_answer(stops: Seq<Seq<char>>, content: Seq<char>)
    ensures
        stop_hit(stops, content) <==> exists|i: int, a: Seq<char>, b: Seq<char>|
            0 <= i < stops.len() && stops[i].len() > 0 && content == #[trigger] ((a + stops[i])
                + b),
{
    if stop_hit(stops, content) {
        let i = choose|i: int|
            0 <= i < stops.len() && (#[trigger] stops[i]).len() > 0 && occurs_in(
                content,
                stops[i],
            );
        law_occurrence_splits_the_text(content, stops[i]);
        let (a, b) = choose|a: Seq<char>, b: Seq<char>| content == #[trigger] ((a + stops[i]) + b);
        assert(content == ((a + stops[i]) + b));
    }
    if exists|i: int, a: Seq<char>, b: Seq<char>|
        0 <= i < stops.len() && stops[i].len() > 0 && content == #[trigger] ((a + stops[i]) + b) {
        let (i, a, b) = choose|i: int, a: Seq<char>, b: Seq<char>|
            0 <= i < stops.len() && stops[i].len() > 0 && content == #[trigger] ((a + stops[i])
                + b);
        law_occurrence_splits_the_text(content, stops[i]);
    }
}

/// Every token that counts has its piece, in order, and no token after a stop has one: pieces are
/// added one by one and never merged or dropped.
pub proof fn law_each_token_has_its_piece(
    tok: TextTokenizer,
    stops: Seq<Seq<char>>,
    ids: Seq<i64>,
    t: i64,
)
    ensures
        pieces_of(tok, stops, Seq::empty()) == Seq::<PieceView>::empty(),
        reply_after(tok, stops, ids).stopped ==> pieces_of(tok, stops, ids.push(t)) == pieces_of(
            tok,
            stops,
            ids,
        ) && reply_after(tok, stops, ids.push(t)) == reply_after(tok, stops, ids),
        !reply_after(tok, stops, ids).stopped ==> {
            let (next, piece) = advance(tok, stops, reply_after(tok, stops, ids), t);
            &&& pieces_of(tok, stops, ids.push(t)) == pieces_of(tok, stops, ids).push(piece)
            &&& reply_after(tok, stops, ids.push(t)) == next
        },
        ({
            let start = reply_after(tok, stops, Seq::empty());
            &&& start.stream == fresh_stream(true)
            &&& start.content.len() == 0 && start.reasoning.len() == 0
            &&& !start.in_thought && !start.stopped
        }),
{
    assert(ids.push(t).drop_last() =~= ids);
}

/// Every piece that is to be seen is streamed as a chunk of its own, in order: pieces of the
/// answer always, pieces of the thought for chat only.
pub proof fn law_every_visible_piece_is_streamed(chat: bool, pieces: Seq<PieceView>)
    ensures
        chunks_of(chat, pieces) == pieces.filter(
            |p: PieceView| p is Content || (chat && p is Reasoning),
        ).map_values(|p: PieceView| EventView::Chunk(chunk_view(chat, p)->0)),
    decreases pieces.len(),
{
    reveal(Seq::filter);
    let visible = |p: PieceView| p is Content || (chat && p is Reasoning);
    let event = |p: PieceView| EventView::Chunk(chunk_view(chat, p)->0);
    if pieces.len() > 0 {
        let rest = pieces.drop_last();
        law_every_visible_piece_is_streamed(chat, rest);
        let kept = rest.filter(visible);
        let p = pieces.last();
        if visible(p) {
            assert(kept.push(p).map_values(event) =~= kept.map_values(event).push(event(p)));
        }
        assert(chunk_view(chat, p) is Some <==> visible(p));
    } else {
        assert(pieces.filter(visible).map_values(event) =~= Seq::empty());
    }
}

/// The chunk of a piece carries the piece's text, whole, under the field that clients read it
/// from, and no text under any other such field; it does not finish the stream, and it names the
/// model and what kind of object it is.
pub proof fn law_chunks_carry_their_piece(chat: bool, text: Seq<char>)
    ensures
        ({
            let e = EventView::Chunk(chunk_view(true, PieceView::Content(text))->0);
            &&& chunk_view(true, PieceView::Content(text)) is Some
            &&& event_text(true, e, "content"@) == text
            &&& event_text(true, e, "reasoning_content"@).len() == 0
        }),
        ({
            let e = EventView::Chunk(chunk_view(true, PieceView::Reasoning(text))->0);
            &&& chunk_view(true, PieceView::Reasoning(text)) is Some
            &&& event_text(true, e, "reasoning_content"@) == text
            &&& event_text(true, e, "content"@).len() == 0
        }),
        ({
            let e = EventView::Chunk(chunk_view(false, PieceView::Content(text))->0);
            &&& chunk_view(false, PieceView::Content(text)) is Some
            &&& event_text(false, e, "text"@) == text
        }),
        chunk_view(false, PieceView::Reasoning(text)) is None,
        chunk_view(chat, PieceView::Nothing) is None,
        chunk_view(chat, PieceView::Content(text)) matches Some(v) ==> {
            &&& json_get(v, "id"@) == Some(JsonView::Text("gabriel-laevis"@))
            &&& json_get(v, "model"@) == Some(JsonView::Text("gabriel-laevis"@))
            &&& json_get(v, "object"@) == Some(
                JsonView::Text(
                    if chat {
                        "chat.completion.chunk"@
                    } else {
                        "text_completion"@
                    },
                ),
            )
            &&& goes_on(EventView::Chunk(v))
        },
{
    lemma_chunk_text(true, PieceView::Content(text));
    lemma_chunk_text(true, PieceView::Reasoning(text));
    lemma_chunk_text(false, PieceView::Content(text));
    if let Some(v) = chunk_view(chat, PieceView::Content(text)) {
        lemma_envelope_fields(v->Object_0[1].1->Text_0, v->Object_0[3].1->List_0[0]);
    }
}

/// A response object names itself, the model and its kind.
proof fn lemma_envelope_fields(object: Seq<char>, choice: JsonView)
    ensures
        json_get(envelope_view(object, choice), "id"@) == Some(JsonView::Text("gabriel-laevis"@)),
        json_get(envelope_view(object, choice), "model"@) == Some(
            JsonView::Text("gabriel-laevis"@),
        ),
        json_get(envelope_view(object, choice), "object"@) == Some(JsonView::Text(object)),
        json_get(envelope_view(object, choice), "choices"@) == Some(
            JsonView::List(seq![choice]),
        ),
{
    lemma_field_names();
    reveal_with_fuel(field_from, 5);
    let fields = envelope_view(object, choice)->Object_0;
    assert(fields[0].0 == "id"@ && fields[1].0 == "object"@ && fields[2].0 == "model"@
        && fields[3].0 == "choices"@);
    assert(field_from(fields, "id"@, 0) == Some(0int));
    assert(field_from(fields, "object"@, 0) == Some(1int));
    assert(field_from(fields, "model"@, 0) == Some(2int));
    assert(field_from(fields, "choices"@, 0) == Some(3int));
}

/// Where clients read the answer of a whole response, there it stands; the thought of a chat
/// stands in its own field, which is there exactly where there is a thought; and the reason to
/// finish is given.
pub proof fn law_responses_carry_answer_and_thought(content: Seq<char>, reasoning: Seq<char>)
    ensures
        ({
            let v = response_view(true, content, reasoning);
            let choice = choice_of(EventView::Chunk(v));
            let message = json_get(choice, "message"@)->0;
            &&& json_get(v, "object"@) == Some(JsonView::Text("chat.completion"@))
            &&& json_get(v, "id"@) == Some(JsonView::Text("gabriel-laevis"@))
            &&& json_get(v, "model"@) == Some(JsonView::Text("gabriel-laevis"@))
            &&& json_get(choice, "finish_reason"@) == Some(JsonView::Text("stop"@))
            &&& json_get(choice, "message"@) is Some
            &&& json_get(message, "role"@) == Some(JsonView::Text("assistant"@))
            &&& json_get(message, "content"@) == Some(JsonView::Text(content))
            &&& reasoning.len() > 0 ==> json_get(message, "reasoning_content"@) == Some(
                JsonView::Text(reasoning),
            )
            &&& reasoning.len() == 0 ==> json_get(message, "reasoning_content"@) is None
        }),
        ({
            let v = response_view(false, content, reasoning);
            let choice = choice_of(EventView::Chunk(v));
            &&& json_get(v, "object"@) == Some(JsonView::Text("text_completion"@))
            &&& json_get(v, "id"@) == Some(JsonView::Text("gabriel-laevis"@))
            &&& json_get(v, "model"@) == Some(JsonView::Text("gabriel-laevis"@))
            &&& json_get(choice, "finish_reason"@) == Some(JsonView::Text("stop"@))
            &&& json_get(choice, "text"@) == Some(JsonView::Text(content))
            &&& json_get(choice, "reasoning_content"@) is None
        }),
{
    lemma_field_names();
    reveal_strlit("message");
    reveal_strlit("role");
    reveal_with_fuel(field_from, 5);
    let message = message_view(content, reasoning);
    assert(message[0].0 == "role"@ && message[1].0 == "content"@);
    assert(field_from(message, "role"@, 0) == Some(0int));
    assert(field_from(message, "content"@, 0) == Some(1int));
    if reasoning.len() > 0 {
        assert(message[2].0 == "reasoning_content"@);
        assert(field_from(message, "reasoning_content"@, 0) == Some(2int));
    } else {
        assert(field_from(message, "reasoning_content"@, 2) is None);
        assert(field_from(message, "reasoning_content"@, 0) is None);
    }
    let chat = whole_choice(true, content, reasoning);
    assert(chat[0].0 == "index"@ && chat[1].0 == "message"@ && chat[2].0 == "finish_reason"@);
    assert(field_from(chat, "message"@, 0) == Some(1int));
    assert(field_from(chat, "finish_reason"@, 0) == Some(2int));
    lemma_envelope_fields("chat.completion"@, JsonView::Object(chat));
    let raw = whole_choice(false, content, reasoning);
    assert(raw =~= seq![
        ("index"@, JsonView::Number("0"@)),
        ("text"@, JsonView::Text(content)),
        ("finish_reason"@, JsonView::Text("stop"@)),
    ]);
    lemma_choice_fields(
        ("text"@, JsonView::Text(content)),
        ("finish_reason"@, JsonView::Text("stop"@)),
    );
    lemma_envelope_fields("text_completion"@, JsonView::Object(raw));
}

/// The conversation of a request is its user and assistant turns, all of them, each with its own
/// words and in order; a request without any is one empty user turn.
pub proof fn law_conversation_is_the_users_and_assistants_turns(ms: Seq<(Seq<char>, Seq<char>)>)
    ensures
        ({
            let kept = ms.filter(
                |m: (Seq<char>, Seq<char>)| m.0 == "user"@ || m.0 == "assistant"@,
            ).map_values(
                |m: (Seq<char>, Seq<char>)|
                    (MessageView {
                        role: if m.0 == "user"@ {
                            Role::User
                        } else {
                            Role::Model
                        },
                        content: m.1,
                        thinking: None,
                    }),
            );
            history_of(ms) == if kept.len() > 0 {
                kept
            } else {
                seq![
                    (MessageView { role: Role::User, content: Seq::empty(), thinking: None }),
                ]
            }
        }),
{
    lemma_kept_turns(ms);
}

proof fn lemma_kept_turns(ms: Seq<(Seq<char>, Seq<char>)>)
    ensures
        kept_turns(ms) == ms.filter(
            |m: (Seq<char>, Seq<char>)| m.0 == "user"@ || m.0 == "assistant"@,
        ).map_values(
            |m: (Seq<char>, Seq<char>)|
                (MessageView {
                    role: if m.0 == "user"@ {
                        Role::User
                    } else {
                        Role::Model
                    },
                    content: m.1,
                    thinking: None,
                }),
        ),
    decreases ms.len(),
{
    reveal(Seq::filter);
    let wanted = |m: (Seq<char>, Seq<char>)| m.0 == "user"@ || m.0 == "assistant"@;
    let turn = |m: (Seq<char>, Seq<char>)|
        (MessageView {
            role: if m.0 == "user"@ {
                Role::User
            } else {
                Role::Model
            },
            content: m.1,
            thinking: None,
        });
    if ms.len() > 0 {
        let rest = ms.drop_last();
        lemma_kept_turns(rest);
        let kept = rest.filter(wanted);
        let m = ms.last();
        law_role_words(Role::User);
        law_role_words(Role::Model);
        reveal_strlit("user");
        reveal_strlit("assistant");
        reveal_strlit("system");
        reveal_strlit("developer");
        reveal_strlit("tool");
        if wanted(m) {
            assert(kept.push(m).map_values(turn) =~= kept.map_values(turn).push(turn(m)));
        }
        assert(wanted(m) <==> kept_turn(m) is Some);
    } else {
        assert(ms.filter(wanted).map_values(turn) =~= Seq::empty());
    }
}

/// A request's prompt is its conversation, rendered with the model turn open, and with the
/// thinking cue unless the request asks for no effort at all.
pub proof fn law_prompt_renders_the_conversation(
    ms: Seq<(Seq<char>, Seq<char>)>,
    effort: Option<ReasoningEffort>,
)
    ensures
        effort == Some(ReasoningEffort::Off) ==> chat_prompt_text(ms, effort) == rendered(
            history_of(ms),
            true,
            false,
        ),
        effort != Some(ReasoningEffort::Off) ==> chat_prompt_text(ms, effort) == rendered(
            history_of(ms),
            true,
            true,
        ),
{
}

/// The list of models has one, by the name that every response carries.
pub proof fn law_one_model_is_listed()
    ensures
        json_get(models_view(), "object"@) == Some(JsonView::Text("list"@)),
        json_get(models_view(), "data"@) matches Some(JsonView::List(data)) && data.len() == 1
            && json_get(data[0], "id"@) == Some(JsonView::Text(NAME@)) && json_get(
            data[0],
            "object"@,
        ) == Some(JsonView::Text("model"@)) && json_get(data[0], "owned_by"@) == Some(
            JsonView::Text("local"@),
        ),
{
    reveal_strlit("id");
    reveal_strlit("object");
    reveal_strlit("data");
    reveal_strlit("owned_by");
    reveal_with_fuel(crate::json::field_from, 4);
    assert("id"@.len() == 2 && "object"@.len() == 6 && "data"@.len() == 4 && "owned_by"@.len()
        == 8);
}

} // verus!
